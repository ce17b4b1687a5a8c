use tynx::binding::{bind_model_inputs, InputBinding};

fn names(list: &[&str]) -> Vec<String> {
    list.iter().map(|s| s.to_string()).collect()
}

#[test]
fn positional_and_keyword_arguments_fill_inputs() {
    let declared = names(&["x", "mask"]);
    assert_eq!(
        bind_model_inputs(&declared, 1, &names(&["mask"])).unwrap(),
        [InputBinding::Positional(0), InputBinding::Keyword(0)]
    );
    assert_eq!(
        bind_model_inputs(&declared, 0, &names(&["mask", "x"])).unwrap(),
        [InputBinding::Keyword(1), InputBinding::Keyword(0)]
    );
    assert_eq!(
        bind_model_inputs(&declared, 2, &[]).unwrap(),
        [InputBinding::Positional(0), InputBinding::Positional(1)]
    );
}

#[test]
fn argument_binding_errors_name_the_problem() {
    let declared = names(&["x", "mask"]);
    assert_eq!(
        bind_model_inputs(&declared, 3, &[]).unwrap_err(),
        "ImportedModel expected at most 2 positional inputs, got 3"
    );
    assert_eq!(
        bind_model_inputs(&declared, 0, &names(&["y"])).unwrap_err(),
        "ImportedModel got an unexpected input \"y\"; expected [\"x\", \"mask\"]"
    );
    assert_eq!(
        bind_model_inputs(&declared, 1, &names(&["x"])).unwrap_err(),
        "ImportedModel got multiple values for input \"x\""
    );
    assert_eq!(
        bind_model_inputs(&declared, 0, &names(&["mask"])).unwrap_err(),
        "ImportedModel is missing required inputs [\"x\"]"
    );
}
