use tynx::graph::DType;
use tynx::optimizer::{
    check_adam_binding, check_adam_entries, check_state_destinations, check_state_kind, unique_trainable,
    validate_parameter_name_match, validate_state_names, validate_state_tensor, with_gradients, AdamEntryInfo,
    AdamStateKind,
};
use tynx::parameter::{DeviceInfo, ParamId, ParamIdSource, ParameterSlot, TensorInfo};

fn names(list: &[&str]) -> Vec<String> {
    list.iter().map(|s| s.to_string()).collect()
}

fn value(shape: &[usize]) -> TensorInfo {
    TensorInfo {
        shape: shape.to_vec(),
        dtype: DType::F32,
        device: DeviceInfo { name: "Cpu".to_string(), autodiff: true },
    }
}

#[test]
fn state_kinds_must_match_the_optimizer() {
    check_state_kind(AdamStateKind::AdamW, AdamStateKind::AdamW).unwrap();
    let error = check_state_kind(AdamStateKind::Adam, AdamStateKind::AdamW).unwrap_err();
    assert_eq!(error.message(), "cannot load Adam state into AdamW optimizer");
    assert_eq!(AdamStateKind::AdamW.text(), "AdamW");
}

#[test]
fn state_names_are_sorted_and_checked() {
    let sorted = validate_state_names(names(&["b", "a"]), &names(&["a"]), "SGD").unwrap();
    assert_eq!(sorted, ["a", "b"]);
    let error = validate_state_names(names(&["a", "a"]), &names(&[]), "SGD").unwrap_err();
    assert_eq!(error.message(), "duplicate SGD parameter state name 'a'");
    let error = validate_state_names(names(&[" "]), &names(&[]), "SGD").unwrap_err();
    assert_eq!(error.message(), "SGD parameter state name cannot be empty");
    let error = validate_state_names(names(&["a"]), &names(&["z"]), "Adam").unwrap_err();
    assert_eq!(error.message(), "Adam state for unknown parameter name 'z'");
}

#[test]
fn live_and_saved_names_must_agree() {
    validate_parameter_name_match(&names(&["a", "b"]), &names(&["b", "a"]), "SGD").unwrap();
    let error = validate_parameter_name_match(&names(&["a", "c"]), &names(&["b", "a"]), "SGD").unwrap_err();
    assert_eq!(error.message(), "SGD parameter names do not match: missing=[\"c\"], unexpected=[\"b\"]");
}

#[test]
fn state_destinations_are_unique() {
    check_state_destinations(&vec![ParamId(1), ParamId(2)], "SGD").unwrap();
    let error = check_state_destinations(&vec![ParamId(1), ParamId(2), ParamId(1)], "SGD").unwrap_err();
    assert_eq!(error.message(), "duplicate SGD state destination for parameter 1");
}

#[test]
fn state_tensors_must_match_the_parameter_contract() {
    let mut ids = ParamIdSource::new();
    let slot = ParameterSlot::new(&mut ids, None, &value(&[2]), true).unwrap();
    validate_state_tensor("momentum", &value(&[2]), &slot).unwrap();
    let error = validate_state_tensor("momentum", &value(&[3]), &slot).unwrap_err();
    assert_eq!(
        error.message(),
        "momentum shape [3], dtype F32, and device Cpu do not match parameter 1 contract shape [2], dtype F32, and device Cpu"
    );
}

#[test]
fn adam_entries_are_checked_in_order() {
    let good = AdamEntryInfo { name: "w".to_string(), step: 3, has_max_second_moment: false };
    let zero = AdamEntryInfo { name: "b".to_string(), step: 0, has_max_second_moment: false };
    check_adam_entries(&vec![good.clone()], false).unwrap();
    let error = check_adam_entries(&vec![good.clone(), zero], false).unwrap_err();
    assert_eq!(error.message(), "Adam state step for 'b' must be positive");
    let error = check_adam_entries(&vec![good], true).unwrap_err();
    assert_eq!(error.message(), "Adam state maximum second moment for 'w' must match amsgrad=true configuration");
    check_adam_binding(1, true, true).unwrap();
    assert_eq!(check_adam_binding(0, true, true).unwrap_err().message(), "Adam state step must be positive");
    assert_eq!(
        check_adam_binding(2, false, true).unwrap_err().message(),
        "Adam state maximum second moment presence must match amsgrad=true configuration"
    );
}

#[test]
fn updates_visit_each_trainable_identity_once() {
    let mut ids = ParamIdSource::new();
    let mut weight = ParameterSlot::new(&mut ids, None, &value(&[2]), true).unwrap();
    let frozen = ParameterSlot::new(&mut ids, None, &value(&[2]), false).unwrap();
    let bias = ParameterSlot::new(&mut ids, None, &value(&[2]), true).unwrap();
    weight.read();
    weight.accumulate_from(Some(&value(&[2]))).unwrap();
    let tied = weight.clone();
    let slots = vec![&weight, &frozen, &tied, &bias];
    let unique = unique_trainable(&slots);
    assert_eq!(unique, [0, 3]);
    assert_eq!(with_gradients(&slots, &unique), [0]);
}
