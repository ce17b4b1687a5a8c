use tynx::autograd::check_loss_shape;
use tynx::browser::{checked_shape, only_name};
use tynx::error::TynxError;

#[test]
fn backward_needs_a_one_element_loss() {
    check_loss_shape(&[1]).unwrap();
    check_loss_shape(&[1, 1, 1]).unwrap();
    check_loss_shape(&[]).unwrap();
    let error = check_loss_shape(&[2, 1]).unwrap_err();
    assert!(matches!(error, TynxError::Shape(_)));
    assert_eq!(error.message(), "backward without an explicit gradient requires a one-element loss, got shape [2, 1]");
    let error = check_loss_shape(&[usize::MAX, 2, 0]).unwrap_err();
    assert_eq!(error.message(), "loss element count overflowed usize");
}

#[test]
fn browser_inputs_must_match_their_shape() {
    assert_eq!(checked_shape(&[2, 3], 6).unwrap(), [2, 3]);
    assert_eq!(checked_shape(&[2, 3], 5).unwrap_err(), "input shape contains 6 elements, but received 5");
    assert_eq!(checked_shape(&[], 1).unwrap(), Vec::<usize>::new());
    assert_eq!(
        checked_shape(&[u32::MAX, u32::MAX, u32::MAX], 1).unwrap_err(),
        "input shape overflows usize"
    );
}

#[test]
fn browser_sessions_need_one_input_and_one_output() {
    assert_eq!(only_name(&["x".to_string()], "input").unwrap(), "x");
    assert_eq!(only_name(&[], "output").unwrap_err(), "the WASM scaffold requires exactly one model output");
    assert_eq!(
        only_name(&["a".to_string(), "b".to_string()], "input").unwrap_err(),
        "the WASM scaffold requires exactly one model input"
    );
}

#[test]
fn rejects_non_scalar_and_detached_losses() {
    let error = check_loss_shape(&[2]).unwrap_err();
    assert!(error.message().contains("one-element loss"));
}
