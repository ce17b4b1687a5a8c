use tynx::parameter::ParamId;
use tynx::tape::{absorb_target, check_backward, check_target, GradTarget, TargetCheck};

fn param(id: u64, generation: Option<u64>, conflict: bool) -> GradTarget {
    GradTarget::Parameter { id: ParamId(id), generation, conflict }
}

#[test]
fn absorbing_a_new_target_appends_it_with_the_current_generation() {
    let mut targets = vec![GradTarget::Leaf(7)];
    absorb_target(&mut targets, param(3, None, false), 5);
    assert_eq!(targets, vec![GradTarget::Leaf(7), param(3, Some(5), false)]);
    absorb_target(&mut targets, GradTarget::Leaf(8), 0);
    assert_eq!(targets.len(), 3);
    assert_eq!(targets[2], GradTarget::Leaf(8));
}

#[test]
fn absorbing_the_same_target_twice_keeps_one_entry() {
    let mut targets = Vec::new();
    absorb_target(&mut targets, param(1, Some(2), false), 2);
    absorb_target(&mut targets, param(1, Some(2), false), 2);
    assert_eq!(targets, vec![param(1, Some(2), false)]);
    absorb_target(&mut targets, GradTarget::Leaf(4), 0);
    absorb_target(&mut targets, GradTarget::Leaf(4), 0);
    assert_eq!(targets.len(), 2);
}

#[test]
fn reading_a_slot_at_two_generations_marks_a_conflict() {
    let mut targets = vec![param(1, Some(2), false)];
    absorb_target(&mut targets, param(1, Some(3), false), 3);
    assert_eq!(targets, vec![param(1, Some(2), true)]);
    let unread = vec![param(1, None, false)];
    let mut merged = unread.clone();
    absorb_target(&mut merged, param(1, Some(4), false), 6);
    assert_eq!(merged, vec![param(1, Some(6), true)]);
}

#[test]
fn target_checks_name_the_slot() {
    let conflict = TargetCheck { target: param(9, Some(1), true), current_generation: 1, name: Some("w".to_string()) };
    assert_eq!(
        check_target(&conflict).unwrap_err(),
        "parameter w was used at multiple value generations in one graph; rebuild the graph before backward()"
    );
    let modified = TargetCheck { target: param(3, Some(1), false), current_generation: 2, name: None };
    assert_eq!(
        check_target(&modified).unwrap_err(),
        "parameter #3 was modified after the forward pass; rebuild the graph before backward()"
    );
    let fresh = TargetCheck { target: param(3, Some(2), false), current_generation: 2, name: None };
    assert!(check_target(&fresh).is_ok());
    let leaf = TargetCheck { target: GradTarget::Leaf(1), current_generation: 0, name: None };
    assert!(check_target(&leaf).is_ok());
}

#[test]
fn backward_checks_come_in_order() {
    assert_eq!(
        check_backward(&[2, 3], None, true, false, &[]).unwrap_err(),
        "backward() without an explicit gradient requires a one-element tensor, got shape [2, 3]"
    );
    assert_eq!(
        check_backward(&[1], None, false, false, &[]).unwrap_err(),
        "backward() requires a tensor attached to an autodiff graph"
    );
    assert_eq!(
        check_backward(&[], None, true, true, &[]).unwrap_err(),
        "backward() graph was already freed by a previous backward() call"
    );
    let stale = TargetCheck { target: param(5, Some(0), false), current_generation: 1, name: Some("bias".to_string()) };
    assert_eq!(
        check_backward(&[1, 1], None, true, false, &[stale]).unwrap_err(),
        "parameter bias was modified after the forward pass; rebuild the graph before backward()"
    );
    assert_eq!(
        check_backward(&[1], Some(&[2]), true, false, &[]).unwrap_err(),
        "backward() gradient shape [2] does not match output shape [1]"
    );
    assert!(check_backward(&[2, 2], Some(&[2, 2]), true, false, &[]).is_ok());
    assert!(check_backward(&[1], None, true, false, &[]).is_ok());
}
