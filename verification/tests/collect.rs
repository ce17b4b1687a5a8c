use tynx::collect::{collect_parameter_slots, collect_parameters, CollectError, ParameterItem};
use tynx::error::TynxError;
use tynx::graph::DType;
use tynx::parameter::{DeviceInfo, ParamIdSource, ParameterSlot, TensorInfo};

fn slot(ids: &mut ParamIdSource, name: Option<&str>, trainable: bool) -> ParameterSlot {
    let device = DeviceInfo { name: "Cpu".to_string(), autodiff: true };
    let value = TensorInfo { shape: vec![2], dtype: DType::F32, device };
    ParameterSlot::new(ids, name.map(|n| n.to_string()), &value, trainable).unwrap()
}

fn pair(name: &str, parameter: &ParameterSlot) -> ParameterItem {
    ParameterItem::Pair { len: 2, name: Some(name.to_string()), parameter: Some(parameter.clone()) }
}

fn type_error(r: Result<tynx::collect::CollectedParameters, CollectError>) -> String {
    match r {
        Err(CollectError::Type(m)) => m,
        _ => panic!("expected a type error"),
    }
}

#[test]
fn bare_parameters_are_kept_once_in_first_seen_order() {
    let mut ids = ParamIdSource::new();
    let a = slot(&mut ids, None, true);
    let b = slot(&mut ids, None, true);
    let items = vec![
        ParameterItem::Single(Some(b.clone())),
        ParameterItem::Single(Some(a.clone())),
        ParameterItem::Single(Some(b.clone())),
    ];
    let collected = collect_parameters(items, "SGD").ok().unwrap();
    assert_eq!(collected.slots.iter().map(|s| s.id()).collect::<Vec<_>>(), [b.id(), a.id()]);
    assert!(collected.named.is_none());
}

#[test]
fn named_slots_are_registered_under_their_own_names() {
    let mut ids = ParamIdSource::new();
    let w = slot(&mut ids, Some("layer.weight"), true);
    let b = slot(&mut ids, Some("layer.bias"), true);
    let items = vec![ParameterItem::Single(Some(w.clone())), ParameterItem::Single(Some(b.clone()))];
    let collected = collect_parameters(items, "Adam").ok().unwrap();
    let store = collected.named.unwrap();
    assert_eq!(store.len(), 2);
    assert_eq!(store.id_by_name("layer.bias"), Some(b.id()));
    assert_eq!(store.id_by_name("layer.weight"), Some(w.id()));

    let clash_a = slot(&mut ids, Some("same"), true);
    let clash_b = slot(&mut ids, Some("same"), true);
    let items = vec![ParameterItem::Single(Some(clash_a)), ParameterItem::Single(Some(clash_b))];
    assert!(collect_parameters(items, "Adam").ok().unwrap().named.is_none());

    let empty_name = slot(&mut ids, Some(""), true);
    let items = vec![ParameterItem::Single(Some(empty_name))];
    assert!(collect_parameters(items, "Adam").ok().unwrap().named.is_none());
}

#[test]
fn pairs_register_every_name_of_a_tied_slot() {
    let mut ids = ParamIdSource::new();
    let tied = slot(&mut ids, None, true);
    let items = vec![pair("decoder.weight", &tied), pair("encoder.weight", &tied)];
    let collected = collect_parameters(items, "AdamW").ok().unwrap();
    assert_eq!(collected.slots.len(), 1);
    let store = collected.named.unwrap();
    assert_eq!(store.len(), 1);
    assert_eq!(store.canonical_name(tied.id()), Some("decoder.weight"));
    assert_eq!(store.aliases(tied.id()), ["encoder.weight"]);
}

#[test]
fn malformed_lists_are_refused_with_the_first_problem() {
    let mut ids = ParamIdSource::new();
    let w = slot(&mut ids, None, true);
    let frozen = slot(&mut ids, None, false);
    assert_eq!(
        type_error(collect_parameters(vec![ParameterItem::Single(Some(w.clone())), pair("w", &w)], "SGD")),
        "SGD parameters cannot mix Parameter objects and named pairs"
    );
    assert_eq!(
        type_error(collect_parameters(
            vec![ParameterItem::Pair { len: 3, name: None, parameter: None }],
            "SGD"
        )),
        "SGD named parameters must be (name, Parameter) pairs"
    );
    assert_eq!(
        type_error(collect_parameters(
            vec![ParameterItem::Pair { len: 2, name: None, parameter: Some(w.clone()) }],
            "SGD"
        )),
        "SGD parameter names must be strings"
    );
    assert_eq!(
        type_error(collect_parameters(vec![ParameterItem::Single(Some(frozen.clone()))], "SGD")),
        "SGD parameters must contain only Parameter objects"
    );
    assert_eq!(
        type_error(collect_parameters(vec![ParameterItem::Single(Some(w.clone())), ParameterItem::Single(None)], "Adam")),
        "Adam parameters must contain only Parameter objects"
    );
    match collect_parameters(Vec::new(), "SGD") {
        Err(CollectError::Value(m)) => assert_eq!(m, "SGD requires at least one Parameter"),
        _ => panic!("expected a value error"),
    }
}

#[test]
fn a_name_bound_to_two_slots_is_refused_by_the_store() {
    let mut ids = ParamIdSource::new();
    let a = slot(&mut ids, None, true);
    let b = slot(&mut ids, None, true);
    match collect_parameters(vec![pair("w", &a), pair("w", &b)], "SGD") {
        Err(CollectError::Store(TynxError::TypeMismatch(m))) => {
            assert_eq!(m, format!("parameter name 'w' is already bound to slot {}", a.id().get()));
        }
        _ => panic!("expected the store to refuse the name"),
    }
    match collect_parameters(vec![pair(" ", &a)], "SGD") {
        Err(CollectError::Store(TynxError::TypeMismatch(m))) => assert_eq!(m, "parameter state name cannot be empty"),
        _ => panic!("expected the store to refuse a blank name"),
    }
}

#[test]
fn plain_slot_lists_accept_frozen_parameters() {
    let mut ids = ParamIdSource::new();
    let frozen = slot(&mut ids, None, false);
    let w = slot(&mut ids, None, true);
    let slots = collect_parameter_slots(vec![Some(frozen.clone()), Some(w.clone()), Some(frozen.clone())], "clip_grad_norm_")
        .ok()
        .unwrap();
    assert_eq!(slots.iter().map(|s| s.id()).collect::<Vec<_>>(), [frozen.id(), w.id()]);
    match collect_parameter_slots(vec![Some(w.clone()), None], "SGD") {
        Err(CollectError::Type(m)) => assert_eq!(m, "SGD parameters must contain only Parameter objects"),
        _ => panic!("expected a type error"),
    }
    match collect_parameter_slots(Vec::new(), "SGD") {
        Err(CollectError::Value(m)) => assert_eq!(m, "SGD requires at least one Parameter"),
        _ => panic!("expected a value error"),
    }
}
