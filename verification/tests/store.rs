use tynx::graph::DType;
use tynx::parameter::{DeviceInfo, ParamId, ParamIdSource, ParameterSlot, ReadKind, TensorInfo};
use tynx::store::ParameterStore;

fn training_device() -> DeviceInfo {
    DeviceInfo { name: "Cpu".to_string(), autodiff: true }
}

fn slot(ids: &mut ParamIdSource, trainable: bool, device: &DeviceInfo) -> ParameterSlot {
    let value = TensorInfo { shape: vec![1], dtype: DType::F32, device: device.clone() };
    ParameterSlot::new(ids, None, &value, trainable).unwrap()
}

#[test]
fn retains_unique_slots_in_insertion_order() {
    let device = training_device();
    let mut ids = ParamIdSource::new();
    let first = slot(&mut ids, true, &device);
    let second = slot(&mut ids, true, &device);
    let mut store = ParameterStore::new();

    store.insert("layer2.weight".to_string(), first.clone()).unwrap();
    store.insert("layer1.weight".to_string(), second.clone()).unwrap();

    assert_eq!(store.len(), 2);
    assert_eq!(store.iter().iter().map(|s| s.id()).collect::<Vec<_>>(), [first.id(), second.id()]);
    assert_eq!(store.named().iter().map(|(name, _)| *name).collect::<Vec<_>>(), ["layer2.weight", "layer1.weight"]);
}

#[test]
fn tied_paths_select_the_lexical_canonical_name() {
    let device = training_device();
    let mut ids = ParamIdSource::new();
    let mut tied = slot(&mut ids, true, &device);
    let mut store = ParameterStore::new();

    store.insert("z_head.weight".to_string(), tied.clone()).unwrap();
    store.insert("a_shared.weight".to_string(), tied.clone()).unwrap();
    store.insert("m_alias.weight".to_string(), tied.clone()).unwrap();

    assert_eq!(store.len(), 1);
    assert_eq!(store.canonical_name(tied.id()), Some("a_shared.weight"));
    assert!(store.refresh(&mut tied));
    assert_eq!(tied.name().as_deref(), Some("a_shared.weight"));
    assert_eq!(store.aliases(tied.id()), ["m_alias.weight", "z_head.weight"]);
    assert_eq!(store.get_by_name("z_head.weight").unwrap().id(), tied.id());
    assert_eq!(store.id_by_name("m_alias.weight"), Some(tied.id()));
}

#[test]
fn registering_the_same_path_and_slot_is_idempotent() {
    let device = training_device();
    let mut ids = ParamIdSource::new();
    let weight = slot(&mut ids, true, &device);
    let mut store = ParameterStore::new();

    store.insert("weight".to_string(), weight.clone()).unwrap();
    store.insert("weight".to_string(), weight.clone()).unwrap();

    assert_eq!(store.len(), 1);
    assert_eq!(store.aliases(weight.id()).len(), 0);
}

#[test]
fn rejects_a_name_shared_by_distinct_slots() {
    let device = training_device();
    let mut ids = ParamIdSource::new();
    let first = slot(&mut ids, true, &device);
    let second = slot(&mut ids, true, &device);
    let mut store = ParameterStore::new();

    store.insert("weight".to_string(), first.clone()).unwrap();
    let error = store.insert("weight".to_string(), second).unwrap_err();

    assert!(error.message().contains("already bound"));
    assert_eq!(store.len(), 1);
    assert_eq!(store.get_by_name("weight").unwrap().id(), first.id());
}

#[test]
fn trainable_iteration_skips_frozen_slots_and_aliases() {
    let device = training_device();
    let mut ids = ParamIdSource::new();
    let weight = slot(&mut ids, true, &device);
    let frozen = slot(&mut ids, false, &device);
    let mut store = ParameterStore::new();

    store.insert("weight".to_string(), weight.clone()).unwrap();
    store.insert("tied_weight".to_string(), weight.clone()).unwrap();
    store.insert("running_mean".to_string(), frozen).unwrap();

    assert_eq!(store.trainable().iter().map(|s| s.id()).collect::<Vec<_>>(), [weight.id()]);
}

#[test]
fn rejects_empty_persisted_names() {
    let device = training_device();
    let mut ids = ParamIdSource::new();
    let mut store = ParameterStore::new();

    let error = store.insert("  ".to_string(), slot(&mut ids, true, &device)).unwrap_err();

    assert!(error.message().contains("cannot be empty"));
    assert!(store.is_empty());
}

#[test]
fn already_bound_message_names_the_owner() {
    let device = training_device();
    let mut ids = ParamIdSource::new();
    let first = slot(&mut ids, true, &device);
    let second = slot(&mut ids, true, &device);
    let mut store = ParameterStore::new();
    store.insert("w".to_string(), first).unwrap();
    let error = store.insert("w".to_string(), second).unwrap_err();
    assert_eq!(error.message(), "parameter name 'w' is already bound to slot 1");
}

#[test]
fn lookups_of_unknown_identities_and_names_are_empty() {
    let store = ParameterStore::new();
    assert!(store.get(ParamId(7)).is_none());
    assert!(store.get_by_name("weight").is_none());
    assert_eq!(store.id_by_name("weight"), None);
    assert_eq!(store.canonical_name(ParamId(7)), None);
    assert!(store.aliases(ParamId(7)).is_empty());
}

#[test]
fn zero_grad_clears_every_gradient() {
    let device = training_device();
    let mut ids = ParamIdSource::new();
    let mut weight = slot(&mut ids, true, &device);
    let gradient = TensorInfo { shape: vec![1], dtype: DType::F32, device: device.clone() };
    weight.read();
    assert_eq!(weight.accumulate_from(Some(&gradient)).unwrap(), true);
    assert!(weight.has_grad());
    let id = weight.id();
    let mut store = ParameterStore::new();
    store.insert("weight".to_string(), weight).unwrap();
    store.zero_grad();
    assert!(!store.get(id).unwrap().has_grad());
}

#[test]
fn backward_accumulates_into_current_trainable_leaves() {
    let device = training_device();
    let mut ids = ParamIdSource::new();
    let mut weight = slot(&mut ids, true, &device);
    let mut bias = slot(&mut ids, true, &device);
    let frozen = slot(&mut ids, false, &device);
    weight.read();
    bias.read();
    let (w, b, f) = (weight.id(), bias.id(), frozen.id());
    let mut store = ParameterStore::new();
    store.insert("weight".to_string(), weight.clone()).unwrap();
    store.insert("tied".to_string(), weight).unwrap();
    store.insert("bias".to_string(), bias).unwrap();
    store.insert("mean".to_string(), frozen).unwrap();

    let gradient = TensorInfo { shape: vec![1], dtype: DType::F32, device: device.clone() };
    let taken = store.accumulate_gradients(&[(w, gradient.clone()), (f, gradient.clone())]).unwrap();
    assert_eq!(taken, 1);
    assert!(store.get(w).unwrap().has_grad());
    assert!(!store.get(b).unwrap().has_grad());
    assert!(!store.get(f).unwrap().has_grad());

    let wrong = TensorInfo { shape: vec![2], dtype: DType::F32, device };
    let error = store.accumulate_gradients(&[(b, wrong)]).unwrap_err();
    assert!(error.message().starts_with("gradient shape [2]"));
    assert!(!store.get(b).unwrap().has_grad());
}

fn grad(device: &DeviceInfo) -> TensorInfo {
    TensorInfo { shape: vec![1], dtype: DType::F32, device: device.clone() }
}

#[test]
fn tied_aliases_accumulate_only_once() {
    let device = training_device();
    let mut ids = ParamIdSource::new();
    let mut parameter = slot(&mut ids, true, &device);
    let mut store = ParameterStore::new();
    store.insert("left.weight".to_string(), parameter.clone()).unwrap();
    store.insert("right.weight".to_string(), parameter.clone()).unwrap();
    assert_eq!(store.read(parameter.id()), Some(ReadKind::NewLeaf));
    assert_eq!(store.read(parameter.id()), Some(ReadKind::ReuseLeaf));

    assert_eq!(store.accumulate_gradients(&[(parameter.id(), grad(&device))]).unwrap(), 1);
    assert!(store.refresh(&mut parameter));
    assert!(parameter.has_grad());
}

#[test]
fn value_replacement_does_not_clear_gradients() {
    let device = training_device();
    let mut ids = ParamIdSource::new();
    let mut parameter = slot(&mut ids, true, &device);
    let mut store = ParameterStore::new();
    store.insert("weight".to_string(), parameter.clone()).unwrap();
    store.read(parameter.id());
    store.accumulate_gradients(&[(parameter.id(), grad(&device))]).unwrap();

    store.replace_value(parameter.id(), &grad(&device)).unwrap();

    assert!(store.refresh(&mut parameter));
    assert!(parameter.has_grad());
    assert_eq!(parameter.value_generation(), 1);
}

#[test]
fn repeated_backward_accumulates_until_zeroed() {
    let device = training_device();
    let mut ids = ParamIdSource::new();
    let mut parameter = slot(&mut ids, true, &device);
    let mut store = ParameterStore::new();
    store.insert("weight".to_string(), parameter.clone()).unwrap();
    for _ in 0..2 {
        store.read(parameter.id());
        assert_eq!(store.accumulate_gradients(&[(parameter.id(), grad(&device))]).unwrap(), 1);
    }
    assert!(store.refresh(&mut parameter));
    assert!(parameter.has_grad());

    store.zero_grad();
    assert!(store.refresh(&mut parameter));
    assert!(!parameter.has_grad());
}

#[test]
fn writes_through_one_handle_are_read_through_every_name() {
    let device = training_device();
    let mut ids = ParamIdSource::new();
    let tied = slot(&mut ids, true, &device);
    let mut store = ParameterStore::new();
    store.insert("encoder.weight".to_string(), tied.clone()).unwrap();
    store.insert("decoder.weight".to_string(), tied.clone()).unwrap();
    store.replace_value(tied.id(), &grad(&device)).unwrap();
    assert_eq!(store.get_by_name("encoder.weight").unwrap().value_generation(), 1);
    assert_eq!(store.get_by_name("decoder.weight").unwrap().value_generation(), 1);
    let wrong = TensorInfo { shape: vec![3], dtype: DType::F32, device: device.clone() };
    assert!(store.replace_value(tied.id(), &wrong).is_err());
    assert_eq!(store.get_by_name("decoder.weight").unwrap().value_generation(), 1);
    let stranger = slot(&mut ids, true, &device);
    assert_eq!(
        store.replace_value(stranger.id(), &grad(&device)).unwrap_err().message(),
        format!("parameter slot {} is not registered in this store", stranger.id().get())
    );
    assert_eq!(store.read(stranger.id()), None);
}
