use tynx::graph::DType;
use tynx::parameter::{next_param_id, DeviceInfo, ParamIdSource, ParameterSlot, ReadKind, TensorInfo};
use tynx::store::ParameterStore;

fn training_device() -> DeviceInfo {
    DeviceInfo { name: "Cpu".to_string(), autodiff: true }
}

fn inference_device() -> DeviceInfo {
    DeviceInfo { name: "Cpu".to_string(), autodiff: false }
}

fn tensor(dims: &[usize], device: &DeviceInfo) -> TensorInfo {
    TensorInfo { shape: dims.to_vec(), dtype: DType::F32, device: device.clone() }
}

#[test]
fn clones_share_stable_identity_and_state() {
    let device = training_device();
    let mut ids = ParamIdSource::new();
    let mut slot = ParameterSlot::new(&mut ids, Some("weight".to_string()), &tensor(&[2], &device), true).unwrap();
    let alias = slot.clone();
    let mut store = ParameterStore::new();
    store.insert("weight".to_string(), slot.clone()).unwrap();

    assert_eq!(slot.id(), alias.id());
    assert_eq!(slot.name().as_deref(), Some("weight"));
    store.replace_value(alias.id(), &tensor(&[2], &device)).unwrap();
    assert!(store.refresh(&mut slot));
    assert_eq!(slot.value_generation(), 1);
    assert_eq!(slot.structure_generation(), 0);
    assert_eq!(store.get_by_name("weight").unwrap().value_generation(), 1);
}

#[test]
fn reuses_one_leaf_for_every_read_of_a_value_generation() {
    let device = training_device();
    let mut ids = ParamIdSource::new();
    let mut slot = ParameterSlot::new(&mut ids, None, &tensor(&[2], &device), true).unwrap();
    let first = slot.read();
    let second = slot.read();

    assert_eq!(first, ReadKind::NewLeaf);
    assert_eq!(second, ReadKind::ReuseLeaf);
    assert!(slot.leaf_is_current());
}

#[test]
fn compatible_updates_advance_only_the_value_generation() {
    let device = training_device();
    let mut ids = ParamIdSource::new();
    let mut slot = ParameterSlot::new(&mut ids, None, &tensor(&[2], &device), true).unwrap();
    assert_eq!(slot.read(), ReadKind::NewLeaf);

    slot.replace_value(&tensor(&[2], &device)).unwrap();
    assert!(!slot.leaf_is_current());
    let new_leaf = slot.read();

    assert_eq!(slot.value_generation(), 1);
    assert_eq!(slot.structure_generation(), 0);
    assert_eq!(new_leaf, ReadKind::NewLeaf);
}

#[test]
fn incompatible_value_updates_require_explicit_rebinding() {
    let device = training_device();
    let mut ids = ParamIdSource::new();
    let mut slot = ParameterSlot::new(&mut ids, None, &tensor(&[2], &device), true).unwrap();

    let error = slot.replace_value(&tensor(&[1, 2], &device)).unwrap_err();
    assert!(error.message().contains("use rebind"));
    assert_eq!(slot.value_generation(), 0);
    assert_eq!(slot.structure_generation(), 0);

    slot.rebind(&tensor(&[1, 2], &device), true).unwrap();
    assert_eq!(slot.value_generation(), 1);
    assert_eq!(slot.structure_generation(), 1);
    assert_eq!(slot.contract().shape(), [1, 2]);
}

#[test]
fn device_autodiff_capability_is_part_of_the_contract() {
    let inference = inference_device();
    let training = training_device();
    let mut ids = ParamIdSource::new();
    let mut slot = ParameterSlot::new(&mut ids, None, &tensor(&[2], &inference), false).unwrap();

    let error = slot.replace_value(&tensor(&[2], &training)).unwrap_err();

    assert!(error.message().contains("use rebind"));
    assert_eq!(slot.value_generation(), 0);
    assert_eq!(slot.structure_generation(), 0);
}

#[test]
fn freeze_and_unfreeze_are_structural_changes() {
    let device = training_device();
    let mut ids = ParamIdSource::new();
    let mut slot = ParameterSlot::new(&mut ids, None, &tensor(&[2], &device), true).unwrap();

    slot.set_trainable(false).unwrap();
    assert_eq!(slot.read(), ReadKind::OffTape);
    assert_eq!(slot.value_generation(), 1);
    assert_eq!(slot.structure_generation(), 1);

    slot.set_trainable(true).unwrap();
    assert_ne!(slot.read(), ReadKind::OffTape);
    assert_eq!(slot.value_generation(), 2);
    assert_eq!(slot.structure_generation(), 2);
}

#[test]
fn trainable_slots_require_f32_and_an_autodiff_device() {
    let mut ids = ParamIdSource::new();
    let error = ParameterSlot::new(&mut ids, None, &tensor(&[2], &inference_device()), true).unwrap_err();
    assert!(error.message().contains("autodiff-enabled device"));

    let f64 = TensorInfo { shape: vec![2], dtype: DType::F64, device: training_device() };
    let error = ParameterSlot::new(&mut ids, None, &f64, true).unwrap_err();
    assert!(error.message().contains("must use f32"));
}

#[test]
fn identities_count_up_from_one() {
    let mut ids = ParamIdSource::new();
    assert_eq!(next_param_id(&mut ids).get(), 1);
    assert_eq!(next_param_id(&mut ids).get(), 2);
    let slot = ParameterSlot::new(&mut ids, None, &tensor(&[1], &training_device()), true).unwrap();
    assert_eq!(slot.id().get(), 3);
}

#[test]
fn refused_slots_take_no_identity() {
    let mut ids = ParamIdSource::new();
    assert!(ParameterSlot::new(&mut ids, None, &tensor(&[1], &inference_device()), true).is_err());
    assert_eq!(next_param_id(&mut ids).get(), 1);
}

#[test]
fn frozen_slots_accept_any_dtype_and_device() {
    let mut ids = ParamIdSource::new();
    let value = TensorInfo { shape: vec![3], dtype: DType::I64, device: inference_device() };
    let mut slot = ParameterSlot::new(&mut ids, Some("running_count".to_string()), &value, false).unwrap();
    assert_eq!(slot.read(), ReadKind::OffTape);
    assert!(!slot.contract().trainable());
    assert_eq!(slot.contract().dtype(), DType::I64);
}

#[test]
fn gradient_accumulates_only_for_the_current_leaf() {
    let device = training_device();
    let mut ids = ParamIdSource::new();
    let mut slot = ParameterSlot::new(&mut ids, None, &tensor(&[2], &device), true).unwrap();
    let gradient = tensor(&[2], &device);
    assert_eq!(slot.accumulate_from(Some(&gradient)).unwrap(), false);
    slot.read();
    assert_eq!(slot.accumulate_from(None).unwrap(), false);
    assert!(!slot.has_grad());
    let wrong = tensor(&[3], &device);
    assert!(slot.accumulate_from(Some(&wrong)).is_err());
    assert_eq!(slot.accumulate_from(Some(&gradient)).unwrap(), true);
    assert!(slot.has_grad());
    slot.zero_grad();
    assert!(!slot.has_grad());
}

#[test]
fn contract_text_lists_its_parts() {
    let mut ids = ParamIdSource::new();
    let slot = ParameterSlot::new(&mut ids, None, &tensor(&[2, 3], &training_device()), true).unwrap();
    let text = slot.contract().to_text();
    assert!(text.contains("[2, 3]"));
    assert!(text.contains("F32"));
}
