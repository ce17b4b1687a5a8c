use tynx::capture::{BinaryOp, GraphBuilder, TensorSignature, UnaryOp, ValueId};
use tynx::error::TynxError;
use tynx::graph::DType;
use tynx::parameter::{DeviceInfo, ParamIdSource, ParameterSlot, TensorInfo};

fn training_device() -> DeviceInfo {
    DeviceInfo { name: "Cpu".to_string(), autodiff: true }
}

fn tensor(shape: [usize; 2], device: &DeviceInfo) -> TensorInfo {
    TensorInfo { shape: shape.to_vec(), dtype: DType::F32, device: device.clone() }
}

#[test]
fn replays_linear_relu_graph_and_tracks_current_slots() {
    let device = training_device();
    let mut ids = ParamIdSource::new();
    let input = tensor([2, 2], &device);
    let weight = ParameterSlot::new(&mut ids, Some("weight".to_string()), &tensor([2, 2], &device), true).unwrap();
    let bias = ParameterSlot::new(&mut ids, Some("bias".to_string()), &tensor([1, 2], &device), true).unwrap();

    let mut builder = GraphBuilder::new();
    let x = builder.input(&input);
    let w = builder.parameter(&weight);
    let b = builder.parameter(&bias);
    let affine = builder.binary(BinaryOp::Matmul, x, w).unwrap();
    let affine = builder.binary(BinaryOp::Add, affine, b).unwrap();
    let output = builder.unary(UnaryOp::Relu, affine).unwrap();
    let graph = builder.finish(vec![output]).unwrap();

    assert_eq!(graph.node_count(), 6);
    assert_eq!(graph.parameters().len(), 2);
    let mut weight = weight;
    weight.replace_value(&tensor([2, 2], &device)).unwrap();
    // A value update keeps the structure the graph was captured with.
    graph.validate_replay(&[tensor([2, 2], &device)], &[weight, bias]).unwrap();
}

#[test]
fn exact_input_signature_rejects_shape_changes() {
    let device = training_device();
    let input = tensor([2, 2], &device);
    let mut builder = GraphBuilder::new();
    let output = builder.input(&input);
    let graph = builder.finish(vec![output]).unwrap();

    let changed = tensor([1, 4], &device);
    let error = graph.validate_inputs(&[changed]).unwrap_err();
    assert!(error.message().contains("expected shape [2, 2]"));
    assert!(error.message().contains("got shape [1, 4]"));
}

#[test]
fn structural_parameter_changes_invalidate_replay() {
    let device = training_device();
    let mut ids = ParamIdSource::new();
    let input = tensor([2, 2], &device);
    let parameter = ParameterSlot::new(&mut ids, Some("weight".to_string()), &tensor([2, 2], &device), true).unwrap();
    let mut builder = GraphBuilder::new();
    let x = builder.input(&input);
    let w = builder.parameter(&parameter);
    let output = builder.binary(BinaryOp::Matmul, x, w).unwrap();
    let graph = builder.finish(vec![output]).unwrap();

    let mut parameter = parameter;
    parameter.set_trainable(false).unwrap();
    let error = graph.validate_replay(&[input], &[parameter]).unwrap_err();
    assert!(error.message().contains("changed structure"));
}

#[test]
fn signatures_include_dtype_and_autodiff_device_capability() {
    let device = training_device();
    let input = tensor([2, 2], &device);
    let signature = TensorSignature::from_tensor(&input);

    assert_eq!(signature.shape(), [2, 2]);
    assert_eq!(signature.dtype(), DType::F32);
    assert!(signature.device().autodiff);
}

#[test]
fn builder_refuses_unknown_values_and_empty_outputs() {
    let device = training_device();
    let mut builder = GraphBuilder::new();
    let x = builder.input(&tensor([1, 1], &device));
    let error = builder.unary(UnaryOp::Relu, ValueId(5)).unwrap_err();
    assert!(matches!(error, TynxError::MissingValue(_)));
    assert_eq!(error.message(), "captured node 5");
    assert!(builder.binary(BinaryOp::Add, x, ValueId(1)).is_err());
    let error = builder.finish(Vec::new()).unwrap_err();
    assert_eq!(error.message(), "a captured graph must have at least one output");
}

#[test]
fn replay_checks_input_count_and_slots() {
    let device = training_device();
    let mut ids = ParamIdSource::new();
    let parameter = ParameterSlot::new(&mut ids, None, &tensor([1, 1], &device), true).unwrap();
    let mut builder = GraphBuilder::new();
    let x = builder.input(&tensor([1, 1], &device));
    let w = builder.parameter(&parameter);
    let w_again = builder.parameter(&parameter);
    let y = builder.binary(BinaryOp::Multiply, x, w).unwrap();
    let z = builder.binary(BinaryOp::Add, y, w_again).unwrap();
    let graph = builder.finish(vec![z]).unwrap();

    assert_eq!(graph.parameters(), [parameter.id()]);
    assert_eq!(graph.input_signatures().len(), 1);
    let error = graph.validate_replay(&[], &[parameter.clone()]).unwrap_err();
    assert_eq!(error.message(), "captured graph expected 1 inputs, got 0");
    let error = graph.validate_replay(&[tensor([1, 1], &device)], &[]).unwrap_err();
    assert!(matches!(error, TynxError::MissingValue(_)));
    graph.validate_replay(&[tensor([1, 1], &device)], &[parameter]).unwrap();
}

#[test]
fn value_ids_expose_their_index() {
    assert_eq!(ValueId(3).index(), 3);
}

#[test]
fn finished_graph_keeps_input_signatures_in_order() {
    let device = training_device();
    let mut builder = GraphBuilder::new();
    let x = builder.input(&tensor([2, 2], &device));
    let y = builder.input(&tensor([1, 4], &device));
    let sum = builder.binary(BinaryOp::Add, x, y).unwrap();
    let graph = builder.finish(vec![sum]).unwrap();
    let signatures = graph.input_signatures();
    assert_eq!(signatures.len(), 2);
    assert_eq!(signatures[0].shape(), [2, 2]);
    assert_eq!(signatures[1].shape(), [1, 4]);
    assert_eq!(signatures[1].dtype(), DType::F32);
}
