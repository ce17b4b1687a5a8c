use tynx::error::TynxError;
use tynx::graph::{ArgType, Argument, DType, InitializerId, Node, OnnxGraph, OpKind, TensorType, ValueSource};
use tynx::imported::{
    analyze_imported_outputs, display_shape, materialize_report, validate_input, validate_inputs, validate_slot_backed, EmbeddedData,
    ImportedState, InitializerNameOverrides, InputValue,
};
use tynx::parameter::{DeviceInfo, ParamIdSource, TensorInfo};
use tynx::trainability::{InitializerRole, TrainabilityOverrides, TrainabilityReport};

fn training_device() -> DeviceInfo {
    DeviceInfo { name: "Cpu".to_string(), autodiff: true }
}

fn inference_device() -> DeviceInfo {
    DeviceInfo { name: "Cpu".to_string(), autodiff: false }
}

fn tensor_type(shape: &[usize]) -> ArgType {
    ArgType::Tensor(TensorType {
        dtype: DType::F32,
        rank: shape.len(),
        static_shape: Some(shape.iter().map(|d| Some(*d)).collect()),
    })
}

fn dynamic(name: &str, shape: &[usize]) -> Argument {
    Argument {
        name: name.to_string(),
        ty: tensor_type(shape),
        value_source: ValueSource::Dynamic,
        value_shape: None,
        value_dtype: None,
        bool_head: None,
    }
}

fn constant(name: &str, shape: &[usize]) -> Argument {
    let mut argument = dynamic(name, shape);
    argument.value_source = ValueSource::Constant;
    argument
}

fn constant_with_data(name: &str, shape: &[usize]) -> Argument {
    let mut argument = constant(name, shape);
    argument.value_shape = Some(shape.to_vec());
    argument.value_dtype = Some(DType::F32);
    argument
}

fn static_tensor(data_id: usize, shape: &[usize]) -> Argument {
    let mut argument = dynamic("", shape);
    argument.value_source = ValueSource::Static(data_id);
    argument
}

fn linear(name: &str, weight: Argument, bias: Argument) -> Node {
    Node {
        kind: OpKind::Linear,
        name: name.to_string(),
        inputs: vec![dynamic("x", &[1, 2]), weight, bias],
        outputs: vec![dynamic(&format!("{name}.output"), &[1, 2])],
    }
}

fn graph(nodes: Vec<Node>) -> OnnxGraph {
    OnnxGraph { nodes, inputs: Vec::new(), outputs: Vec::new() }
}

fn data(id: InitializerId, shape: &[usize]) -> EmbeddedData {
    EmbeddedData { id, shape: shape.to_vec(), dtype: DType::F32 }
}

fn named(name: &str) -> InitializerId {
    InitializerId::Named(name.to_string())
}

fn input_tensor(shape: &[usize], device: &DeviceInfo) -> InputValue {
    InputValue::Float(TensorInfo { shape: shape.to_vec(), dtype: DType::F32, device: device.clone() })
}

#[test]
fn materializes_parameters_and_buffers_with_stable_roles() {
    let graph = graph(vec![
        linear("encoder", constant("encoder.weight", &[2, 2]), constant("encoder.bias", &[2])),
        Node {
            kind: OpKind::BatchNormalization,
            name: "norm".to_string(),
            inputs: vec![
                dynamic("encoder.output", &[1, 2]),
                constant("norm.scale", &[2]),
                constant("norm.bias", &[2]),
                constant("norm.mean", &[2]),
                constant("norm.variance", &[2]),
            ],
            outputs: vec![dynamic("output", &[1, 2])],
        },
    ]);
    let report = TrainabilityReport::analyze_initializers(&graph);
    let values = vec![
        data(named("encoder.weight"), &[2, 2]),
        data(named("encoder.bias"), &[2]),
        data(named("norm.scale"), &[2]),
        data(named("norm.bias"), &[2]),
        data(named("norm.mean"), &[2]),
        data(named("norm.variance"), &[2]),
    ];
    let device = training_device();
    let mut ids = ParamIdSource::new();

    let state = materialize_report(report, &device, &InitializerNameOverrides::new(), &values, &mut ids).unwrap();

    assert_eq!(state.store().len(), 6);
    assert_eq!(
        state.parameters().iter().map(|(name, _)| *name).collect::<Vec<_>>(),
        ["encoder.weight", "encoder.bias", "norm.scale", "norm.bias"]
    );
    assert_eq!(state.buffers().iter().map(|(name, _)| *name).collect::<Vec<_>>(), ["norm.mean", "norm.variance"]);
    let weight = state.slot_for_initializer(&named("encoder.weight")).unwrap();
    assert!(weight.contract().trainable());
    assert_eq!(weight.contract().shape(), [2, 2]);
    assert_eq!(state.role_for_initializer(&named("norm.mean")), Some(InitializerRole::Buffer));
    assert_eq!(state.slot_for_input(0, 1, &graph.nodes[0].inputs[1]).unwrap().id(), weight.id());
}

#[test]
fn shared_initializer_materializes_once_and_resolves_from_every_use() {
    let shared = constant("shared.weight", &[2, 2]);
    let graph = graph(vec![
        linear("first", shared.clone(), constant("first.bias", &[2])),
        linear("second", shared, constant("second.bias", &[2])),
    ]);
    let report = TrainabilityReport::analyze_initializers(&graph);
    let values = vec![
        data(named("shared.weight"), &[2, 2]),
        data(named("first.bias"), &[2]),
        data(named("second.bias"), &[2]),
    ];
    let mut ids = ParamIdSource::new();
    let state =
        materialize_report(report, &training_device(), &InitializerNameOverrides::new(), &values, &mut ids).unwrap();

    assert_eq!(state.store().len(), 3);
    assert_eq!(
        state.slot_for_input(0, 1, &graph.nodes[0].inputs[1]).unwrap().id(),
        state.slot_for_input(1, 1, &graph.nodes[1].inputs[1]).unwrap().id()
    );
}

#[test]
fn synthetic_processed_name_requires_stable_override() {
    let graph = graph(vec![linear("encoder", static_tensor(7, &[2, 2]), constant("encoder.bias", &[2]))]);
    let values = vec![data(InitializerId::Static(7), &[2, 2]), data(named("encoder.bias"), &[2])];
    let device = training_device();
    let mut ids = ParamIdSource::new();

    let report = TrainabilityReport::analyze_initializers(&graph);
    let error = materialize_report(report, &device, &InitializerNameOverrides::new(), &values, &mut ids).unwrap_err();
    assert!(error.message().contains("stable name override"));

    let mut names = InitializerNameOverrides::new();
    names.set_name("__static#7".to_string(), "encoder.weight".to_string()).unwrap();
    let report = TrainabilityReport::analyze_initializers(&graph);
    let state = materialize_report(report, &device, &names, &values, &mut ids).unwrap();

    assert!(state.store().get_by_name("encoder.weight").is_some());
    assert!(state.store().get_by_name("__static#7").is_none());
}

#[test]
fn public_graph_materializer_reports_missing_embedded_data() {
    let graph = graph(vec![linear("encoder", constant("encoder.weight", &[2, 2]), constant("encoder.bias", &[2]))]);
    let mut ids = ParamIdSource::new();

    let error = ImportedState::materialize(&graph, &training_device(), &mut ids).unwrap_err();

    assert!(matches!(error, TynxError::MissingValue(_)));
    assert!(error.message().contains("encoder.weight"));
}

#[test]
fn trainable_materialization_requires_autodiff_device() {
    let graph = graph(vec![linear("encoder", constant("encoder.weight", &[2, 2]), constant("encoder.bias", &[2]))]);
    let report = TrainabilityReport::analyze_initializers(&graph);
    let values = vec![data(named("encoder.weight"), &[2, 2]), data(named("encoder.bias"), &[2])];
    let mut ids = ParamIdSource::new();

    let error =
        materialize_report(report, &inference_device(), &InitializerNameOverrides::new(), &values, &mut ids).unwrap_err();

    assert!(error.message().contains("autodiff-enabled device"));
}

#[test]
fn unused_name_override_is_rejected() {
    let graph = graph(vec![linear("encoder", constant("encoder.weight", &[2, 2]), constant("encoder.bias", &[2]))]);
    let report = TrainabilityReport::analyze_initializers(&graph);
    let values = vec![data(named("encoder.weight"), &[2, 2]), data(named("encoder.bias"), &[2])];
    let mut names = InitializerNameOverrides::new();
    names.set_name("missing".to_string(), "renamed".to_string()).unwrap();
    let mut ids = ParamIdSource::new();

    let error = materialize_report(report, &training_device(), &names, &values, &mut ids).unwrap_err();

    assert!(error.message().contains("did not match"));
}

#[test]
fn graph_materializer_reads_embedded_data_from_arguments() {
    let graph = graph(vec![linear(
        "encoder",
        constant_with_data("encoder.weight", &[2, 2]),
        constant_with_data("encoder.bias", &[2]),
    )]);
    let mut ids = ParamIdSource::new();
    let mut names = InitializerNameOverrides::new();
    names.set_name("encoder.weight".to_string(), "head.weight".to_string()).unwrap();
    let state =
        ImportedState::materialize_with(&graph, &training_device(), &TrainabilityOverrides::new(), &names, &mut ids)
            .unwrap();
    assert_eq!(state.parameters().iter().map(|(name, _)| *name).collect::<Vec<_>>(), ["head.weight", "encoder.bias"]);
    assert!(state.report().roles_ready());
    validate_slot_backed(&graph, &state).unwrap();
    let store = state.into_store();
    assert_eq!(store.len(), 2);
}

#[test]
fn unsupported_slot_consumer_is_rejected() {
    let weight = constant_with_data("weight", &[1, 2]);
    let graph = graph(vec![Node {
        kind: OpKind::Add,
        name: "layer".to_string(),
        inputs: vec![dynamic("x", &[1, 2]), weight],
        outputs: vec![dynamic("y", &[1, 2])],
    }]);
    let mut roles = TrainabilityOverrides::new();
    roles.set_role("weight".to_string(), InitializerRole::Buffer).unwrap();
    let mut ids = ParamIdSource::new();
    let state =
        ImportedState::materialize_with(&graph, &training_device(), &roles, &InitializerNameOverrides::new(), &mut ids)
            .unwrap();

    let error = validate_slot_backed(&graph, &state).unwrap_err();

    assert!(matches!(error, TynxError::UnsupportedOp(_)));
    assert_eq!(error.message(), "slot-backed execution for Add node 'layer' input 1 is not implemented");
}

#[test]
fn imported_model_accepts_only_declared_dynamic_dimensions() {
    let device = training_device();
    let input = Argument {
        name: "x".to_string(),
        ty: ArgType::Tensor(TensorType { dtype: DType::F32, rank: 2, static_shape: Some(vec![None, Some(1)]) }),
        value_source: ValueSource::Dynamic,
        value_shape: None,
        value_dtype: None,
        bool_head: None,
    };

    for batch in [1, 3, 7] {
        validate_input(&input, &device, &input_tensor(&[batch, 1], &device)).unwrap();
    }

    let error = validate_input(&input, &device, &input_tensor(&[3, 2], &device)).unwrap_err();
    assert!(error.message().contains("expects shape [?, 1]"));
    assert!(error.message().contains("dimension 1 must be 1"));

    let error = validate_input(&input, &device, &input_tensor(&[3], &device)).unwrap_err();
    assert!(error.message().contains("expects rank 2"));
}

#[test]
fn imported_model_rejects_drift_in_fixed_batch_dimensions() {
    let device = training_device();
    let input = dynamic("x", &[4, 1]);

    let error = validate_input(&input, &device, &input_tensor(&[2, 1], &device)).unwrap_err();
    assert!(error.message().contains("expects shape [4, 1]"));
    assert!(error.message().contains("dimension 0 must be 4"));
}

#[test]
fn input_checks_report_each_kind_of_mismatch() {
    let device = training_device();
    let input = dynamic("x", &[2]);
    let error = validate_input(&input, &device, &InputValue::Scalar).unwrap_err();
    assert_eq!(error.message(), "imported input 'x' expects a tensor, got Scalar");

    let ints = InputValue::Int(TensorInfo { shape: vec![2], dtype: DType::I64, device: device.clone() });
    let error = validate_input(&input, &device, &ints).unwrap_err();
    assert_eq!(error.message(), "imported input 'x' expects dtype F32, got I64");

    let error = validate_input(&input, &device, &input_tensor(&[2], &inference_device())).unwrap_err();
    match error {
        TynxError::DeviceMismatch { name, expected, actual } => {
            assert_eq!(name, "x");
            assert_eq!(expected, "Cpu");
            assert_eq!(actual, "Cpu");
        },
        other => panic!("unexpected error {other:?}"),
    }

    let error = validate_input(&input, &device, &input_tensor(&[2, 2], &device)).unwrap_err();
    assert_eq!(error.message(), "imported input 'x' expects rank 1, got shape [2, 2]");
}

#[test]
fn integer_inputs_ignore_the_autodiff_capability() {
    let input = Argument {
        name: "ids".to_string(),
        ty: ArgType::Tensor(TensorType { dtype: DType::I64, rank: 1, static_shape: None }),
        value_source: ValueSource::Dynamic,
        value_shape: None,
        value_dtype: None,
        bool_head: None,
    };
    let ints = InputValue::Int(TensorInfo { shape: vec![5], dtype: DType::I64, device: inference_device() });
    validate_input(&input, &training_device(), &ints).unwrap();
}

#[test]
fn scalar_and_shape_inputs_are_checked_by_kind() {
    let device = training_device();
    let mut scalar = dynamic("s", &[1]);
    scalar.ty = ArgType::ScalarNative(DType::F32);
    validate_input(&scalar, &device, &InputValue::Scalar).unwrap();
    let error = validate_input(&scalar, &device, &InputValue::Shape(2)).unwrap_err();
    assert_eq!(error.message(), "imported input 's' expects ScalarNative(F32), got Shape");

    let mut shape = dynamic("shape", &[1]);
    shape.ty = ArgType::Shape(3);
    validate_input(&shape, &device, &InputValue::Shape(3)).unwrap();
    let error = validate_input(&shape, &device, &InputValue::Shape(2)).unwrap_err();
    assert_eq!(error.message(), "imported input 'shape' expects a shape of length 3, got length 2");

    let mut scalar_tensor = dynamic("t", &[1]);
    scalar_tensor.ty = ArgType::ScalarTensor(DType::F32);
    validate_input(&scalar_tensor, &device, &input_tensor(&[1], &device)).unwrap();
    let error = validate_input(&scalar_tensor, &device, &input_tensor(&[2], &device)).unwrap_err();
    assert_eq!(error.message(), "imported input 't' expects shape [1], got [2]; dimension 0 must be 1");
}

#[test]
fn every_declared_input_needs_a_value() {
    let device = training_device();
    let inputs = vec![dynamic("x", &[2]), dynamic("y", &[2])];
    let values = vec![("x".to_string(), input_tensor(&[2], &device))];
    let error = validate_inputs(&inputs, &values, &device).unwrap_err();
    assert!(matches!(error, TynxError::MissingValue(_)));
    assert_eq!(error.message(), "y");
    let values = vec![("y".to_string(), input_tensor(&[2], &device)), ("x".to_string(), input_tensor(&[2], &device))];
    validate_inputs(&inputs, &values, &device).unwrap();
}

#[test]
fn shapes_print_unknown_dimensions_as_question_marks() {
    assert_eq!(display_shape(&[Some(2), None, Some(3)]), "[2, ?, 3]");
    assert_eq!(display_shape(&[]), "[]");
}

#[test]
fn name_overrides_refuse_blank_names() {
    let mut names = InitializerNameOverrides::new();
    assert!(names.set_name(" ".to_string(), "a".to_string()).is_err());
    assert!(names.set_name("a".to_string(), "".to_string()).is_err());
    names.set_name("a".to_string(), "b".to_string()).unwrap();
}

fn gemm_graph() -> OnnxGraph {
    let mut graph = graph(vec![Node {
        kind: OpKind::Gemm,
        name: "layer".to_string(),
        inputs: vec![dynamic("x", &[4, 1]), constant_with_data("weight", &[1, 1]), constant_with_data("bias", &[1])],
        outputs: vec![dynamic("layer_output", &[4, 1])],
    }]);
    graph.inputs = vec![dynamic("x", &[4, 1])];
    graph.outputs = vec![dynamic("layer_output", &[4, 1])];
    graph
}

#[test]
fn imported_simplified_model_preserves_declared_output_name() {
    let graph = gemm_graph();
    let output_names = vec![("y".to_string(), "layer_output".to_string())];
    assert_ne!(graph.outputs[0].name, "y");
    let internal_output = graph.outputs[0].name.as_str();

    let report = analyze_imported_outputs(&graph, None, &TrainabilityOverrides::new(), &Vec::new(), &output_names);
    assert_eq!(report.selected_outputs(), ["y"]);
    assert!(report.parameters_for_output("y").is_some());
    assert!(report.parameters_for_output(internal_output).is_none());

    let selected =
        analyze_imported_outputs(&graph, Some(&["y"]), &TrainabilityOverrides::new(), &Vec::new(), &output_names);
    assert_eq!(selected.selected_outputs(), ["y"]);
    selected.require_trainable().unwrap();
}

#[test]
fn unknown_public_outputs_are_reported_by_their_public_name() {
    let graph = gemm_graph();
    let output_names = vec![("y".to_string(), "layer_output".to_string())];
    let report =
        analyze_imported_outputs(&graph, Some(&["z"]), &TrainabilityOverrides::new(), &Vec::new(), &output_names);
    assert!(!report.is_trainable());
    assert!(report.errors()[0].contains("'z'"));
}

#[test]
fn remapping_renames_outputs_in_messages() {
    let mut graph = graph(vec![Node {
        kind: OpKind::Identity,
        name: "copy".to_string(),
        inputs: vec![dynamic("x", &[2])],
        outputs: vec![dynamic("copy_output", &[2])],
    }]);
    graph.outputs = vec![dynamic("copy_output", &[2])];
    let mut report = TrainabilityReport::analyze_outputs(&graph, &["copy_output"]);
    assert!(report.warnings().iter().any(|w| w.contains("requested output 'copy_output'")));
    report.remap_outputs(&[("copy_output".to_string(), "copy".to_string())]);
    assert_eq!(report.selected_outputs(), ["copy"]);
    assert!(report
        .warnings()
        .iter()
        .any(|w| w == "requested output 'copy' is not influenced by any selected trainable parameter"));
    assert!(report.warnings().iter().all(|w| !w.contains("'copy_output'")));
}
