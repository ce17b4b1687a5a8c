use tynx::backward_support::{BackwardCapability, BackwardSupportRegistry};
use tynx::error::TynxError;
use tynx::graph::{ArgType, Argument, DType, InitializerId, Node, OnnxGraph, OpKind, TensorType, ValueSource};
use tynx::trainability::{write_message_section, InitializerRole, TrainabilityOverrides, TrainabilityReport};

fn tensor_type(dtype: DType, shape: &[usize]) -> ArgType {
    ArgType::Tensor(TensorType {
        dtype,
        rank: shape.len(),
        static_shape: Some(shape.iter().map(|d| Some(*d)).collect()),
    })
}

fn dynamic(name: &str, dtype: DType, shape: &[usize]) -> Argument {
    Argument {
        name: name.to_string(),
        ty: tensor_type(dtype, shape),
        value_source: ValueSource::Dynamic,
        value_shape: None,
        value_dtype: None,
        bool_head: None,
    }
}

fn static_tensor(data_id: usize, dtype: DType, shape: &[usize]) -> Argument {
    let mut argument = dynamic("", dtype, shape);
    argument.value_source = ValueSource::Static(data_id);
    argument
}

fn named_constant(name: &str, dtype: DType, shape: &[usize]) -> Argument {
    let mut argument = dynamic(name, dtype, shape);
    argument.value_source = ValueSource::Constant;
    argument
}

fn node(kind: OpKind, name: &str, inputs: Vec<Argument>, outputs: Vec<Argument>) -> Node {
    Node { kind, name: name.to_string(), inputs, outputs }
}

fn linear(weight: Argument, bias: Argument) -> Node {
    linear_named("linear", "x", "y", weight, bias)
}

fn linear_named(name: &str, input: &str, output: &str, weight: Argument, bias: Argument) -> Node {
    node(
        OpKind::Linear,
        name,
        vec![dynamic(input, DType::F32, &[1, 2]), weight, bias],
        vec![dynamic(output, DType::F32, &[1, 2])],
    )
}

fn batch_norm(scale: Argument, bias: Argument, mean: Argument, variance: Argument) -> Node {
    node(
        OpKind::BatchNormalization,
        "batch_norm",
        vec![dynamic("x", DType::F32, &[1, 2, 2]), scale, bias, mean, variance],
        vec![dynamic("y", DType::F32, &[1, 2, 2])],
    )
}

fn graph(nodes: Vec<Node>) -> OnnxGraph {
    OnnxGraph { nodes, inputs: Vec::new(), outputs: Vec::new() }
}

fn graph_with_outputs(nodes: Vec<Node>, outputs: &[&str]) -> OnnxGraph {
    let mut graph = graph(nodes);
    graph.outputs = outputs.iter().map(|name| dynamic(name, DType::F32, &[1, 2])).collect();
    graph
}

fn two_branch_graph() -> OnnxGraph {
    let nodes = vec![
        linear_named(
            "policy_linear",
            "x",
            "policy_hidden",
            named_constant("policy.weight", DType::F32, &[2, 2]),
            named_constant("policy.bias", DType::F32, &[2]),
        ),
        node(
            OpKind::Relu,
            "policy_relu",
            vec![dynamic("policy_hidden", DType::F32, &[1, 2])],
            vec![dynamic("policy", DType::F32, &[1, 2])],
        ),
        linear_named(
            "diagnostic_linear",
            "x",
            "diagnostic_hidden",
            named_constant("diagnostic.weight", DType::F32, &[2, 2]),
            named_constant("diagnostic.bias", DType::F32, &[2]),
        ),
        node(
            OpKind::Ceil,
            "diagnostic_round",
            vec![dynamic("diagnostic_hidden", DType::F32, &[1, 2])],
            vec![dynamic("diagnostic", DType::F32, &[1, 2])],
        ),
    ];
    graph_with_outputs(nodes, &["policy", "diagnostic"])
}

fn shared_role_graph() -> OnnxGraph {
    let shared = named_constant("shared", DType::F32, &[2]);
    graph(vec![
        linear(shared.clone(), named_constant("bias", DType::F32, &[2])),
        batch_norm(
            named_constant("scale", DType::F32, &[2]),
            named_constant("bn_bias", DType::F32, &[2]),
            shared,
            named_constant("variance", DType::F32, &[2]),
        ),
    ])
}

#[test]
fn classifies_linear_weights_and_biases_as_parameters() {
    let graph = graph(vec![linear(
        named_constant("encoder.weight", DType::F32, &[2, 2]),
        named_constant("encoder.bias", DType::F32, &[2]),
    )]);

    let report = TrainabilityReport::analyze_initializers(&graph);

    assert!(report.roles_ready());
    assert_eq!(
        report.trainable_parameters().iter().map(|i| i.name()).collect::<Vec<_>>(),
        ["encoder.weight", "encoder.bias"]
    );
    assert!(report.buffers().is_empty());
    assert!(report.errors().is_empty());
}

#[test]
fn separates_batch_norm_affine_parameters_and_running_buffers() {
    let graph = graph(vec![batch_norm(
        named_constant("bn.scale", DType::F32, &[2]),
        named_constant("bn.bias", DType::F32, &[2]),
        named_constant("bn.mean", DType::F32, &[2]),
        named_constant("bn.variance", DType::F32, &[2]),
    )]);

    let report = TrainabilityReport::analyze_initializers(&graph);

    assert_eq!(report.trainable_parameters().iter().map(|i| i.name()).collect::<Vec<_>>(), ["bn.scale", "bn.bias"]);
    assert_eq!(report.buffers().iter().map(|i| i.name()).collect::<Vec<_>>(), ["bn.mean", "bn.variance"]);
}

#[test]
fn reports_conflicting_shared_initializer_roles() {
    let graph = shared_role_graph();

    let report = TrainabilityReport::analyze_initializers(&graph);
    let shared = report.initializers().iter().find(|initializer| initializer.name() == "shared").unwrap();

    assert_eq!(shared.role(), InitializerRole::Ambiguous);
    assert!(!report.roles_ready());
    assert!(report.warnings().iter().any(|warning| warning.contains("conflicting")));
}

#[test]
fn exact_override_resolves_ambiguity_and_unknown_overrides_warn() {
    let graph = shared_role_graph();
    let mut overrides = TrainabilityOverrides::new();
    overrides.set_role("shared".to_string(), InitializerRole::Parameter).unwrap();
    overrides.set_role("missing".to_string(), InitializerRole::Constant).unwrap();

    let report = TrainabilityReport::analyze_initializers_with(&graph, &overrides);

    assert!(report.roles_ready());
    assert_eq!(
        report.initializers().iter().find(|initializer| initializer.name() == "shared").unwrap().role(),
        InitializerRole::Parameter
    );
    assert!(report.warnings().iter().any(|warning| warning.contains("missing")));
}

#[test]
fn rejects_non_f32_trainable_parameters() {
    let graph = graph(vec![linear(
        named_constant("weight", DType::F16, &[2, 2]),
        named_constant("bias", DType::F32, &[2]),
    )]);

    let report = TrainabilityReport::analyze_initializers(&graph);

    assert!(!report.roles_ready());
    assert!(report.errors().iter().any(|error| error.contains("requires f32")));
}

#[test]
fn unknown_float_initializer_stays_constant_with_warning() {
    let graph = graph(vec![node(
        OpKind::Identity,
        "identity",
        vec![named_constant("table", DType::F32, &[2])],
        vec![dynamic("y", DType::F32, &[2])],
    )]);

    let report = TrainabilityReport::analyze_initializers(&graph);

    assert_eq!(report.constants()[0].name(), "table");
    assert!(report.warnings().iter().any(|warning| warning.contains("Identity")));
}

#[test]
fn lifted_static_ids_are_deduplicated_and_report_provenance_warning() {
    let weight = static_tensor(7, DType::F32, &[2, 2]);
    let graph = graph(vec![
        linear(weight.clone(), static_tensor(8, DType::F32, &[2])),
        linear(weight, static_tensor(9, DType::F32, &[2])),
    ]);

    let report = TrainabilityReport::analyze_initializers(&graph);

    assert_eq!(report.initializers().len(), 3);
    let weight = report
        .initializers()
        .iter()
        .find(|initializer| matches!(initializer.id(), InitializerId::Static(7)))
        .unwrap();
    assert_eq!(weight.uses().len(), 2);
    assert!(weight.has_synthetic_name());
    assert!(report.warnings().iter().any(|warning| warning.contains("provenance")));
}

#[test]
fn display_has_user_facing_sections() {
    let graph = graph(vec![linear(
        named_constant("weight", DType::F32, &[2, 2]),
        named_constant("bias", DType::F32, &[2]),
    )]);

    let display = TrainabilityReport::analyze_initializers(&graph).to_text();

    assert!(display.contains("Trainable parameters:"));
    assert!(display.contains("Fixed buffers:"));
    assert!(display.contains("Warnings:"));
    assert!(display.contains("weight"));
}

#[test]
fn registry_distinguishes_gather_data_from_indices() {
    let gather = node(
        OpKind::Gather,
        "gather",
        vec![dynamic("data", DType::F32, &[4, 2]), dynamic("indices", DType::I64, &[1])],
        vec![dynamic("selected", DType::F32, &[1, 2])],
    );

    assert_eq!(BackwardSupportRegistry::input_capability(&gather, 0, 0), BackwardCapability::Differentiable);
    assert!(matches!(BackwardSupportRegistry::input_capability(&gather, 0, 1), BackwardCapability::StopGradient(_)));
}

#[test]
fn registry_accepts_clip_data_but_not_runtime_bounds() {
    let clip = node(
        OpKind::Clip,
        "relu6",
        vec![
            dynamic("data", DType::F32, &[2, 2]),
            dynamic("minimum", DType::F32, &[1]),
            dynamic("maximum", DType::F32, &[1]),
        ],
        vec![dynamic("clipped", DType::F32, &[2, 2])],
    );

    assert_eq!(BackwardSupportRegistry::input_capability(&clip, 0, 0), BackwardCapability::Differentiable);
    assert!(matches!(BackwardSupportRegistry::input_capability(&clip, 0, 1), BackwardCapability::Unsupported(_)));
    assert!(matches!(BackwardSupportRegistry::input_capability(&clip, 0, 2), BackwardCapability::Unsupported(_)));
}

#[test]
fn supported_slice_reports_influencing_and_unused_parameters() {
    let graph = two_branch_graph();

    let report = TrainabilityReport::analyze_outputs(&graph, &["policy"]);

    assert!(report.is_trainable());
    assert_eq!(report.parameters_for_output("policy").unwrap(), ["policy.bias", "policy.weight"]);
    assert!(report.backward_issues().is_empty());
    assert_eq!(report.unused_parameters(), ["diagnostic.bias", "diagnostic.weight"]);
    report.require_trainable().unwrap();
}

#[test]
fn irrelevant_stop_gradient_branch_does_not_block_selected_output() {
    let graph = two_branch_graph();

    let policy = TrainabilityReport::analyze_outputs(&graph, &["policy"]);
    let diagnostic = TrainabilityReport::analyze_outputs(&graph, &["diagnostic"]);

    assert!(policy.is_trainable());
    assert!(!diagnostic.is_trainable());
    assert_eq!(diagnostic.backward_issues().len(), 1);
    let issue = &diagnostic.backward_issues()[0];
    assert_eq!(issue.operator(), "Ceil");
    assert_eq!(issue.node_name(), "diagnostic_round");
    assert!(matches!(issue.capability(), BackwardCapability::StopGradient(_)));
    assert_eq!(issue.parameters(), ["diagnostic.bias", "diagnostic.weight"]);
    assert!(matches!(diagnostic.require_trainable(), Err(TynxError::UnsupportedOp(_))));
}

#[test]
fn unregistered_backward_operator_is_actionable() {
    let nodes = vec![
        linear_named(
            "matrix",
            "x",
            "matrix_value",
            named_constant("matrix.weight", DType::F32, &[2, 2]),
            named_constant("matrix.bias", DType::F32, &[2]),
        ),
        node(
            OpKind::Other("Det".to_string()),
            "determinant",
            vec![dynamic("matrix_value", DType::F32, &[1, 2])],
            vec![dynamic("score", DType::F32, &[1])],
        ),
    ];
    let graph = graph_with_outputs(nodes, &["score"]);

    let report = TrainabilityReport::analyze_all_outputs(&graph);

    assert!(!report.is_trainable());
    let issue = &report.backward_issues()[0];
    assert_eq!(issue.operator(), "Det");
    assert!(matches!(issue.capability(), BackwardCapability::Unsupported(_)));
    assert!(report.to_text().contains("determinant"));
}

#[test]
fn unknown_requested_output_fails_before_execution() {
    let graph = two_branch_graph();

    let report = TrainabilityReport::analyze_outputs(&graph, &["missing"]);

    assert!(!report.is_trainable());
    assert!(report.roles_ready());
    assert!(report.errors()[0].contains("not a declared graph output"));
    assert!(matches!(report.require_trainable(), Err(TynxError::TypeMismatch(_))));
}

#[test]
fn message_sections_list_one_message_per_line() {
    let text = write_message_section("Warnings", &["first".to_string(), "second".to_string()]);
    assert_eq!(text, "Warnings:\n  first\n  second\n");
    assert_eq!(write_message_section("Errors", &[]), "Errors:\n");
}

#[test]
fn role_overrides_refuse_blank_names() {
    let mut overrides = TrainabilityOverrides::new();
    assert!(overrides.set_role("  ".to_string(), InitializerRole::Parameter).is_err());
    assert_eq!(overrides.get("  "), None);
    overrides.set_role("w".to_string(), InitializerRole::Buffer).unwrap();
    assert_eq!(overrides.get("w"), Some(InitializerRole::Buffer));
}

#[test]
fn trainable_verdict_needs_ready_roles_and_a_clean_path() {
    let graph = two_branch_graph();
    let all = TrainabilityReport::analyze_all_outputs(&graph);
    assert!(all.has_output_analysis());
    assert_eq!(all.selected_outputs(), ["policy", "diagnostic"]);
    assert!(!all.is_trainable());
    let roles_only = TrainabilityReport::analyze_initializers(&graph);
    assert!(!roles_only.has_output_analysis());
    assert!(roles_only.roles_ready());
}

#[test]
fn output_analysis_applies_role_overrides() {
    let graph = two_branch_graph();
    let mut overrides = TrainabilityOverrides::new();
    overrides.set_role("policy.bias".to_string(), InitializerRole::Constant).unwrap();

    let policy = TrainabilityReport::analyze_outputs_with(&graph, &["policy"], &overrides);
    assert_eq!(policy.parameters_for_output("policy").unwrap(), ["policy.weight"]);
    assert!(policy.is_trainable());

    let all = TrainabilityReport::analyze_all_outputs_with(&graph, &overrides);
    assert_eq!(all.selected_outputs(), ["policy", "diagnostic"]);
    assert_eq!(all.parameters_for_output("policy").unwrap(), ["policy.weight"]);
    assert!(!all.is_trainable());
}
