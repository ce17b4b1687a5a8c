//! Conservative registry of which operator inputs gradients may flow through.

use vstd::prelude::*;
use crate::graph::{
    argument_is_float, arg_is_float, is_affine_normalization, is_aggregation, is_convolution, is_dense,
    is_discrete, is_elementwise_binary, is_gather_family, is_pooling, is_rearrangement, is_reduction,
    is_smooth_unary, Node, OpKind, ValueSource,
};

verus! {

/// Why an input blocks gradients.
#[derive(Debug, Clone, Copy, PartialEq, Eq, Structural)]
pub enum BlockReason {
    InputMissing,
    OutputMissing,
    Metadata,
    NonFloatOutput,
    NoContract,
    RunningStatistics,
    DropoutTraining,
    Discrete,
}

/// The explanation given for a blocked input.
pub open spec fn reason_text(r: BlockReason) -> Seq<char> {
    match r {
        BlockReason::InputMissing => "input position does not exist"@,
        BlockReason::OutputMissing => "output position does not exist"@,
        BlockReason::Metadata => "integer, boolean, shape, or semantic metadata is not differentiable"@,
        BlockReason::NonFloatOutput => "integer, boolean, or shape-valued output is not differentiable"@,
        BlockReason::NoContract => "operator input has no validated Tynx backward contract"@,
        BlockReason::RunningStatistics => "fixed BatchNorm running statistics are buffers"@,
        BlockReason::DropoutTraining => "Dropout training_mode must be absent or statically false"@,
        BlockReason::Discrete => "operator is discrete or shape-valued and deliberately stops gradients"@,
    }
}

impl BlockReason {
    /// The explanation text.
    pub fn text(&self) -> (r: &'static str)
        ensures
            r@ == reason_text(*self),
    {
        match self {
            BlockReason::InputMissing => "input position does not exist",
            BlockReason::OutputMissing => "output position does not exist",
            BlockReason::Metadata => "integer, boolean, shape, or semantic metadata is not differentiable",
            BlockReason::NonFloatOutput => "integer, boolean, or shape-valued output is not differentiable",
            BlockReason::NoContract => "operator input has no validated Tynx backward contract",
            BlockReason::RunningStatistics => "fixed BatchNorm running statistics are buffers",
            BlockReason::DropoutTraining => "Dropout training_mode must be absent or statically false",
            BlockReason::Discrete => "operator is discrete or shape-valued and deliberately stops gradients",
        }
    }
}

/// Backward behavior for one operator input relative to one output.
#[derive(Debug, Clone, Copy, PartialEq, Eq, Structural)]
pub enum BackwardCapability {
    /// Gradients can propagate through this input.
    Differentiable,
    /// This input deliberately terminates gradient propagation.
    StopGradient(BlockReason),
    /// Tynx has no validated backward contract for this input yet.
    Unsupported(BlockReason),
}

/// The restriction reason of a capability.
pub open spec fn capability_reason(c: BackwardCapability) -> Option<Seq<char>> {
    match c {
        BackwardCapability::Differentiable => None,
        BackwardCapability::StopGradient(r) | BackwardCapability::Unsupported(r) => Some(reason_text(r)),
    }
}

impl BackwardCapability {
    /// Return whether gradients can propagate through this input.
    pub fn is_differentiable(self) -> (r: bool)
        ensures
            r == (self == BackwardCapability::Differentiable),
    {
        match self {
            BackwardCapability::Differentiable => true,
            _ => false,
        }
    }

    /// Return the restriction reason for a blocked input.
    pub fn reason(self) -> (r: Option<&'static str>)
        ensures
            match r {
                Some(s) => capability_reason(self) == Some(s@),
                None => capability_reason(self) is None,
            },
    {
        match self {
            BackwardCapability::Differentiable => None,
            BackwardCapability::StopGradient(r) | BackwardCapability::Unsupported(r) => Some(r.text()),
        }
    }
}

/// Inference-mode Dropout: no training-mode input, an omitted one, or one statically false.
pub open spec fn dropout_inference_only(node: Node) -> bool {
    node.inputs.len() <= 2 || node.inputs@[2].value_source == ValueSource::Optional
        || node.inputs@[2].bool_head == Some(false)
}

/// The registry's verdict for an operator's float input feeding a float output.
pub open spec fn kind_capability(node: Node, i: int) -> BackwardCapability {
    let k = node.kind;
    let d = BackwardCapability::Differentiable;
    if is_elementwise_binary(k) {
        d
    } else if is_smooth_unary(k) && i == 0 {
        d
    } else if k is PRelu && (i == 0 || i == 1) {
        d
    } else if k is Clip && i == 0 {
        d
    } else if k is Where && (i == 1 || i == 2) {
        d
    } else if is_reduction(k) && i == 0 {
        d
    } else if is_aggregation(k) || k is Concat {
        d
    } else if (is_rearrangement(k) || is_gather_family(k)) && i == 0 {
        d
    } else if is_dense(k) {
        d
    } else if is_convolution(k) && i <= 2 {
        d
    } else if is_pooling(k) && i == 0 {
        d
    } else if k is BatchNormalization && i <= 2 {
        d
    } else if k is BatchNormalization && (i == 3 || i == 4) {
        BackwardCapability::StopGradient(BlockReason::RunningStatistics)
    } else if is_affine_normalization(k) && i <= 2 {
        d
    } else if k is Dropout && i == 0 && dropout_inference_only(node) {
        d
    } else if k is Dropout && i == 0 {
        BackwardCapability::Unsupported(BlockReason::DropoutTraining)
    } else if is_discrete(k) && i == 0 {
        BackwardCapability::StopGradient(BlockReason::Discrete)
    } else {
        BackwardCapability::Unsupported(BlockReason::NoContract)
    }
}

/// Backward capability of input `i` of `node` relative to its output `o`.
pub open spec fn capability(node: Node, o: int, i: int) -> BackwardCapability {
    if i < 0 || i >= node.inputs.len() {
        BackwardCapability::Unsupported(BlockReason::InputMissing)
    } else if o < 0 || o >= node.outputs.len() {
        BackwardCapability::Unsupported(BlockReason::OutputMissing)
    } else if !arg_is_float(node.inputs@[i].ty) {
        BackwardCapability::StopGradient(BlockReason::Metadata)
    } else if !arg_is_float(node.outputs@[o].ty) {
        BackwardCapability::StopGradient(BlockReason::NonFloatOutput)
    } else {
        kind_capability(node, i)
    }
}

fn dropout_is_inference_only(node: &Node) -> (r: bool)
    ensures
        r == dropout_inference_only(*node),
{
    if node.inputs.len() <= 2 {
        return true;
    }
    let mode = &node.inputs[2];
    if mode.value_source == ValueSource::Optional {
        return true;
    }
    match mode.bool_head {
        Some(training) => !training,
        None => false,
    }
}

/// Explicit registry for the backward surface validated by imported-model training.
#[derive(Debug, Clone, Copy, Default)]
pub struct BackwardSupportRegistry;

impl BackwardSupportRegistry {
    /// Return the backward capability of `input_index` for `output_index`.
    pub fn input_capability(node: &Node, output_index: usize, input_index: usize) -> (r: BackwardCapability)
        ensures
            r == capability(*node, output_index as int, input_index as int),
    {
        if input_index >= node.inputs.len() {
            return BackwardCapability::Unsupported(BlockReason::InputMissing);
        }
        if output_index >= node.outputs.len() {
            return BackwardCapability::Unsupported(BlockReason::OutputMissing);
        }
        if !argument_is_float(&node.inputs[input_index].ty) {
            return BackwardCapability::StopGradient(BlockReason::Metadata);
        }
        if !argument_is_float(&node.outputs[output_index].ty) {
            return BackwardCapability::StopGradient(BlockReason::NonFloatOutput);
        }
        let k = &node.kind;
        let i = input_index;
        let d = BackwardCapability::Differentiable;
        if k.elementwise_binary() {
            d
        } else if k.smooth_unary() && i == 0 {
            d
        } else if matches!(k, OpKind::PRelu) && (i == 0 || i == 1) {
            d
        } else if matches!(k, OpKind::Clip) && i == 0 {
            d
        } else if matches!(k, OpKind::Where) && (i == 1 || i == 2) {
            d
        } else if k.reduction() && i == 0 {
            d
        } else if k.aggregation() || matches!(k, OpKind::Concat) {
            d
        } else if (k.rearrangement() || k.gather_family()) && i == 0 {
            d
        } else if k.dense() {
            d
        } else if k.convolution() && i <= 2 {
            d
        } else if k.pooling() && i == 0 {
            d
        } else if matches!(k, OpKind::BatchNormalization) && i <= 2 {
            d
        } else if matches!(k, OpKind::BatchNormalization) && (i == 3 || i == 4) {
            BackwardCapability::StopGradient(BlockReason::RunningStatistics)
        } else if k.affine_normalization() && i <= 2 {
            d
        } else if matches!(k, OpKind::Dropout) && i == 0 && dropout_is_inference_only(node) {
            d
        } else if matches!(k, OpKind::Dropout) && i == 0 {
            BackwardCapability::Unsupported(BlockReason::DropoutTraining)
        } else if k.discrete() && i == 0 {
            BackwardCapability::StopGradient(BlockReason::Discrete)
        } else {
            BackwardCapability::Unsupported(BlockReason::NoContract)
        }
    }
}

} // verus!
