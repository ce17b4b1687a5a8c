//! A plain model of the processed ONNX graph that the analyses read: operators,
//! node inputs and outputs with their types and provenance, and the identity of
//! embedded initializers.

use vstd::prelude::*;
use crate::text::{owned, str_eq};

verus! {

/// Element type of a tensor value.
#[derive(Debug, Clone, Copy, PartialEq, Eq, Structural)]
pub enum DType {
    F64,
    F32,
    Flex32,
    F16,
    BF16,
    I64,
    I32,
    I16,
    I8,
    U64,
    U32,
    U16,
    U8,
    Bool,
    QFloat,
}

/// Floating-point element types.
pub open spec fn dtype_is_float(d: DType) -> bool {
    match d {
        DType::F64 | DType::F32 | DType::Flex32 | DType::F16 | DType::BF16 => true,
        _ => false,
    }
}

/// The name that `{:?}` prints for an element type.
pub open spec fn dtype_text(d: DType) -> Seq<char> {
    match d {
        DType::F64 => "F64"@,
        DType::F32 => "F32"@,
        DType::Flex32 => "Flex32"@,
        DType::F16 => "F16"@,
        DType::BF16 => "BF16"@,
        DType::I64 => "I64"@,
        DType::I32 => "I32"@,
        DType::I16 => "I16"@,
        DType::I8 => "I8"@,
        DType::U64 => "U64"@,
        DType::U32 => "U32"@,
        DType::U16 => "U16"@,
        DType::U8 => "U8"@,
        DType::Bool => "Bool"@,
        DType::QFloat => "QFloat"@,
    }
}

/// The text that `{:?}` prints for an optional element type.
pub open spec fn opt_dtype_text(d: Option<DType>) -> Seq<char> {
    match d {
        Some(d) => "Some("@ + dtype_text(d) + ")"@,
        None => "None"@,
    }
}

impl DType {
    /// Whether this is a floating-point element type.
    pub fn is_float(&self) -> (r: bool)
        ensures
            r == dtype_is_float(*self),
    {
        match self {
            DType::F64 | DType::F32 | DType::Flex32 | DType::F16 | DType::BF16 => true,
            _ => false,
        }
    }

    /// The element type's name.
    pub fn text(&self) -> (r: &'static str)
        ensures
            r@ == dtype_text(*self),
    {
        match self {
            DType::F64 => "F64",
            DType::F32 => "F32",
            DType::Flex32 => "Flex32",
            DType::F16 => "F16",
            DType::BF16 => "BF16",
            DType::I64 => "I64",
            DType::I32 => "I32",
            DType::I16 => "I16",
            DType::I8 => "I8",
            DType::U64 => "U64",
            DType::U32 => "U32",
            DType::U16 => "U16",
            DType::U8 => "U8",
            DType::Bool => "Bool",
            DType::QFloat => "QFloat",
        }
    }
}

/// Debug rendering of an optional element type.
pub fn opt_dtype_string(d: Option<DType>) -> (r: String)
    ensures
        r@ == opt_dtype_text(d),
{
    match d {
        Some(d) => {
            let mut s = owned("Some(");
            s.append(d.text());
            s.append(")");
            s
        },
        None => owned("None"),
    }
}

/// A tensor type: element type, rank and the statically known dimensions.
#[derive(Debug, Clone)]
pub struct TensorType {
    pub dtype: DType,
    pub rank: usize,
    pub static_shape: Option<Vec<Option<usize>>>,
}

/// The type of a node input or output.
#[derive(Debug, Clone)]
pub enum ArgType {
    ScalarTensor(DType),
    ScalarNative(DType),
    Shape(usize),
    Tensor(TensorType),
}

/// Where an argument's value comes from.
#[derive(Debug, Clone, Copy, PartialEq, Eq, Structural)]
pub enum ValueSource {
    /// Embedded data, identified by its data id.
    Static(usize),
    /// A constant node output.
    Constant,
    /// A runtime value.
    Dynamic,
    /// An omitted optional input.
    Optional,
}

/// A node input or output. When the argument carries embedded data,
/// `value_shape` and `value_dtype` are its shape and element type, and
/// `bool_head` is its first element when that data is boolean.
#[derive(Debug, Clone)]
pub struct Argument {
    pub name: String,
    pub ty: ArgType,
    pub value_source: ValueSource,
    pub value_shape: Option<Vec<usize>>,
    pub value_dtype: Option<DType>,
    pub bool_head: Option<bool>,
}

/// One graph node.
#[derive(Debug, Clone)]
pub struct Node {
    pub kind: OpKind,
    pub name: String,
    pub inputs: Vec<Argument>,
    pub outputs: Vec<Argument>,
}

/// A processed graph: nodes in execution order and the declared inputs and outputs.
#[derive(Debug, Clone)]
pub struct OnnxGraph {
    pub nodes: Vec<Node>,
    pub inputs: Vec<Argument>,
    pub outputs: Vec<Argument>,
}

/// Whether an argument is embedded graph data (a static value or a constant).
pub open spec fn is_embedded(source: ValueSource) -> bool {
    match source {
        ValueSource::Static(_) | ValueSource::Constant => true,
        _ => false,
    }
}

/// Whether a value source is embedded graph data.
pub fn source_is_embedded(source: ValueSource) -> (r: bool)
    ensures
        r == is_embedded(source),
{
    match source {
        ValueSource::Static(_) | ValueSource::Constant => true,
        _ => false,
    }
}

/// Whether the argument's element type is floating point.
pub open spec fn arg_is_float(ty: ArgType) -> bool {
    match ty {
        ArgType::ScalarTensor(d) | ArgType::ScalarNative(d) => dtype_is_float(d),
        ArgType::Tensor(t) => dtype_is_float(t.dtype),
        ArgType::Shape(_) => false,
    }
}

/// Whether an argument type has a floating-point element type.
pub fn argument_is_float(ty: &ArgType) -> (r: bool)
    ensures
        r == arg_is_float(*ty),
{
    match ty {
        ArgType::ScalarTensor(d) | ArgType::ScalarNative(d) => d.is_float(),
        ArgType::Tensor(t) => t.dtype.is_float(),
        ArgType::Shape(_) => false,
    }
}

/// The element type of an argument that carries tensor data.
pub open spec fn arg_dtype(ty: ArgType) -> Option<DType> {
    match ty {
        ArgType::ScalarTensor(d) | ArgType::ScalarNative(d) => Some(d),
        ArgType::Tensor(t) => Some(t.dtype),
        ArgType::Shape(_) => None,
    }
}

/// The element type of an argument that carries tensor data.
pub fn argument_dtype(argument: &Argument) -> (r: Option<DType>)
    ensures
        r == arg_dtype(argument.ty),
{
    match &argument.ty {
        ArgType::ScalarTensor(d) | ArgType::ScalarNative(d) => Some(*d),
        ArgType::Tensor(t) => Some(t.dtype),
        ArgType::Shape(_) => None,
    }
}

/// The static shape of a type when every dimension is known.
pub open spec fn known_shape(ty: ArgType) -> Option<Seq<usize>> {
    match ty {
        ArgType::Tensor(t) => match t.static_shape {
            Some(dims) => if forall|i: int| 0 <= i < dims@.len() ==> (#[trigger] dims@[i]) is Some {
                Some(dims@.map_values(|d: Option<usize>| d->0))
            } else {
                None
            },
            None => None,
        },
        _ => None,
    }
}

/// The statically known shape of an argument, else the shape of its embedded data.
pub open spec fn arg_shape(a: Argument) -> Option<Seq<usize>> {
    match known_shape(a.ty) {
        Some(s) => Some(s),
        None => match a.value_shape {
            Some(v) => Some(v@),
            None => None,
        },
    }
}

fn static_shape_known(dims: &Vec<Option<usize>>) -> (r: Option<Vec<usize>>)
    ensures
        match r {
            Some(v) => (forall|i: int| 0 <= i < dims@.len() ==> (#[trigger] dims@[i]) is Some)
                && v@ == dims@.map_values(|d: Option<usize>| d->0),
            None => !(forall|i: int| 0 <= i < dims@.len() ==> (#[trigger] dims@[i]) is Some),
        },
{
    let mut out: Vec<usize> = Vec::new();
    let mut i: usize = 0;
    while i < dims.len()
        invariant
            i <= dims.len(),
            forall|k: int| 0 <= k < i ==> (#[trigger] dims@[k]) is Some,
            out@ == dims@.take(i as int).map_values(|d: Option<usize>| d->0),
        decreases dims.len() - i,
    {
        match dims[i] {
            Some(d) => {
                out.push(d);
                proof {
                    assert(dims@.take(i + 1) =~= dims@.take(i as int).push(dims@[i as int]));
                }
            },
            None => {
                return None;
            },
        }
        i = i + 1;
    }
    assert(dims@.take(dims.len() as int) =~= dims@);
    Some(out)
}

/// The statically known shape of an argument, else the shape of its embedded data.
pub fn argument_shape(a: &Argument) -> (r: Option<Vec<usize>>)
    ensures
        match r {
            Some(v) => arg_shape(*a) == Some(v@),
            None => arg_shape(*a) is None,
        },
{
    let known = match &a.ty {
        ArgType::Tensor(t) => match &t.static_shape {
            Some(dims) => static_shape_known(dims),
            None => None,
        },
        _ => None,
    };
    match known {
        Some(v) => Some(v),
        None => match &a.value_shape {
            Some(v) => Some(v.clone()),
            None => None,
        },
    }
}

/// Identity of an embedded initializer in a processed graph.
#[derive(Debug, Clone)]
pub enum InitializerId {
    /// A named constant.
    Named(String),
    /// Embedded data, by data id.
    Static(usize),
    /// An unnamed constant, by its consumer position.
    Unnamed { node_index: usize, input_index: usize },
}

/// The identity's view: text for names, so that equal names are equal identities.
pub enum InitializerKey {
    Named(Seq<char>),
    Static(usize),
    Unnamed(usize, usize),
}

/// An initializer identity as a plain value.
pub open spec fn id_key(id: InitializerId) -> InitializerKey {
    match id {
        InitializerId::Named(s) => InitializerKey::Named(s@),
        InitializerId::Static(d) => InitializerKey::Static(d),
        InitializerId::Unnamed { node_index, input_index } => InitializerKey::Unnamed(node_index, input_index),
    }
}

/// The initializer identity of an embedded argument at a consumer position.
pub open spec fn initializer_key(a: Argument, node_index: usize, input_index: usize) -> Option<InitializerKey> {
    match a.value_source {
        ValueSource::Static(d) => Some(InitializerKey::Static(d)),
        ValueSource::Constant => if a.name@.len() > 0 {
            Some(InitializerKey::Named(a.name@))
        } else {
            Some(InitializerKey::Unnamed(node_index, input_index))
        },
        _ => None,
    }
}

impl InitializerId {
    /// The identity of an embedded argument; `None` for runtime and omitted inputs.
    pub fn from_argument(a: &Argument, node_index: usize, input_index: usize) -> (r: Option<InitializerId>)
        ensures
            match r {
                Some(id) => initializer_key(*a, node_index, input_index) == Some(id_key(id)),
                None => initializer_key(*a, node_index, input_index) is None,
            },
    {
        match a.value_source {
            ValueSource::Static(d) => Some(InitializerId::Static(d)),
            ValueSource::Constant => if a.name.as_str().unicode_len() > 0 {
                Some(InitializerId::Named(a.name.clone()))
            } else {
                Some(InitializerId::Unnamed { node_index, input_index })
            },
            _ => None,
        }
    }

    /// Whether two identities are the same.
    pub fn same(&self, other: &InitializerId) -> (r: bool)
        ensures
            r == (id_key(*self) == id_key(*other)),
    {
        match (self, other) {
            (InitializerId::Named(a), InitializerId::Named(b)) => crate::text::str_eq(a.as_str(), b.as_str()),
            (InitializerId::Static(a), InitializerId::Static(b)) => *a == *b,
            (InitializerId::Unnamed { node_index: a, input_index: b }, InitializerId::Unnamed { node_index: c, input_index: d }) => *a == *c && *b == *d,
            _ => false,
        }
    }
}

/// Whether a name is the name of one of the operators `OpKind` tells apart.
pub open spec fn is_known_kind_name(name: Seq<char>) -> bool {
    ||| name == "Add"@
    ||| name == "Sub"@
    ||| name == "Mul"@
    ||| name == "Div"@
    ||| name == "Neg"@
    ||| name == "Abs"@
    ||| name == "Pow"@
    ||| name == "Reciprocal"@
    ||| name == "Sqrt"@
    ||| name == "Exp"@
    ||| name == "Log"@
    ||| name == "Erf"@
    ||| name == "Sin"@
    ||| name == "Cos"@
    ||| name == "Tan"@
    ||| name == "Sinh"@
    ||| name == "Cosh"@
    ||| name == "Tanh"@
    ||| name == "Relu"@
    ||| name == "Sigmoid"@
    ||| name == "Softmax"@
    ||| name == "LogSoftmax"@
    ||| name == "LeakyRelu"@
    ||| name == "Elu"@
    ||| name == "Selu"@
    ||| name == "Celu"@
    ||| name == "Gelu"@
    ||| name == "Mish"@
    ||| name == "Softplus"@
    ||| name == "Softsign"@
    ||| name == "HardSigmoid"@
    ||| name == "HardSwish"@
    ||| name == "Identity"@
    ||| name == "PRelu"@
    ||| name == "Where"@
    ||| name == "ReduceMax"@
    ||| name == "ReduceMin"@
    ||| name == "ReduceMean"@
    ||| name == "ReduceSum"@
    ||| name == "ReduceProd"@
    ||| name == "ReduceL1"@
    ||| name == "ReduceL2"@
    ||| name == "ReduceLogSum"@
    ||| name == "ReduceLogSumExp"@
    ||| name == "ReduceSumSquare"@
    ||| name == "Max"@
    ||| name == "Min"@
    ||| name == "Mean"@
    ||| name == "Sum"@
    ||| name == "Concat"@
    ||| name == "Expand"@
    ||| name == "Flatten"@
    ||| name == "Pad"@
    ||| name == "Reshape"@
    ||| name == "Slice"@
    ||| name == "Split"@
    ||| name == "Squeeze"@
    ||| name == "Tile"@
    ||| name == "Transpose"@
    ||| name == "Unsqueeze"@
    ||| name == "DepthToSpace"@
    ||| name == "SpaceToDepth"@
    ||| name == "Gather"@
    ||| name == "GatherElements"@
    ||| name == "GatherND"@
    ||| name == "MatMul"@
    ||| name == "Gemm"@
    ||| name == "Linear"@
    ||| name == "Conv1d"@
    ||| name == "Conv2d"@
    ||| name == "Conv3d"@
    ||| name == "ConvTranspose1d"@
    ||| name == "ConvTranspose2d"@
    ||| name == "ConvTranspose3d"@
    ||| name == "AveragePool1d"@
    ||| name == "AveragePool2d"@
    ||| name == "AveragePool3d"@
    ||| name == "MaxPool1d"@
    ||| name == "MaxPool2d"@
    ||| name == "MaxPool3d"@
    ||| name == "GlobalAveragePool"@
    ||| name == "BatchNormalization"@
    ||| name == "InstanceNormalization"@
    ||| name == "LayerNormalization"@
    ||| name == "GroupNormalization"@
    ||| name == "Dropout"@
    ||| name == "Ceil"@
    ||| name == "Floor"@
    ||| name == "Round"@
    ||| name == "Sign"@
    ||| name == "Equal"@
    ||| name == "Greater"@
    ||| name == "GreaterOrEqual"@
    ||| name == "Less"@
    ||| name == "LessOrEqual"@
    ||| name == "ArgMax"@
    ||| name == "ArgMin"@
    ||| name == "Shape"@
    ||| name == "Size"@
    ||| name == "NonZero"@
    ||| name == "TopK"@
    ||| name == "Resize"@
    ||| name == "Clip"@
    ||| name == "OneHot"@
    ||| name == "CumSum"@
    ||| name == "Trilu"@
    ||| name == "Range"@
    ||| name == "ConstantOfShape"@
}

/// Operator of a node, one variant per ONNX operator that the analyses tell apart;
/// every other operator keeps its name in `Other`.
#[derive(Debug, Clone)]
pub enum OpKind {
    Add,
    Sub,
    Mul,
    Div,
    Neg,
    Abs,
    Pow,
    Reciprocal,
    Sqrt,
    Exp,
    Log,
    Erf,
    Sin,
    Cos,
    Tan,
    Sinh,
    Cosh,
    Tanh,
    Relu,
    Sigmoid,
    Softmax,
    LogSoftmax,
    LeakyRelu,
    Elu,
    Selu,
    Celu,
    Gelu,
    Mish,
    Softplus,
    Softsign,
    HardSigmoid,
    HardSwish,
    Identity,
    PRelu,
    Where,
    ReduceMax,
    ReduceMin,
    ReduceMean,
    ReduceSum,
    ReduceProd,
    ReduceL1,
    ReduceL2,
    ReduceLogSum,
    ReduceLogSumExp,
    ReduceSumSquare,
    Max,
    Min,
    Mean,
    Sum,
    Concat,
    Expand,
    Flatten,
    Pad,
    Reshape,
    Slice,
    Split,
    Squeeze,
    Tile,
    Transpose,
    Unsqueeze,
    DepthToSpace,
    SpaceToDepth,
    Gather,
    GatherElements,
    GatherND,
    MatMul,
    Gemm,
    Linear,
    Conv1d,
    Conv2d,
    Conv3d,
    ConvTranspose1d,
    ConvTranspose2d,
    ConvTranspose3d,
    AveragePool1d,
    AveragePool2d,
    AveragePool3d,
    MaxPool1d,
    MaxPool2d,
    MaxPool3d,
    GlobalAveragePool,
    BatchNormalization,
    InstanceNormalization,
    LayerNormalization,
    GroupNormalization,
    Dropout,
    Ceil,
    Floor,
    Round,
    Sign,
    Equal,
    Greater,
    GreaterOrEqual,
    Less,
    LessOrEqual,
    ArgMax,
    ArgMin,
    Shape,
    Size,
    NonZero,
    TopK,
    Resize,
    Clip,
    OneHot,
    CumSum,
    Trilu,
    Range,
    ConstantOfShape,
    Other(String),
}

/// The operator's name, as onnx-ir prints its node type.
pub open spec fn op_kind_text(k: OpKind) -> Seq<char> {
    match k {
        OpKind::Add => "Add"@,
        OpKind::Sub => "Sub"@,
        OpKind::Mul => "Mul"@,
        OpKind::Div => "Div"@,
        OpKind::Neg => "Neg"@,
        OpKind::Abs => "Abs"@,
        OpKind::Pow => "Pow"@,
        OpKind::Reciprocal => "Reciprocal"@,
        OpKind::Sqrt => "Sqrt"@,
        OpKind::Exp => "Exp"@,
        OpKind::Log => "Log"@,
        OpKind::Erf => "Erf"@,
        OpKind::Sin => "Sin"@,
        OpKind::Cos => "Cos"@,
        OpKind::Tan => "Tan"@,
        OpKind::Sinh => "Sinh"@,
        OpKind::Cosh => "Cosh"@,
        OpKind::Tanh => "Tanh"@,
        OpKind::Relu => "Relu"@,
        OpKind::Sigmoid => "Sigmoid"@,
        OpKind::Softmax => "Softmax"@,
        OpKind::LogSoftmax => "LogSoftmax"@,
        OpKind::LeakyRelu => "LeakyRelu"@,
        OpKind::Elu => "Elu"@,
        OpKind::Selu => "Selu"@,
        OpKind::Celu => "Celu"@,
        OpKind::Gelu => "Gelu"@,
        OpKind::Mish => "Mish"@,
        OpKind::Softplus => "Softplus"@,
        OpKind::Softsign => "Softsign"@,
        OpKind::HardSigmoid => "HardSigmoid"@,
        OpKind::HardSwish => "HardSwish"@,
        OpKind::Identity => "Identity"@,
        OpKind::PRelu => "PRelu"@,
        OpKind::Where => "Where"@,
        OpKind::ReduceMax => "ReduceMax"@,
        OpKind::ReduceMin => "ReduceMin"@,
        OpKind::ReduceMean => "ReduceMean"@,
        OpKind::ReduceSum => "ReduceSum"@,
        OpKind::ReduceProd => "ReduceProd"@,
        OpKind::ReduceL1 => "ReduceL1"@,
        OpKind::ReduceL2 => "ReduceL2"@,
        OpKind::ReduceLogSum => "ReduceLogSum"@,
        OpKind::ReduceLogSumExp => "ReduceLogSumExp"@,
        OpKind::ReduceSumSquare => "ReduceSumSquare"@,
        OpKind::Max => "Max"@,
        OpKind::Min => "Min"@,
        OpKind::Mean => "Mean"@,
        OpKind::Sum => "Sum"@,
        OpKind::Concat => "Concat"@,
        OpKind::Expand => "Expand"@,
        OpKind::Flatten => "Flatten"@,
        OpKind::Pad => "Pad"@,
        OpKind::Reshape => "Reshape"@,
        OpKind::Slice => "Slice"@,
        OpKind::Split => "Split"@,
        OpKind::Squeeze => "Squeeze"@,
        OpKind::Tile => "Tile"@,
        OpKind::Transpose => "Transpose"@,
        OpKind::Unsqueeze => "Unsqueeze"@,
        OpKind::DepthToSpace => "DepthToSpace"@,
        OpKind::SpaceToDepth => "SpaceToDepth"@,
        OpKind::Gather => "Gather"@,
        OpKind::GatherElements => "GatherElements"@,
        OpKind::GatherND => "GatherND"@,
        OpKind::MatMul => "MatMul"@,
        OpKind::Gemm => "Gemm"@,
        OpKind::Linear => "Linear"@,
        OpKind::Conv1d => "Conv1d"@,
        OpKind::Conv2d => "Conv2d"@,
        OpKind::Conv3d => "Conv3d"@,
        OpKind::ConvTranspose1d => "ConvTranspose1d"@,
        OpKind::ConvTranspose2d => "ConvTranspose2d"@,
        OpKind::ConvTranspose3d => "ConvTranspose3d"@,
        OpKind::AveragePool1d => "AveragePool1d"@,
        OpKind::AveragePool2d => "AveragePool2d"@,
        OpKind::AveragePool3d => "AveragePool3d"@,
        OpKind::MaxPool1d => "MaxPool1d"@,
        OpKind::MaxPool2d => "MaxPool2d"@,
        OpKind::MaxPool3d => "MaxPool3d"@,
        OpKind::GlobalAveragePool => "GlobalAveragePool"@,
        OpKind::BatchNormalization => "BatchNormalization"@,
        OpKind::InstanceNormalization => "InstanceNormalization"@,
        OpKind::LayerNormalization => "LayerNormalization"@,
        OpKind::GroupNormalization => "GroupNormalization"@,
        OpKind::Dropout => "Dropout"@,
        OpKind::Ceil => "Ceil"@,
        OpKind::Floor => "Floor"@,
        OpKind::Round => "Round"@,
        OpKind::Sign => "Sign"@,
        OpKind::Equal => "Equal"@,
        OpKind::Greater => "Greater"@,
        OpKind::GreaterOrEqual => "GreaterOrEqual"@,
        OpKind::Less => "Less"@,
        OpKind::LessOrEqual => "LessOrEqual"@,
        OpKind::ArgMax => "ArgMax"@,
        OpKind::ArgMin => "ArgMin"@,
        OpKind::Shape => "Shape"@,
        OpKind::Size => "Size"@,
        OpKind::NonZero => "NonZero"@,
        OpKind::TopK => "TopK"@,
        OpKind::Resize => "Resize"@,
        OpKind::Clip => "Clip"@,
        OpKind::OneHot => "OneHot"@,
        OpKind::CumSum => "CumSum"@,
        OpKind::Trilu => "Trilu"@,
        OpKind::Range => "Range"@,
        OpKind::ConstantOfShape => "ConstantOfShape"@,
        OpKind::Other(s) => s@,
    }
}

/// Elementwise binary arithmetic.
pub open spec fn is_elementwise_binary(k: OpKind) -> bool {
    match k {
        OpKind::Add | OpKind::Sub | OpKind::Mul | OpKind::Div => true,
        _ => false,
    }
}

/// Smooth unary maps and activations whose data input is differentiable.
pub open spec fn is_smooth_unary(k: OpKind) -> bool {
    match k {
        OpKind::Neg | OpKind::Abs | OpKind::Pow | OpKind::Reciprocal | OpKind::Sqrt | OpKind::Exp | OpKind::Log | OpKind::Erf | OpKind::Sin | OpKind::Cos | OpKind::Tan | OpKind::Sinh | OpKind::Cosh | OpKind::Tanh | OpKind::Relu | OpKind::Sigmoid | OpKind::Softmax | OpKind::LogSoftmax | OpKind::LeakyRelu | OpKind::Elu | OpKind::Selu | OpKind::Celu | OpKind::Gelu | OpKind::Mish | OpKind::Softplus | OpKind::Softsign | OpKind::HardSigmoid | OpKind::HardSwish | OpKind::Identity => true,
        _ => false,
    }
}

/// Reductions whose data input is differentiable.
pub open spec fn is_reduction(k: OpKind) -> bool {
    match k {
        OpKind::ReduceMax | OpKind::ReduceMin | OpKind::ReduceMean | OpKind::ReduceSum | OpKind::ReduceProd | OpKind::ReduceL1 | OpKind::ReduceL2 | OpKind::ReduceLogSum | OpKind::ReduceLogSumExp | OpKind::ReduceSumSquare => true,
        _ => false,
    }
}

/// Variadic aggregations.
pub open spec fn is_aggregation(k: OpKind) -> bool {
    match k {
        OpKind::Max | OpKind::Min | OpKind::Mean | OpKind::Sum => true,
        _ => false,
    }
}

/// Shape-preserving rearrangements of a data input.
pub open spec fn is_rearrangement(k: OpKind) -> bool {
    match k {
        OpKind::Expand | OpKind::Flatten | OpKind::Pad | OpKind::Reshape | OpKind::Slice | OpKind::Split | OpKind::Squeeze | OpKind::Tile | OpKind::Transpose | OpKind::Unsqueeze | OpKind::DepthToSpace | OpKind::SpaceToDepth => true,
        _ => false,
    }
}

/// Gather operators.
pub open spec fn is_gather_family(k: OpKind) -> bool {
    match k {
        OpKind::Gather | OpKind::GatherElements | OpKind::GatherND => true,
        _ => false,
    }
}

/// Dense layers.
pub open spec fn is_dense(k: OpKind) -> bool {
    match k {
        OpKind::MatMul | OpKind::Gemm | OpKind::Linear => true,
        _ => false,
    }
}

/// Convolutions and transposed convolutions.
pub open spec fn is_convolution(k: OpKind) -> bool {
    match k {
        OpKind::Conv1d | OpKind::Conv2d | OpKind::Conv3d | OpKind::ConvTranspose1d | OpKind::ConvTranspose2d | OpKind::ConvTranspose3d => true,
        _ => false,
    }
}

/// Pooling operators.
pub open spec fn is_pooling(k: OpKind) -> bool {
    match k {
        OpKind::AveragePool1d | OpKind::AveragePool2d | OpKind::AveragePool3d | OpKind::MaxPool1d | OpKind::MaxPool2d | OpKind::MaxPool3d | OpKind::GlobalAveragePool => true,
        _ => false,
    }
}

/// Normalizations with a scale and a bias.
pub open spec fn is_affine_normalization(k: OpKind) -> bool {
    match k {
        OpKind::InstanceNormalization | OpKind::LayerNormalization | OpKind::GroupNormalization => true,
        _ => false,
    }
}

/// Discrete or shape-valued operators that stop gradients.
pub open spec fn is_discrete(k: OpKind) -> bool {
    match k {
        OpKind::Ceil | OpKind::Floor | OpKind::Round | OpKind::Sign | OpKind::Equal | OpKind::Greater | OpKind::GreaterOrEqual | OpKind::Less | OpKind::LessOrEqual | OpKind::ArgMax | OpKind::ArgMin | OpKind::Shape | OpKind::Size | OpKind::NonZero | OpKind::TopK => true,
        _ => false,
    }
}

/// Operators that the role analysis names in its reports.
pub open spec fn is_registered_operator(k: OpKind) -> bool {
    match k {
        OpKind::Linear | OpKind::Gemm | OpKind::MatMul | OpKind::Conv1d | OpKind::Conv2d | OpKind::Conv3d | OpKind::ConvTranspose1d | OpKind::ConvTranspose2d | OpKind::ConvTranspose3d | OpKind::BatchNormalization | OpKind::InstanceNormalization | OpKind::LayerNormalization | OpKind::GroupNormalization | OpKind::PRelu | OpKind::Gather | OpKind::GatherElements | OpKind::GatherND | OpKind::Reshape | OpKind::Expand | OpKind::Tile | OpKind::Squeeze | OpKind::Unsqueeze | OpKind::Slice | OpKind::Resize | OpKind::Pad | OpKind::Clip | OpKind::OneHot | OpKind::TopK | OpKind::CumSum | OpKind::Trilu | OpKind::Range | OpKind::ConstantOfShape | OpKind::Identity => true,
        _ => false,
    }
}

/// Operators whose second input is a target shape or axes.
pub open spec fn is_shape_argument(k: OpKind) -> bool {
    match k {
        OpKind::Reshape | OpKind::Expand | OpKind::Tile | OpKind::Squeeze | OpKind::Unsqueeze => true,
        _ => false,
    }
}

/// Operators whose later inputs describe a region.
pub open spec fn is_region_argument(k: OpKind) -> bool {
    match k {
        OpKind::Slice | OpKind::Resize | OpKind::Pad => true,
        _ => false,
    }
}

/// Operators whose second input is a position or count.
pub open spec fn is_position_argument(k: OpKind) -> bool {
    match k {
        OpKind::TopK | OpKind::CumSum | OpKind::Trilu => true,
        _ => false,
    }
}

/// Operators whose inputs are generator metadata.
pub open spec fn is_generator(k: OpKind) -> bool {
    match k {
        OpKind::Range | OpKind::ConstantOfShape => true,
        _ => false,
    }
}

impl OpKind {
    /// The operator a node type name names; a name of no operator told apart is kept in `Other`.
    pub fn from_type_name(name: &str) -> (r: OpKind)
        ensures
            op_kind_text(r) == name@,
            r is Other <==> !is_known_kind_name(name@),
    {
        proof {
            reveal_strlit("Add");
            reveal_strlit("Sub");
            reveal_strlit("Mul");
            reveal_strlit("Div");
            reveal_strlit("Neg");
            reveal_strlit("Abs");
            reveal_strlit("Pow");
            reveal_strlit("Reciprocal");
            reveal_strlit("Sqrt");
            reveal_strlit("Exp");
            reveal_strlit("Log");
            reveal_strlit("Erf");
            reveal_strlit("Sin");
            reveal_strlit("Cos");
            reveal_strlit("Tan");
            reveal_strlit("Sinh");
            reveal_strlit("Cosh");
            reveal_strlit("Tanh");
            reveal_strlit("Relu");
            reveal_strlit("Sigmoid");
            reveal_strlit("Softmax");
            reveal_strlit("LogSoftmax");
            reveal_strlit("LeakyRelu");
            reveal_strlit("Elu");
            reveal_strlit("Selu");
            reveal_strlit("Celu");
            reveal_strlit("Gelu");
            reveal_strlit("Mish");
            reveal_strlit("Softplus");
            reveal_strlit("Softsign");
            reveal_strlit("HardSigmoid");
            reveal_strlit("HardSwish");
            reveal_strlit("Identity");
            reveal_strlit("PRelu");
            reveal_strlit("Where");
            reveal_strlit("ReduceMax");
            reveal_strlit("ReduceMin");
            reveal_strlit("ReduceMean");
            reveal_strlit("ReduceSum");
            reveal_strlit("ReduceProd");
            reveal_strlit("ReduceL1");
            reveal_strlit("ReduceL2");
            reveal_strlit("ReduceLogSum");
            reveal_strlit("ReduceLogSumExp");
            reveal_strlit("ReduceSumSquare");
            reveal_strlit("Max");
            reveal_strlit("Min");
            reveal_strlit("Mean");
            reveal_strlit("Sum");
            reveal_strlit("Concat");
            reveal_strlit("Expand");
            reveal_strlit("Flatten");
            reveal_strlit("Pad");
            reveal_strlit("Reshape");
            reveal_strlit("Slice");
            reveal_strlit("Split");
            reveal_strlit("Squeeze");
            reveal_strlit("Tile");
            reveal_strlit("Transpose");
            reveal_strlit("Unsqueeze");
            reveal_strlit("DepthToSpace");
            reveal_strlit("SpaceToDepth");
            reveal_strlit("Gather");
            reveal_strlit("GatherElements");
            reveal_strlit("GatherND");
            reveal_strlit("MatMul");
            reveal_strlit("Gemm");
            reveal_strlit("Linear");
            reveal_strlit("Conv1d");
            reveal_strlit("Conv2d");
            reveal_strlit("Conv3d");
            reveal_strlit("ConvTranspose1d");
            reveal_strlit("ConvTranspose2d");
            reveal_strlit("ConvTranspose3d");
            reveal_strlit("AveragePool1d");
            reveal_strlit("AveragePool2d");
            reveal_strlit("AveragePool3d");
            reveal_strlit("MaxPool1d");
            reveal_strlit("MaxPool2d");
            reveal_strlit("MaxPool3d");
            reveal_strlit("GlobalAveragePool");
            reveal_strlit("BatchNormalization");
            reveal_strlit("InstanceNormalization");
            reveal_strlit("LayerNormalization");
            reveal_strlit("GroupNormalization");
            reveal_strlit("Dropout");
            reveal_strlit("Ceil");
            reveal_strlit("Floor");
            reveal_strlit("Round");
            reveal_strlit("Sign");
            reveal_strlit("Equal");
            reveal_strlit("Greater");
            reveal_strlit("GreaterOrEqual");
            reveal_strlit("Less");
            reveal_strlit("LessOrEqual");
            reveal_strlit("ArgMax");
            reveal_strlit("ArgMin");
            reveal_strlit("Shape");
            reveal_strlit("Size");
            reveal_strlit("NonZero");
            reveal_strlit("TopK");
            reveal_strlit("Resize");
            reveal_strlit("Clip");
            reveal_strlit("OneHot");
            reveal_strlit("CumSum");
            reveal_strlit("Trilu");
            reveal_strlit("Range");
            reveal_strlit("ConstantOfShape");
        }
        if str_eq(name, "Add") {
            OpKind::Add
        } else if str_eq(name, "Sub") {
            OpKind::Sub
        } else if str_eq(name, "Mul") {
            OpKind::Mul
        } else if str_eq(name, "Div") {
            OpKind::Div
        } else if str_eq(name, "Neg") {
            OpKind::Neg
        } else if str_eq(name, "Abs") {
            OpKind::Abs
        } else if str_eq(name, "Pow") {
            OpKind::Pow
        } else if str_eq(name, "Reciprocal") {
            OpKind::Reciprocal
        } else if str_eq(name, "Sqrt") {
            OpKind::Sqrt
        } else if str_eq(name, "Exp") {
            OpKind::Exp
        } else if str_eq(name, "Log") {
            OpKind::Log
        } else if str_eq(name, "Erf") {
            OpKind::Erf
        } else if str_eq(name, "Sin") {
            OpKind::Sin
        } else if str_eq(name, "Cos") {
            OpKind::Cos
        } else if str_eq(name, "Tan") {
            OpKind::Tan
        } else if str_eq(name, "Sinh") {
            OpKind::Sinh
        } else if str_eq(name, "Cosh") {
            OpKind::Cosh
        } else if str_eq(name, "Tanh") {
            OpKind::Tanh
        } else if str_eq(name, "Relu") {
            OpKind::Relu
        } else if str_eq(name, "Sigmoid") {
            OpKind::Sigmoid
        } else if str_eq(name, "Softmax") {
            OpKind::Softmax
        } else if str_eq(name, "LogSoftmax") {
            OpKind::LogSoftmax
        } else if str_eq(name, "LeakyRelu") {
            OpKind::LeakyRelu
        } else if str_eq(name, "Elu") {
            OpKind::Elu
        } else if str_eq(name, "Selu") {
            OpKind::Selu
        } else if str_eq(name, "Celu") {
            OpKind::Celu
        } else if str_eq(name, "Gelu") {
            OpKind::Gelu
        } else if str_eq(name, "Mish") {
            OpKind::Mish
        } else if str_eq(name, "Softplus") {
            OpKind::Softplus
        } else if str_eq(name, "Softsign") {
            OpKind::Softsign
        } else if str_eq(name, "HardSigmoid") {
            OpKind::HardSigmoid
        } else if str_eq(name, "HardSwish") {
            OpKind::HardSwish
        } else if str_eq(name, "Identity") {
            OpKind::Identity
        } else if str_eq(name, "PRelu") {
            OpKind::PRelu
        } else if str_eq(name, "Where") {
            OpKind::Where
        } else if str_eq(name, "ReduceMax") {
            OpKind::ReduceMax
        } else if str_eq(name, "ReduceMin") {
            OpKind::ReduceMin
        } else if str_eq(name, "ReduceMean") {
            OpKind::ReduceMean
        } else if str_eq(name, "ReduceSum") {
            OpKind::ReduceSum
        } else if str_eq(name, "ReduceProd") {
            OpKind::ReduceProd
        } else if str_eq(name, "ReduceL1") {
            OpKind::ReduceL1
        } else if str_eq(name, "ReduceL2") {
            OpKind::ReduceL2
        } else if str_eq(name, "ReduceLogSum") {
            OpKind::ReduceLogSum
        } else if str_eq(name, "ReduceLogSumExp") {
            OpKind::ReduceLogSumExp
        } else if str_eq(name, "ReduceSumSquare") {
            OpKind::ReduceSumSquare
        } else if str_eq(name, "Max") {
            OpKind::Max
        } else if str_eq(name, "Min") {
            OpKind::Min
        } else if str_eq(name, "Mean") {
            OpKind::Mean
        } else if str_eq(name, "Sum") {
            OpKind::Sum
        } else if str_eq(name, "Concat") {
            OpKind::Concat
        } else if str_eq(name, "Expand") {
            OpKind::Expand
        } else if str_eq(name, "Flatten") {
            OpKind::Flatten
        } else if str_eq(name, "Pad") {
            OpKind::Pad
        } else if str_eq(name, "Reshape") {
            OpKind::Reshape
        } else if str_eq(name, "Slice") {
            OpKind::Slice
        } else if str_eq(name, "Split") {
            OpKind::Split
        } else if str_eq(name, "Squeeze") {
            OpKind::Squeeze
        } else if str_eq(name, "Tile") {
            OpKind::Tile
        } else if str_eq(name, "Transpose") {
            OpKind::Transpose
        } else if str_eq(name, "Unsqueeze") {
            OpKind::Unsqueeze
        } else if str_eq(name, "DepthToSpace") {
            OpKind::DepthToSpace
        } else if str_eq(name, "SpaceToDepth") {
            OpKind::SpaceToDepth
        } else if str_eq(name, "Gather") {
            OpKind::Gather
        } else if str_eq(name, "GatherElements") {
            OpKind::GatherElements
        } else if str_eq(name, "GatherND") {
            OpKind::GatherND
        } else if str_eq(name, "MatMul") {
            OpKind::MatMul
        } else if str_eq(name, "Gemm") {
            OpKind::Gemm
        } else if str_eq(name, "Linear") {
            OpKind::Linear
        } else if str_eq(name, "Conv1d") {
            OpKind::Conv1d
        } else if str_eq(name, "Conv2d") {
            OpKind::Conv2d
        } else if str_eq(name, "Conv3d") {
            OpKind::Conv3d
        } else if str_eq(name, "ConvTranspose1d") {
            OpKind::ConvTranspose1d
        } else if str_eq(name, "ConvTranspose2d") {
            OpKind::ConvTranspose2d
        } else if str_eq(name, "ConvTranspose3d") {
            OpKind::ConvTranspose3d
        } else if str_eq(name, "AveragePool1d") {
            OpKind::AveragePool1d
        } else if str_eq(name, "AveragePool2d") {
            OpKind::AveragePool2d
        } else if str_eq(name, "AveragePool3d") {
            OpKind::AveragePool3d
        } else if str_eq(name, "MaxPool1d") {
            OpKind::MaxPool1d
        } else if str_eq(name, "MaxPool2d") {
            OpKind::MaxPool2d
        } else if str_eq(name, "MaxPool3d") {
            OpKind::MaxPool3d
        } else if str_eq(name, "GlobalAveragePool") {
            OpKind::GlobalAveragePool
        } else if str_eq(name, "BatchNormalization") {
            OpKind::BatchNormalization
        } else if str_eq(name, "InstanceNormalization") {
            OpKind::InstanceNormalization
        } else if str_eq(name, "LayerNormalization") {
            OpKind::LayerNormalization
        } else if str_eq(name, "GroupNormalization") {
            OpKind::GroupNormalization
        } else if str_eq(name, "Dropout") {
            OpKind::Dropout
        } else if str_eq(name, "Ceil") {
            OpKind::Ceil
        } else if str_eq(name, "Floor") {
            OpKind::Floor
        } else if str_eq(name, "Round") {
            OpKind::Round
        } else if str_eq(name, "Sign") {
            OpKind::Sign
        } else if str_eq(name, "Equal") {
            OpKind::Equal
        } else if str_eq(name, "Greater") {
            OpKind::Greater
        } else if str_eq(name, "GreaterOrEqual") {
            OpKind::GreaterOrEqual
        } else if str_eq(name, "Less") {
            OpKind::Less
        } else if str_eq(name, "LessOrEqual") {
            OpKind::LessOrEqual
        } else if str_eq(name, "ArgMax") {
            OpKind::ArgMax
        } else if str_eq(name, "ArgMin") {
            OpKind::ArgMin
        } else if str_eq(name, "Shape") {
            OpKind::Shape
        } else if str_eq(name, "Size") {
            OpKind::Size
        } else if str_eq(name, "NonZero") {
            OpKind::NonZero
        } else if str_eq(name, "TopK") {
            OpKind::TopK
        } else if str_eq(name, "Resize") {
            OpKind::Resize
        } else if str_eq(name, "Clip") {
            OpKind::Clip
        } else if str_eq(name, "OneHot") {
            OpKind::OneHot
        } else if str_eq(name, "CumSum") {
            OpKind::CumSum
        } else if str_eq(name, "Trilu") {
            OpKind::Trilu
        } else if str_eq(name, "Range") {
            OpKind::Range
        } else if str_eq(name, "ConstantOfShape") {
            OpKind::ConstantOfShape
        } else {
            OpKind::Other(owned(name))
        }
    }

    /// The operator's name.
    pub fn name(&self) -> (r: String)
        ensures
            r@ == op_kind_text(*self),
    {
        let s: &str = match self {
            OpKind::Add => "Add",
            OpKind::Sub => "Sub",
            OpKind::Mul => "Mul",
            OpKind::Div => "Div",
            OpKind::Neg => "Neg",
            OpKind::Abs => "Abs",
            OpKind::Pow => "Pow",
            OpKind::Reciprocal => "Reciprocal",
            OpKind::Sqrt => "Sqrt",
            OpKind::Exp => "Exp",
            OpKind::Log => "Log",
            OpKind::Erf => "Erf",
            OpKind::Sin => "Sin",
            OpKind::Cos => "Cos",
            OpKind::Tan => "Tan",
            OpKind::Sinh => "Sinh",
            OpKind::Cosh => "Cosh",
            OpKind::Tanh => "Tanh",
            OpKind::Relu => "Relu",
            OpKind::Sigmoid => "Sigmoid",
            OpKind::Softmax => "Softmax",
            OpKind::LogSoftmax => "LogSoftmax",
            OpKind::LeakyRelu => "LeakyRelu",
            OpKind::Elu => "Elu",
            OpKind::Selu => "Selu",
            OpKind::Celu => "Celu",
            OpKind::Gelu => "Gelu",
            OpKind::Mish => "Mish",
            OpKind::Softplus => "Softplus",
            OpKind::Softsign => "Softsign",
            OpKind::HardSigmoid => "HardSigmoid",
            OpKind::HardSwish => "HardSwish",
            OpKind::Identity => "Identity",
            OpKind::PRelu => "PRelu",
            OpKind::Where => "Where",
            OpKind::ReduceMax => "ReduceMax",
            OpKind::ReduceMin => "ReduceMin",
            OpKind::ReduceMean => "ReduceMean",
            OpKind::ReduceSum => "ReduceSum",
            OpKind::ReduceProd => "ReduceProd",
            OpKind::ReduceL1 => "ReduceL1",
            OpKind::ReduceL2 => "ReduceL2",
            OpKind::ReduceLogSum => "ReduceLogSum",
            OpKind::ReduceLogSumExp => "ReduceLogSumExp",
            OpKind::ReduceSumSquare => "ReduceSumSquare",
            OpKind::Max => "Max",
            OpKind::Min => "Min",
            OpKind::Mean => "Mean",
            OpKind::Sum => "Sum",
            OpKind::Concat => "Concat",
            OpKind::Expand => "Expand",
            OpKind::Flatten => "Flatten",
            OpKind::Pad => "Pad",
            OpKind::Reshape => "Reshape",
            OpKind::Slice => "Slice",
            OpKind::Split => "Split",
            OpKind::Squeeze => "Squeeze",
            OpKind::Tile => "Tile",
            OpKind::Transpose => "Transpose",
            OpKind::Unsqueeze => "Unsqueeze",
            OpKind::DepthToSpace => "DepthToSpace",
            OpKind::SpaceToDepth => "SpaceToDepth",
            OpKind::Gather => "Gather",
            OpKind::GatherElements => "GatherElements",
            OpKind::GatherND => "GatherND",
            OpKind::MatMul => "MatMul",
            OpKind::Gemm => "Gemm",
            OpKind::Linear => "Linear",
            OpKind::Conv1d => "Conv1d",
            OpKind::Conv2d => "Conv2d",
            OpKind::Conv3d => "Conv3d",
            OpKind::ConvTranspose1d => "ConvTranspose1d",
            OpKind::ConvTranspose2d => "ConvTranspose2d",
            OpKind::ConvTranspose3d => "ConvTranspose3d",
            OpKind::AveragePool1d => "AveragePool1d",
            OpKind::AveragePool2d => "AveragePool2d",
            OpKind::AveragePool3d => "AveragePool3d",
            OpKind::MaxPool1d => "MaxPool1d",
            OpKind::MaxPool2d => "MaxPool2d",
            OpKind::MaxPool3d => "MaxPool3d",
            OpKind::GlobalAveragePool => "GlobalAveragePool",
            OpKind::BatchNormalization => "BatchNormalization",
            OpKind::InstanceNormalization => "InstanceNormalization",
            OpKind::LayerNormalization => "LayerNormalization",
            OpKind::GroupNormalization => "GroupNormalization",
            OpKind::Dropout => "Dropout",
            OpKind::Ceil => "Ceil",
            OpKind::Floor => "Floor",
            OpKind::Round => "Round",
            OpKind::Sign => "Sign",
            OpKind::Equal => "Equal",
            OpKind::Greater => "Greater",
            OpKind::GreaterOrEqual => "GreaterOrEqual",
            OpKind::Less => "Less",
            OpKind::LessOrEqual => "LessOrEqual",
            OpKind::ArgMax => "ArgMax",
            OpKind::ArgMin => "ArgMin",
            OpKind::Shape => "Shape",
            OpKind::Size => "Size",
            OpKind::NonZero => "NonZero",
            OpKind::TopK => "TopK",
            OpKind::Resize => "Resize",
            OpKind::Clip => "Clip",
            OpKind::OneHot => "OneHot",
            OpKind::CumSum => "CumSum",
            OpKind::Trilu => "Trilu",
            OpKind::Range => "Range",
            OpKind::ConstantOfShape => "ConstantOfShape",
            OpKind::Other(s) => s.as_str(),
        };
        owned(s)
    }

    /// Elementwise binary arithmetic.
    pub fn elementwise_binary(&self) -> (r: bool)
        ensures
            r == is_elementwise_binary(*self),
    {
        match self {
            OpKind::Add | OpKind::Sub | OpKind::Mul | OpKind::Div => true,
            _ => false,
        }
    }

    /// Smooth unary maps and activations whose data input is differentiable.
    pub fn smooth_unary(&self) -> (r: bool)
        ensures
            r == is_smooth_unary(*self),
    {
        match self {
            OpKind::Neg | OpKind::Abs | OpKind::Pow | OpKind::Reciprocal | OpKind::Sqrt | OpKind::Exp | OpKind::Log | OpKind::Erf | OpKind::Sin | OpKind::Cos | OpKind::Tan | OpKind::Sinh | OpKind::Cosh | OpKind::Tanh | OpKind::Relu | OpKind::Sigmoid | OpKind::Softmax | OpKind::LogSoftmax | OpKind::LeakyRelu | OpKind::Elu | OpKind::Selu | OpKind::Celu | OpKind::Gelu | OpKind::Mish | OpKind::Softplus | OpKind::Softsign | OpKind::HardSigmoid | OpKind::HardSwish | OpKind::Identity => true,
            _ => false,
        }
    }

    /// Reductions whose data input is differentiable.
    pub fn reduction(&self) -> (r: bool)
        ensures
            r == is_reduction(*self),
    {
        match self {
            OpKind::ReduceMax | OpKind::ReduceMin | OpKind::ReduceMean | OpKind::ReduceSum | OpKind::ReduceProd | OpKind::ReduceL1 | OpKind::ReduceL2 | OpKind::ReduceLogSum | OpKind::ReduceLogSumExp | OpKind::ReduceSumSquare => true,
            _ => false,
        }
    }

    /// Variadic aggregations.
    pub fn aggregation(&self) -> (r: bool)
        ensures
            r == is_aggregation(*self),
    {
        match self {
            OpKind::Max | OpKind::Min | OpKind::Mean | OpKind::Sum => true,
            _ => false,
        }
    }

    /// Shape-preserving rearrangements of a data input.
    pub fn rearrangement(&self) -> (r: bool)
        ensures
            r == is_rearrangement(*self),
    {
        match self {
            OpKind::Expand | OpKind::Flatten | OpKind::Pad | OpKind::Reshape | OpKind::Slice | OpKind::Split | OpKind::Squeeze | OpKind::Tile | OpKind::Transpose | OpKind::Unsqueeze | OpKind::DepthToSpace | OpKind::SpaceToDepth => true,
            _ => false,
        }
    }

    /// Gather operators.
    pub fn gather_family(&self) -> (r: bool)
        ensures
            r == is_gather_family(*self),
    {
        match self {
            OpKind::Gather | OpKind::GatherElements | OpKind::GatherND => true,
            _ => false,
        }
    }

    /// Dense layers.
    pub fn dense(&self) -> (r: bool)
        ensures
            r == is_dense(*self),
    {
        match self {
            OpKind::MatMul | OpKind::Gemm | OpKind::Linear => true,
            _ => false,
        }
    }

    /// Convolutions and transposed convolutions.
    pub fn convolution(&self) -> (r: bool)
        ensures
            r == is_convolution(*self),
    {
        match self {
            OpKind::Conv1d | OpKind::Conv2d | OpKind::Conv3d | OpKind::ConvTranspose1d | OpKind::ConvTranspose2d | OpKind::ConvTranspose3d => true,
            _ => false,
        }
    }

    /// Pooling operators.
    pub fn pooling(&self) -> (r: bool)
        ensures
            r == is_pooling(*self),
    {
        match self {
            OpKind::AveragePool1d | OpKind::AveragePool2d | OpKind::AveragePool3d | OpKind::MaxPool1d | OpKind::MaxPool2d | OpKind::MaxPool3d | OpKind::GlobalAveragePool => true,
            _ => false,
        }
    }

    /// Normalizations with a scale and a bias.
    pub fn affine_normalization(&self) -> (r: bool)
        ensures
            r == is_affine_normalization(*self),
    {
        match self {
            OpKind::InstanceNormalization | OpKind::LayerNormalization | OpKind::GroupNormalization => true,
            _ => false,
        }
    }

    /// Discrete or shape-valued operators that stop gradients.
    pub fn discrete(&self) -> (r: bool)
        ensures
            r == is_discrete(*self),
    {
        match self {
            OpKind::Ceil | OpKind::Floor | OpKind::Round | OpKind::Sign | OpKind::Equal | OpKind::Greater | OpKind::GreaterOrEqual | OpKind::Less | OpKind::LessOrEqual | OpKind::ArgMax | OpKind::ArgMin | OpKind::Shape | OpKind::Size | OpKind::NonZero | OpKind::TopK => true,
            _ => false,
        }
    }

    /// Operators that the role analysis names in its reports.
    pub fn registered_operator(&self) -> (r: bool)
        ensures
            r == is_registered_operator(*self),
    {
        match self {
            OpKind::Linear | OpKind::Gemm | OpKind::MatMul | OpKind::Conv1d | OpKind::Conv2d | OpKind::Conv3d | OpKind::ConvTranspose1d | OpKind::ConvTranspose2d | OpKind::ConvTranspose3d | OpKind::BatchNormalization | OpKind::InstanceNormalization | OpKind::LayerNormalization | OpKind::GroupNormalization | OpKind::PRelu | OpKind::Gather | OpKind::GatherElements | OpKind::GatherND | OpKind::Reshape | OpKind::Expand | OpKind::Tile | OpKind::Squeeze | OpKind::Unsqueeze | OpKind::Slice | OpKind::Resize | OpKind::Pad | OpKind::Clip | OpKind::OneHot | OpKind::TopK | OpKind::CumSum | OpKind::Trilu | OpKind::Range | OpKind::ConstantOfShape | OpKind::Identity => true,
            _ => false,
        }
    }

    /// Operators whose second input is a target shape or axes.
    pub fn shape_argument(&self) -> (r: bool)
        ensures
            r == is_shape_argument(*self),
    {
        match self {
            OpKind::Reshape | OpKind::Expand | OpKind::Tile | OpKind::Squeeze | OpKind::Unsqueeze => true,
            _ => false,
        }
    }

    /// Operators whose later inputs describe a region.
    pub fn region_argument(&self) -> (r: bool)
        ensures
            r == is_region_argument(*self),
    {
        match self {
            OpKind::Slice | OpKind::Resize | OpKind::Pad => true,
            _ => false,
        }
    }

    /// Operators whose second input is a position or count.
    pub fn position_argument(&self) -> (r: bool)
        ensures
            r == is_position_argument(*self),
    {
        match self {
            OpKind::TopK | OpKind::CumSum | OpKind::Trilu => true,
            _ => false,
        }
    }

    /// Operators whose inputs are generator metadata.
    pub fn generator(&self) -> (r: bool)
        ensures
            r == is_generator(*self),
    {
        match self {
            OpKind::Range | OpKind::ConstantOfShape => true,
            _ => false,
        }
    }

}

} // verus!
