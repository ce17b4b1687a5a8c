//! Binding-neutral capture graphs: a frontend records tensor inputs, stable
//! parameter-slot reads and operations once, in an order where every operation
//! refers only to values recorded before it.

use vstd::prelude::*;
use crate::error::{error_view, ErrorKind, TynxError};
use crate::graph::{dtype_text, DType};
use crate::parameter::{
    contract_text, contract_view, same_contract, slot_view, ContractView, DeviceInfo, ParamId, ParameterContract,
    ParameterSlot, SlotView, TensorInfo,
};
use crate::text::{decimal, owned, u64_text, usize_list_string, usize_list_text, usize_text};

verus! {

/// Identifier of a value produced by one graph node.
#[derive(Debug, Clone, Copy, PartialEq, Eq, Hash, Structural)]
pub struct ValueId(pub usize);

impl ValueId {
    /// Return the zero-based node index.
    pub fn index(self) -> (r: usize)
        ensures
            r == self.0,
    {
        self.0
    }
}

/// Exact tensor signature of a captured input.
#[derive(Debug)]
pub struct TensorSignature {
    shape: Vec<usize>,
    dtype: DType,
    device: DeviceInfo,
}

/// A signature as plain values.
pub struct SignatureView {
    pub shape: Seq<usize>,
    pub dtype: DType,
    pub device: Seq<char>,
    pub autodiff: bool,
}

pub closed spec fn signature_view(s: TensorSignature) -> SignatureView {
    SignatureView { shape: s.shape@, dtype: s.dtype, device: s.device.name@, autodiff: s.device.autodiff }
}

pub open spec fn signature_of(t: TensorInfo) -> SignatureView {
    SignatureView { shape: t.shape@, dtype: t.dtype, device: t.device.name@, autodiff: t.device.autodiff }
}

pub open spec fn msg_signature(label: Seq<char>, expected: SignatureView, actual: SignatureView) -> Seq<char> {
    "captured "@ + label + " expected shape "@ + usize_list_text(expected.shape) + ", dtype "@ + dtype_text(expected.dtype)
        + ", and device "@ + expected.device + ", got shape "@ + usize_list_text(actual.shape) + ", dtype "@
        + dtype_text(actual.dtype) + ", and device "@ + actual.device
}

fn sizes_copy(v: &Vec<usize>) -> (r: Vec<usize>)
    ensures
        r@ == v@,
{
    let mut out: Vec<usize> = Vec::new();
    let mut i: usize = 0;
    while i < v.len()
        invariant
            i <= v@.len(),
            out@ == v@.take(i as int),
        decreases v.len() - i,
    {
        out.push(v[i]);
        assert(out@ =~= v@.take(i + 1));
        i = i + 1;
    }
    assert(out@ =~= v@);
    out
}

fn sizes_same(a: &Vec<usize>, b: &Vec<usize>) -> (r: bool)
    ensures
        r == (a@ == b@),
{
    if a.len() != b.len() {
        return false;
    }
    let mut i: usize = 0;
    while i < a.len()
        invariant
            i <= a@.len(),
            a@.len() == b@.len(),
            forall|k: int| 0 <= k < i ==> a@[k] == b@[k],
        decreases a.len() - i,
    {
        if a[i] != b[i] {
            return false;
        }
        i = i + 1;
    }
    assert(a@ =~= b@);
    true
}

impl TensorSignature {
    /// Capture the shape, element type and device of a tensor.
    pub fn from_tensor(tensor: &TensorInfo) -> (r: Self)
        ensures
            signature_view(r) == signature_of(*tensor),
    {
        TensorSignature {
            shape: sizes_copy(&tensor.shape),
            dtype: tensor.dtype,
            device: DeviceInfo { name: tensor.device.name.clone(), autodiff: tensor.device.autodiff },
        }
    }

    /// Return the exact captured shape.
    pub fn shape(&self) -> (r: &[usize])
        ensures
            r@ == signature_view(*self).shape,
    {
        self.shape.as_slice()
    }

    /// Return the captured element type.
    pub fn dtype(&self) -> (r: DType)
        ensures
            r == signature_view(*self).dtype,
    {
        self.dtype
    }

    /// Return the captured execution device.
    pub fn device(&self) -> (r: &DeviceInfo)
        ensures
            r.name@ == signature_view(*self).device,
            r.autodiff == signature_view(*self).autodiff,
    {
        &self.device
    }

    /// Check a tensor against the signature.
    pub fn validate(&self, tensor: &TensorInfo, label: &str) -> (r: Result<(), TynxError>)
        ensures
            r is Ok <==> signature_view(*self) == signature_of(*tensor),
            r matches Err(e) ==> error_view(e) == (ErrorKind::TypeMismatch,
                msg_signature(label@, signature_view(*self), signature_of(*tensor))),
    {
        if sizes_same(&self.shape, &tensor.shape) && self.dtype == tensor.dtype
            && crate::text::str_eq(self.device.name.as_str(), tensor.device.name.as_str())
            && self.device.autodiff == tensor.device.autodiff {
            return Ok(());
        }
        let mut m = owned("captured ");
        m.append(label);
        m.append(" expected shape ");
        m.append(usize_list_string(self.shape.as_slice()).as_str());
        m.append(", dtype ");
        m.append(self.dtype.text());
        m.append(", and device ");
        m.append(self.device.name.as_str());
        m.append(", got shape ");
        m.append(usize_list_string(tensor.shape.as_slice()).as_str());
        m.append(", dtype ");
        m.append(tensor.dtype.text());
        m.append(", and device ");
        m.append(tensor.device.name.as_str());
        Err(TynxError::TypeMismatch(m))
    }
}

/// Unary operations of the capture graph.
#[derive(Debug, Clone, PartialEq, Eq)]
pub enum UnaryOp {
    /// Rectified linear activation.
    Relu,
    /// Logistic activation.
    Sigmoid,
    /// Hyperbolic tangent activation.
    Tanh,
    /// Natural exponential.
    Exp,
    /// Natural logarithm.
    Log,
    /// Elementwise square root.
    Sqrt,
    /// Gaussian error linear unit.
    Gelu,
    /// Reshape without changing element order.
    Reshape(Vec<usize>),
    /// Permute all tensor axes.
    Permute(Vec<usize>),
}

/// Binary operations of the capture graph.
#[derive(Debug, Clone, Copy, PartialEq, Eq, Structural)]
pub enum BinaryOp {
    /// Broadcasted addition.
    Add,
    /// Broadcasted subtraction.
    Subtract,
    /// Broadcasted multiplication.
    Multiply,
    /// Broadcasted division.
    Divide,
    /// Matrix multiplication.
    Matmul,
}

/// The structure of a parameter slot when it was captured.
#[derive(Debug)]
pub struct ParameterGuard {
    id: ParamId,
    contract: ParameterContract,
    structure_generation: u64,
}

pub open spec fn msg_guard(id: u64, expected_generation: u64, expected: ContractView, actual_generation: u64, actual: ContractView) -> Seq<char> {
    "captured parameter "@ + decimal(id as nat) + " changed structure: expected generation "@ + decimal(expected_generation as nat)
        + " and contract "@ + contract_text(expected) + ", got generation "@ + decimal(actual_generation as nat)
        + " and contract "@ + contract_text(actual)
}

impl ParameterGuard {
    /// The captured identity.
    pub closed spec fn guard_id(self) -> u64 {
        self.id.0
    }

    /// The captured structural generation.
    pub closed spec fn guard_generation(self) -> u64 {
        self.structure_generation
    }

    /// The captured contract.
    pub closed spec fn guard_contract(self) -> ContractView {
        contract_view(self.contract)
    }

    /// Check that the slot's structure is still the captured one: same structural
    /// generation and same contract. The slot must be the captured one.
    pub fn validate(&self, slot: &ParameterSlot) -> (r: Result<(), TynxError>)
        requires
            slot_view(*slot).id == self.guard_id(),
        ensures
            r is Ok <==> (slot_view(*slot).structure_generation == self.guard_generation()
                && same_contract(slot_view(*slot).contract, self.guard_contract())),
            r matches Err(e) ==> error_view(e) == (ErrorKind::TypeMismatch, msg_guard(self.guard_id(),
                self.guard_generation(), self.guard_contract(), slot_view(*slot).structure_generation,
                slot_view(*slot).contract)),
    {
        let actual_generation = slot.structure_generation();
        let actual = slot.contract();
        if actual_generation != self.structure_generation || !actual.same_as(&self.contract) {
            let mut m = owned("captured parameter ");
            m.append(u64_text(slot.id().get()).as_str());
            m.append(" changed structure: expected generation ");
            m.append(u64_text(self.structure_generation).as_str());
            m.append(" and contract ");
            m.append(self.contract.to_text().as_str());
            m.append(", got generation ");
            m.append(u64_text(actual_generation).as_str());
            m.append(" and contract ");
            m.append(actual.to_text().as_str());
            return Err(TynxError::TypeMismatch(m));
        }
        proof {
            assert(same_contract(contract_view(actual), contract_view(self.contract)));
        }
        Ok(())
    }
}

/// One recorded node.
#[derive(Debug)]
pub enum Node {
    Input(usize),
    Parameter(ParameterGuard),
    Unary { op: UnaryOp, input: ValueId },
    Binary { op: BinaryOp, left: ValueId, right: ValueId },
}

/// Node `i` refers only to earlier values and to recorded inputs.
pub open spec fn node_ok(n: Node, i: int, inputs: int) -> bool {
    match n {
        Node::Input(k) => k < inputs,
        Node::Parameter(_) => true,
        Node::Unary { input, .. } => input.0 < i,
        Node::Binary { left, right, .. } => left.0 < i && right.0 < i,
    }
}

/// Every node refers only to values recorded before it and to recorded inputs.
pub open spec fn nodes_ok(nodes: Seq<Node>, inputs: int) -> bool {
    forall|i: int| 0 <= i < nodes.len() ==> node_ok(#[trigger] nodes[i], i, inputs)
}

/// Builder used by a frontend while executing its first eager call.
#[derive(Debug)]
pub struct GraphBuilder {
    nodes: Vec<Node>,
    input_signatures: Vec<TensorSignature>,
}

pub open spec fn msg_missing(index: int) -> Seq<char> {
    "captured node "@ + decimal(index as nat)
}

impl GraphBuilder {
    #[verifier::type_invariant]
    spec fn inv(self) -> bool {
        nodes_ok(self.nodes@, self.input_signatures@.len() as int)
    }

    /// The recorded nodes.
    pub closed spec fn nodes(self) -> Seq<Node> {
        self.nodes@
    }

    /// The number of recorded inputs.
    pub closed spec fn input_count(self) -> int {
        self.input_signatures@.len() as int
    }

    /// The signatures of the recorded inputs, in the order they were recorded.
    pub closed spec fn signatures(self) -> Seq<SignatureView> {
        self.input_signatures@.map_values(|s: TensorSignature| signature_view(s))
    }

    /// Create an empty graph builder.
    pub fn new() -> (r: Self)
        ensures
            r.nodes().len() == 0,
            r.input_count() == 0,
            r.signatures() == Seq::<SignatureView>::empty(),
    {
        proof {
            assert(Seq::<TensorSignature>::empty().map_values(|s: TensorSignature| signature_view(s)) =~= Seq::<SignatureView>::empty());
        }
        GraphBuilder { nodes: Vec::new(), input_signatures: Vec::new() }
    }

    fn push(&mut self, node: Node) -> (id: ValueId)
        requires
            node_ok(node, old(self).nodes().len() as int, old(self).input_count()),
        ensures
            id.0 == old(self).nodes().len(),
            final(self).nodes() == old(self).nodes().push(node),
            final(self).input_count() == old(self).input_count(),
            final(self).signatures() == old(self).signatures(),
    {
        proof {
            use_type_invariant(&*self);
        }
        let id = ValueId(self.nodes.len());
        let mut nodes: Vec<Node> = Vec::new();
        std::mem::swap(&mut nodes, &mut self.nodes);
        let ghost before = nodes@;
        nodes.push(node);
        proof {
            assert forall|i: int| 0 <= i < nodes@.len() implies node_ok(#[trigger] nodes@[i], i, self.input_signatures@.len() as int) by {
                if i < before.len() {
                    assert(nodes@[i] == before[i]);
                }
            }
        }
        self.nodes = nodes;
        id
    }

    /// Record one exact-signature runtime input.
    pub fn input(&mut self, tensor: &TensorInfo) -> (id: ValueId)
        ensures
            id.0 == old(self).nodes().len(),
            final(self).nodes() == old(self).nodes().push(Node::Input(old(self).input_count() as usize)),
            final(self).input_count() == old(self).input_count() + 1,
            final(self).signatures() == old(self).signatures().push(signature_of(*tensor)),
    {
        proof {
            use_type_invariant(&*self);
        }
        let k = self.input_signatures.len();
        let mut nodes: Vec<Node> = Vec::new();
        std::mem::swap(&mut nodes, &mut self.nodes);
        let mut sigs: Vec<TensorSignature> = Vec::new();
        std::mem::swap(&mut sigs, &mut self.input_signatures);
        let ghost before = nodes@;
        sigs.push(TensorSignature::from_tensor(tensor));
        let id = ValueId(nodes.len());
        nodes.push(Node::Input(k));
        proof {
            assert forall|i: int| 0 <= i < nodes@.len() implies node_ok(#[trigger] nodes@[i], i, sigs@.len() as int) by {
                if i < before.len() {
                    assert(nodes@[i] == before[i]);
                    assert(node_ok(before[i], i, k as int));
                }
            }
        }
        proof {
            assert(sigs@.map_values(|s: TensorSignature| signature_view(s))
                =~= old(self).signatures().push(signature_of(*tensor)));
        }
        self.input_signatures = sigs;
        self.nodes = nodes;
        id
    }

    /// Record a read from a stable parameter slot, with its current structure.
    pub fn parameter(&mut self, slot: &ParameterSlot) -> (id: ValueId)
        ensures
            id.0 == old(self).nodes().len(),
            final(self).nodes().len() == old(self).nodes().len() + 1,
            forall|i: int| 0 <= i < old(self).nodes().len() ==> #[trigger] final(self).nodes()[i] == old(self).nodes()[i],
            final(self).nodes().last() matches Node::Parameter(g) && g.guard_id() == slot_view(*slot).id
                && g.guard_generation() == slot_view(*slot).structure_generation
                && g.guard_contract() == slot_view(*slot).contract,
            final(self).input_count() == old(self).input_count(),
            final(self).signatures() == old(self).signatures(),
    {
        let guard = ParameterGuard {
            id: slot.id(),
            contract: slot.contract(),
            structure_generation: slot.structure_generation(),
        };
        self.push(Node::Parameter(guard))
    }

    fn require_value(&self, value: ValueId) -> (r: Result<(), TynxError>)
        ensures
            r is Ok <==> value.0 < self.nodes().len(),
            r matches Err(e) ==> error_view(e) == (ErrorKind::MissingValue, msg_missing(value.0 as int)),
    {
        if value.index() >= self.nodes.len() {
            let mut m = owned("captured node ");
            m.append(usize_text(value.index()).as_str());
            return Err(TynxError::MissingValue(m));
        }
        Ok(())
    }

    /// Record a unary operation on an already recorded value.
    pub fn unary(&mut self, op: UnaryOp, input: ValueId) -> (r: Result<ValueId, TynxError>)
        ensures
            input.0 < old(self).nodes().len() ==> (r matches Ok(id) && id.0 == old(self).nodes().len()
                && final(self).nodes() == old(self).nodes().push(Node::Unary { op, input })),
            input.0 >= old(self).nodes().len() ==> (r matches Err(e)
                && error_view(e) == (ErrorKind::MissingValue, msg_missing(input.0 as int))
                && final(self).nodes() == old(self).nodes()),
            final(self).input_count() == old(self).input_count(),
    {
        match self.require_value(input) {
            Err(e) => {
                return Err(e);
            },
            Ok(()) => {},
        }
        Ok(self.push(Node::Unary { op, input }))
    }

    /// Record a binary operation on already recorded values.
    pub fn binary(&mut self, op: BinaryOp, left: ValueId, right: ValueId) -> (r: Result<ValueId, TynxError>)
        ensures
            left.0 < old(self).nodes().len() && right.0 < old(self).nodes().len() ==> (r matches Ok(id)
                && id.0 == old(self).nodes().len()
                && final(self).nodes() == old(self).nodes().push(Node::Binary { op, left, right })),
            left.0 >= old(self).nodes().len() ==> (r matches Err(e)
                && error_view(e) == (ErrorKind::MissingValue, msg_missing(left.0 as int))
                && final(self).nodes() == old(self).nodes()),
            left.0 < old(self).nodes().len() && right.0 >= old(self).nodes().len() ==> (r matches Err(e)
                && error_view(e) == (ErrorKind::MissingValue, msg_missing(right.0 as int))
                && final(self).nodes() == old(self).nodes()),
            final(self).input_count() == old(self).input_count(),
    {
        match self.require_value(left) {
            Err(e) => {
                return Err(e);
            },
            Ok(()) => {},
        }
        match self.require_value(right) {
            Err(e) => {
                return Err(e);
            },
            Ok(()) => {},
        }
        Ok(self.push(Node::Binary { op, left, right }))
    }

    /// Finish the graph with one or more output values, each already recorded.
    pub fn finish(self, outputs: Vec<ValueId>) -> (r: Result<Graph, TynxError>)
        ensures
            outputs@.len() == 0 ==> (r matches Err(e)
                && error_view(e) == (ErrorKind::TypeMismatch, "a captured graph must have at least one output"@)),
            outputs@.len() > 0 && (forall|i: int| 0 <= i < outputs@.len() ==> (#[trigger] outputs@[i]).0 < self.nodes().len())
                ==> (r matches Ok(g) && g.nodes() == self.nodes() && g.outputs() == outputs@
                    && g.input_count() == self.input_count() && g.signatures() == self.signatures()
                    && nodes_ok(g.nodes(), g.input_count())),
            outputs@.len() > 0 && (exists|i: int| 0 <= i < outputs@.len() && (#[trigger] outputs@[i]).0 >= self.nodes().len())
                ==> (r matches Err(e) && exists|i: int| 0 <= i < outputs@.len() && (#[trigger] outputs@[i]).0 >= self.nodes().len()
                    && (forall|k: int| 0 <= k < i ==> (#[trigger] outputs@[k]).0 < self.nodes().len())
                    && error_view(e) == (ErrorKind::MissingValue, msg_missing(outputs@[i].0 as int))),
    {
        proof {
            use_type_invariant(&self);
        }
        if outputs.len() == 0 {
            return Err(TynxError::TypeMismatch(owned("a captured graph must have at least one output")));
        }
        let mut i: usize = 0;
        while i < outputs.len()
            invariant
                i <= outputs@.len(),
                forall|k: int| 0 <= k < i ==> (#[trigger] outputs@[k]).0 < self.nodes().len(),
            decreases outputs.len() - i,
        {
            match self.require_value(outputs[i]) {
                Err(e) => {
                    return Err(e);
                },
                Ok(()) => {},
            }
            i = i + 1;
        }
        let GraphBuilder { nodes, input_signatures } = self;
        Graph { nodes, input_signatures, outputs }.checked()
    }
}

/// An immutable captured graph.
#[derive(Debug)]
pub struct Graph {
    nodes: Vec<Node>,
    input_signatures: Vec<TensorSignature>,
    outputs: Vec<ValueId>,
}

/// The identities of the parameter nodes before `n`, each once, in first-use order.
pub open spec fn first_use_ids(nodes: Seq<Node>, n: int) -> Seq<u64>
    decreases n,
{
    if n <= 0 {
        Seq::empty()
    } else {
        let prev = first_use_ids(nodes, n - 1);
        match nodes[n - 1] {
            Node::Parameter(g) => if prev.contains(g.guard_id()) {
                prev
            } else {
                prev.push(g.guard_id())
            },
            _ => prev,
        }
    }
}

pub open spec fn msg_input_count(expected: int, actual: int) -> Seq<char> {
    "captured graph expected "@ + decimal(expected as nat) + " inputs, got "@ + decimal(actual as nat)
}

impl Graph {
    #[verifier::type_invariant]
    spec fn inv(self) -> bool {
        &&& nodes_ok(self.nodes@, self.input_signatures@.len() as int)
        &&& self.outputs@.len() > 0
        &&& forall|i: int| 0 <= i < self.outputs@.len() ==> (#[trigger] self.outputs@[i]).0 < self.nodes@.len()
    }

    fn checked(self) -> (r: Result<Graph, TynxError>)
        requires
            nodes_ok(self.nodes@, self.input_signatures@.len() as int),
            self.outputs@.len() > 0,
            forall|i: int| 0 <= i < self.outputs@.len() ==> (#[trigger] self.outputs@[i]).0 < self.nodes@.len(),
        ensures
            r matches Ok(g) && g.nodes() == self.nodes@ && g.outputs() == self.outputs@
                && g.input_count() == self.input_signatures@.len()
                && g.signatures() == self.input_signatures@.map_values(|s: TensorSignature| signature_view(s)),
    {
        Ok(self)
    }

    /// The recorded nodes.
    pub closed spec fn nodes(self) -> Seq<Node> {
        self.nodes@
    }

    /// The output values.
    pub closed spec fn outputs(self) -> Seq<ValueId> {
        self.outputs@
    }

    /// The number of inputs.
    pub closed spec fn input_count(self) -> int {
        self.input_signatures@.len() as int
    }

    /// The input signatures as plain values.
    pub closed spec fn signatures(self) -> Seq<SignatureView> {
        self.input_signatures@.map_values(|s: TensorSignature| signature_view(s))
    }

    /// Return exact input signatures in call order.
    pub fn input_signatures(&self) -> (r: &[TensorSignature])
        ensures
            r@.map_values(|s: TensorSignature| signature_view(s)) == self.signatures(),
            r@.len() == self.input_count(),
            self.signatures().len() == self.input_count(),
    {
        self.input_signatures.as_slice()
    }

    /// Return the number of recorded operation and source nodes.
    pub fn node_count(&self) -> (r: usize)
        ensures
            r == self.nodes().len(),
            nodes_ok(self.nodes(), self.input_count()),
            self.outputs().len() > 0,
            forall|i: int| 0 <= i < self.outputs().len() ==> (#[trigger] self.outputs()[i]).0 < self.nodes().len(),
    {
        proof {
            use_type_invariant(self);
        }
        self.nodes.len()
    }

    /// Return the parameter slots this graph reads, each once, in first-use order.
    pub fn parameters(&self) -> (r: Vec<ParamId>)
        ensures
            r@.map_values(|p: ParamId| p.0) == first_use_ids(self.nodes(), self.nodes().len() as int),
    {
        let mut out: Vec<ParamId> = Vec::new();
        let mut i: usize = 0;
        while i < self.nodes.len()
            invariant
                i <= self.nodes@.len(),
                out@.map_values(|p: ParamId| p.0) == first_use_ids(self.nodes@, i as int),
            decreases self.nodes.len() - i,
        {
            let ghost prev = out@.map_values(|p: ParamId| p.0);
            match &self.nodes[i] {
                Node::Parameter(g) => {
                    let mut seen = false;
                    let mut k: usize = 0;
                    while k < out.len()
                        invariant
                            k <= out@.len(),
                            prev == out@.map_values(|p: ParamId| p.0),
                            seen == prev.take(k as int).contains(g.id.0),
                        decreases out.len() - k,
                    {
                        if out[k].0 == g.id.0 {
                            seen = true;
                        }
                        proof {
                            let t = prev.take(k as int);
                            let t1 = prev.take(k + 1);
                            assert(t1 =~= t.push(prev[k as int]));
                            assert(prev[k as int] == out@[k as int].0);
                            let x = g.id.0;
                            if t.contains(x) {
                                let w = choose|w: int| 0 <= w < t.len() && t[w] == x;
                                assert(t1[w] == x);
                            }
                            if t1.contains(x) && !t.contains(x) {
                                let w = choose|w: int| 0 <= w < t1.len() && t1[w] == x;
                                if w < k {
                                    assert(t[w] == x);
                                }
                            }
                            if prev[k as int] == x {
                                assert(t1[k as int] == x);
                            }
                        }
                        k = k + 1;
                    }
                    assert(prev.take(out@.len() as int) =~= prev);
                    if !seen {
                        out.push(g.id);
                        assert(out@.map_values(|p: ParamId| p.0) =~= prev.push(g.id.0));
                    }
                },
                _ => {},
            }
            i = i + 1;
        }
        out
    }

    /// Check replay inputs: one per captured input, each with its captured signature.
    pub fn validate_inputs(&self, inputs: &[TensorInfo]) -> (r: Result<(), TynxError>)
        ensures
            r is Ok <==> (inputs@.len() == self.input_count()
                && forall|i: int| 0 <= i < inputs@.len() ==> self.signatures()[i] == signature_of(#[trigger] inputs@[i])),
            inputs@.len() != self.input_count() ==> (r matches Err(e)
                && error_view(e) == (ErrorKind::TypeMismatch, msg_input_count(self.input_count(), inputs@.len() as int))),
    {
        if inputs.len() != self.input_signatures.len() {
            let mut m = owned("captured graph expected ");
            m.append(usize_text(self.input_signatures.len()).as_str());
            m.append(" inputs, got ");
            m.append(usize_text(inputs.len()).as_str());
            return Err(TynxError::TypeMismatch(m));
        }
        let mut i: usize = 0;
        while i < inputs.len()
            invariant
                i <= inputs@.len(),
                inputs@.len() == self.input_signatures@.len(),
                forall|k: int| 0 <= k < i ==> self.signatures()[k] == signature_of(#[trigger] inputs@[k]),
            decreases inputs.len() - i,
        {
            let mut label = owned("input ");
            label.append(usize_text(i).as_str());
            match self.input_signatures[i].validate(&inputs[i], label.as_str()) {
                Err(e) => {
                    return Err(e);
                },
                Ok(()) => {},
            }
            i = i + 1;
        }
        Ok(())
    }

    /// Check that a replay may run: the inputs match the captured signatures, then
    /// every parameter node, in recorded order, finds its slot among `slots` with
    /// the structure it had when captured.
    pub fn validate_replay(&self, inputs: &[TensorInfo], slots: &[ParameterSlot]) -> (r: Result<(), TynxError>)
        ensures
            r is Ok <==> ((inputs@.len() == self.input_count()
                && forall|i: int| 0 <= i < inputs@.len() ==> self.signatures()[i] == signature_of(#[trigger] inputs@[i]))
                && guards_outcome(self.nodes(), slot_views(slots@), self.nodes().len() as int) is Ok),
            inputs@.len() != self.input_count() ==> (r matches Err(e)
                && error_view(e) == (ErrorKind::TypeMismatch, msg_input_count(self.input_count(), inputs@.len() as int))),
            (inputs@.len() == self.input_count()
                && forall|i: int| 0 <= i < inputs@.len() ==> self.signatures()[i] == signature_of(#[trigger] inputs@[i]))
                ==> match guards_outcome(self.nodes(), slot_views(slots@), self.nodes().len() as int) {
                    Ok(()) => r is Ok,
                    Err(e) => r matches Err(x) && error_view(x) == e,
                },
    {
        match self.validate_inputs(inputs) {
            Err(e) => {
                return Err(e);
            },
            Ok(()) => {},
        }
        let ghost sv = slot_views(slots@);
        let mut i: usize = 0;
        while i < self.nodes.len()
            invariant
                i <= self.nodes@.len(),
                sv == slot_views(slots@),
                guards_outcome(self.nodes@, sv, i as int) is Ok,
                inputs@.len() == self.input_count(),
            decreases self.nodes.len() - i,
        {
            match &self.nodes[i] {
                Node::Parameter(g) => {
                    match find_slot(slots, g.id) {
                        None => {
                            let mut m = owned("captured parameter ");
                            m.append(u64_text(g.id.0).as_str());
                            m.append(" has no slot to read");
                            proof {
                                lemma_guards_err(self.nodes@, sv, i as int + 1, self.nodes@.len() as int);
                            }
                            return Err(TynxError::MissingValue(m));
                        },
                        Some(k) => {
                            match g.validate(&slots[k]) {
                                Err(e) => {
                                    proof {
                                        lemma_guards_err(self.nodes@, sv, i as int + 1, self.nodes@.len() as int);
                                    }
                                    return Err(e);
                                },
                                Ok(()) => {},
                            }
                        },
                    }
                },
                _ => {},
            }
            i = i + 1;
        }
        Ok(())
    }
}


/// The slots as plain values.
pub open spec fn slot_views(slots: Seq<ParameterSlot>) -> Seq<SlotView> {
    slots.map_values(|s: ParameterSlot| slot_view(s))
}

/// The position of the first slot with identity `id`.
pub open spec fn slot_position(slots: Seq<SlotView>, id: u64, n: int) -> Option<int>
    decreases n,
{
    if n <= 0 {
        None
    } else {
        match slot_position(slots, id, n - 1) {
            Some(k) => Some(k),
            None => if slots[n - 1].id == id { Some(n - 1) } else { None },
        }
    }
}

/// What checking the parameter nodes before `n` against the given slots gives: the
/// first node whose slot is absent or has another structure than it had when captured.
pub open spec fn guards_outcome(nodes: Seq<Node>, slots: Seq<SlotView>, n: int) -> Result<(), (ErrorKind, Seq<char>)>
    decreases n,
{
    if n <= 0 {
        Ok(())
    } else {
        match guards_outcome(nodes, slots, n - 1) {
            Err(e) => Err(e),
            Ok(()) => match nodes[n - 1] {
                Node::Parameter(g) => match slot_position(slots, g.guard_id(), slots.len() as int) {
                    None => Err((ErrorKind::MissingValue, "captured parameter "@ + decimal(g.guard_id() as nat)
                        + " has no slot to read"@)),
                    Some(k) => if slots[k].structure_generation == g.guard_generation()
                        && same_contract(slots[k].contract, g.guard_contract()) {
                        Ok(())
                    } else {
                        Err((ErrorKind::TypeMismatch, msg_guard(g.guard_id(), g.guard_generation(), g.guard_contract(),
                            slots[k].structure_generation, slots[k].contract)))
                    },
                },
                _ => Ok(()),
            },
        }
    }
}

proof fn lemma_guards_err(nodes: Seq<Node>, slots: Seq<SlotView>, m: int, n: int)
    requires
        1 <= m <= n,
        guards_outcome(nodes, slots, m) is Err,
    ensures
        guards_outcome(nodes, slots, n) == guards_outcome(nodes, slots, m),
    decreases n - m,
{
    if m < n {
        lemma_guards_err(nodes, slots, m, n - 1);
    }
}

proof fn lemma_slot_position_stable(slots: Seq<SlotView>, id: u64, m: int, n: int)
    requires
        1 <= m <= n,
        slot_position(slots, id, m) is Some,
    ensures
        slot_position(slots, id, n) == slot_position(slots, id, m),
    decreases n - m,
{
    if m < n {
        lemma_slot_position_stable(slots, id, m, n - 1);
    }
}

fn find_slot(slots: &[ParameterSlot], id: ParamId) -> (r: Option<usize>)
    ensures
        match r {
            Some(k) => k < slots@.len() && slot_position(slot_views(slots@), id.0, slots@.len() as int) == Some(k as int)
                && slot_view(slots@[k as int]).id == id.0,
            None => slot_position(slot_views(slots@), id.0, slots@.len() as int) is None,
        },
{
    let ghost sv = slot_views(slots@);
    let mut i: usize = 0;
    while i < slots.len()
        invariant
            i <= slots@.len(),
            sv == slot_views(slots@),
            slot_position(sv, id.0, i as int) is None,
        decreases slots.len() - i,
    {
        if slots[i].id().get() == id.0 {
            proof {
                lemma_slot_position_stable(sv, id.0, i as int + 1, slots@.len() as int);
            }
            return Some(i);
        }
        i = i + 1;
    }
    None
}


proof fn lemma_slot_position_bounds(slots: Seq<SlotView>, id: u64, n: int)
    ensures
        slot_position(slots, id, n) matches Some(p) ==> 0 <= p < n && slots[p].id == id,
    decreases n,
{
    if n > 0 {
        lemma_slot_position_bounds(slots, id, n - 1);
    }
}

proof fn lemma_slot_position_same_ids(slots: Seq<SlotView>, k: int, updated: SlotView, id: u64, n: int)
    requires
        0 <= k < slots.len(),
        updated.id == slots[k].id,
        n <= slots.len(),
    ensures
        slot_position(slots.update(k, updated), id, n) == slot_position(slots, id, n),
    decreases n,
{
    if n > 0 {
        lemma_slot_position_same_ids(slots, k, updated, id, n - 1);
    }
}

/// An ordinary value update of a slot, which keeps its identity, structural
/// generation and contract, leaves every replay check as it was.
pub proof fn law_value_updates_keep_replay(nodes: Seq<Node>, slots: Seq<SlotView>, k: int, updated: SlotView, n: int)
    requires
        0 <= k < slots.len(),
        updated.id == slots[k].id,
        updated.structure_generation == slots[k].structure_generation,
        updated.contract == slots[k].contract,
        n <= nodes.len(),
    ensures
        guards_outcome(nodes, slots.update(k, updated), n) == guards_outcome(nodes, slots, n),
    decreases n,
{
    if n > 0 {
        law_value_updates_keep_replay(nodes, slots, k, updated, n - 1);
        match nodes[n - 1] {
            Node::Parameter(g) => {
                lemma_slot_position_same_ids(slots, k, updated, g.guard_id(), slots.len() as int);
                lemma_slot_position_bounds(slots, g.guard_id(), slots.len() as int);
                let changed = slots.update(k, updated);
                if let Some(p) = slot_position(slots, g.guard_id(), slots.len() as int) {
                    assert(changed[p].structure_generation == slots[p].structure_generation);
                    assert(changed[p].contract == slots[p].contract);
                }
            },
            _ => {},
        }
    }
}

/// A structural change of a slot that a graph reads makes a replay check that
/// passed before fail: the slot is the one the check finds for a parameter node
/// the graph recorded, and its structural generation moved.
pub proof fn law_structural_change_invalidates(
    nodes: Seq<Node>,
    slots: Seq<SlotView>,
    k: int,
    updated: SlotView,
    m: int,
    n: int,
)
    requires
        0 <= k < slots.len(),
        updated.id == slots[k].id,
        updated.structure_generation != slots[k].structure_generation,
        0 <= m < n <= nodes.len(),
        nodes[m] matches Node::Parameter(g) && g.guard_id() == slots[k].id,
        slot_position(slots, slots[k].id, slots.len() as int) == Some(k),
        guards_outcome(nodes, slots, n) is Ok,
    ensures
        guards_outcome(nodes, slots.update(k, updated), n) is Err,
{
    let changed = slots.update(k, updated);
    if guards_outcome(nodes, slots, m + 1) is Err {
        lemma_guards_err(nodes, slots, m + 1, n);
    }
    lemma_slot_position_same_ids(slots, k, updated, slots[k].id, slots.len() as int);
    if guards_outcome(nodes, changed, m) is Err {
        lemma_guards_err(nodes, changed, m, n);
    } else {
        assert(guards_outcome(nodes, changed, m + 1) is Err);
        lemma_guards_err(nodes, changed, m + 1, n);
    }
}

} // verus!
