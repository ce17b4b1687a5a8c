//! Stable parameter identities and the versioned state of a parameter slot:
//! its structural contract, value and structure generations, the generation
//! of its autodiff leaf and whether a gradient is held.

use vstd::prelude::*;
use crate::error::{error_view, ErrorKind, TynxError};
use crate::graph::{dtype_text, DType};
use crate::text::{decimal, owned, u64_text, usize_list_string, usize_list_text};

verus! {

/// Process-local identity of a parameter slot.
#[derive(Debug, Clone, Copy, PartialEq, Eq, Hash, Structural)]
pub struct ParamId(pub u64);

impl ParamId {
    /// Return the numeric process-local identity.
    pub fn get(self) -> (r: u64)
        ensures
            r == self.0,
    {
        self.0
    }
}

/// The counter that hands out parameter identities, starting at one. Identities
/// are distinct only among slots created from one counter: every slot that can
/// meet another in a store, graph or optimizer must come from the same source.
#[derive(Debug)]
pub struct ParamIdSource {
    next: u64,
}

impl ParamIdSource {
    /// A fresh counter whose first identity is one.
    pub fn new() -> (r: Self)
        ensures
            r.peek() == 1,
    {
        ParamIdSource { next: 1 }
    }

    /// The identity the next call hands out.
    pub closed spec fn peek(self) -> u64 {
        self.next
    }
}

/// Hand out the next identity; the counter wraps around after `u64::MAX`.
pub fn next_param_id(source: &mut ParamIdSource) -> (r: ParamId)
    ensures
        r.0 == old(source).peek(),
        final(source).peek() == advanced(old(source).peek(), 1),
{
    let id = source.next;
    source.next = source.next.wrapping_add(1);
    ParamId(id)
}

/// A device as plain values: its printed name and whether it records autodiff tapes.
#[derive(Debug, Clone)]
pub struct DeviceInfo {
    pub name: String,
    pub autodiff: bool,
}

/// What the slot logic reads of a tensor: its shape, element type and device.
#[derive(Debug, Clone)]
pub struct TensorInfo {
    pub shape: Vec<usize>,
    pub dtype: DType,
    pub device: DeviceInfo,
}

/// The structural contract used to validate updates and guard captured graphs.
#[derive(Debug, Clone)]
pub struct ParameterContract {
    shape: Vec<usize>,
    dtype: DType,
    device: DeviceInfo,
    trainable: bool,
}

/// A contract as plain values.
pub struct ContractView {
    pub shape: Seq<usize>,
    pub dtype: DType,
    pub device: Seq<char>,
    pub autodiff: bool,
    pub trainable: bool,
}

pub closed spec fn contract_view(c: ParameterContract) -> ContractView {
    ContractView { shape: c.shape@, dtype: c.dtype, device: c.device.name@, autodiff: c.device.autodiff, trainable: c.trainable }
}

/// The contract of a tensor with a given trainability.
pub open spec fn contract_of(t: TensorInfo, trainable: bool) -> ContractView {
    ContractView { shape: t.shape@, dtype: t.dtype, device: t.device.name@, autodiff: t.device.autodiff, trainable }
}

/// Contracts agree on shape, element type, device, autodiff capability and trainability.
pub open spec fn same_contract(a: ContractView, b: ContractView) -> bool {
    a.shape == b.shape && a.dtype == b.dtype && a.device == b.device && a.autodiff == b.autodiff
        && a.trainable == b.trainable
}

/// The printed form of a contract.
pub open spec fn contract_text(c: ContractView) -> Seq<char> {
    "ParameterContract { shape: "@ + usize_list_text(c.shape) + ", dtype: "@ + dtype_text(c.dtype) + ", device: "@ + c.device
        + ", trainable: "@ + (if c.trainable { "true"@ } else { "false"@ }) + " }"@
}

fn copy_sizes(v: &Vec<usize>) -> (r: Vec<usize>)
    ensures
        r@ == v@,
{
    let mut out: Vec<usize> = Vec::new();
    let mut i: usize = 0;
    while i < v.len()
        invariant
            i <= v@.len(),
            out@ == v@.take(i as int),
        decreases v.len() - i,
    {
        out.push(v[i]);
        assert(out@ =~= v@.take(i + 1));
        i = i + 1;
    }
    assert(out@ =~= v@);
    out
}

fn copy_device(d: &DeviceInfo) -> (r: DeviceInfo)
    ensures
        r.name@ == d.name@,
        r.autodiff == d.autodiff,
{
    DeviceInfo { name: d.name.clone(), autodiff: d.autodiff }
}

fn sizes_eq(a: &Vec<usize>, b: &Vec<usize>) -> (r: bool)
    ensures
        r == (a@ == b@),
{
    if a.len() != b.len() {
        return false;
    }
    let mut i: usize = 0;
    while i < a.len()
        invariant
            i <= a@.len(),
            a@.len() == b@.len(),
            forall|k: int| 0 <= k < i ==> a@[k] == b@[k],
        decreases a.len() - i,
    {
        if a[i] != b[i] {
            return false;
        }
        i = i + 1;
    }
    assert(a@ =~= b@);
    true
}

impl ParameterContract {
    /// Return the parameter shape.
    pub fn shape(&self) -> (r: &[usize])
        ensures
            r@ == contract_view(*self).shape,
    {
        self.shape.as_slice()
    }

    /// Return the parameter element type.
    pub fn dtype(&self) -> (r: DType)
        ensures
            r == contract_view(*self).dtype,
    {
        self.dtype
    }

    /// Return the parameter device.
    pub fn device(&self) -> (r: &DeviceInfo)
        ensures
            r.name@ == contract_view(*self).device,
            r.autodiff == contract_view(*self).autodiff,
    {
        &self.device
    }

    /// Return whether reads produce autodiff leaves.
    pub fn trainable(&self) -> (r: bool)
        ensures
            r == contract_view(*self).trainable,
    {
        self.trainable
    }

    /// Whether two contracts agree in every structural respect.
    pub fn same_as(&self, other: &ParameterContract) -> (r: bool)
        ensures
            r == same_contract(contract_view(*self), contract_view(*other)),
    {
        sizes_eq(&self.shape, &other.shape) && self.dtype == other.dtype
            && crate::text::str_eq(self.device.name.as_str(), other.device.name.as_str())
            && self.device.autodiff == other.device.autodiff && self.trainable == other.trainable
    }

    /// A copy of this contract.
    pub fn duplicate(&self) -> (r: ParameterContract)
        ensures
            contract_view(r) == contract_view(*self),
    {
        ParameterContract {
            shape: copy_sizes(&self.shape),
            dtype: self.dtype,
            device: copy_device(&self.device),
            trainable: self.trainable,
        }
    }

    /// The printed form of the contract.
    pub fn to_text(&self) -> (r: String)
        ensures
            r@ == contract_text(contract_view(*self)),
    {
        let mut s = owned("ParameterContract { shape: ");
        s.append(usize_list_string(self.shape.as_slice()).as_str());
        s.append(", dtype: ");
        s.append(self.dtype.text());
        s.append(", device: ");
        s.append(self.device.name.as_str());
        s.append(", trainable: ");
        s.append(if self.trainable { "true" } else { "false" });
        s.append(" }");
        s
    }
}

/// The contract of a tensor with a given trainability.
pub fn contract_for(value: &TensorInfo, trainable: bool) -> (r: ParameterContract)
    ensures
        contract_view(r) == contract_of(*value, trainable),
{
    ParameterContract { shape: copy_sizes(&value.shape), dtype: value.dtype, device: copy_device(&value.device), trainable }
}

/// Why a contract cannot be trainable, if it cannot: trainable parameters must be
/// f32 on an autodiff-enabled device.
pub open spec fn trainability_problem(c: ContractView) -> Option<Seq<char>> {
    if !c.trainable {
        None
    } else if c.dtype != DType::F32 {
        Some("trainable parameters must use f32 in v1, got "@ + dtype_text(c.dtype))
    } else if !c.autodiff {
        Some("trainable parameters require an autodiff-enabled device"@)
    } else {
        None
    }
}

fn validate_trainability(c: &ParameterContract) -> (r: Result<(), TynxError>)
    ensures
        match trainability_problem(contract_view(*c)) {
            None => r is Ok,
            Some(m) => r matches Err(e) && error_view(e) == (ErrorKind::TypeMismatch, m),
        },
{
    if !c.trainable {
        return Ok(());
    }
    if c.dtype != DType::F32 {
        let mut m = owned("trainable parameters must use f32 in v1, got ");
        m.append(c.dtype.text());
        return Err(TynxError::TypeMismatch(m));
    }
    if !c.device.autodiff {
        return Err(TynxError::TypeMismatch(owned("trainable parameters require an autodiff-enabled device")));
    }
    Ok(())
}

pub open spec fn msg_generation_exhausted(kind: Seq<char>) -> Seq<char> {
    "parameter "@ + kind + " generation exhausted"@
}

/// The generation after `current`, or an error once it cannot advance.
fn next_generation(current: u64, kind: &str) -> (r: Result<u64, TynxError>)
    ensures
        match r {
            Ok(n) => current < u64::MAX && n == current + 1,
            Err(e) => current == u64::MAX && error_view(e) == (ErrorKind::TypeMismatch, msg_generation_exhausted(kind@)),
        },
{
    match current.checked_add(1) {
        Some(n) => Ok(n),
        None => {
            let mut m = owned("parameter ");
            m.append(kind);
            m.append(" generation exhausted");
            Err(TynxError::TypeMismatch(m))
        },
    }
}

pub open spec fn msg_contract_mismatch(current: ContractView, next: ContractView) -> Seq<char> {
    "parameter value update changed its structural contract from "@ + contract_text(current) + " to "@ + contract_text(next)
        + "; use rebind for an explicit structural change"@
}

/// What a read of a slot hands out.
#[derive(Debug, Clone, Copy, PartialEq, Eq, Structural)]
pub enum ReadKind {
    /// The current value, off any tape: the slot is frozen.
    OffTape,
    /// The leaf already created for the current value generation.
    ReuseLeaf,
    /// A new leaf, now recorded for the current value generation.
    NewLeaf,
}

/// The versioned state of one parameter slot. A slot value is the state as it
/// stands; a store holds the one shared state of every slot registered in it, and
/// the slot's identity is the handle through which each of its names reads and
/// writes that state (`ParameterStore::replace_value`, `read`, `refresh`).
#[derive(Debug, Clone)]
pub struct ParameterSlot {
    id: ParamId,
    name: Option<String>,
    contract: ParameterContract,
    value_generation: u64,
    structure_generation: u64,
    leaf: Option<u64>,
    has_grad: bool,
}

/// A slot as plain values.
pub struct SlotView {
    pub id: u64,
    pub name: Option<Seq<char>>,
    pub contract: ContractView,
    pub value_generation: u64,
    pub structure_generation: u64,
    pub leaf: Option<u64>,
    pub has_grad: bool,
}

pub closed spec fn slot_view(s: ParameterSlot) -> SlotView {
    SlotView {
        id: s.id.0,
        name: match s.name {
            Some(n) => Some(n@),
            None => None,
        },
        contract: contract_view(s.contract),
        value_generation: s.value_generation,
        structure_generation: s.structure_generation,
        leaf: s.leaf,
        has_grad: s.has_grad,
    }
}

pub open spec fn opt_text(n: Option<String>) -> Option<Seq<char>> {
    match n {
        Some(t) => Some(t@),
        None => None,
    }
}

/// A slot just created: both generations at zero, no leaf and no gradient.
pub open spec fn fresh_slot(v: SlotView, id: u64, name: Option<Seq<char>>, contract: ContractView) -> bool {
    &&& v.id == id
    &&& v.name == name
    &&& v.contract == contract
    &&& v.value_generation == 0
    &&& v.structure_generation == 0
    &&& v.leaf is None
    &&& !v.has_grad
}

/// What a read hands out and the slot state after it.
pub open spec fn read_step(s: SlotView) -> (ReadKind, SlotView) {
    if !s.contract.trainable {
        (ReadKind::OffTape, s)
    } else if s.leaf == Some(s.value_generation) {
        (ReadKind::ReuseLeaf, s)
    } else {
        (ReadKind::NewLeaf, SlotView { leaf: Some(s.value_generation), ..s })
    }
}

/// Every read of one value generation after the first gets the same leaf: a
/// second read never creates a new one.
pub proof fn law_one_leaf_per_generation(s: SlotView)
    ensures
        read_step(read_step(s).1).0 != ReadKind::NewLeaf,
        read_step(read_step(s).1).1 == read_step(s).1,
{
}

/// The identity a source hands out `k` calls after one whose next identity is `start`.
pub open spec fn advanced(start: u64, k: nat) -> u64 {
    ((start + k) % 0x1_0000_0000_0000_0000int) as u64
}

/// Identities handed out by one source are distinct until the counter has gone
/// all the way round.
pub proof fn law_ids_distinct(start: u64, i: nat, j: nat)
    requires
        i < j < 0x1_0000_0000_0000_0000int,
    ensures
        advanced(start, i) != advanced(start, j),
{
    let m = 0x1_0000_0000_0000_0000int;
    let a = start + i;
    let b = start + j;
    assert(a % m != b % m) by (nonlinear_arith)
        requires
            m > 0,
            0 < b - a < m,
            a >= 0,
    {
        assert(a == m * (a / m) + a % m);
        assert(b == m * (b / m) + b % m);
        if a % m == b % m {
            assert(b - a == m * (b / m - a / m));
            if b / m - a / m >= 1 {
                assert(m * (b / m - a / m) >= m);
            } else {
                assert(m * (b / m - a / m) <= 0);
            }
        }
    }
}

impl ParameterSlot {
    /// Create a slot for a tensor value; trainable slots must be f32 on an
    /// autodiff-enabled device. A new slot takes the next identity.
    pub fn new(ids: &mut ParamIdSource, name: Option<String>, value: &TensorInfo, trainable: bool) -> (r: Result<Self, TynxError>)
        ensures
            match trainability_problem(contract_of(*value, trainable)) {
                Some(m) => r matches Err(e) && error_view(e) == (ErrorKind::TypeMismatch, m)
                    && final(ids).peek() == old(ids).peek(),
                None => r matches Ok(s) && fresh_slot(slot_view(s), old(ids).peek(), opt_text(name), contract_of(*value, trainable))
                    && final(ids).peek() == advanced(old(ids).peek(), 1),
            },
    {
        let contract = contract_for(value, trainable);
        match validate_trainability(&contract) {
            Err(e) => {
                return Err(e);
            },
            Ok(()) => {},
        }
        let id = next_param_id(ids);
        Ok(ParameterSlot {
            id,
            name,
            contract,
            value_generation: 0,
            structure_generation: 0,
            leaf: None,
            has_grad: false,
        })
    }

    /// Return this slot's stable process-local identity.
    pub fn id(&self) -> (r: ParamId)
        ensures
            r.0 == slot_view(*self).id,
    {
        self.id
    }

    /// Return the optional state or checkpoint name.
    pub fn name(&self) -> (r: Option<String>)
        ensures
            match r {
                Some(n) => slot_view(*self).name == Some(n@),
                None => slot_view(*self).name is None,
            },
    {
        match &self.name {
            Some(n) => Some(n.clone()),
            None => None,
        }
    }

    /// A copy of this slot's state.
    pub fn duplicate(&self) -> (r: ParameterSlot)
        ensures
            slot_view(r) == slot_view(*self),
    {
        ParameterSlot {
            id: self.id,
            name: match &self.name {
                Some(n) => Some(n.clone()),
                None => None,
            },
            contract: self.contract.duplicate(),
            value_generation: self.value_generation,
            structure_generation: self.structure_generation,
            leaf: self.leaf,
            has_grad: self.has_grad,
        }
    }

    pub(crate) fn set_name(&mut self, name: String)
        ensures
            slot_view(*final(self)) == (SlotView { name: Some(name@), ..slot_view(*old(self)) }),
    {
        self.name = Some(name);
    }

    /// Return the current structural contract.
    pub fn contract(&self) -> (r: ParameterContract)
        ensures
            contract_view(r) == slot_view(*self).contract,
    {
        self.contract.duplicate()
    }

    /// Return the current value generation.
    pub fn value_generation(&self) -> (r: u64)
        ensures
            r == slot_view(*self).value_generation,
    {
        self.value_generation
    }

    /// Return the current structural generation.
    pub fn structure_generation(&self) -> (r: u64)
        ensures
            r == slot_view(*self).structure_generation,
    {
        self.structure_generation
    }

    /// Whether a gradient has been accumulated since it was last cleared.
    pub fn has_grad(&self) -> (r: bool)
        ensures
            r == slot_view(*self).has_grad,
    {
        self.has_grad
    }

    /// Clear the accumulated gradient.
    pub fn zero_grad(&mut self)
        ensures
            slot_view(*final(self)) == (SlotView { has_grad: false, ..slot_view(*old(self)) }),
    {
        self.has_grad = false;
    }

    /// Decide what a forward read hands out: frozen slots give their value off
    /// tape; trainable slots create one leaf per value generation and reuse it.
    pub fn read(&mut self) -> (r: ReadKind)
        ensures
            (r, slot_view(*final(self))) == read_step(slot_view(*old(self))),
    {
        if !self.contract.trainable {
            return ReadKind::OffTape;
        }
        if self.leaf == Some(self.value_generation) {
            return ReadKind::ReuseLeaf;
        }
        self.leaf = Some(self.value_generation);
        ReadKind::NewLeaf
    }

    /// Whether the recorded leaf belongs to the current value generation, so that
    /// gradients reaching it can be accumulated.
    pub fn leaf_is_current(&self) -> (r: bool)
        ensures
            r == (slot_view(*self).leaf == Some(slot_view(*self).value_generation)),
    {
        self.leaf == Some(self.value_generation)
    }

    /// Replace the value after an ordinary optimizer-style update: the structural
    /// contract must stay the same; the value generation advances and the next
    /// read creates a new leaf.
    pub fn replace_value(&mut self, value: &TensorInfo) -> (r: Result<(), TynxError>)
        ensures
            ({
                let s = slot_view(*old(self));
                let next = contract_of(*value, s.contract.trainable);
                if !same_contract(next, s.contract) {
                    r matches Err(e) && error_view(e) == (ErrorKind::TypeMismatch, msg_contract_mismatch(s.contract, next))
                        && slot_view(*final(self)) == s
                } else if s.value_generation == u64::MAX {
                    r matches Err(e) && error_view(e) == (ErrorKind::TypeMismatch, msg_generation_exhausted("value"@))
                        && slot_view(*final(self)) == s
                } else {
                    r is Ok && slot_view(*final(self)) == (SlotView {
                        value_generation: (s.value_generation + 1) as u64,
                        leaf: None,
                        ..s
                    })
                }
            }),
    {
        let next = contract_for(value, self.contract.trainable);
        if !next.same_as(&self.contract) {
            let mut m = owned("parameter value update changed its structural contract from ");
            m.append(self.contract.to_text().as_str());
            m.append(" to ");
            m.append(next.to_text().as_str());
            m.append("; use rebind for an explicit structural change");
            return Err(TynxError::TypeMismatch(m));
        }
        let g = match next_generation(self.value_generation, "value") {
            Err(e) => {
                return Err(e);
            },
            Ok(g) => g,
        };
        self.value_generation = g;
        self.leaf = None;
        Ok(())
    }

    /// Replace the contract and value explicitly, for a change of shape, element
    /// type, device or role. Both generations advance; the leaf and gradient are
    /// dropped. An invalid trainable contract is refused with no change.
    pub fn rebind(&mut self, value: &TensorInfo, trainable: bool) -> (r: Result<(), TynxError>)
        ensures
            ({
                let s = slot_view(*old(self));
                let next = contract_of(*value, trainable);
                match trainability_problem(next) {
                    Some(m) => r matches Err(e) && error_view(e) == (ErrorKind::TypeMismatch, m) && slot_view(*final(self)) == s,
                    None => if s.value_generation == u64::MAX {
                        r matches Err(e) && error_view(e) == (ErrorKind::TypeMismatch, msg_generation_exhausted("value"@))
                            && slot_view(*final(self)) == (SlotView { contract: next, ..s })
                    } else if s.structure_generation == u64::MAX {
                        r matches Err(e) && error_view(e) == (ErrorKind::TypeMismatch, msg_generation_exhausted("structure"@))
                            && slot_view(*final(self)) == (SlotView {
                            contract: next,
                            value_generation: (s.value_generation + 1) as u64,
                            ..s
                        })
                    } else {
                        r is Ok && slot_view(*final(self)) == (SlotView {
                            contract: next,
                            value_generation: (s.value_generation + 1) as u64,
                            structure_generation: (s.structure_generation + 1) as u64,
                            leaf: None,
                            has_grad: false,
                            ..s
                        })
                    },
                }
            }),
    {
        let next = contract_for(value, trainable);
        match validate_trainability(&next) {
            Err(e) => {
                return Err(e);
            },
            Ok(()) => {},
        }
        self.contract = next;
        let vg = match next_generation(self.value_generation, "value") {
            Err(e) => {
                return Err(e);
            },
            Ok(g) => g,
        };
        self.value_generation = vg;
        let sg = match next_generation(self.structure_generation, "structure") {
            Err(e) => {
                return Err(e);
            },
            Ok(g) => g,
        };
        self.structure_generation = sg;
        self.leaf = None;
        self.has_grad = false;
        Ok(())
    }

    /// Freeze or unfreeze the slot, keeping its value. A change of trainability is
    /// structural: both generations advance and the leaf is dropped.
    pub fn set_trainable(&mut self, trainable: bool) -> (r: Result<(), TynxError>)
        ensures
            ({
                let s = slot_view(*old(self));
                let next = ContractView { trainable, ..s.contract };
                if s.contract.trainable == trainable {
                    r is Ok && slot_view(*final(self)) == s
                } else {
                    match trainability_problem(next) {
                        Some(m) => r matches Err(e) && error_view(e) == (ErrorKind::TypeMismatch, m) && slot_view(*final(self)) == s,
                        None => if s.value_generation == u64::MAX {
                            r matches Err(e) && error_view(e) == (ErrorKind::TypeMismatch, msg_generation_exhausted("value"@))
                                && slot_view(*final(self)) == (SlotView { contract: next, ..s })
                        } else if s.structure_generation == u64::MAX {
                            r matches Err(e) && error_view(e) == (ErrorKind::TypeMismatch, msg_generation_exhausted("structure"@))
                                && slot_view(*final(self)) == (SlotView {
                                contract: next,
                                value_generation: (s.value_generation + 1) as u64,
                                ..s
                            })
                        } else {
                            r is Ok && slot_view(*final(self)) == (SlotView {
                                contract: next,
                                value_generation: (s.value_generation + 1) as u64,
                                structure_generation: (s.structure_generation + 1) as u64,
                                leaf: None,
                                ..s
                            })
                        },
                    }
                }
            }),
    {
        if self.contract.trainable == trainable {
            return Ok(());
        }
        let mut next = self.contract.duplicate();
        next.trainable = trainable;
        match validate_trainability(&next) {
            Err(e) => {
                return Err(e);
            },
            Ok(()) => {},
        }
        self.contract = next;
        let vg = match next_generation(self.value_generation, "value") {
            Err(e) => {
                return Err(e);
            },
            Ok(g) => g,
        };
        self.value_generation = vg;
        let sg = match next_generation(self.structure_generation, "structure") {
            Err(e) => {
                return Err(e);
            },
            Ok(g) => g,
        };
        self.structure_generation = sg;
        self.leaf = None;
        Ok(())
    }

    /// Accumulate a gradient that reached the slot's leaf: nothing happens unless
    /// the leaf belongs to the current value generation and a gradient arrived;
    /// a gradient must match the contract's shape, element type and device.
    pub fn accumulate_from(&mut self, gradient: Option<&TensorInfo>) -> (r: Result<bool, TynxError>)
        ensures
            accumulate_step(slot_view(*old(self)), match gradient {
                Some(g) => Some(*g),
                None => None,
            }) == (match r {
                Ok(b) => Ok::<bool, (ErrorKind, Seq<char>)>(b),
                Err(e) => Err(error_view(e)),
            }, slot_view(*final(self))),
    {
        if self.leaf != Some(self.value_generation) {
            return Ok(false);
        }
        match gradient {
            None => Ok(false),
            Some(g) => {
                if !sizes_eq(&g.shape, &self.contract.shape) || g.dtype != self.contract.dtype
                    || !crate::text::str_eq(g.device.name.as_str(), self.contract.device.name.as_str())
                    || g.device.autodiff != self.contract.device.autodiff {
                    let mut m = owned("gradient shape ");
                    m.append(usize_list_string(g.shape.as_slice()).as_str());
                    m.append(", dtype ");
                    m.append(g.dtype.text());
                    m.append(", and device ");
                    m.append(g.device.name.as_str());
                    m.append(" do not match parameter contract ");
                    m.append(self.contract.to_text().as_str());
                    return Err(TynxError::TypeMismatch(m));
                }
                self.has_grad = true;
                Ok(true)
            },
        }
    }
}

pub open spec fn msg_gradient_mismatch(g: TensorInfo, c: ContractView) -> Seq<char> {
    "gradient shape "@ + usize_list_text(g.shape@) + ", dtype "@ + dtype_text(g.dtype) + ", and device "@ + g.device.name@
        + " do not match parameter contract "@ + contract_text(c)
}


/// What accumulating a gradient into a slot answers and leaves: nothing happens
/// unless the slot's leaf belongs to its current value generation and a gradient
/// arrived; a gradient that does not match the contract is refused; otherwise the
/// slot holds a gradient.
pub open spec fn accumulate_step(s: SlotView, gradient: Option<TensorInfo>) -> (Result<bool, (ErrorKind, Seq<char>)>, SlotView) {
    if s.leaf != Some(s.value_generation) {
        (Ok(false), s)
    } else {
        match gradient {
            None => (Ok(false), s),
            Some(g) => if g.shape@ != s.contract.shape || g.dtype != s.contract.dtype
                || g.device.name@ != s.contract.device || g.device.autodiff != s.contract.autodiff {
                (Err((ErrorKind::TypeMismatch, msg_gradient_mismatch(g, s.contract))), s)
            } else {
                (Ok(true), SlotView { has_grad: true, ..s })
            },
        }
    }
}

} // verus!
