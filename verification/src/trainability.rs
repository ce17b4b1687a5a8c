//! Conservative ONNX initializer-role classification and output-specific
//! trainability analysis.

use vstd::prelude::*;
use crate::backward_support::{
    capability, capability_reason, BackwardCapability, BackwardSupportRegistry,
};
use crate::error::{error_view, ErrorKind, TynxError};
use crate::graph::{
    arg_dtype, arg_shape, argument_dtype, argument_shape, dtype_text, id_key, initializer_key,
    is_affine_normalization, is_convolution, is_embedded, is_gather_family, is_generator,
    is_position_argument, is_region_argument, is_registered_operator, is_shape_argument,
    op_kind_text, opt_dtype_string, opt_dtype_text, source_is_embedded, Argument, DType,
    InitializerId, InitializerKey, Node, OnnxGraph, OpKind, ValueSource,
};
use crate::text::{
    contains_text, decimal, filter_sorted, insert_sorted, is_blank, join, owned, replace_all, replace_text,
    sorted_strict, str_eq, str_is_blank, usize_text, views,
};

verus! {

/// Semantic state role assigned to an ONNX initializer.
#[derive(Debug, Clone, Copy, PartialEq, Eq, Structural)]
pub enum InitializerRole {
    /// Optimizer-visible trainable state.
    Parameter,
    /// Persistent model state that is not optimizer-visible.
    Buffer,
    /// Fixed graph data.
    Constant,
    /// Conflicting consumer roles require an explicit override.
    Ambiguous,
}

/// The role's display text.
pub open spec fn role_text(r: InitializerRole) -> Seq<char> {
    match r {
        InitializerRole::Parameter => "parameter"@,
        InitializerRole::Buffer => "buffer"@,
        InitializerRole::Constant => "constant"@,
        InitializerRole::Ambiguous => "ambiguous"@,
    }
}

impl InitializerRole {
    /// The role's display text, as `Display` writes it.
    pub fn text(&self) -> (r: &'static str)
        ensures
            r@ == role_text(*self),
    {
        match self {
            InitializerRole::Parameter => "parameter",
            InitializerRole::Buffer => "buffer",
            InitializerRole::Constant => "constant",
            InitializerRole::Ambiguous => "ambiguous",
        }
    }
}

/// Why a consumer position proposes a role.
#[derive(Debug, Clone, Copy, PartialEq, Eq, Structural)]
pub enum ProposalReason {
    Weight,
    Statistic,
    Metadata,
    Unregistered,
}

pub open spec fn proposal_reason_text(r: ProposalReason) -> Seq<char> {
    match r {
        ProposalReason::Weight => "trainable weight, bias, or affine term"@,
        ProposalReason::Statistic => "persistent normalization statistic"@,
        ProposalReason::Metadata => "semantic metadata or fixed operator input"@,
        ProposalReason::Unregistered => "no trainable initializer role is registered for this consumer input"@,
    }
}

impl ProposalReason {
    /// The reason's display text.
    pub fn text(&self) -> (r: &'static str)
        ensures
            r@ == proposal_reason_text(*self),
    {
        match self {
            ProposalReason::Weight => "trainable weight, bias, or affine term",
            ProposalReason::Statistic => "persistent normalization statistic",
            ProposalReason::Metadata => "semantic metadata or fixed operator input",
            ProposalReason::Unregistered => "no trainable initializer role is registered for this consumer input",
        }
    }
}

/// The role one consumer position proposes, its reason, and whether the position is registered.
#[derive(Debug, Clone, Copy, PartialEq, Eq, Structural)]
pub struct RoleProposal {
    pub role: InitializerRole,
    pub reason: ProposalReason,
    pub recognized: bool,
}

/// The registered role of input `i` of an operator.
pub open spec fn proposal(k: OpKind, i: int) -> RoleProposal {
    let parameter = RoleProposal { role: InitializerRole::Parameter, reason: ProposalReason::Weight, recognized: true };
    let buffer = RoleProposal { role: InitializerRole::Buffer, reason: ProposalReason::Statistic, recognized: true };
    let constant = RoleProposal { role: InitializerRole::Constant, reason: ProposalReason::Metadata, recognized: true };
    if (k is Linear || k is Gemm) && (i == 1 || i == 2) {
        parameter
    } else if k is MatMul && (i == 0 || i == 1) {
        parameter
    } else if is_convolution(k) && (i == 1 || i == 2) {
        parameter
    } else if k is BatchNormalization && (i == 1 || i == 2) {
        parameter
    } else if k is BatchNormalization && (i == 3 || i == 4) {
        buffer
    } else if is_affine_normalization(k) && (i == 1 || i == 2) {
        parameter
    } else if k is PRelu && i == 1 {
        parameter
    } else if is_gather_family(k) && i == 0 {
        parameter
    } else if is_shape_argument(k) && i == 1 {
        constant
    } else if is_gather_family(k) && i == 1 {
        constant
    } else if is_region_argument(k) && i >= 1 {
        constant
    } else if (k is Clip || k is OneHot) && (i == 1 || i == 2) {
        constant
    } else if is_position_argument(k) && i == 1 {
        constant
    } else if is_generator(k) {
        constant
    } else {
        RoleProposal { role: InitializerRole::Constant, reason: ProposalReason::Unregistered, recognized: false }
    }
}

/// The registered trainable inputs: dense layers learn their weight and bias
/// (inputs one and two), matrix products both operands, every convolution and
/// transposed convolution its weight and bias (inputs one and two), batch
/// normalisation its scale and bias while its running mean and variance (inputs
/// three and four) are persistent buffers.
pub proof fn law_registered_trainable_inputs()
    ensures
        ({
            let parameter = RoleProposal { role: InitializerRole::Parameter, reason: ProposalReason::Weight, recognized: true };
            let buffer = RoleProposal { role: InitializerRole::Buffer, reason: ProposalReason::Statistic, recognized: true };
            &&& forall|i: int| i == 1 || i == 2 ==> {
                &&& proposal(OpKind::Linear, i) == parameter
                &&& proposal(OpKind::Gemm, i) == parameter
                &&& proposal(OpKind::Conv1d, i) == parameter
                &&& proposal(OpKind::Conv2d, i) == parameter
                &&& proposal(OpKind::Conv3d, i) == parameter
                &&& proposal(OpKind::ConvTranspose1d, i) == parameter
                &&& proposal(OpKind::ConvTranspose2d, i) == parameter
                &&& proposal(OpKind::ConvTranspose3d, i) == parameter
                &&& proposal(OpKind::BatchNormalization, i) == parameter
            }
            &&& forall|i: int| i == 0 || i == 1 ==> #[trigger] proposal(OpKind::MatMul, i) == parameter
            &&& forall|i: int| i == 3 || i == 4 ==> #[trigger] proposal(OpKind::BatchNormalization, i) == buffer
        }),
{
}

/// Return the role registered for input `i` of an operator.
pub fn role_proposal(k: &OpKind, i: usize) -> (r: RoleProposal)
    ensures
        r == proposal(*k, i as int),
{
    let parameter = RoleProposal { role: InitializerRole::Parameter, reason: ProposalReason::Weight, recognized: true };
    let buffer = RoleProposal { role: InitializerRole::Buffer, reason: ProposalReason::Statistic, recognized: true };
    let constant = RoleProposal { role: InitializerRole::Constant, reason: ProposalReason::Metadata, recognized: true };
    if (matches!(k, OpKind::Linear) || matches!(k, OpKind::Gemm)) && (i == 1 || i == 2) {
        parameter
    } else if matches!(k, OpKind::MatMul) && (i == 0 || i == 1) {
        parameter
    } else if k.convolution() && (i == 1 || i == 2) {
        parameter
    } else if matches!(k, OpKind::BatchNormalization) && (i == 1 || i == 2) {
        parameter
    } else if matches!(k, OpKind::BatchNormalization) && (i == 3 || i == 4) {
        buffer
    } else if k.affine_normalization() && (i == 1 || i == 2) {
        parameter
    } else if matches!(k, OpKind::PRelu) && i == 1 {
        parameter
    } else if k.gather_family() && i == 0 {
        parameter
    } else if k.shape_argument() && i == 1 {
        constant
    } else if k.gather_family() && i == 1 {
        constant
    } else if k.region_argument() && i >= 1 {
        constant
    } else if (matches!(k, OpKind::Clip) || matches!(k, OpKind::OneHot)) && (i == 1 || i == 2) {
        constant
    } else if k.position_argument() && i == 1 {
        constant
    } else if k.generator() {
        constant
    } else {
        RoleProposal { role: InitializerRole::Constant, reason: ProposalReason::Unregistered, recognized: false }
    }
}

/// The operator name that role reports use: the operator for registered ones, else `Other`.
pub open spec fn operator_text(k: OpKind) -> Seq<char> {
    if is_registered_operator(k) {
        op_kind_text(k)
    } else {
        "Other"@
    }
}

/// The operator's name, as reports print it.
pub fn operator_name(k: &OpKind) -> (r: String)
    ensures
        r@ == operator_text(*k),
{
    if k.registered_operator() {
        k.name()
    } else {
        owned("Other")
    }
}

/// One consumer role that contributed to an initializer's classification.
#[derive(Debug, Clone)]
pub struct InitializerUse {
    node_name: String,
    operator: String,
    input_index: usize,
    proposed_role: InitializerRole,
    reason: ProposalReason,
}

/// A use as plain values.
pub struct UseView {
    pub node_name: Seq<char>,
    pub operator: Seq<char>,
    pub input_index: usize,
    pub role: InitializerRole,
    pub reason: ProposalReason,
}

pub closed spec fn use_view(u: InitializerUse) -> UseView {
    UseView {
        node_name: u.node_name@,
        operator: u.operator@,
        input_index: u.input_index,
        role: u.proposed_role,
        reason: u.reason,
    }
}

pub open spec fn use_views(s: Seq<InitializerUse>) -> Seq<UseView> {
    s.map_values(|u: InitializerUse| use_view(u))
}

impl InitializerUse {
    /// Return the consuming node name.
    pub fn node_name(&self) -> (r: &str)
        ensures
            r@ == use_view(*self).node_name,
    {
        self.node_name.as_str()
    }

    /// Return the consuming operator name.
    pub fn operator(&self) -> (r: &str)
        ensures
            r@ == use_view(*self).operator,
    {
        self.operator.as_str()
    }

    /// Return the input position at that node.
    pub fn input_index(&self) -> (r: usize)
        ensures
            r == use_view(*self).input_index,
    {
        self.input_index
    }

    /// Return the role proposed by this consumer position.
    pub fn proposed_role(&self) -> (r: InitializerRole)
        ensures
            r == use_view(*self).role,
    {
        self.proposed_role
    }

    /// Return the semantic reason for that proposal.
    pub fn reason(&self) -> (r: &str)
        ensures
            r@ == proposal_reason_text(use_view(*self).reason),
    {
        self.reason.text()
    }
}

/// Exact-name role overrides applied after automatic consumer-role analysis.
#[derive(Debug)]
pub struct TrainabilityOverrides {
    roles: Vec<(String, InitializerRole)>,
}

impl TrainabilityOverrides {
    /// Names are distinct and no override is ambiguous.
    #[verifier::type_invariant]
    spec fn inv(self) -> bool {
        &&& forall|i: int, j: int| 0 <= i < j < self.roles.len() ==> self.roles@[i].0@ != self.roles@[j].0@
        &&& forall|i: int| 0 <= i < self.roles.len() ==> self.roles@[i].1 != InitializerRole::Ambiguous
    }

    /// The override names in insertion order.
    pub closed spec fn names(self) -> Seq<Seq<char>> {
        self.roles@.map_values(|p: (String, InitializerRole)| p.0@)
    }

    /// The overrides as a map from exact name to role.
    pub closed spec fn role_map(self) -> Map<Seq<char>, InitializerRole> {
        Map::new(
            |n: Seq<char>| exists|i: int| 0 <= i < self.roles.len() && self.roles@[i].0@ == n,
            |n: Seq<char>| self.roles@[choose|i: int| 0 <= i < self.roles.len() && self.roles@[i].0@ == n].1,
        )
    }

    /// Create an empty override set.
    pub fn new() -> (r: Self)
        ensures
            r.role_map() == Map::<Seq<char>, InitializerRole>::empty(),
            r.names() == Seq::<Seq<char>>::empty(),
    {
        let r = TrainabilityOverrides { roles: Vec::new() };
        assert(r.role_map() =~= Map::<Seq<char>, InitializerRole>::empty());
        assert(r.names() =~= Seq::<Seq<char>>::empty());
        r
    }

    fn position(&self, name: &str) -> (r: Option<usize>)
        ensures
            match r {
                Some(i) => i < self.roles.len() && self.roles@[i as int].0@ == name@,
                None => forall|i: int| 0 <= i < self.roles.len() ==> self.roles@[i].0@ != name@,
            },
    {
        let mut i: usize = 0;
        while i < self.roles.len()
            invariant
                i <= self.roles.len(),
                forall|k: int| 0 <= k < i ==> self.roles@[k].0@ != name@,
            decreases self.roles.len() - i,
        {
            if str_eq(self.roles[i].0.as_str(), name) {
                return Some(i);
            }
            i = i + 1;
        }
        None
    }

    /// The override for an exact name.
    pub fn get(&self, name: &str) -> (r: Option<InitializerRole>)
        ensures
            r == (if self.role_map().contains_key(name@) { Some(self.role_map()[name@]) } else { None }),
            r != Some(InitializerRole::Ambiguous),
    {
        proof { use_type_invariant(self); }
        match self.position(name) {
            Some(i) => {
                proof {
                    assert(self.role_map().contains_key(name@));
                    let c = choose|k: int| 0 <= k < self.roles.len() && self.roles@[k].0@ == name@;
                    assert(c == i as int);
                }
                Some(self.roles[i].1)
            },
            None => None,
        }
    }

    /// Assign an explicit non-ambiguous role to one report name.
    pub fn set_role(&mut self, name: String, role: InitializerRole) -> (r: Result<(), TynxError>)
        ensures
            r is Err <==> (is_blank(name@) || role == InitializerRole::Ambiguous),
            r is Err ==> *final(self) == *old(self),
            r is Ok ==> final(self).role_map() == old(self).role_map().insert(name@, role),
            r is Ok ==> final(self).names() == (if old(self).role_map().contains_key(name@) {
                old(self).names()
            } else {
                old(self).names().push(name@)
            }),
    {
        proof { use_type_invariant(&*self); }
        if str_is_blank(name.as_str()) {
            return Err(TynxError::TypeMismatch(owned("initializer override name cannot be empty")));
        }
        if role == InitializerRole::Ambiguous {
            return Err(TynxError::TypeMismatch(
                owned("initializer override must choose parameter, buffer, or constant"),
            ));
        }
        let ghost old_roles = self.roles@;
        let ghost n = name@;
        match self.position(name.as_str()) {
            Some(i) => {
                let mut roles = Vec::new();
                std::mem::swap(&mut roles, &mut self.roles);
                roles.set(i, (name, role));
                proof {
                    assert(roles@[i as int].0@ == n);
                    assert forall|a: int, b: int| 0 <= a < b < roles.len() implies roles@[a].0@ != roles@[b].0@ by {
                        if a != i as int && b != i as int {
                            assert(roles@[a] == old_roles[a] && roles@[b] == old_roles[b]);
                        } else if a == i as int {
                            assert(roles@[b] == old_roles[b]);
                        } else {
                            assert(roles@[a] == old_roles[a]);
                        }
                    }
                    assert forall|a: int| 0 <= a < roles.len() implies roles@[a].1 != InitializerRole::Ambiguous by {
                        if a < old_roles.len() && a != i as int {
                            assert(roles@[a] == old_roles[a]);
                        }
                    }
                }
                self.roles = roles;
                proof {
                    assert(self.names() =~= old(self).names());
                    assert forall|m: Seq<char>| #[trigger] self.role_map().contains_key(m) == old(self).role_map().insert(n, role).contains_key(m) by {
                        if m != n && old(self).role_map().contains_key(m) {
                            let c = choose|k: int| 0 <= k < old_roles.len() && old_roles[k].0@ == m;
                            assert(self.roles@[c].0@ == m);
                        }
                        if self.role_map().contains_key(m) && m != n {
                            let c = choose|k: int| 0 <= k < self.roles.len() && self.roles@[k].0@ == m;
                            assert(old_roles[c].0@ == m);
                        }
                        if m == n {
                            assert(self.roles@[i as int].0@ == n);
                        }
                    }
                    assert forall|m: Seq<char>| #[trigger] self.role_map().contains_key(m) implies self.role_map()[m] == old(self).role_map().insert(n, role)[m] by {
                        let c = choose|k: int| 0 <= k < self.roles.len() && self.roles@[k].0@ == m;
                        if m == n {
                            assert(c == i as int);
                        } else {
                            let d = choose|k: int| 0 <= k < old_roles.len() && old_roles[k].0@ == m;
                            assert(c == d);
                        }
                    }
                    assert(self.role_map() =~= old(self).role_map().insert(n, role));
                }
            },
            None => {
                let mut roles = Vec::new();
                std::mem::swap(&mut roles, &mut self.roles);
                roles.push((name, role));
                proof {
                    assert forall|a: int, b: int| 0 <= a < b < roles.len() implies roles@[a].0@ != roles@[b].0@ by {
                        if b < old_roles.len() {
                            assert(roles@[a] == old_roles[a] && roles@[b] == old_roles[b]);
                        } else {
                            assert(roles@[a] == old_roles[a]);
                        }
                    }
                    assert forall|a: int| 0 <= a < roles.len() implies roles@[a].1 != InitializerRole::Ambiguous by {
                        if a < old_roles.len() {
                            assert(roles@[a] == old_roles[a]);
                        }
                    }
                }
                self.roles = roles;
                proof {
                    assert(!old(self).role_map().contains_key(n));
                    assert(self.names() =~= old(self).names().push(n));
                    assert forall|m: Seq<char>| #[trigger] self.role_map().contains_key(m) == old(self).role_map().insert(n, role).contains_key(m) by {
                        if m != n && old(self).role_map().contains_key(m) {
                            let c = choose|k: int| 0 <= k < old_roles.len() && old_roles[k].0@ == m;
                            assert(self.roles@[c].0@ == m);
                        }
                        if self.role_map().contains_key(m) && m != n {
                            let c = choose|k: int| 0 <= k < self.roles.len() && self.roles@[k].0@ == m;
                            assert(old_roles[c].0@ == m);
                        }
                        if m == n {
                            assert(self.roles@[old_roles.len() as int].0@ == n);
                        }
                    }
                    assert forall|m: Seq<char>| #[trigger] self.role_map().contains_key(m) implies self.role_map()[m] == old(self).role_map().insert(n, role)[m] by {
                        let c = choose|k: int| 0 <= k < self.roles.len() && self.roles@[k].0@ == m;
                        if m == n {
                            assert(c == old_roles.len());
                        } else {
                            let d = choose|k: int| 0 <= k < old_roles.len() && old_roles[k].0@ == m;
                            assert(c == d);
                        }
                    }
                    assert(self.role_map() =~= old(self).role_map().insert(n, role));
                }
            },
        }
        Ok(())
    }
}


/// Stable ONNX names recorded for initializer identities before graph processing.
pub open spec fn stable_lookup(st: Seq<(InitializerId, String)>, key: InitializerKey) -> Option<Seq<char>>
    decreases st.len(),
{
    if st.len() == 0 {
        None
    } else if id_key(st[0].0) == key {
        Some(st[0].1@)
    } else {
        stable_lookup(st.drop_first(), key)
    }
}

/// The report name of an initializer and whether it is a generated fallback.
pub open spec fn candidate_name(a: Argument, key: InitializerKey, st: Seq<(InitializerId, String)>) -> (Seq<char>, bool) {
    match stable_lookup(st, key) {
        Some(n) => (n, false),
        None => if a.name@.len() > 0 {
            (a.name@, false)
        } else {
            match key {
                InitializerKey::Named(n) => (n, false),
                InitializerKey::Static(d) => ("__static#"@ + decimal(d as nat), true),
                InitializerKey::Unnamed(n, i) => ("__unnamed#"@ + decimal(n as nat) + ":"@ + decimal(i as nat), true),
            }
        },
    }
}

fn stable_name(st: &Vec<(InitializerId, String)>, id: &InitializerId) -> (r: Option<String>)
    ensures
        match r {
            Some(n) => stable_lookup(st@, id_key(*id)) == Some(n@),
            None => stable_lookup(st@, id_key(*id)) is None,
        },
{
    let mut i: usize = 0;
    proof {
        assert(st@.skip(0) =~= st@);
    }
    while i < st.len()
        invariant
            i <= st.len(),
            stable_lookup(st@, id_key(*id)) == stable_lookup(st@.skip(i as int), id_key(*id)),
        decreases st.len() - i,
    {
        if st[i].0.same(id) {
            return Some(st[i].1.clone());
        }
        assert(st@.skip(i as int).drop_first() =~= st@.skip(i + 1));
        i = i + 1;
    }
    None
}

fn initializer_name(a: &Argument, id: &InitializerId, st: &Vec<(InitializerId, String)>) -> (r: (String, bool))
    ensures
        (r.0@, r.1) == candidate_name(*a, id_key(*id), st@),
{
    if let Some(n) = stable_name(st, id) {
        return (n, false);
    }
    if a.name.as_str().unicode_len() > 0 {
        return (a.name.clone(), false);
    }
    match id {
        InitializerId::Named(n) => (n.clone(), false),
        InitializerId::Static(d) => {
            let mut s = owned("__static#");
            s.append(usize_text(*d).as_str());
            (s, true)
        },
        InitializerId::Unnamed { node_index, input_index } => {
            let mut s = owned("__unnamed#");
            s.append(usize_text(*node_index).as_str());
            s.append(":");
            s.append(usize_text(*input_index).as_str());
            (s, true)
        },
    }
}

/// An initializer under classification, as plain values.
pub struct EntryView {
    pub key: InitializerKey,
    pub name: Seq<char>,
    pub synthetic: bool,
    pub dtype: Option<DType>,
    pub shape: Option<Seq<usize>>,
    pub uses: Seq<UseView>,
    pub recognized: Seq<bool>,
}

pub open spec fn keys(es: Seq<EntryView>) -> Seq<InitializerKey> {
    es.map_values(|e: EntryView| e.key)
}

/// The use that input `j` of node `k` makes of its initializer.
pub open spec fn site_use(node: Node, j: int) -> UseView {
    UseView {
        node_name: node.name@,
        operator: operator_text(node.kind),
        input_index: j as usize,
        role: proposal(node.kind, j).role,
        reason: proposal(node.kind, j).reason,
    }
}

/// Record input `j` of node `k`: embedded inputs join the entry of their identity,
/// created on first sight; a preserved name replaces a generated one.
pub open spec fn site_step(es: Seq<EntryView>, g: OnnxGraph, st: Seq<(InitializerId, String)>, k: int, j: int) -> Seq<EntryView> {
    let node = g.nodes@[k];
    let a = node.inputs@[j];
    match initializer_key(a, k as usize, j as usize) {
        None => es,
        Some(key) => {
            let cand = candidate_name(a, key, st);
            let u = site_use(node, j);
            let rec = proposal(node.kind, j).recognized;
            match keys(es).index_of_first(key) {
                Some(idx) => {
                    let e = es[idx];
                    let renamed = e.synthetic && !cand.1;
                    es.update(idx, EntryView {
                        key: e.key,
                        name: if renamed { cand.0 } else { e.name },
                        synthetic: if renamed { false } else { e.synthetic },
                        dtype: e.dtype,
                        shape: e.shape,
                        uses: e.uses.push(u),
                        recognized: e.recognized.push(rec),
                    })
                },
                None => es.push(EntryView {
                    key,
                    name: cand.0,
                    synthetic: cand.1,
                    dtype: arg_dtype(a.ty),
                    shape: arg_shape(a),
                    uses: seq![u],
                    recognized: seq![rec],
                }),
            }
        },
    }
}

/// The entries after every input of nodes before `k` and inputs before `j` of node `k`.
pub open spec fn entries_upto(g: OnnxGraph, st: Seq<(InitializerId, String)>, k: int, j: int) -> Seq<EntryView>
    decreases k, j,
{
    if k <= 0 && j <= 0 {
        Seq::empty()
    } else if j <= 0 {
        entries_upto(g, st, k - 1, g.nodes@[k - 1].inputs.len() as int)
    } else {
        site_step(entries_upto(g, st, k, j - 1), g, st, k, j - 1)
    }
}

/// The initializers of a graph in first-consumer order, each with all of its uses.
pub open spec fn graph_entries(g: OnnxGraph, st: Seq<(InitializerId, String)>) -> Seq<EntryView> {
    entries_upto(g, st, g.nodes.len() as int, 0)
}

struct WorkEntry {
    id: InitializerId,
    name: String,
    synthetic_name: bool,
    dtype: Option<DType>,
    shape: Option<Vec<usize>>,
    uses: Vec<InitializerUse>,
    recognized: Vec<bool>,
}

spec fn opt_vec_view(v: Option<Vec<usize>>) -> Option<Seq<usize>> {
    match v {
        Some(v) => Some(v@),
        None => None,
    }
}

spec fn entry_view(w: WorkEntry) -> EntryView {
    EntryView {
        key: id_key(w.id),
        name: w.name@,
        synthetic: w.synthetic_name,
        dtype: w.dtype,
        shape: opt_vec_view(w.shape),
        uses: use_views(w.uses@),
        recognized: w.recognized@,
    }
}

spec fn entry_views(ws: Seq<WorkEntry>) -> Seq<EntryView> {
    ws.map_values(|w: WorkEntry| entry_view(w))
}

fn find_entry(entries: &Vec<WorkEntry>, id: &InitializerId) -> (r: Option<usize>)
    ensures
        match r {
            Some(i) => i < entries.len() && keys(entry_views(entries@)).index_of_first(id_key(*id)) == Some(i as int),
            None => keys(entry_views(entries@)).index_of_first(id_key(*id)) is None,
        },
{
    let ghost ks = keys(entry_views(entries@));
    proof {
        ks.index_of_first_ensures(id_key(*id));
    }
    let mut i: usize = 0;
    while i < entries.len()
        invariant
            i <= entries.len(),
            ks == keys(entry_views(entries@)),
            ks.len() == entries.len(),
            forall|k: int| 0 <= k < i ==> ks[k] != id_key(*id),
        decreases entries.len() - i,
    {
        if entries[i].id.same(id) {
            assert(ks[i as int] == id_key(*id));
            proof {
                ks.index_of_first_ensures(id_key(*id));
                match ks.index_of_first(id_key(*id)) {
                    Some(x) => {
                        if x < i {
                            assert(ks[x] != id_key(*id));
                        }
                        if x > i {
                            assert(ks[i as int] != id_key(*id));
                        }
                    },
                    None => {
                        assert(ks.contains(id_key(*id)));
                    },
                }
            }
            return Some(i);
        }
        i = i + 1;
    }
    proof {
        ks.index_of_first_ensures(id_key(*id));
        if ks.contains(id_key(*id)) {
            let x = choose|x: int| 0 <= x < ks.len() && ks[x] == id_key(*id);
            assert(ks[x] != id_key(*id));
        }
    }
    None
}

fn clone_id(id: &InitializerId) -> (r: InitializerId)
    ensures
        id_key(r) == id_key(*id),
{
    match id {
        InitializerId::Named(n) => InitializerId::Named(n.clone()),
        InitializerId::Static(d) => InitializerId::Static(*d),
        InitializerId::Unnamed { node_index, input_index } => InitializerId::Unnamed {
            node_index: *node_index,
            input_index: *input_index,
        },
    }
}

/// Gather every embedded initializer of the graph with its uses.
fn collect_entries(g: &OnnxGraph, st: &Vec<(InitializerId, String)>) -> (r: Vec<WorkEntry>)
    ensures
        entry_views(r@) == graph_entries(*g, st@),
        forall|x: int| 0 <= x < r.len() ==> (#[trigger] r@[x]).uses.len() == r@[x].recognized.len(),
{
    let mut entries: Vec<WorkEntry> = Vec::new();
    let mut k: usize = 0;
    assert(entry_views(entries@) =~= entries_upto(*g, st@, 0, 0));
    while k < g.nodes.len()
        invariant
            k <= g.nodes.len(),
            entry_views(entries@) == entries_upto(*g, st@, k as int, 0),
            forall|x: int| 0 <= x < entries.len() ==> (#[trigger] entries@[x]).uses.len() == entries@[x].recognized.len(),
        decreases g.nodes.len() - k,
    {
        let node = &g.nodes[k];
        let mut j: usize = 0;
        while j < node.inputs.len()
            invariant
                k < g.nodes.len(),
                *node == g.nodes@[k as int],
                j <= node.inputs.len(),
                entry_views(entries@) == entries_upto(*g, st@, k as int, j as int),
                forall|x: int| 0 <= x < entries.len() ==> (#[trigger] entries@[x]).uses.len() == entries@[x].recognized.len(),
            decreases node.inputs.len() - j,
        {
            let a = &node.inputs[j];
            let ghost before = entry_views(entries@);
            match InitializerId::from_argument(a, k, j) {
                None => {},
                Some(id) => {
                    let (cand, syn) = initializer_name(a, &id, st);
                    let p = role_proposal(&node.kind, j);
                    let u = InitializerUse {
                        node_name: node.name.clone(),
                        operator: operator_name(&node.kind),
                        input_index: j,
                        proposed_role: p.role,
                        reason: p.reason,
                    };
                    assert(use_view(u) == site_use(*node, j as int));
                    match find_entry(&entries, &id) {
                        Some(idx) => {
                            let ghost pre = entries@;
                            let mut e = entries.remove(idx);
                            let ghost e0 = e;
                            assert(e0.uses.len() == e0.recognized.len()) by {
                                assert(pre[idx as int] == e0);
                            }
                            if e.synthetic_name && !syn {
                                e.name = cand;
                                e.synthetic_name = false;
                            }
                            e.uses.push(u);
                            e.recognized.push(p.recognized);
                            entries.insert(idx, e);
                            proof {
                                assert forall|x: int| 0 <= x < entries.len() implies (#[trigger] entries@[x]).uses.len() == entries@[x].recognized.len() by {
                                    if x < idx {
                                        assert(entries@[x] == pre[x]);
                                    } else if x > idx {
                                        assert(entries@[x] == pre[x]);
                                    }
                                }
                                assert(use_views(e.uses@) =~= use_views(e0.uses@).push(use_view(u)));
                                assert(entry_views(entries@) =~= site_step(before, *g, st@, k as int, j as int));
                            }
                        },
                        None => {
                            let mut uses = Vec::new();
                            uses.push(u);
                            let mut recognized = Vec::new();
                            recognized.push(p.recognized);
                            let e = WorkEntry {
                                id: clone_id(&id),
                                name: cand,
                                synthetic_name: syn,
                                dtype: argument_dtype(a),
                                shape: argument_shape(a),
                                uses,
                                recognized,
                            };
                            let ghost pre = entries@;
                            entries.push(e);
                            proof {
                                assert forall|x: int| 0 <= x < entries.len() implies (#[trigger] entries@[x]).uses.len() == entries@[x].recognized.len() by {
                                    if x < pre.len() {
                                        assert(entries@[x] == pre[x]);
                                    }
                                }
                                assert(use_views(e.uses@) =~= seq![use_view(u)]);
                                assert(entry_views(entries@) =~= site_step(before, *g, st@, k as int, j as int));
                            }
                        },
                    }
                },
            }
            j = j + 1;
        }
        k = k + 1;
    }
    entries
}


/// The role that every use agrees on; ambiguous when uses disagree.
pub open spec fn auto_role(uses: Seq<UseView>) -> InitializerRole {
    if uses.len() == 0 {
        InitializerRole::Constant
    } else if forall|i: int| 0 <= i < uses.len() ==> (#[trigger] uses[i]).role == uses[0].role {
        uses[0].role
    } else {
        InitializerRole::Ambiguous
    }
}

/// The role after exact-name overrides.
pub open spec fn final_role(e: EntryView, ov: Map<Seq<char>, InitializerRole>) -> InitializerRole {
    if ov.contains_key(e.name) {
        ov[e.name]
    } else {
        auto_role(e.uses)
    }
}

pub open spec fn msg_override(name: Seq<char>, auto: InitializerRole, role: InitializerRole) -> Seq<char> {
    "initializer '"@ + name + "' automatic role "@ + role_text(auto) + " was overridden as "@ + role_text(role)
}

pub open spec fn msg_synthetic(name: Seq<char>) -> Seq<char> {
    "initializer '"@ + name
        + "' has no preserved ONNX name; checkpoint identity needs a stable provenance mapping"@
}

pub open spec fn use_summary(u: UseView) -> Seq<char> {
    u.operator + ":"@ + u.node_name + " input "@ + decimal(u.input_index as nat) + " -> "@ + role_text(u.role)
}

pub open spec fn msg_conflict(name: Seq<char>, uses: Seq<UseView>) -> Seq<char> {
    "initializer '"@ + name + "' has conflicting consumer roles ("@
        + join(uses.map_values(|u: UseView| use_summary(u)), ", "@) + "); add an explicit override"@
}

pub open spec fn msg_unregistered(name: Seq<char>, u: UseView) -> Seq<char> {
    "initializer '"@ + name + "' remains constant because "@ + u.operator + " input "@
        + decimal(u.input_index as nat) + " has no registered trainable role"@
}

pub open spec fn msg_dtype(name: Seq<char>, dtype: Option<DType>) -> Seq<char> {
    "initializer '"@ + name + "' is a trainable parameter with dtype "@ + opt_dtype_text(dtype)
        + "; v1 training requires f32"@
}

pub open spec fn msg_unused_override(name: Seq<char>) -> Seq<char> {
    "initializer override '"@ + name + "' did not match any processed graph initializer"@
}

/// One warning for every use at an unregistered consumer position, in use order.
pub open spec fn unregistered_warnings(name: Seq<char>, uses: Seq<UseView>, rec: Seq<bool>, n: int) -> Seq<Seq<char>>
    decreases n,
{
    if n <= 0 {
        Seq::empty()
    } else if !rec[n - 1] {
        unregistered_warnings(name, uses, rec, n - 1).push(msg_unregistered(name, uses[n - 1]))
    } else {
        unregistered_warnings(name, uses, rec, n - 1)
    }
}

/// The warnings that one initializer raises, in report order.
pub open spec fn entry_warnings(e: EntryView, ov: Map<Seq<char>, InitializerRole>) -> Seq<Seq<char>> {
    let auto = auto_role(e.uses);
    let role = final_role(e, ov);
    let overridden = ov.contains_key(e.name);
    (if overridden && role != auto { seq![msg_override(e.name, auto, role)] } else { Seq::empty() })
        + (if e.synthetic { seq![msg_synthetic(e.name)] } else { Seq::empty() })
        + (if auto == InitializerRole::Ambiguous && role == InitializerRole::Ambiguous {
        seq![msg_conflict(e.name, e.uses)]
    } else {
        Seq::empty()
    }) + (if !overridden {
        unregistered_warnings(e.name, e.uses, e.recognized, e.uses.len() as int)
    } else {
        Seq::empty()
    })
}

/// A trainable parameter must be f32.
pub open spec fn entry_has_role_error(e: EntryView, ov: Map<Seq<char>, InitializerRole>) -> bool {
    final_role(e, ov) == InitializerRole::Parameter && e.dtype != Some(DType::F32)
}

pub open spec fn entry_errors(e: EntryView, ov: Map<Seq<char>, InitializerRole>) -> Seq<Seq<char>> {
    if entry_has_role_error(e, ov) {
        seq![msg_dtype(e.name, e.dtype)]
    } else {
        Seq::empty()
    }
}

/// Concatenation of a sequence of sequences, front to back.
pub open spec fn concat_all<A>(s: Seq<Seq<A>>) -> Seq<A>
    decreases s.len(),
{
    if s.len() == 0 {
        Seq::empty()
    } else {
        concat_all(s.drop_last()) + s.last()
    }
}

/// Warnings for overrides whose name matches no initializer, in override order.
pub open spec fn unused_override_warnings(ov_names: Seq<Seq<char>>, names: Seq<Seq<char>>, n: int) -> Seq<Seq<char>>
    decreases n,
{
    if n <= 0 {
        Seq::empty()
    } else if !names.contains(ov_names[n - 1]) {
        unused_override_warnings(ov_names, names, n - 1).push(msg_unused_override(ov_names[n - 1]))
    } else {
        unused_override_warnings(ov_names, names, n - 1)
    }
}

/// Without overrides every initializer keeps its automatic role, no override is
/// reported as applied or as matching nothing.
pub proof fn law_no_overrides_keep_automatic_roles(e: EntryView, names: Seq<Seq<char>>)
    ensures
        final_role(e, Map::empty()) == auto_role(e.uses),
        entry_warnings(e, Map::empty()) == (if e.synthetic { seq![msg_synthetic(e.name)] } else { Seq::empty() })
            + (if auto_role(e.uses) == InitializerRole::Ambiguous { seq![msg_conflict(e.name, e.uses)] } else { Seq::empty() })
            + unregistered_warnings(e.name, e.uses, e.recognized, e.uses.len() as int),
        unused_override_warnings(Seq::empty(), names, 0) == Seq::<Seq<char>>::empty(),
{
    assert(Seq::<Seq<char>>::empty() + (if e.synthetic { seq![msg_synthetic(e.name)] } else { Seq::<Seq<char>>::empty() })
        =~= (if e.synthetic { seq![msg_synthetic(e.name)] } else { Seq::<Seq<char>>::empty() }));
}

/// An override decides the role of the initializer reported under its exact name,
/// and of two overrides of one name the later one wins.
pub proof fn law_override_sets_role(
    e: EntryView,
    ov: Map<Seq<char>, InitializerRole>,
    role: InitializerRole,
    later: InitializerRole,
)
    ensures
        final_role(e, ov.insert(e.name, role)) == role,
        final_role(e, ov.insert(e.name, role).insert(e.name, later)) == later,
{
}

/// Classification and metadata for one unique initializer.
#[derive(Debug)]
pub struct InitializerReport {
    id: InitializerId,
    name: String,
    synthetic_name: bool,
    role: InitializerRole,
    dtype: Option<DType>,
    shape: Option<Vec<usize>>,
    uses: Vec<InitializerUse>,
}

/// An initializer report as plain values.
pub struct InitReportView {
    pub key: InitializerKey,
    pub name: Seq<char>,
    pub synthetic: bool,
    pub role: InitializerRole,
    pub dtype: Option<DType>,
    pub shape: Option<Seq<usize>>,
    pub uses: Seq<UseView>,
}

pub closed spec fn report_view(r: InitializerReport) -> InitReportView {
    InitReportView {
        key: id_key(r.id),
        name: r.name@,
        synthetic: r.synthetic_name,
        role: r.role,
        dtype: r.dtype,
        shape: opt_vec_view(r.shape),
        uses: use_views(r.uses@),
    }
}

pub open spec fn report_views(s: Seq<InitializerReport>) -> Seq<InitReportView> {
    s.map_values(|r: InitializerReport| report_view(r))
}

/// The report of one classified initializer.
pub open spec fn entry_report(e: EntryView, ov: Map<Seq<char>, InitializerRole>) -> InitReportView {
    InitReportView {
        key: e.key,
        name: e.name,
        synthetic: e.synthetic,
        role: final_role(e, ov),
        dtype: e.dtype,
        shape: e.shape,
        uses: e.uses,
    }
}

impl InitializerReport {
    /// Return the processed-graph initializer identity.
    pub fn id(&self) -> (r: &InitializerId)
        ensures
            id_key(*r) == report_view(*self).key,
    {
        &self.id
    }

    /// Return the checkpoint/report name.
    pub fn name(&self) -> (r: &str)
        ensures
            r@ == report_view(*self).name,
    {
        self.name.as_str()
    }

    /// Return whether the name is a generated fallback rather than preserved ONNX provenance.
    pub fn has_synthetic_name(&self) -> (r: bool)
        ensures
            r == report_view(*self).synthetic,
    {
        self.synthetic_name
    }

    /// Return the classified role.
    pub fn role(&self) -> (r: InitializerRole)
        ensures
            r == report_view(*self).role,
    {
        self.role
    }

    /// Return the element type when this initializer has tensor/scalar tensor data.
    pub fn dtype(&self) -> (r: Option<DType>)
        ensures
            r == report_view(*self).dtype,
    {
        self.dtype
    }

    /// Return the statically known shape, when available.
    pub fn shape(&self) -> (r: Option<&[usize]>)
        ensures
            match r {
                Some(s) => report_view(*self).shape == Some(s@),
                None => report_view(*self).shape is None,
            },
    {
        match &self.shape {
            Some(v) => Some(v.as_slice()),
            None => None,
        }
    }

    /// Return every consumer use that contributed to classification.
    pub fn uses(&self) -> (r: &[InitializerUse])
        ensures
            use_views(r@) == report_view(*self).uses,
    {
        self.uses.as_slice()
    }
}

fn text_msg_override(name: &str, auto: InitializerRole, role: InitializerRole) -> (r: String)
    ensures
        r@ == msg_override(name@, auto, role),
{
    let mut s = owned("initializer '");
    s.append(name);
    s.append("' automatic role ");
    s.append(auto.text());
    s.append(" was overridden as ");
    s.append(role.text());
    s
}

fn text_msg_synthetic(name: &str) -> (r: String)
    ensures
        r@ == msg_synthetic(name@),
{
    let mut s = owned("initializer '");
    s.append(name);
    s.append("' has no preserved ONNX name; checkpoint identity needs a stable provenance mapping");
    s
}

fn text_use_summary(u: &InitializerUse) -> (r: String)
    ensures
        r@ == use_summary(use_view(*u)),
{
    let mut s = owned(u.operator.as_str());
    s.append(":");
    s.append(u.node_name.as_str());
    s.append(" input ");
    s.append(usize_text(u.input_index).as_str());
    s.append(" -> ");
    s.append(u.proposed_role.text());
    s
}

fn text_msg_conflict(name: &str, uses: &Vec<InitializerUse>) -> (r: String)
    ensures
        r@ == msg_conflict(name@, use_views(uses@)),
{
    let mut parts: Vec<String> = Vec::new();
    let mut i: usize = 0;
    while i < uses.len()
        invariant
            i <= uses.len(),
            views(parts@) == use_views(uses@).take(i as int).map_values(|u: UseView| use_summary(u)),
        decreases uses.len() - i,
    {
        let t = text_use_summary(&uses[i]);
        let ghost prev = views(parts@);
        parts.push(t);
        proof {
            assert(views(parts@) =~= prev.push(t@));
            assert(use_views(uses@)[i as int] == use_view(uses@[i as int]));
            assert(use_views(uses@).take(i + 1) =~= use_views(uses@).take(i as int).push(use_views(uses@)[i as int]));
            assert(views(parts@) =~= use_views(uses@).take(i + 1).map_values(|u: UseView| use_summary(u)));
        }
        i = i + 1;
    }
    assert(use_views(uses@).take(uses.len() as int) =~= use_views(uses@));
    let joined = crate::text::join_strings(&parts, ", ");
    let mut s = owned("initializer '");
    s.append(name);
    s.append("' has conflicting consumer roles (");
    s.append(joined.as_str());
    s.append("); add an explicit override");
    s
}

fn text_msg_unregistered(name: &str, u: &InitializerUse) -> (r: String)
    ensures
        r@ == msg_unregistered(name@, use_view(*u)),
{
    let mut s = owned("initializer '");
    s.append(name);
    s.append("' remains constant because ");
    s.append(u.operator.as_str());
    s.append(" input ");
    s.append(usize_text(u.input_index).as_str());
    s.append(" has no registered trainable role");
    s
}

fn text_msg_dtype(name: &str, dtype: Option<DType>) -> (r: String)
    ensures
        r@ == msg_dtype(name@, dtype),
{
    let mut s = owned("initializer '");
    s.append(name);
    s.append("' is a trainable parameter with dtype ");
    s.append(opt_dtype_string(dtype).as_str());
    s.append("; v1 training requires f32");
    s
}

fn text_msg_unused_override(name: &str) -> (r: String)
    ensures
        r@ == msg_unused_override(name@),
{
    let mut s = owned("initializer override '");
    s.append(name);
    s.append("' did not match any processed graph initializer");
    s
}

fn automatic_role(uses: &Vec<InitializerUse>) -> (r: InitializerRole)
    ensures
        r == auto_role(use_views(uses@)),
{
    if uses.len() == 0 {
        return InitializerRole::Constant;
    }
    let first = uses[0].proposed_role;
    let mut i: usize = 1;
    while i < uses.len()
        invariant
            1 <= i <= uses.len(),
            first == use_views(uses@)[0].role,
            forall|k: int| 0 <= k < i ==> (#[trigger] use_views(uses@)[k]).role == first,
        decreases uses.len() - i,
    {
        if uses[i].proposed_role != first {
            assert(use_views(uses@)[i as int].role != first);
            return InitializerRole::Ambiguous;
        }
        i = i + 1;
    }
    first
}


/// One blocked edge on a selected parameter-to-output backward slice.
#[derive(Debug)]
pub struct BackwardPathIssue {
    output: String,
    node_name: String,
    operator: String,
    input_index: usize,
    capability: BackwardCapability,
    parameters: Vec<String>,
}

/// A blocked edge as plain values.
pub struct IssueView {
    pub output: Seq<char>,
    pub node_name: Seq<char>,
    pub operator: Seq<char>,
    pub input_index: usize,
    pub capability: BackwardCapability,
    pub parameters: Seq<Seq<char>>,
}

pub closed spec fn issue_view(i: BackwardPathIssue) -> IssueView {
    IssueView {
        output: i.output@,
        node_name: i.node_name@,
        operator: i.operator@,
        input_index: i.input_index,
        capability: i.capability,
        parameters: views(i.parameters@),
    }
}

pub open spec fn issue_views(s: Seq<BackwardPathIssue>) -> Seq<IssueView> {
    s.map_values(|i: BackwardPathIssue| issue_view(i))
}

impl BackwardPathIssue {
    /// Return the requested model output whose backward slice contains this edge.
    pub fn output(&self) -> (r: &str)
        ensures
            r@ == issue_view(*self).output,
    {
        self.output.as_str()
    }

    /// Return the node name.
    pub fn node_name(&self) -> (r: &str)
        ensures
            r@ == issue_view(*self).node_name,
    {
        self.node_name.as_str()
    }

    /// Return the operator name.
    pub fn operator(&self) -> (r: &str)
        ensures
            r@ == issue_view(*self).operator,
    {
        self.operator.as_str()
    }

    /// Return the blocked input position.
    pub fn input_index(&self) -> (r: usize)
        ensures
            r == issue_view(*self).input_index,
    {
        self.input_index
    }

    /// Return whether the edge is deliberately stopped or lacks backward support.
    pub fn capability(&self) -> (r: BackwardCapability)
        ensures
            r == issue_view(*self).capability,
    {
        self.capability
    }

    /// Return trainable parameters upstream of this blocked edge.
    pub fn parameters(&self) -> (r: &[String])
        ensures
            views(r@) == issue_view(*self).parameters,
    {
        self.parameters.as_slice()
    }
}

/// A trainability report as plain values.
pub struct ReportView {
    pub initializers: Seq<InitReportView>,
    pub role_errors: bool,
    pub complete: bool,
    pub selected: Seq<Seq<char>>,
    pub output_parameters: Seq<(Seq<char>, Seq<Seq<char>>)>,
    pub issues: Seq<IssueView>,
    pub unused: Seq<Seq<char>>,
    pub warnings: Seq<Seq<char>>,
    pub errors: Seq<Seq<char>>,
}

/// Structured imported-model role and output-specific trainability report.
#[derive(Debug)]
pub struct TrainabilityReport {
    initializers: Vec<InitializerReport>,
    role_errors: bool,
    output_analysis_complete: bool,
    selected_outputs: Vec<String>,
    output_parameters: Vec<(String, Vec<String>)>,
    backward_issues: Vec<BackwardPathIssue>,
    unused_parameters: Vec<String>,
    warnings: Vec<String>,
    errors: Vec<String>,
}

pub open spec fn pair_views(s: Seq<(String, Vec<String>)>) -> Seq<(Seq<char>, Seq<Seq<char>>)> {
    s.map_values(|p: (String, Vec<String>)| (p.0@, views(p.1@)))
}

impl View for TrainabilityReport {
    type V = ReportView;

    closed spec fn view(&self) -> ReportView {
        ReportView {
            initializers: report_views(self.initializers@),
            role_errors: self.role_errors,
            complete: self.output_analysis_complete,
            selected: views(self.selected_outputs@),
            output_parameters: pair_views(self.output_parameters@),
            issues: issue_views(self.backward_issues@),
            unused: views(self.unused_parameters@),
            warnings: views(self.warnings@),
            errors: views(self.errors@),
        }
    }
}

pub open spec fn warnings_of(es: Seq<EntryView>, ov: Map<Seq<char>, InitializerRole>) -> Seq<Seq<Seq<char>>> {
    es.map_values(|e: EntryView| entry_warnings(e, ov))
}

pub open spec fn errors_of(es: Seq<EntryView>, ov: Map<Seq<char>, InitializerRole>) -> Seq<Seq<Seq<char>>> {
    es.map_values(|e: EntryView| entry_errors(e, ov))
}

pub open spec fn reports_of(es: Seq<EntryView>, ov: Map<Seq<char>, InitializerRole>) -> Seq<InitReportView> {
    es.map_values(|e: EntryView| entry_report(e, ov))
}

pub open spec fn entry_names(es: Seq<EntryView>) -> Seq<Seq<char>> {
    es.map_values(|e: EntryView| e.name)
}

/// The role classification of a graph's initializers, before any output analysis.
pub open spec fn classified(es: Seq<EntryView>, ov_map: Map<Seq<char>, InitializerRole>, ov_names: Seq<Seq<char>>) -> ReportView {
    ReportView {
        initializers: reports_of(es, ov_map),
        role_errors: exists|i: int| 0 <= i < es.len() && entry_has_role_error(#[trigger] es[i], ov_map),
        complete: false,
        selected: Seq::empty(),
        output_parameters: Seq::empty(),
        issues: Seq::empty(),
        unused: Seq::empty(),
        warnings: concat_all(warnings_of(es, ov_map))
            + unused_override_warnings(ov_names, entry_names(es), ov_names.len() as int),
        errors: concat_all(errors_of(es, ov_map)),
    }
}

fn push_text(v: &mut Vec<String>, t: String)
    ensures
        views(final(v)@) == views(old(v)@).push(t@),
{
    v.push(t);
    assert(views(v@) =~= views(old(v)@).push(t@));
}

fn names_contain(reports: &Vec<InitializerReport>, name: &str) -> (r: bool)
    ensures
        r == report_views(reports@).map_values(|x: InitReportView| x.name).contains(name@),
{
    let ghost ns = report_views(reports@).map_values(|x: InitReportView| x.name);
    let mut i: usize = 0;
    while i < reports.len()
        invariant
            i <= reports.len(),
            ns == report_views(reports@).map_values(|x: InitReportView| x.name),
            forall|k: int| 0 <= k < i ==> ns[k] != name@,
        decreases reports.len() - i,
    {
        if str_eq(reports[i].name.as_str(), name) {
            assert(ns[i as int] == name@);
            return true;
        }
        i = i + 1;
    }
    proof {
        if ns.contains(name@) {
            let x = choose|x: int| 0 <= x < ns.len() && ns[x] == name@;
            assert(ns[x] != name@);
        }
    }
    false
}

#[verifier::spinoff_prover]
#[verifier::rlimit(30)]
fn classify(entries: Vec<WorkEntry>, overrides: &TrainabilityOverrides) -> (r: TrainabilityReport)
    requires
        forall|x: int| 0 <= x < entries.len() ==> (#[trigger] entries@[x]).uses.len() == entries@[x].recognized.len(),
    ensures
        r@ == classified(entry_views(entries@), overrides.role_map(), overrides.names()),
{
    let ghost es = entry_views(entries@);
    let ghost ov = overrides.role_map();
    let mut entries = entries;
    let mut report = TrainabilityReport {
        initializers: Vec::new(),
        role_errors: false,
        output_analysis_complete: false,
        selected_outputs: Vec::new(),
        output_parameters: Vec::new(),
        backward_issues: Vec::new(),
        unused_parameters: Vec::new(),
        warnings: Vec::new(),
        errors: Vec::new(),
    };
    let n = entries.len();
    let mut i: usize = 0;
    proof {
        assert(es.take(0) =~= Seq::<EntryView>::empty());
        assert(report_views(report.initializers@) =~= reports_of(es.take(0), ov));
        assert(views(report.warnings@) =~= concat_all(warnings_of(es.take(0), ov)));
        assert(views(report.errors@) =~= concat_all(errors_of(es.take(0), ov)));
    }
    while i < n
        invariant
            n == es.len(),
            i <= n,
            entry_views(entries@) == es.skip(i as int),
            forall|x: int| 0 <= x < entries.len() ==> (#[trigger] entries@[x]).uses.len() == entries@[x].recognized.len(),
            ov == overrides.role_map(),
            report_views(report.initializers@) == reports_of(es.take(i as int), ov),
            views(report.warnings@) == concat_all(warnings_of(es.take(i as int), ov)),
            views(report.errors@) == concat_all(errors_of(es.take(i as int), ov)),
            report.role_errors == exists|k: int| 0 <= k < i && entry_has_role_error(#[trigger] es[k], ov),
            !report.output_analysis_complete,
            report.selected_outputs@.len() == 0,
            report.output_parameters@.len() == 0,
            report.backward_issues@.len() == 0,
            report.unused_parameters@.len() == 0,
        decreases n - i,
    {
        let ghost before = entries@;
        assert(entry_views(before).len() == before.len());
        let e = entries.remove(0);
        let ghost ev = entry_view(e);
        proof {
            assert(before[0] == e);
            assert(entry_views(before)[0] == ev);
            assert(es.skip(i as int)[0] == es[i as int]);
            assert(e.uses.len() == e.recognized.len());
            assert forall|x: int| 0 <= x < entries.len() implies (#[trigger] entries@[x]).uses.len() == entries@[x].recognized.len() by {
                assert(entries@[x] == before[x + 1]);
            }
            assert(entry_views(entries@) =~= entry_views(before).skip(1));
            assert(es.skip(i as int).skip(1) =~= es.skip(i + 1));
            assert(ev == es[i as int]);
        }
        let ghost w0 = views(report.warnings@);
        let auto = automatic_role(&e.uses);
        let ovr = overrides.get(e.name.as_str());
        let role = match ovr {
            Some(r) => r,
            None => auto,
        };
        match ovr {
            Some(r) => {
                if r != auto {
                    push_text(&mut report.warnings, text_msg_override(e.name.as_str(), auto, r));
                }
            },
            None => {},
        }
        let ghost w1 = views(report.warnings@);
        if e.synthetic_name {
            push_text(&mut report.warnings, text_msg_synthetic(e.name.as_str()));
        }
        let ghost w2 = views(report.warnings@);
        if auto == InitializerRole::Ambiguous && role == InitializerRole::Ambiguous {
            push_text(&mut report.warnings, text_msg_conflict(e.name.as_str(), &e.uses));
        }
        let ghost w3 = views(report.warnings@);
        let ghost inits_before = report.initializers@;
        let ghost errs_before = report.errors@;
        let ghost re_before = report.role_errors;
        if ovr.is_none() {
            let mut j: usize = 0;
            while j < e.uses.len()
                invariant
                    j <= e.uses.len(),
                    e.uses.len() == e.recognized.len(),
                    ev == entry_view(e),
                    report.initializers@ == inits_before,
                    report.errors@ == errs_before,
                    report.role_errors == re_before,
                    !report.output_analysis_complete,
                    report.selected_outputs@.len() == 0,
                    report.output_parameters@.len() == 0,
                    report.backward_issues@.len() == 0,
                    report.unused_parameters@.len() == 0,
                    views(report.warnings@) == w3 + unregistered_warnings(ev.name, ev.uses, ev.recognized, j as int),
                decreases e.uses.len() - j,
            {
                if !e.recognized[j] {
                    let t = text_msg_unregistered(e.name.as_str(), &e.uses[j]);
                    assert(ev.uses[j as int] == use_view(e.uses@[j as int]));
                    push_text(&mut report.warnings, t);
                }
                j = j + 1;
            }
        }
        proof {
            assert(views(report.warnings@) =~= w0 + entry_warnings(ev, ov));
        }
        let ghost e0 = views(report.errors@);
        let is_f32 = match e.dtype {
            Some(DType::F32) => true,
            _ => false,
        };
        if role == InitializerRole::Parameter && !is_f32 {
            report.role_errors = true;
            push_text(&mut report.errors, text_msg_dtype(e.name.as_str(), e.dtype));
        }
        proof {
            assert(views(report.errors@) =~= e0 + entry_errors(ev, ov));
        }
        let ghost r0 = report_views(report.initializers@);
        let item = InitializerReport {
            id: e.id,
            name: e.name,
            synthetic_name: e.synthetic_name,
            role,
            dtype: e.dtype,
            shape: e.shape,
            uses: e.uses,
        };
        proof {
            assert(role == final_role(ev, ov));
            assert(report_view(item) == entry_report(ev, ov));
        }
        report.initializers.push(item);
        proof {
            assert(views(report.errors@) == concat_all(errors_of(es.take(i as int), ov)) + entry_errors(es[i as int], ov));
            assert(errors_of(es.take(i + 1), ov).last() == entry_errors(es[i as int], ov));
            assert(report_views(report.initializers@) =~= r0.push(entry_report(ev, ov)));
            assert(es.take(i + 1) =~= es.take(i as int).push(es[i as int]));
            assert(warnings_of(es.take(i + 1), ov).drop_last() =~= warnings_of(es.take(i as int), ov));
            assert(errors_of(es.take(i + 1), ov).drop_last() =~= errors_of(es.take(i as int), ov));
            assert(reports_of(es.take(i + 1), ov) =~= reports_of(es.take(i as int), ov).push(entry_report(es[i as int], ov)));
            if entry_has_role_error(ev, ov) {
                assert(entry_has_role_error(es[i as int], ov));
            }
        }
        i = i + 1;
    }
    proof {
        assert(es.take(n as int) =~= es);
    }
    let ghost names = entry_names(es);
    proof {
        assert(report_views(report.initializers@).map_values(|x: InitReportView| x.name) =~= names);
    }
    let ghost wbase = views(report.warnings@);
    let mut k: usize = 0;
    proof {
        use_type_invariant(overrides);
    }
    while k < overrides.roles.len()
        invariant
            k <= overrides.roles.len(),
            report_views(report.initializers@).map_values(|x: InitReportView| x.name) == names,
            report_views(report.initializers@) == reports_of(es, ov),
            views(report.errors@) == concat_all(errors_of(es, ov)),
            report.role_errors == exists|k: int| 0 <= k < es.len() && entry_has_role_error(#[trigger] es[k], ov),
            !report.output_analysis_complete,
            report.selected_outputs@.len() == 0,
            report.output_parameters@.len() == 0,
            report.backward_issues@.len() == 0,
            report.unused_parameters@.len() == 0,
            wbase == concat_all(warnings_of(es, ov)),
            views(report.warnings@) == wbase + unused_override_warnings(overrides.names(), names, k as int),
        decreases overrides.roles.len() - k,
    {
        let name = overrides.roles[k].0.as_str();
        assert(overrides.names()[k as int] == name@);
        if !names_contain(&report.initializers, name) {
            push_text(&mut report.warnings, text_msg_unused_override(name));
        }
        k = k + 1;
    }
    proof {
        assert(overrides.names().len() == overrides.roles.len());
        assert(report@.selected =~= Seq::<Seq<char>>::empty());
        assert(report@.output_parameters =~= Seq::<(Seq<char>, Seq<Seq<char>>)>::empty());
        assert(report@.issues =~= Seq::<IssueView>::empty());
        assert(report@.unused =~= Seq::<Seq<char>>::empty());
    }
    report
}


/// Role classification of a graph's initializers under overrides and stable names.
pub open spec fn initializer_analysis(
    g: OnnxGraph,
    ov_map: Map<Seq<char>, InitializerRole>,
    ov_names: Seq<Seq<char>>,
    st: Seq<(InitializerId, String)>,
) -> ReportView {
    classified(graph_entries(g, st), ov_map, ov_names)
}

fn analyze(graph: &OnnxGraph, overrides: &TrainabilityOverrides, stable_names: &Vec<(InitializerId, String)>) -> (r: TrainabilityReport)
    ensures
        r@ == initializer_analysis(*graph, overrides.role_map(), overrides.names(), stable_names@),
{
    let entries = collect_entries(graph, stable_names);
    classify(entries, overrides)
}


// ---------------------------------------------------------------------------
// Output-specific backward-path analysis
// ---------------------------------------------------------------------------

/// Trainable parameters as (identity, name) pairs, in report order.
pub open spec fn params_of(inits: Seq<InitReportView>) -> Seq<(InitializerKey, Seq<char>)>
    decreases inits.len(),
{
    if inits.len() == 0 {
        Seq::empty()
    } else if inits.last().role == InitializerRole::Parameter {
        params_of(inits.drop_last()).push((inits.last().key, inits.last().name))
    } else {
        params_of(inits.drop_last())
    }
}

/// The name of the first parameter with a given identity.
pub open spec fn key_lookup(pn: Seq<(InitializerKey, Seq<char>)>, key: InitializerKey) -> Option<Seq<char>>
    decreases pn.len(),
{
    if pn.len() == 0 {
        None
    } else if pn[0].0 == key {
        Some(pn[0].1)
    } else {
        key_lookup(pn.drop_first(), key)
    }
}

/// Parameters that reach input `j` of node `k`: the input itself when it is an embedded
/// parameter, else the parameters recorded for the value it names.
pub open spec fn pfa(m: Map<Seq<char>, Set<Seq<char>>>, pn: Seq<(InitializerKey, Seq<char>)>, g: OnnxGraph, k: int, j: int) -> Set<Seq<char>> {
    let a = g.nodes@[k].inputs@[j];
    let direct = if is_embedded(a.value_source) {
        key_lookup(pn, initializer_key(a, k as usize, j as usize)->0)
    } else {
        None
    };
    match direct {
        Some(n) => Set::empty().insert(n),
        None => if m.contains_key(a.name@) {
            m[a.name@]
        } else {
            Set::empty()
        },
    }
}

/// Union of the parameters reaching inputs before `j` of node `k`.
pub open spec fn node_params(m: Map<Seq<char>, Set<Seq<char>>>, pn: Seq<(InitializerKey, Seq<char>)>, g: OnnxGraph, k: int, j: int) -> Set<Seq<char>>
    decreases j,
{
    if j <= 0 {
        Set::empty()
    } else {
        node_params(m, pn, g, k, j - 1).union(pfa(m, pn, g, k, j - 1))
    }
}

/// Record a set for every named output before `n`.
pub open spec fn outs_insert(m: Map<Seq<char>, Set<Seq<char>>>, node: Node, p: Set<Seq<char>>, n: int) -> Map<Seq<char>, Set<Seq<char>>>
    decreases n,
{
    if n <= 0 {
        m
    } else {
        let m2 = outs_insert(m, node, p, n - 1);
        if node.outputs@[n - 1].name@.len() > 0 {
            m2.insert(node.outputs@[n - 1].name@, p)
        } else {
            m2
        }
    }
}

/// Trainable parameters that structurally influence each value, after nodes before `k`.
pub open spec fn vp_upto(g: OnnxGraph, pn: Seq<(InitializerKey, Seq<char>)>, k: int) -> Map<Seq<char>, Set<Seq<char>>>
    decreases k,
{
    if k <= 0 {
        Map::empty()
    } else {
        let m = vp_upto(g, pn, k - 1);
        let node = g.nodes@[k - 1];
        outs_insert(m, node, node_params(m, pn, g, k - 1, node.inputs.len() as int), node.outputs.len() as int)
    }
}

/// Trainable parameters that structurally influence a value of the graph.
pub open spec fn influence(g: OnnxGraph, pn: Seq<(InitializerKey, Seq<char>)>, v: Seq<char>) -> Set<Seq<char>> {
    let m = vp_upto(g, pn, g.nodes.len() as int);
    if m.contains_key(v) {
        m[v]
    } else {
        Set::empty()
    }
}

pub open spec fn msg_empty_output() -> Seq<char> {
    "requested output name cannot be empty"@
}

pub open spec fn msg_undeclared(o: Seq<char>) -> Seq<char> {
    "requested output '"@ + o + "' is not a declared graph output"@
}

pub open spec fn msg_no_output() -> Seq<char> {
    "at least one graph output must be selected for trainability analysis"@
}

pub open spec fn msg_not_influenced(o: Seq<char>) -> Seq<char> {
    "requested output '"@ + o + "' is not influenced by any selected trainable parameter"@
}

pub open spec fn msg_unused_parameter(p: Seq<char>) -> Seq<char> {
    "selected trainable parameter '"@ + p + "' is unused by the requested outputs"@
}

pub open spec fn arg_names(s: Seq<Argument>) -> Seq<Seq<char>> {
    s.map_values(|a: Argument| a.name@)
}

/// Requested outputs before `n`, checked: the selected ones without duplicates in request
/// order, and an error for each empty or undeclared one.
pub open spec fn requested(outs: Seq<Seq<char>>, declared: Seq<Seq<char>>, n: int) -> (Seq<Seq<char>>, Seq<Seq<char>>)
    decreases n,
{
    if n <= 0 {
        (Seq::empty(), Seq::empty())
    } else {
        let prev = requested(outs, declared, n - 1);
        let o = outs[n - 1];
        if o.len() == 0 {
            (prev.0, prev.1.push(msg_empty_output()))
        } else if !declared.contains(o) {
            (prev.0, prev.1.push(msg_undeclared(o)))
        } else if prev.0.contains(o) {
            prev
        } else {
            (prev.0.push(o), prev.1)
        }
    }
}

/// Warnings for selected outputs that no parameter influences, in selection order.
pub open spec fn not_influenced_warnings(g: OnnxGraph, pn: Seq<(InitializerKey, Seq<char>)>, sel: Seq<Seq<char>>, n: int) -> Seq<Seq<char>>
    decreases n,
{
    if n <= 0 {
        Seq::empty()
    } else if influence(g, pn, sel[n - 1]).len() == 0 {
        not_influenced_warnings(g, pn, sel, n - 1).push(msg_not_influenced(sel[n - 1]))
    } else {
        not_influenced_warnings(g, pn, sel, n - 1)
    }
}

/// Union of the influences of the outputs before `n`.
pub open spec fn used_params(g: OnnxGraph, pn: Seq<(InitializerKey, Seq<char>)>, sel: Seq<Seq<char>>, n: int) -> Set<Seq<char>>
    decreases n,
{
    if n <= 0 {
        Set::empty()
    } else {
        used_params(g, pn, sel, n - 1).union(influence(g, pn, sel[n - 1]))
    }
}

/// Whether a set of names has a member.
pub open spec fn nonempty(s: Set<Seq<char>>) -> bool {
    exists|p: Seq<char>| s.contains(p)
}

/// The parameters of output `o` that reach input `j` of node `k`.
pub open spec fn upstream_of(g: OnnxGraph, pn: Seq<(InitializerKey, Seq<char>)>, k: int, j: int, o: Seq<char>) -> Set<Seq<char>> {
    pfa(vp_upto(g, pn, g.nodes.len() as int), pn, g, k, j).intersect(influence(g, pn, o))
}

/// Input `j` of node `k`, read for its output `oi`, passes gradients of `o`'s
/// parameters back to the runtime value it reads.
pub open spec fn passes_back(g: OnnxGraph, pn: Seq<(InitializerKey, Seq<char>)>, o: Seq<char>, k: int, oi: int, j: int) -> bool {
    &&& 0 <= j < g.nodes@[k].inputs.len()
    &&& nonempty(upstream_of(g, pn, k, j, o))
    &&& capability(g.nodes@[k], oi, j) == BackwardCapability::Differentiable
    &&& g.nodes@[k].inputs@[j].value_source == ValueSource::Dynamic
    &&& g.nodes@[k].inputs@[j].name@.len() > 0
}

/// Input `j` of node `k`, read for its output `oi`, blocks gradients of some of
/// `o`'s parameters.
pub open spec fn blocks(g: OnnxGraph, pn: Seq<(InitializerKey, Seq<char>)>, o: Seq<char>, k: int, oi: int, j: int) -> bool {
    &&& 0 <= j < g.nodes@[k].inputs.len()
    &&& nonempty(upstream_of(g, pn, k, j, o))
    &&& capability(g.nodes@[k], oi, j) != BackwardCapability::Differentiable
}

/// Gradients of `o`'s parameters flow back from value `v` into value `w`.
pub open spec fn flows_into(g: OnnxGraph, pn: Seq<(InitializerKey, Seq<char>)>, o: Seq<char>, v: Seq<char>, w: Seq<char>) -> bool {
    match producer(g, v) {
        Some((k, oi)) => exists|j: int| #[trigger] passes_back(g, pn, o, k, oi, j) && g.nodes@[k].inputs@[j].name@ == w,
        None => false,
    }
}

/// The values reached backward from output `o` in at most `n` steps.
pub open spec fn reached(g: OnnxGraph, pn: Seq<(InitializerKey, Seq<char>)>, o: Seq<char>, n: nat) -> Set<Seq<char>>
    decreases n,
{
    if n == 0 {
        Set::empty().insert(o)
    } else {
        let r = reached(g, pn, o, (n - 1) as nat);
        r.union(Set::new(|w: Seq<char>| exists|v: Seq<char>| r.contains(v) && flows_into(g, pn, o, v, w)))
    }
}

/// Whether a value lies on the backward slice of output `o`.
pub open spec fn on_slice(g: OnnxGraph, pn: Seq<(InitializerKey, Seq<char>)>, o: Seq<char>, v: Seq<char>) -> bool {
    exists|n: nat| #[trigger] reached(g, pn, o, n).contains(v)
}

/// An issue reports blocked input `j` of node `k`, read for its output `oi`, for output `o`.
pub open spec fn reports_edge(iv: IssueView, g: OnnxGraph, pn: Seq<(InitializerKey, Seq<char>)>, o: Seq<char>, k: int, oi: int, j: int) -> bool {
    &&& iv.output == o
    &&& iv.node_name == g.nodes@[k].name@
    &&& iv.operator == op_kind_text(g.nodes@[k].kind)
    &&& iv.input_index == j
    &&& iv.capability == capability(g.nodes@[k], oi, j)
    &&& sorted_strict(iv.parameters)
    &&& iv.parameters.to_set() == upstream_of(g, pn, k, j, o)
}

/// An issue reports a blocked input of the node producing a value on the backward
/// slice of its output.
pub open spec fn slice_issue(g: OnnxGraph, pn: Seq<(InitializerKey, Seq<char>)>, iv: IssueView) -> bool {
    exists|v: Seq<char>, j: int| #[trigger] issue_at(g, pn, iv, v, j)
}

/// An issue reports blocked input `j` of the node producing value `v`, which lies
/// on the backward slice of the issue's output.
pub open spec fn issue_at(g: OnnxGraph, pn: Seq<(InitializerKey, Seq<char>)>, iv: IssueView, v: Seq<char>, j: int) -> bool {
    on_slice(g, pn, iv.output, v) && match producer(g, v) {
        Some((k, oi)) => blocks(g, pn, iv.output, k, oi, j) && reports_edge(iv, g, pn, iv.output, k, oi, j),
        None => false,
    }
}

/// Some issue reports blocked input `j` of node `k` for output `o`.
pub open spec fn edge_reported(s: Seq<IssueView>, g: OnnxGraph, pn: Seq<(InitializerKey, Seq<char>)>, o: Seq<char>, k: int, oi: int, j: int) -> bool {
    exists|i: int| 0 <= i < s.len() && reports_edge(#[trigger] s[i], g, pn, o, k, oi, j)
}

/// Every blocked input of the node producing value `v` is reported for output `o`.
pub open spec fn covered(s: Seq<IssueView>, g: OnnxGraph, pn: Seq<(InitializerKey, Seq<char>)>, o: Seq<char>, v: Seq<char>) -> bool {
    match producer(g, v) {
        Some((k, oi)) => forall|j: int| #[trigger] blocks(g, pn, o, k, oi, j) ==> edge_reported(s, g, pn, o, k, oi, j),
        None => true,
    }
}

proof fn lemma_covered_grows(
    s: Seq<IssueView>,
    t: Seq<IssueView>,
    g: OnnxGraph,
    pn: Seq<(InitializerKey, Seq<char>)>,
    o: Seq<char>,
    v: Seq<char>,
)
    requires
        s.len() <= t.len(),
        forall|i: int| 0 <= i < s.len() ==> t[i] == s[i],
        covered(s, g, pn, o, v),
    ensures
        covered(t, g, pn, o, v),
{
    match producer(g, v) {
        Some((k, oi)) => {
            assert forall|j: int| #[trigger] blocks(g, pn, o, k, oi, j) implies edge_reported(t, g, pn, o, k, oi, j) by {
                let i = choose|i: int| 0 <= i < s.len() && reports_edge(#[trigger] s[i], g, pn, o, k, oi, j);
                assert(t[i] == s[i]);
            }
        },
        None => {},
    }
}

proof fn lemma_slice_step(g: OnnxGraph, pn: Seq<(InitializerKey, Seq<char>)>, o: Seq<char>, v: Seq<char>, w: Seq<char>)
    requires
        on_slice(g, pn, o, v),
        flows_into(g, pn, o, v, w),
    ensures
        on_slice(g, pn, o, w),
{
    let n = choose|n: nat| #[trigger] reached(g, pn, o, n).contains(v);
    assert(reached(g, pn, o, n + 1).contains(w));
}

proof fn lemma_reached_visited(
    g: OnnxGraph,
    pn: Seq<(InitializerKey, Seq<char>)>,
    o: Seq<char>,
    visited: Seq<Seq<char>>,
    queue: Seq<Seq<char>>,
    n: nat,
)
    requires
        visited.contains(o),
        forall|x: Seq<char>, w: Seq<char>| visited.contains(x) && #[trigger] flows_into(g, pn, o, x, w) ==> queue.contains(w),
        forall|q: int| 0 <= q < queue.len() ==> visited.contains(#[trigger] queue[q]),
    ensures
        forall|x: Seq<char>| #[trigger] reached(g, pn, o, n).contains(x) ==> visited.contains(x),
    decreases n,
{
    if n > 0 {
        lemma_reached_visited(g, pn, o, visited, queue, (n - 1) as nat);
        assert forall|x: Seq<char>| #[trigger] reached(g, pn, o, n).contains(x) implies visited.contains(x) by {
            let r = reached(g, pn, o, (n - 1) as nat);
            if !r.contains(x) {
                let v = choose|v: Seq<char>| r.contains(v) && flows_into(g, pn, o, v, x);
                assert(queue.contains(x));
                let q = choose|q: int| 0 <= q < queue.len() && queue[q] == x;
                assert(visited.contains(queue[q]));
            }
        }
    }
}

proof fn lemma_uninfluenced_covered(s: Seq<IssueView>, g: OnnxGraph, pn: Seq<(InitializerKey, Seq<char>)>, o: Seq<char>, v: Seq<char>)
    requires
        influence(g, pn, o) == Set::<Seq<char>>::empty(),
    ensures
        covered(s, g, pn, o, v),
{
    match producer(g, v) {
        Some((k, oi)) => {
            assert forall|j: int| #[trigger] blocks(g, pn, o, k, oi, j) implies edge_reported(s, g, pn, o, k, oi, j) by {
                let p = choose|p: Seq<char>| upstream_of(g, pn, k, j, o).contains(p);
                assert(influence(g, pn, o).contains(p));
            }
        },
        None => {},
    }
}

/// Issues are equal when every field is.
pub open spec fn same_issue(a: IssueView, b: IssueView) -> bool {
    a.output == b.output && a.node_name == b.node_name && a.operator == b.operator
        && a.input_index == b.input_index && a.capability == b.capability && a.parameters == b.parameters
}

/// What output-specific analysis adds to an initializer report.
pub open spec fn paths_analyzed(g: OnnxGraph, outs: Seq<Seq<char>>, before: ReportView, after: ReportView) -> bool {
    let pn = params_of(before.initializers);
    let req = requested(outs, arg_names(g.outputs@), outs.len() as int);
    let sel = req.0;
    let all = pn.map_values(|p: (InitializerKey, Seq<char>)| p.1).to_set();
    &&& after.initializers == before.initializers
    &&& after.role_errors == before.role_errors
    &&& after.complete
    &&& after.selected == sel
    &&& after.errors == before.errors + req.1 + (if outs.len() == 0 { seq![msg_no_output()] } else { Seq::empty() })
    &&& after.output_parameters.len() == sel.len()
    &&& forall|i: int| 0 <= i < sel.len() ==> {
        &&& (#[trigger] after.output_parameters[i]).0 == sel[i]
        &&& sorted_strict(after.output_parameters[i].1)
        &&& after.output_parameters[i].1.to_set() == influence(g, pn, sel[i])
    }
    &&& sorted_strict(after.unused)
    &&& after.unused.to_set() == all.difference(used_params(g, pn, sel, sel.len() as int))
    &&& after.warnings == before.warnings + not_influenced_warnings(g, pn, sel, sel.len() as int)
        + after.unused.map_values(|p: Seq<char>| msg_unused_parameter(p))
    &&& forall|i: int| 0 <= i < after.issues.len() ==> sel.contains((#[trigger] after.issues[i]).output)
        && slice_issue(g, pn, after.issues[i])
    &&& forall|o: Seq<char>, v: Seq<char>| sel.contains(o) && #[trigger] on_slice(g, pn, o, v) ==> covered(after.issues, g, pn, o, v)
    &&& forall|i: int, j: int| 0 <= i < j < after.issues.len() ==> !same_issue(#[trigger] after.issues[i], #[trigger] after.issues[j])
}


pub open spec fn pn_view(v: Seq<(InitializerId, String)>) -> Seq<(InitializerKey, Seq<char>)> {
    v.map_values(|p: (InitializerId, String)| (id_key(p.0), p.1@))
}

fn parameter_names(inits: &Vec<InitializerReport>) -> (r: Vec<(InitializerId, String)>)
    ensures
        pn_view(r@) == params_of(report_views(inits@)),
{
    let mut out: Vec<(InitializerId, String)> = Vec::new();
    let mut i: usize = 0;
    proof {
        assert(report_views(inits@).take(0) =~= Seq::<InitReportView>::empty());
        assert(pn_view(out@) =~= params_of(report_views(inits@).take(0)));
    }
    while i < inits.len()
        invariant
            i <= inits.len(),
            pn_view(out@) == params_of(report_views(inits@).take(i as int)),
        decreases inits.len() - i,
    {
        let ghost prev = out@;
        proof {
            assert(report_views(inits@).take(i + 1).drop_last() =~= report_views(inits@).take(i as int));
            assert(report_views(inits@).take(i + 1).last() == report_view(inits@[i as int]));
        }
        if inits[i].role == InitializerRole::Parameter {
            out.push((clone_id(&inits[i].id), inits[i].name.clone()));
            assert(pn_view(out@) =~= pn_view(prev).push((id_key(inits@[i as int].id), inits@[i as int].name@)));
        }
        i = i + 1;
    }
    assert(report_views(inits@).take(inits.len() as int) =~= report_views(inits@));
    out
}

fn lookup_param(pn: &Vec<(InitializerId, String)>, id: &InitializerId) -> (r: Option<String>)
    ensures
        match r {
            Some(n) => key_lookup(pn_view(pn@), id_key(*id)) == Some(n@),
            None => key_lookup(pn_view(pn@), id_key(*id)) is None,
        },
{
    let mut i: usize = 0;
    proof {
        assert(pn_view(pn@).skip(0) =~= pn_view(pn@));
    }
    while i < pn.len()
        invariant
            i <= pn.len(),
            key_lookup(pn_view(pn@), id_key(*id)) == key_lookup(pn_view(pn@).skip(i as int), id_key(*id)),
        decreases pn.len() - i,
    {
        assert(pn_view(pn@).skip(i as int)[0] == pn_view(pn@)[i as int]);
        if pn[i].0.same(id) {
            return Some(pn[i].1.clone());
        }
        assert(pn_view(pn@).skip(i as int).drop_first() =~= pn_view(pn@).skip(i + 1));
        i = i + 1;
    }
    None
}

/// Value name to the sorted parameters that influence it.
pub open spec fn vp_map(l: Seq<(String, Vec<String>)>) -> Map<Seq<char>, Set<Seq<char>>> {
    Map::new(
        |n: Seq<char>| exists|i: int| 0 <= i < l.len() && l[i].0@ == n,
        |n: Seq<char>| views(l[choose|i: int| 0 <= i < l.len() && l[i].0@ == n].1@).to_set(),
    )
}

pub open spec fn vp_wf(l: Seq<(String, Vec<String>)>) -> bool {
    &&& forall|i: int, j: int| 0 <= i < j < l.len() ==> l[i].0@ != l[j].0@
    &&& forall|i: int| 0 <= i < l.len() ==> sorted_strict(views((#[trigger] l[i]).1@))
}

fn vp_find(l: &Vec<(String, Vec<String>)>, name: &str) -> (r: Option<usize>)
    requires
        vp_wf(l@),
    ensures
        match r {
            Some(i) => i < l.len() && l@[i as int].0@ == name@ && vp_map(l@).contains_key(name@)
                && vp_map(l@)[name@] == views(l@[i as int].1@).to_set(),
            None => !vp_map(l@).contains_key(name@),
        },
{
    let mut i: usize = 0;
    while i < l.len()
        invariant
            i <= l.len(),
            vp_wf(l@),
            forall|k: int| 0 <= k < i ==> l@[k].0@ != name@,
        decreases l.len() - i,
    {
        if str_eq(l[i].0.as_str(), name) {
            proof {
                assert(vp_map(l@).contains_key(name@));
                let c = choose|k: int| 0 <= k < l.len() && l@[k].0@ == name@;
                if c != i as int {
                    if c < i as int {
                    } else {
                        assert(l@[i as int].0@ != l@[c].0@);
                    }
                }
            }
            return Some(i);
        }
        i = i + 1;
    }
    None
}

fn vp_insert(l: &mut Vec<(String, Vec<String>)>, name: String, value: Vec<String>)
    requires
        vp_wf(old(l)@),
        sorted_strict(views(value@)),
    ensures
        vp_wf(final(l)@),
        vp_map(final(l)@) == vp_map(old(l)@).insert(name@, views(value@).to_set()),
{
    let ghost old_l = l@;
    let ghost n = name@;
    let ghost vs = views(value@).to_set();
    match vp_find(l, name.as_str()) {
        Some(i) => {
            l.set(i, (name, value));
            proof {
                assert forall|a: int, b: int| 0 <= a < b < l.len() implies l@[a].0@ != l@[b].0@ by {
                    if a != i as int && b != i as int {
                        assert(l@[a] == old_l[a] && l@[b] == old_l[b]);
                    } else if a == i as int {
                        assert(l@[b] == old_l[b]);
                    } else {
                        assert(l@[a] == old_l[a]);
                    }
                }
                assert forall|a: int| 0 <= a < l.len() implies sorted_strict(views((#[trigger] l@[a]).1@)) by {
                    if a != i as int {
                        assert(l@[a] == old_l[a]);
                    }
                }
                assert forall|m: Seq<char>| #[trigger] vp_map(l@).contains_key(m) == vp_map(old_l).insert(n, vs).contains_key(m) by {
                    if m != n && vp_map(old_l).contains_key(m) {
                        let c = choose|k: int| 0 <= k < old_l.len() && old_l[k].0@ == m;
                        assert(l@[c].0@ == m);
                    }
                    if vp_map(l@).contains_key(m) && m != n {
                        let c = choose|k: int| 0 <= k < l.len() && l@[k].0@ == m;
                        assert(old_l[c].0@ == m);
                    }
                    if m == n {
                        assert(l@[i as int].0@ == n);
                    }
                }
                assert forall|m: Seq<char>| #[trigger] vp_map(l@).contains_key(m) implies vp_map(l@)[m] == vp_map(old_l).insert(n, vs)[m] by {
                    let c = choose|k: int| 0 <= k < l.len() && l@[k].0@ == m;
                    if m == n {
                        assert(c == i as int);
                    } else {
                        let d = choose|k: int| 0 <= k < old_l.len() && old_l[k].0@ == m;
                        assert(c == d);
                    }
                }
                assert(vp_map(l@) =~= vp_map(old_l).insert(n, vs));
            }
        },
        None => {
            l.push((name, value));
            proof {
                assert forall|a: int, b: int| 0 <= a < b < l.len() implies l@[a].0@ != l@[b].0@ by {
                    if b < old_l.len() {
                        assert(l@[a] == old_l[a] && l@[b] == old_l[b]);
                    } else {
                        assert(l@[a] == old_l[a]);
                        assert(!vp_map(old_l).contains_key(n));
                    }
                }
                assert forall|a: int| 0 <= a < l.len() implies sorted_strict(views((#[trigger] l@[a]).1@)) by {
                    if a < old_l.len() {
                        assert(l@[a] == old_l[a]);
                    }
                }
                assert forall|m: Seq<char>| #[trigger] vp_map(l@).contains_key(m) == vp_map(old_l).insert(n, vs).contains_key(m) by {
                    if m != n && vp_map(old_l).contains_key(m) {
                        let c = choose|k: int| 0 <= k < old_l.len() && old_l[k].0@ == m;
                        assert(l@[c].0@ == m);
                    }
                    if vp_map(l@).contains_key(m) && m != n {
                        let c = choose|k: int| 0 <= k < l.len() && l@[k].0@ == m;
                        assert(old_l[c].0@ == m);
                    }
                    if m == n {
                        assert(l@[old_l.len() as int].0@ == n);
                    }
                }
                assert forall|m: Seq<char>| #[trigger] vp_map(l@).contains_key(m) implies vp_map(l@)[m] == vp_map(old_l).insert(n, vs)[m] by {
                    let c = choose|k: int| 0 <= k < l.len() && l@[k].0@ == m;
                    if m == n {
                        assert(!vp_map(old_l).contains_key(n));
                        assert(c == old_l.len());
                    } else {
                        let d = choose|k: int| 0 <= k < old_l.len() && old_l[k].0@ == m;
                        assert(c == d);
                    }
                }
                assert(vp_map(l@) =~= vp_map(old_l).insert(n, vs));
            }
        },
    }
}

/// Parameters reaching input `j` of node `k`, sorted.
fn params_for_argument(
    g: &OnnxGraph,
    k: usize,
    j: usize,
    pn: &Vec<(InitializerId, String)>,
    vp: &Vec<(String, Vec<String>)>,
) -> (r: Vec<String>)
    requires
        k < g.nodes.len(),
        j < g.nodes@[k as int].inputs.len(),
        vp_wf(vp@),
    ensures
        sorted_strict(views(r@)),
        views(r@).to_set() == pfa(vp_map(vp@), pn_view(pn@), *g, k as int, j as int),
{
    let a = &g.nodes[k].inputs[j];
    if source_is_embedded(a.value_source) {
        let id = InitializerId::from_argument(a, k, j);
        match id {
            Some(id) => match lookup_param(pn, &id) {
                Some(n) => {
                    let mut out = Vec::new();
                    let ghost nv = n@;
                    out.push(n);
                    proof {
                        assert(views(out@) =~= seq![nv]);
                        assert(seq![nv].to_set() =~= Set::<Seq<char>>::empty().insert(nv)) by {
                            Seq::<Seq<char>>::empty().lemma_push_to_set_commute(nv);
                            assert(Seq::<Seq<char>>::empty().push(nv) =~= seq![nv]);
                            assert(Seq::<Seq<char>>::empty().to_set() =~= Set::<Seq<char>>::empty());
                        }
                    }
                    return out;
                },
                None => {},
            },
            None => {},
        }
    }
    match vp_find(vp, a.name.as_str()) {
        Some(i) => {
            assert(sorted_strict(views(vp@[i as int].1@)));
            crate::text::clone_strings(&vp[i].1)
        },
        None => {
            let out: Vec<String> = Vec::new();
            assert(views(out@).to_set() =~= Set::<Seq<char>>::empty());
            out
        },
    }
}


fn build_value_parameters(g: &OnnxGraph, pn: &Vec<(InitializerId, String)>) -> (vp: Vec<(String, Vec<String>)>)
    ensures
        vp_wf(vp@),
        vp_map(vp@) == vp_upto(*g, pn_view(pn@), g.nodes.len() as int),
{
    let ghost pnv = pn_view(pn@);
    let mut vp: Vec<(String, Vec<String>)> = Vec::new();
    assert(vp_map(vp@) =~= vp_upto(*g, pnv, 0));
    let mut k: usize = 0;
    while k < g.nodes.len()
        invariant
            k <= g.nodes.len(),
            pnv == pn_view(pn@),
            vp_wf(vp@),
            vp_map(vp@) == vp_upto(*g, pnv, k as int),
        decreases g.nodes.len() - k,
    {
        let node = &g.nodes[k];
        let ghost m = vp_map(vp@);
        let mut params: Vec<String> = Vec::new();
        assert(views(params@).to_set() =~= node_params(m, pnv, *g, k as int, 0));
        let mut j: usize = 0;
        while j < node.inputs.len()
            invariant
                k < g.nodes.len(),
                *node == g.nodes@[k as int],
                j <= node.inputs.len(),
                pnv == pn_view(pn@),
                vp_wf(vp@),
                m == vp_map(vp@),
                sorted_strict(views(params@)),
                views(params@).to_set() == node_params(m, pnv, *g, k as int, j as int),
            decreases node.inputs.len() - j,
        {
            let a = params_for_argument(g, k, j, pn, &vp);
            crate::text::union_into(&mut params, &a);
            j = j + 1;
        }
        let ghost p = views(params@).to_set();
        let mut o: usize = 0;
        while o < node.outputs.len()
            invariant
                k < g.nodes.len(),
                *node == g.nodes@[k as int],
                o <= node.outputs.len(),
                vp_wf(vp@),
                sorted_strict(views(params@)),
                p == views(params@).to_set(),
                vp_map(vp@) == outs_insert(m, *node, p, o as int),
            decreases node.outputs.len() - o,
        {
            let name = &node.outputs[o].name;
            if name.as_str().unicode_len() > 0 {
                vp_insert(&mut vp, name.clone(), crate::text::clone_strings(&params));
            }
            o = o + 1;
        }
        k = k + 1;
    }
    vp
}

/// The node output that produces a value among the outputs before output `o` of
/// node `k`: the last one in graph order with that (non-empty) name.
pub open spec fn producer_upto(g: OnnxGraph, name: Seq<char>, k: int, o: int) -> Option<(int, int)>
    decreases k, o,
{
    if k <= 0 && o <= 0 {
        None
    } else if o <= 0 {
        producer_upto(g, name, k - 1, g.nodes@[k - 1].outputs.len() as int)
    } else {
        let out = g.nodes@[k].outputs@[o - 1];
        if out.name@.len() > 0 && out.name@ == name {
            Some((k, o - 1))
        } else {
            producer_upto(g, name, k, o - 1)
        }
    }
}

/// The node output that produces a named value: the last in graph order.
pub open spec fn producer(g: OnnxGraph, name: Seq<char>) -> Option<(int, int)> {
    producer_upto(g, name, g.nodes.len() as int, 0)
}

proof fn lemma_producer_valid(g: OnnxGraph, name: Seq<char>, k: int, o: int)
    requires
        0 <= k <= g.nodes.len(),
        k < g.nodes.len() ==> 0 <= o <= g.nodes@[k].outputs.len(),
        k == g.nodes.len() ==> o == 0,
    ensures
        producer_upto(g, name, k, o) matches Some((a, b)) ==> 0 <= a < g.nodes.len() && 0 <= b < g.nodes@[a].outputs.len()
            && g.nodes@[a].outputs@[b].name@ == name && name.len() > 0,
    decreases k, o,
{
    if k <= 0 && o <= 0 {
    } else if o <= 0 {
        lemma_producer_valid(g, name, k - 1, g.nodes@[k - 1].outputs.len() as int);
    } else {
        lemma_producer_valid(g, name, k, o - 1);
    }
}

/// Producer of each named value: node index and output position.
pub open spec fn producers_wf(g: OnnxGraph, l: Seq<(String, usize, usize)>) -> bool {
    &&& forall|i: int| 0 <= i < l.len() ==> {
        &&& (#[trigger] l[i]).1 < g.nodes.len()
        &&& l[i].2 < g.nodes@[l[i].1 as int].outputs.len()
        &&& g.nodes@[l[i].1 as int].outputs@[l[i].2 as int].name@ == l[i].0@
    }
}

/// The list holds, once per name, the producer of every value named by the outputs
/// before output `o` of node `k`.
pub open spec fn producers_upto(g: OnnxGraph, l: Seq<(String, usize, usize)>, k: int, o: int) -> bool {
    &&& forall|i: int| 0 <= i < l.len() ==> producer_upto(g, (#[trigger] l[i]).0@, k, o) == Some((l[i].1 as int, l[i].2 as int))
    &&& forall|name: Seq<char>| #[trigger] producer_upto(g, name, k, o) is Some ==> exists|i: int| 0 <= i < l.len() && (#[trigger] l[i]).0@ == name
    &&& forall|i: int, j: int| 0 <= i < j < l.len() ==> (#[trigger] l[i]).0@ != (#[trigger] l[j]).0@
}

fn build_producers(g: &OnnxGraph) -> (r: Vec<(String, usize, usize)>)
    ensures
        producers_wf(*g, r@),
        producers_upto(*g, r@, g.nodes.len() as int, 0),
{
    let mut out: Vec<(String, usize, usize)> = Vec::new();
    let mut k: usize = 0;
    while k < g.nodes.len()
        invariant
            k <= g.nodes.len(),
            producers_wf(*g, out@),
            producers_upto(*g, out@, k as int, 0),
        decreases g.nodes.len() - k,
    {
        let node = &g.nodes[k];
        let mut o: usize = 0;
        while o < node.outputs.len()
            invariant
                k < g.nodes.len(),
                *node == g.nodes@[k as int],
                o <= node.outputs.len(),
                producers_wf(*g, out@),
                producers_upto(*g, out@, k as int, o as int),
            decreases node.outputs.len() - o,
        {
            let name = &node.outputs[o].name;
            let ghost pre = out@;
            if name.as_str().unicode_len() > 0 {
                let nm = name.clone();
                assert(nm@ == g.nodes@[k as int].outputs@[o as int].name@);
                let ghost mut at: int = 0;
                match find_producer(&out, name.as_str()) {
                    Some(i) => {
                        out.set(i, (nm, k, o));
                        proof {
                            at = i as int;
                        }
                    },
                    None => {
                        out.push((nm, k, o));
                        proof {
                            at = pre.len() as int;
                        }
                    },
                }
                proof {
                    assert(0 <= at < out@.len() && out@[at].0@ == nm@);
                    assert forall|x: int| 0 <= x < out.len() implies {
                        &&& (#[trigger] out@[x]).1 < g.nodes.len()
                        &&& out@[x].2 < g.nodes@[out@[x].1 as int].outputs.len()
                        &&& g.nodes@[out@[x].1 as int].outputs@[out@[x].2 as int].name@ == out@[x].0@
                    } by {
                        if x < pre.len() && out@[x] == pre[x] {
                        }
                    }
                    assert forall|x: int| 0 <= x < out@.len() implies producer_upto(*g, (#[trigger] out@[x]).0@, k as int, o + 1)
                        == Some((out@[x].1 as int, out@[x].2 as int)) by {
                        if out@[x].0@ != nm@ {
                            assert(out@[x] == pre[x]);
                        }
                    }
                    assert forall|n: Seq<char>| #[trigger] producer_upto(*g, n, k as int, o + 1) is Some
                        implies exists|x: int| 0 <= x < out@.len() && (#[trigger] out@[x]).0@ == n by {
                        if n == nm@ {
                            assert(out@[at].0@ == n);
                        } else {
                            assert(producer_upto(*g, n, k as int, o as int) is Some);
                            let x = choose|x: int| 0 <= x < pre.len() && (#[trigger] pre[x]).0@ == n;
                            assert(out@[x] == pre[x]);
                        }
                    }
                    assert forall|x: int, y: int| 0 <= x < y < out@.len() implies (#[trigger] out@[x]).0@ != (#[trigger] out@[y]).0@ by {
                        if x < pre.len() && y < pre.len() {
                            if out@[x] != pre[x] {
                                assert(pre[y].0@ != pre[x].0@);
                            } else if out@[y] != pre[y] {
                                assert(pre[y].0@ != pre[x].0@);
                            }
                        }
                    }
                }
            } else {
                proof {
                    assert forall|x: int| 0 <= x < out@.len() implies producer_upto(*g, (#[trigger] out@[x]).0@, k as int, o + 1)
                        == Some((out@[x].1 as int, out@[x].2 as int)) by {
                    }
                    assert forall|n: Seq<char>| #[trigger] producer_upto(*g, n, k as int, o + 1) is Some
                        implies exists|x: int| 0 <= x < out@.len() && (#[trigger] out@[x]).0@ == n by {
                        assert(producer_upto(*g, n, k as int, o as int) is Some);
                    }
                }
            }
            o = o + 1;
        }
        proof {
            assert forall|n: Seq<char>| #[trigger] producer_upto(*g, n, k + 1, 0) == producer_upto(*g, n, k as int, g.nodes@[k as int].outputs.len() as int) by {}
            assert forall|x: int| 0 <= x < out@.len() implies producer_upto(*g, (#[trigger] out@[x]).0@, k + 1, 0)
                == Some((out@[x].1 as int, out@[x].2 as int)) by {
                assert(producer_upto(*g, out@[x].0@, k + 1, 0) == producer_upto(*g, out@[x].0@, k as int, g.nodes@[k as int].outputs.len() as int));
            }
            assert forall|n: Seq<char>| #[trigger] producer_upto(*g, n, k + 1, 0) is Some
                implies exists|x: int| 0 <= x < out@.len() && (#[trigger] out@[x]).0@ == n by {
                assert(producer_upto(*g, n, k + 1, 0) == producer_upto(*g, n, k as int, g.nodes@[k as int].outputs.len() as int));
            }
        }
        k = k + 1;
    }
    out
}

fn find_producer(l: &Vec<(String, usize, usize)>, name: &str) -> (r: Option<usize>)
    ensures
        match r {
            Some(i) => i < l.len() && l@[i as int].0@ == name@,
            None => forall|i: int| 0 <= i < l.len() ==> (#[trigger] l@[i]).0@ != name@,
        },
{
    let mut i: usize = 0;
    while i < l.len()
        invariant
            i <= l.len(),
            forall|x: int| 0 <= x < i ==> (#[trigger] l@[x]).0@ != name@,
        decreases l.len() - i,
    {
        if str_eq(l[i].0.as_str(), name) {
            return Some(i);
        }
        i = i + 1;
    }
    None
}


/// Names of node inputs in graph order: every input before input `j` of node `k`.
pub open spec fn input_names_upto(g: OnnxGraph, k: int, j: int) -> Seq<Seq<char>>
    decreases k, j,
{
    if k <= 0 && j <= 0 {
        Seq::empty()
    } else if j <= 0 {
        input_names_upto(g, k - 1, g.nodes@[k - 1].inputs.len() as int)
    } else {
        input_names_upto(g, k, j - 1).push(g.nodes@[k].inputs@[j - 1].name@)
    }
}

pub open spec fn input_names(g: OnnxGraph) -> Seq<Seq<char>> {
    input_names_upto(g, g.nodes.len() as int, 0)
}

proof fn lemma_input_names_upto(g: OnnxGraph, k: int, j: int)
    requires
        0 <= k <= g.nodes.len(),
        k < g.nodes.len() ==> 0 <= j <= g.nodes@[k].inputs.len(),
        k == g.nodes.len() ==> j == 0,
    ensures
        forall|a: int, b: int|
            0 <= a < k && 0 <= b < g.nodes@[a].inputs.len() ==> input_names_upto(g, k, j).contains(#[trigger] g.nodes@[a].inputs@[b].name@),
        forall|b: int| 0 <= b < j ==> input_names_upto(g, k, j).contains(#[trigger] g.nodes@[k].inputs@[b].name@),
    decreases k, j,
{
    if k <= 0 && j <= 0 {
    } else if j <= 0 {
        lemma_input_names_upto(g, k - 1, g.nodes@[k - 1].inputs.len() as int);
    } else {
        lemma_input_names_upto(g, k, j - 1);
        let prev = input_names_upto(g, k, j - 1);
        let x = g.nodes@[k].inputs@[j - 1].name@;
        assert(prev.push(x)[prev.len() as int] == x);
        assert forall|a: int, b: int| 0 <= a < k && 0 <= b < g.nodes@[a].inputs.len() implies input_names_upto(g, k, j).contains(#[trigger] g.nodes@[a].inputs@[b].name@) by {
            let y = g.nodes@[a].inputs@[b].name@;
            let w = choose|w: int| 0 <= w < prev.len() && prev[w] == y;
            assert(prev.push(x)[w] == y);
        }
        assert forall|b: int| 0 <= b < j implies input_names_upto(g, k, j).contains(#[trigger] g.nodes@[k].inputs@[b].name@) by {
            let y = g.nodes@[k].inputs@[b].name@;
            if b < j - 1 {
                let w = choose|w: int| 0 <= w < prev.len() && prev[w] == y;
                assert(prev.push(x)[w] == y);
            }
        }
    }
}

fn issue_eq(a: &BackwardPathIssue, b: &BackwardPathIssue) -> (r: bool)
    ensures
        r == same_issue(issue_view(*a), issue_view(*b)),
{
    if !str_eq(a.output.as_str(), b.output.as_str()) || !str_eq(a.node_name.as_str(), b.node_name.as_str())
        || !str_eq(a.operator.as_str(), b.operator.as_str()) || a.input_index != b.input_index
        || a.capability != b.capability || a.parameters.len() != b.parameters.len() {
        proof {
            if a.parameters.len() != b.parameters.len() {
                assert(views(a.parameters@).len() != views(b.parameters@).len());
            }
        }
        return false;
    }
    let mut i: usize = 0;
    while i < a.parameters.len()
        invariant
            i <= a.parameters.len(),
            a.parameters.len() == b.parameters.len(),
            forall|k: int| 0 <= k < i ==> a.parameters@[k]@ == b.parameters@[k]@,
        decreases a.parameters.len() - i,
    {
        if !str_eq(a.parameters[i].as_str(), b.parameters[i].as_str()) {
            assert(views(a.parameters@)[i as int] != views(b.parameters@)[i as int]);
            return false;
        }
        i = i + 1;
    }
    assert(views(a.parameters@) =~= views(b.parameters@));
    true
}

fn issues_contain(issues: &Vec<BackwardPathIssue>, x: &BackwardPathIssue) -> (r: bool)
    ensures
        r == exists|i: int| 0 <= i < issues.len() && same_issue(#[trigger] issue_views(issues@)[i], issue_view(*x)),
{
    let mut i: usize = 0;
    while i < issues.len()
        invariant
            i <= issues.len(),
            forall|k: int| 0 <= k < i ==> !same_issue(#[trigger] issue_views(issues@)[k], issue_view(*x)),
        decreases issues.len() - i,
    {
        if issue_eq(&issues[i], x) {
            assert(same_issue(issue_views(issues@)[i as int], issue_view(*x)));
            return true;
        }
        i = i + 1;
    }
    false
}

pub open spec fn issues_ok(g: OnnxGraph, pn: Seq<(InitializerKey, Seq<char>)>, s: Seq<IssueView>) -> bool {
    &&& forall|i: int| 0 <= i < s.len() ==> slice_issue(g, pn, #[trigger] s[i])
    &&& forall|i: int, j: int| 0 <= i < j < s.len() ==> !same_issue(#[trigger] s[i], #[trigger] s[j])
}

/// Walk the backward slice of one output and record the blocked edges on it.
fn trace_output(
    g: &OnnxGraph,
    pn: &Vec<(InitializerId, String)>,
    vp: &Vec<(String, Vec<String>)>,
    prods: &Vec<(String, usize, usize)>,
    output: &String,
    influencing: &Vec<String>,
    issues: &mut Vec<BackwardPathIssue>,
)
    requires
        vp_wf(vp@),
        vp_map(vp@) == vp_upto(*g, pn_view(pn@), g.nodes.len() as int),
        producers_wf(*g, prods@),
        producers_upto(*g, prods@, g.nodes.len() as int, 0),
        views(influencing@).to_set() == influence(*g, pn_view(pn@), output@),
        issues_ok(*g, pn_view(pn@), issue_views(old(issues)@)),
    ensures
        issues_ok(*g, pn_view(pn@), issue_views(final(issues)@)),
        final(issues)@.len() >= old(issues)@.len(),
        forall|i: int| 0 <= i < old(issues)@.len() ==> issue_views(final(issues)@)[i] == issue_views(old(issues)@)[i],
        forall|i: int| old(issues)@.len() <= i < final(issues)@.len() ==> (#[trigger] issue_views(final(issues)@)[i]).output == output@,
        forall|v: Seq<char>| #[trigger] on_slice(*g, pn_view(pn@), output@, v) ==> covered(issue_views(final(issues)@), *g, pn_view(pn@), output@, v),
{
    let ghost pnv = pn_view(pn@);
    let ghost o = output@;
    let ghost universe = input_names(*g).push(output@).to_set();
    proof {
        lemma_input_names_upto(*g, g.nodes.len() as int, 0);
        vstd::seq_lib::seq_to_set_is_finite(input_names(*g).push(output@));
        assert(reached(*g, pnv, o, 0).contains(o));
    }
    let ghost start = issue_views(issues@);
    let mut queue: Vec<String> = Vec::new();
    queue.push(output.clone());
    let mut head: usize = 0;
    let mut visited: Vec<String> = Vec::new();
    proof {
        assert(views(visited@).to_set() =~= Set::<Seq<char>>::empty());
        assert(input_names(*g).push(output@)[input_names(*g).len() as int] == output@);
    }
    while head < queue.len()
        invariant
            head <= queue.len(),
            queue.len() > 0,
            queue@[0]@ == o,
            o == output@,
            pnv == pn_view(pn@),
            universe == input_names(*g).push(output@).to_set(),
            universe.finite(),
            forall|a: int, b: int|
                0 <= a < g.nodes.len() && 0 <= b < g.nodes@[a].inputs.len() ==> input_names(*g).contains(#[trigger] g.nodes@[a].inputs@[b].name@),
            forall|q: int| 0 <= q < queue.len() ==> universe.contains(#[trigger] queue@[q]@),
            forall|q: int| 0 <= q < queue.len() ==> on_slice(*g, pnv, o, #[trigger] queue@[q]@),
            forall|q: int| 0 <= q < head ==> views(visited@).contains(#[trigger] queue@[q]@),
            forall|x: Seq<char>| #[trigger] views(visited@).contains(x) ==> {
                &&& on_slice(*g, pnv, o, x)
                &&& covered(issue_views(issues@), *g, pnv, o, x)
                &&& forall|w: Seq<char>| #[trigger] flows_into(*g, pnv, o, x, w) ==> views(queue@).contains(w)
            },
            views(visited@).no_duplicates(),
            views(visited@).to_set().subset_of(universe),
            visited.len() <= universe.len(),
            vp_wf(vp@),
            vp_map(vp@) == vp_upto(*g, pnv, g.nodes.len() as int),
            producers_wf(*g, prods@),
            producers_upto(*g, prods@, g.nodes.len() as int, 0),
            views(influencing@).to_set() == influence(*g, pnv, o),
            issues_ok(*g, pnv, issue_views(issues@)),
            issues@.len() >= start.len(),
            forall|i: int| 0 <= i < start.len() ==> issue_views(issues@)[i] == start[i],
            forall|i: int| start.len() <= i < issues@.len() ==> (#[trigger] issue_views(issues@)[i]).output == o,
        decreases universe.len() - visited.len(), queue.len() - head,
    {
        let v = queue[head].clone();
        let ghost vq = head as int;
        let ghost vis_start = views(visited@);
        let ghost queue_start = views(queue@);
        assert forall|q: int| 0 <= q < vq implies vis_start.contains(#[trigger] queue_start[q]) by {
            assert(queue_start[q] == queue@[q]@);
        }
        head = head + 1;
        if !contains_text(&visited, v.as_str()) {
            assert(universe.contains(v@));
            assert(on_slice(*g, pnv, o, queue@[vq]@));
            let ghost queue_before = views(queue@);
            let ghost issues_before = issue_views(issues@);
            let found = find_producer(prods, v.as_str());
            match found {
                None => {
                    proof {
                        if producer(*g, v@) is Some {
                            let x = choose|x: int| 0 <= x < prods@.len() && (#[trigger] prods@[x]).0@ == v@;
                        }
                    }
                },
                Some(pi) => {
                    let ni = prods[pi].1;
                    let oi = prods[pi].2;
                    assert(producer(*g, v@) == Some((ni as int, oi as int)));
                    let node = &g.nodes[ni];
                    let mut j: usize = 0;
                    while j < node.inputs.len()
                        invariant
                            ni < g.nodes.len(),
                            *node == g.nodes@[ni as int],
                            oi < node.outputs.len(),
                            producer(*g, v@) == Some((ni as int, oi as int)),
                            on_slice(*g, pnv, o, v@),
                            j <= node.inputs.len(),
                            head <= queue.len(),
                            queue.len() > 0,
                            queue@[0]@ == o,
                            o == output@,
                            pnv == pn_view(pn@),
                            universe == input_names(*g).push(output@).to_set(),
                            forall|a: int, b: int|
                                0 <= a < g.nodes.len() && 0 <= b < g.nodes@[a].inputs.len() ==> input_names(*g).contains(#[trigger] g.nodes@[a].inputs@[b].name@),
                            forall|q: int| 0 <= q < queue.len() ==> universe.contains(#[trigger] queue@[q]@),
                            forall|q: int| 0 <= q < queue.len() ==> on_slice(*g, pnv, o, #[trigger] queue@[q]@),
                            queue@.len() >= queue_before.len(),
                            forall|q: int| 0 <= q < queue_before.len() ==> #[trigger] views(queue@)[q] == queue_before[q],
                            issues@.len() >= issues_before.len(),
                            forall|i: int| 0 <= i < issues_before.len() ==> #[trigger] issue_views(issues@)[i] == issues_before[i],
                            forall|jj: int| 0 <= jj < j && #[trigger] passes_back(*g, pnv, o, ni as int, oi as int, jj)
                                ==> views(queue@).contains(g.nodes@[ni as int].inputs@[jj].name@),
                            forall|jj: int| 0 <= jj < j && #[trigger] blocks(*g, pnv, o, ni as int, oi as int, jj)
                                ==> edge_reported(issue_views(issues@), *g, pnv, o, ni as int, oi as int, jj),
                            vp_wf(vp@),
                            vp_map(vp@) == vp_upto(*g, pnv, g.nodes.len() as int),
                            views(influencing@).to_set() == influence(*g, pnv, o),
                            issues_ok(*g, pnv, issue_views(issues@)),
                            issues@.len() >= start.len(),
                            forall|i: int| 0 <= i < start.len() ==> issue_views(issues@)[i] == start[i],
                            forall|i: int| start.len() <= i < issues@.len() ==> (#[trigger] issue_views(issues@)[i]).output == o,
                        decreases node.inputs.len() - j,
                    {
                        let up_all = params_for_argument(g, ni, j, pn, vp);
                        let upstream = filter_sorted(&up_all, influencing, true);
                        proof {
                            assert(views(upstream@).to_set() == upstream_of(*g, pnv, ni as int, j as int, o));
                            if nonempty(upstream_of(*g, pnv, ni as int, j as int, o)) {
                                let p = choose|p: Seq<char>| upstream_of(*g, pnv, ni as int, j as int, o).contains(p);
                                assert(views(upstream@).contains(p));
                            }
                            if upstream.len() > 0 {
                                assert(views(upstream@).to_set().contains(views(upstream@)[0]));
                            }
                        }
                        if upstream.len() > 0 {
                            let cap = BackwardSupportRegistry::input_capability(node, oi, j);
                            if cap.is_differentiable() {
                                let input = &node.inputs[j];
                                if input.value_source == ValueSource::Dynamic && input.name.as_str().unicode_len() > 0 {
                                    let ghost q0 = views(queue@);
                                    queue.push(input.name.clone());
                                    proof {
                                        assert(views(queue@) =~= q0.push(input.name@));
                                        assert(passes_back(*g, pnv, o, ni as int, oi as int, j as int));
                                        assert(g.nodes@[ni as int].inputs@[j as int].name@ == input.name@);
                                        assert(exists|jj: int| #[trigger] passes_back(*g, pnv, o, ni as int, oi as int, jj)
                                            && g.nodes@[ni as int].inputs@[jj].name@ == input.name@);
                                        assert(producer(*g, v@) == Some((ni as int, oi as int)));
                                        assert(producer(*g, v@) matches Some((k2, o2)) && k2 == ni && o2 == oi);
                                        assert(flows_into(*g, pnv, o, v@, input.name@));
                                        lemma_slice_step(*g, pnv, o, v@, input.name@);
                                        assert(input_names(*g).contains(g.nodes@[ni as int].inputs@[j as int].name@));
                                        let w = choose|w: int| 0 <= w < input_names(*g).len() && input_names(*g)[w] == input.name@;
                                        assert(input_names(*g).push(output@)[w] == input.name@);
                                        assert forall|q: int| 0 <= q < queue.len() implies universe.contains(#[trigger] queue@[q]@)
                                            && on_slice(*g, pnv, o, queue@[q]@) by {
                                            if q < q0.len() {
                                                assert(queue@[q]@ == q0[q]);
                                            }
                                        }
                                        assert(views(queue@)[q0.len() as int] == input.name@);
                                        assert forall|jj: int| 0 <= jj < j + 1 && #[trigger] passes_back(*g, pnv, o, ni as int, oi as int, jj)
                                            implies views(queue@).contains(g.nodes@[ni as int].inputs@[jj].name@) by {
                                            if jj < j {
                                                let q = choose|q: int| 0 <= q < q0.len() && q0[q] == g.nodes@[ni as int].inputs@[jj].name@;
                                                assert(views(queue@)[q] == q0[q]);
                                            }
                                        }
                                    }
                                }
                            } else {
                                let issue = BackwardPathIssue {
                                    output: output.clone(),
                                    node_name: node.name.clone(),
                                    operator: node.kind.name(),
                                    input_index: j,
                                    capability: cap,
                                    parameters: upstream,
                                };
                                proof {
                                    let iv = issue_view(issue);
                                    assert(blocks(*g, pnv, o, ni as int, oi as int, j as int));
                                    assert(reports_edge(iv, *g, pnv, o, ni as int, oi as int, j as int));
                                    assert(issue_at(*g, pnv, iv, v@, j as int));
                                    assert(slice_issue(*g, pnv, iv));
                                }
                                if !issues_contain(issues, &issue) {
                                    let ghost i0 = issue_views(issues@);
                                    let ghost iv = issue_view(issue);
                                    issues.push(issue);
                                    proof {
                                        assert(issue_views(issues@) =~= i0.push(iv));
                                        assert forall|a: int, b: int| 0 <= a < b < issue_views(issues@).len() implies !same_issue(#[trigger] issue_views(issues@)[a], #[trigger] issue_views(issues@)[b]) by {
                                            if b == i0.len() {
                                                assert(issue_views(issues@)[a] == i0[a]);
                                            } else {
                                                assert(issue_views(issues@)[a] == i0[a]);
                                                assert(issue_views(issues@)[b] == i0[b]);
                                            }
                                        }
                                        assert forall|a: int| 0 <= a < issue_views(issues@).len() implies slice_issue(*g, pnv, #[trigger] issue_views(issues@)[a]) by {
                                            if a < i0.len() {
                                                assert(issue_views(issues@)[a] == i0[a]);
                                            }
                                        }
                                        assert(reports_edge(issue_views(issues@)[i0.len() as int], *g, pnv, o, ni as int, oi as int, j as int));
                                        assert forall|jj: int| 0 <= jj < j + 1 && #[trigger] blocks(*g, pnv, o, ni as int, oi as int, jj)
                                            implies edge_reported(issue_views(issues@), *g, pnv, o, ni as int, oi as int, jj) by {
                                            if jj < j {
                                                let i = choose|i: int| 0 <= i < i0.len() && reports_edge(#[trigger] i0[i], *g, pnv, o, ni as int, oi as int, jj);
                                                assert(issue_views(issues@)[i] == i0[i]);
                                            }
                                        }
                                    }
                                } else {
                                    proof {
                                        let iv = issue_view(issue);
                                        let i = choose|i: int| 0 <= i < issues.len() && same_issue(#[trigger] issue_views(issues@)[i], iv);
                                        assert(issue_views(issues@)[i] == iv);
                                        assert(edge_reported(issue_views(issues@), *g, pnv, o, ni as int, oi as int, j as int));
                                    }
                                }
                            }
                        }
                        j = j + 1;
                    }
                },
            }
            let ghost vis0 = views(visited@);
            visited.push(v.clone());
            proof {
                assert(views(visited@) =~= vis0.push(v@));
                vis0.lemma_push_to_set_commute(v@);
                assert forall|a: int, b: int| 0 <= a < b < views(visited@).len() implies views(visited@)[a] != views(visited@)[b] by {
                    if b == vis0.len() {
                        assert(vis0.contains(vis0[a]));
                    }
                }
                views(visited@).unique_seq_to_set();
                vstd::set_lib::lemma_len_subset(views(visited@).to_set(), universe);
                assert forall|x: Seq<char>| #[trigger] views(visited@).contains(x) implies {
                    &&& on_slice(*g, pnv, o, x)
                    &&& covered(issue_views(issues@), *g, pnv, o, x)
                    &&& forall|w: Seq<char>| #[trigger] flows_into(*g, pnv, o, x, w) ==> views(queue@).contains(w)
                } by {
                    if x == v@ {
                        match producer(*g, v@) {
                            Some((k, oi)) => {
                                assert forall|w: Seq<char>| #[trigger] flows_into(*g, pnv, o, x, w) implies views(queue@).contains(w) by {
                                    let jj = choose|jj: int| #[trigger] passes_back(*g, pnv, o, k, oi, jj) && g.nodes@[k].inputs@[jj].name@ == w;
                                }
                            },
                            None => {},
                        }
                    } else {
                        let i = choose|i: int| 0 <= i < vis0.len() && vis0[i] == x;
                        assert(vis0.contains(x));
                        lemma_covered_grows(issues_before, issue_views(issues@), *g, pnv, o, x);
                        assert forall|w: Seq<char>| #[trigger] flows_into(*g, pnv, o, x, w) implies views(queue@).contains(w) by {
                            assert(queue_before.contains(w));
                            let q = choose|q: int| 0 <= q < queue_before.len() && queue_before[q] == w;
                            assert(views(queue@)[q] == queue_before[q]);
                        }
                    }
                }
                assert forall|q: int| 0 <= q < head implies views(visited@).contains(#[trigger] queue@[q]@) by {
                    assert(views(queue@)[q] == queue@[q]@);
                    assert(views(queue@)[q] == queue_before[q]);
                    assert(queue_before[q] == queue_start[q]);
                    if q < vq {
                        assert(vis_start.contains(queue_start[q]));
                        assert(vis0 == vis_start);
                        let i = choose|i: int| 0 <= i < vis0.len() && vis0[i] == queue_start[q];
                        assert(views(visited@)[i] == vis0[i]);
                    } else {
                        assert(queue_start[q] == v@);
                        assert(views(visited@)[vis0.len() as int] == v@);
                    }
                }
            }
        }
    }
    proof {
        let sv = views(visited@);
        assert(sv.contains(queue@[0]@));
        assert forall|q: int| 0 <= q < views(queue@).len() implies sv.contains(#[trigger] views(queue@)[q]) by {
            assert(views(queue@)[q] == queue@[q]@);
        }
        assert forall|v: Seq<char>| #[trigger] on_slice(*g, pnv, o, v) implies covered(issue_views(issues@), *g, pnv, o, v) by {
            let n = choose|n: nat| #[trigger] reached(*g, pnv, o, n).contains(v);
            lemma_reached_visited(*g, pnv, o, sv, views(queue@), n);
        }
    }
}


fn text_msg_undeclared(o: &str) -> (r: String)
    ensures
        r@ == msg_undeclared(o@),
{
    let mut s = owned("requested output '");
    s.append(o);
    s.append("' is not a declared graph output");
    s
}

fn text_msg_not_influenced(o: &str) -> (r: String)
    ensures
        r@ == msg_not_influenced(o@),
{
    let mut s = owned("requested output '");
    s.append(o);
    s.append("' is not influenced by any selected trainable parameter");
    s
}

fn text_msg_unused_parameter(p: &str) -> (r: String)
    ensures
        r@ == msg_unused_parameter(p@),
{
    let mut s = owned("selected trainable parameter '");
    s.append(p);
    s.append("' is unused by the requested outputs");
    s
}

/// Whether a name is one of the graph's declared outputs.
fn declares_output(g: &OnnxGraph, name: &str) -> (r: bool)
    ensures
        r == arg_names(g.outputs@).contains(name@),
{
    let ghost names = arg_names(g.outputs@);
    let mut i: usize = 0;
    while i < g.outputs.len()
        invariant
            i <= g.outputs.len(),
            names == arg_names(g.outputs@),
            forall|k: int| 0 <= k < i ==> names[k] != name@,
        decreases g.outputs.len() - i,
    {
        if str_eq(g.outputs[i].name.as_str(), name) {
            assert(names[i as int] == name@);
            return true;
        }
        i = i + 1;
    }
    false
}

pub open spec fn strs_view(s: Seq<&str>) -> Seq<Seq<char>> {
    s.map_values(|x: &str| x@)
}

/// The parameter names of a report, as a sorted list without repeats.
fn all_parameter_names(pn: &Vec<(InitializerId, String)>) -> (r: Vec<String>)
    ensures
        sorted_strict(views(r@)),
        views(r@).to_set() == pn_view(pn@).map_values(|p: (InitializerKey, Seq<char>)| p.1).to_set(),
{
    let ghost names = pn_view(pn@).map_values(|p: (InitializerKey, Seq<char>)| p.1);
    let mut out: Vec<String> = Vec::new();
    let mut i: usize = 0;
    proof {
        assert(views(out@).to_set() =~= names.take(0).to_set());
    }
    while i < pn.len()
        invariant
            i <= pn.len(),
            names == pn_view(pn@).map_values(|p: (InitializerKey, Seq<char>)| p.1),
            sorted_strict(views(out@)),
            views(out@).to_set() == names.take(i as int).to_set(),
        decreases pn.len() - i,
    {
        insert_sorted(&mut out, pn[i].1.clone());
        proof {
            assert(names.take(i + 1) =~= names.take(i as int).push(names[i as int]));
            names.take(i as int).lemma_push_to_set_commute(names[i as int]);
        }
        i = i + 1;
    }
    assert(names.take(pn.len() as int) =~= names);
    out
}

/// Check the requested outputs, then trace every selected output back to the
/// parameters that influence it and record the blocked edges on the way.
fn analyze_backward_paths(g: &OnnxGraph, outputs: &[&str], report: &mut TrainabilityReport)
    requires
        old(report)@.selected.len() == 0,
        old(report)@.output_parameters.len() == 0,
        old(report)@.issues.len() == 0,
        old(report)@.unused.len() == 0,
    ensures
        paths_analyzed(*g, strs_view(outputs@), old(report)@, final(report)@),
{
    let ghost before = report@;
    let ghost outs = strs_view(outputs@);
    let ghost declared = arg_names(g.outputs@);
    report.output_analysis_complete = true;
    let mut i: usize = 0;
    proof {
        assert(views(report.errors@) =~= before.errors + requested(outs, declared, 0).1);
        assert(views(report.selected_outputs@) =~= requested(outs, declared, 0).0);
    }
    while i < outputs.len()
        invariant
            i <= outputs.len(),
            outs == strs_view(outputs@),
            declared == arg_names(g.outputs@),
            views(report.selected_outputs@) == requested(outs, declared, i as int).0,
            views(report.errors@) == before.errors + requested(outs, declared, i as int).1,
            report_views(report.initializers@) == before.initializers,
            report.role_errors == before.role_errors,
            report.output_analysis_complete,
            report.output_parameters@.len() == 0,
            report.backward_issues@.len() == 0,
            report.unused_parameters@.len() == 0,
            views(report.warnings@) == before.warnings,
        decreases outputs.len() - i,
    {
        let o: &str = outputs[i];
        assert(outs[i as int] == o@);
        if o.unicode_len() == 0 {
            push_text(&mut report.errors, owned("requested output name cannot be empty"));
            assert(views(report.errors@) =~= before.errors + requested(outs, declared, i + 1).1);
        } else if !declares_output(g, o) {
            push_text(&mut report.errors, text_msg_undeclared(o));
            assert(views(report.errors@) =~= before.errors + requested(outs, declared, i + 1).1);
        } else if !contains_text(&report.selected_outputs, o) {
            push_text(&mut report.selected_outputs, owned(o));
        }
        i = i + 1;
    }
    if outputs.len() == 0 {
        push_text(&mut report.errors, owned("at least one graph output must be selected for trainability analysis"));
    }
    proof {
        assert(views(report.errors@) =~= before.errors + requested(outs, declared, outs.len() as int).1
            + (if outs.len() == 0 { seq![msg_no_output()] } else { Seq::empty() }));
    }

    let pn = parameter_names(&report.initializers);
    let ghost pnv = pn_view(pn@);
    let vp = build_value_parameters(g, &pn);
    let prods = build_producers(g);
    let all = all_parameter_names(&pn);
    let ghost sel = views(report.selected_outputs@);
    let ghost errors_done = views(report.errors@);

    let mut used: Vec<String> = Vec::new();
    let mut s: usize = 0;
    proof {
        assert(views(used@).to_set() =~= used_params(*g, pnv, sel, 0));
        assert(views(report.warnings@) =~= before.warnings + not_influenced_warnings(*g, pnv, sel, 0));
    }
    while s < report.selected_outputs.len()
        invariant
            s <= report.selected_outputs.len(),
            sel == views(report.selected_outputs@),
            pnv == pn_view(pn@),
            pnv == params_of(before.initializers),
            vp_wf(vp@),
            vp_map(vp@) == vp_upto(*g, pnv, g.nodes.len() as int),
            producers_wf(*g, prods@),
            views(report.errors@) == errors_done,
            report_views(report.initializers@) == before.initializers,
            report.role_errors == before.role_errors,
            report.output_analysis_complete,
            report.unused_parameters@.len() == 0,
            sorted_strict(views(used@)),
            views(used@).to_set() == used_params(*g, pnv, sel, s as int),
            views(report.warnings@) == before.warnings + not_influenced_warnings(*g, pnv, sel, s as int),
            pair_views(report.output_parameters@).len() == s,
            forall|k: int| 0 <= k < s ==> {
                &&& (#[trigger] pair_views(report.output_parameters@)[k]).0 == sel[k]
                &&& sorted_strict(pair_views(report.output_parameters@)[k].1)
                &&& pair_views(report.output_parameters@)[k].1.to_set() == influence(*g, pnv, sel[k])
            },
            issues_ok(*g, pnv, issue_views(report.backward_issues@)),
            forall|k: int| 0 <= k < report.backward_issues@.len() ==> sel.contains(#[trigger] issue_views(report.backward_issues@)[k].output),
            producers_upto(*g, prods@, g.nodes.len() as int, 0),
            forall|k: int, v: Seq<char>| 0 <= k < s && #[trigger] on_slice(*g, pnv, sel[k], v)
                ==> covered(issue_views(report.backward_issues@), *g, pnv, sel[k], v),
        decreases report.selected_outputs.len() - s,
    {
        let output = report.selected_outputs[s].clone();
        assert(output@ == sel[s as int]);
        let influencing = match vp_find(&vp, output.as_str()) {
            Some(x) => crate::text::clone_strings(&vp[x].1),
            None => {
                let e: Vec<String> = Vec::new();
                assert(views(e@).to_set() =~= Set::<Seq<char>>::empty());
                e
            },
        };
        assert(views(influencing@).to_set() == influence(*g, pnv, output@));
        assert(sorted_strict(views(influencing@)));
        crate::text::union_into(&mut used, &influencing);
        let ghost op0 = pair_views(report.output_parameters@);
        report.output_parameters.push((output.clone(), crate::text::clone_strings(&influencing)));
        proof {
            assert(pair_views(report.output_parameters@) =~= op0.push((output@, views(influencing@))));
        }
        if influencing.len() == 0 {
            assert(views(influencing@).len() == 0);
            assert(views(influencing@) =~= Seq::<Seq<char>>::empty());
            assert(influence(*g, pnv, output@) =~= Set::<Seq<char>>::empty()) by {
                assert(Seq::<Seq<char>>::empty().to_set() =~= Set::<Seq<char>>::empty());
            }
            push_text(&mut report.warnings, text_msg_not_influenced(output.as_str()));
            assert(views(report.warnings@) =~= before.warnings + not_influenced_warnings(*g, pnv, sel, s + 1));
            proof {
                assert forall|k: int, v: Seq<char>| 0 <= k < s + 1 && #[trigger] on_slice(*g, pnv, sel[k], v)
                    implies covered(issue_views(report.backward_issues@), *g, pnv, sel[k], v) by {
                    if k == s {
                        lemma_uninfluenced_covered(issue_views(report.backward_issues@), *g, pnv, sel[k], v);
                    }
                }
            }
        } else {
            proof {
                assert(views(influencing@).contains(views(influencing@)[0]));
                assert(influence(*g, pnv, output@).contains(views(influencing@)[0]));
                assert(influence(*g, pnv, output@).len() > 0) by {
                    if influence(*g, pnv, output@).len() == 0 {
                        vstd::set_lib::lemma_len_subset(Set::<Seq<char>>::empty().insert(views(influencing@)[0]), influence(*g, pnv, output@));
                    }
                }
            }
            let ghost is0 = issue_views(report.backward_issues@);
            trace_output(g, &pn, &vp, &prods, &output, &influencing, &mut report.backward_issues);
            proof {
                assert(views(report.warnings@) =~= before.warnings + not_influenced_warnings(*g, pnv, sel, s + 1));
                assert forall|k: int| 0 <= k < report.backward_issues@.len() implies sel.contains(#[trigger] issue_views(report.backward_issues@)[k].output) by {
                    if k < is0.len() {
                        assert(issue_views(report.backward_issues@)[k] == is0[k]);
                    } else {
                        assert(sel[s as int] == output@);
                    }
                }
                assert forall|k: int, v: Seq<char>| 0 <= k < s + 1 && #[trigger] on_slice(*g, pnv, sel[k], v)
                    implies covered(issue_views(report.backward_issues@), *g, pnv, sel[k], v) by {
                    if k < s {
                        lemma_covered_grows(is0, issue_views(report.backward_issues@), *g, pnv, sel[k], v);
                    } else {
                        assert(sel[k] == output@);
                    }
                }
            }
        }
        s = s + 1;
    }

    let unused = filter_sorted(&all, &used, false);
    let ghost warn_mid = views(report.warnings@);
    let ghost op_mid = report.output_parameters@;
    let ghost is_mid = report.backward_issues@;
    let mut u: usize = 0;
    while u < unused.len()
        invariant
            u <= unused.len(),
            views(report.warnings@) == warn_mid + views(unused@).take(u as int).map_values(|p: Seq<char>| msg_unused_parameter(p)),
            views(report.errors@) == errors_done,
            errors_done == before.errors + requested(outs, declared, outs.len() as int).1
                + (if outs.len() == 0 { seq![msg_no_output()] } else { Seq::<Seq<char>>::empty() }),
            report_views(report.initializers@) == before.initializers,
            report.role_errors == before.role_errors,
            report.output_analysis_complete,
            views(report.selected_outputs@) == sel,
            report.output_parameters@ == op_mid,
            report.backward_issues@ == is_mid,
        decreases unused.len() - u,
    {
        let ghost w0 = views(report.warnings@);
        push_text(&mut report.warnings, text_msg_unused_parameter(unused[u].as_str()));
        proof {
            assert(views(unused@).take(u + 1) =~= views(unused@).take(u as int).push(views(unused@)[u as int]));
            assert(views(report.warnings@) =~= warn_mid + views(unused@).take(u + 1).map_values(|p: Seq<char>| msg_unused_parameter(p)));
        }
        u = u + 1;
    }
    assert(views(unused@).take(unused.len() as int) =~= views(unused@));
    report.unused_parameters = unused;
    proof {
        assert(report@.initializers == before.initializers);
        assert(report@.errors == before.errors + requested(outs, declared, outs.len() as int).1
            + (if outs.len() == 0 { seq![msg_no_output()] } else { Seq::empty() }));
        assert(report@.selected == requested(outs, declared, outs.len() as int).0);
        assert(report@.warnings =~= before.warnings + not_influenced_warnings(*g, pnv, sel, sel.len() as int)
            + report@.unused.map_values(|p: Seq<char>| msg_unused_parameter(p)));
    }
}


/// The reports in order whose role is `role`.
pub open spec fn with_role(s: Seq<InitReportView>, role: InitializerRole) -> Seq<InitReportView>
    decreases s.len(),
{
    if s.len() == 0 {
        Seq::empty()
    } else if s.last().role == role {
        with_role(s.drop_last(), role).push(s.last())
    } else {
        with_role(s.drop_last(), role)
    }
}

/// The parameter list recorded for the first entry named `key`.
pub open spec fn pair_lookup(s: Seq<(Seq<char>, Seq<Seq<char>>)>, key: Seq<char>) -> Option<Seq<Seq<char>>>
    decreases s.len(),
{
    if s.len() == 0 {
        None
    } else if s[0].0 == key {
        Some(s[0].1)
    } else {
        pair_lookup(s.drop_first(), key)
    }
}

/// Every initializer has an unambiguous role and no role error was found.
pub open spec fn roles_ready_spec(v: ReportView) -> bool {
    !v.role_errors && forall|i: int| 0 <= i < v.initializers.len() ==> (#[trigger] v.initializers[i]).role != InitializerRole::Ambiguous
}

/// Output analysis ran, roles are ready, and nothing blocks training.
pub open spec fn trainable_spec(v: ReportView) -> bool {
    v.complete && roles_ready_spec(v) && v.errors.len() == 0 && v.issues.len() == 0
}

pub open spec fn msg_blocked(i: IssueView) -> Seq<char> {
    i.operator + " '"@ + i.node_name + "' input "@ + decimal(i.input_index as nat) + " blocks gradients to output '"@
        + i.output + "': "@ + match capability_reason(i.capability) {
        Some(r) => r,
        None => "unknown backward restriction"@,
    }
}

/// What `require_trainable` answers for a report.
pub open spec fn trainable_verdict(v: ReportView) -> Result<(), (ErrorKind, Seq<char>)> {
    if !v.complete {
        Err((ErrorKind::TypeMismatch, "output-specific trainability analysis has not run"@))
    } else if v.errors.len() > 0 {
        Err((ErrorKind::TypeMismatch, "model is not trainable: "@ + v.errors[0]))
    } else if exists|i: int| 0 <= i < v.initializers.len() && (#[trigger] v.initializers[i]).role == InitializerRole::Ambiguous {
        Err((ErrorKind::TypeMismatch, "model is not trainable: one or more initializer roles are ambiguous"@))
    } else if v.issues.len() > 0 {
        Err((ErrorKind::UnsupportedOp, msg_blocked(v.issues[0])))
    } else {
        Ok(())
    }
}

fn selected_names(g: &OnnxGraph) -> (r: Vec<&str>)
    ensures
        strs_view(r@) == arg_names(g.outputs@),
{
    let mut out: Vec<&str> = Vec::new();
    let mut i: usize = 0;
    while i < g.outputs.len()
        invariant
            i <= g.outputs.len(),
            out@.len() == i,
            strs_view(out@) == arg_names(g.outputs@).take(i as int),
        decreases g.outputs.len() - i,
    {
        let ghost prev = out@;
        let n: &str = g.outputs[i].name.as_str();
        out.push(n);
        proof {
            assert(out@ == prev.push(n));
            assert(out@.len() == i + 1);
            assert(out@[i as int] == n);
            assert(strs_view(out@)[i as int] == out@[i as int]@);
            assert(strs_view(out@)[i as int] == n@);
            assert(arg_names(g.outputs@)[i as int] == g.outputs@[i as int].name@);
            assert(strs_view(out@) =~= arg_names(g.outputs@).take(i + 1));
        }
        i = i + 1;
    }
    assert(arg_names(g.outputs@).take(g.outputs.len() as int) =~= arg_names(g.outputs@));
    out
}

impl TrainabilityReport {
    /// Classify every initializer consumed by the processed graph.
    pub fn analyze_initializers(graph: &OnnxGraph) -> (r: Self)
        ensures
            r@ == initializer_analysis(*graph, Map::empty(), Seq::empty(), Seq::empty()),
    {
        let ov = TrainabilityOverrides::new();
        let st: Vec<(InitializerId, String)> = Vec::new();
        assert(st@ =~= Seq::<(InitializerId, String)>::empty());
        analyze(graph, &ov, &st)
    }

    /// Classify every initializer and apply exact-name role overrides.
    pub fn analyze_initializers_with(graph: &OnnxGraph, overrides: &TrainabilityOverrides) -> (r: Self)
        ensures
            r@ == initializer_analysis(*graph, overrides.role_map(), overrides.names(), Seq::empty()),
    {
        let st: Vec<(InitializerId, String)> = Vec::new();
        assert(st@ =~= Seq::<(InitializerId, String)>::empty());
        analyze(graph, overrides, &st)
    }

    /// Classify initializers using stable ONNX provenance captured before graph processing.
    pub fn analyze_initializers_with_names(
        graph: &OnnxGraph,
        overrides: &TrainabilityOverrides,
        stable_names: &Vec<(InitializerId, String)>,
    ) -> (r: Self)
        ensures
            r@ == initializer_analysis(*graph, overrides.role_map(), overrides.names(), stable_names@),
    {
        analyze(graph, overrides, stable_names)
    }

    /// Analyze every declared graph output using automatic initializer roles.
    pub fn analyze_all_outputs(graph: &OnnxGraph) -> (r: Self)
        ensures
            paths_analyzed(*graph, arg_names(graph.outputs@),
                initializer_analysis(*graph, Map::empty(), Seq::empty(), Seq::empty()), r@),
    {
        let ov = TrainabilityOverrides::new();
        let st: Vec<(InitializerId, String)> = Vec::new();
        assert(st@ =~= Seq::<(InitializerId, String)>::empty());
        Self::analyze_all_outputs_with_names(graph, &ov, &st)
    }

    /// Analyze every declared graph output using explicit initializer-role overrides.
    pub fn analyze_all_outputs_with(graph: &OnnxGraph, overrides: &TrainabilityOverrides) -> (r: Self)
        ensures
            paths_analyzed(*graph, arg_names(graph.outputs@),
                initializer_analysis(*graph, overrides.role_map(), overrides.names(), Seq::empty()), r@),
    {
        let st: Vec<(InitializerId, String)> = Vec::new();
        assert(st@ =~= Seq::<(InitializerId, String)>::empty());
        Self::analyze_all_outputs_with_names(graph, overrides, &st)
    }

    /// Analyze every output using stable ONNX initializer provenance.
    pub fn analyze_all_outputs_with_names(
        graph: &OnnxGraph,
        overrides: &TrainabilityOverrides,
        stable_names: &Vec<(InitializerId, String)>,
    ) -> (r: Self)
        ensures
            paths_analyzed(*graph, arg_names(graph.outputs@),
                initializer_analysis(*graph, overrides.role_map(), overrides.names(), stable_names@), r@),
    {
        let outputs = selected_names(graph);
        Self::analyze_outputs_with_names(graph, outputs.as_slice(), overrides, stable_names)
    }

    /// Analyze only the named declared graph outputs using automatic initializer roles.
    pub fn analyze_outputs(graph: &OnnxGraph, outputs: &[&str]) -> (r: Self)
        ensures
            paths_analyzed(*graph, strs_view(outputs@),
                initializer_analysis(*graph, Map::empty(), Seq::empty(), Seq::empty()), r@),
    {
        let ov = TrainabilityOverrides::new();
        let st: Vec<(InitializerId, String)> = Vec::new();
        assert(st@ =~= Seq::<(InitializerId, String)>::empty());
        Self::analyze_outputs_with_names(graph, outputs, &ov, &st)
    }

    /// Analyze only the named declared graph outputs using explicit initializer-role overrides.
    pub fn analyze_outputs_with(graph: &OnnxGraph, outputs: &[&str], overrides: &TrainabilityOverrides) -> (r: Self)
        ensures
            paths_analyzed(*graph, strs_view(outputs@),
                initializer_analysis(*graph, overrides.role_map(), overrides.names(), Seq::empty()), r@),
    {
        let st: Vec<(InitializerId, String)> = Vec::new();
        assert(st@ =~= Seq::<(InitializerId, String)>::empty());
        Self::analyze_outputs_with_names(graph, outputs, overrides, &st)
    }

    /// Analyze selected outputs using stable ONNX initializer provenance.
    pub fn analyze_outputs_with_names(
        graph: &OnnxGraph,
        outputs: &[&str],
        overrides: &TrainabilityOverrides,
        stable_names: &Vec<(InitializerId, String)>,
    ) -> (r: Self)
        ensures
            paths_analyzed(*graph, strs_view(outputs@),
                initializer_analysis(*graph, overrides.role_map(), overrides.names(), stable_names@), r@),
    {
        let mut report = analyze(graph, overrides, stable_names);
        analyze_backward_paths(graph, outputs, &mut report);
        report
    }

    /// Return initializer reports in first-consumer graph order.
    pub fn initializers(&self) -> (r: &[InitializerReport])
        ensures
            report_views(r@) == self@.initializers,
    {
        self.initializers.as_slice()
    }

    fn reports_with_role(&self, role: InitializerRole) -> (r: Vec<&InitializerReport>)
        ensures
            r@.map_values(|x: &InitializerReport| report_view(*x)) == with_role(self@.initializers, role),
    {
        let ghost all = report_views(self.initializers@);
        let mut out: Vec<&InitializerReport> = Vec::new();
        let mut i: usize = 0;
        assert(out@.map_values(|x: &InitializerReport| report_view(*x)) =~= with_role(all.take(0), role));
        while i < self.initializers.len()
            invariant
                i <= self.initializers.len(),
                all == report_views(self.initializers@),
                out@.map_values(|x: &InitializerReport| report_view(*x)) == with_role(all.take(i as int), role),
            decreases self.initializers.len() - i,
        {
            let ghost prev = out@.map_values(|x: &InitializerReport| report_view(*x));
            proof {
                assert(all.take(i + 1).drop_last() =~= all.take(i as int));
                assert(all.take(i + 1).last() == report_view(self.initializers@[i as int]));
            }
            if self.initializers[i].role == role {
                out.push(&self.initializers[i]);
                assert(out@.map_values(|x: &InitializerReport| report_view(*x)) =~= prev.push(report_view(self.initializers@[i as int])));
            }
            i = i + 1;
        }
        assert(all.take(self.initializers.len() as int) =~= all);
        out
    }

    /// The automatically or explicitly selected trainable parameters, in report order.
    pub fn trainable_parameters(&self) -> (r: Vec<&InitializerReport>)
        ensures
            r@.map_values(|x: &InitializerReport| report_view(*x)) == with_role(self@.initializers, InitializerRole::Parameter),
    {
        self.reports_with_role(InitializerRole::Parameter)
    }

    /// The persistent non-trainable buffers, in report order.
    pub fn buffers(&self) -> (r: Vec<&InitializerReport>)
        ensures
            r@.map_values(|x: &InitializerReport| report_view(*x)) == with_role(self@.initializers, InitializerRole::Buffer),
    {
        self.reports_with_role(InitializerRole::Buffer)
    }

    /// The fixed constants, in report order.
    pub fn constants(&self) -> (r: Vec<&InitializerReport>)
        ensures
            r@.map_values(|x: &InitializerReport| report_view(*x)) == with_role(self@.initializers, InitializerRole::Constant),
    {
        self.reports_with_role(InitializerRole::Constant)
    }

    /// Return whether output-specific backward analysis has run.
    pub fn has_output_analysis(&self) -> (r: bool)
        ensures
            r == self@.complete,
    {
        self.output_analysis_complete
    }

    /// Return requested outputs in caller order, with duplicates removed.
    pub fn selected_outputs(&self) -> (r: &[String])
        ensures
            views(r@) == self@.selected,
    {
        self.selected_outputs.as_slice()
    }

    /// Return trainable parameters that structurally influence one requested output.
    pub fn parameters_for_output(&self, output: &str) -> (r: Option<&[String]>)
        ensures
            match r {
                Some(p) => pair_lookup(self@.output_parameters, output@) == Some(views(p@)),
                None => pair_lookup(self@.output_parameters, output@) is None,
            },
    {
        let ghost ps = pair_views(self.output_parameters@);
        let mut i: usize = 0;
        assert(ps.skip(0) =~= ps);
        while i < self.output_parameters.len()
            invariant
                i <= self.output_parameters.len(),
                ps == pair_views(self.output_parameters@),
                pair_lookup(ps, output@) == pair_lookup(ps.skip(i as int), output@),
            decreases self.output_parameters.len() - i,
        {
            assert(ps.skip(i as int)[0] == ps[i as int]);
            if str_eq(self.output_parameters[i].0.as_str(), output) {
                return Some(self.output_parameters[i].1.as_slice());
            }
            assert(ps.skip(i as int).drop_first() =~= ps.skip(i + 1));
            i = i + 1;
        }
        None
    }

    /// Return blocked edges found only on requested parameter-to-output slices.
    pub fn backward_issues(&self) -> (r: &[BackwardPathIssue])
        ensures
            issue_views(r@) == self@.issues,
    {
        self.backward_issues.as_slice()
    }

    /// Return selected trainable parameters unused by every requested output.
    pub fn unused_parameters(&self) -> (r: &[String])
        ensures
            views(r@) == self@.unused,
    {
        self.unused_parameters.as_slice()
    }

    /// Return visible conservative, ambiguity and provenance warnings.
    pub fn warnings(&self) -> (r: &[String])
        ensures
            views(r@) == self@.warnings,
    {
        self.warnings.as_slice()
    }

    /// Return errors that prevent a valid role or requested-output training contract.
    pub fn errors(&self) -> (r: &[String])
        ensures
            views(r@) == self@.errors,
    {
        self.errors.as_slice()
    }

    fn find_ambiguous(&self) -> (r: bool)
        ensures
            r == exists|i: int| 0 <= i < self@.initializers.len() && (#[trigger] self@.initializers[i]).role == InitializerRole::Ambiguous,
    {
        let ghost all = report_views(self.initializers@);
        let mut i: usize = 0;
        while i < self.initializers.len()
            invariant
                i <= self.initializers.len(),
                all == report_views(self.initializers@),
                forall|k: int| 0 <= k < i ==> (#[trigger] all[k]).role != InitializerRole::Ambiguous,
            decreases self.initializers.len() - i,
        {
            if self.initializers[i].role == InitializerRole::Ambiguous {
                assert(all[i as int].role == InitializerRole::Ambiguous);
                return true;
            }
            i = i + 1;
        }
        false
    }

    /// Return whether role classification is unambiguous and compatible with f32 training.
    pub fn roles_ready(&self) -> (r: bool)
        ensures
            r == roles_ready_spec(self@),
    {
        !self.role_errors && !self.find_ambiguous()
    }

    /// Return whether requested outputs have fully supported paths to their influencing parameters.
    pub fn is_trainable(&self) -> (r: bool)
        ensures
            r == trainable_spec(self@),
    {
        self.output_analysis_complete && self.roles_ready() && self.errors.len() == 0
            && self.backward_issues.len() == 0
    }

    /// Reject an incomplete or unsupported requested-output training contract.
    pub fn require_trainable(&self) -> (r: Result<(), TynxError>)
        ensures
            match r {
                Ok(()) => trainable_verdict(self@) == Ok::<(), (ErrorKind, Seq<char>)>(()),
                Err(e) => trainable_verdict(self@) == Err::<(), (ErrorKind, Seq<char>)>(error_view(e)),
            },
    {
        if !self.output_analysis_complete {
            return Err(TynxError::TypeMismatch(owned("output-specific trainability analysis has not run")));
        }
        if self.errors.len() > 0 {
            let mut m = owned("model is not trainable: ");
            m.append(self.errors[0].as_str());
            assert(views(self.errors@)[0] == self.errors@[0]@);
            return Err(TynxError::TypeMismatch(m));
        }
        if self.find_ambiguous() {
            return Err(TynxError::TypeMismatch(owned("model is not trainable: one or more initializer roles are ambiguous")));
        }
        if self.backward_issues.len() > 0 {
            let issue = &self.backward_issues[0];
            assert(issue_views(self.backward_issues@)[0] == issue_view(*issue));
            let mut m = owned(issue.operator.as_str());
            m.append(" '");
            m.append(issue.node_name.as_str());
            m.append("' input ");
            m.append(usize_text(issue.input_index).as_str());
            m.append(" blocks gradients to output '");
            m.append(issue.output.as_str());
            m.append("': ");
            match issue.capability.reason() {
                Some(reason) => m.append(reason),
                None => m.append("unknown backward restriction"),
            }
            return Err(TynxError::UnsupportedOp(m));
        }
        Ok(())
    }
}


/// A heading line and one indented line per message.
pub open spec fn message_section(heading: Seq<char>, messages: Seq<Seq<char>>) -> Seq<char> {
    heading + ":\n"@ + concat_all(messages.map_values(|m: Seq<char>| "  "@ + m + "\n"@))
}

/// Write a heading line and one indented line per message.
pub fn write_message_section(heading: &str, messages: &[String]) -> (r: String)
    ensures
        r@ == message_section(heading@, messages@.map_values(|m: String| m@)),
{
    let ghost ms = messages@.map_values(|m: String| m@);
    let ghost lines = ms.map_values(|m: Seq<char>| "  "@ + m + "\n"@);
    let mut out = owned(heading);
    out.append(":\n");
    let ghost head = out@;
    let mut i: usize = 0;
    assert(concat_all(lines.take(0)) =~= Seq::<char>::empty());
    while i < messages.len()
        invariant
            i <= messages.len(),
            ms == messages@.map_values(|m: String| m@),
            lines == ms.map_values(|m: Seq<char>| "  "@ + m + "\n"@),
            out@ == head + concat_all(lines.take(i as int)),
        decreases messages.len() - i,
    {
        out.append("  ");
        out.append(messages[i].as_str());
        out.append("\n");
        proof {
            assert(lines.take(i + 1).drop_last() =~= lines.take(i as int));
            assert(lines.take(i + 1).last() == "  "@ + messages@[i as int]@ + "\n"@);
        }
        i = i + 1;
    }
    assert(lines.take(messages.len() as int) =~= lines);
    out
}

pub open spec fn shape_text(s: Option<Seq<usize>>) -> Seq<char> {
    match s {
        Some(v) => "Some("@ + crate::text::usize_list_text(v) + ")"@,
        None => "None"@,
    }
}

pub open spec fn initializer_line(r: InitReportView) -> Seq<char> {
    "  "@ + r.name + " "@ + opt_dtype_text(r.dtype) + " "@ + shape_text(r.shape) + "\n"@
}

/// A heading line and one line per initializer: name, element type and shape.
pub open spec fn role_section(heading: Seq<char>, rs: Seq<InitReportView>) -> Seq<char> {
    heading + ":\n"@ + concat_all(rs.map_values(|r: InitReportView| initializer_line(r)))
}

pub open spec fn output_line(v: ReportView, o: Seq<char>) -> Seq<char> {
    let ps = match pair_lookup(v.output_parameters, o) {
        Some(p) => p,
        None => Seq::empty(),
    };
    "  "@ + o + ": ["@ + join(ps, ", "@) + "]\n"@
}

pub open spec fn issue_line(i: IssueView) -> Seq<char> {
    "  "@ + i.operator + ":"@ + i.node_name + " input "@ + decimal(i.input_index as nat) + " -> "@ + i.output
        + " ("@ + match capability_reason(i.capability) {
        Some(r) => r,
        None => "unknown restriction"@,
    } + ") ["@ + join(i.parameters, ", "@) + "]\n"@
}

/// The user-facing text of a report, section by section.
pub open spec fn report_text(v: ReportView) -> Seq<char> {
    role_section("Trainable parameters"@, with_role(v.initializers, InitializerRole::Parameter))
        + role_section("Fixed buffers"@, with_role(v.initializers, InitializerRole::Buffer))
        + role_section("Constants"@, with_role(v.initializers, InitializerRole::Constant))
        + role_section("Ambiguous initializers"@, with_role(v.initializers, InitializerRole::Ambiguous))
        + (if v.complete {
        "Requested outputs:\n"@ + concat_all(v.selected.map_values(|o: Seq<char>| output_line(v, o)))
            + "Blocked backward paths:\n"@ + concat_all(v.issues.map_values(|i: IssueView| issue_line(i)))
            + message_section("Unused parameters"@, v.unused)
    } else {
        Seq::empty()
    })
        + message_section("Warnings"@, v.warnings)
        + message_section("Errors"@, v.errors)
}

fn initializer_line_text(r: &InitializerReport) -> (t: String)
    ensures
        t@ == initializer_line(report_view(*r)),
{
    let mut out = owned("  ");
    out.append(r.name.as_str());
    out.append(" ");
    out.append(opt_dtype_string(r.dtype).as_str());
    out.append(" ");
    match &r.shape {
        Some(v) => {
            out.append("Some(");
            out.append(crate::text::usize_list_string(v.as_slice()).as_str());
            out.append(")");
        },
        None => {
            out.append("None");
        },
    }
    out.append("\n");
    out
}

fn role_section_text(heading: &str, rs: &Vec<&InitializerReport>) -> (t: String)
    ensures
        t@ == role_section(heading@, rs@.map_values(|x: &InitializerReport| report_view(*x))),
{
    let ghost vs = rs@.map_values(|x: &InitializerReport| report_view(*x));
    let ghost lines = vs.map_values(|r: InitReportView| initializer_line(r));
    let mut out = owned(heading);
    out.append(":\n");
    let ghost head = out@;
    let mut i: usize = 0;
    assert(concat_all(lines.take(0)) =~= Seq::<char>::empty());
    while i < rs.len()
        invariant
            i <= rs.len(),
            vs == rs@.map_values(|x: &InitializerReport| report_view(*x)),
            lines == vs.map_values(|r: InitReportView| initializer_line(r)),
            out@ == head + concat_all(lines.take(i as int)),
        decreases rs.len() - i,
    {
        let line = initializer_line_text(rs[i]);
        out.append(line.as_str());
        proof {
            assert(lines.take(i + 1).drop_last() =~= lines.take(i as int));
            assert(lines.take(i + 1).last() == line@);
        }
        i = i + 1;
    }
    assert(lines.take(rs.len() as int) =~= lines);
    out
}

fn issue_line_text(i: &BackwardPathIssue) -> (t: String)
    ensures
        t@ == issue_line(issue_view(*i)),
{
    let mut out = owned("  ");
    out.append(i.operator.as_str());
    out.append(":");
    out.append(i.node_name.as_str());
    out.append(" input ");
    out.append(usize_text(i.input_index).as_str());
    out.append(" -> ");
    out.append(i.output.as_str());
    out.append(" (");
    match i.capability.reason() {
        Some(r) => out.append(r),
        None => out.append("unknown restriction"),
    }
    out.append(") [");
    out.append(crate::text::join_strings(&i.parameters, ", ").as_str());
    out.append("]\n");
    out
}

impl TrainabilityReport {
    fn outputs_section_text(&self) -> (t: String)
        ensures
            t@ == "Requested outputs:\n"@ + concat_all(self@.selected.map_values(|o: Seq<char>| output_line(self@, o))),
    {
        let ghost v = self@;
        let ghost lines = v.selected.map_values(|o: Seq<char>| output_line(v, o));
        let mut out = owned("Requested outputs:\n");
        let ghost head = out@;
        let mut i: usize = 0;
        assert(concat_all(lines.take(0)) =~= Seq::<char>::empty());
        while i < self.selected_outputs.len()
            invariant
                i <= self.selected_outputs.len(),
                v == self@,
                lines == v.selected.map_values(|o: Seq<char>| output_line(v, o)),
                out@ == head + concat_all(lines.take(i as int)),
            decreases self.selected_outputs.len() - i,
        {
            let o = self.selected_outputs[i].as_str();
            assert(v.selected[i as int] == o@);
            let joined = match self.parameters_for_output(o) {
                Some(p) => {
                    let ghost pv = views(p@);
                    let mut j = String::new();
                    let mut k: usize = 0;
                    while k < p.len()
                        invariant
                            k <= p.len(),
                            pv == views(p@),
                            j@ == join(pv.take(k as int), ", "@),
                        decreases p.len() - k,
                    {
                        proof {
                            assert(pv.take(k + 1).drop_last() =~= pv.take(k as int));
                        }
                        if k > 0 {
                            j.append(", ");
                        }
                        j.append(p[k].as_str());
                        k = k + 1;
                        proof {
                            if k == 1 {
                                assert(j@ =~= pv.take(1)[0]);
                            }
                        }
                    }
                    assert(pv.take(p.len() as int) =~= pv);
                    j
                },
                None => {
                    assert(join(Seq::<Seq<char>>::empty(), ", "@) =~= Seq::<char>::empty());
                    String::new()
                },
            };
            out.append("  ");
            out.append(o);
            out.append(": [");
            out.append(joined.as_str());
            out.append("]\n");
            proof {
                assert(lines.take(i + 1).drop_last() =~= lines.take(i as int));
                assert(lines.take(i + 1).last() == output_line(v, o@));
            }
            i = i + 1;
        }
        assert(lines.take(self.selected_outputs.len() as int) =~= lines);
        out
    }

    fn issues_section_text(&self) -> (t: String)
        ensures
            t@ == "Blocked backward paths:\n"@ + concat_all(self@.issues.map_values(|i: IssueView| issue_line(i))),
    {
        let ghost lines = self@.issues.map_values(|i: IssueView| issue_line(i));
        let mut out = owned("Blocked backward paths:\n");
        let ghost head = out@;
        let mut i: usize = 0;
        assert(concat_all(lines.take(0)) =~= Seq::<char>::empty());
        while i < self.backward_issues.len()
            invariant
                i <= self.backward_issues.len(),
                lines == self@.issues.map_values(|i: IssueView| issue_line(i)),
                out@ == head + concat_all(lines.take(i as int)),
            decreases self.backward_issues.len() - i,
        {
            let line = issue_line_text(&self.backward_issues[i]);
            out.append(line.as_str());
            proof {
                assert(lines.take(i + 1).drop_last() =~= lines.take(i as int));
                assert(lines.take(i + 1).last() == line@);
            }
            i = i + 1;
        }
        assert(lines.take(self.backward_issues.len() as int) =~= lines);
        out
    }

    /// The user-facing text of the report: role sections, then the output analysis
    /// when it ran, then warnings and errors.
    pub fn to_text(&self) -> (t: String)
        ensures
            t@ == report_text(self@),
    {
        let mut out = role_section_text("Trainable parameters", &self.trainable_parameters());
        out.append(role_section_text("Fixed buffers", &self.buffers()).as_str());
        out.append(role_section_text("Constants", &self.constants()).as_str());
        out.append(role_section_text("Ambiguous initializers", &self.reports_with_role(InitializerRole::Ambiguous)).as_str());
        if self.output_analysis_complete {
            out.append(self.outputs_section_text().as_str());
            out.append(self.issues_section_text().as_str());
            out.append(write_message_section("Unused parameters", self.unused_parameters.as_slice()).as_str());
        }
        out.append(write_message_section("Warnings", self.warnings.as_slice()).as_str());
        out.append(write_message_section("Errors", self.errors.as_slice()).as_str());
        out
    }
}


// ---------------------------------------------------------------------------
// Laws of the analysis
// ---------------------------------------------------------------------------

proof fn lemma_concat_all_len<A>(s: Seq<Seq<A>>, i: int)
    requires
        0 <= i < s.len(),
    ensures
        concat_all(s).len() >= s[i].len(),
    decreases s.len(),
{
    if i < s.len() - 1 {
        lemma_concat_all_len(s.drop_last(), i);
    }
}

/// A role error always comes with an error message.
proof fn lemma_role_errors_reported(es: Seq<EntryView>, ov_map: Map<Seq<char>, InitializerRole>, ov_names: Seq<Seq<char>>)
    ensures
        classified(es, ov_map, ov_names).role_errors ==> classified(es, ov_map, ov_names).errors.len() > 0,
{
    if classified(es, ov_map, ov_names).role_errors {
        let i = choose|i: int| 0 <= i < es.len() && entry_has_role_error(#[trigger] es[i], ov_map);
        assert(errors_of(es, ov_map)[i] == entry_errors(es[i], ov_map));
        lemma_concat_all_len(errors_of(es, ov_map), i);
    }
}

/// For every report that output analysis produces, `require_trainable` succeeds
/// exactly when `is_trainable` holds.
pub proof fn law_require_trainable_agrees(
    g: OnnxGraph,
    outs: Seq<Seq<char>>,
    ov_map: Map<Seq<char>, InitializerRole>,
    ov_names: Seq<Seq<char>>,
    st: Seq<(InitializerId, String)>,
    after: ReportView,
)
    requires
        paths_analyzed(g, outs, initializer_analysis(g, ov_map, ov_names, st), after),
    ensures
        (trainable_verdict(after) is Ok) == trainable_spec(after),
{
    lemma_role_errors_reported(graph_entries(g, st), ov_map, ov_names);
    if trainable_verdict(after) is Ok {
        assert forall|i: int| 0 <= i < after.initializers.len() implies (#[trigger] after.initializers[i]).role != InitializerRole::Ambiguous by {
            if after.initializers[i].role == InitializerRole::Ambiguous {
                assert(exists|k: int| 0 <= k < after.initializers.len() && (#[trigger] after.initializers[k]).role == InitializerRole::Ambiguous);
            }
        }
    }
}

/// A report with roles only has not run output analysis, so it is never trainable.
pub proof fn law_role_report_not_trainable(
    g: OnnxGraph,
    ov_map: Map<Seq<char>, InitializerRole>,
    ov_names: Seq<Seq<char>>,
    st: Seq<(InitializerId, String)>,
)
    ensures
        !trainable_spec(initializer_analysis(g, ov_map, ov_names, st)),
        trainable_verdict(initializer_analysis(g, ov_map, ov_names, st))
            == Err::<(), (ErrorKind, Seq<char>)>((ErrorKind::TypeMismatch, "output-specific trainability analysis has not run"@)),
{
}

proof fn lemma_requested_selected(outs: Seq<Seq<char>>, declared: Seq<Seq<char>>, n: int)
    requires
        0 <= n <= outs.len(),
    ensures
        requested(outs, declared, n).0.no_duplicates(),
        forall|i: int| 0 <= i < requested(outs, declared, n).0.len() ==> {
            &&& declared.contains(#[trigger] requested(outs, declared, n).0[i])
            &&& outs.take(n).contains(requested(outs, declared, n).0[i])
            &&& requested(outs, declared, n).0[i].len() > 0
        },
        forall|i: int| 0 <= i < n && outs[i].len() > 0 && declared.contains(outs[i])
            ==> #[trigger] requested(outs, declared, n).0.contains(outs[i]),
    decreases n,
{
    if n > 0 {
        lemma_requested_selected(outs, declared, n - 1);
        let prev = requested(outs, declared, n - 1).0;
        let cur = requested(outs, declared, n).0;
        assert forall|i: int| 0 <= i < cur.len() implies {
            &&& declared.contains(#[trigger] cur[i])
            &&& outs.take(n).contains(cur[i])
            &&& cur[i].len() > 0
        } by {
            if i < prev.len() {
                assert(cur[i] == prev[i]);
                let t = outs.take(n - 1);
                let w = choose|w: int| 0 <= w < t.len() && t[w] == prev[i];
                assert(outs.take(n)[w] == prev[i]);
            } else {
                assert(outs.take(n)[n - 1] == outs[n - 1]);
            }
        }
        assert forall|i: int| 0 <= i < n && outs[i].len() > 0 && declared.contains(outs[i])
            implies #[trigger] cur.contains(outs[i]) by {
            if i < n - 1 {
                assert(prev.contains(outs[i]));
                let w = choose|w: int| 0 <= w < prev.len() && prev[w] == outs[i];
                assert(cur[w] == outs[i]);
            } else if prev.contains(outs[i]) {
                let w = choose|w: int| 0 <= w < prev.len() && prev[w] == outs[i];
                assert(cur[w] == outs[i]);
            } else {
                assert(cur[prev.len() as int] == outs[i]);
            }
        }
    }
}

/// The selected outputs are exactly the requested names that are non-empty declared
/// graph outputs, each once.
pub proof fn law_selected_outputs(g: OnnxGraph, outs: Seq<Seq<char>>, before: ReportView, after: ReportView)
    requires
        paths_analyzed(g, outs, before, after),
    ensures
        after.selected.no_duplicates(),
        forall|i: int| 0 <= i < after.selected.len() ==> {
            &&& arg_names(g.outputs@).contains(#[trigger] after.selected[i])
            &&& outs.contains(after.selected[i])
        },
        forall|i: int| 0 <= i < outs.len() && outs[i].len() > 0 && arg_names(g.outputs@).contains(outs[i])
            ==> #[trigger] after.selected.contains(outs[i]),
{
    lemma_requested_selected(outs, arg_names(g.outputs@), outs.len() as int);
    assert(outs.take(outs.len() as int) =~= outs);
}

proof fn lemma_entry_keys_distinct(g: OnnxGraph, st: Seq<(InitializerId, String)>, k: int, j: int)
    requires
        0 <= k <= g.nodes.len(),
        k < g.nodes.len() ==> 0 <= j <= g.nodes@[k].inputs.len(),
        k == g.nodes.len() ==> j == 0,
    ensures
        keys(entries_upto(g, st, k, j)).no_duplicates(),
    decreases k, j,
{
    if k <= 0 && j <= 0 {
        assert(keys(entries_upto(g, st, k, j)) =~= Seq::<InitializerKey>::empty());
    } else if j <= 0 {
        lemma_entry_keys_distinct(g, st, k - 1, g.nodes@[k - 1].inputs.len() as int);
    } else {
        lemma_entry_keys_distinct(g, st, k, j - 1);
        let es = entries_upto(g, st, k, j - 1);
        let a = g.nodes@[k].inputs@[j - 1];
        match initializer_key(a, k as usize, (j - 1) as usize) {
            None => {},
            Some(key) => {
                let next = entries_upto(g, st, k, j);
                match keys(es).index_of_first(key) {
                    Some(idx) => {
                        keys(es).index_of_first_ensures(key);
                        assert(keys(next) =~= keys(es));
                    },
                    None => {
                        keys(es).index_of_first_ensures(key);
                        assert(keys(next) =~= keys(es).push(key));
                    },
                }
            },
        }
    }
}

/// No two initializer reports share an identity.
pub proof fn law_initializer_identities_distinct(
    g: OnnxGraph,
    ov_map: Map<Seq<char>, InitializerRole>,
    ov_names: Seq<Seq<char>>,
    st: Seq<(InitializerId, String)>,
)
    ensures
        forall|i: int, j: int| 0 <= i < j < initializer_analysis(g, ov_map, ov_names, st).initializers.len()
            ==> #[trigger] initializer_analysis(g, ov_map, ov_names, st).initializers[i].key
                != #[trigger] initializer_analysis(g, ov_map, ov_names, st).initializers[j].key,
{
    let es = graph_entries(g, st);
    lemma_entry_keys_distinct(g, st, g.nodes.len() as int, 0);
    let inits = initializer_analysis(g, ov_map, ov_names, st).initializers;
    assert forall|i: int, j: int| 0 <= i < j < inits.len() implies #[trigger] inits[i].key != #[trigger] inits[j].key by {
        assert(keys(es)[i] == es[i].key);
        assert(keys(es)[j] == es[j].key);
    }
}


// ---------------------------------------------------------------------------
// public output names
// ---------------------------------------------------------------------------

/// Name pairs as plain values.
pub open spec fn name_pairs(m: Seq<(String, String)>) -> Seq<(Seq<char>, Seq<char>)> {
    m.map_values(|p: (String, String)| (p.0@, p.1@))
}

/// The public name of an output: the first pair's public name whose internal
/// name it is, else the name itself.
pub open spec fn public_name(mapping: Seq<(Seq<char>, Seq<char>)>, name: Seq<char>) -> Seq<char>
    decreases mapping.len(),
{
    if mapping.len() == 0 {
        name
    } else if mapping[0].0 == name {
        mapping[0].1
    } else {
        public_name(mapping.drop_first(), name)
    }
}

/// The pattern that names a requested output in a message.
pub open spec fn requested_output(name: Seq<char>) -> Seq<char> {
    "requested output '"@ + name + "'"@
}

/// A message with each pair's mention of its internal output name replaced by
/// its public name, pair by pair in order.
pub open spec fn remap_text(mapping: Seq<(Seq<char>, Seq<char>)>, msg: Seq<char>) -> Seq<char>
    decreases mapping.len(),
{
    if mapping.len() == 0 {
        msg
    } else {
        let p = mapping[0];
        let next = if p.0 != p.1 { replace_all(msg, requested_output(p.0), requested_output(p.1)) } else { msg };
        remap_text(mapping.drop_first(), next)
    }
}

/// A report with its output names made public.
pub open spec fn remapped(v: ReportView, mapping: Seq<(Seq<char>, Seq<char>)>) -> ReportView {
    ReportView {
        selected: v.selected.map_values(|o: Seq<char>| public_name(mapping, o)),
        output_parameters: v.output_parameters.map_values(
            |p: (Seq<char>, Seq<Seq<char>>)| (public_name(mapping, p.0), p.1),
        ),
        issues: v.issues.map_values(|i: IssueView| IssueView { output: public_name(mapping, i.output), ..i }),
        warnings: v.warnings.map_values(|w: Seq<char>| remap_text(mapping, w)),
        errors: v.errors.map_values(|e: Seq<char>| remap_text(mapping, e)),
        ..v
    }
}

pub(crate) fn public_name_of(mapping: &[(String, String)], name: &str) -> (r: String)
    ensures
        r@ == public_name(name_pairs(mapping@), name@),
{
    let ghost m = name_pairs(mapping@);
    let mut i: usize = 0;
    assert(m.skip(0) =~= m);
    while i < mapping.len()
        invariant
            i <= mapping@.len(),
            m == name_pairs(mapping@),
            public_name(m, name@) == public_name(m.skip(i as int), name@),
        decreases mapping.len() - i,
    {
        proof {
            assert(m.skip(i as int).drop_first() =~= m.skip(i + 1));
            assert(m.skip(i as int)[0] == m[i as int]);
        }
        if str_eq(mapping[i].0.as_str(), name) {
            return mapping[i].1.clone();
        }
        i = i + 1;
    }
    assert(m.skip(i as int).len() == 0);
    owned(name)
}

fn remap_message(mapping: &[(String, String)], msg: &String) -> (r: String)
    ensures
        r@ == remap_text(name_pairs(mapping@), msg@),
{
    let ghost m = name_pairs(mapping@);
    let mut cur = msg.clone();
    let mut i: usize = 0;
    assert(m.skip(0) =~= m);
    while i < mapping.len()
        invariant
            i <= mapping@.len(),
            m == name_pairs(mapping@),
            remap_text(m, msg@) == remap_text(m.skip(i as int), cur@),
        decreases mapping.len() - i,
    {
        proof {
            assert(m.skip(i as int).drop_first() =~= m.skip(i + 1));
            assert(m.skip(i as int)[0] == m[i as int]);
        }
        let internal = &mapping[i].0;
        let public = &mapping[i].1;
        if !str_eq(internal.as_str(), public.as_str()) {
            let mut pat = owned("requested output '");
            pat.append(internal.as_str());
            pat.append("'");
            let mut rep = owned("requested output '");
            rep.append(public.as_str());
            rep.append("'");
            proof {
                reveal_strlit("'");
            }
            cur = replace_text(cur.as_str(), pat.as_str(), rep.as_str());
        }
        i = i + 1;
    }
    assert(m.skip(i as int).len() == 0);
    cur
}

fn remap_messages(mapping: &[(String, String)], msgs: &Vec<String>) -> (r: Vec<String>)
    ensures
        views(r@) == views(msgs@).map_values(|w: Seq<char>| remap_text(name_pairs(mapping@), w)),
{
    let mut out: Vec<String> = Vec::new();
    let mut i: usize = 0;
    while i < msgs.len()
        invariant
            i <= msgs@.len(),
            views(out@) == views(msgs@).take(i as int).map_values(|w: Seq<char>| remap_text(name_pairs(mapping@), w)),
        decreases msgs.len() - i,
    {
        let t = remap_message(mapping, &msgs[i]);
        let ghost prev = views(out@);
        out.push(t);
        proof {
            let f = |w: Seq<char>| remap_text(name_pairs(mapping@), w);
            assert(views(out@) =~= prev.push(t@));
            assert(views(msgs@).take(i + 1) =~= views(msgs@).take(i as int).push(msgs@[i as int]@));
            assert(views(msgs@).take(i + 1).map_values(f) =~= views(msgs@).take(i as int).map_values(f).push(f(msgs@[i as int]@)));
        }
        i = i + 1;
    }
    assert(views(msgs@).take(msgs@.len() as int) =~= views(msgs@));
    out
}

impl TrainabilityReport {
    /// Rename analysed outputs from the graph's internal names to their public
    /// names, in the selected outputs, the per-output parameters, the backward
    /// issues, and the mentions of requested outputs in warnings and errors.
    pub fn remap_outputs(&mut self, internal_to_public: &[(String, String)])
        ensures
            final(self)@ == remapped(old(self)@, name_pairs(internal_to_public@)),
    {
        let ghost m = name_pairs(internal_to_public@);
        let ghost v0 = self@;
        let mut selected: Vec<String> = Vec::new();
        let mut i: usize = 0;
        while i < self.selected_outputs.len()
            invariant
                i <= self.selected_outputs@.len(),
                m == name_pairs(internal_to_public@),
                views(selected@) == views(self.selected_outputs@).take(i as int).map_values(|o: Seq<char>| public_name(m, o)),
            decreases self.selected_outputs.len() - i,
        {
            let t = public_name_of(internal_to_public, self.selected_outputs[i].as_str());
            let ghost prev = views(selected@);
            selected.push(t);
            proof {
                let f = |o: Seq<char>| public_name(m, o);
                let w = views(self.selected_outputs@);
                assert(views(selected@) =~= prev.push(t@));
                assert(w.take(i + 1) =~= w.take(i as int).push(w[i as int]));
                assert(w.take(i + 1).map_values(f) =~= w.take(i as int).map_values(f).push(f(w[i as int])));
            }
            i = i + 1;
        }
        assert(views(self.selected_outputs@).take(self.selected_outputs@.len() as int) =~= views(self.selected_outputs@));
        let mut pairs: Vec<(String, Vec<String>)> = Vec::new();
        let mut i: usize = 0;
        while i < self.output_parameters.len()
            invariant
                i <= self.output_parameters@.len(),
                m == name_pairs(internal_to_public@),
                pair_views(pairs@) == pair_views(self.output_parameters@).take(i as int).map_values(
                    |p: (Seq<char>, Seq<Seq<char>>)| (public_name(m, p.0), p.1),
                ),
            decreases self.output_parameters.len() - i,
        {
            let name = public_name_of(internal_to_public, self.output_parameters[i].0.as_str());
            let params = crate::text::clone_strings(&self.output_parameters[i].1);
            let ghost prev = pair_views(pairs@);
            let ghost item = (name@, views(params@));
            pairs.push((name, params));
            proof {
                let f = |p: (Seq<char>, Seq<Seq<char>>)| (public_name(m, p.0), p.1);
                let w = pair_views(self.output_parameters@);
                assert(pair_views(pairs@) =~= prev.push(item));
                assert(w.take(i + 1) =~= w.take(i as int).push(w[i as int]));
                assert(w.take(i + 1).map_values(f) =~= w.take(i as int).map_values(f).push(f(w[i as int])));
            }
            i = i + 1;
        }
        assert(pair_views(self.output_parameters@).take(self.output_parameters@.len() as int) =~= pair_views(self.output_parameters@));
        let mut issues: Vec<BackwardPathIssue> = Vec::new();
        let mut i: usize = 0;
        while i < self.backward_issues.len()
            invariant
                i <= self.backward_issues@.len(),
                m == name_pairs(internal_to_public@),
                issue_views(issues@) == issue_views(self.backward_issues@).take(i as int).map_values(
                    |x: IssueView| IssueView { output: public_name(m, x.output), ..x },
                ),
            decreases self.backward_issues.len() - i,
        {
            let old_issue = &self.backward_issues[i];
            let issue = BackwardPathIssue {
                output: public_name_of(internal_to_public, old_issue.output.as_str()),
                node_name: old_issue.node_name.clone(),
                operator: old_issue.operator.clone(),
                input_index: old_issue.input_index,
                capability: old_issue.capability,
                parameters: crate::text::clone_strings(&old_issue.parameters),
            };
            let ghost prev = issue_views(issues@);
            let ghost item = issue_view(issue);
            issues.push(issue);
            proof {
                let f = |x: IssueView| IssueView { output: public_name(m, x.output), ..x };
                let w = issue_views(self.backward_issues@);
                assert(issue_views(issues@) =~= prev.push(item));
                assert(w.take(i + 1) =~= w.take(i as int).push(w[i as int]));
                assert(w.take(i + 1).map_values(f) =~= w.take(i as int).map_values(f).push(f(w[i as int])));
                assert(item == f(w[i as int]));
            }
            i = i + 1;
        }
        assert(issue_views(self.backward_issues@).take(self.backward_issues@.len() as int) =~= issue_views(self.backward_issues@));
        let warnings = remap_messages(internal_to_public, &self.warnings);
        let errors = remap_messages(internal_to_public, &self.errors);
        self.selected_outputs = selected;
        self.output_parameters = pairs;
        self.backward_issues = issues;
        self.warnings = warnings;
        self.errors = errors;
        assert(self@ == remapped(v0, m));
    }
}

} // verus!
