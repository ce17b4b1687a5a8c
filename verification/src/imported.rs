//! Materialisation of classified ONNX initializers into stable parameter
//! slots, and the checks an imported model applies to its inputs and to the
//! operators that read slot-backed state.

use vstd::prelude::*;
use crate::error::{error_view, ErrorKind, TynxError};
use crate::graph::{
    dtype_text, id_key, initializer_key, opt_dtype_text, op_kind_text, ArgType, Argument, DType, InitializerId,
    InitializerKey, Node, OnnxGraph, OpKind, TensorType,
};
use crate::parameter::{
    advanced, slot_view, ContractView, DeviceInfo, ParamId, ParamIdSource, ParameterSlot, SlotView, TensorInfo,
};
use crate::store::{index_of_id, owner_of, store_wf, EntryView, ParameterStore};
use crate::text::{
    debug_str_text, decimal, is_blank, owned, str_eq, str_is_blank, usize_list_string, usize_list_text, usize_text, views,
};
use crate::trainability::{
    arg_names, initializer_analysis, name_pairs, paths_analyzed, public_name, public_name_of, remapped, report_view,
    report_views, roles_ready_spec, strs_view, InitReportView, InitializerReport, InitializerRole, ReportView,
    TrainabilityOverrides, TrainabilityReport,
};

verus! {

// ---------------------------------------------------------------------------
// stable-name overrides
// ---------------------------------------------------------------------------

/// Stable checkpoint-name replacements for processed initializer names.
#[derive(Debug)]
pub struct InitializerNameOverrides {
    names: Vec<(String, String)>,
}

/// The override for a report name.
pub open spec fn override_of(entries: Seq<(Seq<char>, Seq<char>)>, name: Seq<char>) -> Option<Seq<char>>
    decreases entries.len(),
{
    if entries.len() == 0 {
        None
    } else if entries[0].0 == name {
        Some(entries[0].1)
    } else {
        override_of(entries.drop_first(), name)
    }
}

impl InitializerNameOverrides {
    #[verifier::type_invariant]
    spec fn inv(self) -> bool {
        forall|i: int, j: int| 0 <= i < j < self.names@.len() ==> self.names@[i].0@ != self.names@[j].0@
    }

    /// The overrides in first-set order: report name and state name.
    pub closed spec fn entries(self) -> Seq<(Seq<char>, Seq<char>)> {
        self.names@.map_values(|p: (String, String)| (p.0@, p.1@))
    }

    /// Create an empty name-override set.
    pub fn new() -> (r: Self)
        ensures
            r.entries() == Seq::<(Seq<char>, Seq<char>)>::empty(),
    {
        let r = InitializerNameOverrides { names: Vec::new() };
        assert(r.entries() =~= Seq::<(Seq<char>, Seq<char>)>::empty());
        r
    }

    /// Replace one report name with a stable state or checkpoint name; a later
    /// override of the same report name replaces the earlier one in place.
    pub fn set_name(&mut self, report_name: String, state_name: String) -> (r: Result<(), TynxError>)
        ensures
            is_blank(report_name@) ==> (r matches Err(e) && error_view(e) == (ErrorKind::TypeMismatch,
                "initializer report name cannot be empty"@) && final(self).entries() == old(self).entries()),
            !is_blank(report_name@) && is_blank(state_name@) ==> (r matches Err(e) && error_view(e) == (ErrorKind::TypeMismatch,
                "initializer state name cannot be empty"@) && final(self).entries() == old(self).entries()),
            !is_blank(report_name@) && !is_blank(state_name@) ==> r is Ok && (if exists|i: int| 0 <= i < old(self).entries().len()
                && (#[trigger] old(self).entries()[i]).0 == report_name@ {
                exists|i: int| 0 <= i < old(self).entries().len() && (#[trigger] old(self).entries()[i]).0 == report_name@
                    && final(self).entries() == old(self).entries().update(i, (report_name@, state_name@))
            } else {
                final(self).entries() == old(self).entries().push((report_name@, state_name@))
            }),
    {
        proof {
            use_type_invariant(&*self);
        }
        if str_is_blank(report_name.as_str()) {
            return Err(TynxError::TypeMismatch(owned("initializer report name cannot be empty")));
        }
        if str_is_blank(state_name.as_str()) {
            return Err(TynxError::TypeMismatch(owned("initializer state name cannot be empty")));
        }
        let ghost before = self.entries();
        let mut names: Vec<(String, String)> = Vec::new();
        std::mem::swap(&mut names, &mut self.names);
        let ghost old_names = names@;
        let mut i: usize = 0;
        while i < names.len()
            invariant
                i <= names@.len(),
                names@ == old_names,
                forall|k: int| 0 <= k < i ==> names@[k].0@ != report_name@,
            ensures
                i <= names@.len(),
                names@ == old_names,
                forall|k: int| 0 <= k < i ==> names@[k].0@ != report_name@,
                i < names@.len() ==> names@[i as int].0@ == report_name@,
            decreases names.len() - i,
        {
            if str_eq(names[i].0.as_str(), report_name.as_str()) {
                break;
            }
            i = i + 1;
        }
        let ghost rv = report_name@;
        let ghost sv = state_name@;
        if i < names.len() {
            names.set(i, (report_name, state_name));
            proof {
                assert(before[i as int].0 == old_names[i as int].0@);
                assert(before[i as int].0 == rv);
                assert(names@.map_values(|p: (String, String)| (p.0@, p.1@)) =~= before.update(i as int, (rv, sv)));
                assert forall|a: int, b: int| 0 <= a < b < names@.len() implies names@[a].0@ != names@[b].0@ by {
                    if a != i as int && b != i as int {
                        assert(names@[a] == old_names[a] && names@[b] == old_names[b]);
                    } else if a == i as int {
                        assert(names@[b] == old_names[b]);
                    } else {
                        assert(names@[a] == old_names[a]);
                    }
                }
            }
        } else {
            names.push((report_name, state_name));
            proof {
                assert(names@.map_values(|p: (String, String)| (p.0@, p.1@)) =~= before.push((rv, sv)));
                assert forall|a: int, b: int| 0 <= a < b < names@.len() implies names@[a].0@ != names@[b].0@ by {
                    if b < old_names.len() {
                        assert(names@[a] == old_names[a] && names@[b] == old_names[b]);
                    } else {
                        assert(names@[a] == old_names[a]);
                    }
                }
                assert forall|k: int| 0 <= k < before.len() implies (#[trigger] before[k]).0 != rv by {
                    assert(before[k].0 == old_names[k].0@);
                }
            }
        }
        self.names = names;
        Ok(())
    }

    fn lookup(&self, name: &str) -> (r: Option<String>)
        ensures
            match r {
                Some(s) => override_of(self.entries(), name@) == Some(s@),
                None => override_of(self.entries(), name@) is None,
            },
    {
        let ghost es = self.entries();
        let mut i: usize = 0;
        assert(es.skip(0) =~= es);
        while i < self.names.len()
            invariant
                i <= self.names@.len(),
                es == self.entries(),
                override_of(es, name@) == override_of(es.skip(i as int), name@),
            decreases self.names.len() - i,
        {
            assert(es.skip(i as int)[0] == es[i as int]);
            if str_eq(self.names[i].0.as_str(), name) {
                return Some(self.names[i].1.clone());
            }
            assert(es.skip(i as int).drop_first() =~= es.skip(i + 1));
            i = i + 1;
        }
        None
    }
}

// ---------------------------------------------------------------------------
// materialisation
// ---------------------------------------------------------------------------

/// What the materialisation reads of an initializer's embedded data: its identity,
/// shape and element type.
#[derive(Debug)]
pub struct EmbeddedData {
    pub id: InitializerId,
    pub shape: Vec<usize>,
    pub dtype: DType,
}

/// Embedded data as plain values: identity, shape and element type.
pub open spec fn data_view(data: Seq<EmbeddedData>) -> Seq<(InitializerKey, Seq<usize>, DType)> {
    data.map_values(|d: EmbeddedData| (id_key(d.id), d.shape@, d.dtype))
}

/// The shape and element type of the first embedded data with an identity.
pub open spec fn embedded_of(data: Seq<(InitializerKey, Seq<usize>, DType)>, key: InitializerKey) -> Option<(Seq<usize>, DType)>
    decreases data.len(),
{
    if data.len() == 0 {
        None
    } else if data[0].0 == key {
        Some((data[0].1, data[0].2))
    } else {
        embedded_of(data.drop_first(), key)
    }
}

/// An identity as `{:?}` prints it.
pub open spec fn key_debug(k: InitializerKey) -> Seq<char> {
    match k {
        InitializerKey::Named(s) => "Named("@ + debug_str_text(s) + ")"@,
        InitializerKey::Static(d) => "Static("@ + decimal(d as nat) + ")"@,
        InitializerKey::Unnamed(n, i) => "Unnamed { node_index: "@ + decimal(n as nat) + ", input_index: "@ + decimal(i as nat)
            + " }"@,
    }
}

/// One initializer made into a slot: identity, state name, role and shape.
pub struct Materialized {
    pub key: InitializerKey,
    pub state_name: Seq<char>,
    pub role: InitializerRole,
    pub shape: Seq<usize>,
}

/// Progress of a materialisation: the slots made so far and the overrides used.
pub struct MatState {
    pub made: Seq<Materialized>,
    pub used: Set<Seq<char>>,
}

/// Materialise one initializer report after the slots in `st`.
pub open spec fn mat_step(st: MatState, r: InitReportView, ovs: Seq<(Seq<char>, Seq<char>)>, data: Seq<(InitializerKey, Seq<usize>, DType)>,
    autodiff: bool, start: u64) -> Result<MatState, (ErrorKind, Seq<char>)>
{
    let q = "initializer '"@;
    if r.role == InitializerRole::Constant {
        Ok(st)
    } else if r.role == InitializerRole::Ambiguous {
        Err((ErrorKind::TypeMismatch, q + r.name + "' has an ambiguous state role"@))
    } else if override_of(ovs, r.name) is None && r.synthetic {
        Err((ErrorKind::TypeMismatch, q + r.name
            + "' has no stable ONNX provenance; provide a stable name override before materialization"@))
    } else {
        let state_name = match override_of(ovs, r.name) {
            Some(n) => n,
            None => r.name,
        };
        let used = if override_of(ovs, r.name) is Some { st.used.insert(r.name) } else { st.used };
        match embedded_of(data, r.key) {
            None => Err((ErrorKind::MissingValue, q + r.name + "' ("@ + key_debug(r.key) + ") has no embedded tensor data"@)),
            Some((shape, dtype)) => if r.dtype != Some(dtype) {
                Err((ErrorKind::TypeMismatch, q + r.name + "' report dtype "@ + opt_dtype_text(r.dtype)
                    + " differs from embedded dtype "@ + dtype_text(dtype)))
            } else if r.shape is Some && r.shape->0 != shape {
                Err((ErrorKind::Shape, q + r.name + "' report shape "@ + usize_list_text(r.shape->0)
                    + " differs from embedded shape "@ + usize_list_text(shape)))
            } else if !(1 <= shape.len() <= 6) {
                Err((ErrorKind::Shape, q + state_name + "' has rank "@ + decimal(shape.len())
                    + "; imported state currently supports ranks 1 through 6"@))
            } else if dtype != DType::F32 {
                Err((ErrorKind::TypeMismatch, q + state_name + "' has dtype "@ + dtype_text(dtype)
                    + "; v1 materialized training parameters and buffers must use f32"@))
            } else if r.role == InitializerRole::Parameter && !autodiff {
                Err((ErrorKind::TypeMismatch, "trainable parameters require an autodiff-enabled device"@))
            } else if is_blank(state_name) {
                Err((ErrorKind::TypeMismatch, "parameter state name cannot be empty"@))
            } else if exists|k: int| 0 <= k < st.made.len() && (#[trigger] st.made[k]).state_name == state_name {
                let k = choose|k: int| 0 <= k < st.made.len() && (#[trigger] st.made[k]).state_name == state_name;
                Err((ErrorKind::TypeMismatch, "parameter name '"@ + state_name + "' is already bound to slot "@
                    + decimal(advanced(start, k as nat) as nat)))
            } else {
                Ok(MatState {
                    made: st.made.push(Materialized { key: r.key, state_name, role: r.role, shape }),
                    used,
                })
            },
        }
    }
}

/// Materialise the reports before `n`.
pub open spec fn mat_scan(reports: Seq<InitReportView>, ovs: Seq<(Seq<char>, Seq<char>)>, data: Seq<(InitializerKey, Seq<usize>, DType)>,
    autodiff: bool, start: u64, n: int) -> Result<MatState, (ErrorKind, Seq<char>)>
    decreases n,
{
    if n <= 0 {
        Ok(MatState { made: Seq::empty(), used: Set::empty() })
    } else {
        match mat_scan(reports, ovs, data, autodiff, start, n - 1) {
            Err(e) => Err(e),
            Ok(st) => mat_step(st, reports[n - 1], ovs, data, autodiff, start),
        }
    }
}

proof fn lemma_mat_scan_err(reports: Seq<InitReportView>, ovs: Seq<(Seq<char>, Seq<char>)>, data: Seq<(InitializerKey, Seq<usize>, DType)>,
    autodiff: bool, start: u64, n: int, m: int)
    requires
        0 <= n <= m,
        mat_scan(reports, ovs, data, autodiff, start, n) is Err,
    ensures
        mat_scan(reports, ovs, data, autodiff, start, m) == mat_scan(reports, ovs, data, autodiff, start, n),
    decreases m - n,
{
    if m > n {
        lemma_mat_scan_err(reports, ovs, data, autodiff, start, n, m - 1);
    }
}

/// The store entry of the `k`-th slot made.
pub open spec fn made_entry(m: Materialized, k: int, start: u64, device: Seq<char>, autodiff: bool) -> EntryView {
    let id = advanced(start, k as nat);
    EntryView {
        id,
        canonical: m.state_name,
        aliases: Seq::empty(),
        slot: SlotView {
            id,
            name: Some(m.state_name),
            contract: ContractView {
                shape: m.shape,
                dtype: DType::F32,
                device,
                autodiff,
                trainable: m.role == InitializerRole::Parameter,
            },
            value_generation: 0,
            structure_generation: 0,
            leaf: None,
            has_grad: false,
        },
    }
}

/// The store that holds the slots made, in order.
pub open spec fn made_store(made: Seq<Materialized>, start: u64, device: Seq<char>, autodiff: bool) -> Seq<EntryView> {
    Seq::new(made.len(), |k: int| made_entry(made[k], k, start, device, autodiff))
}

pub open spec fn msg_not_ready(v: ReportView) -> Seq<char> {
    "cannot materialize imported state: "@ + if v.errors.len() > 0 {
        v.errors[0]
    } else {
        "one or more initializer roles are ambiguous; provide explicit role overrides"@
    }
}

/// The first override whose report name no slot used.
pub open spec fn unused_override(ovs: Seq<(Seq<char>, Seq<char>)>, used: Set<Seq<char>>) -> Option<Seq<char>> {
    if exists|i: int| 0 <= i < ovs.len() && !used.contains(#[trigger] ovs[i].0) {
        let i = choose|i: int| 0 <= i < ovs.len() && !used.contains(#[trigger] ovs[i].0)
            && forall|j: int| 0 <= j < i ==> used.contains(ovs[j].0);
        Some(ovs[i].0)
    } else {
        None
    }
}

/// The outcome of materialising a report: the slots made, or the first complaint.
pub open spec fn materialize_spec(v: ReportView, ovs: Seq<(Seq<char>, Seq<char>)>, data: Seq<(InitializerKey, Seq<usize>, DType)>, autodiff: bool,
    start: u64) -> Result<Seq<Materialized>, (ErrorKind, Seq<char>)>
{
    if !roles_ready_spec(v) {
        Err((ErrorKind::TypeMismatch, msg_not_ready(v)))
    } else {
        match mat_scan(v.initializers, ovs, data, autodiff, start, v.initializers.len() as int) {
            Err(e) => Err(e),
            Ok(st) => match unused_override(ovs, st.used) {
                Some(n) => Err((ErrorKind::TypeMismatch, "initializer name override '"@ + n
                    + "' did not match a materialized parameter or buffer"@)),
                None => Ok(st.made),
            },
        }
    }
}

/// Stable runtime state materialised from one processed ONNX graph.
#[derive(Debug)]
pub struct ImportedState {
    store: ParameterStore,
    initializer_slots: Vec<(InitializerId, ParamId)>,
    initializer_roles: Vec<(InitializerId, InitializerRole)>,
    report: TrainabilityReport,
}

impl ImportedState {
    /// The slots' identities by initializer, in report order.
    pub closed spec fn slots(self) -> Seq<(InitializerKey, u64)> {
        self.initializer_slots@.map_values(|p: (InitializerId, ParamId)| (id_key(p.0), p.1.0))
    }

    /// The roles by initializer, in report order.
    pub closed spec fn roles(self) -> Seq<(InitializerKey, InitializerRole)> {
        self.initializer_roles@.map_values(|p: (InitializerId, InitializerRole)| (id_key(p.0), p.1))
    }

    /// The store of materialised slots.
    pub closed spec fn store_view(self) -> Seq<EntryView> {
        self.store@
    }

    /// The classification report the state was made from.
    pub closed spec fn report_view(self) -> ReportView {
        self.report@
    }
}

fn embedded_lookup(data: &Vec<EmbeddedData>, id: &InitializerId) -> (r: Option<usize>)
    ensures
        match r {
            Some(i) => i < data@.len() && embedded_of(data_view(data@), id_key(*id)) == Some((data@[i as int].shape@, data@[i as int].dtype)),
            None => embedded_of(data_view(data@), id_key(*id)) is None,
        },
{
    let mut i: usize = 0;
    assert(data_view(data@).skip(0) =~= data_view(data@));
    while i < data.len()
        invariant
            i <= data@.len(),
            embedded_of(data_view(data@), id_key(*id)) == embedded_of(data_view(data@).skip(i as int), id_key(*id)),
        decreases data.len() - i,
    {
        assert(data_view(data@).skip(i as int)[0] == data_view(data@)[i as int]);
        if data[i].id.same(id) {
            return Some(i);
        }
        assert(data_view(data@).skip(i as int).drop_first() =~= data_view(data@).skip(i + 1));
        i = i + 1;
    }
    None
}

fn copy_id(id: &InitializerId) -> (r: InitializerId)
    ensures
        id_key(r) == id_key(*id),
{
    match id {
        InitializerId::Named(s) => InitializerId::Named(s.clone()),
        InitializerId::Static(d) => InitializerId::Static(*d),
        InitializerId::Unnamed { node_index, input_index } => InitializerId::Unnamed {
            node_index: *node_index,
            input_index: *input_index,
        },
    }
}

fn id_debug_string(id: &InitializerId) -> (r: String)
    ensures
        r@ == key_debug(id_key(*id)),
{
    match id {
        InitializerId::Named(s) => {
            let mut m = owned("Named(");
            m.append(crate::text::debug_str_string(s.as_str()).as_str());
            m.append(")");
            m
        },
        InitializerId::Static(d) => {
            let mut m = owned("Static(");
            m.append(usize_text(*d).as_str());
            m.append(")");
            m
        },
        InitializerId::Unnamed { node_index, input_index } => {
            let mut m = owned("Unnamed { node_index: ");
            m.append(usize_text(*node_index).as_str());
            m.append(", input_index: ");
            m.append(usize_text(*input_index).as_str());
            m.append(" }");
            m
        },
    }
}

fn sizes_equal(a: &[usize], b: &Vec<usize>) -> (r: bool)
    ensures
        r == (a@ == b@),
{
    if a.len() != b.len() {
        return false;
    }
    let mut i: usize = 0;
    while i < a.len()
        invariant
            i <= a@.len(),
            a@.len() == b@.len(),
            forall|k: int| 0 <= k < i ==> a@[k] == b@[k],
        decreases a.len() - i,
    {
        if a[i] != b[i] {
            return false;
        }
        i = i + 1;
    }
    assert(a@ =~= b@);
    true
}


/// The identities of the slots made, in order.
pub open spec fn made_slots(made: Seq<Materialized>, start: u64) -> Seq<(InitializerKey, u64)> {
    Seq::new(made.len(), |k: int| (made[k].key, advanced(start, k as nat)))
}

/// The roles of the slots made, in order.
pub open spec fn made_roles(made: Seq<Materialized>) -> Seq<(InitializerKey, InitializerRole)> {
    Seq::new(made.len(), |k: int| (made[k].key, made[k].role))
}

fn text_initializer(name: &str, rest: &str) -> (m: String)
    ensures
        m@ == "initializer '"@ + name@ + rest@,
{
    let mut m = owned("initializer '");
    m.append(name);
    m.append(rest);
    m
}

proof fn lemma_made_store_push(made: Seq<Materialized>, m: Materialized, start: u64, device: Seq<char>, autodiff: bool)
    ensures
        made_store(made.push(m), start, device, autodiff)
            == made_store(made, start, device, autodiff).push(made_entry(m, made.len() as int, start, device, autodiff)),
        made_slots(made.push(m), start) == made_slots(made, start).push((m.key, advanced(start, made.len() as nat))),
        made_roles(made.push(m)) == made_roles(made).push((m.key, m.role)),
{
    assert(made_store(made.push(m), start, device, autodiff)
        =~= made_store(made, start, device, autodiff).push(made_entry(m, made.len() as int, start, device, autodiff)));
    assert(made_slots(made.push(m), start) =~= made_slots(made, start).push((m.key, advanced(start, made.len() as nat))));
    assert(made_roles(made.push(m)) =~= made_roles(made).push((m.key, m.role)));
}

/// Make a slot for every parameter and buffer of a classified report, named by
/// its stable-name override or its report name, and shaped by its embedded data.
/// Every override must be used. Slots take consecutive identities from `ids`.
pub fn materialize_report(
    report: TrainabilityReport,
    device: &DeviceInfo,
    name_overrides: &InitializerNameOverrides,
    data: &Vec<EmbeddedData>,
    ids: &mut ParamIdSource,
) -> (r: Result<ImportedState, TynxError>)
    ensures
        match materialize_spec(report@, name_overrides.entries(), data_view(data@), device.autodiff, old(ids).peek()) {
            Err(e) => r matches Err(x) && error_view(x) == e,
            Ok(made) => r matches Ok(st) && st.store_view() == made_store(made, old(ids).peek(), device.name@, device.autodiff)
                && st.slots() == made_slots(made, old(ids).peek()) && st.roles() == made_roles(made)
                && st.report_view() == report@ && final(ids).peek() == advanced(old(ids).peek(), made.len()),
        },
{
    let ghost start = ids.peek();
    let ghost ovs = name_overrides.entries();
    let ghost rv = report@;
    if !report.roles_ready() {
        let mut m = owned("cannot materialize imported state: ");
        let errors = report.errors();
        if errors.len() > 0 {
            assert(views(errors@)[0] == errors@[0]@);
            m.append(errors[0].as_str());
        } else {
            m.append("one or more initializer roles are ambiguous; provide explicit role overrides");
        }
        return Err(TynxError::TypeMismatch(m));
    }
    let inits = report.initializers();
    let ghost reports = report_views(inits@);
    let mut store = ParameterStore::new();
    let mut slots: Vec<(InitializerId, ParamId)> = Vec::new();
    let mut roles: Vec<(InitializerId, InitializerRole)> = Vec::new();
    let mut used: Vec<String> = Vec::new();
    let ghost mut made: Seq<Materialized> = Seq::empty();
    proof {
        assert(made_store(made, start, device.name@, device.autodiff) =~= Seq::<EntryView>::empty());
        assert(slots@.map_values(|p: (InitializerId, ParamId)| (id_key(p.0), p.1.0)) =~= made_slots(made, start));
        assert(roles@.map_values(|p: (InitializerId, InitializerRole)| (id_key(p.0), p.1)) =~= made_roles(made));
        assert(views(used@).to_set() =~= Set::<Seq<char>>::empty());
    }
    let mut i: usize = 0;
    while i < inits.len()
        invariant
            i <= inits@.len(),
            reports == report_views(inits@),
            reports == rv.initializers,
            rv == report@,
            start == old(ids).peek(),
            roles_ready_spec(rv),
            ovs == name_overrides.entries(),
            mat_scan(reports, ovs, data_view(data@), device.autodiff, start, i as int)
                == Ok::<MatState, (ErrorKind, Seq<char>)>(MatState { made, used: views(used@).to_set() }),
            made.len() <= i,
            store@ == made_store(made, start, device.name@, device.autodiff),
            store_wf(store@),
            slots@.map_values(|p: (InitializerId, ParamId)| (id_key(p.0), p.1.0)) == made_slots(made, start),
            roles@.map_values(|p: (InitializerId, InitializerRole)| (id_key(p.0), p.1)) == made_roles(made),
            ids.peek() == advanced(start, made.len()),
        decreases inits.len() - i,
    {
        proof {
            if mat_scan(reports, ovs, data_view(data@), device.autodiff, start, i + 1) is Err {
                lemma_mat_scan_err(reports, ovs, data_view(data@), device.autodiff, start, i + 1, reports.len() as int);
            }
        }
        let r = &inits[i];
        assert(reports[i as int] == report_view(*r));
        let ghost st0 = MatState { made, used: views(used@).to_set() };
        match materialize_one(r, device, name_overrides, data, ids, &mut store, &mut used, Ghost(made), Ghost(start)) {
            Err(e) => {
                return Err(e);
            },
            Ok(None) => {},
            Ok(Some(pid)) => {
                let ghost st1 = mat_step(st0, reports[i as int], ovs, data_view(data@), device.autodiff, start)->Ok_0;
                let ghost mm = st1.made.last();
                let ghost s0 = slots@;
                let ghost r0 = roles@;
                slots.push((copy_id(r.id()), pid));
                roles.push((copy_id(r.id()), r.role()));
                proof {
                    assert(st1.made == made.push(mm));
                    lemma_made_store_push(made, mm, start, device.name@, device.autodiff);
                    assert(slots@.map_values(|p: (InitializerId, ParamId)| (id_key(p.0), p.1.0))
                        =~= s0.map_values(|p: (InitializerId, ParamId)| (id_key(p.0), p.1.0)).push((mm.key, pid.0)));
                    assert(roles@.map_values(|p: (InitializerId, InitializerRole)| (id_key(p.0), p.1))
                        =~= r0.map_values(|p: (InitializerId, InitializerRole)| (id_key(p.0), p.1)).push((mm.key, mm.role)));
                    made = made.push(mm);
                }
            },
        }
        i = i + 1;
    }
    assert(reports.len() == inits@.len());
    let mut o: usize = 0;
    let ghost used_set = views(used@).to_set();
    while o < name_overrides.names.len()
        invariant
            o <= name_overrides.names@.len(),
            ovs == name_overrides.entries(),
            rv == report@,
            start == old(ids).peek(),
            used_set == views(used@).to_set(),
            mat_scan(rv.initializers, ovs, data_view(data@), device.autodiff, start, rv.initializers.len() as int)
                == Ok::<MatState, (ErrorKind, Seq<char>)>(MatState { made, used: used_set }),
            roles_ready_spec(rv),
            forall|j: int| 0 <= j < o ==> used_set.contains(#[trigger] ovs[j].0),
        decreases name_overrides.names.len() - o,
    {
        let key = &name_overrides.names[o].0;
        assert(ovs[o as int].0 == key@);
        if !crate::text::contains_text(&used, key.as_str()) {
            proof {
                assert(!used_set.contains(key@)) by {
                    if used_set.contains(key@) {
                        assert(views(used@).contains(key@));
                    }
                }
                let c = choose|c: int| 0 <= c < ovs.len() && !used_set.contains(#[trigger] ovs[c].0)
                    && forall|j: int| 0 <= j < c ==> used_set.contains(ovs[j].0);
                if c < o as int {
                    assert(used_set.contains(ovs[c].0));
                } else if c > o as int {
                    assert(used_set.contains(ovs[o as int].0));
                }
            }
            let mut m = owned("initializer name override '");
            m.append(key.as_str());
            m.append("' did not match a materialized parameter or buffer");
            return Err(TynxError::TypeMismatch(m));
        }
        proof {
            assert(views(used@).contains(key@));
        }
        o = o + 1;
    }
    Ok(ImportedState { store, initializer_slots: slots, initializer_roles: roles, report })
}


/// Materialise one initializer report after the slots `made`.
#[verifier::spinoff_prover]
#[verifier::rlimit(40)]
fn materialize_one(
    r: &InitializerReport,
    device: &DeviceInfo,
    name_overrides: &InitializerNameOverrides,
    data: &Vec<EmbeddedData>,
    ids: &mut ParamIdSource,
    store: &mut ParameterStore,
    used: &mut Vec<String>,
    Ghost(made): Ghost<Seq<Materialized>>,
    Ghost(start): Ghost<u64>,
) -> (res: Result<Option<ParamId>, TynxError>)
    requires
        store_wf(old(store)@),
        old(store)@ == made_store(made, start, device.name@, device.autodiff),
        old(ids).peek() == advanced(start, made.len()),
        made.len() < 0x1_0000_0000_0000_0000int,
    ensures
        match mat_step(MatState { made, used: views(old(used)@).to_set() }, report_view(*r), name_overrides.entries(),
            data_view(data@), device.autodiff, start) {
            Err(e) => res matches Err(x) && error_view(x) == e,
            Ok(st) => res is Ok && views(final(used)@).to_set() == st.used
                && final(store)@ == made_store(st.made, start, device.name@, device.autodiff) && store_wf(final(store)@)
                && final(ids).peek() == advanced(start, st.made.len())
                && match res {
                    Ok(Some(pid)) => st.made.len() == made.len() + 1 && pid.0 == advanced(start, made.len())
                        && st.made.last().key == report_view(*r).key && st.made.last().role == report_view(*r).role
                        && st.made.drop_last() == made,
                    _ => st.made == made,
                },
        },
{
    let ghost ovs = name_overrides.entries();
    let role = r.role();
    if role == InitializerRole::Constant {
        return Ok(None);
    }
    if role == InitializerRole::Ambiguous {
        return Err(TynxError::TypeMismatch(text_initializer(r.name(), "' has an ambiguous state role")));
    }
    let rname: &str = r.name();
    let state_name: String = match name_overrides.lookup(rname) {
        Some(n) => {
            if !crate::text::contains_text(&used, rname) {
                let ghost u0 = views(used@);
                used.push(owned(rname));
                proof {
                    assert(views(used@) =~= u0.push(rname@));
                    u0.lemma_push_to_set_commute(rname@);
                }
            } else {
                proof {
                    assert(views(used@).to_set().contains(rname@));
                    assert(views(used@).to_set().insert(rname@) =~= views(used@).to_set());
                }
            }
            n
        },
        None => {
            if r.has_synthetic_name() {
                return Err(TynxError::TypeMismatch(text_initializer(r.name(),
                    "' has no stable ONNX provenance; provide a stable name override before materialization")));
            }
            owned(r.name())
        },
    };
    let di = match embedded_lookup(data, r.id()) {
        None => {
            let mut m = text_initializer(r.name(), "' (");
            m.append(id_debug_string(r.id()).as_str());
            m.append(") has no embedded tensor data");
            return Err(TynxError::MissingValue(m));
        },
        Some(k) => k,
    };
    let value = &data[di];
    if r.dtype() != Some(value.dtype) {
        let mut m = text_initializer(r.name(), "' report dtype ");
        m.append(crate::graph::opt_dtype_string(r.dtype()).as_str());
        m.append(" differs from embedded dtype ");
        m.append(value.dtype.text());
        return Err(TynxError::TypeMismatch(m));
    }
    match r.shape() {
        Some(shape) => {
            if !sizes_equal(shape, &value.shape) {
                let mut m = text_initializer(r.name(), "' report shape ");
                m.append(usize_list_string(shape).as_str());
                m.append(" differs from embedded shape ");
                m.append(usize_list_string(value.shape.as_slice()).as_str());
                return Err(TynxError::Shape(m));
            }
        },
        None => {},
    }
    let rank = value.shape.len();
    if !(1 <= rank && rank <= 6) {
        let mut m = text_initializer(state_name.as_str(), "' has rank ");
        m.append(usize_text(rank).as_str());
        m.append("; imported state currently supports ranks 1 through 6");
        return Err(TynxError::Shape(m));
    }
    if value.dtype != DType::F32 {
        let mut m = text_initializer(state_name.as_str(), "' has dtype ");
        m.append(value.dtype.text());
        m.append("; v1 materialized training parameters and buffers must use f32");
        return Err(TynxError::TypeMismatch(m));
    }
    let info = TensorInfo {
        shape: copy_sizes(&value.shape),
        dtype: DType::F32,
        device: DeviceInfo { name: device.name.clone(), autodiff: device.autodiff },
    };
    let trainable = role == InitializerRole::Parameter;
    let slot = match ParameterSlot::new(ids, Some(state_name.clone()), &info, trainable) {
        Err(e) => {
            return Err(e);
        },
        Ok(s) => s,
    };
    let ghost sv = slot_view(slot);
    let ghost st_name = state_name@;
    let ghost before = store@;
    let ghost k = made.len();
    proof {
        assert forall|q: int| 0 <= q < before.len() implies (#[trigger] before[q]).id != sv.id by {
            crate::parameter::law_ids_distinct(start, q as nat, k);
        }
        assert(index_of_id(before, sv.id) is None);
        assert forall|q: int| 0 <= q < before.len() implies #[trigger] crate::store::has_name(before[q], st_name)
            == (made[q].state_name == st_name) by {
            assert(before[q].aliases =~= Seq::<Seq<char>>::empty());
        }
    }
    let inserted = store.insert(state_name, slot);
    match inserted {
        Err(e) => {
            proof {
                if !is_blank(st_name) {
                    let o = owner_of(before, st_name)->0;
                    assert(made[o].state_name == st_name);
                    let c = choose|c: int| 0 <= c < made.len() && (#[trigger] made[c]).state_name == st_name;
                    if c != o {
                        assert(crate::store::has_name(before[c], st_name));
                        assert(crate::store::has_name(before[o], st_name));
                    }
                }
            }
            return Err(e);
        },
        Ok(pid) => {
            let ghost mm = Materialized { key: report_view(*r).key, state_name: st_name, role, shape: value.shape@ };
            proof {
                if owner_of(before, st_name) is Some {
                    let o = owner_of(before, st_name)->0;
                    assert(before[o].id != sv.id);
                }
                assert(!(exists|q: int| 0 <= q < made.len() && (#[trigger] made[q]).state_name == st_name)) by {
                    if exists|q: int| 0 <= q < made.len() && (#[trigger] made[q]).state_name == st_name {
                        let q = choose|q: int| 0 <= q < made.len() && (#[trigger] made[q]).state_name == st_name;
                        assert(crate::store::has_name(before[q], st_name));
                    }
                }
                lemma_made_store_push(made, mm, start, device.name@, device.autodiff);
                assert(made_entry(mm, k as int, start, device.name@, device.autodiff) == (EntryView {
                    id: sv.id,
                    canonical: st_name,
                    aliases: Seq::empty(),
                    slot: SlotView { name: Some(st_name), ..sv },
                }));
            }
            Ok(Some(pid))
        },
    }
}

fn copy_sizes(v: &Vec<usize>) -> (r: Vec<usize>)
    ensures
        r@ == v@,
{
    let mut out: Vec<usize> = Vec::new();
    let mut i: usize = 0;
    while i < v.len()
        invariant
            i <= v@.len(),
            out@ == v@.take(i as int),
        decreases v.len() - i,
    {
        out.push(v[i]);
        assert(out@ =~= v@.take(i + 1));
        i = i + 1;
    }
    assert(out@ =~= v@);
    out
}


// ---------------------------------------------------------------------------
// graph materialisation and lookups
// ---------------------------------------------------------------------------

/// The embedded data of the inputs before input `j` of node `k`, in graph order.
pub open spec fn graph_data(g: OnnxGraph, k: int, j: int) -> Seq<(InitializerKey, Seq<usize>, DType)>
    decreases k, j,
{
    if k <= 0 && j <= 0 {
        Seq::empty()
    } else if j <= 0 {
        graph_data(g, k - 1, g.nodes@[k - 1].inputs.len() as int)
    } else {
        let prev = graph_data(g, k, j - 1);
        let a = g.nodes@[k].inputs@[j - 1];
        match (initializer_key(a, k as usize, (j - 1) as usize), a.value_shape, a.value_dtype) {
            (Some(key), Some(shape), Some(dtype)) => prev.push((key, shape@, dtype)),
            _ => prev,
        }
    }
}

fn collect_data(g: &OnnxGraph) -> (r: Vec<EmbeddedData>)
    ensures
        data_view(r@) == graph_data(*g, g.nodes@.len() as int, 0),
{
    let mut out: Vec<EmbeddedData> = Vec::new();
    let mut k: usize = 0;
    assert(data_view(out@) =~= graph_data(*g, 0, 0));
    while k < g.nodes.len()
        invariant
            k <= g.nodes@.len(),
            data_view(out@) == graph_data(*g, k as int, 0),
        decreases g.nodes.len() - k,
    {
        let node = &g.nodes[k];
        let mut j: usize = 0;
        while j < node.inputs.len()
            invariant
                k < g.nodes@.len(),
                *node == g.nodes@[k as int],
                j <= node.inputs@.len(),
                data_view(out@) == graph_data(*g, k as int, j as int),
            decreases node.inputs.len() - j,
        {
            let a = &node.inputs[j];
            let ghost prev = data_view(out@);
            match InitializerId::from_argument(a, k, j) {
                Some(id) => match (&a.value_shape, a.value_dtype) {
                    (Some(shape), Some(dtype)) => {
                        out.push(EmbeddedData { id, shape: copy_sizes(shape), dtype });
                        assert(data_view(out@) =~= prev.push((id_key(id), shape@, dtype)));
                    },
                    _ => {},
                },
                None => {},
            }
            j = j + 1;
        }
        proof {
            assert(graph_data(*g, k + 1, 0) == graph_data(*g, k as int, g.nodes@[k as int].inputs.len() as int));
        }
        k = k + 1;
    }
    out
}

impl ImportedState {
    /// Classify and materialise graph state with role and stable-name overrides and
    /// preserved ONNX initializer provenance.
    pub fn materialize_with_names(
        graph: &OnnxGraph,
        device: &DeviceInfo,
        role_overrides: &crate::trainability::TrainabilityOverrides,
        name_overrides: &InitializerNameOverrides,
        stable_names: &Vec<(InitializerId, String)>,
        ids: &mut ParamIdSource,
    ) -> (r: Result<Self, TynxError>)
        ensures
            ({
                let v = crate::trainability::initializer_analysis(*graph, role_overrides.role_map(), role_overrides.names(),
                    stable_names@);
                let data = graph_data(*graph, graph.nodes@.len() as int, 0);
                match materialize_spec(v, name_overrides.entries(), data, device.autodiff, old(ids).peek()) {
                    Err(e) => r matches Err(x) && error_view(x) == e,
                    Ok(made) => r matches Ok(st) && st.store_view() == made_store(made, old(ids).peek(), device.name@, device.autodiff)
                        && st.slots() == made_slots(made, old(ids).peek()) && st.roles() == made_roles(made)
                        && st.report_view() == v,
                }
            }),
    {
        let report = TrainabilityReport::analyze_initializers_with_names(graph, role_overrides, stable_names);
        let data = collect_data(graph);
        materialize_report(report, device, name_overrides, &data, ids)
    }

    /// Classify and materialise graph state with role and stable-name overrides.
    pub fn materialize_with(
        graph: &OnnxGraph,
        device: &DeviceInfo,
        role_overrides: &crate::trainability::TrainabilityOverrides,
        name_overrides: &InitializerNameOverrides,
        ids: &mut ParamIdSource,
    ) -> (r: Result<Self, TynxError>)
        ensures
            ({
                let v = crate::trainability::initializer_analysis(*graph, role_overrides.role_map(), role_overrides.names(),
                    Seq::empty());
                let data = graph_data(*graph, graph.nodes@.len() as int, 0);
                match materialize_spec(v, name_overrides.entries(), data, device.autodiff, old(ids).peek()) {
                    Err(e) => r matches Err(x) && error_view(x) == e,
                    Ok(made) => r matches Ok(st) && st.store_view() == made_store(made, old(ids).peek(), device.name@, device.autodiff)
                        && st.slots() == made_slots(made, old(ids).peek()) && st.roles() == made_roles(made)
                        && st.report_view() == v,
                }
            }),
    {
        let names: Vec<(InitializerId, String)> = Vec::new();
        assert(names@ =~= Seq::<(InitializerId, String)>::empty());
        Self::materialize_with_names(graph, device, role_overrides, name_overrides, &names, ids)
    }

    /// Classify and materialise graph state with automatic roles and preserved names.
    pub fn materialize(graph: &OnnxGraph, device: &DeviceInfo, ids: &mut ParamIdSource) -> (r: Result<Self, TynxError>)
        ensures
            ({
                let v = crate::trainability::initializer_analysis(*graph, Map::empty(), Seq::empty(), Seq::empty());
                let data = graph_data(*graph, graph.nodes@.len() as int, 0);
                match materialize_spec(v, Seq::empty(), data, device.autodiff, old(ids).peek()) {
                    Err(e) => r matches Err(x) && error_view(x) == e,
                    Ok(made) => r matches Ok(st) && st.store_view() == made_store(made, old(ids).peek(), device.name@, device.autodiff)
                        && st.slots() == made_slots(made, old(ids).peek()) && st.roles() == made_roles(made)
                        && st.report_view() == v,
                }
            }),
    {
        let roles = crate::trainability::TrainabilityOverrides::new();
        let names = InitializerNameOverrides::new();
        Self::materialize_with(graph, device, &roles, &names, ids)
    }

    /// Return the classification report used to construct this state.
    pub fn report(&self) -> (r: &TrainabilityReport)
        ensures
            r@ == self.report_view(),
    {
        &self.report
    }

    /// Return all materialised parameters and buffers.
    pub fn store(&self) -> (r: &ParameterStore)
        ensures
            r@ == self.store_view(),
    {
        &self.store
    }

    /// Give up the imported state and keep its parameter store.
    pub fn into_store(self) -> (r: ParameterStore)
        ensures
            r@ == self.store_view(),
    {
        self.store
    }

    /// The store entry of the slot made for an initializer key, if the key was processed
    /// and its slot is still in the store.
    pub open spec fn slot_entry(self, key: InitializerKey) -> Option<int> {
        match first_slot(self.slots(), key, self.slots().len() as int) {
            Some(i) => index_of_id(self.store_view(), self.slots()[i].1),
            None => None,
        }
    }

    /// The store entry that backs one node input, if any.
    pub open spec fn input_entry(self, input: Argument, node_index: usize, input_index: usize) -> Option<int> {
        match initializer_key(input, node_index, input_index) {
            Some(key) => self.slot_entry(key),
            None => None,
        }
    }

    fn slot_index(&self, id: &InitializerId) -> (r: Option<usize>)
        ensures
            match r {
                Some(i) => first_slot(self.slots(), id_key(*id), self.slots().len() as int) == Some(i as int)
                    && i < self.slots().len(),
                None => first_slot(self.slots(), id_key(*id), self.slots().len() as int) is None,
            },
    {
        let mut i: usize = 0;
        while i < self.initializer_slots.len()
            invariant
                i <= self.initializer_slots@.len(),
                first_slot(self.slots(), id_key(*id), i as int) is None,
            decreases self.initializer_slots.len() - i,
        {
            if self.initializer_slots[i].0.same(id) {
                proof {
                    lemma_first_slot_stable(self.slots(), id_key(*id), i as int + 1, self.slots().len() as int);
                }
                return Some(i);
            }
            i = i + 1;
        }
        None
    }

    /// Return the slot made for one processed initializer identity.
    pub fn slot_for_initializer(&self, id: &InitializerId) -> (r: Option<&ParameterSlot>)
        ensures
            match r {
                Some(s) => self.slot_entry(id_key(*id)) matches Some(q) && slot_view(*s) == self.store_view()[q].slot,
                None => self.slot_entry(id_key(*id)) is None,
            },
    {
        match self.slot_index(id) {
            Some(i) => self.store.get(self.initializer_slots[i].1),
            None => None,
        }
    }

    /// Resolve an embedded node input to its materialised slot.
    pub fn slot_for_input(&self, node_index: usize, input_index: usize, input: &Argument) -> (r: Option<&ParameterSlot>)
        ensures
            match r {
                Some(s) => self.input_entry(*input, node_index, input_index) matches Some(q)
                    && slot_view(*s) == self.store_view()[q].slot,
                None => self.input_entry(*input, node_index, input_index) is None,
            },
    {
        match InitializerId::from_argument(input, node_index, input_index) {
            Some(id) => self.slot_for_initializer(&id),
            None => None,
        }
    }

    /// Return the classified role of a materialised initializer.
    pub fn role_for_initializer(&self, id: &InitializerId) -> (r: Option<InitializerRole>)
        ensures
            match r {
                Some(role) => exists|i: int| 0 <= i < self.roles().len() && (#[trigger] self.roles()[i]).0 == id_key(*id)
                    && self.roles()[i].1 == role && forall|k: int| 0 <= k < i ==> (#[trigger] self.roles()[k]).0 != id_key(*id),
                None => forall|i: int| 0 <= i < self.roles().len() ==> (#[trigger] self.roles()[i]).0 != id_key(*id),
            },
    {
        let mut i: usize = 0;
        while i < self.initializer_roles.len()
            invariant
                i <= self.initializer_roles@.len(),
                forall|k: int| 0 <= k < i ==> (#[trigger] self.roles()[k]).0 != id_key(*id),
            decreases self.initializer_roles.len() - i,
        {
            if self.initializer_roles[i].0.same(id) {
                assert(self.roles()[i as int].0 == id_key(*id));
                return Some(self.initializer_roles[i].1);
            }
            i = i + 1;
        }
        None
    }

    /// The named trainable parameter slots, in store order.
    pub fn parameters(&self) -> (r: Vec<(&str, &ParameterSlot)>)
        ensures
            r@.map_values(|p: (&str, &ParameterSlot)| (p.0@, slot_view(*p.1)))
                == named_where(self.store_view(), true, self.store_view().len() as int),
    {
        named_with_trainable(&self.store, true)
    }

    /// The named fixed buffer slots, in store order.
    pub fn buffers(&self) -> (r: Vec<(&str, &ParameterSlot)>)
        ensures
            r@.map_values(|p: (&str, &ParameterSlot)| (p.0@, slot_view(*p.1)))
                == named_where(self.store_view(), false, self.store_view().len() as int),
    {
        named_with_trainable(&self.store, false)
    }
}

/// The position of the first slot entry before `n` made for `key`.
pub open spec fn first_slot(slots: Seq<(InitializerKey, u64)>, key: InitializerKey, n: int) -> Option<int>
    decreases n,
{
    if n <= 0 {
        None
    } else {
        match first_slot(slots, key, n - 1) {
            Some(i) => Some(i),
            None => if slots[n - 1].0 == key { Some(n - 1) } else { None },
        }
    }
}

proof fn lemma_first_slot_stable(slots: Seq<(InitializerKey, u64)>, key: InitializerKey, m: int, n: int)
    requires
        1 <= m <= n,
        first_slot(slots, key, m) is Some,
    ensures
        first_slot(slots, key, n) == first_slot(slots, key, m),
    decreases n - m,
{
    if m < n {
        lemma_first_slot_stable(slots, key, m, n - 1);
    }
}

/// The canonical names and slots before `n` whose trainability is `trainable`.
pub open spec fn named_where(v: Seq<EntryView>, trainable: bool, n: int) -> Seq<(Seq<char>, SlotView)>
    decreases n,
{
    if n <= 0 {
        Seq::empty()
    } else if v[n - 1].slot.contract.trainable == trainable {
        named_where(v, trainable, n - 1).push((v[n - 1].canonical, v[n - 1].slot))
    } else {
        named_where(v, trainable, n - 1)
    }
}

fn named_with_trainable(store: &ParameterStore, trainable: bool) -> (r: Vec<(&str, &ParameterSlot)>)
    ensures
        r@.map_values(|p: (&str, &ParameterSlot)| (p.0@, slot_view(*p.1))) == named_where(store@, trainable, store@.len() as int),
{
    let named = store.named();
    let ghost nv = named@.map_values(|p: (&str, &ParameterSlot)| (p.0@, slot_view(*p.1)));
    assert(nv.len() == named@.len());
    assert(store@.map_values(|e: EntryView| (e.canonical, e.slot)).len() == store@.len());
    let mut out: Vec<(&str, &ParameterSlot)> = Vec::new();
    let mut i: usize = 0;
    while i < named.len()
        invariant
            i <= named@.len(),
            named@.len() == store@.len(),
            nv == named@.map_values(|p: (&str, &ParameterSlot)| (p.0@, slot_view(*p.1))),
            nv == store@.map_values(|e: EntryView| (e.canonical, e.slot)),
            out@.map_values(|p: (&str, &ParameterSlot)| (p.0@, slot_view(*p.1))) == named_where(store@, trainable, i as int),
        decreases named.len() - i,
    {
        let pair = named[i];
        proof {
            assert(nv[i as int] == (pair.0@, slot_view(*pair.1)));
            assert(nv[i as int] == (store@[i as int].canonical, store@[i as int].slot));
        }
        if pair.1.contract().trainable() == trainable {
            let ghost prev = out@;
            out.push(pair);
            assert(out@.map_values(|p: (&str, &ParameterSlot)| (p.0@, slot_view(*p.1)))
                =~= prev.map_values(|p: (&str, &ParameterSlot)| (p.0@, slot_view(*p.1))).push((pair.0@, slot_view(*pair.1))));
        }
        i = i + 1;
    }
    out
}

// ---------------------------------------------------------------------------
// slot-backed operators and runtime inputs
// ---------------------------------------------------------------------------

/// Whether an operator reads slot-backed state at an input position.
pub open spec fn slot_backed(k: OpKind, i: int) -> bool {
    match k {
        OpKind::Linear | OpKind::Gemm => i == 1 || i == 2,
        OpKind::MatMul => i == 0 || i == 1,
        OpKind::BatchNormalization => 1 <= i <= 4,
        OpKind::Conv2d => 0 <= i <= 2,
        OpKind::Gather => i == 0,
        OpKind::LayerNormalization => 0 <= i <= 2,
        _ => false,
    }
}

/// The operator positions the executor reads from parameter slots: dense layers'
/// weight and bias, both matrix-product operands, batch normalisation's four
/// parameters and statistics, a 2-D convolution's input, weight and bias, a
/// gather's data, and layer normalisation's input, scale and bias. A model whose
/// materialised initializers sit only at such positions passes the check.
pub proof fn law_executor_slot_positions(graph: OnnxGraph, state: ImportedState)
    requires
        forall|k: int, j: int| 0 <= k < graph.nodes@.len() && 0 <= j < graph.nodes@[k].inputs@.len()
            && (#[trigger] state.input_entry(graph.nodes@[k].inputs@[j], k as usize, j as usize)) is Some
            ==> ({
                let kind = graph.nodes@[k].kind;
                ||| (kind is Linear || kind is Gemm) && (j == 1 || j == 2)
                ||| kind is MatMul && (j == 0 || j == 1)
                ||| kind is BatchNormalization && 1 <= j <= 4
                ||| kind is Conv2d && 0 <= j <= 2
                ||| kind is Gather && j == 0
                ||| kind is LayerNormalization && 0 <= j <= 2
            }),
    ensures
        slot_positions_supported(graph, state),
        forall|j: int| 0 <= j <= 2 ==> #[trigger] slot_backed(OpKind::Conv2d, j),
        forall|j: int| 1 <= j <= 4 ==> #[trigger] slot_backed(OpKind::BatchNormalization, j),
        forall|j: int| 0 <= j <= 2 ==> #[trigger] slot_backed(OpKind::LayerNormalization, j),
        forall|j: int| j == 1 || j == 2 ==> #[trigger] slot_backed(OpKind::Linear, j) && slot_backed(OpKind::Gemm, j),
        forall|j: int| j == 0 || j == 1 ==> #[trigger] slot_backed(OpKind::MatMul, j),
        slot_backed(OpKind::Gather, 0),
{
}

fn slot_backed_at(k: &OpKind, i: usize) -> (r: bool)
    ensures
        r == slot_backed(*k, i as int),
{
    match k {
        OpKind::Linear | OpKind::Gemm => i == 1 || i == 2,
        OpKind::MatMul => i == 0 || i == 1,
        OpKind::BatchNormalization => 1 <= i && i <= 4,
        OpKind::Conv2d => i <= 2,
        OpKind::Gather => i == 0,
        OpKind::LayerNormalization => i <= 2,
        _ => false,
    }
}

/// Whether every embedded input that resolves to a materialised slot stands at an
/// operator position that reads slot-backed state.
pub open spec fn slot_positions_supported(graph: OnnxGraph, state: ImportedState) -> bool {
    forall|k: int, j: int| 0 <= k < graph.nodes@.len() && 0 <= j < graph.nodes@[k].inputs@.len()
        && (#[trigger] state.input_entry(graph.nodes@[k].inputs@[j], k as usize, j as usize)) is Some
        ==> slot_backed(graph.nodes@[k].kind, j)
}

/// Check that every materialised initializer is read by an operator position that
/// uses slot-backed state.
pub fn validate_slot_backed(graph: &OnnxGraph, state: &ImportedState) -> (r: Result<(), TynxError>)
    ensures
        r is Ok <==> slot_positions_supported(*graph, *state),
        r matches Err(e) ==> error_view(e).0 == ErrorKind::UnsupportedOp && exists|k: int, j: int|
            0 <= k < graph.nodes@.len() && 0 <= j < graph.nodes@[k].inputs@.len()
            && (#[trigger] state.input_entry(graph.nodes@[k].inputs@[j], k as usize, j as usize)) is Some
            && !slot_backed(graph.nodes@[k].kind, j)
            && (forall|k2: int, j2: int| 0 <= k2 < graph.nodes@.len() && 0 <= j2 < graph.nodes@[k2].inputs@.len()
                && (k2 < k || (k2 == k && j2 < j))
                && (#[trigger] state.input_entry(graph.nodes@[k2].inputs@[j2], k2 as usize, j2 as usize)) is Some
                ==> slot_backed(graph.nodes@[k2].kind, j2))
            && error_view(e).1 == "slot-backed execution for "@ + op_kind_text(graph.nodes@[k].kind) + " node '"@
                + graph.nodes@[k].name@ + "' input "@ + decimal(j as nat) + " is not implemented"@,
{
    let mut k: usize = 0;
    while k < graph.nodes.len()
        invariant
            k <= graph.nodes@.len(),
            forall|k2: int, j: int| 0 <= k2 < k && 0 <= j < graph.nodes@[k2].inputs@.len()
                && (#[trigger] state.input_entry(graph.nodes@[k2].inputs@[j], k2 as usize, j as usize)) is Some
                ==> slot_backed(graph.nodes@[k2].kind, j),
        decreases graph.nodes.len() - k,
    {
        let node = &graph.nodes[k];
        let mut j: usize = 0;
        while j < node.inputs.len()
            invariant
                k < graph.nodes@.len(),
                *node == graph.nodes@[k as int],
                j <= node.inputs@.len(),
                forall|k2: int, j2: int| 0 <= k2 < k && 0 <= j2 < graph.nodes@[k2].inputs@.len()
                    && (#[trigger] state.input_entry(graph.nodes@[k2].inputs@[j2], k2 as usize, j2 as usize)) is Some
                    ==> slot_backed(graph.nodes@[k2].kind, j2),
                forall|j2: int| 0 <= j2 < j
                    && (#[trigger] state.input_entry(node.inputs@[j2], k, j2 as usize)) is Some
                    ==> slot_backed(node.kind, j2),
            decreases node.inputs.len() - j,
        {
            if state.slot_for_input(k, j, &node.inputs[j]).is_some() && !slot_backed_at(&node.kind, j) {
                let mut m = owned("slot-backed execution for ");
                m.append(node.kind.name().as_str());
                m.append(" node '");
                m.append(node.name.as_str());
                m.append("' input ");
                m.append(usize_text(j).as_str());
                m.append(" is not implemented");
                let e = TynxError::UnsupportedOp(m);
                proof {
                    assert(state.input_entry(graph.nodes@[k as int].inputs@[j as int], (k as int) as usize, (j as int) as usize) is Some);
                    assert forall|k2: int, j2: int| 0 <= k2 < graph.nodes@.len() && 0 <= j2 < graph.nodes@[k2].inputs@.len()
                        && (k2 < k || (k2 == k && j2 < j))
                        && (#[trigger] state.input_entry(graph.nodes@[k2].inputs@[j2], k2 as usize, j2 as usize)) is Some
                        implies slot_backed(graph.nodes@[k2].kind, j2) by {
                        if k2 == k {
                            assert(node.inputs@[j2] == graph.nodes@[k2].inputs@[j2]);
                            assert(state.input_entry(node.inputs@[j2], k, j2 as usize) is Some);
                        }
                    }
                }
                return Err(e);
            }
            j = j + 1;
        }
        k = k + 1;
    }
    Ok(())
}

/// A shape with unknown dimensions, as `[2, ?, 3]`.
pub open spec fn shape_text(dims: Seq<Option<usize>>) -> Seq<char> {
    "["@ + crate::text::join(dims.map_values(|d: Option<usize>| match d {
        Some(v) => decimal(v as nat),
        None => "?"@,
    }), ", "@) + "]"@
}

/// Render a shape with unknown dimensions.
pub fn display_shape(shape: &[Option<usize>]) -> (r: String)
    ensures
        r@ == shape_text(shape@),
{
    let ghost parts_view = shape@.map_values(|d: Option<usize>| match d {
        Some(v) => decimal(v as nat),
        None => "?"@,
    });
    let mut parts: Vec<String> = Vec::new();
    let mut i: usize = 0;
    while i < shape.len()
        invariant
            i <= shape@.len(),
            parts_view == shape@.map_values(|d: Option<usize>| match d {
                Some(v) => decimal(v as nat),
                None => "?"@,
            }),
            views(parts@) == parts_view.take(i as int),
        decreases shape.len() - i,
    {
        let t = match shape[i] {
            Some(v) => usize_text(v),
            None => owned("?"),
        };
        let ghost prev = views(parts@);
        parts.push(t);
        assert(views(parts@) =~= prev.push(t@));
        assert(parts_view.take(i + 1) =~= parts_view.take(i as int).push(parts_view[i as int]));
        i = i + 1;
    }
    assert(parts_view.take(shape@.len() as int) =~= parts_view);
    let joined = crate::text::join_strings(&parts, ", ");
    let mut out = owned("[");
    out.append(joined.as_str());
    out.append("]");
    out
}


// ---------------------------------------------------------------------------
// runtime inputs
// ---------------------------------------------------------------------------

/// A value handed to an imported graph input at run time.
#[derive(Debug, Clone)]
pub enum InputValue {
    /// A float tensor.
    Float(TensorInfo),
    /// An integer tensor.
    Int(TensorInfo),
    /// A boolean tensor.
    Bool(TensorInfo),
    /// A native scalar.
    Scalar,
    /// A shape of the given length.
    Shape(usize),
}

/// The variant name of a runtime value, as messages name it.
pub open spec fn value_kind_text(v: InputValue) -> Seq<char> {
    match v {
        InputValue::Float(_) => "Tensor"@,
        InputValue::Int(_) => "Int"@,
        InputValue::Bool(_) => "Bool"@,
        InputValue::Scalar => "Scalar"@,
        InputValue::Shape(_) => "Shape"@,
    }
}

fn value_kind_name(v: &InputValue) -> (r: &'static str)
    ensures
        r@ == value_kind_text(*v),
{
    match v {
        InputValue::Float(_) => "Tensor",
        InputValue::Int(_) => "Int",
        InputValue::Bool(_) => "Bool",
        InputValue::Scalar => "Scalar",
        InputValue::Shape(_) => "Shape",
    }
}

/// `n` unknown dimensions.
pub open spec fn unknown_dims(n: nat) -> Seq<Option<usize>> {
    Seq::new(n, |i: int| None::<usize>)
}

/// The statically known dimensions of a tensor type, if it declares them.
pub open spec fn static_dims(t: TensorType) -> Option<Seq<Option<usize>>> {
    match t.static_shape {
        Some(dims) => Some(dims@),
        None => None,
    }
}

/// How a tensor type prints: its element type, then its dimensions in brackets.
pub open spec fn tensor_type_text(t: TensorType) -> Seq<char> {
    dtype_text(t.dtype) + match static_dims(t) {
        Some(dims) => shape_text(dims),
        None => shape_text(unknown_dims(t.rank as nat)),
    }
}

/// How an argument type prints.
pub open spec fn arg_type_text(ty: ArgType) -> Seq<char> {
    match ty {
        ArgType::ScalarTensor(d) => "ScalarTensor("@ + dtype_text(d) + ")"@,
        ArgType::ScalarNative(d) => "ScalarNative("@ + dtype_text(d) + ")"@,
        ArgType::Shape(rank) => "Shape("@ + decimal(rank as nat) + ")"@,
        ArgType::Tensor(t) => tensor_type_text(t),
    }
}

fn arg_type_string(ty: &ArgType) -> (r: String)
    ensures
        r@ == arg_type_text(*ty),
{
    match ty {
        ArgType::ScalarTensor(d) => {
            let mut m = owned("ScalarTensor(");
            m.append(d.text());
            m.append(")");
            m
        },
        ArgType::ScalarNative(d) => {
            let mut m = owned("ScalarNative(");
            m.append(d.text());
            m.append(")");
            m
        },
        ArgType::Shape(rank) => {
            let mut m = owned("Shape(");
            m.append(usize_text(*rank).as_str());
            m.append(")");
            m
        },
        ArgType::Tensor(t) => {
            let mut m = owned(t.dtype.text());
            let dims = match &t.static_shape {
                Some(dims) => display_shape(dims.as_slice()),
                None => {
                    let mut unknown: Vec<Option<usize>> = Vec::new();
                    let mut i: usize = 0;
                    while i < t.rank
                        invariant
                            i <= t.rank,
                            unknown@ =~= unknown_dims(i as nat),
                        decreases t.rank - i,
                    {
                        unknown.push(None);
                        i = i + 1;
                    }
                    display_shape(unknown.as_slice())
                },
            };
            m.append(dims.as_str());
            m
        },
    }
}

/// The first axis before `n` on which a statically known dimension differs from the
/// actual one, with the dimension expected there.
pub open spec fn first_dim_mismatch(expected: Seq<Option<usize>>, actual: Seq<usize>, n: int) -> Option<(int, usize)>
    decreases n,
{
    if n <= 0 {
        None
    } else {
        match first_dim_mismatch(expected, actual, n - 1) {
            Some(m) => Some(m),
            None => match expected[n - 1] {
                Some(d) => if actual[n - 1] != d { Some((n - 1, d)) } else { None },
                None => None,
            },
        }
    }
}

/// The shorter of two lengths.
pub open spec fn min_len(a: nat, b: nat) -> int {
    if a < b { a as int } else { b as int }
}

/// What checking a tensor input against an element type, a rank and optional static
/// dimensions gives: the error kind and message on failure (for a device mismatch,
/// the input's name).
pub open spec fn tensor_input_outcome(
    name: Seq<char>,
    dtype: DType,
    rank: usize,
    dims: Option<Seq<Option<usize>>>,
    device: DeviceInfo,
    value: InputValue,
) -> Result<(), (ErrorKind, Seq<char>)> {
    let q = "imported input '"@ + name;
    match value {
        InputValue::Float(t) | InputValue::Int(t) | InputValue::Bool(t) => {
            let same_device = match value {
                InputValue::Float(_) => t.device.name@ == device.name@ && t.device.autodiff == device.autodiff,
                _ => t.device.name@ == device.name@,
            };
            if t.dtype != dtype {
                Err((ErrorKind::TypeMismatch, q + "' expects dtype "@ + dtype_text(dtype) + ", got "@ + dtype_text(t.dtype)))
            } else if !same_device {
                Err((ErrorKind::DeviceMismatch, name))
            } else if t.shape@.len() != rank {
                Err((ErrorKind::Shape, q + "' expects rank "@ + decimal(rank as nat) + ", got shape "@
                    + usize_list_text(t.shape@)))
            } else {
                match dims {
                    Some(ds) => match first_dim_mismatch(ds, t.shape@, min_len(ds.len(), t.shape@.len())) {
                        Some((axis, d)) => Err((ErrorKind::Shape, q + "' expects shape "@ + shape_text(ds) + ", got "@
                            + usize_list_text(t.shape@) + "; dimension "@ + decimal(axis as nat) + " must be "@
                            + decimal(d as nat))),
                        None => Ok(()),
                    },
                    None => Ok(()),
                }
            }
        },
        _ => Err((ErrorKind::TypeMismatch, q + "' expects a tensor, got "@ + value_kind_text(value))),
    }
}

/// The device of a tensor value.
pub open spec fn value_device(v: InputValue) -> Option<DeviceInfo> {
    match v {
        InputValue::Float(t) | InputValue::Int(t) | InputValue::Bool(t) => Some(t.device),
        _ => None,
    }
}

fn dims_mismatch(expected: &[Option<usize>], actual: &Vec<usize>) -> (r: Option<(usize, usize)>)
    ensures
        match first_dim_mismatch(expected@, actual@, min_len(expected@.len(), actual@.len())) {
            Some((axis, d)) => r matches Some((a, dd)) && a as int == axis && dd == d,
            None => r is None,
        },
{
    let n: usize = if expected.len() < actual.len() { expected.len() } else { actual.len() };
    let mut axis: usize = 0;
    while axis < n
        invariant
            n as int == min_len(expected@.len(), actual@.len()),
            axis <= n,
            first_dim_mismatch(expected@, actual@, axis as int) is None,
        decreases n - axis,
    {
        if let Some(d) = expected[axis] {
            if actual[axis] != d {
                proof {
                    lemma_dim_mismatch_stable(expected@, actual@, axis as int + 1, n as int);
                }
                return Some((axis, d));
            }
        }
        axis = axis + 1;
    }
    None
}

proof fn lemma_dim_mismatch_stable(expected: Seq<Option<usize>>, actual: Seq<usize>, m: int, n: int)
    requires
        1 <= m <= n,
        first_dim_mismatch(expected, actual, m) is Some,
    ensures
        first_dim_mismatch(expected, actual, n) == first_dim_mismatch(expected, actual, m),
    decreases n - m,
{
    if m < n {
        lemma_dim_mismatch_stable(expected, actual, m, n - 1);
    }
}

/// Check a runtime value against a tensor input's element type, device, rank and
/// statically known dimensions.
fn validate_tensor_input(
    name: &str,
    dtype: DType,
    rank: usize,
    dims: Option<&[Option<usize>]>,
    device: &DeviceInfo,
    value: &InputValue,
) -> (r: Result<(), TynxError>)
    ensures
        ({
            let ds = match dims { Some(d) => Some(d@), None => None };
            match tensor_input_outcome(name@, dtype, rank, ds, *device, *value) {
                Ok(()) => r is Ok,
                Err(e) => r matches Err(x) && error_view(x) == e,
            }
        }),
        r matches Err(TynxError::DeviceMismatch { expected, actual, .. }) ==> (value_device(*value) matches Some(d)
            && actual@ == d.name@ && expected@ == device.name@),
{
    let t = match value {
        InputValue::Float(t) | InputValue::Int(t) | InputValue::Bool(t) => t,
        _ => {
            let mut m = owned("imported input '");
            m.append(name);
            m.append("' expects a tensor, got ");
            m.append(value_kind_name(value));
            return Err(TynxError::TypeMismatch(m));
        },
    };
    if t.dtype != dtype {
        let mut m = owned("imported input '");
        m.append(name);
        m.append("' expects dtype ");
        m.append(dtype.text());
        m.append(", got ");
        m.append(t.dtype.text());
        return Err(TynxError::TypeMismatch(m));
    }
    let same_name = str_eq(t.device.name.as_str(), device.name.as_str());
    let same_device = match value {
        InputValue::Float(_) => same_name && t.device.autodiff == device.autodiff,
        _ => same_name,
    };
    if !same_device {
        return Err(TynxError::DeviceMismatch {
            name: owned(name),
            expected: device.name.clone(),
            actual: t.device.name.clone(),
        });
    }
    if t.shape.len() != rank {
        let mut m = owned("imported input '");
        m.append(name);
        m.append("' expects rank ");
        m.append(usize_text(rank).as_str());
        m.append(", got shape ");
        m.append(usize_list_string(t.shape.as_slice()).as_str());
        return Err(TynxError::Shape(m));
    }
    match dims {
        Some(ds) => match dims_mismatch(ds, &t.shape) {
            Some((axis, d)) => {
                let mut m = owned("imported input '");
                m.append(name);
                m.append("' expects shape ");
                m.append(display_shape(ds).as_str());
                m.append(", got ");
                m.append(usize_list_string(t.shape.as_slice()).as_str());
                m.append("; dimension ");
                m.append(usize_text(axis).as_str());
                m.append(" must be ");
                m.append(usize_text(d).as_str());
                Err(TynxError::Shape(m))
            },
            None => Ok(()),
        },
        None => Ok(()),
    }
}

/// What checking a runtime value against an imported input's declared type gives.
pub open spec fn input_outcome(input: Argument, device: DeviceInfo, value: InputValue) -> Result<(), (ErrorKind, Seq<char>)> {
    let q = "imported input '"@ + input.name@;
    let mismatch = Err((ErrorKind::TypeMismatch, q + "' expects "@ + arg_type_text(input.ty) + ", got "@
        + value_kind_text(value)));
    match input.ty {
        ArgType::Tensor(t) => tensor_input_outcome(input.name@, t.dtype, t.rank, static_dims(t), device, value),
        ArgType::ScalarTensor(d) => tensor_input_outcome(input.name@, d, 1, Some(seq![Some(1usize)]), device, value),
        ArgType::ScalarNative(_) => if value is Scalar { Ok(()) } else { mismatch },
        ArgType::Shape(rank) => match value {
            InputValue::Shape(len) => if len == rank {
                Ok(())
            } else {
                Err((ErrorKind::Shape, q + "' expects a shape of length "@ + decimal(rank as nat) + ", got length "@
                    + decimal(len as nat)))
            },
            _ => mismatch,
        },
    }
}

/// Check one runtime value against an imported graph input's declared type: its kind,
/// element type, device, rank and statically known dimensions.
pub fn validate_input(input: &Argument, device: &DeviceInfo, value: &InputValue) -> (r: Result<(), TynxError>)
    ensures
        match input_outcome(*input, *device, *value) {
            Ok(()) => r is Ok,
            Err(e) => r matches Err(x) && error_view(x) == e,
        },
        r matches Err(TynxError::DeviceMismatch { expected, actual, .. }) ==> (value_device(*value) matches Some(d)
            && actual@ == d.name@ && expected@ == device.name@),
{
    match &input.ty {
        ArgType::Tensor(t) => {
            let dims = match &t.static_shape {
                Some(v) => Some(v.as_slice()),
                None => None,
            };
            validate_tensor_input(input.name.as_str(), t.dtype, t.rank, dims, device, value)
        },
        ArgType::ScalarTensor(d) => {
            let one: Vec<Option<usize>> = vec![Some(1usize)];
            assert(one@ =~= seq![Some(1usize)]);
            validate_tensor_input(input.name.as_str(), *d, 1, Some(one.as_slice()), device, value)
        },
        ArgType::ScalarNative(_) => {
            match value {
                InputValue::Scalar => Ok(()),
                _ => Err(type_mismatch(input, value)),
            }
        },
        ArgType::Shape(rank) => match value {
            InputValue::Shape(len) => {
                if *len == *rank {
                    Ok(())
                } else {
                    let mut m = owned("imported input '");
                    m.append(input.name.as_str());
                    m.append("' expects a shape of length ");
                    m.append(usize_text(*rank).as_str());
                    m.append(", got length ");
                    m.append(usize_text(*len).as_str());
                    Err(TynxError::Shape(m))
                }
            },
            _ => Err(type_mismatch(input, value)),
        },
    }
}

fn type_mismatch(input: &Argument, value: &InputValue) -> (r: TynxError)
    ensures
        error_view(r) == (ErrorKind::TypeMismatch, "imported input '"@ + input.name@ + "' expects "@
            + arg_type_text(input.ty) + ", got "@ + value_kind_text(*value)),
{
    let mut m = owned("imported input '");
    m.append(input.name.as_str());
    m.append("' expects ");
    m.append(arg_type_string(&input.ty).as_str());
    m.append(", got ");
    m.append(value_kind_name(value));
    TynxError::TypeMismatch(m)
}

/// The value bound to `name`, the first of its bindings.
pub open spec fn bound_value(values: Seq<(String, InputValue)>, name: Seq<char>, n: int) -> Option<InputValue>
    decreases n,
{
    if n <= 0 {
        None
    } else {
        match bound_value(values, name, n - 1) {
            Some(v) => Some(v),
            None => if values[n - 1].0@ == name { Some(values[n - 1].1) } else { None },
        }
    }
}

/// What checking every declared input, in order, gives.
pub open spec fn inputs_outcome(inputs: Seq<Argument>, values: Seq<(String, InputValue)>, device: DeviceInfo, n: int)
    -> Result<(), (ErrorKind, Seq<char>)>
    decreases n,
{
    if n <= 0 {
        Ok(())
    } else {
        match inputs_outcome(inputs, values, device, n - 1) {
            Err(e) => Err(e),
            Ok(()) => match bound_value(values, inputs[n - 1].name@, values.len() as int) {
                None => Err((ErrorKind::MissingValue, inputs[n - 1].name@)),
                Some(v) => input_outcome(inputs[n - 1], device, v),
            },
        }
    }
}

proof fn lemma_bound_value_stable(values: Seq<(String, InputValue)>, name: Seq<char>, m: int, n: int)
    requires
        1 <= m <= n,
        bound_value(values, name, m) is Some,
    ensures
        bound_value(values, name, n) == bound_value(values, name, m),
    decreases n - m,
{
    if m < n {
        lemma_bound_value_stable(values, name, m, n - 1);
    }
}

fn lookup_value<'a>(values: &'a [(String, InputValue)], name: &str) -> (r: Option<&'a InputValue>)
    ensures
        match bound_value(values@, name@, values@.len() as int) {
            Some(v) => r == Some(&v),
            None => r is None,
        },
{
    let mut i: usize = 0;
    while i < values.len()
        invariant
            i <= values@.len(),
            bound_value(values@, name@, i as int) is None,
        decreases values.len() - i,
    {
        if str_eq(values[i].0.as_str(), name) {
            proof {
                lemma_bound_value_stable(values@, name@, i as int + 1, values@.len() as int);
            }
            return Some(&values[i].1);
        }
        i = i + 1;
    }
    None
}

/// Check that every declared graph input has a bound value of the declared type, in
/// declaration order; a value bound twice is read at its first binding.
pub fn validate_inputs(inputs: &[Argument], values: &[(String, InputValue)], device: &DeviceInfo) -> (r: Result<(), TynxError>)
    ensures
        match inputs_outcome(inputs@, values@, *device, inputs@.len() as int) {
            Ok(()) => r is Ok,
            Err(e) => r matches Err(x) && error_view(x) == e,
        },
        r matches Err(TynxError::DeviceMismatch { name, expected, actual }) ==> (expected@ == device.name@
            && (exists|k: int| 0 <= k < inputs@.len() && (#[trigger] inputs@[k]).name@ == name@)
            && (bound_value(values@, name@, values@.len() as int) matches Some(v)
                && (value_device(v) matches Some(d) && actual@ == d.name@))),
{
    let mut i: usize = 0;
    while i < inputs.len()
        invariant
            i <= inputs@.len(),
            inputs_outcome(inputs@, values@, *device, i as int) is Ok,
        decreases inputs.len() - i,
    {
        let input = &inputs[i];
        match lookup_value(values, input.name.as_str()) {
            None => {
                proof {
                    lemma_inputs_err(inputs@, values@, *device, i as int + 1, inputs@.len() as int);
                }
                return Err(TynxError::MissingValue(input.name.clone()));
            },
            Some(v) => {
                let checked = validate_input(input, device, v);
                match checked {
                    Err(e) => {
                        proof {
                            lemma_inputs_err(inputs@, values@, *device, i as int + 1, inputs@.len() as int);
                            if let TynxError::DeviceMismatch { name, .. } = &e {
                                assert(input_outcome(*input, *device, *v) == Err::<(), (ErrorKind, Seq<char>)>(error_view(e)));
                                assert(name@ == input.name@);
                                assert(inputs@[i as int].name@ == name@);
                            }
                        }
                        return Err(e);
                    },
                    Ok(()) => {},
                }
            },
        }
        i = i + 1;
    }
    Ok(())
}

proof fn lemma_inputs_err(inputs: Seq<Argument>, values: Seq<(String, InputValue)>, device: DeviceInfo, m: int, n: int)
    requires
        1 <= m <= n,
        inputs_outcome(inputs, values, device, m) is Err,
    ensures
        inputs_outcome(inputs, values, device, n) == inputs_outcome(inputs, values, device, m),
    decreases n - m,
{
    if m < n {
        lemma_inputs_err(inputs, values, device, m, n - 1);
    }
}


// ---------------------------------------------------------------------------
// output analysis under public names
// ---------------------------------------------------------------------------

/// Name pairs with their two names swapped.
pub open spec fn swapped(m: Seq<(Seq<char>, Seq<char>)>) -> Seq<(Seq<char>, Seq<char>)> {
    m.map_values(|p: (Seq<char>, Seq<char>)| (p.1, p.0))
}

/// Analyse the outputs of an imported graph whose outputs have public names:
/// `output_names` pairs each public name with the graph's internal one. The
/// requested public names (every declared output when none are given) are
/// analysed under their internal names, and the report then speaks of public names.
pub fn analyze_imported_outputs(
    graph: &OnnxGraph,
    outputs: Option<&[&str]>,
    role_overrides: &TrainabilityOverrides,
    stable_names: &Vec<(InitializerId, String)>,
    output_names: &[(String, String)],
) -> (r: TrainabilityReport)
    ensures
        ({
            let names = name_pairs(output_names@);
            let requested = match outputs {
                Some(o) => strs_view(o@).map_values(|x: Seq<char>| public_name(names, x)),
                None => arg_names(graph.outputs@),
            };
            let base = initializer_analysis(*graph, role_overrides.role_map(), role_overrides.names(), stable_names@);
            exists|mid: ReportView| paths_analyzed(*graph, requested, base, mid) && r@ == remapped(mid, swapped(names))
        }),
{
    let ghost names = name_pairs(output_names@);
    let mut report = match outputs {
        Some(o) => {
            let mut internal: Vec<String> = Vec::new();
            let mut i: usize = 0;
            while i < o.len()
                invariant
                    i <= o@.len(),
                    names == name_pairs(output_names@),
                    views(internal@) == strs_view(o@).take(i as int).map_values(|x: Seq<char>| public_name(names, x)),
                decreases o.len() - i,
            {
                let t = public_name_of(output_names, o[i]);
                let ghost prev = views(internal@);
                internal.push(t);
                proof {
                    let f = |x: Seq<char>| public_name(names, x);
                    let w = strs_view(o@);
                    assert(views(internal@) =~= prev.push(t@));
                    assert(w.take(i + 1) =~= w.take(i as int).push(w[i as int]));
                    assert(w.take(i + 1).map_values(f) =~= w.take(i as int).map_values(f).push(f(w[i as int])));
                }
                i = i + 1;
            }
            assert(strs_view(o@).take(o@.len() as int) =~= strs_view(o@));
            let mut refs: Vec<&str> = Vec::new();
            let mut k: usize = 0;
            while k < internal.len()
                invariant
                    k <= internal@.len(),
                    strs_view(refs@) == views(internal@).take(k as int),
                decreases internal.len() - k,
            {
                let x = internal[k].as_str();
                let ghost prev = strs_view(refs@);
                refs.push(x);
                proof {
                    assert(strs_view(refs@) =~= prev.push(x@));
                    assert(views(internal@).take(k + 1) =~= views(internal@).take(k as int).push(internal@[k as int]@));
                }
                k = k + 1;
            }
            assert(views(internal@).take(internal@.len() as int) =~= views(internal@));
            TrainabilityReport::analyze_outputs_with_names(graph, refs.as_slice(), role_overrides, stable_names)
        },
        None => TrainabilityReport::analyze_all_outputs_with_names(graph, role_overrides, stable_names),
    };
    let ghost mid = report@;
    let mut internal_to_public: Vec<(String, String)> = Vec::new();
    let mut j: usize = 0;
    while j < output_names.len()
        invariant
            j <= output_names@.len(),
            names == name_pairs(output_names@),
            name_pairs(internal_to_public@) == swapped(names).take(j as int),
        decreases output_names.len() - j,
    {
        let pair = (owned(output_names[j].1.as_str()), owned(output_names[j].0.as_str()));
        let ghost prev = name_pairs(internal_to_public@);
        let ghost item = (pair.0@, pair.1@);
        internal_to_public.push(pair);
        proof {
            assert(name_pairs(internal_to_public@) =~= prev.push(item));
            assert(swapped(names).take(j + 1) =~= swapped(names).take(j as int).push(swapped(names)[j as int]));
        }
        j = j + 1;
    }
    assert(swapped(names).take(output_names@.len() as int) =~= swapped(names));
    report.remap_outputs(internal_to_public.as_slice());
    report
}


/// Every use of one initializer resolves to the same slot: node inputs that name
/// the same initializer read the same store entry.
pub proof fn law_shared_initializer_one_slot(
    state: ImportedState,
    a: Argument,
    node_a: usize,
    input_a: usize,
    b: Argument,
    node_b: usize,
    input_b: usize,
)
    requires
        initializer_key(a, node_a, input_a) == initializer_key(b, node_b, input_b),
    ensures
        state.input_entry(a, node_a, input_a) == state.input_entry(b, node_b, input_b),
{
}

} // verus!
