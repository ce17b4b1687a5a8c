//! Structural rules of optimizer state: portable name-keyed state
//! dictionaries, their binding to runtime slots, and the slots a step updates.

use vstd::prelude::*;
use crate::error::{error_view, ErrorKind, TynxError};
use crate::graph::{dtype_text, DType};
use crate::parameter::{contract_text, slot_view, ContractView, ParamId, ParameterSlot, TensorInfo};
use crate::text::{
    all_ascii, contains_text, debug_list_string, debug_list_text, decimal, filter_sorted, insert_sorted, is_blank,
    owned, sorted_strict, str_is_blank, u64_text, usize_list_string, usize_list_text, views,
};

verus! {

/// Adam-family update rule recorded in a portable state dictionary.
#[derive(Debug, Clone, Copy, PartialEq, Eq, Structural)]
pub enum AdamStateKind {
    /// Coupled L2 weight decay used by Adam.
    Adam,
    /// Decoupled weight decay used by AdamW.
    AdamW,
}

pub open spec fn kind_text(k: AdamStateKind) -> Seq<char> {
    match k {
        AdamStateKind::Adam => "Adam"@,
        AdamStateKind::AdamW => "AdamW"@,
    }
}

impl AdamStateKind {
    /// The kind's name as `{:?}` prints it.
    pub fn text(&self) -> (r: &'static str)
        ensures
            r@ == kind_text(*self),
    {
        match self {
            AdamStateKind::Adam => "Adam",
            AdamStateKind::AdamW => "AdamW",
        }
    }
}

/// Refuse state recorded for another member of the Adam family.
pub fn check_state_kind(found: AdamStateKind, expected: AdamStateKind) -> (r: Result<(), TynxError>)
    ensures
        r is Ok <==> found == expected,
        r matches Err(e) ==> error_view(e) == (ErrorKind::TypeMismatch,
            "cannot load "@ + kind_text(found) + " state into "@ + kind_text(expected) + " optimizer"@),
{
    if found != expected {
        let mut m = owned("cannot load ");
        m.append(found.text());
        m.append(" state into ");
        m.append(expected.text());
        m.append(" optimizer");
        return Err(TynxError::TypeMismatch(m));
    }
    Ok(())
}

/// The parameter names before `n`, checked: each must be non-blank and appear once.
pub open spec fn names_scan(names: Seq<Seq<char>>, n: int) -> Result<Set<Seq<char>>, (int, bool)>
    decreases n,
{
    if n <= 0 {
        Ok(Set::empty())
    } else {
        match names_scan(names, n - 1) {
            Err(e) => Err(e),
            Ok(seen) => if is_blank(names[n - 1]) {
                Err((n - 1, true))
            } else if seen.contains(names[n - 1]) {
                Err((n - 1, false))
            } else {
                Ok(seen.insert(names[n - 1]))
            },
        }
    }
}

proof fn lemma_names_scan_err(names: Seq<Seq<char>>, n: int, m: int)
    requires
        0 <= n <= m,
        names_scan(names, n) is Err,
    ensures
        names_scan(names, m) == names_scan(names, n),
    decreases m - n,
{
    if m > n {
        lemma_names_scan_err(names, n, m - 1);
    }
}

/// What validating state names answers: the sorted parameter names, or the
/// first complaint about a blank or repeated name, or about a state entry whose
/// name is not a parameter name.
pub open spec fn state_names_spec(names: Seq<Seq<char>>, state_names: Seq<Seq<char>>, optimizer: Seq<char>)
    -> Result<Set<Seq<char>>, Seq<char>>
{
    match names_scan(names, names.len() as int) {
        Err((i, true)) => Err(optimizer + " parameter state name cannot be empty"@),
        Err((i, false)) => Err("duplicate "@ + optimizer + " parameter state name '"@ + names[i] + "'"@),
        Ok(all) => if exists|k: int| 0 <= k < state_names.len() && !all.contains(#[trigger] state_names[k]) {
            let k = choose|k: int| 0 <= k < state_names.len() && !all.contains(#[trigger] state_names[k])
                && forall|j: int| 0 <= j < k ==> all.contains(state_names[j]);
            Err(optimizer + " state for unknown parameter name '"@ + state_names[k] + "'"@)
        } else {
            Ok(all)
        },
    }
}

/// Validate the parameter names of a state dictionary and the names its entries
/// are keyed by; return the parameter names sorted.
pub fn validate_state_names(parameter_names: Vec<String>, state_names: &Vec<String>, optimizer: &str)
    -> (r: Result<Vec<String>, TynxError>)
    ensures
        match r {
            Ok(v) => sorted_strict(views(v@)) && state_names_spec(views(parameter_names@), views(state_names@), optimizer@)
                == Ok::<Set<Seq<char>>, Seq<char>>(views(v@).to_set()),
            Err(e) => error_view(e).0 == ErrorKind::TypeMismatch
                && state_names_spec(views(parameter_names@), views(state_names@), optimizer@)
                == Err::<Set<Seq<char>>, Seq<char>>(error_view(e).1),
        },
{
    let ghost ns = views(parameter_names@);
    let mut sorted: Vec<String> = Vec::new();
    let mut i: usize = 0;
    proof {
        assert(views(sorted@).to_set() =~= Set::<Seq<char>>::empty());
    }
    while i < parameter_names.len()
        invariant
            i <= parameter_names@.len(),
            ns == views(parameter_names@),
            sorted_strict(views(sorted@)),
            names_scan(ns, i as int) == Ok::<Set<Seq<char>>, (int, bool)>(views(sorted@).to_set()),
        decreases parameter_names.len() - i,
    {
        proof {
            if names_scan(ns, i + 1) is Err {
                lemma_names_scan_err(ns, i + 1, ns.len() as int);
            }
        }
        let name = &parameter_names[i];
        assert(ns[i as int] == name@);
        if str_is_blank(name.as_str()) {
            let mut m = owned(optimizer);
            m.append(" parameter state name cannot be empty");
            return Err(TynxError::TypeMismatch(m));
        }
        if contains_text(&sorted, name.as_str()) {
            proof {
                assert(views(sorted@).to_set().contains(name@));
            }
            let mut m = owned("duplicate ");
            m.append(optimizer);
            m.append(" parameter state name '");
            m.append(name.as_str());
            m.append("'");
            return Err(TynxError::TypeMismatch(m));
        }
        proof {
            if views(sorted@).to_set().contains(name@) {
                assert(views(sorted@).contains(name@));
            }
        }
        insert_sorted(&mut sorted, name.clone());
        i = i + 1;
    }
    let ghost all = views(sorted@).to_set();
    let mut k: usize = 0;
    while k < state_names.len()
        invariant
            k <= state_names@.len(),
            ns == views(parameter_names@),
            sorted_strict(views(sorted@)),
            all == views(sorted@).to_set(),
            names_scan(ns, ns.len() as int) == Ok::<Set<Seq<char>>, (int, bool)>(all),
            forall|j: int| 0 <= j < k ==> all.contains(#[trigger] views(state_names@)[j]),
        decreases state_names.len() - k,
    {
        let name = &state_names[k];
        assert(views(state_names@)[k as int] == name@);
        if !contains_text(&sorted, name.as_str()) {
            proof {
                let sn = views(state_names@);
                assert(!all.contains(sn[k as int])) by {
                    if all.contains(name@) {
                        assert(views(sorted@).contains(name@));
                    }
                }
                let c = choose|c: int| 0 <= c < sn.len() && !all.contains(#[trigger] sn[c])
                    && forall|j: int| 0 <= j < c ==> all.contains(sn[j]);
                if c < k as int {
                    assert(all.contains(sn[c]));
                } else if c > k as int {
                    assert(all.contains(sn[k as int]));
                }
            }
            let mut m = owned(optimizer);
            m.append(" state for unknown parameter name '");
            m.append(name.as_str());
            m.append("'");
            return Err(TynxError::TypeMismatch(m));
        }
        proof {
            assert(views(sorted@).contains(name@));
        }
        k = k + 1;
    }
    Ok(sorted)
}

/// The complaint when the live trainable names and the saved names differ.
pub open spec fn msg_name_mismatch(optimizer: Seq<char>, missing: Seq<Seq<char>>, unexpected: Seq<Seq<char>>) -> Seq<char> {
    optimizer + " parameter names do not match: missing="@ + debug_list_text(missing) + ", unexpected="@
        + debug_list_text(unexpected)
}

/// Check that the live trainable names and the saved names are the same set; the
/// complaint lists, each sorted, the live names not saved and the saved names not live.
pub fn validate_parameter_name_match(current: &Vec<String>, saved: &Vec<String>, optimizer: &str)
    -> (r: Result<(), TynxError>)
    ensures
        r is Ok <==> views(current@).to_set() == views(saved@).to_set(),
        r matches Err(e) ==> error_view(e).0 == ErrorKind::TypeMismatch && exists|missing: Seq<Seq<char>>, unexpected: Seq<Seq<char>>| {
            &&& sorted_strict(missing) && missing.to_set() == views(current@).to_set().difference(views(saved@).to_set())
            &&& sorted_strict(unexpected) && unexpected.to_set() == views(saved@).to_set().difference(views(current@).to_set())
            &&& all_ascii(missing + unexpected) ==> error_view(e).1 == msg_name_mismatch(optimizer@, missing, unexpected)
        },
{
    let missing = filter_sorted(current, saved, false);
    let unexpected = filter_sorted(saved, current, false);
    if missing.len() != 0 || unexpected.len() != 0 {
        let mut m = owned(optimizer);
        m.append(" parameter names do not match: missing=");
        m.append(debug_list_string(&missing).as_str());
        m.append(", unexpected=");
        m.append(debug_list_string(&unexpected).as_str());
        proof {
            let mv = views(missing@);
            let uv = views(unexpected@);
            assert(all_ascii(mv + uv) ==> m@ == msg_name_mismatch(optimizer@, mv, uv));
            assert(sorted_strict(mv) && mv.to_set() == views(current@).to_set().difference(views(saved@).to_set()));
            assert(sorted_strict(uv) && uv.to_set() == views(saved@).to_set().difference(views(current@).to_set()));
            if views(current@).to_set() == views(saved@).to_set() {
                if missing.len() != 0 {
                    assert(mv.to_set().contains(mv[0]));
                } else {
                    assert(uv.to_set().contains(uv[0]));
                }
            }
        }
        return Err(TynxError::TypeMismatch(m));
    }
    proof {
        let a = views(current@).to_set();
        let b = views(saved@).to_set();
        assert(views(missing@) =~= Seq::<Seq<char>>::empty());
        assert(views(unexpected@) =~= Seq::<Seq<char>>::empty());
        assert forall|x: Seq<char>| a.contains(x) implies b.contains(x) by {
            if !b.contains(x) {
                assert(a.difference(b).contains(x));
            }
        }
        assert forall|x: Seq<char>| b.contains(x) implies a.contains(x) by {
            if !a.contains(x) {
                assert(b.difference(a).contains(x));
            }
        }
        assert(a =~= b);
    }
    Ok(())
}

fn text_duplicate_destination(optimizer: &str, id: u64) -> (m: String)
    ensures
        m@ == "duplicate "@ + optimizer@ + " state destination for parameter "@ + decimal(id as nat),
{
    let mut m = owned("duplicate ");
    m.append(optimizer);
    m.append(" state destination for parameter ");
    m.append(u64_text(id).as_str());
    m
}

/// Position `i` repeats the identity at an earlier position `j`, and no repeat comes before `i`.
pub open spec fn first_repeat_at(ids: Seq<ParamId>, i: int, j: int) -> bool {
    &&& 0 <= j < i < ids.len()
    &&& ids[j].0 == ids[i].0
    &&& forall|k: int, l: int| 0 <= l < k < i ==> ids[l].0 != ids[k].0
}

/// Refuse a list of state destinations that names one slot twice.
pub fn check_state_destinations(ids: &Vec<ParamId>, optimizer: &str) -> (r: Result<(), TynxError>)
    ensures
        r is Ok <==> (forall|i: int, j: int| 0 <= j < i < ids@.len() ==> ids@[j].0 != ids@[i].0),
        r matches Err(e) ==> error_view(e).0 == ErrorKind::TypeMismatch && exists|i: int, j: int|
            #[trigger] first_repeat_at(ids@, i, j)
            && error_view(e).1 == "duplicate "@ + optimizer@ + " state destination for parameter "@ + decimal(ids@[i].0 as nat),
{
    let mut i: usize = 0;
    while i < ids.len()
        invariant
            i <= ids@.len(),
            forall|k: int, l: int| 0 <= l < k < i ==> ids@[l].0 != ids@[k].0,
        decreases ids.len() - i,
    {
        let mut j: usize = 0;
        let mut found = false;
        while j < i && !found
            invariant
                j <= i < ids@.len(),
                forall|k: int, l: int| 0 <= l < k < i ==> ids@[l].0 != ids@[k].0,
                !found ==> forall|l: int| 0 <= l < j ==> ids@[l].0 != ids@[i as int].0,
                found ==> j < i && ids@[j as int].0 == ids@[i as int].0,
            decreases i - j, if found { 0int } else { 1int },
        {
            if ids[j].0 == ids[i].0 {
                found = true;
            } else {
                j = j + 1;
            }
        }
        if found {
            let m = text_duplicate_destination(optimizer, ids[i].0);
            proof {
                assert(first_repeat_at(ids@, i as int, j as int));
            }
            return Err(TynxError::TypeMismatch(m));
        }
        i = i + 1;
    }
    Ok(())
}

pub open spec fn msg_state_tensor(label: Seq<char>, t: TensorInfo, id: u64, c: ContractView) -> Seq<char> {
    label + " shape "@ + usize_list_text(t.shape@) + ", dtype "@ + dtype_text(t.dtype) + ", and device "@ + t.device.name@
        + " do not match parameter "@ + decimal(id as nat) + " contract shape "@ + usize_list_text(c.shape) + ", dtype "@
        + dtype_text(c.dtype) + ", and device "@ + c.device
}

/// Check an optimizer state tensor against the contract of the slot it binds to:
/// same shape, element type and device.
pub fn validate_state_tensor(label: &str, tensor: &TensorInfo, parameter: &ParameterSlot) -> (r: Result<(), TynxError>)
    ensures
        ({
            let c = slot_view(*parameter).contract;
            &&& r is Ok <==> (tensor.shape@ == c.shape && tensor.dtype == c.dtype && tensor.device.name@ == c.device
                && tensor.device.autodiff == c.autodiff)
            &&& r matches Err(e) ==> error_view(e) == (ErrorKind::TypeMismatch,
                msg_state_tensor(label@, *tensor, slot_view(*parameter).id, c))
        }),
{
    let contract = parameter.contract();
    let shape = contract.shape();
    let mut same = shape.len() == tensor.shape.len();
    if same {
        let mut i: usize = 0;
        while i < shape.len()
            invariant
                i <= shape@.len(),
                shape@.len() == tensor.shape@.len(),
                same == forall|k: int| 0 <= k < i ==> shape@[k] == tensor.shape@[k],
            decreases shape.len() - i,
        {
            if shape[i] != tensor.shape[i] {
                same = false;
            }
            i = i + 1;
        }
        if same {
            assert(shape@ =~= tensor.shape@);
        }
    }
    let device = contract.device();
    if !same || tensor.dtype != contract.dtype() || !crate::text::str_eq(tensor.device.name.as_str(), device.name.as_str())
        || tensor.device.autodiff != device.autodiff {
        let mut m = owned(label);
        m.append(" shape ");
        m.append(usize_list_string(tensor.shape.as_slice()).as_str());
        m.append(", dtype ");
        m.append(tensor.dtype.text());
        m.append(", and device ");
        m.append(tensor.device.name.as_str());
        m.append(" do not match parameter ");
        m.append(u64_text(parameter.id().get()).as_str());
        m.append(" contract shape ");
        m.append(usize_list_string(shape).as_str());
        m.append(", dtype ");
        m.append(contract.dtype().text());
        m.append(", and device ");
        m.append(device.name.as_str());
        return Err(TynxError::TypeMismatch(m));
    }
    Ok(())
}

/// What one saved Adam entry carries beyond its tensors.
#[derive(Debug, Clone)]
pub struct AdamEntryInfo {
    pub name: String,
    pub step: u64,
    pub has_max_second_moment: bool,
}

/// The first saved entry that breaks a rule: a zero step count, or a maximum
/// second moment whose presence disagrees with the AMSGrad setting.
pub open spec fn adam_entries_spec(entries: Seq<AdamEntryInfo>, amsgrad: bool, n: int) -> Option<Seq<char>>
    decreases n,
{
    if n <= 0 {
        None
    } else {
        match adam_entries_spec(entries, amsgrad, n - 1) {
            Some(m) => Some(m),
            None => {
                let e = entries[n - 1];
                if e.step == 0 {
                    Some("Adam state step for '"@ + e.name@ + "' must be positive"@)
                } else if amsgrad != e.has_max_second_moment {
                    Some("Adam state maximum second moment for '"@ + e.name@ + "' must match amsgrad="@
                        + (if amsgrad { "true"@ } else { "false"@ }) + " configuration"@)
                } else {
                    None
                }
            },
        }
    }
}

proof fn lemma_adam_entries_some(entries: Seq<AdamEntryInfo>, amsgrad: bool, n: int, m: int)
    requires
        0 <= n <= m,
        adam_entries_spec(entries, amsgrad, n) is Some,
    ensures
        adam_entries_spec(entries, amsgrad, m) == adam_entries_spec(entries, amsgrad, n),
    decreases m - n,
{
    if m > n {
        lemma_adam_entries_some(entries, amsgrad, n, m - 1);
    }
}

/// Check saved Adam entries, in order, against the configuration.
pub fn check_adam_entries(entries: &Vec<AdamEntryInfo>, amsgrad: bool) -> (r: Result<(), TynxError>)
    ensures
        match adam_entries_spec(entries@, amsgrad, entries@.len() as int) {
            None => r is Ok,
            Some(m) => r matches Err(e) && error_view(e) == (ErrorKind::TypeMismatch, m),
        },
{
    let mut i: usize = 0;
    while i < entries.len()
        invariant
            i <= entries@.len(),
            adam_entries_spec(entries@, amsgrad, i as int) is None,
        decreases entries.len() - i,
    {
        proof {
            if adam_entries_spec(entries@, amsgrad, i + 1) is Some {
                lemma_adam_entries_some(entries@, amsgrad, i + 1, entries@.len() as int);
            }
        }
        let e = &entries[i];
        if e.step == 0 {
            let mut m = owned("Adam state step for '");
            m.append(e.name.as_str());
            m.append("' must be positive");
            return Err(TynxError::TypeMismatch(m));
        }
        if amsgrad != e.has_max_second_moment {
            let mut m = owned("Adam state maximum second moment for '");
            m.append(e.name.as_str());
            m.append("' must match amsgrad=");
            m.append(if amsgrad { "true" } else { "false" });
            m.append(" configuration");
            return Err(TynxError::TypeMismatch(m));
        }
        i = i + 1;
    }
    Ok(())
}

/// Check one Adam state entry being bound to a runtime slot: its step count must
/// be positive and its maximum second moment present exactly under AMSGrad.
pub fn check_adam_binding(step: u64, has_max_second_moment: bool, amsgrad: bool) -> (r: Result<(), TynxError>)
    ensures
        step == 0 ==> (r matches Err(e) && error_view(e) == (ErrorKind::TypeMismatch, "Adam state step must be positive"@)),
        step != 0 && amsgrad != has_max_second_moment ==> (r matches Err(e) && error_view(e) == (ErrorKind::TypeMismatch,
            "Adam state maximum second moment presence must match amsgrad="@ + (if amsgrad { "true"@ } else { "false"@ })
                + " configuration"@)),
        step != 0 && amsgrad == has_max_second_moment ==> r is Ok,
{
    if step == 0 {
        return Err(TynxError::TypeMismatch(owned("Adam state step must be positive")));
    }
    if amsgrad != has_max_second_moment {
        let mut m = owned("Adam state maximum second moment presence must match amsgrad=");
        m.append(if amsgrad { "true" } else { "false" });
        m.append(" configuration");
        return Err(TynxError::TypeMismatch(m));
    }
    Ok(())
}

/// The positions before `n` a list step updates: trainable slots, each identity
/// at its first occurrence only.
pub open spec fn unique_trainable_upto(slots: Seq<&ParameterSlot>, n: int) -> Seq<int>
    decreases n,
{
    if n <= 0 {
        Seq::empty()
    } else {
        let prev = unique_trainable_upto(slots, n - 1);
        let s = slot_view(*slots[n - 1]);
        if s.contract.trainable && !(exists|k: int| 0 <= k < n - 1 && slot_view(*slots[k]).contract.trainable
            && #[trigger] slot_view(*slots[k]).id == s.id) {
            prev.push(n - 1)
        } else {
            prev
        }
    }
}

/// The positions of the slots a list step updates: trainable slots, repeated or
/// tied identities once, in first-occurrence order.
pub fn unique_trainable(slots: &Vec<&ParameterSlot>) -> (r: Vec<usize>)
    ensures
        r@.map_values(|i: usize| i as int) == unique_trainable_upto(slots@, slots@.len() as int),
{
    let mut out: Vec<usize> = Vec::new();
    let mut i: usize = 0;
    while i < slots.len()
        invariant
            i <= slots@.len(),
            out@.map_values(|i: usize| i as int) == unique_trainable_upto(slots@, i as int),
        decreases slots.len() - i,
    {
        let s = slots[i];
        if s.contract().trainable() {
            let mut seen = false;
            let mut k: usize = 0;
            while k < i
                invariant
                    k <= i < slots@.len(),
                    s == slots@[i as int],
                    seen == exists|q: int| 0 <= q < k && slot_view(*slots@[q]).contract.trainable
                        && #[trigger] slot_view(*slots@[q]).id == slot_view(*slots@[i as int]).id,
                decreases i - k,
            {
                let other = slots[k];
                let ghost before = seen;
                let other_trainable = other.contract().trainable();
                let same_id = other.id().get() == s.id().get();
                let hit = other_trainable && same_id;
                assert(other_trainable == slot_view(*slots@[k as int]).contract.trainable);
                assert(same_id == (slot_view(*slots@[k as int]).id == slot_view(*slots@[i as int]).id));
                if hit {
                    seen = true;
                }
                proof {
                    let target = slot_view(*slots@[i as int]).id;
                    assert(hit == (slot_view(*slots@[k as int]).contract.trainable && slot_view(*slots@[k as int]).id == target));
                    if hit {
                        assert(0 <= k < k + 1 && slot_view(*slots@[k as int]).contract.trainable
                            && slot_view(*slots@[k as int]).id == target);
                    } else if !before {
                        assert forall|q: int| 0 <= q < k + 1 && slot_view(*slots@[q]).contract.trainable
                            implies #[trigger] slot_view(*slots@[q]).id != target by {
                            if q < k as int {
                                assert(!(0 <= q < k && slot_view(*slots@[q]).contract.trainable
                                    && slot_view(*slots@[q]).id == target));
                            }
                        }
                    } else {
                        let q = choose|q: int| 0 <= q < k && slot_view(*slots@[q]).contract.trainable
                            && #[trigger] slot_view(*slots@[q]).id == target;
                        assert(0 <= q < k + 1);
                    }
                }
                k = k + 1;
            }
            if !seen {
                let ghost prev = out@.map_values(|i: usize| i as int);
                out.push(i);
                assert(out@.map_values(|i: usize| i as int) =~= prev.push(i as int));
            }
        }
        i = i + 1;
    }
    out
}

/// The positions among `candidates` whose slot holds a gradient, in order: the
/// slots a step actually updates.
pub fn with_gradients(slots: &Vec<&ParameterSlot>, candidates: &Vec<usize>) -> (r: Vec<usize>)
    requires
        forall|k: int| 0 <= k < candidates@.len() ==> #[trigger] candidates@[k] < slots@.len(),
    ensures
        r@ == candidates@.filter(|i: usize| slot_view(*slots@[i as int]).has_grad),
{
    let mut out: Vec<usize> = Vec::new();
    let mut k: usize = 0;
    proof {
        reveal(Seq::filter);
        assert(candidates@.take(0).filter(|i: usize| slot_view(*slots@[i as int]).has_grad) =~= Seq::<usize>::empty());
    }
    while k < candidates.len()
        invariant
            k <= candidates@.len(),
            forall|q: int| 0 <= q < candidates@.len() ==> #[trigger] candidates@[q] < slots@.len(),
            out@ == candidates@.take(k as int).filter(|i: usize| slot_view(*slots@[i as int]).has_grad),
        decreases candidates.len() - k,
    {
        let i = candidates[k];
        proof {
            reveal(Seq::filter);
            assert(candidates@.take(k + 1).drop_last() =~= candidates@.take(k as int));
        }
        if slots[i].has_grad() {
            out.push(i);
        }
        k = k + 1;
    }
    assert(candidates@.take(candidates@.len() as int) =~= candidates@);
    out
}


/// The identity of the slot at a position of a list.
pub open spec fn id_at(slots: Seq<&ParameterSlot>, i: int) -> u64 {
    slot_view(*slots[i]).id
}

/// Whether the slot at a position of a list is trainable.
pub open spec fn trainable_at(slots: Seq<&ParameterSlot>, i: int) -> bool {
    slot_view(*slots[i]).contract.trainable
}

proof fn lemma_unique_positions(slots: Seq<&ParameterSlot>, n: int)
    requires
        0 <= n <= slots.len(),
    ensures
        forall|a: int| 0 <= a < unique_trainable_upto(slots, n).len()
            ==> 0 <= #[trigger] unique_trainable_upto(slots, n)[a] < n && trainable_at(slots, unique_trainable_upto(slots, n)[a]),
    decreases n,
{
    if n > 0 {
        lemma_unique_positions(slots, n - 1);
        let prev = unique_trainable_upto(slots, n - 1);
        let sel = unique_trainable_upto(slots, n);
        assert forall|a: int| 0 <= a < sel.len() implies 0 <= #[trigger] sel[a] < n && trainable_at(slots, sel[a]) by {
            if a < prev.len() {
                assert(sel[a] == prev[a]);
            } else {
                assert(sel[a] == n - 1);
            }
        }
    }
}

proof fn lemma_unique_distinct(slots: Seq<&ParameterSlot>, n: int)
    requires
        0 <= n <= slots.len(),
    ensures
        forall|a: int, b: int| 0 <= a < b < unique_trainable_upto(slots, n).len()
            ==> id_at(slots, #[trigger] unique_trainable_upto(slots, n)[a]) != id_at(slots, #[trigger] unique_trainable_upto(slots, n)[b]),
    decreases n,
{
    if n > 0 {
        lemma_unique_distinct(slots, n - 1);
        lemma_unique_positions(slots, n - 1);
        let prev = unique_trainable_upto(slots, n - 1);
        let sel = unique_trainable_upto(slots, n);
        if sel.len() != prev.len() {
            assert forall|a: int, b: int| 0 <= a < b < sel.len() implies id_at(slots, #[trigger] sel[a]) != id_at(slots, #[trigger] sel[b]) by {
                assert(sel[a] == prev[a]);
                if b == prev.len() {
                    assert(sel[b] == n - 1);
                    assert(0 <= prev[a] < n - 1 && trainable_at(slots, prev[a]));
                } else {
                    assert(sel[b] == prev[b]);
                }
            }
        }
    }
}

proof fn lemma_unique_complete(slots: Seq<&ParameterSlot>, n: int)
    requires
        0 <= n <= slots.len(),
    ensures
        forall|i: int| 0 <= i < n && #[trigger] trainable_at(slots, i)
            ==> exists|a: int| 0 <= a < unique_trainable_upto(slots, n).len()
                && id_at(slots, #[trigger] unique_trainable_upto(slots, n)[a]) == id_at(slots, i),
    decreases n,
{
    if n > 0 {
        lemma_unique_complete(slots, n - 1);
        let prev = unique_trainable_upto(slots, n - 1);
        let sel = unique_trainable_upto(slots, n);
        assert forall|i: int| 0 <= i < n && #[trigger] trainable_at(slots, i)
            implies exists|a: int| 0 <= a < sel.len() && id_at(slots, #[trigger] sel[a]) == id_at(slots, i) by {
            if i < n - 1 {
                let a = choose|a: int| 0 <= a < prev.len() && id_at(slots, #[trigger] prev[a]) == id_at(slots, i);
                assert(sel[a] == prev[a]);
            } else if sel.len() != prev.len() {
                assert(sel[prev.len() as int] == n - 1);
            } else {
                let k = choose|k: int| 0 <= k < n - 1 && slot_view(*slots[k]).contract.trainable
                    && #[trigger] slot_view(*slots[k]).id == slot_view(*slots[n - 1]).id;
                assert(trainable_at(slots, k));
                let a = choose|a: int| 0 <= a < prev.len() && id_at(slots, #[trigger] prev[a]) == id_at(slots, k);
                assert(sel[a] == prev[a]);
            }
        }
    }
}

/// A list step visits every trainable identity of the list exactly once: the
/// positions it updates hold trainable slots with distinct identities, and every
/// trainable slot's identity is among them.
pub proof fn law_list_step_each_identity_once(slots: Seq<&ParameterSlot>)
    ensures
        ({
            let sel = unique_trainable_upto(slots, slots.len() as int);
            &&& forall|a: int| 0 <= a < sel.len() ==> 0 <= #[trigger] sel[a] < slots.len() && trainable_at(slots, sel[a])
            &&& forall|a: int, b: int| 0 <= a < b < sel.len() ==> id_at(slots, #[trigger] sel[a]) != id_at(slots, #[trigger] sel[b])
            &&& forall|i: int| 0 <= i < slots.len() && #[trigger] trainable_at(slots, i)
                ==> exists|a: int| 0 <= a < sel.len() && id_at(slots, #[trigger] sel[a]) == id_at(slots, i)
        }),
{
    lemma_unique_positions(slots, slots.len() as int);
    lemma_unique_distinct(slots, slots.len() as int);
    lemma_unique_complete(slots, slots.len() as int);
}

} // verus!
