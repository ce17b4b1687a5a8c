//! Deterministic named storage for parameters and tied aliases.
//!
//! Entries keep insertion order. Registering the same slot under another name
//! records a tied-state alias instead of a second entry; the lexicographically
//! smallest name becomes the slot's canonical checkpoint name.
//!
//! The store holds one state per registered slot: every name of a slot, and the
//! slot's identity used as a handle, read and write that one state.

use vstd::prelude::*;
use crate::error::{error_view, ErrorKind, TynxError};
use crate::parameter::{
    accumulate_step, contract_of, msg_contract_mismatch, msg_generation_exhausted, read_step, same_contract, slot_view,
    ParamId, ParameterSlot, ReadKind, SlotView, TensorInfo,
};
use crate::text::{
    contains_text, decimal, insert_sorted, is_blank, lemma_seq_lt_asymmetric, lemma_seq_lt_irreflexive,
    lemma_seq_lt_total, lemma_seq_lt_transitive, owned, seq_lt, sorted_strict, str_is_blank, str_lt, u64_text,
    views,
};

verus! {

#[derive(Debug)]
struct StoreEntry {
    slot: ParameterSlot,
    canonical_name: String,
    aliases: Vec<String>,
}

/// One entry as plain values.
pub struct EntryView {
    pub id: u64,
    pub canonical: Seq<char>,
    pub aliases: Seq<Seq<char>>,
    pub slot: SlotView,
}

spec fn entry_view(e: StoreEntry) -> EntryView {
    EntryView { id: slot_view(e.slot).id, canonical: e.canonical_name@, aliases: views(e.aliases@), slot: slot_view(e.slot) }
}

spec fn entries_view(s: Seq<StoreEntry>) -> Seq<EntryView> {
    s.map_values(|e: StoreEntry| entry_view(e))
}

/// Whether an entry is registered under a name, canonical or alias.
pub open spec fn has_name(e: EntryView, name: Seq<char>) -> bool {
    e.canonical == name || e.aliases.contains(name)
}

/// A well-formed store: identities and names are unique, every alias sorts after
/// its canonical name, and each slot carries its canonical name.
pub open spec fn store_wf(v: Seq<EntryView>) -> bool {
    &&& forall|i: int, j: int| 0 <= i < j < v.len() ==> (#[trigger] v[i]).id != (#[trigger] v[j]).id
    &&& forall|i: int, j: int, n: Seq<char>|
        0 <= i < v.len() && 0 <= j < v.len() && i != j && #[trigger] has_name(v[i], n) ==> !#[trigger] has_name(v[j], n)
    &&& forall|i: int| 0 <= i < v.len() ==> {
        &&& sorted_strict((#[trigger] v[i]).aliases)
        &&& forall|k: int| 0 <= k < v[i].aliases.len() ==> seq_lt(v[i].canonical, #[trigger] v[i].aliases[k])
        &&& v[i].slot.name == Some(v[i].canonical)
        &&& v[i].slot.id == v[i].id
    }
}

/// The entry registered under a name.
pub open spec fn owner_of(v: Seq<EntryView>, name: Seq<char>) -> Option<int> {
    if exists|i: int| 0 <= i < v.len() && has_name(#[trigger] v[i], name) {
        Some(choose|i: int| 0 <= i < v.len() && has_name(#[trigger] v[i], name))
    } else {
        None
    }
}

/// The entry holding a slot identity.
pub open spec fn index_of_id(v: Seq<EntryView>, id: u64) -> Option<int> {
    if exists|i: int| 0 <= i < v.len() && (#[trigger] v[i]).id == id {
        Some(choose|i: int| 0 <= i < v.len() && (#[trigger] v[i]).id == id)
    } else {
        None
    }
}

/// An entry with one more name: the smaller of the name and the canonical name
/// stays canonical and the other joins the aliases.
pub open spec fn with_name(old: EntryView, new: EntryView, name: Seq<char>) -> bool {
    &&& new.id == old.id
    &&& sorted_strict(new.aliases)
    &&& if seq_lt(name, old.canonical) {
        &&& new.canonical == name
        &&& new.aliases.to_set() == old.aliases.to_set().insert(old.canonical)
        &&& new.slot == (SlotView { name: Some(name), ..old.slot })
    } else {
        &&& new.canonical == old.canonical
        &&& new.aliases.to_set() == old.aliases.to_set().insert(name)
        &&& new.slot == old.slot
    }
}

pub open spec fn msg_already_bound(name: Seq<char>, id: u64) -> Seq<char> {
    "parameter name '"@ + name + "' is already bound to slot "@ + decimal(id as nat)
}

/// The plain outcome of an insertion: the identity, or the error's kind and message.
pub open spec fn insert_outcome(r: Result<ParamId, TynxError>) -> Result<u64, (ErrorKind, Seq<char>)> {
    match r {
        Ok(id) => Ok(id.0),
        Err(e) => Err(error_view(e)),
    }
}

/// What registering `slot` under `name` does to a store `old`, giving outcome `r`
/// and store `new`: a blank name is refused; a name already bound to the same slot
/// changes nothing; a name bound to another slot is refused; a new name of a known
/// slot becomes one of its names; a new slot is appended under the name.
pub open spec fn inserted(
    old: Seq<EntryView>,
    name: Seq<char>,
    slot: SlotView,
    r: Result<u64, (ErrorKind, Seq<char>)>,
    new: Seq<EntryView>,
) -> bool {
    &&& store_wf(new)
    &&& is_blank(name) ==> (r == Err::<u64, (ErrorKind, Seq<char>)>((ErrorKind::TypeMismatch,
        "parameter state name cannot be empty"@)) && new == old)
    &&& !is_blank(name) ==> match owner_of(old, name) {
        Some(i) => if old[i].id == slot.id {
            r == Ok::<u64, (ErrorKind, Seq<char>)>(slot.id) && new == old
        } else {
            r == Err::<u64, (ErrorKind, Seq<char>)>((ErrorKind::TypeMismatch, msg_already_bound(name, old[i].id)))
                && new == old
        },
        None => r == Ok::<u64, (ErrorKind, Seq<char>)>(slot.id) && match index_of_id(old, slot.id) {
            Some(i) => {
                &&& new.len() == old.len()
                &&& with_name(old[i], new[i], name)
                &&& forall|k: int| 0 <= k < old.len() && k != i ==> #[trigger] new[k] == old[k]
            },
            None => new == old.push(EntryView {
                id: slot.id,
                canonical: name,
                aliases: Seq::empty(),
                slot: SlotView { name: Some(name), ..slot },
            }),
        },
    }
}

/// The gradient computed for a slot identity: the first one listed for it.
pub open spec fn gradient_for(gradients: Seq<(ParamId, TensorInfo)>, id: u64) -> Option<TensorInfo>
    decreases gradients.len(),
{
    if gradients.len() == 0 {
        None
    } else if gradients[0].0.0 == id {
        Some(gradients[0].1)
    } else {
        gradient_for(gradients.drop_first(), id)
    }
}

/// Accumulating gradients into the entries before `n`, in order: the entries as
/// they then stand, how many trainable slots took a gradient, and the first
/// refusal, after which nothing more changes.
pub open spec fn accumulated(v: Seq<EntryView>, gradients: Seq<(ParamId, TensorInfo)>, n: int)
    -> (Seq<EntryView>, nat, Option<(ErrorKind, Seq<char>)>)
    decreases n,
{
    if n <= 0 {
        (v, 0, None)
    } else {
        let prev = accumulated(v, gradients, n - 1);
        let e = v[n - 1];
        if prev.2 is Some || !e.slot.contract.trainable {
            prev
        } else {
            let step = accumulate_step(e.slot, gradient_for(gradients, e.id));
            match step.0 {
                Ok(took) => (prev.0.update(n - 1, EntryView { slot: step.1, ..e }), if took { prev.1 + 1 } else { prev.1 }, None),
                Err(x) => (prev.0, prev.1, Some(x)),
            }
        }
    }
}

/// What a compatible value update does to a slot: the structural contract must
/// stay the same; the value generation advances and the leaf is dropped.
pub open spec fn value_replaced(s: SlotView, value: TensorInfo) -> (Result<(), (ErrorKind, Seq<char>)>, SlotView) {
    let next = contract_of(value, s.contract.trainable);
    if !same_contract(next, s.contract) {
        (Err((ErrorKind::TypeMismatch, msg_contract_mismatch(s.contract, next))), s)
    } else if s.value_generation == u64::MAX {
        (Err((ErrorKind::TypeMismatch, msg_generation_exhausted("value"@))), s)
    } else {
        (Ok(()), SlotView { value_generation: (s.value_generation + 1) as u64, leaf: None, ..s })
    }
}

pub open spec fn msg_unregistered_slot(id: u64) -> Seq<char> {
    "parameter slot "@ + decimal(id as nat) + " is not registered in this store"@
}

/// The plain outcome of an operation that returns nothing.
pub open spec fn unit_outcome(r: Result<(), TynxError>) -> Result<(), (ErrorKind, Seq<char>)> {
    match r {
        Ok(()) => Ok(()),
        Err(e) => Err(error_view(e)),
    }
}

/// A deterministic collection of uniquely identified parameter slots.
#[derive(Debug)]
pub struct ParameterStore {
    entries: Vec<StoreEntry>,
}

impl View for ParameterStore {
    type V = Seq<EntryView>;

    closed spec fn view(&self) -> Seq<EntryView> {
        entries_view(self.entries@)
    }
}

impl ParameterStore {
    #[verifier::type_invariant]
    spec fn inv(self) -> bool {
        store_wf(self@)
    }

    /// Create an empty store.
    pub fn new() -> (r: Self)
        ensures
            r@ == Seq::<EntryView>::empty(),
            store_wf(r@),
    {
        let r = ParameterStore { entries: Vec::new() };
        assert(r@ =~= Seq::<EntryView>::empty());
        r
    }

    /// Return the number of unique slots.
    pub fn len(&self) -> (r: usize)
        ensures
            r == self@.len(),
            store_wf(self@),
    {
        proof {
            use_type_invariant(self);
        }
        self.entries.len()
    }

    /// Return whether this store has no slots.
    pub fn is_empty(&self) -> (r: bool)
        ensures
            r == (self@.len() == 0),
    {
        self.entries.len() == 0
    }

    fn index_by_id(&self, id: ParamId) -> (r: Option<usize>)
        ensures
            match r {
                Some(i) => i < self@.len() && index_of_id(self@, id.0) == Some(i as int),
                None => index_of_id(self@, id.0) is None,
            },
    {
        proof {
            use_type_invariant(self);
        }
        let mut i: usize = 0;
        while i < self.entries.len()
            invariant
                i <= self.entries@.len(),
                store_wf(self@),
                forall|k: int| 0 <= k < i ==> (#[trigger] self@[k]).id != id.0,
            decreases self.entries.len() - i,
        {
            if self.entries[i].slot.id().get() == id.get() {
                proof {
                    assert(self@[i as int].id == id.0);
                    let c = choose|c: int| 0 <= c < self@.len() && (#[trigger] self@[c]).id == id.0;
                    if c != i as int {
                        if c < i as int {
                        } else {
                            assert(self@[i as int].id != self@[c].id);
                        }
                    }
                }
                return Some(i);
            }
            i = i + 1;
        }
        None
    }

    fn index_by_name(&self, name: &str) -> (r: Option<usize>)
        ensures
            match r {
                Some(i) => i < self@.len() && owner_of(self@, name@) == Some(i as int),
                None => owner_of(self@, name@) is None,
            },
    {
        proof {
            use_type_invariant(self);
        }
        let mut i: usize = 0;
        while i < self.entries.len()
            invariant
                i <= self.entries@.len(),
                store_wf(self@),
                forall|k: int| 0 <= k < i ==> !has_name(#[trigger] self@[k], name@),
            decreases self.entries.len() - i,
        {
            let e = &self.entries[i];
            if crate::text::str_eq(e.canonical_name.as_str(), name) || contains_text(&e.aliases, name) {
                proof {
                    assert(has_name(self@[i as int], name@));
                    let c = choose|c: int| 0 <= c < self@.len() && has_name(#[trigger] self@[c], name@);
                    if c != i as int {
                        assert(!has_name(self@[c], name@));
                    }
                }
                return Some(i);
            }
            i = i + 1;
        }
        None
    }

    /// Register a slot at a stable hierarchical path. Registering the same identity
    /// under another name records an alias; a name bound to another identity is
    /// refused so persisted state is never ambiguous.
    pub fn insert(&mut self, name: String, slot: ParameterSlot) -> (r: Result<ParamId, TynxError>)
        ensures
            inserted(old(self)@, name@, slot_view(slot), insert_outcome(r), final(self)@),
    {
        proof {
            use_type_invariant(&*self);
        }
        if str_is_blank(name.as_str()) {
            return Err(TynxError::TypeMismatch(owned("parameter state name cannot be empty")));
        }
        let id = slot.id();
        match self.index_by_name(name.as_str()) {
            Some(i) => {
                let existing = self.entries[i].slot.id();
                if existing.get() == id.get() {
                    return Ok(id);
                }
                let mut m = owned("parameter name '");
                m.append(name.as_str());
                m.append("' is already bound to slot ");
                m.append(u64_text(existing.get()).as_str());
                return Err(TynxError::TypeMismatch(m));
            },
            None => {},
        }
        let ghost before = self@;
        match self.index_by_id(id) {
            Some(i) => {
                let mut entries: Vec<StoreEntry> = Vec::new();
                std::mem::swap(&mut entries, &mut self.entries);
                let ghost ev = entries_view(entries@);
                assert(ev == before);
                let mut e = entries.remove(i);
                let ghost old_e = entry_view(e);
                assert(old_e == before[i as int]);
                if str_lt(name.as_str(), e.canonical_name.as_str()) {
                    let mut previous = name.clone();
                    std::mem::swap(&mut previous, &mut e.canonical_name);
                    insert_sorted(&mut e.aliases, previous);
                    e.slot.set_name(name);
                } else {
                    insert_sorted(&mut e.aliases, name);
                }
                let ghost new_e = entry_view(e);
                entries.insert(i, e);
                proof {
                    let after = entries_view(entries@);
                    assert(after =~= before.update(i as int, new_e));
                    self.lemma_add_name(before, i as int, old_e, new_e, name@);
                }
                self.entries = entries;
                Ok(id)
            },
            None => {
                let mut slot = slot;
                slot.set_name(name.clone());
                let entry = StoreEntry { slot, canonical_name: name, aliases: Vec::new() };
                let ghost new_e = entry_view(entry);
                let mut entries: Vec<StoreEntry> = Vec::new();
                std::mem::swap(&mut entries, &mut self.entries);
                entries.push(entry);
                proof {
                    let after = entries_view(entries@);
                    assert(after =~= before.push(new_e));
                    assert(new_e.aliases =~= Seq::<Seq<char>>::empty());
                    assert(store_wf(before.push(new_e))) by {
                        let v = before.push(new_e);
                        assert forall|a: int, b: int, n: Seq<char>|
                            0 <= a < v.len() && 0 <= b < v.len() && a != b && #[trigger] has_name(v[a], n) implies !#[trigger] has_name(v[b], n) by {
                            if a == before.len() {
                                assert(v[b] == before[b]);
                                assert(n == name@);
                            } else if b == before.len() {
                                assert(v[a] == before[a]);
                                if has_name(v[b], n) {
                                    assert(n == name@);
                                }
                            } else {
                                assert(v[a] == before[a] && v[b] == before[b]);
                            }
                        }
                        assert forall|a: int, b: int| 0 <= a < b < v.len() implies (#[trigger] v[a]).id != (#[trigger] v[b]).id by {
                            if b == before.len() {
                                assert(v[a] == before[a]);
                            } else {
                                assert(v[a] == before[a] && v[b] == before[b]);
                            }
                        }
                        assert forall|a: int| 0 <= a < v.len() implies {
                            &&& sorted_strict((#[trigger] v[a]).aliases)
                            &&& forall|k: int| 0 <= k < v[a].aliases.len() ==> seq_lt(v[a].canonical, #[trigger] v[a].aliases[k])
                            &&& v[a].slot.name == Some(v[a].canonical)
                            &&& v[a].slot.id == v[a].id
                        } by {
                            if a < before.len() {
                                assert(v[a] == before[a]);
                            }
                        }
                    }
                }
                self.entries = entries;
                Ok(id)
            },
        }
    }

    proof fn lemma_add_name(&self, before: Seq<EntryView>, i: int, old_e: EntryView, new_e: EntryView, name: Seq<char>)
        requires
            store_wf(before),
            0 <= i < before.len(),
            old_e == before[i],
            owner_of(before, name) is None,
            new_e.id == old_e.id,
            new_e.slot.id == old_e.slot.id,
            sorted_strict(new_e.aliases),
            if seq_lt(name, old_e.canonical) {
                &&& new_e.canonical == name
                &&& new_e.aliases.to_set() == old_e.aliases.to_set().insert(old_e.canonical)
                &&& new_e.slot == (SlotView { name: Some(name), ..old_e.slot })
            } else {
                &&& new_e.canonical == old_e.canonical
                &&& new_e.aliases.to_set() == old_e.aliases.to_set().insert(name)
                &&& new_e.slot == old_e.slot
            },
        ensures
            store_wf(before.update(i, new_e)),
            with_name(old_e, new_e, name),
    {
        let v = before.update(i, new_e);
        assert(!has_name(old_e, name)) by {
            if has_name(old_e, name) {
                assert(exists|k: int| 0 <= k < before.len() && has_name(#[trigger] before[k], name));
            }
        }
        assert forall|n: Seq<char>| #[trigger] has_name(new_e, n) implies has_name(old_e, n) || n == name by {
            if new_e.aliases.contains(n) {
                let k = choose|k: int| 0 <= k < new_e.aliases.len() && new_e.aliases[k] == n;
                assert(new_e.aliases.to_set().contains(n));
                if n != name && n != old_e.canonical {
                    assert(old_e.aliases.to_set().contains(n));
                }
            }
        }
        assert forall|a: int, b: int, n: Seq<char>|
            0 <= a < v.len() && 0 <= b < v.len() && a != b && #[trigger] has_name(v[a], n) implies !#[trigger] has_name(v[b], n) by {
            if a == i {
                assert(v[b] == before[b]);
                if n == name {
                    if has_name(before[b], name) {
                        assert(exists|k: int| 0 <= k < before.len() && has_name(#[trigger] before[k], name));
                    }
                } else {
                    assert(has_name(before[a], n));
                }
            } else if b == i {
                assert(v[a] == before[a]);
                if has_name(v[b], n) {
                    if n == name {
                        assert(exists|k: int| 0 <= k < before.len() && has_name(#[trigger] before[k], name));
                    } else {
                        assert(has_name(before[b], n));
                    }
                }
            } else {
                assert(v[a] == before[a] && v[b] == before[b]);
            }
        }
        assert forall|a: int, b: int| 0 <= a < b < v.len() implies (#[trigger] v[a]).id != (#[trigger] v[b]).id by {
            assert(before[a].id != before[b].id);
        }
        assert forall|a: int| 0 <= a < v.len() implies {
            &&& sorted_strict((#[trigger] v[a]).aliases)
            &&& forall|k: int| 0 <= k < v[a].aliases.len() ==> seq_lt(v[a].canonical, #[trigger] v[a].aliases[k])
            &&& v[a].slot.name == Some(v[a].canonical)
            &&& v[a].slot.id == v[a].id
        } by {
            if a == i {
                assert forall|k: int| 0 <= k < new_e.aliases.len() implies seq_lt(new_e.canonical, #[trigger] new_e.aliases[k]) by {
                    let x = new_e.aliases[k];
                    assert(new_e.aliases.to_set().contains(x));
                    if seq_lt(name, old_e.canonical) {
                        if x == old_e.canonical {
                        } else {
                            assert(old_e.aliases.to_set().contains(x));
                            let w = choose|w: int| 0 <= w < old_e.aliases.len() && old_e.aliases[w] == x;
                            assert(seq_lt(old_e.canonical, old_e.aliases[w]));
                            lemma_seq_lt_transitive(name, old_e.canonical, x);
                        }
                    } else {
                        if x == name {
                            lemma_seq_lt_total(name, old_e.canonical);
                        } else {
                            assert(old_e.aliases.to_set().contains(x));
                            let w = choose|w: int| 0 <= w < old_e.aliases.len() && old_e.aliases[w] == x;
                            assert(seq_lt(old_e.canonical, old_e.aliases[w]));
                        }
                    }
                }
            } else {
                assert(v[a] == before[a]);
            }
        }
    }

    fn put_slot(&mut self, i: usize, slot: ParameterSlot)
        requires
            i < old(self)@.len(),
            slot_view(slot).id == old(self)@[i as int].id,
            slot_view(slot).name == old(self)@[i as int].slot.name,
        ensures
            final(self)@ == old(self)@.update(i as int, EntryView { slot: slot_view(slot), ..old(self)@[i as int] }),
    {
        proof {
            use_type_invariant(&*self);
        }
        let ghost before = self@;
        let mut entries: Vec<StoreEntry> = Vec::new();
        std::mem::swap(&mut entries, &mut self.entries);
        let ghost prev = entries@;
        let mut e = entries.remove(i);
        e.slot = slot;
        let ghost new_e = e;
        entries.insert(i, e);
        proof {
            assert(entries@[i as int] == new_e);
            assert forall|k: int| 0 <= k < entries@.len() && k != i implies entries@[k] == prev[k] by {}
            assert(entries_view(entries@) =~= before.update(i as int, EntryView { slot: slot_view(slot), ..before[i as int] }));
            let after = entries_view(entries@);
            assert forall|a: int, b: int, n: Seq<char>|
                0 <= a < after.len() && 0 <= b < after.len() && a != b && #[trigger] has_name(after[a], n) implies !#[trigger] has_name(after[b], n) by {
                assert(has_name(before[a], n));
                assert(has_name(after[b], n) == has_name(before[b], n));
            }
            assert forall|a: int, b: int| 0 <= a < b < after.len() implies (#[trigger] after[a]).id != (#[trigger] after[b]).id by {
                assert(before[a].id != before[b].id);
            }
            assert forall|a: int| 0 <= a < after.len() implies {
                &&& sorted_strict((#[trigger] after[a]).aliases)
                &&& forall|k: int| 0 <= k < after[a].aliases.len() ==> seq_lt(after[a].canonical, #[trigger] after[a].aliases[k])
                &&& after[a].slot.name == Some(after[a].canonical)
                &&& after[a].slot.id == after[a].id
            } by {
                assert(after[a].aliases == before[a].aliases);
            }
        }
        self.entries = entries;
    }

    fn missing_slot(id: ParamId) -> (e: TynxError)
        ensures
            error_view(e) == (ErrorKind::MissingValue, msg_unregistered_slot(id.0)),
    {
        let mut m = owned("parameter slot ");
        m.append(u64_text(id.0).as_str());
        m.append(" is not registered in this store");
        TynxError::MissingValue(m)
    }

    /// Replace the value of a registered slot through its identity, as an
    /// optimizer step does. Every name of the slot reads the one state the store
    /// holds, so the update is seen through each of them.
    pub fn replace_value(&mut self, id: ParamId, value: &TensorInfo) -> (r: Result<(), TynxError>)
        ensures
            match index_of_id(old(self)@, id.0) {
                None => unit_outcome(r) == Err::<(), (ErrorKind, Seq<char>)>((ErrorKind::MissingValue, msg_unregistered_slot(id.0)))
                    && final(self)@ == old(self)@,
                Some(i) => {
                    let step = value_replaced(old(self)@[i].slot, *value);
                    &&& unit_outcome(r) == step.0
                    &&& final(self)@ == old(self)@.update(i, EntryView { slot: step.1, ..old(self)@[i] })
                },
            },
    {
        match self.index_by_id(id) {
            None => Err(Self::missing_slot(id)),
            Some(i) => {
                let mut s = self.entries[i].slot.duplicate();
                let r = s.replace_value(value);
                self.put_slot(i, s);
                r
            },
        }
    }

    /// Read a registered slot through its identity for a forward pass: every name
    /// of the slot shares its leaf for the current value generation.
    pub fn read(&mut self, id: ParamId) -> (r: Option<ReadKind>)
        ensures
            match index_of_id(old(self)@, id.0) {
                None => r is None && final(self)@ == old(self)@,
                Some(i) => {
                    let step = read_step(old(self)@[i].slot);
                    &&& r == Some(step.0)
                    &&& final(self)@ == old(self)@.update(i, EntryView { slot: step.1, ..old(self)@[i] })
                },
            },
    {
        match self.index_by_id(id) {
            None => None,
            Some(i) => {
                let mut s = self.entries[i].slot.duplicate();
                let r = s.read();
                self.put_slot(i, s);
                Some(r)
            },
        }
    }

    /// Bring a caller's copy of a slot up to the state the store holds for its
    /// identity, so that it reads what was last written through any name.
    pub fn refresh(&self, slot: &mut ParameterSlot) -> (r: bool)
        ensures
            match index_of_id(self@, slot_view(*old(slot)).id) {
                Some(i) => r && slot_view(*final(slot)) == self@[i].slot,
                None => !r && slot_view(*final(slot)) == slot_view(*old(slot)),
            },
    {
        match self.index_by_id(slot.id()) {
            None => false,
            Some(i) => {
                *slot = self.entries[i].slot.duplicate();
                true
            },
        }
    }

    /// Return a slot by process-local identity.
    pub fn get(&self, id: ParamId) -> (r: Option<&ParameterSlot>)
        ensures
            match r {
                Some(s) => index_of_id(self@, id.0) matches Some(i) && slot_view(*s) == self@[i].slot,
                None => index_of_id(self@, id.0) is None,
            },
    {
        match self.index_by_id(id) {
            Some(i) => Some(&self.entries[i].slot),
            None => None,
        }
    }

    /// Return a slot by canonical name or alias.
    pub fn get_by_name(&self, name: &str) -> (r: Option<&ParameterSlot>)
        ensures
            match r {
                Some(s) => owner_of(self@, name@) matches Some(i) && slot_view(*s) == self@[i].slot,
                None => owner_of(self@, name@) is None,
            },
    {
        match self.index_by_name(name) {
            Some(i) => Some(&self.entries[i].slot),
            None => None,
        }
    }

    /// Return the identity registered for a canonical name or alias.
    pub fn id_by_name(&self, name: &str) -> (r: Option<ParamId>)
        ensures
            match r {
                Some(id) => owner_of(self@, name@) matches Some(i) && id.0 == self@[i].id,
                None => owner_of(self@, name@) is None,
            },
    {
        match self.index_by_name(name) {
            Some(i) => Some(self.entries[i].slot.id()),
            None => None,
        }
    }

    /// Return the canonical checkpoint name of an identity.
    pub fn canonical_name(&self, id: ParamId) -> (r: Option<&str>)
        ensures
            match r {
                Some(n) => index_of_id(self@, id.0) matches Some(i) && n@ == self@[i].canonical,
                None => index_of_id(self@, id.0) is None,
            },
    {
        match self.index_by_id(id) {
            Some(i) => Some(self.entries[i].canonical_name.as_str()),
            None => None,
        }
    }

    /// Return the tied aliases of an identity in lexical order; none for an unknown identity.
    pub fn aliases(&self, id: ParamId) -> (r: Vec<&str>)
        ensures
            r@.map_values(|s: &str| s@) == match index_of_id(self@, id.0) {
                Some(i) => self@[i].aliases,
                None => Seq::<Seq<char>>::empty(),
            },
    {
        let mut out: Vec<&str> = Vec::new();
        match self.index_by_id(id) {
            Some(i) => {
                let e = &self.entries[i];
                let ghost target = views(e.aliases@);
                let mut k: usize = 0;
                while k < e.aliases.len()
                    invariant
                        k <= e.aliases@.len(),
                        target == views(e.aliases@),
                        out@.len() == k,
                        out@.map_values(|s: &str| s@) == target.take(k as int),
                    decreases e.aliases.len() - k,
                {
                    let ghost prev = out@;
                    let a: &str = e.aliases[k].as_str();
                    out.push(a);
                    proof {
                        assert(out@ == prev.push(a));
                        assert(out@.map_values(|s: &str| s@) =~= target.take(k + 1));
                    }
                    k = k + 1;
                }
                assert(target.take(e.aliases@.len() as int) =~= target);
            },
            None => {
                assert(out@.map_values(|s: &str| s@) =~= Seq::<Seq<char>>::empty());
            },
        }
        out
    }

    /// The unique slots in insertion order.
    pub fn iter(&self) -> (r: Vec<&ParameterSlot>)
        ensures
            r@.map_values(|s: &ParameterSlot| slot_view(*s)) == self@.map_values(|e: EntryView| e.slot),
    {
        let mut out: Vec<&ParameterSlot> = Vec::new();
        let mut i: usize = 0;
        while i < self.entries.len()
            invariant
                i <= self.entries@.len(),
                out@.len() == i,
                out@.map_values(|s: &ParameterSlot| slot_view(*s)) == self@.map_values(|e: EntryView| e.slot).take(i as int),
            decreases self.entries.len() - i,
        {
            let ghost prev = out@;
            out.push(&self.entries[i].slot);
            proof {
                assert(out@ == prev.push(&self.entries@[i as int].slot));
                assert(out@.map_values(|s: &ParameterSlot| slot_view(*s))
                    =~= self@.map_values(|e: EntryView| e.slot).take(i + 1));
            }
            i = i + 1;
        }
        assert(self@.map_values(|e: EntryView| e.slot).take(self.entries@.len() as int) =~= self@.map_values(|e: EntryView| e.slot));
        out
    }

    /// Canonical names and unique slots in insertion order.
    pub fn named(&self) -> (r: Vec<(&str, &ParameterSlot)>)
        ensures
            r@.map_values(|p: (&str, &ParameterSlot)| (p.0@, slot_view(*p.1)))
                == self@.map_values(|e: EntryView| (e.canonical, e.slot)),
    {
        let mut out: Vec<(&str, &ParameterSlot)> = Vec::new();
        let mut i: usize = 0;
        while i < self.entries.len()
            invariant
                i <= self.entries@.len(),
                out@.len() == i,
                out@.map_values(|p: (&str, &ParameterSlot)| (p.0@, slot_view(*p.1)))
                    == self@.map_values(|e: EntryView| (e.canonical, e.slot)).take(i as int),
            decreases self.entries.len() - i,
        {
            let ghost prev = out@;
            let e = &self.entries[i];
            let pair: (&str, &ParameterSlot) = (e.canonical_name.as_str(), &e.slot);
            out.push(pair);
            proof {
                assert(out@ == prev.push(pair));
                assert(out@.map_values(|p: (&str, &ParameterSlot)| (p.0@, slot_view(*p.1)))
                    =~= self@.map_values(|e: EntryView| (e.canonical, e.slot)).take(i + 1));
            }
            i = i + 1;
        }
        assert(self@.map_values(|e: EntryView| (e.canonical, e.slot)).take(self.entries@.len() as int)
            =~= self@.map_values(|e: EntryView| (e.canonical, e.slot)));
        out
    }

    /// The unique slots that are currently trainable, in insertion order.
    pub fn trainable(&self) -> (r: Vec<&ParameterSlot>)
        ensures
            r@.map_values(|s: &ParameterSlot| slot_view(*s)) == trainable_slots(self@, self@.len() as int),
    {
        let mut out: Vec<&ParameterSlot> = Vec::new();
        let mut i: usize = 0;
        while i < self.entries.len()
            invariant
                i <= self.entries@.len(),
                out@.map_values(|s: &ParameterSlot| slot_view(*s)) == trainable_slots(self@, i as int),
            decreases self.entries.len() - i,
        {
            let ghost prev = out@;
            let s = &self.entries[i].slot;
            if s.contract().trainable() {
                out.push(s);
                proof {
                    assert(out@ == prev.push(s));
                    assert(out@.map_values(|s: &ParameterSlot| slot_view(*s))
                        =~= prev.map_values(|s: &ParameterSlot| slot_view(*s)).push(slot_view(*s)));
                }
            }
            i = i + 1;
        }
        out
    }

    /// Accumulate the gradients of one backward pass into every unique trainable
    /// slot, in insertion order, and count the slots that took one. The first
    /// refused gradient stops the pass; slots before it keep what they took.
    pub fn accumulate_gradients(&mut self, gradients: &[(ParamId, TensorInfo)]) -> (r: Result<usize, TynxError>)
        ensures
            ({
                let a = accumulated(old(self)@, gradients@, old(self)@.len() as int);
                &&& final(self)@ == a.0
                &&& match a.2 {
                    None => r == Ok::<usize, TynxError>(a.1 as usize),
                    Some(x) => r matches Err(e) && error_view(e) == x,
                }
            }),
    {
        proof {
            use_type_invariant(&*self);
        }
        let ghost before = self@;
        let mut entries: Vec<StoreEntry> = Vec::new();
        std::mem::swap(&mut entries, &mut self.entries);
        let mut count: usize = 0;
        let mut failure: Option<TynxError> = None;
        let mut i: usize = 0;
        proof {
            lemma_accumulated_frame(before, gradients@, 0);
        }
        while i < entries.len()
            invariant
                i <= entries@.len(),
                entries@.len() == before.len(),
                store_wf(before),
                accumulated(before, gradients@, i as int).0 == entries_view(entries@),
                accumulated(before, gradients@, i as int).1 == count as nat,
                count <= i,
                match accumulated(before, gradients@, i as int).2 {
                    None => failure is None,
                    Some(x) => failure matches Some(e) && error_view(e) == x,
                },
                forall|k: int| 0 <= k < entries@.len() ==> {
                    &&& (#[trigger] entries_view(entries@)[k]).id == before[k].id
                    &&& entries_view(entries@)[k].canonical == before[k].canonical
                    &&& entries_view(entries@)[k].aliases == before[k].aliases
                    &&& entries_view(entries@)[k].slot.id == before[k].slot.id
                    &&& entries_view(entries@)[k].slot.name == before[k].slot.name
                },
                forall|k: int| i <= k < entries@.len() ==> #[trigger] entries_view(entries@)[k] == before[k],
            decreases entries.len() - i,
        {
            let ghost a = accumulated(before, gradients@, i as int);
            assert(entries_view(entries@)[i as int] == before[i as int]);
            if failure.is_none() && entries[i].slot.contract().trainable() {
                let ghost prev = entries@;
                let mut e = entries.remove(i);
                assert(e == prev[i as int]);
                assert(entry_view(e) == before[i as int]);
                let g = gradient_of(gradients, e.slot.id());
                let step = e.slot.accumulate_from(g);
                let ghost new_e = e;
                entries.insert(i, e);
                proof {
                    let st = accumulate_step(before[i as int].slot, gradient_for(gradients@, before[i as int].id));
                    assert(st.1 == slot_view(new_e.slot));
                    assert(entries@[i as int] == new_e);
                    assert forall|k: int| 0 <= k < entries@.len() && k != i implies entries@[k] == prev[k] by {}
                    assert(entries_view(entries@) =~= entries_view(prev).update(i as int, entry_view(new_e)));
                    assert(entry_view(new_e) == EntryView { slot: st.1, ..before[i as int] });
                }
                match step {
                    Ok(took) => {
                        if took {
                            count = count + 1;
                        }
                    },
                    Err(err) => {
                        failure = Some(err);
                    },
                }
            } else {
                assert(accumulated(before, gradients@, i as int + 1) == a);
            }
            i = i + 1;
        }
        proof {
            let after = entries_view(entries@);
            assert forall|a: int, b: int, n: Seq<char>|
                0 <= a < after.len() && 0 <= b < after.len() && a != b && #[trigger] has_name(after[a], n) implies !#[trigger] has_name(after[b], n) by {
                assert(has_name(before[a], n));
                assert(has_name(after[b], n) == has_name(before[b], n));
            }
            assert forall|a: int, b: int| 0 <= a < b < after.len() implies (#[trigger] after[a]).id != (#[trigger] after[b]).id by {
                assert(before[a].id != before[b].id);
            }
            assert forall|a: int| 0 <= a < after.len() implies {
                &&& sorted_strict((#[trigger] after[a]).aliases)
                &&& forall|k: int| 0 <= k < after[a].aliases.len() ==> seq_lt(after[a].canonical, #[trigger] after[a].aliases[k])
                &&& after[a].slot.name == Some(after[a].canonical)
                &&& after[a].slot.id == after[a].id
            } by {
                assert(after[a].aliases == before[a].aliases);
            }
        }
        self.entries = entries;
        match failure {
            Some(err) => Err(err),
            None => Ok(count),
        }
    }

    /// Clear the accumulated gradient of every unique slot.
    pub fn zero_grad(&mut self)
        ensures
            final(self)@.len() == old(self)@.len(),
            forall|i: int| 0 <= i < old(self)@.len() ==> (#[trigger] final(self)@[i]) == (EntryView {
                slot: SlotView { has_grad: false, ..old(self)@[i].slot },
                ..old(self)@[i]
            }),
    {
        proof {
            use_type_invariant(&*self);
        }
        let ghost before = self@;
        let mut entries: Vec<StoreEntry> = Vec::new();
        std::mem::swap(&mut entries, &mut self.entries);
        let mut i: usize = 0;
        while i < entries.len()
            invariant
                i <= entries@.len(),
                entries@.len() == before.len(),
                forall|k: int| 0 <= k < i ==> (#[trigger] entries_view(entries@)[k]) == (EntryView {
                    slot: SlotView { has_grad: false, ..before[k].slot },
                    ..before[k]
                }),
                forall|k: int| i <= k < entries@.len() ==> #[trigger] entries_view(entries@)[k] == before[k],
            decreases entries.len() - i,
        {
            let ghost prev = entries@;
            let mut e = entries.remove(i);
            let ghost old_e = e;
            assert(entry_view(old_e) == entries_view(prev)[i as int]);
            e.slot.zero_grad();
            let ghost new_e = e;
            entries.insert(i, e);
            proof {
                assert(entries@[i as int] == new_e);
                assert(entries_view(entries@)[i as int] == entry_view(new_e));
                assert forall|k: int| 0 <= k < entries@.len() && k != i implies entries@[k] == prev[k] by {}
                assert forall|k: int| 0 <= k < i + 1 implies (#[trigger] entries_view(entries@)[k]) == (EntryView {
                    slot: SlotView { has_grad: false, ..before[k].slot },
                    ..before[k]
                }) by {
                    if k < i {
                        assert(entries@[k] == prev[k]);
                        assert(entries_view(prev)[k] == entries_view(entries@)[k]);
                    }
                }
                assert forall|k: int| i + 1 <= k < entries@.len() implies #[trigger] entries_view(entries@)[k] == before[k] by {
                    assert(entries@[k] == prev[k]);
                    assert(entries_view(prev)[k] == entries_view(entries@)[k]);
                }
            }
            i = i + 1;
        }
        proof {
            let after = entries_view(entries@);
            assert forall|a: int, b: int, n: Seq<char>|
                0 <= a < after.len() && 0 <= b < after.len() && a != b && #[trigger] has_name(after[a], n) implies !#[trigger] has_name(after[b], n) by {
                assert(after[a].canonical == before[a].canonical && after[a].aliases == before[a].aliases);
                assert(after[b].canonical == before[b].canonical && after[b].aliases == before[b].aliases);
                assert(has_name(before[a], n));
                assert(has_name(after[b], n) == has_name(before[b], n));
                assert(store_wf(before));
            }
            assert forall|a: int, b: int| 0 <= a < b < after.len() implies (#[trigger] after[a]).id != (#[trigger] after[b]).id by {
                assert(before[a].id != before[b].id);
            }
            assert forall|a: int| 0 <= a < after.len() implies {
                &&& sorted_strict((#[trigger] after[a]).aliases)
                &&& forall|k: int| 0 <= k < after[a].aliases.len() ==> seq_lt(after[a].canonical, #[trigger] after[a].aliases[k])
                &&& after[a].slot.name == Some(after[a].canonical)
                &&& after[a].slot.id == after[a].id
            } by {
                assert(after[a].aliases == before[a].aliases);
            }
        }
        self.entries = entries;
    }
}

/// The slots before `n` whose contract is trainable, in insertion order.
pub open spec fn trainable_slots(v: Seq<EntryView>, n: int) -> Seq<SlotView>
    decreases n,
{
    if n <= 0 {
        Seq::empty()
    } else if v[n - 1].slot.contract.trainable {
        trainable_slots(v, n - 1).push(v[n - 1].slot)
    } else {
        trainable_slots(v, n - 1)
    }
}


/// Registering the same slot under the same name a second time changes nothing
/// and answers as the first registration did.
pub proof fn law_insert_idempotent(
    v0: Seq<EntryView>,
    name: Seq<char>,
    slot: SlotView,
    r1: Result<u64, (ErrorKind, Seq<char>)>,
    v1: Seq<EntryView>,
    r2: Result<u64, (ErrorKind, Seq<char>)>,
    v2: Seq<EntryView>,
)
    requires
        store_wf(v0),
        inserted(v0, name, slot, r1, v1),
        r1 is Ok,
        inserted(v1, name, slot, r2, v2),
    ensures
        v2 == v1,
        r2 == r1,
{
    assert(!is_blank(name));
    // After the first registration the name belongs to the entry holding the slot.
    let i: int = match owner_of(v0, name) {
        Some(i) => i,
        None => match index_of_id(v0, slot.id) {
            Some(i) => {
                if seq_lt(name, v0[i].canonical) {
                    assert(v1[i].canonical == name);
                } else {
                    assert(v1[i].aliases.to_set().contains(name));
                }
                i
            },
            None => {
                assert(v1[v0.len() as int].canonical == name);
                v0.len() as int
            },
        },
    };
    assert(0 <= i < v1.len() && has_name(v1[i], name) && v1[i].id == slot.id) by {
        if owner_of(v0, name) is Some {
            let c = choose|c: int| 0 <= c < v0.len() && has_name(#[trigger] v0[c], name);
            assert(c == i);
        }
    }
    let j = choose|j: int| 0 <= j < v1.len() && has_name(#[trigger] v1[j], name);
    assert(owner_of(v1, name) == Some(j));
    assert(j == i);
}

/// A slot's canonical name is the least of its names: every other name it is
/// registered under sorts after it.
pub proof fn law_canonical_is_least(v: Seq<EntryView>, i: int, name: Seq<char>)
    requires
        store_wf(v),
        0 <= i < v.len(),
        has_name(v[i], name),
    ensures
        name == v[i].canonical || seq_lt(v[i].canonical, name),
{
    if name != v[i].canonical {
        let k = choose|k: int| 0 <= k < v[i].aliases.len() && v[i].aliases[k] == name;
        assert(seq_lt(v[i].canonical, v[i].aliases[k]));
    }
}

/// A name is never ambiguous: at most one entry is registered under it.
pub proof fn law_names_unambiguous(v: Seq<EntryView>, i: int, j: int, name: Seq<char>)
    requires
        store_wf(v),
        0 <= i < v.len(),
        0 <= j < v.len(),
        has_name(v[i], name),
        has_name(v[j], name),
    ensures
        i == j,
{
}


proof fn lemma_accumulated_frame(v: Seq<EntryView>, gradients: Seq<(ParamId, TensorInfo)>, n: int)
    requires
        0 <= n <= v.len(),
    ensures
        accumulated(v, gradients, n).0.len() == v.len(),
        accumulated(v, gradients, n).1 <= n,
        forall|k: int| n <= k < v.len() ==> #[trigger] accumulated(v, gradients, n).0[k] == v[k],
    decreases n,
{
    if n > 0 {
        lemma_accumulated_frame(v, gradients, n - 1);
    }
}

fn gradient_of<'a>(gradients: &'a [(ParamId, TensorInfo)], id: ParamId) -> (r: Option<&'a TensorInfo>)
    ensures
        match gradient_for(gradients@, id.0) {
            Some(g) => r == Some(&g),
            None => r is None,
        },
{
    let ghost gs = gradients@;
    let mut i: usize = 0;
    assert(gs.skip(0) =~= gs);
    while i < gradients.len()
        invariant
            i <= gradients@.len(),
            gs == gradients@,
            gradient_for(gs, id.0) == gradient_for(gs.skip(i as int), id.0),
        decreases gradients.len() - i,
    {
        proof {
            assert(gs.skip(i as int).drop_first() =~= gs.skip(i + 1));
            assert(gs.skip(i as int)[0] == gs[i as int]);
        }
        if gradients[i].0.0 == id.0 {
            return Some(&gradients[i].1);
        }
        i = i + 1;
    }
    assert(gs.skip(i as int).len() == 0);
    None
}

/// One state per slot: every name registered for a slot, canonical or alias,
/// reads the entry that a write through the slot's identity changed, so the
/// last write through any handle is what every handle reads.
pub proof fn law_aliases_read_last_write(
    old: Seq<EntryView>,
    id: u64,
    value: TensorInfo,
    a: Seq<char>,
    b: Seq<char>,
)
    requires
        store_wf(old),
        owner_of(old, a) is Some,
        owner_of(old, b) is Some,
        old[owner_of(old, a)->0].id == id,
        old[owner_of(old, b)->0].id == id,
    ensures
        index_of_id(old, id) is Some,
        ({
            let i = index_of_id(old, id)->0;
            let new = old.update(i, EntryView { slot: value_replaced(old[i].slot, value).1, ..old[i] });
            &&& owner_of(new, a) == owner_of(new, b)
            &&& new[owner_of(new, a)->0].slot == value_replaced(old[i].slot, value).1
            &&& new[owner_of(new, b)->0].slot == value_replaced(old[i].slot, value).1
        }),
{
    let ia = owner_of(old, a)->0;
    let ib = owner_of(old, b)->0;
    assert(0 <= ia < old.len() && has_name(old[ia], a));
    assert(0 <= ib < old.len() && has_name(old[ib], b));
    if ia != ib {
        assert(old[ia].id != old[ib].id) by {
            if ia < ib {
                assert(old[ia].id != old[ib].id);
            } else {
                assert(old[ib].id != old[ia].id);
            }
        }
    }
    assert(old[ia].id == id);
    let i = index_of_id(old, id)->0;
    assert(0 <= i < old.len() && old[i].id == id);
    if i != ia {
        if i < ia {
            assert(old[i].id != old[ia].id);
        } else {
            assert(old[ia].id != old[i].id);
        }
    }
    let new = old.update(i, EntryView { slot: value_replaced(old[i].slot, value).1, ..old[i] });
    assert(has_name(new[i], a));
    assert(has_name(new[i], b));
    assert forall|k: int| 0 <= k < new.len() && k != i implies !has_name(#[trigger] new[k], a) && !has_name(new[k], b) by {
        assert(new[k] == old[k]);
        assert(has_name(old[i], a));
    }
    assert(owner_of(new, a) == Some(i));
    assert(owner_of(new, b) == Some(i));
}

} // verus!
