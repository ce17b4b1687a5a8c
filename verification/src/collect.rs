//! What an optimizer or a gradient clipper is built from: parameter slots, or
//! (name, parameter) pairs, checked item by item, kept once per slot identity and,
//! where every slot has a name, registered in a store under those names.

use vstd::prelude::*;
use crate::error::{error_view, ErrorKind, TynxError};
use crate::parameter::{slot_view, ParameterSlot, SlotView};
use crate::store::{inserted, insert_outcome, EntryView, ParameterStore};
use crate::text::owned;
use vstd::string::StringExecFns;

verus! {

/// One item of the parameter list as the caller handed it over.
pub enum ParameterItem {
    /// An item that is not a pair: the parameter slot it holds, or `None` when it
    /// is not a parameter.
    Single(Option<ParameterSlot>),
    /// A tuple: how many elements it has, its first element when that is a
    /// string, and its second element when that is a parameter.
    Pair { len: usize, name: Option<String>, parameter: Option<ParameterSlot> },
}

/// Why a parameter list was refused.
pub enum CollectError {
    /// An item is not of the accepted kind (a type error to the caller).
    Type(String),
    /// The list is empty (a value error to the caller).
    Value(String),
    /// The store refused one of the names.
    Store(TynxError),
}

/// The slots, once per identity in first-seen order, and the store of their names
/// when names are known.
pub struct CollectedParameters {
    pub slots: Vec<ParameterSlot>,
    pub named: Option<ParameterStore>,
}

pub open spec fn is_pair(it: ParameterItem) -> bool {
    it is Pair
}

pub open spec fn msg_mixed(what: Seq<char>) -> Seq<char> {
    what + " parameters cannot mix Parameter objects and named pairs"@
}

pub open spec fn msg_pair_shape(what: Seq<char>) -> Seq<char> {
    what + " named parameters must be (name, Parameter) pairs"@
}

pub open spec fn msg_name_type(what: Seq<char>) -> Seq<char> {
    what + " parameter names must be strings"@
}

pub open spec fn msg_not_parameter(what: Seq<char>) -> Seq<char> {
    what + " parameters must contain only Parameter objects"@
}

pub open spec fn msg_empty(what: Seq<char>) -> Seq<char> {
    what + " requires at least one Parameter"@
}

/// What is wrong with the parameter element of an item: it is not a parameter, or
/// its slot is frozen.
pub open spec fn slot_problem(p: Option<ParameterSlot>, what: Seq<char>) -> Option<Seq<char>> {
    match p {
        None => Some(msg_not_parameter(what)),
        Some(s) => if slot_view(s).contract.trainable { None } else { Some(msg_not_parameter(what)) },
    }
}

/// What is wrong with one item taken alone.
pub open spec fn item_problem(it: ParameterItem, what: Seq<char>) -> Option<Seq<char>> {
    match it {
        ParameterItem::Single(p) => slot_problem(p, what),
        ParameterItem::Pair { len, name, parameter } => if len != 2 {
            Some(msg_pair_shape(what))
        } else if name is None {
            Some(msg_name_type(what))
        } else {
            slot_problem(parameter, what)
        },
    }
}

/// The first problem among the first `n` items: an item of the other kind than
/// the first one, or an item wrong in itself.
pub open spec fn items_problem(items: Seq<ParameterItem>, what: Seq<char>, n: int) -> Option<Seq<char>>
    decreases n,
{
    if n <= 0 {
        None
    } else {
        match items_problem(items, what, n - 1) {
            Some(m) => Some(m),
            None => if n - 1 > 0 && is_pair(items[n - 1]) != is_pair(items[0]) {
                Some(msg_mixed(what))
            } else {
                item_problem(items[n - 1], what)
            },
        }
    }
}

/// The slot an item holds.
pub open spec fn item_slot(it: ParameterItem) -> Option<SlotView> {
    match it {
        ParameterItem::Single(Some(s)) => Some(slot_view(s)),
        ParameterItem::Pair { parameter: Some(s), .. } => Some(slot_view(s)),
        _ => None,
    }
}

pub open spec fn has_id(s: Seq<SlotView>, id: u64) -> bool {
    exists|j: int| 0 <= j < s.len() && (#[trigger] s[j]).id == id
}

/// The slots of the first `n` items, each identity once, where it first appears.
pub open spec fn unique_slots(items: Seq<ParameterItem>, n: int) -> Seq<SlotView>
    decreases n,
{
    if n <= 0 {
        Seq::empty()
    } else {
        let prev = unique_slots(items, n - 1);
        match item_slot(items[n - 1]) {
            Some(v) => if has_id(prev, v.id) { prev } else { prev.push(v) },
            None => prev,
        }
    }
}

/// The (name, slot) pairs among the first `n` items, in order, repeats included.
pub open spec fn pair_entries(items: Seq<ParameterItem>, n: int) -> Seq<(Seq<char>, SlotView)>
    decreases n,
{
    if n <= 0 {
        Seq::empty()
    } else {
        let prev = pair_entries(items, n - 1);
        match items[n - 1] {
            ParameterItem::Pair { name: Some(nm), parameter: Some(s), .. } => prev.push((nm@, slot_view(s))),
            _ => prev,
        }
    }
}

/// Whether names can be taken from the slots themselves: every slot has a
/// non-empty name and no two share one.
pub open spec fn names_inferable(slots: Seq<SlotView>) -> bool {
    &&& forall|i: int| 0 <= i < slots.len() ==> ((#[trigger] slots[i]).name matches Some(n) && n.len() > 0)
    &&& forall|i: int, j: int| 0 <= i < j < slots.len() ==> (#[trigger] slots[i]).name != (#[trigger] slots[j]).name
}

/// Each slot under its own name.
pub open spec fn inferred_entries(slots: Seq<SlotView>) -> Seq<(Seq<char>, SlotView)> {
    slots.map_values(|v: SlotView| (v.name->0, v))
}

/// A run of accepted registrations: `stores[k]` is the store before pair `k` is
/// registered and `stores[k + 1]` the store after, starting from `old`.
pub open spec fn accepted_run(
    old: Seq<EntryView>,
    pairs: Seq<(Seq<char>, SlotView)>,
    stores: Seq<Seq<EntryView>>,
) -> bool {
    &&& stores.len() == pairs.len() + 1
    &&& stores[0] == old
    &&& forall|k: int| 0 <= k < pairs.len() ==>
        inserted(stores[k], (#[trigger] pairs[k]).0, pairs[k].1, Ok(pairs[k].1.id), stores[k + 1])
}

/// Registering `pairs` in order, starting from store `old`, accepts every one of
/// them and ends in store `new`.
pub open spec fn inserts_ok(old: Seq<EntryView>, pairs: Seq<(Seq<char>, SlotView)>, new: Seq<EntryView>) -> bool {
    exists|stores: Seq<Seq<EntryView>>| #[trigger] accepted_run(old, pairs, stores) && stores.last() == new
}

/// Registering `pairs` in order, starting from store `old`, accepts those before
/// some pair and refuses that one with error `e`.
pub open spec fn inserts_refused(old: Seq<EntryView>, pairs: Seq<(Seq<char>, SlotView)>, e: (ErrorKind, Seq<char>)) -> bool {
    exists|k: int, stores: Seq<Seq<EntryView>>, new: Seq<EntryView>|
        0 <= k < pairs.len() && #[trigger] accepted_run(old, pairs.take(k), stores)
            && #[trigger] inserted(stores.last(), pairs[k].0, pairs[k].1, Err(e), new)
}

pub open spec fn slot_views(s: Seq<ParameterSlot>) -> Seq<SlotView> {
    s.map_values(|x: ParameterSlot| slot_view(x))
}

pub open spec fn entry_views(s: Seq<(String, ParameterSlot)>) -> Seq<(Seq<char>, SlotView)> {
    s.map_values(|e: (String, ParameterSlot)| (e.0@, slot_view(e.1)))
}

/// The names registered for a list with no problem and at least one slot: the
/// pairs' names when the list is made of pairs, else the slots' own names when
/// they can serve, else none.
pub open spec fn named_result(items: Seq<ParameterItem>, slots: Seq<SlotView>, named: Option<ParameterStore>) -> bool {
    if is_pair(items[0]) {
        named matches Some(st) && inserts_ok(Seq::empty(), pair_entries(items, items.len() as int), st@)
    } else if names_inferable(slots) {
        named matches Some(st) && inserts_ok(Seq::empty(), inferred_entries(slots), st@)
    } else {
        named is None
    }
}

/// The store refuses one of the names that would be registered.
pub open spec fn names_refused(items: Seq<ParameterItem>, slots: Seq<SlotView>, e: (ErrorKind, Seq<char>)) -> bool {
    if is_pair(items[0]) {
        inserts_refused(Seq::empty(), pair_entries(items, items.len() as int), e)
    } else {
        names_inferable(slots) && inserts_refused(Seq::empty(), inferred_entries(slots), e)
    }
}

fn register_all(entries: &Vec<(String, ParameterSlot)>) -> (r: Result<ParameterStore, TynxError>)
    ensures
        match r {
            Ok(st) => inserts_ok(Seq::empty(), entry_views(entries@), st@),
            Err(e) => inserts_refused(Seq::empty(), entry_views(entries@), error_view(e)),
        },
{
    let ghost all = entry_views(entries@);
    let mut store = ParameterStore::new();
    let ghost mut stores: Seq<Seq<EntryView>> = seq![store@];
    let mut i: usize = 0;
    while i < entries.len()
        invariant
            i <= entries@.len(),
            all == entry_views(entries@),
            accepted_run(Seq::empty(), all.take(i as int), stores),
            stores.last() == store@,
        decreases entries.len() - i,
    {
        let ghost before = store@;
        let name = entries[i].0.clone();
        let slot = entries[i].1.duplicate();
        let outcome = store.insert(name, slot);
        proof {
            assert(all[i as int] == (entries@[i as int].0@, slot_view(entries@[i as int].1)));
        }
        match outcome {
            Err(e) => {
                proof {
                    assert(inserted(stores.last(), all[i as int].0, all[i as int].1, Err(error_view(e)), store@));
                    assert(accepted_run(Seq::empty(), all.take(i as int), stores));
                }
                return Err(e);
            },
            Ok(_) => {},
        }
        proof {
            let next = stores.push(store@);
            let taken = all.take(i + 1);
            assert forall|k: int| 0 <= k < taken.len() implies
                inserted(next[k], (#[trigger] taken[k]).0, taken[k].1, Ok(taken[k].1.id), next[k + 1]) by {
                if k < i {
                    assert(taken[k] == all.take(i as int)[k]);
                }
            }
            stores = next;
        }
        i = i + 1;
    }
    proof {
        assert(all.take(i as int) =~= all);
    }
    Ok(store)
}

fn add_unique(slots: &mut Vec<ParameterSlot>, s: &ParameterSlot)
    ensures
        slot_views(final(slots)@) == (if has_id(slot_views(old(slots)@), slot_view(*s).id) {
            slot_views(old(slots)@)
        } else {
            slot_views(old(slots)@).push(slot_view(*s))
        }),
{
    let id = s.id();
    let mut j: usize = 0;
    while j < slots.len()
        invariant
            j <= slots@.len(),
            slots@ == old(slots)@,
            id.0 == slot_view(*s).id,
            forall|k: int| 0 <= k < j ==> (#[trigger] slot_views(slots@)[k]).id != id.0,
        decreases slots.len() - j,
    {
        if slots[j].id().get() == id.get() {
            proof {
                assert(slot_views(slots@)[j as int].id == id.0);
            }
            return;
        }
        j = j + 1;
    }
    let d = s.duplicate();
    slots.push(d);
    proof {
        assert(slot_views(slots@) =~= slot_views(old(slots)@).push(slot_view(*s)));
    }
}

fn message(what: &str, tail: &str) -> (r: String)
    ensures
        r@ == what@ + tail@,
{
    let mut m = owned(what);
    m.append(tail);
    m
}

fn trainable_slot(p: &Option<ParameterSlot>, what: &str) -> (r: Result<(), CollectError>)
    ensures
        match slot_problem(*p, what@) {
            None => r is Ok,
            Some(m) => r matches Err(CollectError::Type(e)) && e@ == m,
        },
{
    match p {
        None => Err(CollectError::Type(message(what, " parameters must contain only Parameter objects"))),
        Some(s) => {
            if s.contract().trainable() {
                Ok(())
            } else {
                Err(CollectError::Type(message(what, " parameters must contain only Parameter objects")))
            }
        },
    }
}

fn is_pair_exec(it: &ParameterItem) -> (r: bool)
    ensures
        r == is_pair(*it),
{
    match it {
        ParameterItem::Pair { .. } => true,
        ParameterItem::Single(_) => false,
    }
}

fn names_of(slots: &Vec<ParameterSlot>) -> (r: Option<Vec<(String, ParameterSlot)>>)
    ensures
        match r {
            Some(entries) => names_inferable(slot_views(slots@)) && entry_views(entries@) == inferred_entries(slot_views(slots@)),
            None => !names_inferable(slot_views(slots@)),
        },
{
    let ghost views_all = slot_views(slots@);
    let mut entries: Vec<(String, ParameterSlot)> = Vec::new();
    let mut i: usize = 0;
    while i < slots.len()
        invariant
            i <= slots@.len(),
            views_all == slot_views(slots@),
            entry_views(entries@) == inferred_entries(views_all.take(i as int)),
            forall|k: int| 0 <= k < i ==> ((#[trigger] views_all[k]).name matches Some(n) && n.len() > 0),
            forall|a: int, b: int| 0 <= a < b < i ==> (#[trigger] views_all[a]).name != (#[trigger] views_all[b]).name,
            entries@.len() == i,
        decreases slots.len() - i,
    {
        let name = match slots[i].name() {
            None => {
                return None;
            },
            Some(n) => n,
        };
        if name.as_str().unicode_len() == 0 {
            return None;
        }
        let mut j: usize = 0;
        while j < i
            invariant
                j <= i < slots@.len(),
                views_all == slot_views(slots@),
                views_all[i as int].name == Some(name@),
                entries@.len() == i,
                entry_views(entries@) == inferred_entries(views_all.take(i as int)),
                forall|b: int| 0 <= b < j ==> (#[trigger] views_all[b]).name != views_all[i as int].name,
            decreases i - j,
        {
            proof {
                assert(entry_views(entries@)[j as int] == inferred_entries(views_all.take(i as int))[j as int]);
            }
            if crate::text::str_eq(entries[j].0.as_str(), name.as_str()) {
                return None;
            }
            j = j + 1;
        }
        let d = slots[i].duplicate();
        let ghost before = entries@;
        entries.push((name, d));
        proof {
            assert(views_all.take(i + 1) =~= views_all.take(i as int).push(views_all[i as int]));
            assert(entries@ =~= before.push((name, d)));
            assert(views_all[i as int] == slot_view(slots@[i as int]));
            assert(entry_views(entries@) =~= entry_views(before).push((name@, slot_view(d))));
            assert(inferred_entries(views_all.take(i + 1)) =~= inferred_entries(views_all.take(i as int)).push(
                (views_all[i as int].name->0, views_all[i as int])));
            assert(entry_views(entries@) =~= inferred_entries(views_all.take(i + 1)));
        }
        i = i + 1;
    }
    proof {
        assert(views_all.take(i as int) =~= views_all);
    }
    Some(entries)
}

proof fn lemma_items_problem_stable(items: Seq<ParameterItem>, what: Seq<char>, m: int, n: int)
    requires
        0 <= m <= n,
        items_problem(items, what, m) is Some,
    ensures
        items_problem(items, what, n) == items_problem(items, what, m),
    decreases n - m,
{
    if m < n {
        lemma_items_problem_stable(items, what, m, n - 1);
    }
}

/// Check and normalise a parameter list. Items must all be parameters or all be
/// (name, parameter) pairs, every parameter trainable; each slot identity is kept
/// once, where it first appears; an empty list is refused. Pairs register their
/// names, repeats included, in a new store; bare parameters do so under their own
/// names when each has a non-empty name and no two share one.
pub fn collect_parameters(items: Vec<ParameterItem>, what: &str) -> (r: Result<CollectedParameters, CollectError>)
    ensures
        match items_problem(items@, what@, items@.len() as int) {
            Some(m) => r matches Err(CollectError::Type(e)) && e@ == m,
            None => if unique_slots(items@, items@.len() as int).len() == 0 {
                r matches Err(CollectError::Value(e)) && e@ == msg_empty(what@)
            } else {
                match r {
                    Ok(c) => slot_views(c.slots@) == unique_slots(items@, items@.len() as int)
                        && named_result(items@, unique_slots(items@, items@.len() as int), c.named),
                    Err(CollectError::Store(e)) => names_refused(items@, unique_slots(items@, items@.len() as int), error_view(e)),
                    Err(_) => false,
                }
            },
        },
{
    let mut slots: Vec<ParameterSlot> = Vec::new();
    let mut named_entries: Vec<(String, ParameterSlot)> = Vec::new();
    let mut i: usize = 0;
    while i < items.len()
        invariant
            i <= items@.len(),
            items_problem(items@, what@, i as int) is None,
            slot_views(slots@) == unique_slots(items@, i as int),
            entry_views(named_entries@) == pair_entries(items@, i as int),
        decreases items.len() - i,
    {
        let item = &items[i];
        if i > 0 && is_pair_exec(item) != is_pair_exec(&items[0]) {
            proof {
                lemma_items_problem_stable(items@, what@, i + 1, items@.len() as int);
            }
            return Err(CollectError::Type(message(what, " parameters cannot mix Parameter objects and named pairs")));
        }
        match item {
            ParameterItem::Single(p) => {
                match trainable_slot(p, what) {
                    Err(e) => {
                        proof {
                            lemma_items_problem_stable(items@, what@, i + 1, items@.len() as int);
                        }
                        return Err(e);
                    },
                    Ok(()) => {},
                }
                match p {
                    Some(s) => {
                        add_unique(&mut slots, s);
                    },
                    None => {},
                }
            },
            ParameterItem::Pair { len, name, parameter } => {
                if *len != 2 {
                    proof {
                        lemma_items_problem_stable(items@, what@, i + 1, items@.len() as int);
                    }
                    return Err(CollectError::Type(message(what, " named parameters must be (name, Parameter) pairs")));
                }
                let nm = match name {
                    None => {
                        proof {
                            lemma_items_problem_stable(items@, what@, i + 1, items@.len() as int);
                        }
                        return Err(CollectError::Type(message(what, " parameter names must be strings")));
                    },
                    Some(n) => n,
                };
                match trainable_slot(parameter, what) {
                    Err(e) => {
                        proof {
                            lemma_items_problem_stable(items@, what@, i + 1, items@.len() as int);
                        }
                        return Err(e);
                    },
                    Ok(()) => {},
                }
                match parameter {
                    Some(s) => {
                        add_unique(&mut slots, s);
                        let entry = (nm.clone(), s.duplicate());
                        named_entries.push(entry);
                        proof {
                            assert(entry_views(named_entries@) =~= pair_entries(items@, i + 1));
                        }
                    },
                    None => {},
                }
            },
        }
        i = i + 1;
    }
    if slots.len() == 0 {
        return Err(CollectError::Value(message(what, " requires at least one Parameter")));
    }
    let named = if is_pair_exec(&items[0]) {
        match register_all(&named_entries) {
            Ok(st) => Some(st),
            Err(e) => {
                return Err(CollectError::Store(e));
            },
        }
    } else {
        match names_of(&slots) {
            Some(entries) => match register_all(&entries) {
                Ok(st) => Some(st),
                Err(e) => {
                    return Err(CollectError::Store(e));
                },
            },
            None => None,
        }
    };
    Ok(CollectedParameters { slots, named })
}

/// The plain form of the list check: every item must be a parameter, frozen ones
/// included; each slot identity is kept once, where it first appears; an empty
/// list is refused.
pub fn collect_parameter_slots(items: Vec<Option<ParameterSlot>>, what: &str) -> (r: Result<Vec<ParameterSlot>, CollectError>)
    ensures
        match r {
            Ok(slots) => (forall|k: int| 0 <= k < items@.len() ==> (#[trigger] items@[k]) is Some)
                && slot_views(slots@) == unique_slots(singles(items@), items@.len() as int)
                && slots@.len() > 0,
            Err(CollectError::Type(e)) => e@ == msg_not_parameter(what@)
                && exists|k: int| 0 <= k < items@.len() && (#[trigger] items@[k]) is None,
            Err(CollectError::Value(e)) => e@ == msg_empty(what@) && items@.len() == 0,
            Err(CollectError::Store(_)) => false,
        },
{
    let ghost wrapped = singles(items@);
    let mut slots: Vec<ParameterSlot> = Vec::new();
    let mut i: usize = 0;
    while i < items.len()
        invariant
            i <= items@.len(),
            wrapped == singles(items@),
            forall|k: int| 0 <= k < i ==> (#[trigger] items@[k]) is Some,
            slot_views(slots@) == unique_slots(wrapped, i as int),
            i > 0 ==> slots@.len() > 0,
        decreases items.len() - i,
    {
        match &items[i] {
            None => {
                return Err(CollectError::Type(message(what, " parameters must contain only Parameter objects")));
            },
            Some(s) => {
                add_unique(&mut slots, s);
                proof {
                    assert(slot_views(slots@).len() == slots@.len());
                    if slots@.len() == 0 {
                        assert(!has_id(slot_views(slots@), slot_view(*s).id));
                    }
                }
            },
        }
        i = i + 1;
    }
    if slots.len() == 0 {
        return Err(CollectError::Value(message(what, " requires at least one Parameter")));
    }
    Ok(slots)
}

/// The slots kept from a parameter list hold each identity once, and every slot
/// the list holds is among them.
pub proof fn law_collected_slots_once(items: Seq<ParameterItem>, n: int)
    requires
        0 <= n <= items.len(),
    ensures
        forall|i: int, j: int| 0 <= i < j < unique_slots(items, n).len() ==>
            (#[trigger] unique_slots(items, n)[i]).id != (#[trigger] unique_slots(items, n)[j]).id,
        forall|k: int| 0 <= k < n && (#[trigger] item_slot(items[k])) is Some ==>
            has_id(unique_slots(items, n), item_slot(items[k])->0.id),
    decreases n,
{
    if n > 0 {
        law_collected_slots_once(items, n - 1);
        let prev = unique_slots(items, n - 1);
        let cur = unique_slots(items, n);
        assert forall|k: int| 0 <= k < n && (#[trigger] item_slot(items[k])) is Some implies
            has_id(cur, item_slot(items[k])->0.id) by {
            if k < n - 1 {
                let j = choose|j: int| 0 <= j < prev.len() && (#[trigger] prev[j]).id == item_slot(items[k])->0.id;
                assert(cur[j] == prev[j]);
            } else {
                if !has_id(prev, item_slot(items[k])->0.id) {
                    assert(cur[prev.len() as int] == item_slot(items[k])->0);
                }
            }
        }
    }
}

/// Bare items, one for each entry.
pub open spec fn singles(items: Seq<Option<ParameterSlot>>) -> Seq<ParameterItem> {
    items.map_values(|p: Option<ParameterSlot>| ParameterItem::Single(p))
}

} // verus!
