//! The bookkeeping of what a tensor's gradient reaches on the eager autodiff tape:
//! leaf tensors, and parameter slots together with the value generation at which
//! they were read, merged across the operations that combine tensors, and the
//! checks a backward pass makes before it runs.

use vstd::prelude::*;
use crate::parameter::ParamId;
use crate::shape::{checked_product, lemma_checked_product_none};
use crate::text::{decimal, owned, u64_text, usize_list_string, usize_list_text};

verus! {

/// What a tensor's gradient reaches.
#[derive(Debug, Clone, Copy, PartialEq, Eq, Structural)]
pub enum GradTarget {
    /// A leaf tensor, by its identity.
    Leaf(u64),
    /// A parameter slot, the value generation it was read at once an operation used
    /// it, and whether it was read at two different generations in one graph.
    Parameter { id: ParamId, generation: Option<u64>, conflict: bool },
}

/// Whether two targets reach the same leaf or slot.
pub open spec fn same_target(a: GradTarget, b: GradTarget) -> bool {
    match (a, b) {
        (GradTarget::Leaf(x), GradTarget::Leaf(y)) => x == y,
        (GradTarget::Parameter { id: x, .. }, GradTarget::Parameter { id: y, .. }) => x == y,
        _ => false,
    }
}

/// A target as an operation records it: a parameter read keeps the generation it
/// was read at, or takes the slot's current one.
pub open spec fn for_operation(t: GradTarget, current: u64) -> GradTarget {
    match t {
        GradTarget::Parameter { id, generation, conflict } => GradTarget::Parameter {
            id,
            generation: Some(match generation { Some(g) => g, None => current }),
            conflict,
        },
        GradTarget::Leaf(x) => GradTarget::Leaf(x),
    }
}

/// One recorded target merged with another read of the same slot: the generations
/// read must agree, else the target is in conflict.
pub open spec fn merged(existing: GradTarget, incoming: GradTarget, current: u64) -> GradTarget {
    match (existing, incoming) {
        (GradTarget::Parameter { id, generation: left, conflict }, GradTarget::Parameter { generation: right, conflict: other, .. }) => {
            let l = match left { Some(g) => g, None => current };
            let r = match right { Some(g) => g, None => current };
            GradTarget::Parameter { id, generation: Some(l), conflict: conflict || other || l != r }
        },
        _ => existing,
    }
}

/// The first recorded target that reaches the same leaf or slot.
pub open spec fn first_same(ts: Seq<GradTarget>, t: GradTarget, n: int) -> Option<int>
    decreases n,
{
    if n <= 0 {
        None
    } else {
        match first_same(ts, t, n - 1) {
            Some(i) => Some(i),
            None => if same_target(ts[n - 1], t) { Some(n - 1) } else { None },
        }
    }
}

/// The targets of an operation's result after taking in one target of an operand,
/// read when its slot is at generation `current`.
pub open spec fn absorbed(ts: Seq<GradTarget>, t: GradTarget, current: u64) -> Seq<GradTarget> {
    let incoming = for_operation(t, current);
    match first_same(ts, incoming, ts.len() as int) {
        Some(i) => ts.update(i, merged(ts[i], incoming, current)),
        None => ts.push(incoming),
    }
}

proof fn lemma_first_same_stable(ts: Seq<GradTarget>, t: GradTarget, m: int, n: int)
    requires
        1 <= m <= n,
        first_same(ts, t, m) is Some,
    ensures
        first_same(ts, t, n) == first_same(ts, t, m),
    decreases n - m,
{
    if m < n {
        lemma_first_same_stable(ts, t, m, n - 1);
    }
}

/// No two recorded targets reach the same leaf or slot.
pub open spec fn targets_distinct(ts: Seq<GradTarget>) -> bool {
    forall|i: int, j: int| 0 <= i < j < ts.len() ==> !same_target(#[trigger] ts[i], #[trigger] ts[j])
}

proof fn lemma_first_same_none(ts: Seq<GradTarget>, t: GradTarget, n: int)
    requires
        0 <= n <= ts.len(),
        first_same(ts, t, n) is None,
    ensures
        forall|k: int| 0 <= k < n ==> !same_target(#[trigger] ts[k], t),
    decreases n,
{
    if n > 0 {
        lemma_first_same_none(ts, t, n - 1);
    }
}

proof fn lemma_first_same_found(ts: Seq<GradTarget>, t: GradTarget, i: int, n: int)
    requires
        0 <= i < n <= ts.len(),
        same_target(ts[i], t),
        forall|k: int| 0 <= k < i ==> !same_target(#[trigger] ts[k], t),
    ensures
        first_same(ts, t, n) == Some(i),
    decreases n,
{
    if n > i + 1 {
        lemma_first_same_found(ts, t, i, n - 1);
    } else {
        assert(first_same(ts, t, i) is None) by {
            lemma_first_same_absent(ts, t, i);
        }
    }
}

proof fn lemma_first_same_absent(ts: Seq<GradTarget>, t: GradTarget, n: int)
    requires
        0 <= n <= ts.len(),
        forall|k: int| 0 <= k < n ==> !same_target(#[trigger] ts[k], t),
    ensures
        first_same(ts, t, n) is None,
    decreases n,
{
    if n > 0 {
        lemma_first_same_absent(ts, t, n - 1);
    }
}

/// Taking in a target keeps the recorded targets one per leaf or slot, and leaves
/// one of them reaching what was taken in.
pub proof fn law_absorb_keeps_targets_distinct(ts: Seq<GradTarget>, t: GradTarget, current: u64)
    requires
        targets_distinct(ts),
    ensures
        targets_distinct(absorbed(ts, t, current)),
        exists|k: int| 0 <= k < absorbed(ts, t, current).len() && same_target(#[trigger] absorbed(ts, t, current)[k], t),
{
    let incoming = for_operation(t, current);
    let out = absorbed(ts, t, current);
    assert(forall|x: GradTarget| same_target(x, incoming) == same_target(x, t));
    match first_same(ts, incoming, ts.len() as int) {
        Some(i) => {
            lemma_first_same_bounds(ts, incoming, ts.len() as int);
            let m = merged(ts[i], incoming, current);
            assert(forall|x: GradTarget| same_target(m, x) == same_target(ts[i], x));
            assert(forall|x: GradTarget| same_target(x, m) == same_target(x, ts[i]));
            assert forall|a: int, b: int| 0 <= a < b < out.len() implies !same_target(#[trigger] out[a], #[trigger] out[b]) by {
                assert(ts[a] != ts[b] || !same_target(ts[a], ts[b]));
            }
            assert(same_target(out[i], t));
        },
        None => {
            lemma_first_same_none(ts, incoming, ts.len() as int);
            let n = ts.len() as int;
            assert forall|a: int, b: int| 0 <= a < b < out.len() implies !same_target(#[trigger] out[a], #[trigger] out[b]) by {
                if b == n {
                    assert(!same_target(ts[a], incoming));
                }
            }
            assert(same_target(out[n], t));
        },
    }
}

proof fn lemma_first_same_bounds(ts: Seq<GradTarget>, t: GradTarget, n: int)
    requires
        0 <= n <= ts.len(),
        first_same(ts, t, n) is Some,
    ensures
        0 <= first_same(ts, t, n)->0 < n,
        same_target(ts[first_same(ts, t, n)->0], t),
    decreases n,
{
    if n > 0 {
        match first_same(ts, t, n - 1) {
            Some(_) => lemma_first_same_bounds(ts, t, n - 1),
            None => {},
        }
    }
}

/// A slot read at one generation and then at another within one graph is in
/// conflict from then on, so a backward pass through it is refused.
pub proof fn law_two_generations_conflict(ts: Seq<GradTarget>, i: int, t: GradTarget, current: u64)
    requires
        targets_distinct(ts),
        0 <= i < ts.len(),
        ts[i] matches GradTarget::Parameter { generation: Some(_), .. },
        t matches GradTarget::Parameter { generation: Some(_), .. },
        same_target(ts[i], t),
        ts[i]->generation != t->generation,
    ensures
        absorbed(ts, t, current).len() == ts.len(),
        absorbed(ts, t, current)[i] matches GradTarget::Parameter { conflict: true, .. },
        forall|name: Option<String>, g: u64|
            target_problem(TargetCheck { target: #[trigger] absorbed(ts, t, current)[i], current_generation: g, name }) is Some,
{
    let incoming = for_operation(t, current);
    assert forall|k: int| 0 <= k < i implies !same_target(#[trigger] ts[k], incoming) by {
        assert(!same_target(ts[k], ts[i]));
    }
    lemma_first_same_found(ts, incoming, i, ts.len() as int);
}

fn same_target_exec(a: &GradTarget, b: &GradTarget) -> (r: bool)
    ensures
        r == same_target(*a, *b),
{
    match (a, b) {
        (GradTarget::Leaf(x), GradTarget::Leaf(y)) => *x == *y,
        (GradTarget::Parameter { id: x, .. }, GradTarget::Parameter { id: y, .. }) => x.0 == y.0,
        _ => false,
    }
}

/// Take one target of an operand into the targets of an operation's result: a
/// slot or leaf already recorded is merged, anything else is appended.
pub fn absorb_target(targets: &mut Vec<GradTarget>, target: GradTarget, current: u64)
    ensures
        final(targets)@ == absorbed(old(targets)@, target, current),
{
    let incoming = match target {
        GradTarget::Parameter { id, generation, conflict } => GradTarget::Parameter {
            id,
            generation: Some(match generation { Some(g) => g, None => current }),
            conflict,
        },
        GradTarget::Leaf(x) => GradTarget::Leaf(x),
    };
    let mut i: usize = 0;
    while i < targets.len()
        invariant
            i <= targets@.len(),
            targets@ == old(targets)@,
            incoming == for_operation(target, current),
            first_same(targets@, incoming, i as int) is None,
        decreases targets.len() - i,
    {
        if same_target_exec(&targets[i], &incoming) {
            proof {
                lemma_first_same_stable(targets@, incoming, i as int + 1, targets@.len() as int);
            }
            let existing = targets[i];
            let next = match (existing, incoming) {
                (GradTarget::Parameter { id, generation: left, conflict }, GradTarget::Parameter { generation: right, conflict: other, .. }) => {
                    let l = match left { Some(g) => g, None => current };
                    let r = match right { Some(g) => g, None => current };
                    GradTarget::Parameter { id, generation: Some(l), conflict: conflict || other || l != r }
                },
                _ => existing,
            };
            targets.set(i, next);
            return;
        }
        i = i + 1;
    }
    targets.push(incoming);
}

/// A target to check before backward, with the current value generation and the
/// name of its slot (unused for a leaf).
#[derive(Debug, Clone)]
pub struct TargetCheck {
    pub target: GradTarget,
    pub current_generation: u64,
    pub name: Option<String>,
}

/// How messages name a slot: its name, or its identity after `#`.
pub open spec fn slot_label(name: Option<String>, id: ParamId) -> Seq<char> {
    match name {
        Some(n) => n@,
        None => "#"@ + decimal(id.0 as nat),
    }
}

/// The complaint about a target that a backward pass may not reach, if any.
pub open spec fn target_problem(c: TargetCheck) -> Option<Seq<char>> {
    match c.target {
        GradTarget::Parameter { id, generation, conflict } => if conflict {
            Some("parameter "@ + slot_label(c.name, id)
                + " was used at multiple value generations in one graph; rebuild the graph before backward()"@)
        } else if generation is Some && generation->0 != c.current_generation {
            Some("parameter "@ + slot_label(c.name, id) + " was modified after the forward pass; rebuild the graph before backward()"@)
        } else {
            None
        },
        GradTarget::Leaf(_) => None,
    }
}

/// The first complaint about the targets before `n`.
pub open spec fn targets_problem(cs: Seq<TargetCheck>, n: int) -> Option<Seq<char>>
    decreases n,
{
    if n <= 0 {
        None
    } else {
        match targets_problem(cs, n - 1) {
            Some(m) => Some(m),
            None => target_problem(cs[n - 1]),
        }
    }
}

proof fn lemma_targets_problem_stable(cs: Seq<TargetCheck>, m: int, n: int)
    requires
        0 <= m <= n,
        targets_problem(cs, m) is Some,
    ensures
        targets_problem(cs, n) == targets_problem(cs, m),
    decreases n - m,
{
    if m < n {
        lemma_targets_problem_stable(cs, m, n - 1);
    }
}

fn label_text(name: &Option<String>, id: ParamId) -> (r: String)
    ensures
        r@ == slot_label(*name, id),
{
    match name {
        Some(n) => owned(n.as_str()),
        None => {
            let mut s = owned("#");
            s.append(u64_text(id.0).as_str());
            s
        },
    }
}

/// Check one target before backward: a slot read at two generations in one graph,
/// or changed since the graph read it, cannot take a gradient.
pub fn check_target(c: &TargetCheck) -> (r: Result<(), String>)
    ensures
        match target_problem(*c) {
            None => r is Ok,
            Some(m) => r matches Err(e) && e@ == m,
        },
{
    match c.target {
        GradTarget::Parameter { id, generation, conflict } => {
            if conflict {
                let mut m = owned("parameter ");
                m.append(label_text(&c.name, id).as_str());
                m.append(" was used at multiple value generations in one graph; rebuild the graph before backward()");
                return Err(m);
            }
            match generation {
                Some(g) => {
                    if g != c.current_generation {
                        let mut m = owned("parameter ");
                        m.append(label_text(&c.name, id).as_str());
                        m.append(" was modified after the forward pass; rebuild the graph before backward()");
                        return Err(m);
                    }
                },
                None => {},
            }
            Ok(())
        },
        GradTarget::Leaf(_) => Ok(()),
    }
}

/// What the checks before a backward pass answer: without an explicit gradient the
/// output must hold one element; the output must be attached to an autodiff graph
/// that no earlier backward freed; every target must be reachable; an explicit
/// gradient must have the output's shape.
pub open spec fn backward_check_spec(
    dims: Seq<usize>,
    gradient_dims: Option<Seq<usize>>,
    requires_grad: bool,
    consumed: bool,
    targets: Seq<TargetCheck>,
) -> Result<(), Seq<char>> {
    if gradient_dims is None && checked_product(dims, dims.len() as int) != Some(1int) {
        Err("backward() without an explicit gradient requires a one-element tensor, got shape "@ + usize_list_text(dims))
    } else if !requires_grad {
        Err("backward() requires a tensor attached to an autodiff graph"@)
    } else if consumed {
        Err("backward() graph was already freed by a previous backward() call"@)
    } else if targets_problem(targets, targets.len() as int) is Some {
        Err(targets_problem(targets, targets.len() as int)->0)
    } else {
        match gradient_dims {
            Some(g) => if g != dims {
                Err("backward() gradient shape "@ + usize_list_text(g) + " does not match output shape "@ + usize_list_text(dims))
            } else {
                Ok(())
            },
            None => Ok(()),
        }
    }
}

fn holds_one_element(dims: &[usize]) -> (r: bool)
    ensures
        r == (checked_product(dims@, dims@.len() as int) == Some(1int)),
{
    let mut count: usize = 1;
    let mut k: usize = 0;
    while k < dims.len()
        invariant
            k <= dims@.len(),
            checked_product(dims@, k as int) == Some(count as int),
        decreases dims.len() - k,
    {
        match count.checked_mul(dims[k]) {
            None => {
                proof {
                    lemma_checked_product_none(dims@, k + 1, dims@.len() as int);
                }
                return false;
            },
            Some(p) => {
                count = p;
            },
        }
        k = k + 1;
    }
    count == 1
}

fn sizes_equal(a: &[usize], b: &[usize]) -> (r: bool)
    ensures
        r == (a@ == b@),
{
    if a.len() != b.len() {
        return false;
    }
    let mut i: usize = 0;
    while i < a.len()
        invariant
            i <= a@.len(),
            a@.len() == b@.len(),
            forall|k: int| 0 <= k < i ==> a@[k] == b@[k],
        decreases a.len() - i,
    {
        if a[i] != b[i] {
            return false;
        }
        i = i + 1;
    }
    assert(a@ =~= b@);
    true
}

/// Run the checks a backward pass makes before it starts.
pub fn check_backward(
    dims: &[usize],
    gradient_dims: Option<&[usize]>,
    requires_grad: bool,
    consumed: bool,
    targets: &[TargetCheck],
) -> (r: Result<(), String>)
    ensures
        ({
            let gd = match gradient_dims { Some(g) => Some(g@), None => None };
            match backward_check_spec(dims@, gd, requires_grad, consumed, targets@) {
                Ok(()) => r is Ok,
                Err(m) => r matches Err(e) && e@ == m,
            }
        }),
{
    if gradient_dims.is_none() && !holds_one_element(dims) {
        let mut m = owned("backward() without an explicit gradient requires a one-element tensor, got shape ");
        m.append(usize_list_string(dims).as_str());
        return Err(m);
    }
    if !requires_grad {
        return Err(owned("backward() requires a tensor attached to an autodiff graph"));
    }
    if consumed {
        return Err(owned("backward() graph was already freed by a previous backward() call"));
    }
    let mut i: usize = 0;
    while i < targets.len()
        invariant
            i <= targets@.len(),
            targets_problem(targets@, i as int) is None,
            requires_grad,
            !consumed,
            gradient_dims is None ==> checked_product(dims@, dims@.len() as int) == Some(1int),
        decreases targets.len() - i,
    {
        match check_target(&targets[i]) {
            Err(e) => {
                proof {
                    lemma_targets_problem_stable(targets@, i as int + 1, targets@.len() as int);
                }
                return Err(e);
            },
            Ok(()) => {},
        }
        i = i + 1;
    }
    match gradient_dims {
        Some(g) => {
            if !sizes_equal(g, dims) {
                let mut m = owned("backward() gradient shape ");
                m.append(usize_list_string(g).as_str());
                m.append(" does not match output shape ");
                m.append(usize_list_string(dims).as_str());
                return Err(m);
            }
            Ok(())
        },
        None => Ok(()),
    }
}

} // verus!
