//! Normalisation of shape, axis and index arguments for eager tensor
//! operations: every rule that decides an output shape or rejects an argument.

use vstd::prelude::*;
use crate::text::{decimal, int_text, isize_text, owned, usize_list_string, usize_list_text, usize_text};

verus! {

/// The largest tensor rank the runtime supports.
pub const MAX_RANK: usize = 6;

/// The class of a rejected argument, as the scripting layer raises it.
#[derive(Debug, Clone, Copy, PartialEq, Eq, Structural)]
pub enum ArgErrorKind {
    /// An argument of the right type with an unacceptable value.
    Value,
    /// An argument of the wrong type.
    Type,
    /// An index outside its dimension.
    Index,
}

/// A rejected argument: its class and message.
#[derive(Debug, Clone)]
pub struct ArgumentError {
    pub kind: ArgErrorKind,
    pub message: String,
}

/// Class and message of a rejected argument.
pub open spec fn arg_error_view(e: ArgumentError) -> (ArgErrorKind, Seq<char>) {
    (e.kind, e.message@)
}

/// The plain outcome of an argument check that yields a list.
pub open spec fn list_outcome<T>(r: Result<Vec<T>, ArgumentError>) -> Result<Seq<T>, (ArgErrorKind, Seq<char>)> {
    match r {
        Ok(v) => Ok(v@),
        Err(e) => Err(arg_error_view(e)),
    }
}

pub open spec fn value_err<T>(m: Seq<char>) -> Result<T, (ArgErrorKind, Seq<char>)> {
    Err((ArgErrorKind::Value, m))
}

fn value_error(m: String) -> (e: ArgumentError)
    ensures
        arg_error_view(e) == (ArgErrorKind::Value, m@),
{
    ArgumentError { kind: ArgErrorKind::Value, message: m }
}

fn index_error(m: String) -> (e: ArgumentError)
    ensures
        arg_error_view(e) == (ArgErrorKind::Index, m@),
{
    ArgumentError { kind: ArgErrorKind::Index, message: m }
}

fn type_error(m: String) -> (e: ArgumentError)
    ensures
        arg_error_view(e) == (ArgErrorKind::Type, m@),
{
    ArgumentError { kind: ArgErrorKind::Type, message: m }
}

pub open spec fn msg_rank_limit(op: Seq<char>, n: int) -> Seq<char> {
    op + " rank "@ + decimal(n as nat) + " exceeds the maximum rank 6"@
}

fn text_rank_limit(op: &str, n: usize) -> (r: String)
    ensures
        r@ == msg_rank_limit(op@, n as int),
{
    let mut s = owned(op);
    s.append(" rank ");
    s.append(usize_text(n).as_str());
    s.append(" exceeds the maximum rank 6");
    s
}

// ---------------------------------------------------------------------------
// reshape
// ---------------------------------------------------------------------------

/// The requested dimensions with `-1` read as one.
pub open spec fn known_dims(req: Seq<isize>) -> Seq<usize> {
    req.map_values(|d: isize| if d == -1 { 1usize } else { d as usize })
}

/// Scan of the requested dimensions before `n`: the position of the inferred
/// dimension and the product of the given ones, or the first complaint.
pub open spec fn reshape_scan(req: Seq<isize>, n: int) -> Result<(Option<int>, int), Seq<char>>
    decreases n,
{
    if n <= 0 {
        Ok((None, 1))
    } else {
        match reshape_scan(req, n - 1) {
            Err(e) => Err(e),
            Ok((inferred, p)) => {
                let d = req[n - 1];
                if d == -1 {
                    if inferred is Some {
                        Err("reshape can infer at most one dimension with -1"@)
                    } else {
                        Ok((Some(n - 1), p))
                    }
                } else if d <= 0 {
                    Err("reshape dimensions must be positive or -1, got "@ + int_text(d as int))
                } else if p * d > usize::MAX {
                    Err("reshape dimension product exceeds platform limits"@)
                } else {
                    Ok((inferred, p * d))
                }
            },
        }
    }
}

proof fn lemma_reshape_scan_err(req: Seq<isize>, n: int, m: int)
    requires
        0 <= n <= m,
        reshape_scan(req, n) is Err,
    ensures
        reshape_scan(req, m) == reshape_scan(req, n),
    decreases m - n,
{
    if m > n {
        lemma_reshape_scan_err(req, n, m - 1);
    }
}

pub open spec fn msg_size_mismatch(numel: int, shape: Seq<usize>) -> Seq<char> {
    "cannot reshape a tensor with "@ + decimal(numel as nat) + " elements to shape "@ + usize_list_text(shape)
}

/// The shape a reshape request resolves to for a tensor of `numel` elements.
pub open spec fn reshape_spec(req: Seq<isize>, numel: int) -> Result<Seq<usize>, (ArgErrorKind, Seq<char>)> {
    if req.len() == 0 {
        value_err("reshape requires at least one dimension because rank-zero tensors are not supported"@)
    } else if req.len() > 6 {
        value_err(msg_rank_limit("reshape"@, req.len() as int))
    } else {
        match reshape_scan(req, req.len() as int) {
            Err(e) => value_err(e),
            Ok((inferred, p)) => match inferred {
                Some(i) => if p == 0 || numel % p != 0 {
                    value_err(msg_size_mismatch(numel, known_dims(req)))
                } else {
                    Ok(known_dims(req).update(i, (numel / p) as usize))
                },
                None => if p != numel {
                    value_err(msg_size_mismatch(numel, known_dims(req)))
                } else {
                    Ok(known_dims(req))
                },
            },
        }
    }
}

pub open spec fn opt_index(o: Option<usize>) -> Option<int> {
    match o {
        Some(i) => Some(i as int),
        None => None,
    }
}

fn size_mismatch(numel: usize, shape: &Vec<usize>) -> (e: ArgumentError)
    ensures
        arg_error_view(e) == (ArgErrorKind::Value, msg_size_mismatch(numel as int, shape@)),
{
    let mut s = owned("cannot reshape a tensor with ");
    s.append(usize_text(numel).as_str());
    s.append(" elements to shape ");
    s.append(usize_list_string(shape.as_slice()).as_str());
    value_error(s)
}

/// Resolve a reshape request for a tensor of `numel` elements: at most one `-1`
/// is inferred, every other dimension is positive, and the element count is kept.
pub fn reshape(requested: &[isize], numel: usize) -> (r: Result<Vec<usize>, ArgumentError>)
    ensures
        list_outcome(r) == reshape_spec(requested@, numel as int),
{
    let ghost req = requested@;
    if requested.len() == 0 {
        return Err(value_error(owned(
            "reshape requires at least one dimension because rank-zero tensors are not supported",
        )));
    }
    if requested.len() > MAX_RANK {
        return Err(value_error(text_rank_limit("reshape", requested.len())));
    }
    let mut inferred: Option<usize> = None;
    let mut known: usize = 1;
    let mut output: Vec<usize> = Vec::new();
    let mut i: usize = 0;
    while i < requested.len()
        invariant
            i <= requested.len(),
            0 < requested.len() <= MAX_RANK,
            req == requested@,
            reshape_scan(req, i as int) == Ok::<(Option<int>, int), Seq<char>>((opt_index(inferred), known as int)),
            output@ == known_dims(req).take(i as int),
            inferred matches Some(x) ==> x < i,
        decreases requested.len() - i,
    {
        let dim = requested[i];
        proof {
            if reshape_scan(req, i + 1) is Err {
                lemma_reshape_scan_err(req, i + 1, req.len() as int);
            }
        }
        if dim == -1 {
            if inferred.is_some() {
                return Err(value_error(owned("reshape can infer at most one dimension with -1")));
            }
            inferred = Some(i);
            output.push(1);
        } else if dim <= 0 {
            let mut m = owned("reshape dimensions must be positive or -1, got ");
            m.append(isize_text(dim).as_str());
            return Err(value_error(m));
        } else {
            let d = dim as usize;
            match known.checked_mul(d) {
                None => {
                    return Err(value_error(owned("reshape dimension product exceeds platform limits")));
                },
                Some(p) => {
                    known = p;
                },
            }
            output.push(d);
        }
        assert(output@ =~= known_dims(req).take(i + 1));
        i = i + 1;
    }
    assert(known_dims(req).take(requested.len() as int) =~= known_dims(req));
    match inferred {
        Some(index) => {
            if known == 0 || numel % known != 0 {
                return Err(size_mismatch(numel, &output));
            }
            output.set(index, numel / known);
            Ok(output)
        },
        None => {
            if known != numel {
                return Err(size_mismatch(numel, &output));
            }
            Ok(output)
        },
    }
}


// ---------------------------------------------------------------------------
// expand and repeat
// ---------------------------------------------------------------------------

/// The expanded shape of the axes before `n`, or the complaint about the first bad one.
pub open spec fn expand_scan(req: Seq<isize>, input: Seq<usize>, n: int) -> Result<Seq<usize>, Seq<char>>
    decreases n,
{
    if n <= 0 {
        Ok(Seq::empty())
    } else {
        match expand_scan(req, input, n - 1) {
            Err(e) => Err(e),
            Ok(out) => {
                let axis = n - 1;
                let lead = req.len() - input.len();
                let leading = axis < lead;
                let actual: int = if leading { 1 } else { input[axis - lead] as int };
                let r = req[axis];
                if r == -1 {
                    if leading {
                        Err("expand cannot use -1 for a new leading dimension"@)
                    } else {
                        Ok(out.push(actual as usize))
                    }
                } else if r < 0 {
                    Err("expand dimensions must be non-negative or -1, got "@ + int_text(r as int))
                } else if actual != 1 && actual != r {
                    Err("cannot expand dimension of size "@ + decimal(actual as nat) + " to "@ + decimal(r as nat))
                } else {
                    Ok(out.push(r as usize))
                }
            },
        }
    }
}

proof fn lemma_expand_scan_err(req: Seq<isize>, input: Seq<usize>, n: int, m: int)
    requires
        0 <= n <= m,
        expand_scan(req, input, n) is Err,
    ensures
        expand_scan(req, input, m) == expand_scan(req, input, n),
    decreases m - n,
{
    if m > n {
        lemma_expand_scan_err(req, input, n, m - 1);
    }
}

/// The shape an expand request broadcasts an input of shape `input` to.
pub open spec fn expand_spec(req: Seq<isize>, input: Seq<usize>) -> Result<Seq<usize>, (ArgErrorKind, Seq<char>)> {
    if req.len() < input.len() {
        value_err("expand shape has rank "@ + decimal(req.len()) + ", but input rank is "@ + decimal(input.len()))
    } else if req.len() > 6 {
        value_err(msg_rank_limit("expand"@, req.len() as int))
    } else {
        match expand_scan(req, input, req.len() as int) {
            Err(e) => value_err(e),
            Ok(out) => Ok(out),
        }
    }
}

/// Resolve an expand request: new leading axes take the requested size, existing
/// axes keep their size (`-1`) or grow from one.
pub fn expand(requested: &[isize], input: &[usize]) -> (r: Result<Vec<usize>, ArgumentError>)
    ensures
        list_outcome(r) == expand_spec(requested@, input@),
{
    let ghost req = requested@;
    if requested.len() < input.len() {
        let mut m = owned("expand shape has rank ");
        m.append(usize_text(requested.len()).as_str());
        m.append(", but input rank is ");
        m.append(usize_text(input.len()).as_str());
        return Err(value_error(m));
    }
    if requested.len() > MAX_RANK {
        return Err(value_error(text_rank_limit("expand", requested.len())));
    }
    let lead = requested.len() - input.len();
    let mut output: Vec<usize> = Vec::new();
    let mut axis: usize = 0;
    while axis < requested.len()
        invariant
            axis <= requested.len(),
            input.len() <= requested.len() <= MAX_RANK,
            lead == requested.len() - input.len(),
            req == requested@,
            expand_scan(req, input@, axis as int) == Ok::<Seq<usize>, Seq<char>>(output@),
        decreases requested.len() - axis,
    {
        proof {
            if expand_scan(req, input@, axis + 1) is Err {
                lemma_expand_scan_err(req, input@, axis + 1, req.len() as int);
            }
        }
        let leading = axis < lead;
        let actual: usize = if leading { 1 } else { input[axis - lead] };
        let want = requested[axis];
        if want == -1 {
            if leading {
                return Err(value_error(owned("expand cannot use -1 for a new leading dimension")));
            }
            output.push(actual);
        } else if want < 0 {
            let mut m = owned("expand dimensions must be non-negative or -1, got ");
            m.append(isize_text(want).as_str());
            return Err(value_error(m));
        } else {
            let w = want as usize;
            if actual != 1 && actual != w {
                let mut m = owned("cannot expand dimension of size ");
                m.append(usize_text(actual).as_str());
                m.append(" to ");
                m.append(usize_text(w).as_str());
                return Err(value_error(m));
            }
            output.push(w);
        }
        axis = axis + 1;
    }
    Ok(output)
}

/// Repeat counts before `n`, or the complaint about the first negative one.
pub open spec fn repeat_scan(req: Seq<isize>, n: int) -> Result<Seq<usize>, Seq<char>>
    decreases n,
{
    if n <= 0 {
        Ok(Seq::empty())
    } else {
        match repeat_scan(req, n - 1) {
            Err(e) => Err(e),
            Ok(out) => if req[n - 1] < 0 {
                Err("repeat counts must be non-negative integers, got "@ + int_text(req[n - 1] as int))
            } else {
                Ok(out.push(req[n - 1] as usize))
            },
        }
    }
}

proof fn lemma_repeat_scan_err(req: Seq<isize>, n: int, m: int)
    requires
        0 <= n <= m,
        repeat_scan(req, n) is Err,
    ensures
        repeat_scan(req, m) == repeat_scan(req, n),
    decreases m - n,
{
    if m > n {
        lemma_repeat_scan_err(req, n, m - 1);
    }
}

pub open spec fn repeat_spec(req: Seq<isize>, rank: int) -> Result<Seq<usize>, (ArgErrorKind, Seq<char>)> {
    if req.len() < rank {
        value_err("repeat has "@ + decimal(req.len()) + " counts for tensor rank "@ + decimal(rank as nat))
    } else if req.len() > 6 {
        value_err(msg_rank_limit("repeat"@, req.len() as int))
    } else {
        match repeat_scan(req, req.len() as int) {
            Err(e) => value_err(e),
            Ok(out) => Ok(out),
        }
    }
}

/// Check repeat counts against a tensor rank.
pub fn repeat(requested: &[isize], rank: usize) -> (r: Result<Vec<usize>, ArgumentError>)
    ensures
        list_outcome(r) == repeat_spec(requested@, rank as int),
{
    let ghost req = requested@;
    if requested.len() < rank {
        let mut m = owned("repeat has ");
        m.append(usize_text(requested.len()).as_str());
        m.append(" counts for tensor rank ");
        m.append(usize_text(rank).as_str());
        return Err(value_error(m));
    }
    if requested.len() > MAX_RANK {
        return Err(value_error(text_rank_limit("repeat", requested.len())));
    }
    let mut output: Vec<usize> = Vec::new();
    let mut i: usize = 0;
    while i < requested.len()
        invariant
            i <= requested.len(),
            rank <= requested.len() <= MAX_RANK,
            req == requested@,
            repeat_scan(req, i as int) == Ok::<Seq<usize>, Seq<char>>(output@),
        decreases requested.len() - i,
    {
        proof {
            if repeat_scan(req, i + 1) is Err {
                lemma_repeat_scan_err(req, i + 1, req.len() as int);
            }
        }
        let c = requested[i];
        if c < 0 {
            let mut m = owned("repeat counts must be non-negative integers, got ");
            m.append(isize_text(c).as_str());
            return Err(value_error(m));
        }
        output.push(c as usize);
        i = i + 1;
    }
    Ok(output)
}

// ---------------------------------------------------------------------------
// axes
// ---------------------------------------------------------------------------

/// Axes before `n`, each wrapped from the end when negative, checked against the
/// rank and for repeats; `label` names the argument in complaints.
pub open spec fn axes_scan(raw: Seq<isize>, rank: int, label: Seq<char>, n: int) -> Result<Seq<usize>, Seq<char>>
    decreases n,
{
    if n <= 0 {
        Ok(Seq::empty())
    } else {
        match axes_scan(raw, rank, label, n - 1) {
            Err(e) => Err(e),
            Ok(out) => {
                let d = raw[n - 1] as int;
                let axis = if d < 0 { rank + d } else { d };
                if !(0 <= axis < rank) {
                    Err(label + " "@ + int_text(d) + " is out of range for tensor rank "@ + decimal(rank as nat))
                } else if out.contains(axis as usize) {
                    Err(label + " "@ + decimal(axis as nat) + " appears more than once"@)
                } else {
                    Ok(out.push(axis as usize))
                }
            },
        }
    }
}

proof fn lemma_axes_scan_err(raw: Seq<isize>, rank: int, label: Seq<char>, n: int, m: int)
    requires
        0 <= n <= m,
        axes_scan(raw, rank, label, n) is Err,
    ensures
        axes_scan(raw, rank, label, m) == axes_scan(raw, rank, label, n),
    decreases m - n,
{
    if m > n {
        lemma_axes_scan_err(raw, rank, label, n, m - 1);
    }
}

fn contains_usize(v: &Vec<usize>, x: usize) -> (r: bool)
    ensures
        r == v@.contains(x),
{
    let mut i: usize = 0;
    while i < v.len()
        invariant
            i <= v.len(),
            forall|k: int| 0 <= k < i ==> v@[k] != x,
        decreases v.len() - i,
    {
        if v[i] == x {
            return true;
        }
        i = i + 1;
    }
    false
}

/// Normalise axes against a rank: negative axes count from the end, every axis
/// must lie inside the rank and appear once.
pub fn normalize_axes(raw: &[isize], rank: usize, label: &str) -> (r: Result<Vec<usize>, ArgumentError>)
    requires
        rank <= isize::MAX,
    ensures
        list_outcome(r) == match axes_scan(raw@, rank as int, label@, raw@.len() as int) {
            Err(e) => value_err::<Seq<usize>>(e),
            Ok(out) => Ok(out),
        },
{
    let ghost rw = raw@;
    let rank_signed = rank as isize;
    let mut out: Vec<usize> = Vec::new();
    let mut i: usize = 0;
    while i < raw.len()
        invariant
            i <= raw.len(),
            rank <= isize::MAX,
            rank_signed == rank,
            rw == raw@,
            axes_scan(rw, rank as int, label@, i as int) == Ok::<Seq<usize>, Seq<char>>(out@),
        decreases raw.len() - i,
    {
        proof {
            if axes_scan(rw, rank as int, label@, i + 1) is Err {
                lemma_axes_scan_err(rw, rank as int, label@, i + 1, rw.len() as int);
            }
        }
        let d = raw[i];
        let axis: isize = if d < 0 { rank_signed + d } else { d };
        if !(0 <= axis && axis < rank_signed) {
            let mut m = owned(label);
            m.append(" ");
            m.append(isize_text(d).as_str());
            m.append(" is out of range for tensor rank ");
            m.append(usize_text(rank).as_str());
            return Err(value_error(m));
        }
        let a = axis as usize;
        if contains_usize(&out, a) {
            let mut m = owned(label);
            m.append(" ");
            m.append(usize_text(a).as_str());
            m.append(" appears more than once");
            return Err(value_error(m));
        }
        out.push(a);
        i = i + 1;
    }
    Ok(out)
}

/// Normalise dimensions that must each appear once, for the named operation.
pub fn normalize_unique(raw: &[isize], rank: usize, operation: &str) -> (r: Result<Vec<usize>, ArgumentError>)
    requires
        rank <= isize::MAX,
    ensures
        list_outcome(r) == match axes_scan(raw@, rank as int, operation@ + " dimension"@, raw@.len() as int) {
            Err(e) => value_err::<Seq<usize>>(e),
            Ok(out) => Ok(out),
        },
{
    let mut label = owned(operation);
    label.append(" dimension");
    normalize_axes(raw, rank, label.as_str())
}

/// A permutation of every axis of a tensor of the given rank.
pub fn permutation(requested: &[isize], rank: usize) -> (r: Result<Vec<usize>, ArgumentError>)
    requires
        rank <= isize::MAX,
    ensures
        list_outcome(r) == if requested@.len() != rank {
            value_err::<Seq<usize>>("permutation has "@ + decimal(requested@.len()) + " dimensions for tensor rank "@ + decimal(rank as nat))
        } else {
            match axes_scan(requested@, rank as int, "permutation"@ + " dimension"@, requested@.len() as int) {
                Err(e) => value_err::<Seq<usize>>(e),
                Ok(out) => Ok(out),
            }
        },
{
    if requested.len() != rank {
        let mut m = owned("permutation has ");
        m.append(usize_text(requested.len()).as_str());
        m.append(" dimensions for tensor rank ");
        m.append(usize_text(rank).as_str());
        return Err(value_error(m));
    }
    normalize_unique(requested, rank, "permutation")
}

/// The axis a signed dimension names: counted from the end when negative; an
/// insertion point may also name the position after the last axis.
pub open spec fn axis_spec(raw: int, rank: int, insertion: bool, operation: Seq<char>) -> Result<usize, (ArgErrorKind, Seq<char>)> {
    let upper = if insertion { rank + 1 } else { rank };
    let normalized = if raw < 0 { upper + raw } else { raw };
    if !(0 <= normalized < upper) {
        value_err(operation + " dimension "@ + int_text(raw) + " is out of range for tensor rank "@ + decimal(rank as nat))
    } else {
        Ok(normalized as usize)
    }
}

/// Normalise one signed dimension against a tensor rank.
pub fn axis_value(raw: isize, rank: usize, insertion: bool, operation: &str) -> (r: Result<usize, ArgumentError>)
    requires
        rank < isize::MAX,
    ensures
        match r {
            Ok(a) => axis_spec(raw as int, rank as int, insertion, operation@) == Ok::<usize, (ArgErrorKind, Seq<char>)>(a),
            Err(e) => axis_spec(raw as int, rank as int, insertion, operation@) == Err::<usize, (ArgErrorKind, Seq<char>)>(arg_error_view(e)),
        },
{
    let upper: usize = if insertion { rank + 1 } else { rank };
    let upper_signed = upper as isize;
    let normalized: isize = if raw < 0 { upper_signed + raw } else { raw };
    if !(0 <= normalized && normalized < upper_signed) {
        let mut m = owned(operation);
        m.append(" dimension ");
        m.append(isize_text(raw).as_str());
        m.append(" is out of range for tensor rank ");
        m.append(usize_text(rank).as_str());
        return Err(value_error(m));
    }
    Ok(normalized as usize)
}

// ---------------------------------------------------------------------------
// flatten, squeeze, unsqueeze
// ---------------------------------------------------------------------------

/// The product of the sizes before `n`, or nothing once a partial product leaves `usize`.
pub open spec fn checked_product(s: Seq<usize>, n: int) -> Option<int>
    decreases n,
{
    if n <= 0 {
        Some(1)
    } else {
        match checked_product(s, n - 1) {
            None => None,
            Some(p) => if p * s[n - 1] > usize::MAX {
                None
            } else {
                Some(p * s[n - 1])
            },
        }
    }
}

pub proof fn lemma_checked_product_none(s: Seq<usize>, n: int, m: int)
    requires
        0 <= n <= m,
        checked_product(s, n) is None,
    ensures
        checked_product(s, m) is None,
    decreases m - n,
{
    if m > n {
        lemma_checked_product_none(s, n, m - 1);
    }
}

pub open spec fn flatten_spec(input: Seq<usize>, start: int, end: int) -> Result<Seq<usize>, (ArgErrorKind, Seq<char>)> {
    if start > end {
        value_err("flatten start_dim "@ + decimal(start as nat) + " cannot come after end_dim "@ + decimal(end as nat))
    } else {
        match checked_product(input.subrange(start, end + 1), end + 1 - start) {
            None => value_err("flatten dimension product exceeds platform limits"@),
            Some(p) => Ok(input.take(start).push(p as usize) + input.skip(end + 1)),
        }
    }
}

/// Merge the axes `start..=end` into one.
pub fn flatten(input: &[usize], start: usize, end: usize) -> (r: Result<Vec<usize>, ArgumentError>)
    requires
        end < input@.len(),
    ensures
        list_outcome(r) == flatten_spec(input@, start as int, end as int),
{
    if start > end {
        let mut m = owned("flatten start_dim ");
        m.append(usize_text(start).as_str());
        m.append(" cannot come after end_dim ");
        m.append(usize_text(end).as_str());
        return Err(value_error(m));
    }
    let ghost span = input@.subrange(start as int, end + 1);
    let mut product: usize = 1;
    let mut k: usize = start;
    while k <= end
        invariant
            start <= k <= end + 1,
            end < input@.len(),
            span == input@.subrange(start as int, end + 1),
            checked_product(span, k - start) == Some(product as int),
        decreases end + 1 - k,
    {
        assert(span[k - start] == input@[k as int]);
        match product.checked_mul(input[k]) {
            None => {
                proof {
                    lemma_checked_product_none(span, k - start + 1, end + 1 - start);
                }
                return Err(value_error(owned("flatten dimension product exceeds platform limits")));
            },
            Some(p) => {
                product = p;
            },
        }
        k = k + 1;
    }
    let mut out: Vec<usize> = Vec::new();
    let mut i: usize = 0;
    while i < start
        invariant
            i <= start <= end < input@.len(),
            out@ == input@.take(i as int),
        decreases start - i,
    {
        out.push(input[i]);
        assert(out@ =~= input@.take(i + 1));
        i = i + 1;
    }
    out.push(product);
    let ghost head = out@;
    let mut j: usize = end + 1;
    while j < input.len()
        invariant
            end + 1 <= j <= input@.len(),
            out@ == head + input@.subrange(end + 1, j as int),
        decreases input.len() - j,
    {
        out.push(input[j]);
        assert(out@ =~= head + input@.subrange(end + 1, j + 1));
        j = j + 1;
    }
    assert(input@.subrange(end + 1, input@.len() as int) =~= input@.skip(end + 1));
    Ok(out)
}

/// The sizes before `n` that squeezing keeps: those not equal to one, or not on the chosen axis.
pub open spec fn squeeze_keep(input: Seq<usize>, dim: Option<usize>, n: int) -> Seq<usize>
    decreases n,
{
    if n <= 0 {
        Seq::empty()
    } else {
        let axis = n - 1;
        let remove = input[axis] == 1 && match dim {
            None => true,
            Some(d) => d == axis,
        };
        if remove {
            squeeze_keep(input, dim, n - 1)
        } else {
            squeeze_keep(input, dim, n - 1).push(input[axis])
        }
    }
}

pub open spec fn squeeze_spec(input: Seq<usize>, dim: Option<usize>) -> Seq<usize> {
    let kept = squeeze_keep(input, dim, input.len() as int);
    if kept.len() == 0 {
        seq![1usize]
    } else {
        kept
    }
}

/// Drop size-one axes (all of them, or only the chosen one); a result without
/// axes becomes `[1]`.
pub fn squeeze(input: &[usize], dim: Option<usize>) -> (r: Vec<usize>)
    ensures
        r@ == squeeze_spec(input@, dim),
{
    let mut out: Vec<usize> = Vec::new();
    let mut axis: usize = 0;
    while axis < input.len()
        invariant
            axis <= input.len(),
            out@ == squeeze_keep(input@, dim, axis as int),
        decreases input.len() - axis,
    {
        let remove = input[axis] == 1 && match dim {
            None => true,
            Some(d) => d == axis,
        };
        if !remove {
            out.push(input[axis]);
        }
        axis = axis + 1;
    }
    if out.len() == 0 {
        out.push(1);
        assert(out@ =~= seq![1usize]);
    }
    out
}

/// Insert a size-one axis at `dim`.
pub fn unsqueeze(input: &[usize], dim: usize) -> (r: Result<Vec<usize>, ArgumentError>)
    requires
        dim <= input@.len(),
    ensures
        list_outcome(r) == if input@.len() == 6 {
            value_err::<Seq<usize>>("unsqueeze would exceed the maximum rank 6"@)
        } else {
            Ok(input@.insert(dim as int, 1usize))
        },
{
    if input.len() == MAX_RANK {
        return Err(value_error(owned("unsqueeze would exceed the maximum rank 6")));
    }
    let mut out: Vec<usize> = Vec::new();
    let mut i: usize = 0;
    while i < input.len()
        invariant
            i <= input@.len(),
            out@ == input@.take(i as int),
        decreases input.len() - i,
    {
        out.push(input[i]);
        assert(out@ =~= input@.take(i + 1));
        i = i + 1;
    }
    assert(out@ =~= input@);
    out.insert(dim, 1);
    Ok(out)
}

// ---------------------------------------------------------------------------
// reductions
// ---------------------------------------------------------------------------

/// The axes `0..n` as signed dimensions.
pub open spec fn all_axes(n: int) -> Seq<isize> {
    Seq::new(n as nat, |i: int| i as isize)
}

/// The axes a reduction runs over: every axis when none or an empty list is
/// given, else the given ones normalised.
pub open spec fn reduction_dims_spec(dim: Option<Seq<isize>>, rank: int) -> Result<Seq<usize>, (ArgErrorKind, Seq<char>)> {
    let raw = match dim {
        None => all_axes(rank),
        Some(d) => if d.len() == 0 { all_axes(rank) } else { d },
    };
    match dim {
        None => Ok(Seq::new(rank as nat, |i: int| i as usize)),
        Some(_) => match axes_scan(raw, rank, "reduction dim"@, raw.len() as int) {
            Err(e) => value_err(e),
            Ok(out) => Ok(out),
        },
    }
}

/// Resolve the axes of a reduction.
pub fn reduction_dims(dim: Option<&[isize]>, rank: usize) -> (r: Result<Vec<usize>, ArgumentError>)
    requires
        rank <= isize::MAX,
    ensures
        list_outcome(r) == reduction_dims_spec(
            match dim {
                Some(d) => Some(d@),
                None => None,
            },
            rank as int,
        ),
{
    match dim {
        None => {
            let mut out: Vec<usize> = Vec::new();
            let mut i: usize = 0;
            while i < rank
                invariant
                    i <= rank,
                    out@ == Seq::new(i as nat, |k: int| k as usize),
                decreases rank - i,
            {
                out.push(i);
                assert(out@ =~= Seq::new((i + 1) as nat, |k: int| k as usize));
                i = i + 1;
            }
            Ok(out)
        },
        Some(d) => {
            if d.len() == 0 {
                let mut raw: Vec<isize> = Vec::new();
                let mut i: usize = 0;
                while i < rank
                    invariant
                        i <= rank <= isize::MAX,
                        raw@ == all_axes(i as int),
                    decreases rank - i,
                {
                    raw.push(i as isize);
                    assert(raw@ =~= all_axes(i + 1));
                    i = i + 1;
                }
                normalize_axes(raw.as_slice(), rank, "reduction dim")
            } else {
                normalize_axes(d, rank, "reduction dim")
            }
        },
    }
}

/// The sizes before `n` that remain after reducing over `dims`.
pub open spec fn reduced_upto(input: Seq<usize>, dims: Seq<usize>, keepdim: bool, n: int) -> Seq<usize>
    decreases n,
{
    if n <= 0 {
        Seq::empty()
    } else {
        let axis = n - 1;
        let prev = reduced_upto(input, dims, keepdim, n - 1);
        if dims.contains(axis as usize) {
            if keepdim {
                prev.push(1usize)
            } else {
                prev
            }
        } else {
            prev.push(input[axis])
        }
    }
}

pub open spec fn reduction_shape_spec(input: Seq<usize>, dims: Seq<usize>, keepdim: bool) -> Seq<usize> {
    let out = reduced_upto(input, dims, keepdim, input.len() as int);
    if out.len() == 0 {
        seq![1usize]
    } else {
        out
    }
}

/// The output shape of a reduction: reduced axes become one or disappear; a
/// result without axes becomes `[1]`.
pub fn reduction_output_shape(input: &[usize], dims: &[usize], keepdim: bool) -> (r: Vec<usize>)
    ensures
        r@ == reduction_shape_spec(input@, dims@, keepdim),
{
    let dv = slice_to_vec(dims);
    let mut out: Vec<usize> = Vec::new();
    let mut axis: usize = 0;
    while axis < input.len()
        invariant
            axis <= input.len(),
            dv@ == dims@,
            out@ == reduced_upto(input@, dims@, keepdim, axis as int),
        decreases input.len() - axis,
    {
        if contains_usize(&dv, axis) {
            if keepdim {
                out.push(1);
            }
        } else {
            out.push(input[axis]);
        }
        axis = axis + 1;
    }
    if out.len() == 0 {
        out.push(1);
        assert(out@ =~= seq![1usize]);
    }
    out
}

fn slice_to_vec(s: &[usize]) -> (r: Vec<usize>)
    ensures
        r@ == s@,
{
    let mut out: Vec<usize> = Vec::new();
    let mut i: usize = 0;
    while i < s.len()
        invariant
            i <= s@.len(),
            out@ == s@.take(i as int),
        decreases s.len() - i,
    {
        out.push(s[i]);
        assert(out@ =~= s@.take(i + 1));
        i = i + 1;
    }
    assert(out@ =~= s@);
    out
}


// ---------------------------------------------------------------------------
// split sizes
// ---------------------------------------------------------------------------

/// Sizes of the pieces when an extent is split into pieces of `size`: full
/// pieces, then the remainder when there is one; an empty extent gives `[0]`.
pub open spec fn uniform_split_spec(size: int, extent: int) -> Result<Seq<usize>, (ArgErrorKind, Seq<char>)> {
    if size == 0 {
        value_err("split size must be positive"@)
    } else if extent == 0 {
        Ok(seq![0usize])
    } else {
        let full = Seq::new((extent / size) as nat, |i: int| size as usize);
        Ok(if extent % size != 0 { full.push((extent % size) as usize) } else { full })
    }
}

/// Split an extent into pieces of a given size.
pub fn uniform_split(size: usize, extent: usize) -> (r: Result<Vec<usize>, ArgumentError>)
    ensures
        list_outcome(r) == uniform_split_spec(size as int, extent as int),
{
    if size == 0 {
        return Err(value_error(owned("split size must be positive")));
    }
    if extent == 0 {
        let mut out: Vec<usize> = Vec::new();
        out.push(0);
        assert(out@ =~= seq![0usize]);
        return Ok(out);
    }
    let count = extent / size;
    let mut out: Vec<usize> = Vec::new();
    let mut i: usize = 0;
    while i < count
        invariant
            i <= count,
            out@ == Seq::new(i as nat, |k: int| size as usize),
        decreases count - i,
    {
        out.push(size);
        assert(out@ =~= Seq::new((i + 1) as nat, |k: int| size as usize));
        i = i + 1;
    }
    let remainder = extent % size;
    if remainder != 0 {
        out.push(remainder);
    }
    Ok(out)
}

/// Sum of a list of sizes.
pub open spec fn total(s: Seq<usize>) -> int
    decreases s.len(),
{
    if s.len() == 0 {
        0
    } else {
        total(s.drop_last()) + s.last()
    }
}

proof fn lemma_total_uniform(size: int, n: nat)
    requires
        size >= 0,
        size <= usize::MAX,
    ensures
        total(Seq::new(n, |i: int| size as usize)) == n * size,
    decreases n,
{
    if n > 0 {
        lemma_total_uniform(size, (n - 1) as nat);
        assert(Seq::new(n, |i: int| size as usize).drop_last() =~= Seq::new((n - 1) as nat, |i: int| size as usize));
        assert(Seq::new(n, |i: int| size as usize).last() == size as usize);
        assert(n * size == (n - 1) * size + size) by (nonlinear_arith);
        assert(total(Seq::new(n, |i: int| size as usize)) == total(Seq::new((n - 1) as nat, |i: int| size as usize)) + size);
    } else {
        assert(n * size == 0) by (nonlinear_arith)
            requires
                n == 0,
        ;
    }
}

/// Splitting a non-empty extent into pieces of a positive size loses nothing:
/// the piece sizes add up to the extent.
pub proof fn law_uniform_split_covers(size: usize, extent: usize)
    requires
        size > 0,
        extent > 0,
    ensures
        uniform_split_spec(size as int, extent as int) matches Ok(pieces) && total(pieces) == extent,
{
    let q = (extent / size) as nat;
    lemma_total_uniform(size as int, q);
    let full = Seq::new(q, |i: int| size as usize);
    assert(extent == q * size + extent % size) by (nonlinear_arith)
        requires
            size > 0,
            q == extent / size,
    ;
    if extent % size != 0 {
        assert(full.push((extent % size) as usize).drop_last() =~= full);
    }
}

// ---------------------------------------------------------------------------
// index lists, index bounds and gather indices
// ---------------------------------------------------------------------------

/// One entry of a list used as an index.
#[derive(Debug, Clone, Copy, PartialEq, Eq, Structural)]
pub enum ListIndexItem {
    Int(isize),
    NonInteger,
}

/// The positions an index list selects along an axis of `size`, each wrapped from
/// the end when negative, or the complaint about the first bad entry.
pub open spec fn index_list_scan(items: Seq<ListIndexItem>, size: int, n: int) -> Result<Seq<i64>, (ArgErrorKind, Seq<char>)>
    decreases n,
{
    if n <= 0 {
        Ok(Seq::empty())
    } else {
        match index_list_scan(items, size, n - 1) {
            Err(e) => Err(e),
            Ok(out) => match items[n - 1] {
                ListIndexItem::NonInteger => Err((ArgErrorKind::Type, "advanced index lists must contain only integers"@)),
                ListIndexItem::Int(original) => {
                    let normalized = if original < 0 { size + original } else { original as int };
                    if !(0 <= normalized < size) {
                        Err((ArgErrorKind::Index, "index "@ + int_text(original as int) + " is out of bounds for dimension 0 with size "@
                            + decimal(size as nat)))
                    } else {
                        Ok(out.push(normalized as i64))
                    }
                },
            },
        }
    }
}

proof fn lemma_index_list_scan_err(items: Seq<ListIndexItem>, size: int, n: int, m: int)
    requires
        0 <= n <= m,
        index_list_scan(items, size, n) is Err,
    ensures
        index_list_scan(items, size, m) == index_list_scan(items, size, n),
    decreases m - n,
{
    if m > n {
        lemma_index_list_scan_err(items, size, n, m - 1);
    }
}

pub open spec fn index_list_spec(items: Seq<ListIndexItem>, size: int) -> Result<Seq<i64>, (ArgErrorKind, Seq<char>)> {
    if size > isize::MAX {
        Err((ArgErrorKind::Index, "tensor dimension exceeds index limits"@))
    } else {
        index_list_scan(items, size, items.len() as int)
    }
}

/// Resolve a list of integers used as a first-axis index.
pub fn index_list(items: &[ListIndexItem], size: usize) -> (r: Result<Vec<i64>, ArgumentError>)
    ensures
        list_outcome(r) == index_list_spec(items@, size as int),
{
    if size > isize::MAX as usize {
        return Err(index_error(owned("tensor dimension exceeds index limits")));
    }
    let size_signed = size as isize;
    let ghost its = items@;
    let mut out: Vec<i64> = Vec::new();
    let mut i: usize = 0;
    while i < items.len()
        invariant
            i <= items.len(),
            size <= isize::MAX,
            size_signed == size,
            its == items@,
            index_list_scan(its, size as int, i as int) == Ok::<Seq<i64>, (ArgErrorKind, Seq<char>)>(out@),
        decreases items.len() - i,
    {
        proof {
            if index_list_scan(its, size as int, i + 1) is Err {
                lemma_index_list_scan_err(its, size as int, i + 1, its.len() as int);
            }
        }
        match items[i] {
            ListIndexItem::NonInteger => {
                return Err(type_error(owned("advanced index lists must contain only integers")));
            },
            ListIndexItem::Int(original) => {
                let normalized: isize = if original < 0 { size_signed + original } else { original };
                if !(0 <= normalized && normalized < size_signed) {
                    let mut m = owned("index ");
                    m.append(isize_text(original).as_str());
                    m.append(" is out of bounds for dimension 0 with size ");
                    m.append(usize_text(size).as_str());
                    return Err(index_error(m));
                }
                out.push(normalized as i64);
            },
        }
        i = i + 1;
    }
    Ok(out)
}

/// The least and greatest of a list of integer indices.
#[derive(Debug, Clone, Copy, PartialEq, Eq, Structural)]
pub enum IntBounds {
    Empty,
    Range { min: i64, max: i64 },
}

pub open spec fn is_min(s: Seq<i64>, m: i64) -> bool {
    s.contains(m) && forall|i: int| 0 <= i < s.len() ==> m <= #[trigger] s[i]
}

pub open spec fn is_max(s: Seq<i64>, m: i64) -> bool {
    s.contains(m) && forall|i: int| 0 <= i < s.len() ==> #[trigger] s[i] <= m
}

impl IntBounds {
    /// The bounds of a list of indices; `Empty` for an empty list.
    pub fn from_values(values: &[i64]) -> (r: IntBounds)
        ensures
            values@.len() == 0 <==> r == IntBounds::Empty,
            r matches IntBounds::Range { min, max } ==> is_min(values@, min) && is_max(values@, max),
    {
        if values.len() == 0 {
            return IntBounds::Empty;
        }
        let mut min = values[0];
        let mut max = values[0];
        let mut i: usize = 1;
        assert(values@.take(1)[0] == values@[0]);
        while i < values.len()
            invariant
                1 <= i <= values@.len(),
                is_min(values@.take(i as int), min),
                is_max(values@.take(i as int), max),
            decreases values.len() - i,
        {
            let ghost t = values@.take(i as int);
            let v = values[i];
            if v < min {
                min = v;
            }
            if v > max {
                max = v;
            }
            proof {
                let t2 = values@.take(i + 1);
                assert(t2 =~= t.push(v));
                if min == v {
                    assert(t2[i as int] == v);
                } else {
                    let w = choose|w: int| 0 <= w < t.len() && t[w] == min;
                    assert(t2[w] == min);
                }
                if max == v {
                    assert(t2[i as int] == v);
                } else {
                    let w = choose|w: int| 0 <= w < t.len() && t[w] == max;
                    assert(t2[w] == max);
                }
                assert forall|k: int| 0 <= k < t2.len() implies min <= #[trigger] t2[k] && t2[k] <= max by {
                    if k < t.len() {
                        assert(t2[k] == t[k]);
                    }
                }
            }
            i = i + 1;
        }
        assert(values@.take(values.len() as int) =~= values@);
        IntBounds::Range { min, max }
    }
}

/// The verdict on integer indices with the given bounds along a dimension of `size`.
pub open spec fn index_bounds_spec(bounds: IntBounds, size: int, dim: int, operation: Seq<char>) -> Result<(), (ArgErrorKind, Seq<char>)> {
    if size > i64::MAX {
        Err((ArgErrorKind::Value, operation + " dimension "@ + decimal(dim as nat) + " exceeds the supported index range"@))
    } else {
        match bounds {
            IntBounds::Empty => Ok(()),
            IntBounds::Range { min, max } => {
                let invalid: Option<i64> = if min < 0 { Some(min) } else if max >= size { Some(max) } else { None };
                match invalid {
                    Some(index) => Err((ArgErrorKind::Index, operation + " index "@ + int_text(index as int)
                        + " is out of bounds for dimension "@ + decimal(dim as nat) + " with size "@ + decimal(size as nat))),
                    None => Ok(()),
                }
            },
        }
    }
}

/// Check integer indices, summarised by their bounds, against a dimension.
pub fn check_index_bounds(bounds: IntBounds, size: usize, dim: usize, operation: &str) -> (r: Result<(), ArgumentError>)
    ensures
        match r {
            Ok(()) => index_bounds_spec(bounds, size as int, dim as int, operation@) == Ok::<(), (ArgErrorKind, Seq<char>)>(()),
            Err(e) => index_bounds_spec(bounds, size as int, dim as int, operation@) == Err::<(), (ArgErrorKind, Seq<char>)>(arg_error_view(e)),
        },
{
    if size as u128 > i64::MAX as u128 {
        let mut m = owned(operation);
        m.append(" dimension ");
        m.append(usize_text(dim).as_str());
        m.append(" exceeds the supported index range");
        return Err(value_error(m));
    }
    let size_signed = size as i64;
    match bounds {
        IntBounds::Empty => Ok(()),
        IntBounds::Range { min, max } => {
            let invalid: Option<i64> = if min < 0 {
                Some(min)
            } else if max >= size_signed {
                Some(max)
            } else {
                None
            };
            match invalid {
                Some(index) => {
                    let mut m = owned(operation);
                    m.append(" index ");
                    m.append(crate::text::i64_text(index).as_str());
                    m.append(" is out of bounds for dimension ");
                    m.append(usize_text(dim).as_str());
                    m.append(" with size ");
                    m.append(usize_text(size).as_str());
                    Err(index_error(m))
                },
                None => Ok(()),
            }
        },
    }
}

/// The verdict on the shape of gather indices against the data they gather from.
pub open spec fn gather_index_spec(index_shape: Seq<usize>, data_shape: Seq<usize>, dim: int) -> Result<(), (ArgErrorKind, Seq<char>)> {
    if index_shape.len() != data_shape.len() {
        Err((ArgErrorKind::Value, "gather index rank "@ + decimal(index_shape.len()) + " must match input rank "@ + decimal(data_shape.len())))
    } else if exists|axis: int| 0 <= axis < index_shape.len() && axis != dim && index_shape[axis] > data_shape[axis] {
        let axis = choose|axis: int| 0 <= axis < index_shape.len() && axis != dim && index_shape[axis] > data_shape[axis]
            && forall|b: int| 0 <= b < axis && b != dim ==> index_shape[b] <= data_shape[b];
        Err((ArgErrorKind::Value, "gather index size "@ + decimal(index_shape[axis] as nat) + " exceeds input size "@
            + decimal(data_shape[axis] as nat) + " at dimension "@ + decimal(axis as nat)))
    } else {
        Ok(())
    }
}

/// Check the shape of gather indices: same rank as the data, and no larger than
/// the data on every axis but the gathered one.
pub fn check_gather_index(index_shape: &[usize], data_shape: &[usize], dim: usize) -> (r: Result<(), ArgumentError>)
    ensures
        match r {
            Ok(()) => gather_index_spec(index_shape@, data_shape@, dim as int) == Ok::<(), (ArgErrorKind, Seq<char>)>(()),
            Err(e) => gather_index_spec(index_shape@, data_shape@, dim as int) == Err::<(), (ArgErrorKind, Seq<char>)>(arg_error_view(e)),
        },
{
    if index_shape.len() != data_shape.len() {
        let mut m = owned("gather index rank ");
        m.append(usize_text(index_shape.len()).as_str());
        m.append(" must match input rank ");
        m.append(usize_text(data_shape.len()).as_str());
        return Err(value_error(m));
    }
    let mut axis: usize = 0;
    while axis < index_shape.len()
        invariant
            axis <= index_shape@.len(),
            index_shape@.len() == data_shape@.len(),
            forall|b: int| 0 <= b < axis && b != dim ==> index_shape@[b] <= data_shape@[b],
        decreases index_shape.len() - axis,
    {
        if axis != dim && index_shape[axis] > data_shape[axis] {
            proof {
                let a = axis as int;
                let c = choose|c: int| 0 <= c < index_shape@.len() && c != dim && index_shape@[c] > data_shape@[c]
                    && forall|b: int| 0 <= b < c && b != dim ==> index_shape@[b] <= data_shape@[b];
                if c < a {
                } else if c > a {
                    assert(index_shape@[a] <= data_shape@[a]);
                }
            }
            let mut m = owned("gather index size ");
            m.append(usize_text(index_shape[axis]).as_str());
            m.append(" exceeds input size ");
            m.append(usize_text(data_shape[axis]).as_str());
            m.append(" at dimension ");
            m.append(usize_text(axis).as_str());
            return Err(value_error(m));
        }
        axis = axis + 1;
    }
    Ok(())
}


// ---------------------------------------------------------------------------
// basic indexing
// ---------------------------------------------------------------------------

/// One entry of a basic index, as the scripting layer reads it.
#[derive(Debug, Clone, Copy, PartialEq, Eq, Structural)]
pub enum IndexItem {
    /// `...`
    Ellipsis,
    /// A boolean, which basic indexing refuses.
    Bool,
    /// An integer position.
    Int(isize),
    /// A slice with its optional bounds and step.
    Slice { start: Option<isize>, stop: Option<isize>, step: Option<isize> },
    /// Anything else.
    Other,
}

/// A strided range of one axis: `start`, an optional exclusive `end`, and a step.
#[derive(Debug, Clone, Copy, PartialEq, Eq, Structural)]
pub struct SliceRange {
    pub start: isize,
    pub end: Option<isize>,
    pub step: isize,
}

/// A slice bound clamped into an axis of `length`, as the scripting layer resolves it.
pub open spec fn adjust_bound(v: int, length: int, step: int) -> int {
    if v < 0 {
        if v + length < 0 {
            if step < 0 { -1 } else { 0 }
        } else {
            v + length
        }
    } else if v >= length {
        if step < 0 { length - 1 } else { length }
    } else {
        v
    }
}

/// A slice resolved against an axis of `length`: start, stop, step and the number of
/// positions it selects.
pub open spec fn slice_indices_spec(start: Option<isize>, stop: Option<isize>, step: Option<isize>, length: int)
    -> Result<(int, int, int, int), (ArgErrorKind, Seq<char>)>
{
    let st: int = match step {
        None => 1,
        Some(x) => x as int,
    };
    if st == 0 {
        value_err("slice step cannot be zero"@)
    } else {
        let st2 = if st < -(isize::MAX as int) { -(isize::MAX as int) } else { st };
        let s0: int = match start {
            None => if st2 < 0 { isize::MAX as int } else { 0 },
            Some(x) => x as int,
        };
        let e0: int = match stop {
            None => if st2 < 0 { isize::MIN as int } else { isize::MAX as int },
            Some(x) => x as int,
        };
        let s1 = adjust_bound(s0, length, st2);
        let e1 = adjust_bound(e0, length, st2);
        let len = if st2 < 0 {
            if e1 < s1 { (s1 - e1 - 1) / (-st2) + 1 } else { 0 }
        } else {
            if s1 < e1 { (e1 - s1 - 1) / st2 + 1 } else { 0 }
        };
        Ok((s1, e1, st2, len))
    }
}

fn adjust(v: isize, length: isize, step: isize) -> (r: isize)
    requires
        0 <= length,
    ensures
        r as int == adjust_bound(v as int, length as int, step as int),
        -1 <= r <= length,
{
    if v < 0 {
        let w = v + length;
        if w < 0 {
            if step < 0 { -1 } else { 0 }
        } else {
            w
        }
    } else if v >= length {
        if step < 0 { length - 1 } else { length }
    } else {
        v
    }
}

/// Resolve a slice against an axis of `length`.
pub fn slice_indices(start: Option<isize>, stop: Option<isize>, step: Option<isize>, length: isize)
    -> (r: Result<(isize, isize, isize, usize), ArgumentError>)
    requires
        0 <= length,
    ensures
        match r {
            Ok((a, b, c, n)) => slice_indices_spec(start, stop, step, length as int)
                == Ok::<(int, int, int, int), (ArgErrorKind, Seq<char>)>((a as int, b as int, c as int, n as int)),
            Err(e) => slice_indices_spec(start, stop, step, length as int)
                == Err::<(int, int, int, int), (ArgErrorKind, Seq<char>)>(arg_error_view(e)),
        },
{
    let st: isize = match step {
        None => 1,
        Some(x) => x,
    };
    if st == 0 {
        return Err(value_error(owned("slice step cannot be zero")));
    }
    let st2: isize = if st < -isize::MAX { -isize::MAX } else { st };
    let s0: isize = match start {
        None => if st2 < 0 { isize::MAX } else { 0 },
        Some(x) => x,
    };
    let e0: isize = match stop {
        None => if st2 < 0 { isize::MIN } else { isize::MAX },
        Some(x) => x,
    };
    let s1 = adjust(s0, length, st2);
    let e1 = adjust(e0, length, st2);
    let len: usize = if st2 < 0 {
        if e1 < s1 {
            let num = (s1 - e1 - 1) as usize;
            let den = (0 - st2) as usize;
            num / den + 1
        } else {
            0
        }
    } else {
        if s1 < e1 {
            let num = (e1 - s1 - 1) as usize;
            let den = st2 as usize;
            num / den + 1
        } else {
            0
        }
    };
    Ok((s1, e1, st2, len))
}

/// The items of an index with the ellipsis spread over the axes no item names,
/// and the trailing axes filled, as `None` for a full axis.
pub open spec fn expanded_items(items: Seq<IndexItem>, rank: int) -> Seq<Option<IndexItem>> {
    let somes = |x: IndexItem| Some(x);
    let e = items.index_of_first(IndexItem::Ellipsis);
    let listed = match e {
        Some(i) => items.take(i).map_values(somes) + Seq::new((rank - (items.len() - 1)) as nat, |k: int| None::<IndexItem>)
            + items.skip(i + 1).map_values(somes),
        None => items.map_values(somes),
    };
    listed + Seq::new((rank - listed.len()) as nat, |k: int| None::<IndexItem>)
}

/// What one axis contributes: its range and, unless an integer removes it, its output size.
pub open spec fn axis_index_spec(item: Option<IndexItem>, size: int, axis: int)
    -> Result<(SliceRange, Option<usize>), (ArgErrorKind, Seq<char>)>
{
    match item {
        None => Ok((SliceRange { start: 0, end: None, step: 1 }, Some(size as usize))),
        Some(IndexItem::Bool) => Err((ArgErrorKind::Type, "boolean and advanced tensor indexing are not supported"@)),
        Some(IndexItem::Int(index)) => if size > isize::MAX {
            Err((ArgErrorKind::Index, "tensor dimension exceeds index limits"@))
        } else {
            let i = if index < 0 { size + index } else { index as int };
            if !(0 <= i < size) {
                Err((ArgErrorKind::Index, "index "@ + int_text(i) + " is out of bounds for dimension "@ + decimal(axis as nat)
                    + " with size "@ + decimal(size as nat)))
            } else {
                Ok((SliceRange { start: i as isize, end: Some((i + 1) as isize), step: 1 }, None))
            }
        },
        Some(IndexItem::Slice { start, stop, step }) => if size > isize::MAX {
            Err((ArgErrorKind::Index, "tensor dimension exceeds index limits"@))
        } else {
            match slice_indices_spec(start, stop, step, size) {
                Err(e) => Err(e),
                Ok((s, e, st, n)) => {
                    let range = if n == 0 {
                        SliceRange { start: 0, end: Some(0), step: st as isize }
                    } else if st > 0 {
                        SliceRange { start: s as isize, end: Some(e as isize), step: st as isize }
                    } else {
                        SliceRange { start: (s + (n - 1) * st) as isize, end: Some((s + 1) as isize), step: st as isize }
                    };
                    Ok((range, Some(n as usize)))
                },
            }
        },
        Some(_) => Err((ArgErrorKind::Type, "indices must be integers, slices, tuples of those forms, or ellipsis"@)),
    }
}

/// Ranges and output sizes of the axes before `n`, or the complaint about the first bad one.
pub open spec fn basic_index_scan(ex: Seq<Option<IndexItem>>, shape: Seq<usize>, n: int)
    -> Result<(Seq<SliceRange>, Seq<usize>), (ArgErrorKind, Seq<char>)>
    decreases n,
{
    if n <= 0 {
        Ok((Seq::empty(), Seq::empty()))
    } else {
        match basic_index_scan(ex, shape, n - 1) {
            Err(e) => Err(e),
            Ok((ranges, out)) => match axis_index_spec(ex[n - 1], shape[n - 1] as int, n - 1) {
                Err(e) => Err(e),
                Ok((range, size)) => Ok((ranges.push(range), match size {
                    Some(k) => out.push(k),
                    None => out,
                })),
            },
        }
    }
}

proof fn lemma_basic_index_scan_err(ex: Seq<Option<IndexItem>>, shape: Seq<usize>, n: int, m: int)
    requires
        0 <= n <= m,
        basic_index_scan(ex, shape, n) is Err,
    ensures
        basic_index_scan(ex, shape, m) == basic_index_scan(ex, shape, n),
    decreases m - n,
{
    if m > n {
        lemma_basic_index_scan_err(ex, shape, n, m - 1);
    }
}

/// The number of `...` entries in an index.
pub open spec fn count_ellipses(items: Seq<IndexItem>) -> nat
    decreases items.len(),
{
    if items.len() == 0 {
        0
    } else {
        count_ellipses(items.drop_last()) + if items.last() == IndexItem::Ellipsis { 1nat } else { 0nat }
    }
}

/// The ranges and output shape a basic index selects from a tensor of `shape`.
pub open spec fn basic_index_spec(items: Seq<IndexItem>, shape: Seq<usize>)
    -> Result<(Seq<SliceRange>, Seq<usize>), (ArgErrorKind, Seq<char>)>
{
    let ellipses = count_ellipses(items);
    if ellipses > 1 {
        Err((ArgErrorKind::Index, "an index can only have a single ellipsis"@))
    } else if items.len() - ellipses > shape.len() {
        Err((ArgErrorKind::Index, "too many indices for tensor of dimension "@ + decimal(shape.len())))
    } else {
        match basic_index_scan(expanded_items(items, shape.len() as int), shape, shape.len() as int) {
            Err(e) => Err(e),
            Ok((ranges, out)) => Ok((ranges, if out.len() == 0 { seq![1usize] } else { out })),
        }
    }
}

/// A resolved basic index: one range per axis and the output shape.
#[derive(Debug, Clone)]
pub struct BasicIndex {
    pub slices: Vec<SliceRange>,
    pub output_shape: Vec<usize>,
}

fn range_of(item: Option<IndexItem>, size: usize, axis: usize) -> (r: Result<(SliceRange, Option<usize>), ArgumentError>)
    ensures
        match r {
            Ok(p) => axis_index_spec(item, size as int, axis as int) == Ok::<(SliceRange, Option<usize>), (ArgErrorKind, Seq<char>)>(p),
            Err(e) => axis_index_spec(item, size as int, axis as int)
                == Err::<(SliceRange, Option<usize>), (ArgErrorKind, Seq<char>)>(arg_error_view(e)),
        },
{
    match item {
        None => Ok((SliceRange { start: 0, end: None, step: 1 }, Some(size))),
        Some(IndexItem::Bool) => Err(type_error(owned("boolean and advanced tensor indexing are not supported"))),
        Some(IndexItem::Int(index)) => {
            if size > isize::MAX as usize {
                return Err(index_error(owned("tensor dimension exceeds index limits")));
            }
            let size_signed = size as isize;
            let i: isize = if index < 0 { size_signed + index } else { index };
            if !(0 <= i && i < size_signed) {
                let mut m = owned("index ");
                m.append(isize_text(i).as_str());
                m.append(" is out of bounds for dimension ");
                m.append(usize_text(axis).as_str());
                m.append(" with size ");
                m.append(usize_text(size).as_str());
                return Err(index_error(m));
            }
            Ok((SliceRange { start: i, end: Some(i + 1), step: 1 }, None))
        },
        Some(IndexItem::Slice { start, stop, step }) => {
            if size > isize::MAX as usize {
                return Err(index_error(owned("tensor dimension exceeds index limits")));
            }
            let (s, e, st, n) = match slice_indices(start, stop, step, size as isize) {
                Err(err) => {
                    return Err(err);
                },
                Ok(v) => v,
            };
            let range = if n == 0 {
                SliceRange { start: 0, end: Some(0), step: st }
            } else if st > 0 {
                SliceRange { start: s, end: Some(e), step: st }
            } else {
                let count = n as isize;
                proof {
                    let d = -(st as int);
                    let num = s - e - 1;
                    assert(e < s);
                    assert(n == num / d + 1);
                    assert((n - 1) * d <= num) by (nonlinear_arith)
                        requires
                            d > 0,
                            num >= 0,
                            n - 1 == num / d,
                    ;
                    assert((n - 1) * st == -((n - 1) * d)) by (nonlinear_arith)
                        requires
                            d == -(st as int),
                    ;
                }
                let back = ((count - 1) as i128) * (st as i128);
                let lowest = ((s as i128) + back) as isize;
                SliceRange { start: lowest, end: Some(s + 1), step: st }
            };
            Ok((range, Some(n)))
        },
        Some(_) => Err(type_error(owned("indices must be integers, slices, tuples of those forms, or ellipsis"))),
    }
}

fn count_ellipsis_items(items: &[IndexItem]) -> (r: usize)
    ensures
        r == count_ellipses(items@),
{
    let mut n: usize = 0;
    let mut i: usize = 0;
    while i < items.len()
        invariant
            i <= items@.len(),
            n == count_ellipses(items@.take(i as int)),
            n <= i,
        decreases items.len() - i,
    {
        assert(items@.take(i + 1).drop_last() =~= items@.take(i as int));
        if items[i] == IndexItem::Ellipsis {
            n = n + 1;
        }
        i = i + 1;
    }
    assert(items@.take(items.len() as int) =~= items@);
    n
}

proof fn lemma_count_ellipses(items: Seq<IndexItem>)
    ensures
        items.contains(IndexItem::Ellipsis) ==> count_ellipses(items) >= 1,
        !items.contains(IndexItem::Ellipsis) ==> count_ellipses(items) == 0,
        count_ellipses(items) <= items.len(),
    decreases items.len(),
{
    if items.len() > 0 {
        lemma_count_ellipses(items.drop_last());
        if items.contains(IndexItem::Ellipsis) && items.last() != IndexItem::Ellipsis {
            let w = choose|w: int| 0 <= w < items.len() && items[w] == IndexItem::Ellipsis;
            assert(items.drop_last()[w] == IndexItem::Ellipsis);
        }
        if !items.contains(IndexItem::Ellipsis) {
            assert(items[items.len() - 1] == items.last());
            assert forall|w: int| 0 <= w < items.drop_last().len() implies items.drop_last()[w] != IndexItem::Ellipsis by {
                assert(items.drop_last()[w] == items[w]);
            }
        }
    }
}

fn push_somes(out: &mut Vec<Option<IndexItem>>, items: &[IndexItem], from: usize, to: usize)
    requires
        from <= to <= items@.len(),
    ensures
        final(out)@ == old(out)@ + items@.subrange(from as int, to as int).map_values(|x: IndexItem| Some(x)),
{
    let ghost prev = out@;
    let mut i: usize = from;
    while i < to
        invariant
            from <= i <= to <= items@.len(),
            out@ == prev + items@.subrange(from as int, i as int).map_values(|x: IndexItem| Some(x)),
        decreases to - i,
    {
        out.push(Some(items[i]));
        assert(items@.subrange(from as int, i + 1).map_values(|x: IndexItem| Some(x))
            =~= items@.subrange(from as int, i as int).map_values(|x: IndexItem| Some(x)).push(Some(items@[i as int])));
        assert(out@ =~= prev + items@.subrange(from as int, i + 1).map_values(|x: IndexItem| Some(x)));
        i = i + 1;
    }
}

fn push_nones(out: &mut Vec<Option<IndexItem>>, count: usize)
    ensures
        final(out)@ == old(out)@ + Seq::new(count as nat, |k: int| None::<IndexItem>),
{
    let ghost prev = out@;
    let mut k: usize = 0;
    while k < count
        invariant
            k <= count,
            out@ == prev + Seq::new(k as nat, |q: int| None::<IndexItem>),
        decreases count - k,
    {
        out.push(None);
        assert(out@ =~= prev + Seq::new((k + 1) as nat, |q: int| None::<IndexItem>));
        k = k + 1;
    }
}

fn expand_items(items: &[IndexItem], rank: usize) -> (r: Vec<Option<IndexItem>>)
    requires
        count_ellipses(items@) <= 1,
        items@.len() - count_ellipses(items@) <= rank,
    ensures
        r@ == expanded_items(items@, rank as int),
        r@.len() == rank,
{
    let ghost somes = |x: IndexItem| Some(x);
    proof {
        lemma_count_ellipses(items@);
        items@.index_of_first_ensures(IndexItem::Ellipsis);
    }
    let mut position: Option<usize> = None;
    let mut i: usize = 0;
    while i < items.len() && position.is_none()
        invariant
            i <= items@.len(),
            match position {
                Some(p) => p < items@.len() && items@[p as int] == IndexItem::Ellipsis
                    && forall|k: int| 0 <= k < p ==> items@[k] != IndexItem::Ellipsis,
                None => forall|k: int| 0 <= k < i ==> items@[k] != IndexItem::Ellipsis,
            },
        decreases items.len() - i, if position is None { 1int } else { 0int },
    {
        if items[i] == IndexItem::Ellipsis {
            position = Some(i);
        } else {
            i = i + 1;
        }
    }
    proof {
        items@.index_of_first_ensures(IndexItem::Ellipsis);
        match position {
            Some(p) => {
                assert(items@.contains(IndexItem::Ellipsis));
                let j = items@.index_of_first(IndexItem::Ellipsis)->0;
                assert(j == p as int);
            },
            None => {
                assert(!items@.contains(IndexItem::Ellipsis));
            },
        }
    }
    let mut out: Vec<Option<IndexItem>> = Vec::new();
    match position {
        Some(p) => {
            push_somes(&mut out, items, 0, p);
            push_nones(&mut out, rank - (items.len() - 1));
            push_somes(&mut out, items, p + 1, items.len());
            assert(items@.subrange(0, p as int) =~= items@.take(p as int));
            assert(items@.subrange(p + 1, items@.len() as int) =~= items@.skip(p + 1));
        },
        None => {
            push_somes(&mut out, items, 0, items.len());
            assert(items@.subrange(0, items@.len() as int) =~= items@);
        },
    }
    let ghost listed = out@;
    assert(listed =~= match items@.index_of_first(IndexItem::Ellipsis) {
        Some(q) => items@.take(q).map_values(somes) + Seq::new((rank - (items@.len() - 1)) as nat, |k: int| None::<IndexItem>)
            + items@.skip(q + 1).map_values(somes),
        None => items@.map_values(somes),
    });
    let filled = out.len();
    push_nones(&mut out, rank - filled);
    out
}

/// Resolve a basic index against a tensor shape.
pub fn basic_index(items: &[IndexItem], shape: &[usize]) -> (r: Result<BasicIndex, ArgumentError>)
    ensures
        match r {
            Ok(b) => basic_index_spec(items@, shape@)
                == Ok::<(Seq<SliceRange>, Seq<usize>), (ArgErrorKind, Seq<char>)>((b.slices@, b.output_shape@)),
            Err(e) => basic_index_spec(items@, shape@)
                == Err::<(Seq<SliceRange>, Seq<usize>), (ArgErrorKind, Seq<char>)>(arg_error_view(e)),
        },
{
    let ellipses = count_ellipsis_items(items);
    proof {
        lemma_count_ellipses(items@);
    }
    if ellipses > 1 {
        return Err(index_error(owned("an index can only have a single ellipsis")));
    }
    if items.len() - ellipses > shape.len() {
        let mut m = owned("too many indices for tensor of dimension ");
        m.append(usize_text(shape.len()).as_str());
        return Err(index_error(m));
    }
    let expanded = expand_items(items, shape.len());
    let ghost ex = expanded@;
    let mut slices: Vec<SliceRange> = Vec::new();
    let mut output: Vec<usize> = Vec::new();
    let mut axis: usize = 0;
    while axis < shape.len()
        invariant
            axis <= shape@.len(),
            ex == expanded@,
            expanded@.len() == shape@.len(),
            ex == expanded_items(items@, shape@.len() as int),
            count_ellipses(items@) <= 1,
            items@.len() - count_ellipses(items@) <= shape@.len(),
            basic_index_scan(ex, shape@, axis as int)
                == Ok::<(Seq<SliceRange>, Seq<usize>), (ArgErrorKind, Seq<char>)>((slices@, output@)),
        decreases shape.len() - axis,
    {
        proof {
            if basic_index_scan(ex, shape@, axis + 1) is Err {
                lemma_basic_index_scan_err(ex, shape@, axis + 1, shape@.len() as int);
            }
        }
        match range_of(expanded[axis], shape[axis], axis) {
            Err(e) => {
                return Err(e);
            },
            Ok((range, size)) => {
                slices.push(range);
                match size {
                    Some(k) => {
                        output.push(k);
                    },
                    None => {},
                }
            },
        }
        axis = axis + 1;
    }
    if output.len() == 0 {
        output.push(1);
        assert(output@ =~= seq![1usize]);
    }
    Ok(BasicIndex { slices, output_shape: output })
}


// ---------------------------------------------------------------------------
// tensor indices
// ---------------------------------------------------------------------------

/// The element kind of a tensor used as an index.
#[derive(Debug, Clone, Copy, PartialEq, Eq, Structural)]
pub enum IndexElement {
    Int,
    Bool,
    Float,
}

/// How a tensor index selects along the first axis.
#[derive(Debug, Clone, Copy, PartialEq, Eq, Structural)]
pub enum AdvancedIndex {
    /// Integer positions, checked against the axis.
    Positions,
    /// A boolean mask over the axis.
    Mask,
}

pub open spec fn advanced_index_spec(element: IndexElement, dtype_name: Seq<char>, rank: int, length: int, size: int)
    -> Result<AdvancedIndex, (ArgErrorKind, Seq<char>)>
{
    match element {
        IndexElement::Int => if rank == 1 {
            Ok(AdvancedIndex::Positions)
        } else {
            Err((ArgErrorKind::Index, "only one-dimensional integer tensor indices are supported, got rank "@ + decimal(rank as nat)))
        },
        IndexElement::Bool => if rank == 1 && length == size {
            Ok(AdvancedIndex::Mask)
        } else if rank != 1 {
            Err((ArgErrorKind::Index, "only one-dimensional boolean tensor indices are supported, got rank "@ + decimal(rank as nat)))
        } else {
            Err((ArgErrorKind::Index, "boolean index length "@ + decimal(length as nat) + " does not match first dimension size "@
                + decimal(size as nat)))
        },
        IndexElement::Float => Err((ArgErrorKind::Index, "advanced tensor indices must have int64 or bool dtype, got "@ + dtype_name)),
    }
}

/// Decide how a tensor index of the given element kind, rank and length selects
/// along a first axis of `size`.
pub fn advanced_index(element: IndexElement, dtype_name: &str, rank: usize, length: usize, size: usize)
    -> (r: Result<AdvancedIndex, ArgumentError>)
    ensures
        match r {
            Ok(a) => advanced_index_spec(element, dtype_name@, rank as int, length as int, size as int)
                == Ok::<AdvancedIndex, (ArgErrorKind, Seq<char>)>(a),
            Err(e) => advanced_index_spec(element, dtype_name@, rank as int, length as int, size as int)
                == Err::<AdvancedIndex, (ArgErrorKind, Seq<char>)>(arg_error_view(e)),
        },
{
    match element {
        IndexElement::Int => {
            if rank == 1 {
                Ok(AdvancedIndex::Positions)
            } else {
                let mut m = owned("only one-dimensional integer tensor indices are supported, got rank ");
                m.append(usize_text(rank).as_str());
                Err(index_error(m))
            }
        },
        IndexElement::Bool => {
            if rank == 1 && length == size {
                Ok(AdvancedIndex::Mask)
            } else if rank != 1 {
                let mut m = owned("only one-dimensional boolean tensor indices are supported, got rank ");
                m.append(usize_text(rank).as_str());
                Err(index_error(m))
            } else {
                let mut m = owned("boolean index length ");
                m.append(usize_text(length).as_str());
                m.append(" does not match first dimension size ");
                m.append(usize_text(size).as_str());
                Err(index_error(m))
            }
        },
        IndexElement::Float => {
            let mut m = owned("advanced tensor indices must have int64 or bool dtype, got ");
            m.append(dtype_name);
            Err(index_error(m))
        },
    }
}


// ---------------------------------------------------------------------------
// Laws
// ---------------------------------------------------------------------------

/// The number of elements of a shape.
pub open spec fn element_count(s: Seq<usize>) -> int
    decreases s.len(),
{
    if s.len() == 0 {
        1
    } else {
        element_count(s.drop_last()) * s.last()
    }
}

pub open spec fn scan_value(req: Seq<isize>, n: int) -> (Option<int>, int) {
    reshape_scan(req, n)->Ok_0
}

proof fn lemma_reshape_scan_product(req: Seq<isize>, n: int)
    requires
        0 <= n <= req.len(),
        reshape_scan(req, n) is Ok,
    ensures
        scan_value(req, n).1 == element_count(known_dims(req).take(n)),
        scan_value(req, n).1 >= 1,
        forall|k: int| 0 <= k < n ==> #[trigger] known_dims(req)[k] >= 1,
        match scan_value(req, n).0 {
            Some(i) => 0 <= i < n && req[i] == -1,
            None => forall|k: int| 0 <= k < n ==> req[k] != -1,
        },
    decreases n,
{
    if n > 0 {
        lemma_reshape_scan_product(req, n - 1);
        assert(known_dims(req).take(n).drop_last() =~= known_dims(req).take(n - 1));
        let p = scan_value(req, n - 1).1;
        let d = known_dims(req)[n - 1];
        assert(p * d >= 1) by (nonlinear_arith)
            requires
                p >= 1,
                d >= 1,
        ;
    } else {
        assert(known_dims(req).take(0) =~= Seq::<usize>::empty());
    }
}

proof fn lemma_count_update_one(s: Seq<usize>, i: int, v: usize)
    requires
        0 <= i < s.len(),
        s[i] == 1,
    ensures
        element_count(s.update(i, v)) == element_count(s) * v,
    decreases s.len(),
{
    let t = s.update(i, v);
    if i == s.len() - 1 {
        assert(t.drop_last() =~= s.drop_last());
        assert(element_count(s) == element_count(s.drop_last()));
    } else {
        lemma_count_update_one(s.drop_last(), i, v);
        assert(t.drop_last() =~= s.drop_last().update(i, v));
        let a = element_count(s.drop_last());
        let l = s.last() as int;
        assert(a * v * l == a * l * v) by (nonlinear_arith);
    }
}

/// A reshape that succeeds keeps the element count and gives one size per
/// requested dimension.
pub proof fn law_reshape_keeps_elements(requested: Seq<isize>, numel: usize)
    requires
        reshape_spec(requested, numel as int) is Ok,
    ensures
        reshape_spec(requested, numel as int)->Ok_0.len() == requested.len(),
        element_count(reshape_spec(requested, numel as int)->Ok_0) == numel,
{
    let n = requested.len() as int;
    lemma_reshape_scan_product(requested, n);
    assert(known_dims(requested).take(n) =~= known_dims(requested));
    let p = scan_value(requested, n).1;
    match scan_value(requested, n).0 {
        Some(i) => {
            assert(known_dims(requested)[i] == 1);
            let q = numel as int / p;
            assert(q * p == numel) by (nonlinear_arith)
                requires
                    p >= 1,
                    numel as int % p == 0,
                    q == numel as int / p,
            ;
            assert(0 <= q <= numel) by (nonlinear_arith)
                requires
                    p >= 1,
                    q == numel as int / p,
                    numel >= 0,
            ;
            lemma_count_update_one(known_dims(requested), i, q as usize);
            assert(p * q == q * p) by (nonlinear_arith);
        },
        None => {},
    }
}

proof fn lemma_axes_scan_valid(raw: Seq<isize>, rank: int, label: Seq<char>, n: int)
    requires
        0 <= n,
        axes_scan(raw, rank, label, n) is Ok,
    ensures
        axes_scan(raw, rank, label, n)->Ok_0.no_duplicates(),
        axes_scan(raw, rank, label, n)->Ok_0.len() == n,
        forall|k: int| 0 <= k < n ==> #[trigger] axes_scan(raw, rank, label, n)->Ok_0[k] < rank,
    decreases n,
{
    if n > 0 {
        lemma_axes_scan_valid(raw, rank, label, n - 1);
        let prev = axes_scan(raw, rank, label, n - 1)->Ok_0;
        let cur = axes_scan(raw, rank, label, n)->Ok_0;
        assert forall|a: int, b: int| 0 <= a < b < cur.len() implies cur[a] != cur[b] by {
            if b == cur.len() - 1 {
                assert(cur[a] == prev[a]);
                assert(prev.contains(cur[a]));
            } else {
                assert(cur[a] == prev[a] && cur[b] == prev[b]);
            }
        }
        assert forall|k: int| 0 <= k < n implies #[trigger] cur[k] < rank by {
            if k < n - 1 {
                assert(cur[k] == prev[k]);
            }
        }
    }
}

/// Normalised axes are distinct, one per given dimension, and inside the rank.
pub proof fn law_axes_distinct_in_range(raw: Seq<isize>, rank: int, label: Seq<char>)
    requires
        axes_scan(raw, rank, label, raw.len() as int) is Ok,
    ensures
        axes_scan(raw, rank, label, raw.len() as int)->Ok_0.no_duplicates(),
        axes_scan(raw, rank, label, raw.len() as int)->Ok_0.len() == raw.len(),
        forall|k: int| 0 <= k < raw.len() ==> #[trigger] axes_scan(raw, rank, label, raw.len() as int)->Ok_0[k] < rank,
{
    lemma_axes_scan_valid(raw, rank, label, raw.len() as int);
}

proof fn lemma_index_list_in_range(items: Seq<ListIndexItem>, size: int, n: int)
    requires
        0 <= n,
        size <= isize::MAX,
        index_list_scan(items, size, n) is Ok,
    ensures
        index_list_scan(items, size, n)->Ok_0.len() == n,
        forall|k: int| 0 <= k < n ==> 0 <= #[trigger] index_list_scan(items, size, n)->Ok_0[k] < size,
    decreases n,
{
    if n > 0 {
        lemma_index_list_in_range(items, size, n - 1);
        let prev = index_list_scan(items, size, n - 1)->Ok_0;
        let cur = index_list_scan(items, size, n)->Ok_0;
        assert forall|k: int| 0 <= k < n implies 0 <= #[trigger] cur[k] < size by {
            if k < n - 1 {
                assert(cur[k] == prev[k]);
            }
        }
    }
}

/// Every position an accepted index list selects lies inside the axis, one per entry.
pub proof fn law_index_list_in_range(items: Seq<ListIndexItem>, size: int)
    requires
        index_list_spec(items, size) is Ok,
    ensures
        index_list_spec(items, size)->Ok_0.len() == items.len(),
        forall|k: int| 0 <= k < items.len() ==> 0 <= #[trigger] index_list_spec(items, size)->Ok_0[k] < size,
{
    lemma_index_list_in_range(items, size, items.len() as int);
}

proof fn lemma_expand_scan_shape(req: Seq<isize>, input: Seq<usize>, n: int)
    requires
        0 <= n <= req.len(),
        input.len() <= req.len(),
        expand_scan(req, input, n) is Ok,
    ensures
        expand_scan(req, input, n)->Ok_0.len() == n,
        forall|k: int| 0 <= k < n && k >= req.len() - input.len() ==> {
            let a = #[trigger] input[k - (req.len() - input.len())];
            a == 1 || a == expand_scan(req, input, n)->Ok_0[k]
        },
    decreases n,
{
    if n > 0 {
        lemma_expand_scan_shape(req, input, n - 1);
        let prev = expand_scan(req, input, n - 1)->Ok_0;
        let cur = expand_scan(req, input, n)->Ok_0;
        assert forall|k: int| 0 <= k < n && k >= req.len() - input.len() implies {
            let a = #[trigger] input[k - (req.len() - input.len())];
            a == 1 || a == cur[k]
        } by {
            if k < n - 1 {
                assert(cur[k] == prev[k]);
            }
        }
    }
}

/// An accepted expand has the requested rank, and every input axis is either one
/// or equal to the output axis it lines up with from the right.
pub proof fn law_expand_broadcasts(requested: Seq<isize>, input: Seq<usize>)
    requires
        expand_spec(requested, input) is Ok,
    ensures
        expand_spec(requested, input)->Ok_0.len() == requested.len(),
        forall|k: int| 0 <= k < input.len() ==> {
            let out = expand_spec(requested, input)->Ok_0;
            #[trigger] input[k] == 1 || input[k] == out[k + (requested.len() - input.len())]
        },
{
    lemma_expand_scan_shape(requested, input, requested.len() as int);
    let lead = requested.len() - input.len();
    assert forall|k: int| 0 <= k < input.len() implies {
        let out = expand_spec(requested, input)->Ok_0;
        #[trigger] input[k] == 1 || input[k] == out[k + lead]
    } by {
        assert(input[(k + lead) - lead] == input[k]);
    }
}

proof fn lemma_count_concat(a: Seq<usize>, b: Seq<usize>)
    ensures
        element_count(a + b) == element_count(a) * element_count(b),
    decreases b.len(),
{
    if b.len() == 0 {
        assert(a + b =~= a);
    } else {
        let b2 = b.drop_last();
        assert((a + b).drop_last() =~= a + b2);
        assert((a + b).last() == b.last());
        lemma_count_concat(a, b2);
        let x = element_count(a);
        let y = element_count(b2);
        let z = b.last() as int;
        assert((x * y) * z == x * (y * z)) by (nonlinear_arith);
    }
}

proof fn lemma_single_count(x: usize)
    ensures
        element_count(seq![x]) == x,
{
    assert(seq![x].drop_last() =~= Seq::<usize>::empty());
    assert(element_count(Seq::<usize>::empty()) == 1);
    assert(seq![x].last() == x);
    assert(element_count(seq![x]) == element_count(seq![x].drop_last()) * x);
}

proof fn lemma_checked_product_count(s: Seq<usize>, n: int)
    requires
        0 <= n <= s.len(),
        checked_product(s, n) is Some,
    ensures
        checked_product(s, n)->0 == element_count(s.take(n)),
        0 <= checked_product(s, n)->0 <= usize::MAX,
    decreases n,
{
    if n > 0 {
        lemma_checked_product_count(s, n - 1);
        assert(checked_product(s, n - 1)->0 * s[n - 1] >= 0) by (nonlinear_arith)
            requires
                checked_product(s, n - 1)->0 >= 0,
                s[n - 1] >= 0,
        ;
        assert(s.take(n).drop_last() =~= s.take(n - 1));
        assert(s.take(n).last() == s[n - 1]);
    } else {
        assert(s.take(0) =~= Seq::<usize>::empty());
    }
}

/// Flattening merges the axes `start..=end` into one whose size is the product of
/// theirs: the other axes keep their sizes and places, the rank drops by
/// `end - start`, and the number of elements is unchanged.
pub proof fn law_flatten_merges_axes(input: Seq<usize>, start: int, end: int)
    requires
        0 <= start <= end < input.len(),
        flatten_spec(input, start, end) is Ok,
    ensures
        ({
            let out = flatten_spec(input, start, end)->Ok_0;
            &&& out.len() == input.len() - (end - start)
            &&& out[start] as int == element_count(input.subrange(start, end + 1))
            &&& forall|k: int| 0 <= k < start ==> #[trigger] out[k] == input[k]
            &&& forall|k: int| start < k < out.len() ==> #[trigger] out[k] == input[k + (end - start)]
            &&& element_count(out) == element_count(input)
        }),
{
    let span = input.subrange(start, end + 1);
    let p = checked_product(span, end + 1 - start)->0;
    lemma_checked_product_count(span, end + 1 - start);
    assert(span.take(end + 1 - start) =~= span);
    let head = input.take(start);
    let tail = input.skip(end + 1);
    let out = flatten_spec(input, start, end)->Ok_0;
    assert(out == head.push(p as usize) + tail);
    assert(head.push(p as usize) =~= head + seq![p as usize]);
    lemma_single_count(p as usize);
    lemma_count_concat(head, seq![p as usize]);
    lemma_count_concat(head + seq![p as usize], tail);
    assert(input =~= (head + span) + tail);
    lemma_count_concat(head, span);
    lemma_count_concat(head + span, tail);
}

proof fn lemma_squeeze_keep_count(input: Seq<usize>, dim: Option<usize>, n: int)
    requires
        0 <= n <= input.len(),
    ensures
        element_count(squeeze_keep(input, dim, n)) == element_count(input.take(n)),
        squeeze_keep(input, dim, n).len() <= n,
    decreases n,
{
    if n == 0 {
        assert(input.take(0) =~= Seq::<usize>::empty());
    } else {
        lemma_squeeze_keep_count(input, dim, n - 1);
        assert(input.take(n).drop_last() =~= input.take(n - 1));
        assert(input.take(n).last() == input[n - 1]);
        let prev = squeeze_keep(input, dim, n - 1);
        let keep = squeeze_keep(input, dim, n);
        if keep != prev {
            assert(keep == prev.push(input[n - 1]));
            assert(keep.drop_last() =~= prev);
        }
    }
}

/// Squeezing removes only axes of size one: the number of elements is unchanged
/// and the rank never grows (an all-ones shape becomes `[1]`).
pub proof fn law_squeeze_keeps_elements(input: Seq<usize>, dim: Option<usize>)
    ensures
        element_count(squeeze_spec(input, dim)) == element_count(input),
        squeeze_spec(input, dim).len() <= input.len() || squeeze_spec(input, dim) == seq![1usize],
{
    lemma_squeeze_keep_count(input, dim, input.len() as int);
    assert(input.take(input.len() as int) =~= input);
    let kept = squeeze_keep(input, dim, input.len() as int);
    if kept.len() == 0 {
        assert(kept =~= Seq::<usize>::empty());
        assert(element_count(kept) == 1);
        lemma_single_count(1usize);
    }
}

/// A slice with a positive step that selects anything starts where Python's
/// `slice.indices` puts its start, keeps that step, and its range holds exactly as
/// many positions as the axis contributes to the output shape.
pub proof fn law_positive_slice_range(start: Option<isize>, stop: Option<isize>, step: Option<isize>, size: int, axis: int)
    requires
        0 <= size <= isize::MAX,
        slice_indices_spec(start, stop, step, size) is Ok,
        slice_indices_spec(start, stop, step, size)->Ok_0.2 > 0,
        slice_indices_spec(start, stop, step, size)->Ok_0.3 > 0,
    ensures
        ({
            let (s, e, st, n) = slice_indices_spec(start, stop, step, size)->Ok_0;
            let r = axis_index_spec(Some(IndexItem::Slice { start, stop, step }), size, axis);
            &&& r is Ok
            &&& r->Ok_0.0.start as int == s
            &&& r->Ok_0.0.step as int == st
            &&& r->Ok_0.0.end matches Some(end) && (end as int - s + st - 1) / st == n
            &&& r->Ok_0.1 == Some(n as usize)
            &&& 0 <= s < size
        }),
{
    let (s, e, st, n) = slice_indices_spec(start, stop, step, size)->Ok_0;
    assert(s < e);
    assert(0 <= s && e <= size);
    vstd::arithmetic::div_mod::lemma_div_plus_one(e - s - 1, st);
    assert(st + (e - s - 1) == e - s + st - 1);
}

} // verus!
