//! Tensor data given as nested sequences: the element type named by the caller,
//! and the shape and row-major values read from the nesting, which must be
//! rectangular.

use vstd::prelude::*;
use crate::shape::{arg_error_view, ArgErrorKind, ArgumentError};
use crate::text::{debug_str_string, debug_str_text, owned, str_eq, usize_list_string, usize_list_text};

verus! {

/// The element types tensor data can be read as.
#[derive(Debug, Clone, Copy, PartialEq, Eq, Structural)]
pub enum TensorDtype {
    Float32,
    Int64,
    Bool,
}

pub open spec fn tensor_dtype_of(name: Seq<char>) -> Option<TensorDtype> {
    if name == "float32"@ {
        Some(TensorDtype::Float32)
    } else if name == "int64"@ {
        Some(TensorDtype::Int64)
    } else if name == "bool"@ {
        Some(TensorDtype::Bool)
    } else {
        None
    }
}

/// Read an element type by name; without one, data is `float32`.
pub fn tensor_dtype(name: Option<&str>) -> (r: Result<TensorDtype, ArgumentError>)
    ensures
        ({
            let n = match name { Some(s) => s@, None => "float32"@ };
            match tensor_dtype_of(n) {
                Some(d) => r matches Ok(x) && x == d,
                None => r matches Err(e) && arg_error_view(e) == (ArgErrorKind::Value,
                    "unsupported Tensor dtype "@ + debug_str_text(n) + "; expected 'float32', 'int64', or 'bool'"@),
            }
        }),
{
    let n: &str = match name {
        Some(s) => s,
        None => "float32",
    };
    if str_eq(n, "float32") {
        Ok(TensorDtype::Float32)
    } else if str_eq(n, "int64") {
        Ok(TensorDtype::Int64)
    } else if str_eq(n, "bool") {
        Ok(TensorDtype::Bool)
    } else {
        let mut m = owned("unsupported Tensor dtype ");
        m.append(debug_str_string(n).as_str());
        m.append("; expected 'float32', 'int64', or 'bool'");
        Err(ArgumentError { kind: ArgErrorKind::Value, message: m })
    }
}

/// Tensor data as the caller nested it.
pub enum NestedData<T> {
    /// A scalar, or `None` when the value does not convert to the element type.
    Scalar(Option<T>),
    /// A list, tuple or range of nested data.
    Sequence(Vec<NestedData<T>>),
}

pub open spec fn msg_incompatible(what: Seq<char>) -> Seq<char> {
    what + " Tensor data must contain compatible scalar values"@
}

pub open spec fn msg_ragged(expected: Seq<usize>, got: Seq<usize>) -> Seq<char> {
    "Tensor data is ragged: expected nested shape "@ + usize_list_text(expected) + ", got "@ + usize_list_text(got)
}

pub open spec fn msg_empty_sequence() -> Seq<char> {
    "Tensor data cannot contain an empty list/tuple in v1"@
}

/// The values, in row-major order, and the shape of nested data: a scalar has no
/// dimensions; a sequence adds its length in front of the shape its items share.
pub open spec fn nested_values<T>(n: NestedData<T>, what: Seq<char>) -> Result<(Seq<T>, Seq<usize>), (ArgErrorKind, Seq<char>)>
    decreases n, 0int,
{
    match n {
        NestedData::Scalar(None) => Err((ArgErrorKind::Type, msg_incompatible(what))),
        NestedData::Scalar(Some(x)) => Ok((seq![x], Seq::empty())),
        NestedData::Sequence(items) => match items_values(items@, what, items@.len() as int) {
            Err(e) => Err(e),
            Ok((vals, None)) => Err((ArgErrorKind::Value, msg_empty_sequence())),
            Ok((vals, Some(child))) => Ok((vals, seq![items@.len() as usize] + child)),
        },
    }
}

/// The values of the first `k` items and the shape of the first item, each item
/// having to share that shape.
pub open spec fn items_values<T>(items: Seq<NestedData<T>>, what: Seq<char>, k: int)
    -> Result<(Seq<T>, Option<Seq<usize>>), (ArgErrorKind, Seq<char>)>
    decreases items, k,
{
    if k <= 0 || k > items.len() {
        Ok((Seq::empty(), None))
    } else {
        match items_values(items, what, k - 1) {
            Err(e) => Err(e),
            Ok((prev, first)) => match nested_values(items[k - 1], what) {
                Err(e) => Err(e),
                Ok((vals, shape)) => match first {
                    Some(expected) => if expected != shape {
                        Err((ArgErrorKind::Value, msg_ragged(expected, shape)))
                    } else {
                        Ok((prev + vals, first))
                    },
                    None => Ok((prev + vals, Some(shape))),
                },
            },
        }
    }
}

proof fn lemma_items_values_err<T>(items: Seq<NestedData<T>>, what: Seq<char>, m: int, n: int)
    requires
        1 <= m <= n <= items.len(),
        items_values(items, what, m) is Err,
    ensures
        items_values(items, what, n) == items_values(items, what, m),
    decreases n - m,
{
    if m < n {
        lemma_items_values_err(items, what, m, n - 1);
    }
}

fn sizes_equal(a: &Vec<usize>, b: &Vec<usize>) -> (r: bool)
    ensures
        r == (a@ == b@),
{
    if a.len() != b.len() {
        return false;
    }
    let mut i: usize = 0;
    while i < a.len()
        invariant
            i <= a@.len(),
            a@.len() == b@.len(),
            forall|k: int| 0 <= k < i ==> a@[k] == b@[k],
        decreases a.len() - i,
    {
        if a[i] != b[i] {
            return false;
        }
        i = i + 1;
    }
    assert(a@ =~= b@);
    true
}

fn read_nested<T: Copy>(n: &NestedData<T>, what: &str, values: &mut Vec<T>) -> (r: Result<Vec<usize>, ArgumentError>)
    ensures
        match nested_values(*n, what@) {
            Ok((vals, shape)) => r matches Ok(s) && s@ == shape && final(values)@ == old(values)@ + vals,
            Err(e) => r matches Err(x) && arg_error_view(x) == e,
        },
    decreases n,
{
    match n {
        NestedData::Scalar(None) => {
            let mut m = owned(what);
            m.append(" Tensor data must contain compatible scalar values");
            Err(ArgumentError { kind: ArgErrorKind::Type, message: m })
        },
        NestedData::Scalar(Some(x)) => {
            values.push(*x);
            proof {
                assert(values@ =~= old(values)@ + seq![*x]);
            }
            Ok(Vec::new())
        },
        NestedData::Sequence(items) => {
            let mut first: Option<Vec<usize>> = None;
            let mut i: usize = 0;
            let ghost start = values@;
            while i < items.len()
                invariant
                    i <= items@.len(),
                    *n == NestedData::Sequence(*items),
                    start == old(values)@,
                    match items_values(items@, what@, i as int) {
                        Ok((vals, f)) => values@ == start + vals && match (first, f) {
                            (Some(a), Some(b)) => a@ == b,
                            (None, None) => true,
                            _ => false,
                        },
                        Err(_) => false,
                    },
                decreases items.len() - i,
            {
                let ghost before = values@;
                proof {
                    assert(decreases_to!(*n => items@[i as int]));
                }
                let shape = match read_nested(&items[i], what, values) {
                    Err(e) => {
                        proof {
                            lemma_items_values_err(items@, what@, i + 1, items@.len() as int);
                        }
                        return Err(e);
                    },
                    Ok(s) => s,
                };
                match &first {
                    Some(expected) => {
                        if !sizes_equal(expected, &shape) {
                            let mut m = owned("Tensor data is ragged: expected nested shape ");
                            m.append(usize_list_string(expected.as_slice()).as_str());
                            m.append(", got ");
                            m.append(usize_list_string(shape.as_slice()).as_str());
                            proof {
                                lemma_items_values_err(items@, what@, i + 1, items@.len() as int);
                            }
                            return Err(ArgumentError { kind: ArgErrorKind::Value, message: m });
                        }
                    },
                    None => {
                        first = Some(shape);
                    },
                }
                proof {
                    assert(values@ =~= start + items_values(items@, what@, i + 1)->Ok_0.0);
                }
                i = i + 1;
            }
            match first {
                None => Err(ArgumentError { kind: ArgErrorKind::Value, message: owned("Tensor data cannot contain an empty list/tuple in v1") }),
                Some(child) => {
                    let mut out: Vec<usize> = Vec::new();
                    out.push(items.len());
                    let mut j: usize = 0;
                    while j < child.len()
                        invariant
                            j <= child@.len(),
                            out@ == seq![items@.len() as usize] + child@.take(j as int),
                        decreases child.len() - j,
                    {
                        out.push(child[j]);
                        proof {
                            assert(child@.take(j + 1) =~= child@.take(j as int).push(child@[j as int]));
                            assert(out@ =~= seq![items@.len() as usize] + child@.take(j + 1));
                        }
                        j = j + 1;
                    }
                    proof {
                        assert(child@.take(j as int) =~= child@);
                    }
                    Ok(out)
                },
            }
        },
    }
}

/// Read nested tensor data: its values in row-major order and its shape, a bare
/// scalar being a one-element tensor of shape `[1]`. Sequences must be non-empty
/// and rectangular, and every scalar must convert to the element type `what`.
pub fn tensor_data<T: Copy>(data: &NestedData<T>, what: &str) -> (r: Result<(Vec<T>, Vec<usize>), ArgumentError>)
    ensures
        match nested_values(*data, what@) {
            Ok((vals, shape)) => r matches Ok((v, s)) && v@ == vals
                && s@ == (if shape.len() == 0 { seq![1usize] } else { shape }),
            Err(e) => r matches Err(x) && arg_error_view(x) == e,
        },
{
    let mut values: Vec<T> = Vec::new();
    let mut shape = match read_nested(data, what, &mut values) {
        Err(e) => {
            return Err(e);
        },
        Ok(s) => s,
    };
    proof {
        assert(values@ =~= Seq::<T>::empty() + nested_values(*data, what@)->Ok_0.0);
    }
    if shape.len() == 0 {
        shape.push(1);
        proof {
            assert(shape@ =~= seq![1usize]);
        }
    }
    Ok((values, shape))
}

/// The number of elements of a shape.
pub open spec fn dims_product(s: Seq<usize>) -> int
    decreases s.len(),
{
    if s.len() == 0 {
        1
    } else {
        s[0] * dims_product(s.drop_first())
    }
}

/// Whether every trailing part of a shape has an element count that fits in `usize`.
pub open spec fn suffixes_fit(s: Seq<usize>) -> bool {
    forall|d: int| 0 <= d <= s.len() ==> #[trigger] dims_product(s.skip(d)) <= usize::MAX
}

/// `r` lays out `values`, row-major, as nested sequences of shape `shape`: one
/// sequence per leading index, scalars at the innermost level.
pub open spec fn nests<T>(r: NestedData<T>, values: Seq<T>, shape: Seq<usize>) -> bool
    decreases shape.len(),
{
    if shape.len() == 0 {
        false
    } else {
        match r {
            NestedData::Scalar(_) => false,
            NestedData::Sequence(items) => {
                &&& items@.len() == shape[0]
                &&& if shape.len() == 1 {
                    forall|k: int| 0 <= k < items@.len() ==> #[trigger] items@[k] == NestedData::Scalar(Some(values[k]))
                } else {
                    let rest = shape.drop_first();
                    let stride = dims_product(rest);
                    forall|k: int| 0 <= k < items@.len() ==>
                        nests(#[trigger] items@[k], values.subrange(k * stride, (k + 1) * stride), rest)
                }
            },
        }
    }
}

proof fn lemma_product_nonneg(s: Seq<usize>)
    ensures
        dims_product(s) >= 0,
    decreases s.len(),
{
    if s.len() > 0 {
        lemma_product_nonneg(s.drop_first());
        assert(s[0] * dims_product(s.drop_first()) >= 0) by (nonlinear_arith)
            requires
                s[0] >= 0,
                dims_product(s.drop_first()) >= 0,
        ;
    }
}

proof fn lemma_product_positive(s: Seq<usize>)
    requires
        forall|i: int| 0 <= i < s.len() ==> s[i] > 0,
    ensures
        dims_product(s) > 0,
    decreases s.len(),
{
    if s.len() > 0 {
        lemma_product_positive(s.drop_first());
        assert(s[0] * dims_product(s.drop_first()) > 0) by (nonlinear_arith)
            requires
                s[0] > 0,
                dims_product(s.drop_first()) > 0,
        ;
    }
}

fn suffix_product(shape: &[usize], from: usize) -> (r: usize)
    requires
        from <= shape@.len(),
        suffixes_fit(shape@),
    ensures
        r == dims_product(shape@.skip(from as int)),
{
    let mut p: usize = 1;
    let mut j: usize = shape.len();
    proof {
        assert(shape@.skip(shape@.len() as int) =~= Seq::<usize>::empty());
    }
    while j > from
        invariant
            from <= j <= shape@.len(),
            suffixes_fit(shape@),
            p == dims_product(shape@.skip(j as int)),
        decreases j - from,
    {
        proof {
            assert(shape@.skip(j - 1).drop_first() =~= shape@.skip(j as int));
            assert(dims_product(shape@.skip(j - 1)) <= usize::MAX);
        }
        p = shape[j - 1] * p;
        j = j - 1;
    }
    p
}

fn nest_from<T: Copy>(values: &[T], start: usize, shape: &[usize], depth: usize) -> (r: NestedData<T>)
    requires
        depth < shape@.len(),
        suffixes_fit(shape@),
        start + dims_product(shape@.skip(depth as int)) <= values@.len(),
    ensures
        nests(r, values@.subrange(start as int, start + dims_product(shape@.skip(depth as int))), shape@.skip(depth as int)),
    decreases shape@.len() - depth,
{
    let ghost here = shape@.skip(depth as int);
    let n = shape[depth];
    let total = values.len();
    proof {
        assert(here[0] == n);
        assert(here.drop_first() =~= shape@.skip(depth + 1));
        lemma_product_nonneg(shape@.skip(depth + 1));
    }
    let mut items: Vec<NestedData<T>> = Vec::new();
    if depth + 1 == shape.len() {
        proof {
            assert(shape@.skip(depth + 1) =~= Seq::<usize>::empty());
            assert(dims_product(here) == n * 1);
        }
        let mut k: usize = 0;
        while k < n
            invariant
                k <= n,
                n == shape@[depth as int],
                depth + 1 == shape@.len(),
                start + n <= values@.len(),
                values@.len() <= usize::MAX,
                items@.len() == k,
                forall|j: int| 0 <= j < k ==> #[trigger] items@[j] == NestedData::Scalar(Some(values@[start + j])),
            decreases n - k,
        {
            items.push(NestedData::Scalar(Some(values[start + k])));
            k = k + 1;
        }
        let r = NestedData::Sequence(items);
        proof {
            let vals = values@.subrange(start as int, start + dims_product(here));
            assert forall|j: int| 0 <= j < items@.len() implies #[trigger] items@[j] == NestedData::Scalar(Some(vals[j])) by {}
        }
        return r;
    }
    let stride = suffix_product(shape, depth + 1);
    let next_depth = depth + 1;
    proof {
        assert(dims_product(here) == n * stride);
    }
    let mut k: usize = 0;
    while k < n
        invariant
            k <= n,
            depth + 1 < shape@.len(),
            next_depth == depth + 1,
            n == shape@[depth as int],
            stride == dims_product(shape@.skip(depth + 1)),
            suffixes_fit(shape@),
            start + n * stride <= values@.len(),
            values@.len() <= usize::MAX,
            items@.len() == k,
            forall|j: int| 0 <= j < k ==> nests(#[trigger] items@[j],
                values@.subrange(start + j * stride, start + (j + 1) * stride), shape@.skip(depth + 1)),
        decreases n - k,
    {
        proof {
            assert((k + 1) * stride <= n * stride) by (nonlinear_arith)
                requires
                    k + 1 <= n,
                    stride >= 0,
            ;
            assert(k * stride + stride == (k + 1) * stride) by (nonlinear_arith);
            assert(k * stride <= n * stride) by (nonlinear_arith)
                requires
                    k <= n,
                    stride >= 0,
            ;
        }
        let child = nest_from(values, start + k * stride, shape, next_depth);
        items.push(child);
        k = k + 1;
    }
    let r = NestedData::Sequence(items);
    proof {
        let vals = values@.subrange(start as int, start + dims_product(here));
        let rest = here.drop_first();
        assert forall|j: int| 0 <= j < items@.len() implies
            nests(#[trigger] items@[j], vals.subrange(j * stride, (j + 1) * stride), rest) by {
            assert((j + 1) * stride <= n * stride) by (nonlinear_arith)
                requires
                    j + 1 <= n,
                    stride >= 0,
            ;
            assert(j * stride >= 0) by (nonlinear_arith)
                requires
                    j >= 0,
                    stride >= 0,
            ;
            assert(j * stride + stride == (j + 1) * stride) by (nonlinear_arith);
            assert(vals.len() == n * stride);
            assert(vals.subrange(j * stride, (j + 1) * stride)
                =~= values@.subrange(start + j * stride, start + (j + 1) * stride));
        }
    }
    r
}

/// Lay out values, row-major, as nested sequences of the given shape, as a
/// tensor's `tolist` does.
pub fn nested_from_values<T: Copy>(values: &[T], shape: &[usize]) -> (r: NestedData<T>)
    requires
        shape@.len() >= 1,
        suffixes_fit(shape@),
        values@.len() == dims_product(shape@),
    ensures
        nests(r, values@, shape@),
{
    proof {
        assert(shape@.skip(0) =~= shape@);
    }
    let r = nest_from(values, 0, shape, 0);
    proof {
        assert(values@.subrange(0, dims_product(shape@)) =~= values@);
    }
    r
}

proof fn lemma_items_read_back<T>(items: Seq<NestedData<T>>, values: Seq<T>, rest: Seq<usize>, stride: int, what: Seq<char>, k: int)
    requires
        1 <= k <= items.len(),
        stride >= 0,
        items.len() * stride <= values.len(),
        forall|j: int| 0 <= j < items.len() ==> #[trigger] nested_values(items[j], what)
            == Ok::<(Seq<T>, Seq<usize>), (ArgErrorKind, Seq<char>)>((values.subrange(j * stride, (j + 1) * stride), rest)),
    ensures
        items_values(items, what, k) == Ok::<(Seq<T>, Option<Seq<usize>>), (ArgErrorKind, Seq<char>)>((values.take(k * stride), Some(rest))),
    decreases k,
{
    assert((k - 1) * stride >= 0 && k * stride <= items.len() * stride && (k - 1) * stride + stride == k * stride)
        by (nonlinear_arith)
        requires
            1 <= k <= items.len(),
            stride >= 0,
    ;
    let chunk = values.subrange((k - 1) * stride, k * stride);
    assert(nested_values(items[k - 1], what) == Ok::<(Seq<T>, Seq<usize>), (ArgErrorKind, Seq<char>)>((chunk, rest)));
    if k == 1 {
        assert((k - 1) * stride == 0 && k * stride == stride) by (nonlinear_arith)
            requires
                k == 1,
        ;
        assert(items_values(items, what, 0) == Ok::<(Seq<T>, Option<Seq<usize>>), (ArgErrorKind, Seq<char>)>((Seq::empty(), None)));
        assert(Seq::<T>::empty() + chunk =~= values.take(stride));
    } else {
        lemma_items_read_back(items, values, rest, stride, what, k - 1);
        assert(values.take((k - 1) * stride) + chunk =~= values.take(k * stride));
    }
}

/// Reading back what `nested_from_values` lays out gives the same values and shape,
/// for every shape without an empty dimension.
pub proof fn law_nested_reads_back<T>(r: NestedData<T>, values: Seq<T>, shape: Seq<usize>, what: Seq<char>)
    requires
        shape.len() >= 1,
        forall|i: int| 0 <= i < shape.len() ==> shape[i] > 0,
        values.len() == dims_product(shape),
        nests(r, values, shape),
    ensures
        nested_values(r, what) == Ok::<(Seq<T>, Seq<usize>), (ArgErrorKind, Seq<char>)>((values, shape)),
    decreases shape.len(),
{
    let items = r->Sequence_0;
    let n = shape[0] as int;
    let rest = shape.drop_first();
    lemma_product_positive(rest);
    let stride = dims_product(rest);
    assert(dims_product(shape) == n * stride);
    assert(n * stride == values.len());
    if shape.len() == 1 {
        assert(rest =~= Seq::<usize>::empty());
        assert(stride == 1);
        assert(n * stride == n) by (nonlinear_arith)
            requires
                stride == 1,
        ;
        assert forall|j: int| 0 <= j < items@.len() implies #[trigger] nested_values(items@[j], what)
            == Ok::<(Seq<T>, Seq<usize>), (ArgErrorKind, Seq<char>)>((values.subrange(j * stride, (j + 1) * stride), rest)) by {
            assert(j * stride == j && (j + 1) * stride == j + 1) by (nonlinear_arith)
                requires
                    stride == 1,
            ;
            assert(items@[j] == NestedData::Scalar(Some(values[j])));
            assert(values.subrange(j * stride, (j + 1) * stride) =~= seq![values[j]]);
        }
    } else {
        assert forall|j: int| 0 <= j < items@.len() implies #[trigger] nested_values(items@[j], what)
            == Ok::<(Seq<T>, Seq<usize>), (ArgErrorKind, Seq<char>)>((values.subrange(j * stride, (j + 1) * stride), rest)) by {
            assert(0 <= j * stride && (j + 1) * stride <= n * stride && (j + 1) * stride - j * stride == stride) by (nonlinear_arith)
                requires
                    0 <= j < n,
                    stride > 0,
            ;
            assert(nests(items@[j], values.subrange(j * stride, (j + 1) * stride), rest));
            law_nested_reads_back(items@[j], values.subrange(j * stride, (j + 1) * stride), rest, what);
        }
    }
    lemma_items_read_back(items@, values, rest, stride, what, n);
    assert(values.take(n * stride) =~= values);
    assert(seq![items@.len() as usize] + rest =~= shape);
}

proof fn lemma_values_fill_shape<T>(d: NestedData<T>, what: Seq<char>)
    requires
        nested_values(d, what) is Ok,
    ensures
        nested_values(d, what)->Ok_0.0.len() == dims_product(nested_values(d, what)->Ok_0.1),
    decreases d, 0int,
{
    match d {
        NestedData::Scalar(x) => {
            assert(dims_product(Seq::<usize>::empty()) == 1);
            assert(nested_values(d, what)->Ok_0.1 =~= Seq::<usize>::empty());
        },
        NestedData::Sequence(items) => {
            let child = items_values(items@, what, items@.len() as int)->Ok_0.1->0;
            lemma_items_split(items@, what, items@.len() as int);
            vstd::std_specs::vec::axiom_spec_len(&items);
            let shape = seq![items@.len() as usize] + child;
            assert(shape.drop_first() =~= child);
            assert(shape[0] == items@.len());
            assert(dims_product(shape) == items@.len() * dims_product(child));
        },
    }
}

/// When the first `k` items read as one shared shape, each item's values are
/// its slice of the whole, in order.
proof fn lemma_items_split<T>(items: Seq<NestedData<T>>, what: Seq<char>, k: int)
    requires
        0 <= k <= items.len(),
        items_values(items, what, k) is Ok,
    ensures
        ({
            let (vals, first) = items_values(items, what, k)->Ok_0;
            &&& k > 0 ==> first is Some
            &&& k == 0 ==> first is None && vals.len() == 0
            &&& first matches Some(child) ==> {
                let stride = dims_product(child);
                &&& vals.len() == k * stride
                &&& forall|j: int| 0 <= j < k ==> #[trigger] nested_values(items[j], what)
                    == Ok::<(Seq<T>, Seq<usize>), (ArgErrorKind, Seq<char>)>((vals.subrange(j * stride, (j + 1) * stride), child))
            }
        }),
    decreases items, k,
{
    if k > 0 {
        lemma_items_split(items, what, k - 1);
        let (prev, first) = items_values(items, what, k - 1)->Ok_0;
        let (vals, shape) = nested_values(items[k - 1], what)->Ok_0;
        assert(decreases_to!(items => items[k - 1]));
        lemma_values_fill_shape(items[k - 1], what);
        let child = items_values(items, what, k)->Ok_0.1->0;
        let stride = dims_product(child);
        lemma_product_nonneg(child);
        let all = prev + vals;
        assert((k - 1) * stride + stride == k * stride) by (nonlinear_arith);
        assert forall|j: int| 0 <= j < k implies #[trigger] nested_values(items[j], what)
            == Ok::<(Seq<T>, Seq<usize>), (ArgErrorKind, Seq<char>)>((all.subrange(j * stride, (j + 1) * stride), child)) by {
            if j < k - 1 {
                assert(0 <= j * stride && (j + 1) * stride <= (k - 1) * stride && j * stride + stride == (j + 1) * stride)
                    by (nonlinear_arith)
                    requires
                        0 <= j < k - 1,
                        stride >= 0,
                ;
                assert(all.subrange(j * stride, (j + 1) * stride) =~= prev.subrange(j * stride, (j + 1) * stride));
            } else {
                assert(all.subrange(j * stride, (j + 1) * stride) =~= vals);
            }
        }
    }
}

proof fn lemma_scalar_shape<T>(d: NestedData<T>, what: Seq<char>)
    requires
        nested_values(d, what) is Ok,
        nested_values(d, what)->Ok_0.1.len() == 0,
    ensures
        d matches NestedData::Scalar(Some(x)) && nested_values(d, what)->Ok_0.0 == seq![x],
{
}

/// Nested data that reads as a tensor of rank one or more is exactly the layout
/// of its values in its shape: laying the values out again gives it back.
pub proof fn law_read_data_nests<T>(d: NestedData<T>, what: Seq<char>)
    requires
        nested_values(d, what) is Ok,
        nested_values(d, what)->Ok_0.1.len() >= 1,
    ensures
        nests(d, nested_values(d, what)->Ok_0.0, nested_values(d, what)->Ok_0.1),
    decreases d, 0int,
{
    let items = d->Sequence_0;
    let n = items@.len() as int;
    lemma_items_split(items@, what, n);
    let (vals, first) = items_values(items@, what, n)->Ok_0;
    let child = first->0;
    vstd::std_specs::vec::axiom_spec_len(&items);
    let shape = seq![n as usize] + child;
    assert(shape.drop_first() =~= child);
    assert(shape[0] == n);
    assert(nested_values(d, what)->Ok_0 == (vals, shape));
    let stride = dims_product(child);
    if child.len() == 0 {
        assert(stride == 1);
        assert forall|k: int| 0 <= k < n implies #[trigger] items@[k] == NestedData::Scalar(Some(vals[k])) by {
            assert(k * stride == k && (k + 1) * stride == k + 1) by (nonlinear_arith)
                requires
                    stride == 1,
            ;
            lemma_scalar_shape(items@[k], what);
            assert(vals.subrange(k, k + 1)[0] == vals[k]);
        }
    } else {
        assert forall|k: int| 0 <= k < n implies nests(#[trigger] items@[k], vals.subrange(k * stride, (k + 1) * stride), child) by {
            assert(decreases_to!(d => items@[k]));
            law_read_data_nests(items@[k], what);
        }
    }
}

} // verus!
