//! Argument rules of the sequence operations: the dtype agreement of `cat` and
//! `stack`, the per-axis steps of `roll`, and the shapes of `meshgrid`.

use vstd::prelude::*;
use crate::graph::DType;
use crate::parameter::DeviceInfo;
use crate::shape::{arg_error_view, checked_product, lemma_checked_product_none, ArgErrorKind, ArgumentError, MAX_RANK};
use crate::text::{debug_str_string, debug_str_text, decimal, i64_text, int_text, owned, str_eq, usize_text};

verus! {

// ---------------------------------------------------------------------------
// cat and stack
// ---------------------------------------------------------------------------

/// Tensors joined by `cat` or `stack` must share one dtype.
pub fn check_same_dtype(dtypes: &[DType], operation: &str) -> (r: Result<(), ArgumentError>)
    ensures
        (forall|i: int| 0 <= i < dtypes@.len() ==> #[trigger] dtypes@[i] == dtypes@[0]) ==> r is Ok,
        !(forall|i: int| 0 <= i < dtypes@.len() ==> #[trigger] dtypes@[i] == dtypes@[0]) ==> (r matches Err(e)
            && arg_error_view(e) == (ArgErrorKind::Type, operation@ + " requires all tensors to have the same dtype"@)),
{
    let mut i: usize = 1;
    while i < dtypes.len()
        invariant
            1 <= i || dtypes@.len() == 0,
            i <= dtypes@.len() || dtypes@.len() == 0,
            forall|k: int| 0 <= k < i && k < dtypes@.len() ==> #[trigger] dtypes@[k] == dtypes@[0],
        decreases dtypes.len() - i,
    {
        if dtypes[i] != dtypes[0] {
            let mut m = owned(operation);
            m.append(" requires all tensors to have the same dtype");
            return Err(ArgumentError { kind: ArgErrorKind::Type, message: m });
        }
        i = i + 1;
    }
    Ok(())
}

// ---------------------------------------------------------------------------
// roll
// ---------------------------------------------------------------------------

/// One rotation of `roll`: along `axis`, the last `shift` entries move to the
/// front, so the entries before `split` follow them.
#[derive(Debug, Clone, Copy, PartialEq, Eq, Structural)]
pub struct RollStep {
    pub axis: usize,
    pub shift: usize,
    pub split: usize,
}

/// The rotations that make up a `roll`, applied in order, and whether the tensor
/// is rolled as one flat dimension (reshaped back afterwards).
#[derive(Debug, Clone, PartialEq, Eq)]
pub struct RollPlan {
    pub flattened: bool,
    pub steps: Vec<RollStep>,
}

/// The shape `roll` rotates: the tensor's own, or one dimension holding every
/// element when no dimensions are given.
pub open spec fn roll_shape(shape: Seq<usize>, flattened: bool) -> Seq<usize> {
    if flattened {
        seq![checked_product(shape, shape.len() as int)->0 as usize]
    } else {
        shape
    }
}

/// What one (shift, dimension) pair asks of a tensor of shape `s`: nothing, when
/// the dimension is empty or the shift is a whole number of turns; else a rotation.
pub open spec fn roll_step(shift: i64, dim: i64, s: Seq<usize>) -> Result<Option<RollStep>, (ArgErrorKind, Seq<char>)> {
    let rank = s.len() as int;
    if !(-rank <= dim < rank) {
        Err((ArgErrorKind::Index, "roll dimension "@ + int_text(dim as int) + " out of range for rank "@ + decimal(rank as nat)))
    } else {
        let axis = if dim < 0 { rank + dim } else { dim as int };
        let size = s[axis] as int;
        if size == 0 {
            Ok(None)
        } else if size > i64::MAX {
            Err((ArgErrorKind::Value, "roll dimension exceeds integer limits"@))
        } else {
            let k = (shift as int) % size;
            if k == 0 {
                Ok(None)
            } else if size > isize::MAX {
                Err((ArgErrorKind::Value, "roll dimension exceeds index limits"@))
            } else {
                Ok(Some(RollStep { axis: axis as usize, shift: k as usize, split: (size - k) as usize }))
            }
        }
    }
}

/// The rotations asked by the first `n` pairs, or the first refusal.
pub open spec fn roll_steps(shifts: Seq<i64>, dims: Seq<i64>, s: Seq<usize>, n: int)
    -> Result<Seq<RollStep>, (ArgErrorKind, Seq<char>)>
    decreases n,
{
    if n <= 0 {
        Ok(Seq::empty())
    } else {
        match roll_steps(shifts, dims, s, n - 1) {
            Err(e) => Err(e),
            Ok(prev) => match roll_step(shifts[n - 1], dims[n - 1], s) {
                Err(e) => Err(e),
                Ok(None) => Ok(prev),
                Ok(Some(step)) => Ok(prev.push(step)),
            },
        }
    }
}

/// What `roll` does with its arguments: shifts and dimensions pair up one to one,
/// or a single shift rolls the flattened tensor.
pub open spec fn roll_outcome(shifts: Seq<i64>, dims: Option<Seq<i64>>, shape: Seq<usize>)
    -> Result<(bool, Seq<RollStep>), (ArgErrorKind, Seq<char>)>
{
    let aligned = match dims {
        Some(d) => d.len() == shifts.len(),
        None => shifts.len() == 1,
    };
    if !aligned {
        Err((ArgErrorKind::Value, "roll shifts and dimensions must align"@))
    } else {
        let flattened = dims is None;
        let d = match dims { Some(d) => d, None => seq![0i64] };
        match roll_steps(shifts, d, roll_shape(shape, flattened), shifts.len() as int) {
            Err(e) => Err(e),
            Ok(steps) => Ok((flattened, steps)),
        }
    }
}

fn roll_step_exec(shift: i64, dim: i64, s: &[usize]) -> (r: Result<Option<RollStep>, ArgumentError>)
    requires
        s@.len() <= MAX_RANK,
    ensures
        match r {
            Ok(x) => roll_step(shift, dim, s@) == Ok::<Option<RollStep>, (ArgErrorKind, Seq<char>)>(x),
            Err(e) => roll_step(shift, dim, s@) == Err::<Option<RollStep>, (ArgErrorKind, Seq<char>)>(arg_error_view(e)),
        },
{
    let rank: i64 = s.len() as i64;
    if !(-rank <= dim && dim < rank) {
        let mut m = owned("roll dimension ");
        m.append(i64_text(dim).as_str());
        m.append(" out of range for rank ");
        m.append(i64_text(rank).as_str());
        return Err(ArgumentError { kind: ArgErrorKind::Index, message: m });
    }
    let axis: usize = if dim < 0 { (rank + dim) as usize } else { dim as usize };
    let size = s[axis];
    if size == 0 {
        return Ok(None);
    }
    if size as u128 > i64::MAX as u128 {
        return Err(ArgumentError { kind: ArgErrorKind::Value, message: owned("roll dimension exceeds integer limits") });
    }
    let n: u64 = size as u64;
    let k: u64 = if shift >= 0 {
        let a: u64 = shift as u64;
        let m = a % n;
        proof {
            vstd::arithmetic::div_mod::lemma_fundamental_div_mod(a as int, n as int);
            vstd::arithmetic::div_mod::lemma_fundamental_div_mod_converse(shift as int, n as int, (a / n) as int, m as int);
        }
        m
    } else {
        let a: u64 = (0i128 - shift as i128) as u64;
        let m = a % n;
        proof {
            vstd::arithmetic::div_mod::lemma_fundamental_div_mod(a as int, n as int);
            let q = (a / n) as int;
            if m == 0 {
                assert(shift as int == (-q) * n + 0) by (nonlinear_arith)
                    requires
                        a as int == n * q + m,
                        m == 0,
                        shift as int == -(a as int),
                ;
                vstd::arithmetic::div_mod::lemma_fundamental_div_mod_converse(shift as int, n as int, -q, 0);
            } else {
                assert(shift as int == (-q - 1) * n + (n - m)) by (nonlinear_arith)
                    requires
                        a as int == n * q + m,
                        shift as int == -(a as int),
                ;
                vstd::arithmetic::div_mod::lemma_fundamental_div_mod_converse(shift as int, n as int, -q - 1, n - m);
            }
        }
        if m == 0 { 0 } else { n - m }
    };
    if k == 0 {
        return Ok(None);
    }
    if size as u128 > isize::MAX as u128 {
        return Err(ArgumentError { kind: ArgErrorKind::Value, message: owned("roll dimension exceeds index limits") });
    }
    Ok(Some(RollStep { axis, shift: k as usize, split: size - k as usize }))
}

proof fn lemma_roll_steps_err(shifts: Seq<i64>, dims: Seq<i64>, s: Seq<usize>, m: int, n: int)
    requires
        0 <= m <= n,
        roll_steps(shifts, dims, s, m) is Err,
    ensures
        roll_steps(shifts, dims, s, n) == roll_steps(shifts, dims, s, m),
    decreases n - m,
{
    if m < n {
        lemma_roll_steps_err(shifts, dims, s, m, n - 1);
    }
}

/// Plan a `roll`: check that shifts and dimensions align, normalise each dimension
/// against the rank and each shift into `0..size`, and keep the rotations that
/// move anything. Without dimensions the single shift rolls the flattened tensor.
pub fn roll_plan(shifts: &[i64], dims: Option<&[i64]>, shape: &[usize]) -> (r: Result<RollPlan, ArgumentError>)
    requires
        shape@.len() <= MAX_RANK,
        checked_product(shape@, shape@.len() as int) is Some,
    ensures
        ({
            let d = match dims { Some(d) => Some(d@), None => None };
            match r {
                Ok(p) => roll_outcome(shifts@, d, shape@) == Ok::<(bool, Seq<RollStep>), (ArgErrorKind, Seq<char>)>((p.flattened, p.steps@)),
                Err(e) => roll_outcome(shifts@, d, shape@) == Err::<(bool, Seq<RollStep>), (ArgErrorKind, Seq<char>)>(arg_error_view(e)),
            }
        }),
{
    let aligned = match dims {
        Some(d) => d.len() == shifts.len(),
        None => shifts.len() == 1,
    };
    if !aligned {
        return Err(ArgumentError { kind: ArgErrorKind::Value, message: owned("roll shifts and dimensions must align") });
    }
    let flattened = dims.is_none();
    let zero: Vec<i64> = vec![0i64];
    let d: &[i64] = match dims {
        Some(d) => d,
        None => zero.as_slice(),
    };
    proof {
        assert(zero@ =~= seq![0i64]);
    }
    let mut working: Vec<usize> = Vec::new();
    if flattened {
        let mut total: usize = 1;
        let mut j: usize = 0;
        while j < shape.len()
            invariant
                j <= shape@.len(),
                checked_product(shape@, shape@.len() as int) is Some,
                checked_product(shape@, j as int) == Some(total as int),
            decreases shape.len() - j,
        {
            proof {
                if checked_product(shape@, j + 1) is None {
                    lemma_checked_product_none(shape@, j + 1, shape@.len() as int);
                }
            }
            total = total * shape[j];
            j = j + 1;
        }
        working.push(total);
        proof {
            assert(working@ =~= roll_shape(shape@, true));
        }
    } else {
        let mut j: usize = 0;
        while j < shape.len()
            invariant
                j <= shape@.len(),
                working@ == shape@.take(j as int),
            decreases shape.len() - j,
        {
            working.push(shape[j]);
            proof {
                assert(shape@.take(j + 1) =~= shape@.take(j as int).push(shape@[j as int]));
            }
            j = j + 1;
        }
        proof {
            assert(shape@.take(j as int) =~= shape@);
        }
    }
    let ghost ws = working@;
    let mut steps: Vec<RollStep> = Vec::new();
    let mut i: usize = 0;
    while i < shifts.len()
        invariant
            i <= shifts@.len(),
            d@.len() == shifts@.len(),
            ws == working@,
            ws == roll_shape(shape@, flattened),
            flattened == (dims is None),
            d@ == (match dims { Some(x) => x@, None => seq![0i64] }),
            ws.len() <= MAX_RANK,
            roll_steps(shifts@, d@, ws, i as int) == Ok::<Seq<RollStep>, (ArgErrorKind, Seq<char>)>(steps@),
        decreases shifts.len() - i,
    {
        match roll_step_exec(shifts[i], d[i], working.as_slice()) {
            Err(e) => {
                proof {
                    lemma_roll_steps_err(shifts@, d@, ws, i + 1, shifts@.len() as int);
                }
                return Err(e);
            },
            Ok(None) => {},
            Ok(Some(step)) => {
                steps.push(step);
            },
        }
        i = i + 1;
    }
    Ok(RollPlan { flattened, steps })
}

// ---------------------------------------------------------------------------
// meshgrid
// ---------------------------------------------------------------------------

/// What `meshgrid` reads of one input tensor.
#[derive(Debug, Clone)]
pub struct MeshInput {
    pub shape: Vec<usize>,
    pub dtype: DType,
    pub device: DeviceInfo,
}

/// The shapes `meshgrid` produces: the common output shape, and for each input
/// the shape it is viewed as before it is expanded to the output shape.
#[derive(Debug, Clone, PartialEq, Eq)]
pub struct MeshShapes {
    pub output: Vec<usize>,
    pub views: Vec<Vec<usize>>,
}

/// The axis input `i` of `n` spans: with `xy` indexing the first two swap places.
pub open spec fn mesh_axis(i: int, xy: bool) -> int {
    if xy && i < 2 { 1 - i } else { i }
}

/// The output shape: each input's length in its axis.
pub open spec fn mesh_output(lengths: Seq<usize>, xy: bool) -> Seq<usize> {
    Seq::new(lengths.len(), |a: int| if xy && lengths.len() >= 2 && a < 2 { lengths[1 - a] } else { lengths[a] })
}

/// The view shape of input `i`: its length at its axis, one elsewhere.
pub open spec fn mesh_view(lengths: Seq<usize>, i: int, xy: bool) -> Seq<usize> {
    Seq::new(lengths.len(), |a: int| if a == mesh_axis(i, xy) { lengths[i] } else { 1usize })
}

pub open spec fn same_device(a: DeviceInfo, b: DeviceInfo) -> bool {
    a.name@ == b.name@ && a.autodiff == b.autodiff
}

/// The first refusal of a `meshgrid` call, if any.
pub open spec fn mesh_problem(inputs: Seq<MeshInput>, indexing: Option<Seq<char>>) -> Option<(ArgErrorKind, Seq<char>)> {
    let ix = match indexing { Some(i) => i, None => "ij"@ };
    if inputs.len() == 0 {
        Some((ArgErrorKind::Value, "meshgrid inputs expects a non-empty tensor sequence"@))
    } else if inputs.len() > MAX_RANK {
        Some((ArgErrorKind::Value, "meshgrid input count "@ + decimal(inputs.len()) + " exceeds the maximum rank 6"@))
    } else if exists|i: int| 0 <= i < inputs.len() && (#[trigger] inputs[i]).shape@.len() != 1 {
        Some((ArgErrorKind::Value, "meshgrid expects every input Tensor to be rank-1"@))
    } else if exists|i: int| 0 <= i < inputs.len() && (#[trigger] inputs[i]).dtype != inputs[0].dtype {
        Some((ArgErrorKind::Type, "meshgrid expects all inputs to have the same dtype"@))
    } else if exists|i: int| 0 <= i < inputs.len() && !same_device(#[trigger] inputs[i].device, inputs[0].device) {
        Some((ArgErrorKind::Value, "meshgrid expects all inputs to be on the same device"@))
    } else if ix != "ij"@ && ix != "xy"@ {
        Some((ArgErrorKind::Value, "meshgrid indexing must be 'ij' or 'xy', got "@ + debug_str_text(ix)))
    } else {
        None
    }
}

/// Each input's length.
pub open spec fn mesh_lengths(inputs: Seq<MeshInput>) -> Seq<usize> {
    inputs.map_values(|m: MeshInput| m.shape@[0])
}

/// Check the inputs of `meshgrid` and give the shapes it produces. Inputs must be
/// rank-1, of one dtype and on one device, at most as many as the maximum rank;
/// indexing is `ij` (the default) or `xy`, which swaps the first two axes.
pub fn meshgrid_shapes(inputs: &[MeshInput], indexing: Option<&str>) -> (r: Result<MeshShapes, ArgumentError>)
    requires
        inputs@.len() == 1 ==> indexing != Some("xy"),
    ensures
        ({
            let ix = match indexing { Some(i) => Some(i@), None => None };
            match mesh_problem(inputs@, ix) {
                Some(e) => r matches Err(x) && arg_error_view(x) == e,
                None => r matches Ok(s) && ({
                    let lengths = mesh_lengths(inputs@);
                    let xy = ix == Some("xy"@);
                    &&& s.output@ == mesh_output(lengths, xy)
                    &&& s.views@.len() == inputs@.len()
                    &&& forall|i: int| 0 <= i < inputs@.len() ==> (#[trigger] s.views@[i])@ == mesh_view(lengths, i, xy)
                }),
            }
        }),
{
    let n = inputs.len();
    if n == 0 {
        return Err(ArgumentError { kind: ArgErrorKind::Value, message: owned("meshgrid inputs expects a non-empty tensor sequence") });
    }
    if n > MAX_RANK {
        let mut m = owned("meshgrid input count ");
        m.append(usize_text(n).as_str());
        m.append(" exceeds the maximum rank 6");
        return Err(ArgumentError { kind: ArgErrorKind::Value, message: m });
    }
    let mut i: usize = 0;
    while i < n
        invariant
            i <= n,
            n == inputs@.len(),
            n > 0,
            n <= MAX_RANK,
            forall|k: int| 0 <= k < i ==> (#[trigger] inputs@[k]).shape@.len() == 1,
        decreases n - i,
    {
        if inputs[i].shape.len() != 1 {
            proof {
                assert(inputs@[i as int].shape@.len() != 1);
            }
            return Err(ArgumentError { kind: ArgErrorKind::Value, message: owned("meshgrid expects every input Tensor to be rank-1") });
        }
        i = i + 1;
    }
    let mut i: usize = 0;
    while i < n
        invariant
            i <= n,
            n == inputs@.len(),
            n > 0,
            n <= MAX_RANK,
            forall|k: int| 0 <= k < n ==> (#[trigger] inputs@[k]).shape@.len() == 1,
            forall|k: int| 0 <= k < i ==> (#[trigger] inputs@[k]).dtype == inputs@[0].dtype,
        decreases n - i,
    {
        if inputs[i].dtype != inputs[0].dtype {
            proof {
                assert(inputs@[i as int].dtype != inputs@[0].dtype);
            }
            return Err(ArgumentError { kind: ArgErrorKind::Type, message: owned("meshgrid expects all inputs to have the same dtype") });
        }
        i = i + 1;
    }
    let mut i: usize = 0;
    while i < n
        invariant
            i <= n,
            n == inputs@.len(),
            n > 0,
            n <= MAX_RANK,
            forall|k: int| 0 <= k < n ==> (#[trigger] inputs@[k]).shape@.len() == 1,
            forall|k: int| 0 <= k < n ==> (#[trigger] inputs@[k]).dtype == inputs@[0].dtype,
            forall|k: int| 0 <= k < i ==> same_device(#[trigger] inputs@[k].device, inputs@[0].device),
        decreases n - i,
    {
        if !(str_eq(inputs[i].device.name.as_str(), inputs[0].device.name.as_str())
            && inputs[i].device.autodiff == inputs[0].device.autodiff) {
            proof {
                assert(!same_device(inputs@[i as int].device, inputs@[0].device));
            }
            return Err(ArgumentError { kind: ArgErrorKind::Value, message: owned("meshgrid expects all inputs to be on the same device") });
        }
        i = i + 1;
    }
    let ix: &str = match indexing {
        Some(s) => s,
        None => "ij",
    };
    proof {
        reveal_strlit("ij");
        reveal_strlit("xy");
    }
    let xy = str_eq(ix, "xy");
    if !str_eq(ix, "ij") && !xy {
        let mut m = owned("meshgrid indexing must be 'ij' or 'xy', got ");
        m.append(debug_str_string(ix).as_str());
        return Err(ArgumentError { kind: ArgErrorKind::Value, message: m });
    }
    let ghost lengths = mesh_lengths(inputs@);
    let mut output: Vec<usize> = Vec::new();
    let mut a: usize = 0;
    while a < n
        invariant
            a <= n,
            n == inputs@.len(),
            n <= MAX_RANK,
            lengths == mesh_lengths(inputs@),
            forall|k: int| 0 <= k < n ==> (#[trigger] inputs@[k]).shape@.len() == 1,
            output@ == mesh_output(lengths, xy).take(a as int),
        decreases n - a,
    {
        let src: usize = if xy && n >= 2 && a < 2 { 1 - a } else { a };
        output.push(inputs[src].shape[0]);
        proof {
            assert(mesh_output(lengths, xy).take(a + 1) =~= mesh_output(lengths, xy).take(a as int).push(lengths[src as int]));
        }
        a = a + 1;
    }
    proof {
        assert(mesh_output(lengths, xy).take(n as int) =~= mesh_output(lengths, xy));
    }
    let mut views: Vec<Vec<usize>> = Vec::new();
    let mut i: usize = 0;
    while i < n
        invariant
            i <= n,
            n == inputs@.len(),
            n <= MAX_RANK,
            lengths == mesh_lengths(inputs@),
            forall|k: int| 0 <= k < n ==> (#[trigger] inputs@[k]).shape@.len() == 1,
            views@.len() == i,
            forall|k: int| 0 <= k < i ==> (#[trigger] views@[k])@ == mesh_view(lengths, k, xy),
        decreases n - i,
    {
        let axis: usize = if xy && i < 2 { 1 - i } else { i };
        let mut view: Vec<usize> = Vec::new();
        let mut a: usize = 0;
        while a < n
            invariant
                a <= n,
                n == inputs@.len(),
                i < n,
                lengths == mesh_lengths(inputs@),
                forall|k: int| 0 <= k < n ==> (#[trigger] inputs@[k]).shape@.len() == 1,
                axis == mesh_axis(i as int, xy),
                view@ == mesh_view(lengths, i as int, xy).take(a as int),
            decreases n - a,
        {
            let v: usize = if a == axis { inputs[i].shape[0] } else { 1 };
            view.push(v);
            proof {
                assert(mesh_view(lengths, i as int, xy).take(a + 1) =~= mesh_view(lengths, i as int, xy).take(a as int).push(v));
            }
            a = a + 1;
        }
        proof {
            assert(mesh_view(lengths, i as int, xy).take(n as int) =~= mesh_view(lengths, i as int, xy));
        }
        views.push(view);
        i = i + 1;
    }
    Ok(MeshShapes { output, views })
}

/// Every rotation of a planned `roll` names an axis of the rotated shape and
/// moves between one entry and all but one along it.
pub proof fn law_roll_steps_in_range(shifts: Seq<i64>, dims: Seq<i64>, s: Seq<usize>, n: int)
    requires
        0 <= n <= shifts.len(),
        n <= dims.len(),
        s.len() <= MAX_RANK,
        roll_steps(shifts, dims, s, n) is Ok,
    ensures
        forall|k: int| 0 <= k < roll_steps(shifts, dims, s, n)->Ok_0.len() ==> {
            let st = #[trigger] roll_steps(shifts, dims, s, n)->Ok_0[k];
            &&& st.axis < s.len()
            &&& 0 < st.shift < s[st.axis as int]
            &&& st.split + st.shift == s[st.axis as int]
        },
    decreases n,
{
    if n > 0 {
        law_roll_steps_in_range(shifts, dims, s, n - 1);
        lemma_roll_step_in_range(shifts[n - 1], dims[n - 1], s);
    }
}

proof fn lemma_roll_step_in_range(shift: i64, dim: i64, s: Seq<usize>)
    requires
        s.len() <= MAX_RANK,
    ensures
        roll_step(shift, dim, s) matches Ok(Some(st)) ==> {
            &&& st.axis < s.len()
            &&& 0 < st.shift < s[st.axis as int]
            &&& st.split + st.shift == s[st.axis as int]
        },
{
    let rank = s.len() as int;
    if -rank <= dim < rank {
        let axis = if dim < 0 { rank + dim } else { dim as int };
        let size = s[axis] as int;
        if size > 0 {
            vstd::arithmetic::div_mod::lemma_mod_bound(shift as int, size);
        }
    }
}

/// Each input of `meshgrid` is viewed with the output's rank, its length on the
/// output's axis for it and one elsewhere, so it expands to the output shape.
pub proof fn law_mesh_views_expand(lengths: Seq<usize>, xy: bool, i: int)
    requires
        0 <= i < lengths.len(),
        xy ==> lengths.len() >= 2,
    ensures
        mesh_view(lengths, i, xy).len() == mesh_output(lengths, xy).len(),
        forall|a: int| 0 <= a < lengths.len() ==> (#[trigger] mesh_view(lengths, i, xy)[a] == 1usize
            || mesh_view(lengths, i, xy)[a] == mesh_output(lengths, xy)[a]),
        mesh_view(lengths, i, xy)[mesh_axis(i, xy)] == lengths[i],
{
}

} // verus!
