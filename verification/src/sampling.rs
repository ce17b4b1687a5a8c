//! Argument checks of the sampling operations: the grid-sample options and when
//! they leave the autodiff tape, and the shape of categorical samples.

use vstd::prelude::*;
use crate::text::{debug_str_string, debug_str_text, owned, str_eq};

verus! {

/// How grid sampling interpolates.
#[derive(Debug, Clone, Copy, PartialEq, Eq, Structural)]
pub enum GridSampleMode {
    Bilinear,
    Nearest,
    Bicubic,
}

/// How grid sampling treats coordinates outside the input.
#[derive(Debug, Clone, Copy, PartialEq, Eq, Structural)]
pub enum GridSamplePaddingMode {
    Zeros,
    Border,
    Reflection,
}

pub open spec fn grid_mode_of(name: Seq<char>) -> Option<GridSampleMode> {
    if name == "bilinear"@ {
        Some(GridSampleMode::Bilinear)
    } else if name == "nearest"@ {
        Some(GridSampleMode::Nearest)
    } else if name == "bicubic"@ {
        Some(GridSampleMode::Bicubic)
    } else {
        None
    }
}

pub open spec fn grid_padding_of(name: Seq<char>) -> Option<GridSamplePaddingMode> {
    if name == "zeros"@ {
        Some(GridSamplePaddingMode::Zeros)
    } else if name == "border"@ {
        Some(GridSamplePaddingMode::Border)
    } else if name == "reflection"@ {
        Some(GridSamplePaddingMode::Reflection)
    } else {
        None
    }
}

/// Read a grid-sample interpolation mode by name.
pub fn grid_sample_mode(name: &str) -> (r: Result<GridSampleMode, String>)
    ensures
        match grid_mode_of(name@) {
            Some(m) => r == Ok::<GridSampleMode, String>(m),
            None => r matches Err(e) && e@ == "grid_sample mode must be 'bilinear', 'nearest', or 'bicubic', got "@
                + debug_str_text(name@),
        },
{
    if str_eq(name, "bilinear") {
        Ok(GridSampleMode::Bilinear)
    } else if str_eq(name, "nearest") {
        Ok(GridSampleMode::Nearest)
    } else if str_eq(name, "bicubic") {
        Ok(GridSampleMode::Bicubic)
    } else {
        let mut m = owned("grid_sample mode must be 'bilinear', 'nearest', or 'bicubic', got ");
        m.append(debug_str_string(name).as_str());
        Err(m)
    }
}

/// Read a grid-sample padding mode by name.
pub fn grid_sample_padding_mode(name: &str) -> (r: Result<GridSamplePaddingMode, String>)
    ensures
        match grid_padding_of(name@) {
            Some(m) => r == Ok::<GridSamplePaddingMode, String>(m),
            None => r matches Err(e) && e@ == "grid_sample padding_mode must be 'zeros', 'border', or 'reflection', got "@
                + debug_str_text(name@),
        },
{
    if str_eq(name, "zeros") {
        Ok(GridSamplePaddingMode::Zeros)
    } else if str_eq(name, "border") {
        Ok(GridSamplePaddingMode::Border)
    } else if str_eq(name, "reflection") {
        Ok(GridSamplePaddingMode::Reflection)
    } else {
        let mut m = owned("grid_sample padding_mode must be 'zeros', 'border', or 'reflection', got ");
        m.append(debug_str_string(name).as_str());
        Err(m)
    }
}

/// Whether grid sampling of an input of this rank in this mode runs off the
/// autodiff tape: only rank-4 bilinear sampling has a gradient.
pub fn grid_sample_inference_only(rank: usize, mode: GridSampleMode) -> (r: bool)
    ensures
        r == (rank == 5 || mode != GridSampleMode::Bilinear),
{
    rank == 5 || !matches!(mode, GridSampleMode::Bilinear)
}

/// Refuse grid sampling that would need a gradient it cannot give: gradients are
/// recorded, an operand tracks them, and the sampling runs off the tape.
pub fn check_grid_sample_autograd(tracking: bool, operands_track_gradients: bool, inference_only: bool)
    -> (r: Result<(), String>)
    ensures
        (tracking && operands_track_gradients && inference_only) ==> (r matches Err(e) && e@
            == "grid_sample autograd currently supports only rank-4 bilinear mode; use tynx.no_grad() for nearest, bicubic, or rank-5 sampling"@),
        !(tracking && operands_track_gradients && inference_only) ==> r is Ok,
{
    if tracking && operands_track_gradients && inference_only {
        return Err(owned(
            "grid_sample autograd currently supports only rank-4 bilinear mode; use tynx.no_grad() for nearest, bicubic, or rank-5 sampling",
        ));
    }
    Ok(())
}

/// The shape of categorical samples drawn from logits of shape `dims`: the logits'
/// shape without its last (category) dimension, or `[1]` when nothing is left.
/// Logits need at least one dimension and at least one category.
pub fn categorical_sample_shape(dims: &[usize]) -> (r: Result<Vec<usize>, String>)
    ensures
        dims@.len() == 0 ==> (r matches Err(e) && e@ == "Categorical logits must have at least one dimension"@),
        dims@.len() > 0 && dims@.last() == 0 ==> (r matches Err(e)
            && e@ == "Categorical logits must contain at least one category"@),
        dims@.len() > 0 && dims@.last() != 0 ==> (r matches Ok(s) && s@ == (if dims@.len() == 1 {
            seq![1usize]
        } else {
            dims@.drop_last()
        })),
{
    let rank = dims.len();
    if rank == 0 {
        return Err(owned("Categorical logits must have at least one dimension"));
    }
    if dims[rank - 1] == 0 {
        return Err(owned("Categorical logits must contain at least one category"));
    }
    let mut out: Vec<usize> = Vec::new();
    let mut i: usize = 0;
    while i + 1 < rank
        invariant
            rank == dims@.len(),
            rank > 0,
            i < rank,
            out@ == dims@.take(i as int),
        decreases rank - i,
    {
        out.push(dims[i]);
        proof {
            assert(dims@.take(i + 1) =~= dims@.take(i as int).push(dims@[i as int]));
        }
        i = i + 1;
    }
    proof {
        assert(dims@.take(i as int) =~= dims@.drop_last());
    }
    if out.len() == 0 {
        out.push(1);
        proof {
            assert(out@ =~= seq![1usize]);
        }
    }
    Ok(out)
}

} // verus!
