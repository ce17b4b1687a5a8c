//! The argument checks of the browser session: one input tensor whose shape
//! matches its data, for a model with one input and one output.

use vstd::prelude::*;
use crate::shape::{checked_product, lemma_checked_product_none};
use crate::text::{decimal, owned, usize_text};

verus! {

/// Dimensions given as `u32`, as sizes.
pub open spec fn as_sizes(shape: Seq<u32>) -> Seq<usize> {
    shape.map_values(|d: u32| d as usize)
}

/// Check a browser input's shape against the number of elements it came with.
pub fn checked_shape(shape: &[u32], elements: usize) -> (r: Result<Vec<usize>, String>)
    ensures
        match checked_product(as_sizes(shape@), shape@.len() as int) {
            None => r matches Err(e) && e@ == "input shape overflows usize"@,
            Some(n) => if n == elements {
                r matches Ok(v) && v@ == as_sizes(shape@)
            } else {
                r matches Err(e) && e@ == "input shape contains "@ + decimal(n as nat) + " elements, but received "@
                    + decimal(elements as nat)
            },
        },
{
    let ghost sizes = as_sizes(shape@);
    let mut dims: Vec<usize> = Vec::new();
    let mut i: usize = 0;
    while i < shape.len()
        invariant
            i <= shape@.len(),
            sizes == as_sizes(shape@),
            dims@ == sizes.take(i as int),
        decreases shape.len() - i,
    {
        dims.push(shape[i] as usize);
        assert(dims@ =~= sizes.take(i + 1));
        i = i + 1;
    }
    assert(sizes.take(shape@.len() as int) =~= sizes);
    let mut count: usize = 1;
    let mut k: usize = 0;
    while k < dims.len()
        invariant
            k <= dims@.len(),
            dims@ == sizes,
            sizes == as_sizes(shape@),
            checked_product(sizes, k as int) == Some(count as int),
        decreases dims.len() - k,
    {
        match count.checked_mul(dims[k]) {
            None => {
                proof {
                    lemma_checked_product_none(sizes, k + 1, sizes.len() as int);
                }
                return Err(owned("input shape overflows usize"));
            },
            Some(p) => {
                count = p;
            },
        }
        k = k + 1;
    }
    if count != elements {
        let mut m = owned("input shape contains ");
        m.append(usize_text(count).as_str());
        m.append(" elements, but received ");
        m.append(usize_text(elements).as_str());
        return Err(m);
    }
    Ok(dims)
}

/// The name of a model's only input or output; `kind` says which.
pub fn only_name(names: &[String], kind: &str) -> (r: Result<String, String>)
    ensures
        names@.len() == 1 ==> (r matches Ok(n) && n@ == names@[0]@),
        names@.len() != 1 ==> (r matches Err(e) && e@ == "the WASM scaffold requires exactly one model "@ + kind@),
{
    if names.len() == 1 {
        return Ok(owned(names[0].as_str()));
    }
    let mut m = owned("the WASM scaffold requires exactly one model ");
    m.append(kind);
    Err(m)
}

} // verus!
