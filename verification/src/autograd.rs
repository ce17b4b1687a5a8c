//! The checks a backward pass makes on the loss it starts from.

use vstd::prelude::*;
use crate::error::{error_view, ErrorKind, TynxError};
use crate::shape::{checked_product, lemma_checked_product_none};
use crate::text::{owned, usize_list_string, usize_list_text};

verus! {

/// The complaint about a loss that does not hold exactly one element.
pub open spec fn msg_loss_shape(dims: Seq<usize>) -> Seq<char> {
    "backward without an explicit gradient requires a one-element loss, got shape "@ + usize_list_text(dims)
}

/// A backward pass without an explicit gradient starts from a loss of exactly one
/// element; counting the elements must not overflow.
pub fn check_loss_shape(dims: &[usize]) -> (r: Result<(), TynxError>)
    ensures
        match checked_product(dims@, dims@.len() as int) {
            None => r matches Err(e) && error_view(e) == (ErrorKind::Shape, "loss element count overflowed usize"@),
            Some(n) => if n == 1 {
                r is Ok
            } else {
                r matches Err(e) && error_view(e) == (ErrorKind::Shape, msg_loss_shape(dims@))
            },
        },
{
    let mut count: usize = 1;
    let mut k: usize = 0;
    while k < dims.len()
        invariant
            k <= dims@.len(),
            checked_product(dims@, k as int) == Some(count as int),
        decreases dims.len() - k,
    {
        match count.checked_mul(dims[k]) {
            None => {
                proof {
                    lemma_checked_product_none(dims@, k + 1, dims@.len() as int);
                }
                return Err(TynxError::Shape(owned("loss element count overflowed usize")));
            },
            Some(p) => {
                count = p;
            },
        }
        k = k + 1;
    }
    if count != 1 {
        let mut m = owned("backward without an explicit gradient requires a one-element loss, got shape ");
        m.append(usize_list_string(dims).as_str());
        return Err(TynxError::Shape(m));
    }
    Ok(())
}

} // verus!
