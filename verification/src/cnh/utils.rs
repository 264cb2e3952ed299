//! CNH with digits as bytes.

use crate::cnh::{bare, check_digits, layout, mask_layout, masked, valid};
use crate::common::utils::{widen, widened};
use crate::layout::{insert_symbols, masked_form};
use vstd::prelude::*;

verus! {

/// Validates a CNH, masked or not.
pub fn validate(cnh: &str) -> (r: bool)
    ensures
        r == valid(cnh@),
{
    crate::cnh::validate(cnh)
}

/// Computes the two check digits from the first nine of at least ten digits.
pub fn generate_digits(cnh: &[u8]) -> (r: (u8, u8))
    requires
        cnh@.len() >= 10,
    ensures
        (r.0 as int, r.1 as int) == check_digits(widened(cnh@).subrange(0, 9)),
{
    let digits: Vec<u16> = widen(vstd::slice::slice_subrange(cnh, 0, 9));
    proof {
        assert(digits@ =~= widened(cnh@).subrange(0, 9));
    }
    let (first, second) = crate::cnh::generate_digits(digits.as_slice());
    (first as u8, second as u8)
}

/// Tells whether a text can be a CNH without symbols.
pub fn is_bare(cnh: &str) -> (r: bool)
    ensures
        r == bare(cnh@),
{
    crate::cnh::is_bare(cnh)
}

/// Tells whether a text can be a CNH with its symbols.
pub fn is_masked(cnh: &str) -> (r: bool)
    ensures
        r == masked(cnh@),
{
    crate::cnh::is_masked(cnh)
}

/// Applies the mask of a CNH to a text without symbols.
pub fn mask(cnh: &str) -> (r: String)
    requires
        bare(cnh@),
    ensures
        r@ == masked_form(cnh@, layout()),
{
    insert_symbols(cnh, mask_layout().as_slice())
}

} // verus!
