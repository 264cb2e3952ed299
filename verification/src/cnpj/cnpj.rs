//! CNPJ for texts held as `String`, with digits as bytes.

use crate::cnpj::{bare, check_digit, check_digits, layout, mask_layout, masked, valid};
use crate::common::utils::{widen, widened};
use crate::common::weights_of;
use crate::layout::{insert_symbols, masked_form};
use vstd::prelude::*;

verus! {

/// Validates a CNPJ, masked or not.
pub fn validate(cnpj: &String) -> (r: bool)
    ensures
        r == valid(cnpj@),
{
    crate::cnpj::validate(cnpj.as_str())
}

/// Computes the two check digits of a body of twelve digits.
pub fn generate_digits(cnpj_slice: &[u8]) -> (r: (u8, u8))
    requires
        cnpj_slice@.len() == 12,
    ensures
        (r.0 as int, r.1 as int) == check_digits(widened(cnpj_slice@)),
{
    let digits: Vec<u16> = widen(cnpj_slice);
    let (d13, d14) = crate::cnpj::generate_digits(digits.as_slice());
    (d13 as u8, d14 as u8)
}

/// Computes the check digit of the first `max` digits under the weights.
pub fn generate_digit(cnpj_slice: &[u8], max: usize, weights: Vec<u16>) -> (r: u8)
    requires
        max <= cnpj_slice@.len(),
        max <= weights@.len(),
        max <= 0xFFFF_FFFF,
    ensures
        r == check_digit(widened(cnpj_slice@).take(max as int), weights_of(weights@)),
        r <= 9,
{
    let digits: Vec<u16> = widen(vstd::slice::slice_subrange(cnpj_slice, 0, max));
    proof {
        assert(digits@ =~= widened(cnpj_slice@).take(max as int));
    }
    crate::cnpj::generate_digit(digits.as_slice(), weights.as_slice()) as u8
}

/// Tells whether a text can be a CNPJ without symbols.
pub fn is_bare(cnpj: &String) -> (r: bool)
    ensures
        r == bare(cnpj@),
{
    crate::cnpj::is_bare(cnpj.as_str())
}

/// Tells whether a text can be a CNPJ with its symbols.
pub fn is_masked(cnpj: &String) -> (r: bool)
    ensures
        r == masked(cnpj@),
{
    crate::cnpj::is_masked(cnpj.as_str())
}

/// Applies the mask of a CNPJ to a text without symbols.
pub fn mask(cnpj: &String) -> (r: String)
    requires
        bare(cnpj@),
    ensures
        r@ == masked_form(cnpj@, layout()),
{
    insert_symbols(cnpj.as_str(), mask_layout().as_slice())
}

} // verus!
