//! CPF for texts held as `String`, with digits as bytes.

use crate::common::utils::{widen, widened};
use crate::cpf::{bare, check_digit, layout, mask_layout, masked, valid};
use crate::layout::{insert_symbols, masked_form};
use vstd::prelude::*;

verus! {

/// Validates a CPF, masked or not.
pub fn validate(cpf: &String) -> (r: bool)
    ensures
        r == valid(cpf@),
{
    crate::cpf::validate(cpf.as_str())
}

/// Computes the check digits that follow the first nine and the first ten of
/// the digits.
pub fn generate_digits(cpf: &[u8]) -> (r: (u8, u8))
    requires
        cpf@.len() >= 10,
    ensures
        r.0 == check_digit(widened(cpf@).take(9)),
        r.1 == check_digit(widened(cpf@).take(10)),
{
    (generate_digit(cpf, 10), generate_digit(cpf, 11))
}

/// Computes the check digit that follows the first `max - 1` digits.
pub fn generate_digit(cpf: &[u8], max: u16) -> (r: u8)
    requires
        1 <= max <= 11,
        max - 1 <= cpf@.len(),
    ensures
        r == check_digit(widened(cpf@).take(max - 1)),
        r <= 9,
{
    let count: usize = (max - 1) as usize;
    let digits: Vec<u16> = widen(vstd::slice::slice_subrange(cpf, 0, count));
    proof {
        assert(digits@ =~= widened(cpf@).take(max - 1));
    }
    crate::cpf::generate_digit(digits.as_slice()) as u8
}

/// Tells whether a text can be a CPF without symbols.
pub fn is_bare(cpf: &String) -> (r: bool)
    ensures
        r == bare(cpf@),
{
    crate::cpf::is_bare(cpf.as_str())
}

/// Tells whether a text can be a CPF with its symbols.
pub fn is_masked(cpf: &String) -> (r: bool)
    ensures
        r == masked(cpf@),
{
    crate::cpf::is_masked(cpf.as_str())
}

/// Applies the mask of a CPF to a text without symbols.
pub fn mask(cpf: &String) -> (r: String)
    requires
        bare(cpf@),
    ensures
        r@ == masked_form(cpf@, layout()),
{
    insert_symbols(cpf.as_str(), mask_layout().as_slice())
}

} // verus!
