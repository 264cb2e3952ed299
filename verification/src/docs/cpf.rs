//! CPF validation of a document candidate, steered by two flags: whether the
//! symbols are checked, and whether a repeated numeral is let through.

use crate::common::digits_of;
use crate::common::utils::{lemma_repeated_widened, symbol_set, widened};
use crate::cpf::check_digit;
use crate::docs::common::{to_digit, valid_symbols};
use crate::docs::doc::Document;
use vstd::prelude::*;

verus! {

/// `doc` is a valid CPF under the flags. With `is_masked`, its symbols must be
/// the dot and the hyphen, both of them present. It must have eleven decimal
/// digits, not all of them the same numeral unless `ignore_repeated` is set,
/// and its tenth and eleventh digits must be the check digits of the digits
/// before each.
pub open spec fn valid(doc: Seq<char>, is_masked: bool, ignore_repeated: bool) -> bool {
    let digits = digits_of(doc);
    &&& is_masked ==> symbol_set(doc) == seq!['.', '-'].to_set()
    &&& digits.len() == 11
    &&& ignore_repeated || !crate::common::repeated(digits)
    &&& check_digit(digits.take(9)) == digits[9]
    &&& check_digit(digits.take(10)) == digits[10]
}

/// Computes the check digit that follows the first `max - 1` digits.
pub fn generate_digit(document: &[u8], max: u16) -> (r: u8)
    requires
        1 <= max <= 11,
        max - 1 <= document@.len(),
    ensures
        r == check_digit(widened(document@).take(max - 1)),
        r <= 9,
{
    crate::cpf::cpf::generate_digit(document, max)
}

/// Tells whether a vector of digits holds a single numeral.
pub fn is_repeated(digits: &[u8]) -> (r: bool)
    ensures
        r == crate::common::utils::repeated(digits@),
{
    crate::common::utils::is_repeated(digits)
}

/// Validates a CPF under the flags.
pub fn validate(document: &Document, is_masked: bool, ignore_repeated: bool) -> (r: bool)
    ensures
        r == valid(document@, is_masked, ignore_repeated),
{
    let symbols: [char; 2] = ['.', '-'];
    assert(symbols@ =~= seq!['.', '-']);
    if is_masked && !valid_symbols(document, symbols.as_slice()) {
        return false;
    }
    let digits: Vec<u8> = to_digit(document);
    if digits.len() != 11 {
        return false;
    }
    proof {
        lemma_repeated_widened(digits@);
    }
    if !ignore_repeated && is_repeated(digits.as_slice()) {
        return false;
    }
    let digit10: u8 = digits[9];
    let digit11: u8 = digits[10];
    let generated_digit10: u8 = generate_digit(digits.as_slice(), 10);
    let generated_digit11: u8 = generate_digit(digits.as_slice(), 11);
    let check_digit10: bool = digit10 == generated_digit10;
    let check_digit11: bool = digit11 == generated_digit11;
    check_digit10 && check_digit11
}

/// Validates the text of a CPF under the flags.
pub fn validate_str(document: &str, is_masked: bool, ignore_repeated: bool) -> (r: bool)
    ensures
        r == valid(document@, is_masked, ignore_repeated),
{
    validate(&Document::new(document), is_masked, ignore_repeated)
}

} // verus!
