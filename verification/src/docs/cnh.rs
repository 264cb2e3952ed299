//! CNH validation of a document candidate, steered by two flags: whether the
//! symbols are checked, and whether a repeated numeral is let through.

use crate::cnh::check_digits;
use crate::common::digits_of;
use crate::common::utils::{lemma_repeated_widened, symbol_set, widened};
use crate::docs::common::{to_digit, valid_symbols};
use crate::docs::cpf::is_repeated;
use crate::docs::doc::Document;
use vstd::prelude::*;

verus! {

/// `doc` is a valid CNH under the flags. With `is_masked`, its only symbol
/// must be the space, and present. It must have eleven decimal digits, not
/// all of them the same numeral unless `ignore_repeated` is set, and its last
/// two digits must be the check digits of the first nine.
pub open spec fn valid(doc: Seq<char>, is_masked: bool, ignore_repeated: bool) -> bool {
    let digits = digits_of(doc);
    &&& is_masked ==> symbol_set(doc) == seq![' '].to_set()
    &&& digits.len() == 11
    &&& ignore_repeated || !crate::common::repeated(digits)
    &&& check_digits(digits.subrange(0, 9)) == (digits[9] as int, digits[10] as int)
}

/// Computes the two check digits from the first nine of at least ten digits.
pub fn generate_digits(document: &[u8]) -> (r: (u8, u8))
    requires
        document@.len() >= 10,
    ensures
        (r.0 as int, r.1 as int) == check_digits(widened(document@).subrange(0, 9)),
{
    crate::cnh::utils::generate_digits(document)
}

/// Validates a CNH under the flags.
pub fn validate(document: &Document, is_masked: bool, ignore_repeated: bool) -> (r: bool)
    ensures
        r == valid(document@, is_masked, ignore_repeated),
{
    let symbols: [char; 1] = [' '];
    assert(symbols@ =~= seq![' ']);
    if is_masked && !valid_symbols(document, symbols.as_slice()) {
        return false;
    }
    let digits: Vec<u8> = to_digit(document);
    if digits.len() != 11 {
        return false;
    }
    proof {
        lemma_repeated_widened(digits@);
    }
    if !ignore_repeated && is_repeated(digits.as_slice()) {
        return false;
    }
    let digit10: u8 = digits[9];
    let digit11: u8 = digits[10];
    let (generated_digit10, generated_digit11) = generate_digits(digits.as_slice());
    let check_digit10: bool = digit10 == generated_digit10;
    let check_digit11: bool = digit11 == generated_digit11;
    check_digit10 && check_digit11
}

/// Validates the text of a CNH under the flags.
pub fn validate_str(document: &str, is_masked: bool, ignore_repeated: bool) -> (r: bool)
    ensures
        r == valid(document@, is_masked, ignore_repeated),
{
    validate(&Document::new(document), is_masked, ignore_repeated)
}

} // verus!
