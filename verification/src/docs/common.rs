//! Extraction from a document candidate.

use crate::common::digits_of;
use crate::common::utils::{narrow, symbol_set, symbols_are, widened};
use crate::docs::doc::Document;
use crate::lemmas::lemma_decimal_digits;
use vstd::prelude::*;

verus! {

/// Extracts the decimal digits of a document.
pub fn to_digit(document: &Document) -> (r: Vec<u8>)
    ensures
        widened(r@) == digits_of(document@),
{
    let digits: Vec<u16> = crate::common::decimal_digits(document.text());
    proof {
        lemma_decimal_digits(document@);
    }
    narrow(digits.as_slice())
}

/// Tells whether the symbols of a document are exactly the given ones.
pub fn valid_symbols(document: &Document, symbols: &[char]) -> (r: bool)
    ensures
        r == (symbol_set(document@) == symbols@.to_set()),
{
    symbols_are(document.text(), symbols)
}

} // verus!
