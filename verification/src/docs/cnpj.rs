//! CNPJ validation of a document candidate.

use crate::cnpj::{check_digit, valid};
use crate::common::utils::{symbol_set, symbols_are, widened};
use crate::common::weights_of;
use crate::docs::doc::Document;
use vstd::prelude::*;

verus! {

/// Computes the check digit of the first `max` digits under the weights.
pub fn generate_digit(document: &Vec<u8>, max: usize, weights: Vec<u16>) -> (r: u8)
    requires
        max <= document@.len(),
        max <= weights@.len(),
        max <= 0xFFFF_FFFF,
    ensures
        r == check_digit(widened(document@).take(max as int), weights_of(weights@)),
        r <= 9,
{
    crate::cnpj::cnpj::generate_digit(document.as_slice(), max, weights)
}

/// Validates a CNPJ, masked or not.
pub fn validate(document: Document) -> (r: bool)
    ensures
        r == valid(document@),
{
    crate::cnpj::validate(document.text())
}

/// Validates the text of a CNPJ. With `is_masked`, its symbols must be the
/// dot, the slash and the hyphen, all of them present.
pub fn validate_str(document: &str, is_masked: bool) -> (r: bool)
    ensures
        r == ((is_masked ==> symbol_set(document@) == seq!['.', '/', '-'].to_set()) && valid(
            document@,
        )),
{
    let symbols: [char; 3] = ['.', '/', '-'];
    assert(symbols@ =~= seq!['.', '/', '-']);
    if is_masked && !symbols_are(document, symbols.as_slice()) {
        return false;
    }
    crate::cnpj::validate(document)
}

} // verus!
