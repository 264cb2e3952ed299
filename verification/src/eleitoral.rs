//! Título Eleitoral, the voter registration: twelve digits, the last two of
//! them check digits, masked as `XXXX XXXX XXXX`.

use crate::common::{
    all_decimal, decimal_digits, decimal_values, digits_of, join_digits, random_below,
    random_decimal_vector, sum_weighted, text_of, weighted_sum, weights_of,
};
use crate::layout::{
    has_layout, has_size, insert_symbols, is_bare_of, is_masked_of, lemma_bare_not_masked,
    lemma_layout_exact, lemma_masked_form, masked_form,
};
use crate::lemmas::{fits, lemma_text_of_decimal};
use vstd::prelude::*;

verus! {

/// The weights of the first check digit, over the first eight digits.
pub open spec fn first_weights() -> Seq<int> {
    seq![2, 3, 4, 5, 6, 7, 8, 9]
}

/// The weights of the second check digit, over the two digits of the state
/// and the first check digit.
pub open spec fn second_weights() -> Seq<int> {
    seq![7, 8, 9]
}

/// The first check digit, of the first eight digits: the weighted sum modulo
/// eleven, with ten written as zero.
pub open spec fn first_digit(sequence: Seq<u16>) -> int {
    let rest = weighted_sum(sequence, first_weights()) % 11;
    if rest == 10 {
        0
    } else {
        rest
    }
}

/// The second check digit, of the two digits of the state followed by the
/// first check digit: the weighted sum modulo eleven, with ten written as
/// zero.
pub open spec fn second_digit(state: Seq<u16>, first: u16) -> int {
    let rest = weighted_sum(state.push(first), second_weights()) % 11;
    if rest == 10 {
        0
    } else {
        rest
    }
}

/// The two check digits of a document, taken from its first ten digits.
pub open spec fn check_digits(digits: Seq<u16>) -> (int, int) {
    let d11 = first_digit(digits.subrange(0, 8));
    (d11, second_digit(digits.subrange(8, 10), d11 as u16))
}

/// The symbols of a masked voter registration.
pub open spec fn layout() -> Seq<(usize, char)> {
    seq![(4usize, ' '), (9usize, ' ')]
}

/// `doc` is a voter registration without symbols: twelve characters, all
/// decimal digits.
pub open spec fn bare(doc: Seq<char>) -> bool {
    has_size(doc, 12)
}

/// `doc` is a voter registration with its symbols: twelve digits, and exactly
/// the symbols of the layout, each at its position.
pub open spec fn masked(doc: Seq<char>) -> bool {
    has_layout(doc, 12, layout())
}

/// `doc` is a valid voter registration, masked or not.
pub open spec fn valid(doc: Seq<char>) -> bool {
    let digits = digits_of(doc);
    &&& doc.len() == 12 || masked(doc)
    &&& digits.len() == 12
    &&& check_digits(digits) == (digits[10] as int, digits[11] as int)
}

/// The twelve digits of the voter registration that is made from a body of
/// ten: the body and its two check digits.
pub open spec fn document_of(body: Seq<u16>) -> Seq<u16> {
    let (d11, d12) = check_digits(body);
    body.push(d11 as u16).push(d12 as u16)
}

/// Validates a voter registration, masked or not.
pub fn validate(doc: &str) -> (r: bool)
    ensures
        r == valid(doc@),
{
    let size: usize = doc.unicode_len();
    if size != 12 && !is_masked(doc) {
        return false;
    }
    let digits: Vec<u16> = decimal_digits(doc);
    if digits.len() != 12 {
        return false;
    }
    let (d11, d12) = generate_digits(digits.as_slice());
    d11 == digits[10] && d12 == digits[11]
}

/// Computes the two check digits from the first ten digits of `doc_slice`.
pub fn generate_digits(doc_slice: &[u16]) -> (r: (u16, u16))
    requires
        doc_slice@.len() >= 10,
    ensures
        (r.0 as int, r.1 as int) == check_digits(doc_slice@),
        r.0 <= 9,
        r.1 <= 9,
{
    let d11: u16 = generate_first_digit(vstd::slice::slice_subrange(doc_slice, 0, 8));
    let d12: u16 = generate_second_digit(vstd::slice::slice_subrange(doc_slice, 8, 10), d11);
    (d11, d12)
}

/// Computes the first check digit, of at most eight digits.
pub fn generate_first_digit(doc_slice: &[u16]) -> (r: u16)
    requires
        doc_slice@.len() <= 8,
    ensures
        r == first_digit(doc_slice@),
        r <= 9,
{
    let multipliers: [u16; 8] = [2, 3, 4, 5, 6, 7, 8, 9];
    assert(weights_of(multipliers@) =~= first_weights());
    let sum: u64 = sum_weighted(doc_slice, multipliers.as_slice());
    let rest: u16 = (sum % 11) as u16;
    if rest == 10 {
        0
    } else {
        rest
    }
}

/// Computes the second check digit, of the digits of the state and the
/// first check digit.
pub fn generate_second_digit(doc_slice: &[u16], first_digit: u16) -> (r: u16)
    requires
        doc_slice@.len() <= 2,
    ensures
        r == second_digit(doc_slice@, first_digit),
        r <= 9,
{
    let multipliers: [u16; 3] = [7, 8, 9];
    assert(weights_of(multipliers@) =~= second_weights());
    let mut longer: Vec<u16> = Vec::new();
    longer.extend_from_slice(doc_slice);
    longer.push(first_digit);
    assert(longer@ =~= doc_slice@.push(first_digit));
    let sum: u64 = sum_weighted(longer.as_slice(), multipliers.as_slice());
    let rest: u16 = (sum % 11) as u16;
    if rest == 10 {
        0
    } else {
        rest
    }
}

/// Tells whether a text can be a voter registration without symbols.
pub fn is_bare(doc: &str) -> (r: bool)
    ensures
        r == bare(doc@),
{
    is_bare_of(doc, 12)
}

/// The layout of a masked voter registration.
pub fn mask_layout() -> (r: Vec<(usize, char)>)
    ensures
        r@ == layout(),
{
    let mut symbols: Vec<(usize, char)> = Vec::new();
    symbols.push((4, ' '));
    symbols.push((9, ' '));
    assert(symbols@ =~= layout());
    symbols
}

/// Tells whether a text can be a voter registration with its symbols.
pub fn is_masked(doc: &str) -> (r: bool)
    ensures
        r == masked(doc@),
{
    is_masked_of(doc, 12, mask_layout().as_slice())
}

/// Applies the mask of a voter registration to a text without symbols; any other
/// text is refused.
pub fn mask(doc: &str) -> (r: Result<String, &'static str>)
    ensures
        bare(doc@) ==> (r matches Ok(s) && s@ == masked_form(doc@, layout())),
        !bare(doc@) ==> (r matches Err(e) && e@
            == "The given string cannot be masked as Título Eleitoral!"@),
{
    if !is_bare(doc) {
        return Err("The given string cannot be masked as Título Eleitoral!");
    }
    Ok(insert_symbols(doc, mask_layout().as_slice()))
}

/// Makes the voter registration of a body of ten digits.
pub fn document_from_body(body: &[u16]) -> (r: String)
    requires
        body@.len() == 10,
        all_decimal(body@),
    ensures
        r@ == text_of(document_of(body@)),
        bare(r@),
        valid(r@),
{
    let (d11, d12) = generate_digits(body);
    let mut digits: Vec<u16> = Vec::new();
    digits.extend_from_slice(body);
    digits.push(d11);
    digits.push(d12);
    proof {
        assert(digits@.subrange(0, 8) =~= body@.subrange(0, 8));
        assert(digits@.subrange(8, 10) =~= body@.subrange(8, 10));
        assert(digits@ =~= document_of(body@));
        lemma_text_of_decimal(digits@);
    }
    join_digits(digits.as_slice())
}

/// Generates a random voter registration without symbols.
pub fn generate() -> (r: String)
    ensures
        bare(r@),
        valid(r@),
{
    let mut eleitoral: Vec<u16> = random_decimal_vector(8);
    let state: Vec<u16> = generate_state_identifier();
    eleitoral.push(state[0]);
    eleitoral.push(state[1]);
    document_from_body(eleitoral.as_slice())
}

/// Draws the two digits that name a state: the first zero or one, the second
/// any digit.
pub fn generate_state_identifier() -> (r: Vec<u16>)
    ensures
        r@.len() == 2,
        r@[0] <= 1,
        r@[1] <= 9,
{
    let mut state: Vec<u16> = Vec::new();
    state.push(random_below(2) as u16);
    state.push(random_below(10) as u16);
    state
}

/// Generates a random voter registration with its symbols.
pub fn generate_masked() -> (r: String)
    ensures
        masked(r@),
        valid(r@),
{
    let doc = generate();
    proof {
        lemma_mask_keeps(doc@);
    }
    mask(doc.as_str()).unwrap()
}

/// The masked form of a bare voter registration is masked and has the same digits, so it
/// is valid exactly if the bare form is.
pub proof fn lemma_mask_keeps(doc: Seq<char>)
    requires
        bare(doc),
    ensures
        masked(masked_form(doc, layout())),
        digits_of(masked_form(doc, layout())) == digits_of(doc),
        valid(masked_form(doc, layout())) == valid(doc),
{
    lemma_masked_form(doc, layout());
}

/// No text is both a bare and a masked voter registration.
pub proof fn lemma_never_both(doc: Seq<char>)
    ensures
        !(bare(doc) && masked(doc)),
{
    lemma_bare_not_masked(doc, 12, layout());
}

/// A text is a masked voter registration exactly if it has fourteen characters, the
/// symbols of the layout stand at their positions and every other character
/// is a decimal digit.
pub proof fn lemma_masked_exact(doc: Seq<char>)
    ensures
        masked(doc) <==> (doc.len() == 14 && fits(doc, decimal_values(doc), layout())),
{
    lemma_layout_exact(doc, 12, layout());
}

/// The check digits are owed to the body alone: two valid documents with
/// the same first ten digits have the same digits.
pub proof fn lemma_body_decides(a: Seq<char>, b: Seq<char>)
    requires
        valid(a),
        valid(b),
        digits_of(a).subrange(0, 10) == digits_of(b).subrange(0, 10),
    ensures
        digits_of(a) == digits_of(b),
{
    let x = digits_of(a);
    let y = digits_of(b);
    assert forall|i: int| 0 <= i < 10 implies x[i] == y[i] by {
        assert(x[i] == x.subrange(0, 10)[i]);
        assert(y[i] == y.subrange(0, 10)[i]);
    }
    assert(x.subrange(0, 8) =~= y.subrange(0, 8));
    assert(x.subrange(8, 10) =~= y.subrange(8, 10));
    assert(x =~= y);
}

} // verus!
