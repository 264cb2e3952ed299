//! NIS/NIT/PIS/PASEP, the social identification number: eleven digits, the
//! last of them a check digit, masked as `XXX.XXXXX.XX-X`.

use crate::common::{
    all_decimal, decimal_digits, decimal_values, digits_of, is_repeated, join_digits,
    random_decimal_vector, repeated, sum_weighted, text_of, weighted_sum, weights_of,
};
use crate::layout::{
    has_layout, has_size, insert_symbols, is_bare_of, is_masked_of, lemma_bare_not_masked,
    lemma_layout_exact, lemma_masked_form, masked_form,
};
use crate::lemmas::{fits, lemma_all_digits, lemma_text_of_decimal};
use vstd::prelude::*;

verus! {

/// The weights of the check digit, one for each digit of the body.
pub open spec fn weights() -> Seq<int> {
    seq![3, 2, 9, 8, 7, 6, 5, 4, 3, 2]
}

/// The check digit that follows `body`: eleven less the weighted sum modulo
/// eleven, and zero where that rest is below two.
pub open spec fn check_digit(body: Seq<u16>) -> int {
    let rest = weighted_sum(body, weights()) % 11;
    if rest >= 2 {
        11 - rest
    } else {
        0
    }
}

/// The symbols of a masked NIS.
pub open spec fn layout() -> Seq<(usize, char)> {
    seq![(3usize, '.'), (9usize, '.'), (12usize, '-')]
}

/// `doc` is a NIS without symbols: eleven characters, all decimal digits.
pub open spec fn bare(doc: Seq<char>) -> bool {
    has_size(doc, 11)
}

/// `doc` is a NIS with its symbols: eleven digits, and exactly the symbols
/// of the layout, each at its position.
pub open spec fn masked(doc: Seq<char>) -> bool {
    has_layout(doc, 11, layout())
}

/// `doc` is a valid NIS, masked or not.
pub open spec fn valid(doc: Seq<char>) -> bool {
    let digits = digits_of(doc);
    &&& doc.len() == 11 || masked(doc)
    &&& digits.len() == 11
    &&& !repeated(digits)
    &&& check_digit(digits.subrange(0, 10)) == digits[10]
}

/// A body followed by its check digit.
pub open spec fn with_check_digit(body: Seq<u16>) -> Seq<u16> {
    body.push(check_digit(body) as u16)
}

/// The eleven digits of the NIS that is made from a body of ten: the body
/// and its check digit. Where those eleven are one numeral repeated, the last
/// digit of the body is first replaced by the next numeral.
pub open spec fn document_of(body: Seq<u16>) -> Seq<u16> {
    let plain = with_check_digit(body);
    if repeated(plain) {
        with_check_digit(body.update(9, ((body[9] + 1) % 10) as u16))
    } else {
        plain
    }
}

/// Validates a NIS, masked or not.
pub fn validate(doc: &str) -> (r: bool)
    ensures
        r == valid(doc@),
{
    let size: usize = doc.unicode_len();
    if size != 11 && !is_masked(doc) {
        return false;
    }
    let digits: Vec<u16> = decimal_digits(doc);
    if digits.len() != 11 || is_repeated(digits.as_slice()) {
        return false;
    }
    let d11: u16 = generate_digit(vstd::slice::slice_subrange(digits.as_slice(), 0, 10));
    d11 == digits[10]
}

/// Computes the check digit that follows at most ten digits.
pub fn generate_digit(doc_slice: &[u16]) -> (r: u16)
    requires
        doc_slice@.len() <= 10,
    ensures
        r == check_digit(doc_slice@),
        r <= 9,
{
    let multipliers: [u16; 10] = [3, 2, 9, 8, 7, 6, 5, 4, 3, 2];
    assert(weights_of(multipliers@) =~= weights());
    let sum: u64 = sum_weighted(doc_slice, multipliers.as_slice());
    let rest: u16 = (sum % 11) as u16;
    if rest >= 2 {
        11 - rest
    } else {
        0
    }
}

/// Tells whether a text can be a NIS without symbols.
pub fn is_bare(doc: &str) -> (r: bool)
    ensures
        r == bare(doc@),
{
    is_bare_of(doc, 11)
}

/// The layout of a masked NIS.
pub fn mask_layout() -> (r: Vec<(usize, char)>)
    ensures
        r@ == layout(),
{
    let mut symbols: Vec<(usize, char)> = Vec::new();
    symbols.push((3, '.'));
    symbols.push((9, '.'));
    symbols.push((12, '-'));
    assert(symbols@ =~= layout());
    symbols
}

/// Tells whether a text can be a NIS with its symbols.
pub fn is_masked(doc: &str) -> (r: bool)
    ensures
        r == masked(doc@),
{
    is_masked_of(doc, 11, mask_layout().as_slice())
}

/// Applies the mask of a NIS to a text without symbols; any other
/// text is refused.
pub fn mask(doc: &str) -> (r: Result<String, &'static str>)
    ensures
        bare(doc@) ==> (r matches Ok(s) && s@ == masked_form(doc@, layout())),
        !bare(doc@) ==> (r matches Err(e) && e@
            == "The given string cannot be masked as NIS/NIT/PIS/PASEP!"@),
{
    if !is_bare(doc) {
        return Err("The given string cannot be masked as NIS/NIT/PIS/PASEP!");
    }
    Ok(insert_symbols(doc, mask_layout().as_slice()))
}

/// Appends its check digit to a body of ten digits.
pub fn append_digit(body: &[u16]) -> (r: Vec<u16>)
    requires
        body@.len() == 10,
        all_decimal(body@),
    ensures
        r@ == with_check_digit(body@),
        all_decimal(r@),
{
    let mut digits: Vec<u16> = Vec::new();
    digits.extend_from_slice(body);
    digits.push(generate_digit(body));
    assert(digits@ =~= with_check_digit(body@));
    digits
}

/// Makes the NIS of a body of ten digits.
pub fn document_from_body(body: &[u16]) -> (r: String)
    requires
        body@.len() == 10,
        all_decimal(body@),
    ensures
        r@ == text_of(document_of(body@)),
        bare(r@),
        valid(r@),
{
    let mut digits = append_digit(body);
    if is_repeated(digits.as_slice()) {
        let mut other: Vec<u16> = Vec::new();
        other.extend_from_slice(body);
        other.set(9, (body[9] + 1) % 10);
        assert(other@ =~= body@.update(9, ((body@[9] + 1) % 10) as u16));
        digits = append_digit(other.as_slice());
        proof {
            assert(with_check_digit(body@)[9] == with_check_digit(body@)[0]);
            assert(digits@[9] != digits@[0]);
        }
    }
    proof {
        assert(digits@ == document_of(body@));
        assert(!repeated(digits@)) by {
            if repeated(digits@) {
                assert(digits@[9] == digits@[0]);
            }
        }
        assert(digits@.subrange(0, 10) =~= if repeated(with_check_digit(body@)) {
            body@.update(9, ((body@[9] + 1) % 10) as u16)
        } else {
            body@
        });
        lemma_text_of_decimal(digits@);
    }
    join_digits(digits.as_slice())
}

/// Generates a random NIS without symbols.
pub fn generate() -> (r: String)
    ensures
        bare(r@),
        valid(r@),
{
    document_from_body(random_decimal_vector(10).as_slice())
}

/// Generates a random NIS with its symbols.
pub fn generate_masked() -> (r: String)
    ensures
        masked(r@),
        valid(r@),
{
    let doc = generate();
    proof {
        lemma_mask_keeps(doc@);
    }
    mask(doc.as_str()).unwrap()
}

/// The masked form of a bare NIS is masked and has the same digits, so it
/// is valid exactly if the bare form is.
pub proof fn lemma_mask_keeps(doc: Seq<char>)
    requires
        bare(doc),
    ensures
        masked(masked_form(doc, layout())),
        digits_of(masked_form(doc, layout())) == digits_of(doc),
        valid(masked_form(doc, layout())) == valid(doc),
{
    lemma_masked_form(doc, layout());
}

/// No text is both a bare and a masked NIS.
pub proof fn lemma_never_both(doc: Seq<char>)
    ensures
        !(bare(doc) && masked(doc)),
{
    lemma_bare_not_masked(doc, 11, layout());
}

/// A text is a masked NIS exactly if it has fourteen characters, the
/// symbols of the layout stand at their positions and every other character
/// is a decimal digit.
pub proof fn lemma_masked_exact(doc: Seq<char>)
    ensures
        masked(doc) <==> (doc.len() == 14 && fits(doc, decimal_values(doc), layout())),
{
    lemma_layout_exact(doc, 11, layout());
}

/// A numeral repeated eleven times is no valid NIS.
pub proof fn lemma_repeated_invalid(doc: Seq<char>)
    requires
        doc.len() == 11,
        forall|i: int| 0 <= i < 11 ==> #[trigger] doc[i] == doc[0],
    ensures
        !valid(doc),
{
    let digits = digits_of(doc);
    if digits.len() == 11 {
        lemma_all_digits(decimal_values(doc));
        assert forall|i: int| 0 <= i < 11 implies #[trigger] digits[i] == digits[0] by {
            assert(decimal_values(doc)[i] == Some(digits[i]));
            assert(decimal_values(doc)[0] == Some(digits[0]));
            assert(doc[i] == doc[0]);
        }
    }
}

/// The check digits are owed to the body alone: two valid documents with
/// the same first ten digits have the same digits.
pub proof fn lemma_body_decides(a: Seq<char>, b: Seq<char>)
    requires
        valid(a),
        valid(b),
        digits_of(a).subrange(0, 10) == digits_of(b).subrange(0, 10),
    ensures
        digits_of(a) == digits_of(b),
{
    let x = digits_of(a);
    let y = digits_of(b);
    assert forall|i: int| 0 <= i < 11 implies x[i] == y[i] by {
        if i < 10 {
            assert(x[i] == x.subrange(0, 10)[i]);
            assert(y[i] == y.subrange(0, 10)[i]);
        }
    }
    assert(x =~= y);
}

} // verus!
