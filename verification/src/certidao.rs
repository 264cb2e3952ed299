//! Certidão, the certificate of birth, marriage or death: thirty-two digits,
//! the last two of them check digits, masked as
//! `XXXXXX XX XX XXXX X XXXXX XXX XXXXXXX-XX`.

use crate::common::{
    all_decimal, decimal_digits, decimal_values, digits_of, join_digits, random_decimal_vector,
    text_of, weighted_sum,
};
use crate::layout::{
    has_layout, has_size, insert_symbols, is_bare_of, is_masked_of, lemma_bare_not_masked,
    lemma_layout_exact, lemma_masked_form, masked_form,
};
use crate::lemmas::{
    fits, lemma_all_digits, lemma_repeated_sum, lemma_text_of_decimal, weights_total,
};
use vstd::prelude::*;

verus! {

/// The weights of a check digit over `n` digits: they start at `32 - n`, rise
/// by one from digit to digit, and go from ten back to zero.
pub open spec fn weights(n: int) -> Seq<int> {
    Seq::new(n as nat, |i: int| (32 - n + i) % 11)
}

/// The check digit that follows `body`: the weighted sum modulo eleven, with
/// ten written as one.
pub open spec fn check_digit(body: Seq<u16>) -> int {
    let rest = weighted_sum(body, weights(body.len() as int)) % 11;
    if rest > 9 {
        1
    } else {
        rest
    }
}

/// The two check digits of a body of thirty digits: the second is taken over
/// the body followed by the first.
pub open spec fn check_digits(body: Seq<u16>) -> (int, int) {
    let d30 = check_digit(body);
    (d30, check_digit(body.push(d30 as u16)))
}

/// The symbols of a masked certificate.
pub open spec fn layout() -> Seq<(usize, char)> {
    seq![
        (6usize, ' '),
        (9usize, ' '),
        (12usize, ' '),
        (17usize, ' '),
        (19usize, ' '),
        (25usize, ' '),
        (29usize, ' '),
        (37usize, '-'),
    ]
}

/// `doc` is a certificate without symbols: thirty-two characters, all decimal
/// digits.
pub open spec fn bare(doc: Seq<char>) -> bool {
    has_size(doc, 32)
}

/// `doc` is a certificate with its symbols: thirty-two digits, and exactly
/// the symbols of the layout, each at its position.
pub open spec fn masked(doc: Seq<char>) -> bool {
    has_layout(doc, 32, layout())
}

/// `doc` is a valid certificate, masked or not.
pub open spec fn valid(doc: Seq<char>) -> bool {
    let digits = digits_of(doc);
    &&& doc.len() == 32 || masked(doc)
    &&& digits.len() == 32
    &&& check_digits(digits.subrange(0, 30)) == (digits[30] as int, digits[31] as int)
}

/// The thirty-two digits of the certificate that is made from a body of
/// thirty: the body and its two check digits.
pub open spec fn document_of(body: Seq<u16>) -> Seq<u16> {
    let (d30, d31) = check_digits(body);
    body.push(d30 as u16).push(d31 as u16)
}

/// Validates a certificate, masked or not.
pub fn validate(doc: &str) -> (r: bool)
    ensures
        r == valid(doc@),
{
    let size: usize = doc.unicode_len();
    if size != 32 && !is_masked(doc) {
        return false;
    }
    let digits: Vec<u16> = decimal_digits(doc);
    if digits.len() != 32 {
        return false;
    }
    let (d30, d31) = generate_digits(vstd::slice::slice_subrange(digits.as_slice(), 0, 30));
    d30 == digits[30] && d31 == digits[31]
}

/// Computes the two check digits of a body of thirty digits.
pub fn generate_digits(doc_slice: &[u16]) -> (r: (u16, u16))
    requires
        doc_slice@.len() == 30,
    ensures
        (r.0 as int, r.1 as int) == check_digits(doc_slice@),
        r.0 <= 9,
        r.1 <= 9,
{
    let d30: u16 = generate_digit(doc_slice);
    let mut longer: Vec<u16> = Vec::new();
    longer.extend_from_slice(doc_slice);
    longer.push(d30);
    assert(longer@ =~= doc_slice@.push(d30));
    let d31: u16 = generate_digit(longer.as_slice());
    (d30, d31)
}

/// Computes the check digit that follows thirty or thirty-one digits.
pub fn generate_digit(doc_slice: &[u16]) -> (r: u16)
    requires
        30 <= doc_slice@.len() <= 31,
    ensures
        r == check_digit(doc_slice@),
        r <= 9,
{
    let mut multiplier: u64 = 32 - (doc_slice.len() as u64);
    let mut sum: u64 = 0;
    let mut i: usize = 0;
    while i < doc_slice.len()
        invariant
            i <= doc_slice@.len(),
            30 <= doc_slice@.len() <= 31,
            multiplier == (32 - doc_slice@.len() + i) % 11,
            sum == weighted_sum(doc_slice@.take(i as int), weights(doc_slice@.len() as int)),
            sum <= 0xA_0000 * i,
        decreases doc_slice@.len() - i,
    {
        let d: u64 = doc_slice[i] as u64;
        proof {
            assert(d * multiplier <= 0xA_0000) by (nonlinear_arith)
                requires
                    0 <= d <= 0xFFFF,
                    0 <= multiplier <= 10,
            ;
            assert(doc_slice@.take(i + 1).drop_last() =~= doc_slice@.take(i as int));
        }
        sum = sum + d * multiplier;
        multiplier = multiplier + 1;
        multiplier = if multiplier > 10 {
            0
        } else {
            multiplier
        };
        i = i + 1;
    }
    proof {
        assert(doc_slice@.take(doc_slice@.len() as int) =~= doc_slice@);
    }
    let rest: u16 = (sum % 11) as u16;
    if rest > 9 {
        1
    } else {
        rest
    }
}

/// Tells whether a text can be a certificate without symbols.
pub fn is_bare(doc: &str) -> (r: bool)
    ensures
        r == bare(doc@),
{
    is_bare_of(doc, 32)
}

/// The layout of a masked certificate.
pub fn mask_layout() -> (r: Vec<(usize, char)>)
    ensures
        r@ == layout(),
{
    let mut symbols: Vec<(usize, char)> = Vec::new();
    symbols.push((6, ' '));
    symbols.push((9, ' '));
    symbols.push((12, ' '));
    symbols.push((17, ' '));
    symbols.push((19, ' '));
    symbols.push((25, ' '));
    symbols.push((29, ' '));
    symbols.push((37, '-'));
    assert(symbols@ =~= layout());
    symbols
}

/// Tells whether a text can be a certificate with its symbols.
pub fn is_masked(doc: &str) -> (r: bool)
    ensures
        r == masked(doc@),
{
    is_masked_of(doc, 32, mask_layout().as_slice())
}

/// Applies the mask of a certificate to a text without symbols; any other
/// text is refused.
pub fn mask(doc: &str) -> (r: Result<String, &'static str>)
    ensures
        bare(doc@) ==> (r matches Ok(s) && s@ == masked_form(doc@, layout())),
        !bare(doc@) ==> (r matches Err(e) && e@
            == "The given string cannot be masked as Certidão!"@),
{
    if !is_bare(doc) {
        return Err("The given string cannot be masked as Certidão!");
    }
    Ok(insert_symbols(doc, mask_layout().as_slice()))
}

/// Makes the certificate of a body of thirty digits.
pub fn document_from_body(body: &[u16]) -> (r: String)
    requires
        body@.len() == 30,
        all_decimal(body@),
    ensures
        r@ == text_of(document_of(body@)),
        bare(r@),
        valid(r@),
{
    let (d30, d31) = generate_digits(body);
    let mut digits: Vec<u16> = Vec::new();
    digits.extend_from_slice(body);
    digits.push(d30);
    digits.push(d31);
    proof {
        assert(digits@.subrange(0, 30) =~= body@);
        assert(digits@ =~= document_of(body@));
        lemma_text_of_decimal(digits@);
    }
    join_digits(digits.as_slice())
}

/// Generates a random certificate without symbols.
pub fn generate() -> (r: String)
    ensures
        bare(r@),
        valid(r@),
{
    document_from_body(random_decimal_vector(30).as_slice())
}

/// Generates a random certificate with its symbols.
pub fn generate_masked() -> (r: String)
    ensures
        masked(r@),
        valid(r@),
{
    let doc = generate();
    proof {
        lemma_mask_keeps(doc@);
    }
    mask(doc.as_str()).unwrap()
}

/// The masked form of a bare certificate is masked and has the same digits, so it
/// is valid exactly if the bare form is.
pub proof fn lemma_mask_keeps(doc: Seq<char>)
    requires
        bare(doc),
    ensures
        masked(masked_form(doc, layout())),
        digits_of(masked_form(doc, layout())) == digits_of(doc),
        valid(masked_form(doc, layout())) == valid(doc),
{
    lemma_masked_form(doc, layout());
}

/// No text is both a bare and a masked certificate.
pub proof fn lemma_never_both(doc: Seq<char>)
    ensures
        !(bare(doc) && masked(doc)),
{
    lemma_bare_not_masked(doc, 32, layout());
}

/// A text is a masked certificate exactly if it has forty characters, the
/// symbols of the layout stand at their positions and every other character
/// is a decimal digit.
pub proof fn lemma_masked_exact(doc: Seq<char>)
    ensures
        masked(doc) <==> (doc.len() == 40 && fits(doc, decimal_values(doc), layout())),
{
    lemma_layout_exact(doc, 32, layout());
}

/// The weights of the first check digit add up to 154, a multiple of eleven.
pub proof fn lemma_total_of_thirty()
    ensures
        weights_total(weights(30), 30) == 154,
{
    let w = weights(30);
    assert(weights_total(w, 6) == 27) by {
        reveal_with_fuel(weights_total, 7);
    }
    assert(weights_total(w, 12) == 57) by {
        reveal_with_fuel(weights_total, 7);
    }
    assert(weights_total(w, 18) == 90) by {
        reveal_with_fuel(weights_total, 7);
    }
    assert(weights_total(w, 24) == 115) by {
        reveal_with_fuel(weights_total, 7);
    }
    assert(weights_total(w, 30) == 154) by {
        reveal_with_fuel(weights_total, 7);
    }
}

/// A numeral other than zero repeated thirty-two times is no valid
/// certificate: the first check digit of thirty equal digits is zero.
pub proof fn lemma_repeated_invalid(doc: Seq<char>)
    requires
        doc.len() == 32,
        forall|i: int| 0 <= i < 32 ==> #[trigger] doc[i] == doc[0],
        doc[0] != '0',
    ensures
        !valid(doc),
{
    let digits = digits_of(doc);
    if digits.len() == 32 {
        lemma_all_digits(decimal_values(doc));
        let d = digits[0];
        assert(decimal_values(doc)[0] == Some(d));
        assert forall|i: int| 0 <= i < 32 implies #[trigger] digits[i] == d by {
            assert(decimal_values(doc)[i] == Some(digits[i]));
            assert(doc[i] == doc[0]);
        }
        let body = digits.subrange(0, 30);
        assert forall|i: int| 0 <= i < body.len() implies #[trigger] body[i] == d by {
            assert(body[i] == digits[i]);
        }
        lemma_repeated_sum(body, weights(30), d);
        lemma_total_of_thirty();
        assert(1 <= d <= 9);
        assert((d * 154) % 11 == 0);
        assert(check_digit(body) == 0);
        assert(digits[30] == d);
    }
}

/// The check digits are owed to the body alone: two valid documents with
/// the same first thirty digits have the same digits.
pub proof fn lemma_body_decides(a: Seq<char>, b: Seq<char>)
    requires
        valid(a),
        valid(b),
        digits_of(a).subrange(0, 30) == digits_of(b).subrange(0, 30),
    ensures
        digits_of(a) == digits_of(b),
{
    let x = digits_of(a);
    let y = digits_of(b);
    assert forall|i: int| 0 <= i < 32 implies x[i] == y[i] by {
        if i < 30 {
            assert(x[i] == x.subrange(0, 30)[i]);
            assert(y[i] == y.subrange(0, 30)[i]);
        }
    }
    assert(x =~= y);
}

} // verus!
