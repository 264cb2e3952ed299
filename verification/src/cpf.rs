//! Cadastro de Pessoa Física (CPF): eleven digits, the last two of them check
//! digits, masked as `XXX.XXX.XXX-XX`.

use crate::common::{
    all_decimal, decimal_digits, decimal_values, digits_of, is_repeated, join_digits,
    random_decimal_vector, repeated, text_of, weighted_sum,
};
use crate::layout::{
    has_layout, has_size, insert_symbols, is_bare_of, is_masked_of, lemma_bare_not_masked,
    lemma_layout_exact, lemma_masked_form, masked_form,
};
use crate::lemmas::{fits, lemma_all_digits, lemma_text_of_decimal};
use vstd::prelude::*;

pub mod cpf;

verus! {

/// The weights of a check digit over `n` digits: `n + 1` down to 2.
pub open spec fn weights(n: int) -> Seq<int> {
    Seq::new(n as nat, |i: int| n + 1 - i)
}

/// The check digit that follows `body`: the weighted sum times ten, modulo
/// eleven, with ten written as zero.
pub open spec fn check_digit(body: Seq<u16>) -> int {
    let rest = (weighted_sum(body, weights(body.len() as int)) * 10) % 11;
    if rest == 10 {
        0
    } else {
        rest
    }
}

/// The two check digits of a body of nine digits: the second is taken over
/// the body followed by the first.
pub open spec fn check_digits(body: Seq<u16>) -> (int, int) {
    let d10 = check_digit(body);
    (d10, check_digit(body.push(d10 as u16)))
}

/// The symbols of a masked CPF.
pub open spec fn layout() -> Seq<(usize, char)> {
    seq![(3usize, '.'), (7usize, '.'), (11usize, '-')]
}

/// `doc` is a CPF without symbols: eleven characters, all decimal digits.
pub open spec fn bare(doc: Seq<char>) -> bool {
    has_size(doc, 11)
}

/// `doc` is a CPF with its symbols: eleven digits, and exactly the symbols of
/// the layout, each at its position.
pub open spec fn masked(doc: Seq<char>) -> bool {
    has_layout(doc, 11, layout())
}

/// `doc` is a valid CPF, masked or not.
pub open spec fn valid(doc: Seq<char>) -> bool {
    let digits = digits_of(doc);
    &&& doc.len() == 11 || masked(doc)
    &&& digits.len() == 11
    &&& !repeated(digits)
    &&& check_digits(digits.subrange(0, 9)) == (digits[9] as int, digits[10] as int)
}

/// The eleven digits of the CPF that is made from a body of nine: the body
/// and its check digits. Where those eleven are one numeral repeated, the
/// last digit of the body is first replaced by the next numeral.
pub open spec fn document_of(body: Seq<u16>) -> Seq<u16> {
    let plain = with_check_digits(body);
    if repeated(plain) {
        with_check_digits(body.update(8, ((body[8] + 1) % 10) as u16))
    } else {
        plain
    }
}

/// A body followed by its two check digits.
pub open spec fn with_check_digits(body: Seq<u16>) -> Seq<u16> {
    let (d10, d11) = check_digits(body);
    body.push(d10 as u16).push(d11 as u16)
}

/// Computes the check digit that follows at most ten digits.
pub fn generate_digit(doc_slice: &[u16]) -> (r: u16)
    requires
        doc_slice@.len() <= 10,
    ensures
        r == check_digit(doc_slice@),
        r <= 9,
{
    let max: u64 = (doc_slice.len() + 1) as u64;
    let mut sum: u64 = 0;
    let mut i: usize = 0;
    while i < doc_slice.len()
        invariant
            i <= doc_slice@.len() <= 10,
            max == doc_slice@.len() + 1,
            sum == weighted_sum(doc_slice@.take(i as int), weights(doc_slice@.len() as int)),
            sum <= 0xB_0000 * i,
        decreases doc_slice@.len() - i,
    {
        let d: u64 = doc_slice[i] as u64;
        let w: u64 = max - (i as u64);
        proof {
            assert(d * w <= 0xB_0000) by (nonlinear_arith)
                requires
                    0 <= d <= 0xFFFF,
                    0 <= w <= 11,
            ;
            assert(doc_slice@.take(i + 1).drop_last() =~= doc_slice@.take(i as int));
        }
        sum = sum + d * w;
        i = i + 1;
    }
    proof {
        assert(doc_slice@.take(doc_slice@.len() as int) =~= doc_slice@);
    }
    let result: u64 = (sum * 10) % 11;
    if result == 10 {
        0
    } else {
        result as u16
    }
}

/// Computes the two check digits of a body of nine digits.
pub fn generate_digits(doc_slice: &[u16]) -> (r: (u16, u16))
    requires
        doc_slice@.len() == 9,
    ensures
        (r.0 as int, r.1 as int) == check_digits(doc_slice@),
        r.0 <= 9,
        r.1 <= 9,
{
    let d10: u16 = generate_digit(doc_slice);
    let mut longer: Vec<u16> = Vec::new();
    longer.extend_from_slice(doc_slice);
    longer.push(d10);
    assert(longer@ =~= doc_slice@.push(d10));
    let d11: u16 = generate_digit(longer.as_slice());
    (d10, d11)
}

/// Validates a CPF, masked or not.
pub fn validate(doc: &str) -> (r: bool)
    ensures
        r == valid(doc@),
{
    let size: usize = doc.unicode_len();
    if size != 11 && !is_masked(doc) {
        return false;
    }
    let digits: Vec<u16> = decimal_digits(doc);
    if digits.len() != 11 || is_repeated(digits.as_slice()) {
        return false;
    }
    let (d10, d11) = generate_digits(vstd::slice::slice_subrange(digits.as_slice(), 0, 9));
    d10 == digits[9] && d11 == digits[10]
}

/// Tells whether a text can be a CPF without symbols.
pub fn is_bare(doc: &str) -> (r: bool)
    ensures
        r == bare(doc@),
{
    is_bare_of(doc, 11)
}

/// The layout of a masked CPF.
pub fn mask_layout() -> (r: Vec<(usize, char)>)
    ensures
        r@ == layout(),
{
    let mut symbols: Vec<(usize, char)> = Vec::new();
    symbols.push((3, '.'));
    symbols.push((7, '.'));
    symbols.push((11, '-'));
    assert(symbols@ =~= layout());
    symbols
}

/// Tells whether a text can be a CPF with its symbols.
pub fn is_masked(doc: &str) -> (r: bool)
    ensures
        r == masked(doc@),
{
    is_masked_of(doc, 11, mask_layout().as_slice())
}

/// Applies the mask of a CPF to a text without symbols; any other text is
/// refused.
pub fn mask(doc: &str) -> (r: Result<String, &'static str>)
    ensures
        bare(doc@) ==> (r matches Ok(s) && s@ == masked_form(doc@, layout())),
        !bare(doc@) ==> (r matches Err(e) && e@ == "The given string cannot be masked as CPF!"@),
{
    if !is_bare(doc) {
        return Err("The given string cannot be masked as CPF!");
    }
    Ok(insert_symbols(doc, mask_layout().as_slice()))
}

/// Appends its two check digits to a body of nine digits.
pub fn append_digits(body: &[u16]) -> (r: Vec<u16>)
    requires
        body@.len() == 9,
        all_decimal(body@),
    ensures
        r@ == with_check_digits(body@),
        all_decimal(r@),
{
    let (d10, d11) = generate_digits(body);
    let mut digits: Vec<u16> = Vec::new();
    digits.extend_from_slice(body);
    digits.push(d10);
    digits.push(d11);
    assert(digits@ =~= with_check_digits(body@));
    digits
}

/// Makes the CPF of a body of nine digits.
pub fn document_from_body(body: &[u16]) -> (r: String)
    requires
        body@.len() == 9,
        all_decimal(body@),
    ensures
        r@ == text_of(document_of(body@)),
        bare(r@),
        valid(r@),
{
    let mut digits = append_digits(body);
    if is_repeated(digits.as_slice()) {
        let mut other: Vec<u16> = Vec::new();
        other.extend_from_slice(body);
        other.set(8, (body[8] + 1) % 10);
        assert(other@ =~= body@.update(8, ((body@[8] + 1) % 10) as u16));
        digits = append_digits(other.as_slice());
        proof {
            assert(with_check_digits(body@)[8] == with_check_digits(body@)[0]);
            assert(digits@[8] != digits@[0]);
        }
    }
    proof {
        assert(digits@ == document_of(body@));
        assert(!repeated(digits@)) by {
            if repeated(digits@) {
                assert(digits@[8] == digits@[0]);
            }
        }
        assert(digits@.subrange(0, 9) =~= if repeated(with_check_digits(body@)) {
            body@.update(8, ((body@[8] + 1) % 10) as u16)
        } else {
            body@
        });
        lemma_text_of_decimal(digits@);
    }
    join_digits(digits.as_slice())
}

/// Generates a random CPF without symbols.
pub fn generate() -> (r: String)
    ensures
        bare(r@),
        valid(r@),
{
    document_from_body(random_decimal_vector(9).as_slice())
}

/// Generates a random CPF with its symbols.
pub fn generate_masked() -> (r: String)
    ensures
        masked(r@),
        valid(r@),
{
    let doc = generate();
    proof {
        lemma_mask_keeps(doc@);
    }
    mask(doc.as_str()).unwrap()
}

/// The masked form of a bare CPF is masked and has the same digits, so it is
/// valid exactly if the bare form is.
pub proof fn lemma_mask_keeps(doc: Seq<char>)
    requires
        bare(doc),
    ensures
        masked(masked_form(doc, layout())),
        digits_of(masked_form(doc, layout())) == digits_of(doc),
        valid(masked_form(doc, layout())) == valid(doc),
{
    lemma_masked_form(doc, layout());
}

/// No text is both a bare and a masked CPF.
pub proof fn lemma_never_both(doc: Seq<char>)
    ensures
        !(bare(doc) && masked(doc)),
{
    lemma_bare_not_masked(doc, 11, layout());
}

/// A text is a masked CPF exactly if it has fourteen characters, the symbols
/// of the layout stand at their positions and every other character is a
/// decimal digit.
pub proof fn lemma_masked_exact(doc: Seq<char>)
    ensures
        masked(doc) <==> (doc.len() == 14 && fits(doc, decimal_values(doc), layout())),
{
    lemma_layout_exact(doc, 11, layout());
}

/// A numeral repeated eleven times is no valid CPF.
pub proof fn lemma_repeated_invalid(doc: Seq<char>)
    requires
        doc.len() == 11,
        forall|i: int| 0 <= i < 11 ==> #[trigger] doc[i] == doc[0],
    ensures
        !valid(doc),
{
    let digits = digits_of(doc);
    if digits.len() == 11 {
        lemma_all_digits(decimal_values(doc));
        assert forall|i: int| 0 <= i < 11 implies #[trigger] digits[i] == digits[0] by {
            assert(decimal_values(doc)[i] == Some(digits[i]));
            assert(decimal_values(doc)[0] == Some(digits[0]));
            assert(doc[i] == doc[0]);
        }
    }
}

/// The check digits are owed to the body alone: two valid documents with
/// the same first nine digits have the same digits.
pub proof fn lemma_body_decides(a: Seq<char>, b: Seq<char>)
    requires
        valid(a),
        valid(b),
        digits_of(a).subrange(0, 9) == digits_of(b).subrange(0, 9),
    ensures
        digits_of(a) == digits_of(b),
{
    let x = digits_of(a);
    let y = digits_of(b);
    assert forall|i: int| 0 <= i < 11 implies x[i] == y[i] by {
        if i < 9 {
            assert(x[i] == x.subrange(0, 9)[i]);
            assert(y[i] == y.subrange(0, 9)[i]);
        }
    }
    assert(x =~= y);
}

} // verus!
