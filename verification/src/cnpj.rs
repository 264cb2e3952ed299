//! Cadastro Nacional de Pessoa Jurídica (CNPJ): fourteen digits, the last two
//! of them check digits, masked as `XX.XXX.XXX/XXXX-XX`. The first twelve may
//! be letters, which count as their character code less 48.

use crate::common::{
    converted, decimal_symbols, decimal_value, decimal_values, digit_char, digits_in, get_digits,
    get_symbols, push_decimal, random_string_from_alphabet, sum_weighted, symbols_in, symbols_of,
    to_decimal, weighted_sum, weights_of,
};
use crate::layout::{insert_symbols, masked_form, same_symbols};
use crate::lemmas::{
    fits, lemma_all_digits, lemma_counts, lemma_digits_concat, lemma_digits_insert,
    lemma_digits_of_all, lemma_digits_push, lemma_fit_symbols, lemma_symbols_fit,
};
use vstd::prelude::*;

pub mod cnpj;

verus! {

/// The value of a character in a CNPJ: its code, cut to sixteen bits, less
/// 48; a character whose code so cut is below 48 has none.
pub open spec fn cnpj_value(c: char) -> Option<u16> {
    let n = (c as u32) % 0x1_0000;
    if n >= 48 {
        Some((n - 48) as u16)
    } else {
        decimal_value(c)
    }
}

/// The values of the characters of `doc`.
pub open spec fn cnpj_values(doc: Seq<char>) -> Seq<Option<u16>> {
    Seq::new(doc.len(), |i: int| cnpj_value(doc[i]))
}

/// The digits of `doc`, as a CNPJ reads them.
pub open spec fn cnpj_digits(doc: Seq<char>) -> Seq<u16> {
    digits_in(cnpj_values(doc))
}

/// The weights of the first check digit.
pub open spec fn first_weights() -> Seq<int> {
    seq![5, 4, 3, 2, 9, 8, 7, 6, 5, 4, 3, 2]
}

/// The weights of the second check digit.
pub open spec fn second_weights() -> Seq<int> {
    seq![6, 5, 4, 3, 2, 9, 8, 7, 6, 5, 4, 3, 2]
}

/// The check digit of `body` under `weights`: eleven less the weighted sum
/// modulo eleven, and zero where that rest is below two.
pub open spec fn check_digit(body: Seq<u16>, weights: Seq<int>) -> int {
    let rest = weighted_sum(body, weights) % 11;
    if rest < 2 {
        0
    } else {
        11 - rest
    }
}

/// The two check digits of a body of twelve digits: the second is taken over
/// the body followed by the first.
pub open spec fn check_digits(body: Seq<u16>) -> (int, int) {
    let d13 = check_digit(body, first_weights());
    (d13, check_digit(body.push(d13 as u16), second_weights()))
}

/// The symbols of a masked CNPJ.
pub open spec fn layout() -> Seq<(usize, char)> {
    seq![(2usize, '.'), (6usize, '.'), (10usize, '/'), (15usize, '-')]
}

/// All the digits are one decimal numeral.
pub open spec fn uniform(digits: Seq<u16>) -> bool {
    digits.len() > 0 && digits[0] <= 9 && forall|k: int|
        0 <= k < digits.len() ==> #[trigger] digits[k] == digits[0]
}

/// `doc` is a CNPJ without symbols: fourteen characters, all of them digits
/// of a CNPJ.
pub open spec fn bare(doc: Seq<char>) -> bool {
    doc.len() == 14 && cnpj_digits(doc).len() == 14
}

/// The symbols of `doc`: those of all but the last two characters, which may
/// be letters, followed by those of the last two, which must be decimal
/// digits and are counted from the first of the two.
pub open spec fn cnpj_symbols(doc: Seq<char>) -> Seq<(usize, char)> {
    let split = doc.len() - 2;
    symbols_in(doc.take(split), cnpj_values(doc.take(split))) + symbols_of(doc.skip(split))
}

/// `doc` is a CNPJ with its symbols: fourteen digits, and exactly the symbols
/// of the layout, each at its position.
pub open spec fn masked(doc: Seq<char>) -> bool {
    doc.len() >= 2 && cnpj_digits(doc).len() == 14 && cnpj_symbols(doc) == layout()
}

/// `doc` is a valid CNPJ, masked or not.
pub open spec fn valid(doc: Seq<char>) -> bool {
    let digits = cnpj_digits(doc);
    &&& doc.len() == 14 || masked(doc)
    &&& digits.len() == 14
    &&& !uniform(digits)
    &&& check_digits(digits.subrange(0, 12)) == (digits[12] as int, digits[13] as int)
}

/// Converts a character into a digit of a CNPJ.
pub fn to_cnpj_digit(c: char) -> (r: Option<u16>)
    ensures
        r == cnpj_value(c),
{
    let n: u16 = ((c as u32) % 0x1_0000) as u16;
    if n >= 48 {
        Some(n - 48)
    } else {
        to_decimal(c)
    }
}

/// Extracts the digits of a text, as a CNPJ reads them.
pub fn read_digits(doc: &str) -> (r: Vec<u16>)
    ensures
        r@ == cnpj_digits(doc@),
{
    let r = get_digits(doc, to_cnpj_digit);
    proof {
        let vals = choose|vals: Seq<Option<u16>>|
            converted(to_cnpj_digit, doc@, vals) && r@ == digits_in(vals);
        assert(vals =~= cnpj_values(doc@));
    }
    r
}

/// Extracts the characters of a text in which a CNPJ reads no digit, each
/// with its position.
pub fn read_symbols(doc: &str) -> (r: Vec<(usize, char)>)
    ensures
        r@ == symbols_in(doc@, cnpj_values(doc@)),
{
    let r = get_symbols(doc, to_cnpj_digit);
    proof {
        let vals = choose|vals: Seq<Option<u16>>|
            converted(to_cnpj_digit, doc@, vals) && r@ == symbols_in(doc@, vals);
        assert(vals =~= cnpj_values(doc@));
    }
    r
}

/// Tells whether all the digits are one decimal numeral.
pub fn is_uniform(digits: &[u16]) -> (r: bool)
    ensures
        r == uniform(digits@),
{
    if digits.len() == 0 || digits[0] > 9 {
        return false;
    }
    let mut k: usize = 1;
    while k < digits.len()
        invariant
            1 <= k <= digits@.len(),
            digits@[0] <= 9,
            forall|j: int| 0 <= j < k ==> #[trigger] digits@[j] == digits@[0],
        decreases digits@.len() - k,
    {
        if digits[k] != digits[0] {
            return false;
        }
        k = k + 1;
    }
    true
}

/// Validates a CNPJ, masked or not.
pub fn validate(doc: &str) -> (r: bool)
    ensures
        r == valid(doc@),
{
    let size: usize = doc.unicode_len();
    if size != 14 && !is_masked(doc) {
        return false;
    }
    let digits: Vec<u16> = read_digits(doc);
    if digits.len() != 14 {
        return false;
    }
    if is_uniform(digits.as_slice()) {
        return false;
    }
    let (d13, d14) = generate_digits(vstd::slice::slice_subrange(digits.as_slice(), 0, 12));
    d13 == digits[12] && d14 == digits[13]
}

/// Computes the two check digits of a body of twelve digits.
pub fn generate_digits(doc_slice: &[u16]) -> (r: (u16, u16))
    requires
        doc_slice@.len() == 12,
    ensures
        (r.0 as int, r.1 as int) == check_digits(doc_slice@),
        r.0 <= 9,
        r.1 <= 9,
{
    let first: [u16; 12] = [5, 4, 3, 2, 9, 8, 7, 6, 5, 4, 3, 2];
    assert(weights_of(first@) =~= first_weights());
    let d13: u16 = generate_digit(doc_slice, first.as_slice());
    let mut longer: Vec<u16> = Vec::new();
    longer.extend_from_slice(doc_slice);
    longer.push(d13);
    assert(longer@ =~= doc_slice@.push(d13));
    let second: [u16; 13] = [6, 5, 4, 3, 2, 9, 8, 7, 6, 5, 4, 3, 2];
    assert(weights_of(second@) =~= second_weights());
    let d14: u16 = generate_digit(longer.as_slice(), second.as_slice());
    (d13, d14)
}

/// Computes the check digit of the digits under the weights.
pub fn generate_digit(doc_slice: &[u16], weights: &[u16]) -> (r: u16)
    requires
        doc_slice@.len() <= weights@.len(),
        doc_slice@.len() <= 0xFFFF_FFFF,
    ensures
        r == check_digit(doc_slice@, weights_of(weights@)),
        r <= 9,
{
    let sum: u64 = sum_weighted(doc_slice, weights);
    let rest: u16 = (sum % 11) as u16;
    if rest < 2 {
        0
    } else {
        11 - rest
    }
}

/// Tells whether a text can be a CNPJ without symbols.
pub fn is_bare(doc: &str) -> (r: bool)
    ensures
        r == bare(doc@),
{
    doc.unicode_len() == 14 && read_digits(doc).len() == 14
}

/// The layout of a masked CNPJ.
pub fn mask_layout() -> (r: Vec<(usize, char)>)
    ensures
        r@ == layout(),
{
    let mut symbols: Vec<(usize, char)> = Vec::new();
    symbols.push((2, '.'));
    symbols.push((6, '.'));
    symbols.push((10, '/'));
    symbols.push((15, '-'));
    assert(symbols@ =~= layout());
    symbols
}

/// Tells whether a text can be a CNPJ with its symbols.
pub fn is_masked(doc: &str) -> (r: bool)
    ensures
        r == masked(doc@),
{
    let size: usize = doc.unicode_len();
    if size < 2 {
        return false;
    }
    let div: usize = size - 2;
    let doc_slice1 = doc.substring_char(0, div);
    let doc_slice2 = doc.substring_char(div, size);
    let mut symbols: Vec<(usize, char)> = read_symbols(doc_slice1);
    let last: Vec<(usize, char)> = decimal_symbols(doc_slice2);
    let ghost front = symbols@;
    let mut k: usize = 0;
    while k < last.len()
        invariant
            k <= last@.len(),
            symbols@ == front + last@.take(k as int),
        decreases last@.len() - k,
    {
        symbols.push(last[k]);
        proof {
            assert(last@.take(k + 1) =~= last@.take(k as int).push(last@[k as int]));
            assert(symbols@ =~= front + last@.take(k + 1));
        }
        k = k + 1;
    }
    proof {
        assert(last@.take(last@.len() as int) =~= last@);
        assert(doc@.take(div as int) =~= doc@.subrange(0, div as int));
        assert(doc@.skip(div as int) =~= doc@.subrange(div as int, size as int));
    }
    let digits: Vec<u16> = read_digits(doc);
    if symbols.len() != 4 || digits.len() != 14 {
        return false;
    }
    same_symbols(symbols.as_slice(), mask_layout().as_slice())
}

/// Applies the mask of a CNPJ to a text without symbols; any other text is
/// refused.
pub fn mask(doc: &str) -> (r: Result<String, &'static str>)
    ensures
        bare(doc@) ==> (r matches Ok(s) && s@ == masked_form(doc@, layout())),
        !bare(doc@) ==> (r matches Err(e) && e@ == "The given string cannot be masked as CNPJ!"@),
{
    if !is_bare(doc) {
        return Err("The given string cannot be masked as CNPJ!");
    }
    Ok(insert_symbols(doc, mask_layout().as_slice()))
}

/// The characters from which the first twelve of a generated CNPJ are drawn.
pub fn alphabet() -> (r: Vec<char>)
    ensures
        r@ == "0123456789ABCDFGHIJKLMNOPQRSTUVWXYZ"@,
        r@.len() == 35,
        forall|i: int| 0 <= i < r@.len() ==> cnpj_value(#[trigger] r@[i]) is Some,
{
    let letters = "0123456789ABCDFGHIJKLMNOPQRSTUVWXYZ";
    proof {
        reveal_strlit("0123456789ABCDFGHIJKLMNOPQRSTUVWXYZ");
    }
    let mut out: Vec<char> = Vec::new();
    for c in it: letters.chars()
        invariant
            it.seq() == letters@,
            out@ == letters@.take(it.index() as int),
    {
        out.push(c);
    }
    out
}

/// A body of twelve characters followed by the two check digits of its
/// digits.
pub open spec fn with_check_digits(body: Seq<char>) -> Seq<char> {
    let (d13, d14) = check_digits(cnpj_digits(body));
    body.push(digit_char(d13)).push(digit_char(d14))
}

/// The CNPJ that is made from a body of twelve characters: the body and its
/// check digits. Where the fourteen digits are one decimal numeral, the last
/// character of the body is first replaced: by `1` where it counts as zero,
/// else by `0`.
pub open spec fn document_of(body: Seq<char>) -> Seq<char> {
    let plain = with_check_digits(body);
    if uniform(cnpj_digits(plain)) {
        with_check_digits(
            body.update(
                11,
                if cnpj_value(body[11]) == Some(0u16) {
                    '1'
                } else {
                    '0'
                },
            ),
        )
    } else {
        plain
    }
}

/// Every character of the text is a digit of a CNPJ.
pub open spec fn all_digits(doc: Seq<char>) -> bool {
    forall|i: int| 0 <= i < doc.len() ==> cnpj_value(#[trigger] doc[i]) is Some
}

/// Writes a body of twelve characters with its two check digits behind it,
/// and hands out the fourteen digits too.
pub fn append_digits(body: &str) -> (r: (String, Vec<u16>))
    requires
        body@.len() == 12,
        all_digits(body@),
    ensures
        r.0@ == with_check_digits(body@),
        r.1@ == cnpj_digits(r.0@),
        r.1@.len() == 14,
        all_digits(r.0@),
        r.1@.subrange(0, 12) == cnpj_digits(body@),
        check_digits(r.1@.subrange(0, 12)) == (r.1@[12] as int, r.1@[13] as int),
        decimal_value(r.0@[12]) is Some,
        decimal_value(r.0@[13]) is Some,
{
    let mut digits: Vec<u16> = read_digits(body);
    proof {
        lemma_digits_of_all(cnpj_values(body@));
    }
    let (d13, d14) = generate_digits(digits.as_slice());
    let mut out: String = String::new();
    out.append(body);
    assert(out@ =~= body@);
    push_decimal(&mut out, d13);
    push_decimal(&mut out, d14);
    digits.push(d13);
    digits.push(d14);
    proof {
        let first = body@.push(digit_char(d13 as int));
        assert(out@ =~= first.push(digit_char(d14 as int)));
        assert(cnpj_values(first) =~= cnpj_values(body@).push(Some(d13)));
        assert(cnpj_values(out@) =~= cnpj_values(first).push(Some(d14)));
        lemma_digits_push(cnpj_values(body@), d13);
        lemma_digits_push(cnpj_values(first), d14);
        assert(digits@.subrange(0, 12) =~= cnpj_digits(body@));
    }
    (out, digits)
}

/// Writes a text again with the character at one position replaced.
pub fn with_char_at(doc: &str, at: usize, c: char) -> (r: String)
    requires
        at < doc@.len(),
    ensures
        r@ == doc@.update(at as int, c),
{
    let size: usize = doc.unicode_len();
    let mut out: String = String::new();
    let mut i: usize = 0;
    for d in it: doc.chars()
        invariant
            it.seq() == doc@,
            size == doc@.len(),
            i == it.index(),
            at < doc@.len(),
            out@ == doc@.update(at as int, c).take(i as int),
    {
        if i == at {
            out.push(c);
        } else {
            out.push(d);
        }
        proof {
            assert(out@ =~= doc@.update(at as int, c).take(i + 1));
        }
        i = i + 1;
    }
    proof {
        assert(doc@.update(at as int, c).take(doc@.len() as int) =~= doc@.update(at as int, c));
    }
    out
}

/// Makes the CNPJ of a body of twelve characters.
pub fn document_from_body(body: &str) -> (r: String)
    requires
        body@.len() == 12,
        all_digits(body@),
    ensures
        r@ == document_of(body@),
        bare(r@),
        valid(r@),
        decimal_value(r@[12]) is Some,
        decimal_value(r@[13]) is Some,
{
    let (plain, digits) = append_digits(body);
    if !is_uniform(digits.as_slice()) {
        return plain;
    }
    let other: char = if digits[11] == 0 {
        '1'
    } else {
        '0'
    };
    proof {
        lemma_digits_of_all(cnpj_values(body@));
        assert(cnpj_values(body@)[11] == Some(digits@.subrange(0, 12)[11]));
        assert(cnpj_values(body@)[0] == Some(digits@.subrange(0, 12)[0]));
    }
    let changed: String = with_char_at(body, 11, other);
    let (settled, again) = append_digits(changed.as_str());
    proof {
        lemma_digits_of_all(cnpj_values(changed@));
        assert(cnpj_values(changed@)[11] == Some(again@.subrange(0, 12)[11]));
        assert(cnpj_values(changed@)[0] == Some(again@.subrange(0, 12)[0]));
        assert(again@[11] != again@[0]);
    }
    settled
}

/// Generates a random CNPJ without symbols.
pub fn generate() -> (r: String)
    ensures
        bare(r@),
        valid(r@),
        decimal_value(r@[12]) is Some,
        decimal_value(r@[13]) is Some,
{
    let letters: Vec<char> = alphabet();
    let cnpj: String = random_string_from_alphabet(12, letters.as_slice());
    document_from_body(cnpj.as_str())
}

/// Generates a random CNPJ with its symbols.
pub fn generate_masked() -> (r: String)
    ensures
        masked(r@),
        valid(r@),
{
    let doc = generate();
    proof {
        lemma_mask_keeps(doc@);
    }
    mask(doc.as_str()).unwrap()
}

/// The masked form of a bare CNPJ that ends in two decimal digits is masked
/// and has the same digits, so it is valid exactly if the bare form is.
pub proof fn lemma_mask_keeps(doc: Seq<char>)
    requires
        bare(doc),
        decimal_value(doc[12]) is Some,
        decimal_value(doc[13]) is Some,
    ensures
        masked(masked_form(doc, layout())),
        cnpj_digits(masked_form(doc, layout())) == cnpj_digits(doc),
        valid(masked_form(doc, layout())) == valid(doc),
{
    let m1 = doc.insert(2, '.');
    let m2 = m1.insert(6, '.');
    let m3 = m2.insert(10, '/');
    let m4 = m3.insert(15, '-');
    assert(masked_form(doc, layout()) == m4) by {
        reveal_with_fuel(masked_form, 5);
        let l4 = layout();
        let l3 = l4.drop_last();
        let l2 = l3.drop_last();
        let l1 = l2.drop_last();
        assert(l1.drop_last().len() == 0);
    }
    // The digits: no symbol adds one.
    assert(cnpj_values(m1) =~= cnpj_values(doc).insert(2, None));
    assert(cnpj_values(m2) =~= cnpj_values(m1).insert(6, None));
    assert(cnpj_values(m3) =~= cnpj_values(m2).insert(10, None));
    assert(cnpj_values(m4) =~= cnpj_values(m3).insert(15, None));
    lemma_digits_insert(cnpj_values(doc), 2);
    lemma_digits_insert(cnpj_values(m1), 6);
    lemma_digits_insert(cnpj_values(m2), 10);
    lemma_digits_insert(cnpj_values(m3), 15);
    // The symbols: those of the layout before the last two characters, and
    // none in these.
    lemma_all_digits(cnpj_values(doc));
    let front = m4.take(16);
    let back = m4.skip(16);
    assert(fits(front, cnpj_values(front), layout())) by {
        assert forall|i: int| 0 <= i < 16 && i != 2 && i != 6 && i != 10 && i != 15 implies (
        #[trigger] cnpj_values(front)[i]) is Some by {
            let j = if i < 2 {
                i
            } else if i < 6 {
                i - 1
            } else if i < 10 {
                i - 2
            } else {
                i - 3
            };
            assert(front[i] == doc[j]);
            assert(cnpj_values(doc)[j] is Some);
        }
        assert(layout()[0].0 == 2 && layout()[1].0 == 6 && layout()[2].0 == 10 && layout()[3].0
            == 15);
    }
    lemma_fit_symbols(front, cnpj_values(front), layout());
    assert(back =~= seq![doc[12], doc[13]]);
    assert(symbols_of(back) =~= Seq::<(usize, char)>::empty()) by {
        lemma_digits_of_all(decimal_values(back));
        lemma_counts(back, decimal_values(back));
    }
    assert(cnpj_symbols(m4) =~= layout());
}

/// No text is both a bare and a masked CNPJ.
pub proof fn lemma_never_both(doc: Seq<char>)
    ensures
        !(bare(doc) && masked(doc)),
{
    if bare(doc) {
        lemma_all_digits(cnpj_values(doc));
        let front = doc.take(12);
        let back = doc.skip(12);
        assert forall|i: int| 0 <= i < 12 implies (#[trigger] cnpj_values(front)[i]) is Some by {
            assert(cnpj_values(doc)[i] is Some);
        }
        lemma_digits_of_all(cnpj_values(front));
        lemma_counts(front, cnpj_values(front));
        lemma_counts(back, decimal_values(back));
    }
}

/// A text is a masked CNPJ exactly if it has eighteen characters, the symbols
/// of the layout stand at their positions, every other character but the last
/// two is a digit of a CNPJ, and the last two are decimal digits.
pub proof fn lemma_masked_exact(doc: Seq<char>)
    ensures
        masked(doc) <==> {
            &&& doc.len() == 18
            &&& fits(doc.take(16), cnpj_values(doc.take(16)), layout())
            &&& decimal_value(doc[16]) is Some
            &&& decimal_value(doc[17]) is Some
        },
{
    if doc.len() >= 2 {
        let split = doc.len() - 2;
        let front = doc.take(split);
        let back = doc.skip(split);
        let found = symbols_in(front, cnpj_values(front));
        let last = symbols_of(back);
        lemma_counts(front, cnpj_values(front));
        lemma_counts(back, decimal_values(back));
        assert(cnpj_values(doc) =~= cnpj_values(front) + cnpj_values(back));
        lemma_digits_concat(cnpj_values(front), cnpj_values(back));
        if masked(doc) {
            if last.len() > 0 {
                lemma_symbols_fit(back, decimal_values(back));
                assert(layout().len() == 4 && layout()[3].0 == 15);
                assert((found + last)[3] == last[last.len() - 1]);
                assert(last[last.len() - 1].0 < 2);
            }
            assert(found =~= found + last);
            lemma_all_digits(decimal_values(back));
            assert(decimal_values(back)[0] is Some && decimal_values(back)[1] is Some);
            assert forall|i: int| 0 <= i < 2 implies (#[trigger] cnpj_values(back)[i]) is Some by {
                assert(decimal_values(back)[i] is Some);
            }
            lemma_digits_of_all(cnpj_values(back));
            if front.len() <= usize::MAX {
                lemma_symbols_fit(front, cnpj_values(front));
            }
        }
        if doc.len() == 18 && fits(front, cnpj_values(front), layout())
            && decimal_value(doc[16]) is Some && decimal_value(doc[17]) is Some {
            lemma_fit_symbols(front, cnpj_values(front), layout());
            assert forall|i: int| 0 <= i < 2 implies (#[trigger] decimal_values(
                back,
            )[i]) is Some by {
                assert(back[i] == doc[16 + i]);
            }
            assert forall|i: int| 0 <= i < 2 implies (#[trigger] cnpj_values(back)[i]) is Some by {
                assert(decimal_values(back)[i] is Some);
            }
            lemma_digits_of_all(decimal_values(back));
            lemma_digits_of_all(cnpj_values(back));
            assert(last =~= Seq::<(usize, char)>::empty());
            assert(found + last =~= found);
        }
    }
}

/// A character repeated fourteen times is no valid CNPJ.
pub proof fn lemma_repeated_invalid(doc: Seq<char>)
    requires
        doc.len() == 14,
        forall|i: int| 0 <= i < 14 ==> #[trigger] doc[i] == doc[0],
    ensures
        !valid(doc),
{
    let digits = cnpj_digits(doc);
    if digits.len() == 14 {
        lemma_all_digits(cnpj_values(doc));
        assert forall|i: int| 0 <= i < 14 implies #[trigger] digits[i] == digits[0] by {
            assert(cnpj_values(doc)[i] == Some(digits[i]));
            assert(cnpj_values(doc)[0] == Some(digits[0]));
            assert(doc[i] == doc[0]);
        }
        if digits[0] > 9 {
            assert(digits[12] == digits[0]);
        }
    }
}

/// The check digits are owed to the body alone: two valid documents with
/// the same first twelve digits have the same digits.
pub proof fn lemma_body_decides(a: Seq<char>, b: Seq<char>)
    requires
        valid(a),
        valid(b),
        cnpj_digits(a).subrange(0, 12) == cnpj_digits(b).subrange(0, 12),
    ensures
        cnpj_digits(a) == cnpj_digits(b),
{
    let x = cnpj_digits(a);
    let y = cnpj_digits(b);
    assert forall|i: int| 0 <= i < 14 implies x[i] == y[i] by {
        if i < 12 {
            assert(x[i] == x.subrange(0, 12)[i]);
            assert(y[i] == y.subrange(0, 12)[i]);
        }
    }
    assert(x =~= y);
}

} // verus!
