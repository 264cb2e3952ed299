//! Extraction for texts held as `String`, with digits as bytes, and the test
//! of the symbols of a text against a set of symbols.

use crate::common::{
    all_decimal, decimal_digits, decimal_symbols, decimal_value, digits_of, join_digits,
    symbols_of, text_of,
};
use crate::lemmas::lemma_decimal_digits;
use vstd::prelude::*;

verus! {

/// Digits held as bytes, as numbers of sixteen bits.
pub open spec fn widened(digits: Seq<u8>) -> Seq<u16> {
    Seq::new(digits.len(), |i: int| digits[i] as u16)
}

/// A sequence of digits holds a single numeral: it is not empty and all its
/// elements are equal.
pub open spec fn repeated(digits: Seq<u8>) -> bool {
    digits.len() > 0 && forall|i: int| 0 <= i < digits.len() ==> #[trigger] digits[i] == digits[0]
}

/// The characters of a text that are no decimal digits, as a set.
pub open spec fn symbol_set(doc: Seq<char>) -> Set<char> {
    Set::new(|c: char| doc.contains(c) && decimal_value(c) is None)
}

/// Tells whether a vector of digits holds a single numeral.
pub fn is_repeated(digits: &[u8]) -> (r: bool)
    ensures
        r == repeated(digits@),
{
    if digits.len() == 0 {
        return false;
    }
    let mut i: usize = 1;
    while i < digits.len()
        invariant
            1 <= i <= digits@.len(),
            forall|j: int| 0 <= j < i ==> #[trigger] digits@[j] == digits@[0],
        decreases digits@.len() - i,
    {
        if digits[i] != digits[0] {
            return false;
        }
        i = i + 1;
    }
    true
}

/// Holds digits as numbers of sixteen bits.
pub fn widen(digits: &[u8]) -> (r: Vec<u16>)
    ensures
        r@ == widened(digits@),
{
    let mut out: Vec<u16> = Vec::new();
    let mut i: usize = 0;
    while i < digits.len()
        invariant
            i <= digits@.len(),
            out@ == widened(digits@).take(i as int),
        decreases digits@.len() - i,
    {
        out.push(digits[i] as u16);
        assert(out@ =~= widened(digits@).take(i + 1));
        i = i + 1;
    }
    assert(widened(digits@).take(digits@.len() as int) =~= widened(digits@));
    out
}

/// Holds decimal digits as bytes.
pub fn narrow(digits: &[u16]) -> (r: Vec<u8>)
    requires
        all_decimal(digits@),
    ensures
        widened(r@) == digits@,
{
    let mut out: Vec<u8> = Vec::new();
    let mut i: usize = 0;
    while i < digits.len()
        invariant
            i <= digits@.len(),
            all_decimal(digits@),
            out@.len() == i,
            forall|j: int| 0 <= j < i ==> #[trigger] out@[j] == digits@[j],
        decreases digits@.len() - i,
    {
        assert(digits@[i as int] <= 9);
        out.push(digits[i] as u8);
        i = i + 1;
    }
    assert(widened(out@) =~= digits@);
    out
}

/// Extracts the decimal digits of a text.
pub fn get_digits(document: &String) -> (r: Vec<u8>)
    ensures
        widened(r@) == digits_of(document@),
{
    let digits: Vec<u16> = decimal_digits(document.as_str());
    proof {
        lemma_decimal_digits(document@);
    }
    narrow(digits.as_slice())
}

/// Extracts the characters of a text that are no decimal digits, each with
/// its position.
pub fn get_symbols(document: &String) -> (r: Vec<(usize, char)>)
    ensures
        r@ == symbols_of(document@),
{
    decimal_symbols(document.as_str())
}

/// Tells whether `c` is one of `list`.
pub fn is_among(c: char, list: &[char]) -> (r: bool)
    ensures
        r == list@.contains(c),
{
    let mut k: usize = 0;
    while k < list.len()
        invariant
            k <= list@.len(),
            forall|j: int| 0 <= j < k ==> list@[j] != c,
        decreases list@.len() - k,
    {
        if list[k] == c {
            return true;
        }
        k = k + 1;
    }
    false
}

/// Tells whether the text `doc` holds the character `c`.
pub fn holds(doc: &str, c: char) -> (r: bool)
    ensures
        r == doc@.contains(c),
{
    for d in it: doc.chars()
        invariant
            it.seq() == doc@,
            forall|j: int| 0 <= j < it.index() ==> doc@[j] != c,
    {
        if d == c {
            assert(doc@[it.index() as int] == c);
            return true;
        }
    }
    false
}

/// Tells whether the symbols of `doc` are exactly the characters of
/// `valid_symbols`, whatever their number and order.
pub fn symbols_are(doc: &str, valid_symbols: &[char]) -> (r: bool)
    ensures
        r == (symbol_set(doc@) == valid_symbols@.to_set()),
{
    for c in it: doc.chars()
        invariant
            it.seq() == doc@,
            forall|j: int|
                0 <= j < it.index() && decimal_value(#[trigger] doc@[j]) is None
                    ==> valid_symbols@.contains(doc@[j]),
    {
        if c < '0' || c > '9' {
            if !is_among(c, valid_symbols) {
                proof {
                    assert(doc@[it.index() as int] == c);
                    assert(symbol_set(doc@).contains(c));
                    assert(!valid_symbols@.to_set().contains(c));
                }
                return false;
            }
        }
    }
    let mut k: usize = 0;
    while k < valid_symbols.len()
        invariant
            k <= valid_symbols@.len(),
            forall|j: int|
                0 <= j < doc@.len() && decimal_value(#[trigger] doc@[j]) is None
                    ==> valid_symbols@.contains(doc@[j]),
            forall|j: int|
                0 <= j < k ==> symbol_set(doc@).contains(#[trigger] valid_symbols@[j]),
        decreases valid_symbols@.len() - k,
    {
        let c: char = valid_symbols[k];
        if ('0' <= c && c <= '9') || !holds(doc, c) {
            proof {
                assert(valid_symbols@.to_set().contains(c));
                assert(!symbol_set(doc@).contains(c));
            }
            return false;
        }
        k = k + 1;
    }
    proof {
        assert forall|c: char| symbol_set(doc@).contains(c) == valid_symbols@.to_set().contains(
            c,
        ) by {
            if symbol_set(doc@).contains(c) {
                let j = choose|j: int| 0 <= j < doc@.len() && doc@[j] == c;
                assert(decimal_value(doc@[j]) is None);
            }
            if valid_symbols@.to_set().contains(c) {
                let j = choose|j: int| 0 <= j < valid_symbols@.len() && valid_symbols@[j] == c;
                assert(symbol_set(doc@).contains(valid_symbols@[j]));
            }
        }
        assert(symbol_set(doc@) =~= valid_symbols@.to_set());
    }
    true
}

/// Tells whether the symbols of a text are exactly the given ones.
pub fn valid_symbols(document: &String, symbols: &[char]) -> (r: bool)
    ensures
        r == (symbol_set(document@) == symbols@.to_set()),
{
    symbols_are(document.as_str(), symbols)
}

/// Removes the symbols of a text: its decimal digits, one after the other.
pub fn unmask(document: &String) -> (r: String)
    ensures
        r@ == text_of(digits_of(document@)),
{
    let digits: Vec<u16> = decimal_digits(document.as_str());
    join_digits(digits.as_slice())
}

/// Digits held as bytes are one numeral repeated exactly if they are so as
/// numbers of sixteen bits.
pub proof fn lemma_repeated_widened(digits: Seq<u8>)
    ensures
        repeated(digits) == crate::common::repeated(widened(digits)),
{
    if repeated(digits) {
        assert forall|i: int| 0 <= i < digits.len() implies #[trigger] widened(digits)[i]
            == widened(digits)[0] by {
            assert(digits[i] == digits[0]);
        }
    }
    if crate::common::repeated(widened(digits)) {
        assert forall|i: int| 0 <= i < digits.len() implies #[trigger] digits[i] == digits[0] by {
            assert(widened(digits)[i] == widened(digits)[0]);
        }
    }
}

} // verus!
