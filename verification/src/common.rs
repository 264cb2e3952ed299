//! Digit and symbol extraction shared by every document kind, rendering of
//! digits as text, and the random sources of the generators.

use rand::Rng;
use vstd::prelude::*;

pub mod utils;

verus! {

/// The decimal value of `c`, if `c` is one of the characters `'0'` to `'9'`.
pub open spec fn decimal_value(c: char) -> Option<u16> {
    if '0' <= c && c <= '9' {
        Some((c as u32 - '0' as u32) as u16)
    } else {
        None
    }
}

/// `vals` holds, character by character, an answer that `convert` may give
/// for the characters of `doc`.
pub open spec fn converted<F: Fn(char) -> Option<u16>>(
    convert: F,
    doc: Seq<char>,
    vals: Seq<Option<u16>>,
) -> bool {
    &&& vals.len() == doc.len()
    &&& forall|i: int| 0 <= i < doc.len() ==> call_ensures(convert, (doc[i],), #[trigger] vals[i])
}

/// The digits among the answers of a converter, in order.
pub open spec fn digits_in(vals: Seq<Option<u16>>) -> Seq<u16>
    decreases vals.len(),
{
    if vals.len() == 0 {
        Seq::empty()
    } else {
        let rest = digits_in(vals.drop_last());
        match vals.last() {
            Some(d) => rest.push(d),
            None => rest,
        }
    }
}

/// The characters of `doc` for which the converter answered `None`, each with
/// its position in `doc`, in order.
pub open spec fn symbols_in(doc: Seq<char>, vals: Seq<Option<u16>>) -> Seq<(usize, char)>
    decreases doc.len(),
{
    if doc.len() == 0 || vals.len() != doc.len() {
        Seq::empty()
    } else {
        let rest = symbols_in(doc.drop_last(), vals.drop_last());
        match vals.last() {
            Some(_) => rest,
            None => rest.push(((doc.len() - 1) as usize, doc.last())),
        }
    }
}

/// The answers of the decimal converter for the characters of `doc`.
pub open spec fn decimal_values(doc: Seq<char>) -> Seq<Option<u16>> {
    Seq::new(doc.len(), |i: int| decimal_value(doc[i]))
}

/// The decimal digits of `doc`, in order, every other character skipped.
pub open spec fn digits_of(doc: Seq<char>) -> Seq<u16> {
    digits_in(decimal_values(doc))
}

/// The characters of `doc` that are no decimal digits, each with its position.
pub open spec fn symbols_of(doc: Seq<char>) -> Seq<(usize, char)> {
    symbols_in(doc, decimal_values(doc))
}

/// A sequence of digits holds a single numeral: it is not empty and all its
/// elements are equal.
pub open spec fn repeated(digits: Seq<u16>) -> bool {
    digits.len() > 0 && forall|i: int| 0 <= i < digits.len() ==> #[trigger] digits[i] == digits[0]
}

/// Every element is a decimal digit.
pub open spec fn all_decimal(digits: Seq<u16>) -> bool {
    forall|i: int| 0 <= i < digits.len() ==> #[trigger] digits[i] <= 9
}

/// The character that writes the decimal digit `d`.
pub open spec fn digit_char(d: int) -> char {
    if d == 0 {
        '0'
    } else if d == 1 {
        '1'
    } else if d == 2 {
        '2'
    } else if d == 3 {
        '3'
    } else if d == 4 {
        '4'
    } else if d == 5 {
        '5'
    } else if d == 6 {
        '6'
    } else if d == 7 {
        '7'
    } else if d == 8 {
        '8'
    } else {
        '9'
    }
}

/// The decimal notation of `n`, without leading zeros.
pub open spec fn decimal_text(n: nat) -> Seq<char>
    decreases n,
{
    if n < 10 {
        seq![digit_char(n as int)]
    } else {
        decimal_text(n / 10).push(digit_char((n % 10) as int))
    }
}

/// The decimal notations of the elements of `digits`, one after the other.
pub open spec fn text_of(digits: Seq<u16>) -> Seq<char>
    decreases digits.len(),
{
    if digits.len() == 0 {
        Seq::empty()
    } else {
        text_of(digits.drop_last()) + decimal_text(digits.last() as nat)
    }
}

/// The sum of the digits, each multiplied by the weight at its position.
pub open spec fn weighted_sum(digits: Seq<u16>, weights: Seq<int>) -> int
    decreases digits.len(),
{
    if digits.len() == 0 {
        0
    } else {
        weighted_sum(digits.drop_last(), weights) + digits.last() * weights[digits.len() - 1]
    }
}

/// The weights of a table, as numbers.
pub open spec fn weights_of(table: Seq<u16>) -> Seq<int> {
    Seq::new(table.len(), |i: int| table[i] as int)
}

/// Computes the sum of the digits, each multiplied by the weight at its
/// position in the table.
pub fn sum_weighted(digits: &[u16], table: &[u16]) -> (r: u64)
    requires
        digits@.len() <= table@.len(),
        digits@.len() <= 0xFFFF_FFFF,
    ensures
        r == weighted_sum(digits@, weights_of(table@)),
        r <= digits@.len() * 0xFFFE_0001,
{
    let mut sum: u64 = 0;
    let mut i: usize = 0;
    while i < digits.len()
        invariant
            i <= digits@.len() <= table@.len(),
            digits@.len() <= 0xFFFF_FFFF,
            sum == weighted_sum(digits@.take(i as int), weights_of(table@)),
            sum <= i * 0xFFFE_0001,
        decreases digits@.len() - i,
    {
        let d = digits[i] as u64;
        let w = table[i] as u64;
        proof {
            assert(d * w <= 0xFFFE_0001) by (nonlinear_arith)
                requires
                    0 <= d <= 0xFFFF,
                    0 <= w <= 0xFFFF,
            ;
            assert((i + 1) * 0xFFFE_0001 <= 0xFFFF_FFFF * 0xFFFE_0001) by (nonlinear_arith)
                requires
                    i + 1 <= 0xFFFF_FFFF,
            ;
            assert(digits@.take(i + 1).drop_last() =~= digits@.take(i as int));
        }
        sum = sum + d * w;
        i = i + 1;
    }
    proof {
        assert(digits@.take(digits@.len() as int) =~= digits@);
    }
    sum
}

/// Tells whether a vector of digits holds a single numeral.
pub fn is_repeated(digits: &[u16]) -> (r: bool)
    ensures
        r == repeated(digits@),
{
    if digits.len() == 0 {
        return false;
    }
    let first = digits[0];
    let mut i: usize = 1;
    while i < digits.len()
        invariant
            1 <= i <= digits.len(),
            first == digits@[0],
            forall|j: int| 0 <= j < i ==> #[trigger] digits@[j] == digits@[0],
        decreases digits.len() - i,
    {
        if digits[i] != first {
            return false;
        }
        i = i + 1;
    }
    true
}

/// Converts a character into its decimal digit.
pub fn to_decimal(c: char) -> (r: Option<u16>)
    ensures
        r == decimal_value(c),
{
    if '0' <= c && c <= '9' {
        Some((c as u32 - '0' as u32) as u16)
    } else {
        None
    }
}

/// Extracts the digits of a text, as `convert` reads them.
pub fn get_digits<F>(doc: &str, convert: F) -> (r: Vec<u16>) where F: Fn(char) -> Option<u16>
    requires
        forall|c: char| call_requires(convert, (c,)),
    ensures
        exists|vals: Seq<Option<u16>>| converted(convert, doc@, vals) && r@ == digits_in(vals),
{
    let mut out: Vec<u16> = Vec::new();
    let ghost mut vals: Seq<Option<u16>> = Seq::empty();
    for c in it: doc.chars()
        invariant
            it.seq() == doc@,
            forall|c: char| call_requires(convert, (c,)),
            converted(convert, doc@.take(it.index() as int), vals),
            out@ == digits_in(vals),
    {
        let v = convert(c);
        proof {
            let prev = vals;
            vals = vals.push(v);
            assert(vals.drop_last() =~= prev);
            assert(doc@.take(it.index() + 1) =~= doc@.take(it.index() as int).push(c));
        }
        match v {
            Some(d) => {
                out.push(d);
            },
            None => {},
        }
    }
    proof {
        assert(doc@.take(doc@.len() as int) =~= doc@);
    }
    out
}

/// Extracts the symbols of a text, the characters in which `convert` reads no
/// digit, each with its position in the text.
pub fn get_symbols<F>(doc: &str, convert: F) -> (r: Vec<(usize, char)>) where
    F: Fn(char) -> Option<u16>,

    requires
        forall|c: char| call_requires(convert, (c,)),
    ensures
        exists|vals: Seq<Option<u16>>|
            converted(convert, doc@, vals) && r@ == symbols_in(doc@, vals),
{
    let size = doc.unicode_len();
    let mut out: Vec<(usize, char)> = Vec::new();
    let mut i: usize = 0;
    let ghost mut vals: Seq<Option<u16>> = Seq::empty();
    for c in it: doc.chars()
        invariant
            it.seq() == doc@,
            size == doc@.len(),
            i == it.index(),
            forall|c: char| call_requires(convert, (c,)),
            converted(convert, doc@.take(i as int), vals),
            out@ == symbols_in(doc@.take(i as int), vals),
    {
        let v = convert(c);
        proof {
            let prev = vals;
            vals = vals.push(v);
            assert(vals.drop_last() =~= prev);
            assert(doc@.take(i + 1) =~= doc@.take(i as int).push(c));
            assert(doc@.take(i + 1).drop_last() =~= doc@.take(i as int));
        }
        match v {
            Some(_) => {},
            None => {
                out.push((i, c));
            },
        }
        i = i + 1;
    }
    proof {
        assert(doc@.take(doc@.len() as int) =~= doc@);
    }
    out
}

/// Extracts the decimal digits of a text.
pub fn decimal_digits(doc: &str) -> (r: Vec<u16>)
    ensures
        r@ == digits_of(doc@),
{
    let r = get_digits(doc, to_decimal);
    proof {
        let vals = choose|vals: Seq<Option<u16>>|
            converted(to_decimal, doc@, vals) && r@ == digits_in(vals);
        assert(vals =~= decimal_values(doc@));
    }
    r
}

/// Extracts the characters of a text that are no decimal digits, each with
/// its position.
pub fn decimal_symbols(doc: &str) -> (r: Vec<(usize, char)>)
    ensures
        r@ == symbols_of(doc@),
{
    let r = get_symbols(doc, to_decimal);
    proof {
        let vals = choose|vals: Seq<Option<u16>>|
            converted(to_decimal, doc@, vals) && r@ == symbols_in(doc@, vals);
        assert(vals =~= decimal_values(doc@));
    }
    r
}

/// `String::push` of std appends the given character to the end of the
/// string.
pub assume_specification[ String::push ](s: &mut String, c: char)
    ensures
        final(s)@ == old(s)@.push(c),
;

/// Draws a number below `bound`. Calls `Rng::gen_range` of rand on the
/// generator of the current thread, with the range from zero to `bound`
/// exclusive: the number drawn lies in that range, and nothing else is known
/// of it. The range must hold a number, or rand panics.
#[verifier::external_body]
pub(crate) fn random_below(bound: usize) -> (r: usize)
    requires
        0 < bound,
    ensures
        r < bound,
{
    rand::thread_rng().gen_range(0..bound)
}

/// Appends the decimal notation of `n` to `out`.
pub fn push_decimal(out: &mut String, n: u16)
    ensures
        final(out)@ == old(out)@ + decimal_text(n as nat),
    decreases n,
{
    if n >= 10 {
        push_decimal(out, n / 10);
    }
    let d: u8 = (n % 10) as u8;
    let c: char = (48u8 + d) as char;
    assert(c == digit_char((n % 10) as int));
    out.push(c);
    proof {
        if n < 10 {
            assert(old(out)@.push(c) =~= old(out)@ + decimal_text(n as nat));
        } else {
            assert((old(out)@ + decimal_text((n / 10) as nat)).push(c) =~= old(out)@
                + decimal_text(n as nat));
        }
    }
}

/// Writes the digits one after the other, each in decimal notation.
pub fn join_digits(digits: &[u16]) -> (r: String)
    ensures
        r@ == text_of(digits@),
{
    let mut out = String::new();
    let mut i: usize = 0;
    while i < digits.len()
        invariant
            i <= digits.len(),
            out@ == text_of(digits@.take(i as int)),
        decreases digits.len() - i,
    {
        push_decimal(&mut out, digits[i]);
        proof {
            assert(digits@.take(i + 1).drop_last() =~= digits@.take(i as int));
        }
        i = i + 1;
    }
    proof {
        assert(digits@.take(digits@.len() as int) =~= digits@);
    }
    out
}

/// Removes the symbols of a text: the digits that `convert` reads in it,
/// written one after the other.
pub fn unmask<F>(doc: &str, convert: F) -> (r: String) where F: Fn(char) -> Option<u16>
    requires
        forall|c: char| call_requires(convert, (c,)),
    ensures
        exists|vals: Seq<Option<u16>>|
            converted(convert, doc@, vals) && r@ == text_of(digits_in(vals)),
{
    let digits = get_digits(doc, convert);
    join_digits(digits.as_slice())
}

/// Draws `size` decimal digits.
pub fn random_decimal_vector(size: usize) -> (r: Vec<u16>)
    ensures
        r@.len() == size,
        all_decimal(r@),
{
    let mut digits: Vec<u16> = Vec::new();
    let mut i: usize = 0;
    while i < size
        invariant
            i <= size,
            digits@.len() == i,
            all_decimal(digits@),
        decreases size - i,
    {
        let d = random_below(10);
        digits.push(d as u16);
        i = i + 1;
    }
    digits
}

/// Draws one of the elements of `options`.
pub fn random_element_from_vector<T>(options: &[T]) -> (r: T) where T: Clone
    requires
        options@.len() > 0,
    ensures
        exists|i: int| 0 <= i < options@.len() && cloned(#[trigger] options@[i], r),
{
    let idx = random_below(options.len());
    options[idx].clone()
}

/// Draws `size` characters of `alphabet` and writes them one after the other.
pub fn random_string_from_alphabet(size: usize, alphabet: &[char]) -> (r: String)
    requires
        size > 0 ==> alphabet@.len() > 0,
    ensures
        r@.len() == size,
        forall|i: int| 0 <= i < size ==> alphabet@.contains(#[trigger] r@[i]),
{
    let mut out = String::new();
    let mut i: usize = 0;
    while i < size
        invariant
            i <= size,
            size > 0 ==> alphabet@.len() > 0,
            out@.len() == i,
            forall|j: int| 0 <= j < i ==> alphabet@.contains(#[trigger] out@[j]),
        decreases size - i,
    {
        let element = random_element_from_vector(alphabet);
        out.push(element);
        i = i + 1;
    }
    out
}

} // verus!
