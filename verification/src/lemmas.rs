//! Facts about digit and symbol extraction that the document kinds share.

use crate::common::{
    all_decimal, decimal_text, decimal_value, decimal_values, digit_char, digits_in, digits_of,
    repeated, symbols_in, text_of, weighted_sum,
};
use vstd::prelude::*;

verus! {

/// The symbols `layout` stand in `doc` at their positions, in rising order,
/// and every other character of `doc` is read as a digit.
pub open spec fn fits(doc: Seq<char>, vals: Seq<Option<u16>>, layout: Seq<(usize, char)>) -> bool {
    &&& forall|j: int, k: int|
        0 <= j < k < layout.len() ==> (#[trigger] layout[j]).0 < (#[trigger] layout[k]).0
    &&& forall|k: int|
        0 <= k < layout.len() ==> {
            let p = (#[trigger] layout[k]).0 as int;
            p < doc.len() && vals[p] is None && doc[p] == layout[k].1
        }
    &&& forall|i: int|
        0 <= i < doc.len() && (#[trigger] vals[i]) is None ==> exists|k: int|
            0 <= k < layout.len() && (#[trigger] layout[k]).0 == i
}

/// Every character of a text is either a digit or a symbol.
pub proof fn lemma_counts(doc: Seq<char>, vals: Seq<Option<u16>>)
    requires
        vals.len() == doc.len(),
    ensures
        digits_in(vals).len() + symbols_in(doc, vals).len() == doc.len(),
    decreases doc.len(),
{
    if doc.len() > 0 {
        lemma_counts(doc.drop_last(), vals.drop_last());
    }
}

/// The digits of two texts written one after the other are the digits of the
/// first followed by those of the second.
pub proof fn lemma_digits_concat(a: Seq<Option<u16>>, b: Seq<Option<u16>>)
    ensures
        digits_in(a + b) == digits_in(a) + digits_in(b),
    decreases b.len(),
{
    if b.len() == 0 {
        assert(a + b =~= a);
        assert(digits_in(a) + digits_in(b) =~= digits_in(a));
    } else {
        lemma_digits_concat(a, b.drop_last());
        assert((a + b).drop_last() =~= a + b.drop_last());
        assert((a + b).last() == b.last());
        match b.last() {
            Some(d) => {
                assert((digits_in(a) + digits_in(b.drop_last())).push(d) =~= digits_in(a)
                    + digits_in(b.drop_last()).push(d));
            },
            None => {},
        }
    }
}

/// Where every character is read as a digit, the digits are the values read,
/// position by position.
pub proof fn lemma_digits_of_all(vals: Seq<Option<u16>>)
    requires
        forall|i: int| 0 <= i < vals.len() ==> (#[trigger] vals[i]) is Some,
    ensures
        digits_in(vals).len() == vals.len(),
        forall|i: int| 0 <= i < vals.len() ==> vals[i] == Some(#[trigger] digits_in(vals)[i]),
    decreases vals.len(),
{
    if vals.len() > 0 {
        lemma_digits_of_all(vals.drop_last());
        assert forall|i: int| 0 <= i < vals.len() implies vals[i] == Some(
            #[trigger] digits_in(vals)[i],
        ) by {
            if i < vals.len() - 1 {
                assert(vals.drop_last()[i] == vals[i]);
                assert(digits_in(vals.drop_last())[i] == digits_in(vals)[i]);
            }
        }
    }
}

/// No text has more digits than characters.
pub proof fn lemma_digits_len(vals: Seq<Option<u16>>)
    ensures
        digits_in(vals).len() <= vals.len(),
    decreases vals.len(),
{
    if vals.len() > 0 {
        lemma_digits_len(vals.drop_last());
    }
}

/// A text with as many digits as characters holds digits only.
pub proof fn lemma_all_digits(vals: Seq<Option<u16>>)
    requires
        digits_in(vals).len() == vals.len(),
    ensures
        forall|i: int| 0 <= i < vals.len() ==> vals[i] == Some(#[trigger] digits_in(vals)[i]),
        forall|i: int| 0 <= i < vals.len() ==> (#[trigger] vals[i]) is Some,
    decreases vals.len(),
{
    if vals.len() > 0 {
        lemma_digits_len(vals.drop_last());
        lemma_all_digits(vals.drop_last());
        assert forall|i: int| 0 <= i < vals.len() implies vals[i] == Some(
            #[trigger] digits_in(vals)[i],
        ) by {
            if i < vals.len() - 1 {
                assert(vals.drop_last()[i] == vals[i]);
                assert(digits_in(vals.drop_last())[i] == digits_in(vals)[i]);
            }
        }
        assert forall|i: int| 0 <= i < vals.len() implies (#[trigger] vals[i]) is Some by {
            assert(vals[i] == Some(digits_in(vals)[i]));
        }
    }
}

/// The symbols extracted from a text fit that text.
pub proof fn lemma_symbols_fit(doc: Seq<char>, vals: Seq<Option<u16>>)
    requires
        vals.len() == doc.len() <= usize::MAX,
    ensures
        fits(doc, vals, symbols_in(doc, vals)),
    decreases doc.len(),
{
    let layout = symbols_in(doc, vals);
    if doc.len() > 0 {
        let n = doc.len() as int;
        let before = symbols_in(doc.drop_last(), vals.drop_last());
        lemma_symbols_fit(doc.drop_last(), vals.drop_last());
        assert forall|k: int| 0 <= k < before.len() implies {
            let p = (#[trigger] before[k]).0 as int;
            p < n - 1 && vals[p] is None && doc[p] == before[k].1
        } by {
            let p = before[k].0 as int;
            assert(vals.drop_last()[p] == vals[p]);
            assert(doc.drop_last()[p] == doc[p]);
        }
        assert forall|i: int| 0 <= i < doc.len() && (#[trigger] vals[i]) is None implies
            exists|k: int| 0 <= k < layout.len() && (#[trigger] layout[k]).0 == i
        by {
            if i < n - 1 {
                assert(vals.drop_last()[i] is None);
                let k = choose|k: int| 0 <= k < before.len() && (#[trigger] before[k]).0 == i;
                assert(layout[k] == before[k]);
            } else {
                assert(layout[layout.len() - 1].0 == i);
            }
        }
        assert forall|j: int, k: int| 0 <= j < k < layout.len() implies
            (#[trigger] layout[j]).0 < (#[trigger] layout[k]).0
        by {
            assert(layout[j] == before[j]);
            if k < before.len() {
                assert(layout[k] == before[k]);
            }
        }
        assert forall|k: int| 0 <= k < layout.len() implies {
            let p = (#[trigger] layout[k]).0 as int;
            p < doc.len() && vals[p] is None && doc[p] == layout[k].1
        } by {
            if k < before.len() {
                assert(layout[k] == before[k]);
            }
        }
    }
}

/// A text that a layout of symbols fits has exactly those symbols.
pub proof fn lemma_fit_symbols(doc: Seq<char>, vals: Seq<Option<u16>>, layout: Seq<(usize, char)>)
    requires
        vals.len() == doc.len() <= usize::MAX,
        fits(doc, vals, layout),
    ensures
        symbols_in(doc, vals) == layout,
    decreases doc.len(),
{
    if doc.len() == 0 {
        if layout.len() > 0 {
            assert(layout[0].0 < doc.len());
        }
        assert(layout =~= Seq::empty());
    } else {
        let n = doc.len() as int;
        let shorter = doc.drop_last();
        let fewer = vals.drop_last();
        match vals.last() {
            Some(_) => {
                assert forall|k: int| 0 <= k < layout.len() implies {
                    let p = (#[trigger] layout[k]).0 as int;
                    p < shorter.len() && fewer[p] is None && shorter[p] == layout[k].1
                } by {
                    let p = layout[k].0 as int;
                    assert(vals[p] is None);
                    assert(p != n - 1);
                }
                assert forall|i: int|
                    0 <= i < shorter.len() && (#[trigger] fewer[i]) is None implies
                    exists|k: int| 0 <= k < layout.len() && (#[trigger] layout[k]).0 == i
                by {
                    assert(vals[i] is None);
                }
                lemma_fit_symbols(shorter, fewer, layout);
            },
            None => {
                assert(vals[n - 1] is None);
                let k = choose|k: int| 0 <= k < layout.len() && (#[trigger] layout[k]).0 == n - 1;
                if k < layout.len() - 1 {
                    assert(layout[k].0 < layout[k + 1].0);
                    assert(layout[k + 1].0 < doc.len());
                }
                let front = layout.drop_last();
                assert forall|m: int| 0 <= m < front.len() implies {
                    let p = (#[trigger] front[m]).0 as int;
                    p < shorter.len() && fewer[p] is None && shorter[p] == front[m].1
                } by {
                    assert(front[m] == layout[m]);
                    assert(layout[m].0 < layout[k].0);
                }
                assert forall|i: int|
                    0 <= i < shorter.len() && (#[trigger] fewer[i]) is None implies
                    exists|m: int| 0 <= m < front.len() && (#[trigger] front[m]).0 == i
                by {
                    assert(vals[i] is None);
                    let m = choose|m: int| 0 <= m < layout.len() && (#[trigger] layout[m]).0 == i;
                    assert(m != k);
                    assert(front[m] == layout[m]);
                }
                assert forall|j: int, m: int| 0 <= j < m < front.len() implies (
                #[trigger] front[j]).0 < (#[trigger] front[m]).0 by {
                    assert(front[j] == layout[j]);
                    assert(front[m] == layout[m]);
                }
                lemma_fit_symbols(shorter, fewer, front);
                assert(layout.last() == ((n - 1) as usize, doc.last()));
                assert(front.push(layout.last()) =~= layout);
            },
        }
    }
}

/// The decimal digits of a text are decimal digits.
pub proof fn lemma_decimal_digits(doc: Seq<char>)
    ensures
        all_decimal(digits_of(doc)),
        digits_of(doc).len() <= doc.len(),
    decreases doc.len(),
{
    if doc.len() > 0 {
        lemma_decimal_digits(doc.drop_last());
        assert(decimal_values(doc).drop_last() =~= decimal_values(doc.drop_last()));
    }
}

/// The decimal digits of two texts written one after the other.
pub proof fn lemma_decimal_concat(a: Seq<char>, b: Seq<char>)
    ensures
        digits_of(a + b) == digits_of(a) + digits_of(b),
{
    assert(decimal_values(a + b) =~= decimal_values(a) + decimal_values(b));
    lemma_digits_concat(decimal_values(a), decimal_values(b));
}

/// A character is a decimal digit exactly if it writes one, and then it
/// writes its own value.
pub proof fn lemma_digit_char(d: u16)
    requires
        d <= 9,
    ensures
        decimal_value(digit_char(d as int)) == Some(d),
{
}

/// Digits written as text read back as themselves: the text has one
/// character for each digit and no symbol.
pub proof fn lemma_text_of_decimal(digits: Seq<u16>)
    requires
        all_decimal(digits),
    ensures
        text_of(digits).len() == digits.len(),
        forall|i: int|
            0 <= i < digits.len() ==> #[trigger] text_of(digits)[i] == digit_char(digits[i] as int),
        digits_of(text_of(digits)) == digits,
    decreases digits.len(),
{
    if digits.len() == 0 {
        assert(decimal_values(text_of(digits)) =~= Seq::empty());
        assert(digits_of(text_of(digits)) =~= digits);
    } else {
        let front = digits.drop_last();
        let d = digits.last();
        assert(all_decimal(front)) by {
            assert forall|i: int| 0 <= i < front.len() implies #[trigger] front[i] <= 9 by {
                assert(front[i] == digits[i]);
            }
        }
        lemma_text_of_decimal(front);
        assert(digits[digits.len() - 1] <= 9);
        assert(decimal_text(d as nat) =~= seq![digit_char(d as int)]);
        lemma_decimal_concat(text_of(front), decimal_text(d as nat));
        lemma_digit_char(d);
        assert(decimal_values(seq![digit_char(d as int)]) =~= seq![Some(d)]);
        assert(decimal_values(seq![digit_char(d as int)]).drop_last() =~= Seq::empty());
        assert(digits_in(seq![Some(d)]) =~= seq![d]) by {
            assert(seq![Some(d)].drop_last() =~= Seq::<Option<u16>>::empty());
            assert(digits_in(Seq::<Option<u16>>::empty()) =~= Seq::<u16>::empty());
            assert(Seq::<u16>::empty().push(d) =~= seq![d]);
        }
        assert(front + seq![d] =~= digits);
        assert forall|i: int| 0 <= i < digits.len() implies #[trigger] text_of(digits)[i]
            == digit_char(digits[i] as int) by {
            if i < front.len() {
                assert(text_of(digits)[i] == text_of(front)[i]);
                assert(front[i] == digits[i]);
            }
        }
    }
}

/// Replacing one digit changes the weighted sum by the change of the digit
/// times its weight.
pub proof fn lemma_sum_update(digits: Seq<u16>, weights: Seq<int>, i: int, d: u16)
    requires
        0 <= i < digits.len(),
    ensures
        weighted_sum(digits.update(i, d), weights) == weighted_sum(digits, weights) + (d
            - digits[i]) * weights[i],
    decreases digits.len(),
{
    let n = digits.len() as int;
    if i == n - 1 {
        assert(digits.update(i, d).drop_last() =~= digits.drop_last());
        assert(d * weights[i] - digits[i] * weights[i] == (d - digits[i]) * weights[i])
            by (nonlinear_arith);
    } else {
        lemma_sum_update(digits.drop_last(), weights, i, d);
        assert(digits.update(i, d).drop_last() =~= digits.drop_last().update(i, d));
    }
}

/// A symbol inserted into a text adds no digit.
pub proof fn lemma_digits_insert(vals: Seq<Option<u16>>, p: int)
    requires
        0 <= p <= vals.len(),
    ensures
        digits_in(vals.insert(p, None)) == digits_in(vals),
{
    let head = vals.take(p);
    let tail = vals.skip(p);
    let one = seq![None::<u16>];
    assert(vals.insert(p, None) =~= head + one + tail);
    assert(vals =~= head + tail);
    lemma_digits_concat(head + one, tail);
    lemma_digits_concat(head, one);
    lemma_digits_concat(head, tail);
    assert(digits_in(one) =~= Seq::<u16>::empty()) by {
        assert(one.drop_last() =~= Seq::<Option<u16>>::empty());
        assert(digits_in(Seq::<Option<u16>>::empty()) =~= Seq::<u16>::empty());
    }
    assert(digits_in(head) + Seq::<u16>::empty() =~= digits_in(head));
}

/// A digit written behind a text is the last of its digits.
pub proof fn lemma_digits_push(vals: Seq<Option<u16>>, d: u16)
    ensures
        digits_in(vals.push(Some(d))) == digits_in(vals).push(d),
{
    assert(vals.push(Some(d)).drop_last() =~= vals);
}

/// The sum of the first `n` weights.
pub open spec fn weights_total(weights: Seq<int>, n: nat) -> int
    decreases n,
{
    if n == 0 {
        0
    } else {
        weights_total(weights, (n - 1) as nat) + weights[n - 1]
    }
}

/// The weighted sum of one numeral repeated is the numeral times the sum of
/// the weights.
pub proof fn lemma_repeated_sum(digits: Seq<u16>, weights: Seq<int>, d: u16)
    requires
        forall|i: int| 0 <= i < digits.len() ==> #[trigger] digits[i] == d,
    ensures
        weighted_sum(digits, weights) == d * weights_total(weights, digits.len()),
    decreases digits.len(),
{
    if digits.len() > 0 {
        let n = digits.len() as int;
        let front = digits.drop_last();
        assert forall|i: int| 0 <= i < front.len() implies #[trigger] front[i] == d by {
            assert(front[i] == digits[i]);
        }
        lemma_repeated_sum(front, weights, d);
        assert(digits[n - 1] == d);
        assert(d * weights_total(weights, (n - 1) as nat) + d * weights[n - 1] == d * (
        weights_total(weights, (n - 1) as nat) + weights[n - 1])) by (nonlinear_arith);
    }
}

/// A text of decimal digits only is its digits written as text.
pub proof fn lemma_text_of_digits(doc: Seq<char>)
    requires
        digits_of(doc).len() == doc.len(),
    ensures
        text_of(digits_of(doc)) == doc,
    decreases doc.len(),
{
    if doc.len() == 0 {
        assert(text_of(digits_of(doc)) =~= doc);
    } else {
        let front = doc.drop_last();
        let c = doc.last();
        lemma_all_digits(decimal_values(doc));
        assert(decimal_values(doc)[doc.len() - 1] is Some);
        let d = decimal_value(c)->0;
        assert(decimal_values(doc) =~= decimal_values(front).push(Some(d)));
        lemma_digits_push(decimal_values(front), d);
        assert(digits_of(doc).drop_last() =~= digits_of(front));
        lemma_text_of_digits(front);
        assert(decimal_text(d as nat) =~= seq![c]);
        assert(front + seq![c] =~= doc);
    }
}

/// Digits hold a single numeral exactly if the set of their values has one
/// element.
pub proof fn lemma_repeated_one_numeral(digits: Seq<u16>)
    ensures
        repeated(digits) <==> digits.to_set().len() == 1,
{
    broadcast use vstd::set_lib::group_set_properties;

    let values = digits.to_set();
    vstd::seq_lib::seq_to_set_is_finite(digits);
    Set::lemma_is_singleton(values);
    if repeated(digits) {
        assert(values.contains(digits[0]));
        assert forall|x: u16, y: u16| values.contains(x) && values.contains(y) implies x == y by {
            let i = choose|i: int| 0 <= i < digits.len() && digits[i] == x;
            let j = choose|j: int| 0 <= j < digits.len() && digits[j] == y;
            assert(digits[i] == digits[0] && digits[j] == digits[0]);
        }
    }
    if values.len() == 1 {
        if digits.len() == 0 {
            assert(values =~= Set::empty());
        }
        assert forall|i: int| 0 <= i < digits.len() implies #[trigger] digits[i] == digits[0] by {
            assert(values.contains(digits[i]) && values.contains(digits[0]));
        }
    }
}

} // verus!
