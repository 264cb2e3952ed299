//! Mask layouts: the symbols of a masked document and the positions at which
//! they stand, how a layout is recognised in a text and how it is applied to
//! a bare one.

use crate::common::{
    decimal_digits, decimal_symbols, decimal_value, decimal_values, digits_in, digits_of,
    symbols_of, text_of,
};
use crate::lemmas::{
    fits, lemma_counts, lemma_decimal_concat, lemma_fit_symbols, lemma_symbols_fit,
    lemma_text_of_digits,
};
use vstd::prelude::*;

verus! {

/// A layout can be applied to a text of `len` characters: its positions rise
/// strictly, and each lies within the text as it stands once the symbols
/// before it are in place.
pub open spec fn applicable(len: nat, layout: Seq<(usize, char)>) -> bool {
    &&& forall|j: int, k: int|
        0 <= j < k < layout.len() ==> (#[trigger] layout[j]).0 < (#[trigger] layout[k]).0
    &&& forall|k: int| 0 <= k < layout.len() ==> (#[trigger] layout[k]).0 <= len + k
}

/// The text `doc` with the symbols of `layout` inserted, each at its
/// position in the result.
pub open spec fn masked_form(doc: Seq<char>, layout: Seq<(usize, char)>) -> Seq<char>
    decreases layout.len(),
{
    if layout.len() == 0 {
        doc
    } else {
        masked_form(doc, layout.drop_last()).insert(layout.last().0 as int, layout.last().1)
    }
}

/// A text is the masked form of a document of `size` digits: it has `size`
/// decimal digits, and its symbols are exactly those of `layout`, each at its
/// position.
pub open spec fn has_layout(doc: Seq<char>, size: nat, layout: Seq<(usize, char)>) -> bool {
    digits_of(doc).len() == size && symbols_of(doc) == layout
}

/// A text is a bare document of `size` digits: `size` characters, all of
/// them decimal digits.
pub open spec fn has_size(doc: Seq<char>, size: nat) -> bool {
    doc.len() == size && digits_of(doc).len() == size
}

/// Tells whether a text is a bare document of `size` digits.
pub fn is_bare_of(doc: &str, size: usize) -> (r: bool)
    ensures
        r == has_size(doc@, size as nat),
{
    doc.unicode_len() == size && decimal_digits(doc).len() == size
}

/// Tells whether two lists of symbols are the same.
pub fn same_symbols(found: &[(usize, char)], expected: &[(usize, char)]) -> (r: bool)
    ensures
        r == (found@ == expected@),
{
    if found.len() != expected.len() {
        return false;
    }
    let mut k: usize = 0;
    while k < expected.len()
        invariant
            k <= expected@.len(),
            found@.len() == expected@.len(),
            forall|j: int| 0 <= j < k ==> found@[j] == expected@[j],
        decreases expected@.len() - k,
    {
        if found[k].0 != expected[k].0 || found[k].1 != expected[k].1 {
            assert(found@[k as int] != expected@[k as int]);
            return false;
        }
        k = k + 1;
    }
    assert(found@ =~= expected@);
    true
}

/// Tells whether a text has `size` decimal digits and exactly the symbols of
/// `layout`, each at its position.
pub fn is_masked_of(doc: &str, size: usize, layout: &[(usize, char)]) -> (r: bool)
    ensures
        r == has_layout(doc@, size as nat, layout@),
{
    let symbols = decimal_symbols(doc);
    let digits = decimal_digits(doc);
    if symbols.len() != layout.len() || digits.len() != size {
        return false;
    }
    same_symbols(symbols.as_slice(), layout)
}

/// Pushing a character at the end of a text and inserting symbols commute.
pub proof fn lemma_masked_form_push(doc: Seq<char>, c: char, layout: Seq<(usize, char)>)
    requires
        applicable(doc.len(), layout),
    ensures
        masked_form(doc, layout).len() == doc.len() + layout.len(),
        masked_form(doc.push(c), layout) == masked_form(doc, layout).push(c),
    decreases layout.len(),
{
    if layout.len() > 0 {
        let front = layout.drop_last();
        assert(applicable(doc.len(), front)) by {
            assert forall|j: int, k: int| 0 <= j < k < front.len() implies
                (#[trigger] front[j]).0 < (#[trigger] front[k]).0
            by {
                assert(front[j] == layout[j] && front[k] == layout[k]);
            }
            assert forall|k: int| 0 <= k < front.len() implies (#[trigger] front[k]).0 <= doc.len()
                + k by {
                assert(front[k] == layout[k]);
            }
        }
        lemma_masked_form_push(doc, c, front);
        let p = layout.last().0 as int;
        assert(layout[layout.len() - 1].0 <= doc.len() + layout.len() - 1);
        assert(masked_form(doc, front).push(c).insert(p, layout.last().1) =~= masked_form(
            doc,
            front,
        ).insert(p, layout.last().1).push(c));
    }
}

/// Applies a layout to a text: inserts each symbol at its position.
pub fn insert_symbols(doc: &str, layout: &[(usize, char)]) -> (r: String)
    requires
        applicable(doc@.len(), layout@),
    ensures
        r@ == masked_form(doc@, layout@),
{
    let mut out = String::new();
    let mut k: usize = 0;
    let size = doc.unicode_len();
    let mut i: usize = 0;
    for c in it: doc.chars()
        invariant
            it.seq() == doc@,
            size == doc@.len(),
            i == it.index(),
            k <= layout.len(),
            applicable(doc@.len(), layout@),
            forall|j: int| k <= j < layout@.len() ==> (#[trigger] layout@[j]).0 >= i + k,
            forall|j: int| 0 <= j < k ==> (#[trigger] layout@[j]).0 <= i + j,
            out@ == masked_form(doc@.take(i as int), layout@.take(k as int)),
            out@.len() == i + k,
    {
        while k < layout.len() && layout[k].0 - k == i
            invariant
                i < size,
                size == doc@.len(),
                k <= layout.len(),
                applicable(doc@.len(), layout@),
                forall|j: int| k <= j < layout@.len() ==> (#[trigger] layout@[j]).0 >= i + k,
                forall|j: int| 0 <= j < k ==> (#[trigger] layout@[j]).0 <= i + j,
                out@ == masked_form(doc@.take(i as int), layout@.take(k as int)),
                out@.len() == i + k,
            decreases layout.len() - k,
        {
            out.push(layout[k].1);
            proof {
                assert(layout@.take(k + 1).drop_last() =~= layout@.take(k as int));
                assert(layout@.take(k + 1).last() == layout@[k as int]);
                assert(out@ =~= masked_form(doc@.take(i as int), layout@.take(k + 1)));
                assert forall|j: int| k + 1 <= j < layout@.len() implies (#[trigger] layout@[j]).0
                    >= i + k + 1 by {
                    assert(layout@[k as int].0 < layout@[j].0);
                }
            }
            k = k + 1;
        }
        out.push(c);
        proof {
            let seen = layout@.take(k as int);
            assert(applicable(doc@.take(i as int).len(), seen)) by {
                assert forall|a: int, b: int| 0 <= a < b < seen.len() implies
                    (#[trigger] seen[a]).0 < (#[trigger] seen[b]).0
                by {
                    assert(seen[a] == layout@[a] && seen[b] == layout@[b]);
                }
                assert forall|b: int| 0 <= b < seen.len() implies
                    (#[trigger] seen[b]).0 <= i + b
                by {
                    assert(seen[b] == layout@[b]);
                }
            }
            lemma_masked_form_push(doc@.take(i as int), c, seen);
            assert(doc@.take(i + 1) =~= doc@.take(i as int).push(c));
            assert forall|j: int| k <= j < layout@.len() implies (#[trigger] layout@[j]).0 >= i + 1
                + k by {
                assert(layout@[k as int].0 <= layout@[j].0) by {
                    if k < j {
                        assert(layout@[k as int].0 < layout@[j].0);
                    }
                }
            }
        }
        i = i + 1;
    }
    while k < layout.len()
        invariant
            i == doc@.len(),
            k <= layout.len(),
            applicable(doc@.len(), layout@),
            forall|j: int| k <= j < layout@.len() ==> (#[trigger] layout@[j]).0 >= i + k,
            out@ == masked_form(doc@.take(i as int), layout@.take(k as int)),
            out@.len() == i + k,
        decreases layout.len() - k,
    {
        out.push(layout[k].1);
        proof {
            assert(layout@[k as int].0 <= i + k);
            assert(layout@.take(k + 1).drop_last() =~= layout@.take(k as int));
            assert(layout@.take(k + 1).last() == layout@[k as int]);
            assert(out@ =~= masked_form(doc@.take(i as int), layout@.take(k + 1)));
            assert forall|j: int| k + 1 <= j < layout@.len() implies (#[trigger] layout@[j]).0 >= i
                + k + 1 by {
                assert(layout@[k as int].0 < layout@[j].0);
            }
        }
        k = k + 1;
    }
    proof {
        assert(doc@.take(doc@.len() as int) =~= doc@);
        assert(layout@.take(layout@.len() as int) =~= layout@);
    }
    out
}

/// A text has a layout exactly if it has the length of the masked form, the
/// symbols of the layout stand at their positions, and every other character
/// is a decimal digit: a symbol moved, changed, added or left out breaks it.
pub proof fn lemma_layout_exact(doc: Seq<char>, size: nat, layout: Seq<(usize, char)>)
    requires
        size + layout.len() <= usize::MAX,
    ensures
        has_layout(doc, size, layout) <==> (doc.len() == size + layout.len() && fits(
            doc,
            decimal_values(doc),
            layout,
        )),
{
    lemma_counts(doc, decimal_values(doc));
    if has_layout(doc, size, layout) {
        lemma_symbols_fit(doc, decimal_values(doc));
    }
    if doc.len() == size + layout.len() && fits(doc, decimal_values(doc), layout) {
        lemma_fit_symbols(doc, decimal_values(doc), layout);
    }
}

/// No text is both the bare and the masked form of a document, as long as
/// the layout holds a symbol.
pub proof fn lemma_bare_not_masked(doc: Seq<char>, size: nat, layout: Seq<(usize, char)>)
    requires
        layout.len() > 0,
    ensures
        !(has_size(doc, size) && has_layout(doc, size, layout)),
{
    lemma_counts(doc, decimal_values(doc));
}

/// Applying a layout of symbols to a bare document gives a text with that
/// layout and with the digits of the document.
pub proof fn lemma_masked_form(doc: Seq<char>, layout: Seq<(usize, char)>)
    requires
        applicable(doc.len(), layout),
        doc.len() + layout.len() <= usize::MAX,
        digits_of(doc).len() == doc.len(),
        forall|k: int| 0 <= k < layout.len() ==> decimal_value((#[trigger] layout[k]).1) is None,
    ensures
        masked_form(doc, layout).len() == doc.len() + layout.len(),
        digits_of(masked_form(doc, layout)) == digits_of(doc),
        has_layout(masked_form(doc, layout), doc.len(), layout),
    decreases layout.len(),
{
    if layout.len() == 0 {
        lemma_counts(doc, decimal_values(doc));
        assert(symbols_of(doc) =~= layout);
    } else {
        let front = layout.drop_last();
        let p = layout.last().0 as int;
        let c = layout.last().1;
        assert(applicable(doc.len(), front)) by {
            assert forall|j: int, k: int| 0 <= j < k < front.len() implies
                (#[trigger] front[j]).0 < (#[trigger] front[k]).0
            by {
                assert(front[j] == layout[j] && front[k] == layout[k]);
            }
            assert forall|k: int| 0 <= k < front.len() implies (#[trigger] front[k]).0 <= doc.len()
                + k by {
                assert(front[k] == layout[k]);
            }
        }
        assert forall|k: int| 0 <= k < front.len() implies decimal_value(
            (#[trigger] front[k]).1,
        ) is None by {
            assert(front[k] == layout[k]);
        }
        lemma_masked_form(doc, front);
        let inner = masked_form(doc, front);
        let outer = masked_form(doc, layout);
        assert(layout[layout.len() - 1].0 <= doc.len() + layout.len() - 1);
        assert(outer == inner.insert(p, c));
        assert(outer.len() == inner.len() + 1);
        // The digits: the new symbol adds none.
        let head = inner.subrange(0, p);
        let tail = inner.subrange(p, inner.len() as int);
        assert(outer =~= head + seq![c] + tail);
        assert(inner =~= head + tail);
        lemma_decimal_concat(head + seq![c], tail);
        lemma_decimal_concat(head, seq![c]);
        lemma_decimal_concat(head, tail);
        assert(digits_of(seq![c]) =~= Seq::<u16>::empty()) by {
            assert(decimal_value(layout[layout.len() - 1].1) is None);
            assert(decimal_values(seq![c]) =~= seq![None::<u16>]);
            assert(seq![None::<u16>].drop_last() =~= Seq::<Option<u16>>::empty());
            assert(digits_in(Seq::<Option<u16>>::empty()) =~= Seq::<u16>::empty());
        }
        assert(digits_of(head) + Seq::<u16>::empty() =~= digits_of(head));
        // The symbols: those before, and the new one behind them.
        let vals_in = decimal_values(inner);
        let vals_out = decimal_values(outer);
        lemma_symbols_fit(inner, vals_in);
        assert forall|k: int| 0 <= k < front.len() implies (#[trigger] front[k]).0 < p by {
            assert(front[k] == layout[k]);
            assert(layout[k].0 < layout[layout.len() - 1].0);
        }
        assert forall|k: int| 0 <= k < layout.len() implies {
            let q = (#[trigger] layout[k]).0 as int;
            q < outer.len() && vals_out[q] is None && outer[q] == layout[k].1
        } by {
            if k < front.len() {
                assert(front[k] == layout[k]);
                let q = layout[k].0 as int;
                assert(outer[q] == inner[q]);
            }
        }
        assert forall|i: int| 0 <= i < outer.len() && (#[trigger] vals_out[i]) is None implies
            exists|k: int| 0 <= k < layout.len() && (#[trigger] layout[k]).0 == i
        by {
            if i < p {
                assert(outer[i] == inner[i]);
                assert(vals_in[i] is None);
                let k = choose|k: int| 0 <= k < front.len() && (#[trigger] front[k]).0 == i;
                assert(front[k] == layout[k]);
            } else if i == p {
                assert(layout[layout.len() - 1].0 == i);
            } else {
                assert(outer[i] == inner[i - 1]);
                assert(vals_in[i - 1] is None);
                let k = choose|k: int| 0 <= k < front.len() && (#[trigger] front[k]).0 == i - 1;
                assert(front[k].0 < p);
            }
        }
        lemma_fit_symbols(outer, vals_out, layout);
    }
}

/// Removing the symbols from the masked form of a bare document gives the
/// document back.
pub proof fn lemma_unmask_masked_form(doc: Seq<char>, layout: Seq<(usize, char)>)
    requires
        applicable(doc.len(), layout),
        doc.len() + layout.len() <= usize::MAX,
        digits_of(doc).len() == doc.len(),
        forall|k: int| 0 <= k < layout.len() ==> decimal_value((#[trigger] layout[k]).1) is None,
    ensures
        text_of(digits_of(masked_form(doc, layout))) == doc,
{
    lemma_masked_form(doc, layout);
    lemma_text_of_digits(doc);
}

} // verus!
