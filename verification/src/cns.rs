//! Cartão Nacional de Saúde (CNS): fifteen digits, masked as
//! `XXX XXXX XXXX XXXX`. A number that begins with 1 or 2 ends in four digits
//! derived from the first eleven; one that begins with 7, 8 or 9 has a
//! weighted sum that eleven divides.

use crate::common::{
    all_decimal, decimal_digits, decimal_values, digits_of, join_digits,
    random_decimal_vector, random_element_from_vector, sum_weighted, text_of, weighted_sum,
    weights_of,
};
use crate::layout::{
    has_layout, has_size, insert_symbols, is_bare_of, is_masked_of, lemma_bare_not_masked,
    lemma_layout_exact, lemma_masked_form, masked_form,
};
use crate::lemmas::{fits, lemma_sum_update, lemma_text_of_decimal};
use vstd::prelude::*;

verus! {

/// The weights of the digits: fifteen down to one.
pub open spec fn weights() -> Seq<int> {
    Seq::new(15, |i: int| 15 - i)
}

/// The weighted sum of the digits.
pub open spec fn checksum(digits: Seq<u16>) -> int {
    weighted_sum(digits, weights())
}

/// A first digit that a CNS may have.
pub open spec fn first_digit_ok(digit: u16) -> bool {
    digit == 1 || digit == 2 || digit == 7 || digit == 8 || digit == 9
}

/// The last four digits of a CNS that begins with 1 or 2, from its first
/// eleven: three zeros and eleven less the weighted sum modulo eleven, with
/// eleven written as zero; where that digit would be ten, the four digits are
/// `001` and the digit taken again after adding two to the sum.
pub open spec fn last_four_digits(head: Seq<u16>) -> Seq<u16> {
    let sum = checksum(head);
    let digit = if sum % 11 == 0 {
        0
    } else {
        11 - sum % 11
    };
    if digit == 10 {
        seq![0u16, 0u16, 1u16, (11 - (sum + 2) % 11) as u16]
    } else {
        seq![0u16, 0u16, 0u16, digit as u16]
    }
}

/// The check of the fifteen digits of a CNS.
pub open spec fn checksum_ok(digits: Seq<u16>) -> bool {
    if digits[0] == 1 || digits[0] == 2 {
        digits.subrange(11, 15) == last_four_digits(digits.subrange(0, 11))
    } else {
        checksum(digits) % 11 == 0
    }
}

/// The symbols of a masked CNS.
pub open spec fn layout() -> Seq<(usize, char)> {
    seq![(3usize, ' '), (8usize, ' '), (13usize, ' ')]
}

/// `doc` is a CNS without symbols: fifteen characters, all decimal digits.
pub open spec fn bare(doc: Seq<char>) -> bool {
    has_size(doc, 15)
}

/// `doc` is a CNS with its symbols: fifteen digits, and exactly the symbols
/// of the layout, each at its position.
pub open spec fn masked(doc: Seq<char>) -> bool {
    has_layout(doc, 15, layout())
}

/// `doc` is a valid CNS, masked or not.
pub open spec fn valid(doc: Seq<char>) -> bool {
    let digits = digits_of(doc);
    &&& doc.len() == 15 || masked(doc)
    &&& digits.len() == 15
    &&& first_digit_ok(digits[0])
    &&& checksum_ok(digits)
}

/// The search that closes a weighted sum: `val` is what the sum still lacks
/// and `idx` the digit looked at. A digit whose weight is above `val` is
/// passed over to the right. Another one is raised by one, which takes its
/// weight off `val`; a nine cannot be raised, so it is lowered, its weight is
/// added to `val`, and the search moves one digit to the left. The search
/// ends with the digits when `val` is zero, and with nothing when it has
/// taken `fuel` steps or would have to lower the first or second digit.
pub open spec fn search(digits: Seq<u16>, val: int, idx: int, fuel: nat) -> Option<Seq<u16>>
    decreases fuel,
{
    if val == 0 {
        Some(digits)
    } else if fuel == 0 {
        None
    } else if 15 - idx > val {
        search(digits, val, idx + 1, (fuel - 1) as nat)
    } else if digits[idx] != 9 {
        search(
            digits.update(idx, (digits[idx] + 1) as u16),
            val - (15 - idx),
            idx,
            (fuel - 1) as nat,
        )
    } else if idx <= 1 {
        None
    } else {
        search(digits.update(idx, 8), val + (15 - idx), idx - 1, (fuel - 1) as nat)
    }
}

/// The number of steps that a search may take.
pub const SEARCH_LIMIT: usize = 100;

/// The number of times that digits are drawn for the search.
pub const DRAWS: usize = 8;

/// The digits that the search makes of fifteen drawn ones, if it finds any:
/// the drawn digits where eleven divides their sum already; else the search
/// starts with what the sum lacks to the next multiple of eleven, at the
/// digit that has that weight.
pub open spec fn adjusted(cns: Seq<u16>) -> Option<Seq<u16>> {
    let rest = checksum(cns) % 11;
    if rest == 0 {
        Some(cns)
    } else {
        search(cns, 11 - rest, 4 + rest, SEARCH_LIMIT as nat)
    }
}

/// The digits with the last two replaced by the pair that closes the sum:
/// zero and what the other digits lack to a multiple of eleven, or one and
/// eight where they lack ten.
pub open spec fn with_closing_pair(cns: Seq<u16>) -> Seq<u16> {
    let others = cns.update(13, 0).update(14, 0);
    let lack = (11 - checksum(others) % 11) % 11;
    if lack == 10 {
        cns.update(13, 1).update(14, 8)
    } else {
        cns.update(13, 0).update(14, lack as u16)
    }
}

/// Validates a CNS, masked or not.
pub fn validate(doc: &str) -> (r: bool)
    ensures
        r == valid(doc@),
{
    let size: usize = doc.unicode_len();
    if size != 15 && !is_masked(doc) {
        return false;
    }
    let digits: Vec<u16> = decimal_digits(doc);
    if digits.len() != 15 || is_first_digit_invalid(&digits[0]) {
        return false;
    }
    validate_checksum(digits.as_slice())
}

/// The first digits that a CNS may have.
pub fn valid_first_digits() -> (r: Vec<u16>)
    ensures
        r@ == seq![1u16, 2u16, 7u16, 8u16, 9u16],
{
    let mut digits: Vec<u16> = Vec::new();
    digits.push(1);
    digits.push(2);
    digits.push(7);
    digits.push(8);
    digits.push(9);
    assert(digits@ =~= seq![1u16, 2u16, 7u16, 8u16, 9u16]);
    digits
}

/// Tells whether a CNS may begin with `digit`.
pub fn is_first_digit_valid(digit: &u16) -> (r: bool)
    ensures
        r == first_digit_ok(*digit),
{
    let allowed = valid_first_digits();
    let mut i: usize = 0;
    while i < allowed.len()
        invariant
            i <= allowed@.len(),
            allowed@ == seq![1u16, 2u16, 7u16, 8u16, 9u16],
            forall|j: int| 0 <= j < i ==> allowed@[j] != *digit,
        decreases allowed@.len() - i,
    {
        if allowed[i] == *digit {
            return true;
        }
        i = i + 1;
    }
    assert(allowed@[0] != *digit && allowed@[1] != *digit && allowed@[2] != *digit && allowed@[3]
        != *digit && allowed@[4] != *digit);
    false
}

/// Tells whether no CNS begins with `digit`.
pub fn is_first_digit_invalid(digit: &u16) -> (r: bool)
    ensures
        r == !first_digit_ok(*digit),
{
    !is_first_digit_valid(digit)
}

/// Checks the fifteen digits of a CNS.
pub fn validate_checksum(doc_slice: &[u16]) -> (r: bool)
    requires
        doc_slice@.len() == 15,
    ensures
        r == checksum_ok(doc_slice@),
{
    if doc_slice[0] == 1 || doc_slice[0] == 2 {
        let check_digits: Vec<u16> = generate_last_four_digits(
            vstd::slice::slice_subrange(doc_slice, 0, 11),
        );
        let r = doc_slice[11] == check_digits[0] && doc_slice[12] == check_digits[1]
            && doc_slice[13] == check_digits[2] && doc_slice[14] == check_digits[3];
        proof {
            let given = doc_slice@.subrange(11, 15);
            if r {
                assert(given =~= check_digits@);
            } else {
                assert(given[0] != check_digits@[0] || given[1] != check_digits@[1] || given[2]
                    != check_digits@[2] || given[3] != check_digits@[3]);
            }
        }
        r
    } else {
        let sum: u64 = cns_sum(doc_slice);
        sum % 11 == 0
    }
}

/// Computes the weighted sum of at most fifteen digits.
pub fn cns_sum(doc_slice: &[u16]) -> (r: u64)
    requires
        doc_slice@.len() <= 15,
    ensures
        r == checksum(doc_slice@),
{
    let table: [u16; 15] = [15, 14, 13, 12, 11, 10, 9, 8, 7, 6, 5, 4, 3, 2, 1];
    assert(weights_of(table@) =~= weights());
    sum_weighted(doc_slice, table.as_slice())
}

/// Computes the last four digits of a CNS that begins with 1 or 2 from its
/// first eleven digits.
pub fn generate_last_four_digits(doc_slice: &[u16]) -> (r: Vec<u16>)
    requires
        doc_slice@.len() <= 15,
    ensures
        r@ == last_four_digits(doc_slice@),
        r@.len() == 4,
        all_decimal(r@),
{
    let mut sum: u64 = cns_sum(doc_slice);
    let mut check_digit: u64 = 11 - (sum % 11);
    if check_digit == 11 {
        check_digit = 0;
    }
    let mut check_digits: Vec<u16> = Vec::new();
    check_digits.push(0);
    check_digits.push(0);
    if check_digit == 10 {
        sum = sum + 2;
        check_digit = 11 - (sum % 11);
        check_digits.push(1);
    } else {
        check_digits.push(0);
    }
    check_digits.push(check_digit as u16);
    assert(check_digits@ =~= last_four_digits(doc_slice@));
    check_digits
}

/// Tells whether a text can be a CNS without symbols.
pub fn is_bare(doc: &str) -> (r: bool)
    ensures
        r == bare(doc@),
{
    is_bare_of(doc, 15)
}

/// The layout of a masked CNS.
pub fn mask_layout() -> (r: Vec<(usize, char)>)
    ensures
        r@ == layout(),
{
    let mut symbols: Vec<(usize, char)> = Vec::new();
    symbols.push((3, ' '));
    symbols.push((8, ' '));
    symbols.push((13, ' '));
    assert(symbols@ =~= layout());
    symbols
}

/// Tells whether a text can be a CNS with its symbols.
pub fn is_masked(doc: &str) -> (r: bool)
    ensures
        r == masked(doc@),
{
    is_masked_of(doc, 15, mask_layout().as_slice())
}

/// Applies the mask of a CNS to a text without symbols; any other
/// text is refused.
pub fn mask(doc: &str) -> (r: Result<String, &'static str>)
    ensures
        bare(doc@) ==> (r matches Ok(s) && s@ == masked_form(doc@, layout())),
        !bare(doc@) ==> (r matches Err(e) && e@ == "The given string cannot be masked as CNS!"@),
{
    if !is_bare(doc) {
        return Err("The given string cannot be masked as CNS!");
    }
    Ok(insert_symbols(doc, mask_layout().as_slice()))
}

/// Closes the weighted sum of fifteen drawn digits by the search: the result
/// has the first digit of the drawn ones and a sum that eleven divides.
pub fn adjust(cns: &[u16]) -> (r: Option<Vec<u16>>)
    requires
        cns@.len() == 15,
        all_decimal(cns@),
    ensures
        match r {
            Some(digits) => adjusted(cns@) == Some(digits@),
            None => adjusted(cns@) is None,
        },
        r matches Some(digits) ==> {
            &&& digits@.len() == 15
            &&& all_decimal(digits@)
            &&& digits@[0] == cns@[0]
            &&& checksum(digits@) % 11 == 0
        },
{
    let mut digits: Vec<u16> = Vec::new();
    digits.extend_from_slice(cns);
    assert(digits@ =~= cns@);
    let rest: usize = (cns_sum(cns) % 11) as usize;
    if rest == 0 {
        return Some(digits);
    }
    let mut val: usize = 11 - rest;
    let mut idx: usize = 15 - val;
    let mut fuel: usize = SEARCH_LIMIT;
    while fuel > 0 && val != 0
        invariant
            cns@.len() == 15,
            digits@.len() == 15,
            all_decimal(digits@),
            digits@[0] == cns@[0],
            1 <= idx <= 14,
            fuel <= SEARCH_LIMIT,
            val <= 11 + 14 * (SEARCH_LIMIT - fuel),
            (checksum(digits@) + val) % 11 == 0,
            search(digits@, val as int, idx as int, fuel as nat) == adjusted(cns@),
        decreases fuel,
    {
        let weight: usize = 15 - idx;
        if weight > val {
            idx = idx + 1;
        } else if digits[idx] != 9 {
            proof {
                assert(digits@[idx as int] <= 9);
                let raised = (digits@[idx as int] + 1) as u16;
                lemma_sum_update(digits@, weights(), idx as int, raised);
                assert((raised - digits@[idx as int]) * weights()[idx as int] == 15 - idx)
                    by (nonlinear_arith)
                    requires
                        raised - digits@[idx as int] == 1,
                        weights()[idx as int] == 15 - idx,
                ;
            }
            let raised: u16 = digits[idx] + 1;
            digits.set(idx, raised);
            val = val - weight;
        } else if idx <= 1 {
            return None;
        } else {
            proof {
                lemma_sum_update(digits@, weights(), idx as int, 8);
                assert((8 - digits@[idx as int]) * weights()[idx as int] == idx - 15)
                    by (nonlinear_arith)
                    requires
                        8 - digits@[idx as int] == -1,
                        weights()[idx as int] == 15 - idx,
                ;
            }
            digits.set(idx, 8);
            val = val + weight;
            idx = idx - 1;
        }
        fuel = fuel - 1;
    }
    if val == 0 {
        Some(digits)
    } else {
        None
    }
}

/// Closes the weighted sum of fifteen digits by its last two.
pub fn close_with_pair(cns: &[u16]) -> (r: Vec<u16>)
    requires
        cns@.len() == 15,
        all_decimal(cns@),
    ensures
        r@ == with_closing_pair(cns@),
        r@.len() == 15,
        all_decimal(r@),
        r@[0] == cns@[0],
        checksum(r@) % 11 == 0,
{
    let mut digits: Vec<u16> = Vec::new();
    digits.extend_from_slice(cns);
    assert(digits@ =~= cns@);
    digits.set(13, 0);
    digits.set(14, 0);
    let open_sum: u64 = cns_sum(digits.as_slice());
    let lack: u16 = ((11 - open_sum % 11) % 11) as u16;
    proof {
        lemma_sum_update(digits@, weights(), 13, 1);
        lemma_sum_update(digits@.update(13, 1), weights(), 14, 8);
        lemma_sum_update(digits@, weights(), 14, lack);
        assert(digits@.update(13, 1).update(14, 8) =~= cns@.update(13, 1).update(14, 8));
        assert(digits@.update(14, lack) =~= cns@.update(13, 0).update(14, lack));
    }
    if lack == 10 {
        digits.set(13, 1);
        digits.set(14, 8);
    } else {
        digits.set(14, lack);
    }
    digits
}

/// Makes the text of fifteen digits that pass the check.
fn document_of(cns: &[u16]) -> (r: String)
    requires
        cns@.len() == 15,
        all_decimal(cns@),
        first_digit_ok(cns@[0]),
        checksum_ok(cns@),
    ensures
        r@ == text_of(cns@),
        bare(r@),
        valid(r@),
{
    proof {
        lemma_text_of_decimal(cns@);
    }
    join_digits(cns)
}

/// Generates a random CNS without symbols.
pub fn generate() -> (r: String)
    ensures
        bare(r@),
        valid(r@),
{
    let first_digit: u16 = random_element_from_vector(valid_first_digits().as_slice());
    let cns: Vec<u16> = if first_digit == 1 || first_digit == 2 {
        generate_first_case(first_digit)
    } else {
        generate_second_case(first_digit)
    };
    document_of(cns.as_slice())
}

/// Makes the digits of a CNS that begins with `first_digit`, 1 or 2: ten
/// drawn digits follow it, and the four that are derived from those eleven.
pub fn generate_first_case(first_digit: u16) -> (r: Vec<u16>)
    requires
        first_digit == 1 || first_digit == 2,
    ensures
        r@.len() == 15,
        all_decimal(r@),
        r@[0] == first_digit,
        checksum_ok(r@),
{
    let mut cns: Vec<u16> = Vec::new();
    cns.push(first_digit);
    let drawn: Vec<u16> = random_decimal_vector(10);
    cns.extend_from_slice(drawn.as_slice());
    let ghost head = cns@;
    let tail: Vec<u16> = generate_last_four_digits(cns.as_slice());
    cns.extend_from_slice(tail.as_slice());
    proof {
        assert(cns@.subrange(0, 11) =~= head);
        assert(cns@.subrange(11, 15) =~= tail@);
        assert forall|i: int| 0 <= i < cns@.len() implies #[trigger] cns@[i] <= 9 by {
            if 1 <= i < 11 {
                assert(cns@[i] == drawn@[i - 1]);
            } else if i >= 11 {
                assert(cns@[i] == tail@[i - 11]);
            }
        }
    }
    cns
}

/// Makes the digits of a CNS that begins with `first_digit`, 7, 8 or 9:
/// fourteen drawn digits follow it, and the search closes their sum. Where
/// the search finds nothing, the digits are drawn again, a few times; in the
/// end the last two digits close the sum.
pub fn generate_second_case(first_digit: u16) -> (r: Vec<u16>)
    requires
        first_digit == 7 || first_digit == 8 || first_digit == 9,
    ensures
        r@.len() == 15,
        all_decimal(r@),
        r@[0] == first_digit,
        checksum_ok(r@),
{
    let mut tries: usize = 0;
    while tries < DRAWS
        invariant
            first_digit == 7 || first_digit == 8 || first_digit == 9,
        decreases DRAWS - tries,
    {
        let cns: Vec<u16> = draw_after(first_digit);
        match adjust(cns.as_slice()) {
            Some(digits) => {
                return digits;
            },
            None => {},
        }
        tries = tries + 1;
    }
    let cns: Vec<u16> = draw_after(first_digit);
    close_with_pair(cns.as_slice())
}

/// Draws fourteen digits to follow `first_digit`.
fn draw_after(first_digit: u16) -> (r: Vec<u16>)
    requires
        first_digit <= 9,
    ensures
        r@.len() == 15,
        all_decimal(r@),
        r@[0] == first_digit,
{
    let mut cns: Vec<u16> = Vec::new();
    cns.push(first_digit);
    let drawn: Vec<u16> = random_decimal_vector(14);
    cns.extend_from_slice(drawn.as_slice());
    proof {
        assert forall|i: int| 0 <= i < cns@.len() implies #[trigger] cns@[i] <= 9 by {
            if i >= 1 {
                assert(cns@[i] == drawn@[i - 1]);
            }
        }
    }
    cns
}

/// Generates a random CNS with its symbols.
pub fn generate_masked() -> (r: String)
    ensures
        masked(r@),
        valid(r@),
{
    let doc = generate();
    proof {
        lemma_mask_keeps(doc@);
    }
    mask(doc.as_str()).unwrap()
}

/// The masked form of a bare CNS is masked and has the same digits, so it
/// is valid exactly if the bare form is.
pub proof fn lemma_mask_keeps(doc: Seq<char>)
    requires
        bare(doc),
    ensures
        masked(masked_form(doc, layout())),
        digits_of(masked_form(doc, layout())) == digits_of(doc),
        valid(masked_form(doc, layout())) == valid(doc),
{
    lemma_masked_form(doc, layout());
}

/// No text is both a bare and a masked CNS.
pub proof fn lemma_never_both(doc: Seq<char>)
    ensures
        !(bare(doc) && masked(doc)),
{
    lemma_bare_not_masked(doc, 15, layout());
}

/// A text is a masked CNS exactly if it has eighteen characters, the
/// symbols of the layout stand at their positions and every other character
/// is a decimal digit.
pub proof fn lemma_masked_exact(doc: Seq<char>)
    ensures
        masked(doc) <==> (doc.len() == 18 && fits(doc, decimal_values(doc), layout())),
{
    lemma_layout_exact(doc, 15, layout());
}

/// The last four digits of a CNS that begins with 1 or 2 are owed to the
/// first eleven alone: two valid documents with the same first eleven digits
/// have the same digits.
pub proof fn lemma_head_decides(a: Seq<char>, b: Seq<char>)
    requires
        valid(a),
        valid(b),
        digits_of(a)[0] == 1 || digits_of(a)[0] == 2,
        digits_of(a).subrange(0, 11) == digits_of(b).subrange(0, 11),
    ensures
        digits_of(a) == digits_of(b),
{
    let x = digits_of(a);
    let y = digits_of(b);
    assert(x[0] == x.subrange(0, 11)[0] && y[0] == y.subrange(0, 11)[0]);
    assert(x.subrange(11, 15) == y.subrange(11, 15));
    assert forall|i: int| 0 <= i < 15 implies x[i] == y[i] by {
        if i < 11 {
            assert(x[i] == x.subrange(0, 11)[i]);
            assert(y[i] == y.subrange(0, 11)[i]);
        } else {
            assert(x[i] == x.subrange(11, 15)[i - 11]);
            assert(y[i] == y.subrange(11, 15)[i - 11]);
        }
    }
    assert(x =~= y);
}

} // verus!
