//! The token estimate.

use vstd::multiset::Multiset;
use vstd::prelude::*;

verus! {

/// Whether `c` is a Chinese, Japanese, Korean or full-width character.
pub open spec fn is_cjk(c: char) -> bool {
    let code = c as u32;
    ||| 0x3400 <= code <= 0x4DBF  // CJK extension A
    ||| 0x4E00 <= code <= 0x9FFF  // CJK unified ideographs
    ||| 0x3040 <= code <= 0x30FF  // Japanese kana
    ||| 0xAC00 <= code <= 0xD7AF  // Korean
    ||| 0xF900 <= code <= 0xFAFF  // CJK compatibility ideographs
    ||| 0xFF00 <= code <= 0xFFEF  // full-width forms

}

/// Whether `c` is a Chinese, Japanese, Korean or full-width character.
pub fn is_cjk_char(c: char) -> (found: bool)
    ensures
        found == is_cjk(c),
{
    let code: u32 = c as u32;
    (0x3400 <= code && code <= 0x4DBF) || (0x4E00 <= code && code <= 0x9FFF) || (0x3040 <= code
        && code <= 0x30FF) || (0xAC00 <= code && code <= 0xD7AF) || (0xF900 <= code && code
        <= 0xFAFF) || (0xFF00 <= code && code <= 0xFFEF)
}

/// How many characters of `text` are Chinese, Japanese, Korean or full-width.
pub open spec fn cjk_count(text: Seq<char>) -> nat {
    text.filter(|c: char| is_cjk(c)).len()
}

/// The estimate: one token for each CJK character, and one for each three of the others,
/// rounded up.
pub open spec fn token_estimate(text: Seq<char>) -> int {
    let others = text.len() - cjk_count(text);
    cjk_count(text) + (others + 2) / 3
}

proof fn lemma_cjk_count_push(text: Seq<char>, c: char)
    ensures
        cjk_count(text.push(c)) == cjk_count(text) + if is_cjk(c) {
            1nat
        } else {
            0nat
        },
{
    reveal(Seq::filter);
    assert(text.push(c).drop_last() =~= text);
}

proof fn lemma_cjk_count_bound(text: Seq<char>)
    ensures
        cjk_count(text) <= text.len(),
{
    text.lemma_filter_len(|c: char| is_cjk(c));
}

/// A text of CJK characters alone counts one token for each character.
pub proof fn law_cjk_text_counts_each_character(text: Seq<char>)
    requires
        forall|i: int| 0 <= i < text.len() ==> is_cjk(#[trigger] text[i]),
    ensures
        token_estimate(text) == text.len(),
    decreases text.len(),
{
    if text.len() > 0 {
        law_cjk_text_counts_each_character(text.drop_last());
        lemma_cjk_count_push(text.drop_last(), text.last());
        assert(text.drop_last().push(text.last()) =~= text);
        lemma_cjk_count_bound(text.drop_last());
    } else {
        lemma_cjk_count_bound(text);
    }
}

/// A text without CJK characters counts one token for each three characters, rounded up.
pub proof fn law_other_text_counts_thirds(text: Seq<char>)
    requires
        forall|i: int| 0 <= i < text.len() ==> !is_cjk(#[trigger] text[i]),
    ensures
        token_estimate(text) == (text.len() + 2) / 3,
{
    lemma_no_cjk(text);
}

proof fn lemma_no_cjk(text: Seq<char>)
    requires
        forall|i: int| 0 <= i < text.len() ==> !is_cjk(#[trigger] text[i]),
    ensures
        cjk_count(text) == 0,
    decreases text.len(),
{
    if text.len() > 0 {
        lemma_no_cjk(text.drop_last());
        lemma_cjk_count_push(text.drop_last(), text.last());
        assert(text.drop_last().push(text.last()) =~= text);
    } else {
        lemma_cjk_count_bound(text);
    }
}

/// The estimate is never more than the number of characters and never less than a third of
/// it. So it is zero for the empty text alone.
pub proof fn law_estimate_is_bounded_by_length(text: Seq<char>)
    ensures
        token_estimate(text) <= text.len() <= 3 * token_estimate(text),
        token_estimate(text) == 0 <==> text.len() == 0,
{
    lemma_cjk_count_bound(text);
}

/// Counting two texts apart gives at most one token more than counting them as one, and
/// never less; the order of the two does not matter.
pub proof fn law_estimate_of_two_texts(first: Seq<char>, second: Seq<char>)
    ensures
        token_estimate(first + second) <= token_estimate(first) + token_estimate(second),
        token_estimate(first) + token_estimate(second) <= token_estimate(first + second) + 1,
        token_estimate(first + second) == token_estimate(second + first),
{
    let pred = |c: char| is_cjk(c);
    Seq::filter_distributes_over_add(first, second, pred);
    Seq::filter_distributes_over_add(second, first, pred);
    lemma_cjk_count_bound(first);
    lemma_cjk_count_bound(second);
}

/// A longer text never counts less: adding characters before or after a text does not lower
/// its estimate.
pub proof fn law_longer_text_counts_no_less(first: Seq<char>, second: Seq<char>)
    ensures
        token_estimate(first) <= token_estimate(first + second),
        token_estimate(second) <= token_estimate(first + second),
{
    Seq::filter_distributes_over_add(first, second, |c: char| is_cjk(c));
    lemma_cjk_count_bound(first);
    lemma_cjk_count_bound(second);
}

proof fn lemma_cjk_count_of_multiset(text: Seq<char>)
    ensures
        cjk_count(text) == text.to_multiset().filter(|c: char| is_cjk(c)).len(),
    decreases text.len(),
{
    broadcast use vstd::multiset::group_multiset_axioms;

    let pred = |c: char| is_cjk(c);
    text.to_multiset_ensures();
    if text.len() == 0 {
        lemma_cjk_count_bound(text);
        assert(text.to_multiset().filter(pred) =~= Multiset::empty());
    } else {
        let head = text.drop_last();
        let last = text.last();
        lemma_cjk_count_of_multiset(head);
        lemma_cjk_count_push(head, last);
        assert(head.push(last) =~= text);
        head.to_multiset_ensures();
        assert(text.to_multiset() =~= head.to_multiset().insert(last));
        if is_cjk(last) {
            assert(text.to_multiset().filter(pred) =~= head.to_multiset().filter(pred).insert(
                last,
            ));
        } else {
            assert(text.to_multiset().filter(pred) =~= head.to_multiset().filter(pred));
        }
    }
}

/// The order of the characters does not matter.
pub proof fn law_order_of_characters_does_not_matter(first: Seq<char>, second: Seq<char>)
    requires
        first.to_multiset() == second.to_multiset(),
    ensures
        token_estimate(first) == token_estimate(second),
{
    lemma_cjk_count_of_multiset(first);
    lemma_cjk_count_of_multiset(second);
    first.to_multiset_ensures();
    second.to_multiset_ensures();
}

/// Estimates how many tokens `text` takes.
pub fn estimate_tokens(text: &str) -> (tokens: u64)
    ensures
        tokens == token_estimate(text@),
{
    let length: usize = text.unicode_len();
    let mut cjk: u64 = 0;
    let mut other: u64 = 0;
    proof {
        reveal(Seq::filter);
    }
    for c in it: text.chars()
        invariant
            length == text@.len(),
            it.seq() == text@,
            cjk + other == it.index(),
            it.index() <= text@.len(),
            cjk == cjk_count(text@.take(it.index())),
    {
        proof {
            lemma_cjk_count_push(text@.take(it.index()), c);
            assert(text@.take(it.index() + 1) =~= text@.take(it.index()).push(c));
        }
        if is_cjk_char(c) {
            cjk += 1;
        } else {
            other += 1;
        }
    }
    assert(text@.take(text@.len() as int) =~= text@);
    let full: u64 = other / 3;
    let rest: u64 = if other % 3 == 0 {
        0
    } else {
        1
    };
    cjk + (full + rest)
}

} // verus!
