//! Texts: joining them, and comparing them after a clean-up.

use vstd::prelude::*;

verus! {

/// The parts one after the other, with `separator` between each two.
pub open spec fn joined(parts: Seq<Seq<char>>, separator: Seq<char>) -> Seq<char>
    decreases parts.len(),
{
    if parts.len() == 0 {
        Seq::empty()
    } else if parts.len() == 1 {
        parts[0]
    } else {
        joined(parts.drop_last(), separator) + separator + parts.last()
    }
}

/// What the strings say.
pub open spec fn texts(parts: Seq<String>) -> Seq<Seq<char>> {
    Seq::new(parts.len(), |i: int| parts[i]@)
}

/// The parts one after the other, with `separator` between each two.
pub fn join(parts: &Vec<String>, separator: &str) -> (text: String)
    ensures
        text@ == joined(texts(parts@), separator@),
{
    let ghost all = texts(parts@);
    let mut text = String::new();
    let mut i: usize = 0;
    while i < parts.len()
        invariant
            i <= parts.len(),
            all == texts(parts@),
            text@ == joined(all.take(i as int), separator@),
        decreases parts.len() - i,
    {
        assert(all.take(i + 1).drop_last() =~= all.take(i as int));
        if i > 0 {
            text.append(separator);
        }
        text.append(parts[i].as_str());
        i += 1;
        assert(text@ =~= joined(all.take(i as int), separator@));
    }
    assert(all.take(i as int) =~= all);
    text
}

/// Two lists of parts, joined one after the other, are the two joined texts with the separator
/// between them.
pub proof fn law_joined_lists(first: Seq<Seq<char>>, second: Seq<Seq<char>>, separator: Seq<char>)
    requires
        first.len() > 0,
        second.len() > 0,
    ensures
        joined(first + second, separator) == joined(first, separator) + separator + joined(
            second,
            separator,
        ),
    decreases second.len(),
{
    let both = first + second;
    assert(both.last() == second.last());
    assert(both.drop_last() =~= first + second.drop_last());
    if second.len() == 1 {
        assert(both.drop_last() =~= first);
    } else {
        law_joined_lists(first, second.drop_last(), separator);
    }
    assert(joined(both, separator) =~= joined(first, separator) + separator + joined(
        second,
        separator,
    ));
}

/// Whether `part` stands in `text` as it is.
pub open spec fn occurs_in(part: Seq<char>, text: Seq<char>) -> bool {
    exists|at: int| #[trigger] occurs_at(part, text, at)
}

/// Whether `part` stands in `text` from position `at` on.
pub open spec fn occurs_at(part: Seq<char>, text: Seq<char>, at: int) -> bool {
    0 <= at <= at + part.len() <= text.len() && text.subrange(at, at + part.len()) == part
}

/// Each part stands in the joined text as it is.
pub proof fn law_joined_text_has_each_part(
    parts: Seq<Seq<char>>,
    separator: Seq<char>,
    index: int,
)
    requires
        0 <= index < parts.len(),
    ensures
        occurs_in(parts[index], joined(parts, separator)),
    decreases parts.len(),
{
    let whole = joined(parts, separator);
    let part = parts[index];
    if parts.len() == 1 {
        assert(whole.subrange(0, part.len() as int) =~= part);
        assert(occurs_at(part, whole, 0));
    } else if index == parts.len() - 1 {
        let at = whole.len() - part.len();
        assert(whole.subrange(at, at + part.len()) =~= part);
        assert(occurs_at(part, whole, at));
    } else {
        law_joined_text_has_each_part(parts.drop_last(), separator, index);
        let head = joined(parts.drop_last(), separator);
        let at = choose|at: int| #[trigger] occurs_at(part, head, at);
        assert(whole.subrange(at, at + part.len()) =~= head.subrange(at, at + part.len()));
        assert(occurs_at(part, whole, at));
    }
}

/// Whether `c` has the Unicode property White_Space.
pub open spec fn is_white_space(c: char) -> bool {
    let code = c as u32;
    ||| 0x09 <= code <= 0x0D
    ||| code == 0x20
    ||| code == 0x85
    ||| code == 0xA0
    ||| code == 0x1680
    ||| 0x2000 <= code <= 0x200A
    ||| code == 0x2028
    ||| code == 0x2029
    ||| code == 0x202F
    ||| code == 0x205F
    ||| code == 0x3000
}

/// The text without the white space at its start.
pub open spec fn trimmed_start(text: Seq<char>) -> Seq<char>
    decreases text.len(),
{
    if text.len() > 0 && is_white_space(text[0]) {
        trimmed_start(text.drop_first())
    } else {
        text
    }
}

/// The text without the white space at its end.
pub open spec fn trimmed_end(text: Seq<char>) -> Seq<char>
    decreases text.len(),
{
    if text.len() > 0 && is_white_space(text.last()) {
        trimmed_end(text.drop_last())
    } else {
        text
    }
}

/// The text without the white space at its start and at its end.
pub open spec fn trimmed(text: Seq<char>) -> Seq<char> {
    trimmed_end(trimmed_start(text))
}

/// The small letter for a capital letter of ASCII; any other character itself.
pub open spec fn ascii_lower(c: char) -> char {
    if 'A' <= c <= 'Z' {
        (c as u32 + 32) as char
    } else {
        c
    }
}

/// The text with the capital letters of ASCII made small.
pub open spec fn ascii_lowered(text: Seq<char>) -> Seq<char> {
    Seq::new(text.len(), |i: int| ascii_lower(text[i]))
}

/// Whether the text is nothing but white space.
pub open spec fn is_blank(text: Seq<char>) -> bool {
    forall|i: int| 0 <= i < text.len() ==> is_white_space(#[trigger] text[i])
}

proof fn lemma_trim_blank_start(blank: Seq<char>, text: Seq<char>)
    requires
        is_blank(blank),
    ensures
        trimmed_start(blank + text) == trimmed_start(text),
    decreases blank.len(),
{
    if blank.len() == 0 {
        assert(blank + text =~= text);
    } else {
        assert(is_white_space((blank + text)[0]));
        assert((blank + text).drop_first() =~= blank.drop_first() + text);
        assert forall|i: int| 0 <= i < blank.len() - 1 implies is_white_space(
            #[trigger] blank.drop_first()[i],
        ) by {
            assert(is_white_space(blank[i + 1]));
        }
        lemma_trim_blank_start(blank.drop_first(), text);
    }
}

proof fn lemma_trim_blank_end(text: Seq<char>, blank: Seq<char>)
    requires
        is_blank(blank),
    ensures
        trimmed_end(text + blank) == trimmed_end(text),
    decreases blank.len(),
{
    if blank.len() == 0 {
        assert(text + blank =~= text);
    } else {
        assert(is_white_space(blank[blank.len() - 1]));
        assert((text + blank).last() == blank.last());
        assert((text + blank).drop_last() =~= text + blank.drop_last());
        lemma_trim_blank_end(text, blank.drop_last());
    }
}

proof fn lemma_trim_start_keeps_end(text: Seq<char>, end: Seq<char>)
    requires
        !is_blank(text),
    ensures
        trimmed_start(text + end) == trimmed_start(text) + end,
    decreases text.len(),
{
    assert(text.len() > 0);
    assert((text + end)[0] == text[0]);
    if is_white_space(text[0]) {
        assert((text + end).drop_first() =~= text.drop_first() + end);
        if is_blank(text.drop_first()) {
            assert forall|i: int| 0 <= i < text.len() implies is_white_space(#[trigger] text[i]) by {
                if i > 0 {
                    assert(text.drop_first()[i - 1] == text[i]);
                }
            }
        }
        lemma_trim_start_keeps_end(text.drop_first(), end);
    }
}

/// White space round a text makes no difference to the trimmed text.
pub proof fn law_trim_ignores_outer_white_space(
    before: Seq<char>,
    text: Seq<char>,
    after: Seq<char>,
)
    requires
        is_blank(before),
        is_blank(after),
    ensures
        trimmed(before + text + after) == trimmed(text),
{
    assert(before + text + after =~= before + (text + after));
    lemma_trim_blank_start(before, text + after);
    if is_blank(text) {
        let none = Seq::<char>::empty();
        lemma_trim_blank_start(text, after);
        lemma_trim_blank_start(after, none);
        lemma_trim_blank_start(text, none);
        assert(after + none =~= after);
        assert(text + none =~= text);
    } else {
        lemma_trim_start_keeps_end(text, after);
        lemma_trim_blank_end(trimmed_start(text), after);
    }
}

proof fn lemma_lower_keeps_white_space(c: char)
    ensures
        is_white_space(ascii_lower(c)) == is_white_space(c),
        ascii_lower(ascii_lower(c)) == ascii_lower(c),
{
}

proof fn lemma_trim_start_lowered(text: Seq<char>)
    ensures
        trimmed_start(ascii_lowered(text)) == ascii_lowered(trimmed_start(text)),
    decreases text.len(),
{
    if text.len() > 0 {
        lemma_lower_keeps_white_space(text[0]);
        if is_white_space(text[0]) {
            assert(ascii_lowered(text).drop_first() =~= ascii_lowered(text.drop_first()));
            lemma_trim_start_lowered(text.drop_first());
        }
    }
}

proof fn lemma_trim_end_lowered(text: Seq<char>)
    ensures
        trimmed_end(ascii_lowered(text)) == ascii_lowered(trimmed_end(text)),
    decreases text.len(),
{
    if text.len() > 0 {
        lemma_lower_keeps_white_space(text.last());
        if is_white_space(text.last()) {
            assert(ascii_lowered(text).drop_last() =~= ascii_lowered(text.drop_last()));
            lemma_trim_end_lowered(text.drop_last());
        }
    }
}

/// The case of ASCII letters makes no difference to the text that is trimmed and made small.
pub proof fn law_normal_form_ignores_case(text: Seq<char>)
    ensures
        ascii_lowered(trimmed(ascii_lowered(text))) == ascii_lowered(trimmed(text)),
{
    lemma_trim_start_lowered(text);
    lemma_trim_end_lowered(trimmed_start(text));
    let kept = trimmed(text);
    assert forall|i: int| 0 <= i < kept.len() implies ascii_lower(
        ascii_lower(#[trigger] kept[i]),
    ) == ascii_lower(kept[i]) by {
        lemma_lower_keeps_white_space(kept[i]);
    }
    assert(ascii_lowered(ascii_lowered(kept)) =~= ascii_lowered(kept));
}

fn white_space(c: char) -> (found: bool)
    ensures
        found == is_white_space(c),
{
    let code: u32 = c as u32;
    (0x09 <= code && code <= 0x0D) || code == 0x20 || code == 0x85 || code == 0xA0 || code
        == 0x1680 || (0x2000 <= code && code <= 0x200A) || code == 0x2028 || code == 0x2029
        || code == 0x202F || code == 0x205F || code == 0x3000
}

fn lower(c: char) -> (small: char)
    ensures
        small == ascii_lower(c),
{
    if 'A' <= c && c <= 'Z' {
        ((c as u8) + 32) as char
    } else {
        c
    }
}

/// The characters of `text`, without the white space at both ends, and with the capital
/// letters of ASCII made small.
pub fn normalized(text: &str) -> (chars: Vec<char>)
    ensures
        chars@ == ascii_lowered(trimmed(text@)),
{
    let mut all: Vec<char> = Vec::new();
    for c in it: text.chars()
        invariant
            it.seq() == text@,
            it.index() <= text@.len(),
            all@ == text@.take(it.index()),
    {
        all.push(c);
        assert(text@.take(it.index() + 1) =~= text@.take(it.index()).push(c));
    }
    assert(all@ =~= text@);
    let mut start: usize = 0;
    assert(all@.skip(0) =~= all@);
    while start < all.len() && white_space(all[start])
        invariant
            start <= all.len(),
            trimmed_start(all@) == trimmed_start(all@.skip(start as int)),
        decreases all.len() - start,
    {
        assert(all@.skip(start as int).drop_first() =~= all@.skip(start + 1));
        start += 1;
    }
    let ghost from_start = all@.skip(start as int);
    assert(trimmed_start(all@) == from_start);
    let mut end: usize = all.len();
    assert(all@.subrange(start as int, end as int) =~= from_start);
    while end > start && white_space(all[end - 1])
        invariant
            start <= end <= all.len(),
            trimmed_end(from_start) == trimmed_end(all@.subrange(start as int, end as int)),
        decreases end,
    {
        assert(all@.subrange(start as int, end as int).drop_last() =~= all@.subrange(
            start as int,
            end - 1,
        ));
        end -= 1;
    }
    let ghost kept = all@.subrange(start as int, end as int);
    assert(trimmed(text@) == kept);
    let mut chars: Vec<char> = Vec::new();
    let mut i: usize = start;
    while i < end
        invariant
            start <= i <= end <= all.len(),
            kept == all@.subrange(start as int, end as int),
            chars@ == ascii_lowered(kept).take(i - start),
        decreases end - i,
    {
        chars.push(lower(all[i]));
        i += 1;
        assert(chars@ =~= ascii_lowered(kept).take(i - start));
    }
    assert(ascii_lowered(kept).take(i - start) =~= ascii_lowered(kept));
    chars
}

/// Whether the characters are those of `text`.
pub fn spells(chars: &Vec<char>, text: &str) -> (same: bool)
    ensures
        same == (chars@ == text@),
{
    if chars.len() != text.unicode_len() {
        return false;
    }
    let mut i: usize = 0;
    while i < chars.len()
        invariant
            i <= chars.len(),
            chars.len() == text@.len(),
            chars@.take(i as int) == text@.take(i as int),
        decreases chars.len() - i,
    {
        if chars[i] != text.get_char(i) {
            return false;
        }
        assert(chars@.take(i + 1) =~= chars@.take(i as int).push(chars@[i as int]));
        assert(text@.take(i + 1) =~= text@.take(i as int).push(text@[i as int]));
        i += 1;
    }
    assert(chars@.take(i as int) =~= chars@);
    assert(text@.take(i as int) =~= text@);
    true
}

} // verus!
