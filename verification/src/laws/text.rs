//! Lines, words and substrings.

use crate::text::{
    find_from, has_infix, has_prefix, infix_at, is_space, last_word, lines, lines_from,
    newline_from, nonspace_from, trimmed, word_end, word_start,
};
use vstd::prelude::*;

verus! {

/// No character of `t` is white space.
pub open spec fn is_word(t: Seq<char>) -> bool {
    forall|i: int| 0 <= i < t.len() ==> !is_space(#[trigger] t[i])
}

/// All characters of `t` are white space.
pub open spec fn is_blank(t: Seq<char>) -> bool {
    forall|i: int| 0 <= i < t.len() ==> is_space(#[trigger] t[i])
}

/// `t` begins with `p`.
pub open spec fn begins(t: Seq<char>, p: Seq<char>) -> bool {
    p.len() <= t.len() && forall|i: int| 0 <= i < p.len() ==> #[trigger] t[i] == p[i]
}

/// `p` stands in `t` from position `at` on.
pub open spec fn stands_at(t: Seq<char>, p: Seq<char>, at: int) -> bool {
    0 <= at && at + p.len() <= t.len() && forall|i: int|
        0 <= i < p.len() ==> #[trigger] p[i] == t[at + i]
}

/// `p` stands somewhere in `t`.
pub open spec fn holds(t: Seq<char>, p: Seq<char>) -> bool {
    exists|at: int| #[trigger] stands_at(t, p, at)
}

/// White space is what Unicode calls so: among ASCII the space, the tab and the
/// line breaks, and no letter, digit or sign.
pub proof fn law_white_space(c: char)
    ensures
        c == ' ' || c == '\t' || c == '\n' || c == '\r' || c == '\u{b}' || c == '\u{c}' ==> is_space(c),
        is_space(c) && (c as u32) < 0x80 ==> c == ' ' || c == '\t' || c == '\n' || c == '\r' || c
            == '\u{b}' || c == '\u{c}',
        is_space('\u{85}'),
        is_space('\u{a0}'),
        is_space('\u{1680}'),
        is_space('\u{2000}'),
        is_space('\u{200a}'),
        is_space('\u{2028}'),
        is_space('\u{2029}'),
        is_space('\u{202f}'),
        is_space('\u{205f}'),
        is_space('\u{3000}'),
        is_space(c) && (c as u32) >= 0x80 ==> c == '\u{85}' || c == '\u{a0}' || c == '\u{1680}' || c
            == '\u{2028}' || c == '\u{2029}' || c == '\u{202f}' || c == '\u{205f}' || c
            == '\u{3000}' || '\u{2000}' as u32 <= c as u32 <= '\u{200a}' as u32,
        '\u{2000}' as u32 <= c as u32 <= '\u{200a}' as u32 ==> is_space(c),
{
}

/// A prefix and a substring are what they look like.
pub proof fn law_prefix_and_infix(t: Seq<char>, p: Seq<char>, at: int)
    ensures
        has_prefix(t, p) <==> begins(t, p),
        infix_at(t, p, at) <==> stands_at(t, p, at),
        has_infix(t, p) <==> holds(t, p),
{
    if begins(t, p) {
        assert(t.subrange(0, p.len() as int) =~= p);
    }
    if has_prefix(t, p) {
        assert forall|i: int| 0 <= i < p.len() implies #[trigger] t[i] == p[i] by {
            assert(t.subrange(0, p.len() as int)[i] == t[i]);
        }
    }
    lemma_infix(t, p, at);
    if has_infix(t, p) {
        let i = choose|i: int| infix_at(t, p, i);
        lemma_infix(t, p, i);
        assert(stands_at(t, p, i));
    }
    if holds(t, p) {
        let i = choose|i: int| #[trigger] stands_at(t, p, i);
        lemma_infix(t, p, i);
        assert(infix_at(t, p, i));
    }
}

proof fn lemma_infix(t: Seq<char>, p: Seq<char>, at: int)
    ensures
        infix_at(t, p, at) <==> stands_at(t, p, at),
{
    if stands_at(t, p, at) {
        assert(t.subrange(at, at + p.len()) =~= p);
    }
    if infix_at(t, p, at) {
        assert forall|i: int| 0 <= i < p.len() implies #[trigger] p[i] == t[at + i] by {
            assert(t.subrange(at, at + p.len())[i] == t[at + i]);
        }
    }
}

/// The first occurrence of a text is an occurrence, and none comes before it.
pub proof fn law_first_occurrence(t: Seq<char>, p: Seq<char>, i: int)
    requires
        0 <= i,
    ensures
        match find_from(t, p, i) {
            Some(at) => i <= at && stands_at(t, p, at) && forall|k: int|
                i <= k < at ==> !#[trigger] stands_at(t, p, k),
            None => forall|k: int| i <= k ==> !#[trigger] stands_at(t, p, k),
        },
    decreases t.len() - i + 1,
{
    lemma_infix(t, p, i);
    if i <= t.len() && !infix_at(t, p, i) {
        law_first_occurrence(t, p, i + 1);
    }
}

/// Trimming takes away the white space at the front and nothing else.
pub proof fn law_trimming(t: Seq<char>)
    ensures
        trimmed(t).len() <= t.len(),
        is_blank(t.subrange(0, t.len() - trimmed(t).len())),
        t.subrange(t.len() - trimmed(t).len(), t.len() as int) == trimmed(t),
        trimmed(t).len() > 0 ==> !is_space(trimmed(t)[0]),
{
    lemma_nonspace(t, 0);
    let e = nonspace_from(t, 0);
    assert(t.subrange(t.len() - trimmed(t).len(), t.len() as int) =~= trimmed(t));
}

proof fn lemma_nonspace(t: Seq<char>, i: int)
    requires
        0 <= i <= t.len(),
    ensures
        i <= nonspace_from(t, i) <= t.len(),
        forall|k: int| i <= k < nonspace_from(t, i) ==> is_space(#[trigger] t[k]),
        nonspace_from(t, i) < t.len() ==> !is_space(t[nonspace_from(t, i)]),
    decreases t.len() - i,
{
    if i < t.len() && is_space(t[i]) {
        lemma_nonspace(t, i + 1);
    }
}

/// The last word is the run of characters before the white space at the end.
pub proof fn law_last_word(before: Seq<char>, word: Seq<char>, after: Seq<char>)
    requires
        before.len() == 0 || is_space(before.last()),
        is_word(word),
        word.len() > 0,
        is_blank(after),
    ensures
        last_word(before + word + after) == Some(word),
{
    let t = before + word + after;
    let e = before.len() + word.len();
    lemma_word_end(t, t.len() as int, e as int);
    lemma_word_start(t, e as int, before.len() as int);
    assert(t.subrange(before.len() as int, e as int) =~= word);
}

proof fn lemma_word_end(t: Seq<char>, n: int, e: int)
    requires
        0 <= e <= n <= t.len(),
        e == 0 || !is_space(t[e - 1]),
        forall|k: int| e <= k < n ==> is_space(#[trigger] t[k]),
    ensures
        word_end(t, n) == e,
    decreases n,
{
    if n > e {
        lemma_word_end(t, n - 1, e);
    }
}

proof fn lemma_word_start(t: Seq<char>, e: int, s: int)
    requires
        0 <= s <= e <= t.len(),
        s == 0 || is_space(t[s - 1]),
        forall|k: int| s <= k < e ==> !is_space(#[trigger] t[k]),
    ensures
        word_start(t, e) == s,
    decreases e,
{
    if e > s {
        lemma_word_start(t, e - 1, s);
    }
}

/// A text has no last word exactly if it is blank.
pub proof fn law_blank_text_has_no_word(t: Seq<char>)
    ensures
        last_word(t) is None <==> is_blank(t),
{
    lemma_last_nonspace(t, t.len() as int);
    if is_blank(t) {
        lemma_word_end(t, t.len() as int, 0);
    }
}

proof fn lemma_last_nonspace(t: Seq<char>, n: int)
    requires
        0 <= n <= t.len(),
    ensures
        0 <= word_end(t, n) <= n,
        word_end(t, n) > 0 ==> !is_space(t[word_end(t, n) - 1]),
        forall|k: int| word_end(t, n) <= k < n ==> is_space(#[trigger] t[k]),
    decreases n,
{
    if n > 0 && is_space(t[n - 1]) {
        lemma_last_nonspace(t, n - 1);
    }
}

/// A text without a line break is one line, and none if it is empty.
pub proof fn law_one_line(t: Seq<char>)
    requires
        forall|i: int| 0 <= i < t.len() ==> #[trigger] t[i] != '\n',
    ensures
        t.len() == 0 ==> lines(t).len() == 0,
        t.len() > 0 ==> lines(t) == seq![t],
{
    if t.len() > 0 {
        lemma_newline(t, 0, t.len() as int);
        assert(t.subrange(0, t.len() as int) =~= t);
    }
}

/// A line break ends the first line, which goes without it and without one
/// carriage return before it; the lines of what follows come after.
pub proof fn law_first_line(first: Seq<char>, rest: Seq<char>)
    requires
        forall|i: int| 0 <= i < first.len() ==> #[trigger] first[i] != '\n',
    ensures
        lines(first.push('\n') + rest) == seq![
            if first.len() > 0 && first.last() == '\r' {
                first.drop_last()
            } else {
                first
            },
        ] + lines(rest),
{
    let t = first.push('\n') + rest;
    let e = first.len() as int;
    lemma_newline(t, 0, e);
    assert(t.subrange(0, e) =~= first);
    assert(t.subrange(e + 1, t.len() as int) =~= rest);
    lemma_lines_shift(t, rest, e + 1, 0);
}

proof fn lemma_newline(t: Seq<char>, i: int, e: int)
    requires
        0 <= i <= e <= t.len(),
        forall|k: int| i <= k < e ==> #[trigger] t[k] != '\n',
        e == t.len() || t[e] == '\n',
    ensures
        newline_from(t, i) == e,
    decreases e - i,
{
    if i < e {
        lemma_newline(t, i + 1, e);
    }
}

proof fn lemma_newline_exists(t: Seq<char>, i: int)
    requires
        0 <= i <= t.len(),
    ensures
        i <= newline_from(t, i) <= t.len(),
        forall|k: int| i <= k < newline_from(t, i) ==> #[trigger] t[k] != '\n',
        newline_from(t, i) < t.len() ==> t[newline_from(t, i)] == '\n',
    decreases t.len() - i,
{
    if i < t.len() && t[i] != '\n' {
        lemma_newline_exists(t, i + 1);
    }
}

/// The lines from a position on are those of the text that begins there.
proof fn lemma_lines_shift(t: Seq<char>, rest: Seq<char>, from: int, i: int)
    requires
        0 <= from <= t.len(),
        rest == t.subrange(from, t.len() as int),
        0 <= i <= rest.len(),
    ensures
        lines_from(t, from + i) == lines_from(rest, i),
    decreases rest.len() - i,
{
    if i < rest.len() {
        lemma_newline_exists(rest, i);
        let e = newline_from(rest, i);
        assert forall|k: int| from + i <= k < from + e implies #[trigger] t[k] != '\n' by {
            assert(rest[k - from] == t[k]);
        }
        lemma_newline(t, from + i, from + e);
        assert(t.subrange(from + i, from + e) =~= rest.subrange(i, e));
        if e < rest.len() {
            lemma_lines_shift(t, rest, from, e + 1);
        }
    }
}

} // verus!
