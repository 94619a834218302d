//! Character-level text scanning: lines, words, prefixes and substrings.
//!
//! Strings are read once into a `Vec<char>`; everything after that works on
//! slices of characters, whose views are plain `Seq<char>`.

use vstd::prelude::*;

verus! {

/// `String::push` appends one character to the end of the string.
pub assume_specification[ String::push ](s: &mut String, ch: char)
    ensures
        final(s)@ == old(s)@.push(ch),
;

// ---- characters ------------------------------------------------------------

/// The characters with the Unicode `White_Space` property.
pub open spec fn is_space(c: char) -> bool {
    let u = c as u32;
    ||| 0x9 <= u <= 0xd
    ||| u == 0x20
    ||| u == 0x85
    ||| u == 0xa0
    ||| u == 0x1680
    ||| 0x2000 <= u <= 0x200a
    ||| u == 0x2028
    ||| u == 0x2029
    ||| u == 0x202f
    ||| u == 0x205f
    ||| u == 0x3000
}

/// Whether `c` is white space.
pub fn space_char(c: char) -> (r: bool)
    ensures
        r == is_space(c),
{
    let u: u32 = c as u32;
    (0x9 <= u && u <= 0xd) || u == 0x20 || u == 0x85 || u == 0xa0 || u == 0x1680 || (0x2000 <= u
        && u <= 0x200a) || u == 0x2028 || u == 0x2029 || u == 0x202f || u == 0x205f || u == 0x3000
}

/// The characters of `s`, in order.
pub fn to_chars(s: &str) -> (v: Vec<char>)
    ensures
        v@ == s@,
{
    let mut v: Vec<char> = Vec::new();
    for c in it: s.chars()
        invariant
            v@ == it.seq().take(it.index() as int),
            it.seq() == s@,
    {
        v.push(c);
    }
    v
}

/// The string made of the characters `t[from..to]`.
pub fn substring(t: &[char], from: usize, to: usize) -> (s: String)
    requires
        from <= to <= t@.len(),
    ensures
        s@ == t@.subrange(from as int, to as int),
{
    let mut s = String::new();
    let mut i: usize = from;
    while i < to
        invariant
            from <= i <= to <= t@.len(),
            s@ == t@.subrange(from as int, i as int),
        decreases to - i,
    {
        s.push(t[i]);
        i += 1;
    }
    s
}

/// An owned copy of `s`.
pub fn owned(s: &str) -> (r: String)
    ensures
        r@ == s@,
{
    s.to_owned()
}

/// The views of a sequence of strings.
pub open spec fn strings(v: Seq<String>) -> Seq<Seq<char>> {
    v.map_values(|s: String| s@)
}

/// The views of a sequence of character vectors.
pub open spec fn char_rows(v: Seq<Vec<char>>) -> Seq<Seq<char>> {
    v.map_values(|s: Vec<char>| s@)
}

/// The concatenation `a + b`.
pub fn join2(a: &str, b: &str) -> (r: String)
    ensures
        r@ == a@ + b@,
{
    let mut r = a.to_owned();
    r.append(b);
    r
}

/// The concatenation `a + b + c`.
pub fn join3(a: &str, b: &str, c: &str) -> (r: String)
    ensures
        r@ == a@ + b@ + c@,
{
    let mut r = a.to_owned();
    r.append(b);
    r.append(c);
    r
}

/// Whether two string slices hold the same characters.
pub fn same_str(a: &str, b: &str) -> (r: bool)
    ensures
        r == (a@ == b@),
{
    let x = a.as_bytes();
    let y = b.as_bytes();
    proof {
        vstd::utf8::encode_utf8_decode_utf8(a@);
        vstd::utf8::encode_utf8_decode_utf8(b@);
    }
    if x.len() != y.len() {
        return false;
    }
    let mut i: usize = 0;
    while i < x.len()
        invariant
            x@ == vstd::utf8::encode_utf8(a@),
            y@ == vstd::utf8::encode_utf8(b@),
            x@.len() == y@.len(),
            i <= x@.len(),
            forall|k: int| 0 <= k < i ==> x@[k] == y@[k],
        decreases x@.len() - i,
    {
        if x[i] != y[i] {
            return false;
        }
        i += 1;
    }
    assert(x@ =~= y@);
    true
}

// ---- lines -----------------------------------------------------------------

/// Position of the first newline at or after `i`, or the length if there is
/// none.
pub open spec fn newline_from(t: Seq<char>, i: int) -> int
    decreases t.len() - i,
{
    if i >= t.len() {
        t.len() as int
    } else if t[i] == '\n' {
        i
    } else {
        newline_from(t, i + 1)
    }
}

/// `t` without one trailing carriage return.
pub open spec fn chop_cr(t: Seq<char>) -> Seq<char> {
    if t.len() > 0 && t.last() == '\r' {
        t.drop_last()
    } else {
        t
    }
}

/// The lines of `t` from position `i` on. A line ends at `\n` or `\r\n`, which
/// are not part of it; the last line needs no terminator.
pub open spec fn lines_from(t: Seq<char>, i: int) -> Seq<Seq<char>>
    decreases t.len() - i,
    when 0 <= i
{
    if i >= t.len() {
        Seq::empty()
    } else {
        let e = newline_from(t, i);
        if i <= e < t.len() {
            seq![chop_cr(t.subrange(i, e))] + lines_from(t, e + 1)
        } else {
            seq![t.subrange(i, t.len() as int)]
        }
    }
}

/// The lines of a text.
pub open spec fn lines(t: Seq<char>) -> Seq<Seq<char>> {
    lines_from(t, 0)
}

/// The characters `t[from..to]` as a vector.
pub fn copy_range(t: &[char], from: usize, to: usize) -> (v: Vec<char>)
    requires
        from <= to <= t@.len(),
    ensures
        v@ == t@.subrange(from as int, to as int),
{
    let mut v: Vec<char> = Vec::new();
    let mut i: usize = from;
    while i < to
        invariant
            from <= i <= to <= t@.len(),
            v@ == t@.subrange(from as int, i as int),
        decreases to - i,
    {
        v.push(t[i]);
        i += 1;
    }
    v
}

/// Splits a text into its lines.
pub fn split_lines(t: &[char]) -> (r: Vec<Vec<char>>)
    ensures
        char_rows(r@) == lines(t@),
{
    let mut out: Vec<Vec<char>> = Vec::new();
    let mut start: usize = 0;
    let n = t.len();
    assert(char_rows(out@) + lines_from(t@, 0) =~= lines(t@));
    while start < n
        invariant
            n == t@.len(),
            start <= n,
            char_rows(out@) + lines_from(t@, start as int) == lines(t@),
        decreases n - start,
    {
        let mut e: usize = start;
        while e < n && t[e] != '\n'
            invariant
                n == t@.len(),
                start <= e <= n,
                newline_from(t@, start as int) == newline_from(t@, e as int),
            decreases n - e,
        {
            e += 1;
        }
        let ghost before = char_rows(out@);
        if e < n {
            let mut stop: usize = e;
            if stop > start && t[stop - 1] == '\r' {
                stop -= 1;
            }
            let row = copy_range(t, start, stop);
            assert(row@ =~= chop_cr(t@.subrange(start as int, e as int)));
            out.push(row);
            assert(char_rows(out@) =~= before.push(row@));
            assert(char_rows(out@) + lines_from(t@, e + 1) =~= before + lines_from(
                t@,
                start as int,
            ));
            start = e + 1;
        } else {
            let row = copy_range(t, start, n);
            out.push(row);
            assert(char_rows(out@) =~= before.push(row@));
            assert(char_rows(out@) + lines_from(t@, n as int) =~= before + lines_from(
                t@,
                start as int,
            ));
            start = n;
        }
    }
    assert(char_rows(out@) + lines_from(t@, n as int) =~= char_rows(out@));
    out
}

// ---- words -----------------------------------------------------------------

/// Position of the first character at or after `i` that is not white space.
pub open spec fn nonspace_from(t: Seq<char>, i: int) -> int
    decreases t.len() - i,
{
    if i >= t.len() {
        t.len() as int
    } else if is_space(t[i]) {
        nonspace_from(t, i + 1)
    } else {
        i
    }
}

/// `t` without its leading white space.
pub open spec fn trimmed(t: Seq<char>) -> Seq<char> {
    t.subrange(nonspace_from(t, 0), t.len() as int)
}

/// The end of the last word that ends at or before `e`.
pub open spec fn word_end(t: Seq<char>, e: int) -> int
    decreases e,
{
    if e <= 0 {
        0
    } else if is_space(t[e - 1]) {
        word_end(t, e - 1)
    } else {
        e
    }
}

/// The start of the run of non-space characters that ends at `e`.
pub open spec fn word_start(t: Seq<char>, e: int) -> int
    decreases e,
{
    if e <= 0 {
        0
    } else if is_space(t[e - 1]) {
        e
    } else {
        word_start(t, e - 1)
    }
}

/// The last white-space-separated word of `t`, if it has one.
pub open spec fn last_word(t: Seq<char>) -> Option<Seq<char>> {
    let e = word_end(t, t.len() as int);
    if e == 0 {
        None
    } else {
        Some(t.subrange(word_start(t, e), e))
    }
}

/// Whether `t` begins with `p`.
pub open spec fn has_prefix(t: Seq<char>, p: Seq<char>) -> bool {
    p.len() <= t.len() && t.subrange(0, p.len() as int) == p
}

/// Whether `p` occurs in `t`.
pub open spec fn has_infix(t: Seq<char>, p: Seq<char>) -> bool {
    exists|i: int| infix_at(t, p, i)
}

/// Whether `p` occurs in `t` at position `i`.
pub open spec fn infix_at(t: Seq<char>, p: Seq<char>, i: int) -> bool {
    0 <= i && i + p.len() <= t.len() && t.subrange(i, i + p.len()) == p
}

pub proof fn lemma_nonspace_range(t: Seq<char>, i: int)
    requires
        0 <= i <= t.len(),
    ensures
        i <= nonspace_from(t, i) <= t.len(),
    decreases t.len() - i,
{
    if i < t.len() && is_space(t[i]) {
        lemma_nonspace_range(t, i + 1);
    }
}

pub proof fn lemma_word_end_range(t: Seq<char>, e: int)
    requires
        0 <= e <= t.len(),
    ensures
        0 <= word_end(t, e) <= e,
        word_end(t, e) > 0 ==> !is_space(t[word_end(t, e) - 1]),
    decreases e,
{
    if e > 0 && is_space(t[e - 1]) {
        lemma_word_end_range(t, e - 1);
    }
}

/// `t` without its leading white space.
pub fn trim_start(t: &[char]) -> (r: Vec<char>)
    ensures
        r@ == trimmed(t@),
{
    let n = t.len();
    let mut i: usize = 0;
    while i < n && space_char(t[i])
        invariant
            n == t@.len(),
            i <= n,
            nonspace_from(t@, 0) == nonspace_from(t@, i as int),
        decreases n - i,
    {
        i += 1;
    }
    copy_range(t, i, n)
}

/// The last white-space-separated word of `t`, if it has one.
pub fn final_word(t: &[char]) -> (r: Option<Vec<char>>)
    ensures
        match r {
            Some(w) => last_word(t@) == Some(w@),
            None => last_word(t@) is None,
        },
{
    let n = t.len();
    let mut e: usize = n;
    while e > 0 && space_char(t[e - 1])
        invariant
            n == t@.len(),
            e <= n,
            word_end(t@, n as int) == word_end(t@, e as int),
        decreases e,
    {
        e -= 1;
    }
    if e == 0 {
        return None;
    }
    let mut s: usize = e;
    while s > 0 && !space_char(t[s - 1])
        invariant
            n == t@.len(),
            s <= e <= n,
            word_start(t@, e as int) == word_start(t@, s as int),
        decreases s,
    {
        s -= 1;
    }
    Some(copy_range(t, s, e))
}

/// Whether `p` occurs in `t` at position `at`.
pub fn matches_at(t: &[char], p: &[char], at: usize) -> (r: bool)
    requires
        at <= t@.len(),
    ensures
        r == infix_at(t@, p@, at as int),
{
    if p.len() > t.len() - at {
        return false;
    }
    let mut i: usize = 0;
    while i < p.len()
        invariant
            i <= p@.len(),
            at + p@.len() <= t.len(),
            forall|k: int| 0 <= k < i ==> t@[at + k] == p@[k],
        decreases p@.len() - i,
    {
        if t[at + i] != p[i] {
            assert(t@.subrange(at as int, at + p@.len())[i as int] != p@[i as int]);
            return false;
        }
        i += 1;
    }
    assert(t@.subrange(at as int, at + p@.len()) =~= p@);
    true
}

/// Whether `t` begins with `p`.
pub fn starts_with(t: &[char], p: &str) -> (r: bool)
    ensures
        r == has_prefix(t@, p@),
{
    let p = to_chars(p);
    matches_at(t, p.as_slice(), 0)
}

/// Whether `p` occurs in `t`.
pub fn contains(t: &[char], p: &str) -> (r: bool)
    ensures
        r == has_infix(t@, p@),
{
    let pat = to_chars(p);
    let n = t.len();
    if pat.len() > n {
        return false;
    }
    let last = n - pat.len();
    let mut i: usize = 0;
    while i < last
        invariant
            n == t@.len(),
            pat@ == p@,
            last == n - pat@.len(),
            i <= last,
            forall|k: int| 0 <= k < i ==> !infix_at(t@, p@, k),
        decreases last - i,
    {
        if matches_at(t, pat.as_slice(), i) {
            return true;
        }
        i += 1;
    }
    matches_at(t, pat.as_slice(), last)
}

/// The first position at or after `i` at which `p` occurs in `t`.
pub open spec fn find_from(t: Seq<char>, p: Seq<char>, i: int) -> Option<int>
    decreases t.len() - i + 1,
{
    if i > t.len() {
        None
    } else if infix_at(t, p, i) {
        Some(i)
    } else {
        find_from(t, p, i + 1)
    }
}

/// The first position at which `p` occurs in `t`.
pub fn find(t: &[char], p: &str) -> (r: Option<usize>)
    ensures
        match r {
            Some(i) => find_from(t@, p@, 0) == Some(i as int) && infix_at(t@, p@, i as int),
            None => find_from(t@, p@, 0) is None,
        },
{
    let pat = to_chars(p);
    let n: usize = t.len();
    let mut i: usize = 0;
    while i < n
        invariant
            n == t@.len(),
            pat@ == p@,
            i <= n,
            find_from(t@, p@, 0) == find_from(t@, p@, i as int),
        decreases n - i,
    {
        if matches_at(t, pat.as_slice(), i) {
            return Some(i);
        }
        i += 1;
    }
    if matches_at(t, pat.as_slice(), n) {
        Some(n)
    } else {
        assert(find_from(t@, p@, n + 1) is None);
        None
    }
}

/// The part of `t` after the prefix `p`, if `t` begins with it.
pub fn strip_prefix(t: &[char], p: &str) -> (r: Option<Vec<char>>)
    ensures
        match r {
            Some(rest) => has_prefix(t@, p@) && rest@ == t@.subrange(
                p@.len() as int,
                t@.len() as int,
            ),
            None => !has_prefix(t@, p@),
        },
{
    let p = to_chars(p);
    if matches_at(t, p.as_slice(), 0) {
        Some(copy_range(t, p.len(), t.len()))
    } else {
        None
    }
}

} // verus!
