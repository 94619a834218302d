//! Numbers as text, in decimal and hexadecimal.

use crate::text::{join2, to_chars};
use vstd::prelude::*;

verus! {

/// The character of a digit: `0` to `9`, then `a` to `f`.
pub open spec fn digit_char(d: int) -> char {
    if d == 0 {
        '0'
    } else if d == 1 {
        '1'
    } else if d == 2 {
        '2'
    } else if d == 3 {
        '3'
    } else if d == 4 {
        '4'
    } else if d == 5 {
        '5'
    } else if d == 6 {
        '6'
    } else if d == 7 {
        '7'
    } else if d == 8 {
        '8'
    } else if d == 9 {
        '9'
    } else if d == 10 {
        'a'
    } else if d == 11 {
        'b'
    } else if d == 12 {
        'c'
    } else if d == 13 {
        'd'
    } else if d == 14 {
        'e'
    } else {
        'f'
    }
}

/// The digits of `n` in base `base`, most significant first, without leading
/// zeros.
pub open spec fn digits(n: nat, base: nat) -> Seq<char>
    decreases n,
{
    if base < 2 || n < base {
        seq![digit_char(n as int)]
    } else {
        proof {
            assert(n / base < n) by (nonlinear_arith)
                requires
                    n >= base,
                    base >= 2,
            ;
        }
        digits(n / base, base).push(digit_char((n % base) as int))
    }
}

/// The hexadecimal digits of `n`.
pub open spec fn hex(n: int) -> Seq<char> {
    digits(n as nat, 16)
}

/// The decimal digits of `n`.
pub open spec fn decimal(n: int) -> Seq<char> {
    digits(n as nat, 10)
}

/// `s` with zeros before it up to `width` characters.
pub open spec fn zero_padded(s: Seq<char>, width: int) -> Seq<char> {
    if s.len() >= width {
        s
    } else {
        Seq::new((width - s.len()) as nat, |i: int| '0') + s
    }
}

fn to_digit(d: u64) -> (c: char)
    requires
        d < 16,
    ensures
        c == digit_char(d as int),
{
    match d {
        0 => '0',
        1 => '1',
        2 => '2',
        3 => '3',
        4 => '4',
        5 => '5',
        6 => '6',
        7 => '7',
        8 => '8',
        9 => '9',
        10 => 'a',
        11 => 'b',
        12 => 'c',
        13 => 'd',
        14 => 'e',
        _ => 'f',
    }
}

fn push_digits(n: u64, base: u64, out: &mut String)
    requires
        2 <= base <= 16,
    ensures
        final(out)@ == old(out)@ + digits(n as nat, base as nat),
    decreases n,
{
    if n < base {
        out.push(to_digit(n));
        assert(out@ =~= old(out)@ + digits(n as nat, base as nat));
    } else {
        assert(n / base < n) by (nonlinear_arith)
            requires
                n >= base,
                base >= 2,
        ;
        push_digits(n / base, base, out);
        out.push(to_digit(n % base));
        assert(out@ =~= old(out)@ + digits(n as nat, base as nat));
    }
}

/// The hexadecimal digits of `n`.
pub fn to_hex(n: u64) -> (r: String)
    ensures
        r@ == hex(n as int),
{
    let mut r = String::new();
    push_digits(n, 16, &mut r);
    assert(r@ =~= hex(n as int));
    r
}

/// The decimal digits of `n`.
pub fn to_decimal(n: u64) -> (r: String)
    ensures
        r@ == decimal(n as int),
{
    let mut r = String::new();
    push_digits(n, 10, &mut r);
    assert(r@ =~= decimal(n as int));
    r
}

/// The hexadecimal digits of `n` with zeros before them up to `width`
/// characters.
pub fn to_hex_padded(n: u64, width: usize) -> (r: String)
    ensures
        r@ == zero_padded(hex(n as int), width as int),
{
    let mut len: usize = 1;
    let mut rest: u64 = n / 16;
    proof {
        lemma_digits_len(n as nat, 16);
        reveal_with_fuel(pow16, 2);
        assert(pow16(1) == 16);
    }
    while rest > 0
        invariant
            len <= 17,
            hex(n as int).len() == len + if rest == 0 {
                0
            } else {
                hex(rest as int).len() as int
            },
            len >= 1,
            rest as int * pow16(len as int) <= u64::MAX,
        decreases rest,
    {
        proof {
            lemma_digits_len(rest as nat, 16);
            lemma_pow16(len as int, rest as int);
        }
        rest = rest / 16;
        len += 1;
    }
    let mut r = String::new();
    let mut k: usize = len;
    while k < width
        invariant
            len <= k,
            r@ == Seq::new((k - len) as nat, |i: int| '0'),
            k > len ==> k <= width,
        decreases width - k,
    {
        r.push('0');
        k += 1;
        assert(r@ =~= Seq::new((k - len) as nat, |i: int| '0'));
    }
    push_digits(n, 16, &mut r);
    assert(r@ =~= zero_padded(hex(n as int), width as int));
    r
}

/// Powers of sixteen.
spec fn pow16(k: int) -> int
    decreases k,
{
    if k <= 0 {
        1
    } else {
        16 * pow16(k - 1)
    }
}

proof fn lemma_pow16(k: int, rest: int)
    requires
        1 <= k,
        rest > 0,
        rest * pow16(k) <= u64::MAX,
    ensures
        (rest / 16) * pow16(k + 1) <= u64::MAX,
        k <= 16,
{
    assert(pow16(k + 1) == 16 * pow16(k));
    lemma_pow16_positive(k);
    let p = pow16(k);
    let q = rest / 16;
    assert(q * (16 * p) <= rest * p) by (nonlinear_arith)
        requires
            16 * q <= rest,
            p > 0,
    ;
    assert(p <= rest * p) by (nonlinear_arith)
        requires
            rest >= 1,
            p > 0,
    ;
    if k > 16 {
        lemma_pow16_large(k);
    }
}

proof fn lemma_pow16_positive(k: int)
    ensures
        pow16(k) > 0,
    decreases k,
{
    if k > 0 {
        lemma_pow16_positive(k - 1);
    }
}

proof fn lemma_pow16_large(k: int)
    requires
        k >= 16,
    ensures
        pow16(k) > u64::MAX,
    decreases k,
{
    if k == 16 {
        reveal_with_fuel(pow16, 17);
    } else {
        lemma_pow16_large(k - 1);
    }
}

proof fn lemma_digits_len(n: nat, base: nat)
    requires
        base >= 2,
    ensures
        digits(n, base).len() == 1 + if n < base {
            0
        } else {
            digits(n / base, base).len() as int
        },
{
}

/// The value of a digit character.
pub open spec fn digit_value(c: char) -> int {
    if '0' <= c <= '9' {
        c as int - '0' as int
    } else if 'a' <= c <= 'f' {
        c as int - 'a' as int + 10
    } else {
        c as int - 'A' as int + 10
    }
}

/// Whether a character is a hexadecimal digit, of either case.
pub open spec fn is_hex_digit(c: char) -> bool {
    '0' <= c <= '9' || 'a' <= c <= 'f' || 'A' <= c <= 'F'
}

/// The number that a sequence of digits stands for.
pub open spec fn value(s: Seq<char>, base: nat) -> int
    decreases s.len(),
{
    if s.len() == 0 {
        0
    } else {
        value(s.drop_last(), base) * base + digit_value(s.last())
    }
}

/// Reading back the digits of a number gives the number.
pub proof fn law_digits_round_trip(n: nat, base: nat)
    requires
        2 <= base <= 16,
    ensures
        value(digits(n, base), base) == n,
    decreases n,
{
    if n < base {
        let s = digits(n, base);
        assert(s.drop_last() =~= Seq::empty());
        assert(digit_value(digit_char(n as int)) == n);
        assert(value(s.drop_last(), base) == 0);
        assert(0 * base == 0);
    } else {
        assert(n / base < n) by (nonlinear_arith)
            requires
                n >= base,
                base >= 2,
        ;
        law_digits_round_trip(n / base, base);
        let s = digits(n, base);
        assert(s.drop_last() =~= digits(n / base, base));
        let d = (n % base) as int;
        assert(0 <= d < 16);
        assert(digit_value(digit_char(d)) == d);
        assert((n / base) * base + n % base == n) by (nonlinear_arith)
            requires
                base >= 2,
        ;
    }
}

// ---- reading addresses -----------------------------------------------------

/// `0x` and the hexadecimal digits of `n`.
pub open spec fn prefixed_hex(n: int) -> Seq<char> {
    "0x"@ + hex(n)
}

/// `0x` and the hexadecimal digits of `n`.
pub fn hex_text(n: u64) -> (r: String)
    ensures
        r@ == prefixed_hex(n as int),
{
    let d = to_hex(n);
    join2("0x", d.as_str())
}

/// `s` without the `0x` prefixes it begins with.
pub open spec fn without_prefixes(s: Seq<char>) -> Seq<char>
    decreases s.len(),
{
    if s.len() >= 2 && s[0] == '0' && s[1] == 'x' {
        without_prefixes(s.skip(2))
    } else {
        s
    }
}

/// `s` without a plus sign before something else.
pub open spec fn without_plus(s: Seq<char>) -> Seq<char> {
    if s.len() > 1 && s[0] == '+' {
        s.skip(1)
    } else {
        s
    }
}

/// The number that a run of hexadecimal digits stands for, if it fits.
pub open spec fn hex_number(d: Seq<char>) -> Option<u64> {
    if d.len() > 0 && (forall|i: int| 0 <= i < d.len() ==> is_hex_digit(#[trigger] d[i])) && value(
        d,
        16,
    ) <= u64::MAX {
        Some(value(d, 16) as u64)
    } else {
        None
    }
}

/// The address that a text stands for: hexadecimal digits, after `0x` prefixes
/// and a plus sign.
pub open spec fn address_of(s: Seq<char>) -> Option<u64> {
    hex_number(without_plus(without_prefixes(s)))
}

fn char_value(c: char) -> (r: Option<u64>)
    ensures
        is_hex_digit(c) ==> r == Some(digit_value(c) as u64) && digit_value(c) < 16,
        !is_hex_digit(c) ==> r is None,
{
    if '0' <= c && c <= '9' {
        Some(c as u64 - 48)
    } else if 'a' <= c && c <= 'f' {
        Some(c as u64 - 87)
    } else if 'A' <= c && c <= 'F' {
        Some(c as u64 - 55)
    } else {
        None
    }
}

proof fn lemma_value_grows(d: Seq<char>, i: int)
    requires
        0 <= i <= d.len(),
        forall|k: int| 0 <= k < d.len() ==> is_hex_digit(#[trigger] d[k]),
    ensures
        0 <= value(d.take(i), 16) <= value(d, 16),
    decreases d.len(),
{
    if i == d.len() {
        assert(d.take(i) =~= d);
        if i > 0 {
            lemma_value_grows(d.drop_last(), i - 1);
            assert(d.drop_last().take(i - 1) =~= d.drop_last());
        }
    } else {
        lemma_value_grows(d.drop_last(), i);
        assert(d.drop_last().take(i) =~= d.take(i));
    }
}

fn parse_digits(t: &Vec<char>, from: usize) -> (r: Option<u64>)
    requires
        from <= t@.len(),
    ensures
        r == hex_number(t@.skip(from as int)),
{
    let ghost d = t@.skip(from as int);
    if from == t.len() {
        return None;
    }
    let mut acc: u64 = 0;
    let mut i: usize = from;
    assert(d.take(0) =~= Seq::empty());
    while i < t.len()
        invariant
            d == t@.skip(from as int),
            from <= i <= t@.len(),
            acc == value(d.take(i - from), 16),
            forall|k: int| 0 <= k < i - from ==> is_hex_digit(#[trigger] d[k]),
        decreases t@.len() - i,
    {
        let ghost j = i - from;
        assert(d[j] == t@[i as int]);
        match char_value(t[i]) {
            Some(v) => {
                assert(d.take(j + 1).drop_last() =~= d.take(j));
                assert(d.take(j + 1).last() == d[j]);
                if acc > (u64::MAX - v) / 16 {
                    proof {
                        assert(value(d.take(j + 1), 16) > u64::MAX);
                        if forall|k: int| 0 <= k < d.len() ==> is_hex_digit(#[trigger] d[k]) {
                            lemma_value_grows(d, j + 1);
                        }
                    }
                    return None;
                }
                acc = acc * 16 + v;
            },
            None => {
                return None;
            },
        }
        i += 1;
    }
    assert(d.take(i - from) =~= d);
    Some(acc)
}

proof fn lemma_skip_prefix(s: Seq<char>, n: int)
    requires
        0 <= n,
        n + 2 <= s.len(),
        s[n] == '0',
        s[n + 1] == 'x',
    ensures
        without_prefixes(s.skip(n)) == without_prefixes(s.skip(n + 2)),
{
    assert(s.skip(n).skip(2) =~= s.skip(n + 2));
}

/// Reads an address.
pub fn parse_address(s: &str) -> (r: Option<u64>)
    ensures
        r == address_of(s@),
{
    let t = to_chars(s);
    let mut from: usize = 0;
    assert(t@.skip(0) =~= t@);
    while from < t.len() && t.len() - from >= 2 && t[from] == '0' && t[from + 1] == 'x'
        invariant
            t@ == s@,
            from <= t@.len(),
            without_prefixes(t@) == without_prefixes(t@.skip(from as int)),
        decreases t@.len() - from,
    {
        proof {
            lemma_skip_prefix(t@, from as int);
        }
        from += 2;
    }
    assert(without_prefixes(t@) =~= t@.skip(from as int));
    if t.len() - from > 1 && t[from] == '+' {
        assert(t@.skip(from as int).skip(1) =~= t@.skip(from + 1));
        parse_digits(&t, from + 1)
    } else {
        parse_digits(&t, from)
    }
}

proof fn lemma_digits_are_hex(n: nat)
    ensures
        digits(n, 16).len() > 0,
        forall|i: int| 0 <= i < digits(n, 16).len() ==> is_hex_digit(#[trigger] digits(n, 16)[i]),
        forall|i: int| 0 <= i < digits(n, 16).len() ==> #[trigger] digits(n, 16)[i] != 'x',
    decreases n,
{
    if n >= 16 {
        lemma_digits_are_hex(n / 16);
    }
}

/// The text of an address reads back as the address.
pub proof fn law_address_reads_back(addr: u64)
    ensures
        address_of(prefixed_hex(addr as int)) == Some(addr),
{
    reveal_strlit("0x");
    let d = hex(addr as int);
    lemma_digits_are_hex(addr as nat);
    law_digits_round_trip(addr as nat, 16);
    let s = prefixed_hex(addr as int);
    assert(s.skip(2) =~= d);
    assert(is_hex_digit(d[0]));
    if d.len() > 1 {
        assert(d[1] != 'x');
    }
    assert(without_prefixes(d) == d);
    assert(without_prefixes(s) == d);
}

} // verus!
