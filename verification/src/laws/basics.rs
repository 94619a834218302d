//! Numbers as text, the order of texts, and symbols by address.

use crate::digits::{
    address_of, decimal, digit_value, digits, hex, hex_number, is_hex_digit, prefixed_hex, value,
    without_prefixes, zero_padded,
};
use crate::ids::ArtifactId;
use crate::order::{
    ascending, index_before, is_sorted_order, is_sorted_set, lex_before_from, text_before, Rank,
};
use crate::symbols::{
    address_ordered, addresses, count_below, lemma_count_below, sorted_by_address, symbol_starts_at,
    symbols_within, Symbol,
};
use crate::table::lists_places;
use vstd::prelude::*;

verus! {

// ---- numbers ---------------------------------------------------------------

/// `c` is the digit of value `d`, of either case.
pub open spec fn is_digit(c: char, d: int) -> bool {
    ||| 0 <= d < 10 && c as int == '0' as int + d
    ||| 10 <= d < 16 && c as int == 'a' as int + d - 10
    ||| 10 <= d < 16 && c as int == 'A' as int + d - 10
}

/// The digits `s` stand for the number `n`: the last one counts once, each one
/// before it `base` times the one after it.
pub open spec fn stands_for(s: Seq<char>, base: int, n: int) -> bool
    decreases s.len(),
{
    if s.len() == 0 {
        n == 0
    } else {
        0 <= n && is_digit(s.last(), n % base) && stands_for(s.drop_last(), base, n / base)
    }
}

/// A number is written in lower case, without leading zeros, and its digits stand
/// for it.
pub proof fn law_digits(n: nat, base: nat)
    requires
        2 <= base <= 16,
    ensures
        stands_for(digits(n, base), base as int, n as int),
        digits(n, base).len() > 0,
        digits(n, base)[0] == '0' ==> n == 0 && digits(n, base).len() == 1,
        forall|i: int|
            0 <= i < digits(n, base).len() ==> {
                let c = #[trigger] digits(n, base)[i];
                '0' <= c <= '9' || 'a' <= c <= 'f'
            },
    decreases n,
{
    let d = digits(n, base);
    if n < base {
        assert(n as int % base as int == n && n as int / base as int == 0) by (nonlinear_arith)
            requires
                0 <= n < base,
        ;
        assert(d.drop_last() =~= Seq::empty());
        assert(stands_for(d.drop_last(), base as int, 0));
        assert(is_digit(d.last(), n as int));
    } else {
        assert(0 < n / base < n) by (nonlinear_arith)
            requires
                n >= base,
                base >= 2,
        ;
        law_digits(n / base, base);
        let before = digits(n / base, base);
        assert(d.drop_last() =~= before);
        assert(0 <= n % base < base) by (nonlinear_arith)
            requires
                base >= 2,
        ;
        assert(d[0] == before[0]);
        assert(n as int / base as int == (n / base) as int);
        assert(n as int % base as int == (n % base) as int);
        assert(is_digit(d.last(), n as int % base as int));
    }
}

/// Hexadecimal and decimal texts stand for their numbers.
pub proof fn law_number_texts(n: int)
    requires
        0 <= n,
    ensures
        stands_for(hex(n), 16, n),
        stands_for(decimal(n), 10, n),
        prefixed_hex(n) == seq!['0', 'x'] + hex(n),
{
    law_digits(n as nat, 16);
    law_digits(n as nat, 10);
    reveal_strlit("0x");
    assert("0x"@ =~= seq!['0', 'x']);
}

/// Padding adds zeros in front up to the width, and nothing where the text is wide
/// enough.
pub proof fn law_padding(s: Seq<char>, width: int, i: int)
    ensures
        s.len() >= width ==> zero_padded(s, width) == s,
        s.len() < width ==> zero_padded(s, width).len() == width,
        s.len() < width && 0 <= i < width - s.len() ==> zero_padded(s, width)[i] == '0',
        s.len() < width && width - s.len() <= i < width ==> zero_padded(s, width)[i] == s[i - (width
            - s.len())],
{
}

proof fn lemma_value(s: Seq<char>)
    requires
        forall|i: int| 0 <= i < s.len() ==> is_hex_digit(#[trigger] s[i]),
    ensures
        0 <= value(s, 16),
        stands_for(s, 16, value(s, 16)),
    decreases s.len(),
{
    if s.len() > 0 {
        let rest = s.drop_last();
        assert forall|i: int| 0 <= i < rest.len() implies is_hex_digit(#[trigger] rest[i]) by {
            assert(rest[i] == s[i]);
        }
        lemma_value(rest);
        let v = value(rest, 16);
        let d = digit_value(s.last());
        assert(is_hex_digit(s[s.len() - 1]));
        assert(value(s, 16) == v * 16 + d);
        assert((v * 16 + d) / 16 == v && (v * 16 + d) % 16 == d);
    }
}

proof fn lemma_stands_for_one(s: Seq<char>, n: int, m: int)
    requires
        stands_for(s, 16, n),
        stands_for(s, 16, m),
    ensures
        n == m,
        forall|i: int| 0 <= i < s.len() ==> is_hex_digit(#[trigger] s[i]),
    decreases s.len(),
{
    if s.len() > 0 {
        lemma_stands_for_one(s.drop_last(), n / 16, m / 16);
        assert(n % 16 == m % 16);
        assert forall|i: int| 0 <= i < s.len() implies is_hex_digit(#[trigger] s[i]) by {
            if i < s.len() - 1 {
                assert(s.drop_last()[i] == s[i]);
            }
        }
    }
}

/// A run of hexadecimal digits reads as the number that it stands for, where that
/// fits; anything else reads as nothing.
pub proof fn law_hex_number(d: Seq<char>, n: u64)
    ensures
        hex_number(d) == Some(n) <==> d.len() > 0 && stands_for(d, 16, n as int),
{
    if forall|i: int| 0 <= i < d.len() ==> is_hex_digit(#[trigger] d[i]) {
        lemma_value(d);
        if stands_for(d, 16, n as int) {
            lemma_stands_for_one(d, n as int, value(d, 16));
        }
    } else if stands_for(d, 16, n as int) {
        lemma_stands_for_one(d, n as int, n as int);
    }
}

/// An address may have any number of `0x` in front and one plus sign after them.
pub proof fn law_address_forms(rest: Seq<char>)
    ensures
        address_of(seq!['0', 'x'] + rest) == address_of(rest),
        !(rest.len() >= 2 && rest[0] == '0' && rest[1] == 'x') && !(rest.len() >= 2 && rest[0] == '+')
            ==> address_of(rest) == hex_number(rest),
        rest.len() >= 2 && rest[0] == '+' ==> address_of(rest) == hex_number(rest.skip(1)),
{
    let s = seq!['0', 'x'] + rest;
    assert(s.skip(2) =~= rest);
    assert(without_prefixes(s) == without_prefixes(s.skip(2)));
}

// ---- texts in order --------------------------------------------------------

/// `a` and `b` agree on their first `k` bytes, and then `a` ends or goes on with
/// the smaller byte.
pub open spec fn smaller_at(a: Seq<u8>, b: Seq<u8>, k: int) -> bool {
    &&& 0 <= k < b.len()
    &&& k <= a.len()
    &&& forall|i: int| 0 <= i < k ==> #[trigger] a[i] == b[i]
    &&& k == a.len() || a[k] < b[k]
}

proof fn lemma_lex(a: Seq<u8>, b: Seq<u8>, i: int)
    requires
        0 <= i,
        i <= a.len(),
        i <= b.len(),
        forall|j: int| 0 <= j < i ==> #[trigger] a[j] == b[j],
    ensures
        lex_before_from(a, b, i) <==> exists|k: int| #[trigger] smaller_at(a, b, k),
    decreases b.len() - i,
{
    if i >= b.len() {
        assert forall|k: int| !#[trigger] smaller_at(a, b, k) by {
            if smaller_at(a, b, k) {
                assert(a[k] == b[k]);
            }
        }
    } else if i >= a.len() {
        assert(smaller_at(a, b, i));
    } else if a[i] != b[i] {
        if a[i] < b[i] {
            assert(smaller_at(a, b, i));
        } else {
            assert forall|k: int| !#[trigger] smaller_at(a, b, k) by {
                if smaller_at(a, b, k) {
                    if k < i {
                        assert(a[k] == b[k]);
                    } else if k > i {
                        assert(a[i] == b[i]);
                    }
                }
            }
        }
    } else {
        lemma_lex(a, b, i + 1);
    }
}

/// Texts are in the order of their UTF-8 bytes.
pub proof fn law_text_order(a: Seq<char>, b: Seq<char>)
    ensures
        text_before(a, b) <==> exists|k: int| #[trigger]
            smaller_at(vstd::utf8::encode_utf8(a), vstd::utf8::encode_utf8(b), k),
{
    lemma_lex(vstd::utf8::encode_utf8(a), vstd::utf8::encode_utf8(b), 0);
}

// ---- symbols ---------------------------------------------------------------

/// The symbols below an address are the first ones, as many as are counted.
pub proof fn law_symbols_below(s: Seq<Symbol>, x: int, i: int)
    requires
        address_ordered(s),
        0 <= i < s.len(),
    ensures
        0 <= count_below(s, x) <= s.len(),
        i < count_below(s, x) <==> s[i].address < x,
{
    lemma_count_below(s, x);
}

/// A range holds the symbols whose address lies in it, in their order.
pub proof fn law_symbols_within(s: Seq<Symbol>, lo: int, hi: int, i: int)
    requires
        address_ordered(s),
        lo <= hi,
        0 <= i < s.len(),
    ensures
        lo <= s[i].address < hi <==> 0 <= i - count_below(s, lo) < symbols_within(s, lo, hi).len(),
        lo <= s[i].address < hi ==> symbols_within(s, lo, hi)[i - count_below(s, lo)] == s[i],
{
    lemma_count_below(s, lo);
    lemma_count_below(s, hi);
    crate::symbols::lemma_count_below_monotonic(s, lo, hi);
}

/// Ordering symbols by address keeps every symbol, and those of one address in
/// their order: `from` tells where each came from.
pub open spec fn is_reordered(input: Seq<Symbol>, out: Seq<Symbol>, from: Seq<usize>) -> bool {
    &&& from.len() == input.len()
    &&& out.len() == input.len()
    &&& forall|i: usize| i < input.len() ==> #[trigger] from.contains(i)
    &&& forall|k: int|
        0 <= k < from.len() ==> #[trigger] from[k] < input.len() && out[k] == input[from[k] as int]
    &&& forall|k: int, l: int|
        0 <= k < l < from.len() ==> {
            ||| input[#[trigger] from[k] as int].address < input[#[trigger] from[l] as int].address
            ||| input[from[k] as int].address == input[from[l] as int].address && from[k] < from[l]
        }
}

/// Symbols are kept in address order, those of one address in the order in which
/// they came.
pub proof fn law_symbols_are_reordered(input: Seq<Symbol>, out: Seq<Symbol>) -> (from: Seq<usize>)
    requires
        sorted_by_address(input, out),
    ensures
        is_reordered(input, out, from),
        address_ordered(out),
{
    let from = choose|order: Seq<usize>|
        #[trigger] is_sorted_order::<u64>(addresses(input), order) && out == Seq::new(
            order.len(),
            |i: int| input[order[i] as int],
        );
    assert forall|k: int| 0 <= k < from.len() implies #[trigger] from[k] < input.len() && out[k]
        == input[from[k] as int] by {
        assert(from.contains(from[k]));
    }
    assert forall|k: int, l: int| 0 <= k < l < from.len() implies {
        ||| input[#[trigger] from[k] as int].address < input[#[trigger] from[l] as int].address
        ||| input[from[k] as int].address == input[from[l] as int].address && from[k] < from[l]
    } by {
        assert(index_before::<u64>(addresses(input), from[k], from[l]));
        assert(from.contains(from[k]));
        assert(from.contains(from[l]));
    }
    assert forall|i: int, j: int| 0 <= i <= j < out.len() implies (#[trigger] out[i]).address <= (
    #[trigger] out[j]).address by {
        if i < j {
            assert(index_before::<u64>(addresses(input), from[i], from[j]));
            assert(from[i] < input.len() && from[j] < input.len());
        }
    }
    from
}

/// Symbols in order have addresses that never fall.
pub proof fn law_address_order(s: Seq<Symbol>)
    ensures
        address_ordered(s) <==> forall|i: int, j: int|
            0 <= i < j < s.len() ==> (#[trigger] s[i]).address <= (#[trigger] s[j]).address,
{
}

/// Whether a symbol starts at an address.
pub proof fn law_symbol_starts(s: Seq<Symbol>, addr: u64)
    ensures
        symbol_starts_at(s, addr) <==> exists|i: int|
            0 <= i < s.len() && (#[trigger] s[i]).address == addr,
{
}

// ---- sorted lists ----------------------------------------------------------

/// A list ascends if each of its items comes before every later one.
pub proof fn law_ascending<K: Rank>(s: Seq<K::V>)
    ensures
        ascending::<K>(s) <==> forall|a: int, b: int|
            0 <= a < b < s.len() ==> K::before(#[trigger] s[a], #[trigger] s[b]),
{
}

/// Sorting without repetition keeps exactly the items there are, each once.
pub proof fn law_sorted_set<K: Rank>(s: Seq<K::V>, t: Seq<K::V>)
    requires
        is_sorted_set::<K>(s, t),
    ensures
        forall|a: int, b: int| 0 <= a < b < s.len() ==> K::before(#[trigger] s[a], #[trigger] s[b]),
        forall|x: K::V| #[trigger] s.contains(x) <==> t.contains(x),
        s.no_duplicates(),
{
    assert forall|a: int, b: int| 0 <= a < s.len() && 0 <= b < s.len() && a != b implies s[a]
        != s[b] by {
        K::irreflexive(s[a]);
        if a < b {
            assert(K::before(s[a], s[b]));
        } else {
            assert(K::before(s[b], s[a]));
        }
    }
}

/// Numbers are in the order of their values, pairs in that of their first parts, then
/// of their second.
pub proof fn law_ranks(a: (u64, u32), b: (u64, u32), s: (Seq<char>, u32), t: (Seq<char>, u32))
    ensures
        <u64 as Rank>::before(a.0, b.0) <==> a.0 < b.0,
        <u32 as Rank>::before(a.1, b.1) <==> a.1 < b.1,
        <(u64, u32) as Rank>::before(a, b) <==> a.0 < b.0 || (a.0 == b.0 && a.1 < b.1),
        <String as Rank>::before(s.0, t.0) <==> text_before(s.0, t.0),
        <(String, u32) as Rank>::before(s, t) <==> text_before(s.0, t.0) || (s.0 == t.0 && s.1 < t.1),
{
}

/// Identities are in the order of their bytes.
pub proof fn law_identity_order(a: Seq<u8>, b: Seq<u8>)
    ensures
        <ArtifactId as Rank>::before(a, b) <==> exists|k: int| #[trigger] smaller_at(a, b, k),
{
    lemma_lex(a, b, 0);
}

/// The places of a key are where it stands, in ascending order.
pub proof fn law_places<K>(list: Seq<usize>, keys: Seq<K>, k: K, i: usize)
    requires
        lists_places(list, keys, k),
    ensures
        list.contains(i) <==> i < keys.len() && keys[i as int] == k,
        forall|a: int, b: int|
            0 <= a < b < list.len() ==> #[trigger] list[a] < #[trigger] list[b],
{
}

} // verus!
