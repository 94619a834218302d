//! Strict total orders, and sorting by them.
//!
//! A type with a [`Rank`] has a strict total order on its views. Sorting never
//! moves the keys: [`sorted_order`] returns the order in which to read them,
//! with equal keys kept in their original order.

use vstd::prelude::*;

verus! {

// ---- byte-wise string order -------------------------------------------------

/// Lexicographic order of `a` and `b`, compared from position `i` on.
pub open spec fn lex_before_from(a: Seq<u8>, b: Seq<u8>, i: int) -> bool
    decreases b.len() - i,
{
    if i >= b.len() {
        false
    } else if i >= a.len() {
        true
    } else if a[i] != b[i] {
        a[i] < b[i]
    } else {
        lex_before_from(a, b, i + 1)
    }
}

/// Strings are ordered lexicographically by the bytes of their UTF-8 form.
pub open spec fn text_before(a: Seq<char>, b: Seq<char>) -> bool {
    lex_before_from(vstd::utf8::encode_utf8(a), vstd::utf8::encode_utf8(b), 0)
}

pub proof fn lemma_lex_irreflexive(a: Seq<u8>, i: int)
    requires
        0 <= i,
    ensures
        !lex_before_from(a, a, i),
    decreases a.len() - i,
{
    if i < a.len() {
        lemma_lex_irreflexive(a, i + 1);
    }
}

pub proof fn lemma_lex_transitive(a: Seq<u8>, b: Seq<u8>, c: Seq<u8>, i: int)
    requires
        0 <= i,
        lex_before_from(a, b, i),
        lex_before_from(b, c, i),
    ensures
        lex_before_from(a, c, i),
    decreases c.len() - i,
{
    if i < a.len() && i < b.len() && i < c.len() && a[i] == b[i] && b[i] == c[i] {
        lemma_lex_transitive(a, b, c, i + 1);
    }
}

pub proof fn lemma_lex_total(a: Seq<u8>, b: Seq<u8>, i: int)
    requires
        0 <= i <= a.len(),
        i <= b.len(),
        forall|k: int| 0 <= k < i ==> a[k] == b[k],
    ensures
        lex_before_from(a, b, i) || lex_before_from(b, a, i) || a == b,
    decreases a.len() - i,
{
    if i < a.len() && i < b.len() {
        if a[i] == b[i] {
            lemma_lex_total(a, b, i + 1);
        }
    } else if i == a.len() && i == b.len() {
        assert(a =~= b);
    }
}

/// Whether string `a` sorts strictly before `b`.
pub fn str_before(a: &str, b: &str) -> (r: bool)
    ensures
        r == text_before(a@, b@),
{
    let x = a.as_bytes();
    let y = b.as_bytes();
    let mut i: usize = 0;
    while i < x.len() && i < y.len()
        invariant
            x@ == vstd::utf8::encode_utf8(a@),
            y@ == vstd::utf8::encode_utf8(b@),
            i <= x@.len(),
            i <= y@.len(),
            text_before(a@, b@) == lex_before_from(x@, y@, i as int),
        decreases x@.len() - i,
    {
        if x[i] != y[i] {
            return x[i] < y[i];
        }
        i += 1;
    }
    i < y.len()
}

// ---- ranks -----------------------------------------------------------------

/// A strict total order on the views of a type.
pub trait Rank: View + Sized {
    spec fn before(a: Self::V, b: Self::V) -> bool;

    proof fn irreflexive(a: Self::V)
        ensures
            !Self::before(a, a),
    ;

    proof fn transitive(a: Self::V, b: Self::V, c: Self::V)
        requires
            Self::before(a, b),
            Self::before(b, c),
        ensures
            Self::before(a, c),
    ;

    proof fn total(a: Self::V, b: Self::V)
        ensures
            Self::before(a, b) || Self::before(b, a) || a == b,
    ;

    fn ranks_before(&self, other: &Self) -> (r: bool)
        ensures
            r == Self::before(self@, other@),
    ;

    fn duplicate(&self) -> (r: Self)
        ensures
            r@ == self@,
    ;
}

impl Rank for u64 {
    open spec fn before(a: u64, b: u64) -> bool {
        a < b
    }

    proof fn irreflexive(a: u64) {
    }

    proof fn transitive(a: u64, b: u64, c: u64) {
    }

    proof fn total(a: u64, b: u64) {
    }

    fn ranks_before(&self, other: &u64) -> (r: bool) {
        *self < *other
    }

    fn duplicate(&self) -> (r: u64) {
        *self
    }
}

impl Rank for u32 {
    open spec fn before(a: u32, b: u32) -> bool {
        a < b
    }

    proof fn irreflexive(a: u32) {
    }

    proof fn transitive(a: u32, b: u32, c: u32) {
    }

    proof fn total(a: u32, b: u32) {
    }

    fn ranks_before(&self, other: &u32) -> (r: bool) {
        *self < *other
    }

    fn duplicate(&self) -> (r: u32) {
        *self
    }
}

impl Rank for String {
    open spec fn before(a: Seq<char>, b: Seq<char>) -> bool {
        text_before(a, b)
    }

    proof fn irreflexive(a: Seq<char>) {
        lemma_lex_irreflexive(vstd::utf8::encode_utf8(a), 0);
    }

    proof fn transitive(a: Seq<char>, b: Seq<char>, c: Seq<char>) {
        lemma_lex_transitive(
            vstd::utf8::encode_utf8(a),
            vstd::utf8::encode_utf8(b),
            vstd::utf8::encode_utf8(c),
            0,
        );
    }

    proof fn total(a: Seq<char>, b: Seq<char>) {
        lemma_lex_total(vstd::utf8::encode_utf8(a), vstd::utf8::encode_utf8(b), 0);
        vstd::utf8::encode_utf8_decode_utf8(a);
        vstd::utf8::encode_utf8_decode_utf8(b);
    }

    fn ranks_before(&self, other: &String) -> (r: bool) {
        str_before(self.as_str(), other.as_str())
    }

    fn duplicate(&self) -> (r: String) {
        self.clone()
    }
}

/// Pairs are ordered by their first component, then by their second.
impl<A: Rank, B: Rank> Rank for (A, B) {
    open spec fn before(a: (A::V, B::V), b: (A::V, B::V)) -> bool {
        A::before(a.0, b.0) || (a.0 == b.0 && B::before(a.1, b.1))
    }

    proof fn irreflexive(a: (A::V, B::V)) {
        A::irreflexive(a.0);
        B::irreflexive(a.1);
    }

    proof fn transitive(a: (A::V, B::V), b: (A::V, B::V), c: (A::V, B::V)) {
        if A::before(a.0, b.0) && A::before(b.0, c.0) {
            A::transitive(a.0, b.0, c.0);
        }
        A::irreflexive(a.0);
        if a.0 == b.0 && b.0 == c.0 {
            B::transitive(a.1, b.1, c.1);
        }
    }

    proof fn total(a: (A::V, B::V), b: (A::V, B::V)) {
        A::total(a.0, b.0);
        B::total(a.1, b.1);
    }

    fn ranks_before(&self, other: &(A, B)) -> (r: bool) {
        if self.0.ranks_before(&other.0) {
            true
        } else if other.0.ranks_before(&self.0) {
            proof {
                A::irreflexive(self.0@);
            }
            false
        } else {
            proof {
                A::total(self.0@, other.0@);
            }
            self.1.ranks_before(&other.1)
        }
    }

    fn duplicate(&self) -> (r: (A, B)) {
        (self.0.duplicate(), self.1.duplicate())
    }
}

// ---- sorting ---------------------------------------------------------------

/// The views of a sequence of keys.
pub open spec fn views<K: View>(keys: Seq<K>) -> Seq<K::V> {
    keys.map_values(|k: K| k@)
}

/// Index `i` comes before index `j` in the sorted order of `keys`: its key is
/// smaller, or the keys are equal and `i` is the smaller index.
pub open spec fn index_before<K: Rank>(keys: Seq<K::V>, i: usize, j: usize) -> bool {
    K::before(keys[i as int], keys[j as int]) || (keys[i as int] == keys[j as int] && i < j)
}

/// `order` is strictly increasing in the sorted order of `keys`.
pub open spec fn in_order<K: Rank>(keys: Seq<K::V>, order: Seq<usize>) -> bool {
    forall|a: int, b: int|
        0 <= a < b < order.len() ==> index_before::<K>(keys, #[trigger] order[a], #[trigger] order[b])
}

/// `order` lists every index of `keys` exactly once, sorted by key, with equal
/// keys in their original order.
pub open spec fn is_sorted_order<K: Rank>(keys: Seq<K::V>, order: Seq<usize>) -> bool {
    &&& order.len() == keys.len()
    &&& in_order::<K>(keys, order)
    &&& forall|x: usize| #[trigger] order.contains(x) <==> x < keys.len()
}

proof fn lemma_index_before_transitive<K: Rank>(keys: Seq<K::V>, i: usize, j: usize, k: usize)
    requires
        index_before::<K>(keys, i, j),
        index_before::<K>(keys, j, k),
    ensures
        index_before::<K>(keys, i, k),
{
    if K::before(keys[i as int], keys[j as int]) && K::before(keys[j as int], keys[k as int]) {
        K::transitive(keys[i as int], keys[j as int], keys[k as int]);
    }
}

/// Merges the orders of two adjacent index ranges.
fn merge<K: Rank>(keys: &Vec<K>, a: &Vec<usize>, b: &Vec<usize>, Ghost(mid): Ghost<usize>) -> (out:
    Vec<usize>)
    requires
        forall|i: int| 0 <= i < a@.len() ==> #[trigger] a@[i] < mid,
        forall|i: int| 0 <= i < b@.len() ==> mid <= #[trigger] b@[i] < keys@.len(),
        mid <= keys@.len(),
        in_order::<K>(views(keys@), a@),
        in_order::<K>(views(keys@), b@),
    ensures
        out@.len() == a@.len() + b@.len(),
        in_order::<K>(views(keys@), out@),
        forall|x: usize| #[trigger] out@.contains(x) <==> a@.contains(x) || b@.contains(x),
{
    let ghost kv = views(keys@);
    let mut out: Vec<usize> = Vec::new();
    let mut i: usize = 0;
    let mut j: usize = 0;
    while i < a.len() || j < b.len()
        invariant
            kv == views(keys@),
            forall|k: int| 0 <= k < a@.len() ==> #[trigger] a@[k] < mid,
            forall|k: int| 0 <= k < b@.len() ==> mid <= #[trigger] b@[k] < keys@.len(),
            mid <= keys@.len(),
            in_order::<K>(kv, a@),
            in_order::<K>(kv, b@),
            i <= a@.len(),
            j <= b@.len(),
            out@.len() == i + j,
            in_order::<K>(kv, out@),
            forall|p: int, k: int|
                0 <= p < out@.len() && i <= k < a@.len() ==> index_before::<K>(
                    kv,
                    #[trigger] out@[p],
                    #[trigger] a@[k],
                ),
            forall|p: int, k: int|
                0 <= p < out@.len() && j <= k < b@.len() ==> index_before::<K>(
                    kv,
                    #[trigger] out@[p],
                    #[trigger] b@[k],
                ),
            forall|p: int|
                0 <= p < out@.len() ==> a@.contains(#[trigger] out@[p]) || b@.contains(out@[p]),
            forall|k: int| 0 <= k < i ==> out@.contains(#[trigger] a@[k]),
            forall|k: int| 0 <= k < j ==> out@.contains(#[trigger] b@[k]),
        decreases a@.len() - i + b@.len() - j,
    {
        let ghost prev = out@;
        let take_a = if i >= a.len() {
            false
        } else if j >= b.len() {
            true
        } else {
            !keys[b[j]].ranks_before(&keys[a[i]])
        };
        if take_a {
            let x = a[i];
            out.push(x);
            proof {
                assert(out@[prev.len() as int] == x);
                assert(a@.contains(x));
                if j < b@.len() {
                    K::total(kv[x as int], kv[b@[j as int] as int]);
                    assert(index_before::<K>(kv, x, b@[j as int]));
                    assert forall|k: int| j <= k < b@.len() implies index_before::<K>(
                        kv,
                        x,
                        #[trigger] b@[k],
                    ) by {
                        if k > j {
                            lemma_index_before_transitive::<K>(kv, x, b@[j as int], b@[k]);
                        }
                    }
                }
                assert forall|k: int| 0 <= k < i implies out@.contains(#[trigger] a@[k]) by {
                    let p = choose|p: int| 0 <= p < prev.len() && prev[p] == a@[k];
                    assert(out@[p] == a@[k]);
                }
                assert forall|k: int| 0 <= k < j implies out@.contains(#[trigger] b@[k]) by {
                    let p = choose|p: int| 0 <= p < prev.len() && prev[p] == b@[k];
                    assert(out@[p] == b@[k]);
                }
            }
            i += 1;
        } else {
            let x = b[j];
            out.push(x);
            proof {
                assert(out@[prev.len() as int] == x);
                assert(b@.contains(x));
                if i < a@.len() {
                    assert(index_before::<K>(kv, x, a@[i as int]));
                    assert forall|k: int| i <= k < a@.len() implies index_before::<K>(
                        kv,
                        x,
                        #[trigger] a@[k],
                    ) by {
                        if k > i {
                            lemma_index_before_transitive::<K>(kv, x, a@[i as int], a@[k]);
                        }
                    }
                }
                assert forall|k: int| 0 <= k < i implies out@.contains(#[trigger] a@[k]) by {
                    let p = choose|p: int| 0 <= p < prev.len() && prev[p] == a@[k];
                    assert(out@[p] == a@[k]);
                }
                assert forall|k: int| 0 <= k < j implies out@.contains(#[trigger] b@[k]) by {
                    let p = choose|p: int| 0 <= p < prev.len() && prev[p] == b@[k];
                    assert(out@[p] == b@[k]);
                }
            }
            j += 1;
        }
    }
    assert forall|x: usize| #[trigger] out@.contains(x) implies a@.contains(x) || b@.contains(
        x,
    ) by {
        let p = choose|p: int| 0 <= p < out@.len() && out@[p] == x;
        assert(a@.contains(out@[p]) || b@.contains(out@[p]));
    }
    out
}

/// The sorted order of the indices in `lo..hi`.
fn sort_range<K: Rank>(keys: &Vec<K>, lo: usize, hi: usize) -> (order: Vec<usize>)
    requires
        lo <= hi <= keys@.len(),
    ensures
        order@.len() == hi - lo,
        in_order::<K>(views(keys@), order@),
        forall|x: usize| #[trigger] order@.contains(x) <==> lo <= x < hi,
    decreases hi - lo,
{
    if lo == hi {
        let order: Vec<usize> = Vec::new();
        return order;
    }
    if hi - lo == 1 {
        let mut order: Vec<usize> = Vec::new();
        order.push(lo);
        assert(order@[0] == lo);
        return order;
    }
    let mid = lo + (hi - lo) / 2;
    let a = sort_range(keys, lo, mid);
    let b = sort_range(keys, mid, hi);
    assert forall|i: int| 0 <= i < a@.len() implies #[trigger] a@[i] < mid by {
        assert(a@.contains(a@[i]));
    }
    assert forall|i: int| 0 <= i < b@.len() implies mid <= #[trigger] b@[i] < keys@.len() by {
        assert(b@.contains(b@[i]));
    }
    merge(keys, &a, &b, Ghost(mid))
}

/// The order that sorts `keys`; equal keys stay in their original order.
pub fn sorted_order<K: Rank>(keys: &Vec<K>) -> (order: Vec<usize>)
    ensures
        is_sorted_order::<K>(views(keys@), order@),
{
    sort_range(keys, 0, keys.len())
}

/// `s` is strictly increasing.
pub open spec fn ascending<K: Rank>(s: Seq<K::V>) -> bool {
    forall|a: int, b: int| 0 <= a < b < s.len() ==> K::before(#[trigger] s[a], #[trigger] s[b])
}

/// `s` is the sorted, duplicate-free list of the elements of `t`.
pub open spec fn is_sorted_set<K: Rank>(s: Seq<K::V>, t: Seq<K::V>) -> bool {
    &&& ascending::<K>(s)
    &&& forall|x: K::V| #[trigger] s.contains(x) <==> t.contains(x)
}

/// Sorts `items` and drops repeated elements.
pub fn sort_dedup<K: Rank>(items: &Vec<K>) -> (out: Vec<K>)
    ensures
        is_sorted_set::<K>(views(out@), views(items@)),
{
    let order = sorted_order(items);
    let ghost iv = views(items@);
    let mut out: Vec<K> = Vec::new();
    let mut i: usize = 0;
    while i < order.len()
        invariant
            iv == views(items@),
            is_sorted_order::<K>(iv, order@),
            i <= order@.len(),
            ascending::<K>(views(out@)),
            i > 0 ==> out@.len() > 0 && views(out@).last() == iv[order@[i - 1] as int],
            i == 0 ==> out@.len() == 0,
            forall|p: int| 0 <= p < out@.len() ==> iv.contains(#[trigger] views(out@)[p]),
            forall|k: int|
                0 <= k < i ==> views(out@).contains(iv[#[trigger] order@[k] as int]),
        decreases order@.len() - i,
    {
        let x = order[i];
        proof {
            assert(order@.contains(x));
        }
        let repeated = if out.len() == 0 {
            false
        } else {
            !out[out.len() - 1].ranks_before(&items[x])
        };
        let ghost prev = views(out@);
        if !repeated {
            out.push(items[x].duplicate());
            proof {
                let now = views(out@);
                assert(now =~= prev.push(iv[x as int]));
                assert forall|a: int, b: int| 0 <= a < b < now.len() implies K::before(
                    #[trigger] now[a],
                    #[trigger] now[b],
                ) by {
                    if b == prev.len() && a < prev.len() - 1 {
                        K::transitive(now[a], prev.last(), now[b]);
                    }
                }
                assert forall|k: int| 0 <= k < i + 1 implies now.contains(
                    iv[#[trigger] order@[k] as int],
                ) by {
                    if k < i {
                        let p = choose|p: int|
                            0 <= p < prev.len() && prev[p] == iv[order@[k] as int];
                        assert(now[p] == iv[order@[k] as int]);
                    } else {
                        assert(now[prev.len() as int] == iv[x as int]);
                    }
                }
            }
        } else {
            proof {
                assert(index_before::<K>(iv, order@[i - 1], order@[i as int]));
                assert(prev.last() == iv[x as int]);
                assert(prev[prev.len() - 1] == iv[x as int]);
            }
        }
        i += 1;
    }
    proof {
        let ov = views(out@);
        assert forall|x: K::V| #[trigger] ov.contains(x) <==> iv.contains(x) by {
            if ov.contains(x) {
                let p = choose|p: int| 0 <= p < ov.len() && ov[p] == x;
                assert(iv.contains(ov[p]));
            }
            if iv.contains(x) {
                let q = choose|q: int| 0 <= q < iv.len() && iv[q] == x;
                let qq = q as usize;
                assert(order@.contains(qq));
                let k = choose|k: int| 0 <= k < order@.len() && order@[k] == qq;
                assert(ov.contains(iv[order@[k] as int]));
            }
        }
    }
    out
}

/// A set has one ascending list only.
pub proof fn law_ascending_list_is_unique<K: Rank>(s: Seq<K::V>, t: Seq<K::V>)
    requires
        ascending::<K>(s),
        ascending::<K>(t),
        forall|x: K::V| #[trigger] s.contains(x) <==> t.contains(x),
    ensures
        s == t,
    decreases s.len(),
{
    if s.len() == 0 {
        if t.len() > 0 {
            assert(t.contains(t[0]));
            assert(s.contains(t[0]));
        }
        assert(s =~= t);
    } else {
        assert(s.contains(s[0]));
        let j = choose|j: int| 0 <= j < t.len() && t[j] == s[0];
        assert(t.contains(t[0]));
        assert(s.contains(t[0]));
        let k = choose|k: int| 0 <= k < s.len() && s[k] == t[0];
        if j > 0 && k > 0 {
            K::transitive(s[0], s[k], t[j]);
            K::irreflexive(s[0]);
        }
        assert(s[0] == t[0]);
        let s1 = s.skip(1);
        let t1 = t.skip(1);
        assert forall|x: K::V| #[trigger] s1.contains(x) <==> t1.contains(x) by {
            if s1.contains(x) {
                let a = choose|a: int| 0 <= a < s1.len() && s1[a] == x;
                assert(s[a + 1] == x);
                K::irreflexive(x);
                assert(s.contains(x));
                let b = choose|b: int| 0 <= b < t.len() && t[b] == x;
                assert(b > 0);
                assert(t1[b - 1] == x);
            }
            if t1.contains(x) {
                let a = choose|a: int| 0 <= a < t1.len() && t1[a] == x;
                assert(t[a + 1] == x);
                K::irreflexive(x);
                assert(t.contains(x));
                assert(s.contains(x));
                let b = choose|b: int| 0 <= b < s.len() && s[b] == x;
                assert(b > 0);
                assert(s1[b - 1] == x);
            }
        }
        assert(ascending::<K>(s1)) by {
            assert forall|a: int, b: int| 0 <= a < b < s1.len() implies K::before(
                #[trigger] s1[a],
                #[trigger] s1[b],
            ) by {
                assert(K::before(s[a + 1], s[b + 1]));
            }
        }
        assert(ascending::<K>(t1)) by {
            assert forall|a: int, b: int| 0 <= a < b < t1.len() implies K::before(
                #[trigger] t1[a],
                #[trigger] t1[b],
            ) by {
                assert(K::before(t[a + 1], t[b + 1]));
            }
        }
        law_ascending_list_is_unique::<K>(s1, t1);
        assert(s =~= seq![s[0]] + s1);
        assert(t =~= seq![t[0]] + t1);
    }
}

/// The sorted, duplicate-free list of the elements of `all`.
pub open spec fn sorted_list<K: Rank>(all: Seq<K::V>) -> Seq<K::V> {
    choose|s: Seq<K::V>| #[trigger] is_sorted_set::<K>(s, all)
}

proof fn lemma_insert_sorted<K: Rank>(s: Seq<K::V>, x: K::V) -> (r: Seq<K::V>)
    requires
        ascending::<K>(s),
    ensures
        ascending::<K>(r),
        forall|y: K::V| #[trigger] r.contains(y) <==> s.contains(y) || y == x,
    decreases s.len(),
{
    if s.len() == 0 {
        let r = seq![x];
        assert(r[0] == x);
        r
    } else {
        let last = s.last();
        K::total(last, x);
        let front = s.drop_last();
        assert(ascending::<K>(front)) by {
            assert forall|a: int, b: int| 0 <= a < b < front.len() implies K::before(
                #[trigger] front[a],
                #[trigger] front[b],
            ) by {
                assert(K::before(s[a], s[b]));
            }
        }
        if last == x {
            assert(s[s.len() - 1] == x);
            s
        } else if K::before(last, x) {
            let r = s.push(x);
            assert forall|a: int, b: int| 0 <= a < b < r.len() implies K::before(
                #[trigger] r[a],
                #[trigger] r[b],
            ) by {
                if b < s.len() {
                    assert(K::before(s[a], s[b]));
                } else if a < s.len() - 1 {
                    assert(K::before(s[a], s[s.len() - 1]));
                    K::transitive(s[a], last, x);
                }
            }
            assert forall|y: K::V| #[trigger] r.contains(y) <==> s.contains(y) || y == x by {
                if r.contains(y) {
                    let q = choose|q: int| 0 <= q < r.len() && r[q] == y;
                    if q < s.len() {
                        assert(s[q] == y);
                    }
                }
                if s.contains(y) {
                    let q = choose|q: int| 0 <= q < s.len() && s[q] == y;
                    assert(r[q] == y);
                }
                assert(r[s.len() as int] == x);
            }
            r
        } else {
            let inner = lemma_insert_sorted::<K>(front, x);
            let r = inner.push(last);
            assert forall|a: int, b: int| 0 <= a < b < r.len() implies K::before(
                #[trigger] r[a],
                #[trigger] r[b],
            ) by {
                if b < inner.len() {
                    assert(K::before(inner[a], inner[b]));
                } else {
                    assert(inner.contains(inner[a]));
                    if inner[a] != x {
                        let q = choose|q: int| 0 <= q < front.len() && front[q] == inner[a];
                        assert(K::before(s[q], s[s.len() - 1]));
                    }
                }
            }
            assert forall|y: K::V| #[trigger] r.contains(y) <==> s.contains(y) || y == x by {
                if r.contains(y) {
                    let q = choose|q: int| 0 <= q < r.len() && r[q] == y;
                    if q < inner.len() {
                        assert(inner[q] == y);
                        assert(inner.contains(y));
                        if y != x {
                            let p = choose|p: int| 0 <= p < front.len() && front[p] == y;
                            assert(s[p] == y);
                        }
                    } else {
                        assert(s[s.len() - 1] == y);
                    }
                }
                if s.contains(y) {
                    let q = choose|q: int| 0 <= q < s.len() && s[q] == y;
                    if q < s.len() - 1 {
                        assert(front[q] == y);
                        assert(inner.contains(y));
                        let p = choose|p: int| 0 <= p < inner.len() && inner[p] == y;
                        assert(r[p] == y);
                    } else {
                        assert(r[inner.len() as int] == y);
                    }
                }
                if y == x {
                    assert(inner.contains(x));
                    let p = choose|p: int| 0 <= p < inner.len() && inner[p] == x;
                    assert(r[p] == x);
                }
            }
            r
        }
    }
}

proof fn lemma_some_sorted<K: Rank>(all: Seq<K::V>) -> (s: Seq<K::V>)
    ensures
        is_sorted_set::<K>(s, all),
    decreases all.len(),
{
    if all.len() == 0 {
        Seq::empty()
    } else {
        let rest = lemma_some_sorted::<K>(all.drop_last());
        let x = all.last();
        let s = lemma_insert_sorted::<K>(rest, x);
        assert forall|y: K::V| #[trigger] s.contains(y) <==> all.contains(y) by {
            if all.contains(y) {
                let q = choose|q: int| 0 <= q < all.len() && all[q] == y;
                if q < all.len() - 1 {
                    assert(all.drop_last()[q] == y);
                    assert(rest.contains(y));
                }
            }
            if rest.contains(y) {
                let q = choose|q: int| 0 <= q < all.drop_last().len() && all.drop_last()[q] == y;
                assert(all[q] == y);
            }
            assert(all[all.len() - 1] == x);
        }
        s
    }
}

/// Every list has a sorted, duplicate-free list.
pub proof fn lemma_sorted_list_exists<K: Rank>(all: Seq<K::V>)
    ensures
        is_sorted_set::<K>(sorted_list::<K>(all), all),
{
    let s = lemma_some_sorted::<K>(all);
    assert(is_sorted_set::<K>(s, all));
}

/// A sorted, duplicate-free list of `all` is the one.
pub proof fn lemma_sorted_list<K: Rank>(all: Seq<K::V>, s: Seq<K::V>)
    requires
        is_sorted_set::<K>(s, all),
    ensures
        s == sorted_list::<K>(all),
{
    lemma_sorted_list_exists::<K>(all);
    let t = sorted_list::<K>(all);
    assert forall|x: K::V| #[trigger] s.contains(x) <==> t.contains(x) by {
        assert(t.contains(x) <==> all.contains(x));
    }
    law_ascending_list_is_unique::<K>(s, t);
}

} // verus!
