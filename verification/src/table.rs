//! A map kept as a list of entries in key order.

use crate::order::{ascending, is_sorted_order, sorted_order, views, Rank};
use vstd::prelude::*;

verus! {

/// The keys of a list of entries.
pub open spec fn keys<K: View, V>(entries: Seq<(K, V)>) -> Seq<K::V> {
    entries.map_values(|e: (K, V)| e.0@)
}

/// The map that a list of entries stands for.
pub open spec fn as_map<K: View, V>(entries: Seq<(K, V)>) -> Map<K::V, V> {
    Map::new(
        |k: K::V| keys(entries).contains(k),
        |k: K::V| entries[keys(entries).index_of(k)].1,
    )
}

/// Entries with distinct keys in ascending order.
#[verifier::reject_recursive_types(K)]
pub struct Table<K: Rank, V> {
    entries: Vec<(K, V)>,
}

impl<K: Rank, V> View for Table<K, V> {
    type V = Map<K::V, V>;

    closed spec fn view(&self) -> Map<K::V, V> {
        as_map(self.entries@)
    }
}

proof fn lemma_entry<K: Rank, V>(entries: Seq<(K, V)>, i: int)
    requires
        ascending::<K>(keys(entries)),
        0 <= i < entries.len(),
    ensures
        as_map(entries).contains_key(entries[i].0@),
        as_map(entries)[entries[i].0@] == entries[i].1,
{
    let ks = keys(entries);
    let k = entries[i].0@;
    assert(ks[i] == k);
    let j = ks.index_of(k);
    assert(0 <= j < ks.len() && ks[j] == k);
    if i < j {
        K::irreflexive(k);
    } else if j < i {
        K::irreflexive(k);
    }
}

impl<K: Rank, V> Table<K, V> {
    #[verifier::type_invariant]
    spec fn ordered(self) -> bool {
        ascending::<K>(keys(self.entries@))
    }

    /// The entries in key order.
    pub closed spec fn listed(&self) -> Seq<(K, V)> {
        self.entries@
    }

    /// An empty map.
    pub fn new() -> (r: Table<K, V>)
        ensures
            r@ == Map::<K::V, V>::empty(),
            r.listed() == Seq::<(K, V)>::empty(),
    {
        let r = Table { entries: Vec::new() };
        assert(r@ =~= Map::empty());
        r
    }

    /// Number of entries.
    pub fn len(&self) -> (n: usize)
        ensures
            n == self.listed().len(),
            ascending::<K>(keys(self.listed())),
            self@ == as_map(self.listed()),
    {
        proof {
            use_type_invariant(self);
        }
        self.entries.len()
    }

    /// The `i`-th entry in key order.
    pub fn entry(&self, i: usize) -> (r: (&K, &V))
        requires
            i < self.listed().len(),
        ensures
            *r.0 == self.listed()[i as int].0,
            *r.1 == self.listed()[i as int].1,
            self@.contains_key(r.0@),
            self@[r.0@] == *r.1,
    {
        proof {
            use_type_invariant(self);
            lemma_entry(self.entries@, i as int);
        }
        (&self.entries[i].0, &self.entries[i].1)
    }

    /// Position of the first entry whose key is not before `key`.
    fn lower_bound(&self, key: &K) -> (r: usize)
        ensures
            r <= self.entries@.len(),
            forall|i: int| 0 <= i < r ==> K::before((#[trigger] self.entries@[i]).0@, key@),
            forall|i: int|
                r <= i < self.entries@.len() ==> !K::before((#[trigger] self.entries@[i]).0@, key@),
    {
        proof {
            use_type_invariant(self);
        }
        let mut lo: usize = 0;
        let mut hi: usize = self.entries.len();
        let ghost ks = keys(self.entries@);
        while lo < hi
            invariant
                lo <= hi <= self.entries@.len(),
                ks == keys(self.entries@),
                ascending::<K>(ks),
                forall|i: int| 0 <= i < lo ==> K::before((#[trigger] self.entries@[i]).0@, key@),
                forall|i: int|
                    hi <= i < self.entries@.len() ==> !K::before(
                        (#[trigger] self.entries@[i]).0@,
                        key@,
                    ),
            decreases hi - lo,
        {
            let mid: usize = lo + (hi - lo) / 2;
            if self.entries[mid].0.ranks_before(key) {
                proof {
                    assert forall|i: int| 0 <= i < mid + 1 implies K::before(
                        (#[trigger] self.entries@[i]).0@,
                        key@,
                    ) by {
                        if i < mid {
                            assert(K::before(ks[i], ks[mid as int]));
                            K::transitive(ks[i], ks[mid as int], key@);
                        }
                    }
                }
                lo = mid + 1;
            } else {
                proof {
                    assert forall|i: int| mid <= i < self.entries@.len() implies !K::before(
                        (#[trigger] self.entries@[i]).0@,
                        key@,
                    ) by {
                        if i > mid && K::before(ks[i], key@) {
                            assert(K::before(ks[mid as int], ks[i]));
                            K::transitive(ks[mid as int], ks[i], key@);
                        }
                    }
                }
                hi = mid;
            }
        }
        lo
    }

    /// The value of `key`, if it has one.
    pub fn get(&self, key: &K) -> (r: Option<&V>)
        ensures
            match r {
                Some(v) => self@.contains_key(key@) && *v == self@[key@],
                None => !self@.contains_key(key@),
            },
    {
        let i: usize = self.lower_bound(key);
        proof {
            use_type_invariant(self);
        }
        if i < self.entries.len() && !key.ranks_before(&self.entries[i].0) {
            proof {
                K::total(self.entries@[i as int].0@, key@);
                lemma_entry(self.entries@, i as int);
            }
            Some(&self.entries[i].1)
        } else {
            proof {
                let ks = keys(self.entries@);
                if ks.contains(key@) {
                    let j = choose|j: int| 0 <= j < ks.len() && ks[j] == key@;
                    assert(self.entries@[j].0@ == key@);
                    K::irreflexive(key@);
                    if j > i {
                        assert(K::before(ks[i as int], ks[j]));
                    }
                }
            }
            None
        }
    }

    /// Whether `key` has a value.
    pub fn contains(&self, key: &K) -> (r: bool)
        ensures
            r == self@.contains_key(key@),
    {
        self.get(key).is_some()
    }

    /// Sets the value of `key`.
    pub fn insert(&mut self, key: K, value: V)
        ensures
            final(self)@ == old(self)@.insert(key@, value),
    {
        let i: usize = self.lower_bound(&key);
        proof {
            use_type_invariant(&*self);
        }
        let mut entries: Vec<(K, V)> = Vec::new();
        std::mem::swap(&mut entries, &mut self.entries);
        let ghost before = entries@;
        let ghost ks = keys(before);
        let ghost k = key@;
        if i < entries.len() && !key.ranks_before(&entries[i].0) {
            proof {
                K::total(ks[i as int], k);
            }
            entries.set(i, (key, value));
            proof {
                assert(keys(entries@) =~= ks);
                assert forall|x: K::V| #[trigger] ks.contains(x) implies as_map(entries@)[x] == (if x == k {
                    value
                } else {
                    as_map(before)[x]
                }) by {
                    let j = choose|j: int| 0 <= j < ks.len() && ks[j] == x;
                    lemma_entry(entries@, j);
                    lemma_entry(before, j);
                    if j == i {
                        assert(x == k);
                    } else if x == k {
                        K::irreflexive(k);
                        if j < i {
                            assert(K::before(ks[j], ks[i as int]));
                        } else {
                            assert(K::before(ks[i as int], ks[j]));
                        }
                    }
                }
                assert(ks[i as int] == k);
                assert(as_map(entries@) =~= as_map(before).insert(k, value));
            }
        } else {
            proof {
                assert forall|j: int| i <= j < ks.len() implies K::before(k, #[trigger] ks[j]) by {
                    if j > i {
                        assert(K::before(ks[i as int], ks[j]));
                        K::transitive(k, ks[i as int], ks[j]);
                    }
                }
            }
            entries.insert(i, (key, value));
            proof {
                let now = keys(entries@);
                assert(now =~= ks.insert(i as int, k));
                assert forall|a: int, b: int| 0 <= a < b < now.len() implies K::before(
                    #[trigger] now[a],
                    #[trigger] now[b],
                ) by {
                    if a < i && b == i {
                        assert(now[a] == before[a].0@);
                    } else if a < i && b > i {
                        assert(now[b] == ks[b - 1]);
                        assert(K::before(ks[a], ks[b - 1]));
                    } else if a == i {
                        assert(now[b] == ks[b - 1]);
                    } else if a > i {
                        assert(K::before(ks[a - 1], ks[b - 1]));
                    }
                }
                let m = as_map(entries@);
                assert forall|x: K::V| m.contains_key(x) <==> (x == k || as_map(
                    before,
                ).contains_key(x)) by {
                    if now.contains(x) {
                        let j = choose|j: int| 0 <= j < now.len() && now[j] == x;
                        if j < i {
                            assert(ks[j] == x);
                        } else if j > i {
                            assert(ks[j - 1] == x);
                        }
                    }
                    if ks.contains(x) {
                        let j = choose|j: int| 0 <= j < ks.len() && ks[j] == x;
                        if j < i {
                            assert(now[j] == x);
                        } else {
                            assert(now[j + 1] == x);
                        }
                    }
                    assert(now[i as int] == k);
                }
                lemma_entry(entries@, i as int);
                assert forall|x: K::V| m.contains_key(x) && x != k implies m[x] == as_map(
                    before,
                )[x] by {
                    let j = choose|j: int| 0 <= j < ks.len() && ks[j] == x;
                    lemma_entry(before, j);
                    if j < i {
                        lemma_entry(entries@, j);
                    } else {
                        lemma_entry(entries@, j + 1);
                    }
                }
                assert(m =~= as_map(before).insert(k, value));
            }
        }
        self.entries = entries;
    }

    /// Appends an entry whose key comes after all present keys.
    fn append(&mut self, key: K, value: V)
        requires
            old(self).listed().len() > 0 ==> K::before(old(self).listed().last().0@, key@),
            ascending::<K>(keys(old(self).listed())),
        ensures
            final(self).listed() == old(self).listed().push((key, value)),
    {
        let mut entries: Vec<(K, V)> = Vec::new();
        std::mem::swap(&mut entries, &mut self.entries);
        let ghost before = entries@;
        entries.push((key, value));
        proof {
            let ks = keys(before);
            let now = keys(entries@);
            assert(now =~= ks.push(key@));
            assert forall|a: int, b: int| 0 <= a < b < now.len() implies K::before(
                #[trigger] now[a],
                #[trigger] now[b],
            ) by {
                if b == ks.len() && a < ks.len() - 1 {
                    assert(K::before(ks[a], ks[ks.len() - 1]));
                    K::transitive(ks[a], ks[ks.len() - 1], key@);
                } else if b < ks.len() {
                    assert(K::before(ks[a], ks[b]));
                }
            }
        }
        self.entries = entries;
    }
}

// ---- grouping --------------------------------------------------------------

/// `list` holds the indices at which `k` stands in `keys`, in ascending order.
pub open spec fn lists_places<K>(list: Seq<usize>, keys: Seq<K>, k: K) -> bool {
    &&& forall|a: int, b: int| 0 <= a < b < list.len() ==> #[trigger] list[a] < #[trigger] list[b]
    &&& forall|i: usize|
        #[trigger] list.contains(i) <==> (i < keys.len() && keys[i as int] == k)
}

/// Maps each key to the places at which it stands.
pub fn grouped<K: Rank>(input: &Vec<K>) -> (r: Table<K, Vec<usize>>)
    ensures
        forall|k: K::V| #[trigger] r@.contains_key(k) <==> views(input@).contains(k),
        forall|k: K::V| #[trigger] r@.contains_key(k) ==> lists_places(r@[k]@, views(input@), k),
{
    let order = sorted_order(input);
    let ghost kv = views(input@);
    let mut out: Table<K, Vec<usize>> = Table::new();
    let mut i: usize = 0;
    assert forall|a: int| 0 <= a < order@.len() implies #[trigger] order@[a] < input@.len() by {
        assert(order@.contains(order@[a]));
    }
    while i < order.len()
        invariant
            kv == views(input@),
            is_sorted_order::<K>(kv, order@),
            forall|a: int| 0 <= a < order@.len() ==> #[trigger] order@[a] < input@.len(),
            i <= order@.len(),
            ascending::<K>(keys(out.listed())),
            out@ == as_map(out.listed()),
            forall|e: int|
                0 <= e < out.listed().len() ==> lists_places(
                    (#[trigger] out.listed()[e]).1@,
                    kv,
                    out.listed()[e].0@,
                ) && (i < order@.len() ==> K::before(
                    out.listed()[e].0@,
                    kv[order@[i as int] as int],
                )),
            forall|a: int|
                0 <= a < i ==> keys(out.listed()).contains(kv[#[trigger] order@[a] as int]),
            forall|e: int|
                0 <= e < out.listed().len() ==> kv.contains(
                    (#[trigger] out.listed()[e]).0@,
                ),
        decreases order@.len() - i,
    {
        let first: usize = order[i];
        proof {
            assert(order@.contains(first));
        }
        let ghost k = kv[first as int];
        let mut list: Vec<usize> = Vec::new();
        let start: usize = i;
        list.push(first);
        i += 1;
        while i < order.len() && !input[first].ranks_before(&input[order[i]])
            invariant
                kv == views(input@),
                is_sorted_order::<K>(kv, order@),
                start < i <= order@.len(),
                first == order@[start as int],
                first < input@.len(),
                k == kv[first as int],
                list@ == order@.subrange(start as int, i as int),
                forall|a: int| start <= a < i ==> kv[#[trigger] order@[a] as int] == k,
                forall|a: int| 0 <= a < order@.len() ==> #[trigger] order@[a] < input@.len(),
            decreases order@.len() - i,
        {
            proof {
                K::total(k, kv[order@[i as int] as int]);
                assert(index_ordered::<K>(kv, order@, start as int, i as int));
            }
            list.push(order[i]);
            i += 1;
        }
        proof {
            lemma_group::<K>(kv, order@, start as int, i as int, list@, k);
        }
        let ghost before = out.listed();
        out.append(input[first].duplicate(), list);
        let n: usize = out.len();
        proof {
            let now = out.listed();
            let ks = keys(now);
            assert(ks =~= keys(before).push(k));
            assert forall|e: int| 0 <= e < now.len() implies lists_places(
                (#[trigger] now[e]).1@,
                kv,
                now[e].0@,
            ) && (i < order@.len() ==> K::before(now[e].0@, kv[order@[i as int] as int])) by {
                if i < order@.len() {
                    if e < before.len() {
                        assert(now[e] == before[e]);
                        K::transitive(now[e].0@, k, kv[order@[i as int] as int]);
                    }
                }
                if e < before.len() {
                    assert(now[e] == before[e]);
                }
            }
            assert forall|a: int| 0 <= a < i implies ks.contains(
                kv[#[trigger] order@[a] as int],
            ) by {
                if a < start {
                    let e = choose|e: int|
                        0 <= e < keys(before).len() && keys(before)[e] == kv[order@[a] as int];
                    assert(ks[e] == kv[order@[a] as int]);
                } else {
                    assert(ks[before.len() as int] == k);
                }
            }
            assert forall|e: int| 0 <= e < now.len() implies kv.contains(
                (#[trigger] now[e]).0@,
            ) by {
                if e < before.len() {
                    assert(now[e] == before[e]);
                } else {
                    assert(kv[first as int] == k);
                }
            }
        }
    }
    let n: usize = out.len();
    proof {
        let now = out.listed();
        let ks = keys(now);
        assert forall|k: K::V| #[trigger] out@.contains_key(k) <==> kv.contains(k) by {
            if ks.contains(k) {
                let e = choose|e: int| 0 <= e < ks.len() && ks[e] == k;
                assert(now[e].0@ == k);
            }
            if kv.contains(k) {
                let q = choose|q: int| 0 <= q < kv.len() && kv[q] == k;
                assert(order@.contains(q as usize));
                let a = choose|a: int| 0 <= a < order@.len() && order@[a] == q as usize;
                assert(ks.contains(kv[order@[a] as int]));
            }
        }
        assert forall|k: K::V| #[trigger] out@.contains_key(k) implies lists_places(
            out@[k]@,
            kv,
            k,
        ) by {
            let e = choose|e: int| 0 <= e < ks.len() && ks[e] == k;
            assert(now[e].0@ == k);
            lemma_entry(now, e);
        }
    }
    out
}

/// The entries at positions `a < b` of a sorted order are in order.
spec fn index_ordered<K: Rank>(kv: Seq<K::V>, order: Seq<usize>, a: int, b: int) -> bool {
    crate::order::index_before::<K>(kv, order[a], order[b])
}

/// The run of one key in a sorted order lists the places of that key.
proof fn lemma_group<K: Rank>(
    kv: Seq<K::V>,
    order: Seq<usize>,
    start: int,
    end: int,
    list: Seq<usize>,
    k: K::V,
)
    requires
        is_sorted_order::<K>(kv, order),
        0 <= start < end <= order.len(),
        list == order.subrange(start, end),
        forall|a: int| start <= a < end ==> kv[#[trigger] order[a] as int] == k,
        start > 0 ==> K::before(kv[order[start - 1] as int], k),
        end < order.len() ==> K::before(k, kv[order[end] as int]),
    ensures
        lists_places(list, kv, k),
{
    assert forall|a: int, b: int| 0 <= a < b < list.len() implies #[trigger] list[a]
        < #[trigger] list[b] by {
        assert(list[a] == order[start + a] && list[b] == order[start + b]);
        assert(crate::order::index_before::<K>(kv, order[start + a], order[start + b]));
        K::irreflexive(k);
    }
    assert forall|i: usize| #[trigger] list.contains(i) <==> (i < kv.len() && kv[i as int] == k) by {
        if list.contains(i) {
            let a = choose|a: int| 0 <= a < list.len() && list[a] == i;
            assert(order[start + a] == i);
            assert(order.contains(i));
        }
        if i < kv.len() && kv[i as int] == k {
            assert(order.contains(i));
            let a = choose|a: int| 0 <= a < order.len() && order[a] == i;
            K::irreflexive(k);
            if a < start {
                if a < start - 1 {
                    assert(crate::order::index_before::<K>(kv, order[a], order[start - 1]));
                    if K::before(kv[order[a] as int], kv[order[start - 1] as int]) {
                        K::transitive(k, kv[order[start - 1] as int], k);
                    }
                }
            } else if a >= end {
                if a > end {
                    assert(crate::order::index_before::<K>(kv, order[end], order[a]));
                    if K::before(kv[order[end] as int], kv[order[a] as int]) {
                        K::transitive(k, kv[order[end] as int], k);
                    }
                }
            } else {
                assert(list[a - start] == i);
            }
        }
    }
}

} // verus!
