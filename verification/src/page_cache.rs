//! A bounded cache of materialised pages that drops the page unused longest.

use std::collections::{HashMap, VecDeque};
use std::sync::Arc;
use vstd::prelude::*;

verus! {

broadcast use vstd::std_specs::hash::group_hash_axioms;

/// `order` with `page` moved to the back.
pub open spec fn moved_to_back(order: Seq<u32>, page: u32) -> Seq<u32> {
    order.remove(order.index_of(page)).push(page)
}

/// The last `max` entries of `order`.
pub open spec fn newest(order: Seq<u32>, max: int) -> Seq<u32> {
    if order.len() <= max {
        order
    } else {
        order.subrange(order.len() - max, order.len() as int)
    }
}

/// The order of use after page `page` was used: a cached page moves to the
/// back, a new one enters there and pushes the oldest out over `max`.
pub open spec fn after_use(order: Seq<u32>, page: u32, max: int) -> Seq<u32> {
    if order.contains(page) {
        moved_to_back(order, page)
    } else {
        newest(order.push(page), max)
    }
}

/// The order of use after pages `from`, `from + 1`, .., `to - 1` were used.
pub open spec fn after_uses_up(order: Seq<u32>, from: int, to: int, max: int) -> Seq<u32>
    decreases to - from,
{
    if to <= from {
        order
    } else {
        after_use(after_uses_up(order, from, to - 1, max), (to - 1) as u32, max)
    }
}

/// The order of use after pages `from`, `from - 1`, .., `to` were used.
pub open spec fn after_uses_down(order: Seq<u32>, from: int, to: int, max: int) -> Seq<u32>
    decreases from - to + 1,
{
    if from < to {
        order
    } else {
        after_use(after_uses_down(order, from, to + 1, max), to as u32, max)
    }
}

/// Pages of rows keyed by page number, with the order in which they were last
/// used.
pub struct PageCache<T> {
    pages: HashMap<u32, Arc<Vec<T>>>,
    lru: VecDeque<u32>,
    max_pages: usize,
}

impl<T> PageCache<T> {
    /// The cached pages.
    pub closed spec fn contents(&self) -> Map<u32, Arc<Vec<T>>> {
        self.pages@
    }

    /// The cached page numbers, least recently used first.
    pub closed spec fn order(&self) -> Seq<u32> {
        self.lru@
    }

    /// How many pages the cache may hold.
    pub closed spec fn max(&self) -> int {
        self.max_pages as int
    }

    /// The order lists each cached page once, and no more than `max` of them.
    pub open spec fn wf(&self) -> bool {
        &&& self.order().no_duplicates()
        &&& self.order().len() <= self.max()
        &&& forall|k: u32| #[trigger] self.contents().contains_key(k) <==> self.order().contains(k)
    }

    /// An empty cache for up to `max_pages` pages.
    pub fn new(max_pages: usize) -> (r: PageCache<T>)
        ensures
            r.wf(),
            r.max() == max_pages,
            r.order() == Seq::<u32>::empty(),
            r.contents() == Map::<u32, Arc<Vec<T>>>::empty(),
    {
        PageCache { pages: HashMap::new(), lru: VecDeque::new(), max_pages }
    }

    /// Whether `page` is cached.
    pub fn is_cached(&self, page: u32) -> (r: bool)
        ensures
            r == self.contents().contains_key(page),
    {
        self.pages.contains_key(&page)
    }

    /// Moves the cached page `page` to the back of the order.
    fn touch(&mut self, page: u32)
        requires
            old(self).wf(),
            old(self).contents().contains_key(page),
        ensures
            final(self).wf(),
            final(self).max() == old(self).max(),
            final(self).contents() == old(self).contents(),
            final(self).order() == moved_to_back(old(self).order(), page),
    {
        let ghost order = self.lru@;
        let n: usize = self.lru.len();
        let mut i: usize = 0;
        while self.lru[i] != page
            invariant
                self.lru@ == order,
                order.contains(page),
                n == order.len(),
                i < n,
                forall|k: int| 0 <= k < i ==> order[k] != page,
                self.pages@ == old(self).pages@,
                self.max_pages == old(self).max_pages,
            decreases n - i,
        {
            proof {
                let w = choose|w: int| 0 <= w < order.len() && order[w] == page;
                assert(w > i);
            }
            i += 1;
        }
        proof {
            let w = order.index_of(page);
            assert(order[w] == page);
            assert(w == i);
        }
        let taken = self.lru.remove(i);
        self.lru.push_back(page);
        proof {
            let now = self.lru@;
            assert(now =~= moved_to_back(order, page));
            assert(now[now.len() - 1] == page);
            assert forall|k: u32| order.contains(k) implies now.contains(k) by {
                let w = choose|w: int| 0 <= w < order.len() && order[w] == k;
                if w < i {
                    assert(now[w] == k);
                } else if w > i {
                    assert(now[w - 1] == k);
                }
            }
            assert forall|k: u32| now.contains(k) implies order.contains(k) by {
                let w = choose|w: int| 0 <= w < now.len() && now[w] == k;
                if w < i {
                    assert(order[w] == k);
                } else if w < now.len() - 1 {
                    assert(order[w + 1] == k);
                }
            }
        }
    }

    /// The cached page `page`, which counts as a use of it.
    pub fn get(&mut self, page: u32) -> (r: Option<Arc<Vec<T>>>)
        requires
            old(self).wf(),
        ensures
            final(self).wf(),
            final(self).max() == old(self).max(),
            final(self).contents() == old(self).contents(),
            match r {
                Some(rows) => old(self).contents().contains_key(page) && rows == old(
                    self,
                ).contents()[page] && final(self).order() == moved_to_back(
                    old(self).order(),
                    page,
                ),
                None => !old(self).contents().contains_key(page) && final(self).order() == old(
                    self,
                ).order(),
            },
    {
        let found = match self.pages.get(&page) {
            Some(rows) => Some(Arc::clone(rows)),
            None => None,
        };
        if found.is_some() {
            self.touch(page);
        }
        found
    }

    /// Adds a page that is not cached yet, then drops the pages unused longest
    /// until at most `max` are left.
    pub fn insert(&mut self, page: u32, rows: Arc<Vec<T>>)
        requires
            old(self).wf(),
            !old(self).contents().contains_key(page),
        ensures
            final(self).wf(),
            final(self).max() == old(self).max(),
            final(self).order() == newest(old(self).order().push(page), old(self).max()),
            final(self).contents() == old(self).contents().insert(page, rows).restrict(
                final(self).order().to_set(),
            ),
    {
        let ghost full = old(self).order().push(page);
        let ghost all = old(self).contents().insert(page, rows);
        let ghost max = old(self).max();
        self.pages.insert(page, rows);
        self.lru.push_back(page);
        let ghost mut dropped: int = 0;
        proof {
            assert forall|k: u32| all.contains_key(k) <==> full.contains(k) by {
                if full.contains(k) && k != page {
                    let w = choose|w: int| 0 <= w < full.len() && full[w] == k;
                    assert(old(self).order()[w] == k);
                }
                if old(self).order().contains(k) {
                    let w = choose|w: int|
                        0 <= w < old(self).order().len() && old(self).order()[w] == k;
                    assert(full[w] == k);
                }
                assert(full[full.len() - 1] == page);
            }
            assert(full.no_duplicates());
            assert(self.lru@ =~= full.subrange(0, full.len() as int));
            assert(self.pages@ =~= all.restrict(self.lru@.to_set()));
        }
        while self.lru.len() > self.max_pages
            invariant
                self.max_pages == max,
                full.no_duplicates(),
                full.len() <= max + 1,
                forall|k: u32| all.contains_key(k) <==> full.contains(k),
                0 <= dropped <= full.len(),
                dropped > 0 ==> full.len() - dropped >= max,
                self.lru@ == full.subrange(dropped, full.len() as int),
                self.pages@ == all.restrict(self.lru@.to_set()),
            decreases self.lru@.len(),
        {
            let ghost before = self.lru@;
            let victim = self.lru.pop_front();
            match victim {
                Some(v) => {
                    self.pages.remove(&v);
                    proof {
                        dropped = dropped + 1;
                        assert(self.lru@ =~= full.subrange(dropped, full.len() as int));
                        let now = self.lru@;
                        assert forall|k: u32| now.contains(k) <==> before.contains(k) && k != v by {
                            if now.contains(k) {
                                let w = choose|w: int| 0 <= w < now.len() && now[w] == k;
                                assert(before[w + 1] == k);
                                assert(before[0] == v);
                            }
                            if before.contains(k) && k != v {
                                let w = choose|w: int| 0 <= w < before.len() && before[w] == k;
                                assert(w > 0);
                                assert(now[w - 1] == k);
                            }
                        }
                        assert(self.pages@ =~= all.restrict(now.to_set()));
                    }
                },
                None => {},
            }
        }
        proof {
            assert(self.lru@ =~= newest(full, max));
            assert forall|k: u32| #[trigger] self.contents().contains_key(k) <==> self.order().contains(
                k,
            ) by {
                if self.order().contains(k) {
                    let w = choose|w: int| 0 <= w < self.lru@.len() && self.lru@[w] == k;
                    assert(full[w + dropped] == k);
                }
            }
        }
    }
}

/// After a use the page is the most recent one, each cached page is listed
/// once, and the bound holds.
pub proof fn law_used_page_is_newest(order: Seq<u32>, page: u32, max: int)
    requires
        order.no_duplicates(),
        order.len() <= max,
        max > 0,
    ensures
        after_use(order, page, max).last() == page,
        after_use(order, page, max).no_duplicates(),
        after_use(order, page, max).len() <= max,
{
    if order.contains(page) {
        let i = order.index_of(page);
        assert(order[i] == page);
        let now = moved_to_back(order, page);
        assert forall|a: int, b: int| 0 <= a < now.len() && 0 <= b < now.len() && a != b implies now[a]
            != now[b] by {
            let x = if a < i {
                a
            } else {
                a + 1
            };
            let y = if b < i {
                b
            } else {
                b + 1
            };
            if a < now.len() - 1 {
                assert(now[a] == order[x]);
            }
            if b < now.len() - 1 {
                assert(now[b] == order[y]);
            }
        }
    } else {
        let full = order.push(page);
        assert(full.no_duplicates());
    }
}

/// A new page pushes out exactly the page unused longest once the cache is
/// full, and nothing before that.
pub proof fn law_eviction_drops_the_oldest(order: Seq<u32>, page: u32, max: int)
    requires
        !order.contains(page),
        0 < max,
        order.len() <= max,
    ensures
        order.len() < max ==> after_use(order, page, max) == order.push(page),
        order.len() == max ==> after_use(order, page, max) == order.drop_first().push(page),
{
    if order.len() == max {
        assert(after_use(order, page, max) =~= order.drop_first().push(page));
    }
}

} // verus!
