//! Paged row cache for the disassembly listing.
//!
//! The section is cut into pages of [`PAGE_INSNS`] instructions. One pass over
//! the instructions fixes where each page begins and which page addresses the
//! registers hold there, so that an address built across a page boundary still
//! resolves. Arrows are computed once for the whole section.

use crate::arrows::{build_section_arrows, segments, shows};
use crate::listing::{
    decode_for_prepass, drawn, header_symbol, listing_views, prepass_facts, ArrowSegment, BareRow, Listing,
    ListingRow, ListingRowView, WordInsn,
};
use crate::page_cache::{after_use, after_uses_down, after_uses_up, PageCache};
use crate::paging::{page_bounds, page_holding};
use crate::sections::{insn_lower_bound, lesser, TextSectionBytes};
use crate::symbols::SymbolMap;
use std::collections::HashMap;
use std::sync::Arc;
use vstd::prelude::*;

verus! {

broadcast use vstd::std_specs::hash::group_hash_axioms;

/// Instructions per page.
pub const PAGE_INSNS: u32 = 2048;

/// Default number of pages to keep.
pub const DEFAULT_MAX_PAGES: usize = 64;

/// Number of pages for `insns` instructions: an empty section has one empty
/// page.
pub open spec fn pages_for(insns: int) -> int {
    if insns == 0 {
        1
    } else {
        (insns + 2047) / 2048
    }
}

// ---- page-base tracking ----------------------------------------------------

/// The page address that each of the 32 registers holds, after one more word.
pub open spec fn after_word(
    pages: Seq<Option<u64>>,
    facts: (bool, Option<u8>, bool, Option<u64>),
) -> Seq<Option<u64>> {
    match facts.1 {
        Some(d) => if d < 32 {
            pages.update(
                d as int,
                if facts.2 {
                    facts.3
                } else {
                    None
                },
            )
        } else {
            pages
        },
        None => pages,
    }
}

/// The page address that each register holds after the first `n` words.
pub open spec fn tracker_upto(words: Seq<Option<WordInsn>>, n: int) -> Seq<Option<u64>>
    decreases n,
{
    if n <= 0 {
        Seq::new(32, |i: int| None)
    } else {
        after_word(tracker_upto(words, n - 1), prepass_facts(words[n - 1]))
    }
}

/// Page addresses of the registers at a page boundary.
#[derive(Debug)]
pub struct PageBaseSnapshot {
    pub x_pages: Vec<Option<u64>>,
}

/// `s` records `pages`: nothing where no register holds a page address.
pub open spec fn records(s: Option<PageBaseSnapshot>, pages: Seq<Option<u64>>) -> bool {
    match s {
        Some(snap) => snap.x_pages@ == pages && exists|i: int|
            0 <= i < pages.len() && #[trigger] pages[i] is Some,
        None => forall|i: int| 0 <= i < pages.len() ==> #[trigger] pages[i] is None,
    }
}

fn copy_pages(pages: &Vec<Option<u64>>) -> (r: Vec<Option<u64>>)
    ensures
        r@ == pages@,
{
    let mut r: Vec<Option<u64>> = Vec::new();
    let mut i: usize = 0;
    while i < pages.len()
        invariant
            i <= pages@.len(),
            r@ == pages@.take(i as int),
        decreases pages@.len() - i,
    {
        r.push(pages[i]);
        i += 1;
    }
    assert(pages@.take(i as int) =~= pages@);
    r
}

fn snapshot(pages: &Vec<Option<u64>>) -> (r: Option<PageBaseSnapshot>)
    ensures
        records(r, pages@),
{
    let mut i: usize = 0;
    while i < pages.len()
        invariant
            i <= pages@.len(),
            forall|k: int| 0 <= k < i ==> #[trigger] pages@[k] is None,
        decreases pages@.len() - i,
    {
        if pages[i].is_some() {
            return Some(PageBaseSnapshot { x_pages: copy_pages(pages) });
        }
        i += 1;
    }
    None
}

// ---- the pager -------------------------------------------------------------

/// What row `g` of a section shows of its arrows.
pub open spec fn arrows_on(l: Listing, lanes: u8, g: int) -> Seq<ArrowSegment> {
    segments(l.arrows(), l.arrows().len() as int, g, lanes)
}

/// All rows of a section, with their arrows.
pub open spec fn drawn_rows(l: Listing, lanes: u8) -> Seq<ListingRowView> {
    Seq::new(l.bare_rows().len(), |g: int| drawn(l.bare_rows()[g], arrows_on(l, lanes, g)))
}

/// Page-aware row cache for one code section.
pub struct PagedListing {
    text: TextSectionBytes,
    symbols: Arc<SymbolMap>,
    words: Arc<Vec<Option<WordInsn>>>,
    max_lanes: u8,
    n_insns: u32,
    n_pages: u32,
    page_row_starts: Vec<u32>,
    page_tracker_states: Vec<Option<PageBaseSnapshot>>,
    arrows_by_row: HashMap<u32, Vec<ArrowSegment>>,
    cache: PageCache<ListingRow>,
}

fn copy_segments(v: &Vec<ArrowSegment>) -> (r: Vec<ArrowSegment>)
    ensures
        r@ == v@,
{
    let mut r: Vec<ArrowSegment> = Vec::new();
    let mut i: usize = 0;
    while i < v.len()
        invariant
            i <= v@.len(),
            r@ == v@.take(i as int),
        decreases v@.len() - i,
    {
        r.push(v[i]);
        i += 1;
    }
    assert(v@.take(i as int) =~= v@);
    r
}

/// Number of rows of a listing; `None` where they are too many for a
/// [`PagedListing`].
#[verifier::rlimit(60)]
pub fn count_rows(
    text: &TextSectionBytes,
    symbols: &SymbolMap,
    words: &Vec<Option<WordInsn>>,
) -> (r: Option<u32>)
    requires
        text.fits(),
        words@.len() == text.insn_count(),
    ensures
        ({
            let rows = (Listing { text: *text, syms: symbols@, words: words@ }).bare_rows().len();
            match r {
                Some(n) => n == rows,
                None => rows > u32::MAX,
            }
        }),
{
    let ghost l = Listing { text: *text, syms: symbols@, words: words@ };
    let count: usize = symbols.len();
    assert(l.valid());
    let n: usize = words.len();
    let mut rows: u64 = 0;
    let mut i: usize = 0;
    while i < n
        invariant
            l == (Listing { text: *text, syms: symbols@, words: words@ }),
            l.valid(),
            n == l.count(),
            i <= n,
            rows == l.start(i as int),
            rows <= u32::MAX,
        decreases n - i,
    {
        proof {
            l.lemma_start(i as int);
            l.lemma_start_monotonic(i + 1, n as int);
        }
        if header_symbol(symbols, text.addr_of(i)).is_some() {
            rows += 1;
        }
        rows += 1;
        let ends = match text.precomputed_at(i) {
            Some(insn) => insn.terminator,
            None => decode_for_prepass(&words[i]).0,
        };
        if ends {
            rows += 1;
        }
        if rows > u32::MAX as u64 {
            return None;
        }
        i += 1;
    }
    Some(rows as u32)
}

impl PagedListing {
    /// The section with its symbols and decoded words.
    pub closed spec fn listing(&self) -> Listing {
        Listing { text: self.text, syms: self.symbols@, words: self.words@ }
    }

    /// How many arrow lanes are drawn.
    pub closed spec fn lanes(&self) -> u8 {
        self.max_lanes
    }

    /// The cached pages, least recently used first.
    pub closed spec fn order(&self) -> Seq<u32> {
        self.cache.order()
    }

    /// How many pages the cache may hold.
    pub closed spec fn max(&self) -> int {
        self.cache.max()
    }

    /// What row `g` shows of the section's arrows.
    pub open spec fn arrows_at(&self, g: int) -> Seq<ArrowSegment> {
        arrows_on(self.listing(), self.lanes(), g)
    }

    /// All rows of the section.
    pub open spec fn all_rows(&self) -> Seq<ListingRowView> {
        drawn_rows(self.listing(), self.lanes())
    }

    /// Number of pages.
    pub open spec fn pages(&self) -> int {
        pages_for(self.listing().count())
    }

    /// The first instruction of page `p`.
    pub open spec fn first_insn(&self, p: int) -> int {
        lesser(2048 * p, self.listing().count())
    }

    /// The first row of page `p`.
    pub open spec fn start_of(&self, p: int) -> int {
        self.listing().start(self.first_insn(p))
    }

    /// The rows of page `p`.
    pub open spec fn page_rows(&self, p: int) -> Seq<ListingRowView> {
        self.all_rows().subrange(self.start_of(p), self.start_of(p + 1))
    }

    /// Whether page `p` holds row `idx`.
    pub open spec fn page_holds(&self, p: int, idx: int) -> bool {
        0 <= p < self.pages() && self.start_of(p) <= idx < self.start_of(p + 1)
    }

    /// The page that holds row `idx`.
    pub open spec fn page_with(&self, idx: int) -> int {
        choose|p: int| self.page_holds(p, idx)
    }

    /// Whether row `k` exists and is an instruction.
    pub open spec fn is_insn_row(&self, k: int) -> bool {
        0 <= k < self.all_rows().len() && self.all_rows()[k] is Instruction
    }

    /// The same section with the same cache bound.
    pub open spec fn same_section(&self, other: &PagedListing) -> bool {
        &&& self.listing() == other.listing()
        &&& self.lanes() == other.lanes()
        &&& self.max() == other.max()
    }

    /// `self` is `before` after page `p` was used.
    pub open spec fn used(&self, before: &PagedListing, p: int) -> bool {
        &&& self.wf()
        &&& self.same_section(before)
        &&& self.order() == after_use(before.order(), p as u32, before.max())
    }

    /// `self` is `before` with the same pages cached in the same order.
    pub open spec fn unchanged(&self, before: &PagedListing) -> bool {
        &&& self.wf()
        &&& self.same_section(before)
        &&& self.order() == before.order()
    }

    /// The page index fits the section, and every cached page holds its rows.
    pub closed spec fn wf(&self) -> bool {
        let l = self.listing();
        &&& l.valid()
        &&& l.bare_rows().len() <= u32::MAX
        &&& self.n_insns == l.count()
        &&& self.n_pages == self.pages()
        &&& self.page_row_starts@.len() == self.n_pages + 1
        &&& forall|p: int|
            0 <= p <= self.n_pages ==> #[trigger] self.page_row_starts@[p] == self.start_of(p)
        &&& self.page_tracker_states@.len() == self.n_pages + 1
        &&& forall|p: int|
            0 <= p <= self.n_pages ==> records(
                #[trigger] self.page_tracker_states@[p],
                tracker_upto(self.words@, self.first_insn(p)),
            )
        &&& shows(self.arrows_by_row@, l.arrows(), l.arrows().len() as int, self.max_lanes)
        &&& self.cache.wf()
        &&& forall|p: u32| #[trigger]
            self.cache.contents().contains_key(p) ==> 2048 * p < l.count() && listing_views(
                self.cache.contents()[p]@,
            ) == self.page_rows(p as int)
    }

    /// Page starts never decrease, the first is zero, and the last page ends at
    /// the row count.
    pub proof fn law_page_starts(&self, p: int, q: int)
        requires
            0 <= p <= q,
        ensures
            self.start_of(0) == 0,
            self.start_of(p) <= self.start_of(q) <= self.all_rows().len(),
            q >= self.pages() ==> self.start_of(q) == self.all_rows().len(),
            p < q && 2048 * p < self.listing().count() ==> self.start_of(p) < self.start_of(q),
    {
        let l = self.listing();
        l.lemma_start_monotonic(self.first_insn(p), self.first_insn(q));
        l.lemma_start_monotonic(self.first_insn(q), l.count());
    }

    /// The pages, one after the other, are all the rows: up to page `p` they
    /// are the rows before page `p` begins.
    pub proof fn law_pages_cover_all_rows(&self, p: int)
        requires
            0 <= p,
        ensures
            self.all_rows().subrange(0, self.start_of(p)) + self.page_rows(p)
                == self.all_rows().subrange(0, self.start_of(p + 1)),
            self.all_rows().subrange(0, self.start_of(self.pages())) == self.all_rows(),
    {
        self.law_page_starts(p, p + 1);
        let all = self.all_rows();
        assert(all.subrange(0, self.start_of(p)) + self.page_rows(p) =~= all.subrange(
            0,
            self.start_of(p + 1),
        ));
        self.law_page_starts(self.pages(), self.pages());
        assert(all.subrange(0, self.start_of(self.pages())) =~= all);
    }

    /// A row lies on one page only.
    pub proof fn law_page_is_unique(&self, p: int, idx: int)
        requires
            self.page_holds(p, idx),
        ensures
            self.page_with(idx) == p,
    {
        let q = self.page_with(idx);
        if p < q {
            self.law_page_starts(p + 1, q);
        } else if q < p {
            self.law_page_starts(q + 1, p);
        }
    }

    /// The cache lists each page once and stays within its bound.
    pub proof fn law_cache_is_bounded(&self)
        requires
            self.wf(),
        ensures
            self.order().no_duplicates(),
            self.order().len() <= self.max(),
    {
    }

    /// Every instruction has exactly one row, which shows its address.
    pub proof fn law_insn_rows(&self, i: int)
        requires
            self.listing().valid(),
            0 <= i < self.listing().count(),
        ensures
            self.is_insn_row(self.listing().insn_row(i)),
            self.all_rows()[self.listing().insn_row(i)]->Instruction_address
                == self.listing().addr(i),
            self.page_holds(i / 2048, self.listing().insn_row(i)),
            forall|g: int|
                self.is_insn_row(g) && (#[trigger] self.all_rows()[g])->Instruction_address
                    == self.listing().addr(i) ==> g == self.listing().insn_row(i),
    {
        let l = self.listing();
        l.lemma_insn_row(i, l.count());
        l.lemma_start(i);
        l.lemma_start_monotonic(self.first_insn(i / 2048), i);
        l.lemma_start_monotonic(i + 1, self.first_insn(i / 2048 + 1));
        assert forall|g: int|
            self.is_insn_row(g) && (#[trigger] self.all_rows()[g])->Instruction_address == l.addr(
                i,
            ) implies g == l.insn_row(i) by {
            let j = l.lemma_insn_above(l.count(), g);
            l.lemma_insn_row(j, l.count());
        }
    }

    /// Builds the page index and the arrows. Materialises no row.
    #[verifier::rlimit(60)]
    pub fn new(
        text: TextSectionBytes,
        symbols: Arc<SymbolMap>,
        words: Arc<Vec<Option<WordInsn>>>,
        max_lanes: u8,
        max_pages: usize,
    ) -> (r: PagedListing)
        requires
            text.fits(),
            words@.len() == text.insn_count(),
            (Listing { text, syms: symbols@, words: words@ }).bare_rows().len() <= u32::MAX,
        ensures
            r.wf(),
            r.listing() == (Listing { text, syms: symbols@, words: words@ }),
            r.lanes() == max_lanes,
            r.max() == max_pages,
            r.order() == Seq::<u32>::empty(),
    {
        let ghost l = Listing { text, syms: symbols@, words: words@ };
        let count: usize = symbols.len();
        assert(l.valid());
        proof {
            l.lemma_start(l.count());
        }
        let n: u32 = text.instruction_count() as u32;
        let n_pages: u32 = if n == 0 {
            1
        } else if n % PAGE_INSNS == 0 {
            n / PAGE_INSNS
        } else {
            n / PAGE_INSNS + 1
        };
        let mut starts: Vec<u32> = Vec::new();
        let mut states: Vec<Option<PageBaseSnapshot>> = Vec::new();
        let mut x_pages: Vec<Option<u64>> = Vec::new();
        while x_pages.len() < 32
            invariant
                x_pages@.len() <= 32,
                forall|i: int| 0 <= i < x_pages@.len() ==> x_pages@[i] is None,
            decreases 32 - x_pages@.len(),
        {
            x_pages.push(None);
        }
        assert(x_pages@ =~= tracker_upto(words@, 0));
        let precomputed = text.precomputed.is_some();
        let mut rows: u32 = 0;
        let mut i: u32 = 0;
        while i < n
            invariant
                l == (Listing { text, syms: symbols@, words: words@ }),
                l.valid(),
                l.bare_rows().len() <= u32::MAX,
                precomputed == text.precomputed is Some,
                n == l.count(),
                i <= n,
                rows == l.start(i as int),
                x_pages@ == tracker_upto(words@, i as int),
                x_pages@.len() == 32,
                starts@.len() == (i + 2047) / 2048,
                states@.len() == (i + 2047) / 2048,
                forall|p: int|
                    0 <= p < starts@.len() ==> #[trigger] starts@[p] == l.start(2048 * p),
                forall|p: int|
                    0 <= p < states@.len() ==> records(
                        #[trigger] states@[p],
                        tracker_upto(words@, 2048 * p),
                    ),
            decreases n - i,
        {
            if i % PAGE_INSNS == 0 {
                starts.push(rows);
                states.push(snapshot(&x_pages));
            }
            proof {
                l.lemma_start(i as int);
                l.lemma_start_monotonic(i + 1, n as int);
            }
            let addr = text.addr_of(i as usize);
            if header_symbol(&symbols, addr).is_some() {
                rows += 1;
            }
            rows += 1;
            let (word_ends, dest, adrp, page) = decode_for_prepass(&words[i as usize]);
            match dest {
                Some(d) => {
                    if d < 32 {
                        if adrp {
                            x_pages.set(d as usize, page);
                        } else {
                            x_pages.set(d as usize, None);
                        }
                    }
                },
                None => {},
            }
            let ends = if precomputed {
                match text.precomputed_at(i as usize) {
                    Some(insn) => insn.terminator,
                    None => false,
                }
            } else {
                word_ends
            };
            if ends {
                rows += 1;
            }
            i += 1;
        }
        if n == 0 {
            starts.push(0);
            states.push(snapshot(&x_pages));
        }
        starts.push(rows);
        states.push(snapshot(&x_pages));
        let arrows_by_row = build_section_arrows(&text, &symbols, &words, max_lanes);
        let r = PagedListing {
            text,
            symbols,
            words,
            max_lanes,
            n_insns: n,
            n_pages,
            page_row_starts: starts,
            page_tracker_states: states,
            arrows_by_row,
            cache: PageCache::new(max_pages),
        };
        proof {
            assert(r.listing() == l);
            assert forall|p: int| 0 <= p <= n_pages implies #[trigger] r.page_row_starts@[p]
                == r.start_of(p) by {
                if p < n_pages {
                    assert(r.first_insn(p) == 2048 * p);
                } else {
                    assert(r.first_insn(p) == n);
                }
            }
            assert forall|p: int| 0 <= p <= n_pages implies records(
                #[trigger] r.page_tracker_states@[p],
                tracker_upto(r.words@, r.first_insn(p)),
            ) by {
                if p < n_pages {
                    assert(r.first_insn(p) == 2048 * p);
                } else {
                    assert(r.first_insn(p) == n);
                }
            }
        }
        r
    }

    /// Number of rows.
    pub fn total_rows(&self) -> (r: u32)
        requires
            self.wf(),
        ensures
            r == self.all_rows().len(),
    {
        self.page_row_starts[self.n_pages as usize]
    }

    /// Number of pages.
    pub fn n_pages(&self) -> (r: u32)
        requires
            self.wf(),
        ensures
            r == self.pages(),
    {
        self.n_pages
    }

    /// The first row of page `p`, or the row count for `p == n_pages()`.
    pub fn page_start(&self, p: u32) -> (r: u32)
        requires
            self.wf(),
            p <= self.pages(),
        ensures
            r == self.start_of(p as int),
    {
        self.page_row_starts[p as usize]
    }

    /// The page addresses that the registers hold where page `p` begins;
    /// `None` where they hold none.
    pub fn page_snapshot(&self, p: u32) -> (r: Option<Vec<Option<u64>>>)
        requires
            self.wf(),
            p <= self.pages(),
        ensures
            ({
                let pages = tracker_upto(self.listing().words, self.first_insn(p as int));
                match r {
                    Some(v) => v@ == pages && exists|i: int|
                        0 <= i < pages.len() && #[trigger] pages[i] is Some,
                    None => forall|i: int| 0 <= i < pages.len() ==> #[trigger] pages[i] is None,
                }
            }),
    {
        assert(records(
            self.page_tracker_states@[p as int],
            tracker_upto(self.words@, self.first_insn(p as int)),
        ));
        match &self.page_tracker_states[p as usize] {
            Some(s) => Some(copy_pages(&s.x_pages)),
            None => None,
        }
    }

    /// Whether page `p` is materialised.
    pub fn is_cached(&self, p: u32) -> (r: bool)
        requires
            self.wf(),
        ensures
            r == self.order().contains(p),
    {
        self.cache.is_cached(p)
    }

    /// What row `row` shows of the section's arrows.
    pub fn arrows_for(&self, row: u32) -> (r: Vec<ArrowSegment>)
        requires
            self.wf(),
        ensures
            r@ == self.arrows_at(row as int),
    {
        match self.arrows_by_row.get(&row) {
            Some(v) => {
                assert(self.arrows_by_row@.contains_key(row));
                copy_segments(v)
            },
            None => {
                assert(!self.arrows_by_row@.contains_key(row));
                let r: Vec<ArrowSegment> = Vec::new();
                assert(r@ =~= self.arrows_at(row as int));
                r
            },
        }
    }

    proof fn lemma_bounds(&self)
        requires
            self.wf(),
        ensures
            page_bounds(self.page_row_starts@),
            self.page_row_starts@.last() == self.all_rows().len(),
    {
        let starts = self.page_row_starts@;
        self.law_page_starts(0, self.n_pages as int);
        assert forall|i: int, j: int| 0 <= i <= j < starts.len() implies #[trigger] starts[i]
            <= #[trigger] starts[j] by {
            self.law_page_starts(i, j);
        }
    }

    proof fn lemma_page(&self, p: int, page: Seq<ListingRow>)
        requires
            self.wf(),
            0 <= p,
            listing_views(page) == self.page_rows(p),
        ensures
            self.start_of(p) + page.len() == self.start_of(p + 1),
            self.start_of(p + 1) <= self.all_rows().len() <= u32::MAX,
            forall|off: int|
                0 <= off < page.len() ==> (#[trigger] page[off])@ == self.all_rows()[self.start_of(
                    p,
                ) + off],
    {
        self.law_page_starts(p, p + 1);
        assert(listing_views(page).len() == page.len());
        assert forall|off: int| 0 <= off < page.len() implies (#[trigger] page[off])@
            == self.all_rows()[self.start_of(p) + off] by {
            assert(listing_views(page)[off] == page[off]@);
        }
    }

    /// The page that holds row `idx`; `None` past the end.
    pub fn page_of(&self, idx: u32) -> (r: Option<u32>)
        requires
            self.wf(),
        ensures
            match r {
                Some(p) => p == self.page_with(idx as int) && self.page_holds(p as int, idx as int)
                    && 2048 * p < self.listing().count() && idx < self.all_rows().len(),
                None => idx >= self.all_rows().len(),
            },
    {
        proof {
            self.lemma_bounds();
        }
        if idx >= self.total_rows() {
            return None;
        }
        let p: usize = page_holding(&self.page_row_starts, idx);
        proof {
            assert(self.page_holds(p as int, idx as int));
            self.law_page_is_unique(p as int, idx as int);
        }
        Some(p as u32)
    }

    /// The rows of page `p`, with their arrows.
    #[verifier::rlimit(60)]
    fn build_page(&self, p: u32) -> (rows: Vec<ListingRow>)
        requires
            self.wf(),
            2048 * p < self.listing().count(),
        ensures
            listing_views(rows@) == self.page_rows(p as int),
    {
        let ghost l = self.listing();
        let n: u64 = self.n_insns as u64;
        let first: u32 = p * PAGE_INSNS;
        let last: u32 = if (p as u64 + 1) * 2048 < n {
            (p + 1) * PAGE_INSNS
        } else {
            self.n_insns
        };
        let base: u32 = self.page_row_starts[p as usize];
        let precomputed = self.text.precomputed.is_some();
        let ghost all = self.all_rows();
        let mut rows: Vec<ListingRow> = Vec::new();
        let mut i: u32 = first;
        proof {
            self.law_page_starts(p as int, p + 1);
            assert(listing_views(rows@) =~= all.subrange(base as int, base as int));
        }
        while i < last
            invariant
                self.wf(),
                l == self.listing(),
                all == self.all_rows(),
                base == l.start(first as int),
                first <= i <= last <= l.count(),
                precomputed == self.text.precomputed is Some,
                base <= l.start(i as int) <= all.len(),
                base + rows@.len() == l.start(i as int),
                listing_views(rows@) == all.subrange(base as int, l.start(i as int)),
            decreases last - i,
        {
            let ghost at = l.start(i as int);
            proof {
                l.lemma_start(i as int);
                l.lemma_start_monotonic(i + 1, l.count());
                l.lemma_rows_at(i as int, l.count(), 0);
                if l.rows_of(i as int).len() > 1 {
                    l.lemma_rows_at(i as int, l.count(), 1);
                }
                if l.rows_of(i as int).len() > 2 {
                    l.lemma_rows_at(i as int, l.count(), 2);
                }
            }
            let addr = self.text.addr_of(i as usize);
            let ghost g0 = listing_views(rows@);
            match header_symbol(&self.symbols, addr) {
                Some(s) => {
                    rows.push(
                        ListingRow::SymbolHeader { address: s.address, name: s.display_name.clone() },
                    );
                    proof {
                        assert(*s == l.header(i as int));
                        assert(all[at] == drawn(l.rows_of(i as int)[0], self.arrows_at(at)));
                        assert(listing_views(rows@) =~= g0.push(all[at]));
                        assert(listing_views(rows@) =~= all.subrange(base as int, at + 1));
                    }
                },
                None => {},
            }
            let ghost g1 = listing_views(rows@);
            let row: u32 = base + rows.len() as u32;
            rows.push(
                ListingRow::Instruction { address: addr, arrows: Arc::new(self.arrows_for(row)) },
            );
            proof {
                assert(row == l.insn_row(i as int));
                assert(all[row as int] == drawn(BareRow::Insn(addr as int), self.arrows_at(row as int)));
                assert(listing_views(rows@) =~= g1.push(all[row as int]));
                assert(listing_views(rows@) =~= all.subrange(base as int, row + 1));
            }
            let ends = if precomputed {
                match self.text.precomputed_at(i as usize) {
                    Some(insn) => insn.terminator,
                    None => false,
                }
            } else {
                decode_for_prepass(&self.words[i as usize]).0
            };
            if ends {
                let ghost g2 = listing_views(rows@);
                let row: u32 = base + rows.len() as u32;
                rows.push(
                    ListingRow::BasicBlockSeparator { arrows: Arc::new(self.arrows_for(row)) },
                );
                proof {
                    assert(all[row as int] == drawn(BareRow::Separator, self.arrows_at(row as int)));
                    assert(listing_views(rows@) =~= g2.push(all[row as int]));
                    assert(listing_views(rows@) =~= all.subrange(base as int, row + 1));
                }
            }
            i += 1;
        }
        rows
    }

    /// The rows of page `p`, from the cache or built now. Counts as a use of
    /// the page.
    pub fn ensure_page_built(&mut self, p: u32) -> (rows: Arc<Vec<ListingRow>>)
        requires
            old(self).wf(),
            2048 * p < old(self).listing().count(),
        ensures
            final(self).used(old(self), p as int),
            listing_views(rows@) == old(self).page_rows(p as int),
    {
        let cached = self.cache.get(p);
        assert(self.same_section(old(self)));
        match cached {
            Some(rows) => {
                return rows;
            },
            None => {},
        }
        let rows = Arc::new(self.build_page(p));
        let kept = Arc::clone(&rows);
        self.cache.insert(p, kept);
        assert(self.same_section(old(self)));
        rows
    }

    /// The page that holds row `idx`, built if need be, and the row's place in
    /// it; `None` past the end.
    pub fn page_for_row_blocking(&mut self, idx: u32) -> (r: Option<(Arc<Vec<ListingRow>>, usize)>)
        requires
            old(self).wf(),
        ensures
            match r {
                Some((page, off)) => {
                    let p = old(self).page_with(idx as int);
                    &&& idx < old(self).all_rows().len()
                    &&& old(self).page_holds(p, idx as int)
                    &&& listing_views(page@) == old(self).page_rows(p)
                    &&& off == idx - old(self).start_of(p)
                    &&& off < page@.len()
                    &&& page@[off as int]@ == old(self).all_rows()[idx as int]
                    &&& final(self).used(old(self), p)
                },
                None => idx >= old(self).all_rows().len() && *final(self) == *old(self),
            },
    {
        let p: u32 = match self.page_of(idx) {
            Some(p) => p,
            None => {
                return None;
            },
        };
        let start: u32 = self.page_row_starts[p as usize];
        let page = self.ensure_page_built(p);
        proof {
            old(self).lemma_page(p as int, page@);
        }
        Some((page, (idx - start) as usize))
    }

    /// As [`Self::page_for_row_blocking`], but `None` where the page is not
    /// cached: never builds one.
    pub fn page_for_row_if_cached(&mut self, idx: u32) -> (r: Option<(Arc<Vec<ListingRow>>, usize)>)
        requires
            old(self).wf(),
        ensures
            match r {
                Some((page, off)) => {
                    let p = old(self).page_with(idx as int);
                    &&& idx < old(self).all_rows().len()
                    &&& old(self).page_holds(p, idx as int)
                    &&& old(self).order().contains(p as u32)
                    &&& listing_views(page@) == old(self).page_rows(p)
                    &&& off == idx - old(self).start_of(p)
                    &&& off < page@.len()
                    &&& page@[off as int]@ == old(self).all_rows()[idx as int]
                    &&& final(self).used(old(self), p)
                },
                None => {
                    &&& idx >= old(self).all_rows().len() || !old(self).order().contains(
                        old(self).page_with(idx as int) as u32,
                    )
                    &&& final(self).unchanged(old(self))
                },
            },
    {
        let p: u32 = match self.page_of(idx) {
            Some(p) => p,
            None => {
                return None;
            },
        };
        let start: u32 = self.page_row_starts[p as usize];
        let found = self.cache.get(p);
        assert(self.same_section(old(self)));
        match found {
            Some(page) => {
                proof {
                    old(self).lemma_page(p as int, page@);
                }
                Some((page, (idx - start) as usize))
            },
            None => None,
        }
    }

    /// Position of the instruction at `addr`. In a fixed-width section the
    /// position may be one past the last instruction, where an incomplete word
    /// ends the section.
    fn insn_idx_of_addr(&self, addr: u64) -> (r: Option<u32>)
        requires
            self.wf(),
        ensures
            ({
                let t = self.listing().text;
                match r {
                    Some(i) => if t.precomputed is Some {
                        i < self.listing().count() && self.listing().addr(i as int) == addr
                    } else {
                        addr == t.base + 4 * i && addr < t.base + t.bytes@.len() && i
                            <= self.listing().count()
                    },
                    None => if t.precomputed is Some {
                        forall|i: int|
                            0 <= i < self.listing().count() ==> #[trigger] self.listing().addr(i)
                                != addr
                    } else {
                        addr < t.base || addr >= t.base + t.bytes@.len() || (addr - t.base) % 4 != 0
                    },
                }
            }),
    {
        match &self.text.precomputed {
            Some(p) => {
                let pos: usize = insn_lower_bound(p, addr);
                if pos < p.len() && p[pos].address == addr {
                    Some(pos as u32)
                } else {
                    assert forall|i: int| 0 <= i < self.listing().count() implies
                        #[trigger] self.listing().addr(i) != addr by {
                        assert(self.listing().addr(i) == p@[i].address);
                        if i > pos {
                            assert(p@[pos as int].address < p@[i].address);
                        }
                    }
                    None
                }
            },
            None => {
                if addr < self.text.base {
                    return None;
                }
                let off: u64 = addr - self.text.base;
                if off >= self.text.bytes.len() as u64 || off % 4 != 0 {
                    return None;
                }
                Some((off / 4) as u32)
            },
        }
    }

    /// Whether `addr` begins the incomplete word after the last instruction.
    pub open spec fn begins_partial_word(&self, addr: u64) -> bool {
        let t = self.listing().text;
        &&& t.precomputed is None
        &&& self.listing().count() > 0
        &&& addr == t.base + 4 * self.listing().count()
        &&& addr < t.base + t.bytes@.len()
    }

    /// The row of the instruction at `addr`; `None` where no instruction has
    /// that address. Uses the page of the instruction.
    #[verifier::rlimit(60)]
    pub fn row_for_addr(&mut self, addr: u64) -> (r: Option<u32>)
        requires
            old(self).wf(),
        ensures
            match r {
                Some(k) => exists|i: int|
                    {
                        &&& 0 <= i < old(self).listing().count()
                        &&& #[trigger] old(self).listing().addr(i) == addr
                        &&& k == old(self).listing().insn_row(i)
                        &&& final(self).used(old(self), i / 2048)
                    },
                None => {
                    &&& forall|i: int|
                        0 <= i < old(self).listing().count() ==> #[trigger] old(
                            self,
                        ).listing().addr(i) != addr
                    &&& old(self).begins_partial_word(addr) ==> final(self).used(
                        old(self),
                        old(self).pages() - 1,
                    )
                    &&& !old(self).begins_partial_word(addr) ==> *final(self) == *old(self)
                },
            },
    {
        let ghost l = self.listing();
        let i: u32 = match self.insn_idx_of_addr(addr) {
            Some(i) => i,
            None => {
                return None;
            },
        };
        if self.n_insns == 0 {
            return None;
        }
        let p: u32 = if i / PAGE_INSNS < self.n_pages {
            i / PAGE_INSNS
        } else {
            self.n_pages - 1
        };
        let start: u32 = self.page_row_starts[p as usize];
        let page = self.ensure_page_built(p);
        proof {
            old(self).lemma_page(p as int, page@);
            if i < l.count() {
                old(self).law_insn_rows(i as int);
                old(self).law_page_is_unique(i as int / 2048, l.insn_row(i as int));
            }
        }
        let mut off: usize = 0;
        while off < page.len()
            invariant
                l == old(self).listing(),
                old(self).wf(),
                self.used(old(self), p as int),
                start == old(self).start_of(p as int),
                start + page@.len() == old(self).start_of(p + 1),
                old(self).start_of(p + 1) <= old(self).all_rows().len() <= u32::MAX,
                i < l.count() ==> {
                    &&& l.addr(i as int) == addr
                    &&& p == i / 2048
                    &&& forall|g: int|
                        old(self).is_insn_row(g) && (#[trigger] old(
                            self,
                        ).all_rows()[g])->Instruction_address == addr ==> g == l.insn_row(i as int)
                },
                i >= l.count() ==> forall|j: int|
                    0 <= j < l.count() ==> #[trigger] l.addr(j) != addr,
                i < l.count() ==> start + off <= l.insn_row(i as int),
                forall|off: int|
                    0 <= off < page@.len() ==> (#[trigger] page@[off])@ == old(
                        self,
                    ).all_rows()[start + off],
            decreases page@.len() - off,
        {
            let ghost g = start + off;
            match &page[off] {
                ListingRow::Instruction { address, arrows } => {
                    if *address == addr {
                        proof {
                            assert(old(self).is_insn_row(g));
                            if i >= l.count() {
                                let j = l.lemma_insn_above(l.count(), g);
                                l.lemma_insn_row(j, l.count());
                                assert(l.addr(j) == addr);
                            }
                        }
                        return Some(start + off as u32);
                    }
                },
                _ => {},
            }
            proof {
                if i < l.count() && g == l.insn_row(i as int) {
                    old(self).law_insn_rows(i as int);
                }
            }
            off += 1;
        }
        None
    }

    /// Address of the instruction at row `idx`; `None` for other rows and past
    /// the end. Builds the page if need be.
    pub fn addr_at(&mut self, idx: u32) -> (r: Option<u64>)
        requires
            old(self).wf(),
        ensures
            match r {
                Some(a) => old(self).is_insn_row(idx as int) && old(
                    self,
                ).all_rows()[idx as int]->Instruction_address == a,
                None => !old(self).is_insn_row(idx as int),
            },
            idx < old(self).all_rows().len() ==> final(self).used(
                old(self),
                old(self).page_with(idx as int),
            ),
            idx >= old(self).all_rows().len() ==> *final(self) == *old(self),
    {
        match self.page_for_row_blocking(idx) {
            Some((page, off)) => match &page[off] {
                ListingRow::Instruction { address, arrows } => Some(*address),
                _ => None,
            },
            None => None,
        }
    }

    /// As [`Self::addr_at`], but `None` where the page is not cached.
    pub fn addr_at_if_cached(&mut self, idx: u32) -> (r: Option<u64>)
        requires
            old(self).wf(),
        ensures
            ({
                let p = old(self).page_with(idx as int);
                let cached = idx < old(self).all_rows().len() && old(self).order().contains(
                    p as u32,
                );
                &&& match r {
                    Some(a) => cached && old(self).is_insn_row(idx as int) && old(
                        self,
                    ).all_rows()[idx as int]->Instruction_address == a,
                    None => !cached || !old(self).is_insn_row(idx as int),
                }
                &&& cached ==> final(self).used(old(self), p)
                &&& !cached ==> final(self).unchanged(old(self))
            }),
    {
        match self.page_for_row_if_cached(idx) {
            Some((page, off)) => match &page[off] {
                ListingRow::Instruction { address, arrows } => Some(*address),
                _ => None,
            },
            None => None,
        }
    }

    /// The first instruction row at or after `idx`. Uses the pages from that of
    /// `idx` up to that of the result, or to the last.
    #[verifier::rlimit(60)]
    pub fn next_instruction_at_or_after(&mut self, idx: u32) -> (r: Option<u32>)
        requires
            old(self).wf(),
        ensures
            match r {
                Some(k) => {
                    &&& idx <= k
                    &&& old(self).is_insn_row(k as int)
                    &&& forall|j: int| idx <= j < k ==> !old(self).is_insn_row(j)
                    &&& final(self).wf()
                    &&& final(self).same_section(old(self))
                    &&& final(self).order() == after_uses_up(
                        old(self).order(),
                        old(self).page_with(idx as int),
                        old(self).page_with(k as int) + 1,
                        old(self).max(),
                    )
                },
                None => {
                    &&& forall|j: int| idx <= j ==> !old(self).is_insn_row(j)
                    &&& idx >= old(self).all_rows().len() ==> *final(self) == *old(self)
                    &&& idx < old(self).all_rows().len() ==> {
                        &&& final(self).wf()
                        &&& final(self).same_section(old(self))
                        &&& final(self).order() == after_uses_up(
                            old(self).order(),
                            old(self).page_with(idx as int),
                            old(self).pages(),
                            old(self).max(),
                        )
                    }
                },
            },
    {
        let ghost before = *self;
        let first: u32 = match self.page_of(idx) {
            Some(p) => p,
            None => {
                return None;
            },
        };
        let mut p: u32 = first;
        loop
            invariant
                before.wf(),
                before == *old(self),
                self.wf(),
                self.same_section(&before),
                first <= p < self.n_pages,
                2048 * p < before.listing().count(),
                idx < before.all_rows().len(),
                first == before.page_with(idx as int),
                self.order() == after_uses_up(before.order(), first as int, p as int, before.max()),
                p == first ==> before.page_holds(p as int, idx as int),
                p > first ==> idx <= before.start_of(p as int),
                forall|j: int| idx <= j < before.start_of(p as int) ==> !before.is_insn_row(j),
            decreases self.n_pages - p,
        {
            let base: u32 = self.page_row_starts[p as usize];
            let page = self.ensure_page_built(p);
            proof {
                before.lemma_page(p as int, page@);
            }
            let mut off: usize = if idx > base {
                (idx - base) as usize
            } else {
                0
            };
            while off < page.len()
                invariant
                    before.wf(),
                    before == *old(self),
                    self.wf(),
                    self.same_section(&before),
                    p < self.n_pages,
                    first == before.page_with(idx as int),
                    self.order() == after_uses_up(
                        before.order(),
                        first as int,
                        p + 1,
                        before.max(),
                    ),
                    base == before.start_of(p as int),
                    idx <= base + off,
                    base + page@.len() == before.start_of(p + 1),
                    before.start_of(p + 1) <= before.all_rows().len() <= u32::MAX,
                    forall|off: int|
                        0 <= off < page@.len() ==> (#[trigger] page@[off])@
                            == before.all_rows()[before.start_of(p as int) + off],
                    forall|j: int| idx <= j < base + off ==> !before.is_insn_row(j),
                decreases page@.len() - off,
            {
                match &page[off] {
                    ListingRow::Instruction { address, arrows } => {
                        proof {
                            before.law_page_is_unique(p as int, base + off);
                        }
                        return Some(base + off as u32);
                    },
                    _ => {},
                }
                off += 1;
            }
            proof {
                before.law_page_starts(p as int, p + 1);
            }
            p += 1;
            if p >= self.n_pages {
                proof {
                    before.law_page_starts(p as int, p as int);
                }
                return None;
            }
        }
    }

    /// The last instruction row at or before `idx`; `None` past the end and
    /// where only other rows come before. Uses the pages from that of `idx`
    /// down to that of the result, or to the first.
    #[verifier::rlimit(60)]
    pub fn prev_instruction_at_or_before(&mut self, idx: u32) -> (r: Option<u32>)
        requires
            old(self).wf(),
        ensures
            match r {
                Some(k) => {
                    &&& idx < old(self).all_rows().len()
                    &&& k <= idx
                    &&& old(self).is_insn_row(k as int)
                    &&& forall|j: int| k < j <= idx ==> !old(self).is_insn_row(j)
                    &&& final(self).wf()
                    &&& final(self).same_section(old(self))
                    &&& final(self).order() == after_uses_down(
                        old(self).order(),
                        old(self).page_with(idx as int),
                        old(self).page_with(k as int),
                        old(self).max(),
                    )
                },
                None => {
                    &&& idx >= old(self).all_rows().len() ==> *final(self) == *old(self)
                    &&& idx < old(self).all_rows().len() ==> {
                        &&& forall|j: int| 0 <= j <= idx ==> !old(self).is_insn_row(j)
                        &&& final(self).wf()
                        &&& final(self).same_section(old(self))
                        &&& final(self).order() == after_uses_down(
                            old(self).order(),
                            old(self).page_with(idx as int),
                            0,
                            old(self).max(),
                        )
                    }
                },
            },
    {
        let ghost before = *self;
        let last: u32 = match self.page_of(idx) {
            Some(p) => p,
            None => {
                return None;
            },
        };
        let mut p: u32 = last;
        loop
            invariant
                before.wf(),
                before == *old(self),
                self.wf(),
                self.same_section(&before),
                p <= last < self.n_pages,
                2048 * last < before.listing().count(),
                idx < before.all_rows().len(),
                last == before.page_with(idx as int),
                before.start_of(p as int) <= idx,
                self.order() == after_uses_down(before.order(), last as int, p + 1, before.max()),
                forall|j: int| before.start_of(p + 1) <= j <= idx ==> !before.is_insn_row(j),
            decreases p,
        {
            let base: u32 = self.page_row_starts[p as usize];
            let page = self.ensure_page_built(p);
            proof {
                before.lemma_page(p as int, page@);
            }
            let within: usize = (idx - base) as usize;
            let mut off: usize = if within < page.len() {
                within + 1
            } else {
                page.len()
            };
            while off > 0
                invariant
                    before.wf(),
                    before == *old(self),
                    self.wf(),
                    self.same_section(&before),
                    p <= last < self.n_pages,
                    last == before.page_with(idx as int),
                    self.order() == after_uses_down(
                        before.order(),
                        last as int,
                        p as int,
                        before.max(),
                    ),
                    base == before.start_of(p as int),
                    off <= page@.len(),
                    base + off <= idx + 1,
                    idx < before.all_rows().len() <= u32::MAX,
                    base + page@.len() == before.start_of(p + 1),
                    before.start_of(p + 1) <= before.all_rows().len(),
                    forall|off: int|
                        0 <= off < page@.len() ==> (#[trigger] page@[off])@
                            == before.all_rows()[before.start_of(p as int) + off],
                    forall|j: int| base + off <= j <= idx ==> !before.is_insn_row(j),
                decreases off,
            {
                off -= 1;
                match &page[off] {
                    ListingRow::Instruction { address, arrows } => {
                        proof {
                            before.law_page_is_unique(p as int, base + off);
                        }
                        return Some(base + off as u32);
                    },
                    _ => {},
                }
            }
            if p == 0 {
                proof {
                    before.law_page_starts(0, 0);
                }
                return None;
            }
            proof {
                before.law_page_starts(p - 1, p as int);
            }
            p -= 1;
        }
    }
}

} // verus!
