//! Paged row cache for the hex view.
//!
//! The rows of a large section are never all materialised. The section is cut
//! into pages of [`PAGE_BYTE_ROWS`] byte rows; a page is built when a row of it
//! is asked for and kept in a bounded cache. Where each page begins among all
//! rows follows from the number of symbols below it alone.

use crate::hex::{
    build_hex_rows, byte_row, byte_row_position, hex_rows, hex_views, lemma_byte_row_at, lemma_rows_len,
    lemma_row_above, lemma_rows_prefix, lemma_window_rows, row_position, rows_upto, window_bytes, HexRow, HexRowView,
};
use crate::page_cache::{after_use, after_uses_down, after_uses_up, PageCache};
use crate::paging::{page_bounds, page_holding};
use crate::sections::{copy_bytes, lesser, rows_for, DataSectionBytes};
use crate::symbols::{address_ordered, count_below, lemma_count_below_monotonic, Symbol, SymbolMap};
use std::sync::Arc;
use vstd::prelude::*;

verus! {

/// Byte rows per page.
pub const PAGE_BYTE_ROWS: u32 = 1024;

/// Default number of pages to keep.
pub const DEFAULT_MAX_PAGES: usize = 64;

/// Number of pages for `rows` byte rows: an empty section has one empty page.
pub open spec fn pages_for(rows: int) -> int {
    if rows == 0 {
        1
    } else {
        (rows + 1023) / 1024
    }
}

/// Page-aware row cache for one hex section.
pub struct PagedHex {
    data: DataSectionBytes,
    symbols: Arc<SymbolMap>,
    n_byte_rows: u32,
    n_pages: u32,
    page_starts: Vec<u32>,
    cache: PageCache<HexRow>,
}

impl PagedHex {
    /// Address of the section's first byte.
    pub closed spec fn base(&self) -> int {
        self.data.base as int
    }

    /// The section's bytes.
    pub closed spec fn bytes(&self) -> Seq<u8> {
        self.data.bytes@
    }

    /// The symbols, in address order.
    pub closed spec fn syms(&self) -> Seq<Symbol> {
        self.symbols@
    }

    /// The cached pages, least recently used first.
    pub closed spec fn order(&self) -> Seq<u32> {
        self.cache.order()
    }

    /// How many pages the cache may hold.
    pub closed spec fn max(&self) -> int {
        self.cache.max()
    }

    /// Number of byte rows.
    pub open spec fn byte_rows(&self) -> int {
        rows_for(self.bytes().len() as int)
    }

    /// All rows of the section.
    pub open spec fn all_rows(&self) -> Seq<HexRowView> {
        hex_rows(self.base(), self.bytes(), self.syms())
    }

    /// The first byte row of page `p`.
    pub open spec fn first_byte_row(&self, p: int) -> int {
        lesser(1024 * p, self.byte_rows())
    }

    /// The first row of page `p`.
    pub open spec fn start_of(&self, p: int) -> int {
        row_position(self.base(), self.bytes(), self.syms(), self.first_byte_row(p))
    }

    /// The rows of page `p`; none past the last page.
    pub open spec fn page_rows(&self, p: int) -> Seq<HexRowView> {
        self.all_rows().subrange(self.start_of(p), self.start_of(p + 1))
    }

    /// Whether page `p` holds row `idx`.
    pub open spec fn page_holds(&self, p: int, idx: int) -> bool {
        0 <= p < pages_for(self.byte_rows()) && self.start_of(p) <= idx < self.start_of(p + 1)
    }

    /// The page that holds row `idx`.
    pub open spec fn page_with(&self, idx: int) -> int {
        choose|p: int| self.page_holds(p, idx)
    }

    /// Whether row `k` exists and is a byte row.
    pub open spec fn is_byte_row(&self, k: int) -> bool {
        0 <= k < self.all_rows().len() && self.all_rows()[k] is Bytes
    }

    /// The same section with the same cache bound.
    pub open spec fn same_section(&self, other: &PagedHex) -> bool {
        &&& self.base() == other.base()
        &&& self.bytes() == other.bytes()
        &&& self.syms() == other.syms()
        &&& self.max() == other.max()
    }

    /// `self` is `before` after page `p` was used.
    pub open spec fn used(&self, before: &PagedHex, p: int) -> bool {
        &&& self.wf()
        &&& self.same_section(before)
        &&& self.order() == after_use(before.order(), p as u32, before.max())
    }

    /// The page index fits the section, and every cached page holds its rows.
    pub closed spec fn wf(&self) -> bool {
        &&& self.data.fits()
        &&& address_ordered(self.symbols@)
        &&& self.all_rows().len() <= u32::MAX
        &&& self.n_byte_rows == self.byte_rows()
        &&& self.n_pages == pages_for(self.byte_rows())
        &&& self.page_starts@.len() == self.n_pages + 1
        &&& forall|p: int|
            0 <= p <= self.n_pages ==> #[trigger] self.page_starts@[p] == self.start_of(p)
        &&& self.cache.wf()
        &&& forall|p: u32| #[trigger]
            self.cache.contents().contains_key(p) ==> hex_views(self.cache.contents()[p]@)
                == self.page_rows(p as int)
    }

    /// Page starts never decrease, the first is zero, and the last page ends at
    /// the row count.
    pub proof fn law_page_starts(&self, p: int, q: int)
        requires
            0 <= p <= q,
        ensures
            self.start_of(0) == 0,
            self.start_of(p) <= self.start_of(q) <= self.all_rows().len(),
            q >= pages_for(self.byte_rows()) ==> self.start_of(q) == self.all_rows().len(),
            p < q && p < pages_for(self.byte_rows()) && self.byte_rows() > 0 ==> self.start_of(p)
                < self.start_of(q),
    {
        let a = self.first_byte_row(p);
        let b = self.first_byte_row(q);
        let n = self.byte_rows();
        lemma_rows_prefix(self.base(), self.bytes(), self.syms(), a, b);
        lemma_rows_prefix(self.base(), self.bytes(), self.syms(), b, n);
        if a < b {
            lemma_byte_row_at(self.base(), self.bytes(), self.syms(), a, b);
        }
    }

    /// The pages, one after the other, are all the rows: up to page `p` they
    /// are the rows before page `p` begins.
    pub proof fn law_pages_cover_all_rows(&self, p: int)
        requires
            0 <= p,
        ensures
            self.all_rows().subrange(0, self.start_of(p)) + self.page_rows(p)
                == self.all_rows().subrange(0, self.start_of(p + 1)),
            self.all_rows().subrange(0, self.start_of(pages_for(self.byte_rows())))
                == self.all_rows(),
    {
        self.law_page_starts(p, p + 1);
        let all = self.all_rows();
        assert(all.subrange(0, self.start_of(p)) + self.page_rows(p) =~= all.subrange(
            0,
            self.start_of(p + 1),
        ));
        let last = pages_for(self.byte_rows());
        self.law_page_starts(last, last);
        assert(all.subrange(0, self.start_of(last)) =~= all);
    }

    /// A row lies on one page only.
    pub proof fn law_page_is_unique(&self, p: int, idx: int)
        requires
            self.page_holds(p, idx),
        ensures
            self.page_with(idx) == p,
    {
        let q = self.page_with(idx);
        if p < q {
            self.law_page_starts(p + 1, q);
        } else if q < p {
            self.law_page_starts(q + 1, p);
        }
    }

    /// Every page of a section with bytes ends with a byte row.
    pub proof fn law_pages_end_with_bytes(&self, p: int)
        requires
            0 <= p < pages_for(self.byte_rows()),
            self.byte_rows() > 0,
        ensures
            self.is_byte_row(self.start_of(p + 1) - 1),
    {
        let b = self.first_byte_row(p + 1);
        lemma_byte_row_at(self.base(), self.bytes(), self.syms(), b - 1, self.byte_rows());
    }

    /// Looking up the address of a byte row leads back to that row.
    pub proof fn law_byte_rows_are_found(&self, k: int)
        requires
            self.is_byte_row(k),
        ensures
            self.base() <= self.all_rows()[k]->Bytes_address < self.base() + self.bytes().len(),
            k == byte_row_position(
                self.base(),
                self.bytes(),
                self.syms(),
                (self.all_rows()[k]->Bytes_address - self.base()) / 16,
            ),
    {
        let n = self.byte_rows();
        let r = lemma_row_above(self.base(), self.bytes(), self.syms(), n, k);
        lemma_byte_row_at(self.base(), self.bytes(), self.syms(), r, n);
    }

    /// The cache lists each page once and stays within its bound.
    pub proof fn law_cache_is_bounded(&self)
        requires
            self.wf(),
        ensures
            self.order().no_duplicates(),
            self.order().len() <= self.max(),
    {
    }

    /// There is one row per sixteen bytes and one per symbol inside the
    /// section: symbols below or above it add none.
    pub proof fn law_total_rows(&self)
        ensures
            self.all_rows().len() == self.byte_rows() + count_below(
                self.syms(),
                self.base() + self.bytes().len(),
            ) - count_below(self.syms(), self.base()),
    {
        lemma_rows_len(self.base(), self.bytes(), self.syms(), self.byte_rows());
    }

    /// Builds the page index. Materialises no row.
    #[verifier::rlimit(60)]
    pub fn new(data: DataSectionBytes, symbols: Arc<SymbolMap>, max_pages: usize) -> (r: PagedHex)
        requires
            data.fits(),
            rows_for(data.bytes@.len() as int) + count_below(
                symbols@,
                data.base + data.bytes@.len(),
            ) - count_below(symbols@, data.base as int) <= u32::MAX,
        ensures
            r.wf(),
            r.base() == data.base,
            r.bytes() == data.bytes@,
            r.syms() == symbols@,
            r.max() == max_pages,
            r.order() == Seq::<u32>::empty(),
    {
        proof {
            lemma_count_below_monotonic(
                symbols@,
                data.base as int,
                data.base + data.bytes@.len(),
            );
        }
        let n: u32 = data.row_count() as u32;
        let n_pages: u32 = if n == 0 {
            1
        } else if n % PAGE_BYTE_ROWS == 0 {
            n / PAGE_BYTE_ROWS
        } else {
            n / PAGE_BYTE_ROWS + 1
        };
        let ghost base = data.base as int;
        let ghost bytes = data.bytes@;
        let ghost syms = symbols@;
        let below_base = symbols.below(data.base);
        let mut page_starts: Vec<u32> = Vec::new();
        let mut p: u32 = 0;
        while p < n_pages
            invariant
                data.fits(),
                base == data.base,
                bytes == data.bytes@,
                syms == symbols@,
                n == rows_for(bytes.len() as int),
                n + count_below(syms, base + bytes.len()) - below_base <= u32::MAX,
                n_pages == pages_for(n as int),
                below_base == count_below(syms, base),
                p <= n_pages,
                page_starts@.len() == p,
                forall|i: int|
                    0 <= i < p ==> #[trigger] page_starts@[i] == row_position(
                        base,
                        bytes,
                        syms,
                        lesser(1024 * i, n as int),
                    ),
            decreases n_pages - p,
        {
            let first: u32 = p * PAGE_BYTE_ROWS;
            let below = symbols.below(data.row_addr(first as usize));
            proof {
                lemma_rows_len(base, bytes, syms, first as int);
                lemma_count_below_monotonic(syms, base, base + 16 * first);
                lemma_count_below_monotonic(syms, base + 16 * first, base + bytes.len());
            }
            page_starts.push(first + (below - below_base) as u32);
            p += 1;
        }
        let below_end = symbols.below(data.base + data.bytes.len() as u64);
        proof {
            lemma_rows_len(base, bytes, syms, n as int);
            lemma_count_below_monotonic(syms, base, base + bytes.len());
        }
        page_starts.push(n + (below_end - below_base) as u32);
        PagedHex {
            data,
            symbols,
            n_byte_rows: n,
            n_pages,
            page_starts,
            cache: PageCache::new(max_pages),
        }
    }

    /// Number of rows.
    pub fn total_rows(&self) -> (r: u32)
        requires
            self.wf(),
        ensures
            r == self.all_rows().len(),
    {
        proof {
            self.law_page_starts(self.n_pages as int, self.n_pages as int);
        }
        self.page_starts[self.n_pages as usize]
    }

    /// Number of pages.
    pub fn n_pages(&self) -> (r: u32)
        requires
            self.wf(),
        ensures
            r == pages_for(self.byte_rows()),
    {
        self.n_pages
    }

    /// The first row of page `p`, or the row count for `p == n_pages()`.
    pub fn page_start(&self, p: u32) -> (r: u32)
        requires
            self.wf(),
            p <= pages_for(self.byte_rows()),
        ensures
            r == self.start_of(p as int),
    {
        self.page_starts[p as usize]
    }

    /// Whether page `p` is materialised.
    pub fn is_cached(&self, p: u32) -> (r: bool)
        requires
            self.wf(),
        ensures
            r == self.order().contains(p),
    {
        self.cache.is_cached(p)
    }

    proof fn lemma_page(&self, p: int, page: Seq<HexRow>)
        requires
            self.wf(),
            0 <= p,
            hex_views(page) == self.page_rows(p),
        ensures
            self.start_of(p) + page.len() == self.start_of(p + 1),
            self.start_of(p + 1) <= self.all_rows().len() <= u32::MAX,
            forall|off: int|
                0 <= off < page.len() ==> (#[trigger] page[off])@ == self.all_rows()[self.start_of(
                    p,
                ) + off],
    {
        self.law_page_starts(p, p + 1);
        self.law_page_starts(0, self.n_pages as int);
        assert(self.page_starts@[self.n_pages as int] == self.start_of(self.n_pages as int));
        assert(hex_views(page).len() == page.len());
        assert forall|off: int| 0 <= off < page.len() implies (#[trigger] page[off])@
            == self.all_rows()[self.start_of(p) + off] by {
            assert(hex_views(page)[off] == page[off]@);
        }
    }

    proof fn lemma_bounds(&self)
        requires
            self.wf(),
        ensures
            page_bounds(self.page_starts@),
            self.page_starts@.last() == self.all_rows().len(),
    {
        let starts = self.page_starts@;
        self.law_page_starts(0, self.n_pages as int);
        assert forall|i: int, j: int| 0 <= i <= j < starts.len() implies #[trigger] starts[i]
            <= #[trigger] starts[j] by {
            self.law_page_starts(i, j);
        }
    }

    /// The page that holds row `idx`; `None` past the end.
    pub fn page_of(&self, idx: u32) -> (r: Option<u32>)
        requires
            self.wf(),
        ensures
            match r {
                Some(p) => p == self.page_with(idx as int) && self.page_holds(p as int, idx as int)
                    && idx < self.all_rows().len(),
                None => idx >= self.all_rows().len(),
            },
    {
        proof {
            self.lemma_bounds();
        }
        if idx >= self.total_rows() {
            return None;
        }
        let p: usize = page_holding(&self.page_starts, idx);
        proof {
            assert(self.page_holds(p as int, idx as int));
            self.law_page_is_unique(p as int, idx as int);
        }
        Some(p as u32)
    }

    /// The rows of page `p`, built from the section's bytes and symbols.
    fn build_page(&self, p: u32) -> (rows: Vec<HexRow>)
        requires
            self.wf(),
        ensures
            hex_views(rows@) == self.page_rows(p as int),
    {
        let n: u64 = self.n_byte_rows as u64;
        let first: u64 = if (p as u64) * 1024 < n {
            (p as u64) * 1024
        } else {
            n
        };
        let last: u64 = if (p as u64 + 1) * 1024 < n {
            (p as u64 + 1) * 1024
        } else {
            n
        };
        let ghost a = self.first_byte_row(p as int);
        let ghost b = self.first_byte_row(p + 1);
        if first >= last {
            let rows: Vec<HexRow> = Vec::new();
            assert(hex_views(rows@) =~= self.page_rows(p as int));
            return rows;
        }
        let len: usize = self.data.bytes.len();
        let start: usize = (first * 16) as usize;
        let end: usize = if last * 16 < len as u64 {
            (last * 16) as usize
        } else {
            len
        };
        let window = DataSectionBytes {
            base: self.data.base + start as u64,
            bytes: Arc::new(copy_bytes(&self.data.bytes, start, end)),
            kind: self.data.kind,
        };
        let rows = build_hex_rows(&window, &self.symbols);
        proof {
            let bytes = self.bytes();
            let syms = self.syms();
            assert(window.bytes@ =~= window_bytes(bytes, a, b));
            assert(rows_for(window.bytes@.len() as int) == b - a);
            lemma_window_rows(self.base(), bytes, syms, a, b, b - a);
            lemma_rows_prefix(self.base(), bytes, syms, a, b);
            lemma_rows_prefix(self.base(), bytes, syms, b, self.byte_rows());
            let whole = self.all_rows();
            let upto = rows_upto(self.base(), bytes, syms, b);
            assert(whole.subrange(0, upto.len() as int) == upto);
            assert(self.page_rows(p as int) =~= upto.subrange(self.start_of(p as int), upto.len() as int));
            assert(upto.subrange(self.start_of(p as int), upto.len() as int) =~= hex_views(rows@));
        }
        rows
    }

    /// The rows of page `p`, from the cache or built now. Counts as a use of
    /// the page.
    pub fn ensure_page_built(&mut self, p: u32) -> (rows: Arc<Vec<HexRow>>)
        requires
            old(self).wf(),
        ensures
            final(self).used(old(self), p as int),
            hex_views(rows@) == old(self).page_rows(p as int),
    {
        let ghost before = *self;
        let cached = self.cache.get(p);
        match cached {
            Some(rows) => {
                assert(self.same_section(&before));
                return rows;
            },
            None => {},
        }
        let rows = Arc::new(self.build_page(p));
        let kept = Arc::clone(&rows);
        self.cache.insert(p, kept);
        assert(self.same_section(&before));
        rows
    }

    /// The page that holds row `idx`, built if need be, and the row's place in
    /// it; `None` past the end.
    pub fn page_for_row_blocking(&mut self, idx: u32) -> (r: Option<(Arc<Vec<HexRow>>, usize)>)
        requires
            old(self).wf(),
        ensures
            match r {
                Some((page, off)) => {
                    let p = old(self).page_with(idx as int);
                    &&& idx < old(self).all_rows().len()
                    &&& old(self).page_holds(p, idx as int)
                    &&& hex_views(page@) == old(self).page_rows(p)
                    &&& off == idx - old(self).start_of(p)
                    &&& off < page@.len()
                    &&& page@[off as int]@ == old(self).all_rows()[idx as int]
                    &&& final(self).used(old(self), p)
                },
                None => idx >= old(self).all_rows().len() && *final(self) == *old(self),
            },
    {
        let p: u32 = match self.page_of(idx) {
            Some(p) => p,
            None => {
                return None;
            },
        };
        let start: u32 = self.page_starts[p as usize];
        let page = self.ensure_page_built(p);
        proof {
            old(self).lemma_page(p as int, page@);
        }
        Some((page, (idx - start) as usize))
    }

    /// As [`Self::page_for_row_blocking`], but `None` where the page is not
    /// cached: never builds one.
    pub fn page_for_row_if_cached(&mut self, idx: u32) -> (r: Option<(Arc<Vec<HexRow>>, usize)>)
        requires
            old(self).wf(),
        ensures
            match r {
                Some((page, off)) => {
                    let p = old(self).page_with(idx as int);
                    &&& idx < old(self).all_rows().len()
                    &&& old(self).page_holds(p, idx as int)
                    &&& old(self).order().contains(p as u32)
                    &&& hex_views(page@) == old(self).page_rows(p)
                    &&& off == idx - old(self).start_of(p)
                    &&& off < page@.len()
                    &&& page@[off as int]@ == old(self).all_rows()[idx as int]
                    &&& final(self).used(old(self), p)
                },
                None => {
                    &&& idx >= old(self).all_rows().len() || !old(self).order().contains(
                        old(self).page_with(idx as int) as u32,
                    )
                    &&& final(self).wf()
                    &&& final(self).same_section(old(self))
                    &&& final(self).order() == old(self).order()
                },
            },
    {
        let p: u32 = match self.page_of(idx) {
            Some(p) => p,
            None => {
                return None;
            },
        };
        let start: u32 = self.page_starts[p as usize];
        let found = self.cache.get(p);
        assert(self.same_section(old(self)));
        match found {
            Some(page) => {
                proof {
                    old(self).lemma_page(p as int, page@);
                }
                Some((page, (idx - start) as usize))
            },
            None => None,
        }
    }

    /// Address of the byte row at row `idx`; `None` for a header and past the
    /// end. Builds the page if need be.
    pub fn addr_at(&mut self, idx: u32) -> (r: Option<u64>)
        requires
            old(self).wf(),
        ensures
            match r {
                Some(a) => old(self).is_byte_row(idx as int) && old(
                    self,
                ).all_rows()[idx as int]->Bytes_address == a,
                None => !old(self).is_byte_row(idx as int),
            },
            idx < old(self).all_rows().len() ==> final(self).used(
                old(self),
                old(self).page_with(idx as int),
            ),
            idx >= old(self).all_rows().len() ==> *final(self) == *old(self),
    {
        match self.page_for_row_blocking(idx) {
            Some((page, off)) => match &page[off] {
                HexRow::Bytes { address, bytes } => Some(*address),
                HexRow::SymbolHeader { address, name } => None,
            },
            None => None,
        }
    }

    /// As [`Self::addr_at`], but `None` where the page is not cached.
    pub fn addr_at_if_cached(&mut self, idx: u32) -> (r: Option<u64>)
        requires
            old(self).wf(),
        ensures
            ({
                let p = old(self).page_with(idx as int);
                let cached = idx < old(self).all_rows().len() && old(self).order().contains(
                    p as u32,
                );
                &&& match r {
                    Some(a) => cached && old(self).is_byte_row(idx as int) && old(
                        self,
                    ).all_rows()[idx as int]->Bytes_address == a,
                    None => !cached || !old(self).is_byte_row(idx as int),
                }
                &&& cached ==> final(self).used(old(self), p)
                &&& !cached ==> final(self).wf() && final(self).same_section(old(self))
                    && final(self).order() == old(self).order()
            }),
    {
        match self.page_for_row_if_cached(idx) {
            Some((page, off)) => match &page[off] {
                HexRow::Bytes { address, bytes } => Some(*address),
                HexRow::SymbolHeader { address, name } => None,
            },
            None => None,
        }
    }

    /// The first byte row at or after `idx`; `None` past the end. Uses the
    /// pages from that of `idx` up to that of the result.
    #[verifier::rlimit(60)]
    pub fn next_byte_row_at_or_after(&mut self, idx: u32) -> (r: Option<u32>)
        requires
            old(self).wf(),
        ensures
            match r {
                Some(k) => {
                    &&& idx <= k
                    &&& old(self).is_byte_row(k as int)
                    &&& forall|j: int| idx <= j < k ==> !old(self).is_byte_row(j)
                    &&& final(self).wf()
                    &&& final(self).same_section(old(self))
                    &&& final(self).order() == after_uses_up(
                        old(self).order(),
                        old(self).page_with(idx as int),
                        old(self).page_with(k as int) + 1,
                        old(self).max(),
                    )
                },
                None => idx >= old(self).all_rows().len() && *final(self) == *old(self),
            },
    {
        let ghost before = *self;
        let first: u32 = match self.page_of(idx) {
            Some(p) => p,
            None => {
                return None;
            },
        };
        let mut p: u32 = first;
        loop
            invariant
                before.wf(),
                before == *old(self),
                self.wf(),
                self.same_section(&before),
                first <= p < self.n_pages,
                idx < before.all_rows().len(),
                first == before.page_with(idx as int),
                self.order() == after_uses_up(before.order(), first as int, p as int, before.max()),
                p == first ==> before.page_holds(p as int, idx as int),
                p > first ==> idx <= before.start_of(p as int),
                forall|j: int| idx <= j < before.start_of(p as int) ==> !before.is_byte_row(j),
            decreases self.n_pages - p,
        {
            let base: u32 = self.page_starts[p as usize];
            let page = self.ensure_page_built(p);
            proof {
                before.lemma_page(p as int, page@);
            }
            let mut off: usize = if idx > base {
                (idx - base) as usize
            } else {
                0
            };
            while off < page.len()
                invariant
                    before.wf(),
                    before == *old(self),
                    self.wf(),
                    self.same_section(&before),
                    p < self.n_pages,
                    first == before.page_with(idx as int),
                    self.order() == after_uses_up(
                        before.order(),
                        first as int,
                        p + 1,
                        before.max(),
                    ),
                    base == before.start_of(p as int),
                    idx <= base + off,
                    base + page@.len() == before.start_of(p + 1),
                    before.start_of(p + 1) <= before.all_rows().len() <= u32::MAX,
                    forall|off: int|
                        0 <= off < page@.len() ==> (#[trigger] page@[off])@
                            == before.all_rows()[before.start_of(p as int) + off],
                    forall|j: int| idx <= j < base + off ==> !before.is_byte_row(j),
                decreases page@.len() - off,
            {
                match &page[off] {
                    HexRow::Bytes { address, bytes } => {
                        proof {
                            before.law_page_is_unique(p as int, base + off);
                        }
                        return Some(base + off as u32);
                    },
                    HexRow::SymbolHeader { address, name } => {},
                }
                off += 1;
            }
            proof {
                if before.byte_rows() == 0 {
                    before.law_page_starts(0, 0);
                }
                before.law_pages_end_with_bytes(p as int);
                before.law_page_starts(p as int, p + 1);
                assert(!before.is_byte_row(before.start_of(p + 1) - 1));
            }
            p += 1;
            if p >= self.n_pages {
                return None;
            }
        }
    }

    /// The last byte row at or before `idx`; `None` past the end and where only
    /// headers come before. Uses the pages from that of `idx` down to that of
    /// the result, or to the first.
    #[verifier::rlimit(60)]
    pub fn prev_byte_row_at_or_before(&mut self, idx: u32) -> (r: Option<u32>)
        requires
            old(self).wf(),
        ensures
            match r {
                Some(k) => {
                    &&& idx < old(self).all_rows().len()
                    &&& k <= idx
                    &&& old(self).is_byte_row(k as int)
                    &&& forall|j: int| k < j <= idx ==> !old(self).is_byte_row(j)
                    &&& final(self).wf()
                    &&& final(self).same_section(old(self))
                    &&& final(self).order() == after_uses_down(
                        old(self).order(),
                        old(self).page_with(idx as int),
                        old(self).page_with(k as int),
                        old(self).max(),
                    )
                },
                None => {
                    &&& idx >= old(self).all_rows().len() ==> *final(self) == *old(self)
                    &&& idx < old(self).all_rows().len() ==> {
                        &&& forall|j: int| 0 <= j <= idx ==> !old(self).is_byte_row(j)
                        &&& final(self).wf()
                        &&& final(self).same_section(old(self))
                        &&& final(self).order() == after_uses_down(
                            old(self).order(),
                            old(self).page_with(idx as int),
                            0,
                            old(self).max(),
                        )
                    }
                },
            },
    {
        let ghost before = *self;
        let last: u32 = match self.page_of(idx) {
            Some(p) => p,
            None => {
                return None;
            },
        };
        let mut p: u32 = last;
        loop
            invariant
                before.wf(),
                before == *old(self),
                self.wf(),
                self.same_section(&before),
                p <= last < self.n_pages,
                idx < before.all_rows().len(),
                last == before.page_with(idx as int),
                before.start_of(p as int) <= idx,
                self.order() == after_uses_down(before.order(), last as int, p + 1, before.max()),
                forall|j: int| before.start_of(p + 1) <= j <= idx ==> !before.is_byte_row(j),
            decreases p,
        {
            let base: u32 = self.page_starts[p as usize];
            let page = self.ensure_page_built(p);
            proof {
                before.lemma_page(p as int, page@);
            }
            let within: usize = (idx - base) as usize;
            let mut off: usize = if within < page.len() {
                within + 1
            } else {
                page.len()
            };
            while off > 0
                invariant
                    before.wf(),
                    before == *old(self),
                    self.wf(),
                    self.same_section(&before),
                    p <= last < self.n_pages,
                    last == before.page_with(idx as int),
                    self.order() == after_uses_down(
                        before.order(),
                        last as int,
                        p as int,
                        before.max(),
                    ),
                    base == before.start_of(p as int),
                    off <= page@.len(),
                    base + off <= idx + 1,
                    idx < before.all_rows().len() <= u32::MAX,
                    base + page@.len() == before.start_of(p + 1),
                    before.start_of(p + 1) <= before.all_rows().len(),
                    forall|off: int|
                        0 <= off < page@.len() ==> (#[trigger] page@[off])@
                            == before.all_rows()[before.start_of(p as int) + off],
                    forall|j: int| base + off <= j <= idx ==> !before.is_byte_row(j),
                decreases off,
            {
                off -= 1;
                match &page[off] {
                    HexRow::Bytes { address, bytes } => {
                        proof {
                            before.law_page_is_unique(p as int, base + off);
                        }
                        return Some(base + off as u32);
                    },
                    HexRow::SymbolHeader { address, name } => {},
                }
            }
            if p == 0 {
                proof {
                    before.law_page_starts(0, 0);
                }
                return None;
            }
            proof {
                before.law_page_starts(p - 1, p as int);
            }
            p -= 1;
        }
    }

    /// The row of the byte row that contains `addr`; `None` outside the
    /// section.
    #[verifier::rlimit(60)]
    pub fn row_for_addr(&mut self, addr: u64) -> (r: Option<u32>)
        requires
            old(self).wf(),
        ensures
            match r {
                Some(k) => {
                    &&& old(self).base() <= addr < old(self).base() + old(self).bytes().len()
                    &&& k == byte_row_position(
                        old(self).base(),
                        old(self).bytes(),
                        old(self).syms(),
                        (addr - old(self).base()) / 16,
                    )
                    &&& k < old(self).all_rows().len()
                    &&& old(self).all_rows()[k as int] == byte_row(
                        old(self).base(),
                        old(self).bytes(),
                        (addr - old(self).base()) / 16,
                    )
                    &&& final(self).used(old(self), (addr - old(self).base()) / 16 / 1024)
                },
                None => !(old(self).base() <= addr < old(self).base() + old(self).bytes().len())
                    && *final(self) == *old(self),
            },
    {
        if addr < self.data.base {
            return None;
        }
        let off: u64 = addr - self.data.base;
        if off >= self.data.bytes.len() as u64 {
            return None;
        }
        let ghost before = *self;
        let ghost base = self.base();
        let ghost bytes = self.bytes();
        let ghost syms = self.syms();
        let row: u32 = (off / 16) as u32;
        let p: u32 = row / PAGE_BYTE_ROWS;
        let page = self.ensure_page_built(p);
        let target: u32 = row % PAGE_BYTE_ROWS;
        let start: u32 = self.page_starts[p as usize];
        let ghost first = 1024 * p;
        let mut seen: u32 = 0;
        let mut at: usize = 0;
        proof {
            before.lemma_page(p as int, page@);
            lemma_byte_row_at(base, bytes, syms, row as int, before.first_byte_row(p + 1));
            lemma_byte_row_at(base, bytes, syms, row as int, before.byte_rows());
            lemma_rows_prefix(base, bytes, syms, before.first_byte_row(p + 1), before.byte_rows());
        }
        while at < page.len()
            invariant
                before.wf(),
                before == *old(self),
                base == before.base(),
                bytes == before.bytes(),
                syms == before.syms(),
                self.used(&before, p as int),
                start == before.start_of(p as int),
                start == row_position(base, bytes, syms, first),
                first == 1024 * p,
                row == first + target,
                row < before.byte_rows(),
                p == row / 1024,
                row == (addr - base) / 16,
                base <= addr < base + bytes.len(),
                start + page@.len() == before.start_of(p + 1),
                before.start_of(p + 1) <= before.all_rows().len() <= u32::MAX,
                forall|off: int|
                    0 <= off < page@.len() ==> (#[trigger] page@[off])@
                        == before.all_rows()[before.start_of(p as int) + off],
                byte_row_position(base, bytes, syms, row as int) < before.start_of(p + 1),
                before.all_rows()[byte_row_position(base, bytes, syms, row as int)] == byte_row(
                    base,
                    bytes,
                    row as int,
                ),
                hex_views(page@) == before.page_rows(p as int),
                seen <= target,
                row_position(base, bytes, syms, first + seen) <= start + at <= byte_row_position(
                    base,
                    bytes,
                    syms,
                    first + seen,
                ),
            decreases page@.len() - at,
        {
            proof {
                lemma_byte_row_at(base, bytes, syms, first + seen, before.byte_rows());
            }
            match &page[at] {
                HexRow::Bytes { address, bytes: chunk } => {
                    if seen == target {
                        return Some(start + at as u32);
                    }
                    seen += 1;
                    proof {
                        lemma_byte_row_at(base, bytes, syms, first + seen, before.byte_rows());
                    }
                },
                HexRow::SymbolHeader { address, name } => {},
            }
            at += 1;
        }
        proof {
            lemma_rows_prefix(base, bytes, syms, first + seen, row as int);
            lemma_byte_row_at(base, bytes, syms, first + seen, row + 1);
            assert(false);
        }
        None
    }
}

} // verus!
