//! The byte search: which hits the result table shows, and in which order.

use crate::bin_search::{
    all_scans, atoms_from, bytes_of_scans, counts, data_scan, data_scanned, data_scans, row_of_hit,
    rows_held, rows_of_scan, rows_of_scans, scans_fit, sort_keys, text_scan, text_scans, Found, Hit,
    Scan, SearchOutcome, SectionHits,
};
use crate::digits::{address_of, decimal, law_address_reads_back, prefixed_hex};
use crate::order::{index_before, is_sorted_order, text_before, Rank};
use crate::sections::{Architecture, DataSectionBytes, TextSectionBytes};
use crate::xref::SectionKey;
use vstd::prelude::*;

verus! {

// ---- what is searched ------------------------------------------------------

/// What a search is given: the code and data sections of a bundle, the
/// architectures its pattern was compiled for, and the hits of every section.
pub ghost struct Search {
    pub text: Seq<(SectionKey, TextSectionBytes)>,
    pub data: Seq<(SectionKey, DataSectionBytes)>,
    pub compiled: Seq<Option<Architecture>>,
    pub code_only: bool,
    pub text_hits: Seq<SectionHits>,
    pub data_hits: Seq<SectionHits>,
}

impl Search {
    /// Every section has its hits, each at an address, and the machine can count
    /// the sections and their bytes.
    pub open spec fn ordinary(self) -> bool {
        &&& self.text_hits.len() == self.text.len()
        &&& self.data_hits.len() == self.data.len()
        &&& self.text.len() + self.data.len() <= usize::MAX
        &&& text_bytes(self.text, self.text.len() as int) + data_bytes(
            self.data,
            self.data.len() as int,
        ) <= usize::MAX
        &&& forall|x: int, q: int|
            0 <= x < self.text.len() && 0 <= q < self.text_hits[x].hits@.len() ==> self.text[x].1.base
                + (#[trigger] self.text_hits[x].hits@[q]).start <= u64::MAX
        &&& forall|x: int, q: int|
            0 <= x < self.data.len() && 0 <= q < self.data_hits[x].hits@.len() ==> self.data[x].1.base
                + (#[trigger] self.data_hits[x].hits@[q]).start <= u64::MAX
    }

    /// Code section `x` is searched: the pattern was compiled for all
    /// architectures or for that of the section.
    pub open spec fn searches_code(self, x: int) -> bool {
        &&& 0 <= x < self.text.len()
        &&& exists|i: int|
            0 <= i < self.compiled.len() && (#[trigger] self.compiled[i] is None || self.compiled[i]
                == Some(self.text[x].1.arch))
    }

    /// Data section `x` is searched: the search is not for code alone, and the
    /// section has bytes, a place in memory, and is neither zero-filled nor debug
    /// information.
    pub open spec fn searches_data(self, x: int) -> bool {
        &&& 0 <= x < self.data.len()
        &&& !self.code_only
        &&& self.data[x].1.base != 0
        &&& self.data[x].1.bytes@.len() > 0
        &&& self.data[x].1.kind is Text || self.data[x].1.kind is Data || self.data[x].1.kind is Rodata
            || self.data[x].1.kind is Other
    }

    /// A place counts as a match. In code whose instructions are known it has to be
    /// the start of one.
    pub open spec fn matches_at(self, p: Place) -> bool {
        if p.code {
            &&& self.searches_code(p.section)
            &&& 0 <= p.hit < self.text_hits[p.section].hits@.len()
            &&& self.text[p.section].1.precomputed matches Some(insns) ==> exists|i: int|
                0 <= i < insns@.len() && (#[trigger] insns@[i]).address == self.text[p.section].1.base
                    + self.text_hits[p.section].hits@[p.hit].start
        } else {
            &&& self.searches_data(p.section)
            &&& 0 <= p.hit < self.data_hits[p.section].hits@.len()
        }
    }

    /// The hit at a place.
    pub open spec fn hit(self, p: Place) -> Hit {
        if p.code {
            self.text_hits[p.section].hits@[p.hit]
        } else {
            self.data_hits[p.section].hits@[p.hit]
        }
    }

    /// The section of a place.
    pub open spec fn key(self, p: Place) -> (Seq<u8>, Seq<char>) {
        if p.code {
            self.text[p.section].0@
        } else {
            self.data[p.section].0@
        }
    }

    /// The label of the artifact of a place.
    pub open spec fn label(self, p: Place) -> Seq<char> {
        if p.code {
            self.text_hits[p.section].label@
        } else {
            self.data_hits[p.section].label@
        }
    }

    /// The address of a place.
    pub open spec fn address(self, p: Place) -> int {
        self.hit(p).start + if p.code {
            self.text[p.section].1.base as int
        } else {
            self.data[p.section].1.base as int
        }
    }

    /// Row `k` of the result stands for a place: it names its section and its
    /// address, shows its bytes, and leads back to the section.
    pub open spec fn shown(self, r: SearchOutcome, k: int, p: Place) -> bool {
        let m = r.result.matches@[k];
        &&& m.section@ == self.label(p) + " · "@ + self.key(p).1
        &&& address_of(m.address@) == Some(self.address(p) as u64)
        &&& m.address@.len() >= 2
        &&& m.address@[0] == '0'
        &&& m.address@[1] == 'x'
        &&& m.length == self.hit(p).length
        &&& m.preview@ == self.hit(p).preview@
        &&& r.sources@[k]@ == self.key(p)
    }

    /// All sections that are searched.
    pub open spec fn scans(self) -> Seq<Scan> {
        all_scans(
            self.text,
            self.data,
            self.compiled,
            self.code_only,
            self.text_hits,
            self.data_hits,
        )
    }
}

/// One hit: in a code or a data section, which one, and which of its hits.
pub ghost struct Place {
    pub code: bool,
    pub section: int,
    pub hit: int,
}

/// The bytes of the first `n` code sections.
pub open spec fn text_bytes(text: Seq<(SectionKey, TextSectionBytes)>, n: int) -> int
    decreases n,
{
    if n <= 0 {
        0
    } else {
        text_bytes(text, n - 1) + text[n - 1].1.bytes@.len()
    }
}

/// The bytes of the first `n` data sections.
pub open spec fn data_bytes(data: Seq<(SectionKey, DataSectionBytes)>, n: int) -> int
    decreases n,
{
    if n <= 0 {
        0
    } else {
        data_bytes(data, n - 1) + data[n - 1].1.bytes@.len()
    }
}

/// The result shows every match once and nothing else: `places` tells what each
/// row stands for.
pub open spec fn rows_are(s: Search, r: SearchOutcome, places: Seq<Place>) -> bool {
    &&& places.len() == r.result.matches@.len()
    &&& places.no_duplicates()
    &&& forall|k: int|
        0 <= k < places.len() ==> s.matches_at(#[trigger] places[k]) && s.shown(r, k, places[k])
    &&& forall|p: Place| #[trigger] s.matches_at(p) ==> places.contains(p)
}

// ---- proofs ----------------------------------------------------------------

proof fn lemma_atoms(compiled: Seq<Option<Architecture>>, arch: Architecture, i: int)
    requires
        0 <= i,
    ensures
        atoms_from(compiled, arch, i) is Some <==> exists|j: int|
            i <= j < compiled.len() && (#[trigger] compiled[j] is None || compiled[j] == Some(arch)),
    decreases compiled.len() - i,
{
    if i < compiled.len() {
        if !(compiled[i] is None || compiled[i] == Some(arch)) {
            lemma_atoms(compiled, arch, i + 1);
        }
    }
}

/// The places of the first `n` hits of one scan that count.
spec fn scan_places(s: Scan, code: bool, x: int, n: int) -> Seq<Place>
    decreases n,
{
    if n <= 0 {
        Seq::empty()
    } else if counts(s.insns, s.base + s.hits[n - 1].start) {
        scan_places(s, code, x, n - 1).push(Place { code, section: x, hit: n - 1 })
    } else {
        scan_places(s, code, x, n - 1)
    }
}

proof fn lemma_scan_places(s: Scan, code: bool, x: int, n: int)
    requires
        0 <= n <= s.hits.len(),
    ensures
        ({
            let places = scan_places(s, code, x, n);
            let rows = rows_of_scan(s, n);
            &&& places.len() == rows.len()
            &&& places.no_duplicates()
            &&& forall|k: int|
                0 <= k < places.len() ==> {
                    let p = #[trigger] places[k];
                    &&& p.code == code
                    &&& p.section == x
                    &&& 0 <= p.hit < n
                    &&& counts(s.insns, s.base + s.hits[p.hit].start)
                    &&& rows[k] == row_of_hit(s, s.hits[p.hit])
                }
            &&& forall|q: int|
                0 <= q < n && counts(s.insns, s.base + (#[trigger] s.hits[q]).start)
                    ==> places.contains(Place { code, section: x, hit: q })
        }),
    decreases n,
{
    if n > 0 {
        lemma_scan_places(s, code, x, n - 1);
        let before = scan_places(s, code, x, n - 1);
        let places = scan_places(s, code, x, n);
        let rows = rows_of_scan(s, n);
        if counts(s.insns, s.base + s.hits[n - 1].start) {
            let last = Place { code, section: x, hit: n - 1 };
            assert(places[before.len() as int] == last);
            assert forall|k: int| 0 <= k < places.len() implies {
                let p = #[trigger] places[k];
                &&& p.code == code
                &&& p.section == x
                &&& 0 <= p.hit < n
                &&& counts(s.insns, s.base + s.hits[p.hit].start)
                &&& rows[k] == row_of_hit(s, s.hits[p.hit])
            } by {
                if k < before.len() {
                    assert(places[k] == before[k]);
                }
            }
            assert(places.no_duplicates()) by {
                assert forall|a: int, b: int|
                    0 <= a < places.len() && 0 <= b < places.len() && a != b implies places[a]
                    != places[b] by {
                    if a < before.len() {
                        assert(before[a].hit < n - 1);
                    }
                    if b < before.len() {
                        assert(before[b].hit < n - 1);
                    }
                }
            }
            assert forall|q: int|
                0 <= q < n && counts(s.insns, s.base + (#[trigger] s.hits[q]).start) implies
                places.contains(Place { code, section: x, hit: q }) by {
                let p = Place { code, section: x, hit: q };
                if q < n - 1 {
                    assert(before.contains(p));
                    let k = choose|k: int| 0 <= k < before.len() && before[k] == p;
                    assert(places[k] == p);
                }
            }
        }
    }
}

/// What the first `n` code sections contribute.
spec fn text_places(s: Search, n: int) -> Seq<Place>
    decreases n,
{
    if n <= 0 {
        Seq::empty()
    } else if atoms_from(s.compiled, s.text[n - 1].1.arch, 0) is Some {
        text_places(s, n - 1) + scan_places(
            text_scan(s.text[n - 1].0, s.text[n - 1].1, s.text_hits[n - 1]),
            true,
            n - 1,
            s.text_hits[n - 1].hits@.len() as int,
        )
    } else {
        text_places(s, n - 1)
    }
}

/// What the first `n` data sections contribute.
spec fn data_places(s: Search, n: int) -> Seq<Place>
    decreases n,
{
    if n <= 0 {
        Seq::empty()
    } else if data_scanned(s.data[n - 1].1, s.code_only) {
        data_places(s, n - 1) + scan_places(
            data_scan(s.data[n - 1].0, s.data[n - 1].1, s.data_hits[n - 1]),
            false,
            n - 1,
            s.data_hits[n - 1].hits@.len() as int,
        )
    } else {
        data_places(s, n - 1)
    }
}

/// The row of a place.
spec fn found(s: Search, p: Place) -> Found {
    Found {
        section: s.label(p) + " · "@ + s.key(p).1,
        address: prefixed_hex(s.address(p)),
        length: s.hit(p).length,
        preview: s.hit(p).preview@,
        source: s.key(p),
    }
}

/// `places` lists, without repetition, the matches in code or data sections below
/// `n`, and `rows` are their rows.
spec fn covers(s: Search, code: bool, n: int, places: Seq<Place>, rows: Seq<Found>) -> bool {
    &&& places.len() == rows.len()
    &&& places.no_duplicates()
    &&& forall|k: int|
        0 <= k < places.len() ==> {
            let p = #[trigger] places[k];
            &&& p.code == code
            &&& p.section < n
            &&& s.matches_at(p)
            &&& rows[k] == found(s, p)
        }
    &&& forall|p: Place| #[trigger]
        s.matches_at(p) && p.code == code && p.section < n ==> places.contains(p)
}

proof fn lemma_covers_more(
    s: Search,
    code: bool,
    n: int,
    places: Seq<Place>,
    rows: Seq<Found>,
    scan: Scan,
)
    requires
        0 < n,
        covers(s, code, n - 1, places, rows),
        code ==> n <= s.text.len() && scan == text_scan(
            s.text[n - 1].0,
            s.text[n - 1].1,
            s.text_hits[n - 1],
        ) && s.searches_code(n - 1),
        !code ==> n <= s.data.len() && scan == data_scan(
            s.data[n - 1].0,
            s.data[n - 1].1,
            s.data_hits[n - 1],
        ) && s.searches_data(n - 1),
    ensures
        covers(
            s,
            code,
            n,
            places + scan_places(scan, code, n - 1, scan.hits.len() as int),
            rows + rows_of_scan(scan, scan.hits.len() as int),
        ),
{
    let m = scan.hits.len() as int;
    lemma_scan_places(scan, code, n - 1, m);
    let more = scan_places(scan, code, n - 1, m);
    let new_rows = rows_of_scan(scan, m);
    let all = places + more;
    let all_rows = rows + new_rows;
    assert forall|p: Place| p.code == code && p.section == n - 1 && 0 <= p.hit < m implies
        #[trigger] s.matches_at(p) == counts(scan.insns, scan.base + scan.hits[p.hit].start) by {
        if code {
            assert(s.text[p.section].1.base + s.text_hits[p.section].hits@[p.hit].start == scan.base
                + scan.hits[p.hit].start);
        }
    }
    assert forall|k: int| 0 <= k < all.len() implies {
        let p = #[trigger] all[k];
        &&& p.code == code
        &&& p.section < n
        &&& s.matches_at(p)
        &&& all_rows[k] == found(s, p)
    } by {
        if k < places.len() {
            assert(all[k] == places[k]);
        } else {
            assert(all[k] == more[k - places.len()]);
            let p = all[k];
            assert(all_rows[k] == row_of_hit(scan, scan.hits[p.hit]));
        }
    }
    assert(all.no_duplicates()) by {
        assert forall|a: int, b: int|
            0 <= a < all.len() && 0 <= b < all.len() && a != b implies all[a] != all[b] by {
            if a < places.len() {
                assert(places[a].section < n - 1);
            } else {
                assert(more[a - places.len()].section == n - 1);
            }
            if b < places.len() {
                assert(places[b].section < n - 1);
            } else {
                assert(more[b - places.len()].section == n - 1);
            }
        }
    }
    assert forall|p: Place| #[trigger]
        s.matches_at(p) && p.code == code && p.section < n implies all.contains(p) by {
        if p.section < n - 1 {
            assert(places.contains(p));
            let k = choose|k: int| 0 <= k < places.len() && places[k] == p;
            assert(all[k] == p);
        } else {
            assert(p.section == n - 1);
            let q = p.hit;
            assert(scan.hits[q] == s.hit(p));
            assert(more.contains(Place { code, section: n - 1, hit: q }));
            assert(p == Place { code, section: n - 1, hit: q });
            let k = choose|k: int| 0 <= k < more.len() && more[k] == p;
            assert(all[places.len() + k] == p);
        }
    }
}

proof fn lemma_rows_push(scans: Seq<Scan>, s: Scan, n: int)
    requires
        0 <= n <= scans.len(),
    ensures
        rows_of_scans(scans.push(s), n) == rows_of_scans(scans, n),
    decreases n,
{
    if n > 0 {
        lemma_rows_push(scans, s, n - 1);
    }
}

proof fn lemma_rows_concat(a: Seq<Scan>, b: Seq<Scan>, n: int)
    requires
        0 <= n <= b.len(),
    ensures
        rows_of_scans(a + b, a.len() + n) == rows_of_scans(a, a.len() as int) + rows_of_scans(b, n),
        bytes_of_scans(a + b, a.len() + n) == bytes_of_scans(a, a.len() as int) + bytes_of_scans(
            b,
            n,
        ),
    decreases n,
{
    if n > 0 {
        lemma_rows_concat(a, b, n - 1);
        assert((a + b)[a.len() + n - 1] == b[n - 1]);
        assert(rows_of_scans(a + b, a.len() + n) =~= rows_of_scans(a, a.len() as int)
            + rows_of_scans(b, n));
    } else {
        lemma_rows_first(a, b, a.len() as int);
        assert(rows_of_scans(b, 0) =~= Seq::empty());
        assert(rows_of_scans(a + b, a.len() as int) =~= rows_of_scans(a, a.len() as int)
            + rows_of_scans(b, 0));
    }
}

proof fn lemma_rows_first(a: Seq<Scan>, b: Seq<Scan>, n: int)
    requires
        0 <= n <= a.len(),
    ensures
        rows_of_scans(a + b, n) == rows_of_scans(a, n),
        bytes_of_scans(a + b, n) == bytes_of_scans(a, n),
    decreases n,
{
    if n > 0 {
        lemma_rows_first(a, b, n - 1);
        assert((a + b)[n - 1] == a[n - 1]);
    }
}

proof fn lemma_text(s: Search, n: int)
    requires
        s.ordinary(),
        0 <= n <= s.text.len(),
    ensures
        ({
            let scans = text_scans(s.text, s.compiled, s.text_hits, n);
            covers(s, true, n, text_places(s, n), rows_of_scans(scans, scans.len() as int))
        }),
    decreases n,
{
    let scans = text_scans(s.text, s.compiled, s.text_hits, n);
    if n > 0 {
        lemma_text(s, n - 1);
        lemma_atoms(s.compiled, s.text[n - 1].1.arch, 0);
        let before = text_scans(s.text, s.compiled, s.text_hits, n - 1);
        let rows = rows_of_scans(before, before.len() as int);
        if atoms_from(s.compiled, s.text[n - 1].1.arch, 0) is Some {
            let scan = text_scan(s.text[n - 1].0, s.text[n - 1].1, s.text_hits[n - 1]);
            lemma_covers_more(s, true, n, text_places(s, n - 1), rows, scan);
            lemma_rows_push(before, scan, before.len() as int);
        } else {
            assert(!s.searches_code(n - 1));
            assert forall|p: Place| #[trigger]
                s.matches_at(p) && p.code && p.section < n implies text_places(s, n).contains(p) by {
                assert(p.section != n - 1);
            }
        }
    }
}

proof fn lemma_data(s: Search, n: int)
    requires
        s.ordinary(),
        0 <= n <= s.data.len(),
    ensures
        ({
            let scans = data_scans(s.data, s.code_only, s.data_hits, n);
            covers(s, false, n, data_places(s, n), rows_of_scans(scans, scans.len() as int))
        }),
    decreases n,
{
    let scans = data_scans(s.data, s.code_only, s.data_hits, n);
    if n > 0 {
        lemma_data(s, n - 1);
        let before = data_scans(s.data, s.code_only, s.data_hits, n - 1);
        let rows = rows_of_scans(before, before.len() as int);
        if data_scanned(s.data[n - 1].1, s.code_only) {
            let scan = data_scan(s.data[n - 1].0, s.data[n - 1].1, s.data_hits[n - 1]);
            lemma_covers_more(s, false, n, data_places(s, n - 1), rows, scan);
            lemma_rows_push(before, scan, before.len() as int);
        } else {
            assert(!s.searches_data(n - 1));
            assert forall|p: Place| #[trigger]
                s.matches_at(p) && !p.code && p.section < n implies data_places(s, n).contains(p) by {
                assert(p.section != n - 1);
            }
        }
    }
}

/// All matches with their rows, code first.
proof fn lemma_all(s: Search)
    requires
        s.ordinary(),
    ensures
        ({
            let rows = rows_of_scans(s.scans(), s.scans().len() as int);
            let all = text_places(s, s.text.len() as int) + data_places(s, s.data.len() as int);
            &&& all.len() == rows.len()
            &&& all.no_duplicates()
            &&& forall|k: int|
                0 <= k < all.len() ==> s.matches_at(#[trigger] all[k]) && rows[k] == found(s, all[k])
            &&& forall|p: Place| #[trigger] s.matches_at(p) ==> all.contains(p)
        }),
{
    let n = s.text.len() as int;
    let m = s.data.len() as int;
    lemma_text(s, n);
    lemma_data(s, m);
    let ts = text_scans(s.text, s.compiled, s.text_hits, n);
    let ds = data_scans(s.data, s.code_only, s.data_hits, m);
    lemma_rows_concat(ts, ds, ds.len() as int);
    let tp = text_places(s, n);
    let dp = data_places(s, m);
    let all = tp + dp;
    assert forall|k: int| 0 <= k < all.len() implies s.matches_at(#[trigger] all[k])
        && rows_of_scans(s.scans(), s.scans().len() as int)[k] == found(s, all[k]) by {
        if k < tp.len() {
            assert(all[k] == tp[k]);
        } else {
            assert(all[k] == dp[k - tp.len()]);
        }
    }
    assert(all.no_duplicates()) by {
        assert forall|a: int, b: int|
            0 <= a < all.len() && 0 <= b < all.len() && a != b implies all[a] != all[b] by {
            if a < tp.len() {
                assert(tp[a].code);
            } else {
                assert(!dp[a - tp.len()].code);
            }
            if b < tp.len() {
                assert(tp[b].code);
            } else {
                assert(!dp[b - tp.len()].code);
            }
        }
    }
    assert forall|p: Place| #[trigger] s.matches_at(p) implies all.contains(p) by {
        if p.code {
            assert(tp.contains(p));
            let k = choose|k: int| 0 <= k < tp.len() && tp[k] == p;
            assert(all[k] == p);
        } else {
            assert(dp.contains(p));
            let k = choose|k: int| 0 <= k < dp.len() && dp[k] == p;
            assert(all[tp.len() + k] == p);
        }
    }
}

proof fn lemma_shown(s: Search, r: SearchOutcome, k: int, p: Place)
    requires
        s.ordinary(),
        s.matches_at(p),
        0 <= k < r.result.matches@.len(),
        rows_held(r.result.matches@, r.sources@)[k] == found(s, p),
    ensures
        s.shown(r, k, p),
{
    let a = s.address(p);
    assert(s.hit(p).start >= 0);
    if p.code {
        assert(a == s.text[p.section].1.base + s.text_hits[p.section].hits@[p.hit].start);
    } else {
        assert(a == s.data[p.section].1.base + s.data_hits[p.section].hits@[p.hit].start);
    }
    law_address_reads_back(a as u64);
    reveal_strlit("0x");
}

// ---- laws ------------------------------------------------------------------

/// The result table shows exactly the matches, each once: with `code_only` unset
/// every hit in every data section with bytes and a place in memory that is not
/// zero-filled or debug information, and every hit in code that the pattern was
/// compiled for.
pub proof fn law_result_shows_exactly_the_matches(
    s: Search,
    r: SearchOutcome,
    pattern: Seq<char>,
) -> (places: Seq<Place>)
    requires
        s.ordinary(),
        r.reports(pattern, s.scans(), s.text.len() as int, s.data.len() as int),
    ensures
        rows_are(s, r, places),
        r.result.total == places.len(),
        r.result.shown == places.len(),
        r.sources@.len() == places.len(),
        r.result.pattern@ == pattern,
{
    lemma_all(s);
    let rows = rows_of_scans(s.scans(), s.scans().len() as int);
    let all = text_places(s, s.text.len() as int) + data_places(s, s.data.len() as int);
    let order = choose|order: Seq<usize>| #[trigger]
        is_sorted_order::<(String, String)>(sort_keys(rows), order) && rows_held(
            r.result.matches@,
            r.sources@,
        ) == order.map_values(|i: usize| rows[i as int]);
    let places = order.map_values(|i: usize| all[i as int]);
    let held = rows_held(r.result.matches@, r.sources@);
    assert forall|k: int| 0 <= k < places.len() implies s.matches_at(#[trigger] places[k])
        && s.shown(r, k, places[k]) by {
        assert(order.contains(order[k]));
        let i = order[k] as int;
        assert(s.matches_at(all[i]));
        assert(held[k] == rows[i]);
        lemma_shown(s, r, k, places[k]);
    }
    assert(places.no_duplicates()) by {
        assert forall|a: int, b: int|
            0 <= a < places.len() && 0 <= b < places.len() && a != b implies places[a]
            != places[b] by {
            assert(order.contains(order[a]));
            assert(order.contains(order[b]));
            let keys = sort_keys(rows);
            if a < b {
                assert(index_before::<(String, String)>(keys, order[a], order[b]));
            } else {
                assert(index_before::<(String, String)>(keys, order[b], order[a]));
            }
            <(String, String) as Rank>::irreflexive(keys[order[a] as int]);
            assert(order[a] != order[b]);
        }
    }
    assert forall|p: Place| #[trigger] s.matches_at(p) implies places.contains(p) by {
        let i = choose|i: int| 0 <= i < all.len() && all[i] == p;
        assert(rows.len() == r.result.total);
        assert(order.contains(i as usize));
        let k = choose|k: int| 0 <= k < order.len() && order[k] == i as usize;
        assert(places[k] == p);
    }
    places
}

/// The rows are sorted by section, then by address as text.
pub proof fn law_result_is_sorted(
    s: Search,
    r: SearchOutcome,
    pattern: Seq<char>,
    a: int,
    b: int,
)
    requires
        r.reports(pattern, s.scans(), s.text.len() as int, s.data.len() as int),
        0 <= a < b < r.result.matches@.len(),
    ensures
        ({
            let x = r.result.matches@[a];
            let y = r.result.matches@[b];
            ||| text_before(x.section@, y.section@)
            ||| x.section@ == y.section@ && text_before(x.address@, y.address@)
            ||| x.section@ == y.section@ && x.address@ == y.address@
        }),
{
    let rows = rows_of_scans(s.scans(), s.scans().len() as int);
    let order = choose|order: Seq<usize>| #[trigger]
        is_sorted_order::<(String, String)>(sort_keys(rows), order) && rows_held(
            r.result.matches@,
            r.sources@,
        ) == order.map_values(|i: usize| rows[i as int]);
    let keys = sort_keys(rows);
    let held = rows_held(r.result.matches@, r.sources@);
    assert(order.contains(order[a]));
    assert(order.contains(order[b]));
    assert(index_before::<(String, String)>(keys, order[a], order[b]));
    assert(held[a] == rows[order[a] as int]);
    assert(held[b] == rows[order[b] as int]);
}

/// The user is told of a failure exactly if nothing is shown: that there was
/// nothing to search, or that nothing was found.
pub proof fn law_result_or_error(s: Search, r: SearchOutcome, pattern: Seq<char>)
    requires
        s.ordinary(),
        r.reports(pattern, s.scans(), s.text.len() as int, s.data.len() as int),
    ensures
        r.error is None <==> r.result.matches@.len() > 0,
        (forall|x: int| !#[trigger] s.searches_code(x)) && (forall|x: int|
            !#[trigger] s.searches_data(x)) ==> r.error is Some && r.error->0@
            == "no native sections to scan (bundle has "@ + decimal(s.text.len() as int) + " text + "@
            + decimal(s.data.len() as int) + " data sections)"@,
        r.error is Some && (exists|x: int| #[trigger]
            s.searches_code(x) || #[trigger] s.searches_data(x)) ==> exists|n: int, bytes: int|
            0 < n <= s.text.len() + s.data.len() && r.error->0@ == #[trigger] nothing_found(
                n,
                bytes,
            ),
{
    lemma_any(s);
    let scans = s.scans();
    let rows = rows_of_scans(scans, scans.len() as int);
    if scans.len() == 0 {
        assert(rows =~= Seq::empty());
    } else if r.error is Some {
        assert(r.error->0@ == nothing_found(
            scans.len() as int,
            bytes_of_scans(scans, scans.len() as int),
        ));
    }
}

/// What the user is told of a search of `n` sections that found nothing.
pub open spec fn nothing_found(n: int, bytes: int) -> Seq<char> {
    "no matches across "@ + decimal(n) + " sections ("@ + decimal(bytes) + " bytes scanned)"@
}

proof fn lemma_any_text(s: Search, n: int)
    requires
        0 <= n <= s.text.len(),
    ensures
        text_scans(s.text, s.compiled, s.text_hits, n).len() <= n,
        text_scans(s.text, s.compiled, s.text_hits, n).len() > 0 <==> exists|x: int|
            x < n && #[trigger] s.searches_code(x),
    decreases n,
{
    if n > 0 {
        lemma_any_text(s, n - 1);
        lemma_atoms(s.compiled, s.text[n - 1].1.arch, 0);
        assert(s.searches_code(n - 1) <==> atoms_from(s.compiled, s.text[n - 1].1.arch, 0) is Some);
    }
}

proof fn lemma_any_data(s: Search, n: int)
    requires
        0 <= n <= s.data.len(),
    ensures
        data_scans(s.data, s.code_only, s.data_hits, n).len() <= n,
        data_scans(s.data, s.code_only, s.data_hits, n).len() > 0 <==> exists|x: int|
            x < n && #[trigger] s.searches_data(x),
    decreases n,
{
    if n > 0 {
        lemma_any_data(s, n - 1);
        assert(s.searches_data(n - 1) <==> data_scanned(s.data[n - 1].1, s.code_only));
    }
}

proof fn lemma_any(s: Search)
    ensures
        s.scans().len() <= s.text.len() + s.data.len(),
        s.scans().len() > 0 <==> (exists|x: int| #[trigger] s.searches_code(x)) || (exists|x: int|
            #[trigger] s.searches_data(x)),
{
    lemma_any_text(s, s.text.len() as int);
    lemma_any_data(s, s.data.len() as int);
}

proof fn lemma_text_fits(s: Search, n: int)
    requires
        s.ordinary(),
        0 <= n <= s.text.len(),
    ensures
        ({
            let scans = text_scans(s.text, s.compiled, s.text_hits, n);
            &&& scans.len() <= n
            &&& bytes_of_scans(scans, scans.len() as int) <= text_bytes(s.text, n)
            &&& forall|i: int|
                0 <= i < scans.len() ==> crate::bin_search::hits_fit(#[trigger] scans[i])
        }),
    decreases n,
{
    if n > 0 {
        lemma_text_fits(s, n - 1);
        let before = text_scans(s.text, s.compiled, s.text_hits, n - 1);
        let scan = text_scan(s.text[n - 1].0, s.text[n - 1].1, s.text_hits[n - 1]);
        lemma_rows_concat(before, seq![scan], 0);
        assert(before.push(scan) =~= before + seq![scan]);
        lemma_rows_first(before, seq![scan], before.len() as int);
    }
}

proof fn lemma_data_fits(s: Search, n: int)
    requires
        s.ordinary(),
        0 <= n <= s.data.len(),
    ensures
        ({
            let scans = data_scans(s.data, s.code_only, s.data_hits, n);
            &&& scans.len() <= n
            &&& bytes_of_scans(scans, scans.len() as int) <= data_bytes(s.data, n)
            &&& forall|i: int|
                0 <= i < scans.len() ==> crate::bin_search::hits_fit(#[trigger] scans[i])
        }),
    decreases n,
{
    if n > 0 {
        lemma_data_fits(s, n - 1);
        let before = data_scans(s.data, s.code_only, s.data_hits, n - 1);
        let scan = data_scan(s.data[n - 1].0, s.data[n - 1].1, s.data_hits[n - 1]);
        assert(before.push(scan) =~= before + seq![scan]);
        lemma_rows_first(before, seq![scan], before.len() as int);
    }
}

/// Every ordinary search can be run.
pub proof fn law_ordinary_searches_run(s: Search)
    requires
        s.ordinary(),
    ensures
        scans_fit(s.scans()),
{
    let n = s.text.len() as int;
    let m = s.data.len() as int;
    lemma_text_fits(s, n);
    lemma_data_fits(s, m);
    let ts = text_scans(s.text, s.compiled, s.text_hits, n);
    let ds = data_scans(s.data, s.code_only, s.data_hits, m);
    lemma_rows_concat(ts, ds, ds.len() as int);
    assert forall|i: int| 0 <= i < s.scans().len() implies crate::bin_search::hits_fit(
        #[trigger] s.scans()[i],
    ) by {
        if i < ts.len() {
            assert(s.scans()[i] == ts[i]);
        } else {
            assert(s.scans()[i] == ds[i - ts.len()]);
        }
    }
}

} // verus!
