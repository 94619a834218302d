//! Byte and instruction search across the sections of a bundle.
//!
//! The pattern is compiled into sets of atoms, one for every architecture or
//! one for all. The scanner reports hits per section; this module decides which
//! sections are scanned, which hits count, and what the result table holds.

use crate::digits::{
    address_of, decimal, hex_text, law_address_reads_back, prefixed_hex, to_decimal,
};
use crate::order::{is_sorted_order, sorted_order, views, Rank};
use crate::sections::{
    Architecture, DataSectionBytes, DecodedInsn, NativeSectionKind, TextSectionBytes,
};
use crate::table::Table;
use crate::text::{join2, join3, owned};
use crate::xref::SectionKey;
use std::collections::HashSet;
use std::sync::Arc;
use vstd::prelude::*;

verus! {

broadcast use vstd::std_specs::hash::group_hash_axioms;

/// One row of the result table.
#[derive(Debug)]
pub struct BinMatch {
    pub section: String,
    pub address: String,
    pub length: usize,
    pub preview: String,
}

/// The result of a search.
#[derive(Debug)]
pub struct BinSearchResult {
    pub artifact: String,
    pub pattern: String,
    pub total: usize,
    pub shown: usize,
    pub matches: Vec<BinMatch>,
}

/// One hit of the scanner in a section.
#[derive(Debug)]
pub struct Hit {
    /// Offset in the section.
    pub start: usize,
    /// Length in bytes.
    pub length: usize,
    pub preview: String,
}

/// The hits of one section.
#[derive(Debug)]
pub struct SectionHits {
    /// Short label of the artifact that holds the section.
    pub label: String,
    pub hits: Vec<Hit>,
}

/// The first atom set, from `i` on, that applies to an architecture: one for
/// all architectures, or one for this one.
pub open spec fn atoms_from(compiled: Seq<Option<Architecture>>, arch: Architecture, i: int) -> Option<
    int,
>
    decreases compiled.len() - i,
{
    if i < 0 || i >= compiled.len() {
        None
    } else if compiled[i] is None || compiled[i] == Some(arch) {
        Some(i)
    } else {
        atoms_from(compiled, arch, i + 1)
    }
}

/// The atom set to scan code of an architecture with; `None` where the section
/// is not scanned.
pub fn atoms_for_arch(compiled: &Vec<Option<Architecture>>, arch: Architecture) -> (r: Option<usize>)
    ensures
        match r {
            Some(i) => atoms_from(compiled@, arch, 0) == Some(i as int),
            None => atoms_from(compiled@, arch, 0) is None,
        },
{
    let mut i: usize = 0;
    while i < compiled.len()
        invariant
            i <= compiled@.len(),
            atoms_from(compiled@, arch, 0) == atoms_from(compiled@, arch, i as int),
        decreases compiled@.len() - i,
    {
        match compiled[i] {
            None => {
                return Some(i);
            },
            Some(a) => {
                if a == arch {
                    return Some(i);
                }
            },
        }
        i += 1;
    }
    None
}

/// Whether a data section is scanned: it has bytes, a place in memory, and is
/// neither zero-filled nor debug information.
pub open spec fn data_scanned(d: DataSectionBytes, code_only: bool) -> bool {
    !code_only && d.base != 0 && d.bytes@.len() > 0 && d.kind != NativeSectionKind::Bss && d.kind
        != NativeSectionKind::Debug
}

/// Whether a data section is scanned.
pub fn scans_data(d: &DataSectionBytes, code_only: bool) -> (r: bool)
    ensures
        r == data_scanned(*d, code_only),
{
    !code_only && d.base != 0 && d.bytes.len() > 0 && d.kind != NativeSectionKind::Bss && d.kind
        != NativeSectionKind::Debug
}

/// The bytes of a section of `total` bytes that the preview of a hit shows.
pub fn preview_range(start: usize, length: usize, total: usize) -> (r: (usize, usize))
    requires
        start <= total,
        start + length <= usize::MAX,
    ensures
        r.0 == start,
        r.1 == if start + length <= total {
            start + length
        } else {
            total as int
        },
{
    let end: usize = start + length;
    (start, if end <= total {
        end
    } else {
        total
    })
}

// ---- the model -------------------------------------------------------------

/// A row of the result with the section it stands for.
pub ghost struct Found {
    pub section: Seq<char>,
    pub address: Seq<char>,
    pub length: usize,
    pub preview: Seq<char>,
    pub source: (Seq<u8>, Seq<char>),
}

/// A section that was scanned.
pub ghost struct Scan {
    pub label: Seq<char>,
    pub source: (Seq<u8>, Seq<char>),
    pub base: u64,
    pub size: int,
    /// The instructions at which hits count; all hits count where it is absent.
    pub insns: Option<Seq<DecodedInsn>>,
    pub hits: Seq<Hit>,
}

/// Whether a hit at `addr` counts: where the instructions of the section are
/// known, it has to lie at the start of one.
pub open spec fn counts(insns: Option<Seq<DecodedInsn>>, addr: int) -> bool {
    match insns {
        Some(p) => exists|i: int| 0 <= i < p.len() && (#[trigger] p[i]).address == addr,
        None => true,
    }
}

/// The row of a hit.
pub open spec fn row_of_hit(s: Scan, h: Hit) -> Found {
    Found {
        section: s.label + " · "@ + s.source.1,
        address: prefixed_hex(s.base + h.start),
        length: h.length,
        preview: h.preview@,
        source: s.source,
    }
}

/// The rows of the first `n` hits of a section.
pub open spec fn rows_of_scan(s: Scan, n: int) -> Seq<Found>
    decreases n,
{
    if n <= 0 {
        Seq::empty()
    } else if counts(s.insns, s.base + s.hits[n - 1].start) {
        rows_of_scan(s, n - 1).push(row_of_hit(s, s.hits[n - 1]))
    } else {
        rows_of_scan(s, n - 1)
    }
}

/// The rows of the first `n` scanned sections.
pub open spec fn rows_of_scans(scans: Seq<Scan>, n: int) -> Seq<Found>
    decreases n,
{
    if n <= 0 {
        Seq::empty()
    } else {
        rows_of_scans(scans, n - 1) + rows_of_scan(
            scans[n - 1],
            scans[n - 1].hits.len() as int,
        )
    }
}

/// The bytes in the first `n` scanned sections.
pub open spec fn bytes_of_scans(scans: Seq<Scan>, n: int) -> int
    decreases n,
{
    if n <= 0 {
        0
    } else {
        bytes_of_scans(scans, n - 1) + scans[n - 1].size
    }
}

/// The scan of a code section.
pub open spec fn text_scan(k: SectionKey, t: TextSectionBytes, h: SectionHits) -> Scan {
    Scan {
        label: h.label@,
        source: k@,
        base: t.base,
        size: t.bytes@.len() as int,
        insns: match t.precomputed {
            Some(p) => Some(p@),
            None => None,
        },
        hits: h.hits@,
    }
}

/// The scans of the first `n` code sections.
pub open spec fn text_scans(
    text: Seq<(SectionKey, TextSectionBytes)>,
    compiled: Seq<Option<Architecture>>,
    hits: Seq<SectionHits>,
    n: int,
) -> Seq<Scan>
    decreases n,
{
    if n <= 0 {
        Seq::empty()
    } else if atoms_from(compiled, text[n - 1].1.arch, 0) is Some {
        text_scans(text, compiled, hits, n - 1).push(
            text_scan(text[n - 1].0, text[n - 1].1, hits[n - 1]),
        )
    } else {
        text_scans(text, compiled, hits, n - 1)
    }
}

/// The scan of a data section.
pub open spec fn data_scan(k: SectionKey, d: DataSectionBytes, h: SectionHits) -> Scan {
    Scan {
        label: h.label@,
        source: k@,
        base: d.base,
        size: d.bytes@.len() as int,
        insns: None,
        hits: h.hits@,
    }
}

/// The scans of the first `n` data sections.
pub open spec fn data_scans(
    data: Seq<(SectionKey, DataSectionBytes)>,
    code_only: bool,
    hits: Seq<SectionHits>,
    n: int,
) -> Seq<Scan>
    decreases n,
{
    if n <= 0 {
        Seq::empty()
    } else if data_scanned(data[n - 1].1, code_only) {
        data_scans(data, code_only, hits, n - 1).push(
            data_scan(data[n - 1].0, data[n - 1].1, hits[n - 1]),
        )
    } else {
        data_scans(data, code_only, hits, n - 1)
    }
}

/// Every hit of a section lies at an address.
pub open spec fn hits_fit(s: Scan) -> bool {
    forall|i: int| 0 <= i < s.hits.len() ==> s.base + (#[trigger] s.hits[i]).start <= u64::MAX
}

/// Sections are scanned within the limits of the machine.
pub open spec fn scans_fit(scans: Seq<Scan>) -> bool {
    &&& scans.len() <= usize::MAX
    &&& bytes_of_scans(scans, scans.len() as int) <= usize::MAX
    &&& forall|i: int| 0 <= i < scans.len() ==> hits_fit(#[trigger] scans[i])
}

/// Rows are sorted by section, then by address as text.
pub open spec fn sort_keys(rows: Seq<Found>) -> Seq<(Seq<char>, Seq<char>)> {
    rows.map_values(|f: Found| (f.section, f.address))
}

/// The rows that two parallel lists hold.
pub open spec fn rows_held(matches: Seq<BinMatch>, sources: Seq<SectionKey>) -> Seq<Found> {
    Seq::new(
        matches.len(),
        |i: int|
            Found {
                section: matches[i].section@,
                address: matches[i].address@,
                length: matches[i].length,
                preview: matches[i].preview@,
                source: sources[i]@,
            },
    )
}

// ---- collecting ------------------------------------------------------------

/// The addresses of instructions.
fn insn_starts(p: &Vec<DecodedInsn>) -> (r: HashSet<u64>)
    ensures
        forall|a: u64| #[trigger] r@.contains(a) <==> counts(Some(p@), a as int),
{
    let mut r: HashSet<u64> = HashSet::new();
    let mut i: usize = 0;
    while i < p.len()
        invariant
            i <= p@.len(),
            forall|a: u64| #[trigger]
                r@.contains(a) <==> exists|k: int| 0 <= k < i && (#[trigger] p@[k]).address == a,
        decreases p@.len() - i,
    {
        let ghost before = r@;
        r.insert(p[i].address);
        assert forall|a: u64| #[trigger] r@.contains(a) implies exists|k: int|
            0 <= k < i + 1 && (#[trigger] p@[k]).address == a by {
            if before.contains(a) {
                let k = choose|k: int| 0 <= k < i && (#[trigger] p@[k]).address == a;
                assert(p@[k].address == a);
            } else {
                assert(p@[i as int].address == a);
            }
        }
        i += 1;
    }
    r
}

/// The rows collected so far.
struct Collected {
    matches: Vec<BinMatch>,
    sources: Vec<SectionKey>,
    scanned: usize,
    bytes: usize,
}

impl Collected {
    spec fn holds(&self, scans: Seq<Scan>) -> bool {
        &&& self.matches@.len() == self.sources@.len()
        &&& rows_held(self.matches@, self.sources@) == rows_of_scans(scans, scans.len() as int)
        &&& self.scanned == scans.len()
        &&& self.bytes == bytes_of_scans(scans, scans.len() as int)
    }

    #[verifier::rlimit(60)]
    fn scan_section(
        &mut self,
        key: &SectionKey,
        label: &str,
        base: u64,
        size: usize,
        insns: Option<&Arc<Vec<DecodedInsn>>>,
        hits: &Vec<Hit>,
        Ghost(scans): Ghost<Seq<Scan>>,
        Ghost(s): Ghost<Scan>,
    )
        requires
            old(self).holds(scans),
            s == (Scan {
                label: label@,
                source: key@,
                base,
                size: size as int,
                insns: match insns {
                    Some(p) => Some(p@),
                    None => None,
                },
                hits: hits@,
            }),
            hits_fit(s),
            scans.len() < usize::MAX,
            bytes_of_scans(scans, scans.len() as int) + size <= usize::MAX,
        ensures
            final(self).holds(scans.push(s)),
    {
        let joined = join2(label, " · ");
        let section = join2(joined.as_str(), key.1.as_str());
        let starts: Option<HashSet<u64>> = match insns {
            Some(p) => Some(insn_starts(p)),
            None => None,
        };
        let ghost earlier = rows_of_scans(scans, scans.len() as int);
        assert(rows_of_scan(s, 0) =~= Seq::empty());
        assert(earlier + rows_of_scan(s, 0) =~= earlier);
        let mut i: usize = 0;
        while i < hits.len()
            invariant
                i <= hits@.len(),
                hits_fit(s),
                s.hits == hits@,
                s.base == base,
                s.source == key@,
                section@ == s.label + " · "@ + s.source.1,
                match starts {
                    Some(set) => s.insns is Some && forall|a: u64| #[trigger]
                        set@.contains(a) <==> counts(s.insns, a as int),
                    None => s.insns is None,
                },
                self.matches@.len() == self.sources@.len(),
                rows_held(self.matches@, self.sources@) == earlier + rows_of_scan(s, i as int),
                self.scanned == old(self).scanned,
                self.bytes == old(self).bytes,
            decreases hits@.len() - i,
        {
            let h = &hits[i];
            assert(s.base + s.hits[i as int].start <= u64::MAX);
            let addr: u64 = base + h.start as u64;
            let counted: bool = match &starts {
                Some(set) => set.contains(&addr),
                None => true,
            };
            if counted {
                let ghost m = self.matches@;
                let ghost k = self.sources@;
                self.matches.push(
                    BinMatch {
                        section: section.clone(),
                        address: hex_text(addr),
                        length: h.length,
                        preview: h.preview.clone(),
                    },
                );
                self.sources.push(key.duplicate());
                assert(rows_held(self.matches@, self.sources@) =~= rows_held(m, k).push(
                    row_of_hit(s, *h),
                ));
                assert(earlier + rows_of_scan(s, i + 1) =~= (earlier + rows_of_scan(
                    s,
                    i as int,
                )).push(row_of_hit(s, *h)));
            }
            i += 1;
        }
        self.scanned = self.scanned + 1;
        self.bytes = self.bytes + size;
        proof {
            lemma_push(scans, s, scans.len() as int);
            assert(scans.push(s)[scans.len() as int] == s);
        }
    }
}

/// Adding a scan leaves the rows and bytes of the earlier ones.
proof fn lemma_push(scans: Seq<Scan>, s: Scan, n: int)
    requires
        0 <= n <= scans.len(),
    ensures
        rows_of_scans(scans.push(s), n) == rows_of_scans(scans, n),
        bytes_of_scans(scans.push(s), n) == bytes_of_scans(scans, n),
    decreases n,
{
    if n > 0 {
        lemma_push(scans, s, n - 1);
        assert(scans.push(s)[n - 1] == scans[n - 1]);
    }
}

/// A shorter list of scans covers no more bytes.
proof fn lemma_bytes_grow(scans: Seq<Scan>, n: int, m: int)
    requires
        0 <= n <= m <= scans.len(),
        forall|i: int| 0 <= i < scans.len() ==> (#[trigger] scans[i]).size >= 0,
    ensures
        bytes_of_scans(scans, n) <= bytes_of_scans(scans, m),
    decreases m,
{
    if n < m {
        lemma_bytes_grow(scans, n, m - 1);
        assert(scans[m - 1].size >= 0);
    }
}

/// The scans of fewer code sections come first among those of more.
proof fn lemma_text_scans(
    text: Seq<(SectionKey, TextSectionBytes)>,
    compiled: Seq<Option<Architecture>>,
    hits: Seq<SectionHits>,
    n: int,
    m: int,
)
    requires
        0 <= n <= m,
    ensures
        text_scans(text, compiled, hits, n).is_prefix_of(text_scans(text, compiled, hits, m)),
        text_scans(text, compiled, hits, n).len() <= n,
        forall|i: int|
            0 <= i < text_scans(text, compiled, hits, m).len() ==> (#[trigger] text_scans(
                text,
                compiled,
                hits,
                m,
            )[i]).size >= 0,
    decreases m,
{
    if m > 0 {
        if n < m {
            lemma_text_scans(text, compiled, hits, n, m - 1);
        } else {
            lemma_text_scans(text, compiled, hits, n - 1, m - 1);
        }
    }
}

/// The scans of fewer data sections come first among those of more.
proof fn lemma_data_scans(
    data: Seq<(SectionKey, DataSectionBytes)>,
    code_only: bool,
    hits: Seq<SectionHits>,
    n: int,
    m: int,
)
    requires
        0 <= n <= m,
    ensures
        data_scans(data, code_only, hits, n).is_prefix_of(data_scans(data, code_only, hits, m)),
        data_scans(data, code_only, hits, n).len() <= n,
        forall|i: int|
            0 <= i < data_scans(data, code_only, hits, m).len() ==> (#[trigger] data_scans(
                data,
                code_only,
                hits,
                m,
            )[i]).size >= 0,
    decreases m,
{
    if m > 0 {
        if n < m {
            lemma_data_scans(data, code_only, hits, n, m - 1);
        } else {
            lemma_data_scans(data, code_only, hits, n - 1, m - 1);
        }
    }
}

/// A list that begins with another one covers at least its bytes.
proof fn lemma_prefix_fits(a: Seq<Scan>, b: Seq<Scan>)
    requires
        a.is_prefix_of(b),
        forall|i: int| 0 <= i < b.len() ==> (#[trigger] b[i]).size >= 0,
    ensures
        bytes_of_scans(a, a.len() as int) <= bytes_of_scans(b, b.len() as int),
{
    lemma_same_bytes(a, b, a.len() as int);
    lemma_bytes_grow(b, a.len() as int, b.len() as int);
}

proof fn lemma_same_bytes(a: Seq<Scan>, b: Seq<Scan>, n: int)
    requires
        a.is_prefix_of(b),
        0 <= n <= a.len(),
    ensures
        bytes_of_scans(a, n) == bytes_of_scans(b, n),
    decreases n,
{
    if n > 0 {
        lemma_same_bytes(a, b, n - 1);
        assert(a[n - 1] == b[n - 1]);
    }
}

/// Everything a search leaves behind.
#[derive(Debug)]
pub struct SearchOutcome {
    pub result: BinSearchResult,
    /// The section of every match.
    pub sources: Vec<SectionKey>,
    pub error: Option<String>,
}

/// All sections that a search scans.
pub open spec fn all_scans(
    text: Seq<(SectionKey, TextSectionBytes)>,
    data: Seq<(SectionKey, DataSectionBytes)>,
    compiled: Seq<Option<Architecture>>,
    code_only: bool,
    text_hits: Seq<SectionHits>,
    data_hits: Seq<SectionHits>,
) -> Seq<Scan> {
    text_scans(text, compiled, text_hits, text.len() as int) + data_scans(
        data,
        code_only,
        data_hits,
        data.len() as int,
    )
}

/// What the user is told of a search that found nothing.
pub open spec fn search_error(scans: Seq<Scan>, texts: int, datas: int, total: int) -> Option<
    Seq<char>,
> {
    if scans.len() == 0 {
        Some(
            "no native sections to scan (bundle has "@ + decimal(texts) + " text + "@ + decimal(
                datas,
            ) + " data sections)"@,
        )
    } else if total == 0 {
        Some(
            "no matches across "@ + decimal(scans.len() as int) + " sections ("@ + decimal(
                bytes_of_scans(scans, scans.len() as int),
            ) + " bytes scanned)"@,
        )
    } else {
        None
    }
}

impl SearchOutcome {
    /// The outcome of a search for `pattern` over `scans`.
    pub open spec fn reports(
        &self,
        pattern: Seq<char>,
        scans: Seq<Scan>,
        texts: int,
        datas: int,
    ) -> bool {
        let rows = rows_of_scans(scans, scans.len() as int);
        &&& self.result.artifact@ == "(all artifacts)"@
        &&& self.result.pattern@ == pattern
        &&& self.result.total == rows.len()
        &&& self.result.shown == rows.len()
        &&& self.result.matches@.len() == rows.len()
        &&& self.sources@.len() == rows.len()
        &&& exists|order: Seq<usize>| #[trigger]
            is_sorted_order::<(String, String)>(sort_keys(rows), order) && rows_held(
                self.result.matches@,
                self.sources@,
            ) == order.map_values(|i: usize| rows[i as int])
        &&& match (self.error, search_error(scans, texts, datas, rows.len() as int)) {
            (Some(e), Some(t)) => e@ == t,
            (None, None) => true,
            _ => false,
        }
    }
}

fn copy_match(m: &BinMatch) -> (r: BinMatch)
    ensures
        r == *m,
{
    BinMatch {
        section: m.section.clone(),
        address: m.address.clone(),
        length: m.length,
        preview: m.preview.clone(),
    }
}

/// Sorts the rows and words the error.
#[verifier::rlimit(60)]
fn conclude(c: Collected, pattern: &str, texts: usize, datas: usize, Ghost(scans): Ghost<Seq<Scan>>) -> (r:
    SearchOutcome)
    requires
        c.holds(scans),
    ensures
        r.reports(pattern@, scans, texts as int, datas as int),
{
    let ghost rows = rows_of_scans(scans, scans.len() as int);
    let mut sort_by: Vec<(String, String)> = Vec::new();
    let mut i: usize = 0;
    while i < c.matches.len()
        invariant
            i <= c.matches@.len(),
            sort_by@.len() == i,
            forall|k: int|
                0 <= k < i ==> (#[trigger] sort_by@[k])@ == (
                    c.matches@[k].section@,
                    c.matches@[k].address@,
                ),
        decreases c.matches@.len() - i,
    {
        sort_by.push((c.matches[i].section.clone(), c.matches[i].address.clone()));
        i += 1;
    }
    let order = sorted_order(&sort_by);
    assert(rows.len() == c.matches@.len());
    assert forall|k: int| 0 <= k < rows.len() implies #[trigger] views(sort_by@)[k] == sort_keys(
        rows,
    )[k] by {
        assert(rows_held(c.matches@, c.sources@)[k] == rows[k]);
    }
    assert(views(sort_by@) =~= sort_keys(rows));
    let mut matches: Vec<BinMatch> = Vec::new();
    let mut sources: Vec<SectionKey> = Vec::new();
    let mut j: usize = 0;
    while j < order.len()
        invariant
            j <= order@.len(),
            c.holds(scans),
            rows == rows_of_scans(scans, scans.len() as int),
            is_sorted_order::<(String, String)>(sort_keys(rows), order@),
            matches@.len() == j,
            sources@.len() == j,
            forall|k: int| 0 <= k < j ==> #[trigger] rows_held(matches@, sources@)[k] == rows[order@[k] as int],
        decreases order@.len() - j,
    {
        assert(order@.contains(order@[j as int]));
        let ghost m = matches@;
        let ghost s = sources@;
        let at: usize = order[j];
        assert(rows_held(c.matches@, c.sources@)[at as int] == rows[at as int]);
        matches.push(copy_match(&c.matches[at]));
        sources.push(c.sources[at].duplicate());
        assert forall|k: int| 0 <= k < j + 1 implies #[trigger] rows_held(matches@, sources@)[k]
            == rows[order@[k] as int] by {
            if k < j {
                assert(rows_held(m, s)[k] == rows[order@[k] as int]);
            }
        }
        j += 1;
    }
    assert(rows_held(matches@, sources@) =~= order@.map_values(|i: usize| rows[i as int]));
    let total: usize = matches.len();
    let error = if c.scanned == 0 {
        let a = to_decimal(texts as u64);
        let b = to_decimal(datas as u64);
        let head = join3("no native sections to scan (bundle has ", a.as_str(), " text + ");
        Some(join3(head.as_str(), b.as_str(), " data sections)"))
    } else if total == 0 {
        let a = to_decimal(c.scanned as u64);
        let b = to_decimal(c.bytes as u64);
        let head = join3("no matches across ", a.as_str(), " sections (");
        Some(join3(head.as_str(), b.as_str(), " bytes scanned)"))
    } else {
        None
    };
    SearchOutcome {
        result: BinSearchResult {
            artifact: owned("(all artifacts)"),
            pattern: owned(pattern),
            total,
            shown: total,
            matches,
        },
        sources,
        error,
    }
}

/// The outcome of a search: the hits of all scanned sections, code first, as a
/// sorted table. `text_hits` and `data_hits` hold the hits of every code and
/// data section, in the order of the tables; those of sections that are not
/// scanned are ignored.
#[verifier::rlimit(60)]
pub fn search_sections(
    pattern: &str,
    compiled: &Vec<Option<Architecture>>,
    text: &Table<SectionKey, TextSectionBytes>,
    data: &Table<SectionKey, DataSectionBytes>,
    code_only: bool,
    text_hits: &Vec<SectionHits>,
    data_hits: &Vec<SectionHits>,
) -> (r: SearchOutcome)
    requires
        text_hits@.len() == text.listed().len(),
        data_hits@.len() == data.listed().len(),
        scans_fit(
            all_scans(
                text.listed(),
                data.listed(),
                compiled@,
                code_only,
                text_hits@,
                data_hits@,
            ),
        ),
    ensures
        r.reports(
            pattern@,
            all_scans(text.listed(), data.listed(), compiled@, code_only, text_hits@, data_hits@),
            text.listed().len() as int,
            data.listed().len() as int,
        ),
{
    let ghost all = all_scans(
        text.listed(),
        data.listed(),
        compiled@,
        code_only,
        text_hits@,
        data_hits@,
    );
    let ghost code = text_scans(text.listed(), compiled@, text_hits@, text.listed().len() as int);
    let ghost rest = data_scans(data.listed(), code_only, data_hits@, data.listed().len() as int);
    let mut c = Collected { matches: Vec::new(), sources: Vec::new(), scanned: 0, bytes: 0 };
    assert(rows_held(c.matches@, c.sources@) =~= Seq::empty());
    let n: usize = text.len();
    let m: usize = data.len();
    proof {
        lemma_text_scans(text.listed(), compiled@, text_hits@, n as int, n as int);
        lemma_data_scans(data.listed(), code_only, data_hits@, m as int, m as int);
        assert forall|i: int| 0 <= i < all.len() implies (#[trigger] all[i]).size >= 0 by {
            if i < code.len() {
                assert(code[i].size >= 0);
            } else {
                assert(rest[i - code.len()].size >= 0);
            }
        }
    }
    let mut i: usize = 0;
    while i < n
        invariant
            n == text.listed().len(),
            text_hits@.len() == n,
            i <= n,
            all == code + rest,
            code == text_scans(text.listed(), compiled@, text_hits@, n as int),
            scans_fit(all),
            forall|i: int| 0 <= i < all.len() ==> (#[trigger] all[i]).size >= 0,
            c.holds(text_scans(text.listed(), compiled@, text_hits@, i as int)),
        decreases n - i,
    {
        let (key, t) = text.entry(i);
        if atoms_for_arch(compiled, t.arch).is_some() {
            let ghost before = text_scans(text.listed(), compiled@, text_hits@, i as int);
            let ghost s = text_scan(*key, *t, text_hits@[i as int]);
            proof {
                lemma_text_scans(text.listed(), compiled@, text_hits@, i + 1, n as int);
                let after = before.push(s);
                assert(after == text_scans(text.listed(), compiled@, text_hits@, i + 1));
                assert(after.is_prefix_of(all));
                assert(all[before.len() as int] == s);
                lemma_prefix_fits(after, all);
                lemma_push(before, s, before.len() as int);
                assert(after[before.len() as int] == s);
            }
            c.scan_section(
                key,
                text_hits[i].label.as_str(),
                t.base,
                t.bytes.len(),
                t.precomputed.as_ref(),
                &text_hits[i].hits,
                Ghost(before),
                Ghost(s),
            );
        }
        i += 1;
    }
    let mut j: usize = 0;
    assert(code + Seq::<Scan>::empty() =~= code);
    while j < m
        invariant
            m == data.listed().len(),
            data_hits@.len() == m,
            j <= m,
            all == code + rest,
            rest == data_scans(data.listed(), code_only, data_hits@, m as int),
            scans_fit(all),
            forall|i: int| 0 <= i < all.len() ==> (#[trigger] all[i]).size >= 0,
            c.holds(code + data_scans(data.listed(), code_only, data_hits@, j as int)),
        decreases m - j,
    {
        let (key, d) = data.entry(j);
        if scans_data(d, code_only) {
            let ghost part = data_scans(data.listed(), code_only, data_hits@, j as int);
            let ghost before = code + part;
            let ghost s = data_scan(*key, *d, data_hits@[j as int]);
            proof {
                lemma_data_scans(data.listed(), code_only, data_hits@, j + 1, m as int);
                assert(part.push(s) == data_scans(data.listed(), code_only, data_hits@, j + 1));
                let after = before.push(s);
                assert(after =~= code + part.push(s));
                assert(part.push(s).is_prefix_of(rest));
                assert(after.is_prefix_of(all));
                assert(after[before.len() as int] == s);
                assert(all[before.len() as int] == s);
                lemma_prefix_fits(after, all);
                lemma_push(before, s, before.len() as int);
            }
            c.scan_section(
                key,
                data_hits[j].label.as_str(),
                d.base,
                d.bytes.len(),
                None,
                &data_hits[j].hits,
                Ghost(before),
                Ghost(s),
            );
        }
        j += 1;
    }
    conclude(c, pattern, n, m, Ghost(all))
}

// ---- laws ------------------------------------------------------------------

/// Every row stands for a hit that counts, and its address reads back as the
/// place of that hit: opening a match leads to where it was found.
pub proof fn law_rows_lead_to_their_hits(s: Scan, n: int, i: int)
    requires
        hits_fit(s),
        0 <= n <= s.hits.len(),
        0 <= i < rows_of_scan(s, n).len(),
    ensures
        rows_of_scan(s, n)[i].source == s.source,
        exists|k: int|
            0 <= k < n && address_of(rows_of_scan(s, n)[i].address) == Some(
                (s.base + (#[trigger] s.hits[k]).start) as u64,
            ) && counts(s.insns, s.base + s.hits[k].start),
    decreases n,
{
    let rows = rows_of_scan(s, n);
    let h = s.hits[n - 1];
    let before = rows_of_scan(s, n - 1);
    if counts(s.insns, s.base + h.start) && i == before.len() {
        assert(rows[i] == row_of_hit(s, h));
        law_address_reads_back((s.base + h.start) as u64);
        assert(s.base + s.hits[n - 1].start <= u64::MAX);
    } else {
        assert(rows[i] == before[i]);
        law_rows_lead_to_their_hits(s, n - 1, i);
        let k = choose|k: int|
            0 <= k < n - 1 && address_of(before[i].address) == Some(
                (s.base + (#[trigger] s.hits[k]).start) as u64,
            ) && counts(s.insns, s.base + s.hits[k].start);
        assert(s.hits[k].start == s.hits[k].start);
    }
}

/// The rows of a section are no more than its hits, and exactly as many where
/// its instructions are not known.
pub proof fn law_rows_are_at_most_the_hits(s: Scan, n: int)
    requires
        0 <= n,
    ensures
        rows_of_scan(s, n).len() <= n,
        s.insns is None ==> rows_of_scan(s, n).len() == n,
    decreases n,
{
    if n > 0 {
        law_rows_are_at_most_the_hits(s, n - 1);
    }
}

} // verus!
