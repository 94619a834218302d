//! Cross-reference indices.
//!
//! For every native artifact: which instructions refer to which address. The
//! indices over smali bodies are in [`crate::smali_index`].

use crate::ids::ArtifactId;
use crate::listing::WordInsn;
use crate::order::{ascending, sort_dedup, views, Rank};
use crate::search::SearchEntry;
use crate::sections::{DataSectionBytes, DecodedInsn, NativeSectionKind, TextSectionBytes};
use crate::smali_index::RefIndex;
use crate::table::{as_map, grouped, keys, lists_places, Table};
use std::collections::HashMap;
use std::sync::Arc;
use vstd::prelude::*;

verus! {

broadcast use vstd::std_specs::hash::group_hash_axioms;

/// How far the build of an index has come.
#[derive(Clone, Debug)]
pub struct XrefProgress {
    /// Free-text label shown above the progress bar.
    pub label: String,
    /// Items processed so far.
    pub current: usize,
    /// Items the build will process; may be approximate.
    pub total: usize,
}

impl XrefProgress {
    /// A second value for the same state.
    pub fn copied(&self) -> (r: XrefProgress)
        ensures
            r == *self,
    {
        XrefProgress { label: self.label.clone(), current: self.current, total: self.total }
    }
}

/// What a scoped palette queries.
#[derive(Debug)]
pub enum PaletteScopeSource {
    /// References to an address in the native index of an artifact.
    NativeXrefs { artifact: ArtifactId, target_addr: u64 },
    /// Callers of a method.
    DexCallers { method_key: String },
    /// Places that touch a field.
    DexFieldRefs { field_ref: String },
}

/// A scoped palette query: it shows a fixed set of entries in place of the
/// whole bundle.
pub struct PaletteScope {
    /// Free-text label shown above the input.
    pub label: String,
    /// Entries to filter within; empty while the index is built.
    pub entries: Arc<Vec<SearchEntry>>,
    /// How far the index is, while it is built; the entries are final without
    /// it.
    pub progress: Option<XrefProgress>,
    pub source: PaletteScopeSource,
}

/// What a scoped query waits for.
#[derive(Clone, Copy, Debug, PartialEq, Eq, Structural)]
pub enum IndexPhase {
    Waiting,
    Ready,
    Failed,
}

/// One cross-reference index, from its announcement to its result.
pub enum XrefIndexState<T> {
    /// The build has not started.
    Pending,
    /// The build runs.
    Building(XrefProgress),
    /// The build finished.
    Ready(Arc<T>),
    /// The build failed.
    Failed(String),
}

impl<T> XrefIndexState<T> {
    /// What the state means to a query that waits for the index.
    pub open spec fn waited(self) -> IndexPhase {
        match self {
            XrefIndexState::Ready(_) => IndexPhase::Ready,
            XrefIndexState::Failed(_) => IndexPhase::Failed,
            _ => IndexPhase::Waiting,
        }
    }

    /// What the state means to a query that waits for the index.
    pub fn phase(&self) -> (r: IndexPhase)
        ensures
            r == self.waited(),
    {
        match self {
            XrefIndexState::Ready(_) => IndexPhase::Ready,
            XrefIndexState::Failed(_) => IndexPhase::Failed,
            _ => IndexPhase::Waiting,
        }
    }

    /// How far a running build is.
    pub open spec fn running(self) -> Option<XrefProgress> {
        match self {
            XrefIndexState::Building(p) => Some(p),
            _ => None,
        }
    }

    /// How far a running build is.
    pub fn progress(&self) -> (r: Option<XrefProgress>)
        ensures
            r == self.running(),
    {
        match self {
            XrefIndexState::Building(p) => Some(p.copied()),
            _ => None,
        }
    }

    /// Whether the finished index is there.
    pub fn is_ready(&self) -> (r: bool)
        ensures
            r == (*self is Ready),
    {
        match self {
            XrefIndexState::Ready(index) => true,
            _ => false,
        }
    }
}

impl<T> Default for XrefIndexState<T> {
    fn default() -> (r: XrefIndexState<T>)
        ensures
            r is Pending,
    {
        XrefIndexState::Pending
    }
}

/// Where each address is referred to from: target to referring addresses.
pub type NativeXrefMap = HashMap<u64, Vec<u64>>;

/// The reference maps of all native artifacts.
pub type NativeXrefs = Table<ArtifactId, NativeXrefMap>;

/// The three indices of a bundle.
pub struct XrefStore {
    pub native: XrefIndexState<NativeXrefs>,
    pub dex_callers: XrefIndexState<RefIndex>,
    pub dex_field_refs: XrefIndexState<RefIndex>,
}

impl XrefStore {
    /// The phase of the index that a scope queries.
    pub open spec fn waited_for(&self, source: PaletteScopeSource) -> IndexPhase {
        match source {
            PaletteScopeSource::NativeXrefs { .. } => self.native.waited(),
            PaletteScopeSource::DexCallers { .. } => self.dex_callers.waited(),
            PaletteScopeSource::DexFieldRefs { .. } => self.dex_field_refs.waited(),
        }
    }

    /// The phase of the index that a scope queries.
    pub fn phase_of(&self, source: &PaletteScopeSource) -> (r: IndexPhase)
        ensures
            r == self.waited_for(*source),
    {
        match source {
            PaletteScopeSource::NativeXrefs { .. } => self.native.phase(),
            PaletteScopeSource::DexCallers { .. } => self.dex_callers.phase(),
            PaletteScopeSource::DexFieldRefs { .. } => self.dex_field_refs.phase(),
        }
    }

    /// How far the build is that a scope waits for, while it runs.
    pub open spec fn running_for(&self, source: PaletteScopeSource) -> Option<XrefProgress> {
        match source {
            PaletteScopeSource::NativeXrefs { .. } => self.native.running(),
            PaletteScopeSource::DexCallers { .. } => self.dex_callers.running(),
            PaletteScopeSource::DexFieldRefs { .. } => self.dex_field_refs.running(),
        }
    }

    /// How far the build is that a scope waits for, while it runs.
    pub fn progress_of(&self, source: &PaletteScopeSource) -> (r: Option<XrefProgress>)
        ensures
            r == self.running_for(*source),
    {
        match source {
            PaletteScopeSource::NativeXrefs { .. } => self.native.progress(),
            PaletteScopeSource::DexCallers { .. } => self.dex_callers.progress(),
            PaletteScopeSource::DexFieldRefs { .. } => self.dex_field_refs.progress(),
        }
    }

    /// A store whose builds have not started.
    pub fn new() -> (r: XrefStore)
        ensures
            r.native is Pending,
            r.dex_callers is Pending,
            r.dex_field_refs is Pending,
    {
        XrefStore {
            native: XrefIndexState::Pending,
            dex_callers: XrefIndexState::Pending,
            dex_field_refs: XrefIndexState::Pending,
        }
    }
}

// ---- reading pointers ------------------------------------------------------

/// A section's base and bytes.
pub type Chunk = (u64, Arc<Vec<u8>>);

/// The four bytes at `addr` as a little-endian word, where a section holds them
/// all.
pub open spec fn word_in(base: u64, bytes: Seq<u8>, addr: u64) -> Option<u32> {
    let off = addr - base;
    if 0 <= off && off + 4 <= bytes.len() {
        Some(
            (bytes[off] + 256 * bytes[off + 1] + 65536 * bytes[off + 2] + 16777216 * bytes[off
                + 3]) as u32,
        )
    } else {
        None
    }
}

/// The word at `addr` in the first section from position `i` on that holds it.
pub open spec fn first_word(chunks: Seq<Chunk>, addr: u64, i: int) -> Option<u32>
    decreases chunks.len() - i,
{
    if i >= chunks.len() {
        None
    } else {
        match word_in(chunks[i].0, chunks[i].1@, addr) {
            Some(w) => Some(w),
            None => first_word(chunks, addr, i + 1),
        }
    }
}

/// Whether some section contains `addr`.
pub open spec fn some_contains(chunks: Seq<Chunk>, addr: u64) -> bool {
    exists|i: int|
        0 <= i < chunks.len() && (#[trigger] chunks[i]).0 <= addr && addr - chunks[i].0
            < chunks[i].1@.len()
}

/// Readable sections of one artifact.
pub struct DataPeek {
    pub sections: Vec<Chunk>,
    pub code_sections: Vec<Chunk>,
}

impl DataPeek {
    /// The word at `addr`: of a data section, else of a code section (literal
    /// pools lie in code).
    pub open spec fn word(self, addr: u64) -> Option<u32> {
        match first_word(self.sections@, addr, 0) {
            Some(w) => Some(w),
            None => first_word(self.code_sections@, addr, 0),
        }
    }

    fn read(chunks: &Vec<Chunk>, addr: u64) -> (r: Option<u32>)
        ensures
            r == first_word(chunks@, addr, 0),
    {
        let mut i: usize = 0;
        while i < chunks.len()
            invariant
                i <= chunks@.len(),
                first_word(chunks@, addr, 0) == first_word(chunks@, addr, i as int),
            decreases chunks@.len() - i,
        {
            let base: u64 = chunks[i].0;
            let bytes = &chunks[i].1;
            let len: usize = bytes.len();
            if len >= 4 && addr >= base && addr - base <= (len - 4) as u64 {
                let off: usize = (addr - base) as usize;
                let w: u32 = bytes[off] as u32 + 256 * (bytes[off + 1] as u32) + 65536 * (
                bytes[off + 2] as u32) + 16777216 * (bytes[off + 3] as u32);
                return Some(w);
            }
            i += 1;
        }
        None
    }

    /// The little-endian word at `addr`, if a section holds it.
    pub fn peek_u32_le(&self, addr: u64) -> (r: Option<u32>)
        ensures
            r == self.word(addr),
    {
        match DataPeek::read(&self.sections, addr) {
            Some(w) => Some(w),
            None => DataPeek::read(&self.code_sections, addr),
        }
    }

    /// Whether a data section contains `addr`.
    pub fn holds(&self, addr: u64) -> (r: bool)
        ensures
            r == some_contains(self.sections@, addr),
    {
        let mut i: usize = 0;
        while i < self.sections.len()
            invariant
                i <= self.sections@.len(),
                forall|k: int|
                    0 <= k < i ==> !((#[trigger] self.sections@[k]).0 <= addr && addr
                        - self.sections@[k].0 < self.sections@[k].1@.len()),
            decreases self.sections@.len() - i,
        {
            let base: u64 = self.sections[i].0;
            let len: usize = self.sections[i].1.len();
            if base <= addr && addr - base < len as u64 {
                return true;
            }
            i += 1;
        }
        false
    }
}

/// Key of a section: its artifact and its name.
pub type SectionKey = (ArtifactId, String);

/// Whether a data section can hold pointers: it has bytes on disk, is loaded,
/// and is not debug information.
pub open spec fn holds_pointers(d: DataSectionBytes) -> bool {
    d.kind != NativeSectionKind::Bss && d.kind != NativeSectionKind::Debug && d.base != 0
}

/// The pointer-holding sections of artifact `aid` among the first `n`.
pub open spec fn data_chunks(data: Seq<(SectionKey, DataSectionBytes)>, aid: Seq<u8>, n: int) -> Seq<
    Chunk,
>
    decreases n,
{
    if n <= 0 {
        Seq::empty()
    } else if data[n - 1].0.0@ == aid && holds_pointers(data[n - 1].1) {
        data_chunks(data, aid, n - 1).push((data[n - 1].1.base, data[n - 1].1.bytes))
    } else {
        data_chunks(data, aid, n - 1)
    }
}

/// The code sections of artifact `aid` among the first `n`.
pub open spec fn code_chunks(text: Seq<(SectionKey, TextSectionBytes)>, aid: Seq<u8>, n: int) -> Seq<
    Chunk,
>
    decreases n,
{
    if n <= 0 {
        Seq::empty()
    } else if text[n - 1].0.0@ == aid {
        code_chunks(text, aid, n - 1).push((text[n - 1].1.base, text[n - 1].1.bytes))
    } else {
        code_chunks(text, aid, n - 1)
    }
}

/// The readable sections of one artifact.
fn build_peek(
    aid: &ArtifactId,
    text: &Table<SectionKey, TextSectionBytes>,
    data: &Table<SectionKey, DataSectionBytes>,
) -> (r: DataPeek)
    ensures
        r.sections@ == data_chunks(data.listed(), aid@, data.listed().len() as int),
        r.code_sections@ == code_chunks(text.listed(), aid@, text.listed().len() as int),
{
    let mut sections: Vec<Chunk> = Vec::new();
    let n: usize = data.len();
    let mut i: usize = 0;
    while i < n
        invariant
            n == data.listed().len(),
            i <= n,
            sections@ == data_chunks(data.listed(), aid@, i as int),
        decreases n - i,
    {
        let (key, d) = data.entry(i);
        if key.0.same(aid) && d.kind != NativeSectionKind::Bss && d.kind != NativeSectionKind::Debug
            && d.base != 0 {
            sections.push((d.base, Arc::clone(&d.bytes)));
        }
        i += 1;
    }
    let mut code_sections: Vec<Chunk> = Vec::new();
    let m: usize = text.len();
    let mut j: usize = 0;
    while j < m
        invariant
            m == text.listed().len(),
            j <= m,
            code_sections@ == code_chunks(text.listed(), aid@, j as int),
        decreases m - j,
    {
        let (key, t) = text.entry(j);
        if key.0.same(aid) {
            code_sections.push((t.base, Arc::clone(&t.bytes)));
        }
        j += 1;
    }
    DataPeek { sections, code_sections }
}

// ---- references ------------------------------------------------------------

/// One reference: the address referred to, and the instruction that does.
pub ghost struct NativeRef {
    pub target: u64,
    pub site: u64,
}

/// Zero or one reference.
pub open spec fn maybe_ref(target: Option<u64>, site: u64) -> Seq<NativeRef> {
    match target {
        Some(target) => seq![NativeRef { target, site }],
        None => Seq::empty(),
    }
}

/// `addr` without the Thumb mode bit.
pub open spec fn without_mode_bit(addr: u64) -> u64 {
    addr & !1u64
}

/// The pointer in the literal-pool word at `pool`, if it leads into a data
/// section.
pub open spec fn pool_pointer(peek: DataPeek, pool: u64) -> Option<u64> {
    match peek.word(pool) {
        Some(w) => if w != 0 && some_contains(peek.sections@, w as u64) {
            Some(w as u64)
        } else {
            None
        },
        None => None,
    }
}

/// The references of a precomputed instruction: its branch target, the address
/// it completes, the pool word it loads, and what that word points to.
pub open spec fn refs_of_insn(d: DecodedInsn, peek: DataPeek) -> Seq<NativeRef> {
    let branch = match d.branch_target {
        Some(t) => maybe_ref(Some(without_mode_bit(t)), d.address),
        None => Seq::empty(),
    };
    let pool = match d.pcrel_target {
        Some(p) => maybe_ref(Some(p), d.address) + maybe_ref(pool_pointer(peek, p), d.address),
        None => Seq::empty(),
    };
    branch + maybe_ref(d.fused_target, d.address) + pool
}

/// The references of a decoded word: its address operand and the address it
/// completes.
pub open spec fn refs_of_word(w: Option<WordInsn>, site: u64) -> Seq<NativeRef> {
    match w {
        Some(insn) => maybe_ref(insn.address_operand, site) + maybe_ref(insn.fused_target, site),
        None => Seq::empty(),
    }
}

/// The decoded word of instruction `i`, none where the list is shorter.
pub open spec fn word_of(words: Seq<Option<WordInsn>>, i: int) -> Option<WordInsn> {
    if 0 <= i < words.len() {
        words[i]
    } else {
        None
    }
}

/// The references of the first `n` instructions of a section.
pub open spec fn refs_in_section(
    t: TextSectionBytes,
    words: Seq<Option<WordInsn>>,
    peek: DataPeek,
    n: int,
) -> Seq<NativeRef>
    decreases n,
{
    if n <= 0 {
        Seq::empty()
    } else {
        refs_in_section(t, words, peek, n - 1) + match t.precomputed {
            Some(p) => refs_of_insn(p@[n - 1], peek),
            None => refs_of_word(word_of(words, n - 1), t.insn_addr(n - 1) as u64),
        }
    }
}

/// The decoded words of a section; none where it has no entry.
pub open spec fn words_for(
    decoded: Map<(Seq<u8>, Seq<char>), Arc<Vec<Option<WordInsn>>>>,
    key: SectionKey,
) -> Seq<Option<WordInsn>> {
    if decoded.contains_key((key.0@, key.1@)) {
        decoded[(key.0@, key.1@)]@
    } else {
        Seq::empty()
    }
}

/// The references from artifact `aid` in the first `n` sections.
pub open spec fn refs_upto(
    text: Seq<(SectionKey, TextSectionBytes)>,
    decoded: Map<(Seq<u8>, Seq<char>), Arc<Vec<Option<WordInsn>>>>,
    peek: DataPeek,
    aid: Seq<u8>,
    n: int,
) -> Seq<NativeRef>
    decreases n,
{
    if n <= 0 {
        Seq::empty()
    } else if text[n - 1].0.0@ == aid {
        refs_upto(text, decoded, peek, aid, n - 1) + refs_in_section(
            text[n - 1].1,
            words_for(decoded, text[n - 1].0),
            peek,
            text[n - 1].1.insn_count(),
        )
    } else {
        refs_upto(text, decoded, peek, aid, n - 1)
    }
}

/// `m` maps each address referred to to the referring addresses, each once and
/// in ascending order.
pub open spec fn indexes_refs(m: Map<u64, Vec<u64>>, refs: Seq<NativeRef>) -> bool {
    &&& forall|t: u64| #[trigger]
        m.contains_key(t) <==> exists|i: int| 0 <= i < refs.len() && (#[trigger] refs[i]).target == t
    &&& forall|t: u64| #[trigger]
        m.contains_key(t) ==> ascending::<u64>(m[t]@) && forall|s: u64| #[trigger]
            m[t]@.contains(s) <==> exists|i: int|
                0 <= i < refs.len() && (#[trigger] refs[i]).target == t && refs[i].site == s
}

/// How many instructions the first `n` sections hold.
pub open spec fn insns_upto(text: Seq<(SectionKey, TextSectionBytes)>, n: int) -> int
    decreases n,
{
    if n <= 0 {
        0
    } else {
        insns_upto(text, n - 1) + text[n - 1].1.insn_count()
    }
}

/// References collected so far, as two lists in step.
struct Refs {
    targets: Vec<u64>,
    sites: Vec<u64>,
}

impl View for Refs {
    type V = Seq<NativeRef>;

    closed spec fn view(&self) -> Seq<NativeRef> {
        Seq::new(
            self.targets@.len(),
            |i: int| NativeRef { target: self.targets@[i], site: self.sites@[i] },
        )
    }
}

impl Refs {
    spec fn wf(&self) -> bool {
        self.targets@.len() == self.sites@.len()
    }

    fn add_ref(&mut self, target: Option<u64>, site: u64)
        requires
            old(self).wf(),
        ensures
            final(self).wf(),
            final(self)@ == old(self)@ + maybe_ref(target, site),
    {
        match target {
            Some(t) => {
                self.targets.push(t);
                self.sites.push(site);
            },
            None => {},
        }
        assert(self@ =~= old(self)@ + maybe_ref(target, site));
    }
}

/// Appends the references of a precomputed instruction.
fn scan_insn(d: DecodedInsn, peek: &DataPeek, out: &mut Refs)
    requires
        old(out).wf(),
    ensures
        final(out).wf(),
        final(out)@ == old(out)@ + refs_of_insn(d, *peek),
{
    match d.branch_target {
        Some(b) => out.add_ref(Some(b & !1u64), d.address),
        None => {},
    }
    out.add_ref(d.fused_target, d.address);
    match d.pcrel_target {
        Some(pool) => {
            out.add_ref(Some(pool), d.address);
            let pointer: Option<u64> = match peek.peek_u32_le(pool) {
                Some(w) => if w != 0 && peek.holds(w as u64) {
                    Some(w as u64)
                } else {
                    None
                },
                None => None,
            };
            out.add_ref(pointer, d.address);
        },
        None => {},
    }
    assert(out@ =~= old(out)@ + refs_of_insn(d, *peek));
}

/// Appends the references of a decoded word.
fn scan_word(w: &Option<WordInsn>, site: u64, out: &mut Refs)
    requires
        old(out).wf(),
    ensures
        final(out).wf(),
        final(out)@ == old(out)@ + refs_of_word(*w, site),
{
    match w {
        Some(insn) => {
            out.add_ref(insn.address_operand, site);
            out.add_ref(insn.fused_target, site);
        },
        None => {},
    }
    assert(out@ =~= old(out)@ + refs_of_word(*w, site));
}

/// Appends the references of the instructions `from..to` of a section.
fn scan_run(
    t: &TextSectionBytes,
    words: Option<&Arc<Vec<Option<WordInsn>>>>,
    peek: &DataPeek,
    from: usize,
    to: usize,
    out: &mut Refs,
    Ghost(start): Ghost<Seq<NativeRef>>,
)
    requires
        old(out).wf(),
        t.walkable(),
        from <= to <= t.insn_count(),
        old(out)@ == start + refs_in_section(*t, listed_words(words), *peek, from as int),
    ensures
        final(out).wf(),
        final(out)@ == start + refs_in_section(*t, listed_words(words), *peek, to as int),
{
    let ghost wv = listed_words(words);
    let mut i: usize = from;
    while i < to
        invariant
            t.walkable(),
            to <= t.insn_count(),
            from <= i <= to,
            out.wf(),
            wv == listed_words(words),
            out@ == start + refs_in_section(*t, wv, *peek, i as int),
        decreases to - i,
    {
        match &t.precomputed {
            Some(p) => {
                scan_insn(p[i], peek, out);
            },
            None => {
                let site: u64 = t.addr_of(i);
                match words {
                    Some(list) => {
                        if i < list.len() {
                            scan_word(&list[i], site, out);
                        } else {
                            assert(out@ =~= out@ + Seq::empty());
                        }
                    },
                    None => {
                        assert(out@ =~= out@ + Seq::empty());
                    },
                }
            },
        }
        assert(out@ =~= start + refs_in_section(*t, wv, *peek, i + 1));
        i += 1;
    }
}

/// The decoded words handed to a scan.
spec fn listed_words(words: Option<&Arc<Vec<Option<WordInsn>>>>) -> Seq<Option<WordInsn>> {
    match words {
        Some(w) => w@,
        None => Seq::empty(),
    }
}

/// Groups references by target.
fn index_refs(refs: &Refs) -> (r: NativeXrefMap)
    requires
        refs.wf(),
    ensures
        indexes_refs(r@, refs@),
{
    let ghost tv = refs.targets@;
    assert(views(tv) =~= tv);
    let groups = grouped(&refs.targets);
    let total: usize = refs.targets.len();
    let n: usize = groups.len();
    let ghost gk = keys(groups.listed());
    let mut out: NativeXrefMap = HashMap::new();
    let mut e: usize = 0;
    while e < n
        invariant
            refs.wf(),
            tv == refs.targets@,
            total == tv.len(),
            n == groups.listed().len(),
            gk == keys(groups.listed()),
            groups@ == as_map(groups.listed()),
            forall|k: u64| #[trigger] groups@.contains_key(k) <==> tv.contains(k),
            forall|k: u64| #[trigger] groups@.contains_key(k) ==> lists_places(groups@[k]@, tv, k),
            e <= n,
            forall|k: u64| #[trigger] out@.contains_key(k) <==> gk.take(e as int).contains(k),
            forall|t: u64| #[trigger]
                out@.contains_key(t) ==> ascending::<u64>(out@[t]@) && forall|s: u64| #[trigger]
                    out@[t]@.contains(s) <==> exists|i: int|
                        0 <= i < refs@.len() && (#[trigger] refs@[i]).target == t && refs@[i].site
                            == s,
        decreases n - e,
    {
        let (key, places) = groups.entry(e);
        let k0: u64 = *key;
        let mut sites: Vec<u64> = Vec::new();
        let mut a: usize = 0;
        while a < places.len()
            invariant
                refs.wf(),
                tv == refs.targets@,
                lists_places(places@, tv, k0),
                a <= places@.len(),
                sites@.len() == a,
                forall|b: int|
                    0 <= b < a ==> #[trigger] sites@[b] == refs.sites@[places@[b] as int],
            decreases places@.len() - a,
        {
            proof {
                assert(places@.contains(places@[a as int]));
            }
            sites.push(refs.sites[places[a]]);
            a += 1;
        }
        let list = sort_dedup(&sites);
        proof {
            assert(views(list@) =~= list@);
            assert(views(sites@) =~= sites@);
            assert forall|s: u64| #[trigger] list@.contains(s) <==> exists|i: int|
                0 <= i < refs@.len() && (#[trigger] refs@[i]).target == k0 && refs@[i].site == s by {
                assert(list@.contains(s) <==> sites@.contains(s));
                if sites@.contains(s) {
                    let b = choose|b: int| 0 <= b < sites@.len() && sites@[b] == s;
                    let i = places@[b];
                    assert(places@.contains(i));
                    assert(refs@[i as int].target == k0 && refs@[i as int].site == s);
                }
                if exists|i: int|
                    0 <= i < refs@.len() && (#[trigger] refs@[i]).target == k0 && refs@[i].site
                        == s {
                    let i = choose|i: int|
                        0 <= i < refs@.len() && (#[trigger] refs@[i]).target == k0 && refs@[i].site
                            == s;
                    assert(places@.contains(i as usize));
                    let b = choose|b: int| 0 <= b < places@.len() && places@[b] == i as usize;
                    assert(sites@[b] == s);
                }
            }
        }
        out.insert(k0, list);
        proof {
            assert(gk[e as int] == k0);
            let a = gk.take(e as int);
            let b = gk.take(e + 1);
            assert(b =~= a.push(k0));
            assert forall|k: u64| #[trigger] out@.contains_key(k) <==> b.contains(k) by {
                if b.contains(k) && k != k0 {
                    let q = choose|q: int| 0 <= q < b.len() && b[q] == k;
                    assert(a[q] == k);
                }
                if a.contains(k) {
                    let q = choose|q: int| 0 <= q < a.len() && a[q] == k;
                    assert(b[q] == k);
                }
                assert(b[e as int] == k0);
            }
        }
        e += 1;
    }
    proof {
        assert(gk.take(n as int) =~= gk);
        assert forall|t: u64| #[trigger] out@.contains_key(t) <==> exists|i: int|
            0 <= i < refs@.len() && (#[trigger] refs@[i]).target == t by {
            if out@.contains_key(t) {
                assert(groups@.contains_key(t));
                let q = choose|q: int| 0 <= q < tv.len() && tv[q] == t;
                assert(refs@[q].target == t);
            }
            if exists|i: int| 0 <= i < refs@.len() && (#[trigger] refs@[i]).target == t {
                let i = choose|i: int| 0 <= i < refs@.len() && (#[trigger] refs@[i]).target == t;
                assert(tv[i] == t);
                assert(groups@.contains_key(t));
            }
        }
    }
    out
}

/// What artifact `aid` refers to, with all its readable sections in `peek`.
pub open spec fn artifact_refs(
    text: Seq<(SectionKey, TextSectionBytes)>,
    data: Seq<(SectionKey, DataSectionBytes)>,
    decoded: Map<(Seq<u8>, Seq<char>), Arc<Vec<Option<WordInsn>>>>,
    peek: DataPeek,
    aid: Seq<u8>,
) -> Seq<NativeRef>
    recommends
        reads_artifact(peek, text, data, aid),
{
    refs_upto(text, decoded, peek, aid, text.len() as int)
}

/// `peek` holds the readable sections of artifact `aid`.
pub open spec fn reads_artifact(
    peek: DataPeek,
    text: Seq<(SectionKey, TextSectionBytes)>,
    data: Seq<(SectionKey, DataSectionBytes)>,
    aid: Seq<u8>,
) -> bool {
    &&& peek.sections@ == data_chunks(data, aid, data.len() as int)
    &&& peek.code_sections@ == code_chunks(text, aid, text.len() as int)
}

/// Whether an artifact has a code section among the first `n`.
pub open spec fn has_code(text: Seq<(SectionKey, TextSectionBytes)>, aid: Seq<u8>, n: int) -> bool {
    exists|e: int| 0 <= e < n && (#[trigger] text[e]).0.0@ == aid
}

/// The reference map of artifact `aid`, given all sections.
pub open spec fn maps_artifact(
    m: Map<u64, Vec<u64>>,
    text: Seq<(SectionKey, TextSectionBytes)>,
    data: Seq<(SectionKey, DataSectionBytes)>,
    decoded: Map<(Seq<u8>, Seq<char>), Arc<Vec<Option<WordInsn>>>>,
    aid: Seq<u8>,
) -> bool {
    exists|peek: DataPeek| #[trigger]
        reads_artifact(peek, text, data, aid) && indexes_refs(
            m,
            artifact_refs(text, data, decoded, peek, aid),
        )
}

/// `m` holds, for every artifact with code, where each address is referred to
/// from.
pub open spec fn indexes_natives(
    m: Map<Seq<u8>, NativeXrefMap>,
    text: Seq<(SectionKey, TextSectionBytes)>,
    data: Seq<(SectionKey, DataSectionBytes)>,
    decoded: Map<(Seq<u8>, Seq<char>), Arc<Vec<Option<WordInsn>>>>,
) -> bool {
    &&& forall|aid: Seq<u8>| #[trigger]
        m.contains_key(aid) <==> has_code(text, aid, text.len() as int)
    &&& forall|aid: Seq<u8>| #[trigger]
        m.contains_key(aid) ==> maps_artifact(m[aid]@, text, data, decoded, aid)
}

/// Every instruction has an address, and the instructions can be counted.
pub open spec fn scannable(text: Seq<(SectionKey, TextSectionBytes)>) -> bool {
    &&& forall|e: int| 0 <= e < text.len() ==> (#[trigger] text[e]).1.walkable()
    &&& insns_upto(text, text.len() as int) <= usize::MAX
}

/// Where a scan stands: in section `section`, before instruction `insn`.
pub ghost struct ScanPlace {
    pub section: int,
    pub insn: int,
}

impl ScanPlace {
    /// Where the next report comes: 1024 instructions further on, or at the end
    /// of the section.
    pub open spec fn next(self, text: Seq<(SectionKey, TextSectionBytes)>) -> ScanPlace {
        if self.insn + 1024 < text[self.section].1.insn_count() {
            ScanPlace { section: self.section, insn: self.insn + 1024 }
        } else {
            ScanPlace { section: self.section + 1, insn: 0 }
        }
    }

    /// How many instructions lie before the place.
    pub open spec fn counted(self, text: Seq<(SectionKey, TextSectionBytes)>) -> int {
        insns_upto(text, self.section) + self.insn
    }

    /// The place lies before an instruction, or between two sections.
    pub open spec fn lies_in(self, text: Seq<(SectionKey, TextSectionBytes)>) -> bool {
        &&& 0 <= self.section <= text.len()
        &&& self.insn == 0 || (self.section < text.len() && 0 < self.insn
            < text[self.section].1.insn_count())
    }
}

/// A scan moves on with every report, by at most 1024 instructions.
pub proof fn law_native_scans_report_as_they_go(
    text: Seq<(SectionKey, TextSectionBytes)>,
    at: ScanPlace,
)
    requires
        at.lies_in(text),
        at.section < text.len(),
    ensures
        at.next(text).lies_in(text),
        at.counted(text) <= at.next(text).counted(text) <= at.counted(text) + 1024,
        at.next(text).counted(text) <= insns_upto(text, text.len() as int),
        at.next(text).section == text.len() ==> at.next(text).counted(text) == insns_upto(
            text,
            text.len() as int,
        ),
{
    lemma_insns_monotonic(text, at.section + 1, text.len() as int);
}

/// The sections of an artifact stand together.
proof fn lemma_sections_together(
    text: Seq<(SectionKey, TextSectionBytes)>,
    a: int,
    b: int,
    c: int,
)
    requires
        ascending::<SectionKey>(keys(text)),
        0 <= a <= b <= c < text.len(),
        text[a].0.0@ == text[c].0.0@,
    ensures
        text[b].0.0@ == text[a].0.0@,
{
    let k = keys(text);
    if a < b && b < c {
        assert(<SectionKey as Rank>::before(k[a], k[b]));
        assert(<SectionKey as Rank>::before(k[b], k[c]));
        let x = text[a].0.0@;
        let y = text[b].0.0@;
        assert(k[a].0 == x && k[b].0 == y && k[c].0 == x);
        if x != y {
            <ArtifactId as Rank>::transitive(x, y, x);
            <ArtifactId as Rank>::irreflexive(x);
        }
    }
}

/// Sections of other artifacts add nothing.
proof fn lemma_refs_unchanged(
    text: Seq<(SectionKey, TextSectionBytes)>,
    decoded: Map<(Seq<u8>, Seq<char>), Arc<Vec<Option<WordInsn>>>>,
    peek: DataPeek,
    aid: Seq<u8>,
    a: int,
    b: int,
)
    requires
        0 <= a <= b <= text.len(),
        forall|q: int| a <= q < b ==> (#[trigger] text[q]).0.0@ != aid,
    ensures
        refs_upto(text, decoded, peek, aid, b) == refs_upto(text, decoded, peek, aid, a),
    decreases b - a,
{
    if a < b {
        lemma_refs_unchanged(text, decoded, peek, aid, a, b - 1);
    }
}

/// A scan of the code sections of a bundle, run from one report to the next.
pub struct NativeScan<'a> {
    text: &'a Table<SectionKey, TextSectionBytes>,
    data: &'a Table<SectionKey, DataSectionBytes>,
    decoded: &'a Table<SectionKey, Arc<Vec<Option<WordInsn>>>>,
    /// The artifacts before the current one.
    out: NativeXrefs,
    current: Option<ArtifactId>,
    /// What the current artifact refers to so far.
    refs: Refs,
    peek: DataPeek,
    section: usize,
    insn: usize,
    processed: usize,
}

impl<'a> NativeScan<'a> {
    /// The code sections.
    pub closed spec fn code(&self) -> Seq<(SectionKey, TextSectionBytes)> {
        self.text.listed()
    }

    /// The data sections.
    pub closed spec fn readable(&self) -> Seq<(SectionKey, DataSectionBytes)> {
        self.data.listed()
    }

    /// The decoded words of the code sections.
    pub closed spec fn words(&self) -> Map<(Seq<u8>, Seq<char>), Arc<Vec<Option<WordInsn>>>> {
        self.decoded@
    }

    /// Where the scan stands.
    pub closed spec fn place(&self) -> ScanPlace {
        ScanPlace { section: self.section as int, insn: self.insn as int }
    }

    /// The scan runs over the same sections.
    pub open spec fn same_bundle(&self, other: &NativeScan<'a>) -> bool {
        &&& self.code() == other.code()
        &&& self.readable() == other.readable()
        &&& self.words() == other.words()
    }

    /// The finished artifacts are those met so far but for `a`.
    spec fn finished_but(&self, a: Seq<u8>) -> bool {
        &&& forall|aid: Seq<u8>| #[trigger]
            self.out@.contains_key(aid) <==> has_code(self.code(), aid, self.section as int) && aid
                != a
        &&& forall|aid: Seq<u8>| #[trigger]
            self.out@.contains_key(aid) ==> maps_artifact(
                self.out@[aid]@,
                self.code(),
                self.readable(),
                self.words(),
                aid,
            )
    }

    /// What the current artifact refers to in the sections before this one.
    spec fn refs_before(&self, a: Seq<u8>) -> Seq<NativeRef> {
        refs_upto(self.code(), self.words(), self.peek, a, self.section as int)
    }

    /// What it refers to in the scanned part of this section.
    spec fn refs_here(&self) -> Seq<NativeRef> {
        refs_in_section(
            self.code()[self.section as int].1,
            words_for(self.words(), self.code()[self.section as int].0),
            self.peek,
            self.insn as int,
        )
    }

    spec fn bounds(&self) -> bool {
        &&& scannable(self.code())
        &&& ascending::<SectionKey>(keys(self.code()))
        &&& self.place().lies_in(self.code())
        &&& self.processed == self.place().counted(self.code())
        &&& self.refs.wf()
    }

    /// The references of the scanned instructions are collected.
    pub closed spec fn wf(&self) -> bool {
        &&& self.bounds()
        &&& match self.current {
            None => self.section == 0 && self.insn == 0 && self.out@ == Map::<
                Seq<u8>,
                NativeXrefMap,
            >::empty(),
            Some(a) => {
                &&& if self.insn > 0 {
                    self.code()[self.section as int].0.0@ == a@
                } else {
                    self.section > 0 && self.code()[self.section - 1].0.0@ == a@
                }
                &&& self.finished_but(a@)
                &&& reads_artifact(self.peek, self.code(), self.readable(), a@)
                &&& self.refs@ == self.refs_before(a@) + if self.insn > 0 {
                    self.refs_here()
                } else {
                    Seq::empty()
                }
            },
        }
    }

    /// Nothing is scanned yet.
    pub fn start(
        text: &'a Table<SectionKey, TextSectionBytes>,
        data: &'a Table<SectionKey, DataSectionBytes>,
        decoded: &'a Table<SectionKey, Arc<Vec<Option<WordInsn>>>>,
    ) -> (r: NativeScan<'a>)
        requires
            scannable(text.listed()),
        ensures
            r.wf(),
            r.code() == text.listed(),
            r.readable() == data.listed(),
            r.words() == decoded@,
            r.place() == (ScanPlace { section: 0, insn: 0 }),
    {
        let sections: usize = text.len();
        NativeScan {
            text,
            data,
            decoded,
            out: Table::new(),
            current: None,
            refs: Refs { targets: Vec::new(), sites: Vec::new() },
            peek: DataPeek { sections: Vec::new(), code_sections: Vec::new() },
            section: 0,
            insn: 0,
            processed: 0,
        }
    }

    /// Whether all sections are scanned.
    pub fn is_done(&self) -> (r: bool)
        requires
            self.wf(),
        ensures
            r == (self.place().section == self.code().len()),
    {
        self.section == self.text.len()
    }

    /// Indexes the current artifact. No section from here on is its.
    fn close_artifact(&mut self, a: ArtifactId)
        requires
            old(self).wf(),
            old(self).current == Some(a),
            old(self).insn == 0,
            forall|q: int|
                old(self).section <= q < old(self).code().len() ==> (
                #[trigger] old(self).code()[q]).0.0@ != a@,
        ensures
            final(self).same_bundle(old(self)),
            final(self).bounds(),
            final(self).place() == old(self).place(),
            final(self).current == old(self).current,
            forall|aid: Seq<u8>| #[trigger]
                final(self).out@.contains_key(aid) <==> has_code(
                    final(self).code(),
                    aid,
                    final(self).section as int,
                ),
            forall|aid: Seq<u8>| #[trigger]
                final(self).out@.contains_key(aid) ==> maps_artifact(
                    final(self).out@[aid]@,
                    final(self).code(),
                    final(self).readable(),
                    final(self).words(),
                    aid,
                ),
    {
        let ghost tl = self.code();
        proof {
            lemma_refs_unchanged(
                tl,
                self.words(),
                self.peek,
                a@,
                self.section as int,
                tl.len() as int,
            );
            assert(self.refs@ =~= artifact_refs(
                tl,
                self.readable(),
                self.words(),
                self.peek,
                a@,
            ));
            assert(tl[self.section - 1].0.0@ == a@);
        }
        let map = index_refs(&self.refs);
        assert(maps_artifact(map@, tl, self.readable(), self.words(), a@));
        self.out.insert(a, map);
    }

    /// Begins section `self.section`, of artifact `aid`.
    fn open_section(&mut self, aid: ArtifactId)
        requires
            old(self).wf(),
            old(self).insn == 0,
            old(self).section < old(self).code().len(),
            old(self).code()[old(self).section as int].0.0@ == aid@,
        ensures
            final(self).same_bundle(old(self)),
            final(self).bounds(),
            final(self).place() == old(self).place(),
            final(self).current is Some,
            final(self).current->0@ == aid@,
            final(self).finished_but(aid@),
            reads_artifact(final(self).peek, final(self).code(), final(self).readable(), aid@),
            final(self).refs@ == final(self).refs_before(aid@),
    {
        let ghost tl = self.code();
        let ghost e = self.section as int;
        match self.current {
            Some(a) => {
                if a.same(&aid) {
                    assert(self.refs@ =~= self.refs_before(a@));
                    return;
                }
                proof {
                    assert forall|q: int| e <= q < tl.len() implies (#[trigger] tl[q]).0.0@ != a@ by {
                        if tl[q].0.0@ == a@ {
                            lemma_sections_together(tl, e - 1, e, q);
                        }
                    }
                }
                self.close_artifact(a);
            },
            None => {},
        }
        proof {
            assert forall|q: int| 0 <= q < e implies (#[trigger] tl[q]).0.0@ != aid@ by {
                if tl[q].0.0@ == aid@ {
                    lemma_sections_together(tl, q, e - 1, e);
                }
            }
        }
        self.current = Some(aid);
        self.refs = Refs { targets: Vec::new(), sites: Vec::new() };
        self.peek = build_peek(&aid, self.text, self.data);
        proof {
            lemma_refs_unchanged(tl, self.words(), self.peek, aid@, 0, e);
            assert(self.refs@ =~= self.refs_before(aid@));
        }
    }

    /// Scans up to the next report and reports the instructions scanned so far.
    #[verifier::rlimit(60)]
    pub fn step(&mut self, progress: &mut XrefProgress)
        requires
            old(self).wf(),
            old(self).place().section < old(self).code().len(),
        ensures
            final(self).wf(),
            final(self).same_bundle(old(self)),
            final(self).place() == old(self).place().next(old(self).code()),
            final(progress).current == final(self).place().counted(old(self).code()),
            final(progress).label == old(progress).label,
            final(progress).total == old(progress).total,
    {
        let ghost tl = self.code();
        let ghost e = self.section as int;
        let text = self.text;
        let decoded = self.decoded;
        let sections: usize = text.len();
        let (key, t) = text.entry(self.section);
        proof {
            law_native_scans_report_as_they_go(tl, self.place());
            assert(tl[e].1.walkable());
        }
        if self.insn == 0 {
            self.open_section(key.0);
        }
        let ghost a = self.current->0@;
        let ghost before = self.refs_before(a);
        let n: usize = t.instruction_count();
        let from: usize = self.insn;
        let to: usize = if n - from > 1024 {
            from + 1024
        } else {
            n
        };
        let words = decoded.get(key);
        proof {
            assert(listed_words(words) == words_for(self.words(), *key));
            if from == 0 {
                assert(self.refs@ =~= before + refs_in_section(
                    *t,
                    listed_words(words),
                    self.peek,
                    0,
                ));
            }
        }
        scan_run(t, words, &self.peek, from, to, &mut self.refs, Ghost(before));
        self.processed = self.processed + (to - from);
        if to < n {
            self.insn = to;
        } else {
            self.insn = 0;
            self.section = self.section + 1;
            proof {
                assert(self.refs@ =~= self.refs_before(a) + Seq::empty());
                assert forall|aid: Seq<u8>| #[trigger] self.out@.contains_key(aid) <==> has_code(
                    tl,
                    aid,
                    e + 1,
                ) && aid != a by {
                    if has_code(tl, aid, e + 1) && aid != a {
                        let q = choose|q: int| 0 <= q < e + 1 && (#[trigger] tl[q]).0.0@ == aid;
                        assert(q < e);
                    }
                    if has_code(tl, aid, e) {
                        let q = choose|q: int| 0 <= q < e && (#[trigger] tl[q]).0.0@ == aid;
                        assert(tl[q].0.0@ == aid);
                    }
                }
            }
        }
        progress.current = self.processed;
    }

    /// The index of the references found.
    pub fn finish(self) -> (r: NativeXrefs)
        requires
            self.wf(),
            self.place().section == self.code().len(),
        ensures
            indexes_natives(r@, self.code(), self.readable(), self.words()),
    {
        let mut scan = self;
        match scan.current {
            Some(a) => {
                scan.close_artifact(a);
            },
            None => {},
        }
        scan.out
    }
}

/// For every artifact with code, where each address is referred to from.
/// Reports the instructions scanned; without a section there is nothing to
/// report.
pub fn build_native_xrefs(
    text_sections: &Table<SectionKey, TextSectionBytes>,
    data_sections: &Table<SectionKey, DataSectionBytes>,
    decoded: &Table<SectionKey, Arc<Vec<Option<WordInsn>>>>,
    progress: &mut XrefProgress,
) -> (r: NativeXrefs)
    requires
        scannable(text_sections.listed()),
    ensures
        indexes_natives(r@, text_sections.listed(), data_sections.listed(), decoded@),
        final(progress).current == if text_sections.listed().len() > 0 {
            insns_upto(text_sections.listed(), text_sections.listed().len() as int)
        } else {
            old(progress).current as int
        },
        final(progress).label == old(progress).label,
        final(progress).total == old(progress).total,
{
    let ghost tl = text_sections.listed();
    let mut scan = NativeScan::start(text_sections, data_sections, decoded);
    while !scan.is_done()
        invariant
            scan.wf(),
            tl == text_sections.listed(),
            scan.code() == tl,
            scan.readable() == data_sections.listed(),
            scan.words() == decoded@,
            scan.place().lies_in(tl),
            progress.current == if scan.place().section > 0 || scan.place().insn > 0 {
                scan.place().counted(tl)
            } else {
                old(progress).current as int
            },
            progress.label == old(progress).label,
            progress.total == old(progress).total,
        decreases tl.len() - scan.place().section, usize::MAX - scan.place().insn,
    {
        proof {
            law_native_scans_report_as_they_go(tl, scan.place());
        }
        scan.step(progress);
    }
    scan.finish()
}

proof fn lemma_insns_monotonic(text: Seq<(SectionKey, TextSectionBytes)>, a: int, b: int)
    requires
        0 <= a <= b <= text.len(),
    ensures
        insns_upto(text, a) <= insns_upto(text, b),
    decreases b - a,
{
    if a < b {
        lemma_insns_monotonic(text, a, b - 1);
    }
}

// ---- laws ------------------------------------------------------------------

/// Every reference of a section comes from one of its instructions.
pub proof fn law_sites_are_instructions(
    t: TextSectionBytes,
    words: Seq<Option<WordInsn>>,
    peek: DataPeek,
    n: int,
    k: int,
)
    requires
        0 <= n <= t.insn_count(),
        t.walkable(),
        0 <= k < refs_in_section(t, words, peek, n).len(),
    ensures
        exists|i: int|
            0 <= i < n && #[trigger] t.insn_addr(i) == refs_in_section(t, words, peek, n)[k].site,
    decreases n,
{
    let before = refs_in_section(t, words, peek, n - 1);
    if k < before.len() {
        law_sites_are_instructions(t, words, peek, n - 1, k);
        let i = choose|i: int| 0 <= i < n - 1 && #[trigger] t.insn_addr(i) == before[k].site;
        assert(0 <= i < n && t.insn_addr(i) == refs_in_section(t, words, peek, n)[k].site);
    } else {
        assert(t.insn_addr(n - 1) == refs_in_section(t, words, peek, n)[k].site);
    }
}

/// Branch targets are recorded without the mode bit.
pub proof fn law_branch_targets_are_even(d: DecodedInsn, peek: DataPeek)
    requires
        d.branch_target is Some,
    ensures
        refs_of_insn(d, peek)[0].target == without_mode_bit(d.branch_target->0),
        refs_of_insn(d, peek)[0].target % 2 == 0,
        refs_of_insn(d, peek)[0].target == d.branch_target->0 || refs_of_insn(d, peek)[0].target + 1
            == d.branch_target->0,
{
    let t = d.branch_target->0;
    assert((t & !1u64) % 2 == 0) by (bit_vector);
    assert((t & !1u64) == t || (t & !1u64) + 1 == t) by (bit_vector);
}

} // verus!
