//! The search palette: its state, and what keys and clicks do to it.
//!
//! The palette searches text or bytes. Its entries come from a scope or, without
//! one, from the index of the bundle; `indexed` below stands for what that index
//! holds for the current query. Completions for the instruction being typed come
//! from the assembler; `candidates` below stands for their templates.

use crate::bin_search::{
    all_scans, scans_fit, search_sections, BinMatch, BinSearchResult, SearchOutcome, SectionHits,
};
use crate::bundle::{backing_leaf, LoadedBundle};
use crate::digits::{address_of, parse_address};
use crate::ids::ArtifactId;
use crate::leaf::{LeafId, LeafKind, TabState};
use crate::search::{scoped_entries, shown_entries, SearchEntry, SearchJump};
use crate::sections::{Architecture, DataSectionBytes, TextSectionBytes};
use crate::table::Table;
use crate::text::{join2, owned, strings, substring, to_chars, trim_start, trimmed};
use crate::xref::{
    IndexPhase, PaletteScope, PaletteScopeSource, SectionKey, XrefProgress, XrefStore,
};
use std::sync::Arc;
use vstd::prelude::*;

verus! {

/// Milliseconds between two looks at the index that a scoped query waits for:
/// about thirty looks per second.
pub const SCOPE_POLL_MS: u64 = 33;

/// What the palette searches.
#[derive(Clone, Copy, Debug, PartialEq, Eq, Structural)]
pub enum PaletteMode {
    /// Symbols, classes, fields, methods and strings.
    Text,
    /// Bytes.
    Binary,
}

/// How a byte search is written.
#[derive(Clone, Copy, Debug, PartialEq, Eq, Structural)]
pub enum BinaryGrammar {
    /// Bytes and wildcards.
    Bytes,
    /// Instructions.
    Asm,
}

/// The state of the palette.
pub struct Palette {
    pub open: bool,
    pub focused: bool,
    pub mode: PaletteMode,
    pub query: String,
    pub selected: usize,
    /// Number of entries on show.
    pub list_len: usize,
    pub scope: Option<PaletteScope>,
    pub bin_query: String,
    pub bin_grammar: BinaryGrammar,
    pub bin_code_only: bool,
    pub bin_artifact: Option<ArtifactId>,
    pub bin_results: Option<BinSearchResult>,
    /// The section of every match on show.
    pub bin_sources: Vec<SectionKey>,
    pub bin_error: Option<String>,
    /// Templates of the instructions that complete the one being typed.
    pub asm_candidates: Vec<String>,
    pub asm_selected: usize,
    /// A rename or comment is being typed.
    pub annotating: bool,
}

/// A scope, over plain values.
pub ghost struct ScopeView {
    pub label: Seq<char>,
    pub entries: Seq<SearchEntry>,
    pub progress: Option<XrefProgress>,
    pub source: PaletteScopeSource,
}

impl View for PaletteScope {
    type V = ScopeView;

    open spec fn view(&self) -> ScopeView {
        ScopeView {
            label: self.label@,
            entries: self.entries@,
            progress: self.progress,
            source: self.source,
        }
    }
}

/// The state of the palette, over plain values.
#[verifier::ext_equal]
pub ghost struct PaletteView {
    pub open: bool,
    pub focused: bool,
    pub mode: PaletteMode,
    pub query: Seq<char>,
    pub selected: int,
    pub list_len: int,
    pub scope: Option<ScopeView>,
    pub bin_query: Seq<char>,
    pub bin_grammar: BinaryGrammar,
    pub bin_code_only: bool,
    pub bin_artifact: Option<ArtifactId>,
    pub bin_results: Option<BinSearchResult>,
    pub bin_sources: Seq<SectionKey>,
    pub bin_error: Option<Seq<char>>,
    pub asm_candidates: Seq<Seq<char>>,
    pub asm_selected: int,
    pub annotating: bool,
}

impl View for Palette {
    type V = PaletteView;

    open spec fn view(&self) -> PaletteView {
        PaletteView {
            open: self.open,
            focused: self.focused,
            mode: self.mode,
            query: self.query@,
            selected: self.selected as int,
            list_len: self.list_len as int,
            scope: match self.scope {
                Some(s) => Some(s@),
                None => None,
            },
            bin_query: self.bin_query@,
            bin_grammar: self.bin_grammar,
            bin_code_only: self.bin_code_only,
            bin_artifact: self.bin_artifact,
            bin_results: self.bin_results,
            bin_sources: self.bin_sources@,
            bin_error: match self.bin_error {
                Some(e) => Some(e@),
                None => None,
            },
            asm_candidates: strings(self.asm_candidates@),
            asm_selected: self.asm_selected as int,
            annotating: self.annotating,
        }
    }
}

/// What the palette asks its owner to do.
pub enum PaletteAction {
    Nothing,
    CommitAnnotation,
    RunSearch,
    OpenListing { artifact: ArtifactId, section: String, addr: u64 },
    OpenHex { artifact: ArtifactId, section: String, addr: u64 },
    OpenLeaf { leaf: LeafId },
    /// Open a class body and scroll to a line.
    GotoSmaliLine { leaf: LeafId, line: usize },
}

// ---- the instruction being typed -------------------------------------------

/// Position of the last `c` before position `n`, or -1.
pub open spec fn last_before(t: Seq<char>, c: char, n: int) -> int
    decreases n,
{
    if n <= 0 {
        -1
    } else if t[n - 1] == c {
        n - 1
    } else {
        last_before(t, c, n - 1)
    }
}

/// Where the instruction being typed begins: behind the last semicolon.
pub open spec fn insn_start(t: Seq<char>) -> int {
    last_before(t, ';', t.len() as int) + 1
}

/// The instruction being typed.
pub open spec fn active_insn(t: Seq<char>) -> Seq<char> {
    trimmed(t.skip(insn_start(t)))
}

fn start_of_insn(t: &Vec<char>) -> (r: usize)
    ensures
        r == insn_start(t@),
        r <= t@.len(),
{
    let mut n: usize = t.len();
    while n > 0 && t[n - 1] != ';'
        invariant
            n <= t@.len(),
            insn_start(t@) == last_before(t@, ';', n as int) + 1,
        decreases n,
    {
        n -= 1;
    }
    n
}

/// The instruction being typed, without leading white space.
pub fn typed_insn(query: &str) -> (r: String)
    ensures
        r@ == active_insn(query@),
{
    let t = to_chars(query);
    let from: usize = start_of_insn(&t);
    let tail = substring(t.as_slice(), from, t.len());
    let chars = to_chars(tail.as_str());
    let rest = trim_start(chars.as_slice());
    let r = substring(rest.as_slice(), 0, rest.len());
    assert(rest@.subrange(0, rest@.len() as int) =~= rest@);
    r
}

/// A query with the instruction being typed replaced by a template.
pub open spec fn completed(t: Seq<char>, template: Seq<char>) -> Seq<char> {
    if insn_start(t) == 0 {
        template
    } else {
        t.take(insn_start(t)) + " "@ + template
    }
}

// ---- entries and selection -------------------------------------------------

/// The entries on show: those of the scope that match the query, or those of
/// the index.
pub open spec fn visible(v: PaletteView, indexed: Seq<SearchEntry>) -> Seq<SearchEntry> {
    match v.scope {
        Some(s) => shown_entries(s.entries, v.query),
        None => indexed,
    }
}

/// The state once the list has been counted anew; a selection past its end
/// returns to the top.
pub open spec fn relisted(v: PaletteView, indexed: Seq<SearchEntry>) -> PaletteView {
    let len = visible(v, indexed).len();
    PaletteView {
        list_len: len as int,
        selected: if v.selected >= len {
            0
        } else {
            v.selected
        },
        ..v
    }
}

/// The state without search results.
pub open spec fn without_results(v: PaletteView) -> PaletteView {
    PaletteView { bin_results: None, bin_sources: Seq::empty(), bin_error: None, ..v }
}

/// The state once completions have been looked up anew.
pub open spec fn with_candidates(v: PaletteView, candidates: Seq<Seq<char>>) -> PaletteView {
    if v.bin_grammar != BinaryGrammar::Asm {
        PaletteView { asm_candidates: Seq::empty(), asm_selected: 0, ..v }
    } else {
        PaletteView {
            asm_candidates: candidates,
            asm_selected: if candidates.len() == 0 {
                0
            } else if v.asm_selected < candidates.len() {
                v.asm_selected
            } else {
                candidates.len() - 1
            },
            ..v
        }
    }
}

/// A selection moved by `delta` within a list of `len` rows.
pub open spec fn moved(selected: int, delta: int, len: int) -> int {
    if selected + delta < 0 {
        0
    } else if selected + delta >= len {
        len - 1
    } else {
        selected + delta
    }
}

fn move_within(selected: usize, delta: i32, len: usize) -> (r: usize)
    requires
        len > 0,
    ensures
        r == moved(selected as int, delta as int, len as int),
{
    let last: usize = len - 1;
    if delta >= 0 {
        let d: usize = delta as usize;
        if selected >= last || last - selected <= d {
            last
        } else {
            selected + d
        }
    } else {
        let d: u64 = (0 - delta as i64) as u64;
        if selected as u64 <= d {
            0
        } else {
            let to: usize = selected - d as usize;
            if to > last {
                last
            } else {
                to
            }
        }
    }
}

/// Whether a section of one of the tables belongs to an artifact.
pub open spec fn has_sections<V>(listed: Seq<(SectionKey, V)>, artifact: ArtifactId) -> bool {
    exists|i: int| 0 <= i < listed.len() && (#[trigger] listed[i]).0.0@ == artifact@
}

fn owns_section<V>(t: &Table<SectionKey, V>, artifact: &ArtifactId) -> (r: bool)
    ensures
        r == has_sections(t.listed(), *artifact),
{
    let n: usize = t.len();
    let mut i: usize = 0;
    while i < n
        invariant
            n == t.listed().len(),
            i <= n,
            forall|k: int| 0 <= k < i ==> (#[trigger] t.listed()[k]).0.0@ != artifact@,
        decreases n - i,
    {
        let (key, value) = t.entry(i);
        if key.0.same(artifact) {
            assert(t.listed()[i as int].0.0@ == artifact@);
            return true;
        }
        i += 1;
    }
    false
}

/// The artifact that a byte search starts from: the current one if it has
/// sections, else the first that has code, else the first that has data.
pub open spec fn search_artifact(
    current: Option<ArtifactId>,
    text: Seq<(SectionKey, TextSectionBytes)>,
    data: Seq<(SectionKey, DataSectionBytes)>,
) -> Option<ArtifactId> {
    match current {
        Some(a) if has_sections(text, a) || has_sections(data, a) => Some(a),
        _ => if text.len() > 0 {
            Some(text[0].0.0)
        } else if data.len() > 0 {
            Some(data[0].0.0)
        } else {
            None
        },
    }
}

/// The artifact that a byte search starts from.
pub fn pick_search_artifact(
    current: Option<ArtifactId>,
    text: &Table<SectionKey, TextSectionBytes>,
    data: &Table<SectionKey, DataSectionBytes>,
) -> (r: Option<ArtifactId>)
    ensures
        r == search_artifact(current, text.listed(), data.listed()),
{
    if let Some(a) = current {
        if owns_section(text, &a) || owns_section(data, &a) {
            return Some(a);
        }
    }
    if text.len() > 0 {
        let (key, value) = text.entry(0);
        return Some(key.0);
    }
    if data.len() > 0 {
        let (key, value) = data.entry(0);
        return Some(key.0);
    }
    None
}

/// The hits that the scanner reports for the sections of a bundle.
pub struct ScanHits {
    pub text: Vec<SectionHits>,
    pub data: Vec<SectionHits>,
}

/// What an entry leads to in a bundle.
pub open spec fn jump_action(jump: SearchJump, kinds: Option<Seq<LeafKind>>) -> PaletteAction {
    match jump {
        SearchJump::Listing { artifact, section, addr } => PaletteAction::OpenListing {
            artifact,
            section,
            addr,
        },
        SearchJump::Hex { artifact, section, addr } => PaletteAction::OpenHex {
            artifact,
            section,
            addr,
        },
        SearchJump::SmaliClass { class_jni } => match leaf_of(
            kinds,
            TabState::SmaliClass { class_jni, scroll_line: 0 },
        ) {
            Some(leaf) => PaletteAction::OpenLeaf { leaf },
            None => PaletteAction::Nothing,
        },
        SearchJump::SmaliMethodLine { class_jni, line } => match leaf_of(
            kinds,
            TabState::SmaliClass { class_jni, scroll_line: 0 },
        ) {
            Some(leaf) => PaletteAction::GotoSmaliLine { leaf, line },
            None => PaletteAction::Nothing,
        },
        SearchJump::SectionMap { artifact } => match leaf_of(
            kinds,
            TabState::SectionMap { artifact },
        ) {
            Some(leaf) => PaletteAction::OpenLeaf { leaf },
            None => PaletteAction::Nothing,
        },
    }
}

/// The leaf that backs a tab, where a bundle is loaded and has one.
pub open spec fn leaf_of(kinds: Option<Seq<LeafKind>>, st: TabState) -> Option<LeafId> {
    match kinds {
        Some(k) => match backing_leaf(k, st, 0) {
            Some(i) => Some(LeafId(i as usize)),
            None => None,
        },
        None => None,
    }
}

/// The leaf kinds of a bundle that may be loaded.
pub open spec fn kinds_of(bundle: Option<&LoadedBundle>) -> Option<Seq<LeafKind>> {
    match bundle {
        Some(b) => Some(b.kinds@),
        None => None,
    }
}

fn find_leaf(bundle: Option<&LoadedBundle>, st: &TabState) -> (r: Option<LeafId>)
    ensures
        r == leaf_of(kinds_of(bundle), *st),
{
    match bundle {
        Some(b) => b.resolve(st),
        None => None,
    }
}

fn follow(jump: SearchJump, bundle: Option<&LoadedBundle>) -> (r: PaletteAction)
    ensures
        r == jump_action(jump, kinds_of(bundle)),
{
    match jump {
        SearchJump::Listing { artifact, section, addr } => PaletteAction::OpenListing {
            artifact,
            section,
            addr,
        },
        SearchJump::Hex { artifact, section, addr } => PaletteAction::OpenHex {
            artifact,
            section,
            addr,
        },
        SearchJump::SmaliClass { class_jni } => match find_leaf(
            bundle,
            &TabState::SmaliClass { class_jni, scroll_line: 0 },
        ) {
            Some(leaf) => PaletteAction::OpenLeaf { leaf },
            None => PaletteAction::Nothing,
        },
        SearchJump::SmaliMethodLine { class_jni, line } => match find_leaf(
            bundle,
            &TabState::SmaliClass { class_jni, scroll_line: 0 },
        ) {
            Some(leaf) => PaletteAction::GotoSmaliLine { leaf, line },
            None => PaletteAction::Nothing,
        },
        SearchJump::SectionMap { artifact } => match find_leaf(
            bundle,
            &TabState::SectionMap { artifact },
        ) {
            Some(leaf) => PaletteAction::OpenLeaf { leaf },
            None => PaletteAction::Nothing,
        },
    }
}

/// The match that is selected, with its section and address.
pub open spec fn selected_match(v: PaletteView) -> Option<(SectionKey, u64)> {
    match v.bin_results {
        Some(r) => if v.selected < r.matches@.len() && v.selected < v.bin_sources.len() {
            match address_of(r.matches@[v.selected].address@) {
                Some(addr) => Some((v.bin_sources[v.selected], addr)),
                None => None,
            }
        } else {
            None
        },
        None => None,
    }
}

/// What opening the selected match does: code opens as a listing, anything else
/// as bytes.
pub open spec fn match_action(v: PaletteView, bundle: Option<&LoadedBundle>) -> PaletteAction {
    match (selected_match(v), bundle) {
        (Some((key, addr)), Some(b)) => if b.section_name(key.0@, true, addr) is Some {
            PaletteAction::OpenListing { artifact: key.0, section: key.1, addr }
        } else {
            PaletteAction::OpenHex { artifact: key.0, section: key.1, addr }
        },
        _ => PaletteAction::Nothing,
    }
}

impl Palette {
    /// A closed palette with nothing typed.
    pub fn new() -> (r: Palette)
        ensures
            r@ == (PaletteView {
                open: false,
                focused: false,
                mode: PaletteMode::Text,
                query: Seq::empty(),
                selected: 0,
                list_len: 0,
                scope: None,
                bin_query: Seq::empty(),
                bin_grammar: BinaryGrammar::Bytes,
                bin_code_only: true,
                bin_artifact: None,
                bin_results: None,
                bin_sources: Seq::empty(),
                bin_error: None,
                asm_candidates: Seq::empty(),
                asm_selected: 0,
                annotating: false,
            }),
    {
        let r = Palette {
            open: false,
            focused: false,
            mode: PaletteMode::Text,
            query: String::new(),
            selected: 0,
            list_len: 0,
            scope: None,
            bin_query: String::new(),
            bin_grammar: BinaryGrammar::Bytes,
            bin_code_only: true,
            bin_artifact: None,
            bin_results: None,
            bin_sources: Vec::new(),
            bin_error: None,
            asm_candidates: Vec::new(),
            asm_selected: 0,
            annotating: false,
        };
        assert(r@.asm_candidates =~= Seq::empty());
        assert(r@.query =~= Seq::empty());
        assert(r@.bin_query =~= Seq::empty());
        r
    }

    /// The entries on show.
    pub fn palette_visible_entries(&self, indexed: &Vec<SearchEntry>) -> (r: Vec<SearchEntry>)
        ensures
            r@ == visible(self@, indexed@),
    {
        match &self.scope {
            Some(s) => scoped_entries(&s.entries, self.query.as_str()),
            None => {
                let mut r: Vec<SearchEntry> = Vec::new();
                let mut i: usize = 0;
                while i < indexed.len()
                    invariant
                        i <= indexed@.len(),
                        r@ == indexed@.take(i as int),
                    decreases indexed@.len() - i,
                {
                    r.push(indexed[i].duplicate());
                    i += 1;
                    assert(r@ =~= indexed@.take(i as int));
                }
                assert(r@ =~= indexed@);
                r
            },
        }
    }

    /// Counts the list anew. Returns whether its length changed.
    pub fn refresh_palette_list(&mut self, indexed: &Vec<SearchEntry>) -> (r: bool)
        ensures
            final(self)@ == relisted(old(self)@, indexed@),
            r == (final(self)@.list_len != old(self)@.list_len),
    {
        let shown = self.palette_visible_entries(indexed);
        let len: usize = shown.len();
        let changed: bool = len != self.list_len;
        self.list_len = len;
        if self.selected >= len {
            self.selected = 0;
        }
        changed
    }

    /// Opens or closes the palette. Opening it counts the list and picks the
    /// artifact for byte searches; without a bundle there is none.
    pub fn toggle_palette(&mut self, bundle: Option<&LoadedBundle>, indexed: &Vec<SearchEntry>)
        ensures
            old(self)@.open ==> final(self)@ == (PaletteView { open: false, ..old(self)@ }),
            !old(self)@.open ==> final(self)@ == (PaletteView {
                bin_artifact: match bundle {
                    Some(b) => search_artifact(
                        old(self)@.bin_artifact,
                        b.text_sections.listed(),
                        b.data_sections.listed(),
                    ),
                    None => None,
                },
                ..relisted(PaletteView { open: true, focused: true, ..old(self)@ }, indexed@)
            }),
    {
        if self.open {
            self.open = false;
        } else {
            self.open = true;
            self.focused = true;
            self.refresh_palette_list(indexed);
            self.bin_artifact = match bundle {
                Some(b) => pick_search_artifact(
                    self.bin_artifact,
                    &b.text_sections,
                    &b.data_sections,
                ),
                None => None,
            };
        }
    }

    /// Switches to text search; the state of byte search stays.
    pub fn palette_set_mode_text(&mut self, indexed: &Vec<SearchEntry>)
        ensures
            final(self)@ == if old(self)@.mode == PaletteMode::Text {
                old(self)@
            } else {
                relisted(
                    PaletteView { mode: PaletteMode::Text, selected: 0, ..old(self)@ },
                    indexed@,
                )
            },
    {
        if self.mode != PaletteMode::Text {
            self.mode = PaletteMode::Text;
            self.selected = 0;
            self.refresh_palette_list(indexed);
        }
    }

    /// Switches to byte search; the state of text search stays.
    pub fn palette_set_mode_binary(&mut self)
        ensures
            final(self)@ == if old(self)@.mode == PaletteMode::Binary {
                old(self)@
            } else {
                PaletteView { mode: PaletteMode::Binary, selected: 0, ..old(self)@ }
            },
    {
        if self.mode != PaletteMode::Binary {
            self.mode = PaletteMode::Binary;
            self.selected = 0;
        }
    }

    /// Switches between searching code only and everything. Returns whether the
    /// search on show has to run again.
    pub fn palette_toggle_bin_code_only(&mut self) -> (r: bool)
        ensures
            final(self)@ == (PaletteView {
                bin_code_only: !old(self)@.bin_code_only,
                ..old(self)@
            }),
            r == (old(self)@.bin_results is Some && old(self)@.bin_query.len() > 0),
    {
        self.bin_code_only = !self.bin_code_only;
        let chars = to_chars(self.bin_query.as_str());
        self.bin_results.is_some() && chars.len() > 0
    }

    /// Drops the results on show.
    fn drop_results(&mut self)
        ensures
            final(self)@ == without_results(old(self)@),
    {
        self.bin_results = None;
        self.bin_sources = Vec::new();
        self.bin_error = None;
    }

    /// Takes over the completions for the instruction being typed; byte patterns
    /// have none.
    pub fn refresh_palette_asm_candidates(&mut self, candidates: Vec<String>)
        ensures
            final(self)@ == with_candidates(old(self)@, strings(candidates@)),
    {
        if self.bin_grammar != BinaryGrammar::Asm {
            self.asm_candidates = Vec::new();
            self.asm_selected = 0;
            assert(self@.asm_candidates =~= Seq::empty());
        } else {
            let len: usize = candidates.len();
            self.asm_candidates = candidates;
            if len == 0 {
                self.asm_selected = 0;
            } else if self.asm_selected >= len {
                self.asm_selected = len - 1;
            }
        }
    }

    /// Switches between byte patterns and instructions.
    pub fn palette_toggle_bin_grammar(&mut self, candidates: Vec<String>)
        ensures
            final(self)@ == with_candidates(
                without_results(
                    PaletteView {
                        bin_grammar: match old(self)@.bin_grammar {
                            BinaryGrammar::Bytes => BinaryGrammar::Asm,
                            BinaryGrammar::Asm => BinaryGrammar::Bytes,
                        },
                        ..old(self)@
                    },
                ),
                strings(candidates@),
            ),
    {
        self.bin_grammar = match self.bin_grammar {
            BinaryGrammar::Bytes => BinaryGrammar::Asm,
            BinaryGrammar::Asm => BinaryGrammar::Bytes,
        };
        self.drop_results();
        self.refresh_palette_asm_candidates(candidates);
    }

    /// Chooses how byte searches are written.
    pub fn palette_set_bin_grammar(&mut self, grammar: BinaryGrammar, candidates: Vec<String>)
        ensures
            final(self)@ == if old(self)@.bin_grammar == grammar {
                old(self)@
            } else {
                with_candidates(
                    without_results(PaletteView { bin_grammar: grammar, ..old(self)@ }),
                    strings(candidates@),
                )
            },
    {
        if self.bin_grammar != grammar {
            self.bin_grammar = grammar;
            self.drop_results();
            self.refresh_palette_asm_candidates(candidates);
        }
    }

    /// The query once the selected completion replaces the instruction being
    /// typed; `None` where there is nothing to complete.
    pub open spec fn completion(v: PaletteView) -> Option<Seq<char>> {
        if v.bin_grammar == BinaryGrammar::Asm && v.asm_selected < v.asm_candidates.len() {
            Some(completed(v.bin_query, v.asm_candidates[v.asm_selected]))
        } else {
            None
        }
    }

    /// The query once the selected completion replaces the instruction being
    /// typed; `None` where there is nothing to complete.
    pub fn completed_query(&self) -> (r: Option<String>)
        ensures
            match r {
                Some(q) => Palette::completion(self@) == Some(q@),
                None => Palette::completion(self@) is None,
            },
    {
        if self.bin_grammar != BinaryGrammar::Asm || self.asm_selected >= self.asm_candidates.len() {
            return None;
        }
        let template = &self.asm_candidates[self.asm_selected];
        let t = to_chars(self.bin_query.as_str());
        let from: usize = start_of_insn(&t);
        if from == 0 {
            Some(owned(template.as_str()))
        } else {
            let head = substring(t.as_slice(), 0, from);
            assert(head@ =~= self.bin_query@.take(from as int));
            let spaced = join2(head.as_str(), " ");
            Some(join2(spaced.as_str(), template.as_str()))
        }
    }

    /// Commits the selected completion. `candidates` are the completions for the
    /// new query.
    pub fn palette_asm_commit_template(&mut self, candidates: Vec<String>)
        ensures
            final(self)@ == match Palette::completion(old(self)@) {
                Some(q) => with_candidates(
                    without_results(PaletteView { bin_query: q, ..old(self)@ }),
                    strings(candidates@),
                ),
                None => old(self)@,
            },
    {
        if let Some(q) = self.completed_query() {
            self.bin_query = q;
            self.drop_results();
            self.refresh_palette_asm_candidates(candidates);
        }
    }

    /// Moves the selection among the completions.
    pub fn palette_asm_move(&mut self, delta: i32)
        ensures
            final(self)@ == if old(self)@.asm_candidates.len() == 0 {
                old(self)@
            } else {
                PaletteView {
                    asm_selected: moved(
                        old(self)@.asm_selected,
                        delta as int,
                        old(self)@.asm_candidates.len() as int,
                    ),
                    ..old(self)@
                }
            },
    {
        if self.asm_candidates.len() == 0 {
            return;
        }
        self.asm_selected = move_within(self.asm_selected, delta, self.asm_candidates.len());
    }

    /// Closes the palette; the scope and a half-typed annotation go with it.
    pub fn close_palette(&mut self)
        ensures
            final(self)@ == if old(self)@.open {
                PaletteView { open: false, scope: None, annotating: false, ..old(self)@ }
            } else {
                old(self)@
            },
    {
        if self.open {
            self.open = false;
            self.scope = None;
            self.annotating = false;
        }
    }

    /// Opens the palette on a scope. Returns whether the scope still waits for
    /// its index.
    pub fn open_scoped_palette(&mut self, scope: PaletteScope) -> (r: bool)
        ensures
            final(self)@ == relisted(
                PaletteView {
                    scope: Some(scope@),
                    open: true,
                    focused: true,
                    query: Seq::empty(),
                    selected: 0,
                    ..old(self)@
                },
                Seq::empty(),
            ),
            r == (scope.progress is Some),
    {
        let pending: bool = scope.progress.is_some();
        self.scope = Some(scope);
        self.open = true;
        self.focused = true;
        self.query = String::new();
        assert(self.query@ =~= Seq::empty());
        self.selected = 0;
        let none: Vec<SearchEntry> = Vec::new();
        self.refresh_palette_list(&none);
        pending
    }

    /// Whether the open palette waits for an index of the loaded bundle.
    pub open spec fn waits(v: PaletteView, store: Option<&XrefStore>) -> bool {
        v.open && (v.scope matches Some(s) && s.progress is Some) && store is Some
    }

    /// What becomes of a scope that waits for an index of `store`: the entries of
    /// a finished index replace its own, and while the build runs it shows how
    /// far the build is.
    pub open spec fn refreshed(
        v: PaletteView,
        store: &XrefStore,
        rebuilt: Seq<SearchEntry>,
    ) -> PaletteView {
        let s = v.scope->0;
        match store.waited_for(s.source) {
            IndexPhase::Ready => relisted(
                PaletteView {
                    scope: Some(ScopeView { entries: rebuilt, progress: None, ..s }),
                    ..v
                },
                Seq::empty(),
            ),
            IndexPhase::Failed => PaletteView {
                scope: Some(ScopeView { progress: None, ..s }),
                ..v
            },
            IndexPhase::Waiting => PaletteView {
                scope: Some(
                    ScopeView {
                        progress: match store.running_for(s.source) {
                            Some(p) => Some(p),
                            None => s.progress,
                        },
                        ..s
                    },
                ),
                ..v
            },
        }
    }

    /// Looks whether the index that the scope waits for is there: `rebuilt` are
    /// the entries of the finished index. While it is built, takes over how far
    /// the build is. Returns whether to stop looking; if
    /// not, the next look is due after [`SCOPE_POLL_MS`].
    pub fn refresh_xref_scope_if_pending(
        &mut self,
        store: Option<&XrefStore>,
        rebuilt: Vec<SearchEntry>,
    ) -> (stop: bool)
        ensures
            !Palette::waits(old(self)@, store) ==> stop && final(self)@ == old(self)@,
            Palette::waits(old(self)@, store) ==> {
                &&& stop == (store->0.waited_for(old(self)@.scope->0.source)
                    != IndexPhase::Waiting)
                &&& final(self)@ == Palette::refreshed(old(self)@, store->0, rebuilt@)
            },
    {
        if !self.open {
            return true;
        }
        let store = match store {
            Some(s) => s,
            None => {
                return true;
            },
        };
        let mut taken: Option<PaletteScope> = None;
        std::mem::swap(&mut taken, &mut self.scope);
        let mut scope = match taken {
            Some(s) => s,
            None => {
                return true;
            },
        };
        if scope.progress.is_none() {
            self.scope = Some(scope);
            return true;
        }
        match store.phase_of(&scope.source) {
            IndexPhase::Ready => {
                scope.entries = Arc::new(rebuilt);
                scope.progress = None;
                self.scope = Some(scope);
                let none: Vec<SearchEntry> = Vec::new();
                self.refresh_palette_list(&none);
                true
            },
            IndexPhase::Failed => {
                scope.progress = None;
                self.scope = Some(scope);
                true
            },
            IndexPhase::Waiting => {
                match store.progress_of(&scope.source) {
                    Some(p) => {
                        scope.progress = Some(p);
                    },
                    None => {},
                }
                self.scope = Some(scope);
                false
            },
        }
    }

    /// Drops the scope without closing the palette.
    pub fn clear_palette_scope(&mut self, indexed: &Vec<SearchEntry>)
        ensures
            final(self)@ == if old(self)@.scope is Some {
                relisted(
                    PaletteView { scope: None, query: Seq::empty(), selected: 0, ..old(self)@ },
                    indexed@,
                )
            } else {
                old(self)@
            },
    {
        if self.scope.is_some() {
            self.scope = None;
            self.query = String::new();
            assert(self.query@ =~= Seq::empty());
            self.selected = 0;
            self.refresh_palette_list(indexed);
        }
    }

    /// Whether typing goes to the text query.
    pub open spec fn types_text(v: PaletteView) -> bool {
        v.mode == PaletteMode::Text || v.annotating
    }

    /// Whether typing goes to the text query.
    pub fn typing_text(&self) -> (r: bool)
        ensures
            r == Palette::types_text(self@),
    {
        self.mode == PaletteMode::Text || self.annotating
    }

    /// Takes over the edited text of the query that typing goes to. `indexed`
    /// and `candidates` are those for that text.
    pub fn palette_handle_key(
        &mut self,
        text: String,
        indexed: &Vec<SearchEntry>,
        candidates: Vec<String>,
    )
        ensures
            final(self)@ == if Palette::types_text(old(self)@) {
                relisted(PaletteView { query: text@, selected: 0, ..old(self)@ }, indexed@)
            } else {
                with_candidates(
                    PaletteView {
                        bin_query: text@,
                        selected: 0,
                        ..without_results(old(self)@)
                    },
                    strings(candidates@),
                )
            },
    {
        if self.typing_text() {
            self.query = text;
            self.selected = 0;
            self.refresh_palette_list(indexed);
        } else {
            self.bin_query = text;
            self.drop_results();
            self.selected = 0;
            self.refresh_palette_asm_candidates(candidates);
        }
    }

    /// The number of rows that the selection moves in.
    pub open spec fn rows(v: PaletteView) -> int {
        match v.mode {
            PaletteMode::Text => v.list_len,
            PaletteMode::Binary => match v.bin_results {
                Some(r) => r.matches@.len() as int,
                None => 0,
            },
        }
    }

    /// Whether the arrow keys move among the completions.
    pub open spec fn completing(v: PaletteView) -> bool {
        v.mode == PaletteMode::Binary && v.bin_grammar == BinaryGrammar::Asm && v.bin_results is None
            && v.asm_candidates.len() > 0
    }

    /// Moves the selection: among the completions while an instruction is typed,
    /// else among the rows. Returns the row to bring into view.
    pub fn palette_move(&mut self, delta: i32) -> (r: Option<usize>)
        ensures
            Palette::completing(old(self)@) ==> r is None && final(self)@ == (PaletteView {
                asm_selected: moved(
                    old(self)@.asm_selected,
                    delta as int,
                    old(self)@.asm_candidates.len() as int,
                ),
                ..old(self)@
            }),
            !Palette::completing(old(self)@) && Palette::rows(old(self)@) == 0 ==> r is None
                && final(self)@ == old(self)@,
            !Palette::completing(old(self)@) && Palette::rows(old(self)@) > 0 ==> {
                let to = moved(old(self)@.selected, delta as int, Palette::rows(old(self)@));
                &&& final(self)@ == (PaletteView { selected: to, ..old(self)@ })
                &&& r == if to == old(self)@.selected {
                    None
                } else {
                    Some(to as usize)
                }
            },
    {
        if self.mode == PaletteMode::Binary && self.bin_grammar == BinaryGrammar::Asm
            && self.bin_results.is_none() && self.asm_candidates.len() > 0 {
            self.palette_asm_move(delta);
            return None;
        }
        let len: usize = match self.mode {
            PaletteMode::Text => self.list_len,
            PaletteMode::Binary => match &self.bin_results {
                Some(r) => r.matches.len(),
                None => 0,
            },
        };
        if len == 0 {
            return None;
        }
        let to: usize = move_within(self.selected, delta, len);
        if to == self.selected {
            return None;
        }
        self.selected = to;
        Some(to)
    }

    /// Runs a byte search. `compiled` names the architecture of every compiled
    /// atom set, or says why the pattern does not compile; `hits` are the hits
    /// of the scanner.
    pub fn run_palette_bin_search(
        &mut self,
        compiled: &Result<Vec<Option<Architecture>>, String>,
        bundle: Option<&LoadedBundle>,
        hits: &ScanHits,
    )
        requires
            compiled matches Ok(c) ==> bundle matches Some(b) ==> {
                &&& hits.text@.len() == b.text_sections.listed().len()
                &&& hits.data@.len() == b.data_sections.listed().len()
                &&& scans_fit(
                    all_scans(
                        b.text_sections.listed(),
                        b.data_sections.listed(),
                        c@,
                        old(self)@.bin_code_only,
                        hits.text@,
                        hits.data@,
                    ),
                )
            },
        ensures
            match (*compiled, bundle) {
                (Err(e), _) => final(self)@ == (PaletteView {
                    bin_error: Some(e@),
                    ..old(self)@
                }),
                (Ok(c), None) => final(self)@ == (PaletteView {
                    bin_error: Some("no bundle loaded"@),
                    ..old(self)@
                }),
                (Ok(c), Some(b)) => {
                    &&& final(self)@ == (PaletteView {
                        bin_results: final(self)@.bin_results,
                        bin_sources: final(self)@.bin_sources,
                        bin_error: final(self)@.bin_error,
                        selected: 0,
                        ..old(self)@
                    })
                    &&& exists|o: SearchOutcome| #[trigger]
                        o.reports(
                            old(self)@.bin_query,
                            all_scans(
                                b.text_sections.listed(),
                                b.data_sections.listed(),
                                c@,
                                old(self)@.bin_code_only,
                                hits.text@,
                                hits.data@,
                            ),
                            b.text_sections.listed().len() as int,
                            b.data_sections.listed().len() as int,
                        ) && final(self)@.bin_results == Some(o.result) && final(self)@.bin_sources
                            == o.sources@ && final(self)@.bin_error == match o.error {
                            Some(e) => Some(e@),
                            None => None,
                        }
                },
            },
    {
        let sets = match compiled {
            Ok(c) => c,
            Err(e) => {
                self.bin_error = Some(e.clone());
                return;
            },
        };
        let b = match bundle {
            Some(b) => b,
            None => {
                self.bin_error = Some(owned("no bundle loaded"));
                return;
            },
        };
        let o = search_sections(
            self.bin_query.as_str(),
            sets,
            &b.text_sections,
            &b.data_sections,
            self.bin_code_only,
            &hits.text,
            &hits.data,
        );
        let ghost outcome = o;
        assert(outcome.reports(
            old(self)@.bin_query,
            all_scans(
                b.text_sections.listed(),
                b.data_sections.listed(),
                sets@,
                old(self)@.bin_code_only,
                hits.text@,
                hits.data@,
            ),
            b.text_sections.listed().len() as int,
            b.data_sections.listed().len() as int,
        ));
        self.bin_results = Some(o.result);
        self.bin_sources = o.sources;
        self.bin_error = o.error;
        self.selected = 0;
    }

    /// Opens the selected match and closes the palette.
    pub fn palette_bin_activate(&mut self, bundle: Option<&LoadedBundle>) -> (r: PaletteAction)
        ensures
            r == match_action(old(self)@, bundle),
            final(self)@ == if r is Nothing {
                old(self)@
            } else {
                PaletteView { open: false, ..old(self)@ }
            },
    {
        let b = match bundle {
            Some(b) => b,
            None => {
                return PaletteAction::Nothing;
            },
        };
        let at: usize = self.selected;
        let addr: u64 = match &self.bin_results {
            Some(res) => {
                if at >= res.matches.len() || at >= self.bin_sources.len() {
                    return PaletteAction::Nothing;
                }
                let m: &BinMatch = &res.matches[at];
                match parse_address(m.address.as_str()) {
                    Some(a) => a,
                    None => {
                        return PaletteAction::Nothing;
                    },
                }
            },
            None => {
                return PaletteAction::Nothing;
            },
        };
        let artifact: ArtifactId = self.bin_sources[at].0;
        let section: String = self.bin_sources[at].1.clone();
        self.open = false;
        if b.text_section_for_addr(&artifact, addr).is_some() {
            PaletteAction::OpenListing { artifact, section, addr }
        } else {
            PaletteAction::OpenHex { artifact, section, addr }
        }
    }

    /// The Enter key: commits an annotation, runs a byte search or opens its
    /// selected match, or follows the selected entry and closes the palette.
    pub fn palette_activate(
        &mut self,
        bundle: Option<&LoadedBundle>,
        indexed: &Vec<SearchEntry>,
    ) -> (r: PaletteAction)
        ensures
            if old(self)@.annotating {
                r == PaletteAction::CommitAnnotation && final(self)@ == old(self)@
            } else if old(self)@.mode == PaletteMode::Binary {
                if old(self)@.bin_results is Some {
                    &&& r == match_action(old(self)@, bundle)
                    &&& final(self)@ == if r is Nothing {
                        old(self)@
                    } else {
                        PaletteView { open: false, ..old(self)@ }
                    }
                } else {
                    r == PaletteAction::RunSearch && final(self)@ == old(self)@
                }
            } else {
                let shown = visible(old(self)@, indexed@);
                if old(self)@.selected < shown.len() {
                    &&& r == jump_action(shown[old(self)@.selected].jump, kinds_of(bundle))
                    &&& final(self)@ == (PaletteView { open: false, scope: None, ..old(self)@ })
                } else {
                    r == PaletteAction::Nothing && final(self)@ == old(self)@
                }
            },
    {
        if self.annotating {
            return PaletteAction::CommitAnnotation;
        }
        if self.mode == PaletteMode::Binary {
            if self.bin_results.is_some() {
                return self.palette_bin_activate(bundle);
            }
            return PaletteAction::RunSearch;
        }
        let shown = self.palette_visible_entries(indexed);
        if self.selected >= shown.len() {
            return PaletteAction::Nothing;
        }
        let jump = shown[self.selected].jump.duplicate();
        self.open = false;
        self.scope = None;
        follow(jump, bundle)
    }

    /// Whether to build the index of the bundle: it is neither there nor on its
    /// way, and a bundle is loaded.
    pub fn builds_index(has_index: bool, indexing: bool, loaded: bool) -> (r: bool)
        ensures
            r == (!has_index && !indexing && loaded),
    {
        !has_index && !indexing && loaded
    }
}

// ---- laws ------------------------------------------------------------------

/// After the list has been counted, the selection lies in it or at the top.
pub proof fn law_selection_stays_in_list(v: PaletteView, indexed: Seq<SearchEntry>)
    requires
        v.selected >= 0,
    ensures
        relisted(v, indexed).selected < relisted(v, indexed).list_len || relisted(
            v,
            indexed,
        ).selected == 0,
        visible(relisted(v, indexed), indexed) == visible(v, indexed),
        relisted(relisted(v, indexed), indexed) == relisted(v, indexed),
{
}

/// Moving never leaves the list, and moving back undoes a move that did not
/// reach an end of it.
pub proof fn law_moves_stay_in_list(selected: int, delta: int, len: int)
    requires
        0 <= selected < len,
    ensures
        0 <= moved(selected, delta, len) < len,
        0 <= selected + delta < len ==> moved(moved(selected, delta, len), -delta, len) == selected,
{
}

/// Switching the mode back and forth keeps both queries, the results and the
/// completions.
pub proof fn law_modes_keep_their_state(v: PaletteView, indexed: Seq<SearchEntry>)
    requires
        v.mode == PaletteMode::Text,
    ensures
        ({
            let there = PaletteView { mode: PaletteMode::Binary, selected: 0, ..v };
            let back = relisted(
                PaletteView { mode: PaletteMode::Text, selected: 0, ..there },
                indexed,
            );
            &&& back.query == v.query
            &&& back.bin_query == v.bin_query
            &&& back.bin_results == v.bin_results
            &&& back.scope == v.scope
            &&& back.asm_candidates == v.asm_candidates
            &&& visible(back, indexed) == visible(v, indexed)
        }),
{
}

/// A committed template is the instruction being typed, unless it holds a
/// semicolon itself.
pub proof fn law_completion_is_typed(t: Seq<char>, template: Seq<char>)
    requires
        template.len() > 0,
        !crate::text::is_space(template[0]),
        !template.contains(';'),
    ensures
        active_insn(completed(t, template)) == template,
{
    let c = completed(t, template);
    let s = insn_start(t);
    reveal_strlit(" ");
    lemma_last_range(t, ';', t.len() as int);
    if s == 0 {
        lemma_none_before(c, ';', 0, c.len() as int);
        assert(c.skip(0) =~= c);
    } else {
        assert(c[s - 1] == t[s - 1]);
        assert(t[s - 1] == ';');
        assert forall|i: int| s <= i < c.len() implies c[i] != ';' by {
            if i == s {
                assert(c[i] == ' ');
            } else {
                assert(c[i] == template[i - s - 1]);
            }
        }
        lemma_none_before(c, ';', s, c.len() as int);
        let rest = c.skip(s);
        assert(rest =~= " "@ + template);
        assert(rest[0] == ' ');
        assert(rest[1] == template[0]);
        reveal_with_fuel(crate::text::nonspace_from, 3);
        assert(trimmed(rest) =~= template);
    }
    reveal_with_fuel(crate::text::nonspace_from, 3);
    assert(s == 0 ==> trimmed(template) =~= template);
}

proof fn lemma_last_range(t: Seq<char>, c: char, n: int)
    requires
        0 <= n <= t.len(),
    ensures
        -1 <= last_before(t, c, n) < n,
        last_before(t, c, n) >= 0 ==> t[last_before(t, c, n)] == c,
    decreases n,
{
    if n > 0 {
        lemma_last_range(t, c, n - 1);
    }
}

proof fn lemma_none_before(t: Seq<char>, c: char, from: int, n: int)
    requires
        0 <= from <= n <= t.len(),
        from > 0 ==> t[from - 1] == c,
        forall|i: int| from <= i < n ==> t[i] != c,
    ensures
        last_before(t, c, n) == from - 1,
    decreases n,
{
    if n > from {
        lemma_none_before(t, c, from, n - 1);
    }
}

} // verus!
