//! The search palette: what is listed, selected, completed and opened.

use crate::bundle::LoadedBundle;
use crate::digits::address_of;
use crate::ids::ArtifactId;
use crate::laws::queries::{law_backing_leaf, law_section_holding, offers};
use crate::laws::tabs::shows;
use crate::laws::text::{begins, holds, law_prefix_and_infix};
use crate::leaf::{LeafKind, TabState};
use crate::palette::{
    active_insn, completed, insn_start, jump_action, last_before, leaf_of, match_action, moved,
    relisted, search_artifact, visible, with_candidates, without_results, Palette, PaletteAction,
    PaletteView,
};
use crate::search::{
    display_lens, is_shown_list, lowercase, lowered, shown_list, tier, SearchEntry, SearchJump,
    SHOWN_ENTRIES,
};
use crate::sections::{DataSectionBytes, TextSectionBytes};
use crate::xref::{PaletteScopeSource, SectionKey, XrefIndexState, XrefStore};
use vstd::prelude::*;

verus! {

// ---- which entries a query shows -------------------------------------------

/// A text is shown for a query that stands in it.
pub open spec fn matches_query(hay: Seq<char>, query: Seq<char>) -> bool {
    holds(hay, query)
}

/// Entry `i` is listed before entry `j`: one that begins with the query before one
/// that does not, then the shorter one, then the earlier one.
pub open spec fn listed_before(
    hays: Seq<Seq<char>>,
    lens: Seq<u64>,
    query: Seq<char>,
    i: int,
    j: int,
) -> bool {
    ||| begins(hays[i], query) && !begins(hays[j], query)
    ||| begins(hays[i], query) == begins(hays[j], query) && lens[i] < lens[j]
    ||| begins(hays[i], query) == begins(hays[j], query) && lens[i] == lens[j] && i < j
}

/// The entries that a query shows: they hold it, the better ones come first, and one
/// that holds it is left out only where fifty better ones are shown.
pub proof fn law_shown_list(
    hays: Seq<Seq<char>>,
    lens: Seq<u64>,
    query: Seq<char>,
    r: Seq<usize>,
)
    requires
        is_shown_list(hays, lens, query, r),
    ensures
        r.len() <= 50,
        forall|k: int|
            0 <= k < r.len() ==> #[trigger] r[k] < hays.len() && matches_query(
                hays[r[k] as int],
                query,
            ),
        forall|k: int, l: int|
            0 <= k < l < r.len() ==> listed_before(
                hays,
                lens,
                query,
                #[trigger] r[k] as int,
                #[trigger] r[l] as int,
            ),
        forall|i: int|
            0 <= i < hays.len() && matches_query(#[trigger] hays[i], query) && !r.contains(i as usize)
                ==> r.len() == 50 && listed_before(hays, lens, query, r.last() as int, i),
{
    assert forall|i: int| 0 <= i < hays.len() implies ((#[trigger] tier(hays[i], query)) is Some
        <==> matches_query(hays[i], query)) && (tier(hays[i], query) == Some(0u64) <==> begins(
        hays[i],
        query,
    )) && (tier(hays[i], query) is Some ==> tier(hays[i], query)->0 <= 1) by {
        lemma_tier(hays[i], query);
    }
    assert forall|k: int| 0 <= k < r.len() implies #[trigger] r[k] < hays.len() && matches_query(
        hays[r[k] as int],
        query,
    ) by {
        assert(tier(hays[r[k] as int], query) is Some);
    }
    assert forall|k: int, l: int| 0 <= k < l < r.len() implies listed_before(
        hays,
        lens,
        query,
        #[trigger] r[k] as int,
        #[trigger] r[l] as int,
    ) by {
        assert(tier(hays[r[k] as int], query) is Some);
        assert(tier(hays[r[l] as int], query) is Some);
    }
    assert forall|i: int|
        0 <= i < hays.len() && matches_query(#[trigger] hays[i], query) && !r.contains(
            i as usize,
        ) implies r.len() == 50 && listed_before(hays, lens, query, r.last() as int, i) by {
        assert(tier(hays[i], query) is Some);
        assert(r.len() == SHOWN_ENTRIES);
        let last = r[r.len() - 1];
        assert(tier(hays[last as int], query) is Some);
    }
}

proof fn lemma_tier(hay: Seq<char>, query: Seq<char>)
    ensures
        tier(hay, query) is Some <==> matches_query(hay, query),
        tier(hay, query) == Some(0u64) <==> begins(hay, query),
        tier(hay, query) is Some ==> tier(hay, query)->0 <= 1,
{
    law_prefix_and_infix(hay, query, 0);
    if begins(hay, query) {
        assert(crate::laws::text::stands_at(hay, query, 0));
    }
}

/// What an entry is searched and sorted by: its text in lower case, and the length
/// of its text in bytes.
pub proof fn law_searched_texts(entries: Seq<SearchEntry>, i: int)
    requires
        0 <= i < entries.len(),
    ensures
        lowered(entries).len() == entries.len(),
        display_lens(entries).len() == entries.len(),
        lowered(entries)[i] == lowercase(entries[i].display@),
        vstd::utf8::encode_utf8(entries[i].display@).len() <= usize::MAX ==> display_lens(entries)[i]
            == vstd::utf8::encode_utf8(entries[i].display@).len(),
{
}

// ---- the list --------------------------------------------------------------

/// A scope shows its own entries that match the query; without one the index does.
pub proof fn law_visible(v: PaletteView, indexed: Seq<SearchEntry>)
    ensures
        v.scope is None ==> visible(v, indexed) == indexed,
        v.scope matches Some(s) ==> visible(v, indexed) == shown_list(
            lowered(s.entries),
            display_lens(s.entries),
            lowercase(v.query),
        ).map_values(|i: usize| s.entries[i as int]),
{
}

/// Nothing differs but the list and the selection.
pub open spec fn same_but_list(a: PaletteView, b: PaletteView) -> bool {
    a == (PaletteView { list_len: a.list_len, selected: a.selected, ..b })
}

/// Counting the list changes its length and, where it no longer lies in the list,
/// the selection, which returns to the top.
pub proof fn law_relisting(v: PaletteView, indexed: Seq<SearchEntry>)
    requires
        v.selected >= 0,
    ensures
        same_but_list(relisted(v, indexed), v),
        relisted(v, indexed).list_len == visible(v, indexed).len(),
        v.selected < visible(v, indexed).len() ==> relisted(v, indexed).selected == v.selected,
        v.selected >= visible(v, indexed).len() ==> relisted(v, indexed).selected == 0,
{
}

/// Dropping the results drops matches, their sections and the error, nothing else.
pub proof fn law_without_results(v: PaletteView)
    ensures
        without_results(v).bin_results is None,
        without_results(v).bin_sources.len() == 0,
        without_results(v).bin_error is None,
        v == (PaletteView {
            bin_results: v.bin_results,
            bin_sources: v.bin_sources,
            bin_error: v.bin_error,
            ..without_results(v)
        }),
{
}

/// Completions are kept for instructions only; the selection stays where it is or
/// moves to the last one.
pub proof fn law_completions(v: PaletteView, candidates: Seq<Seq<char>>)
    requires
        v.asm_selected >= 0,
    ensures
        ({
            let w = with_candidates(v, candidates);
            &&& v.bin_grammar is Bytes ==> w.asm_candidates.len() == 0 && w.asm_selected == 0
            &&& v.bin_grammar is Asm ==> w.asm_candidates == candidates
            &&& v.bin_grammar is Asm && v.asm_selected < candidates.len() ==> w.asm_selected
                == v.asm_selected
            &&& v.bin_grammar is Asm && 0 < candidates.len() <= v.asm_selected ==> w.asm_selected
                == candidates.len() - 1
            &&& v.bin_grammar is Asm && candidates.len() == 0 ==> w.asm_selected == 0
            &&& v == (PaletteView {
                asm_candidates: v.asm_candidates,
                asm_selected: v.asm_selected,
                ..w
            })
        }),
{
}

/// A selection moves as far as asked, and stops at the ends of the list.
pub proof fn law_moving(selected: int, delta: int, len: int)
    requires
        0 < len,
    ensures
        0 <= selected + delta < len ==> moved(selected, delta, len) == selected + delta,
        selected + delta < 0 ==> moved(selected, delta, len) == 0,
        selected + delta >= len ==> moved(selected, delta, len) == len - 1,
{
}

/// Typing goes to the text query in text search and while an annotation is typed. The
/// selection moves among the entries in text search, among the matches in byte
/// search. The arrow keys choose a completion while an instruction is typed.
pub proof fn law_palette_state(v: PaletteView)
    ensures
        Palette::types_text(v) <==> v.mode is Text || v.annotating,
        v.mode is Text ==> Palette::rows(v) == v.list_len,
        v.mode is Binary && v.bin_results is None ==> Palette::rows(v) == 0,
        v.mode is Binary && v.bin_results is Some ==> Palette::rows(v)
            == v.bin_results->0.matches@.len(),
        Palette::completing(v) <==> v.mode is Binary && v.bin_grammar is Asm && v.bin_results is None
            && v.asm_candidates.len() > 0,
{
}

// ---- the instruction being typed -------------------------------------------

proof fn lemma_last_before(t: Seq<char>, c: char, n: int)
    requires
        0 <= n <= t.len(),
    ensures
        -1 <= last_before(t, c, n) < n,
        last_before(t, c, n) >= 0 ==> t[last_before(t, c, n)] == c,
        forall|i: int| last_before(t, c, n) < i < n ==> #[trigger] t[i] != c,
    decreases n,
{
    if n > 0 && t[n - 1] != c {
        lemma_last_before(t, c, n - 1);
    }
}

/// The instruction being typed begins behind the last semicolon.
pub proof fn law_insn_start(t: Seq<char>)
    ensures
        0 <= insn_start(t) <= t.len(),
        insn_start(t) > 0 ==> t[insn_start(t) - 1] == ';',
        forall|i: int| insn_start(t) <= i < t.len() ==> #[trigger] t[i] != ';',
{
    lemma_last_before(t, ';', t.len() as int);
}

/// A completion replaces what stands behind the last semicolon, a space between
/// them; without a semicolon it replaces everything.
pub proof fn law_completed(before: Seq<char>, typed: Seq<char>, template: Seq<char>)
    requires
        !typed.contains(';'),
    ensures
        completed(typed, template) == template,
        completed(before.push(';') + typed, template) == before + seq![';', ' '] + template,
        active_insn(typed) == crate::text::trimmed(typed),
        active_insn(before.push(';') + typed) == crate::text::trimmed(typed),
{
    law_insn_start(typed);
    if insn_start(typed) > 0 {
        assert(typed.contains(typed[insn_start(typed) - 1]));
    }
    assert(typed.skip(0) =~= typed);
    let t = before.push(';') + typed;
    law_insn_start(t);
    let n = before.len() as int;
    assert(t[n] == ';');
    if insn_start(t) > n + 1 {
        assert(t[insn_start(t) - 1] == typed[insn_start(t) - 1 - (n + 1)]);
        assert(typed.contains(typed[insn_start(t) - 1 - (n + 1)]));
    }
    assert(insn_start(t) == n + 1);
    assert(t.skip(n + 1) =~= typed);
    reveal_strlit(" ");
    assert(t.take(n + 1) + " "@ + template =~= before + seq![';', ' '] + template);
}

/// What is typed can be completed where instructions are typed and a completion is
/// selected.
pub proof fn law_completion(v: PaletteView)
    requires
        v.asm_selected >= 0,
    ensures
        v.bin_grammar is Asm && v.asm_selected < v.asm_candidates.len() ==> Palette::completion(v)
            == Some(completed(v.bin_query, v.asm_candidates[v.asm_selected])),
        v.bin_grammar is Bytes || v.asm_selected >= v.asm_candidates.len() ==> Palette::completion(
            v,
        ) is None,
{
}

// ---- where a search starts -------------------------------------------------

/// An artifact owns a section of one of the lists.
pub open spec fn owns(
    a: ArtifactId,
    text: Seq<(SectionKey, TextSectionBytes)>,
    data: Seq<(SectionKey, DataSectionBytes)>,
) -> bool {
    ||| exists|i: int| 0 <= i < text.len() && (#[trigger] text[i]).0.0@ == a@
    ||| exists|i: int| 0 <= i < data.len() && (#[trigger] data[i]).0.0@ == a@
}

/// A byte search stays with its artifact while that has sections, and else turns to
/// the first artifact with code, or with data.
pub proof fn law_search_artifact(
    current: Option<ArtifactId>,
    text: Seq<(SectionKey, TextSectionBytes)>,
    data: Seq<(SectionKey, DataSectionBytes)>,
)
    ensures
        current matches Some(a) && owns(a, text, data) ==> search_artifact(current, text, data)
            == current,
        !(current matches Some(a) && owns(a, text, data)) ==> {
            &&& text.len() > 0 ==> search_artifact(current, text, data) == Some(text[0].0.0)
            &&& text.len() == 0 && data.len() > 0 ==> search_artifact(current, text, data) == Some(
                data[0].0.0,
            )
            &&& text.len() == 0 && data.len() == 0 ==> search_artifact(current, text, data) is None
        },
{
}

// ---- where an entry leads --------------------------------------------------

/// Leaf `k` is the first to show `st`.
pub open spec fn first_shown(kinds: Seq<LeafKind>, st: TabState, k: int) -> bool {
    &&& 0 <= k < kinds.len()
    &&& shows(kinds[k], st)
    &&& forall|j: int| 0 <= j < k ==> !shows(#[trigger] kinds[j], st)
}

proof fn lemma_leaf_of(kinds: Seq<LeafKind>, st: TabState)
    requires
        kinds.len() <= usize::MAX,
    ensures
        match leaf_of(Some(kinds), st) {
            Some(leaf) => first_shown(kinds, st, leaf.0 as int),
            None => forall|k: int| !#[trigger] first_shown(kinds, st, k),
        },
{
    law_backing_leaf(kinds, st, 0);
}

/// An entry of code or bytes leads to its address. One of a class, a line of it, or
/// an overview leads to the first leaf that shows it, and nowhere without one.
pub proof fn law_following(jump: SearchJump, kinds: Seq<LeafKind>, st: TabState)
    requires
        kinds.len() <= usize::MAX,
        match jump {
            SearchJump::SmaliClass { class_jni } => st == (TabState::SmaliClass {
                class_jni,
                scroll_line: 0,
            }),
            SearchJump::SmaliMethodLine { class_jni, .. } => st == (TabState::SmaliClass {
                class_jni,
                scroll_line: 0,
            }),
            SearchJump::SectionMap { artifact } => st == (TabState::SectionMap { artifact }),
            _ => true,
        },
    ensures
        ({
            let a = jump_action(jump, Some(kinds));
            match jump {
                SearchJump::Listing { artifact, section, addr } => a
                    == (PaletteAction::OpenListing { artifact, section, addr }),
                SearchJump::Hex { artifact, section, addr } => a == (PaletteAction::OpenHex {
                    artifact,
                    section,
                    addr,
                }),
                SearchJump::SmaliMethodLine { line, .. } => match a {
                    PaletteAction::GotoSmaliLine { leaf, line: l } => l == line && first_shown(
                        kinds,
                        st,
                        leaf.0 as int,
                    ),
                    PaletteAction::Nothing => forall|k: int| !#[trigger] first_shown(kinds, st, k),
                    _ => false,
                },
                _ => match a {
                    PaletteAction::OpenLeaf { leaf } => first_shown(kinds, st, leaf.0 as int),
                    PaletteAction::Nothing => forall|k: int| !#[trigger] first_shown(kinds, st, k),
                    _ => false,
                },
            }
        }),
{
    lemma_leaf_of(kinds, st);
}

/// Without a bundle only entries of code and bytes lead anywhere.
pub proof fn law_following_without_bundle(jump: SearchJump)
    ensures
        jump_action(jump, None) is Nothing <==> !(jump is Listing) && !(jump is Hex),
{
}

/// The selected match leads to its section at its address: to the listing where a
/// code section of the artifact contains the address, else to the bytes.
pub proof fn law_opening_a_match(v: PaletteView, b: &LoadedBundle, addr: u64)
    requires
        v.bin_results is Some,
        0 <= v.selected < v.bin_results->0.matches@.len(),
        v.selected < v.bin_sources.len(),
        address_of(v.bin_results->0.matches@[v.selected].address@) == Some(addr),
    ensures
        ({
            let key = v.bin_sources[v.selected];
            let code = b.native_sections@.contains_key(key.0@) && exists|k: int| #[trigger]
                offers(b.native_sections@[key.0@]@, k, true, addr);
            &&& code ==> match_action(v, Some(b)) == (PaletteAction::OpenListing {
                artifact: key.0,
                section: key.1,
                addr,
            })
            &&& !code ==> match_action(v, Some(b)) == (PaletteAction::OpenHex {
                artifact: key.0,
                section: key.1,
                addr,
            })
        }),
{
    let key = v.bin_sources[v.selected];
    if b.native_sections@.contains_key(key.0@) {
        law_section_holding(b.native_sections@[key.0@]@, true, addr, 0);
    }
}

/// Without a selected match, or without a bundle, nothing opens.
pub proof fn law_opening_nothing(v: PaletteView, b: Option<&LoadedBundle>)
    requires
        v.bin_results is None || v.selected >= v.bin_results->0.matches@.len() || v.selected
            >= v.bin_sources.len() || b is None || address_of(
            v.bin_results->0.matches@[v.selected].address@,
        ) is None,
    ensures
        match_action(v, b) is Nothing,
{
}

// ---- scopes that wait ------------------------------------------------------

/// What a state of an index means to who waits for it.
pub proof fn law_index_phase<T>(s: XrefIndexState<T>)
    ensures
        s.waited() is Ready <==> s is Ready,
        s.waited() is Failed <==> s is Failed,
        s.waited() is Waiting <==> s is Pending || s is Building,
        s.running() is Some <==> s is Building,
        s matches XrefIndexState::Building(p) ==> s.running() == Some(p),
{
}

/// A scope waits for the index that it queries.
pub proof fn law_index_of_scope(store: &XrefStore, source: PaletteScopeSource)
    ensures
        source is NativeXrefs ==> store.waited_for(source) == store.native.waited()
            && store.running_for(source) == store.native.running(),
        source is DexCallers ==> store.waited_for(source) == store.dex_callers.waited()
            && store.running_for(source) == store.dex_callers.running(),
        source is DexFieldRefs ==> store.waited_for(source) == store.dex_field_refs.waited()
            && store.running_for(source) == store.dex_field_refs.running(),
{
}

/// A scope that waits takes over the entries once the index is there, keeps what it
/// has where the index failed, and shows how far it is meanwhile. Its label and what
/// it queries stay.
pub proof fn law_waiting_scope(v: PaletteView, store: &XrefStore, rebuilt: Seq<SearchEntry>)
    requires
        v.scope is Some,
        v.selected >= 0,
    ensures
        ({
            let w = Palette::refreshed(v, store, rebuilt);
            let s = v.scope->0;
            let phase = store.waited_for(s.source);
            &&& w.scope is Some
            &&& w.scope->0.label == s.label
            &&& w.scope->0.source == s.source
            &&& phase is Ready ==> w.scope->0.entries == rebuilt && w.scope->0.progress is None
                && w.list_len == visible(w, Seq::empty()).len()
            &&& phase is Failed ==> w.scope->0.entries == s.entries && w.scope->0.progress is None
            &&& phase is Waiting ==> w.scope->0.entries == s.entries
            &&& phase is Waiting && store.running_for(s.source) is Some ==> w.scope->0.progress
                == store.running_for(s.source)
            &&& phase is Waiting && store.running_for(s.source) is None ==> w.scope->0.progress
                == s.progress
            &&& w.query == v.query
            &&& w.open == v.open
            &&& w.mode == v.mode
            &&& w.bin_results == v.bin_results
        }),
{
}

/// The palette waits while it is open on a scope whose index is not there yet and a
/// bundle is loaded.
pub proof fn law_waits(v: PaletteView, store: Option<&XrefStore>)
    ensures
        Palette::waits(v, store) <==> v.open && v.scope is Some && v.scope->0.progress is Some
            && store is Some,
{
}

} // verus!
