//! Sections and their map, and what the two panes show.

use crate::bundle::LoadedBundle;
use crate::digits::{decimal, hex, prefixed_hex, zero_padded};
use crate::leaf::{LeafId, Tab, TabKind};
use crate::section_map::{
    base_colour, blue, cursor_line, green, hovered_section, legend_order, lifted, lists_symbols,
    mixed, packed, pointed, range_line, red, sections_of, shown_colour, symbols_of, tooltip_fits,
    SectionMapView, Tooltip, WARNING_RED,
};
use crate::sections::{
    high_entropy, le_word, DataSectionBytes, NativeSectionKind, SectionInfo, TextSectionBytes,
    HIGH_ENTROPY_THRESHOLD,
};
use crate::symbols::{symbols_within, Symbol};
use crate::tree::RowView;
use crate::two_pane::{
    active, body_of, section_named, warned_entropy, BodyView, NavRow, PaneFlags, RowAction,
};
use vstd::prelude::*;

verus! {

// ---- sections --------------------------------------------------------------

/// Each kind of section has its colour and its word.
pub proof fn law_kinds(k: NativeSectionKind)
    ensures
        k is Text ==> k.rgb() == 0x4f7cff && k.word() == "code"@,
        k is Data ==> k.rgb() == 0x4cb964 && k.word() == "data"@,
        k is Rodata ==> k.rgb() == 0x4cc8b9 && k.word() == "rodata"@,
        k is Bss ==> k.rgb() == 0x6b6b75 && k.word() == "bss"@,
        k is Debug ==> k.rgb() == 0xa57ad6 && k.word() == "debug"@,
        k is Other ==> k.rgb() == 0x8a8a92 && k.word() == "other"@,
{
}

/// A section contains the addresses from its own up to its end; the very last address
/// belongs to none.
pub proof fn law_covers(s: SectionInfo, addr: u64)
    ensures
        s.covers(addr) <==> s.address <= addr < s.address + s.size && addr < u64::MAX,
{
}

/// A section counts as encrypted from an entropy of 7.4 on. The bits of a
/// single-precision number at least zero are in the order of the numbers, and those
/// above infinity are no numbers.
pub proof fn law_high_entropy(bits: u32)
    ensures
        high_entropy(bits) <==> 0x40EC_CCCD <= bits <= 0x7F80_0000,
        HIGH_ENTROPY_THRESHOLD == 0x40EC_CCCD,
{
}

/// The four-byte slot of an instruction holds its bytes, zero beyond them, and reads
/// as a little-endian number. Fixed-width instructions have one while four bytes are
/// left, others where they are at most four bytes long and lie in the section.
pub proof fn law_instruction_slot(t: TextSectionBytes, i: int, k: int)
    requires
        0 <= i,
        0 <= k < 4,
        t.precomputed matches Some(p) ==> i < p@.len() ==> t.base <= p@[i].address,
    ensures
        t.precomputed is None ==> (t.has_word(i) <==> 4 * i + 4 <= t.bytes@.len()),
        t.precomputed is None && t.has_word(i) ==> t.word_bytes(i)[k] == t.bytes@[4 * i + k],
        t.precomputed matches Some(p) ==> (t.has_word(i) <==> i < p@.len() && p@[i].size <= 4
            && p@[i].address + p@[i].size <= t.base + t.bytes@.len()),
        t.precomputed matches Some(p) ==> (t.has_word(i) && k < p@[i].size ==> t.word_bytes(i)[k]
            == t.bytes@[p@[i].address - t.base + k]),
        t.precomputed matches Some(p) ==> (t.has_word(i) && k >= p@[i].size ==> t.word_bytes(i)[k]
            == 0),
        le_word(t.word_bytes(i)) == t.word_bytes(i)[0] + 0x100 * t.word_bytes(i)[1] + 0x1_0000
            * t.word_bytes(i)[2] + 0x100_0000 * t.word_bytes(i)[3],
{
}

// ---- colours ---------------------------------------------------------------

/// A colour is its three channels.
pub proof fn law_channels(c: u32)
    requires
        c < 0x100_0000,
    ensures
        packed(red(c), green(c), blue(c)) == c,
        0 <= red(c) < 256,
        0 <= green(c) < 256,
        0 <= blue(c) < 256,
{
    let x = c as int;
    assert(x / 65536 < 256);
    assert(x / 256 / 256 == x / 65536);
    assert(x == 256 * (x / 256) + x % 256);
    assert(x / 256 == 256 * (x / 65536) + (x / 256) % 256);
}

/// A brightened channel is a quarter of the way to the brightest, rounded down.
pub proof fn law_lifted(c: int)
    requires
        0 <= c < 256,
    ensures
        4 * (lifted(c) - c) <= 255 - c < 4 * (lifted(c) - c) + 4,
{
}

/// A blended channel is as near to where it should be as a whole number can.
pub proof fn law_mixed(a: int, b: int, t: int)
    ensures
        100 * mixed(a, b, t) - 50 <= (100 - t) * a + t * b < 100 * mixed(a, b, t) + 50,
{
}

/// A section that looks encrypted is shaded 55 hundredths of the way to the warning
/// red; the section under the pointer is brightened.
pub proof fn law_cell_colour(s: SectionInfo)
    ensures
        WARNING_RED == 0xD0302E,
        !high_entropy(s.entropy) ==> shown_colour(s, false) == s.kind.rgb(),
        high_entropy(s.entropy) ==> base_colour(s) == packed(
            mixed(red(s.kind.rgb()), 0xD0, 55),
            mixed(green(s.kind.rgb()), 0x30, 55),
            mixed(blue(s.kind.rgb()), 0x2E, 55),
        ),
        !high_entropy(s.entropy) ==> base_colour(s) == s.kind.rgb(),
        shown_colour(s, true) == packed(
            lifted(red(base_colour(s) as u32)),
            lifted(green(base_colour(s) as u32)),
            lifted(blue(base_colour(s) as u32)),
        ),
        high_entropy(s.entropy) ==> shown_colour(s, false) == base_colour(s) as u32,
{
    assert(red(WARNING_RED) == 0xD0 && green(WARNING_RED) == 0x30 && blue(WARNING_RED) == 0x2E);
}

// ---- the section map -------------------------------------------------------

/// The section under the pointer is the one that the pointer is over.
pub proof fn law_hovered(sections: Seq<SectionInfo>, i: usize)
    ensures
        hovered_section(sections, None) is None,
        i < sections.len() ==> hovered_section(sections, Some(i)) == Some(sections[i as int]),
        i >= sections.len() ==> hovered_section(sections, Some(i)) is None,
{
}

/// The pointer leads to the start of the section where no address is known; in code to
/// the start of the function, or of the section without one; elsewhere to the address.
pub proof fn law_pointed(s: SectionInfo, cursor: Option<u64>, function: Option<u64>)
    ensures
        cursor is None ==> pointed(s, cursor, function) == s.address,
        cursor is Some && s.kind is Text && function is Some ==> pointed(s, cursor, function)
            == function->0,
        cursor is Some && s.kind is Text && function is None ==> pointed(s, cursor, function)
            == s.address,
        cursor is Some && !(s.kind is Text) ==> pointed(s, cursor, function) == cursor->0,
{
}

/// The legend names every kind once, code first.
pub proof fn law_legend(k: NativeSectionKind)
    ensures
        legend_order().len() == 6,
        legend_order().contains(k),
        legend_order() == seq![
            NativeSectionKind::Text,
            NativeSectionKind::Rodata,
            NativeSectionKind::Data,
            NativeSectionKind::Bss,
            NativeSectionKind::Debug,
            NativeSectionKind::Other,
        ],
{
    assert(legend_order()[0] is Text);
    assert(legend_order()[1] is Rodata);
    assert(legend_order()[2] is Data);
    assert(legend_order()[3] is Bss);
    assert(legend_order()[4] is Debug);
    assert(legend_order()[5] is Other);
}

/// The lines of the tooltip: where the section lies and how large it is, and which
/// function is under the pointer and how far into it.
pub proof fn law_tooltip_lines(s: SectionInfo, addr: u64, f: Symbol)
    requires
        f.address <= addr,
    ensures
        range_line(s) == prefixed_hex(s.address as int) + " – "@ + prefixed_hex(s.address + s.size)
            + "   ("@ + decimal(s.size as int) + " bytes)"@,
        cursor_line(addr, None) == "@ "@ + prefixed_hex(addr as int),
        f.address == addr ==> cursor_line(addr, Some(f)) == "@ "@ + prefixed_hex(addr as int)
            + "   "@ + f.display_name@,
        f.address < addr ==> cursor_line(addr, Some(f)) == "@ "@ + prefixed_hex(addr as int) + "   "@
            + f.display_name@ + " + "@ + prefixed_hex(addr - f.address),
{
}

/// The tooltip counts the symbols of the section, lists the first five of them, and
/// tells how many more there are.
pub proof fn law_tooltip_symbols(t: Tooltip, inside: Seq<Symbol>, i: int)
    requires
        lists_symbols(t, inside),
    ensures
        t.count@ == decimal(inside.len() as int) + " symbols in section"@,
        inside.len() <= 5 ==> t.symbols@.len() == inside.len() && t.more is None,
        inside.len() > 5 ==> t.symbols@.len() == 5 && t.more is Some && t.more->0@ == "… ("@
            + decimal(inside.len() - 5) + " more)"@,
        0 <= i < t.symbols@.len() ==> t.symbols@[i].name@ == inside[i].display_name@,
        0 <= i < t.symbols@.len() ==> t.symbols@[i].address@ == zero_padded(
            hex(inside[i].address as int),
            8,
        ),
{
}

/// The tooltip names its section and where it lies, tells what is under the pointer
/// where an address is known, and lists the symbols of the section.
pub proof fn law_tooltip(
    t: Tooltip,
    s: SectionInfo,
    cursor: Option<u64>,
    function: Option<&Symbol>,
    symbols: Seq<Symbol>,
)
    requires
        t.describes(s, cursor, function, symbols),
    ensures
        t.name@ == s.name@,
        t.kind == s.kind,
        t.range@ == range_line(s),
        t.cursor is Some <==> cursor is Some,
        cursor is Some && function is None ==> t.cursor->0@ == cursor_line(cursor->0, None),
        cursor is Some ==> (function matches Some(f) ==> t.cursor->0@ == cursor_line(
            cursor->0,
            Some(*f),
        )),
        lists_symbols(t, symbols_within(symbols, s.address as int, s.address + s.size)),
{
}

/// Nothing but address space and order is asked before a tooltip or a hex view is
/// built: the section ends at an address, and the function begins at or before the
/// address under the pointer.
pub proof fn law_ordinary_sections_are_shown(
    sections: Seq<SectionInfo>,
    hovered: Option<usize>,
    cursor: Option<u64>,
    function: Option<&Symbol>,
    d: DataSectionBytes,
)
    requires
        hovered matches Some(i) ==> i < sections.len() ==> sections[i as int].address
            + sections[i as int].size <= u64::MAX,
        cursor is Some && function is Some ==> function->0.address <= cursor->0,
        d.base + d.bytes@.len() <= u64::MAX,
    ensures
        tooltip_fits(sections, hovered, cursor, function),
        d.fits(),
{
}

/// The map draws every section once: a cell and a row, both lit under the pointer
/// only. Sections without bytes do not react.
pub proof fn law_section_rows(
    v: SectionMapView,
    sections: Seq<SectionInfo>,
    symbols: Seq<Symbol>,
    hovered: Option<usize>,
    cursor: Option<u64>,
    function: Option<&Symbol>,
    k: int,
)
    requires
        v.draws(sections, symbols, hovered, cursor, function),
        0 <= k < sections.len() <= usize::MAX,
    ensures
        v.cells@.len() == sections.len(),
        v.rows@.len() == sections.len(),
        v.rows@[k].name@ == sections[k].name@,
        v.rows@[k].address@ == prefixed_hex(sections[k].address as int),
        v.rows@[k].size@ == prefixed_hex(sections[k].size as int),
        v.rows@[k].kind == sections[k].kind,
        v.rows@[k].clickable <==> !(sections[k].kind is Bss),
        v.rows@[k].hot <==> hovered is Some && hovered->0 == k,
        v.cells@[k] == shown_colour(sections[k], v.rows@[k].hot),
        v.legend@ == legend_order(),
        v.tooltip is Some <==> hovered is Some && hovered->0 < sections.len(),
        v.tooltip is Some ==> v.tooltip->0.describes(
            sections[hovered->0 as int],
            cursor,
            function,
            symbols,
        ),
{
    let c = v.cells@[k];
    let r = v.rows@[k];
    assert(r.shows(sections[k], hovered == Some(k as usize)));
}

/// The sections and symbols of an artifact are those the bundle holds of it.
pub proof fn law_sections_of(b: &LoadedBundle, artifact: Seq<u8>)
    ensures
        b.native_sections@.contains_key(artifact) ==> sections_of(b, artifact)
            == b.native_sections@[artifact]@,
        !b.native_sections@.contains_key(artifact) ==> sections_of(b, artifact).len() == 0,
        b.symbol_maps@.contains_key(artifact) ==> symbols_of(b, artifact)
            == b.symbol_maps@[artifact]@,
        !b.symbol_maps@.contains_key(artifact) ==> symbols_of(b, artifact).len() == 0,
{
}

// ---- the warning -----------------------------------------------------------

/// A section is found by its name, the first one of several.
pub proof fn law_section_named(sections: Seq<SectionInfo>, name: Seq<char>, i: int, k: int)
    requires
        0 <= i <= k < sections.len(),
        sections[k].name@ == name,
        forall|j: int| i <= j < k ==> (#[trigger] sections[j]).name@ != name,
    ensures
        section_named(sections, name, i) == Some(sections[k]),
    decreases k - i,
{
    if i < k {
        law_section_named(sections, name, i + 1, k);
    }
}

/// The warning above a section tells its entropy where that is high; without such a
/// section there is no warning.
pub proof fn law_warning(sections: Seq<SectionInfo>, name: Seq<char>, k: int)
    requires
        0 <= k <= sections.len(),
        k < sections.len() ==> sections[k].name@ == name,
        forall|j: int| 0 <= j < k ==> (#[trigger] sections[j]).name@ != name,
    ensures
        k < sections.len() && 0x40EC_CCCD <= sections[k].entropy <= 0x7F80_0000 ==> warned_entropy(
            sections,
            name,
        ) == Some(sections[k].entropy),
        k < sections.len() && !(0x40EC_CCCD <= sections[k].entropy <= 0x7F80_0000)
            ==> warned_entropy(sections, name) is None,
        k == sections.len() ==> warned_entropy(sections, name) is None,
{
    if k < sections.len() {
        law_section_named(sections, name, 0, k);
    } else {
        lemma_unnamed(sections, name, 0);
    }
}

proof fn lemma_unnamed(sections: Seq<SectionInfo>, name: Seq<char>, i: int)
    requires
        0 <= i,
        forall|j: int| 0 <= j < sections.len() ==> (#[trigger] sections[j]).name@ != name,
    ensures
        section_named(sections, name, i) is None,
    decreases sections.len() - i,
{
    if i < sections.len() {
        lemma_unnamed(sections, name, i + 1);
    }
}

// ---- navigator and body ----------------------------------------------------

/// A row of the navigator shows a group with an arrow and opens or closes it; it shows
/// a leaf with its icon, lit if it is on show, and selects it.
pub proof fn law_navigator_row(
    r: NavRow,
    row: RowView,
    selected: Option<LeafId>,
    icons: Seq<&'static str>,
)
    requires
        r.is_row_of(row, selected, icons),
    ensures
        row is Group ==> {
            &&& r.depth == row->Group_depth
            &&& r.label@ == row->Group_label
            &&& !r.selected
            &&& r.chevron == Some('▾') <==> row->expanded
            &&& r.chevron == Some('▸') <==> !row->expanded
            &&& r.icon is None
            &&& r.action is Toggle && r.action->Toggle_0@ == row->path
        },
        row is Leaf ==> {
            &&& r.depth == row->Leaf_depth
            &&& r.label@ == row->Leaf_label
            &&& r.selected <==> selected == Some(row->leaf_id)
            &&& r.chevron is None
            &&& r.icon is Some <==> row->leaf_id.0 < icons.len()
            &&& row->leaf_id.0 < icons.len() ==> r.icon == Some(icons[row->leaf_id.0 as int])
            &&& r.action == RowAction::Select(row->leaf_id)
        },
{
}

/// The tab on show is the active one of those that are open.
pub proof fn law_active_tab(tabs: Seq<Tab>, i: usize)
    ensures
        active(tabs, None) is None,
        i < tabs.len() ==> active(tabs, Some(i)) == Some(tabs[i as int].kind),
        i >= tabs.len() ==> active(tabs, Some(i)) is None,
{
}

/// The right pane shows what the active tab is for. Bytes and listings come with the
/// warning of their section; a listing shows once it is ready; editors show once they
/// have something to edit.
pub proof fn law_body(t: TabKind, b: &LoadedBundle, flags: PaneFlags)
    ensures
        body_of(None, b, flags) is Empty,
        t is ObjCClass ==> body_of(Some(t), b, flags) is ObjCClass,
        t is SwiftType ==> body_of(Some(t), b, flags) is SwiftType,
        t is CoverageMap ==> body_of(Some(t), b, flags) is CoverageMap,
        t is SectionMap ==> body_of(Some(t), b, flags) == (BodyView::SectionMap {
            artifact: t->SectionMap_artifact,
        }),
        t is Hex ==> body_of(Some(t), b, flags) == (BodyView::Hex {
            artifact: t->Hex_artifact,
            section: t->Hex_section,
            warning: warned_entropy(sections_of(b, t->Hex_artifact@), t->Hex_section@),
        }),
        t is Listing && flags.listing_ready ==> body_of(Some(t), b, flags) == (BodyView::Listing {
            artifact: t->Listing_artifact,
            section: t->Listing_section,
            warning: warned_entropy(sections_of(b, t->Listing_artifact@), t->Listing_section@),
        }),
        t is Listing && !flags.listing_ready ==> body_of(Some(t), b, flags) is Disassembling,
        t is Cfg ==> body_of(Some(t), b, flags) == (BodyView::Cfg {
            artifact: t->Cfg_artifact,
            entry_addr: t->Cfg_entry_addr,
        }),
        t is DexCallGraph ==> body_of(Some(t), b, flags) == (BodyView::DexCallGraph {
            class_jni: t->DexCallGraph_class_jni,
            method_decl: t->DexCallGraph_method_decl,
        }),
        t is ManifestEditor || t is PlistEditor || t is ScriptEditor || t is SmaliEditor ==> {
            &&& flags.has_editor ==> body_of(Some(t), b, flags) is Editor
            &&& !flags.has_editor ==> body_of(Some(t), b, flags) is Empty
        },
{
}

} // verus!
