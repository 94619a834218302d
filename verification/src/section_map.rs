//! Section-map view: the coloured strip, its legend, table and tooltip.

use crate::bundle::LoadedBundle;
use crate::digits::{
    decimal, hex, hex_text, prefixed_hex, to_decimal, to_hex_padded, zero_padded,
};
use crate::ids::ArtifactId;
use crate::sections::{high_entropy, NativeSectionKind, SectionInfo};
use crate::symbols::{symbols_within, Symbol, SymbolMap};
use crate::text::{join2, join3};
use vstd::prelude::*;

verus! {

// ---- colours ---------------------------------------------------------------

/// The red channel of a packed `0xRRGGBB` colour.
pub open spec fn red(c: u32) -> int {
    c as int / 65536 % 256
}

/// The green channel of a packed colour.
pub open spec fn green(c: u32) -> int {
    c as int / 256 % 256
}

/// The blue channel of a packed colour.
pub open spec fn blue(c: u32) -> int {
    c as int % 256
}

/// The packed colour of three channels.
pub open spec fn packed(r: int, g: int, b: int) -> int {
    r * 65536 + g * 256 + b
}

/// A channel lifted a quarter of the way towards the brightest.
pub open spec fn lifted(c: int) -> int {
    c + (255 - c) / 4
}

fn lift(c: u32) -> (r: u32)
    requires
        c < 256,
    ensures
        r == lifted(c as int),
        r < 256,
{
    c + (255 - c) / 4
}

/// The colour with each channel lifted a quarter of the way towards the
/// brightest: the hover highlight.
pub fn brighten(rgb_hex: u32) -> (r: u32)
    ensures
        r == packed(lifted(red(rgb_hex)), lifted(green(rgb_hex)), lifted(blue(rgb_hex))),
{
    let r: u32 = lift(rgb_hex / 65536 % 256);
    let g: u32 = lift(rgb_hex / 256 % 256);
    let b: u32 = lift(rgb_hex % 256);
    r * 65536 + g * 256 + b
}

/// A channel between `a` and `b`, `t` hundredths of the way from `a`, rounded
/// to the nearest with halves rounded up.
pub open spec fn mixed(a: int, b: int, t: int) -> int {
    ((100 - t) * a + t * b + 50) / 100
}

fn mix(a: u32, b: u32, t: u32) -> (r: u32)
    requires
        a < 256,
        b < 256,
        t <= 100,
    ensures
        r == mixed(a as int, b as int, t as int),
        r < 256,
{
    proof {
        assert((100 - t) * a <= (100 - t) * 255) by (nonlinear_arith)
            requires
                a < 256,
                t <= 100,
        ;
        assert(t * b <= t * 255) by (nonlinear_arith)
            requires
                b < 256,
        ;
        assert((100 - t) * a >= 0) by (nonlinear_arith)
            requires
                t <= 100,
        ;
        assert(t * b >= 0) by (nonlinear_arith);
    }
    ((100 - t) * a + t * b + 50) / 100
}

/// The colour `t` hundredths of the way from `a` to `b`.
pub fn blend(a: u32, b: u32, t: u32) -> (r: u32)
    requires
        t <= 100,
    ensures
        r == packed(
            mixed(red(a), red(b), t as int),
            mixed(green(a), green(b), t as int),
            mixed(blue(a), blue(b), t as int),
        ),
{
    let r: u32 = mix(a / 65536 % 256, b / 65536 % 256, t);
    let g: u32 = mix(a / 256 % 256, b / 256 % 256, t);
    let bl: u32 = mix(a % 256, b % 256, t);
    r * 65536 + g * 256 + bl
}

/// The colour that flags sections which look encrypted.
pub const WARNING_RED: u32 = 0xD0302E;

/// A kind colour shaded towards the warning red.
pub open spec fn tinted(c: u32) -> int {
    packed(
        mixed(red(c), red(WARNING_RED), 55),
        mixed(green(c), green(WARNING_RED), 55),
        mixed(blue(c), blue(WARNING_RED), 55),
    )
}

/// A kind colour shaded towards the warning red, for sections that look
/// encrypted; a trace of the kind colour stays.
pub fn entropy_tint(rgb_hex: u32) -> (r: u32)
    ensures
        r == tinted(rgb_hex),
{
    blend(rgb_hex, WARNING_RED, 55)
}

/// The colour of a section's cell before hovering.
pub open spec fn base_colour(s: SectionInfo) -> int {
    if high_entropy(s.entropy) {
        tinted(s.kind.rgb())
    } else {
        s.kind.rgb() as int
    }
}

/// The colour of a section's cell: shaded towards red where the section looks
/// encrypted, brightened under the pointer.
pub open spec fn shown_colour(s: SectionInfo, hot: bool) -> int {
    let base = base_colour(s) as u32;
    if hot {
        packed(lifted(red(base)), lifted(green(base)), lifted(blue(base)))
    } else {
        base as int
    }
}

/// The colour of a section's cell in the strip.
pub fn cell_colour(s: &SectionInfo, hot: bool) -> (r: u32)
    ensures
        r == shown_colour(*s, hot),
{
    let base: u32 = if s.likely_encrypted() {
        entropy_tint(s.kind.colour())
    } else {
        s.kind.colour()
    };
    if hot {
        brighten(base)
    } else {
        base
    }
}

/// Brightening never darkens a channel and keeps it in range; the brightest
/// stays.
pub proof fn law_brighten_lifts(c: int)
    requires
        0 <= c < 256,
    ensures
        c <= lifted(c) < 256,
        lifted(255) == 255,
        c < 252 ==> c < lifted(c),
{
}

/// Blending starts at the first colour, ends at the second, and stays between
/// them.
pub proof fn law_blend_stays_between(a: int, b: int, t: int)
    requires
        0 <= a < 256,
        0 <= b < 256,
        0 <= t <= 100,
    ensures
        mixed(a, b, 0) == a,
        mixed(a, b, 100) == b,
        a <= b ==> a <= mixed(a, b, t) <= b,
        b <= a ==> b <= mixed(a, b, t) <= a,
{
    assert((100 - t) * a + t * b == 100 * a + t * (b - a)) by (nonlinear_arith);
    if a <= b {
        assert(0 <= t * (b - a) <= 100 * (b - a)) by (nonlinear_arith)
            requires
                0 <= t <= 100,
                a <= b,
        ;
    } else {
        assert(100 * (b - a) <= t * (b - a) <= 0) by (nonlinear_arith)
            requires
                0 <= t <= 100,
                b <= a,
        ;
    }
}

/// A tinted colour leans towards the warning red: a grey becomes clearly
/// redder than it is green or blue.
pub proof fn law_tint_reddens(grey: int)
    requires
        0 <= grey < 256,
    ensures
        mixed(grey, red(WARNING_RED), 55) > mixed(grey, green(WARNING_RED), 55) + 0x20,
        mixed(grey, red(WARNING_RED), 55) > mixed(grey, blue(WARNING_RED), 55) + 0x20,
{
}

// ---- clicks ----------------------------------------------------------------

/// How a click opens its target.
#[derive(Clone, Copy, Debug, PartialEq, Eq, Structural)]
pub enum OpenMode {
    /// In the tab on show.
    Here,
    /// In a tab of its own, or the one that shows the target already.
    NewTab,
    /// In a tab of its own in any case.
    ForceNewTab,
}

/// What a click on the strip or the table opens.
#[derive(Debug)]
pub enum SectionAction {
    Nothing,
    Listing { section: String, addr: u64, mode: OpenMode },
    Hex { section: String, addr: u64, mode: OpenMode },
}

/// The context menu of the strip: where its entries lead.
#[derive(Debug)]
pub struct SectionMenu {
    pub section: String,
    pub addr: u64,
    /// The entries open bytes, not a listing.
    pub is_hex: bool,
    pub display: String,
}

/// The section under the pointer.
pub open spec fn hovered_section(sections: Seq<SectionInfo>, hovered: Option<usize>) -> Option<
    SectionInfo,
> {
    match hovered {
        Some(i) => if i < sections.len() {
            Some(sections[i as int])
        } else {
            None
        },
        None => None,
    }
}

/// Where in section `s` the pointer leads: in code to the start of the function
/// that covers the address under it, elsewhere to that address; without one, to
/// the start of the section.
pub open spec fn pointed(s: SectionInfo, cursor: Option<u64>, function: Option<u64>) -> u64 {
    match (cursor, s.kind) {
        (Some(c), NativeSectionKind::Text) => match function {
            Some(f) => f,
            None => s.address,
        },
        (Some(c), _) => c,
        (None, _) => s.address,
    }
}

fn point(s: &SectionInfo, cursor: Option<u64>, function: Option<u64>) -> (r: u64)
    ensures
        r == pointed(*s, cursor, function),
{
    match cursor {
        Some(c) => if s.kind == NativeSectionKind::Text {
            match function {
                Some(f) => f,
                None => s.address,
            }
        } else {
            c
        },
        None => s.address,
    }
}

fn find_hovered(sections: &Vec<SectionInfo>, hovered: Option<usize>) -> (r: Option<&SectionInfo>)
    ensures
        match r {
            Some(s) => hovered_section(sections@, hovered) == Some(*s),
            None => hovered_section(sections@, hovered) is None,
        },
{
    match hovered {
        Some(i) => if i < sections.len() {
            Some(&sections[i])
        } else {
            None
        },
        None => None,
    }
}

/// What a click on the strip opens. `cursor` is the address under the pointer,
/// `function` the start of the function that covers it. Code opens as a listing,
/// other bytes as hex; sections without bytes open nothing.
pub fn section_click(
    sections: &Vec<SectionInfo>,
    hovered: Option<usize>,
    cursor: Option<u64>,
    function: Option<u64>,
    shift: bool,
) -> (r: SectionAction)
    ensures
        match hovered_section(sections@, hovered) {
            None => r is Nothing,
            Some(s) => match s.kind {
                NativeSectionKind::Bss => r is Nothing,
                NativeSectionKind::Text => r == (SectionAction::Listing {
                    section: s.name,
                    addr: pointed(s, cursor, function),
                    mode: if shift {
                        OpenMode::ForceNewTab
                    } else {
                        OpenMode::Here
                    },
                }),
                _ => r == (SectionAction::Hex {
                    section: s.name,
                    addr: pointed(s, cursor, function),
                    mode: if shift {
                        OpenMode::ForceNewTab
                    } else {
                        OpenMode::NewTab
                    },
                }),
            },
        },
{
    let s = match find_hovered(sections, hovered) {
        Some(s) => s,
        None => {
            return SectionAction::Nothing;
        },
    };
    let addr: u64 = point(s, cursor, function);
    match s.kind {
        NativeSectionKind::Text => SectionAction::Listing {
            section: s.name.clone(),
            addr,
            mode: if shift {
                OpenMode::ForceNewTab
            } else {
                OpenMode::Here
            },
        },
        NativeSectionKind::Bss => SectionAction::Nothing,
        _ => SectionAction::Hex {
            section: s.name.clone(),
            addr,
            mode: if shift {
                OpenMode::ForceNewTab
            } else {
                OpenMode::NewTab
            },
        },
    }
}

/// The context menu of the strip; sections without bytes have none.
pub fn section_menu(
    sections: &Vec<SectionInfo>,
    hovered: Option<usize>,
    cursor: Option<u64>,
    function: Option<u64>,
) -> (r: Option<SectionMenu>)
    ensures
        match hovered_section(sections@, hovered) {
            Some(s) if s.kind != NativeSectionKind::Bss => r == Some(
                SectionMenu {
                    section: s.name,
                    addr: pointed(s, cursor, function),
                    is_hex: s.kind != NativeSectionKind::Text,
                    display: s.name,
                },
            ),
            _ => r is None,
        },
{
    let s = match find_hovered(sections, hovered) {
        Some(s) => s,
        None => {
            return None;
        },
    };
    if s.kind == NativeSectionKind::Bss {
        return None;
    }
    Some(
        SectionMenu {
            section: s.name.clone(),
            addr: point(s, cursor, function),
            is_hex: s.kind != NativeSectionKind::Text,
            display: s.name.clone(),
        },
    )
}

/// What a click on a table row opens: the start of the section.
pub fn row_click(s: &SectionInfo) -> (r: SectionAction)
    ensures
        match s.kind {
            NativeSectionKind::Bss => r is Nothing,
            NativeSectionKind::Text => r == (SectionAction::Listing {
                section: s.name,
                addr: s.address,
                mode: OpenMode::NewTab,
            }),
            _ => r == (SectionAction::Hex {
                section: s.name,
                addr: s.address,
                mode: OpenMode::NewTab,
            }),
        },
{
    match s.kind {
        NativeSectionKind::Text => SectionAction::Listing {
            section: s.name.clone(),
            addr: s.address,
            mode: OpenMode::NewTab,
        },
        NativeSectionKind::Bss => SectionAction::Nothing,
        _ => SectionAction::Hex {
            section: s.name.clone(),
            addr: s.address,
            mode: OpenMode::NewTab,
        },
    }
}

// ---- legend and table ------------------------------------------------------

/// The kinds in the order of the legend.
pub open spec fn legend_order() -> Seq<NativeSectionKind> {
    seq![
        NativeSectionKind::Text,
        NativeSectionKind::Rodata,
        NativeSectionKind::Data,
        NativeSectionKind::Bss,
        NativeSectionKind::Debug,
        NativeSectionKind::Other,
    ]
}

/// The kinds in the order of the legend.
pub fn legend() -> (r: Vec<NativeSectionKind>)
    ensures
        r@ == legend_order(),
{
    let mut r: Vec<NativeSectionKind> = Vec::new();
    r.push(NativeSectionKind::Text);
    r.push(NativeSectionKind::Rodata);
    r.push(NativeSectionKind::Data);
    r.push(NativeSectionKind::Bss);
    r.push(NativeSectionKind::Debug);
    r.push(NativeSectionKind::Other);
    assert(r@ =~= legend_order());
    r
}

/// One row of the section table.
#[derive(Debug)]
pub struct TableRow {
    pub name: String,
    pub address: String,
    pub size: String,
    pub kind: NativeSectionKind,
    /// The row reacts to clicks.
    pub clickable: bool,
    /// The row is highlighted.
    pub hot: bool,
}

impl TableRow {
    /// The row shows a section.
    pub open spec fn shows(&self, s: SectionInfo, hot: bool) -> bool {
        &&& self.name@ == s.name@
        &&& self.address@ == prefixed_hex(s.address as int)
        &&& self.size@ == prefixed_hex(s.size as int)
        &&& self.kind == s.kind
        &&& self.clickable == (s.kind != NativeSectionKind::Bss)
        &&& self.hot == hot
    }
}

/// The table row of a section.
pub fn table_row(s: &SectionInfo, hot: bool) -> (r: TableRow)
    ensures
        r.shows(*s, hot),
{
    TableRow {
        name: s.name.clone(),
        address: hex_text(s.address),
        size: hex_text(s.size),
        kind: s.kind,
        clickable: s.kind != NativeSectionKind::Bss,
        hot,
    }
}

// ---- tooltip ---------------------------------------------------------------

/// A symbol as the tooltip lists it.
#[derive(Debug)]
pub struct TooltipSymbol {
    pub address: String,
    pub name: String,
}

/// The tooltip of the section under the pointer.
#[derive(Debug)]
pub struct Tooltip {
    pub name: String,
    pub kind: NativeSectionKind,
    pub range: String,
    /// What lies under the cursor.
    pub cursor: Option<String>,
    pub count: String,
    /// The first symbols of the section.
    pub symbols: Vec<TooltipSymbol>,
    /// How many symbols are not listed.
    pub more: Option<String>,
}

/// How many symbols the tooltip lists.
pub const TOOLTIP_SYMBOLS: usize = 5;

/// The line for the address under the cursor: the function that covers it, and
/// how far into it the address lies.
pub open spec fn cursor_line(addr: u64, function: Option<Symbol>) -> Seq<char> {
    let at = "@ "@ + prefixed_hex(addr as int);
    match function {
        Some(s) => if s.address == addr {
            at + "   "@ + s.display_name@
        } else {
            at + "   "@ + s.display_name@ + " + "@ + prefixed_hex(addr - s.address)
        },
        None => at,
    }
}

fn cursor_text(addr: u64, function: Option<&Symbol>) -> (r: String)
    requires
        function matches Some(s) ==> s.address <= addr,
    ensures
        r@ == cursor_line(addr, plain(function)),
{
    let place = hex_text(addr);
    let at = join2("@ ", place.as_str());
    match function {
        Some(s) => {
            let named = join3(at.as_str(), "   ", s.display_name.as_str());
            if s.address == addr {
                named
            } else {
                let off = hex_text(addr - s.address);
                join3(named.as_str(), " + ", off.as_str())
            }
        },
        None => at,
    }
}

/// The line for the extent of a section.
pub open spec fn range_line(s: SectionInfo) -> Seq<char> {
    prefixed_hex(s.address as int) + " – "@ + prefixed_hex(s.address + s.size) + "   ("@ + decimal(
        s.size as int,
    ) + " bytes)"@
}

/// What the tooltip says of the symbols in a section: how many there are, the
/// first few, and how many more.
pub open spec fn lists_symbols(t: Tooltip, inside: Seq<Symbol>) -> bool {
    let shown = if inside.len() < TOOLTIP_SYMBOLS {
        inside.len() as int
    } else {
        TOOLTIP_SYMBOLS as int
    };
    &&& t.count@ == decimal(inside.len() as int) + " symbols in section"@
    &&& t.symbols@.len() == shown
    &&& forall|i: int|
        0 <= i < shown ==> {
            &&& (#[trigger] t.symbols@[i]).address@ == zero_padded(hex(inside[i].address as int), 8)
            &&& t.symbols@[i].name@ == inside[i].display_name@
        }
    &&& match t.more {
        Some(line) => inside.len() > TOOLTIP_SYMBOLS && line@ == "… ("@ + decimal(
            inside.len() - TOOLTIP_SYMBOLS,
        ) + " more)"@,
        None => inside.len() <= TOOLTIP_SYMBOLS,
    }
}

/// The function under the cursor, as a plain value.
pub open spec fn plain(function: Option<&Symbol>) -> Option<Symbol> {
    match function {
        Some(f) => Some(*f),
        None => None,
    }
}

impl Tooltip {
    /// The tooltip describes a section.
    pub open spec fn describes(
        self,
        s: SectionInfo,
        cursor: Option<u64>,
        function: Option<&Symbol>,
        symbols: Seq<Symbol>,
    ) -> bool {
        &&& self.name@ == s.name@
        &&& self.kind == s.kind
        &&& self.range@ == range_line(s)
        &&& match (cursor, self.cursor) {
            (Some(c), Some(line)) => line@ == cursor_line(c, plain(function)),
            (None, None) => true,
            _ => false,
        }
        &&& lists_symbols(self, symbols_within(symbols, s.address as int, s.address + s.size))
    }
}

/// The end of the section under the pointer is an address, and the function lies
/// under the cursor.
pub open spec fn tooltip_fits(
    sections: Seq<SectionInfo>,
    hovered: Option<usize>,
    cursor: Option<u64>,
    function: Option<&Symbol>,
) -> bool {
    &&& hovered_section(sections, hovered) matches Some(s) ==> s.address + s.size <= u64::MAX
    &&& function matches Some(f) ==> (cursor matches Some(c) ==> f.address <= c)
}

/// The tooltip of the section under the pointer; none where there is no such
/// section. `function` is the function that covers the address under the
/// cursor.
pub fn build_section_tooltip(
    sections: &Vec<SectionInfo>,
    hovered: Option<usize>,
    cursor: Option<u64>,
    function: Option<&Symbol>,
    symbols: &SymbolMap,
) -> (r: Option<Tooltip>)
    requires
        tooltip_fits(sections@, hovered, cursor, function),
    ensures
        match (hovered_section(sections@, hovered), r) {
            (Some(s), Some(t)) => t.describes(s, cursor, function, symbols@),
            (None, None) => true,
            _ => false,
        },
{
    let s = match find_hovered(sections, hovered) {
        Some(s) => s,
        None => {
            return None;
        },
    };
    let end: u64 = s.address + s.size;
    let (from, to) = symbols.in_range(s.address, end);
    let ghost inside = symbols_within(symbols@, s.address as int, end as int);
    let total: usize = to - from;
    let shown: usize = if total < TOOLTIP_SYMBOLS {
        total
    } else {
        TOOLTIP_SYMBOLS
    };
    let start_text = hex_text(s.address);
    let end_text = hex_text(end);
    let span = join3(start_text.as_str(), " – ", end_text.as_str());
    let size_text = to_decimal(s.size);
    let sized = join3(span.as_str(), "   (", size_text.as_str());
    let range = join2(sized.as_str(), " bytes)");
    let cursor_part = match cursor {
        Some(c) => Some(cursor_text(c, function)),
        None => None,
    };
    let count_text = to_decimal(total as u64);
    let count = join2(count_text.as_str(), " symbols in section");
    let mut list: Vec<TooltipSymbol> = Vec::new();
    let mut k: usize = 0;
    while k < shown
        invariant
            shown <= total,
            total == to - from,
            from <= to <= symbols@.len(),
            inside == symbols@.subrange(from as int, to as int),
            k <= shown,
            list@.len() == k,
            forall|i: int|
                0 <= i < k ==> {
                    &&& (#[trigger] list@[i]).address@ == zero_padded(
                        hex(inside[i].address as int),
                        8,
                    )
                    &&& list@[i].name@ == inside[i].display_name@
                },
        decreases shown - k,
    {
        let sym = symbols.get(from + k);
        assert(inside[k as int] == *sym);
        list.push(
            TooltipSymbol {
                address: to_hex_padded(sym.address, 8),
                name: sym.display_name.clone(),
            },
        );
        k += 1;
    }
    let more = if total > TOOLTIP_SYMBOLS {
        let rest = to_decimal((total - TOOLTIP_SYMBOLS) as u64);
        Some(join3("… (", rest.as_str(), " more)"))
    } else {
        None
    };
    Some(
        Tooltip {
            name: s.name.clone(),
            kind: s.kind,
            range,
            cursor: cursor_part,
            count,
            symbols: list,
            more,
        },
    )
}

// ---- the whole view --------------------------------------------------------

/// What the section map of an artifact shows.
#[derive(Debug)]
pub struct SectionMapView {
    /// Colours of the strip, one for every section.
    pub cells: Vec<u32>,
    pub legend: Vec<NativeSectionKind>,
    pub rows: Vec<TableRow>,
    pub tooltip: Option<Tooltip>,
}

/// The sections of an artifact; none where it is not native.
pub open spec fn sections_of(bundle: &LoadedBundle, artifact: Seq<u8>) -> Seq<SectionInfo> {
    if bundle.native_sections@.contains_key(artifact) {
        bundle.native_sections@[artifact]@
    } else {
        Seq::empty()
    }
}

/// The symbols of an artifact; none where it has no map.
pub open spec fn symbols_of(bundle: &LoadedBundle, artifact: Seq<u8>) -> Seq<Symbol> {
    if bundle.symbol_maps@.contains_key(artifact) {
        bundle.symbol_maps@[artifact]@
    } else {
        Seq::empty()
    }
}

fn build_view(
    sections: &Vec<SectionInfo>,
    symbols: &SymbolMap,
    hovered: Option<usize>,
    cursor: Option<u64>,
    function: Option<&Symbol>,
) -> (r: SectionMapView)
    requires
        tooltip_fits(sections@, hovered, cursor, function),
    ensures
        r.draws(sections@, symbols@, hovered, cursor, function),
{
    let mut cells: Vec<u32> = Vec::new();
    let mut rows: Vec<TableRow> = Vec::new();
    let mut i: usize = 0;
    while i < sections.len()
        invariant
            i <= sections@.len(),
            cells@.len() == i,
            rows@.len() == i,
            forall|k: int|
                0 <= k < i ==> #[trigger] cells@[k] == shown_colour(
                    sections@[k],
                    hovered == Some(k as usize),
                ),
            forall|k: int|
                0 <= k < i ==> (#[trigger] rows@[k]).shows(
                    sections@[k],
                    hovered == Some(k as usize),
                ),
        decreases sections@.len() - i,
    {
        let hot: bool = match hovered {
            Some(h) => h == i,
            None => false,
        };
        cells.push(cell_colour(&sections[i], hot));
        rows.push(table_row(&sections[i], hot));
        i += 1;
    }
    SectionMapView {
        cells,
        legend: legend(),
        rows,
        tooltip: build_section_tooltip(sections, hovered, cursor, function, symbols),
    }
}

impl SectionMapView {
    /// The view draws sections and symbols.
    pub open spec fn draws(
        &self,
        sections: Seq<SectionInfo>,
        symbols: Seq<Symbol>,
        hovered: Option<usize>,
        cursor: Option<u64>,
        function: Option<&Symbol>,
    ) -> bool {
        &&& self.cells@.len() == sections.len()
        &&& forall|k: int|
            0 <= k < sections.len() ==> #[trigger] self.cells@[k] == shown_colour(
                sections[k],
                hovered == Some(k as usize),
            )
        &&& self.legend@ == legend_order()
        &&& self.rows@.len() == sections.len()
        &&& forall|k: int|
            0 <= k < sections.len() ==> (#[trigger] self.rows@[k]).shows(
                sections[k],
                hovered == Some(k as usize),
            )
        &&& match (hovered_section(sections, hovered), self.tooltip) {
            (Some(s), Some(t)) => t.describes(s, cursor, function, symbols),
            (None, None) => true,
            _ => false,
        }
    }
}

/// The section map of an artifact: strip, legend, table and tooltip.
pub fn render_section_map(
    bundle: &LoadedBundle,
    artifact: &ArtifactId,
    hovered: Option<usize>,
    cursor: Option<u64>,
    function: Option<&Symbol>,
) -> (r: SectionMapView)
    requires
        tooltip_fits(sections_of(bundle, artifact@), hovered, cursor, function),
    ensures
        r.draws(
            sections_of(bundle, artifact@),
            symbols_of(bundle, artifact@),
            hovered,
            cursor,
            function,
        ),
{
    let none: Vec<SectionInfo> = Vec::new();
    let sections = match bundle.native_sections.get(artifact) {
        Some(s) => s,
        None => &none,
    };
    let empty = SymbolMap::from_symbols(Vec::new());
    let symbols = match bundle.symbol_maps.get(artifact) {
        Some(m) => m,
        None => &empty,
    };
    assert(none@ =~= Seq::empty());
    assert(empty@ =~= Seq::empty());
    build_view(sections, symbols, hovered, cursor, function)
}

} // verus!
