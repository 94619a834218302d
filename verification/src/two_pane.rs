//! The two-pane layout: the navigator on the left, the active tab on the right.

use crate::bundle::LoadedBundle;
use crate::ids::ArtifactId;
use crate::leaf::{LeafId, Tab, TabKind};
use crate::section_map::sections_of;
use crate::sections::{high_entropy, SectionInfo};
use crate::text::{join3, same_str};
use crate::tree::{flatten, row_views, rows_under, Expanded, RowKind, RowView, VisibleRow};
use vstd::prelude::*;

verus! {

// ---- encryption warning ----------------------------------------------------

/// The first section with a name, from position `i` on.
pub open spec fn section_named(sections: Seq<SectionInfo>, name: Seq<char>, i: int) -> Option<
    SectionInfo,
>
    decreases sections.len() - i,
{
    if i < 0 || i >= sections.len() {
        None
    } else if sections[i].name@ == name {
        Some(sections[i])
    } else {
        section_named(sections, name, i + 1)
    }
}

/// The entropy to warn of above the view of a section, as the bit pattern of a
/// single-precision number; `None` where there is nothing to warn of.
pub open spec fn warned_entropy(sections: Seq<SectionInfo>, name: Seq<char>) -> Option<u32> {
    match section_named(sections, name, 0) {
        Some(s) if high_entropy(s.entropy) => Some(s.entropy),
        _ => None,
    }
}

/// The entropy to warn of above the view of a section.
pub fn encryption_warning(bundle: &LoadedBundle, artifact: &ArtifactId, section: &str) -> (r: Option<
    u32,
>)
    ensures
        r == warned_entropy(sections_of(bundle, artifact@), section@),
{
    let sections = match bundle.native_sections.get(artifact) {
        Some(s) => s,
        None => {
            return None;
        },
    };
    let mut i: usize = 0;
    while i < sections.len()
        invariant
            sections@ == sections_of(bundle, artifact@),
            i <= sections@.len(),
            section_named(sections@, section@, 0) == section_named(
                sections@,
                section@,
                i as int,
            ),
        decreases sections@.len() - i,
    {
        let s = &sections[i];
        if same_str(s.name.as_str(), section) {
            return if s.likely_encrypted() {
                Some(s.entropy)
            } else {
                None
            };
        }
        i += 1;
    }
    None
}

/// The text of the warning for an entropy, given in bits per byte with two
/// decimals.
pub fn encryption_warning_banner(entropy: &str) -> (r: String)
    ensures
        r@ == "⚠ High entropy ("@ + entropy@
            + " bits/byte) — this section is probably encrypted or packed; the decoded output below may be meaningless."@,
{
    join3(
        "⚠ High entropy (",
        entropy,
        " bits/byte) — this section is probably encrypted or packed; the decoded output below may be meaningless.",
    )
}

// ---- navigator -------------------------------------------------------------

/// What a click on a navigator row does.
#[derive(Debug)]
pub enum RowAction {
    Toggle(Vec<usize>),
    Select(LeafId),
}

/// One row of the navigator.
#[derive(Debug)]
pub struct NavRow {
    pub depth: usize,
    pub label: String,
    pub selected: bool,
    /// Arrow before a group: down if it is open. Leaves have none.
    pub chevron: Option<char>,
    /// The asset path of a leaf's icon; an empty slot without one.
    pub icon: Option<&'static str>,
    pub action: RowAction,
}

/// The icon of a leaf.
pub open spec fn icon_at(icons: Seq<&'static str>, leaf_id: LeafId) -> Option<&'static str> {
    if leaf_id.0 < icons.len() {
        Some(icons[leaf_id.0 as int])
    } else {
        None
    }
}

impl NavRow {
    /// The navigator row of a visible row, given the leaf on show and the icons
    /// of the leaves.
    pub open spec fn is_row_of(
        &self,
        row: RowView,
        selected: Option<LeafId>,
        icons: Seq<&'static str>,
    ) -> bool {
        match row {
            RowView::Group { depth, path, expanded, label } => {
                &&& self.depth == depth
                &&& self.label@ == label
                &&& !self.selected
                &&& self.chevron == Some(
                    if expanded {
                        '▾'
                    } else {
                        '▸'
                    },
                )
                &&& self.icon is None
                &&& self.action matches RowAction::Toggle(p) && p@ == path
            },
            RowView::Leaf { depth, leaf_id, label } => {
                &&& self.depth == depth
                &&& self.label@ == label
                &&& self.selected == (selected == Some(leaf_id))
                &&& self.chevron is None
                &&& self.icon == icon_at(icons, leaf_id)
                &&& self.action == RowAction::Select(leaf_id)
            },
        }
    }
}

fn copy_path(path: &Vec<usize>) -> (r: Vec<usize>)
    ensures
        r@ == path@,
{
    let mut r: Vec<usize> = Vec::new();
    let mut i: usize = 0;
    while i < path.len()
        invariant
            i <= path@.len(),
            r@ == path@.take(i as int),
        decreases path@.len() - i,
    {
        r.push(path[i]);
        i += 1;
        assert(r@ =~= path@.take(i as int));
    }
    assert(r@ =~= path@);
    r
}

fn nav_row(row: &VisibleRow, selected: Option<LeafId>, icons: &Vec<&'static str>) -> (r: NavRow)
    ensures
        r.is_row_of(row@, selected, icons@),
{
    match &row.kind {
        RowKind::Group { path, expanded, label } => NavRow {
            depth: row.depth,
            label: label.clone(),
            selected: false,
            chevron: Some(
                if *expanded {
                    '▾'
                } else {
                    '▸'
                },
            ),
            icon: None,
            action: RowAction::Toggle(copy_path(path)),
        },
        RowKind::Leaf { leaf_id, label } => NavRow {
            depth: row.depth,
            label: label.clone(),
            selected: match selected {
                Some(s) => s == *leaf_id,
                None => false,
            },
            chevron: None,
            icon: if leaf_id.0 < icons.len() {
                Some(icons[leaf_id.0])
            } else {
                None
            },
            action: RowAction::Select(*leaf_id),
        },
    }
}

/// `rows` are the navigator rows of `shown`.
pub open spec fn are_rows_of(
    rows: Seq<NavRow>,
    shown: Seq<RowView>,
    selected: Option<LeafId>,
    icons: Seq<&'static str>,
) -> bool {
    &&& rows.len() == shown.len()
    &&& forall|i: int|
        0 <= i < rows.len() ==> (#[trigger] rows[i]).is_row_of(shown[i], selected, icons)
}

fn nav_rows(shown: &Vec<VisibleRow>, selected: Option<LeafId>, icons: &Vec<&'static str>) -> (r: Vec<
    NavRow,
>)
    ensures
        are_rows_of(r@, row_views(shown@), selected, icons@),
{
    let mut r: Vec<NavRow> = Vec::new();
    let mut i: usize = 0;
    while i < shown.len()
        invariant
            i <= shown@.len(),
            r@.len() == i,
            forall|k: int|
                0 <= k < i ==> (#[trigger] r@[k]).is_row_of(
                    row_views(shown@)[k],
                    selected,
                    icons@,
                ),
        decreases shown@.len() - i,
    {
        r.push(nav_row(&shown[i], selected, icons));
        i += 1;
    }
    r
}

// ---- body ------------------------------------------------------------------

/// What the right pane shows.
#[derive(Debug)]
pub enum BodyView {
    /// No tab is active, or an editor has nothing to edit yet.
    Empty,
    ObjCClass,
    SwiftType,
    CoverageMap,
    SectionMap { artifact: ArtifactId },
    /// The listing is being prepared.
    Disassembling,
    /// Bytes, below a warning of high entropy.
    Hex { artifact: ArtifactId, section: String, warning: Option<u32> },
    /// Disassembly, below a warning of high entropy.
    Listing { artifact: ArtifactId, section: String, warning: Option<u32> },
    Editor,
    Cfg { artifact: ArtifactId, entry_addr: u64 },
    DexCallGraph { class_jni: String, method_decl: String },
}

/// The tab on show.
pub open spec fn active(tabs: Seq<Tab>, active_tab: Option<usize>) -> Option<TabKind> {
    match active_tab {
        Some(i) => if i < tabs.len() {
            Some(tabs[i as int].kind)
        } else {
            None
        },
        None => None,
    }
}

fn active_kind(tabs: &Vec<Tab>, active_tab: Option<usize>) -> (r: Option<&TabKind>)
    ensures
        match r {
            Some(k) => active(tabs@, active_tab) == Some(*k),
            None => active(tabs@, active_tab) is None,
        },
{
    match active_tab {
        Some(i) => if i < tabs.len() {
            Some(&tabs[i].kind)
        } else {
            None
        },
        None => None,
    }
}

/// What the right pane shows for a tab.
pub open spec fn body_of(kind: Option<TabKind>, bundle: &LoadedBundle, flags: PaneFlags) -> BodyView {
    match kind {
        None => BodyView::Empty,
        Some(TabKind::ObjCClass { .. }) => BodyView::ObjCClass,
        Some(TabKind::SwiftType { .. }) => BodyView::SwiftType,
        Some(TabKind::CoverageMap) => BodyView::CoverageMap,
        Some(TabKind::SectionMap { artifact }) => BodyView::SectionMap { artifact },
        Some(TabKind::Hex { artifact, section }) => BodyView::Hex {
            artifact,
            section,
            warning: warned_entropy(sections_of(bundle, artifact@), section@),
        },
        Some(TabKind::Listing { artifact, section }) => if flags.listing_ready {
            BodyView::Listing {
                artifact,
                section,
                warning: warned_entropy(sections_of(bundle, artifact@), section@),
            }
        } else {
            BodyView::Disassembling
        },
        Some(TabKind::Cfg { artifact, entry_addr }) => BodyView::Cfg { artifact, entry_addr },
        Some(TabKind::DexCallGraph { class_jni, method_decl }) => BodyView::DexCallGraph {
            class_jni,
            method_decl,
        },
        Some(_) => if flags.has_editor {
            BodyView::Editor
        } else {
            BodyView::Empty
        },
    }
}

fn build_body(kind: Option<&TabKind>, bundle: &LoadedBundle, flags: PaneFlags) -> (r: BodyView)
    ensures
        r == body_of(
            match kind {
                Some(k) => Some(*k),
                None => None,
            },
            bundle,
            flags,
        ),
{
    let kind = match kind {
        Some(k) => k,
        None => {
            return BodyView::Empty;
        },
    };
    match kind {
        TabKind::ObjCClass { .. } => BodyView::ObjCClass,
        TabKind::SwiftType { .. } => BodyView::SwiftType,
        TabKind::CoverageMap => BodyView::CoverageMap,
        TabKind::SectionMap { artifact } => BodyView::SectionMap { artifact: *artifact },
        TabKind::Hex { artifact, section } => BodyView::Hex {
            artifact: *artifact,
            section: section.clone(),
            warning: encryption_warning(bundle, artifact, section.as_str()),
        },
        TabKind::Listing { artifact, section } => if flags.listing_ready {
            BodyView::Listing {
                artifact: *artifact,
                section: section.clone(),
                warning: encryption_warning(bundle, artifact, section.as_str()),
            }
        } else {
            BodyView::Disassembling
        },
        TabKind::Cfg { artifact, entry_addr } => BodyView::Cfg {
            artifact: *artifact,
            entry_addr: *entry_addr,
        },
        TabKind::DexCallGraph { class_jni, method_decl } => BodyView::DexCallGraph {
            class_jni: class_jni.clone(),
            method_decl: method_decl.clone(),
        },
        _ => if flags.has_editor {
            BodyView::Editor
        } else {
            BodyView::Empty
        },
    }
}

// ---- the whole layout ------------------------------------------------------

/// What the window shows below its header: the navigator, a splitter, and the
/// active tab below the tab bar.
#[derive(Debug)]
pub struct TwoPaneView {
    pub rows: Vec<NavRow>,
    /// The entry of the coverage map is lit.
    pub coverage_active: bool,
    pub body: BodyView,
    /// The annotations pane stands on the right.
    pub annotations: bool,
    /// The splitter is being dragged.
    pub dragging: bool,
}

/// What the layout depends on besides the bundle and its tabs.
#[derive(Clone, Copy, Debug, PartialEq, Eq, Structural)]
pub struct PaneFlags {
    /// The active tab has its listing pages.
    pub listing_ready: bool,
    /// The active tab has an editor.
    pub has_editor: bool,
    pub annotations_open: bool,
    pub resizing: bool,
}

/// The layout of a loaded bundle. `selected` is the leaf that backs the active
/// tab.
pub fn render_two_pane(
    bundle: &LoadedBundle,
    expanded: &Expanded,
    tabs: &Vec<Tab>,
    active_tab: Option<usize>,
    selected: Option<LeafId>,
    flags: PaneFlags,
) -> (r: TwoPaneView)
    ensures
        are_rows_of(
            r.rows@,
            rows_under(bundle.tree@, Seq::empty(), expanded@, bundle.tree@.len() as int),
            selected,
            bundle.leaf_icons@,
        ),
        r.coverage_active == (active(tabs@, active_tab) == Some(TabKind::CoverageMap)),
        r.body == body_of(active(tabs@, active_tab), bundle, flags),
        r.annotations == flags.annotations_open,
        r.dragging == flags.resizing,
{
    let kind = active_kind(tabs, active_tab);
    let shown = flatten(&bundle.tree, expanded);
    let rows = nav_rows(&shown, selected, &bundle.leaf_icons);
    let coverage_active: bool = match kind {
        Some(TabKind::CoverageMap) => true,
        _ => false,
    };
    TwoPaneView {
        rows,
        coverage_active,
        body: build_body(kind, bundle, flags),
        annotations: flags.annotations_open,
        dragging: flags.resizing,
    }
}

/// The body tells of a listing in preparation for a listing tab whose listing
/// is not ready, and for no other tab.
pub proof fn law_only_a_pending_listing_is_disassembling(
    kind: Option<TabKind>,
    bundle: &LoadedBundle,
    flags: PaneFlags,
)
    ensures
        body_of(kind, bundle, flags) is Disassembling <==> (kind matches Some(
            TabKind::Listing { .. },
        ) && !flags.listing_ready),
{
}

/// Only the leaf that backs the active tab is highlighted, and no group is.
pub proof fn law_one_leaf_is_lit(
    rows: Seq<NavRow>,
    shown: Seq<RowView>,
    selected: Option<LeafId>,
    icons: Seq<&'static str>,
    i: int,
)
    requires
        are_rows_of(rows, shown, selected, icons),
        0 <= i < rows.len(),
    ensures
        rows[i].selected ==> selected is Some && rows[i].action == RowAction::Select(selected->0),
        selected is None ==> !rows[i].selected,
{
    assert(rows[i].is_row_of(shown[i], selected, icons));
}

} // verus!
