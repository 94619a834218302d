//! What tree leaves open, and the tabs that show it.

use crate::ids::ArtifactId;
use vstd::prelude::*;

verus! {

/// Position of a leaf in the bundle's leaf lists.
#[derive(Clone, Copy, Debug, PartialEq, Eq, Structural)]
pub struct LeafId(pub usize);

/// What opening a leaf shows.
#[derive(Debug)]
pub enum LeafKind {
    /// Lifted smali of a DEX class, known by its JNI signature.
    SmaliClass { class_jni: String },
    /// Listing of a code section.
    Listing { artifact: ArtifactId, section: String },
    /// Hex view of a section.
    Hex { artifact: ArtifactId, section: String },
    /// Section overview of a native artifact.
    SectionMap { artifact: ArtifactId },
    /// Editor for an AndroidManifest.xml.
    Manifest { artifact: ArtifactId },
    /// Editor for a property list.
    Plist { artifact: ArtifactId },
    /// Control-flow graph of the function at `entry_addr`.
    Cfg { artifact: ArtifactId, entry_addr: u64 },
    /// Call graph around a DEX method.
    DexCallGraph { class_jni: String, method_decl: String },
    /// An Objective-C class.
    ObjCClass { artifact: ArtifactId, class_name: String },
    /// A Swift nominal type.
    SwiftType { artifact: ArtifactId, mangled_name: String },
}

/// What opening a leaf shows, over plain values.
#[verifier::ext_equal]
pub ghost enum LeafKindView {
    SmaliClass { class_jni: Seq<char> },
    Listing { artifact: Seq<u8>, section: Seq<char> },
    Hex { artifact: Seq<u8>, section: Seq<char> },
    SectionMap { artifact: Seq<u8> },
    Manifest { artifact: Seq<u8> },
    Plist { artifact: Seq<u8> },
    Cfg { artifact: Seq<u8>, entry_addr: u64 },
    DexCallGraph { class_jni: Seq<char>, method_decl: Seq<char> },
    ObjCClass { artifact: Seq<u8>, class_name: Seq<char> },
    SwiftType { artifact: Seq<u8>, mangled_name: Seq<char> },
}

impl View for LeafKind {
    type V = LeafKindView;

    open spec fn view(&self) -> LeafKindView {
        match self {
            LeafKind::SmaliClass { class_jni } => LeafKindView::SmaliClass {
                class_jni: class_jni@,
            },
            LeafKind::Listing { artifact, section } => LeafKindView::Listing {
                artifact: artifact@,
                section: section@,
            },
            LeafKind::Hex { artifact, section } => LeafKindView::Hex {
                artifact: artifact@,
                section: section@,
            },
            LeafKind::SectionMap { artifact } => LeafKindView::SectionMap { artifact: artifact@ },
            LeafKind::Manifest { artifact } => LeafKindView::Manifest { artifact: artifact@ },
            LeafKind::Plist { artifact } => LeafKindView::Plist { artifact: artifact@ },
            LeafKind::Cfg { artifact, entry_addr } => LeafKindView::Cfg {
                artifact: artifact@,
                entry_addr: *entry_addr,
            },
            LeafKind::DexCallGraph { class_jni, method_decl } => LeafKindView::DexCallGraph {
                class_jni: class_jni@,
                method_decl: method_decl@,
            },
            LeafKind::ObjCClass { artifact, class_name } => LeafKindView::ObjCClass {
                artifact: artifact@,
                class_name: class_name@,
            },
            LeafKind::SwiftType { artifact, mangled_name } => LeafKindView::SwiftType {
                artifact: artifact@,
                mangled_name: mangled_name@,
            },
        }
    }
}

/// The class of a smali leaf.
pub open spec fn smali_class(k: LeafKind) -> Option<Seq<char>> {
    match k {
        LeafKind::SmaliClass { class_jni } => Some(class_jni@),
        _ => None,
    }
}

/// What a tab represents; stable across reloads.
#[derive(Debug)]
pub enum TabKind {
    Listing { artifact: ArtifactId, section: String },
    Hex { artifact: ArtifactId, section: String },
    SectionMap { artifact: ArtifactId },
    ManifestEditor { artifact: ArtifactId },
    PlistEditor { artifact: ArtifactId },
    Cfg { artifact: ArtifactId, entry_addr: u64 },
    DexCallGraph { class_jni: String, method_decl: String },
    ObjCClass { artifact: ArtifactId, class_name: String },
    SwiftType { artifact: ArtifactId, mangled_name: String },
    /// Script editor; does not survive a reopen.
    ScriptEditor { name: String },
    /// Smali class editor.
    SmaliEditor { artifact: ArtifactId, class_jni: String },
    /// Coverage treemap; there is one at most.
    CoverageMap,
}

/// Pan and zoom of a graph view, as the bit patterns of single-precision
/// numbers.
#[derive(Clone, Copy, Debug, PartialEq, Eq, Structural)]
pub struct Camera {
    pub pan_x: u32,
    pub pan_y: u32,
    pub zoom: u32,
}

/// Bit pattern of the single-precision number 1.
pub const ONE_BITS: u32 = 0x3F80_0000;

impl Camera {
    /// No pan, unit zoom.
    pub open spec fn fresh_view() -> Camera {
        Camera { pan_x: 0, pan_y: 0, zoom: ONE_BITS }
    }

    /// No pan, unit zoom.
    pub fn fresh() -> (r: Camera)
        ensures
            r == Camera::fresh_view(),
    {
        Camera { pan_x: 0, pan_y: 0, zoom: ONE_BITS }
    }
}

/// The persisted form of a tab.
#[derive(Debug)]
pub enum TabState {
    SmaliClass { class_jni: String, scroll_line: u64 },
    Listing { artifact: ArtifactId, section: String, scroll_top: u64 },
    Hex { artifact: ArtifactId, section: String, scroll_top: u64 },
    SectionMap { artifact: ArtifactId },
    /// Written by older versions: the first manifest of the bundle.
    Manifest,
    ManifestEditor { artifact: ArtifactId, scroll_line: u64 },
    PlistEditor { artifact: ArtifactId, scroll_line: u64 },
    Cfg { artifact: ArtifactId, entry_addr: u64, camera: Camera },
    DexCallGraph { class_jni: String, method_decl: String, camera: Camera },
    ObjCClass { artifact: ArtifactId, class_name: String, scroll_line: u64 },
    SwiftType { artifact: ArtifactId, mangled_name: String, scroll_line: u64 },
    CoverageMap { camera: Camera },
}

impl TabKind {
    /// The persisted form of a freshly opened tab; a script editor has none.
    pub open spec fn state(self) -> Option<TabState> {
        match self {
            TabKind::Listing { artifact, section } => Some(
                TabState::Listing { artifact, section, scroll_top: 0 },
            ),
            TabKind::Hex { artifact, section } => Some(
                TabState::Hex { artifact, section, scroll_top: 0 },
            ),
            TabKind::SectionMap { artifact } => Some(TabState::SectionMap { artifact }),
            TabKind::ManifestEditor { artifact } => Some(
                TabState::ManifestEditor { artifact, scroll_line: 0 },
            ),
            TabKind::PlistEditor { artifact } => Some(
                TabState::PlistEditor { artifact, scroll_line: 0 },
            ),
            TabKind::Cfg { artifact, entry_addr } => Some(
                TabState::Cfg { artifact, entry_addr, camera: Camera::fresh_view() },
            ),
            TabKind::DexCallGraph { class_jni, method_decl } => Some(
                TabState::DexCallGraph { class_jni, method_decl, camera: Camera::fresh_view() },
            ),
            TabKind::ObjCClass { artifact, class_name } => Some(
                TabState::ObjCClass { artifact, class_name, scroll_line: 0 },
            ),
            TabKind::SwiftType { artifact, mangled_name } => Some(
                TabState::SwiftType { artifact, mangled_name, scroll_line: 0 },
            ),
            TabKind::ScriptEditor { name } => None,
            TabKind::CoverageMap => Some(TabState::CoverageMap { camera: Camera::fresh_view() }),
            TabKind::SmaliEditor { artifact, class_jni } => Some(
                TabState::SmaliClass { class_jni, scroll_line: 0 },
            ),
        }
    }

    /// The persisted form of the tab. A smali editor persists as the class it
    /// edits; a script editor does not persist.
    pub fn to_state(&self) -> (r: Option<TabState>)
        ensures
            r == self.state(),
    {
        match self {
            TabKind::Listing { artifact, section } => Some(
                TabState::Listing { artifact: *artifact, section: section.clone(), scroll_top: 0 },
            ),
            TabKind::Hex { artifact, section } => Some(
                TabState::Hex { artifact: *artifact, section: section.clone(), scroll_top: 0 },
            ),
            TabKind::SectionMap { artifact } => Some(TabState::SectionMap { artifact: *artifact }),
            TabKind::ManifestEditor { artifact } => Some(
                TabState::ManifestEditor { artifact: *artifact, scroll_line: 0 },
            ),
            TabKind::PlistEditor { artifact } => Some(
                TabState::PlistEditor { artifact: *artifact, scroll_line: 0 },
            ),
            TabKind::Cfg { artifact, entry_addr } => Some(
                TabState::Cfg {
                    artifact: *artifact,
                    entry_addr: *entry_addr,
                    camera: Camera::fresh(),
                },
            ),
            TabKind::DexCallGraph { class_jni, method_decl } => Some(
                TabState::DexCallGraph {
                    class_jni: class_jni.clone(),
                    method_decl: method_decl.clone(),
                    camera: Camera::fresh(),
                },
            ),
            TabKind::ObjCClass { artifact, class_name } => Some(
                TabState::ObjCClass {
                    artifact: *artifact,
                    class_name: class_name.clone(),
                    scroll_line: 0,
                },
            ),
            TabKind::SwiftType { artifact, mangled_name } => Some(
                TabState::SwiftType {
                    artifact: *artifact,
                    mangled_name: mangled_name.clone(),
                    scroll_line: 0,
                },
            ),
            TabKind::ScriptEditor { name } => None,
            TabKind::CoverageMap => Some(TabState::CoverageMap { camera: Camera::fresh() }),
            TabKind::SmaliEditor { artifact, class_jni } => Some(
                TabState::SmaliClass { class_jni: class_jni.clone(), scroll_line: 0 },
            ),
        }
    }

    /// The tab that a leaf opens; smali classes need their artifact as well, so
    /// they have none here.
    pub open spec fn of_leaf(kind: LeafKind) -> Option<TabKind> {
        match kind {
            LeafKind::SmaliClass { class_jni } => None,
            LeafKind::Listing { artifact, section } => Some(TabKind::Listing { artifact, section }),
            LeafKind::Hex { artifact, section } => Some(TabKind::Hex { artifact, section }),
            LeafKind::SectionMap { artifact } => Some(TabKind::SectionMap { artifact }),
            LeafKind::Manifest { artifact } => Some(TabKind::ManifestEditor { artifact }),
            LeafKind::Plist { artifact } => Some(TabKind::PlistEditor { artifact }),
            LeafKind::Cfg { artifact, entry_addr } => Some(TabKind::Cfg { artifact, entry_addr }),
            LeafKind::DexCallGraph { class_jni, method_decl } => Some(
                TabKind::DexCallGraph { class_jni, method_decl },
            ),
            LeafKind::ObjCClass { artifact, class_name } => Some(
                TabKind::ObjCClass { artifact, class_name },
            ),
            LeafKind::SwiftType { artifact, mangled_name } => Some(
                TabKind::SwiftType { artifact, mangled_name },
            ),
        }
    }

    /// The tab that a leaf opens; `None` for smali classes.
    pub fn from_kind(kind: &LeafKind) -> (r: Option<TabKind>)
        ensures
            r == TabKind::of_leaf(*kind),
    {
        match kind {
            LeafKind::SmaliClass { class_jni } => None,
            LeafKind::Listing { artifact, section } => Some(
                TabKind::Listing { artifact: *artifact, section: section.clone() },
            ),
            LeafKind::Hex { artifact, section } => Some(
                TabKind::Hex { artifact: *artifact, section: section.clone() },
            ),
            LeafKind::SectionMap { artifact } => Some(TabKind::SectionMap { artifact: *artifact }),
            LeafKind::Manifest { artifact } => Some(TabKind::ManifestEditor { artifact: *artifact }),
            LeafKind::Plist { artifact } => Some(TabKind::PlistEditor { artifact: *artifact }),
            LeafKind::Cfg { artifact, entry_addr } => Some(
                TabKind::Cfg { artifact: *artifact, entry_addr: *entry_addr },
            ),
            LeafKind::DexCallGraph { class_jni, method_decl } => Some(
                TabKind::DexCallGraph {
                    class_jni: class_jni.clone(),
                    method_decl: method_decl.clone(),
                },
            ),
            LeafKind::ObjCClass { artifact, class_name } => Some(
                TabKind::ObjCClass { artifact: *artifact, class_name: class_name.clone() },
            ),
            LeafKind::SwiftType { artifact, mangled_name } => Some(
                TabKind::SwiftType { artifact: *artifact, mangled_name: mangled_name.clone() },
            ),
        }
    }
}

/// Whether leaf `k` backs the persisted tab `st`. Graph views and the coverage
/// map are backed by no leaf.
pub open spec fn backs(k: LeafKind, st: TabState) -> bool {
    match (st, k) {
        (TabState::SmaliClass { class_jni, .. }, LeafKind::SmaliClass { class_jni: c }) => c@
            == class_jni@,
        (
            TabState::Listing { artifact, section, .. },
            LeafKind::Listing { artifact: a, section: s },
        ) => a@ == artifact@ && s@ == section@,
        (TabState::Hex { artifact, section, .. }, LeafKind::Hex { artifact: a, section: s }) => a@
            == artifact@ && s@ == section@,
        (TabState::SectionMap { artifact }, LeafKind::SectionMap { artifact: a }) => a@
            == artifact@,
        (TabState::Manifest, LeafKind::Manifest { .. }) => true,
        (TabState::ManifestEditor { artifact, .. }, LeafKind::Manifest { artifact: a }) => a@
            == artifact@,
        (TabState::PlistEditor { artifact, .. }, LeafKind::Plist { artifact: a }) => a@
            == artifact@,
        (
            TabState::ObjCClass { artifact, class_name, .. },
            LeafKind::ObjCClass { artifact: a, class_name: n },
        ) => a@ == artifact@ && n@ == class_name@,
        (
            TabState::SwiftType { artifact, mangled_name, .. },
            LeafKind::SwiftType { artifact: a, mangled_name: n },
        ) => a@ == artifact@ && n@ == mangled_name@,
        _ => false,
    }
}

/// Whether leaf `k` backs the persisted tab `st`.
pub fn leaf_backs(k: &LeafKind, st: &TabState) -> (r: bool)
    ensures
        r == backs(*k, *st),
{
    match (st, k) {
        (
            TabState::SmaliClass { class_jni, scroll_line },
            LeafKind::SmaliClass { class_jni: c },
        ) => *c == *class_jni,
        (
            TabState::Listing { artifact, section, scroll_top },
            LeafKind::Listing { artifact: a, section: s },
        ) => a.same(artifact) && *s == *section,
        (
            TabState::Hex { artifact, section, scroll_top },
            LeafKind::Hex { artifact: a, section: s },
        ) => a.same(artifact) && *s == *section,
        (TabState::SectionMap { artifact }, LeafKind::SectionMap { artifact: a }) => a.same(artifact),
        (TabState::Manifest, LeafKind::Manifest { artifact: a }) => true,
        (
            TabState::ManifestEditor { artifact, scroll_line },
            LeafKind::Manifest { artifact: a },
        ) => a.same(artifact),
        (TabState::PlistEditor { artifact, scroll_line }, LeafKind::Plist { artifact: a }) => a.same(
            artifact,
        ),
        (
            TabState::ObjCClass { artifact, class_name, scroll_line },
            LeafKind::ObjCClass { artifact: a, class_name: n },
        ) => a.same(artifact) && *n == *class_name,
        (
            TabState::SwiftType { artifact, mangled_name, scroll_line },
            LeafKind::SwiftType { artifact: a, mangled_name: n },
        ) => a.same(artifact) && *n == *mangled_name,
        _ => false,
    }
}

/// Every leaf that opens a tab, graph views aside, backs the persisted form of
/// that tab: a persisted tab finds its leaf again.
pub proof fn law_leaf_backs_its_tab(k: LeafKind)
    requires
        !(k is Cfg),
        !(k is DexCallGraph),
    ensures
        TabKind::of_leaf(k) matches Some(t) ==> (t.state() matches Some(st) && backs(k, st)),
        k is SmaliClass <==> TabKind::of_leaf(k) is None,
{
}

/// Leaves that back the same persisted tab are the same kind of leaf for the
/// same artifact: their own tabs persist alike.
pub proof fn law_backing_leaves_agree(k: LeafKind, other: LeafKind, st: TabState)
    requires
        backs(k, st),
        backs(other, st),
        !(st is Manifest),
        TabKind::of_leaf(k) is Some,
    ensures
        TabKind::of_leaf(other) is Some,
        backs(other, TabKind::of_leaf(k)->0.state()->0),
{
}

// ---- tabs ------------------------------------------------------------------

/// Identifier of a tab, distinct from that of every other tab.
#[derive(Clone, Copy, Debug, PartialEq, Eq, Hash, Structural)]
pub struct TabId(pub u64);

/// Source of tab identifiers.
#[derive(Debug)]
pub struct TabIds {
    next: u64,
}

impl TabIds {
    /// The next identifier.
    pub closed spec fn upcoming(&self) -> u64 {
        self.next
    }

    /// Identifiers begin at one.
    pub fn new() -> (r: TabIds)
        ensures
            r.upcoming() == 1,
    {
        TabIds { next: 1 }
    }

    /// A fresh identifier. The count wraps after 2^64 of them.
    pub fn next(&mut self) -> (r: TabId)
        ensures
            r.0 == old(self).upcoming(),
            old(self).upcoming() < u64::MAX ==> final(self).upcoming() == old(self).upcoming() + 1,
            old(self).upcoming() == u64::MAX ==> final(self).upcoming() == 0,
    {
        let id: u64 = self.next;
        self.next = if id == u64::MAX {
            0
        } else {
            id + 1
        };
        TabId(id)
    }
}

/// One open tab: what it shows and where the user is in it.
#[derive(Debug)]
pub struct Tab {
    pub id: TabId,
    pub kind: TabKind,
    /// A listing page index is being built.
    pub listing_build_in_flight: bool,
    /// Address to scroll to on the next paint.
    pub pending_scroll_addr: Option<u64>,
    /// Smali line to scroll to once the body is there.
    pub pending_smali_scroll_line: Option<usize>,
    pub selected_row: Option<usize>,
    /// Byte under the hex cursor.
    pub selected_byte_addr: Option<u64>,
    /// Camera of a control-flow graph; only such tabs have one.
    pub cfg: Option<Camera>,
    /// Camera of a call graph; only such tabs have one.
    pub dex_callgraph: Option<Camera>,
}

impl Tab {
    /// A tab as it is when just opened, with the given graph camera.
    pub open spec fn opened(self, id: TabId, kind: TabKind, camera: Camera) -> bool {
        &&& self.id == id
        &&& self.kind == kind
        &&& !self.listing_build_in_flight
        &&& self.pending_scroll_addr is None
        &&& self.pending_smali_scroll_line is None
        &&& self.selected_row is None
        &&& self.selected_byte_addr is None
        &&& self.cfg == (if kind is Cfg {
            Some(camera)
        } else {
            None
        })
        &&& self.dex_callgraph == (if kind is DexCallGraph {
            Some(camera)
        } else {
            None
        })
    }

    fn with_camera(id: TabId, kind: TabKind, camera: Camera) -> (r: Tab)
        ensures
            r.opened(id, kind, camera),
    {
        let cfg = match &kind {
            TabKind::Cfg { artifact, entry_addr } => Some(camera),
            _ => None,
        };
        let dex_callgraph = match &kind {
            TabKind::DexCallGraph { class_jni, method_decl } => Some(camera),
            _ => None,
        };
        Tab {
            id,
            kind,
            listing_build_in_flight: false,
            pending_scroll_addr: None,
            pending_smali_scroll_line: None,
            selected_row: None,
            selected_byte_addr: None,
            cfg,
            dex_callgraph,
        }
    }

    /// A new tab with a fresh identifier; graph views start unpanned at unit
    /// zoom.
    pub fn new(ids: &mut TabIds, kind: TabKind) -> (r: Tab)
        ensures
            r.opened(TabId(old(ids).upcoming()), kind, Camera::fresh_view()),
            old(ids).upcoming() < u64::MAX ==> final(ids).upcoming() == old(ids).upcoming() + 1,
            old(ids).upcoming() == u64::MAX ==> final(ids).upcoming() == 0,
    {
        let id = ids.next();
        Tab::with_camera(id, kind, Camera::fresh())
    }

    /// A control-flow graph tab with a restored camera.
    pub fn new_cfg_with_camera(
        ids: &mut TabIds,
        artifact: ArtifactId,
        entry_addr: u64,
        camera: Camera,
    ) -> (r: Tab)
        ensures
            r.opened(TabId(old(ids).upcoming()), TabKind::Cfg { artifact, entry_addr }, camera),
            old(ids).upcoming() < u64::MAX ==> final(ids).upcoming() == old(ids).upcoming() + 1,
            old(ids).upcoming() == u64::MAX ==> final(ids).upcoming() == 0,
    {
        let id = ids.next();
        Tab::with_camera(id, TabKind::Cfg { artifact, entry_addr }, camera)
    }

    /// A call graph tab with a restored camera.
    pub fn new_dex_callgraph_with_camera(
        ids: &mut TabIds,
        class_jni: String,
        method_decl: String,
        camera: Camera,
    ) -> (r: Tab)
        ensures
            r.opened(
                TabId(old(ids).upcoming()),
                TabKind::DexCallGraph { class_jni, method_decl },
                camera,
            ),
            old(ids).upcoming() < u64::MAX ==> final(ids).upcoming() == old(ids).upcoming() + 1,
            old(ids).upcoming() == u64::MAX ==> final(ids).upcoming() == 0,
    {
        let id = ids.next();
        Tab::with_camera(id, TabKind::DexCallGraph { class_jni, method_decl }, camera)
    }
}

} // verus!
