//! Bundle loading: what an opened archive or binary becomes.
//!
//! Archives are read and parsed elsewhere; here the parsed parts are arranged
//! into a [`LoadedBundle`]. [`ApkLoad`] and [`IpaLoad`] do so in steps and report
//! after each, so that a loading screen can poll the [`Progress`].

use crate::digits::{decimal, hex, to_decimal, to_hex_padded, zero_padded};
use crate::bundle::{LoadedBundle, ManifestRow};
use crate::container::{
    add_items, add_native_leaves, arch_label, arch_word, code_count, entered, item_group, item_rows,
    lemma_native_rows_len, native_children, native_nodes, native_rows, no_natives, objc_items, objc_of, swift_of,
    tagged, tagged_name, texts, with_items, Container, LeafRowView, Leaves, MetaMap, NativeBinary, Natives,
    NativesView,
};
use crate::edits::{EditRegistry, SmaliEditRegistry};
use crate::icons::{are_icons_of, leaf_icons_for, source_names};
use crate::ids::{blake3_digest, joined_ids, ArtifactId, BundleId};
use crate::leaf::{LeafId, LeafKind, LeafKindView};
use crate::order::{lemma_sorted_list, sort_dedup, sorted_list, views};
use crate::packages::{class_parts, package_nodes, split_jni_class_name, EntryView, PkgBuilder};
use crate::sections::lesser;
use crate::smali_index::{
    all_sites, build_method_call_index, build_method_line_index, decls_upto, indexes_calls, indexes_decls, RefKind,
};
use crate::symbols::{sorted_by_address, Symbol, SymbolMap};
use crate::table::Table;
use crate::text::{join2, join3, owned, same_str, strings};
use crate::tree::{lemma_node_views, lemma_node_views_push, node_view, node_views, Node, NodeView, Tree};
use crate::xref::{SectionKey, XrefStore};
use std::sync::Arc;
use vstd::prelude::*;

verus! {

// ---- progress --------------------------------------------------------------

/// How far loading has come.
#[derive(Debug)]
pub struct Progress {
    pub label: String,
    pub phase: String,
    pub current: usize,
    pub total: usize,
    pub done: bool,
}

impl Progress {
    /// The state of the progress bar apart from its label.
    pub open spec fn at(self, phase: Seq<char>, current: int, total: int, done: bool) -> bool {
        self.phase@ == phase && self.current == current && self.total == total && self.done == done
    }

    /// Loading is about to begin.
    pub fn starting(file_name: Option<&str>) -> (r: Progress)
        ensures
            r.label@ == (match file_name {
                Some(n) => n@,
                None => "(bundle)"@,
            }),
            r.at("Opening…"@, 0, 0, false),
    {
        Progress {
            label: match file_name {
                Some(n) => owned(n),
                None => owned("(bundle)"),
            },
            phase: owned("Opening…"),
            current: 0,
            total: 0,
            done: false,
        }
    }

    /// The archive is being read.
    pub fn reading(&mut self)
        ensures
            final(self).at("Reading archive…"@, 0, 0, old(self).done),
            final(self).label == old(self).label,
    {
        self.phase = owned("Reading archive…");
        self.current = 0;
        self.total = 0;
    }

    fn enter_phase(&mut self, phase: &str, current: usize, total: usize)
        ensures
            final(self).at(phase@, current as int, total as int, old(self).done),
            final(self).label == old(self).label,
    {
        self.phase = owned(phase);
        self.current = current;
        self.total = total;
    }

    /// Loading has ended, with or without a result.
    pub fn finish(&mut self)
        ensures
            final(self).done,
            final(self).label == old(self).label,
            final(self).at(old(self).phase@, old(self).current as int, old(self).total as int, true),
    {
        self.done = true;
    }
}

/// How a file is opened.
#[derive(Clone, Copy, Debug, PartialEq, Eq, Structural)]
pub enum Loader {
    Apk,
    Ipa,
    /// A standalone ELF or Mach-O binary.
    Binary,
}

/// The loader for a file name extension.
pub open spec fn loader_for(ext: Seq<char>) -> Loader {
    if ext == "apk"@ || ext == "aab"@ {
        Loader::Apk
    } else if ext == "ipa"@ {
        Loader::Ipa
    } else {
        Loader::Binary
    }
}

/// The loader for a file name extension; a file without one counts as having an
/// empty one.
pub fn choose_loader(ext: Option<&str>) -> (r: Loader)
    ensures
        r == loader_for(
            match ext {
                Some(e) => e@,
                None => ""@,
            },
        ),
{
    let e = match ext {
        Some(e) => e,
        None => "",
    };
    if same_str(e, "apk") || same_str(e, "aab") {
        Loader::Apk
    } else if same_str(e, "ipa") {
        Loader::Ipa
    } else {
        Loader::Binary
    }
}

/// The name a bundle is shown under: its file name.
pub fn bundle_label(file_name: Option<&str>) -> (r: String)
    ensures
        r@ == (match file_name {
            Some(n) => n@,
            None => "bundle"@,
        }),
{
    match file_name {
        Some(n) => owned(n),
        None => owned("bundle"),
    }
}

// ---- artifacts under construction ------------------------------------------

/// What has been collected so far: leaves, native artifacts, rendered types and
/// artifact identities.
pub ghost struct SnapView {
    pub rows: Seq<LeafRowView>,
    pub natives: NativesView,
    pub objc: MetaMap,
    pub swift: MetaMap,
    pub ids: Seq<Seq<u8>>,
}

/// The leaves of an artifact with its types.
pub open spec fn artifact_rows(
    aid: Seq<u8>,
    c: Container,
    name: Seq<char>,
    origin: Seq<char>,
    type_origin: Seq<char>,
) -> Seq<LeafRowView> {
    native_rows(aid, c, origin, tagged(name, c.architecture) + " (overview)"@) + item_rows(
        aid,
        false,
        objc_of(c),
        type_origin,
    ) + item_rows(aid, true, swift_of(c), type_origin)
}

/// The tree nodes of an artifact with its types, its leaves numbered from
/// `first` on.
pub open spec fn artifact_nodes(c: Container, first: int) -> Seq<NodeView> {
    let objc = first + 1 + code_count(c.sections@, c.sections@.len() as int);
    native_nodes(c, first) + item_group("Objective-C"@, objc_of(c), objc) + item_group(
        "Swift"@,
        swift_of(c),
        objc + objc_of(c).len(),
    )
}

/// The collection after one more artifact.
pub open spec fn with_artifact(
    s: SnapView,
    b: NativeBinary,
    name: Seq<char>,
    origin: Seq<char>,
    type_origin: Seq<char>,
) -> SnapView {
    let aid = blake3_digest(b.bytes@);
    let c = b.container;
    SnapView {
        rows: s.rows + artifact_rows(aid, c, name, origin, type_origin),
        natives: entered(s.natives, aid, name, c),
        objc: with_items(s.objc, aid, objc_of(c), objc_of(c).len() as int),
        swift: with_items(s.swift, aid, swift_of(c), swift_of(c).len() as int),
        ids: s.ids.push(aid),
    }
}

/// `m` holds the symbols of each listed artifact; of two with one identity,
/// those of the later.
pub open spec fn holds_symbols(
    m: Map<Seq<u8>, SymbolMap>,
    artifacts: Seq<(Seq<u8>, Seq<Symbol>)>,
) -> bool {
    &&& forall|a: Seq<u8>| #[trigger]
        m.contains_key(a) <==> exists|i: int| 0 <= i < artifacts.len() && (#[trigger] artifacts[i]).0
            == a
    &&& forall|i: int|
        0 <= i < artifacts.len() && (forall|j: int|
            i < j < artifacts.len() ==> (#[trigger] artifacts[j]).0 != artifacts[i].0)
            ==> sorted_by_address((#[trigger] artifacts[i]).1, m[artifacts[i].0]@)
}

proof fn lemma_holds_symbols(
    m: Map<Seq<u8>, SymbolMap>,
    now: Map<Seq<u8>, SymbolMap>,
    artifacts: Seq<(Seq<u8>, Seq<Symbol>)>,
    aid: Seq<u8>,
    symbols: Seq<Symbol>,
)
    requires
        holds_symbols(m, artifacts),
        now.dom() == m.dom().insert(aid),
        sorted_by_address(symbols, now[aid]@),
        forall|a: Seq<u8>| a != aid && #[trigger] m.contains_key(a) ==> now[a] == m[a],
    ensures
        holds_symbols(now, artifacts.push((aid, symbols))),
{
    let next = artifacts.push((aid, symbols));
    assert forall|a: Seq<u8>| #[trigger] now.contains_key(a) <==> exists|i: int|
        0 <= i < next.len() && (#[trigger] next[i]).0 == a by {
        assert(now.dom().contains(a) <==> m.dom().contains(a) || a == aid);
        if m.contains_key(a) {
            let i = choose|i: int| 0 <= i < artifacts.len() && (#[trigger] artifacts[i]).0 == a;
            assert(next[i].0 == a);
        }
        if exists|i: int| 0 <= i < next.len() && (#[trigger] next[i]).0 == a {
            let i = choose|i: int| 0 <= i < next.len() && (#[trigger] next[i]).0 == a;
            if i < artifacts.len() {
                assert(artifacts[i].0 == a);
                assert(m.contains_key(a));
            }
        }
        assert(next[artifacts.len() as int].0 == aid);
    }
    assert forall|i: int|
        0 <= i < next.len() && (forall|j: int|
            i < j < next.len() ==> (#[trigger] next[j]).0 != next[i].0) implies sorted_by_address(
        (#[trigger] next[i]).1,
        now[next[i].0]@,
    ) by {
        if i < artifacts.len() {
            assert(next[artifacts.len() as int].0 != next[i].0);
            assert(artifacts[i] == next[i]);
            assert(m.contains_key(artifacts[i].0));
            assert forall|j: int| i < j < artifacts.len() implies (#[trigger] artifacts[j]).0
                != artifacts[i].0 by {
                assert(next[j] == artifacts[j]);
            }
        }
    }
}

/// What has been collected so far.
struct Snap {
    leaves: Leaves,
    natives: Natives,
    objc_classes: Table<SectionKey, Arc<Vec<String>>>,
    swift_types: Table<SectionKey, Arc<Vec<String>>>,
    artifact_ids: Vec<ArtifactId>,
}

impl View for Snap {
    type V = SnapView;

    closed spec fn view(&self) -> SnapView {
        SnapView {
            rows: self.leaves@,
            natives: self.natives@,
            objc: self.objc_classes@,
            swift: self.swift_types@,
            ids: views(self.artifact_ids@),
        }
    }
}

/// Nothing collected.
pub open spec fn empty_snap() -> SnapView {
    SnapView {
        rows: Seq::empty(),
        natives: no_natives(),
        objc: Map::empty(),
        swift: Map::empty(),
        ids: Seq::empty(),
    }
}

impl Snap {
    spec fn wf(&self) -> bool {
        self.leaves.wf()
    }

    fn new() -> (r: Snap)
        ensures
            r.wf(),
            r@ == empty_snap(),
            r.natives.symbol_maps@ == Map::<Seq<u8>, SymbolMap>::empty(),
    {
        let r = Snap {
            leaves: Leaves::new(),
            natives: Natives::new(),
            objc_classes: Table::new(),
            swift_types: Table::new(),
            artifact_ids: Vec::new(),
        };
        assert(views(r.artifact_ids@) =~= Seq::empty());
        r
    }

    /// Collects one artifact and returns its tree nodes.
    fn register(&mut self, b: &NativeBinary, name: &String, origin: &String, type_origin: &str) -> (r:
        Vec<Node>)
        requires
            old(self).wf(),
        ensures
            final(self).wf(),
            final(self)@ == with_artifact(old(self)@, *b, name@, origin@, type_origin@),
            node_views(r@) == artifact_nodes(b.container, old(self)@.rows.len() as int),
            forall|artifacts: Seq<(Seq<u8>, Seq<Symbol>)>| #[trigger]
                holds_symbols(old(self).natives.symbol_maps@, artifacts) ==> holds_symbols(
                    final(self).natives.symbol_maps@,
                    artifacts.push((blake3_digest(b.bytes@), b.symbols@)),
                ),
    {
        let c = &b.container;
        let aid = ArtifactId::from_bytes(b.bytes.as_slice());
        let ghost maps = self.natives.symbol_maps@;
        self.natives.enter(&aid, name.clone(), c, &b.symbols);
        proof {
            assert forall|artifacts: Seq<(Seq<u8>, Seq<Symbol>)>| #[trigger]
                holds_symbols(maps, artifacts) implies holds_symbols(
                self.natives.symbol_maps@,
                artifacts.push((aid@, b.symbols@)),
            ) by {
                lemma_holds_symbols(maps, self.natives.symbol_maps@, artifacts, aid@, b.symbols@);
            }
        }
        let first: usize = self.leaves.len();
        let shown = tagged_name(name, c.architecture);
        let overview = join2(shown.as_str(), " (overview)");
        proof {
            lemma_native_rows_len(aid@, *c, origin@, overview@);
        }
        add_native_leaves(&mut self.leaves, &aid, c, origin, overview);
        let after: usize = self.leaves.len();
        let mut nodes = native_children(c, first);
        let objc = objc_items(c);
        add_items(
            &mut self.leaves,
            &mut self.objc_classes,
            &mut nodes,
            &aid,
            false,
            &objc,
            type_origin,
            "Objective-C",
        );
        add_items(
            &mut self.leaves,
            &mut self.swift_types,
            &mut nodes,
            &aid,
            true,
            &c.swift_types,
            type_origin,
            "Swift",
        );
        self.artifact_ids.push(aid);
        proof {
            assert(views(self.artifact_ids@) =~= views(old(self).artifact_ids@).push(aid@));
            assert(self.leaves@ =~= old(self).leaves@ + artifact_rows(
                aid@,
                *c,
                name@,
                origin@,
                type_origin@,
            ));
        }
        nodes
    }
}

/// The group node of an artifact.
pub open spec fn artifact_group(name: Seq<char>, c: Container, first: int) -> NodeView {
    NodeView::Group { label: tagged(name, c.architecture), children: artifact_nodes(c, first) }
}

fn no_smali() -> (r: (
    Table<String, (LeafId, usize)>,
    Table<String, Vec<String>>,
    Table<SectionKey, String>,
))
    ensures
        r.0@ == Map::<Seq<char>, (LeafId, usize)>::empty(),
        r.1@ == Map::<Seq<char>, Vec<String>>::empty(),
        r.2@ == Map::<(Seq<u8>, Seq<char>), String>::empty(),
{
    (Table::new(), Table::new(), Table::new())
}

/// The icons of leaves without source files.
fn plain_icons<F: Fn(&LeafKind, Option<&str>) -> &'static str>(kinds: &Vec<LeafKind>, icon_of: &F) -> (r:
    Vec<&'static str>)
    requires
        forall|kind: &LeafKind, file: Option<&str>| #[trigger]
            call_requires(*icon_of, (kind, file)),
    ensures
        are_icons_of(*icon_of, kinds@, Map::empty(), r@),
{
    let none: Table<String, Option<String>> = Table::new();
    assert(source_names(none@) =~= Map::empty());
    leaf_icons_for(kinds, &none, icon_of)
}

// ---- standalone binaries ---------------------------------------------------

/// A standalone binary.
#[derive(Debug)]
pub struct BinaryInput {
    /// The path as shown.
    pub path: String,
    pub file_name: Option<String>,
    pub binary: NativeBinary,
}

/// The name a standalone binary is shown under.
pub open spec fn binary_label(file_name: Option<String>) -> Seq<char> {
    match file_name {
        Some(n) => n@,
        None => "binary"@,
    }
}

/// The bundle of a standalone binary: its overview and code sections stand at
/// the top of the tree, followed by its types. `icon_of` chooses the icon of a
/// leaf.
#[verifier::rlimit(60)]
pub fn snapshot_arm64<F: Fn(&LeafKind, Option<&str>) -> &'static str>(
    input: &BinaryInput,
    icon_of: &F,
) -> (r: LoadedBundle)
    requires
        forall|kind: &LeafKind, file: Option<&str>| #[trigger]
            call_requires(*icon_of, (kind, file)),
    ensures
        ({
            let c = input.binary.container;
            let aid = blake3_digest(input.binary.bytes@);
            let label = binary_label(input.file_name);
            let snap = with_artifact(
                empty_snap(),
                input.binary,
                label,
                arch_word(c.architecture),
                "arm64"@,
            );
            &&& r.parallel()
            &&& r.leaves() == snap.rows
            &&& r.natives() == snap.natives
            &&& r.objc_classes@ == snap.objc
            &&& r.swift_types@ == snap.swift
            &&& views(r.artifact_ids@) == seq![aid]
            &&& r.tree@ == artifact_nodes(c, 0)
            &&& r.title@ == "Glass — "@ + input.path@
            &&& r.display_label@ == label
            &&& r.bundle_id is None
            &&& holds_symbols(r.symbol_maps@, seq![(aid, input.binary.symbols@)])
        }),
        are_icons_of(*icon_of, r.kinds@, Map::empty(), r.leaf_icons@),
        r.untouched(),
        r.manifest_rows@.len() == 0,
        r.method_lines@ == Map::<Seq<char>, (LeafId, usize)>::empty(),
        r.method_calls@ == Map::<Seq<char>, Vec<String>>::empty(),
        r.smali_classes@ == Map::<(Seq<u8>, Seq<char>), String>::empty(),
        r.plist_sources@ == Map::<Seq<u8>, (String, Vec<u8>)>::empty(),
        r.manifest_sources@ == Map::<Seq<u8>, (String, Vec<u8>)>::empty(),
{
    let label = match &input.file_name {
        Some(n) => n.clone(),
        None => owned("binary"),
    };
    let c = &input.binary.container;
    let origin = owned(arch_label(c.architecture));
    let mut snap = Snap::new();
    let ghost none = Seq::<(Seq<u8>, Seq<Symbol>)>::empty();
    assert(holds_symbols(snap.natives.symbol_maps@, none));
    let roots = snap.register(&input.binary, &label, &origin, "arm64");
    proof {
        let aid = blake3_digest(input.binary.bytes@);
        assert(none.push((aid, input.binary.symbols@)) =~= seq![(aid, input.binary.symbols@)]);
        assert(views(snap.artifact_ids@) =~= seq![aid]);
    }
    let (method_lines, method_calls, smali_classes) = no_smali();
    let leaf_icons = plain_icons(&snap.leaves.kinds, icon_of);
    LoadedBundle {
        title: join2("Glass — ", input.path.as_str()),
        tree: Tree { roots },
        bodies: snap.leaves.bodies,
        origins: snap.leaves.origins,
        labels: snap.leaves.labels,
        kinds: snap.leaves.kinds,
        leaf_icons,
        bundle_id: None,
        artifact_ids: snap.artifact_ids,
        display_label: label,
        native_sections: snap.natives.native_sections,
        native_artifact_labels: snap.natives.native_artifact_labels,
        symbol_maps: snap.natives.symbol_maps,
        text_sections: snap.natives.text_sections,
        data_sections: snap.natives.data_sections,
        method_lines,
        method_calls,
        manifest_rows: Vec::new(),
        xrefs: XrefStore::new(),
        edits: EditRegistry::new(),
        smali_classes,
        objc_classes: snap.objc_classes,
        swift_types: snap.swift_types,
        smali_edits: SmaliEditRegistry::new(),
        plist_sources: Table::new(),
        manifest_sources: Table::new(),
    }
}

// ---- iOS archives ----------------------------------------------------------

/// A framework or dynamic library of an iOS archive; no binary where it could
/// not be parsed.
#[derive(Debug)]
pub struct Framework {
    pub name: String,
    pub binary: Option<NativeBinary>,
}

/// A parsed iOS archive.
pub struct IpaInput {
    /// The path as shown.
    pub path: String,
    /// The rows of the property-list viewer.
    pub info_rows: Vec<ManifestRow>,
    pub info_bytes: Vec<u8>,
    pub info_archive_path: String,
    /// The name of the main executable.
    pub executable: Option<String>,
    pub main_executable: Option<NativeBinary>,
    pub frameworks: Vec<Framework>,
}

/// The leaf of the archive's property list.
pub open spec fn plist_row(bytes: Seq<u8>) -> LeafRowView {
    LeafRowView {
        body: ""@,
        origin: "plist"@,
        label: "Info.plist"@,
        kind: LeafKindView::Plist { artifact: blake3_digest(bytes) },
    }
}

/// The collection after the property list.
pub open spec fn ipa_start(bytes: Seq<u8>) -> SnapView {
    SnapView {
        rows: seq![plist_row(bytes)],
        natives: no_natives(),
        objc: Map::empty(),
        swift: Map::empty(),
        ids: seq![blake3_digest(bytes)],
    }
}

/// The name of the main executable.
pub open spec fn main_name(executable: Option<String>) -> Seq<char> {
    match executable {
        Some(n) => n@,
        None => "main"@,
    }
}

/// The collection after the main executable.
pub open spec fn ipa_main(input: IpaInput) -> SnapView {
    let start = ipa_start(input.info_bytes@);
    match input.main_executable {
        Some(b) => with_artifact(start, b, main_name(input.executable), "main"@, "main"@),
        None => start,
    }
}

/// The collection after the first `n` frameworks; those that could not be
/// parsed are left out.
pub open spec fn ipa_frameworks(input: IpaInput, n: int) -> SnapView
    decreases n,
{
    if n <= 0 {
        ipa_main(input)
    } else {
        let before = ipa_frameworks(input, n - 1);
        match input.frameworks@[n - 1].binary {
            Some(b) => with_artifact(
                before,
                b,
                input.frameworks@[n - 1].name@,
                "Frameworks"@,
                "Frameworks"@,
            ),
            None => before,
        }
    }
}

/// The nodes of the first `n` frameworks.
pub open spec fn framework_nodes(input: IpaInput, n: int) -> Seq<NodeView>
    decreases n,
{
    if n <= 0 {
        Seq::empty()
    } else {
        let before = framework_nodes(input, n - 1);
        match input.frameworks@[n - 1].binary {
            Some(b) => before.push(
                artifact_group(
                    input.frameworks@[n - 1].name@,
                    b.container,
                    ipa_frameworks(input, n - 1).rows.len() as int,
                ),
            ),
            None => before,
        }
    }
}

/// The native artifacts among the main executable and the first `n` frameworks.
pub open spec fn ipa_artifacts(input: IpaInput, n: int) -> Seq<(Seq<u8>, Seq<Symbol>)>
    decreases n,
{
    if n <= 0 {
        match input.main_executable {
            Some(b) => seq![(blake3_digest(b.bytes@), b.symbols@)],
            None => Seq::empty(),
        }
    } else {
        match input.frameworks@[n - 1].binary {
            Some(b) => ipa_artifacts(input, n - 1).push((blake3_digest(b.bytes@), b.symbols@)),
            None => ipa_artifacts(input, n - 1),
        }
    }
}

/// The tree leaf of the property list.
pub open spec fn plist_node() -> NodeView {
    NodeView::Leaf { label: "Info.plist"@, leaf_id: LeafId(0) }
}

/// The tree before the frameworks: the property list and the main executable.
pub open spec fn ipa_top(input: IpaInput) -> Seq<NodeView> {
    seq![plist_node()] + match input.main_executable {
        Some(b) => seq![artifact_group(main_name(input.executable), b.container, 1)],
        None => Seq::empty(),
    }
}

/// The tree of an iOS archive: the property list, the main executable, and the
/// frameworks under a group of their own.
pub open spec fn ipa_tree(input: IpaInput) -> Seq<NodeView> {
    let n = input.frameworks@.len() as int;
    let frameworks = if framework_nodes(input, n).len() > 0 {
        seq![NodeView::Group { label: "Frameworks"@, children: framework_nodes(input, n) }]
    } else {
        Seq::empty()
    };
    ipa_top(input) + frameworks
}

/// The number of parts that an iOS archive is loaded in: the main executable and
/// the frameworks.
pub open spec fn ipa_parts(input: IpaInput) -> int {
    input.frameworks@.len() + 1int
}

/// `r` is the bundle of an iOS archive.
pub open spec fn is_ipa_bundle(r: LoadedBundle, input: IpaInput) -> bool {
    let n = input.frameworks@.len() as int;
    let snap = ipa_frameworks(input, n);
    &&& r.parallel()
    &&& r.leaves() == snap.rows
    &&& r.natives() == snap.natives
    &&& r.objc_classes@ == snap.objc
    &&& r.swift_types@ == snap.swift
    &&& views(r.artifact_ids@) == snap.ids
    &&& r.tree@ == ipa_tree(input)
    &&& holds_symbols(r.symbol_maps@, ipa_artifacts(input, n))
    &&& r.plist_sources@.dom() == set![blake3_digest(input.info_bytes@)]
    &&& r.plist_sources@[blake3_digest(input.info_bytes@)] == (
        input.info_archive_path,
        input.info_bytes,
    )
    &&& r.title@ == "Glass — "@ + input.path@
    &&& match r.bundle_id {
        Some(id) => id@ == blake3_digest(joined_ids(r.artifact_ids@, r.artifact_ids@.len() as int)),
        None => false,
    }
    &&& r.untouched()
    &&& r.manifest_rows == input.info_rows
    &&& indexes_decls(r.method_lines@, decls_upto(r.kinds@, r.bodies@, r.kinds@.len() as int))
    &&& indexes_calls(r.method_calls@, all_sites(RefKind::Invoke, r.kinds@, r.bodies@))
    &&& r.smali_classes@ == Map::<(Seq<u8>, Seq<char>), String>::empty()
    &&& r.manifest_sources@ == Map::<Seq<u8>, (String, Vec<u8>)>::empty()
}

/// An iOS archive on its way to a bundle, loaded part by part.
pub struct IpaLoad {
    input: IpaInput,
    snap: Snap,
    roots: Vec<Node>,
    frameworks: Vec<Node>,
    parts: usize,
}

impl IpaLoad {
    /// The archive.
    pub closed spec fn archive(&self) -> IpaInput {
        self.input
    }

    /// How many parts are loaded.
    pub closed spec fn parts(&self) -> int {
        self.parts as int
    }

    /// The loaded parts are collected.
    pub closed spec fn wf(&self) -> bool {
        let k = self.parts - 1;
        &&& ipa_parts(self.input) <= usize::MAX
        &&& self.parts <= ipa_parts(self.input)
        &&& self.snap.wf()
        &&& self.snap@ == if self.parts == 0 {
            ipa_start(self.input.info_bytes@)
        } else {
            ipa_frameworks(self.input, k)
        }
        &&& holds_symbols(
            self.snap.natives.symbol_maps@,
            if self.parts == 0 {
                Seq::empty()
            } else {
                ipa_artifacts(self.input, k)
            },
        )
        &&& node_views(self.roots@) == if self.parts == 0 {
            seq![plist_node()]
        } else {
            ipa_top(self.input)
        }
        &&& node_views(self.frameworks@) == framework_nodes(self.input, k)
    }

    /// Begins to load an archive.
    pub fn start(input: IpaInput, progress: &mut Progress) -> (r: IpaLoad)
        requires
            ipa_parts(input) <= usize::MAX,
        ensures
            r.wf(),
            r.archive() == input,
            r.parts() == 0,
            final(progress).at("Disassembling native…"@, 0, ipa_parts(input), old(progress).done),
            final(progress).label == old(progress).label,
    {
        let mut snap = Snap::new();
        let info_id = ArtifactId::from_bytes(input.info_bytes.as_slice());
        snap.artifact_ids.push(info_id);
        let leaf_id = snap.leaves.add_leaf(
            owned(""),
            owned("plist"),
            owned("Info.plist"),
            LeafKind::Plist { artifact: info_id },
        );
        let mut roots: Vec<Node> = Vec::new();
        let node = Node::Leaf { label: owned("Info.plist"), leaf_id };
        proof {
            lemma_node_views_push(roots@, node);
        }
        roots.push(node);
        proof {
            assert(views(snap.artifact_ids@) =~= seq![info_id@]);
            assert(snap.leaves@ =~= seq![plist_row(input.info_bytes@)]);
            assert(snap@ == ipa_start(input.info_bytes@));
            assert(node_views(roots@) =~= seq![plist_node()]);
        }
        let total: usize = 1 + input.frameworks.len();
        progress.enter_phase("Disassembling native…", 0, total);
        let frameworks: Vec<Node> = Vec::new();
        assert(node_views(frameworks@) =~= Seq::empty());
        IpaLoad { input, snap, roots, frameworks, parts: 0 }
    }

    /// Whether all parts are loaded.
    pub fn is_done(&self) -> (r: bool)
        requires
            self.wf(),
        ensures
            r == (self.parts() == ipa_parts(self.archive())),
    {
        self.parts > self.input.frameworks.len()
    }

    /// Loads the next part and reports how many are loaded. Parts that could not
    /// be parsed count too.
    #[verifier::rlimit(60)]
    pub fn step(&mut self, progress: &mut Progress)
        requires
            old(self).wf(),
            old(self).parts() < ipa_parts(old(self).archive()),
        ensures
            final(self).wf(),
            final(self).archive() == old(self).archive(),
            final(self).parts() == old(self).parts() + 1,
            final(progress).at(
                "Disassembling native…"@,
                final(self).parts(),
                ipa_parts(old(self).archive()),
                old(progress).done,
            ),
            final(progress).label == old(progress).label,
    {
        let ghost whole = self.input;
        if self.parts == 0 {
            let ghost none = Seq::<(Seq<u8>, Seq<Symbol>)>::empty();
            match &self.input.main_executable {
                Some(b) => {
                    let name = match &self.input.executable {
                        Some(n) => n.clone(),
                        None => owned("main"),
                    };
                    let origin = owned("main");
                    let children = self.snap.register(b, &name, &origin, "main");
                    let node = Node::Group {
                        label: tagged_name(&name, b.container.architecture),
                        children,
                    };
                    proof {
                        assert(none.push((blake3_digest(b.bytes@), b.symbols@)) =~= ipa_artifacts(
                            whole,
                            0,
                        ));
                        lemma_node_views_push(self.roots@, node);
                    }
                    self.roots.push(node);
                },
                None => {
                    assert(none =~= ipa_artifacts(whole, 0));
                },
            }
            assert(node_views(self.roots@) =~= ipa_top(whole));
        } else {
            let fw = &self.input.frameworks[self.parts - 1];
            match &fw.binary {
                Some(b) => {
                    let origin = owned("Frameworks");
                    let children = self.snap.register(b, &fw.name, &origin, "Frameworks");
                    let node = Node::Group {
                        label: tagged_name(&fw.name, b.container.architecture),
                        children,
                    };
                    proof {
                        lemma_node_views_push(self.frameworks@, node);
                    }
                    self.frameworks.push(node);
                },
                None => {},
            }
        }
        self.parts = self.parts + 1;
        let total: usize = 1 + self.input.frameworks.len();
        progress.enter_phase("Disassembling native…", self.parts, total);
    }

    /// The bundle. `icon_of` chooses the icon of a leaf.
    #[verifier::rlimit(60)]
    pub fn finish<F: Fn(&LeafKind, Option<&str>) -> &'static str>(
        self,
        display_label: String,
        icon_of: &F,
    ) -> (r: LoadedBundle)
        requires
            self.wf(),
            self.parts() == ipa_parts(self.archive()),
            forall|kind: &LeafKind, file: Option<&str>| #[trigger]
                call_requires(*icon_of, (kind, file)),
        ensures
            is_ipa_bundle(r, self.archive()),
            r.display_label == display_label,
            are_icons_of(*icon_of, r.kinds@, Map::empty(), r.leaf_icons@),
    {
        let ghost whole = self.input;
        let input = self.input;
        let snap = self.snap;
        let mut roots = self.roots;
        let frameworks = self.frameworks;
        proof {
            lemma_node_views(frameworks@);
        }
        if frameworks.len() > 0 {
            let node = Node::Group { label: owned("Frameworks"), children: frameworks };
            proof {
                lemma_node_views_push(roots@, node);
            }
            roots.push(node);
        }
        assert(node_views(roots@) =~= ipa_tree(whole));
        let method_lines = build_method_line_index(&snap.leaves.kinds, &snap.leaves.bodies);
        let method_calls = build_method_call_index(&snap.leaves.kinds, &snap.leaves.bodies);
        let bundle_id = BundleId::of_artifacts(&snap.artifact_ids);
        let info_id = ArtifactId::from_bytes(input.info_bytes.as_slice());
        let mut plist_sources: Table<ArtifactId, (String, Vec<u8>)> = Table::new();
        plist_sources.insert(info_id, (input.info_archive_path, input.info_bytes));
        assert(plist_sources@.dom() =~= set![info_id@]);
        let leaf_icons = plain_icons(&snap.leaves.kinds, icon_of);
        LoadedBundle {
            title: join2("Glass — ", input.path.as_str()),
            tree: Tree { roots },
            bodies: snap.leaves.bodies,
            origins: snap.leaves.origins,
            labels: snap.leaves.labels,
            kinds: snap.leaves.kinds,
            leaf_icons,
            bundle_id: Some(bundle_id),
            artifact_ids: snap.artifact_ids,
            display_label,
            native_sections: snap.natives.native_sections,
            native_artifact_labels: snap.natives.native_artifact_labels,
            symbol_maps: snap.natives.symbol_maps,
            text_sections: snap.natives.text_sections,
            data_sections: snap.natives.data_sections,
            method_lines,
            method_calls,
            manifest_rows: input.info_rows,
            xrefs: XrefStore::new(),
            edits: EditRegistry::new(),
            smali_classes: Table::new(),
            objc_classes: snap.objc_classes,
            swift_types: snap.swift_types,
            smali_edits: SmaliEditRegistry::new(),
            plist_sources,
            manifest_sources: Table::new(),
        }
    }
}

/// The bundle of an iOS archive. `icon_of` chooses the icon of a leaf.
pub fn snapshot_ipa_with_progress<F: Fn(&LeafKind, Option<&str>) -> &'static str>(
    input: IpaInput,
    progress: &mut Progress,
    display_label: String,
    icon_of: &F,
) -> (r: LoadedBundle)
    requires
        ipa_parts(input) <= usize::MAX,
        forall|kind: &LeafKind, file: Option<&str>| #[trigger]
            call_requires(*icon_of, (kind, file)),
    ensures
        is_ipa_bundle(r, input),
        r.display_label == display_label,
        are_icons_of(*icon_of, r.kinds@, Map::empty(), r.leaf_icons@),
        final(progress).at(
            "Disassembling native…"@,
            ipa_parts(input),
            ipa_parts(input),
            old(progress).done,
        ),
        final(progress).label == old(progress).label,
{
    let mut load = IpaLoad::start(input, progress);
    while !load.is_done()
        invariant
            load.wf(),
            load.archive() == input,
            load.parts() <= ipa_parts(input),
            progress.at(
                "Disassembling native…"@,
                load.parts(),
                ipa_parts(input),
                old(progress).done,
            ),
            progress.label == old(progress).label,
        decreases ipa_parts(input) - load.parts(),
    {
        load.step(progress);
    }
    load.finish(display_label, icon_of)
}

// ---- Android archives ------------------------------------------------------

/// A lifted DEX class.
#[derive(Debug)]
pub struct DexClass {
    /// The JNI signature.
    pub jni: String,
    /// The class as smali text.
    pub smali: String,
    /// The name of the source file, where the class tells it.
    pub source: Option<String>,
}

/// A DEX file.
#[derive(Debug)]
pub struct DexFile {
    pub name: String,
    pub bytes: Vec<u8>,
    pub classes: Vec<DexClass>,
}

/// A native library for one ABI.
#[derive(Debug)]
pub struct NativeLib {
    pub abi: String,
    pub name: String,
    pub binary: NativeBinary,
}

/// A parsed Android archive.
pub struct ApkInput {
    /// The path as shown.
    pub path: String,
    pub dex_files: Vec<DexFile>,
    pub native_libs: Vec<NativeLib>,
    /// The rows of the manifest viewer, where the manifest could be decoded.
    pub manifest: Option<Vec<ManifestRow>>,
    pub manifest_bytes: Option<Vec<u8>>,
    pub manifest_archive_path: String,
}

/// The identity of a library.
pub open spec fn lib_id(l: NativeLib) -> Seq<u8> {
    blake3_digest(l.binary.bytes@)
}

/// The identities of the DEX files, then of the libraries.
pub open spec fn apk_ids(dexes: Seq<DexFile>, libs: Seq<NativeLib>) -> Seq<Seq<u8>> {
    dexes.map_values(|d: DexFile| blake3_digest(d.bytes@)) + libs.map_values(
        |l: NativeLib| lib_id(l),
    )
}

/// The label of a library: `lib/<abi>/<name>`.
pub open spec fn lib_label(l: NativeLib) -> Seq<char> {
    "lib/"@ + l.abi@ + "/"@ + l.name@
}

/// What the bundle holds of the first `n` libraries.
pub open spec fn apk_natives(libs: Seq<NativeLib>, n: int) -> NativesView
    decreases n,
{
    if n <= 0 {
        no_natives()
    } else {
        entered(
            apk_natives(libs, n - 1),
            lib_id(libs[n - 1]),
            lib_label(libs[n - 1]),
            libs[n - 1].binary.container,
        )
    }
}

/// The libraries with their symbols.
pub open spec fn apk_artifacts(libs: Seq<NativeLib>) -> Seq<(Seq<u8>, Seq<Symbol>)> {
    libs.map_values(|l: NativeLib| (lib_id(l), l.binary.symbols@))
}

/// The leaf of the manifest, where there is one.
pub open spec fn manifest_leaf(input: ApkInput) -> Seq<LeafRowView> {
    match (input.manifest, input.manifest_bytes) {
        (Some(rows), Some(bytes)) => seq![
            LeafRowView {
                body: ""@,
                origin: "manifest"@,
                label: "AndroidManifest.xml"@,
                kind: LeafKindView::Manifest { artifact: blake3_digest(bytes@) },
            },
        ],
        _ => Seq::empty(),
    }
}

/// The tree leaf of the manifest, where there is one.
pub open spec fn manifest_node(input: ApkInput) -> Seq<NodeView> {
    match (input.manifest, input.manifest_bytes) {
        (Some(rows), Some(bytes)) => seq![
            NodeView::Leaf { label: "AndroidManifest.xml"@, leaf_id: LeafId(0) },
        ],
        _ => Seq::empty(),
    }
}

/// The leaf of a DEX class: titled by the last part of its name.
pub open spec fn class_row(dex: DexFile, i: int) -> LeafRowView {
    let class = dex.classes@[i];
    LeafRowView {
        body: class.smali@,
        origin: dex.name@,
        label: class_parts(class.jni@).last(),
        kind: LeafKindView::SmaliClass { class_jni: class.jni@ },
    }
}

/// The leaves of the first `n` classes of a DEX file.
pub open spec fn dex_rows(dex: DexFile, n: int) -> Seq<LeafRowView> {
    Seq::new(n as nat, |i: int| class_row(dex, i))
}

/// The leaves of the classes of the first `n` DEX files.
pub open spec fn class_rows(dexes: Seq<DexFile>, n: int) -> Seq<LeafRowView>
    decreases n,
{
    if n <= 0 {
        Seq::empty()
    } else {
        class_rows(dexes, n - 1) + dex_rows(dexes[n - 1], dexes[n - 1].classes@.len() as int)
    }
}

/// The first `n` classes of a DEX file as package-tree entries, their leaves
/// numbered from `first` on.
pub open spec fn dex_entries(dex: DexFile, first: int, n: int) -> Seq<EntryView> {
    Seq::new(
        n as nat,
        |i: int|
            EntryView {
                parts: class_parts(dex.classes@[i].jni@),
                id: LeafId((first + i) as usize),
            },
    )
}

/// The classes of the first `n` DEX files as package-tree entries, their leaves
/// numbered from `first` on.
pub open spec fn class_entries(dexes: Seq<DexFile>, first: int, n: int) -> Seq<EntryView>
    decreases n,
{
    if n <= 0 {
        Seq::empty()
    } else {
        class_entries(dexes, first, n - 1) + dex_entries(
            dexes[n - 1],
            first + class_rows(dexes, n - 1).len(),
            dexes[n - 1].classes@.len() as int,
        )
    }
}

/// `m` with the first `n` classes of a DEX file entered.
pub open spec fn with_dex(
    m: Map<(Seq<u8>, Seq<char>), Seq<char>>,
    dex: DexFile,
    n: int,
) -> Map<(Seq<u8>, Seq<char>), Seq<char>>
    decreases n,
{
    if n <= 0 {
        m
    } else {
        with_dex(m, dex, n - 1).insert(
            (blake3_digest(dex.bytes@), dex.classes@[n - 1].jni@),
            dex.classes@[n - 1].smali@,
        )
    }
}

/// The smali text of the classes of the first `n` DEX files.
pub open spec fn smali_texts(dexes: Seq<DexFile>, n: int) -> Map<(Seq<u8>, Seq<char>), Seq<char>>
    decreases n,
{
    if n <= 0 {
        Map::empty()
    } else {
        with_dex(smali_texts(dexes, n - 1), dexes[n - 1], dexes[n - 1].classes@.len() as int)
    }
}

/// The source file of a class.
pub open spec fn source_name(source: Option<String>) -> Option<Seq<char>> {
    match source {
        Some(f) => Some(f@),
        None => None,
    }
}

/// `m` with the source files of the first `n` classes of a DEX file entered.
pub open spec fn with_sources(
    m: Map<Seq<char>, Option<Seq<char>>>,
    dex: DexFile,
    n: int,
) -> Map<Seq<char>, Option<Seq<char>>>
    decreases n,
{
    if n <= 0 {
        m
    } else {
        with_sources(m, dex, n - 1).insert(
            dex.classes@[n - 1].jni@,
            source_name(dex.classes@[n - 1].source),
        )
    }
}

/// The source files of the classes of the first `n` DEX files. Of classes that
/// share a name, the last one counts.
pub open spec fn class_sources(dexes: Seq<DexFile>, n: int) -> Map<Seq<char>, Option<Seq<char>>>
    decreases n,
{
    if n <= 0 {
        Map::empty()
    } else {
        with_sources(class_sources(dexes, n - 1), dexes[n - 1], dexes[n - 1].classes@.len() as int)
    }
}

/// The leaves of a library.
pub open spec fn lib_rows(l: NativeLib) -> Seq<LeafRowView> {
    native_rows(
        lib_id(l),
        l.binary.container,
        "lib/"@ + l.abi@,
        l.name@ + " (overview)"@,
    )
}

/// The leaves of the first `n` libraries.
pub open spec fn libs_rows(libs: Seq<NativeLib>, n: int) -> Seq<LeafRowView>
    decreases n,
{
    if n <= 0 {
        Seq::empty()
    } else {
        libs_rows(libs, n - 1) + lib_rows(libs[n - 1])
    }
}

/// The group node of a library, its leaves numbered from `first` on.
pub open spec fn lib_node(l: NativeLib, first: int) -> NodeView {
    NodeView::Group {
        label: tagged(l.name@, l.binary.container.architecture),
        children: native_nodes(l.binary.container, first),
    }
}

/// The nodes of the libraries for `abi` among the first `n`; the leaves of all
/// libraries are numbered from `base` on.
pub open spec fn abi_nodes(libs: Seq<NativeLib>, base: int, abi: Seq<char>, n: int) -> Seq<NodeView>
    decreases n,
{
    if n <= 0 {
        Seq::empty()
    } else if libs[n - 1].abi@ == abi {
        abi_nodes(libs, base, abi, n - 1).push(
            lib_node(libs[n - 1], base + libs_rows(libs, n - 1).len()),
        )
    } else {
        abi_nodes(libs, base, abi, n - 1)
    }
}

/// The ABIs of the libraries.
pub open spec fn abis(libs: Seq<NativeLib>) -> Seq<Seq<char>> {
    libs.map_values(|l: NativeLib| l.abi@)
}

/// The groups of the ABIs in `names`.
pub open spec fn abi_groups(libs: Seq<NativeLib>, base: int, names: Seq<Seq<char>>) -> Seq<NodeView> {
    names.map_values(
        |abi: Seq<char>|
            NodeView::Group {
                label: abi,
                children: abi_nodes(libs, base, abi, libs.len() as int),
            },
    )
}

/// The leaves of an Android archive: the manifest, the classes, the libraries.
pub open spec fn apk_rows(input: ApkInput) -> Seq<LeafRowView> {
    manifest_leaf(input) + class_rows(input.dex_files@, input.dex_files@.len() as int) + libs_rows(
        input.native_libs@,
        input.native_libs@.len() as int,
    )
}

/// The tree of an Android archive: the manifest, the classes of all DEX files
/// by package, and the libraries by ABI in ascending order.
pub open spec fn apk_tree(input: ApkInput) -> Seq<NodeView> {
    let dexes = input.dex_files@;
    let libs = input.native_libs@;
    let first = manifest_leaf(input).len() as int;
    let base = first + class_rows(dexes, dexes.len() as int).len();
    let classes = if dexes.len() > 0 {
        seq![
            NodeView::Group {
                label: "Classes"@,
                children: package_nodes(class_entries(dexes, first, dexes.len() as int)),
            },
        ]
    } else {
        Seq::empty()
    };
    let natives = if libs.len() > 0 {
        seq![
            NodeView::Group {
                label: "lib"@,
                children: abi_groups(libs, base, sorted_list::<String>(abis(libs))),
            },
        ]
    } else {
        Seq::empty()
    };
    manifest_node(input) + classes + natives
}

/// Enters all libraries and returns their identities.
fn enter_libs(libs: &Vec<NativeLib>, natives: &mut Natives) -> (ids: Vec<ArtifactId>)
    requires
        old(natives)@ == no_natives(),
        old(natives).symbol_maps@ == Map::<Seq<u8>, SymbolMap>::empty(),
    ensures
        final(natives)@ == apk_natives(libs@, libs@.len() as int),
        holds_symbols(final(natives).symbol_maps@, apk_artifacts(libs@)),
        views(ids@) == libs@.map_values(|l: NativeLib| lib_id(l)),
{
    let ghost all = apk_artifacts(libs@);
    let ghost all_ids = libs@.map_values(|l: NativeLib| lib_id(l));
    let mut ids: Vec<ArtifactId> = Vec::new();
    let mut i: usize = 0;
    proof {
        assert(holds_symbols(natives.symbol_maps@, all.take(0)));
        assert(views(ids@) =~= all_ids.take(0));
    }
    while i < libs.len()
        invariant
            all == apk_artifacts(libs@),
            all_ids == libs@.map_values(|l: NativeLib| lib_id(l)),
            i <= libs@.len(),
            natives@ == apk_natives(libs@, i as int),
            holds_symbols(natives.symbol_maps@, all.take(i as int)),
            views(ids@) == all_ids.take(i as int),
        decreases libs@.len() - i,
    {
        let l = &libs[i];
        let aid = ArtifactId::from_bytes(l.binary.bytes.as_slice());
        let abi_part = join3("lib/", l.abi.as_str(), "/");
        let label = join2(abi_part.as_str(), l.name.as_str());
        let ghost maps = natives.symbol_maps@;
        natives.enter(&aid, label, &l.binary.container, &l.binary.symbols);
        let ghost before = views(ids@);
        ids.push(aid);
        proof {
            lemma_holds_symbols(
                maps,
                natives.symbol_maps@,
                all.take(i as int),
                aid@,
                l.binary.symbols@,
            );
            assert(all.take(i + 1) =~= all.take(i as int).push((aid@, l.binary.symbols@)));
            assert(views(ids@) =~= before.push(aid@));
            assert(views(ids@) =~= all_ids.take(i + 1));
        }
        i += 1;
    }
    proof {
        assert(all.take(i as int) =~= all);
        assert(all_ids.take(i as int) =~= all_ids);
    }
    ids
}

/// The leaves of the classes before class `c` of DEX file `d`.
spec fn lifted_rows(dexes: Seq<DexFile>, d: int, c: int) -> Seq<LeafRowView> {
    if d < dexes.len() {
        class_rows(dexes, d) + dex_rows(dexes[d], c)
    } else {
        class_rows(dexes, d)
    }
}

/// Those classes as package-tree entries, their leaves numbered from `first` on.
spec fn lifted_entries(dexes: Seq<DexFile>, first: int, d: int, c: int) -> Seq<EntryView> {
    if d < dexes.len() {
        class_entries(dexes, first, d) + dex_entries(
            dexes[d],
            first + class_rows(dexes, d).len(),
            c,
        )
    } else {
        class_entries(dexes, first, d)
    }
}

/// The smali text of those classes.
spec fn lifted_texts(dexes: Seq<DexFile>, d: int, c: int) -> Map<(Seq<u8>, Seq<char>), Seq<char>> {
    if d < dexes.len() {
        with_dex(smali_texts(dexes, d), dexes[d], c)
    } else {
        smali_texts(dexes, d)
    }
}

/// The source files of those classes.
spec fn lifted_sources(dexes: Seq<DexFile>, d: int, c: int) -> Map<Seq<char>, Option<Seq<char>>> {
    if d < dexes.len() {
        with_sources(class_sources(dexes, d), dexes[d], c)
    } else {
        class_sources(dexes, d)
    }
}

/// The end of a DEX file is the beginning of the next one.
proof fn lemma_next_dex(dexes: Seq<DexFile>, first: int, d: int)
    requires
        0 <= d < dexes.len(),
    ensures
        ({
            let n = dexes[d].classes@.len() as int;
            &&& lifted_rows(dexes, d, n) == lifted_rows(dexes, d + 1, 0)
            &&& lifted_entries(dexes, first, d, n) == lifted_entries(dexes, first, d + 1, 0)
            &&& lifted_texts(dexes, d, n) == lifted_texts(dexes, d + 1, 0)
            &&& lifted_sources(dexes, d, n) == lifted_sources(dexes, d + 1, 0)
        }),
{
    let n = dexes[d].classes@.len() as int;
    assert(lifted_rows(dexes, d, n) =~= lifted_rows(dexes, d + 1, 0));
    assert(lifted_entries(dexes, first, d, n) =~= lifted_entries(dexes, first, d + 1, 0));
}

proof fn lemma_class_rows_monotonic(dexes: Seq<DexFile>, a: int, b: int)
    requires
        0 <= a <= b <= dexes.len(),
    ensures
        class_rows(dexes, a).len() <= class_rows(dexes, b).len(),
    decreases b - a,
{
    if a < b {
        lemma_class_rows_monotonic(dexes, a, b - 1);
    }
}

/// What the classes lifted so far leave besides their leaves, and where the next
/// one stands.
struct Lifting {
    packages: PkgBuilder,
    smali: Table<SectionKey, String>,
    sources: Table<String, Option<String>>,
    dex: usize,
    class: usize,
}

impl Lifting {
    /// The classes before the next one are collected, their leaves numbered from
    /// `first` on.
    spec fn collected(&self, dexes: Seq<DexFile>, first: int) -> bool {
        let d = self.dex as int;
        let c = self.class as int;
        &&& d <= dexes.len()
        &&& d < dexes.len() ==> c <= dexes[d].classes@.len()
        &&& d == dexes.len() ==> c == 0
        &&& self.packages@ == lifted_entries(dexes, first, d, c)
        &&& texts(self.smali@) == lifted_texts(dexes, d, c)
        &&& source_names(self.sources@) == lifted_sources(dexes, d, c)
    }

    /// The leaves of the lifted classes.
    spec fn rows(&self, dexes: Seq<DexFile>) -> Seq<LeafRowView> {
        lifted_rows(dexes, self.dex as int, self.class as int)
    }

    /// There is a next class, or all are lifted.
    spec fn settled(&self, dexes: Seq<DexFile>) -> bool {
        self.dex < dexes.len() ==> self.class < dexes[self.dex as int].classes@.len()
    }

    fn start(dexes: &Vec<DexFile>, Ghost(first): Ghost<int>) -> (r: Lifting)
        ensures
            r.collected(dexes@, first),
            r.settled(dexes@),
            r.rows(dexes@) == Seq::<LeafRowView>::empty(),
    {
        let mut r = Lifting {
            packages: PkgBuilder::new(),
            smali: Table::new(),
            sources: Table::new(),
            dex: 0,
            class: 0,
        };
        proof {
            assert(r.packages@ =~= lifted_entries(dexes@, first, 0, 0));
            assert(texts(r.smali@) =~= lifted_texts(dexes@, 0, 0));
            assert(source_names(r.sources@) =~= lifted_sources(dexes@, 0, 0));
            assert(r.rows(dexes@) =~= Seq::empty());
        }
        r.settle(dexes, Ghost(first));
        r
    }

    /// Moves on to the next DEX file that holds a class.
    fn settle(&mut self, dexes: &Vec<DexFile>, Ghost(first): Ghost<int>)
        requires
            old(self).collected(dexes@, first),
        ensures
            final(self).collected(dexes@, first),
            final(self).settled(dexes@),
            final(self).rows(dexes@) == old(self).rows(dexes@),
    {
        while self.dex < dexes.len() && self.class == dexes[self.dex].classes.len()
            invariant
                self.collected(dexes@, first),
                self.rows(dexes@) == old(self).rows(dexes@),
            decreases dexes@.len() - self.dex,
        {
            proof {
                lemma_next_dex(dexes@, first, self.dex as int);
            }
            self.dex = self.dex + 1;
            self.class = 0;
        }
    }

    /// Lifts the next class. `ids` begins with the identities of the DEX files.
    #[verifier::rlimit(60)]
    fn lift(
        &mut self,
        dexes: &Vec<DexFile>,
        ids: &Vec<ArtifactId>,
        leaves: &mut Leaves,
        Ghost(first): Ghost<int>,
    )
        requires
            old(self).collected(dexes@, first),
            old(self).settled(dexes@),
            old(self).dex < dexes@.len(),
            dexes@.len() <= ids@.len(),
            forall|d: int|
                0 <= d < dexes@.len() ==> (#[trigger] ids@[d])@ == blake3_digest(dexes@[d].bytes@),
            old(leaves).wf(),
            old(leaves)@.len() == first + old(self).rows(dexes@).len(),
        ensures
            final(self).collected(dexes@, first),
            final(self).settled(dexes@),
            final(leaves).wf(),
            final(self).rows(dexes@).len() == old(self).rows(dexes@).len() + 1,
            final(leaves)@ == old(leaves)@.push(final(self).rows(dexes@).last()),
            final(self).rows(dexes@).drop_last() == old(self).rows(dexes@),
    {
        let ghost d = self.dex as int;
        let ghost c = self.class as int;
        let ghost old_packages = self.packages@;
        let ghost old_smali = self.smali@;
        let ghost old_sources = self.sources@;
        let dex = &dexes[self.dex];
        let classes: usize = dex.classes.len();
        let class = &dex.classes[self.class];
        let aid = ids[self.dex];
        let parts = split_jni_class_name(class.jni.as_str());
        proof {
            lemma_parts_exist(crate::packages::class_path(class.jni@), '/', 0);
        }
        let label = parts[parts.len() - 1].clone();
        let id = leaves.add_leaf(
            class.smali.clone(),
            dex.name.clone(),
            label,
            LeafKind::SmaliClass { class_jni: class.jni.clone() },
        );
        self.smali.insert((aid, class.jni.clone()), class.smali.clone());
        self.sources.insert(class.jni.clone(), class.source.clone());
        self.packages.insert(&parts, id);
        self.class = self.class + 1;
        proof {
            assert(strings(parts@).last() == label@);
            assert(texts(self.smali@) =~= texts(old_smali).insert(
                (aid@, class.jni@),
                class.smali@,
            ));
            assert(source_names(self.sources@) =~= source_names(old_sources).insert(
                class.jni@,
                source_name(class.source),
            ));
            assert(self.packages@ =~= lifted_entries(dexes@, first, d, c + 1));
            assert(self.rows(dexes@) =~= old(self).rows(dexes@).push(class_row(*dex, c)));
            assert(self.rows(dexes@).drop_last() =~= old(self).rows(dexes@));
        }
        self.settle(dexes, Ghost(first));
    }
}

proof fn lemma_parts_exist(t: Seq<char>, sep: char, i: int)
    requires
        0 <= i <= t.len(),
    ensures
        crate::packages::pieces_from(t, sep, i).len() > 0,
{
}

/// The nodes of the libraries, grouped by ABI in ascending order.
fn group_libs(libs: &Vec<NativeLib>, firsts: &Vec<usize>, Ghost(base): Ghost<int>) -> (out: Vec<Node>)
    requires
        firsts@.len() == libs@.len(),
        forall|i: int|
            0 <= i < libs@.len() ==> #[trigger] firsts@[i] == base + libs_rows(libs@, i).len(),
        forall|i: int|
            0 <= i < libs@.len() ==> (#[trigger] firsts@[i]) + lib_rows(libs@[i]).len()
                <= usize::MAX,
    ensures
        node_views(out@) == abi_groups(libs@, base, sorted_list::<String>(abis(libs@))),
{
    let ghost all_abis = abis(libs@);
    let mut abi_list: Vec<String> = Vec::new();
    let mut i: usize = 0;
    assert(views(abi_list@) =~= all_abis.take(0));
    while i < libs.len()
        invariant
            all_abis == abis(libs@),
            i <= libs@.len(),
            views(abi_list@) == all_abis.take(i as int),
        decreases libs@.len() - i,
    {
        let ghost before = views(abi_list@);
        abi_list.push(libs[i].abi.clone());
        proof {
            assert(views(abi_list@) =~= before.push(libs@[i as int].abi@));
            assert(views(abi_list@) =~= all_abis.take(i + 1));
        }
        i += 1;
    }
    assert(all_abis.take(i as int) =~= all_abis);
    let names = sort_dedup(&abi_list);
    let ghost nv = views(names@);
    proof {
        lemma_sorted_list::<String>(all_abis, nv);
    }
    let ghost groups = abi_groups(libs@, base, nv);
    let mut out: Vec<Node> = Vec::new();
    let mut k: usize = 0;
    assert(node_views(out@) =~= groups.take(0));
    while k < names.len()
        invariant
            firsts@.len() == libs@.len(),
            forall|i: int|
                0 <= i < libs@.len() ==> #[trigger] firsts@[i] == base + libs_rows(libs@, i).len(),
            forall|i: int|
                0 <= i < libs@.len() ==> (#[trigger] firsts@[i]) + lib_rows(libs@[i]).len()
                    <= usize::MAX,
            nv == views(names@),
            groups == abi_groups(libs@, base, nv),
            k <= names@.len(),
            node_views(out@) == groups.take(k as int),
        decreases names@.len() - k,
    {
        let abi = &names[k];
        let mut children: Vec<Node> = Vec::new();
        let mut j: usize = 0;
        assert(node_views(children@) =~= abi_nodes(libs@, base, abi@, 0));
        while j < libs.len()
            invariant
                firsts@.len() == libs@.len(),
                forall|i: int|
                    0 <= i < libs@.len() ==> #[trigger] firsts@[i] == base + libs_rows(
                        libs@,
                        i,
                    ).len(),
                forall|i: int|
                    0 <= i < libs@.len() ==> (#[trigger] firsts@[i]) + lib_rows(libs@[i]).len()
                        <= usize::MAX,
                j <= libs@.len(),
                node_views(children@) == abi_nodes(libs@, base, abi@, j as int),
            decreases libs@.len() - j,
        {
            let l = &libs[j];
            if l.abi == *abi {
                let c = &l.binary.container;
                proof {
                    assert(firsts@[j as int] + lib_rows(libs@[j as int]).len() <= usize::MAX);
                    lemma_native_rows_len(lib_id(*l), *c, "lib/"@ + l.abi@, l.name@ + " (overview)"@);
                }
                let kids = native_children(c, firsts[j]);
                let node = Node::Group {
                    label: tagged_name(&l.name, c.architecture),
                    children: kids,
                };
                proof {
                    lemma_node_views_push(children@, node);
                }
                children.push(node);
            }
            j += 1;
        }
        let group = Node::Group { label: abi.clone(), children };
        proof {
            lemma_node_views_push(out@, group);
            assert(nv[k as int] == abi@);
            assert(groups[k as int] == node_view(group));
        }
        out.push(group);
        assert(node_views(out@) =~= groups.take(k + 1));
        k += 1;
    }
    assert(groups.take(k as int) =~= groups);
    out
}

/// The number of classes in an Android archive.
pub open spec fn apk_classes(input: ApkInput) -> int {
    class_rows(input.dex_files@, input.dex_files@.len() as int).len() as int
}

/// The number of steps that lift the classes, 64 at a time.
pub open spec fn apk_runs(input: ApkInput) -> int {
    (apk_classes(input) + 63) / 64
}

/// The number of steps that an Android archive is loaded in: those that lift the
/// classes, one that turns to the libraries, and one per library.
pub open spec fn apk_steps(input: ApkInput) -> int {
    apk_runs(input) + if input.native_libs@.len() > 0 {
        input.native_libs@.len() + 1int
    } else {
        0int
    }
}

/// What the progress bar shows after `s` steps.
pub open spec fn apk_shows(p: Progress, input: ApkInput, s: int, done: bool) -> bool {
    let classes = apk_classes(input);
    if s <= apk_runs(input) {
        p.at("Lifting smali…"@, lesser(64 * s, classes), classes, done)
    } else {
        p.at(
            "Disassembling native…"@,
            s - apk_runs(input) - 1,
            input.native_libs@.len() as int,
            done,
        )
    }
}

/// The progress bar begins at zero, never runs backwards within a phase, never
/// passes its total, and is full at the end of each phase.
pub proof fn law_apk_progress_runs_forward(input: ApkInput, p: Progress, q: Progress, s: int, done: bool)
    requires
        0 <= s < apk_steps(input),
        apk_shows(p, input, s, done),
        apk_shows(q, input, s + 1, done),
    ensures
        s == 0 ==> p.current == 0,
        p.current <= p.total,
        q.current <= q.total,
        s != apk_runs(input) ==> p.phase@ == q.phase@ && p.total == q.total && p.current < q.current,
        s == apk_runs(input) ==> p.current == p.total && q.current == 0,
        s + 1 == apk_steps(input) ==> q.current == q.total,
{
}

/// `r` is the bundle of an Android archive.
pub open spec fn is_apk_bundle(r: LoadedBundle, input: ApkInput) -> bool {
    let dexes = input.dex_files@;
    let libs = input.native_libs@;
    &&& r.parallel()
    &&& r.leaves() == apk_rows(input)
    &&& r.tree@ == apk_tree(input)
    &&& r.natives() == apk_natives(libs, libs.len() as int)
    &&& holds_symbols(r.symbol_maps@, apk_artifacts(libs))
    &&& views(r.artifact_ids@) == apk_ids(dexes, libs)
    &&& texts(r.smali_classes@) == smali_texts(dexes, dexes.len() as int)
    &&& match (input.manifest, input.manifest_bytes) {
        (Some(rows), Some(bytes)) => {
            &&& r.manifest_rows == rows
            &&& r.manifest_sources@.dom() == set![blake3_digest(bytes@)]
            &&& r.manifest_sources@[blake3_digest(bytes@)] == (input.manifest_archive_path, bytes)
        },
        _ => r.manifest_rows@.len() == 0 && r.manifest_sources@ == Map::<
            Seq<u8>,
            (String, Vec<u8>),
        >::empty(),
    }
    &&& r.title@ == "Glass — "@ + input.path@
    &&& match r.bundle_id {
        Some(id) => id@ == blake3_digest(joined_ids(r.artifact_ids@, r.artifact_ids@.len() as int)),
        None => false,
    }
    &&& r.untouched()
    &&& indexes_decls(r.method_lines@, decls_upto(r.kinds@, r.bodies@, r.kinds@.len() as int))
    &&& indexes_calls(r.method_calls@, all_sites(RefKind::Invoke, r.kinds@, r.bodies@))
    &&& r.objc_classes@ == Map::<(Seq<u8>, Seq<char>), Arc<Vec<String>>>::empty()
    &&& r.swift_types@ == Map::<(Seq<u8>, Seq<char>), Arc<Vec<String>>>::empty()
    &&& r.plist_sources@ == Map::<Seq<u8>, (String, Vec<u8>)>::empty()
}

/// An Android archive on its way to a bundle, loaded step by step.
pub struct ApkLoad {
    input: ApkInput,
    natives: Natives,
    artifact_ids: Vec<ArtifactId>,
    leaves: Leaves,
    lifting: Lifting,
    lifted: usize,
    total: usize,
    /// Leaves before the classes.
    first: usize,
    /// Libraries shown so far, once all classes are lifted.
    shown: Option<usize>,
    /// The first leaf of each of them.
    firsts: Vec<usize>,
}

impl ApkLoad {
    /// The archive.
    pub closed spec fn archive(&self) -> ApkInput {
        self.input
    }

    /// How many steps are done.
    pub closed spec fn steps(&self) -> int {
        match self.shown {
            None => (self.lifted + 63) / 64,
            Some(i) => apk_runs(self.input) + 1 + i,
        }
    }

    /// What is collected but for the leaves of libraries.
    spec fn sound(&self) -> bool {
        let dexes = self.input.dex_files@;
        let libs = self.input.native_libs@;
        &&& self.total == apk_classes(self.input)
        &&& self.first == manifest_leaf(self.input).len()
        &&& self.natives@ == apk_natives(libs, libs.len() as int)
        &&& holds_symbols(self.natives.symbol_maps@, apk_artifacts(libs))
        &&& views(self.artifact_ids@) == apk_ids(dexes, libs)
        &&& self.lifting.collected(dexes, self.first as int)
        &&& self.lifting.settled(dexes)
        &&& self.lifted == self.lifting.rows(dexes).len()
        &&& self.lifted <= self.total
        &&& self.leaves.wf()
    }

    /// The leaves of libraries are collected.
    spec fn libs_sound(&self) -> bool {
        let libs = self.input.native_libs@;
        let head = manifest_leaf(self.input) + self.lifting.rows(self.input.dex_files@);
        match self.shown {
            None => self.firsts@.len() == 0 && self.leaves@ == head,
            Some(i) => {
                &&& self.lifted == self.total
                &&& 0 < libs.len()
                &&& i <= libs.len()
                &&& self.leaves@ == head + libs_rows(libs, i as int)
                &&& self.firsts@.len() == i
                &&& forall|k: int|
                    0 <= k < i ==> #[trigger] self.firsts@[k] == head.len() + libs_rows(
                        libs,
                        k,
                    ).len()
                &&& forall|k: int|
                    0 <= k < i ==> (#[trigger] self.firsts@[k]) + lib_rows(libs[k]).len()
                        <= usize::MAX
            },
        }
    }

    /// The steps done are collected.
    pub closed spec fn wf(&self) -> bool {
        &&& self.sound()
        &&& self.libs_sound()
        &&& self.lifted % 64 == 0 || self.lifted == self.total
    }

    /// The next class stands where the count says.
    proof fn lemma_lifted(&self)
        requires
            self.sound(),
        ensures
            self.lifted < self.total <==> self.lifting.dex < self.input.dex_files@.len(),
            self.lifted == self.total ==> self.lifting.rows(self.input.dex_files@) == class_rows(
                self.input.dex_files@,
                self.input.dex_files@.len() as int,
            ),
    {
        let dexes = self.input.dex_files@;
        let d = self.lifting.dex as int;
        if d < dexes.len() {
            assert(class_rows(dexes, d + 1).len() == class_rows(dexes, d).len()
                + dexes[d].classes@.len());
            lemma_class_rows_monotonic(dexes, d + 1, dexes.len() as int);
        }
    }

    /// Begins to load an archive: counts the classes.
    #[verifier::rlimit(60)]
    pub fn start(input: ApkInput, progress: &mut Progress) -> (r: ApkLoad)
        requires
            apk_classes(input) <= usize::MAX,
        ensures
            r.wf(),
            r.archive() == input,
            r.steps() == 0,
            apk_shows(*final(progress), input, 0, old(progress).done),
            final(progress).label == old(progress).label,
    {
        let ghost dexes = input.dex_files@;
        let ghost libs = input.native_libs@;
        let mut natives = Natives::new();
        let lib_ids = enter_libs(&input.native_libs, &mut natives);
        let mut artifact_ids = dex_ids(&input.dex_files);
        append_ids(&mut artifact_ids, &lib_ids);
        let mut leaves = Leaves::new();
        match (&input.manifest, &input.manifest_bytes) {
            (Some(rows), Some(bytes)) => {
                let aid = ArtifactId::from_bytes(bytes.as_slice());
                leaves.add_leaf(
                    owned(""),
                    owned("manifest"),
                    owned("AndroidManifest.xml"),
                    LeafKind::Manifest { artifact: aid },
                );
            },
            _ => {},
        }
        assert(leaves@ =~= manifest_leaf(input));
        let first: usize = leaves.len();
        let total: usize = count_classes(&input.dex_files);
        progress.enter_phase("Lifting smali…", 0, total);
        let lifting = Lifting::start(&input.dex_files, Ghost(first as int));
        let r = ApkLoad {
            input,
            natives,
            artifact_ids,
            leaves,
            lifting,
            lifted: 0,
            total,
            first,
            shown: None,
            firsts: Vec::new(),
        };
        assert(r.leaves@ =~= manifest_leaf(input) + r.lifting.rows(dexes));
        r
    }

    /// Whether all steps are done.
    pub fn is_done(&self) -> (r: bool)
        requires
            self.wf(),
        ensures
            r == (self.steps() == apk_steps(self.archive())),
            self.steps() <= apk_steps(self.archive()),
    {
        match self.shown {
            None => self.lifted == self.total && self.input.native_libs.len() == 0,
            Some(i) => i == self.input.native_libs.len(),
        }
    }

    /// Lifts the next 64 classes, or what is left.
    #[verifier::rlimit(60)]
    fn lift_run(&mut self)
        requires
            old(self).wf(),
            old(self).lifted < old(self).total,
        ensures
            final(self).wf(),
            final(self).input == old(self).input,
            final(self).total == old(self).total,
            final(self).shown is None,
            final(self).lifted == lesser(old(self).lifted + 64, old(self).total as int),
    {
        let ghost whole = self.input;
        let ghost dexes = self.input.dex_files@;
        let ghost libs = self.input.native_libs@;
        let ghost manifest = manifest_leaf(self.input);
        let target: usize = if self.total - self.lifted > 64 {
            self.lifted + 64
        } else {
            self.total
        };
        proof {
            assert(views(self.artifact_ids@).len() == self.artifact_ids@.len());
            assert forall|d: int| 0 <= d < dexes.len() implies (#[trigger] self.artifact_ids@[d])@
                == blake3_digest(dexes[d].bytes@) by {
                assert(views(self.artifact_ids@)[d] == self.artifact_ids@[d]@);
            }
        }
        while self.lifted < target
            invariant
                self.sound(),
                self.input == whole,
                dexes == whole.dex_files@,
                manifest == manifest_leaf(whole),
                self.total == old(self).total,
                self.shown is None,
                self.firsts@.len() == 0,
                self.leaves@ == manifest + self.lifting.rows(dexes),
                self.lifted <= target <= self.total,
                dexes.len() <= self.artifact_ids@.len(),
                forall|d: int|
                    0 <= d < dexes.len() ==> (#[trigger] self.artifact_ids@[d])@ == blake3_digest(
                        dexes[d].bytes@,
                    ),
            decreases target - self.lifted,
        {
            proof {
                self.lemma_lifted();
            }
            let ghost rows = self.lifting.rows(dexes);
            self.lifting.lift(
                &self.input.dex_files,
                &self.artifact_ids,
                &mut self.leaves,
                Ghost(self.first as int),
            );
            self.lifted = self.lifted + 1;
            proof {
                let now = self.lifting.rows(dexes);
                assert(now =~= now.drop_last().push(now.last()));
                assert(self.leaves@ =~= manifest + now);
            }
        }
    }

    /// Shows the next library.
    #[verifier::rlimit(60)]
    fn show_lib(&mut self, i: usize)
        requires
            old(self).wf(),
            old(self).shown == Some(i),
            i < old(self).input.native_libs@.len(),
        ensures
            final(self).wf(),
            final(self).input == old(self).input,
            final(self).shown == Some((i + 1) as usize),
    {
        let ghost dexes = self.input.dex_files@;
        let ghost libs = self.input.native_libs@;
        let ghost head = manifest_leaf(self.input) + self.lifting.rows(dexes);
        let n: usize = self.input.native_libs.len();
        let d: usize = self.input.dex_files.len();
        let l = &self.input.native_libs[i];
        let at: usize = self.leaves.len();
        self.firsts.push(at);
        let origin = join2("lib/", l.abi.as_str());
        let overview = join2(l.name.as_str(), " (overview)");
        proof {
            assert(views(self.artifact_ids@).len() == self.artifact_ids@.len());
            assert(views(self.artifact_ids@)[d + i] == self.artifact_ids@[d + i]@);
        }
        let ids: usize = self.artifact_ids.len();
        let aid = self.artifact_ids[d + i];
        add_native_leaves(&mut self.leaves, &aid, &l.binary.container, &origin, overview);
        let now: usize = self.leaves.len();
        self.shown = Some(i + 1);
        proof {
            assert(self.leaves@ =~= head + libs_rows(libs, i + 1));
        }
    }

    /// Does the next step and reports how far loading has come.
    pub fn step(&mut self, progress: &mut Progress)
        requires
            old(self).wf(),
            old(self).steps() < apk_steps(old(self).archive()),
        ensures
            final(self).wf(),
            final(self).archive() == old(self).archive(),
            final(self).steps() == old(self).steps() + 1,
            apk_shows(
                *final(progress),
                old(self).archive(),
                final(self).steps(),
                old(progress).done,
            ),
            final(progress).label == old(progress).label,
    {
        let n: usize = self.input.native_libs.len();
        match self.shown {
            None => {
                if self.lifted < self.total {
                    self.lift_run();
                    progress.enter_phase("Lifting smali…", self.lifted, self.total);
                } else {
                    proof {
                        assert(libs_rows(self.input.native_libs@, 0) =~= Seq::empty());
                        assert(self.leaves@ =~= self.leaves@ + Seq::empty());
                    }
                    self.shown = Some(0);
                    progress.enter_phase("Disassembling native…", 0, n);
                }
            },
            Some(i) => {
                self.show_lib(i);
                progress.enter_phase("Disassembling native…", i + 1, n);
            },
        }
    }

    /// The bundle. `icon_of` chooses the icon of a leaf, of a class by the name of
    /// its source file too.
    #[verifier::rlimit(60)]
    pub fn finish<F: Fn(&LeafKind, Option<&str>) -> &'static str>(
        self,
        display_label: String,
        icon_of: &F,
    ) -> (r: LoadedBundle)
        requires
            self.wf(),
            self.steps() == apk_steps(self.archive()),
            forall|kind: &LeafKind, file: Option<&str>| #[trigger]
                call_requires(*icon_of, (kind, file)),
        ensures
            is_apk_bundle(r, self.archive()),
            r.display_label == display_label,
            are_icons_of(
                *icon_of,
                r.kinds@,
                class_sources(
                    self.archive().dex_files@,
                    self.archive().dex_files@.len() as int,
                ),
                r.leaf_icons@,
            ),
    {
        let ghost whole = self.input;
        let ghost dexes = whole.dex_files@;
        let ghost libs = whole.native_libs@;
        proof {
            self.lemma_lifted();
        }
        let input = self.input;
        let leaves = self.leaves;
        let lifting = self.lifting;
        let ghost base = self.first + self.total;
        let mut roots: Vec<Node> = Vec::new();
        let mut manifest_sources: Table<ArtifactId, (String, Vec<u8>)> = Table::new();
        let mut manifest_rows: Vec<ManifestRow> = Vec::new();
        match (input.manifest, input.manifest_bytes) {
            (Some(rows), Some(bytes)) => {
                let aid = ArtifactId::from_bytes(bytes.as_slice());
                let node = Node::Leaf { label: owned("AndroidManifest.xml"), leaf_id: LeafId(0) };
                proof {
                    lemma_node_views_push(roots@, node);
                }
                roots.push(node);
                manifest_sources.insert(aid, (input.manifest_archive_path, bytes));
                assert(manifest_sources@.dom() =~= set![aid@]);
                manifest_rows = rows;
            },
            _ => {},
        }
        assert(node_views(roots@) =~= manifest_node(whole));
        if input.dex_files.len() > 0 {
            let node = Node::Group {
                label: owned("Classes"),
                children: lifting.packages.finish(),
            };
            proof {
                lemma_node_views_push(roots@, node);
            }
            roots.push(node);
        }
        if input.native_libs.len() > 0 {
            let children = group_libs(&input.native_libs, &self.firsts, Ghost(base as int));
            let node = Node::Group { label: owned("lib"), children };
            proof {
                lemma_node_views_push(roots@, node);
            }
            roots.push(node);
        }
        proof {
            assert(leaves@ =~= apk_rows(whole));
            assert(node_views(roots@) =~= apk_tree(whole));
        }
        let method_lines = build_method_line_index(&leaves.kinds, &leaves.bodies);
        let method_calls = build_method_call_index(&leaves.kinds, &leaves.bodies);
        let bundle_id = BundleId::of_artifacts(&self.artifact_ids);
        let leaf_icons = leaf_icons_for(&leaves.kinds, &lifting.sources, icon_of);
        LoadedBundle {
            title: join2("Glass — ", input.path.as_str()),
            tree: Tree { roots },
            bodies: leaves.bodies,
            origins: leaves.origins,
            labels: leaves.labels,
            kinds: leaves.kinds,
            leaf_icons,
            bundle_id: Some(bundle_id),
            artifact_ids: self.artifact_ids,
            display_label,
            native_sections: self.natives.native_sections,
            native_artifact_labels: self.natives.native_artifact_labels,
            symbol_maps: self.natives.symbol_maps,
            text_sections: self.natives.text_sections,
            data_sections: self.natives.data_sections,
            method_lines,
            method_calls,
            manifest_rows,
            xrefs: XrefStore::new(),
            edits: EditRegistry::new(),
            smali_classes: lifting.smali,
            objc_classes: Table::new(),
            swift_types: Table::new(),
            smali_edits: SmaliEditRegistry::new(),
            plist_sources: Table::new(),
            manifest_sources,
        }
    }
}

/// The bundle of an Android archive. `icon_of` chooses the icon of a leaf, of a
/// class by the name of its source file too.
pub fn snapshot_apk_with_progress<F: Fn(&LeafKind, Option<&str>) -> &'static str>(
    input: ApkInput,
    progress: &mut Progress,
    display_label: String,
    icon_of: &F,
) -> (r: LoadedBundle)
    requires
        apk_classes(input) <= usize::MAX,
        forall|kind: &LeafKind, file: Option<&str>| #[trigger]
            call_requires(*icon_of, (kind, file)),
    ensures
        is_apk_bundle(r, input),
        r.display_label == display_label,
        are_icons_of(
            *icon_of,
            r.kinds@,
            class_sources(input.dex_files@, input.dex_files@.len() as int),
            r.leaf_icons@,
        ),
        apk_shows(*final(progress), input, apk_steps(input), old(progress).done),
        final(progress).label == old(progress).label,
{
    let mut load = ApkLoad::start(input, progress);
    while !load.is_done()
        invariant
            load.wf(),
            load.archive() == input,
            apk_shows(*progress, input, load.steps(), old(progress).done),
            progress.label == old(progress).label,
        decreases apk_steps(input) - load.steps(),
    {
        load.step(progress);
    }
    load.finish(display_label, icon_of)
}

fn count_classes(dexes: &Vec<DexFile>) -> (n: usize)
    requires
        class_rows(dexes@, dexes@.len() as int).len() <= usize::MAX,
    ensures
        n == class_rows(dexes@, dexes@.len() as int).len(),
{
    let mut n: usize = 0;
    let mut d: usize = 0;
    while d < dexes.len()
        invariant
            class_rows(dexes@, dexes@.len() as int).len() <= usize::MAX,
            d <= dexes@.len(),
            n == class_rows(dexes@, d as int).len(),
        decreases dexes@.len() - d,
    {
        proof {
            lemma_class_rows_monotonic(dexes@, d + 1, dexes@.len() as int);
        }
        n += dexes[d].classes.len();
        d += 1;
    }
    n
}

fn dex_ids(dexes: &Vec<DexFile>) -> (ids: Vec<ArtifactId>)
    ensures
        views(ids@) == dexes@.map_values(|d: DexFile| blake3_digest(d.bytes@)),
{
    let ghost all = dexes@.map_values(|d: DexFile| blake3_digest(d.bytes@));
    let mut ids: Vec<ArtifactId> = Vec::new();
    let mut i: usize = 0;
    assert(views(ids@) =~= all.take(0));
    while i < dexes.len()
        invariant
            all == dexes@.map_values(|d: DexFile| blake3_digest(d.bytes@)),
            i <= dexes@.len(),
            views(ids@) == all.take(i as int),
        decreases dexes@.len() - i,
    {
        let ghost before = views(ids@);
        let id = ArtifactId::from_bytes(dexes[i].bytes.as_slice());
        ids.push(id);
        proof {
            assert(views(ids@) =~= before.push(id@));
            assert(views(ids@) =~= all.take(i + 1));
        }
        i += 1;
    }
    assert(all.take(i as int) =~= all);
    ids
}

fn append_ids(ids: &mut Vec<ArtifactId>, more: &Vec<ArtifactId>)
    ensures
        views(final(ids)@) == views(old(ids)@) + views(more@),
{
    let ghost start = views(ids@);
    let mut i: usize = 0;
    assert(start + views(more@).take(0) =~= start);
    while i < more.len()
        invariant
            i <= more@.len(),
            views(ids@) == start + views(more@).take(i as int),
        decreases more@.len() - i,
    {
        let ghost before = views(ids@);
        ids.push(more[i]);
        proof {
            assert(views(ids@) =~= before.push(more@[i as int]@));
            assert(views(ids@) =~= start + views(more@).take(i + 1));
        }
        i += 1;
    }
    assert(views(more@).take(i as int) =~= views(more@));
}

// ---- plain disassembly -----------------------------------------------------

/// One row of a disassembly.
#[derive(Debug)]
pub struct DisasmRow {
    pub address: u64,
    pub text: String,
}

/// How many rows of a disassembly are written at most.
pub const DISASM_ROWS: usize = 5000;

/// The text of the first `n` rows of a disassembly.
pub open spec fn disasm_text(rows: Seq<DisasmRow>, n: int) -> Seq<char>
    decreases n,
{
    if n <= 0 {
        Seq::empty()
    } else {
        disasm_text(rows, n - 1) + "0x"@ + zero_padded(hex(rows[n - 1].address as int), 16) + "  "@
            + rows[n - 1].text@ + "\n"@
    }
}

/// The text of a disassembly, or of why there is none.
pub fn format_arm64(rows: &Result<Vec<DisasmRow>, String>) -> (r: String)
    ensures
        match rows {
            Ok(rows) => if rows@.len() <= DISASM_ROWS {
                r@ == disasm_text(rows@, rows@.len() as int)
            } else {
                r@ == disasm_text(rows@, DISASM_ROWS as int) + "... ("@ + decimal(
                    rows@.len() - DISASM_ROWS,
                ) + " more rows truncated)\n"@
            },
            Err(e) => r@ == "(disassembly failed: "@ + e@ + ")"@,
        },
{
    let rows = match rows {
        Ok(rows) => rows,
        Err(e) => {
            return join3("(disassembly failed: ", e.as_str(), ")");
        },
    };
    let mut out = String::new();
    let mut i: usize = 0;
    assert(out@ =~= Seq::empty());
    while i < rows.len() && i < DISASM_ROWS
        invariant
            i <= rows@.len(),
            i <= DISASM_ROWS,
            out@ == disasm_text(rows@, i as int),
        decreases rows@.len() - i,
    {
        let addr = to_hex_padded(rows[i].address, 16);
        out.append("0x");
        out.append(addr.as_str());
        out.append("  ");
        out.append(rows[i].text.as_str());
        out.append("\n");
        i += 1;
    }
    if rows.len() > DISASM_ROWS {
        let more = to_decimal((rows.len() - DISASM_ROWS) as u64);
        out.append("... (");
        out.append(more.as_str());
        out.append(" more rows truncated)\n");
    }
    out
}

} // verus!
