//! Parsed native binaries and what a bundle takes from them.

use crate::ids::ArtifactId;
use crate::leaf::{LeafId, LeafKind, LeafKindView};
use crate::order::views;
use crate::sections::{
    Architecture, DataSectionBytes, DecodedInsn, NativeSectionKind, SectionInfo, SectionKind, TextSectionBytes,
};
use crate::symbols::{sorted_by_address, Symbol, SymbolMap};
use crate::table::Table;
use crate::text::{join2, join3, owned, strings};
use crate::tree::{lemma_node_views_push, node_view, node_views, Node, NodeView};
use crate::xref::SectionKey;
use std::sync::Arc;
use vstd::prelude::*;

verus! {

// ---- parsed binaries -------------------------------------------------------

/// One section of a parsed binary.
#[derive(Debug)]
pub struct Section {
    pub name: String,
    pub address: u64,
    pub size: u64,
    pub kind: SectionKind,
    /// The bytes on disk.
    pub bytes: Arc<Vec<u8>>,
    /// Shannon entropy of the bytes, as the bit pattern of a single-precision
    /// number.
    pub entropy: u32,
    /// Instructions decoded ahead of time, if the disassembler found any.
    pub insns: Option<Arc<Vec<DecodedInsn>>>,
}

/// A named type found in a binary's runtime metadata.
#[derive(Debug)]
pub struct MetaItem {
    /// The name as stored; the stable key.
    pub name: String,
    /// The name as shown.
    pub pretty: String,
    /// The rendered declaration.
    pub rows: Arc<Vec<String>>,
}

/// An Objective-C category.
#[derive(Debug)]
pub struct Category {
    /// The extended class, where it is known.
    pub class_name: Option<String>,
    pub name: String,
    /// The extended class as shown.
    pub pretty_base: String,
    pub rows: Arc<Vec<String>>,
}

/// A parsed binary.
#[derive(Debug)]
pub struct Container {
    pub architecture: Architecture,
    pub sections: Vec<Section>,
    pub objc_classes: Vec<MetaItem>,
    pub objc_categories: Vec<Category>,
    pub swift_types: Vec<MetaItem>,
}

/// A binary: its file contents, what was parsed of it, and its symbols.
#[derive(Debug)]
pub struct NativeBinary {
    pub bytes: Vec<u8>,
    pub container: Container,
    pub symbols: Vec<Symbol>,
}

// ---- architectures ---------------------------------------------------------

/// The short tag of an architecture.
pub open spec fn arch_word(arch: Architecture) -> Seq<char> {
    match arch {
        Architecture::Aarch64 => "arm64"@,
        Architecture::Arm => "arm32"@,
        Architecture::X86_64 => "x86_64"@,
        Architecture::X86 => "x86"@,
        Architecture::Other => "other"@,
    }
}

/// The short tag of an architecture.
pub fn arch_label(arch: Architecture) -> (r: &'static str)
    ensures
        r@ == arch_word(arch),
{
    match arch {
        Architecture::Aarch64 => "arm64",
        Architecture::Arm => "arm32",
        Architecture::X86_64 => "x86_64",
        Architecture::X86 => "x86",
        Architecture::Other => "other",
    }
}

/// Whether code of that architecture can be listed.
pub fn is_listable(arch: Architecture) -> (r: bool)
    ensures
        r == (arch != Architecture::Other),
{
    arch != Architecture::Other
}

/// Whether code of that architecture has variable-width instructions, which
/// are decoded ahead of time.
pub open spec fn is_variable_width(arch: Architecture) -> bool {
    arch == Architecture::Arm || arch == Architecture::X86 || arch == Architecture::X86_64
}

/// Whether the instructions of a section are to be decoded ahead of time.
pub fn needs_precompute(arch: Architecture) -> (r: bool)
    ensures
        r == is_variable_width(arch),
{
    arch == Architecture::Arm || arch == Architecture::X86 || arch == Architecture::X86_64
}

/// `name`, tagged with the architecture where its code cannot be listed.
pub open spec fn tagged(name: Seq<char>, arch: Architecture) -> Seq<char> {
    if arch != Architecture::Other {
        name
    } else {
        name + " ("@ + arch_word(arch) + ")"@
    }
}

/// `name`, tagged with the architecture where its code cannot be listed.
pub fn tagged_name(name: &String, arch: Architecture) -> (r: String)
    ensures
        r@ == tagged(name@, arch),
{
    if is_listable(arch) {
        name.clone()
    } else {
        let open = join2(name.as_str(), " (");
        join3(open.as_str(), arch_label(arch), ")")
    }
}

// ---- sections --------------------------------------------------------------

/// The descriptor of a section.
pub open spec fn info_of(s: Section) -> SectionInfo {
    SectionInfo {
        name: s.name,
        address: s.address,
        size: s.size,
        kind: NativeSectionKind::of(s.kind),
        entropy: s.entropy,
    }
}

/// The descriptors of a binary's sections.
pub open spec fn infos_of(sections: Seq<Section>) -> Seq<SectionInfo> {
    sections.map_values(|s: Section| info_of(s))
}

/// The descriptors of a binary's sections.
pub fn build_section_info(container: &Container) -> (r: Vec<SectionInfo>)
    ensures
        r@ == infos_of(container.sections@),
{
    let mut r: Vec<SectionInfo> = Vec::new();
    let mut i: usize = 0;
    while i < container.sections.len()
        invariant
            i <= container.sections@.len(),
            r@ == infos_of(container.sections@).take(i as int),
        decreases container.sections@.len() - i,
    {
        let s = &container.sections[i];
        r.push(
            SectionInfo {
                name: s.name.clone(),
                address: s.address,
                size: s.size,
                kind: NativeSectionKind::from_armv8(s.kind),
                entropy: s.entropy,
            },
        );
        assert(r@ =~= infos_of(container.sections@).take(i + 1));
        i += 1;
    }
    assert(infos_of(container.sections@).take(i as int) =~= infos_of(container.sections@));
    r
}

/// Whether a symbol address lies in a section, the mode bit aside.
pub open spec fn enters(addr: u64, start: u64, size: u64) -> bool {
    start <= (addr & !1u64) && (addr & !1u64) < start + size
}

/// The symbol addresses that enter a section, among the first `n` symbols.
pub open spec fn entries_upto(syms: Seq<Symbol>, start: u64, size: u64, n: int) -> Seq<u64>
    decreases n,
{
    if n <= 0 {
        Seq::empty()
    } else if enters(syms[n - 1].address, start, size) {
        entries_upto(syms, start, size, n - 1).push(syms[n - 1].address)
    } else {
        entries_upto(syms, start, size, n - 1)
    }
}

/// Where a disassembler is to begin in a section: the symbols that start in it.
pub fn section_entry_points(symbols: &SymbolMap, section: &Section) -> (r: Vec<u64>)
    ensures
        r@ == entries_upto(symbols@, section.address, section.size, symbols@.len() as int),
{
    let mut r: Vec<u64> = Vec::new();
    let n: usize = symbols.len();
    let mut i: usize = 0;
    while i < n
        invariant
            n == symbols@.len(),
            i <= n,
            r@ == entries_upto(symbols@, section.address, section.size, i as int),
        decreases n - i,
    {
        let a: u64 = symbols.get(i).address;
        let place: u64 = a & !1u64;
        if place >= section.address && place - section.address < section.size {
            r.push(a);
        }
        i += 1;
    }
    r
}

/// The listable form of a code section: variable-width instructions come along,
/// fixed-width ones are decoded on demand.
pub open spec fn text_of(s: Section, arch: Architecture) -> TextSectionBytes {
    TextSectionBytes {
        base: s.address,
        bytes: s.bytes,
        precomputed: if is_variable_width(arch) {
            s.insns
        } else {
            None
        },
        arch,
    }
}

/// The listable form of a code section.
pub fn build_text_section_bytes(section: &Section, arch: Architecture) -> (r: TextSectionBytes)
    ensures
        r == text_of(*section, arch),
{
    let precomputed = if needs_precompute(arch) {
        match &section.insns {
            Some(p) => Some(Arc::clone(p)),
            None => None,
        }
    } else {
        None
    };
    TextSectionBytes {
        base: section.address,
        bytes: Arc::clone(&section.bytes),
        precomputed,
        arch,
    }
}

/// The hex form of a section.
pub open spec fn data_of(s: Section) -> DataSectionBytes {
    DataSectionBytes { base: s.address, bytes: s.bytes, kind: NativeSectionKind::of(s.kind) }
}

/// Whether a section is listed as code.
pub open spec fn is_listed(s: Section, arch: Architecture) -> bool {
    arch != Architecture::Other && s.kind == SectionKind::Text
}

/// Code sections by artifact and name.
pub type TextMap = Map<(Seq<u8>, Seq<char>), TextSectionBytes>;

/// Hex-only sections by artifact and name.
pub type DataMap = Map<(Seq<u8>, Seq<char>), DataSectionBytes>;

/// Rendered types by artifact and name.
pub type MetaMap = Map<(Seq<u8>, Seq<char>), Arc<Vec<String>>>;

/// `m` with the first `n` sections entered that are listed as code.
pub open spec fn with_text(m: TextMap, aid: Seq<u8>, c: Container, n: int) -> TextMap
    decreases n,
{
    if n <= 0 {
        m
    } else {
        let s = c.sections@[n - 1];
        let before = with_text(m, aid, c, n - 1);
        if is_listed(s, c.architecture) {
            before.insert((aid, s.name@), text_of(s, c.architecture))
        } else {
            before
        }
    }
}

/// `m` with the first `n` sections entered that have bytes and are not listed
/// as code.
pub open spec fn with_data(m: DataMap, aid: Seq<u8>, c: Container, n: int) -> DataMap
    decreases n,
{
    if n <= 0 {
        m
    } else {
        let s = c.sections@[n - 1];
        let before = with_data(m, aid, c, n - 1);
        if !is_listed(s, c.architecture) && s.bytes@.len() > 0 {
            before.insert((aid, s.name@), data_of(s))
        } else {
            before
        }
    }
}

/// `m` with the first `n` types entered.
pub open spec fn with_items(m: MetaMap, aid: Seq<u8>, items: Seq<ItemView>, n: int) -> MetaMap
    decreases n,
{
    if n <= 0 {
        m
    } else {
        with_items(m, aid, items, n - 1).insert((aid, items[n - 1].name), items[n - 1].rows)
    }
}

/// What a bundle holds of its native artifacts.
pub ghost struct NativesView {
    pub infos: Map<Seq<u8>, Seq<SectionInfo>>,
    pub labels: Map<Seq<u8>, Seq<char>>,
    pub text: TextMap,
    pub data: DataMap,
}

/// What a bundle holds once artifact `aid` was entered.
pub open spec fn entered(v: NativesView, aid: Seq<u8>, label: Seq<char>, c: Container) -> NativesView {
    NativesView {
        infos: v.infos.insert(aid, infos_of(c.sections@)),
        labels: v.labels.insert(aid, label),
        text: with_text(v.text, aid, c, c.sections@.len() as int),
        data: with_data(v.data, aid, c, c.sections@.len() as int),
    }
}

/// What a bundle holds of no artifact.
pub open spec fn no_natives() -> NativesView {
    NativesView {
        infos: Map::empty(),
        labels: Map::empty(),
        text: Map::empty(),
        data: Map::empty(),
    }
}

/// What a bundle holds of its native artifacts.
pub struct Natives {
    pub native_sections: Table<ArtifactId, Vec<SectionInfo>>,
    pub native_artifact_labels: Table<ArtifactId, String>,
    pub symbol_maps: Table<ArtifactId, SymbolMap>,
    pub text_sections: Table<SectionKey, TextSectionBytes>,
    pub data_sections: Table<SectionKey, DataSectionBytes>,
}

/// The descriptor lists of a table.
pub open spec fn info_lists(m: Map<Seq<u8>, Vec<SectionInfo>>) -> Map<Seq<u8>, Seq<SectionInfo>> {
    m.map_values(|v: Vec<SectionInfo>| v@)
}

/// The texts of a table.
pub open spec fn texts<K>(m: Map<K, String>) -> Map<K, Seq<char>> {
    m.map_values(|s: String| s@)
}

impl View for Natives {
    type V = NativesView;

    open spec fn view(&self) -> NativesView {
        NativesView {
            infos: info_lists(self.native_sections@),
            labels: texts(self.native_artifact_labels@),
            text: self.text_sections@,
            data: self.data_sections@,
        }
    }
}

impl Natives {
    /// No artifact.
    pub fn new() -> (r: Natives)
        ensures
            r@ == no_natives(),
            r.symbol_maps@ == Map::<Seq<u8>, SymbolMap>::empty(),
    {
        let r = Natives {
            native_sections: Table::new(),
            native_artifact_labels: Table::new(),
            symbol_maps: Table::new(),
            text_sections: Table::new(),
            data_sections: Table::new(),
        };
        assert(r@.infos =~= Map::empty());
        assert(r@.labels =~= Map::empty());
        r
    }

    /// Enters one artifact: its label, descriptors, symbols and sections.
    pub fn enter(&mut self, aid: &ArtifactId, label: String, container: &Container, symbols: &Vec<
        Symbol,
    >)
        ensures
            final(self)@ == entered(old(self)@, aid@, label@, *container),
            final(self).symbol_maps@.dom() == old(self).symbol_maps@.dom().insert(aid@),
            sorted_by_address(symbols@, final(self).symbol_maps@[aid@]@),
            forall|a: Seq<u8>|
                a != aid@ && #[trigger] old(self).symbol_maps@.contains_key(a)
                    ==> final(self).symbol_maps@[a] == old(self).symbol_maps@[a],
    {
        self.native_artifact_labels.insert(*aid, label);
        assert(texts(self.native_artifact_labels@) =~= texts(
            old(self).native_artifact_labels@,
        ).insert(aid@, label@));
        let infos = build_section_info(container);
        self.native_sections.insert(*aid, infos);
        assert(info_lists(self.native_sections@) =~= info_lists(
            old(self).native_sections@,
        ).insert(aid@, infos@));
        let map = SymbolMap::from_symbols(copy_symbols(symbols));
        self.symbol_maps.insert(*aid, map);
        assert(self.symbol_maps@.dom() =~= old(self).symbol_maps@.dom().insert(aid@));
        let arch = container.architecture;
        let listable = is_listable(arch);
        let n: usize = container.sections.len();
        let mut i: usize = 0;
        while i < n
            invariant
                n == container.sections@.len(),
                i <= n,
                arch == container.architecture,
                listable == (arch != Architecture::Other),
                info_lists(self.native_sections@) == info_lists(old(self).native_sections@).insert(
                    aid@,
                    infos_of(container.sections@),
                ),
                texts(self.native_artifact_labels@) == texts(
                    old(self).native_artifact_labels@,
                ).insert(aid@, label@),
                self.symbol_maps@ == old(self).symbol_maps@.insert(aid@, map),
                self.text_sections@ == with_text(
                    old(self).text_sections@,
                    aid@,
                    *container,
                    i as int,
                ),
                self.data_sections@ == with_data(
                    old(self).data_sections@,
                    aid@,
                    *container,
                    i as int,
                ),
            decreases n - i,
        {
            let s = &container.sections[i];
            if listable && s.kind == SectionKind::Text {
                self.text_sections.insert(
                    (*aid, s.name.clone()),
                    build_text_section_bytes(s, arch),
                );
            } else if s.bytes.len() > 0 {
                self.data_sections.insert(
                    (*aid, s.name.clone()),
                    DataSectionBytes {
                        base: s.address,
                        bytes: Arc::clone(&s.bytes),
                        kind: NativeSectionKind::from_armv8(s.kind),
                    },
                );
            }
            i += 1;
        }
    }
}

fn copy_symbols(v: &Vec<Symbol>) -> (r: Vec<Symbol>)
    ensures
        r@ == v@,
{
    let mut r: Vec<Symbol> = Vec::new();
    let mut i: usize = 0;
    while i < v.len()
        invariant
            i <= v@.len(),
            r@ == v@.take(i as int),
        decreases v@.len() - i,
    {
        r.push(v[i].duplicate());
        i += 1;
    }
    assert(v@.take(i as int) =~= v@);
    r
}

// ---- leaves ----------------------------------------------------------------

/// One leaf: its body, subtitle, title and kind.
#[verifier::ext_equal]
pub ghost struct LeafRowView {
    pub body: Seq<char>,
    pub origin: Seq<char>,
    pub label: Seq<char>,
    pub kind: LeafKindView,
}

/// The leaves of a bundle, as four lists in step.
pub struct Leaves {
    pub bodies: Vec<String>,
    pub origins: Vec<String>,
    pub labels: Vec<String>,
    pub kinds: Vec<LeafKind>,
}

/// Leaf `i` of four lists.
pub open spec fn leaf_row(
    bodies: Seq<String>,
    origins: Seq<String>,
    labels: Seq<String>,
    kinds: Seq<LeafKind>,
    i: int,
) -> LeafRowView {
    LeafRowView { body: bodies[i]@, origin: origins[i]@, label: labels[i]@, kind: kinds[i]@ }
}

/// The leaves of four lists in step.
pub open spec fn leaf_rows(
    bodies: Seq<String>,
    origins: Seq<String>,
    labels: Seq<String>,
    kinds: Seq<LeafKind>,
) -> Seq<LeafRowView> {
    Seq::new(kinds.len(), |i: int| leaf_row(bodies, origins, labels, kinds, i))
}

impl View for Leaves {
    type V = Seq<LeafRowView>;

    open spec fn view(&self) -> Seq<LeafRowView> {
        leaf_rows(self.bodies@, self.origins@, self.labels@, self.kinds@)
    }
}

impl Leaves {
    /// The four lists are in step.
    pub open spec fn wf(&self) -> bool {
        &&& self.bodies@.len() == self.kinds@.len()
        &&& self.origins@.len() == self.kinds@.len()
        &&& self.labels@.len() == self.kinds@.len()
    }

    /// No leaf.
    pub fn new() -> (r: Leaves)
        ensures
            r.wf(),
            r@ == Seq::<LeafRowView>::empty(),
    {
        let r = Leaves {
            bodies: Vec::new(),
            origins: Vec::new(),
            labels: Vec::new(),
            kinds: Vec::new(),
        };
        assert(r@ =~= Seq::empty());
        r
    }

    /// Number of leaves.
    pub fn len(&self) -> (n: usize)
        requires
            self.wf(),
        ensures
            n == self@.len(),
    {
        self.kinds.len()
    }

    /// Adds a leaf.
    pub fn add_leaf(&mut self, body: String, origin: String, label: String, kind: LeafKind) -> (r:
        LeafId)
        requires
            old(self).wf(),
        ensures
            final(self).wf(),
            r.0 == old(self)@.len(),
            final(self)@ == old(self)@.push(
                LeafRowView { body: body@, origin: origin@, label: label@, kind: kind@ },
            ),
    {
        let id = LeafId(self.kinds.len());
        self.bodies.push(body);
        self.origins.push(origin);
        self.labels.push(label);
        self.kinds.push(kind);
        assert(self@ =~= old(self)@.push(
            LeafRowView { body: body@, origin: origin@, label: label@, kind: kind@ },
        ));
        id
    }
}

// ---- leaves of native artifacts --------------------------------------------

/// What a code section opens: a listing, or hex where it cannot be listed.
pub open spec fn section_kind(aid: Seq<u8>, arch: Architecture, name: Seq<char>) -> LeafKindView {
    if arch != Architecture::Other {
        LeafKindView::Listing { artifact: aid, section: name }
    } else {
        LeafKindView::Hex { artifact: aid, section: name }
    }
}

/// How many of the first `n` sections hold code.
pub open spec fn code_count(sections: Seq<Section>, n: int) -> int
    decreases n,
{
    if n <= 0 {
        0
    } else {
        code_count(sections, n - 1) + if sections[n - 1].kind == SectionKind::Text {
            1int
        } else {
            0int
        }
    }
}

/// The leaves of the code sections among the first `n`.
pub open spec fn code_rows(aid: Seq<u8>, c: Container, origin: Seq<char>, n: int) -> Seq<LeafRowView>
    decreases n,
{
    if n <= 0 {
        Seq::empty()
    } else {
        let s = c.sections@[n - 1];
        let before = code_rows(aid, c, origin, n - 1);
        if s.kind == SectionKind::Text {
            before.push(
                LeafRowView {
                    body: ""@,
                    origin,
                    label: s.name@,
                    kind: section_kind(aid, c.architecture, s.name@),
                },
            )
        } else {
            before
        }
    }
}

/// The tree leaves of the code sections among the first `n`, numbered from
/// `first` on.
pub open spec fn code_nodes(sections: Seq<Section>, first: int, n: int) -> Seq<NodeView>
    decreases n,
{
    if n <= 0 {
        Seq::empty()
    } else {
        let s = sections[n - 1];
        let before = code_nodes(sections, first, n - 1);
        if s.kind == SectionKind::Text {
            before.push(
                NodeView::Leaf {
                    label: s.name@,
                    leaf_id: LeafId((first + code_count(sections, n - 1)) as usize),
                },
            )
        } else {
            before
        }
    }
}

/// The leaves of an artifact: its overview, then its code sections.
pub open spec fn native_rows(
    aid: Seq<u8>,
    c: Container,
    origin: Seq<char>,
    overview: Seq<char>,
) -> Seq<LeafRowView> {
    seq![
        LeafRowView {
            body: ""@,
            origin,
            label: overview,
            kind: LeafKindView::SectionMap { artifact: aid },
        },
    ] + code_rows(aid, c, origin, c.sections@.len() as int)
}

/// The tree leaves of an artifact, numbered from `first` on.
pub open spec fn native_nodes(c: Container, first: int) -> Seq<NodeView> {
    seq![NodeView::Leaf { label: "Overview"@, leaf_id: LeafId(first as usize) }] + code_nodes(
        c.sections@,
        first + 1,
        c.sections@.len() as int,
    )
}

proof fn lemma_code_rows_len(aid: Seq<u8>, c: Container, origin: Seq<char>, n: int)
    ensures
        code_rows(aid, c, origin, n).len() == code_count(c.sections@, n),
        0 <= code_count(c.sections@, n),
    decreases n,
{
    if n > 0 {
        lemma_code_rows_len(aid, c, origin, n - 1);
    }
}

/// How many leaves an artifact has, metadata aside.
pub proof fn lemma_native_rows_len(aid: Seq<u8>, c: Container, origin: Seq<char>, overview: Seq<char>)
    ensures
        native_rows(aid, c, origin, overview).len() == 1 + code_count(
            c.sections@,
            c.sections@.len() as int,
        ),
        0 <= code_count(c.sections@, c.sections@.len() as int),
{
    lemma_code_rows_len(aid, c, origin, c.sections@.len() as int);
}

/// Adds the overview and code-section leaves of an artifact.
pub fn add_native_leaves(
    leaves: &mut Leaves,
    aid: &ArtifactId,
    container: &Container,
    origin: &String,
    overview: String,
)
    requires
        old(leaves).wf(),
    ensures
        final(leaves).wf(),
        final(leaves)@ == old(leaves)@ + native_rows(aid@, *container, origin@, overview@),
{
    let ghost start = leaves@;
    leaves.add_leaf(
        owned(""),
        origin.clone(),
        overview,
        LeafKind::SectionMap { artifact: *aid },
    );
    let ghost head = leaves@.last();
    let arch = container.architecture;
    let listable = is_listable(arch);
    let n: usize = container.sections.len();
    let mut i: usize = 0;
    assert(leaves@ =~= start + (seq![head] + code_rows(aid@, *container, origin@, 0)));
    while i < n
        invariant
            n == container.sections@.len(),
            i <= n,
            arch == container.architecture,
            listable == (arch != Architecture::Other),
            leaves.wf(),
            leaves@ == start + (seq![head] + code_rows(aid@, *container, origin@, i as int)),
        decreases n - i,
    {
        let s = &container.sections[i];
        if s.kind == SectionKind::Text {
            let kind = if listable {
                LeafKind::Listing { artifact: *aid, section: s.name.clone() }
            } else {
                LeafKind::Hex { artifact: *aid, section: s.name.clone() }
            };
            leaves.add_leaf(owned(""), origin.clone(), s.name.clone(), kind);
            assert(leaves@ =~= start + (seq![head] + code_rows(
                aid@,
                *container,
                origin@,
                i + 1,
            )));
        }
        i += 1;
    }
}

/// The tree leaves of an artifact whose leaves were added from `first` on.
pub fn native_children(container: &Container, first: usize) -> (nodes: Vec<Node>)
    requires
        first + 1 + code_count(container.sections@, container.sections@.len() as int) <= usize::MAX,
    ensures
        node_views(nodes@) == native_nodes(*container, first as int),
{
    let ghost sections = container.sections@;
    let head = Node::Leaf { label: owned("Overview"), leaf_id: LeafId(first) };
    let mut nodes: Vec<Node> = Vec::new();
    proof {
        lemma_code_count_monotonic(sections, 0, sections.len() as int);
        lemma_node_views_push(nodes@, head);
    }
    let ghost head_view = node_view(head);
    nodes.push(head);
    let mut next: usize = first + 1;
    let n: usize = container.sections.len();
    let mut i: usize = 0;
    assert(node_views(nodes@) =~= seq![head_view] + code_nodes(sections, first + 1, 0));
    while i < n
        invariant
            sections == container.sections@,
            n == sections.len(),
            i <= n,
            first + 1 + code_count(sections, n as int) <= usize::MAX,
            next == first + 1 + code_count(sections, i as int),
            node_views(nodes@) == seq![head_view] + code_nodes(sections, first + 1, i as int),
        decreases n - i,
    {
        let s = &container.sections[i];
        if s.kind == SectionKind::Text {
            let node = Node::Leaf { label: s.name.clone(), leaf_id: LeafId(next) };
            proof {
                lemma_code_count_monotonic(sections, i + 1, n as int);
                lemma_node_views_push(nodes@, node);
            }
            nodes.push(node);
            next += 1;
            assert(node_views(nodes@) =~= seq![head_view] + code_nodes(sections, first + 1, i + 1));
        }
        i += 1;
    }
    nodes
}

proof fn lemma_code_count_monotonic(sections: Seq<Section>, a: int, b: int)
    requires
        0 <= a <= b,
    ensures
        0 <= code_count(sections, a) <= code_count(sections, b),
    decreases b,
{
    if a < b {
        lemma_code_count_monotonic(sections, a, b - 1);
    } else if a > 0 {
        lemma_code_count_monotonic(sections, a - 1, a - 1);
    }
}

// ---- runtime metadata ------------------------------------------------------

/// The text of rendered rows, one per line.
pub open spec fn joined_rows(rows: Seq<Seq<char>>) -> Seq<char>
    decreases rows.len(),
{
    if rows.len() == 0 {
        Seq::empty()
    } else if rows.len() == 1 {
        rows[0]
    } else {
        joined_rows(rows.drop_last()) + "\n"@ + rows.last()
    }
}

/// The text of rendered rows, one per line.
pub fn join_rows(rows: &Vec<String>) -> (r: String)
    ensures
        r@ == joined_rows(strings(rows@)),
{
    let ghost rv = strings(rows@);
    let mut r = String::new();
    let mut i: usize = 0;
    assert(r@ =~= joined_rows(rv.take(0)));
    while i < rows.len()
        invariant
            rv == strings(rows@),
            i <= rows@.len(),
            r@ == joined_rows(rv.take(i as int)),
        decreases rows@.len() - i,
    {
        proof {
            assert(rv.take(i + 1).drop_last() =~= rv.take(i as int));
            assert(rv.take(i + 1).last() == rows@[i as int]@);
        }
        if i > 0 {
            r.append("\n");
        } else {
            assert(r@ + rows@[0]@ =~= rows@[0]@);
        }
        r.append(rows[i].as_str());
        i += 1;
    }
    assert(rv.take(i as int) =~= rv);
    r
}

/// The stored name of a category: `Class(Category)`, `?` for an unknown class.
pub open spec fn category_name(c: Category) -> Seq<char> {
    let base = match c.class_name {
        Some(base) => base@,
        None => "?"@,
    };
    base + "("@ + c.name@ + ")"@
}

/// The shown name of a category.
pub open spec fn category_label(c: Category) -> Seq<char> {
    c.pretty_base@ + "("@ + c.name@ + ")"@
}

/// A named type: its stored name, its shown name and its rendered rows.
#[verifier::ext_equal]
pub ghost struct ItemView {
    pub name: Seq<char>,
    pub pretty: Seq<char>,
    pub rows: Arc<Vec<String>>,
}

impl View for MetaItem {
    type V = ItemView;

    open spec fn view(&self) -> ItemView {
        ItemView { name: self.name@, pretty: self.pretty@, rows: self.rows }
    }
}

/// A category as a named type.
pub open spec fn category_item(c: Category) -> ItemView {
    ItemView { name: category_name(c), pretty: category_label(c), rows: c.rows }
}

/// The Objective-C classes of a binary, then its categories.
pub open spec fn objc_of(c: Container) -> Seq<ItemView> {
    views(c.objc_classes@) + c.objc_categories@.map_values(|x: Category| category_item(x))
}

/// The Swift types of a binary.
pub open spec fn swift_of(c: Container) -> Seq<ItemView> {
    views(c.swift_types@)
}

fn with_parens(base: &str, name: &String) -> (r: String)
    ensures
        r@ == base@ + "("@ + name@ + ")"@,
{
    let open = join3(base, "(", name.as_str());
    join2(open.as_str(), ")")
}

/// The Objective-C classes of a binary, then its categories.
pub fn objc_items(c: &Container) -> (r: Vec<MetaItem>)
    ensures
        views(r@) == objc_of(*c),
{
    let ghost all = objc_of(*c);
    let mut r: Vec<MetaItem> = Vec::new();
    let k: usize = c.objc_classes.len();
    let mut i: usize = 0;
    assert(views(r@) =~= all.take(0));
    while i < k
        invariant
            all == objc_of(*c),
            k == c.objc_classes@.len(),
            i <= k,
            views(r@) == all.take(i as int),
        decreases k - i,
    {
        let x = &c.objc_classes[i];
        let ghost before = views(r@);
        let item = MetaItem {
            name: x.name.clone(),
            pretty: x.pretty.clone(),
            rows: Arc::clone(&x.rows),
        };
        let ghost view = item@;
        r.push(item);
        proof {
            assert(views(r@) =~= before.push(view));
            assert(all[i as int] == x@);
            assert(views(r@) =~= all.take(i + 1));
        }
        i += 1;
    }
    let m: usize = c.objc_categories.len();
    let mut j: usize = 0;
    while j < m
        invariant
            all == objc_of(*c),
            k == c.objc_classes@.len(),
            m == c.objc_categories@.len(),
            j <= m,
            views(r@) == all.take(k + j),
        decreases m - j,
    {
        let x = &c.objc_categories[j];
        let name = match &x.class_name {
            Some(base) => with_parens(base.as_str(), &x.name),
            None => with_parens("?", &x.name),
        };
        let ghost before = views(r@);
        let item = MetaItem {
            name,
            pretty: with_parens(x.pretty_base.as_str(), &x.name),
            rows: Arc::clone(&x.rows),
        };
        let ghost view = item@;
        r.push(item);
        proof {
            assert(views(r@) =~= before.push(view));
            assert(all[k + j] == category_item(*x));
            assert(views(r@) =~= all.take(k + j + 1));
        }
        j += 1;
    }
    assert(all.take(k + m) =~= all);
    r
}

/// What a type's leaf opens.
pub open spec fn item_kind(aid: Seq<u8>, swift: bool, name: Seq<char>) -> LeafKindView {
    if swift {
        LeafKindView::SwiftType { artifact: aid, mangled_name: name }
    } else {
        LeafKindView::ObjCClass { artifact: aid, class_name: name }
    }
}

/// The leaf of a type.
pub open spec fn item_row(aid: Seq<u8>, swift: bool, item: ItemView, origin: Seq<char>) -> LeafRowView {
    LeafRowView {
        body: joined_rows(strings(item.rows@)),
        origin,
        label: item.pretty,
        kind: item_kind(aid, swift, item.name),
    }
}

/// The leaves of a list of types.
pub open spec fn item_rows(aid: Seq<u8>, swift: bool, items: Seq<ItemView>, origin: Seq<char>) -> Seq<
    LeafRowView,
> {
    items.map_values(|x: ItemView| item_row(aid, swift, x, origin))
}

/// The tree leaves of a list of types, numbered from `first` on.
pub open spec fn item_nodes(items: Seq<ItemView>, first: int) -> Seq<NodeView> {
    Seq::new(
        items.len(),
        |i: int| NodeView::Leaf { label: items[i].pretty, leaf_id: LeafId((first + i) as usize) },
    )
}

/// The tree group of a list of types; none where the list is empty.
pub open spec fn item_group(title: Seq<char>, items: Seq<ItemView>, first: int) -> Seq<NodeView> {
    if items.len() == 0 {
        Seq::empty()
    } else {
        seq![NodeView::Group { label: title, children: item_nodes(items, first) }]
    }
}

/// Adds the leaves of a list of types, enters their rendered rows, and appends
/// their group to `nodes`.
pub fn add_items(
    leaves: &mut Leaves,
    rendered: &mut Table<SectionKey, Arc<Vec<String>>>,
    nodes: &mut Vec<Node>,
    aid: &ArtifactId,
    swift: bool,
    items: &Vec<MetaItem>,
    origin: &str,
    title: &str,
)
    requires
        old(leaves).wf(),
    ensures
        final(leaves).wf(),
        final(leaves)@ == old(leaves)@ + item_rows(aid@, swift, views(items@), origin@),
        final(rendered)@ == with_items(
            old(rendered)@,
            aid@,
            views(items@),
            items@.len() as int,
        ),
        node_views(final(nodes)@) == node_views(old(nodes)@) + item_group(
            title@,
            views(items@),
            old(leaves)@.len() as int,
        ),
{
    let ghost start = leaves@;
    let ghost first = leaves@.len() as int;
    let ghost all = item_rows(aid@, swift, views(items@), origin@);
    let ghost all_nodes = item_nodes(views(items@), first);
    let n: usize = items.len();
    let mut children: Vec<Node> = Vec::new();
    let mut i: usize = 0;
    proof {
        assert(start + all.take(0) =~= start);
        assert(node_views(children@) =~= all_nodes.take(0));
    }
    while i < n
        invariant
            n == items@.len(),
            i <= n,
            leaves.wf(),
            first == start.len(),
            all == item_rows(aid@, swift, views(items@), origin@),
            all_nodes == item_nodes(views(items@), first),
            leaves@ == start + all.take(i as int),
            rendered@ == with_items(old(rendered)@, aid@, views(items@), i as int),
            node_views(children@) == all_nodes.take(i as int),
            children@.len() == i,
        decreases n - i,
    {
        let x = &items[i];
        let kind = if swift {
            LeafKind::SwiftType { artifact: *aid, mangled_name: x.name.clone() }
        } else {
            LeafKind::ObjCClass { artifact: *aid, class_name: x.name.clone() }
        };
        let id = leaves.add_leaf(join_rows(&x.rows), owned(origin), x.pretty.clone(), kind);
        rendered.insert((*aid, x.name.clone()), Arc::clone(&x.rows));
        let node = Node::Leaf { label: x.pretty.clone(), leaf_id: id };
        proof {
            lemma_node_views_push(children@, node);
            assert(views(items@)[i as int] == x@);
            assert(all[i as int] == item_row(aid@, swift, x@, origin@));
            assert(leaves@ =~= start + all.take(i + 1));
        }
        children.push(node);
        assert(node_views(children@) =~= all_nodes.take(i + 1));
        i += 1;
    }
    proof {
        assert(all.take(n as int) =~= all);
        assert(all_nodes.take(n as int) =~= all_nodes);
    }
    if n > 0 {
        let group = Node::Group { label: owned(title), children };
        proof {
            lemma_node_views_push(nodes@, group);
            assert(node_views(nodes@).push(node_view(group)) =~= node_views(nodes@) + item_group(
                title@,
                views(items@),
                first,
            ));
        }
        nodes.push(group);
    } else {
        assert(node_views(nodes@) =~= node_views(nodes@) + item_group(title@, views(items@), first));
    }
}

} // verus!
