//! A loaded bundle and the questions the views ask of it.

use crate::container::{info_lists, leaf_rows, texts, LeafRowView, NativesView};
use crate::edits::{
    edit_at, edit_over, smali_edit_for, smali_edit_of, EditRegistry, SmaliEditRegistry, StagedEdit,
};
use crate::ids::{ArtifactId, BundleId};
use crate::leaf::{backs, leaf_backs, smali_class, LeafId, LeafKind, TabKind, TabState};
use crate::sections::{
    insn_lower_bound, Architecture, DataSectionBytes, DecodedInsn, NativeSectionKind, SectionInfo,
    TextSectionBytes,
};
use crate::smali_index::{declared, read_declaration};
use crate::symbols::SymbolMap;
use crate::table::Table;
use crate::text::{
    char_rows, copy_range, find, find_from, lines, owned, split_lines, substring, to_chars, trim_start,
    trimmed,
};
use crate::tree::Tree;
use crate::xref::{SectionKey, XrefStore};
use std::sync::Arc;
use vstd::prelude::*;

verus! {

/// A row of the manifest or property-list viewer.
#[derive(Debug)]
pub struct ManifestRow {
    pub depth: usize,
    pub text: String,
}

/// Everything the views need of an opened file.
pub struct LoadedBundle {
    pub title: String,
    pub tree: Tree,
    /// Body text of each leaf.
    pub bodies: Vec<String>,
    /// Subtitle of each leaf.
    pub origins: Vec<String>,
    /// Tab title of each leaf.
    pub labels: Vec<String>,
    /// What each leaf opens.
    pub kinds: Vec<LeafKind>,
    /// The asset path of each leaf's icon.
    pub leaf_icons: Vec<&'static str>,
    pub bundle_id: Option<BundleId>,
    pub artifact_ids: Vec<ArtifactId>,
    pub display_label: String,
    /// Section descriptors by native artifact.
    pub native_sections: Table<ArtifactId, Vec<SectionInfo>>,
    /// Display name by native artifact.
    pub native_artifact_labels: Table<ArtifactId, String>,
    pub symbol_maps: Table<ArtifactId, SymbolMap>,
    /// Code sections that can be listed.
    pub text_sections: Table<SectionKey, TextSectionBytes>,
    /// Sections shown as hex only.
    pub data_sections: Table<SectionKey, DataSectionBytes>,
    /// Leaf and line of each declared method.
    pub method_lines: Table<String, (LeafId, usize)>,
    /// Callees of each method.
    pub method_calls: Table<String, Vec<String>>,
    pub manifest_rows: Vec<ManifestRow>,
    pub xrefs: XrefStore,
    pub edits: EditRegistry,
    /// Smali text by artifact and class, as loaded.
    pub smali_classes: Table<SectionKey, String>,
    /// Rendered Objective-C rows by artifact and class.
    pub objc_classes: Table<SectionKey, Arc<Vec<String>>>,
    /// Rendered Swift rows by artifact and mangled name.
    pub swift_types: Table<SectionKey, Arc<Vec<String>>>,
    pub smali_edits: SmaliEditRegistry,
    /// Archive path and bytes of each property list.
    pub plist_sources: Table<ArtifactId, (String, Vec<u8>)>,
    /// Archive path and bytes of each manifest.
    pub manifest_sources: Table<ArtifactId, (String, Vec<u8>)>,
}

// ---- searching -------------------------------------------------------------

/// The first leaf from position `i` on that backs `st`.
pub open spec fn backing_leaf(kinds: Seq<LeafKind>, st: TabState, i: int) -> Option<int>
    decreases kinds.len() - i,
{
    if i >= kinds.len() {
        None
    } else if backs(kinds[i], st) {
        Some(i)
    } else {
        backing_leaf(kinds, st, i + 1)
    }
}

/// The first smali leaf of class `class` from position `i` on.
pub open spec fn class_leaf(kinds: Seq<LeafKind>, class: Seq<char>, i: int) -> Option<int>
    decreases kinds.len() - i,
{
    if i >= kinds.len() {
        None
    } else if smali_class(kinds[i]) == Some(class) {
        Some(i)
    } else {
        class_leaf(kinds, class, i + 1)
    }
}

/// Whether a section can be listed, or shown as hex only; sections without
/// bytes are neither.
pub open spec fn in_view(kind: NativeSectionKind, code: bool) -> bool {
    if code {
        kind == NativeSectionKind::Text
    } else {
        kind != NativeSectionKind::Text && kind != NativeSectionKind::Bss
    }
}

/// The first such section from position `i` on that contains `addr`.
pub open spec fn section_holding(sections: Seq<SectionInfo>, code: bool, addr: u64, i: int) -> Option<
    int,
>
    decreases sections.len() - i,
{
    if i >= sections.len() {
        None
    } else if in_view(sections[i].kind, code) && sections[i].covers(addr) {
        Some(i)
    } else {
        section_holding(sections, code, addr, i + 1)
    }
}

/// The first line from position `i` on that declares method `decl`.
pub open spec fn declaring_line(body: Seq<Seq<char>>, decl: Seq<char>, i: int) -> Option<int>
    decreases body.len() - i,
{
    if i >= body.len() {
        None
    } else if declared(trimmed(body[i])) == Some(decl) {
        Some(i)
    } else {
        declaring_line(body, decl, i + 1)
    }
}

fn find_section(sections: &Vec<SectionInfo>, code: bool, addr: u64) -> (r: Option<usize>)
    ensures
        match r {
            Some(i) => section_holding(sections@, code, addr, 0) == Some(i as int) && i
                < sections@.len(),
            None => section_holding(sections@, code, addr, 0) is None,
        },
{
    let mut i: usize = 0;
    while i < sections.len()
        invariant
            i <= sections@.len(),
            section_holding(sections@, code, addr, 0) == section_holding(
                sections@,
                code,
                addr,
                i as int,
            ),
        decreases sections@.len() - i,
    {
        let s = &sections[i];
        let shown = if code {
            s.kind == NativeSectionKind::Text
        } else {
            s.kind != NativeSectionKind::Text && s.kind != NativeSectionKind::Bss
        };
        if shown && s.contains(addr) {
            return Some(i);
        }
        i += 1;
    }
    None
}

fn find_declaring_line(text: &String, decl: &Vec<char>) -> (r: Option<usize>)
    ensures
        match r {
            Some(i) => declaring_line(lines(text@), decl@, 0) == Some(i as int),
            None => declaring_line(lines(text@), decl@, 0) is None,
        },
{
    let chars = to_chars(text.as_str());
    let rows = split_lines(chars.as_slice());
    let ghost body = lines(text@);
    let mut i: usize = 0;
    while i < rows.len()
        invariant
            body == lines(text@),
            char_rows(rows@) == body,
            i <= rows@.len(),
            declaring_line(body, decl@, 0) == declaring_line(body, decl@, i as int),
        decreases rows@.len() - i,
    {
        assert(char_rows(rows@)[i as int] == rows@[i as int]@);
        let t = trim_start(rows[i].as_slice());
        let (opens, found) = read_declaration(&t);
        match found {
            Some(d) => {
                if same_chars(&d, decl) {
                    return Some(i);
                }
            },
            None => {},
        }
        i += 1;
    }
    None
}

fn same_chars(a: &Vec<char>, b: &Vec<char>) -> (r: bool)
    ensures
        r == (a@ == b@),
{
    if a.len() != b.len() {
        return false;
    }
    let mut i: usize = 0;
    while i < a.len()
        invariant
            a@.len() == b@.len(),
            i <= a@.len(),
            forall|k: int| 0 <= k < i ==> a@[k] == b@[k],
        decreases a@.len() - i,
    {
        if a[i] != b[i] {
            return false;
        }
        i += 1;
    }
    assert(a@ =~= b@);
    true
}

/// The first four bytes of an edit, padded with zeros.
pub open spec fn edit_word(bytes: Seq<u8>) -> Seq<u8> {
    Seq::new(
        4,
        |k: int|
            if k < bytes.len() {
                bytes[k]
            } else {
                0u8
            },
    )
}

impl LoadedBundle {
    /// The four leaf lists are in step.
    pub open spec fn parallel(&self) -> bool {
        &&& self.bodies@.len() == self.kinds@.len()
        &&& self.origins@.len() == self.kinds@.len()
        &&& self.labels@.len() == self.kinds@.len()
        &&& self.leaf_icons@.len() == self.kinds@.len()
    }

    /// The leaves.
    pub open spec fn leaves(&self) -> Seq<LeafRowView> {
        leaf_rows(self.bodies@, self.origins@, self.labels@, self.kinds@)
    }

    /// What the bundle holds of its native artifacts.
    pub open spec fn natives(&self) -> NativesView {
        NativesView {
            infos: info_lists(self.native_sections@),
            labels: texts(self.native_artifact_labels@),
            text: self.text_sections@,
            data: self.data_sections@,
        }
    }

    /// Nothing has been indexed or edited yet.
    pub open spec fn untouched(&self) -> bool {
        &&& self.xrefs.native is Pending
        &&& self.xrefs.dex_callers is Pending
        &&& self.xrefs.dex_field_refs is Pending
        &&& self.edits@.len() == 0
        &&& self.smali_edits@.len() == 0
    }

    /// The name of the section of `artifact` that contains `addr`.
    pub open spec fn section_name(&self, artifact: Seq<u8>, code: bool, addr: u64) -> Option<
        Seq<char>,
    > {
        if self.native_sections@.contains_key(artifact) {
            let sections = self.native_sections@[artifact]@;
            match section_holding(sections, code, addr, 0) {
                Some(i) => Some(sections[i].name@),
                None => None,
            }
        } else {
            None
        }
    }

    /// The code section of `artifact` that contains `addr`.
    pub open spec fn code_at(&self, artifact: Seq<u8>, addr: u64) -> Option<TextSectionBytes> {
        match self.section_name(artifact, true, addr) {
            Some(name) => if self.text_sections@.contains_key((artifact, name)) {
                Some(self.text_sections@[(artifact, name)])
            } else {
                None
            },
            None => None,
        }
    }

    /// The data section of `artifact` that contains `addr`.
    pub open spec fn data_at(&self, artifact: Seq<u8>, addr: u64) -> Option<DataSectionBytes> {
        match self.section_name(artifact, false, addr) {
            Some(name) => if self.data_sections@.contains_key((artifact, name)) {
                Some(self.data_sections@[(artifact, name)])
            } else {
                None
            },
            None => None,
        }
    }

    /// The smali text to show for a class: the staged edit, else the class as
    /// loaded.
    pub fn smali_class_for(&self, artifact: &ArtifactId, class_jni: &str) -> (r: Option<&String>)
        ensures
            match smali_edit_for(self.smali_edits@, artifact@, class_jni@, 0) {
                Some(k) => r == Some(&self.smali_edits@[k].modified),
                None => if self.smali_classes@.contains_key((artifact@, class_jni@)) {
                    r == Some(&self.smali_classes@[(artifact@, class_jni@)])
                } else {
                    r is None
                },
            },
    {
        let class = owned(class_jni);
        match self.smali_edits.get(artifact, &class) {
            Some(edit) => {
                return Some(&edit.modified);
            },
            None => {},
        }
        let key: SectionKey = (*artifact, class);
        self.smali_classes.get(&key)
    }

    /// Where a method is declared according to the index built at load.
    pub open spec fn indexed_line(&self, key: Seq<char>) -> Option<(LeafId, usize)> {
        if self.method_lines@.contains_key(key) {
            Some(self.method_lines@[key])
        } else {
            None
        }
    }

    /// Where a method is declared in the current body of its class.
    pub open spec fn method_line(&self, key: Seq<char>) -> Option<(int, int)> {
        let indexed = match self.indexed_line(key) {
            Some(hit) => Some((hit.0.0 as int, hit.1 as int)),
            None => None,
        };
        match find_from(key, "->"@, 0) {
            None => None,
            Some(at) => {
                let class = key.subrange(0, at);
                let decl = key.subrange(at + "->"@.len(), key.len() as int);
                match smali_edit_of(self.smali_edits@, class, 0) {
                    None => indexed,
                    Some(k) => match declaring_line(
                        lines(self.smali_edits@[k].modified@),
                        decl,
                        0,
                    ) {
                        None => indexed,
                        Some(line) => match indexed {
                            Some(hit) => Some((hit.0, line)),
                            None => match class_leaf(self.kinds@, class, 0) {
                                Some(leaf) => Some((leaf, line)),
                                None => None,
                            },
                        },
                    },
                }
            },
        }
    }

    /// Leaf and line of the method `Class;->name(sig)ret` in the current body
    /// of its class: in the staged edit if the class has one and still declares
    /// the method, else as indexed at load.
    pub fn resolve_method_line(&self, method_key: &str) -> (r: Option<(LeafId, usize)>)
        ensures
            match r {
                Some((leaf, line)) => self.method_line(method_key@) == Some(
                    (leaf.0 as int, line as int),
                ),
                None => self.method_line(method_key@) is None,
            },
    {
        let chars = to_chars(method_key);
        let at: usize = match find(chars.as_slice(), "->") {
            Some(at) => at,
            None => {
                return None;
            },
        };
        let arrow = to_chars("->");
        let total: usize = chars.len();
        let class = substring(chars.as_slice(), 0, at);
        let decl = copy_range(chars.as_slice(), at + arrow.len(), total);
        let key = owned(method_key);
        let indexed: Option<(LeafId, usize)> = match self.method_lines.get(&key) {
            Some(hit) => Some(*hit),
            None => None,
        };
        let staged = match self.smali_edits.of_class(&class) {
            Some(edit) => edit,
            None => {
                return indexed;
            },
        };
        match find_declaring_line(&staged.modified, &decl) {
            Some(line) => match indexed {
                Some(hit) => Some((hit.0, line)),
                None => match self.leaf_of_class(&class) {
                    Some(leaf) => Some((leaf, line)),
                    None => None,
                },
            },
            None => indexed,
        }
    }

    /// The first smali leaf of a class.
    fn leaf_of_class(&self, class: &String) -> (r: Option<LeafId>)
        ensures
            match r {
                Some(leaf) => class_leaf(self.kinds@, class@, 0) == Some(leaf.0 as int),
                None => class_leaf(self.kinds@, class@, 0) is None,
            },
    {
        let mut i: usize = 0;
        while i < self.kinds.len()
            invariant
                i <= self.kinds@.len(),
                class_leaf(self.kinds@, class@, 0) == class_leaf(self.kinds@, class@, i as int),
            decreases self.kinds@.len() - i,
        {
            match &self.kinds[i] {
                LeafKind::SmaliClass { class_jni } => {
                    if *class_jni == *class {
                        return Some(LeafId(i));
                    }
                },
                _ => {},
            }
            i += 1;
        }
        None
    }

    /// The first leaf that backs a persisted tab; `None` where the bundle no
    /// longer has one.
    pub fn resolve(&self, state: &TabState) -> (r: Option<LeafId>)
        ensures
            match r {
                Some(leaf) => backing_leaf(self.kinds@, *state, 0) == Some(leaf.0 as int),
                None => backing_leaf(self.kinds@, *state, 0) is None,
            },
    {
        let mut i: usize = 0;
        while i < self.kinds.len()
            invariant
                i <= self.kinds@.len(),
                backing_leaf(self.kinds@, *state, 0) == backing_leaf(
                    self.kinds@,
                    *state,
                    i as int,
                ),
            decreases self.kinds@.len() - i,
        {
            if leaf_backs(&self.kinds[i], state) {
                return Some(LeafId(i));
            }
            i += 1;
        }
        None
    }

    /// A section as the hex view shows it: a data section, or the bytes of a
    /// code section.
    pub fn hex_view_section(&self, artifact: &ArtifactId, section: &str) -> (r: Option<
        DataSectionBytes,
    >)
        ensures
            ({
                let key = (artifact@, section@);
                if self.data_sections@.contains_key(key) {
                    r == Some(self.data_sections@[key])
                } else if self.text_sections@.contains_key(key) {
                    r == Some(
                        DataSectionBytes {
                            base: self.text_sections@[key].base,
                            bytes: self.text_sections@[key].bytes,
                            kind: NativeSectionKind::Text,
                        },
                    )
                } else {
                    r is None
                }
            }),
    {
        let key: SectionKey = (*artifact, owned(section));
        match self.data_sections.get(&key) {
            Some(d) => {
                return Some(d.share());
            },
            None => {},
        }
        match self.text_sections.get(&key) {
            Some(t) => Some(
                DataSectionBytes {
                    base: t.base,
                    bytes: Arc::clone(&t.bytes),
                    kind: NativeSectionKind::Text,
                },
            ),
            None => None,
        }
    }

    /// The four bytes at `addr` of a code section. A staged edit at that
    /// address counts; shorter ones are padded with zeros. `None` outside the
    /// code sections and too close to the end of one.
    pub fn bytes_at(&self, artifact: &ArtifactId, addr: u64) -> (r: Option<[u8; 4]>)
        ensures
            match self.code_at(artifact@, addr) {
                Some(t) => {
                    let off = addr - t.base;
                    match r {
                        Some(b) => 0 <= off && off + 4 <= t.bytes@.len() && b@ == (match edit_at(
                            self.edits@,
                            artifact@,
                            addr,
                            0,
                        ) {
                            Some(k) => edit_word(self.edits@[k].new_bytes@),
                            None => t.bytes@.subrange(off, off + 4),
                        }),
                        None => off < 0 || off + 4 > t.bytes@.len(),
                    }
                },
                None => r is None,
            },
    {
        let t = match self.code_section(artifact, addr) {
            Some(t) => t,
            None => {
                return None;
            },
        };
        let len: usize = t.bytes.len();
        if addr < t.base || len < 4 || addr - t.base > (len - 4) as u64 {
            return None;
        }
        match self.edits.get(artifact, addr) {
            Some(edit) => {
                let v = &edit.new_bytes;
                let b0: u8 = if v.len() > 0 {
                    v[0]
                } else {
                    0
                };
                let b1: u8 = if v.len() > 1 {
                    v[1]
                } else {
                    0
                };
                let b2: u8 = if v.len() > 2 {
                    v[2]
                } else {
                    0
                };
                let b3: u8 = if v.len() > 3 {
                    v[3]
                } else {
                    0
                };
                let out: [u8; 4] = [b0, b1, b2, b3];
                assert(out@ =~= edit_word(v@));
                Some(out)
            },
            None => {
                let off: usize = (addr - t.base) as usize;
                let out: [u8; 4] = [
                    t.bytes[off],
                    t.bytes[off + 1],
                    t.bytes[off + 2],
                    t.bytes[off + 3],
                ];
                assert(out@ =~= t.bytes@.subrange(off as int, off + 4));
                Some(out)
            },
        }
    }

    /// The byte at `addr` of a data section. A staged edit that reaches over
    /// the address counts. `None` outside the data sections.
    pub fn data_byte_at(&self, artifact: &ArtifactId, addr: u64) -> (r: Option<u8>)
        ensures
            match self.data_at(artifact@, addr) {
                Some(d) => match edit_over(self.edits@, artifact@, addr, 0) {
                    Some(k) => r == Some(
                        self.edits@[k].new_bytes@[addr - self.edits@[k].vaddr],
                    ),
                    None => {
                        let off = addr - d.base;
                        match r {
                            Some(b) => 0 <= off < d.bytes@.len() && b == d.bytes@[off],
                            None => !(0 <= off < d.bytes@.len()),
                        }
                    },
                },
                None => r is None,
            },
    {
        let name = match self.data_section_for_addr(artifact, addr) {
            Some(name) => name,
            None => {
                return None;
            },
        };
        let key: SectionKey = (*artifact, name.clone());
        let d = match self.data_sections.get(&key) {
            Some(d) => d,
            None => {
                return None;
            },
        };
        match self.edits.covering(artifact, addr) {
            Some(edit) => {
                let len: usize = edit.new_bytes.len();
                let off: usize = (addr - edit.vaddr) as usize;
                return Some(edit.new_bytes[off]);
            },
            None => {},
        }
        if addr < d.base {
            return None;
        }
        let off: u64 = addr - d.base;
        let len: usize = d.bytes.len();
        if off >= len as u64 {
            return None;
        }
        Some(d.bytes[off as usize])
    }

    /// The name of the code section of `artifact` that contains `addr`.
    pub fn text_section_for_addr(&self, artifact: &ArtifactId, addr: u64) -> (r: Option<&String>)
        ensures
            match r {
                Some(name) => self.section_name(artifact@, true, addr) == Some(name@),
                None => self.section_name(artifact@, true, addr) is None,
            },
    {
        match self.native_sections.get(artifact) {
            Some(sections) => match find_section(sections, true, addr) {
                Some(i) => Some(&sections[i].name),
                None => None,
            },
            None => None,
        }
    }

    /// The name of the hex-only section of `artifact` that contains `addr`.
    pub fn data_section_for_addr(&self, artifact: &ArtifactId, addr: u64) -> (r: Option<&String>)
        ensures
            match r {
                Some(name) => self.section_name(artifact@, false, addr) == Some(name@),
                None => self.section_name(artifact@, false, addr) is None,
            },
    {
        match self.native_sections.get(artifact) {
            Some(sections) => match find_section(sections, false, addr) {
                Some(i) => Some(&sections[i].name),
                None => None,
            },
            None => None,
        }
    }

    fn code_section(&self, artifact: &ArtifactId, addr: u64) -> (r: Option<&TextSectionBytes>)
        ensures
            match r {
                Some(t) => self.code_at(artifact@, addr) == Some(*t),
                None => self.code_at(artifact@, addr) is None,
            },
    {
        match self.text_section_for_addr(artifact, addr) {
            Some(name) => {
                let key: SectionKey = (*artifact, name.clone());
                self.text_sections.get(&key)
            },
            None => None,
        }
    }

    /// The precomputed instruction that starts exactly at `addr`; `None` in
    /// fixed-width sections and inside instructions.
    pub fn precomputed_insn_at(&self, artifact: &ArtifactId, addr: u64) -> (r: Option<&DecodedInsn>)
        requires
            self.code_at(artifact@, addr) matches Some(t) ==> t.ordered(),
        ensures
            match self.code_at(artifact@, addr) {
                Some(t) => match (t.precomputed, r) {
                    (Some(p), Some(d)) => p@.contains(*d) && d.address == addr,
                    (Some(p), None) => forall|i: int|
                        0 <= i < p@.len() ==> (#[trigger] p@[i]).address != addr,
                    (None, r) => r is None,
                },
                None => r is None,
            },
    {
        let t = match self.code_section(artifact, addr) {
            Some(t) => t,
            None => {
                return None;
            },
        };
        match &t.precomputed {
            Some(p) => {
                let pos: usize = insn_lower_bound(p, addr);
                if pos < p.len() && p[pos].address == addr {
                    assert(p@[pos as int] == p@[pos as int]);
                    Some(&p[pos])
                } else {
                    assert forall|i: int| 0 <= i < p@.len() implies (
                    #[trigger] p@[i]).address != addr by {
                        if i > pos {
                            assert(p@[pos as int].address < p@[i].address);
                        }
                    }
                    None
                }
            },
            None => None,
        }
    }

    /// Whether the code section that contains `addr` is ARMv7 code with
    /// precomputed instructions.
    pub fn is_armv7_text(&self, artifact: &ArtifactId, addr: u64) -> (r: bool)
        ensures
            r == match self.code_at(artifact@, addr) {
                Some(t) => t.arch == Architecture::Arm && t.precomputed is Some,
                None => false,
            },
    {
        match self.code_section(artifact, addr) {
            Some(t) => t.arch == Architecture::Arm && t.precomputed.is_some(),
            None => false,
        }
    }

    /// Whether an edit of an earlier instruction has taken over the bytes at
    /// `addr`, so that the row at `addr` is hidden.
    pub fn is_absorbed_row(&self, artifact: &ArtifactId, addr: u64) -> (r: bool)
        ensures
            r == exists|k: int|
                0 <= k < self.edits@.len() && absorbs(
                    #[trigger] self.edits@[k],
                    artifact@,
                    addr,
                ),
    {
        let edits = self.edits.entries();
        let mut i: usize = 0;
        while i < edits.len()
            invariant
                edits@ == self.edits@,
                i <= edits@.len(),
                forall|k: int|
                    0 <= k < i ==> !absorbs(#[trigger] self.edits@[k], artifact@, addr),
            decreases edits@.len() - i,
        {
            let e = &edits[i];
            if e.artifact.same(artifact) && e.absorbed_following != 0 {
                let start: u64 = e.vaddr.saturating_add(e.original_bytes.len() as u64);
                let end: u64 = start.saturating_add(e.absorbed_following);
                if addr >= start && addr < end {
                    assert(absorbs(self.edits@[i as int], artifact@, addr));
                    return true;
                }
            }
            i += 1;
        }
        false
    }
}

proof fn lemma_backing_leaf(kinds: Seq<LeafKind>, st: TabState, i: int, k: int)
    requires
        0 <= i <= k < kinds.len(),
        backs(kinds[k], st),
    ensures
        match backing_leaf(kinds, st, i) {
            Some(j) => i <= j <= k && backs(kinds[j], st),
            None => false,
        },
    decreases k - i,
{
    if i < k && !backs(kinds[i], st) {
        lemma_backing_leaf(kinds, st, i + 1, k);
    }
}

/// The tab of a leaf, graph views aside, is found again from its persisted
/// form: it resolves to that leaf or to an earlier one that backs it too.
pub proof fn law_persisted_tab_resolves(kinds: Seq<LeafKind>, k: int, tab: TabKind, st: TabState)
    requires
        0 <= k < kinds.len(),
        TabKind::of_leaf(kinds[k]) == Some(tab),
        tab.state() == Some(st),
        !(kinds[k] is Cfg),
        !(kinds[k] is DexCallGraph),
    ensures
        match backing_leaf(kinds, st, 0) {
            Some(j) => j <= k && backs(kinds[j], st),
            None => false,
        },
{
    crate::leaf::law_leaf_backs_its_tab(kinds[k]);
    lemma_backing_leaf(kinds, st, 0, k);
}

/// `a + b`, or the largest address where that does not fit.
pub open spec fn clamped_sum(a: int, b: int) -> int {
    if a + b > u64::MAX {
        u64::MAX as int
    } else {
        a + b
    }
}

/// Whether edit `e` has taken over the byte at `addr` after its original bytes.
pub open spec fn absorbs(e: StagedEdit, artifact: Seq<u8>, addr: u64) -> bool {
    let start = clamped_sum(e.vaddr as int, e.original_bytes@.len() as int);
    &&& e.artifact@ == artifact
    &&& e.absorbed_following != 0
    &&& start <= addr < clamped_sum(start, e.absorbed_following as int)
}

} // verus!
