//! Leaves, tabs and their persisted forms.

use crate::leaf::{backs, smali_class, Camera, LeafKind, Tab, TabId, TabKind, TabState, ONE_BITS};
use vstd::prelude::*;

verus! {

/// A leaf shows what a persisted tab showed: the same sort of thing, of the same
/// artifact and name. A manifest tab without an artifact shows any manifest.
pub open spec fn shows(k: LeafKind, st: TabState) -> bool {
    ||| k is SmaliClass && st is SmaliClass && k->SmaliClass_class_jni@ == st->SmaliClass_class_jni@
    ||| k is Listing && st is Listing && k->Listing_artifact@ == st->Listing_artifact@
        && k->Listing_section@ == st->Listing_section@
    ||| k is Hex && st is Hex && k->Hex_artifact@ == st->Hex_artifact@ && k->Hex_section@
        == st->Hex_section@
    ||| k is SectionMap && st is SectionMap && k->SectionMap_artifact@ == st->SectionMap_artifact@
    ||| k is Manifest && st is Manifest
    ||| k is Manifest && st is ManifestEditor && k->Manifest_artifact@ == st->ManifestEditor_artifact@
    ||| k is Plist && st is PlistEditor && k->Plist_artifact@ == st->PlistEditor_artifact@
    ||| k is ObjCClass && st is ObjCClass && k->ObjCClass_artifact@ == st->ObjCClass_artifact@
        && k->ObjCClass_class_name@ == st->ObjCClass_class_name@
    ||| k is SwiftType && st is SwiftType && k->SwiftType_artifact@ == st->SwiftType_artifact@
        && k->SwiftType_mangled_name@ == st->SwiftType_mangled_name@
}

/// A leaf backs a persisted tab exactly if it shows what the tab showed.
pub proof fn law_backing(k: LeafKind, st: TabState)
    ensures
        backs(k, st) <==> shows(k, st),
{
}

/// The class of a leaf is that of a class, and other leaves have none.
pub proof fn law_class_of_leaf(k: LeafKind)
    ensures
        smali_class(k) is Some <==> k is SmaliClass,
        k is SmaliClass ==> smali_class(k) == Some(k->SmaliClass_class_jni@),
{
}

/// A leaf opens a tab of its own sort, with its artifact and name. Classes open
/// none here.
pub proof fn law_tab_of_leaf(k: LeafKind)
    ensures
        match TabKind::of_leaf(k) {
            None => k is SmaliClass,
            Some(t) => {
                ||| k is Listing && t is Listing && t->Listing_artifact == k->Listing_artifact
                    && t->Listing_section == k->Listing_section
                ||| k is Hex && t is Hex && t->Hex_artifact == k->Hex_artifact && t->Hex_section
                    == k->Hex_section
                ||| k is SectionMap && t is SectionMap && t->SectionMap_artifact
                    == k->SectionMap_artifact
                ||| k is Manifest && t is ManifestEditor && t->ManifestEditor_artifact
                    == k->Manifest_artifact
                ||| k is Plist && t is PlistEditor && t->PlistEditor_artifact == k->Plist_artifact
                ||| k is Cfg && t is Cfg && t->Cfg_artifact == k->Cfg_artifact && t->Cfg_entry_addr
                    == k->Cfg_entry_addr
                ||| k is DexCallGraph && t is DexCallGraph && t->DexCallGraph_class_jni
                    == k->DexCallGraph_class_jni && t->DexCallGraph_method_decl
                    == k->DexCallGraph_method_decl
                ||| k is ObjCClass && t is ObjCClass && t->ObjCClass_artifact
                    == k->ObjCClass_artifact && t->ObjCClass_class_name == k->ObjCClass_class_name
                ||| k is SwiftType && t is SwiftType && t->SwiftType_artifact
                    == k->SwiftType_artifact && t->SwiftType_mangled_name
                    == k->SwiftType_mangled_name
            },
        },
{
}

/// A camera is as it is when nothing was moved.
pub open spec fn unmoved(c: Camera) -> bool {
    c.pan_x == 0 && c.pan_y == 0 && c.zoom == 0x3F80_0000
}

/// A tab persists under its own sort, with its artifact and name, unscrolled and
/// unmoved. A class editor persists as the class; a script editor does not persist.
pub proof fn law_persisted_form(t: TabKind)
    ensures
        match t.state() {
            None => t is ScriptEditor,
            Some(s) => {
                ||| t is Listing && s is Listing && s->Listing_artifact == t->Listing_artifact
                    && s->Listing_section == t->Listing_section && s->Listing_scroll_top == 0
                ||| t is Hex && s is Hex && s->Hex_artifact == t->Hex_artifact && s->Hex_section
                    == t->Hex_section && s->Hex_scroll_top == 0
                ||| t is SectionMap && s is SectionMap && s->SectionMap_artifact
                    == t->SectionMap_artifact
                ||| t is ManifestEditor && s is ManifestEditor && s->ManifestEditor_artifact
                    == t->ManifestEditor_artifact && s->ManifestEditor_scroll_line == 0
                ||| t is PlistEditor && s is PlistEditor && s->PlistEditor_artifact
                    == t->PlistEditor_artifact && s->PlistEditor_scroll_line == 0
                ||| t is Cfg && s is Cfg && s->Cfg_artifact == t->Cfg_artifact && s->Cfg_entry_addr
                    == t->Cfg_entry_addr && unmoved(s->Cfg_camera)
                ||| t is DexCallGraph && s is DexCallGraph && s->DexCallGraph_class_jni
                    == t->DexCallGraph_class_jni && s->DexCallGraph_method_decl
                    == t->DexCallGraph_method_decl && unmoved(s->DexCallGraph_camera)
                ||| t is ObjCClass && s is ObjCClass && s->ObjCClass_artifact
                    == t->ObjCClass_artifact && s->ObjCClass_class_name
                    == t->ObjCClass_class_name && s->ObjCClass_scroll_line == 0
                ||| t is SwiftType && s is SwiftType && s->SwiftType_artifact
                    == t->SwiftType_artifact && s->SwiftType_mangled_name
                    == t->SwiftType_mangled_name && s->SwiftType_scroll_line == 0
                ||| t is SmaliEditor && s is SmaliClass && s->SmaliClass_class_jni
                    == t->SmaliEditor_class_jni && s->SmaliClass_scroll_line == 0
                ||| t is CoverageMap && s is CoverageMap && unmoved(s->CoverageMap_camera)
            },
        },
{
}

/// A new tab has no selection and nothing pending; graph views alone have a camera,
/// which is the one given.
pub proof fn law_opened_tab(tab: Tab, id: TabId, kind: TabKind, camera: Camera)
    requires
        tab.opened(id, kind, camera),
    ensures
        tab.id == id,
        tab.kind == kind,
        !tab.listing_build_in_flight,
        tab.pending_scroll_addr is None,
        tab.pending_smali_scroll_line is None,
        tab.selected_row is None,
        tab.selected_byte_addr is None,
        tab.cfg is Some <==> kind is Cfg,
        tab.dex_callgraph is Some <==> kind is DexCallGraph,
        tab.cfg matches Some(c) ==> c == camera,
        tab.dex_callgraph matches Some(c) ==> c == camera,
        unmoved(Camera::fresh_view()),
        ONE_BITS == 0x3F80_0000,
{
}

} // verus!
