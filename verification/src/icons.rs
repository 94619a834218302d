//! The icons of the leaves.

use crate::leaf::{smali_class, LeafKind};
use crate::table::Table;
use vstd::prelude::*;

verus! {

/// The names that a table of source files holds.
pub open spec fn source_names(sources: Map<Seq<char>, Option<String>>) -> Map<
    Seq<char>,
    Option<Seq<char>>,
> {
    sources.map_values(
        |file: Option<String>|
            match file {
                Some(f) => Some(f@),
                None => None,
            },
    )
}

/// The source file that a leaf was compiled from: known of smali classes only.
pub open spec fn source_of(sources: Map<Seq<char>, Option<Seq<char>>>, kind: LeafKind) -> Option<
    Seq<char>,
> {
    match smali_class(kind) {
        Some(class) => if sources.contains_key(class) {
            sources[class]
        } else {
            None
        },
        None => None,
    }
}

/// `icon` is what `icon_of` answers on a leaf and its source file.
pub open spec fn is_icon_of<F: Fn(&LeafKind, Option<&str>) -> &'static str>(
    icon_of: F,
    kind: LeafKind,
    source: Option<Seq<char>>,
    icon: &'static str,
) -> bool {
    exists|file: Option<&str>|
        (match file {
            Some(f) => Some(f@),
            None => None,
        }) == source && #[trigger] call_ensures(icon_of, (&kind, file), icon)
}

/// `icons` are the icons of the leaves, in leaf order.
pub open spec fn are_icons_of<F: Fn(&LeafKind, Option<&str>) -> &'static str>(
    icon_of: F,
    kinds: Seq<LeafKind>,
    sources: Map<Seq<char>, Option<Seq<char>>>,
    icons: Seq<&'static str>,
) -> bool {
    &&& icons.len() == kinds.len()
    &&& forall|i: int|
        0 <= i < kinds.len() ==> is_icon_of(
            icon_of,
            kinds[i],
            source_of(sources, kinds[i]),
            #[trigger] icons[i],
        )
}

/// The icon of each leaf: `icon_of` chooses it from what the leaf opens and, for
/// a smali class, from the name of its source file.
pub fn leaf_icons_for<F: Fn(&LeafKind, Option<&str>) -> &'static str>(
    kinds: &Vec<LeafKind>,
    sources: &Table<String, Option<String>>,
    icon_of: &F,
) -> (r: Vec<&'static str>)
    requires
        forall|kind: &LeafKind, file: Option<&str>| #[trigger]
            call_requires(*icon_of, (kind, file)),
    ensures
        are_icons_of(*icon_of, kinds@, source_names(sources@), r@),
{
    let mut r: Vec<&'static str> = Vec::new();
    let mut i: usize = 0;
    while i < kinds.len()
        invariant
            forall|kind: &LeafKind, file: Option<&str>| #[trigger]
                call_requires(*icon_of, (kind, file)),
            i <= kinds@.len(),
            are_icons_of(*icon_of, kinds@.take(i as int), source_names(sources@), r@),
        decreases kinds@.len() - i,
    {
        let kind = &kinds[i];
        let file: Option<&str> = match kind {
            LeafKind::SmaliClass { class_jni } => match sources.get(class_jni) {
                Some(Some(f)) => Some(f.as_str()),
                _ => None,
            },
            _ => None,
        };
        let icon = icon_of(kind, file);
        assert(is_icon_of(*icon_of, *kind, source_of(source_names(sources@), *kind), icon));
        r.push(icon);
        i += 1;
    }
    assert(kinds@.take(i as int) =~= kinds@);
    r
}

} // verus!
