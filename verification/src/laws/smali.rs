//! The indices over smali bodies: callers, field accesses, callees and
//! declarations.

use crate::laws::text::{begins, holds, law_prefix_and_infix};
use crate::leaf::{LeafId, LeafKind};
use crate::order::views;
use crate::smali_index::{
    all_sites, class_count, cursor_after, declared, decls_in, decls_upto, first_occurrences,
    indexes_calls, indexes_decls, indexes_sites, law_first_occurrences, leaf_sites, next_report,
    reference, site_at, sites_in, sites_upto, targets_from, DeclView, RefKind, SiteView,
};
use crate::text::{last_word, lines, strings, trimmed};
use vstd::prelude::*;

verus! {

// ---- what a line says ------------------------------------------------------

/// Line `x` of the body of leaf `i`, without leading white space.
pub open spec fn line(bodies: Seq<String>, i: int, x: int) -> Seq<char> {
    trimmed(lines(bodies[i]@)[x])
}

/// Leaf `i` is a class with a body of more than `x` lines.
pub open spec fn has_line(kinds: Seq<LeafKind>, bodies: Seq<String>, i: int, x: int) -> bool {
    &&& 0 <= i < kinds.len()
    &&& i < bodies.len()
    &&& kinds[i] is SmaliClass
    &&& 0 <= x < lines(bodies[i]@).len()
}

/// A line declares the method `decl`: it begins with `.method ` and `decl` is its
/// last word after that.
pub open spec fn declares(t: Seq<char>, decl: Seq<char>) -> bool {
    begins(t, ".method "@) && last_word(t.subrange(8, t.len() as int)) == Some(decl)
}

/// A line ends the method it stands in.
pub open spec fn ends(t: Seq<char>) -> bool {
    begins(t, ".end method"@)
}

/// Line `x` lies in the method `decl` that line `h` declares: no line between
/// them declares another one or ends it.
pub open spec fn lies_in(bodies: Seq<String>, i: int, x: int, h: int, decl: Seq<char>) -> bool {
    &&& 0 <= h < x
    &&& declares(line(bodies, i, h), decl)
    &&& forall|k: int, d: Seq<char>|
        h < k < x ==> !#[trigger] declares(line(bodies, i, k), d)
    &&& forall|k: int| h < k < x ==> !ends(#[trigger] line(bodies, i, k))
}

/// A line refers to `target`: it is an instruction that calls a method, or one
/// that reads or writes a field, and `target` is its last word.
pub open spec fn line_refers(kind: RefKind, t: Seq<char>, target: Seq<char>) -> bool {
    &&& match kind {
        RefKind::Invoke => begins(t, "invoke-"@),
        RefKind::Field => begins(t, "iget"@) || begins(t, "iput"@) || begins(t, "sget"@)
            || begins(t, "sput"@),
    }
    &&& last_word(t) == Some(target)
    &&& holds(target, "->"@)
    &&& kind == RefKind::Field ==> holds(target, ":"@)
}

/// Line `x` of leaf `i` refers to `target` from the method `caller`, `offset`
/// lines below its declaration.
pub open spec fn refers(
    kind: RefKind,
    kinds: Seq<LeafKind>,
    bodies: Seq<String>,
    i: int,
    x: int,
    target: Seq<char>,
    caller: Seq<char>,
    offset: int,
) -> bool {
    &&& has_line(kinds, bodies, i, x)
    &&& line_refers(kind, line(bodies, i, x), target)
    &&& exists|h: int, decl: Seq<char>|
        {
            &&& #[trigger] lies_in(bodies, i, x, h, decl)
            &&& caller == kinds[i]->SmaliClass_class_jni@ + "->"@ + decl
            &&& offset == (x - h) % 0x1_0000_0000
        }
}

// ---- proofs ----------------------------------------------------------------

proof fn lemma_keywords()
    ensures
        ".method "@.len() == 8,
        ".method "@[0] == '.',
        ".method "@[1] == 'm',
        ".end method"@[0] == '.',
        ".end method"@[1] == 'e',
        ".end method"@.len() == 11,
        "invoke-"@.len() == 7,
        "invoke-"@[0] == 'i',
        "iget"@.len() == 4,
        "iget"@[0] == 'i',
        "iput"@.len() == 4,
        "iput"@[0] == 'i',
        "sget"@.len() == 4,
        "sget"@[0] == 's',
        "sput"@.len() == 4,
        "sput"@[0] == 's',
{
    reveal_strlit(".method ");
    reveal_strlit(".end method");
    reveal_strlit("invoke-");
    reveal_strlit("iget");
    reveal_strlit("iput");
    reveal_strlit("sget");
    reveal_strlit("sput");
}

proof fn lemma_line(t: Seq<char>, d: Seq<char>)
    ensures
        declared(t) == Some(d) <==> declares(t, d),
        crate::smali_index::opens_method(t) <==> begins(t, ".method "@),
        crate::smali_index::closes_method(t) <==> ends(t),
{
    lemma_keywords();
    law_prefix_and_infix(t, ".method "@, 0);
    law_prefix_and_infix(t, ".end method"@, 0);
    if begins(t, ".method "@) && begins(t, ".end method"@) {
        assert(t[1] == ".method "@[1]);
        assert(t[1] == ".end method"@[1]);
    }
}

/// A line declares what its last word after `.method ` says.
pub proof fn law_declaration(t: Seq<char>, d: Seq<char>)
    ensures
        declared(t) == Some(d) <==> declares(t, d),
{
    lemma_line(t, d);
}

proof fn lemma_reference(kind: RefKind, t: Seq<char>, target: Seq<char>)
    ensures
        reference(kind, t) == Some(target) <==> line_refers(kind, t, target),
{
    lemma_keywords();
    lemma_line(t, target);
    law_prefix_and_infix(t, "invoke-"@, 0);
    law_prefix_and_infix(t, "iget"@, 0);
    law_prefix_and_infix(t, "iput"@, 0);
    law_prefix_and_infix(t, "sget"@, 0);
    law_prefix_and_infix(t, "sput"@, 0);
    law_prefix_and_infix(target, "->"@, 0);
    law_prefix_and_infix(target, ":"@, 0);
    if begins(t, ".method "@) {
        assert(t[0] == ".method "@[0]);
    }
    if ends(t) {
        assert(t[0] == ".end method"@[0]);
    }
    if begins(t, "invoke-"@) {
        assert(t[0] == "invoke-"@[0]);
    }
    if begins(t, "iget"@) {
        assert(t[0] == "iget"@[0]);
    }
    if begins(t, "iput"@) {
        assert(t[0] == "iput"@[0]);
    }
    if begins(t, "sget"@) {
        assert(t[0] == "sget"@[0]);
    }
    if begins(t, "sput"@) {
        assert(t[0] == "sput"@[0]);
    }
}

/// The cursor stands in the method that was declared last and has not ended.
proof fn lemma_cursor(bodies: Seq<String>, i: int, class: Seq<char>, x: int)
    requires
        0 <= x <= lines(bodies[i]@).len(),
    ensures
        ({
            let c = cursor_after(class, lines(bodies[i]@), x);
            &&& c.method is Some ==> exists|decl: Seq<char>| #[trigger]
                lies_in(bodies, i, x, c.header, decl) && c.method == Some(class + "->"@ + decl)
            &&& forall|h: int, decl: Seq<char>| #[trigger]
                lies_in(bodies, i, x, h, decl) ==> c.header == h && c.method == Some(
                    class + "->"@ + decl,
                )
        }),
    decreases x,
{
    let body = lines(bodies[i]@);
    let c = cursor_after(class, body, x);
    if x > 0 {
        lemma_cursor(bodies, i, class, x - 1);
        let before = cursor_after(class, body, x - 1);
        let t = line(bodies, i, x - 1);
        assert forall|d: Seq<char>| declared(t) == Some(d) <==> #[trigger] declares(t, d) by {
            lemma_line(t, d);
        }
        lemma_line(t, t);
        match declared(t) {
            Some(d) => {
                assert(declares(t, d));
                assert(lies_in(bodies, i, x, x - 1, d));
                assert forall|h: int, decl: Seq<char>| #[trigger]
                    lies_in(bodies, i, x, h, decl) implies c.header == h && c.method == Some(
                    class + "->"@ + decl,
                ) by {
                    if h < x - 1 {
                        assert(!declares(line(bodies, i, x - 1), d));
                    }
                }
            },
            None => {
                if ends(t) {
                    assert forall|h: int, decl: Seq<char>| !#[trigger]
                        lies_in(bodies, i, x, h, decl) by {
                        if lies_in(bodies, i, x, h, decl) {
                            if h < x - 1 {
                                assert(!ends(line(bodies, i, x - 1)));
                            } else {
                                assert(declares(t, decl));
                            }
                        }
                    }
                } else {
                    if c.method is Some {
                        let decl = choose|decl: Seq<char>| #[trigger]
                            lies_in(bodies, i, x - 1, c.header, decl) && before.method == Some(
                                class + "->"@ + decl,
                            );
                        assert forall|k: int, d: Seq<char>| c.header < k < x implies !#[trigger]
                            declares(line(bodies, i, k), d) by {
                            if k == x - 1 {
                                assert(!declares(t, d));
                            }
                        }
                        assert(lies_in(bodies, i, x, c.header, decl));
                    }
                    assert forall|h: int, decl: Seq<char>| #[trigger]
                        lies_in(bodies, i, x, h, decl) implies c.header == h && c.method == Some(
                        class + "->"@ + decl,
                    ) by {
                        if h == x - 1 {
                            assert(declares(t, decl));
                        } else {
                            assert(lies_in(bodies, i, x - 1, h, decl));
                        }
                    }
                }
            },
        }
    }
}

proof fn lemma_site(
    kind: RefKind,
    kinds: Seq<LeafKind>,
    bodies: Seq<String>,
    i: int,
    x: int,
    s: SiteView,
)
    requires
        has_line(kinds, bodies, i, x),
    ensures
        site_at(kind, kinds[i]->SmaliClass_class_jni@, lines(bodies[i]@), x) == Some(s) <==> refers(
            kind,
            kinds,
            bodies,
            i,
            x,
            s.target,
            s.caller,
            s.offset as int,
        ),
{
    let class = kinds[i]->SmaliClass_class_jni@;
    let body = lines(bodies[i]@);
    let t = line(bodies, i, x);
    let c = cursor_after(class, body, x);
    lemma_cursor(bodies, i, class, x);
    lemma_reference(kind, t, s.target);
    if reference(kind, t) is Some {
        lemma_reference(kind, t, reference(kind, t)->0);
    }
    if site_at(kind, class, body, x) == Some(s) {
        let decl = choose|decl: Seq<char>| #[trigger]
            lies_in(bodies, i, x, c.header, decl) && c.method == Some(class + "->"@ + decl);
        assert(lies_in(bodies, i, x, c.header, decl));
    }
}

proof fn lemma_sites_in(kind: RefKind, class: Seq<char>, body: Seq<Seq<char>>, n: int, s: SiteView)
    requires
        0 <= n,
    ensures
        sites_in(kind, class, body, n).contains(s) <==> exists|x: int|
            0 <= x < n && #[trigger] site_at(kind, class, body, x) == Some(s),
    decreases n,
{
    let now = sites_in(kind, class, body, n);
    if n > 0 {
        lemma_sites_in(kind, class, body, n - 1, s);
        let before = sites_in(kind, class, body, n - 1);
        if before.contains(s) {
            let k = choose|k: int| 0 <= k < before.len() && before[k] == s;
            assert(now[k] == s);
        }
        match site_at(kind, class, body, n - 1) {
            Some(last) => {
                assert(now[before.len() as int] == last);
                if now.contains(s) {
                    let k = choose|k: int| 0 <= k < now.len() && now[k] == s;
                    if k < before.len() {
                        assert(before[k] == s);
                    }
                }
            },
            None => {},
        }
    }
}

proof fn lemma_sites_upto(
    kind: RefKind,
    kinds: Seq<LeafKind>,
    bodies: Seq<String>,
    n: int,
    s: SiteView,
)
    requires
        0 <= n <= kinds.len(),
    ensures
        sites_upto(kind, kinds, bodies, n).contains(s) <==> exists|i: int, x: int|
            i < n && #[trigger] refers(
                kind,
                kinds,
                bodies,
                i,
                x,
                s.target,
                s.caller,
                s.offset as int,
            ),
    decreases n,
{
    let now = sites_upto(kind, kinds, bodies, n);
    if n > 0 {
        lemma_sites_upto(kind, kinds, bodies, n - 1, s);
        let before = sites_upto(kind, kinds, bodies, n - 1);
        let added = leaf_sites(kind, kinds, bodies, n - 1);
        assert(now =~= before + added);
        let i = n - 1;
        if kinds[i] is SmaliClass && i < bodies.len() {
            let class = kinds[i]->SmaliClass_class_jni@;
            let body = lines(bodies[i]@);
            lemma_sites_in(kind, class, body, body.len() as int, s);
            assert forall|x: int| 0 <= x < body.len() implies (#[trigger] site_at(
                kind,
                class,
                body,
                x,
            ) == Some(s) <==> refers(
                kind,
                kinds,
                bodies,
                i,
                x,
                s.target,
                s.caller,
                s.offset as int,
            )) by {
                lemma_site(kind, kinds, bodies, i, x, s);
            }
            if added.contains(s) {
                let x = choose|x: int|
                    0 <= x < body.len() && #[trigger] site_at(kind, class, body, x) == Some(s);
                assert(refers(kind, kinds, bodies, i, x, s.target, s.caller, s.offset as int));
            }
        } else {
            assert(added =~= Seq::empty());
        }
        if before.contains(s) {
            let k = choose|k: int| 0 <= k < before.len() && before[k] == s;
            assert(now[k] == s);
        }
        if added.contains(s) {
            let k = choose|k: int| 0 <= k < added.len() && added[k] == s;
            assert(now[before.len() + k] == s);
        }
        if now.contains(s) {
            let k = choose|k: int| 0 <= k < now.len() && now[k] == s;
            if k < before.len() {
                assert(before[k] == s);
            } else {
                assert(added[k - before.len()] == s);
            }
        }
        if exists|j: int, x: int|
            j < n && #[trigger] refers(
                kind,
                kinds,
                bodies,
                j,
                x,
                s.target,
                s.caller,
                s.offset as int,
            ) {
            let (j, x) = choose|j: int, x: int|
                j < n && #[trigger] refers(
                    kind,
                    kinds,
                    bodies,
                    j,
                    x,
                    s.target,
                    s.caller,
                    s.offset as int,
                );
            if j == i {
                assert(site_at(kind, kinds[i]->SmaliClass_class_jni@, lines(bodies[i]@), x) == Some(s));
                assert(added.contains(s));
            } else {
                assert(before.contains(s));
            }
        }
    } else {
        assert(now =~= Seq::empty());
    }
}

// ---- laws ------------------------------------------------------------------

/// An index of callers or field accesses lists a method and a line under a
/// reference exactly if that line of that method makes the reference, whatever
/// instruction of the kind it is. Each place is listed once.
pub proof fn law_sites_are_exactly_the_references(
    m: Map<Seq<char>, Vec<(String, u32)>>,
    kind: RefKind,
    kinds: Seq<LeafKind>,
    bodies: Seq<String>,
    target: Seq<char>,
    caller: Seq<char>,
    offset: u32,
)
    requires
        indexes_sites(m, all_sites(kind, kinds, bodies)),
    ensures
        (m.contains_key(target) && views(m[target]@).contains((caller, offset))) <==> exists|
            i: int,
            x: int,
        | #[trigger]
            refers(kind, kinds, bodies, i, x, target, caller, offset as int),
        m.contains_key(target) ==> m[target]@.len() > 0 && views(m[target]@).no_duplicates(),
{
    let sites = all_sites(kind, kinds, bodies);
    let s = SiteView { target, caller, offset };
    lemma_sites_upto(kind, kinds, bodies, kinds.len() as int, s);
    if m.contains_key(target) {
        let list = views(m[target]@);
        if list.contains((caller, offset)) {
            let k = choose|k: int|
                {
                    &&& 0 <= k < sites.len()
                    &&& (#[trigger] sites[k]).target == target
                    &&& (caller, offset) == (sites[k].caller, sites[k].offset)
                };
            assert(sites[k] =~= s);
            assert(sites.contains(s));
        }
        let k = choose|k: int| 0 <= k < sites.len() && (#[trigger] sites[k]).target == target;
        assert(list.contains((sites[k].caller, sites[k].offset)));
        assert(list.len() == m[target]@.len());
        assert forall|a: int, b: int| 0 <= a < list.len() && 0 <= b < list.len() && a != b implies
            list[a] != list[b] by {
            <(String, u32) as crate::order::Rank>::irreflexive(list[a]);
            if a < b {
                assert(<(String, u32) as crate::order::Rank>::before(list[a], list[b]));
            } else {
                assert(<(String, u32) as crate::order::Rank>::before(list[b], list[a]));
            }
        }
    }
    if exists|i: int, x: int| #[trigger]
        refers(kind, kinds, bodies, i, x, target, caller, offset as int) {
        let (i, x) = choose|i: int, x: int| #[trigger]
            refers(kind, kinds, bodies, i, x, target, caller, offset as int);
        assert(i < kinds.len());
        assert(refers(kind, kinds, bodies, i, x, s.target, s.caller, s.offset as int));
        assert(sites.contains(s));
        let k = choose|k: int| 0 <= k < sites.len() && sites[k] == s;
        assert(sites[k].target == target);
        assert(m.contains_key(target));
        assert(views(m[target]@).contains((caller, offset)));
    }
}

proof fn lemma_targets_from(sites: Seq<SiteView>, k: Seq<char>, n: int, x: Seq<char>)
    requires
        0 <= n <= sites.len(),
    ensures
        targets_from(sites, k, n).contains(x) <==> exists|i: int|
            0 <= i < n && (#[trigger] sites[i]).caller == k && sites[i].target == x,
    decreases n,
{
    let now = targets_from(sites, k, n);
    if n > 0 {
        lemma_targets_from(sites, k, n - 1, x);
        let before = targets_from(sites, k, n - 1);
        if before.contains(x) {
            let a = choose|a: int| 0 <= a < before.len() && before[a] == x;
            assert(now[a] == x);
        }
        if sites[n - 1].caller == k {
            assert(now[before.len() as int] == sites[n - 1].target);
            if now.contains(x) {
                let a = choose|a: int| 0 <= a < now.len() && now[a] == x;
                if a < before.len() {
                    assert(before[a] == x);
                }
            }
        }
    }
}

/// The callee index lists a method among those that another one calls exactly if
/// a line of that one calls it, and lists it once.
pub proof fn law_callees_are_exactly_the_calls(
    m: Map<Seq<char>, Vec<String>>,
    kinds: Seq<LeafKind>,
    bodies: Seq<String>,
    caller: Seq<char>,
    target: Seq<char>,
)
    requires
        indexes_calls(m, all_sites(RefKind::Invoke, kinds, bodies)),
    ensures
        (m.contains_key(caller) && strings(m[caller]@).contains(target)) <==> exists|
            i: int,
            x: int,
            offset: int,
        | #[trigger]
            refers(RefKind::Invoke, kinds, bodies, i, x, target, caller, offset),
        m.contains_key(caller) ==> strings(m[caller]@).no_duplicates(),
{
    let sites = all_sites(RefKind::Invoke, kinds, bodies);
    let from = targets_from(sites, caller, sites.len() as int);
    lemma_targets_from(sites, caller, sites.len() as int, target);
    law_first_occurrences(from);
    if m.contains_key(caller) && strings(m[caller]@).contains(target) {
        let k = choose|k: int|
            0 <= k < sites.len() && (#[trigger] sites[k]).caller == caller && sites[k].target
                == target;
        let s = sites[k];
        lemma_sites_upto(RefKind::Invoke, kinds, bodies, kinds.len() as int, s);
        assert(sites.contains(s));
        let (i, x) = choose|i: int, x: int|
            i < kinds.len() && #[trigger] refers(
                RefKind::Invoke,
                kinds,
                bodies,
                i,
                x,
                s.target,
                s.caller,
                s.offset as int,
            );
        assert(refers(RefKind::Invoke, kinds, bodies, i, x, target, caller, s.offset as int));
    }
    if exists|i: int, x: int, offset: int| #[trigger]
        refers(RefKind::Invoke, kinds, bodies, i, x, target, caller, offset) {
        let (i, x, offset) = choose|i: int, x: int, offset: int| #[trigger]
            refers(RefKind::Invoke, kinds, bodies, i, x, target, caller, offset);
        let s = SiteView { target, caller, offset: offset as u32 };
        lemma_sites_upto(RefKind::Invoke, kinds, bodies, kinds.len() as int, s);
        assert(refers(
            RefKind::Invoke,
            kinds,
            bodies,
            i,
            x,
            s.target,
            s.caller,
            s.offset as int,
        ));
        assert(i < kinds.len());
        assert(sites.contains(s));
        let k = choose|k: int| 0 <= k < sites.len() && sites[k] == s;
        assert(sites[k].caller == caller && sites[k].target == target);
        assert(m.contains_key(caller));
        assert(from.contains(target));
    }
}

/// Of two callees the one that is called first comes first.
pub proof fn law_callees_in_order_of_first_call<A>(s: Seq<A>, a: int, b: int)
    requires
        0 <= a < b < first_occurrences(s).len(),
    ensures
        exists|i: int|
            {
                &&& 0 <= i < s.len()
                &&& #[trigger] s[i] == first_occurrences(s)[a]
                &&& forall|j: int| 0 <= j <= i ==> #[trigger] s[j] != first_occurrences(s)[b]
            },
    decreases s.len(),
{
    let rest = s.drop_last();
    let before = first_occurrences(rest);
    law_first_occurrences(rest);
    if b < before.len() {
        law_callees_in_order_of_first_call(rest, a, b);
        let i = choose|i: int|
            {
                &&& 0 <= i < rest.len()
                &&& #[trigger] rest[i] == before[a]
                &&& forall|j: int| 0 <= j <= i ==> #[trigger] rest[j] != before[b]
            };
        assert(s[i] == first_occurrences(s)[a]);
        assert forall|j: int| 0 <= j <= i implies #[trigger] s[j] != first_occurrences(s)[b] by {
            assert(rest[j] == s[j]);
        }
    } else {
        assert(before.contains(before[a]));
        let i = choose|i: int| 0 <= i < rest.len() && rest[i] == before[a];
        assert(s[i] == first_occurrences(s)[a]);
        assert forall|j: int| 0 <= j <= i implies #[trigger] s[j] != first_occurrences(s)[b] by {
            assert(rest[j] == s[j]);
            assert(rest.contains(rest[j]));
        }
    }
}

// ---- declarations ----------------------------------------------------------

/// Line `x` of leaf `i` declares the method with key `k`.
pub open spec fn declared_at(
    kinds: Seq<LeafKind>,
    bodies: Seq<String>,
    i: int,
    x: int,
    k: Seq<char>,
) -> bool {
    &&& has_line(kinds, bodies, i, x)
    &&& exists|decl: Seq<char>| #[trigger]
        declares(line(bodies, i, x), decl) && k == kinds[i]->SmaliClass_class_jni@ + "->"@ + decl
}

/// A list of declarations is in the order of leaves and lines.
spec fn decls_ordered(s: Seq<DeclView>) -> bool {
    forall|a: int, b: int|
        0 <= a < b < s.len() ==> (#[trigger] s[a]).leaf < (#[trigger] s[b]).leaf || (s[a].leaf
            == s[b].leaf && s[a].line < s[b].line)
}

proof fn lemma_declared_at(kinds: Seq<LeafKind>, bodies: Seq<String>, i: int, x: int, k: Seq<char>)
    requires
        has_line(kinds, bodies, i, x),
    ensures
        declared_at(kinds, bodies, i, x, k) <==> (declared(line(bodies, i, x)) is Some && k
            == kinds[i]->SmaliClass_class_jni@ + "->"@ + declared(line(bodies, i, x))->0),
{
    let t = line(bodies, i, x);
    assert forall|d: Seq<char>| declared(t) == Some(d) <==> #[trigger] declares(t, d) by {
        lemma_line(t, d);
    }
    if declared(t) is Some {
        assert(declares(t, declared(t)->0));
    }
}

proof fn lemma_decls_in(kinds: Seq<LeafKind>, bodies: Seq<String>, i: int, n: int, d: DeclView)
    requires
        0 <= i < kinds.len(),
        i < bodies.len(),
        kinds[i] is SmaliClass,
        0 <= n <= lines(bodies[i]@).len(),
    ensures
        decls_in(kinds[i]->SmaliClass_class_jni@, lines(bodies[i]@), i, n).contains(d) <==> d.leaf == i
            && 0 <= d.line < n && declared_at(kinds, bodies, i, d.line, d.key),
        decls_ordered(decls_in(kinds[i]->SmaliClass_class_jni@, lines(bodies[i]@), i, n)),
        forall|a: int|
            0 <= a < decls_in(kinds[i]->SmaliClass_class_jni@, lines(bodies[i]@), i, n).len() ==> (
            #[trigger] decls_in(kinds[i]->SmaliClass_class_jni@, lines(bodies[i]@), i, n)[a]).leaf == i
                && decls_in(kinds[i]->SmaliClass_class_jni@, lines(bodies[i]@), i, n)[a].line < n,
    decreases n,
{
    let class = kinds[i]->SmaliClass_class_jni@;
    let body = lines(bodies[i]@);
    let now = decls_in(class, body, i, n);
    if n > 0 {
        lemma_decls_in(kinds, bodies, i, n - 1, d);
        let before = decls_in(class, body, i, n - 1);
        lemma_declared_at(kinds, bodies, i, n - 1, d.key);
        if before.contains(d) {
            let a = choose|a: int| 0 <= a < before.len() && before[a] == d;
            assert(now[a] == d);
        }
        match declared(line(bodies, i, n - 1)) {
            Some(decl) => {
                let last = DeclView {
                    key: crate::smali_index::method_key(class, decl),
                    leaf: i,
                    line: n - 1,
                };
                assert(now =~= before.push(last));
                assert(now[before.len() as int] == last);
                if now.contains(d) {
                    let a = choose|a: int| 0 <= a < now.len() && now[a] == d;
                    if a < before.len() {
                        assert(before[a] == d);
                    }
                }
                if d.leaf == i && d.line == n - 1 && declared_at(kinds, bodies, i, d.line, d.key) {
                    assert(d =~= last);
                }
            },
            None => {},
        }
    }
}

proof fn lemma_decls_upto(kinds: Seq<LeafKind>, bodies: Seq<String>, n: int, d: DeclView)
    requires
        0 <= n <= kinds.len(),
    ensures
        decls_upto(kinds, bodies, n).contains(d) <==> 0 <= d.leaf < n && declared_at(
            kinds,
            bodies,
            d.leaf,
            d.line,
            d.key,
        ),
        decls_ordered(decls_upto(kinds, bodies, n)),
        forall|a: int|
            0 <= a < decls_upto(kinds, bodies, n).len() ==> (#[trigger] decls_upto(
                kinds,
                bodies,
                n,
            )[a]).leaf < n,
    decreases n,
{
    let now = decls_upto(kinds, bodies, n);
    if n > 0 {
        lemma_decls_upto(kinds, bodies, n - 1, d);
        let before = decls_upto(kinds, bodies, n - 1);
        let i = n - 1;
        let added = if kinds[i] is SmaliClass && i < bodies.len() {
            decls_in(
                kinds[i]->SmaliClass_class_jni@,
                lines(bodies[i]@),
                i,
                lines(bodies[i]@).len() as int,
            )
        } else {
            Seq::empty()
        };
        assert(now =~= before + added);
        if kinds[i] is SmaliClass && i < bodies.len() {
            lemma_decls_in(kinds, bodies, i, lines(bodies[i]@).len() as int, d);
        }
        if before.contains(d) {
            let a = choose|a: int| 0 <= a < before.len() && before[a] == d;
            assert(now[a] == d);
        }
        if added.contains(d) {
            let a = choose|a: int| 0 <= a < added.len() && added[a] == d;
            assert(now[before.len() + a] == d);
        }
        if now.contains(d) {
            let a = choose|a: int| 0 <= a < now.len() && now[a] == d;
            if a < before.len() {
                assert(before[a] == d);
            } else {
                assert(added[a - before.len()] == d);
            }
        }
    } else {
        assert(now =~= Seq::empty());
    }
}

/// The declaration index knows exactly the methods that some line declares, and
/// leads to the first of these lines.
pub proof fn law_methods_are_found_where_declared(
    m: Map<Seq<char>, (LeafId, usize)>,
    kinds: Seq<LeafKind>,
    bodies: Seq<String>,
    k: Seq<char>,
)
    requires
        indexes_decls(m, decls_upto(kinds, bodies, kinds.len() as int)),
    ensures
        m.contains_key(k) <==> exists|i: int, x: int| #[trigger]
            declared_at(kinds, bodies, i, x, k),
        m.contains_key(k) ==> {
            let (leaf, at) = m[k];
            &&& declared_at(kinds, bodies, leaf.0 as int, at as int, k)
            &&& forall|i: int, x: int| #[trigger]
                declared_at(kinds, bodies, i, x, k) ==> leaf.0 < i || (leaf.0 == i && at <= x)
        },
{
    let n = kinds.len() as int;
    let decls = decls_upto(kinds, bodies, n);
    assert forall|i: int, x: int| #[trigger]
        declared_at(kinds, bodies, i, x, k) implies decls.contains(
        DeclView { key: k, leaf: i, line: x },
    ) by {
        lemma_decls_upto(kinds, bodies, n, DeclView { key: k, leaf: i, line: x });
    }
    if m.contains_key(k) {
        let (leaf, at) = m[k];
        let d = DeclView { key: k, leaf: leaf.0 as int, line: at as int };
        let a = choose|a: int|
            {
                &&& 0 <= a < decls.len()
                &&& #[trigger] decls[a] == d
                &&& forall|j: int| 0 <= j < a ==> (#[trigger] decls[j]).key != k
            };
        assert(decls.contains(d));
        lemma_decls_upto(kinds, bodies, n, d);
        assert forall|i: int, x: int| #[trigger] declared_at(kinds, bodies, i, x, k) implies leaf.0
            < i || (leaf.0 == i && at <= x) by {
            let o = DeclView { key: k, leaf: i, line: x };
            let b = choose|b: int| 0 <= b < decls.len() && decls[b] == o;
            if b < a {
                assert(decls[b].key != k);
            } else if a < b {
                assert(decls[a].leaf < decls[b].leaf || (decls[a].leaf == decls[b].leaf
                    && decls[a].line < decls[b].line));
            }
        }
    }
    if exists|i: int, x: int| #[trigger] declared_at(kinds, bodies, i, x, k) {
        let (i, x) = choose|i: int, x: int| #[trigger] declared_at(kinds, bodies, i, x, k);
        let o = DeclView { key: k, leaf: i, line: x };
        let b = choose|b: int| 0 <= b < decls.len() && decls[b] == o;
        assert(decls[b].key == k);
    }
}

// ---- reports ---------------------------------------------------------------

/// The number of classes among leaves grows by one with each class.
pub proof fn law_class_count(kinds: Seq<LeafKind>, n: int)
    requires
        0 <= n < kinds.len(),
    ensures
        class_count(kinds, 0) == 0,
        class_count(kinds, n + 1) == class_count(kinds, n) + if kinds[n] is SmaliClass {
            1int
        } else {
            0int
        },
{
}

/// The leaf before `n` is a class with a body, the last of a multiple of 64 classes.
pub open spec fn report_due(kinds: Seq<LeafKind>, bodies: Seq<String>, n: int) -> bool {
    &&& 0 < n <= kinds.len()
    &&& kinds[n - 1] is SmaliClass
    &&& n <= bodies.len()
    &&& class_count(kinds, n) % 64 == 0
}

/// A scan reports at the first place where a report is due, and at the end.
pub proof fn law_reports(kinds: Seq<LeafKind>, bodies: Seq<String>, i: int)
    requires
        0 <= i <= kinds.len(),
    ensures
        ({
            let n = next_report(kinds, bodies, i);
            &&& i <= n <= kinds.len()
            &&& n < kinds.len() ==> report_due(kinds, bodies, n) && i < n
            &&& forall|k: int| i < k < n ==> !#[trigger] report_due(kinds, bodies, k)
        }),
    decreases kinds.len() - i,
{
    if i < kinds.len() && !report_due(kinds, bodies, i + 1) {
        law_reports(kinds, bodies, i + 1);
    }
}

} // verus!
