//! Indices over smali class bodies: where methods are declared, what they
//! call, and what refers to methods and fields.
//!
//! A method is known by its key `Class;->name(sig)ret`.

use crate::leaf::{smali_class, LeafId, LeafKind};
use crate::order::{ascending, sort_dedup, views};
use crate::table::{as_map, grouped, keys, lists_places, Table};
use crate::text::{
    char_rows, contains, final_word, has_infix, has_prefix, join3, last_word, lines, split_lines,
    starts_with, strings, strip_prefix, substring, to_chars, trim_start, trimmed,
};
use crate::xref::XrefProgress;
use vstd::prelude::*;

verus! {

// ---- reading a body --------------------------------------------------------

/// The key of method `decl` of class `class`.
pub open spec fn method_key(class: Seq<char>, decl: Seq<char>) -> Seq<char> {
    class + "->"@ + decl
}

/// Whether a trimmed line opens a method.
pub open spec fn opens_method(t: Seq<char>) -> bool {
    has_prefix(t, ".method "@)
}

/// What a line that opens a method declares: its last word after `.method`.
pub open spec fn declared(t: Seq<char>) -> Option<Seq<char>> {
    if opens_method(t) {
        last_word(t.subrange(".method "@.len() as int, t.len() as int))
    } else {
        None
    }
}

/// Whether a trimmed line closes a method.
pub open spec fn closes_method(t: Seq<char>) -> bool {
    !opens_method(t) && has_prefix(t, ".end method"@)
}

/// The method that a line belongs to, and the line that opened it.
pub ghost struct Cursor {
    pub method: Option<Seq<char>>,
    pub header: int,
}

/// The cursor after the first `n` lines of a class body.
pub open spec fn cursor_after(class: Seq<char>, body: Seq<Seq<char>>, n: int) -> Cursor
    decreases n,
{
    if n <= 0 {
        Cursor { method: None, header: 0 }
    } else {
        let before = cursor_after(class, body, n - 1);
        let t = trimmed(body[n - 1]);
        match declared(t) {
            Some(decl) => Cursor { method: Some(method_key(class, decl)), header: n - 1 },
            None => if closes_method(t) {
                Cursor { method: None, header: before.header }
            } else {
                before
            },
        }
    }
}

/// What kind of reference to look for.
#[derive(Clone, Copy, Debug, PartialEq, Eq, Structural)]
pub enum RefKind {
    /// Method calls: `invoke-*` with a method reference.
    Invoke,
    /// Field accesses: `iget*`, `iput*`, `sget*`, `sput*` with a field
    /// reference.
    Field,
}

/// Whether a trimmed line is an instruction of that kind.
pub open spec fn is_access(kind: RefKind, t: Seq<char>) -> bool {
    match kind {
        RefKind::Invoke => has_prefix(t, "invoke-"@),
        RefKind::Field => has_prefix(t, "iget"@) || has_prefix(t, "iput"@) || has_prefix(t, "sget"@)
            || has_prefix(t, "sput"@),
    }
}

/// Whether a word has the shape of such a reference.
pub open spec fn is_reference(kind: RefKind, w: Seq<char>) -> bool {
    has_infix(w, "->"@) && (kind == RefKind::Field ==> has_infix(w, ":"@))
}

/// The reference that a trimmed line makes: the last word of an instruction of
/// that kind, if it has the shape.
pub open spec fn reference(kind: RefKind, t: Seq<char>) -> Option<Seq<char>> {
    if opens_method(t) || closes_method(t) || !is_access(kind, t) {
        None
    } else {
        match last_word(t) {
            Some(w) => if is_reference(kind, w) {
                Some(w)
            } else {
                None
            },
            None => None,
        }
    }
}

/// One reference: to what, from which method, and how many lines below the
/// line that opens the method.
#[verifier::ext_equal]
pub ghost struct SiteView {
    pub target: Seq<char>,
    pub caller: Seq<char>,
    pub offset: u32,
}

/// A line distance as 32 bits hold it.
pub open spec fn line_offset(line: int, header: int) -> u32 {
    ((line - header) % 0x1_0000_0000) as u32
}

/// The reference at line `i`, if it makes one inside a method.
pub open spec fn site_at(kind: RefKind, class: Seq<char>, body: Seq<Seq<char>>, i: int) -> Option<
    SiteView,
> {
    let cursor = cursor_after(class, body, i);
    match (cursor.method, reference(kind, trimmed(body[i]))) {
        (Some(caller), Some(target)) => Some(
            SiteView { target, caller, offset: line_offset(i, cursor.header) },
        ),
        _ => None,
    }
}

/// The references in the first `n` lines of a class body.
pub open spec fn sites_in(kind: RefKind, class: Seq<char>, body: Seq<Seq<char>>, n: int) -> Seq<
    SiteView,
>
    decreases n,
{
    if n <= 0 {
        Seq::empty()
    } else {
        match site_at(kind, class, body, n - 1) {
            Some(s) => sites_in(kind, class, body, n - 1).push(s),
            None => sites_in(kind, class, body, n - 1),
        }
    }
}

/// The references in leaf `i`: those of its body, if it is a smali class.
pub open spec fn leaf_sites(kind: RefKind, kinds: Seq<LeafKind>, bodies: Seq<String>, i: int) -> Seq<
    SiteView,
> {
    match smali_class(kinds[i]) {
        Some(class) => if i < bodies.len() {
            sites_in(kind, class, lines(bodies[i]@), lines(bodies[i]@).len() as int)
        } else {
            Seq::empty()
        },
        None => Seq::empty(),
    }
}

/// The references in the first `n` leaves.
pub open spec fn sites_upto(kind: RefKind, kinds: Seq<LeafKind>, bodies: Seq<String>, n: int) -> Seq<
    SiteView,
>
    decreases n,
{
    if n <= 0 {
        Seq::empty()
    } else {
        sites_upto(kind, kinds, bodies, n - 1) + leaf_sites(kind, kinds, bodies, n - 1)
    }
}

/// All references in the smali classes of a bundle.
pub open spec fn all_sites(kind: RefKind, kinds: Seq<LeafKind>, bodies: Seq<String>) -> Seq<SiteView> {
    sites_upto(kind, kinds, bodies, kinds.len() as int)
}

/// How many of the first `n` leaves are smali classes.
pub open spec fn class_count(kinds: Seq<LeafKind>, n: int) -> int
    decreases n,
{
    if n <= 0 {
        0
    } else {
        class_count(kinds, n - 1) + if smali_class(kinds[n - 1]) is Some {
            1int
        } else {
            0int
        }
    }
}

/// One reference found in a body.
struct Site {
    target: String,
    caller: String,
    offset: u32,
}

impl View for Site {
    type V = SiteView;

    closed spec fn view(&self) -> SiteView {
        SiteView { target: self.target@, caller: self.caller@, offset: self.offset }
    }
}

/// What a line that opens a method declares.
pub fn read_declaration(t: &Vec<char>) -> (r: (bool, Option<Vec<char>>))
    ensures
        r.0 == opens_method(t@),
        match r.1 {
            Some(d) => declared(t@) == Some(d@),
            None => declared(t@) is None,
        },
{
    match strip_prefix(t.as_slice(), ".method ") {
        Some(after) => (true, final_word(after.as_slice())),
        None => (false, None),
    }
}

/// The reference that a line makes which neither opens nor closes a method.
fn read_reference(kind: RefKind, t: &Vec<char>) -> (r: Option<Vec<char>>)
    requires
        !opens_method(t@),
        !closes_method(t@),
    ensures
        match r {
            Some(w) => reference(kind, t@) == Some(w@),
            None => reference(kind, t@) is None,
        },
{
    let s = t.as_slice();
    let access = match kind {
        RefKind::Invoke => starts_with(s, "invoke-"),
        RefKind::Field => starts_with(s, "iget") || starts_with(s, "iput") || starts_with(s, "sget")
            || starts_with(s, "sput"),
    };
    if !access {
        return None;
    }
    match final_word(s) {
        Some(w) => {
            let shaped = match kind {
                RefKind::Invoke => contains(w.as_slice(), "->"),
                RefKind::Field => contains(w.as_slice(), "->") && contains(w.as_slice(), ":"),
            };
            if shaped {
                Some(w)
            } else {
                None
            }
        },
        None => None,
    }
}

fn chars_to_string(t: &Vec<char>) -> (r: String)
    ensures
        r@ == t@,
{
    let r = substring(t.as_slice(), 0, t.len());
    assert(t@.subrange(0, t@.len() as int) =~= t@);
    r
}

/// Appends the references of one class body to `out`.
fn scan_body(kind: RefKind, class_jni: &String, body: &String, out: &mut Vec<Site>)
    ensures
        views(final(out)@) == views(old(out)@) + sites_in(
            kind,
            class_jni@,
            lines(body@),
            lines(body@).len() as int,
        ),
{
    let ghost class = class_jni@;
    let ghost body_lines = lines(body@);
    let text = to_chars(body.as_str());
    let rows = split_lines(text.as_slice());
    let mut method: Option<String> = None;
    let mut header: usize = 0;
    let mut i: usize = 0;
    let ghost start = views(out@);
    assert(start + sites_in(kind, class, body_lines, 0) =~= start);
    while i < rows.len()
        invariant
            class == class_jni@,
            body_lines == lines(body@),
            char_rows(rows@) == body_lines,
            i <= rows.len(),
            header <= i,
            header == cursor_after(class, body_lines, i as int).header,
            match method {
                Some(m) => cursor_after(class, body_lines, i as int).method == Some(m@),
                None => cursor_after(class, body_lines, i as int).method is None,
            },
            views(out@) == start + sites_in(kind, class, body_lines, i as int),
        decreases rows.len() - i,
    {
        assert(char_rows(rows@)[i as int] == rows@[i as int]@);
        let t = trim_start(rows[i].as_slice());
        assert(t@ == trimmed(body_lines[i as int]));
        let (opens, decl) = read_declaration(&t);
        if opens {
            match decl {
                Some(d) => {
                    let d = chars_to_string(&d);
                    method = Some(join3(class_jni.as_str(), "->", d.as_str()));
                    header = i;
                },
                None => {},
            }
        } else if starts_with(t.as_slice(), ".end method") {
            method = None;
        } else {
            match (&method, read_reference(kind, &t)) {
                (Some(m), Some(w)) => {
                    let offset: u32 = ((i - header) as u64 % 0x1_0000_0000) as u32;
                    let site = Site { target: chars_to_string(&w), caller: m.clone(), offset };
                    let ghost before = views(out@);
                    let ghost view = site@;
                    out.push(site);
                    proof {
                        assert(views(out@) =~= before.push(view));
                        assert(Some(view) == site_at(kind, class, body_lines, i as int));
                        assert(views(out@) =~= start + sites_in(kind, class, body_lines, i + 1));
                    }
                },
                _ => {},
            }
        }
        i += 1;
    }
}

/// How many leaves are scanned when the scan that stands at leaf `i` next reports
/// how far it is: after every 64th class, and at the end. A class without a
/// body is counted and not reported on.
pub open spec fn next_report(kinds: Seq<LeafKind>, bodies: Seq<String>, i: int) -> int
    decreases kinds.len() - i,
{
    if i >= kinds.len() {
        kinds.len() as int
    } else if smali_class(kinds[i]) is Some && i < bodies.len() && class_count(kinds, i + 1) % 64
        == 0 {
        i + 1
    } else {
        next_report(kinds, bodies, i + 1)
    }
}

/// A scan of the smali classes of a bundle, run from one report to the next.
pub struct RefScan<'a> {
    kind: RefKind,
    kinds: &'a Vec<LeafKind>,
    bodies: &'a Vec<String>,
    sites: Vec<Site>,
    next: usize,
    processed: usize,
}

impl<'a> RefScan<'a> {
    /// What the scan looks for.
    pub closed spec fn looks_for(&self) -> RefKind {
        self.kind
    }

    /// The leaves.
    pub closed spec fn leaves(&self) -> Seq<LeafKind> {
        self.kinds@
    }

    /// The bodies of the leaves.
    pub closed spec fn texts(&self) -> Seq<String> {
        self.bodies@
    }

    /// How many leaves are scanned.
    pub closed spec fn scanned(&self) -> int {
        self.next as int
    }

    /// The scan looks for the same references in the same leaves.
    pub open spec fn same_bundle(&self, other: &RefScan<'a>) -> bool {
        &&& self.looks_for() == other.looks_for()
        &&& self.leaves() == other.leaves()
        &&& self.texts() == other.texts()
    }

    /// The references of the scanned leaves are collected.
    pub closed spec fn wf(&self) -> bool {
        &&& self.next <= self.kinds@.len()
        &&& self.processed <= self.next
        &&& self.processed == class_count(self.kinds@, self.next as int)
        &&& views(self.sites@) == sites_upto(self.kind, self.kinds@, self.bodies@, self.next as int)
    }

    /// Nothing is scanned yet.
    pub fn start(kind: RefKind, kinds: &'a Vec<LeafKind>, bodies: &'a Vec<String>) -> (r: RefScan<'a>)
        ensures
            r.wf(),
            r.looks_for() == kind,
            r.leaves() == kinds@,
            r.texts() == bodies@,
            r.scanned() == 0,
    {
        let r = RefScan { kind, kinds, bodies, sites: Vec::new(), next: 0, processed: 0 };
        assert(views(r.sites@) =~= Seq::empty());
        r
    }

    /// Whether all leaves are scanned.
    pub fn is_done(&self) -> (r: bool)
        requires
            self.wf(),
        ensures
            r == (self.scanned() == self.leaves().len()),
    {
        self.next == self.kinds.len()
    }

    /// Scans up to the next report.
    fn advance(&mut self)
        requires
            old(self).wf(),
        ensures
            final(self).wf(),
            final(self).same_bundle(old(self)),
            final(self).scanned() == next_report(
                old(self).leaves(),
                old(self).texts(),
                old(self).scanned(),
            ),
    {
        let kind = self.kind;
        let kinds = self.kinds;
        let bodies = self.bodies;
        let ghost stop = next_report(kinds@, bodies@, self.next as int);
        while self.next < kinds.len()
            invariant
                self.wf(),
                self.kind == kind,
                self.kinds == kinds,
                self.bodies == bodies,
                self.same_bundle(old(self)),
                stop == next_report(kinds@, bodies@, self.next as int),
                stop == next_report(old(self).leaves(), old(self).texts(), old(self).scanned()),
            decreases kinds@.len() - self.next,
        {
            let i: usize = self.next;
            let mut report: bool = false;
            match &kinds[i] {
                LeafKind::SmaliClass { class_jni } => {
                    self.processed = self.processed + 1;
                    if i < bodies.len() {
                        scan_body(kind, class_jni, &bodies[i], &mut self.sites);
                        report = self.processed % 64 == 0;
                    } else {
                        assert(views(self.sites@) =~= views(self.sites@) + leaf_sites(
                            kind,
                            kinds@,
                            bodies@,
                            i as int,
                        ));
                    }
                },
                _ => {
                    assert(views(self.sites@) =~= views(self.sites@) + leaf_sites(
                        kind,
                        kinds@,
                        bodies@,
                        i as int,
                    ));
                },
            }
            self.next = i + 1;
            if report {
                return;
            }
        }
    }

    /// Scans up to the next report and reports the classes scanned so far.
    pub fn step(&mut self, progress: &mut XrefProgress)
        requires
            old(self).wf(),
        ensures
            final(self).wf(),
            final(self).same_bundle(old(self)),
            final(self).scanned() == next_report(
                old(self).leaves(),
                old(self).texts(),
                old(self).scanned(),
            ),
            final(progress).current == class_count(old(self).leaves(), final(self).scanned()),
            final(progress).label == old(progress).label,
            final(progress).total == old(progress).total,
    {
        self.advance();
        progress.current = self.processed;
    }

    /// The index of the references found.
    pub fn finish(self) -> (r: RefIndex)
        requires
            self.wf(),
            self.scanned() == self.leaves().len(),
        ensures
            indexes_sites(r@, all_sites(self.looks_for(), self.leaves(), self.texts())),
    {
        index_sites(&self.sites)
    }
}

/// A scan moves on with every report. Up to the last report it is at a multiple
/// of 64 classes, and where every class has a body no two reports are more than
/// 64 classes apart.
pub proof fn law_scans_report_as_they_go(kinds: Seq<LeafKind>, bodies: Seq<String>, i: int)
    requires
        0 <= i < kinds.len(),
    ensures
        i < next_report(kinds, bodies, i) <= kinds.len(),
        class_count(kinds, i) <= class_count(kinds, next_report(kinds, bodies, i)) <= class_count(
            kinds,
            kinds.len() as int,
        ),
        next_report(kinds, bodies, i) < kinds.len() ==> class_count(
            kinds,
            next_report(kinds, bodies, i),
        ) % 64 == 0,
        kinds.len() <= bodies.len() ==> class_count(kinds, next_report(kinds, bodies, i))
            <= class_count(kinds, i) + 64 - class_count(kinds, i) % 64,
    decreases kinds.len() - i,
{
    let hit = smali_class(kinds[i]) is Some && i < bodies.len() && class_count(kinds, i + 1) % 64
        == 0;
    if hit {
        lemma_class_count_monotonic(kinds, i + 1, kinds.len() as int);
    } else if i + 1 < kinds.len() {
        law_scans_report_as_they_go(kinds, bodies, i + 1);
    }
}

proof fn lemma_class_count_monotonic(kinds: Seq<LeafKind>, a: int, b: int)
    requires
        0 <= a <= b <= kinds.len(),
    ensures
        class_count(kinds, a) <= class_count(kinds, b),
    decreases b - a,
{
    if a < b {
        lemma_class_count_monotonic(kinds, a, b - 1);
    }
}

/// Collects the references of all smali classes.
fn scan_bundle(kind: RefKind, kinds: &Vec<LeafKind>, bodies: &Vec<String>) -> (r: Vec<Site>)
    ensures
        views(r@) == all_sites(kind, kinds@, bodies@),
{
    let mut scan = RefScan::start(kind, kinds, bodies);
    while !scan.is_done()
        invariant
            scan.wf(),
            scan.looks_for() == kind,
            scan.leaves() == kinds@,
            scan.texts() == bodies@,
        decreases kinds@.len() - scan.scanned(),
    {
        proof {
            law_scans_report_as_they_go(kinds@, bodies@, scan.scanned());
        }
        scan.advance();
    }
    scan.sites
}

/// The index of one kind of reference. Reports the classes scanned.
fn build_index(
    kind: RefKind,
    kinds: &Vec<LeafKind>,
    bodies: &Vec<String>,
    progress: &mut XrefProgress,
) -> (r: RefIndex)
    ensures
        indexes_sites(r@, all_sites(kind, kinds@, bodies@)),
        final(progress).current == class_count(kinds@, kinds@.len() as int),
        final(progress).label == old(progress).label,
        final(progress).total == old(progress).total,
{
    let mut scan = RefScan::start(kind, kinds, bodies);
    progress.current = 0;
    while !scan.is_done()
        invariant
            scan.wf(),
            scan.looks_for() == kind,
            scan.leaves() == kinds@,
            scan.texts() == bodies@,
            progress.current == class_count(kinds@, scan.scanned()),
            progress.label == old(progress).label,
            progress.total == old(progress).total,
        decreases kinds@.len() - scan.scanned(),
    {
        proof {
            law_scans_report_as_they_go(kinds@, bodies@, scan.scanned());
        }
        scan.step(progress);
    }
    scan.finish()
}

// ---- reference indices -----------------------------------------------------

/// Reference sites by target: which method, and how many lines into it.
pub type RefIndex = Table<String, Vec<(String, u32)>>;

/// `m` maps each target that is referred to to its sites, each once, ordered by
/// method and line.
pub open spec fn indexes_sites(m: Map<Seq<char>, Vec<(String, u32)>>, sites: Seq<SiteView>) -> bool {
    &&& forall|k: Seq<char>| #[trigger]
        m.contains_key(k) <==> exists|i: int| 0 <= i < sites.len() && (#[trigger] sites[i]).target == k
    &&& forall|k: Seq<char>| #[trigger]
        m.contains_key(k) ==> ascending::<(String, u32)>(views(m[k]@)) && forall|x: (Seq<char>, u32)|
            #[trigger] views(m[k]@).contains(x) <==> exists|i: int|
                {
                    &&& 0 <= i < sites.len()
                    &&& (#[trigger] sites[i]).target == k
                    &&& x == (sites[i].caller, sites[i].offset)
                }
}

/// The sites of one target, sorted, each once.
fn sites_of(sites: &Vec<Site>, places: &Vec<usize>, Ghost(k): Ghost<Seq<char>>) -> (r: Vec<(String, u32)>)
    requires
        lists_places(
            places@,
            views(sites@).map_values(|s: SiteView| s.target),
            k,
        ),
    ensures
        ascending::<(String, u32)>(views(r@)),
        forall|x: (Seq<char>, u32)| #[trigger]
            views(r@).contains(x) <==> exists|i: int|
                {
                    &&& 0 <= i < views(sites@).len()
                    &&& (#[trigger] views(sites@)[i]).target == k
                    &&& x == (views(sites@)[i].caller, views(sites@)[i].offset)
                },
{
    let ghost sv = views(sites@);
    let ghost targets = sv.map_values(|s: SiteView| s.target);
    let total: usize = sites.len();
    let mut pairs: Vec<(String, u32)> = Vec::new();
    let mut a: usize = 0;
    while a < places.len()
        invariant
            sv == views(sites@),
            targets == sv.map_values(|s: SiteView| s.target),
            lists_places(places@, targets, k),
            a <= places@.len(),
            pairs@.len() == a,
            forall|b: int|
                0 <= b < a ==> #[trigger] views(pairs@)[b] == (
                    sv[places@[b] as int].caller,
                    sv[places@[b] as int].offset,
                ),
        decreases places@.len() - a,
    {
        proof {
            assert(places@.contains(places@[a as int]));
        }
        let s = &sites[places[a]];
        assert(sv[places@[a as int] as int] == s@);
        let ghost before = views(pairs@);
        pairs.push((s.caller.clone(), s.offset));
        proof {
            assert(views(pairs@) =~= before.push((s.caller@, s.offset)));
        }
        a += 1;
    }
    let r = sort_dedup(&pairs);
    proof {
        let pv = views(pairs@);
        assert forall|x: (Seq<char>, u32)| #[trigger] views(r@).contains(x) <==> exists|i: int|
            {
                &&& 0 <= i < sv.len()
                &&& (#[trigger] sv[i]).target == k
                &&& x == (sv[i].caller, sv[i].offset)
            } by {
            if views(r@).contains(x) {
                assert(pv.contains(x));
                let b = choose|b: int| 0 <= b < pv.len() && pv[b] == x;
                let i = places@[b];
                assert(places@.contains(i));
                assert(targets[i as int] == sv[i as int].target);
            }
            if exists|i: int|
                {
                    &&& 0 <= i < sv.len()
                    &&& (#[trigger] sv[i]).target == k
                    &&& x == (sv[i].caller, sv[i].offset)
                } {
                let i = choose|i: int|
                    {
                        &&& 0 <= i < sv.len()
                        &&& (#[trigger] sv[i]).target == k
                        &&& x == (sv[i].caller, sv[i].offset)
                    };
                assert(targets[i] == k);
                assert(places@.contains(i as usize));
                let b = choose|b: int| 0 <= b < places@.len() && places@[b] == i as usize;
                assert(pv[b] == x);
                assert(pv.contains(x));
            }
        }
    }
    r
}

/// Groups references by target.
fn index_sites(sites: &Vec<Site>) -> (r: RefIndex)
    ensures
        indexes_sites(r@, views(sites@)),
{
    let ghost sv = views(sites@);
    let ghost tv = sv.map_values(|s: SiteView| s.target);
    let mut targets: Vec<String> = Vec::new();
    let mut i: usize = 0;
    while i < sites.len()
        invariant
            sv == views(sites@),
            tv == sv.map_values(|s: SiteView| s.target),
            i <= sites@.len(),
            targets@.len() == i,
            forall|b: int| 0 <= b < i ==> #[trigger] views(targets@)[b] == tv[b],
        decreases sites@.len() - i,
    {
        let ghost before = views(targets@);
        let s = &sites[i];
        targets.push(s.target.clone());
        proof {
            assert(views(targets@) =~= before.push(s.target@));
            assert(sv[i as int] == s@);
        }
        i += 1;
    }
    assert(views(targets@) =~= tv);
    let groups = grouped(&targets);
    let n: usize = groups.len();
    let ghost gk = keys(groups.listed());
    let mut out: RefIndex = Table::new();
    let mut e: usize = 0;
    while e < n
        invariant
            sv == views(sites@),
            tv == sv.map_values(|s: SiteView| s.target),
            n == groups.listed().len(),
            gk == keys(groups.listed()),
            groups@ == as_map(groups.listed()),
            ascending::<String>(gk),
            forall|k: Seq<char>| #[trigger] groups@.contains_key(k) <==> tv.contains(k),
            forall|k: Seq<char>| #[trigger]
                groups@.contains_key(k) ==> lists_places(groups@[k]@, tv, k),
            e <= n,
            forall|k: Seq<char>| #[trigger] out@.contains_key(k) <==> gk.take(e as int).contains(k),
            forall|k: Seq<char>| #[trigger]
                out@.contains_key(k) ==> ascending::<(String, u32)>(views(out@[k]@)) && forall|
                    x: (Seq<char>, u32),
                | #[trigger]
                    views(out@[k]@).contains(x) <==> exists|i: int|
                        {
                            &&& 0 <= i < sv.len()
                            &&& (#[trigger] sv[i]).target == k
                            &&& x == (sv[i].caller, sv[i].offset)
                        },
        decreases n - e,
    {
        let (key, places) = groups.entry(e);
        let list = sites_of(sites, places, Ghost(key@));
        let ghost before = out@;
        let ghost k0 = key@;
        out.insert(key.clone(), list);
        proof {
            assert(gk[e as int] == k0);
            assert forall|k: Seq<char>| #[trigger] out@.contains_key(k) <==> gk.take(
                e + 1,
            ).contains(k) by {
                lemma_take_contains(gk, e as int, k);
            }
        }
        e += 1;
    }
    proof {
        assert(gk.take(n as int) =~= gk);
        assert forall|k: Seq<char>| #[trigger] out@.contains_key(k) <==> exists|i: int|
            0 <= i < sv.len() && (#[trigger] sv[i]).target == k by {
            if out@.contains_key(k) {
                assert(gk.contains(k));
                assert(groups@.contains_key(k));
                let q = choose|q: int| 0 <= q < tv.len() && tv[q] == k;
                assert(sv[q].target == k);
            }
            if exists|i: int| 0 <= i < sv.len() && (#[trigger] sv[i]).target == k {
                let i = choose|i: int| 0 <= i < sv.len() && (#[trigger] sv[i]).target == k;
                assert(tv[i] == k);
                assert(groups@.contains_key(k));
                assert(gk.contains(k));
            }
        }
    }
    out
}

/// One more element of a prefix.
proof fn lemma_take_contains<A>(s: Seq<A>, e: int, x: A)
    requires
        0 <= e < s.len(),
    ensures
        s.take(e + 1).contains(x) <==> s.take(e).contains(x) || x == s[e],
{
    let a = s.take(e);
    let b = s.take(e + 1);
    if b.contains(x) {
        let i = choose|i: int| 0 <= i < b.len() && b[i] == x;
        if i < e {
            assert(a[i] == x);
        }
    }
    if a.contains(x) {
        let i = choose|i: int| 0 <= i < a.len() && a[i] == x;
        assert(b[i] == x);
    }
    assert(b[e] == s[e]);
}

/// For each method, the places that call it. Reports the classes processed.
pub fn build_dex_callers(
    bodies: &Vec<String>,
    kinds: &Vec<LeafKind>,
    progress: &mut XrefProgress,
) -> (r: RefIndex)
    ensures
        indexes_sites(r@, all_sites(RefKind::Invoke, kinds@, bodies@)),
        final(progress).current == class_count(kinds@, kinds@.len() as int),
        final(progress).label == old(progress).label,
        final(progress).total == old(progress).total,
{
    build_index(RefKind::Invoke, kinds, bodies, progress)
}

/// For each field, the places that read or write it. Reports the classes
/// processed.
pub fn build_dex_field_refs(
    bodies: &Vec<String>,
    kinds: &Vec<LeafKind>,
    progress: &mut XrefProgress,
) -> (r: RefIndex)
    ensures
        indexes_sites(r@, all_sites(RefKind::Field, kinds@, bodies@)),
        final(progress).current == class_count(kinds@, kinds@.len() as int),
        final(progress).label == old(progress).label,
        final(progress).total == old(progress).total,
{
    build_index(RefKind::Field, kinds, bodies, progress)
}

// ---- call index ------------------------------------------------------------

/// The distinct elements of `s`, in the order of their first occurrence.
pub open spec fn first_occurrences<A>(s: Seq<A>) -> Seq<A>
    decreases s.len(),
{
    if s.len() == 0 {
        s
    } else {
        let r = first_occurrences(s.drop_last());
        if r.contains(s.last()) {
            r
        } else {
            r.push(s.last())
        }
    }
}

/// What the first `n` sites refer to from method `k`, in order.
pub open spec fn targets_from(sites: Seq<SiteView>, k: Seq<char>, n: int) -> Seq<Seq<char>>
    decreases n,
{
    if n <= 0 {
        Seq::empty()
    } else if sites[n - 1].caller == k {
        targets_from(sites, k, n - 1).push(sites[n - 1].target)
    } else {
        targets_from(sites, k, n - 1)
    }
}

/// `m` maps each calling method to what it calls, each once, in the order of
/// the first call.
pub open spec fn indexes_calls(m: Map<Seq<char>, Vec<String>>, sites: Seq<SiteView>) -> bool {
    &&& forall|k: Seq<char>| #[trigger]
        m.contains_key(k) <==> exists|i: int| 0 <= i < sites.len() && (#[trigger] sites[i]).caller == k
    &&& forall|k: Seq<char>| #[trigger]
        m.contains_key(k) ==> strings(m[k]@) == first_occurrences(
            targets_from(sites, k, sites.len() as int),
        )
}

proof fn lemma_targets_skip(sites: Seq<SiteView>, k: Seq<char>, lo: int, hi: int)
    requires
        0 <= lo <= hi <= sites.len(),
        forall|i: int| lo <= i < hi ==> (#[trigger] sites[i]).caller != k,
    ensures
        targets_from(sites, k, lo) == targets_from(sites, k, hi),
    decreases hi - lo,
{
    if lo < hi {
        lemma_targets_skip(sites, k, lo, hi - 1);
    }
}

fn list_contains(v: &Vec<String>, s: &String) -> (r: bool)
    ensures
        r == strings(v@).contains(s@),
{
    let mut i: usize = 0;
    while i < v.len()
        invariant
            i <= v@.len(),
            forall|k: int| 0 <= k < i ==> (#[trigger] v@[k])@ != s@,
        decreases v@.len() - i,
    {
        if v[i] == *s {
            assert(strings(v@)[i as int] == s@);
            return true;
        }
        i += 1;
    }
    proof {
        if strings(v@).contains(s@) {
            let k = choose|k: int| 0 <= k < strings(v@).len() && strings(v@)[k] == s@;
            assert(v@[k]@ == s@);
        }
    }
    false
}

/// What the method with key `k` calls.
fn calls_of(sites: &Vec<Site>, places: &Vec<usize>, Ghost(k): Ghost<Seq<char>>) -> (r: Vec<String>)
    requires
        lists_places(places@, views(sites@).map_values(|s: SiteView| s.caller), k),
    ensures
        strings(r@) == first_occurrences(targets_from(views(sites@), k, sites@.len() as int)),
{
    let ghost sv = views(sites@);
    let ghost callers = sv.map_values(|s: SiteView| s.caller);
    let ghost mut upto: int = 0;
    let total: usize = sites.len();
    let mut r: Vec<String> = Vec::new();
    let mut a: usize = 0;
    assert(strings(r@) =~= first_occurrences(targets_from(sv, k, 0)));
    while a < places.len()
        invariant
            sv == views(sites@),
            callers == sv.map_values(|s: SiteView| s.caller),
            lists_places(places@, callers, k),
            total == sv.len(),
            a <= places@.len(),
            upto == (if a == 0 {
                0
            } else {
                places@[a - 1] + 1
            }),
            0 <= upto <= sv.len(),
            strings(r@) == first_occurrences(targets_from(sv, k, upto)),
        decreases places@.len() - a,
    {
        let i: usize = places[a];
        proof {
            assert(places@.contains(i));
            assert(callers[i as int] == sv[i as int].caller);
            lemma_gap(places@, callers, k, a as int);
            assert forall|j: int| upto <= j < i implies (#[trigger] sv[j]).caller != k by {
                assert(callers[j] == sv[j].caller);
            }
            lemma_targets_skip(sv, k, upto, i as int);
        }
        let s = &sites[i];
        assert(sv[i as int] == s@);
        let ghost so_far = targets_from(sv, k, i as int);
        proof {
            assert(targets_from(sv, k, i + 1) == so_far.push(s.target@));
            assert(so_far.push(s.target@).drop_last() =~= so_far);
        }
        if !list_contains(&r, &s.target) {
            let ghost before = strings(r@);
            r.push(s.target.clone());
            assert(strings(r@) =~= before.push(s.target@));
        }
        proof {
            upto = i + 1;
        }
        a += 1;
    }
    proof {
        lemma_gap(places@, callers, k, places@.len() as int);
        assert forall|j: int| upto <= j < sv.len() implies (#[trigger] sv[j]).caller != k by {
            assert(callers[j] == sv[j].caller);
        }
        lemma_targets_skip(sv, k, upto, sv.len() as int);
    }
    r
}

/// Between two listed places the key does not stand.
proof fn lemma_gap(places: Seq<usize>, all: Seq<Seq<char>>, k: Seq<char>, a: int)
    requires
        lists_places(places, all, k),
        0 <= a <= places.len(),
        all.len() <= usize::MAX,
    ensures
        ({
            let lo = if a == 0 {
                0
            } else {
                places[a - 1] + 1
            };
            let hi = if a == places.len() {
                all.len() as int
            } else {
                places[a] as int
            };
            &&& lo <= hi <= all.len()
            &&& forall|j: int| lo <= j < hi ==> #[trigger] all[j] != k
        }),
{
    let lo = if a == 0 {
        0
    } else {
        places[a - 1] + 1
    };
    let hi = if a == places.len() {
        all.len() as int
    } else {
        places[a] as int
    };
    if a > 0 {
        assert(places.contains(places[a - 1]));
    }
    if a < places.len() {
        assert(places.contains(places[a]));
    }
    assert forall|j: int| lo <= j < hi implies #[trigger] all[j] != k by {
        if all[j] == k {
            assert(places.contains(j as usize));
            let b = choose|b: int| 0 <= b < places.len() && places[b] == j as usize;
            if b < a - 1 {
                assert(places[b] < places[a - 1]);
            }
            if b > a && a < places.len() {
                assert(places[a] < places[b]);
            }
        }
    }
}

/// For each method, what it calls: each callee once, in the order of the first
/// call.
pub fn build_method_call_index(kinds: &Vec<LeafKind>, bodies: &Vec<String>) -> (r: Table<
    String,
    Vec<String>,
>)
    ensures
        indexes_calls(r@, all_sites(RefKind::Invoke, kinds@, bodies@)),
{
    let sites = scan_bundle(RefKind::Invoke, kinds, bodies);
    let ghost sv = views(sites@);
    let ghost cv = sv.map_values(|s: SiteView| s.caller);
    let mut callers: Vec<String> = Vec::new();
    let mut i: usize = 0;
    while i < sites.len()
        invariant
            sv == views(sites@),
            cv == sv.map_values(|s: SiteView| s.caller),
            i <= sites@.len(),
            callers@.len() == i,
            forall|b: int| 0 <= b < i ==> #[trigger] views(callers@)[b] == cv[b],
        decreases sites@.len() - i,
    {
        let ghost before = views(callers@);
        let s = &sites[i];
        callers.push(s.caller.clone());
        proof {
            assert(views(callers@) =~= before.push(s.caller@));
            assert(sv[i as int] == s@);
        }
        i += 1;
    }
    assert(views(callers@) =~= cv);
    let groups = grouped(&callers);
    let n: usize = groups.len();
    let ghost gk = keys(groups.listed());
    let mut out: Table<String, Vec<String>> = Table::new();
    let mut e: usize = 0;
    while e < n
        invariant
            sv == views(sites@),
            cv == sv.map_values(|s: SiteView| s.caller),
            n == groups.listed().len(),
            gk == keys(groups.listed()),
            groups@ == as_map(groups.listed()),
            ascending::<String>(gk),
            forall|k: Seq<char>| #[trigger] groups@.contains_key(k) <==> cv.contains(k),
            forall|k: Seq<char>| #[trigger]
                groups@.contains_key(k) ==> lists_places(groups@[k]@, cv, k),
            e <= n,
            forall|k: Seq<char>| #[trigger] out@.contains_key(k) <==> gk.take(e as int).contains(k),
            forall|k: Seq<char>| #[trigger]
                out@.contains_key(k) ==> strings(out@[k]@) == first_occurrences(
                    targets_from(sv, k, sv.len() as int),
                ),
        decreases n - e,
    {
        let (key, places) = groups.entry(e);
        let list = calls_of(&sites, places, Ghost(key@));
        let ghost k0 = key@;
        out.insert(key.clone(), list);
        proof {
            assert(gk[e as int] == k0);
            assert forall|k: Seq<char>| #[trigger] out@.contains_key(k) <==> gk.take(
                e + 1,
            ).contains(k) by {
                lemma_take_contains(gk, e as int, k);
            }
        }
        e += 1;
    }
    proof {
        assert(gk.take(n as int) =~= gk);
        assert forall|k: Seq<char>| #[trigger] out@.contains_key(k) <==> exists|i: int|
            0 <= i < sv.len() && (#[trigger] sv[i]).caller == k by {
            if out@.contains_key(k) {
                assert(gk.contains(k));
                assert(groups@.contains_key(k));
                let q = choose|q: int| 0 <= q < cv.len() && cv[q] == k;
                assert(sv[q].caller == k);
            }
            if exists|i: int| 0 <= i < sv.len() && (#[trigger] sv[i]).caller == k {
                let i = choose|i: int| 0 <= i < sv.len() && (#[trigger] sv[i]).caller == k;
                assert(cv[i] == k);
                assert(groups@.contains_key(k));
                assert(gk.contains(k));
            }
        }
    }
    out
}

/// The callee lists have no repeats and lose no callee.
pub proof fn law_first_occurrences<A>(s: Seq<A>)
    ensures
        first_occurrences(s).no_duplicates(),
        forall|x: A| #[trigger] first_occurrences(s).contains(x) <==> s.contains(x),
    decreases s.len(),
{
    if s.len() > 0 {
        law_first_occurrences(s.drop_last());
        let r = first_occurrences(s.drop_last());
        let f = first_occurrences(s);
        assert forall|x: A| #[trigger] f.contains(x) <==> s.contains(x) by {
            if f.contains(x) && x != s.last() {
                let i = choose|i: int| 0 <= i < f.len() && f[i] == x;
                assert(r.contains(x)) by {
                    assert(r[i] == x);
                }
                let j = choose|j: int| 0 <= j < s.drop_last().len() && s.drop_last()[j] == x;
                assert(s[j] == x);
            }
            if s.contains(x) {
                let j = choose|j: int| 0 <= j < s.len() && s[j] == x;
                if j < s.len() - 1 {
                    assert(s.drop_last()[j] == x);
                    assert(r.contains(x));
                    let i = choose|i: int| 0 <= i < r.len() && r[i] == x;
                    assert(f[i] == x);
                } else if !r.contains(x) {
                    assert(f[r.len() as int] == x);
                }
            }
        }
    }
}

proof fn lemma_targets_from(sites: Seq<SiteView>, k: Seq<char>, n: int, t: Seq<char>)
    requires
        0 <= n <= sites.len(),
    ensures
        targets_from(sites, k, n).contains(t) <==> exists|i: int|
            0 <= i < n && (#[trigger] sites[i]).caller == k && sites[i].target == t,
    decreases n,
{
    if n > 0 {
        lemma_targets_from(sites, k, n - 1, t);
        let a = targets_from(sites, k, n - 1);
        let b = targets_from(sites, k, n);
        if b.contains(t) {
            let i = choose|i: int| 0 <= i < b.len() && b[i] == t;
            if i < a.len() {
                assert(a[i] == t);
            } else {
                assert(sites[n - 1].caller == k && sites[n - 1].target == t);
            }
        }
        if a.contains(t) {
            let i = choose|i: int| 0 <= i < a.len() && a[i] == t;
            assert(b[i] == t);
        }
        if sites[n - 1].caller == k && sites[n - 1].target == t {
            assert(b[a.len() as int] == t);
        }
    }
}

/// The caller index inverts the call index: a method is listed among the
/// callers of another exactly if it lists that one among its callees.
pub proof fn law_callers_invert_calls(
    callers: Map<Seq<char>, Vec<(String, u32)>>,
    calls: Map<Seq<char>, Vec<String>>,
    sites: Seq<SiteView>,
    caller: Seq<char>,
    callee: Seq<char>,
)
    requires
        indexes_sites(callers, sites),
        indexes_calls(calls, sites),
    ensures
        (callers.contains_key(callee) && exists|off: u32| #[trigger]
            views(callers[callee]@).contains((caller, off))) <==> (calls.contains_key(caller)
            && strings(calls[caller]@).contains(callee)),
{
    lemma_targets_from(sites, caller, sites.len() as int, callee);
    law_first_occurrences(targets_from(sites, caller, sites.len() as int));
    if callers.contains_key(callee) && exists|off: u32| #[trigger]
        views(callers[callee]@).contains((caller, off)) {
        let off = choose|off: u32| #[trigger] views(callers[callee]@).contains((caller, off));
        let i = choose|i: int|
            {
                &&& 0 <= i < sites.len()
                &&& (#[trigger] sites[i]).target == callee
                &&& (caller, off) == (sites[i].caller, sites[i].offset)
            };
        assert(sites[i].caller == caller);
        assert(calls.contains_key(caller));
        let t = targets_from(sites, caller, sites.len() as int);
        assert(t.contains(callee));
        assert(first_occurrences(t).contains(callee));
    }
    if calls.contains_key(caller) && strings(calls[caller]@).contains(callee) {
        let t = targets_from(sites, caller, sites.len() as int);
        assert(first_occurrences(t).contains(callee));
        assert(t.contains(callee));
        let i = choose|i: int|
            0 <= i < sites.len() && (#[trigger] sites[i]).caller == caller && sites[i].target
                == callee;
        assert(sites[i].target == callee);
        assert(callers.contains_key(callee));
        assert(views(callers[callee]@).contains((caller, sites[i].offset)));
    }
}

// ---- declaration index -----------------------------------------------------

/// A declared method: its key, the leaf of its class, and the line.
#[verifier::ext_equal]
pub ghost struct DeclView {
    pub key: Seq<char>,
    pub leaf: int,
    pub line: int,
}

/// The methods declared in the first `n` lines of the body of leaf `leaf`.
pub open spec fn decls_in(class: Seq<char>, body: Seq<Seq<char>>, leaf: int, n: int) -> Seq<DeclView>
    decreases n,
{
    if n <= 0 {
        Seq::empty()
    } else {
        match declared(trimmed(body[n - 1])) {
            Some(decl) => decls_in(class, body, leaf, n - 1).push(
                DeclView { key: method_key(class, decl), leaf, line: n - 1 },
            ),
            None => decls_in(class, body, leaf, n - 1),
        }
    }
}

/// The methods declared in the first `n` leaves.
pub open spec fn decls_upto(kinds: Seq<LeafKind>, bodies: Seq<String>, n: int) -> Seq<DeclView>
    decreases n,
{
    if n <= 0 {
        Seq::empty()
    } else {
        decls_upto(kinds, bodies, n - 1) + match smali_class(kinds[n - 1]) {
            Some(class) => if n - 1 < bodies.len() {
                decls_in(
                    class,
                    lines(bodies[n - 1]@),
                    n - 1,
                    lines(bodies[n - 1]@).len() as int,
                )
            } else {
                Seq::empty()
            },
            None => Seq::empty(),
        }
    }
}

/// Whether the first declaration of `k` is in leaf `leaf` at line `line`.
pub open spec fn first_declared(decls: Seq<DeclView>, k: Seq<char>, leaf: int, line: int) -> bool {
    exists|i: int|
        {
            &&& 0 <= i < decls.len()
            &&& #[trigger] decls[i] == (DeclView { key: k, leaf, line })
            &&& forall|j: int| 0 <= j < i ==> (#[trigger] decls[j]).key != k
        }
}

/// `m` maps each declared method to its first declaration.
pub open spec fn indexes_decls(m: Map<Seq<char>, (LeafId, usize)>, decls: Seq<DeclView>) -> bool {
    &&& forall|k: Seq<char>| #[trigger]
        m.contains_key(k) <==> exists|i: int| 0 <= i < decls.len() && (#[trigger] decls[i]).key == k
    &&& forall|k: Seq<char>| #[trigger]
        m.contains_key(k) ==> first_declared(decls, k, m[k].0.0 as int, m[k].1 as int)
}

/// One declaration found in a body.
struct Decl {
    key: String,
    leaf: usize,
    line: usize,
}

impl View for Decl {
    type V = DeclView;

    closed spec fn view(&self) -> DeclView {
        DeclView { key: self.key@, leaf: self.leaf as int, line: self.line as int }
    }
}

fn scan_decls(class_jni: &String, body: &String, leaf: usize, out: &mut Vec<Decl>)
    ensures
        views(final(out)@) == views(old(out)@) + decls_in(
            class_jni@,
            lines(body@),
            leaf as int,
            lines(body@).len() as int,
        ),
{
    let ghost class = class_jni@;
    let ghost body_lines = lines(body@);
    let text = to_chars(body.as_str());
    let rows = split_lines(text.as_slice());
    let mut i: usize = 0;
    let ghost start = views(out@);
    assert(start + decls_in(class, body_lines, leaf as int, 0) =~= start);
    while i < rows.len()
        invariant
            class == class_jni@,
            body_lines == lines(body@),
            char_rows(rows@) == body_lines,
            i <= rows.len(),
            views(out@) == start + decls_in(class, body_lines, leaf as int, i as int),
        decreases rows.len() - i,
    {
        assert(char_rows(rows@)[i as int] == rows@[i as int]@);
        let t = trim_start(rows[i].as_slice());
        let (opens, decl) = read_declaration(&t);
        match decl {
            Some(d) => {
                let d = chars_to_string(&d);
                let key = join3(class_jni.as_str(), "->", d.as_str());
                let ghost before = views(out@);
                let item = Decl { key, leaf, line: i };
                let ghost view = item@;
                out.push(item);
                proof {
                    assert(views(out@) =~= before.push(view));
                    assert(views(out@) =~= start + decls_in(
                        class,
                        body_lines,
                        leaf as int,
                        i + 1,
                    ));
                }
            },
            None => {},
        }
        i += 1;
    }
}

/// For each method of the bundle's smali classes, its leaf and the line that
/// declares it; the first declaration counts.
pub fn build_method_line_index(kinds: &Vec<LeafKind>, bodies: &Vec<String>) -> (r: Table<
    String,
    (LeafId, usize),
>)
    ensures
        indexes_decls(r@, decls_upto(kinds@, bodies@, kinds@.len() as int)),
{
    let mut decls: Vec<Decl> = Vec::new();
    let mut i: usize = 0;
    assert(views(decls@) =~= Seq::empty());
    while i < kinds.len()
        invariant
            i <= kinds.len(),
            views(decls@) == decls_upto(kinds@, bodies@, i as int),
        decreases kinds.len() - i,
    {
        match &kinds[i] {
            LeafKind::SmaliClass { class_jni } => {
                if i < bodies.len() {
                    scan_decls(class_jni, &bodies[i], i, &mut decls);
                } else {
                    assert(views(decls@) =~= views(decls@) + Seq::empty());
                }
            },
            _ => {
                assert(views(decls@) =~= views(decls@) + Seq::empty());
            },
        }
        i += 1;
    }
    let ghost dv = views(decls@);
    let mut out: Table<String, (LeafId, usize)> = Table::new();
    let mut d: usize = 0;
    while d < decls.len()
        invariant
            dv == views(decls@),
            d <= decls@.len(),
            indexes_decls(out@, dv.take(d as int)),
        decreases decls@.len() - d,
    {
        let item = &decls[d];
        assert(dv[d as int] == item@);
        let ghost before = out@;
        let present = out.contains(&item.key);
        if !present {
            out.insert(item.key.clone(), (LeafId(item.leaf), item.line));
        }
        proof {
            let a = dv.take(d as int);
            let b = dv.take(d + 1);
            assert(b[d as int] == item@);
            assert forall|k: Seq<char>| #[trigger] out@.contains_key(k) <==> exists|i: int|
                0 <= i < b.len() && (#[trigger] b[i]).key == k by {
                if exists|i: int| 0 <= i < a.len() && (#[trigger] a[i]).key == k {
                    let i = choose|i: int| 0 <= i < a.len() && (#[trigger] a[i]).key == k;
                    assert(b[i].key == k);
                }
                if exists|i: int| 0 <= i < b.len() && (#[trigger] b[i]).key == k {
                    let i = choose|i: int| 0 <= i < b.len() && (#[trigger] b[i]).key == k;
                    if i < d {
                        assert(a[i].key == k);
                    }
                }
                assert(before.contains_key(k) <==> exists|i: int|
                    0 <= i < a.len() && (#[trigger] a[i]).key == k);
            }
            assert forall|k: Seq<char>| #[trigger] out@.contains_key(k) implies first_declared(
                b,
                k,
                out@[k].0.0 as int,
                out@[k].1 as int,
            ) by {
                if before.contains_key(k) {
                    assert(out@[k] == before[k]);
                    assert(first_declared(a, k, before[k].0.0 as int, before[k].1 as int));
                    let leaf = before[k].0.0 as int;
                    let line = before[k].1 as int;
                    let i = choose|i: int|
                        {
                            &&& 0 <= i < a.len()
                            &&& #[trigger] a[i] == (DeclView { key: k, leaf, line })
                            &&& forall|j: int| 0 <= j < i ==> (#[trigger] a[j]).key != k
                        };
                    assert(b[i] == a[i]);
                    assert forall|j: int| 0 <= j < i implies (#[trigger] b[j]).key != k by {
                        assert(b[j] == a[j]);
                    }
                } else {
                    assert(k == item.key@);
                    assert(b[d as int] == (DeclView {
                        key: k,
                        leaf: item.leaf as int,
                        line: item.line as int,
                    }));
                    assert forall|j: int| 0 <= j < d implies (#[trigger] b[j]).key != k by {
                        assert(a[j] == b[j]);
                    }
                }
            }
        }
        d += 1;
    }
    assert(dv.take(decls@.len() as int) =~= dv);
    out
}

} // verus!
