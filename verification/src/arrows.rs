//! Gutter arrows for the branches of a code section.
//!
//! An arrow leads from a direct branch to its target where both lie in the
//! same function. Arrows are placed in lanes so that, below 256 lanes, two
//! arrows of one lane never share a row: a lane's number is kept modulo 256.

use crate::listing::{
    decode_for_prepass, header_symbol, ArrowDirection, ArrowRole, ArrowSegment, ArrowStyle,
    Listing, WordInsn,
};
use crate::sections::TextSectionBytes;
use crate::symbols::SymbolMap;
use std::collections::HashMap;
use vstd::prelude::*;

verus! {

broadcast use vstd::std_specs::hash::group_hash_axioms;

/// An arrow that has no lane yet.
#[derive(Clone, Copy, Debug)]
pub struct PendingArrow {
    pub src_row: u32,
    pub tgt_row: u32,
    pub style: ArrowStyle,
}

impl PendingArrow {
    /// The upper end of the arrow.
    pub open spec fn lo(self) -> u32 {
        if self.src_row <= self.tgt_row {
            self.src_row
        } else {
            self.tgt_row
        }
    }

    /// The lower end of the arrow.
    pub open spec fn hi(self) -> u32 {
        if self.src_row <= self.tgt_row {
            self.tgt_row
        } else {
            self.src_row
        }
    }
}

// ---- which branches get an arrow -------------------------------------------

/// The line style of a direct branch, `None` for other instructions.
pub open spec fn branch_style(w: Option<WordInsn>) -> Option<ArrowStyle> {
    match w {
        None => None,
        Some(insn) => if insn.unconditional_branch {
            Some(ArrowStyle::Solid)
        } else if insn.conditional_branch {
            Some(ArrowStyle::Dotted)
        } else {
            None
        },
    }
}

impl Listing {
    /// Instructions `i` and `j` lie in one function: no symbol starts after the
    /// earlier one up to the later one.
    pub open spec fn same_function(self, i: int, j: int) -> bool {
        forall|k: int|
            (i < k <= j || j < k <= i) ==> !#[trigger] self.has_header(k)
    }

    /// The instruction that the direct branch `i` leads to, if that lies in the
    /// section.
    pub open spec fn branch_target(self, i: int) -> Option<int> {
        match self.words[i] {
            Some(insn) => match insn.address_operand {
                Some(target) => {
                    let off = target - self.text.base;
                    if off >= 0 && off % 4 == 0 && off / 4 < self.count() {
                        Some(off / 4)
                    } else {
                        None
                    }
                },
                None => None,
            },
            None => None,
        }
    }

    /// The arrow of instruction `i`: a direct branch to another instruction of
    /// its own function.
    pub open spec fn arrow_of(self, i: int) -> Option<PendingArrow> {
        match (branch_style(self.words[i]), self.branch_target(i)) {
            (Some(style), Some(t)) => if t != i && self.same_function(i, t) {
                Some(
                    PendingArrow {
                        src_row: self.insn_row(i) as u32,
                        tgt_row: self.insn_row(t) as u32,
                        style,
                    },
                )
            } else {
                None
            },
            _ => None,
        }
    }

    /// The arrows of the first `n` instructions, by source row.
    pub open spec fn arrows_upto(self, n: int) -> Seq<PendingArrow>
        decreases n,
    {
        if n <= 0 {
            Seq::empty()
        } else {
            match self.arrow_of(n - 1) {
                Some(a) => self.arrows_upto(n - 1).push(a),
                None => self.arrows_upto(n - 1),
            }
        }
    }

    /// All arrows of the section; variable-width sections have none.
    pub open spec fn arrows(self) -> Seq<PendingArrow> {
        if self.text.precomputed is Some {
            Seq::empty()
        } else {
            self.arrows_upto(self.count())
        }
    }

    /// How many of the instructions `0..=i` have a header.
    spec fn headers_through(self, i: int) -> int
        decreases i + 1,
    {
        if i < 0 {
            0
        } else {
            self.headers_through(i - 1) + if self.has_header(i) {
                1int
            } else {
                0int
            }
        }
    }

    proof fn lemma_headers_through(self, i: int, j: int)
        requires
            0 <= i <= j,
        ensures
            0 <= self.headers_through(i) <= i + 1,
            self.headers_through(i) <= self.headers_through(j),
            self.headers_through(i) == self.headers_through(j) <==> self.same_function(i, j),
            self.same_function(i, j) == self.same_function(j, i),
        decreases j,
    {
        if i < j {
            self.lemma_headers_through(i, j - 1);
            if self.same_function(i, j - 1) && !self.has_header(j) {
                assert(self.same_function(i, j));
            }
            if self.same_function(i, j) {
                assert(!self.has_header(j));
                assert(self.same_function(i, j - 1));
            }
        } else {
            assert(self.headers_through(-1) == 0);
            if j > 0 {
                self.lemma_headers_through(j - 1, j - 1);
            }
        }
    }
}

// ---- lanes -----------------------------------------------------------------

/// The first lane at or after `i` that is free from row `lo` on, or one past
/// the last.
pub open spec fn lane_for(free: Seq<u32>, lo: u32, i: int) -> int
    decreases free.len() - i,
{
    if i >= free.len() {
        free.len() as int
    } else if free[i] <= lo {
        i
    } else {
        lane_for(free, lo, i + 1)
    }
}

/// The rows from which lanes are free once arrow `a` was placed.
pub open spec fn lanes_after(free: Seq<u32>, a: PendingArrow) -> Seq<u32> {
    let lane = lane_for(free, a.lo(), 0);
    if lane < free.len() {
        free.update(lane, (a.hi() + 1) as u32)
    } else {
        free.push((a.hi() + 1) as u32)
    }
}

/// The rows from which lanes are free once the first `k` arrows were placed.
pub open spec fn lanes_upto(arrows: Seq<PendingArrow>, k: int) -> Seq<u32>
    decreases k,
{
    if k <= 0 {
        Seq::empty()
    } else {
        lanes_after(lanes_upto(arrows, k - 1), arrows[k - 1])
    }
}

/// The lane of arrow `k`.
pub open spec fn lane_of(arrows: Seq<PendingArrow>, k: int) -> int {
    lane_for(lanes_upto(arrows, k), arrows[k].lo(), 0)
}

/// What row `row` shows of arrow `k`. The lane is kept in eight bits; arrows in
/// lanes from `max_lanes` on are not drawn.
pub open spec fn segment_of(
    arrows: Seq<PendingArrow>,
    k: int,
    row: int,
    max_lanes: u8,
) -> Option<ArrowSegment> {
    let a = arrows[k];
    let lane = lane_of(arrows, k) % 256;
    if lane >= max_lanes || row < a.lo() || row > a.hi() {
        None
    } else {
        Some(
            ArrowSegment {
                lane: lane as u8,
                style: a.style,
                direction: if a.src_row < a.tgt_row {
                    ArrowDirection::Down
                } else {
                    ArrowDirection::Up
                },
                role: if row == a.src_row {
                    ArrowRole::Source
                } else if row == a.tgt_row {
                    ArrowRole::Target
                } else {
                    ArrowRole::Pass
                },
            },
        )
    }
}

/// What row `row` shows of the first `k` arrows.
pub open spec fn segments(
    arrows: Seq<PendingArrow>,
    k: int,
    row: int,
    max_lanes: u8,
) -> Seq<ArrowSegment>
    decreases k,
{
    if k <= 0 {
        Seq::empty()
    } else {
        match segment_of(arrows, k - 1, row, max_lanes) {
            Some(s) => segments(arrows, k - 1, row, max_lanes).push(s),
            None => segments(arrows, k - 1, row, max_lanes),
        }
    }
}

/// `m` holds what each row shows of the first `k` arrows, and an entry for just
/// the rows that show something.
pub open spec fn shows(
    m: Map<u32, Vec<ArrowSegment>>,
    arrows: Seq<PendingArrow>,
    k: int,
    max_lanes: u8,
) -> bool {
    forall|row: u32|
        {
            &&& #[trigger] m.contains_key(row) <==> segments(arrows, k, row as int, max_lanes).len()
                > 0
            &&& m.contains_key(row) ==> m[row]@ == segments(arrows, k, row as int, max_lanes)
        }
}

proof fn lemma_lane_for(free: Seq<u32>, lo: u32, i: int)
    requires
        0 <= i <= free.len(),
    ensures
        i <= lane_for(free, lo, i) <= free.len(),
        lane_for(free, lo, i) < free.len() ==> free[lane_for(free, lo, i)] <= lo,
    decreases free.len() - i,
{
    if i < free.len() && free[i] > lo {
        lemma_lane_for(free, lo, i + 1);
    }
}

/// A lane is free only below every arrow already placed in it.
proof fn lemma_lane_is_clear(arrows: Seq<PendingArrow>, k: int, m: int)
    requires
        0 <= k < m <= arrows.len(),
        forall|i: int| 0 <= i < arrows.len() ==> (#[trigger] arrows[i]).hi() < u32::MAX,
    ensures
        0 <= lane_of(arrows, k) < lanes_upto(arrows, m).len(),
        arrows[k].hi() < lanes_upto(arrows, m)[lane_of(arrows, k)],
    decreases m,
{
    let lane = lane_of(arrows, k);
    let before = lanes_upto(arrows, m - 1);
    lemma_lane_for(before, arrows[m - 1].lo(), 0);
    if m - 1 > k {
        lemma_lane_is_clear(arrows, k, m - 1);
    }
}

/// Two arrows of one lane never share a row.
pub proof fn law_lanes_do_not_cross(arrows: Seq<PendingArrow>, k: int, m: int)
    requires
        0 <= k < m < arrows.len(),
        forall|i: int| 0 <= i < arrows.len() ==> (#[trigger] arrows[i]).hi() < u32::MAX,
        lane_of(arrows, k) == lane_of(arrows, m),
    ensures
        arrows[k].hi() < arrows[m].lo(),
{
    lemma_lane_is_clear(arrows, k, m);
    lemma_lane_for(lanes_upto(arrows, m), arrows[m].lo(), 0);
}

/// An arrow that is drawn has its source segment on the row of the branch and
/// its target segment on the row of the target instruction.
pub proof fn law_arrows_sit_on_their_rows(l: Listing, i: int, t: int, k: int, max_lanes: u8)
    requires
        l.valid(),
        l.bare_rows().len() <= u32::MAX,
        0 <= i < l.count(),
        l.branch_target(i) == Some(t),
        l.arrow_of(i) is Some,
        0 <= k < l.arrows().len(),
        l.arrows()[k] == l.arrow_of(i)->0,
        lane_of(l.arrows(), k) % 256 < max_lanes,
    ensures
        segment_of(l.arrows(), k, l.insn_row(i), max_lanes) is Some,
        segment_of(l.arrows(), k, l.insn_row(i), max_lanes)->0.role == ArrowRole::Source,
        segment_of(l.arrows(), k, l.insn_row(t), max_lanes) is Some,
        segment_of(l.arrows(), k, l.insn_row(t), max_lanes)->0.role == ArrowRole::Target,
{
    l.lemma_insn_row(i, l.count());
    l.lemma_insn_row(t, l.count());
    if i < t {
        l.lemma_start_monotonic(i, t);
    } else {
        l.lemma_start_monotonic(t, i);
    }
}

// ---- building --------------------------------------------------------------

/// Appends `seg` to the segments of row `row`.
fn add_segment(m: &mut HashMap<u32, Vec<ArrowSegment>>, row: u32, seg: ArrowSegment)
    ensures
        final(m)@.dom() == old(m)@.dom().insert(row),
        final(m)@[row]@ == (if old(m)@.contains_key(row) {
            old(m)@[row]@
        } else {
            Seq::empty()
        }).push(seg),
        forall|r: u32| r != row && #[trigger] old(m)@.contains_key(r) ==> final(m)@[r] == old(m)@[r],
{
    let mut list: Vec<ArrowSegment> = match m.remove(&row) {
        Some(list) => list,
        None => Vec::new(),
    };
    list.push(seg);
    m.insert(row, list);
    assert(m@.dom() =~= old(m)@.dom().insert(row));
}

/// Places the arrows in lanes and notes on each row what it shows of them.
fn place_arrows(arrows: &Vec<PendingArrow>, max_lanes: u8) -> (out: HashMap<u32, Vec<ArrowSegment>>)
    requires
        forall|i: int| 0 <= i < arrows@.len() ==> (#[trigger] arrows@[i]).hi() < u32::MAX,
    ensures
        shows(out@, arrows@, arrows@.len() as int, max_lanes),
{
    let mut out: HashMap<u32, Vec<ArrowSegment>> = HashMap::new();
    let mut free: Vec<u32> = Vec::new();
    let mut k: usize = 0;
    while k < arrows.len()
        invariant
            forall|i: int| 0 <= i < arrows@.len() ==> (#[trigger] arrows@[i]).hi() < u32::MAX,
            k <= arrows@.len(),
            free@ == lanes_upto(arrows@, k as int),
            shows(out@, arrows@, k as int, max_lanes),
        decreases arrows@.len() - k,
    {
        let a = arrows[k];
        assert(a == arrows@[k as int]);
        let (lo, hi): (u32, u32) = if a.src_row <= a.tgt_row {
            (a.src_row, a.tgt_row)
        } else {
            (a.tgt_row, a.src_row)
        };
        let mut lane: usize = 0;
        while lane < free.len() && free[lane] > lo
            invariant
                lane <= free@.len(),
                lane_for(free@, lo, 0) == lane_for(free@, lo, lane as int),
            decreases free@.len() - lane,
        {
            lane += 1;
        }
        if lane < free.len() {
            free.set(lane, hi + 1);
        } else {
            free.push(hi + 1);
        }
        assert(lane == lane_of(arrows@, k as int));
        let lane8: u8 = (lane % 256) as u8;
        if lane8 < max_lanes {
            let direction = if a.src_row < a.tgt_row {
                ArrowDirection::Down
            } else {
                ArrowDirection::Up
            };
            let ghost start = out@;
            let mut row: u32 = lo;
            while row <= hi
                invariant
                    lo <= row <= hi + 1,
                    hi < u32::MAX,
                    lo == a.lo(),
                    hi == a.hi(),
                    k < arrows@.len(),
                    a == arrows@[k as int],
                    lane8 == lane_of(arrows@, k as int) % 256,
                    lane8 < max_lanes,
                    direction == (if a.src_row < a.tgt_row {
                        ArrowDirection::Down
                    } else {
                        ArrowDirection::Up
                    }),
                    shows(start, arrows@, k as int, max_lanes),
                    forall|r: u32|
                        lo <= r < row ==> #[trigger] out@.contains_key(r) && out@[r]@ == segments(
                            arrows@,
                            k + 1,
                            r as int,
                            max_lanes,
                        ),
                    forall|r: u32|
                        !(lo <= r < row) ==> (#[trigger] out@.contains_key(r)
                            <==> start.contains_key(r)) && (start.contains_key(r) ==> out@[r]
                            == start[r]),
                decreases hi + 1 - row,
            {
                let role = if row == a.src_row {
                    ArrowRole::Source
                } else if row == a.tgt_row {
                    ArrowRole::Target
                } else {
                    ArrowRole::Pass
                };
                let seg = ArrowSegment { lane: lane8, style: a.style, direction, role };
                let ghost before = out@;
                add_segment(&mut out, row, seg);
                proof {
                    assert(segment_of(arrows@, k as int, row as int, max_lanes) == Some(seg));
                    assert(before.contains_key(row) <==> start.contains_key(row));
                    assert(out@[row]@ =~= segments(arrows@, k + 1, row as int, max_lanes));
                    assert forall|r: u32| r != row && !(lo <= r < row) implies (
                    #[trigger] out@.contains_key(r) <==> start.contains_key(r)) && (
                    start.contains_key(r) ==> out@[r] == start[r]) by {
                        assert(out@.dom().contains(r) <==> before.dom().contains(r));
                        assert(before.contains_key(r) <==> start.contains_key(r));
                    }
                    assert forall|r: u32| lo <= r < row implies #[trigger] out@.contains_key(r)
                        && out@[r]@ == segments(arrows@, k + 1, r as int, max_lanes) by {
                        assert(before.contains_key(r));
                        assert(out@.dom().contains(r));
                    }
                    assert(out@.dom().contains(row));
                }
                row += 1;
            }
            proof {
                assert forall|r: u32|
                    {
                        &&& #[trigger] out@.contains_key(r) <==> segments(
                            arrows@,
                            k + 1,
                            r as int,
                            max_lanes,
                        ).len() > 0
                        &&& out@.contains_key(r) ==> out@[r]@ == segments(
                            arrows@,
                            k + 1,
                            r as int,
                            max_lanes,
                        )
                    } by {
                    if lo <= r <= hi {
                        assert(segment_of(arrows@, k as int, r as int, max_lanes) is Some);
                    } else {
                        assert(segment_of(arrows@, k as int, r as int, max_lanes) is None);
                        assert(start.contains_key(r) <==> segments(
                            arrows@,
                            k as int,
                            r as int,
                            max_lanes,
                        ).len() > 0);
                    }
                }
            }
        } else {
            proof {
                assert forall|r: u32|
                    {
                        &&& #[trigger] out@.contains_key(r) <==> segments(
                            arrows@,
                            k + 1,
                            r as int,
                            max_lanes,
                        ).len() > 0
                        &&& out@.contains_key(r) ==> out@[r]@ == segments(
                            arrows@,
                            k + 1,
                            r as int,
                            max_lanes,
                        )
                    } by {
                    assert(segment_of(arrows@, k as int, r as int, max_lanes) is None);
                }
            }
        }
        k += 1;
    }
    out
}

/// The arrows of a fixed-width section, in the order of their source rows.
fn collect_arrows(text: &TextSectionBytes, symbols: &SymbolMap, words: &Vec<Option<WordInsn>>) -> (out:
    Vec<PendingArrow>)
    requires
        (Listing { text: *text, syms: symbols@, words: words@ }).valid(),
        (Listing { text: *text, syms: symbols@, words: words@ }).bare_rows().len() <= u32::MAX,
        text.precomputed is None,
    ensures
        out@ == (Listing { text: *text, syms: symbols@, words: words@ }).arrows(),
        forall|i: int| 0 <= i < out@.len() ==> (#[trigger] out@[i]).hi() < u32::MAX,
{
    let ghost l = Listing { text: *text, syms: symbols@, words: words@ };
    let n: usize = text.instruction_count();
    let mut insn_to_row: Vec<u32> = Vec::new();
    let mut function: Vec<usize> = Vec::new();
    let mut row: u32 = 0;
    let mut headers: usize = 0;
    let mut i: usize = 0;
    while i < n
        invariant
            l == (Listing { text: *text, syms: symbols@, words: words@ }),
            l.valid(),
            l.bare_rows().len() <= u32::MAX,
            text.precomputed is None,
            n == l.count(),
            i <= n,
            insn_to_row@.len() == i,
            function@.len() == i,
            row == l.start(i as int),
            headers == l.headers_through(i - 1),
            headers <= i,
            forall|k: int| 0 <= k < i ==> #[trigger] insn_to_row@[k] == l.insn_row(k),
            forall|k: int| 0 <= k < i ==> #[trigger] function@[k] == l.headers_through(k),
        decreases n - i,
    {
        proof {
            l.lemma_start(i as int);
            l.lemma_start_monotonic(i + 1, n as int);
        }
        let addr = text.addr_of(i);
        if header_symbol(symbols, addr).is_some() {
            row += 1;
            headers += 1;
        }
        insn_to_row.push(row);
        function.push(headers);
        row += 1;
        let facts = decode_for_prepass(&words[i]);
        if facts.0 {
            row += 1;
        }
        i += 1;
    }
    let mut out: Vec<PendingArrow> = Vec::new();
    let mut j: usize = 0;
    while j < n
        invariant
            l == (Listing { text: *text, syms: symbols@, words: words@ }),
            l.valid(),
            l.bare_rows().len() <= u32::MAX,
            text.precomputed is None,
            n == l.count(),
            j <= n,
            insn_to_row@.len() == n,
            function@.len() == n,
            forall|k: int| 0 <= k < n ==> #[trigger] insn_to_row@[k] == l.insn_row(k),
            forall|k: int| 0 <= k < n ==> #[trigger] function@[k] == l.headers_through(k),
            out@ == l.arrows_upto(j as int),
            forall|i: int| 0 <= i < out@.len() ==> (#[trigger] out@[i]).hi() < u32::MAX,
        decreases n - j,
    {
        let mut style: Option<ArrowStyle> = None;
        let mut target: Option<u64> = None;
        match &words[j] {
            Some(insn) => {
                if insn.unconditional_branch {
                    style = Some(ArrowStyle::Solid);
                } else if insn.conditional_branch {
                    style = Some(ArrowStyle::Dotted);
                }
                target = insn.address_operand;
            },
            None => {},
        }
        assert(style == branch_style(words@[j as int]));
        if let (Some(style), Some(target)) = (style, target) {
            if target >= text.base && (target - text.base) % 4 == 0 && (target - text.base) / 4
                < n as u64 {
                let t: usize = ((target - text.base) / 4) as usize;
                assert(l.branch_target(j as int) == Some(t as int));
                proof {
                    if j <= t {
                        l.lemma_headers_through(j as int, t as int);
                    } else {
                        l.lemma_headers_through(t as int, j as int);
                    }
                    l.lemma_insn_row(j as int, n as int);
                    l.lemma_insn_row(t as int, n as int);
                }
                if t != j && function[t] == function[j] {
                    out.push(
                        PendingArrow {
                            src_row: insn_to_row[j],
                            tgt_row: insn_to_row[t],
                            style,
                        },
                    );
                }
            }
        }
        j += 1;
    }
    out
}

/// What each row shows of the section's arrows.
#[verifier::rlimit(60)]
pub fn build_section_arrows(
    text: &TextSectionBytes,
    symbols: &SymbolMap,
    words: &Vec<Option<WordInsn>>,
    max_lanes: u8,
) -> (out: HashMap<u32, Vec<ArrowSegment>>)
    requires
        (Listing { text: *text, syms: symbols@, words: words@ }).valid(),
        (Listing { text: *text, syms: symbols@, words: words@ }).bare_rows().len() <= u32::MAX,
    ensures
        ({
            let arrows = (Listing { text: *text, syms: symbols@, words: words@ }).arrows();
            shows(out@, arrows, arrows.len() as int, max_lanes)
        }),
{
    if text.precomputed.is_some() {
        let out: HashMap<u32, Vec<ArrowSegment>> = HashMap::new();
        return out;
    }
    let pending = collect_arrows(text, symbols, words);
    place_arrows(&pending, max_lanes)
}

} // verus!
