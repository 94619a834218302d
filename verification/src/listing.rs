//! Disassembly listing rows.
//!
//! Each instruction contributes a symbol header if a symbol starts at it, its
//! own row, and a separator if it ends a basic block.

use crate::sections::TextSectionBytes;
use crate::symbols::{count_below, symbol_starts_at, Symbol, SymbolMap};
use std::sync::Arc;
use vstd::prelude::*;

verus! {

/// Register class of an operand, as far as page-base tracking cares.
#[derive(Clone, Copy, Debug, PartialEq, Eq, Structural)]
pub enum RegisterClass {
    X,
    XOrSp,
    Other,
}

/// One operand of a decoded AArch64 word.
#[derive(Clone, Copy, Debug, PartialEq, Eq, Structural)]
pub enum WordOperand {
    Register { class: RegisterClass, index: u8 },
    BranchTarget(u64),
    Other,
}

/// What the listing needs to know of one decoded AArch64 word.
#[derive(Debug)]
pub struct WordInsn {
    /// Control never falls through to the next instruction.
    pub terminator: bool,
    /// The instruction loads a page address.
    pub adrp: bool,
    pub unconditional_branch: bool,
    pub conditional_branch: bool,
    pub operands: Vec<WordOperand>,
    /// The address operand that the instruction is about, if any.
    pub address_operand: Option<u64>,
    /// The address that this instruction completes together with earlier ones.
    pub fused_target: Option<u64>,
}

/// The index of the first 64-bit register operand from position `i` on.
pub open spec fn first_x_register(ops: Seq<WordOperand>, i: int) -> Option<u8>
    decreases ops.len() - i,
{
    if i >= ops.len() {
        None
    } else {
        match ops[i] {
            WordOperand::Register { class, index } => if class != RegisterClass::Other {
                Some(index)
            } else {
                first_x_register(ops, i + 1)
            },
            _ => first_x_register(ops, i + 1),
        }
    }
}

/// The first branch target operand from position `i` on.
pub open spec fn first_target(ops: Seq<WordOperand>, i: int) -> Option<u64>
    decreases ops.len() - i,
{
    if i >= ops.len() {
        None
    } else {
        match ops[i] {
            WordOperand::BranchTarget(a) => Some(a),
            _ => first_target(ops, i + 1),
        }
    }
}

/// What the row count and the page-base tracking read of a word: whether it
/// ends a block, its destination register, whether it loads a page address, and
/// that address.
pub open spec fn prepass_facts(w: Option<WordInsn>) -> (bool, Option<u8>, bool, Option<u64>) {
    match w {
        None => (false, None, false, None),
        Some(insn) => (
            insn.terminator,
            first_x_register(insn.operands@, 0),
            insn.adrp,
            if insn.adrp {
                first_target(insn.operands@, 0)
            } else {
                None
            },
        ),
    }
}

/// Reads those facts off a decoded word; a word that does not decode has none.
pub fn decode_for_prepass(w: &Option<WordInsn>) -> (r: (bool, Option<u8>, bool, Option<u64>))
    ensures
        r == prepass_facts(*w),
{
    let insn = match w {
        None => {
            return (false, None, false, None);
        },
        Some(insn) => insn,
    };
    let ops = &insn.operands;
    let mut dest: Option<u8> = None;
    let mut i: usize = 0;
    while i < ops.len() && dest.is_none()
        invariant
            i <= ops@.len(),
            dest is None ==> first_x_register(ops@, 0) == first_x_register(ops@, i as int),
            dest is Some ==> first_x_register(ops@, 0) == dest,
        decreases ops@.len() - i,
    {
        match ops[i] {
            WordOperand::Register { class, index } => {
                if class != RegisterClass::Other {
                    dest = Some(index);
                }
            },
            _ => {},
        }
        i += 1;
    }
    let mut page: Option<u64> = None;
    if insn.adrp {
        let mut k: usize = 0;
        while k < ops.len() && page.is_none()
            invariant
                k <= ops@.len(),
                page is None ==> first_target(ops@, 0) == first_target(ops@, k as int),
                page is Some ==> first_target(ops@, 0) == page,
            decreases ops@.len() - k,
        {
            match ops[k] {
                WordOperand::BranchTarget(a) => {
                    page = Some(a);
                },
                _ => {},
            }
            k += 1;
        }
    }
    (insn.terminator, dest, insn.adrp, page)
}

// ---- gutter arrows ---------------------------------------------------------

/// Line style of an arrow: solid for unconditional branches.
#[derive(Clone, Copy, Debug, PartialEq, Eq, Structural)]
pub enum ArrowStyle {
    Solid,
    Dotted,
}

/// Whether an arrow points down or up the listing.
#[derive(Clone, Copy, Debug, PartialEq, Eq, Structural)]
pub enum ArrowDirection {
    Down,
    Up,
}

/// What part of an arrow a row shows.
#[derive(Clone, Copy, Debug, PartialEq, Eq, Structural)]
pub enum ArrowRole {
    Source,
    Target,
    Pass,
}

/// The part of one arrow that one row shows.
#[derive(Clone, Copy, Debug, PartialEq, Eq, Structural)]
pub struct ArrowSegment {
    pub lane: u8,
    pub style: ArrowStyle,
    pub direction: ArrowDirection,
    pub role: ArrowRole,
}

// ---- rows ------------------------------------------------------------------

/// One row of a listing.
#[derive(Debug)]
pub enum ListingRow {
    /// A symbol starts at the instruction below.
    SymbolHeader { address: u64, name: String },
    /// One instruction.
    Instruction { address: u64, arrows: Arc<Vec<ArrowSegment>> },
    /// The instruction above ended a basic block.
    BasicBlockSeparator { arrows: Arc<Vec<ArrowSegment>> },
}

/// What a listing row shows.
#[verifier::ext_equal]
pub ghost enum ListingRowView {
    SymbolHeader { address: int, name: Seq<char> },
    Instruction { address: int, arrows: Seq<ArrowSegment> },
    BasicBlockSeparator { arrows: Seq<ArrowSegment> },
}

impl View for ListingRow {
    type V = ListingRowView;

    open spec fn view(&self) -> ListingRowView {
        match self {
            ListingRow::SymbolHeader { address, name } => ListingRowView::SymbolHeader {
                address: *address as int,
                name: name@,
            },
            ListingRow::Instruction { address, arrows } => ListingRowView::Instruction {
                address: *address as int,
                arrows: arrows@,
            },
            ListingRow::BasicBlockSeparator { arrows } => ListingRowView::BasicBlockSeparator {
                arrows: arrows@,
            },
        }
    }
}

/// The views of a sequence of listing rows.
pub open spec fn listing_views(rows: Seq<ListingRow>) -> Seq<ListingRowView> {
    rows.map_values(|r: ListingRow| r@)
}

/// A row before arrows are drawn.
pub ghost enum BareRow {
    Header(Symbol),
    Insn(int),
    Separator,
}

/// The row with the arrow segments that belong on it; headers show none.
pub open spec fn drawn(row: BareRow, segments: Seq<ArrowSegment>) -> ListingRowView {
    match row {
        BareRow::Header(s) => ListingRowView::SymbolHeader {
            address: s.address as int,
            name: s.display_name@,
        },
        BareRow::Insn(a) => ListingRowView::Instruction { address: a, arrows: segments },
        BareRow::Separator => ListingRowView::BasicBlockSeparator { arrows: segments },
    }
}

/// A code section with its symbols and decoded words.
pub ghost struct Listing {
    pub text: TextSectionBytes,
    pub syms: Seq<Symbol>,
    pub words: Seq<Option<WordInsn>>,
}

impl Listing {
    /// Number of instructions.
    pub open spec fn count(self) -> int {
        self.text.insn_count()
    }

    /// There is one decoded word per instruction, and addresses fit.
    pub open spec fn valid(self) -> bool {
        &&& self.text.fits()
        &&& self.words.len() == self.count()
        &&& crate::symbols::address_ordered(self.syms)
    }

    /// Address of instruction `i`.
    pub open spec fn addr(self, i: int) -> u64 {
        self.text.insn_addr(i) as u64
    }

    /// Whether a symbol starts at instruction `i`, directly or with the Thumb
    /// marker bit set.
    pub open spec fn has_header(self, i: int) -> bool {
        symbol_starts_at(self.syms, self.addr(i)) || symbol_starts_at(self.syms, self.addr(i) | 1)
    }

    /// The symbol announced above instruction `i`.
    pub open spec fn header(self, i: int) -> Symbol {
        if symbol_starts_at(self.syms, self.addr(i)) {
            self.syms[count_below(self.syms, self.addr(i) as int)]
        } else {
            self.syms[count_below(self.syms, (self.addr(i) | 1) as int)]
        }
    }

    /// Whether instruction `i` ends a basic block.
    pub open spec fn ends_block(self, i: int) -> bool {
        match self.text.precomputed {
            Some(p) => p@[i].terminator,
            None => prepass_facts(self.words[i]).0,
        }
    }

    /// The rows of instruction `i`.
    pub open spec fn rows_of(self, i: int) -> Seq<BareRow> {
        let head = if self.has_header(i) {
            seq![BareRow::Header(self.header(i))]
        } else {
            Seq::empty()
        };
        let tail = if self.ends_block(i) {
            seq![BareRow::Separator]
        } else {
            Seq::empty()
        };
        head + seq![BareRow::Insn(self.addr(i) as int)] + tail
    }

    /// The rows of the first `n` instructions.
    pub open spec fn rows_upto(self, n: int) -> Seq<BareRow>
        decreases n,
    {
        if n <= 0 {
            Seq::empty()
        } else {
            self.rows_upto(n - 1) + self.rows_of(n - 1)
        }
    }

    /// All rows, before arrows are drawn.
    pub open spec fn bare_rows(self) -> Seq<BareRow> {
        self.rows_upto(self.count())
    }

    /// The first row of instruction `i`.
    pub open spec fn start(self, i: int) -> int {
        self.rows_upto(i).len() as int
    }

    /// The row of instruction `i` itself.
    pub open spec fn insn_row(self, i: int) -> int {
        self.start(i) + if self.has_header(i) {
            1int
        } else {
            0int
        }
    }

    /// How many of the first `n` instructions have a header.
    pub open spec fn header_count(self, n: int) -> int
        decreases n,
    {
        if n <= 0 {
            0
        } else {
            self.header_count(n - 1) + if self.has_header(n - 1) {
                1int
            } else {
                0int
            }
        }
    }

    /// How many of the first `n` instructions end a basic block.
    pub open spec fn block_count(self, n: int) -> int
        decreases n,
    {
        if n <= 0 {
            0
        } else {
            self.block_count(n - 1) + if self.ends_block(n - 1) {
                1int
            } else {
                0int
            }
        }
    }

    /// The rows are the instructions, the headers and the separators.
    pub proof fn law_row_total(self, n: int)
        requires
            0 <= n,
        ensures
            self.start(n) == n + self.header_count(n) + self.block_count(n),
        decreases n,
    {
        if n > 0 {
            self.law_row_total(n - 1);
        }
    }

    /// A symbol that starts at no instruction (in another section, or between
    /// two instructions) moves no row.
    pub proof fn law_foreign_symbols_move_nothing(self, other: Listing, n: int)
        requires
            0 <= n,
            self.text == other.text,
            self.words == other.words,
            forall|i: int| 0 <= i <= n ==> #[trigger] self.has_header(i) == other.has_header(i),
        ensures
            self.start(n) == other.start(n),
            self.insn_row(n) == other.insn_row(n),
        decreases n,
    {
        assert(self.has_header(n) == other.has_header(n));
        if n > 0 {
            self.law_foreign_symbols_move_nothing(other, n - 1);
            assert(self.ends_block(n - 1) == other.ends_block(n - 1));
        }
    }

    /// Each instruction has one to three rows.
    pub proof fn lemma_start(self, i: int)
        requires
            0 <= i,
        ensures
            i <= self.start(i) <= 3 * i,
            self.start(i) < self.start(i + 1),
            self.start(i) <= self.insn_row(i) < self.start(i + 1),
            self.start(i + 1) == self.insn_row(i) + 1 + if self.ends_block(i) {
                1int
            } else {
                0int
            },
        decreases i,
    {
        if i > 0 {
            self.lemma_start(i - 1);
        }
    }

    /// Starts increase with the instruction.
    pub proof fn lemma_start_monotonic(self, i: int, j: int)
        requires
            0 <= i <= j,
        ensures
            self.start(i) <= self.start(j),
            i < j ==> self.start(i) < self.start(j) && self.insn_row(i) < self.start(j)
                && self.insn_row(i) < self.insn_row(j),
            self.rows_upto(j).subrange(0, self.start(i)) == self.rows_upto(i),
        decreases j - i,
    {
        if i < j {
            self.lemma_start_monotonic(i, j - 1);
            self.lemma_start(j - 1);
            self.lemma_start(i);
            self.lemma_start(j);
            assert(self.rows_upto(j).subrange(0, self.start(i)) =~= self.rows_upto(
                j - 1,
            ).subrange(0, self.start(i)));
        } else {
            assert(self.rows_upto(j).subrange(0, self.start(i)) =~= self.rows_upto(i));
        }
    }

    /// The rows of instruction `i` stand at its start.
    pub proof fn lemma_rows_at(self, i: int, n: int, k: int)
        requires
            0 <= i < n,
            0 <= k < self.rows_of(i).len(),
        ensures
            self.start(i) + k < self.start(n),
            self.rows_upto(n)[self.start(i) + k] == self.rows_of(i)[k],
            self.start(i + 1) == self.start(i) + self.rows_of(i).len(),
    {
        self.lemma_start_monotonic(i + 1, n);
        let part = self.rows_upto(i + 1);
        assert(self.rows_upto(n).subrange(0, part.len() as int)[self.start(i) + k]
            == self.rows_upto(n)[self.start(i) + k]);
        assert(part[self.start(i) + k] == self.rows_of(i)[k]);
    }

    /// The row of an instruction shows it.
    pub proof fn lemma_insn_row(self, i: int, n: int)
        requires
            0 <= i < n,
        ensures
            self.insn_row(i) < self.start(n),
            self.rows_upto(n)[self.insn_row(i)] == BareRow::Insn(self.addr(i) as int),
    {
        self.lemma_start(i);
        self.lemma_rows_at(i, n, self.insn_row(i) - self.start(i));
    }

    /// The instruction to which row `g` belongs.
    pub proof fn lemma_insn_above(self, n: int, g: int) -> (i: int)
        requires
            0 <= n,
            0 <= g < self.start(n),
        ensures
            0 <= i < n,
            self.start(i) <= g < self.start(i + 1),
            self.rows_upto(n)[g] is Insn ==> g == self.insn_row(i),
        decreases n,
    {
        if g < self.start(n - 1) {
            self.lemma_start_monotonic(n - 1, n);
            assert(self.rows_upto(n).subrange(0, self.start(n - 1))[g] == self.rows_upto(n)[g]);
            self.lemma_insn_above(n - 1, g)
        } else {
            let k = g - self.start(n - 1);
            self.lemma_rows_at(n - 1, n, k);
            n - 1
        }
    }
}

/// The symbol announced above the instruction at `addr`, if one is.
pub fn header_symbol<'a>(symbols: &'a SymbolMap, addr: u64) -> (r: Option<&'a Symbol>)
    ensures
        match r {
            Some(s) => if symbol_starts_at(symbols@, addr) {
                *s == symbols@[count_below(symbols@, addr as int)]
            } else {
                symbol_starts_at(symbols@, addr | 1) && *s == symbols@[count_below(
                    symbols@,
                    (addr | 1) as int,
                )]
            },
            None => !symbol_starts_at(symbols@, addr) && !symbol_starts_at(symbols@, addr | 1),
        },
{
    let direct = symbols.at(addr);
    match direct {
        Some(s) => {
            assert(symbols@[count_below(symbols@, addr as int)].address == addr);
            direct
        },
        None => {
            let marked = symbols.at(addr | 1);
            match marked {
                Some(s) => {
                    assert(symbols@[count_below(symbols@, (addr | 1) as int)].address == addr | 1);
                },
                None => {},
            }
            marked
        },
    }
}

} // verus!
