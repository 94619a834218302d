//! Native sections: their kinds, their bytes and their instructions.

use std::sync::Arc;
use vstd::prelude::*;

verus! {

/// Instruction set of a native artifact.
#[derive(Clone, Copy, Debug, PartialEq, Eq, Structural)]
pub enum Architecture {
    Aarch64,
    Arm,
    X86,
    X86_64,
    Other,
}

/// Section kind as a container parser reports it.
#[derive(Clone, Copy, Debug, PartialEq, Eq, Structural)]
pub enum SectionKind {
    Text,
    Data,
    Rodata,
    Bss,
    Debug,
    Other,
}

/// Section kind as the views distinguish it.
#[derive(Clone, Copy, Debug, PartialEq, Eq, Structural)]
pub enum NativeSectionKind {
    Text,
    Data,
    Rodata,
    Bss,
    Debug,
    Other,
}

impl NativeSectionKind {
    /// The kind that stands for a container's section kind.
    pub open spec fn of(k: SectionKind) -> NativeSectionKind {
        match k {
            SectionKind::Text => NativeSectionKind::Text,
            SectionKind::Data => NativeSectionKind::Data,
            SectionKind::Rodata => NativeSectionKind::Rodata,
            SectionKind::Bss => NativeSectionKind::Bss,
            SectionKind::Debug => NativeSectionKind::Debug,
            SectionKind::Other => NativeSectionKind::Other,
        }
    }

    /// The kind that stands for a container's section kind.
    pub fn from_armv8(k: SectionKind) -> (r: NativeSectionKind)
        ensures
            r == NativeSectionKind::of(k),
    {
        match k {
            SectionKind::Text => NativeSectionKind::Text,
            SectionKind::Data => NativeSectionKind::Data,
            SectionKind::Rodata => NativeSectionKind::Rodata,
            SectionKind::Bss => NativeSectionKind::Bss,
            SectionKind::Debug => NativeSectionKind::Debug,
            SectionKind::Other => NativeSectionKind::Other,
        }
    }

    /// The `0xRRGGBB` colour of the kind.
    pub open spec fn rgb(self) -> u32 {
        match self {
            NativeSectionKind::Text => 0x4f7cff,
            NativeSectionKind::Data => 0x4cb964,
            NativeSectionKind::Rodata => 0x4cc8b9,
            NativeSectionKind::Bss => 0x6b6b75,
            NativeSectionKind::Debug => 0xa57ad6,
            NativeSectionKind::Other => 0x8a8a92,
        }
    }

    /// The `0xRRGGBB` colour of the kind: adjacent sections stay
    /// distinguishable at small widths on a dark background.
    pub fn colour(self) -> (r: u32)
        ensures
            r == self.rgb(),
    {
        match self {
            NativeSectionKind::Text => 0x4f7cff,
            NativeSectionKind::Data => 0x4cb964,
            NativeSectionKind::Rodata => 0x4cc8b9,
            NativeSectionKind::Bss => 0x6b6b75,
            NativeSectionKind::Debug => 0xa57ad6,
            NativeSectionKind::Other => 0x8a8a92,
        }
    }

    /// The word for the kind in legends and tooltips.
    pub open spec fn word(self) -> Seq<char> {
        match self {
            NativeSectionKind::Text => "code"@,
            NativeSectionKind::Data => "data"@,
            NativeSectionKind::Rodata => "rodata"@,
            NativeSectionKind::Bss => "bss"@,
            NativeSectionKind::Debug => "debug"@,
            NativeSectionKind::Other => "other"@,
        }
    }

    /// The word for the kind in legends and tooltips.
    pub fn label(self) -> (r: &'static str)
        ensures
            r@ == self.word(),
    {
        match self {
            NativeSectionKind::Text => "code",
            NativeSectionKind::Data => "data",
            NativeSectionKind::Rodata => "rodata",
            NativeSectionKind::Bss => "bss",
            NativeSectionKind::Debug => "debug",
            NativeSectionKind::Other => "other",
        }
    }
}

// ---- section descriptors ---------------------------------------------------

/// Bit pattern of the single-precision number 7.4: at or above that many bits
/// per byte a section counts as probably encrypted or packed.
pub const HIGH_ENTROPY_THRESHOLD: u32 = 0x40EC_CCCD;

/// Bit pattern of positive infinity in single precision.
pub const INFINITY_BITS: u32 = 0x7F80_0000;

/// A single-precision number, given by its bit pattern, is at least the
/// threshold: a positive pattern orders as the number does, and patterns above
/// infinity are not numbers.
pub open spec fn high_entropy(bits: u32) -> bool {
    HIGH_ENTROPY_THRESHOLD <= bits <= INFINITY_BITS
}

/// Descriptor of one section of a native artifact.
#[derive(Debug)]
pub struct SectionInfo {
    pub name: String,
    pub address: u64,
    pub size: u64,
    pub kind: NativeSectionKind,
    /// Shannon entropy of the section's bytes in bits per byte, as the bit
    /// pattern of a single-precision number; zero without file content.
    pub entropy: u32,
}

impl SectionInfo {
    /// Whether `addr` lies in the section; the end saturates.
    pub open spec fn covers(self, addr: u64) -> bool {
        self.address <= addr && addr < saturating_end(self.address, self.size)
    }

    /// Whether `addr` lies in the section; the end saturates.
    pub fn contains(&self, addr: u64) -> (r: bool)
        ensures
            r == self.covers(addr),
    {
        addr >= self.address && addr < self.address.saturating_add(self.size)
    }

    /// Whether the contents look encrypted or packed, so that a disassembly is
    /// probably meaningless.
    pub fn likely_encrypted(&self) -> (r: bool)
        ensures
            r == high_entropy(self.entropy),
    {
        HIGH_ENTROPY_THRESHOLD <= self.entropy && self.entropy <= INFINITY_BITS
    }

    /// A copy of the descriptor.
    pub fn duplicate(&self) -> (r: SectionInfo)
        ensures
            r == *self,
    {
        SectionInfo {
            name: self.name.clone(),
            address: self.address,
            size: self.size,
            kind: self.kind,
            entropy: self.entropy,
        }
    }
}

/// `start + size`, or the largest address where that does not fit.
pub open spec fn saturating_end(start: u64, size: u64) -> u64 {
    if start + size > u64::MAX {
        u64::MAX
    } else {
        (start + size) as u64
    }
}

// ---- data sections ---------------------------------------------------------

/// Bytes per row of a hex view.
pub const ROW_BYTES: u64 = 16;

/// Number of 16-byte rows that hold `len` bytes.
pub open spec fn rows_for(len: int) -> int {
    (len + 15) / 16
}

/// The smaller of two numbers.
pub open spec fn lesser(a: int, b: int) -> int {
    if a <= b {
        a
    } else {
        b
    }
}

/// The bytes of row `row`: sixteen, or fewer at the end.
pub open spec fn row_slice(bytes: Seq<u8>, row: int) -> Seq<u8> {
    bytes.subrange(16 * row, lesser(16 * row + 16, bytes.len() as int))
}

/// Bytes and base address of a section shown as hex.
#[derive(Debug)]
pub struct DataSectionBytes {
    pub base: u64,
    pub bytes: Arc<Vec<u8>>,
    pub kind: NativeSectionKind,
}

impl DataSectionBytes {
    /// The section ends below the top of the address space.
    pub open spec fn fits(self) -> bool {
        self.base + self.bytes@.len() <= u64::MAX
    }

    /// A second handle on the same section.
    pub fn share(&self) -> (r: DataSectionBytes)
        ensures
            r == *self,
    {
        DataSectionBytes { base: self.base, bytes: Arc::clone(&self.bytes), kind: self.kind }
    }

    /// How many rows the hex view renders.
    pub fn row_count(&self) -> (r: usize)
        ensures
            r == rows_for(self.bytes@.len() as int),
    {
        let n: usize = self.bytes.len();
        if n % 16 == 0 {
            n / 16
        } else {
            n / 16 + 1
        }
    }

    /// Address of the first byte of row `row`.
    pub fn row_addr(&self, row: usize) -> (r: u64)
        requires
            self.base + 16 * row <= u64::MAX,
        ensures
            r == self.base + 16 * row,
    {
        self.base + (row as u64) * ROW_BYTES
    }

    /// The row that contains `addr`, clamped to the existing rows.
    pub fn row_of(&self, addr: u64) -> (r: usize)
        ensures
            self.bytes@.len() == 0 ==> r == 0,
            self.bytes@.len() > 0 && addr < self.base ==> r == 0,
            self.bytes@.len() > 0 && addr >= self.base ==> r == lesser(
                (addr - self.base) / 16,
                rows_for(self.bytes@.len() as int) - 1,
            ),
    {
        let n: usize = self.row_count();
        if n == 0 || addr < self.base {
            return 0;
        }
        let row: u64 = (addr - self.base) / ROW_BYTES;
        if row >= n as u64 {
            n - 1
        } else {
            row as usize
        }
    }

    /// The bytes of row `row`.
    pub fn row_bytes(&self, row: usize) -> (r: Vec<u8>)
        requires
            16 * row <= self.bytes@.len(),
        ensures
            r@ == row_slice(self.bytes@, row as int),
    {
        let n: usize = self.bytes.len();
        let start: usize = row * 16;
        let end: usize = if n - start < 16 {
            n
        } else {
            start + 16
        };
        copy_bytes(&self.bytes, start, end)
    }
}

/// The bytes `v[from..to]`.
pub fn copy_bytes(v: &Vec<u8>, from: usize, to: usize) -> (out: Vec<u8>)
    requires
        from <= to <= v@.len(),
    ensures
        out@ == v@.subrange(from as int, to as int),
{
    let mut out: Vec<u8> = Vec::new();
    let mut i: usize = from;
    while i < to
        invariant
            from <= i <= to <= v@.len(),
            out@ == v@.subrange(from as int, i as int),
        decreases to - i,
    {
        out.push(v[i]);
        i += 1;
    }
    out
}

// ---- text sections ---------------------------------------------------------

/// What the library needs to know of one instruction that was decoded ahead of
/// time (variable-width instruction sets).
#[derive(Clone, Copy, Debug)]
pub struct DecodedInsn {
    pub address: u64,
    /// Length in bytes.
    pub size: u32,
    /// Whether control never falls through to the next instruction.
    pub terminator: bool,
    pub branch_target: Option<u64>,
    pub pcrel_target: Option<u64>,
    /// The address that this instruction completes together with earlier ones.
    pub fused_target: Option<u64>,
}

/// Instructions in strictly increasing address order.
pub open spec fn insns_ordered(p: Seq<DecodedInsn>) -> bool {
    forall|i: int, j: int|
        0 <= i < j < p.len() ==> (#[trigger] p[i]).address < (#[trigger] p[j]).address
}

/// The little-endian value of four bytes.
pub open spec fn le_word(b: Seq<u8>) -> int {
    b[0] + 256 * b[1] + 65536 * b[2] + 16777216 * b[3]
}

/// Byte `k` of an instruction of `size` bytes at offset `off`, zero beyond its
/// end.
pub open spec fn padded_byte(bytes: Seq<u8>, off: int, size: int, k: int) -> u8 {
    if k < size {
        bytes[off + k]
    } else {
        0
    }
}

/// Position of `addr` in an ordered instruction list: the first instruction
/// that is not below it.
pub fn insn_lower_bound(p: &Vec<DecodedInsn>, addr: u64) -> (r: usize)
    requires
        insns_ordered(p@),
    ensures
        r <= p@.len(),
        forall|i: int| 0 <= i < r ==> (#[trigger] p@[i]).address < addr,
        forall|i: int| r <= i < p@.len() ==> (#[trigger] p@[i]).address >= addr,
{
    let mut lo: usize = 0;
    let mut hi: usize = p.len();
    while lo < hi
        invariant
            lo <= hi <= p@.len(),
            insns_ordered(p@),
            forall|i: int| 0 <= i < lo ==> (#[trigger] p@[i]).address < addr,
            forall|i: int| hi <= i < p@.len() ==> (#[trigger] p@[i]).address >= addr,
        decreases hi - lo,
    {
        let mid: usize = lo + (hi - lo) / 2;
        if p[mid].address < addr {
            lo = mid + 1;
        } else {
            hi = mid;
        }
    }
    lo
}

/// Bytes, base address and instructions of a code section.
///
/// AArch64 sections hold fixed four-byte instructions that are decoded on
/// demand. Variable-width sections carry their instructions in `precomputed`.
#[derive(Debug)]
pub struct TextSectionBytes {
    pub base: u64,
    pub bytes: Arc<Vec<u8>>,
    pub precomputed: Option<Arc<Vec<DecodedInsn>>>,
    pub arch: Architecture,
}

impl TextSectionBytes {
    /// Number of instructions.
    pub open spec fn insn_count(self) -> int {
        match self.precomputed {
            Some(p) => p@.len() as int,
            None => self.bytes@.len() as int / 4,
        }
    }

    /// Address of the `i`-th instruction.
    pub open spec fn insn_addr(self, i: int) -> int {
        match self.precomputed {
            Some(p) => if 0 <= i < p@.len() {
                p@[i].address as int
            } else {
                self.base as int
            },
            None => self.base + 4 * i,
        }
    }

    /// Precomputed instructions are in strictly increasing address order.
    pub open spec fn ordered(self) -> bool {
        self.precomputed is Some ==> insns_ordered(self.precomputed->0@)
    }

    /// Every instruction of a section walked by fixed width has a 64-bit
    /// address.
    pub open spec fn walkable(self) -> bool {
        self.precomputed is None && self.bytes@.len() >= 4 ==> self.base + 4 * (self.bytes@.len()
            as int / 4 - 1) <= u64::MAX
    }

    /// Every instruction has a 64-bit address, and precomputed instructions are
    /// in strictly increasing address order.
    pub open spec fn fits(self) -> bool {
        self.walkable() && self.ordered()
    }

    /// A second handle on the same section.
    pub fn share(&self) -> (r: TextSectionBytes)
        ensures
            r == *self,
    {
        TextSectionBytes {
            base: self.base,
            bytes: Arc::clone(&self.bytes),
            precomputed: match &self.precomputed {
                Some(p) => Some(Arc::clone(p)),
                None => None,
            },
            arch: self.arch,
        }
    }

    /// Number of instructions the listing renders.
    pub fn instruction_count(&self) -> (r: usize)
        ensures
            r == self.insn_count(),
    {
        match &self.precomputed {
            Some(p) => p.len(),
            None => self.bytes.len() / 4,
        }
    }

    /// Address of the `index`-th instruction; past the end of a precomputed
    /// list, the section's base.
    pub fn addr_of(&self, index: usize) -> (r: u64)
        requires
            self.precomputed is None ==> self.base + 4 * index <= u64::MAX,
        ensures
            r == self.insn_addr(index as int),
    {
        match &self.precomputed {
            Some(p) => if index < p.len() {
                p[index].address
            } else {
                self.base
            },
            None => self.base + (index as u64) * 4,
        }
    }

    /// The instruction that contains `addr`, clamped to the existing ones.
    pub fn index_of(&self, addr: u64) -> (r: usize)
        requires
            self.ordered(),
        ensures
            self.insn_count() == 0 ==> r == 0,
            self.insn_count() > 0 ==> r < self.insn_count(),
            self.insn_count() > 0 && addr < self.insn_addr(0) ==> r == 0,
            self.insn_count() > 0 && addr >= self.insn_addr(0) ==> self.insn_addr(r as int) <= addr
                && (r + 1 < self.insn_count() ==> addr < self.insn_addr(r + 1)),
    {
        match &self.precomputed {
            Some(p) => {
                let pos = insn_lower_bound(p, addr);
                if pos < p.len() && p[pos].address == addr {
                    pos
                } else if pos == 0 {
                    0
                } else {
                    pos - 1
                }
            },
            None => {
                let n: usize = self.bytes.len() / 4;
                if n == 0 || addr < self.base {
                    return 0;
                }
                let off: u64 = (addr - self.base) / 4;
                if off >= n as u64 {
                    n - 1
                } else {
                    off as usize
                }
            },
        }
    }

    /// Whether the `i`-th instruction has a four-byte slot: it exists, is at
    /// most four bytes long and lies inside the section.
    pub open spec fn has_word(self, i: int) -> bool {
        match self.precomputed {
            Some(p) => 0 <= i < p@.len() && p@[i].size <= 4 && p@[i].address - self.base
                + p@[i].size <= self.bytes@.len(),
            None => 0 <= i && 4 * i + 4 <= self.bytes@.len(),
        }
    }

    /// Byte `k` of that slot.
    pub open spec fn word_byte(self, i: int, k: int) -> u8 {
        match self.precomputed {
            Some(p) => padded_byte(
                self.bytes@,
                p@[i].address - self.base,
                p@[i].size as int,
                k,
            ),
            None => self.bytes@[4 * i + k],
        }
    }

    /// The four bytes of that slot.
    pub open spec fn word_bytes(self, i: int) -> Seq<u8> {
        seq![
            self.word_byte(i, 0),
            self.word_byte(i, 1),
            self.word_byte(i, 2),
            self.word_byte(i, 3),
        ]
    }

    /// Address, bytes and little-endian word of the `index`-th instruction.
    /// Shorter instructions are padded with zeros. `None` past the end and for
    /// instructions longer than four bytes.
    pub fn word_at(&self, index: usize) -> (r: Option<(u64, [u8; 4], u32)>)
        requires
            self.precomputed is None && index < self.bytes@.len() as int / 4 ==> self.base + 4
                * index <= u64::MAX,
            self.precomputed is Some && index < self.precomputed->0@.len() ==> self.base
                <= self.precomputed->0@[index as int].address,
        ensures
            match r {
                Some((a, b, w)) => self.has_word(index as int) && a == self.insn_addr(index as int)
                    && b@ == self.word_bytes(index as int) && w == le_word(b@),
                None => !self.has_word(index as int),
            },
    {
        let (a, off, size): (u64, usize, usize) = match &self.precomputed {
            Some(p) => {
                if index >= p.len() {
                    return None;
                }
                let insn = p[index];
                if insn.size > 4 {
                    return None;
                }
                let off: u64 = insn.address - self.base;
                if off > self.bytes.len() as u64 || insn.size as u64 > self.bytes.len() as u64
                    - off {
                    return None;
                }
                (insn.address, off as usize, insn.size as usize)
            },
            None => {
                if index >= self.bytes.len() / 4 {
                    return None;
                }
                (self.base + (index as u64) * 4, index * 4, 4usize)
            },
        };
        let b0: u8 = if size > 0 {
            self.bytes[off]
        } else {
            0
        };
        let b1: u8 = if size > 1 {
            self.bytes[off + 1]
        } else {
            0
        };
        let b2: u8 = if size > 2 {
            self.bytes[off + 2]
        } else {
            0
        };
        let b3: u8 = if size > 3 {
            self.bytes[off + 3]
        } else {
            0
        };
        let chunk: [u8; 4] = [b0, b1, b2, b3];
        assert(chunk@ =~= self.word_bytes(index as int));
        let w: u32 = b0 as u32 + 256 * (b1 as u32) + 65536 * (b2 as u32) + 16777216 * (b3 as u32);
        Some((a, chunk, w))
    }

    /// The precomputed instruction at `index`, if there is one.
    pub fn precomputed_at(&self, index: usize) -> (r: Option<&DecodedInsn>)
        ensures
            match r {
                Some(d) => self.precomputed is Some && index < self.precomputed->0@.len() && *d
                    == self.precomputed->0@[index as int],
                None => self.precomputed is None || index >= self.precomputed->0@.len(),
            },
    {
        match &self.precomputed {
            Some(p) => if index < p.len() {
                Some(&p[index])
            } else {
                None
            },
            None => None,
        }
    }
}

} // verus!
