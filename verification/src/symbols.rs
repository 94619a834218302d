//! Symbols and the address-ordered symbol map.

use crate::order::{is_sorted_order, sorted_order, views};
use vstd::prelude::*;

verus! {

/// What a symbol names.
#[derive(Clone, Copy, Debug, PartialEq, Eq, Structural)]
pub enum SymbolKind {
    Function,
    Object,
    Other,
}

/// One named address.
#[derive(Debug)]
pub struct Symbol {
    pub address: u64,
    pub size: u64,
    pub kind: SymbolKind,
    pub display_name: String,
    pub name: String,
}

impl Symbol {
    /// A copy of the symbol.
    pub fn duplicate(&self) -> (r: Symbol)
        ensures
            r == *self,
    {
        Symbol {
            address: self.address,
            size: self.size,
            kind: self.kind,
            display_name: self.display_name.clone(),
            name: self.name.clone(),
        }
    }
}

/// The addresses of a sequence of symbols.
pub open spec fn addresses(s: Seq<Symbol>) -> Seq<u64> {
    s.map_values(|x: Symbol| x.address)
}

/// Symbols in non-decreasing address order.
pub open spec fn address_ordered(s: Seq<Symbol>) -> bool {
    forall|i: int, j: int|
        0 <= i <= j < s.len() ==> (#[trigger] s[i]).address <= (#[trigger] s[j]).address
}

/// How many symbols of `s` lie strictly below `x`.
pub open spec fn count_below(s: Seq<Symbol>, x: int) -> int
    decreases s.len(),
{
    if s.len() == 0 {
        0
    } else {
        count_below(s.drop_last(), x) + if s.last().address < x {
            1int
        } else {
            0int
        }
    }
}

/// The symbols of an ordered sequence whose address lies in `lo..hi`.
pub open spec fn symbols_within(s: Seq<Symbol>, lo: int, hi: int) -> Seq<Symbol> {
    if lo <= hi {
        s.subrange(count_below(s, lo), count_below(s, hi))
    } else {
        Seq::empty()
    }
}

/// Whether some symbol starts exactly at `addr`.
pub open spec fn symbol_starts_at(s: Seq<Symbol>, addr: u64) -> bool {
    exists|i: int| 0 <= i < s.len() && (#[trigger] s[i]).address == addr
}

/// `out` is `input` sorted by address, equal addresses kept in input order.
pub open spec fn sorted_by_address(input: Seq<Symbol>, out: Seq<Symbol>) -> bool {
    exists|order: Seq<usize>|
        #[trigger] is_sorted_order::<u64>(addresses(input), order) && out == Seq::new(
            order.len(),
            |i: int| input[order[i] as int],
        )
}

/// In an ordered sequence the symbols below `x` are exactly the first
/// `count_below(s, x)`.
pub proof fn lemma_count_below(s: Seq<Symbol>, x: int)
    requires
        address_ordered(s),
    ensures
        0 <= count_below(s, x) <= s.len(),
        forall|i: int| 0 <= i < s.len() ==> ((#[trigger] s[i]).address < x <==> i < count_below(s, x)),
    decreases s.len(),
{
    if s.len() > 0 {
        let t = s.drop_last();
        assert forall|i: int, j: int| 0 <= i <= j < t.len() implies (#[trigger] t[i]).address <= (
        #[trigger] t[j]).address by {
            assert(t[i] == s[i] && t[j] == s[j]);
        }
        lemma_count_below(t, x);
        assert forall|i: int| 0 <= i < s.len() implies ((#[trigger] s[i]).address < x <==> i
            < count_below(s, x)) by {
            if i < t.len() {
                assert(t[i] == s[i]);
            }
            if count_below(t, x) < t.len() {
                let k = count_below(t, x);
                assert(t[k] == s[k]);
                assert(!(t[k].address < x));
                assert(s[k].address <= s[s.len() - 1].address);
            }
        }
    }
}

/// `count_below` never decreases as the bound grows.
pub proof fn lemma_count_below_monotonic(s: Seq<Symbol>, x: int, y: int)
    requires
        x <= y,
    ensures
        0 <= count_below(s, x) <= count_below(s, y) <= s.len(),
    decreases s.len(),
{
    if s.len() > 0 {
        lemma_count_below_monotonic(s.drop_last(), x, y);
    }
}

/// All symbols of an artifact, ordered by address.
#[derive(Debug)]
pub struct SymbolMap {
    symbols: Vec<Symbol>,
}

impl View for SymbolMap {
    type V = Seq<Symbol>;

    closed spec fn view(&self) -> Seq<Symbol> {
        self.symbols@
    }
}

impl SymbolMap {
    #[verifier::type_invariant]
    spec fn ordered(self) -> bool {
        address_ordered(self.symbols@)
    }

    /// Orders `input` by address, keeping symbols of equal address in input
    /// order.
    pub fn from_symbols(input: Vec<Symbol>) -> (r: SymbolMap)
        ensures
            address_ordered(r@),
            sorted_by_address(input@, r@),
    {
        let mut keys: Vec<u64> = Vec::new();
        let mut i: usize = 0;
        while i < input.len()
            invariant
                i <= input@.len(),
                keys@ == addresses(input@).take(i as int),
            decreases input@.len() - i,
        {
            keys.push(input[i].address);
            i += 1;
        }
        assert(keys@ =~= addresses(input@));
        let order = sorted_order(&keys);
        assert(views(keys@) =~= keys@);
        let mut out: Vec<Symbol> = Vec::new();
        let mut k: usize = 0;
        while k < order.len()
            invariant
                k <= order@.len(),
                is_sorted_order::<u64>(addresses(input@), order@),
                out@ == Seq::new(k as nat, |i: int| input@[order@[i] as int]),
            decreases order@.len() - k,
        {
            assert(order@.contains(order@[k as int]));
            out.push(input[order[k]].duplicate());
            k += 1;
        }
        proof {
            assert forall|i: int, j: int| 0 <= i <= j < out@.len() implies (
            #[trigger] out@[i]).address <= (#[trigger] out@[j]).address by {
                let a = order@[i];
                let b = order@[j];
                assert(order@.contains(a) && order@.contains(b));
                assert(addresses(input@)[a as int] == input@[a as int].address);
                assert(addresses(input@)[b as int] == input@[b as int].address);
            }
        }
        SymbolMap { symbols: out }
    }

    /// Number of symbols, which stand in address order.
    pub fn len(&self) -> (n: usize)
        ensures
            n == self@.len(),
            address_ordered(self@),
    {
        proof {
            use_type_invariant(self);
        }
        self.symbols.len()
    }

    /// The `i`-th symbol in address order.
    pub fn get(&self, i: usize) -> (r: &Symbol)
        requires
            i < self@.len(),
        ensures
            *r == self@[i as int],
    {
        &self.symbols[i]
    }

    /// How many symbols lie strictly below `x`.
    pub fn below(&self, x: u64) -> (n: usize)
        ensures
            n == count_below(self@, x as int),
            n <= self@.len(),
            address_ordered(self@),
    {
        proof {
            use_type_invariant(self);
            lemma_count_below(self@, x as int);
        }
        let mut lo: usize = 0;
        let mut hi: usize = self.symbols.len();
        while lo < hi
            invariant
                lo <= hi <= self.symbols.len(),
                address_ordered(self@),
                lo <= count_below(self@, x as int) <= hi,
                forall|i: int|
                    0 <= i < self@.len() ==> ((#[trigger] self@[i]).address < x <==> i < count_below(
                        self@,
                        x as int,
                    )),
            decreases hi - lo,
        {
            let mid: usize = lo + (hi - lo) / 2;
            assert(self@[mid as int] == self.symbols@[mid as int]);
            if self.symbols[mid].address < x {
                lo = mid + 1;
            } else {
                hi = mid;
            }
        }
        lo
    }

    /// The first symbol that starts exactly at `addr`.
    pub fn at(&self, addr: u64) -> (r: Option<&Symbol>)
        ensures
            match r {
                Some(s) => {
                    let i = count_below(self@, addr as int);
                    0 <= i < self@.len() && *s == self@[i] && s.address == addr
                },
                None => !symbol_starts_at(self@, addr),
            },
    {
        let i = self.below(addr);
        proof {
            lemma_count_below(self@, addr as int);
        }
        if i < self.symbols.len() && self.symbols[i].address == addr {
            Some(&self.symbols[i])
        } else {
            proof {
                if i < self@.len() {
                    assert(self@[i as int].address > addr);
                }
                assert forall|k: int| 0 <= k < self@.len() implies (
                #[trigger] self@[k]).address != addr by {
                    if k >= i {
                        assert(self@[i as int].address <= self@[k].address);
                    }
                }
            }
            None
        }
    }

    /// The index range of the symbols whose address lies in `lo..hi`.
    pub fn in_range(&self, lo: u64, hi: u64) -> (r: (usize, usize))
        requires
            lo <= hi,
        ensures
            r.0 <= r.1 <= self@.len(),
            self@.subrange(r.0 as int, r.1 as int) == symbols_within(self@, lo as int, hi as int),
            r.0 == count_below(self@, lo as int),
            r.1 == count_below(self@, hi as int),
    {
        let a = self.below(lo);
        let b = self.below(hi);
        proof {
            lemma_count_below_monotonic(self@, lo as int, hi as int);
        }
        (a, b)
    }
}

/// A range holds exactly the symbols whose address lies in it, in order.
pub proof fn law_range_holds_exactly(s: Seq<Symbol>, lo: int, hi: int, x: Symbol)
    requires
        address_ordered(s),
        lo <= hi,
    ensures
        symbols_within(s, lo, hi).contains(x) <==> s.contains(x) && lo <= x.address < hi,
{
    lemma_count_below(s, lo);
    lemma_count_below(s, hi);
    lemma_count_below_monotonic(s, lo, hi);
    let r = symbols_within(s, lo, hi);
    let a = count_below(s, lo);
    if r.contains(x) {
        let k = choose|k: int| 0 <= k < r.len() && r[k] == x;
        assert(s[a + k] == x);
    }
    if s.contains(x) && lo <= x.address < hi {
        let k = choose|k: int| 0 <= k < s.len() && s[k] == x;
        assert(r[k - a] == x);
    }
}

} // verus!
