//! Search entries, and the entries a scoped query shows.

use crate::ids::ArtifactId;
use crate::order::{index_before, is_sorted_order, sorted_order, views};
use crate::text::{contains, has_infix, has_prefix, starts_with, strings, to_chars};
use vstd::prelude::*;

verus! {

/// Where a search entry leads.
#[derive(Debug)]
pub enum SearchJump {
    Listing { artifact: ArtifactId, section: String, addr: u64 },
    Hex { artifact: ArtifactId, section: String, addr: u64 },
    SmaliClass { class_jni: String },
    /// A line of a class body.
    SmaliMethodLine { class_jni: String, line: usize },
    SectionMap { artifact: ArtifactId },
}

impl SearchJump {
    /// A copy.
    pub fn duplicate(&self) -> (r: SearchJump)
        ensures
            r == *self,
    {
        match self {
            SearchJump::Listing { artifact, section, addr } => SearchJump::Listing {
                artifact: *artifact,
                section: section.clone(),
                addr: *addr,
            },
            SearchJump::Hex { artifact, section, addr } => SearchJump::Hex {
                artifact: *artifact,
                section: section.clone(),
                addr: *addr,
            },
            SearchJump::SmaliClass { class_jni } => SearchJump::SmaliClass {
                class_jni: class_jni.clone(),
            },
            SearchJump::SmaliMethodLine { class_jni, line } => SearchJump::SmaliMethodLine {
                class_jni: class_jni.clone(),
                line: *line,
            },
            SearchJump::SectionMap { artifact } => SearchJump::SectionMap { artifact: *artifact },
        }
    }
}

/// One entry of the search palette.
#[derive(Debug)]
pub struct SearchEntry {
    pub display: String,
    pub jump: SearchJump,
}

impl SearchEntry {
    /// A copy.
    pub fn duplicate(&self) -> (r: SearchEntry)
        ensures
            r == *self,
    {
        SearchEntry { display: self.display.clone(), jump: self.jump.duplicate() }
    }
}

/// The lower-case form of a string.
pub uninterp spec fn lowercase(s: Seq<char>) -> Seq<char>;

/// `str::to_lowercase` of the standard library: the lower-case form of the
/// string by the Unicode property `Lowercase`, which depends on the string
/// alone. What that form is stays unsaid.
#[verifier::external_body]
fn to_lowercase(s: &str) -> (r: String)
    ensures
        r@ == lowercase(s@),
{
    s.to_lowercase()
}

/// How many entries a query shows at most.
pub const SHOWN_ENTRIES: usize = 50;

/// How well a text matches a query: 0 where it begins with the query, 1 where
/// it holds the query elsewhere, `None` where it does not hold it.
pub open spec fn tier(hay: Seq<char>, query: Seq<char>) -> Option<u64> {
    if has_prefix(hay, query) {
        Some(0)
    } else if has_infix(hay, query) {
        Some(1)
    } else {
        None
    }
}

/// Entry `i` is shown before entry `j`: by tier, then by length, then by
/// position.
pub open spec fn shown_before(
    hays: Seq<Seq<char>>,
    lens: Seq<u64>,
    query: Seq<char>,
    i: int,
    j: int,
) -> bool {
    let a = tier(hays[i], query)->0;
    let b = tier(hays[j], query)->0;
    a < b || (a == b && (lens[i] < lens[j] || (lens[i] == lens[j] && i < j)))
}

/// `r` lists the matching entries in the order in which they are shown, up to
/// the cap: the entries left out come after all of them.
pub open spec fn is_shown_list(
    hays: Seq<Seq<char>>,
    lens: Seq<u64>,
    query: Seq<char>,
    r: Seq<usize>,
) -> bool {
    &&& r.len() <= SHOWN_ENTRIES
    &&& forall|k: int|
        0 <= k < r.len() ==> #[trigger] r[k] < hays.len() && tier(hays[r[k] as int], query) is Some
    &&& forall|k: int, l: int|
        0 <= k < l < r.len() ==> shown_before(
            hays,
            lens,
            query,
            #[trigger] r[k] as int,
            #[trigger] r[l] as int,
        )
    &&& forall|i: int|
        0 <= i < hays.len() && (#[trigger] tier(hays[i], query)) is Some && !r.contains(i as usize)
            ==> r.len() == SHOWN_ENTRIES && shown_before(hays, lens, query, r.last() as int, i)
}

/// How well a text matches a query.
fn match_tier(hay: &str, query: &str) -> (r: Option<u64>)
    ensures
        r == tier(hay@, query@),
{
    let h = to_chars(hay);
    if starts_with(h.as_slice(), query) {
        Some(0)
    } else if contains(h.as_slice(), query) {
        Some(1)
    } else {
        None
    }
}

/// The entries that match a query, by the texts to search and the lengths to
/// sort by, in the order in which they are shown.
#[verifier::rlimit(60)]
pub fn rank_entries(hays: &Vec<String>, lens: &Vec<u64>, query: &str) -> (r: Vec<usize>)
    requires
        lens@.len() == hays@.len(),
    ensures
        is_shown_list(strings(hays@), lens@, query@, r@),
        r@ == shown_list(strings(hays@), lens@, query@),
{
    let ghost texts = strings(hays@);
    let mut places: Vec<usize> = Vec::new();
    let mut ranks: Vec<(u64, u64)> = Vec::new();
    let mut i: usize = 0;
    while i < hays.len()
        invariant
            texts == strings(hays@),
            lens@.len() == hays@.len(),
            i <= hays@.len(),
            ranks@.len() == places@.len(),
            forall|k: int|
                0 <= k < places@.len() ==> {
                    &&& (#[trigger] places@[k]) < i
                    &&& tier(texts[places@[k] as int], query@) == Some(ranks@[k].0)
                    &&& ranks@[k].1 == lens@[places@[k] as int]
                },
            forall|k: int, l: int|
                0 <= k < l < places@.len() ==> #[trigger] places@[k] < #[trigger] places@[l],
            forall|j: int|
                0 <= j < i && (#[trigger] tier(texts[j], query@)) is Some ==> places@.contains(
                    j as usize,
                ),
        decreases hays@.len() - i,
    {
        assert(texts[i as int] == hays@[i as int]@);
        let ghost before = places@;
        if let Some(t) = match_tier(hays[i].as_str(), query) {
            places.push(i);
            ranks.push((t, lens[i]));
            assert(places@[before.len() as int] == i);
        }
        assert forall|j: int|
            0 <= j < i + 1 && (#[trigger] tier(texts[j], query@)) is Some implies places@.contains(
            j as usize,
        ) by {
            if j < i {
                let k = before.index_of(j as usize);
                assert(before.contains(j as usize));
                assert(places@[k] == j as usize);
            }
        }
        i += 1;
    }
    let order = sorted_order(&ranks);
    let ghost seen = views(ranks@);
    let mut r: Vec<usize> = Vec::new();
    let mut k: usize = 0;
    while k < order.len() && k < SHOWN_ENTRIES
        invariant
            k <= order@.len(),
            k <= SHOWN_ENTRIES,
            seen == views(ranks@),
            ranks@.len() == places@.len(),
            is_sorted_order::<(u64, u64)>(seen, order@),
            r@.len() == k,
            forall|m: int| 0 <= m < k ==> #[trigger] r@[m] == places@[order@[m] as int],
        decreases order@.len() - k,
    {
        assert(order@.contains(order@[k as int]));
        r.push(places[order[k]]);
        k += 1;
    }
    proof {
        assert forall|m: int| 0 <= m < order@.len() implies #[trigger] order@[m] < places@.len() by {
            assert(order@.contains(order@[m]));
        }
        assert forall|m: int, l: int| 0 <= m < l < order@.len() implies shown_before(
            texts,
            lens@,
            query@,
            #[trigger] places@[order@[m] as int] as int,
            #[trigger] places@[order@[l] as int] as int,
        ) by {
            let a = order@[m];
            let b = order@[l];
            assert(index_before::<(u64, u64)>(seen, a, b));
            assert(seen[a as int] == ranks@[a as int]);
            assert(seen[b as int] == ranks@[b as int]);
        }
        assert forall|j: int|
            0 <= j < texts.len() && (#[trigger] tier(texts[j], query@)) is Some && !r@.contains(
                j as usize,
            ) implies r@.len() == SHOWN_ENTRIES && shown_before(
            texts,
            lens@,
            query@,
            r@.last() as int,
            j,
        ) by {
            assert(places@.contains(j as usize));
            let p = places@.index_of(j as usize) as usize;
            assert(places@[p as int] == j as usize);
            assert(order@.contains(p));
            let t = order@.index_of(p);
            assert(order@[t] == p);
            if t < k {
                assert(r@[t] == j as usize);
            }
            assert(r@[k - 1] == places@[order@[k - 1] as int]);
        }
        law_shown_list_is_unique(texts, lens@, query@, r@, shown_list(texts, lens@, query@));
    }
    r
}

/// The length of a string in bytes of its UTF-8 form.
pub open spec fn byte_len(s: Seq<char>) -> u64 {
    (vstd::utf8::encode_utf8(s).len() as usize) as u64
}

/// The lower-case forms of what the entries display.
pub open spec fn lowered(entries: Seq<SearchEntry>) -> Seq<Seq<char>> {
    entries.map_values(|e: SearchEntry| lowercase(e.display@))
}

/// The lengths in bytes of what the entries display.
pub open spec fn display_lens(entries: Seq<SearchEntry>) -> Seq<u64> {
    entries.map_values(|e: SearchEntry| byte_len(e.display@))
}

/// The list of matching entries in the order in which they are shown.
pub open spec fn shown_list(hays: Seq<Seq<char>>, lens: Seq<u64>, query: Seq<char>) -> Seq<usize> {
    choose|r: Seq<usize>| is_shown_list(hays, lens, query, r)
}

/// The entries that a query shows out of a fixed set, without regard to case.
pub open spec fn shown_entries(entries: Seq<SearchEntry>, query: Seq<char>) -> Seq<SearchEntry> {
    shown_list(lowered(entries), display_lens(entries), lowercase(query)).map_values(
        |i: usize| entries[i as int],
    )
}

/// The entries that a query shows out of a fixed set, without regard to case.
pub fn scoped_entries(entries: &Vec<SearchEntry>, query: &str) -> (r: Vec<SearchEntry>)
    ensures
        r@ == shown_entries(entries@, query@),
{
    let q = to_lowercase(query);
    let mut hays: Vec<String> = Vec::new();
    let mut lens: Vec<u64> = Vec::new();
    let mut i: usize = 0;
    while i < entries.len()
        invariant
            i <= entries@.len(),
            hays@.len() == i,
            lens@.len() == i,
            forall|k: int| 0 <= k < i ==> (#[trigger] hays@[k])@ == lowercase(entries@[k].display@),
            forall|k: int| 0 <= k < i ==> #[trigger] lens@[k] == display_lens(entries@)[k],
        decreases entries@.len() - i,
    {
        hays.push(to_lowercase(entries[i].display.as_str()));
        lens.push(entries[i].display.as_str().len() as u64);
        i += 1;
    }
    assert(strings(hays@) =~= lowered(entries@));
    assert(lens@ =~= display_lens(entries@));
    let list = rank_entries(&hays, &lens, q.as_str());
    let mut r: Vec<SearchEntry> = Vec::new();
    let mut k: usize = 0;
    while k < list.len()
        invariant
            k <= list@.len(),
            r@.len() == k,
            forall|m: int| 0 <= m < list@.len() ==> #[trigger] list@[m] < entries@.len(),
            forall|m: int| 0 <= m < k ==> #[trigger] r@[m] == entries@[list@[m] as int],
        decreases list@.len() - k,
    {
        r.push(entries[list[k]].duplicate());
        k += 1;
    }
    assert(r@ =~= shown_entries(entries@, query@));
    r
}

/// The list that a query shows is determined by the texts, the lengths and the
/// query.
pub proof fn law_shown_list_is_unique(
    hays: Seq<Seq<char>>,
    lens: Seq<u64>,
    query: Seq<char>,
    r: Seq<usize>,
    s: Seq<usize>,
)
    requires
        lens.len() == hays.len(),
        is_shown_list(hays, lens, query, r),
        is_shown_list(hays, lens, query, s),
    ensures
        r == s,
{
    lemma_shown_prefix(hays, lens, query, r, s, r.len() as int);
    lemma_shown_prefix(hays, lens, query, s, r, s.len() as int);
    assert(r =~= s);
}

proof fn lemma_shown_prefix(
    hays: Seq<Seq<char>>,
    lens: Seq<u64>,
    query: Seq<char>,
    r: Seq<usize>,
    s: Seq<usize>,
    n: int,
)
    requires
        is_shown_list(hays, lens, query, r),
        is_shown_list(hays, lens, query, s),
        0 <= n <= r.len(),
    ensures
        n <= s.len(),
        forall|k: int| 0 <= k < n ==> r[k] == s[k],
    decreases n,
{
    if n > 0 {
        lemma_shown_prefix(hays, lens, query, r, s, n - 1);
        let k = n - 1;
        let x = r[k];
        assert(tier(hays[x as int], query) is Some);
        if !s.contains(x) {
            // `s` is full and all of it comes before `x`.
            assert(s.len() == SHOWN_ENTRIES);
            assert(shown_before(hays, lens, query, s.last() as int, x as int));
            lemma_before_all(hays, lens, query, s, k, x as int);
            let y = s[k];
            assert(shown_before(hays, lens, query, y as int, x as int));
            lemma_missing(hays, lens, query, r, s, k);
        } else {
            let j = s.index_of(x);
            assert(s[j] == x);
            if j < k {
                assert(r[j] == x);
                assert(shown_before(hays, lens, query, r[j] as int, r[k] as int));
            } else if j > k {
                assert(shown_before(hays, lens, query, s[k] as int, s[j] as int));
                lemma_missing(hays, lens, query, r, s, k);
            }
        }
    }
}

proof fn lemma_before_all(
    hays: Seq<Seq<char>>,
    lens: Seq<u64>,
    query: Seq<char>,
    s: Seq<usize>,
    k: int,
    x: int,
)
    requires
        is_shown_list(hays, lens, query, s),
        0 <= k < s.len(),
        shown_before(hays, lens, query, s.last() as int, x),
    ensures
        shown_before(hays, lens, query, s[k] as int, x),
{
    if k < s.len() - 1 {
        assert(shown_before(hays, lens, query, s[k] as int, s[s.len() - 1] as int));
    }
}

/// Two lists that agree up to `k` cannot have `s[k]` before `r[k]`.
proof fn lemma_missing(
    hays: Seq<Seq<char>>,
    lens: Seq<u64>,
    query: Seq<char>,
    r: Seq<usize>,
    s: Seq<usize>,
    k: int,
)
    requires
        is_shown_list(hays, lens, query, r),
        is_shown_list(hays, lens, query, s),
        0 <= k < r.len(),
        k < s.len(),
        forall|m: int| 0 <= m < k ==> r[m] == s[m],
    ensures
        !shown_before(hays, lens, query, s[k] as int, r[k] as int),
{
    let y = s[k];
    assert(tier(hays[y as int], query) is Some);
    if r.contains(y) {
        let j = r.index_of(y);
        assert(r[j] == y);
        if j < k {
            assert(s[j] == y);
            assert(shown_before(hays, lens, query, s[j] as int, s[k] as int));
        } else if j > k {
            assert(shown_before(hays, lens, query, r[k] as int, r[j] as int));
        }
    } else {
        assert(shown_before(hays, lens, query, r.last() as int, y as int));
        lemma_before_all(hays, lens, query, r, k, y as int);
    }
}

} // verus!
