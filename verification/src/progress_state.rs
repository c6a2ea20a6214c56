//! The progress state: the set of byte ranges that have been processed so far.

use std::collections::BTreeMap;
use vstd::prelude::*;
use vstd::std_specs::cmp::OrdSpec;
use vstd::std_specs::iter::IteratorSpec;

use crate::chunker::{Offset, Size};

verus! {

broadcast use {vstd::std_specs::btree::group_btree_axioms, vstd::laws_cmp::group_laws_cmp};

/// A range of offsets.
#[derive(Debug, Clone, PartialEq, Eq, Structural)]
pub struct Range {
    /// Start of the progress.
    /// Points to the first byte that the operation started progress at.
    pub start: Offset,
    /// End of the progress.
    /// Points to the _position after the last byte_ the operation has completed the progress at.
    /// Effectively, this is `start_offset + data_size`, not `start_offset + data_size - 1`!
    pub end: Offset,
}

impl Range {
    /// Whether `offset` lies within `start..=end` (both ends included).
    pub open spec fn spec_includes(self, offset: int) -> bool {
        self.start <= offset && offset <= self.end
    }

    /// Whether the byte at offset `x` is covered by the range, `start..end`.
    pub open spec fn covers(self, x: int) -> bool {
        self.start <= x && x < self.end
    }

    /// Whether the two ranges are apart: one ends before the other starts, so they neither
    /// overlap nor touch.
    pub open spec fn spec_apart(self, other: Range) -> bool {
        other.end < self.start || self.end < other.start
    }

    /// The result of merging `other` into `self`: nothing when they are apart, else the range
    /// from the smaller start to the larger end.
    pub open spec fn spec_merge(self, other: Range) -> Option<Range> {
        if self.spec_apart(other) {
            None
        } else {
            Some(
                Range {
                    start: if self.start <= other.start {
                        self.start
                    } else {
                        other.start
                    },
                    end: if self.end >= other.end {
                        self.end
                    } else {
                        other.end
                    },
                },
            )
        }
    }

    /// True if the value if within the range.
    pub fn includes(&self, offset: Offset) -> (r: bool)
        ensures
            r == self.spec_includes(offset as int),
    {
        self.start <= offset && offset <= self.end
    }

    /// Merge the two ranges together: overlapping or touching ranges merge into the range that
    /// spans both, ranges that are apart do not merge.
    pub fn merge(&self, other: &Range) -> (r: Option<Range>)
        ensures
            r == self.spec_merge(*other),
    {
        if other.end < self.start || self.end < other.start {
            // the ranges neither overlap nor touch: they stay apart
            return None;
        }
        let start = if self.start <= other.start {
            self.start
        } else {
            other.start
        };
        let end = if self.end >= other.end {
            self.end
        } else {
            other.end
        };
        Some(Range { start, end })
    }
}

impl From<(Offset, Offset)> for Range {
    fn from(value: (Offset, Offset)) -> (r: Self) {
        let (start, end) = value;
        Self { start, end }
    }
}

impl vstd::std_specs::convert::FromSpecImpl<(Offset, Offset)> for Range {
    open spec fn obeys_from_spec() -> bool {
        true
    }

    open spec fn from_spec(v: (Offset, Offset)) -> Range {
        Range { start: v.0, end: v.1 }
    }
}

/// Whether `s` lists the entries of `m` (start mapped to end) in increasing order of start.
pub open spec fn is_listing(s: Seq<Range>, m: Map<Offset, Offset>) -> bool {
    &&& forall|i: int, j: int| 0 <= i < j < s.len() ==> s[i].start < s[j].start
    &&& forall|i: int|
        0 <= i < s.len() ==> #[trigger] m.contains_key(s[i].start) && m[s[i].start] == s[i].end
    &&& forall|k: Offset| #[trigger]
        m.contains_key(k) ==> exists|i: int| 0 <= i < s.len() && s[i].start == k
}

/// The entries of `m` as ranges, in increasing order of start.
pub closed spec fn listing(m: Map<Offset, Offset>) -> Seq<Range> {
    choose|s: Seq<Range>| is_listing(s, m)
}

/// Every recorded range is non-empty.
pub open spec fn well_formed(m: Map<Offset, Offset>) -> bool {
    &&& m.dom().finite()
    &&& forall|k: Offset| #[trigger] m.contains_key(k) ==> k < m[k]
}

/// Whether the byte at offset `x` is covered by some recorded range.
pub open spec fn covered(m: Map<Offset, Offset>, x: int) -> bool {
    exists|k: Offset| #[trigger] m.contains_key(k) && k <= x < m[k]
}

/// No two recorded ranges overlap or touch.
pub open spec fn separated(m: Map<Offset, Offset>) -> bool {
    forall|a: Offset, b: Offset|
        #![trigger m.contains_key(a), m.contains_key(b)]
        m.contains_key(a) && m.contains_key(b) && a < b ==> m[a] < b
}

/// The sum of the sizes of the ranges.
pub open spec fn total_size(s: Seq<Range>) -> int
    decreases s.len(),
{
    if s.len() == 0 {
        0
    } else {
        total_size(s.drop_last()) + (s.last().end - s.last().start)
    }
}


/// The starts of `s` strictly increase.
pub open spec fn strictly_sorted(s: Seq<Range>) -> bool {
    forall|i: int, j: int| 0 <= i < j < s.len() ==> s[i].start < s[j].start
}

/// Every range of `s` is non-empty.
pub open spec fn all_nonempty(s: Seq<Range>) -> bool {
    forall|i: int| 0 <= i < s.len() ==> #[trigger] s[i].start < s[i].end
}

/// Whether the byte at offset `x` is covered by some range of `s`.
pub open spec fn covered_by_seq(s: Seq<Range>, x: int) -> bool {
    exists|i: int| 0 <= i < s.len() && #[trigger] s[i].covers(x)
}

/// Every range of `s` ends before the start of every later range.
pub open spec fn pairwise_separated(s: Seq<Range>) -> bool {
    forall|i: int, j: int| 0 <= i < j < s.len() ==> s[i].end < s[j].start
}

/// Merging is symmetric; two ranges merge exactly when they overlap or touch, and the merged
/// range covers exactly the offsets of both.
pub proof fn law_range_merge_covers(a: Range, b: Range, x: int)
    requires
        a.start <= a.end,
        b.start <= b.end,
    ensures
        a.spec_merge(b) == b.spec_merge(a),
        a.spec_merge(b) is None <==> a.spec_apart(b),
        a.spec_merge(b) matches Some(r) ==> (r.covers(x) <==> a.covers(x) || b.covers(x)),
        a.spec_merge(b) matches Some(r) ==> r.start <= r.end,
{
}

proof fn lemma_covered_push(s: Seq<Range>, r: Range, x: int)
    ensures
        covered_by_seq(s.push(r), x) <==> covered_by_seq(s, x) || r.covers(x),
{
    let t = s.push(r);
    if covered_by_seq(t, x) {
        let i = choose|i: int| 0 <= i < t.len() && #[trigger] t[i].covers(x);
        if i < s.len() {
            assert(s[i].covers(x));
        }
    }
    if covered_by_seq(s, x) {
        let i = choose|i: int| 0 <= i < s.len() && #[trigger] s[i].covers(x);
        assert(t[i].covers(x));
    }
    if r.covers(x) {
        assert(t[s.len() as int].covers(x));
    }
}

proof fn lemma_max_key(m: Map<Offset, Offset>) -> (k: Offset)
    requires
        m.dom().finite(),
        m.dom().len() > 0,
    ensures
        m.contains_key(k),
        forall|j: Offset| #[trigger] m.contains_key(j) ==> j <= k,
    decreases m.dom().len(),
{
    let a = m.dom().choose();
    let rest = m.remove(a);
    assert(rest.dom() =~= m.dom().remove(a));
    if rest.dom().len() == 0 {
        assert forall|j: Offset| #[trigger] m.contains_key(j) implies j <= a by {
            if j != a {
                assert(rest.dom().contains(j));
            }
        }
        a
    } else {
        let b = lemma_max_key(rest);
        let k = if a > b {
            a
        } else {
            b
        };
        assert forall|j: Offset| #[trigger] m.contains_key(j) implies j <= k by {
            if j != a {
                assert(rest.contains_key(j));
            }
        }
        k
    }
}

proof fn lemma_listing_exists(m: Map<Offset, Offset>) -> (s: Seq<Range>)
    requires
        m.dom().finite(),
    ensures
        is_listing(s, m),
    decreases m.dom().len(),
{
    if m.dom().len() == 0 {
        assert forall|k: Offset| #[trigger] m.contains_key(k) implies exists|i: int|
            0 <= i < 0 && Seq::<Range>::empty()[i].start == k by {
            assert(m.dom().contains(k));
        }
        Seq::empty()
    } else {
        let k = lemma_max_key(m);
        let rest = m.remove(k);
        assert(rest.dom() =~= m.dom().remove(k));
        let s0 = lemma_listing_exists(rest);
        let r = Range { start: k, end: m[k] };
        let s = s0.push(r);
        assert forall|i: int, j: int| 0 <= i < j < s.len() implies s[i].start < s[j].start by {
            if j == s0.len() {
                assert(rest.contains_key(s0[i].start));
            }
        }
        assert forall|i: int| 0 <= i < s.len() implies #[trigger] m.contains_key(s[i].start)
            && m[s[i].start] == s[i].end by {
            if i < s0.len() {
                assert(rest.contains_key(s0[i].start));
            }
        }
        assert forall|j: Offset| #[trigger] m.contains_key(j) implies exists|i: int|
            0 <= i < s.len() && s[i].start == j by {
            if j == k {
                assert(s[s0.len() as int].start == j);
            } else {
                assert(rest.contains_key(j));
                let i = choose|i: int| 0 <= i < s0.len() && s0[i].start == j;
                assert(s[i].start == j);
            }
        }
        s
    }
}

proof fn lemma_listings_equal(s1: Seq<Range>, s2: Seq<Range>, m: Map<Offset, Offset>)
    requires
        is_listing(s1, m),
        is_listing(s2, m),
    ensures
        s1 == s2,
    decreases s1.len(),
{
    if s1.len() == 0 {
        if s2.len() > 0 {
            assert(m.contains_key(s2[0].start));
        }
        assert(s1 =~= s2);
    } else {
        assert(m.contains_key(s1[0].start));
        let i0 = choose|i: int| 0 <= i < s2.len() && s2[i].start == s1[0].start;
        let k1 = s1.last().start;
        let k2 = s2.last().start;
        assert(m.contains_key(k1));
        assert(m.contains_key(k2));
        let a = choose|i: int| 0 <= i < s1.len() && s1[i].start == k2;
        let b = choose|i: int| 0 <= i < s2.len() && s2[i].start == k1;
        assert(k1 == k2) by {
            if a < s1.len() - 1 {
                assert(s1[a].start < s1[s1.len() - 1].start);
            }
            if b < s2.len() - 1 {
                assert(s2[b].start < s2[s2.len() - 1].start);
            }
        }
        let rest = m.remove(k1);
        let t1 = s1.drop_last();
        let t2 = s2.drop_last();
        assert forall|i: int| 0 <= i < t1.len() implies #[trigger] rest.contains_key(t1[i].start)
            && rest[t1[i].start] == t1[i].end by {
            assert(s1[i].start < s1[s1.len() - 1].start);
            assert(m.contains_key(s1[i].start));
        }
        assert forall|j: Offset| #[trigger] rest.contains_key(j) implies exists|i: int|
            0 <= i < t1.len() && t1[i].start == j by {
            assert(m.contains_key(j));
            let i = choose|i: int| 0 <= i < s1.len() && s1[i].start == j;
            assert(t1[i].start == j);
        }
        assert forall|i: int| 0 <= i < t2.len() implies #[trigger] rest.contains_key(t2[i].start)
            && rest[t2[i].start] == t2[i].end by {
            assert(s2[i].start < s2[s2.len() - 1].start);
            assert(m.contains_key(s2[i].start));
        }
        assert forall|j: Offset| #[trigger] rest.contains_key(j) implies exists|i: int|
            0 <= i < t2.len() && t2[i].start == j by {
            assert(m.contains_key(j));
            let i = choose|i: int| 0 <= i < s2.len() && s2[i].start == j;
            assert(t2[i].start == j);
        }
        lemma_listings_equal(t1, t2, rest);
        assert(s1 =~= t1.push(s1.last()));
        assert(s2 =~= t2.push(s2.last()));
    }
}

/// A finite map has a listing, and `listing` is it.
pub proof fn lemma_listing(m: Map<Offset, Offset>)
    requires
        m.dom().finite(),
    ensures
        is_listing(listing(m), m),
{
    let s = lemma_listing_exists(m);
}

/// The listing of a finite map is unique.
pub proof fn lemma_listing_unique(s: Seq<Range>, m: Map<Offset, Offset>)
    requires
        m.dom().finite(),
        is_listing(s, m),
    ensures
        s == listing(m),
{
    lemma_listing(m);
    lemma_listings_equal(s, listing(m), m);
}


/// The listed ranges are in increasing order of start, non-empty, and cover exactly the recorded bytes.
pub proof fn law_ranges_listing(m: Map<Offset, Offset>)
    requires
        well_formed(m),
    ensures
        is_listing(listing(m), m),
        strictly_sorted(listing(m)),
        all_nonempty(listing(m)),
        forall|x: int| covered_by_seq(listing(m), x) <==> covered(m, x),
{
    lemma_listing(m);
    let s = listing(m);
    assert forall|i: int| 0 <= i < s.len() implies #[trigger] s[i].start < s[i].end by {
        assert(m.contains_key(s[i].start));
    }
    assert forall|x: int| covered_by_seq(s, x) <==> covered(m, x) by {
        if covered_by_seq(s, x) {
            let i = choose|i: int| 0 <= i < s.len() && #[trigger] s[i].covers(x);
            assert(m.contains_key(s[i].start));
        }
        if covered(m, x) {
            let k = choose|k: Offset| #[trigger] m.contains_key(k) && k <= x < m[k];
            let i = choose|i: int| 0 <= i < s.len() && s[i].start == k;
            assert(s[i].covers(x));
        }
    }
}

proof fn lemma_total_size_prefix(s: Seq<Range>, n: int)
    requires
        all_nonempty(s),
        0 <= n <= s.len(),
    ensures
        0 <= total_size(s.take(n)) <= total_size(s),
    decreases s.len(),
{
    if s.len() > 0 {
        let s0 = s.drop_last();
        assert(s0.take(s0.len() as int) =~= s0);
        if n < s.len() {
            assert(s.take(n) =~= s0.take(n));
            lemma_total_size_prefix(s0, n);
        } else {
            assert(s.take(n) =~= s);
            lemma_total_size_prefix(s0, s0.len() as int);
        }
        assert(s.last().start < s.last().end);
    }
}

/// The ranges that an iterator over a progress tree yields form the tree's listing.
proof fn lemma_iter_listing(rem: Seq<(&Offset, &Offset)>, m: Map<Offset, Offset>)
    requires
        m.dom().finite(),
        forall|i: int|
            0 <= i < rem.len() ==> m.contains_key(*rem[i].0) && m[*rem[i].0] == *rem[i].1,
        forall|k: Offset| #[trigger] m.contains_key(k) ==> rem.contains((&k, &m[k])),
        forall|i: int, j: int| 0 <= i < j < rem.len() ==> *rem[i].0 < *rem[j].0,
    ensures
        rem.len() == listing(m).len(),
        forall|i: int|
            0 <= i < rem.len() ==> listing(m)[i] == (Range { start: *rem[i].0, end: *rem[i].1 }),
{
    let s = Seq::new(rem.len(), |i: int| Range { start: *rem[i].0, end: *rem[i].1 });
    assert forall|i: int| 0 <= i < s.len() implies #[trigger] m.contains_key(s[i].start)
        && m[s[i].start] == s[i].end by {
        assert(m.contains_key(*rem[i].0));
    }
    assert forall|k: Offset| #[trigger] m.contains_key(k) implies exists|i: int|
        0 <= i < s.len() && s[i].start == k by {
        assert(rem.contains((&k, &m[k])));
        let i = choose|i: int| 0 <= i < rem.len() && rem[i] == (&k, &m[k]);
        assert(s[i].start == k);
    }
    lemma_listing_unique(s, m);
}

/// The facts that the iterator over a progress tree gives about its items.
proof fn lemma_tree_iter(m: Map<Offset, Offset>, rem: Seq<(&Offset, &Offset)>)
    requires
        vstd::std_specs::btree::increasing_seq(rem.map_values(|kv: (&Offset, &Offset)| *kv.0)),
    ensures
        forall|i: int, j: int| 0 <= i < j < rem.len() ==> *rem[i].0 < *rem[j].0,
{
    let ks = rem.map_values(|kv: (&Offset, &Offset)| *kv.0);
    assert(vstd::laws_cmp::obeys_cmp::<Offset>());
    assert forall|i: int, j: int| 0 <= i < j < rem.len() implies *rem[i].0 < *rem[j].0 by {
        assert(ks[i].cmp_spec(&ks[j]) is Less);
    }
}


/// The listing of a canonical map has each range end before the next one starts.
pub proof fn law_listing_separated(m: Map<Offset, Offset>)
    requires
        well_formed(m),
        separated(m),
    ensures
        pairwise_separated(listing(m)),
{
    law_ranges_listing(m);
    let s = listing(m);
    assert forall|i: int, j: int| 0 <= i < j < s.len() implies s[i].end < s[j].start by {
        assert(m.contains_key(s[i].start));
        assert(m.contains_key(s[j].start));
    }
}

/// The recorded ranges are non-empty and apart from each other: the form in which a set of
/// covered offsets is kept.
pub open spec fn canonical(m: Map<Offset, Offset>) -> bool {
    well_formed(m) && separated(m)
}

/// The offsets covered by some recorded range.
pub open spec fn covered_offsets(m: Map<Offset, Offset>) -> Set<int> {
    Set::new(|x: int| covered(m, x))
}

/// `after` records the progress of `before` with `update` merged in: it is canonical and covers
/// exactly the offsets covered before and those of the update.
pub open spec fn merged(before: Map<Offset, Offset>, update: Range, after: Map<Offset, Offset>) -> bool {
    &&& canonical(after)
    &&& forall|x: int| #[trigger] covered(after, x) <==> covered(before, x) || update.covers(x)
}

/// The offsets covered by some range of `s`.
spec fn seq_offsets(s: Seq<Range>) -> Set<int> {
    Set::new(|x: int| covered_by_seq(s, x))
}

proof fn lemma_end_not_less(ma: Map<Offset, Offset>, mb: Map<Offset, Offset>, k: Offset)
    requires
        canonical(ma),
        canonical(mb),
        forall|x: int|
            #![trigger covered(ma, x)]
            #![trigger covered(mb, x)]
            covered(ma, x) == covered(mb, x),
        ma.contains_key(k),
        mb.contains_key(k),
    ensures
        !(ma[k] < mb[k]),
{
    if ma[k] < mb[k] {
        let x = ma[k] as int;
        assert(covered(mb, x));
        assert(covered(ma, x));
        let a = choose|a: Offset| #[trigger] ma.contains_key(a) && a <= x < ma[a];
        assert(ma.contains_key(k));
    }
}

proof fn lemma_same_range(ma: Map<Offset, Offset>, mb: Map<Offset, Offset>, k: Offset)
    requires
        canonical(ma),
        canonical(mb),
        forall|x: int|
            #![trigger covered(ma, x)]
            #![trigger covered(mb, x)]
            covered(ma, x) == covered(mb, x),
        ma.contains_key(k),
    ensures
        mb.contains_key(k),
        mb[k] == ma[k],
{
    assert(covered(ma, k as int));
    assert(covered(mb, k as int));
    let k2 = choose|k2: Offset| #[trigger] mb.contains_key(k2) && k2 <= k < mb[k2];
    if k2 < k {
        let x = k - 1;
        assert(covered(mb, x));
        assert(covered(ma, x));
        let a = choose|a: Offset| #[trigger] ma.contains_key(a) && a <= x < ma[a];
        assert(ma.contains_key(k));
    }
    assert(k2 == k);
    lemma_end_not_less(ma, mb, k);
    lemma_end_not_less(mb, ma, k);
}

/// A canonical progress map is determined by the offsets it covers: two canonical maps that
/// cover the same offsets are equal.
pub proof fn law_canonical_unique(m1: Map<Offset, Offset>, m2: Map<Offset, Offset>)
    requires
        canonical(m1),
        canonical(m2),
        forall|x: int|
            #![trigger covered(m1, x)]
            #![trigger covered(m2, x)]
            covered(m1, x) == covered(m2, x),
    ensures
        m1 == m2,
{
    assert forall|k: Offset| m1.contains_key(k) implies m2.contains_key(k) && m2[k] == m1[k] by {
        lemma_same_range(m1, m2, k);
    }
    assert forall|k: Offset| m2.contains_key(k) implies m1.contains_key(k) by {
        lemma_same_range(m2, m1, k);
    }
    assert(m1 =~= m2);
}

/// The progress after merging an update is determined by the progress before and the update.
pub proof fn law_merged_unique(
    before: Map<Offset, Offset>,
    update: Range,
    a1: Map<Offset, Offset>,
    a2: Map<Offset, Offset>,
)
    requires
        merged(before, update, a1),
        merged(before, update, a2),
    ensures
        a1 == a2,
{
    assert forall|x: int| covered(a1, x) == covered(a2, x) by {
        assert(covered(a1, x) <==> covered(before, x) || update.covers(x));
        assert(covered(a2, x) <==> covered(before, x) || update.covers(x));
    }
    law_canonical_unique(a1, a2);
}

/// Merging the same update a second time changes nothing.
pub proof fn law_merge_idempotent(
    before: Map<Offset, Offset>,
    update: Range,
    once: Map<Offset, Offset>,
    twice: Map<Offset, Offset>,
)
    requires
        merged(before, update, once),
        merged(once, update, twice),
    ensures
        twice == once,
{
    assert forall|x: int| covered(twice, x) == covered(once, x) by {
        assert(covered(twice, x) <==> covered(once, x) || update.covers(x));
        assert(covered(once, x) <==> covered(before, x) || update.covers(x));
    }
    law_canonical_unique(twice, once);
}

/// Merging an update whose offsets are all recorded already changes nothing.
pub proof fn law_merge_covered_unchanged(
    before: Map<Offset, Offset>,
    update: Range,
    after: Map<Offset, Offset>,
)
    requires
        canonical(before),
        forall|x: int| #[trigger] update.covers(x) ==> covered(before, x),
        merged(before, update, after),
    ensures
        after == before,
{
    assert forall|x: int| covered(after, x) == covered(before, x) by {
        assert(covered(after, x) <==> covered(before, x) || update.covers(x));
    }
    law_canonical_unique(after, before);
}

/// The order in which two updates are merged does not matter.
pub proof fn law_merge_commutes(
    before: Map<Offset, Offset>,
    u1: Range,
    u2: Range,
    a1: Map<Offset, Offset>,
    a12: Map<Offset, Offset>,
    a2: Map<Offset, Offset>,
    a21: Map<Offset, Offset>,
)
    requires
        merged(before, u1, a1),
        merged(a1, u2, a12),
        merged(before, u2, a2),
        merged(a2, u1, a21),
    ensures
        a12 == a21,
{
    assert forall|x: int| covered(a12, x) == covered(a21, x) by {
        assert(covered(a12, x) <==> covered(a1, x) || u2.covers(x));
        assert(covered(a1, x) <==> covered(before, x) || u1.covers(x));
        assert(covered(a21, x) <==> covered(a2, x) || u1.covers(x));
        assert(covered(a2, x) <==> covered(before, x) || u2.covers(x));
    }
    law_canonical_unique(a12, a21);
}

proof fn lemma_seq_offsets_len(s: Seq<Range>)
    requires
        all_nonempty(s),
        pairwise_separated(s),
    ensures
        seq_offsets(s).finite(),
        seq_offsets(s).len() == total_size(s),
    decreases s.len(),
{
    if s.len() == 0 {
        assert(seq_offsets(s) =~= Set::<int>::empty());
    } else {
        let s0 = s.drop_last();
        let r = s.last();
        assert forall|i: int, j: int| 0 <= i < j < s0.len() implies s0[i].end < s0[j].start by {
            assert(s[i].end < s[j].start);
        }
        assert forall|i: int| 0 <= i < s0.len() implies #[trigger] s0[i].start < s0[i].end by {
            assert(s[i].start < s[i].end);
        }
        lemma_seq_offsets_len(s0);
        assert(s0.push(r) =~= s);
        let rs = vstd::set_lib::set_int_range(r.start as int, r.end as int);
        assert(s[s.len() - 1].start < s[s.len() - 1].end);
        vstd::set_lib::lemma_int_range(r.start as int, r.end as int);
        assert forall|x: int| seq_offsets(s).contains(x) <==> (seq_offsets(s0) + rs).contains(x) by {
            lemma_covered_push(s0, r, x);
        }
        assert(seq_offsets(s) =~= seq_offsets(s0) + rs);
        assert forall|x: int| !(seq_offsets(s0).contains(x) && rs.contains(x)) by {
            if seq_offsets(s0).contains(x) && rs.contains(x) {
                let i = choose|i: int| 0 <= i < s0.len() && #[trigger] s0[i].covers(x);
                assert(s[i].end < s[s.len() - 1].start);
            }
        }
        assert(seq_offsets(s0).disjoint(rs));
        vstd::set_lib::lemma_set_disjoint_lens(seq_offsets(s0), rs);
    }
}

/// The ranges of a canonical map add up to the number of offsets it covers, which fits `u64`.
pub proof fn law_total_counts_offsets(m: Map<Offset, Offset>)
    requires
        canonical(m),
    ensures
        covered_offsets(m).finite(),
        total_size(listing(m)) == covered_offsets(m).len(),
        covered_offsets(m).len() <= u64::MAX,
{
    law_ranges_listing(m);
    law_listing_separated(m);
    let s = listing(m);
    lemma_seq_offsets_len(s);
    assert(seq_offsets(s) =~= covered_offsets(m));
    let all = vstd::set_lib::set_int_range(0, u64::MAX as int);
    vstd::set_lib::lemma_int_range(0, u64::MAX as int);
    assert forall|x: int| covered_offsets(m).contains(x) implies all.contains(x) by {
        let k = choose|k: Offset| #[trigger] m.contains_key(k) && k <= x < m[k];
    }
    vstd::set_lib::lemma_len_subset(covered_offsets(m), all);
}

proof fn lemma_covered_insert(m: Map<Offset, Offset>, r: Range, x: int)
    requires
        !m.contains_key(r.start),
    ensures
        covered(m.insert(r.start, r.end), x) <==> covered(m, x) || r.covers(x),
{
    let n = m.insert(r.start, r.end);
    if covered(n, x) {
        let k = choose|k: Offset| #[trigger] n.contains_key(k) && k <= x < n[k];
        if k != r.start {
            assert(m.contains_key(k));
        }
    }
    if covered(m, x) {
        let k = choose|k: Offset| #[trigger] m.contains_key(k) && k <= x < m[k];
        assert(n.contains_key(k));
    }
    if r.covers(x) {
        assert(n.contains_key(r.start));
    }
}

/// The progress state.
#[derive(Debug)]
pub struct ProgressState {
    /// A tree with the offset start as the key.
    tree: BTreeMap<Offset, Offset>,
}

impl View for ProgressState {
    type V = Map<Offset, Offset>;

    closed spec fn view(&self) -> Map<Offset, Offset> {
        self.tree@
    }
}

impl ProgressState {
    #[verifier::type_invariant]
    closed spec fn inv(self) -> bool {
        canonical(self.tree@)
    }

    /// The recorded ranges, in increasing order of start.
    pub open spec fn spec_ranges(&self) -> Seq<Range> {
        listing(self@)
    }
}

impl Default for ProgressState {
    fn default() -> (r: Self)
        ensures
            r@ == Map::<Offset, Offset>::empty(),
    {
        ProgressState { tree: BTreeMap::new() }
    }
}

impl ProgressState {
    /// Merge the incoming update in: the ranges it overlaps or touches merge with it into one
    /// range, the others stay as they are.
    pub fn merge_update(&mut self, update: Range)
        requires
            update.start <= update.end,
        ensures
            merged(old(self)@, update, final(self)@),
    {
        proof {
            use_type_invariant(&*self);
        }
        if update.start == update.end {
            proof {
                assert forall|x: int| #[trigger] covered(self@, x) <==> covered(self@, x)
                    || update.covers(x) by {}
            }
            return ;
        }
        let mut old_tree = BTreeMap::new();
        std::mem::swap(&mut self.tree, &mut old_tree);
        let ghost m = old_tree@;
        let ghost initial = update;
        proof {
            law_ranges_listing(m);
            law_listing_separated(m);
        }
        let ghost s = listing(m);

        let mut tree: BTreeMap<Offset, Offset> = BTreeMap::new();
        let mut update = update;
        let it0 = old_tree.iter();
        let ghost rem = it0.remaining();
        proof {
            lemma_tree_iter(m, rem);
            lemma_iter_listing(rem, m);
            assert forall|x: int| #[trigger] covered(tree@, x) || update.covers(x) <==> covered_by_seq(
                s.take(0),
                x,
            ) || initial.covers(x) by {
                if covered(tree@, x) {
                    let k = choose|k: Offset| #[trigger] tree@.contains_key(k) && k <= x < tree@[k];
                }
            }
        }
        for kv in it: it0
            invariant
                it.seq() == rem,
                rem.len() == s.len(),
                forall|i: int|
                    0 <= i < rem.len() ==> s[i] == (Range { start: *rem[i].0, end: *rem[i].1 }),
                strictly_sorted(s),
                all_nonempty(s),
                pairwise_separated(s),
                0 <= it.index() <= s.len(),
                canonical(tree@),
                update.start < update.end,
                forall|k: Offset| #[trigger]
                    tree@.contains_key(k) ==> tree@[k] < update.start || update.end < k,
                forall|k: Offset, j: int|
                    #![trigger tree@.contains_key(k), s[j]]
                    tree@.contains_key(k) && it.index() <= j < s.len() ==> tree@[k] < s[j].start,
                forall|x: int| #[trigger]
                    covered(tree@, x) || update.covers(x) <==> covered_by_seq(
                        s.take(it.index() as int),
                        x,
                    ) || initial.covers(x),
        {
            let ghost idx = it.index() as int;
            let ghost tree0 = tree@;
            let ghost update0 = update;
            let (start, end) = kv;
            let current = Range::from((*start, *end));
            proof {
                assert(current == s[idx]);
                assert(s.take(idx + 1) =~= s.take(idx).push(s[idx]));
                assert(current.start < current.end);
            }
            match current.merge(&update) {
                Some(merged_range) => {
                    update = merged_range;
                    proof {
                        assert forall|k: Offset| #[trigger]
                            tree@.contains_key(k) implies tree@[k] < update.start || update.end < k by {
                            assert(tree0[k] < s[idx].start);
                            assert(k < tree0[k]);
                        }
                        assert forall|x: int| #[trigger]
                            covered(tree@, x) || update.covers(x) <==> covered_by_seq(
                                s.take(idx + 1),
                                x,
                            ) || initial.covers(x) by {
                            lemma_covered_push(s.take(idx), current, x);
                            law_range_merge_covers(current, update0, x);
                            assert(covered(tree0, x) || update0.covers(x) <==> covered_by_seq(
                                s.take(idx),
                                x,
                            ) || initial.covers(x));
                        }
                    }
                },
                None => {
                    proof {
                        assert(!tree0.contains_key(current.start)) by {
                            if tree0.contains_key(current.start) {
                                assert(tree0[current.start] < s[idx].start);
                            }
                        }
                    }
                    let previous = tree.insert(current.start, current.end);
                    proof {
                        assert(previous is None);
                        assert(tree@ == tree0.insert(current.start, current.end));
                        assert forall|a: Offset, b: Offset|
                            #![trigger tree@.contains_key(a), tree@.contains_key(b)]
                            tree@.contains_key(a) && tree@.contains_key(b) && a < b implies tree@[a]
                            < b by {
                            if a != current.start && b != current.start {
                                assert(tree0.contains_key(a) && tree0.contains_key(b));
                            } else if a == current.start {
                                assert(tree0.contains_key(b));
                                assert(tree0[b] < s[idx].start);
                                assert(b < tree0[b]);
                            } else {
                                assert(tree0.contains_key(a));
                                assert(tree0[a] < s[idx].start);
                            }
                        }
                        assert forall|k: Offset, j: int|
                            #![trigger tree@.contains_key(k), s[j]]
                            tree@.contains_key(k) && idx + 1 <= j < s.len() implies tree@[k]
                            < s[j].start by {
                            if k == current.start {
                                assert(s[idx].end < s[j].start);
                            } else {
                                assert(tree0.contains_key(k));
                            }
                        }
                        assert forall|x: int| #[trigger]
                            covered(tree@, x) || update.covers(x) <==> covered_by_seq(
                                s.take(idx + 1),
                                x,
                            ) || initial.covers(x) by {
                            lemma_covered_push(s.take(idx), current, x);
                            lemma_covered_insert(tree0, current, x);
                            assert(covered(tree0, x) || update0.covers(x) <==> covered_by_seq(
                                s.take(idx),
                                x,
                            ) || initial.covers(x));
                        }
                    }
                },
            }
        }
        let ghost tree1 = tree@;
        proof {
            assert(s.take(s.len() as int) =~= s);
            assert(!tree1.contains_key(update.start)) by {
                if tree1.contains_key(update.start) {
                    assert(update.start < tree1[update.start]);
                }
            }
        }
        let previous = tree.insert(update.start, update.end);
        proof {
            assert(previous is None);
            assert(tree@ == tree1.insert(update.start, update.end));
            assert forall|a: Offset, b: Offset|
                #![trigger tree@.contains_key(a), tree@.contains_key(b)]
                tree@.contains_key(a) && tree@.contains_key(b) && a < b implies tree@[a] < b by {
                if a != update.start && b != update.start {
                    assert(tree1.contains_key(a) && tree1.contains_key(b));
                } else if a == update.start {
                    assert(tree1.contains_key(b));
                } else {
                    assert(tree1.contains_key(a));
                }
            }
            assert forall|x: int| #[trigger]
                covered(tree@, x) <==> covered(m, x) || initial.covers(x) by {
                lemma_covered_insert(tree1, update, x);
                assert(covered(tree1, x) || update.covers(x) <==> covered_by_seq(s, x)
                    || initial.covers(x));
            }
        }
        self.tree = tree;
    }

    /// Get all the progress ranges, in increasing order of start.
    pub fn ranges(&self) -> (r: Vec<Range>)
        ensures
            r@ == self.spec_ranges(),
            canonical(self@),
    {
        proof {
            use_type_invariant(self);
        }
        let ghost m = self@;
        let it0 = self.tree.iter();
        let ghost rem = it0.remaining();
        proof {
            lemma_tree_iter(m, rem);
            lemma_iter_listing(rem, m);
        }
        let mut out: Vec<Range> = Vec::new();
        for kv in it: it0
            invariant
                it.seq() == rem,
                rem.len() == listing(m).len(),
                forall|i: int|
                    0 <= i < rem.len() ==> listing(m)[i] == (Range {
                        start: *rem[i].0,
                        end: *rem[i].1,
                    }),
                out@ == listing(m).take(it.index()),
        {
            let (start, end) = kv;
            proof {
                assert(listing(m).take(it.index() + 1) =~= out@.push(listing(m)[it.index()]));
            }
            out.push(Range { start: *start, end: *end });
        }
        proof {
            assert(listing(m).take(listing(m).len() as int) =~= listing(m));
        }
        out
    }

    /// The collective size of all progress ranges: the number of offsets covered.
    pub fn total(&self) -> (r: Size)
        ensures
            r == covered_offsets(self@).len(),
            r == total_size(self.spec_ranges()),
    {
        proof {
            use_type_invariant(self);
        }
        let ghost m = self@;
        proof {
            law_ranges_listing(m);
            law_total_counts_offsets(m);
        }
        let ghost s = listing(m);
        let it0 = self.tree.iter();
        let ghost rem = it0.remaining();
        proof {
            lemma_tree_iter(m, rem);
            lemma_iter_listing(rem, m);
        }
        let mut sum: Size = 0;
        for kv in it: it0
            invariant
                it.seq() == rem,
                rem.len() == s.len(),
                forall|i: int|
                    0 <= i < rem.len() ==> s[i] == (Range { start: *rem[i].0, end: *rem[i].1 }),
                all_nonempty(s),
                total_size(s) <= u64::MAX,
                0 <= it.index() <= s.len(),
                sum == total_size(s.take(it.index())),
        {
            let (start, end) = kv;
            proof {
                let i = it.index();
                assert(s.take(i + 1).drop_last() =~= s.take(i));
                lemma_total_size_prefix(s, i + 1);
                assert(s[i].start < s[i].end);
            }
            sum = sum + (*end - *start);
        }
        proof {
            assert(s.take(s.len() as int) =~= s);
        }
        sum
    }
}


} // verus!
