//! The decisions of the median search: each step counts the stream against
//! a probe inside the current bracket and either accepts the probe or keeps
//! the half of the bracket where every median lies. Computing the probe and
//! deciding when the bracket is narrow enough belong to the caller.
use vstd::prelude::*;
use crate::accum::{above, at, below, is_greatest, is_least, Extrema, Tally};
use crate::order::rank;
use crate::scan::Accumulator;

verus! {

/// `m` is a median of `s`: at most half of the values precede it and at
/// most half follow it.
pub open spec fn is_median(s: Seq<u64>, m: u64) -> bool {
    &&& 2 * below(s, rank(m)) <= s.len()
    &&& 2 * above(s, rank(m)) <= s.len()
}

/// Raising the rank counts no fewer values below it.
pub proof fn lemma_below_monotone(s: Seq<u64>, k1: int, k2: int)
    requires
        k1 <= k2,
    ensures
        below(s, k1) <= below(s, k2),
    decreases s.len(),
{
    if s.len() > 0 {
        lemma_below_monotone(s.drop_last(), k1, k2);
    }
}

/// Raising the rank counts no more values above it.
pub proof fn lemma_above_antitone(s: Seq<u64>, k1: int, k2: int)
    requires
        k1 <= k2,
    ensures
        above(s, k2) <= above(s, k1),
    decreases s.len(),
{
    if s.len() > 0 {
        lemma_above_antitone(s.drop_last(), k1, k2);
    }
}

/// When every value follows `k`, all of them count as above it; when every
/// value precedes `k`, all of them count as below it.
pub proof fn lemma_all_beyond(s: Seq<u64>, k: int)
    ensures
        (forall|i: int| 0 <= i < s.len() ==> rank(#[trigger] s[i]) > k) ==> above(s, k) == s.len(),
        (forall|i: int| 0 <= i < s.len() ==> rank(#[trigger] s[i]) < k) ==> below(s, k) == s.len(),
    decreases s.len(),
{
    if s.len() > 0 {
        let t = s.drop_last();
        assert(forall|i: int| 0 <= i < t.len() ==> t[i] == s[i]);
        lemma_all_beyond(t, k);
    }
}

/// Every median of a non-empty stream lies between its least and its
/// greatest value.
pub proof fn lemma_median_within_extrema(s: Seq<u64>, lo: u64, hi: u64, m: u64)
    requires
        is_least(s, lo),
        is_greatest(s, hi),
        is_median(s, m),
    ensures
        rank(lo) <= rank(m) <= rank(hi),
{
    lemma_all_beyond(s, rank(m));
    if rank(m) < rank(lo) {
        assert(forall|i: int| 0 <= i < s.len() ==> rank(#[trigger] s[i]) > rank(m));
    }
    if rank(m) > rank(hi) {
        assert(forall|i: int| 0 <= i < s.len() ==> rank(#[trigger] s[i]) < rank(m));
    }
}

/// Taking one value out of `t` removes its own count and no other.
proof fn lemma_counts_remove(t: Seq<u64>, j: int, k: int)
    requires
        0 <= j < t.len(),
    ensures
        below(t, k) == below(t.remove(j), k) + if rank(t[j]) < k { 1nat } else { 0nat },
        above(t, k) == above(t.remove(j), k) + if rank(t[j]) > k { 1nat } else { 0nat },
    decreases t.len(),
{
    if j == t.len() - 1 {
        assert(t.remove(j) =~= t.drop_last());
    } else {
        lemma_counts_remove(t.drop_last(), j, k);
        assert(t.drop_last().remove(j) =~= t.remove(j).drop_last());
        assert(t.remove(j).last() == t.last());
    }
}

/// The counts depend on which values a stream holds, not on their order.
pub proof fn lemma_counts_permutation(s: Seq<u64>, t: Seq<u64>, k: int)
    requires
        s.to_multiset() == t.to_multiset(),
    ensures
        below(s, k) == below(t, k),
        above(s, k) == above(t, k),
    decreases s.len(),
{
    broadcast use vstd::seq_lib::group_to_multiset_ensures;

    s.to_multiset_ensures();
    t.to_multiset_ensures();
    if s.len() == 0 {
        assert(t.to_multiset().len() == 0);
    } else {
        let x = s.last();
        let rest = s.drop_last();
        assert(s =~= rest.push(x));
        vstd::seq_lib::to_multiset_build(rest, x);
        assert(s.to_multiset().count(x) > 0);
        assert(t.contains(x));
        let j = choose|j: int| 0 <= j < t.len() && t[j] == x;
        vstd::seq_lib::to_multiset_remove(t, j);
        assert(t.remove(j).to_multiset() =~= rest.to_multiset());
        lemma_counts_permutation(rest, t.remove(j), k);
        lemma_counts_remove(t, j, k);
    }
}

/// At most `i` values precede rank `k` when none from position `i` on does.
proof fn lemma_below_sorted(s: Seq<u64>, i: int, k: int)
    requires
        0 <= i,
        forall|j: int| i <= j < s.len() ==> rank(#[trigger] s[j]) >= k,
    ensures
        below(s, k) <= if s.len() < i { s.len() as int } else { i },
    decreases s.len(),
{
    if s.len() > 0 {
        lemma_below_sorted(s.drop_last(), i, k);
    }
}

/// Only values after position `i` can follow rank `k` when none up to `i`
/// does.
proof fn lemma_above_sorted(s: Seq<u64>, i: int, k: int)
    requires
        0 <= i,
        forall|j: int| 0 <= j <= i && j < s.len() ==> rank(#[trigger] s[j]) <= k,
    ensures
        above(s, k) <= if s.len() > i + 1 { s.len() - i - 1 } else { 0 },
    decreases s.len(),
{
    if s.len() > 0 {
        let t = s.drop_last();
        assert(forall|j: int| 0 <= j < t.len() ==> t[j] == s[j]);
        lemma_above_sorted(t, i, k);
    }
}

/// The middle value of the stream sorted in the total order (the lower one
/// of the two middle values for an even length) is a median; hence every
/// bracket of the search holds it, and each narrowing moves the estimate
/// toward it.
pub proof fn lemma_sorted_middle_is_median(s: Seq<u64>, sorted: Seq<u64>)
    requires
        s.len() > 0,
        sorted.to_multiset() == s.to_multiset(),
        forall|i: int, j: int| 0 <= i <= j < sorted.len() ==> rank(sorted[i]) <= rank(sorted[j]),
    ensures
        is_median(s, sorted[(s.len() - 1) / 2]),
{
    broadcast use vstd::seq_lib::group_to_multiset_ensures;

    s.to_multiset_ensures();
    sorted.to_multiset_ensures();
    assert(sorted.to_multiset().len() == s.to_multiset().len());
    let i = (s.len() - 1) / 2;
    let k = rank(sorted[i]);
    lemma_counts_permutation(s, sorted, k);
    assert forall|j: int| i <= j < sorted.len() implies rank(#[trigger] sorted[j]) >= k by {}
    assert forall|j: int| 0 <= j <= i && j < sorted.len() implies rank(#[trigger] sorted[j]) <= k by {}
    lemma_below_sorted(sorted, i, k);
    lemma_above_sorted(sorted, i, k);
}

/// Where the medians lie with respect to a probe.
#[derive(Clone, Copy, Debug, PartialEq, Eq, Structural)]
pub enum Verdict {
    /// Every median precedes the probe.
    Lower,
    /// The probe is a median.
    Median,
    /// Every median follows the probe.
    Higher,
}

/// The verdict for a probe with `less` values before it, `equal` at it and
/// `greater` after it: a median when the two sides differ by no more than
/// the values at the probe, else the heavier side.
pub open spec fn verdict_of(less: int, equal: int, greater: int) -> Verdict {
    if -equal <= greater - less <= equal {
        Verdict::Median
    } else if greater < less {
        Verdict::Lower
    } else {
        Verdict::Higher
    }
}

pub fn verdict(less: usize, equal: usize, greater: usize) -> (v: Verdict)
    ensures
        v == verdict_of(less as int, equal as int, greater as int),
{
    if greater >= less {
        if greater - less <= equal {
            Verdict::Median
        } else {
            Verdict::Higher
        }
    } else {
        if less - greater <= equal {
            Verdict::Median
        } else {
            Verdict::Lower
        }
    }
}

/// An interval of the total order that holds every median of a stream.
pub struct Bracket {
    left: u64,
    right: u64,
    stream: Ghost<Seq<u64>>,
}

/// The outcome of one step of the search.
pub enum Progress {
    /// The probe is a median.
    Found(u64),
    /// The half of the bracket that holds every median.
    Narrowed(Bracket),
}

impl Bracket {
    /// The stream whose medians are bracketed.
    pub closed spec fn stream(&self) -> Seq<u64> {
        self.stream@
    }

    pub closed spec fn lower(&self) -> u64 {
        self.left
    }

    pub closed spec fn upper(&self) -> u64 {
        self.right
    }

    /// `self` is a sub-interval of `outer`, over the same stream.
    pub open spec fn within(&self, outer: &Bracket) -> bool {
        &&& self.stream() == outer.stream()
        &&& rank(outer.lower()) <= rank(self.lower())
        &&& rank(self.upper()) <= rank(outer.upper())
    }

    pub closed spec fn wf(&self) -> bool {
        let s = self.stream@;
        &&& s.len() > 0
        &&& rank(self.left) <= rank(self.right)
        &&& exists|i: int| 0 <= i < s.len() && rank(s[i]) <= rank(self.left)
        &&& exists|i: int| 0 <= i < s.len() && rank(self.right) <= rank(s[i])
        &&& forall|m: u64| #[trigger] is_median(s, m) ==> rank(self.left) <= rank(m) <= rank(self.right)
    }

    /// The whole range of the stream, from its least to its greatest value;
    /// `None` for an empty stream, which has no median.
    pub fn new(extrema: &Extrema) -> (r: Option<Bracket>)
        requires
            extrema.wf(),
        ensures
            match r {
                None => extrema.seen().len() == 0,
                Some(b) => {
                    &&& b.wf()
                    &&& b.stream() == extrema.seen()
                    &&& is_least(b.stream(), b.lower())
                    &&& is_greatest(b.stream(), b.upper())
                },
            },
    {
        match extrema.result() {
            None => None,
            Some((lo, hi)) => {
                let ghost s = extrema.seen();
                let b = Bracket { left: lo, right: hi, stream: Ghost(s) };
                proof {
                    assert forall|m: u64| #[trigger] is_median(s, m) implies rank(lo) <= rank(m) <= rank(hi) by {
                        lemma_median_within_extrema(s, lo, hi, m);
                    }
                    let i = choose|i: int| 0 <= i < s.len() && s[i] == lo;
                    let j = choose|j: int| 0 <= j < s.len() && s[j] == hi;
                    assert(rank(s[i]) <= rank(lo));
                    assert(rank(hi) <= rank(s[j]));
                    assert(rank(lo) <= rank(s[j]));
                }
                Some(b)
            },
        }
    }

    /// Every median of the stream lies in the bracket.
    pub proof fn lemma_holds_medians(&self, m: u64)
        requires
            self.wf(),
            is_median(self.stream(), m),
        ensures
            rank(self.lower()) <= rank(m) <= rank(self.upper()),
    {
    }

    /// Narrowing moves the estimate (the lower end) toward every median of
    /// the stream and never past one; so does the upper end from above.
    pub proof fn lemma_narrowing_approaches(&self, outer: &Bracket, m: u64)
        requires
            outer.wf(),
            self.wf(),
            self.within(outer),
            is_median(self.stream(), m),
        ensures
            rank(outer.lower()) <= rank(self.lower()) <= rank(m),
            rank(m) <= rank(self.upper()) <= rank(outer.upper()),
    {
    }

    /// The bracket lies within the range of the stream.
    pub proof fn lemma_within_extrema(&self, lo: u64, hi: u64)
        requires
            self.wf(),
            is_least(self.stream(), lo),
            is_greatest(self.stream(), hi),
        ensures
            rank(lo) <= rank(self.lower()) <= rank(self.upper()) <= rank(hi),
    {
        let s = self.stream@;
        let i = choose|i: int| 0 <= i < s.len() && rank(s[i]) <= rank(self.left);
        let j = choose|j: int| 0 <= j < s.len() && rank(self.right) <= rank(s[j]);
        assert(rank(lo) <= rank(s[i]));
        assert(rank(s[j]) <= rank(hi));
    }

    /// The lower end: the search's estimate once the bracket is narrow.
    pub fn left(&self) -> (r: u64)
        ensures
            r == self.lower(),
    {
        self.left
    }

    pub fn right(&self) -> (r: u64)
        ensures
            r == self.upper(),
    {
        self.right
    }

    /// One step of the search: `tally` has counted the whole stream against
    /// the probe `mid`, which lies in the bracket.
    pub fn advance(self, mid: u64, tally: &Tally) -> (r: Progress)
        requires
            self.wf(),
            tally.wf(),
            tally.seen() == self.stream(),
            tally.threshold() == mid,
            rank(self.lower()) <= rank(mid) <= rank(self.upper()),
        ensures
            ({
                let s = self.stream();
                let k = rank(mid);
                let v = verdict_of(below(s, k) as int, at(s, k) as int, above(s, k) as int);
                match r {
                    Progress::Found(m) => v == Verdict::Median && m == mid && is_median(s, m),
                    Progress::Narrowed(b) => {
                        &&& b.wf()
                        &&& b.stream() == s
                        &&& b.within(&self)
                        &&& v == Verdict::Lower ==> b.lower() == self.lower() && b.upper() == mid
                        &&& v == Verdict::Higher ==> b.lower() == mid && b.upper() == self.upper()
                        &&& v != Verdict::Median
                    },
                }
            }),
    {
        let (less, equal, greater) = tally.counts();
        let ghost s = self.stream@;
        let ghost k = rank(mid);
        match verdict(less, equal, greater) {
            Verdict::Median => Progress::Found(mid),
            Verdict::Lower => {
                let b = Bracket { left: self.left, right: mid, stream: self.stream };
                proof {
                    assert forall|m: u64| #[trigger] is_median(s, m) implies rank(m) <= k by {
                        if rank(m) > k {
                            lemma_below_monotone(s, k, rank(m));
                        }
                    }
                    let i = choose|i: int| 0 <= i < s.len() && rank(self.right) <= rank(s[i]);
                    assert(rank(mid) <= rank(s[i]));
                }
                Progress::Narrowed(b)
            },
            Verdict::Higher => {
                let b = Bracket { left: mid, right: self.right, stream: self.stream };
                proof {
                    assert forall|m: u64| #[trigger] is_median(s, m) implies k <= rank(m) by {
                        if rank(m) < k {
                            lemma_above_antitone(s, rank(m), k);
                        }
                    }
                    let i = choose|i: int| 0 <= i < s.len() && rank(s[i]) <= rank(self.left);
                    assert(rank(s[i]) <= rank(mid));
                }
                Progress::Narrowed(b)
            },
        }
    }
}

} // verus!
