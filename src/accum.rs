//! The accumulators that the statistics are built from.
use vstd::prelude::*;
use crate::order::{precedes, rank};
use crate::scan::Accumulator;
use std::collections::VecDeque;

verus! {

/// Counts the values shown.
pub struct Count {
    n: usize,
    seen: Ghost<Seq<u64>>,
}

impl Count {
    pub fn new() -> (r: Count)
        ensures
            r.wf(),
            r.seen() == Seq::<u64>::empty(),
    {
        Count { n: 0, seen: Ghost(Seq::empty()) }
    }

    pub fn count(&self) -> (r: usize)
        requires
            self.wf(),
        ensures
            r == self.seen().len(),
    {
        self.n
    }
}

impl Accumulator for Count {
    closed spec fn setting(&self) -> int {
        0
    }

    closed spec fn seen(&self) -> Seq<u64> {
        self.seen@
    }

    closed spec fn wf(&self) -> bool {
        self.n == self.seen@.len()
    }

    fn step(&mut self, x: u64) {
        self.n = self.n + 1;
        self.seen = Ghost(self.seen@.push(x));
    }
}

/// `m` is a value of `s` that no value of `s` precedes.
pub open spec fn is_least(s: Seq<u64>, m: u64) -> bool {
    &&& s.contains(m)
    &&& forall|i: int| 0 <= i < s.len() ==> rank(m) <= rank(#[trigger] s[i])
}

/// `m` is a value of `s` that precedes no value of `s`.
pub open spec fn is_greatest(s: Seq<u64>, m: u64) -> bool {
    &&& s.contains(m)
    &&& forall|i: int| 0 <= i < s.len() ==> rank(#[trigger] s[i]) <= rank(m)
}

/// Tracks the least and the greatest value shown, in the total order.
pub struct Extrema {
    bounds: Option<(u64, u64)>,
    seen: Ghost<Seq<u64>>,
}

impl Extrema {
    pub fn new() -> (r: Extrema)
        ensures
            r.wf(),
            r.seen() == Seq::<u64>::empty(),
    {
        Extrema { bounds: None, seen: Ghost(Seq::empty()) }
    }

    /// The least and the greatest value, or `None` before any value.
    pub fn result(&self) -> (r: Option<(u64, u64)>)
        requires
            self.wf(),
        ensures
            match r {
                None => self.seen().len() == 0,
                Some((lo, hi)) => is_least(self.seen(), lo) && is_greatest(self.seen(), hi),
            },
    {
        self.bounds
    }
}

impl Accumulator for Extrema {
    closed spec fn setting(&self) -> int {
        0
    }

    closed spec fn seen(&self) -> Seq<u64> {
        self.seen@
    }

    closed spec fn wf(&self) -> bool {
        match self.bounds {
            None => self.seen@.len() == 0,
            Some((lo, hi)) => is_least(self.seen@, lo) && is_greatest(self.seen@, hi),
        }
    }

    fn step(&mut self, x: u64) {
        let ghost prev = self.seen@;
        let ghost next = prev.push(x);
        proof {
            assert(next[next.len() - 1] == x);
            assert(forall|i: int| 0 <= i < prev.len() ==> next[i] == prev[i]);
        }
        match self.bounds {
            None => {
                self.bounds = Some((x, x));
            },
            Some((lo, hi)) => {
                let new_lo = if precedes(x, lo) { x } else { lo };
                let new_hi = if precedes(hi, x) { x } else { hi };
                proof {
                    let j = choose|j: int| 0 <= j < prev.len() && prev[j] == lo;
                    let k = choose|k: int| 0 <= k < prev.len() && prev[k] == hi;
                    assert(next[j] == lo && next[k] == hi);
                }
                self.bounds = Some((new_lo, new_hi));
            },
        }
        self.seen = Ghost(next);
    }
}

/// How many values of `s` precede rank `k`.
pub open spec fn below(s: Seq<u64>, k: int) -> nat
    decreases s.len(),
{
    if s.len() == 0 {
        0
    } else {
        below(s.drop_last(), k) + if rank(s.last()) < k { 1nat } else { 0nat }
    }
}

/// How many values of `s` have rank `k`.
pub open spec fn at(s: Seq<u64>, k: int) -> nat
    decreases s.len(),
{
    if s.len() == 0 {
        0
    } else {
        at(s.drop_last(), k) + if rank(s.last()) == k { 1nat } else { 0nat }
    }
}

/// How many values of `s` follow rank `k`.
pub open spec fn above(s: Seq<u64>, k: int) -> nat
    decreases s.len(),
{
    if s.len() == 0 {
        0
    } else {
        above(s.drop_last(), k) + if rank(s.last()) > k { 1nat } else { 0nat }
    }
}

/// Sorts the values shown into those before, equal to and after a
/// threshold, and counts each kind.
pub struct Tally {
    threshold: u64,
    less: usize,
    equal: usize,
    greater: usize,
    seen: Ghost<Seq<u64>>,
}

impl Tally {
    pub closed spec fn threshold(&self) -> u64 {
        self.threshold
    }

    pub proof fn lemma_setting(&self)
        ensures
            self.setting() == self.threshold(),
    {
    }

    pub fn new(threshold: u64) -> (r: Tally)
        ensures
            r.wf(),
            r.seen() == Seq::<u64>::empty(),
            r.threshold() == threshold,
    {
        Tally { threshold, less: 0, equal: 0, greater: 0, seen: Ghost(Seq::empty()) }
    }

    /// The counts of values before, equal to and after the threshold.
    pub fn counts(&self) -> (r: (usize, usize, usize))
        requires
            self.wf(),
        ensures
            r.0 == below(self.seen(), rank(self.threshold())),
            r.1 == at(self.seen(), rank(self.threshold())),
            r.2 == above(self.seen(), rank(self.threshold())),
            r.0 + r.1 + r.2 == self.seen().len(),
    {
        (self.less, self.equal, self.greater)
    }
}

impl Accumulator for Tally {
    closed spec fn setting(&self) -> int {
        self.threshold as int
    }

    closed spec fn seen(&self) -> Seq<u64> {
        self.seen@
    }

    closed spec fn wf(&self) -> bool {
        let k = rank(self.threshold);
        &&& self.less == below(self.seen@, k)
        &&& self.equal == at(self.seen@, k)
        &&& self.greater == above(self.seen@, k)
        &&& self.less + self.equal + self.greater == self.seen@.len()
    }

    fn step(&mut self, x: u64) {
        let ghost next = self.seen@.push(x);
        assert(next.drop_last() =~= self.seen@);
        if precedes(x, self.threshold) {
            self.less = self.less + 1;
        } else if precedes(self.threshold, x) {
            self.greater = self.greater + 1;
        } else {
            self.equal = self.equal + 1;
        }
        self.seen = Ghost(next);
    }
}

/// How many values a tail of length `k` keeps from `n`.
pub open spec fn kept(n: int, k: int) -> int {
    if n < k {
        n
    } else {
        k
    }
}

/// Keeps the first `k` values shown, and a first-in-first-out window of the
/// last `k`.
pub struct Tails {
    k: usize,
    prefix: Vec<u64>,
    suffix: VecDeque<u64>,
    seen: Ghost<Seq<u64>>,
}

impl Tails {
    pub closed spec fn width(&self) -> nat {
        self.k as nat
    }

    pub proof fn lemma_setting(&self)
        ensures
            self.setting() == self.width(),
    {
    }

    pub fn new(k: usize) -> (r: Tails)
        ensures
            r.wf(),
            r.seen() == Seq::<u64>::empty(),
            r.width() == k,
    {
        let r = Tails { k, prefix: Vec::new(), suffix: VecDeque::new(), seen: Ghost(Seq::empty()) };
        assert(r.prefix@ =~= r.seen@.take(0));
        assert(r.suffix@ =~= r.seen@.skip(0));
        r
    }

    /// The first `k` values in stream order, and the last `k` values with
    /// the oldest in front.
    pub fn into_parts(self) -> (r: (Vec<u64>, VecDeque<u64>))
        requires
            self.wf(),
        ensures
            r.0@ == self.seen().take(kept(self.seen().len() as int, self.width() as int)),
            r.1@ == self.seen().skip(self.seen().len() - kept(self.seen().len() as int, self.width() as int)),
    {
        (self.prefix, self.suffix)
    }
}

impl Accumulator for Tails {
    closed spec fn setting(&self) -> int {
        self.k as int
    }

    closed spec fn seen(&self) -> Seq<u64> {
        self.seen@
    }

    closed spec fn wf(&self) -> bool {
        let n = self.seen@.len() as int;
        let m = kept(n, self.k as int);
        &&& self.prefix@ == self.seen@.take(m)
        &&& self.suffix@ == self.seen@.skip(n - m)
    }

    fn step(&mut self, x: u64) {
        let ghost prev = self.seen@;
        let ghost next = prev.push(x);
        let ghost n = prev.len() as int;
        let ghost k = self.k as int;
        if self.prefix.len() < self.k {
            self.prefix.push(x);
            assert(self.prefix@ =~= next.take(kept(n + 1, k)));
        } else {
            assert(self.prefix@ =~= next.take(kept(n + 1, k)));
        }
        self.suffix.push_back(x);
        if self.suffix.len() > self.k {
            self.suffix.pop_front();
        }
        assert(self.suffix@ =~= next.skip(n + 1 - kept(n + 1, k)));
        self.seen = Ghost(next);
    }
}

} // verus!
