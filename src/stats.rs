//! The statistics of a stream of parsed tokens, each one scan.
use vstd::prelude::*;
use std::collections::VecDeque;
use crate::accum::{is_greatest, is_least, kept, Count, Extrema, Tails, Tally};
use crate::scan::{all_parsed, first_malformed, scan, values, Accumulator, MalformedToken};

verus! {

/// The number of values; fails at the first token that did not parse.
pub fn len(tokens: &[Option<u64>]) -> (r: Result<usize, MalformedToken>)
    ensures
        match r {
            Ok(n) => all_parsed(tokens@) && n == tokens@.len(),
            Err(e) => first_malformed(tokens@, e.index as int),
        },
{
    let mut c = Count::new();
    match scan(&mut c, tokens) {
        Ok(()) => {
            assert(values(tokens@).len() == tokens@.len());
            Ok(c.count())
        },
        Err(e) => Err(e),
    }
}

/// The least and the greatest value in the total order, `None` for an empty
/// stream; fails at the first token that did not parse.
pub fn min_max(tokens: &[Option<u64>]) -> (r: Result<Option<(u64, u64)>, MalformedToken>)
    ensures
        match r {
            Ok(None) => all_parsed(tokens@) && tokens@.len() == 0,
            Ok(Some((lo, hi))) => {
                &&& all_parsed(tokens@)
                &&& is_least(values(tokens@), lo)
                &&& is_greatest(values(tokens@), hi)
            },
            Err(e) => first_malformed(tokens@, e.index as int),
        },
{
    let mut x = Extrema::new();
    match scan(&mut x, tokens) {
        Ok(()) => {
            assert(Seq::<u64>::empty() + values(tokens@) =~= values(tokens@));
            Ok(x.result())
        },
        Err(e) => Err(e),
    }
}

/// How many values precede, equal and follow `probe`; fails at the first
/// token that did not parse.
pub fn tally(tokens: &[Option<u64>], probe: u64) -> (r: Result<Tally, MalformedToken>)
    ensures
        match r {
            Ok(t) => {
                &&& all_parsed(tokens@)
                &&& t.wf()
                &&& t.threshold() == probe
                &&& t.seen() == values(tokens@)
            },
            Err(e) => first_malformed(tokens@, e.index as int),
        },
{
    let mut t = Tally::new(probe);
    proof {
        t.lemma_setting();
    }
    match scan(&mut t, tokens) {
        Ok(()) => {
            proof {
                t.lemma_setting();
            }
            assert(Seq::<u64>::empty() + values(tokens@) =~= values(tokens@));
            Ok(t)
        },
        Err(e) => Err(e),
    }
}

/// The first `k` values in stream order, and the last `k` values with the
/// oldest in front (reverse it for most recent first); fails at the first
/// token that did not parse.
pub fn tails(tokens: &[Option<u64>], k: usize) -> (r: Result<(Vec<u64>, VecDeque<u64>), MalformedToken>)
    ensures
        match r {
            Ok((prefix, suffix)) => {
                let v = values(tokens@);
                let m = kept(v.len() as int, k as int);
                &&& all_parsed(tokens@)
                &&& prefix@.len() == m
                &&& suffix@.len() == m
                &&& prefix@ == v.take(m)
                &&& suffix@ == v.skip(v.len() - m)
            },
            Err(e) => first_malformed(tokens@, e.index as int),
        },
{
    let mut t = Tails::new(k);
    proof {
        t.lemma_setting();
    }
    match scan(&mut t, tokens) {
        Ok(()) => {
            proof {
                t.lemma_setting();
            }
            assert(Seq::<u64>::empty() + values(tokens@) =~= values(tokens@));
            Ok(t.into_parts())
        },
        Err(e) => Err(e),
    }
}

} // verus!
