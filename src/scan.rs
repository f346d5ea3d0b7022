//! Feeding a batch of parsed tokens to an accumulator, stopping at the first
//! token that did not parse.
use vstd::prelude::*;

verus! {

/// A statistic under construction: it is shown the stream one value at a
/// time and keeps only what it needs.
pub trait Accumulator {
    /// The values shown so far, in stream order.
    spec fn seen(&self) -> Seq<u64>;

    /// What the accumulator was made with (a threshold, a width), which no
    /// value changes.
    spec fn setting(&self) -> int;

    spec fn wf(&self) -> bool;

    fn step(&mut self, x: u64)
        requires
            old(self).wf(),
            old(self).seen().len() < usize::MAX,
        ensures
            final(self).wf(),
            final(self).seen() == old(self).seen().push(x),
            final(self).setting() == old(self).setting(),
    ;
}

/// Where a token failed to parse as a number: its position among the tokens.
#[derive(Clone, Copy, Debug, PartialEq, Eq, Structural)]
pub struct MalformedToken {
    pub index: usize,
}

/// Every token parsed.
pub open spec fn all_parsed(t: Seq<Option<u64>>) -> bool {
    forall|i: int| 0 <= i < t.len() ==> (#[trigger] t[i]) is Some
}

/// `i` is the first token that did not parse.
pub open spec fn first_malformed(t: Seq<Option<u64>>, i: int) -> bool {
    &&& 0 <= i < t.len()
    &&& t[i] is None
    &&& all_parsed(t.take(i))
}

/// The values of parsed tokens, in order.
pub open spec fn values(t: Seq<Option<u64>>) -> Seq<u64> {
    t.map_values(|o: Option<u64>| match o {
        Some(v) => v,
        None => 0,
    })
}

/// Shows `acc` the value of each token in turn. A token that did not parse
/// ends the scan with an error naming it; the tokens before it have been
/// shown.
pub fn scan<A: Accumulator>(acc: &mut A, tokens: &[Option<u64>]) -> (r: Result<(), MalformedToken>)
    requires
        old(acc).wf(),
        old(acc).seen().len() + tokens.len() <= usize::MAX,
    ensures
        final(acc).wf(),
        final(acc).setting() == old(acc).setting(),
        match r {
            Ok(_) => all_parsed(tokens@) && final(acc).seen() == old(acc).seen() + values(tokens@),
            Err(e) => first_malformed(tokens@, e.index as int) && final(acc).seen() == old(acc).seen()
                + values(tokens@.take(e.index as int)),
        },
{
    let ghost start = acc.seen();
    let mut i: usize = 0;
    assert(start + values(tokens@.take(0)) =~= start);
    while i < tokens.len()
        invariant
            acc.wf(),
            i <= tokens.len(),
            start == old(acc).seen(),
            acc.setting() == old(acc).setting(),
            start.len() + tokens@.len() <= usize::MAX,
            all_parsed(tokens@.take(i as int)),
            acc.seen() == start + values(tokens@.take(i as int)),
        decreases tokens.len() - i,
    {
        match tokens[i] {
            Some(x) => {
                acc.step(x);
                assert(values(tokens@.take(i + 1)) =~= values(tokens@.take(i as int)).push(x));
                assert(all_parsed(tokens@.take(i + 1))) by {
                    assert forall|j: int| 0 <= j < i + 1 implies (#[trigger] tokens@.take(i + 1)[j]) is Some by {
                        if j < i {
                            assert(tokens@.take(i + 1)[j] == tokens@.take(i as int)[j]);
                        }
                    }
                }
            },
            None => {
                return Err(MalformedToken { index: i });
            },
        }
        i = i + 1;
    }
    assert(tokens@.take(i as int) =~= tokens@);
    Ok(())
}

} // verus!
