//! The IEEE-754 total order on 64-bit patterns of doubles.
use vstd::prelude::*;

verus! {

/// The sign bit of a double's bit pattern.
pub const SIGN_BIT: u64 = 0x8000_0000_0000_0000;

/// Position of a bit pattern in the IEEE-754 total order: non-negative
/// patterns rank by magnitude, negative ones below them in reverse
/// magnitude (so `-0.0` sits just below `+0.0`).
pub open spec fn rank(bits: u64) -> int {
    if bits >= SIGN_BIT {
        -1 - (bits - SIGN_BIT)
    } else {
        bits as int
    }
}

/// The rank of a pattern, as a machine integer.
pub fn order_key(bits: u64) -> (k: i64)
    ensures
        k == rank(bits),
{
    if bits >= SIGN_BIT {
        -1 - ((bits - SIGN_BIT) as i64)
    } else {
        bits as i64
    }
}

/// Whether `a` comes strictly before `b` in the total order.
pub fn precedes(a: u64, b: u64) -> (r: bool)
    ensures
        r == (rank(a) < rank(b)),
{
    order_key(a) < order_key(b)
}

} // verus!
