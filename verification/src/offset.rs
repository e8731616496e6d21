//! The offset adjustment algorithm: a symmetric half-step convergence rule.
//!
//! A node keeps a signed correction `offset` (milliseconds) that it adds to
//! its wall clock. On every decoded inbound timestamp `remote_ts` it computes
//! `diff = remote_ts - (local_now + offset)` and moves the offset by half the
//! difference, truncated toward zero. Under steady periodic exchange with
//! negligible, symmetric network delay the nodes' adjusted clocks approach
//! each other geometrically.
use vstd::prelude::*;

verus! {

/// Halving with truncation toward zero, as the `/` of a signed machine
/// integer behaves: `7 / 2 == 3` and `-7 / 2 == -3`.
pub open spec fn half_toward_zero(d: int) -> int {
    if d >= 0 {
        d / 2
    } else {
        -((-d) / 2)
    }
}

/// The new offset after one inbound timestamp: the local estimate is
/// `local_now + offset`, and the offset moves by half the disagreement.
pub open spec fn spec_adjust(offset: int, local_now: int, remote_ts: int) -> int {
    offset + half_toward_zero(remote_ts - (local_now + offset))
}

/// Does the adjustment for `remote_ts` stay inside `i128` the whole way?
/// The algorithm itself has no clamp, so a timestamp far from the local
/// estimate can move the offset arbitrarily; this predicate only rules out
/// the casts and sums that the machine cannot represent.
pub open spec fn adjust_in_range(offset: i128, local_now: i128, remote_ts: u128) -> bool {
    &&& remote_ts <= i128::MAX
    &&& i128::MIN <= local_now + offset <= i128::MAX
    &&& i128::MIN < remote_ts - (local_now + offset) <= i128::MAX
    &&& i128::MIN <= spec_adjust(offset as int, local_now as int, remote_ts as int) <= i128::MAX
}

/// One receive shrinks the disagreement and never overshoots. Node `a`
/// (clock skew `skew_a`, correction `off_a`) receives, at true instant `t`,
/// the adjusted timestamp of node `b` with zero network delay. Writing `gap`
/// for how far `b`'s adjusted clock runs ahead of `a`'s, the new gap after
/// `a`'s update keeps the old gap's sign, is no larger in magnitude, and
/// shrinks strictly whenever the clocks disagreed by two milliseconds or
/// more: under steady periodic exchange the adjusted clocks approach each
/// other geometrically.
pub proof fn lemma_adjust_shrinks_gap(t: int, skew_a: int, off_a: int, skew_b: int, off_b: int)
    ensures
        ({
            let gap = (skew_b + off_b) - (skew_a + off_a);
            let off_a2 = spec_adjust(off_a, t + skew_a, t + skew_b + off_b);
            let gap2 = (skew_b + off_b) - (skew_a + off_a2);
            &&& gap >= 0 ==> 0 <= gap2 <= gap
            &&& gap <= 0 ==> gap <= gap2 <= 0
            &&& gap >= 2 ==> gap2 < gap
            &&& gap <= -2 ==> gap2 > gap
        }),
{
}

/// A simultaneous zero-delay exchange leaves the sum of the two corrections
/// exactly as it was — both nodes start at zero, so the sum of their offsets
/// stays at zero through every exchange — and afterwards the two adjusted
/// clocks agree to within one millisecond.
pub proof fn lemma_exchange_converges(t: int, skew_a: int, off_a: int, skew_b: int, off_b: int)
    ensures
        ({
            let off_a2 = spec_adjust(off_a, t + skew_a, t + skew_b + off_b);
            let off_b2 = spec_adjust(off_b, t + skew_b, t + skew_a + off_a);
            let gap2 = (skew_b + off_b2) - (skew_a + off_a2);
            &&& off_a2 + off_b2 == off_a + off_b
            &&& -1 <= gap2 <= 1
        }),
{
    let gap = (skew_b + off_b) - (skew_a + off_a);
    assert(half_toward_zero(-gap) == -half_toward_zero(gap));
}

/// One application of the adjustment rule.
pub fn adjust_offset(offset: i128, local_now: i128, remote_ts: u128) -> (r: i128)
    requires
        adjust_in_range(offset, local_now, remote_ts),
    ensures
        r == spec_adjust(offset as int, local_now as int, remote_ts as int),
{
    let local_estimate: i128 = local_now + offset;
    let diff: i128 = (remote_ts as i128) - local_estimate;
    let half: i128 = if diff >= 0 {
        ((diff as u128) / 2) as i128
    } else {
        -(((-diff) as u128 / 2) as i128)
    };
    offset + half
}

} // verus!
