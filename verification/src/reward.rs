//! The reward formula.
//!
//! A staked token accrues `reward.amount` of the reward denomination per full
//! `cycle` seconds of custody, pro rata for a partial cycle (truncating
//! division), and clamped to a maximum of one full `reward.amount` per
//! record: a custody window of many cycles does not multiply the payout.
//! The clamp is a deliberate anti-inflation cap. A custody window shorter
//! than one cycle yields a proportionally smaller reward; shorter than
//! `cycle / amount`, zero.

use vstd::prelude::*;

verus! {

use vstd::arithmetic::div_mod::{
    lemma_div_by_multiple, lemma_div_is_ordered, lemma_div_pos_is_pos, lemma_fundamental_div_mod,
    lemma_hoist_over_denominator,
};
use vstd::arithmetic::mul::lemma_mul_upper_bound;

/// The reward owed for one record: `amount * duration / cycle`, truncating,
/// clamped to `amount`.
pub open spec fn spec_reward(amount: u128, cycle: u64, duration: u64) -> int
    recommends
        cycle >= 1,
{
    let unclamped = (amount as int) * (duration as int) / (cycle as int);
    if unclamped > amount {
        amount as int
    } else {
        unclamped
    }
}

/// The anti-inflation clamp: the reward is never negative and never exceeds
/// one full `amount`, and a custody window of at least one cycle earns
/// exactly `amount` — more elapsed cycles do not multiply the payout.
pub proof fn lemma_reward_clamped(amount: u128, cycle: u64, duration: u64)
    requires
        cycle >= 1,
    ensures
        0 <= spec_reward(amount, cycle, duration) <= amount,
        duration >= cycle ==> spec_reward(amount, cycle, duration) == amount,
{
    let a = amount as int;
    let c = cycle as int;
    let d = duration as int;
    assert(a * d >= 0) by (nonlinear_arith)
        requires
            0 <= a,
            0 <= d,
    ;
    lemma_div_pos_is_pos(a * d, c);
    if d >= c {
        assert(a * c <= a * d) by (nonlinear_arith)
            requires
                c <= d,
                0 <= a,
        ;
        lemma_div_is_ordered(a * c, a * d, c);
        lemma_div_by_multiple(a, c);
    }
}

/// Computes `spec_reward` without overflow for every `u128` amount: for a
/// partial cycle the product `amount * duration` may exceed `u128`, so the
/// quotient is assembled from `amount / cycle` and `amount % cycle` instead.
pub fn compute_reward(amount: u128, cycle: u64, duration: u64) -> (r: u128)
    requires
        cycle >= 1,
    ensures
        r == spec_reward(amount, cycle, duration),
        r <= amount,
{
    if duration >= cycle {
        proof {
            let a = amount as int;
            let c = cycle as int;
            let d = duration as int;
            assert(a * c <= a * d) by (nonlinear_arith)
                requires
                    c <= d,
                    0 <= a,
            ;
            lemma_div_is_ordered(a * c, a * d, c);
            lemma_div_by_multiple(a, c);
        }
        amount
    } else {
        let cycle_w = cycle as u128;
        let duration_w = duration as u128;
        let q = amount / cycle_w;
        let rem = amount % cycle_w;
        proof {
            let a = amount as int;
            let c = cycle as int;
            let d = duration as int;
            lemma_fundamental_div_mod(a, c);
            lemma_mul_upper_bound(
                rem as int,
                0xffff_ffff_ffff_fffe,
                d,
                0xffff_ffff_ffff_fffe,
            );
            lemma_hoist_over_denominator((rem as int) * d, (q as int) * d, cycle as nat);
            assert((rem as int) * d + ((q as int) * d) * c == a * d) by (nonlinear_arith)
                requires
                    a == c * (q as int) + (rem as int),
            ;
            assert(a * d <= a * c) by (nonlinear_arith)
                requires
                    d <= c,
                    0 <= a,
            ;
            lemma_div_is_ordered(a * d, a * c, c);
            lemma_div_by_multiple(a, c);
            lemma_div_pos_is_pos((rem as int) * d, c);
        }
        q * duration_w + (rem * duration_w) / cycle_w
    }
}

} // verus!
