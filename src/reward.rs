use vstd::arithmetic::div_mod::lemma_div_is_ordered;
use vstd::arithmetic::mul::lemma_mul_inequality;
use vstd::prelude::*;

verus! {

/// Basis points in one whole (100%).
pub const BPS_DENOMINATOR: u128 = 10_000;

/// Seconds in a 365-day year.
pub const SECONDS_PER_YEAR: u128 = 31_536_000;

/// Yearly reward of `amount` at `apy_bps` basis points, rounded down.
pub open spec fn annual_reward(amount: nat, apy_bps: nat) -> nat {
    (amount * apy_bps / 10_000) as nat
}

/// Reward accrued by `amount` at `apy_bps` over `elapsed` seconds: the yearly
/// reward scaled by the elapsed fraction of a year, each division rounding down
/// after the multiplication.
pub open spec fn reward_amount(amount: nat, apy_bps: nat, elapsed: nat) -> nat {
    (annual_reward(amount, apy_bps) * elapsed / 31_536_000) as nat
}

/// Whether the intermediate products of the reward computation fit in 128 bits.
pub open spec fn reward_fits(amount: nat, apy_bps: nat, elapsed: nat) -> bool {
    &&& amount * apy_bps <= u128::MAX
    &&& annual_reward(amount, apy_bps) * elapsed <= u128::MAX
}

/// Reward accrued by `amount` at `apy_bps` basis points over `time_elapsed`
/// seconds; `None` when an intermediate product does not fit in 128 bits.
pub fn calculate_rewards(amount: u128, apy: u64, time_elapsed: u64) -> (r: Option<u128>)
    ensures
        r == (if reward_fits(amount as nat, apy as nat, time_elapsed as nat) {
            Some(reward_amount(amount as nat, apy as nat, time_elapsed as nat) as u128)
        } else {
            None
        }),
{
    let scaled = match amount.checked_mul(apy as u128) {
        Some(v) => v,
        None => return None,
    };
    let annual = scaled / BPS_DENOMINATOR;
    match annual.checked_mul(time_elapsed as u128) {
        Some(v) => Some(v / SECONDS_PER_YEAR),
        None => None,
    }
}

/// The reward never decreases when the elapsed time grows, the amount and the
/// rate staying fixed.
pub proof fn lemma_reward_monotonic_in_elapsed(amount: nat, apy_bps: nat, e1: nat, e2: nat)
    requires
        e1 <= e2,
    ensures
        reward_amount(amount, apy_bps, e1) <= reward_amount(amount, apy_bps, e2),
{
    let annual = annual_reward(amount, apy_bps) as int;
    lemma_mul_inequality(e1 as int, e2 as int, annual);
    assert(annual * e1 == e1 * annual && annual * e2 == e2 * annual) by (nonlinear_arith);
    lemma_div_is_ordered(annual * e1, annual * e2, 31_536_000);
}

/// The reward never decreases when the rate grows, the amount and the elapsed
/// time staying fixed.
pub proof fn lemma_reward_monotonic_in_rate(amount: nat, a1: nat, a2: nat, elapsed: nat)
    requires
        a1 <= a2,
    ensures
        reward_amount(amount, a1, elapsed) <= reward_amount(amount, a2, elapsed),
{
    lemma_mul_inequality(a1 as int, a2 as int, amount as int);
    assert(a1 * amount == amount * a1 && a2 * amount == amount * a2) by (nonlinear_arith);
    lemma_div_is_ordered((amount * a1) as int, (amount * a2) as int, 10_000);
    let y1 = annual_reward(amount, a1) as int;
    let y2 = annual_reward(amount, a2) as int;
    lemma_mul_inequality(y1, y2, elapsed as int);
    lemma_div_is_ordered(y1 * elapsed, y2 * elapsed, 31_536_000);
}

/// A zero rate accrues nothing, whatever the amount and the elapsed time, and
/// the computation then always succeeds.
pub proof fn lemma_zero_rate_accrues_nothing(amount: nat, elapsed: nat)
    ensures
        reward_amount(amount, 0, elapsed) == 0,
        reward_fits(amount, 0, elapsed),
{
    assert(amount * 0 == 0) by (nonlinear_arith);
    assert(0nat * elapsed == 0) by (nonlinear_arith);
}

} // verus!
