//! Swap fees (base plus volatility-driven variable part), their split between
//! the protocol and liquidity providers, and time-weighted reward accrual.

use vstd::prelude::*;
use crate::math::{bin_distance, bps_of, BASIS_POINT_MAX, ONE, LbError};

verus! {

/// A fee taken from an input amount and its split.
#[derive(Debug, Clone, Copy, PartialEq, Eq, Structural)]
pub struct FeeSplit {
    pub fee: u64,
    pub protocol_fee: u64,
    pub lp_fee: u64,
}

/// Fee charged on `amount_in` at `fee_bps`, of which `protocol_share_bps`
/// goes to the protocol and the rest to liquidity providers. Both shares
/// round down on the fee side, the protocol's share down from the fee.
pub fn split_fee(amount_in: u64, fee_bps: u64, protocol_share_bps: u64) -> (r: FeeSplit)
    requires
        fee_bps <= BASIS_POINT_MAX,
        protocol_share_bps <= BASIS_POINT_MAX,
    ensures
        r.fee as int == amount_in as int * fee_bps as int / BASIS_POINT_MAX as int,
        r.protocol_fee as int == r.fee as int * protocol_share_bps as int
            / BASIS_POINT_MAX as int,
        r.protocol_fee + r.lp_fee == r.fee,
        r.fee <= amount_in,
{
    let fee = bps_of(amount_in, fee_bps);
    let protocol_fee = bps_of(fee, protocol_share_bps);
    FeeSplit { fee, protocol_fee, lp_fee: fee - protocol_fee }
}

/// Policy constants of the volatility-driven variable fee.
#[derive(Debug, Clone, Copy, PartialEq, Eq, Structural)]
pub struct FeeParameters {
    pub base_fee_bps: u16,
    pub max_fee_bps: u16,
    pub variable_fee_control: u32,
    pub max_volatility_accumulator: u32,
    pub filter_period: u64,
    pub decay_period: u64,
    pub reduction_factor_bps: u16,
    pub protocol_share_bps: u16,
}

impl FeeParameters {
    pub open spec fn wf(&self) -> bool {
        &&& self.base_fee_bps <= self.max_fee_bps
        &&& self.max_fee_bps <= BASIS_POINT_MAX
        &&& self.reduction_factor_bps <= BASIS_POINT_MAX
        &&& self.protocol_share_bps <= BASIS_POINT_MAX
        &&& self.filter_period <= self.decay_period
    }
}

/// Volatility state carried by a pool between swaps.
#[derive(Debug, Clone, Copy, PartialEq, Eq, Structural)]
pub struct VolatilityState {
    pub volatility_accumulator: u32,
    pub volatility_reference: u32,
    pub index_reference: i32,
    pub last_update: u64,
}

/// Denominator that maps `control * (accumulator * bin_step)^2` to basis points.
pub const VARIABLE_FEE_PRECISION: u128 = 100_000_000_000;

/// Variable fee in basis points, before capping.
pub open spec fn variable_fee_spec(control: int, accumulator: int, bin_step: int) -> int {
    let s = accumulator * bin_step;
    (control * (s * s) + VARIABLE_FEE_PRECISION - 1) / (VARIABLE_FEE_PRECISION as int)
}

/// Total fee rate: base plus variable, capped at the maximum.
pub open spec fn total_fee_spec(p: FeeParameters, accumulator: int, bin_step: int) -> int {
    let t = p.base_fee_bps + variable_fee_spec(p.variable_fee_control as int, accumulator, bin_step);
    if t < p.max_fee_bps { t } else { p.max_fee_bps as int }
}

/// Total fee rate in basis points for the given volatility accumulator.
pub fn total_fee_bps(p: &FeeParameters, accumulator: u32, bin_step: u16) -> (r: u64)
    requires
        p.wf(),
    ensures
        r == total_fee_spec(*p, accumulator as int, bin_step as int),
        r <= BASIS_POINT_MAX,
{
    assert(accumulator as int * bin_step as int <= 0x1_0000_0000_0000) by (nonlinear_arith)
        requires
            accumulator <= u32::MAX,
            bin_step <= u16::MAX,
    ;
    let s: u128 = accumulator as u128 * bin_step as u128;
    assert(s * s <= 0x1_0000_0000_0000 * 0x1_0000_0000_0000) by (nonlinear_arith)
        requires
            s <= 0x1_0000_0000_0000,
    ;
    let sq: u128 = s * s;
    let control = p.variable_fee_control as u128;
    let max = p.max_fee_bps as u64;
    if control > 0 && sq > u128::MAX / control {
        proof {
            let c = control as int;
            let q = sq as int;
            assert(c * q > u128::MAX) by (nonlinear_arith)
                requires c > 0, q > (u128::MAX as int) / c;
            assert((c * q + VARIABLE_FEE_PRECISION - 1) / (VARIABLE_FEE_PRECISION as int) >= 10000)
                by (nonlinear_arith)
                requires c * q > u128::MAX as int;
        }
        return max;
    }
    assert(control * sq <= u128::MAX) by (nonlinear_arith)
        requires control == 0 || sq <= u128::MAX / control;
    let prod = control * sq;
    let variable = if prod > u128::MAX - (VARIABLE_FEE_PRECISION - 1) {
        BASIS_POINT_MAX as u128 + 1
    } else {
        (prod + (VARIABLE_FEE_PRECISION - 1)) / VARIABLE_FEE_PRECISION
    };
    let t = p.base_fee_bps as u128 + variable;
    if t < max as u128 {
        t as u64
    } else {
        max
    }
}

/// The volatility state after `update_references`.
pub open spec fn after_references(p: FeeParameters, s: VolatilityState, active_id: i32, now: u64) -> VolatilityState {
    let elapsed = if now >= s.last_update { now - s.last_update } else { 0 };
    VolatilityState {
        volatility_reference: if elapsed < p.filter_period {
            s.volatility_reference
        } else if elapsed < p.decay_period {
            (s.volatility_accumulator as int * p.reduction_factor_bps as int / BASIS_POINT_MAX as int) as u32
        } else {
            0
        },
        index_reference: if elapsed < p.filter_period {
            s.index_reference
        } else {
            active_id
        },
        last_update: now,
        ..s
    }
}

/// The volatility state after `update_volatility_accumulator`.
pub open spec fn after_accumulator(p: FeeParameters, s: VolatilityState, active_id: i32) -> VolatilityState {
    let t = s.volatility_reference + bin_distance(s.index_reference as int, active_id as int)
        * BASIS_POINT_MAX;
    VolatilityState {
        volatility_accumulator: if t < p.max_volatility_accumulator {
            t as u32
        } else {
            p.max_volatility_accumulator
        },
        ..s
    }
}

/// Decays the volatility reference by the time elapsed since the last
/// update: kept within the filter period, scaled by the reduction factor
/// within the decay period, cleared after it. Past the filter period the
/// index reference moves to the active bin.
pub fn update_references(p: &FeeParameters, s: &mut VolatilityState, active_id: i32, now: u64)
    requires
        p.wf(),
    ensures
        ({
            let elapsed = if now >= old(s).last_update { now - old(s).last_update } else { 0 };
            &&& elapsed < p.filter_period ==> final(s).volatility_reference
                == old(s).volatility_reference && final(s).index_reference
                == old(s).index_reference
            &&& p.filter_period <= elapsed < p.decay_period ==> final(s).volatility_reference
                == old(s).volatility_accumulator as int * p.reduction_factor_bps as int
                / BASIS_POINT_MAX as int && final(s).index_reference == active_id
            &&& p.decay_period <= elapsed ==> final(s).volatility_reference == 0
                && final(s).index_reference == active_id
        }),
        final(s).volatility_accumulator == old(s).volatility_accumulator,
        final(s).last_update == now,
        *final(s) == after_references(*p, *old(s), active_id, now),
{
    let elapsed: u64 = if now >= s.last_update { now - s.last_update } else { 0 };
    if elapsed >= p.filter_period {
        s.index_reference = active_id;
        if elapsed < p.decay_period {
            s.volatility_reference = bps_of(
                s.volatility_accumulator as u64,
                p.reduction_factor_bps as u64,
            ) as u32;
        } else {
            s.volatility_reference = 0;
        }
    }
    s.last_update = now;
}

/// Grows the accumulator by the distance (in bins, times 10000) between the
/// index reference and the active bin, capped at the configured maximum.
pub fn update_volatility_accumulator(p: &FeeParameters, s: &mut VolatilityState, active_id: i32)
    ensures
        ({
            let t = old(s).volatility_reference + bin_distance(
                old(s).index_reference as int,
                active_id as int,
            ) * BASIS_POINT_MAX;
            final(s).volatility_accumulator == if t < p.max_volatility_accumulator {
                t
            } else {
                p.max_volatility_accumulator as int
            }
        }),
        final(s).volatility_reference == old(s).volatility_reference,
        final(s).index_reference == old(s).index_reference,
        final(s).last_update == old(s).last_update,
        *final(s) == after_accumulator(*p, *old(s), active_id),
{
    let a = s.index_reference as i64;
    let b = active_id as i64;
    let d: u64 = if a >= b { (a - b) as u64 } else { (b - a) as u64 };
    let t: u128 = s.volatility_reference as u128 + d as u128 * BASIS_POINT_MAX as u128;
    if t < p.max_volatility_accumulator as u128 {
        s.volatility_accumulator = t as u32;
    } else {
        s.volatility_accumulator = p.max_volatility_accumulator;
    }
}

/// Outcome of advancing a reward slot over an interval.
#[derive(Debug, Clone, Copy, PartialEq, Eq, Structural)]
pub struct RewardAccrual {
    /// Increase of the reward-per-share accumulator (Q32.32).
    pub per_share_delta: u128,
    /// Reward of a zero-liquidity interval that stays for later distribution.
    pub carried: u64,
    /// Reward of a zero-liquidity interval that is given up.
    pub forfeited: u64,
}

/// Advances a reward slot paying `rate` per time unit over `elapsed` units
/// shared by `liquidity`. With no liquidity the interval's reward is carried
/// forward or forfeited, as `carry_forward` chooses. Fails `Overflow` when
/// the interval's reward does not fit in `u64`.
pub fn accrue_reward(rate: u64, elapsed: u64, liquidity: u64, carry_forward: bool) -> (r: Result<
    RewardAccrual,
    LbError,
>)
    ensures
        rate as int * elapsed as int > u64::MAX <==> r is Err,
        r is Err ==> r == Err::<RewardAccrual, LbError>(LbError::Overflow),
        r matches Ok(a) ==> {
            let total = rate as int * elapsed as int;
            &&& liquidity > 0 ==> a.per_share_delta == total * ONE as int / liquidity as int
                && a.carried == 0 && a.forfeited == 0
            &&& liquidity == 0 && carry_forward ==> a.per_share_delta == 0 && a.carried == total
                && a.forfeited == 0
            &&& liquidity == 0 && !carry_forward ==> a.per_share_delta == 0 && a.carried == 0
                && a.forfeited == total
        },
{
    assert(rate as int * elapsed as int <= u64::MAX as int * u64::MAX as int) by (nonlinear_arith);
    let total: u128 = rate as u128 * elapsed as u128;
    if total > u64::MAX as u128 {
        return Err(LbError::Overflow);
    }
    let total = total as u64;
    if liquidity == 0 {
        if carry_forward {
            Ok(RewardAccrual { per_share_delta: 0, carried: total, forfeited: 0 })
        } else {
            Ok(RewardAccrual { per_share_delta: 0, carried: 0, forfeited: total })
        }
    } else {
        let d = crate::math::mul_div_u128(
            total as u128,
            ONE as u128,
            liquidity as u128,
            crate::math::Rounding::Down,
        );
        Ok(RewardAccrual { per_share_delta: d, carried: 0, forfeited: 0 })
    }
}

} // verus!
