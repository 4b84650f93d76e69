//! A single price bin: reserves, minted shares and per-share fee
//! accumulators, and a position's stake in it.

use vstd::prelude::*;
use crate::math::{wrap128, wrapping_add_u128, wrapping_sub_u128, ONE, LbError};

verus! {

/// Reserves and share accounting of one bin.
#[derive(Debug, Clone, Copy, PartialEq, Eq, Structural)]
pub struct Bin {
    pub amount_x: u64,
    pub amount_y: u64,
    pub liquidity_supply: u64,
    /// Fee of token X earned per share, Q32.32.
    pub fee_x_per_share: u128,
    /// Fee of token Y earned per share, Q32.32.
    pub fee_y_per_share: u128,
    /// Reward of slot 0 earned per share, Q32.32.
    pub reward_0_per_share: u128,
    /// Reward of slot 1 earned per share, Q32.32.
    pub reward_1_per_share: u128,
}

/// Value of `(dx, dy)` in units of Y at Q32.32 price `p` (rounded down).
pub open spec fn value_spec(dx: int, dy: int, p: int) -> int {
    dx * p / ONE as int + dy
}

/// Shares minted for depositing `(dx, dy)` into `b` at price `p`: the
/// deposit's value for a bin without shares or value, otherwise the value's
/// proportion of the bin's value times the supply, rounded down.
pub open spec fn minted_spec(b: Bin, dx: int, dy: int, p: int) -> int {
    let v = value_spec(dx, dy, p);
    let bv = value_spec(b.amount_x as int, b.amount_y as int, p);
    if b.liquidity_supply == 0 || bv == 0 {
        v
    } else {
        v * b.liquidity_supply / bv
    }
}

/// Amount paid out for burning `shares` of a reserve `amount` backing
/// `supply` shares (rounded down).
pub open spec fn share_of_spec(shares: int, amount: int, supply: int) -> int {
    shares * amount / supply
}

impl Bin {
    pub open spec fn empty_spec() -> Bin {
        Bin {
            amount_x: 0,
            amount_y: 0,
            liquidity_supply: 0,
            fee_x_per_share: 0,
            fee_y_per_share: 0,
            reward_0_per_share: 0,
            reward_1_per_share: 0,
        }
    }

    /// A bin without shares holds nothing.
    pub open spec fn wf(&self) -> bool {
        self.liquidity_supply == 0 ==> self.amount_x == 0 && self.amount_y == 0
    }

    pub fn empty() -> (r: Bin)
        ensures
            r.wf(),
            r == Bin::empty_spec(),
    {
        Bin {
            amount_x: 0,
            amount_y: 0,
            liquidity_supply: 0,
            fee_x_per_share: 0,
            fee_y_per_share: 0,
            reward_0_per_share: 0,
            reward_1_per_share: 0,
        }
    }

    /// Value of a deposit at price `p`; fails `Overflow` beyond `u64`.
    pub fn liquidity_value(dx: u64, dy: u64, p: u64) -> (r: Result<u64, LbError>)
        ensures
            value_spec(dx as int, dy as int, p as int) <= u64::MAX ==> r == Ok::<u64, LbError>(
                value_spec(dx as int, dy as int, p as int) as u64,
            ),
            value_spec(dx as int, dy as int, p as int) > u64::MAX ==> r == Err::<u64, LbError>(
                LbError::Overflow,
            ),
    {
        let v = Self::value_u128(dx, dy, p);
        if v > u64::MAX as u128 {
            Err(LbError::Overflow)
        } else {
            Ok(v as u64)
        }
    }

    fn value_u128(dx: u64, dy: u64, p: u64) -> (r: u128)
        ensures
            r == value_spec(dx as int, dy as int, p as int),
    {
        assert(dx as int * p as int <= u64::MAX as int * u64::MAX as int) by (nonlinear_arith)
            requires dx <= u64::MAX, p <= u64::MAX;
        assert(dx as int * p as int / ONE as int <= u64::MAX as int * u64::MAX as int / ONE as int)
            by (nonlinear_arith)
            requires dx as int * p as int <= u64::MAX as int * u64::MAX as int;
        dx as u128 * p as u128 / ONE as u128 + dy as u128
    }

    /// Deposits `(dx, dy)` at price `p` and mints shares for it. Fails
    /// `Overflow` when the deposit's value, a reserve or the supply leaves
    /// `u64`, and `ZeroLiquidity` when it would mint no share; a failure
    /// leaves the bin as it was.
    pub fn deposit(&mut self, dx: u64, dy: u64, p: u64) -> (r: Result<u64, LbError>)
        requires
            old(self).wf(),
        ensures
            final(self).wf(),
            ({
                let b = *old(self);
                let v = value_spec(dx as int, dy as int, p as int);
                let m = minted_spec(b, dx as int, dy as int, p as int);
                &&& r == Err::<u64, LbError>(LbError::ZeroLiquidity) <==> v <= u64::MAX && m == 0
                &&& r == Err::<u64, LbError>(LbError::Overflow) <==> v > u64::MAX || (m > 0 && (
                b.amount_x + dx > u64::MAX || b.amount_y + dy > u64::MAX || b.liquidity_supply + m
                    > u64::MAX))
                &&& r is Err ==> *final(self) == b && (r == Err::<u64, LbError>(
                    LbError::ZeroLiquidity,
                ) || r == Err::<u64, LbError>(LbError::Overflow))
                &&& r matches Ok(minted) ==> minted == m && *final(self) == (Bin {
                    amount_x: (b.amount_x + dx) as u64,
                    amount_y: (b.amount_y + dy) as u64,
                    liquidity_supply: (b.liquidity_supply + m) as u64,
                    ..b
                })
            }),
    {
        let v = match Self::liquidity_value(dx, dy, p) {
            Ok(v) => v,
            Err(e) => {
                return Err(e);
            },
        };
        let bv = Self::value_u128(self.amount_x, self.amount_y, p);
        let m: u64 = if self.liquidity_supply == 0 || bv == 0 {
            v
        } else {
            assert(v as int * self.liquidity_supply as int <= u64::MAX as int * u64::MAX as int)
                by (nonlinear_arith)
                requires v <= u64::MAX, self.liquidity_supply <= u64::MAX;
            let q = v as u128 * self.liquidity_supply as u128 / bv;
            assert(q <= v as int * self.liquidity_supply as int / 1) by (nonlinear_arith)
                requires q == v as int * self.liquidity_supply as int / bv as int, bv >= 1;
            if q > u64::MAX as u128 {
                return Err(LbError::Overflow);
            }
            q as u64
        };
        if m == 0 {
            return Err(LbError::ZeroLiquidity);
        }
        if self.amount_x > u64::MAX - dx || self.amount_y > u64::MAX - dy || self.liquidity_supply
            > u64::MAX - m {
            return Err(LbError::Overflow);
        }
        self.amount_x = self.amount_x + dx;
        self.amount_y = self.amount_y + dy;
        self.liquidity_supply = self.liquidity_supply + m;
        Ok(m)
    }

    /// Burns `shares` and pays out their part of each reserve, rounded down.
    pub fn withdraw(&mut self, shares: u64) -> (r: (u64, u64))
        requires
            old(self).wf(),
            shares <= old(self).liquidity_supply,
        ensures
            final(self).wf(),
            ({
                let b = *old(self);
                let s = b.liquidity_supply as int;
                &&& s > 0 ==> r.0 == share_of_spec(shares as int, b.amount_x as int, s)
                &&& s > 0 ==> r.1 == share_of_spec(shares as int, b.amount_y as int, s)
                &&& s == 0 ==> r == (0u64, 0u64)
                &&& r.0 <= b.amount_x && r.1 <= b.amount_y
                &&& *final(self) == (Bin {
                    amount_x: (b.amount_x - r.0) as u64,
                    amount_y: (b.amount_y - r.1) as u64,
                    liquidity_supply: (b.liquidity_supply - shares) as u64,
                    ..b
                })
            }),
    {
        if self.liquidity_supply == 0 {
            return (0, 0);
        }
        let s = self.liquidity_supply;
        let dx = Self::share_of(shares, self.amount_x, s);
        let dy = Self::share_of(shares, self.amount_y, s);
        if shares == s {
            assert(dx == self.amount_x) by (nonlinear_arith)
                requires dx == shares as int * self.amount_x as int / s as int, shares == s, s > 0;
            assert(dy == self.amount_y) by (nonlinear_arith)
                requires dy == shares as int * self.amount_y as int / s as int, shares == s, s > 0;
        }
        self.amount_x = self.amount_x - dx;
        self.amount_y = self.amount_y - dy;
        self.liquidity_supply = s - shares;
        (dx, dy)
    }

    fn share_of(shares: u64, amount: u64, supply: u64) -> (r: u64)
        requires
            shares <= supply,
            supply > 0,
        ensures
            r == share_of_spec(shares as int, amount as int, supply as int),
            r <= amount,
    {
        assert(shares as int * amount as int / supply as int <= amount) by (nonlinear_arith)
            requires shares <= supply, supply > 0;
        crate::math::mul_div_u128(
            shares as u128,
            amount as u128,
            supply as u128,
            crate::math::Rounding::Down,
        ) as u64
    }

    /// Reward accumulator of slot `slot` (0 or 1).
    pub open spec fn reward_per_share(&self, slot: int) -> u128 {
        if slot == 0 {
            self.reward_0_per_share
        } else {
            self.reward_1_per_share
        }
    }

    /// Credits `delta` (Q32.32 per share) to reward slot `slot` (0 or 1).
    /// Fails `Overflow`, changing nothing, when the accumulator leaves
    /// `u128`.
    pub fn accrue_reward_share(&mut self, slot: usize, delta: u128) -> (r: Result<(), LbError>)
        requires
            slot < 2,
        ensures
            r is Err <==> old(self).reward_per_share(slot as int) + delta > u128::MAX,
            r is Err ==> r == Err::<(), LbError>(LbError::Overflow) && *final(self) == *old(self),
            r is Ok ==> slot == 0 ==> *final(self) == (Bin {
                reward_0_per_share: (old(self).reward_0_per_share + delta) as u128,
                ..*old(self)
            }),
            r is Ok ==> slot == 1 ==> *final(self) == (Bin {
                reward_1_per_share: (old(self).reward_1_per_share + delta) as u128,
                ..*old(self)
            }),
    {
        if slot == 0 {
            if self.reward_0_per_share > u128::MAX - delta {
                return Err(LbError::Overflow);
            }
            self.reward_0_per_share = self.reward_0_per_share + delta;
        } else {
            if self.reward_1_per_share > u128::MAX - delta {
                return Err(LbError::Overflow);
            }
            self.reward_1_per_share = self.reward_1_per_share + delta;
        }
        Ok(())
    }

    /// Credits fees to the bin's shares: each accumulator grows by
    /// `floor(fee * 2^32 / supply)`, wrapping at `2^128` (stakes settle by
    /// the wrapping difference, so a wrap loses nothing). Fails
    /// `ZeroLiquidity`, changing nothing, on a bin without shares.
    pub fn accrue_fee(&mut self, fee_x: u64, fee_y: u64) -> (r: Result<(), LbError>)
        ensures
            r is Err <==> old(self).liquidity_supply == 0,
            r is Err ==> r == Err::<(), LbError>(LbError::ZeroLiquidity) && *final(self) == *old(
                self,
            ),
            r is Ok ==> *final(self) == credited(*old(self), fee_x as int, fee_y as int),
    {
        if self.liquidity_supply == 0 {
            return Err(LbError::ZeroLiquidity);
        }
        let s = self.liquidity_supply as u128;
        let gx = crate::math::mul_div_u128(fee_x as u128, ONE as u128, s, crate::math::Rounding::Down);
        let gy = crate::math::mul_div_u128(fee_y as u128, ONE as u128, s, crate::math::Rounding::Down);
        self.fee_x_per_share = wrapping_add_u128(self.fee_x_per_share, gx);
        self.fee_y_per_share = wrapping_add_u128(self.fee_y_per_share, gy);
        Ok(())
    }
}

/// `b` after fees `fx` and `fy` are credited to its shares.
pub open spec fn credited(b: Bin, fx: int, fy: int) -> Bin {
    let s = b.liquidity_supply as int;
    Bin {
        fee_x_per_share: wrap128(b.fee_x_per_share + fx * ONE as int / s) as u128,
        fee_y_per_share: wrap128(b.fee_y_per_share + fy * ONE as int / s) as u128,
        ..b
    }
}

/// A position's stake in one bin: its shares, the accumulators it last
/// settled at, and fees and rewards settled but not yet claimed.
#[derive(Debug, Clone, Copy, PartialEq, Eq, Structural)]
pub struct PositionBin {
    pub share: u64,
    pub fee_x_snapshot: u128,
    pub fee_y_snapshot: u128,
    pub fee_x_pending: u64,
    pub fee_y_pending: u64,
    pub reward_0_snapshot: u128,
    pub reward_1_snapshot: u128,
    pub reward_0_pending: u64,
    pub reward_1_pending: u64,
}

/// Amount owed on `share` shares for an accumulator that moved from
/// `snapshot` to `current` (by the difference modulo `2^128`).
pub open spec fn owed_spec(current: int, snapshot: int, share: int) -> int {
    wrap128(current - snapshot) * share / ONE as int
}

/// Settling one accumulator stays within the types.
pub open spec fn owed_ok(current: int, snapshot: int, share: int, pending: int) -> bool {
    &&& wrap128(current - snapshot) * share <= u128::MAX
    &&& pending + owed_spec(current, snapshot, share) <= u64::MAX
}

/// Pending amount after settling one accumulator.
pub open spec fn pending_after(current: int, snapshot: int, share: int, pending: int) -> u64 {
    (pending + owed_spec(current, snapshot, share)) as u64
}

impl PositionBin {
    pub open spec fn empty_spec() -> PositionBin {
        PositionBin {
            share: 0,
            fee_x_snapshot: 0,
            fee_y_snapshot: 0,
            fee_x_pending: 0,
            fee_y_pending: 0,
            reward_0_snapshot: 0,
            reward_1_snapshot: 0,
            reward_0_pending: 0,
            reward_1_pending: 0,
        }
    }

    pub fn empty() -> (r: PositionBin)
        ensures
            r == PositionBin::empty_spec(),
    {
        PositionBin {
            share: 0,
            fee_x_snapshot: 0,
            fee_y_snapshot: 0,
            fee_x_pending: 0,
            fee_y_pending: 0,
            reward_0_snapshot: 0,
            reward_1_snapshot: 0,
            reward_0_pending: 0,
            reward_1_pending: 0,
        }
    }

    /// Every accumulator of `b` can be settled into this stake.
    pub open spec fn settle_ok(&self, b: Bin) -> bool {
        &&& owed_ok(
            b.fee_x_per_share as int,
            self.fee_x_snapshot as int,
            self.share as int,
            self.fee_x_pending as int,
        )
        &&& owed_ok(
            b.fee_y_per_share as int,
            self.fee_y_snapshot as int,
            self.share as int,
            self.fee_y_pending as int,
        )
        &&& owed_ok(
            b.reward_0_per_share as int,
            self.reward_0_snapshot as int,
            self.share as int,
            self.reward_0_pending as int,
        )
        &&& owed_ok(
            b.reward_1_per_share as int,
            self.reward_1_snapshot as int,
            self.share as int,
            self.reward_1_pending as int,
        )
    }

    /// The stake after settling against `b`: what each accumulator earned
    /// since its snapshot is pending, and the snapshots are `b`'s.
    pub open spec fn settled(&self, b: Bin) -> PositionBin {
        PositionBin {
            share: self.share,
            fee_x_snapshot: b.fee_x_per_share,
            fee_y_snapshot: b.fee_y_per_share,
            fee_x_pending: pending_after(
                b.fee_x_per_share as int,
                self.fee_x_snapshot as int,
                self.share as int,
                self.fee_x_pending as int,
            ),
            fee_y_pending: pending_after(
                b.fee_y_per_share as int,
                self.fee_y_snapshot as int,
                self.share as int,
                self.fee_y_pending as int,
            ),
            reward_0_snapshot: b.reward_0_per_share,
            reward_1_snapshot: b.reward_1_per_share,
            reward_0_pending: pending_after(
                b.reward_0_per_share as int,
                self.reward_0_snapshot as int,
                self.share as int,
                self.reward_0_pending as int,
            ),
            reward_1_pending: pending_after(
                b.reward_1_per_share as int,
                self.reward_1_snapshot as int,
                self.share as int,
                self.reward_1_pending as int,
            ),
        }
    }

    /// The fee accumulators of `b` can be settled into this stake.
    pub open spec fn fee_settle_ok(&self, b: Bin) -> bool {
        &&& owed_ok(
            b.fee_x_per_share as int,
            self.fee_x_snapshot as int,
            self.share as int,
            self.fee_x_pending as int,
        )
        &&& owed_ok(
            b.fee_y_per_share as int,
            self.fee_y_snapshot as int,
            self.share as int,
            self.fee_y_pending as int,
        )
    }

    /// The stake after settling its fees (only) against `b`.
    pub open spec fn fee_settled(&self, b: Bin) -> PositionBin {
        PositionBin {
            fee_x_snapshot: b.fee_x_per_share,
            fee_y_snapshot: b.fee_y_per_share,
            fee_x_pending: pending_after(
                b.fee_x_per_share as int,
                self.fee_x_snapshot as int,
                self.share as int,
                self.fee_x_pending as int,
            ),
            fee_y_pending: pending_after(
                b.fee_y_per_share as int,
                self.fee_y_snapshot as int,
                self.share as int,
                self.fee_y_pending as int,
            ),
            ..*self
        }
    }

    /// Moves the fees earned since the last settlement into the pending
    /// balances and advances the fee snapshots; reward state stays. Fails
    /// `Overflow` when an amount leaves its type; a failure changes nothing.
    pub fn settle_fees(&mut self, bin: &Bin) -> (r: Result<(), LbError>)
        ensures
            r is Ok <==> old(self).fee_settle_ok(*bin),
            r is Err ==> r == Err::<(), LbError>(LbError::Overflow) && *final(self) == *old(self),
            r is Ok ==> *final(self) == old(self).fee_settled(*bin),
    {
        let fx = Self::settle_one(bin.fee_x_per_share, self.fee_x_snapshot, self.share, self.fee_x_pending);
        let fy = Self::settle_one(bin.fee_y_per_share, self.fee_y_snapshot, self.share, self.fee_y_pending);
        match (fx, fy) {
            (Some(fx), Some(fy)) => {
                self.fee_x_pending = fx;
                self.fee_y_pending = fy;
                self.fee_x_snapshot = bin.fee_x_per_share;
                self.fee_y_snapshot = bin.fee_y_per_share;
                Ok(())
            },
            _ => Err(LbError::Overflow),
        }
    }

    /// Moves the fees and rewards earned since the last settlement into the
    /// pending balances and advances the snapshots to the bin's
    /// accumulators. Fails `Overflow` when an accumulator is behind its
    /// snapshot or an amount leaves its type; a failure changes nothing.
    pub fn settle(&mut self, bin: &Bin) -> (r: Result<(), LbError>)
        ensures
            r is Ok <==> old(self).settle_ok(*bin),
            r is Err ==> r == Err::<(), LbError>(LbError::Overflow) && *final(self) == *old(self),
            r is Ok ==> *final(self) == old(self).settled(*bin),
    {
        let fx = Self::settle_one(bin.fee_x_per_share, self.fee_x_snapshot, self.share, self.fee_x_pending);
        let fy = Self::settle_one(bin.fee_y_per_share, self.fee_y_snapshot, self.share, self.fee_y_pending);
        let r0 = Self::settle_one(
            bin.reward_0_per_share,
            self.reward_0_snapshot,
            self.share,
            self.reward_0_pending,
        );
        let r1 = Self::settle_one(
            bin.reward_1_per_share,
            self.reward_1_snapshot,
            self.share,
            self.reward_1_pending,
        );
        match (fx, fy, r0, r1) {
            (Some(fx), Some(fy), Some(r0), Some(r1)) => {
                self.fee_x_pending = fx;
                self.fee_y_pending = fy;
                self.reward_0_pending = r0;
                self.reward_1_pending = r1;
                self.fee_x_snapshot = bin.fee_x_per_share;
                self.fee_y_snapshot = bin.fee_y_per_share;
                self.reward_0_snapshot = bin.reward_0_per_share;
                self.reward_1_snapshot = bin.reward_1_per_share;
                Ok(())
            },
            _ => Err(LbError::Overflow),
        }
    }

    fn settle_one(current: u128, snapshot: u128, share: u64, pending: u64) -> (r: Option<u64>)
        ensures
            r is Some <==> owed_ok(current as int, snapshot as int, share as int, pending as int),
            r matches Some(v) ==> v == pending_after(
                current as int,
                snapshot as int,
                share as int,
                pending as int,
            ),
    {
        let d = wrapping_sub_u128(current, snapshot);
        if share > 0 && d > u128::MAX / share as u128 {
            assert(d * share > u128::MAX) by (nonlinear_arith)
                requires share > 0, d > (u128::MAX as int) / (share as int);
            return None;
        }
        assert(d * share <= u128::MAX) by (nonlinear_arith)
            requires share == 0 || d <= (u128::MAX as int) / (share as int);
        let owed = d * share as u128 / ONE as u128;
        if owed > (u64::MAX - pending) as u128 {
            return None;
        }
        Some(pending + owed as u64)
    }
}

/// Depositing `(dx, dy)` into a bin without shares, then burning every share
/// that the deposit minted, pays out exactly `(dx, dy)`.
pub proof fn lemma_deposit_withdraw_round_trip(b: Bin, dx: u64, dy: u64, p: u64)
    requires
        b.wf(),
        b.liquidity_supply == 0,
        minted_spec(b, dx as int, dy as int, p as int) > 0,
    ensures
        ({
            let m = minted_spec(b, dx as int, dy as int, p as int);
            &&& share_of_spec(m, b.amount_x + dx, b.liquidity_supply + m) == dx
            &&& share_of_spec(m, b.amount_y + dy, b.liquidity_supply + m) == dy
        }),
{
    let m = minted_spec(b, dx as int, dy as int, p as int);
    assert(m * dx / m == dx) by (nonlinear_arith)
        requires m > 0;
    assert(m * dy / m == dy) by (nonlinear_arith)
        requires m > 0;
}

/// What stakes of `shares` are owed when a bin's accumulator grew by
/// `delta`.
pub open spec fn owed_total(shares: Seq<u64>, delta: int) -> int
    decreases shares.len(),
{
    if shares.len() == 0 {
        0
    } else {
        owed_total(shares.drop_last(), delta) + owed_spec(delta, 0, shares.last() as int)
    }
}

proof fn lemma_owed_total_scaled(shares: Seq<u64>, delta: int)
    requires
        0 <= delta <= u128::MAX,
    ensures
        owed_total(shares, delta) * ONE as int <= delta * crate::distribution::sum_u64(shares),
        owed_total(shares, delta) >= 0,
    decreases shares.len(),
{
    if shares.len() > 0 {
        lemma_owed_total_scaled(shares.drop_last(), delta);
        let s = shares.last() as int;
        let rest = crate::distribution::sum_u64(shares.drop_last());
        let o = owed_total(shares.drop_last(), delta);
        assert(wrap128(delta - 0) == delta) by (nonlinear_arith)
            requires 0 <= delta <= u128::MAX;
        assert((delta * s / ONE as int) * ONE as int <= delta * s) by (nonlinear_arith)
            requires delta >= 0, s >= 0;
        assert(delta * s / ONE as int >= 0) by (nonlinear_arith)
            requires delta >= 0, s >= 0;
        assert((o + delta * s / ONE as int) * ONE as int <= delta * (rest + s)) by (nonlinear_arith)
            requires
                o * ONE as int <= delta * rest,
                (delta * s / ONE as int) * ONE as int <= delta * s,
        ;
    }
}

/// Settlement never pays out more than a bin received: when a fee `fee`
/// is credited to a bin with `supply` shares (its accumulator grows by
/// `floor(fee * 2^32 / supply)`), stakes whose shares together are within
/// the supply are owed at most `fee` in total.
pub proof fn lemma_claims_within_fee(shares: Seq<u64>, supply: int, fee: int)
    requires
        supply > 0,
        0 <= fee <= u64::MAX,
        crate::distribution::sum_u64(shares) <= supply,
    ensures
        owed_total(shares, fee * ONE as int / supply) <= fee,
{
    let d = fee * ONE as int / supply;
    assert(d >= 0) by (nonlinear_arith)
        requires d == fee * ONE as int / supply, fee >= 0, supply > 0;
    assert(d <= fee * ONE as int) by (nonlinear_arith)
        requires d == fee * ONE as int / supply, fee >= 0, supply > 0;
    lemma_owed_total_scaled(shares, d);
    crate::distribution::lemma_sum_u64_nonneg(shares);
    let t = crate::distribution::sum_u64(shares);
    assert(d * t <= d * supply) by (nonlinear_arith)
        requires d >= 0, t <= supply;
    assert(d * supply <= fee * ONE as int) by (nonlinear_arith)
        requires d == fee * ONE as int / supply, supply > 0;
    let o = owed_total(shares, d);
    assert(o <= fee) by (nonlinear_arith)
        requires o * ONE as int <= fee * ONE as int;
}

} // verus!
