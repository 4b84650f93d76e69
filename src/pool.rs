//! A pool: its window of loaded bins, aggregate reserves kept equal to the
//! bins' sum, fee state, and liquidity operations through positions.

use vstd::prelude::*;
use crate::bin::{minted_spec, share_of_spec, Bin, PositionBin};
use crate::distribution::{bps_amounts, side_amounts, valid_range, lemma_sum_u64_nonneg, lemma_sum_u64_take_le, 
    amounts_for_side, dist_bps_x, dist_bps_y, distribute, lemma_sum_u64_update, proportional,
    side_exact, side_weights, sum_u16, sum_u64, widen, BinLiquidityDistribution,
    Distribution, Strategy,
};
use crate::fee::{accrue_reward, FeeParameters, VolatilityState};
use crate::bitmap::{BinArrayBitmap, BINS_PER_ARRAY};
use crate::math::{bps_of, LbError, BASIS_POINT_MAX, ONE};
use crate::price::{price_of_bin, price_spec, MAX_BIN_ID};

verus! {

/// Total of token X over a sequence of bins.
pub open spec fn sum_x(s: Seq<Bin>) -> int
    decreases s.len(),
{
    if s.len() == 0 {
        0
    } else {
        sum_x(s.drop_last()) + s.last().amount_x
    }
}

/// Total of token Y over a sequence of bins.
pub open spec fn sum_y(s: Seq<Bin>) -> int
    decreases s.len(),
{
    if s.len() == 0 {
        0
    } else {
        sum_y(s.drop_last()) + s.last().amount_y
    }
}

pub proof fn lemma_sum_update(s: Seq<Bin>, i: int, b: Bin)
    requires
        0 <= i < s.len(),
    ensures
        sum_x(s.update(i, b)) == sum_x(s) - s[i].amount_x + b.amount_x,
        sum_y(s.update(i, b)) == sum_y(s) - s[i].amount_y + b.amount_y,
    decreases s.len(),
{
    if i < s.len() - 1 {
        assert(s.update(i, b).drop_last() =~= s.drop_last().update(i, b));
        lemma_sum_update(s.drop_last(), i, b);
    } else {
        assert(s.update(i, b).drop_last() =~= s.drop_last());
    }
}

pub proof fn lemma_sum_elem_le(s: Seq<Bin>, i: int)
    requires
        0 <= i < s.len(),
    ensures
        s[i].amount_x <= sum_x(s),
        s[i].amount_y <= sum_y(s),
    decreases s.len(),
{
    lemma_sum_nonneg(s.drop_last());
    if i < s.len() - 1 {
        lemma_sum_elem_le(s.drop_last(), i);
    }
}

pub proof fn lemma_sum_nonneg(s: Seq<Bin>)
    ensures
        sum_x(s) >= 0,
        sum_y(s) >= 0,
    decreases s.len(),
{
    if s.len() > 0 {
        lemma_sum_nonneg(s.drop_last());
    }
}

pub proof fn lemma_sum_empty(n: nat)
    ensures
        sum_x(Seq::new(n, |i: int| Bin::empty_spec())) == 0,
        sum_y(Seq::new(n, |i: int| Bin::empty_spec())) == 0,
    decreases n,
{
    if n > 0 {
        let s = Seq::new(n, |i: int| Bin::empty_spec());
        assert(s.drop_last() =~= Seq::new((n - 1) as nat, |i: int| Bin::empty_spec()));
        lemma_sum_empty((n - 1) as nat);
    }
}

/// Positions' shares in one bin stay within its supply: when a single
/// position's share and the bin's supply change by the same amount (a
/// deposit mints to both, a withdrawal burns from both), a total that was
/// within the supply remains so.
pub proof fn lemma_shares_within_supply(
    shares: Seq<u64>,
    supply: int,
    i: int,
    new_share: u64,
    new_supply: int,
)
    requires
        sum_u64(shares) <= supply,
        0 <= i < shares.len(),
        new_supply - supply == new_share - shares[i],
    ensures
        sum_u64(shares.update(i, new_share)) <= new_supply,
{
    lemma_sum_u64_update(shares, i, new_share);
}

/// Whether the pool accepts swaps.
#[derive(Debug, Clone, Copy, PartialEq, Eq, Structural)]
pub enum PairStatus {
    Enabled,
    Disabled,
}

/// One reward slot of a pool: a rate paid to the active bin's shares until
/// the end of the funded period, and what zero-liquidity intervals carried
/// forward or forfeited.
#[derive(Debug, Clone, Copy, PartialEq, Eq, Structural)]
pub struct RewardInfo {
    pub initialized: bool,
    /// Whether reward of zero-liquidity intervals is kept for the next
    /// funding (else it is forfeited).
    pub carry_forward: bool,
    pub reward_rate: u64,
    pub reward_duration: u64,
    pub reward_duration_end: u64,
    pub last_update_time: u64,
    pub carried: u64,
    pub forfeited: u64,
}

impl RewardInfo {
    pub open spec fn unused_spec() -> RewardInfo {
        RewardInfo {
            initialized: false,
            carry_forward: false,
            reward_rate: 0,
            reward_duration: 0,
            reward_duration_end: 0,
            last_update_time: 0,
            carried: 0,
            forfeited: 0,
        }
    }

    pub fn unused() -> (r: RewardInfo)
        ensures
            r == RewardInfo::unused_spec(),
    {
        RewardInfo {
            initialized: false,
            carry_forward: false,
            reward_rate: 0,
            reward_duration: 0,
            reward_duration_end: 0,
            last_update_time: 0,
            carried: 0,
            forfeited: 0,
        }
    }
}

/// One trading pair and the contiguous window of bins it has loaded,
/// `bins[i]` being bin `lower_bin_id + i`.
#[derive(Debug)]
pub struct LbPair {
    pub bin_step: u16,
    pub active_id: i32,
    pub reserve_x: u64,
    pub reserve_y: u64,
    pub fee_parameters: FeeParameters,
    pub volatility: VolatilityState,
    pub status: PairStatus,
    pub protocol_fee_x: u64,
    pub protocol_fee_y: u64,
    pub lower_bin_id: i32,
    pub bins: Vec<Bin>,
    pub reward_0: RewardInfo,
    pub reward_1: RewardInfo,
}

/// A liquidity provider's stakes in the bins `lower_bin_id ..
/// lower_bin_id + bins.len()`.
#[derive(Debug)]
pub struct Position {
    pub lower_bin_id: i32,
    pub bins: Vec<PositionBin>,
}

impl Position {
    /// A position over `width` bins from `lower_bin_id`, without shares.
    pub fn open(lower_bin_id: i32, width: u32) -> (r: Result<Position, LbError>)
        ensures
            r is Ok <==> (width > 0 && -MAX_BIN_ID <= lower_bin_id && lower_bin_id + width - 1
                <= MAX_BIN_ID),
            r is Err ==> r == Err::<Position, LbError>(LbError::OutOfRange),
            r matches Ok(p) ==> p.lower_bin_id == lower_bin_id && p.bins@.len() == width && forall|
                i: int,
            | 0 <= i < width ==> p.bins@[i] == PositionBin::empty_spec(),
    {
        if width == 0 || lower_bin_id < -MAX_BIN_ID || lower_bin_id as i64 + width as i64 - 1
            > MAX_BIN_ID as i64 {
            return Err(LbError::OutOfRange);
        }
        let mut bins: Vec<PositionBin> = Vec::new();
        let mut i: u32 = 0;
        while i < width
            invariant
                0 <= i <= width,
                bins@.len() == i,
                forall|j: int| 0 <= j < i ==> bins@[j] == PositionBin::empty_spec(),
            decreases width - i,
        {
            bins.push(PositionBin::empty());
            i = i + 1;
        }
        Ok(Position { lower_bin_id, bins })
    }

    /// The position holds no share and nothing settled but unclaimed, so it
    /// may be closed.
    pub open spec fn closable(&self) -> bool {
        forall|k: int|
            0 <= k < self.bins@.len() ==> (#[trigger] self.bins@[k]).share == 0
                && self.bins@[k].fee_x_pending == 0 && self.bins@[k].fee_y_pending == 0
                && self.bins@[k].reward_0_pending == 0 && self.bins@[k].reward_1_pending == 0
    }

    /// Whether the position may be closed.
    pub fn can_close(&self) -> (r: bool)
        ensures
            r == self.closable(),
    {
        let mut k: usize = 0;
        while k < self.bins.len()
            invariant
                0 <= k <= self.bins@.len(),
                forall|j: int|
                    0 <= j < k ==> (#[trigger] self.bins@[j]).share == 0
                        && self.bins@[j].fee_x_pending == 0 && self.bins@[j].fee_y_pending == 0
                        && self.bins@[j].reward_0_pending == 0 && self.bins@[j].reward_1_pending
                        == 0,
            decreases self.bins@.len() - k,
        {
            let b = self.bins[k];
            if b.share != 0 || b.fee_x_pending != 0 || b.fee_y_pending != 0 || b.reward_0_pending
                != 0 || b.reward_1_pending != 0 {
                return false;
            }
            k = k + 1;
        }
        true
    }

    /// Index of bin `id` among the position's stakes.
    pub open spec fn index_of(&self, id: int) -> int {
        id - self.lower_bin_id
    }

    /// Bin `id` lies in the position's range.
    pub open spec fn covers(&self, id: int) -> bool {
        0 <= self.index_of(id) < self.bins@.len()
    }

    fn stake_index(&self, id: i32) -> (r: Result<usize, LbError>)
        ensures
            r is Ok <==> self.covers(id as int),
            r is Err ==> r == Err::<usize, LbError>(LbError::OutOfRange),
            r matches Ok(j) ==> j == self.index_of(id as int),
    {
        let d = id as i64 - self.lower_bin_id as i64;
        if d < 0 || d as u64 >= self.bins.len() as u64 {
            return Err(LbError::OutOfRange);
        }
        Ok(d as usize)
    }
}

impl LbPair {
    /// The reserves are the bins' sums (conservation: every operation that
    /// changes the bins keeps it), every bin is well formed, the window
    /// holds the active bin and only valid bin ids.
    pub open spec fn wf(&self) -> bool {
        &&& self.reserve_x == sum_x(self.bins@)
        &&& self.reserve_y == sum_y(self.bins@)
        &&& forall|i: int| 0 <= i < self.bins@.len() ==> (#[trigger] self.bins@[i]).wf()
        &&& self.fee_parameters.wf()
        &&& -MAX_BIN_ID <= self.lower_bin_id
        &&& self.lower_bin_id + self.bins@.len() - 1 <= MAX_BIN_ID
        &&& self.lower_bin_id <= self.active_id < self.lower_bin_id + self.bins@.len()
    }

    /// Index of bin `id` in the loaded window.
    pub open spec fn index_of(&self, id: int) -> int {
        id - self.lower_bin_id
    }

    /// Bin `id` lies in the loaded window.
    pub open spec fn loaded(&self, id: int) -> bool {
        0 <= self.index_of(id) < self.bins@.len()
    }

    /// An enabled pool without liquidity over `width` bins from
    /// `lower_bin_id`, the active bin among them. Fails `OutOfRange` on a
    /// bin step outside `[1, 10000]`, an empty window, a window beyond the
    /// bin id bounds, an active bin outside it, or invalid fee parameters.
    pub fn new(
        bin_step: u16,
        active_id: i32,
        fee_parameters: FeeParameters,
        lower_bin_id: i32,
        width: u32,
    ) -> (r: Result<LbPair, LbError>)
        ensures
            r is Ok <==> (width > 0 && -MAX_BIN_ID <= lower_bin_id && lower_bin_id + width - 1
                <= MAX_BIN_ID && lower_bin_id <= active_id < lower_bin_id + width
                && fee_parameters.wf() && 1 <= bin_step <= BASIS_POINT_MAX),
            r is Err ==> r == Err::<LbPair, LbError>(LbError::OutOfRange),
            r matches Ok(p) ==> {
                &&& p.wf()
                &&& p.bin_step == bin_step && p.active_id == active_id
                &&& p.lower_bin_id == lower_bin_id && p.bins@.len() == width
                &&& p.reserve_x == 0 && p.reserve_y == 0
                &&& p.status == PairStatus::Enabled
                &&& p.fee_parameters == fee_parameters
                &&& p.reward_0 == RewardInfo::unused_spec() && p.reward_1 == RewardInfo::unused_spec()
                &&& forall|i: int| 0 <= i < width ==> p.bins@[i] == Bin::empty_spec()
            },
    {
        if width == 0 || lower_bin_id < -MAX_BIN_ID || lower_bin_id as i64 + width as i64 - 1
            > MAX_BIN_ID as i64 || active_id < lower_bin_id || active_id as i64
            >= lower_bin_id as i64 + width as i64 {
            return Err(LbError::OutOfRange);
        }
        if bin_step == 0 || bin_step as u64 > BASIS_POINT_MAX {
            return Err(LbError::OutOfRange);
        }
        if !(fee_parameters.base_fee_bps <= fee_parameters.max_fee_bps
            && fee_parameters.max_fee_bps as u64 <= crate::math::BASIS_POINT_MAX
            && fee_parameters.reduction_factor_bps as u64 <= crate::math::BASIS_POINT_MAX
            && fee_parameters.protocol_share_bps as u64 <= crate::math::BASIS_POINT_MAX
            && fee_parameters.filter_period <= fee_parameters.decay_period) {
            return Err(LbError::OutOfRange);
        }
        let mut bins: Vec<Bin> = Vec::new();
        let mut i: u32 = 0;
        while i < width
            invariant
                0 <= i <= width,
                bins@.len() == i,
                forall|j: int| 0 <= j < i ==> bins@[j] == Bin::empty_spec(),
            decreases width - i,
        {
            bins.push(Bin::empty());
            i = i + 1;
        }
        proof {
            assert(bins@ =~= Seq::new(width as nat, |i: int| Bin::empty_spec()));
            lemma_sum_empty(width as nat);
        }
        Ok(LbPair {
            bin_step,
            active_id,
            reserve_x: 0,
            reserve_y: 0,
            fee_parameters,
            volatility: VolatilityState {
                volatility_accumulator: 0,
                volatility_reference: 0,
                index_reference: active_id,
                last_update: 0,
            },
            status: PairStatus::Enabled,
            protocol_fee_x: 0,
            protocol_fee_y: 0,
            lower_bin_id,
            bins,
            reward_0: RewardInfo::unused(),
            reward_1: RewardInfo::unused(),
        })
    }

    /// Index of bin `id` in the loaded window; fails `BinArrayNotLoaded`
    /// outside it.
    pub fn bin_index(&self, id: i32) -> (r: Result<usize, LbError>)
        ensures
            r is Ok <==> self.loaded(id as int),
            r is Err ==> r == Err::<usize, LbError>(LbError::BinArrayNotLoaded),
            r matches Ok(j) ==> j == self.index_of(id as int),
    {
        let d = id as i64 - self.lower_bin_id as i64;
        if d < 0 || d as u64 >= self.bins.len() as u64 {
            return Err(LbError::BinArrayNotLoaded);
        }
        Ok(d as usize)
    }
}

impl LbPair {
    /// Everything but the bins and reserves is as in `o`.
    pub open spec fn same_settings(&self, o: &LbPair) -> bool {
        &&& self.bin_step == o.bin_step
        &&& self.active_id == o.active_id
        &&& self.fee_parameters == o.fee_parameters
        &&& self.volatility == o.volatility
        &&& self.status == o.status
        &&& self.protocol_fee_x == o.protocol_fee_x
        &&& self.protocol_fee_y == o.protocol_fee_y
        &&& self.lower_bin_id == o.lower_bin_id
        &&& self.reward_0 == o.reward_0
        &&& self.reward_1 == o.reward_1
    }

    /// Same state as `o`: settings, reserves and bins.
    pub open spec fn same_state(&self, o: &LbPair) -> bool {
        &&& self.same_settings(o)
        &&& self.reserve_x == o.reserve_x
        &&& self.reserve_y == o.reserve_y
        &&& self.bins@ == o.bins@
    }

    /// Everything `add_liquidity` needs to succeed: the bin is loaded and
    /// in the position, has a price, the stake settles, the deposit mints
    /// shares, and no total leaves `u64`.
    pub open spec fn add_ok(&self, pos: &Position, id: int, dx: int, dy: int) -> bool {
        let b = self.bins@[self.index_of(id)];
        let pb = pos.bins@[pos.index_of(id)];
        let p = price_spec(id, self.bin_step as int);
        let v = crate::bin::value_spec(dx, dy, p->0);
        let m = minted_spec(b, dx, dy, p->0);
        &&& self.loaded(id) && pos.covers(id)
        &&& p is Some
        &&& pb.settle_ok(b)
        &&& v <= u64::MAX && m > 0
        &&& b.amount_x + dx <= u64::MAX && b.amount_y + dy <= u64::MAX
        &&& b.liquidity_supply + m <= u64::MAX
        &&& pb.share + m <= u64::MAX
        &&& self.reserve_x + dx <= u64::MAX && self.reserve_y + dy <= u64::MAX
    }

    /// Deposits `(dx, dy)` into bin `id` for `pos`: settles the stake's fees,
    /// mints shares at the bin's price and credits them to both the bin and
    /// the stake. Fails `BinArrayNotLoaded` for a bin outside the window,
    /// `OutOfRange` for one outside the position, and otherwise as the price,
    /// settlement or deposit fails, or `Overflow` where a total leaves its
    /// type. A failure changes nothing.
    pub fn add_liquidity(&mut self, pos: &mut Position, id: i32, dx: u64, dy: u64) -> (r: Result<
        u64,
        LbError,
    >)
        requires
            old(self).wf(),
        ensures
            final(self).wf(),
            !old(self).loaded(id as int) ==> r == Err::<u64, LbError>(LbError::BinArrayNotLoaded),
            old(self).loaded(id as int) && !old(pos).covers(id as int) ==> r == Err::<u64, LbError>(
                LbError::OutOfRange,
            ),
            r is Ok <==> old(self).add_ok(old(pos), id as int, dx as int, dy as int),
            r is Err ==> *final(self) == *old(self) && *final(pos) == *old(pos),
            r matches Ok(m) ==> {
                let i = old(self).index_of(id as int);
                let j = old(pos).index_of(id as int);
                let b = old(self).bins@[i];
                let pb = old(pos).bins@[j];
                &&& old(self).loaded(id as int) && old(pos).covers(id as int)
                &&& price_spec(id as int, old(self).bin_step as int) is Some
                &&& m == minted_spec(
                    b,
                    dx as int,
                    dy as int,
                    price_spec(id as int, old(self).bin_step as int)->0,
                )
                &&& final(self).bins@ == old(self).bins@.update(
                    i,
                    Bin {
                        amount_x: (b.amount_x + dx) as u64,
                        amount_y: (b.amount_y + dy) as u64,
                        liquidity_supply: (b.liquidity_supply + m) as u64,
                        ..b
                    },
                )
                &&& final(self).reserve_x == old(self).reserve_x + dx
                &&& final(self).reserve_y == old(self).reserve_y + dy
                &&& final(self).same_settings(old(self))
                &&& final(pos).lower_bin_id == old(pos).lower_bin_id
                &&& final(pos).bins@ == old(pos).bins@.update(
                    j,
                    PositionBin { share: (pb.share + m) as u64, ..pb.settled(b) },
                )
            },
    {
        let i = self.bin_index(id)?;
        let j = pos.stake_index(id)?;
        assert(-MAX_BIN_ID <= id <= MAX_BIN_ID);
        let p = match price_of_bin(id, self.bin_step) {
            Ok(p) => p,
            Err(e) => {
                return Err(e);
            },
        };
        assert(p == price_spec(id as int, self.bin_step as int)->0);
        let mut b = self.bins[i];
        let mut pb = pos.bins[j];
        pb.settle(&b)?;
        let m = b.deposit(dx, dy, p)?;
        if pb.share > u64::MAX - m || self.reserve_x > u64::MAX - dx || self.reserve_y > u64::MAX
            - dy {
            return Err(LbError::Overflow);
        }
        pb.share = pb.share + m;
        proof {
            lemma_sum_update(self.bins@, i as int, b);
        }
        self.bins.set(i, b);
        self.reserve_x = self.reserve_x + dx;
        self.reserve_y = self.reserve_y + dy;
        pos.bins.set(j, pb);
        Ok(m)
    }

    /// Burns `shares` of `pos`'s stake in bin `id` and pays out their part of
    /// the bin's reserves, after settling the stake's fees. Fails
    /// `BinArrayNotLoaded` or `OutOfRange` as `add_liquidity` does,
    /// `InsufficientShares` when the stake (or the bin) holds fewer shares,
    /// and `Overflow` when settlement fails. A failure changes nothing.
    pub fn remove_liquidity(&mut self, pos: &mut Position, id: i32, shares: u64) -> (r: Result<
        (u64, u64),
        LbError,
    >)
        requires
            old(self).wf(),
        ensures
            final(self).wf(),
            !old(self).loaded(id as int) ==> r == Err::<(u64, u64), LbError>(
                LbError::BinArrayNotLoaded,
            ),
            old(self).loaded(id as int) && !old(pos).covers(id as int) ==> r == Err::<
                (u64, u64),
                LbError,
            >(LbError::OutOfRange),
            old(self).loaded(id as int) && old(pos).covers(id as int) && (shares > old(pos).bins@[old(
                pos,
            ).index_of(id as int)].share || shares > old(self).bins@[old(self).index_of(
                id as int,
            )].liquidity_supply) ==> r == Err::<(u64, u64), LbError>(LbError::InsufficientShares),
            r is Ok <==> ({
                let b = old(self).bins@[old(self).index_of(id as int)];
                let pb = old(pos).bins@[old(pos).index_of(id as int)];
                old(self).loaded(id as int) && old(pos).covers(id as int) && shares <= pb.share
                    && shares <= b.liquidity_supply && pb.settle_ok(b)
            }),
            r is Err ==> *final(self) == *old(self) && *final(pos) == *old(pos),
            r matches Ok(out) ==> {
                let i = old(self).index_of(id as int);
                let j = old(pos).index_of(id as int);
                let b = old(self).bins@[i];
                let pb = old(pos).bins@[j];
                &&& old(self).loaded(id as int) && old(pos).covers(id as int)
                &&& shares <= pb.share && shares <= b.liquidity_supply
                &&& b.liquidity_supply > 0 ==> out.0 == share_of_spec(
                    shares as int,
                    b.amount_x as int,
                    b.liquidity_supply as int,
                ) && out.1 == share_of_spec(
                    shares as int,
                    b.amount_y as int,
                    b.liquidity_supply as int,
                )
                &&& b.liquidity_supply == 0 ==> out == (0u64, 0u64)
                &&& final(self).bins@ == old(self).bins@.update(
                    i,
                    Bin {
                        amount_x: (b.amount_x - out.0) as u64,
                        amount_y: (b.amount_y - out.1) as u64,
                        liquidity_supply: (b.liquidity_supply - shares) as u64,
                        ..b
                    },
                )
                &&& final(self).reserve_x == old(self).reserve_x - out.0
                &&& final(self).reserve_y == old(self).reserve_y - out.1
                &&& final(self).same_settings(old(self))
                &&& final(pos).lower_bin_id == old(pos).lower_bin_id
                &&& final(pos).bins@ == old(pos).bins@.update(
                    j,
                    PositionBin { share: (pb.share - shares) as u64, ..pb.settled(b) },
                )
            },
    {
        let i = self.bin_index(id)?;
        let j = pos.stake_index(id)?;
        let mut b = self.bins[i];
        let mut pb = pos.bins[j];
        if shares > pb.share || shares > b.liquidity_supply {
            return Err(LbError::InsufficientShares);
        }
        pb.settle(&b)?;
        assert(self.bins@[i as int].wf());
        let out = b.withdraw(shares);
        pb.share = pb.share - shares;
        proof {
            lemma_sum_update(self.bins@, i as int, b);
            lemma_sum_elem_le(self.bins@, i as int);
        }
        self.bins.set(i, b);
        self.reserve_x = self.reserve_x - out.0;
        self.reserve_y = self.reserve_y - out.1;
        pos.bins.set(j, pb);
        Ok(out)
    }

    /// Settles `pos`'s fees in bin `id` (its reward state stays) and hands
    /// out its pending fees, which drop to zero. Fails as `remove_liquidity` does on a bin outside
    /// the window or position, and `Overflow` when settlement fails; a
    /// failure changes nothing.
    pub fn claim_fees(&self, pos: &mut Position, id: i32) -> (r: Result<(u64, u64), LbError>)
        ensures
            !self.loaded(id as int) ==> r == Err::<(u64, u64), LbError>(
                LbError::BinArrayNotLoaded,
            ),
            self.loaded(id as int) && !old(pos).covers(id as int) ==> r == Err::<
                (u64, u64),
                LbError,
            >(LbError::OutOfRange),
            r is Ok <==> self.loaded(id as int) && old(pos).covers(id as int) && old(pos).bins@[old(
                pos,
            ).index_of(id as int)].fee_settle_ok(self.bins@[self.index_of(id as int)]),
            r is Err ==> *final(pos) == *old(pos),
            r matches Ok(fees) ==> {
                let b = self.bins@[self.index_of(id as int)];
                let j = old(pos).index_of(id as int);
                let pb = old(pos).bins@[j];
                &&& self.loaded(id as int) && old(pos).covers(id as int)
                &&& pb.fee_settle_ok(b)
                &&& fees == (pb.fee_settled(b).fee_x_pending, pb.fee_settled(b).fee_y_pending)
                &&& final(pos).lower_bin_id == old(pos).lower_bin_id
                &&& final(pos).bins@ == old(pos).bins@.update(
                    j,
                    PositionBin { fee_x_pending: 0, fee_y_pending: 0, ..pb.fee_settled(b) },
                )
            },
    {
        let i = self.bin_index(id)?;
        let j = pos.stake_index(id)?;
        let mut pb = pos.bins[j];
        pb.settle_fees(&self.bins[i])?;
        let fees = (pb.fee_x_pending, pb.fee_y_pending);
        pb.fee_x_pending = 0;
        pb.fee_y_pending = 0;
        pos.bins.set(j, pb);
        Ok(fees)
    }
}


impl LbPair {
    /// Pays out `amount_x` and `amount_y` of the protocol's fees. Fails
    /// `InsufficientFee`, changing nothing, when either exceeds what has
    /// accrued.
    pub fn withdraw_protocol_fee(&mut self, amount_x: u64, amount_y: u64) -> (r: Result<(), LbError>)
        requires
            old(self).wf(),
        ensures
            final(self).wf(),
            r is Err <==> amount_x > old(self).protocol_fee_x || amount_y > old(self).protocol_fee_y,
            r is Err ==> r == Err::<(), LbError>(LbError::InsufficientFee) && *final(self) == *old(
                self,
            ),
            r is Ok ==> final(self).protocol_fee_x == old(self).protocol_fee_x - amount_x
                && final(self).protocol_fee_y == old(self).protocol_fee_y - amount_y
                && final(self).reserve_x == old(self).reserve_x && final(self).reserve_y == old(
                self,
            ).reserve_y && final(self).bins@ == old(self).bins@ && final(self).active_id == old(
                self,
            ).active_id,
    {
        if amount_x > self.protocol_fee_x || amount_y > self.protocol_fee_y {
            return Err(LbError::InsufficientFee);
        }
        self.protocol_fee_x = self.protocol_fee_x - amount_x;
        self.protocol_fee_y = self.protocol_fee_y - amount_y;
        Ok(())
    }

    /// Shares that removing `bps` basis points takes from `pos`'s stake at
    /// index `k` (rounded down).
    pub open spec fn removed_shares(pos: &Position, k: int, bps: int) -> int {
        pos.bins@[k].share * bps / BASIS_POINT_MAX as int
    }

    /// The pool bin behind `pos`'s stake at index `k`.
    pub open spec fn stake_bin(&self, pos: &Position, k: int) -> Bin {
        self.bins@[self.index_of(pos.lower_bin_id + k)]
    }

    /// The stake at index `k` (with pool bin `k + d`) after a removal of
    /// `bps` basis points: its bin paid out `xs[k - lo]`, `ys[k - lo]` and
    /// burnt the shares, and the stake lost them after settling; where no
    /// share is taken nothing is paid and the stake is as it was.
    pub open spec fn removal_at(
        &self,
        pos: &Position,
        bins: Seq<Bin>,
        stakes: Seq<PositionBin>,
        xs: Seq<u64>,
        ys: Seq<u64>,
        lo: int,
        d: int,
        bps: int,
        k: int,
    ) -> bool {
        let m = Self::removed_shares(pos, k, bps);
        let b = self.stake_bin(pos, k);
        let x = share_of_spec(m, b.amount_x as int, b.liquidity_supply as int);
        let y = share_of_spec(m, b.amount_y as int, b.liquidity_supply as int);
        &&& m > 0 ==> xs[k - lo] == x && ys[k - lo] == y
        &&& m > 0 ==> bins[k + d] == (Bin {
            amount_x: (b.amount_x - x) as u64,
            amount_y: (b.amount_y - y) as u64,
            liquidity_supply: (b.liquidity_supply - m) as u64,
            ..b
        })
        &&& m > 0 ==> stakes[k] == (PositionBin {
            share: (pos.bins@[k].share - m) as u64,
            ..pos.bins@[k].settled(b)
        })
        &&& m == 0 ==> xs[k - lo] == 0 && ys[k - lo] == 0 && stakes[k] == pos.bins@[k]
    }

    /// Every stake in `[lo, hi]` that loses shares can lose them: its bin is
    /// loaded, holds that many shares, and the stake settles.
    pub open spec fn range_remove_ok(&self, pos: &Position, lo: int, hi: int, bps: int) -> bool {
        forall|k: int|
            lo <= k <= hi && #[trigger] Self::removed_shares(pos, k, bps) > 0 ==> {
                &&& self.loaded(pos.lower_bin_id + k)
                &&& Self::removed_shares(pos, k, bps) <= self.stake_bin(pos, k).liquidity_supply
                &&& pos.bins@[k].settle_ok(self.stake_bin(pos, k))
            }
    }

    /// Removes `bps_to_remove` basis points of `pos`'s shares (rounded down)
    /// from every bin in `[from_id, to_id]`, as `remove_liquidity` does;
    /// bins where that is no share are left alone. Returns the X and Y paid
    /// out per bin. Fails `OutOfRange` on more than 10000 basis points or a
    /// range not ordered or not inside the position, and as a bin's removal
    /// fails; a failure changes nothing.
    pub fn remove_liquidity_by_range(
        &mut self,
        pos: &mut Position,
        from_id: i32,
        to_id: i32,
        bps_to_remove: u16,
    ) -> (r: Result<(Vec<u64>, Vec<u64>), LbError>)
        requires
            old(self).wf(),
        ensures
            final(self).wf(),
            bps_to_remove > BASIS_POINT_MAX || from_id > to_id || !old(pos).covers(from_id as int)
                || !old(pos).covers(to_id as int) ==> r == Err::<(Vec<u64>, Vec<u64>), LbError>(
                LbError::OutOfRange,
            ),
            r is Ok <==> bps_to_remove <= BASIS_POINT_MAX && from_id <= to_id && old(pos).covers(
                from_id as int,
            ) && old(pos).covers(to_id as int) && old(self).range_remove_ok(
                old(pos),
                old(pos).index_of(from_id as int),
                old(pos).index_of(to_id as int),
                bps_to_remove as int,
            ),
            r is Err ==> final(self).same_state(old(self)) && final(pos).lower_bin_id == old(
                pos,
            ).lower_bin_id && final(pos).bins@ == old(pos).bins@,
            r matches Ok((xs, ys)) ==> {
                let lo = old(pos).index_of(from_id as int);
                let hi = old(pos).index_of(to_id as int);
                let d = old(pos).lower_bin_id - old(self).lower_bin_id;
                &&& xs@.len() == hi - lo + 1 && ys@.len() == hi - lo + 1
                &&& final(self).reserve_x == old(self).reserve_x - sum_u64(xs@)
                &&& final(self).reserve_y == old(self).reserve_y - sum_u64(ys@)
                &&& final(self).same_settings(old(self))
                &&& final(self).bins@.len() == old(self).bins@.len()
                &&& final(pos).lower_bin_id == old(pos).lower_bin_id
                &&& final(pos).bins@.len() == old(pos).bins@.len()
                &&& forall|k: int|
                    lo <= k <= hi ==> #[trigger] old(self).removal_at(
                        old(pos),
                        final(self).bins@,
                        final(pos).bins@,
                        xs@,
                        ys@,
                        lo,
                        d,
                        bps_to_remove as int,
                        k,
                    )
                &&& forall|k: int|
                    0 <= k < old(pos).bins@.len() && !(lo <= k <= hi) ==> #[trigger] final(
                        pos).bins@[k] == old(pos).bins@[k]
                &&& forall|j: int|
                    0 <= j < old(self).bins@.len() && !(lo <= j - d <= hi
                        && Self::removed_shares(old(pos), j - d, bps_to_remove as int) > 0)
                        ==> #[trigger] final(self).bins@[j] == old(self).bins@[j]
            },
    {
        if bps_to_remove as u64 > BASIS_POINT_MAX || from_id > to_id {
            return Err(LbError::OutOfRange);
        }
        let lo = pos.stake_index(from_id)?;
        let hi = pos.stake_index(to_id)?;
        let saved_bins = self.bins.clone();
        let saved_x = self.reserve_x;
        let saved_y = self.reserve_y;
        let saved_pos = pos.bins.clone();
        proof {
            assert(saved_bins@ =~= old(self).bins@);
            assert(saved_pos@ =~= old(pos).bins@);
        }
        let ghost d = old(pos).lower_bin_id - old(self).lower_bin_id;
        let ghost bps = bps_to_remove as int;
        let mut xs: Vec<u64> = Vec::new();
        let mut ys: Vec<u64> = Vec::new();
        let n = pos.bins.len();
        let mut k: usize = lo;
        while k <= hi
            invariant
                n == old(pos).bins@.len(),
                self.wf(),
                old(self).wf(),
                self.same_settings(old(self)),
                self.bins@.len() == old(self).bins@.len(),
                saved_bins@ == old(self).bins@,
                saved_pos@ == old(pos).bins@,
                saved_x == old(self).reserve_x,
                saved_y == old(self).reserve_y,
                d == old(pos).lower_bin_id - old(self).lower_bin_id,
                bps == bps_to_remove as int,
                lo == old(pos).index_of(from_id as int),
                hi == old(pos).index_of(to_id as int),
                lo <= hi < old(pos).bins@.len(),
                bps_to_remove <= BASIS_POINT_MAX,
                lo <= k <= hi + 1,
                pos.lower_bin_id == old(pos).lower_bin_id,
                pos.bins@.len() == old(pos).bins@.len(),
                xs@.len() == k - lo,
                ys@.len() == k - lo,
                self.reserve_x == old(self).reserve_x - sum_u64(xs@),
                self.reserve_y == old(self).reserve_y - sum_u64(ys@),
                old(self).range_remove_ok(old(pos), lo as int, k - 1, bps),
                forall|kk: int|
                    lo <= kk < k ==> #[trigger] old(self).removal_at(
                        old(pos),
                        self.bins@,
                        pos.bins@,
                        xs@,
                        ys@,
                        lo as int,
                        d,
                        bps,
                        kk,
                    ),
                forall|j: int|
                    0 <= j < old(pos).bins@.len() && !(lo <= j < k) ==> #[trigger] pos.bins@[j]
                        == old(pos).bins@[j],
                forall|j: int|
                    0 <= j < old(self).bins@.len() && !(lo <= j - d < k
                        && Self::removed_shares(old(pos), j - d, bps) > 0) ==> #[trigger] self.bins@[j]
                        == old(self).bins@[j],
            decreases hi + 1 - k,
        {
            let id: i32 = (pos.lower_bin_id as i64 + k as i64) as i32;
            let share = pos.bins[k].share;
            let shares = bps_of(share, bps_to_remove as u64);
            let ghost xs0 = xs@;
            let ghost ys0 = ys@;
            let ghost bins0 = self.bins@;
            let ghost pos0 = pos.bins@;
            if shares == 0 {
                xs.push(0);
                ys.push(0);
            } else {
                match self.remove_liquidity(pos, id, shares) {
                    Ok((x, y)) => {
                        xs.push(x);
                        ys.push(y);
                    },
                    Err(e) => {
                        proof {
                            assert(Self::removed_shares(old(pos), k as int, bps) > 0);
                            if self.loaded(id as int) {
                                assert(bins0[k + d] == old(self).bins@[k + d]);
                            }
                        }
                        self.bins = saved_bins;
                        self.reserve_x = saved_x;
                        self.reserve_y = saved_y;
                        pos.bins = saved_pos;
                        return Err(e);
                    },
                }
            }
            proof {
                assert(xs@.drop_last() =~= xs0);
                assert(ys@.drop_last() =~= ys0);
                assert(self.bins@.len() == bins0.len());
                assert forall|kk: int| lo <= kk < k + 1 implies #[trigger] old(self).removal_at(
                    old(pos),
                    self.bins@,
                    pos.bins@,
                    xs@,
                    ys@,
                    lo as int,
                    d,
                    bps,
                    kk,
                ) by {
                    if kk < k {
                        assert(old(self).removal_at(old(pos), bins0, pos0, xs0, ys0, lo as int, d, bps, kk));
                        assert(xs@[kk - lo] == xs0[kk - lo]);
                        assert(ys@[kk - lo] == ys0[kk - lo]);
                        if Self::removed_shares(old(pos), kk, bps) > 0 {
                            assert(self.bins@[kk + d] == bins0[kk + d]);
                        }
                        assert(pos.bins@[kk] == pos0[kk]);
                    } else {
                        assert(pos0[kk] == old(pos).bins@[kk]);
                        if Self::removed_shares(old(pos), kk, bps) > 0 {
                            assert(bins0[kk + d] == old(self).bins@[kk + d]);
                        }
                    }
                }
                assert forall|kk: int| lo <= kk < k + 1 && #[trigger] Self::removed_shares(old(pos), kk, bps) > 0
                    implies {
                        &&& old(self).loaded(old(pos).lower_bin_id + kk)
                        &&& Self::removed_shares(old(pos), kk, bps) <= old(self).stake_bin(old(pos), kk).liquidity_supply
                        &&& old(pos).bins@[kk].settle_ok(old(self).stake_bin(old(pos), kk))
                    } by {
                    if kk == k {
                        assert(pos0[kk] == old(pos).bins@[kk]);
                        assert(bins0[kk + d] == old(self).bins@[kk + d]);
                    }
                }
            }
            k = k + 1;
        }
        Ok((xs, ys))
    }

    /// Removes every share of `pos`, bin by bin, as
    /// `remove_liquidity_by_range` over the whole position at 10000 basis
    /// points. Fails `OutOfRange` on a position without bins.
    pub fn remove_all_liquidity(&mut self, pos: &mut Position) -> (r: Result<(Vec<u64>, Vec<u64>), LbError>)
        requires
            old(self).wf(),
        ensures
            final(self).wf(),
            old(pos).bins@.len() == 0 ==> r == Err::<(Vec<u64>, Vec<u64>), LbError>(LbError::OutOfRange),
            r is Ok <==> old(pos).bins@.len() > 0 && old(pos).lower_bin_id + old(pos).bins@.len() - 1 <= i32::MAX
                && old(self).range_remove_ok(old(pos), 0, old(pos).bins@.len() - 1, BASIS_POINT_MAX as int),
            r is Err ==> final(self).same_state(old(self)) && final(pos).lower_bin_id == old(
                pos,
            ).lower_bin_id && final(pos).bins@ == old(pos).bins@,
            r matches Ok((xs, ys)) ==> {
                let d = old(pos).lower_bin_id - old(self).lower_bin_id;
                &&& xs@.len() == old(pos).bins@.len() && ys@.len() == old(pos).bins@.len()
                &&& final(self).reserve_x == old(self).reserve_x - sum_u64(xs@)
                &&& final(self).reserve_y == old(self).reserve_y - sum_u64(ys@)
                &&& final(self).same_settings(old(self))
                &&& final(pos).bins@.len() == old(pos).bins@.len()
                &&& forall|k: int|
                    0 <= k < old(pos).bins@.len() ==> #[trigger] old(self).removal_at(
                        old(pos),
                        final(self).bins@,
                        final(pos).bins@,
                        xs@,
                        ys@,
                        0,
                        d,
                        BASIS_POINT_MAX as int,
                        k,
                    ) && final(pos).bins@[k].share == 0
            },
    {
        let n = pos.bins.len();
        if n == 0 || n as u64 > 0x1_0000_0000 || pos.lower_bin_id as i64 + n as i64 - 1 > i32::MAX as i64 {
            return Err(LbError::OutOfRange);
        }
        let to: i32 = (pos.lower_bin_id as i64 + n as i64 - 1) as i32;
        let r = self.remove_liquidity_by_range(pos, pos.lower_bin_id, to, 10000);
        proof {
            assert forall|k: int| 0 <= k < old(pos).bins@.len() implies #[trigger] Self::removed_shares(
                old(pos),
                k,
                BASIS_POINT_MAX as int,
            ) == old(pos).bins@[k].share by {}
            if let Ok((xs, ys)) = &r {
                let d = old(pos).lower_bin_id - old(self).lower_bin_id;
                assert forall|k: int| 0 <= k < old(pos).bins@.len() implies final(pos).bins@[k].share
                    == 0 by {
                    assert(old(self).removal_at(
                        old(pos),
                        final(self).bins@,
                        final(pos).bins@,
                        xs@,
                        ys@,
                        0,
                        d,
                        BASIS_POINT_MAX as int,
                        k,
                    ));
                }
            }
        }
        r
    }
}


/// Reward time elapsed in `r` up to `now`, stopping at the end of the
/// funded period.
pub open spec fn reward_elapsed(r: RewardInfo, now: int) -> int {
    let end = if now < r.reward_duration_end {
        now
    } else {
        r.reward_duration_end as int
    };
    if end > r.last_update_time {
        end - r.last_update_time
    } else {
        0
    }
}

/// `r` after advancing to `now` with `liquidity` shares in the active bin
/// (its accumulator is updated separately): zero-liquidity reward is carried
/// or forfeited, and the update time moves forward.
pub open spec fn advanced_info(r: RewardInfo, now: int, liquidity: int) -> RewardInfo {
    let total = r.reward_rate * reward_elapsed(r, now);
    RewardInfo {
        carried: if r.initialized && liquidity == 0 && r.carry_forward {
            (r.carried + total) as u64
        } else {
            r.carried
        },
        forfeited: if r.initialized && liquidity == 0 && !r.carry_forward {
            (r.forfeited + total) as u64
        } else {
            r.forfeited
        },
        last_update_time: if r.initialized && now > r.last_update_time {
            now as u64
        } else {
            r.last_update_time
        },
        ..r
    }
}

impl LbPair {
    /// Reward slot `slot` (0 or 1).
    pub open spec fn reward(&self, slot: int) -> RewardInfo {
        if slot == 0 {
            self.reward_0
        } else {
            self.reward_1
        }
    }

    fn reward_exec(&self, slot: usize) -> (r: RewardInfo)
        requires
            slot < 2,
        ensures
            r == self.reward(slot as int),
    {
        if slot == 0 {
            self.reward_0
        } else {
            self.reward_1
        }
    }

    fn set_reward(&mut self, slot: usize, r: RewardInfo)
        requires
            slot < 2,
        ensures
            final(self).reward(slot as int) == r,
            final(self).reward(1 - slot) == old(self).reward(1 - slot),
            final(self).bins == old(self).bins,
            final(self).reserve_x == old(self).reserve_x,
            final(self).reserve_y == old(self).reserve_y,
            final(self).bin_step == old(self).bin_step,
            final(self).active_id == old(self).active_id,
            final(self).fee_parameters == old(self).fee_parameters,
            final(self).volatility == old(self).volatility,
            final(self).status == old(self).status,
            final(self).protocol_fee_x == old(self).protocol_fee_x,
            final(self).protocol_fee_y == old(self).protocol_fee_y,
            final(self).lower_bin_id == old(self).lower_bin_id,
    {
        if slot == 0 {
            self.reward_0 = r;
        } else {
            self.reward_1 = r;
        }
    }

    /// Opens reward slot `slot` with a funding period of `duration` and the
    /// given zero-liquidity policy. Fails `OutOfRange`, changing nothing, on
    /// a slot other than 0 or 1, a zero duration, or a slot already open.
    pub fn initialize_reward(&mut self, slot: usize, duration: u64, carry_forward: bool) -> (r:
        Result<(), LbError>)
        requires
            old(self).wf(),
        ensures
            final(self).wf(),
            r is Err <==> slot >= 2 || duration == 0 || old(self).reward(slot as int).initialized,
            r is Err ==> r == Err::<(), LbError>(LbError::OutOfRange) && *final(self) == *old(self),
            r is Ok ==> final(self).reward(slot as int) == (RewardInfo {
                initialized: true,
                carry_forward,
                reward_duration: duration,
                ..RewardInfo::unused_spec()
            }) && final(self).reward(1 - slot) == old(self).reward(1 - slot)
                && final(self).bins@ == old(self).bins@,
    {
        if slot >= 2 || duration == 0 || self.reward_exec(slot).initialized {
            return Err(LbError::OutOfRange);
        }
        let info = RewardInfo {
            initialized: true,
            carry_forward,
            reward_duration: duration,
            ..RewardInfo::unused()
        };
        self.set_reward(slot, info);
        Ok(())
    }

    /// Advancing reward slot `slot` to `now` stays within the types: the
    /// interval's reward fits in `u64`, and the active bin's accumulator, or
    /// else the carried or forfeited balance, has room for it.
    pub open spec fn advance_ok(&self, slot: int, now: int) -> bool {
        let a = self.bins@[self.index_of(self.active_id as int)];
        let ri = self.reward(slot);
        let total = ri.reward_rate * reward_elapsed(ri, now);
        ||| !ri.initialized
        ||| reward_elapsed(ri, now) == 0
        ||| {
            &&& total <= u64::MAX
            &&& a.liquidity_supply > 0 ==> a.reward_per_share(slot) + total * ONE as int
                / a.liquidity_supply as int <= u128::MAX
            &&& a.liquidity_supply == 0 && ri.carry_forward ==> ri.carried + total <= u64::MAX
            &&& a.liquidity_supply == 0 && !ri.carry_forward ==> ri.forfeited + total
                <= u64::MAX
        }
    }

    /// The active bin and reward slot after advancing the slot to `now`.
    fn advance_reward(&self, slot: usize, now: u64) -> (r: Result<(Bin, RewardInfo), LbError>)
        requires
            self.wf(),
            slot < 2,
        ensures
            r is Ok <==> self.advance_ok(slot as int, now as int),
            r matches Ok((b, info)) ==> {
                let a = self.bins@[self.index_of(self.active_id as int)];
                let ri = self.reward(slot as int);
                let total = ri.reward_rate * reward_elapsed(ri, now as int);
                &&& info == advanced_info(ri, now as int, a.liquidity_supply as int)
                &&& ri.initialized && a.liquidity_supply > 0 ==> b == (Bin {
                    reward_0_per_share: if slot == 0 {
                        (a.reward_0_per_share + total * ONE as int / a.liquidity_supply as int) as u128
                    } else {
                        a.reward_0_per_share
                    },
                    reward_1_per_share: if slot == 1 {
                        (a.reward_1_per_share + total * ONE as int / a.liquidity_supply as int) as u128
                    } else {
                        a.reward_1_per_share
                    },
                    ..a
                })
                &&& ri.initialized && a.liquidity_supply > 0 ==> a.reward_per_share(slot as int)
                    + total * ONE as int / a.liquidity_supply as int <= u128::MAX
                &&& !(ri.initialized && a.liquidity_supply > 0) ==> b == a
            },
    {
        let i: usize = (self.active_id as i64 - self.lower_bin_id as i64) as usize;
        let mut b = self.bins[i];
        let mut info = self.reward_exec(slot);
        if !info.initialized {
            return Ok((b, info));
        }
        let end = if now < info.reward_duration_end {
            now
        } else {
            info.reward_duration_end
        };
        if end > info.last_update_time {
            let a = accrue_reward(
                info.reward_rate,
                end - info.last_update_time,
                b.liquidity_supply,
                info.carry_forward,
            )?;
            if b.liquidity_supply > 0 {
                b.accrue_reward_share(slot, a.per_share_delta)?;
            }
            if info.carried > u64::MAX - a.carried || info.forfeited > u64::MAX - a.forfeited {
                return Err(LbError::Overflow);
            }
            info.carried = info.carried + a.carried;
            info.forfeited = info.forfeited + a.forfeited;
        } else {
            assert(reward_elapsed(self.reward(slot as int), now as int) == 0);
        }
        if now > info.last_update_time {
            info.last_update_time = now;
        }
        Ok((b, info))
    }

    /// Advances reward slot `slot` to `now`: the reward paid since the last
    /// update (up to the end of the funded period) goes to the active bin's
    /// shares, or, without shares, is carried forward or forfeited as the
    /// slot's policy says. Fails `OutOfRange` on a slot other than 0 or 1 and
    /// `Overflow` where an amount leaves its type; a failure changes nothing.
    pub fn update_reward(&mut self, slot: usize, now: u64) -> (r: Result<(), LbError>)
        requires
            old(self).wf(),
        ensures
            final(self).wf(),
            slot >= 2 ==> r == Err::<(), LbError>(LbError::OutOfRange),
            r is Ok <==> slot < 2 && old(self).advance_ok(slot as int, now as int),
            r is Err ==> *final(self) == *old(self),
            r is Ok ==> {
                let i = old(self).index_of(old(self).active_id as int);
                let a = old(self).bins@[i];
                let ri = old(self).reward(slot as int);
                let total = ri.reward_rate * reward_elapsed(ri, now as int);
                &&& slot < 2
                &&& final(self).reward(slot as int) == advanced_info(
                    ri,
                    now as int,
                    a.liquidity_supply as int,
                )
                &&& final(self).reward(1 - slot) == old(self).reward(1 - slot)
                &&& final(self).bins@.len() == old(self).bins@.len()
                &&& forall|k: int|
                    0 <= k < old(self).bins@.len() && k != i ==> final(self).bins@[k] == old(
                        self,
                    ).bins@[k]
                &&& final(self).bins@[i].amount_x == a.amount_x
                &&& final(self).bins@[i].amount_y == a.amount_y
                &&& final(self).bins@[i].liquidity_supply == a.liquidity_supply
                &&& ri.initialized && a.liquidity_supply > 0 ==> final(self).bins@[i].reward_per_share(
                    slot as int,
                ) == a.reward_per_share(slot as int) + total * ONE as int
                    / a.liquidity_supply as int
                &&& !(ri.initialized && a.liquidity_supply > 0) ==> final(self).bins@[i] == a
                &&& final(self).reserve_x == old(self).reserve_x
                &&& final(self).reserve_y == old(self).reserve_y
                &&& final(self).active_id == old(self).active_id
            },
    {
        if slot >= 2 {
            return Err(LbError::OutOfRange);
        }
        let (b, info) = self.advance_reward(slot, now)?;
        let i: usize = (self.active_id as i64 - self.lower_bin_id as i64) as usize;
        proof {
            lemma_sum_update(self.bins@, i as int, b);
        }
        self.bins.set(i, b);
        self.set_reward(slot, info);
        Ok(())
    }

    /// Adds `amount` to reward slot `slot` at `now`: the slot is first
    /// advanced to `now` (see `update_reward`); then what was left
    /// undistributed over zero-liquidity intervals is added to the new
    /// funding when `carry_forward` holds and forfeited otherwise, and with
    /// what remains of the current period and `amount` it is paid out
    /// evenly (rounded down) over a new period of the slot's duration
    /// starting at `now`. The slot keeps `carry_forward` as its policy for
    /// that period. Fails `OutOfRange` on a slot other than 0 or 1 or one not
    /// open, and `Overflow` where an amount leaves its type; a failure
    /// changes nothing.
    pub fn fund_reward(&mut self, slot: usize, amount: u64, now: u64, carry_forward: bool) -> (r:
        Result<(), LbError>)
        requires
            old(self).wf(),
        ensures
            final(self).wf(),
            slot >= 2 || !old(self).reward(slot as int).initialized ==> r == Err::<(), LbError>(
                LbError::OutOfRange,
            ),
            r is Ok <==> slot < 2 && ({
                let a = old(self).bins@[old(self).index_of(old(self).active_id as int)];
                let ri = old(self).reward(slot as int);
                let adv = advanced_info(ri, now as int, a.liquidity_supply as int);
                let left = if now < ri.reward_duration_end {
                    ri.reward_rate * (ri.reward_duration_end - now)
                } else {
                    0
                };
                let kept = if carry_forward {
                    adv.carried as int
                } else {
                    0
                };
                &&& ri.initialized
                &&& old(self).advance_ok(slot as int, now as int)
                &&& ri.reward_duration > 0
                &&& amount + left + kept <= u64::MAX
                &&& !carry_forward ==> adv.forfeited + adv.carried <= u64::MAX
                &&& now + ri.reward_duration <= u64::MAX
            }),
            r is Err ==> *final(self) == *old(self),
            r is Ok ==> {
                let i = old(self).index_of(old(self).active_id as int);
                let a = old(self).bins@[i];
                let ri = old(self).reward(slot as int);
                let elapsed_total = ri.reward_rate * reward_elapsed(ri, now as int);
                let adv = advanced_info(ri, now as int, a.liquidity_supply as int);
                let left = if now < ri.reward_duration_end {
                    ri.reward_rate * (ri.reward_duration_end - now)
                } else {
                    0
                };
                let kept = if carry_forward {
                    adv.carried as int
                } else {
                    0
                };
                let total = amount + left + kept;
                let f = final(self).reward(slot as int);
                &&& slot < 2 && ri.initialized
                &&& f.reward_rate == total / ri.reward_duration as int
                &&& f.reward_duration_end == now + ri.reward_duration
                &&& f.carried == 0
                &&& f.carry_forward == carry_forward
                &&& f.last_update_time == adv.last_update_time
                &&& f.forfeited == adv.forfeited + if carry_forward {
                    0
                } else {
                    adv.carried as int
                }
                &&& final(self).reward(1 - slot) == old(self).reward(1 - slot)
                &&& final(self).bins@.len() == old(self).bins@.len()
                &&& forall|k: int|
                    0 <= k < old(self).bins@.len() && k != i ==> final(self).bins@[k] == old(
                        self,
                    ).bins@[k]
                &&& final(self).bins@[i].amount_x == a.amount_x
                &&& final(self).bins@[i].amount_y == a.amount_y
                &&& final(self).bins@[i].liquidity_supply == a.liquidity_supply
                &&& a.liquidity_supply > 0 ==> final(self).bins@[i].reward_per_share(slot as int)
                    == a.reward_per_share(slot as int) + elapsed_total * ONE as int
                    / a.liquidity_supply as int
                &&& a.liquidity_supply == 0 ==> final(self).bins@[i] == a
                &&& final(self).reserve_x == old(self).reserve_x
                &&& final(self).reserve_y == old(self).reserve_y
                &&& final(self).active_id == old(self).active_id
            },
    {
        if slot >= 2 || !self.reward_exec(slot).initialized {
            return Err(LbError::OutOfRange);
        }
        let old_info = self.reward_exec(slot);
        let (b, mut info) = self.advance_reward(slot, now)?;
        let left: u128 = if now < old_info.reward_duration_end {
            assert(old_info.reward_rate as int * (old_info.reward_duration_end - now) <= u64::MAX as int * u64::MAX as int) by (nonlinear_arith)
                requires old_info.reward_rate <= u64::MAX, old_info.reward_duration_end - now <= u64::MAX;
            old_info.reward_rate as u128 * (old_info.reward_duration_end - now) as u128
        } else {
            0
        };
        let kept: u128 = if carry_forward {
            info.carried as u128
        } else {
            0
        };
        let total: u128 = left + amount as u128 + kept;
        if old_info.reward_duration == 0 {
            return Err(LbError::OutOfRange);
        }
        if total > u64::MAX as u128 || now > u64::MAX - old_info.reward_duration {
            return Err(LbError::Overflow);
        }
        if !carry_forward {
            if info.forfeited > u64::MAX - info.carried {
                return Err(LbError::Overflow);
            }
            info.forfeited = info.forfeited + info.carried;
        }
        info.reward_rate = (total / old_info.reward_duration as u128) as u64;
        info.reward_duration_end = now + old_info.reward_duration;
        info.carried = 0;
        info.carry_forward = carry_forward;
        let i: usize = (self.active_id as i64 - self.lower_bin_id as i64) as usize;
        proof {
            lemma_sum_update(self.bins@, i as int, b);
        }
        self.bins.set(i, b);
        self.set_reward(slot, info);
        Ok(())
    }

    /// Settles `pos`'s stake in bin `id` and hands out its pending reward of
    /// slot `slot`, which drops to zero. Fails `OutOfRange` on a slot other
    /// than 0 or 1 and otherwise as `claim_fees`; a failure changes nothing.
    pub fn claim_reward(&self, pos: &mut Position, id: i32, slot: usize) -> (r: Result<u64, LbError>)
        ensures
            slot >= 2 ==> r == Err::<u64, LbError>(LbError::OutOfRange),
            r is Ok <==> slot < 2 && self.loaded(id as int) && old(pos).covers(id as int) && old(
                pos,
            ).bins@[old(pos).index_of(id as int)].settle_ok(self.bins@[self.index_of(id as int)]),
            r is Err ==> *final(pos) == *old(pos),
            r matches Ok(amount) ==> {
                let b = self.bins@[self.index_of(id as int)];
                let j = old(pos).index_of(id as int);
                let st = old(pos).bins@[j].settled(b);
                &&& slot < 2 && self.loaded(id as int) && old(pos).covers(id as int)
                &&& old(pos).bins@[j].settle_ok(b)
                &&& amount == if slot == 0 {
                    st.reward_0_pending
                } else {
                    st.reward_1_pending
                }
                &&& final(pos).lower_bin_id == old(pos).lower_bin_id
                &&& final(pos).bins@ == old(pos).bins@.update(
                    j,
                    if slot == 0 {
                        PositionBin { reward_0_pending: 0, ..st }
                    } else {
                        PositionBin { reward_1_pending: 0, ..st }
                    },
                )
            },
    {
        if slot >= 2 {
            return Err(LbError::OutOfRange);
        }
        let i = self.bin_index(id)?;
        let j = pos.stake_index(id)?;
        let mut pb = pos.bins[j];
        pb.settle(&self.bins[i])?;
        let amount = if slot == 0 {
            let a = pb.reward_0_pending;
            pb.reward_0_pending = 0;
            a
        } else {
            let a = pb.reward_1_pending;
            pb.reward_1_pending = 0;
            a
        };
        pos.bins.set(j, pb);
        Ok(amount)
    }
}

/// No bin id repeats.
pub open spec fn distinct_ids(ids: Seq<i32>) -> bool {
    forall|i: int, j: int| 0 <= i < j < ids.len() ==> ids[i] != ids[j]
}

/// Entry `i` deposits nothing.
pub open spec fn empty_entry(xs: Seq<u64>, ys: Seq<u64>, i: int) -> bool {
    xs[i] == 0 && ys[i] == 0
}

impl LbPair {
    /// A deposit of `(dx, dy)` into bin `id` for `pos` can be made on the
    /// current state, leaving aside the pool's reserve totals: as `add_ok`
    /// without its last clause.
    pub open spec fn entry_ok(&self, pos: &Position, id: int, dx: int, dy: int) -> bool {
        let b = self.bins@[self.index_of(id)];
        let pb = pos.bins@[pos.index_of(id)];
        let p = price_spec(id, self.bin_step as int);
        let v = crate::bin::value_spec(dx, dy, p->0);
        let m = minted_spec(b, dx, dy, p->0);
        &&& self.loaded(id) && pos.covers(id)
        &&& p is Some
        &&& pb.settle_ok(b)
        &&& v <= u64::MAX && m > 0
        &&& b.amount_x + dx <= u64::MAX && b.amount_y + dy <= u64::MAX
        &&& b.liquidity_supply + m <= u64::MAX
        &&& pb.share + m <= u64::MAX
    }

    /// Every entry that deposits something can be made.
    pub open spec fn entries_ok(&self, pos: &Position, ids: Seq<i32>, xs: Seq<u64>, ys: Seq<u64>) -> bool {
        forall|i: int|
            0 <= i < ids.len() && !empty_entry(xs, ys, i) ==> #[trigger] self.entry_ok(
                pos,
                ids[i] as int,
                xs[i] as int,
                ys[i] as int,
            )
    }

    /// Entry `i` of a precise deposit as made on `self` and `pos`: nothing
    /// minted for an empty entry; otherwise its bin gained the amounts and
    /// the minted shares, and its stake the shares after settling.
    pub open spec fn deposit_at(
        &self,
        pos: &Position,
        bins: Seq<Bin>,
        stakes: Seq<PositionBin>,
        ids: Seq<i32>,
        xs: Seq<u64>,
        ys: Seq<u64>,
        minted: Seq<u64>,
        i: int,
    ) -> bool {
        let id = ids[i] as int;
        let b = self.bins@[self.index_of(id)];
        let pb = pos.bins@[pos.index_of(id)];
        let m = minted[i];
        &&& empty_entry(xs, ys, i) ==> m == 0
        &&& !empty_entry(xs, ys, i) ==> {
            &&& m == minted_spec(b, xs[i] as int, ys[i] as int, price_spec(id, self.bin_step as int)->0)
            &&& bins[self.index_of(id)] == (Bin {
                amount_x: (b.amount_x + xs[i]) as u64,
                amount_y: (b.amount_y + ys[i]) as u64,
                liquidity_supply: (b.liquidity_supply + m) as u64,
                ..b
            })
            &&& stakes[pos.index_of(id)] == (PositionBin { share: (pb.share + m) as u64, ..pb.settled(b) })
        }
    }

    /// Deposits `(xs[i], ys[i])` into bin `ids[i]` for `pos`, entry by entry
    /// as `add_liquidity` does; empty entries are skipped. Returns the shares
    /// minted per entry. Fails `OutOfRange` on lists of different lengths or
    /// a repeated bin id, and otherwise as an entry's deposit fails; a
    /// failure changes nothing.
    pub fn add_liquidity_precise(
        &mut self,
        pos: &mut Position,
        ids: &Vec<i32>,
        xs: &Vec<u64>,
        ys: &Vec<u64>,
    ) -> (r: Result<Vec<u64>, LbError>)
        requires
            old(self).wf(),
        ensures
            final(self).wf(),
            r is Ok <==> ids@.len() == xs@.len() && ids@.len() == ys@.len() && distinct_ids(ids@)
                && old(self).entries_ok(old(pos), ids@, xs@, ys@) && old(self).reserve_x + sum_u64(
                xs@,
            ) <= u64::MAX && old(self).reserve_y + sum_u64(ys@) <= u64::MAX,
            r is Err ==> final(self).same_state(old(self)) && final(pos).lower_bin_id == old(
                pos,
            ).lower_bin_id && final(pos).bins@ == old(pos).bins@,
            r matches Ok(minted) ==> {
                &&& minted@.len() == ids@.len()
                &&& forall|i: int|
                    0 <= i < ids@.len() ==> #[trigger] old(self).deposit_at(
                        old(pos),
                        final(self).bins@,
                        final(pos).bins@,
                        ids@,
                        xs@,
                        ys@,
                        minted@,
                        i,
                    )
                &&& forall|j: int|
                    0 <= j < old(self).bins@.len() && (forall|i: int|
                        0 <= i < ids@.len() && !empty_entry(xs@, ys@, i) ==> old(self).index_of(
                            ids@[i] as int,
                        ) != j) ==> #[trigger] final(self).bins@[j] == old(self).bins@[j]
                &&& forall|j: int|
                    0 <= j < old(pos).bins@.len() && (forall|i: int|
                        0 <= i < ids@.len() && !empty_entry(xs@, ys@, i) ==> old(pos).index_of(
                            ids@[i] as int,
                        ) != j) ==> #[trigger] final(pos).bins@[j] == old(pos).bins@[j]
                &&& final(self).bins@.len() == old(self).bins@.len()
                &&& final(self).reserve_x == old(self).reserve_x + sum_u64(xs@)
                &&& final(self).reserve_y == old(self).reserve_y + sum_u64(ys@)
                &&& final(self).same_settings(old(self))
                &&& final(pos).lower_bin_id == old(pos).lower_bin_id
                &&& final(pos).bins@.len() == old(pos).bins@.len()
            },
    {
        let n = ids.len();
        if xs.len() != n || ys.len() != n {
            return Err(LbError::OutOfRange);
        }
        let mut a: usize = 0;
        while a < n
            invariant
                *self == *old(self),
                *pos == *old(pos),
                old(self).wf(),
                n == ids@.len(),
                0 <= a <= n,
                forall|i: int, j: int| 0 <= i < j < ids@.len() && i < a ==> ids@[i] != ids@[j],
            decreases n - a,
        {
            let mut b: usize = a + 1;
            while b < n
                invariant
                    *self == *old(self),
                    *pos == *old(pos),
                    old(self).wf(),
                    n == ids@.len(),
                    0 <= a < n,
                    a + 1 <= b <= n,
                    forall|i: int, j: int| 0 <= i < j < ids@.len() && i < a ==> ids@[i] != ids@[j],
                    forall|j: int| a < j < b ==> ids@[a as int] != ids@[j],
                decreases n - b,
            {
                if ids[a] == ids[b] {
                    return Err(LbError::OutOfRange);
                }
                b = b + 1;
            }
            a = a + 1;
        }
        let saved_bins = self.bins.clone();
        let saved_x = self.reserve_x;
        let saved_y = self.reserve_y;
        let saved_pos = pos.bins.clone();
        proof {
            assert(saved_bins@ =~= old(self).bins@);
            assert(saved_pos@ =~= old(pos).bins@);
            lemma_sum_u64_nonneg(xs@);
            lemma_sum_u64_nonneg(ys@);
        }
        let mut minted: Vec<u64> = Vec::new();
        let mut i: usize = 0;
        while i < n
            invariant
                self.wf(),
                old(self).wf(),
                self.same_settings(old(self)),
                self.bins@.len() == old(self).bins@.len(),
                saved_bins@ == old(self).bins@,
                saved_pos@ == old(pos).bins@,
                saved_x == old(self).reserve_x,
                saved_y == old(self).reserve_y,
                n == ids@.len(),
                n == xs@.len(),
                n == ys@.len(),
                distinct_ids(ids@),
                pos.lower_bin_id == old(pos).lower_bin_id,
                pos.bins@.len() == old(pos).bins@.len(),
                0 <= i <= n,
                minted@.len() == i,
                self.reserve_x == old(self).reserve_x + sum_u64(xs@.take(i as int)),
                self.reserve_y == old(self).reserve_y + sum_u64(ys@.take(i as int)),
                old(self).entries_ok(old(pos), ids@.take(i as int), xs@.take(i as int), ys@.take(i as int)),
                forall|k: int|
                    0 <= k < i ==> #[trigger] old(self).deposit_at(
                        old(pos),
                        self.bins@,
                        pos.bins@,
                        ids@,
                        xs@,
                        ys@,
                        minted@,
                        k,
                    ),
                forall|j: int|
                    0 <= j < old(self).bins@.len() && (forall|k: int|
                        0 <= k < i && !empty_entry(xs@, ys@, k) ==> old(self).index_of(
                            ids@[k] as int,
                        ) != j) ==> #[trigger] self.bins@[j] == old(self).bins@[j],
                forall|j: int|
                    0 <= j < old(pos).bins@.len() && (forall|k: int|
                        0 <= k < i && !empty_entry(xs@, ys@, k) ==> old(pos).index_of(
                            ids@[k] as int,
                        ) != j) ==> #[trigger] pos.bins@[j] == old(pos).bins@[j],
            decreases n - i,
        {
            assert(xs@.take(i + 1).drop_last() =~= xs@.take(i as int));
            assert(ys@.take(i + 1).drop_last() =~= ys@.take(i as int));
            let ghost bins0 = self.bins@;
            let ghost pos0 = pos.bins@;
            let ghost minted0 = minted@;
            let id = ids[i];
            let ax = xs[i];
            let ay = ys[i];
            proof {
                lemma_sum_u64_take_le(xs@, i + 1);
                lemma_sum_u64_take_le(ys@, i + 1);
                lemma_sum_u64_nonneg(xs@.take(i as int));
                lemma_sum_u64_nonneg(ys@.take(i as int));
                if !empty_entry(xs@, ys@, i as int) && old(self).loaded(id as int) && old(pos).covers(id as int) {
                    let j = old(self).index_of(id as int);
                    let jp = old(pos).index_of(id as int);
                    assert forall|k: int| 0 <= k < i && !empty_entry(xs@, ys@, k) implies old(self).index_of(
                        ids@[k] as int,
                    ) != j by {
                        assert(ids@[k] != ids@[i as int]);
                    }
                    assert forall|k: int| 0 <= k < i && !empty_entry(xs@, ys@, k) implies old(pos).index_of(
                        ids@[k] as int,
                    ) != jp by {
                        assert(ids@[k] != ids@[i as int]);
                    }
                    assert(bins0[j] == old(self).bins@[j]);
                    assert(pos0[jp] == old(pos).bins@[jp]);
                }
            }
            if ax == 0 && ay == 0 {
                minted.push(0);
            } else {
                match self.add_liquidity(pos, id, ax, ay) {
                    Ok(m) => {
                        minted.push(m);
                    },
                    Err(e) => {
                        proof {
                            assert(!old(self).entry_ok(old(pos), id as int, ax as int, ay as int)
                                || old(self).reserve_x + sum_u64(xs@) > u64::MAX
                                || old(self).reserve_y + sum_u64(ys@) > u64::MAX);
                        }
                        self.bins = saved_bins;
                        self.reserve_x = saved_x;
                        self.reserve_y = saved_y;
                        pos.bins = saved_pos;
                        return Err(e);
                    },
                }
            }
            proof {
                assert(minted@.drop_last() =~= minted0);
                assert forall|k: int| 0 <= k < i + 1 implies #[trigger] old(self).deposit_at(
                    old(pos),
                    self.bins@,
                    pos.bins@,
                    ids@,
                    xs@,
                    ys@,
                    minted@,
                    k,
                ) by {
                    if k < i {
                        assert(old(self).deposit_at(old(pos), bins0, pos0, ids@, xs@, ys@, minted0, k));
                        assert(minted@[k] == minted0[k]);
                        if !empty_entry(xs@, ys@, k) {
                            assert(ids@[k] != ids@[i as int]);
                            let jk = old(self).index_of(ids@[k] as int);
                            let pk = old(pos).index_of(ids@[k] as int);
                            assert(ids@.take(i as int)[k] == ids@[k]);
                            assert(xs@.take(i as int)[k] == xs@[k]);
                            assert(ys@.take(i as int)[k] == ys@[k]);
                            assert(!empty_entry(xs@.take(i as int), ys@.take(i as int), k));
                            assert(old(self).entry_ok(
                                old(pos),
                                ids@.take(i as int)[k] as int,
                                xs@.take(i as int)[k] as int,
                                ys@.take(i as int)[k] as int,
                            ));
                            assert(self.bins@[jk] == bins0[jk]);
                            assert(pos.bins@[pk] == pos0[pk]);
                        }
                    } else {
                        assert(minted@[k] == minted@[i as int]);
                    }
                }
                assert forall|kk: int| 0 <= kk < i + 1 && !empty_entry(xs@.take(i + 1), ys@.take(i + 1), kk)
                    implies #[trigger] old(self).entry_ok(
                    old(pos),
                    ids@.take(i + 1)[kk] as int,
                    xs@.take(i + 1)[kk] as int,
                    ys@.take(i + 1)[kk] as int,
                ) by {
                    if kk < i {
                        assert(ids@.take(i as int)[kk] == ids@[kk]);
                        assert(xs@.take(i as int)[kk] == xs@[kk]);
                        assert(ys@.take(i as int)[kk] == ys@[kk]);
                    }
                }
            }
            i = i + 1;
        }
        assert(xs@.take(n as int) =~= xs@);
        assert(ys@.take(n as int) =~= ys@);
        assert(ids@.take(n as int) =~= ids@);
        Ok(minted)
    }
}

/// The bin ids `lower .. lower + n`.
pub open spec fn range_ids(lower: int, n: int) -> Seq<i32> {
    Seq::new(n as nat, |k: int| (lower + k) as i32)
}

/// The bin ids of an explicit distribution.
pub open spec fn dist_ids(d: Seq<BinLiquidityDistribution>) -> Seq<i32> {
    d.map_values(|e: BinLiquidityDistribution| e.bin_id)
}

impl LbPair {
    /// Deposits `amount_x` and `amount_y` over the whole range of `pos`,
    /// spread by `st` around the active bin (see `distribute`), as
    /// `add_liquidity_precise` does with the resulting amounts. Returns the
    /// distribution and the shares minted per bin. Fails `OutOfRange` for a
    /// position without bins, and as `distribute` or the deposit fails; a
    /// failure changes nothing.
    pub fn add_liquidity_by_strategy(
        &mut self,
        pos: &mut Position,
        st: &Strategy,
        amount_x: u64,
        amount_y: u64,
    ) -> (r: Result<(Distribution, Vec<u64>), LbError>)
        requires
            old(self).wf(),
        ensures
            final(self).wf(),
            ({
                let n = old(pos).bins@.len() as int;
                let lower = old(pos).lower_bin_id as int;
                let upper = lower + n - 1;
                let active = old(self).active_id as int;
                let wx = side_weights(*st, lower, upper, active, true);
                let wy = side_weights(*st, lower, upper, active, false);
                r is Ok <==> 0 < n <= 0x8000_0000 && upper <= i32::MAX && valid_range(*st, lower, upper)
                    && !(amount_x > 0 && sum_u64(wx) == 0) && !(amount_y > 0 && sum_u64(wy) == 0)
                    && old(self).entries_ok(
                    old(pos),
                    range_ids(lower, n),
                    side_amounts(wx, amount_x as int),
                    side_amounts(wy, amount_y as int),
                ) && old(self).reserve_x + amount_x <= u64::MAX && old(self).reserve_y + amount_y
                    <= u64::MAX
            }),
            r is Err ==> final(self).same_state(old(self)) && final(pos).lower_bin_id == old(
                pos,
            ).lower_bin_id && final(pos).bins@ == old(pos).bins@,
            r matches Ok((d, minted)) ==> {
                let n = old(pos).bins@.len() as int;
                let lower = old(pos).lower_bin_id as int;
                let upper = lower + n - 1;
                let active = old(self).active_id as int;
                let wx = side_weights(*st, lower, upper, active, true);
                let wy = side_weights(*st, lower, upper, active, false);
                let ids = range_ids(lower, n);
                &&& side_exact(wx, d.bps_x@, d.amounts_x@, amount_x as int)
                &&& side_exact(wy, d.bps_y@, d.amounts_y@, amount_y as int)
                &&& d.amounts_x@ == side_amounts(wx, amount_x as int)
                &&& d.amounts_y@ == side_amounts(wy, amount_y as int)
                &&& minted@.len() == n
                &&& forall|i: int|
                    0 <= i < n ==> #[trigger] old(self).deposit_at(
                        old(pos),
                        final(self).bins@,
                        final(pos).bins@,
                        ids,
                        d.amounts_x@,
                        d.amounts_y@,
                        minted@,
                        i,
                    )
                &&& forall|j: int|
                    0 <= j < old(self).bins@.len() && (forall|i: int|
                        0 <= i < n && !empty_entry(d.amounts_x@, d.amounts_y@, i) ==> old(
                            self,
                        ).index_of(ids[i] as int) != j) ==> #[trigger] final(self).bins@[j] == old(
                        self,
                    ).bins@[j]
                &&& final(self).bins@.len() == old(self).bins@.len()
                &&& final(self).reserve_x == old(self).reserve_x + amount_x
                &&& final(self).reserve_y == old(self).reserve_y + amount_y
                &&& final(self).same_settings(old(self))
                &&& final(pos).lower_bin_id == old(pos).lower_bin_id
                &&& final(pos).bins@.len() == old(pos).bins@.len()
            },
    {
        let n = pos.bins.len();
        if n == 0 || n as u64 > 0x8000_0000 {
            return Err(LbError::OutOfRange);
        }
        let lower = pos.lower_bin_id;
        if lower as i64 + n as i64 - 1 > i32::MAX as i64 {
            return Err(LbError::OutOfRange);
        }
        let upper: i32 = (lower as i64 + n as i64 - 1) as i32;
        let d = distribute(st, lower, upper, self.active_id, amount_x, amount_y)?;
        let mut ids: Vec<i32> = Vec::new();
        let mut k: usize = 0;
        while k < n
            invariant
                0 <= k <= n,
                lower + n - 1 <= i32::MAX,
                ids@ == range_ids(lower as int, k as int),
            decreases n - k,
        {
            ids.push((lower as i64 + k as i64) as i32);
            assert(ids@ =~= range_ids(lower as int, k + 1));
            k = k + 1;
        }
        assert(distinct_ids(ids@));
        let minted = self.add_liquidity_precise(pos, &ids, &d.amounts_x, &d.amounts_y)?;
        Ok((d, minted))
    }

    /// Deposits `amount_x` and `amount_y` split by the caller's explicit
    /// per-bin basis points (see `amounts_for_side`) into the named bins, as
    /// `add_liquidity_precise` does. Returns the amounts of each side and the
    /// shares minted per entry. Fails `OutOfRange` when a side with a
    /// positive amount has basis points that do not sum to 10000, and as the
    /// deposit fails (a repeated bin id included); a failure changes nothing.
    pub fn add_liquidity_by_distribution(
        &mut self,
        pos: &mut Position,
        amount_x: u64,
        amount_y: u64,
        dist: &Vec<BinLiquidityDistribution>,
    ) -> (r: Result<(Vec<u64>, Vec<u64>, Vec<u64>), LbError>)
        requires
            old(self).wf(),
        ensures
            final(self).wf(),
            r is Ok <==> ({
                let bx = dist_bps_x(dist@);
                let by = dist_bps_y(dist@);
                &&& amount_x == 0 || (bx.len() > 0 && sum_u16(bx) == BASIS_POINT_MAX)
                &&& amount_y == 0 || (by.len() > 0 && sum_u16(by) == BASIS_POINT_MAX)
                &&& distinct_ids(dist_ids(dist@))
                &&& old(self).entries_ok(
                    old(pos),
                    dist_ids(dist@),
                    bps_amounts(amount_x as int, bx),
                    bps_amounts(amount_y as int, by),
                )
                &&& old(self).reserve_x + amount_x <= u64::MAX
                &&& old(self).reserve_y + amount_y <= u64::MAX
            }),
            r is Err ==> final(self).same_state(old(self)) && final(pos).lower_bin_id == old(
                pos,
            ).lower_bin_id && final(pos).bins@ == old(pos).bins@,
            r matches Ok((xs, ys, minted)) ==> {
                let ids = dist_ids(dist@);
                &&& xs@ == bps_amounts(amount_x as int, dist_bps_x(dist@))
                &&& ys@ == bps_amounts(amount_y as int, dist_bps_y(dist@))
                &&& xs@.len() == dist@.len() && ys@.len() == dist@.len()
                &&& sum_u64(xs@) == amount_x && sum_u64(ys@) == amount_y
                &&& amount_x > 0 ==> proportional(
                    xs@,
                    amount_x as int,
                    widen(dist_bps_x(dist@)),
                    BASIS_POINT_MAX as int,
                )
                &&& amount_y > 0 ==> proportional(
                    ys@,
                    amount_y as int,
                    widen(dist_bps_y(dist@)),
                    BASIS_POINT_MAX as int,
                )
                &&& minted@.len() == dist@.len()
                &&& forall|i: int|
                    0 <= i < ids.len() ==> #[trigger] old(self).deposit_at(
                        old(pos),
                        final(self).bins@,
                        final(pos).bins@,
                        ids,
                        xs@,
                        ys@,
                        minted@,
                        i,
                    )
                &&& forall|j: int|
                    0 <= j < old(self).bins@.len() && (forall|i: int|
                        0 <= i < ids.len() && !empty_entry(xs@, ys@, i) ==> old(self).index_of(
                            ids[i] as int,
                        ) != j) ==> #[trigger] final(self).bins@[j] == old(self).bins@[j]
                &&& final(self).reserve_x == old(self).reserve_x + amount_x
                &&& final(self).reserve_y == old(self).reserve_y + amount_y
                &&& final(self).same_settings(old(self))
                &&& final(pos).lower_bin_id == old(pos).lower_bin_id
                &&& final(pos).bins@.len() == old(pos).bins@.len()
            },
    {
        let n = dist.len();
        let mut ids: Vec<i32> = Vec::new();
        let mut bx: Vec<u16> = Vec::new();
        let mut by: Vec<u16> = Vec::new();
        let mut i: usize = 0;
        while i < n
            invariant
                n == dist@.len(),
                0 <= i <= n,
                ids@ == dist_ids(dist@).take(i as int),
                bx@ == dist_bps_x(dist@).take(i as int),
                by@ == dist_bps_y(dist@).take(i as int),
            decreases n - i,
        {
            ids.push(dist[i].bin_id);
            bx.push(dist[i].distribution_x);
            by.push(dist[i].distribution_y);
            assert(ids@ =~= dist_ids(dist@).take(i + 1));
            assert(bx@ =~= dist_bps_x(dist@).take(i + 1));
            assert(by@ =~= dist_bps_y(dist@).take(i + 1));
            i = i + 1;
        }
        assert(ids@ =~= dist_ids(dist@));
        assert(bx@ =~= dist_bps_x(dist@));
        assert(by@ =~= dist_bps_y(dist@));
        let xs = amounts_for_side(amount_x, &bx)?;
        let ys = amounts_for_side(amount_y, &by)?;
        let minted = self.add_liquidity_precise(pos, &ids, &xs, &ys)?;
        Ok((xs, ys, minted))
    }
}

pub proof fn lemma_sum_concat(a: Seq<Bin>, b: Seq<Bin>)
    ensures
        sum_x(a + b) == sum_x(a) + sum_x(b),
        sum_y(a + b) == sum_y(a) + sum_y(b),
    decreases b.len(),
{
    if b.len() == 0 {
        assert(a + b =~= a);
    } else {
        assert((a + b).drop_last() =~= a + b.drop_last());
        lemma_sum_concat(a, b.drop_last());
    }
}

/// A page of empty bins.
pub open spec fn empty_page() -> Seq<Bin> {
    Seq::new(BINS_PER_ARRAY as nat, |i: int| Bin::empty_spec())
}

impl LbPair {
    /// Loads bin-array page `index` into the window: 64 empty bins just
    /// above the window (`index * 64` is its end) or just below it (`index *
    /// 64 + 64` is its start). The page must already be recorded in the
    /// bitmap. Fails `BinArrayNotFound` when it is not, `OutOfRange` when the
    /// bitmap does not cover it, when it does not border the window, or when
    /// its bins leave the bin id bounds; a failure changes nothing.
    pub fn load_bin_array(&mut self, bitmap: &BinArrayBitmap, index: i64) -> (r: Result<(), LbError>)
        requires
            old(self).wf(),
            bitmap.wf(),
        ensures
            final(self).wf(),
            !bitmap.in_domain(index as int) ==> r == Err::<(), LbError>(LbError::OutOfRange),
            bitmap.in_domain(index as int) && !bitmap.has(index as int) ==> r == Err::<(), LbError>(
                LbError::BinArrayNotFound,
            ),
            ({
                let o = *old(self);
                let start = index * BINS_PER_ARRAY;
                let above = start == o.lower_bin_id + o.bins@.len() && start + BINS_PER_ARRAY - 1
                    <= MAX_BIN_ID;
                let below = start + BINS_PER_ARRAY == o.lower_bin_id && -MAX_BIN_ID <= start;
                &&& r is Ok <==> bitmap.in_domain(index as int) && bitmap.has(index as int) && (above
                    || below)
                &&& r is Ok && above ==> final(self).bins@ == o.bins@ + empty_page()
                    && final(self).lower_bin_id == o.lower_bin_id
                &&& r is Ok && below ==> final(self).bins@ == empty_page() + o.bins@
                    && final(self).lower_bin_id == start
            }),
            r is Err ==> *final(self) == *old(self),
            final(self).reserve_x == old(self).reserve_x,
            final(self).reserve_y == old(self).reserve_y,
            final(self).active_id == old(self).active_id,
            final(self).bin_step == old(self).bin_step,
            final(self).fee_parameters == old(self).fee_parameters,
            final(self).status == old(self).status,
    {
        bitmap.require_array(index)?;
        let n = self.bins.len();
        let end: i64 = self.lower_bin_id as i64 + n as i64;
        assert(index as int * 64 <= i64::MAX as int * 64 && index as int * 64 >= i64::MIN as int * 64)
            by (nonlinear_arith);
        let start: i128 = index as i128 * BINS_PER_ARRAY as i128;
        let above = start == end as i128 && start + BINS_PER_ARRAY as i128 - 1 <= MAX_BIN_ID as i128;
        let below = start + BINS_PER_ARRAY as i128 == self.lower_bin_id as i128 && -(MAX_BIN_ID as i128)
            <= start;
        if !above && !below {
            return Err(LbError::OutOfRange);
        }
        let mut page: Vec<Bin> = Vec::new();
        let mut k: usize = 0;
        while k < 64
            invariant
                0 <= k <= 64,
                page@ == Seq::new(k as nat, |i: int| Bin::empty_spec()),
            decreases 64 - k,
        {
            page.push(Bin::empty());
            assert(page@ =~= Seq::new((k + 1) as nat, |i: int| Bin::empty_spec()));
            k = k + 1;
        }
        proof {
            assert(page@ =~= empty_page());
            lemma_sum_empty(64);
            assert(empty_page() =~= Seq::new(64, |i: int| Bin::empty_spec()));
        }
        let ghost old_bins = self.bins@;
        if above {
            self.bins.append(&mut page);
            proof {
                lemma_sum_concat(old_bins, empty_page());
                assert(self.bins@ =~= old_bins + empty_page());
            }
        } else {
            page.append(&mut self.bins);
            self.bins = page;
            self.lower_bin_id = start as i32;
            proof {
                lemma_sum_concat(empty_page(), old_bins);
                assert(self.bins@ =~= empty_page() + old_bins);
                assert forall|i: int| 0 <= i < self.bins@.len() implies (#[trigger] self.bins@[i]).wf() by {
                    if i >= 64 {
                        assert(self.bins@[i] == old_bins[i - 64]);
                    }
                }
            }
        }
        Ok(())
    }
}

impl LbPair {
    /// Fees of token X (`for_x`) or Y pending on the first `n` stakes of
    /// `pos` once each is settled against its bin.
    pub open spec fn pending_fee_sum(&self, pos: &Position, n: int, for_x: bool) -> int
        decreases n,
    {
        if n <= 0 {
            0
        } else {
            let st = pos.bins@[n - 1].fee_settled(self.stake_bin(pos, n - 1));
            self.pending_fee_sum(pos, n - 1, for_x) + if for_x {
                st.fee_x_pending as int
            } else {
                st.fee_y_pending as int
            }
        }
    }

    /// The stake of `pos` at index `k` has its bin loaded and its fees settle.
    pub open spec fn stake_ok(&self, pos: &Position, k: int) -> bool {
        self.loaded(pos.lower_bin_id + k) && pos.bins@[k].fee_settle_ok(self.stake_bin(pos, k))
    }

    /// Every stake of `pos` has its bin loaded and its fees settle.
    pub open spec fn all_settle_ok(&self, pos: &Position) -> bool {
        forall|k: int| 0 <= k < pos.bins@.len() ==> #[trigger] self.stake_ok(pos, k)
    }

    /// Settles the fees of every stake of `pos` and hands out all its
    /// pending fees,
    /// which drop to zero. Fails `BinArrayNotLoaded` when a stake's bin is
    /// outside the window and `Overflow` when a stake does not settle or a
    /// total leaves `u64`; a failure changes nothing.
    pub fn claim_all_fees(&self, pos: &mut Position) -> (r: Result<(u64, u64), LbError>)
        ensures
            r is Ok <==> self.all_settle_ok(old(pos)) && self.pending_fee_sum(
                old(pos),
                old(pos).bins@.len() as int,
                true,
            ) <= u64::MAX && self.pending_fee_sum(old(pos), old(pos).bins@.len() as int, false)
                <= u64::MAX,
            r is Err ==> *final(pos) == *old(pos),
            r matches Ok(fees) ==> {
                &&& fees.0 == self.pending_fee_sum(old(pos), old(pos).bins@.len() as int, true)
                &&& fees.1 == self.pending_fee_sum(old(pos), old(pos).bins@.len() as int, false)
                &&& final(pos).lower_bin_id == old(pos).lower_bin_id
                &&& final(pos).bins@.len() == old(pos).bins@.len()
                &&& forall|k: int|
                    0 <= k < old(pos).bins@.len() ==> #[trigger] final(pos).bins@[k] == (PositionBin {
                        fee_x_pending: 0,
                        fee_y_pending: 0,
                        ..old(pos).bins@[k].fee_settled(self.stake_bin(old(pos), k))
                    })
            },
    {
        let n = pos.bins.len();
        let mut stakes: Vec<PositionBin> = Vec::new();
        let mut fx: u64 = 0;
        let mut fy: u64 = 0;
        let mut k: usize = 0;
        while k < n
            invariant
                *pos == *old(pos),
                n == pos.bins@.len(),
                0 <= k <= n,
                stakes@.len() == k,
                fx == self.pending_fee_sum(pos, k as int, true),
                fy == self.pending_fee_sum(pos, k as int, false),
                forall|j: int| 0 <= j < k ==> #[trigger] self.stake_ok(pos, j),
                forall|j: int|
                    0 <= j < k ==> #[trigger] stakes@[j] == (PositionBin {
                        fee_x_pending: 0,
                        fee_y_pending: 0,
                        ..pos.bins@[j].fee_settled(self.stake_bin(pos, j))
                    }),
            decreases n - k,
        {
            let d: i128 = pos.lower_bin_id as i128 + k as i128 - self.lower_bin_id as i128;
            if d < 0 || d >= self.bins.len() as i128 {
                assert(!self.loaded(pos.lower_bin_id + k as int));
                assert(!self.stake_ok(old(pos), k as int));
                return Err(LbError::BinArrayNotLoaded);
            }
            let i = d as usize;
            assert(self.bins@[i as int] == self.stake_bin(pos, k as int));
            let mut pb = pos.bins[k];
            let ghost pb0 = pb;
            match pb.settle_fees(&self.bins[i]) {
                Ok(()) => {},
                Err(e) => {
                    assert(!self.stake_ok(old(pos), k as int));
                    return Err(e);
                },
            }
            assert(self.loaded(pos.lower_bin_id + k as int));
            assert(pos.bins@[k as int].fee_settle_ok(self.stake_bin(pos, k as int)));
            proof {
                lemma_pending_fee_sum_nonneg(self, pos, k as int);
            }
            if pb.fee_x_pending > u64::MAX - fx || pb.fee_y_pending > u64::MAX - fy {
                proof {
                    lemma_pending_fee_sum_grows(self, pos, k + 1, n as int);
                }
                return Err(LbError::Overflow);
            }
            fx = fx + pb.fee_x_pending;
            fy = fy + pb.fee_y_pending;
            pb.fee_x_pending = 0;
            pb.fee_y_pending = 0;
            stakes.push(pb);
            assert(self.stake_ok(pos, k as int));
            k = k + 1;
        }
        let mut stakes = stakes;
        assert(stakes@.len() == pos.bins@.len());
        assert(self.all_settle_ok(old(pos)));
        let ghost old_pos = pos.bins@;
        std::mem::swap(&mut pos.bins, &mut stakes);
        assert forall|k: int| 0 <= k < old(pos).bins@.len() implies #[trigger] pos.bins@[k] == (
        PositionBin {
            fee_x_pending: 0,
            fee_y_pending: 0,
            ..old(pos).bins@[k].fee_settled(self.stake_bin(old(pos), k))
        }) by {}
        Ok((fx, fy))
    }
}

proof fn lemma_pending_fee_sum_nonneg(p: &LbPair, pos: &Position, n: int)
    ensures
        p.pending_fee_sum(pos, n, true) >= 0,
        p.pending_fee_sum(pos, n, false) >= 0,
    decreases n,
{
    if n > 0 {
        lemma_pending_fee_sum_nonneg(p, pos, n - 1);
    }
}

proof fn lemma_pending_fee_sum_grows(p: &LbPair, pos: &Position, m: int, n: int)
    requires
        0 <= m <= n,
    ensures
        p.pending_fee_sum(pos, m, true) <= p.pending_fee_sum(pos, n, true),
        p.pending_fee_sum(pos, m, false) <= p.pending_fee_sum(pos, n, false),
    decreases n - m,
{
    if m < n {
        lemma_pending_fee_sum_grows(p, pos, m, n - 1);
    }
}

} // verus!
