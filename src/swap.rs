//! The swap engine: an exact-in trade walks bins from the active one in
//! price order, draining each bin's output reserve before moving on, with
//! the fee taken from the input first. All changes are made on a working
//! copy and committed only once every check has passed.

use vstd::prelude::*;
use crate::bin::{credited, Bin};
use crate::distribution::{
    lemma_proportional_unique, lemma_proportional_zero, proportional, split_proportionally, sum_u64,
};
use crate::fee::{after_accumulator, after_references, 
    split_fee, total_fee_bps, total_fee_spec, update_references, update_volatility_accumulator,
};
use crate::math::{bps_of, mul_div_u128, LbError, Rounding, BASIS_POINT_MAX, ONE};
use crate::pool::{lemma_sum_elem_le, lemma_sum_nonneg, lemma_sum_update, sum_x, sum_y, LbPair, PairStatus};
use crate::price::{price_of_bin, MAX_BIN_ID};

verus! {

/// Reserve of the token a swap brings into a bin.
pub open spec fn in_reserve(b: Bin, swap_for_y: bool) -> int {
    if swap_for_y {
        b.amount_x as int
    } else {
        b.amount_y as int
    }
}

/// Reserve of the token a swap takes out of a bin.
pub open spec fn out_reserve(b: Bin, swap_for_y: bool) -> int {
    if swap_for_y {
        b.amount_y as int
    } else {
        b.amount_x as int
    }
}

/// Total of the input token over bins.
pub open spec fn sum_in(s: Seq<Bin>, swap_for_y: bool) -> int {
    if swap_for_y {
        sum_x(s)
    } else {
        sum_y(s)
    }
}

/// Total of the output token over bins.
pub open spec fn sum_out(s: Seq<Bin>, swap_for_y: bool) -> int {
    if swap_for_y {
        sum_y(s)
    } else {
        sum_x(s)
    }
}

/// Output bought by `amount_in` at Q32.32 price `p` (Y per X), rounded down:
/// selling X yields `amount_in * p`, selling Y yields `amount_in / p`.
pub open spec fn amount_out_spec(amount_in: int, p: int, swap_for_y: bool) -> int {
    if swap_for_y {
        amount_in * p / ONE as int
    } else {
        amount_in * ONE as int / p
    }
}

/// Least input, rounded up, that buys all of `reserve_out` at price `p`.
pub open spec fn max_in_spec(reserve_out: int, p: int, swap_for_y: bool) -> int {
    if swap_for_y {
        (reserve_out * ONE as int + p - 1) / p
    } else {
        (reserve_out * p + ONE as int - 1) / ONE as int
    }
}

/// The smaller of two amounts.
pub open spec fn min_spec(a: int, b: int) -> int {
    if a <= b {
        a
    } else {
        b
    }
}

/// Trades `remaining` of input against one bin's `reserve_out` at price `p`:
/// when it buys less than the whole reserve it is all spent, at the bin's
/// price; otherwise the reserve is emptied for the least input that buys it.
/// Returns (input spent, output bought).
pub fn fill_bin(reserve_out: u64, p: u64, remaining: u64, swap_for_y: bool) -> (r: (u64, u64))
    requires
        p > 0,
    ensures
        remaining < max_in_spec(reserve_out as int, p as int, swap_for_y) ==> r.0 == remaining
            && r.1 == amount_out_spec(remaining as int, p as int, swap_for_y) && r.1
            < reserve_out,
        remaining >= max_in_spec(reserve_out as int, p as int, swap_for_y) ==> r.0
            == max_in_spec(reserve_out as int, p as int, swap_for_y) && r.1 == reserve_out,
        r.0 <= remaining,
        r.1 == min_spec(amount_out_spec(r.0 as int, p as int, swap_for_y), reserve_out as int),
{
    let a: u64 = if swap_for_y { p } else { ONE };
    let d: u64 = if swap_for_y { ONE } else { p };
    let max_in = mul_div_u128(reserve_out as u128, d as u128, a as u128, Rounding::Up);
    if (remaining as u128) < max_in {
        let out = mul_div_u128(remaining as u128, a as u128, d as u128, Rounding::Down);
        proof {
            let rr = remaining as int;
            let ai = a as int;
            let di = d as int;
            let ro = reserve_out as int;
            assert(rr * ai < ro * di) by (nonlinear_arith)
                requires
                    rr < (ro * di + ai - 1) / ai,
                    ai > 0,
            ;
            assert(rr * ai / di < ro) by (nonlinear_arith)
                requires
                    rr * ai < ro * di,
                    di > 0,
            ;
        }
        (remaining, out as u64)
    } else {
        proof {
            let m = max_in as int;
            let ai = a as int;
            let di = d as int;
            let ro = reserve_out as int;
            assert(m * ai >= ro * di) by (nonlinear_arith)
                requires
                    m == (ro * di + ai - 1) / ai,
                    ai > 0,
            ;
            assert(m * ai / di >= ro) by (nonlinear_arith)
                requires
                    m * ai >= ro * di,
                    di > 0,
            ;
        }
        (max_in as u64, reserve_out)
    }
}

/// Q32.32 price of the bin at index `k` of a pool's window.
pub open spec fn price_at(o: LbPair, k: int) -> int {
    crate::price::price_spec(o.lower_bin_id + k, o.bin_step as int)->0
}

/// What an exact-in swap settled.
#[derive(Debug, Clone, Copy, PartialEq, Eq, Structural)]
pub struct SwapResult {
    pub amount_in: u64,
    pub amount_out: u64,
    pub fee: u64,
    pub protocol_fee: u64,
    pub lp_fee: u64,
}

/// The exact-in walk from bin index `idx` with `remaining` net input: the
/// index where it ends and the output it buys from there on, or `None`
/// where it would leave the window or meet a bin without a usable price.
pub open spec fn walk_in(o: LbPair, idx: int, remaining: int, swap_for_y: bool) -> Option<
    (int, int),
>
    decreases (if swap_for_y {
        idx
    } else {
        o.bins@.len() - idx
    }),
{
    if idx < 0 || idx >= o.bins@.len() {
        None
    } else if crate::price::price_spec(o.lower_bin_id + idx, o.bin_step as int) is None
        || price_at(o, idx) <= 0 {
        None
    } else {
        let p = price_at(o, idx);
        let r = out_reserve(o.bins@[idx], swap_for_y);
        let mi = max_in_spec(r, p, swap_for_y);
        if remaining < mi {
            Some((idx, amount_out_spec(remaining, p, swap_for_y)))
        } else if remaining == mi {
            Some((idx, r))
        } else {
            let next = if swap_for_y {
                idx - 1
            } else {
                idx + 1
            };
            if next < 0 || next >= o.bins@.len() {
                None
            } else {
                match walk_in(o, next, remaining - mi, swap_for_y) {
                    Some((e, out)) => Some((e, out + r)),
                    None => None,
                }
            }
        }
    }
}

/// The exact-out walk from bin index `idx` with `remaining` output still
/// wanted: the index where it ends and the net input it pays from there
/// on, or `None` where it would leave the window or meet a bin without a
/// usable price.
pub open spec fn walk_out(o: LbPair, idx: int, remaining: int, swap_for_y: bool) -> Option<
    (int, int),
>
    decreases (if swap_for_y {
        idx
    } else {
        o.bins@.len() - idx
    }),
{
    if idx < 0 || idx >= o.bins@.len() {
        None
    } else if crate::price::price_spec(o.lower_bin_id + idx, o.bin_step as int) is None
        || price_at(o, idx) <= 0 {
        None
    } else {
        let p = price_at(o, idx);
        let r = out_reserve(o.bins@[idx], swap_for_y);
        if remaining <= r {
            Some((idx, max_in_spec(remaining, p, swap_for_y)))
        } else {
            let next = if swap_for_y {
                idx - 1
            } else {
                idx + 1
            };
            if next < 0 || next >= o.bins@.len() {
                None
            } else {
                match walk_out(o, next, remaining - r, swap_for_y) {
                    Some((e, cost)) => Some((e, cost + max_in_spec(r, p, swap_for_y))),
                    None => None,
                }
            }
        }
    }
}

pub proof fn lemma_max_in_nonneg(x: int, p: int, swap_for_y: bool)
    requires
        x >= 0,
        p > 0,
    ensures
        max_in_spec(x, p, swap_for_y) >= 0,
{
    assert((x * ONE as int + p - 1) / p >= 0) by (nonlinear_arith)
        requires
            x >= 0,
            p > 0,
    ;
    assert((x * p + ONE as int - 1) / ONE as int >= 0) by (nonlinear_arith)
        requires
            x >= 0,
            p > 0,
    ;
}

pub proof fn lemma_walk_out_nonneg(o: LbPair, idx: int, remaining: int, swap_for_y: bool)
    requires
        remaining >= 0,
    ensures
        walk_out(o, idx, remaining, swap_for_y) matches Some((e, c)) ==> c >= 0,
    decreases (if swap_for_y {
        idx
    } else {
        o.bins@.len() - idx
    }),
{
    if 0 <= idx < o.bins@.len() && !(crate::price::price_spec(o.lower_bin_id + idx, o.bin_step as int) is None
        || price_at(o, idx) <= 0) {
        let p = price_at(o, idx);
        let r = out_reserve(o.bins@[idx], swap_for_y);
        lemma_max_in_nonneg(remaining, p, swap_for_y);
        lemma_max_in_nonneg(r, p, swap_for_y);
        if remaining > r {
            let next = if swap_for_y {
                idx - 1
            } else {
                idx + 1
            };
            if 0 <= next < o.bins@.len() {
                lemma_walk_out_nonneg(o, next, remaining - r, swap_for_y);
            }
        }
    }
}

/// The cost of an exact-out walk is at least what its first bin costs.
pub proof fn lemma_walk_out_cost_ge(
    o: LbPair,
    idx: int,
    remaining: int,
    swap_for_y: bool,
    take: int,
    first: int,
)
    requires
        0 <= idx < o.bins@.len(),
        remaining >= 0,
        price_at(o, idx) > 0,
        take == min_spec(remaining, out_reserve(o.bins@[idx], swap_for_y)),
        first == max_in_spec(take, price_at(o, idx), swap_for_y),
    ensures
        walk_out(o, idx, remaining, swap_for_y) matches Some((e, c)) ==> c >= first,
{
    let r = out_reserve(o.bins@[idx], swap_for_y);
    if remaining > r {
        let next = if swap_for_y {
            idx - 1
        } else {
            idx + 1
        };
        lemma_walk_out_nonneg(o, next, remaining - r, swap_for_y);
    }
}

/// `w` with `out` more output.
pub open spec fn plus_out(w: Option<(int, int)>, out: int) -> Option<(int, int)> {
    match w {
        Some((e, o)) => Some((e, o + out)),
        None => None,
    }
}

/// The fee rate a swap at `now` pays: the total fee at the volatility
/// accumulator decayed to `now` and grown by the distance from the
/// reference bin to the active one.
pub open spec fn swap_rate(o: LbPair, now: u64) -> int {
    let v = after_accumulator(
        o.fee_parameters,
        after_references(o.fee_parameters, o.volatility, o.active_id, now),
        o.active_id,
    );
    total_fee_spec(o.fee_parameters, v.volatility_accumulator as int, o.bin_step as int)
}

/// Input each bin absorbed: how much its reserve of the input token grew
/// from `o` to `f`.
pub open spec fn in_deltas(o: Seq<Bin>, f: Seq<Bin>, swap_for_y: bool) -> Seq<u64> {
    Seq::new(o.len(), |k: int| (in_reserve(f[k], swap_for_y) - in_reserve(o[k], swap_for_y)) as u64)
}

/// The LP fee `lp` shared over the bins in proportion to the input each
/// absorbed (`deltas`), the dust on the last bin that absorbed any.
pub open spec fn lp_shares(lp: int, deltas: Seq<u64>) -> Seq<u64> {
    choose|v: Seq<u64>| proportional(v, lp, deltas, sum_u64(deltas))
}

/// `b` with `share` of fee in the input token credited to its shares.
pub open spec fn credit_in(b: Bin, share: int, swap_for_y: bool) -> Bin {
    if share == 0 {
        b
    } else if swap_for_y {
        credited(b, share, 0)
    } else {
        credited(b, 0, share)
    }
}

/// How a swap settled its fee: where some input reached the bins, the
/// protocol takes its share of the fee and the rest is credited to the
/// bins by the input each absorbed (`lp_shares`); where none did, the
/// protocol takes the whole fee. The protocol's balance of the input token
/// grows by its part, the other balance stays.
pub open spec fn fee_credited(o: LbPair, f: LbPair, res: SwapResult, swap_for_y: bool) -> bool {
    let deltas = in_deltas(o.bins@, f.bins@, swap_for_y);
    let shares = lp_shares(res.lp_fee as int, deltas);
    &&& sum_u64(deltas) > 0 ==> res.protocol_fee as int == res.fee as int
        * o.fee_parameters.protocol_share_bps as int / BASIS_POINT_MAX as int
    &&& sum_u64(deltas) > 0 ==> forall|k: int|
        0 <= k < o.bins@.len() ==> #[trigger] f.bins@[k].fee_x_per_share == credit_in(
            o.bins@[k],
            shares[k] as int,
            swap_for_y,
        ).fee_x_per_share && f.bins@[k].fee_y_per_share == credit_in(
            o.bins@[k],
            shares[k] as int,
            swap_for_y,
        ).fee_y_per_share
    &&& sum_u64(deltas) == 0 ==> res.protocol_fee == res.fee && res.lp_fee == 0 && forall|k: int|
        0 <= k < o.bins@.len() ==> #[trigger] f.bins@[k].fee_x_per_share
            == o.bins@[k].fee_x_per_share && f.bins@[k].fee_y_per_share
            == o.bins@[k].fee_y_per_share
    &&& swap_for_y ==> f.protocol_fee_x == o.protocol_fee_x + res.protocol_fee
        && f.protocol_fee_y == o.protocol_fee_y
    &&& !swap_for_y ==> f.protocol_fee_y == o.protocol_fee_y + res.protocol_fee
        && f.protocol_fee_x == o.protocol_fee_x
}

pub proof fn lemma_sum_in_deltas(o: Seq<Bin>, f: Seq<Bin>, swap_for_y: bool)
    requires
        o.len() == f.len(),
        forall|k: int| 0 <= k < o.len() ==> in_reserve(#[trigger] f[k], swap_for_y) >= in_reserve(o[k], swap_for_y),
    ensures
        sum_u64(in_deltas(o, f, swap_for_y)) == sum_in(f, swap_for_y) - sum_in(o, swap_for_y),
    decreases o.len(),
{
    if o.len() > 0 {
        assert(in_deltas(o, f, swap_for_y).drop_last() =~= in_deltas(o.drop_last(), f.drop_last(), swap_for_y));
        assert forall|k: int| 0 <= k < o.drop_last().len() implies in_reserve(#[trigger] f.drop_last()[k], swap_for_y)
            >= in_reserve(o.drop_last()[k], swap_for_y) by {
            assert(f.drop_last()[k] == f[k]);
        }
        lemma_sum_in_deltas(o.drop_last(), f.drop_last(), swap_for_y);
    }
}

/// Credits the LP fee `lp` to the bins of `work` by the input each absorbed
/// since `orig`; amounts stay, so the totals stay.
fn distribute_lp_fee(orig: &Vec<Bin>, work: &mut Vec<Bin>, lp: u64, net: u64, swap_for_y: bool)
    requires
        old(work)@.len() == orig@.len(),
        forall|k: int|
            0 <= k < orig@.len() ==> in_reserve(#[trigger] old(work)@[k], swap_for_y) >= in_reserve(
                orig@[k],
                swap_for_y,
            ) && (in_reserve(old(work)@[k], swap_for_y) > in_reserve(orig@[k], swap_for_y)
                ==> old(work)@[k].liquidity_supply > 0),
        net > 0,
        net == sum_u64(in_deltas(orig@, old(work)@, swap_for_y)),
    ensures
        final(work)@.len() == old(work)@.len(),
        forall|k: int|
            0 <= k < orig@.len() ==> #[trigger] final(work)@[k] == credit_in(
                old(work)@[k],
                lp_shares(lp as int, in_deltas(orig@, old(work)@, swap_for_y))[k] as int,
                swap_for_y,
            ),
        sum_x(final(work)@) == sum_x(old(work)@),
        sum_y(final(work)@) == sum_y(old(work)@),
        forall|k: int|
            0 <= k < orig@.len() ==> (#[trigger] final(work)@[k]).amount_x == old(work)@[k].amount_x
                && final(work)@[k].amount_y == old(work)@[k].amount_y
                && final(work)@[k].liquidity_supply == old(work)@[k].liquidity_supply,
        forall|k: int|
            0 <= k < orig@.len() && #[trigger] in_deltas(orig@, old(work)@, swap_for_y)[k] == 0
                ==> final(work)@[k] == old(work)@[k],
{
    let n = work.len();
    let ghost w0 = work@;
    let ghost ds = in_deltas(orig@, w0, swap_for_y);
    let mut deltas: Vec<u64> = Vec::new();
    let mut k: usize = 0;
    while k < n
        invariant
            n == w0.len(),
            n == orig@.len(),
            work@ == w0,
            0 <= k <= n,
            deltas@ == ds.take(k as int),
            ds == in_deltas(orig@, w0, swap_for_y),
            forall|j: int|
                0 <= j < orig@.len() ==> in_reserve(#[trigger] w0[j], swap_for_y) >= in_reserve(
                    orig@[j],
                    swap_for_y,
                ),
        decreases n - k,
    {
        let d = if swap_for_y {
            work[k].amount_x - orig[k].amount_x
        } else {
            work[k].amount_y - orig[k].amount_y
        };
        deltas.push(d);
        assert(deltas@ =~= ds.take(k + 1));
        k = k + 1;
    }
    assert(deltas@ =~= ds);
    let shares = split_proportionally(lp, &deltas, net);
    proof {
        let c = choose|v: Seq<u64>| proportional(v, lp as int, ds, sum_u64(ds));
        lemma_proportional_unique(shares@, c, lp as int, ds, sum_u64(ds));
    }
    proof {
        assert forall|j: int| 0 <= j < n && ds[j] == 0 implies shares@[j] == 0 by {
            lemma_proportional_zero(shares@, lp as int, ds, net as int, j);
        }
    }
    k = 0;
    while k < n
        invariant
            n == w0.len(),
            n == orig@.len(),
            net > 0,
            net == sum_u64(ds),
            ds == in_deltas(orig@, w0, swap_for_y),
            shares@ == lp_shares(lp as int, ds),
            proportional(shares@, lp as int, ds, net as int),
            forall|j: int|
                0 <= j < orig@.len() ==> in_reserve(#[trigger] w0[j], swap_for_y) >= in_reserve(
                    orig@[j],
                    swap_for_y,
                ) && (in_reserve(w0[j], swap_for_y) > in_reserve(orig@[j], swap_for_y)
                    ==> w0[j].liquidity_supply > 0),
            0 <= k <= n,
            work@.len() == n,
            forall|j: int| 0 <= j < k ==> #[trigger] work@[j] == credit_in(w0[j], shares@[j] as int, swap_for_y),
            forall|j: int| k <= j < n ==> #[trigger] work@[j] == w0[j],
            sum_x(work@) == sum_x(w0),
            sum_y(work@) == sum_y(w0),
            forall|j: int| 0 <= j < n && ds[j] == 0 ==> shares@[j] == 0,
        decreases n - k,
    {
        let sh = shares[k];
        if sh > 0 {
            proof {
                if ds[k as int] == 0 {
                    lemma_proportional_zero(shares@, lp as int, ds, net as int, k as int);
                }
            }
            let mut b = work[k];
            let r = if swap_for_y {
                b.accrue_fee(sh, 0)
            } else {
                b.accrue_fee(0, sh)
            };
            proof {
                assert(r is Ok);
                lemma_sum_update(work@, k as int, b);
            }
            work.set(k, b);
        }
        k = k + 1;
    }
}

/// The bin-array page just beyond the loaded window in the direction of a
/// trade: the page a walk that leaves the window needs.
pub open spec fn missing_page(o: LbPair, swap_for_y: bool) -> int {
    (if swap_for_y {
        o.lower_bin_id - 1
    } else {
        o.lower_bin_id + o.bins@.len()
    }) / crate::bitmap::BINS_PER_ARRAY as int
}

/// A successful exact-in sale of `amount_in` took `o` to `f` with result
/// `res` (see `swap_exact_in`).
pub open spec fn exact_in_done(
    o: LbPair,
    f: LbPair,
    res: SwapResult,
    amount_in: int,
    swap_for_y: bool,
    min_amount_out: int,
    now: u64,
) -> bool {
    let rate = swap_rate(o, now);
    let start = o.index_of(o.active_id as int);
    let end = o.index_of(f.active_id as int);
    &&& o.status == PairStatus::Enabled
    &&& walk_in(o, start, amount_in - res.fee, swap_for_y) == Some((end, res.amount_out as int))
    &&& res.amount_in == amount_in
    &&& res.fee as int == amount_in as int * rate / BASIS_POINT_MAX as int
    &&& res.protocol_fee + res.lp_fee == res.fee
    &&& res.amount_out >= min_amount_out
    &&& sum_in(f.bins@, swap_for_y) == sum_in(o.bins@, swap_for_y) + amount_in
        - res.fee
    &&& sum_out(f.bins@, swap_for_y) == sum_out(o.bins@, swap_for_y)
        - res.amount_out
    &&& swap_for_y ==> f.active_id <= o.active_id
    &&& !swap_for_y ==> f.active_id >= o.active_id
    &&& forall|k: int|
        crossed(k, start, end, swap_for_y) ==> out_reserve(
            #[trigger] f.bins@[k],
            swap_for_y,
        ) == 0
    &&& forall|k: int|
        0 <= k < o.bins@.len() && k != start && k != end && !crossed(
            k,
            start,
            end,
            swap_for_y,
        ) ==> f.bins@[k] == o.bins@[k]
    &&& forall|k: int|
        crossed(k, start, end, swap_for_y) ==> in_reserve(
            #[trigger] f.bins@[k],
            swap_for_y,
        ) == in_reserve(o.bins@[k], swap_for_y) + max_in_spec(
            out_reserve(o.bins@[k], swap_for_y),
            price_at(o, k),
            swap_for_y,
        )
    &&& out_reserve(f.bins@[end], swap_for_y) == out_reserve(o.bins@[end], swap_for_y)
        - min_spec(
        amount_out_spec(
            in_reserve(f.bins@[end], swap_for_y) - in_reserve(o.bins@[end], swap_for_y),
            price_at(o, end),
            swap_for_y,
        ),
        out_reserve(o.bins@[end], swap_for_y),
    )
    &&& in_reserve(f.bins@[end], swap_for_y) >= in_reserve(o.bins@[end], swap_for_y)
    &&& f.bins@.len() == o.bins@.len()
    &&& fee_credited(o, f, res, swap_for_y)
    &&& f.volatility == after_accumulator(
        o.fee_parameters,
        after_references(o.fee_parameters, o.volatility, o.active_id, now),
        f.active_id,
    )
    &&& f.lower_bin_id == o.lower_bin_id && f.bin_step == o.bin_step
    &&& f.fee_parameters == o.fee_parameters && f.status == o.status
    &&& f.reward_0 == o.reward_0 && f.reward_1 == o.reward_1
}

/// A successful exact-out purchase of `amount_out` took `o` to `f` with
/// result `res` (see `swap_exact_out`).
pub open spec fn exact_out_done(
    o: LbPair,
    f: LbPair,
    res: SwapResult,
    amount_out: int,
    swap_for_y: bool,
    max_amount_in: int,
    now: u64,
) -> bool {
    let rate = swap_rate(o, now);
    let start = o.index_of(o.active_id as int);
    let end = o.index_of(f.active_id as int);
    let net = res.amount_in - res.fee;
    &&& o.status == PairStatus::Enabled
    &&& walk_out(o, start, amount_out as int, swap_for_y) == Some((end, net))
    &&& rate < BASIS_POINT_MAX
    &&& res.amount_out == amount_out
    &&& res.fee == fee_on_top_spec(net, rate)
    &&& res.protocol_fee + res.lp_fee == res.fee
    &&& res.amount_in <= max_amount_in
    &&& sum_in(f.bins@, swap_for_y) == sum_in(o.bins@, swap_for_y) + net
    &&& sum_out(f.bins@, swap_for_y) == sum_out(o.bins@, swap_for_y) - amount_out
    &&& swap_for_y ==> f.active_id <= o.active_id
    &&& !swap_for_y ==> f.active_id >= o.active_id
    &&& forall|k: int|
        crossed(k, start, end, swap_for_y) ==> out_reserve(
            #[trigger] f.bins@[k],
            swap_for_y,
        ) == 0
    &&& forall|k: int|
        crossed(k, start, end, swap_for_y) ==> in_reserve(
            #[trigger] f.bins@[k],
            swap_for_y,
        ) == in_reserve(o.bins@[k], swap_for_y) + max_in_spec(
            out_reserve(o.bins@[k], swap_for_y),
            price_at(o, k),
            swap_for_y,
        )
    &&& in_reserve(f.bins@[end], swap_for_y) == in_reserve(o.bins@[end], swap_for_y)
        + max_in_spec(
        out_reserve(o.bins@[end], swap_for_y) - out_reserve(f.bins@[end], swap_for_y),
        price_at(o, end),
        swap_for_y,
    )
    &&& out_reserve(f.bins@[end], swap_for_y) <= out_reserve(o.bins@[end], swap_for_y)
    &&& forall|k: int|
        0 <= k < o.bins@.len() && k != start && k != end && !crossed(
            k,
            start,
            end,
            swap_for_y,
        ) ==> f.bins@[k] == o.bins@[k]
    &&& f.bins@.len() == o.bins@.len()
    &&& fee_credited(o, f, res, swap_for_y)
    &&& f.volatility == after_accumulator(
        o.fee_parameters,
        after_references(o.fee_parameters, o.volatility, o.active_id, now),
        f.active_id,
    )
    &&& f.lower_bin_id == o.lower_bin_id && f.bin_step == o.bin_step
    &&& f.fee_parameters == o.fee_parameters && f.status == o.status
    &&& f.reward_0 == o.reward_0 && f.reward_1 == o.reward_1
}

/// Bin index `k` lies strictly behind the swap's final index `end`,
/// between it and the start (the start included).
pub open spec fn crossed(k: int, start: int, end: int, swap_for_y: bool) -> bool {
    if swap_for_y {
        end < k <= start
    } else {
        start <= k < end
    }
}

impl LbPair {
    /// The page a walk in the direction of `swap_for_y` needs once it
    /// leaves the window.
    pub fn next_page(&self, swap_for_y: bool) -> (r: i64)
        requires
            self.wf(),
        ensures
            r == missing_page(*self, swap_for_y),
    {
        let v: i64 = if swap_for_y {
            self.lower_bin_id as i64 - 1
        } else {
            self.lower_bin_id as i64 + self.bins.len() as i64
        };
        crate::bitmap::bin_array_index(v as i32)
    }

    /// Everything `swap_exact_in` needs to succeed: an enabled pool, room
    /// for the input in the reserve, a walk that stays in the window with
    /// enough output, and room for the fee in the starting bin's accumulator
    /// and the protocol's balance.
    pub open spec fn swap_in_ok(&self, amount_in: int, swap_for_y: bool, min_amount_out: int, now: u64) -> bool {
        let rate = swap_rate(*self, now);
        let fee = amount_in * rate / BASIS_POINT_MAX as int;
        let protocol = fee * self.fee_parameters.protocol_share_bps / BASIS_POINT_MAX as int;
        let lp = fee - protocol;
        let start = self.index_of(self.active_id as int);
        let sb = self.bins@[start];
        let acc = if swap_for_y {
            sb.fee_x_per_share
        } else {
            sb.fee_y_per_share
        };
        let pf = if swap_for_y {
            self.protocol_fee_x
        } else {
            self.protocol_fee_y
        };
        let w = walk_in(*self, start, amount_in - fee, swap_for_y);
        &&& self.status == PairStatus::Enabled
        &&& sum_in(self.bins@, swap_for_y) + amount_in - fee <= u64::MAX
        &&& w is Some
        &&& (w->0).1 >= min_amount_out
        &&& amount_in - fee > 0 ==> pf + protocol <= u64::MAX
        &&& amount_in - fee == 0 ==> pf + fee <= u64::MAX
    }

    /// Sells exactly `amount_in` of X (`swap_for_y`) or of Y. The fee
    /// `floor(amount_in * f / 10000)`, at the pool's current total fee rate
    /// `f`, is taken first and split between the protocol and the providers
    /// of the starting bin (the protocol takes it all where that bin has no
    /// shares). The rest walks the bins from the active one, downwards when
    /// selling X and upwards when selling Y, emptying each bin's output
    /// reserve before moving to the next, and stops in the bin where it is
    /// spent, which becomes active. Afterwards the volatility state is
    /// decayed to `now` and grown by the distance moved.
    ///
    /// Fails `PoolDisabled` on a disabled pool, `InsufficientBinArrays` when
    /// the walk would leave the loaded window, `SlippageExceeded` when less
    /// than `min_amount_out` comes out, and `Overflow` or a price failure
    /// where an amount leaves its type. A failure changes nothing.
    pub fn swap_exact_in(&mut self, amount_in: u64, swap_for_y: bool, min_amount_out: u64, now: u64) -> (r:
        Result<SwapResult, LbError>)
        requires
            old(self).wf(),
        ensures
            final(self).wf(),
            old(self).status == PairStatus::Disabled ==> r == Err::<SwapResult, LbError>(
                LbError::PoolDisabled,
            ),
            r is Ok <==> old(self).swap_in_ok(amount_in as int, swap_for_y, min_amount_out as int, now),
            r == Err::<SwapResult, LbError>(LbError::SlippageExceeded) <==> ({
                let o = *old(self);
                let rate = swap_rate(o, now);
                let net = amount_in - amount_in * rate / BASIS_POINT_MAX as int;
                let w = walk_in(o, o.index_of(o.active_id as int), net, swap_for_y);
                &&& o.status == PairStatus::Enabled
                &&& sum_in(o.bins@, swap_for_y) + net <= u64::MAX
                &&& w is Some
                &&& (w->0).1 < min_amount_out
            }),
            ({
                let o = *old(self);
                let rate = swap_rate(o, now);
                let net = amount_in - amount_in * rate / BASIS_POINT_MAX as int;
                &&& o.status == PairStatus::Enabled
                &&& sum_in(o.bins@, swap_for_y) + net <= u64::MAX
                &&& window_priced(o)
                &&& walk_in(o, o.index_of(o.active_id as int), net, swap_for_y) is None
            }) ==> r == Err::<SwapResult, LbError>(
                LbError::InsufficientBinArrays(missing_page(*old(self), swap_for_y) as i64),
            ),
            r matches Err(LbError::InsufficientBinArrays(_)) ==> ({
                let o = *old(self);
                let rate = swap_rate(o, now);
                let net = amount_in - amount_in * rate / BASIS_POINT_MAX as int;
                walk_in(o, o.index_of(o.active_id as int), net, swap_for_y) is None
            }),
            r is Err ==> *final(self) == *old(self),
            r matches Ok(res) ==> exact_in_done(
                *old(self),
                *final(self),
                res,
                amount_in as int,
                swap_for_y,
                min_amount_out as int,
                now,
            ),
    {
        if self.status == PairStatus::Disabled {
            return Err(LbError::PoolDisabled);
        }
        let mut vol = self.volatility;
        update_references(&self.fee_parameters, &mut vol, self.active_id, now);
        let mut vol_now = vol;
        update_volatility_accumulator(&self.fee_parameters, &mut vol_now, self.active_id);
        let fee_bps = total_fee_bps(
            &self.fee_parameters,
            vol_now.volatility_accumulator,
            self.bin_step,
        );
        let split = split_fee(amount_in, fee_bps, self.fee_parameters.protocol_share_bps as u64);
        let net = amount_in - split.fee;
        let reserve_in = if swap_for_y {
            self.reserve_x
        } else {
            self.reserve_y
        };
        let reserve_out = if swap_for_y {
            self.reserve_y
        } else {
            self.reserve_x
        };
        if reserve_in > u64::MAX - net {
            return Err(LbError::Overflow);
        }
        let ghost orig = self.bins@;
        let mut work: Vec<Bin> = self.bins.clone();
        assert(work@ =~= orig);
        let n = work.len();
        let start: usize = (self.active_id as i64 - self.lower_bin_id as i64) as usize;
        let mut idx: usize = start;
        let mut remaining: u64 = net;
        let mut out_total: u64 = 0;
        let mut done = false;
        while !done
            invariant
                self.wf(),
                *self == *old(self),
                net == amount_in - split.fee,
                split.fee as int == amount_in as int * swap_rate(*self, now) / BASIS_POINT_MAX as int,
                !done ==> walk_in(*self, start as int, net as int, swap_for_y) is None ==> !self.swap_in_ok(
                    amount_in as int,
                    swap_for_y,
                    min_amount_out as int,
                    now,
                ),
                self.status == PairStatus::Enabled,
                orig == self.bins@,
                out_total <= reserve_out,
                n == orig.len(),
                start == self.index_of(self.active_id as int),
                0 <= idx < n,
                swap_for_y ==> idx <= start,
                !swap_for_y ==> idx >= start,
                work@.len() == n,
                remaining <= net,
                reserve_in == sum_in(orig, swap_for_y),
                reserve_out == sum_out(orig, swap_for_y),
                reserve_in + net <= u64::MAX,
                sum_in(work@, swap_for_y) == sum_in(orig, swap_for_y) + (net - remaining),
                sum_out(work@, swap_for_y) == sum_out(orig, swap_for_y) - out_total,
                done ==> remaining == 0,
                forall|k: int| 0 <= k < n ==> (#[trigger] work@[k]).wf(),
                forall|k: int|
                    0 <= k < n ==> in_reserve(#[trigger] work@[k], swap_for_y) >= in_reserve(
                        orig[k],
                        swap_for_y,
                    ) && (in_reserve(work@[k], swap_for_y) > in_reserve(orig[k], swap_for_y)
                        ==> orig[k].liquidity_supply > 0),
                forall|k: int|
                    0 <= k < n ==> (#[trigger] work@[k]).liquidity_supply == orig[k].liquidity_supply
                        && work@[k].fee_x_per_share == orig[k].fee_x_per_share
                        && work@[k].fee_y_per_share == orig[k].fee_y_per_share,
                forall|k: int|
                    crossed(k, start as int, idx as int, swap_for_y) ==> out_reserve(
                        #[trigger] work@[k],
                        swap_for_y,
                    ) == 0,
                forall|k: int|
                    0 <= k < n && k != idx && !crossed(k, start as int, idx as int, swap_for_y)
                        ==> #[trigger] work@[k] == orig[k],
                !done ==> work@[idx as int] == orig[idx as int],
                !done ==> walk_in(*self, start as int, net as int, swap_for_y) == plus_out(
                    walk_in(*self, idx as int, remaining as int, swap_for_y),
                    out_total as int,
                ),
                done ==> walk_in(*self, start as int, net as int, swap_for_y) == Some(
                    (idx as int, out_total as int),
                ),
                forall|k: int|
                    crossed(k, start as int, idx as int, swap_for_y) ==> in_reserve(
                        #[trigger] work@[k],
                        swap_for_y,
                    ) == in_reserve(orig[k], swap_for_y) + max_in_spec(
                        out_reserve(orig[k], swap_for_y),
                        price_at(*self, k),
                        swap_for_y,
                    ),
                done ==> out_reserve(work@[idx as int], swap_for_y) == out_reserve(
                    orig[idx as int],
                    swap_for_y,
                ) - min_spec(
                    amount_out_spec(
                        in_reserve(work@[idx as int], swap_for_y) - in_reserve(
                            orig[idx as int],
                            swap_for_y,
                        ),
                        price_at(*self, idx as int),
                        swap_for_y,
                    ),
                    out_reserve(orig[idx as int], swap_for_y),
                ),
                done ==> in_reserve(work@[idx as int], swap_for_y) >= in_reserve(
                    orig[idx as int],
                    swap_for_y,
                ),
            decreases (if swap_for_y {
                idx as int
            } else {
                n - idx
            }) * 2 + (if done {
                0int
            } else {
                1int
            }),
        {
            let id: i32 = (self.lower_bin_id as i64 + idx as i64) as i32;
            assert(-MAX_BIN_ID <= id <= MAX_BIN_ID);
            let p = match price_of_bin(id, self.bin_step) {
                Ok(p) => p,
                Err(e) => {
                    assert(walk_in(*self, idx as int, remaining as int, swap_for_y) is None);
                    assert(walk_in(*self, start as int, net as int, swap_for_y) is None);
                    assert(crate::price::price_spec(self.lower_bin_id + idx as int, self.bin_step as int)
                        is None);
                    assert(!window_priced(*self));
                    return Err(e);
                },
            };
            assert(p == price_at(*self, idx as int));
            if p == 0 {
                assert(walk_in(*self, idx as int, remaining as int, swap_for_y) is None);
                assert(walk_in(*self, start as int, net as int, swap_for_y) is None);
                assert(!window_priced(*self));
                return Err(LbError::DivideByZero);
            }
            let mut b = work[idx];
            let r_out = if swap_for_y {
                b.amount_y
            } else {
                b.amount_x
            };
            let ghost rem0 = remaining as int;
            let ghost out0 = out_total as int;
            let (i_in, i_out) = fill_bin(r_out, p, remaining, swap_for_y);
            proof {
                lemma_sum_elem_le(work@, idx as int);
                if r_out == 0 {
                    assert(max_in_spec(0, p as int, swap_for_y) == 0) by (nonlinear_arith)
                        requires p > 0;
                }
            }
            if swap_for_y {
                b.amount_x = b.amount_x + i_in;
                b.amount_y = b.amount_y - i_out;
            } else {
                b.amount_y = b.amount_y + i_in;
                b.amount_x = b.amount_x - i_out;
            }
            proof {
                lemma_sum_update(work@, idx as int, b);
                lemma_sum_nonneg(work@.update(idx as int, b));
            }
            work.set(idx, b);
            remaining = remaining - i_in;
            out_total = out_total + i_out;
            if remaining == 0 {
                done = true;
            } else if swap_for_y {
                if idx == 0 {
                    assert(walk_in(*self, idx as int, rem0, swap_for_y) is None);
                    return Err(LbError::InsufficientBinArrays(self.next_page(swap_for_y)));
                }
                idx = idx - 1;
            } else {
                if idx + 1 == n {
                    assert(walk_in(*self, idx as int, rem0, swap_for_y) is None);
                    return Err(LbError::InsufficientBinArrays(self.next_page(swap_for_y)));
                }
                idx = idx + 1;
            }
        }
        if out_total < min_amount_out {
            return Err(LbError::SlippageExceeded);
        }
        let mut protocol_fee = split.protocol_fee;
        let mut lp_fee = split.lp_fee;
        if net == 0 {
            protocol_fee = split.fee;
            lp_fee = 0;
        }
        let (pfx, pfy) = if swap_for_y {
            (protocol_fee, 0u64)
        } else {
            (0u64, protocol_fee)
        };
        if self.protocol_fee_x > u64::MAX - pfx || self.protocol_fee_y > u64::MAX - pfy {
            return Err(LbError::Overflow);
        }
        let ghost walked = work@;
        if net > 0 {
            proof {
                lemma_sum_in_deltas(orig, work@, swap_for_y);
            }
            distribute_lp_fee(&self.bins, &mut work, lp_fee, net, swap_for_y);
        }
        proof {
            assert forall|k: int| 0 <= k < n implies (#[trigger] work@[k]).amount_x == walked[k].amount_x
                && work@[k].amount_y == walked[k].amount_y && work@[k].liquidity_supply
                == walked[k].liquidity_supply && (in_deltas(orig, walked, swap_for_y)[k] == 0
                ==> work@[k] == walked[k]) by {}
            assert(in_deltas(orig, work@, swap_for_y) =~= in_deltas(orig, walked, swap_for_y));
            lemma_sum_in_deltas(orig, walked, swap_for_y);
        }
        let new_active: i32 = (self.lower_bin_id as i64 + idx as i64) as i32;
        update_volatility_accumulator(&self.fee_parameters, &mut vol, new_active);
        self.bins = work;
        if swap_for_y {
            self.reserve_x = self.reserve_x + net;
            self.reserve_y = self.reserve_y - out_total;
        } else {
            self.reserve_y = self.reserve_y + net;
            self.reserve_x = self.reserve_x - out_total;
        }
        self.protocol_fee_x = self.protocol_fee_x + pfx;
        self.protocol_fee_y = self.protocol_fee_y + pfy;
        self.active_id = new_active;
        self.volatility = vol;
        Ok(SwapResult { amount_in, amount_out: out_total, fee: split.fee, protocol_fee, lp_fee })
    }
}

/// Fee added on top of a net input `net` so that the fee is the rate `f`
/// of the gross amount, rounded up (`f < 10000`).
pub open spec fn fee_on_top_spec(net: int, f: int) -> int {
    (net * f + (BASIS_POINT_MAX - f) - 1) / (BASIS_POINT_MAX - f)
}

impl LbPair {
    /// Everything `swap_exact_out` needs to succeed: an enabled pool, a fee
    /// rate below 100%, a walk that stays in the window, room for the input
    /// and its fee, a total within `max_amount_in`, and room for the fee in
    /// the starting bin's accumulator and the protocol's balance.
    pub open spec fn swap_out_ok(&self, amount_out: int, swap_for_y: bool, max_amount_in: int, now: u64) -> bool {
        let rate = swap_rate(*self, now);
        let start = self.index_of(self.active_id as int);
        let w = walk_out(*self, start, amount_out, swap_for_y);
        let net = (w->0).1;
        let fee = fee_on_top_spec(net, rate);
        let protocol = fee * self.fee_parameters.protocol_share_bps / BASIS_POINT_MAX as int;
        let lp = fee - protocol;
        let sb = self.bins@[start];
        let acc = if swap_for_y {
            sb.fee_x_per_share
        } else {
            sb.fee_y_per_share
        };
        let pf = if swap_for_y {
            self.protocol_fee_x
        } else {
            self.protocol_fee_y
        };
        &&& self.status == PairStatus::Enabled
        &&& rate < BASIS_POINT_MAX
        &&& w is Some
        &&& sum_in(self.bins@, swap_for_y) + net <= u64::MAX
        &&& net + fee <= u64::MAX
        &&& net + fee <= max_amount_in
        &&& net > 0 ==> pf + protocol <= u64::MAX
        &&& net == 0 ==> pf + fee <= u64::MAX
    }

    /// Buys exactly `amount_out` of Y (`swap_for_y`, paying X) or of X. The
    /// walk mirrors `swap_exact_in`: each bin gives what is still wanted, up
    /// to its whole output reserve, for the least input that buys it, and the
    /// walk moves on only after emptying a bin. The fee is then added on top
    /// of the input at the pool's total fee rate `f` (see `fee_on_top_spec`)
    /// and split as in `swap_exact_in`.
    ///
    /// Fails `PoolDisabled` on a disabled pool, `OutOfRange` at a fee rate of
    /// 100%, `InsufficientBinArrays` when the walk would leave the loaded
    /// window, `SlippageExceeded` when the input with fee exceeds
    /// `max_amount_in`, and `Overflow` or a price failure where an amount
    /// leaves its type. A failure changes nothing.
    pub fn swap_exact_out(
        &mut self,
        amount_out: u64,
        swap_for_y: bool,
        max_amount_in: u64,
        now: u64,
    ) -> (r: Result<SwapResult, LbError>)
        requires
            old(self).wf(),
        ensures
            final(self).wf(),
            old(self).status == PairStatus::Disabled ==> r == Err::<SwapResult, LbError>(
                LbError::PoolDisabled,
            ),
            r is Ok <==> old(self).swap_out_ok(amount_out as int, swap_for_y, max_amount_in as int, now),
            r == Err::<SwapResult, LbError>(LbError::SlippageExceeded) <==> ({
                let o = *old(self);
                let rate = swap_rate(o, now);
                let w = walk_out(o, o.index_of(o.active_id as int), amount_out as int, swap_for_y);
                let net = (w->0).1;
                let fee = fee_on_top_spec(net, rate);
                &&& o.status == PairStatus::Enabled
                &&& rate < BASIS_POINT_MAX
                &&& w is Some
                &&& sum_in(o.bins@, swap_for_y) + net <= u64::MAX
                &&& net + fee <= u64::MAX
                &&& net + fee > max_amount_in
            }),
            r matches Err(LbError::InsufficientBinArrays(_)) ==> walk_out(
                *old(self),
                old(self).index_of(old(self).active_id as int),
                amount_out as int,
                swap_for_y,
            ) is None,
            r is Err ==> *final(self) == *old(self),
            r matches Ok(res) ==> exact_out_done(
                *old(self),
                *final(self),
                res,
                amount_out as int,
                swap_for_y,
                max_amount_in as int,
                now,
            ),
    {
        if self.status == PairStatus::Disabled {
            return Err(LbError::PoolDisabled);
        }
        let mut vol = self.volatility;
        update_references(&self.fee_parameters, &mut vol, self.active_id, now);
        let mut vol_now = vol;
        update_volatility_accumulator(&self.fee_parameters, &mut vol_now, self.active_id);
        let fee_bps = total_fee_bps(
            &self.fee_parameters,
            vol_now.volatility_accumulator,
            self.bin_step,
        );
        if fee_bps >= BASIS_POINT_MAX {
            return Err(LbError::OutOfRange);
        }
        let reserve_in = if swap_for_y {
            self.reserve_x
        } else {
            self.reserve_y
        };
        let reserve_out = if swap_for_y {
            self.reserve_y
        } else {
            self.reserve_x
        };
        let ghost orig = self.bins@;
        let mut work: Vec<Bin> = self.bins.clone();
        assert(work@ =~= orig);
        let n = work.len();
        let start: usize = (self.active_id as i64 - self.lower_bin_id as i64) as usize;
        let mut idx: usize = start;
        let mut remaining: u64 = amount_out;
        let mut net: u64 = 0;
        let mut done = false;
        while !done
            invariant
                self.wf(),
                *self == *old(self),
                fee_bps == swap_rate(*self, now),
                fee_bps < BASIS_POINT_MAX,
                !done ==> walk_out(*self, start as int, amount_out as int, swap_for_y) == plus_out(
                    walk_out(*self, idx as int, remaining as int, swap_for_y),
                    net as int,
                ),
                done ==> walk_out(*self, start as int, amount_out as int, swap_for_y) == Some(
                    (idx as int, net as int),
                ),
                !done ==> walk_out(*self, start as int, amount_out as int, swap_for_y) is None
                    ==> !self.swap_out_ok(amount_out as int, swap_for_y, max_amount_in as int, now),
                self.status == PairStatus::Enabled,
                orig == self.bins@,
                n == orig.len(),
                start == self.index_of(self.active_id as int),
                0 <= idx < n,
                swap_for_y ==> idx <= start,
                !swap_for_y ==> idx >= start,
                work@.len() == n,
                remaining <= amount_out,
                amount_out - remaining <= reserve_out,
                reserve_in == sum_in(orig, swap_for_y),
                reserve_out == sum_out(orig, swap_for_y),
                reserve_in + net <= u64::MAX,
                sum_in(work@, swap_for_y) == sum_in(orig, swap_for_y) + net,
                sum_out(work@, swap_for_y) == sum_out(orig, swap_for_y) - (amount_out - remaining),
                done ==> remaining == 0,
                forall|k: int| 0 <= k < n ==> (#[trigger] work@[k]).wf(),
                forall|k: int|
                    0 <= k < n ==> in_reserve(#[trigger] work@[k], swap_for_y) >= in_reserve(
                        orig[k],
                        swap_for_y,
                    ) && (in_reserve(work@[k], swap_for_y) > in_reserve(orig[k], swap_for_y)
                        ==> orig[k].liquidity_supply > 0),
                forall|k: int|
                    0 <= k < n ==> (#[trigger] work@[k]).liquidity_supply == orig[k].liquidity_supply
                        && work@[k].fee_x_per_share == orig[k].fee_x_per_share
                        && work@[k].fee_y_per_share == orig[k].fee_y_per_share,
                forall|k: int|
                    crossed(k, start as int, idx as int, swap_for_y) ==> out_reserve(
                        #[trigger] work@[k],
                        swap_for_y,
                    ) == 0,
                forall|k: int|
                    0 <= k < n && k != idx && !crossed(k, start as int, idx as int, swap_for_y)
                        ==> #[trigger] work@[k] == orig[k],
                !done ==> work@[idx as int] == orig[idx as int],
                forall|k: int|
                    crossed(k, start as int, idx as int, swap_for_y) ==> in_reserve(
                        #[trigger] work@[k],
                        swap_for_y,
                    ) == in_reserve(orig[k], swap_for_y) + max_in_spec(
                        out_reserve(orig[k], swap_for_y),
                        price_at(*self, k),
                        swap_for_y,
                    ),
                done ==> in_reserve(work@[idx as int], swap_for_y) == in_reserve(
                    orig[idx as int],
                    swap_for_y,
                ) + max_in_spec(
                    out_reserve(orig[idx as int], swap_for_y) - out_reserve(
                        work@[idx as int],
                        swap_for_y,
                    ),
                    price_at(*self, idx as int),
                    swap_for_y,
                ),
                done ==> out_reserve(work@[idx as int], swap_for_y) <= out_reserve(
                    orig[idx as int],
                    swap_for_y,
                ),
            decreases (if swap_for_y {
                idx as int
            } else {
                n - idx
            }) * 2 + (if done {
                0int
            } else {
                1int
            }),
        {
            let id: i32 = (self.lower_bin_id as i64 + idx as i64) as i32;
            assert(-MAX_BIN_ID <= id <= MAX_BIN_ID);
            let p = match price_of_bin(id, self.bin_step) {
                Ok(p) => p,
                Err(e) => {
                    assert(walk_out(*self, idx as int, remaining as int, swap_for_y) is None);
                    assert(walk_out(*self, start as int, amount_out as int, swap_for_y) is None);
                    return Err(e);
                },
            };
            assert(p == price_at(*self, idx as int));
            if p == 0 {
                assert(walk_out(*self, idx as int, remaining as int, swap_for_y) is None);
                assert(walk_out(*self, start as int, amount_out as int, swap_for_y) is None);
                return Err(LbError::DivideByZero);
            }
            let ghost rem0 = remaining as int;
            let mut b = work[idx];
            let r_out = if swap_for_y {
                b.amount_y
            } else {
                b.amount_x
            };
            let take = if remaining <= r_out {
                remaining
            } else {
                r_out
            };
            let a: u64 = if swap_for_y { p } else { ONE };
            let d: u64 = if swap_for_y { ONE } else { p };
            let i_in = mul_div_u128(take as u128, d as u128, a as u128, Rounding::Up);
            if i_in > (u64::MAX - reserve_in - net) as u128 {
                proof {
                    lemma_walk_out_cost_ge(*self, idx as int, remaining as int, swap_for_y, take as int, i_in as int);
                }
                return Err(LbError::Overflow);
            }
            let i_in = i_in as u64;
            proof {
                lemma_sum_elem_le(work@, idx as int);
                if take == 0 {
                    assert(i_in == 0) by (nonlinear_arith)
                        requires
                            i_in == (take as int * d as int + a as int - 1) / a as int,
                            take == 0,
                            a > 0,
                    ;
                }
            }
            if swap_for_y {
                b.amount_x = b.amount_x + i_in;
                b.amount_y = b.amount_y - take;
            } else {
                b.amount_y = b.amount_y + i_in;
                b.amount_x = b.amount_x - take;
            }
            proof {
                lemma_sum_update(work@, idx as int, b);
                lemma_sum_nonneg(work@.update(idx as int, b));
            }
            work.set(idx, b);
            net = net + i_in;
            remaining = remaining - take;
            if remaining == 0 {
                done = true;
            } else if swap_for_y {
                if idx == 0 {
                    assert(walk_out(*self, idx as int, rem0, swap_for_y) is None);
                    return Err(LbError::InsufficientBinArrays(self.next_page(swap_for_y)));
                }
                idx = idx - 1;
            } else {
                if idx + 1 == n {
                    assert(walk_out(*self, idx as int, rem0, swap_for_y) is None);
                    return Err(LbError::InsufficientBinArrays(self.next_page(swap_for_y)));
                }
                idx = idx + 1;
            }
        }
        let fee128 = mul_div_u128(
            net as u128,
            fee_bps as u128,
            (BASIS_POINT_MAX - fee_bps) as u128,
            Rounding::Up,
        );
        if fee128 > (u64::MAX - net) as u128 {
            return Err(LbError::Overflow);
        }
        let fee = fee128 as u64;
        let gross = net + fee;
        if gross > max_amount_in {
            return Err(LbError::SlippageExceeded);
        }
        let split_protocol = bps_of(fee, self.fee_parameters.protocol_share_bps as u64);
        let mut protocol_fee = split_protocol;
        let mut lp_fee = fee - split_protocol;
        if net == 0 {
            protocol_fee = fee;
            lp_fee = 0;
        }
        let (pfx, pfy) = if swap_for_y {
            (protocol_fee, 0u64)
        } else {
            (0u64, protocol_fee)
        };
        if self.protocol_fee_x > u64::MAX - pfx || self.protocol_fee_y > u64::MAX - pfy {
            return Err(LbError::Overflow);
        }
        let ghost walked = work@;
        if net > 0 {
            proof {
                lemma_sum_in_deltas(orig, work@, swap_for_y);
            }
            distribute_lp_fee(&self.bins, &mut work, lp_fee, net, swap_for_y);
        }
        proof {
            assert forall|k: int| 0 <= k < n implies (#[trigger] work@[k]).amount_x == walked[k].amount_x
                && work@[k].amount_y == walked[k].amount_y && work@[k].liquidity_supply
                == walked[k].liquidity_supply && (in_deltas(orig, walked, swap_for_y)[k] == 0
                ==> work@[k] == walked[k]) by {}
            assert(in_deltas(orig, work@, swap_for_y) =~= in_deltas(orig, walked, swap_for_y));
            lemma_sum_in_deltas(orig, walked, swap_for_y);
        }
        let new_active: i32 = (self.lower_bin_id as i64 + idx as i64) as i32;
        update_volatility_accumulator(&self.fee_parameters, &mut vol, new_active);
        self.bins = work;
        if swap_for_y {
            self.reserve_x = self.reserve_x + net;
            self.reserve_y = self.reserve_y - amount_out;
        } else {
            self.reserve_y = self.reserve_y + net;
            self.reserve_x = self.reserve_x - amount_out;
        }
        self.protocol_fee_x = self.protocol_fee_x + pfx;
        self.protocol_fee_y = self.protocol_fee_y + pfy;
        self.active_id = new_active;
        self.volatility = vol;
        Ok(SwapResult { amount_in: gross, amount_out, fee, protocol_fee, lp_fee })
    }
}

/// Walks read only the bins, the window and the bin step.
pub proof fn lemma_walks_congruent(a: LbPair, b: LbPair, idx: int, remaining: int, swap_for_y: bool)
    requires
        a.bins@ == b.bins@,
        a.lower_bin_id == b.lower_bin_id,
        a.bin_step == b.bin_step,
    ensures
        walk_in(a, idx, remaining, swap_for_y) == walk_in(b, idx, remaining, swap_for_y),
        walk_out(a, idx, remaining, swap_for_y) == walk_out(b, idx, remaining, swap_for_y),
    decreases (if swap_for_y {
        idx
    } else {
        a.bins@.len() - idx
    }),
{
    if 0 <= idx < a.bins@.len() {
        let next = if swap_for_y {
            idx - 1
        } else {
            idx + 1
        };
        if 0 <= next < a.bins@.len() {
            let p = price_at(a, idx);
            let r = out_reserve(a.bins@[idx], swap_for_y);
            lemma_walks_congruent(a, b, next, remaining - max_in_spec(r, p, swap_for_y), swap_for_y);
            lemma_walks_congruent(a, b, next, remaining - r, swap_for_y);
        }
    }
}

/// An exact-out result reads only the fields and the bins' view.
pub proof fn lemma_exact_out_done_congruent(
    a: LbPair,
    b: LbPair,
    f: LbPair,
    res: SwapResult,
    amount_out: int,
    swap_for_y: bool,
    max_amount_in: int,
    now: u64,
)
    requires
        a.same_state(&b),
        a.status == b.status,
        exact_out_done(a, f, res, amount_out, swap_for_y, max_amount_in, now),
    ensures
        exact_out_done(b, f, res, amount_out, swap_for_y, max_amount_in, now),
{
    lemma_walks_congruent(a, b, a.index_of(a.active_id as int), amount_out, swap_for_y);
    assert(forall|k: int| #[trigger] price_at(a, k) == price_at(b, k));
    assert(in_deltas(a.bins@, f.bins@, swap_for_y) == in_deltas(b.bins@, f.bins@, swap_for_y));
}

/// The full fill of a bounded swap: selling everything succeeds and ends at
/// or before the bound.
pub open spec fn full_fill_ok(o: LbPair, amount_in: int, swap_for_y: bool, bound: int, now: u64) -> bool {
    let rate = swap_rate(o, now);
    let net = amount_in - amount_in * rate / BASIS_POINT_MAX as int;
    let end = (walk_in(o, o.index_of(o.active_id as int), net, swap_for_y)->0).0;
    &&& o.swap_in_ok(amount_in, swap_for_y, 0, now)
    &&& swap_for_y ==> end >= bound
    &&& !swap_for_y ==> end <= bound
}

/// The partial fill of a bounded swap: buying the output reserves from the
/// active bin to the bound succeeds within `amount_in` and ends at or
/// before the bound.
pub open spec fn partial_fill_ok(o: LbPair, amount_in: int, swap_for_y: bool, bound: int, now: u64) -> bool {
    let start = o.index_of(o.active_id as int);
    let cap = if swap_for_y {
        range_out(o.bins@, bound, start + 1, swap_for_y)
    } else {
        range_out(o.bins@, start, bound + 1, swap_for_y)
    };
    let end = (walk_out(o, start, cap, swap_for_y)->0).0;
    &&& cap <= u64::MAX
    &&& o.swap_out_ok(cap, swap_for_y, amount_in, now)
    &&& swap_for_y ==> end >= bound
    &&& !swap_for_y ==> end <= bound
}

/// Output reserves of the bins at indices `[lo, hi)`.
pub open spec fn range_out(s: Seq<Bin>, lo: int, hi: int, swap_for_y: bool) -> int {
    sum_out(s.subrange(lo, hi), swap_for_y)
}

/// How a bounded swap ended.
#[derive(Debug, Clone, Copy, PartialEq, Eq, Structural)]
pub enum Fill {
    /// All of the input was spent.
    Full,
    /// Spending it all would have passed the bound: everything up to the
    /// bound was bought instead, for part of the input.
    Partial,
}

impl LbPair {
    /// Same state as `o` in everything a swap changes.
    pub open spec fn same_swap_state(&self, o: &LbPair) -> bool {
        &&& self.same_state(o)
        &&& self.status == o.status
    }

    /// Sells up to `amount_in` without moving the active bin past
    /// `bound_id`: where selling it all (as `swap_exact_in`, without a
    /// minimum) ends at or before the bound, that is the result; otherwise
    /// the whole output reserve of the bins from the active one to the bound
    /// is bought as `swap_exact_out` does, for at most `amount_in`, and the
    /// fill is partial.
    ///
    /// Fails `OutOfRange` when `bound_id` is outside the window or behind the
    /// active bin for the direction of the trade, `SlippageExceeded` when the
    /// partial fill would cost more than `amount_in`, and otherwise as the
    /// swap it makes fails; a failure changes nothing.
    pub fn swap_with_price_impact(
        &mut self,
        amount_in: u64,
        swap_for_y: bool,
        bound_id: i32,
        now: u64,
    ) -> (r: Result<(SwapResult, Fill), LbError>)
        requires
            old(self).wf(),
        ensures
            final(self).wf(),
            r is Err ==> final(self).same_state(old(self)),
            r is Ok <==> old(self).loaded(bound_id as int) && !(swap_for_y && bound_id > old(
                self,
            ).active_id) && !(!swap_for_y && bound_id < old(self).active_id) && (full_fill_ok(
                *old(self),
                amount_in as int,
                swap_for_y,
                old(self).index_of(bound_id as int),
                now,
            ) || partial_fill_ok(
                *old(self),
                amount_in as int,
                swap_for_y,
                old(self).index_of(bound_id as int),
                now,
            )),
            r matches Ok((res, fill)) ==> fill == Fill::Full ==> exact_in_done(
                *old(self),
                *final(self),
                res,
                amount_in as int,
                swap_for_y,
                0,
                now,
            ),
            r matches Ok((res, fill)) ==> fill == Fill::Partial ==> exact_out_done(
                *old(self),
                *final(self),
                res,
                if swap_for_y {
                    range_out(
                        old(self).bins@,
                        old(self).index_of(bound_id as int),
                        old(self).index_of(old(self).active_id as int) + 1,
                        swap_for_y,
                    )
                } else {
                    range_out(
                        old(self).bins@,
                        old(self).index_of(old(self).active_id as int),
                        old(self).index_of(bound_id as int) + 1,
                        swap_for_y,
                    )
                },
                swap_for_y,
                amount_in as int,
                now,
            ),
            r matches Ok((res, fill)) ==> (fill == Fill::Full <==> full_fill_ok(
                *old(self),
                amount_in as int,
                swap_for_y,
                old(self).index_of(bound_id as int),
                now,
            )),
            !old(self).loaded(bound_id as int) || (swap_for_y && bound_id > old(self).active_id)
                || (!swap_for_y && bound_id < old(self).active_id) ==> r == Err::<
                (SwapResult, Fill),
                LbError,
            >(LbError::OutOfRange),
            r matches Ok((res, fill)) ==> {
                let o = *old(self);
                let f = *final(self);
                let start = o.index_of(o.active_id as int);
                let bound = o.index_of(bound_id as int);
                &&& swap_for_y ==> bound_id <= f.active_id <= o.active_id
                &&& !swap_for_y ==> o.active_id <= f.active_id <= bound_id
                &&& res.amount_in <= amount_in
                &&& fill == Fill::Full ==> res.amount_in == amount_in
                &&& fill == Fill::Partial ==> res.amount_out == if swap_for_y {
                    range_out(o.bins@, bound, start + 1, swap_for_y)
                } else {
                    range_out(o.bins@, start, bound + 1, swap_for_y)
                }
                &&& res.protocol_fee + res.lp_fee == res.fee
                &&& sum_in(f.bins@, swap_for_y) == sum_in(o.bins@, swap_for_y) + res.amount_in
                    - res.fee
                &&& sum_out(f.bins@, swap_for_y) == sum_out(o.bins@, swap_for_y)
                    - res.amount_out
            },
    {
        let bound = match self.bin_index(bound_id) {
            Ok(b) => b,
            Err(_) => {
                return Err(LbError::OutOfRange);
            },
        };
        let start: usize = (self.active_id as i64 - self.lower_bin_id as i64) as usize;
        if (swap_for_y && bound > start) || (!swap_for_y && bound < start) {
            return Err(LbError::OutOfRange);
        }
        let (lo, hi) = if swap_for_y {
            (bound, start)
        } else {
            (start, bound)
        };
        let mut cap: u128 = 0;
        let mut k: usize = lo;
        while k <= hi
            invariant
                self.wf(),
                lo <= hi < self.bins@.len(),
                lo <= k <= hi + 1,
                cap == range_out(self.bins@, lo as int, k as int, swap_for_y),
                cap <= (k - lo) * u64::MAX,
            decreases hi + 1 - k,
        {
            let b = self.bins[k];
            let v = if swap_for_y {
                b.amount_y
            } else {
                b.amount_x
            };
            assert(self.bins@.subrange(lo as int, k + 1).drop_last() =~= self.bins@.subrange(
                lo as int,
                k as int,
            ));
            assert((k - lo) * u64::MAX + u64::MAX <= self.bins@.len() * u64::MAX) by (nonlinear_arith)
                requires
                    k < self.bins@.len(),
                    lo <= k,
            ;
            assert(self.bins@.len() * u64::MAX <= usize::MAX as int * u64::MAX) by (nonlinear_arith)
                requires
                    self.bins@.len() <= usize::MAX,
            ;
            cap = cap + v as u128;
            k = k + 1;
        }
        let ghost o = *self;
        let saved_bins = self.bins.clone();
        assert(saved_bins@ =~= self.bins@);
        let saved_x = self.reserve_x;
        let saved_y = self.reserve_y;
        let saved_active = self.active_id;
        let saved_pfx = self.protocol_fee_x;
        let saved_pfy = self.protocol_fee_y;
        let saved_vol = self.volatility;
        match self.swap_exact_in(amount_in, swap_for_y, 0, now) {
            Ok(res) => {
                if (swap_for_y && self.active_id >= bound_id) || (!swap_for_y && self.active_id
                    <= bound_id) {
                    return Ok((res, Fill::Full));
                }
            },
            Err(_) => {},
        }
        self.bins = saved_bins;
        self.reserve_x = saved_x;
        self.reserve_y = saved_y;
        self.active_id = saved_active;
        self.protocol_fee_x = saved_pfx;
        self.protocol_fee_y = saved_pfy;
        self.volatility = saved_vol;
        assert(self.same_state(&o));
        assert forall|i: int| 0 <= i < self.bins@.len() implies (#[trigger] self.bins@[i]).wf() by {
            assert(self.bins@[i] == o.bins@[i]);
        }
        proof {
            lemma_walks_congruent(*self, o, start as int, cap as int, swap_for_y);
            let rate = swap_rate(o, now);
            let net = amount_in - amount_in * rate / BASIS_POINT_MAX as int;
            lemma_walks_congruent(*self, o, start as int, net, swap_for_y);
            assert(self.swap_out_ok(cap as int, swap_for_y, amount_in as int, now) == o.swap_out_ok(
                cap as int,
                swap_for_y,
                amount_in as int,
                now,
            ));
            assert(!full_fill_ok(o, amount_in as int, swap_for_y, bound as int, now));
        }
        if cap > u64::MAX as u128 {
            return Err(LbError::Overflow);
        }
        let saved_bins = self.bins.clone();
        assert(saved_bins@ =~= self.bins@);
        let ghost restored = *self;
        let res = self.swap_exact_out(cap as u64, swap_for_y, amount_in, now)?;
        proof {
            lemma_exact_out_done_congruent(
                restored,
                o,
                *self,
                res,
                cap as int,
                swap_for_y,
                amount_in as int,
                now,
            );
        }
        // Buying exactly the range's reserves stops inside the range; the
        // bound is still checked before the result stands.
        if (swap_for_y && self.active_id < bound_id) || (!swap_for_y && self.active_id > bound_id) {
            self.bins = saved_bins;
            self.reserve_x = saved_x;
            self.reserve_y = saved_y;
            self.active_id = saved_active;
            self.protocol_fee_x = saved_pfx;
            self.protocol_fee_y = saved_pfy;
            self.volatility = saved_vol;
            assert forall|i: int| 0 <= i < self.bins@.len() implies (#[trigger] self.bins@[i]).wf() by {
                assert(self.bins@[i] == o.bins@[i]);
            }
            return Err(LbError::InsufficientBinArrays(self.next_page(swap_for_y)));
        }
        Ok((res, Fill::Partial))
    }
}

/// Price `p` lies within `bps` basis points of the reference price `pa`.
pub open spec fn within_impact(p: int, pa: int, bps: int) -> bool {
    let d = if p >= pa {
        p - pa
    } else {
        pa - p
    };
    d * BASIS_POINT_MAX <= bps * pa
}

/// Products of the impact test fit in `u128`.
pub open spec fn d_bound(p: u64, pa: u64) -> bool {
    &&& (if p >= pa { p - pa } else { pa - p }) as int * 10000 <= u128::MAX
    &&& 10000 * pa as int <= u128::MAX
}

/// Every bin of the window has a positive price.
pub open spec fn window_priced(o: LbPair) -> bool {
    forall|k: int|
        0 <= k < o.bins@.len() ==> #[trigger] crate::price::price_spec(
            o.lower_bin_id + k,
            o.bin_step as int,
        ) is Some && price_at(o, k) > 0
}

impl LbPair {
    /// The farthest bin, in the direction a sale of X (`swap_for_y`, down)
    /// or of Y (up) moves the price, that the walk reaches from the active
    /// bin through bins whose prices all lie within `max_price_impact_bps`
    /// of the active bin's, without leaving the window. Fails `OutOfRange`
    /// above 10000 basis points and as a price fails.
    pub fn price_impact_bound(&self, max_price_impact_bps: u16, swap_for_y: bool) -> (r: Result<i32, LbError>)
        requires
            self.wf(),
        ensures
            max_price_impact_bps > BASIS_POINT_MAX ==> r == Err::<i32, LbError>(LbError::OutOfRange),
            max_price_impact_bps <= BASIS_POINT_MAX && window_priced(*self) ==> r is Ok,
            r matches Ok(b) ==> {
                let a = self.index_of(self.active_id as int);
                let bi = self.index_of(b as int);
                let pa = price_at(*self, a);
                let bps = max_price_impact_bps as int;
                &&& self.loaded(b as int)
                &&& swap_for_y ==> bi <= a && forall|k: int|
                    bi <= k <= a ==> within_impact(#[trigger] price_at(*self, k), pa, bps)
                &&& !swap_for_y ==> bi >= a && forall|k: int|
                    a <= k <= bi ==> within_impact(#[trigger] price_at(*self, k), pa, bps)
                &&& swap_for_y && bi > 0 ==> !within_impact(price_at(*self, bi - 1), pa, bps)
                &&& !swap_for_y && bi + 1 < self.bins@.len() ==> !within_impact(
                    price_at(*self, bi + 1),
                    pa,
                    bps,
                )
            },
    {
        if max_price_impact_bps as u64 > BASIS_POINT_MAX {
            return Err(LbError::OutOfRange);
        }
        let n = self.bins.len();
        let a: usize = (self.active_id as i64 - self.lower_bin_id as i64) as usize;
        assert(-MAX_BIN_ID <= self.active_id <= MAX_BIN_ID);
        let pa = match price_of_bin(self.active_id, self.bin_step) {
            Ok(p) => p,
            Err(e) => {
                assert(crate::price::price_spec(self.lower_bin_id + a as int, self.bin_step as int) is None);
                return Err(e);
            },
        };
        let ghost bps = max_price_impact_bps as int;
        proof {
            assert(within_impact(pa as int, pa as int, bps));
        }
        let mut b: usize = a;
        let mut done = false;
        while !done
            invariant
                self.wf(),
                n == self.bins@.len(),
                a == self.index_of(self.active_id as int),
                pa == price_at(*self, a as int),
                bps == max_price_impact_bps as int,
                max_price_impact_bps <= BASIS_POINT_MAX,
                0 <= b < n,
                swap_for_y ==> b <= a && forall|k: int|
                    b <= k <= a ==> within_impact(#[trigger] price_at(*self, k), pa as int, bps),
                !swap_for_y ==> b >= a && forall|k: int|
                    a <= k <= b ==> within_impact(#[trigger] price_at(*self, k), pa as int, bps),
                done && swap_for_y && b > 0 ==> !within_impact(price_at(*self, b - 1), pa as int, bps),
                done && !swap_for_y && b + 1 < n ==> !within_impact(price_at(*self, b + 1), pa as int, bps),
            decreases (if swap_for_y {
                b as int
            } else {
                n - b
            }) * 2 + (if done {
                0int
            } else {
                1int
            }),
        {
            if (swap_for_y && b == 0) || (!swap_for_y && b + 1 == n) {
                done = true;
            } else {
                let next: usize = if swap_for_y {
                    b - 1
                } else {
                    b + 1
                };
                let id: i32 = (self.lower_bin_id as i64 + next as i64) as i32;
                assert(-MAX_BIN_ID <= id <= MAX_BIN_ID);
                let p = match price_of_bin(id, self.bin_step) {
                    Ok(p) => p,
                    Err(e) => {
                        assert(crate::price::price_spec(self.lower_bin_id + next as int, self.bin_step as int)
                            is None);
                        return Err(e);
                    },
                };
                assert(p == price_at(*self, next as int));
                assert(d_bound(p, pa)) by (nonlinear_arith);
                let d: u64 = if p >= pa {
                    p - pa
                } else {
                    pa - p
                };
                assert((max_price_impact_bps as u128) * (pa as u128) <= 10000 * pa as int) by (nonlinear_arith)
                    requires max_price_impact_bps <= 10000;
                if (d as u128) * (BASIS_POINT_MAX as u128) <= (max_price_impact_bps as u128) * (pa as u128) {
                    b = next;
                } else {
                    done = true;
                }
            }
        }
        Ok((self.lower_bin_id as i64 + b as i64) as i32)
    }
}

} // verus!
