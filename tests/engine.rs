use lb_clmm::bin::{Bin, PositionBin};
use lb_clmm::bitmap::{bin_array_bounds, bin_array_index, BinArrayBitmap};
use lb_clmm::distribution::{
    amounts_from_bps, bps_from_weights, distribute, BinLiquidityDistribution, Strategy,
};
use lb_clmm::fee::{
    accrue_reward, split_fee, total_fee_bps, update_references, update_volatility_accumulator,
    FeeParameters, VolatilityState,
};
use lb_clmm::math::{bps_of, mul_div, LbError, Rounding, ONE};
use lb_clmm::pool::{LbPair, PairStatus, Position};
use lb_clmm::price::{bin_id_for_price, price_of_bin};
use lb_clmm::swap::{fill_bin, Fill};

fn params(base_fee_bps: u16, protocol_share_bps: u16) -> FeeParameters {
    FeeParameters {
        base_fee_bps,
        max_fee_bps: 10000,
        variable_fee_control: 0,
        max_volatility_accumulator: 350000,
        filter_period: 30,
        decay_period: 600,
        reduction_factor_bps: 5000,
        protocol_share_bps,
    }
}

#[test]
fn mul_div_rounds_both_ways() {
    assert_eq!(mul_div(7, 3, 2, Rounding::Down), Ok(10));
    assert_eq!(mul_div(7, 3, 2, Rounding::Up), Ok(11));
    assert_eq!(mul_div(6, 3, 2, Rounding::Up), Ok(9));
    assert_eq!(mul_div(7, 3, 0, Rounding::Down), Err(LbError::DivideByZero));
    assert_eq!(mul_div(u64::MAX, 2, 1, Rounding::Down), Err(LbError::Overflow));
    assert_eq!(mul_div(u64::MAX, u64::MAX, u64::MAX, Rounding::Down), Ok(u64::MAX));
    assert_eq!(bps_of(12345, 100), 123);
}

#[test]
fn fee_split_adds_up() {
    let s = split_fee(100000, 25, 5000);
    assert_eq!((s.fee, s.protocol_fee, s.lp_fee), (250, 125, 125));
    let s = split_fee(1000, 30, 2000);
    assert_eq!((s.fee, s.protocol_fee, s.lp_fee), (3, 0, 3));
    let s = split_fee(999, 10000, 10000);
    assert_eq!((s.fee, s.protocol_fee, s.lp_fee), (999, 999, 0));
}

#[test]
fn variable_fee_grows_with_volatility() {
    let mut p = params(10, 0);
    p.variable_fee_control = 40000;
    assert_eq!(total_fee_bps(&p, 0, 10), 10);
    assert_eq!(total_fee_bps(&p, 10000, 10), 4010);
    assert_eq!(total_fee_bps(&p, 100, 10), 11);
    p.max_fee_bps = 12;
    assert_eq!(total_fee_bps(&p, 10000, 10), 12);
    assert_eq!(total_fee_bps(&p, u32::MAX, u16::MAX), 12);
}

#[test]
fn volatility_accumulator_and_decay() {
    let p = params(10, 0);
    let mut s = VolatilityState {
        volatility_accumulator: 0,
        volatility_reference: 0,
        index_reference: 0,
        last_update: 100,
    };
    update_volatility_accumulator(&p, &mut s, -3);
    assert_eq!(s.volatility_accumulator, 30000);
    update_volatility_accumulator(&p, &mut s, 100);
    assert_eq!(s.volatility_accumulator, 350000);
    update_references(&p, &mut s, 5, 110);
    assert_eq!((s.volatility_reference, s.index_reference, s.last_update), (0, 0, 110));
    s.volatility_accumulator = 30000;
    update_references(&p, &mut s, 5, 200);
    assert_eq!((s.volatility_reference, s.index_reference), (15000, 5));
    update_references(&p, &mut s, 7, 900);
    assert_eq!((s.volatility_reference, s.index_reference), (0, 7));
}

#[test]
fn reward_accrual_carry_or_forfeit() {
    let a = accrue_reward(10, 5, 100, true).unwrap();
    assert_eq!((a.per_share_delta, a.carried, a.forfeited), (2147483648, 0, 0));
    let a = accrue_reward(10, 5, 0, true).unwrap();
    assert_eq!((a.per_share_delta, a.carried, a.forfeited), (0, 50, 0));
    let a = accrue_reward(10, 5, 0, false).unwrap();
    assert_eq!((a.per_share_delta, a.carried, a.forfeited), (0, 0, 50));
    assert_eq!(accrue_reward(u64::MAX, 2, 1, true), Err(LbError::Overflow));
}

#[test]
fn amounts_from_bps_puts_dust_on_last_positive_bin() {
    assert_eq!(amounts_from_bps(100, &vec![3333, 3333, 3334]), Ok(vec![33, 33, 34]));
    assert_eq!(amounts_from_bps(7, &vec![3000, 3000, 4000, 0]), Ok(vec![2, 2, 3, 0]));
    assert_eq!(amounts_from_bps(10, &vec![5000, 5000, 0]), Ok(vec![5, 5, 0]));
    assert_eq!(amounts_from_bps(0, &vec![10000]), Ok(vec![0]));
    assert_eq!(amounts_from_bps(10, &vec![5000, 4999]), Err(LbError::OutOfRange));
    assert_eq!(amounts_from_bps(10, &vec![]), Err(LbError::OutOfRange));
    assert_eq!(amounts_from_bps(10, &vec![10000, 1]), Err(LbError::OutOfRange));
}

#[test]
fn bps_from_weights_sums_to_basis_point_max() {
    assert_eq!(bps_from_weights(&vec![0, 0, 3, 2, 1]), Ok(vec![0, 0, 5000, 3333, 1667]));
    assert_eq!(bps_from_weights(&vec![1, 1, 1]), Ok(vec![3333, 3333, 3334]));
    assert_eq!(bps_from_weights(&vec![0, 0]), Err(LbError::OutOfRange));
}

#[test]
fn spot_distribution_splits_sides_at_active_bin() {
    let d = distribute(&Strategy::Spot, -1, 1, 0, 100, 99).unwrap();
    assert_eq!(d.bps_x, vec![0, 5000, 5000]);
    assert_eq!(d.amounts_x, vec![0, 50, 50]);
    assert_eq!(d.bps_y, vec![5000, 5000, 0]);
    assert_eq!(d.amounts_y, vec![49, 50, 0]);
}

#[test]
fn curve_and_bid_ask_weights() {
    let d = distribute(&Strategy::Curve, -2, 2, 0, 1000, 0).unwrap();
    assert_eq!(d.bps_x, vec![0, 0, 5000, 3333, 1667]);
    assert_eq!(d.amounts_x, vec![0, 0, 500, 333, 167]);
    assert_eq!(d.amounts_y, vec![0, 0, 0, 0, 0]);
    let d = distribute(&Strategy::BidAsk, -2, 2, 0, 0, 600).unwrap();
    assert_eq!(d.bps_y, vec![5000, 3333, 1667, 0, 0]);
    assert_eq!(d.amounts_y, vec![300, 199, 101, 0, 0]);
    let d = distribute(&Strategy::Weighted(vec![1, 0, 3]), 5, 7, 5, 40, 9).unwrap();
    assert_eq!(d.amounts_x, vec![10, 0, 30]);
    assert_eq!(d.amounts_y, vec![9, 0, 0]);
}

#[test]
fn distribution_is_exact_for_any_width() {
    for (lower, upper) in [(0, 0), (0, 63), (-64, 127)] {
        for st in [Strategy::Spot, Strategy::Curve, Strategy::BidAsk] {
            let active = (lower + upper) / 2;
            let d = distribute(&st, lower, upper, active, 1_000_003, 999_999_937).unwrap();
            assert_eq!(d.amounts_x.iter().sum::<u64>(), 1_000_003);
            assert_eq!(d.amounts_y.iter().sum::<u64>(), 999_999_937);
            assert_eq!(d.bps_x.iter().map(|b| *b as u64).sum::<u64>(), 10000);
            assert_eq!(d.bps_y.iter().map(|b| *b as u64).sum::<u64>(), 10000);
        }
    }
}

#[test]
fn distribution_errors() {
    assert!(matches!(distribute(&Strategy::Spot, 2, 1, 0, 1, 1), Err(LbError::OutOfRange)));
    assert!(matches!(distribute(&Strategy::Spot, 1, 3, 0, 0, 5), Err(LbError::OutOfRange)));
    assert!(matches!(distribute(&Strategy::Spot, -3, -1, 0, 5, 0), Err(LbError::OutOfRange)));
    assert!(matches!(
        distribute(&Strategy::Weighted(vec![1, 2]), 0, 2, 0, 1, 1),
        Err(LbError::OutOfRange)
    ));
    assert!(matches!(distribute(&Strategy::Spot, 0, 2000, 0, 1, 1), Err(LbError::OutOfRange)));
    let d = distribute(&Strategy::Spot, 1, 3, 0, 5, 0).unwrap();
    assert_eq!(d.bps_y, vec![0, 0, 0]);
    assert_eq!(d.amounts_y, vec![0, 0, 0]);
}

#[test]
fn bin_prices() {
    assert_eq!(price_of_bin(0, 10), Ok(ONE));
    assert_eq!(price_of_bin(1, 10), Ok(4299262263));
    assert_eq!(price_of_bin(2, 10), Ok(4303561524));
    assert_eq!(price_of_bin(-1, 10), Ok(4290676619));
    assert_eq!(price_of_bin(443637, 1), Err(LbError::OutOfRange));
    assert_eq!(price_of_bin(-443637, 1), Err(LbError::OutOfRange));
    assert_eq!(price_of_bin(100000, 100), Err(LbError::Overflow));
    assert!(price_of_bin(5, 25).unwrap() < price_of_bin(6, 25).unwrap());
}

#[test]
fn bin_deposit_withdraw_round_trip() {
    let mut b = Bin::empty();
    assert_eq!(b.deposit(100, 200, ONE), Ok(300));
    assert_eq!(b.withdraw(300), (100, 200));
    assert_eq!(b, Bin::empty());
    let mut b = Bin::empty();
    let p = price_of_bin(3, 10).unwrap();
    let m = b.deposit(12345, 678, p).unwrap();
    assert_eq!(b.withdraw(m), (12345, 678));
}

#[test]
fn bin_minting_is_proportional() {
    let mut b = Bin::empty();
    assert_eq!(b.deposit(0, 300, ONE), Ok(300));
    assert_eq!(b.deposit(0, 100, ONE), Ok(100));
    assert_eq!(b.deposit(0, 0, ONE), Err(LbError::ZeroLiquidity));
    assert_eq!(b.liquidity_supply, 400);
    assert_eq!(b.withdraw(100), (0, 100));
    assert_eq!(b.accrue_fee(1, 1), Ok(()));
    assert_eq!(Bin::empty().accrue_fee(1, 1), Err(LbError::ZeroLiquidity));
}

#[test]
fn fill_bin_partial_and_drain() {
    assert_eq!(fill_bin(300, ONE, 500, true), (300, 300));
    assert_eq!(fill_bin(300, ONE, 200, true), (200, 200));
    assert_eq!(fill_bin(0, ONE, 200, true), (0, 0));
    let p = price_of_bin(-1, 10).unwrap();
    assert_eq!(fill_bin(1000, p, 200, true), (200, 199));
    assert_eq!(fill_bin(1000, p, 5000, true), (1002, 1000));
}

fn pool(lower: i32, width: u32, active: i32, fee_bps: u16) -> LbPair {
    LbPair::new(10, active, params(fee_bps, 0), lower, width).unwrap()
}

#[test]
fn swap_crosses_one_bin_down_when_selling_x() {
    let mut p = pool(-2, 3, 0, 0);
    let mut pos = Position::open(-2, 3).unwrap();
    assert_eq!(p.add_liquidity(&mut pos, 0, 0, 300), Ok(300));
    assert_eq!(p.add_liquidity(&mut pos, -1, 0, 1000), Ok(1000));
    let r = p.swap_exact_in(500, true, 0, 0).unwrap();
    assert_eq!(r.amount_out, 499);
    assert_eq!(r.fee, 0);
    assert_eq!(p.active_id, -1);
    assert_eq!((p.bins[2].amount_x, p.bins[2].amount_y), (300, 0));
    assert_eq!((p.bins[1].amount_x, p.bins[1].amount_y), (200, 801));
    assert_eq!((p.reserve_x, p.reserve_y), (500, 801));
}

#[test]
fn swap_moves_up_when_selling_y() {
    let mut p = pool(0, 3, 0, 0);
    let mut pos = Position::open(0, 3).unwrap();
    p.add_liquidity(&mut pos, 0, 100, 0).unwrap();
    p.add_liquidity(&mut pos, 1, 100, 0).unwrap();
    let r = p.swap_exact_in(150, false, 0, 0).unwrap();
    assert_eq!(p.active_id, 1);
    assert_eq!(p.bins[0].amount_x, 0);
    assert_eq!(r.amount_out, 100 + p.bins[1].amount_x.abs_diff(100));
    assert_eq!(p.reserve_x, 200 - r.amount_out);
    assert_eq!(p.reserve_y, 150);
}

#[test]
fn swap_failures_change_nothing() {
    let mut p = pool(-1, 2, 0, 0);
    let mut pos = Position::open(-1, 2).unwrap();
    p.add_liquidity(&mut pos, 0, 0, 100).unwrap();
    assert_eq!(p.swap_exact_in(50, true, 51, 0), Err(LbError::SlippageExceeded));
    assert_eq!(p.swap_exact_in(500, true, 0, 0), Err(LbError::InsufficientBinArrays(-1)));
    assert_eq!((p.reserve_x, p.reserve_y, p.active_id), (0, 100, 0));
    assert_eq!(p.bins[1].amount_y, 100);
    p.status = PairStatus::Disabled;
    assert_eq!(p.swap_exact_in(50, true, 0, 0), Err(LbError::PoolDisabled));
}

#[test]
fn swap_fee_split_and_accrual() {
    let mut p = LbPair::new(10, 0, params(100, 2000), 0, 1).unwrap();
    let mut pos = Position::open(0, 1).unwrap();
    p.add_liquidity(&mut pos, 0, 0, 100000).unwrap();
    let r = p.swap_exact_in(10000, true, 0, 0).unwrap();
    assert_eq!((r.fee, r.protocol_fee, r.lp_fee), (100, 20, 80));
    assert_eq!(r.amount_out, 9900);
    assert_eq!(p.protocol_fee_x, 20);
    assert_eq!(p.reserve_x, 9900);
    assert_eq!(p.claim_fees(&mut pos, 0), Ok((79, 0)));
}

#[test]
fn fees_split_by_recorded_shares() {
    let mut p = LbPair::new(10, 0, params(1000, 0), 0, 1).unwrap();
    let mut a = Position::open(0, 1).unwrap();
    let mut b = Position::open(0, 1).unwrap();
    assert_eq!(p.add_liquidity(&mut a, 0, 0, 196608), Ok(196608));
    assert_eq!(p.add_liquidity(&mut b, 0, 0, 65536), Ok(65536));
    let r = p.swap_exact_in(40000, true, 0, 0).unwrap();
    assert_eq!((r.fee, r.lp_fee), (4000, 4000));
    assert_eq!(p.bins[0].fee_x_per_share, 65536000);
    assert_eq!(p.claim_fees(&mut a, 0), Ok((3000, 0)));
    assert_eq!(p.claim_fees(&mut b, 0), Ok((1000, 0)));
    assert_eq!(p.claim_fees(&mut a, 0), Ok((0, 0)));
}

#[test]
fn liquidity_errors() {
    let mut p = pool(0, 2, 0, 0);
    let mut pos = Position::open(0, 1).unwrap();
    assert_eq!(p.add_liquidity(&mut pos, 5, 1, 1), Err(LbError::BinArrayNotLoaded));
    assert_eq!(p.add_liquidity(&mut pos, 1, 1, 1), Err(LbError::OutOfRange));
    assert_eq!(p.add_liquidity(&mut pos, 0, 10, 10), Ok(20));
    assert_eq!(p.remove_liquidity(&mut pos, 0, 21), Err(LbError::InsufficientShares));
    assert_eq!(p.remove_liquidity(&mut pos, 0, 5), Ok((2, 2)));
    assert_eq!(pos.bins[0].share, 15);
    assert_eq!((p.reserve_x, p.reserve_y), (8, 8));
    assert_eq!(p.remove_liquidity(&mut pos, 0, 15), Ok((8, 8)));
    assert_eq!((p.reserve_x, p.reserve_y, p.bins[0].liquidity_supply), (0, 0, 0));
    assert!(Position::open(0, 0).is_err());
    assert!(LbPair::new(10, 5, params(0, 0), 0, 2).is_err());
}

#[test]
fn strategy_deposit_spreads_over_position() {
    let mut p = pool(-2, 5, 0, 0);
    let mut pos = Position::open(-2, 5).unwrap();
    let (d, minted) = p.add_liquidity_by_strategy(&mut pos, &Strategy::Spot, 300, 300).unwrap();
    assert_eq!(d.amounts_x, vec![0, 0, 99, 99, 102]);
    assert_eq!(d.amounts_y, vec![99, 99, 102, 0, 0]);
    assert_eq!((p.reserve_x, p.reserve_y), (300, 300));
    assert_eq!(minted[0], 99);
    assert_eq!(minted[2], 201);
    let total: u64 = pos.bins.iter().map(|b| b.share).sum();
    let supply: u64 = p.bins.iter().map(|b| b.liquidity_supply).sum();
    assert_eq!(total, supply);
}

#[test]
fn strategy_deposit_failure_changes_nothing() {
    let mut p = pool(-2, 5, 0, 0);
    let mut pos = Position::open(-2, 5).unwrap();
    assert_eq!(p.add_liquidity(&mut pos, 0, 0, 10), Ok(10));
    let r = p.add_liquidity_by_strategy(&mut pos, &Strategy::Spot, 0, u64::MAX);
    assert!(matches!(r, Err(LbError::Overflow)));
    assert_eq!((p.reserve_x, p.reserve_y), (0, 10));
    assert_eq!(p.bins[0], Bin::empty());
    assert_eq!(p.bins[1], Bin::empty());
    assert_eq!(p.bins[2].amount_y, 10);
    let shares: Vec<u64> = pos.bins.iter().map(|b| b.share).collect();
    assert_eq!(shares, vec![0, 0, 10, 0, 0]);
}

#[test]
fn bin_array_pages() {
    assert_eq!(bin_array_index(0), 0);
    assert_eq!(bin_array_index(63), 0);
    assert_eq!(bin_array_index(64), 1);
    assert_eq!(bin_array_index(-1), -1);
    assert_eq!(bin_array_index(-64), -1);
    assert_eq!(bin_array_index(-65), -2);
    assert_eq!(bin_array_bounds(-1), (-64, -1));
    assert_eq!(bin_array_bounds(2), (128, 191));
}

#[test]
fn bitmap_two_phase_pages() {
    let mut bm = BinArrayBitmap::new(1);
    assert_eq!(bm.has_array(0), Ok(true));
    assert_eq!(bm.has_array(-512), Ok(true));
    assert_eq!(bm.has_array(530), Ok(false));
    assert_eq!(bm.require_array(530), Err(LbError::BinArrayNotFound));
    assert_eq!(bm.set(530), Ok(()));
    assert_eq!(bm.has_array(530), Ok(true));
    assert_eq!(bm.has_array(531), Ok(false));
    assert_eq!(bm.require_array(530), Ok(()));
    assert_eq!(bm.set(-513), Ok(()));
    assert_eq!(bm.has_array(-513), Ok(true));
    assert_eq!(bm.has_array(-514), Ok(false));
    assert_eq!(bm.has_array(575), Ok(false));
    assert_eq!(bm.has_array(576), Err(LbError::OutOfRange));
    assert_eq!(bm.has_array(5000), Err(LbError::OutOfRange));
    assert_eq!(bm.set(-577), Err(LbError::OutOfRange));
}

#[test]
fn swap_exact_out_buys_exact_amount() {
    let mut p = pool(-2, 3, 0, 0);
    let mut pos = Position::open(-2, 3).unwrap();
    p.add_liquidity(&mut pos, 0, 0, 300).unwrap();
    p.add_liquidity(&mut pos, -1, 0, 1000).unwrap();
    assert_eq!(p.swap_exact_out(400, true, 400, 0), Err(LbError::SlippageExceeded));
    let r = p.swap_exact_out(400, true, 1000, 0).unwrap();
    assert_eq!((r.amount_in, r.amount_out, r.fee), (401, 400, 0));
    assert_eq!(p.active_id, -1);
    assert_eq!((p.reserve_x, p.reserve_y), (401, 900));
    assert_eq!((p.bins[1].amount_x, p.bins[1].amount_y), (101, 900));
    assert_eq!(p.swap_exact_out(5000, true, u64::MAX, 0), Err(LbError::InsufficientBinArrays(-1)));
}

#[test]
fn swap_exact_out_adds_fee_on_top() {
    let mut p = LbPair::new(10, 0, params(100, 5000), 0, 1).unwrap();
    let mut pos = Position::open(0, 1).unwrap();
    p.add_liquidity(&mut pos, 0, 0, 100000).unwrap();
    let r = p.swap_exact_out(9900, true, 10000, 0).unwrap();
    assert_eq!((r.amount_in, r.fee, r.protocol_fee, r.lp_fee), (10000, 100, 50, 50));
    assert_eq!(p.reserve_x, 9900);
    assert_eq!(p.protocol_fee_x, 50);
    assert_eq!(p.withdraw_protocol_fee(51, 0), Err(LbError::InsufficientFee));
    assert_eq!(p.withdraw_protocol_fee(50, 0), Ok(()));
    assert_eq!(p.protocol_fee_x, 0);
}

#[test]
fn remove_liquidity_by_range_takes_basis_points() {
    let mut p = pool(0, 3, 0, 0);
    let mut pos = Position::open(0, 3).unwrap();
    assert_eq!(p.add_liquidity(&mut pos, 0, 10, 10), Ok(20));
    assert_eq!(p.add_liquidity(&mut pos, 1, 40, 0), Ok(40));
    assert!(matches!(p.remove_liquidity_by_range(&mut pos, 0, 1, 10001), Err(LbError::OutOfRange)));
    assert!(matches!(p.remove_liquidity_by_range(&mut pos, 0, 3, 5000), Err(LbError::OutOfRange)));
    let (xs, ys) = p.remove_liquidity_by_range(&mut pos, 0, 1, 5000).unwrap();
    assert_eq!(xs, vec![5, 20]);
    assert_eq!(ys, vec![5, 0]);
    let shares: Vec<u64> = pos.bins.iter().map(|b| b.share).collect();
    assert_eq!(shares, vec![10, 20, 0]);
    assert_eq!((p.reserve_x, p.reserve_y), (25, 5));
}

#[test]
fn explicit_distribution_deposit() {
    let mut p = pool(-1, 3, 0, 0);
    let mut pos = Position::open(-1, 3).unwrap();
    let dist = vec![
        BinLiquidityDistribution { bin_id: -1, distribution_x: 0, distribution_y: 5000 },
        BinLiquidityDistribution { bin_id: 0, distribution_x: 5000, distribution_y: 5000 },
        BinLiquidityDistribution { bin_id: 1, distribution_x: 5000, distribution_y: 0 },
    ];
    let (xs, ys, minted) = p.add_liquidity_by_distribution(&mut pos, 101, 99, &dist).unwrap();
    assert_eq!(xs, vec![0, 50, 51]);
    assert_eq!(ys, vec![49, 50, 0]);
    assert_eq!(minted[1], 100);
    assert_eq!((p.reserve_x, p.reserve_y), (101, 99));
    let bad = vec![BinLiquidityDistribution { bin_id: 0, distribution_x: 9999, distribution_y: 0 }];
    assert!(matches!(
        p.add_liquidity_by_distribution(&mut pos, 1, 0, &bad),
        Err(LbError::OutOfRange)
    ));
    assert_eq!((p.reserve_x, p.reserve_y), (101, 99));
}

#[test]
fn rewards_forfeit_or_carry_without_liquidity() {
    let mut p = pool(0, 1, 0, 0);
    let mut pos = Position::open(0, 1).unwrap();
    assert_eq!(p.initialize_reward(0, 100, false), Ok(()));
    assert_eq!(p.initialize_reward(1, 100, true), Ok(()));
    assert_eq!(p.initialize_reward(1, 100, true), Err(LbError::OutOfRange));
    assert_eq!(p.initialize_reward(2, 100, true), Err(LbError::OutOfRange));
    assert_eq!(p.fund_reward(0, 1000, 0, false), Ok(()));
    assert_eq!(p.fund_reward(1, 1000, 0, true), Ok(()));
    assert_eq!((p.reward_0.reward_rate, p.reward_0.reward_duration_end), (10, 100));
    assert_eq!(p.update_reward(0, 10), Ok(()));
    assert_eq!(p.update_reward(1, 10), Ok(()));
    assert_eq!((p.reward_0.forfeited, p.reward_0.carried), (100, 0));
    assert_eq!((p.reward_1.forfeited, p.reward_1.carried), (0, 100));
    assert_eq!(p.add_liquidity(&mut pos, 0, 0, 1000), Ok(1000));
    assert_eq!(p.update_reward(0, 60), Ok(()));
    assert_eq!(p.bins[0].reward_0_per_share, 2147483648);
    assert_eq!(p.claim_reward(&mut pos, 0, 0), Ok(500));
    assert_eq!(p.claim_reward(&mut pos, 0, 0), Ok(0));
    assert_eq!(p.fund_reward(1, 0, 20, true), Ok(()));
    assert_eq!(p.reward_1.reward_rate, 9);
    assert_eq!((p.reward_1.carried, p.reward_1.reward_duration_end), (0, 120));
    assert_eq!(p.claim_reward(&mut pos, 0, 1), Ok(99));
    assert_eq!(p.claim_reward(&mut pos, 0, 2), Err(LbError::OutOfRange));
}

#[test]
fn price_impact_bound_gives_partial_fill() {
    let mut p = pool(-2, 3, 0, 0);
    let mut pos = Position::open(-2, 3).unwrap();
    p.add_liquidity(&mut pos, 0, 0, 300).unwrap();
    p.add_liquidity(&mut pos, -1, 0, 1000).unwrap();
    assert!(matches!(p.swap_with_price_impact(500, true, 1, 0), Err(LbError::OutOfRange)));
    assert!(matches!(p.swap_with_price_impact(500, true, 7, 0), Err(LbError::OutOfRange)));
    let (r, fill) = p.swap_with_price_impact(500, true, 0, 0).unwrap();
    assert_eq!(fill, Fill::Partial);
    assert_eq!((r.amount_in, r.amount_out), (300, 300));
    assert_eq!(p.active_id, 0);
    assert_eq!((p.reserve_x, p.reserve_y), (300, 1000));
    let (r, fill) = p.swap_with_price_impact(200, true, -1, 0).unwrap();
    assert_eq!(fill, Fill::Full);
    assert_eq!((r.amount_in, r.amount_out), (200, 199));
    assert_eq!(p.active_id, -1);
}

#[test]
fn bin_record_round_trip() {
    let mut b = Bin::empty();
    b.deposit(0x0102030405060708, 77, ONE).unwrap();
    b.accrue_fee(5, 9).unwrap();
    b.accrue_reward_share(1, u128::MAX - 3).unwrap();
    let bytes = b.to_bytes();
    assert_eq!(bytes.len(), 88);
    assert_eq!(&bytes[0..8], &[8, 7, 6, 5, 4, 3, 2, 1]);
    assert_eq!(&bytes[8..16], &[77, 0, 0, 0, 0, 0, 0, 0]);
    assert_eq!(Bin::from_bytes(&bytes), Ok(b));
    assert_eq!(Bin::from_bytes(&bytes[1..].to_vec()), Err(LbError::OutOfRange));
}

#[test]
fn pool_rejects_bad_bin_step() {
    assert!(matches!(LbPair::new(0, 0, params(0, 0), 0, 1), Err(LbError::OutOfRange)));
    assert!(matches!(LbPair::new(10001, 0, params(0, 0), 0, 1), Err(LbError::OutOfRange)));
    assert!(LbPair::new(10000, 0, params(0, 0), 0, 1).is_ok());
}

#[test]
fn precise_deposit_and_remove_all_round_trip() {
    let mut p = pool(-1, 3, 0, 0);
    let mut pos = Position::open(-1, 3).unwrap();
    assert!(matches!(
        p.add_liquidity_precise(&mut pos, &vec![0, 0], &vec![1, 1], &vec![1, 1]),
        Err(LbError::OutOfRange)
    ));
    let minted = p
        .add_liquidity_precise(&mut pos, &vec![-1, 0, 1], &vec![0, 7, 9], &vec![5, 3, 0])
        .unwrap();
    assert_eq!(minted, vec![5, 10, 9]);
    assert_eq!((p.reserve_x, p.reserve_y), (16, 8));
    let (xs, ys) = p.remove_all_liquidity(&mut pos).unwrap();
    assert_eq!(xs, vec![0, 7, 9]);
    assert_eq!(ys, vec![5, 3, 0]);
    assert_eq!((p.reserve_x, p.reserve_y), (0, 0));
    assert!(pos.bins.iter().all(|b| b.share == 0));
    assert!(p.bins.iter().all(|b| b.liquidity_supply == 0));
}

#[test]
fn pages_load_only_once_recorded() {
    let mut p = pool(32704, 64, 32704, 0);
    let mut bm = BinArrayBitmap::new(1);
    assert_eq!(p.load_bin_array(&bm, 512), Err(LbError::BinArrayNotFound));
    assert_eq!(bm.set(512), Ok(()));
    assert_eq!(p.load_bin_array(&bm, 512), Ok(()));
    assert_eq!(p.bins.len(), 128);
    assert_eq!(p.load_bin_array(&bm, 510), Ok(()));
    assert_eq!((p.lower_bin_id, p.bins.len()), (32640, 192));
    assert_eq!(p.load_bin_array(&bm, 100), Err(LbError::OutOfRange));
}

#[test]
fn price_impact_bound_from_basis_points() {
    let p = pool(-5, 11, 0, 0);
    assert_eq!(p.price_impact_bound(25, true), Ok(-2));
    assert_eq!(p.price_impact_bound(25, false), Ok(2));
    assert_eq!(p.price_impact_bound(0, true), Ok(0));
    assert_eq!(p.price_impact_bound(10000, true), Ok(-5));
    assert_eq!(p.price_impact_bound(10001, true), Err(LbError::OutOfRange));
}

#[test]
fn claim_all_fees_over_position() {
    let mut p = LbPair::new(10, 0, params(1000, 0), 0, 1).unwrap();
    let mut a = Position::open(0, 1).unwrap();
    let mut b = Position::open(0, 1).unwrap();
    p.add_liquidity(&mut a, 0, 0, 196608).unwrap();
    p.add_liquidity(&mut b, 0, 0, 65536).unwrap();
    p.swap_exact_in(40000, true, 0, 0).unwrap();
    assert_eq!(p.claim_all_fees(&mut a), Ok((3000, 0)));
    assert_eq!(p.claim_all_fees(&mut b), Ok((1000, 0)));
    assert_eq!(p.claim_all_fees(&mut a), Ok((0, 0)));
    let mut far = Position::open(5, 1).unwrap();
    assert_eq!(p.claim_all_fees(&mut far), Err(LbError::BinArrayNotLoaded));
}

#[test]
fn swap_fee_shared_by_absorbed_input() {
    let mut p = LbPair::new(10, 0, params(1000, 0), -2, 3).unwrap();
    let mut pos = Position::open(-2, 3).unwrap();
    p.add_liquidity(&mut pos, 0, 0, 300).unwrap();
    p.add_liquidity(&mut pos, -1, 0, 1000).unwrap();
    let r = p.swap_exact_in(500, true, 0, 0).unwrap();
    assert_eq!((r.fee, r.protocol_fee, r.lp_fee), (50, 0, 50));
    assert_eq!(p.active_id, -1);
    assert_eq!((p.bins[2].amount_x, p.bins[1].amount_x), (300, 150));
    assert_eq!(p.bins[2].fee_x_per_share, 486762960);
    assert_eq!(p.bins[1].fee_x_per_share, 68719476);
    assert_eq!(p.bins[0].fee_x_per_share, 0);
    assert_eq!(p.claim_all_fees(&mut pos), Ok((48, 0)));
}

#[test]
fn weights_overflow_and_price_lookup() {
    assert_eq!(bps_from_weights(&vec![u64::MAX, 1]), Err(LbError::Overflow));
    assert_eq!(bps_from_weights(&vec![u64::MAX, 0]), Ok(vec![10000, 0]));
    assert_eq!(bin_id_for_price(ONE, 10, -1000, 1000), Ok(0));
    assert_eq!(bin_id_for_price(4299262263, 10, -1000, 1000), Ok(1));
    assert_eq!(bin_id_for_price(ONE - 1, 10, -1000, 1000), Ok(-1));
    assert_eq!(bin_id_for_price(ONE * 10, 10, -1000, 5), Ok(5));
    assert_eq!(bin_id_for_price(0, 10, -1000, 1000), Err(LbError::OutOfRange));
    assert_eq!(bin_id_for_price(ONE, 10, 3, 2), Err(LbError::OutOfRange));
}

#[test]
fn position_closes_only_when_empty() {
    let mut p = pool(0, 1, 0, 0);
    let mut pos = Position::open(0, 1).unwrap();
    assert!(pos.can_close());
    p.add_liquidity(&mut pos, 0, 0, 100).unwrap();
    assert!(!pos.can_close());
    p.remove_all_liquidity(&mut pos).unwrap();
    assert!(pos.can_close());
}

#[test]
fn fee_claim_leaves_reward_state() {
    let mut p = pool(0, 1, 0, 0);
    let mut pos = Position::open(0, 1).unwrap();
    p.add_liquidity(&mut pos, 0, 0, 1000).unwrap();
    p.initialize_reward(0, 100, true).unwrap();
    p.fund_reward(0, 1000, 0, true).unwrap();
    p.update_reward(0, 50).unwrap();
    assert_eq!(p.claim_fees(&mut pos, 0), Ok((0, 0)));
    assert_eq!((pos.bins[0].reward_0_snapshot, pos.bins[0].reward_0_pending), (0, 0));
    assert_eq!(p.claim_reward(&mut pos, 0, 0), Ok(500));
}

#[test]
fn swap_rate_uses_decayed_volatility() {
    let mut f = params(10, 0);
    f.variable_fee_control = 40000;
    let mut p = LbPair::new(10, 0, f, -1, 2).unwrap();
    let mut pos = Position::open(-1, 2).unwrap();
    p.add_liquidity(&mut pos, 0, 0, 1_000_000).unwrap();
    p.volatility.volatility_reference = 10000;
    p.volatility.last_update = 0;
    let r = p.swap_exact_in(100_000, true, 0, 10).unwrap();
    assert_eq!(r.fee, 100_000 * 4010 / 10000);
    p.volatility.volatility_reference = 10000;
    p.volatility.last_update = 0;
    let r = p.swap_exact_in(100_000, true, 0, 1000).unwrap();
    assert_eq!(r.fee, 100_000 * 10 / 10000);
}

#[test]
fn stake_record_round_trip() {
    let mut s = PositionBin::empty();
    s.share = 0x0102030405060708;
    s.fee_y_snapshot = u128::MAX - 5;
    s.reward_1_pending = 9;
    let bytes = s.to_bytes();
    assert_eq!(bytes.len(), 104);
    assert_eq!(&bytes[0..8], &[8, 7, 6, 5, 4, 3, 2, 1]);
    assert_eq!(bytes[96], 9);
    assert_eq!(PositionBin::from_bytes(&bytes), Ok(s));
    assert_eq!(PositionBin::from_bytes(&bytes[..100].to_vec()), Err(LbError::OutOfRange));
}
