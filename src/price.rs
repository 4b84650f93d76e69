//! Bin prices: `price(id) = (1 + bin_step / 10000) ^ id` in Q32.32, by
//! repeated squaring with every product rounded down.

use vstd::prelude::*;
use crate::math::{BASIS_POINT_MAX, ONE, LbError};

verus! {

/// Largest bin id magnitude accepted.
pub const MAX_BIN_ID: i32 = 443636;

/// Q32.32 product rounded down.
pub open spec fn fx_mul(a: int, b: int) -> int {
    a * b / ONE as int
}

/// Q32.32 growth factor of one bin step.
pub open spec fn base_spec(bin_step: int) -> int {
    ONE + bin_step * ONE / BASIS_POINT_MAX as int
}

/// `acc * base ^ e` by repeated squaring over the bits of `e`, lowest
/// first; `None` where a product leaves `u64`.
pub open spec fn pow_steps(acc: int, base: int, e: nat) -> Option<int>
    decreases e,
{
    if e == 0 {
        Some(acc)
    } else {
        let acc2 = if e % 2 == 1 {
            fx_mul(acc, base)
        } else {
            acc
        };
        if acc2 > u64::MAX {
            None
        } else if e / 2 == 0 {
            Some(acc2)
        } else {
            let b2 = fx_mul(base, base);
            if b2 > u64::MAX {
                None
            } else {
                pow_steps(acc2, b2, e / 2)
            }
        }
    }
}

/// Q32.32 price of bin `id`: the power for `id >= 0`, else `2^64` divided
/// by the power of `-id` (rounded down).
pub open spec fn price_spec(id: int, bin_step: int) -> Option<int> {
    if id >= 0 {
        pow_steps(ONE as int, base_spec(bin_step), id as nat)
    } else {
        match pow_steps(ONE as int, base_spec(bin_step), (-id) as nat) {
            Some(p) => if p > 0 {
                Some(ONE as int * ONE as int / p)
            } else {
                None
            },
            None => None,
        }
    }
}

/// Q32.32 price of bin `id`. Fails `OutOfRange` beyond `MAX_BIN_ID`, and
/// `Overflow` where the price leaves the representable range.
pub fn price_of_bin(id: i32, bin_step: u16) -> (r: Result<u64, LbError>)
    ensures
        (id > MAX_BIN_ID || id < -MAX_BIN_ID) ==> r == Err::<u64, LbError>(LbError::OutOfRange),
        -MAX_BIN_ID <= id <= MAX_BIN_ID ==> match price_spec(id as int, bin_step as int) {
            Some(p) => r == Ok::<u64, LbError>(p as u64) && 0 <= p <= u64::MAX,
            None => r == Err::<u64, LbError>(LbError::Overflow),
        },
{
    if id > MAX_BIN_ID || id < -MAX_BIN_ID {
        return Err(LbError::OutOfRange);
    }
    let base: u64 = ONE + (bin_step as u64 * ONE / BASIS_POINT_MAX);
    let ghost e0: nat = if id >= 0 { id as nat } else { (-id) as nat };
    let mut e: u32 = if id >= 0 { id as u32 } else { (-id) as u32 };
    let mut acc: u64 = ONE;
    let mut b: u64 = base;
    let mut failed = false;
    while e > 0
        invariant
            !failed ==> pow_steps(ONE as int, base as int, e0) == pow_steps(
                acc as int,
                b as int,
                e as nat,
            ),
            failed ==> pow_steps(ONE as int, base as int, e0) is None,
            failed ==> e == 0,
            acc >= ONE,
            b >= ONE,
        decreases e,
    {
        let acc2: u128 = if e % 2 == 1 {
            assert(acc as int * b as int <= u64::MAX as int * u64::MAX as int) by (nonlinear_arith)
                requires acc <= u64::MAX, b <= u64::MAX;
            assert(acc as int * b as int / ONE as int >= ONE) by (nonlinear_arith)
                requires acc >= ONE, b >= ONE;
            acc as u128 * b as u128 / ONE as u128
        } else {
            acc as u128
        };
        if acc2 > u64::MAX as u128 {
            failed = true;
            e = 0;
        } else if e / 2 == 0 {
            acc = acc2 as u64;
            e = 0;
        } else {
            assert(b as int * b as int <= u64::MAX as int * u64::MAX as int) by (nonlinear_arith)
                requires b <= u64::MAX;
            assert(b as int * b as int / ONE as int >= ONE) by (nonlinear_arith)
                requires b >= ONE;
            let b2: u128 = b as u128 * b as u128 / ONE as u128;
            if b2 > u64::MAX as u128 {
                failed = true;
                e = 0;
            } else {
                acc = acc2 as u64;
                b = b2 as u64;
                e = e / 2;
            }
        }
    }
    if failed {
        return Err(LbError::Overflow);
    }
    if id >= 0 {
        Ok(acc)
    } else {
        let q: u128 = (ONE as u128 * ONE as u128) / acc as u128;
        assert(q <= u64::MAX) by (nonlinear_arith)
            requires q == (ONE as int * ONE as int) / acc as int, acc >= ONE;
        Ok(q as u64)
    }
}

/// `price` lies in the range of bin `id` as far as `hi`: at or above its
/// price, and below the next bin's price (or no next price is
/// representable) unless `id` is `hi`.
pub open spec fn in_bin_range(id: int, bin_step: int, price: int, hi: int) -> bool {
    &&& price_spec(id, bin_step) is Some
    &&& price_spec(id, bin_step)->0 <= price
    &&& id == hi || price_spec(id + 1, bin_step) is None || price_spec(id + 1, bin_step)->0
        > price
}

/// A bin in `[lo, hi]` whose price range holds `price`, found by
/// bisection. Fails `OutOfRange` when the span is empty or beyond the bin
/// id bounds, or `price` lies below the price of `lo` (or that price is not
/// representable).
pub fn bin_id_for_price(price: u64, bin_step: u16, lo: i32, hi: i32) -> (r: Result<i32, LbError>)
    ensures
        r matches Ok(id) ==> lo <= id <= hi && in_bin_range(
            id as int,
            bin_step as int,
            price as int,
            hi as int,
        ),
        r is Err ==> r == Err::<i32, LbError>(LbError::OutOfRange),
        r is Err <==> !(-MAX_BIN_ID <= lo <= hi <= MAX_BIN_ID && price_spec(lo as int, bin_step as int)
            is Some && price_spec(lo as int, bin_step as int)->0 <= price),
{
    if lo < -MAX_BIN_ID || lo > hi || hi > MAX_BIN_ID {
        return Err(LbError::OutOfRange);
    }
    match price_of_bin(lo, bin_step) {
        Ok(p) => {
            if p > price {
                return Err(LbError::OutOfRange);
            }
        },
        Err(_) => {
            return Err(LbError::OutOfRange);
        },
    }
    let top_ok = match price_of_bin(hi, bin_step) {
        Ok(p) => p <= price,
        Err(_) => false,
    };
    if top_ok {
        return Ok(hi);
    }
    let mut a: i32 = lo;
    let mut b: i32 = hi;
    while b - a > 1
        invariant
            lo <= a < b <= hi,
            -MAX_BIN_ID <= lo,
            hi <= MAX_BIN_ID,
            price_spec(a as int, bin_step as int) is Some,
            price_spec(a as int, bin_step as int)->0 <= price,
            price_spec(b as int, bin_step as int) is None || price_spec(
                b as int,
                bin_step as int,
            )->0 > price,
        decreases b - a,
    {
        let mid: i32 = a + (b - a) / 2;
        let below = match price_of_bin(mid, bin_step) {
            Ok(p) => p <= price,
            Err(_) => false,
        };
        if below {
            a = mid;
        } else {
            b = mid;
        }
    }
    Ok(a)
}

} // verus!
