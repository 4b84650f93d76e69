//! Checked fixed-point arithmetic with explicit rounding.

use vstd::prelude::*;

verus! {

/// Denominator of every basis-point quantity.
pub const BASIS_POINT_MAX: u64 = 10000;

/// Number of fractional bits of a Q32.32 price.
pub const SCALE_OFFSET: u64 = 32;

/// The Q32.32 representation of 1.
pub const ONE: u64 = 0x1_0000_0000;

/// The failures of the engine.
#[derive(Debug, Clone, Copy, PartialEq, Eq, Structural)]
pub enum LbError {
    Overflow,
    DivideByZero,
    OutOfRange,
    BinArrayNotLoaded,
    BinArrayNotFound,
    InsufficientShares,
    /// The walk needed the bin-array page given, which is not loaded.
    InsufficientBinArrays(i64),
    SlippageExceeded,
    PoolDisabled,
    ZeroLiquidity,
    InsufficientFee,
}

/// `2^128`, the modulus of wrapping accumulators.
pub open spec fn wrap_modulus() -> int {
    u128::MAX as int + 1
}

/// `x` reduced modulo `2^128`.
pub open spec fn wrap128(x: int) -> int {
    x % wrap_modulus()
}

/// `a + b` modulo `2^128`.
pub fn wrapping_add_u128(a: u128, b: u128) -> (r: u128)
    ensures
        r == wrap128(a + b),
{
    if a > u128::MAX - b {
        let r = b - (u128::MAX - a) - 1;
        assert((a + b) % wrap_modulus() == a + b - wrap_modulus()) by (nonlinear_arith)
            requires
                a + b >= wrap_modulus(),
                a + b < 2 * wrap_modulus(),
        ;
        r
    } else {
        assert((a + b) % wrap_modulus() == a + b) by (nonlinear_arith)
            requires
                0 <= a + b < wrap_modulus(),
        ;
        a + b
    }
}

/// `a - b` modulo `2^128`.
pub fn wrapping_sub_u128(a: u128, b: u128) -> (r: u128)
    ensures
        r == wrap128(a - b),
{
    if a >= b {
        assert((a - b) % wrap_modulus() == a - b) by (nonlinear_arith)
            requires
                0 <= a - b < wrap_modulus(),
        ;
        a - b
    } else {
        let r = u128::MAX - (b - a) + 1;
        assert((a - b) % wrap_modulus() == a - b + wrap_modulus()) by (nonlinear_arith)
            requires
                -wrap_modulus() < a - b < 0,
        ;
        r
    }
}

/// Distance between two bin ids.
pub open spec fn bin_distance(a: int, b: int) -> int {
    if a >= b {
        a - b
    } else {
        b - a
    }
}

/// Direction in which a division rounds.
#[derive(Debug, Clone, Copy, PartialEq, Eq, Structural)]
pub enum Rounding {
    Up,
    Down,
}

/// Quotient of `n / d`, rounded as asked (`d > 0`).
pub open spec fn div_round(n: int, d: int, rounding: Rounding) -> int {
    match rounding {
        Rounding::Down => n / d,
        Rounding::Up => (n + d - 1) / d,
    }
}

/// `a * b / d` over the integers, rounded as asked.
pub open spec fn mul_div_spec(a: int, b: int, d: int, rounding: Rounding) -> int {
    div_round(a * b, d, rounding)
}

/// `a * b / d` in one widened step: fails on a zero divisor or when the
/// quotient does not fit in `u64`.
pub fn mul_div(a: u64, b: u64, d: u64, rounding: Rounding) -> (r: Result<u64, LbError>)
    ensures
        d == 0 ==> r == Err::<u64, LbError>(LbError::DivideByZero),
        d > 0 && mul_div_spec(a as int, b as int, d as int, rounding) <= u64::MAX ==> r == Ok::<
            u64,
            LbError,
        >(mul_div_spec(a as int, b as int, d as int, rounding) as u64),
        d > 0 && mul_div_spec(a as int, b as int, d as int, rounding) > u64::MAX ==> r == Err::<
            u64,
            LbError,
        >(LbError::Overflow),
{
    if d == 0 {
        return Err(LbError::DivideByZero);
    }
    let r = mul_div_u128(a as u128, b as u128, d as u128, rounding);
    if r > u64::MAX as u128 {
        Err(LbError::Overflow)
    } else {
        Ok(r as u64)
    }
}

/// `a * b / d` for factors below 2^64, in `u128` (`d > 0`).
pub fn mul_div_u128(a: u128, b: u128, d: u128, rounding: Rounding) -> (r: u128)
    requires
        a <= u64::MAX,
        b <= u64::MAX,
        d > 0,
        d <= u64::MAX,
    ensures
        r == mul_div_spec(a as int, b as int, d as int, rounding),
{
    assert(a * b <= u64::MAX * u64::MAX) by (nonlinear_arith)
        requires
            a <= u64::MAX,
            b <= u64::MAX,
    ;
    let p = a * b;
    match rounding {
        Rounding::Down => p / d,
        Rounding::Up => (p + (d - 1)) / d,
    }
}

/// `floor(amount * bps / 10000)` for a basis-point rate of at most 10000;
/// never more than `amount`.
pub fn bps_of(amount: u64, bps: u64) -> (r: u64)
    requires
        bps <= BASIS_POINT_MAX,
    ensures
        r as int == amount as int * bps as int / BASIS_POINT_MAX as int,
        r <= amount,
{
    assert(amount as int * bps as int / 10000 <= amount) by (nonlinear_arith)
        requires
            bps <= 10000,
    ;
    let r = mul_div_u128(amount as u128, bps as u128, BASIS_POINT_MAX as u128, Rounding::Down);
    r as u64
}

} // verus!
