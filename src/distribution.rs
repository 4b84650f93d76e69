//! Liquidity distribution: strategy weights over a bin range, their
//! conversion to basis points per side, and from basis points to exact
//! per-bin amounts whose sum is the requested total.

use vstd::prelude::*;
use crate::math::{bin_distance, mul_div_u128, Rounding, BASIS_POINT_MAX, LbError};

verus! {

/// Widest bin range a single distribution may cover.
pub const MAX_DISTRIBUTION_WIDTH: u64 = 1024;

/// Sum of a sequence of basis-point values.
pub open spec fn sum_u16(s: Seq<u16>) -> int
    decreases s.len(),
{
    if s.len() == 0 {
        0
    } else {
        sum_u16(s.drop_last()) + s.last() as int
    }
}

/// Sum of a sequence of amounts or weights.
pub open spec fn sum_u64(s: Seq<u64>) -> int
    decreases s.len(),
{
    if s.len() == 0 {
        0
    } else {
        sum_u64(s.drop_last()) + s.last() as int
    }
}

/// `k` is the last index of `s` holding a positive value: the entry that
/// absorbs rounding dust.
pub open spec fn is_last_positive_u64(s: Seq<u64>, k: int) -> bool {
    &&& 0 <= k < s.len()
    &&& s[k] > 0
    &&& forall|j: int| k < j < s.len() ==> s[j] == 0
}

/// `v` splits `total` in proportion to `parts` (which sum to `whole`): each
/// entry is `floor(total * part / whole)` but the last one with a positive
/// part, which holds at least that, and the entries sum to `total`.
pub open spec fn proportional(v: Seq<u64>, total: int, parts: Seq<u64>, whole: int) -> bool {
    &&& v.len() == parts.len()
    &&& sum_u64(v) == total
    &&& forall|k: int|
        is_last_positive_u64(parts, k) ==> forall|i: int|
            0 <= i < parts.len() && i != k ==> v[i] as int == total * parts[i] as int / whole
    &&& forall|i: int| 0 <= i < parts.len() ==> v[i] as int >= total * parts[i] as int / whole
}

pub proof fn lemma_last_positive_exists(s: Seq<u64>)
    requires
        sum_u64(s) > 0,
    ensures
        exists|k: int| is_last_positive_u64(s, k),
    decreases s.len(),
{
    if s.last() > 0 {
        assert(is_last_positive_u64(s, s.len() - 1));
    } else {
        lemma_last_positive_exists(s.drop_last());
        let k = choose|k: int| is_last_positive_u64(s.drop_last(), k);
        assert forall|j: int| k < j < s.len() implies s[j] == 0 by {
            if j < s.len() - 1 {
                assert(s.drop_last()[j] == s[j]);
            }
        }
        assert(s.drop_last()[k] == s[k]);
        assert(is_last_positive_u64(s, k));
    }
}

/// Under a proportional split, an entry with a zero part gets nothing.
pub proof fn lemma_proportional_zero(v: Seq<u64>, total: int, parts: Seq<u64>, whole: int, i: int)
    requires
        proportional(v, total, parts, whole),
        sum_u64(parts) > 0,
        whole > 0,
        0 <= i < parts.len(),
        parts[i] == 0,
    ensures
        v[i] == 0,
{
    lemma_last_positive_exists(parts);
    let k = choose|k: int| is_last_positive_u64(parts, k);
    assert(i != k);
    assert(total * 0 / whole == 0);
}

pub proof fn lemma_sum_u16_take_le(s: Seq<u16>, i: int)
    requires
        0 <= i <= s.len(),
    ensures
        sum_u16(s.take(i)) <= sum_u16(s),
    decreases s.len(),
{
    if i < s.len() {
        assert(s.drop_last().take(i) =~= s.take(i));
        lemma_sum_u16_take_le(s.drop_last(), i);
    } else {
        assert(s.take(i) =~= s);
    }
}

pub proof fn lemma_sum_u64_elem_le(s: Seq<u64>, k: int)
    requires
        0 <= k < s.len(),
    ensures
        s[k] <= sum_u64(s),
    decreases s.len(),
{
    if k < s.len() - 1 {
        lemma_sum_u64_elem_le(s.drop_last(), k);
        assert(s.drop_last()[k] == s[k]);
    } else {
        lemma_sum_u64_nonneg(s.drop_last());
    }
}

pub proof fn lemma_sum_u64_nonneg(s: Seq<u64>)
    ensures
        sum_u64(s) >= 0,
    decreases s.len(),
{
    if s.len() > 0 {
        lemma_sum_u64_nonneg(s.drop_last());
    }
}

pub proof fn lemma_sum_u64_bound(s: Seq<u64>, m: int)
    requires
        forall|i: int| 0 <= i < s.len() ==> s[i] <= m,
    ensures
        sum_u64(s) <= s.len() * m,
    decreases s.len(),
{
    if s.len() > 0 {
        lemma_sum_u64_bound(s.drop_last(), m);
        assert(sum_u64(s.drop_last()) + s.last() <= (s.len() - 1) * m + m);
        assert((s.len() - 1) * m + m == s.len() * m) by (nonlinear_arith);
    }
}

pub proof fn lemma_sum_u64_update(s: Seq<u64>, k: int, v: u64)
    requires
        0 <= k < s.len(),
    ensures
        sum_u64(s.update(k, v)) == sum_u64(s) - s[k] + v,
    decreases s.len(),
{
    if k < s.len() - 1 {
        assert(s.update(k, v).drop_last() =~= s.drop_last().update(k, v));
        lemma_sum_u64_update(s.drop_last(), k, v);
    } else {
        assert(s.update(k, v).drop_last() =~= s.drop_last());
    }
}

/// Widens basis points to `u64` values.
pub open spec fn widen(s: Seq<u16>) -> Seq<u64> {
    s.map_values(|b: u16| b as u64)
}

pub proof fn lemma_sum_widen(s: Seq<u16>)
    ensures
        sum_u64(widen(s)) == sum_u16(s),
    decreases s.len(),
{
    if s.len() > 0 {
        assert(widen(s).drop_last() =~= widen(s.drop_last()));
        lemma_sum_widen(s.drop_last());
    }
}

pub proof fn lemma_sum_u64_zero(s: Seq<u64>)
    requires
        forall|j: int| 0 <= j < s.len() ==> s[j] == 0,
    ensures
        sum_u64(s) == 0,
    decreases s.len(),
{
    if s.len() > 0 {
        lemma_sum_u64_zero(s.drop_last());
    }
}

pub proof fn lemma_sum_u64_take_le(s: Seq<u64>, i: int)
    requires
        0 <= i <= s.len(),
    ensures
        sum_u64(s.take(i)) <= sum_u64(s),
    decreases s.len(),
{
    if i < s.len() {
        assert(s.drop_last().take(i) =~= s.take(i));
        lemma_sum_u64_take_le(s.drop_last(), i);
    } else {
        assert(s.take(i) =~= s);
    }
}

/// Splits `total` in proportion to `parts` (which sum to `whole`): each
/// entry gets `floor(total * part / whole)`, and the last entry with a
/// positive part also takes the rounding dust, so the result sums to `total`
/// exactly.
pub fn split_proportionally(total: u64, parts: &Vec<u64>, whole: u64) -> (v: Vec<u64>)
    requires
        whole > 0,
        sum_u64(parts@) == whole,
    ensures
        proportional(v@, total as int, parts@, whole as int),
{
    let n = parts.len();
    let mut v: Vec<u64> = Vec::new();
    let mut acc: u64 = 0;
    let mut k: usize = 0;
    let mut found = false;
    let mut i: usize = 0;
    while i < n
        invariant
            n == parts@.len(),
            0 <= i <= n,
            v@.len() == i,
            acc == sum_u64(v@),
            acc as int * whole as int <= total as int * sum_u64(parts@.take(i as int)),
            sum_u64(parts@) == whole,
            whole > 0,
            forall|j: int|
                0 <= j < i ==> v@[j] as int == total as int * parts@[j] as int / whole as int,
            found ==> k < i && parts@[k as int] > 0 && forall|j: int|
                k < j < i ==> parts@[j] == 0,
            !found ==> forall|j: int| 0 <= j < i ==> parts@[j] == 0,
        decreases n - i,
    {
        assert(parts@.take(i + 1).drop_last() =~= parts@.take(i as int));
        let p = parts[i];
        proof {
            lemma_sum_u64_take_le(parts@, i + 1);
            lemma_sum_u64_nonneg(parts@.take(i as int));
            assert(parts@.take(i + 1).last() == p);
        }
        let a128 = mul_div_u128(total as u128, p as u128, whole as u128, Rounding::Down);
        proof {
            let b = p as int;
            let t = total as int;
            let w = whole as int;
            let sp = sum_u64(parts@.take(i as int));
            assert(a128 as int * w <= t * b) by (nonlinear_arith)
                requires
                    a128 as int == t * b / w,
                    w > 0,
            ;
            assert((acc as int + a128 as int) * w <= t * (sp + b)) by (nonlinear_arith)
                requires
                    acc as int * w <= t * sp,
                    a128 as int * w <= t * b,
            ;
            assert(t * (sp + b) <= t * w) by (nonlinear_arith)
                requires
                    sp + b <= w,
                    t >= 0,
            ;
            assert(acc as int + a128 as int <= t) by (nonlinear_arith)
                requires
                    (acc as int + a128 as int) * w <= t * w,
                    w > 0,
            ;
        }
        let a = a128 as u64;
        let ghost old_v = v@;
        v.push(a);
        assert(v@.drop_last() =~= old_v);
        acc = acc + a;
        if p > 0 {
            k = i;
            found = true;
        }
        i = i + 1;
    }
    assert(parts@.take(n as int) =~= parts@);
    if !found {
        proof {
            lemma_sum_u64_zero(parts@);
        }
    }
    assert(acc <= total) by (nonlinear_arith)
        requires
            acc as int * whole as int <= total as int * whole as int,
            whole > 0,
    ;
    proof {
        lemma_sum_u64_elem_le(v@, k as int);
    }
    let last = v[k] + (total - acc);
    proof {
        lemma_sum_u64_update(v@, k as int, last);
        assert forall|kk: int| is_last_positive_u64(parts@, kk) implies kk == k by {
            if kk < k {
                assert(parts@[k as int] == 0);
            }
            if kk > k {
                assert(parts@[kk] == 0);
            }
        }
    }
    v.set(k, last);
    v
}

/// Per-bin amounts of `total` under the basis points `bps` (which must sum
/// to exactly 10000): each bin gets `floor(total * bps / 10000)`, and the
/// last bin with a positive share also takes the rounding dust, so the
/// amounts sum to `total` exactly. Fails `OutOfRange` on an empty list or
/// on basis points that do not sum to 10000.
pub fn amounts_from_bps(total: u64, bps: &Vec<u16>) -> (r: Result<Vec<u64>, LbError>)
    ensures
        r is Err <==> (bps@.len() == 0 || sum_u16(bps@) != BASIS_POINT_MAX),
        r is Err ==> r == Err::<Vec<u64>, LbError>(LbError::OutOfRange),
        r matches Ok(v) ==> proportional(v@, total as int, widen(bps@), BASIS_POINT_MAX as int),
{
    let n = bps.len();
    let mut s: u64 = 0;
    let mut parts: Vec<u64> = Vec::new();
    let mut i: usize = 0;
    while i < n
        invariant
            n == bps@.len(),
            0 <= i <= n,
            s == sum_u16(bps@.take(i as int)),
            s <= BASIS_POINT_MAX,
            parts@ == widen(bps@.take(i as int)),
        decreases n - i,
    {
        assert(bps@.take(i + 1).drop_last() =~= bps@.take(i as int));
        let b = bps[i];
        if s + b as u64 > BASIS_POINT_MAX {
            proof {
                lemma_sum_u16_take_le(bps@, i + 1);
            }
            return Err(LbError::OutOfRange);
        }
        s = s + b as u64;
        parts.push(b as u64);
        assert(parts@ =~= widen(bps@.take(i + 1)));
        i = i + 1;
    }
    assert(bps@.take(n as int) =~= bps@);
    if n == 0 || s != BASIS_POINT_MAX {
        return Err(LbError::OutOfRange);
    }
    proof {
        lemma_sum_widen(bps@);
    }
    Ok(split_proportionally(total, &parts, BASIS_POINT_MAX))
}

/// Ratio of per-bin basis points to `weights`, summing to exactly 10000,
/// with the dust on the last positive weight. Fails `OutOfRange` when the
/// weights sum to zero (an empty list included) and `Overflow` when their
/// sum leaves `u64`.
pub fn bps_from_weights(weights: &Vec<u64>) -> (r: Result<Vec<u16>, LbError>)
    ensures
        r is Err <==> sum_u64(weights@) == 0 || sum_u64(weights@) > u64::MAX,
        sum_u64(weights@) == 0 ==> r == Err::<Vec<u16>, LbError>(LbError::OutOfRange),
        sum_u64(weights@) > u64::MAX ==> r == Err::<Vec<u16>, LbError>(LbError::Overflow),
        r matches Ok(b) ==> sum_u16(b@) == BASIS_POINT_MAX && proportional(
            widen(b@),
            BASIS_POINT_MAX as int,
            weights@,
            sum_u64(weights@),
        ),
{
    let n = weights.len();
    let mut w: u64 = 0;
    let mut i: usize = 0;
    while i < n
        invariant
            n == weights@.len(),
            0 <= i <= n,
            w == sum_u64(weights@.take(i as int)),
        decreases n - i,
    {
        assert(weights@.take(i + 1).drop_last() =~= weights@.take(i as int));
        if weights[i] > u64::MAX - w {
            proof {
                lemma_sum_u64_take_le(weights@, i + 1);
            }
            return Err(LbError::Overflow);
        }
        w = w + weights[i];
        i = i + 1;
    }
    assert(weights@.take(n as int) =~= weights@);
    if w == 0 {
        return Err(LbError::OutOfRange);
    }
    let v = split_proportionally(BASIS_POINT_MAX, weights, w);
    let mut b: Vec<u16> = Vec::new();
    i = 0;
    while i < n
        invariant
            n == v@.len(),
            0 <= i <= n,
            sum_u64(v@) == BASIS_POINT_MAX,
            b@.len() == i,
            forall|j: int| 0 <= j < i ==> b@[j] as u64 == v@[j],
        decreases n - i,
    {
        proof {
            lemma_sum_u64_elem_le(v@, i as int);
        }
        b.push(v[i] as u16);
        i = i + 1;
    }
    assert(widen(b@) =~= v@);
    proof {
        lemma_sum_widen(b@);
    }
    Ok(b)
}

/// Largest weight a bin may carry.
pub const MAX_WEIGHT: u64 = 0x4_0000_0000;

/// How a deposit spreads over its bin range.
#[derive(Debug)]
pub enum Strategy {
    /// The same weight on every bin.
    Spot,
    /// Weight falling with the distance from the active bin.
    Curve,
    /// Weight rising with the distance from the active bin.
    BidAsk,
    /// One weight per bin of the range, lowest bin first.
    Weighted(Vec<u32>),
}

/// Whether bin `id` takes token X (`for_x`) or token Y relative to the
/// active bin: bins above the active one hold only X, bins below only Y,
/// the active bin both.
pub open spec fn on_side(for_x: bool, active: int, id: int) -> bool {
    if for_x {
        id >= active
    } else {
        id <= active
    }
}

/// Weight of bin `id` under a strategy over `[lower, upper]`.
pub open spec fn strategy_weight(st: Strategy, lower: int, upper: int, active: int, id: int) -> int {
    let d = bin_distance(id, active);
    let dl = bin_distance(lower, active);
    let du = bin_distance(upper, active);
    let far = if dl >= du {
        dl
    } else {
        du
    };
    match st {
        Strategy::Spot => 1,
        Strategy::Curve => far - d + 1,
        Strategy::BidAsk => d + 1,
        Strategy::Weighted(w) => w@[id - lower] as int,
    }
}

/// Weights of one side over the range, zero off that side.
pub open spec fn side_weights(
    st: Strategy,
    lower: int,
    upper: int,
    active: int,
    for_x: bool,
) -> Seq<u64> {
    Seq::new(
        (upper - lower + 1) as nat,
        |i: int|
            if on_side(for_x, active, lower + i) {
                strategy_weight(st, lower, upper, active, lower + i) as u64
            } else {
                0u64
            },
    )
}

/// A strategy applies to a range: the range is ordered and not too wide,
/// and explicit weights give one per bin.
pub open spec fn valid_range(st: Strategy, lower: int, upper: int) -> bool {
    &&& lower <= upper
    &&& upper - lower < MAX_DISTRIBUTION_WIDTH
    &&& st matches Strategy::Weighted(w) ==> w@.len() == upper - lower + 1
}

/// Exact weights of one side.
pub fn compute_side_weights(st: &Strategy, lower: i32, upper: i32, active: i32, for_x: bool) -> (r:
    Vec<u64>)
    requires
        valid_range(*st, lower as int, upper as int),
    ensures
        r@ == side_weights(*st, lower as int, upper as int, active as int, for_x),
        forall|i: int| 0 <= i < r@.len() ==> r@[i] <= MAX_WEIGHT,
{
    let lo = lower as i64;
    let hi = upper as i64;
    let ac = active as i64;
    let dl: i64 = if lo >= ac { lo - ac } else { ac - lo };
    let du: i64 = if hi >= ac { hi - ac } else { ac - hi };
    let far: i64 = if dl >= du { dl } else { du };
    let n: usize = (hi - lo + 1) as usize;
    let mut r: Vec<u64> = Vec::new();
    let mut i: usize = 0;
    while i < n
        invariant
            n == upper - lower + 1,
            valid_range(*st, lower as int, upper as int),
            lo == lower,
            hi == upper,
            ac == active,
            dl == bin_distance(lower as int, active as int),
            du == bin_distance(upper as int, active as int),
            far == if dl >= du { dl } else { du },
            0 <= i <= n,
            r@.len() == i,
            forall|j: int|
                0 <= j < i ==> r@[j] == side_weights(
                    *st,
                    lower as int,
                    upper as int,
                    active as int,
                    for_x,
                )[j],
            forall|j: int| 0 <= j < i ==> r@[j] <= MAX_WEIGHT,
        decreases n - i,
    {
        let id = lo + i as i64;
        let on = if for_x { id >= ac } else { id <= ac };
        let d: i64 = if id >= ac { id - ac } else { ac - id };
        let w: u64 = if !on {
            0
        } else {
            match st {
                Strategy::Spot => 1,
                Strategy::Curve => (far - d + 1) as u64,
                Strategy::BidAsk => (d + 1) as u64,
                Strategy::Weighted(ws) => ws[i] as u64,
            }
        };
        r.push(w);
        i = i + 1;
    }
    assert(r@ =~= side_weights(*st, lower as int, upper as int, active as int, for_x));
    r
}

/// A caller's explicit share of one bin in a deposit, in basis points of
/// each side.
#[derive(Debug, Clone, Copy, PartialEq, Eq, Structural)]
pub struct BinLiquidityDistribution {
    pub bin_id: i32,
    pub distribution_x: u16,
    pub distribution_y: u16,
}

/// The X-side basis points of an explicit distribution.
pub open spec fn dist_bps_x(d: Seq<BinLiquidityDistribution>) -> Seq<u16> {
    d.map_values(|e: BinLiquidityDistribution| e.distribution_x)
}

/// The Y-side basis points of an explicit distribution.
pub open spec fn dist_bps_y(d: Seq<BinLiquidityDistribution>) -> Seq<u16> {
    d.map_values(|e: BinLiquidityDistribution| e.distribution_y)
}

/// Amounts of `total` under explicit basis points: nothing at all for a
/// zero total (any basis points), else as `amounts_from_bps`.
pub fn amounts_for_side(total: u64, bps: &Vec<u16>) -> (r: Result<Vec<u64>, LbError>)
    ensures
        r is Err <==> total > 0 && (bps@.len() == 0 || sum_u16(bps@) != BASIS_POINT_MAX),
        r is Err ==> r == Err::<Vec<u64>, LbError>(LbError::OutOfRange),
        r matches Ok(v) ==> v@.len() == bps@.len() && sum_u64(v@) == total,
        r matches Ok(v) ==> total > 0 ==> proportional(
            v@,
            total as int,
            widen(bps@),
            BASIS_POINT_MAX as int,
        ),
        r matches Ok(v) ==> total == 0 ==> forall|i: int| 0 <= i < v@.len() ==> v@[i] == 0,
        r matches Ok(v) ==> v@ == bps_amounts(total as int, bps@),
{
    if total == 0 {
        let mut v: Vec<u64> = Vec::new();
        let mut i: usize = 0;
        while i < bps.len()
            invariant
                0 <= i <= bps@.len(),
                v@.len() == i,
                forall|j: int| 0 <= j < i ==> v@[j] == 0,
            decreases bps@.len() - i,
        {
            v.push(0);
            i = i + 1;
        }
        proof {
            lemma_sum_u64_zero(v@);
            assert(v@ =~= bps_amounts(total as int, bps@));
        }
        return Ok(v);
    }
    let r = amounts_from_bps(total, bps);
    proof {
        if let Ok(v) = &r {
            lemma_sum_widen(bps@);
            let c = choose|c: Seq<u64>| proportional(c, total as int, widen(bps@), BASIS_POINT_MAX as int);
            lemma_proportional_unique(v@, c, total as int, widen(bps@), BASIS_POINT_MAX as int);
        }
    }
    r
}

/// A proportional split is unique.
pub proof fn lemma_proportional_unique(v1: Seq<u64>, v2: Seq<u64>, total: int, parts: Seq<u64>, whole: int)
    requires
        proportional(v1, total, parts, whole),
        proportional(v2, total, parts, whole),
        sum_u64(parts) > 0,
    ensures
        v1 == v2,
{
    lemma_last_positive_exists(parts);
    let k = choose|k: int| is_last_positive_u64(parts, k);
    lemma_sum_u64_update(v1, k, v2[k]);
    assert(v1.update(k, v2[k]) =~= v2);
    assert(v1 =~= v2);
}

/// One side of a distribution is unique.
pub proof fn lemma_side_exact_unique(
    w: Seq<u64>,
    b1: Seq<u16>,
    a1: Seq<u64>,
    b2: Seq<u16>,
    a2: Seq<u64>,
    total: int,
)
    requires
        side_exact(w, b1, a1, total),
        side_exact(w, b2, a2, total),
    ensures
        a1 == a2 && b1 == b2,
{
    if sum_u64(w) > 0 {
        lemma_proportional_unique(widen(b1), widen(b2), BASIS_POINT_MAX as int, w, sum_u64(w));
        assert forall|i: int| 0 <= i < b1.len() implies b1[i] == b2[i] by {
            assert(widen(b1)[i] == widen(b2)[i]);
        }
        assert(b1 =~= b2);
        lemma_sum_widen(b1);
        lemma_proportional_unique(a1, a2, total, widen(b1), BASIS_POINT_MAX as int);
    } else {
        lemma_sum_u64_nonneg(w);
        assert(a1 =~= a2);
        assert(b1 =~= b2);
    }
}

/// The amounts of one side of a distribution over weights `w`.
pub open spec fn side_amounts(w: Seq<u64>, total: int) -> Seq<u64> {
    (choose|b: Seq<u16>, a: Seq<u64>| side_exact(w, b, a, total)).1
}

/// The amounts of `total` under explicit basis points, as
/// `amounts_for_side` gives them.
pub open spec fn bps_amounts(total: int, bps: Seq<u16>) -> Seq<u64> {
    if total == 0 {
        Seq::new(bps.len(), |i: int| 0u64)
    } else {
        choose|v: Seq<u64>| proportional(v, total, widen(bps), BASIS_POINT_MAX as int)
    }
}

/// Per-bin basis points and amounts of one deposit.
#[derive(Debug)]
pub struct Distribution {
    pub bps_x: Vec<u16>,
    pub bps_y: Vec<u16>,
    pub amounts_x: Vec<u64>,
    pub amounts_y: Vec<u64>,
}

/// One side of a distribution is exact: where the side has weight, its
/// basis points follow the weights and its amounts follow the basis points;
/// where it has none, both are zero.
pub open spec fn side_exact(w: Seq<u64>, bps: Seq<u16>, amounts: Seq<u64>, total: int) -> bool {
    &&& bps.len() == w.len()
    &&& amounts.len() == w.len()
    &&& sum_u64(amounts) == total
    &&& sum_u64(w) > 0 ==> sum_u16(bps) == BASIS_POINT_MAX && proportional(
        widen(bps),
        BASIS_POINT_MAX as int,
        w,
        sum_u64(w),
    ) && proportional(amounts, total, widen(bps), BASIS_POINT_MAX as int)
    &&& sum_u64(w) == 0 ==> forall|i: int| 0 <= i < w.len() ==> bps[i] == 0 && amounts[i] == 0
    &&& forall|i: int| 0 <= i < w.len() && w[i] == 0 ==> bps[i] == 0 && amounts[i] == 0
}

/// Bps and amounts of one side.
fn distribute_side(w: &Vec<u64>, total: u64) -> (r: Result<(Vec<u16>, Vec<u64>), LbError>)
    requires
        w@.len() <= MAX_DISTRIBUTION_WIDTH,
        forall|i: int| 0 <= i < w@.len() ==> w@[i] <= MAX_WEIGHT,
    ensures
        r is Err <==> (total > 0 && sum_u64(w@) == 0),
        r is Err ==> r == Err::<(Vec<u16>, Vec<u64>), LbError>(LbError::OutOfRange),
        r matches Ok((b, a)) ==> side_exact(w@, b@, a@, total as int),
{
    proof {
        lemma_sum_u64_bound(w@, MAX_WEIGHT as int);
        assert(w@.len() * MAX_WEIGHT <= MAX_DISTRIBUTION_WIDTH * MAX_WEIGHT) by (nonlinear_arith)
            requires w@.len() <= MAX_DISTRIBUTION_WIDTH;
    }
    match bps_from_weights(w) {
        Err(e) => {
            if total > 0 {
                return Err(e);
            }
            let mut b: Vec<u16> = Vec::new();
            let mut a: Vec<u64> = Vec::new();
            let mut i: usize = 0;
            while i < w.len()
                invariant
                    0 <= i <= w@.len(),
                    b@.len() == i,
                    a@.len() == i,
                    forall|j: int| 0 <= j < i ==> b@[j] == 0 && a@[j] == 0,
                decreases w@.len() - i,
            {
                b.push(0);
                a.push(0);
                i = i + 1;
            }
            proof {
                lemma_sum_u64_zero(a@);
            }
            Ok((b, a))
        },
        Ok(b) => {
            proof {
                lemma_sum_widen(b@);
                lemma_sum_u64_nonneg(w@);
            }
            let a = match amounts_from_bps(total, &b) {
                Ok(a) => a,
                Err(e) => {
                    return Err(e);
                },
            };
            proof {
                assert forall|i: int| 0 <= i < w@.len() && w@[i] == 0 implies b@[i] == 0
                    && a@[i] == 0 by {
                    lemma_proportional_zero(widen(b@), BASIS_POINT_MAX as int, w@, sum_u64(w@), i);
                    lemma_proportional_zero(a@, total as int, widen(b@), BASIS_POINT_MAX as int, i);
                }
            }
            Ok((b, a))
        },
    }
}

/// Spreads `amount_x` over the bins of `[lower, upper]` at or above the
/// active bin and `amount_y` over those at or below it, by the strategy's
/// weights. Per side the basis points sum to exactly 10000 (or are all zero
/// where the side has no weight and no amount) and the amounts sum to the
/// side's total exactly. Fails `OutOfRange` on an invalid range, or when an
/// amount is asked of a side without weight.
pub fn distribute(
    st: &Strategy,
    lower: i32,
    upper: i32,
    active: i32,
    amount_x: u64,
    amount_y: u64,
) -> (r: Result<Distribution, LbError>)
    ensures
        ({
            let wx = side_weights(*st, lower as int, upper as int, active as int, true);
            let wy = side_weights(*st, lower as int, upper as int, active as int, false);
            r is Ok <==> valid_range(*st, lower as int, upper as int) && !(amount_x > 0
                && sum_u64(wx) == 0) && !(amount_y > 0 && sum_u64(wy) == 0)
        }),
        r is Err ==> r == Err::<Distribution, LbError>(LbError::OutOfRange),
        r matches Ok(d) ==> {
            let wx = side_weights(*st, lower as int, upper as int, active as int, true);
            let wy = side_weights(*st, lower as int, upper as int, active as int, false);
            &&& side_exact(wx, d.bps_x@, d.amounts_x@, amount_x as int)
            &&& side_exact(wy, d.bps_y@, d.amounts_y@, amount_y as int)
            &&& d.amounts_x@ == side_amounts(wx, amount_x as int)
            &&& d.amounts_y@ == side_amounts(wy, amount_y as int)
            &&& forall|i: int|
                0 <= i < wx.len() && !on_side(true, active as int, lower + i) ==> d.amounts_x@[i]
                    == 0
            &&& forall|i: int|
                0 <= i < wy.len() && !on_side(false, active as int, lower + i) ==> d.amounts_y@[i]
                    == 0
        },
{
    if lower > upper || (upper as i64 - lower as i64) as u64 >= MAX_DISTRIBUTION_WIDTH {
        return Err(LbError::OutOfRange);
    }
    let width = (upper as i64 - lower as i64 + 1) as usize;
    match st {
        Strategy::Weighted(w) => {
            if w.len() != width {
                return Err(LbError::OutOfRange);
            }
        },
        _ => {},
    }
    let wx = compute_side_weights(st, lower, upper, active, true);
    let wy = compute_side_weights(st, lower, upper, active, false);
    let (bps_x, amounts_x) = match distribute_side(&wx, amount_x) {
        Ok(p) => p,
        Err(e) => {
            return Err(e);
        },
    };
    let (bps_y, amounts_y) = match distribute_side(&wy, amount_y) {
        Ok(p) => p,
        Err(e) => {
            return Err(e);
        },
    };
    proof {
        let wxs = side_weights(*st, lower as int, upper as int, active as int, true);
        let wys = side_weights(*st, lower as int, upper as int, active as int, false);
        let cx = choose|b: Seq<u16>, a: Seq<u64>| side_exact(wxs, b, a, amount_x as int);
        lemma_side_exact_unique(wxs, bps_x@, amounts_x@, cx.0, cx.1, amount_x as int);
        let cy = choose|b: Seq<u16>, a: Seq<u64>| side_exact(wys, b, a, amount_y as int);
        lemma_side_exact_unique(wys, bps_y@, amounts_y@, cy.0, cy.1, amount_y as int);
    }
    Ok(Distribution { bps_x, bps_y, amounts_x, amounts_y })
}

} // verus!
