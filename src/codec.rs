//! Fixed-layout binary records: a bin is 88 bytes, its fields in order,
//! each little-endian (three `u64`, then four `u128`).

use vstd::prelude::*;
use crate::bin::{Bin, PositionBin};
use crate::math::LbError;

verus! {

/// Size of an encoded bin.
pub const BIN_RECORD_LEN: usize = 88;

/// Size of an encoded stake.
pub const STAKE_RECORD_LEN: usize = 104;

/// Largest record.
pub const MAX_RECORD_LEN: usize = 104;

/// Little-endian bytes of a `u64`.
pub open spec fn le_u64(v: u64) -> Seq<u8> {
    Seq::new(8, |i: int| ((v >> (8 * i) as u64) & 0xff) as u8)
}

/// Low half of a `u128`.
pub open spec fn low_half(v: u128) -> u64 {
    (v & 0xffff_ffff_ffff_ffff) as u64
}

/// High half of a `u128`.
pub open spec fn high_half(v: u128) -> u64 {
    (v >> 64u128) as u64
}

/// Little-endian bytes of a `u128`: those of its low half, then of its
/// high half.
pub open spec fn le_u128(v: u128) -> Seq<u8> {
    le_u64(low_half(v)) + le_u64(high_half(v))
}

/// The record of a bin.
pub open spec fn bin_record(b: Bin) -> Seq<u8> {
    le_u64(b.amount_x) + le_u64(b.amount_y) + le_u64(b.liquidity_supply) + le_u128(
        b.fee_x_per_share,
    ) + le_u128(b.fee_y_per_share) + le_u128(b.reward_0_per_share) + le_u128(
        b.reward_1_per_share,
    )
}

fn put_u64(buf: &mut Vec<u8>, v: u64)
    ensures
        final(buf)@ == old(buf)@ + le_u64(v),
{
    let mut i: u64 = 0;
    while i < 8
        invariant
            0 <= i <= 8,
            buf@ == old(buf)@ + le_u64(v).take(i as int),
        decreases 8 - i,
    {
        buf.push(((v >> (8 * i)) & 0xff) as u8);
        assert(le_u64(v).take(i + 1) =~= le_u64(v).take(i as int).push(
            ((v >> (8 * i)) & 0xff) as u8,
        ));
        i = i + 1;
    }
    assert(le_u64(v).take(8) =~= le_u64(v));
}

fn put_u128(buf: &mut Vec<u8>, v: u128)
    ensures
        final(buf)@ == old(buf)@ + le_u128(v),
{
    put_u64(buf, (v & 0xffff_ffff_ffff_ffff) as u64);
    put_u64(buf, (v >> 64u128) as u64);
    assert(final(buf)@ =~= old(buf)@ + le_u128(v));
}

/// Value of eight little-endian bytes.
pub open spec fn from_le_u64(b: Seq<u8>) -> u64 {
    (b[0] as u64) | ((b[1] as u64) << 8) | ((b[2] as u64) << 16) | ((b[3] as u64) << 24) | ((
    b[4] as u64) << 32) | ((b[5] as u64) << 40) | ((b[6] as u64) << 48) | ((b[7] as u64) << 56)
}

/// Value of sixteen little-endian bytes.
pub open spec fn from_le_u128(b: Seq<u8>) -> u128 {
    (from_le_u64(b.subrange(0, 8)) as u128) | ((from_le_u64(b.subrange(8, 16)) as u128) << 64)
}

fn get_u64(bytes: &Vec<u8>, off: usize) -> (r: u64)
    requires
        off + 8 <= bytes@.len(),
        bytes@.len() <= MAX_RECORD_LEN,
    ensures
        r == from_le_u64(bytes@.subrange(off as int, off + 8)),
{
    let mut r: u64 = 0;
    let mut i: usize = 8;
    while i > 0
        invariant
            0 <= i <= 8,
            off + 8 <= bytes@.len(),
            bytes@.len() <= MAX_RECORD_LEN,
            r == from_le_tail(bytes@.subrange(off as int, off + 8), i as int),
        decreases i,
    {
        i = i - 1;
        r = (r << 8) | bytes[off + i] as u64;
    }
    proof {
        lemma_from_le_tail(bytes@.subrange(off as int, off + 8));
    }
    r
}

/// Value of the bytes at `[i, 8)`, little-endian.
pub open spec fn from_le_tail(b: Seq<u8>, i: int) -> u64
    decreases 8 - i,
{
    if i >= 8 || i < 0 {
        0
    } else {
        ((from_le_tail(b, i + 1) << 8) | b[i] as u64) as u64
    }
}

proof fn lemma_from_le_tail(b: Seq<u8>)
    requires
        b.len() == 8,
    ensures
        from_le_tail(b, 0) == from_le_u64(b),
{
    reveal_with_fuel(from_le_tail, 9);
    let (b0, b1, b2, b3, b4, b5, b6, b7) = (b[0], b[1], b[2], b[3], b[4], b[5], b[6], b[7]);
    assert(((((((((((((((((0u64 << 8) | b7 as u64) << 8) | b6 as u64) << 8) | b5 as u64) << 8)
        | b4 as u64) << 8) | b3 as u64) << 8) | b2 as u64) << 8) | b1 as u64) << 8) | b0 as u64)
        == ((b0 as u64) | ((b1 as u64) << 8) | ((b2 as u64) << 16) | ((b3 as u64) << 24) | ((
        b4 as u64) << 32) | ((b5 as u64) << 40) | ((b6 as u64) << 48) | ((b7 as u64) << 56)))
        by (bit_vector);
}

fn get_u128(bytes: &Vec<u8>, off: usize) -> (r: u128)
    requires
        off + 16 <= bytes@.len(),
        bytes@.len() <= MAX_RECORD_LEN,
    ensures
        r == from_le_u128(bytes@.subrange(off as int, off + 16)),
{
    let lo = get_u64(bytes, off);
    let hi = get_u64(bytes, off + 8);
    assert(bytes@.subrange(off as int, off + 16).subrange(0, 8) =~= bytes@.subrange(
        off as int,
        off + 8,
    ));
    assert(bytes@.subrange(off as int, off + 16).subrange(8, 16) =~= bytes@.subrange(
        off + 8,
        off + 16,
    ));
    (lo as u128) | ((hi as u128) << 64)
}

proof fn lemma_u64_round_trip(v: u64)
    ensures
        from_le_u64(le_u64(v)) == v,
{
    assert(v == (((v >> 0u64) & 0xff) as u8 as u64) | ((((v >> 8u64) & 0xff) as u8 as u64) << 8)
        | ((((v >> 16u64) & 0xff) as u8 as u64) << 16) | ((((v >> 24u64) & 0xff) as u8 as u64)
        << 24) | ((((v >> 32u64) & 0xff) as u8 as u64) << 32) | ((((v >> 40u64) & 0xff) as u8
        as u64) << 40) | ((((v >> 48u64) & 0xff) as u8 as u64) << 48) | ((((v >> 56u64) & 0xff)
        as u8 as u64) << 56)) by (bit_vector);
}

proof fn lemma_u128_round_trip(v: u128)
    ensures
        from_le_u128(le_u128(v)) == v,
{
    let lo = low_half(v);
    let hi = high_half(v);
    assert(le_u128(v).subrange(0, 8) =~= le_u64(lo));
    assert(le_u128(v).subrange(8, 16) =~= le_u64(hi));
    lemma_u64_round_trip(lo);
    lemma_u64_round_trip(hi);
    assert(v == (((v & 0xffff_ffff_ffff_ffff) as u64) as u128) | ((((v >> 64u128) as u64) as u128)
        << 64)) by (bit_vector);
}

impl Bin {
    /// The bin's fixed-layout record.
    pub fn to_bytes(&self) -> (r: Vec<u8>)
        ensures
            r@ == bin_record(*self),
            r@.len() == BIN_RECORD_LEN,
    {
        let mut buf: Vec<u8> = Vec::new();
        put_u64(&mut buf, self.amount_x);
        put_u64(&mut buf, self.amount_y);
        put_u64(&mut buf, self.liquidity_supply);
        put_u128(&mut buf, self.fee_x_per_share);
        put_u128(&mut buf, self.fee_y_per_share);
        put_u128(&mut buf, self.reward_0_per_share);
        put_u128(&mut buf, self.reward_1_per_share);
        assert(buf@ =~= bin_record(*self));
        buf
    }

    /// Reads a bin from its record. Fails `OutOfRange` on a record that is
    /// not exactly `BIN_RECORD_LEN` bytes long.
    pub fn from_bytes(bytes: &Vec<u8>) -> (r: Result<Bin, LbError>)
        ensures
            r is Err <==> bytes@.len() != BIN_RECORD_LEN,
            r is Err ==> r == Err::<Bin, LbError>(LbError::OutOfRange),
            r matches Ok(b) ==> bin_record(b) == bytes@,
    {
        if bytes.len() != BIN_RECORD_LEN {
            return Err(LbError::OutOfRange);
        }
        let b = Bin {
            amount_x: get_u64(bytes, 0),
            amount_y: get_u64(bytes, 8),
            liquidity_supply: get_u64(bytes, 16),
            fee_x_per_share: get_u128(bytes, 24),
            fee_y_per_share: get_u128(bytes, 40),
            reward_0_per_share: get_u128(bytes, 56),
            reward_1_per_share: get_u128(bytes, 72),
        };
        proof {
            lemma_record_of_decoded(bytes@, b);
        }
        Ok(b)
    }
}

proof fn lemma_record_of_decoded(s: Seq<u8>, b: Bin)
    requires
        s.len() == BIN_RECORD_LEN,
        b.amount_x == from_le_u64(s.subrange(0, 8)),
        b.amount_y == from_le_u64(s.subrange(8, 16)),
        b.liquidity_supply == from_le_u64(s.subrange(16, 24)),
        b.fee_x_per_share == from_le_u128(s.subrange(24, 40)),
        b.fee_y_per_share == from_le_u128(s.subrange(40, 56)),
        b.reward_0_per_share == from_le_u128(s.subrange(56, 72)),
        b.reward_1_per_share == from_le_u128(s.subrange(72, 88)),
    ensures
        bin_record(b) == s,
{
    lemma_le_u64_of_bytes(s.subrange(0, 8));
    lemma_le_u64_of_bytes(s.subrange(8, 16));
    lemma_le_u64_of_bytes(s.subrange(16, 24));
    lemma_le_u128_of_bytes(s.subrange(24, 40));
    lemma_le_u128_of_bytes(s.subrange(40, 56));
    lemma_le_u128_of_bytes(s.subrange(56, 72));
    lemma_le_u128_of_bytes(s.subrange(72, 88));
    assert(bin_record(b) =~= s);
}

proof fn lemma_le_u64_of_bytes(b: Seq<u8>)
    requires
        b.len() == 8,
    ensures
        le_u64(from_le_u64(b)) == b,
{
    let v = from_le_u64(b);
    let (b0, b1, b2, b3, b4, b5, b6, b7) = (b[0], b[1], b[2], b[3], b[4], b[5], b[6], b[7]);
    assert forall|i: int| 0 <= i < 8 implies #[trigger] le_u64(v)[i] == b[i] by {
        let s = (8 * i) as u64;
        assert(((((b0 as u64) | ((b1 as u64) << 8) | ((b2 as u64) << 16) | ((b3 as u64) << 24) | ((
        b4 as u64) << 32) | ((b5 as u64) << 40) | ((b6 as u64) << 48) | ((b7 as u64) << 56)) >> s)
            & 0xff) as u8 == if s == 0 {
            b0
        } else if s == 8 {
            b1
        } else if s == 16 {
            b2
        } else if s == 24 {
            b3
        } else if s == 32 {
            b4
        } else if s == 40 {
            b5
        } else if s == 48 {
            b6
        } else {
            b7
        }) by (bit_vector)
            requires
                s == 0 || s == 8 || s == 16 || s == 24 || s == 32 || s == 40 || s == 48 || s == 56,
        ;
    }
    assert(le_u64(v) =~= b);
}

proof fn lemma_le_u128_of_bytes(b: Seq<u8>)
    requires
        b.len() == 16,
    ensures
        le_u128(from_le_u128(b)) == b,
{
    let lo = from_le_u64(b.subrange(0, 8));
    let hi = from_le_u64(b.subrange(8, 16));
    lemma_le_u64_of_bytes(b.subrange(0, 8));
    lemma_le_u64_of_bytes(b.subrange(8, 16));
    assert((((lo as u128) | ((hi as u128) << 64)) & 0xffff_ffff_ffff_ffff) as u64 == lo)
        by (bit_vector);
    assert((((lo as u128) | ((hi as u128) << 64)) >> 64u128) as u64 == hi) by (bit_vector);
    assert(le_u128(from_le_u128(b)) =~= b);
}

proof fn lemma_bin_record_fields(b: Bin)
    ensures
        ({
            let s = bin_record(b);
            &&& s.len() == BIN_RECORD_LEN
            &&& from_le_u64(s.subrange(0, 8)) == b.amount_x
            &&& from_le_u64(s.subrange(8, 16)) == b.amount_y
            &&& from_le_u64(s.subrange(16, 24)) == b.liquidity_supply
            &&& from_le_u128(s.subrange(24, 40)) == b.fee_x_per_share
            &&& from_le_u128(s.subrange(40, 56)) == b.fee_y_per_share
            &&& from_le_u128(s.subrange(56, 72)) == b.reward_0_per_share
            &&& from_le_u128(s.subrange(72, 88)) == b.reward_1_per_share
        }),
{
    let s = bin_record(b);
    assert(s.subrange(0, 8) =~= le_u64(b.amount_x));
    assert(s.subrange(8, 16) =~= le_u64(b.amount_y));
    assert(s.subrange(16, 24) =~= le_u64(b.liquidity_supply));
    assert(s.subrange(24, 40) =~= le_u128(b.fee_x_per_share));
    assert(s.subrange(40, 56) =~= le_u128(b.fee_y_per_share));
    assert(s.subrange(56, 72) =~= le_u128(b.reward_0_per_share));
    assert(s.subrange(72, 88) =~= le_u128(b.reward_1_per_share));
    lemma_u64_round_trip(b.amount_x);
    lemma_u64_round_trip(b.amount_y);
    lemma_u64_round_trip(b.liquidity_supply);
    lemma_u128_round_trip(b.fee_x_per_share);
    lemma_u128_round_trip(b.fee_y_per_share);
    lemma_u128_round_trip(b.reward_0_per_share);
    lemma_u128_round_trip(b.reward_1_per_share);
}

/// A record determines its bin: two bins with the same record are equal,
/// so reading the record that `to_bytes` wrote gives back the bin.
pub proof fn lemma_bin_record_round_trip(a: Bin, b: Bin)
    requires
        bin_record(a) == bin_record(b),
    ensures
        a == b,
{
    lemma_bin_record_fields(a);
    lemma_bin_record_fields(b);
}

/// The record of a stake: share, fee snapshots, fee pendings, reward
/// snapshots, reward pendings, in that order.
pub open spec fn stake_record(p: PositionBin) -> Seq<u8> {
    le_u64(p.share) + le_u128(p.fee_x_snapshot) + le_u128(p.fee_y_snapshot) + le_u64(p.fee_x_pending)
        + le_u64(p.fee_y_pending) + le_u128(p.reward_0_snapshot) + le_u128(p.reward_1_snapshot)
        + le_u64(p.reward_0_pending) + le_u64(p.reward_1_pending)
}

impl PositionBin {
    /// The stake's fixed-layout record.
    pub fn to_bytes(&self) -> (r: Vec<u8>)
        ensures
            r@ == stake_record(*self),
            r@.len() == STAKE_RECORD_LEN,
    {
        let mut buf: Vec<u8> = Vec::new();
        put_u64(&mut buf, self.share);
        put_u128(&mut buf, self.fee_x_snapshot);
        put_u128(&mut buf, self.fee_y_snapshot);
        put_u64(&mut buf, self.fee_x_pending);
        put_u64(&mut buf, self.fee_y_pending);
        put_u128(&mut buf, self.reward_0_snapshot);
        put_u128(&mut buf, self.reward_1_snapshot);
        put_u64(&mut buf, self.reward_0_pending);
        put_u64(&mut buf, self.reward_1_pending);
        assert(buf@ =~= stake_record(*self));
        buf
    }

    /// Reads a stake from its record. Fails `OutOfRange` on a record that
    /// is not exactly `STAKE_RECORD_LEN` bytes long.
    pub fn from_bytes(bytes: &Vec<u8>) -> (r: Result<PositionBin, LbError>)
        ensures
            r is Err <==> bytes@.len() != STAKE_RECORD_LEN,
            r is Err ==> r == Err::<PositionBin, LbError>(LbError::OutOfRange),
            r matches Ok(p) ==> stake_record(p) == bytes@,
    {
        if bytes.len() != STAKE_RECORD_LEN {
            return Err(LbError::OutOfRange);
        }
        let p = PositionBin {
            share: get_u64(bytes, 0),
            fee_x_snapshot: get_u128(bytes, 8),
            fee_y_snapshot: get_u128(bytes, 24),
            fee_x_pending: get_u64(bytes, 40),
            fee_y_pending: get_u64(bytes, 48),
            reward_0_snapshot: get_u128(bytes, 56),
            reward_1_snapshot: get_u128(bytes, 72),
            reward_0_pending: get_u64(bytes, 88),
            reward_1_pending: get_u64(bytes, 96),
        };
        proof {
            let s = bytes@;
            lemma_le_u64_of_bytes(s.subrange(0, 8));
            lemma_le_u128_of_bytes(s.subrange(8, 24));
            lemma_le_u128_of_bytes(s.subrange(24, 40));
            lemma_le_u64_of_bytes(s.subrange(40, 48));
            lemma_le_u64_of_bytes(s.subrange(48, 56));
            lemma_le_u128_of_bytes(s.subrange(56, 72));
            lemma_le_u128_of_bytes(s.subrange(72, 88));
            lemma_le_u64_of_bytes(s.subrange(88, 96));
            lemma_le_u64_of_bytes(s.subrange(96, 104));
            assert(stake_record(p) =~= s);
        }
        Ok(p)
    }
}

/// A record determines its stake: two stakes with the same record are
/// equal, so reading the record that `to_bytes` wrote gives back the stake.
pub proof fn lemma_stake_record_round_trip(a: PositionBin, b: PositionBin)
    requires
        stake_record(a) == stake_record(b),
    ensures
        a == b,
{
    lemma_stake_record_fields(a);
    lemma_stake_record_fields(b);
}

proof fn lemma_stake_record_fields(p: PositionBin)
    ensures
        ({
            let s = stake_record(p);
            &&& s.len() == STAKE_RECORD_LEN
            &&& from_le_u64(s.subrange(0, 8)) == p.share
            &&& from_le_u128(s.subrange(8, 24)) == p.fee_x_snapshot
            &&& from_le_u128(s.subrange(24, 40)) == p.fee_y_snapshot
            &&& from_le_u64(s.subrange(40, 48)) == p.fee_x_pending
            &&& from_le_u64(s.subrange(48, 56)) == p.fee_y_pending
            &&& from_le_u128(s.subrange(56, 72)) == p.reward_0_snapshot
            &&& from_le_u128(s.subrange(72, 88)) == p.reward_1_snapshot
            &&& from_le_u64(s.subrange(88, 96)) == p.reward_0_pending
            &&& from_le_u64(s.subrange(96, 104)) == p.reward_1_pending
        }),
{
    let s = stake_record(p);
    assert(s.subrange(0, 8) =~= le_u64(p.share));
    assert(s.subrange(8, 24) =~= le_u128(p.fee_x_snapshot));
    assert(s.subrange(24, 40) =~= le_u128(p.fee_y_snapshot));
    assert(s.subrange(40, 48) =~= le_u64(p.fee_x_pending));
    assert(s.subrange(48, 56) =~= le_u64(p.fee_y_pending));
    assert(s.subrange(56, 72) =~= le_u128(p.reward_0_snapshot));
    assert(s.subrange(72, 88) =~= le_u128(p.reward_1_snapshot));
    assert(s.subrange(88, 96) =~= le_u64(p.reward_0_pending));
    assert(s.subrange(96, 104) =~= le_u64(p.reward_1_pending));
    lemma_u64_round_trip(p.share);
    lemma_u128_round_trip(p.fee_x_snapshot);
    lemma_u128_round_trip(p.fee_y_snapshot);
    lemma_u64_round_trip(p.fee_x_pending);
    lemma_u64_round_trip(p.fee_y_pending);
    lemma_u128_round_trip(p.reward_0_snapshot);
    lemma_u128_round_trip(p.reward_1_snapshot);
    lemma_u64_round_trip(p.reward_0_pending);
    lemma_u64_round_trip(p.reward_1_pending);
}

} // verus!
