//! Bin-array pages and the bitmap that records which pages exist outside
//! the always-resident window. A page outside the window must be created
//! before an operation may use it.

use vstd::prelude::*;
use crate::math::LbError;

verus! {

/// Bins per page.
pub const BINS_PER_ARRAY: i64 = 64;

/// Pages with an index in `[-DEFAULT_WINDOW, DEFAULT_WINDOW)` are always
/// addressable and not tracked here.
pub const DEFAULT_WINDOW: i64 = 512;

/// Page that holds bin `id`: `floor(id / 64)`.
pub fn bin_array_index(id: i32) -> (r: i64)
    ensures
        r == id as int / BINS_PER_ARRAY as int,
{
    let v = id as i64;
    if v >= 0 {
        v / BINS_PER_ARRAY
    } else {
        (v + 1) / BINS_PER_ARRAY - 1
    }
}

/// Lowest and highest bin id of page `index`.
pub fn bin_array_bounds(index: i32) -> (r: (i64, i64))
    ensures
        r.0 == index * BINS_PER_ARRAY,
        r.1 == index * BINS_PER_ARRAY + BINS_PER_ARRAY - 1,
{
    let lo = index as i64 * BINS_PER_ARRAY;
    (lo, lo + BINS_PER_ARRAY - 1)
}

/// Bit `b` of word `w`.
pub open spec fn bit_set(w: u64, b: u64) -> bool {
    (w >> b) & 1 == 1
}

/// Offset of a page beyond the window on its side: `index - 512` above,
/// `-index - 513` below.
pub open spec fn offset_of(index: int) -> int {
    if index >= DEFAULT_WINDOW {
        index - DEFAULT_WINDOW
    } else {
        -index - DEFAULT_WINDOW - 1
    }
}

/// Existence bits of the pages beyond the window, 64 to a word, one vector
/// per side.
#[derive(Debug)]
pub struct BinArrayBitmap {
    pub positive: Vec<u64>,
    pub negative: Vec<u64>,
}

impl BinArrayBitmap {
    /// Number of pages each side can track.
    pub open spec fn capacity(&self) -> int {
        self.positive@.len() as int * 64
    }

    pub open spec fn wf(&self) -> bool {
        self.positive@.len() == self.negative@.len()
    }

    /// Page `index` can be recorded here or lies in the window.
    pub open spec fn in_domain(&self, index: int) -> bool {
        -DEFAULT_WINDOW - self.capacity() <= index < DEFAULT_WINDOW + self.capacity()
    }

    /// Whether page `index` exists: always inside the window, else its bit.
    pub open spec fn has(&self, index: int) -> bool {
        if -DEFAULT_WINDOW <= index < DEFAULT_WINDOW {
            true
        } else {
            let o = offset_of(index);
            let words = if index >= DEFAULT_WINDOW {
                self.positive@
            } else {
                self.negative@
            };
            bit_set(words[o / 64], (o % 64) as u64)
        }
    }

    /// A bitmap of `words` words per side with no page recorded.
    pub fn new(words: usize) -> (r: BinArrayBitmap)
        ensures
            r.wf(),
            r.positive@.len() == words,
            forall|i: int| r.in_domain(i) ==> (r.has(i) <==> -DEFAULT_WINDOW <= i < DEFAULT_WINDOW),
    {
        let mut positive: Vec<u64> = Vec::new();
        let mut negative: Vec<u64> = Vec::new();
        let mut i: usize = 0;
        while i < words
            invariant
                0 <= i <= words,
                positive@.len() == i,
                negative@.len() == i,
                forall|j: int| 0 <= j < i ==> positive@[j] == 0 && negative@[j] == 0,
            decreases words - i,
        {
            positive.push(0);
            negative.push(0);
            i = i + 1;
        }
        assert forall|b: u64| b < 64 implies !bit_set(0, b) by {
            assert((0u64 >> b) & 1 == 0) by (bit_vector);
        }
        BinArrayBitmap { positive, negative }
    }

    fn covers(&self, index: i64) -> (r: bool)
        ensures
            r == self.in_domain(index as int),
    {
        let cap = self.positive.len() as i128 * 64;
        let i = index as i128;
        -(DEFAULT_WINDOW as i128) - cap <= i && i < DEFAULT_WINDOW as i128 + cap
    }

    fn locate(&self, index: i64) -> (r: (bool, usize, u64))
        requires
            self.wf(),
            self.in_domain(index as int),
            !(-DEFAULT_WINDOW <= index < DEFAULT_WINDOW),
        ensures
            r.0 == (index >= DEFAULT_WINDOW),
            r.1 == offset_of(index as int) / 64,
            r.2 == offset_of(index as int) % 64,
            r.1 < self.positive@.len(),
    {
        let i = index as i128;
        let o: i128 = if i >= DEFAULT_WINDOW as i128 {
            i - DEFAULT_WINDOW as i128
        } else {
            -i - DEFAULT_WINDOW as i128 - 1
        };
        let n = self.positive.len();
        let ghost len = n as int;
        assert(0 <= o / 64 < len) by (nonlinear_arith)
            requires
                0 <= o < len * 64,
        ;
        let q: i128 = o / 64;
        let m: i128 = o % 64;
        assert(q == offset_of(index as int) / 64);
        assert(m == offset_of(index as int) % 64);
        ((index >= DEFAULT_WINDOW), q as usize, m as u64)
    }

    /// Whether page `index` exists. Fails `OutOfRange` beyond what the
    /// bitmap covers.
    pub fn has_array(&self, index: i64) -> (r: Result<bool, LbError>)
        requires
            self.wf(),
        ensures
            !self.in_domain(index as int) ==> r == Err::<bool, LbError>(LbError::OutOfRange),
            self.in_domain(index as int) ==> r == Ok::<bool, LbError>(self.has(index as int)),
    {
        if !self.covers(index) {
            return Err(LbError::OutOfRange);
        }
        if -DEFAULT_WINDOW <= index && index < DEFAULT_WINDOW {
            return Ok(true);
        }
        let (up, w, b) = self.locate(index);
        let word = if up {
            self.positive[w]
        } else {
            self.negative[w]
        };
        Ok((word >> b) & 1 == 1)
    }

    /// Records page `index` as existing; nothing else changes. Fails
    /// `OutOfRange` beyond what the bitmap covers.
    pub fn set(&mut self, index: i64) -> (r: Result<(), LbError>)
        requires
            old(self).wf(),
        ensures
            final(self).wf(),
            final(self).positive@.len() == old(self).positive@.len(),
            !old(self).in_domain(index as int) ==> r == Err::<(), LbError>(LbError::OutOfRange)
                && final(self).positive@ == old(self).positive@ && final(self).negative@ == old(
                self,
            ).negative@,
            old(self).in_domain(index as int) ==> r is Ok && final(self).has(index as int)
                && forall|i: int|
                i != index && old(self).in_domain(i) ==> (final(self).has(i) == old(self).has(i)),
    {
        if !self.covers(index) {
            return Err(LbError::OutOfRange);
        }
        if -DEFAULT_WINDOW <= index && index < DEFAULT_WINDOW {
            return Ok(());
        }
        let (up, w, b) = self.locate(index);
        let old_word = if up {
            self.positive[w]
        } else {
            self.negative[w]
        };
        let new_word = old_word | (1u64 << b);
        assert(bit_set(new_word, b)) by (bit_vector)
            requires
                new_word == old_word | (1u64 << b),
                b < 64,
        ;
        assert forall|c: u64| c < 64 && c != b implies bit_set(new_word, c) == bit_set(old_word, c) by {
            assert(((old_word | (1u64 << b)) >> c) & 1 == (old_word >> c) & 1) by (bit_vector)
                requires
                    c < 64,
                    b < 64,
                    c != b,
            ;
        }
        if up {
            self.positive.set(w, new_word);
        } else {
            self.negative.set(w, new_word);
        }
        proof {
            assert forall|i: int| i != index && old(self).in_domain(i) implies (self.has(i) == old(
                self,
            ).has(i)) by {
                if !(-DEFAULT_WINDOW <= i < DEFAULT_WINDOW) && (i >= DEFAULT_WINDOW) == up {
                    let oi = offset_of(i);
                    let oj = offset_of(index as int);
                    if oi / 64 == oj / 64 {
                        assert(oi % 64 != oj % 64);
                        assert(((oi % 64) as u64) < 64);
                    }
                }
            }
        }
        Ok(())
    }

    /// The two-phase rule: an operation may use page `index` only once it
    /// exists. Fails `BinArrayNotFound` otherwise, `OutOfRange` beyond what
    /// the bitmap covers.
    pub fn require_array(&self, index: i64) -> (r: Result<(), LbError>)
        requires
            self.wf(),
        ensures
            !self.in_domain(index as int) ==> r == Err::<(), LbError>(LbError::OutOfRange),
            self.in_domain(index as int) && self.has(index as int) ==> r is Ok,
            self.in_domain(index as int) && !self.has(index as int) ==> r == Err::<(), LbError>(
                LbError::BinArrayNotFound,
            ),
    {
        if self.has_array(index)? {
            Ok(())
        } else {
            Err(LbError::BinArrayNotFound)
        }
    }
}

} // verus!
