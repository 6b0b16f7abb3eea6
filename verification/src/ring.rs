//! Ring buffer configuration and index arithmetic.
//!
//! The foundational primitives for power-of-two rings: capacity validation,
//! sequence-to-index mapping by bitmask, and overrun detection and recovery
//! for slow readers.

use vstd::prelude::*;
use vstd::arithmetic::power2::{pow2, lemma_pow2_unfold, lemma_pow2_strictly_increases, lemma2_to64};
use vstd::bits::{low_bits_mask, lemma_u64_low_bits_mask_is_mod};

verus! {

/// Holds exactly when `c` is a nonzero power of two.
pub open spec fn is_pow2(c: u64) -> bool {
    c != 0 && (c & (c - 1) as u64) == 0
}

/// Configuration for a ring buffer.
///
/// The capacity must be a power of two, so that indices can be computed with
/// a bitmask instead of a modulo.
#[derive(Debug, Copy, Clone)]
pub struct RingConfig {
    /// Number of slots in the ring.  Always a power of two.
    pub capacity: usize,
}

impl RingConfig {
    /// Creates a new ring configuration with the given capacity.
    pub fn new(capacity: usize) -> (cfg: Self)
        requires
            is_pow2(capacity as u64),
        ensures
            cfg.capacity == capacity,
    {
        Self { capacity }
    }

    /// Returns the bitmask for index calculation: `capacity - 1`, which has
    /// all lower bits set, so `seq & mask` equals `seq % capacity`.
    #[inline(always)]
    pub fn mask(&self) -> (m: u64)
        requires
            is_pow2(self.capacity as u64),
        ensures
            m == (self.capacity - 1) as u64,
    {
        (self.capacity as u64) - 1
    }
}

/// Converts a sequence number to a ring array index: `seq & mask` equals
/// `seq % capacity` because the capacity is a power of two.
#[inline(always)]
pub fn seq_to_index(seq: u64, mask: u64) -> (idx: u64)
    requires
        mask < u64::MAX,
        is_pow2((mask + 1) as u64),
    ensures
        idx == seq % ((mask + 1) as u64),
        idx <= mask,
{
    proof {
        lemma_pow2_mask_is_mod(seq, (mask + 1) as u64);
    }
    seq & mask
}

/// A nonzero power of two is `pow2(n)` for exactly one exponent below 64.
pub proof fn lemma_pow2_exponent(c: u64) -> (n: nat)
    requires
        is_pow2(c),
    ensures
        n < 64,
        c == pow2(n),
    decreases c,
{
    lemma2_to64();
    if c == 1 {
        0
    } else {
        assert(c % 2 == 0 && (c / 2) != 0 && ((c / 2) & ((c / 2) - 1) as u64) == 0)
            by (bit_vector)
            requires
                c != 0 && c != 1 && (c & (c - 1) as u64) == 0,
        ;
        let m = lemma_pow2_exponent(c / 2);
        lemma_pow2_unfold(m + 1);
        if m + 1 >= 64 {
            lemma_pow2_strictly_increases(63, m + 1);
        }
        m + 1
    }
}

/// For a nonzero power of two `c`, masking with `c - 1` is reduction mod `c`.
pub proof fn lemma_pow2_mask_is_mod(x: u64, c: u64)
    requires
        is_pow2(c),
    ensures
        x & (c - 1) as u64 == x % c,
        x % c <= (c - 1) as u64,
{
    let n = lemma_pow2_exponent(c);
    lemma_u64_low_bits_mask_is_mod(x, n);
    assert((c - 1) as u64 == low_bits_mask(n) as u64);
}

/// Detects and recovers from a reader overrun.
///
/// An overrun occurs when the writer has lapped the reader: the reader is
/// more than `capacity` sequences behind, so the slots between its cursor and
/// the oldest still-valid sequence have been overwritten.  Recovery
/// fast-forwards the cursor to `write_seq - capacity` and adds the number of
/// skipped sequences to the overrun counter, so that callers can quantify the
/// loss.  When the reader is at most `capacity` behind, nothing changes.
#[inline(always)]
pub fn apply_overrun_policy(write_seq: u64, read_seq: &mut u64, capacity: u64, overruns: &mut u64)
    requires
        *old(overruns) + write_seq <= u64::MAX,
    ensures
        write_seq > *old(read_seq) && write_seq - *old(read_seq) > capacity ==> {
            &&& *final(read_seq) == write_seq - capacity
            &&& *final(overruns) == *old(overruns) + (write_seq - *old(read_seq) - capacity)
        },
        !(write_seq > *old(read_seq) && write_seq - *old(read_seq) > capacity) ==> {
            &&& *final(read_seq) == *old(read_seq)
            &&& *final(overruns) == *old(overruns)
        },
        *final(read_seq) >= *old(read_seq),
        *final(overruns) >= *old(overruns),
{
    // saturating_sub keeps a reader that is somehow ahead from underflowing
    let behind = if write_seq >= *read_seq { write_seq - *read_seq } else { 0 };
    if behind > capacity {
        // Count the publications that can no longer be read...
        *overruns = *overruns + (behind - capacity);
        // ...and jump to the oldest still-valid sequence.
        *read_seq = write_seq - capacity;
    }
}

} // verus!
