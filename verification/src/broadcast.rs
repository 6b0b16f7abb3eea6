//! The broadcast ring: one writer, many independent tail-following readers.
//!
//! The writer claims one sequence number per record and writes the record
//! into slot `seq & mask` under the seqlock protocol.  A reader adopts the
//! current write sequence as its cursor when it attaches — tail-follow — and
//! then drains forward.  A reader that falls more than a ring's worth behind
//! has lost slots to the writer: it fast-forwards to the oldest still-valid
//! sequence and counts the skipped publications in a monotonic overrun
//! counter.
//!
//! The writer keeps a ghost log of every record ever published.  The
//! well-formedness invariant ties each slot to the most recent publication
//! that landed on it, which is what makes the reader contracts exact: a
//! snapshot is always one prior `publish` argument, never a mixture.

use vstd::prelude::*;
use vstd::arithmetic::div_mod::{lemma_fundamental_div_mod, lemma_fundamental_div_mod_converse};
use crate::events::{TopOfBook, TOB_WIRE_BYTES, spec_tob_bytes};
use crate::layout::{RingHeader, RING_MAGIC, RING_VERSION, spec_header_valid};
use crate::ring::{RingConfig, is_pow2, seq_to_index, apply_overrun_policy};
use crate::seqlock::SeqlockSlot;

verus! {

/// Publications may not pass this bound, which keeps every counter in the
/// ring far from overflow.
pub const MAX_PUBLICATIONS: u64 = 0x4000_0000_0000_0000;

/// How many of the first `len` publications landed on slot `i` of a ring
/// with `cap` slots.
pub open spec fn spec_pub_count(len: int, cap: int, i: int) -> int {
    if 0 <= i < len {
        (len - 1 - i) / cap + 1
    } else {
        0
    }
}

/// The index of the most recent of the first `len` publications that landed
/// on slot `i` — what the slot holds after those publications.
pub open spec fn spec_last_pub(len: int, cap: int, i: int) -> int {
    i + cap * ((len - 1 - i) / cap)
}

/// The writer side of a broadcast ring.  It owns the ring storage; readers
/// borrow it.
pub struct BroadcastWriter {
    /// The ring header: magic, version, capacity, element size, and the
    /// write sequence counting published records.
    pub header: RingHeader,
    /// One seqlock slot per ring index.
    pub slots: Vec<SeqlockSlot>,
    /// Bitmask for index calculation: `capacity - 1`.
    pub mask: u64,
    /// The log of every record published so far, in publish order.
    pub published: Ghost<Seq<TopOfBook>>,
}

impl BroadcastWriter {
    /// Well-formedness: a valid header, one slot per index, every slot
    /// stable (even sequence) and holding the latest publication that
    /// landed on it.
    pub open spec fn wf(&self) -> bool {
        &&& spec_header_valid(self.header, TOB_WIRE_BYTES as u64)
        &&& self.slots@.len() == self.header.capacity
        &&& self.mask == (self.header.capacity - 1) as u64
        &&& self.header.write_seq == self.published@.len()
        &&& self.header.write_seq <= MAX_PUBLICATIONS
        &&& forall|i: int|
            0 <= i < self.slots@.len() ==> (#[trigger] self.slots@[i]).seq == 2 * spec_pub_count(
                self.published@.len() as int,
                self.header.capacity as int,
                i,
            )
        &&& forall|i: int|
            0 <= i < self.slots@.len() && i < self.published@.len() ==> (
            #[trigger] self.slots@[i]).data == self.published@[spec_last_pub(
                self.published@.len() as int,
                self.header.capacity as int,
                i,
            )]
    }

    /// Creates a ring with `cfg.capacity` clean slots and an empty log.
    pub fn create(cfg: RingConfig) -> (w: Self)
        requires
            is_pow2(cfg.capacity as u64),
        ensures
            w.wf(),
            w.header.capacity == cfg.capacity as u64,
            w.header.write_seq == 0,
            w.published@ == Seq::<TopOfBook>::empty(),
    {
        let header = RingHeader::new(
            RING_MAGIC,
            RING_VERSION,
            cfg.capacity as u64,
            TOB_WIRE_BYTES as u64,
        );
        let mut slots: Vec<SeqlockSlot> = Vec::new();
        let mut i: usize = 0;
        while i < cfg.capacity
            invariant
                slots@.len() == i,
                i <= cfg.capacity,
                forall|k: int| 0 <= k < i ==> (#[trigger] slots@[k]).seq == 0,
            decreases cfg.capacity - i,
        {
            let mut s = SeqlockSlot::new();
            s.init();
            slots.push(s);
            i = i + 1;
        }
        let mask = cfg.mask();
        BroadcastWriter { header, slots, mask, published: Ghost(Seq::empty()) }
    }

    /// Publishes one record: claims the next sequence number, bumps the
    /// write sequence, and writes the record into slot `seq & mask` under
    /// the seqlock protocol.  The log grows by exactly this record.
    pub fn publish(&mut self, value: TopOfBook)
        requires
            old(self).wf(),
            old(self).header.write_seq < MAX_PUBLICATIONS,
        ensures
            final(self).wf(),
            final(self).published@ == old(self).published@.push(value),
            final(self).header.write_seq == old(self).header.write_seq + 1,
            final(self).header.capacity == old(self).header.capacity,
            final(self).mask == old(self).mask,
    {
        let ghost len = self.published@.len() as int;
        let ghost cap = self.header.capacity as int;
        let seq = self.header.write_seq;
        self.header.write_seq = seq + 1;
        let idx = seq_to_index(seq, self.mask);
        proof {
            assert((self.mask + 1) as u64 == self.header.capacity);
            assert(idx as int == len % cap);
            lemma_pub_step(len, cap);
            lemma_pub_count_le_len(len, cap, idx as int);
            assert(idx < self.slots@.len());
            assert(self.slots@[idx as int].seq == 2 * spec_pub_count(len, cap, idx as int));
        }
        let nslots = self.slots.len();
        proof {
            assert(idx < nslots as u64);
            assert(idx as usize as int == idx as int);
        }
        let slot = &mut self.slots[idx as usize];
        slot.write(value);
        proof {
            self.published@ = self.published@.push(value);
            assert forall|i: int|
                0 <= i < self.slots@.len() implies (#[trigger] self.slots@[i]).seq == 2
                * spec_pub_count(len + 1, cap, i) by {
                if i != idx as int {
                    lemma_pub_step(len, cap);
                }
            }
            assert forall|i: int|
                0 <= i < self.slots@.len() && i < self.published@.len() implies (
            #[trigger] self.slots@[i]).data == self.published@[spec_last_pub(
                len + 1,
                cap,
                i,
            )] by {
                lemma_pub_step(len, cap);
                if i != idx as int && i < len {
                    lemma_last_pub_bounds(len, cap, i);
                }
            }
        }
    }
}

/// A division-free characterization: `spec_pub_count` never exceeds the
/// number of publications.
pub proof fn lemma_pub_count_le_len(len: int, cap: int, i: int)
    requires
        cap >= 1,
        len >= 0,
        0 <= i < cap,
    ensures
        0 <= spec_pub_count(len, cap, i) <= len,
{
    if i < len {
        let q = (len - 1 - i) / cap;
        lemma_fundamental_div_mod(len - 1 - i, cap);
        let r = (len - 1 - i) % cap;
        assert(len - 1 - i == q * cap + r);
        assert(q >= 0) by (nonlinear_arith)
            requires
                q * cap + r >= 0,
                0 <= r < cap,
                cap >= 1,
        ;
        assert(q <= q * cap) by (nonlinear_arith)
            requires
                q >= 0,
                cap >= 1,
        ;
    }
}

/// Bounds on the latest-publication index of a slot that has been hit.
pub proof fn lemma_last_pub_bounds(len: int, cap: int, i: int)
    requires
        cap >= 1,
        0 <= i < cap,
        i < len,
    ensures
        i <= spec_last_pub(len, cap, i) < len,
        spec_last_pub(len, cap, i) % cap == i,
{
    let q = (len - 1 - i) / cap;
    lemma_fundamental_div_mod(len - 1 - i, cap);
    let r = (len - 1 - i) % cap;
    assert(len - 1 - i == q * cap + r);
    assert(q >= 0) by (nonlinear_arith)
        requires
            q * cap + r >= 0,
            0 <= r < cap,
            cap >= 1,
    ;
    assert(cap * q <= q * cap + r) by (nonlinear_arith)
        requires
            q >= 0,
            r >= 0,
    ;
    lemma_fundamental_div_mod_converse(i + cap * q, cap, q, i);
}

/// How one publication changes the per-slot accounting: the claimed slot's
/// latest publication becomes the new record and its count grows by one;
/// every other slot is untouched.
pub proof fn lemma_pub_step(len: int, cap: int)
    requires
        cap >= 1,
        len >= 0,
    ensures
        spec_last_pub(len + 1, cap, len % cap) == len,
        spec_pub_count(len + 1, cap, len % cap) == spec_pub_count(len, cap, len % cap) + 1,
        forall|i: int|
            0 <= i < cap && i != len % cap ==> spec_pub_count(len + 1, cap, i) == spec_pub_count(
                len,
                cap,
                i,
            ),
        forall|i: int|
            0 <= i < cap && i != len % cap && i < len ==> spec_last_pub(len + 1, cap, i)
                == spec_last_pub(len, cap, i),
{
    let m = len % cap;
    let q = len / cap;
    lemma_fundamental_div_mod(len, cap);
    assert(len == q * cap + m);
    assert(q >= 0) by (nonlinear_arith)
        requires
            q * cap + m >= 0,
            0 <= m < cap,
            cap >= 1,
    ;
    // The claimed slot: len - m is an exact multiple of cap.
    lemma_fundamental_div_mod_converse(len - m, cap, q, 0);
    assert((len - m) / cap == q);
    assert(spec_last_pub(len + 1, cap, m) == m + cap * q);
    if m < len {
        // Its previous latest was one lap earlier.
        assert((q - 1) * cap == q * cap - cap) by (nonlinear_arith);
        lemma_fundamental_div_mod_converse(len - 1 - m, cap, q - 1, cap - 1);
        assert((len - 1 - m) / cap == q - 1);
    }
    assert forall|i: int|
        0 <= i < cap && i != m implies spec_pub_count(len + 1, cap, i) == spec_pub_count(
        len,
        cap,
        i,
    ) && (i < len ==> spec_last_pub(len + 1, cap, i) == spec_last_pub(len, cap, i)) by {
        if i < len {
            // len - i is not an exact multiple of cap, so the quotient of
            // len - i and of len - 1 - i agree.
            let qi = (len - 1 - i) / cap;
            let ri = (len - 1 - i) % cap;
            lemma_fundamental_div_mod(len - 1 - i, cap);
            assert(len - 1 - i == qi * cap + ri);
            assert(qi >= 0) by (nonlinear_arith)
                requires
                    qi * cap + ri >= 0,
                    0 <= ri < cap,
                    cap >= 1,
            ;
            if ri == cap - 1 {
                // Then len - i would be the multiple (qi + 1) * cap, making
                // i congruent to len modulo cap, which is excluded.
                assert((qi + 1) * cap == qi * cap + cap) by (nonlinear_arith);
                lemma_fundamental_div_mod_converse(len - i, cap, qi + 1, 0);
                assert((len - i) % cap == 0);
                lemma_mod_diff_zero(len, i, cap);
                assert(false);
            } else {
                lemma_fundamental_div_mod_converse(len - i, cap, qi, ri + 1);
                assert((len - i) / cap == qi);
            }
        } else {
            // i >= len and i != len % cap; since i < cap, slot i is first
            // hit at publication i itself, which is not yet published.
            if i == len {
                lemma_fundamental_div_mod_converse(len, cap, 0, len);
                assert(len % cap == len);
                assert(false);
            }
            assert(spec_pub_count(len + 1, cap, i) == 0);
        }
    }
}

/// If `a - b` is a multiple of `cap` with `0 <= b < cap`, then `b` is
/// exactly `a % cap`.
proof fn lemma_mod_diff_zero(a: int, b: int, cap: int)
    requires
        cap >= 1,
        0 <= b < cap,
        (a - b) % cap == 0,
        a >= b,
    ensures
        a % cap == b,
{
    let k = (a - b) / cap;
    lemma_fundamental_div_mod(a - b, cap);
    assert(a - b == cap * k);
    lemma_fundamental_div_mod_converse(a, cap, k, b);
}

/// The slot a recent publication landed on still holds it: for a cursor in
/// the live window, the slot's latest publication is the cursor itself.
pub proof fn lemma_last_pub_of_recent(len: int, cap: int, c: int)
    requires
        cap >= 1,
        0 <= c < len,
        len - cap <= c,
    ensures
        spec_last_pub(len, cap, c % cap) == c,
        0 <= c % cap < cap,
        (c % cap) < len,
{
    let i = c % cap;
    let qc = c / cap;
    lemma_fundamental_div_mod(c, cap);
    assert(c == qc * cap + i);
    assert(qc >= 0) by (nonlinear_arith)
        requires
            qc * cap + i >= 0,
            0 <= i < cap,
            cap >= 1,
    ;
    // len - 1 - i lies in [qc * cap, qc * cap + cap), so its quotient is qc.
    lemma_fundamental_div_mod_converse(len - 1 - i, cap, qc, len - 1 - i - qc * cap);
    assert((len - 1 - i) / cap == qc);
    assert(i <= c);
}

/// The reader side of a broadcast ring: an independent tail-follow cursor
/// with its own overrun counter.
pub struct BroadcastReader {
    /// Sequence number of the next record to read.
    pub read_seq: u64,
    /// Bitmask for index calculation, copied from the ring at attach.
    pub mask: u64,
    /// Ring capacity, copied from the ring at attach.
    pub capacity: u64,
    /// Total count of publications skipped over at overrun recoveries.
    pub overruns: u64,
}

/// A successful read step: from cursor state `pre`, a `try_read` against
/// `ring` observed publication `obs` and left the reader in `post`.  The
/// observed index is the cursor, fast-forwarded to the oldest still-valid
/// sequence when the reader had been lapped; the overrun counter grows by
/// exactly the skipped count.
pub open spec fn spec_read_observed(
    pre: BroadcastReader,
    post: BroadcastReader,
    ring: BroadcastWriter,
    obs: int,
) -> bool {
    let w = ring.header.write_seq as int;
    let cap = ring.header.capacity as int;
    let c = pre.read_seq as int;
    &&& c < w
    &&& obs == if w - c > cap {
        w - cap
    } else {
        c
    }
    &&& post.read_seq == obs + 1
    &&& post.overruns == pre.overruns + (obs - c)
    &&& post.mask == pre.mask
    &&& post.capacity == pre.capacity
}

impl BroadcastReader {
    /// Agreement with a ring: copied geometry, a cursor that never passes
    /// the writer, and an overrun count bounded by the consumed positions.
    pub open spec fn wf_for(&self, ring: &BroadcastWriter) -> bool {
        &&& ring.wf()
        &&& self.capacity == ring.header.capacity
        &&& self.mask == ring.mask
        &&& self.read_seq <= ring.header.write_seq
        &&& self.overruns <= self.read_seq
    }

    /// Attaches a reader to a ring in tail-follow mode: the header is
    /// validated, the cursor adopts the current write sequence — the reader
    /// only sees records published after attach — and the overrun count
    /// starts at zero.
    pub fn open(ring: &BroadcastWriter) -> (r: Result<Self, &'static str>)
        requires
            ring.wf(),
        ensures
            r.is_ok(),
            r matches Ok(rd) ==> {
                &&& rd.wf_for(ring)
                &&& rd.read_seq == ring.header.write_seq
                &&& rd.overruns == 0
            },
    {
        match ring.header.validate(TOB_WIRE_BYTES as u64) {
            Ok(_) => Ok(
                BroadcastReader {
                    read_seq: ring.header.write_seq,
                    mask: ring.mask,
                    capacity: ring.header.capacity,
                    overruns: 0,
                },
            ),
            Err(e) => Err(e),
        }
    }

    /// Attempts to read the next record.
    ///
    /// Returns `None` — and changes nothing — when the reader is caught up.
    /// Otherwise the cursor is fast-forwarded past an overrun if one
    /// happened, the skipped publications are added to the overrun counter,
    /// and the snapshot returned is exactly the publication at the cursor.
    pub fn try_read(&mut self, ring: &BroadcastWriter) -> (r: Option<TopOfBook>)
        requires
            old(self).wf_for(ring),
        ensures
            final(self).wf_for(ring),
            old(self).read_seq >= ring.header.write_seq ==> r is None && *final(self) == *old(
                self,
            ),
            old(self).read_seq < ring.header.write_seq ==> {
                let obs = final(self).read_seq - 1;
                &&& spec_read_observed(*old(self), *final(self), *ring, obs as int)
                &&& r == Some(ring.published@[obs as int])
            },
            final(self).overruns >= old(self).overruns,
            final(self).read_seq >= old(self).read_seq,
    {
        let w = ring.header.write_seq;

        // No new data available
        if self.read_seq >= w {
            return None;
        }

        // Overruns are rare: run recovery only when clearly behind.
        if w - self.read_seq > self.capacity {
            apply_overrun_policy(w, &mut self.read_seq, self.capacity, &mut self.overruns);
        }

        let ghost len = ring.published@.len() as int;
        let ghost cap = ring.header.capacity as int;
        let ghost c = self.read_seq as int;
        let idx = seq_to_index(self.read_seq, self.mask);
        proof {
            assert((self.mask + 1) as u64 == ring.header.capacity);
            lemma_last_pub_of_recent(len, cap, c);
            assert(idx as int == c % cap);
        }
        let nslots = ring.slots.len();
        proof {
            assert(idx < nslots as u64);
            assert(idx as usize as int == idx as int);
        }
        let slot = &ring.slots[idx as usize];
        let v = slot.read();
        proof {
            assert(v == ring.published@[c]);
        }
        self.read_seq = self.read_seq + 1;
        Some(v)
    }

    /// A hint that the next slot to be read be warmed in cache.  It has no
    /// semantic effect, and this model leaves it as the permitted no-op.
    #[inline(always)]
    pub fn prefetch_next(&self) {
    }

    /// Total count of publications lost to overruns since this reader
    /// attached.
    pub fn overruns(&self) -> (n: u64)
        ensures
            n == self.overruns,
    {
        self.overruns
    }
}

/// Law: any snapshot a reader can obtain is byte-for-byte a prior
/// `publish` argument — the slot for a readable cursor holds exactly the
/// publication that last landed there, so its wire form is that record's
/// encoding, never a mixture.
pub proof fn lemma_snapshot_byte_exact(ring: &BroadcastWriter, c: int)
    requires
        ring.wf(),
        0 <= c < ring.published@.len(),
        ring.published@.len() - ring.header.capacity <= c,
    ensures
        ring.slots@[c % ring.header.capacity as int].data == ring.published@[c],
        spec_tob_bytes(ring.slots@[c % ring.header.capacity as int].data) == spec_tob_bytes(
            ring.published@[c],
        ),
{
    let len = ring.published@.len() as int;
    let cap = ring.header.capacity as int;
    lemma_last_pub_of_recent(len, cap, c);
}

/// Law: a single reader's successful observations land on strictly
/// increasing publication indices — publish order, with gaps only at
/// overruns — and the overrun counter is monotone, growing by exactly the
/// count of publications skipped between two observations.
pub proof fn lemma_reads_follow_publish_order(
    r0: BroadcastReader,
    r1: BroadcastReader,
    r2: BroadcastReader,
    ring: BroadcastWriter,
    i: int,
    j: int,
)
    requires
        spec_read_observed(r0, r1, ring, i),
        spec_read_observed(r1, r2, ring, j),
    ensures
        i < j,
        j - i - 1 == r2.overruns - r1.overruns,
        r2.overruns == r1.overruns ==> j == i + 1,
        r1.overruns >= r0.overruns,
        r2.overruns >= r1.overruns,
{
}

/// Law: between publishes every slot's sequence counter is even — a stable
/// snapshot is available at every index whenever no write is in progress.
pub proof fn lemma_slots_stable(ring: &BroadcastWriter, i: int)
    requires
        ring.wf(),
        0 <= i < ring.slots@.len(),
    ensures
        ring.slots@[i].seq % 2 == 0,
{
}

} // verus!
