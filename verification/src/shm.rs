//! The broadcast ring over a shared memory-mapped region.
//!
//! The writer owns a read-write mapping of the ring file and keeps its
//! image a valid ring at every step: the 64-byte header first, then one
//! 64-byte slot per index, each holding an even sequence counter and the
//! wire form of the last record published there.  Readers in other
//! processes hold read-only mappings of the same file; from this process's
//! point of view a read-only mapping's bytes can change at any moment, so
//! the reader contracts state only what holds of every loaded value.
//!
//! One writer per ring: the write-side contracts describe the mapping as
//! this single writer's exclusive image, which is the arrangement the rest
//! of the fabric assumes.

use vstd::prelude::*;
use vstd::bytes::{
    spec_u64_to_le_bytes, u64_to_le_bytes, u64_from_le_bytes,
    lemma_auto_spec_u64_to_from_le_bytes,
};
use crate::events::{TopOfBook, TOB_WIRE_BYTES, spec_tob_bytes, spec_tob_of_bytes, tob_to_bytes,
    tob_from_bytes, lemma_tob_codec_round_trip, lemma_tob_codec_surjective};
use crate::layout::{RingHeader, RING_MAGIC, RING_VERSION, HEADER_BYTES, SLOT_BYTES,
    WRITE_SEQ_OFFSET, spec_header_of_bytes, spec_header_bytes, spec_header_valid, header_to_bytes,
    header_from_bytes, bytes_for_ring, lemma_header_codec_round_trip};
use crate::ring::{RingConfig, is_pow2, seq_to_index};
use crate::broadcast::{MAX_PUBLICATIONS, spec_pub_count, spec_last_pub, lemma_pub_step,
    lemma_pub_count_le_len, lemma_last_pub_bounds};
use vstd::arithmetic::div_mod::lemma_fundamental_div_mod;

verus! {

/// The read-write mapping type of the memmap2 crate, as an opaque value.
#[verifier::external_type_specification]
#[verifier::external_body]
pub struct ExMmapMut(memmap2::MmapMut);

/// The read-only mapping type of the memmap2 crate, as an opaque value.
#[verifier::external_type_specification]
#[verifier::external_body]
pub struct ExMmap(memmap2::Mmap);

/// The bytes of a read-write mapping, as its single writer sees them.
pub uninterp spec fn mm_bytes(mm: memmap2::MmapMut) -> Seq<u8>;

/// The length of a read-only mapping, fixed when the mapping is made.
pub uninterp spec fn ro_len(mm: memmap2::Mmap) -> nat;

/// Relies on MmapMut's Deref to `[u8]`: the mapping's length in bytes.
#[verifier::external_body]
fn mm_len(mm: &memmap2::MmapMut) -> (n: usize)
    ensures
        n == mm_bytes(*mm).len(),
{
    mm.len()
}

/// A byte region with `src` written at offset `off`.
pub open spec fn spec_splice(region: Seq<u8>, off: int, src: Seq<u8>) -> Seq<u8> {
    region.subrange(0, off) + src + region.subrange(off + src.len(), region.len() as int)
}

/// Relies on MmapMut's DerefMut to `[u8]` and the slice copy: the bytes of
/// `src` replace the bytes at `off`, and nothing else moves.  This
/// describes the mapping as its one writer's exclusive image.
#[verifier::external_body]
fn mm_store_bytes(mm: &mut memmap2::MmapMut, off: usize, src: &[u8])
    requires
        off + src@.len() <= mm_bytes(*old(mm)).len(),
    ensures
        mm_bytes(*final(mm)) == spec_splice(mm_bytes(*old(mm)), off as int, src@),
{
    mm[off..off + src.len()].copy_from_slice(src);
}

/// Relies on MmapMut's Deref to `[u8]`: a copy of the `n` bytes at `off`
/// of the one writer's exclusive image.
#[verifier::external_body]
fn mm_read_bytes(mm: &memmap2::MmapMut, off: usize, n: usize) -> (out: Vec<u8>)
    requires
        off + n <= mm_bytes(*mm).len(),
    ensures
        out@ == mm_bytes(*mm).subrange(off as int, off as int + n as int),
{
    mm[off..off + n].to_vec()
}

/// Relies on Mmap's Deref to `[u8]`: the mapping's length in bytes.
#[verifier::external_body]
fn ro_mm_len(mm: &memmap2::Mmap) -> (n: usize)
    ensures
        n == ro_len(*mm),
{
    mm.len()
}

/// Relies on Mmap's Deref to `[u8]`: a copy of the `n` bytes at `off`.
/// The mapping is shared with a live writer in another process, so only
/// the length of the copy is stated; the values can be anything.
#[verifier::external_body]
fn ro_read_bytes(mm: &memmap2::Mmap, off: usize, n: usize) -> (out: Vec<u8>)
    requires
        off + n <= ro_len(*mm),
    ensures
        out@.len() == n,
{
    mm[off..off + n].to_vec()
}

/// Splicing changes exactly the spliced range.
proof fn lemma_splice_len(region: Seq<u8>, off: int, src: Seq<u8>)
    requires
        0 <= off,
        off + src.len() <= region.len(),
    ensures
        spec_splice(region, off, src).len() == region.len(),
        spec_splice(region, off, src).subrange(off, off + src.len() as int) == src,
{
    assert(spec_splice(region, off, src).subrange(off, off + src.len() as int) =~= src);
}

/// Splicing leaves a disjoint range untouched.
proof fn lemma_splice_disjoint(region: Seq<u8>, off: int, src: Seq<u8>, a: int, b: int)
    requires
        0 <= off,
        off + src.len() <= region.len(),
        0 <= a <= b <= region.len(),
        b <= off || off + src.len() <= a,
    ensures
        spec_splice(region, off, src).subrange(a, b) == region.subrange(a, b),
{
    assert(spec_splice(region, off, src).subrange(a, b) =~= region.subrange(a, b));
}

/// Byte offset of slot `i`.
pub open spec fn spec_slot_off(i: int) -> int {
    HEADER_BYTES + i * SLOT_BYTES
}

/// Distinct slots occupy disjoint 64-byte ranges past the header.
proof fn lemma_slot_off_disjoint(i: int, j: int)
    requires
        0 <= i,
        0 <= j,
        i != j,
    ensures
        spec_slot_off(i) + SLOT_BYTES <= spec_slot_off(j) || spec_slot_off(j) + SLOT_BYTES
            <= spec_slot_off(i),
        spec_slot_off(i) >= HEADER_BYTES,
{
    if i < j {
        assert((i + 1) * SLOT_BYTES <= j * SLOT_BYTES) by (nonlinear_arith)
            requires
                i + 1 <= j,
        ;
    } else {
        assert((j + 1) * SLOT_BYTES <= i * SLOT_BYTES) by (nonlinear_arith)
            requires
                j + 1 <= i,
        ;
    }
    assert(i * SLOT_BYTES >= 0) by (nonlinear_arith)
        requires
            i >= 0,
    ;
}

/// A slot's range lies inside a region sized for `cap` slots.
proof fn lemma_slot_off_in_bounds(i: int, cap: int)
    requires
        0 <= i < cap,
    ensures
        HEADER_BYTES <= spec_slot_off(i),
        spec_slot_off(i) + SLOT_BYTES <= HEADER_BYTES + cap * SLOT_BYTES,
{
    assert(i * SLOT_BYTES >= 0 && (i + 1) * SLOT_BYTES <= cap * SLOT_BYTES) by (nonlinear_arith)
        requires
            0 <= i < cap,
    ;
}

/// The writer side of a shared-memory broadcast ring: the single writer of
/// its mapped region.
pub struct ShmWriter {
    /// The read-write mapping of the ring file.
    pub region: memmap2::MmapMut,
    /// Ring capacity in slots: a power of two.
    pub capacity: u64,
    /// Bitmask for index calculation: `capacity - 1`.
    pub mask: u64,
    /// Count of records published through this ring.
    pub write_seq: u64,
    /// The log of every record published, in publish order.
    pub published: Ghost<Seq<TopOfBook>>,
}

impl ShmWriter {
    /// The region bytes this writer maintains.
    pub open spec fn region_bytes(&self) -> Seq<u8> {
        mm_bytes(self.region)
    }

    /// The header this ring's image must carry.
    pub open spec fn spec_header(&self) -> RingHeader {
        RingHeader {
            magic: RING_MAGIC,
            version: RING_VERSION,
            capacity: self.capacity,
            elem_size: TOB_WIRE_BYTES as u64,
            write_seq: self.write_seq,
        }
    }

    /// Well-formedness: the mapped image is a valid ring — correct header,
    /// one even-countered slot per index, and each hit slot holding the
    /// wire form of the last record published to it.
    pub open spec fn wf(&self) -> bool {
        let region = self.region_bytes();
        let cap = self.capacity as int;
        let len = self.published@.len() as int;
        &&& is_pow2(self.capacity)
        &&& self.mask == (self.capacity - 1) as u64
        &&& self.write_seq == len
        &&& self.write_seq <= MAX_PUBLICATIONS
        &&& HEADER_BYTES + cap * SLOT_BYTES <= usize::MAX
        &&& region.len() == HEADER_BYTES + cap * SLOT_BYTES
        &&& spec_header_of_bytes(region.subrange(0, HEADER_BYTES as int)) == self.spec_header()
        &&& forall|i: int|
            0 <= i < cap ==> region.subrange(
                #[trigger] spec_slot_off(i),
                spec_slot_off(i) + 8,
            ) == spec_u64_to_le_bytes(((2 * spec_pub_count(len, cap, i)) as u64))
        &&& forall|i: int|
            0 <= i < cap && i < len ==> region.subrange(
                #[trigger] spec_slot_off(i) + 8,
                spec_slot_off(i) + 8 + TOB_WIRE_BYTES,
            ) == spec_tob_bytes(self.published@[spec_last_pub(len, cap, i)])
    }

    /// Initializes a freshly mapped region as an empty ring: the header is
    /// written at offset zero and every slot's sequence counter is set to
    /// zero.  Succeeds exactly when the mapping has the ring's size.
    pub fn create_in(mm: memmap2::MmapMut, cfg: RingConfig) -> (r: Result<ShmWriter, &'static str>)
        requires
            is_pow2(cfg.capacity as u64),
        ensures
            r.is_ok() <==> mm_bytes(mm).len() == HEADER_BYTES + cfg.capacity * SLOT_BYTES,
            r matches Ok(w) ==> {
                &&& w.wf()
                &&& w.capacity == cfg.capacity as u64
                &&& w.write_seq == 0
                &&& w.published@ == Seq::<TopOfBook>::empty()
            },
    {
        let mut mm = mm;
        let n = mm_len(&mm);
        if cfg.capacity > (usize::MAX - HEADER_BYTES) / SLOT_BYTES {
            proof {
                let bound = (usize::MAX - HEADER_BYTES) as int / SLOT_BYTES as int;
                lemma_fundamental_div_mod(usize::MAX - HEADER_BYTES, SLOT_BYTES as int);
                assert((bound + 1) * SLOT_BYTES > usize::MAX - HEADER_BYTES) by (nonlinear_arith)
                    requires
                        usize::MAX - HEADER_BYTES == bound * SLOT_BYTES + (usize::MAX
                            - HEADER_BYTES) % (SLOT_BYTES as int),
                        (usize::MAX - HEADER_BYTES) % (SLOT_BYTES as int) < SLOT_BYTES,
                ;
                assert(cfg.capacity * SLOT_BYTES >= (bound + 1) * SLOT_BYTES) by (nonlinear_arith)
                    requires
                        cfg.capacity >= bound + 1,
                ;
            }
            return Err("Region size mismatch");
        }
        let need = bytes_for_ring(cfg.capacity);
        if n != need {
            return Err("Region size mismatch");
        }
        let capacity = cfg.capacity as u64;
        let ghost cap = capacity as int;

        let header = RingHeader::new(RING_MAGIC, RING_VERSION, capacity, TOB_WIRE_BYTES as u64);
        let hbytes = header_to_bytes(&header);
        let ghost region0 = mm_bytes(mm);
        mm_store_bytes(&mut mm, 0, hbytes.as_slice());
        proof {
            lemma_splice_len(region0, 0, hbytes@);
            assert(mm_bytes(mm).subrange(0, HEADER_BYTES as int) == hbytes@);
            lemma_header_codec_round_trip(header);
        }

        let zero = u64_to_le_bytes(0);
        let mut i: usize = 0;
        while i < cfg.capacity
            invariant
                i <= cfg.capacity,
                cap == cfg.capacity,
                cfg.capacity as int <= (usize::MAX - HEADER_BYTES) as int / SLOT_BYTES as int,
                zero@ == spec_u64_to_le_bytes(0),
                zero@.len() == 8,
                mm_bytes(mm).len() == HEADER_BYTES + cap * SLOT_BYTES,
                HEADER_BYTES + cap * SLOT_BYTES <= usize::MAX,
                mm_bytes(mm).subrange(0, HEADER_BYTES as int) == spec_header_bytes(
                    RingHeader {
                        magic: RING_MAGIC,
                        version: RING_VERSION,
                        capacity: capacity,
                        elem_size: TOB_WIRE_BYTES as u64,
                        write_seq: 0,
                    },
                ),
                forall|k: int|
                    0 <= k < i ==> mm_bytes(mm).subrange(
                        #[trigger] spec_slot_off(k),
                        spec_slot_off(k) + 8,
                    ) == spec_u64_to_le_bytes(0),
            decreases cfg.capacity - i,
        {
            proof {
                lemma_slot_off_in_bounds(i as int, cap);
                assert(i * SLOT_BYTES == spec_slot_off(i as int) - HEADER_BYTES);
            }
            let off = HEADER_BYTES + i * SLOT_BYTES;
            let ghost pre = mm_bytes(mm);
            mm_store_bytes(&mut mm, off, zero.as_slice());
            proof {
                lemma_splice_len(pre, off as int, zero@);
                lemma_splice_disjoint(pre, off as int, zero@, 0, HEADER_BYTES as int);
                assert forall|k: int|
                    0 <= k < i + 1 implies mm_bytes(mm).subrange(
                        #[trigger] spec_slot_off(k),
                        spec_slot_off(k) + 8,
                    ) == spec_u64_to_le_bytes(0) by {
                    lemma_slot_off_in_bounds(k, cap);
                    if k < i {
                        lemma_slot_off_disjoint(k, i as int);
                        lemma_splice_disjoint(
                            pre,
                            off as int,
                            zero@,
                            spec_slot_off(k),
                            spec_slot_off(k) + 8,
                        );
                    } else {
                        assert(mm_bytes(mm).subrange(off as int, off as int + 8) =~= mm_bytes(
                            mm,
                        ).subrange(off as int, off as int + zero@.len()));
                    }
                }
            }
            i = i + 1;
        }

        let w = ShmWriter {
            region: mm,
            capacity,
            mask: capacity - 1,
            write_seq: 0,
            published: Ghost(Seq::empty()),
        };
        proof {
            lemma_header_codec_round_trip(w.spec_header());
        }
        Ok(w)
    }

    /// Publishes one record: the header's write sequence advances, and the
    /// record's wire form is written into slot `seq & mask` under the
    /// seqlock protocol — counter odd, payload bytes, counter even.  The
    /// claimed slot ends up holding the record byte for byte.
    pub fn publish(&mut self, value: TopOfBook)
        requires
            old(self).wf(),
            old(self).write_seq < MAX_PUBLICATIONS,
        ensures
            final(self).wf(),
            final(self).published@ == old(self).published@.push(value),
            final(self).write_seq == old(self).write_seq + 1,
            final(self).capacity == old(self).capacity,
            final(self).mask == old(self).mask,
            final(self).region_bytes().subrange(
                spec_slot_off(old(self).write_seq as int % old(self).capacity as int) + 8,
                spec_slot_off(old(self).write_seq as int % old(self).capacity as int) + 8
                    + TOB_WIRE_BYTES,
            ) == spec_tob_bytes(value),
    {
        let ghost len = self.published@.len() as int;
        let ghost cap = self.capacity as int;
        proof {
            lemma_auto_spec_u64_to_from_le_bytes();
            assert(cap * SLOT_BYTES >= 1 * SLOT_BYTES) by (nonlinear_arith)
                requires
                    cap >= 1,
            ;
        }
        let seq = self.write_seq;
        self.write_seq = seq + 1;

        // Advance the header's write sequence.
        let ws_bytes = u64_to_le_bytes(seq + 1);
        let ghost region0 = mm_bytes(self.region);
        mm_store_bytes(&mut self.region, WRITE_SEQ_OFFSET, ws_bytes.as_slice());
        let ghost region1 = mm_bytes(self.region);
        proof {
            lemma_splice_len(region0, WRITE_SEQ_OFFSET as int, ws_bytes@);
            lemma_header_update_write_seq(region0, region1, (seq + 1) as u64, self.spec_header());
        }

        // Claim the slot and run the seqlock write protocol on it.
        let idx = seq_to_index(seq, self.mask);
        proof {
            assert((self.mask + 1) as u64 == self.capacity);
            assert(idx as int == len % cap);
            lemma_slot_off_in_bounds(idx as int, cap);
            assert(idx as usize as int == idx as int) by {
                assert(1 * SLOT_BYTES <= cap * SLOT_BYTES) by (nonlinear_arith)
                    requires
                        cap >= 1,
                ;
                assert(idx * SLOT_BYTES <= cap * SLOT_BYTES) by (nonlinear_arith)
                    requires
                        idx <= cap,
                ;
            }
            assert((idx as usize) * SLOT_BYTES == spec_slot_off(idx as int) - HEADER_BYTES);
            lemma_splice_disjoint(
                region0,
                WRITE_SEQ_OFFSET as int,
                ws_bytes@,
                spec_slot_off(idx as int),
                spec_slot_off(idx as int) + 8,
            );
            lemma_pub_step(len, cap);
            lemma_pub_count_le_len(len, cap, idx as int);
        }
        let off = HEADER_BYTES + (idx as usize) * SLOT_BYTES;
        let seq_bytes = mm_read_bytes(&self.region, off, 8);
        let s0 = u64_from_le_bytes(seq_bytes.as_slice());
        proof {
            assert(s0 == (2 * spec_pub_count(len, cap, idx as int)) as u64);
        }

        // Mark write-in-progress (odd sequence number).
        let odd = u64_to_le_bytes(s0 + 1);
        mm_store_bytes(&mut self.region, off, odd.as_slice());
        let ghost region2 = mm_bytes(self.region);
        // Copy the record's wire form into the slot.
        let payload = tob_to_bytes(&value);
        mm_store_bytes(&mut self.region, off + 8, payload.as_slice());
        let ghost region3 = mm_bytes(self.region);
        // Mark write-complete (even sequence number).
        let even = u64_to_le_bytes(s0 + 2);
        mm_store_bytes(&mut self.region, off, even.as_slice());
        let ghost region4 = mm_bytes(self.region);

        proof {
            self.published@ = self.published@.push(value);
            let so = spec_slot_off(idx as int);
            lemma_splice_len(region1, so, odd@);
            lemma_splice_len(region2, so + 8, payload@);
            lemma_splice_len(region3, so, even@);
            lemma_tob_codec_round_trip(value);

            // The header is untouched by the three slot stores.
            lemma_splice_disjoint(region1, so, odd@, 0, HEADER_BYTES as int);
            lemma_splice_disjoint(region2, so + 8, payload@, 0, HEADER_BYTES as int);
            lemma_splice_disjoint(region3, so, even@, 0, HEADER_BYTES as int);

            // The claimed slot holds the even counter and the payload.
            lemma_splice_disjoint(region2, so + 8, payload@, so, so + 8);
            lemma_splice_disjoint(region3, so, even@, so + 8, so + 8 + TOB_WIRE_BYTES);
            assert(region4.subrange(so, so + 8) == even@);
            assert(region4.subrange(so + 8, so + 8 + TOB_WIRE_BYTES) == payload@);

            // Every other slot is untouched by all four stores.
            assert forall|i: int|
                0 <= i < cap && i != idx as int implies region4.subrange(
                    #[trigger] spec_slot_off(i),
                    spec_slot_off(i) + 8,
                ) == region0.subrange(spec_slot_off(i), spec_slot_off(i) + 8) && region4.subrange(
                    spec_slot_off(i) + 8,
                    spec_slot_off(i) + 8 + TOB_WIRE_BYTES,
                ) == region0.subrange(
                    spec_slot_off(i) + 8,
                    spec_slot_off(i) + 8 + TOB_WIRE_BYTES,
                ) by {
                lemma_slot_off_in_bounds(i, cap);
                lemma_slot_off_disjoint(i, idx as int);
                let a1 = spec_slot_off(i);
                let b1 = spec_slot_off(i) + 8;
                let a2 = spec_slot_off(i) + 8;
                let b2 = spec_slot_off(i) + 8 + TOB_WIRE_BYTES;
                lemma_splice_disjoint(region0, WRITE_SEQ_OFFSET as int, ws_bytes@, a1, b1);
                lemma_splice_disjoint(region0, WRITE_SEQ_OFFSET as int, ws_bytes@, a2, b2);
                lemma_splice_disjoint(region1, so, odd@, a1, b1);
                lemma_splice_disjoint(region1, so, odd@, a2, b2);
                lemma_splice_disjoint(region2, so + 8, payload@, a1, b1);
                lemma_splice_disjoint(region2, so + 8, payload@, a2, b2);
                lemma_splice_disjoint(region3, so, even@, a1, b1);
                lemma_splice_disjoint(region3, so, even@, a2, b2);
            }

            // Re-establish the per-slot picture for the new log.
            assert forall|i: int|
                0 <= i < cap implies region4.subrange(
                    #[trigger] spec_slot_off(i),
                    spec_slot_off(i) + 8,
                ) == spec_u64_to_le_bytes(((2 * spec_pub_count(len + 1, cap, i)) as u64)) by {
                if i == idx as int {
                    assert(s0 + 2 == (2 * spec_pub_count(len + 1, cap, i)) as u64);
                } else {
                    lemma_pub_step(len, cap);
                }
            }
            assert forall|i: int|
                0 <= i < cap && i < len + 1 implies region4.subrange(
                    #[trigger] spec_slot_off(i) + 8,
                    spec_slot_off(i) + 8 + TOB_WIRE_BYTES,
                ) == spec_tob_bytes(self.published@[spec_last_pub(len + 1, cap, i)]) by {
                lemma_pub_step(len, cap);
                if i != idx as int && i < len {
                    lemma_last_pub_bounds(len, cap, i);
                }
            }
        }
    }
}

/// Holds of region images that are a live ring: a valid header, the exact
/// ring size, a write sequence in range, and every slot's counter at twice
/// its publication count — even, so stable.
pub open spec fn spec_ring_image(region: Seq<u8>) -> bool {
    let h = spec_header_of_bytes(region.subrange(0, HEADER_BYTES as int));
    &&& region.len() >= HEADER_BYTES
    &&& spec_header_valid(h, TOB_WIRE_BYTES as u64)
    &&& h.write_seq <= MAX_PUBLICATIONS
    &&& HEADER_BYTES + h.capacity * SLOT_BYTES <= usize::MAX
    &&& region.len() == HEADER_BYTES + h.capacity * SLOT_BYTES
    &&& forall|i: int|
        0 <= i < h.capacity ==> region.subrange(
            #[trigger] spec_slot_off(i),
            spec_slot_off(i) + 8,
        ) == spec_u64_to_le_bytes(
            ((2 * spec_pub_count(h.write_seq as int, h.capacity as int, i)) as u64),
        )
}

impl ShmWriter {
    /// Attaches this process's writer to an existing ring image, reading
    /// the header back, validating it, and adopting its write sequence.
    /// Succeeds exactly on live ring images, and relies on the one-writer
    /// arrangement: the image becomes this writer's exclusive continuation.
    pub fn open_in(mm: memmap2::MmapMut) -> (r: Result<ShmWriter, &'static str>)
        ensures
            r.is_ok() <==> spec_ring_image(mm_bytes(mm)),
            r matches Ok(w) ==> {
                &&& w.wf()
                &&& mm_bytes(w.region) == mm_bytes(mm)
                &&& w.capacity == spec_header_of_bytes(
                    mm_bytes(mm).subrange(0, HEADER_BYTES as int),
                ).capacity
                &&& w.write_seq == spec_header_of_bytes(
                    mm_bytes(mm).subrange(0, HEADER_BYTES as int),
                ).write_seq
            },
    {
        let ghost region = mm_bytes(mm);
        proof {
            lemma_auto_spec_u64_to_from_le_bytes();
        }
        let n = mm_len(&mm);
        if n < HEADER_BYTES {
            return Err("Region size mismatch");
        }
        let hb = mm_read_bytes(&mm, 0, HEADER_BYTES);
        let h = header_from_bytes(hb.as_slice());
        proof {
            assert(hb@.subrange(0, HEADER_BYTES as int) =~= region.subrange(
                0,
                HEADER_BYTES as int,
            ));
        }
        match h.validate(TOB_WIRE_BYTES as u64) {
            Ok(_) => {},
            Err(e) => {
                return Err(e);
            },
        }
        if h.write_seq > MAX_PUBLICATIONS {
            return Err("Write sequence out of range");
        }
        if h.capacity > ((usize::MAX - HEADER_BYTES) / SLOT_BYTES) as u64 {
            proof {
                let bound = (usize::MAX - HEADER_BYTES) as int / SLOT_BYTES as int;
                lemma_fundamental_div_mod(usize::MAX - HEADER_BYTES, SLOT_BYTES as int);
                assert((bound + 1) * SLOT_BYTES > usize::MAX - HEADER_BYTES) by (nonlinear_arith)
                    requires
                        usize::MAX - HEADER_BYTES == bound * SLOT_BYTES + (usize::MAX
                            - HEADER_BYTES) % (SLOT_BYTES as int),
                        (usize::MAX - HEADER_BYTES) % (SLOT_BYTES as int) < SLOT_BYTES,
                ;
                assert(h.capacity * SLOT_BYTES >= (bound + 1) * SLOT_BYTES) by (nonlinear_arith)
                    requires
                        h.capacity >= bound + 1,
                ;
            }
            return Err("Region size mismatch");
        }
        let need = bytes_for_ring(h.capacity as usize);
        if n != need {
            return Err("Region size mismatch");
        }
        let ghost cap = h.capacity as int;
        let ghost ws = h.write_seq as int;

        // Check that every slot's counter reads as stable and consistent
        // with the adopted write sequence.
        let mut i: u64 = 0;
        while i < h.capacity
            invariant
                i <= h.capacity,
                cap == h.capacity,
                ws == h.write_seq,
                h.write_seq <= MAX_PUBLICATIONS,
                is_pow2(h.capacity),
                mm_bytes(mm) == region,
                h == spec_header_of_bytes(region.subrange(0, HEADER_BYTES as int)),
                region.len() == HEADER_BYTES + cap * SLOT_BYTES,
                HEADER_BYTES + cap * SLOT_BYTES <= usize::MAX,
                forall|k: int|
                    0 <= k < i ==> region.subrange(
                        #[trigger] spec_slot_off(k),
                        spec_slot_off(k) + 8,
                    ) == spec_u64_to_le_bytes(((2 * spec_pub_count(ws, cap, k)) as u64)),
            decreases h.capacity - i,
        {
            proof {
                lemma_slot_off_in_bounds(i as int, cap);
                lemma_pub_count_le_len(ws, cap, i as int);
                assert((i as usize) * SLOT_BYTES == spec_slot_off(i as int) - HEADER_BYTES);
                lemma_auto_spec_u64_to_from_le_bytes();
            }
            let expected: u64 = if i < h.write_seq {
                ((h.write_seq - 1 - i) / h.capacity + 1) * 2
            } else {
                0
            };
            proof {
                if i < h.write_seq {
                    assert(expected == (2 * spec_pub_count(ws, cap, i as int)) as u64);
                } else {
                    assert(spec_pub_count(ws, cap, i as int) == 0);
                }
            }
            let off = HEADER_BYTES + (i as usize) * SLOT_BYTES;
            let sb = mm_read_bytes(&mm, off, 8);
            let s = u64_from_le_bytes(sb.as_slice());
            if s != expected {
                proof {
                    assert(sb@ == region.subrange(spec_slot_off(i as int), spec_slot_off(
                        i as int,
                    ) + 8));
                    assert(expected == ((2 * spec_pub_count(ws, cap, i as int)) as u64));
                    assert(region.subrange(spec_slot_off(i as int), spec_slot_off(i as int) + 8)
                        != spec_u64_to_le_bytes(((2 * spec_pub_count(ws, cap, i as int)) as u64)));
                    assert(!spec_ring_image(mm_bytes(mm)));
                }
                return Err("Slot sequence out of range");
            }
            proof {
                assert(region.subrange(spec_slot_off(i as int), spec_slot_off(i as int) + 8)
                    =~= sb@);
            }
            i = i + 1;
        }

        // Adopt a log consistent with the image: each slot already holds
        // the wire form of the record it denotes.
        let ghost log = Seq::new(
            ws as nat,
            |j: int|
                spec_tob_of_bytes(
                    region.subrange(
                        spec_slot_off(j % cap) + 8,
                        spec_slot_off(j % cap) + 8 + TOB_WIRE_BYTES,
                    ),
                ),
        );
        let w = ShmWriter {
            region: mm,
            capacity: h.capacity,
            mask: h.capacity - 1,
            write_seq: h.write_seq,
            published: Ghost(log),
        };
        proof {
            assert forall|i2: int|
                0 <= i2 < cap && i2 < ws implies w.region_bytes().subrange(
                    #[trigger] spec_slot_off(i2) + 8,
                    spec_slot_off(i2) + 8 + TOB_WIRE_BYTES,
                ) == spec_tob_bytes(log[spec_last_pub(ws, cap, i2)]) by {
                lemma_last_pub_bounds(ws, cap, i2);
                lemma_slot_off_in_bounds(i2, cap);
                let lp = spec_last_pub(ws, cap, i2);
                assert(log[lp] == spec_tob_of_bytes(
                    region.subrange(
                        spec_slot_off(i2) + 8,
                        spec_slot_off(i2) + 8 + TOB_WIRE_BYTES,
                    ),
                ));
                lemma_tob_codec_surjective(
                    region.subrange(spec_slot_off(i2) + 8, spec_slot_off(i2) + 8 + TOB_WIRE_BYTES),
                );
            }
        }
        Ok(w)
    }
}

/// Replacing the write-sequence field rewrites the header to the same
/// fields with the new write sequence.
proof fn lemma_header_update_write_seq(region0: Seq<u8>, region1: Seq<u8>, ws: u64, h: RingHeader)
    requires
        region0.len() >= HEADER_BYTES,
        region1 == spec_splice(region0, WRITE_SEQ_OFFSET as int, spec_u64_to_le_bytes(ws)),
        spec_header_of_bytes(region0.subrange(0, HEADER_BYTES as int)) == (RingHeader {
            magic: h.magic,
            version: h.version,
            capacity: h.capacity,
            elem_size: h.elem_size,
            write_seq: spec_header_of_bytes(
                region0.subrange(0, HEADER_BYTES as int),
            ).write_seq,
        }),
        h.write_seq == ws,
    ensures
        spec_header_of_bytes(region1.subrange(0, HEADER_BYTES as int)) == h,
{
    lemma_auto_spec_u64_to_from_le_bytes();
    let h0 = region0.subrange(0, HEADER_BYTES as int);
    let h1 = region1.subrange(0, HEADER_BYTES as int);
    assert(h1.subrange(0, 8) =~= h0.subrange(0, 8));
    assert(h1.subrange(8, 16) =~= h0.subrange(8, 16));
    assert(h1.subrange(16, 24) =~= h0.subrange(16, 24));
    assert(h1.subrange(24, 32) =~= h0.subrange(24, 32));
    assert(h1.subrange(32, 40) =~= spec_u64_to_le_bytes(ws));
}

/// The reader side of a shared-memory broadcast ring: an independent
/// tail-follow cursor over a read-only mapping of the ring file.
pub struct ShmReader {
    /// The read-only mapping of the ring file.
    pub region: memmap2::Mmap,
    /// Sequence number of the next record to read.
    pub read_seq: u64,
    /// Bitmask for index calculation.
    pub mask: u64,
    /// Ring capacity in slots.
    pub capacity: u64,
    /// Total count of publications skipped over at overrun recoveries.
    pub overruns: u64,
}

/// One successful read against a loaded write sequence `w`: the cursor is
/// fast-forwarded to the oldest still-valid sequence if the reader was
/// lapped, the skipped count is added to the overrun counter — saturating
/// at the top of the range — and the cursor then advances by one.
pub open spec fn spec_tail_step(pre: ShmReader, post: ShmReader, w: int) -> bool {
    let c = pre.read_seq as int;
    let cap = pre.capacity as int;
    let obs = if w - c > cap {
        w - cap
    } else {
        c
    };
    &&& c < w
    &&& post.read_seq == obs + 1
    &&& post.overruns == if pre.overruns + (obs - c) <= u64::MAX {
        pre.overruns + (obs - c)
    } else {
        u64::MAX as int
    }
    &&& post.capacity == pre.capacity
    &&& post.mask == pre.mask
}

impl ShmReader {
    /// Geometry agreed with the mapped region.
    pub open spec fn wf(&self) -> bool {
        &&& is_pow2(self.capacity)
        &&& self.mask == (self.capacity - 1) as u64
        &&& HEADER_BYTES + (self.capacity as int) * SLOT_BYTES <= usize::MAX
        &&& ro_len(self.region) == HEADER_BYTES + (self.capacity as int) * SLOT_BYTES
    }

    /// Attaches a reader to a mapped ring file in tail-follow mode: the
    /// header is validated, the cursor adopts the write sequence found in
    /// the mapping, and the overrun count starts at zero.  The mapping is
    /// live — its bytes may change under a writer in another process — so
    /// beyond the reader's own state nothing can be pinned.
    pub fn open(mm: memmap2::Mmap) -> (r: Result<ShmReader, &'static str>)
        ensures
            r matches Ok(rd) ==> rd.wf() && rd.overruns == 0,
    {
        let n = ro_mm_len(&mm);
        if n < HEADER_BYTES {
            return Err("Region size mismatch");
        }
        let hb = ro_read_bytes(&mm, 0, HEADER_BYTES);
        let h = header_from_bytes(hb.as_slice());
        match h.validate(TOB_WIRE_BYTES as u64) {
            Ok(_) => {},
            Err(e) => {
                return Err(e);
            },
        }
        if h.capacity > ((usize::MAX - HEADER_BYTES) / SLOT_BYTES) as u64 {
            return Err("Region size mismatch");
        }
        let need = bytes_for_ring(h.capacity as usize);
        if n != need {
            return Err("Region size mismatch");
        }
        Ok(
            ShmReader {
                region: mm,
                read_seq: h.write_seq,
                mask: h.capacity - 1,
                capacity: h.capacity,
                overruns: 0,
            },
        )
    }

    /// Attempts to read the next record from the live mapping.
    ///
    /// The write sequence is loaded; when the cursor has reached it the
    /// reader is caught up and nothing changes.  Otherwise the cursor is
    /// fast-forwarded past an overrun if one happened, and the slot is
    /// snapshotted under the seqlock read protocol — retried while a write
    /// is in progress, with the retry budget bounded; a reader that cannot
    /// obtain a stable snapshot within the budget leaves its state as it
    /// was and reports nothing read.
    pub fn try_read(&mut self) -> (r: Option<TopOfBook>)
        requires
            old(self).wf(),
        ensures
            final(self).wf(),
            r is None ==> *final(self) == *old(self),
            final(self).read_seq >= old(self).read_seq,
            final(self).overruns >= old(self).overruns,
            r is Some ==> exists|w: int| spec_tail_step(*old(self), *final(self), w),
    {
        proof {
            assert(1 * SLOT_BYTES <= (self.capacity as int) * SLOT_BYTES) by (nonlinear_arith)
                requires
                    self.capacity >= 1,
            ;
        }
        let wb = ro_read_bytes(&self.region, WRITE_SEQ_OFFSET, 8);
        let w = u64_from_le_bytes(wb.as_slice());

        // No new data available
        if self.read_seq >= w {
            return None;
        }

        // Fast-forward locally past an overrun; commit only on a
        // successful snapshot.
        let c0 = self.read_seq;
        let behind = w - c0;
        let cc: u64;
        let ov: u64;
        if behind > self.capacity {
            let skip = behind - self.capacity;
            ov = if self.overruns <= u64::MAX - skip {
                self.overruns + skip
            } else {
                u64::MAX
            };
            cc = w - self.capacity;
        } else {
            cc = c0;
            ov = self.overruns;
        }

        let idx = seq_to_index(cc, self.mask);
        proof {
            assert((self.mask + 1) as u64 == self.capacity);
            lemma_slot_off_in_bounds(idx as int, self.capacity as int);
            assert((idx as usize) * SLOT_BYTES == spec_slot_off(idx as int) - HEADER_BYTES);
        }
        let off = HEADER_BYTES + (idx as usize) * SLOT_BYTES;

        // Seqlock read protocol, with a bounded retry budget.
        let mut attempts: u32 = 64;
        let mut result: Option<TopOfBook> = None;
        while attempts > 0 && result.is_none()
            invariant
                self.wf(),
                off as int + SLOT_BYTES <= ro_len(self.region),
                off >= 0,
            decreases attempts,
        {
            attempts = attempts - 1;
            let s1b = ro_read_bytes(&self.region, off, 8);
            let s1 = u64_from_le_bytes(s1b.as_slice());
            if s1 % 2 == 1 {
                // A write is in progress: retry.
                continue ;
            }
            let payload = ro_read_bytes(&self.region, off + 8, TOB_WIRE_BYTES);
            let s2b = ro_read_bytes(&self.region, off, 8);
            let s2 = u64_from_le_bytes(s2b.as_slice());
            if s1 == s2 {
                // Consistent snapshot: the sequence did not move across
                // the copy and is still even.
                result = Some(tob_from_bytes(payload.as_slice()));
            }
        }

        match result {
            Some(v) => {
                self.read_seq = cc + 1;
                self.overruns = ov;
                proof {
                    assert(spec_tail_step(*old(self), *self, w as int));
                }
                Some(v)
            },
            None => None,
        }
    }

    /// Total count of publications lost to overruns since this reader
    /// attached.
    pub fn overruns(&self) -> (n: u64)
        ensures
            n == self.overruns,
    {
        self.overruns
    }
}

} // verus!
