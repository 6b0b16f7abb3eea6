//! Shared-memory layout of the broadcast ring.
//!
//! The region starts with a 64-byte header — magic, version, capacity,
//! element size, write sequence, zero padding — so that the header never
//! shares a cache line with slot 0.  It is followed by `capacity` slots of 64
//! bytes each: an 8-byte sequence counter, a 42-byte record payload, and
//! trailing padding up to the next 64-byte boundary.

use vstd::prelude::*;
use vstd::bytes::{
    spec_u64_to_le_bytes, spec_u64_from_le_bytes, u64_to_le_bytes, u64_from_le_bytes,
    lemma_auto_spec_u64_to_from_le_bytes,
};
use vstd::slice::slice_subrange;
use crate::ring::is_pow2;

verus! {

/// Magic number identifying a ring region (ASCII "LITHOSBU").
pub const RING_MAGIC: u64 = 0x4C49_5448_4F53_4255;

/// Current ring format version.  Readers reject mismatches.
pub const RING_VERSION: u64 = 3;

/// Size of the region header in bytes: exactly one cache line.
pub const HEADER_BYTES: usize = 64;

/// Size of one slot in bytes: sequence counter, payload, padding to the next
/// 64-byte boundary.
pub const SLOT_BYTES: usize = 64;

/// Byte offset of the write sequence field inside the header.
pub const WRITE_SEQ_OFFSET: usize = 32;

/// Header of a ring region, stored at offset 0.
///
/// `write_seq` is the monotonically increasing count of published records;
/// in a live region it is the one header field that changes after creation.
#[derive(Clone, Copy, Debug, PartialEq, Eq, Structural)]
pub struct RingHeader {
    /// Magic number for region identification.  Must equal [`RING_MAGIC`].
    pub magic: u64,
    /// Format version for compatibility checking.  Must equal [`RING_VERSION`].
    pub version: u64,
    /// Number of slots in the ring.  Must be a power of two.
    pub capacity: u64,
    /// Size of each element in bytes, checked against the record type a
    /// consumer expects.
    pub elem_size: u64,
    /// Count of published records.  Writers increment it once per publish;
    /// readers use it to detect new data.
    pub write_seq: u64,
}

/// Holds of headers that [`RingHeader::validate`] accepts: correct magic and
/// version, power-of-two capacity, and the element size the caller expects.
pub open spec fn spec_header_valid(h: RingHeader, expected_elem_size: u64) -> bool {
    &&& h.magic == RING_MAGIC
    &&& h.version == RING_VERSION
    &&& is_pow2(h.capacity)
    &&& h.elem_size == expected_elem_size
}

impl RingHeader {
    /// Constructs a header for ring creation, with the write sequence at 0.
    pub fn new(magic: u64, version: u64, capacity: u64, elem_size: u64) -> (h: Self)
        ensures
            h == (RingHeader { magic, version, capacity, elem_size, write_seq: 0 }),
    {
        RingHeader { magic, version, capacity, elem_size, write_seq: 0 }
    }

    /// Validates the header of an existing region against the expected
    /// element size.
    ///
    /// Accepts exactly the headers with the right magic, the right version, a
    /// power-of-two capacity, and a matching element size; each failing check
    /// names itself, in that order.
    pub fn validate(&self, expected_elem_size: u64) -> (r: Result<(), &'static str>)
        ensures
            r.is_ok() <==> spec_header_valid(*self, expected_elem_size),
            self.magic != RING_MAGIC ==> (r matches Err(m) && m@ == "Bad magic"@),
            self.magic == RING_MAGIC && self.version != RING_VERSION ==> (r matches Err(m)
                && m@ == "Wrong version"@),
            self.magic == RING_MAGIC && self.version == RING_VERSION && !is_pow2(self.capacity)
                ==> (r matches Err(m) && m@ == "Capacity must be power of two"@),
            self.magic == RING_MAGIC && self.version == RING_VERSION && is_pow2(self.capacity)
                && self.elem_size != expected_elem_size ==> (r matches Err(m)
                && m@ == "Element size mismatch"@),
    {
        if self.magic != RING_MAGIC {
            return Err("Bad magic");
        }
        if self.version != RING_VERSION {
            return Err("Wrong version");
        }
        if !(self.capacity != 0 && (self.capacity & (self.capacity - 1)) == 0) {
            return Err("Capacity must be power of two");
        }
        if self.elem_size != expected_elem_size {
            return Err("Element size mismatch");
        }
        Ok(())
    }
}

/// Total bytes required for a ring region: the header plus `capacity` slots.
pub fn bytes_for_ring(capacity: usize) -> (n: usize)
    requires
        HEADER_BYTES + capacity * SLOT_BYTES <= usize::MAX,
    ensures
        n == HEADER_BYTES + capacity * SLOT_BYTES,
{
    HEADER_BYTES + capacity * SLOT_BYTES
}

/// Byte offset of slot `i` inside the region.
pub open spec fn spec_slot_offset(i: int) -> int {
    HEADER_BYTES + i * SLOT_BYTES
}

/// The 64-byte wire form of a header: five little-endian `u64` fields and
/// zero padding to the end of the cache line.
pub open spec fn spec_header_bytes(h: RingHeader) -> Seq<u8> {
    spec_u64_to_le_bytes(h.magic) + spec_u64_to_le_bytes(h.version) + spec_u64_to_le_bytes(
        h.capacity,
    ) + spec_u64_to_le_bytes(h.elem_size) + spec_u64_to_le_bytes(h.write_seq) + Seq::new(
        24,
        |i: int| 0u8,
    )
}

/// The header denoted by the first 64 bytes of a region.  Padding bytes are
/// ignored.
pub open spec fn spec_header_of_bytes(s: Seq<u8>) -> RingHeader {
    RingHeader {
        magic: spec_u64_from_le_bytes(s.subrange(0, 8)),
        version: spec_u64_from_le_bytes(s.subrange(8, 16)),
        capacity: spec_u64_from_le_bytes(s.subrange(16, 24)),
        elem_size: spec_u64_from_le_bytes(s.subrange(24, 32)),
        write_seq: spec_u64_from_le_bytes(s.subrange(32, 40)),
    }
}

/// Decoding an encoded header yields the header back.
pub proof fn lemma_header_codec_round_trip(h: RingHeader)
    ensures
        spec_header_bytes(h).len() == HEADER_BYTES,
        spec_header_of_bytes(spec_header_bytes(h)) == h,
{
    lemma_auto_spec_u64_to_from_le_bytes();
    let s = spec_header_bytes(h);
    assert(s.subrange(0, 8) =~= spec_u64_to_le_bytes(h.magic));
    assert(s.subrange(8, 16) =~= spec_u64_to_le_bytes(h.version));
    assert(s.subrange(16, 24) =~= spec_u64_to_le_bytes(h.capacity));
    assert(s.subrange(24, 32) =~= spec_u64_to_le_bytes(h.elem_size));
    assert(s.subrange(32, 40) =~= spec_u64_to_le_bytes(h.write_seq));
}

/// Encodes a header into its 64-byte wire form.
pub fn header_to_bytes(h: &RingHeader) -> (out: Vec<u8>)
    ensures
        out@ == spec_header_bytes(*h),
        out@.len() == HEADER_BYTES,
{
    proof {
        lemma_header_codec_round_trip(*h);
    }
    let mut out = u64_to_le_bytes(h.magic);
    let mut part = u64_to_le_bytes(h.version);
    out.append(&mut part);
    let mut part = u64_to_le_bytes(h.capacity);
    out.append(&mut part);
    let mut part = u64_to_le_bytes(h.elem_size);
    out.append(&mut part);
    let mut part = u64_to_le_bytes(h.write_seq);
    out.append(&mut part);
    let mut pad = vec![0u8; 24];
    out.append(&mut pad);
    proof {
        assert(out@ =~= spec_header_bytes(*h));
    }
    out
}

/// Decodes the first 64 bytes of a region into the header they denote.
pub fn header_from_bytes(b: &[u8]) -> (h: RingHeader)
    requires
        b@.len() >= HEADER_BYTES,
    ensures
        h == spec_header_of_bytes(b@.subrange(0, HEADER_BYTES as int)),
{
    proof {
        lemma_auto_spec_u64_to_from_le_bytes();
    }
    let magic = u64_from_le_bytes(slice_subrange(b, 0, 8));
    let version = u64_from_le_bytes(slice_subrange(b, 8, 16));
    let capacity = u64_from_le_bytes(slice_subrange(b, 16, 24));
    let elem_size = u64_from_le_bytes(slice_subrange(b, 24, 32));
    let write_seq = u64_from_le_bytes(slice_subrange(b, 32, 40));
    proof {
        let pre = b@.subrange(0, HEADER_BYTES as int);
        assert(pre.subrange(0, 8) =~= b@.subrange(0, 8));
        assert(pre.subrange(8, 16) =~= b@.subrange(8, 16));
        assert(pre.subrange(16, 24) =~= b@.subrange(16, 24));
        assert(pre.subrange(24, 32) =~= b@.subrange(24, 32));
        assert(pre.subrange(32, 40) =~= b@.subrange(32, 40));
    }
    RingHeader { magic, version, capacity, elem_size, write_seq }
}

} // verus!
