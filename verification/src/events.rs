//! Wire events for the broadcast bus.
//!
//! The published record is a fixed-layout top-of-book quote.  Its wire form
//! is exactly 42 bytes — little-endian, no internal padding — so that it
//! transfers bit-for-bit between processes.  The byte codec here is the
//! single authority on that layout: a record is published as
//! `tob_to_bytes(..)` and snapshotted back with `tob_from_bytes(..)`, and the
//! codec is proved to be a bijection on 42-byte strings.

use vstd::prelude::*;
use vstd::bytes::{
    spec_u16_to_le_bytes, spec_u16_from_le_bytes, spec_u64_to_le_bytes, spec_u64_from_le_bytes,
    u16_to_le_bytes, u16_from_le_bytes, u64_to_le_bytes, u64_from_le_bytes,
    lemma_auto_spec_u16_to_from_le_bytes, lemma_auto_spec_u64_to_from_le_bytes,
};
use vstd::slice::slice_subrange;

verus! {

/// Number of bytes in the wire form of a [`TopOfBook`] record.
pub const TOB_WIRE_BYTES: usize = 42;

/// A 16-bit instrument identifier, stable across all processes and directly
/// usable as a dense array index.
#[derive(Clone, Copy, Debug, PartialEq, Eq, PartialOrd, Ord, Hash, Structural)]
pub struct SymbolId(pub u16);

impl Default for SymbolId {
    fn default() -> (s: Self)
        ensures
            s.0 == 0,
    {
        SymbolId(0)
    }
}

/// A fixed-layout top-of-book market event.
///
/// Prices are integer ticks (scaled by `10^2`), quantities integer lots
/// (scaled by `10^3`), and the timestamp is nanoseconds from the host
/// clock the publisher samples — one monotonic source shared by producer
/// and consumer in production.  A
/// consumer that snapshots a record sees either a fully prior value or a
/// fully later one, never a mixture.
#[derive(Clone, Copy, Debug, PartialEq, Eq, Structural)]
pub struct TopOfBook {
    pub ts_event_ns: u64,
    pub symbol_id: SymbolId,
    pub bid_px_ticks: i64,
    pub bid_qty_lots: i64,
    pub ask_px_ticks: i64,
    pub ask_qty_lots: i64,
}

/// The all-zero record.
pub open spec fn spec_tob_zero() -> TopOfBook {
    TopOfBook {
        ts_event_ns: 0,
        symbol_id: SymbolId(0),
        bid_px_ticks: 0,
        bid_qty_lots: 0,
        ask_px_ticks: 0,
        ask_qty_lots: 0,
    }
}

impl Default for TopOfBook {
    fn default() -> (t: Self)
        ensures
            t == spec_tob_zero(),
    {
        TopOfBook {
            ts_event_ns: 0,
            symbol_id: SymbolId(0),
            bid_px_ticks: 0,
            bid_qty_lots: 0,
            ask_px_ticks: 0,
            ask_qty_lots: 0,
        }
    }
}

impl TopOfBook {
    /// The mid price in ticks, rounded toward zero.
    #[inline]
    pub fn mid_ticks(&self) -> (m: i64)
        requires
            i64::MIN <= self.bid_px_ticks + self.ask_px_ticks <= i64::MAX,
        ensures
            self.bid_px_ticks + self.ask_px_ticks >= 0 ==> m == (self.bid_px_ticks
                + self.ask_px_ticks) / 2,
            self.bid_px_ticks + self.ask_px_ticks < 0 ==> m == -((-(self.bid_px_ticks
                + self.ask_px_ticks)) / 2),
    {
        (self.bid_px_ticks + self.ask_px_ticks) / 2
    }
}

/// Wire event type for the broadcast bus.  One variant is sent per message;
/// the reader matches on the variant to handle each kind.
#[derive(Clone, Copy, Debug)]
pub enum Event {
    TopOfBook(TopOfBook),
}

/// The 42-byte little-endian wire form of a record:
/// `u64 ts | u16 symbol | i64 bid_px | i64 bid_qty | i64 ask_px | i64 ask_qty`.
pub open spec fn spec_tob_bytes(t: TopOfBook) -> Seq<u8> {
    spec_u64_to_le_bytes(t.ts_event_ns) + spec_u16_to_le_bytes(t.symbol_id.0)
        + spec_u64_to_le_bytes(t.bid_px_ticks as u64) + spec_u64_to_le_bytes(
        t.bid_qty_lots as u64,
    ) + spec_u64_to_le_bytes(t.ask_px_ticks as u64) + spec_u64_to_le_bytes(t.ask_qty_lots as u64)
}

/// The record denoted by 42 wire bytes.
pub open spec fn spec_tob_of_bytes(s: Seq<u8>) -> TopOfBook {
    TopOfBook {
        ts_event_ns: spec_u64_from_le_bytes(s.subrange(0, 8)),
        symbol_id: SymbolId(spec_u16_from_le_bytes(s.subrange(8, 10))),
        bid_px_ticks: spec_u64_from_le_bytes(s.subrange(10, 18)) as i64,
        bid_qty_lots: spec_u64_from_le_bytes(s.subrange(18, 26)) as i64,
        ask_px_ticks: spec_u64_from_le_bytes(s.subrange(26, 34)) as i64,
        ask_qty_lots: spec_u64_from_le_bytes(s.subrange(34, 42)) as i64,
    }
}

/// Round trip of the signed fields through their unsigned wire form.
proof fn lemma_i64_u64_round_trip(x: i64)
    ensures
        (x as u64) as i64 == x,
{
    assert((x as u64) as i64 == x) by (bit_vector);
}

/// Decoding an encoded record yields the record back: the wire form loses
/// nothing.
pub proof fn lemma_tob_codec_round_trip(t: TopOfBook)
    ensures
        spec_tob_bytes(t).len() == TOB_WIRE_BYTES,
        spec_tob_of_bytes(spec_tob_bytes(t)) == t,
{
    lemma_auto_spec_u16_to_from_le_bytes();
    lemma_auto_spec_u64_to_from_le_bytes();
    let s = spec_tob_bytes(t);
    assert(s.subrange(0, 8) =~= spec_u64_to_le_bytes(t.ts_event_ns));
    assert(s.subrange(8, 10) =~= spec_u16_to_le_bytes(t.symbol_id.0));
    assert(s.subrange(10, 18) =~= spec_u64_to_le_bytes(t.bid_px_ticks as u64));
    assert(s.subrange(18, 26) =~= spec_u64_to_le_bytes(t.bid_qty_lots as u64));
    assert(s.subrange(26, 34) =~= spec_u64_to_le_bytes(t.ask_px_ticks as u64));
    assert(s.subrange(34, 42) =~= spec_u64_to_le_bytes(t.ask_qty_lots as u64));
    lemma_i64_u64_round_trip(t.bid_px_ticks);
    lemma_i64_u64_round_trip(t.bid_qty_lots);
    lemma_i64_u64_round_trip(t.ask_px_ticks);
    lemma_i64_u64_round_trip(t.ask_qty_lots);
}

/// Every 42-byte string is the wire form of the record it denotes: the
/// codec is a bijection between records and 42-byte strings.
pub proof fn lemma_tob_codec_surjective(b: Seq<u8>)
    requires
        b.len() == TOB_WIRE_BYTES,
    ensures
        spec_tob_bytes(spec_tob_of_bytes(b)) == b,
{
    lemma_auto_spec_u16_to_from_le_bytes();
    lemma_auto_spec_u64_to_from_le_bytes();
    let t = spec_tob_of_bytes(b);
    lemma_u64_i64_round_trip(spec_u64_from_le_bytes(b.subrange(10, 18)));
    lemma_u64_i64_round_trip(spec_u64_from_le_bytes(b.subrange(18, 26)));
    lemma_u64_i64_round_trip(spec_u64_from_le_bytes(b.subrange(26, 34)));
    lemma_u64_i64_round_trip(spec_u64_from_le_bytes(b.subrange(34, 42)));
    assert(spec_tob_bytes(t) =~= b);
}

/// Round trip of an unsigned word through its signed reading.
proof fn lemma_u64_i64_round_trip(x: u64)
    ensures
        (x as i64) as u64 == x,
{
    assert((x as i64) as u64 == x) by (bit_vector);
}

/// Two records with the same wire bytes are the same record.
pub proof fn lemma_tob_codec_injective(a: TopOfBook, b: TopOfBook)
    requires
        spec_tob_bytes(a) == spec_tob_bytes(b),
    ensures
        a == b,
{
    lemma_tob_codec_round_trip(a);
    lemma_tob_codec_round_trip(b);
}

/// Encodes a record into its 42-byte wire form.
pub fn tob_to_bytes(t: &TopOfBook) -> (out: Vec<u8>)
    ensures
        out@ == spec_tob_bytes(*t),
        out@.len() == TOB_WIRE_BYTES,
{
    proof {
        lemma_tob_codec_round_trip(*t);
    }
    let mut out = u64_to_le_bytes(t.ts_event_ns);
    let mut part = u16_to_le_bytes(t.symbol_id.0);
    out.append(&mut part);
    let mut part = u64_to_le_bytes(t.bid_px_ticks as u64);
    out.append(&mut part);
    let mut part = u64_to_le_bytes(t.bid_qty_lots as u64);
    out.append(&mut part);
    let mut part = u64_to_le_bytes(t.ask_px_ticks as u64);
    out.append(&mut part);
    let mut part = u64_to_le_bytes(t.ask_qty_lots as u64);
    out.append(&mut part);
    out
}

/// Decodes 42 wire bytes into the record they denote.
pub fn tob_from_bytes(b: &[u8]) -> (t: TopOfBook)
    requires
        b@.len() == TOB_WIRE_BYTES,
    ensures
        t == spec_tob_of_bytes(b@),
        spec_tob_bytes(t) == b@,
{
    proof {
        lemma_auto_spec_u16_to_from_le_bytes();
        lemma_auto_spec_u64_to_from_le_bytes();
    }
    let ts_event_ns = u64_from_le_bytes(slice_subrange(b, 0, 8));
    let sym = u16_from_le_bytes(slice_subrange(b, 8, 10));
    let bid_px = u64_from_le_bytes(slice_subrange(b, 10, 18));
    let bid_qty = u64_from_le_bytes(slice_subrange(b, 18, 26));
    let ask_px = u64_from_le_bytes(slice_subrange(b, 26, 34));
    let ask_qty = u64_from_le_bytes(slice_subrange(b, 34, 42));
    proof {
        lemma_i64_u64_round_trip(bid_px as i64);
        lemma_i64_u64_round_trip(bid_qty as i64);
        lemma_i64_u64_round_trip(ask_px as i64);
        lemma_i64_u64_round_trip(ask_qty as i64);
        assert(spec_tob_bytes(spec_tob_of_bytes(b@)) =~= b@) by {
            assert((bid_px as i64) as u64 == bid_px) by (bit_vector);
            assert((bid_qty as i64) as u64 == bid_qty) by (bit_vector);
            assert((ask_px as i64) as u64 == ask_px) by (bit_vector);
            assert((ask_qty as i64) as u64 == ask_qty) by (bit_vector);
        }
    }
    TopOfBook {
        ts_event_ns,
        symbol_id: SymbolId(sym),
        bid_px_ticks: bid_px as i64,
        bid_qty_lots: bid_qty as i64,
        ask_px_ticks: ask_px as i64,
        ask_qty_lots: ask_qty as i64,
    }
}

} // verus!
