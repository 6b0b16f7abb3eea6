//! The publisher hot path and the consumer engine.
//!
//! The publisher turns a text frame into one published record: extract the
//! four book-ticker fields — fast scan first, general JSON decoding as the
//! fallback — convert them to fixed point, stamp the time, and publish.
//! Frames the decoders reject, and frames whose fields are not acceptable
//! decimals, are dropped; nothing else fails after attach.
//!
//! The consumer drains available records from its reader and folds each
//! into the dense per-symbol state table.

use vstd::prelude::*;
use vstd::string::StringSliceAdditionalSpecFns;
use crate::clock::now_ns;
use crate::events::{Event, SymbolId, TopOfBook};
use crate::fixed::{spec_fixed_parseable, spec_fixed_val, parse_fixed_dp_checked};
use crate::layout::{HEADER_BYTES, spec_header_of_bytes};
use crate::broadcast::MAX_PUBLICATIONS;
use crate::shm::{ShmWriter, ShmReader, spec_ring_image, mm_bytes};
use crate::state::{MarketStateManager, MAX_SYMBOLS, spec_apply_tob, spec_tob_stats_fit};
use crate::ticker::{parse_binance_book_ticker_fast, spec_book_ticker_fields};

verus! {

/// The string value at a top-level key of a JSON document: what the
/// fallback decoder extracts.  It is a function of the document bytes and
/// the key alone; a document that does not decode, a missing key, and a
/// non-string value all yield nothing.
pub uninterp spec fn json_string_field(s: Seq<u8>, key: Seq<u8>) -> Option<Seq<u8>>;

/// Relies on serde_json::from_slice for Value, Value::get and
/// Value::as_str: decodes the frame and extracts the string at one
/// top-level key — the result named by [`json_string_field`].
#[verifier::external_body]
fn json_field_bytes(frame: &[u8], key: &str) -> (r: Option<Vec<u8>>)
    ensures
        r matches Some(v) ==> json_string_field(frame@, key.spec_bytes()) == Some(v@),
        r is None ==> json_string_field(frame@, key.spec_bytes()) is None,
{
    let doc: serde_json::Value = serde_json::from_slice(frame).ok()?;
    Some(doc.get(key)?.as_str()?.as_bytes().to_vec())
}

/// Holds of four extracted fields that the hot path accepts: each an
/// acceptable fixed-point decimal at its scale.
pub open spec fn spec_fields_ok(b: Seq<u8>, bq: Seq<u8>, a: Seq<u8>, aq: Seq<u8>) -> bool {
    &&& spec_fixed_parseable(b, 2)
    &&& spec_fixed_parseable(bq, 3)
    &&& spec_fixed_parseable(a, 2)
    &&& spec_fixed_parseable(aq, 3)
}

/// The four fields the fallback decoder extracts from a frame, when every
/// one of them is present as a string.
pub open spec fn spec_fallback_fields(s: Seq<u8>) -> Option<(Seq<u8>, Seq<u8>, Seq<u8>, Seq<u8>)> {
    let b = json_string_field(s, "b".spec_bytes());
    let bq = json_string_field(s, "B".spec_bytes());
    let a = json_string_field(s, "a".spec_bytes());
    let aq = json_string_field(s, "A".spec_bytes());
    if b is Some && bq is Some && a is Some && aq is Some {
        Some((b->0, bq->0, a->0, aq->0))
    } else {
        None
    }
}

/// The four fields the hot path extracts from a frame: the fast scan's,
/// or — when the scan signals fallback — the JSON decoder's.
pub open spec fn spec_frame_fields(s: Seq<u8>) -> Option<(Seq<u8>, Seq<u8>, Seq<u8>, Seq<u8>)> {
    match spec_book_ticker_fields(s) {
        Some(f) => Some(f),
        None => spec_fallback_fields(s),
    }
}

/// The record the hot path assembles from four accepted fields, a
/// timestamp and the bound symbol.
pub open spec fn spec_quote_record(
    ts: u64,
    sym: SymbolId,
    b: Seq<u8>,
    bq: Seq<u8>,
    a: Seq<u8>,
    aq: Seq<u8>,
) -> TopOfBook {
    TopOfBook {
        ts_event_ns: ts,
        symbol_id: sym,
        bid_px_ticks: spec_fixed_val(b, 2) as i64,
        bid_qty_lots: spec_fixed_val(bq, 3) as i64,
        ask_px_ticks: spec_fixed_val(a, 2) as i64,
        ask_qty_lots: spec_fixed_val(aq, 3) as i64,
    }
}

/// The socket-free publisher hot path: frame in, record published.
pub struct ObsidianProcessor {
    /// The writer handle of the shared ring.
    pub writer: ShmWriter,
    /// The symbol id bound to this processor's frames.
    pub symbol_id: SymbolId,
}

impl ObsidianProcessor {
    /// A well-formed ring behind the writer handle.
    pub open spec fn wf(&self) -> bool {
        self.writer.wf()
    }

    /// Attaches the processor to an existing ring image mapped read-write.
    pub fn new(mm: memmap2::MmapMut, symbol_id: SymbolId) -> (r: Result<Self, &'static str>)
        ensures
            r.is_ok() <==> spec_ring_image(mm_bytes(mm)),
            r matches Ok(p) ==> {
                &&& p.wf()
                &&& p.symbol_id == symbol_id
                &&& p.writer.write_seq == spec_header_of_bytes(
                    mm_bytes(mm).subrange(0, HEADER_BYTES as int),
                ).write_seq
            },
    {
        match ShmWriter::open_in(mm) {
            Ok(writer) => Ok(ObsidianProcessor { writer, symbol_id }),
            Err(e) => Err(e),
        }
    }

    /// The hot path, bound to this processor's writer and symbol, with
    /// the timestamp read from the library's clock: see [`process_frame`].
    pub fn process_text(&mut self, text: &str) -> (published: bool)
        requires
            old(self).wf(),
            old(self).writer.write_seq < MAX_PUBLICATIONS,
        ensures
            final(self).wf(),
            final(self).symbol_id == old(self).symbol_id,
            final(self).writer.capacity == old(self).writer.capacity,
            final(self).writer.mask == old(self).writer.mask,
            !published ==> final(self).writer.published@ == old(self).writer.published@,
            match spec_frame_fields(text.spec_bytes()) {
                None => !published,
                Some(f) => {
                    &&& spec_fields_ok(f.0, f.1, f.2, f.3) ==> published && (exists|ts: u64|
                        final(self).writer.published@ == old(self).writer.published@.push(
                            spec_quote_record(ts, old(self).symbol_id, f.0, f.1, f.2, f.3),
                        ))
                    &&& !spec_fields_ok(f.0, f.1, f.2, f.3) ==> !published
                },
            },
    {
        process_frame(&mut self.writer, self.symbol_id, text)
    }
}

/// The hot path with the timestamp read from the library's clock: see
/// [`process_frame_at`].  The production ingress passes a monotonic
/// reading in instead.
pub fn process_frame(writer: &mut ShmWriter, symbol_id: SymbolId, text: &str) -> (published: bool)
    requires
        old(writer).wf(),
        old(writer).write_seq < MAX_PUBLICATIONS,
    ensures
        final(writer).wf(),
        final(writer).capacity == old(writer).capacity,
        final(writer).mask == old(writer).mask,
        !published ==> final(writer).published@ == old(writer).published@,
        match spec_frame_fields(text.spec_bytes()) {
            None => !published,
            Some(f) => {
                &&& spec_fields_ok(f.0, f.1, f.2, f.3) ==> published && (exists|ts: u64|
                    final(writer).published@ == old(writer).published@.push(
                        spec_quote_record(ts, symbol_id, f.0, f.1, f.2, f.3),
                    ))
                &&& !spec_fields_ok(f.0, f.1, f.2, f.3) ==> !published
            },
        },
{
    let ts = now_ns();
    process_frame_at(writer, symbol_id, ts, text)
}

/// The hot path: extract the four fields of a frame — fast scan, then the
/// general JSON decoder — convert each to fixed point, and publish one
/// record stamped `ts` through the given writer.  Returns whether a
/// record was published.
///
/// The contract decides every frame: when neither decoder yields the four
/// fields, or any field is not an acceptable decimal, the frame is
/// dropped and nothing is published; otherwise exactly the record built
/// from those fields is published.  The caller supplies the timestamp, so
/// producer and consumer can share one monotonic source.
pub fn process_frame_at(
    writer: &mut ShmWriter,
    symbol_id: SymbolId,
    ts: u64,
    text: &str,
) -> (published: bool)
    requires
        old(writer).wf(),
        old(writer).write_seq < MAX_PUBLICATIONS,
    ensures
        final(writer).wf(),
        final(writer).capacity == old(writer).capacity,
        final(writer).mask == old(writer).mask,
        !published ==> final(writer).published@ == old(writer).published@,
        match spec_frame_fields(text.spec_bytes()) {
            None => !published,
            Some(f) => {
                &&& spec_fields_ok(f.0, f.1, f.2, f.3) ==> published && final(writer).published@
                    == old(writer).published@.push(
                    spec_quote_record(ts, symbol_id, f.0, f.1, f.2, f.3),
                )
                &&& !spec_fields_ok(f.0, f.1, f.2, f.3) ==> !published
            },
        },
{
    let fields: Option<(Vec<u8>, Vec<u8>, Vec<u8>, Vec<u8>)> = match
        parse_binance_book_ticker_fast(text) {
        Some(v) => Some((v.b, v.b_qty, v.a, v.a_qty)),
        None => {
            // Fall back to the general JSON decoder for the same fields.
            let b = json_field_bytes(text.as_bytes(), "b");
            let bq = json_field_bytes(text.as_bytes(), "B");
            let a = json_field_bytes(text.as_bytes(), "a");
            let aq = json_field_bytes(text.as_bytes(), "A");
            match (b, bq, a, aq) {
                (Some(b), Some(bq), Some(a), Some(aq)) => Some((b, bq, a, aq)),
                _ => None,
            }
        },
    };

    match fields {
        None => false,
        Some((b, bq, a, aq)) => {
            proof {
                assert(spec_frame_fields(text.spec_bytes()) == Some((b@, bq@, a@, aq@)));
            }
            let bid_px = parse_fixed_dp_checked(b.as_slice(), 2);
            let bid_qty = parse_fixed_dp_checked(bq.as_slice(), 3);
            let ask_px = parse_fixed_dp_checked(a.as_slice(), 2);
            let ask_qty = parse_fixed_dp_checked(aq.as_slice(), 3);
            match (bid_px, bid_qty, ask_px, ask_qty) {
                (Some(bid_px), Some(bid_qty), Some(ask_px), Some(ask_qty)) => {
                    let tob = TopOfBook {
                        ts_event_ns: ts,
                        symbol_id,
                        bid_px_ticks: bid_px,
                        bid_qty_lots: bid_qty,
                        ask_px_ticks: ask_px,
                        ask_qty_lots: ask_qty,
                    };
                    writer.publish(tob);
                    proof {
                        assert(tob == spec_quote_record(ts, symbol_id, b@, bq@, a@, aq@));
                        assert(spec_fields_ok(b@, bq@, a@, aq@));
                    }
                    true
                },
                _ => false,
            }
        },
    }
}

/// The consumer engine: a tail-follow reader feeding the dense per-symbol
/// state table.
pub struct OnyxEngine {
    /// Per-symbol market state, updated from each drained record.
    pub market_state_manager: MarketStateManager,
    /// The reader handle of the shared ring.
    pub reader: ShmReader,
}

impl OnyxEngine {
    /// A valid reader over a full state table.
    pub open spec fn wf(&self) -> bool {
        &&& self.reader.wf()
        &&& self.market_state_manager.wf()
    }

    /// Attaches the engine to a ring image mapped read-only, with a fresh
    /// state table.
    pub fn new(mm: memmap2::Mmap) -> (r: Result<Self, &'static str>)
        ensures
            r matches Ok(e) ==> e.wf() && e.reader.overruns == 0,
    {
        let market_state_manager = MarketStateManager::new();
        match ShmReader::open(mm) {
            Ok(reader) => Ok(OnyxEngine { market_state_manager, reader }),
            Err(e) => Err(e),
        }
    }

    /// Folds one event into the state table.  A record whose symbol lies
    /// outside the dense table, or whose derived statistics would not fit,
    /// is dropped; anything else updates its symbol's entry exactly.
    pub fn process_event(&mut self, event: &Event)
        requires
            old(self).wf(),
        ensures
            final(self).wf(),
            final(self).reader == old(self).reader,
            ({
                let t = event->TopOfBook_0;
                if t.symbol_id.0 < MAX_SYMBOLS && spec_tob_stats_fit(t) {
                    final(self).market_state_manager.markets@ == old(
                        self,
                    ).market_state_manager.markets@.update(
                        t.symbol_id.0 as int,
                        spec_apply_tob(
                            old(self).market_state_manager.markets@[t.symbol_id.0 as int],
                            t,
                        ),
                    )
                } else {
                    final(self).market_state_manager.markets@ == old(
                        self,
                    ).market_state_manager.markets@
                }
            }),
    {
        match event {
            Event::TopOfBook(tob) => {
                let mid = tob.bid_px_ticks as i128 + tob.ask_px_ticks as i128;
                let spread = tob.ask_px_ticks as i128 - tob.bid_px_ticks as i128;
                let fits = i64::MIN as i128 <= mid && mid <= i64::MAX as i128 && i64::MIN as i128
                    <= spread && spread <= i64::MAX as i128;
                if (tob.symbol_id.0 as usize) < MAX_SYMBOLS && fits {
                    self.market_state_manager.update_market_state_tob(tob);
                }
            },
        }
    }

    /// Drains the records available when the call began: repeated
    /// `try_read`, each snapshot folded into the state table, stopping at
    /// the first empty read and after at most one ring's worth of records.
    /// Returns the count drained.
    pub fn poll_events(&mut self) -> (n: u64)
        requires
            old(self).wf(),
        ensures
            final(self).wf(),
            final(self).reader.capacity == old(self).reader.capacity,
            final(self).reader.read_seq >= old(self).reader.read_seq,
            final(self).reader.overruns >= old(self).reader.overruns,
            n <= old(self).reader.capacity,
    {
        let cap = self.reader.capacity;
        let mut n: u64 = 0;
        while n < cap
            invariant
                self.wf(),
                self.reader.capacity == cap,
                cap == old(self).reader.capacity,
                self.reader.read_seq >= old(self).reader.read_seq,
                self.reader.overruns >= old(self).reader.overruns,
                n <= cap,
            decreases cap - n,
        {
            match self.reader.try_read() {
                Some(ev) => {
                    self.process_event(&Event::TopOfBook(ev));
                    n = n + 1;
                },
                None => {
                    return n;
                },
            }
        }
        n
    }
}

} // verus!
