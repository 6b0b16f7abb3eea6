//! Ring scenarios: creation, tail-follow reads, overrun recovery, layout
//! sizing, and header validation.

use lithos::broadcast::{BroadcastReader, BroadcastWriter};
use lithos::events::{SymbolId, TopOfBook};
use lithos::layout::{bytes_for_ring, RingHeader, RING_MAGIC, RING_VERSION};
use lithos::ring::{apply_overrun_policy, seq_to_index, RingConfig};

fn record(ts: u64, sym: u16, bid: i64, bqty: i64, ask: i64, aqty: i64) -> TopOfBook {
    TopOfBook {
        ts_event_ns: ts,
        symbol_id: SymbolId(sym),
        bid_px_ticks: bid,
        bid_qty_lots: bqty,
        ask_px_ticks: ask,
        ask_qty_lots: aqty,
    }
}

#[test]
fn round_trip_single_element() {
    let mut ring = BroadcastWriter::create(RingConfig::new(8));
    let mut reader = BroadcastReader::open(&ring).unwrap();
    let r = record(1, 7, 100, 1, 110, 1);
    ring.publish(r);
    assert_eq!(reader.try_read(&ring), Some(r));
    assert_eq!(reader.try_read(&ring), None);
}

#[test]
fn tail_follow_semantics() {
    let mut ring = BroadcastWriter::create(RingConfig::new(8));
    for i in 0..5 {
        ring.publish(record(i, 1, 10, 1, 11, 1));
    }
    let mut reader = BroadcastReader::open(&ring).unwrap();
    assert_eq!(reader.try_read(&ring), None);
    let r = record(99, 2, 20, 2, 21, 2);
    ring.publish(r);
    assert_eq!(reader.try_read(&ring), Some(r));
}

#[test]
fn overrun_recovery() {
    let mut ring = BroadcastWriter::create(RingConfig::new(4));
    let mut reader = BroadcastReader::open(&ring).unwrap();
    for ts in 1..=20u64 {
        ring.publish(record(ts, 1, 1, 1, 2, 1));
    }
    let mut seen = Vec::new();
    while let Some(r) = reader.try_read(&ring) {
        seen.push(r.ts_event_ns);
    }
    assert_eq!(seen, vec![17, 18, 19, 20]);
    assert_eq!(reader.overruns(), 16);
}

#[test]
fn reader_opens_at_write_seq_with_no_overruns() {
    let mut ring = BroadcastWriter::create(RingConfig::new(8));
    for ts in 1..=3u64 {
        ring.publish(record(ts, 1, 1, 1, 2, 1));
    }
    let reader = BroadcastReader::open(&ring).unwrap();
    assert_eq!(reader.read_seq, ring.header.write_seq);
    assert_eq!(reader.read_seq, 3);
    assert_eq!(reader.overruns(), 0);
}

#[test]
fn bytes_for_ring_is_header_plus_slots() {
    assert_eq!(bytes_for_ring(8), 64 + 8 * 64);
    assert_eq!(bytes_for_ring(1), 128);
    assert_eq!(bytes_for_ring(65536), 64 + 65536 * 64);
}

#[test]
fn header_validation_accepts_exactly_the_valid_tuples() {
    let good = RingHeader::new(RING_MAGIC, RING_VERSION, 8, 42);
    assert!(good.validate(42).is_ok());
    let bad_magic = RingHeader::new(RING_MAGIC + 1, RING_VERSION, 8, 42);
    assert_eq!(bad_magic.validate(42), Err("Bad magic"));
    let bad_version = RingHeader::new(RING_MAGIC, RING_VERSION + 1, 8, 42);
    assert_eq!(bad_version.validate(42), Err("Wrong version"));
    let bad_capacity = RingHeader::new(RING_MAGIC, RING_VERSION, 12, 42);
    assert_eq!(bad_capacity.validate(42), Err("Capacity must be power of two"));
    let zero_capacity = RingHeader::new(RING_MAGIC, RING_VERSION, 0, 42);
    assert_eq!(zero_capacity.validate(42), Err("Capacity must be power of two"));
    let bad_elem = RingHeader::new(RING_MAGIC, RING_VERSION, 8, 41);
    assert_eq!(bad_elem.validate(42), Err("Element size mismatch"));
}

#[test]
fn seq_to_index_wraps_by_mask() {
    let cfg = RingConfig::new(8);
    let mask = cfg.mask();
    assert_eq!(mask, 7);
    assert_eq!(seq_to_index(0, mask), 0);
    assert_eq!(seq_to_index(5, mask), 5);
    assert_eq!(seq_to_index(8, mask), 0);
    assert_eq!(seq_to_index(15, mask), 7);
    assert_eq!(seq_to_index(16, mask), 0);
}

#[test]
fn overrun_policy_counts_skipped_and_fast_forwards() {
    let mut read_seq = 5u64;
    let mut overruns = 0u64;
    apply_overrun_policy(20, &mut read_seq, 8, &mut overruns);
    assert_eq!(overruns, 7);
    assert_eq!(read_seq, 12);

    // Within a ring's worth: nothing changes.
    let mut read_seq = 15u64;
    let mut overruns = 7u64;
    apply_overrun_policy(20, &mut read_seq, 8, &mut overruns);
    assert_eq!(overruns, 7);
    assert_eq!(read_seq, 15);
}

#[test]
fn slot_counters_stay_even_across_publishes() {
    let mut ring = BroadcastWriter::create(RingConfig::new(4));
    for ts in 0..10u64 {
        ring.publish(record(ts, 1, 1, 1, 2, 1));
        for slot in ring.slots.iter() {
            assert_eq!(slot.seq % 2, 0);
        }
    }
}

#[test]
fn capacity_one_keeps_only_the_newest() {
    let mut ring = BroadcastWriter::create(RingConfig::new(1));
    let mut reader = BroadcastReader::open(&ring).unwrap();
    for ts in 1..=3u64 {
        ring.publish(record(ts, 1, 1, 1, 2, 1));
    }
    assert_eq!(reader.try_read(&ring).map(|r| r.ts_event_ns), Some(3));
    assert_eq!(reader.overruns(), 2);
    assert_eq!(reader.try_read(&ring), None);
}

#[test]
fn default_capacity_ring_sizes_and_works() {
    let mut ring = BroadcastWriter::create(RingConfig::new(65536));
    let mut reader = BroadcastReader::open(&ring).unwrap();
    let r = record(1, 1, 5, 5, 6, 6);
    ring.publish(r);
    assert_eq!(reader.try_read(&ring), Some(r));
}
