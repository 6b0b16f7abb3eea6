//! The shared-memory ring over anonymous mappings: creation, reopening,
//! publishing, and the read-only attach path.

use lithos::engine::{ObsidianProcessor, OnyxEngine};
use lithos::events::{SymbolId, TopOfBook};
use lithos::layout::bytes_for_ring;
use lithos::ring::RingConfig;
use lithos::shm::{ShmReader, ShmWriter};

fn record(ts: u64, sym: u16, bid: i64, bqty: i64, ask: i64, aqty: i64) -> TopOfBook {
    TopOfBook {
        ts_event_ns: ts,
        symbol_id: SymbolId(sym),
        bid_px_ticks: bid,
        bid_qty_lots: bqty,
        ask_px_ticks: ask,
        ask_qty_lots: aqty,
    }
}

#[test]
fn create_requires_the_exact_region_size() {
    let mm = memmap2::MmapMut::map_anon(bytes_for_ring(8) - 1).unwrap();
    assert!(ShmWriter::create_in(mm, RingConfig::new(8)).is_err());
    let mm = memmap2::MmapMut::map_anon(bytes_for_ring(8)).unwrap();
    assert!(ShmWriter::create_in(mm, RingConfig::new(8)).is_ok());
}

#[test]
fn publish_advances_the_image_write_seq() {
    let mm = memmap2::MmapMut::map_anon(bytes_for_ring(8)).unwrap();
    let mut w = ShmWriter::create_in(mm, RingConfig::new(8)).unwrap();
    assert_eq!(w.write_seq, 0);
    w.publish(record(1, 7, 100, 1, 110, 1));
    w.publish(record(2, 7, 101, 1, 111, 1));
    assert_eq!(w.write_seq, 2);

    // Reopening the same image adopts the published count.
    let w2 = ShmWriter::open_in(w.region).unwrap();
    assert_eq!(w2.write_seq, 2);
    assert_eq!(w2.capacity, 8);
}

#[test]
fn open_rejects_a_blank_region() {
    let mm = memmap2::MmapMut::map_anon(bytes_for_ring(8)).unwrap();
    assert_eq!(ShmWriter::open_in(mm).err(), Some("Bad magic"));
}

#[test]
fn reader_attaches_in_tail_follow_mode() {
    let mm = memmap2::MmapMut::map_anon(bytes_for_ring(4)).unwrap();
    let mut w = ShmWriter::create_in(mm, RingConfig::new(4)).unwrap();
    for ts in 1..=3u64 {
        w.publish(record(ts, 1, 10, 1, 11, 1));
    }
    let ro = w.region.make_read_only().unwrap();
    let mut r = ShmReader::open(ro).unwrap();
    assert_eq!(r.read_seq, 3);
    assert_eq!(r.capacity, 4);
    assert_eq!(r.overruns(), 0);
    // Tail-follow: everything published before attach is behind the cursor.
    assert_eq!(r.try_read(), None);
}

#[test]
fn reader_rejects_a_blank_region() {
    let mm = memmap2::MmapMut::map_anon(bytes_for_ring(4)).unwrap();
    let ro = mm.make_read_only().unwrap();
    assert_eq!(ShmReader::open(ro).err(), Some("Bad magic"));
}

#[test]
fn processor_publishes_fast_path_frames() {
    let mm = memmap2::MmapMut::map_anon(bytes_for_ring(8)).unwrap();
    let w = ShmWriter::create_in(mm, RingConfig::new(8)).unwrap();
    let mut p = ObsidianProcessor::new(w.region, SymbolId(7)).unwrap();

    let frame = r#"{"u":123,"s":"BTCUSDT","b":"12345.67","B":"0.123","a":"12345.68","A":"0.456"}"#;
    assert!(p.process_text(frame));
    assert_eq!(p.writer.write_seq, 1);

    // A frame the decoders give up on is dropped.
    assert!(!p.process_text("not json at all"));
    // A decodable frame with a malformed field is dropped.
    let bad = r#"{"b":"12x45","B":"0.123","a":"12345.68","A":"0.456"}"#;
    assert!(!p.process_text(bad));
    assert_eq!(p.writer.write_seq, 1);
}

#[test]
fn processor_falls_back_to_full_json_decoding() {
    let mm = memmap2::MmapMut::map_anon(bytes_for_ring(8)).unwrap();
    let w = ShmWriter::create_in(mm, RingConfig::new(8)).unwrap();
    let mut p = ObsidianProcessor::new(w.region, SymbolId(3)).unwrap();

    // Whitespace defeats the minimal fast-path pattern but not the JSON
    // decoder.
    let spaced = r#"{"b": "1.00", "B": "0.5", "a": "1.01", "A": "0.6"}"#;
    assert!(p.process_text(spaced));
    assert_eq!(p.writer.write_seq, 1);

    // The fallback signals failure when a field is missing.
    let missing = r#"{"b": "1.00", "B": "0.5", "a": "1.01"}"#;
    assert!(!p.process_text(missing));
    assert_eq!(p.writer.write_seq, 1);
}

#[test]
fn consumer_engine_attaches_and_drains_empty() {
    let mm = memmap2::MmapMut::map_anon(bytes_for_ring(4)).unwrap();
    let mut w = ShmWriter::create_in(mm, RingConfig::new(4)).unwrap();
    w.publish(record(5, 2, 200, 1, 202, 1));
    let ro = w.region.make_read_only().unwrap();

    let mut engine = OnyxEngine::new(ro).unwrap();
    // Tail-follow: the record published before attach is not replayed.
    assert_eq!(engine.poll_events(), 0);

    // Records fold into the dense state table through the event path.
    let ev = lithos::events::Event::TopOfBook(record(9, 2, 200, 1, 202, 1));
    engine.process_event(&ev);
    let st = &engine.market_state_manager.markets[2];
    assert_eq!(st.last_update_ns, 9);
    assert_eq!(st.mid_x2, 402);
    assert_eq!(st.spread_ticks, 2);
}

#[test]
fn hot_path_takes_a_caller_supplied_timestamp() {
    let mm = memmap2::MmapMut::map_anon(bytes_for_ring(8)).unwrap();
    let mut w = ShmWriter::create_in(mm, RingConfig::new(8)).unwrap();
    let frame = r#"{"u":1,"s":"X","b":"1.00","B":"0.5","a":"1.01","A":"0.6"}"#;
    assert!(lithos::engine::process_frame_at(&mut w, SymbolId(5), 777, frame));
    assert_eq!(w.write_seq, 1);
    // The published image round-trips through a reopened writer handle.
    let w2 = ShmWriter::open_in(w.region).unwrap();
    assert_eq!(w2.write_seq, 1);
}
