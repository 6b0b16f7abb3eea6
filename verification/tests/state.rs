//! Record layout, per-symbol state, the stage recorder, and defaults.

use lithos::clock::now_ns;
use lithos::config::{capacity, log_level, shm_file_path};
use lithos::events::{tob_from_bytes, tob_to_bytes, SymbolId, TopOfBook, TOB_WIRE_BYTES};
use lithos::perf::{PerfRecorder, PerfStage, MAX_SAMPLES, NUM_STAGES};
use lithos::state::{MarketStateManager, MarketsState, MAX_SYMBOLS};
use lithos::websocket::WebsocketManager;

fn record(ts: u64, sym: u16, bid: i64, bqty: i64, ask: i64, aqty: i64) -> TopOfBook {
    TopOfBook {
        ts_event_ns: ts,
        symbol_id: SymbolId(sym),
        bid_px_ticks: bid,
        bid_qty_lots: bqty,
        ask_px_ticks: ask,
        ask_qty_lots: aqty,
    }
}

#[test]
fn tob_is_small_and_aligned() {
    let wire = tob_to_bytes(&record(1, 2, 3, 4, 5, 6));
    assert_eq!(wire.len(), 42, "TopOfBook layout changed");
    assert_eq!(TOB_WIRE_BYTES, 42, "TopOfBook should be packed");
}

#[test]
fn symbol_id_is_pod() {
    assert_eq!(std::mem::size_of::<SymbolId>(), 2);
}

#[test]
fn tob_wire_codec_round_trips() {
    let r = record(123_456_789, 42, -100, 2_000, 105, -3);
    let wire = tob_to_bytes(&r);
    assert_eq!(tob_from_bytes(wire.as_slice()), r);
    // Little-endian field layout: timestamp first, symbol next.
    assert_eq!(&wire[0..8], &123_456_789u64.to_le_bytes());
    assert_eq!(&wire[8..10], &42u16.to_le_bytes());
    assert_eq!(&wire[10..18], &(-100i64).to_le_bytes());
}

#[test]
fn mid_ticks_is_the_truncated_mid() {
    let r = record(0, 0, 100, 1, 111, 1);
    assert_eq!(r.mid_ticks(), 105);
    let n = record(0, 0, -100, 1, -111, 1);
    assert_eq!(n.mid_ticks(), -105);
}

#[test]
fn state_update_computes_mid_and_spread() {
    let mut m = MarketStateManager::new();
    assert_eq!(m.markets.len(), MAX_SYMBOLS);
    assert_eq!(m.markets[9].symbol_id, SymbolId(9));

    let r = record(77, 9, 100, 5, 111, 6);
    m.update_market_state_tob(&r);
    let st = &m.markets[9];
    assert_eq!(st.last_tob, r);
    assert_eq!(st.last_update_ns, 77);
    assert_eq!(st.mid_x2, 211);
    assert_eq!(st.spread_ticks, 11);
    // Other entries untouched.
    assert_eq!(m.markets[8].last_update_ns, 0);
}

#[test]
fn default_state_carries_its_index() {
    let st = MarketsState::default_from_index(31);
    assert_eq!(st.symbol_id, SymbolId(31));
    assert_eq!(st.mid_x2, 0);
    assert_eq!(st.spread_ticks, 0);
}

#[test]
fn perf_recorder_records_and_resets() {
    let mut p = PerfRecorder::new();
    assert_eq!(NUM_STAGES, 10);
    assert!(MAX_SAMPLES >= 1);
    assert_eq!(p.count(PerfStage::ParseJson), 0);

    p.record(PerfStage::ParseJson, 5);
    p.record(PerfStage::ParseJson, 9);
    p.record(PerfStage::Publish, 3);
    assert_eq!(p.count(PerfStage::ParseJson), 2);
    assert_eq!(p.samples(PerfStage::ParseJson), &[5, 9]);
    assert_eq!(p.samples(PerfStage::Publish), &[3]);

    p.begin(PerfStage::TryRead);
    p.end(PerfStage::TryRead);
    assert_eq!(p.count(PerfStage::TryRead), 1);

    p.drain(PerfStage::ParseJson);
    assert_eq!(p.count(PerfStage::ParseJson), 0);
    assert_eq!(p.count(PerfStage::Publish), 1);

    p.reset();
    assert_eq!(p.count(PerfStage::Publish), 0);
    assert_eq!(p.count(PerfStage::TryRead), 0);
}

#[test]
fn clock_is_non_trivial() {
    let a = now_ns();
    let b = now_ns();
    assert!(b >= a || a > 0);
}

#[test]
fn defaults_match_the_documented_values() {
    assert_eq!(shm_file_path(), "/tmp/lithos_md_bus");
    assert_eq!(log_level(), "info");
    assert_eq!(capacity(), 65536);
}

#[test]
fn websocket_manager_covers_the_symbol_space() {
    let m = WebsocketManager::new();
    assert_eq!(m.websocket_connections.len(), MAX_SYMBOLS);
    assert_eq!(m.websocket_connections[0].book_tikcer, "");
}
