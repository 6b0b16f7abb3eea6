//! Dense per-symbol market state.
//!
//! The consumer keeps one state entry per possible symbol id in a
//! contiguous array, so that the hot-path lookup is a single indexed load:
//! no hashing, no probing, no branching.  Each entry carries the last
//! observed record, its timestamp, a doubled mid price — `bid + ask`, which
//! preserves half-tick precision without floating point — and the spread in
//! ticks.

use vstd::prelude::*;
use crate::events::{SymbolId, TopOfBook, spec_tob_zero};

verus! {

/// Maximum number of symbols the state table covers.  Symbol ids are
/// assigned densely from zero, so this bounds the id space.
pub const MAX_SYMBOLS: usize = 256;

/// Microstructure state of one market, updated from top-of-book events.
#[derive(Debug, Clone, Copy, PartialEq, Eq, Structural)]
pub struct MarketsState {
    /// Symbol of this state.
    pub symbol_id: SymbolId,
    /// The last top-of-book record observed for this symbol.
    pub last_tob: TopOfBook,
    /// Timestamp of the last state update, in nanoseconds.
    pub last_update_ns: u64,
    /// Twice the mid price in ticks: `bid + ask`, exact, preserving the
    /// half tick.  Divide by two for the mid price.
    pub mid_x2: i64,
    /// Spread in ticks: `ask - bid`.  Positive for a well-formed book; the
    /// computed value is stored regardless so anomalies stay visible.
    pub spread_ticks: i64,
}

/// The state entry after applying a record: the record and its timestamp
/// are stored, the doubled mid and the spread are recomputed.
pub open spec fn spec_apply_tob(st: MarketsState, tob: TopOfBook) -> MarketsState {
    MarketsState {
        symbol_id: st.symbol_id,
        last_tob: tob,
        last_update_ns: tob.ts_event_ns,
        mid_x2: (tob.bid_px_ticks + tob.ask_px_ticks) as i64,
        spread_ticks: (tob.ask_px_ticks - tob.bid_px_ticks) as i64,
    }
}

/// Holds of records whose derived statistics fit the machine integers.
pub open spec fn spec_tob_stats_fit(tob: TopOfBook) -> bool {
    &&& i64::MIN <= tob.bid_px_ticks + tob.ask_px_ticks <= i64::MAX
    &&& i64::MIN <= tob.ask_px_ticks - tob.bid_px_ticks <= i64::MAX
}

impl MarketsState {
    /// The all-zero state for the symbol at a table index, used to fill the
    /// table at startup.
    pub fn default_from_index(i: usize) -> (st: Self)
        requires
            i < 65536,
        ensures
            st == (MarketsState {
                symbol_id: SymbolId(i as u16),
                last_tob: spec_tob_zero(),
                last_update_ns: 0,
                mid_x2: 0,
                spread_ticks: 0,
            }),
    {
        MarketsState {
            symbol_id: SymbolId(i as u16),
            last_tob: TopOfBook::default(),
            last_update_ns: 0,
            mid_x2: 0,
            spread_ticks: 0,
        }
    }

    /// Applies one top-of-book record to this state: stores the record and
    /// its timestamp, and recomputes the doubled mid and the spread.
    pub fn update_state_tob(&mut self, tob: &TopOfBook)
        requires
            spec_tob_stats_fit(*tob),
        ensures
            *final(self) == spec_apply_tob(*old(self), *tob),
    {
        self.last_tob = *tob;
        self.last_update_ns = tob.ts_event_ns;
        self.mid_x2 = tob.bid_px_ticks + tob.ask_px_ticks;
        self.spread_ticks = tob.ask_px_ticks - tob.bid_px_ticks;
    }
}

/// The dense symbol-indexed table of market states.
pub struct MarketStateManager {
    /// One state per possible symbol id, indexed directly by the id.
    pub markets: Vec<MarketsState>,
}

impl MarketStateManager {
    /// One fully initialized entry per possible symbol id.
    pub open spec fn wf(&self) -> bool {
        self.markets@.len() == MAX_SYMBOLS
    }

    /// Builds a manager with every slot initialized to the default state
    /// for its own symbol id.
    pub fn new() -> (m: Self)
        ensures
            m.wf(),
            forall|i: int|
                0 <= i < MAX_SYMBOLS ==> #[trigger] m.markets@[i] == (MarketsState {
                    symbol_id: SymbolId(i as u16),
                    last_tob: spec_tob_zero(),
                    last_update_ns: 0,
                    mid_x2: 0,
                    spread_ticks: 0,
                }),
    {
        let mut markets: Vec<MarketsState> = Vec::new();
        let mut i: usize = 0;
        while i < MAX_SYMBOLS
            invariant
                markets@.len() == i,
                i <= MAX_SYMBOLS,
                forall|k: int|
                    0 <= k < i ==> #[trigger] markets@[k] == (MarketsState {
                        symbol_id: SymbolId(k as u16),
                        last_tob: spec_tob_zero(),
                        last_update_ns: 0,
                        mid_x2: 0,
                        spread_ticks: 0,
                    }),
            decreases MAX_SYMBOLS - i,
        {
            markets.push(MarketsState::default_from_index(i));
            i = i + 1;
        }
        MarketStateManager { markets }
    }

    /// Updates the state of the record's symbol in place: a single indexed
    /// store, with the symbol id used directly as the table index.
    pub fn update_market_state_tob(&mut self, tob: &TopOfBook)
        requires
            old(self).wf(),
            tob.symbol_id.0 < MAX_SYMBOLS,
            spec_tob_stats_fit(*tob),
        ensures
            final(self).wf(),
            final(self).markets@ == old(self).markets@.update(
                tob.symbol_id.0 as int,
                spec_apply_tob(old(self).markets@[tob.symbol_id.0 as int], *tob),
            ),
    {
        let tob_symbol = tob.symbol_id.0 as usize;
        let market = &mut self.markets[tob_symbol];
        market.update_state_tob(tob);
    }
}

} // verus!
