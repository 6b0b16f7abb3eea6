//! Per-symbol connection state for the ingress side.

use vstd::prelude::*;
use crate::state::MAX_SYMBOLS;

verus! {

/// Ingress-side state kept per symbol.
#[derive(Debug)]
pub struct WebsocketSymbolState {
    /// The latest raw book-ticker frame text for this symbol.
    pub book_tikcer: String,
}

impl Default for WebsocketSymbolState {
    fn default() -> (s: Self)
        ensures
            s.book_tikcer@.len() == 0,
    {
        WebsocketSymbolState { book_tikcer: String::new() }
    }
}

/// The dense table of per-symbol ingress state.
pub struct WebsocketManager {
    /// One entry per possible symbol id.
    pub websocket_connections: Vec<WebsocketSymbolState>,
}

impl WebsocketManager {
    /// Builds a manager with one default entry per possible symbol id.
    pub fn new() -> (m: Self)
        ensures
            m.websocket_connections@.len() == MAX_SYMBOLS,
            forall|i: int|
                0 <= i < MAX_SYMBOLS ==> (
                #[trigger] m.websocket_connections@[i]).book_tikcer@.len() == 0,
    {
        let mut websocket_connections: Vec<WebsocketSymbolState> = Vec::new();
        let mut i: usize = 0;
        while i < MAX_SYMBOLS
            invariant
                websocket_connections@.len() == i,
                i <= MAX_SYMBOLS,
                forall|k: int|
                    0 <= k < i ==> (#[trigger] websocket_connections@[k]).book_tikcer@.len()
                        == 0,
            decreases MAX_SYMBOLS - i,
        {
            websocket_connections.push(WebsocketSymbolState::default());
            i = i + 1;
        }
        WebsocketManager { websocket_connections }
    }
}

} // verus!
