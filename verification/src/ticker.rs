//! Allocation-light extraction of book-ticker fields from a JSON frame.
//!
//! The fast path scans the frame for minimal fragments `"<k>":"<v>"` where
//! `<k>` is one of the single-letter keys `b`, `B`, `a`, `A` and `<v>` is a
//! simple quoted string with no escapes.  The first sighting of each key
//! wins; later duplicates are ignored.  On any malformed quoting, or when a
//! key never appears, the scan signals fallback so the caller can run a full
//! JSON decoder instead.

use vstd::prelude::*;
use vstd::slice::slice_subrange;
use vstd::string::StringSliceAdditionalSpecFns;
use crate::fixed::{spec_find_from, lemma_find_from_unique, lemma_find_from_bounds};

verus! {

/// The four best-bid/best-ask fields of a book-ticker frame, as byte
/// strings: bid price, bid quantity, ask price, ask quantity.  Each is
/// copied out of the frame into a small owned buffer — the one divergence
/// from a borrow-only scan, taken so the fields can carry exact contracts
/// over their own views.
#[derive(Debug, Clone)]
pub struct BinanceBookTickerView {
    pub b: Vec<u8>,
    pub b_qty: Vec<u8>,
    pub a: Vec<u8>,
    pub a_qty: Vec<u8>,
}

/// One pass of the fast scan from position `i`, with the fields bound so
/// far.  Mirrors the extraction rule exactly: find a fragment
/// `"<k>":"<v>"`, bind `<v>` to `<k>` unless `<k>` is already bound, stop
/// with all four fields as soon as the set completes, and give up — `None` —
/// when the frame ends first or a value's closing quote is missing.
pub open spec fn spec_scan(
    s: Seq<u8>,
    i: int,
    bid: Option<Seq<u8>>,
    bqty: Option<Seq<u8>>,
    ask: Option<Seq<u8>>,
    aqty: Option<Seq<u8>>,
) -> Option<(Seq<u8>, Seq<u8>, Seq<u8>, Seq<u8>)>
    decreases s.len() - i,
    via spec_scan_decreases
{
    if i < 0 || i + 5 > s.len() {
        None
    } else if s[i] != 34 || s[i + 2] != 34 || s[i + 3] != 58 || s[i + 4] != 34 {
        spec_scan(s, i + 1, bid, bqty, ask, aqty)
    } else {
        let j = spec_find_from(s, i + 5, 34);
        if j >= s.len() {
            None
        } else {
            let v = s.subrange(i + 5, j);
            let key = s[i + 1];
            let bid2 = if key == 98 && bid is None {
                Some(v)
            } else {
                bid
            };
            let bqty2 = if key == 66 && bqty is None {
                Some(v)
            } else {
                bqty
            };
            let ask2 = if key == 97 && ask is None {
                Some(v)
            } else {
                ask
            };
            let aqty2 = if key == 65 && aqty is None {
                Some(v)
            } else {
                aqty
            };
            if bid2 is Some && bqty2 is Some && ask2 is Some && aqty2 is Some {
                Some((bid2->0, bqty2->0, ask2->0, aqty2->0))
            } else {
                spec_scan(s, j + 1, bid2, bqty2, ask2, aqty2)
            }
        }
    }
}

#[via_fn]
proof fn spec_scan_decreases(
    s: Seq<u8>,
    i: int,
    bid: Option<Seq<u8>>,
    bqty: Option<Seq<u8>>,
    ask: Option<Seq<u8>>,
    aqty: Option<Seq<u8>>,
) {
    if 0 <= i && i + 5 <= s.len() {
        lemma_find_from_bounds(s, i + 5, 34);
    }
}

/// What the fast extractor yields on a frame: the four fields, or `None`
/// as the signal to fall back to a general JSON decoder.
pub open spec fn spec_book_ticker_fields(s: Seq<u8>) -> Option<
    (Seq<u8>, Seq<u8>, Seq<u8>, Seq<u8>),
> {
    spec_scan(s, 0, None, None, None, None)
}

/// Fast, allocation-light extractor for book-ticker JSON frames.
///
/// Scans for `"<k>":"<v>"` fragments and returns the four fields bound by
/// the scan, or `None` — the fallback signal — when the scan gives up.
pub fn parse_binance_book_ticker_fast(input: &str) -> (r: Option<BinanceBookTickerView>)
    ensures
        match r {
            Some(v) => spec_book_ticker_fields(input.spec_bytes()) == Some(
                (v.b@, v.b_qty@, v.a@, v.a_qty@),
            ),
            None => spec_book_ticker_fields(input.spec_bytes()) is None,
        },
{
    let b = input.as_bytes();
    let len = b.len();
    let mut i: usize = 0;

    let mut bid_px: Option<Vec<u8>> = None;
    let mut bid_qty: Option<Vec<u8>> = None;
    let mut ask_px: Option<Vec<u8>> = None;
    let mut ask_qty: Option<Vec<u8>> = None;

    let ghost goal = spec_scan(b@, 0, None, None, None, None);

    while len >= 5 && i <= len - 5
        invariant
            0 <= i <= len + 5,
            len == b@.len(),
            b@ == input.spec_bytes(),
            goal == spec_book_ticker_fields(input.spec_bytes()),
            goal == spec_scan(
                b@,
                i as int,
                match bid_px {
                    Some(ref v) => Some(v@),
                    None => None,
                },
                match bid_qty {
                    Some(ref v) => Some(v@),
                    None => None,
                },
                match ask_px {
                    Some(ref v) => Some(v@),
                    None => None,
                },
                match ask_qty {
                    Some(ref v) => Some(v@),
                    None => None,
                },
            ),
        decreases len - i,
    {
        // Detect a key/value fragment: "<k>":"<value>"
        if b[i] != 34 || b[i + 2] != 34 || b[i + 3] != 58 || b[i + 4] != 34 {
            i = i + 1;
            continue ;
        }
        let key = b[i + 1];

        let value_start = i + 5;
        let mut j = value_start;
        while j < len && b[j] != 34
            invariant
                value_start <= j <= len == b@.len(),
                forall|k: int| value_start <= k < j ==> b@[k] != 34,
            decreases len - j,
        {
            j = j + 1;
        }
        proof {
            lemma_find_from_unique(b@, value_start as int, 34, j as int);
        }
        if j >= len {
            return None;
        }

        let mut value: Vec<u8> = Vec::new();
        value.extend_from_slice(slice_subrange(b, value_start, j));
        assert(value@ == b@.subrange(value_start as int, j as int));

        if key == 98 && bid_px.is_none() {
            bid_px = Some(value);
        } else if key == 66 && bid_qty.is_none() {
            bid_qty = Some(value);
        } else if key == 97 && ask_px.is_none() {
            ask_px = Some(value);
        } else if key == 65 && ask_qty.is_none() {
            ask_qty = Some(value);
        }

        if bid_px.is_some() && bid_qty.is_some() && ask_px.is_some() && ask_qty.is_some() {
            let r = BinanceBookTickerView {
                b: bid_px.unwrap(),
                b_qty: bid_qty.unwrap(),
                a: ask_px.unwrap(),
                a_qty: ask_qty.unwrap(),
            };
            return Some(r);
        }

        i = j + 1;
    }

    None
}

} // verus!
