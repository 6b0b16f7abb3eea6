//! A low-latency market-data distribution fabric.
//!
//! A publisher ingests best-bid/best-ask quote frames, normalizes them to a
//! fixed-point binary record, and writes them into a broadcast ring so that
//! independent consumers can observe the newest state per instrument.  The
//! ring is one-writer-per-slot, many-reader, lock-free, and tail-follow:
//! readers attach to a live stream and may lose messages, but never see torn
//! data without detecting the loss.
//!
//! The pieces, leaves first: [`fixed`] converts decimal text to scaled
//! integers, [`ticker`] extracts the four book-ticker fields from a frame,
//! [`events`] defines the published record and its 42-byte wire form,
//! [`layout`] the region header and sizing, [`ring`] the index and overrun
//! arithmetic, and [`seqlock`] the slot protocol.  [`broadcast`] is the
//! ring over owned memory, where the broadcast laws are stated and proved;
//! [`shm`] carries the same protocol onto a shared memory-mapped region;
//! [`engine`] is the publisher hot path and the consumer engine over
//! [`state`]'s dense per-symbol table.

pub mod ring;
pub mod events;
pub mod layout;
pub mod fixed;
pub mod ticker;
pub mod seqlock;
pub mod broadcast;
pub mod state;
pub mod clock;
pub mod config;
pub mod perf;
pub mod websocket;
pub mod shm;
pub mod engine;

pub use broadcast::{BroadcastReader, BroadcastWriter};
pub use events::{Event, SymbolId, TopOfBook};
pub use ring::RingConfig;
