//! Configuration values for the publisher and consumer processes.
//!
//! Only the plain values live here; reading a configuration file and
//! decoding it belong to the binaries around the library.

use vstd::prelude::*;

verus! {

/// Configuration of the publisher process.
#[derive(Debug)]
pub struct ObsidianConfig {
    /// Path of the shared ring file.
    pub shm_file_path: String,
    /// Log level name.
    pub log_level: String,
    /// Ring capacity in slots; must be a power of two.
    pub capacity: usize,
    /// One upstream connection per instrument.
    pub connections: Vec<ConnectionConfig>,
}

/// One upstream source: where to connect and which symbol id the frames
/// from it carry.
#[derive(Debug)]
pub struct ConnectionConfig {
    /// Source URL.
    pub url: String,
    /// Symbol id bound to this connection.
    pub symbol_id: u16,
}

/// Configuration of the consumer process.
#[derive(Debug)]
pub struct OnyxConfig {
    /// Path of the shared ring file.
    pub shm_file_path: String,
    /// Log level name.
    pub log_level: String,
}

/// Default path of the shared ring file.
pub fn shm_file_path() -> (r: String)
    ensures
        r@ == "/tmp/lithos_md_bus"@,
{
    "/tmp/lithos_md_bus".to_owned()
}

/// Default log level.
pub fn log_level() -> (r: String)
    ensures
        r@ == "info"@,
{
    "info".to_owned()
}

/// Default ring capacity: 65536 slots, a power of two.
pub fn capacity() -> (r: usize)
    ensures
        r == 65536,
{
    65536
}

} // verus!
