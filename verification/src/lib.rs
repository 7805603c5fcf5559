//! Verified core of a market-data latency benchmark: FIX message building and
//! parsing, SBE binary decoding, stream framing and latency statistics.
pub mod text;
pub mod fix_parse;
pub mod fix_book;
pub mod fix_signing;
pub mod fix_session;
pub mod fix_stream;
pub mod fix_driver;
pub mod credentials;
pub mod sbe;
pub mod stats;
pub mod json_stream;
pub mod fix_roundtrip;
pub mod fix_framing;
