//! An offline analyzer for Windows event logs: it enumerates `.evtx` files,
//! filters decoded records by event identifier, flattens the fields the
//! active rules read, evaluates per-event and windowed aggregate detection
//! rules in deterministic order, and keeps per-file statistics — the record
//! total, timestamp bounds, an event-identifier histogram and a per-user
//! logon tally. Every function here carries a contract that pins its result;
//! decoding, rule loading, display and file handling live with the caller.

pub mod aggregate;
pub mod engine;
pub mod filter;
pub mod fsenum;
pub mod outside;
pub mod pipeline;
pub mod prepare;
pub mod rules;
pub mod stats;
pub mod strtext;
pub mod timeline;
pub mod value;
