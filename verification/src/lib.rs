//! Market-data integrity core.
//!
//! The crate maintains a bit-exact replica of remote order books fed by a
//! snapshot-then-delta stream, verifies each update against a CRC32 checksum
//! computed over a canonically formatted top-of-book slice, tracks per-symbol
//! health, buffers raw frames for incident capture, and replays recorded
//! frame logs deterministically with optional fault injection.

pub mod strutil;
pub mod digits;
pub mod decimal;
pub mod orderbook;
pub mod checksum;
pub mod health;
pub mod ring;
pub mod fault;
pub mod misc;
pub mod types;
pub mod incident;
pub mod codec;
pub mod replayer;
pub mod integrity;
pub mod events;
pub mod tuiapp;
