//! Decoded wire-message shapes and the replay configuration.
//!
//! These mirror the vendor's frame payloads with plain values: numeric
//! fields that arrive as JSON numbers or strings are normalized to
//! strings by the decoding layer and parsed here into [`Decimal`]s.

use vstd::prelude::*;
use crate::decimal::Decimal;

verus! {

/// Acknowledgement of a request.
#[derive(Debug, Clone)]
pub struct WsAck {
    pub method: String,
    pub success: Option<bool>,
    pub result: Option<AckResult>,
    pub time_in: Option<u64>,
    pub time_out: Option<u64>,
    pub req_id: Option<u64>,
    pub error: Option<String>,
}

/// The result body of an acknowledgement.
#[derive(Debug, Clone)]
pub struct AckResult {
    pub channel: Option<String>,
    pub req_id: Option<u64>,
}

/// One price level as decoded from a frame, fields normalized to text.
#[derive(Debug, Clone)]
pub struct BookLevelData {
    pub price: String,
    pub qty: String,
}

/// The book payload of one symbol within a book frame.
#[derive(Debug, Clone)]
pub struct BookData {
    pub symbol: String,
    pub bids: Option<Vec<BookLevelData>>,
    pub asks: Option<Vec<BookLevelData>>,
    pub checksum: Option<u32>,
    pub timestamp: Option<String>,
}

/// A frame on the book channel: a snapshot or an update.
#[derive(Debug, Clone)]
pub struct BookMessage {
    pub msg_type: String,
    pub data: Vec<BookData>,
}

/// One instrument's static descriptor as decoded from a frame.
#[derive(Debug, Clone)]
pub struct InstrumentPair {
    pub symbol: String,
    pub price_precision: u32,
    pub qty_precision: u32,
    pub price_increment: String,
    pub qty_increment: String,
    pub status: String,
}

/// The payload of an instrument frame.
#[derive(Debug, Clone)]
pub struct InstrumentData {
    pub pairs: Vec<InstrumentPair>,
}

/// A frame on the instrument channel.
#[derive(Debug, Clone)]
pub struct InstrumentMessage {
    pub msg_type: String,
    pub data: InstrumentData,
}

/// The payload of a status frame.
#[derive(Debug, Clone)]
pub struct StatusData {
    pub system: String,
    pub status: String,
    pub timestamp: String,
}

/// A frame on the status channel.
#[derive(Debug, Clone)]
pub struct StatusMessage {
    pub msg_type: String,
    pub data: StatusData,
}

/// The payload of a heartbeat frame.
#[derive(Debug, Clone)]
pub struct HeartbeatData {
    pub timestamp: String,
}

/// A frame on the heartbeat channel.
#[derive(Debug, Clone)]
pub struct HeartbeatMessage {
    pub msg_type: Option<String>,
    pub data: Option<HeartbeatData>,
}

/// A frame on the ping channel; the payload is carried as raw text.
#[derive(Debug, Clone)]
pub struct PingMessage {
    pub msg_type: String,
    pub data: Option<String>,
}

/// Per-symbol instrument descriptor with parsed increments.
#[derive(Debug, Clone)]
pub struct InstrumentInfo {
    pub symbol: String,
    pub price_precision: u32,
    pub qty_precision: u32,
    pub price_increment: Decimal,
    pub qty_increment: Decimal,
    pub status: String,
}

/// One recorded frame: the timestamp text as written to the log, the raw
/// frame, and an optional decoded summary.
#[derive(Debug, Clone)]
pub struct RecordedFrame {
    pub ts_text: String,
    pub raw_frame: String,
    pub decoded_event: Option<String>,
}

/// How replay paces emission relative to the recorded timestamps.
/// `Speed` carries the multiplier in thousandths (1500 is 1.5x).
#[derive(Debug, Clone, Copy, PartialEq, Eq, Structural)]
pub enum ReplayMode {
    Realtime,
    Speed { milli: u64 },
    AsFast,
}

/// The perturbation a fault rule applies to a book update.
#[derive(Debug, Clone, Copy, PartialEq, Eq, Structural)]
pub enum FaultType {
    Drop,
    Reorder,
    MutateQty { delta_ticks: i32 },
}

/// When a fault fires, counted per symbol over book updates from 1:
/// `Every` fires on every n-th update, `OnceAt` on exactly one index,
/// `NoFault` never.
#[derive(Debug, Clone, Copy, PartialEq, Eq, Structural)]
pub enum FaultRule {
    Every { n: usize, fault: FaultType },
    OnceAt { index: usize, fault: FaultType },
    NoFault,
}

/// Replay pacing and fault injection configuration.
#[derive(Debug, Clone, Copy, PartialEq, Eq, Structural)]
pub struct ReplayConfig {
    pub mode: ReplayMode,
    pub fault: FaultRule,
}

} // verus!
