//! Incident records and the evidence-bundle building blocks.
//!
//! Clock values arrive as arguments; file-system and archive packaging
//! live outside the core, which only assembles the exact texts they write.

use vstd::prelude::*;
use crate::digits::{dec_digits, u64_to_string};
use crate::ring::{FrameRing, window_frames};
use crate::health::sat_sub;

verus! {

/// Why an incident was raised.
#[derive(Debug, Clone, Copy, PartialEq, Eq, Structural)]
pub enum IncidentReason {
    ChecksumMismatch,
    RateLimit,
    Disconnect,
    ManualExport,
    FaultInject,
}

/// The short tag a reason contributes to an incident id.
pub open spec fn spec_reason_tag(reason: IncidentReason) -> Seq<char> {
    match reason {
        IncidentReason::ChecksumMismatch => "checksum"@,
        IncidentReason::RateLimit => "ratelimit"@,
        IncidentReason::Disconnect => "disconnect"@,
        IncidentReason::ManualExport => "manual"@,
        IncidentReason::FaultInject => "fault"@,
    }
}

/// The short tag of an incident reason.
pub fn reason_str(reason: &IncidentReason) -> (r: &'static str)
    ensures
        r@ == spec_reason_tag(*reason),
{
    match reason {
        IncidentReason::ChecksumMismatch => "checksum",
        IncidentReason::RateLimit => "ratelimit",
        IncidentReason::Disconnect => "disconnect",
        IncidentReason::ManualExport => "manual",
        IncidentReason::FaultInject => "fault",
    }
}

/// The id of an incident raised at `ts_secs` for `reason`.
pub open spec fn spec_incident_id(ts_secs: u64, reason: IncidentReason) -> Seq<char> {
    "incident_"@ + dec_digits(ts_secs as nat) + "_"@ + spec_reason_tag(reason)
}

/// A named, timestamped anomaly event.
#[derive(Debug, Clone)]
pub struct Incident {
    pub id: String,
    pub timestamp_secs: u64,
    pub reason: IncidentReason,
    pub symbol: Option<String>,
    pub metadata: String,
}

impl Incident {
    /// Creates an incident at `now_secs` with empty JSON metadata; the id
    /// combines the Unix timestamp and the reason tag.
    pub fn new(reason: IncidentReason, symbol: Option<String>, now_secs: u64) -> (r: Incident)
        ensures
            r.id@ == spec_incident_id(now_secs, reason),
            r.timestamp_secs == now_secs,
            r.reason == reason,
            r.symbol == symbol,
            r.metadata@ == "{}"@,
    {
        let mut id = String::new();
        id.append("incident_");
        let ts = u64_to_string(now_secs);
        id.append(ts.as_str());
        id.append("_");
        id.append(reason_str(&reason));
        proof {
            assert(id@ =~= spec_incident_id(now_secs, reason));
            assert(Seq::<char>::empty() + "incident_"@ =~= "incident_"@);
        }
        let mut metadata = String::new();
        metadata.append("{}");
        proof {
            assert(metadata@ =~= "{}"@);
        }
        Incident { id, timestamp_secs: now_secs, reason, symbol, metadata }
    }

    /// Replaces the metadata blob (a JSON text rendered by the caller).
    pub fn with_metadata(self, metadata: String) -> (r: Incident)
        ensures
            r.metadata == metadata,
            r.id == self.id,
            r.timestamp_secs == self.timestamp_secs,
            r.reason == self.reason,
            r.symbol == self.symbol,
    {
        Incident { metadata, ..self }
    }
}

/// Summary of a captured incident as shown to operators.
#[derive(Debug, Clone)]
pub struct IncidentMeta {
    pub id: String,
    pub symbol: String,
    pub reason: String,
    pub created_at_ms: u64,
    pub zip_path: Option<String>,
    pub frames_path: Option<String>,
    pub frame_count: usize,
}

impl IncidentMeta {
    /// A fresh summary created at `now_ms`, with no files attached yet.
    pub fn new(id: String, symbol: String, reason: String, now_ms: u64) -> (r: IncidentMeta)
        ensures
            r.id == id,
            r.symbol == symbol,
            r.reason == reason,
            r.created_at_ms == now_ms,
            r.zip_path is None,
            r.frames_path is None,
            r.frame_count == 0,
    {
        IncidentMeta {
            id,
            symbol,
            reason,
            created_at_ms: now_ms,
            zip_path: None,
            frames_path: None,
            frame_count: 0,
        }
    }
}

/// Everything `metadata.json` of an evidence bundle holds, each section a
/// JSON text rendered by the caller.
#[derive(Debug, Clone)]
pub struct IncidentMetadata {
    pub incident: Incident,
    pub config: String,
    pub health: String,
    pub instrument: Option<String>,
    pub book_top: Option<String>,
}

/// One line of the bundle's frame log: the timestamp text and the raw
/// frame (itself JSON) spliced in verbatim, newline-terminated.
pub open spec fn spec_bundle_frame_line(ts_text: Seq<char>, raw: Seq<char>) -> Seq<char> {
    "{\"ts\":\""@ + ts_text + "\",\"raw_frame\":"@ + raw + "}\n"@
}

/// Renders one line of a bundle's `frames.ndjson`.
pub fn bundle_frame_line(ts_text: &str, raw_frame: &str) -> (r: String)
    ensures
        r@ == spec_bundle_frame_line(ts_text@, raw_frame@),
{
    let mut out = String::new();
    out.append("{\"ts\":\"");
    out.append(ts_text);
    out.append("\",\"raw_frame\":");
    out.append(raw_frame);
    out.append("}\n");
    proof {
        assert(out@ =~= spec_bundle_frame_line(ts_text@, raw_frame@));
    }
    out
}

/// The ring frames belonging to an incident at `incident_ms`: those from
/// 30 seconds before it to 5 seconds after it.
pub fn incident_window(ring: &FrameRing, incident_ms: u64) -> (r: Vec<(u64, String)>)
    ensures
        r@ == window_frames(
            ring.frames@,
            sat_sub(incident_ms as nat, 30000) as u64,
            if incident_ms + 5000 <= u64::MAX { (incident_ms + 5000) as u64 } else { u64::MAX },
        ),
{
    let start = if incident_ms >= 30000 {
        incident_ms - 30000
    } else {
        0
    };
    let end = if incident_ms <= u64::MAX - 5000 {
        incident_ms + 5000
    } else {
        u64::MAX
    };
    ring.frames_in_window(start, end)
}

} // verus!
