//! The operator-visible event log and its display aggregation.
//!
//! The log is a bounded ring; for display, consecutive checksum
//! successes of one symbol collapse into a single counted entry.

use vstd::prelude::*;
use crate::digits::{dec_digits, u64_to_string};

verus! {

/// An event surfaced to the observability layer.
#[derive(Debug, Clone)]
pub enum UiEvent {
    Connected,
    Disconnected,
    SubscribedInstrument,
    SubscribedBook,
    ChecksumOk { symbol: String },
    ChecksumMismatch { symbol: String },
    ResyncStarted { symbol: String },
    ResyncDone { symbol: String },
    RecordStarted { path: String },
    RecordStopped,
    IncidentCaptured { id: String, reason: String },
    IncidentExported { path: String },
    FaultInjected { fault_type: String, symbol: String },
    Error(String),
}

/// A timestamped event-log entry.
#[derive(Debug, Clone)]
pub struct UiEventLogEntry {
    pub timestamp_ms: u64,
    pub event: UiEvent,
}

/// Display class of an aggregated event line.
#[derive(Debug, Clone, Copy, PartialEq, Eq, Structural)]
pub enum EventColor {
    Normal,
    Error,
    Warning,
    Info,
}

/// One aggregated display line.
#[derive(Debug, Clone)]
pub struct AggregatedEvent {
    pub timestamp_ms: u64,
    pub text: String,
    pub color: EventColor,
}

/// Appends to the event log, evicting the oldest entry beyond 500.
pub fn push_event(log: &mut Vec<UiEventLogEntry>, timestamp_ms: u64, event: UiEvent)
    requires
        old(log)@.len() <= 500,
    ensures
        final(log)@.len() <= 500,
        final(log)@ == (if old(log)@.len() < 500 {
            old(log)@.push(UiEventLogEntry { timestamp_ms, event })
        } else {
            old(log)@.skip(1).push(UiEventLogEntry { timestamp_ms, event })
        }),
{
    if log.len() == 500 {
        let ghost l0 = log@;
        log.remove(0);
        proof {
            assert(log@ =~= l0.skip(1));
        }
    }
    log.push(UiEventLogEntry { timestamp_ms, event });
}

/// The display text of an event that is not aggregated.
pub open spec fn plain_text(e: UiEvent) -> Seq<char> {
    match e {
        UiEvent::Connected => "CONNECTED"@,
        UiEvent::Disconnected => "DISCONNECTED"@,
        UiEvent::SubscribedInstrument => "SUBSCRIBED_INSTRUMENT"@,
        UiEvent::SubscribedBook => "SUBSCRIBED_BOOK"@,
        UiEvent::ChecksumOk { symbol } => "CHECKSUM_OK "@ + symbol@,
        UiEvent::ChecksumMismatch { symbol } => "CHECKSUM_MISMATCH "@ + symbol@,
        UiEvent::ResyncStarted { symbol } => "RESYNC_STARTED "@ + symbol@,
        UiEvent::ResyncDone { symbol } => "RESYNC_DONE "@ + symbol@,
        UiEvent::RecordStarted { path } => "RECORD_STARTED "@ + path@,
        UiEvent::RecordStopped => "RECORD_STOPPED"@,
        UiEvent::IncidentCaptured { id, reason } => "INCIDENT_CAPTURED "@ + id@ + " ("@ + reason@
            + ")"@,
        UiEvent::IncidentExported { path } => "INCIDENT_EXPORTED "@ + path@,
        UiEvent::FaultInjected { fault_type, symbol } => "FAULT_INJECTED "@ + fault_type@ + " "@
            + symbol@,
        UiEvent::Error(e) => "ERROR "@ + e@,
    }
}

/// The display class of an event.
pub open spec fn event_color(e: UiEvent) -> EventColor {
    match e {
        UiEvent::ChecksumMismatch { symbol } => EventColor::Error,
        UiEvent::IncidentCaptured { id, reason } => EventColor::Error,
        UiEvent::IncidentExported { path } => EventColor::Info,
        UiEvent::FaultInjected { fault_type, symbol } => EventColor::Warning,
        _ => EventColor::Normal,
    }
}

/// How many consecutive checksum successes of `sym` start at `i`.
pub open spec fn run_len(events: Seq<UiEventLogEntry>, i: int, sym: Seq<char>) -> nat
    decreases events.len() - i,
{
    if i < 0 || i >= events.len() {
        0
    } else {
        match events[i].event {
            UiEvent::ChecksumOk { symbol } => if symbol@ == sym {
                1 + run_len(events, i + 1, sym)
            } else {
                0
            },
            _ => 0,
        }
    }
}

/// The aggregated display lines from position `i`, at most `remaining`
/// of them: runs of checksum successes of one symbol collapse into one
/// counted line, everything else maps to its plain line.
pub open spec fn spec_aggregate(events: Seq<UiEventLogEntry>, i: int, remaining: nat)
    -> Seq<(u64, Seq<char>, EventColor)>
    decreases remaining,
{
    if i < 0 || i >= events.len() || remaining == 0 {
        Seq::empty()
    } else {
        match events[i].event {
            UiEvent::ChecksumOk { symbol } => {
                let rl = run_len(events, i, symbol@);
                let text = if rl > 1 {
                    "CHECKSUM_OK "@ + symbol@ + " x"@ + dec_digits(rl)
                } else {
                    "CHECKSUM_OK "@ + symbol@
                };
                seq![(events[i].timestamp_ms, text, EventColor::Normal)]
                    + spec_aggregate(events, i + rl, (remaining - 1) as nat)
            },
            _ => seq![(events[i].timestamp_ms, plain_text(events[i].event),
                event_color(events[i].event))]
                + spec_aggregate(events, i + 1, (remaining - 1) as nat),
        }
    }
}

/// The display view of aggregated entries.
pub open spec fn agg_view(v: Seq<AggregatedEvent>) -> Seq<(u64, Seq<char>, EventColor)> {
    v.map_values(|a: AggregatedEvent| (a.timestamp_ms, a.text@, a.color))
}

/// Aggregates an event window into at most `limit` display lines.
pub fn aggregate_events(events: &Vec<UiEventLogEntry>, limit: usize) -> (r: Vec<AggregatedEvent>)
    ensures
        agg_view(r@) == spec_aggregate(events@, 0, limit as nat),
{
    let mut out: Vec<AggregatedEvent> = Vec::new();
    let mut i: usize = 0;
    proof {
        assert(agg_view(out@) =~= Seq::<(u64, Seq<char>, EventColor)>::empty());
    }
    while i < events.len() && out.len() < limit
        invariant
            i <= events@.len(),
            out@.len() <= limit,
            spec_aggregate(events@, 0, limit as nat) == agg_view(out@)
                + spec_aggregate(events@, i as int, (limit - out@.len()) as nat),
        decreases events@.len() - i,
    {
        let ghost out0 = agg_view(out@);
        let ghost rem = (limit - out@.len()) as nat;
        let entry_ts = events[i].timestamp_ms;
        let is_ok_sym: Option<String> = match &events[i].event {
            UiEvent::ChecksumOk { symbol } => Some(symbol.clone()),
            _ => None,
        };
        match is_ok_sym {
            Some(sym) => {
                // Count the run of consecutive successes of this symbol.
                let mut j: usize = i + 1;
                while j < events.len() && is_ok_of(&events[j].event, sym.as_str())
                    invariant
                        i < j <= events@.len(),
                        run_len(events@, i as int, sym@)
                            == (j - i) + run_len(events@, j as int, sym@),
                    decreases events@.len() - j,
                {
                    j = j + 1;
                }
                proof {
                    assert(run_len(events@, j as int, sym@) == 0);
                    assert(run_len(events@, i as int, sym@) == j - i);
                }
                let rl = j - i;
                let mut text = String::new();
                text.append("CHECKSUM_OK ");
                text.append(sym.as_str());
                if rl > 1 {
                    text.append(" x");
                    let cnt = u64_to_string(rl as u64);
                    text.append(cnt.as_str());
                    proof {
                        assert(text@ =~= "CHECKSUM_OK "@ + sym@ + " x"@ + dec_digits(rl as nat));
                    }
                } else {
                    proof {
                        assert(text@ =~= "CHECKSUM_OK "@ + sym@);
                    }
                }
                out.push(AggregatedEvent {
                    timestamp_ms: entry_ts,
                    text,
                    color: EventColor::Normal,
                });
                proof {
                    assert(agg_view(out@) =~= out0.push(
                        (entry_ts, out@.last().text@, EventColor::Normal)));
                    assert(spec_aggregate(events@, i as int, rem)
                        =~= seq![(entry_ts, out@.last().text@, EventColor::Normal)]
                            + spec_aggregate(events@, i + rl, (rem - 1) as nat));
                    assert(out0 + spec_aggregate(events@, i as int, rem)
                        =~= agg_view(out@) + spec_aggregate(events@, i + rl, (rem - 1) as nat));
                }
                i = j;
            },
            None => {
                let (text, color): (String, EventColor) = match &events[i].event {
                    UiEvent::Connected => (str_to_string("CONNECTED"), EventColor::Normal),
                    UiEvent::Disconnected => (str_to_string("DISCONNECTED"), EventColor::Normal),
                    UiEvent::SubscribedInstrument => (
                        str_to_string("SUBSCRIBED_INSTRUMENT"), EventColor::Normal),
                    UiEvent::SubscribedBook => (
                        str_to_string("SUBSCRIBED_BOOK"), EventColor::Normal),
                    UiEvent::ChecksumOk { symbol } => (
                        concat2("CHECKSUM_OK ", symbol.as_str()), EventColor::Normal),
                    UiEvent::ChecksumMismatch { symbol } => (
                        concat2("CHECKSUM_MISMATCH ", symbol.as_str()), EventColor::Error),
                    UiEvent::ResyncStarted { symbol } => (
                        concat2("RESYNC_STARTED ", symbol.as_str()), EventColor::Normal),
                    UiEvent::ResyncDone { symbol } => (
                        concat2("RESYNC_DONE ", symbol.as_str()), EventColor::Normal),
                    UiEvent::RecordStarted { path } => (
                        concat2("RECORD_STARTED ", path.as_str()), EventColor::Normal),
                    UiEvent::RecordStopped => (
                        str_to_string("RECORD_STOPPED"), EventColor::Normal),
                    UiEvent::IncidentCaptured { id, reason } => {
                        let mut t = String::new();
                        t.append("INCIDENT_CAPTURED ");
                        t.append(id.as_str());
                        t.append(" (");
                        t.append(reason.as_str());
                        t.append(")");
                        (t, EventColor::Error)
                    },
                    UiEvent::IncidentExported { path } => (
                        concat2("INCIDENT_EXPORTED ", path.as_str()), EventColor::Info),
                    UiEvent::FaultInjected { fault_type, symbol } => {
                        let mut t = String::new();
                        t.append("FAULT_INJECTED ");
                        t.append(fault_type.as_str());
                        t.append(" ");
                        t.append(symbol.as_str());
                        (t, EventColor::Warning)
                    },
                    UiEvent::Error(e) => (concat2("ERROR ", e.as_str()), EventColor::Normal),
                };
                proof {
                    assert(text@ =~= plain_text(events@[i as int].event));
                    assert(color == event_color(events@[i as int].event));
                }
                out.push(AggregatedEvent { timestamp_ms: entry_ts, text, color });
                proof {
                    assert(agg_view(out@) =~= out0.push(
                        (entry_ts, out@.last().text@, out@.last().color)));
                    assert(out0 + spec_aggregate(events@, i as int, rem)
                        =~= agg_view(out@) + spec_aggregate(events@, i + 1, (rem - 1) as nat));
                }
                i = i + 1;
            },
        }
    }
    proof {
        assert(spec_aggregate(events@, i as int, (limit - out@.len()) as nat)
            =~= Seq::<(u64, Seq<char>, EventColor)>::empty());
        assert(agg_view(out@) + Seq::<(u64, Seq<char>, EventColor)>::empty() =~= agg_view(out@));
    }
    out
}

/// Whether an event is a checksum success of the given symbol.
fn is_ok_of(e: &UiEvent, sym: &str) -> (r: bool)
    ensures
        r == (match e {
            UiEvent::ChecksumOk { symbol } => symbol@ == sym@,
            _ => false,
        }),
{
    match e {
        UiEvent::ChecksumOk { symbol } => crate::strutil::str_eq(symbol.as_str(), sym),
        _ => false,
    }
}

/// Copies a literal into an owned string.
fn str_to_string(s: &str) -> (r: String)
    ensures
        r@ == s@,
{
    let mut out = String::new();
    out.append(s);
    proof {
        assert(out@ =~= s@);
    }
    out
}

/// Concatenates a literal prefix and a value.
fn concat2(prefix: &str, value: &str) -> (r: String)
    ensures
        r@ == prefix@ + value@,
{
    let mut out = String::new();
    out.append(prefix);
    out.append(value);
    proof {
        assert(out@ =~= prefix@ + value@);
    }
    out
}

} // verus!
