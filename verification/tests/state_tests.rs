use blackbox::health::{SymbolHealth, HealthStatus, overall_status};
use blackbox::ring::FrameRing;
use blackbox::incident::{Incident, IncidentReason, IncidentMeta, reason_str, bundle_frame_line,
    incident_window};
use blackbox::fault::{FaultInjector, FaultType};
use blackbox::events::{UiEvent, UiEventLogEntry, EventColor, aggregate_events, push_event};
use blackbox::tuiapp::{TuiApp, TuiAction, TuiTab, KeyInput, key_to_action, IntegrityStatus,
    SymbolHealthRow, integrity_badge_status};

fn entry(ts: u64, event: UiEvent) -> UiEventLogEntry {
    UiEventLogEntry { timestamp_ms: ts, event }
}

#[test]
fn health_score_and_status() {
    let now: u64 = 1_000_000;
    let mut h = SymbolHealth::new("BTC/USD".to_string());
    // Disconnected and never heard from: 100 - 50 - 30 = 20.
    assert_eq!(h.health_score(now), 20);
    assert!(matches!(h.status(now), HealthStatus::Fail));

    h.connected = true;
    h.record_message(now);
    assert_eq!(h.health_score(now), 100);
    assert!(matches!(h.status(now), HealthStatus::Good));

    // Two failures out of two: rate 100%, streak 2.
    h.record_checksum_fail(now);
    h.record_checksum_fail(now);
    // 100 - 100 (rate) saturates; stays 0.
    assert_eq!(h.health_score(now), 0);
    assert_eq!(h.consecutive_fails, 2);
    assert_eq!(h.last_checksum_mismatch_ms, Some(now));

    // A success resets the streak.
    h.record_checksum_ok();
    assert_eq!(h.consecutive_fails, 0);

    // Staleness: last message over 60 seconds old costs 30.
    let mut s = SymbolHealth::new("ETH/USD".to_string());
    s.connected = true;
    s.record_message(0);
    assert_eq!(s.health_score(60_000), 100);
    assert_eq!(s.health_score(60_001), 70);
    assert!(matches!(s.status(60_001), HealthStatus::Warn));
}

#[test]
fn ok_rate_bounds() {
    let mut h = SymbolHealth::new("S".to_string());
    // Rate is one (10000 basis points) when nothing was verified.
    assert_eq!(h.checksum_ok_rate(), 10000);
    h.record_checksum_ok();
    assert_eq!(h.checksum_ok_rate(), 10000);
    h.record_checksum_fail(1);
    assert_eq!(h.checksum_ok_rate(), 5000);
    h.record_checksum_fail(2);
    h.record_checksum_fail(3);
    assert_eq!(h.checksum_ok_rate(), 2500);
}

#[test]
fn overall_health_is_worst() {
    let now: u64 = 1_000_000;
    let none: Vec<SymbolHealth> = Vec::new();
    assert!(matches!(overall_status(&none, now), HealthStatus::Good));

    let mut good = SymbolHealth::new("A".to_string());
    good.connected = true;
    good.record_message(now);

    let mut warn = SymbolHealth::new("B".to_string());
    warn.connected = true;
    warn.record_message(0);

    let bad = SymbolHealth::new("C".to_string());

    assert!(matches!(overall_status(&vec![good.clone()], now), HealthStatus::Good));
    assert!(matches!(
        overall_status(&vec![good.clone(), warn.clone()], now),
        HealthStatus::Warn
    ));
    assert!(matches!(
        overall_status(&vec![good, warn, bad], now),
        HealthStatus::Fail
    ));
}

#[test]
fn frame_ring_evicts_oldest() {
    let mut ring = FrameRing::new(3);
    for i in 0..5u64 {
        ring.push(i * 10, format!("frame{}", i));
    }
    assert_eq!(ring.len(), 3);
    let all = ring.frames_in_window(0, 1000);
    let texts: Vec<&str> = all.iter().map(|(_, f)| f.as_str()).collect();
    assert_eq!(texts, vec!["frame2", "frame3", "frame4"]);
}

#[test]
fn incident_window_bounds() {
    let mut ring = FrameRing::new(100);
    ring.push(0, "too old".to_string());
    ring.push(70_000, "in window low".to_string());
    ring.push(100_000, "at incident".to_string());
    ring.push(105_000, "in window high".to_string());
    ring.push(105_001, "too new".to_string());
    let frames = incident_window(&ring, 100_000);
    let texts: Vec<&str> = frames.iter().map(|(_, f)| f.as_str()).collect();
    assert_eq!(texts, vec!["in window low", "at incident", "in window high"]);
}

#[test]
fn incident_id_and_bundle_line() {
    let inc = Incident::new(IncidentReason::ChecksumMismatch, Some("BTC/USD".to_string()), 1700000000);
    assert_eq!(inc.id, "incident_1700000000_checksum");
    assert_eq!(inc.timestamp_secs, 1700000000);
    assert_eq!(inc.metadata, "{}");
    let inc = inc.with_metadata("{\"a\":1}".to_string());
    assert_eq!(inc.metadata, "{\"a\":1}");

    assert_eq!(reason_str(&IncidentReason::RateLimit), "ratelimit");
    assert_eq!(reason_str(&IncidentReason::Disconnect), "disconnect");
    assert_eq!(reason_str(&IncidentReason::ManualExport), "manual");
    assert_eq!(reason_str(&IncidentReason::FaultInject), "fault");

    let line = bundle_frame_line("2024-01-01T00:00:00Z", "{\"channel\":\"book\"}");
    assert_eq!(line, "{\"ts\":\"2024-01-01T00:00:00Z\",\"raw_frame\":{\"channel\":\"book\"}}\n");

    let meta = IncidentMeta::new("id1".to_string(), "S".to_string(), "checksum".to_string(), 5);
    assert_eq!(meta.frame_count, 0);
    assert!(meta.zip_path.is_none());
}

#[test]
fn fault_injector_one_shot() {
    let mut inj = FaultInjector::new();
    assert!(!inj.should_inject("BTC/USD"));
    assert_eq!(inj.consume(), None);

    inj.trigger("BTC/USD".to_string());
    assert!(inj.should_inject("BTC/USD"));
    assert!(!inj.should_inject("ETH/USD"));

    let fired = inj.consume();
    assert_eq!(fired, Some(("BTC/USD".to_string(), FaultType::MutateQty)));
    assert!(!inj.should_inject("BTC/USD"));
    assert_eq!(inj.consume(), None);
}

#[test]
fn event_aggregation_collapses_runs() {
    let events = vec![
        entry(1, UiEvent::ChecksumOk { symbol: "A".to_string() }),
        entry(2, UiEvent::ChecksumOk { symbol: "A".to_string() }),
        entry(3, UiEvent::ChecksumOk { symbol: "A".to_string() }),
        entry(4, UiEvent::ChecksumMismatch { symbol: "A".to_string() }),
        entry(5, UiEvent::ChecksumOk { symbol: "B".to_string() }),
        entry(6, UiEvent::Connected),
    ];
    let agg = aggregate_events(&events, 10);
    let texts: Vec<&str> = agg.iter().map(|a| a.text.as_str()).collect();
    assert_eq!(texts, vec!["CHECKSUM_OK A x3", "CHECKSUM_MISMATCH A", "CHECKSUM_OK B", "CONNECTED"]);
    assert_eq!(agg[0].color, EventColor::Normal);
    assert_eq!(agg[1].color, EventColor::Error);
    assert_eq!(agg[0].timestamp_ms, 1);

    let limited = aggregate_events(&events, 2);
    assert_eq!(limited.len(), 2);
}

#[test]
fn event_log_is_bounded() {
    let mut log: Vec<UiEventLogEntry> = Vec::new();
    for i in 0..510u64 {
        push_event(&mut log, i, UiEvent::Connected);
    }
    assert_eq!(log.len(), 500);
    assert_eq!(log[0].timestamp_ms, 10);
}

#[test]
fn key_bindings() {
    assert_eq!(key_to_action(KeyInput::Printable('q')), Some(TuiAction::Quit));
    assert_eq!(key_to_action(KeyInput::Esc), Some(TuiAction::Quit));
    assert_eq!(key_to_action(KeyInput::Printable('R')), Some(TuiAction::ToggleRecording));
    assert_eq!(key_to_action(KeyInput::Printable('e')), Some(TuiAction::ExportIncident));
    assert_eq!(key_to_action(KeyInput::Up), Some(TuiAction::MoveSelectionUp));
    assert_eq!(key_to_action(KeyInput::Printable('3')), Some(TuiAction::SwitchTabIntegrity));
    assert_eq!(key_to_action(KeyInput::Printable('?')), Some(TuiAction::ToggleHelp));
    assert_eq!(key_to_action(KeyInput::Printable('z')), None);
}

#[test]
fn tui_selection_and_actions() {
    let symbols = vec!["A".to_string(), "B".to_string(), "C".to_string()];
    let mut app = TuiApp::new(None);
    assert_eq!(app.current_tab, TuiTab::Integrity);
    assert_eq!(app.get_selected_symbol(&symbols).as_deref(), Some("A"));

    app.move_selection_down(symbols.len());
    assert_eq!(app.get_selected_symbol(&symbols).as_deref(), Some("B"));
    app.move_selection_down(symbols.len());
    app.move_selection_down(symbols.len());
    assert_eq!(app.get_selected_symbol(&symbols).as_deref(), Some("A"));
    app.move_selection_up(symbols.len());
    assert_eq!(app.selected_symbol_index, 0);
    app.move_selection_up(symbols.len());
    assert_eq!(app.selected_symbol_index, 0);

    assert_eq!(app.get_selected_symbol(&Vec::new()), None);

    assert!(!app.handle_action(TuiAction::ToggleHelp));
    assert!(app.show_help);
    assert!(!app.handle_action(TuiAction::AcknowledgeAlert));
    assert!(app.alerts_acknowledged);
    assert!(app.handle_action(TuiAction::Quit));
}

#[test]
fn integrity_badge_rules() {
    let clean = SymbolHealthRow {
        symbol: "A".to_string(),
        checksum_ok: 10000,
        checksum_fail: 0,
        consecutive_fail: 0,
        last_mismatch: None,
        resync_count: 0,
        last_msg_age: Some(1),
    };
    let mut degraded = clean.clone();
    degraded.checksum_fail = 100;
    let mut broken = clean.clone();
    broken.consecutive_fail = 3;

    assert_eq!(integrity_badge_status(false, &vec![clean.clone()]).0, IntegrityStatus::Broken);
    assert_eq!(integrity_badge_status(true, &Vec::new()).0, IntegrityStatus::Degraded);
    assert_eq!(integrity_badge_status(true, &vec![clean.clone()]).0, IntegrityStatus::Verified);
    assert_eq!(
        integrity_badge_status(true, &vec![clean.clone(), degraded]).0,
        IntegrityStatus::Degraded
    );
    let (status, label) = integrity_badge_status(true, &vec![clean, broken]);
    assert_eq!(status, IntegrityStatus::Broken);
    assert_eq!(label, "BROKEN");
}
