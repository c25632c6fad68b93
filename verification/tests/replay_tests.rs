use blackbox::codec::{encode_recorded_line, parse_recorded_line};
use blackbox::replayer::{Replayer, compute_mutated_qty};
use blackbox::types::{RecordedFrame, ReplayConfig, ReplayMode, FaultRule, FaultType};

fn book_update(symbol: &str, qty: &str, n: u32) -> String {
    format!(
        "{{\"channel\":\"book\",\"type\":\"update\",\"data\":[{{\"symbol\":\"{}\",\"asks\":[{{\"price\":\"100.{}\",\"qty\":\"{}\"}}],\"checksum\":1}}]}}",
        symbol, n, qty
    )
}

fn recording(frames: &[String]) -> String {
    let mut text = String::new();
    for (i, raw) in frames.iter().enumerate() {
        let f = RecordedFrame {
            ts_text: format!("2024-01-01T00:00:0{}Z", i),
            raw_frame: raw.clone(),
            decoded_event: None,
        };
        text.push_str(&encode_recorded_line(&f));
        text.push('\n');
    }
    text
}

#[test]
fn codec_round_trip() {
    let f = RecordedFrame {
        ts_text: "2024-01-01T00:00:00.000000001Z".to_string(),
        raw_frame: "{\"channel\":\"heartbeat\"}\nwith \"quotes\" and \\ and \t tab".to_string(),
        decoded_event: Some("summary line".to_string()),
    };
    let line = encode_recorded_line(&f);
    let back = parse_recorded_line(&line).expect("line should parse");
    assert_eq!(back.ts_text, f.ts_text);
    assert_eq!(back.raw_frame, f.raw_frame);
    assert_eq!(back.decoded_event, f.decoded_event);

    let g = RecordedFrame {
        ts_text: "2024-01-01T00:00:00Z".to_string(),
        raw_frame: "plain".to_string(),
        decoded_event: None,
    };
    let line2 = encode_recorded_line(&g);
    let back2 = parse_recorded_line(&line2).expect("line should parse");
    assert_eq!(back2.raw_frame, "plain");
    assert_eq!(back2.decoded_event, None);

    assert!(parse_recorded_line("not a frame line").is_none());
    assert!(parse_recorded_line("{\"ts\":\"x\"}").is_none());
}

#[test]
fn replay_passthrough_in_order() {
    // Rule off, as-fast pacing: the emitted sequence equals the recording.
    let frames: Vec<String> = (1..=4).map(|i| book_update("S", "1.0", i)).collect();
    let text = recording(&frames);
    let config = ReplayConfig { mode: ReplayMode::AsFast, fault: FaultRule::NoFault };
    let mut r = Replayer::from_recording(&text, config).expect("recording should load");
    r.start();
    for expected in &frames {
        assert_eq!(r.next_frame(0).as_ref(), Some(expected));
    }
    assert_eq!(r.next_frame(0), None);
    assert!(r.is_done());
}

#[test]
fn replay_drop_every_second() {
    // Five book updates with Every{n:2, Drop}: frames 1, 3, 5 survive.
    let frames: Vec<String> = (1..=5).map(|i| book_update("S", "1.0", i)).collect();
    let text = recording(&frames);
    let config = ReplayConfig {
        mode: ReplayMode::AsFast,
        fault: FaultRule::Every { n: 2, fault: FaultType::Drop },
    };
    let mut r = Replayer::from_recording(&text, config).expect("recording should load");
    r.start();
    assert_eq!(r.next_frame(0).as_ref(), Some(&frames[0]));
    assert_eq!(r.next_frame(0).as_ref(), Some(&frames[2]));
    assert_eq!(r.next_frame(0).as_ref(), Some(&frames[4]));
    assert_eq!(r.next_frame(0), None);
}

#[test]
fn replay_reorder_once_at_second() {
    // Four updates [A,B,C,D] with OnceAt{index:2, Reorder}: A, C, B, D.
    let frames: Vec<String> = (1..=4).map(|i| book_update("S", "1.0", i)).collect();
    let text = recording(&frames);
    let config = ReplayConfig {
        mode: ReplayMode::AsFast,
        fault: FaultRule::OnceAt { index: 2, fault: FaultType::Reorder },
    };
    let mut r = Replayer::from_recording(&text, config).expect("recording should load");
    r.start();
    assert_eq!(r.next_frame(0).as_ref(), Some(&frames[0]));
    assert_eq!(r.next_frame(0).as_ref(), Some(&frames[2]));
    assert_eq!(r.next_frame(0).as_ref(), Some(&frames[1]));
    assert_eq!(r.next_frame(0).as_ref(), Some(&frames[3]));
    assert_eq!(r.next_frame(0), None);
}

#[test]
fn replay_mutate_qty() {
    let frames: Vec<String> = vec![book_update("S", "1.5", 1)];
    let text = recording(&frames);
    let config = ReplayConfig {
        mode: ReplayMode::AsFast,
        fault: FaultRule::OnceAt { index: 1, fault: FaultType::MutateQty { delta_ticks: 3 } },
    };
    let mut r = Replayer::from_recording(&text, config).expect("recording should load");
    r.start();
    let emitted = r.next_frame(0).expect("frame should be emitted");
    assert!(emitted.contains("1.50000003"), "emitted: {}", emitted);
    assert_eq!(r.next_frame(0), None);
}

#[test]
fn mutated_qty_clamps_at_zero() {
    assert_eq!(compute_mutated_qty("1.5", 3).as_deref(), Some("1.50000003"));
    assert_eq!(compute_mutated_qty("0.00000001", -5).as_deref(), Some("0.00000000"));
    assert_eq!(compute_mutated_qty("2", -1).as_deref(), Some("1.99999999"));
    assert_eq!(compute_mutated_qty("junk", 1), None);
}

#[test]
fn replay_realtime_pacing() {
    // Two frames one second apart: the second is not due until a second
    // of elapsed time has passed.
    let frames: Vec<String> = (1..=2).map(|i| book_update("S", "1.0", i)).collect();
    let text = recording(&frames);
    let config = ReplayConfig { mode: ReplayMode::Realtime, fault: FaultRule::NoFault };
    let mut r = Replayer::from_recording(&text, config).expect("recording should load");
    r.start();
    assert_eq!(r.next_frame(0).as_ref(), Some(&frames[0]));
    assert_eq!(r.next_frame(0), None);
    assert_eq!(r.next_frame(999_999_999), None);
    assert_eq!(r.next_frame(1_000_000_000).as_ref(), Some(&frames[1]));
}

#[test]
fn replay_speed_pacing() {
    // At double speed the one-second offset is due after half a second.
    let frames: Vec<String> = (1..=2).map(|i| book_update("S", "1.0", i)).collect();
    let text = recording(&frames);
    let config = ReplayConfig {
        mode: ReplayMode::Speed { milli: 2000 },
        fault: FaultRule::NoFault,
    };
    let mut r = Replayer::from_recording(&text, config).expect("recording should load");
    r.start();
    assert_eq!(r.next_frame(0).as_ref(), Some(&frames[0]));
    assert_eq!(r.next_frame(499_999_999), None);
    assert_eq!(r.next_frame(500_000_000).as_ref(), Some(&frames[1]));
}

#[test]
fn replay_skips_blank_lines_and_counts_per_symbol() {
    // Faults count per symbol: with Every{2, Drop} and alternating
    // symbols, the second update of each symbol is dropped.
    let a1 = book_update("A", "1.0", 1);
    let b1 = book_update("B", "1.0", 2);
    let a2 = book_update("A", "1.0", 3);
    let b2 = book_update("B", "1.0", 4);
    let mut text = String::new();
    for (i, raw) in [&a1, &b1, &a2, &b2].iter().enumerate() {
        let f = RecordedFrame {
            ts_text: format!("2024-01-01T00:00:0{}Z", i),
            raw_frame: (*raw).clone(),
            decoded_event: None,
        };
        text.push_str(&encode_recorded_line(&f));
        text.push('\n');
        text.push_str("   \n");
    }
    let config = ReplayConfig {
        mode: ReplayMode::AsFast,
        fault: FaultRule::Every { n: 2, fault: FaultType::Drop },
    };
    let mut r = Replayer::from_recording(&text, config).expect("recording should load");
    r.start();
    assert_eq!(r.next_frame(0).as_ref(), Some(&a1));
    assert_eq!(r.next_frame(0).as_ref(), Some(&b1));
    assert_eq!(r.next_frame(0), None);
}

#[test]
fn replay_rejects_bad_lines() {
    let config = ReplayConfig { mode: ReplayMode::AsFast, fault: FaultRule::NoFault };
    assert!(Replayer::from_recording("garbage line\n", config).is_none());
    // A syntactically valid line whose timestamp chrono cannot read.
    let f = RecordedFrame {
        ts_text: "not a timestamp".to_string(),
        raw_frame: "x".to_string(),
        decoded_event: None,
    };
    let text = format!("{}\n", encode_recorded_line(&f));
    assert!(Replayer::from_recording(&text, config).is_none());
}

#[test]
fn replay_progress_and_done() {
    let frames: Vec<String> = (1..=2).map(|i| book_update("S", "1.0", i)).collect();
    let text = recording(&frames);
    let config = ReplayConfig { mode: ReplayMode::AsFast, fault: FaultRule::NoFault };
    let mut r = Replayer::from_recording(&text, config).expect("recording should load");
    assert_eq!(r.progress_permille(), 0);
    r.start();
    let _ = r.next_frame(0);
    assert_eq!(r.progress_permille(), 500);
    let _ = r.next_frame(0);
    assert_eq!(r.progress_permille(), 1000);
    assert!(r.is_done());
}
