use blackbox::decimal::{Decimal, parse_decimal};
use blackbox::orderbook::Orderbook;
use blackbox::checksum::{build_checksum_string, compute_crc32, verify_checksum};
use blackbox::integrity::IntegrityProof;
use blackbox::integrity::update_integrity_proof;

fn dec(s: &str) -> Decimal {
    parse_decimal(s).expect(s)
}

#[test]
fn test_kraken_example_checksum() {
    // Ten asks ascending and ten bids descending around 50000.
    let mut book = Orderbook::new();

    book.update_ask(dec("50000.1"), dec("1.0"));
    book.update_ask(dec("50000.2"), dec("2.0"));
    book.update_ask(dec("50000.3"), dec("3.0"));
    book.update_ask(dec("50000.4"), dec("4.0"));
    book.update_ask(dec("50000.5"), dec("5.0"));
    book.update_ask(dec("50000.6"), dec("6.0"));
    book.update_ask(dec("50000.7"), dec("7.0"));
    book.update_ask(dec("50000.8"), dec("8.0"));
    book.update_ask(dec("50000.9"), dec("9.0"));
    book.update_ask(dec("50001.0"), dec("10.0"));

    book.update_bid(dec("49999.9"), dec("1.0"));
    book.update_bid(dec("49999.8"), dec("2.0"));
    book.update_bid(dec("49999.7"), dec("3.0"));
    book.update_bid(dec("49999.6"), dec("4.0"));
    book.update_bid(dec("49999.5"), dec("5.0"));
    book.update_bid(dec("49999.4"), dec("6.0"));
    book.update_bid(dec("49999.3"), dec("7.0"));
    book.update_bid(dec("49999.2"), dec("8.0"));
    book.update_bid(dec("49999.1"), dec("9.0"));
    book.update_bid(dec("49999.0"), dec("10.0"));

    let checksum_str = build_checksum_string(&book, 1, 1);
    let computed = compute_crc32(&checksum_str);

    println!("Checksum string: {}", checksum_str);
    println!("Computed CRC32: {}", computed);

    assert!(computed > 0);
}

#[test]
fn test_checksum_formatting() {
    let mut book = Orderbook::new();
    book.update_ask(dec("50000.12"), dec("1.23"));
    book.update_bid(dec("49999.98"), dec("2.34"));

    let checksum_str = build_checksum_string(&book, 2, 2);
    // Price 50000.12 -> "5000012", Qty 1.23 -> "123"
    // Price 49999.98 -> "4999998", Qty 2.34 -> "234"
    assert!(checksum_str.contains("5000012"));
    assert!(checksum_str.contains("123"));
}

#[test]
fn ten_level_book_canonical_string() {
    // The canonical string begins with the first ask: price "500001",
    // qty "10", and its CRC32 is reproducible and nonzero.
    let mut book = Orderbook::new();
    for i in 1..=10u32 {
        let ask_price = if i == 10 {
            dec("50001.0")
        } else {
            parse_decimal(&format!("50000.{}", i)).unwrap()
        };
        let bid_price = if i == 10 {
            dec("49999.0")
        } else {
            parse_decimal(&format!("49999.{}", 10 - i)).unwrap()
        };
        let qty = parse_decimal(&format!("{}.0", i)).unwrap();
        book.update_ask(ask_price, qty);
        book.update_bid(bid_price, qty);
    }
    let s = build_checksum_string(&book, 1, 1);
    assert!(s.starts_with("50000110"));
    let c1 = compute_crc32(&s);
    let c2 = compute_crc32(&s);
    assert_eq!(c1, c2);
    assert!(c1 != 0);
    assert!(verify_checksum(&book, c1, 1, 1));
    assert!(!verify_checksum(&book, c1.wrapping_add(1), 1, 1));
}

#[test]
fn crc32_known_value() {
    // The standard CRC32 check value.
    assert_eq!(compute_crc32("123456789"), 0xCBF43926);
    // CRC32 of empty input is zero.
    assert_eq!(compute_crc32(""), 0);
}

#[test]
fn empty_book_empty_canonical_string() {
    let book = Orderbook::new();
    let s = build_checksum_string(&book, 2, 2);
    assert_eq!(s, "");
    assert_eq!(compute_crc32(&s), 0);
    assert!(verify_checksum(&book, 0, 2, 2));
}

#[test]
fn single_sided_book_verifies() {
    let mut book = Orderbook::new();
    book.update_ask(dec("101.5"), dec("2.5"));
    let s = build_checksum_string(&book, 1, 1);
    assert_eq!(s, "101525");
    let c = compute_crc32(&s);
    assert!(verify_checksum(&book, c, 1, 1));
}

#[test]
fn integrity_proof_updates_on_mismatch() {
    let mut book = Orderbook::new();
    book.update_ask(dec("101.5"), dec("2.5"));
    let s = build_checksum_string(&book, 1, 1);
    let good = compute_crc32(&s);
    let bad = good.wrapping_add(1);

    let mut record = IntegrityProof::new(50);
    let ok = update_integrity_proof(&mut record, &book, good, 1, 1, 3, 100);
    assert!(ok);
    assert!(record.is_match());
    assert_eq!(record.computed_checksum, good);
    assert_eq!(record.checksum_preview, "101525");
    assert_eq!(record.checksum_len, 6);
    assert_eq!(record.verify_latency_ms, 3);
    assert_eq!(record.last_verify_ts_ms, 100);
    assert_eq!(record.last_mismatch_ts_ms, None);
    assert!(record.diagnosis.is_none());

    let ok2 = update_integrity_proof(&mut record, &book, bad, 1, 1, 4, 200);
    assert!(!ok2);
    assert!(!record.is_match());
    assert_eq!(record.last_mismatch_ts_ms, Some(200));
    let diag = record.diagnosis.clone().unwrap();
    assert!(diag.starts_with("Expected 0x"));
    assert!(diag.contains(" but computed 0x"));
}

#[test]
fn latency_stats_window() {
    let mut record = IntegrityProof::new(0);
    for ms in [10u64, 30, 20, 40, 50] {
        record.record_latency(ms);
    }
    let stats = record.latency_stats();
    assert_eq!(stats.last_ms, 50);
    // Average of 10,30,20,40,50 is 30.
    assert_eq!(stats.avg_ms_milli, 30000);
    // Sorted: 10 20 30 40 50; index 5*95/100 = 4.
    assert_eq!(stats.p95_ms, 50);
}
