use blackbox::decimal::{Decimal, parse_decimal};
use blackbox::orderbook::Orderbook;

fn dec(s: &str) -> Decimal {
    parse_decimal(s).expect(s)
}

#[test]
fn test_snapshot() {
    let mut book = Orderbook::new();
    book.apply_snapshot(
        vec![(dec("100.0"), dec("1.0")), (dec("99.0"), dec("2.0"))],
        vec![(dec("101.0"), dec("1.0")), (dec("102.0"), dec("2.0"))],
    );

    assert_eq!(book.best_bid(), Some((dec("100.0"), dec("1.0"))));
    assert_eq!(book.best_ask(), Some((dec("101.0"), dec("1.0"))));
}

#[test]
fn test_update_remove() {
    let mut book = Orderbook::new();
    book.apply_snapshot(
        vec![(dec("100.0"), dec("1.0"))],
        vec![(dec("101.0"), dec("1.0"))],
    );

    // Remove a level
    book.apply_updates(
        vec![(dec("100.0"), dec("0.0"))],
        vec![],
    );

    assert_eq!(book.best_bid(), None);
}

#[test]
fn test_truncate() {
    let mut book = Orderbook::new();
    let mut bids = Vec::new();
    let mut asks = Vec::new();

    for i in 0..20u32 {
        let bid_price = parse_decimal(&format!("{}", 100 - i as i64)).unwrap();
        let ask_price = parse_decimal(&format!("{}", 101 + i as i64)).unwrap();
        bids.push((bid_price, dec("1.0")));
        asks.push((ask_price, dec("1.0")));
    }

    book.apply_snapshot(bids, asks);
    book.truncate(10);

    assert_eq!(book.bids.len(), 10);
    assert_eq!(book.asks.len(), 10);

    // Best bid should be highest (100.0)
    assert_eq!(book.best_bid(), Some((dec("100.0"), dec("1.0"))));
    // Best ask should be lowest (101.0)
    assert_eq!(book.best_ask(), Some((dec("101.0"), dec("1.0"))));
}

#[test]
fn delete_level_leaves_other_side() {
    // Snapshot bids {(100,1)}, asks {(101,1)}; deleting the bid leaves
    // the ask untouched.
    let mut book = Orderbook::new();
    book.apply_snapshot(
        vec![(dec("100"), dec("1"))],
        vec![(dec("101"), dec("1"))],
    );
    book.apply_updates(vec![(dec("100"), dec("0"))], vec![]);
    assert_eq!(book.best_bid(), None);
    assert_eq!(book.best_ask(), Some((dec("101"), dec("1"))));
}

#[test]
fn update_overwrites_and_inserts() {
    let mut book = Orderbook::new();
    book.apply_snapshot(
        vec![(dec("100"), dec("1"))],
        vec![(dec("101"), dec("1"))],
    );
    book.apply_updates(
        vec![(dec("100"), dec("5")), (dec("99.5"), dec("2"))],
        vec![(dec("100.5"), dec("3"))],
    );
    assert_eq!(book.best_bid(), Some((dec("100"), dec("5"))));
    assert_eq!(book.best_ask(), Some((dec("100.5"), dec("3"))));
    assert_eq!(book.depth(), (2, 2));
}

#[test]
fn update_same_list_twice_is_idempotent() {
    let mut one = Orderbook::new();
    let mut two = Orderbook::new();
    let bids = vec![(dec("100"), dec("1")), (dec("99"), dec("0"))];
    let asks = vec![(dec("101"), dec("4"))];
    one.apply_updates(bids.clone(), asks.clone());
    two.apply_updates(bids.clone(), asks.clone());
    two.apply_updates(bids, asks);
    assert_eq!(one.asks_vec(None), two.asks_vec(None));
    assert_eq!(one.bids_vec(None), two.bids_vec(None));
}

#[test]
fn snapshot_discards_zero_quantities() {
    let mut book = Orderbook::new();
    book.apply_snapshot(
        vec![(dec("100"), dec("0"))],
        vec![(dec("101"), dec("0")), (dec("102"), dec("1"))],
    );
    assert_eq!(book.best_bid(), None);
    assert_eq!(book.best_ask(), Some((dec("102"), dec("1"))));
}

#[test]
fn spread_and_mid_values() {
    // Results are exact counts of 1e-19 units: 1.0 is 10^19 units.
    let unit: u128 = 10_000_000_000_000_000_000;
    let mut book = Orderbook::new();
    book.apply_snapshot(
        vec![(dec("99.5"), dec("1"))],
        vec![(dec("100.5"), dec("2"))],
    );
    assert_eq!(book.spread(), Some((false, unit)));
    assert_eq!(book.mid(), Some((100 * unit, false)));

    let empty = Orderbook::new();
    assert_eq!(empty.spread(), None);
    assert_eq!(empty.mid(), None);
}

#[test]
fn spread_on_crossed_book_is_signed() {
    let unit: u128 = 10_000_000_000_000_000_000;
    let mut book = Orderbook::new();
    book.apply_snapshot(
        vec![(dec("101"), dec("1"))],
        vec![(dec("100"), dec("1"))],
    );
    assert_eq!(book.spread(), Some((true, unit)));
    // An equal top is a zero spread, not negative.
    let mut flat = Orderbook::new();
    flat.apply_snapshot(vec![(dec("100"), dec("1"))], vec![(dec("100"), dec("2"))]);
    assert_eq!(flat.spread(), Some((false, 0)));
}

#[test]
fn mid_carries_the_half_unit() {
    // Prices of one and two 1e-19 units: the midpoint is one unit and a half.
    let mut book = Orderbook::new();
    book.apply_snapshot(
        vec![(dec("0.0000000000000000001"), dec("1"))],
        vec![(dec("0.0000000000000000002"), dec("1"))],
    );
    assert_eq!(book.mid(), Some((1, true)));
}

#[test]
fn snapshot_zero_after_duplicate_is_discarded() {
    // A zero-quantity snapshot entry is discarded silently, even for a
    // price an earlier entry inserted.
    let mut book = Orderbook::new();
    book.apply_snapshot(
        vec![(dec("100"), dec("5")), (dec("100"), dec("0"))],
        vec![],
    );
    assert_eq!(book.best_bid(), Some((dec("100"), dec("5"))));
}

#[test]
fn snapshot_equals_clearing_update() {
    // A snapshot of positive entries leaves the same book as an update
    // that zeroes every prior price and then inserts those entries.
    let prior_bids = vec![(dec("98"), dec("1")), (dec("97"), dec("2"))];
    let entries = vec![(dec("100"), dec("5")), (dec("99"), dec("1"))];

    let mut snapshotted = Orderbook::new();
    snapshotted.apply_snapshot(prior_bids.clone(), vec![]);
    snapshotted.apply_snapshot(entries.clone(), vec![]);

    let mut updated = Orderbook::new();
    updated.apply_snapshot(prior_bids.clone(), vec![]);
    let mut ops: Vec<_> = prior_bids.iter().map(|(p, _)| (*p, dec("0"))).collect();
    ops.extend(entries.iter().cloned());
    updated.apply_updates(ops, vec![]);

    assert_eq!(snapshotted.bids_vec(None), updated.bids_vec(None));
}

#[test]
fn truncate_beyond_depth_is_noop() {
    let mut book = Orderbook::new();
    book.apply_snapshot(
        vec![(dec("100"), dec("1")), (dec("99"), dec("1"))],
        vec![(dec("101"), dec("1"))],
    );
    book.truncate(10);
    assert_eq!(book.depth(), (1, 2));
    assert_eq!(book.best_bid(), Some((dec("100"), dec("1"))));
}

#[test]
fn vectored_queries_are_ordered() {
    let mut book = Orderbook::new();
    book.apply_snapshot(
        vec![(dec("98"), dec("1")), (dec("100"), dec("2")), (dec("99"), dec("3"))],
        vec![(dec("103"), dec("1")), (dec("101"), dec("2")), (dec("102"), dec("3"))],
    );
    let asks = book.asks_vec(Some(2));
    assert_eq!(asks, vec![(dec("101"), dec("2")), (dec("102"), dec("3"))]);
    let bids = book.bids_vec(Some(2));
    assert_eq!(bids, vec![(dec("100"), dec("2")), (dec("99"), dec("3"))]);
}
