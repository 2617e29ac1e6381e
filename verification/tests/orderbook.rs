use polymarket::fixed::{PriceU32, SizeU32};
use polymarket::orderbook::{Orderbook, RawLevel};

fn level(price: u32, size: u32) -> RawLevel {
    (Some(PriceU32(price)), Some(SizeU32(size)))
}

fn book(bids: Vec<RawLevel>, asks: Vec<RawLevel>) -> Orderbook {
    Orderbook::new(
        bids,
        asks,
        "t".to_string(),
        "asset".to_string(),
        "h".to_string(),
        "m".to_string(),
    )
}

#[test]
fn new_computes_best_levels() {
    let ob = book(
        vec![level(400_000, 10_000_000), level(420_000, 5_000_000)],
        vec![level(500_000, 8_000_000), level(480_000, 3_000_000)],
    );
    assert_eq!(ob.best_bid_price(), PriceU32(420_000));
    assert_eq!(ob.best_bid_size(), SizeU32(5_000_000));
    assert_eq!(ob.best_ask_price(), Some(PriceU32(480_000)));
    assert_eq!(ob.best_ask_size(), SizeU32(3_000_000));
}

#[test]
fn empty_book_has_infinite_best_ask() {
    let ob = book(vec![], vec![]);
    assert_eq!(ob.best_bid_price(), PriceU32(0));
    assert_eq!(ob.best_ask_price(), None);
}

#[test]
fn zero_size_levels_are_dropped_on_construction() {
    let ob = book(vec![level(400_000, 0)], vec![level(500_000, 5_000_000)]);
    assert!(ob.get_bids().is_empty());
    assert_eq!(ob.best_ask_price(), Some(PriceU32(500_000)));
}

#[test]
fn apply_delta_updates_and_removes_levels() {
    let mut ob = book(vec![level(400_000, 10_000_000)], vec![level(500_000, 8_000_000)]);

    // New best ask at 0.49, and the old 0.50 level is removed (size 0).
    ob.apply_delta(
        &[],
        &[level(490_000, 4_000_000), level(500_000, 0)],
        "t2".to_string(),
        "h2".to_string(),
    );

    assert_eq!(ob.best_ask_price(), Some(PriceU32(490_000)));
    assert_eq!(ob.best_ask_size(), SizeU32(4_000_000));
    assert_eq!(ob.hash(), "h2");
}

#[test]
fn total_cost_walks_multiple_ask_levels() {
    let ob = book(vec![], vec![level(500_000, 2_000_000), level(600_000, 5_000_000)]);
    // Buy 4 units: 2 @ 0.50 + 2 @ 0.60 = 1.0 + 1.2 = 2.2 (in price x size units).
    let cost = ob.get_total_cost(4_000_000, true).unwrap();
    assert_eq!(cost, 2_200_000_000_000);
}

#[test]
fn total_cost_is_none_when_liquidity_is_insufficient() {
    let ob = book(vec![], vec![level(500_000, 2_000_000)]);
    assert!(ob.get_total_cost(10_000_000, true).is_none());
}

#[test]
fn sell_cost_walks_bids_from_the_highest_price() {
    let ob = book(vec![level(400_000, 2_000_000), level(500_000, 2_000_000)], vec![]);
    // Sell 3 units: 2 @ 0.50 + 1 @ 0.40 = 1.4.
    assert_eq!(ob.get_total_cost(3_000_000, false), Some(1_400_000_000_000));
    assert_eq!(ob.get_total_cost(5_000_000, false), None);
}

#[test]
fn total_cost_of_nothing_is_zero() {
    let ob = book(vec![], vec![]);
    assert_eq!(ob.get_total_cost(0, true), Some(0));
    assert_eq!(ob.get_total_cost(1, true), None);
}

#[test]
fn later_snapshot_level_for_a_price_wins() {
    let ob = book(vec![], vec![level(500_000, 1_000_000), level(500_000, 7_000_000)]);
    assert_eq!(ob.get_asks().len(), 1);
    assert_eq!(ob.best_ask_size(), SizeU32(7_000_000));
}

#[test]
fn unconverted_levels_are_dropped() {
    let ob = book(
        vec![(None, Some(SizeU32(1_000_000))), level(300_000, 1_000_000)],
        vec![(Some(PriceU32(600_000)), None)],
    );
    assert_eq!(ob.get_bids().len(), 1);
    assert_eq!(ob.best_bid_price(), PriceU32(300_000));
    assert_eq!(ob.best_ask_price(), None);
    assert!(!ob.is_empty());
}

#[test]
fn levels_come_out_sorted_by_price() {
    let ob = book(
        vec![level(300_000, 1), level(100_000, 1), level(200_000, 1)],
        vec![level(900_000, 1), level(700_000, 1), level(800_000, 1)],
    );
    let bids: Vec<u32> = ob.get_bids().iter().map(|l| l.0 .0).collect();
    let asks: Vec<u32> = ob.get_asks().iter().map(|l| l.0 .0).collect();
    assert_eq!(bids, vec![100_000, 200_000, 300_000]);
    assert_eq!(asks, vec![700_000, 800_000, 900_000]);
    assert_eq!(ob.best_bid_price(), PriceU32(300_000));
    assert_eq!(ob.best_ask_price(), Some(PriceU32(700_000)));
}

#[test]
fn applying_the_same_delta_twice_changes_nothing_more() {
    let delta = [level(450_000, 3_000_000), level(400_000, 0), level(420_000, 1_000_000)];
    let mut once = book(vec![level(400_000, 10_000_000)], vec![]);
    once.apply_delta(&delta, &[], "t".to_string(), "h".to_string());
    let mut twice = once.duplicate();
    twice.apply_delta(&delta, &[], "t".to_string(), "h".to_string());
    assert_eq!(once.get_bids(), twice.get_bids());
    assert_eq!(twice.best_bid_price(), PriceU32(450_000));
    assert_eq!(twice.best_bid_size(), SizeU32(3_000_000));
}

#[test]
fn delta_keeps_metadata_and_updates_stamps() {
    let mut ob = book(vec![level(400_000, 1_000_000)], vec![]);
    ob.apply_delta(&[(None, Some(SizeU32(5)))], &[], "t9".to_string(), "h9".to_string());
    assert_eq!(ob.get_bids().len(), 1);
    assert_eq!(ob.timestamp(), "t9");
    assert_eq!(ob.hash(), "h9");
    assert_eq!(ob.asset_id(), "asset");
    assert_eq!(ob.market(), "m");
}

#[test]
fn removing_every_level_empties_the_book() {
    let mut ob = book(vec![level(400_000, 1_000_000)], vec![level(500_000, 1_000_000)]);
    assert!(!ob.is_empty());
    ob.apply_delta(&[level(400_000, 0)], &[level(500_000, 0)], "t".to_string(), "h".to_string());
    assert!(ob.is_empty());
    assert_eq!(ob.best_bid_price(), PriceU32(0));
    assert_eq!(ob.best_bid_size(), SizeU32(0));
    assert_eq!(ob.best_ask_price(), None);
    assert_eq!(ob.best_ask_size(), SizeU32(0));
}

#[test]
fn ordering_follows_numeric_value() {
    // 0.10 and 0.20 in fixed point.
    let lo = PriceU32(100_000);
    let hi = PriceU32(200_000);
    assert!(lo < hi);
}
