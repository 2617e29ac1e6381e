use polymarket::fixed::{PriceU32, SizeU32};
use polymarket::orderbook::{Orderbook, RawLevel};
use polymarket::snapshot::BinaryMarketSnapshot;

fn level(price: u32, size: u32) -> RawLevel {
    (Some(PriceU32(price)), Some(SizeU32(size)))
}

/// Build a snapshot from the ask levels of each side (an empty list gives a
/// book without asks).
fn snapshot(yes_ask: Vec<RawLevel>, no_ask: Vec<RawLevel>) -> BinaryMarketSnapshot {
    let yes = Orderbook::new(
        vec![],
        yes_ask,
        "t".to_string(),
        "yes".to_string(),
        "h".to_string(),
        "m".to_string(),
    );
    let no = Orderbook::new(
        vec![],
        no_ask,
        "t".to_string(),
        "no".to_string(),
        "h".to_string(),
        "m".to_string(),
    );
    BinaryMarketSnapshot::new(
        "market".to_string(),
        "Polymarket".to_string(),
        ["yes".to_string(), "no".to_string()],
        ["YES".to_string(), "NO".to_string()],
        [yes, no],
    )
}

#[test]
fn detects_arbitrage_when_ask_sum_below_one() {
    // 0.40 + 0.55 = 0.95 < 1.0 -> arbitrage.
    let snap = snapshot(vec![level(400_000, 100_000_000)], vec![level(550_000, 80_000_000)]);
    assert!(snap.is_arbitrage_opportunity());
    assert_eq!(snap.best_ask_sum(), Some(950_000));
}

#[test]
fn no_arbitrage_when_ask_sum_at_or_above_one() {
    // 0.60 + 0.45 = 1.05 -> no arbitrage, and profit clamps to 0.
    let snap = snapshot(vec![level(600_000, 100_000_000)], vec![level(450_000, 80_000_000)]);
    assert!(!snap.is_arbitrage_opportunity());
    assert_eq!(snap.estimated_profit_usd(), 0);
}

#[test]
fn volume_is_the_smaller_of_both_sides() {
    let snap = snapshot(vec![level(400_000, 100_000_000)], vec![level(550_000, 80_000_000)]);
    assert_eq!(snap.arbitrage_volume_usd(), SizeU32(80_000_000));
}

#[test]
fn profit_is_edge_times_volume() {
    // edge = 1 - 0.95 = 0.05, volume = 80 -> profit = 4.0 (in price x size units).
    let snap = snapshot(vec![level(400_000, 100_000_000)], vec![level(550_000, 80_000_000)]);
    assert_eq!(snap.estimated_profit_usd(), 4_000_000_000_000);
}

#[test]
fn empty_book_is_never_an_opportunity() {
    // A missing side has no best ask, so the sum can never be below one.
    let snap = snapshot(vec![], vec![level(550_000, 80_000_000)]);
    assert!(!snap.is_arbitrage_opportunity());
    assert_eq!(snap.estimated_profit_usd(), 0);
    assert_eq!(snap.best_ask_sum(), None);
}

#[test]
fn ask_sum_exactly_one_is_no_arbitrage() {
    let snap = snapshot(vec![level(500_000, 1_000_000)], vec![level(500_000, 1_000_000)]);
    assert_eq!(snap.best_ask_sum(), Some(1_000_000));
    assert!(!snap.is_arbitrage_opportunity());
    assert_eq!(snap.estimated_profit_usd(), 0);
}

#[test]
fn yes_and_no_are_the_two_books() {
    let snap = snapshot(vec![level(400_000, 1)], vec![level(550_000, 2)]);
    assert_eq!(snap.yes().asset_id(), "yes");
    assert_eq!(snap.no().asset_id(), "no");
    assert_eq!(snap.market_id, "market");
}

#[test]
fn profit_is_positive_exactly_when_there_is_arbitrage() {
    let cases = [
        (400_000, 550_000),
        (600_000, 450_000),
        (999_999, 1),
        (1, 999_999),
        (500_000, 500_000),
    ];
    for (a, b) in cases {
        let snap = snapshot(vec![level(a, 3_000_000)], vec![level(b, 2_000_000)]);
        assert_eq!(snap.estimated_profit_usd() > 0, snap.is_arbitrage_opportunity());
    }
}
