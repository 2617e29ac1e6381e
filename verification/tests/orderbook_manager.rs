use polymarket::fixed::{PriceU32, SizeU32};
use polymarket::messages::{BookSnapshotMessage, PriceChangeMessage, PriceLevelUpdate};
use polymarket::orderbook::RawLevel;
use polymarket::orderbook_manager::OrderbookManager;

fn level(price: u32, size: u32) -> RawLevel {
    (Some(PriceU32(price)), Some(SizeU32(size)))
}

fn snapshot(asset: &str, hash: &str) -> BookSnapshotMessage {
    BookSnapshotMessage {
        asset_id: asset.to_string(),
        market: "m".to_string(),
        timestamp: "1".to_string(),
        hash: hash.to_string(),
        bids: vec![],
        asks: vec![],
        event_type: "book".to_string(),
    }
}

fn update(asset: &str, side: &str, hash: &str) -> PriceLevelUpdate {
    PriceLevelUpdate {
        asset_id: asset.to_string(),
        side: side.to_string(),
        price: String::new(),
        size: String::new(),
        hash: hash.to_string(),
    }
}

#[test]
fn snapshot_replaces_the_book() {
    let mut om = OrderbookManager::new();
    assert!(om.get_book("a").is_none());
    om.handle_snapshot_message(snapshot("a", "h1"), vec![level(400_000, 1_000_000)], vec![]);
    om.handle_snapshot_message(snapshot("a", "h2"), vec![], vec![level(600_000, 2_000_000)]);
    let b = om.get_book("a").unwrap();
    assert_eq!(b.hash(), "h2");
    assert!(b.get_bids().is_empty());
    assert_eq!(b.best_ask_price(), Some(PriceU32(600_000)));
}

#[test]
fn price_changes_are_grouped_by_asset_and_side() {
    let mut om = OrderbookManager::new();
    om.handle_snapshot_message(snapshot("a", "h"), vec![level(400_000, 1_000_000)], vec![level(600_000, 1_000_000)]);
    om.handle_snapshot_message(snapshot("b", "h"), vec![], vec![level(700_000, 1_000_000)]);
    let msg = PriceChangeMessage {
        timestamp: "9".to_string(),
        price_changes: vec![
            update("a", "BUY", "ha1"),
            update("a", "SELL", "ha2"),
            update("b", "HOLD", "hb"),
            update("c", "BUY", "hc"),
            update("b", "SELL", "hb2"),
        ],
        event_type: "price_change".to_string(),
    };
    let levels = vec![
        Some(level(450_000, 2_000_000)),
        Some(level(600_000, 0)),
        Some(level(1, 1)),
        Some(level(100_000, 1_000_000)),
        None,
    ];
    om.handle_price_change_message(msg, levels);
    let a = om.get_book("a").unwrap();
    // The first update of an asset sets the hash.
    assert_eq!(a.hash(), "ha1");
    assert_eq!(a.timestamp(), "9");
    assert_eq!(a.best_bid_price(), PriceU32(450_000));
    assert_eq!(a.best_ask_price(), None);
    let b = om.get_book("b").unwrap();
    // An unknown side only registers the asset; the unparsed update is skipped.
    assert_eq!(b.hash(), "hb");
    assert_eq!(b.best_ask_price(), Some(PriceU32(700_000)));
    // No book exists for "c": nothing is created.
    assert!(om.get_book("c").is_none());
}

#[test]
fn delta_on_a_missing_book_is_ignored() {
    let mut om = OrderbookManager::new();
    om.apply_delta_to_book("x", &[level(1, 1)], &[], "t".to_string(), "h".to_string());
    assert!(om.get_book("x").is_none());
}

#[test]
fn copies_of_books() {
    let mut om = OrderbookManager::new();
    om.handle_snapshot_message(snapshot("a", "ha"), vec![level(400_000, 1)], vec![]);
    om.handle_snapshot_message(snapshot("b", "hb"), vec![], vec![level(500_000, 1)]);
    let all = om.get_snapshot_parallel();
    assert_eq!(all.len(), 2);
    assert_eq!(all.get("b").unwrap().hash(), "hb");
    let some = om.get_single_market_snapshot(&["b".to_string(), "zz".to_string()]);
    assert_eq!(some.len(), 1);
    assert!(some.contains_key("b"));
}
