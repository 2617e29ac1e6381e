use polymarket::error::PolymarketError;
use polymarket::event::RawEvent;
use polymarket::fixed::{PriceU32, SizeU32};
use polymarket::manager::{filter_latest_btc_15m_event, PolymarketManager, SystemEvent};
use polymarket::market::Market;
use polymarket::messages::{BookSnapshotMessage, PriceChangeMessage, PriceLevelUpdate};
use polymarket::orderbook::RawLevel;
use polymarket::scout::{ScanOutcome, Scout};
use polymarket::strmap::StrMap;

fn raw_event(id: &str, slug: &str) -> RawEvent {
    RawEvent {
        id: id.to_string(),
        slug: Some(slug.to_string()),
        title: None,
        description: None,
        ticker: None,
        active: Some(true),
        closed: Some(false),
        markets: None,
        start_date: None,
        creation_date: None,
        end_date: None,
        enable_order_book: Some(true),
        series_slug: None,
    }
}

#[test]
fn picks_the_btc_15m_event_with_the_earliest_timestamp() {
    let mut events = StrMap::new();
    events.insert("a".to_string(), raw_event("a", "btc-updown-15m-1000"));
    events.insert("b".to_string(), raw_event("b", "btc-updown-15m-500"));
    events.insert("c".to_string(), raw_event("c", "btc-updown-15m-1500"));

    let filtered = filter_latest_btc_15m_event(&events);
    assert_eq!(filtered.len(), 1);
    assert!(filtered.contains_key("b"));
}

#[test]
fn ignores_non_btc_15m_events() {
    let mut events = StrMap::new();
    events.insert("x".to_string(), raw_event("x", "eth-updown-hourly-100"));
    events.insert("y".to_string(), raw_event("y", "some-other-market"));

    assert_eq!(filter_latest_btc_15m_event(&events).len(), 0);
}

#[test]
fn matches_both_slug_spellings() {
    let mut events = StrMap::new();
    events.insert("a".to_string(), raw_event("a", "btc-up-or-down-15m-300"));
    events.insert("b".to_string(), raw_event("b", "btc-updown-15m-900"));

    let filtered = filter_latest_btc_15m_event(&events);
    assert_eq!(filtered.len(), 1);
    assert!(filtered.contains_key("a"));
}

#[test]
fn slug_match_ignores_case_and_unparsed_timestamps_rank_last() {
    let mut events = StrMap::new();
    events.insert("a".to_string(), raw_event("a", "BTC-UpDown-15M-later"));
    events.insert("b".to_string(), raw_event("b", "BTC-UPDOWN-15M-42"));
    let filtered = filter_latest_btc_15m_event(&events);
    assert_eq!(filtered.len(), 1);
    assert!(filtered.contains_key("b"));

    let mut only = StrMap::new();
    only.insert("z".to_string(), raw_event("z", "Btc-Updown-15m-soon"));
    let kept = filter_latest_btc_15m_event(&only);
    assert!(kept.contains_key("z"));
}

#[test]
fn events_without_slug_are_ignored() {
    let mut events = StrMap::new();
    let mut e = raw_event("a", "btc-updown-15m-1");
    e.slug = None;
    events.insert("a".to_string(), e);
    assert_eq!(filter_latest_btc_15m_event(&events).len(), 0);
}

fn level(price: u32, size: u32) -> RawLevel {
    (Some(PriceU32(price)), Some(SizeU32(size)))
}

fn tracked_event(id: &str) -> RawEvent {
    RawEvent { series_slug: Some("btc-up-or-down-15m".to_string()), ..raw_event(id, "btc-updown-15m-1") }
}

fn tradable_market(id: &str, tokens: &str) -> Market {
    Market {
        id: id.to_string(),
        active: Some(true),
        closed: Some(false),
        accepting_orders: Some(true),
        enable_order_book: Some(true),
        clob_token_ids: Some(tokens.to_string()),
        ..Default::default()
    }
}

fn book_message(asset: &str) -> BookSnapshotMessage {
    BookSnapshotMessage {
        asset_id: asset.to_string(),
        market: "m1".to_string(),
        timestamp: "1".to_string(),
        hash: "h".to_string(),
        bids: vec![],
        asks: vec![],
        event_type: "book".to_string(),
    }
}

fn manager() -> PolymarketManager {
    let mut events = StrMap::new();
    events.insert("e1".to_string(), tracked_event("e1"));
    let mut other = tracked_event("e2");
    other.series_slug = Some("eth-hourly".to_string());
    events.insert("e2".to_string(), other);
    let mut markets: StrMap<Vec<(String, Market)>> = StrMap::new();
    markets.insert(
        "e1".to_string(),
        vec![("m1".to_string(), tradable_market("m1", r#"["y","n"]"#))],
    );
    PolymarketManager::new(events, &markets).unwrap()
}

#[test]
fn new_tracks_allowed_events_and_indexes_their_tokens() {
    let m = manager();
    assert_eq!(m.get_all_clob_token_ids(), vec!["y".to_string(), "n".to_string()]);
    assert_eq!(m.indexer().get_market_id_from_token("n"), Some("m1".to_string()));
    assert_eq!(m.indexer().get_event_id_for_market("m1"), Some("e1".to_string()));
    assert_eq!(m.indexer().active_market_count(), 1);
    assert_eq!(m.indexer().active_event_count(), 1);
    assert!(m.event_manager().active_events().contains_key("e1"));
    assert!(!m.event_manager().active_events().contains_key("e2"));
}

#[test]
fn markets_for_an_untracked_event_are_an_error() {
    let mut events = StrMap::new();
    events.insert("e1".to_string(), tracked_event("e1"));
    let mut markets: StrMap<Vec<(String, Market)>> = StrMap::new();
    markets.insert("zz".to_string(), vec![]);
    let r = PolymarketManager::new(events, &markets);
    assert!(matches!(r, Err(PolymarketError::EventNotFound(id)) if id == "zz"));
}

#[test]
fn snapshots_need_both_books() {
    let mut m = manager();
    assert!(matches!(
        m.generate_single_binary_market_snapshot("m1"),
        Err(PolymarketError::NoYesOrderbook)
    ));
    assert!(matches!(
        m.generate_single_binary_market_snapshot("nope"),
        Err(PolymarketError::NoTokenIds)
    ));
    m.handle_snapshot(book_message("y"), vec![], vec![level(400_000, 100_000_000)]);
    assert!(matches!(
        m.generate_single_binary_market_snapshot("m1"),
        Err(PolymarketError::NoNoOrderbook)
    ));
    m.handle_snapshot(book_message("n"), vec![], vec![level(550_000, 80_000_000)]);
    let s = m.generate_single_binary_market_snapshot("m1").unwrap();
    assert_eq!(s.market_id, "m1");
    assert_eq!(s.platform, "Polymarket");
    assert_eq!(s.outcomes, ["YES".to_string(), "NO".to_string()]);
    assert_eq!(s.asset_ids, ["y".to_string(), "n".to_string()]);
    assert!(s.is_arbitrage_opportunity());
    let all = m.generate_binary_market_snapshots();
    assert_eq!(all.len(), 1);
    assert!(all.contains_key("m1"));
}

#[test]
fn price_change_updates_books_and_names_the_market() {
    let mut m = manager();
    m.handle_snapshot(book_message("y"), vec![], vec![level(400_000, 100_000_000)]);
    let msg = PriceChangeMessage {
        timestamp: "2".to_string(),
        price_changes: vec![PriceLevelUpdate {
            asset_id: "y".to_string(),
            side: "SELL".to_string(),
            price: "0.39".to_string(),
            size: "5".to_string(),
            hash: "h2".to_string(),
        }],
        event_type: "price_change".to_string(),
    };
    let notify = m.handle_price_change(msg, vec![Some(level(390_000, 5_000_000))]);
    assert_eq!(notify, Some("m1".to_string()));
    let book = m.orderbook_manager().get_book("y").unwrap();
    assert_eq!(book.best_ask_price(), Some(PriceU32(390_000)));
    assert_eq!(book.hash(), "h2");
    assert_eq!(book.timestamp(), "2");
}

#[test]
fn system_events_dispatch() {
    let mut m = manager();
    let snaps = SystemEvent::Snapshots(vec![
        (book_message("y"), vec![], vec![level(400_000, 100_000_000)]),
        (book_message("n"), vec![], vec![level(550_000, 80_000_000)]),
    ]);
    assert_eq!(m.handle_system_event(snaps), None);
    assert!(m.generate_single_binary_market_snapshot("m1").is_ok());

    let unknown = PriceChangeMessage {
        timestamp: "3".to_string(),
        price_changes: vec![PriceLevelUpdate {
            asset_id: "other".to_string(),
            side: "BUY".to_string(),
            price: "0.1".to_string(),
            size: "1".to_string(),
            hash: "x".to_string(),
        }],
        event_type: "price_change".to_string(),
    };
    let r = m.handle_system_event(SystemEvent::PriceChange(unknown, vec![Some(level(100_000, 1_000_000))]));
    assert_eq!(r, None);
    assert_eq!(m.handle_system_event(SystemEvent::WsError("boom".to_string())), None);
    assert_eq!(m.handle_system_event(SystemEvent::ParseError("bad".to_string())), None);
    assert_eq!(m.handle_system_event(SystemEvent::Other), None);
}

#[test]
fn scout_reports_arbitrage_above_the_threshold() {
    let mut m = manager();
    let scout = Scout::new(1_000_000_000_000);
    assert_eq!(scout.scan_single_market(&m, "m1"), ScanOutcome::NotEnoughData);
    m.handle_snapshot(book_message("y"), vec![], vec![level(400_000, 100_000_000)]);
    m.handle_snapshot(book_message("n"), vec![], vec![level(550_000, 80_000_000)]);
    assert_eq!(
        scout.scan_single_market(&m, "m1"),
        ScanOutcome::Opportunity { profit: 4_000_000_000_000, size: SizeU32(80_000_000) }
    );
    let picky = Scout::new(5_000_000_000_000);
    assert_eq!(
        picky.scan_single_market(&m, "m1"),
        ScanOutcome::BelowThreshold { profit: 4_000_000_000_000, size: SizeU32(80_000_000) }
    );
    let found = scout.scan_opportunities_intra_binary_market(&m);
    assert_eq!(found.len(), 1);
    assert_eq!(found[0].0, "m1");
    assert_eq!(found[0].1, 4_000_000_000_000);
    assert_eq!(found[0].2, SizeU32(80_000_000));
}

#[test]
fn scout_reports_the_ask_sum_without_arbitrage() {
    let mut m = manager();
    m.handle_snapshot(book_message("y"), vec![], vec![level(600_000, 1_000_000)]);
    m.handle_snapshot(book_message("n"), vec![level(100_000, 1_000_000)], vec![]);
    let scout = Scout::new(0);
    assert_eq!(
        scout.scan_single_market(&m, "m1"),
        ScanOutcome::NoArbitrage { best_ask_sum: None }
    );
    m.handle_snapshot(book_message("n"), vec![], vec![level(450_000, 1_000_000)]);
    assert_eq!(
        scout.scan_single_market(&m, "m1"),
        ScanOutcome::NoArbitrage { best_ask_sum: Some(1_050_000) }
    );
    assert!(scout.scan_opportunities_intra_binary_market(&m).is_empty());
}

#[test]
fn timestamps_follow_integer_parsing() {
    let mut events = StrMap::new();
    events.insert("a".to_string(), raw_event("a", "btc-updown-15m-+5"));
    events.insert("b".to_string(), raw_event("b", "btc-updown-15m-7"));
    assert!(filter_latest_btc_15m_event(&events).contains_key("a"));

    // Out of range: ranks with the unparsed ones, so the other event wins.
    let mut big = StrMap::new();
    big.insert("x".to_string(), raw_event("x", "btc-updown-15m-99999999999999999999"));
    big.insert("y".to_string(), raw_event("y", "btc-updown-15m-9223372036854775806"));
    assert!(filter_latest_btc_15m_event(&big).contains_key("y"));

    // The first of two equal timestamps is kept.
    let mut tie = StrMap::new();
    tie.insert("p".to_string(), raw_event("p", "btc-updown-15m-x"));
    tie.insert("q".to_string(), raw_event("q", "btc-updown-15m-y"));
    let kept = filter_latest_btc_15m_event(&tie);
    assert_eq!(kept.len(), 1);
    assert!(kept.contains_key("p"));
}
