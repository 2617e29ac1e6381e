use polymarket::error::PolymarketError;
use polymarket::event::RawEvent;
use polymarket::event_manager::EventManager;
use polymarket::indexer::PolymarketIndexer;
use polymarket::market::Market;
use polymarket::strmap::StrMap;

fn market(id: &str, tokens: &str, tradable: bool) -> Market {
    Market {
        id: id.to_string(),
        active: Some(tradable),
        closed: Some(false),
        accepting_orders: Some(true),
        enable_order_book: Some(true),
        clob_token_ids: Some(tokens.to_string()),
        ..Default::default()
    }
}

fn raw(id: &str, series: Option<&str>, active: Option<bool>, markets: Option<Vec<Market>>) -> RawEvent {
    RawEvent {
        id: id.to_string(),
        slug: None,
        title: None,
        description: None,
        ticker: None,
        active,
        closed: Some(false),
        markets,
        start_date: None,
        creation_date: None,
        end_date: None,
        enable_order_book: Some(true),
        series_slug: series.map(|s| s.to_string()),
    }
}

#[test]
fn to_event_keys_markets_by_id() {
    let e = raw(
        "e",
        None,
        Some(true),
        Some(vec![market("a", "[]", true), market("b", "[]", true), market("a", "[\"x\"]", false)]),
    );
    let ev = e.to_event();
    assert_eq!(ev.id, "e");
    assert_eq!(ev.markets.len(), 2);
    assert_eq!(ev.markets.get("a").unwrap().active, Some(false));
    assert!(matches!(ev.get_slug(), Err(PolymarketError::EventSlugMissing)));
    assert!(matches!(e.get_slug(), Err(PolymarketError::EventSlugMissing)));
    assert!(ev.is_active_event().unwrap());
    let none = raw("n", None, Some(true), None).to_event();
    assert_eq!(none.markets.len(), 0);
}

#[test]
fn event_markets_can_be_added_and_removed() {
    let mut ev = raw("e", None, Some(true), None).to_event();
    ev.add_market(market("a", "[]", true));
    ev.add_market(market("b", "[]", true));
    assert_eq!(ev.get_market_ids(), vec!["a".to_string(), "b".to_string()]);
    ev.remove_market("a");
    assert_eq!(ev.get_market_ids(), vec!["b".to_string()]);
    assert_eq!(ev.read_markets().len(), 1);
}

#[test]
fn expired_or_closed_events_are_inactive() {
    let mut e = raw("e", None, Some(true), None);
    e.end_date = Some("2001-01-01T00:00:00Z".to_string());
    assert!(!e.to_event().is_active_event().unwrap());
    let mut c = raw("c", None, Some(true), None);
    c.closed = Some(true);
    assert!(!c.to_event().is_active_event().unwrap());
}

fn allowed() -> Vec<String> {
    vec!["btc-up-or-down-15m".to_string()]
}

#[test]
fn manager_tracks_active_events_of_allowed_series() {
    let mut em = EventManager::new(allowed());
    let mut raws = StrMap::new();
    raws.insert("1".to_string(), raw("1", Some("btc-up-or-down-15m"), Some(true), None));
    raws.insert("2".to_string(), raw("2", Some("eth"), Some(true), None));
    raws.insert("3".to_string(), raw("3", None, Some(true), None));
    raws.insert("4".to_string(), raw("4", Some("btc-up-or-down-15m"), Some(false), None));
    raws.insert("5".to_string(), raw("5", Some("btc-up-or-down-15m"), None, None));
    em.init_my_active_events(raws);
    let active = em.active_events();
    assert_eq!(active.len(), 1);
    assert!(active.contains_key("1"));
}

#[test]
fn manager_attaches_active_markets_only() {
    let mut em = EventManager::new(allowed());
    let mut raws = StrMap::new();
    raws.insert("1".to_string(), raw("1", Some("btc-up-or-down-15m"), Some(true), None));
    em.init_my_active_events(raws);
    let mut lists: StrMap<Vec<(String, Market)>> = StrMap::new();
    lists.insert(
        "1".to_string(),
        vec![
            ("a".to_string(), market("a", "[\"t1\",\"t2\"]", true)),
            ("b".to_string(), market("b", "[\"t3\",\"t4\"]", false)),
        ],
    );
    assert!(em.init_active_markets_from_events(&lists).is_ok());
    let ev = em.active_events().get("1").unwrap();
    assert_eq!(ev.get_market_ids(), vec!["a".to_string()]);

    let mut missing: StrMap<Vec<(String, Market)>> = StrMap::new();
    missing.insert("9".to_string(), vec![]);
    assert!(matches!(
        em.init_active_markets_from_events(&missing),
        Err(PolymarketError::EventNotFound(id)) if id == "9"
    ));
}

#[test]
fn indexer_links_events_markets_and_tokens() {
    let mut events = StrMap::new();
    let mut ev = raw(
        "e1",
        None,
        Some(true),
        Some(vec![market("m1", "[\"y1\",\"n1\"]", true), market("m2", "not json", true)]),
    )
    .to_event();
    ev.add_market(market("m3", "[\"y3\",\"n3\"]", false));
    events.insert("e1".to_string(), ev);
    let mut inactive = raw("e2", None, Some(false), Some(vec![market("m4", "[\"y4\"]", true)])).to_event();
    inactive.closed = Some(false);
    events.insert("e2".to_string(), inactive);

    let mut ix = PolymarketIndexer::new();
    assert_eq!(ix.active_market_count(), 0);
    ix.update(&events).unwrap();

    assert_eq!(ix.active_event_count(), 1);
    assert_eq!(ix.get_active_event_ids(), vec!["e1".to_string()]);
    assert_eq!(ix.active_market_count(), 2);
    let mut act = ix.get_active_market_ids();
    act.sort();
    assert_eq!(act, vec!["m1".to_string(), "m2".to_string()]);
    assert_eq!(ix.get_market_id_from_token("y3"), Some("m3".to_string()));
    assert_eq!(ix.get_market_id_from_token("y4"), Some("m4".to_string()));
    assert_eq!(ix.get_market_id_from_token("zz"), None);
    assert_eq!(ix.get_clob_token_ids_for_market("m1"), Some(vec!["y1".to_string(), "n1".to_string()]));
    assert_eq!(ix.get_clob_token_ids_for_market("m2"), None);
    assert_eq!(ix.get_event_id_for_market("m4"), Some("e2".to_string()));
    let mut ids = ix.get_all_market_ids_for_event("e1");
    ids.sort();
    assert_eq!(ids, vec!["m1".to_string(), "m2".to_string(), "m3".to_string()]);
    assert!(ix.get_all_market_ids_for_event("nope").is_empty());
    assert!(ix.get_market_ids_for_event("nope").is_none());
    assert_eq!(ix.get_clob_token_ids_to_market().len(), 5);
    let mut all = ix.get_all_clob_token_ids();
    all.sort();
    assert_eq!(all, vec!["n1", "n3", "y1", "y3", "y4"]);
}

#[test]
fn tokens_map_back_to_markets_that_list_them() {
    let mut events = StrMap::new();
    let ev = raw(
        "e1",
        None,
        Some(true),
        Some(vec![market("m1", "[\"a\",\"b\"]", true), market("m2", "[\"c\",\"d\"]", true)]),
    )
    .to_event();
    events.insert("e1".to_string(), ev);
    let other = raw("e2", None, Some(true), Some(vec![market("m3", "[\"e\"]", true)])).to_event();
    events.insert("e2".to_string(), other);
    let mut ix = PolymarketIndexer::new();
    ix.update(&events).unwrap();
    for token in ix.get_all_clob_token_ids() {
        let market = ix.get_market_id_from_token(&token).unwrap();
        let listed = ix.get_clob_token_ids_for_market(&market).unwrap();
        assert!(listed.contains(&token));
    }
    assert_eq!(ix.get_clob_token_ids_to_market().len(), 5);
}

#[test]
fn all_token_ids_follow_the_indexed_markets() {
    let mut events = StrMap::new();
    let ev = raw(
        "e1",
        None,
        Some(true),
        Some(vec![market("m1", "[\"a\",\"b\"]", true), market("m2", "[\"c\"]", true)]),
    )
    .to_event();
    events.insert("e1".to_string(), ev);
    let mut ix = PolymarketIndexer::new();
    ix.update(&events).unwrap();
    let mut expected = Vec::new();
    for m in ix.get_active_market_ids() {
        expected.extend(ix.get_clob_token_ids_for_market(&m).unwrap());
    }
    let mut all = ix.get_all_clob_token_ids();
    all.sort();
    expected.sort();
    assert_eq!(all, expected);
}
