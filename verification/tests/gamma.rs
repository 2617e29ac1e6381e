use polymarket::error::PolymarketError;
use polymarket::event::RawEvent;
use polymarket::gamma::{
    active_events_from_series, active_events_page_query, add_events_by_id, event_by_id_url,
    event_by_slug_url, events_url, index_events_by_id, is_open_market, latest_events_query,
    market_by_id_url, market_by_slug_url, markets_page_query, markets_url, next_page_offset,
    record_active_market, series_by_slug_url, QueryParam, Serie,
};
use polymarket::market::Market;
use polymarket::strmap::StrMap;

fn event(id: &str, active: Option<bool>, closed: Option<bool>, title: &str) -> RawEvent {
    RawEvent {
        id: id.to_string(),
        slug: Some(format!("slug-{}", id)),
        title: Some(title.to_string()),
        description: None,
        ticker: None,
        active,
        closed,
        markets: None,
        start_date: None,
        creation_date: None,
        end_date: None,
        enable_order_book: Some(true),
        series_slug: None,
    }
}

fn serie(events: Option<Vec<RawEvent>>) -> Serie {
    Serie {
        id: "s".to_string(),
        ticker: None,
        slug: Some("btc-up-or-down-15m".to_string()),
        title: None,
        series_type: None,
        recurrence: None,
        active: Some(true),
        closed: Some(false),
        archived: None,
        new: None,
        restricted: None,
        comment_count: None,
        created_at: None,
        updated_at: None,
        events,
    }
}

#[test]
fn open_events_of_the_first_series_keep_the_first_of_each_id() {
    let events = vec![
        event("1", Some(true), Some(false), "first"),
        event("2", Some(true), Some(true), "closed"),
        event("3", None, Some(false), "unknown"),
        event("1", Some(true), Some(false), "second"),
        event("4", Some(true), Some(false), "four"),
    ];
    let r = active_events_from_series(vec![serie(Some(events)), serie(None)], "btc").unwrap();
    assert_eq!(r.len(), 2);
    assert_eq!(r.get("1").unwrap().title, Some("first".to_string()));
    assert!(r.contains_key("4"));
    assert!(!r.contains_key("2"));
    assert!(!r.contains_key("3"));
}

#[test]
fn series_without_events_gives_nothing() {
    let r = active_events_from_series(vec![serie(None)], "btc").unwrap();
    assert_eq!(r.len(), 0);
}

#[test]
fn missing_series_is_an_error() {
    let r = active_events_from_series(vec![], "btc-up-or-down-15m");
    assert!(matches!(r, Err(PolymarketError::SerieNotFound(s)) if s == "btc-up-or-down-15m"));
}

#[test]
fn pages_are_indexed_by_id_with_later_events_winning() {
    let page = vec![
        event("1", Some(true), Some(false), "old"),
        event("2", Some(true), Some(false), "two"),
        event("1", Some(true), Some(false), "new"),
    ];
    let mut all = index_events_by_id(page);
    assert_eq!(all.len(), 2);
    assert_eq!(all.get("1").unwrap().title, Some("new".to_string()));
    add_events_by_id(&mut all, vec![event("3", None, None, "three"), event("2", None, None, "again")]);
    assert_eq!(all.len(), 3);
    assert_eq!(all.get("2").unwrap().title, Some("again".to_string()));
}

#[test]
fn pagination_stops_on_a_short_page() {
    assert_eq!(next_page_offset(0, 500), Some(500));
    assert_eq!(next_page_offset(1000, 500), Some(1500));
    assert_eq!(next_page_offset(1000, 499), None);
    assert_eq!(next_page_offset(0, 0), None);
}

fn market(id: &str, closed: Option<bool>, active: Option<bool>, accepting: Option<bool>) -> Market {
    Market {
        id: id.to_string(),
        closed,
        active,
        accepting_orders: accepting,
        ..Default::default()
    }
}

#[test]
fn only_open_markets_are_recorded_per_event() {
    let mut acc: StrMap<Vec<(String, Market)>> = StrMap::new();
    let e1 = "e1".to_string();
    record_active_market(&mut acc, &e1, market("a", Some(false), Some(true), Some(true)));
    record_active_market(&mut acc, &e1, market("b", None, Some(true), Some(true)));
    record_active_market(&mut acc, &e1, market("c", Some(false), Some(true), Some(true)));
    record_active_market(&mut acc, &"e2".to_string(), market("d", Some(false), Some(true), Some(false)));
    assert_eq!(acc.len(), 1);
    let list = acc.get("e1").unwrap();
    let ids: Vec<&str> = list.iter().map(|(id, _)| id.as_str()).collect();
    assert_eq!(ids, vec!["a", "c"]);
    assert!(is_open_market(&market("x", Some(false), Some(true), Some(true))));
    assert!(!is_open_market(&market("x", Some(false), Some(true), None)));
}

#[test]
fn market_page_query_lists_the_set_filters() {
    let q = markets_page_query(10, 20, Some(false), None, Some(true));
    assert_eq!(q.len(), 4);
    assert!(matches!(q[0], QueryParam::Limit(10)));
    assert!(matches!(q[1], QueryParam::Offset(20)));
    assert!(matches!(q[2], QueryParam::Closed(false)));
    assert!(matches!(q[3], QueryParam::Ascending(true)));
    assert_eq!(markets_page_query(1, 2, None, None, None).len(), 2);
}

#[test]
fn latest_events_query_lists_the_set_filters() {
    let q = latest_events_query(None, Some(5), None, Some(7), Some("daily".to_string()));
    assert_eq!(q.len(), 3);
    assert!(matches!(q[0], QueryParam::Offset(5)));
    assert!(matches!(q[1], QueryParam::TagId(7)));
    assert!(matches!(&q[2], QueryParam::Recurrence(r) if r == "daily"));
    assert!(latest_events_query(None, None, None, None, None).is_empty());
}

#[test]
fn active_events_page_query_is_fixed_but_the_offset() {
    let q = active_events_page_query(1500);
    assert_eq!(q.len(), 5);
    assert!(matches!(q[0], QueryParam::Closed(false)));
    assert!(matches!(q[1], QueryParam::Limit(500)));
    assert!(matches!(q[2], QueryParam::Offset(1500)));
    assert!(matches!(&q[3], QueryParam::Order(o) if o == "id"));
    assert!(matches!(q[4], QueryParam::Ascending(false)));
}

#[test]
fn urls_are_built_from_the_base() {
    assert_eq!(markets_url(), "https://gamma-api.polymarket.com/markets");
    assert_eq!(events_url(), "https://gamma-api.polymarket.com/events");
    assert_eq!(market_by_id_url("83039"), "https://gamma-api.polymarket.com/markets/83039");
    assert_eq!(
        market_by_slug_url("btc-updown-15m-1763407800"),
        "https://gamma-api.polymarket.com/markets/slug/btc-updown-15m-1763407800"
    );
    assert_eq!(event_by_slug_url("x"), "https://gamma-api.polymarket.com/events/slug/x");
    assert_eq!(event_by_id_url("9"), "https://gamma-api.polymarket.com/events?tag_id=9");
    assert_eq!(
        series_by_slug_url("btc-up-or-down-15m"),
        "https://gamma-api.polymarket.com/series?slug=btc-up-or-down-15m"
    );
}
