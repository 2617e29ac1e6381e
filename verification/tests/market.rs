use polymarket::error::PolymarketError;
use polymarket::market::Market;

#[test]
fn compute_clob_token_ids_formatted_parses_json_array() {
    let mut market = Market {
        clob_token_ids: Some(r#"["111","222"]"#.to_string()),
        ..Default::default()
    };
    market.compute_clob_token_ids_formatted();
    assert_eq!(
        market.clob_token_ids_formatted,
        Some(vec!["111".to_string(), "222".to_string()])
    );
}

#[test]
fn is_binary_requires_two_outcomes_and_two_tokens() {
    let market = Market {
        outcomes_formatted: Some(vec!["YES".to_string(), "NO".to_string()]),
        clob_token_ids_formatted: Some(vec!["111".to_string(), "222".to_string()]),
        ..Default::default()
    };
    assert!(market.is_binary());

    let not_binary = Market {
        outcomes_formatted: Some(vec!["YES".to_string()]),
        clob_token_ids_formatted: Some(vec!["111".to_string()]),
        ..Default::default()
    };
    assert!(!not_binary.is_binary());
}

#[test]
fn is_resolved_tracks_uma_status() {
    let resolved = Market {
        uma_resolution_status: Some("resolved".to_string()),
        ..Default::default()
    };
    assert!(resolved.is_resolved());
    assert!(!Market::default().is_resolved());
}

#[test]
fn active_market_needs_all_flags_and_a_future_end_date() {
    let market = Market {
        active: Some(true),
        closed: Some(false),
        accepting_orders: Some(true),
        enable_order_book: Some(true),
        end_date: Some("2999-01-01T00:00:00Z".to_string()),
        ..Default::default()
    };
    assert!(market.is_active_market().unwrap());
}

#[test]
fn expired_market_is_inactive() {
    let market = Market {
        active: Some(true),
        closed: Some(false),
        accepting_orders: Some(true),
        enable_order_book: Some(true),
        end_date: Some("2000-01-01T00:00:00Z".to_string()),
        ..Default::default()
    };
    assert!(!market.is_active_market().unwrap());
}

fn open_market() -> Market {
    Market {
        active: Some(true),
        closed: Some(false),
        accepting_orders: Some(true),
        enable_order_book: Some(true),
        ..Default::default()
    }
}

#[test]
fn missing_or_unparseable_end_date_does_not_expire() {
    assert!(open_market().is_active_market().unwrap());
    let odd = Market { end_date: Some("not a date".to_string()), ..open_market() };
    assert!(odd.is_active_market().unwrap());
}

#[test]
fn each_flag_is_needed() {
    assert!(!Market { active: None, ..open_market() }.is_active_market().unwrap());
    assert!(!Market { closed: Some(true), ..open_market() }.is_active_market().unwrap());
    assert!(!Market { accepting_orders: Some(false), ..open_market() }.is_active_market().unwrap());
    assert!(!Market { enable_order_book: None, ..open_market() }.is_active_market().unwrap());
    // An absent `closed` counts as open.
    assert!(Market { closed: None, ..open_market() }.is_active_market().unwrap());
}

#[test]
fn end_date_with_offset_is_read_as_an_instant() {
    let m = Market { end_date: Some("2000-01-01T05:00:00+05:00".to_string()), ..open_market() };
    assert!(!m.is_active_market().unwrap());
    let later = Market { end_date: Some("2999-12-31T23:59:59-08:00".to_string()), ..open_market() };
    assert!(later.is_active_market().unwrap());
}

#[test]
fn missing_slug_is_an_error() {
    let m = Market::default();
    assert!(matches!(m.get_slug(), Err(PolymarketError::MarketSlugMissing)));
    let s = Market { slug: Some("btc".to_string()), ..Default::default() };
    assert_eq!(s.get_slug().unwrap(), "btc");
}

#[test]
fn outcomes_are_parsed_once() {
    let mut m = Market { outcomes: Some(r#"["Up","Down"]"#.to_string()), ..Default::default() };
    m.compute_outcomes_formatted();
    assert_eq!(m.outcomes_formatted, Some(vec!["Up".to_string(), "Down".to_string()]));
    // Already formatted: a new raw text is not read again.
    m.outcomes = Some(r#"["A"]"#.to_string());
    m.compute_outcomes_formatted();
    assert_eq!(m.outcomes_formatted, Some(vec!["Up".to_string(), "Down".to_string()]));
}

#[test]
fn invalid_json_leaves_the_list_unset() {
    let mut m = Market { clob_token_ids: Some("[1,".to_string()), ..Default::default() };
    m.compute_clob_token_ids_formatted();
    assert_eq!(m.clob_token_ids_formatted, None);
    let mut n = Market { outcomes: Some("[1, 2]".to_string()), ..Default::default() };
    n.compute_outcomes_formatted();
    assert_eq!(n.outcomes_formatted, None);
}

#[test]
fn duplicate_keeps_every_field() {
    let m = Market {
        id: "m1".to_string(),
        slug: Some("s".to_string()),
        clob_token_ids_formatted: Some(vec!["a".to_string()]),
        ..open_market()
    };
    let d = m.duplicate();
    assert_eq!(d.id, "m1");
    assert_eq!(d.slug, Some("s".to_string()));
    assert_eq!(d.clob_token_ids_formatted, Some(vec!["a".to_string()]));
    assert!(d.is_active_market().unwrap());
}
