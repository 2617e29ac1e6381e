use polymarket::messages::InternalEvent;
use polymarket::ws::{ClobWsClient, Frame, Subscription};

fn auth() -> serde_json::Value {
    let mut m = serde_json::Map::new();
    m.insert("apiKey".to_string(), serde_json::Value::from("k"));
    m.insert("secret".to_string(), serde_json::Value::from("s"));
    m.insert("passphrase".to_string(), serde_json::Value::from("p"));
    serde_json::Value::Object(m)
}

#[test]
fn market_channel_subscribes_to_its_assets() {
    let c = ClobWsClient::new("market".to_string(), vec!["a".to_string(), "b".to_string()], None);
    assert_eq!(c.url(), "wss://ws-subscriptions-clob.polymarket.com/ws/market");
    match c.on_open() {
        Ok(Subscription::Market { assets_ids }) => {
            assert_eq!(assets_ids, vec!["a".to_string(), "b".to_string()])
        }
        other => panic!("unexpected {:?}", other),
    }
}

#[test]
fn user_channel_needs_credentials() {
    let c = ClobWsClient::new("user".to_string(), vec!["m".to_string()], Some(auth()));
    assert_eq!(c.url(), "wss://ws-subscriptions-clob.polymarket.com/ws/user");
    match c.on_open() {
        Ok(Subscription::User { markets, auth }) => {
            assert_eq!(markets, vec!["m".to_string()]);
            assert_eq!(auth, self::auth());
            assert_eq!(auth["apiKey"], "k");
        }
        other => panic!("unexpected {:?}", other),
    }
    let bare = ClobWsClient::new("user".to_string(), vec![], None);
    assert!(matches!(
        bare.on_open(),
        Err(InternalEvent::ClobWsError(m)) if m == "Invalid user channel config"
    ));
    let odd = ClobWsClient::new("other".to_string(), vec![], Some(auth()));
    assert!(matches!(odd.on_open(), Err(InternalEvent::ClobWsError(_))));
}

#[test]
fn frames_and_errors_become_events() {
    let c = ClobWsClient::new("market".to_string(), vec![], None);
    assert!(matches!(
        c.on_message(Frame::Text("{}".to_string())),
        Some(InternalEvent::ClobWsRaw(t)) if t == "{}"
    ));
    assert!(c.on_message(Frame::Close).is_none());
    assert!(c.on_message(Frame::Other).is_none());
    assert!(matches!(
        c.on_error("reset".to_string()),
        InternalEvent::ClobWsError(e) if e == "reset"
    ));
}
