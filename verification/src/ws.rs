use vstd::prelude::*;

use crate::constants::{INVALID_CHANNEL_CONFIG, MARKET_CHANNEL, USER_CHANNEL, WSS_URL};
use crate::market::copy_strings;
use crate::adapters::copy_json;
use crate::messages::InternalEvent;
use crate::strmap::str_eq;
use crate::text::join3;

verus! {

/// The subscription a client sends once connected.
#[derive(Debug)]
pub enum Subscription {
    /// Book updates of the listed assets.
    Market { assets_ids: Vec<String> },
    /// Private updates of the listed markets, with the API credentials.
    User { markets: Vec<String>, auth: serde_json::Value },
}

/// A frame read from the socket, as far as the client tells frames apart.
#[derive(Debug)]
pub enum Frame {
    /// A text frame.
    Text(String),
    /// A close frame.
    Close,
    /// Ping, pong and binary frames.
    Other,
}

/// The abstract content of a subscription: whether it is for the market
/// channel, the ids it lists and the credentials it carries.
pub open spec fn subscription_model(s: Subscription) -> (bool, Seq<Seq<char>>, Option<serde_json::Value>) {
    match s {
        Subscription::Market { assets_ids } => (true, assets_ids@.map_values(|x: String| x@), None),
        Subscription::User { markets, auth } => (false, markets@.map_values(|x: String| x@), Some(auth)),
    }
}

/// Client of one channel of the CLOB WebSocket: what it subscribes to and how
/// it turns frames and errors into internal events.
#[derive(Debug)]
pub struct ClobWsClient {
    channel_type: String,
    data: Vec<String>,
    auth: Option<serde_json::Value>,
}

impl ClobWsClient {
    /// The channel ("market" or "user").
    pub closed spec fn channel(&self) -> Seq<char> {
        self.channel_type@
    }

    /// The asset or market ids to subscribe to.
    pub closed spec fn data(&self) -> Seq<Seq<char>> {
        self.data@.map_values(|x: String| x@)
    }

    /// The credentials of the user channel, as a JSON value.
    pub closed spec fn auth(&self) -> Option<serde_json::Value> {
        self.auth
    }

    pub fn new(channel_type: String, data: Vec<String>, auth: Option<serde_json::Value>) -> (r: Self)
        ensures
            r.channel() == channel_type@,
            r.data() == data@.map_values(|x: String| x@),
            r.auth() == auth,
    {
        ClobWsClient { channel_type, data, auth }
    }

    /// The endpoint of the channel: the WebSocket base URL, '/', the channel.
    pub fn url(&self) -> (r: String)
        ensures
            r@ == WSS_URL@ + "/"@ + self.channel(),
    {
        join3(WSS_URL, "/", self.channel_type.as_str())
    }

    /// The subscription to send once connected: the market channel lists its
    /// assets; the user channel lists its markets with the credentials, and
    /// without credentials (or on any other channel) the configuration is
    /// reported as an error event.
    pub fn on_open(&self) -> (r: Result<Subscription, InternalEvent>)
        ensures
            match r {
                Ok(s) => ({
                    let m = subscription_model(s);
                    &&& self.channel() == MARKET_CHANNEL@ ==> m.0 && m.1 == self.data()
                    &&& self.channel() != MARKET_CHANNEL@ ==> (!m.0 && self.channel() == USER_CHANNEL@
                        && m.1 == self.data() && m.2 is Some && m.2 == self.auth())
                }),
                Err(e) => self.channel() != MARKET_CHANNEL@ && !(self.channel() == USER_CHANNEL@
                    && self.auth() is Some) && (e matches InternalEvent::ClobWsError(msg)
                    && msg@ == INVALID_CHANNEL_CONFIG@),
            },
    {
        if str_eq(self.channel_type.as_str(), MARKET_CHANNEL) {
            let assets_ids = copy_strings(&self.data);
            proof {
                assert(assets_ids@.map_values(|x: String| x@) =~= self.data());
            }
            return Ok(Subscription::Market { assets_ids });
        }
        if str_eq(self.channel_type.as_str(), USER_CHANNEL) {
            match &self.auth {
                Some(a) => {
                    let markets = copy_strings(&self.data);
                    proof {
                        assert(markets@.map_values(|x: String| x@) =~= self.data());
                    }
                    return Ok(Subscription::User { markets, auth: copy_json(a) });
                },
                None => {},
            }
        }
        Err(InternalEvent::ClobWsError(INVALID_CHANNEL_CONFIG.to_string()))
    }

    /// What a frame becomes: a text frame is forwarded as is; close, ping, pong
    /// and binary frames produce nothing.
    pub fn on_message(&self, frame: Frame) -> (r: Option<InternalEvent>)
        ensures
            match frame {
                Frame::Text(t) => r matches Some(InternalEvent::ClobWsRaw(x)) && x@ == t@,
                _ => r is None,
            },
    {
        match frame {
            Frame::Text(text) => Some(InternalEvent::ClobWsRaw(text)),
            Frame::Close => None,
            Frame::Other => None,
        }
    }

    /// What a connection error becomes: an error event with its message.
    pub fn on_error(&self, err: String) -> (r: InternalEvent)
        ensures
            r matches InternalEvent::ClobWsError(x) && x@ == err@,
    {
        InternalEvent::ClobWsError(err)
    }
}

} // verus!
