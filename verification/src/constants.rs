use vstd::prelude::*;

verus! {

pub const PROTOCOL_NAME: &'static str = "Polymarket";

/// Number of outcomes in a binary market.
pub const BINARY_OUTCOME_COUNT: usize = 2;

/// Label of the first outcome of a binary market.
pub const OUTCOME_YES: &'static str = "YES";

/// Label of the second outcome of a binary market.
pub const OUTCOME_NO: &'static str = "NO";

/// Payout of one matched YES+NO share pair at resolution (one dollar), in
/// fixed-point price units.
pub const SHARE_PAYOFF_USD: u64 = 1_000_000;

/// Slug pattern of a BTC 15-minute up/down event.
pub const BTC_15M_SLUG_PATTERN: &'static str = "btc-updown-15m";

/// Alternative spelling of the BTC 15-minute up/down slug pattern.
pub const BTC_15M_SLUG_PATTERN_ALT: &'static str = "btc-up-or-down-15m";

/// The series slug whose events are tracked.
pub const ALLOWED_SERIE_SLUG: &'static str = "btc-up-or-down-15m";

pub const GENERAL_RATE_LIMIT_PER_SEC: u16 = 500;

pub const OK_ENDPOINT_RATE_LIMIT_PER_SEC: u8 = 5;

pub const CLOB_RATE_LIMIT_PER_SEC: u16 = 500;

pub const POLYGON_CHAIN_ID: u64 = 137;

pub const HOST: &'static str = "https://clob.polymarket.com";

pub const DEFAULT_MESSAGE: &'static str = "This message attests that I control the given wallet";

pub const SIGNATURE_TYPE_BROWSER_WALLET: u8 = 2;

pub const WSS_URL: &'static str = "wss://ws-subscriptions-clob.polymarket.com/ws";

pub const MARKET_CHANNEL: &'static str = "market";

pub const USER_CHANNEL: &'static str = "user";

/// Error reported when the client is set for a channel it cannot subscribe to.
pub const INVALID_CHANNEL_CONFIG: &'static str = "Invalid user channel config";

/// Order side tag of a bid update in CLOB price-change messages.
pub const SIDE_BUY: &'static str = "BUY";

/// Order side tag of an ask update in CLOB price-change messages.
pub const SIDE_SELL: &'static str = "SELL";

pub const EVENTS_SLUG: &'static str = "/events/slug/";

pub const MARKETS_SLUG: &'static str = "/markets/slug/";

pub const GAMMA_URL: &'static str = "https://gamma-api.polymarket.com";

/// Path of the market listing.
pub const MARKETS_PATH: &'static str = "/markets";

/// Path of the event listing.
pub const EVENTS_PATH: &'static str = "/events";

/// Path of a market lookup by id (the id follows).
pub const MARKET_BY_ID_PATH: &'static str = "/markets/";

/// Path of an event lookup by tag id (the id follows).
pub const EVENTS_BY_TAG_PATH: &'static str = "/events?tag_id=";

/// Path of a series lookup by slug (the slug follows).
pub const SERIES_BY_SLUG_PATH: &'static str = "/series?slug=";

/// Order key of the paginated event listing.
pub const EVENTS_ORDER: &'static str = "id";

/// Page size of the paginated event listing.
pub const LIMIT_EVENTS: u32 = 500;

/// Number of characters of a failed response body to include in error logs.
pub const ERROR_PREVIEW_CHARS: usize = 1000;

} // verus!
