use vstd::prelude::*;

verus! {

/// What the CLOB WebSocket client hands to the manager.
#[derive(Debug, Clone)]
pub enum InternalEvent {
    /// A raw text message, as received.
    ClobWsRaw(String),
    /// A connection or protocol error.
    ClobWsError(String),
    /// A market (by id) whose books changed.
    MarketUpdate(String),
}

/// A message of the CLOB market channel.
#[derive(Debug)]
pub enum PolymarketMessage {
    /// Full book snapshots ("book" events).
    SnapshotBatch(Vec<BookSnapshotMessage>),
    /// Incremental level updates ("price_change" events).
    PriceChange(PriceChangeMessage),
}

/// One level of a book snapshot, as decimal text.
#[derive(Debug)]
pub struct BookLevel {
    pub price: String,
    pub size: String,
}

/// A full book snapshot of one asset.
#[derive(Debug)]
pub struct BookSnapshotMessage {
    pub asset_id: String,
    pub market: String,
    pub timestamp: String,
    pub hash: String,
    pub bids: Vec<BookLevel>,
    pub asks: Vec<BookLevel>,
    /// "book"
    pub event_type: String,
}

/// A batch of level updates.
#[derive(Debug)]
pub struct PriceChangeMessage {
    pub timestamp: String,
    pub price_changes: Vec<PriceLevelUpdate>,
    /// "price_change"
    pub event_type: String,
}

/// One level update: the side is "BUY" for bids and "SELL" for asks.
#[derive(Debug)]
pub struct PriceLevelUpdate {
    pub asset_id: String,
    pub side: String,
    pub price: String,
    pub size: String,
    pub hash: String,
}

/// API credentials of the CLOB.
#[derive(Debug, Clone)]
pub struct AuthPayload {
    pub api_key: String,
    pub secret: String,
    pub passphrase: String,
}

} // verus!
