use vstd::prelude::*;

verus! {

/// Errors of the library's fallible operations.
#[derive(Debug, Clone)]
pub enum PolymarketError {
    /// A market has no slug.
    MarketSlugMissing,
    /// An event has no slug.
    EventSlugMissing,
    /// An event id is not among the tracked events.
    EventNotFound(String),
    /// A series slug matched no series.
    SerieNotFound(String),
    /// A market does not have exactly two CLOB token ids.
    NoTokenIds,
    /// The YES book is missing or empty.
    NoYesOrderbook,
    /// The NO book is missing or empty.
    NoNoOrderbook,
    /// The system clock reads a time before the Unix epoch, or one too far
    /// ahead to count in seconds as an `i64`.
    ClockOutOfRange,
}

} // verus!
