# polymarket

Market-data core of a Polymarket scout bot: it discovers the BTC 15-minute
up/down events through the Gamma REST API, tracks their YES/NO order books from
the CLOB WebSocket, and looks for YES+NO arbitrage (both best asks summing to
less than the one-dollar payout).

Prices and sizes are fixed-point integers with six decimals (`PriceU32`,
`SizeU32`), so all book and arbitrage arithmetic is exact.

## Layout

- `src/` — the library, verified with Verus:
  - `fixed`, `levels`, `orderbook`: sorted book sides, snapshot construction,
    incremental deltas, fill cost;
  - `snapshot`, `scout`: binary-market snapshots and the arbitrage assessment;
  - `market`, `event`, `event_manager`, `indexer`: Gamma markets and events, the
    tracked set and the event/market/token indexes;
  - `orderbook_manager`, `manager`: books per asset and the venue state that
    handles WebSocket events;
  - `gamma`, `ws`, `clob`, `messages`: request building and response handling
    for the REST API, the WebSocket subscription logic, wire types;
  - `strmap`, `text`, `adapters`: string-keyed maps, text helpers (joining,
    searching, decimal integer parsing), and the trusted wrappers around
    outside calls (JSON, RFC 3339 dates, the clock, lowercasing).
- `app/` — the executable: HTTP and WebSocket I/O, serde forms of the wire
  types, float conversions, tasks and logging.
- `tests/` — tests of the library.
