use vstd::prelude::*;

use crate::adapters::{
    lowercase, to_lowercase, utc_now, Instant,
};
use crate::constants::{
    ALLOWED_SERIE_SLUG, BINARY_OUTCOME_COUNT, BTC_15M_SLUG_PATTERN, BTC_15M_SLUG_PATTERN_ALT,
    OUTCOME_NO, OUTCOME_YES, PROTOCOL_NAME,
};
use crate::error::PolymarketError;
use crate::event::{Event, RawEvent};
use crate::event_manager::{
    attach_markets, event_map_models, markets_lists, raw_seq_models, register_events, EventManager,
};
use crate::event::EventModel;
use crate::indexer::{all_events_indexed, index_consistent, IndexModel, PolymarketIndexer};
use crate::market::Market;
use crate::messages::{BookSnapshotMessage, PriceChangeMessage};
use crate::orderbook::{Orderbook, RawLevel};
use crate::orderbook_manager::{
    apply_all, book_state, change_models, group_changes, BookState, OrderbookManager,
};
use crate::snapshot::BinaryMarketSnapshot;
use crate::strmap::{string_views, StrMap};
use crate::text::{decimal, lemma_decimal, lemma_last_segment_after_dash, parse_i64, parsed_i64, chars_of, contains_chars, contains_text, last_segment, last_segment_start};
use vstd::string::StrSliceExecFns;

verus! {

/// The slug names a BTC 15-minute up/down event (in either spelling, any case).
pub open spec fn slug_matches_btc_15m(slug: Option<String>) -> bool {
    slug matches Some(s) && (contains_text(lowercase(s@), BTC_15M_SLUG_PATTERN@) || contains_text(
        lowercase(s@),
        BTC_15M_SLUG_PATTERN_ALT@,
    ))
}

/// The timestamp at the end of a slug (after its last '-'); the largest `i64`
/// when that part is not a number.
pub open spec fn slug_timestamp(slug: Seq<char>) -> i64 {
    match parsed_i64(last_segment(slug)) {
        Some(t) => t,
        None => i64::MAX,
    }
}

/// A slug that ends in '-' and the decimal form of a number within `i64` has
/// that number as its timestamp, whatever comes before: all the digits after
/// the last '-' are read.
pub proof fn law_slug_timestamp(prefix: Seq<char>, n: nat)
    requires
        n <= i64::MAX,
    ensures
        slug_timestamp(prefix + seq!['-'] + decimal(n)) == n,
{
    let d = decimal(n);
    lemma_decimal(n);
    assert forall|i: int| 0 <= i < d.len() implies d[i] != '-' by {
        assert('0' <= d[i] <= '9');
    }
    lemma_last_segment_after_dash(prefix, d);
    assert('0' <= d[0] <= '9');
}

/// Timestamp of a raw event's slug.
pub open spec fn event_timestamp(e: RawEvent) -> i64 {
    match e.slug {
        Some(s) => slug_timestamp(s@),
        None => i64::MAX,
    }
}

/// Position of the BTC 15-minute event with the earliest timestamp (the first
/// one among equals), if any event matches.
pub open spec fn pick_earliest(events: Seq<RawEvent>) -> Option<int>
    decreases events.len(),
{
    if events.len() == 0 {
        None
    } else {
        let prev = pick_earliest(events.drop_last());
        let last = events.len() - 1;
        if slug_matches_btc_15m(events[last].slug) {
            match prev {
                None => Some(last),
                Some(b) => if event_timestamp(events[last]) < event_timestamp(events[b]) {
                    Some(last)
                } else {
                    prev
                },
            }
        } else {
            prev
        }
    }
}

/// Models of a map of raw events.
pub open spec fn raw_map_models(m: Map<Seq<char>, RawEvent>) -> Map<Seq<char>, <RawEvent as View>::V> {
    m.map_values(|e: RawEvent| e@)
}

/// Whether the slug names a BTC 15-minute event.
fn slug_is_btc_15m(slug: &String) -> (r: bool)
    ensures
        r == slug_matches_btc_15m(Some(*slug)),
{
    let lower = to_lowercase(slug.as_str());
    let hay = chars_of(lower.as_str());
    let p1 = chars_of(BTC_15M_SLUG_PATTERN);
    if contains_chars(&hay, &p1) {
        return true;
    }
    let p2 = chars_of(BTC_15M_SLUG_PATTERN_ALT);
    contains_chars(&hay, &p2)
}

/// The timestamp at the end of a slug.
fn timestamp_of_slug(slug: &String) -> (r: i64)
    ensures
        r == slug_timestamp(slug@),
{
    let chars = chars_of(slug.as_str());
    let start = last_segment_start(&chars);
    let text = slug.as_str().substring_char(start, chars.len());
    proof {
        assert(slug@.subrange(start as int, chars@.len() as int) =~= slug@.skip(start as int));
    }
    match parse_i64(text) {
        Some(t) => t,
        None => i64::MAX,
    }
}

/// Keeps, of the BTC 15-minute up/down events, only the one with the earliest
/// timestamp in its slug (the first one in map order among equals); empty when
/// no event matches.
pub fn filter_latest_btc_15m_event(events: &StrMap<RawEvent>) -> (r: StrMap<RawEvent>)
    requires
        events.wf(),
    ensures
        r.wf(),
        raw_map_models(r.model()) == match pick_earliest(events.value_seq()) {
            Some(b) => Map::<Seq<char>, <RawEvent as View>::V>::empty().insert(
                events.key_seq()[b],
                events.value_seq()[b]@,
            ),
            None => Map::<Seq<char>, <RawEvent as View>::V>::empty(),
        },
{
    let n = events.len();
    let mut best: Option<(usize, i64)> = None;
    let mut i: usize = 0;
    let ghost vals = events.value_seq();
    while i < n
        invariant
            events.wf(),
            n == events.key_seq().len(),
            n == vals.len(),
            vals == events.value_seq(),
            0 <= i <= n,
            match best {
                Some((b, t)) => pick_earliest(vals.take(i as int)) == Some(b as int) && b < i && t
                    == event_timestamp(vals[b as int]),
                None => pick_earliest(vals.take(i as int)) is None,
            },
        decreases n - i,
    {
        let ev = events.value_at(i);
        proof {
            assert(vals.take(i + 1).drop_last() =~= vals.take(i as int));
            assert(vals.take(i + 1)[i as int] == vals[i as int]);
            match best {
                Some((b, t)) => {
                    assert(vals.take(i + 1)[b as int] == vals[b as int]);
                },
                None => {},
            }
        }
        match &ev.slug {
            Some(slug) => {
                if slug_is_btc_15m(slug) {
                    let ts = timestamp_of_slug(slug);
                    match best {
                        None => {
                            best = Some((i, ts));
                        },
                        Some((_, t)) => {
                            if ts < t {
                                best = Some((i, ts));
                            }
                        },
                    }
                }
            },
            None => {},
        }
        i = i + 1;
    }
    proof {
        assert(vals.take(n as int) == vals);
    }
    let mut r: StrMap<RawEvent> = StrMap::new();
    match best {
        Some((b, _)) => {
            let k = events.key_at(b).clone();
            let e = events.value_at(b).duplicate();
            let ghost ee = e;
            r.insert(k, e);
            proof {
                assert(raw_map_models(r.model()) =~= Map::<Seq<char>, <RawEvent as View>::V>::empty().insert(
                    events.key_seq()[b as int],
                    ee@,
                ));
            }
        },
        None => {
            proof {
                assert(raw_map_models(r.model()) =~= Map::<Seq<char>, <RawEvent as View>::V>::empty());
            }
        },
    }
    r
}

/// The chosen event is a BTC 15-minute event whose timestamp is not later than
/// that of any other BTC 15-minute event; none is chosen only when none matches.
pub proof fn law_picks_earliest_btc_15m(events: Seq<RawEvent>)
    ensures
        pick_earliest(events) is None <==> forall|j: int|
            0 <= j < events.len() ==> !slug_matches_btc_15m(#[trigger] events[j].slug),
        pick_earliest(events) matches Some(b) ==> 0 <= b < events.len() && slug_matches_btc_15m(
            events[b].slug,
        ) && forall|j: int|
            0 <= j < events.len() && slug_matches_btc_15m(#[trigger] events[j].slug)
                ==> event_timestamp(events[b]) <= event_timestamp(events[j]),
    decreases events.len(),
{
    if events.len() > 0 {
        let d = events.drop_last();
        let last = events.len() - 1;
        law_picks_earliest_btc_15m(d);
        assert forall|j: int| 0 <= j < d.len() implies #[trigger] d[j] == events[j] by {}
        if pick_earliest(events) is None {
            assert forall|j: int| 0 <= j < events.len() implies !slug_matches_btc_15m(#[trigger] events[j].slug) by {
                if j < last {
                    assert(d[j] == events[j]);
                }
            }
        } else {
            let b = pick_earliest(events)->0;
            if !slug_matches_btc_15m(events[last].slug) || (pick_earliest(d) is Some
                && event_timestamp(events[last]) >= event_timestamp(events[pick_earliest(d)->0])) {
                assert(pick_earliest(d) == Some(b));
                assert(d[b] == events[b]);
            }
            assert forall|j: int|
                0 <= j < events.len() && slug_matches_btc_15m(#[trigger] events[j].slug)
                    implies event_timestamp(events[b]) <= event_timestamp(events[j]) by {
                if j < last {
                    assert(d[j] == events[j]);
                    assert(slug_matches_btc_15m(d[j].slug));
                }
            }
            assert(exists|j: int| 0 <= j < events.len() && slug_matches_btc_15m(#[trigger] events[j].slug)) by {
                assert(slug_matches_btc_15m(events[b].slug));
            }
        }
    }
}

/// A snapshot taken by its model: market id, platform, the two asset ids, the
/// two outcome labels and the two books.
pub type SnapshotModel = (
    Seq<char>,
    Seq<char>,
    Seq<char>,
    Seq<char>,
    Seq<char>,
    Seq<char>,
    BookState,
    BookState,
);

/// Model of a snapshot.
pub open spec fn snapshot_model(s: BinaryMarketSnapshot) -> SnapshotModel {
    (
        s.market_id@,
        s.platform@,
        s.asset_ids@[0]@,
        s.asset_ids@[1]@,
        s.outcomes@[0]@,
        s.outcomes@[1]@,
        book_state(s.orderbooks@[0]),
        book_state(s.orderbooks@[1]),
    )
}

/// A book that holds at least one level.
pub open spec fn book_nonempty(b: BookState) -> bool {
    !(b.0.dom().is_empty() && b.1.dom().is_empty())
}

/// What building the snapshot of one market gives: the error, or the snapshot.
pub open spec fn single_snapshot(
    index: IndexModel,
    books: Map<Seq<char>, BookState>,
    market_id: Seq<char>,
) -> Result<SnapshotModel, PolymarketError> {
    if !(index.market_to_tokens.contains_key(market_id) && index.market_to_tokens[market_id].len()
        == BINARY_OUTCOME_COUNT) {
        Err(PolymarketError::NoTokenIds)
    } else {
        let t = index.market_to_tokens[market_id];
        if !(books.contains_key(t[0]) && book_nonempty(books[t[0]])) {
            Err(PolymarketError::NoYesOrderbook)
        } else if !(books.contains_key(t[1]) && book_nonempty(books[t[1]])) {
            Err(PolymarketError::NoNoOrderbook)
        } else {
            Ok(
                (
                    market_id,
                    PROTOCOL_NAME@,
                    t[0],
                    t[1],
                    OUTCOME_YES@,
                    OUTCOME_NO@,
                    books[t[0]],
                    books[t[1]],
                ),
            )
        }
    }
}

/// The snapshot of a market pairs each of its two CLOB tokens with that token's
/// own book: the first book is the book of the first token, labelled YES, and
/// the second the book of the second token, labelled NO.
pub proof fn law_snapshot_books_match_tokens(
    index: IndexModel,
    books: Map<Seq<char>, BookState>,
    market_id: Seq<char>,
)
    ensures
        single_snapshot(index, books, market_id) matches Ok(s) ==> {
            &&& index.market_to_tokens.contains_key(market_id)
            &&& index.market_to_tokens[market_id].len() == 2
            &&& s.0 == market_id
            &&& s.2 == index.market_to_tokens[market_id][0]
            &&& s.3 == index.market_to_tokens[market_id][1]
            &&& s.4 == OUTCOME_YES@
            &&& s.5 == OUTCOME_NO@
            &&& books.contains_key(s.2) && s.6 == books[s.2]
            &&& books.contains_key(s.3) && s.7 == books[s.3]
        },
{
}

/// Snapshots of every active market whose snapshot can be built.
pub open spec fn all_snapshots(index: IndexModel, books: Map<Seq<char>, BookState>) -> Map<
    Seq<char>,
    SnapshotModel,
> {
    Map::new(
        |m: Seq<char>| index.active_markets.contains(m) && single_snapshot(index, books, m) is Ok,
        |m: Seq<char>| single_snapshot(index, books, m)->Ok_0,
    )
}

/// Models of a map of snapshots.
pub open spec fn snapshot_map_models(m: Map<Seq<char>, BinaryMarketSnapshot>) -> Map<Seq<char>, SnapshotModel> {
    m.map_values(|s: BinaryMarketSnapshot| snapshot_model(s))
}

/// The market state of the venue: tracked events, their indexes and the order
/// books of the subscribed tokens.
#[derive(Debug)]
pub struct PolymarketManager {
    event_manager: EventManager,
    orderbook_manager: OrderbookManager,
    indexer: PolymarketIndexer,
}

impl PolymarketManager {
    /// All parts are well formed.
    pub closed spec fn wf(&self) -> bool {
        self.event_manager.wf() && self.orderbook_manager.wf() && self.indexer.wf()
    }

    /// The tracked events.
    pub closed spec fn events(&self) -> Map<Seq<char>, EventModel> {
        self.event_manager.events()
    }

    /// The tracked events as held, in their map's order.
    pub closed spec fn tracked_events(&self) -> StrMap<Event> {
        self.event_manager.event_map()
    }

    /// The indexes.
    pub closed spec fn index(&self) -> IndexModel {
        self.indexer.model()
    }

    /// Tokens of each indexed market, in the order of the markets.
    pub closed spec fn token_lists(&self) -> Seq<Seq<Seq<char>>> {
        self.indexer.token_lists()
    }

    /// The markets whose tokens are recorded, in the order of `token_lists`.
    pub closed spec fn token_markets(&self) -> Seq<Seq<char>> {
        self.indexer.token_markets()
    }

    /// The token lists are the indexed lists of the markets with tokens, each
    /// such market once.
    pub proof fn lemma_token_lists(&self)
        requires
            self.wf(),
        ensures
            self.token_markets().no_duplicates(),
            self.token_markets().to_set() == self.index().market_to_tokens.dom(),
            self.token_lists() == self.token_markets().map_values(
                |m: Seq<char>| self.index().market_to_tokens[m],
            ),
    {
        self.indexer.lemma_token_lists();
    }

    /// The order books.
    pub closed spec fn books(&self) -> Map<Seq<char>, BookState> {
        self.orderbook_manager.model()
    }

    /// Builds the state at `now` from the selected events and the markets fetched
    /// for them: the allowed active events are tracked, their tradable markets
    /// attached, and the indexes built; no book yet. Fails when a market list
    /// names an event that is not tracked.
    pub fn new_at(
        events: StrMap<RawEvent>,
        event_id_to_markets: &StrMap<Vec<(String, Market)>>,
        now: Instant,
    ) -> (r: Result<Self, PolymarketError>)
        requires
            events.wf(),
            event_id_to_markets.wf(),
        ensures
            ({
                let registered = register_events(
                    Map::empty(),
                    raw_seq_models(events.value_seq()),
                    seq![ALLOWED_SERIE_SLUG@],
                );
                let attached = attach_markets(
                    registered,
                    event_id_to_markets.key_seq(),
                    markets_lists(*event_id_to_markets),
                    now,
                );
                match r {
                    Ok(m) => attached.1 is None && m.wf() && m.events() == attached.0 && m.books()
                        == Map::<Seq<char>, BookState>::empty() && index_consistent(m.index())
                        && event_map_models(m.tracked_events().model()) == m.events()
                        && m.index() == all_events_indexed(m.tracked_events(), now),
                    Err(e) => attached.1 matches Some(id) && e matches PolymarketError::EventNotFound(x)
                        && x@ == id,
                }
            }),
    {
        let mut allowed: Vec<String> = Vec::new();
        allowed.push(ALLOWED_SERIE_SLUG.to_string());
        proof {
            assert(string_views(allowed@) =~= seq![ALLOWED_SERIE_SLUG@]);
        }
        let mut event_manager = EventManager::new(allowed);
        event_manager.init_my_active_events(events);
        match event_manager.init_active_markets_from_events_at(event_id_to_markets, now) {
            Ok(()) => {},
            Err(e) => {
                return Err(e);
            },
        }
        let mut indexer = PolymarketIndexer::new();
        indexer.update_at(event_manager.active_events(), now);
        let orderbook_manager = OrderbookManager::new();
        Ok(PolymarketManager { event_manager, orderbook_manager, indexer })
    }

    /// Builds the state from the selected events and their markets, reading the
    /// clock once (see `new_at`). A clock reading before the Unix epoch is
    /// reported as `ClockOutOfRange`.
    pub fn new(events: StrMap<RawEvent>, event_id_to_markets: &StrMap<Vec<(String, Market)>>) -> (r:
        Result<Self, PolymarketError>)
        requires
            events.wf(),
            event_id_to_markets.wf(),
        ensures
            r matches Ok(m) ==> m.wf() && m.books() == Map::<Seq<char>, BookState>::empty()
                && index_consistent(m.index()),
            !(r matches Err(PolymarketError::ClockOutOfRange)) ==> exists|now: Instant|
                #![trigger attach_markets(register_events(Map::empty(), raw_seq_models(events.value_seq()), seq![ALLOWED_SERIE_SLUG@]), event_id_to_markets.key_seq(), markets_lists(*event_id_to_markets), now)]
                {
                    let attached = attach_markets(
                        register_events(
                            Map::empty(),
                            raw_seq_models(events.value_seq()),
                            seq![ALLOWED_SERIE_SLUG@],
                        ),
                        event_id_to_markets.key_seq(),
                        markets_lists(*event_id_to_markets),
                        now,
                    );
                    match r {
                        Ok(m) => attached.1 is None && m.events() == attached.0
                            && event_map_models(m.tracked_events().model()) == m.events()
                            && m.index() == all_events_indexed(m.tracked_events(), now),
                        Err(e) => attached.1 matches Some(id) && e matches PolymarketError::EventNotFound(
                            x,
                        ) && x@ == id,
                    }
                },
    {
        match utc_now() {
            Some(now) => Self::new_at(events, event_id_to_markets, now),
            None => Err(PolymarketError::ClockOutOfRange),
        }
    }

    /// The tracked events.
    pub fn event_manager(&self) -> (r: &EventManager)
        requires
            self.wf(),
        ensures
            r.wf(),
            r.events() == self.events(),
    {
        &self.event_manager
    }

    /// The indexes.
    pub fn indexer(&self) -> (r: &PolymarketIndexer)
        requires
            self.wf(),
        ensures
            r.wf(),
            r.model() == self.index(),
    {
        &self.indexer
    }

    /// The order books.
    pub fn orderbook_manager(&self) -> (r: &OrderbookManager)
        requires
            self.wf(),
        ensures
            r.wf(),
            r.model() == self.books(),
    {
        &self.orderbook_manager
    }

    /// Every CLOB token id to subscribe to.
    pub fn get_all_clob_token_ids(&self) -> (r: Vec<String>)
        requires
            self.wf(),
        ensures
            string_views(r@) == self.token_lists().flatten(),
            string_views(r@) == self.token_markets().map_values(
                |m: Seq<char>| self.index().market_to_tokens[m],
            ).flatten(),
    {
        self.indexer.get_all_clob_token_ids()
    }

    /// Applies a book snapshot (its levels as converted).
    pub fn handle_snapshot(&mut self, snapshot: BookSnapshotMessage, bids: Vec<RawLevel>, asks: Vec<RawLevel>)
        requires
            old(self).wf(),
        ensures
            final(self).wf(),
            final(self).books() == old(self).books().insert(
                snapshot.asset_id@,
                (
                    crate::orderbook::build_side(bids@),
                    crate::orderbook::build_side(asks@),
                    snapshot.timestamp@,
                    snapshot.asset_id@,
                    snapshot.market@,
                    snapshot.hash@,
                ),
            ),
            final(self).events() == old(self).events(),
            final(self).index() == old(self).index(),
    {
        self.orderbook_manager.handle_snapshot_message(snapshot, bids, asks);
    }

    /// Applies a batch of level updates (`levels[i]` converted from
    /// `msg.price_changes[i]`) and returns the market to notify: the one the
    /// first update's token belongs to, when it is indexed.
    pub fn handle_price_change(&mut self, msg: PriceChangeMessage, levels: Vec<Option<RawLevel>>) -> (r:
        Option<String>)
        requires
            old(self).wf(),
            levels@.len() == msg.price_changes@.len(),
        ensures
            final(self).wf(),
            final(self).books() == apply_all(
                old(self).books(),
                group_changes(change_models(msg, levels@)),
                msg.timestamp@,
            ),
            final(self).events() == old(self).events(),
            final(self).index() == old(self).index(),
            match r {
                Some(m) => msg.price_changes@.len() > 0 && old(self).index().token_to_market.contains_key(
                    msg.price_changes@[0].asset_id@,
                ) && m@ == old(self).index().token_to_market[msg.price_changes@[0].asset_id@],
                None => msg.price_changes@.len() == 0 || !old(self).index().token_to_market.contains_key(
                    msg.price_changes@[0].asset_id@,
                ),
            },
    {
        let token = if msg.price_changes.len() > 0 {
            Some(msg.price_changes[0].asset_id.clone())
        } else {
            None
        };
        let ghost first = if msg.price_changes@.len() > 0 { msg.price_changes@[0].asset_id@ } else { Seq::empty() };
        self.orderbook_manager.handle_price_change_message(msg, levels);
        match token {
            Some(t) => {
                proof {
                    assert(t@ == first);
                }
                self.indexer.get_market_id_from_token(t.as_str())
            },
            None => None,
        }
    }

    /// Builds the YES/NO snapshot of one market.
    pub fn generate_single_binary_market_snapshot(&self, market_id: &str) -> (r: Result<
        BinaryMarketSnapshot,
        PolymarketError,
    >)
        requires
            self.wf(),
        ensures
            r matches Ok(s) ==> self.books().contains_key(s.asset_ids@[0]@) && book_state(s.orderbooks@[0])
                == self.books()[s.asset_ids@[0]@] && self.books().contains_key(s.asset_ids@[1]@)
                && book_state(s.orderbooks@[1]) == self.books()[s.asset_ids@[1]@],
            match r {
                Ok(s) => s.wf() && single_snapshot(self.index(), self.books(), market_id@) == Ok::<
                    SnapshotModel,
                    PolymarketError,
                >(snapshot_model(s)),
                Err(e) => single_snapshot(self.index(), self.books(), market_id@) == Err::<
                    SnapshotModel,
                    PolymarketError,
                >(e),
            },
    {
        let token_ids = match self.indexer.get_clob_token_ids_for_market(market_id) {
            Some(ids) => {
                if ids.len() == BINARY_OUTCOME_COUNT {
                    ids
                } else {
                    return Err(PolymarketError::NoTokenIds);
                }
            },
            None => {
                return Err(PolymarketError::NoTokenIds);
            },
        };
        proof {
            assert(string_views(token_ids@)[0] == token_ids@[0]@);
            assert(string_views(token_ids@)[1] == token_ids@[1]@);
        }
        let yes_ob = match self.orderbook_manager.get_book(token_ids[0].as_str()) {
            Some(ob) => {
                if ob.is_empty() {
                    return Err(PolymarketError::NoYesOrderbook);
                }
                ob
            },
            None => {
                return Err(PolymarketError::NoYesOrderbook);
            },
        };
        let no_ob = match self.orderbook_manager.get_book(token_ids[1].as_str()) {
            Some(ob) => {
                if ob.is_empty() {
                    return Err(PolymarketError::NoNoOrderbook);
                }
                ob
            },
            None => {
                return Err(PolymarketError::NoNoOrderbook);
            },
        };
        let asset_ids = [token_ids[0].clone(), token_ids[1].clone()];
        let outcomes = [OUTCOME_YES.to_string(), OUTCOME_NO.to_string()];
        let obs = [yes_ob.duplicate(), no_ob.duplicate()];
        let s = BinaryMarketSnapshot::new(
            market_id.to_string(),
            PROTOCOL_NAME.to_string(),
            asset_ids,
            outcomes,
            obs,
        );
        proof {
            assert(snapshot_model(s) == single_snapshot(self.index(), self.books(), market_id@)->Ok_0);
            law_snapshot_books_match_tokens(self.index(), self.books(), market_id@);
        }
        Ok(s)
    }

    /// Builds the YES/NO snapshots of every active market that has exactly two
    /// tokens and a non-empty book for each.
    pub fn generate_binary_market_snapshots(&self) -> (r: StrMap<BinaryMarketSnapshot>)
        requires
            self.wf(),
        ensures
            r.wf(),
            snapshot_map_models(r.model()) == all_snapshots(self.index(), self.books()),
            forall|i: int| 0 <= i < r.value_seq().len() ==> #[trigger] r.value_seq()[i].wf(),
    {
        let ids = self.indexer.get_active_market_ids();
        let n = ids.len();
        let mut r: StrMap<BinaryMarketSnapshot> = StrMap::new();
        let ghost idv = string_views(ids@);
        let mut i: usize = 0;
        proof {
            assert(snapshot_map_models(r.model()) =~= snapshots_upto(self.index(), self.books(), idv.take(0)));
        }
        while i < n
            invariant
                self.wf(),
                n == ids@.len(),
                idv == string_views(ids@),
                0 <= i <= n,
                r.wf(),
                snapshot_map_models(r.model()) == snapshots_upto(self.index(), self.books(), idv.take(i as int)),
                forall|j: int| 0 <= j < r.value_seq().len() ==> #[trigger] r.value_seq()[j].wf(),
            decreases n - i,
        {
            let market_id = &ids[i];
            proof {
                assert(idv.take(i + 1) =~= idv.take(i as int).push(market_id@));
            }
            match self.generate_single_binary_market_snapshot(market_id.as_str()) {
                Ok(s) => {
                    let ghost before = r;
                    let ghost ss = s;
                    r.insert(market_id.clone(), s);
                    proof {
                        before.lemma_model();
                        r.lemma_model();
                        assert forall|j: int| 0 <= j < r.value_seq().len() implies #[trigger] r.value_seq()[j].wf() by {
                            let q = r.key_seq()[j];
                            assert(r.model()[q] == r.value_seq()[j]);
                            if q != market_id@ {
                                let p = choose|p: int| 0 <= p < before.key_seq().len() && before.key_seq()[p] == q;
                                assert(before.model()[q] == before.value_seq()[p]);
                            }
                        }
                        lemma_snapshots_upto_push(self.index(), self.books(), idv.take(i as int), market_id@);
                        assert(snapshot_map_models(r.model()) =~= snapshot_map_models(before.model()).insert(market_id@, snapshot_model(ss)));
                    }
                },
                Err(_) => {
                    proof {
                        lemma_snapshots_upto_push(self.index(), self.books(), idv.take(i as int), market_id@);
                    }
                },
            }
            i = i + 1;
        }
        proof {
            assert(idv.take(n as int) == idv);
            assert(snapshots_upto(self.index(), self.books(), idv) =~= all_snapshots(self.index(), self.books()));
        }
        r
    }
}

/// What the event listener hands over once a raw text has been parsed (and the
/// decimal levels converted).
#[derive(Debug)]
pub enum SystemEvent {
    /// Book snapshots, each with its bid and ask levels.
    Snapshots(Vec<(BookSnapshotMessage, Vec<RawLevel>, Vec<RawLevel>)>),
    /// Level updates, `levels[i]` converted from `price_changes[i]`.
    PriceChange(PriceChangeMessage, Vec<Option<RawLevel>>),
    /// A raw text that could not be parsed (with the parser's message).
    ParseError(String),
    /// An error reported by the WebSocket client.
    WsError(String),
    /// Anything else, which is ignored.
    Other,
}

/// The event carries one converted level per update.
pub open spec fn system_event_wf(e: SystemEvent) -> bool {
    e matches SystemEvent::PriceChange(msg, levels) ==> levels@.len() == msg.price_changes@.len()
}

/// The book a snapshot installs.
pub open spec fn snapshot_state(s: (BookSnapshotMessage, Vec<RawLevel>, Vec<RawLevel>)) -> BookState {
    (
        crate::orderbook::build_side(s.1@),
        crate::orderbook::build_side(s.2@),
        s.0.timestamp@,
        s.0.asset_id@,
        s.0.market@,
        s.0.hash@,
    )
}

/// The books after installing the snapshots in order.
pub open spec fn apply_snapshots(
    books: Map<Seq<char>, BookState>,
    snaps: Seq<(BookSnapshotMessage, Vec<RawLevel>, Vec<RawLevel>)>,
) -> Map<Seq<char>, BookState>
    decreases snaps.len(),
{
    if snaps.len() == 0 {
        books
    } else {
        apply_snapshots(books, snaps.drop_last()).insert(
            snaps.last().0.asset_id@,
            snapshot_state(snaps.last()),
        )
    }
}

impl PolymarketManager {
    /// Handles one event of the listener: snapshots replace books, level
    /// updates are applied and name the market to notify, errors and anything
    /// else leave the state as it is.
    pub fn handle_system_event(&mut self, event: SystemEvent) -> (r: Option<String>)
        requires
            old(self).wf(),
            system_event_wf(event),
        ensures
            final(self).wf(),
            final(self).events() == old(self).events(),
            final(self).index() == old(self).index(),
            match event {
                SystemEvent::Snapshots(snaps) => r is None && final(self).books() == apply_snapshots(
                    old(self).books(),
                    snaps@,
                ),
                SystemEvent::PriceChange(msg, levels) => {
                    &&& final(self).books() == apply_all(
                        old(self).books(),
                        group_changes(change_models(msg, levels@)),
                        msg.timestamp@,
                    )
                    &&& match r {
                        Some(m) => msg.price_changes@.len() > 0
                            && old(self).index().token_to_market.contains_key(msg.price_changes@[0].asset_id@)
                            && m@ == old(self).index().token_to_market[msg.price_changes@[0].asset_id@],
                        None => msg.price_changes@.len() == 0
                            || !old(self).index().token_to_market.contains_key(msg.price_changes@[0].asset_id@),
                    }
                },
                _ => r is None && final(self).books() == old(self).books(),
            },
    {
        match event {
            SystemEvent::Snapshots(snaps) => {
                let ghost all = snaps@;
                let ghost b0 = self.books();
                let mut rest = snaps;
                let n = rest.len();
                let mut k: usize = 0;
                proof {
                    assert(all.take(0) =~= Seq::<(BookSnapshotMessage, Vec<RawLevel>, Vec<RawLevel>)>::empty());
                    assert(all.skip(0) =~= all);
                }
                while k < n
                    invariant
                        self.wf(),
                        n == all.len(),
                        0 <= k <= n,
                        rest@ == all.skip(k as int),
                        self.books() == apply_snapshots(b0, all.take(k as int)),
                        self.events() == old(self).events(),
                        self.index() == old(self).index(),
                    decreases n - k,
                {
                    let (snapshot, bids, asks) = rest.remove(0);
                    proof {
                        assert(all.skip(k as int)[0] == all[k as int]);
                        assert(all.skip(k as int).remove(0) =~= all.skip(k + 1));
                        assert(all.take(k + 1).drop_last() =~= all.take(k as int));
                        assert(all.take(k + 1).last() == all[k as int]);
                    }
                    self.handle_snapshot(snapshot, bids, asks);
                    k = k + 1;
                }
                proof {
                    assert(all.take(n as int) =~= all);
                }
                None
            },
            SystemEvent::PriceChange(msg, levels) => self.handle_price_change(msg, levels),
            SystemEvent::ParseError(_) => None,
            SystemEvent::WsError(_) => None,
            SystemEvent::Other => None,
        }
    }
}

/// Snapshots of the listed markets whose snapshot can be built.
pub open spec fn snapshots_upto(index: IndexModel, books: Map<Seq<char>, BookState>, ids: Seq<Seq<char>>) -> Map<
    Seq<char>,
    SnapshotModel,
> {
    Map::new(
        |m: Seq<char>| ids.contains(m) && single_snapshot(index, books, m) is Ok,
        |m: Seq<char>| single_snapshot(index, books, m)->Ok_0,
    )
}

proof fn lemma_snapshots_upto_push(
    index: IndexModel,
    books: Map<Seq<char>, BookState>,
    ids: Seq<Seq<char>>,
    m: Seq<char>,
)
    ensures
        snapshots_upto(index, books, ids.push(m)) == if single_snapshot(index, books, m) is Ok {
            snapshots_upto(index, books, ids).insert(m, single_snapshot(index, books, m)->Ok_0)
        } else {
            snapshots_upto(index, books, ids).remove(m)
        },
{
    let a = snapshots_upto(index, books, ids.push(m));
    assert forall|q: Seq<char>| #[trigger] ids.push(m).contains(q) == (ids.contains(q) || q == m) by {
        if ids.push(m).contains(q) {
            let j = choose|j: int| 0 <= j < ids.push(m).len() && ids.push(m)[j] == q;
            if j < ids.len() {
                assert(ids[j] == q);
            }
        }
        if ids.contains(q) {
            let j = choose|j: int| 0 <= j < ids.len() && ids[j] == q;
            assert(ids.push(m)[j] == q);
        }
        if q == m {
            assert(ids.push(m)[ids.len() as int] == q);
        }
    }
    if single_snapshot(index, books, m) is Ok {
        assert(a =~= snapshots_upto(index, books, ids).insert(m, single_snapshot(index, books, m)->Ok_0));
    } else {
        assert(a =~= snapshots_upto(index, books, ids).remove(m));
    }
}

} // verus!
