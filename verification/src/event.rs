use vstd::prelude::*;

use crate::adapters::{utc_now, Instant};
use crate::error::PolymarketError;
use crate::market::{copy_opt_string, end_date_expired, expired_at, flag_set, has_parsed_end, Market};
use crate::strmap::{string_views, StrMap};

verus! {

/// Model of a market (see `Market`'s view).
pub type MarketModel = <Market as View>::V;

/// An event as listed by the Gamma API.
#[derive(Debug, Clone)]
pub struct RawEvent {
    pub id: String,
    pub slug: Option<String>,
    pub title: Option<String>,
    pub description: Option<String>,
    pub ticker: Option<String>,
    pub active: Option<bool>,
    pub closed: Option<bool>,
    pub markets: Option<Vec<Market>>,
    pub start_date: Option<String>,
    pub creation_date: Option<String>,
    pub end_date: Option<String>,
    pub enable_order_book: Option<bool>,
    pub series_slug: Option<String>,
}

/// A tracked event, holding its markets keyed by market id.
#[derive(Debug)]
pub struct Event {
    pub id: String,
    pub markets: StrMap<Market>,
    pub slug: Option<String>,
    pub title: Option<String>,
    pub description: Option<String>,
    pub ticker: Option<String>,
    pub active: Option<bool>,
    pub closed: Option<bool>,
    pub start_date: Option<String>,
    pub creation_date: Option<String>,
    pub end_date: Option<String>,
    pub enable_order_book: Option<bool>,
    pub series_slug: Option<String>,
}

/// Models of a list of markets.
pub open spec fn market_seq_models(ms: Seq<Market>) -> Seq<MarketModel> {
    ms.map_values(|m: Market| m@)
}

/// Models of a map of markets.
pub open spec fn market_map_models(m: Map<Seq<char>, Market>) -> Map<Seq<char>, MarketModel> {
    m.map_values(|x: Market| x@)
}

/// Markets keyed by id; a later market with the same id replaces an earlier one.
pub open spec fn markets_by_id(ms: Seq<MarketModel>) -> Map<Seq<char>, MarketModel>
    decreases ms.len(),
{
    if ms.len() == 0 {
        Map::empty()
    } else {
        markets_by_id(ms.drop_last()).insert(ms.last().0.id@, ms.last())
    }
}

/// Model of a raw event: its own fields, with the markets taken by their models.
impl View for RawEvent {
    type V = (RawEvent, Option<Seq<MarketModel>>);

    open spec fn view(&self) -> Self::V {
        (
            RawEvent { markets: None, ..*self },
            match self.markets {
                Some(ms) => Some(market_seq_models(ms@)),
                None => None,
            },
        )
    }
}

/// Model of a tracked event: its fields (as a raw event without a market list)
/// and its markets keyed by id, taken by their models.
pub type EventModel = (RawEvent, Map<Seq<char>, MarketModel>);

impl View for Event {
    type V = EventModel;

    open spec fn view(&self) -> EventModel {
        (
            RawEvent {
                id: self.id,
                slug: self.slug,
                title: self.title,
                description: self.description,
                ticker: self.ticker,
                active: self.active,
                closed: self.closed,
                markets: None,
                start_date: self.start_date,
                creation_date: self.creation_date,
                end_date: self.end_date,
                enable_order_book: self.enable_order_book,
                series_slug: self.series_slug,
            },
            market_map_models(self.markets.model()),
        )
    }
}

/// The tracked form of a raw event (what `to_event` builds).
pub open spec fn event_of(raw: <RawEvent as View>::V) -> EventModel {
    (
        raw.0,
        match raw.1 {
            Some(ms) => markets_by_id(ms),
            None => Map::empty(),
        },
    )
}

/// An event is open for trading at `now`: active, not closed, with an order
/// book, and not past a parseable end date.
pub open spec fn event_active_at(
    active: Option<bool>,
    closed: Option<bool>,
    enable_order_book: Option<bool>,
    end_date: Option<String>,
    now: Instant,
) -> bool {
    flag_set(active) && !flag_set(closed) && flag_set(enable_order_book) && !expired_at(
        end_date,
        now,
    )
}

/// The flags of an open event.
pub open spec fn event_flags_ok(active: Option<bool>, closed: Option<bool>, enable_order_book: Option<bool>) -> bool {
    flag_set(active) && !flag_set(closed) && flag_set(enable_order_book)
}

proof fn lemma_map_values_insert(m: Map<Seq<char>, Market>, k: Seq<char>, v: Market)
    ensures
        market_map_models(m.insert(k, v)) == market_map_models(m).insert(k, v@),
{
    assert(market_map_models(m.insert(k, v)) =~= market_map_models(m).insert(k, v@));
}

proof fn lemma_map_values_remove(m: Map<Seq<char>, Market>, k: Seq<char>)
    ensures
        market_map_models(m.remove(k)) == market_map_models(m).remove(k),
{
    assert(market_map_models(m.remove(k)) =~= market_map_models(m).remove(k));
}

/// Copies a list of markets.
pub fn copy_markets(v: &Vec<Market>) -> (r: Vec<Market>)
    ensures
        market_seq_models(r@) == market_seq_models(v@),
{
    let mut r: Vec<Market> = Vec::with_capacity(v.len());
    let mut i: usize = 0;
    while i < v.len()
        invariant
            0 <= i <= v@.len(),
            r@.len() == i,
            market_seq_models(r@) == market_seq_models(v@.take(i as int)),
        decreases v@.len() - i,
    {
        let m = v[i].duplicate();
        let ghost r0 = r@;
        r.push(m);
        proof {
            assert forall|j: int| 0 <= j < i + 1 implies #[trigger] market_seq_models(r@)[j]
                == market_seq_models(v@.take(i + 1))[j] by {
                if j < i {
                    assert(r@[j] == r0[j]);
                    assert(market_seq_models(r0)[j] == market_seq_models(v@.take(i as int))[j]);
                }
            }
            assert(market_seq_models(r@) =~= market_seq_models(v@.take(i + 1)));
        }
        i = i + 1;
    }
    proof {
        assert(v@.take(v@.len() as int) == v@);
    }
    r
}

/// Copies a map of markets, keeping its order.
pub fn copy_market_map(m: &StrMap<Market>) -> (r: StrMap<Market>)
    requires
        m.wf(),
    ensures
        r.wf(),
        r.key_seq() == m.key_seq(),
        market_map_models(r.model()) == market_map_models(m.model()),
{
    let n = m.len();
    let mut r: StrMap<Market> = StrMap::new();
    let mut i: usize = 0;
    proof {
        m.lemma_model();
        assert(m.key_seq().take(0) =~= Seq::<Seq<char>>::empty());
    }
    while i < n
        invariant
            m.wf(),
            r.wf(),
            n == m.key_seq().len(),
            0 <= i <= n,
            r.key_seq() == m.key_seq().take(i as int),
            forall|j: int|
                0 <= j < i ==> #[trigger] r.model().contains_key(m.key_seq()[j])
                    && r.model()[m.key_seq()[j]]@ == m.value_seq()[j]@,
            forall|k: Seq<char>| #[trigger] r.model().contains_key(k) ==> m.key_seq().take(
                i as int,
            ).contains(k),
        decreases n - i,
    {
        proof {
            m.lemma_model();
            r.lemma_model();
            assert(!m.key_seq().take(i as int).contains(m.key_seq()[i as int])) by {
                if m.key_seq().take(i as int).contains(m.key_seq()[i as int]) {
                    let j = choose|j: int|
                        0 <= j < i && m.key_seq().take(i as int)[j] == m.key_seq()[i as int];
                    assert(m.key_seq()[j] == m.key_seq()[i as int]);
                }
            }
        }
        let k = m.key_at(i).clone();
        let v = m.value_at(i).duplicate();
        r.insert(k, v);
        proof {
            assert(m.key_seq().take(i + 1) =~= m.key_seq().take(i as int).push(m.key_seq()[i as int]));
        }
        i = i + 1;
    }
    proof {
        m.lemma_model();
        r.lemma_model();
        assert(m.key_seq().take(n as int) == m.key_seq());
        assert forall|k: Seq<char>| #[trigger] market_map_models(r.model()).contains_key(k)
            == market_map_models(m.model()).contains_key(k) by {
        }
        assert forall|k: Seq<char>| #[trigger] market_map_models(r.model()).contains_key(k)
            implies market_map_models(r.model())[k] == market_map_models(m.model())[k] by {
            let j = choose|j: int| 0 <= j < m.key_seq().len() && m.key_seq()[j] == k;
        }
        assert(market_map_models(r.model()) =~= market_map_models(m.model()));
    }
    r
}

impl RawEvent {
    /// The slug, or an error when the event has none.
    pub fn get_slug(&self) -> (r: Result<&str, PolymarketError>)
        ensures
            match r {
                Ok(s) => self.slug matches Some(x) && s@ == x@,
                Err(e) => self.slug is None && e == PolymarketError::EventSlugMissing,
            },
    {
        match &self.slug {
            Some(s) => Ok(s.as_str()),
            None => Err(PolymarketError::EventSlugMissing),
        }
    }

    /// The tracked form of the event: the same fields, with the market list
    /// turned into a map keyed by market id (a later duplicate id wins).
    pub fn to_event(&self) -> (r: Event)
        ensures
            r.markets.wf(),
            r@ == event_of(self@),
            market_map_models(r.markets.model()) == match self@.1 {
                Some(ms) => markets_by_id(ms),
                None => Map::empty(),
            },
            r.id == self.id,
            r.slug == self.slug,
            r.title == self.title,
            r.description == self.description,
            r.ticker == self.ticker,
            r.active == self.active,
            r.closed == self.closed,
            r.start_date == self.start_date,
            r.creation_date == self.creation_date,
            r.end_date == self.end_date,
            r.enable_order_book == self.enable_order_book,
            r.series_slug == self.series_slug,
    {
        let mut markets: StrMap<Market> = StrMap::new();
        proof {
            assert(market_map_models(markets.model()) =~= Map::<Seq<char>, MarketModel>::empty());
        }
        match &self.markets {
            Some(list) => {
                let mut i: usize = 0;
                proof {
                    assert(market_seq_models(list@).take(0) =~= Seq::<MarketModel>::empty());
                }
                while i < list.len()
                    invariant
                        0 <= i <= list@.len(),
                        markets.wf(),
                        market_map_models(markets.model()) == markets_by_id(
                            market_seq_models(list@).take(i as int),
                        ),
                    decreases list@.len() - i,
                {
                    let m = list[i].duplicate();
                    let ghost mm = m;
                    let ghost before = markets.model();
                    markets.insert(m.id.clone(), m);
                    proof {
                        lemma_map_values_insert(before, mm.id@, mm);
                        let s = market_seq_models(list@);
                        assert(s.take(i + 1).drop_last() =~= s.take(i as int));
                        assert(s.take(i + 1).last() == list@[i as int]@);
                    }
                    i = i + 1;
                }
                proof {
                    assert(market_seq_models(list@).take(list@.len() as int) == market_seq_models(
                        list@,
                    ));
                }
            },
            None => {},
        }
        Event {
            id: self.id.clone(),
            markets,
            slug: copy_opt_string(&self.slug),
            title: copy_opt_string(&self.title),
            description: copy_opt_string(&self.description),
            ticker: copy_opt_string(&self.ticker),
            active: self.active,
            closed: self.closed,
            start_date: copy_opt_string(&self.start_date),
            creation_date: copy_opt_string(&self.creation_date),
            end_date: copy_opt_string(&self.end_date),
            enable_order_book: self.enable_order_book,
            series_slug: copy_opt_string(&self.series_slug),
        }
    }

    /// A copy of the raw event.
    pub fn duplicate(&self) -> (r: RawEvent)
        ensures
            r@ == self@,
    {
        let markets = match &self.markets {
            Some(list) => Some(copy_markets(list)),
            None => None,
        };
        RawEvent {
            id: self.id.clone(),
            slug: copy_opt_string(&self.slug),
            title: copy_opt_string(&self.title),
            description: copy_opt_string(&self.description),
            ticker: copy_opt_string(&self.ticker),
            active: self.active,
            closed: self.closed,
            markets,
            start_date: copy_opt_string(&self.start_date),
            creation_date: copy_opt_string(&self.creation_date),
            end_date: copy_opt_string(&self.end_date),
            enable_order_book: self.enable_order_book,
            series_slug: copy_opt_string(&self.series_slug),
        }
    }
}

impl Event {
    /// The slug, or an error when the event has none.
    pub fn get_slug(&self) -> (r: Result<&str, PolymarketError>)
        ensures
            match r {
                Ok(s) => self.slug matches Some(x) && s@ == x@,
                Err(e) => self.slug is None && e == PolymarketError::EventSlugMissing,
            },
    {
        match &self.slug {
            Some(s) => Ok(s.as_str()),
            None => Err(PolymarketError::EventSlugMissing),
        }
    }

    /// Open at `now`: active, not closed, with an order book, and not past a
    /// parseable end date.
    pub fn is_active_event_at(&self, now: Instant) -> (r: bool)
        ensures
            r == event_active_at(self.active, self.closed, self.enable_order_book, self.end_date, now),
    {
        let is_open = self.active == Some(true) && !(self.closed == Some(true));
        let enable_ob = self.enable_order_book == Some(true);
        if end_date_expired(&self.end_date, now) {
            return false;
        }
        is_open && enable_ob
    }

    /// Open now (reads the clock): see `is_active_event_at`. Whatever the clock
    /// says, an event lacking a flag is inactive, and one with all flags and no
    /// parseable end date is active. A clock reading before the Unix epoch is
    /// reported as `ClockOutOfRange` rather than stopping the program.
    pub fn is_active_event(&self) -> (r: Result<bool, PolymarketError>)
        ensures
            match r {
                Ok(b) => {
                    &&& b ==> event_flags_ok(self.active, self.closed, self.enable_order_book)
                    &&& event_flags_ok(self.active, self.closed, self.enable_order_book)
                        && !has_parsed_end(self.end_date) ==> b
                    &&& exists|now: Instant|
                        b == event_active_at(self.active, self.closed, self.enable_order_book, self.end_date, now)
                },
                Err(e) => e is ClockOutOfRange,
            },
    {
        match utc_now() {
            Some(now) => Ok(self.is_active_event_at(now)),
            None => Err(PolymarketError::ClockOutOfRange),
        }
    }

    /// Adds (or replaces) a market under its id.
    pub fn add_market(&mut self, market: Market)
        requires
            old(self).markets.wf(),
        ensures
            final(self).markets.wf(),
            final(self).markets.model() == old(self).markets.model().insert(market.id@, market),
            final(self)@ == (old(self)@.0, old(self)@.1.insert(market.id@, market@)),
    {
        let id = market.id.clone();
        let ghost before = self.markets.model();
        let ghost mm = market;
        self.markets.insert(id, market);
        proof {
            lemma_map_values_insert(before, mm.id@, mm);
        }
    }

    /// Removes the market with the given id, if tracked.
    pub fn remove_market(&mut self, market_id: &str)
        requires
            old(self).markets.wf(),
        ensures
            final(self).markets.wf(),
            final(self).markets.model() == old(self).markets.model().remove(market_id@),
            final(self)@ == (old(self)@.0, old(self)@.1.remove(market_id@)),
    {
        let ghost before = self.markets.model();
        self.markets.remove(market_id);
        proof {
            lemma_map_values_remove(before, market_id@);
        }
    }

    /// Ids of the tracked markets.
    pub fn get_market_ids(&self) -> (r: Vec<String>)
        requires
            self.markets.wf(),
        ensures
            string_views(r@) == self.markets.key_seq(),
            string_views(r@).to_set() == self.markets.model().dom(),
    {
        proof {
            self.markets.lemma_model();
        }
        self.markets.keys()
    }

    /// A copy of the tracked markets.
    pub fn read_markets(&self) -> (r: StrMap<Market>)
        requires
            self.markets.wf(),
        ensures
            r.wf(),
            r.key_seq() == self.markets.key_seq(),
            market_map_models(r.model()) == market_map_models(self.markets.model()),
    {
        copy_market_map(&self.markets)
    }
}

} // verus!
