use vstd::prelude::*;

use crate::adapters::{utc_now, Instant};
use crate::error::PolymarketError;
use crate::event::{event_active_at, Event, MarketModel};
use crate::market::{copy_strings, expired_at, formatted_after, market_active_at, Market};
use crate::strmap::{string_views, StrMap};

verus! {

/// Model of the indexes: which markets each event has, the CLOB tokens of each
/// market and the reverse lookup, the event of each market, and the sets of
/// active markets and events.
pub struct IndexModel {
    pub event_to_markets: Map<Seq<char>, Seq<Seq<char>>>,
    pub market_to_tokens: Map<Seq<char>, Seq<Seq<char>>>,
    pub token_to_market: Map<Seq<char>, Seq<char>>,
    pub market_to_event: Map<Seq<char>, Seq<char>>,
    pub active_markets: Set<Seq<char>>,
    pub active_events: Set<Seq<char>>,
}

/// Indexes holding nothing.
pub open spec fn empty_index() -> IndexModel {
    IndexModel {
        event_to_markets: Map::empty(),
        market_to_tokens: Map::empty(),
        token_to_market: Map::empty(),
        market_to_event: Map::empty(),
        active_markets: Set::empty(),
        active_events: Set::empty(),
    }
}

/// Each token maps to `mid` (set one after the other).
pub open spec fn add_tokens(m: Map<Seq<char>, Seq<char>>, ts: Seq<Seq<char>>, mid: Seq<char>) -> Map<
    Seq<char>,
    Seq<char>,
>
    decreases ts.len(),
{
    if ts.len() == 0 {
        m
    } else {
        add_tokens(m, ts.drop_last(), mid).insert(ts.last(), mid)
    }
}

/// Indexing one market of an event: it is mapped to the event; its CLOB token
/// ids, once parsed, are recorded both ways; it is marked active when it is
/// tradable at `now` and its event is active.
pub open spec fn index_market(
    st: IndexModel,
    event_id: Seq<char>,
    event_active: bool,
    mid: Seq<char>,
    m: MarketModel,
    now: Instant,
) -> IndexModel {
    let st1 = IndexModel { market_to_event: st.market_to_event.insert(mid, event_id), ..st };
    let st2 = match formatted_after(m.2, m.0.clob_token_ids) {
        Some(ts) => IndexModel {
            market_to_tokens: st1.market_to_tokens.insert(mid, ts),
            token_to_market: add_tokens(st1.token_to_market, ts, mid),
            ..st1
        },
        None => st1,
    };
    if market_active_at(m.0, now) && event_active {
        IndexModel { active_markets: st2.active_markets.insert(mid), ..st2 }
    } else {
        st2
    }
}

/// Indexing the markets of an event, in order.
pub open spec fn index_markets(
    st: IndexModel,
    event_id: Seq<char>,
    event_active: bool,
    entries: Seq<(Seq<char>, MarketModel)>,
    now: Instant,
) -> IndexModel
    decreases entries.len(),
{
    if entries.len() == 0 {
        st
    } else {
        index_market(
            index_markets(st, event_id, event_active, entries.drop_last(), now),
            event_id,
            event_active,
            entries.last().0,
            entries.last().1,
            now,
        )
    }
}

/// The markets of an event as (id, model) entries, in its map's order.
pub open spec fn event_entries(e: Event) -> Seq<(Seq<char>, MarketModel)> {
    Seq::new(
        e.markets.key_seq().len(),
        |i: int| (e.markets.key_seq()[i], e.markets.value_seq()[i]@),
    )
}

/// Indexing one event: marked active when open at `now`, its markets indexed,
/// and its market ids recorded when it has any.
pub open spec fn index_event(st: IndexModel, event_id: Seq<char>, e: Event, now: Instant) -> IndexModel {
    let active = event_active_at(e.active, e.closed, e.enable_order_book, e.end_date, now);
    let st1 = if active {
        IndexModel { active_events: st.active_events.insert(event_id), ..st }
    } else {
        st
    };
    let st2 = index_markets(st1, event_id, active, event_entries(e), now);
    if e.markets.key_seq().len() > 0 {
        IndexModel { event_to_markets: st2.event_to_markets.insert(event_id, e.markets.key_seq()), ..st2 }
    } else {
        st2
    }
}

/// Indexing events, in order.
pub open spec fn index_events(st: IndexModel, keys: Seq<Seq<char>>, events: Seq<Event>, now: Instant) -> IndexModel
    decreases keys.len(),
{
    if keys.len() == 0 || events.len() == 0 {
        st
    } else {
        index_event(
            index_events(st, keys.drop_last(), events.drop_last(), now),
            keys.last(),
            events.last(),
            now,
        )
    }
}

/// Models of a map whose values are string lists.
pub open spec fn list_map_models(m: Map<Seq<char>, Vec<String>>) -> Map<Seq<char>, Seq<Seq<char>>> {
    m.map_values(|v: Vec<String>| string_views(v@))
}

/// Models of a map whose values are strings.
pub open spec fn str_map_models(m: Map<Seq<char>, String>) -> Map<Seq<char>, Seq<char>> {
    m.map_values(|v: String| v@)
}

/// Lookup tables from events to markets to CLOB tokens, rebuilt from the
/// tracked events.
#[derive(Debug)]
pub struct PolymarketIndexer {
    event_to_market_ids: StrMap<Vec<String>>,
    market_to_clob_token_ids: StrMap<Vec<String>>,
    clob_token_to_market: StrMap<String>,
    market_to_event_id: StrMap<String>,
    active_market_ids: StrMap<()>,
    active_event_ids: StrMap<()>,
}

proof fn lemma_list_models_insert(m: Map<Seq<char>, Vec<String>>, k: Seq<char>, v: Vec<String>)
    ensures
        list_map_models(m.insert(k, v)) == list_map_models(m).insert(k, string_views(v@)),
{
    assert(list_map_models(m.insert(k, v)) =~= list_map_models(m).insert(k, string_views(v@)));
}

proof fn lemma_str_models_insert(m: Map<Seq<char>, String>, k: Seq<char>, v: String)
    ensures
        str_map_models(m.insert(k, v)) == str_map_models(m).insert(k, v@),
{
    assert(str_map_models(m.insert(k, v)) =~= str_map_models(m).insert(k, v@));
}

/// Event entries of a map of events, in its order.
pub open spec fn all_events_indexed(events: StrMap<Event>, now: Instant) -> IndexModel {
    index_events(empty_index(), events.key_seq(), events.value_seq(), now)
}

impl PolymarketIndexer {
    /// All lookup tables are well formed.
    pub closed spec fn wf(&self) -> bool {
        &&& self.event_to_market_ids.wf()
        &&& self.market_to_clob_token_ids.wf()
        &&& self.clob_token_to_market.wf()
        &&& self.market_to_event_id.wf()
        &&& self.active_market_ids.wf()
        &&& self.active_event_ids.wf()
    }

    /// The indexes as maps and sets.
    pub closed spec fn model(&self) -> IndexModel {
        IndexModel {
            event_to_markets: list_map_models(self.event_to_market_ids.model()),
            market_to_tokens: list_map_models(self.market_to_clob_token_ids.model()),
            token_to_market: str_map_models(self.clob_token_to_market.model()),
            market_to_event: str_map_models(self.market_to_event_id.model()),
            active_markets: self.active_market_ids.model().dom(),
            active_events: self.active_event_ids.model().dom(),
        }
    }

    /// Tokens of each market, in the order of the markets.
    pub closed spec fn token_lists(&self) -> Seq<Seq<Seq<char>>> {
        self.market_to_clob_token_ids.value_seq().map_values(|v: Vec<String>| string_views(v@))
    }

    /// The markets whose tokens are recorded, in the order of `token_lists`.
    pub closed spec fn token_markets(&self) -> Seq<Seq<char>> {
        self.market_to_clob_token_ids.key_seq()
    }

    /// The token lists are the recorded lists of the markets with tokens, each
    /// such market once.
    pub proof fn lemma_token_lists(&self)
        requires
            self.wf(),
        ensures
            self.token_markets().no_duplicates(),
            self.token_markets().to_set() == self.model().market_to_tokens.dom(),
            self.token_lists() == self.token_markets().map_values(
                |m: Seq<char>| self.model().market_to_tokens[m],
            ),
    {
        let sm = self.market_to_clob_token_ids;
        sm.lemma_model();
        assert(self.token_markets().to_set() =~= self.model().market_to_tokens.dom());
        assert(self.token_lists() =~= self.token_markets().map_values(
            |m: Seq<char>| self.model().market_to_tokens[m],
        ));
    }

    /// Empty indexes.
    pub fn new() -> (r: Self)
        ensures
            r.wf(),
            r.model() == empty_index(),
    {
        let r = PolymarketIndexer {
            event_to_market_ids: StrMap::new(),
            market_to_clob_token_ids: StrMap::new(),
            clob_token_to_market: StrMap::new(),
            market_to_event_id: StrMap::new(),
            active_market_ids: StrMap::new(),
            active_event_ids: StrMap::new(),
        };
        proof {
            assert(r.model().event_to_markets =~= Map::<Seq<char>, Seq<Seq<char>>>::empty());
            assert(r.model().market_to_tokens =~= Map::<Seq<char>, Seq<Seq<char>>>::empty());
            assert(r.model().token_to_market =~= Map::<Seq<char>, Seq<char>>::empty());
            assert(r.model().market_to_event =~= Map::<Seq<char>, Seq<char>>::empty());
            assert(r.model().active_markets =~= Set::<Seq<char>>::empty());
            assert(r.model().active_events =~= Set::<Seq<char>>::empty());
        }
        r
    }

    fn add_tokens_for(&mut self, tokens: &Vec<String>, market_id: &String)
        requires
            old(self).wf(),
        ensures
            final(self).wf(),
            final(self).model() == (IndexModel {
                token_to_market: add_tokens(
                    old(self).model().token_to_market,
                    string_views(tokens@),
                    market_id@,
                ),
                ..old(self).model()
            }),
    {
        let mut i: usize = 0;
        let ghost ts = string_views(tokens@);
        proof {
            assert(ts.take(0) =~= Seq::<Seq<char>>::empty());
        }
        while i < tokens.len()
            invariant
                0 <= i <= tokens@.len(),
                ts == string_views(tokens@),
                self.wf(),
                self.model() == (IndexModel {
                    token_to_market: add_tokens(
                        old(self).model().token_to_market,
                        ts.take(i as int),
                        market_id@,
                    ),
                    ..old(self).model()
                }),
            decreases tokens@.len() - i,
        {
            let ghost before = self.clob_token_to_market.model();
            let t = tokens[i].clone();
            let mid = market_id.clone();
            self.clob_token_to_market.insert(t, mid);
            proof {
                lemma_str_models_insert(before, tokens@[i as int]@, *market_id);
                assert(ts.take(i + 1).drop_last() =~= ts.take(i as int));
                assert(ts.take(i + 1).last() == tokens@[i as int]@);
                assert(self.model().token_to_market == add_tokens(
                    old(self).model().token_to_market,
                    ts.take(i + 1),
                    market_id@,
                ));
                assert(self.model() =~= (IndexModel {
                    token_to_market: add_tokens(
                        old(self).model().token_to_market,
                        ts.take(i + 1),
                        market_id@,
                    ),
                    ..old(self).model()
                }));
            }
            i = i + 1;
        }
        proof {
            assert(ts.take(tokens@.len() as int) == ts);
        }
    }

    fn index_one_market(
        &mut self,
        event_id: &String,
        event_active: bool,
        market_id: &String,
        market: &Market,
        now: Instant,
    )
        requires
            old(self).wf(),
        ensures
            final(self).wf(),
            final(self).model() == index_market(
                old(self).model(),
                event_id@,
                event_active,
                market_id@,
                market@,
                now,
            ),
    {
        let ghost st0 = self.model();
        let ghost before = self.market_to_event_id.model();
        self.market_to_event_id.insert(market_id.clone(), event_id.clone());
        proof {
            lemma_str_models_insert(before, market_id@, *event_id);
            assert(self.model() =~= (IndexModel {
                market_to_event: st0.market_to_event.insert(market_id@, event_id@),
                ..st0
            }));
        }
        let mut parsed = market.duplicate();
        parsed.compute_clob_token_ids_formatted();
        proof {
            assert(parsed.clob_token_ids_formatted.deep_view() == formatted_after(market@.2, market@.0.clob_token_ids));
            assert(market_active_at(market@.0, now) == market_active_at(*market, now));
        }
        match &parsed.clob_token_ids_formatted {
            Some(tokens) => {
                proof {
                    assert(tokens.deep_view() =~= string_views(tokens@));
                }
                let ghost st1 = self.model();
                let ghost before2 = self.market_to_clob_token_ids.model();
                self.market_to_clob_token_ids.insert(market_id.clone(), copy_strings(tokens));
                proof {
                    assert(self.market_to_clob_token_ids.model() == before2.insert(market_id@, self.market_to_clob_token_ids.model()[market_id@]));
                    lemma_list_models_insert(before2, market_id@, self.market_to_clob_token_ids.model()[market_id@]);
                    assert(self.model() =~= (IndexModel {
                        market_to_tokens: st1.market_to_tokens.insert(market_id@, string_views(tokens@)),
                        ..st1
                    }));
                }
                self.add_tokens_for(tokens, market_id);
            },
            None => {},
        }
        if market.is_active_market_at(now) && event_active {
            let ghost st2 = self.model();
            self.active_market_ids.insert(market_id.clone(), ());
            proof {
                assert(self.model() =~= (IndexModel {
                    active_markets: st2.active_markets.insert(market_id@),
                    ..st2
                }));
            }
        }
    }

    fn index_one_event(&mut self, event_id: &String, event: &Event, now: Instant)
        requires
            old(self).wf(),
            event.markets.wf(),
        ensures
            final(self).wf(),
            final(self).model() == index_event(old(self).model(), event_id@, *event, now),
    {
        let ghost st0 = self.model();
        let active = event.is_active_event_at(now);
        if active {
            self.active_event_ids.insert(event_id.clone(), ());
            proof {
                assert(self.model() =~= (IndexModel {
                    active_events: st0.active_events.insert(event_id@),
                    ..st0
                }));
            }
        }
        let ghost st1 = self.model();
        let n = event.markets.len();
        let ghost entries = event_entries(*event);
        let mut j: usize = 0;
        proof {
            assert(entries.take(0) =~= Seq::<(Seq<char>, MarketModel)>::empty());
        }
        while j < n
            invariant
                event.markets.wf(),
                n == event.markets.key_seq().len(),
                n == event.markets.value_seq().len(),
                entries == event_entries(*event),
                0 <= j <= n,
                self.wf(),
                self.model() == index_markets(st1, event_id@, active, entries.take(j as int), now),
            decreases n - j,
        {
            let mid = event.markets.key_at(j);
            let market = event.markets.value_at(j);
            self.index_one_market(event_id, active, mid, market, now);
            proof {
                assert(entries.take(j + 1).drop_last() =~= entries.take(j as int));
                assert(entries.take(j + 1).last() == (mid@, market@));
            }
            j = j + 1;
        }
        proof {
            assert(entries.take(n as int) == entries);
        }
        if n > 0 {
            let ids = event.markets.keys();
            let ghost st2 = self.model();
            let ghost before = self.event_to_market_ids.model();
            let ghost idv = ids;
            self.event_to_market_ids.insert(event_id.clone(), ids);
            proof {
                lemma_list_models_insert(before, event_id@, idv);
                assert(self.model() =~= (IndexModel {
                    event_to_markets: st2.event_to_markets.insert(event_id@, event.markets.key_seq()),
                    ..st2
                }));
            }
        }
    }

    /// Rebuilds every index from the tracked events, judging activity at `now`,
    /// and swaps the new indexes in.
    pub fn update_at(&mut self, events: &StrMap<Event>, now: Instant)
        requires
            events.wf(),
            forall|i: int| 0 <= i < events.value_seq().len() ==> #[trigger] events.value_seq()[i].markets.wf(),
        ensures
            final(self).wf(),
            final(self).model() == all_events_indexed(*events, now),
            index_consistent(final(self).model()),
    {
        let mut fresh = PolymarketIndexer::new();
        let n = events.len();
        let mut i: usize = 0;
        let ghost keys = events.key_seq();
        let ghost vals = events.value_seq();
        proof {
            assert(keys.take(0) =~= Seq::<Seq<char>>::empty());
        }
        while i < n
            invariant
                events.wf(),
                forall|q: int| 0 <= q < events.value_seq().len() ==> #[trigger] events.value_seq()[q].markets.wf(),
                n == keys.len(),
                n == vals.len(),
                keys == events.key_seq(),
                vals == events.value_seq(),
                0 <= i <= n,
                fresh.wf(),
                fresh.model() == index_events(empty_index(), keys.take(i as int), vals.take(i as int), now),
            decreases n - i,
        {
            let event_id = events.key_at(i);
            let event = events.value_at(i);
            fresh.index_one_event(event_id, event, now);
            proof {
                assert(keys.take(i + 1).drop_last() =~= keys.take(i as int));
                assert(vals.take(i + 1).drop_last() =~= vals.take(i as int));
                assert(keys.take(i + 1).last() == event_id@);
                assert(vals.take(i + 1).last() == *event);
            }
            i = i + 1;
        }
        proof {
            assert(keys.take(n as int) == keys);
            assert(vals.take(n as int) == vals);
            law_index_consistent(*events, now);
        }
        *self = fresh;
    }

    /// Rebuilds every index from the tracked events; the clock is read once,
    /// so the events and their markets are judged at the same instant. A clock
    /// reading before the Unix epoch is reported as `ClockOutOfRange`, and the
    /// indexes stay as they were.
    pub fn update(&mut self, events: &StrMap<Event>) -> (r: Result<(), PolymarketError>)
        requires
            events.wf(),
            forall|i: int| 0 <= i < events.value_seq().len() ==> #[trigger] events.value_seq()[i].markets.wf(),
        ensures
            match r {
                Ok(()) => {
                    &&& final(self).wf()
                    &&& exists|now: Instant| #[trigger] all_events_indexed(*events, now) == final(self).model()
                    &&& index_consistent(final(self).model())
                },
                Err(e) => e is ClockOutOfRange && *final(self) == *old(self),
            },
    {
        match utc_now() {
            Some(now) => {
                self.update_at(events, now);
                Ok(())
            },
            None => Err(PolymarketError::ClockOutOfRange),
        }
    }
}


/// A copy of the string list under `k`, if any.
fn lookup_list(m: &StrMap<Vec<String>>, k: &str) -> (r: Option<Vec<String>>)
    requires
        m.wf(),
    ensures
        match r {
            Some(v) => list_map_models(m.model()).contains_key(k@) && string_views(v@)
                == list_map_models(m.model())[k@],
            None => !list_map_models(m.model()).contains_key(k@),
        },
{
    match m.get(k) {
        Some(v) => Some(copy_strings(v)),
        None => None,
    }
}

/// A copy of the string under `k`, if any.
fn lookup_str(m: &StrMap<String>, k: &str) -> (r: Option<String>)
    requires
        m.wf(),
    ensures
        match r {
            Some(v) => str_map_models(m.model()).contains_key(k@) && v@ == str_map_models(
                m.model(),
            )[k@],
            None => !str_map_models(m.model()).contains_key(k@),
        },
{
    match m.get(k) {
        Some(v) => Some(v.clone()),
        None => None,
    }
}

impl PolymarketIndexer {
    /// Every CLOB token id recorded for a market, market by market.
    pub fn get_all_clob_token_ids(&self) -> (r: Vec<String>)
        requires
            self.wf(),
        ensures
            string_views(r@) == self.token_lists().flatten(),
            string_views(r@) == self.token_markets().map_values(
                |m: Seq<char>| self.model().market_to_tokens[m],
            ).flatten(),
    {
        proof {
            self.lemma_token_lists();
        }
        let m = &self.market_to_clob_token_ids;
        let n = m.len();
        let mut r: Vec<String> = Vec::new();
        let mut i: usize = 0;
        let ghost lists = self.token_lists();
        proof {
            assert(lists.take(0) =~= Seq::<Seq<Seq<char>>>::empty());
            assert(string_views(r@) =~= Seq::<Seq<char>>::empty());
        }
        while i < n
            invariant
                m.wf(),
                n == m.value_seq().len(),
                n == m.key_seq().len(),
                lists == m.value_seq().map_values(|v: Vec<String>| string_views(v@)),
                0 <= i <= n,
                string_views(r@) == lists.take(i as int).flatten(),
            decreases n - i,
        {
            let tokens = m.value_at(i);
            let mut j: usize = 0;
            let ghost base = r@;
            while j < tokens.len()
                invariant
                    0 <= j <= tokens@.len(),
                    r@ == base + tokens@.take(j as int),
                decreases tokens@.len() - j,
            {
                r.push(tokens[j].clone());
                proof {
                    assert(tokens@.take(j + 1) == tokens@.take(j as int).push(tokens@[j as int]));
                }
                j = j + 1;
            }
            proof {
                assert(tokens@.take(tokens@.len() as int) == tokens@);
                assert(lists.take(i + 1) == lists.take(i as int).push(lists[i as int]));
                lists.take(i as int).lemma_flatten_push(lists[i as int]);
                assert(string_views(r@) =~= string_views(base) + string_views(tokens@));
            }
            i = i + 1;
        }
        proof {
            assert(lists.take(n as int) == lists);
        }
        r
    }

    /// Ids of the active markets (each once).
    pub fn get_active_market_ids(&self) -> (r: Vec<String>)
        requires
            self.wf(),
        ensures
            string_views(r@).no_duplicates(),
            string_views(r@).to_set() == self.model().active_markets,
    {
        proof {
            self.active_market_ids.lemma_model();
        }
        self.active_market_ids.keys()
    }

    /// Ids of the active events (each once).
    pub fn get_active_event_ids(&self) -> (r: Vec<String>)
        requires
            self.wf(),
        ensures
            string_views(r@).no_duplicates(),
            string_views(r@).to_set() == self.model().active_events,
    {
        proof {
            self.active_event_ids.lemma_model();
        }
        self.active_event_ids.keys()
    }

    /// The event a market belongs to, if indexed.
    pub fn get_event_id_for_market(&self, market_id: &str) -> (r: Option<String>)
        requires
            self.wf(),
        ensures
            match r {
                Some(e) => self.model().market_to_event.contains_key(market_id@) && e@
                    == self.model().market_to_event[market_id@],
                None => !self.model().market_to_event.contains_key(market_id@),
            },
    {
        lookup_str(&self.market_to_event_id, market_id)
    }

    /// The market ids of an event, if indexed.
    pub fn get_market_ids_for_event(&self, event_id: &str) -> (r: Option<Vec<String>>)
        requires
            self.wf(),
        ensures
            match r {
                Some(v) => self.model().event_to_markets.contains_key(event_id@) && string_views(v@)
                    == self.model().event_to_markets[event_id@],
                None => !self.model().event_to_markets.contains_key(event_id@),
            },
    {
        lookup_list(&self.event_to_market_ids, event_id)
    }

    /// The CLOB token ids of a market, if indexed.
    pub fn get_clob_token_ids_for_market(&self, market_id: &str) -> (r: Option<Vec<String>>)
        requires
            self.wf(),
        ensures
            match r {
                Some(v) => self.model().market_to_tokens.contains_key(market_id@) && string_views(v@)
                    == self.model().market_to_tokens[market_id@],
                None => !self.model().market_to_tokens.contains_key(market_id@),
            },
    {
        lookup_list(&self.market_to_clob_token_ids, market_id)
    }

    /// A copy of the token-to-market lookup table.
    pub fn get_clob_token_ids_to_market(&self) -> (r: StrMap<String>)
        requires
            self.wf(),
        ensures
            r.wf(),
            str_map_models(r.model()) == self.model().token_to_market,
    {
        let r = self.clob_token_to_market.duplicate();
        proof {
            assert(r.model() == self.clob_token_to_market.model());
        }
        r
    }

    /// The market ids of an event; empty when the event is not indexed.
    pub fn get_all_market_ids_for_event(&self, event_id: &str) -> (r: Vec<String>)
        requires
            self.wf(),
        ensures
            self.model().event_to_markets.contains_key(event_id@) ==> string_views(r@)
                == self.model().event_to_markets[event_id@],
            !self.model().event_to_markets.contains_key(event_id@) ==> r@.len() == 0,
    {
        match lookup_list(&self.event_to_market_ids, event_id) {
            Some(v) => v,
            None => Vec::new(),
        }
    }

    /// Number of active markets.
    pub fn active_market_count(&self) -> (r: usize)
        requires
            self.wf(),
        ensures
            r == self.model().active_markets.len(),
    {
        self.active_market_ids.len()
    }

    /// Number of active events.
    pub fn active_event_count(&self) -> (r: usize)
        requires
            self.wf(),
        ensures
            r == self.model().active_events.len(),
    {
        self.active_event_ids.len()
    }

    /// The market a CLOB token belongs to, if indexed.
    pub fn get_market_id_from_token(&self, token_id: &str) -> (r: Option<String>)
        requires
            self.wf(),
        ensures
            match r {
                Some(m) => self.model().token_to_market.contains_key(token_id@) && m@
                    == self.model().token_to_market[token_id@],
                None => !self.model().token_to_market.contains_key(token_id@),
            },
    {
        lookup_str(&self.clob_token_to_market, token_id)
    }
}


/// Every active market is mapped to an event.
pub open spec fn active_markets_mapped(st: IndexModel) -> bool {
    forall|m: Seq<char>| #[trigger] st.active_markets.contains(m) ==> st.market_to_event.contains_key(m)
}

/// Every token of the reverse lookup points at a market whose tokens are recorded.
pub open spec fn tokens_mapped(st: IndexModel) -> bool {
    forall|t: Seq<char>| #[trigger] st.token_to_market.contains_key(t) ==> st.market_to_tokens.contains_key(
        st.token_to_market[t],
    )
}

/// The event a market is mapped to lists that market among its market ids.
pub open spec fn events_list_markets(st: IndexModel) -> bool {
    forall|m: Seq<char>| #[trigger] st.market_to_event.contains_key(m) ==> st.event_to_markets.contains_key(
        st.market_to_event[m],
    ) && st.event_to_markets[st.market_to_event[m]].contains(m)
}

/// The indexes agree with one another.
pub open spec fn index_consistent(st: IndexModel) -> bool {
    active_markets_mapped(st) && tokens_mapped(st) && events_list_markets(st)
}

proof fn lemma_add_tokens(m: Map<Seq<char>, Seq<char>>, ts: Seq<Seq<char>>, mid: Seq<char>)
    ensures
        forall|t: Seq<char>| #[trigger] add_tokens(m, ts, mid).contains_key(t) ==> add_tokens(m, ts, mid)[t]
            == mid || (m.contains_key(t) && add_tokens(m, ts, mid)[t] == m[t]),
    decreases ts.len(),
{
    if ts.len() > 0 {
        lemma_add_tokens(m, ts.drop_last(), mid);
        let inner = add_tokens(m, ts.drop_last(), mid);
        assert forall|t: Seq<char>| #[trigger] add_tokens(m, ts, mid).contains_key(t) implies add_tokens(m, ts, mid)[t]
            == mid || (m.contains_key(t) && add_tokens(m, ts, mid)[t] == m[t]) by {
            if t != ts.last() {
                assert(inner.contains_key(t));
            }
        }
    }
}

proof fn lemma_index_market_keeps(
    st: IndexModel,
    e: Seq<char>,
    act: bool,
    mid: Seq<char>,
    mm: MarketModel,
    now: Instant,
)
    requires
        active_markets_mapped(st),
        tokens_mapped(st),
    ensures
        active_markets_mapped(index_market(st, e, act, mid, mm, now)),
        tokens_mapped(index_market(st, e, act, mid, mm, now)),
        index_market(st, e, act, mid, mm, now).event_to_markets == st.event_to_markets,
        forall|m: Seq<char>| #[trigger] index_market(st, e, act, mid, mm, now).market_to_event.contains_key(m)
            ==> (m == mid && index_market(st, e, act, mid, mm, now).market_to_event[m] == e) || (
            m != mid && st.market_to_event.contains_key(m) && index_market(st, e, act, mid, mm, now).market_to_event[m]
                == st.market_to_event[m]),
{
    let r = index_market(st, e, act, mid, mm, now);
    match formatted_after(mm.2, mm.0.clob_token_ids) {
        Some(ts) => {
            lemma_add_tokens(st.token_to_market, ts, mid);
        },
        None => {},
    }
}

/// The markets (ids) of a list of entries.
pub open spec fn entry_ids(entries: Seq<(Seq<char>, MarketModel)>) -> Seq<Seq<char>> {
    entries.map_values(|p: (Seq<char>, MarketModel)| p.0)
}

proof fn lemma_index_markets_keeps(
    st: IndexModel,
    e: Seq<char>,
    act: bool,
    entries: Seq<(Seq<char>, MarketModel)>,
    now: Instant,
)
    requires
        active_markets_mapped(st),
        tokens_mapped(st),
    ensures
        active_markets_mapped(index_markets(st, e, act, entries, now)),
        tokens_mapped(index_markets(st, e, act, entries, now)),
        index_markets(st, e, act, entries, now).event_to_markets == st.event_to_markets,
        forall|m: Seq<char>| #[trigger] index_markets(st, e, act, entries, now).market_to_event.contains_key(m)
            ==> (entry_ids(entries).contains(m) && index_markets(st, e, act, entries, now).market_to_event[m] == e)
            || (st.market_to_event.contains_key(m) && index_markets(st, e, act, entries, now).market_to_event[m]
            == st.market_to_event[m]),
    decreases entries.len(),
{
    if entries.len() > 0 {
        let prev = entries.drop_last();
        lemma_index_markets_keeps(st, e, act, prev, now);
        let mid_st = index_markets(st, e, act, prev, now);
        lemma_index_market_keeps(mid_st, e, act, entries.last().0, entries.last().1, now);
        let r = index_markets(st, e, act, entries, now);
        assert forall|m: Seq<char>| #[trigger] r.market_to_event.contains_key(m) implies (entry_ids(entries).contains(m)
            && r.market_to_event[m] == e) || (st.market_to_event.contains_key(m) && r.market_to_event[m]
            == st.market_to_event[m]) by {
            if m == entries.last().0 {
                assert(entry_ids(entries)[entries.len() - 1] == m);
            } else {
                assert(mid_st.market_to_event.contains_key(m));
                if entry_ids(prev).contains(m) && mid_st.market_to_event[m] == e {
                    let j = choose|j: int| 0 <= j < entry_ids(prev).len() && entry_ids(prev)[j] == m;
                    assert(entry_ids(entries)[j] == m);
                }
            }
        }
    }
}

proof fn lemma_index_events_consistent(keys: Seq<Seq<char>>, events: Seq<Event>, now: Instant)
    requires
        keys.no_duplicates(),
        keys.len() == events.len(),
    ensures
        index_consistent(index_events(empty_index(), keys, events, now)),
        forall|m: Seq<char>| #[trigger] index_events(empty_index(), keys, events, now).market_to_event.contains_key(m)
            ==> keys.contains(index_events(empty_index(), keys, events, now).market_to_event[m]),
        forall|k: Seq<char>| #[trigger] index_events(empty_index(), keys, events, now).event_to_markets.contains_key(k)
            ==> keys.contains(k),
    decreases keys.len(),
{
    if keys.len() > 0 {
        let kd = keys.drop_last();
        let ed = events.drop_last();
        assert(kd.no_duplicates());
        lemma_index_events_consistent(kd, ed, now);
        let st = index_events(empty_index(), kd, ed, now);
        let k = keys.last();
        let ev = events.last();
        let act = event_active_at(ev.active, ev.closed, ev.enable_order_book, ev.end_date, now);
        let st1 = if act {
            IndexModel { active_events: st.active_events.insert(k), ..st }
        } else {
            st
        };
        let ents = event_entries(ev);
        lemma_index_markets_keeps(st1, k, act, ents, now);
        let st2 = index_markets(st1, k, act, ents, now);
        let r = index_events(empty_index(), keys, events, now);
        assert(r == index_event(st, k, ev, now));
        assert(!kd.contains(k)) by {
            if kd.contains(k) {
                let j = choose|j: int| 0 <= j < kd.len() && kd[j] == k;
                assert(keys[j] == keys[keys.len() - 1]);
            }
        }
        assert(entry_ids(ents) =~= ev.markets.key_seq());
        assert forall|m: Seq<char>| #[trigger] r.market_to_event.contains_key(m) implies r.event_to_markets.contains_key(
            r.market_to_event[m],
        ) && r.event_to_markets[r.market_to_event[m]].contains(m) && keys.contains(r.market_to_event[m]) by {
            assert(r.market_to_event == st2.market_to_event);
            if entry_ids(ents).contains(m) && st2.market_to_event[m] == k {
                assert(ev.markets.key_seq().len() > 0);
                assert(keys[keys.len() - 1] == k);
            } else {
                let e2 = st.market_to_event[m];
                assert(kd.contains(e2));
                assert(e2 != k);
                let j = choose|j: int| 0 <= j < kd.len() && kd[j] == e2;
                assert(keys[j] == e2);
            }
        }
        assert forall|q: Seq<char>| #[trigger] r.event_to_markets.contains_key(q) implies keys.contains(q) by {
            if q == k {
                assert(keys[keys.len() - 1] == k);
            } else {
                assert(st.event_to_markets.contains_key(q));
                let j = choose|j: int| 0 <= j < kd.len() && kd[j] == q;
                assert(keys[j] == q);
            }
        }
    }
}

/// Indexing a map of events leaves the indexes consistent: active markets have
/// an event, every mapped token's market has its tokens recorded, and a
/// market's event lists that market.
pub proof fn law_index_consistent(events: StrMap<Event>, now: Instant)
    requires
        events.wf(),
    ensures
        index_consistent(all_events_indexed(events, now)),
{
    events.lemma_model();
    lemma_index_events_consistent(events.key_seq(), events.value_seq(), now);
}

/// A token maps to a market whose token list holds it, and every token of a
/// recorded list is mapped back to some market.
pub open spec fn tokens_round_trip(st: IndexModel) -> bool {
    &&& forall|t: Seq<char>| #[trigger] st.token_to_market.contains_key(t)
        ==> st.market_to_tokens.contains_key(st.token_to_market[t])
        && st.market_to_tokens[st.token_to_market[t]].contains(t)
    &&& forall|m: Seq<char>, t: Seq<char>|
        st.market_to_tokens.contains_key(m) && #[trigger] st.market_to_tokens[m].contains(t)
            ==> st.token_to_market.contains_key(t)
}

/// No market id belongs to two of the events.
pub open spec fn market_ids_distinct(events: Seq<Event>) -> bool {
    forall|i: int, j: int, m: Seq<char>|
        #![trigger events[i].markets.key_seq().contains(m), events[j].markets.key_seq().contains(m)]
        0 <= i < j < events.len() && events[i].markets.key_seq().contains(m)
            ==> !events[j].markets.key_seq().contains(m)
}

proof fn lemma_add_tokens_exact(m: Map<Seq<char>, Seq<char>>, ts: Seq<Seq<char>>, mid: Seq<char>)
    ensures
        forall|t: Seq<char>| #[trigger] add_tokens(m, ts, mid).contains_key(t) ==> (ts.contains(t)
            && add_tokens(m, ts, mid)[t] == mid) || (!ts.contains(t) && m.contains_key(t)
            && add_tokens(m, ts, mid)[t] == m[t]),
        forall|t: Seq<char>| #[trigger] ts.contains(t) ==> add_tokens(m, ts, mid).contains_key(t),
        forall|t: Seq<char>| #[trigger] m.contains_key(t) ==> add_tokens(m, ts, mid).contains_key(t),
    decreases ts.len(),
{
    if ts.len() > 0 {
        let d = ts.drop_last();
        lemma_add_tokens_exact(m, d, mid);
        assert forall|t: Seq<char>| #[trigger] ts.contains(t) == (d.contains(t) || t == ts.last()) by {
            if ts.contains(t) {
                let j = choose|j: int| 0 <= j < ts.len() && ts[j] == t;
                if j < d.len() {
                    assert(d[j] == t);
                }
            }
            if d.contains(t) {
                let j = choose|j: int| 0 <= j < d.len() && d[j] == t;
                assert(ts[j] == t);
            }
            if t == ts.last() {
                assert(ts[ts.len() - 1] == t);
            }
        }
    }
}

proof fn lemma_index_market_tokens(
    st: IndexModel,
    e: Seq<char>,
    act: bool,
    mid: Seq<char>,
    mm: MarketModel,
    now: Instant,
)
    requires
        tokens_round_trip(st),
        !st.market_to_tokens.contains_key(mid),
    ensures
        tokens_round_trip(index_market(st, e, act, mid, mm, now)),
        forall|m: Seq<char>| #[trigger] index_market(st, e, act, mid, mm, now).market_to_tokens.contains_key(m)
            ==> m == mid || st.market_to_tokens.contains_key(m),
{
    let r = index_market(st, e, act, mid, mm, now);
    match formatted_after(mm.2, mm.0.clob_token_ids) {
        Some(ts) => {
            lemma_add_tokens_exact(st.token_to_market, ts, mid);
            assert(r.market_to_tokens == st.market_to_tokens.insert(mid, ts));
            assert(r.token_to_market == add_tokens(st.token_to_market, ts, mid));
            assert forall|t: Seq<char>| #[trigger] r.token_to_market.contains_key(t)
                implies r.market_to_tokens.contains_key(r.token_to_market[t])
                && r.market_to_tokens[r.token_to_market[t]].contains(t) by {
                if !ts.contains(t) {
                    assert(st.token_to_market.contains_key(t));
                    let q = st.token_to_market[t];
                    assert(st.market_to_tokens.contains_key(q));
                    assert(q != mid);
                }
            }
            assert forall|m: Seq<char>, t: Seq<char>|
                r.market_to_tokens.contains_key(m) && #[trigger] r.market_to_tokens[m].contains(t)
                implies r.token_to_market.contains_key(t) by {
                if m != mid {
                    assert(st.market_to_tokens[m].contains(t));
                    assert(st.token_to_market.contains_key(t));
                }
            }
        },
        None => {},
    }
}

proof fn lemma_index_markets_tokens(
    st: IndexModel,
    e: Seq<char>,
    act: bool,
    entries: Seq<(Seq<char>, MarketModel)>,
    now: Instant,
)
    requires
        tokens_round_trip(st),
        entry_ids(entries).no_duplicates(),
        forall|j: int| 0 <= j < entries.len() ==> !st.market_to_tokens.contains_key(#[trigger] entries[j].0),
    ensures
        tokens_round_trip(index_markets(st, e, act, entries, now)),
        forall|m: Seq<char>| #[trigger] index_markets(st, e, act, entries, now).market_to_tokens.contains_key(m)
            ==> entry_ids(entries).contains(m) || st.market_to_tokens.contains_key(m),
    decreases entries.len(),
{
    if entries.len() > 0 {
        let prev = entries.drop_last();
        assert(entry_ids(prev) =~= entry_ids(entries).drop_last());
        assert forall|j: int| 0 <= j < prev.len() implies !st.market_to_tokens.contains_key(#[trigger] prev[j].0) by {
            assert(prev[j] == entries[j]);
        }
        lemma_index_markets_tokens(st, e, act, prev, now);
        let mid_st = index_markets(st, e, act, prev, now);
        let last = entries.last();
        assert(!st.market_to_tokens.contains_key(entries[entries.len() - 1].0));
        assert(!entry_ids(prev).contains(last.0)) by {
            if entry_ids(prev).contains(last.0) {
                let j = choose|j: int| 0 <= j < entry_ids(prev).len() && entry_ids(prev)[j] == last.0;
                assert(entry_ids(entries)[j] == entry_ids(entries)[entries.len() - 1]);
            }
        }
        lemma_index_market_tokens(mid_st, e, act, last.0, last.1, now);
        let r = index_markets(st, e, act, entries, now);
        assert forall|m: Seq<char>| #[trigger] r.market_to_tokens.contains_key(m)
            implies entry_ids(entries).contains(m) || st.market_to_tokens.contains_key(m) by {
            if m == last.0 {
                assert(entry_ids(entries)[entries.len() - 1] == m);
            } else if entry_ids(prev).contains(m) {
                let j = choose|j: int| 0 <= j < entry_ids(prev).len() && entry_ids(prev)[j] == m;
                assert(entry_ids(entries)[j] == m);
            }
        }
    }
}

proof fn lemma_index_events_tokens(keys: Seq<Seq<char>>, events: Seq<Event>, now: Instant)
    requires
        keys.len() == events.len(),
        forall|i: int| 0 <= i < events.len() ==> #[trigger] events[i].markets.wf(),
        market_ids_distinct(events),
    ensures
        tokens_round_trip(index_events(empty_index(), keys, events, now)),
        forall|m: Seq<char>| #[trigger] index_events(empty_index(), keys, events, now).market_to_tokens.contains_key(m)
            ==> exists|i: int| 0 <= i < events.len() && #[trigger] events[i].markets.key_seq().contains(m),
    decreases keys.len(),
{
    if keys.len() > 0 {
        let kd = keys.drop_last();
        let ed = events.drop_last();
        assert forall|i: int| 0 <= i < ed.len() implies #[trigger] ed[i].markets.wf() by {
            assert(ed[i] == events[i]);
        }
        assert(market_ids_distinct(ed)) by {
            assert forall|i: int, j: int, m: Seq<char>|
                #![trigger ed[i].markets.key_seq().contains(m), ed[j].markets.key_seq().contains(m)]
                0 <= i < j < ed.len() && ed[i].markets.key_seq().contains(m)
                implies !ed[j].markets.key_seq().contains(m) by {
                assert(ed[i] == events[i] && ed[j] == events[j]);
            }
        }
        lemma_index_events_tokens(kd, ed, now);
        let st = index_events(empty_index(), kd, ed, now);
        let k = keys.last();
        let ev = events.last();
        let li = events.len() - 1;
        assert(ev == events[li]);
        let act = event_active_at(ev.active, ev.closed, ev.enable_order_book, ev.end_date, now);
        let st1 = if act {
            IndexModel { active_events: st.active_events.insert(k), ..st }
        } else {
            st
        };
        let ents = event_entries(ev);
        assert(entry_ids(ents) =~= ev.markets.key_seq());
        assert(ev.markets.wf());
        ev.markets.lemma_model();
        assert forall|j: int| 0 <= j < ents.len() implies !st1.market_to_tokens.contains_key(#[trigger] ents[j].0) by {
            let m = ents[j].0;
            assert(ev.markets.key_seq()[j] == m);
            assert(ev.markets.key_seq().contains(m));
            if st.market_to_tokens.contains_key(m) {
                let i = choose|i: int| 0 <= i < ed.len() && #[trigger] ed[i].markets.key_seq().contains(m);
                assert(ed[i] == events[i]);
                assert(events[i].markets.key_seq().contains(m));
                assert(events[li].markets.key_seq().contains(m));
            }
        }
        lemma_index_markets_tokens(st1, k, act, ents, now);
        let r = index_events(empty_index(), keys, events, now);
        assert(r == index_event(st, k, ev, now));
        assert forall|m: Seq<char>| #[trigger] r.market_to_tokens.contains_key(m)
            implies exists|i: int| 0 <= i < events.len() && #[trigger] events[i].markets.key_seq().contains(m) by {
            if entry_ids(ents).contains(m) {
                assert(events[li].markets.key_seq().contains(m));
            } else {
                assert(st.market_to_tokens.contains_key(m));
                let i = choose|i: int| 0 <= i < ed.len() && #[trigger] ed[i].markets.key_seq().contains(m);
                assert(ed[i] == events[i]);
                assert(events[i].markets.key_seq().contains(m));
            }
        }
    }
}

/// When no market id belongs to two tracked events, the indexes round-trip
/// tokens: each token maps to a market whose token list holds it, and every
/// token of a recorded list maps back to a market.
pub proof fn law_tokens_round_trip(events: StrMap<Event>, now: Instant)
    requires
        events.wf(),
        forall|i: int| 0 <= i < events.value_seq().len() ==> #[trigger] events.value_seq()[i].markets.wf(),
        market_ids_distinct(events.value_seq()),
    ensures
        tokens_round_trip(all_events_indexed(events, now)),
{
    events.lemma_model();
    lemma_index_events_tokens(events.key_seq(), events.value_seq(), now);
}

proof fn lemma_index_market_active(
    st: IndexModel,
    e: Seq<char>,
    act: bool,
    mid: Seq<char>,
    mm: MarketModel,
    now: Instant,
)
    ensures
        forall|x: Seq<char>| #[trigger] index_market(st, e, act, mid, mm, now).active_markets.contains(x)
            ==> st.active_markets.contains(x) || (x == mid && act && market_active_at(mm.0, now)),
{
}

proof fn lemma_index_markets_active(
    st: IndexModel,
    e: Seq<char>,
    act: bool,
    entries: Seq<(Seq<char>, MarketModel)>,
    now: Instant,
)
    ensures
        forall|x: Seq<char>| #[trigger] index_markets(st, e, act, entries, now).active_markets.contains(x)
            ==> st.active_markets.contains(x) || (act && exists|j: int|
                0 <= j < entries.len() && (#[trigger] entries[j]).0 == x && market_active_at(entries[j].1.0, now)),
    decreases entries.len(),
{
    if entries.len() > 0 {
        let d = entries.drop_last();
        lemma_index_markets_active(st, e, act, d, now);
        let mid_st = index_markets(st, e, act, d, now);
        let last = entries.last();
        lemma_index_market_active(mid_st, e, act, last.0, last.1, now);
        assert forall|x: Seq<char>| #[trigger] index_markets(st, e, act, entries, now).active_markets.contains(x)
            implies st.active_markets.contains(x) || (act && exists|j: int|
                0 <= j < entries.len() && (#[trigger] entries[j]).0 == x && market_active_at(entries[j].1.0, now)) by {
            if mid_st.active_markets.contains(x) {
                if !st.active_markets.contains(x) {
                    let j = choose|j: int| 0 <= j < d.len() && (#[trigger] d[j]).0 == x && market_active_at(d[j].1.0, now);
                    assert(entries[j] == d[j]);
                }
            } else {
                assert(entries[entries.len() - 1] == last);
            }
        }
    }
}

proof fn lemma_index_events_active(keys: Seq<Seq<char>>, events: Seq<Event>, now: Instant)
    requires
        keys.len() == events.len(),
    ensures
        forall|x: Seq<char>| #[trigger] index_events(empty_index(), keys, events, now).active_markets.contains(x)
            ==> exists|i: int, j: int|
                #![trigger events[i].markets.key_seq()[j]]
                0 <= i < events.len() && 0 <= j < events[i].markets.key_seq().len()
                && events[i].markets.key_seq()[j] == x && market_active_at(events[i].markets.value_seq()[j], now)
                && event_active_at(events[i].active, events[i].closed, events[i].enable_order_book, events[i].end_date, now),
    decreases keys.len(),
{
    if keys.len() > 0 {
        let kd = keys.drop_last();
        let ed = events.drop_last();
        lemma_index_events_active(kd, ed, now);
        let st = index_events(empty_index(), kd, ed, now);
        let k = keys.last();
        let ev = events.last();
        let li = events.len() - 1;
        assert(ev == events[li]);
        let act = event_active_at(ev.active, ev.closed, ev.enable_order_book, ev.end_date, now);
        let st1 = if act {
            IndexModel { active_events: st.active_events.insert(k), ..st }
        } else {
            st
        };
        let ents = event_entries(ev);
        lemma_index_markets_active(st1, k, act, ents, now);
        let r = index_events(empty_index(), keys, events, now);
        assert(r == index_event(st, k, ev, now));
        assert forall|x: Seq<char>| #[trigger] r.active_markets.contains(x)
            implies exists|i: int, j: int|
                #![trigger events[i].markets.key_seq()[j]]
                0 <= i < events.len() && 0 <= j < events[i].markets.key_seq().len()
                && events[i].markets.key_seq()[j] == x && market_active_at(events[i].markets.value_seq()[j], now)
                && event_active_at(events[i].active, events[i].closed, events[i].enable_order_book, events[i].end_date, now) by {
            if st1.active_markets.contains(x) {
                assert(st.active_markets.contains(x));
                let (i, j) = choose|i: int, j: int|
                    #![trigger ed[i].markets.key_seq()[j]]
                    0 <= i < ed.len() && 0 <= j < ed[i].markets.key_seq().len()
                    && ed[i].markets.key_seq()[j] == x && market_active_at(ed[i].markets.value_seq()[j], now)
                    && event_active_at(ed[i].active, ed[i].closed, ed[i].enable_order_book, ed[i].end_date, now);
                assert(ed[i] == events[i]);
                assert(events[i].markets.key_seq()[j] == x);
            } else {
                let j = choose|j: int| 0 <= j < ents.len() && (#[trigger] ents[j]).0 == x && market_active_at(ents[j].1.0, now);
                assert(ents[j].0 == ev.markets.key_seq()[j]);
                assert(ents[j].1 == ev.markets.value_seq()[j]@);
                assert(market_active_at(ev.markets.value_seq()[j], now));
                assert(events[li].markets.key_seq()[j] == x);
            }
        }
    }
}

/// A market is indexed as active only when it is tradable at the indexing
/// instant (active, not closed, accepting orders, with an order book, not past
/// its end date) and belongs to an event that is open then.
pub proof fn law_active_markets_tradable(events: StrMap<Event>, now: Instant)
    requires
        events.wf(),
    ensures
        forall|x: Seq<char>| #[trigger] all_events_indexed(events, now).active_markets.contains(x)
            ==> exists|i: int, j: int|
                #![trigger events.value_seq()[i].markets.key_seq()[j]]
                0 <= i < events.value_seq().len() && 0 <= j < events.value_seq()[i].markets.key_seq().len()
                && events.value_seq()[i].markets.key_seq()[j] == x && {
                    let e = events.value_seq()[i];
                    let m = e.markets.value_seq()[j];
                    &&& m.active == Some(true)
                    &&& m.closed != Some(true)
                    &&& m.accepting_orders == Some(true)
                    &&& m.enable_order_book == Some(true)
                    &&& !expired_at(m.end_date, now)
                    &&& event_active_at(e.active, e.closed, e.enable_order_book, e.end_date, now)
                },
{
    events.lemma_model();
    lemma_index_events_active(events.key_seq(), events.value_seq(), now);
}

} // verus!
