use vstd::prelude::*;

use crate::adapters::{utc_now, Instant};
use crate::error::PolymarketError;
use crate::event::{event_of, Event, EventModel, MarketModel, RawEvent};
use crate::market::{market_active_at, Market};
use crate::strmap::{string_views, StrMap};

verus! {

/// `(market id, market)` pairs taken by their models.
pub open spec fn pair_models(v: Seq<(String, Market)>) -> Seq<(Seq<char>, MarketModel)> {
    v.map_values(|p: (String, Market)| (p.0@, p.1@))
}

/// The market lists of an input map, in its entry order, taken by their models.
pub open spec fn markets_lists(m: StrMap<Vec<(String, Market)>>) -> Seq<Seq<(Seq<char>, MarketModel)>> {
    m.value_seq().map_values(|v: Vec<(String, Market)>| pair_models(v@))
}

/// Models of a map of events.
pub open spec fn event_map_models(m: Map<Seq<char>, Event>) -> Map<Seq<char>, EventModel> {
    m.map_values(|e: Event| e@)
}

/// Models of the raw events of a map, in its entry order.
pub open spec fn raw_seq_models(v: Seq<RawEvent>) -> Seq<<RawEvent as View>::V> {
    v.map_values(|e: RawEvent| e@)
}

/// The event's series slug is one of the allowed slugs.
pub open spec fn slug_allowed(allowed: Seq<Seq<char>>, series_slug: Option<String>) -> bool {
    series_slug matches Some(s) && allowed.contains(s@)
}

/// The markets of an event after adding, in order, each listed market that is
/// tradable at `now` (keyed by its id).
pub open spec fn add_active_markets(
    ev: EventModel,
    ms: Seq<(Seq<char>, MarketModel)>,
    now: Instant,
) -> EventModel
    decreases ms.len(),
{
    if ms.len() == 0 {
        ev
    } else {
        let e = add_active_markets(ev, ms.drop_last(), now);
        let m = ms.last().1;
        if market_active_at(m.0, now) {
            (e.0, e.1.insert(m.0.id@, m))
        } else {
            e
        }
    }
}

/// The tracked events after attaching markets to events, event by event in
/// order, stopping at the first event id that is not tracked (returned second).
pub open spec fn attach_markets(
    events: Map<Seq<char>, EventModel>,
    ids: Seq<Seq<char>>,
    lists: Seq<Seq<(Seq<char>, MarketModel)>>,
    now: Instant,
) -> (Map<Seq<char>, EventModel>, Option<Seq<char>>)
    decreases ids.len(),
{
    if ids.len() == 0 {
        (events, None)
    } else {
        let prev = attach_markets(events, ids.drop_last(), lists.take(ids.len() - 1), now);
        if prev.1 is Some {
            prev
        } else if prev.0.contains_key(ids.last()) {
            (
                prev.0.insert(
                    ids.last(),
                    add_active_markets(prev.0[ids.last()], lists[ids.len() - 1], now),
                ),
                None,
            )
        } else {
            (prev.0, Some(ids.last()))
        }
    }
}

/// The tracked events after registering raw events in order: each one whose
/// series slug is allowed and that is active is tracked under its own id.
pub open spec fn register_events(
    events: Map<Seq<char>, EventModel>,
    raws: Seq<<RawEvent as View>::V>,
    allowed: Seq<Seq<char>>,
) -> Map<Seq<char>, EventModel>
    decreases raws.len(),
{
    if raws.len() == 0 {
        events
    } else {
        let m = register_events(events, raws.drop_last(), allowed);
        let e = raws.last();
        if slug_allowed(allowed, e.0.series_slug) && e.0.active == Some(true) {
            m.insert(e.0.id@, event_of(e))
        } else {
            m
        }
    }
}

/// Once attaching stops at an untracked event, later entries change nothing.
proof fn lemma_attach_frozen(
    events: Map<Seq<char>, EventModel>,
    ids: Seq<Seq<char>>,
    lists: Seq<Seq<(Seq<char>, MarketModel)>>,
    now: Instant,
    j: int,
)
    requires
        0 <= j <= ids.len(),
        lists.len() == ids.len(),
        attach_markets(events, ids.take(j), lists.take(j), now).1 is Some,
    ensures
        attach_markets(events, ids, lists, now) == attach_markets(
            events,
            ids.take(j),
            lists.take(j),
            now,
        ),
    decreases ids.len(),
{
    if j == ids.len() {
        assert(ids.take(j) == ids);
        assert(lists.take(j) == lists);
    } else {
        let ids1 = ids.drop_last();
        let lists1 = lists.take(ids.len() - 1);
        assert(ids1.take(j) == ids.take(j));
        assert(lists1.take(j) == lists.take(j));
        lemma_attach_frozen(events, ids1, lists1, now, j);
    }
}

/// A tracked event: of an allowed series, explicitly active, held under its id.
pub open spec fn tracked_ok(allowed: Seq<Seq<char>>, id: Seq<char>, e: EventModel) -> bool {
    slug_allowed(allowed, e.0.series_slug) && e.0.active == Some(true) && e.0.id@ == id
}

/// Registering raw events tracks only events of an allowed series that are
/// explicitly active, each under its own id: if that held of the tracked events
/// before, it holds after.
pub proof fn law_tracked_events_allowed(
    events: Map<Seq<char>, EventModel>,
    raws: Seq<<RawEvent as View>::V>,
    allowed: Seq<Seq<char>>,
)
    requires
        forall|k: Seq<char>| #[trigger] events.contains_key(k) ==> tracked_ok(allowed, k, events[k]),
    ensures
        forall|k: Seq<char>| #[trigger] register_events(events, raws, allowed).contains_key(k)
            ==> tracked_ok(allowed, k, register_events(events, raws, allowed)[k]),
    decreases raws.len(),
{
    if raws.len() > 0 {
        law_tracked_events_allowed(events, raws.drop_last(), allowed);
        let m = register_events(events, raws.drop_last(), allowed);
        let e = raws.last();
        if slug_allowed(allowed, e.0.series_slug) && e.0.active == Some(true) {
            assert(event_of(e).0 == e.0);
            assert(tracked_ok(allowed, e.0.id@, event_of(e)));
            assert forall|k: Seq<char>| #[trigger] m.insert(e.0.id@, event_of(e)).contains_key(k)
                implies tracked_ok(allowed, k, m.insert(e.0.id@, event_of(e))[k]) by {
                if k != e.0.id@ {
                    assert(m.contains_key(k));
                }
            }
        }
    }
}

/// Attaching markets only adds markets that are tradable at `now`, each under
/// its own id, and keeps the markets the event already had.
pub proof fn law_attached_markets_tradable(ev: EventModel, ms: Seq<(Seq<char>, MarketModel)>, now: Instant)
    ensures
        forall|k: Seq<char>| #[trigger] ev.1.contains_key(k) ==> add_active_markets(ev, ms, now).1.contains_key(k),
        forall|k: Seq<char>|
            #[trigger] add_active_markets(ev, ms, now).1.contains_key(k) && !ev.1.contains_key(k) ==> {
                let m = add_active_markets(ev, ms, now).1[k];
                market_active_at(m.0, now) && m.0.id@ == k
            },
        add_active_markets(ev, ms, now).0 == ev.0,
    decreases ms.len(),
{
    if ms.len() > 0 {
        law_attached_markets_tradable(ev, ms.drop_last(), now);
    }
}

/// Every listed market that is tradable at `now` ends up attached under its id,
/// and a tradable market that no later tradable listed market shares an id with
/// is the one attached under that id.
pub proof fn law_every_tradable_market_attached(ev: EventModel, ms: Seq<(Seq<char>, MarketModel)>, now: Instant)
    ensures
        forall|j: int|
            0 <= j < ms.len() && market_active_at((#[trigger] ms[j]).1.0, now)
                ==> add_active_markets(ev, ms, now).1.contains_key(ms[j].1.0.id@),
        forall|j: int|
            0 <= j < ms.len() && market_active_at((#[trigger] ms[j]).1.0, now) && (forall|k: int|
                j < k < ms.len() ==> !(market_active_at((#[trigger] ms[k]).1.0, now) && ms[k].1.0.id@
                    == ms[j].1.0.id@)) ==> add_active_markets(ev, ms, now).1[ms[j].1.0.id@] == ms[j].1,
    decreases ms.len(),
{
    if ms.len() > 0 {
        let d = ms.drop_last();
        law_every_tradable_market_attached(ev, d, now);
        let last = ms.len() - 1;
        assert forall|j: int|
            0 <= j < ms.len() && market_active_at((#[trigger] ms[j]).1.0, now)
            implies add_active_markets(ev, ms, now).1.contains_key(ms[j].1.0.id@) by {
            if j < last {
                assert(d[j] == ms[j]);
            }
        }
        assert forall|j: int|
            0 <= j < ms.len() && market_active_at((#[trigger] ms[j]).1.0, now) && (forall|k: int|
                j < k < ms.len() ==> !(market_active_at((#[trigger] ms[k]).1.0, now) && ms[k].1.0.id@
                    == ms[j].1.0.id@))
            implies add_active_markets(ev, ms, now).1[ms[j].1.0.id@] == ms[j].1 by {
            if j < last {
                assert(d[j] == ms[j]);
                assert forall|k: int| j < k < d.len() implies !(market_active_at((#[trigger] d[k]).1.0, now)
                    && d[k].1.0.id@ == d[j].1.0.id@) by {
                    assert(d[k] == ms[k]);
                }
                assert(!(market_active_at(ms[last].1.0, now) && ms[last].1.0.id@ == ms[j].1.0.id@));
            }
        }
    }
}

/// Keeps track of the events being followed.
#[derive(Debug)]
pub struct EventManager {
    my_active_events: StrMap<Event>,
    allowed_slugs: Vec<String>,
}

proof fn lemma_event_models_insert(m: Map<Seq<char>, Event>, k: Seq<char>, v: Event)
    ensures
        event_map_models(m.insert(k, v)) == event_map_models(m).insert(k, v@),
{
    assert(event_map_models(m.insert(k, v)) =~= event_map_models(m).insert(k, v@));
}

impl EventManager {
    /// Every tracked event holds a well-formed market map.
    pub closed spec fn wf(&self) -> bool {
        &&& self.my_active_events.wf()
        &&& forall|i: int|
            0 <= i < self.my_active_events.value_seq().len()
                ==> #[trigger] self.my_active_events.value_seq()[i].markets.wf()
    }

    /// The tracked events, by id.
    pub closed spec fn events(&self) -> Map<Seq<char>, EventModel> {
        event_map_models(self.my_active_events.model())
    }

    /// The tracked events as held, in their map's order.
    pub closed spec fn event_map(&self) -> StrMap<Event> {
        self.my_active_events
    }

    /// The allowed series slugs.
    pub closed spec fn allowed(&self) -> Seq<Seq<char>> {
        string_views(self.allowed_slugs@)
    }

    /// A manager tracking no event yet.
    pub fn new(allowed_slugs: Vec<String>) -> (r: Self)
        ensures
            r.wf(),
            r.events() == Map::<Seq<char>, EventModel>::empty(),
            r.allowed() == string_views(allowed_slugs@),
    {
        let r = EventManager { my_active_events: StrMap::new(), allowed_slugs };
        proof {
            assert(r.events() =~= Map::<Seq<char>, EventModel>::empty());
        }
        r
    }

    /// Read-only access to the events being tracked.
    pub fn active_events(&self) -> (r: &StrMap<Event>)
        requires
            self.wf(),
        ensures
            r.wf(),
            *r == self.event_map(),
            event_map_models(r.model()) == self.events(),
            forall|i: int| 0 <= i < r.value_seq().len() ==> #[trigger] r.value_seq()[i].markets.wf(),
    {
        &self.my_active_events
    }

    /// Whether `slug` is one of the allowed series slugs.
    fn slug_is_allowed(&self, slug: &String) -> (r: bool)
        ensures
            r == self.allowed().contains(slug@),
    {
        let mut i: usize = 0;
        while i < self.allowed_slugs.len()
            invariant
                0 <= i <= self.allowed_slugs@.len(),
                forall|j: int| 0 <= j < i ==> self.allowed()[j] != slug@,
            decreases self.allowed_slugs@.len() - i,
        {
            if self.allowed_slugs[i] == *slug {
                proof {
                    assert(self.allowed()[i as int] == slug@);
                }
                return true;
            }
            i = i + 1;
        }
        proof {
            if self.allowed().contains(slug@) {
                let j = choose|j: int| 0 <= j < self.allowed().len() && self.allowed()[j] == slug@;
                assert(false);
            }
        }
        false
    }

    /// Adds (or replaces) a tracked event under its own id.
    fn add_active_event(&mut self, event: Event)
        requires
            old(self).wf(),
            event.markets.wf(),
        ensures
            final(self).wf(),
            final(self).events() == old(self).events().insert(event.id@, event@),
            final(self).allowed() == old(self).allowed(),
    {
        let ghost before = self.my_active_events.model();
        let ghost ev = event;
        let ghost vs0 = self.my_active_events.value_seq();
        proof {
            self.my_active_events.lemma_model();
        }
        let id = event.id.clone();
        self.my_active_events.insert(id, event);
        proof {
            lemma_event_models_insert(before, ev.id@, ev);
            self.my_active_events.lemma_model();
            assert forall|i: int| 0 <= i < self.my_active_events.value_seq().len() implies #[trigger] self.my_active_events.value_seq()[i].markets.wf() by {
                let k = self.my_active_events.key_seq()[i];
                if k == ev.id@ {
                    assert(self.my_active_events.model()[k] == ev);
                } else {
                    assert(before.contains_key(k));
                    let j = choose|j: int| 0 <= j < old(self).my_active_events.key_seq().len() && old(self).my_active_events.key_seq()[j] == k;
                    old(self).my_active_events.lemma_model();
                    assert(before[k] == vs0[j]);
                    assert(self.my_active_events.model()[k] == before[k]);
                }
            }
        }
    }

    /// Starts tracking the given events: those whose series slug is allowed and
    /// that are active become tracked under their id (in the map's order, a later
    /// one with the same id wins).
    pub fn init_my_active_events(&mut self, raw_events: StrMap<RawEvent>)
        requires
            old(self).wf(),
            raw_events.wf(),
        ensures
            final(self).wf(),
            final(self).allowed() == old(self).allowed(),
            final(self).events() == register_events(
                old(self).events(),
                raw_seq_models(raw_events.value_seq()),
                old(self).allowed(),
            ),
    {
        let n = raw_events.len();
        let mut i: usize = 0;
        let ghost e0 = self.events();
        let ghost raws = raw_seq_models(raw_events.value_seq());
        proof {
            assert(raws.take(0) =~= Seq::<<RawEvent as View>::V>::empty());
        }
        while i < n
            invariant
                raw_events.wf(),
                n == raw_events.value_seq().len(),
                n == raw_events.key_seq().len(),
                raws == raw_seq_models(raw_events.value_seq()),
                0 <= i <= n,
                self.wf(),
                self.allowed() == old(self).allowed(),
                self.events() == register_events(e0, raws.take(i as int), self.allowed()),
            decreases n - i,
        {
            let raw = raw_events.value_at(i);
            proof {
                assert(raws.take(i + 1).drop_last() =~= raws.take(i as int));
                assert(raws.take(i + 1).last() == raw@);
            }
            let keep = match &raw.series_slug {
                Some(s) => self.slug_is_allowed(s),
                None => false,
            };
            if keep && raw.active == Some(true) {
                let event = raw.to_event();
                self.add_active_event(event);
            }
            i = i + 1;
        }
        proof {
            assert(raws.take(n as int) == raws);
        }
    }

    /// Attaches, to each listed event, its markets that are tradable at `now`.
    /// Fails on the first event id that is not tracked; the events handled
    /// before it keep their new markets.
    pub fn init_active_markets_from_events_at(
        &mut self,
        event_id_to_markets: &StrMap<Vec<(String, Market)>>,
        now: Instant,
    ) -> (r: Result<(), PolymarketError>)
        requires
            old(self).wf(),
            event_id_to_markets.wf(),
        ensures
            final(self).wf(),
            final(self).allowed() == old(self).allowed(),
            ({
                let res = attach_markets(
                    old(self).events(),
                    event_id_to_markets.key_seq(),
                    markets_lists(*event_id_to_markets),
                    now,
                );
                &&& final(self).events() == res.0
                &&& match r {
                    Ok(()) => res.1 is None,
                    Err(e) => res.1 matches Some(id) && e matches PolymarketError::EventNotFound(x)
                        && x@ == id,
                }
            }),
    {
        let n = event_id_to_markets.len();
        let ghost ids = event_id_to_markets.key_seq();
        let ghost lists = markets_lists(*event_id_to_markets);
        let ghost e0 = self.events();
        let mut i: usize = 0;
        proof {
            assert(ids.take(0) =~= Seq::<Seq<char>>::empty());
        }
        while i < n
            invariant
                event_id_to_markets.wf(),
                n == ids.len(),
                n == lists.len(),
                ids == event_id_to_markets.key_seq(),
                lists == markets_lists(*event_id_to_markets),
                0 <= i <= n,
                self.wf(),
                e0 == old(self).events(),
                self.allowed() == old(self).allowed(),
                attach_markets(e0, ids.take(i as int), lists.take(i as int), now) == (
                    self.events(),
                    None::<Seq<char>>,
                ),
            decreases n - i,
        {
            let event_id = event_id_to_markets.key_at(i);
            let markets = event_id_to_markets.value_at(i);
            proof {
                assert(ids.take(i + 1).drop_last() =~= ids.take(i as int));
                assert(lists.take(i + 1).take(i as int) =~= lists.take(i as int));
                assert(ids.take(i + 1).last() == event_id@);
                assert(lists.take(i + 1)[i as int] == pair_models(markets@));
                self.my_active_events.lemma_model();
            }
            match self.my_active_events.find(event_id.as_str()) {
                None => {
                    proof {
                        assert(!self.events().contains_key(event_id@));
                        assert(attach_markets(e0, ids.take(i + 1), lists.take(i + 1), now) == (
                            self.events(),
                            Some(event_id@),
                        ));
                        lemma_attach_frozen(e0, ids, lists, now, i + 1);
                        assert(attach_markets(e0, ids, lists, now) == (self.events(), Some(event_id@)));
                        assert(e0 == old(self).events());
                        assert(lists == markets_lists(*event_id_to_markets));
                    }
                    let missing = event_id.clone();
                    proof {
                        assert(missing@ == event_id@);
                    }
                    return Err(PolymarketError::EventNotFound(missing));
                },
                Some(j) => {
                    let ghost before = self.my_active_events;
                    let ghost ev0 = self.my_active_events.value_seq()[j as int];
                    proof {
                        assert(self.my_active_events.value_seq()[j as int].markets.wf());
                    }
                    add_markets_if_active(self.my_active_events.value_at_mut(j), markets, now);
                    proof {
                        StrMap::lemma_same_keys_wf(&before, &self.my_active_events);
                        let evj = self.my_active_events.value_seq()[j as int];
                        assert(self.my_active_events.value_seq() == before.value_seq().update(j as int, evj));
                        before.lemma_model();
                        self.my_active_events.lemma_model();
                        assert forall|q: int| 0 <= q < self.my_active_events.value_seq().len() implies #[trigger] self.my_active_events.value_seq()[q].markets.wf() by {
                            if q != j as int {
                                assert(self.my_active_events.value_seq()[q] == before.value_seq()[q]);
                            }
                        }
                        let k = event_id@;
                        assert(before.key_seq()[j as int] == k);
                        assert(self.events() =~= event_map_models(before.model()).insert(k, evj@)) by {
                            assert forall|q: Seq<char>| #[trigger] self.events().contains_key(q) == event_map_models(before.model()).insert(k, evj@).contains_key(q) by {}
                            assert forall|q: Seq<char>| #[trigger] self.events().contains_key(q) implies self.events()[q] == event_map_models(before.model()).insert(k, evj@)[q] by {
                                let p = choose|p: int| 0 <= p < self.my_active_events.key_seq().len() && self.my_active_events.key_seq()[p] == q;
                                if p != j as int {
                                    assert(self.my_active_events.value_seq()[p] == before.value_seq()[p]);
                                }
                            }
                        }
                        assert(event_map_models(before.model())[k] == ev0@);
                    }
                },
            }
            i = i + 1;
        }
        proof {
            assert(ids.take(n as int) == ids);
            assert(lists.take(n as int) == lists);
        }
        Ok(())
    }

    /// Attaches, to each listed event, its markets that are tradable now; the
    /// clock is read once for the whole batch. A clock reading before the Unix
    /// epoch is reported as `ClockOutOfRange`, and nothing changes.
    pub fn init_active_markets_from_events(
        &mut self,
        event_id_to_markets: &StrMap<Vec<(String, Market)>>,
    ) -> (r: Result<(), PolymarketError>)
        requires
            old(self).wf(),
            event_id_to_markets.wf(),
        ensures
            final(self).wf(),
            final(self).allowed() == old(self).allowed(),
            r matches Err(PolymarketError::ClockOutOfRange) ==> final(self).events() == old(self).events(),
            !(r matches Err(PolymarketError::ClockOutOfRange)) ==> exists|now: Instant|
                #![trigger attach_markets(old(self).events(), event_id_to_markets.key_seq(), markets_lists(*event_id_to_markets), now)]
                {
                    let res = attach_markets(
                        old(self).events(),
                        event_id_to_markets.key_seq(),
                        markets_lists(*event_id_to_markets),
                        now,
                    );
                    &&& final(self).events() == res.0
                    &&& match r {
                        Ok(()) => res.1 is None,
                        Err(e) => res.1 matches Some(id) && e matches PolymarketError::EventNotFound(x)
                            && x@ == id,
                    }
                },
    {
        match utc_now() {
            Some(now) => self.init_active_markets_from_events_at(event_id_to_markets, now),
            None => Err(PolymarketError::ClockOutOfRange),
        }
    }
}

/// Adds to an event each listed market that is tradable at `now`.
fn add_markets_if_active(ev: &mut Event, markets: &Vec<(String, Market)>, now: Instant)
    requires
        old(ev).markets.wf(),
    ensures
        final(ev).markets.wf(),
        final(ev)@ == add_active_markets(old(ev)@, pair_models(markets@), now),
{
    let mut i: usize = 0;
    let ghost ms = pair_models(markets@);
    proof {
        assert(ms.take(0) =~= Seq::<(Seq<char>, MarketModel)>::empty());
    }
    while i < markets.len()
        invariant
            0 <= i <= markets@.len(),
            ms == pair_models(markets@),
            ev.markets.wf(),
            ev@ == add_active_markets(old(ev)@, ms.take(i as int), now),
        decreases markets@.len() - i,
    {
        let market = &markets[i].1;
        proof {
            assert(ms.take(i + 1).drop_last() =~= ms.take(i as int));
            assert(ms.take(i + 1).last() == (markets@[i as int].0@, market@));
        }
        if market.is_active_market_at(now) {
            ev.add_market(market.duplicate());
        }
        i = i + 1;
    }
    proof {
        assert(ms.take(markets@.len() as int) == ms);
    }
}

} // verus!
