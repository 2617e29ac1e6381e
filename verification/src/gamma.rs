use vstd::prelude::*;

use crate::constants::{
    EVENTS_BY_TAG_PATH, EVENTS_ORDER, EVENTS_PATH, EVENTS_SLUG, GAMMA_URL, LIMIT_EVENTS,
    MARKET_BY_ID_PATH, MARKETS_PATH, MARKETS_SLUG, SERIES_BY_SLUG_PATH,
};
use crate::error::PolymarketError;
use crate::event::{MarketModel, RawEvent};
use crate::event_manager::pair_models;
use crate::manager::raw_map_models;
use crate::market::{copy_opt_string, flag_set, Market};
use crate::strmap::StrMap;
use crate::text::{join2, join3};

verus! {

/// A series as listed by the Gamma API (the fields the logic reads).
#[derive(Debug)]
pub struct Serie {
    pub id: String,
    pub ticker: Option<String>,
    pub slug: Option<String>,
    pub title: Option<String>,
    pub series_type: Option<String>,
    /// Used for filtering.
    pub recurrence: Option<String>,
    pub active: Option<bool>,
    pub closed: Option<bool>,
    pub archived: Option<bool>,
    pub new: Option<bool>,
    pub restricted: Option<bool>,
    pub comment_count: Option<u32>,
    pub created_at: Option<String>,
    pub updated_at: Option<String>,
    pub events: Option<Vec<RawEvent>>,
}

/// Events keyed by id, inserted in order (a later one with the same id wins).
pub open spec fn events_by_id(es: Seq<<RawEvent as View>::V>) -> Map<Seq<char>, <RawEvent as View>::V>
    decreases es.len(),
{
    if es.len() == 0 {
        Map::empty()
    } else {
        events_by_id(es.drop_last()).insert(es.last().0.id@, es.last())
    }
}

/// The open events (explicitly active and not closed) keyed by id, in order;
/// the first one with a given id is kept.
pub open spec fn open_events_by_id(es: Seq<<RawEvent as View>::V>) -> Map<Seq<char>, <RawEvent as View>::V>
    decreases es.len(),
{
    if es.len() == 0 {
        Map::empty()
    } else {
        let m = open_events_by_id(es.drop_last());
        let e = es.last();
        if e.0.closed == Some(false) && e.0.active == Some(true) && !m.contains_key(e.0.id@) {
            m.insert(e.0.id@, e)
        } else {
            m
        }
    }
}

/// The events taken from a series are all open (explicitly active and not
/// closed), each held under its own id and listed in the series.
pub proof fn law_series_events_open(es: Seq<<RawEvent as View>::V>)
    ensures
        forall|k: Seq<char>| #[trigger] open_events_by_id(es).contains_key(k) ==> {
            let e = open_events_by_id(es)[k];
            &&& e.0.closed == Some(false)
            &&& e.0.active == Some(true)
            &&& e.0.id@ == k
            &&& es.contains(e)
        },
    decreases es.len(),
{
    if es.len() > 0 {
        law_series_events_open(es.drop_last());
        let d = es.drop_last();
        assert forall|k: Seq<char>| #[trigger] open_events_by_id(es).contains_key(k) implies ({
            let e = open_events_by_id(es)[k];
            &&& e.0.closed == Some(false)
            &&& e.0.active == Some(true)
            &&& e.0.id@ == k
            &&& es.contains(e)
        }) by {
            let e = open_events_by_id(es)[k];
            if open_events_by_id(d).contains_key(k) && open_events_by_id(d)[k] == e {
                let j = choose|j: int| 0 <= j < d.len() && d[j] == e;
                assert(es[j] == e);
            } else {
                assert(es[es.len() - 1] == e);
            }
        }
    }
}

/// A market is open for trading: explicitly not closed, active and accepting orders.
pub open spec fn market_open(m: Market) -> bool {
    m.closed == Some(false) && m.active == Some(true) && m.accepting_orders == Some(true)
}

proof fn lemma_raw_models_insert(m: Map<Seq<char>, RawEvent>, k: Seq<char>, v: RawEvent)
    ensures
        raw_map_models(m.insert(k, v)) == raw_map_models(m).insert(k, v@),
{
    assert(raw_map_models(m.insert(k, v)) =~= raw_map_models(m).insert(k, v@));
}

/// Adds events to a map keyed by id; a later event with the same id replaces an
/// earlier one.
pub fn add_events_by_id(acc: &mut StrMap<RawEvent>, events: Vec<RawEvent>)
    requires
        old(acc).wf(),
    ensures
        final(acc).wf(),
        raw_map_models(final(acc).model()) == raw_map_models(old(acc).model()).union_prefer_right(
            events_by_id(events@.map_values(|e: RawEvent| e@)),
        ),
{
    let ghost es = events@.map_values(|e: RawEvent| e@);
    let ghost m0 = raw_map_models(acc.model());
    let n = events.len();
    let mut i: usize = 0;
    proof {
        assert(es.take(0) =~= Seq::<<RawEvent as View>::V>::empty());
        assert(m0.union_prefer_right(events_by_id(es.take(0))) =~= m0);
    }
    while i < n
        invariant
            n == events@.len(),
            es == events@.map_values(|e: RawEvent| e@),
            0 <= i <= n,
            acc.wf(),
            raw_map_models(acc.model()) == m0.union_prefer_right(events_by_id(es.take(i as int))),
        decreases n - i,
    {
        let e = events[i].duplicate();
        let ghost ee = e;
        let ghost before = acc.model();
        acc.insert(e.id.clone(), e);
        proof {
            lemma_raw_models_insert(before, ee.id@, ee);
            assert(es.take(i + 1).drop_last() =~= es.take(i as int));
            assert(es.take(i + 1).last() == events@[i as int]@);
            assert(m0.union_prefer_right(events_by_id(es.take(i + 1))) =~= m0.union_prefer_right(
                events_by_id(es.take(i as int)),
            ).insert(ee.id@, ee@));
        }
        i = i + 1;
    }
    proof {
        assert(es.take(n as int) == es);
    }
}

/// Events keyed by id (a later event with the same id wins).
pub fn index_events_by_id(events: Vec<RawEvent>) -> (r: StrMap<RawEvent>)
    ensures
        r.wf(),
        raw_map_models(r.model()) == events_by_id(events@.map_values(|e: RawEvent| e@)),
{
    let mut r: StrMap<RawEvent> = StrMap::new();
    proof {
        assert(raw_map_models(r.model()) =~= Map::<Seq<char>, <RawEvent as View>::V>::empty());
    }
    add_events_by_id(&mut r, events);
    proof {
        let es = events@.map_values(|e: RawEvent| e@);
        assert(Map::<Seq<char>, <RawEvent as View>::V>::empty().union_prefer_right(events_by_id(es))
            =~= events_by_id(es));
    }
    r
}

/// The open events of the first listed series, keyed by id (the first event with
/// a given id is kept); an error naming the slug when no series was found.
pub fn active_events_from_series(series: Vec<Serie>, series_slug: &str) -> (r: Result<
    StrMap<RawEvent>,
    PolymarketError,
>)
    ensures
        match r {
            Ok(m) => series@.len() > 0 && m.wf() && raw_map_models(m.model()) == open_events_by_id(
                match series@[0].events {
                    Some(es) => es@.map_values(|e: RawEvent| e@),
                    None => Seq::empty(),
                },
            ),
            Err(e) => series@.len() == 0 && (e matches PolymarketError::SerieNotFound(s) && s@
                == series_slug@),
        },
{
    if series.len() == 0 {
        return Err(PolymarketError::SerieNotFound(series_slug.to_string()));
    }
    let serie = &series[0];
    let mut active: StrMap<RawEvent> = StrMap::new();
    proof {
        assert(raw_map_models(active.model()) =~= Map::<Seq<char>, <RawEvent as View>::V>::empty());
    }
    match &serie.events {
        Some(events) => {
            let ghost es = events@.map_values(|e: RawEvent| e@);
            let n = events.len();
            let mut i: usize = 0;
            proof {
                assert(es.take(0) =~= Seq::<<RawEvent as View>::V>::empty());
            }
            while i < n
                invariant
                    n == events@.len(),
                    es == events@.map_values(|e: RawEvent| e@),
                    0 <= i <= n,
                    active.wf(),
                    raw_map_models(active.model()) == open_events_by_id(es.take(i as int)),
                decreases n - i,
            {
                let event = &events[i];
                proof {
                    assert(es.take(i + 1).drop_last() =~= es.take(i as int));
                    assert(es.take(i + 1).last() == event@);
                }
                if event.closed == Some(false) && event.active == Some(true) && !active.contains_key(
                    event.id.as_str(),
                ) {
                    let e = event.duplicate();
                    let ghost ee = e;
                    let ghost before = active.model();
                    active.insert(e.id.clone(), e);
                    proof {
                        lemma_raw_models_insert(before, ee.id@, ee);
                    }
                }
                i = i + 1;
            }
            proof {
                assert(es.take(n as int) == es);
            }
        },
        None => {},
    }
    Ok(active)
}

/// Whether a fetched market is open for trading.
pub fn is_open_market(market: &Market) -> (r: bool)
    ensures
        r == market_open(*market),
{
    market.closed == Some(false) && market.active == Some(true) && market.accepting_orders == Some(
        true,
    )
}

/// Records a market fetched for an event when it is open for trading: it is
/// appended, with its id, to that event's list.
pub fn record_active_market(acc: &mut StrMap<Vec<(String, Market)>>, event_id: &String, market: Market)
    requires
        old(acc).wf(),
    ensures
        final(acc).wf(),
        !market_open(market) ==> final(acc).model() == old(acc).model(),
        market_open(market) ==> final(acc).model().dom() == old(acc).model().dom().insert(event_id@),
        market_open(market) ==> pair_models(final(acc).model()[event_id@]@) == (if old(
            acc,
        ).model().contains_key(event_id@) {
            pair_models(old(acc).model()[event_id@]@)
        } else {
            Seq::empty()
        }).push((market.id@, market@)),
        market_open(market) ==> forall|k: Seq<char>|
            k != event_id@ && #[trigger] old(acc).model().contains_key(k) ==> final(acc).model()[k]
                == old(acc).model()[k],
{
    if !is_open_market(&market) {
        return;
    }
    let ghost mm = market;
    let entry = (market.id.clone(), market);
    proof {
        acc.lemma_model();
    }
    match acc.find(event_id.as_str()) {
        Some(j) => {
            let ghost before = *acc;
            proof {
                crate::strmap::lemma_seq_map_at(before.key_seq(), before.value_seq(), j as int);
            }
            acc.value_at_mut(j).push(entry);
            proof {
                let after = *acc;
                StrMap::lemma_same_keys_wf(&before, &after);
                before.lemma_model();
                after.lemma_model();
                assert(after.model()[event_id@] == after.value_seq()[j as int]);
                assert(pair_models(after.value_seq()[j as int]@) =~= pair_models(before.value_seq()[j as int]@).push((mm.id@, mm@)));
                assert(after.model().dom() =~= before.model().dom().insert(event_id@));
                assert forall|k: Seq<char>| k != event_id@ && #[trigger] before.model().contains_key(k) implies after.model()[k] == before.model()[k] by {
                    let p = choose|p: int| 0 <= p < after.key_seq().len() && after.key_seq()[p] == k;
                    assert(after.value_seq()[p] == before.value_seq()[p]);
                }
            }
        },
        None => {
            let mut list: Vec<(String, Market)> = Vec::new();
            list.push(entry);
            let ghost l = list;
            acc.insert(event_id.clone(), list);
            proof {
                assert(pair_models(l@) =~= Seq::<(Seq<char>, MarketModel)>::empty().push((mm.id@, mm@)));
            }
        },
    }
}

/// Offset of the next page of the paginated event listing, or `None` when the
/// last page came back short of the page size.
pub fn next_page_offset(offset: u32, page_len: usize) -> (r: Option<u32>)
    requires
        page_len < LIMIT_EVENTS || offset + LIMIT_EVENTS <= u32::MAX,
    ensures
        page_len < LIMIT_EVENTS ==> r is None,
        page_len >= LIMIT_EVENTS ==> r == Some((offset + LIMIT_EVENTS) as u32),
{
    if page_len < LIMIT_EVENTS as usize {
        None
    } else {
        Some(offset + LIMIT_EVENTS)
    }
}

/// A query parameter of the Gamma API.
#[derive(Debug)]
pub enum QueryParam {
    Limit(u32),
    Offset(u32),
    Closed(bool),
    TagId(u64),
    Ascending(bool),
    Recurrence(String),
    Order(String),
}

/// The parameter when the option holds a value, else nothing.
pub open spec fn optional_param<T>(o: Option<T>, f: spec_fn(T) -> QueryParam) -> Seq<QueryParam> {
    match o {
        Some(v) => seq![f(v)],
        None => Seq::empty(),
    }
}

/// Query of one page of the market listing: limit and offset, then the
/// filters that are set (closed, tag id, ascending), in that order.
pub fn markets_page_query(
    limit: u32,
    offset: u32,
    closed: Option<bool>,
    tag_id: Option<u64>,
    ascending: Option<bool>,
) -> (r: Vec<QueryParam>)
    ensures
        r@ == seq![QueryParam::Limit(limit), QueryParam::Offset(offset)] + optional_param(
            closed,
            |c: bool| QueryParam::Closed(c),
        ) + optional_param(tag_id, |t: u64| QueryParam::TagId(t)) + optional_param(
            ascending,
            |a: bool| QueryParam::Ascending(a),
        ),
{
    let mut r: Vec<QueryParam> = Vec::new();
    r.push(QueryParam::Limit(limit));
    r.push(QueryParam::Offset(offset));
    if let Some(c) = closed {
        r.push(QueryParam::Closed(c));
    }
    if let Some(t) = tag_id {
        r.push(QueryParam::TagId(t));
    }
    if let Some(a) = ascending {
        r.push(QueryParam::Ascending(a));
    }
    r
}

/// Query of the event listing: the filters that are set (limit, offset,
/// closed, tag id, recurrence), in that order.
pub fn latest_events_query(
    limit: Option<u32>,
    offset: Option<u32>,
    closed: Option<bool>,
    tag_id: Option<u64>,
    recurrence: Option<String>,
) -> (r: Vec<QueryParam>)
    ensures
        r@ == optional_param(limit, |l: u32| QueryParam::Limit(l)) + optional_param(
            offset,
            |o: u32| QueryParam::Offset(o),
        ) + optional_param(closed, |c: bool| QueryParam::Closed(c)) + optional_param(
            tag_id,
            |t: u64| QueryParam::TagId(t),
        ) + optional_param(recurrence, |s: String| QueryParam::Recurrence(s)),
{
    let mut r: Vec<QueryParam> = Vec::new();
    if let Some(l) = limit {
        r.push(QueryParam::Limit(l));
    }
    if let Some(o) = offset {
        r.push(QueryParam::Offset(o));
    }
    if let Some(c) = closed {
        r.push(QueryParam::Closed(c));
    }
    if let Some(t) = tag_id {
        r.push(QueryParam::TagId(t));
    }
    if let Some(s) = recurrence {
        r.push(QueryParam::Recurrence(s));
    }
    r
}

/// Query of one page of the open events, newest id first.
pub fn active_events_page_query(offset: u32) -> (r: Vec<QueryParam>)
    ensures
        r@.len() == 5,
        r@[0] == QueryParam::Closed(false),
        r@[1] == QueryParam::Limit(LIMIT_EVENTS),
        r@[2] == QueryParam::Offset(offset),
        r@[3] matches QueryParam::Order(o) && o@ == EVENTS_ORDER@,
        r@[4] == QueryParam::Ascending(false),
{
    let mut r: Vec<QueryParam> = Vec::new();
    r.push(QueryParam::Closed(false));
    r.push(QueryParam::Limit(LIMIT_EVENTS));
    r.push(QueryParam::Offset(offset));
    r.push(QueryParam::Order(EVENTS_ORDER.to_string()));
    r.push(QueryParam::Ascending(false));
    r
}

/// URL of the market listing.
pub fn markets_url() -> (r: String)
    ensures
        r@ == GAMMA_URL@ + MARKETS_PATH@,
{
    join2(GAMMA_URL, MARKETS_PATH)
}

/// URL of the event listing.
pub fn events_url() -> (r: String)
    ensures
        r@ == GAMMA_URL@ + EVENTS_PATH@,
{
    join2(GAMMA_URL, EVENTS_PATH)
}

/// URL of a market looked up by id: `/markets/{id}`.
pub fn market_by_id_url(id: &str) -> (r: String)
    ensures
        r@ == GAMMA_URL@ + MARKET_BY_ID_PATH@ + id@,
{
    join3(GAMMA_URL, MARKET_BY_ID_PATH, id)
}

/// URL of a market looked up by slug.
pub fn market_by_slug_url(slug: &str) -> (r: String)
    ensures
        r@ == GAMMA_URL@ + MARKETS_SLUG@ + slug@,
{
    join3(GAMMA_URL, MARKETS_SLUG, slug)
}

/// URL of an event looked up by slug: `/events/slug/{slug}`.
pub fn event_by_slug_url(slug: &str) -> (r: String)
    ensures
        r@ == GAMMA_URL@ + EVENTS_SLUG@ + slug@,
{
    join3(GAMMA_URL, EVENTS_SLUG, slug)
}

/// URL of an event looked up by tag id.
pub fn event_by_id_url(id: &str) -> (r: String)
    ensures
        r@ == GAMMA_URL@ + EVENTS_BY_TAG_PATH@ + id@,
{
    join3(GAMMA_URL, EVENTS_BY_TAG_PATH, id)
}

/// URL of the series with a slug.
pub fn series_by_slug_url(slug: &str) -> (r: String)
    ensures
        r@ == GAMMA_URL@ + SERIES_BY_SLUG_PATH@ + slug@,
{
    join3(GAMMA_URL, SERIES_BY_SLUG_PATH, slug)
}

} // verus!
