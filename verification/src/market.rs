use vstd::prelude::*;

use crate::adapters::{
    at_or_before, instant_at_or_before, json_string_list, parse_json_string_list, parse_rfc3339,
    rfc3339_instant, utc_now, Instant,
};
use crate::constants::BINARY_OUTCOME_COUNT;
use crate::error::PolymarketError;

verus! {

/// A market as listed by the Gamma API (the fields the logic reads).
#[derive(Debug, Clone)]
pub struct Market {
    pub id: String,
    pub question: Option<String>,
    pub slug: Option<String>,
    pub liquidity: Option<String>,
    pub volume: Option<String>,
    pub outcomes: Option<String>,
    pub description: Option<String>,
    pub active: Option<bool>,
    pub closed: Option<bool>,
    pub outcomes_formatted: Option<Vec<String>>,
    pub clob_token_ids_formatted: Option<Vec<String>>,
    pub start_date: Option<String>,
    pub end_date: Option<String>,
    pub condition_id: Option<String>,
    pub question_id: Option<String>,
    pub updated_at: Option<String>,
    pub enable_order_book: Option<bool>,
    /// JSON text holding the token ids of the outcomes.
    pub clob_token_ids: Option<String>,
    pub accepting_orders: Option<bool>,
    /// Absent until the market is resolved.
    pub uma_resolution_status: Option<String>,
}

/// Model of a market: its scalar and string fields, with the two parsed lists
/// taken by their contents.
impl View for Market {
    type V = (Market, Option<Seq<Seq<char>>>, Option<Seq<Seq<char>>>);

    open spec fn view(&self) -> Self::V {
        (
            Market { outcomes_formatted: None, clob_token_ids_formatted: None, ..*self },
            self.outcomes_formatted.deep_view(),
            self.clob_token_ids_formatted.deep_view(),
        )
    }
}

/// A flag that counts only when present and true.
pub open spec fn flag_set(f: Option<bool>) -> bool {
    f == Some(true)
}

/// The end date, when present and parseable, is not after `now`.
pub open spec fn expired_at(end_date: Option<String>, now: Instant) -> bool {
    end_date matches Some(e) && (rfc3339_instant(e@) matches Some(t) && at_or_before(t, now))
}

/// The end date is present and parses.
pub open spec fn has_parsed_end(end_date: Option<String>) -> bool {
    end_date matches Some(e) && rfc3339_instant(e@) is Some
}

/// The flags of a tradable market: active, not closed, accepting orders, with
/// an order book.
pub open spec fn market_flags_ok(m: Market) -> bool {
    flag_set(m.active) && !flag_set(m.closed) && flag_set(m.accepting_orders) && flag_set(
        m.enable_order_book,
    )
}

/// The market is tradable at `now`.
pub open spec fn market_active_at(m: Market, now: Instant) -> bool {
    market_flags_ok(m) && !expired_at(m.end_date, now)
}

/// The parsed list after a `compute_*_formatted` step: a missing list is filled
/// from the JSON text when it parses; otherwise the list stays as it was.
pub open spec fn formatted_after(current: Option<Seq<Seq<char>>>, raw: Option<String>) -> Option<
    Seq<Seq<char>>,
> {
    if current is None && raw is Some && json_string_list(raw->0@) is Some {
        json_string_list(raw->0@)
    } else {
        current
    }
}

/// Whether `end_date` is present and, once parsed, is not after `now`.
pub(crate) fn end_date_expired(end_date: &Option<String>, now: Instant) -> (r: bool)
    ensures
        r == expired_at(*end_date, now),
{
    match end_date {
        Some(e) => match parse_rfc3339(e.as_str()) {
            Some(t) => instant_at_or_before(t, now),
            None => false,
        },
        None => false,
    }
}

/// Copies an optional string.
pub fn copy_opt_string(s: &Option<String>) -> (r: Option<String>)
    ensures
        r == *s,
{
    match s {
        Some(x) => Some(x.clone()),
        None => None,
    }
}

/// Copies a list of strings.
pub fn copy_strings(v: &Vec<String>) -> (r: Vec<String>)
    ensures
        r@ == v@,
{
    let mut r: Vec<String> = Vec::with_capacity(v.len());
    let mut i: usize = 0;
    while i < v.len()
        invariant
            0 <= i <= v@.len(),
            r@ == v@.take(i as int),
        decreases v@.len() - i,
    {
        r.push(v[i].clone());
        proof {
            assert(v@.take(i + 1) == v@.take(i as int).push(v@[i as int]));
        }
        i = i + 1;
    }
    proof {
        assert(v@.take(v@.len() as int) == v@);
    }
    r
}

impl Market {
    /// The slug, or an error when the market has none.
    pub fn get_slug(&self) -> (r: Result<&str, PolymarketError>)
        ensures
            match r {
                Ok(s) => self.slug matches Some(x) && s@ == x@,
                Err(e) => self.slug is None && e == PolymarketError::MarketSlugMissing,
            },
    {
        match &self.slug {
            Some(s) => Ok(s.as_str()),
            None => Err(PolymarketError::MarketSlugMissing),
        }
    }

    /// Exactly two outcomes and two CLOB token ids are known.
    pub fn is_binary(&self) -> (r: bool)
        ensures
            r == ((self.outcomes_formatted matches Some(v) && v@.len() == BINARY_OUTCOME_COUNT) && (
            self.clob_token_ids_formatted matches Some(t) && t@.len() == BINARY_OUTCOME_COUNT)),
    {
        let outcomes_ok = match &self.outcomes_formatted {
            Some(v) => v.len() == BINARY_OUTCOME_COUNT,
            None => false,
        };
        let tokens_ok = match &self.clob_token_ids_formatted {
            Some(v) => v.len() == BINARY_OUTCOME_COUNT,
            None => false,
        };
        outcomes_ok && tokens_ok
    }

    /// The UMA resolution status is known.
    pub fn is_resolved(&self) -> (r: bool)
        ensures
            r == self.uma_resolution_status is Some,
    {
        self.uma_resolution_status.is_some()
    }

    /// Fills `outcomes_formatted` from the JSON text in `outcomes` when it is
    /// missing and the text parses; nothing else changes.
    pub fn compute_outcomes_formatted(&mut self)
        ensures
            final(self).outcomes_formatted.deep_view() == formatted_after(
                old(self).outcomes_formatted.deep_view(),
                old(self).outcomes,
            ),
            *final(self) == (Market { outcomes_formatted: final(self).outcomes_formatted, ..*old(self) }),
    {
        if self.outcomes_formatted.is_none() {
            match &self.outcomes {
                Some(raw) => {
                    let parsed = parse_json_string_list(raw.as_str());
                    match parsed {
                        Some(v) => {
                            self.outcomes_formatted = Some(v);
                        },
                        None => {},
                    }
                },
                None => {},
            }
        }
    }

    /// Fills `clob_token_ids_formatted` from the JSON text in `clob_token_ids`
    /// when it is missing and the text parses; nothing else changes.
    pub fn compute_clob_token_ids_formatted(&mut self)
        ensures
            final(self).clob_token_ids_formatted.deep_view() == formatted_after(
                old(self).clob_token_ids_formatted.deep_view(),
                old(self).clob_token_ids,
            ),
            *final(self) == (Market {
                clob_token_ids_formatted: final(self).clob_token_ids_formatted,
                ..*old(self)
            }),
    {
        if self.clob_token_ids_formatted.is_none() {
            match &self.clob_token_ids {
                Some(raw) => {
                    let parsed = parse_json_string_list(raw.as_str());
                    match parsed {
                        Some(v) => {
                            self.clob_token_ids_formatted = Some(v);
                        },
                        None => {},
                    }
                },
                None => {},
            }
        }
    }

    /// Tradable at `now`: active, not closed, accepting orders, with an order
    /// book, and not past a parseable end date.
    pub fn is_active_market_at(&self, now: Instant) -> (r: bool)
        ensures
            r == market_active_at(*self, now),
    {
        if end_date_expired(&self.end_date, now) {
            return false;
        }
        let is_open = self.active == Some(true) && !(self.closed == Some(true));
        let accepts_orders = self.accepting_orders == Some(true);
        let enable_ob = self.enable_order_book == Some(true);
        is_open && accepts_orders && enable_ob
    }

    /// Tradable now (reads the clock): see `is_active_market_at`. Whatever the
    /// clock says, a market lacking a flag is inactive, and one with all flags
    /// and no parseable end date is active. A clock reading before the Unix
    /// epoch is reported as `ClockOutOfRange` rather than stopping the program.
    pub fn is_active_market(&self) -> (r: Result<bool, PolymarketError>)
        ensures
            match r {
                Ok(b) => {
                    &&& b ==> market_flags_ok(*self)
                    &&& market_flags_ok(*self) && !has_parsed_end(self.end_date) ==> b
                    &&& exists|now: Instant| b == market_active_at(*self, now)
                },
                Err(e) => e is ClockOutOfRange,
            },
    {
        match utc_now() {
            Some(now) => Ok(self.is_active_market_at(now)),
            None => Err(PolymarketError::ClockOutOfRange),
        }
    }

    /// A copy of the market.
    pub fn duplicate(&self) -> (r: Market)
        ensures
            r@ == self@,
    {
        Market {
            id: self.id.clone(),
            question: copy_opt_string(&self.question),
            slug: copy_opt_string(&self.slug),
            liquidity: copy_opt_string(&self.liquidity),
            volume: copy_opt_string(&self.volume),
            outcomes: copy_opt_string(&self.outcomes),
            description: copy_opt_string(&self.description),
            active: self.active,
            closed: self.closed,
            outcomes_formatted: copy_opt_strings(&self.outcomes_formatted),
            clob_token_ids_formatted: copy_opt_strings(&self.clob_token_ids_formatted),
            start_date: copy_opt_string(&self.start_date),
            end_date: copy_opt_string(&self.end_date),
            condition_id: copy_opt_string(&self.condition_id),
            question_id: copy_opt_string(&self.question_id),
            updated_at: copy_opt_string(&self.updated_at),
            enable_order_book: self.enable_order_book,
            clob_token_ids: copy_opt_string(&self.clob_token_ids),
            accepting_orders: self.accepting_orders,
            uma_resolution_status: copy_opt_string(&self.uma_resolution_status),
        }
    }
}

/// Copies an optional list of strings.
pub fn copy_opt_strings(v: &Option<Vec<String>>) -> (r: Option<Vec<String>>)
    ensures
        r.deep_view() == v.deep_view(),
{
    match v {
        Some(x) => {
            let c = copy_strings(x);
            proof {
                assert(c.deep_view() =~= x.deep_view());
            }
            Some(c)
        },
        None => None,
    }
}

impl Default for Market {
    /// A market with an empty id and every optional field absent.
    fn default() -> (r: Market)
        ensures
            r.id@ == Seq::<char>::empty(),
            r.question is None,
            r.slug is None,
            r.liquidity is None,
            r.volume is None,
            r.outcomes is None,
            r.description is None,
            r.active is None,
            r.closed is None,
            r.outcomes_formatted is None,
            r.clob_token_ids_formatted is None,
            r.start_date is None,
            r.end_date is None,
            r.condition_id is None,
            r.question_id is None,
            r.updated_at is None,
            r.enable_order_book is None,
            r.clob_token_ids is None,
            r.accepting_orders is None,
            r.uma_resolution_status is None,
    {
        Market {
            id: String::new(),
            question: None,
            slug: None,
            liquidity: None,
            volume: None,
            outcomes: None,
            description: None,
            active: None,
            closed: None,
            outcomes_formatted: None,
            clob_token_ids_formatted: None,
            start_date: None,
            end_date: None,
            condition_id: None,
            question_id: None,
            updated_at: None,
            enable_order_book: None,
            clob_token_ids: None,
            accepting_orders: None,
            uma_resolution_status: None,
        }
    }
}

/// Filling a parsed list a second time changes nothing.
pub proof fn law_formatted_idempotent(current: Option<Seq<Seq<char>>>, raw: Option<String>)
    ensures
        formatted_after(formatted_after(current, raw), raw) == formatted_after(current, raw),
{
}

/// Once a market with all its flags set is inactive (past its end date), it
/// stays inactive at every later instant.
pub proof fn law_expiry_is_permanent(m: Market, now: Instant, later: Instant)
    requires
        at_or_before(now, later),
    ensures
        !market_active_at(m, now) && market_flags_ok(m) ==> !market_active_at(m, later),
{
}

} // verus!
