use vstd::prelude::*;

use crate::constants::SHARE_PAYOFF_USD;
use crate::fixed::SizeU32;
use crate::levels::valid_side;
use crate::orderbook::{best_ask_price_of, best_ask_size_of, Orderbook};

verus! {

/// Both order books of a binary (YES/NO) market at one moment.
#[derive(Debug)]
pub struct BinaryMarketSnapshot {
    pub market_id: String,
    pub platform: String,
    pub asset_ids: [String; 2],
    pub outcomes: [String; 2],
    pub orderbooks: [Orderbook; 2],
}

/// Sum of the best ask prices of two books; `None` (an infinite sum) when
/// either book has no ask.
pub open spec fn ask_sum_of(yes: Orderbook, no: Orderbook) -> Option<int> {
    match (best_ask_price_of(yes@.asks), best_ask_price_of(no@.asks)) {
        (Some(a), Some(b)) => Some(a + b),
        _ => None,
    }
}

/// Buying one YES and one NO share at the best asks costs less than their payout.
pub open spec fn is_arbitrage_of(yes: Orderbook, no: Orderbook) -> bool {
    ask_sum_of(yes, no) matches Some(s) && s < SHARE_PAYOFF_USD
}

/// Pairs available at both best asks: the smaller of the two best-ask sizes.
pub open spec fn volume_of(yes: Orderbook, no: Orderbook) -> int {
    let a = best_ask_size_of(yes@.asks);
    let b = best_ask_size_of(no@.asks);
    if a < b {
        a as int
    } else {
        b as int
    }
}

/// Estimated profit: volume times the edge below the payout, never negative.
pub open spec fn profit_of(yes: Orderbook, no: Orderbook) -> int {
    if is_arbitrage_of(yes, no) {
        volume_of(yes, no) * (SHARE_PAYOFF_USD - ask_sum_of(yes, no)->0)
    } else {
        0
    }
}

impl BinaryMarketSnapshot {
    /// Both books are well formed.
    pub open spec fn wf(&self) -> bool {
        self.orderbooks@[0].wf() && self.orderbooks@[1].wf()
    }

    pub fn new(
        market_id: String,
        platform: String,
        asset_ids: [String; 2],
        outcomes: [String; 2],
        orderbooks: [Orderbook; 2],
    ) -> (res: Self)
        ensures
            res.market_id == market_id,
            res.platform == platform,
            res.asset_ids == asset_ids,
            res.outcomes == outcomes,
            res.orderbooks == orderbooks,
    {
        BinaryMarketSnapshot { market_id, platform, asset_ids, outcomes, orderbooks }
    }

    /// The YES book.
    pub fn yes(&self) -> (r: &Orderbook)
        ensures
            *r == self.orderbooks@[0],
    {
        &self.orderbooks[0]
    }

    /// The NO book.
    pub fn no(&self) -> (r: &Orderbook)
        ensures
            *r == self.orderbooks@[1],
    {
        &self.orderbooks[1]
    }

    /// True when the two best asks sum to less than the payout of a share pair.
    pub fn is_arbitrage_opportunity(&self) -> (r: bool)
        requires
            self.wf(),
        ensures
            r == is_arbitrage_of(self.orderbooks@[0], self.orderbooks@[1]),
    {
        match self.best_ask_sum() {
            Some(s) => s < SHARE_PAYOFF_USD,
            None => false,
        }
    }

    /// Sum of the best ask prices (fixed-point); `None` stands for an infinite
    /// sum, when either side has no ask.
    pub fn best_ask_sum(&self) -> (r: Option<u64>)
        requires
            self.wf(),
        ensures
            match r {
                Some(s) => ask_sum_of(self.orderbooks@[0], self.orderbooks@[1]) == Some(s as int),
                None => ask_sum_of(self.orderbooks@[0], self.orderbooks@[1]) is None,
            },
    {
        match (self.yes().best_ask_price(), self.no().best_ask_price()) {
            (Some(a), Some(b)) => Some(a.0 as u64 + b.0 as u64),
            _ => None,
        }
    }

    /// Number of share pairs available at both best asks (fixed-point size).
    pub fn arbitrage_volume_usd(&self) -> (r: SizeU32)
        requires
            self.wf(),
        ensures
            r.0 == volume_of(self.orderbooks@[0], self.orderbooks@[1]),
            r.0 <= best_ask_size_of(self.orderbooks@[0]@.asks),
            r.0 <= best_ask_size_of(self.orderbooks@[1]@.asks),
            r.0 == best_ask_size_of(self.orderbooks@[0]@.asks) || r.0 == best_ask_size_of(
                self.orderbooks@[1]@.asks,
            ),
    {
        let a = self.yes().best_ask_size();
        let b = self.no().best_ask_size();
        if a.0 < b.0 {
            a
        } else {
            b
        }
    }

    /// Estimated profit of buying the volume on both sides, in price units times
    /// size units (twelve decimals); 0 when there is no opportunity.
    pub fn estimated_profit_usd(&self) -> (r: u64)
        requires
            self.wf(),
        ensures
            r == profit_of(self.orderbooks@[0], self.orderbooks@[1]),
    {
        let volume = self.arbitrage_volume_usd();
        match self.best_ask_sum() {
            Some(s) => {
                if s < SHARE_PAYOFF_USD {
                    let edge = SHARE_PAYOFF_USD - s;
                    proof {
                        assert((volume.0 as int) * (edge as int) <= (u32::MAX as int) * (
                        SHARE_PAYOFF_USD as int)) by (nonlinear_arith)
                            requires
                                0 <= volume.0 <= u32::MAX,
                                0 <= edge <= SHARE_PAYOFF_USD,
                        ;
                    }
                    (volume.0 as u64) * edge
                } else {
                    0
                }
            },
            None => 0,
        }
    }
}

/// Profit is positive exactly on an arbitrage opportunity, and a book without
/// asks never makes one.
pub proof fn law_profit_iff_arbitrage(yes: Orderbook, no: Orderbook)
    requires
        yes.wf(),
        no.wf(),
    ensures
        profit_of(yes, no) > 0 <==> is_arbitrage_of(yes, no),
        profit_of(yes, no) >= 0,
        yes@.asks.len() == 0 || no@.asks.len() == 0 ==> !is_arbitrage_of(yes, no) && profit_of(
            yes,
            no,
        ) == 0,
{
    yes.lemma_wf_sides();
    no.lemma_wf_sides();
    if is_arbitrage_of(yes, no) {
        assert(valid_side(yes@.asks));
        assert(yes@.asks[0].1.0 > 0);
        assert(no@.asks[0].1.0 > 0);
        let v = volume_of(yes, no);
        let e = SHARE_PAYOFF_USD - ask_sum_of(yes, no)->0;
        assert(v * e > 0) by (nonlinear_arith)
            requires
                v > 0,
                e > 0,
        ;
    }
}

/// The arbitrage volume is the smaller of the two best-ask sizes: at most the
/// size resting at each book's best ask, and equal to one of them.
pub proof fn law_volume_is_smaller_best_ask(yes: Orderbook, no: Orderbook)
    ensures
        volume_of(yes, no) <= best_ask_size_of(yes@.asks),
        volume_of(yes, no) <= best_ask_size_of(no@.asks),
        volume_of(yes, no) == best_ask_size_of(yes@.asks) || volume_of(yes, no) == best_ask_size_of(
            no@.asks,
        ),
{
}

} // verus!
