use vstd::prelude::*;

use crate::constants::SHARE_PAYOFF_USD;
use crate::fixed::SizeU32;
use crate::levels::{levels_map, valid_side, Level};
use crate::manager::{
    all_snapshots, single_snapshot, snapshot_map_models, snapshot_model, PolymarketManager, SnapshotModel,
};
use crate::orderbook::{best_ask_price_of, best_ask_size_of, law_best_ask_is_lowest, Orderbook};
use crate::orderbook_manager::{book_state, BookState};
use crate::snapshot::{ask_sum_of, is_arbitrage_of, profit_of, volume_of, BinaryMarketSnapshot};
use crate::strmap::{string_views, StrMap};

verus! {

/// What scanning one market finds.
#[derive(Debug, Clone, Copy, PartialEq, Eq, Structural)]
pub enum ScanOutcome {
    /// No snapshot could be built (not a binary market, or a book is missing or empty).
    NotEnoughData,
    /// An arbitrage whose estimated profit exceeds the threshold.
    Opportunity { profit: u64, size: SizeU32 },
    /// An arbitrage whose estimated profit does not exceed the threshold.
    BelowThreshold { profit: u64, size: SizeU32 },
    /// No arbitrage; the sum of the best asks (`None` when a side has no ask).
    NoArbitrage { best_ask_sum: Option<u64> },
}

/// Lowest price of a side (`None` when it is empty).
#[verifier::opaque]
pub open spec fn lowest_price(m: Map<u32, u32>) -> Option<u32> {
    if m.dom().is_empty() {
        None
    } else {
        Some(choose|p: u32| m.contains_key(p) && forall|q: u32| #[trigger] m.contains_key(q) ==> p <= q)
    }
}

/// Size resting at the lowest price (0 when the side is empty).
pub open spec fn lowest_size(m: Map<u32, u32>) -> u32 {
    match lowest_price(m) {
        Some(p) => m[p],
        None => 0,
    }
}

/// Sum of the best ask prices of two book states; `None` when either has no ask.
pub open spec fn state_ask_sum(yes: BookState, no: BookState) -> Option<int> {
    match (lowest_price(yes.1), lowest_price(no.1)) {
        (Some(a), Some(b)) => Some(a + b),
        _ => None,
    }
}

/// Buying a YES and a NO share at the best asks costs less than their payout.
pub open spec fn state_is_arbitrage(yes: BookState, no: BookState) -> bool {
    state_ask_sum(yes, no) matches Some(s) && s < SHARE_PAYOFF_USD
}

/// Pairs available at both best asks.
pub open spec fn state_volume(yes: BookState, no: BookState) -> int {
    let a = lowest_size(yes.1);
    let b = lowest_size(no.1);
    if a < b {
        a as int
    } else {
        b as int
    }
}

/// Estimated profit of buying the available pairs (0 without arbitrage).
pub open spec fn state_profit(yes: BookState, no: BookState) -> int {
    if state_is_arbitrage(yes, no) {
        state_volume(yes, no) * (SHARE_PAYOFF_USD - state_ask_sum(yes, no)->0)
    } else {
        0
    }
}

/// The volume of two book states is the smaller of their best-ask sizes: at
/// most the size resting at each lowest ask, and equal to one of them.
pub proof fn law_state_volume_is_smaller_best_ask(yes: BookState, no: BookState)
    ensures
        state_volume(yes, no) <= lowest_size(yes.1),
        state_volume(yes, no) <= lowest_size(no.1),
        state_volume(yes, no) == lowest_size(yes.1) || state_volume(yes, no) == lowest_size(no.1),
{
}

/// What a scan of the two books of a market finds, for a profit threshold.
pub open spec fn assess(yes: BookState, no: BookState, min_profit: u64) -> ScanOutcome {
    if state_is_arbitrage(yes, no) {
        let profit = state_profit(yes, no) as u64;
        let size = SizeU32(state_volume(yes, no) as u32);
        if state_profit(yes, no) > min_profit {
            ScanOutcome::Opportunity { profit, size }
        } else {
            ScanOutcome::BelowThreshold { profit, size }
        }
    } else {
        ScanOutcome::NoArbitrage {
            best_ask_sum: match state_ask_sum(yes, no) {
                Some(s) => Some(s as u64),
                None => None,
            },
        }
    }
}

proof fn lemma_lowest_of_side(s: Seq<Level>)
    requires
        valid_side(s),
    ensures
        lowest_price(levels_map(s)) == best_ask_price_of(s),
        lowest_size(levels_map(s)) == best_ask_size_of(s),
{
    reveal(lowest_price);
    law_best_ask_is_lowest(s);
    let m = levels_map(s);
    if s.len() > 0 {
        let b = s[0].0.0;
        assert(m.contains_key(b) && forall|q: u32| #[trigger] m.contains_key(q) ==> b <= q);
        let p = choose|p: u32| m.contains_key(p) && forall|q: u32| #[trigger] m.contains_key(q) ==> p <= q;
        assert(p <= b);
        assert(b <= p);
    }
}

/// The arbitrage figures of two well-formed books depend only on their states.
pub proof fn lemma_books_match_states(yes: Orderbook, no: Orderbook)
    requires
        yes.wf(),
        no.wf(),
    ensures
        ask_sum_of(yes, no) == state_ask_sum(book_state(yes), book_state(no)),
        is_arbitrage_of(yes, no) == state_is_arbitrage(book_state(yes), book_state(no)),
        volume_of(yes, no) == state_volume(book_state(yes), book_state(no)),
        profit_of(yes, no) == state_profit(book_state(yes), book_state(no)),
{
    yes.lemma_wf_sides();
    no.lemma_wf_sides();
    lemma_lowest_of_side(yes@.asks);
    lemma_lowest_of_side(no@.asks);
}

/// Scans binary markets for YES+NO arbitrage, reporting those whose estimated
/// profit exceeds a threshold (profit in price units times size units).
#[derive(Debug)]
pub struct Scout {
    min_profit_usd: u64,
}

impl Scout {
    /// The profit threshold.
    pub closed spec fn min_profit(&self) -> u64 {
        self.min_profit_usd
    }

    pub fn new(min_profit_usd: u64) -> (r: Self)
        ensures
            r.min_profit() == min_profit_usd,
    {
        Scout { min_profit_usd }
    }

    /// What a snapshot shows: arbitrage above or below the threshold (with the
    /// estimated profit and volume), or none (with the sum of the best asks).
    pub fn assess_snapshot(&self, snapshot: &BinaryMarketSnapshot) -> (r: ScanOutcome)
        requires
            snapshot.wf(),
        ensures
            r == assess(
                book_state(snapshot.orderbooks@[0]),
                book_state(snapshot.orderbooks@[1]),
                self.min_profit(),
            ),
    {
        proof {
            lemma_books_match_states(snapshot.orderbooks@[0], snapshot.orderbooks@[1]);
        }
        if snapshot.is_arbitrage_opportunity() {
            let profit = snapshot.estimated_profit_usd();
            let size = snapshot.arbitrage_volume_usd();
            if profit > self.min_profit_usd {
                ScanOutcome::Opportunity { profit, size }
            } else {
                ScanOutcome::BelowThreshold { profit, size }
            }
        } else {
            ScanOutcome::NoArbitrage { best_ask_sum: snapshot.best_ask_sum() }
        }
    }

    /// Scans one market: no data when its snapshot cannot be built, else what
    /// its two books show.
    pub fn scan_single_market(&self, manager: &PolymarketManager, market_id: &str) -> (r: ScanOutcome)
        requires
            manager.wf(),
        ensures
            match single_snapshot(manager.index(), manager.books(), market_id@) {
                Ok(m) => r == assess(m.6, m.7, self.min_profit()),
                Err(_) => r == ScanOutcome::NotEnoughData,
            },
    {
        match manager.generate_single_binary_market_snapshot(market_id) {
            Ok(snapshot) => self.assess_snapshot(&snapshot),
            Err(_) => ScanOutcome::NotEnoughData,
        }
    }

    /// Every buildable binary market with an arbitrage, with its estimated
    /// profit and volume, each market once.
    pub fn scan_opportunities_intra_binary_market(&self, manager: &PolymarketManager) -> (r: Vec<
        (String, u64, SizeU32),
    >)
        requires
            manager.wf(),
        ensures
            ({
                let all = all_snapshots(manager.index(), manager.books());
                &&& forall|i: int|
                    0 <= i < r@.len() ==> {
                        let id = (#[trigger] r@[i]).0@;
                        &&& all.contains_key(id)
                        &&& state_is_arbitrage(all[id].6, all[id].7)
                        &&& r@[i].1 == state_profit(all[id].6, all[id].7)
                        &&& r@[i].2.0 == state_volume(all[id].6, all[id].7)
                    }
                &&& forall|id: Seq<char>|
                    #[trigger] all.contains_key(id) && state_is_arbitrage(all[id].6, all[id].7)
                        ==> exists|i: int| 0 <= i < r@.len() && (#[trigger] r@[i]).0@ == id
                &&& forall|i: int, j: int| 0 <= i < j < r@.len() ==> (#[trigger] r@[i]).0@ != (#[trigger] r@[j]).0@
            }),
    {
        let snaps = manager.generate_binary_market_snapshots();
        let ghost all = all_snapshots(manager.index(), manager.books());
        let ghost keys = snaps.key_seq();
        let ghost vals = snaps.value_seq();
        proof {
            snaps.lemma_model();
            assert forall|j: int| 0 <= j < keys.len() implies all.contains_key(#[trigger] keys[j])
                && all[keys[j]] == snapshot_model(vals[j]) && vals[j].wf() by {
                assert(snaps.model().contains_key(keys[j]));
                assert(snaps.model()[keys[j]] == vals[j]);
                assert(vals[j].wf());
            }
        }
        let n = snaps.len();
        let mut r: Vec<(String, u64, SizeU32)> = Vec::new();
        let mut k: usize = 0;
        proof {
            assert(keys.take(0) =~= Seq::<Seq<char>>::empty());
            assert(r@.map_values(|e: (String, u64, SizeU32)| entry_view(e)) =~= arb_entries(keys.take(0), all));
        }
        while k < n
            invariant
                snaps.wf(),
                keys == snaps.key_seq(),
                vals == snaps.value_seq(),
                n == keys.len(),
                n == vals.len(),
                0 <= k <= n,
                forall|j: int| 0 <= j < keys.len() ==> all.contains_key(#[trigger] keys[j])
                    && all[keys[j]] == snapshot_model(vals[j]) && vals[j].wf(),
                r@.map_values(|e: (String, u64, SizeU32)| entry_view(e)) == arb_entries(keys.take(k as int), all),
            decreases n - k,
        {
            let id = snaps.key_at(k);
            let s = snaps.value_at(k);
            proof {
                assert(all.contains_key(keys[k as int]));
            }
            proof {
                lemma_entries_step(keys, all, k as int, *s);
            }
            if s.is_arbitrage_opportunity() {
                let profit = s.estimated_profit_usd();
                let size = s.arbitrage_volume_usd();
                let ghost r0 = r@;
                r.push((id.clone(), profit, size));
                proof {
                    assert(r@.map_values(|e: (String, u64, SizeU32)| entry_view(e)) =~= r0.map_values(
                        |e: (String, u64, SizeU32)| entry_view(e),
                    ).push(entry_view(r@[r@.len() - 1])));
                }
            }
            k = k + 1;
        }
        proof {
            assert(keys.take(n as int) =~= keys);
            lemma_arb_entries(keys, all);
            let v = r@.map_values(|e: (String, u64, SizeU32)| entry_view(e));
            assert forall|i: int| 0 <= i < r@.len() implies ({
                let id = (#[trigger] r@[i]).0@;
                &&& all.contains_key(id)
                &&& state_is_arbitrage(all[id].6, all[id].7)
                &&& r@[i].1 == state_profit(all[id].6, all[id].7)
                &&& r@[i].2.0 == state_volume(all[id].6, all[id].7)
            }) by {
                assert(v[i] == entry_view(r@[i]));
                let j = choose|j: int| 0 <= j < keys.len() && keys[j] == v[i].0;
                assert(all.contains_key(keys[j]));
                reveal(opportunity_of);
            }
            assert forall|id: Seq<char>|
                #[trigger] all.contains_key(id) && state_is_arbitrage(all[id].6, all[id].7)
                implies exists|i: int| 0 <= i < r@.len() && (#[trigger] r@[i]).0@ == id by {
                assert(snaps.model().contains_key(id));
                let j = choose|j: int| 0 <= j < keys.len() && keys[j] == id;
                assert(opportunity_of(all[keys[j]]) is Some) by {
                    reveal(opportunity_of);
                }
                let i = choose|i: int| 0 <= i < v.len() && v[i].0 == keys[j];
                assert(v[i] == entry_view(r@[i]));
            }
            assert forall|i: int, j: int| 0 <= i < j < r@.len() implies (#[trigger] r@[i]).0@ != (#[trigger] r@[j]).0@ by {
                assert(v[i] == entry_view(r@[i]));
                assert(v[j] == entry_view(r@[j]));
            }
        }
        r
    }
}

/// An opportunity by its model: market id, profit, volume.
pub open spec fn entry_view(e: (String, u64, SizeU32)) -> (Seq<char>, int, int) {
    (e.0@, e.1 as int, e.2.0 as int)
}

/// The profit and volume of an arbitrage in a snapshot, or `None`.
#[verifier::opaque]
pub open spec fn opportunity_of(m: SnapshotModel) -> Option<(int, int)> {
    if state_is_arbitrage(m.6, m.7) {
        Some((state_profit(m.6, m.7), state_volume(m.6, m.7)))
    } else {
        None
    }
}

/// The opportunities among the listed markets, in order.
pub open spec fn arb_entries(keys: Seq<Seq<char>>, all: Map<Seq<char>, SnapshotModel>) -> Seq<(Seq<char>, int, int)>
    decreases keys.len(),
{
    if keys.len() == 0 {
        Seq::empty()
    } else {
        let rest = arb_entries(keys.drop_last(), all);
        let id = keys.last();
        match opportunity_of(all[id]) {
            Some(o) => rest.push((id, o.0, o.1)),
            None => rest,
        }
    }
}

proof fn lemma_entries_step(keys: Seq<Seq<char>>, all: Map<Seq<char>, SnapshotModel>, k: int, s: BinaryMarketSnapshot)
    requires
        0 <= k < keys.len(),
        all.contains_key(keys[k]),
        all[keys[k]] == snapshot_model(s),
        s.wf(),
    ensures
        arb_entries(keys.take(k + 1), all) == if is_arbitrage_of(s.orderbooks@[0], s.orderbooks@[1]) {
            arb_entries(keys.take(k), all).push(
                (keys[k], profit_of(s.orderbooks@[0], s.orderbooks@[1]), volume_of(s.orderbooks@[0], s.orderbooks@[1])),
            )
        } else {
            arb_entries(keys.take(k), all)
        },
{
    lemma_books_match_states(s.orderbooks@[0], s.orderbooks@[1]);
    reveal(opportunity_of);
    assert(keys.take(k + 1).drop_last() =~= keys.take(k));
    assert(keys.take(k + 1).last() == keys[k]);
}

proof fn lemma_arb_entries(keys: Seq<Seq<char>>, all: Map<Seq<char>, SnapshotModel>)
    requires
        keys.no_duplicates(),
    ensures
        ({
            let v = arb_entries(keys, all);
            &&& forall|i: int|
                0 <= i < v.len() ==> keys.contains((#[trigger] v[i]).0) && opportunity_of(all[v[i].0])
                    == Some((v[i].1, v[i].2))
            &&& forall|j: int|
                0 <= j < keys.len() && opportunity_of(all[keys[j]]) is Some ==> exists|i: int|
                    0 <= i < v.len() && (#[trigger] v[i]).0 == #[trigger] keys[j]
            &&& forall|i: int, j: int| 0 <= i < j < v.len() ==> (#[trigger] v[i]).0 != (#[trigger] v[j]).0
        }),
    decreases keys.len(),
{
    if keys.len() > 0 {
        let d = keys.drop_last();
        assert(d.no_duplicates()) by {
            assert forall|i: int, j: int| 0 <= i < j < d.len() implies d[i] != d[j] by {
                assert(d[i] == keys[i] && d[j] == keys[j]);
            }
        }
        lemma_arb_entries(d, all);
        let rest = arb_entries(d, all);
        let v = arb_entries(keys, all);
        let id = keys.last();
        assert forall|i: int| 0 <= i < rest.len() implies (#[trigger] rest[i]).0 != id by {
            let j = choose|j: int| 0 <= j < d.len() && d[j] == rest[i].0;
            assert(keys[j] == d[j]);
            assert(keys[keys.len() - 1] == id);
        }
        assert forall|i: int| 0 <= i < v.len() implies keys.contains((#[trigger] v[i]).0) && opportunity_of(all[v[i].0])
            == Some((v[i].1, v[i].2)) by {
            if i < rest.len() {
                assert(v[i] == rest[i]);
                let j = choose|j: int| 0 <= j < d.len() && d[j] == rest[i].0;
                assert(keys[j] == d[j]);
            } else {
                assert(keys[keys.len() - 1] == id);
            }
        }
        assert forall|j: int|
            0 <= j < keys.len() && opportunity_of(all[keys[j]]) is Some implies exists|i: int|
                0 <= i < v.len() && (#[trigger] v[i]).0 == #[trigger] keys[j] by {
            if j < keys.len() - 1 {
                assert(keys[j] == d[j]);
                let i = choose|i: int| 0 <= i < rest.len() && (#[trigger] rest[i]).0 == d[j];
                assert(v[i] == rest[i]);
            } else {
                assert(v[v.len() - 1].0 == keys[j]);
            }
        }
        assert forall|i: int, j: int| 0 <= i < j < v.len() implies (#[trigger] v[i]).0 != (#[trigger] v[j]).0 by {
            if j < rest.len() {
                assert(v[i] == rest[i] && v[j] == rest[j]);
            } else {
                assert(v[i] == rest[i]);
            }
        }
    }
}

} // verus!
