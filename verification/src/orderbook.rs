use vstd::prelude::*;

use crate::fixed::{PriceU32, SizeU32};
use crate::levels::{
    Level, insert_level, levels_map, remove_level, valid_side,
};

verus! {

/// A level as it arrives from the feed once its price and size went through the
/// fixed-point conversion: `None` where the conversion failed.
pub type RawLevel = (Option<PriceU32>, Option<SizeU32>);

/// In-memory orderbook for a single asset.
///
/// Fields are private on purpose: the cached `best_*` values must stay in sync
/// with the `bids`/`asks` levels, and that invariant (`wf`) is established by
/// `new` and kept by `apply_delta`. Read access goes through the accessors.
#[derive(Debug)]
pub struct Orderbook {
    bids: Vec<Level>,
    asks: Vec<Level>,
    best_bid_price: PriceU32,
    best_ask_price: Option<PriceU32>,
    best_bid_size: SizeU32,
    best_ask_size: SizeU32,
    timestamp: String,
    asset_id: String,
    market: String,
    hash: String,
}

/// Mathematical model of an order book: both sides as sorted level sequences,
/// and its metadata strings.
pub struct OrderbookView {
    pub bids: Seq<Level>,
    pub asks: Seq<Level>,
    pub timestamp: Seq<char>,
    pub asset_id: Seq<char>,
    pub market: Seq<char>,
    pub hash: Seq<char>,
}

impl View for Orderbook {
    type V = OrderbookView;

    closed spec fn view(&self) -> OrderbookView {
        OrderbookView {
            bids: self.bids@,
            asks: self.asks@,
            timestamp: self.timestamp@,
            asset_id: self.asset_id@,
            market: self.market@,
            hash: self.hash@,
        }
    }
}

/// Best (highest) bid price of a side; 0 when the side is empty.
pub open spec fn best_bid_price_of(s: Seq<Level>) -> u32 {
    if s.len() == 0 {
        0
    } else {
        s.last().0.0
    }
}

/// Size resting at the best bid; 0 when the side is empty.
pub open spec fn best_bid_size_of(s: Seq<Level>) -> u32 {
    if s.len() == 0 {
        0
    } else {
        s.last().1.0
    }
}

/// Best (lowest) ask price of a side; `None` (no finite price) when empty.
pub open spec fn best_ask_price_of(s: Seq<Level>) -> Option<u32> {
    if s.len() == 0 {
        None
    } else {
        Some(s[0].0.0)
    }
}

/// Size resting at the best ask; 0 when the side is empty.
pub open spec fn best_ask_size_of(s: Seq<Level>) -> u32 {
    if s.len() == 0 {
        0
    } else {
        s[0].1.0
    }
}

/// Whether a raw level carries a usable price and size.
pub open spec fn raw_is_priced(l: RawLevel) -> bool {
    l.0 is Some && l.1 is Some
}

/// Price carried by a raw level (0 when it has none).
pub open spec fn raw_price(l: RawLevel) -> u32 {
    match l.0 {
        Some(p) => p.0,
        None => 0,
    }
}

/// Size carried by a raw level (0 when it has none).
pub open spec fn raw_size(l: RawLevel) -> u32 {
    match l.1 {
        Some(s) => s.0,
        None => 0,
    }
}

/// The side built from a snapshot: each usable level with a positive size sets
/// its price (a later level for the same price wins); the others are dropped.
pub open spec fn build_side(raw: Seq<RawLevel>) -> Map<u32, u32>
    decreases raw.len(),
{
    if raw.len() == 0 {
        Map::empty()
    } else {
        let m = build_side(raw.drop_last());
        let l = raw.last();
        if raw_is_priced(l) && raw_size(l) > 0 {
            m.insert(raw_price(l), raw_size(l))
        } else {
            m
        }
    }
}

/// One delta level applied to a side: a positive size sets the price, a zero
/// size removes it, an unusable level is skipped.
pub open spec fn apply_level_delta(m: Map<u32, u32>, l: RawLevel) -> Map<u32, u32> {
    if raw_is_priced(l) {
        if raw_size(l) > 0 {
            m.insert(raw_price(l), raw_size(l))
        } else {
            m.remove(raw_price(l))
        }
    } else {
        m
    }
}

/// A sequence of delta levels applied in order.
pub open spec fn apply_side_delta(m: Map<u32, u32>, raw: Seq<RawLevel>) -> Map<u32, u32>
    decreases raw.len(),
{
    if raw.len() == 0 {
        m
    } else {
        apply_level_delta(apply_side_delta(m, raw.drop_last()), raw.last())
    }
}

/// Cost of filling `amount` by walking the levels in sequence order:
/// `None` when the levels run out first.
pub open spec fn fill_ascending(s: Seq<Level>, amount: int) -> Option<int>
    decreases s.len(),
{
    if amount <= 0 {
        Some(0)
    } else if s.len() == 0 {
        None
    } else {
        let take = if (s[0].1.0 as int) < amount {
            s[0].1.0 as int
        } else {
            amount
        };
        match fill_ascending(s.drop_first(), amount - take) {
            Some(c) => Some(c + take * s[0].0.0),
            None => None,
        }
    }
}

/// Cost of filling `amount` by walking the levels from the last one backwards.
pub open spec fn fill_descending(s: Seq<Level>, amount: int) -> Option<int>
    decreases s.len(),
{
    if amount <= 0 {
        Some(0)
    } else if s.len() == 0 {
        None
    } else {
        let take = if (s.last().1.0 as int) < amount {
            s.last().1.0 as int
        } else {
            amount
        };
        match fill_descending(s.drop_last(), amount - take) {
            Some(c) => Some(c + take * s.last().0.0),
            None => None,
        }
    }
}

/// Total size resting on a side.
pub open spec fn side_liquidity(s: Seq<Level>) -> int
    decreases s.len(),
{
    if s.len() == 0 {
        0
    } else {
        side_liquidity(s.drop_last()) + s.last().1.0
    }
}

spec fn add_cost(r: Option<int>, c: int) -> Option<int> {
    match r {
        Some(x) => Some(x + c),
        None => None,
    }
}

proof fn lemma_take_cost_bound(take: int, price: int, cost: int, done: int)
    requires
        0 <= take,
        0 <= price <= u32::MAX,
        0 <= cost <= done * (u32::MAX as int),
        0 <= done,
    ensures
        cost + take * price <= (done + take) * (u32::MAX as int),
        0 <= take * price,
{
    assert(take * price <= take * (u32::MAX as int)) by (nonlinear_arith)
        requires
            0 <= take,
            0 <= price <= u32::MAX,
    ;
    assert((done + take) * (u32::MAX as int) == done * (u32::MAX as int) + take * (
    u32::MAX as int)) by (nonlinear_arith);
    assert(0 <= take * price) by (nonlinear_arith)
        requires
            0 <= take,
            0 <= price,
    ;
}

proof fn lemma_amount_bound(amount: int)
    requires
        0 <= amount <= u64::MAX,
    ensures
        amount * (u32::MAX as int) <= u128::MAX,
{
    assert(amount * (u32::MAX as int) <= (u64::MAX as int) * (u32::MAX as int)) by (
    nonlinear_arith)
        requires
            0 <= amount <= u64::MAX,
    ;
}

/// Copies a side level by level.
fn copy_levels(v: &Vec<Level>) -> (res: Vec<Level>)
    ensures
        res@ == v@,
{
    let mut res: Vec<Level> = Vec::with_capacity(v.len());
    let mut i: usize = 0;
    while i < v.len()
        invariant
            0 <= i <= v@.len(),
            res@ == v@.take(i as int),
        decreases v@.len() - i,
    {
        let l = v[i];
        res.push(l);
        i = i + 1;
        proof {
            assert(v@.take(i as int) == v@.take(i - 1).push(l));
        }
    }
    proof {
        assert(v@.take(v@.len() as int) == v@);
    }
    res
}

/// Applies one delta level to a side.
fn apply_raw_level(v: &mut Vec<Level>, l: RawLevel)
    requires
        valid_side(old(v)@),
    ensures
        valid_side(final(v)@),
        levels_map(final(v)@) == apply_level_delta(levels_map(old(v)@), l),
{
    match l {
        (Some(price), Some(size)) => {
            if size.0 > 0 {
                insert_level(v, price.0, size.0);
            } else {
                remove_level(v, price.0);
            }
        },
        _ => {},
    }
}

/// Builds a side from snapshot levels.
fn build_levels(raw: &Vec<RawLevel>) -> (res: Vec<Level>)
    ensures
        valid_side(res@),
        levels_map(res@) == build_side(raw@),
{
    let mut res: Vec<Level> = Vec::new();
    let mut i: usize = 0;
    proof {
        assert(levels_map(res@) =~= Map::<u32, u32>::empty());
        assert(raw@.take(0) =~= Seq::<RawLevel>::empty());
    }
    while i < raw.len()
        invariant
            0 <= i <= raw@.len(),
            valid_side(res@),
            levels_map(res@) == build_side(raw@.take(i as int)),
        decreases raw@.len() - i,
    {
        let l = raw[i];
        match l {
            (Some(price), Some(size)) => {
                if size.0 > 0 {
                    insert_level(&mut res, price.0, size.0);
                }
            },
            _ => {},
        }
        proof {
            assert(raw@.take(i + 1).drop_last() == raw@.take(i as int));
        }
        i = i + 1;
    }
    proof {
        assert(raw@.take(raw@.len() as int) == raw@);
    }
    res
}

/// Applies a slice of delta levels to a side.
fn apply_levels(v: &mut Vec<Level>, raw: &[RawLevel])
    requires
        valid_side(old(v)@),
    ensures
        valid_side(final(v)@),
        levels_map(final(v)@) == apply_side_delta(levels_map(old(v)@), raw@),
{
    let ghost m0 = levels_map(v@);
    let mut i: usize = 0;
    proof {
        assert(raw@.take(0) =~= Seq::<RawLevel>::empty());
    }
    while i < raw.len()
        invariant
            0 <= i <= raw@.len(),
            valid_side(v@),
            levels_map(v@) == apply_side_delta(m0, raw@.take(i as int)),
        decreases raw@.len() - i,
    {
        apply_raw_level(v, raw[i]);
        proof {
            assert(raw@.take(i + 1).drop_last() == raw@.take(i as int));
        }
        i = i + 1;
    }
    proof {
        assert(raw@.take(raw@.len() as int) == raw@);
    }
}

impl Orderbook {
    /// The cached best levels agree with the sides, and both sides are valid.
    pub closed spec fn wf(&self) -> bool {
        &&& valid_side(self.bids@)
        &&& valid_side(self.asks@)
        &&& self.best_bid_price.0 == best_bid_price_of(self.bids@)
        &&& self.best_bid_size.0 == best_bid_size_of(self.bids@)
        &&& (match self.best_ask_price {
            Some(p) => best_ask_price_of(self.asks@) == Some(p.0),
            None => best_ask_price_of(self.asks@) is None,
        })
        &&& self.best_ask_size.0 == best_ask_size_of(self.asks@)
    }

    /// The bids as a map from price to size.
    pub open spec fn bids_map(&self) -> Map<u32, u32> {
        levels_map(self@.bids)
    }

    /// The asks as a map from price to size.
    pub open spec fn asks_map(&self) -> Map<u32, u32> {
        levels_map(self@.asks)
    }

    /// A well-formed book has valid sides.
    pub proof fn lemma_wf_sides(&self)
        requires
            self.wf(),
        ensures
            valid_side(self@.bids),
            valid_side(self@.asks),
    {
    }

    /// Builds a book from snapshot levels; levels whose price or size did not
    /// convert, or whose size is zero, are dropped.
    pub fn new(
        raw_bids: Vec<RawLevel>,
        raw_asks: Vec<RawLevel>,
        timestamp: String,
        asset_id: String,
        hash: String,
        market: String,
    ) -> (res: Self)
        ensures
            res.wf(),
            valid_side(res@.bids),
            valid_side(res@.asks),
            res.bids_map() == build_side(raw_bids@),
            res.asks_map() == build_side(raw_asks@),
            res@.timestamp == timestamp@,
            res@.asset_id == asset_id@,
            res@.hash == hash@,
            res@.market == market@,
    {
        let bids = build_levels(&raw_bids);
        let asks = build_levels(&raw_asks);
        let mut book = Orderbook {
            bids,
            asks,
            best_bid_price: PriceU32(0),
            best_ask_price: None,
            best_bid_size: SizeU32(0),
            best_ask_size: SizeU32(0),
            timestamp,
            asset_id,
            market,
            hash,
        };
        book.refresh_best_levels();
        book
    }

    /// Recomputes the cached best levels from the sides.
    fn refresh_best_levels(&mut self)
        requires
            valid_side(old(self).bids@),
            valid_side(old(self).asks@),
        ensures
            final(self).wf(),
            final(self)@ == old(self)@,
    {
        let nb = self.bids.len();
        if nb == 0 {
            self.best_bid_price = PriceU32(0);
            self.best_bid_size = SizeU32(0);
        } else {
            let (p, s) = self.bids[nb - 1];
            self.best_bid_price = p;
            self.best_bid_size = s;
        }
        if self.asks.len() == 0 {
            self.best_ask_price = None;
            self.best_ask_size = SizeU32(0);
        } else {
            let (p, s) = self.asks[0];
            self.best_ask_price = Some(p);
            self.best_ask_size = s;
        }
    }

    /// Best ask price; `None` when there is no ask (an infinite best ask).
    pub fn best_ask_price(&self) -> (r: Option<PriceU32>)
        requires
            self.wf(),
        ensures
            match r {
                Some(p) => best_ask_price_of(self@.asks) == Some(p.0),
                None => best_ask_price_of(self@.asks) is None,
            },
    {
        self.best_ask_price
    }

    /// Best bid price; 0 when there is no bid.
    pub fn best_bid_price(&self) -> (r: PriceU32)
        requires
            self.wf(),
        ensures
            r.0 == best_bid_price_of(self@.bids),
    {
        self.best_bid_price
    }

    /// Size at the best ask; 0 when there is no ask.
    pub fn best_ask_size(&self) -> (r: SizeU32)
        requires
            self.wf(),
        ensures
            r.0 == best_ask_size_of(self@.asks),
    {
        self.best_ask_size
    }

    /// Size at the best bid; 0 when there is no bid.
    pub fn best_bid_size(&self) -> (r: SizeU32)
        requires
            self.wf(),
        ensures
            r.0 == best_bid_size_of(self@.bids),
    {
        self.best_bid_size
    }

    /// True when the book has no orders on either side.
    pub fn is_empty(&self) -> (r: bool)
        ensures
            r == (self@.bids.len() == 0 && self@.asks.len() == 0),
            self.wf() ==> (r <==> (self.bids_map().dom().is_empty() && self.asks_map().dom().is_empty())),
    {
        proof {
            if self.wf() {
                law_best_ask_is_lowest(self@.bids);
                law_best_ask_is_lowest(self@.asks);
            }
        }
        self.bids.len() == 0 && self.asks.len() == 0
    }

    pub fn asset_id(&self) -> (r: &str)
        ensures
            r@ == self@.asset_id,
    {
        self.asset_id.as_str()
    }

    pub fn market(&self) -> (r: &str)
        ensures
            r@ == self@.market,
    {
        self.market.as_str()
    }

    pub fn timestamp(&self) -> (r: &str)
        ensures
            r@ == self@.timestamp,
    {
        self.timestamp.as_str()
    }

    pub fn hash(&self) -> (r: &str)
        ensures
            r@ == self@.hash,
    {
        self.hash.as_str()
    }

    /// Applies an incremental update: each side's delta levels in order, then
    /// the new timestamp and hash. The asset and market stay as they were.
    pub fn apply_delta(
        &mut self,
        delta_bids: &[RawLevel],
        delta_asks: &[RawLevel],
        new_timestamp: String,
        new_hash: String,
    )
        requires
            old(self).wf(),
        ensures
            final(self).wf(),
            final(self).bids_map() == apply_side_delta(old(self).bids_map(), delta_bids@),
            final(self).asks_map() == apply_side_delta(old(self).asks_map(), delta_asks@),
            final(self)@.timestamp == new_timestamp@,
            final(self)@.hash == new_hash@,
            final(self)@.asset_id == old(self)@.asset_id,
            final(self)@.market == old(self)@.market,
    {
        apply_levels(&mut self.bids, delta_bids);
        apply_levels(&mut self.asks, delta_asks);
        self.refresh_best_levels();
        self.timestamp = new_timestamp;
        self.hash = new_hash;
    }

    /// The bid levels, in increasing price order.
    pub fn get_bids(&self) -> (r: &Vec<Level>)
        ensures
            r@ == self@.bids,
    {
        &self.bids
    }

    /// The ask levels, in increasing price order.
    pub fn get_asks(&self) -> (r: &Vec<Level>)
        ensures
            r@ == self@.asks,
    {
        &self.asks
    }

    /// A copy of the book with the same levels and metadata.
    pub fn duplicate(&self) -> (res: Self)
        requires
            self.wf(),
        ensures
            res.wf(),
            res@ == self@,
    {
        Orderbook {
            bids: copy_levels(&self.bids),
            asks: copy_levels(&self.asks),
            best_bid_price: self.best_bid_price,
            best_ask_price: self.best_ask_price,
            best_bid_size: self.best_bid_size,
            best_ask_size: self.best_ask_size,
            timestamp: self.timestamp.clone(),
            asset_id: self.asset_id.clone(),
            market: self.market.clone(),
            hash: self.hash.clone(),
        }
    }

    /// Cost of filling `amount_in` (fixed-point size units) by walking the book
    /// from the best price: asks upwards for a buy, bids downwards for a sell.
    /// The cost is in price units times size units (twelve decimals). Returns
    /// `None` when there is not enough liquidity to fill the whole amount.
    pub fn get_total_cost(&self, amount_in: u64, is_buy: bool) -> (r: Option<u128>)
        requires
            self.wf(),
        ensures
            is_buy ==> match r {
                Some(c) => fill_ascending(self@.asks, amount_in as int) == Some(c as int),
                None => fill_ascending(self@.asks, amount_in as int) is None,
            },
            !is_buy ==> match r {
                Some(c) => fill_descending(self@.bids, amount_in as int) == Some(c as int),
                None => fill_descending(self@.bids, amount_in as int) is None,
            },
    {
        if is_buy {
            fill_cost_ascending(&self.asks, amount_in)
        } else {
            fill_cost_descending(&self.bids, amount_in)
        }
    }
}

fn fill_cost_ascending(s: &Vec<Level>, amount_in: u64) -> (r: Option<u128>)
    ensures
        match r {
            Some(c) => fill_ascending(s@, amount_in as int) == Some(c as int),
            None => fill_ascending(s@, amount_in as int) is None,
        },
{
    let mut remaining: u64 = amount_in;
    let mut cost: u128 = 0;
    let mut i: usize = 0;
    proof {
        assert(s@.skip(0) == s@);
        lemma_amount_bound(amount_in as int);
    }
    while i < s.len() && remaining > 0
        invariant
            0 <= i <= s@.len(),
            remaining <= amount_in,
            0 <= cost <= (amount_in - remaining) * (u32::MAX as int),
            amount_in * (u32::MAX as int) <= u128::MAX,
            fill_ascending(s@, amount_in as int) == add_cost(
                fill_ascending(s@.skip(i as int), remaining as int),
                cost as int,
            ),
        decreases s@.len() - i,
    {
        let (price, size) = s[i];
        let take: u64 = if (size.0 as u64) < remaining {
            size.0 as u64
        } else {
            remaining
        };
        proof {
            lemma_take_cost_bound(
                take as int,
                price.0 as int,
                cost as int,
                (amount_in - remaining) as int,
            );
            let t = s@.skip(i as int);
            assert(t[0] == s@[i as int]);
            assert(t.drop_first() == s@.skip(i + 1));
        }
        cost = cost + (take as u128) * (price.0 as u128);
        remaining = remaining - take;
        i = i + 1;
    }
    if remaining > 0 {
        None
    } else {
        Some(cost)
    }
}

fn fill_cost_descending(s: &Vec<Level>, amount_in: u64) -> (r: Option<u128>)
    ensures
        match r {
            Some(c) => fill_descending(s@, amount_in as int) == Some(c as int),
            None => fill_descending(s@, amount_in as int) is None,
        },
{
    let mut remaining: u64 = amount_in;
    let mut cost: u128 = 0;
    let mut i: usize = s.len();
    proof {
        assert(s@.take(s@.len() as int) == s@);
        lemma_amount_bound(amount_in as int);
    }
    while i > 0 && remaining > 0
        invariant
            0 <= i <= s@.len(),
            remaining <= amount_in,
            0 <= cost <= (amount_in - remaining) * (u32::MAX as int),
            amount_in * (u32::MAX as int) <= u128::MAX,
            fill_descending(s@, amount_in as int) == add_cost(
                fill_descending(s@.take(i as int), remaining as int),
                cost as int,
            ),
        decreases i,
    {
        let (price, size) = s[i - 1];
        let take: u64 = if (size.0 as u64) < remaining {
            size.0 as u64
        } else {
            remaining
        };
        proof {
            lemma_take_cost_bound(
                take as int,
                price.0 as int,
                cost as int,
                (amount_in - remaining) as int,
            );
            let t = s@.take(i as int);
            assert(t.last() == s@[i - 1]);
            assert(t.drop_last() == s@.take(i - 1));
        }
        cost = cost + (take as u128) * (price.0 as u128);
        remaining = remaining - take;
        i = i - 1;
    }
    if remaining > 0 {
        proof {
            assert(s@.take(0) =~= Seq::<Level>::empty());
        }
        None
    } else {
        Some(cost)
    }
}


/// Best bid = highest resting bid: no bid price exceeds it, and on a non-empty
/// side it is a resting price holding the cached size.
pub proof fn law_best_bid_is_highest(s: Seq<Level>)
    requires
        valid_side(s),
    ensures
        forall|p: u32| #[trigger] levels_map(s).contains_key(p) ==> p <= best_bid_price_of(s),
        s.len() > 0 ==> levels_map(s).contains_key(best_bid_price_of(s)) && levels_map(s)[best_bid_price_of(s)]
            == best_bid_size_of(s),
{
    assert forall|p: u32| #[trigger] levels_map(s).contains_key(p) implies p <= best_bid_price_of(s) by {
        let i = crate::levels::lemma_levels_map_has(s, p);
        if i < s.len() - 1 {
            assert(s[i].0.0 < s[s.len() - 1].0.0);
        }
    }
    if s.len() > 0 {
        crate::levels::lemma_levels_map_at(s, s.len() - 1);
    }
}

/// Best ask = lowest resting ask: no ask price is below it, and on a non-empty
/// side it is a resting price holding the cached size.
pub proof fn law_best_ask_is_lowest(s: Seq<Level>)
    requires
        valid_side(s),
    ensures
        forall|p: u32| #[trigger] levels_map(s).contains_key(p) ==> (best_ask_price_of(s) matches Some(b) && b <= p),
        s.len() > 0 ==> levels_map(s).contains_key(s[0].0.0) && levels_map(s)[s[0].0.0] == best_ask_size_of(s),
        s.len() == 0 <==> levels_map(s).dom().is_empty(),
{
    assert forall|p: u32| #[trigger] levels_map(s).contains_key(p) implies (best_ask_price_of(s) matches Some(b) && b <= p) by {
        let i = crate::levels::lemma_levels_map_has(s, p);
        if i > 0 {
            assert(s[0].0.0 < s[i].0.0);
        }
    }
    if s.len() > 0 {
        crate::levels::lemma_levels_map_at(s, 0);
        assert(levels_map(s).dom().contains(s[0].0.0));
    } else {
        assert(levels_map(s).dom() =~= Set::<u32>::empty());
    }
}

/// No resting level is empty: every price in a valid side holds a positive size.
pub proof fn law_no_empty_levels(s: Seq<Level>)
    requires
        valid_side(s),
    ensures
        forall|p: u32| #[trigger] levels_map(s).contains_key(p) ==> levels_map(s)[p] > 0,
{
    assert forall|p: u32| #[trigger] levels_map(s).contains_key(p) implies levels_map(s)[p] > 0 by {
        let i = crate::levels::lemma_levels_map_has(s, p);
        crate::levels::lemma_levels_map_at(s, i);
    }
}

/// What a delta says about price `p`: the size of the last usable delta level
/// at that price (zero meaning removal), or `None` when it does not name `p`.
pub open spec fn delta_effect(raw: Seq<RawLevel>, p: u32) -> Option<u32>
    decreases raw.len(),
{
    if raw.len() == 0 {
        None
    } else if raw_is_priced(raw.last()) && raw_price(raw.last()) == p {
        Some(raw_size(raw.last()))
    } else {
        delta_effect(raw.drop_last(), p)
    }
}

/// A delta decides each price by its last usable level at that price; prices it
/// does not name keep their size.
pub proof fn law_delta_pointwise(m: Map<u32, u32>, raw: Seq<RawLevel>, p: u32)
    ensures
        match delta_effect(raw, p) {
            Some(sz) => if sz > 0 {
                apply_side_delta(m, raw).contains_key(p) && apply_side_delta(m, raw)[p] == sz
            } else {
                !apply_side_delta(m, raw).contains_key(p)
            },
            None => apply_side_delta(m, raw).contains_key(p) == m.contains_key(p) && (m.contains_key(p)
                ==> apply_side_delta(m, raw)[p] == m[p]),
        },
    decreases raw.len(),
{
    if raw.len() > 0 {
        law_delta_pointwise(m, raw.drop_last(), p);
    }
}

/// Applying the same delta twice leaves the side as applying it once.
pub proof fn law_delta_idempotent(m: Map<u32, u32>, raw: Seq<RawLevel>)
    ensures
        apply_side_delta(apply_side_delta(m, raw), raw) == apply_side_delta(m, raw),
{
    let once = apply_side_delta(m, raw);
    let twice = apply_side_delta(once, raw);
    assert forall|p: u32| #[trigger] twice.contains_key(p) == once.contains_key(p) by {
        law_delta_pointwise(m, raw, p);
        law_delta_pointwise(once, raw, p);
    }
    assert forall|p: u32| #[trigger] twice.contains_key(p) implies twice[p] == once[p] by {
        law_delta_pointwise(m, raw, p);
        law_delta_pointwise(once, raw, p);
    }
    assert(twice =~= once);
}

proof fn lemma_liquidity_first(s: Seq<Level>)
    requires
        s.len() > 0,
    ensures
        side_liquidity(s) == s[0].1.0 + side_liquidity(s.drop_first()),
    decreases s.len(),
{
    if s.len() > 1 {
        lemma_liquidity_first(s.drop_last());
        assert(s.drop_last().drop_first() == s.drop_first().drop_last());
        assert(s.drop_first().last() == s.last());
        assert(s.drop_last()[0] == s[0]);
        assert(side_liquidity(s.drop_first()) == side_liquidity(s.drop_first().drop_last())
            + s.drop_first().last().1.0);
        assert(side_liquidity(s) == side_liquidity(s.drop_last()) + s.last().1.0);
        assert(side_liquidity(s.drop_last()) == s[0].1.0 + side_liquidity(s.drop_last().drop_first()));
    } else {
        assert(side_liquidity(s) == side_liquidity(s.drop_last()) + s.last().1.0);
        assert(side_liquidity(s.drop_last()) == 0);
        assert(side_liquidity(s.drop_first()) == 0);
        assert(s.drop_first().len() == 0);
        assert(s.drop_last().len() == 0);
        assert(s.last() == s[0]);
    }
}

proof fn lemma_liquidity_nonneg(s: Seq<Level>)
    ensures
        side_liquidity(s) >= 0,
    decreases s.len(),
{
    if s.len() > 0 {
        lemma_liquidity_nonneg(s.drop_last());
    }
}

/// A buy fills exactly when the asks hold at least the amount.
pub proof fn law_buy_fills_iff_liquidity(s: Seq<Level>, amount: int)
    requires
        amount >= 0,
    ensures
        fill_ascending(s, amount) is Some <==> side_liquidity(s) >= amount,
    decreases s.len(),
{
    lemma_liquidity_nonneg(s);
    if amount > 0 && s.len() > 0 {
        lemma_liquidity_first(s);
        let take = if (s[0].1.0 as int) < amount { s[0].1.0 as int } else { amount };
        law_buy_fills_iff_liquidity(s.drop_first(), amount - take);
        lemma_liquidity_nonneg(s.drop_first());
    }
}

/// A sell fills exactly when the bids hold at least the amount.
pub proof fn law_sell_fills_iff_liquidity(s: Seq<Level>, amount: int)
    requires
        amount >= 0,
    ensures
        fill_descending(s, amount) is Some <==> side_liquidity(s) >= amount,
    decreases s.len(),
{
    lemma_liquidity_nonneg(s);
    if amount > 0 && s.len() > 0 {
        let take = if (s.last().1.0 as int) < amount { s.last().1.0 as int } else { amount };
        law_sell_fills_iff_liquidity(s.drop_last(), amount - take);
        lemma_liquidity_nonneg(s.drop_last());
    }
}

proof fn lemma_fill_ascending_lower(s: Seq<Level>, amount: int, b: int)
    requires
        amount >= 0,
        b >= 0,
        forall|i: int| 0 <= i < s.len() ==> s[i].0.0 >= b,
        fill_ascending(s, amount) is Some,
    ensures
        fill_ascending(s, amount)->0 >= amount * b,
    decreases s.len(),
{
    if amount > 0 && s.len() > 0 {
        let take = if (s[0].1.0 as int) < amount { s[0].1.0 as int } else { amount };
        let rest = s.drop_first();
        assert forall|i: int| 0 <= i < rest.len() implies rest[i].0.0 >= b by {
            assert(rest[i] == s[i + 1]);
        }
        lemma_fill_ascending_lower(rest, amount - take, b);
        let c = fill_ascending(rest, amount - take)->0;
        let p = s[0].0.0 as int;
        assert(fill_ascending(s, amount) == Some(c + take * p));
        assert(c + take * p >= amount * b) by (nonlinear_arith)
            requires
                c >= (amount - take) * b,
                p >= b,
                take >= 0,
        ;
    } else {
        assert(amount == 0);
        assert(amount * b == 0);
    }
}

proof fn lemma_fill_descending_upper(s: Seq<Level>, amount: int, b: int)
    requires
        amount >= 0,
        forall|i: int| 0 <= i < s.len() ==> s[i].0.0 <= b,
        fill_descending(s, amount) is Some,
    ensures
        fill_descending(s, amount)->0 <= amount * b,
    decreases s.len(),
{
    if amount > 0 && s.len() > 0 {
        let take = if (s.last().1.0 as int) < amount { s.last().1.0 as int } else { amount };
        let rest = s.drop_last();
        lemma_fill_descending_upper(rest, amount - take, b);
        let c = fill_descending(rest, amount - take)->0;
        let p = s.last().0.0 as int;
        assert(fill_descending(s, amount) == Some(c + take * p));
        assert(c + take * p <= amount * b) by (nonlinear_arith)
            requires
                c <= (amount - take) * b,
                p <= b,
                take >= 0,
        ;
    } else {
        assert(amount == 0);
        assert(amount * b == 0);
    }
}

/// Walking from the best price: a filled buy costs at least the amount times
/// the best ask, and a filled sell yields at most the amount times the best bid.
pub proof fn law_fill_starts_at_best_price(bids: Seq<Level>, asks: Seq<Level>, amount: int)
    requires
        valid_side(bids),
        valid_side(asks),
        amount >= 0,
    ensures
        asks.len() > 0 ==> (fill_ascending(asks, amount) matches Some(c) ==> c >= amount * asks[0].0.0),
        fill_descending(bids, amount) matches Some(c) ==> c <= amount * best_bid_price_of(bids),
{
    if fill_ascending(asks, amount) is Some && asks.len() > 0 {
        assert forall|i: int| 0 <= i < asks.len() implies #[trigger] asks[i].0.0 >= asks[0].0.0 by {
            if i > 0 {
                assert(asks[0].0.0 < asks[i].0.0);
            }
        }
        lemma_fill_ascending_lower(asks, amount, asks[0].0.0 as int);
    }
    if fill_descending(bids, amount) is Some {
        if bids.len() > 0 {
            assert forall|i: int| 0 <= i < bids.len() implies #[trigger] bids[i].0.0 <= bids.last().0.0 by {
                if i < bids.len() - 1 {
                    assert(bids[i].0.0 < bids[bids.len() - 1].0.0);
                }
            }
            lemma_fill_descending_upper(bids, amount, bids.last().0.0 as int);
        } else {
            assert(amount <= 0 || fill_descending(bids, amount) is None);
        }
    }
}

} // verus!
