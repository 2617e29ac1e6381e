use vstd::prelude::*;

use crate::constants::{SIDE_BUY, SIDE_SELL};
use crate::messages::{BookSnapshotMessage, PriceChangeMessage};
use crate::orderbook::{apply_side_delta, build_side, Orderbook, RawLevel};
use crate::strmap::{str_eq, string_views, StrMap};

verus! {

/// What a book is, abstracted from its representation: bids and asks as price
/// to size maps, then timestamp, asset id, market and hash.
pub type BookState = (Map<u32, u32>, Map<u32, u32>, Seq<char>, Seq<char>, Seq<char>, Seq<char>);

/// The state of a book.
pub open spec fn book_state(b: Orderbook) -> BookState {
    (b.bids_map(), b.asks_map(), b@.timestamp, b@.asset_id, b@.market, b@.hash)
}

/// States of a map of books.
pub open spec fn books_model(m: Map<Seq<char>, Orderbook>) -> Map<Seq<char>, BookState> {
    m.map_values(|b: Orderbook| book_state(b))
}

/// An incremental update of one book: bid levels, ask levels, new hash.
pub type BookDelta = (Seq<RawLevel>, Seq<RawLevel>, Seq<char>);

/// A book after a delta, stamped with `timestamp` and the delta's hash.
pub open spec fn apply_state(s: BookState, d: BookDelta, timestamp: Seq<char>) -> BookState {
    (apply_side_delta(s.0, d.0), apply_side_delta(s.1, d.1), timestamp, s.3, s.4, d.2)
}

/// One level update, taken by its model: asset id, side, converted level
/// (`None` when its price or size text did not parse), hash.
pub type ChangeModel = (Seq<char>, Seq<char>, Option<RawLevel>, Seq<char>);

/// Level updates grouped by asset, in order: the first usable update of an
/// asset sets its hash; "BUY" levels go to the bids, "SELL" levels to the asks,
/// and any other side only registers the asset.
pub open spec fn group_changes(ups: Seq<ChangeModel>) -> Map<Seq<char>, BookDelta>
    decreases ups.len(),
{
    if ups.len() == 0 {
        Map::empty()
    } else {
        let m = group_changes(ups.drop_last());
        let u = ups.last();
        match u.2 {
            None => m,
            Some(level) => {
                let d = if m.contains_key(u.0) {
                    m[u.0]
                } else {
                    (Seq::empty(), Seq::empty(), u.3)
                };
                let d2 = if u.1 == SIDE_BUY@ {
                    (d.0.push(level), d.1, d.2)
                } else if u.1 == SIDE_SELL@ {
                    (d.0, d.1.push(level), d.2)
                } else {
                    d
                };
                m.insert(u.0, d2)
            },
        }
    }
}

/// The books after applying each asset's delta to its book (assets without a
/// book are skipped).
pub open spec fn apply_all(
    books: Map<Seq<char>, BookState>,
    deltas: Map<Seq<char>, BookDelta>,
    timestamp: Seq<char>,
) -> Map<Seq<char>, BookState> {
    Map::new(
        |k: Seq<char>| books.contains_key(k),
        |k: Seq<char>|
            if deltas.contains_key(k) {
                apply_state(books[k], deltas[k], timestamp)
            } else {
                books[k]
            },
    )
}

/// A batch of level updates never creates or drops a book, and keeps each
/// book's asset and market; books without updates stay as they were.
pub proof fn law_price_change_keeps_books(
    books: Map<Seq<char>, BookState>,
    deltas: Map<Seq<char>, BookDelta>,
    timestamp: Seq<char>,
)
    ensures
        apply_all(books, deltas, timestamp).dom() == books.dom(),
        forall|k: Seq<char>| #[trigger] books.contains_key(k) ==> {
            let b = apply_all(books, deltas, timestamp)[k];
            &&& b.3 == books[k].3
            &&& b.4 == books[k].4
            &&& !deltas.contains_key(k) ==> b == books[k]
        },
{
    assert(apply_all(books, deltas, timestamp).dom() =~= books.dom());
}

/// The books of the listed assets that exist.
pub open spec fn select_books(books: Map<Seq<char>, BookState>, ids: Seq<Seq<char>>) -> Map<
    Seq<char>,
    BookState,
> {
    Map::new(|k: Seq<char>| ids.contains(k) && books.contains_key(k), |k: Seq<char>| books[k])
}

/// Models of the updates of a message, paired with their converted levels.
pub open spec fn change_models(msg: PriceChangeMessage, levels: Seq<Option<RawLevel>>) -> Seq<ChangeModel> {
    Seq::new(
        msg.price_changes@.len(),
        |i: int|
            (
                msg.price_changes@[i].asset_id@,
                msg.price_changes@[i].side@,
                levels[i],
                msg.price_changes@[i].hash@,
            ),
    )
}

/// Model of a delta under construction.
pub open spec fn delta_model(d: (Vec<RawLevel>, Vec<RawLevel>, String)) -> BookDelta {
    (d.0@, d.1@, d.2@)
}

/// The order books of all subscribed assets, keyed by asset id.
#[derive(Debug)]
pub struct OrderbookManager {
    orderbooks: StrMap<Orderbook>,
}

/// Every book in the map is well formed.
pub open spec fn books_wf(m: StrMap<Orderbook>) -> bool {
    &&& m.wf()
    &&& forall|i: int| 0 <= i < m.value_seq().len() ==> #[trigger] m.value_seq()[i].wf()
}

proof fn lemma_books_wf_model(m: StrMap<Orderbook>, k: Seq<char>)
    requires
        books_wf(m),
        m.model().contains_key(k),
    ensures
        m.model()[k].wf(),
{
    m.lemma_model();
    let j = choose|j: int| 0 <= j < m.key_seq().len() && m.key_seq()[j] == k;
}

proof fn lemma_books_insert(m: Map<Seq<char>, Orderbook>, k: Seq<char>, b: Orderbook)
    ensures
        books_model(m.insert(k, b)) == books_model(m).insert(k, book_state(b)),
{
    assert(books_model(m.insert(k, b)) =~= books_model(m).insert(k, book_state(b)));
}

/// Inserting a well-formed book keeps every book well formed.
proof fn lemma_books_wf_insert(before: StrMap<Orderbook>, after: StrMap<Orderbook>, k: Seq<char>, b: Orderbook)
    requires
        books_wf(before),
        after.wf(),
        b.wf(),
        after.model() == before.model().insert(k, b),
    ensures
        books_wf(after),
{
    before.lemma_model();
    after.lemma_model();
    assert forall|i: int| 0 <= i < after.value_seq().len() implies #[trigger] after.value_seq()[i].wf() by {
        let q = after.key_seq()[i];
        assert(after.model().contains_key(q));
        assert(after.model()[q] == after.value_seq()[i]);
        if q != k {
            assert(before.model().contains_key(q));
            lemma_books_wf_model(before, q);
            assert(after.model()[q] == before.model()[q]);
        } else {
            assert(after.model()[q] == b);
        }
    }
}

impl OrderbookManager {
    /// The book map and every book in it are well formed.
    pub closed spec fn wf(&self) -> bool {
        books_wf(self.orderbooks)
    }

    /// The books, by asset id.
    pub closed spec fn model(&self) -> Map<Seq<char>, BookState> {
        books_model(self.orderbooks.model())
    }

    /// No book yet.
    pub fn new() -> (r: Self)
        ensures
            r.wf(),
            r.model() == Map::<Seq<char>, BookState>::empty(),
    {
        let r = OrderbookManager { orderbooks: StrMap::new() };
        proof {
            assert(r.model() =~= Map::<Seq<char>, BookState>::empty());
        }
        r
    }

    /// The book of an asset, if any.
    pub fn get_book(&self, asset_id: &str) -> (r: Option<&Orderbook>)
        requires
            self.wf(),
        ensures
            match r {
                Some(b) => self.model().contains_key(asset_id@) && book_state(*b) == self.model()[asset_id@]
                    && b.wf(),
                None => !self.model().contains_key(asset_id@),
            },
    {
        let r = self.orderbooks.get(asset_id);
        proof {
            if r is Some {
                lemma_books_wf_model(self.orderbooks, asset_id@);
            }
        }
        r
    }

    /// Replaces the book of the snapshot's asset with one built from the
    /// snapshot (its levels as converted, in `bids` and `asks`).
    pub fn handle_snapshot_message(
        &mut self,
        snapshot: BookSnapshotMessage,
        bids: Vec<RawLevel>,
        asks: Vec<RawLevel>,
    )
        requires
            old(self).wf(),
        ensures
            final(self).wf(),
            final(self).model() == old(self).model().insert(
                snapshot.asset_id@,
                (
                    build_side(bids@),
                    build_side(asks@),
                    snapshot.timestamp@,
                    snapshot.asset_id@,
                    snapshot.market@,
                    snapshot.hash@,
                ),
            ),
    {
        let asset_id = snapshot.asset_id.clone();
        let book = Orderbook::new(
            bids,
            asks,
            snapshot.timestamp,
            snapshot.asset_id,
            snapshot.hash,
            snapshot.market,
        );
        let ghost before = self.orderbooks;
        let ghost b = book;
        self.orderbooks.insert(asset_id, book);
        proof {
            lemma_books_insert(before.model(), asset_id@, b);
            lemma_books_wf_insert(before, self.orderbooks, asset_id@, b);
        }
    }

    /// Applies a delta to the book of `asset_id`, if there is one.
    pub fn apply_delta_to_book(
        &mut self,
        asset_id: &str,
        delta_bids: &[RawLevel],
        delta_asks: &[RawLevel],
        timestamp: String,
        hash: String,
    )
        requires
            old(self).wf(),
        ensures
            final(self).wf(),
            final(self).model() == if old(self).model().contains_key(asset_id@) {
                old(self).model().insert(
                    asset_id@,
                    apply_state(
                        old(self).model()[asset_id@],
                        (delta_bids@, delta_asks@, hash@),
                        timestamp@,
                    ),
                )
            } else {
                old(self).model()
            },
    {
        proof {
            self.orderbooks.lemma_model();
        }
        match self.orderbooks.find(asset_id) {
            Some(j) => {
                let ghost before = self.orderbooks;
                proof {
                    assert(before.key_seq()[j as int] == asset_id@);
                    assert(before.value_seq()[j as int].wf());
                    crate::strmap::lemma_seq_map_at(before.key_seq(), before.value_seq(), j as int);
                }
                self.orderbooks.value_at_mut(j).apply_delta(delta_bids, delta_asks, timestamp, hash);
                proof {
                    let after = self.orderbooks;
                    StrMap::lemma_same_keys_wf(&before, &after);
                    before.lemma_model();
                    after.lemma_model();
                    let bj = after.value_seq()[j as int];
                    assert(after.value_seq() == before.value_seq().update(j as int, bj));
                    assert forall|q: int| 0 <= q < after.value_seq().len() implies #[trigger] after.value_seq()[q].wf() by {
                        if q != j as int {
                            assert(after.value_seq()[q] == before.value_seq()[q]);
                        }
                    }
                    let target = books_model(before.model()).insert(
                        asset_id@,
                        apply_state(books_model(before.model())[asset_id@], (delta_bids@, delta_asks@, hash@), timestamp@),
                    );
                    assert forall|q: Seq<char>| #[trigger] self.model().contains_key(q) == target.contains_key(q) by {}
                    assert forall|q: Seq<char>| #[trigger] self.model().contains_key(q) implies self.model()[q] == target[q] by {
                        let p = choose|p: int| 0 <= p < after.key_seq().len() && after.key_seq()[p] == q;
                        if p != j as int {
                            assert(after.value_seq()[p] == before.value_seq()[p]);
                        }
                    }
                    assert(self.model() =~= target);
                }
            },
            None => {},
        }
    }

    /// Applies a batch of level updates: `levels[i]` is the converted level of
    /// `msg.price_changes[i]` (`None` when its texts did not parse, and the update
    /// is skipped). Updates are grouped by asset and each group is applied to
    /// that asset's book with the message's timestamp.
    pub fn handle_price_change_message(&mut self, msg: PriceChangeMessage, levels: Vec<Option<RawLevel>>)
        requires
            old(self).wf(),
            levels@.len() == msg.price_changes@.len(),
        ensures
            final(self).wf(),
            final(self).model() == apply_all(
                old(self).model(),
                group_changes(change_models(msg, levels@)),
                msg.timestamp@,
            ),
    {
        let ghost ups = change_models(msg, levels@);
        let mut deltas: StrMap<(Vec<RawLevel>, Vec<RawLevel>, String)> = StrMap::new();
        let n = msg.price_changes.len();
        let mut i: usize = 0;
        proof {
            assert(ups.take(0) =~= Seq::<ChangeModel>::empty());
            assert(deltas.model().map_values(|d: (Vec<RawLevel>, Vec<RawLevel>, String)| delta_model(d))
                =~= group_changes(ups.take(0)));
        }
        while i < n
            invariant
                n == msg.price_changes@.len(),
                n == levels@.len(),
                ups == change_models(msg, levels@),
                0 <= i <= n,
                deltas.wf(),
                deltas.model().map_values(|d: (Vec<RawLevel>, Vec<RawLevel>, String)| delta_model(d))
                    == group_changes(ups.take(i as int)),
            decreases n - i,
        {
            let update = &msg.price_changes[i];
            proof {
                assert(ups.take(i + 1).drop_last() =~= ups.take(i as int));
                assert(ups.take(i + 1).last() == ups[i as int]);
            }
            match levels[i] {
                None => {},
                Some(level) => {
                    self.add_change(&mut deltas, &update.asset_id, &update.side, level, &update.hash);
                },
            }
            i = i + 1;
        }
        proof {
            assert(ups.take(n as int) == ups);
        }
        let ghost grouped = group_changes(ups);
        let ghost books0 = self.model();
        let m = deltas.len();
        let mut k: usize = 0;
        proof {
            deltas.lemma_model();
            assert(apply_all(books0, Map::empty(), msg.timestamp@) =~= books0);
        }
        while k < m
            invariant
                deltas.wf(),
                m == deltas.key_seq().len(),
                grouped == deltas.model().map_values(|d: (Vec<RawLevel>, Vec<RawLevel>, String)| delta_model(d)),
                0 <= k <= m,
                self.wf(),
                self.model() == apply_all(
                    books0,
                    grouped.restrict(deltas.key_seq().take(k as int).to_set()),
                    msg.timestamp@,
                ),
            decreases m - k,
        {
            let asset_id = deltas.key_at(k);
            let d = deltas.value_at(k);
            let ghost before = self.model();
            self.apply_delta_to_book(asset_id.as_str(), d.0.as_slice(), d.1.as_slice(), msg.timestamp.clone(), d.2.clone());
            proof {
                deltas.lemma_model();
                let ks = deltas.key_seq();
                assert(ks.take(k + 1) =~= ks.take(k as int).push(ks[k as int]));
                ks.take(k as int).lemma_push_to_set_commute(ks[k as int]);
                assert(!ks.take(k as int).contains(ks[k as int])) by {
                    if ks.take(k as int).contains(ks[k as int]) {
                        let j = choose|j: int| 0 <= j < k && ks.take(k as int)[j] == ks[k as int];
                        assert(ks[j] == ks[k as int]);
                    }
                }
                assert(grouped[asset_id@] == delta_model(*d));
                let target = apply_all(books0, grouped.restrict(ks.take(k + 1).to_set()), msg.timestamp@);
                assert forall|q: Seq<char>| #[trigger] self.model().contains_key(q) == target.contains_key(q) by {}
                assert forall|q: Seq<char>| #[trigger] self.model().contains_key(q) implies self.model()[q] == target[q] by {
                    if q != asset_id@ {
                        assert(ks.take(k + 1).to_set().contains(q) == ks.take(k as int).to_set().contains(q));
                    }
                }
                assert(self.model() =~= target);
            }
            k = k + 1;
        }
        proof {
            deltas.lemma_model();
            assert(deltas.key_seq().take(m as int) == deltas.key_seq());
            assert(grouped.restrict(deltas.key_seq().to_set()) =~= grouped);
        }
    }

    /// Adds one usable update to the deltas under construction.
    fn add_change(
        &self,
        deltas: &mut StrMap<(Vec<RawLevel>, Vec<RawLevel>, String)>,
        asset_id: &String,
        side: &String,
        level: RawLevel,
        hash: &String,
    )
        requires
            old(deltas).wf(),
        ensures
            final(deltas).wf(),
            ({
                let m = old(deltas).model().map_values(|d: (Vec<RawLevel>, Vec<RawLevel>, String)| delta_model(d));
                let d = if m.contains_key(asset_id@) {
                    m[asset_id@]
                } else {
                    (Seq::empty(), Seq::empty(), hash@)
                };
                let d2 = if side@ == SIDE_BUY@ {
                    (d.0.push(level), d.1, d.2)
                } else if side@ == SIDE_SELL@ {
                    (d.0, d.1.push(level), d.2)
                } else {
                    d
                };
                final(deltas).model().map_values(|d: (Vec<RawLevel>, Vec<RawLevel>, String)| delta_model(d))
                    == m.insert(asset_id@, d2)
            }),
    {
        let ghost m0 = deltas.model();
        let is_buy = str_eq(side.as_str(), SIDE_BUY);
        let is_sell = str_eq(side.as_str(), SIDE_SELL);
        proof {
            deltas.lemma_model();
        }
        match deltas.find(asset_id.as_str()) {
            Some(j) => {
                let ghost before = *deltas;
                proof {
                    crate::strmap::lemma_seq_map_at(before.key_seq(), before.value_seq(), j as int);
                }
                let entry = deltas.value_at_mut(j);
                if is_buy {
                    entry.0.push(level);
                } else if is_sell {
                    entry.1.push(level);
                }
                proof {
                    let after = *deltas;
                    StrMap::lemma_same_keys_wf(&before, &after);
                    before.lemma_model();
                    after.lemma_model();
                    let target = m0.map_values(|d: (Vec<RawLevel>, Vec<RawLevel>, String)| delta_model(d)).insert(
                        asset_id@,
                        delta_model(after.value_seq()[j as int]),
                    );
                    let fm = after.model().map_values(|d: (Vec<RawLevel>, Vec<RawLevel>, String)| delta_model(d));
                    assert forall|q: Seq<char>| #[trigger] fm.contains_key(q) == target.contains_key(q) by {}
                    assert forall|q: Seq<char>| #[trigger] fm.contains_key(q) implies fm[q] == target[q] by {
                        let p = choose|p: int| 0 <= p < after.key_seq().len() && after.key_seq()[p] == q;
                        if p != j as int {
                            assert(after.value_seq()[p] == before.value_seq()[p]);
                        }
                    }
                    assert(fm =~= target);
                }
            },
            None => {
                let mut bids: Vec<RawLevel> = Vec::new();
                let mut asks: Vec<RawLevel> = Vec::new();
                if is_buy {
                    bids.push(level);
                } else if is_sell {
                    asks.push(level);
                }
                let entry = (bids, asks, hash.clone());
                let ghost e = entry;
                deltas.insert(asset_id.clone(), entry);
                proof {
                    assert(e.0@ =~= if side@ == SIDE_BUY@ { Seq::<RawLevel>::empty().push(level) } else { Seq::<RawLevel>::empty() });
                    assert(e.1@ =~= if side@ != SIDE_BUY@ && side@ == SIDE_SELL@ { Seq::<RawLevel>::empty().push(level) } else { Seq::<RawLevel>::empty() });
                    let fm = deltas.model().map_values(|d: (Vec<RawLevel>, Vec<RawLevel>, String)| delta_model(d));
                    let mm = m0.map_values(|d: (Vec<RawLevel>, Vec<RawLevel>, String)| delta_model(d));
                    assert(fm =~= mm.insert(asset_id@, delta_model(e)));
                }
            },
        }
    }

    /// Copies of all books.
    pub fn get_snapshot_parallel(&self) -> (r: StrMap<Orderbook>)
        requires
            self.wf(),
        ensures
            books_wf(r),
            books_model(r.model()) == self.model(),
    {
        let src = &self.orderbooks;
        let n = src.len();
        let mut r: StrMap<Orderbook> = StrMap::new();
        let mut i: usize = 0;
        proof {
            src.lemma_model();
            assert(src.key_seq().take(0) =~= Seq::<Seq<char>>::empty());
        }
        while i < n
            invariant
                books_wf(*src),
                n == src.key_seq().len(),
                0 <= i <= n,
                books_wf(r),
                r.key_seq() == src.key_seq().take(i as int),
                r.value_seq().len() == i,
                forall|j: int| 0 <= j < i ==> #[trigger] book_state(r.value_seq()[j]) == book_state(src.value_seq()[j]),
            decreases n - i,
        {
            proof {
                src.lemma_model();
                r.lemma_model();
                assert(!r.key_seq().contains(src.key_seq()[i as int])) by {
                    if r.key_seq().contains(src.key_seq()[i as int]) {
                        let j = choose|j: int| 0 <= j < i && r.key_seq()[j] == src.key_seq()[i as int];
                        assert(src.key_seq()[j] == src.key_seq()[i as int]);
                    }
                }
            }
            let k = src.key_at(i).clone();
            let b = src.value_at(i).duplicate();
            let ghost before = r;
            let ghost bb = b;
            r.insert(k, b);
            proof {
                lemma_books_wf_insert(before, r, src.key_seq()[i as int], bb);
                assert(src.key_seq().take(i + 1) =~= src.key_seq().take(i as int).push(src.key_seq()[i as int]));
                assert forall|j: int| 0 <= j < i + 1 implies #[trigger] book_state(r.value_seq()[j]) == book_state(src.value_seq()[j]) by {
                    if j < i {
                        assert(r.value_seq()[j] == before.value_seq()[j]);
                    }
                }
            }
            i = i + 1;
        }
        proof {
            src.lemma_model();
            r.lemma_model();
            assert(src.key_seq().take(n as int) == src.key_seq());
            assert forall|q: Seq<char>| #[trigger] books_model(r.model()).contains_key(q) == self.model().contains_key(q) by {}
            assert forall|q: Seq<char>| #[trigger] books_model(r.model()).contains_key(q) implies books_model(r.model())[q] == self.model()[q] by {
                let p = choose|p: int| 0 <= p < r.key_seq().len() && r.key_seq()[p] == q;
            }
            assert(books_model(r.model()) =~= self.model());
        }
        r
    }

    /// Copies of the books of the listed assets that exist.
    pub fn get_single_market_snapshot(&self, token_ids: &[String]) -> (r: StrMap<Orderbook>)
        requires
            self.wf(),
        ensures
            books_wf(r),
            books_model(r.model()) == select_books(self.model(), string_views(token_ids@)),
    {
        let n = token_ids.len();
        let mut r: StrMap<Orderbook> = StrMap::new();
        let mut i: usize = 0;
        let ghost ids = string_views(token_ids@);
        proof {
            assert(books_model(r.model()) =~= select_books(self.model(), ids.take(0)));
        }
        while i < n
            invariant
                self.wf(),
                n == token_ids@.len(),
                ids == string_views(token_ids@),
                0 <= i <= n,
                books_wf(r),
                books_model(r.model()) == select_books(self.model(), ids.take(i as int)),
            decreases n - i,
        {
            let id = &token_ids[i];
            proof {
                assert(ids.take(i + 1) =~= ids.take(i as int).push(id@));
            }
            match self.orderbooks.get(id.as_str()) {
                Some(book) => {
                    proof {
                        lemma_books_wf_model(self.orderbooks, id@);
                    }
                    let b = book.duplicate();
                    let ghost before = r;
                    let ghost bb = b;
                    r.insert(id.clone(), b);
                    proof {
                        lemma_books_insert(before.model(), id@, bb);
                        lemma_books_wf_insert(before, r, id@, bb);
                        let target = select_books(self.model(), ids.take(i + 1));
                        assert(self.model().contains_key(id@));
                        assert(book_state(bb) == self.model()[id@]);
                        assert forall|q: Seq<char>| #[trigger] books_model(r.model()).contains_key(q) == target.contains_key(q) by {
                            assert(ids.take(i + 1).contains(q) == (ids.take(i as int).contains(q) || q == id@)) by {
                                if ids.take(i + 1).contains(q) {
                                    let j = choose|j: int| 0 <= j < i + 1 && #[trigger] ids.take(i + 1)[j] == q;
                                    if j < i {
                                        assert(ids.take(i as int)[j] == q);
                                    }
                                }
                                if ids.take(i as int).contains(q) {
                                    let j = choose|j: int| 0 <= j < i && #[trigger] ids.take(i as int)[j] == q;
                                    assert(ids.take(i + 1)[j] == q);
                                }
                                if q == id@ {
                                    assert(ids.take(i + 1)[i as int] == q);
                                }
                            }
                        }
                        assert(books_model(r.model()) =~= target);
                    }
                },
                None => {
                    proof {
                        assert(books_model(r.model()) =~= select_books(self.model(), ids.take(i + 1)));
                    }
                },
            }
            i = i + 1;
        }
        proof {
            assert(ids.take(n as int) == ids);
        }
        r
    }
}

} // verus!
