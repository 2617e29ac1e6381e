use vstd::prelude::*;

use crate::fixed::{PriceU32, SizeU32};

verus! {

/// One side of an order book: `(price, size)` levels.
pub type Level = (PriceU32, SizeU32);

/// Prices strictly increase along the sequence (so every price occurs once).
pub open spec fn sorted_levels(s: Seq<Level>) -> bool {
    forall|i: int, j: int| 0 <= i < j < s.len() ==> s[i].0.0 < s[j].0.0
}

/// Every level holds a positive size.
pub open spec fn positive_levels(s: Seq<Level>) -> bool {
    forall|i: int| 0 <= i < s.len() ==> s[i].1.0 > 0
}

/// A well-formed book side: sorted by price, no empty level.
pub open spec fn valid_side(s: Seq<Level>) -> bool {
    sorted_levels(s) && positive_levels(s)
}

/// The side as a map from price (fixed-point) to resting size (fixed-point).
pub open spec fn levels_map(s: Seq<Level>) -> Map<u32, u32> {
    Map::new(
        |p: u32| exists|i: int| 0 <= i < s.len() && s[i].0.0 == p,
        |p: u32| s[choose|i: int| 0 <= i < s.len() && s[i].0.0 == p].1.0,
    )
}

/// The entry at position `i` of a sorted side is what the map holds for its price.
pub proof fn lemma_levels_map_at(s: Seq<Level>, i: int)
    requires
        sorted_levels(s),
        0 <= i < s.len(),
    ensures
        levels_map(s).contains_key(s[i].0.0),
        levels_map(s)[s[i].0.0] == s[i].1.0,
{
    let p = s[i].0.0;
    assert(exists|k: int| 0 <= k < s.len() && s[k].0.0 == p);
    let j = choose|k: int| 0 <= k < s.len() && s[k].0.0 == p;
    if j < i {
        assert(s[j].0.0 < s[i].0.0);
    } else if i < j {
        assert(s[i].0.0 < s[j].0.0);
    }
}

/// Every price the map holds sits at some position of the side.
pub proof fn lemma_levels_map_has(s: Seq<Level>, p: u32) -> (i: int)
    requires
        levels_map(s).contains_key(p),
    ensures
        0 <= i < s.len(),
        s[i].0.0 == p,
{
    choose|k: int| 0 <= k < s.len() && s[k].0.0 == p
}

/// Result of looking a price up on a sorted side.
pub open spec fn search_result(s: Seq<Level>, p: u32, found: bool, idx: int) -> bool {
    &&& 0 <= idx <= s.len()
    &&& (forall|k: int| 0 <= k < idx ==> s[k].0.0 < p)
    &&& (found ==> idx < s.len() && s[idx].0.0 == p)
    &&& (!found ==> forall|k: int| idx <= k < s.len() ==> s[k].0.0 > p)
}

/// Binary search for `p`: its position when present, else where it would be inserted.
pub fn search_level(v: &Vec<Level>, p: u32) -> (res: (bool, usize))
    requires
        sorted_levels(v@),
    ensures
        search_result(v@, p, res.0, res.1 as int),
{
    let mut lo: usize = 0;
    let mut hi: usize = v.len();
    while lo < hi
        invariant
            0 <= lo <= hi <= v@.len(),
            sorted_levels(v@),
            forall|k: int| 0 <= k < lo ==> v@[k].0.0 < p,
            forall|k: int| hi <= k < v@.len() ==> v@[k].0.0 >= p,
        decreases hi - lo,
    {
        let mid = lo + (hi - lo) / 2;
        if v[mid].0.0 < p {
            lo = mid + 1;
        } else {
            hi = mid;
        }
    }
    if lo < v.len() && v[lo].0.0 == p {
        (true, lo)
    } else {
        proof {
            assert forall|k: int| lo <= k < v@.len() implies v@[k].0.0 > p by {
                if k > lo as int {
                    assert(v@[lo as int].0.0 < v@[k].0.0);
                }
            }
        }
        (false, lo)
    }
}

/// Sets the size resting at price `p` (adding the level when it is new).
pub fn insert_level(v: &mut Vec<Level>, p: u32, size: u32)
    requires
        valid_side(old(v)@),
        size > 0,
    ensures
        valid_side(final(v)@),
        levels_map(final(v)@) == levels_map(old(v)@).insert(p, size),
{
    let ghost s0 = v@;
    let (found, idx) = search_level(v, p);
    if found {
        v.set(idx, (PriceU32(p), SizeU32(size)));
        proof {
            let s1 = v@;
            assert(s1 == s0.update(idx as int, (PriceU32(p), SizeU32(size))));
            assert(valid_side(s1));
            assert forall|q: u32| #[trigger] levels_map(s1).contains_key(q) == levels_map(
                s0,
            ).insert(p, size).contains_key(q) by {
                if levels_map(s1).contains_key(q) {
                    let i = lemma_levels_map_has(s1, q);
                    if i != idx as int {
                        lemma_levels_map_at(s0, i);
                    }
                }
                if levels_map(s0).contains_key(q) {
                    let i = lemma_levels_map_has(s0, q);
                    lemma_levels_map_at(s1, i);
                }
                if q == p {
                    lemma_levels_map_at(s1, idx as int);
                }
            }
            assert forall|q: u32| #[trigger] levels_map(s1).contains_key(q) implies levels_map(
                s1,
            )[q] == levels_map(s0).insert(p, size)[q] by {
                let i = lemma_levels_map_has(s1, q);
                lemma_levels_map_at(s1, i);
                if i != idx as int {
                    lemma_levels_map_at(s0, i);
                }
            }
            assert(levels_map(s1) =~= levels_map(s0).insert(p, size));
        }
    } else {
        v.insert(idx, (PriceU32(p), SizeU32(size)));
        proof {
            let s1 = v@;
            assert(s1 == s0.insert(idx as int, (PriceU32(p), SizeU32(size))));
            assert forall|i: int, j: int| 0 <= i < j < s1.len() implies s1[i].0.0
                < s1[j].0.0 by {
                if j < idx {
                } else if j == idx {
                } else if i < idx {
                    assert(s1[j] == s0[j - 1]);
                } else if i == idx {
                    assert(s1[j] == s0[j - 1]);
                } else {
                    assert(s1[i] == s0[i - 1]);
                    assert(s1[j] == s0[j - 1]);
                }
            }
            assert(valid_side(s1));
            assert forall|q: u32| #[trigger] levels_map(s1).contains_key(q) == levels_map(
                s0,
            ).insert(p, size).contains_key(q) by {
                if levels_map(s1).contains_key(q) {
                    let i = lemma_levels_map_has(s1, q);
                    if i < idx as int {
                        lemma_levels_map_at(s0, i);
                    } else if i > idx as int {
                        lemma_levels_map_at(s0, i - 1);
                    }
                }
                if levels_map(s0).contains_key(q) {
                    let i = lemma_levels_map_has(s0, q);
                    if i < idx as int {
                        lemma_levels_map_at(s1, i);
                    } else {
                        lemma_levels_map_at(s1, i + 1);
                    }
                }
                if q == p {
                    lemma_levels_map_at(s1, idx as int);
                }
            }
            assert forall|q: u32| #[trigger] levels_map(s1).contains_key(q) implies levels_map(
                s1,
            )[q] == levels_map(s0).insert(p, size)[q] by {
                let i = lemma_levels_map_has(s1, q);
                lemma_levels_map_at(s1, i);
                if i < idx as int {
                    lemma_levels_map_at(s0, i);
                } else if i > idx as int {
                    lemma_levels_map_at(s0, i - 1);
                }
            }
            assert(levels_map(s1) =~= levels_map(s0).insert(p, size));
        }
    }
}

/// Removes the level at price `p`, if there is one.
pub fn remove_level(v: &mut Vec<Level>, p: u32)
    requires
        valid_side(old(v)@),
    ensures
        valid_side(final(v)@),
        levels_map(final(v)@) == levels_map(old(v)@).remove(p),
{
    let ghost s0 = v@;
    let (found, idx) = search_level(v, p);
    if found {
        v.remove(idx);
        proof {
            let s1 = v@;
            assert(s1 == s0.remove(idx as int));
            assert forall|i: int, j: int| 0 <= i < j < s1.len() implies s1[i].0.0
                < s1[j].0.0 by {
                if j < idx {
                } else if i < idx {
                    assert(s1[j] == s0[j + 1]);
                } else {
                    assert(s1[i] == s0[i + 1]);
                    assert(s1[j] == s0[j + 1]);
                }
            }
            assert(valid_side(s1));
            assert forall|q: u32| #[trigger] levels_map(s1).contains_key(q) == levels_map(
                s0,
            ).remove(p).contains_key(q) by {
                if levels_map(s1).contains_key(q) {
                    let i = lemma_levels_map_has(s1, q);
                    if i < idx as int {
                        lemma_levels_map_at(s0, i);
                    } else {
                        lemma_levels_map_at(s0, i + 1);
                    }
                }
                if levels_map(s0).contains_key(q) && q != p {
                    let i = lemma_levels_map_has(s0, q);
                    if i < idx as int {
                        lemma_levels_map_at(s1, i);
                    } else if i > idx as int {
                        lemma_levels_map_at(s1, i - 1);
                    }
                }
            }
            assert forall|q: u32| #[trigger] levels_map(s1).contains_key(q) implies levels_map(
                s1,
            )[q] == levels_map(s0).remove(p)[q] by {
                let i = lemma_levels_map_has(s1, q);
                lemma_levels_map_at(s1, i);
                if i < idx as int {
                    lemma_levels_map_at(s0, i);
                } else {
                    lemma_levels_map_at(s0, i + 1);
                }
            }
            assert(levels_map(s1) =~= levels_map(s0).remove(p));
        }
    } else {
        proof {
            assert forall|q: u32| #[trigger] levels_map(s0).contains_key(q) implies q != p by {
                let i = lemma_levels_map_has(s0, q);
            }
            assert(levels_map(s0) =~= levels_map(s0).remove(p));
        }
    }
}

} // verus!
