//! The per-symbol order-book replica.
//!
//! Each side is a vector of `(price, qty)` levels kept strictly ascending by
//! price. The specification model of a side is a map from price units to
//! quantity units. An update folds upsert and delete operations over that
//! map in the order supplied; a snapshot folds only insertions, discarding
//! zero-quantity entries silently.

use vstd::prelude::*;
use vstd::map::*;
use crate::decimal::{Decimal, units_u128};

verus! {

/// A list of levels is well formed when every price and quantity is a
/// canonical decimal, no quantity is zero, and prices strictly ascend.
pub open spec fn side_wf(s: Seq<(Decimal, Decimal)>) -> bool {
    &&& forall|i: int|
        0 <= i < s.len() ==> (#[trigger] s[i]).0.wf() && s[i].1.wf() && s[i].1.units() > 0
    &&& forall|i: int, j: int|
        0 <= i < j < s.len() ==> (#[trigger] s[i]).0.units() < (#[trigger] s[j]).0.units()
}

/// The contents of a side as a map from price units to quantity units.
pub open spec fn side_map(s: Seq<(Decimal, Decimal)>) -> Map<nat, nat>
    decreases s.len(),
{
    if s.len() == 0 {
        Map::empty()
    } else {
        side_map(s.drop_last()).insert(s.last().0.units(), s.last().1.units())
    }
}

/// Applies a sequence of level operations to a side map, in order:
/// quantity zero deletes the price, anything else inserts or overwrites.
pub open spec fn apply_ops(m: Map<nat, nat>, ops: Seq<(Decimal, Decimal)>) -> Map<nat, nat>
    decreases ops.len(),
{
    if ops.len() == 0 {
        m
    } else {
        let rest = apply_ops(m, ops.drop_last());
        let op = ops.last();
        if op.1.units() == 0 {
            rest.remove(op.0.units())
        } else {
            rest.insert(op.0.units(), op.1.units())
        }
    }
}

/// Folds a snapshot list over a base map: zero-quantity entries are
/// discarded silently, anything else inserts or overwrites, in order.
pub open spec fn snapshot_map_from(m: Map<nat, nat>, ops: Seq<(Decimal, Decimal)>) -> Map<nat, nat>
    decreases ops.len(),
{
    if ops.len() == 0 {
        m
    } else {
        let rest = snapshot_map_from(m, ops.drop_last());
        let op = ops.last();
        if op.1.units() == 0 {
            rest
        } else {
            rest.insert(op.0.units(), op.1.units())
        }
    }
}

/// The side a snapshot list builds from nothing.
pub open spec fn snapshot_map(ops: Seq<(Decimal, Decimal)>) -> Map<nat, nat> {
    snapshot_map_from(Map::empty(), ops)
}

/// All decimals in a list of levels are canonical.
pub open spec fn levels_wf(s: Seq<(Decimal, Decimal)>) -> bool {
    forall|i: int| 0 <= i < s.len() ==> (#[trigger] s[i]).0.wf() && s[i].1.wf()
}

pub proof fn lemma_side_map_contains(s: Seq<(Decimal, Decimal)>, k: nat)
    ensures
        side_map(s).dom().contains(k) <==> exists|i: int| 0 <= i < s.len() && (#[trigger] s[i]).0.units() == k,
    decreases s.len(),
{
    if s.len() > 0 {
        lemma_side_map_contains(s.drop_last(), k);
        if s.last().0.units() == k {
            assert(s[s.len() - 1].0.units() == k);
        } else if side_map(s).dom().contains(k) {
            let i = choose|i: int| 0 <= i < s.drop_last().len() && (#[trigger] s.drop_last()[i]).0.units() == k;
            assert(s[i].0.units() == k);
        } else {
            assert forall|i: int| 0 <= i < s.len() implies (#[trigger] s[i]).0.units() != k by {
                if i < s.len() - 1 {
                    assert(s.drop_last()[i] == s[i]);
                }
            }
        }
    }
}

proof fn lemma_side_map_insert_at(s: Seq<(Decimal, Decimal)>, i: int, x: (Decimal, Decimal))
    requires
        0 <= i <= s.len(),
        forall|j: int| 0 <= j < s.len() ==> (#[trigger] s[j]).0.units() != x.0.units(),
    ensures
        side_map(s.insert(i, x)) == side_map(s).insert(x.0.units(), x.1.units()),
    decreases s.len(),
{
    let s2 = s.insert(i, x);
    if i == s.len() {
        assert(s2.drop_last() =~= s);
        assert(s2.last() == x);
    } else {
        assert(s2.last() == s.last());
        assert(s2.drop_last() =~= s.drop_last().insert(i, x));
        lemma_side_map_insert_at(s.drop_last(), i, x);
        assert(s[s.len() - 1].0.units() != x.0.units());
        assert(side_map(s.insert(i, x)) =~= side_map(s).insert(x.0.units(), x.1.units()));
    }
}

proof fn lemma_side_map_remove_at(s: Seq<(Decimal, Decimal)>, i: int)
    requires
        0 <= i < s.len(),
        forall|a: int, b: int|
            0 <= a < b < s.len() ==> (#[trigger] s[a]).0.units() != (#[trigger] s[b]).0.units(),
    ensures
        side_map(s.remove(i)) == side_map(s).remove(s[i].0.units()),
    decreases s.len(),
{
    let s2 = s.remove(i);
    if i == s.len() - 1 {
        assert(s2 =~= s.drop_last());
        lemma_side_map_contains(s.drop_last(), s[i].0.units());
        assert forall|j: int| 0 <= j < s.drop_last().len()
            implies (#[trigger] s.drop_last()[j]).0.units() != s[i].0.units() by {
            assert(s.drop_last()[j] == s[j]);
        }
        assert(!side_map(s.drop_last()).dom().contains(s[i].0.units()));
        assert(side_map(s.remove(i)) =~= side_map(s).remove(s[i].0.units()));
    } else {
        assert(s2.last() == s.last());
        assert(s2.drop_last() =~= s.drop_last().remove(i));
        lemma_side_map_remove_at(s.drop_last(), i);
        assert(s[i].0.units() != s[s.len() - 1].0.units());
        assert(side_map(s.remove(i)) =~= side_map(s).remove(s[i].0.units()));
    }
}

proof fn lemma_side_map_absent(s: Seq<(Decimal, Decimal)>, k: nat)
    requires
        forall|i: int| 0 <= i < s.len() ==> (#[trigger] s[i]).0.units() != k,
    ensures
        side_map(s).remove(k) == side_map(s),
{
    lemma_side_map_contains(s, k);
    assert(side_map(s).remove(k) =~= side_map(s));
}

/// Inserts, overwrites, or (on zero quantity) deletes one price level,
/// keeping the side sorted.
fn upsert_level(side: &mut Vec<(Decimal, Decimal)>, price: Decimal, qty: Decimal)
    requires
        side_wf(old(side)@),
        price.wf(),
        qty.wf(),
    ensures
        side_wf(final(side)@),
        side_map(final(side)@) == (if qty.units() == 0 {
            side_map(old(side)@).remove(price.units())
        } else {
            side_map(old(side)@).insert(price.units(), qty.units())
        }),
{
    let pu = units_u128(&price);
    let zero = qty.is_zero();
    let mut i: usize = 0;
    while i < side.len() && units_u128(&side[i].0) < pu
        invariant
            side_wf(side@),
            side@ == old(side)@,
            i <= side@.len(),
            pu == price.units(),
            forall|j: int| 0 <= j < i ==> (#[trigger] side@[j]).0.units() < price.units(),
        decreases side@.len() - i,
    {
        i = i + 1;
    }
    proof {
        assert forall|j: int| i <= j < side@.len()
            implies (#[trigger] side@[j]).0.units() >= price.units() by {
            if j > i {
                assert(side@[i as int].0.units() < side@[j].0.units());
            }
        }
    }
    if i < side.len() && units_u128(&side[i].0) == pu {
        // The price is present: delete it, and reinsert unless qty is zero.
        let ghost s0 = side@;
        proof {
            lemma_side_map_remove_at(s0, i as int);
        }
        side.remove(i);
        proof {
            assert(side@ =~= s0.remove(i as int));
            assert forall|a: int, b: int| 0 <= a < b < side@.len()
                implies (#[trigger] side@[a]).0.units() < (#[trigger] side@[b]).0.units() by {
                if b < i {
                    assert(side@[a] == s0[a] && side@[b] == s0[b]);
                } else if a < i {
                    assert(side@[a] == s0[a] && side@[b] == s0[b + 1]);
                } else {
                    assert(side@[a] == s0[a + 1] && side@[b] == s0[b + 1]);
                }
            }
            assert forall|j: int| 0 <= j < side@.len()
                implies (#[trigger] side@[j]).0.units() != price.units() by {
                if j < i {
                    assert(side@[j] == s0[j]);
                } else {
                    assert(side@[j] == s0[j + 1]);
                }
            }
        }
        if !zero {
            let ghost s1 = side@;
            proof {
                lemma_side_map_insert_at(s1, i as int, (price, qty));
            }
            side.insert(i, (price, qty));
            proof {
                assert(side@ =~= s1.insert(i as int, (price, qty)));
                assert forall|a: int, b: int| 0 <= a < b < side@.len()
                    implies (#[trigger] side@[a]).0.units() < (#[trigger] side@[b]).0.units() by {
                    if a < i && b < i {
                        assert(side@[a] == s1[a] && side@[b] == s1[b]);
                    } else if a < i && b == i {
                        assert(side@[a] == s1[a]);
                    } else if a < i && b > i {
                        assert(side@[a] == s1[a] && side@[b] == s1[b - 1]);
                    } else if a == i {
                        assert(side@[b] == s1[b - 1]);
                        assert(s0[b] == s1[b - 1]);
                    } else {
                        assert(side@[a] == s1[a - 1] && side@[b] == s1[b - 1]);
                    }
                }
                assert(side_map(side@) =~= side_map(old(side)@).insert(price.units(), qty.units()));
            }
        } else {
            proof {
                assert(side_map(side@) == side_map(old(side)@).remove(price.units()));
            }
        }
    } else {
        // The price is absent.
        proof {
            assert forall|j: int| 0 <= j < side@.len()
                implies (#[trigger] side@[j]).0.units() != price.units() by {
                if j >= i {
                    assert(side@[j].0.units() >= price.units());
                    if j == i {
                        assert(side@[i as int].0.units() != price.units());
                    } else {
                        assert(side@[i as int].0.units() < side@[j].0.units());
                        assert(side@[i as int].0.units() >= price.units());
                    }
                }
            }
        }
        if !zero {
            let ghost s1 = side@;
            proof {
                lemma_side_map_insert_at(s1, i as int, (price, qty));
            }
            side.insert(i, (price, qty));
            proof {
                assert(side@ =~= s1.insert(i as int, (price, qty)));
                assert forall|a: int, b: int| 0 <= a < b < side@.len()
                    implies (#[trigger] side@[a]).0.units() < (#[trigger] side@[b]).0.units() by {
                    if a < i && b < i {
                        assert(side@[a] == s1[a] && side@[b] == s1[b]);
                    } else if a < i && b == i {
                        assert(side@[a] == s1[a]);
                    } else if a < i && b > i {
                        assert(side@[a] == s1[a] && side@[b] == s1[b - 1]);
                    } else if a == i {
                        assert(side@[b] == s1[b - 1]);
                        assert(s1[b - 1].0.units() != price.units());
                        assert(s1[b - 1].0.units() >= price.units());
                    } else {
                        assert(side@[a] == s1[a - 1] && side@[b] == s1[b - 1]);
                    }
                }
            }
        } else {
            proof {
                lemma_side_map_absent(side@, price.units());
            }
        }
    }
}

/// Applies a list of operations to one side, in the order supplied.
fn apply_side_ops(side: &mut Vec<(Decimal, Decimal)>, ops: &Vec<(Decimal, Decimal)>)
    requires
        side_wf(old(side)@),
        levels_wf(ops@),
    ensures
        side_wf(final(side)@),
        side_map(final(side)@) == apply_ops(side_map(old(side)@), ops@),
{
    let mut i: usize = 0;
    while i < ops.len()
        invariant
            side_wf(side@),
            levels_wf(ops@),
            i <= ops@.len(),
            side_map(side@) == apply_ops(side_map(old(side)@), ops@.take(i as int)),
        decreases ops@.len() - i,
    {
        let (price, qty) = ops[i];
        proof {
            assert(ops@.take(i + 1).drop_last() =~= ops@.take(i as int));
            assert(ops@.take(i + 1).last() == ops@[i as int]);
        }
        upsert_level(side, price, qty);
        i = i + 1;
    }
    proof {
        assert(ops@.take(ops@.len() as int) =~= ops@);
    }
}

/// Fills one side from a snapshot list: positive quantities insert or
/// overwrite, zero-quantity entries are skipped.
fn apply_snapshot_side(side: &mut Vec<(Decimal, Decimal)>, ops: &Vec<(Decimal, Decimal)>)
    requires
        side_wf(old(side)@),
        levels_wf(ops@),
    ensures
        side_wf(final(side)@),
        side_map(final(side)@) == snapshot_map_from(side_map(old(side)@), ops@),
{
    let mut i: usize = 0;
    while i < ops.len()
        invariant
            side_wf(side@),
            levels_wf(ops@),
            i <= ops@.len(),
            side_map(side@) == snapshot_map_from(side_map(old(side)@), ops@.take(i as int)),
        decreases ops@.len() - i,
    {
        let (price, qty) = ops[i];
        proof {
            assert(ops@.take(i + 1).drop_last() =~= ops@.take(i as int));
            assert(ops@.take(i + 1).last() == ops@[i as int]);
        }
        if !qty.is_zero() {
            upsert_level(side, price, qty);
        }
        i = i + 1;
    }
    proof {
        assert(ops@.take(ops@.len() as int) =~= ops@);
    }
}

/// In-memory order book holding the bid and ask ladders of one symbol.
///
/// Both sides are stored ascending by price; bids are read highest-first.
#[derive(Debug, Clone)]
pub struct Orderbook {
    pub asks: Vec<(Decimal, Decimal)>,
    pub bids: Vec<(Decimal, Decimal)>,
}

impl Orderbook {
    /// Both ladders are well formed.
    pub open spec fn wf(self) -> bool {
        side_wf(self.asks@) && side_wf(self.bids@)
    }

    /// Creates an empty book.
    pub fn new() -> (r: Orderbook)
        ensures
            r.wf(),
            r.asks@.len() == 0,
            r.bids@.len() == 0,
    {
        Orderbook { asks: Vec::new(), bids: Vec::new() }
    }

    /// Replaces both sides with the given levels: every entry with a
    /// positive quantity is inserted (a later duplicate of a price wins),
    /// and zero-quantity entries are discarded silently.
    pub fn apply_snapshot(&mut self, bids: Vec<(Decimal, Decimal)>, asks: Vec<(Decimal, Decimal)>)
        requires
            levels_wf(bids@),
            levels_wf(asks@),
        ensures
            final(self).wf(),
            side_map(final(self).bids@) == snapshot_map(bids@),
            side_map(final(self).asks@) == snapshot_map(asks@),
    {
        self.bids = Vec::new();
        self.asks = Vec::new();
        proof {
            assert(side_map(self.bids@) =~= Map::<nat, nat>::empty());
            assert(side_map(self.asks@) =~= Map::<nat, nat>::empty());
        }
        apply_snapshot_side(&mut self.bids, &bids);
        apply_snapshot_side(&mut self.asks, &asks);
    }

    /// Applies incremental level changes, in the order supplied: quantity
    /// zero removes the price, anything else inserts or overwrites it.
    pub fn apply_updates(&mut self, bid_updates: Vec<(Decimal, Decimal)>, ask_updates: Vec<(Decimal, Decimal)>)
        requires
            old(self).wf(),
            levels_wf(bid_updates@),
            levels_wf(ask_updates@),
        ensures
            final(self).wf(),
            side_map(final(self).bids@) == apply_ops(side_map(old(self).bids@), bid_updates@),
            side_map(final(self).asks@) == apply_ops(side_map(old(self).asks@), ask_updates@),
    {
        apply_side_ops(&mut self.bids, &bid_updates);
        apply_side_ops(&mut self.asks, &ask_updates);
    }

    /// Keeps the `depth` lowest asks and the `depth` highest bids; with
    /// fewer levels than `depth` the side is unchanged.
    pub fn truncate(&mut self, depth: usize)
        requires
            old(self).wf(),
        ensures
            final(self).wf(),
            final(self).asks@.len() <= depth,
            final(self).bids@.len() <= depth,
            final(self).asks@ == old(self).asks@.take(min_len(old(self).asks@.len(), depth as nat) as int),
            final(self).bids@ == old(self).bids@.skip(
                (old(self).bids@.len() - min_len(old(self).bids@.len(), depth as nat)) as int),
    {
        let ghost a0 = self.asks@;
        let ghost b0 = self.bids@;
        self.asks.truncate(depth);
        proof {
            if a0.len() <= depth {
                assert(self.asks@ =~= a0.take(a0.len() as int));
            }
            assert forall|i: int| 0 <= i < self.asks@.len()
                implies (#[trigger] self.asks@[i]).0.wf() && self.asks@[i].1.wf()
                    && self.asks@[i].1.units() > 0 by {
                assert(self.asks@[i] == a0[i]);
            }
        }
        if self.bids.len() > depth {
            let start = self.bids.len() - depth;
            let mut nb: Vec<(Decimal, Decimal)> = Vec::new();
            let mut i: usize = start;
            while i < self.bids.len()
                invariant
                    self.bids@ == b0,
                    start <= i <= b0.len(),
                    start == b0.len() - depth,
                    nb@ =~= b0.subrange(start as int, i as int),
                decreases b0.len() - i,
            {
                nb.push(self.bids[i]);
                proof {
                    assert(nb@ =~= b0.subrange(start as int, i + 1));
                }
                i = i + 1;
            }
            self.bids = nb;
            proof {
                assert(self.bids@ =~= b0.skip(start as int));
                assert forall|a: int, b: int| 0 <= a < b < self.bids@.len()
                    implies (#[trigger] self.bids@[a]).0.units()
                        < (#[trigger] self.bids@[b]).0.units() by {
                    assert(self.bids@[a] == b0[start + a] && self.bids@[b] == b0[start + b]);
                }
                assert forall|j: int| 0 <= j < self.bids@.len()
                    implies (#[trigger] self.bids@[j]).0.wf() && self.bids@[j].1.wf()
                        && self.bids@[j].1.units() > 0 by {
                    assert(self.bids@[j] == b0[start + j]);
                }
            }
        } else {
            proof {
                assert(self.bids@ =~= b0.skip(0));
            }
        }
    }

    /// The highest-priced bid, when one exists.
    pub fn best_bid(&self) -> (r: Option<(Decimal, Decimal)>)
        requires
            self.wf(),
        ensures
            match r {
                Some(l) => self.bids@.len() > 0 && l == self.bids@.last(),
                None => self.bids@.len() == 0,
            },
    {
        if self.bids.len() == 0 {
            None
        } else {
            Some(self.bids[self.bids.len() - 1])
        }
    }

    /// The lowest-priced ask, when one exists.
    pub fn best_ask(&self) -> (r: Option<(Decimal, Decimal)>)
        requires
            self.wf(),
        ensures
            match r {
                Some(l) => self.asks@.len() > 0 && l == self.asks@[0],
                None => self.asks@.len() == 0,
            },
    {
        if self.asks.len() == 0 {
            None
        } else {
            Some(self.asks[0])
        }
    }

    /// The difference between the best ask and the best bid price, as an
    /// exact signed count of `10^-19` units: the flag is set when the book
    /// is crossed (best bid above best ask) and the count is then the
    /// magnitude. Defined whenever both sides are non-empty.
    pub fn spread(&self) -> (r: Option<(bool, u128)>)
        requires
            self.wf(),
        ensures
            match r {
                Some(d) => {
                    &&& self.asks@.len() > 0 && self.bids@.len() > 0
                    &&& {
                        let au = self.asks@[0].0.units();
                        let bu = self.bids@.last().0.units();
                        if au >= bu {
                            !d.0 && d.1 == au - bu
                        } else {
                            d.0 && d.1 == bu - au
                        }
                    }
                },
                None => self.asks@.len() == 0 || self.bids@.len() == 0,
            },
    {
        if self.asks.len() == 0 || self.bids.len() == 0 {
            return None;
        }
        let au = units_u128(&self.asks[0].0);
        let bu = units_u128(&self.bids[self.bids.len() - 1].0);
        if au >= bu {
            Some((false, au - bu))
        } else {
            Some((true, bu - au))
        }
    }

    /// The midpoint of the best bid and best ask prices, exactly: a count
    /// of `10^-19` units plus, when the sum of the two prices is an odd
    /// number of units, half a unit more. Defined whenever both sides are
    /// non-empty.
    pub fn mid(&self) -> (r: Option<(u128, bool)>)
        requires
            self.wf(),
        ensures
            match r {
                Some(m) => {
                    &&& self.asks@.len() > 0 && self.bids@.len() > 0
                    &&& 2 * m.0 + (if m.1 { 1int } else { 0int })
                        == self.asks@[0].0.units() + self.bids@.last().0.units()
                },
                None => self.asks@.len() == 0 || self.bids@.len() == 0,
            },
    {
        if self.asks.len() == 0 || self.bids.len() == 0 {
            return None;
        }
        let au = units_u128(&self.asks[0].0);
        let bu = units_u128(&self.bids[self.bids.len() - 1].0);
        let pa = au % 2;
        let pb = bu % 2;
        let units = au / 2 + bu / 2 + (pa + pb) / 2;
        let plus_half = pa + pb == 1;
        proof {
            assert(2 * (units as int) + (if plus_half { 1int } else { 0int }) == au + bu)
                by (nonlinear_arith)
                requires
                    units == au / 2 + bu / 2 + (au % 2 + bu % 2) / 2,
                    plus_half == (au % 2 + bu % 2 == 1),
            ;
        }
        Some((units, plus_half))
    }

    /// The number of levels on each side, asks first.    /// The number of levels on each side, asks first.
    pub fn depth(&self) -> (r: (usize, usize))
        ensures
            r.0 == self.asks@.len(),
            r.1 == self.bids@.len(),
    {
        (self.asks.len(), self.bids.len())
    }

    /// Inserts, overwrites or deletes a single bid level.
    pub fn update_bid(&mut self, price: Decimal, qty: Decimal)
        requires
            old(self).wf(),
            price.wf(),
            qty.wf(),
        ensures
            final(self).wf(),
            final(self).asks@ == old(self).asks@,
            side_map(final(self).bids@) == (if qty.units() == 0 {
                side_map(old(self).bids@).remove(price.units())
            } else {
                side_map(old(self).bids@).insert(price.units(), qty.units())
            }),
    {
        upsert_level(&mut self.bids, price, qty);
    }

    /// Inserts, overwrites or deletes a single ask level.
    pub fn update_ask(&mut self, price: Decimal, qty: Decimal)
        requires
            old(self).wf(),
            price.wf(),
            qty.wf(),
        ensures
            final(self).wf(),
            final(self).bids@ == old(self).bids@,
            side_map(final(self).asks@) == (if qty.units() == 0 {
                side_map(old(self).asks@).remove(price.units())
            } else {
                side_map(old(self).asks@).insert(price.units(), qty.units())
            }),
    {
        upsert_level(&mut self.asks, price, qty);
    }

    /// Up to `limit` asks, lowest price first (all of them without a limit).
    pub fn asks_vec(&self, limit: Option<usize>) -> (r: Vec<(Decimal, Decimal)>)
        requires
            self.wf(),
        ensures
            r@ == self.asks@.take(vec_take_len(self.asks@.len(), limit) as int),
    {
        let n = match limit {
            Some(l) => if l < self.asks.len() { l } else { self.asks.len() },
            None => self.asks.len(),
        };
        let mut out: Vec<(Decimal, Decimal)> = Vec::new();
        let mut i: usize = 0;
        while i < n
            invariant
                n <= self.asks@.len(),
                i <= n,
                out@ =~= self.asks@.take(i as int),
            decreases n - i,
        {
            out.push(self.asks[i]);
            proof {
                assert(out@ =~= self.asks@.take(i + 1));
            }
            i = i + 1;
        }
        out
    }

    /// Up to `limit` bids, highest price first (all of them without a limit).
    pub fn bids_vec(&self, limit: Option<usize>) -> (r: Vec<(Decimal, Decimal)>)
        requires
            self.wf(),
        ensures
            r@.len() == vec_take_len(self.bids@.len(), limit),
            forall|k: int| 0 <= k < r@.len()
                ==> #[trigger] r@[k] == self.bids@[self.bids@.len() - 1 - k],
    {
        let n = match limit {
            Some(l) => if l < self.bids.len() { l } else { self.bids.len() },
            None => self.bids.len(),
        };
        let mut out: Vec<(Decimal, Decimal)> = Vec::new();
        let mut i: usize = 0;
        while i < n
            invariant
                n <= self.bids@.len(),
                i <= n,
                out@.len() == i,
                forall|k: int| 0 <= k < i
                    ==> #[trigger] out@[k] == self.bids@[self.bids@.len() - 1 - k],
            decreases n - i,
        {
            out.push(self.bids[self.bids.len() - 1 - i]);
            i = i + 1;
        }
        out
    }
}

/// Law: when both sides are non-empty and every bid price is below every
/// ask price (normal, uncrossed data), the best bid is priced below the
/// best ask.
pub proof fn lemma_uncrossed_best(book: Orderbook)
    requires
        book.wf(),
        book.asks@.len() > 0,
        book.bids@.len() > 0,
        forall|i: int, j: int|
            0 <= i < book.bids@.len() && 0 <= j < book.asks@.len()
                ==> (#[trigger] book.bids@[i]).0.units() < (#[trigger] book.asks@[j]).0.units(),
    ensures
        book.bids@.last().0.units() < book.asks@[0].0.units(),
{
}

proof fn lemma_apply_ops_concat(m: Map<nat, nat>, a: Seq<(Decimal, Decimal)>, b: Seq<(Decimal, Decimal)>)
    ensures
        apply_ops(m, a + b) == apply_ops(apply_ops(m, a), b),
    decreases b.len(),
{
    if b.len() == 0 {
        assert(a + b =~= a);
    } else {
        lemma_apply_ops_concat(m, a, b.drop_last());
        assert((a + b).drop_last() =~= a + b.drop_last());
        assert((a + b).last() == b.last());
    }
}

proof fn lemma_zero_ops_dom(m: Map<nat, nat>, zs: Seq<(Decimal, Decimal)>, k: nat)
    requires
        forall|i: int| 0 <= i < zs.len() ==> (#[trigger] zs[i]).1.units() == 0,
    ensures
        apply_ops(m, zs).dom().contains(k) <==> (m.dom().contains(k)
            && forall|i: int| 0 <= i < zs.len() ==> (#[trigger] zs[i]).0.units() != k),
    decreases zs.len(),
{
    if zs.len() > 0 {
        assert(zs[zs.len() - 1].1.units() == 0);
        lemma_zero_ops_dom(m, zs.drop_last(), k);
        if apply_ops(m, zs).dom().contains(k) {
            assert forall|i: int| 0 <= i < zs.len() implies (#[trigger] zs[i]).0.units() != k by {
                if i < zs.len() - 1 {
                    assert(zs.drop_last()[i] == zs[i]);
                }
            }
        } else {
            if m.dom().contains(k)
                && forall|i: int| 0 <= i < zs.len() ==> (#[trigger] zs[i]).0.units() != k {
                assert forall|i: int| 0 <= i < zs.drop_last().len()
                    implies (#[trigger] zs.drop_last()[i]).0.units() != k by {
                    assert(zs.drop_last()[i] == zs[i]);
                }
                assert(apply_ops(m, zs.drop_last()).dom().contains(k));
                assert(zs.last().0.units() != k);
                assert(false);
            }
        }
    }
}

proof fn lemma_positive_ops_are_snapshot(m: Map<nat, nat>, entries: Seq<(Decimal, Decimal)>)
    requires
        forall|i: int| 0 <= i < entries.len() ==> (#[trigger] entries[i]).1.units() > 0,
    ensures
        apply_ops(m, entries) == snapshot_map_from(m, entries),
    decreases entries.len(),
{
    if entries.len() > 0 {
        let dl = entries.drop_last();
        assert(forall|i: int| 0 <= i < dl.len() ==> dl[i] == entries[i]);
        lemma_positive_ops_are_snapshot(m, dl);
        assert(entries[entries.len() - 1].1.units() > 0);
    }
}

/// Law: applying a snapshot whose entries are all insertions equals
/// applying, to the previous book, an update that first zeroes every
/// previously present price and then inserts the snapshot entries.
pub proof fn lemma_snapshot_equals_clearing_update(
    m: Map<nat, nat>,
    zeroes: Seq<(Decimal, Decimal)>,
    entries: Seq<(Decimal, Decimal)>,
)
    requires
        forall|i: int| 0 <= i < zeroes.len() ==> (#[trigger] zeroes[i]).1.units() == 0,
        forall|k: nat| #[trigger] m.dom().contains(k)
            ==> exists|i: int| 0 <= i < zeroes.len() && (#[trigger] zeroes[i]).0.units() == k,
        forall|i: int| 0 <= i < entries.len() ==> (#[trigger] entries[i]).1.units() > 0,
    ensures
        apply_ops(m, zeroes + entries) == snapshot_map(entries),
        apply_ops(m, zeroes + entries) == apply_ops(Map::<nat, nat>::empty(), entries),
{
    lemma_apply_ops_concat(m, zeroes, entries);
    assert forall|k: nat| !(#[trigger] apply_ops(m, zeroes).dom().contains(k)) by {
        lemma_zero_ops_dom(m, zeroes, k);
        if apply_ops(m, zeroes).dom().contains(k) {
            let i = choose|i: int| 0 <= i < zeroes.len() && (#[trigger] zeroes[i]).0.units() == k;
            assert(zeroes[i].0.units() != k);
        }
    }
    assert(apply_ops(m, zeroes) =~= Map::<nat, nat>::empty());
    lemma_positive_ops_are_snapshot(Map::<nat, nat>::empty(), entries);
}

/// The last operation in a list that touches a given price, if any.
pub open spec fn last_op(ops: Seq<(Decimal, Decimal)>, k: nat) -> Option<(Decimal, Decimal)>
    decreases ops.len(),
{
    if ops.len() == 0 {
        None
    } else if ops.last().0.units() == k {
        Some(ops.last())
    } else {
        last_op(ops.drop_last(), k)
    }
}

proof fn lemma_apply_ops_lookup(m: Map<nat, nat>, ops: Seq<(Decimal, Decimal)>, k: nat)
    ensures
        match last_op(ops, k) {
            Some(op) => if op.1.units() == 0 {
                !apply_ops(m, ops).dom().contains(k)
            } else {
                apply_ops(m, ops).dom().contains(k) && apply_ops(m, ops)[k] == op.1.units()
            },
            None => (apply_ops(m, ops).dom().contains(k) <==> m.dom().contains(k))
                && (m.dom().contains(k) ==> apply_ops(m, ops)[k] == m[k]),
        },
    decreases ops.len(),
{
    if ops.len() > 0 {
        lemma_apply_ops_lookup(m, ops.drop_last(), k);
    }
}

/// Law: applying the same list of updates twice gives the same book as
/// applying it once.
pub proof fn lemma_update_idempotent(m: Map<nat, nat>, ops: Seq<(Decimal, Decimal)>)
    ensures
        apply_ops(apply_ops(m, ops), ops) == apply_ops(m, ops),
{
    let m1 = apply_ops(m, ops);
    let m2 = apply_ops(m1, ops);
    assert forall|k: nat|
        #![trigger m2.dom().contains(k)]
        #![trigger m1.dom().contains(k)]
        m2.dom().contains(k) <==> m1.dom().contains(k) by {
        lemma_apply_ops_lookup(m, ops, k);
        lemma_apply_ops_lookup(m1, ops, k);
    }
    assert forall|k: nat| m1.dom().contains(k) implies #[trigger] m2[k] == #[trigger] m1[k] by {
        lemma_apply_ops_lookup(m, ops, k);
        lemma_apply_ops_lookup(m1, ops, k);
    }
    assert(m2 =~= m1);
}

/// The smaller of a side length and a depth.
pub open spec fn min_len(len: nat, depth: nat) -> nat {
    if len <= depth {
        len
    } else {
        depth
    }
}

/// How many levels a vectored query returns under an optional limit.
pub open spec fn vec_take_len(len: nat, limit: Option<usize>) -> nat {
    match limit {
        Some(l) => min_len(len, l as nat),
        None => len,
    }
}

} // verus!
