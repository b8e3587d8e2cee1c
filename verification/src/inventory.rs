//! The optimistic inventory tracker: an in-memory mapping from item
//! identifier to held quantity, seeded once per cycle from a server-confirmed
//! warehouse read and then updated locally as actions consume or produce
//! items. Quantities may go transiently negative when an estimate was stale;
//! the next cycle's refresh replaces the whole snapshot.
//!
//! The model of a tracker is a total map from item identifier to quantity,
//! zero for every item never seen.
use vstd::prelude::*;

verus! {

use crate::panorama::ItemInfo;
use crate::panorama::Warehouse;

/// Last-wins lookup in an association list, zero when the key is absent.
pub open spec fn assoc_get(s: Seq<(i64, i64)>, id: int) -> int
    decreases s.len(),
{
    if s.len() == 0 {
        0
    } else if s.last().0 == id {
        s.last().1 as int
    } else {
        assoc_get(s.drop_last(), id)
    }
}

/// The `(item_id, count)` pairs of one warehouse read, in report order.
pub open spec fn item_pairs(items: Seq<ItemInfo>) -> Seq<(i64, i64)> {
    items.map_values(|it: ItemInfo| (it.item_id, it.count))
}

/// The `(item_id, count)` pairs of all warehouses, flattened in report order.
pub open spec fn warehouse_pairs(ws: Seq<Warehouse>) -> Seq<(i64, i64)>
    decreases ws.len(),
{
    if ws.len() == 0 {
        Seq::empty()
    } else {
        warehouse_pairs(ws.drop_last()) + item_pairs(ws.last().items@)
    }
}

/// The quantity map a warehouse read seeds: for a repeated item identifier
/// the last reported count wins.
pub open spec fn warehouse_map(ws: Seq<Warehouse>) -> Map<int, int> {
    Map::new(|k: int| true, |k: int| assoc_get(warehouse_pairs(ws), k))
}

/// One optimistic update at the model level.
pub open spec fn apply_delta_spec(m: Map<int, int>, item_id: int, delta: int) -> Map<int, int> {
    m.insert(item_id, m[item_id] + delta)
}

/// A run of optimistic updates, applied first to last.
pub open spec fn apply_deltas(m: Map<int, int>, ds: Seq<(i64, i64)>) -> Map<int, int>
    decreases ds.len(),
{
    if ds.len() == 0 {
        m
    } else {
        apply_deltas(apply_delta_spec(m, ds[0].0 as int, ds[0].1 as int), ds.drop_first())
    }
}

/// The part of a run of deltas that touches one item: the sum of its deltas.
pub open spec fn delta_sum_for(ds: Seq<(i64, i64)>, id: int) -> int
    decreases ds.len(),
{
    if ds.len() == 0 {
        0
    } else {
        (if ds[0].0 == id {
            ds[0].1 as int
        } else {
            0
        }) + delta_sum_for(ds.drop_first(), id)
    }
}

/// Inventory bookkeeping within a cycle is exact: after any run of
/// `apply_delta` updates, each tracked quantity equals its refreshed value
/// plus the sum of the deltas applied to that item, with no server re-read.
pub proof fn lemma_apply_deltas_sum(m: Map<int, int>, ds: Seq<(i64, i64)>, id: int)
    ensures
        apply_deltas(m, ds)[id] == m[id] + delta_sum_for(ds, id),
    decreases ds.len(),
{
    if ds.len() > 0 {
        lemma_apply_deltas_sum(
            apply_delta_spec(m, ds[0].0 as int, ds[0].1 as int),
            ds.drop_first(),
            id,
        );
    }
}

/// Every association-list lookup yields a stored machine integer or zero.
proof fn lemma_assoc_get_in_range(s: Seq<(i64, i64)>, k: int)
    ensures
        i64::MIN <= assoc_get(s, k) <= i64::MAX,
    decreases s.len(),
{
    if s.len() > 0 && s.last().0 != k {
        lemma_assoc_get_in_range(s.drop_last(), k);
    }
}

/// The in-memory tracker. Its model is the total quantity map; the backing
/// list is append-only within a cycle, and a lookup takes the last entry for
/// a key, so an update is one push. The next refresh builds a fresh tracker.
pub struct Inventory {
    items: Vec<(i64, i64)>,
}

impl View for Inventory {
    type V = Map<int, int>;

    closed spec fn view(&self) -> Map<int, int> {
        Map::new(|k: int| true, |k: int| assoc_get(self.items@, k))
    }
}

impl Inventory {
    /// An empty tracker: every quantity zero.
    pub fn new() -> (r: Inventory)
        ensures
            forall|k: int| r@[k] == 0,
    {
        Inventory { items: Vec::new() }
    }

    /// Seeds a tracker from a full warehouse read, replacing nothing: the
    /// caller discards the previous cycle's tracker.
    pub fn from_warehouses(ws: &Vec<Warehouse>) -> (r: Inventory)
        ensures
            r@ == warehouse_map(ws@),
    {
        let mut items: Vec<(i64, i64)> = Vec::new();
        let mut i: usize = 0;
        while i < ws.len()
            invariant
                0 <= i <= ws@.len(),
                items@ == warehouse_pairs(ws@.take(i as int)),
            decreases ws@.len() - i,
        {
            let w = &ws[i];
            let ghost pre = items@;
            let mut j: usize = 0;
            while j < w.items.len()
                invariant
                    0 <= j <= w.items@.len(),
                    items@ == pre + item_pairs(w.items@.take(j as int)),
                decreases w.items@.len() - j,
            {
                items.push((w.items[j].item_id, w.items[j].count));
                proof {
                    assert(item_pairs(w.items@.take(j + 1)) =~= item_pairs(
                        w.items@.take(j as int),
                    ).push((w.items@[j as int].item_id, w.items@[j as int].count)));
                    assert(items@ =~= pre + item_pairs(w.items@.take(j + 1)));
                }
                j = j + 1;
            }
            proof {
                assert(w.items@.take(w.items@.len() as int) =~= w.items@);
                assert(ws@.take(i + 1).drop_last() =~= ws@.take(i as int));
                assert(ws@.take(i + 1).last() == ws@[i as int]);
                assert(items@ =~= warehouse_pairs(ws@.take(i + 1)));
            }
            i = i + 1;
        }
        proof {
            assert(ws@.take(ws@.len() as int) =~= ws@);
        }
        Inventory { items }
    }

    /// Every tracked quantity fits the machine integer the tracker stores.
    pub proof fn lemma_quantity_in_range(&self, k: int)
        ensures
            i64::MIN <= self@[k] <= i64::MAX,
    {
        lemma_assoc_get_in_range(self.items@, k);
    }

    /// The tracked quantity of an item, zero when the item was never seen.
    pub fn get(&self, item_id: i64) -> (r: i64)
        ensures
            r as int == self@[item_id as int],
    {
        let mut i: usize = self.items.len();
        proof {
            assert(self.items@.take(i as int) =~= self.items@);
        }
        while i > 0
            invariant
                0 <= i <= self.items@.len(),
                assoc_get(self.items@, item_id as int) == assoc_get(
                    self.items@.take(i as int),
                    item_id as int,
                ),
            decreases i,
        {
            i = i - 1;
            proof {
                assert(self.items@.take(i + 1).last() == self.items@[i as int]);
                assert(self.items@.take(i + 1).drop_last() =~= self.items@.take(i as int));
            }
            if self.items[i].0 == item_id {
                return self.items[i].1;
            }
        }
        proof {
            assert(self.items@.take(0) =~= Seq::<(i64, i64)>::empty());
        }
        0
    }

    /// One optimistic update: moves the tracked quantity of `item_id` by
    /// `delta`, touching no other item. Never rejected; the result may be
    /// negative when the estimate was stale.
    pub fn apply_delta(&mut self, item_id: i64, delta: i64)
        requires
            i64::MIN <= old(self)@[item_id as int] + delta <= i64::MAX,
        ensures
            final(self)@ == apply_delta_spec(old(self)@, item_id as int, delta as int),
            final(self)@[item_id as int] == old(self)@[item_id as int] + delta,
            forall|k: int| k != item_id ==> final(self)@[k] == old(self)@[k],
    {
        let current = self.get(item_id);
        self.items.push((item_id, current + delta));
        proof {
            assert(self.items@.last() == (item_id, (current + delta) as i64));
            assert(self.items@.drop_last() =~= old(self).items@);
            assert(self@ =~= apply_delta_spec(old(self)@, item_id as int, delta as int));
        }
    }

    /// Overwrites the tracked quantity of one item with an authoritative
    /// value, touching no other item.
    pub fn set_count(&mut self, item_id: i64, count: i64)
        ensures
            final(self)@ == old(self)@.insert(item_id as int, count as int),
            final(self)@[item_id as int] == count as int,
            forall|k: int| k != item_id ==> final(self)@[k] == old(self)@[k],
    {
        self.items.push((item_id, count));
        proof {
            assert(self.items@.drop_last() =~= old(self).items@);
            assert(self@ =~= old(self)@.insert(item_id as int, count as int));
        }
    }
}

/// The tracked quantity of an item in a warehouse snapshot, zero for an
/// unknown item.
pub fn get_warehouse_item_count(warehouse_items: &Inventory, item_id: i64) -> (r: i64)
    ensures
        r as int == warehouse_items@[item_id as int],
{
    warehouse_items.get(item_id)
}

} // verus!
