//! The decision logic of the automation loop. Each cycle runs a fixed
//! sequence of phases: harvest & replant, stall restock & collection,
//! surplus liquidation, order fulfilment, and currency-item purchase. The
//! functions here make every decision of those phases from plain values —
//! which fields to harvest, which slots to list, what to sell, what to do
//! with each order — while the caller performs the network calls and sleeps
//! between them, reporting each outcome back.
use vstd::prelude::*;

verus! {

use vstd::relations::sorted_by;
use vstd::relations::total_ordering;
use vstd::seq_lib::lemma_sorted_unique;
use crate::bytes::lemma_insert_multiset;
use crate::crops::Farmland;
use crate::inventory::Inventory;
use crate::market::MarketInfo;
use crate::market::MarketItem;
use crate::order::Order;
use crate::order::OrderItem;
use crate::panorama::Field;
use crate::stall::StallInfo;
use crate::stall::StallItem;

/// Lexicographic order on `(x, y, id)` sort keys: position ascending, the id
/// as a final, deterministic tiebreak.
pub open spec fn triple_le(a: (i64, i64, i64), b: (i64, i64, i64)) -> bool {
    a.0 < b.0 || (a.0 == b.0 && (a.1 < b.1 || (a.1 == b.1 && a.2 <= b.2)))
}

/// `triple_le` packaged as a relation value, for `sort_by` and `sorted_by`.
pub open spec fn triple_leq() -> spec_fn((i64, i64, i64), (i64, i64, i64)) -> bool {
    |a: (i64, i64, i64), b: (i64, i64, i64)| triple_le(a, b)
}

pub proof fn lemma_triple_le_total_ordering()
    ensures
        total_ordering(triple_leq()),
{
}

fn triple_le_exec(a: (i64, i64, i64), b: (i64, i64, i64)) -> (r: bool)
    ensures
        r == triple_le(a, b),
{
    a.0 < b.0 || (a.0 == b.0 && (a.1 < b.1 || (a.1 == b.1 && a.2 <= b.2)))
}

fn insert_sorted_triple(sorted: &mut Vec<(i64, i64, i64)>, x: (i64, i64, i64))
    requires
        sorted_by(old(sorted)@, triple_leq()),
    ensures
        sorted_by(final(sorted)@, triple_leq()),
        final(sorted)@.to_multiset() == old(sorted)@.to_multiset().insert(x),
{
    let mut pos: usize = 0;
    while pos < sorted.len() && !triple_le_exec(x, sorted[pos])
        invariant
            0 <= pos <= sorted@.len(),
            sorted@ == old(sorted)@,
            forall|j: int| 0 <= j < pos ==> triple_le(#[trigger] sorted@[j], x),
        decreases sorted@.len() - pos,
    {
        pos = pos + 1;
    }
    let ghost pre = sorted@;
    let ghost p = pos as int;
    sorted.insert(pos, x);
    proof {
        let leq = triple_leq();
        let post = sorted@;
        assert(post == pre.insert(p, x));
        assert forall|a: int, b: int| 0 <= a < b < post.len() implies leq(post[a], post[b]) by {
            if b < p {
                assert(leq(pre[a], pre[b]));
            } else if a < p && b == p {
                assert(triple_le(pre[a], x));
            } else if a < p && b > p {
                assert(leq(pre[a], pre[b - 1]));
            } else if a == p {
                assert(triple_le(x, pre[p]));
                if b > p + 1 {
                    assert(leq(pre[p], pre[b - 1]));
                }
            } else {
                assert(leq(pre[a - 1], pre[b - 1]));
            }
        }
        lemma_insert_multiset(pre, p, x);
    }
}

fn sort_triples(v: Vec<(i64, i64, i64)>) -> (r: Vec<(i64, i64, i64)>)
    ensures
        r@ == v@.sort_by(triple_leq()),
{
    broadcast use vstd::seq_lib::group_to_multiset_ensures;

    let ghost orig = v@;
    let mut rest = v;
    let mut sorted: Vec<(i64, i64, i64)> = Vec::new();
    while rest.len() > 0
        invariant
            sorted_by(sorted@, triple_leq()),
            sorted@.to_multiset().add(rest@.to_multiset()) == orig.to_multiset(),
        decreases rest@.len(),
    {
        let ghost pre_rest = rest@;
        let x = rest.pop().unwrap();
        proof {
            assert(pre_rest.remove(pre_rest.len() - 1) =~= pre_rest.drop_last());
            assert(rest@.to_multiset() =~= pre_rest.to_multiset().remove(pre_rest.last()));
        }
        insert_sorted_triple(&mut sorted, x);
        proof {
            broadcast use vstd::multiset::group_multiset_axioms;

            assert(sorted@.to_multiset().add(rest@.to_multiset()) =~= orig.to_multiset());
        }
    }
    proof {
        broadcast use vstd::multiset::group_multiset_axioms;

        assert(rest@.to_multiset().len() == 0);
        assert(sorted@.to_multiset() =~= orig.to_multiset());
        lemma_triple_le_total_ordering();
        orig.lemma_sort_by_ensures(triple_leq());
        lemma_sorted_unique(sorted@, orig.sort_by(triple_leq()), triple_leq());
    }
    sorted
}

/// A field is ready for harvest when it grows the target crop and its
/// remaining growth time has run out (gone negative).
pub open spec fn harvest_ready(f: Field, target_item: int) -> bool {
    f.plant_item_id == target_item && f.left_time < 0
}

/// A field joins the plant batch when it is empty (`-1` sentinel) or is
/// about to be harvested this cycle.
pub open spec fn plant_candidate(f: Field, target_item: int) -> bool {
    f.plant_item_id == -1 || harvest_ready(f, target_item)
}

/// The `(x, y, id)` sort key of a field.
pub open spec fn field_triple(f: Field) -> (i64, i64, i64) {
    (f.x, f.y, f.id)
}

/// The plot a plant batch names for a sort key.
pub open spec fn farmland_of(t: (i64, i64, i64)) -> Farmland {
    Farmland { id: t.2, last_interval: 1, x: t.0, y: t.1 }
}

/// The harvest batch of one cycle: the ids of every ready field, ordered by
/// position (x, then y) with the id as tiebreak.
pub open spec fn harvest_plan(fields: Seq<Field>, target_item: int) -> Seq<i64> {
    fields.filter(|f: Field| harvest_ready(f, target_item)).map_values(
        |f: Field| field_triple(f),
    ).sort_by(triple_leq()).map_values(|t: (i64, i64, i64)| t.2)
}

/// The plant batch of one cycle: one plot for every empty or just-harvested
/// field, in the same deterministic order as the harvest batch.
pub open spec fn plant_plan(fields: Seq<Field>, target_item: int) -> Seq<Farmland> {
    fields.filter(|f: Field| plant_candidate(f, target_item)).map_values(
        |f: Field| field_triple(f),
    ).sort_by(triple_leq()).map_values(|t: (i64, i64, i64)| farmland_of(t))
}

fn select_triples(fields: &Vec<Field>, target_item: i64, want_plant: bool) -> (r: Vec<
    (i64, i64, i64),
>)
    ensures
        want_plant ==> r@ == fields@.filter(
            |f: Field| plant_candidate(f, target_item as int),
        ).map_values(|f: Field| field_triple(f)),
        !want_plant ==> r@ == fields@.filter(
            |f: Field| harvest_ready(f, target_item as int),
        ).map_values(|f: Field| field_triple(f)),
{
    broadcast use vstd::seq_lib::group_seq_properties;

    let ghost pred_harvest = |f: Field| harvest_ready(f, target_item as int);
    let ghost pred_plant = |f: Field| plant_candidate(f, target_item as int);
    let ghost to_triple = |f: Field| field_triple(f);
    let mut r: Vec<(i64, i64, i64)> = Vec::new();
    let mut i: usize = 0;
    while i < fields.len()
        invariant
            0 <= i <= fields@.len(),
            want_plant ==> r@ == fields@.take(i as int).filter(pred_plant).map_values(to_triple),
            !want_plant ==> r@ == fields@.take(i as int).filter(pred_harvest).map_values(
                to_triple,
            ),
        decreases fields@.len() - i,
    {
        let f = &fields[i];
        proof {
            assert(fields@.take(i + 1) =~= fields@.take(i as int).push(fields@[i as int]));
            fields@.take(i as int).lemma_filter_push(fields@[i as int], pred_plant);
            fields@.take(i as int).lemma_filter_push(fields@[i as int], pred_harvest);
            fields@.take(i as int).filter(pred_plant).lemma_push_map_commute(
                to_triple,
                fields@[i as int],
            );
            fields@.take(i as int).filter(pred_harvest).lemma_push_map_commute(
                to_triple,
                fields@[i as int],
            );
        }
        let ready = f.plant_item_id == target_item && f.left_time < 0;
        let selected = if want_plant {
            f.plant_item_id == -1 || ready
        } else {
            ready
        };
        if selected {
            r.push((f.x, f.y, f.id));
        }
        i = i + 1;
    }
    proof {
        assert(fields@.take(fields@.len() as int) =~= fields@);
    }
    r
}

/// Plans the harvest batch: reads every field once and returns the ids to
/// harvest, deterministically ordered. Empty when nothing is ready.
pub fn plan_harvest(fields: &Vec<Field>, target_item: i64) -> (ids: Vec<i64>)
    ensures
        ids@ == harvest_plan(fields@, target_item as int),
{
    let triples = select_triples(fields, target_item, false);
    let sorted = sort_triples(triples);
    let mut ids: Vec<i64> = Vec::new();
    let mut i: usize = 0;
    while i < sorted.len()
        invariant
            0 <= i <= sorted@.len(),
            ids@.len() == i,
            forall|j: int| 0 <= j < i ==> ids@[j] == sorted@[j].2,
        decreases sorted@.len() - i,
    {
        ids.push(sorted[i].2);
        i = i + 1;
    }
    proof {
        assert(ids@ =~= sorted@.map_values(|t: (i64, i64, i64)| t.2));
    }
    ids
}

/// Plans the plant batch: one plot record for every empty or just-harvested
/// field, deterministically ordered. Planting is issued only when the batch
/// is non-empty; the caller checks.
pub fn plan_plant(fields: &Vec<Field>, target_item: i64) -> (farmlands: Vec<Farmland>)
    ensures
        farmlands@ == plant_plan(fields@, target_item as int),
{
    let triples = select_triples(fields, target_item, true);
    let sorted = sort_triples(triples);
    let mut farmlands: Vec<Farmland> = Vec::new();
    let mut i: usize = 0;
    while i < sorted.len()
        invariant
            0 <= i <= sorted@.len(),
            farmlands@.len() == i,
            forall|j: int| 0 <= j < i ==> farmlands@[j] == farmland_of(sorted@[j]),
        decreases sorted@.len() - i,
    {
        let t = sorted[i];
        farmlands.push(Farmland { id: t.2, last_interval: 1, x: t.0, y: t.1 });
        i = i + 1;
    }
    proof {
        assert(farmlands@ =~= sorted@.map_values(|t: (i64, i64, i64)| farmland_of(t)));
    }
    farmlands
}

/// The surplus the liquidation phase sells: how far the tracked quantity
/// exceeds the reserve, if at all.
pub fn plan_surplus_sale(inv: &Inventory, item_id: i64, reserve: i64) -> (r: Option<i64>)
    requires
        reserve >= 0,
    ensures
        match r {
            Some(count) => inv@[item_id as int] > reserve && count == inv@[item_id as int]
                - reserve,
            None => inv@[item_id as int] <= reserve,
        },
{
    let current = inv.get(item_id);
    if current > reserve {
        Some(current - reserve)
    } else {
        None
    }
}

/// Records a successful surplus sale: the sale is authoritative, so the
/// tracked quantity is reset to exactly the reserve — not derived by
/// subtraction, which would keep any estimation drift alive.
pub fn confirm_surplus_sale(inv: &mut Inventory, item_id: i64, reserve: i64)
    ensures
        final(inv)@ == old(inv)@.insert(item_id as int, reserve as int),
        final(inv)@[item_id as int] == reserve,
        forall|k: int| k != item_id ==> final(inv)@[k] == old(inv)@[k],
{
    inv.set_count(item_id, reserve);
}

/// The catalog entries the purchase phase buys: every entry whose item is on
/// the allow-list and which is not sold out, by listing id, in catalog order.
pub open spec fn buy_plan(items: Seq<MarketItem>, allow: Seq<i64>) -> Seq<i64> {
    items.filter(|it: MarketItem| allow.contains(it.item_id) && it.sold_out == 0).map_values(
        |it: MarketItem| it.id,
    )
}

fn allow_contains(allow: &Vec<i64>, id: i64) -> (r: bool)
    ensures
        r == allow@.contains(id),
{
    let mut i: usize = 0;
    while i < allow.len()
        invariant
            0 <= i <= allow@.len(),
            forall|j: int| 0 <= j < i ==> allow@[j] != id,
        decreases allow@.len() - i,
    {
        if allow[i] == id {
            return true;
        }
        i = i + 1;
    }
    false
}

/// Plans the currency-item purchases of one cycle. No inventory gating:
/// purchases are currency-limited by the backend, not item-limited.
pub fn plan_market_buys(market: &MarketInfo, allow_ids: &Vec<i64>) -> (ids: Vec<i64>)
    ensures
        ids@ == buy_plan(market.market_item_list@, allow_ids@),
{
    broadcast use vstd::seq_lib::group_seq_properties;

    let items = &market.market_item_list;
    let ghost pred = |it: MarketItem| allow_ids@.contains(it.item_id) && it.sold_out == 0;
    let ghost to_id = |it: MarketItem| it.id;
    let mut ids: Vec<i64> = Vec::new();
    let mut i: usize = 0;
    while i < items.len()
        invariant
            0 <= i <= items@.len(),
            ids@ == items@.take(i as int).filter(pred).map_values(to_id),
        decreases items@.len() - i,
    {
        proof {
            assert(items@.take(i + 1) =~= items@.take(i as int).push(items@[i as int]));
            items@.take(i as int).lemma_filter_push(items@[i as int], pred);
            items@.take(i as int).filter(pred).lemma_push_map_commute(to_id, items@[i as int]);
        }
        if allow_contains(allow_ids, items[i].item_id) && items[i].sold_out == 0 {
            ids.push(items[i].id);
        }
        i = i + 1;
    }
    proof {
        assert(items@.take(items@.len() as int) =~= items@);
    }
    ids
}

/// The backend only bulk-fulfils orders whose total required item count is
/// at most this cap; larger orders are refused outright.
pub const ORDER_ITEM_CAP: i64 = 3;

/// The total number of items an order requires, over all its lines.
pub open spec fn order_total_count(items: Seq<OrderItem>) -> int
    decreases items.len(),
{
    if items.len() == 0 {
        0
    } else {
        order_total_count(items.drop_last()) + items.last().count
    }
}

/// Every required line of the order is covered by the tracked inventory.
pub open spec fn order_feasible(items: Seq<OrderItem>, m: Map<int, int>) -> bool {
    forall|k: int|
        0 <= k < items.len() ==> m[(#[trigger] items[k]).item_id as int] >= items[k].count
}

/// An order as the backend reports it: non-negative counts whose total fits
/// the machine integer the loop sums them in.
pub open spec fn order_counts_wf(o: Order) -> bool {
    (forall|k: int| 0 <= k < o.items@.len() ==> (#[trigger] o.items@[k]).count >= 0)
        && order_total_count(o.items@) <= i64::MAX
}

/// What the loop does with one ready order.
#[derive(Debug, Clone, Copy, PartialEq, Eq, Structural)]
pub enum OrderDecision {
    /// Accept and complete the order now: every required item is tracked as
    /// available and the total count is within the bulk cap.
    Fulfill,
    /// Refuse the order: it is infeasible and ordinary (no voucher), or it is
    /// over the bulk cap — not worth the slot it occupies.
    Refuse,
    /// Leave the order untouched for a future cycle: a special (vouchered)
    /// order within the cap whose ingredients are merely not yet available.
    Defer,
}

/// The refusal-versus-deferral rule of the fulfilment phase.
pub open spec fn spec_decide_order(o: Order, m: Map<int, int>) -> OrderDecision {
    if order_feasible(o.items@, m) && order_total_count(o.items@) <= ORDER_ITEM_CAP as int {
        OrderDecision::Fulfill
    } else if o.voucher_item_id == 0 || order_total_count(o.items@) > ORDER_ITEM_CAP as int {
        OrderDecision::Refuse
    } else {
        OrderDecision::Defer
    }
}

/// The totals of the order's prefixes never exceed the order's total and
/// never go negative, when no line is negative.
proof fn lemma_total_count_take(items: Seq<OrderItem>, j: int)
    requires
        0 <= j <= items.len(),
        forall|k: int| 0 <= k < items.len() ==> (#[trigger] items[k]).count >= 0,
    ensures
        0 <= order_total_count(items.take(j)) <= order_total_count(items),
    decreases items.len() - j,
{
    lemma_total_count_take_nonneg(items, j);
    if j == items.len() {
        assert(items.take(j) =~= items);
    } else {
        assert(items.take(j + 1).drop_last() =~= items.take(j));
        assert(items.take(j + 1).last() == items[j]);
        lemma_total_count_take(items, j + 1);
    }
}

proof fn lemma_total_count_take_nonneg(items: Seq<OrderItem>, j: int)
    requires
        0 <= j <= items.len(),
        forall|k: int| 0 <= k < items.len() ==> (#[trigger] items[k]).count >= 0,
    ensures
        order_total_count(items.take(j)) >= 0,
    decreases j,
{
    if j > 0 {
        assert(items.take(j).drop_last() =~= items.take(j - 1));
        assert(items.take(j).last() == items[j - 1]);
        lemma_total_count_take_nonneg(items, j - 1);
    }
}

/// Decides one ready order against the tracked inventory: fulfil, refuse, or
/// defer, exactly as `spec_decide_order` states.
pub fn decide_order(order: &Order, inv: &Inventory) -> (d: OrderDecision)
    requires
        order_counts_wf(*order),
    ensures
        d == spec_decide_order(*order, inv@),
{
    let items = &order.items;
    let mut total: i64 = 0;
    let mut feasible: bool = true;
    let mut j: usize = 0;
    while j < items.len()
        invariant
            0 <= j <= items@.len(),
            total == order_total_count(items@.take(j as int)),
            feasible == order_feasible(items@.take(j as int), inv@),
        decreases items@.len() - j,
    {
        proof {
            lemma_total_count_take(items@, j + 1);
            assert(items@.take(j + 1).drop_last() =~= items@.take(j as int));
            assert(items@.take(j + 1).last() == items@[j as int]);
        }
        total = total + items[j].count;
        if inv.get(items[j].item_id) < items[j].count {
            feasible = false;
        }
        proof {
            assert forall|k: int| 0 <= k < j + 1 implies (feasible ==> inv@[(#[trigger] items@.take(
                j + 1,
            )[k]).item_id as int] >= items@.take(j + 1)[k].count) by {
                if k < j {
                    assert(items@.take(j as int)[k] == items@[k]);
                }
            }
            if !feasible && order_feasible(items@.take(j + 1), inv@) {
                assert forall|k: int| 0 <= k < j implies inv@[(#[trigger] items@.take(
                    j as int,
                )[k]).item_id as int] >= items@.take(j as int)[k].count by {
                    assert(items@.take(j + 1)[k] == items@.take(j as int)[k]);
                }
            }
        }
        j = j + 1;
    }
    proof {
        assert(items@.take(items@.len() as int) =~= items@);
    }
    if feasible && total <= ORDER_ITEM_CAP {
        OrderDecision::Fulfill
    } else if order.voucher_item_id == 0 || total > ORDER_ITEM_CAP {
        OrderDecision::Refuse
    } else {
        OrderDecision::Defer
    }
}

/// The inventory after fulfilling an order: each required line subtracted in
/// turn.
pub open spec fn consume_items(m: Map<int, int>, items: Seq<OrderItem>) -> Map<int, int>
    decreases items.len(),
{
    if items.len() == 0 {
        m
    } else {
        let prev = consume_items(m, items.drop_last());
        prev.insert(
            items.last().item_id as int,
            prev[items.last().item_id as int] - items.last().count,
        )
    }
}

/// The items one identifier loses when an order is fulfilled.
pub open spec fn required_sum_for(items: Seq<OrderItem>, id: int) -> int
    decreases items.len(),
{
    if items.len() == 0 {
        0
    } else {
        required_sum_for(items.drop_last(), id) + (if items.last().item_id == id {
            items.last().count as int
        } else {
            0
        })
    }
}

/// Fulfilling an order moves each tracked quantity down by exactly the total
/// that order requires of the item, and touches nothing else.
pub proof fn lemma_consume_items_get(m: Map<int, int>, items: Seq<OrderItem>, id: int)
    ensures
        consume_items(m, items)[id] == m[id] - required_sum_for(items, id),
    decreases items.len(),
{
    if items.len() > 0 {
        lemma_consume_items_get(m, items.drop_last(), id);
    }
}

/// What one identifier loses is never negative and never more than the
/// order's total, when no line is negative.
proof fn lemma_required_sum_bounds(items: Seq<OrderItem>, id: int)
    requires
        forall|k: int| 0 <= k < items.len() ==> (#[trigger] items[k]).count >= 0,
    ensures
        0 <= required_sum_for(items, id) <= order_total_count(items),
    decreases items.len(),
{
    if items.len() > 0 {
        lemma_required_sum_bounds(items.drop_last(), id);
    }
}

/// The per-order retry sub-loop of the fulfilment phase: the slot being
/// worked, or nothing once the slot is abandoned or exhausted. The caller
/// performs the accomplish, reward and refuse calls and reports back.
pub struct OrderRunner {
    /// The order now occupying the slot, if the sub-loop is still running.
    pub current: Option<Order>,
}

impl OrderRunner {
    /// Starts the sub-loop on one ready order.
    pub fn start(order: Order) -> (r: OrderRunner)
        ensures
            r.current == Some(order),
    {
        OrderRunner { current: Some(order) }
    }

    /// The decision for the order now occupying the slot, if any.
    pub fn decide(&self, inv: &Inventory) -> (d: Option<OrderDecision>)
        requires
            self.current is Some ==> order_counts_wf(self.current->0),
        ensures
            match self.current {
                Some(o) => d == Some(spec_decide_order(o, inv@)),
                None => d is None,
            },
    {
        match &self.current {
            Some(order) => Some(decide_order(order, inv)),
            None => None,
        }
    }

    /// Abandons the slot for this cycle: after a refusal, a deferral, or a
    /// failed call.
    pub fn finish(&mut self)
        ensures
            final(self).current is None,
    {
        self.current = None;
    }

    /// Records a successful accomplish call: the required items of the
    /// current order leave the tracked inventory, and the slot passes to the
    /// follow-up order of the response — or the sub-loop is done when the
    /// response carried none, so it never spins on a response lacking a
    /// follow-up message.
    pub fn note_accomplished(&mut self, inv: &mut Inventory, follow_up: Option<Order>)
        requires
            old(self).current is Some,
            order_counts_wf(old(self).current->0),
            order_feasible(old(self).current->0.items@, old(inv)@),
        ensures
            final(self).current == follow_up,
            final(inv)@ == consume_items(old(inv)@, old(self).current->0.items@),
    {
        let order = self.current.as_ref().unwrap();
        let items = &order.items;
        let mut j: usize = 0;
        while j < items.len()
            invariant
                0 <= j <= items@.len(),
                inv@ == consume_items(old(inv)@, items@.take(j as int)),
            decreases items@.len() - j,
        {
            let ghost pre = inv@;
            let id = items[j].item_id;
            let count = items[j].count;
            proof {
                lemma_consume_items_get(old(inv)@, items@.take(j as int), id as int);
                assert(forall|k: int|
                    0 <= k < j ==> (#[trigger] items@.take(j as int)[k]).count >= 0);
                lemma_required_sum_bounds(items@.take(j as int), id as int);
                lemma_total_count_take(items@, j as int);
                old(inv).lemma_quantity_in_range(id as int);
                assert(old(inv)@[id as int] >= count) by {
                    assert(items@[j as int].item_id == id);
                }
                assert(pre[id as int] >= old(inv)@[id as int] - order_total_count(
                    items@.take(j as int),
                ));
                lemma_total_count_take(items@, j + 1);
                assert(items@.take(j + 1).drop_last() =~= items@.take(j as int));
                assert(items@.take(j + 1).last() == items@[j as int]);
                assert(pre[id as int] - count >= -order_total_count(items@.take(j + 1)));
                assert(pre[id as int] <= old(inv)@[id as int]);
            }
            inv.apply_delta(id, -count);
            proof {
                assert(inv@ =~= consume_items(old(inv)@, items@.take(j + 1)));
            }
            j = j + 1;
        }
        proof {
            assert(items@.take(items@.len() as int) =~= items@);
        }
        self.current = follow_up;
    }
}

/// The accomplish calls one slot makes when fed a chain of responses, each
/// carrying a follow-up order in the slot or not: the sub-loop runs once,
/// then once more per follow-up supplied, and stops at the first response
/// without one.
pub open spec fn chain_steps(followups: Seq<Option<Order>>) -> nat
    decreases followups.len(),
{
    if followups.len() == 0 {
        1
    } else if followups[0] is None {
        1
    } else {
        (1 + chain_steps(followups.drop_first())) as nat
    }
}

/// Order sub-loop termination: however the chain of follow-up orders runs,
/// the sub-loop performs at most one step more than the chain supplies, and
/// it stops at the first response that carries no follow-up message rather
/// than spinning on it.
pub proof fn lemma_order_chain_terminates(followups: Seq<Option<Order>>)
    ensures
        chain_steps(followups) <= followups.len() + 1,
        forall|i: int|
            0 <= i < followups.len() && followups[i] is None ==> chain_steps(followups) <= i + 1,
    decreases followups.len(),
{
    if followups.len() > 0 && followups[0] is Some {
        lemma_order_chain_terminates(followups.drop_first());
        assert forall|i: int|
            0 <= i < followups.len() && followups[i] is None implies chain_steps(followups) <= i
            + 1 by {
            assert(followups.drop_first()[i - 1] is None);
        }
    }
}

/// Ascending order on waiting times.
pub open spec fn i64_leq() -> spec_fn(i64, i64) -> bool {
    |a: i64, b: i64| a <= b
}

pub proof fn lemma_i64_le_total_ordering()
    ensures
        total_ordering(i64_leq()),
{
}

fn insert_sorted_i64(sorted: &mut Vec<i64>, x: i64)
    requires
        sorted_by(old(sorted)@, i64_leq()),
    ensures
        sorted_by(final(sorted)@, i64_leq()),
        final(sorted)@.to_multiset() == old(sorted)@.to_multiset().insert(x),
{
    let mut pos: usize = 0;
    while pos < sorted.len() && !(x <= sorted[pos])
        invariant
            0 <= pos <= sorted@.len(),
            sorted@ == old(sorted)@,
            forall|j: int| 0 <= j < pos ==> #[trigger] sorted@[j] <= x,
        decreases sorted@.len() - pos,
    {
        pos = pos + 1;
    }
    let ghost pre = sorted@;
    let ghost p = pos as int;
    sorted.insert(pos, x);
    proof {
        let leq = i64_leq();
        let post = sorted@;
        assert(post == pre.insert(p, x));
        assert forall|a: int, b: int| 0 <= a < b < post.len() implies leq(post[a], post[b]) by {
            if b < p {
                assert(leq(pre[a], pre[b]));
            } else if a < p && b >= p {
                assert(pre[a] <= x);
                if b > p {
                    assert(leq(pre[a], pre[b - 1]));
                }
            } else if a == p && b > p {
                assert(x <= pre[p]);
                if b > p + 1 {
                    assert(leq(pre[p], pre[b - 1]));
                }
            } else if a > p {
                assert(leq(pre[a - 1], pre[b - 1]));
            }
        }
        lemma_insert_multiset(pre, p, x);
    }
}

/// An order is ready when no wait remains before it can be taken.
pub open spec fn order_ready(o: Order) -> bool {
    o.time_left <= 0
}

/// The waiting times the fulfilment phase reports, ascending.
pub open spec fn waiting_times_plan(orders: Seq<Order>) -> Seq<i64> {
    orders.filter(|o: Order| !order_ready(o)).map_values(|o: Order| o.time_left).sort_by(i64_leq())
}

/// Splits the open orders into the ready ones, in report order, and the
/// waiting times of the rest, ascending — the times are observed only for
/// logging and pacing expectations.
pub fn partition_orders(orders: Vec<Order>) -> (r: (Vec<Order>, Vec<i64>))
    ensures
        r.0@ == orders@.filter(|o: Order| order_ready(o)),
        r.1@ == waiting_times_plan(orders@),
{
    broadcast use vstd::seq_lib::group_to_multiset_ensures;
    broadcast use vstd::multiset::group_multiset_axioms;

    let ghost pred_ready = |o: Order| order_ready(o);
    let ghost pred_wait = |o: Order| !order_ready(o);
    let ghost to_time = |o: Order| o.time_left;
    let ghost all = orders@;
    let mut rest = orders;
    let mut ready: Vec<Order> = Vec::new();
    let mut waiting_times: Vec<i64> = Vec::new();
    proof {
        assert(all.skip(rest@.len() as int) =~= Seq::<Order>::empty());
    }
    while rest.len() > 0
        invariant
            rest@.len() <= all.len(),
            rest@ == all.take(rest@.len() as int),
            ready@ == all.skip(rest@.len() as int).filter(pred_ready),
            sorted_by(waiting_times@, i64_leq()),
            waiting_times@.to_multiset() == all.skip(rest@.len() as int).filter(
                pred_wait,
            ).map_values(to_time).to_multiset(),
        decreases rest@.len(),
    {
        let ghost n = rest@.len() as int;
        let o = rest.pop().unwrap();
        proof {
            reveal_with_fuel(Seq::<Order>::filter, 3);
            assert(o == all[n - 1]);
            assert(rest@ =~= all.take(n - 1));
            assert(seq![o].drop_last() =~= Seq::<Order>::empty());
            assert(all.skip(n - 1) =~= seq![o] + all.skip(n));
            Seq::filter_distributes_over_add(seq![o], all.skip(n), pred_ready);
            Seq::filter_distributes_over_add(seq![o], all.skip(n), pred_wait);
            assert(seq![o].drop_last() =~= Seq::<Order>::empty());
        }
        if o.time_left <= 0 {
            proof {
                assert(seq![o].filter(pred_ready) =~= seq![o]);
                assert(seq![o].filter(pred_wait) =~= Seq::<Order>::empty());
                assert((seq![o].filter(pred_wait) + all.skip(n).filter(pred_wait)) =~= all.skip(
                    n,
                ).filter(pred_wait));
            }
            ready.insert(0, o);
            proof {
                assert(ready@ =~= all.skip(n - 1).filter(pred_ready));
            }
        } else {
            let t = o.time_left;
            proof {
                assert(seq![o].filter(pred_ready) =~= Seq::<Order>::empty());
                assert(seq![o].filter(pred_wait) =~= seq![o]);
                assert((seq![o].filter(pred_ready) + all.skip(n).filter(pred_ready)) =~= all.skip(
                    n,
                ).filter(pred_ready));
                assert(all.skip(n - 1).filter(pred_wait).map_values(to_time) =~= seq![t] + all.skip(
                    n,
                ).filter(pred_wait).map_values(to_time));
                assert(seq![t] + all.skip(n).filter(pred_wait).map_values(to_time) =~= (all.skip(
                    n,
                ).filter(pred_wait).map_values(to_time)).insert(0, t));
                lemma_insert_multiset(all.skip(n).filter(pred_wait).map_values(to_time), 0, t);
            }
            insert_sorted_i64(&mut waiting_times, t);
        }
    }
    proof {
        assert(all.skip(0) =~= all);
        lemma_i64_le_total_ordering();
        let times = all.filter(pred_wait).map_values(to_time);
        times.lemma_sort_by_ensures(i64_leq());
        lemma_sorted_unique(waiting_times@, times.sort_by(i64_leq()), i64_leq());
    }
    (ready, waiting_times)
}

/// One stall listing call, exactly as the loop issues it.
#[derive(Debug, Clone, Copy, PartialEq, Eq, Structural)]
pub struct OnshelfCall {
    pub slot: i64,
    pub item_id: i64,
    pub count: i64,
    pub coin: i64,
    pub ad: bool,
    pub rainbow_coin: i64,
}

/// The restock planner of one cycle: the crop the stall lists, the lot size
/// and price of a listing, and whether the daily free advertisement is still
/// available this cycle.
pub struct StallPlanner {
    pub item_id: i64,
    pub count: i64,
    pub coin: i64,
    pub ad_available: bool,
}

impl StallPlanner {
    /// Reads the free-ad timer from the stall state: a zero timer means the
    /// daily allowance is unused, so the first listing of the cycle may
    /// carry the flag.
    pub fn new(item_id: i64, count: i64, coin: i64, stall: &StallInfo) -> (r: StallPlanner)
        ensures
            r.item_id == item_id,
            r.count == count,
            r.coin == coin,
            r.ad_available == (stall.last_free_ad_time == 0),
    {
        StallPlanner { item_id, count, coin, ad_available: stall.last_free_ad_time == 0 }
    }

    /// Proposes a listing for one empty (or just collected) slot, only when
    /// the tracked inventory still holds a full lot. The free-ad flag rides
    /// on the first listing the cycle proposes and is consumed by that
    /// proposal, whether or not the call later succeeds: it is never reused
    /// within the cycle.
    pub fn propose_onshelf(&mut self, slot: i64, inv: &Inventory) -> (r: Option<OnshelfCall>)
        ensures
            final(self).item_id == old(self).item_id,
            final(self).count == old(self).count,
            final(self).coin == old(self).coin,
            inv@[old(self).item_id as int] >= old(self).count ==> r == Some(
                (OnshelfCall {
                    slot,
                    item_id: old(self).item_id,
                    count: old(self).count,
                    coin: old(self).coin,
                    ad: old(self).ad_available,
                    rainbow_coin: 0,
                }),
            ) && final(self).ad_available == false,
            inv@[old(self).item_id as int] < old(self).count ==> r is None && *final(self)
                == *old(self),
    {
        if inv.get(self.item_id) >= self.count {
            let ad = self.ad_available;
            self.ad_available = false;
            Some(
                OnshelfCall {
                    slot,
                    item_id: self.item_id,
                    count: self.count,
                    coin: self.coin,
                    ad,
                    rainbow_coin: 0,
                },
            )
        } else {
            None
        }
    }

    /// Records a successful listing: one lot leaves the tracked inventory,
    /// optimistically, without a warehouse re-read.
    pub fn note_onshelf_ok(&self, inv: &mut Inventory)
        requires
            0 <= self.count,
            i64::MIN <= old(inv)@[self.item_id as int] - self.count,
        ensures
            final(inv)@ == old(inv)@.insert(
                self.item_id as int,
                old(inv)@[self.item_id as int] - self.count,
            ),
            final(inv)@[self.item_id as int] == old(inv)@[self.item_id as int] - self.count,
            forall|k: int| k != self.item_id ==> final(inv)@[k] == old(inv)@[k],
    {
        proof {
            old(inv).lemma_quantity_in_range(self.item_id as int);
        }
        inv.apply_delta(self.item_id, -self.count);
    }
}

/// The slot numbers the stall's current listings occupy.
pub open spec fn occupied_slots(items: Seq<StallItem>) -> Seq<i64> {
    items.map_values(|it: StallItem| it.slot)
}

/// The slots the restock phase lists into: every slot number from 1 to the
/// capacity that no current listing occupies, ascending.
pub open spec fn empty_slot_plan(stall: StallInfo) -> Seq<i64> {
    if stall.capacity <= 0 {
        Seq::empty()
    } else {
        Seq::new(stall.capacity as nat, |i: int| (i + 1) as i64).filter(
            |s: i64| !occupied_slots(stall.stall_items@).contains(s),
        )
    }
}

fn slot_occupied(items: &Vec<StallItem>, slot: i64) -> (r: bool)
    ensures
        r == occupied_slots(items@).contains(slot),
{
    let mut i: usize = 0;
    while i < items.len()
        invariant
            0 <= i <= items@.len(),
            forall|j: int| 0 <= j < i ==> occupied_slots(items@)[j] != slot,
        decreases items@.len() - i,
    {
        if items[i].slot == slot {
            proof {
                assert(occupied_slots(items@)[i as int] == slot);
            }
            return true;
        }
        i = i + 1;
    }
    proof {
        if occupied_slots(items@).contains(slot) {
            let j = choose|j: int|
                0 <= j < occupied_slots(items@).len() && occupied_slots(items@)[j] == slot;
        }
    }
    false
}

/// The empty slots of the stall, ascending.
pub fn stall_empty_slots(stall: &StallInfo) -> (slots: Vec<i64>)
    requires
        stall.capacity < i64::MAX,
    ensures
        slots@ == empty_slot_plan(*stall),
{
    broadcast use vstd::seq_lib::group_seq_properties;

    let mut slots: Vec<i64> = Vec::new();
    if stall.capacity <= 0 {
        proof {
            assert(slots@ =~= empty_slot_plan(*stall));
        }
        return slots;
    }
    let ghost pred = |s: i64| !occupied_slots(stall.stall_items@).contains(s);
    let mut slot: i64 = 1;
    while slot <= stall.capacity
        invariant
            1 <= slot <= stall.capacity + 1,
            stall.capacity < i64::MAX,
            slots@ == Seq::new((slot - 1) as nat, |i: int| (i + 1) as i64).filter(pred),
        decreases stall.capacity + 1 - slot,
    {
        proof {
            assert(Seq::new(slot as nat, |i: int| (i + 1) as i64) =~= Seq::new(
                (slot - 1) as nat,
                |i: int| (i + 1) as i64,
            ).push(slot));
            Seq::new((slot - 1) as nat, |i: int| (i + 1) as i64).lemma_filter_push(slot, pred);
        }
        if !slot_occupied(&stall.stall_items, slot) {
            slots.push(slot);
        }
        slot = slot + 1;
    }
    slots
}

/// The listings whose earnings wait to be collected (sold status), as
/// `(slot, listing id)` pairs in report order.
pub open spec fn sold_listing_plan(items: Seq<StallItem>) -> Seq<(i64, i64)> {
    items.filter(|it: StallItem| it.status == 2).map_values(|it: StallItem| (it.slot, it.id))
}

/// The sold listings to collect earnings from this cycle.
pub fn sold_listings(stall: &StallInfo) -> (r: Vec<(i64, i64)>)
    ensures
        r@ == sold_listing_plan(stall.stall_items@),
{
    broadcast use vstd::seq_lib::group_seq_properties;

    let items = &stall.stall_items;
    let ghost pred = |it: StallItem| it.status == 2;
    let ghost to_pair = |it: StallItem| (it.slot, it.id);
    let mut r: Vec<(i64, i64)> = Vec::new();
    let mut i: usize = 0;
    while i < items.len()
        invariant
            0 <= i <= items@.len(),
            r@ == items@.take(i as int).filter(pred).map_values(to_pair),
        decreases items@.len() - i,
    {
        proof {
            assert(items@.take(i + 1) =~= items@.take(i as int).push(items@[i as int]));
            items@.take(i as int).lemma_filter_push(items@[i as int], pred);
            items@.take(i as int).filter(pred).lemma_push_map_commute(to_pair, items@[i as int]);
        }
        if items[i].status == 2 {
            r.push((items[i].slot, items[i].id));
        }
        i = i + 1;
    }
    proof {
        assert(items@.take(items@.len() as int) =~= items@);
    }
    r
}

/// The fixed allow-list of the purchase phase: the ingot and gem items the
/// agent always buys when offered.
pub fn default_buy_ids() -> (v: Vec<i64>)
    ensures
        v@ == seq![209001i64, 209002i64, 209003i64, 209004i64, 210001i64, 210002i64, 210003i64, 210004i64],
{
    let mut v: Vec<i64> = Vec::new();
    v.push(209001);
    v.push(209002);
    v.push(209003);
    v.push(209004);
    v.push(210001);
    v.push(210002);
    v.push(210003);
    v.push(210004);
    proof {
        assert(v@ =~= seq![
            209001i64,
            209002i64,
            209003i64,
            209004i64,
            210001i64,
            210002i64,
            210003i64,
            210004i64,
        ]);
    }
    v
}

} // verus!
