use welove520::automation::decide_order;
use welove520::automation::default_buy_ids;
use welove520::automation::partition_orders;
use welove520::automation::plan_harvest;
use welove520::automation::plan_market_buys;
use welove520::automation::plan_plant;
use welove520::automation::plan_surplus_sale;
use welove520::automation::confirm_surplus_sale;
use welove520::automation::sold_listings;
use welove520::automation::stall_empty_slots;
use welove520::automation::OrderDecision;
use welove520::automation::OrderRunner;
use welove520::automation::StallPlanner;
use welove520::crops::Farmland;
use welove520::inventory::Inventory;
use welove520::market::MarketInfo;
use welove520::market::MarketItem;
use welove520::order::Order;
use welove520::order::OrderItem;
use welove520::panorama::Field;
use welove520::stall::StallInfo;
use welove520::stall::StallItem;

const WHEAT: i64 = 201001;

fn field(id: i64, x: i64, y: i64, plant_item_id: i64, left_time: i64) -> Field {
    Field {
        rotate: 0,
        plant_time: 0,
        item_id: 0,
        product_status: 0,
        left_time,
        x,
        y,
        time: 0,
        id,
        plant_item_id,
    }
}

fn order(order_id: i64, voucher_item_id: i64, time_left: i64, items: Vec<OrderItem>) -> Order {
    Order {
        crystal_item_id: 0,
        desc_id: 0,
        voucher_item_id,
        icon: 0,
        op_time: 0,
        slot: 1,
        buyer: 0,
        special: 0,
        time_left,
        exp: 0,
        items,
        order_id,
        status: 0,
        coin: 0,
    }
}

fn stall_item(slot: i64, id: i64, status: i64) -> StallItem {
    StallItem {
        buyer_head_url: String::new(),
        item_id: WHEAT,
        count: 10,
        buyer_farm_name: String::new(),
        last_ad_time: 0,
        id,
        slot,
        buyer_lover_head_url: String::new(),
        status,
        coin: 36,
    }
}

fn stall(capacity: i64, last_free_ad_time: i64, items: Vec<StallItem>) -> StallInfo {
    StallInfo {
        last_free_ad_time,
        op_time: 0,
        msg_type: 20,
        stall_items: items,
        ad_auth: 0,
        capacity,
        farm_id: String::new(),
    }
}

fn wheat_inventory(count: i64) -> Inventory {
    let mut inv = Inventory::new();
    inv.apply_delta(WHEAT, count);
    inv
}

#[test]
fn test_plan_harvest_selects_and_sorts() {
    let fields = vec![
        field(4, 2, 1, WHEAT, -5),
        field(1, 1, 2, WHEAT, -1),
        field(2, 1, 1, WHEAT, 30),
        field(3, 1, 1, 999, -1),
        field(5, 1, 1, WHEAT, -2),
    ];
    // Ready: ids 4 (2,1), 1 (1,2), 5 (1,1); sorted by (x, y): 5, 1, 4.
    assert_eq!(plan_harvest(&fields, WHEAT), vec![5, 1, 4]);
}

#[test]
fn test_plan_plant_joins_empty_and_harvested() {
    let fields = vec![
        field(7, 3, 3, -1, 0),
        field(8, 0, 9, WHEAT, -1),
        field(9, 0, 8, WHEAT, 100),
    ];
    let farmlands = plan_plant(&fields, WHEAT);
    assert_eq!(
        farmlands,
        vec![
            Farmland { id: 8, last_interval: 1, x: 0, y: 9 },
            Farmland { id: 7, last_interval: 1, x: 3, y: 3 },
        ]
    );
}

#[test]
fn test_surplus_sale_resets_to_reserve() {
    // Warehouse holds 25 wheat, the reserve is 10: sell 15, then hold 10.
    let mut inv = wheat_inventory(25);
    let sale = plan_surplus_sale(&inv, WHEAT, 10);
    assert_eq!(sale, Some(15));
    confirm_surplus_sale(&mut inv, WHEAT, 10);
    assert_eq!(inv.get(WHEAT), 10);
}

#[test]
fn test_surplus_sale_skipped_at_reserve() {
    let inv = wheat_inventory(10);
    assert_eq!(plan_surplus_sale(&inv, WHEAT, 10), None);
}

#[test]
fn test_ordinary_infeasible_order_is_refused() {
    // Requires 3 wheat against 1 held, voucher id 0: refused, not deferred.
    let inv = wheat_inventory(1);
    let o = order(900, 0, 0, vec![OrderItem { item_id: WHEAT, count: 3 }]);
    assert_eq!(decide_order(&o, &inv), OrderDecision::Refuse);
}

#[test]
fn test_special_infeasible_order_is_deferred() {
    // The same order with a nonzero voucher: left untouched for a later cycle.
    let inv = wheat_inventory(1);
    let o = order(901, 30001, 0, vec![OrderItem { item_id: WHEAT, count: 3 }]);
    assert_eq!(decide_order(&o, &inv), OrderDecision::Defer);
}

#[test]
fn test_oversized_special_order_is_refused() {
    // Over the bulk cap: refused even when special and feasible.
    let inv = wheat_inventory(50);
    let o = order(902, 30001, 0, vec![OrderItem { item_id: WHEAT, count: 4 }]);
    assert_eq!(decide_order(&o, &inv), OrderDecision::Refuse);
}

#[test]
fn test_feasible_order_is_fulfilled() {
    let inv = wheat_inventory(5);
    let o = order(903, 0, 0, vec![OrderItem { item_id: WHEAT, count: 2 }]);
    assert_eq!(decide_order(&o, &inv), OrderDecision::Fulfill);
}

#[test]
fn test_order_chain_stops_without_follow_up() {
    // A chain of one follow-up: two accomplish steps, then the slot is done.
    let mut inv = wheat_inventory(5);
    let first = order(910, 0, 0, vec![OrderItem { item_id: WHEAT, count: 1 }]);
    let follow = order(911, 0, 0, vec![OrderItem { item_id: WHEAT, count: 2 }]);
    let mut runner = OrderRunner::start(first);

    assert_eq!(runner.decide(&inv), Some(OrderDecision::Fulfill));
    runner.note_accomplished(&mut inv, Some(follow));
    assert_eq!(inv.get(WHEAT), 4);
    assert!(runner.current.is_some());

    assert_eq!(runner.decide(&inv), Some(OrderDecision::Fulfill));
    runner.note_accomplished(&mut inv, None);
    assert_eq!(inv.get(WHEAT), 2);
    assert!(runner.current.is_none());
    assert_eq!(runner.decide(&inv), None);
}

#[test]
fn test_partition_orders_splits_and_sorts_waits() {
    let orders = vec![
        order(1, 0, 50, vec![]),
        order(2, 0, 0, vec![]),
        order(3, 0, 7, vec![]),
        order(4, 0, -1, vec![]),
        order(5, 0, 30, vec![]),
    ];
    let (ready, waiting_times) = partition_orders(orders);
    let ready_ids: Vec<i64> = ready.iter().map(|o| o.order_id).collect();
    assert_eq!(ready_ids, vec![2, 4]);
    assert_eq!(waiting_times, vec![7, 30, 50]);
}

#[test]
fn test_stall_free_ad_used_exactly_once() {
    // Capacity 5, two occupied unsold slots, free-ad timer at zero: three
    // listings go out and exactly the first carries the free-ad flag.
    let st = stall(5, 0, vec![stall_item(2, 71, 1), stall_item(4, 72, 1)]);
    let empty = stall_empty_slots(&st);
    assert_eq!(empty, vec![1, 3, 5]);
    assert!(sold_listings(&st).is_empty());

    let mut inv = wheat_inventory(100);
    let mut planner = StallPlanner::new(WHEAT, 10, 36, &st);
    let mut ad_flags = Vec::new();
    for slot in empty {
        let call = planner.propose_onshelf(slot, &inv).expect("inventory is ample");
        assert_eq!(call.slot, slot);
        assert_eq!(call.item_id, WHEAT);
        assert_eq!(call.count, 10);
        assert_eq!(call.coin, 36);
        assert_eq!(call.rainbow_coin, 0);
        ad_flags.push(call.ad);
        planner.note_onshelf_ok(&mut inv);
    }
    assert_eq!(ad_flags, vec![true, false, false]);
    assert_eq!(inv.get(WHEAT), 70);
}

#[test]
fn test_stall_ad_withheld_when_timer_ran() {
    let st = stall(2, 1699999999, vec![]);
    let inv = wheat_inventory(100);
    let mut planner = StallPlanner::new(WHEAT, 10, 36, &st);
    let call = planner.propose_onshelf(1, &inv).unwrap();
    assert!(!call.ad);
}

#[test]
fn test_stall_listing_needs_full_lot() {
    let st = stall(2, 0, vec![]);
    let inv = wheat_inventory(9);
    let mut planner = StallPlanner::new(WHEAT, 10, 36, &st);
    assert!(planner.propose_onshelf(1, &inv).is_none());
    // The flag is not consumed by a listing that was never proposed.
    assert!(planner.ad_available);
}

#[test]
fn test_sold_listings_collects_status_two() {
    let st = stall(
        5,
        0,
        vec![stall_item(1, 81, 2), stall_item(2, 82, 1), stall_item(3, 83, 2)],
    );
    assert_eq!(sold_listings(&st), vec![(1, 81), (3, 83)]);
}

#[test]
fn test_plan_market_buys_filters_allow_list_and_stock() {
    let market = MarketInfo {
        op_time: 0,
        msg_type: 920,
        market_item_list: vec![
            MarketItem { item_id: 209001, count: 1, id: 11, sold_out: 0, coin: 5 },
            MarketItem { item_id: 209001, count: 1, id: 12, sold_out: 1, coin: 5 },
            MarketItem { item_id: 555555, count: 1, id: 13, sold_out: 0, coin: 5 },
            MarketItem { item_id: 210004, count: 2, id: 14, sold_out: 0, coin: 9 },
        ],
        next_refresh_time: 0,
    };
    let allow = default_buy_ids();
    assert_eq!(
        allow,
        vec![209001, 209002, 209003, 209004, 210001, 210002, 210003, 210004]
    );
    assert_eq!(plan_market_buys(&market, &allow), vec![11, 14]);
}
