use welove520::inventory::get_warehouse_item_count;
use welove520::inventory::Inventory;
use welove520::panorama::ItemInfo;
use welove520::panorama::Warehouse;

const WHEAT: i64 = 201001;

#[test]
fn test_new_inventory_is_empty() {
    let inv = Inventory::new();
    assert_eq!(inv.get(WHEAT), 0);
    assert_eq!(get_warehouse_item_count(&inv, 7), 0);
}

#[test]
fn test_from_warehouses_flattens_categories() {
    let ws = vec![
        Warehouse {
            category: 1,
            items: vec![
                ItemInfo { count: 25, item_id: WHEAT },
                ItemInfo { count: 3, item_id: 202001 },
            ],
        },
        Warehouse {
            category: 2,
            items: vec![ItemInfo { count: 9, item_id: 209001 }],
        },
    ];
    let inv = Inventory::from_warehouses(&ws);
    assert_eq!(inv.get(WHEAT), 25);
    assert_eq!(inv.get(202001), 3);
    assert_eq!(inv.get(209001), 9);
    assert_eq!(inv.get(999999), 0);
}

#[test]
fn test_from_warehouses_last_report_wins() {
    let ws = vec![
        Warehouse {
            category: 1,
            items: vec![ItemInfo { count: 5, item_id: WHEAT }],
        },
        Warehouse {
            category: 2,
            items: vec![ItemInfo { count: 8, item_id: WHEAT }],
        },
    ];
    let inv = Inventory::from_warehouses(&ws);
    assert_eq!(inv.get(WHEAT), 8);
}

#[test]
fn test_apply_delta_sums_within_cycle() {
    let ws = vec![Warehouse {
        category: 1,
        items: vec![ItemInfo { count: 10, item_id: WHEAT }],
    }];
    let mut inv = Inventory::from_warehouses(&ws);
    inv.apply_delta(WHEAT, -10);
    inv.apply_delta(WHEAT, 4);
    inv.apply_delta(WHEAT, -1);
    assert_eq!(inv.get(WHEAT), 10 - 10 + 4 - 1);
    assert_eq!(inv.get(202001), 0);
}

#[test]
fn test_apply_delta_may_go_negative() {
    let mut inv = Inventory::new();
    inv.apply_delta(WHEAT, -3);
    assert_eq!(inv.get(WHEAT), -3);
}

#[test]
fn test_set_count_overrides_drift() {
    let mut inv = Inventory::new();
    inv.apply_delta(WHEAT, 17);
    inv.set_count(WHEAT, 10);
    assert_eq!(inv.get(WHEAT), 10);
}
