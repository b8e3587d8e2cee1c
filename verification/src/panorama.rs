//! Records of the panorama (whole-farm) subsystem: plantable fields and the
//! warehouse inventory read.
use vstd::prelude::*;

verus! {

/// A plantable plot as the server reports it: grid position, the planted
/// item (`-1` when empty), and the remaining growth time (negative when the
/// crop is ready).
#[derive(Debug, Clone, Copy, PartialEq, Eq, Structural)]
pub struct Field {
    pub rotate: i64,
    pub plant_time: i64,
    pub item_id: i64,
    pub product_status: i64,
    pub left_time: i64,
    pub x: i64,
    pub y: i64,
    pub time: i64,
    pub id: i64,
    pub plant_item_id: i64,
}

/// One warehouse category and the items it holds.
#[derive(Debug, Clone)]
pub struct Warehouse {
    pub category: i64,
    pub items: Vec<ItemInfo>,
}

/// One held item: its identifier and quantity.
#[derive(Debug, Clone, Copy, PartialEq, Eq, Structural)]
pub struct ItemInfo {
    pub count: i64,
    pub item_id: i64,
}

} // verus!
