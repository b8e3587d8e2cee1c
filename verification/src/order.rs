//! Records of the order subsystem.
use vstd::prelude::*;

verus! {

/// The open-orders message.
#[derive(Debug, Clone)]
pub struct OrderInfo {
    pub op_time: i64,
    pub msg_type: i64,
    pub orders: Vec<Order>,
}

/// One order slot: the required items, the wait before it can be taken
/// (`time_left`), and the voucher reward that marks a special order when
/// nonzero.
#[derive(Debug, Clone)]
pub struct Order {
    pub crystal_item_id: i64,
    pub desc_id: i64,
    pub voucher_item_id: i64,
    pub icon: i64,
    pub op_time: i64,
    pub slot: i64,
    pub buyer: i64,
    pub special: i64,
    pub time_left: i64,
    pub exp: i64,
    pub items: Vec<OrderItem>,
    pub order_id: i64,
    pub status: i64,
    pub coin: i64,
}

/// One required item of an order.
#[derive(Debug, Clone, Copy, PartialEq, Eq, Structural)]
pub struct OrderItem {
    pub item_id: i64,
    pub count: i64,
}

} // verus!
