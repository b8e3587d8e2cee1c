//! Records of the market subsystem.
use vstd::prelude::*;

verus! {

/// The market catalog message.
#[derive(Debug, Clone)]
pub struct MarketInfo {
    pub op_time: i64,
    pub msg_type: i64,
    pub market_item_list: Vec<MarketItem>,
    pub next_refresh_time: i64,
}

/// One catalog entry: the offered item, its quantity and price, and whether
/// the listing is sold out (nonzero when it is).
#[derive(Debug, Clone, Copy, PartialEq, Eq, Structural)]
pub struct MarketItem {
    pub item_id: i64,
    pub count: i64,
    pub id: i64,
    pub sold_out: i64,
    pub coin: i64,
}

} // verus!
