//! Records of the stall subsystem.
use vstd::prelude::*;

verus! {

/// The stall-state message: capacity, current listings, and the free-ad
/// timer (`0` when the daily free advertisement is still unused).
#[derive(Debug, Clone)]
pub struct StallInfo {
    pub last_free_ad_time: i64,
    pub op_time: i64,
    pub msg_type: i64,
    pub stall_items: Vec<StallItem>,
    pub ad_auth: i64,
    pub capacity: i64,
    pub farm_id: String,
}

/// One stall listing; `status` is the listing state (`2` once the listing
/// has sold and its earnings wait to be collected).
#[derive(Debug, Clone)]
pub struct StallItem {
    pub buyer_head_url: String,
    pub item_id: i64,
    pub count: i64,
    pub buyer_farm_name: String,
    pub last_ad_time: i64,
    pub id: i64,
    pub slot: i64,
    pub buyer_lover_head_url: String,
    pub status: i64,
    pub coin: i64,
}

} // verus!
