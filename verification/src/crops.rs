//! Records of the crop subsystem.
use vstd::prelude::*;

verus! {

/// One plot in a batch plant request: the plot id, a fixed interval tag, and
/// the grid position.
#[derive(Debug, Clone, Copy, PartialEq, Eq, Structural)]
pub struct Farmland {
    pub id: i64,
    pub last_interval: i64,
    pub x: i64,
    pub y: i64,
}

} // verus!
