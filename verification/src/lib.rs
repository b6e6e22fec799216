use vstd::prelude::*;

pub mod address;
pub mod address_map;
pub mod math;
pub mod vault;
pub mod rewards;
pub mod strategy_router;
