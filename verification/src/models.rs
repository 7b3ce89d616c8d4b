//! Records as they arrive on the wire, after the JSON layer has split them
//! into fields. Decimal fields are still text here.

use vstd::prelude::*;

verus! {

/// Side of the book an order rests on.
#[derive(Copy, Clone, PartialEq, Eq, Debug, Structural)]
pub enum OrderType {
    Buy,
    Sell,
}

/// Role of a participant in a completed execution.
#[derive(Copy, Clone, PartialEq, Eq, Debug, Structural)]
pub enum ExecutionType {
    Maker,
    Taker,
}

/// One entry of the initial order snapshot.
#[derive(Debug)]
pub struct RawOrder {
    pub quantity: String,
    pub price: String,
    pub order_type: OrderType,
}

/// One entry of an order update.
#[derive(Debug)]
pub struct RawOrderDelta {
    pub quantity: String,
    pub price: String,
    pub order_type: OrderType,
}

/// One completed execution, from the snapshot or from an update.
#[derive(Debug)]
pub struct RawCompletedOrder {
    pub price: String,
    pub quantity: String,
    pub match_id: u128,
    pub updated_at: u64,
    pub order_type: OrderType,
    pub execution_type: ExecutionType,
}

} // verus!
