//! Data carried for the trade subsystem. The production engine never reads
//! or writes these beyond storing them; trade matching itself lives outside
//! the engine.

use vstd::prelude::*;

verus! {

/// A concluded trade of one commodity between two agents.
#[derive(Debug)]
pub struct Trade {
    pub buyer_id: uuid::Uuid,
    pub seller_id: uuid::Uuid,
    pub commodity_name: String,
    pub price: i32,
}

/// An agent's belief about the price range of a commodity.
#[derive(Debug)]
pub struct PriceBelief {
    pub upper: i32,
    pub lower: i32,
}

impl PriceBelief {
    /// The starting belief: somewhere between 0 and 100.
    pub fn new() -> (r: Self)
        ensures
            r.upper == 100,
            r.lower == 0,
    {
        Self { upper: 100, lower: 0 }
    }
}

/// A standing offer to buy or sell a commodity.
#[derive(Debug)]
pub struct TradeOffer {
    pub commodity_name: String,
    pub ideal_amount: i32,
    pub max_amount: i32,
    pub price: i32,
}

} // verus!
