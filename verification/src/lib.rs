//! A discrete-time production and inventory-reservation engine.
//!
//! Autonomous economic agents convert commodities into other commodities
//! under capacity and reservation constraints. Each agent owns one
//! [`inventory::Inventory`] per commodity and a list of
//! [`producer::Producer`]s; a producer advances a multi-tick job against the
//! agent's inventories, reserving its inputs up front so that production
//! never oversubscribes stock, and delivering its outputs only when the
//! target inventories have room.

pub mod agent;
pub mod ids;
pub mod inventory;
pub mod laws;
pub mod market;
pub mod model;
pub mod name_map;
pub mod producer;
pub mod strategy;
pub mod strings;
pub mod trade;

use vstd::prelude::*;

verus! {

/// A commodity is identified by a plain string name; any name may appear.
pub type CommodityName = String;

/// A production strategy is identified by a plain string name.
pub type ProductionStrategyName = String;

/// An agent is identified by a UUID.
pub type AgentId = uuid::Uuid;

} // verus!
