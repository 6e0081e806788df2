//! A live instantiation of a production strategy inside one agent.

use vstd::prelude::*;

use crate::ProductionStrategyName;

verus! {

/// One concurrent job slot for a strategy. `progress` counts the ticks since
/// the current job started; `0` means idle. A job is ready to complete once
/// `progress` reaches the strategy's duration, and `progress` then freezes
/// until the outputs can be delivered.
#[derive(Debug)]
pub struct Producer {
    /// The strategy this producer runs, by name.
    pub production_strategy_name: ProductionStrategyName,
    /// Ticks since the current job started; `0` when idle.
    pub progress: u32,
}

impl Producer {
    /// A fresh, idle producer for the named strategy.
    pub fn new(production_strategy_name: ProductionStrategyName) -> (r: Self)
        ensures
            r.production_strategy_name == production_strategy_name,
            r.progress == 0,
    {
        Self { production_strategy_name, progress: 0 }
    }
}

} // verus!
