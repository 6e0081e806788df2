//! The market: the catalog of production strategies, the collection of
//! agents, and the global tick that advances every agent once.

use vstd::prelude::*;

use crate::agent::{agent_sound, agent_stepped, strategy_attached, Agent};
use crate::model::{
    lemma_req_amount_absent, lemma_total_demand_congruent, lemma_total_demand_zero,
    producer_demand, total_demand, StrategyMap,
};
use crate::name_map::NamedMap;
use crate::strategy::ProductionStrategy;
use crate::trade::Trade;
use crate::CommodityName;

verus! {

/// Sum of the prices of a sequence of trades.
pub open spec fn sum_prices(trades: Seq<Trade>) -> int
    decreases trades.len(),
{
    if trades.len() == 0 {
        0
    } else {
        sum_prices(trades.drop_last()) + trades.last().price
    }
}

/// The catalog of strategies and the collection of agents. Strategies are
/// registered once and immutable thereafter; agents step independently, each
/// against its own inventories only.
#[derive(Debug)]
pub struct Market {
    pub buy_offers: NamedMap<Vec<Trade>>,
    pub sell_offers: NamedMap<Vec<Trade>>,
    pub agents: Vec<Agent>,
    pub production_strategies: NamedMap<ProductionStrategy>,
    pub trades: NamedMap<Vec<Trade>>,
}

impl Market {
    /// Agent `i` is sound against this market's catalog: its inventories
    /// satisfy their invariant, every producer is wired up, and the
    /// reservation accounting holds.
    pub open spec fn agent_ok(self, i: int) -> bool {
        agent_sound(self.agents@[i], self.production_strategies@)
    }

    /// The market invariant: a well-formed catalog of usable strategies, and
    /// every agent sound against it.
    pub open spec fn wf(self) -> bool {
        &&& self.production_strategies.wf()
        &&& self.buy_offers.wf()
        &&& self.sell_offers.wf()
        &&& self.trades.wf()
        &&& forall|k: Seq<char>| #[trigger] self.production_strategies@.contains_key(k)
            ==> self.production_strategies@[k].wf()
        &&& forall|i: int| 0 <= i < self.agents@.len() ==> self.agent_ok(i)
    }

    /// An empty market: no strategies, no agents, no offers, no trades.
    pub fn new() -> (r: Self)
        ensures
            r.buy_offers@ == Map::<Seq<char>, Vec<Trade>>::empty(),
            r.sell_offers@ == Map::<Seq<char>, Vec<Trade>>::empty(),
            r.agents@ == Seq::<Agent>::empty(),
            r.production_strategies@ == Map::<Seq<char>, ProductionStrategy>::empty(),
            r.trades@ == Map::<Seq<char>, Vec<Trade>>::empty(),
            r.wf(),
    {
        Market {
            buy_offers: NamedMap::new(),
            sell_offers: NamedMap::new(),
            agents: Vec::new(),
            production_strategies: NamedMap::new(),
            trades: NamedMap::new(),
        }
    }

    /// Register a usable strategy under a name not taken yet. Returns
    /// whether the strategy was registered; a market never overwrites a
    /// registered strategy, and never accepts an unusable one.
    pub fn add_production_strategy(
        &mut self,
        name: &str,
        production_strategy: ProductionStrategy,
    ) -> (r: bool)
        requires
            old(self).wf(),
        ensures
            final(self).wf(),
            r == (production_strategy.wf() && !old(self).production_strategies@.contains_key(
                name@,
            )),
            r ==> final(self).production_strategies@ == old(
                self,
            ).production_strategies@.insert(name@, production_strategy),
            !r ==> final(self).production_strategies == old(self).production_strategies,
            final(self).agents == old(self).agents,
            final(self).buy_offers == old(self).buy_offers,
            final(self).sell_offers == old(self).sell_offers,
            final(self).trades == old(self).trades,
    {
        if !production_strategy.check_wf() {
            return false;
        }
        if self.production_strategies.contains(name) {
            return false;
        }
        let ghost cat0 = self.production_strategies@;
        let ghost agents0 = self.agents@;
        self.production_strategies.insert(name.to_owned(), production_strategy);
        proof {
            let cat1 = self.production_strategies@;
            assert forall|i: int| 0 <= i < self.agents@.len() implies self.agent_ok(i) by {
                assert(old(self).agent_ok(i));
                let a = agents0[i];
                assert forall|j: int| 0 <= j < a.producers@.len() implies a.producer_configured(
                    cat1,
                    j,
                ) by {
                    assert(a.producer_configured(cat0, j));
                    assert(a.producers@[j].production_strategy_name@ != name@);
                }
                assert forall|k: Seq<char>| #[trigger] a.inventories@.contains_key(k) implies
                    a.inventories@[k].reserved >= total_demand(a.producers@, cat1, k) by {
                    assert forall|j: int| 0 <= j < a.producers@.len() implies cat1[
                        (#[trigger] a.producers@[j]).production_strategy_name@] == cat0[
                        a.producers@[j].production_strategy_name@] by {
                        assert(a.producer_configured(cat0, j));
                        assert(a.producers@[j].production_strategy_name@ != name@);
                    }
                    lemma_total_demand_congruent(a.producers@, cat1, cat0, k);
                }
            }
        }
        true
    }

    /// Add a fresh agent with no inventories and no producers; returns its
    /// index, by which strategies can then be assigned to it.
    pub fn add_agent(&mut self) -> (agent_index: usize)
        requires
            old(self).wf(),
        ensures
            final(self).wf(),
            agent_index == old(self).agents@.len(),
            final(self).agents@.len() == old(self).agents@.len() + 1,
            forall|i: int|
                0 <= i < old(self).agents@.len() ==> final(self).agents@[i] == old(
                    self,
                ).agents@[i],
            final(self).agents@.last().inventories@ == Map::<Seq<char>, crate::inventory::Inventory>::empty(),
            final(self).agents@.last().producers@ == Seq::<crate::producer::Producer>::empty(),
            final(self).agents@.last().balance == crate::agent::DEFAULT_BALANCE,
            final(self).production_strategies == old(self).production_strategies,
            final(self).buy_offers == old(self).buy_offers,
            final(self).sell_offers == old(self).sell_offers,
            final(self).trades == old(self).trades,
    {
        let agent_index = self.agents.len();
        let agent = Agent::new();
        self.agents.push(agent);
        proof {
            assert forall|i: int| 0 <= i < self.agents@.len() implies self.agent_ok(i) by {
                if i < self.agents@.len() - 1 {
                    assert(old(self).agent_ok(i));
                }
            }
        }
        agent_index
    }

    /// Assign a registered strategy to the agent at `agent_index`: one more
    /// job slot, and an inventory for every commodity the strategy touches
    /// that the agent does not hold yet. Returns whether the assignment
    /// happened: it does exactly when the index is in range and the name is
    /// registered.
    pub fn assign_production_strategy(
        &mut self,
        agent_index: usize,
        production_strategy_name: &str,
    ) -> (r: bool)
        requires
            old(self).wf(),
        ensures
            final(self).wf(),
            r == (agent_index < old(self).agents@.len()
                && old(self).production_strategies@.contains_key(production_strategy_name@)),
            r ==> strategy_attached(
                old(self).agents@[agent_index as int],
                final(self).agents@[agent_index as int],
                production_strategy_name@,
                old(self).production_strategies@[production_strategy_name@],
            ),
            r ==> final(self).agents@.len() == old(self).agents@.len(),
            r ==> forall|i: int|
                0 <= i < old(self).agents@.len() && i != agent_index ==> final(self).agents@[i]
                    == old(self).agents@[i],
            !r ==> final(self).agents == old(self).agents,
            final(self).production_strategies == old(self).production_strategies,
            final(self).buy_offers == old(self).buy_offers,
            final(self).sell_offers == old(self).sell_offers,
            final(self).trades == old(self).trades,
    {
        if agent_index >= self.agents.len() {
            return false;
        }
        let strategy_opt = self.production_strategies.get(production_strategy_name);
        match strategy_opt {
            None => false,
            Some(strategy) => {
                let ghost cat = self.production_strategies@;
                let ghost a_old = self.agents@[agent_index as int];
                proof {
                    assert(old(self).agent_ok(agent_index as int));
                }
                Agent::add_production_strategy(
                    &mut self.agents[agent_index],
                    production_strategy_name,
                    strategy,
                );
                proof {
                    let a_new = self.agents@[agent_index as int];
                    let ps_new = a_new.producers@;
                    let s = cat[production_strategy_name@];
                    assert(ps_new.drop_last() =~= a_old.producers@);
                    assert forall|j: int| 0 <= j < ps_new.len() implies a_new.producer_configured(
                        cat,
                        j,
                    ) by {
                        if j < ps_new.len() - 1 {
                            assert(a_old.producer_configured(cat, j));
                            assert(ps_new[j] == a_old.producers@[j]);
                            assert forall|t: int| 0 <= t < cat[ps_new[j].production_strategy_name@].inputs@.len() implies a_new.inventories@.contains_key(#[trigger] cat[ps_new[j].production_strategy_name@].inputs@[t].commodity_name@) by {
                                assert(a_old.inventories@.contains_key(cat[ps_new[j].production_strategy_name@].inputs@[t].commodity_name@));
                            }
                            assert forall|t: int| 0 <= t < cat[ps_new[j].production_strategy_name@].outputs@.len() implies a_new.inventories@.contains_key(#[trigger] cat[ps_new[j].production_strategy_name@].outputs@[t].commodity_name@) by {
                                assert(a_old.inventories@.contains_key(cat[ps_new[j].production_strategy_name@].outputs@[t].commodity_name@));
                            }
                        } else {
                            assert(ps_new[j] == ps_new.last());
                        }
                    }
                    assert forall|k: Seq<char>| #[trigger] a_new.inventories@.contains_key(k)
                        implies a_new.inventories@[k].reserved >= total_demand(
                        ps_new,
                        cat,
                        k,
                    ) by {
                        assert(producer_demand(ps_new.last(), cat, k) == 0);
                        assert(total_demand(ps_new, cat, k) == total_demand(
                            a_old.producers@,
                            cat,
                            k,
                        ));
                        if a_old.inventories@.contains_key(k) {
                            assert(a_new.inventories@[k] == a_old.inventories@[k]);
                        } else {
                            assert forall|j: int| 0 <= j < a_old.producers@.len() implies
                                producer_demand(#[trigger] a_old.producers@[j], cat, k) == 0 by {
                                assert(a_old.producer_configured(cat, j));
                                let sj = cat[a_old.producers@[j].production_strategy_name@];
                                assert forall|t: int| 0 <= t < sj.inputs@.len() implies (
                                #[trigger] sj.inputs@[t].commodity_name@) != k by {
                                    assert(a_old.inventories@.contains_key(
                                        sj.inputs@[t].commodity_name@,
                                    ));
                                }
                                lemma_req_amount_absent(sj.inputs@, k);
                            }
                            lemma_total_demand_zero(a_old.producers@, cat, k);
                            assert(a_new.inventories@[k].reserved == 0);
                        }
                    }
                    assert forall|i: int| 0 <= i < self.agents@.len() implies self.agent_ok(
                        i,
                    ) by {
                        if i != agent_index {
                            assert(old(self).agent_ok(i));
                        }
                    }
                }
                true
            },
        }
    }

    /// Advance every agent exactly once, in stored order. Agents are
    /// independent within a tick: each steps against its own inventories
    /// only, exactly as [`crate::model::agent_tick`] says.
    pub fn run_production_step(&mut self)
        requires
            old(self).wf(),
        ensures
            final(self).wf(),
            final(self).agents@.len() == old(self).agents@.len(),
            forall|i: int|
                0 <= i < old(self).agents@.len() ==> agent_stepped(
                    old(self).agents@[i],
                    #[trigger] final(self).agents@[i],
                    old(self).production_strategies@,
                ),
            final(self).production_strategies == old(self).production_strategies,
            final(self).buy_offers == old(self).buy_offers,
            final(self).sell_offers == old(self).sell_offers,
            final(self).trades == old(self).trades,
    {
        let ghost s0 = *old(self);
        let n = self.agents.len();
        let mut i: usize = 0;
        while i < n
            invariant
                s0.wf(),
                n == s0.agents@.len(),
                i <= n,
                self.agents@.len() == n,
                self.production_strategies == s0.production_strategies,
                self.buy_offers == s0.buy_offers,
                self.sell_offers == s0.sell_offers,
                self.trades == s0.trades,
                forall|j: int| i <= j < n ==> self.agents@[j] == s0.agents@[j],
                forall|j: int|
                    0 <= j < i ==> agent_stepped(
                        s0.agents@[j],
                        #[trigger] self.agents@[j],
                        s0.production_strategies@,
                    ),
                forall|j: int|
                    0 <= j < i ==> agent_sound(
                        #[trigger] self.agents@[j],
                        s0.production_strategies@,
                    ),
            decreases n - i,
        {
            let ghost pre_agents = self.agents@;
            proof {
                assert(s0.agent_ok(i as int));
            }
            Agent::run_production_step(&mut self.agents[i], &self.production_strategies);
            proof {
                assert forall|j: int| 0 <= j < i + 1 implies agent_sound(
                    #[trigger] self.agents@[j],
                    s0.production_strategies@,
                ) by {
                    if j < i as int {
                        assert(self.agents@[j] == pre_agents[j]);
                        assert(agent_sound(pre_agents[j], s0.production_strategies@));
                    }
                }
            }
            i = i + 1;
        }
        proof {
            assert forall|i2: int| 0 <= i2 < self.agents@.len() implies self.agent_ok(i2) by {
                assert(agent_sound(self.agents@[i2], s0.production_strategies@));
            }
        }
    }
}

impl Market {
    /// The average price of the recorded trades in one commodity, truncated
    /// toward zero; zero when no trade was recorded. The bounds in the
    /// preconditions keep the running total and the count inside `i32`.
    pub fn get_historic_price(&self, commodity_name: &CommodityName) -> (r: i32)
        requires
            self.trades.wf(),
            self.trades@.contains_key(commodity_name@) ==> 1 <= self.trades@[commodity_name@]@.len() <= i32::MAX,
            forall|j: int|
                0 <= j <= self.trades@[commodity_name@]@.len() ==> i32::MIN <= sum_prices(
                    #[trigger] self.trades@[commodity_name@]@.take(j),
                ) <= i32::MAX,
        ensures
            !self.trades@.contains_key(commodity_name@) ==> r == 0,
            self.trades@.contains_key(commodity_name@) ==> {
                let total = sum_prices(self.trades@[commodity_name@]@);
                let count = self.trades@[commodity_name@]@.len() as int;
                if total >= 0 {
                    r == total / count
                } else {
                    r == -((-total) / count)
                }
            },
    {
        let trades = match self.trades.get(commodity_name.as_str()) {
            Some(trades) => trades,
            None => {
                return 0;
            },
        };
        let n = trades.len();
        let mut total: i32 = 0;
        let mut j: usize = 0;
        proof {
            assert(trades@.take(0) =~= Seq::<Trade>::empty());
        }
        while j < n
            invariant
                n == trades@.len(),
                1 <= n <= i32::MAX,
                j <= n,
                total == sum_prices(trades@.take(j as int)),
                forall|t: int|
                    0 <= t <= trades@.len() ==> i32::MIN <= sum_prices(
                        #[trigger] trades@.take(t),
                    ) <= i32::MAX,
            decreases n - j,
        {
            proof {
                assert(trades@.take(j as int + 1).drop_last() =~= trades@.take(j as int));
                assert(trades@.take(j as int + 1).last() == trades@[j as int]);
            }
            total = total + trades[j].price;
            j = j + 1;
        }
        proof {
            assert(trades@.take(n as int) =~= trades@);
        }
        total / (n as i32)
    }
}

impl Default for Market {
    /// An empty market, exactly [`Market::new`].
    fn default() -> (r: Self)
        ensures
            r.buy_offers@ == Map::<Seq<char>, Vec<Trade>>::empty(),
            r.sell_offers@ == Map::<Seq<char>, Vec<Trade>>::empty(),
            r.agents@ == Seq::<Agent>::empty(),
            r.production_strategies@ == Map::<Seq<char>, ProductionStrategy>::empty(),
            r.trades@ == Map::<Seq<char>, Vec<Trade>>::empty(),
            r.wf(),
    {
        Market::new()
    }
}

} // verus!
