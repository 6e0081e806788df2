//! An agent: its inventories, its producers, and the per-tick production
//! step that advances every producer against those inventories.

use vstd::prelude::*;

use crate::ids::fresh_agent_id;
use crate::inventory::{default_inventory, Inventory, DEFAULT_INVENTORY_CAPACITY};
use crate::model::{
    add_all, agent_tick, consume_all, inputs_satisfied, inv_map_wf, lemma_add_all,
    lemma_consume_all, lemma_req_amount_absent, lemma_req_amount_at, lemma_req_amount_nonneg,
    lemma_req_amount_take_le, lemma_reserve_all, lemma_total_demand_ge_member,
    lemma_total_demand_update, outputs_have_room, producer_demand, producer_tick,
    progress_demand, req_amount, reqs_in_map, reserve_all, total_demand, StrategyMap,
};
use crate::name_map::NamedMap;
use crate::producer::Producer;
use crate::strategy::{req_names_distinct, ProductionRequirement, ProductionStrategy};
use crate::trade::PriceBelief;
use crate::CommodityName;

verus! {

/// Starting currency stock of a fresh agent.
pub const DEFAULT_BALANCE: i32 = 100;

/// An autonomous economic agent: one inventory per commodity it touches and
/// one producer per job slot it runs. Inventories are owned exclusively;
/// nothing outside the agent's own step mutates them.
#[derive(Debug)]
pub struct Agent {
    pub id: crate::AgentId,
    pub inventories: NamedMap<Inventory>,
    pub producers: Vec<Producer>,
    pub balance: i32,
    pub price_beliefs: NamedMap<PriceBelief>,
}

impl Agent {
    /// Every inventory of the agent satisfies the inventory invariant.
    pub open spec fn inv_wf(self) -> bool {
        &&& self.inventories.wf()
        &&& inv_map_wf(self.inventories@)
    }

    /// Producer `i` is fully wired up: its strategy resolves in the catalog,
    /// the strategy is usable, every commodity the strategy touches has an
    /// inventory here, and the job's progress never ran past the duration.
    pub open spec fn producer_configured(self, catalog: StrategyMap, i: int) -> bool {
        let name = self.producers@[i].production_strategy_name@;
        &&& catalog.contains_key(name)
        &&& catalog[name].wf()
        &&& reqs_in_map(self.inventories@, catalog[name].inputs@)
        &&& reqs_in_map(self.inventories@, catalog[name].outputs@)
        &&& self.producers@[i].progress <= catalog[name].duration
    }

    /// Every producer of the agent is fully wired up against `catalog`.
    pub open spec fn configured(self, catalog: StrategyMap) -> bool {
        forall|i: int| 0 <= i < self.producers@.len() ==> self.producer_configured(catalog, i)
    }

    /// Each inventory's reserved stock covers everything the in-flight jobs
    /// hold reserved: the accounting that makes consuming a finished job's
    /// inputs always safe.
    pub open spec fn reserve_consistent(self, catalog: StrategyMap) -> bool {
        forall|k: Seq<char>| #[trigger] self.inventories@.contains_key(k)
            ==> self.inventories@[k].reserved >= total_demand(self.producers@, catalog, k)
    }

    /// A fresh agent: no inventories, no producers, the default balance.
    pub fn new() -> (r: Self)
        ensures
            r.inventories@ == Map::<Seq<char>, Inventory>::empty(),
            r.producers@ == Seq::<Producer>::empty(),
            r.balance == DEFAULT_BALANCE,
            r.price_beliefs@ == Map::<Seq<char>, PriceBelief>::empty(),
            r.inv_wf(),
    {
        Self {
            id: fresh_agent_id(),
            inventories: NamedMap::new(),
            producers: Vec::new(),
            balance: DEFAULT_BALANCE,
            price_beliefs: NamedMap::new(),
        }
    }

    /// The stored amount of a commodity; a commodity the agent never held is
    /// zero stock, not an error.
    pub fn inventory_amount(&self, commodity_name: &CommodityName) -> (r: u32)
        requires
            self.inventories.wf(),
        ensures
            r == if self.inventories@.contains_key(commodity_name@) {
                self.inventories@[commodity_name@].amount
            } else {
                0u32
            },
    {
        get_inventory_amount(&self.inventories, commodity_name)
    }

    /// The storage capacity for a commodity; a commodity the agent never
    /// held has zero capacity.
    pub fn inventory_capacity(&self, commodity_name: &CommodityName) -> (r: u32)
        requires
            self.inventories.wf(),
        ensures
            r == if self.inventories@.contains_key(commodity_name@) {
                self.inventories@[commodity_name@].capacity
            } else {
                0u32
            },
    {
        get_inventory_capacity(&self.inventories, commodity_name)
    }
}

/// The stored amount of a commodity in `inventories`, zero when absent.
pub fn get_inventory_amount(
    inventories: &NamedMap<Inventory>,
    commodity_name: &CommodityName,
) -> (r: u32)
    requires
        inventories.wf(),
    ensures
        r == if inventories@.contains_key(commodity_name@) {
            inventories@[commodity_name@].amount
        } else {
            0u32
        },
{
    match inventories.get(commodity_name.as_str()) {
        Some(inventory) => inventory.amount,
        None => 0,
    }
}

/// The storage capacity for a commodity in `inventories`, zero when absent.
pub fn get_inventory_capacity(
    inventories: &NamedMap<Inventory>,
    commodity_name: &CommodityName,
) -> (r: u32)
    requires
        inventories.wf(),
    ensures
        r == if inventories@.contains_key(commodity_name@) {
            inventories@[commodity_name@].capacity
        } else {
            0u32
        },
{
    match inventories.get(commodity_name.as_str()) {
        Some(inventory) => inventory.capacity,
        None => 0,
    }
}

/// Whether every input requirement's commodity has enough unreserved stock.
fn check_inputs_satisfied(
    inventories: &NamedMap<Inventory>,
    reqs: &Vec<ProductionRequirement>,
) -> (r: bool)
    requires
        inventories.wf(),
        inv_map_wf(inventories@),
        reqs_in_map(inventories@, reqs@),
    ensures
        r == inputs_satisfied(inventories@, reqs@),
{
    let n = reqs.len();
    let mut i: usize = 0;
    while i < n
        invariant
            inventories.wf(),
            inv_map_wf(inventories@),
            reqs_in_map(inventories@, reqs@),
            n == reqs@.len(),
            i <= n,
            forall|j: int|
                0 <= j < i ==> inventories@[#[trigger] reqs@[j].commodity_name@].spec_unreserved()
                    >= reqs@[j].amount,
        decreases n - i,
    {
        let inventory = inventories.get(reqs[i].commodity_name.as_str()).unwrap();
        if inventory.unreserved() < reqs[i].amount {
            assert(inventories@[reqs@[i as int].commodity_name@].spec_unreserved() < reqs@[
                i as int].amount);
            return false;
        }
        i = i + 1;
    }
    true
}

/// Whether every output requirement's commodity has enough free room.
fn check_outputs_room(
    inventories: &NamedMap<Inventory>,
    reqs: &Vec<ProductionRequirement>,
) -> (r: bool)
    requires
        inventories.wf(),
        inv_map_wf(inventories@),
        reqs_in_map(inventories@, reqs@),
    ensures
        r == outputs_have_room(inventories@, reqs@),
{
    let n = reqs.len();
    let mut i: usize = 0;
    while i < n
        invariant
            inventories.wf(),
            inv_map_wf(inventories@),
            reqs_in_map(inventories@, reqs@),
            n == reqs@.len(),
            i <= n,
            forall|j: int|
                0 <= j < i ==> inventories@[#[trigger] reqs@[j].commodity_name@].spec_free()
                    >= reqs@[j].amount,
        decreases n - i,
    {
        let inventory = inventories.get(reqs[i].commodity_name.as_str()).unwrap();
        if inventory.free() < reqs[i].amount {
            assert(inventories@[reqs@[i as int].commodity_name@].spec_free() < reqs@[
                i as int].amount);
            return false;
        }
        i = i + 1;
    }
    true
}

/// Reserve every input requirement, in declared order. The caller has
/// already checked that every one is satisfied, so no reservation fails.
fn reserve_inputs(inventories: &mut NamedMap<Inventory>, reqs: &Vec<ProductionRequirement>)
    requires
        old(inventories).wf(),
        inv_map_wf(old(inventories)@),
        req_names_distinct(reqs@),
        reqs_in_map(old(inventories)@, reqs@),
        inputs_satisfied(old(inventories)@, reqs@),
    ensures
        final(inventories).wf(),
        final(inventories)@ == reserve_all(old(inventories)@, reqs@),
{
    let ghost m0 = old(inventories)@;
    let n = reqs.len();
    let mut i: usize = 0;
    proof {
        assert(reqs@.take(0) =~= Seq::<ProductionRequirement>::empty());
    }
    while i < n
        invariant
            inventories.wf(),
            n == reqs@.len(),
            i <= n,
            inv_map_wf(m0),
            req_names_distinct(reqs@),
            reqs_in_map(m0, reqs@),
            inputs_satisfied(m0, reqs@),
            inventories@ == reserve_all(m0, reqs@.take(i as int)),
        decreases n - i,
    {
        let ghost prefix = reqs@.take(i as int);
        let ghost k = reqs@[i as int].commodity_name@;
        proof {
            assert(req_names_distinct(prefix));
            assert(forall|j: int|
                0 <= j < prefix.len() ==> m0.contains_key(#[trigger] prefix[j].commodity_name@));
            assert(inputs_satisfied(m0, prefix));
            lemma_reserve_all(m0, prefix);
            assert(forall|j: int|
                0 <= j < prefix.len() ==> (#[trigger] prefix[j].commodity_name@) != k);
            lemma_req_amount_absent(prefix, k);
            assert(inventories@[k].reserved == m0[k].reserved);
            assert(inventories@[k].amount == m0[k].amount);
        }
        let mut inventory = *inventories.get(reqs[i].commodity_name.as_str()).unwrap();
        proof {
            assert(inventory.spec_unreserved() >= reqs@[i as int].amount);
        }
        let _ = inventory.reserve(reqs[i].amount);
        inventories.update(reqs[i].commodity_name.as_str(), inventory);
        proof {
            assert(reqs@.take(i as int + 1).drop_last() =~= prefix);
            assert(reqs@.take(i as int + 1).last() == reqs@[i as int]);
            assert(inventories@ == reserve_all(m0, reqs@.take(i as int + 1)));
        }
        i = i + 1;
    }
    proof {
        assert(reqs@.take(n as int) =~= reqs@);
    }
}

/// Consume every input requirement of a completing job: release the
/// reservation and take the stock out, in declared order. The reservation
/// accounting guarantees every step's guard.
fn consume_inputs(inventories: &mut NamedMap<Inventory>, reqs: &Vec<ProductionRequirement>)
    requires
        old(inventories).wf(),
        inv_map_wf(old(inventories)@),
        req_names_distinct(reqs@),
        reqs_in_map(old(inventories)@, reqs@),
        forall|k: Seq<char>| #[trigger] old(inventories)@.contains_key(k)
            ==> old(inventories)@[k].reserved >= req_amount(reqs@, k),
    ensures
        final(inventories).wf(),
        final(inventories)@ == consume_all(old(inventories)@, reqs@),
{
    let ghost m0 = old(inventories)@;
    let n = reqs.len();
    let mut i: usize = 0;
    proof {
        assert(reqs@.take(0) =~= Seq::<ProductionRequirement>::empty());
    }
    while i < n
        invariant
            inventories.wf(),
            n == reqs@.len(),
            i <= n,
            inv_map_wf(m0),
            req_names_distinct(reqs@),
            reqs_in_map(m0, reqs@),
            forall|k: Seq<char>| #[trigger] m0.contains_key(k) ==> m0[k].reserved >= req_amount(
                reqs@,
                k,
            ),
            inventories@ == consume_all(m0, reqs@.take(i as int)),
        decreases n - i,
    {
        let ghost prefix = reqs@.take(i as int);
        let ghost k = reqs@[i as int].commodity_name@;
        proof {
            assert(req_names_distinct(prefix));
            assert(forall|j: int|
                0 <= j < prefix.len() ==> m0.contains_key(#[trigger] prefix[j].commodity_name@));
            assert forall|k2: Seq<char>| #[trigger] m0.contains_key(k2) implies m0[k2].reserved
                >= req_amount(prefix, k2) by {
                lemma_req_amount_take_le(reqs@, i as int, k2);
            }
            lemma_consume_all(m0, prefix);
            assert(forall|j: int|
                0 <= j < prefix.len() ==> (#[trigger] prefix[j].commodity_name@) != k);
            lemma_req_amount_absent(prefix, k);
            assert(inventories@[k].reserved == m0[k].reserved);
            assert(inventories@[k].amount == m0[k].amount);
            lemma_req_amount_at(reqs@, i as int);
            assert(m0[k].reserved >= reqs@[i as int].amount);
        }
        let mut inventory = *inventories.get(reqs[i].commodity_name.as_str()).unwrap();
        let _ = inventory.unreserve(reqs[i].amount);
        let _ = inventory.remove(reqs[i].amount);
        inventories.update(reqs[i].commodity_name.as_str(), inventory);
        proof {
            assert(reqs@.take(i as int + 1).drop_last() =~= prefix);
            assert(reqs@.take(i as int + 1).last() == reqs@[i as int]);
            assert(inventories@ == consume_all(m0, reqs@.take(i as int + 1)));
        }
        i = i + 1;
    }
    proof {
        assert(reqs@.take(n as int) =~= reqs@);
    }
}

/// Deliver every output requirement of a completing job, in declared order.
/// The caller has already checked that every one has room.
fn add_outputs(inventories: &mut NamedMap<Inventory>, reqs: &Vec<ProductionRequirement>)
    requires
        old(inventories).wf(),
        inv_map_wf(old(inventories)@),
        req_names_distinct(reqs@),
        reqs_in_map(old(inventories)@, reqs@),
        outputs_have_room(old(inventories)@, reqs@),
    ensures
        final(inventories).wf(),
        final(inventories)@ == add_all(old(inventories)@, reqs@),
{
    let ghost m0 = old(inventories)@;
    let n = reqs.len();
    let mut i: usize = 0;
    proof {
        assert(reqs@.take(0) =~= Seq::<ProductionRequirement>::empty());
    }
    while i < n
        invariant
            inventories.wf(),
            n == reqs@.len(),
            i <= n,
            inv_map_wf(m0),
            req_names_distinct(reqs@),
            reqs_in_map(m0, reqs@),
            outputs_have_room(m0, reqs@),
            inventories@ == add_all(m0, reqs@.take(i as int)),
        decreases n - i,
    {
        let ghost prefix = reqs@.take(i as int);
        let ghost k = reqs@[i as int].commodity_name@;
        proof {
            assert(req_names_distinct(prefix));
            assert(forall|j: int|
                0 <= j < prefix.len() ==> m0.contains_key(#[trigger] prefix[j].commodity_name@));
            assert(outputs_have_room(m0, prefix));
            lemma_add_all(m0, prefix);
            assert(forall|j: int|
                0 <= j < prefix.len() ==> (#[trigger] prefix[j].commodity_name@) != k);
            lemma_req_amount_absent(prefix, k);
            assert(inventories@[k].amount == m0[k].amount);
            assert(inventories@[k].capacity == m0[k].capacity);
        }
        let mut inventory = *inventories.get(reqs[i].commodity_name.as_str()).unwrap();
        proof {
            assert(inventory.spec_free() >= reqs@[i as int].amount);
        }
        let _ = inventory.add(reqs[i].amount);
        inventories.update(reqs[i].commodity_name.as_str(), inventory);
        proof {
            assert(reqs@.take(i as int + 1).drop_last() =~= prefix);
            assert(reqs@.take(i as int + 1).last() == reqs@[i as int]);
            assert(inventories@ == add_all(m0, reqs@.take(i as int + 1)));
        }
        i = i + 1;
    }
    proof {
        assert(reqs@.take(n as int) =~= reqs@);
    }
}

/// One tick of a single job slot at `progress`, running `production_strategy`
/// against `inventories`: exactly [`producer_tick`] of the model.
pub fn tick_producer(
    inventories: &mut NamedMap<Inventory>,
    progress: u32,
    production_strategy: &ProductionStrategy,
) -> (new_progress: u32)
    requires
        old(inventories).wf(),
        inv_map_wf(old(inventories)@),
        production_strategy.wf(),
        reqs_in_map(old(inventories)@, production_strategy.inputs@),
        reqs_in_map(old(inventories)@, production_strategy.outputs@),
        progress >= 1 ==> forall|k: Seq<char>| #[trigger] old(inventories)@.contains_key(k)
            ==> old(inventories)@[k].reserved >= req_amount(production_strategy.inputs@, k),
    ensures
        final(inventories).wf(),
        inv_map_wf(final(inventories)@),
        final(inventories)@ == producer_tick(old(inventories)@, progress, *production_strategy).0,
        new_progress == producer_tick(old(inventories)@, progress, *production_strategy).1,
        final(inventories)@.dom() == old(inventories)@.dom(),
        forall|k: Seq<char>| #[trigger] old(inventories)@.contains_key(k)
            ==> final(inventories)@[k].reserved == old(inventories)@[k].reserved - progress_demand(
            progress,
            *production_strategy,
            k,
        ) + progress_demand(new_progress, *production_strategy, k),
        new_progress <= if production_strategy.duration <= progress {
            progress
        } else {
            production_strategy.duration
        },
{
    let ghost m0 = old(inventories)@;
    if progress == 0 {
        if check_inputs_satisfied(inventories, &production_strategy.inputs) {
            reserve_inputs(inventories, &production_strategy.inputs);
            proof {
                lemma_reserve_all(m0, production_strategy.inputs@);
            }
            1
        } else {
            0
        }
    } else if production_strategy.duration <= progress {
        if check_outputs_room(inventories, &production_strategy.outputs) {
            consume_inputs(inventories, &production_strategy.inputs);
            proof {
                lemma_consume_all(m0, production_strategy.inputs@);
                let m1 = inventories@;
                assert forall|j: int|
                    0 <= j < production_strategy.outputs@.len() implies m1.contains_key(
                    #[trigger] production_strategy.outputs@[j].commodity_name@) && m1[
                    production_strategy.outputs@[j].commodity_name@].spec_free()
                    >= production_strategy.outputs@[j].amount by {
                    let k = production_strategy.outputs@[j].commodity_name@;
                    lemma_req_amount_nonneg(production_strategy.inputs@, k);
                }
            }
            add_outputs(inventories, &production_strategy.outputs);
            proof {
                let m1 = consume_all(m0, production_strategy.inputs@);
                lemma_add_all(m1, production_strategy.outputs@);
            }
            0
        } else {
            progress
        }
    } else {
        progress + 1
    }
}

impl Agent {
    /// Attach a strategy to this agent: one more job slot, and an inventory
    /// (with the default starting stock and capacity) for every commodity
    /// the strategy touches that the agent does not hold yet. Inventories
    /// the agent already holds are kept as they are.
    pub fn add_production_strategy(
        &mut self,
        production_strategy_name: &str,
        production_strategy: &ProductionStrategy,
    )
        requires
            old(self).inv_wf(),
        ensures
            final(self).inv_wf(),
            strategy_attached(
                *old(self),
                *final(self),
                production_strategy_name@,
                *production_strategy,
            ),
    {
        self.producers.push(Producer::new(production_strategy_name.to_owned()));
        ensure_inventories(&mut self.inventories, &production_strategy.inputs);
        ensure_inventories(&mut self.inventories, &production_strategy.outputs);
    }
}

/// How attaching strategy `s` under `name` relates the agent after to the
/// agent before: one more idle producer for `name` at the end, every
/// commodity `s` touches present, inventories the agent already had kept as
/// they were, any new one the default, and everything else unchanged.
pub open spec fn strategy_attached(
    a_old: Agent,
    a_new: Agent,
    name: Seq<char>,
    s: ProductionStrategy,
) -> bool {
    &&& a_new.producers@.len() == a_old.producers@.len() + 1
    &&& forall|i: int| 0 <= i < a_old.producers@.len() ==> a_new.producers@[i] == a_old.producers@[i]
    &&& a_new.producers@.last().production_strategy_name@ == name
    &&& a_new.producers@.last().progress == 0
    &&& forall|k: Seq<char>| #[trigger] a_old.inventories@.contains_key(k) ==> a_new.inventories@.contains_key(k) && a_new.inventories@[k] == a_old.inventories@[k]
    &&& reqs_in_map(a_new.inventories@, s.inputs@)
    &&& reqs_in_map(a_new.inventories@, s.outputs@)
    &&& forall|k: Seq<char>| #[trigger] a_new.inventories@.contains_key(k) ==> a_old.inventories@.contains_key(k) || a_new.inventories@[k] == default_inventory()
    &&& a_new.id == a_old.id
    &&& a_new.balance == a_old.balance
    &&& a_new.price_beliefs == a_old.price_beliefs
}

/// An agent sound against a catalog: inventories satisfy their invariant,
/// every producer is wired up, and the reservation accounting holds.
pub open spec fn agent_sound(a: Agent, catalog: StrategyMap) -> bool {
    &&& a.inv_wf()
    &&& a.configured(catalog)
    &&& a.reserve_consistent(catalog)
}

/// How one production tick relates the agent after to the agent before:
/// inventories and producers move exactly as [`agent_tick`] of the model
/// says, and everything else is unchanged.
pub open spec fn agent_stepped(a_old: Agent, a_new: Agent, catalog: StrategyMap) -> bool {
    &&& a_new.inventories@ == agent_tick(a_old.inventories@, a_old.producers@, catalog).0
    &&& a_new.producers@ == agent_tick(a_old.inventories@, a_old.producers@, catalog).1
    &&& a_new.id == a_old.id
    &&& a_new.balance == a_old.balance
    &&& a_new.price_beliefs == a_old.price_beliefs
}

/// Create a default inventory for every commodity in `reqs` that `inventories`
/// does not hold yet; existing inventories are untouched.
fn ensure_inventories(inventories: &mut NamedMap<Inventory>, reqs: &Vec<ProductionRequirement>)
    requires
        old(inventories).wf(),
        inv_map_wf(old(inventories)@),
    ensures
        final(inventories).wf(),
        inv_map_wf(final(inventories)@),
        reqs_in_map(final(inventories)@, reqs@),
        forall|k: Seq<char>| #[trigger] old(inventories)@.contains_key(k)
            ==> final(inventories)@.contains_key(k) && final(inventories)@[k] == old(
            inventories,
        )@[k],
        forall|k: Seq<char>| #[trigger] final(inventories)@.contains_key(k)
            ==> old(inventories)@.contains_key(k) || final(inventories)@[k]
            == default_inventory(),
{
    let n = reqs.len();
    let mut i: usize = 0;
    while i < n
        invariant
            inventories.wf(),
            inv_map_wf(inventories@),
            n == reqs@.len(),
            i <= n,
            forall|j: int| 0 <= j < i ==> inventories@.contains_key(
                #[trigger] reqs@[j].commodity_name@,
            ),
            forall|k: Seq<char>| #[trigger] old(inventories)@.contains_key(k)
                ==> inventories@.contains_key(k) && inventories@[k] == old(inventories)@[k],
            forall|k: Seq<char>| #[trigger] inventories@.contains_key(k)
                ==> old(inventories)@.contains_key(k) || inventories@[k] == default_inventory(),
        decreases n - i,
    {
        if !inventories.contains(reqs[i].commodity_name.as_str()) {
            let fresh = Inventory::new(DEFAULT_INVENTORY_CAPACITY);
            inventories.insert(reqs[i].commodity_name.as_str().to_owned(), fresh);
        }
        i = i + 1;
    }
}

impl Agent {
    /// Advance every producer of this agent exactly once, in stored order,
    /// each against the inventories as the producers before it left them:
    /// exactly [`agent_tick`] of the model. Inventories stay well formed and
    /// the reservation accounting stays consistent.
    pub fn run_production_step(&mut self, production_strategies: &NamedMap<ProductionStrategy>)
        requires
            production_strategies.wf(),
            old(self).inv_wf(),
            old(self).configured(production_strategies@),
            old(self).reserve_consistent(production_strategies@),
        ensures
            final(self).inv_wf(),
            final(self).configured(production_strategies@),
            final(self).reserve_consistent(production_strategies@),
            final(self).inventories@ == agent_tick(
                old(self).inventories@,
                old(self).producers@,
                production_strategies@,
            ).0,
            final(self).producers@ == agent_tick(
                old(self).inventories@,
                old(self).producers@,
                production_strategies@,
            ).1,
            final(self).id == old(self).id,
            final(self).balance == old(self).balance,
            final(self).price_beliefs == old(self).price_beliefs,
    {
        let ghost a0 = *old(self);
        let ghost m0 = old(self).inventories@;
        let ghost ps0 = old(self).producers@;
        let ghost cat = production_strategies@;
        let n = self.producers.len();
        let mut i: usize = 0;
        proof {
            assert(ps0.take(0) =~= Seq::<Producer>::empty());
            assert(self.producers@.take(0) =~= Seq::<Producer>::empty());
            assert forall|j: int| 0 <= j < n implies self.producers@[j].progress <= cat[
                ps0[j].production_strategy_name@].duration by {
                assert(a0.producer_configured(cat, j));
            }
        }
        while i < n
            invariant
                production_strategies.wf(),
                a0.configured(cat),
                n == ps0.len(),
                i <= n,
                self.producers@.len() == n,
                self.id == a0.id,
                self.balance == a0.balance,
                self.price_beliefs == a0.price_beliefs,
                a0.inventories@ == m0,
                a0.producers@ == ps0,
                cat == production_strategies@,
                inv_map_wf(m0),
                self.inventories.wf(),
                inv_map_wf(self.inventories@),
                self.inventories@.dom() == m0.dom(),
                forall|j: int| i <= j < n ==> self.producers@[j] == ps0[j],
                self.inventories@ == agent_tick(m0, ps0.take(i as int), cat).0,
                self.producers@.take(i as int) == agent_tick(m0, ps0.take(i as int), cat).1,
                forall|k: Seq<char>| #[trigger] self.inventories@.contains_key(k)
                    ==> self.inventories@[k].reserved >= total_demand(self.producers@, cat, k),
                forall|j: int|
                    0 <= j < n ==> (#[trigger] self.producers@[j]).production_strategy_name@
                        == ps0[j].production_strategy_name@ && self.producers@[j].progress
                        <= cat[ps0[j].production_strategy_name@].duration,
            decreases n - i,
        {
            proof {
                assert(a0.producer_configured(cat, i as int));
            }
            let strategy = production_strategies.get(
                self.producers[i].production_strategy_name.as_str(),
            ).unwrap();
            let progress = self.producers[i].progress;
            let ghost name = ps0[i as int].production_strategy_name@;
            let ghost ps_before = self.producers@;
            let ghost m_before = self.inventories@;
            proof {
                assert(*strategy == cat[name]);
                assert(reqs_in_map(m0, cat[name].inputs@));
                assert forall|j: int| 0 <= j < strategy.inputs@.len() implies
                    self.inventories@.contains_key(
                    #[trigger] strategy.inputs@[j].commodity_name@) by {
                    assert(m0.contains_key(strategy.inputs@[j].commodity_name@));
                }
                assert forall|j: int| 0 <= j < strategy.outputs@.len() implies
                    self.inventories@.contains_key(
                    #[trigger] strategy.outputs@[j].commodity_name@) by {
                    assert(m0.contains_key(strategy.outputs@[j].commodity_name@));
                }
                if progress >= 1 {
                    assert forall|k: Seq<char>| #[trigger] self.inventories@.contains_key(k)
                        implies self.inventories@[k].reserved >= req_amount(
                        strategy.inputs@,
                        k,
                    ) by {
                        lemma_total_demand_ge_member(ps_before, cat, k, i as int);
                        assert(producer_demand(ps_before[i as int], cat, k) == progress_demand(
                            progress,
                            *strategy,
                            k,
                        ));
                    }
                }
            }
            let new_progress = tick_producer(&mut self.inventories, progress, strategy);
            self.producers[i].progress = new_progress;
            proof {
                let p_new = Producer { progress: new_progress, ..ps0[i as int] };
                assert(self.producers@ == ps_before.update(i as int, p_new));
                assert(ps0.take(i as int + 1).drop_last() =~= ps0.take(i as int));
                assert(ps0.take(i as int + 1).last() == ps0[i as int]);
                assert(self.inventories@ == agent_tick(m0, ps0.take(i as int + 1), cat).0);
                assert(self.producers@.take(i as int + 1) =~= agent_tick(
                    m0,
                    ps0.take(i as int + 1),
                    cat,
                ).1);
                assert forall|k: Seq<char>| #[trigger] self.inventories@.contains_key(k)
                    implies self.inventories@[k].reserved >= total_demand(
                    self.producers@,
                    cat,
                    k,
                ) by {
                    lemma_total_demand_update(ps_before, cat, k, i as int, p_new);
                    assert(m_before.contains_key(k));
                    assert(producer_demand(ps_before[i as int], cat, k) == progress_demand(
                        progress,
                        *strategy,
                        k,
                    ));
                    assert(producer_demand(p_new, cat, k) == progress_demand(
                        new_progress,
                        *strategy,
                        k,
                    ));
                }
            }
            i = i + 1;
        }
        proof {
            assert(ps0.take(n as int) =~= ps0);
            assert(self.producers@.take(n as int) =~= self.producers@);
            assert forall|j: int| 0 <= j < self.producers@.len() implies
                self.producer_configured(cat, j) by {
                assert(a0.producer_configured(cat, j));
                let nm = self.producers@[j].production_strategy_name@;
                assert(nm == ps0[j].production_strategy_name@);
                assert forall|t: int| 0 <= t < cat[nm].inputs@.len() implies
                    self.inventories@.contains_key(
                    #[trigger] cat[nm].inputs@[t].commodity_name@) by {
                    assert(m0.contains_key(cat[nm].inputs@[t].commodity_name@));
                }
                assert forall|t: int| 0 <= t < cat[nm].outputs@.len() implies
                    self.inventories@.contains_key(
                    #[trigger] cat[nm].outputs@[t].commodity_name@) by {
                    assert(m0.contains_key(cat[nm].outputs@[t].commodity_name@));
                }
            }
        }
    }
}

} // verus!
