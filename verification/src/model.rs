//! The mathematical model of one production tick: what a producer's step
//! does to an agent's inventories, stated over `Map<Seq<char>, Inventory>`.
//! The executable step functions promise exactly these results.

use vstd::prelude::*;

use crate::inventory::Inventory;
use crate::producer::Producer;
use crate::strategy::{req_names_distinct, ProductionRequirement, ProductionStrategy};

verus! {

/// The inventories of one agent, keyed by commodity name.
pub type InvMap = Map<Seq<char>, Inventory>;

/// A catalog of strategies, keyed by strategy name.
pub type StrategyMap = Map<Seq<char>, ProductionStrategy>;

/// Every commodity the requirements name has an inventory in `m`.
pub open spec fn reqs_in_map(m: InvMap, reqs: Seq<ProductionRequirement>) -> bool {
    forall|i: int| 0 <= i < reqs.len() ==> m.contains_key(#[trigger] reqs[i].commodity_name@)
}

/// Every inventory in `m` satisfies the inventory invariant.
pub open spec fn inv_map_wf(m: InvMap) -> bool {
    forall|k: Seq<char>| #[trigger] m.contains_key(k) ==> m[k].wf()
}

/// Each input requirement can be reserved: its commodity's unreserved stock
/// covers the required amount.
pub open spec fn inputs_satisfied(m: InvMap, reqs: Seq<ProductionRequirement>) -> bool {
    forall|i: int|
        0 <= i < reqs.len() ==> m[#[trigger] reqs[i].commodity_name@].spec_unreserved()
            >= reqs[i].amount
}

/// Each output requirement can be delivered: its commodity's free room
/// covers the required amount.
pub open spec fn outputs_have_room(m: InvMap, reqs: Seq<ProductionRequirement>) -> bool {
    forall|i: int|
        0 <= i < reqs.len() ==> m[#[trigger] reqs[i].commodity_name@].spec_free() >= reqs[i].amount
}

/// The total amount the requirements ask of commodity `k`.
pub open spec fn req_amount(reqs: Seq<ProductionRequirement>, k: Seq<char>) -> int
    decreases reqs.len(),
{
    if reqs.len() == 0 {
        0
    } else {
        req_amount(reqs.drop_last(), k) + if reqs.last().commodity_name@ == k {
            reqs.last().amount as int
        } else {
            0
        }
    }
}

/// Reserve each input requirement's amount on its commodity, in order.
pub open spec fn reserve_all(m: InvMap, reqs: Seq<ProductionRequirement>) -> InvMap
    decreases reqs.len(),
{
    if reqs.len() == 0 {
        m
    } else {
        let prev = reserve_all(m, reqs.drop_last());
        let k = reqs.last().commodity_name@;
        prev.insert(
            k,
            Inventory { reserved: (prev[k].reserved + reqs.last().amount) as u32, ..prev[k] },
        )
    }
}

/// Consume each input requirement: take the amount out of stock and release
/// the matching reservation, in order.
pub open spec fn consume_all(m: InvMap, reqs: Seq<ProductionRequirement>) -> InvMap
    decreases reqs.len(),
{
    if reqs.len() == 0 {
        m
    } else {
        let prev = consume_all(m, reqs.drop_last());
        let k = reqs.last().commodity_name@;
        prev.insert(
            k,
            Inventory {
                amount: (prev[k].amount - reqs.last().amount) as u32,
                reserved: (prev[k].reserved - reqs.last().amount) as u32,
                ..prev[k]
            },
        )
    }
}

/// Deliver each output requirement's amount into its commodity, in order.
pub open spec fn add_all(m: InvMap, reqs: Seq<ProductionRequirement>) -> InvMap
    decreases reqs.len(),
{
    if reqs.len() == 0 {
        m
    } else {
        let prev = add_all(m, reqs.drop_last());
        let k = reqs.last().commodity_name@;
        prev.insert(
            k,
            Inventory { amount: (prev[k].amount + reqs.last().amount) as u32, ..prev[k] },
        )
    }
}

/// One tick of a producer at `progress` running `s` against inventories `m`:
/// the new inventories and the new progress.
///
/// Idle (`progress == 0`): start only if every input is satisfied, reserving
/// all inputs. Ready (`progress >= s.duration`): complete only if every
/// output has room, consuming the reserved inputs and delivering the
/// outputs; otherwise stay frozen, holding the reservation. Otherwise the
/// job accumulates: progress advances by one and no inventory changes.
pub open spec fn producer_tick(m: InvMap, progress: u32, s: ProductionStrategy) -> (InvMap, u32) {
    if progress == 0 {
        if inputs_satisfied(m, s.inputs@) {
            (reserve_all(m, s.inputs@), 1u32)
        } else {
            (m, 0u32)
        }
    } else if s.duration <= progress {
        if outputs_have_room(m, s.outputs@) {
            (add_all(consume_all(m, s.inputs@), s.outputs@), 0u32)
        } else {
            (m, progress)
        }
    } else {
        (m, (progress + 1) as u32)
    }
}

/// The input stock a job at `progress` running `s` holds reserved: the
/// strategy's input amounts while the job is in flight, nothing while idle.
pub open spec fn progress_demand(progress: u32, s: ProductionStrategy, k: Seq<char>) -> int {
    if progress >= 1 {
        req_amount(s.inputs@, k)
    } else {
        0
    }
}

/// The input stock a single producer holds reserved: its strategy's input
/// amounts while a job is in flight, nothing while it is idle.
pub open spec fn producer_demand(p: Producer, catalog: StrategyMap, k: Seq<char>) -> int {
    progress_demand(p.progress, catalog[p.production_strategy_name@], k)
}

/// The input stock of commodity `k` that all in-flight jobs together hold
/// reserved.
pub open spec fn total_demand(producers: Seq<Producer>, catalog: StrategyMap, k: Seq<char>) -> int
    decreases producers.len(),
{
    if producers.len() == 0 {
        0
    } else {
        total_demand(producers.drop_last(), catalog, k) + producer_demand(
            producers.last(),
            catalog,
            k,
        )
    }
}

/// One tick of a whole agent: every producer steps once, in stored order,
/// each against the inventories as the producers before it left them.
pub open spec fn agent_tick(m: InvMap, producers: Seq<Producer>, catalog: StrategyMap) -> (
    InvMap,
    Seq<Producer>,
)
    decreases producers.len(),
{
    if producers.len() == 0 {
        (m, Seq::empty())
    } else {
        let prev = agent_tick(m, producers.drop_last(), catalog);
        let p = producers.last();
        let t = producer_tick(prev.0, p.progress, catalog[p.production_strategy_name@]);
        (t.0, prev.1.push(Producer { progress: t.1, ..p }))
    }
}

pub proof fn lemma_req_amount_nonneg(reqs: Seq<ProductionRequirement>, k: Seq<char>)
    ensures
        req_amount(reqs, k) >= 0,
    decreases reqs.len(),
{
    if reqs.len() > 0 {
        lemma_req_amount_nonneg(reqs.drop_last(), k);
    }
}

/// A commodity no requirement names has requirement amount zero.
pub proof fn lemma_req_amount_absent(reqs: Seq<ProductionRequirement>, k: Seq<char>)
    requires
        forall|i: int| 0 <= i < reqs.len() ==> (#[trigger] reqs[i].commodity_name@) != k,
    ensures
        req_amount(reqs, k) == 0,
    decreases reqs.len(),
{
    if reqs.len() > 0 {
        lemma_req_amount_absent(reqs.drop_last(), k);
    }
}

/// When no commodity is named twice, the total asked of requirement `i`'s
/// commodity is exactly that requirement's amount.
pub proof fn lemma_req_amount_at(reqs: Seq<ProductionRequirement>, i: int)
    requires
        req_names_distinct(reqs),
        0 <= i < reqs.len(),
    ensures
        req_amount(reqs, reqs[i].commodity_name@) == reqs[i].amount,
    decreases reqs.len(),
{
    let k = reqs[i].commodity_name@;
    if i == reqs.len() - 1 {
        lemma_req_amount_absent(reqs.drop_last(), k);
    } else {
        lemma_req_amount_at(reqs.drop_last(), i);
        assert(reqs.drop_last()[i] == reqs[i]);
        assert(reqs.last().commodity_name@ != k);
    }
}

/// A prefix of the requirements asks at most what all of them ask.
pub proof fn lemma_req_amount_take_le(reqs: Seq<ProductionRequirement>, i: int, k: Seq<char>)
    requires
        0 <= i <= reqs.len(),
    ensures
        req_amount(reqs.take(i), k) <= req_amount(reqs, k),
    decreases reqs.len(),
{
    if i == reqs.len() {
        assert(reqs.take(i) =~= reqs);
    } else {
        assert(reqs.take(i) =~= reqs.drop_last().take(i));
        lemma_req_amount_take_le(reqs.drop_last(), i, k);
    }
}

/// What reserving every input does, commodity by commodity: `reserved` grows
/// by the amount asked of that commodity, everything else stays.
pub proof fn lemma_reserve_all(m: InvMap, reqs: Seq<ProductionRequirement>)
    requires
        req_names_distinct(reqs),
        reqs_in_map(m, reqs),
        inputs_satisfied(m, reqs),
        inv_map_wf(m),
    ensures
        reserve_all(m, reqs).dom() == m.dom(),
        forall|k: Seq<char>| #[trigger] m.contains_key(k) ==> reserve_all(m, reqs)[k].amount == m[k].amount,
        forall|k: Seq<char>| #[trigger] m.contains_key(k) ==> reserve_all(m, reqs)[k].capacity == m[k].capacity,
        forall|k: Seq<char>| #[trigger] m.contains_key(k) ==> reserve_all(m, reqs)[k].ideal_amount == m[k].ideal_amount,
        forall|k: Seq<char>| #[trigger] m.contains_key(k) ==> reserve_all(m, reqs)[k].reserved == m[k].reserved + req_amount(reqs, k),
        inv_map_wf(reserve_all(m, reqs)),
    decreases reqs.len(),
{
    if reqs.len() == 0 {
        assert(reserve_all(m, reqs).dom() =~= m.dom());
    } else {
        let prefix = reqs.drop_last();
        lemma_reserve_all(m, prefix);
        let prev = reserve_all(m, prefix);
        let req = reqs.last();
        let k = req.commodity_name@;
        assert(forall|i: int|
            0 <= i < prefix.len() ==> (#[trigger] prefix[i].commodity_name@) != k);
        lemma_req_amount_absent(prefix, k);
        assert(prev[k].reserved == m[k].reserved);
        assert(m[k].spec_unreserved() >= req.amount);
        assert forall|k2: Seq<char>| #[trigger] m.contains_key(k2) implies reserve_all(
            m,
            reqs,
        )[k2].reserved == m[k2].reserved + req_amount(reqs, k2) by {
            lemma_req_amount_nonneg(prefix, k2);
        }
        assert(reserve_all(m, reqs).dom() =~= m.dom());
    }
}

/// What consuming every input does, commodity by commodity: `amount` and
/// `reserved` both shrink by the amount asked of that commodity.
pub proof fn lemma_consume_all(m: InvMap, reqs: Seq<ProductionRequirement>)
    requires
        req_names_distinct(reqs),
        reqs_in_map(m, reqs),
        inv_map_wf(m),
        forall|k: Seq<char>| #[trigger] m.contains_key(k) ==> m[k].reserved >= req_amount(reqs, k),
    ensures
        consume_all(m, reqs).dom() == m.dom(),
        forall|k: Seq<char>| #[trigger] m.contains_key(k) ==> consume_all(m, reqs)[k].amount == m[k].amount - req_amount(reqs, k),
        forall|k: Seq<char>| #[trigger] m.contains_key(k) ==> consume_all(m, reqs)[k].capacity == m[k].capacity,
        forall|k: Seq<char>| #[trigger] m.contains_key(k) ==> consume_all(m, reqs)[k].ideal_amount == m[k].ideal_amount,
        forall|k: Seq<char>| #[trigger] m.contains_key(k) ==> consume_all(m, reqs)[k].reserved == m[k].reserved - req_amount(reqs, k),
        inv_map_wf(consume_all(m, reqs)),
    decreases reqs.len(),
{
    if reqs.len() == 0 {
        assert(consume_all(m, reqs).dom() =~= m.dom());
    } else {
        let prefix = reqs.drop_last();
        let req = reqs.last();
        let k = req.commodity_name@;
        assert forall|k2: Seq<char>| #[trigger] m.contains_key(k2) implies m[k2].reserved
            >= req_amount(prefix, k2) by {
            if k2 == k {
                lemma_req_amount_nonneg(prefix, k2);
                assert(req_amount(reqs, k2) == req_amount(prefix, k2) + req.amount);
            } else {
                assert(req_amount(reqs, k2) == req_amount(prefix, k2));
            }
        }
        lemma_consume_all(m, prefix);
        let prev = consume_all(m, prefix);
        assert(forall|i: int|
            0 <= i < prefix.len() ==> (#[trigger] prefix[i].commodity_name@) != k);
        lemma_req_amount_absent(prefix, k);
        assert(prev[k].amount == m[k].amount && prev[k].reserved == m[k].reserved);
        assert(m[k].reserved >= req_amount(reqs, k) == req.amount as int);
        assert forall|k2: Seq<char>| #[trigger] m.contains_key(k2) implies consume_all(
            m,
            reqs,
        )[k2].amount == m[k2].amount - req_amount(reqs, k2) && consume_all(
            m,
            reqs,
        )[k2].reserved == m[k2].reserved - req_amount(reqs, k2) by {
            lemma_req_amount_nonneg(prefix, k2);
        }
        assert(consume_all(m, reqs).dom() =~= m.dom());
    }
}

/// What delivering every output does, commodity by commodity: `amount` grows
/// by the amount asked of that commodity, `reserved` stays.
pub proof fn lemma_add_all(m: InvMap, reqs: Seq<ProductionRequirement>)
    requires
        req_names_distinct(reqs),
        reqs_in_map(m, reqs),
        inv_map_wf(m),
        outputs_have_room(m, reqs),
    ensures
        add_all(m, reqs).dom() == m.dom(),
        forall|k: Seq<char>| #[trigger] m.contains_key(k) ==> add_all(m, reqs)[k].amount == m[k].amount + req_amount(reqs, k),
        forall|k: Seq<char>| #[trigger] m.contains_key(k) ==> add_all(m, reqs)[k].capacity == m[k].capacity,
        forall|k: Seq<char>| #[trigger] m.contains_key(k) ==> add_all(m, reqs)[k].ideal_amount == m[k].ideal_amount,
        forall|k: Seq<char>| #[trigger] m.contains_key(k) ==> add_all(m, reqs)[k].reserved == m[k].reserved,
        inv_map_wf(add_all(m, reqs)),
    decreases reqs.len(),
{
    if reqs.len() == 0 {
        assert(add_all(m, reqs).dom() =~= m.dom());
    } else {
        let prefix = reqs.drop_last();
        lemma_add_all(m, prefix);
        let prev = add_all(m, prefix);
        let req = reqs.last();
        let k = req.commodity_name@;
        assert(forall|i: int|
            0 <= i < prefix.len() ==> (#[trigger] prefix[i].commodity_name@) != k);
        lemma_req_amount_absent(prefix, k);
        assert(prev[k].amount == m[k].amount);
        assert(m[k].spec_free() >= req.amount);
        assert forall|k2: Seq<char>| #[trigger] m.contains_key(k2) implies add_all(
            m,
            reqs,
        )[k2].amount == m[k2].amount + req_amount(reqs, k2) by {
            lemma_req_amount_nonneg(prefix, k2);
        }
        assert(add_all(m, reqs).dom() =~= m.dom());
    }
}

pub proof fn lemma_producer_demand_nonneg(p: Producer, catalog: StrategyMap, k: Seq<char>)
    ensures
        producer_demand(p, catalog, k) >= 0,
{
    if p.progress >= 1 {
        lemma_req_amount_nonneg(catalog[p.production_strategy_name@].inputs@, k);
    }
}

pub proof fn lemma_total_demand_nonneg(producers: Seq<Producer>, catalog: StrategyMap, k: Seq<char>)
    ensures
        total_demand(producers, catalog, k) >= 0,
    decreases producers.len(),
{
    if producers.len() > 0 {
        lemma_total_demand_nonneg(producers.drop_last(), catalog, k);
        lemma_producer_demand_nonneg(producers.last(), catalog, k);
    }
}

/// The stock one in-flight producer holds reserved never exceeds what all
/// in-flight producers together hold.
pub proof fn lemma_total_demand_ge_member(
    producers: Seq<Producer>,
    catalog: StrategyMap,
    k: Seq<char>,
    i: int,
)
    requires
        0 <= i < producers.len(),
    ensures
        total_demand(producers, catalog, k) >= producer_demand(producers[i], catalog, k),
    decreases producers.len(),
{
    if i == producers.len() - 1 {
        assert(producers.last() == producers[i]);
        lemma_total_demand_nonneg(producers.drop_last(), catalog, k);
    } else {
        lemma_total_demand_ge_member(producers.drop_last(), catalog, k, i);
        assert(producers.drop_last()[i] == producers[i]);
        lemma_producer_demand_nonneg(producers.last(), catalog, k);
    }
}

/// When no producer holds any of commodity `k` reserved, the total is zero.
pub proof fn lemma_total_demand_zero(producers: Seq<Producer>, catalog: StrategyMap, k: Seq<char>)
    requires
        forall|i: int| 0 <= i < producers.len() ==> producer_demand(#[trigger] producers[i], catalog, k) == 0,
    ensures
        total_demand(producers, catalog, k) == 0,
    decreases producers.len(),
{
    if producers.len() > 0 {
        assert(forall|i: int|
            0 <= i < producers.drop_last().len() ==> #[trigger] producers.drop_last()[i]
                == producers[i]);
        lemma_total_demand_zero(producers.drop_last(), catalog, k);
    }
}

/// The total reserved demand reads each producer's strategy only through the
/// catalog; two catalogs that agree on every referenced strategy agree on it.
pub proof fn lemma_total_demand_congruent(
    producers: Seq<Producer>,
    c1: StrategyMap,
    c2: StrategyMap,
    k: Seq<char>,
)
    requires
        forall|i: int|
            0 <= i < producers.len() ==> c1[(#[trigger] producers[i]).production_strategy_name@]
                == c2[producers[i].production_strategy_name@],
    ensures
        total_demand(producers, c1, k) == total_demand(producers, c2, k),
    decreases producers.len(),
{
    if producers.len() > 0 {
        assert(forall|i: int|
            0 <= i < producers.drop_last().len() ==> #[trigger] producers.drop_last()[i]
                == producers[i]);
        lemma_total_demand_congruent(producers.drop_last(), c1, c2, k);
    }
}

/// Replacing one producer changes the total reserved demand by exactly that
/// producer's own change.
pub proof fn lemma_total_demand_update(
    producers: Seq<Producer>,
    catalog: StrategyMap,
    k: Seq<char>,
    i: int,
    p: Producer,
)
    requires
        0 <= i < producers.len(),
    ensures
        total_demand(producers.update(i, p), catalog, k) == total_demand(producers, catalog, k)
            - producer_demand(producers[i], catalog, k) + producer_demand(p, catalog, k),
    decreases producers.len(),
{
    let updated = producers.update(i, p);
    if i == producers.len() - 1 {
        assert(updated.drop_last() =~= producers.drop_last());
        assert(updated.last() == p);
    } else {
        assert(updated.drop_last() =~= producers.drop_last().update(i, p));
        assert(updated.last() == producers.last());
        lemma_total_demand_update(producers.drop_last(), catalog, k, i, p);
        assert(producers.drop_last()[i] == producers[i]);
    }
}

} // verus!
