//! Production recipes: named input requirements, named output requirements,
//! and a fixed duration in ticks.

use vstd::prelude::*;

use crate::strings::str_eq;
use crate::CommodityName;

verus! {

/// A (commodity name, amount) pair, used both for a strategy's inputs and
/// for its outputs. Immutable once constructed.
#[derive(Debug)]
pub struct ProductionRequirement {
    pub commodity_name: CommodityName,
    pub amount: u32,
}

impl ProductionRequirement {
    pub fn new(commodity_name: CommodityName, amount: u32) -> (r: Self)
        ensures
            r.commodity_name == commodity_name,
            r.amount == amount,
    {
        Self { commodity_name, amount }
    }
}

/// No commodity is named twice in `reqs`.
pub open spec fn req_names_distinct(reqs: Seq<ProductionRequirement>) -> bool {
    forall|i: int, j: int|
        0 <= i < j < reqs.len() ==> reqs[i].commodity_name@ != reqs[j].commodity_name@
}

/// An immutable recipe: consume the inputs, wait `duration` ticks, deliver
/// the outputs.
#[derive(Debug)]
pub struct ProductionStrategy {
    pub inputs: Vec<ProductionRequirement>,
    pub outputs: Vec<ProductionRequirement>,
    pub duration: u32,
}

impl ProductionStrategy {
    /// A usable recipe: it takes at least one tick, and no commodity appears
    /// twice on the same side, so the all-or-nothing pre-checks of the
    /// production step cover each reservation and delivery they authorize.
    pub open spec fn wf(self) -> bool {
        &&& self.duration >= 1
        &&& req_names_distinct(self.inputs@)
        &&& req_names_distinct(self.outputs@)
    }

    /// An empty recipe of duration one.
    pub fn new() -> (r: Self)
        ensures
            r.inputs@ == Seq::<ProductionRequirement>::empty(),
            r.outputs@ == Seq::<ProductionRequirement>::empty(),
            r.duration == 1,
            r.wf(),
    {
        ProductionStrategy { inputs: Vec::new(), outputs: Vec::new(), duration: 1 }
    }

    /// Append an input requirement.
    pub fn add_input(&mut self, commodity_name: &str, amount: u32)
        ensures
            final(self).inputs@.len() == old(self).inputs@.len() + 1,
            forall|i: int|
                0 <= i < old(self).inputs@.len() ==> final(self).inputs@[i] == old(
                    self,
                ).inputs@[i],
            final(self).inputs@.last().commodity_name@ == commodity_name@,
            final(self).inputs@.last().amount == amount,
            final(self).outputs == old(self).outputs,
            final(self).duration == old(self).duration,
    {
        self.inputs.push(ProductionRequirement::new(commodity_name.to_owned(), amount));
    }

    /// Append an output requirement.
    pub fn add_output(&mut self, commodity_name: &str, amount: u32)
        ensures
            final(self).outputs@.len() == old(self).outputs@.len() + 1,
            forall|i: int|
                0 <= i < old(self).outputs@.len() ==> final(self).outputs@[i] == old(
                    self,
                ).outputs@[i],
            final(self).outputs@.last().commodity_name@ == commodity_name@,
            final(self).outputs@.last().amount == amount,
            final(self).inputs == old(self).inputs,
            final(self).duration == old(self).duration,
    {
        self.outputs.push(ProductionRequirement::new(commodity_name.to_owned(), amount));
    }

    /// Set the duration; a job completes once its progress reaches it.
    pub fn duration(&mut self, duration: u32)
        requires
            duration >= 1,
        ensures
            *final(self) == (ProductionStrategy { duration, ..*old(self) }),
    {
        self.duration = duration;
    }

    /// Whether the recipe is usable: exactly [`ProductionStrategy::wf`].
    pub fn check_wf(&self) -> (r: bool)
        ensures
            r == self.wf(),
    {
        if self.duration < 1 {
            return false;
        }
        if !check_req_names_distinct(&self.inputs) {
            return false;
        }
        if !check_req_names_distinct(&self.outputs) {
            return false;
        }
        true
    }
}

/// Whether no commodity is named twice: exactly [`req_names_distinct`].
pub fn check_req_names_distinct(reqs: &Vec<ProductionRequirement>) -> (r: bool)
    ensures
        r == req_names_distinct(reqs@),
{
    let n = reqs.len();
    let mut i: usize = 0;
    while i < n
        invariant
            n == reqs@.len(),
            i <= n,
            forall|a: int, b: int|
                0 <= a < b < reqs@.len() && a < i ==> reqs@[a].commodity_name@
                    != reqs@[b].commodity_name@,
        decreases n - i,
    {
        let mut j: usize = i + 1;
        while j < n
            invariant
                n == reqs@.len(),
                i < j || i + 1 == j,
                i < n,
                i + 1 <= j <= n,
                forall|b: int| i < b < j ==> reqs@[i as int].commodity_name@
                    != reqs@[b].commodity_name@,
            decreases n - j,
        {
            if str_eq(reqs[i].commodity_name.as_str(), reqs[j].commodity_name.as_str()) {
                return false;
            }
            j = j + 1;
        }
        i = i + 1;
    }
    true
}

} // verus!
