//! The engine's guarantees, proved once and for all over the model in
//! [`crate::model`]. The executable step functions promise exactly the
//! model's results, so these laws carry over to every run.

use vstd::prelude::*;

use crate::model::{
    consume_all, inputs_satisfied, inv_map_wf, lemma_add_all, lemma_consume_all,
    lemma_req_amount_nonneg, outputs_have_room, producer_tick, req_amount, reqs_in_map, InvMap,
};
use crate::strategy::ProductionStrategy;

verus! {

/// How a producer's progress moves in one tick, and nothing else it could
/// do: an idle producer starts (to 1) exactly when its inputs are satisfied;
/// an accumulating job advances by one; a ready job either completes (to 0)
/// exactly when its outputs have room, or freezes. In particular progress
/// never runs past the strategy's duration: once there it stays frozen until
/// completion succeeds.
pub proof fn lemma_progress_transitions(m: InvMap, progress: u32, s: ProductionStrategy)
    requires
        s.wf(),
        progress <= s.duration,
    ensures
        progress == 0 && inputs_satisfied(m, s.inputs@) ==> producer_tick(m, progress, s).1 == 1,
        progress == 0 && !inputs_satisfied(m, s.inputs@) ==> producer_tick(m, progress, s)
            == (m, 0u32),
        0 < progress < s.duration ==> producer_tick(m, progress, s).1 == progress + 1,
        progress == s.duration && outputs_have_room(m, s.outputs@) ==> producer_tick(
            m,
            progress,
            s,
        ).1 == 0,
        progress == s.duration && !outputs_have_room(m, s.outputs@) ==> producer_tick(
            m,
            progress,
            s,
        ) == (m, progress),
        producer_tick(m, progress, s).1 <= s.duration,
{
}

/// Conservation across a successful completion: commodity by commodity, the
/// stock consumed equals the amount held reserved for the job since it
/// started — the strategy's declared inputs — and the stock produced equals
/// exactly the strategy's declared outputs. The reservation is released in
/// full, and capacities never move.
pub proof fn lemma_completion_conservation(m: InvMap, progress: u32, s: ProductionStrategy)
    requires
        s.wf(),
        reqs_in_map(m, s.inputs@),
        reqs_in_map(m, s.outputs@),
        inv_map_wf(m),
        forall|k: Seq<char>| #[trigger] m.contains_key(k) ==> m[k].reserved >= req_amount(s.inputs@, k),
        progress >= s.duration,
        outputs_have_room(m, s.outputs@),
    ensures
        producer_tick(m, progress, s).1 == 0,
        producer_tick(m, progress, s).0.dom() == m.dom(),
        forall|k: Seq<char>| #[trigger] m.contains_key(k) ==> producer_tick(m, progress, s).0[k].amount == m[k].amount - req_amount(s.inputs@, k) + req_amount(s.outputs@, k),
        forall|k: Seq<char>| #[trigger] m.contains_key(k) ==> producer_tick(m, progress, s).0[k].reserved == m[k].reserved - req_amount(s.inputs@, k),
        forall|k: Seq<char>| #[trigger] m.contains_key(k) ==> producer_tick(m, progress, s).0[k].capacity == m[k].capacity,
        inv_map_wf(producer_tick(m, progress, s).0),
{
    lemma_consume_all(m, s.inputs@);
    let m1 = consume_all(m, s.inputs@);
    assert forall|j: int| 0 <= j < s.outputs@.len() implies m1.contains_key(
        #[trigger] s.outputs@[j].commodity_name@) && m1[s.outputs@[j].commodity_name@].spec_free()
        >= s.outputs@[j].amount by {
        lemma_req_amount_nonneg(s.inputs@, s.outputs@[j].commodity_name@);
    }
    lemma_add_all(m1, s.outputs@);
}

/// Idempotent blocking: a tick of a ready job whose outputs lack room leaves
/// the inventories and the progress exactly as they were. The state being
/// unchanged, every further tick under the same conditions does the same:
/// the job waits indefinitely, holding its reservation, rather than discard
/// product or over-fill storage.
pub proof fn lemma_blocked_completion_unchanged(m: InvMap, progress: u32, s: ProductionStrategy)
    requires
        s.wf(),
        progress >= s.duration,
        !outputs_have_room(m, s.outputs@),
    ensures
        producer_tick(m, progress, s) == (m, progress),
{
}

} // verus!
