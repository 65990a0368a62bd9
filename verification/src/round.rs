//! Dispatch within one round: the surviving candidates are offered to the
//! pool one by one, in their order. Each takes the first idle slot; once no
//! slot is idle, the rest are deferred. A deferred candidate is handed back to
//! the caller and not kept for a later round.

use crate::analyzer::{candidate_models, CandidateModel, CommitmentCandidate};
use crate::pool::{
    after_assign, assigned_slot, at_rest, count_assigned, first_idle, lemma_count_bounded,
    lemma_count_full, lemma_count_update, lemma_first_idle_found, slot_at_rest, MinerId,
    MinerPool, SlotModel, SlotState,
};
use crate::validator::{law_viable_are_valid, valid, viable};
use vstd::prelude::*;

verus! {

/// A candidate and the slot it was bound to.
#[derive(Debug, PartialEq, Eq)]
pub struct Assignment {
    pub miner: MinerId,
    pub candidate: CommitmentCandidate,
}

/// Model of an [`Assignment`].
pub struct AssignmentModel {
    pub miner: int,
    pub candidate: CandidateModel,
}

impl View for Assignment {
    type V = AssignmentModel;

    open spec fn view(&self) -> AssignmentModel {
        AssignmentModel { miner: self.miner.0 as int, candidate: self.candidate@ }
    }
}

/// The models of a sequence of assignments, in order.
pub open spec fn assignment_models(assignments: Seq<Assignment>) -> Seq<AssignmentModel> {
    assignments.map_values(|a: Assignment| a@)
}

/// What became of the candidates that were offered to a pool.
pub struct Offered {
    /// The pool afterwards.
    pub pool: Seq<SlotModel>,
    /// Those that got a slot, in the order offered.
    pub assignments: Seq<AssignmentModel>,
    /// Those that found the pool full, in the order offered.
    pub deferred: Seq<CandidateModel>,
}

/// Offers `candidates` to `pool`, one after the other.
pub open spec fn offer_all(pool: Seq<SlotModel>, candidates: Seq<CandidateModel>) -> Offered
    decreases candidates.len(),
{
    if candidates.len() == 0 {
        Offered { pool, assignments: Seq::empty(), deferred: Seq::empty() }
    } else {
        let before = offer_all(pool, candidates.drop_last());
        let candidate = candidates.last();
        match first_idle(before.pool) {
            Some(i) => Offered {
                pool: after_assign(before.pool, candidate),
                assignments: before.assignments.push(AssignmentModel { miner: i, candidate }),
                deferred: before.deferred,
            },
            None => Offered {
                pool: before.pool,
                assignments: before.assignments,
                deferred: before.deferred.push(candidate),
            },
        }
    }
}

/// Offers `candidates` to `pool` in their order. Returns the assignments made
/// and the candidates for which no slot was idle.
pub fn assign_all(pool: &mut MinerPool, candidates: &[CommitmentCandidate]) -> (result: (
    Vec<Assignment>,
    Vec<CommitmentCandidate>,
))
    requires
        old(pool).wf(),
    ensures
        final(pool).wf(),
        final(pool)@ == offer_all(old(pool)@, candidate_models(candidates@)).pool,
        final(pool)@.len() == old(pool)@.len(),
        assignment_models(result.0@) == offer_all(
            old(pool)@,
            candidate_models(candidates@),
        ).assignments,
        candidate_models(result.1@) == offer_all(
            old(pool)@,
            candidate_models(candidates@),
        ).deferred,
{
    let ghost start = pool@;
    let ghost models = candidate_models(candidates@);
    let mut assignments: Vec<Assignment> = Vec::new();
    let mut deferred: Vec<CommitmentCandidate> = Vec::new();
    let mut i: usize = 0;
    proof {
        assert(models.take(0) =~= Seq::empty());
        assert(assignment_models(assignments@) =~= Seq::empty());
        assert(candidate_models(deferred@) =~= Seq::empty());
    }
    while i < candidates.len()
        invariant
            i <= candidates@.len(),
            models == candidate_models(candidates@),
            pool.wf(),
            pool@.len() == start.len(),
            pool@ == offer_all(start, models.take(i as int)).pool,
            assignment_models(assignments@) == offer_all(start, models.take(i as int)).assignments,
            candidate_models(deferred@) == offer_all(start, models.take(i as int)).deferred,
        decreases candidates@.len() - i,
    {
        let ghost assigned_before = assignments@;
        let ghost deferred_before = deferred@;
        proof {
            let next = models.take(i + 1);
            assert(next.drop_last() =~= models.take(i as int));
            assert(next.last() == candidates@[i as int]@);
        }
        match pool.assign(candidates[i].duplicate()) {
            Ok(miner) => {
                let assignment = Assignment { miner, candidate: candidates[i].duplicate() };
                assignments.push(assignment);
                assert(assignment_models(assignments@) =~= assignment_models(assigned_before).push(
                    assignment@,
                ));
            },
            Err(_) => {
                let left = candidates[i].duplicate();
                deferred.push(left);
                assert(candidate_models(deferred@) =~= candidate_models(deferred_before).push(
                    left@,
                ));
            },
        }
        i += 1;
    }
    proof {
        assert(models.take(i as int) =~= models);
    }
    (assignments, deferred)
}

/// The number of idle slots of a pool at rest.
pub open spec fn count_idle(pool: Seq<SlotModel>) -> int {
    pool.len() - count_assigned(pool)
}

/// What holds of `offered` when it is what became of `candidates` at `pool`.
pub open spec fn in_offer_order(
    pool: Seq<SlotModel>,
    candidates: Seq<CandidateModel>,
    offered: Offered,
) -> bool {
    let assigned = offered.assignments.len() as int;
    &&& offered.pool.len() == pool.len()
    &&& at_rest(offered.pool)
    &&& assigned + offered.deferred.len() == candidates.len()
    &&& assigned == if candidates.len() <= count_idle(pool) {
        candidates.len() as int
    } else {
        count_idle(pool)
    }
    &&& count_assigned(offered.pool) == count_assigned(pool) + assigned
    &&& forall|k: int|
        0 <= k < assigned ==> {
            &&& (#[trigger] offered.assignments[k]).candidate == candidates[k]
            &&& 0 <= offered.assignments[k].miner < pool.len()
            &&& pool[offered.assignments[k].miner].state == SlotState::Idle
            &&& offered.pool[offered.assignments[k].miner] == assigned_slot(candidates[k])
        }
    &&& forall|j: int, k: int|
        0 <= j < k < assigned ==> (#[trigger] offered.assignments[j]).miner
            < (#[trigger] offered.assignments[k]).miner
    &&& forall|k: int|
        0 <= k < offered.deferred.len() ==> #[trigger] offered.deferred[k] == candidates[assigned
            + k]
    &&& forall|i: int|
        0 <= i < pool.len() ==> {
            ||| #[trigger] offered.pool[i] == pool[i]
            ||| exists|k: int|
                0 <= k < assigned && (#[trigger] offered.assignments[k]).miner == i
        }
}

spec fn filled_up_to_last(offered: Offered) -> bool {
    &&& offered.deferred.len() > 0 ==> first_idle(offered.pool) is None
    &&& offered.assignments.len() > 0 ==> forall|j: int|
        0 <= j <= offered.assignments.last().miner ==> (#[trigger] offered.pool[j]).state
            != SlotState::Idle
}

proof fn lemma_offer_all(pool: Seq<SlotModel>, candidates: Seq<CandidateModel>)
    requires
        at_rest(pool),
    ensures
        in_offer_order(pool, candidates, offer_all(pool, candidates)),
        filled_up_to_last(offer_all(pool, candidates)),
    decreases candidates.len(),
{
    let offered = offer_all(pool, candidates);
    lemma_count_bounded(pool);
    if candidates.len() == 0 {
        assert(in_offer_order(pool, candidates, offered));
    } else {
        let front = candidates.drop_last();
        let candidate = candidates.last();
        let before = offer_all(pool, front);
        lemma_offer_all(pool, front);
        lemma_first_idle_found(before.pool);
        lemma_count_full(before.pool);
        lemma_count_bounded(before.pool);
        let n = before.assignments.len() as int;
        match first_idle(before.pool) {
            Some(i) => {
                lemma_count_update(before.pool, i, assigned_slot(candidate));
                assert(slot_at_rest(before.pool[i]));
                assert(before.deferred.len() == 0);
                assert(offered.pool == before.pool.update(i, assigned_slot(candidate)));
                assert(offered.assignments.last().miner == i);
                // the slot was idle from the start: no assignment so far took it
                assert(pool[i].state == SlotState::Idle) by {
                    if before.pool[i] != pool[i] {
                        let k = choose|k: int|
                            0 <= k < n && (#[trigger] before.assignments[k]).miner == i;
                        assert(before.pool[before.assignments[k].miner] == assigned_slot(
                            front[k],
                        ));
                    }
                }
                assert forall|j: int, k: int| 0 <= j < k < n + 1 implies (
                #[trigger] offered.assignments[j]).miner < (
                #[trigger] offered.assignments[k]).miner by {
                    if k == n {
                        assert(offered.assignments[j] == before.assignments[j]);
                        if before.assignments[j].miner >= i {
                            assert(before.assignments[j].miner <= before.assignments.last().miner)
                                by {
                                if j < n - 1 {
                                    assert(before.assignments[j].miner < before.assignments[n
                                        - 1].miner);
                                }
                            }
                            assert(before.pool[i].state != SlotState::Idle);
                        }
                    } else {
                        assert(offered.assignments[j] == before.assignments[j]);
                        assert(offered.assignments[k] == before.assignments[k]);
                    }
                }
                assert forall|k: int| 0 <= k < n + 1 implies {
                    &&& (#[trigger] offered.assignments[k]).candidate == candidates[k]
                    &&& 0 <= offered.assignments[k].miner < pool.len()
                    &&& pool[offered.assignments[k].miner].state == SlotState::Idle
                    &&& offered.pool[offered.assignments[k].miner] == assigned_slot(candidates[k])
                } by {
                    if k < n {
                        assert(offered.assignments[k] == before.assignments[k]);
                        assert(before.assignments[k].candidate == front[k]);
                        assert(offered.assignments[k].miner < offered.assignments[n].miner);
                    }
                }
                assert forall|j: int| 0 <= j < pool.len() implies {
                    ||| #[trigger] offered.pool[j] == pool[j]
                    ||| exists|k: int|
                        0 <= k < n + 1 && (#[trigger] offered.assignments[k]).miner == j
                } by {
                    if j == i {
                        assert(offered.assignments[n].miner == j);
                    } else if before.pool[j] != pool[j] {
                        let k = choose|k: int|
                            0 <= k < n && (#[trigger] before.assignments[k]).miner == j;
                        assert(offered.assignments[k].miner == j);
                    }
                }
                assert(at_rest(offered.pool)) by {
                    assert forall|j: int| 0 <= j < offered.pool.len() implies slot_at_rest(
                        #[trigger] offered.pool[j],
                    ) by {
                        if j != i {
                            assert(slot_at_rest(before.pool[j]));
                        }
                    }
                }
                assert forall|j: int| 0 <= j <= offered.assignments.last().miner implies (
                #[trigger] offered.pool[j]).state != SlotState::Idle by {
                    if j < i {
                        assert(before.pool[j].state != SlotState::Idle);
                    }
                }
                assert(in_offer_order(pool, candidates, offered));
                assert(filled_up_to_last(offered));
            },
            None => {
                assert forall|j: int| 0 <= j < before.pool.len() implies (
                #[trigger] before.pool[j]).state == SlotState::Assigned by {
                    assert(slot_at_rest(before.pool[j]));
                }
                assert(count_assigned(before.pool) == before.pool.len());
                assert forall|k: int| 0 <= k < offered.deferred.len() implies (
                #[trigger] offered.deferred[k]) == candidates[n + k] by {
                    if k < before.deferred.len() {
                        assert(offered.deferred[k] == before.deferred[k]);
                        assert(before.deferred[k] == front[n + k]);
                    }
                }
                assert forall|k: int| 0 <= k < n implies {
                    &&& (#[trigger] offered.assignments[k]).candidate == candidates[k]
                    &&& 0 <= offered.assignments[k].miner < pool.len()
                    &&& pool[offered.assignments[k].miner].state == SlotState::Idle
                    &&& offered.pool[offered.assignments[k].miner] == assigned_slot(candidates[k])
                } by {
                    assert(before.assignments[k].candidate == front[k]);
                }
                assert(in_offer_order(pool, candidates, offered));
                assert(filled_up_to_last(offered));
            },
        }
    }
}

/// Within a round the candidates are served in the order offered and first
/// fit: the first of them get slots, as many as were idle, each the lowest
/// idle slot at its turn, so that slot numbers rise with the order; the rest
/// are deferred, in order; and no slot changes but those just assigned.
pub proof fn law_round_serves_in_order(pool: Seq<SlotModel>, candidates: Seq<CandidateModel>)
    requires
        at_rest(pool),
    ensures
        in_offer_order(pool, candidates, offer_all(pool, candidates)),
{
    lemma_offer_all(pool, candidates);
}

/// A candidate that the validator rejects never reaches the pool. When the
/// viable ones among `candidates` are offered, every assignment and every
/// deferral is of a valid candidate that was among those given, and every
/// slot is as it was before or bound to such a candidate.
pub proof fn law_rejected_never_reach_pool(
    pool: Seq<SlotModel>,
    candidates: Seq<CandidateModel>,
    threshold: nat,
)
    requires
        at_rest(pool),
    ensures
        forall|k: int|
            0 <= k < offer_all(pool, viable(candidates, threshold)).assignments.len() ==> {
                &&& valid(
                    (#[trigger] offer_all(
                        pool,
                        viable(candidates, threshold),
                    ).assignments[k]).candidate,
                    threshold,
                )
                &&& candidates.contains(
                    offer_all(pool, viable(candidates, threshold)).assignments[k].candidate,
                )
            },
        forall|k: int|
            0 <= k < offer_all(pool, viable(candidates, threshold)).deferred.len() ==> {
                &&& valid(
                    #[trigger] offer_all(pool, viable(candidates, threshold)).deferred[k],
                    threshold,
                )
                &&& candidates.contains(
                    offer_all(pool, viable(candidates, threshold)).deferred[k],
                )
            },
        forall|i: int|
            0 <= i < pool.len() ==> {
                ||| #[trigger] offer_all(pool, viable(candidates, threshold)).pool[i] == pool[i]
                ||| exists|c: CandidateModel|
                    {
                        &&& offer_all(pool, viable(candidates, threshold)).pool[i]
                            == #[trigger] assigned_slot(c)
                        &&& valid(c, threshold)
                        &&& candidates.contains(c)
                    }
            },
{
    let kept = viable(candidates, threshold);
    let offered = offer_all(pool, kept);
    law_viable_are_valid(candidates, threshold);
    lemma_offer_all(pool, kept);
    let n = offered.assignments.len() as int;
    assert forall|k: int| 0 <= k < n implies {
        &&& valid((#[trigger] offered.assignments[k]).candidate, threshold)
        &&& candidates.contains(offered.assignments[k].candidate)
    } by {
        assert(offered.assignments[k].candidate == kept[k]);
    }
    assert forall|k: int| 0 <= k < offered.deferred.len() implies {
        &&& valid(#[trigger] offered.deferred[k], threshold)
        &&& candidates.contains(offered.deferred[k])
    } by {
        assert(offered.deferred[k] == kept[n + k]);
    }
    assert forall|i: int| 0 <= i < pool.len() implies {
        ||| #[trigger] offered.pool[i] == pool[i]
        ||| exists|c: CandidateModel|
            {
                &&& offered.pool[i] == #[trigger] assigned_slot(c)
                &&& valid(c, threshold)
                &&& candidates.contains(c)
            }
    } by {
        if offered.pool[i] != pool[i] {
            let k = choose|k: int| 0 <= k < n && (#[trigger] offered.assignments[k]).miner == i;
            assert(offered.pool[offered.assignments[k].miner] == assigned_slot(kept[k]));
            assert(valid(kept[k], threshold) && candidates.contains(kept[k]));
        }
    }
}

} // verus!
