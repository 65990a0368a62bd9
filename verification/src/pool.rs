//! The miner pool: a fixed number of slots, each idle or bound to one
//! candidate.
//!
//! A slot is taken by `assign`, which picks the idle slot of lowest index, and
//! given back by `complete`, which settles the slot as completed or failed and
//! then releases it. Between calls on the pool every slot is idle or assigned;
//! completed and failed are passed through inside `complete`.

use crate::analyzer::{CandidateModel, CommitmentCandidate};
use crate::error::{PoolFull, SubmissionError};
use vstd::prelude::*;

verus! {

/// Names a miner slot: its position in the pool.
#[derive(Clone, Copy, Debug, PartialEq, Eq, Structural)]
pub struct MinerId(pub usize);

/// Where a slot stands in its life.
#[derive(Clone, Copy, Debug, PartialEq, Eq, Structural)]
pub enum SlotState {
    Idle,
    Assigned,
    Completed,
    Failed,
}

/// How a submission ended.
#[derive(Clone, Copy, Debug, PartialEq, Eq, Structural)]
pub enum SubmissionOutcome {
    Submitted,
    Failed(SubmissionError),
}

/// One unit of mining capacity.
#[derive(Debug)]
pub struct MinerSlot {
    pub id: MinerId,
    pub state: SlotState,
    pub candidate: Option<CommitmentCandidate>,
}

/// Model of a [`MinerSlot`]; its id is its position in the pool.
pub struct SlotModel {
    pub state: SlotState,
    pub candidate: Option<CandidateModel>,
}

impl View for MinerSlot {
    type V = SlotModel;

    open spec fn view(&self) -> SlotModel {
        SlotModel {
            state: self.state,
            candidate: match self.candidate {
                Some(c) => Some(c@),
                None => None,
            },
        }
    }
}

/// The pool of miner slots.
#[derive(Debug)]
pub struct MinerPool {
    slots: Vec<MinerSlot>,
}

/// An idle slot.
pub open spec fn idle_slot() -> SlotModel {
    SlotModel { state: SlotState::Idle, candidate: None }
}

/// A slot bound to `candidate`.
pub open spec fn assigned_slot(candidate: CandidateModel) -> SlotModel {
    SlotModel { state: SlotState::Assigned, candidate: Some(candidate) }
}

/// A slot between two calls: idle and empty, or assigned and bound.
pub open spec fn slot_at_rest(slot: SlotModel) -> bool {
    ||| slot.state == SlotState::Idle && slot.candidate is None
    ||| slot.state == SlotState::Assigned && slot.candidate is Some
}

/// Every slot of `pool` is at rest.
pub open spec fn at_rest(pool: Seq<SlotModel>) -> bool {
    forall|i: int| 0 <= i < pool.len() ==> slot_at_rest(#[trigger] pool[i])
}

/// The state a slot passes through when its submission ended with `outcome`.
pub open spec fn terminal_state(outcome: SubmissionOutcome) -> SlotState {
    match outcome {
        SubmissionOutcome::Submitted => SlotState::Completed,
        SubmissionOutcome::Failed(_) => SlotState::Failed,
    }
}

/// One step in the life of a slot.
pub open spec fn lifecycle_step(from: SlotState, to: SlotState) -> bool {
    ||| from == SlotState::Idle && to == SlotState::Assigned
    ||| from == SlotState::Assigned && (to == SlotState::Completed || to == SlotState::Failed)
    ||| (from == SlotState::Completed || from == SlotState::Failed) && to == SlotState::Idle
}

/// A slot after `bind`: an idle slot takes the candidate, any other stays as
/// it is.
pub open spec fn slot_after_bind(slot: SlotModel, candidate: CandidateModel) -> SlotModel {
    if slot.state == SlotState::Idle {
        assigned_slot(candidate)
    } else {
        slot
    }
}

/// A slot after `settle`: an assigned slot takes the state that the outcome
/// calls for and keeps its candidate, any other stays as it is.
pub open spec fn slot_after_settle(slot: SlotModel, outcome: SubmissionOutcome) -> SlotModel {
    if slot.state == SlotState::Assigned {
        SlotModel { state: terminal_state(outcome), candidate: slot.candidate }
    } else {
        slot
    }
}

/// A slot after `release`: a completed or failed slot is idle and empty, any
/// other stays as it is.
pub open spec fn slot_after_release(slot: SlotModel) -> SlotModel {
    if slot.state == SlotState::Completed || slot.state == SlotState::Failed {
        idle_slot()
    } else {
        slot
    }
}

/// The number of assigned slots.
pub open spec fn count_assigned(pool: Seq<SlotModel>) -> nat
    decreases pool.len(),
{
    if pool.len() == 0 {
        0
    } else {
        count_assigned(pool.drop_last()) + if pool.last().state == SlotState::Assigned {
            1nat
        } else {
            0nat
        }
    }
}

/// The positions of the assigned slots, rising.
pub open spec fn assigned_ids(pool: Seq<SlotModel>) -> Seq<int>
    decreases pool.len(),
{
    if pool.len() == 0 {
        Seq::empty()
    } else if pool.last().state == SlotState::Assigned {
        assigned_ids(pool.drop_last()).push(pool.len() - 1)
    } else {
        assigned_ids(pool.drop_last())
    }
}

/// The positions that a sequence of ids names.
pub open spec fn id_positions(ids: Seq<MinerId>) -> Seq<int> {
    ids.map_values(|id: MinerId| id.0 as int)
}

/// `i` is the lowest position of an idle slot.
pub open spec fn is_first_idle(pool: Seq<SlotModel>, i: int) -> bool {
    &&& 0 <= i < pool.len()
    &&& pool[i].state == SlotState::Idle
    &&& forall|j: int| 0 <= j < i ==> (#[trigger] pool[j]).state != SlotState::Idle
}

/// The lowest position of an idle slot, if there is one.
pub open spec fn first_idle(pool: Seq<SlotModel>) -> Option<int> {
    if exists|i: int| is_first_idle(pool, i) {
        Some(choose|i: int| is_first_idle(pool, i))
    } else {
        None
    }
}

/// The pool after `candidate` was offered to it: bound to the first idle
/// slot, or the pool as it was where none is idle.
pub open spec fn after_assign(pool: Seq<SlotModel>, candidate: CandidateModel) -> Seq<SlotModel> {
    match first_idle(pool) {
        Some(i) => pool.update(i, assigned_slot(candidate)),
        None => pool,
    }
}

/// Whether `complete` on slot `id` takes effect: the slot exists and is
/// assigned.
pub open spec fn can_complete(pool: Seq<SlotModel>, id: int) -> bool {
    0 <= id < pool.len() && pool[id].state == SlotState::Assigned
}

/// The pool after the submission of slot `id` ended: that slot idle again,
/// or the pool as it was where the slot is not assigned.
pub open spec fn after_complete(pool: Seq<SlotModel>, id: int) -> Seq<SlotModel> {
    if can_complete(pool, id) {
        pool.update(id, idle_slot())
    } else {
        pool
    }
}

/// A position that is the lowest idle one is what `first_idle` gives.
pub proof fn lemma_first_idle_is(pool: Seq<SlotModel>, i: int)
    requires
        is_first_idle(pool, i),
    ensures
        first_idle(pool) == Some(i),
{
    let j = choose|j: int| is_first_idle(pool, j);
    assert(is_first_idle(pool, j));
    if j < i {
        assert(pool[j].state != SlotState::Idle);
    } else if i < j {
        assert(pool[i].state != SlotState::Idle);
    }
}

/// Where no slot is idle, `first_idle` gives nothing.
pub proof fn lemma_first_idle_none(pool: Seq<SlotModel>)
    requires
        forall|j: int| 0 <= j < pool.len() ==> (#[trigger] pool[j]).state != SlotState::Idle,
    ensures
        first_idle(pool) is None,
{
}

/// What `first_idle` gives is the lowest idle position, and it gives nothing
/// only where no slot is idle.
pub proof fn lemma_first_idle_found(pool: Seq<SlotModel>)
    ensures
        match first_idle(pool) {
            Some(i) => is_first_idle(pool, i),
            None => forall|j: int|
                0 <= j < pool.len() ==> (#[trigger] pool[j]).state != SlotState::Idle,
        },
{
    if first_idle(pool) is None {
        assert forall|j: int| 0 <= j < pool.len() implies (#[trigger] pool[j]).state
            != SlotState::Idle by {
            if pool[j].state == SlotState::Idle {
                lemma_some_idle_has_first(pool, j);
            }
        }
    }
}

proof fn lemma_some_idle_has_first(pool: Seq<SlotModel>, j: int)
    requires
        0 <= j < pool.len(),
        pool[j].state == SlotState::Idle,
    ensures
        exists|i: int| is_first_idle(pool, i),
    decreases j,
{
    if exists|k: int| 0 <= k < j && (#[trigger] pool[k]).state == SlotState::Idle {
        let k = choose|k: int| 0 <= k < j && (#[trigger] pool[k]).state == SlotState::Idle;
        lemma_some_idle_has_first(pool, k);
    } else {
        assert(is_first_idle(pool, j));
    }
}

/// No more slots are assigned than there are slots.
pub proof fn lemma_count_bounded(pool: Seq<SlotModel>)
    ensures
        count_assigned(pool) <= pool.len(),
    decreases pool.len(),
{
    if pool.len() > 0 {
        lemma_count_bounded(pool.drop_last());
    }
}

/// Replacing one slot changes the number of assigned slots by what that
/// slot was and what it becomes.
pub proof fn lemma_count_update(pool: Seq<SlotModel>, i: int, slot: SlotModel)
    requires
        0 <= i < pool.len(),
    ensures
        count_assigned(pool.update(i, slot)) + (if pool[i].state == SlotState::Assigned {
            1nat
        } else {
            0nat
        }) == count_assigned(pool) + (if slot.state == SlotState::Assigned {
            1nat
        } else {
            0nat
        }),
    decreases pool.len(),
{
    let next = pool.update(i, slot);
    if i == pool.len() - 1 {
        assert(next.drop_last() =~= pool.drop_last());
    } else {
        assert(next.drop_last() =~= pool.drop_last().update(i, slot));
        lemma_count_update(pool.drop_last(), i, slot);
    }
}

/// The number of assigned slots equals the number of slots exactly when
/// every slot is assigned.
pub proof fn lemma_count_full(pool: Seq<SlotModel>)
    ensures
        count_assigned(pool) == pool.len() <==> (forall|j: int|
            0 <= j < pool.len() ==> (#[trigger] pool[j]).state == SlotState::Assigned),
    decreases pool.len(),
{
    if pool.len() > 0 {
        let front = pool.drop_last();
        lemma_count_full(front);
        lemma_count_bounded(front);
        if count_assigned(pool) == pool.len() {
            assert forall|j: int| 0 <= j < pool.len() implies (#[trigger] pool[j]).state
                == SlotState::Assigned by {
                if j < pool.len() - 1 {
                    assert(front[j].state == SlotState::Assigned);
                }
            }
        }
        if forall|j: int| 0 <= j < pool.len() ==> (#[trigger] pool[j]).state == SlotState::Assigned {
            assert forall|j: int| 0 <= j < front.len() implies (#[trigger] front[j]).state
                == SlotState::Assigned by {
                assert(pool[j].state == SlotState::Assigned);
            }
            assert(pool[pool.len() - 1].state == SlotState::Assigned);
        }
    }
}

/// One call on the pool, as the model sees it.
pub enum PoolOp {
    /// `assign` with this candidate.
    Assign(CandidateModel),
    /// `complete` on the slot at this position, with this outcome.
    Complete(int, SubmissionOutcome),
}

/// The pool after one call.
pub open spec fn after_op(pool: Seq<SlotModel>, op: PoolOp) -> Seq<SlotModel> {
    match op {
        PoolOp::Assign(candidate) => after_assign(pool, candidate),
        PoolOp::Complete(id, _) => after_complete(pool, id),
    }
}

/// The pool after a sequence of calls, made in order.
pub open spec fn after_ops(pool: Seq<SlotModel>, ops: Seq<PoolOp>) -> Seq<SlotModel>
    decreases ops.len(),
{
    if ops.len() == 0 {
        pool
    } else {
        after_op(after_ops(pool, ops.drop_last()), ops.last())
    }
}

/// One call keeps the number of slots and leaves every slot at rest.
pub proof fn lemma_op_keeps_shape(pool: Seq<SlotModel>, op: PoolOp)
    ensures
        after_op(pool, op).len() == pool.len(),
        at_rest(pool) ==> at_rest(after_op(pool, op)),
{
    lemma_first_idle_found(pool);
}

/// Whatever sequence of `assign` and `complete` calls is made, and however
/// far into it one looks, the pool keeps its number of slots and the number of
/// assigned slots never exceeds it.
pub proof fn law_assigned_never_exceeds_capacity(pool: Seq<SlotModel>, ops: Seq<PoolOp>)
    ensures
        forall|n: int|
            0 <= n <= ops.len() ==> {
                &&& (#[trigger] after_ops(pool, ops.take(n))).len() == pool.len()
                &&& count_assigned(after_ops(pool, ops.take(n))) <= pool.len()
                &&& at_rest(pool) ==> at_rest(after_ops(pool, ops.take(n)))
            },
{
    assert forall|n: int| 0 <= n <= ops.len() implies {
        &&& (#[trigger] after_ops(pool, ops.take(n))).len() == pool.len()
        &&& count_assigned(after_ops(pool, ops.take(n))) <= pool.len()
        &&& at_rest(pool) ==> at_rest(after_ops(pool, ops.take(n)))
    } by {
        lemma_ops_keep_shape(pool, ops.take(n));
        lemma_count_bounded(after_ops(pool, ops.take(n)));
    }
}

proof fn lemma_ops_keep_shape(pool: Seq<SlotModel>, ops: Seq<PoolOp>)
    ensures
        after_ops(pool, ops).len() == pool.len(),
        at_rest(pool) ==> at_rest(after_ops(pool, ops)),
    decreases ops.len(),
{
    if ops.len() > 0 {
        lemma_ops_keep_shape(pool, ops.drop_last());
        lemma_op_keeps_shape(after_ops(pool, ops.drop_last()), ops.last());
    }
}

/// `assign` fails exactly when every slot is assigned, and where it succeeds
/// one slot more is assigned than before.
pub proof fn law_full_means_all_assigned(pool: Seq<SlotModel>, candidate: CandidateModel)
    requires
        at_rest(pool),
    ensures
        first_idle(pool) is None <==> count_assigned(pool) == pool.len(),
        first_idle(pool) is Some ==> count_assigned(after_assign(pool, candidate))
            == count_assigned(pool) + 1,
{
    lemma_first_idle_found(pool);
    lemma_count_full(pool);
    if first_idle(pool) is Some {
        lemma_count_update(pool, first_idle(pool).unwrap(), assigned_slot(candidate));
    } else {
        assert forall|j: int| 0 <= j < pool.len() implies (#[trigger] pool[j]).state
            == SlotState::Assigned by {
            assert(slot_at_rest(pool[j]));
        }
    }
    if count_assigned(pool) == pool.len() {
        lemma_first_idle_none(pool);
    }
}

/// Completion is the only way back to idle: where one call turns an assigned
/// slot idle, the call is `complete` on that very slot.
pub proof fn law_only_complete_frees(pool: Seq<SlotModel>, op: PoolOp, i: int)
    requires
        0 <= i < pool.len(),
        pool[i].state == SlotState::Assigned,
        after_op(pool, op)[i].state == SlotState::Idle,
    ensures
        op matches PoolOp::Complete(id, _) && id == i,
{
    lemma_first_idle_found(pool);
}

/// A slot that was assigned and completed is as it was before, whatever the
/// outcome: the pool is the one in which that slot was the first idle one, so
/// the next `assign` takes it again.
pub proof fn law_completed_slot_is_reusable(pool: Seq<SlotModel>, candidate: CandidateModel)
    requires
        at_rest(pool),
        first_idle(pool) is Some,
    ensures
        can_complete(after_assign(pool, candidate), first_idle(pool).unwrap()),
        after_complete(after_assign(pool, candidate), first_idle(pool).unwrap()) == pool,
{
    lemma_first_idle_found(pool);
    let i = first_idle(pool).unwrap();
    assert(slot_at_rest(pool[i]));
    assert(pool.update(i, assigned_slot(candidate)).update(i, idle_slot()) =~= pool);
}

/// The list of active miners names exactly the assigned slots, each once and
/// in rising order.
pub proof fn law_active_miners_are_the_assigned(pool: Seq<SlotModel>)
    ensures
        assigned_ids(pool).len() == count_assigned(pool),
        forall|k: int|
            0 <= k < assigned_ids(pool).len() ==> 0 <= (#[trigger] assigned_ids(pool)[k])
                < pool.len() && pool[assigned_ids(pool)[k]].state == SlotState::Assigned,
        forall|j: int, k: int|
            0 <= j < k < assigned_ids(pool).len() ==> (#[trigger] assigned_ids(pool)[j]) < (
            #[trigger] assigned_ids(pool)[k]),
        forall|i: int|
            0 <= i < pool.len() && (#[trigger] pool[i]).state == SlotState::Assigned
                ==> assigned_ids(pool).contains(i),
    decreases pool.len(),
{
    if pool.len() > 0 {
        let front = pool.drop_last();
        let last = pool.len() - 1;
        law_active_miners_are_the_assigned(front);
        let ids = assigned_ids(pool);
        assert forall|i: int|
            0 <= i < pool.len() && (#[trigger] pool[i]).state
                == SlotState::Assigned implies ids.contains(i) by {
            if i < last {
                assert(front[i].state == SlotState::Assigned);
                let k = choose|k: int|
                    0 <= k < assigned_ids(front).len() && assigned_ids(front)[k] == i;
                assert(ids[k] == i);
            } else {
                assert(ids[ids.len() - 1] == i);
            }
        }
        assert forall|k: int| 0 <= k < ids.len() implies 0 <= (#[trigger] ids[k]) < pool.len()
            && pool[ids[k]].state == SlotState::Assigned by {
            if k < assigned_ids(front).len() {
                assert(ids[k] == assigned_ids(front)[k]);
                assert(front[ids[k]] == pool[ids[k]]);
            }
        }
        assert forall|j: int, k: int| 0 <= j < k < ids.len() implies (#[trigger] ids[j]) < (
        #[trigger] ids[k]) by {
            if k < assigned_ids(front).len() {
                assert(ids[j] == assigned_ids(front)[j] && ids[k] == assigned_ids(front)[k]);
            } else {
                assert(ids[j] == assigned_ids(front)[j]);
            }
        }
    }
}

/// A slot moves only along its life: whatever `bind`, `settle` and `release`
/// change is one step from idle to assigned, from assigned to completed or
/// failed, or from there back to idle. Only `release` leads to idle, and only
/// from completed or failed.
pub proof fn law_slot_follows_lifecycle(
    slot: SlotModel,
    candidate: CandidateModel,
    outcome: SubmissionOutcome,
)
    ensures
        slot_after_bind(slot, candidate).state != slot.state ==> lifecycle_step(
            slot.state,
            slot_after_bind(slot, candidate).state,
        ),
        slot_after_settle(slot, outcome).state != slot.state ==> lifecycle_step(
            slot.state,
            slot_after_settle(slot, outcome).state,
        ),
        slot_after_release(slot).state != slot.state ==> lifecycle_step(
            slot.state,
            slot_after_release(slot).state,
        ),
        slot.state != SlotState::Idle ==> slot_after_bind(slot, candidate).state
            != SlotState::Idle && slot_after_settle(slot, outcome).state != SlotState::Idle,
        slot.state == SlotState::Assigned ==> slot_after_release(slot).state
            == SlotState::Assigned,
        slot.state == SlotState::Assigned ==> slot_after_release(slot_after_settle(slot, outcome))
            == idle_slot(),
{
}

impl MinerSlot {
    /// An idle slot with this id.
    pub fn idle(id: MinerId) -> (slot: MinerSlot)
        ensures
            slot.id == id,
            slot@ == idle_slot(),
    {
        MinerSlot { id, state: SlotState::Idle, candidate: None }
    }

    /// Binds `candidate` to the slot if it is idle. Says whether it did.
    pub fn bind(&mut self, candidate: CommitmentCandidate) -> (bound: bool)
        ensures
            final(self).id == old(self).id,
            final(self)@ == slot_after_bind(old(self)@, candidate@),
            bound == (old(self).state == SlotState::Idle),
    {
        match self.state {
            SlotState::Idle => {
                self.state = SlotState::Assigned;
                self.candidate = Some(candidate);
                true
            },
            _ => false,
        }
    }

    /// Records how the submission of an assigned slot ended: the slot is
    /// completed or failed, as `outcome` says. Says whether the slot was
    /// assigned.
    pub fn settle(&mut self, outcome: SubmissionOutcome) -> (settled: bool)
        ensures
            final(self).id == old(self).id,
            final(self)@ == slot_after_settle(old(self)@, outcome),
            settled == (old(self).state == SlotState::Assigned),
    {
        match self.state {
            SlotState::Assigned => {
                self.state = outcome.terminal_state();
                true
            },
            _ => false,
        }
    }

    /// Returns a completed or failed slot to idle and lets go of its
    /// candidate. Says whether the slot was completed or failed.
    pub fn release(&mut self) -> (released: bool)
        ensures
            final(self).id == old(self).id,
            final(self)@ == slot_after_release(old(self)@),
            released == (old(self).state == SlotState::Completed || old(self).state
                == SlotState::Failed),
    {
        match self.state {
            SlotState::Completed | SlotState::Failed => {
                self.state = SlotState::Idle;
                self.candidate = None;
                true
            },
            _ => false,
        }
    }
}

impl SubmissionOutcome {
    /// The state that a slot passes through on this outcome.
    pub fn terminal_state(&self) -> (state: SlotState)
        ensures
            state == terminal_state(*self),
    {
        match self {
            SubmissionOutcome::Submitted => SlotState::Completed,
            SubmissionOutcome::Failed(_) => SlotState::Failed,
        }
    }
}

impl View for MinerPool {
    type V = Seq<SlotModel>;

    closed spec fn view(&self) -> Seq<SlotModel> {
        self.slots@.map_values(|s: MinerSlot| s@)
    }
}

impl MinerPool {
    /// Each slot carries its own position as its id.
    pub closed spec fn ids_in_place(&self) -> bool {
        forall|i: int| 0 <= i < self.slots@.len() ==> (#[trigger] self.slots@[i]).id.0 == i
    }

    /// The pool is well formed: ids are in place and every slot is at rest.
    pub open spec fn wf(&self) -> bool {
        self.ids_in_place() && at_rest(self@)
    }

    /// A pool of `max_concurrent_miners` idle slots.
    pub fn new(max_concurrent_miners: usize) -> (pool: MinerPool)
        ensures
            pool.wf(),
            pool@ == Seq::new(max_concurrent_miners as nat, |i: int| idle_slot()),
    {
        let mut slots: Vec<MinerSlot> = Vec::new();
        let mut i: usize = 0;
        while i < max_concurrent_miners
            invariant
                i <= max_concurrent_miners,
                slots@.len() == i,
                forall|j: int|
                    0 <= j < i ==> (#[trigger] slots@[j]).id.0 == j && slots@[j]@ == idle_slot(),
            decreases max_concurrent_miners - i,
        {
            slots.push(MinerSlot::idle(MinerId(i)));
            i += 1;
        }
        let pool = MinerPool { slots };
        assert(pool@ =~= Seq::new(max_concurrent_miners as nat, |i: int| idle_slot()));
        pool
    }

    /// The number of slots.
    pub fn capacity(&self) -> (n: usize)
        ensures
            n == self@.len(),
    {
        self.slots.len()
    }

    /// The idle slot of lowest index, if any slot is idle.
    pub fn first_idle(&self) -> (found: Option<MinerId>)
        ensures
            match found {
                Some(id) => first_idle(self@) == Some(id.0 as int),
                None => first_idle(self@) is None,
            },
    {
        let mut i: usize = 0;
        while i < self.slots.len()
            invariant
                i <= self.slots@.len(),
                forall|j: int| 0 <= j < i ==> (#[trigger] self@[j]).state != SlotState::Idle,
            decreases self.slots@.len() - i,
        {
            match self.slots[i].state {
                SlotState::Idle => {
                    proof {
                        lemma_first_idle_is(self@, i as int);
                    }
                    return Some(MinerId(i));
                },
                _ => {},
            }
            i += 1;
        }
        proof {
            lemma_first_idle_none(self@);
        }
        None
    }

    /// Binds `candidate` to the idle slot of lowest index and returns that
    /// slot's id. Where no slot is idle, which is when all are assigned, it
    /// fails with `PoolFull` and changes nothing.
    pub fn assign(&mut self, candidate: CommitmentCandidate) -> (result: Result<MinerId, PoolFull>)
        requires
            old(self).wf(),
        ensures
            final(self).wf(),
            final(self)@ == after_assign(old(self)@, candidate@),
            final(self)@.len() == old(self)@.len(),
            match result {
                Ok(id) => {
                    &&& first_idle(old(self)@) == Some(id.0 as int)
                    &&& is_first_idle(old(self)@, id.0 as int)
                    &&& final(self)@ == old(self)@.update(id.0 as int, assigned_slot(candidate@))
                    &&& count_assigned(final(self)@) == count_assigned(old(self)@) + 1
                },
                Err(_) => {
                    &&& first_idle(old(self)@) is None
                    &&& final(self)@ == old(self)@
                },
            },
            result is Err <==> count_assigned(old(self)@) == old(self)@.len(),
    {
        proof {
            lemma_first_idle_found(self@);
            lemma_count_full(self@);
        }
        match self.first_idle() {
            Some(id) => {
                proof {
                    lemma_count_update(self@, id.0 as int, assigned_slot(candidate@));
                    lemma_count_bounded(self@.update(id.0 as int, assigned_slot(candidate@)));
                }
                let slot = &mut self.slots[id.0];
                slot.bind(candidate);
                assert(self@ =~= old(self)@.update(id.0 as int, assigned_slot(candidate@)));
                Ok(id)
            },
            None => Err(PoolFull),
        }
    }

    /// Ends the assignment of slot `miner`. Where that slot is assigned, it
    /// passes through completed or failed, as `outcome` says, and is idle
    /// again afterwards; the state passed through is returned. Where the slot
    /// does not exist or is not assigned, nothing changes and nothing is
    /// returned.
    pub fn complete(&mut self, miner: MinerId, outcome: SubmissionOutcome) -> (passed: Option<
        SlotState,
    >)
        requires
            old(self).wf(),
        ensures
            final(self).wf(),
            final(self)@ == after_complete(old(self)@, miner.0 as int),
            final(self)@.len() == old(self)@.len(),
            match passed {
                Some(state) => {
                    &&& can_complete(old(self)@, miner.0 as int)
                    &&& state == terminal_state(outcome)
                    &&& lifecycle_step(SlotState::Assigned, state)
                    &&& lifecycle_step(state, SlotState::Idle)
                    &&& final(self)@ == old(self)@.update(miner.0 as int, idle_slot())
                    &&& count_assigned(final(self)@) + 1 == count_assigned(old(self)@)
                },
                None => {
                    &&& !can_complete(old(self)@, miner.0 as int)
                    &&& final(self)@ == old(self)@
                },
            },
    {
        if miner.0 >= self.slots.len() {
            return None;
        }
        match self.slots[miner.0].state {
            SlotState::Assigned => {
                proof {
                    lemma_count_update(self@, miner.0 as int, idle_slot());
                }
                let slot = &mut self.slots[miner.0];
                slot.settle(outcome);
                let passed = slot.state;
                slot.release();
                assert(self@ =~= old(self)@.update(miner.0 as int, idle_slot()));
                Some(passed)
            },
            _ => None,
        }
    }

    /// The number of assigned slots. It never exceeds the capacity.
    pub fn active_count(&self) -> (n: usize)
        ensures
            n == count_assigned(self@),
            n <= self@.len(),
    {
        let mut n: usize = 0;
        let mut i: usize = 0;
        while i < self.slots.len()
            invariant
                i <= self.slots@.len(),
                n == count_assigned(self@.take(i as int)),
                n <= i,
            decreases self.slots@.len() - i,
        {
            proof {
                assert(self@.take(i + 1).drop_last() =~= self@.take(i as int));
            }
            match self.slots[i].state {
                SlotState::Assigned => {
                    n += 1;
                },
                _ => {},
            }
            i += 1;
        }
        proof {
            assert(self@.take(i as int) =~= self@);
        }
        n
    }

    /// The ids of the assigned slots, rising.
    pub fn active_miners(&self) -> (ids: Vec<MinerId>)
        requires
            self.wf(),
        ensures
            id_positions(ids@) == assigned_ids(self@),
            ids@.len() == count_assigned(self@),
    {
        let mut ids: Vec<MinerId> = Vec::new();
        let mut i: usize = 0;
        while i < self.slots.len()
            invariant
                i <= self.slots@.len(),
                id_positions(ids@) == assigned_ids(self@.take(i as int)),
                ids@.len() == count_assigned(self@.take(i as int)),
            decreases self.slots@.len() - i,
        {
            let ghost before = ids@;
            proof {
                assert(self@.take(i + 1).drop_last() =~= self@.take(i as int));
            }
            match self.slots[i].state {
                SlotState::Assigned => {
                    ids.push(MinerId(i));
                    assert(id_positions(ids@) =~= id_positions(before).push(i as int));
                },
                _ => {},
            }
            i += 1;
        }
        proof {
            assert(self@.take(i as int) =~= self@);
        }
        ids
    }

    /// Slot `miner`, if there is such a slot.
    pub fn slot(&self, miner: MinerId) -> (slot: Option<&MinerSlot>)
        requires
            self.wf(),
        ensures
            match slot {
                Some(s) => miner.0 < self@.len() && s.id == miner && s@ == self@[miner.0 as int],
                None => miner.0 >= self@.len(),
            },
    {
        if miner.0 < self.slots.len() {
            Some(&self.slots[miner.0])
        } else {
            None
        }
    }

    /// The state of slot `miner`, if there is such a slot.
    pub fn state_of(&self, miner: MinerId) -> (state: Option<SlotState>)
        ensures
            match state {
                Some(s) => miner.0 < self@.len() && s == self@[miner.0 as int].state,
                None => miner.0 >= self@.len(),
            },
    {
        if miner.0 < self.slots.len() {
            Some(self.slots[miner.0].state)
        } else {
            None
        }
    }

    /// The candidate bound to slot `miner`, if there is such a slot and it
    /// holds one.
    pub fn candidate_of(&self, miner: MinerId) -> (bound: Option<&CommitmentCandidate>)
        ensures
            match bound {
                Some(c) => miner.0 < self@.len() && self@[miner.0 as int].candidate == Some(c@),
                None => miner.0 >= self@.len() || self@[miner.0 as int].candidate is None,
            },
    {
        if miner.0 < self.slots.len() {
            self.slots[miner.0].candidate.as_ref()
        } else {
            None
        }
    }
}

} // verus!
