//! The coordinator: one round from a fetched block to the assignments made.
//!
//! A round analyzes the block, drops the candidates that the validator
//! rejects, and offers the rest to the miner pool. Only a block that could not
//! be fetched makes a round fail. The caller submits what was assigned and
//! reports each outcome with `complete_submission`.

use crate::analyzer::{
    analysis, analyze, candidate_models, candidate_of, exact_analysis, law_analysis_is_exact,
    CandidateModel, CommitmentCandidate,
};
use crate::chain::{committed_value, Block, BlockModel, Transaction, TransactionModel};
use crate::config::{ConfigModel, MiningConfiguration};
use crate::encoding::{carries_commitment, commitment_body, well_formed_body};
use crate::error::{
    fetch_failure, recovery_of, FetchError, MiningError, Recovery, SubmissionError,
};
use crate::pool::{
    after_complete, assigned_ids, assigned_slot, at_rest, can_complete, count_assigned,
    id_positions, idle_slot, slot_at_rest, terminal_state, MinerId, MinerPool, SlotModel,
    SlotState, SubmissionOutcome,
};
use crate::round::{
    assign_all, assignment_models, law_round_serves_in_order, offer_all, Assignment,
    AssignmentModel,
};
use crate::scheduler::SchedulerEvent;
use crate::validator::{filter_valid, law_viable_keep_block_order, valid, viable};
use vstd::prelude::*;

verus! {

/// Something worth telling that is no failure.
#[derive(Clone, Copy, Debug, PartialEq, Eq, Structural)]
pub enum Notice {
    /// No candidate of the block passed validation.
    NoViableCommitments,
}

/// What a round did.
#[derive(Debug, PartialEq, Eq)]
pub struct RoundReport {
    /// Number of candidates the round was given.
    pub found: usize,
    /// Number of those that the validator rejected.
    pub rejected: usize,
    /// The assignments made, in the order of the candidates.
    pub assignments: Vec<Assignment>,
    /// The valid candidates for which no slot was idle, in their order.
    pub deferred: Vec<CommitmentCandidate>,
    /// Set when no candidate was valid.
    pub notice: Option<Notice>,
}

/// Model of a [`RoundReport`].
pub struct ReportModel {
    pub found: nat,
    pub rejected: nat,
    pub assignments: Seq<AssignmentModel>,
    pub deferred: Seq<CandidateModel>,
    pub notice: Option<Notice>,
}

impl View for RoundReport {
    type V = ReportModel;

    open spec fn view(&self) -> ReportModel {
        ReportModel {
            found: self.found as nat,
            rejected: self.rejected as nat,
            assignments: assignment_models(self.assignments@),
            deferred: candidate_models(self.deferred@),
            notice: self.notice,
        }
    }
}

/// The report of a round that was given `candidates`, with the pool as it was
/// before.
pub open spec fn round_report(
    pool: Seq<SlotModel>,
    candidates: Seq<CandidateModel>,
    threshold: nat,
) -> ReportModel {
    let kept = viable(candidates, threshold);
    ReportModel {
        found: candidates.len(),
        rejected: (candidates.len() - kept.len()) as nat,
        assignments: offer_all(pool, kept).assignments,
        deferred: offer_all(pool, kept).deferred,
        notice: if kept.len() == 0 {
            Some(Notice::NoViableCommitments)
        } else {
            None
        },
    }
}

/// The pool after a round that was given `candidates`.
pub open spec fn round_pool(
    pool: Seq<SlotModel>,
    candidates: Seq<CandidateModel>,
    threshold: nat,
) -> Seq<SlotModel> {
    offer_all(pool, viable(candidates, threshold)).pool
}

/// Whether a transaction would survive analysis and validation: it carries
/// the tag, its body is well formed, and it commits at least `threshold`.
pub open spec fn is_viable_transaction(tx: TransactionModel, threshold: nat) -> bool {
    &&& carries_commitment(tx.payload)
    &&& well_formed_body(commitment_body(tx.payload))
    &&& committed_value(tx) >= threshold
}

/// The outcome of a submission, from what the caller saw: no answer within
/// the time allowed counts as a failure.
pub open spec fn outcome_of(answer: Option<Result<(), SubmissionError>>) -> SubmissionOutcome {
    match answer {
        Some(Ok(_)) => SubmissionOutcome::Submitted,
        Some(Err(error)) => SubmissionOutcome::Failed(error),
        None => SubmissionOutcome::Failed(SubmissionError::TimedOut),
    }
}

/// Turns what the caller saw of a submission into its outcome. `None` stands
/// for a submission that did not answer in time.
pub fn classify_submission(answer: Option<Result<(), SubmissionError>>) -> (outcome:
    SubmissionOutcome)
    ensures
        outcome == outcome_of(answer),
        answer is None ==> terminal_state(outcome) == SlotState::Failed,
{
    match answer {
        Some(Ok(_)) => SubmissionOutcome::Submitted,
        Some(Err(error)) => SubmissionOutcome::Failed(error),
        None => SubmissionOutcome::Failed(SubmissionError::TimedOut),
    }
}

/// What the scheduler is told when a round has ended: the round succeeded
/// unless it failed as a whole. What became of single candidates does not
/// count.
pub fn round_event(result: &Result<RoundReport, MiningError>) -> (event: SchedulerEvent)
    ensures
        event == (SchedulerEvent::RoundFinished { succeeded: result is Ok }),
{
    match result {
        Ok(_) => SchedulerEvent::RoundFinished { succeeded: true },
        Err(_) => SchedulerEvent::RoundFinished { succeeded: false },
    }
}

/// The coordinator: its settings and the miner pool it owns.
#[derive(Debug)]
pub struct MiningCoordinator {
    mining_config: MiningConfiguration,
    pool: MinerPool,
}

/// Model of a [`MiningCoordinator`].
pub struct CoordinatorModel {
    pub config: ConfigModel,
    pub pool: Seq<SlotModel>,
}

impl View for MiningCoordinator {
    type V = CoordinatorModel;

    closed spec fn view(&self) -> CoordinatorModel {
        CoordinatorModel { config: self.mining_config@, pool: self.pool@ }
    }
}

impl MiningCoordinator {
    /// The pool is well formed and has as many slots as the settings say.
    pub closed spec fn wf(&self) -> bool {
        &&& self.pool.wf()
        &&& self.pool@.len() == self.mining_config@.max_concurrent_miners
    }

    /// A coordinator with these settings and a pool of idle slots.
    pub fn new(config: MiningConfiguration) -> (coordinator: MiningCoordinator)
        ensures
            coordinator.wf(),
            coordinator@.config == config@,
            coordinator@.pool == Seq::new(
                config@.max_concurrent_miners,
                |i: int| idle_slot(),
            ),
    {
        let pool = MinerPool::new(config.max_concurrent_miners());
        MiningCoordinator { mining_config: config, pool }
    }

    /// At no time are more miners at work than the settings allow: in every
    /// well-formed coordinator the pool has the configured number of slots,
    /// each at rest, and no more of them are assigned than that number.
    pub proof fn law_active_within_maximum(&self)
        requires
            self.wf(),
        ensures
            at_rest(self@.pool),
            self@.pool.len() == self@.config.max_concurrent_miners,
            count_assigned(self@.pool) <= self@.config.max_concurrent_miners,
    {
        crate::pool::lemma_count_bounded(self@.pool);
    }

    /// The settings.
    pub fn config(&self) -> (config: &MiningConfiguration)
        ensures
            config@ == self@.config,
    {
        &self.mining_config
    }

    /// The miner pool, to read.
    pub fn pool(&self) -> (pool: &MinerPool)
        ensures
            pool@ == self@.pool,
            self.wf() ==> pool.wf(),
    {
        &self.pool
    }

    /// The number of miners at work. It never exceeds the configured maximum.
    pub fn active_count(&self) -> (n: usize)
        requires
            self.wf(),
        ensures
            n == count_assigned(self@.pool),
            n <= self@.config.max_concurrent_miners,
    {
        self.pool.active_count()
    }

    /// The miners at work, by rising id.
    pub fn active_miners(&self) -> (ids: Vec<MinerId>)
        requires
            self.wf(),
        ensures
            id_positions(ids@) == assigned_ids(self@.pool),
            ids@.len() == count_assigned(self@.pool),
            ids@.len() <= self@.config.max_concurrent_miners,
    {
        proof {
            crate::pool::lemma_count_bounded(self@.pool);
        }
        self.pool.active_miners()
    }

    /// Extracts the commitment candidates of `block`, in block order.
    pub fn analyze_block_for_commitments(&self, block: &Block) -> (found: Vec<CommitmentCandidate>)
        ensures
            candidate_models(found@) == analysis(block@),
            exact_analysis(block@, candidate_models(found@)),
            found@.len() <= block.transactions@.len(),
    {
        analyze(block)
    }

    /// Tells whether `transaction` would survive analysis and validation
    /// under the configured threshold.
    pub fn is_valid_stacks_commitment(&self, transaction: &Transaction) -> (ok: bool)
        ensures
            ok == is_viable_transaction(transaction@, self@.config.commitment_threshold),
            ok == (carries_commitment(transaction@.payload) && valid(
                candidate_of(transaction@, 0, 0),
                self@.config.commitment_threshold,
            )),
    {
        match crate::analyzer::analyze_transaction(transaction, 0, 0) {
            Some(candidate) => crate::validator::is_valid(
                &candidate,
                self.mining_config.commitment_threshold(),
            ),
            None => false,
        }
    }

    /// Drops the candidates that the validator rejects and offers the others
    /// to the pool, in their order. A candidate that finds the pool full is
    /// deferred: it is reported and not kept.
    pub fn coordinate_miner_commitments(&mut self, commitments: Vec<CommitmentCandidate>) -> (report:
        RoundReport)
        requires
            old(self).wf(),
        ensures
            final(self).wf(),
            final(self)@.config == old(self)@.config,
            final(self)@.pool == round_pool(
                old(self)@.pool,
                candidate_models(commitments@),
                old(self)@.config.commitment_threshold,
            ),
            report@ == round_report(
                old(self)@.pool,
                candidate_models(commitments@),
                old(self)@.config.commitment_threshold,
            ),
    {
        let threshold = self.mining_config.commitment_threshold();
        let kept = filter_valid(commitments.as_slice(), threshold);
        let (assignments, deferred) = assign_all(&mut self.pool, kept.as_slice());
        let notice = if kept.len() == 0 {
            Some(Notice::NoViableCommitments)
        } else {
            None
        };
        RoundReport {
            found: commitments.len(),
            rejected: commitments.len() - kept.len(),
            assignments,
            deferred,
            notice,
        }
    }

    /// Runs one round on what the fetch gave. Where no block came, the round
    /// fails with the matching error and nothing changes. Where one came, the
    /// round cannot fail: its candidates are validated and offered to the
    /// pool, and the report says what became of them.
    pub fn execute_mining_round(&mut self, fetched: Result<Block, FetchError>) -> (result: Result<
        RoundReport,
        MiningError,
    >)
        requires
            old(self).wf(),
        ensures
            final(self).wf(),
            final(self)@.config == old(self)@.config,
            match fetched {
                Ok(block) => {
                    &&& result matches Ok(report)
                    &&& report@ == round_report(
                        old(self)@.pool,
                        analysis(block@),
                        old(self)@.config.commitment_threshold,
                    )
                    &&& final(self)@.pool == round_pool(
                        old(self)@.pool,
                        analysis(block@),
                        old(self)@.config.commitment_threshold,
                    )
                },
                Err(error) => {
                    &&& result == Err::<RoundReport, MiningError>(fetch_failure(error))
                    &&& final(self)@ == old(self)@
                },
            },
            result matches Err(failure) ==> recovery_of(failure) == Recovery::AbortCycle,
    {
        match fetched {
            Ok(block) => {
                let found = self.analyze_block_for_commitments(&block);
                Ok(self.coordinate_miner_commitments(found))
            },
            Err(error) => Err(MiningError::from(error)),
        }
    }

    /// Records how the submission of slot `miner` ended and frees the slot.
    /// Returns the state the slot passed through, or nothing where the slot
    /// does not exist or was not assigned; then nothing changes.
    pub fn complete_submission(&mut self, miner: MinerId, outcome: SubmissionOutcome) -> (passed:
        Option<SlotState>)
        requires
            old(self).wf(),
        ensures
            final(self).wf(),
            final(self)@.config == old(self)@.config,
            final(self)@.pool == after_complete(old(self)@.pool, miner.0 as int),
            match passed {
                Some(state) => can_complete(old(self)@.pool, miner.0 as int) && state
                    == terminal_state(outcome),
                None => !can_complete(old(self)@.pool, miner.0 as int),
            },
    {
        self.pool.complete(miner, outcome)
    }
}

/// No transaction is bound to two slots. In a round on `block` that starts
/// with every slot idle, the candidates in any two slots stem from different
/// transactions.
pub proof fn law_no_transaction_in_two_slots(
    pool: Seq<SlotModel>,
    block: BlockModel,
    threshold: nat,
    i: int,
    j: int,
)
    requires
        forall|k: int| 0 <= k < pool.len() ==> #[trigger] pool[k] == idle_slot(),
        0 <= i < pool.len(),
        0 <= j < pool.len(),
        i != j,
        round_pool(pool, analysis(block), threshold)[i].candidate is Some,
        round_pool(pool, analysis(block), threshold)[j].candidate is Some,
    ensures
        round_pool(pool, analysis(block), threshold)[i].candidate.unwrap().tx_index != round_pool(
            pool,
            analysis(block),
            threshold,
        )[j].candidate.unwrap().tx_index,
{
    let found = analysis(block);
    let kept = viable(found, threshold);
    let offered = offer_all(pool, kept);
    law_analysis_is_exact(block);
    law_viable_keep_block_order(found, threshold);
    assert(at_rest(pool)) by {
        assert forall|k: int| 0 <= k < pool.len() implies slot_at_rest(#[trigger] pool[k]) by {
            assert(pool[k] == idle_slot());
        }
    }
    law_round_serves_in_order(pool, kept);
    let n = offered.assignments.len() as int;
    assert(pool[i] == idle_slot() && pool[j] == idle_slot());
    let a = choose|a: int| 0 <= a < n && (#[trigger] offered.assignments[a]).miner == i;
    let b = choose|b: int| 0 <= b < n && (#[trigger] offered.assignments[b]).miner == j;
    assert(offered.pool[offered.assignments[a].miner] == assigned_slot(kept[a]));
    assert(offered.pool[offered.assignments[b].miner] == assigned_slot(kept[b]));
    if a < b {
        assert(kept[a].tx_index < kept[b].tx_index);
    } else {
        assert(kept[b].tx_index < kept[a].tx_index);
    }
}

} // verus!
