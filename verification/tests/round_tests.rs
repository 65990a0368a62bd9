use mining_coordinator::analyzer::CommitmentCandidate;
use mining_coordinator::chain::{Block, Transaction, TxOutput};
use mining_coordinator::config::MiningConfiguration;
use mining_coordinator::coordinator::{
    classify_submission, round_event, MiningCoordinator, Notice,
};
use mining_coordinator::error::{FetchError, MiningError, SubmissionError};
use mining_coordinator::pool::{MinerId, MinerPool, SlotState, SubmissionOutcome};
use mining_coordinator::round::{assign_all, Assignment};
use mining_coordinator::scheduler::SchedulerEvent;

fn commitment(value: u64) -> Transaction {
    let mut payload = vec![0x4d, 0x4d, 0x43];
    payload.extend_from_slice(&[7u8; 38]);
    Transaction { payload, outputs: vec![TxOutput { value, script: vec![] }] }
}

fn malformed_commitment(value: u64) -> Transaction {
    let mut payload = vec![0x4d, 0x4d, 0x43];
    payload.extend_from_slice(&[7u8; 12]);
    Transaction { payload, outputs: vec![TxOutput { value, script: vec![] }] }
}

fn plain(value: u64) -> Transaction {
    Transaction { payload: vec![0x01, 0x02], outputs: vec![TxOutput { value, script: vec![] }] }
}

fn block(transactions: Vec<Transaction>) -> Block {
    Block { hash: vec![1u8; 32], height: 900, transactions }
}

fn coordinator(max_concurrent_miners: usize, threshold: u64) -> MiningCoordinator {
    let config = MiningConfiguration::new(
        String::from("http://base.example:8332"),
        String::from("http://secondary.example:20443"),
        String::from("wallet-1"),
        max_concurrent_miners,
        threshold,
        300,
    )
    .unwrap();
    MiningCoordinator::new(config)
}

fn offer(tx_index: usize, value: u64) -> CommitmentCandidate {
    CommitmentCandidate {
        block_height: 900,
        tx_index,
        payload: vec![7u8; 38],
        value,
        structurally_valid: true,
    }
}

#[test]
fn new_coordinator_has_an_idle_pool() {
    let c = coordinator(4, 1_000);
    assert_eq!(c.pool().capacity(), 4);
    assert_eq!(c.active_count(), 0);
    assert_eq!(c.config().commitment_threshold(), 1_000);
    assert_eq!(c.config().max_concurrent_miners(), 4);
}

#[test]
fn one_match_among_three_takes_one_slot() {
    let mut c = coordinator(2, 1_000);
    let report = c
        .execute_mining_round(Ok(block(vec![plain(5_000), commitment(1_000), plain(1)])))
        .unwrap();
    assert_eq!(report.found, 1);
    assert_eq!(report.rejected, 0);
    assert_eq!(report.assignments.len(), 1);
    assert_eq!(report.assignments[0], Assignment { miner: MinerId(0), candidate: offer(1, 1_000) });
    assert_eq!(report.deferred, vec![]);
    assert_eq!(report.notice, None);
    assert_eq!(c.active_count(), 1);
    assert_eq!(c.pool().state_of(MinerId(0)), Some(SlotState::Assigned));
    assert_eq!(c.pool().state_of(MinerId(1)), Some(SlotState::Idle));
}

#[test]
fn block_without_commitments_gives_the_notice() {
    let mut c = coordinator(2, 1_000);
    let report = c.execute_mining_round(Ok(block(vec![plain(1), plain(2)]))).unwrap();
    assert_eq!(report.found, 0);
    assert_eq!(report.rejected, 0);
    assert_eq!(report.assignments, vec![]);
    assert_eq!(report.deferred, vec![]);
    assert_eq!(report.notice, Some(Notice::NoViableCommitments));
    assert_eq!(c.active_count(), 0);
}

#[test]
fn second_candidate_finds_the_pool_full() {
    let mut c = coordinator(1, 1_000);
    let report = c
        .execute_mining_round(Ok(block(vec![
            commitment(2_000),
            commitment(3_000),
            commitment(10),
            commitment(4_000),
        ])))
        .unwrap();
    assert_eq!(report.found, 4);
    assert_eq!(report.rejected, 1);
    assert_eq!(
        report.assignments,
        vec![Assignment { miner: MinerId(0), candidate: offer(0, 2_000) }]
    );
    assert_eq!(report.deferred, vec![offer(1, 3_000), offer(3, 4_000)]);
    assert_eq!(report.notice, None);
    assert_eq!(c.active_count(), 1);
    assert_eq!(c.pool().candidate_of(MinerId(0)), Some(&offer(0, 2_000)));
}

#[test]
fn timed_out_submission_frees_the_slot() {
    let mut c = coordinator(1, 1_000);
    let report = c.execute_mining_round(Ok(block(vec![commitment(2_000)]))).unwrap();
    let miner = report.assignments[0].miner;
    assert_eq!(c.pool().state_of(miner), Some(SlotState::Assigned));
    let outcome = classify_submission(None);
    assert_eq!(outcome, SubmissionOutcome::Failed(SubmissionError::TimedOut));
    assert_eq!(c.complete_submission(miner, outcome), Some(SlotState::Failed));
    assert_eq!(c.pool().state_of(miner), Some(SlotState::Idle));
    assert_eq!(c.active_count(), 0);
    let next = c.execute_mining_round(Ok(block(vec![plain(1), commitment(5_000)]))).unwrap();
    assert_eq!(
        next.assignments,
        vec![Assignment { miner, candidate: offer(1, 5_000) }]
    );
}

#[test]
fn failed_fetch_fails_the_round_and_changes_nothing() {
    let mut c = coordinator(2, 1_000);
    c.execute_mining_round(Ok(block(vec![commitment(2_000)]))).unwrap();
    assert_eq!(c.execute_mining_round(Err(FetchError::Network)), Err(MiningError::Network));
    assert_eq!(c.execute_mining_round(Err(FetchError::Rpc)), Err(MiningError::Rpc));
    assert_eq!(c.active_count(), 1);
    assert_eq!(c.pool().candidate_of(MinerId(0)), Some(&offer(0, 2_000)));
    assert_eq!(c.pool().state_of(MinerId(1)), Some(SlotState::Idle));
}

#[test]
fn rejected_candidates_never_reach_the_pool() {
    let mut c = coordinator(8, 1_000);
    let report = c
        .execute_mining_round(Ok(block(vec![
            commitment(999),
            malformed_commitment(u64::MAX),
            commitment(1_000),
            plain(u64::MAX),
            commitment(0),
            commitment(1_001),
        ])))
        .unwrap();
    assert_eq!(report.found, 5);
    assert_eq!(report.rejected, 3);
    let assigned: Vec<usize> = report.assignments.iter().map(|a| a.candidate.tx_index).collect();
    assert_eq!(assigned, vec![2, 5]);
    assert_eq!(c.active_count(), 2);
    for i in 0..8 {
        if let Some(bound) = c.pool().candidate_of(MinerId(i)) {
            assert!(bound.structurally_valid && bound.value >= 1_000);
        }
    }
}

#[test]
fn all_rejected_gives_the_notice() {
    let mut c = coordinator(2, 1_000);
    let report = c
        .execute_mining_round(Ok(block(vec![commitment(1), malformed_commitment(5_000)])))
        .unwrap();
    assert_eq!(report.found, 2);
    assert_eq!(report.rejected, 2);
    assert_eq!(report.notice, Some(Notice::NoViableCommitments));
    assert_eq!(c.active_count(), 0);
}

#[test]
fn coordinate_validates_what_it_is_given() {
    let mut c = coordinator(2, 100);
    let mut bad = offer(1, 5_000);
    bad.structurally_valid = false;
    let report = c.coordinate_miner_commitments(vec![offer(0, 99), bad, offer(2, 100)]);
    assert_eq!(report.found, 3);
    assert_eq!(report.rejected, 2);
    assert_eq!(
        report.assignments,
        vec![Assignment { miner: MinerId(0), candidate: offer(2, 100) }]
    );
}

#[test]
fn one_failed_submission_leaves_the_others_alone() {
    let mut c = coordinator(3, 1);
    let report = c
        .execute_mining_round(Ok(block(vec![commitment(10), commitment(20), commitment(30)])))
        .unwrap();
    assert_eq!(report.assignments.len(), 3);
    let failed = classify_submission(Some(Err(SubmissionError::NodeRejected)));
    assert_eq!(c.complete_submission(MinerId(1), failed), Some(SlotState::Failed));
    assert_eq!(c.pool().state_of(MinerId(0)), Some(SlotState::Assigned));
    assert_eq!(c.pool().state_of(MinerId(2)), Some(SlotState::Assigned));
    let done = classify_submission(Some(Ok(())));
    assert_eq!(c.complete_submission(MinerId(0), done), Some(SlotState::Completed));
    assert_eq!(c.complete_submission(MinerId(2), done), Some(SlotState::Completed));
    assert_eq!(c.active_count(), 0);
    assert_eq!(c.complete_submission(MinerId(2), done), None);
    assert_eq!(c.complete_submission(MinerId(3), done), None);
}

#[test]
fn classify_tells_the_outcomes_apart() {
    assert_eq!(classify_submission(Some(Ok(()))), SubmissionOutcome::Submitted);
    assert_eq!(
        classify_submission(Some(Err(SubmissionError::InsufficientFunds))),
        SubmissionOutcome::Failed(SubmissionError::InsufficientFunds)
    );
    assert_eq!(
        classify_submission(Some(Err(SubmissionError::MalformedCommitment))),
        SubmissionOutcome::Failed(SubmissionError::MalformedCommitment)
    );
    assert_eq!(classify_submission(None), SubmissionOutcome::Failed(SubmissionError::TimedOut));
}

#[test]
fn is_valid_stacks_commitment_needs_tag_shape_and_value() {
    let c = coordinator(1, 1_000);
    assert!(c.is_valid_stacks_commitment(&commitment(1_000)));
    assert!(c.is_valid_stacks_commitment(&commitment(u64::MAX)));
    assert!(!c.is_valid_stacks_commitment(&commitment(999)));
    assert!(!c.is_valid_stacks_commitment(&malformed_commitment(5_000)));
    assert!(!c.is_valid_stacks_commitment(&plain(5_000)));
}

#[test]
fn analyze_block_for_commitments_finds_the_tagged_ones() {
    let c = coordinator(1, 1_000);
    let found = c.analyze_block_for_commitments(&block(vec![
        plain(1),
        commitment(3),
        malformed_commitment(4),
    ]));
    let indices: Vec<usize> = found.iter().map(|f| f.tx_index).collect();
    assert_eq!(indices, vec![1, 2]);
}

#[test]
fn assign_all_serves_in_order_and_defers_the_rest() {
    let mut pool = MinerPool::new(3);
    pool.assign(offer(50, 1)).unwrap();
    pool.assign(offer(51, 1)).unwrap();
    pool.complete(MinerId(0), SubmissionOutcome::Submitted);
    let (assignments, deferred) =
        assign_all(&mut pool, &[offer(0, 1), offer(1, 1), offer(2, 1), offer(3, 1)]);
    assert_eq!(
        assignments,
        vec![
            Assignment { miner: MinerId(0), candidate: offer(0, 1) },
            Assignment { miner: MinerId(2), candidate: offer(1, 1) },
        ]
    );
    assert_eq!(deferred, vec![offer(2, 1), offer(3, 1)]);
    assert_eq!(pool.candidate_of(MinerId(1)), Some(&offer(51, 1)));
    assert_eq!(pool.active_count(), 3);
}

#[test]
fn active_miners_lists_the_assigned_slots() {
    let mut c = coordinator(3, 1);
    assert_eq!(c.active_miners(), vec![]);
    c.execute_mining_round(Ok(block(vec![commitment(1), commitment(2), commitment(3)]))).unwrap();
    assert_eq!(c.active_miners(), vec![MinerId(0), MinerId(1), MinerId(2)]);
    c.complete_submission(MinerId(1), SubmissionOutcome::Submitted);
    assert_eq!(c.active_miners(), vec![MinerId(0), MinerId(2)]);
    assert_eq!(c.active_count(), 2);
}

#[test]
fn round_event_follows_the_round_as_a_whole() {
    let mut c = coordinator(1, 1_000);
    let empty = c.execute_mining_round(Ok(block(vec![])));
    assert_eq!(round_event(&empty), SchedulerEvent::RoundFinished { succeeded: true });
    let full = c.execute_mining_round(Ok(block(vec![commitment(2_000), commitment(2_000)])));
    assert_eq!(round_event(&full), SchedulerEvent::RoundFinished { succeeded: true });
    let failed = c.execute_mining_round(Err(FetchError::Network));
    assert_eq!(round_event(&failed), SchedulerEvent::RoundFinished { succeeded: false });
}
