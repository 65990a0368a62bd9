use mining_coordinator::analyzer::CommitmentCandidate;
use mining_coordinator::error::{PoolFull, SubmissionError};
use mining_coordinator::pool::{
    MinerId, MinerPool, MinerSlot, SlotState, SubmissionOutcome,
};

fn work(tx_index: usize) -> CommitmentCandidate {
    CommitmentCandidate {
        block_height: 10,
        tx_index,
        payload: vec![0u8; 38],
        value: 500,
        structurally_valid: true,
    }
}

#[test]
fn new_pool_is_idle() {
    let pool = MinerPool::new(3);
    assert_eq!(pool.capacity(), 3);
    assert_eq!(pool.active_count(), 0);
    assert_eq!(pool.first_idle(), Some(MinerId(0)));
    for i in 0..3 {
        assert_eq!(pool.state_of(MinerId(i)), Some(SlotState::Idle));
        assert_eq!(pool.candidate_of(MinerId(i)), None);
    }
    assert_eq!(pool.state_of(MinerId(3)), None);
}

#[test]
fn assign_takes_the_lowest_idle_slot() {
    let mut pool = MinerPool::new(3);
    assert_eq!(pool.assign(work(0)), Ok(MinerId(0)));
    assert_eq!(pool.assign(work(1)), Ok(MinerId(1)));
    assert_eq!(pool.state_of(MinerId(0)), Some(SlotState::Assigned));
    assert_eq!(pool.state_of(MinerId(2)), Some(SlotState::Idle));
    assert_eq!(pool.candidate_of(MinerId(1)), Some(&work(1)));
    assert_eq!(pool.active_count(), 2);
    assert_eq!(pool.first_idle(), Some(MinerId(2)));
}

#[test]
fn assign_fills_a_gap_first() {
    let mut pool = MinerPool::new(3);
    pool.assign(work(0)).unwrap();
    pool.assign(work(1)).unwrap();
    pool.assign(work(2)).unwrap();
    assert_eq!(pool.complete(MinerId(1), SubmissionOutcome::Submitted), Some(SlotState::Completed));
    assert_eq!(pool.assign(work(3)), Ok(MinerId(1)));
    assert_eq!(pool.candidate_of(MinerId(1)), Some(&work(3)));
}

#[test]
fn assign_fails_when_every_slot_is_taken() {
    let mut pool = MinerPool::new(2);
    pool.assign(work(0)).unwrap();
    pool.assign(work(1)).unwrap();
    assert_eq!(pool.first_idle(), None);
    assert_eq!(pool.assign(work(2)), Err(PoolFull));
    assert_eq!(pool.active_count(), 2);
    assert_eq!(pool.candidate_of(MinerId(0)), Some(&work(0)));
    assert_eq!(pool.candidate_of(MinerId(1)), Some(&work(1)));
}

#[test]
fn pool_without_slots_is_always_full() {
    let mut pool = MinerPool::new(0);
    assert_eq!(pool.capacity(), 0);
    assert_eq!(pool.assign(work(0)), Err(PoolFull));
    assert_eq!(pool.active_count(), 0);
}

#[test]
fn complete_frees_the_slot_after_success() {
    let mut pool = MinerPool::new(1);
    let miner = pool.assign(work(0)).unwrap();
    assert_eq!(pool.complete(miner, SubmissionOutcome::Submitted), Some(SlotState::Completed));
    assert_eq!(pool.state_of(miner), Some(SlotState::Idle));
    assert_eq!(pool.candidate_of(miner), None);
    assert_eq!(pool.active_count(), 0);
}

#[test]
fn complete_frees_the_slot_after_failure() {
    for error in [
        SubmissionError::NodeRejected,
        SubmissionError::InsufficientFunds,
        SubmissionError::MalformedCommitment,
        SubmissionError::TimedOut,
    ] {
        let mut pool = MinerPool::new(1);
        let miner = pool.assign(work(0)).unwrap();
        assert_eq!(
            pool.complete(miner, SubmissionOutcome::Failed(error)),
            Some(SlotState::Failed)
        );
        assert_eq!(pool.state_of(miner), Some(SlotState::Idle));
        assert_eq!(pool.assign(work(1)), Ok(miner));
    }
}

#[test]
fn complete_on_an_idle_or_missing_slot_changes_nothing() {
    let mut pool = MinerPool::new(2);
    pool.assign(work(0)).unwrap();
    assert_eq!(pool.complete(MinerId(1), SubmissionOutcome::Submitted), None);
    assert_eq!(pool.complete(MinerId(2), SubmissionOutcome::Submitted), None);
    assert_eq!(pool.complete(MinerId(usize::MAX), SubmissionOutcome::Submitted), None);
    assert_eq!(pool.active_count(), 1);
    assert_eq!(pool.state_of(MinerId(0)), Some(SlotState::Assigned));
    assert_eq!(pool.state_of(MinerId(1)), Some(SlotState::Idle));
}

#[test]
fn complete_twice_takes_effect_once() {
    let mut pool = MinerPool::new(1);
    let miner = pool.assign(work(0)).unwrap();
    assert_eq!(pool.complete(miner, SubmissionOutcome::Submitted), Some(SlotState::Completed));
    assert_eq!(pool.complete(miner, SubmissionOutcome::Submitted), None);
}

#[test]
fn terminal_state_follows_the_outcome() {
    assert_eq!(SubmissionOutcome::Submitted.terminal_state(), SlotState::Completed);
    assert_eq!(
        SubmissionOutcome::Failed(SubmissionError::TimedOut).terminal_state(),
        SlotState::Failed
    );
}

#[test]
fn active_count_stays_within_capacity() {
    let mut pool = MinerPool::new(3);
    let mut next = 0usize;
    for step in 0..200usize {
        if step % 3 == 2 {
            pool.complete(MinerId(step % 4), SubmissionOutcome::Submitted);
        } else {
            let _ = pool.assign(work(next));
            next += 1;
        }
        assert!(pool.active_count() <= 3);
        assert_eq!(pool.capacity(), 3);
    }
}

#[test]
fn slot_carries_its_own_id() {
    let mut pool = MinerPool::new(2);
    pool.assign(work(7)).unwrap();
    let taken = pool.slot(MinerId(0)).unwrap();
    assert_eq!(taken.id, MinerId(0));
    assert_eq!(taken.state, SlotState::Assigned);
    assert_eq!(taken.candidate, Some(work(7)));
    let free = pool.slot(MinerId(1)).unwrap();
    assert_eq!(free.id, MinerId(1));
    assert_eq!(free.state, SlotState::Idle);
    assert_eq!(free.candidate, None);
    assert!(pool.slot(MinerId(2)).is_none());
}

#[test]
fn active_miners_are_listed_by_rising_id() {
    let mut pool = MinerPool::new(4);
    assert_eq!(pool.active_miners(), vec![]);
    for i in 0..4 {
        pool.assign(work(i)).unwrap();
    }
    pool.complete(MinerId(0), SubmissionOutcome::Submitted);
    pool.complete(MinerId(2), SubmissionOutcome::Failed(SubmissionError::NodeRejected));
    assert_eq!(pool.active_miners(), vec![MinerId(1), MinerId(3)]);
    assert_eq!(pool.active_count(), 2);
}

#[test]
fn slot_goes_through_its_life() {
    let mut slot = MinerSlot::idle(MinerId(5));
    assert_eq!(slot.id, MinerId(5));
    assert_eq!(slot.state, SlotState::Idle);
    assert!(slot.bind(work(1)));
    assert_eq!(slot.state, SlotState::Assigned);
    assert_eq!(slot.candidate, Some(work(1)));
    assert!(slot.settle(SubmissionOutcome::Failed(SubmissionError::TimedOut)));
    assert_eq!(slot.state, SlotState::Failed);
    assert_eq!(slot.candidate, Some(work(1)));
    assert!(slot.release());
    assert_eq!(slot.state, SlotState::Idle);
    assert_eq!(slot.candidate, None);
    assert_eq!(slot.id, MinerId(5));
    assert!(slot.bind(work(2)));
    assert!(slot.settle(SubmissionOutcome::Submitted));
    assert_eq!(slot.state, SlotState::Completed);
    assert!(slot.release());
    assert_eq!(slot.state, SlotState::Idle);
}

#[test]
fn slot_refuses_steps_out_of_turn() {
    let mut slot = MinerSlot::idle(MinerId(0));
    assert!(!slot.settle(SubmissionOutcome::Submitted));
    assert!(!slot.release());
    assert_eq!(slot.state, SlotState::Idle);
    assert!(slot.bind(work(1)));
    assert!(!slot.bind(work(2)));
    assert_eq!(slot.candidate, Some(work(1)));
    assert!(!slot.release());
    assert_eq!(slot.state, SlotState::Assigned);
    assert!(slot.settle(SubmissionOutcome::Submitted));
    assert!(!slot.settle(SubmissionOutcome::Failed(SubmissionError::NodeRejected)));
    assert!(!slot.bind(work(3)));
    assert_eq!(slot.state, SlotState::Completed);
    assert_eq!(slot.candidate, Some(work(1)));
}
