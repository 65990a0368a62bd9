use mining_coordinator::analyzer::CommitmentCandidate;
use mining_coordinator::validator::{filter_valid, is_valid};

fn candidate(tx_index: usize, body_len: usize, value: u64, flag: bool) -> CommitmentCandidate {
    CommitmentCandidate {
        block_height: 1,
        tx_index,
        payload: vec![0u8; body_len],
        value,
        structurally_valid: flag,
    }
}

#[test]
fn valid_at_and_above_the_threshold() {
    assert!(is_valid(&candidate(0, 38, 1_000, true), 1_000));
    assert!(is_valid(&candidate(0, 38, 1_001, true), 1_000));
    assert!(is_valid(&candidate(0, 38, u64::MAX, true), u64::MAX));
    assert!(is_valid(&candidate(0, 38, 0, true), 0));
}

#[test]
fn invalid_below_the_threshold() {
    assert!(!is_valid(&candidate(0, 38, 999, true), 1_000));
    assert!(!is_valid(&candidate(0, 38, 0, true), 1));
    assert!(!is_valid(&candidate(0, 38, u64::MAX - 1, true), u64::MAX));
}

#[test]
fn malformed_payload_is_never_valid() {
    assert!(!is_valid(&candidate(0, 37, u64::MAX, true), 0));
    assert!(!is_valid(&candidate(0, 39, u64::MAX, true), 0));
    assert!(!is_valid(&candidate(0, 0, u64::MAX, true), 0));
    assert!(!is_valid(&candidate(0, 37, u64::MAX, false), 0));
}

#[test]
fn flagged_invalid_is_never_valid() {
    assert!(!is_valid(&candidate(0, 38, u64::MAX, false), 0));
}

#[test]
fn filter_keeps_the_valid_ones_in_order() {
    let given = vec![
        candidate(0, 38, 50, true),
        candidate(1, 38, 150, true),
        candidate(2, 10, 900, true),
        candidate(3, 38, 100, true),
        candidate(4, 38, 700, false),
        candidate(5, 38, 101, true),
    ];
    let kept = filter_valid(&given, 100);
    let indices: Vec<usize> = kept.iter().map(|c| c.tx_index).collect();
    assert_eq!(indices, vec![1, 3, 5]);
    assert_eq!(kept[0], given[1]);
}

#[test]
fn filter_of_nothing_is_nothing() {
    assert_eq!(filter_valid(&[], 0), vec![]);
    assert_eq!(filter_valid(&[candidate(0, 38, 1, true)], 2), vec![]);
}
