//! What can go wrong, by kind, and how far each failure reaches.

use vstd::prelude::*;

verus! {

/// Why the secondary chain did not take a commitment.
#[derive(Clone, Copy, Debug, PartialEq, Eq, Structural)]
pub enum SubmissionError {
    /// The node refused the transaction.
    NodeRejected,
    /// The wallet cannot pay for it.
    InsufficientFunds,
    /// The commitment was not accepted as one.
    MalformedCommitment,
    /// No answer came within the time allowed.
    TimedOut,
}

/// Why no block came.
#[derive(Clone, Copy, Debug, PartialEq, Eq, Structural)]
pub enum FetchError {
    /// The endpoint of the base chain could not be reached.
    Network,
    /// The endpoint answered with something that cannot be read.
    Rpc,
}

/// Said by the miner pool when a candidate finds every slot taken.
#[derive(Clone, Copy, Debug, PartialEq, Eq, Structural)]
pub struct PoolFull;

/// The failures the coordinator tells apart.
#[derive(Clone, Copy, Debug, PartialEq, Eq, Structural)]
pub enum MiningError {
    /// An endpoint could not be reached.
    Network,
    /// An endpoint answered with something that cannot be read.
    Rpc,
    /// No idle miner slot was left for a candidate.
    PoolFull,
    /// One submission failed.
    Submission(SubmissionError),
}

/// What a failure costs.
#[derive(Clone, Copy, Debug, PartialEq, Eq, Structural)]
pub enum Recovery {
    /// The round is given up; the next round is the retry.
    AbortCycle,
    /// One candidate is passed over; the round goes on.
    SkipCandidate,
    /// One slot is marked failed and freed; the round goes on.
    FreeSlot,
}

/// How far each kind of failure reaches: only trouble with an endpoint ends a
/// round, everything else stays with the one candidate or slot it concerns.
pub open spec fn recovery_of(error: MiningError) -> Recovery {
    match error {
        MiningError::Network | MiningError::Rpc => Recovery::AbortCycle,
        MiningError::PoolFull => Recovery::SkipCandidate,
        MiningError::Submission(_) => Recovery::FreeSlot,
    }
}

/// The failure that a round reports when no block came.
pub open spec fn fetch_failure(error: FetchError) -> MiningError {
    match error {
        FetchError::Network => MiningError::Network,
        FetchError::Rpc => MiningError::Rpc,
    }
}

impl From<FetchError> for MiningError {
    fn from(error: FetchError) -> (failure: MiningError) {
        match error {
            FetchError::Network => MiningError::Network,
            FetchError::Rpc => MiningError::Rpc,
        }
    }
}

impl vstd::std_specs::convert::FromSpecImpl<FetchError> for MiningError {
    open spec fn obeys_from_spec() -> bool {
        true
    }

    open spec fn from_spec(error: FetchError) -> MiningError {
        fetch_failure(error)
    }
}

impl From<PoolFull> for MiningError {
    fn from(_full: PoolFull) -> (failure: MiningError) {
        MiningError::PoolFull
    }
}

impl vstd::std_specs::convert::FromSpecImpl<PoolFull> for MiningError {
    open spec fn obeys_from_spec() -> bool {
        true
    }

    open spec fn from_spec(_full: PoolFull) -> MiningError {
        MiningError::PoolFull
    }
}

impl From<SubmissionError> for MiningError {
    fn from(error: SubmissionError) -> (failure: MiningError) {
        MiningError::Submission(error)
    }
}

impl vstd::std_specs::convert::FromSpecImpl<SubmissionError> for MiningError {
    open spec fn obeys_from_spec() -> bool {
        true
    }

    open spec fn from_spec(error: SubmissionError) -> MiningError {
        MiningError::Submission(error)
    }
}

impl MiningError {
    /// The recovery that this failure calls for.
    pub fn recovery(&self) -> (recovery: Recovery)
        ensures
            recovery == recovery_of(*self),
    {
        match self {
            MiningError::Network => Recovery::AbortCycle,
            MiningError::Rpc => Recovery::AbortCycle,
            MiningError::PoolFull => Recovery::SkipCandidate,
            MiningError::Submission(_) => Recovery::FreeSlot,
        }
    }

    /// Whether this failure ends the round it occurs in.
    pub fn aborts_cycle(&self) -> (aborts: bool)
        ensures
            aborts == (recovery_of(*self) == Recovery::AbortCycle),
            aborts == (*self == MiningError::Network || *self == MiningError::Rpc),
    {
        match self {
            MiningError::Network => true,
            MiningError::Rpc => true,
            _ => false,
        }
    }
}

} // verus!
