//! The analyzer: from a block to the commitment candidates it holds.
//!
//! Analysis reads the block and nothing else. A transaction gives one
//! candidate if its payload carries the commitment tag and none otherwise;
//! candidates come out in the order of the block's transactions.

use crate::chain::{committed_value, Block, BlockModel, Transaction, TransactionModel};
use crate::encoding::{
    bytes_from, carries_commitment, commitment_body, decode_fields, decoded_fields, extract_body,
    well_formed_body, CommitmentFields, BODY_LEN,
};
use vstd::prelude::*;

verus! {

/// A transaction that announces a commitment, as far as the coordinator needs
/// it. `block_height` and `tx_index` say where it was found.
#[derive(Debug, PartialEq, Eq)]
pub struct CommitmentCandidate {
    /// Height of the block that holds the source transaction.
    pub block_height: u64,
    /// Position of the source transaction in that block.
    pub tx_index: usize,
    /// The commitment body: the payload without its tag.
    pub payload: Vec<u8>,
    /// Committed value in minor units of the base chain.
    pub value: u64,
    /// Whether the body was found well formed when the candidate was made.
    pub structurally_valid: bool,
}

/// Model of a [`CommitmentCandidate`].
pub struct CandidateModel {
    pub block_height: nat,
    pub tx_index: nat,
    pub payload: Seq<u8>,
    pub value: nat,
    pub structurally_valid: bool,
}

impl View for CommitmentCandidate {
    type V = CandidateModel;

    open spec fn view(&self) -> CandidateModel {
        CandidateModel {
            block_height: self.block_height as nat,
            tx_index: self.tx_index as nat,
            payload: self.payload@,
            value: self.value as nat,
            structurally_valid: self.structurally_valid,
        }
    }
}

/// The models of a sequence of candidates, in order.
pub open spec fn candidate_models(candidates: Seq<CommitmentCandidate>) -> Seq<CandidateModel> {
    candidates.map_values(|c: CommitmentCandidate| c@)
}

/// The candidate that `tx` gives when it stands at `tx_index` in a block of
/// height `block_height`. Meaningful where `tx` carries the tag.
pub open spec fn candidate_of(tx: TransactionModel, block_height: nat, tx_index: nat)
    -> CandidateModel {
    CandidateModel {
        block_height,
        tx_index,
        payload: commitment_body(tx.payload),
        value: committed_value(tx),
        structurally_valid: well_formed_body(commitment_body(tx.payload)),
    }
}

/// The candidate from the transaction at position `i` of `block`.
pub open spec fn candidate_at(block: BlockModel, i: int) -> CandidateModel {
    candidate_of(block.transactions[i], block.height, i as nat)
}

/// The candidates among the first `n` transactions of `block`.
pub open spec fn candidates_among(block: BlockModel, n: int) -> Seq<CandidateModel>
    decreases n,
{
    if n <= 0 {
        Seq::empty()
    } else if carries_commitment(block.transactions[n - 1].payload) {
        candidates_among(block, n - 1).push(candidate_at(block, n - 1))
    } else {
        candidates_among(block, n - 1)
    }
}

/// The candidates of the whole block.
pub open spec fn analysis(block: BlockModel) -> Seq<CandidateModel> {
    candidates_among(block, block.transactions.len() as int)
}

/// `found` holds, of the first `n` transactions of `block`, exactly those that
/// carry the tag: each is what its transaction gives, positions rise strictly
/// (so the block's order is kept and no transaction occurs twice), and no
/// tagged transaction is left out.
pub open spec fn exact_among(block: BlockModel, n: int, found: Seq<CandidateModel>) -> bool {
    &&& forall|k: int|
        0 <= k < found.len() ==> {
            &&& (#[trigger] found[k]).tx_index < n
            &&& carries_commitment(block.transactions[found[k].tx_index as int].payload)
            &&& found[k] == candidate_at(block, found[k].tx_index as int)
        }
    &&& forall|j: int, k: int|
        0 <= j < k < found.len() ==> (#[trigger] found[j]).tx_index < (#[trigger] found[k]).tx_index
    &&& forall|i: int|
        0 <= i < n && carries_commitment((#[trigger] block.transactions[i]).payload)
            ==> found.contains(candidate_at(block, i))
}

/// [`exact_among`] over the whole block.
pub open spec fn exact_analysis(block: BlockModel, found: Seq<CandidateModel>) -> bool {
    exact_among(block, block.transactions.len() as int, found)
}

proof fn lemma_candidates_among_exact(block: BlockModel, n: int)
    requires
        0 <= n <= block.transactions.len(),
    ensures
        exact_among(block, n, candidates_among(block, n)),
        candidates_among(block, n).len() <= n,
    decreases n,
{
    if n > 0 {
        lemma_candidates_among_exact(block, n - 1);
        let before = candidates_among(block, n - 1);
        let found = candidates_among(block, n);
        if carries_commitment(block.transactions[n - 1].payload) {
            assert(found[before.len() as int] == candidate_at(block, n - 1));
            assert forall|i: int|
                0 <= i < n && carries_commitment(
                    (#[trigger] block.transactions[i]).payload,
                ) implies found.contains(candidate_at(block, i)) by {
                if i < n - 1 {
                    let k = choose|k: int|
                        0 <= k < before.len() && before[k] == candidate_at(block, i);
                    assert(found[k] == candidate_at(block, i));
                }
            }
        }
    }
}

/// The analysis of a block returns only transactions that carry the
/// commitment tag, every one of them, in the block's order and none twice.
pub proof fn law_analysis_is_exact(block: BlockModel)
    ensures
        exact_analysis(block, analysis(block)),
        analysis(block).len() <= block.transactions.len(),
{
    lemma_candidates_among_exact(block, block.transactions.len() as int);
}

/// No two candidates of one analysis refer to the same transaction.
pub proof fn law_analysis_has_no_duplicates(block: BlockModel, j: int, k: int)
    requires
        0 <= j < analysis(block).len(),
        0 <= k < analysis(block).len(),
        j != k,
    ensures
        analysis(block)[j].tx_index != analysis(block)[k].tx_index,
{
    law_analysis_is_exact(block);
    let found = analysis(block);
    if j < k {
        assert(found[j].tx_index < found[k].tx_index);
    } else {
        assert(found[k].tx_index < found[j].tx_index);
    }
}

impl CommitmentCandidate {
    /// A copy of this candidate.
    pub fn duplicate(&self) -> (copy: CommitmentCandidate)
        ensures
            copy@ == self@,
    {
        let payload = bytes_from(self.payload.as_slice(), 0);
        assert(payload@ =~= self.payload@);
        CommitmentCandidate {
            block_height: self.block_height,
            tx_index: self.tx_index,
            payload,
            value: self.value,
            structurally_valid: self.structurally_valid,
        }
    }

    /// The commitment fields that the payload holds, if it is well formed.
    pub fn fields(&self) -> (fields: Option<CommitmentFields>)
        ensures
            match fields {
                Some(f) => decoded_fields(self@.payload) == Some(f@),
                None => decoded_fields(self@.payload) is None,
            },
    {
        decode_fields(self.payload.as_slice())
    }
}

/// Looks at one transaction: a candidate if its payload carries the tag,
/// nothing otherwise.
pub fn analyze_transaction(tx: &Transaction, block_height: u64, tx_index: usize) -> (found: Option<
    CommitmentCandidate,
>)
    ensures
        match found {
            Some(c) => carries_commitment(tx@.payload) && c@ == candidate_of(
                tx@,
                block_height as nat,
                tx_index as nat,
            ),
            None => !carries_commitment(tx@.payload),
        },
{
    match extract_body(tx.payload.as_slice()) {
        Some(payload) => {
            let structurally_valid = payload.len() == BODY_LEN;
            let value = tx.committed_value();
            Some(CommitmentCandidate { block_height, tx_index, payload, value, structurally_valid })
        },
        None => None,
    }
}

/// Extracts the commitment candidates of `block`, in the order of its
/// transactions.
pub fn analyze(block: &Block) -> (found: Vec<CommitmentCandidate>)
    ensures
        candidate_models(found@) == analysis(block@),
        exact_analysis(block@, candidate_models(found@)),
        found@.len() <= block.transactions@.len(),
{
    let mut found: Vec<CommitmentCandidate> = Vec::new();
    let mut i: usize = 0;
    while i < block.transactions.len()
        invariant
            i <= block.transactions@.len(),
            candidate_models(found@) == candidates_among(block@, i as int),
        decreases block.transactions@.len() - i,
    {
        let ghost before = found@;
        match analyze_transaction(&block.transactions[i], block.height, i) {
            Some(candidate) => {
                found.push(candidate);
                assert(candidate_models(found@) =~= candidate_models(before).push(candidate@));
            },
            None => {},
        }
        i += 1;
    }
    proof {
        law_analysis_is_exact(block@);
    }
    found
}

} // verus!
