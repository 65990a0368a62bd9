//! The validator: which candidates are worth a miner.
//!
//! A candidate passes when it is structurally valid and commits at least the
//! threshold. Both are required, both are compared as integers in minor units
//! of the base chain, and failing is routine: it is no error.

use crate::analyzer::{candidate_at, candidate_models, CandidateModel, CommitmentCandidate};
use crate::chain::{committed_value, total_value, BlockModel, TransactionModel};
use crate::encoding::{commitment_body, well_formed_body, BODY_LEN};
use vstd::prelude::*;

verus! {

/// A candidate is structurally valid when it was found well formed and its
/// payload is a well-formed commitment body.
pub open spec fn structurally_valid(candidate: CandidateModel) -> bool {
    candidate.structurally_valid && well_formed_body(candidate.payload)
}

/// A candidate is valid under `threshold` when it is structurally valid and
/// commits at least `threshold`.
pub open spec fn valid(candidate: CandidateModel, threshold: nat) -> bool {
    structurally_valid(candidate) && candidate.value >= threshold
}

/// [`valid`] with the threshold fixed.
pub open spec fn valid_under(threshold: nat) -> spec_fn(CandidateModel) -> bool {
    |candidate: CandidateModel| valid(candidate, threshold)
}

/// The candidates of `candidates` that are valid under `threshold`, in their
/// order.
pub open spec fn viable(candidates: Seq<CandidateModel>, threshold: nat) -> Seq<CandidateModel> {
    candidates.filter(valid_under(threshold))
}

/// Decides whether `candidate` is valid under `threshold`.
pub fn is_valid(candidate: &CommitmentCandidate, threshold: u64) -> (ok: bool)
    ensures
        ok == valid(candidate@, threshold as nat),
        !well_formed_body(candidate@.payload) ==> !ok,
{
    candidate.structurally_valid && candidate.payload.len() == BODY_LEN && candidate.value
        >= threshold
}

/// Keeps the candidates that are valid under `threshold`, in their order.
pub fn filter_valid(candidates: &[CommitmentCandidate], threshold: u64) -> (kept: Vec<
    CommitmentCandidate,
>)
    ensures
        candidate_models(kept@) == viable(candidate_models(candidates@), threshold as nat),
        kept@.len() <= candidates@.len(),
{
    let ghost models = candidate_models(candidates@);
    let ghost pred = valid_under(threshold as nat);
    let mut kept: Vec<CommitmentCandidate> = Vec::new();
    let mut i: usize = 0;
    proof {
        reveal(Seq::filter);
        assert(models.take(0).filter(pred) =~= Seq::empty());
    }
    while i < candidates.len()
        invariant
            i <= candidates@.len(),
            models == candidate_models(candidates@),
            pred == valid_under(threshold as nat),
            candidate_models(kept@) == models.take(i as int).filter(pred),
            kept@.len() <= i,
        decreases candidates@.len() - i,
    {
        let ghost before = kept@;
        proof {
            reveal(Seq::filter);
            let next = models.take(i + 1);
            assert(next.drop_last() =~= models.take(i as int));
            assert(next.last() == candidates@[i as int]@);
        }
        if is_valid(&candidates[i], threshold) {
            let copy = candidates[i].duplicate();
            kept.push(copy);
            assert(candidate_models(kept@) =~= candidate_models(before).push(copy@));
        }
        i += 1;
    }
    proof {
        assert(models.take(i as int) =~= models);
    }
    kept
}

/// A candidate whose payload is not a well-formed commitment body is valid
/// under no threshold, whatever value it claims.
pub proof fn law_malformed_is_never_valid(candidate: CandidateModel, threshold: nat)
    requires
        !well_formed_body(candidate.payload),
    ensures
        !valid(candidate, threshold),
{
}

/// Holding the committed value at `u64::MAX` never changes whether a
/// threshold is met: against any threshold that fits in 64 bits, the
/// committed value passes exactly when the true sum of the outputs does.
pub proof fn law_saturation_keeps_validity(tx: TransactionModel, threshold: nat)
    requires
        threshold <= u64::MAX,
    ensures
        committed_value(tx) >= threshold <==> total_value(tx.outputs) >= threshold,
{
}

/// A candidate that the analyzer took from a block is valid exactly when the
/// body of its transaction is well formed and the outputs of that transaction
/// add up to the threshold or more.
pub proof fn law_validity_of_analyzed(block: BlockModel, i: int, threshold: nat)
    requires
        0 <= i < block.transactions.len(),
        threshold <= u64::MAX,
    ensures
        valid(candidate_at(block, i), threshold) <==> well_formed_body(
            commitment_body(block.transactions[i].payload),
        ) && total_value(block.transactions[i].outputs) >= threshold,
{
}

/// Every viable candidate is valid and is one of the candidates given, and
/// every valid candidate given is viable.
pub proof fn law_viable_are_valid(candidates: Seq<CandidateModel>, threshold: nat)
    ensures
        viable(candidates, threshold).len() <= candidates.len(),
        forall|k: int|
            0 <= k < viable(candidates, threshold).len() ==> valid(
                #[trigger] viable(candidates, threshold)[k],
                threshold,
            ) && candidates.contains(viable(candidates, threshold)[k]),
        forall|i: int|
            0 <= i < candidates.len() && valid(#[trigger] candidates[i], threshold) ==> viable(
                candidates,
                threshold,
            ).contains(candidates[i]),
{
    let pred = valid_under(threshold);
    let kept = candidates.filter(pred);
    candidates.lemma_filter_len(pred);
    assert forall|k: int| 0 <= k < kept.len() implies valid(#[trigger] kept[k], threshold)
        && candidates.contains(kept[k]) by {
        candidates.lemma_filter_pred(pred, k);
        assert(kept.contains(kept[k]));
        candidates.lemma_filter_contains_rev(pred, kept[k]);
    }
    assert forall|i: int|
        0 <= i < candidates.len() && valid(#[trigger] candidates[i], threshold) implies kept.contains(
        candidates[i],
    ) by {
        candidates.lemma_filter_contains(pred, i);
    }
}

/// Candidates whose positions in the block rise keep that property when the
/// rejected ones are dropped: validation does not reorder and does not repeat.
pub proof fn law_viable_keep_block_order(candidates: Seq<CandidateModel>, threshold: nat)
    requires
        forall|j: int, k: int|
            0 <= j < k < candidates.len() ==> (#[trigger] candidates[j]).tx_index < (
            #[trigger] candidates[k]).tx_index,
    ensures
        forall|j: int, k: int|
            0 <= j < k < viable(candidates, threshold).len() ==> (#[trigger] viable(
                candidates,
                threshold,
            )[j]).tx_index < (#[trigger] viable(candidates, threshold)[k]).tx_index,
    decreases candidates.len(),
{
    reveal(Seq::filter);
    if candidates.len() > 0 {
        let front = candidates.drop_last();
        let last = candidates.last();
        let pred = valid_under(threshold);
        let kept_front = viable(front, threshold);
        let kept = viable(candidates, threshold);
        assert forall|j: int, k: int| 0 <= j < k < front.len() implies (#[trigger] front[j]).tx_index
            < (#[trigger] front[k]).tx_index by {
            assert(candidates[j].tx_index < candidates[k].tx_index);
        }
        law_viable_keep_block_order(front, threshold);
        assert forall|j: int, k: int| 0 <= j < k < kept.len() implies (#[trigger] kept[j]).tx_index
            < (#[trigger] kept[k]).tx_index by {
            if k < kept_front.len() {
                assert(kept[j] == kept_front[j] && kept[k] == kept_front[k]);
            } else {
                assert(kept[k] == last);
                assert(kept[j] == kept_front[j]);
                assert(kept_front.contains(kept_front[j]));
                front.lemma_filter_contains_rev(pred, kept_front[j]);
                let m = choose|m: int| 0 <= m < front.len() && front[m] == kept_front[j];
                assert(candidates[m].tx_index < candidates[candidates.len() - 1].tx_index);
            }
        }
    }
}

} // verus!
