//! Global guarantees of the tally, proved once over all inputs: determinism
//! of the whole encoded run, invariance of the counts under reordering, and
//! injectivity of the commitment preimage.

use vstd::prelude::*;

use crate::digest::commitment_preimage;
use crate::tally::{count_no, count_yes, tally_encoded_post, tally_spec};
use crate::types::{TallyError, VoteView, WitnessView};
use crate::words::{
    lemma_word_of_addr_injective, lemma_word_of_bool_injective, lemma_word_of_u32_injective,
    word_of_addr, word_of_bool, word_of_u32,
};

verus! {

/// Determinism: the result of an encoded tally run is a function of the
/// input bytes alone. Any two results that satisfy the run's contract on the
/// same input are equal, so two runs return byte-identical output bytes, or
/// the same error.
pub proof fn lemma_tally_encoded_deterministic(
    input: Seq<u8>,
    r1: Result<Seq<u8>, TallyError>,
    r2: Result<Seq<u8>, TallyError>,
)
    requires
        tally_encoded_post(input, r1),
        tally_encoded_post(input, r2),
    ensures
        r1 == r2,
{
    if forall|w: WitnessView| w.wf() ==> input != crate::encoding::witness_bytes(w) {
        assert(r1 == Err::<Seq<u8>, TallyError>(TallyError::InputDecode));
        assert(r2 == Err::<Seq<u8>, TallyError>(TallyError::InputDecode));
    } else {
        let w = choose|w: WitnessView| w.wf() && input == crate::encoding::witness_bytes(w);
        assert(w.wf() && input == crate::encoding::witness_bytes(w));
        match tally_spec(w.proposal_id, w.votes) {
            Ok(o) => {
                assert(r1 is Ok && r1->Ok_0 == crate::encoding::output_bytes(o));
                assert(r2 is Ok && r2->Ok_0 == crate::encoding::output_bytes(o));
            },
            Err(e) => {
                assert(r1 == Err::<Seq<u8>, TallyError>(e));
                assert(r2 == Err::<Seq<u8>, TallyError>(e));
            },
        }
    }
}

/// Removing the vote at index `i` removes exactly its contribution from each
/// count.
proof fn lemma_count_remove(votes: Seq<VoteView>, i: int)
    requires
        0 <= i < votes.len(),
    ensures
        count_yes(votes) == count_yes(votes.remove(i)) + if votes[i].choice {
            1nat
        } else {
            0nat
        },
        count_no(votes) == count_no(votes.remove(i)) + if votes[i].choice {
            0nat
        } else {
            1nat
        },
    decreases votes.len(),
{
    if i == votes.len() - 1 {
        assert(votes.remove(i) =~= votes.drop_last());
    } else {
        lemma_count_remove(votes.drop_last(), i);
        assert(votes.remove(i).drop_last() =~= votes.drop_last().remove(i));
        assert(votes.remove(i).last() == votes.last());
    }
}

/// Reordering never changes the counts: the yes and no counts of a vote
/// sequence depend on its multiset of votes alone. The chained digest, by
/// contrast, folds the commitments in sequence order on purpose.
pub proof fn lemma_counts_permutation_invariant(votes1: Seq<VoteView>, votes2: Seq<VoteView>)
    requires
        votes1.to_multiset() == votes2.to_multiset(),
    ensures
        count_yes(votes1) == count_yes(votes2),
        count_no(votes1) == count_no(votes2),
    decreases votes2.len(),
{
    broadcast use vstd::seq_lib::group_to_multiset_ensures;
    broadcast use vstd::multiset::group_multiset_axioms;

    if votes2.len() == 0 {
        assert(votes1.to_multiset().len() == 0);
        assert(votes1.len() == 0);
    } else {
        let v = votes2.last();
        let rest2 = votes2.drop_last();
        assert(votes2 =~= rest2.push(v));
        assert(votes2.to_multiset() =~= rest2.to_multiset().insert(v));
        assert(votes1.to_multiset().count(v) > 0);
        assert(votes1.contains(v));
        let i: int = choose|i: int| 0 <= i < votes1.len() && votes1[i] == v;
        assert(votes1.remove(i).to_multiset() =~= votes1.to_multiset().remove(votes1[i]));
        assert(votes1.remove(i).to_multiset() =~= rest2.to_multiset()) by {
            assert(votes1.to_multiset() == rest2.to_multiset().insert(v));
        }
        lemma_counts_permutation_invariant(votes1.remove(i), rest2);
        lemma_count_remove(votes1, i);
        assert(count_yes(votes2) == count_yes(rest2) + if v.choice {
            1nat
        } else {
            0nat
        });
        assert(count_no(votes2) == count_no(rest2) + if v.choice {
            0nat
        } else {
            1nat
        });
    }
}

/// Tamper evidence at the serialization layer: the commitment preimage is an
/// injective function of the vote, so altering a vote's choice, voter
/// identity or proposal identifier always changes the bytes hashed into its
/// commitment (and so, with a collision-resistant hash, the commitment).
pub proof fn lemma_commitment_preimage_injective(v1: VoteView, v2: VoteView)
    requires
        v1.wf(),
        v2.wf(),
        commitment_preimage(v1) == commitment_preimage(v2),
    ensures
        v1 == v2,
{
    let b1 = commitment_preimage(v1);
    let b2 = commitment_preimage(v2);
    assert(b1.subrange(0, 32) =~= word_of_addr(v1.voter));
    assert(b1.subrange(32, 64) =~= word_of_bool(v1.choice));
    assert(b1.subrange(64, 96) =~= word_of_u32(v1.proposal_id));
    assert(b2.subrange(0, 32) =~= word_of_addr(v2.voter));
    assert(b2.subrange(32, 64) =~= word_of_bool(v2.choice));
    assert(b2.subrange(64, 96) =~= word_of_u32(v2.proposal_id));
    lemma_word_of_addr_injective(v1.voter, v2.voter);
    lemma_word_of_bool_injective(v1.choice, v2.choice);
    lemma_word_of_u32_injective(v1.proposal_id, v2.proposal_id);
    assert(v1 =~= v2);
}

} // verus!
