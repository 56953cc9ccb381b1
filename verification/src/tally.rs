//! The tally engine: validates proposal-identifier consistency, counts yes
//! and no votes, and chains the per-vote commitments into one digest.

use vstd::prelude::*;

use crate::digest::{chain_digest, chain_root_digest, chain_step_digest};
use crate::encoding::{
    decode_witness, encode_output, lemma_witness_bytes_injective, output_bytes, witness_bytes,
};
use crate::types::{OutputView, TallyError, VotePublicOutput, VoteView, VoteWitness, WitnessView};

verus! {

/// Whether some vote's proposal identifier disagrees with `proposal_id`.
pub open spec fn has_mismatch(proposal_id: u32, votes: Seq<VoteView>) -> bool {
    exists|i: int| 0 <= i < votes.len() && votes[i].proposal_id != proposal_id
}

/// The number of yes votes in a sequence.
pub open spec fn count_yes(votes: Seq<VoteView>) -> nat
    decreases votes.len(),
{
    if votes.len() == 0 {
        0
    } else {
        count_yes(votes.drop_last()) + if votes.last().choice {
            1nat
        } else {
            0nat
        }
    }
}

/// The number of no votes in a sequence.
pub open spec fn count_no(votes: Seq<VoteView>) -> nat
    decreases votes.len(),
{
    if votes.len() == 0 {
        0
    } else {
        count_no(votes.drop_last()) + if votes.last().choice {
            0nat
        } else {
            1nat
        }
    }
}

/// Count conservation: every vote is counted exactly once, so the yes and no
/// counts of a sequence always sum to its length.
pub proof fn lemma_count_conservation(votes: Seq<VoteView>)
    ensures
        count_yes(votes) + count_no(votes) == votes.len(),
    decreases votes.len(),
{
    if votes.len() > 0 {
        lemma_count_conservation(votes.drop_last());
    }
}

/// What a tally run returns, as a function of the witness value alone.
pub open spec fn tally_spec(proposal_id: u32, votes: Seq<VoteView>) -> Result<
    OutputView,
    TallyError,
> {
    if has_mismatch(proposal_id, votes) {
        Err(TallyError::ProposalMismatch)
    } else if count_yes(votes) > u32::MAX || count_no(votes) > u32::MAX {
        Err(TallyError::CountOverflow)
    } else {
        Ok(
            OutputView {
                proposal_id,
                commitments_digest: chain_digest(proposal_id, votes),
                yes: count_yes(votes) as u32,
                no: count_no(votes) as u32,
            },
        )
    }
}

/// The mathematical value of a tally result.
pub open spec fn tally_result_view(r: Result<VotePublicOutput, TallyError>) -> Result<
    OutputView,
    TallyError,
> {
    match r {
        Ok(o) => Ok(o@),
        Err(e) => Err(e),
    }
}

/// Tallies one witness: checks that every vote belongs to the declared
/// proposal, counts yes and no votes, and chains the commitments digest in
/// witness order. The result is exactly `tally_spec` of the witness value;
/// on success the yes and no counts sum to the number of votes.
pub fn tally(witness: &VoteWitness) -> (r: Result<VotePublicOutput, TallyError>)
    requires
        witness@.wf(),
    ensures
        tally_result_view(r) == tally_spec(witness@.proposal_id, witness@.votes),
        r is Ok ==> r->Ok_0@.wf(),
        r is Ok ==> r->Ok_0.yes + r->Ok_0.no == witness@.votes.len(),
{
    let proposal_id = witness.proposal_id;
    let n: usize = witness.votes.len();
    let ghost views = witness@.votes;
    let mut i: usize = 0;
    while i < n
        invariant
            i <= n,
            n == views.len(),
            views == witness@.votes,
            proposal_id == witness@.proposal_id,
            forall|j: int| 0 <= j < i ==> (#[trigger] views[j]).proposal_id == proposal_id,
        decreases n - i,
    {
        if witness.votes[i].proposal_id != proposal_id {
            proof {
                assert(views[i as int].proposal_id != proposal_id);
            }
            return Err(TallyError::ProposalMismatch);
        }
        proof {
            assert(views[i as int].proposal_id == proposal_id);
        }
        i = i + 1;
    }
    proof {
        assert(!has_mismatch(proposal_id, views));
    }
    let mut yes64: u64 = 0;
    let mut no64: u64 = 0;
    let mut digest = chain_root_digest(proposal_id);
    proof {
        assert(views.take(0) =~= Seq::<VoteView>::empty());
    }
    let mut k: usize = 0;
    while k < n
        invariant
            k <= n,
            n == views.len(),
            views == witness@.votes,
            proposal_id == witness@.proposal_id,
            witness@.wf(),
            yes64 <= k,
            no64 <= k,
            yes64 == count_yes(views.take(k as int)),
            no64 == count_no(views.take(k as int)),
            digest@ == chain_digest(proposal_id, views.take(k as int)),
            digest@.len() == 32,
        decreases n - k,
    {
        let v = &witness.votes[k];
        proof {
            assert(v@ == views[k as int]);
            assert(views[k as int].wf());
        }
        if v.choice {
            yes64 = yes64 + 1;
        } else {
            no64 = no64 + 1;
        }
        digest = chain_step_digest(&digest, v);
        k = k + 1;
        proof {
            assert(views.take(k as int).drop_last() =~= views.take(k - 1));
            assert(views.take(k as int).last() == views[k - 1]);
        }
    }
    proof {
        assert(views.take(n as int) =~= views);
        lemma_count_conservation(views);
    }
    if yes64 > (u32::MAX as u64) || no64 > (u32::MAX as u64) {
        return Err(TallyError::CountOverflow);
    }
    let output = VotePublicOutput {
        proposal_id,
        commitments_digest: digest,
        yes: yes64 as u32,
        no: no64 as u32,
    };
    proof {
        assert(tally_spec(witness@.proposal_id, witness@.votes) == Ok::<
            OutputView,
            TallyError,
        >(output@)) by {
            assert(tally_spec(witness@.proposal_id, witness@.votes)->Ok_0 =~= output@);
        }
    }
    Ok(output)
}

/// The mathematical value of an encoded tally result.
pub open spec fn bytes_result_view(r: Result<Vec<u8>, TallyError>) -> Result<Seq<u8>, TallyError> {
    match r {
        Ok(v) => Ok(v@),
        Err(e) => Err(e),
    }
}

/// The contract of a whole encoded tally run, over the input bytes and the
/// result value alone: the run fails with `InputDecode` exactly when the
/// input is not the canonical encoding of any well-formed witness, and
/// otherwise behaves as `tally_spec` of the encoded witness, emitting the
/// canonical encoding of the public output on success.
pub open spec fn tally_encoded_post(input: Seq<u8>, r: Result<Seq<u8>, TallyError>) -> bool {
    &&& ((forall|w: WitnessView| w.wf() ==> input != witness_bytes(w)) <==> r == Err::<
        Seq<u8>,
        TallyError,
    >(TallyError::InputDecode))
    &&& (forall|w: WitnessView|
        w.wf() && input == witness_bytes(w) ==> match tally_spec(w.proposal_id, w.votes) {
            Ok(o) => r is Ok && r->Ok_0 == output_bytes(o),
            Err(e) => r == Err::<Seq<u8>, TallyError>(e),
        })
}

/// Runs one whole tally over the canonical byte encoding of a witness:
/// decodes the witness, tallies it, and encodes the public output. This is
/// the verifiable computation from input bytes to journal bytes.
pub fn tally_encoded(input: &Vec<u8>) -> (r: Result<Vec<u8>, TallyError>)
    ensures
        tally_encoded_post(input@, bytes_result_view(r)),
{
    let opt_witness = decode_witness(input);
    if opt_witness.is_none() {
        return Err(TallyError::InputDecode);
    }
    let witness = opt_witness.unwrap();
    match tally(&witness) {
        Ok(output) => {
            let out_bytes = encode_output(&output);
            proof {
                assert forall|w: WitnessView|
                    w.wf() && input@ == witness_bytes(w) implies w == witness@ by {
                    lemma_witness_bytes_injective(w, witness@);
                }
            }
            Ok(out_bytes)
        },
        Err(e) => {
            proof {
                assert(e != TallyError::InputDecode);
                assert forall|w: WitnessView|
                    w.wf() && input@ == witness_bytes(w) implies w == witness@ by {
                    lemma_witness_bytes_injective(w, witness@);
                }
            }
            Err(e)
        },
    }
}

} // verus!
