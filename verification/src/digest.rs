//! The commitment builder and the chained commitments digest.
//!
//! Each vote is bound into a 32-byte commitment by hashing a canonical,
//! injective serialization of its fields; the tally folds the commitments
//! into one running digest, left to right, so the result is sensitive to the
//! order of the votes as well as to their contents.

use vstd::prelude::*;

use crate::types::{Vote, VoteView};
use crate::words::{
    push_word_addr, push_word_bool, push_word_u32, push_bytes, word_of_addr, word_of_bool,
    word_of_u32,
};

verus! {

/// The 32 bytes of Keccak-256 over a byte sequence, named but left opaque:
/// the verified code treats the hash as a deterministic function of the
/// bytes and claims nothing about its value.
pub uninterp spec fn keccak_of(data: Seq<u8>) -> Seq<u8>;

/// Relies on `alloy_primitives::keccak256`: Keccak-256 over the input bytes,
/// a pure function of the bytes alone, returning a 32-byte hash.
#[verifier::external_body]
pub(crate) fn keccak(data: &[u8]) -> (r: Vec<u8>)
    ensures
        r@ == keccak_of(data@),
        r@.len() == 32,
{
    alloy_primitives::keccak256(data).to_vec()
}

/// The canonical preimage of a vote's commitment: the voter identity, the
/// choice and the proposal identifier, each as one 32-byte word. The layout
/// is injective: distinct votes have distinct preimages.
pub open spec fn commitment_preimage(v: VoteView) -> Seq<u8> {
    word_of_addr(v.voter) + word_of_bool(v.choice) + word_of_u32(v.proposal_id)
}

/// The commitment binding one vote's fields.
pub open spec fn commitment_of(v: VoteView) -> Seq<u8> {
    keccak_of(commitment_preimage(v))
}

/// The chain root: the digest of an empty vote list, seeded from the
/// proposal identifier alone.
pub open spec fn chain_root(proposal_id: u32) -> Seq<u8> {
    keccak_of(word_of_u32(proposal_id))
}

/// One chaining step: the previous digest and the new commitment, hashed as
/// two adjacent 32-byte words.
pub open spec fn chain_step(digest: Seq<u8>, v: VoteView) -> Seq<u8> {
    keccak_of(digest + commitment_of(v))
}

/// The commitments digest of a vote sequence: the chain root folded with
/// each vote's commitment, in sequence order.
pub open spec fn chain_digest(proposal_id: u32, votes: Seq<VoteView>) -> Seq<u8>
    decreases votes.len(),
{
    if votes.len() == 0 {
        chain_root(proposal_id)
    } else {
        chain_step(chain_digest(proposal_id, votes.drop_last()), votes.last())
    }
}

/// Derives the commitment that binds one vote's voter identity, choice and
/// proposal identifier.
pub fn vote_commitment(v: &Vote) -> (r: Vec<u8>)
    requires
        v@.wf(),
    ensures
        r@ == commitment_of(v@),
        r@.len() == 32,
{
    let mut preimage: Vec<u8> = Vec::new();
    push_word_addr(&mut preimage, &v.voter);
    push_word_bool(&mut preimage, v.choice);
    push_word_u32(&mut preimage, v.proposal_id);
    proof {
        assert(preimage@ =~= commitment_preimage(v@));
    }
    keccak(preimage.as_slice())
}

/// Derives the digest of an empty vote list for a proposal: the chain root.
pub fn chain_root_digest(proposal_id: u32) -> (r: Vec<u8>)
    ensures
        r@ == chain_root(proposal_id),
        r@.len() == 32,
{
    let mut preimage: Vec<u8> = Vec::new();
    push_word_u32(&mut preimage, proposal_id);
    proof {
        assert(preimage@ =~= word_of_u32(proposal_id));
    }
    keccak(preimage.as_slice())
}

/// Folds one vote's commitment into the running digest.
pub fn chain_step_digest(digest: &Vec<u8>, v: &Vote) -> (r: Vec<u8>)
    requires
        v@.wf(),
    ensures
        r@ == chain_step(digest@, v@),
        r@.len() == 32,
{
    let commitment = vote_commitment(v);
    let mut preimage: Vec<u8> = Vec::new();
    push_bytes(&mut preimage, digest);
    push_bytes(&mut preimage, &commitment);
    proof {
        assert(preimage@ =~= digest@ + commitment_of(v@));
    }
    keccak(preimage.as_slice())
}

} // verus!
