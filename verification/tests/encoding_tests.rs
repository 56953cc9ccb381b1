use alloy_primitives::{keccak256, Address, FixedBytes};
use alloy_sol_types::SolValue;
use voting_tally::encoding::{decode_output, decode_witness, encode_output, encode_witness};
use voting_tally::tally::{tally, tally_encoded};
use voting_tally::types::{Vote, VotePublicOutput, VoteWitness};

fn vote(proposal_id: u32, voter_byte: u8, choice: bool) -> Vote {
    Vote { proposal_id, voter: vec![voter_byte; 20], choice }
}

fn sample_witness() -> VoteWitness {
    VoteWitness {
        proposal_id: 6,
        votes: vec![vote(6, 0x01, true), vote(6, 0x02, false), vote(6, 0x03, true)],
    }
}

/// alloy's ABI encoding of the same witness value, computed independently of
/// the library: a struct of a uint32 and an array of (uint32, address, bool).
fn alloy_witness_bytes(w: &VoteWitness) -> Vec<u8> {
    let votes: Vec<(u32, Address, bool)> = w
        .votes
        .iter()
        .map(|v| (v.proposal_id, Address::from_slice(&v.voter), v.choice))
        .collect();
    (w.proposal_id, votes).abi_encode()
}

#[test]
fn witness_encoding_matches_alloy() {
    let w = sample_witness();
    assert_eq!(encode_witness(&w), alloy_witness_bytes(&w));
    let empty = VoteWitness { proposal_id: 5, votes: vec![] };
    assert_eq!(encode_witness(&empty), alloy_witness_bytes(&empty));
}

#[test]
fn output_encoding_matches_alloy() {
    let o = VotePublicOutput {
        proposal_id: 8,
        commitments_digest: keccak256(8u32.abi_encode()).to_vec(),
        yes: 3,
        no: 4,
    };
    let digest = FixedBytes::<32>::from_slice(&o.commitments_digest);
    let expected = (o.proposal_id, digest, o.yes, o.no).abi_encode();
    assert_eq!(encode_output(&o), expected);
}

#[test]
fn witness_round_trips() {
    let w = sample_witness();
    let bytes = encode_witness(&w);
    let decoded = decode_witness(&bytes).unwrap();
    assert_eq!(decoded.proposal_id, w.proposal_id);
    assert_eq!(decoded.votes.len(), w.votes.len());
    for (a, b) in decoded.votes.iter().zip(w.votes.iter()) {
        assert_eq!(a.proposal_id, b.proposal_id);
        assert_eq!(a.voter, b.voter);
        assert_eq!(a.choice, b.choice);
    }
}

#[test]
fn output_round_trips() {
    let o = VotePublicOutput {
        proposal_id: 1,
        commitments_digest: keccak256(1u32.abi_encode()).to_vec(),
        yes: 100,
        no: 200,
    };
    let bytes = encode_output(&o);
    let decoded = decode_output(&bytes).unwrap();
    assert_eq!(decoded.proposal_id, o.proposal_id);
    assert_eq!(decoded.commitments_digest, o.commitments_digest);
    assert_eq!(decoded.yes, o.yes);
    assert_eq!(decoded.no, o.no);
}

#[test]
fn decode_rejects_short_input() {
    let w = sample_witness();
    let mut bytes = encode_witness(&w);
    bytes.truncate(100);
    assert!(decode_witness(&bytes).is_none());
}

#[test]
fn decode_rejects_trailing_bytes() {
    let w = sample_witness();
    let mut bytes = encode_witness(&w);
    bytes.push(0);
    assert!(decode_witness(&bytes).is_none());
}

#[test]
fn decode_rejects_wrong_offsets() {
    let w = sample_witness();
    let good = encode_witness(&w);

    let mut wrong_outer = good.clone();
    wrong_outer[31] = 0x40;
    assert!(decode_witness(&wrong_outer).is_none());

    let mut wrong_inner = good.clone();
    wrong_inner[95] = 0x20;
    assert!(decode_witness(&wrong_inner).is_none());
}

#[test]
fn decode_rejects_dirty_padding() {
    let w = sample_witness();
    let good = encode_witness(&w);

    // a nonzero byte in the proposal identifier's padding
    let mut dirty_proposal = good.clone();
    dirty_proposal[33] = 1;
    assert!(decode_witness(&dirty_proposal).is_none());

    // a nonzero byte in a voter identity's padding
    let mut dirty_voter = good.clone();
    dirty_voter[128 + 32] = 1;
    assert!(decode_witness(&dirty_voter).is_none());
}

#[test]
fn decode_rejects_non_boolean_choice() {
    let w = sample_witness();
    let mut bytes = encode_witness(&w);
    let choice_byte = 128 + 64 + 31;
    assert_eq!(bytes[choice_byte], 1);
    bytes[choice_byte] = 2;
    assert!(decode_witness(&bytes).is_none());
}

#[test]
fn decode_rejects_wrong_count() {
    let w = sample_witness();
    let mut bytes = encode_witness(&w);
    bytes[127] = 2;
    assert!(decode_witness(&bytes).is_none());
}

#[test]
fn decode_output_rejects_wrong_length() {
    let o = VotePublicOutput {
        proposal_id: 1,
        commitments_digest: vec![0xab; 32],
        yes: 1,
        no: 2,
    };
    let mut bytes = encode_output(&o);
    bytes.push(0);
    assert!(decode_output(&bytes).is_none());
    bytes.truncate(127);
    assert!(decode_output(&bytes).is_none());
}

#[test]
fn encoded_run_matches_direct_tally() {
    let w = sample_witness();
    let input = encode_witness(&w);
    let journal = tally_encoded(&input).unwrap();
    let decoded = decode_output(&journal).unwrap();
    let direct = tally(&w).unwrap();
    assert_eq!(decoded.proposal_id, direct.proposal_id);
    assert_eq!(decoded.commitments_digest, direct.commitments_digest);
    assert_eq!(decoded.yes, direct.yes);
    assert_eq!(decoded.no, direct.no);
}

#[test]
fn encoded_run_accepts_alloy_encoded_input() {
    let w = sample_witness();
    let input = alloy_witness_bytes(&w);
    let journal = tally_encoded(&input).unwrap();
    let decoded = decode_output(&journal).unwrap();
    assert_eq!(decoded.yes, 2);
    assert_eq!(decoded.no, 1);
    assert_eq!(decoded.proposal_id, 6);
}
