use alloy_primitives::{keccak256, Address};
use alloy_sol_types::SolValue;
use voting_tally::digest::{chain_root_digest, vote_commitment};
use voting_tally::tally::{tally, tally_encoded};
use voting_tally::types::{TallyError, Vote, VoteWitness};

fn vote(proposal_id: u32, voter_byte: u8, choice: bool) -> Vote {
    Vote { proposal_id, voter: vec![voter_byte; 20], choice }
}

/// Recomputes the chained digest independently with alloy's keccak and ABI
/// encoding, exactly as an external verifier would.
fn reference_digest(proposal_id: u32, votes: &[Vote]) -> Vec<u8> {
    let mut digest = keccak256(proposal_id.abi_encode());
    for v in votes {
        let voter = Address::from_slice(&v.voter);
        let commitment = keccak256((voter, v.choice, v.proposal_id).abi_encode());
        digest = keccak256((digest, commitment).abi_encode());
    }
    digest.to_vec()
}

#[test]
fn tally_votes_basic() {
    let proposal_id = 0u32;
    let input = VoteWitness {
        proposal_id,
        votes: vec![
            vote(proposal_id, 0x01, true),
            vote(proposal_id, 0x02, false),
            vote(proposal_id, 0x03, true),
        ],
    };

    let out = tally(&input).unwrap();
    assert_eq!(out.proposal_id, proposal_id);
    assert_eq!(out.yes, 2);
    assert_eq!(out.no, 1);

    let mut expected_digest = keccak256(proposal_id.abi_encode());
    println!(
        "Expected digest calculation starts with: {:?}",
        expected_digest
    );

    for v in &input.votes {
        let voter = Address::from_slice(&v.voter);
        let vote_commitment = keccak256((voter, v.choice, v.proposal_id).abi_encode());
        expected_digest = keccak256((expected_digest, vote_commitment).abi_encode());
    }
    assert_eq!(out.commitments_digest, expected_digest.to_vec());
}

#[test]
fn empty_vote_list_yields_chain_root() {
    let input = VoteWitness { proposal_id: 5, votes: vec![] };
    let out = tally(&input).unwrap();
    assert_eq!(out.proposal_id, 5);
    assert_eq!(out.yes, 0);
    assert_eq!(out.no, 0);
    assert_eq!(out.commitments_digest, keccak256(5u32.abi_encode()).to_vec());
    assert_eq!(out.commitments_digest, chain_root_digest(5));
}

#[test]
fn tally_is_deterministic() {
    let input = VoteWitness {
        proposal_id: 9,
        votes: vec![vote(9, 0x11, true), vote(9, 0x22, false)],
    };
    let first = tally(&input).unwrap();
    let second = tally(&input).unwrap();
    assert_eq!(first.proposal_id, second.proposal_id);
    assert_eq!(first.yes, second.yes);
    assert_eq!(first.no, second.no);
    assert_eq!(first.commitments_digest, second.commitments_digest);
}

#[test]
fn count_conservation_holds() {
    let input = VoteWitness {
        proposal_id: 2,
        votes: vec![
            vote(2, 0x01, true),
            vote(2, 0x02, true),
            vote(2, 0x03, false),
            vote(2, 0x04, true),
            vote(2, 0x05, false),
        ],
    };
    let out = tally(&input).unwrap();
    assert_eq!(out.yes as u64 + out.no as u64, input.votes.len() as u64);
}

#[test]
fn permuting_votes_changes_digest_but_not_counts() {
    let forward = VoteWitness {
        proposal_id: 3,
        votes: vec![vote(3, 0x01, true), vote(3, 0x02, false), vote(3, 0x03, true)],
    };
    let swapped = VoteWitness {
        proposal_id: 3,
        votes: vec![vote(3, 0x02, false), vote(3, 0x01, true), vote(3, 0x03, true)],
    };
    let out_forward = tally(&forward).unwrap();
    let out_swapped = tally(&swapped).unwrap();
    assert_eq!(out_forward.yes, out_swapped.yes);
    assert_eq!(out_forward.no, out_swapped.no);
    assert_ne!(out_forward.commitments_digest, out_swapped.commitments_digest);
}

#[test]
fn tampering_with_a_vote_changes_the_digest() {
    let base = VoteWitness {
        proposal_id: 1,
        votes: vec![vote(1, 0x0a, true), vote(1, 0x0b, false)],
    };
    let flipped_choice = VoteWitness {
        proposal_id: 1,
        votes: vec![vote(1, 0x0a, false), vote(1, 0x0b, false)],
    };
    let changed_voter = VoteWitness {
        proposal_id: 1,
        votes: vec![vote(1, 0x0c, true), vote(1, 0x0b, false)],
    };
    // changing a vote's proposal identifier consistently means changing the
    // witness's as well, else the run is rejected outright
    let changed_proposal = VoteWitness {
        proposal_id: 2,
        votes: vec![vote(2, 0x0a, true), vote(2, 0x0b, false)],
    };
    let d_base = tally(&base).unwrap().commitments_digest;
    let d_choice = tally(&flipped_choice).unwrap().commitments_digest;
    let d_voter = tally(&changed_voter).unwrap().commitments_digest;
    let d_proposal = tally(&changed_proposal).unwrap().commitments_digest;
    assert_ne!(d_base, d_choice);
    assert_ne!(d_base, d_voter);
    assert_ne!(d_base, d_proposal);
    assert_ne!(d_choice, d_voter);
}

#[test]
fn proposal_mismatch_is_rejected() {
    let input = VoteWitness {
        proposal_id: 3,
        votes: vec![vote(3, 0x01, true), vote(4, 0x02, false), vote(3, 0x03, true)],
    };
    assert!(matches!(tally(&input), Err(TallyError::ProposalMismatch)));
}

#[test]
fn digest_matches_reference_computation() {
    let votes = vec![
        vote(42, 0x10, false),
        vote(42, 0x20, true),
        vote(42, 0x30, true),
        vote(42, 0x40, false),
    ];
    let input = VoteWitness { proposal_id: 42, votes: votes.clone() };
    let out = tally(&input).unwrap();
    assert_eq!(out.commitments_digest, reference_digest(42, &votes));
}

#[test]
fn vote_commitment_matches_alloy() {
    let v = vote(7, 0x55, true);
    let voter = Address::from_slice(&v.voter);
    let expected = keccak256((voter, v.choice, v.proposal_id).abi_encode()).to_vec();
    assert_eq!(vote_commitment(&v), expected);
}

#[test]
fn garbage_input_is_a_decode_error() {
    let garbage = vec![0xffu8; 200];
    assert_eq!(tally_encoded(&garbage), Err(TallyError::InputDecode));
    let empty: Vec<u8> = vec![];
    assert_eq!(tally_encoded(&empty), Err(TallyError::InputDecode));
}

fn tally_eq(r1: &Result<Vec<u8>, TallyError>, r2: &Result<Vec<u8>, TallyError>) -> bool {
    match (r1, r2) {
        (Ok(a), Ok(b)) => a == b,
        (Err(a), Err(b)) => a == b,
        _ => false,
    }
}

#[test]
fn encoded_run_is_deterministic() {
    let input = VoteWitness {
        proposal_id: 11,
        votes: vec![vote(11, 0x01, true), vote(11, 0x02, false)],
    };
    let bytes = voting_tally::encoding::encode_witness(&input);
    let r1 = tally_encoded(&bytes);
    let r2 = tally_encoded(&bytes);
    assert!(tally_eq(&r1, &r2));
    assert!(r1.is_ok());
}
