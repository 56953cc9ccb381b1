//! The data model: votes, the private witness fed to the tally, the public
//! output it emits, and the error taxonomy of a tally run.

use vstd::prelude::*;

verus! {

/// A single ballot: the proposal it belongs to, the 20-byte voter identity,
/// and the choice (true = yes, false = no). Immutable once constructed.
#[derive(Debug, Clone)]
pub struct Vote {
    pub proposal_id: u32,
    pub voter: Vec<u8>,
    pub choice: bool,
}

/// The mathematical value of a `Vote`.
#[verifier::ext_equal]
pub ghost struct VoteView {
    pub proposal_id: u32,
    pub voter: Seq<u8>,
    pub choice: bool,
}

impl VoteView {
    /// A well-formed vote carries a 20-byte voter identity.
    pub open spec fn wf(self) -> bool {
        self.voter.len() == 20
    }
}

impl View for Vote {
    type V = VoteView;

    open spec fn view(&self) -> VoteView {
        VoteView { proposal_id: self.proposal_id, voter: self.voter@, choice: self.choice }
    }
}

/// The private input of one tally run: the proposal identifier and the ordered
/// list of votes cast against it. The order is significant: it fixes the
/// chaining order of the commitments digest.
#[derive(Debug, Clone)]
pub struct VoteWitness {
    pub proposal_id: u32,
    pub votes: Vec<Vote>,
}

/// The mathematical value of a `VoteWitness`.
#[verifier::ext_equal]
pub ghost struct WitnessView {
    pub proposal_id: u32,
    pub votes: Seq<VoteView>,
}

impl WitnessView {
    /// A well-formed witness holds only well-formed votes.
    pub open spec fn wf(self) -> bool {
        forall|i: int| 0 <= i < self.votes.len() ==> (#[trigger] self.votes[i]).wf()
    }
}

impl View for VoteWitness {
    type V = WitnessView;

    open spec fn view(&self) -> WitnessView {
        WitnessView {
            proposal_id: self.proposal_id,
            votes: self.votes@.map_values(|v: Vote| v@),
        }
    }
}

/// The public result of a tally run: the proposal identifier, the chained
/// 32-byte commitments digest, and the yes/no counts.
#[derive(Debug, Clone)]
pub struct VotePublicOutput {
    pub proposal_id: u32,
    pub commitments_digest: Vec<u8>,
    pub yes: u32,
    pub no: u32,
}

/// The mathematical value of a `VotePublicOutput`.
#[verifier::ext_equal]
pub ghost struct OutputView {
    pub proposal_id: u32,
    pub commitments_digest: Seq<u8>,
    pub yes: u32,
    pub no: u32,
}

impl OutputView {
    /// A well-formed output carries a 32-byte digest.
    pub open spec fn wf(self) -> bool {
        self.commitments_digest.len() == 32
    }
}

impl View for VotePublicOutput {
    type V = OutputView;

    open spec fn view(&self) -> OutputView {
        OutputView {
            proposal_id: self.proposal_id,
            commitments_digest: self.commitments_digest@,
            yes: self.yes,
            no: self.no,
        }
    }
}

/// Why a tally run failed. Every failure is fatal to the whole run: no
/// partial output is ever produced.
#[derive(Debug, Clone, Copy, PartialEq, Eq, Structural)]
pub enum TallyError {
    /// The input bytes are not the canonical encoding of any witness.
    InputDecode,
    /// Some vote's proposal identifier disagrees with the witness's.
    ProposalMismatch,
    /// A yes or no count would exceed the 32-bit width of the output.
    CountOverflow,
}

} // verus!
