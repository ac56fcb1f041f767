//! Why the coordinator turns a message down.

use crate::types::{Address, Field};
use vstd::prelude::*;

verus! {

/// Why the coordinator turns a message down or cannot go on.
#[derive(Clone, Copy, Debug, PartialEq, Eq, Structural)]
pub enum PrimaryError {
    /// A batch cannot be proposed: no committee is stored for the round
    /// before.
    UnknownPreviousCommittee { round: u64 },
    /// The batch is stored already, and its round lies more than two rounds
    /// from the committee's.
    BatchAlreadyProcessed { round: u64 },
    /// The round lies at or beyond the committee's round plus the rounds that
    /// storage keeps.
    RoundTooFarInFuture { round: u64 },
    /// The committee has left the round more than one round behind.
    RoundTooOld { round: u64, committee_round: u64 },
    /// The author is no member of the committee.
    NotCommitteeMember { author: Address },
    /// The timestamp lies further ahead of the clock than is allowed.
    TimestampTooFarInFuture { timestamp: i64 },
    /// A certificate that the header builds on is not stored.
    MissingPreviousCertificate { certificate_id: Field },
    /// A certificate that the header builds on is not of the round before.
    WrongPreviousRound { certificate_id: Field },
    /// No committee is stored for the round before the header's.
    MissingPreviousCommittee { round: u64 },
    /// The authors of the certificates that the header builds on hold no
    /// quorum.
    PreviousQuorumNotReached { round: u64 },
    /// A batch of this author was signed for this round before.
    AlreadySigned { round: u64, author: Address },
    /// The id of the header does not derive from what it says, or the
    /// author's signature on it is not valid.
    InvalidHeader { batch_id: Field },
    /// No id can be derived for the batch that is to be proposed.
    BatchIdFailed { round: u64 },
    /// No valid signature could be made.
    SigningFailed,
    /// A certificate with this id is stored already.
    DuplicateCertificate { certificate_id: Field },
    /// Those who signed the certificate hold no quorum.
    QuorumNotReached { round: u64 },
    /// The transmission falls to a worker that does not exist.
    UnknownWorker { worker_id: u8 },
    /// The draft does not fit the state any more, or its id does not derive
    /// from what it says.
    StaleDraft { round: u64 },
}

} // verus!
