//! The coordinator itself: its state, and what each message and each tick of
//! the proposer does to it.

use crate::account::Account;
use crate::batch::{
    collect_signers, header_well_formed, ids_of, transmission_views, Batch, BatchCertificate,
    BatchCertificateView, BatchHeader, BatchHeaderView, BatchSignature, BatchView, Transmission,
    TransmissionView,
};
use crate::clock::now;
use crate::committee::{Committee, CommitteeView};
use crate::crypto::{
    batch_id_of, derive_batch_id, sign_with_seed, signature_verifies, verify_signature,
};
use crate::error::PrimaryError;
use crate::ordered_map::{
    distinct_keys, from_signature_key, has_key, insert_signature, key_signature,
    lemma_with_entry_distinct, new_signature_map, place_of, signature_entries, signature_key,
    signature_pairs, to_signature_key, with_entry, SignatureKey,
};
use crate::pending::{asked, requests_since, with_request, Pending, PendingRequest};
use crate::proposal::{
    concat_all, drained_views, first_occurrences, union_transmissions, BatchDraft, BatchDraftView,
};
use crate::seq_lemmas::{
    distinct_by, lemma_filter_empty, lemma_filter_keeps_distinct, lemma_filter_step,
};
use crate::storage::{certificate_authors, certificate_ids, certificate_views, Storage, StorageView};
use crate::types::{Address, Field, PeerAddr, Signature, TransmissionId};
use indexmap::IndexMap;
use std::hash::RandomState;
use vstd::prelude::*;

verus! {

/// The most workers that a coordinator runs.
pub const MAX_WORKERS: u8 = 1;

/// The milliseconds between two ticks of the proposer.
pub const MAX_BATCH_DELAY: u64 = 2500;

/// The seconds after which a proposed batch that is not certified is given up.
pub const MAX_EXPIRATION_TIME_IN_SECS: i64 = 10;

/// The seconds by which the timestamp of a proposal may lie ahead of the clock.
pub const MAX_TIMESTAMP_DELTA_IN_SECS: i64 = 10;

/// That a batch of `author` was signed for `round`.
#[derive(Clone, Copy, Debug, PartialEq, Eq, Structural)]
pub struct SignedRecord {
    pub round: u64,
    pub author: Address,
    pub batch_id: Field,
}

/// Whether a batch of `author` was signed for `round`.
pub open spec fn signed_for(records: Seq<SignedRecord>, round: u64, author: Address) -> bool {
    exists|i: int|
        0 <= i < records.len() && (#[trigger] records[i]).round == round && records[i].author
            == author
}

/// The signatures that the keys of `entries` stand for, each with its time.
pub open spec fn signatures_of(entries: Seq<(SignatureKey, i64)>) -> Seq<(Signature, i64)> {
    entries.map_values(|entry: (SignatureKey, i64)| (key_signature(entry.0), entry.1))
}

/// The round before `round`; the first of all rounds is its own.
pub open spec fn round_before(round: u64) -> u64 {
    if round == 0 {
        0
    } else {
        (round - 1) as u64
    }
}

/// The round that lies `max_gc_rounds` behind `round`, or the first.
pub open spec fn oldest_kept(round: u64, max_gc_rounds: u64) -> u64 {
    if round >= max_gc_rounds {
        (round - max_gc_rounds) as u64
    } else {
        0
    }
}

/// Those of `ids` whose transmission is not at hand, in their order.
pub open spec fn missing_transmissions(ids: Seq<TransmissionId>, storage: StorageView) -> Seq<
    TransmissionId,
> {
    ids.filter(|id: TransmissionId| !storage.transmissions.contains(id))
}

/// Those of `ids` that are to be asked for: the certificate is not stored,
/// no request for it is open, and it was not listed before.
pub open spec fn certificates_to_request(
    ids: Seq<Field>,
    storage: StorageView,
    pending: Map<Field, PendingRequest>,
) -> Seq<Field>
    decreases ids.len(),
{
    if ids.len() == 0 {
        Seq::empty()
    } else {
        let earlier = certificates_to_request(ids.drop_last(), storage, pending);
        let id = ids.last();
        if !pending.contains_key(id) && !earlier.contains(id) && !storage.contains_certificate(
            id,
        ) {
            earlier.push(id)
        } else {
            earlier
        }
    }
}

/// The requests once `peer` was asked for each of `ids` at `round`.
pub open spec fn with_requests(
    pending: Map<Field, PendingRequest>,
    ids: Seq<Field>,
    peer: PeerAddr,
    round: u64,
) -> Map<Field, PendingRequest>
    decreases ids.len(),
{
    if ids.len() == 0 {
        pending
    } else {
        with_request(with_requests(pending, ids.drop_last(), peer, round), ids.last(), peer, round)
    }
}

/// A certificate is asked for after the requests exactly if it was before or
/// is among the new ones; the older requests keep their round.
pub proof fn lemma_with_requests(
    pending: Map<Field, PendingRequest>,
    ids: Seq<Field>,
    peer: PeerAddr,
    round: u64,
)
    ensures
        forall|id: Field| #[trigger]
            with_requests(pending, ids, peer, round).contains_key(id) <==> pending.contains_key(id)
                || ids.contains(id),
        forall|id: Field| #[trigger]
            with_requests(pending, ids, peer, round).contains_key(id) ==> with_requests(
                pending,
                ids,
                peer,
                round,
            )[id].round == if pending.contains_key(id) {
                pending[id].round
            } else {
                round
            },
    decreases ids.len(),
{
    if ids.len() > 0 {
        let rest = ids.drop_last();
        lemma_with_requests(pending, rest, peer, round);
        let inner = with_requests(pending, rest, peer, round);
        let outer = with_requests(pending, ids, peer, round);
        assert forall|id: Field| #[trigger]
            outer.contains_key(id) <==> pending.contains_key(id) || ids.contains(id) by {
            if ids.contains(id) {
                let k = choose|k: int| 0 <= k < ids.len() && ids[k] == id;
                if k < rest.len() {
                    assert(rest[k] == id);
                }
            }
            if rest.contains(id) {
                let k = choose|k: int| 0 <= k < rest.len() && rest[k] == id;
                assert(ids[k] == id);
            }
            assert(ids[ids.len() - 1] == ids.last());
        }
        assert forall|id: Field| #[trigger] outer.contains_key(id) implies outer[id].round == (
        if pending.contains_key(id) {
            pending[id].round
        } else {
            round
        }) by {
            if rest.contains(id) {
                let k = choose|k: int| 0 <= k < rest.len() && rest[k] == id;
                assert(ids[k] == id);
            }
        }
    }
}

/// What is wrong with the certificate `id` as one that a batch of the round
/// after `previous_round` builds on, if anything: it is not stored, or it is
/// of another round.
pub open spec fn certificate_fault(storage: StorageView, id: Field, previous_round: u64) -> Option<
    PrimaryError,
> {
    match storage.get_certificate(id) {
        None => Some(PrimaryError::MissingPreviousCertificate { certificate_id: id }),
        Some(certificate) => if certificate.header.round != previous_round {
            Some(PrimaryError::WrongPreviousRound { certificate_id: id })
        } else {
            None
        },
    }
}

/// The first fault among the certificates `ids`, in their order.
pub open spec fn previous_fault(
    storage: StorageView,
    ids: Seq<Field>,
    previous_round: u64,
) -> Option<PrimaryError>
    decreases ids.len(),
{
    if ids.len() == 0 {
        None
    } else {
        match previous_fault(storage, ids.drop_last(), previous_round) {
            Some(error) => Some(error),
            None => certificate_fault(storage, ids.last(), previous_round),
        }
    }
}

/// The authors of those of the certificates `ids` that are stored.
pub open spec fn previous_authors(storage: StorageView, ids: Seq<Field>) -> Set<Address> {
    Set::new(
        |author: Address|
            exists|i: int|
                0 <= i < ids.len() && storage.get_certificate(#[trigger] ids[i]) is Some
                    && storage.get_certificate(ids[i])->0.header.author == author,
    )
}

/// What is wrong with the certificates `ids` as those that a batch of
/// `round` builds on, if anything: the first fault of one of them, then that
/// no committee is stored for the round before, then that their authors hold
/// no quorum of it.
pub open spec fn previous_certificates_fault(
    storage: StorageView,
    ids: Seq<Field>,
    round: u64,
) -> Option<PrimaryError> {
    let previous_round = round_before(round);
    match previous_fault(storage, ids, previous_round) {
        Some(error) => Some(error),
        None => match storage.get_committee_for_round(previous_round) {
            None => Some(PrimaryError::MissingPreviousCommittee { round: previous_round }),
            Some(committee) => if committee.quorum_reached(previous_authors(storage, ids)) {
                None
            } else {
                Some(PrimaryError::PreviousQuorumNotReached { round })
            },
        },
    }
}

/// What the coordinator does first with a proposal of a peer.
#[derive(Debug, PartialEq, Eq)]
pub enum Admission {
    /// The batch is stored already: there is nothing to do.
    Known,
    /// The proposal goes on to be checked, once the certificates listed have
    /// been asked of the peer and have come.
    Proceed(Vec<Field>),
}

/// What is to be fetched from a peer before a batch can be dealt with.
#[derive(Debug, PartialEq, Eq)]
pub struct Backfill {
    /// The transmissions to fetch through the workers.
    pub transmissions: Vec<TransmissionId>,
    /// The certificates to ask the peer for.
    pub certificates: Vec<Field>,
}

/// What becomes of a signature that a peer sent for a batch.
#[derive(Clone, Copy, Debug, PartialEq, Eq, Structural)]
pub enum SignatureVerdict {
    /// The batch is neither the proposed one nor stored.
    UnknownBatch,
    /// The batch is not the proposed one; it is stored, so it was certified
    /// before the signature came.
    AlreadyCertified,
    /// The peer has no address: it is not connected.
    DisconnectedPeer,
    /// The peer is no member of the committee.
    NotCommitteeMember,
    /// The signature is not valid for the batch id and the timestamp under
    /// the peer's address.
    InvalidSignature,
    /// The proposed batch had waited too long and was given up.
    Expired,
    /// The signature was added; those who signed hold no quorum yet.
    Added,
    /// A quorum has signed, but no certificate could be made of the
    /// signatures. The slot is empty.
    CertificateFailed,
    /// A quorum has signed, but a certificate with this id is stored already.
    /// The slot is empty.
    DuplicateCertificate,
    /// A quorum has signed: the certificate is stored and the next round has
    /// begun.
    Certified,
}

/// What the coordinator answers to a signature that a peer sent.
#[derive(Debug, PartialEq, Eq)]
pub enum SignatureOutcome {
    /// Nothing was stored; the verdict says why, or that the signature was
    /// added.
    Kept(SignatureVerdict),
    /// The batch is certified: the certificate is to be sent to all.
    Certified(BatchCertificate),
}

impl SignatureOutcome {
    /// The verdict that the outcome stands for.
    pub open spec fn verdict(self) -> SignatureVerdict {
        match self {
            SignatureOutcome::Kept(verdict) => verdict,
            SignatureOutcome::Certified(_) => SignatureVerdict::Certified,
        }
    }
}

/// What drafting answers, the draft as its view.
pub open spec fn drafted_view(draft: Result<Option<BatchDraft>, PrimaryError>) -> Result<
    Option<BatchDraftView>,
    PrimaryError,
> {
    match draft {
        Ok(Some(draft)) => Ok(Some(draft@)),
        Ok(None) => Ok(None),
        Err(error) => Err(error),
    }
}

/// What a proposal answers, the header as its view.
pub open spec fn announced(header: Result<Option<BatchHeader>, PrimaryError>) -> Result<
    Option<BatchHeaderView>,
    PrimaryError,
> {
    match header {
        Ok(Some(header)) => Ok(Some(header@)),
        Ok(None) => Ok(None),
        Err(error) => Err(error),
    }
}

/// The batch that this validator has proposed, with the signatures that have
/// come in for it.
pub struct Proposal {
    batch: Batch,
    signatures: IndexMap<SignatureKey, i64, RandomState>,
}

/// A proposal: the batch, and the signatures in the order in which they came.
#[verifier::ext_equal]
pub struct ProposalView {
    pub batch: BatchView,
    pub signatures: Seq<(Signature, i64)>,
}

impl View for Proposal {
    type V = ProposalView;

    closed spec fn view(&self) -> ProposalView {
        ProposalView {
            batch: self.batch@,
            signatures: signatures_of(signature_entries(self.signatures)),
        }
    }
}

/// The coordinator of one validator.
pub struct Primary {
    committee: Committee,
    account: Account,
    storage: Storage,
    num_workers: u8,
    proposed_batch: Option<Proposal>,
    pending: Pending,
    signed: Vec<SignedRecord>,
}

/// The state of the coordinator.
#[verifier::ext_equal]
pub struct PrimaryView {
    /// The committee of the current round.
    pub committee: CommitteeView,
    /// The validator's own address.
    pub address: Address,
    pub storage: StorageView,
    pub num_workers: u8,
    /// The slot for the batch that is being proposed.
    pub proposed: Option<ProposalView>,
    /// The certificates asked for and not yet received.
    pub pending: Map<Field, PendingRequest>,
    /// The batches of others that were signed, for the rounds still in reach.
    pub signed: Seq<SignedRecord>,
}

impl PrimaryView {
    /// The current round.
    pub open spec fn round(self) -> u64 {
        self.committee.round
    }

    /// What holds of every state that the coordinator reaches.
    pub open spec fn inv(self) -> bool {
        // A proposed batch is this validator's own, for the current round,
        // and carries its valid signature; no signature is held twice.
        &&& self.proposed is Some ==> {
            &&& self.proposed->0.batch.header.round == self.round()
            &&& self.proposed->0.batch.header.author == self.address
            &&& header_well_formed(self.proposed->0.batch.header)
            &&& distinct_keys(self.proposed->0.signatures)
        }
        // A request is no older than storage keeps rounds.
        &&& forall|id: Field| #[trigger]
            self.pending.contains_key(id) ==> self.pending[id].round <= self.round()
                <= self.pending[id].round + self.storage.max_gc_rounds
        // At most one batch was signed for a round and an author.
        &&& distinct_records(self.signed)
    }

    /// Whether the batch with this id is the one in the slot.
    pub open spec fn proposes(self, batch_id: Field) -> bool {
        self.proposed is Some && self.proposed->0.batch.header.batch_id == batch_id
    }

    /// The signatures for the proposed batch once `signed` has come in.
    pub open spec fn signatures_with(self, signed: BatchSignature) -> Seq<(Signature, i64)> {
        with_entry(self.proposed->0.signatures, signed.signature, signed.timestamp)
    }

    /// The certificate that the proposed batch and its signatures make once
    /// `signed` has come in.
    pub open spec fn candidate_certificate(self, signed: BatchSignature) -> BatchCertificateView {
        BatchCertificateView {
            header: self.proposed->0.batch.header,
            signatures: self.signatures_with(signed),
        }
    }

    /// What becomes of the signature `signed` that the peer at `peer_address`
    /// sent, at the time `now`.
    pub open spec fn signature_verdict(
        self,
        peer_address: Option<Address>,
        signed: BatchSignature,
        now: i64,
    ) -> SignatureVerdict {
        if !self.proposes(signed.batch_id) {
            if self.storage.contains_batch(signed.batch_id) {
                SignatureVerdict::AlreadyCertified
            } else {
                SignatureVerdict::UnknownBatch
            }
        } else if peer_address is None {
            SignatureVerdict::DisconnectedPeer
        } else if !self.committee.has_member(peer_address->0) {
            SignatureVerdict::NotCommitteeMember
        } else if !signature_verifies(
            signed.signature,
            peer_address->0,
            signed.batch_id,
            signed.timestamp,
        ) {
            SignatureVerdict::InvalidSignature
        } else if self.expired_at(now) {
            SignatureVerdict::Expired
        } else if !self.committee.quorum_reached(self.candidate_certificate(signed).signers()) {
            SignatureVerdict::Added
        } else if !self.candidate_certificate(signed).well_formed() {
            SignatureVerdict::CertificateFailed
        } else if self.storage.contains_certificate(
            self.candidate_certificate(signed).certificate_id(),
        ) {
            SignatureVerdict::DuplicateCertificate
        } else {
            SignatureVerdict::Certified
        }
    }

    /// The state after the signature `signed` of the peer at `peer_address`
    /// was dealt with at the time `now`.
    pub open spec fn after_signature(
        self,
        peer_address: Option<Address>,
        signed: BatchSignature,
        now: i64,
    ) -> PrimaryView {
        match self.signature_verdict(peer_address, signed, now) {
            SignatureVerdict::Added => PrimaryView {
                proposed: Some(
                    ProposalView {
                        batch: self.proposed->0.batch,
                        signatures: self.signatures_with(signed),
                    },
                ),
                ..self
            },
            SignatureVerdict::Expired
            | SignatureVerdict::CertificateFailed
            | SignatureVerdict::DuplicateCertificate => self.cleared(),
            SignatureVerdict::Certified => (PrimaryView {
                storage: self.storage.with_certificate(self.candidate_certificate(signed)),
                ..self
            }).advanced(),
            _ => self,
        }
    }

    /// The round before the current one.
    pub open spec fn previous_round(self) -> u64 {
        round_before(self.round())
    }

    /// The certificates of the round before, as stored.
    pub open spec fn previous_certificates(self) -> Seq<BatchCertificateView> {
        self.storage.certificates_for_round(self.previous_round())
    }

    /// Whether a batch is to be proposed now: the slot is empty, and the
    /// round before is the first or the authors of its certificates hold a
    /// quorum of its committee. An error where that committee is not stored.
    pub open spec fn readiness(self) -> Result<bool, PrimaryError> {
        if self.proposed is Some {
            Ok(false)
        } else if self.previous_round() == 0 {
            Ok(true)
        } else {
            match self.storage.get_committee_for_round(self.previous_round()) {
                None => Err(PrimaryError::UnknownPreviousCommittee { round: self.round() }),
                Some(committee) => Ok(
                    committee.quorum_reached(certificate_authors(self.previous_certificates())),
                ),
            }
        }
    }

    /// The id of the batch that is proposed at `now` from what the workers
    /// handed over, where one can be derived.
    pub open spec fn draft_id(self, drained: Seq<Seq<TransmissionView>>, now: i64) -> Option<
        Field,
    > {
        batch_id_of(
            self.address,
            self.round(),
            now,
            self.committee.id,
            ids_of(first_occurrences(concat_all(drained))),
            certificate_ids(self.previous_certificates()),
        )
    }

    /// What a batch proposed at `now` holds, from what the workers handed
    /// over, with the id that derives from it.
    pub open spec fn draft(self, drained: Seq<Seq<TransmissionView>>, now: i64) -> BatchDraftView {
        BatchDraftView {
            batch_id: self.draft_id(drained, now)->0,
            author: self.address,
            round: self.round(),
            timestamp: now,
            committee_id: self.committee.id,
            transmissions: first_occurrences(concat_all(drained)),
            previous_certificate_ids: certificate_ids(self.previous_certificates()),
        }
    }

    /// What is drafted at `now` from what the workers handed over: nothing
    /// where nothing is to be proposed now, an error where no id can be
    /// derived.
    pub open spec fn drafted(self, drained: Seq<Seq<TransmissionView>>, now: i64) -> Result<
        Option<BatchDraftView>,
        PrimaryError,
    > {
        match self.readiness() {
            Err(error) => Err(error),
            Ok(false) => Ok(None),
            Ok(true) => if self.draft_id(drained, now) is Some {
                Ok(Some(self.draft(drained, now)))
            } else {
                Err(PrimaryError::BatchIdFailed { round: self.round() })
            },
        }
    }

    /// Whether `draft` fits the state: it is for the current round and
    /// committee, by this validator, on the certificates of the round before,
    /// and its id derives from what it says.
    pub open spec fn fits(self, draft: BatchDraftView) -> bool {
        &&& draft.round == self.round()
        &&& draft.author == self.address
        &&& draft.committee_id == self.committee.id
        &&& draft.previous_certificate_ids == certificate_ids(self.previous_certificates())
        &&& batch_id_of(
            draft.author,
            draft.round,
            draft.timestamp,
            draft.committee_id,
            ids_of(draft.transmissions),
            draft.previous_certificate_ids,
        ) == Some(draft.batch_id)
    }

    /// Whether `draft` goes into the slot with `signature`: `Ok(false)` where
    /// nothing is to be proposed now.
    pub open spec fn proposal_verdict(
        self,
        draft: BatchDraftView,
        signature: Option<Signature>,
    ) -> Result<bool, PrimaryError> {
        match self.readiness() {
            Err(error) => Err(error),
            Ok(false) => Ok(false),
            Ok(true) => if !self.fits(draft) {
                Err(PrimaryError::StaleDraft { round: draft.round })
            } else if !(signature is Some && signature_verifies(
                signature->0,
                self.address,
                draft.batch_id,
                draft.timestamp,
            )) {
                Err(PrimaryError::SigningFailed)
            } else {
                Ok(true)
            },
        }
    }

    /// Whether proposing `draft` with `signature` answers `header` and leaves
    /// the state `after`.
    pub open spec fn proposes_as(
        self,
        draft: BatchDraftView,
        signature: Option<Signature>,
        header: Result<Option<BatchHeaderView>, PrimaryError>,
        after: PrimaryView,
    ) -> bool {
        match self.proposal_verdict(draft, signature) {
            Err(error) => header == Err::<Option<BatchHeaderView>, PrimaryError>(error) && after
                == self,
            Ok(false) => header == Ok::<Option<BatchHeaderView>, PrimaryError>(None) && after
                == self,
            Ok(true) => header == Ok::<Option<BatchHeaderView>, PrimaryError>(
                Some(draft.header(signature->0)),
            ) && after == self.with_proposal(draft, signature->0),
        }
    }

    /// Whether proposing at `now` what the workers handed over, with the
    /// `signature` made on the draft, answers `header` and leaves the state
    /// `after`.
    pub open spec fn proposes_from(
        self,
        drained: Seq<Seq<TransmissionView>>,
        now: i64,
        signature: Option<Signature>,
        header: Result<Option<BatchHeaderView>, PrimaryError>,
        after: PrimaryView,
    ) -> bool {
        match self.drafted(drained, now) {
            Err(error) => header == Err::<Option<BatchHeaderView>, PrimaryError>(error) && after
                == self,
            Ok(None) => header == Ok::<Option<BatchHeaderView>, PrimaryError>(None) && after
                == self,
            Ok(Some(draft)) => self.proposes_as(draft, signature, header, after),
        }
    }

    /// The state with the batch of `draft` in the slot, no signature of a
    /// peer with it yet.
    pub open spec fn with_proposal(
        self,
        draft: BatchDraftView,
        signature: Signature,
    ) -> PrimaryView {
        PrimaryView {
            proposed: Some(
                ProposalView {
                    batch: BatchView {
                        header: draft.header(signature),
                        transmissions: draft.transmissions,
                    },
                    signatures: Seq::empty(),
                },
            ),
            ..self
        }
    }

    /// Whether a proposal with `header` is let in: `Ok(true)` where its batch
    /// is stored already and nothing is to be done, an error where the header
    /// is not validly signed, the batch is stored and lies more than two
    /// rounds off, or the round lies too far ahead.
    pub open spec fn admission(self, header: BatchHeaderView) -> Result<bool, PrimaryError> {
        if !header_well_formed(header) {
            Err(PrimaryError::InvalidHeader { batch_id: header.batch_id })
        } else if self.storage.contains_batch(header.batch_id) {
            if self.round() - header.round > 2 || header.round - self.round() > 2 {
                Err(PrimaryError::BatchAlreadyProcessed { round: header.round })
            } else {
                Ok(true)
            }
        } else if self.round() + self.storage.max_gc_rounds <= header.round {
            Err(PrimaryError::RoundTooFarInFuture { round: header.round })
        } else {
            Ok(false)
        }
    }

    /// The certificates to ask for when a proposal with `header` is let in:
    /// those that it builds on and that are missing, where its round lies
    /// ahead.
    pub open spec fn admission_requests(self, header: BatchHeaderView) -> Seq<Field> {
        if self.admission(header) == Ok::<bool, PrimaryError>(false) && self.round()
            < header.round {
            certificates_to_request(header.previous_certificate_ids, self.storage, self.pending)
        } else {
            Seq::empty()
        }
    }

    /// The state with a request to `peer` open for each of `ids`.
    pub open spec fn requesting(self, ids: Seq<Field>, peer: PeerAddr) -> PrimaryView {
        PrimaryView { pending: with_requests(self.pending, ids, peer, self.round()), ..self }
    }

    /// Whether a proposal with `header` may be signed as far as its round,
    /// author and timestamp go, at the time `now`.
    pub open spec fn validation(self, header: BatchHeaderView, now: i64) -> Result<
        (),
        PrimaryError,
    > {
        if self.round() > header.round + 1 {
            Err(
                PrimaryError::RoundTooOld { round: header.round, committee_round: self.round() },
            )
        } else if !self.committee.has_member(header.author) {
            Err(PrimaryError::NotCommitteeMember { author: header.author })
        } else if header.timestamp > now + MAX_TIMESTAMP_DELTA_IN_SECS {
            Err(PrimaryError::TimestampTooFarInFuture { timestamp: header.timestamp })
        } else {
            Ok(())
        }
    }

    /// The transmissions to fetch for a proposal with `header` that is valid
    /// at `now`: those that are missing, unless the batch is of the first
    /// round.
    pub open spec fn validation_transmissions(self, header: BatchHeaderView, now: i64) -> Seq<
        TransmissionId,
    > {
        if self.validation(header, now) is Ok && header.round > 1 {
            missing_transmissions(header.transmission_ids, self.storage)
        } else {
            Seq::empty()
        }
    }

    /// The certificates to ask for, likewise.
    pub open spec fn validation_requests(self, header: BatchHeaderView, now: i64) -> Seq<Field> {
        if self.validation(header, now) is Ok && header.round > 1 {
            certificates_to_request(header.previous_certificate_ids, self.storage, self.pending)
        } else {
            Seq::empty()
        }
    }

    /// What stands against signing the batch of `header`, if anything: a
    /// fault of the certificates that it builds on, unless it is of the first
    /// round, or that a batch of its author was signed for its round before.
    pub open spec fn endorsement_fault(self, header: BatchHeaderView) -> Option<PrimaryError> {
        let fault = if header.round > 1 {
            previous_certificates_fault(
                self.storage,
                header.previous_certificate_ids,
                header.round,
            )
        } else {
            None
        };
        if fault is Some {
            fault
        } else if signed_for(self.signed, header.round, header.author) {
            Some(PrimaryError::AlreadySigned { round: header.round, author: header.author })
        } else {
            None
        }
    }

    /// What signing the batch of `header` at `timestamp` answers, given the
    /// `signature` that was made: the fault that stands against it, or that
    /// the signature is not this validator's valid one, or the signature with
    /// the batch id and the time.
    pub open spec fn endorsement(
        self,
        header: BatchHeaderView,
        timestamp: i64,
        signature: Option<Signature>,
    ) -> Result<BatchSignature, PrimaryError> {
        match self.endorsement_fault(header) {
            Some(error) => Err(error),
            None => if signature is Some && signature_verifies(
                signature->0,
                self.address,
                header.batch_id,
                timestamp,
            ) {
                Ok(
                    BatchSignature {
                        batch_id: header.batch_id,
                        signature: signature->0,
                        timestamp,
                    },
                )
            } else {
                Err(PrimaryError::SigningFailed)
            },
        }
    }

    /// The state after signing the batch of `header`: where a signature went
    /// out, that is on record.
    pub open spec fn after_endorsement(
        self,
        header: BatchHeaderView,
        timestamp: i64,
        signature: Option<Signature>,
    ) -> PrimaryView {
        if self.endorsement(header, timestamp, signature) is Ok {
            PrimaryView {
                signed: self.signed.push(
                    SignedRecord {
                        round: header.round,
                        author: header.author,
                        batch_id: header.batch_id,
                    },
                ),
                ..self
            }
        } else {
            self
        }
    }

    /// The committee that speaks for `round`: the one stored for it, or the
    /// current one where none is stored.
    pub open spec fn committee_at(self, round: u64) -> CommitteeView {
        match self.storage.get_committee_for_round(round) {
            Some(committee) => committee,
            None => self.committee,
        }
    }

    /// The certificates to ask for before `certificate` is taken in: those
    /// that it builds on and that are missing, where the round before its own
    /// is still kept.
    pub open spec fn certificate_requests(self, certificate: BatchCertificateView) -> Seq<Field> {
        if certificate.header.round > self.storage.gc_round + 1 {
            certificates_to_request(
                certificate.header.previous_certificate_ids,
                self.storage,
                self.pending,
            )
        } else {
            Seq::empty()
        }
    }

    /// Whether `certificate` is to be stored: `Ok(false)` where its round is
    /// no longer kept or it is stored already; an error where the author is
    /// no member of the committee of its round, the
    /// author and signers hold no quorum of it, or, where the round before is
    /// still kept, the certificates that it builds on are at fault.
    pub open spec fn certificate_verdict(self, certificate: BatchCertificateView) -> Result<
        bool,
        PrimaryError,
    > {
        let round = certificate.header.round;
        if round <= self.storage.gc_round {
            Ok(false)
        } else if self.storage.contains_certificate(certificate.certificate_id()) {
            Ok(false)
        } else if !self.committee_at(round).has_member(certificate.header.author) {
            Err(PrimaryError::NotCommitteeMember { author: certificate.header.author })
        } else if !self.committee_at(round).quorum_reached(certificate.signers()) {
            Err(PrimaryError::QuorumNotReached { round })
        } else if round > self.storage.gc_round + 1 {
            match previous_certificates_fault(
                self.storage,
                certificate.header.previous_certificate_ids,
                round,
            ) {
                Some(error) => Err(error),
                None => Ok(true),
            }
        } else {
            Ok(true)
        }
    }

    /// The state once the committee has moved on, round by round, until it
    /// stands at `round` or beyond.
    pub open spec fn advanced_to(self, round: u64) -> PrimaryView
        decreases round - self.round(),
    {
        if self.round() < round {
            self.advanced().advanced_to(round)
        } else {
            self
        }
    }

    /// The state after `certificate` was dealt with: where it is to be
    /// stored, it is stored and the committee moves on to its round.
    pub open spec fn after_certificate(self, certificate: BatchCertificateView) -> PrimaryView {
        if self.certificate_verdict(certificate) == Ok::<bool, PrimaryError>(true) {
            (PrimaryView {
                storage: self.storage.with_certificate(certificate),
                ..self
            }).advanced_to(certificate.header.round)
        } else {
            self
        }
    }

    /// Whether the proposed batch has waited too long at `now`.
    pub open spec fn expired_at(self, now: i64) -> bool {
        self.proposed is Some && now - self.proposed->0.batch.header.timestamp
            > MAX_EXPIRATION_TIME_IN_SECS
    }

    /// The state with the slot empty.
    pub open spec fn cleared(self) -> PrimaryView {
        PrimaryView { proposed: None, ..self }
    }

    /// The state after the check for expiration at `now`.
    pub open spec fn after_expiration(self, now: i64) -> PrimaryView {
        if self.expired_at(now) {
            self.cleared()
        } else {
            self
        }
    }

    /// The state in the next round: the committee moves on and is stored, the
    /// slot is emptied, and the requests and the records of signing that have
    /// fallen out of reach are dropped.
    pub open spec fn advanced(self) -> PrimaryView {
        let next = self.committee.next();
        PrimaryView {
            committee: next,
            address: self.address,
            storage: self.storage.with_committee(next),
            num_workers: self.num_workers,
            proposed: None,
            pending: requests_since(
                self.pending,
                oldest_kept(next.round, self.storage.max_gc_rounds),
            ),
            signed: self.signed.filter(|record: SignedRecord| record.round + 1 >= next.round),
        }
    }
}

impl View for Primary {
    type V = PrimaryView;

    closed spec fn view(&self) -> PrimaryView {
        PrimaryView {
            committee: self.committee@,
            address: self.account.spec_address(),
            storage: self.storage@,
            num_workers: self.num_workers,
            proposed: match self.proposed_batch {
                Some(proposal) => Some(proposal@),
                None => None,
            },
            pending: self.pending@,
            signed: self.signed@,
        }
    }
}

impl Primary {
    /// The parts are valid each, and together they meet
    /// [`PrimaryView::inv`].
    pub closed spec fn wf(&self) -> bool {
        &&& self.committee.wf()
        &&& self.account.wf()
        &&& self.storage.wf()
        &&& self.pending.wf()
        &&& self.proposed_batch is Some ==> self.proposed_batch->0.batch.wf()
        &&& self@.inv()
    }

    /// The seed of the private key that the coordinator signs with.
    pub closed spec fn spec_seed(&self) -> Field {
        self.account.spec_seed()
    }

    /// A valid coordinator meets the invariant, and its parts are valid.
    pub proof fn lemma_wf(&self)
        requires
            self.wf(),
        ensures
            self@.inv(),
            self@.committee.wf(),
            self@.storage.wf(),
            crate::crypto::address_of_seed(self.spec_seed()) == Some(self@.address),
    {
    }

    /// A coordinator at the round of `committee`, with nothing proposed, asked
    /// for or signed. The committee is stored for its round.
    pub fn new(
        committee: Committee,
        storage: Storage,
        account: Account,
        num_workers: u8,
    ) -> (primary: Primary)
        requires
            committee.wf(),
            storage.wf(),
            account.wf(),
        ensures
            primary.wf(),
            primary@ == (PrimaryView {
                committee: committee@,
                address: account.spec_address(),
                storage: storage@.with_committee(committee@),
                num_workers,
                proposed: None,
                pending: Map::empty(),
                signed: Seq::empty(),
            }),
            primary.spec_seed() == account.spec_seed(),
    {
        let mut storage = storage;
        storage.insert_committee(committee.duplicate());
        Primary {
            committee,
            account,
            storage,
            num_workers,
            proposed_batch: None,
            pending: Pending::new(),
            signed: Vec::new(),
        }
    }

    /// The committee of the current round.
    pub fn committee(&self) -> (committee: &Committee)
        ensures
            committee@ == self@.committee,
            self.wf() ==> committee.wf(),
    {
        &self.committee
    }

    /// The storage.
    pub fn storage(&self) -> (storage: &Storage)
        ensures
            storage@ == self@.storage,
            self.wf() ==> storage.wf(),
    {
        &self.storage
    }

    /// The validator's own account.
    pub fn account(&self) -> (account: &Account)
        ensures
            account.spec_address() == self@.address,
            account.spec_seed() == self.spec_seed(),
    {
        &self.account
    }

    /// The number of workers.
    pub fn num_workers(&self) -> (count: u8)
        ensures
            count == self@.num_workers,
    {
        self.num_workers
    }

    /// The batch that is being proposed, if any.
    pub fn proposed_batch(&self) -> (batch: Option<Batch>)
        ensures
            match batch {
                Some(b) => self@.proposed is Some && b@ == self@.proposed->0.batch,
                None => self@.proposed is None,
            },
    {
        match &self.proposed_batch {
            Some(proposal) => Some(proposal.batch.duplicate()),
            None => None,
        }
    }

    /// The signatures that have come in for the proposed batch, in the order
    /// in which they came; none where nothing is proposed.
    pub fn proposed_signatures(&self) -> (signatures: Vec<(Signature, i64)>)
        ensures
            signatures@ == match self@.proposed {
                Some(proposal) => proposal.signatures,
                None => Seq::empty(),
            },
    {
        match &self.proposed_batch {
            Some(proposal) => gathered_signatures(&proposal.signatures),
            None => Vec::new(),
        }
    }

    /// The requests for certificates that are open.
    pub fn pending(&self) -> (pending: &Pending)
        ensures
            pending@ == self@.pending,
            self.wf() ==> pending.wf(),
    {
        &self.pending
    }

    /// The transmissions that `header` lists and that are not at hand, in the
    /// header's order: those that are to be fetched from the peer.
    pub fn fetch_missing_transmissions(&self, header: &BatchHeader) -> (missing: Vec<
        TransmissionId,
    >)
        ensures
            missing@ == missing_transmissions(header@.transmission_ids, self@.storage),
    {
        let ghost ids = header@.transmission_ids;
        let ghost storage = self@.storage;
        let ghost lacking = |id: TransmissionId| !storage.transmissions.contains(id);
        let mut missing: Vec<TransmissionId> = Vec::new();
        let mut i: usize = 0;
        proof {
            lemma_filter_empty(ids, lacking);
        }
        while i < header.transmission_ids.len()
            invariant
                0 <= i <= header.transmission_ids.len(),
                ids == header@.transmission_ids,
                storage == self@.storage,
                lacking == |id: TransmissionId| !storage.transmissions.contains(id),
                missing@ == ids.take(i as int).filter(lacking),
            decreases header.transmission_ids.len() - i,
        {
            proof {
                lemma_filter_step(ids, lacking, i as int);
            }
            let id: TransmissionId = header.transmission_ids[i];
            if !self.storage.contains_transmission(id) {
                missing.push(id);
            }
            i += 1;
        }
        assert(ids.take(ids.len() as int) =~= ids);
        missing
    }

    /// Notes that the transmission with this id is at hand: a worker has
    /// taken it in or fetched it.
    pub fn insert_transmission(&mut self, id: TransmissionId)
        requires
            old(self).wf(),
        ensures
            final(self).wf(),
            final(self).spec_seed() == old(self).spec_seed(),
            final(self)@ == (PrimaryView {
                storage: old(self)@.storage.with_transmission(id),
                ..old(self)@
            }),
    {
        let ghost before = self@;
        self.storage.insert_transmission(id);
        assert(self@ =~= PrimaryView { storage: before.storage.with_transmission(id), ..before });
    }

    /// The place of worker `worker_id` among the workers.
    pub fn worker_index(&self, worker_id: u8) -> (index: Result<usize, PrimaryError>)
        ensures
            index == if worker_id < self@.num_workers {
                Ok::<usize, PrimaryError>(worker_id as usize)
            } else {
                Err::<usize, PrimaryError>(PrimaryError::UnknownWorker { worker_id })
            },
    {
        if worker_id < self.num_workers {
            Ok(worker_id as usize)
        } else {
            Err(PrimaryError::UnknownWorker { worker_id })
        }
    }

    /// Opens a request to `peer` for each certificate that `header` builds on
    /// and that is neither stored nor asked for already. Returns their ids, in
    /// the header's order: those that are to be asked of the peer.
    pub fn fetch_missing_certificates(
        &mut self,
        peer: PeerAddr,
        header: &BatchHeader,
    ) -> (requested: Vec<Field>)
        requires
            old(self).wf(),
        ensures
            final(self).wf(),
            final(self).spec_seed() == old(self).spec_seed(),
            requested@ == certificates_to_request(
                header@.previous_certificate_ids,
                old(self)@.storage,
                old(self)@.pending,
            ),
            final(self)@ == (PrimaryView {
                pending: with_requests(
                    old(self)@.pending,
                    requested@,
                    peer,
                    old(self)@.round(),
                ),
                ..old(self)@
            }),
    {
        let ghost before = self@;
        let ghost ids = header@.previous_certificate_ids;
        let round: u64 = self.committee.round();
        let mut requested: Vec<Field> = Vec::new();
        let mut i: usize = 0;
        assert(self@ =~= PrimaryView {
            pending: with_requests(before.pending, requested@, peer, round),
            ..before
        });
        while i < header.previous_certificate_ids.len()
            invariant
                0 <= i <= header.previous_certificate_ids.len(),
                ids == header@.previous_certificate_ids,
                self.wf(),
                before == old(self)@,
                self.spec_seed() == old(self).spec_seed(),
                round == before.round(),
                requested@ == certificates_to_request(
                    ids.take(i as int),
                    before.storage,
                    before.pending,
                ),
                self@ == (PrimaryView {
                    pending: with_requests(before.pending, requested@, peer, round),
                    ..before
                }),
            decreases header.previous_certificate_ids.len() - i,
        {
            let id: Field = header.previous_certificate_ids[i];
            let ghost earlier = requested@;
            proof {
                assert(ids.take(i + 1).drop_last() =~= ids.take(i as int));
                lemma_with_requests(before.pending, earlier, peer, round);
            }
            let ghost mid = self@;
            if !self.pending.contains(id) && !self.storage.contains_certificate(id) {
                self.pending.insert(id, peer, round);
                requested.push(id);
                proof {
                    let cur = self@;
                    assert(cur.pending == with_request(mid.pending, id, peer, round));
                    assert forall|k: Field| #[trigger]
                        cur.pending.contains_key(k) implies cur.pending[k].round <= cur.round()
                        <= cur.pending[k].round + cur.storage.max_gc_rounds by {
                        if k != id {
                            assert(mid.pending.contains_key(k));
                        }
                    }
                    assert(requested@.drop_last() =~= earlier);
                    assert(self@ =~= PrimaryView {
                        pending: with_requests(before.pending, requested@, peer, round),
                        ..before
                    });
                }
            }
            i += 1;
        }
        assert(ids.take(ids.len() as int) =~= ids);
        requested
    }

    /// Answers a request for a certificate: the certificate with this id, if
    /// it is stored.
    pub fn process_certificate_request(&self, certificate_id: Field) -> (certificate: Option<
        BatchCertificate,
    >)
        requires
            self.wf(),
        ensures
            match certificate {
                Some(c) => self@.storage.get_certificate(certificate_id) == Some(c@),
                None => self@.storage.get_certificate(certificate_id) is None,
            },
    {
        self.storage.get_certificate(certificate_id)
    }

    /// Takes a certificate that `peer` sent as an answer. Where this peer was
    /// asked for it, the request is closed and `true` returned: the
    /// certificate is to be taken in. Otherwise nothing changes.
    pub fn process_certificate_response(
        &mut self,
        peer: PeerAddr,
        certificate: &BatchCertificate,
    ) -> (solicited: bool)
        requires
            old(self).wf(),
        ensures
            final(self).wf(),
            final(self).spec_seed() == old(self).spec_seed(),
            solicited == asked(old(self)@.pending, certificate@.certificate_id(), peer),
            final(self)@ == if solicited {
                PrimaryView {
                    pending: old(self)@.pending.remove(certificate@.certificate_id()),
                    ..old(self)@
                }
            } else {
                old(self)@
            },
    {
        let id: Field = certificate.certificate_id();
        let ghost before = self@;
        if self.pending.contains_peer(id, peer) {
            self.pending.remove(id);
            assert(self@ =~= PrimaryView { pending: before.pending.remove(id), ..before });
            true
        } else {
            false
        }
    }

    /// Deals with the signature that a peer sent for a batch, at the time
    /// `now`. `peer_address` is the address that the peer is known by, if it
    /// is connected. The signature is added to those of the proposed batch;
    /// once the author and the signers hold a quorum the batch is certified:
    /// the certificate is stored and returned, and the next round begins.
    pub fn process_batch_signature_at(
        &mut self,
        peer_address: Option<Address>,
        batch_signature: BatchSignature,
        now: i64,
    ) -> (outcome: Result<SignatureOutcome, PrimaryError>)
        requires
            old(self).wf(),
        ensures
            final(self).wf(),
            final(self).spec_seed() == old(self).spec_seed(),
            final(self)@ == old(self)@.after_signature(peer_address, batch_signature, now),
            match outcome {
                Ok(answer) => answer.verdict() == old(self)@.signature_verdict(
                    peer_address,
                    batch_signature,
                    now,
                ) && answer.verdict() != SignatureVerdict::DuplicateCertificate,
                Err(error) => old(self)@.signature_verdict(peer_address, batch_signature, now)
                    == SignatureVerdict::DuplicateCertificate && error
                    == (PrimaryError::DuplicateCertificate {
                    certificate_id: batch_signature.batch_id,
                }),
            },
            match outcome {
                Ok(SignatureOutcome::Certified(certificate)) => certificate@ == old(
                    self
                )@.candidate_certificate(batch_signature),
                _ => true,
            },
    {
        let ghost before = self@;
        let batch_id: Field = batch_signature.batch_id;
        let signature: Signature = batch_signature.signature;
        let timestamp: i64 = batch_signature.timestamp;
        let proposes: bool = match &self.proposed_batch {
            Some(proposal) => proposal.batch.batch_id() == batch_id,
            None => false,
        };
        if !proposes {
            if self.storage.contains_batch(batch_id) {
                return Ok(SignatureOutcome::Kept(SignatureVerdict::AlreadyCertified));
            }
            return Ok(SignatureOutcome::Kept(SignatureVerdict::UnknownBatch));
        }
        let address: Address = match peer_address {
            Some(address) => address,
            None => {
                return Ok(SignatureOutcome::Kept(SignatureVerdict::DisconnectedPeer));
            },
        };
        if !self.committee.is_committee_member(address) {
            return Ok(SignatureOutcome::Kept(SignatureVerdict::NotCommitteeMember));
        }
        if !verify_signature(&signature, &address, &batch_id, timestamp) {
            return Ok(SignatureOutcome::Kept(SignatureVerdict::InvalidSignature));
        }
        if self.expire_proposed_batch(now) {
            return Ok(SignatureOutcome::Kept(SignatureVerdict::Expired));
        }
        let mut proposal: Proposal = self.proposed_batch.take().unwrap();
        let ghost entries = signature_entries(proposal.signatures);
        proof {
            lemma_signatures_with_entry(entries, signature, timestamp);
            lemma_with_entry_distinct(before.proposed->0.signatures, signature, timestamp);
        }
        insert_signature(&mut proposal.signatures, to_signature_key(&signature), timestamp);
        let signatures: Vec<(Signature, i64)> = gathered_signatures(&proposal.signatures);
        assert(signatures@ == before.signatures_with(batch_signature));
        let header: BatchHeader = proposal.batch.to_header();
        let signers: Vec<Address> = collect_signers(header.author, &signatures);
        if !self.committee.is_quorum_threshold_reached(&signers) {
            self.proposed_batch = Some(proposal);
            assert(self@ =~= before.after_signature(peer_address, batch_signature, now));
            return Ok(SignatureOutcome::Kept(SignatureVerdict::Added));
        }
        assert(self@ =~= before.cleared());
        let certificate: BatchCertificate = match BatchCertificate::new(header, signatures) {
            Some(certificate) => certificate,
            None => {
                return Ok(SignatureOutcome::Kept(SignatureVerdict::CertificateFailed));
            },
        };
        match self.storage.insert_certificate(certificate.duplicate()) {
            Ok(()) => {},
            Err(error) => {
                return Err(error);
            },
        }
        assert(self@ =~= PrimaryView {
            storage: before.storage.with_certificate(before.candidate_certificate(batch_signature)),
            ..before.cleared()
        });
        self.update_committee_to_next_round();
        assert(self@ =~= before.after_signature(peer_address, batch_signature, now));
        Ok(SignatureOutcome::Certified(certificate))
    }

    /// Reads the clock and deals with the signature that a peer sent for a
    /// batch, as [`Primary::process_batch_signature_at`] does at that time.
    pub fn process_batch_signature_from_peer(
        &mut self,
        peer_address: Option<Address>,
        batch_signature: BatchSignature,
    ) -> (outcome: Result<SignatureOutcome, PrimaryError>)
        requires
            old(self).wf(),
        ensures
            final(self).wf(),
            final(self).spec_seed() == old(self).spec_seed(),
            exists|now: i64|
                final(self)@ == old(self)@.after_signature(peer_address, batch_signature, now)
                    && match outcome {
                    Ok(answer) => answer.verdict() == old(self)@.signature_verdict(
                        peer_address,
                        batch_signature,
                        now,
                    ),
                    Err(_) => old(self)@.signature_verdict(peer_address, batch_signature, now)
                        == SignatureVerdict::DuplicateCertificate,
                },
            match outcome {
                Ok(SignatureOutcome::Certified(certificate)) => certificate@ == old(
                    self
                )@.candidate_certificate(batch_signature),
                _ => true,
            },
    {
        let at: i64 = now();
        self.process_batch_signature_at(peer_address, batch_signature, at)
    }

    /// Whether a batch is to be proposed now: the slot is empty, and the
    /// round before is the first or the authors of its certificates hold a
    /// quorum. The workers are drained only where this says `true`.
    pub fn is_ready_to_propose(&self) -> (ready: Result<bool, PrimaryError>)
        requires
            self.wf(),
        ensures
            ready == self@.readiness(),
    {
        if self.proposed_batch.is_some() {
            return Ok(false);
        }
        let round: u64 = self.committee.round();
        let previous_round: u64 = if round == 0 {
            0
        } else {
            round - 1
        };
        if previous_round == 0 {
            return Ok(true);
        }
        let committee: Committee = match self.storage.get_committee_for_round(previous_round) {
            Some(committee) => committee,
            None => {
                return Err(PrimaryError::UnknownPreviousCommittee { round });
            },
        };
        let certificates: Vec<BatchCertificate> = self.storage.get_certificates_for_round(
            previous_round,
        );
        let authors: Vec<Address> = authors_of(&certificates);
        Ok(committee.is_quorum_threshold_reached(&authors))
    }

    /// One tick of the proposer at the time `now`: a proposal that has waited
    /// too long is given up, and the answer says whether a batch is to be
    /// proposed now. The workers are drained only where it says `true`.
    pub fn tick_at(&mut self, now: i64) -> (ready: Result<bool, PrimaryError>)
        requires
            old(self).wf(),
        ensures
            final(self).wf(),
            final(self).spec_seed() == old(self).spec_seed(),
            final(self)@ == old(self)@.after_expiration(now),
            ready == old(self)@.after_expiration(now).readiness(),
    {
        self.expire_proposed_batch(now);
        self.is_ready_to_propose()
    }

    /// One tick of the proposer at the time that the clock shows, as
    /// [`Primary::tick_at`] does for that time.
    pub fn tick(&mut self) -> (ready: Result<bool, PrimaryError>)
        requires
            old(self).wf(),
        ensures
            final(self).wf(),
            final(self).spec_seed() == old(self).spec_seed(),
            exists|now: i64|
                final(self)@ == old(self)@.after_expiration(now) && ready == old(
                    self
                )@.after_expiration(now).readiness(),
    {
        let at: i64 = now();
        self.tick_at(at)
    }

    /// Drafts the batch that is proposed at `now`, from what the workers handed
    /// over, one list for each worker in the order of their ids. `None` where
    /// nothing is to be proposed now.
    pub fn prepare_batch_at(&self, drained: &Vec<Vec<Transmission>>, now: i64) -> (draft: Result<
        Option<BatchDraft>,
        PrimaryError,
    >)
        requires
            self.wf(),
        ensures
            drafted_view(draft) == self@.drafted(drained_views(drained@), now),
    {
        match self.is_ready_to_propose() {
            Err(error) => {
                return Err(error);
            },
            Ok(false) => {
                return Ok(None);
            },
            Ok(true) => {},
        }
        let round: u64 = self.committee.round();
        let previous_round: u64 = if round == 0 {
            0
        } else {
            round - 1
        };
        let certificates: Vec<BatchCertificate> = self.storage.get_certificates_for_round(
            previous_round,
        );
        let author: Address = self.account.address();
        let committee_id: Field = self.committee.id();
        let transmissions: Vec<Transmission> = union_transmissions(drained);
        let transmission_ids: Vec<TransmissionId> = ids_of_transmissions(&transmissions);
        let previous_certificate_ids: Vec<Field> = ids_of_certificates(&certificates);
        let derived: Option<Field> = derive_batch_id(
            &author,
            round,
            now,
            &committee_id,
            &transmission_ids,
            &previous_certificate_ids,
        );
        let batch_id: Field = match derived {
            Some(batch_id) => batch_id,
            None => {
                return Err(PrimaryError::BatchIdFailed { round });
            },
        };
        let draft = BatchDraft {
            batch_id,
            author,
            round,
            timestamp: now,
            committee_id,
            transmissions,
            previous_certificate_ids,
        };
        assert(draft@ =~= self@.draft(drained_views(drained@), now));
        Ok(Some(draft))
    }

    /// Puts the batch of `draft` into the slot, with the author's
    /// `signature`, and returns its header: the proposal that is to be sent to
    /// all. `Ok(None)` where nothing is to be proposed now, as when the slot is
    /// taken. The signature has to be this validator's own, on the id and the
    /// timestamp of the draft.
    pub fn propose_signed_batch(
        &mut self,
        draft: BatchDraft,
        signature: Option<Signature>,
    ) -> (header: Result<Option<BatchHeader>, PrimaryError>)
        requires
            old(self).wf(),
        ensures
            final(self).wf(),
            final(self).spec_seed() == old(self).spec_seed(),
            old(self)@.proposes_as(draft@, signature, announced(header), final(self)@),
    {
        let ghost before = self@;
        match self.is_ready_to_propose() {
            Err(error) => {
                return Err(error);
            },
            Ok(false) => {
                return Ok(None);
            },
            Ok(true) => {},
        }
        let round: u64 = self.committee.round();
        let previous_round: u64 = if round == 0 {
            0
        } else {
            round - 1
        };
        let certificates: Vec<BatchCertificate> = self.storage.get_certificates_for_round(
            previous_round,
        );
        let previous_ids: Vec<Field> = ids_of_certificates(&certificates);
        let address: Address = self.account.address();
        if draft.round != round || draft.author != address || draft.committee_id
            != self.committee.id() || !same_fields(&draft.previous_certificate_ids, &previous_ids) {
            return Err(PrimaryError::StaleDraft { round: draft.round });
        }
        let transmission_ids: Vec<TransmissionId> = ids_of_transmissions(&draft.transmissions);
        let derived: Option<Field> = derive_batch_id(
            &draft.author,
            draft.round,
            draft.timestamp,
            &draft.committee_id,
            &transmission_ids,
            &draft.previous_certificate_ids,
        );
        match derived {
            Some(batch_id) => {
                if batch_id != draft.batch_id {
                    return Err(PrimaryError::StaleDraft { round: draft.round });
                }
            },
            None => {
                return Err(PrimaryError::StaleDraft { round: draft.round });
            },
        }
        let signature: Signature = match signature {
            Some(signature) => signature,
            None => {
                return Err(PrimaryError::SigningFailed);
            },
        };
        if !verify_signature(&signature, &address, &draft.batch_id, draft.timestamp) {
            return Err(PrimaryError::SigningFailed);
        }
        let header = BatchHeader {
            batch_id: draft.batch_id,
            author: draft.author,
            round: draft.round,
            timestamp: draft.timestamp,
            committee_id: draft.committee_id,
            transmission_ids,
            previous_certificate_ids: draft.previous_certificate_ids,
            signature,
        };
        let announced: BatchHeader = header.duplicate();
        let batch: Batch = Batch::new(header, draft.transmissions).unwrap();
        let signatures = new_signature_map();
        assert(signatures_of(signature_entries(signatures)) =~= Seq::empty());
        self.proposed_batch = Some(Proposal { batch, signatures });
        assert(self@ =~= before.with_proposal(draft@, signature));
        Ok(Some(announced))
    }

    /// Proposes at `now` a batch of what the workers handed over: drafts it as
    /// [`Primary::prepare_batch_at`] does, signs the draft with the
    /// validator's key, and puts it into the slot as
    /// [`Primary::propose_signed_batch`] does with the signature made.
    pub fn propose_batch_at(
        &mut self,
        drained: &Vec<Vec<Transmission>>,
        now: i64,
    ) -> (header: Result<Option<BatchHeader>, PrimaryError>)
        requires
            old(self).wf(),
        ensures
            final(self).wf(),
            final(self).spec_seed() == old(self).spec_seed(),
            exists|signature: Option<Signature>|
                old(self)@.proposes_from(
                    drained_views(drained@),
                    now,
                    signature,
                    announced(header),
                    final(self)@,
                ),
    {
        let draft: BatchDraft = match self.prepare_batch_at(drained, now) {
            Err(error) => {
                assert(self@.proposes_from(
                    drained_views(drained@),
                    now,
                    None,
                    announced(Err::<Option<BatchHeader>, PrimaryError>(error)),
                    self@,
                ));
                return Err(error);
            },
            Ok(None) => {
                assert(self@.proposes_from(
                    drained_views(drained@),
                    now,
                    None,
                    announced(Ok::<Option<BatchHeader>, PrimaryError>(None)),
                    self@,
                ));
                return Ok(None);
            },
            Ok(Some(draft)) => draft,
        };
        let seed: Field = self.account.seed();
        let signature: Option<Signature> = sign_with_seed(
            &seed,
            &draft.batch_id,
            draft.timestamp,
        );
        let header = self.propose_signed_batch(draft, signature);
        assert(old(self)@.proposes_from(
            drained_views(drained@),
            now,
            signature,
            announced(header),
            self@,
        ));
        header
    }

    /// Proposes a batch for the current round of what the workers handed over,
    /// one list for each worker in the order of their ids: the batch is made
    /// at the time that the clock shows, signed with the validator's key and
    /// put into the slot. Returns its header: the proposal that is to be sent
    /// to all. `Ok(None)` where nothing is to be proposed now, as when the slot
    /// is taken.
    pub fn propose_batch(&mut self, drained: &Vec<Vec<Transmission>>) -> (header: Result<
        Option<BatchHeader>,
        PrimaryError,
    >)
        requires
            old(self).wf(),
        ensures
            final(self).wf(),
            final(self).spec_seed() == old(self).spec_seed(),
            exists|now: i64, signature: Option<Signature>|
                old(self)@.proposes_from(
                    drained_views(drained@),
                    now,
                    signature,
                    announced(header),
                    final(self)@,
                ),
    {
        let at: i64 = now();
        self.propose_batch_at(drained, at)
    }

    /// Takes up the proposal that `peer` sent. A batch that is stored already
    /// is acknowledged without more; one whose round lies ahead of the
    /// committee's has the missing certificates that it builds on asked for.
    pub fn admit_batch_propose(&mut self, peer: PeerAddr, header: &BatchHeader) -> (admission:
        Result<Admission, PrimaryError>)
        requires
            old(self).wf(),
        ensures
            final(self).wf(),
            final(self).spec_seed() == old(self).spec_seed(),
            final(self)@ == old(self)@.requesting(old(self)@.admission_requests(header@), peer),
            match admission {
                Ok(Admission::Known) => old(self)@.admission(header@) == Ok::<bool, PrimaryError>(
                    true,
                ),
                Ok(Admission::Proceed(requested)) => old(self)@.admission(header@) == Ok::<
                    bool,
                    PrimaryError,
                >(false) && requested@ == old(self)@.admission_requests(header@),
                Err(error) => old(self)@.admission(header@) == Err::<bool, PrimaryError>(error),
            },
    {
        let ghost before = self@;
        assert(self@ =~= before.requesting(Seq::empty(), peer));
        if !header.is_well_formed() {
            return Err(PrimaryError::InvalidHeader { batch_id: header.batch_id });
        }
        let round: u64 = header.round;
        let committee_round: u64 = self.committee.round();
        if self.storage.contains_batch(header.batch_id) {
            let far: bool = if committee_round >= round {
                committee_round - round > 2
            } else {
                round - committee_round > 2
            };
            if far {
                return Err(PrimaryError::BatchAlreadyProcessed { round });
            }
            return Ok(Admission::Known);
        }
        if committee_round as u128 + self.storage.max_gc_rounds() as u128 <= round as u128 {
            return Err(PrimaryError::RoundTooFarInFuture { round });
        }
        if committee_round < round {
            let requested: Vec<Field> = self.fetch_missing_certificates(peer, header);
            return Ok(Admission::Proceed(requested));
        }
        Ok(Admission::Proceed(Vec::new()))
    }

    /// Checks the round, the author and the timestamp of the proposal that
    /// `peer` sent, at the time `now`. Where they are in order and the batch
    /// is not of the first round, returns the transmissions to fetch and has
    /// the missing certificates that the batch builds on asked for.
    pub fn validate_batch_propose_at(
        &mut self,
        peer: PeerAddr,
        header: &BatchHeader,
        now: i64,
    ) -> (backfill: Result<Backfill, PrimaryError>)
        requires
            old(self).wf(),
        ensures
            final(self).wf(),
            final(self).spec_seed() == old(self).spec_seed(),
            final(self)@ == old(self)@.requesting(
                old(self)@.validation_requests(header@, now),
                peer,
            ),
            match backfill {
                Ok(fetch) => old(self)@.validation(header@, now) is Ok && fetch.transmissions@
                    == old(self)@.validation_transmissions(header@, now) && fetch.certificates@
                    == old(self)@.validation_requests(header@, now),
                Err(error) => old(self)@.validation(header@, now) == Err::<(), PrimaryError>(
                    error,
                ),
            },
    {
        let ghost before = self@;
        assert(self@ =~= before.requesting(Seq::empty(), peer));
        let round: u64 = header.round;
        let committee_round: u64 = self.committee.round();
        if committee_round as u128 > round as u128 + 1 {
            return Err(PrimaryError::RoundTooOld { round, committee_round });
        }
        if !self.committee.is_committee_member(header.author) {
            return Err(PrimaryError::NotCommitteeMember { author: header.author });
        }
        if header.timestamp as i128 > now as i128 + MAX_TIMESTAMP_DELTA_IN_SECS as i128 {
            return Err(PrimaryError::TimestampTooFarInFuture { timestamp: header.timestamp });
        }
        if round > 1 {
            let transmissions: Vec<TransmissionId> = self.fetch_missing_transmissions(header);
            let certificates: Vec<Field> = self.fetch_missing_certificates(peer, header);
            return Ok(Backfill { transmissions, certificates });
        }
        Ok(Backfill { transmissions: Vec::new(), certificates: Vec::new() })
    }

    /// Reads the clock and checks the proposal that `peer` sent, as
    /// [`Primary::validate_batch_propose_at`] does at that time.
    pub fn validate_batch_propose(&mut self, peer: PeerAddr, header: &BatchHeader) -> (backfill:
        Result<Backfill, PrimaryError>)
        requires
            old(self).wf(),
        ensures
            final(self).wf(),
            final(self).spec_seed() == old(self).spec_seed(),
            exists|now: i64|
                final(self)@ == old(self)@.requesting(
                    old(self)@.validation_requests(header@, now),
                    peer,
                ) && match backfill {
                    Ok(fetch) => old(self)@.validation(header@, now) is Ok
                        && fetch.transmissions@ == old(self)@.validation_transmissions(
                        header@,
                        now,
                    ) && fetch.certificates@ == old(self)@.validation_requests(header@, now),
                    Err(error) => old(self)@.validation(header@, now) == Err::<
                        (),
                        PrimaryError,
                    >(error),
                },
    {
        let at: i64 = now();
        self.validate_batch_propose_at(peer, header, at)
    }

    /// What is wrong with the certificates that `header` builds on, if
    /// anything: one is not stored or not of the round before, no committee
    /// is stored for that round, or their authors hold no quorum of it.
    pub fn check_previous_certificates(&self, header: &BatchHeader) -> (fault: Option<
        PrimaryError,
    >)
        requires
            self.wf(),
        ensures
            fault == previous_certificates_fault(
                self@.storage,
                header@.previous_certificate_ids,
                header@.round,
            ),
    {
        let ghost storage = self@.storage;
        let ghost ids = header@.previous_certificate_ids;
        let previous_round: u64 = if header.round == 0 {
            0
        } else {
            header.round - 1
        };
        let mut authors: Vec<Address> = Vec::new();
        let mut i: usize = 0;
        assert(authors@.to_set() =~= previous_authors(storage, ids.take(0)));
        while i < header.previous_certificate_ids.len()
            invariant
                0 <= i <= header.previous_certificate_ids.len(),
                self.wf(),
                storage == self@.storage,
                ids == header@.previous_certificate_ids,
                previous_round == round_before(header@.round),
                previous_fault(storage, ids.take(i as int), previous_round) is None,
                authors@.to_set() == previous_authors(storage, ids.take(i as int)),
            decreases header.previous_certificate_ids.len() - i,
        {
            let id: Field = header.previous_certificate_ids[i];
            proof {
                assert(ids.take(i + 1).drop_last() =~= ids.take(i as int));
                lemma_previous_fault_prefix(storage, ids, previous_round, i + 1);
            }
            let certificate: BatchCertificate = match self.storage.get_certificate(id) {
                Some(certificate) => certificate,
                None => {
                    return Some(PrimaryError::MissingPreviousCertificate { certificate_id: id });
                },
            };
            if certificate.round() != previous_round {
                return Some(PrimaryError::WrongPreviousRound { certificate_id: id });
            }
            let ghost earlier = authors@;
            authors.push(certificate.author());
            proof {
                let shorter = ids.take(i as int);
                let longer = ids.take(i + 1);
                let author = certificate@.header.author;
                assert forall|a: Address| authors@.to_set().contains(a) <==> previous_authors(
                    storage,
                    longer,
                ).contains(a) by {
                    if authors@.contains(a) {
                        let k = choose|k: int| 0 <= k < authors@.len() && authors@[k] == a;
                        if k < earlier.len() {
                            assert(earlier[k] == a);
                            assert(earlier.contains(a));
                            assert(previous_authors(storage, shorter).contains(a));
                            let m = choose|m: int|
                                0 <= m < shorter.len() && storage.get_certificate(
                                    #[trigger] shorter[m],
                                ) is Some && storage.get_certificate(shorter[m])->0.header.author
                                    == a;
                            assert(longer[m] == shorter[m]);
                        } else {
                            assert(longer[i as int] == id);
                        }
                    }
                    if previous_authors(storage, longer).contains(a) {
                        let m = choose|m: int|
                            0 <= m < longer.len() && storage.get_certificate(
                                #[trigger] longer[m],
                            ) is Some && storage.get_certificate(longer[m])->0.header.author == a;
                        if m < i {
                            assert(shorter[m] == longer[m]);
                            assert(previous_authors(storage, shorter).contains(a));
                            assert(earlier.contains(a));
                            let k = choose|k: int| 0 <= k < earlier.len() && earlier[k] == a;
                            assert(authors@[k] == a);
                        } else {
                            assert(authors@[earlier.len() as int] == a);
                        }
                    }
                }
                assert(authors@.to_set() =~= previous_authors(storage, longer));
            }
            i += 1;
        }
        assert(ids.take(ids.len() as int) =~= ids);
        let committee: Committee = match self.storage.get_committee_for_round(previous_round) {
            Some(committee) => committee,
            None => {
                return Some(PrimaryError::MissingPreviousCommittee { round: previous_round });
            },
        };
        if !committee.is_quorum_threshold_reached(&authors) {
            return Some(PrimaryError::PreviousQuorumNotReached { round: header.round });
        }
        None
    }

    /// What stands against signing the batch of `header`, if anything.
    pub fn check_batch_propose(&self, header: &BatchHeader) -> (fault: Option<PrimaryError>)
        requires
            self.wf(),
        ensures
            fault == self@.endorsement_fault(header@),
    {
        if header.round > 1 {
            match self.check_previous_certificates(header) {
                Some(error) => {
                    return Some(error);
                },
                None => {},
            }
        }
        let mut i: usize = 0;
        while i < self.signed.len()
            invariant
                0 <= i <= self.signed.len(),
                header@.round > 1 ==> previous_certificates_fault(
                    self@.storage,
                    header@.previous_certificate_ids,
                    header@.round,
                ) is None,
                forall|k: int|
                    0 <= k < i ==> !((#[trigger] self.signed@[k]).round == header.round
                        && self.signed@[k].author == header.author),
            decreases self.signed.len() - i,
        {
            if self.signed[i].round == header.round && self.signed[i].author == header.author {
                assert(self@.signed[i as int].round == header@.round);
                assert(signed_for(self@.signed, header@.round, header@.author));
                return Some(
                    PrimaryError::AlreadySigned { round: header.round, author: header.author },
                );
            }
            i += 1;
        }
        None
    }

    /// Answers the proposal of `header` with the `signature` that was made on
    /// its batch id and `timestamp`, where nothing stands against signing and
    /// the signature is this validator's valid one. That the batch was signed
    /// goes on record: no other batch of its author is signed for its round.
    pub fn endorse_batch(
        &mut self,
        header: &BatchHeader,
        timestamp: i64,
        signature: Option<Signature>,
    ) -> (answer: Result<BatchSignature, PrimaryError>)
        requires
            old(self).wf(),
        ensures
            final(self).wf(),
            final(self).spec_seed() == old(self).spec_seed(),
            answer == old(self)@.endorsement(header@, timestamp, signature),
            final(self)@ == old(self)@.after_endorsement(header@, timestamp, signature),
    {
        let ghost before = self@;
        match self.check_batch_propose(header) {
            Some(error) => {
                return Err(error);
            },
            None => {},
        }
        let signature: Signature = match signature {
            Some(signature) => signature,
            None => {
                return Err(PrimaryError::SigningFailed);
            },
        };
        let address: Address = self.account.address();
        if !verify_signature(&signature, &address, &header.batch_id, timestamp) {
            return Err(PrimaryError::SigningFailed);
        }
        let record = SignedRecord {
            round: header.round,
            author: header.author,
            batch_id: header.batch_id,
        };
        self.signed.push(record);
        proof {
            let after = self@.signed;
            assert(after == before.signed.push(record));
            assert(self@ =~= before.after_endorsement(header@, timestamp, Some(signature)));
            assert forall|i: int, j: int|
                0 <= i < after.len() && 0 <= j < after.len() && i != j implies (
            #[trigger] after[i]).round != (#[trigger] after[j]).round || after[i].author
                != after[j].author by {
                let last = before.signed.len() as int;
                if i < last && j < last {
                    assert(after[i] == before.signed[i]);
                    assert(after[j] == before.signed[j]);
                } else {
                    let other = if i < last { i } else { j };
                    assert(after[other] == before.signed[other]);
                }
            }
        }
        Ok(BatchSignature { batch_id: header.batch_id, signature, timestamp })
    }

    /// Signs the batch of `header` with the validator's key, at the time that
    /// the clock shows, where nothing stands against it, and answers as
    /// [`Primary::endorse_batch`] does with that time and signature. The
    /// answer is to be sent to the peer that proposed.
    pub fn sign_batch_propose(&mut self, header: &BatchHeader) -> (answer: Result<
        BatchSignature,
        PrimaryError,
    >)
        requires
            old(self).wf(),
        ensures
            final(self).wf(),
            final(self).spec_seed() == old(self).spec_seed(),
            exists|timestamp: i64, signature: Option<Signature>|
                answer == old(self)@.endorsement(header@, timestamp, signature) && final(self)@
                    == old(self)@.after_endorsement(header@, timestamp, signature),
    {
        match self.check_batch_propose(header) {
            Some(error) => {
                assert(Err::<BatchSignature, PrimaryError>(error) == self@.endorsement(
                    header@,
                    0,
                    None,
                ) && self@ == self@.after_endorsement(header@, 0, None));
                return Err(error);
            },
            None => {},
        }
        let timestamp: i64 = now();
        let seed: Field = self.account.seed();
        let signature: Option<Signature> = sign_with_seed(&seed, &header.batch_id, timestamp);
        self.endorse_batch(header, timestamp, signature)
    }

    /// Takes up the certificate that `peer` sent. `None` where its round is
    /// no longer kept: it is dropped. Otherwise returns the transmissions to
    /// fetch and, where the round before is still kept, has the missing
    /// certificates that it builds on asked for.
    pub fn admit_certificate(
        &mut self,
        peer: PeerAddr,
        certificate: &BatchCertificate,
    ) -> (backfill: Option<Backfill>)
        requires
            old(self).wf(),
        ensures
            final(self).wf(),
            final(self).spec_seed() == old(self).spec_seed(),
            match backfill {
                None => certificate@.header.round <= old(self)@.storage.gc_round && final(self)@
                    == old(self)@,
                Some(fetch) => certificate@.header.round > old(self)@.storage.gc_round
                    && fetch.transmissions@ == missing_transmissions(
                    certificate@.header.transmission_ids,
                    old(self)@.storage,
                ) && fetch.certificates@ == old(self)@.certificate_requests(certificate@)
                    && final(self)@ == old(self)@.requesting(
                    old(self)@.certificate_requests(certificate@),
                    peer,
                ),
            },
    {
        let ghost before = self@;
        let gc_round: u64 = self.storage.gc_round();
        let round: u64 = certificate.round();
        if round <= gc_round {
            return None;
        }
        let transmissions: Vec<TransmissionId> = self.fetch_missing_transmissions(
            certificate.batch_header(),
        );
        if round as u128 > gc_round as u128 + 1 {
            let certificates: Vec<Field> = self.fetch_missing_certificates(
                peer,
                certificate.batch_header(),
            );
            return Some(Backfill { transmissions, certificates });
        }
        assert(self@ =~= before.requesting(Seq::empty(), peer));
        Some(Backfill { transmissions, certificates: Vec::new() })
    }

    /// Stores `certificate`, once what it builds on has been fetched, and
    /// moves the committee on to its round. Returns whether it was stored:
    /// not where its round is no longer kept or it is stored already. It is
    /// refused where it is not valid.
    pub fn store_certificate(&mut self, certificate: BatchCertificate) -> (stored: Result<
        bool,
        PrimaryError,
    >)
        requires
            old(self).wf(),
        ensures
            final(self).wf(),
            final(self).spec_seed() == old(self).spec_seed(),
            certificate@.well_formed(),
            stored == old(self)@.certificate_verdict(certificate@),
            final(self)@ == old(self)@.after_certificate(certificate@),
    {
        let ghost before = self@;
        let gc_round: u64 = self.storage.gc_round();
        let round: u64 = certificate.round();
        let id: Field = certificate.certificate_id();
        if round <= gc_round {
            return Ok(false);
        }
        if self.storage.contains_certificate(id) {
            return Ok(false);
        }
        let committee: Committee = match self.storage.get_committee_for_round(round) {
            Some(committee) => committee,
            None => self.committee.duplicate(),
        };
        let author: Address = certificate.author();
        if !committee.is_committee_member(author) {
            return Err(PrimaryError::NotCommitteeMember { author });
        }
        let signers: Vec<Address> = certificate.signer_addresses();
        if !committee.is_quorum_threshold_reached(&signers) {
            return Err(PrimaryError::QuorumNotReached { round });
        }
        if round as u128 > gc_round as u128 + 1 {
            match self.check_previous_certificates(certificate.batch_header()) {
                Some(error) => {
                    return Err(error);
                },
                None => {},
            }
        }
        let ghost view = certificate@;
        match self.storage.insert_certificate(certificate) {
            Ok(()) => {},
            Err(error) => {
                return Err(error);
            },
        }
        let ghost start = self@;
        assert(start =~= PrimaryView { storage: before.storage.with_certificate(view), ..before });
        while self.committee.round() < round
            invariant
                self.wf(),
                self.spec_seed() == old(self).spec_seed(),
                self@.advanced_to(round) == start.advanced_to(round),
            decreases round - self@.round(),
        {
            self.update_committee_to_next_round();
        }
        Ok(true)
    }

    /// Moves the committee to the next round, stores it, empties the slot and
    /// drops what has fallen out of reach. Returns the new round.
    pub fn update_committee_to_next_round(&mut self) -> (round: u64)
        requires
            old(self).wf(),
        ensures
            final(self).wf(),
            final(self)@ == old(self)@.advanced(),
            final(self).spec_seed() == old(self).spec_seed(),
            round == final(self)@.round(),
            round >= old(self)@.round(),
    {
        let ghost before = self@;
        let next: Committee = self.committee.to_next_round();
        let round: u64 = next.round();
        self.storage.insert_committee(next.duplicate());
        self.committee = next;
        self.proposed_batch = None;
        let max_gc_rounds: u64 = self.storage.max_gc_rounds();
        let floor: u64 = if round >= max_gc_rounds {
            round - max_gc_rounds
        } else {
            0
        };
        self.pending.discard_before(floor);
        let ghost keep = |record: SignedRecord| record.round + 1 >= round;
        let mut kept: Vec<SignedRecord> = Vec::new();
        let mut i: usize = 0;
        proof {
            lemma_filter_empty(before.signed, keep);
        }
        while i < self.signed.len()
            invariant
                0 <= i <= self.signed.len(),
                self.signed@ == before.signed,
                keep == |record: SignedRecord| record.round + 1 >= round,
                kept@ == before.signed.take(i as int).filter(keep),
            decreases self.signed.len() - i,
        {
            proof {
                lemma_filter_step(before.signed, keep, i as int);
            }
            let record: SignedRecord = self.signed[i];
            if record.round >= round || record.round + 1 >= round {
                kept.push(record);
            }
            i += 1;
        }
        assert(before.signed.take(before.signed.len() as int) =~= before.signed);
        self.signed = kept;
        proof {
            assert(self@ =~= before.advanced());
            lemma_kept_records_distinct(before.signed, keep);
        }
        round
    }

    /// Empties the slot if the proposed batch has waited for more than
    /// [`MAX_EXPIRATION_TIME_IN_SECS`] at `now`. Returns whether it did.
    pub fn expire_proposed_batch(&mut self, now: i64) -> (expired: bool)
        requires
            old(self).wf(),
        ensures
            final(self).wf(),
            final(self)@ == old(self)@.after_expiration(now),
            final(self).spec_seed() == old(self).spec_seed(),
            expired == old(self)@.expired_at(now),
    {
        let expired: bool = match &self.proposed_batch {
            Some(proposal) => now as i128 - proposal.batch.timestamp() as i128
                > MAX_EXPIRATION_TIME_IN_SECS as i128,
            None => false,
        };
        if expired {
            self.proposed_batch = None;
        }
        assert(self@ =~= old(self)@.after_expiration(now));
        expired
    }

    /// Reads the clock and empties the slot if the proposed batch has waited
    /// too long. Returns whether it did.
    pub fn check_proposed_batch_for_expiration(&mut self) -> (expired: bool)
        requires
            old(self).wf(),
        ensures
            final(self).wf(),
            final(self).spec_seed() == old(self).spec_seed(),
            exists|now: i64|
                final(self)@ == old(self)@.after_expiration(now) && expired == old(
                    self
                )@.expired_at(now),
    {
        let at: i64 = now();
        self.expire_proposed_batch(at)
    }
}

/// The authors of `certificates`, in their order.
fn authors_of(certificates: &Vec<BatchCertificate>) -> (authors: Vec<Address>)
    ensures
        authors@.to_set() == certificate_authors(certificate_views(certificates@)),
{
    let ghost views = certificate_views(certificates@);
    let mut authors: Vec<Address> = Vec::new();
    let mut i: usize = 0;
    while i < certificates.len()
        invariant
            0 <= i <= certificates.len(),
            views == certificate_views(certificates@),
            authors@ == views.take(i as int).map_values(|c: BatchCertificateView| c.header.author),
        decreases certificates.len() - i,
    {
        authors.push(certificates[i].author());
        assert(authors@ =~= views.take(i + 1).map_values(
            |c: BatchCertificateView| c.header.author,
        ));
        i += 1;
    }
    assert(views.take(views.len() as int) =~= views);
    authors
}

/// The ids of `certificates`, in their order.
fn ids_of_certificates(certificates: &Vec<BatchCertificate>) -> (ids: Vec<Field>)
    ensures
        ids@ == certificate_ids(certificate_views(certificates@)),
{
    let ghost views = certificate_views(certificates@);
    let mut ids: Vec<Field> = Vec::new();
    let mut i: usize = 0;
    while i < certificates.len()
        invariant
            0 <= i <= certificates.len(),
            views == certificate_views(certificates@),
            ids@ == certificate_ids(views.take(i as int)),
        decreases certificates.len() - i,
    {
        ids.push(certificates[i].certificate_id());
        assert(ids@ =~= certificate_ids(views.take(i + 1)));
        i += 1;
    }
    assert(views.take(views.len() as int) =~= views);
    ids
}

/// The ids of `transmissions`, in their order.
fn ids_of_transmissions(transmissions: &Vec<Transmission>) -> (ids: Vec<TransmissionId>)
    ensures
        ids@ == ids_of(transmission_views(transmissions@)),
{
    let mut ids: Vec<TransmissionId> = Vec::new();
    let mut i: usize = 0;
    while i < transmissions.len()
        invariant
            0 <= i <= transmissions.len(),
            ids@ == ids_of(transmission_views(transmissions@)).take(i as int),
        decreases transmissions.len() - i,
    {
        ids.push(transmissions[i].id);
        assert(ids@ =~= ids_of(transmission_views(transmissions@)).take(i + 1));
        i += 1;
    }
    assert(ids@ =~= ids_of(transmission_views(transmissions@)));
    ids
}

/// Whether the two lists hold the same ids in the same order.
fn same_fields(left: &Vec<Field>, right: &Vec<Field>) -> (same: bool)
    ensures
        same == (left@ == right@),
{
    if left.len() != right.len() {
        return false;
    }
    let mut i: usize = 0;
    while i < left.len()
        invariant
            0 <= i <= left.len(),
            left.len() == right.len(),
            forall|k: int| 0 <= k < i ==> left@[k] == right@[k],
        decreases left.len() - i,
    {
        if left[i] != right[i] {
            return false;
        }
        i += 1;
    }
    assert(left@ =~= right@);
    true
}

/// The signatures held in `map`, each with its time, in the map's order.
fn gathered_signatures(map: &IndexMap<SignatureKey, i64, RandomState>) -> (signatures: Vec<
    (Signature, i64),
>)
    ensures
        signatures@ == signatures_of(signature_entries(*map)),
{
    let pairs: Vec<(SignatureKey, i64)> = signature_pairs(map);
    let mut signatures: Vec<(Signature, i64)> = Vec::new();
    let mut i: usize = 0;
    while i < pairs.len()
        invariant
            0 <= i <= pairs.len(),
            signatures@ == signatures_of(pairs@.take(i as int)),
        decreases pairs.len() - i,
    {
        let pair: (SignatureKey, i64) = pairs[i];
        signatures.push((from_signature_key(&pair.0), pair.1));
        assert(signatures@ =~= signatures_of(pairs@.take(i + 1)));
        i += 1;
    }
    assert(pairs@.take(pairs@.len() as int) =~= pairs@);
    signatures
}

/// Inserting under the key of a signature is inserting the signature.
proof fn lemma_signatures_with_entry(
    entries: Seq<(SignatureKey, i64)>,
    signature: Signature,
    timestamp: i64,
)
    requires
        distinct_keys(signatures_of(entries)),
    ensures
        distinct_keys(entries),
        signatures_of(with_entry(entries, signature_key(signature), timestamp)) == with_entry(
            signatures_of(entries),
            signature,
            timestamp,
        ),
{
    let key = signature_key(signature);
    let held = signatures_of(entries);
    assert forall|i: int, j: int|
        0 <= i < entries.len() && 0 <= j < entries.len() && i != j implies entries[i].0
        != entries[j].0 by {
        assert(held[i].0 == key_signature(entries[i].0));
        assert(held[j].0 == key_signature(entries[j].0));
    }
    if has_key(entries, key) {
        let p = place_of(entries, key);
        assert(held[p].0 == signature);
        assert(has_key(held, signature));
        let q = place_of(held, signature);
        assert(held[q].0 == key_signature(entries[q].0));
        assert(signature_key(key_signature(entries[q].0)) == entries[q].0);
        assert(p == q);
    } else {
        if has_key(held, signature) {
            let q = place_of(held, signature);
            assert(held[q].0 == key_signature(entries[q].0));
            assert(signature_key(key_signature(entries[q].0)) == entries[q].0);
            assert(entries[q].0 == key);
            assert(false);
        }
    }
    assert(signatures_of(with_entry(entries, key, timestamp)) =~= with_entry(
        held,
        signature,
        timestamp,
    ));
}

/// A prefix without a fault: the next id decides.
proof fn lemma_previous_fault_prefix(
    storage: StorageView,
    ids: Seq<Field>,
    previous_round: u64,
    n: int,
)
    requires
        0 < n <= ids.len(),
        previous_fault(storage, ids.take(n - 1), previous_round) is None,
    ensures
        previous_fault(storage, ids.take(n), previous_round) == certificate_fault(
            storage,
            ids[n - 1],
            previous_round,
        ),
        certificate_fault(storage, ids[n - 1], previous_round) is Some ==> previous_fault(
            storage,
            ids,
            previous_round,
        ) == certificate_fault(storage, ids[n - 1], previous_round),
    decreases ids.len() - n,
{
    assert(ids.take(n).drop_last() =~= ids.take(n - 1));
    if n == ids.len() {
        assert(ids.take(n) =~= ids);
    } else {
        if certificate_fault(storage, ids[n - 1], previous_round) is Some {
            lemma_fault_stays(storage, ids, previous_round, n);
        }
    }
}

/// A fault in a prefix is the fault of the whole.
proof fn lemma_fault_stays(storage: StorageView, ids: Seq<Field>, previous_round: u64, n: int)
    requires
        0 <= n <= ids.len(),
        previous_fault(storage, ids.take(n), previous_round) is Some,
    ensures
        previous_fault(storage, ids, previous_round) == previous_fault(
            storage,
            ids.take(n),
            previous_round,
        ),
    decreases ids.len() - n,
{
    if n == ids.len() {
        assert(ids.take(n) =~= ids);
    } else {
        assert(ids.take(n + 1).drop_last() =~= ids.take(n));
        lemma_fault_stays(storage, ids, previous_round, n + 1);
    }
}

/// No two records are for the same round and author.
pub open spec fn distinct_records(records: Seq<SignedRecord>) -> bool {
    forall|i: int, j: int|
        0 <= i < records.len() && 0 <= j < records.len() && i != j ==> (#[trigger] records[i]).round
            != (#[trigger] records[j]).round || records[i].author != records[j].author
}

/// What is kept of records that differ in round or author still does.
proof fn lemma_kept_records_distinct(
    records: Seq<SignedRecord>,
    keep: spec_fn(SignedRecord) -> bool,
)
    requires
        distinct_records(records),
    ensures
        distinct_records(records.filter(keep)),
{
    let key = |record: SignedRecord| (record.round, record.author);
    assert(distinct_by(records, key));
    lemma_filter_keeps_distinct(records, keep, key);
    let kept = records.filter(keep);
    assert forall|i: int, j: int|
        0 <= i < kept.len() && 0 <= j < kept.len() && i != j implies (#[trigger] kept[i]).round
        != (#[trigger] kept[j]).round || kept[i].author != kept[j].author by {
        assert(key(kept[i]) != key(kept[j]));
    }
}

} // verus!
