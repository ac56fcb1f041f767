//! What holds of the coordinator whatever messages arrive, stated over the
//! transitions of its state.

use crate::batch::{
    header_id, header_well_formed, signers_of, BatchCertificateView, BatchHeaderView,
    BatchSignature,
};
use crate::committee::{lemma_combined_stake_monotone, CommitteeView};
use crate::crypto::signature_verifies;
use crate::error::PrimaryError;
use crate::ordered_map::{distinct_keys, has_key, place_of, with_entry};
use crate::pending::{asked, PendingRequest};
use crate::primary::{
    certificates_to_request, missing_transmissions, signed_for, Primary, PrimaryView,
    SignatureVerdict,
};
use crate::proposal::BatchDraftView;
use crate::storage::{lemma_certificate_outlives_committee, StorageView};
use crate::types::{Address, Field, PeerAddr, Signature, TransmissionId};
use vstd::prelude::*;

verus! {

/// The batches that are proposed and not yet certified.
pub open spec fn in_flight(state: PrimaryView) -> Seq<Field> {
    match state.proposed {
        Some(proposal) => seq![proposal.batch.header.batch_id],
        None => Seq::empty(),
    }
}

/// From `before` to `after` the round does not go back, and where it goes on
/// the slot is empty.
pub open spec fn steps_forward(before: PrimaryView, after: PrimaryView) -> bool {
    &&& after.round() >= before.round()
    &&& after.round() > before.round() ==> after.proposed is None
}

/// The slot holds at most one batch: in every state that the coordinator
/// reaches, at most one batch is in flight, and it is this validator's own
/// batch for the current round.
pub proof fn slot_holds_at_most_one(primary: &Primary)
    requires
        primary.wf(),
    ensures
        in_flight(primary@).len() <= 1,
        primary@.proposed is Some ==> primary@.proposed->0.batch.header.round == primary@.round()
            && primary@.proposed->0.batch.header.author == primary@.address,
{
    primary.lemma_wf();
}

/// Moving on to `round` never goes back, and empties the slot where the round
/// changes.
pub proof fn advancing_steps_forward(state: PrimaryView, round: u64)
    ensures
        steps_forward(state, state.advanced_to(round)),
        steps_forward(state, state.advanced()),
        state.advanced_to(round).round() >= round || state.round() >= round,
    decreases round - state.round(),
{
    if state.round() < round {
        advancing_steps_forward(state.advanced(), round);
    }
}

/// The round never goes back, and the slot is emptied whenever it goes on:
/// this holds of every transition of the coordinator.
pub proof fn rounds_never_go_back(
    state: PrimaryView,
    peer: PeerAddr,
    peer_address: Option<Address>,
    signed: BatchSignature,
    header: BatchHeaderView,
    certificate: BatchCertificateView,
    draft: BatchDraftView,
    signature: Signature,
    made: Option<Signature>,
    ids: Seq<Field>,
    now: i64,
)
    ensures
        steps_forward(state, state.advanced()),
        steps_forward(state, state.after_expiration(now)),
        steps_forward(state, state.with_proposal(draft, signature)),
        steps_forward(state, state.requesting(ids, peer)),
        steps_forward(state, state.after_endorsement(header, now, made)),
        steps_forward(state, state.after_signature(peer_address, signed, now)),
        steps_forward(state, state.after_certificate(certificate)),
{
    advancing_steps_forward(state, certificate.header.round);
    let stored = PrimaryView { storage: state.storage.with_certificate(certificate), ..state };
    advancing_steps_forward(stored, certificate.header.round);
    let certified = PrimaryView {
        storage: state.storage.with_certificate(state.candidate_certificate(signed)),
        ..state
    };
    advancing_steps_forward(certified, 0);
}

/// No certificate of this validator's own batch is stored unless the author
/// and the signers hold a quorum of the committee of its round: a signature
/// leads to a certificate only then, and in every other case storage stays as
/// it is.
pub proof fn quorum_before_certify(
    state: PrimaryView,
    peer_address: Option<Address>,
    signed: BatchSignature,
    now: i64,
)
    requires
        state.inv(),
    ensures
        state.signature_verdict(peer_address, signed, now) == SignatureVerdict::Certified ==> {
            &&& state.committee.quorum_reached(state.candidate_certificate(signed).signers())
            &&& state.candidate_certificate(signed).header.round == state.round()
            &&& state.candidate_certificate(signed).well_formed()
        },
        state.signature_verdict(peer_address, signed, now) != SignatureVerdict::Certified
            ==> state.after_signature(peer_address, signed, now).storage == state.storage,
{
}

/// No certificate of a peer is stored unless its author is a member of the
/// committee of its round, and the author and the signers hold a quorum of
/// that committee; where it is not stored nothing changes. (A certificate
/// with a signature that is not valid cannot be made in the first place.)
pub proof fn quorum_before_store(state: PrimaryView, certificate: BatchCertificateView)
    ensures
        state.certificate_verdict(certificate) == Ok::<bool, PrimaryError>(true) ==> {
            &&& state.committee_at(certificate.header.round).has_member(
                certificate.header.author,
            )
            &&& state.committee_at(certificate.header.round).quorum_reached(certificate.signers())
        },
        state.certificate_verdict(certificate) != Ok::<bool, PrimaryError>(true)
            ==> state.after_certificate(certificate) == state,
{
}

/// Only the two ways above put a certificate into storage: asking for
/// certificates, signing a peer's batch, proposing and giving up a proposal
/// leave storage as it is.
pub proof fn storage_changes_only_by_certificates(
    state: PrimaryView,
    peer: PeerAddr,
    header: BatchHeaderView,
    draft: BatchDraftView,
    signature: Signature,
    made: Option<Signature>,
    ids: Seq<Field>,
    now: i64,
)
    ensures
        state.after_expiration(now).storage == state.storage,
        state.with_proposal(draft, signature).storage == state.storage,
        state.requesting(ids, peer).storage == state.storage,
        state.after_endorsement(header, now, made).storage == state.storage,
{
}

/// No batch is proposed while the slot is taken: nothing is then ready to be
/// proposed, and a proposal leaves the state as it is.
pub proof fn no_double_proposal(
    state: PrimaryView,
    draft: BatchDraftView,
    signature: Option<Signature>,
)
    requires
        state.proposed is Some,
    ensures
        state.readiness() == Ok::<bool, PrimaryError>(false),
        state.proposal_verdict(draft, signature) == Ok::<bool, PrimaryError>(false),
        forall|header: Result<Option<BatchHeaderView>, PrimaryError>, after: PrimaryView|
            state.proposes_as(draft, signature, header, after) ==> after == state
                && header == Ok::<Option<BatchHeaderView>, PrimaryError>(None),
{
}

/// Nothing is asked for where every certificate in `ids` is stored.
pub proof fn nothing_to_request(
    ids: Seq<Field>,
    storage: StorageView,
    pending: Map<Field, PendingRequest>,
)
    requires
        forall|i: int| 0 <= i < ids.len() ==> storage.contains_certificate(#[trigger] ids[i]),
    ensures
        certificates_to_request(ids, storage, pending) == Seq::<Field>::empty(),
    decreases ids.len(),
{
    if ids.len() > 0 {
        let rest = ids.drop_last();
        assert forall|i: int| 0 <= i < rest.len() implies storage.contains_certificate(
            #[trigger] rest[i],
        ) by {
            assert(rest[i] == ids[i]);
        }
        nothing_to_request(rest, storage, pending);
        assert(ids.last() == ids[ids.len() - 1]);
    }
}

/// Nothing is fetched where every transmission in `ids` is at hand.
pub proof fn nothing_to_fetch(ids: Seq<TransmissionId>, storage: StorageView)
    requires
        forall|i: int| 0 <= i < ids.len() ==> storage.transmissions.contains(#[trigger] ids[i]),
    ensures
        missing_transmissions(ids, storage) == Seq::<TransmissionId>::empty(),
{
    let lacking = |id: TransmissionId| !storage.transmissions.contains(id);
    crate::seq_lemmas::lemma_filter_members(ids, lacking);
    let missing = ids.filter(lacking);
    if missing.len() > 0 {
        assert(missing.contains(missing[0]));
        let k = choose|k: int| 0 <= k < ids.len() && ids[k] == missing[0];
        assert(storage.transmissions.contains(ids[k]));
    }
    assert(missing =~= Seq::<TransmissionId>::empty());
}

/// Backfill is idempotent: for a header whose transmissions are all at hand
/// and whose previous certificates are all stored, nothing is fetched,
/// nothing is asked for, and the state stays as it is.
pub proof fn backfill_is_idempotent(state: PrimaryView, header: BatchHeaderView, peer: PeerAddr)
    requires
        forall|i: int|
            0 <= i < header.transmission_ids.len() ==> state.storage.transmissions.contains(
                #[trigger] header.transmission_ids[i],
            ),
        forall|i: int|
            0 <= i < header.previous_certificate_ids.len() ==> state.storage.contains_certificate(
                #[trigger] header.previous_certificate_ids[i],
            ),
    ensures
        missing_transmissions(header.transmission_ids, state.storage) == Seq::<
            TransmissionId,
        >::empty(),
        certificates_to_request(header.previous_certificate_ids, state.storage, state.pending)
            == Seq::<Field>::empty(),
        state.requesting(
            certificates_to_request(header.previous_certificate_ids, state.storage, state.pending),
            peer,
        ) == state,
{
    nothing_to_fetch(header.transmission_ids, state.storage);
    nothing_to_request(header.previous_certificate_ids, state.storage, state.pending);
    assert(state.requesting(Seq::<Field>::empty(), peer) =~= state);
}

/// No request outlives its use: in every state that the coordinator reaches,
/// each open request went out at most as many rounds ago as storage keeps
/// rounds. An answer from a peer that was asked closes the request.
pub proof fn pending_requests_are_fresh(primary: &Primary, id: Field)
    requires
        primary.wf(),
        primary@.pending.contains_key(id),
    ensures
        primary@.pending[id].round <= primary@.round(),
        primary@.round() <= primary@.pending[id].round + primary@.storage.max_gc_rounds,
{
    primary.lemma_wf();
}

/// When the committee moves on, the requests that fall out of reach are
/// dropped and the others are kept as they are.
pub proof fn advancing_drops_stale_requests(state: PrimaryView, id: Field)
    requires
        state.inv(),
    ensures
        state.advanced().pending.contains_key(id) <==> state.pending.contains_key(id)
            && state.advanced().round() <= state.pending[id].round + state.storage.max_gc_rounds,
        state.advanced().pending.contains_key(id) ==> state.advanced().pending[id]
            == state.pending[id],
{
}

/// What this validator signs verifies: the signature that goes out for a
/// peer's batch is valid under the validator's own address for the batch id
/// and the time of signing.
pub proof fn endorsements_verify(
    state: PrimaryView,
    header: BatchHeaderView,
    timestamp: i64,
    signature: Option<Signature>,
)
    requires
        state.endorsement(header, timestamp, signature) is Ok,
    ensures
        signature_verifies(
            state.endorsement(header, timestamp, signature)->Ok_0.signature,
            state.address,
            state.endorsement(header, timestamp, signature)->Ok_0.batch_id,
            state.endorsement(header, timestamp, signature)->Ok_0.timestamp,
        ),
        state.endorsement(header, timestamp, signature)->Ok_0.batch_id == header.batch_id,
        state.endorsement(header, timestamp, signature)->Ok_0.timestamp == timestamp,
{
}

/// The batch that this validator proposes carries its valid signature on the
/// batch id and the timestamp.
pub proof fn proposals_verify(
    state: PrimaryView,
    draft: BatchDraftView,
    signature: Option<Signature>,
)
    requires
        state.proposal_verdict(draft, signature) == Ok::<bool, PrimaryError>(true),
    ensures
        header_well_formed(draft.header(signature->0)),
        signature_verifies(signature->0, state.address, draft.batch_id, draft.timestamp),
{
}

/// The id of a batch is the one that derives from what its header says: this
/// holds of every header that is let in, of every batch that this validator
/// proposes, and of the batch of every certificate that exists.
pub proof fn batch_ids_are_derived(
    state: PrimaryView,
    header: BatchHeaderView,
    draft: BatchDraftView,
    signature: Option<Signature>,
    certificate: BatchCertificateView,
)
    ensures
        state.admission(header) is Ok ==> header_id(header) == Some(header.batch_id),
        state.proposal_verdict(draft, signature) == Ok::<bool, PrimaryError>(true) ==> header_id(
            draft.header(signature->0),
        ) == Some(draft.batch_id),
        certificate.well_formed() ==> header_id(certificate.header) == Some(
            certificate.header.batch_id,
        ),
{
}

/// At most one batch of an author is signed for a round: once a signature
/// went out, signing is refused for every batch of that author and round.
pub proof fn no_second_endorsement(
    state: PrimaryView,
    header: BatchHeaderView,
    timestamp: i64,
    signature: Option<Signature>,
    other: BatchHeaderView,
)
    requires
        state.endorsement(header, timestamp, signature) is Ok,
        other.round == header.round,
        other.author == header.author,
    ensures
        state.after_endorsement(header, timestamp, signature).endorsement_fault(other) is Some,
{
    let after = state.after_endorsement(header, timestamp, signature);
    assert(after.signed[after.signed.len() - 1].round == header.round);
    assert(signed_for(after.signed, other.round, other.author));
}

/// The certificate that this validator makes of its own batch is found in
/// storage under its id once the next round has begun, where storage keeps
/// at least one round and has not dropped the current one.
pub proof fn certificate_round_trip(
    state: PrimaryView,
    peer_address: Option<Address>,
    signed: BatchSignature,
    now: i64,
)
    requires
        state.inv(),
        state.storage.wf(),
        state.signature_verdict(peer_address, signed, now) == SignatureVerdict::Certified,
        state.storage.max_gc_rounds >= 1,
        state.storage.gc_round <= state.round(),
    ensures
        state.after_signature(peer_address, signed, now).storage.get_certificate(
            state.candidate_certificate(signed).certificate_id(),
        ) == Some(state.candidate_certificate(signed)),
{
    lemma_certificate_outlives_committee(
        state.storage,
        state.candidate_certificate(signed),
        state.committee.next(),
    );
}

/// An answer that was not asked for changes nothing: where the peer was not
/// asked for the certificate, no request is closed.
pub proof fn unsolicited_answers_change_nothing(
    pending: Map<Field, PendingRequest>,
    id: Field,
    peer: PeerAddr,
)
    requires
        !pending.contains_key(id),
    ensures
        !asked(pending, id, peer),
{
}

/// A quorum stays a quorum when more have signed.
pub proof fn quorum_is_monotone(committee: CommitteeView, fewer: Set<Address>, more: Set<Address>)
    requires
        fewer.subset_of(more),
        committee.quorum_reached(fewer),
    ensures
        committee.quorum_reached(more),
{
    lemma_combined_stake_monotone(committee.members, fewer, more);
}

/// Taking a signature in twice is taking it in once.
pub proof fn signature_insertion_is_idempotent(
    held: Seq<(Signature, i64)>,
    signature: Signature,
    timestamp: i64,
)
    requires
        distinct_keys(held),
    ensures
        with_entry(with_entry(held, signature, timestamp), signature, timestamp) == with_entry(
            held,
            signature,
            timestamp,
        ),
{
    let once = with_entry(held, signature, timestamp);
    crate::ordered_map::lemma_with_entry_distinct(held, signature, timestamp);
    let p = place_of(once, signature);
    assert(once[p].0 == signature);
    if has_key(held, signature) {
        let q = place_of(held, signature);
        assert(once[q].0 == signature);
        assert(p == q);
    } else {
        assert(once[held.len() as int].0 == signature);
        assert(p == held.len());
    }
    assert(with_entry(once, signature, timestamp) =~= once);
}

/// Who has signed does not depend on the order in which two signatures came.
pub proof fn signers_do_not_depend_on_order(
    held: Seq<(Signature, i64)>,
    first: (Signature, i64),
    second: (Signature, i64),
)
    ensures
        signers_of(with_entry(with_entry(held, first.0, first.1), second.0, second.1))
            == signers_of(with_entry(with_entry(held, second.0, second.1), first.0, first.1)),
{
    let one = with_entry(with_entry(held, first.0, first.1), second.0, second.1);
    let other = with_entry(with_entry(held, second.0, second.1), first.0, first.1);
    lemma_keys_after_entry(held, first.0, first.1);
    lemma_keys_after_entry(held, second.0, second.1);
    lemma_keys_after_entry(with_entry(held, first.0, first.1), second.0, second.1);
    lemma_keys_after_entry(with_entry(held, second.0, second.1), first.0, first.1);
    assert forall|address: Address| signers_of(one).contains(address) <==> signers_of(
        other,
    ).contains(address) by {
        if signers_of(one).contains(address) {
            let i = choose|i: int|
                0 <= i < one.len() && crate::crypto::signer_of((#[trigger] one[i]).0) == Some(
                    address,
                );
            assert(has_key(one, one[i].0));
            assert(has_key(other, one[i].0));
            let j = place_of(other, one[i].0);
            assert(other[j].0 == one[i].0);
        }
        if signers_of(other).contains(address) {
            let i = choose|i: int|
                0 <= i < other.len() && crate::crypto::signer_of((#[trigger] other[i]).0) == Some(
                    address,
                );
            assert(has_key(other, other[i].0));
            assert(has_key(one, other[i].0));
            let j = place_of(one, other[i].0);
            assert(one[j].0 == other[i].0);
        }
    }
    assert(signers_of(one) =~= signers_of(other));
}

/// After an insertion the keys are those before and the new one.
proof fn lemma_keys_after_entry(held: Seq<(Signature, i64)>, signature: Signature, timestamp: i64)
    ensures
        forall|key: Signature| #[trigger]
            has_key(with_entry(held, signature, timestamp), key) <==> has_key(held, key) || key
                == signature,
{
    let after = with_entry(held, signature, timestamp);
    assert forall|key: Signature| #[trigger]
        has_key(after, key) <==> has_key(held, key) || key == signature by {
        if has_key(held, signature) {
            let p = place_of(held, signature);
            if has_key(after, key) {
                let k = place_of(after, key);
                if k != p {
                    assert(held[k].0 == key);
                }
            }
            if has_key(held, key) {
                let k = place_of(held, key);
                assert(after[k].0 == key);
            }
            if key == signature {
                assert(after[p].0 == key);
            }
        } else {
            if has_key(after, key) {
                let k = place_of(after, key);
                if k < held.len() {
                    assert(held[k].0 == key);
                }
            }
            if has_key(held, key) {
                let k = place_of(held, key);
                assert(after[k].0 == key);
            }
            if key == signature {
                assert(after[held.len() as int].0 == key);
            }
        }
    }
}

} // verus!
