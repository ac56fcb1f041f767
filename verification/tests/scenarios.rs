use narwhal_primary::account::Account;
use narwhal_primary::batch::{BatchCertificate, BatchHeader, BatchSignature};
use narwhal_primary::committee::{Committee, Member};
use narwhal_primary::error::PrimaryError;
use narwhal_primary::primary::{Admission, Backfill, Primary, SignatureOutcome, SignatureVerdict};
use narwhal_primary::storage::Storage;
use narwhal_primary::types::{Field, PeerAddr, Signature};
use snarkvm::console::account::PrivateKey;
use snarkvm::console::network::prelude::{FromBytes, ToBytes};
use snarkvm::console::network::MainnetV0;
use snarkvm::console::types;

const MAX_GC_ROUNDS: u64 = 50;

fn account(seed: u128) -> Account {
    Account::new(Field { lo: seed, hi: 0 }).expect("a small seed gives an account")
}

fn accounts() -> Vec<Account> {
    vec![account(1), account(2), account(3), account(4)]
}

fn committee(round: u64) -> Committee {
    let members = accounts().iter().map(|a| Member { address: a.address(), stake: 1 }).collect();
    Committee::new(id(4_000), round, members).expect("four distinct members")
}

fn primary(index: usize) -> Primary {
    Primary::new(committee(1), Storage::new(MAX_GC_ROUNDS), accounts()[index], 1)
}

fn peer(index: usize) -> PeerAddr {
    PeerAddr { ip: 0x7f00_0001, port: 4130 + index as u16 }
}

fn id(n: u128) -> Field {
    Field { lo: n, hi: 0 }
}

/// Lets `proposer` propose a batch without transmissions at `now`.
fn propose(proposer: &mut Primary, now: i64) -> BatchHeader {
    proposer.propose_batch_at(&vec![vec![]], now).unwrap().expect("ready to propose")
}

/// Lets `signer` check and sign the proposal of the peer at `from`.
fn sign(signer: &mut Primary, from: usize, header: &BatchHeader, now: i64) -> BatchSignature {
    assert_eq!(signer.admit_batch_propose(peer(from), header), Ok(Admission::Proceed(vec![])));
    assert_eq!(
        signer.validate_batch_propose_at(peer(from), header, now),
        Ok(Backfill { transmissions: vec![], certificates: vec![] })
    );
    signer.sign_batch_propose(header).expect("nothing stands against signing")
}

fn certified(outcome: Result<SignatureOutcome, PrimaryError>) -> BatchCertificate {
    match outcome {
        Ok(SignatureOutcome::Certified(certificate)) => certificate,
        other => panic!("expected a certificate, got {other:?}"),
    }
}

#[test]
fn happy_propose_is_certified_by_two_signatures() {
    let mut validators: Vec<Primary> = (0..4).map(primary).collect();
    let addresses: Vec<_> = accounts().iter().map(|a| a.address()).collect();

    assert_eq!(validators[0].committee().round(), 1);
    assert_eq!(validators[0].committee().quorum_threshold(), 3);
    assert!(!validators[0].expire_proposed_batch(1_000));
    assert_eq!(validators[0].is_ready_to_propose(), Ok(true));

    let header = propose(&mut validators[0], 1_000);
    assert_eq!(Some(header.batch_id), header.derive_id());
    assert_eq!(header.committee_id, id(4_000));
    assert_eq!(header.round, 1);
    assert_eq!(header.author, addresses[0]);
    assert_eq!(header.timestamp, 1_000);
    assert!(header.transmission_ids.is_empty());
    assert!(header.previous_certificate_ids.is_empty());
    assert!(header.is_well_formed());
    let batch_id = header.batch_id;
    assert_eq!(validators[0].proposed_batch().map(|b| b.batch_id()), Some(batch_id));

    let first = sign(&mut validators[1], 0, &header, 1_000);
    let second = sign(&mut validators[2], 0, &header, 1_000);
    assert_eq!(first.batch_id, batch_id);

    let outcome = validators[0].process_batch_signature_at(Some(addresses[1]), first, 1_001);
    assert_eq!(outcome, Ok(SignatureOutcome::Kept(SignatureVerdict::Added)));
    assert_eq!(validators[0].proposed_signatures(), vec![(first.signature, first.timestamp)]);
    assert_eq!(validators[0].committee().round(), 1);

    let outcome = validators[0].process_batch_signature_at(Some(addresses[2]), second, 1_002);
    let certificate = certified(outcome);
    assert_eq!(certificate.certificate_id(), batch_id);
    assert_eq!(certificate.batch_header(), &header);
    assert_eq!(
        certificate.signatures(),
        vec![(first.signature, first.timestamp), (second.signature, second.timestamp)]
    );
    assert_eq!(validators[0].storage().get_certificate(batch_id), Some(certificate));
    assert!(validators[0].storage().contains_batch(batch_id));
    assert_eq!(validators[0].committee().round(), 2);
    assert_eq!(validators[0].proposed_batch(), None);
    assert!(validators[0].storage().get_committee_for_round(2).is_some());
}

#[test]
fn late_signature_after_certify_changes_nothing() {
    let mut validators: Vec<Primary> = (0..4).map(primary).collect();
    let addresses: Vec<_> = accounts().iter().map(|a| a.address()).collect();
    let header = propose(&mut validators[0], 1_000);
    let first = sign(&mut validators[1], 0, &header, 1_000);
    let second = sign(&mut validators[2], 0, &header, 1_000);
    let third = sign(&mut validators[3], 0, &header, 1_000);
    validators[0].process_batch_signature_at(Some(addresses[1]), first, 1_001).unwrap();
    let certificate =
        certified(validators[0].process_batch_signature_at(Some(addresses[2]), second, 1_002));

    let outcome = validators[0].process_batch_signature_at(Some(addresses[3]), third, 1_003);
    assert_eq!(outcome, Ok(SignatureOutcome::Kept(SignatureVerdict::AlreadyCertified)));
    assert_eq!(validators[0].committee().round(), 2);
    assert_eq!(validators[0].proposed_batch(), None);
    assert_eq!(validators[0].proposed_signatures(), vec![]);
    assert_eq!(validators[0].storage().get_certificate(header.batch_id), Some(certificate));
    assert_eq!(validators[0].storage().get_certificates_for_round(1).len(), 1);
    assert_eq!(validators[0].pending().len(), 0);
}

#[test]
fn a_proposal_of_a_non_member_is_not_signed() {
    let mut validator = primary(1);
    // The outsider runs with the same committee, of which it is no member.
    let outsider_account = account(9);
    let mut outsider = Primary::new(committee(1), Storage::new(MAX_GC_ROUNDS), outsider_account, 1);
    let header = propose(&mut outsider, 1_000);
    assert_eq!(header.author, outsider_account.address());

    assert_eq!(validator.admit_batch_propose(peer(9), &header), Ok(Admission::Proceed(vec![])));
    assert_eq!(
        validator.validate_batch_propose_at(peer(9), &header, 1_000),
        Err(PrimaryError::NotCommitteeMember { author: outsider_account.address() })
    );
    // Nothing is on record, and a member's proposal for the round is still signed.
    assert_eq!(validator.pending().len(), 0);
    let mut member = primary(0);
    let honest = propose(&mut member, 1_000);
    assert!(sign(&mut validator, 0, &honest, 1_000).batch_id == honest.batch_id);
}

#[test]
fn an_expired_proposal_is_given_up_and_a_new_one_made() {
    let mut validator = primary(0);
    let header = propose(&mut validator, 1_000);
    assert_eq!(validator.is_ready_to_propose(), Ok(false));

    // Ten seconds are not too long.
    assert!(!validator.expire_proposed_batch(1_010));
    assert_eq!(validator.proposed_batch().map(|b| b.to_header()), Some(header.duplicate()));

    // Eleven are.
    assert!(validator.expire_proposed_batch(1_011));
    assert_eq!(validator.proposed_batch(), None);
    assert_eq!(validator.committee().round(), 1);

    assert_eq!(validator.is_ready_to_propose(), Ok(true));
    let again = propose(&mut validator, 1_011);
    assert_eq!(again.round, 1);
    assert_eq!(again.timestamp, 1_011);
    assert_ne!(again.batch_id, header.batch_id);
    assert_eq!(validator.proposed_batch().map(|b| b.batch_id()), Some(again.batch_id));
}

#[test]
fn a_tick_gives_up_an_expired_proposal_and_asks_for_a_new_one() {
    let mut validator = primary(0);
    assert_eq!(validator.tick_at(1_000), Ok(true));
    let first = propose(&mut validator, 1_000);
    assert_eq!(validator.tick_at(1_005), Ok(false));
    assert_eq!(validator.proposed_batch().map(|b| b.batch_id()), Some(first.batch_id));
    assert_eq!(validator.tick_at(1_000 + 10 + 1), Ok(true));
    assert_eq!(validator.proposed_batch(), None);
    let again = propose(&mut validator, 1_011);
    assert_ne!(again.batch_id, first.batch_id);
    // The clock is far beyond the time of the proposal.
    assert_eq!(validator.tick(), Ok(true));
    assert_eq!(validator.proposed_batch(), None);
}

#[test]
fn the_round_never_goes_back_and_the_slot_is_empty_when_it_goes_on() {
    let mut validators: Vec<Primary> = (0..4).map(primary).collect();
    let addresses: Vec<_> = accounts().iter().map(|a| a.address()).collect();
    let mut rounds = vec![validators[0].committee().round()];
    let mut note = |validator: &Primary| {
        let round = validator.committee().round();
        let last = *rounds.last().unwrap();
        assert!(round >= last);
        if round > last {
            assert_eq!(validator.proposed_batch(), None);
        }
        rounds.push(round);
    };

    let header = propose(&mut validators[0], 1_000);
    note(&validators[0]);
    validators[0].expire_proposed_batch(1_005);
    note(&validators[0]);
    let first = sign(&mut validators[1], 0, &header, 1_000);
    let second = sign(&mut validators[2], 0, &header, 1_000);
    validators[0].process_batch_signature_at(Some(addresses[1]), first, 1_001).unwrap();
    note(&validators[0]);
    validators[0].process_batch_signature_at(Some(addresses[2]), second, 1_002).unwrap();
    note(&validators[0]);
    validators[0].process_batch_signature_at(Some(addresses[2]), second, 1_002).unwrap();
    note(&validators[0]);
    validators[0].fetch_missing_certificates(peer(1), &header);
    note(&validators[0]);
    validators[0].update_committee_to_next_round();
    note(&validators[0]);
    assert_eq!(rounds, vec![1, 1, 1, 1, 2, 2, 2, 3]);
}

#[test]
fn a_signature_for_an_expired_proposal_clears_the_slot() {
    let mut validators: Vec<Primary> = (0..2).map(primary).collect();
    let header = propose(&mut validators[0], 1_000);
    let signature = sign(&mut validators[1], 0, &header, 1_000);
    let outcome =
        validators[0].process_batch_signature_at(Some(accounts()[1].address()), signature, 1_011);
    assert_eq!(outcome, Ok(SignatureOutcome::Kept(SignatureVerdict::Expired)));
    assert_eq!(validators[0].proposed_batch(), None);
}

#[test]
fn the_clock_expires_a_proposal_of_long_ago() {
    let mut validator = primary(0);
    propose(&mut validator, 1_000);
    assert!(validator.check_proposed_batch_for_expiration());
    assert_eq!(validator.proposed_batch(), None);

    // A proposal made at the clock's own time stays.
    let header = validator.propose_batch(&vec![]).unwrap().unwrap();
    let wall = std::time::SystemTime::now()
        .duration_since(std::time::UNIX_EPOCH)
        .unwrap()
        .as_secs() as i64;
    assert!((header.timestamp - wall).abs() <= 5);
    assert!(header.is_well_formed());
    assert!(!validator.check_proposed_batch_for_expiration());
    assert_eq!(validator.proposed_batch().map(|b| b.batch_id()), Some(header.batch_id));
}

#[test]
fn no_second_proposal_while_the_slot_is_taken() {
    let mut validator = primary(0);
    let spare = validator.prepare_batch_at(&vec![], 1_001).unwrap().unwrap();
    let signature = vm_sign(1, spare.batch_id, 1_001);
    let header = validator.propose_batch_at(&vec![], 1_000).unwrap().unwrap();

    assert_eq!(validator.is_ready_to_propose(), Ok(false));
    assert_eq!(validator.prepare_batch_at(&vec![], 1_001), Ok(None));
    assert_eq!(validator.propose_batch_at(&vec![], 1_001), Ok(None));
    assert_eq!(validator.propose_signed_batch(spare, Some(signature)), Ok(None));
    assert_eq!(validator.proposed_batch().map(|b| b.to_header()), Some(header));
}

#[test]
fn signatures_are_kept_in_the_order_they_came_and_once() {
    let mut validators: Vec<Primary> = (0..4).map(primary).collect();
    let addresses: Vec<_> = accounts().iter().map(|a| a.address()).collect();
    let header = propose(&mut validators[0], 1_000);
    let first = sign(&mut validators[3], 0, &header, 1_000);

    for _ in 0..3 {
        let outcome = validators[0].process_batch_signature_at(Some(addresses[3]), first, 1_001);
        assert_eq!(outcome, Ok(SignatureOutcome::Kept(SignatureVerdict::Added)));
        assert_eq!(validators[0].proposed_signatures(), vec![(first.signature, first.timestamp)]);
    }
    let second = sign(&mut validators[1], 0, &header, 1_000);
    let certificate =
        certified(validators[0].process_batch_signature_at(Some(addresses[1]), second, 1_002));
    assert_eq!(
        certificate.signatures(),
        vec![(first.signature, first.timestamp), (second.signature, second.timestamp)]
    );
    assert_eq!(
        certificate.signer_addresses(),
        vec![addresses[0], addresses[3], addresses[1]]
    );
}

#[test]
fn signatures_may_come_in_any_order() {
    let addresses: Vec<_> = accounts().iter().map(|a| a.address()).collect();
    // Two coordinators of one validator propose the same batch.
    let mut one = primary(0);
    let mut other = primary(0);
    let header = propose(&mut one, 1_000);
    assert_eq!(propose(&mut other, 1_000).batch_id, header.batch_id);
    let first = sign(&mut primary(1), 0, &header, 1_000);
    let second = sign(&mut primary(2), 0, &header, 1_000);

    one.process_batch_signature_at(Some(addresses[1]), first, 1_001).unwrap();
    let forth = certified(one.process_batch_signature_at(Some(addresses[2]), second, 1_001));
    other.process_batch_signature_at(Some(addresses[2]), second, 1_001).unwrap();
    let back = certified(other.process_batch_signature_at(Some(addresses[1]), first, 1_001));

    let in_order = vec![(first.signature, first.timestamp), (second.signature, second.timestamp)];
    let reverse = vec![(second.signature, second.timestamp), (first.signature, first.timestamp)];
    assert_eq!(forth.signatures(), in_order);
    assert_eq!(back.signatures(), reverse);
    let mut signers = forth.signer_addresses();
    let mut reversed = back.signer_addresses();
    signers.sort_by_key(|a| (a.x.hi, a.x.lo));
    reversed.sort_by_key(|a| (a.x.hi, a.x.lo));
    assert_eq!(signers, reversed);
    assert_eq!(one.committee().round(), other.committee().round());
}

#[test]
fn signatures_that_are_not_taken() {
    let mut validators: Vec<Primary> = (0..4).map(primary).collect();
    let addresses: Vec<_> = accounts().iter().map(|a| a.address()).collect();

    // Nothing is proposed.
    let stray =
        BatchSignature { batch_id: id(5), signature: vm_sign(2, id(5), 1_000), timestamp: 1_000 };
    assert_eq!(
        validators[0].process_batch_signature_at(Some(addresses[1]), stray, 1_000),
        Ok(SignatureOutcome::Kept(SignatureVerdict::UnknownBatch))
    );

    let header = propose(&mut validators[0], 1_000);
    let signed = sign(&mut validators[1], 0, &header, 1_000);

    // Another batch than the proposed one.
    assert_eq!(
        validators[0].process_batch_signature_at(Some(addresses[1]), stray, 1_000),
        Ok(SignatureOutcome::Kept(SignatureVerdict::UnknownBatch))
    );
    // A peer that is not connected.
    assert_eq!(
        validators[0].process_batch_signature_at(None, signed, 1_000),
        Ok(SignatureOutcome::Kept(SignatureVerdict::DisconnectedPeer))
    );
    // A peer that is no member.
    assert_eq!(
        validators[0].process_batch_signature_at(Some(account(9).address()), signed, 1_000),
        Ok(SignatureOutcome::Kept(SignatureVerdict::NotCommitteeMember))
    );
    // A signature of another member than the peer.
    assert_eq!(
        validators[0].process_batch_signature_at(Some(addresses[2]), signed, 1_000),
        Ok(SignatureOutcome::Kept(SignatureVerdict::InvalidSignature))
    );
    // A signature with another time than it was made at.
    let shifted = BatchSignature { timestamp: signed.timestamp + 1, ..signed };
    assert_eq!(
        validators[0].process_batch_signature_at(Some(addresses[1]), shifted, 1_000),
        Ok(SignatureOutcome::Kept(SignatureVerdict::InvalidSignature))
    );
    assert_eq!(validators[0].proposed_signatures(), vec![]);
    assert_eq!(validators[0].committee().round(), 1);

    // The clock is read where no time is given.
    assert_eq!(
        validators[0].process_batch_signature_from_peer(Some(addresses[1]), signed),
        Ok(SignatureOutcome::Kept(SignatureVerdict::Expired))
    );
}

#[test]
fn a_certificate_with_a_stored_id_is_not_stored_again() {
    let mut validators: Vec<Primary> = (0..4).map(primary).collect();
    let addresses: Vec<_> = accounts().iter().map(|a| a.address()).collect();

    let header = propose(&mut validators[0], 1_000);
    let first = sign(&mut validators[2], 0, &header, 1_000);
    let second = sign(&mut validators[3], 0, &header, 1_000);

    // The certificate of the batch comes in from elsewhere before the
    // signatures do.
    let signatures =
        vec![(first.signature, first.timestamp), (second.signature, second.timestamp)];
    let elsewhere = BatchCertificate::new(header.duplicate(), signatures).unwrap();
    assert_eq!(validators[0].store_certificate(elsewhere.duplicate()), Ok(true));
    assert_eq!(validators[0].committee().round(), 1);

    validators[0].process_batch_signature_at(Some(addresses[2]), first, 1_001).unwrap();
    assert_eq!(
        validators[0].process_batch_signature_at(Some(addresses[3]), second, 1_001),
        Err(PrimaryError::DuplicateCertificate { certificate_id: header.batch_id })
    );
    assert_eq!(validators[0].proposed_batch(), None);
    assert_eq!(validators[0].committee().round(), 1);
    assert_eq!(validators[0].storage().get_certificate(header.batch_id), Some(elsewhere));
}

/// Signs with `snarkvm` itself, with the key of the account of `seed`.
fn vm_sign(seed: u128, batch_id: Field, timestamp: i64) -> Signature {
    let key = PrivateKey::<MainnetV0>::from_bytes_le(&id(seed).to_bytes_le()).unwrap();
    let message = [
        types::Field::<MainnetV0>::from_bytes_le(&batch_id.to_bytes_le()).unwrap(),
        types::Field::from_u64(timestamp as u64),
    ];
    let signature = key.sign(&message, &mut rand::thread_rng()).unwrap();
    Signature::from_bytes_le(&signature.to_bytes_le().unwrap()).unwrap()
}
