use narwhal_primary::account::Account;
use narwhal_primary::batch::{BatchCertificate, BatchHeader};
use narwhal_primary::committee::{Committee, Member};
use narwhal_primary::crypto::derive_batch_id;
use narwhal_primary::error::PrimaryError;
use narwhal_primary::primary::{Backfill, Primary};
use narwhal_primary::storage::Storage;
use narwhal_primary::types::{Field, PeerAddr, Signature, TransmissionId};
use snarkvm::console::account::PrivateKey;
use snarkvm::console::network::prelude::{FromBytes, ToBytes};
use snarkvm::console::network::MainnetV0;
use snarkvm::console::types;

const COMMITTEE_ID: Field = Field { lo: 4_000, hi: 0 };

fn id(n: u128) -> Field {
    Field { lo: n, hi: 0 }
}

fn account(seed: u128) -> Account {
    Account::new(id(seed)).unwrap()
}

fn committee(round: u64) -> Committee {
    let members =
        (1..=4).map(|seed| Member { address: account(seed).address(), stake: 1 }).collect();
    Committee::new(COMMITTEE_ID, round, members).unwrap()
}

fn peer(n: u16) -> PeerAddr {
    PeerAddr { ip: 0x7f00_0001, port: 4130 + n }
}

fn transaction(n: u128) -> TransmissionId {
    TransmissionId::Transaction { transaction_id: id(n), checksum: n }
}

fn sign(seed: u128, batch_id: Field, timestamp: i64) -> Signature {
    let key = PrivateKey::<MainnetV0>::from_bytes_le(&id(seed).to_bytes_le()).unwrap();
    let message = [
        types::Field::<MainnetV0>::from_bytes_le(&batch_id.to_bytes_le()).unwrap(),
        types::Field::from_u64(timestamp as u64),
    ];
    let signature = key.sign(&message, &mut rand::thread_rng()).unwrap();
    Signature::from_bytes_le(&signature.to_bytes_le().unwrap()).unwrap()
}

/// The ids of the batches of the validators 1 to 3 in `round`, each on top
/// of all three of the round before.
fn batch_ids(round: u64) -> Vec<Field> {
    let mut ids = Vec::new();
    for r in 1..=round {
        ids = (1..=3).map(|seed| derive(seed, r, &vec![], &ids)).collect();
    }
    ids
}

fn derive(
    seed: u128,
    round: u64,
    transmissions: &Vec<TransmissionId>,
    previous: &Vec<Field>,
) -> Field {
    let author = account(seed).address();
    let timestamp = 1_000 + round as i64;
    derive_batch_id(&author, round, timestamp, &COMMITTEE_ID, transmissions, previous).unwrap()
}

/// The id of the batch of the validator with `seed` in `round`, on top of
/// the batches of the validators 1 to 3 in the round before.
fn batch_id(seed: u128, round: u64) -> Field {
    derive(seed, round, &vec![], &batch_ids(round - 1))
}

fn header(
    seed: u128,
    round: u64,
    transmissions: Vec<TransmissionId>,
    previous: Vec<Field>,
) -> BatchHeader {
    let timestamp = 1_000 + round as i64;
    let batch_id = derive(seed, round, &transmissions, &previous);
    BatchHeader {
        batch_id,
        author: account(seed).address(),
        round,
        timestamp,
        committee_id: COMMITTEE_ID,
        transmission_ids: transmissions,
        previous_certificate_ids: previous,
        signature: sign(seed, batch_id, timestamp),
    }
}

/// The certificate of the batch of the validator with `seed` in `round`,
/// signed by `signers`, on top of the batches of the validators 1 to 3 in the
/// round before.
fn certificate(seed: u128, round: u64, signers: &[u128]) -> BatchCertificate {
    let header = header(seed, round, vec![], batch_ids(round - 1));
    let signatures = signers
        .iter()
        .map(|s| (sign(*s, header.batch_id, header.timestamp + 1), header.timestamp + 1))
        .collect();
    BatchCertificate::new(header, signatures).unwrap()
}

/// A coordinator that has seen the rounds 1 to `rounds`, three certificates
/// each.
fn seasoned(rounds: u64) -> Primary {
    let mut primary = Primary::new(committee(1), Storage::new(50), account(1), 1);
    for round in 1..=rounds {
        for seed in 1..=3 {
            let others: Vec<u128> = (1..=3).filter(|s| *s != seed).collect();
            assert_eq!(primary.store_certificate(certificate(seed, round, &others)), Ok(true));
        }
    }
    primary
}

/// Takes `certificate` in at `node` as the answer of the peer at `from`,
/// fetching from `source` what it builds on. Notes each id asked for.
fn ingest(
    node: &mut Primary,
    source: &Primary,
    from: PeerAddr,
    certificate: BatchCertificate,
    asked: &mut Vec<Field>,
) -> Result<bool, PrimaryError> {
    let Some(backfill) = node.admit_certificate(from, &certificate) else {
        return Ok(false);
    };
    assert_eq!(backfill.transmissions, vec![]);
    for missing in backfill.certificates {
        asked.push(missing);
        assert!(node.pending().contains_peer(missing, from));
        let answer = source.process_certificate_request(missing).expect("the source has it");
        assert!(node.process_certificate_response(from, &answer));
        assert!(!node.pending().contains(missing));
        ingest(node, source, from, answer, asked)?;
    }
    node.store_certificate(certificate)
}

#[test]
fn backfill_fills_the_gap_down_to_the_first_round() {
    let source = seasoned(4);
    assert_eq!(source.committee().round(), 4);
    let tip = certificate(1, 5, &[2, 3]);

    let mut late = Primary::new(committee(1), Storage::new(50), account(4), 1);
    assert_eq!(late.storage().gc_round(), 0);
    let mut asked = Vec::new();
    assert_eq!(ingest(&mut late, &source, peer(1), tip.duplicate(), &mut asked), Ok(true));

    // Every certificate of the rounds 4 down to 1 was asked for once.
    let mut expected: Vec<Field> = Vec::new();
    for round in 1..=4 {
        for seed in 1..=3 {
            expected.push(batch_id(seed, round));
        }
    }
    let mut sorted = asked.clone();
    sorted.sort_by_key(|f| (f.hi, f.lo));
    expected.sort_by_key(|f| (f.hi, f.lo));
    assert_eq!(sorted, expected);
    assert_eq!(&asked[..3], &[batch_id(1, 4), batch_id(1, 3), batch_id(1, 2)]);

    assert_eq!(late.committee().round(), 5);
    assert_eq!(late.storage().get_certificate(tip.certificate_id()), Some(tip));
    for round in 1..=4 {
        assert_eq!(late.storage().get_certificates_for_round(round).len(), 3);
        assert!(late.storage().get_committee_for_round(round).is_some());
    }
    assert_eq!(late.pending().len(), 0);
    assert_eq!(late.proposed_batch(), None);
}

#[test]
fn an_answer_that_was_not_asked_for_is_dropped() {
    let mut node = Primary::new(committee(1), Storage::new(50), account(4), 1);
    let unsolicited = certificate(1, 1, &[2, 3]);
    assert!(!node.process_certificate_response(peer(1), &unsolicited));
    assert!(!node.storage().contains_certificate(unsolicited.certificate_id()));
    assert_eq!(node.storage().get_certificates_for_round(1), vec![]);
    assert_eq!(node.pending().len(), 0);
    assert_eq!(node.committee().round(), 1);
}

#[test]
fn an_answer_of_another_peer_than_was_asked_is_dropped() {
    let mut node = Primary::new(committee(1), Storage::new(50), account(4), 1);
    let tip = certificate(1, 2, &[2, 3]);
    let backfill = node.admit_certificate(peer(1), &tip).unwrap();
    assert_eq!(backfill.certificates, vec![batch_id(1, 1), batch_id(2, 1), batch_id(3, 1)]);

    let answer = certificate(1, 1, &[2, 3]);
    assert!(!node.process_certificate_response(peer(2), &answer));
    assert!(node.pending().contains_peer(batch_id(1, 1), peer(1)));
    assert_eq!(node.pending().len(), 3);
    assert!(node.process_certificate_response(peer(1), &answer));
    assert!(!node.process_certificate_response(peer(1), &answer));
    assert_eq!(node.pending().len(), 2);
}

#[test]
fn a_request_is_answered_with_the_stored_certificate() {
    let source = seasoned(1);
    let stored = source.process_certificate_request(batch_id(2, 1)).unwrap();
    assert_eq!(stored.author(), account(2).address());
    assert_eq!(stored.round(), 1);
    assert_eq!(source.process_certificate_request(batch_id(2, 2)), None);
}

#[test]
fn nothing_is_fetched_for_a_header_whose_parts_are_at_hand() {
    let mut node = seasoned(2);
    node.insert_transmission(transaction(1));
    node.insert_transmission(transaction(2));
    let complete = header(
        1,
        3,
        vec![transaction(1), transaction(2)],
        vec![batch_id(1, 2), batch_id(2, 2), batch_id(3, 2)],
    );
    for _ in 0..2 {
        assert_eq!(node.fetch_missing_transmissions(&complete), vec![]);
        assert_eq!(node.fetch_missing_certificates(peer(1), &complete), vec![]);
        assert_eq!(node.pending().len(), 0);
    }
    assert_eq!(node.committee().round(), 2);
    assert_eq!(node.storage().get_certificates_for_round(2).len(), 3);
}

#[test]
fn what_is_missing_is_fetched_once() {
    let mut node = seasoned(1);
    node.insert_transmission(transaction(2));
    let gappy = header(
        1,
        3,
        vec![transaction(1), transaction(2), transaction(3)],
        vec![batch_id(1, 2), batch_id(2, 1), batch_id(3, 2), batch_id(1, 2)],
    );
    assert_eq!(node.fetch_missing_transmissions(&gappy), vec![transaction(1), transaction(3)]);
    // The certificate of round 1 is stored; the one listed twice is asked for once.
    assert_eq!(
        node.fetch_missing_certificates(peer(1), &gappy),
        vec![batch_id(1, 2), batch_id(3, 2)]
    );
    assert!(node.pending().contains_peer(batch_id(1, 2), peer(1)));
    assert!(node.pending().contains_peer(batch_id(3, 2), peer(1)));
    assert!(!node.pending().contains(batch_id(2, 1)));
    // What is asked for already is not asked for again, of no peer.
    assert_eq!(node.fetch_missing_certificates(peer(2), &gappy), vec![]);
    assert!(!node.pending().contains_peer(batch_id(1, 2), peer(2)));
    assert_eq!(node.pending().len(), 2);
}

#[test]
fn transmissions_fall_to_the_workers_that_exist() {
    let node = Primary::new(committee(1), Storage::new(50), account(1), 2);
    assert_eq!(node.num_workers(), 2);
    assert_eq!(node.worker_index(0), Ok(0));
    assert_eq!(node.worker_index(1), Ok(1));
    assert_eq!(node.worker_index(2), Err(PrimaryError::UnknownWorker { worker_id: 2 }));
}

#[test]
fn a_certificate_of_a_dropped_round_is_discarded() {
    let mut node = Primary::new(committee(10), Storage::new(2), account(1), 1);
    assert_eq!(node.storage().gc_round(), 8);
    let old = certificate(2, 8, &[1, 3]);
    assert_eq!(node.admit_certificate(peer(2), &old), None);
    assert_eq!(node.store_certificate(old), Ok(false));
    assert_eq!(node.pending().len(), 0);
    assert_eq!(node.storage().get_certificates_for_round(8), vec![]);

    // The round right after the mark is taken without what it builds on.
    let kept = certificate(2, 9, &[1, 3]);
    assert_eq!(
        node.admit_certificate(peer(2), &kept),
        Some(Backfill { transmissions: vec![], certificates: vec![] })
    );
    assert_eq!(node.store_certificate(kept), Ok(true));
    assert_eq!(node.committee().round(), 10);
}

#[test]
fn a_certificate_is_stored_once() {
    let mut node = Primary::new(committee(1), Storage::new(50), account(1), 1);
    assert_eq!(node.store_certificate(certificate(2, 1, &[1, 3])), Ok(true));
    assert_eq!(node.store_certificate(certificate(2, 1, &[1, 3])), Ok(false));
    assert_eq!(node.storage().get_certificates_for_round(1).len(), 1);
}

#[test]
fn a_certificate_without_a_quorum_is_refused() {
    let mut node = Primary::new(committee(1), Storage::new(50), account(1), 1);
    assert_eq!(
        node.store_certificate(certificate(2, 1, &[3])),
        Err(PrimaryError::QuorumNotReached { round: 1 })
    );
    // The author's own signature among the signers does not count twice.
    assert_eq!(
        node.store_certificate(certificate(2, 1, &[2, 3])),
        Err(PrimaryError::QuorumNotReached { round: 1 })
    );
    // A stranger's signature is valid but carries no stake.
    assert_eq!(
        node.store_certificate(certificate(2, 1, &[3, 9])),
        Err(PrimaryError::QuorumNotReached { round: 1 })
    );
    assert_eq!(node.storage().get_certificates_for_round(1), vec![]);
    assert_eq!(node.store_certificate(certificate(2, 1, &[3, 4])), Ok(true));
}

#[test]
fn a_certificate_of_a_non_member_is_refused() {
    let mut node = Primary::new(committee(1), Storage::new(50), account(1), 1);
    assert_eq!(
        node.store_certificate(certificate(9, 1, &[1, 2, 3])),
        Err(PrimaryError::NotCommitteeMember { author: account(9).address() })
    );
    assert!(!node.storage().contains_certificate(batch_id(9, 1)));
}

#[test]
fn a_certificate_that_builds_on_nothing_stored_is_refused() {
    let mut node = seasoned(1);
    assert_eq!(
        node.store_certificate(certificate(1, 3, &[2, 3])),
        Err(PrimaryError::MissingPreviousCertificate { certificate_id: batch_id(1, 2) })
    );
    assert_eq!(node.committee().round(), 1);
}

#[test]
fn a_certificate_that_builds_on_too_few_is_refused() {
    let mut node = seasoned(1);
    let thin = header(1, 2, vec![], vec![batch_id(1, 1), batch_id(2, 1)]);
    let signatures =
        vec![(sign(2, thin.batch_id, 1_005), 1_005), (sign(3, thin.batch_id, 1_005), 1_005)];
    let certificate = BatchCertificate::new(thin, signatures).unwrap();
    assert_eq!(
        node.store_certificate(certificate),
        Err(PrimaryError::PreviousQuorumNotReached { round: 2 })
    );
}

#[test]
fn storing_a_certificate_moves_the_committee_to_its_round() {
    let mut node = seasoned(3);
    assert_eq!(node.committee().round(), 3);
    assert_eq!(node.store_certificate(certificate(1, 4, &[2, 3])), Ok(true));
    assert_eq!(node.committee().round(), 4);
    // A certificate of an earlier round leaves the committee where it is.
    assert_eq!(node.store_certificate(certificate(4, 2, &[2, 3])), Ok(true));
    assert_eq!(node.committee().round(), 4);
}

#[test]
fn requests_that_fall_out_of_reach_are_dropped() {
    let mut node = Primary::new(committee(1), Storage::new(2), account(1), 1);
    let ahead = header(2, 2, vec![], vec![id(901), id(902)]);
    assert_eq!(node.fetch_missing_certificates(peer(2), &ahead), vec![id(901), id(902)]);
    assert_eq!(node.update_committee_to_next_round(), 2);
    assert_eq!(node.update_committee_to_next_round(), 3);
    // Opened at round 1 and kept for two rounds.
    assert_eq!(node.pending().len(), 2);
    let later = header(2, 4, vec![], vec![id(903)]);
    assert_eq!(node.fetch_missing_certificates(peer(2), &later), vec![id(903)]);
    assert_eq!(node.update_committee_to_next_round(), 4);
    assert!(!node.pending().contains(id(901)));
    assert!(!node.pending().contains(id(902)));
    assert!(node.pending().contains(id(903)));
    assert_eq!(node.update_committee_to_next_round(), 5);
    assert_eq!(node.update_committee_to_next_round(), 6);
    assert_eq!(node.pending().len(), 0);
}
