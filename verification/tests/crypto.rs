use narwhal_primary::account::Account;
use narwhal_primary::batch::{collect_signers, signatures_valid, BatchCertificate, BatchHeader};
use narwhal_primary::committee::{Committee, Member};
use narwhal_primary::crypto::{derive_batch_id, seed_address, signature_address, verify_signature};
use narwhal_primary::primary::Primary;
use narwhal_primary::storage::Storage;
use narwhal_primary::types::{Address, Field, Scalar, Signature, TransmissionId};
use snarkvm::console::account;
use snarkvm::console::network::prelude::{FromBytes, ToBytes};
use snarkvm::console::network::MainnetV0;
use snarkvm::console::types;
use snarkvm::ledger::narwhal;

const COMMITTEE_ID: Field = Field { lo: 4_000, hi: 0 };

fn id(n: u128) -> Field {
    Field { lo: n, hi: 0 }
}

fn private_key(seed: Field) -> account::PrivateKey<MainnetV0> {
    account::PrivateKey::from_bytes_le(&seed.to_bytes_le()).unwrap()
}

fn vm_field(field: Field) -> types::Field<MainnetV0> {
    types::Field::from_bytes_le(&field.to_bytes_le()).unwrap()
}

fn message(batch_id: Field, timestamp: i64) -> [types::Field<MainnetV0>; 2] {
    [vm_field(batch_id), types::Field::from_u64(timestamp as u64)]
}

/// Signs with `snarkvm` itself.
fn sign(seed: Field, batch_id: Field, timestamp: i64) -> Signature {
    let signature =
        private_key(seed).sign(&message(batch_id, timestamp), &mut rand::thread_rng()).unwrap();
    Signature::from_bytes_le(&signature.to_bytes_le().unwrap()).unwrap()
}

/// Verifies with `snarkvm` itself.
fn verifies(signature: Signature, signer: Address, batch_id: Field, timestamp: i64) -> bool {
    let signature =
        account::Signature::<MainnetV0>::from_bytes_le(&signature.to_bytes_le()).unwrap();
    let signer = account::Address::<MainnetV0>::from_bytes_le(&signer.to_bytes_le()).unwrap();
    signature.verify(&signer, &message(batch_id, timestamp))
}

/// The header of a batch without transmissions in the first round.
fn header(seed: Field, timestamp: i64) -> BatchHeader {
    let author = Account::new(seed).unwrap().address();
    let batch_id = derive_batch_id(&author, 1, timestamp, &COMMITTEE_ID, &vec![], &vec![]).unwrap();
    BatchHeader {
        batch_id,
        author,
        round: 1,
        timestamp,
        committee_id: COMMITTEE_ID,
        transmission_ids: vec![],
        previous_certificate_ids: vec![],
        signature: sign(seed, batch_id, timestamp),
    }
}

#[test]
fn the_address_of_an_account_is_that_of_its_private_key() {
    for seed in [id(1), id(2), Field { lo: 77, hi: 1 << 100 }] {
        let account = Account::new(seed).expect("the seed is a field element");
        let expected = account::Address::<MainnetV0>::try_from(&private_key(seed)).unwrap();
        assert_eq!(account.address().to_bytes_le(), expected.to_bytes_le().unwrap());
        assert_eq!(account.seed(), seed);
        assert_eq!(seed_address(&seed), Some(account.address()));
    }
    assert_ne!(Account::new(id(1)).unwrap().address(), Account::new(id(2)).unwrap().address());
}

#[test]
fn a_seed_beyond_the_field_gives_no_account() {
    assert!(Account::new(Field { lo: u128::MAX, hi: u128::MAX }).is_none());
    assert_eq!(seed_address(&Field { lo: u128::MAX, hi: u128::MAX }), None);
}

#[test]
fn the_id_of_a_batch_is_the_one_that_the_ledger_derives() {
    let author = Account::new(id(1)).unwrap().address();
    let transmissions = vec![
        TransmissionId::Solution { solution_id: 7, checksum: 8 },
        TransmissionId::Transaction { transaction_id: id(9), checksum: 10 },
        TransmissionId::Ratification,
    ];
    let previous = vec![id(11), id(12)];
    let derived = derive_batch_id(&author, 5, 1_234, &COMMITTEE_ID, &transmissions, &previous)
        .expect("an id can be derived");

    let vm_author = account::Address::<MainnetV0>::from_bytes_le(&author.to_bytes_le()).unwrap();
    let vm_transmissions = transmissions
        .iter()
        .map(|id| narwhal::TransmissionID::<MainnetV0>::from_bytes_le(&id.to_bytes_le()).unwrap())
        .collect();
    let vm_previous = previous.iter().map(|id| vm_field(*id)).collect();
    let expected = narwhal::BatchHeader::<MainnetV0>::compute_batch_id(
        vm_author,
        5,
        1_234,
        vm_field(COMMITTEE_ID),
        &vm_transmissions,
        &vm_previous,
    )
    .unwrap();
    assert_eq!(derived.to_bytes_le(), expected.to_bytes_le().unwrap());
}

#[test]
fn the_id_of_a_batch_depends_on_all_it_says() {
    let author = Account::new(id(1)).unwrap().address();
    let other = Account::new(id(2)).unwrap().address();
    let transmissions = vec![TransmissionId::Solution { solution_id: 7, checksum: 8 }];
    let previous = vec![id(11)];
    let derive = |author: &Address,
                  round: u64,
                  timestamp: i64,
                  committee_id: Field,
                  transmissions: &Vec<TransmissionId>,
                  previous: &Vec<Field>| {
        derive_batch_id(author, round, timestamp, &committee_id, transmissions, previous).unwrap()
    };
    let base = derive(&author, 5, 1_234, COMMITTEE_ID, &transmissions, &previous);
    assert_eq!(base, derive(&author, 5, 1_234, COMMITTEE_ID, &transmissions, &previous));
    assert_ne!(base, derive(&other, 5, 1_234, COMMITTEE_ID, &transmissions, &previous));
    assert_ne!(base, derive(&author, 6, 1_234, COMMITTEE_ID, &transmissions, &previous));
    assert_ne!(base, derive(&author, 5, 1_235, COMMITTEE_ID, &transmissions, &previous));
    assert_ne!(base, derive(&author, 5, 1_234, id(1), &transmissions, &previous));
    assert_ne!(base, derive(&author, 5, 1_234, COMMITTEE_ID, &vec![], &previous));
    assert_ne!(base, derive(&author, 5, 1_234, COMMITTEE_ID, &transmissions, &vec![]));
    assert_ne!(base, author.x);
}

#[test]
fn no_id_derives_from_what_is_no_field_element() {
    let author = Account::new(id(1)).unwrap().address();
    let beyond = Field { lo: u128::MAX, hi: u128::MAX };
    assert_eq!(derive_batch_id(&author, 1, 1_000, &beyond, &vec![], &vec![]), None);
    assert_eq!(derive_batch_id(&author, 1, 1_000, &COMMITTEE_ID, &vec![], &vec![beyond]), None);
    let off_curve = Address { x: beyond };
    assert_eq!(derive_batch_id(&off_curve, 1, 1_000, &COMMITTEE_ID, &vec![], &vec![]), None);
}

#[test]
fn a_header_signed_by_its_author_is_well_formed() {
    let header = header(id(1), 1_000);
    assert_eq!(header.derive_id(), Some(header.batch_id));
    assert!(header.is_well_formed());
    let author = header.author;
    assert!(verify_signature(&header.signature, &author, &header.batch_id, 1_000));
    assert_eq!(signature_address(&header.signature), Some(author));
}

#[test]
fn a_header_is_not_well_formed_under_another_id_time_or_author() {
    let signed = header(id(1), 1_000);

    let mut other_id = signed.duplicate();
    other_id.batch_id = id(501);
    other_id.signature = sign(id(1), id(501), 1_000);
    assert!(!other_id.is_well_formed());

    let mut other_time = signed.duplicate();
    other_time.timestamp = 1_001;
    assert!(!other_time.is_well_formed());

    let mut other_author = signed.duplicate();
    other_author.author = Account::new(id(2)).unwrap().address();
    assert!(!other_author.is_well_formed());

    let mut other_round = signed.duplicate();
    other_round.round = 2;
    assert!(!other_round.is_well_formed());

    let mut other_committee = signed.duplicate();
    other_committee.committee_id = id(1);
    assert!(!other_committee.is_well_formed());

    let mut other_transmissions = signed.duplicate();
    other_transmissions.transmission_ids = vec![TransmissionId::Ratification];
    assert!(!other_transmissions.is_well_formed());

    let mut other_previous = signed.duplicate();
    other_previous.previous_certificate_ids = vec![id(3)];
    assert!(!other_previous.is_well_formed());

    // The right id with the signature of another.
    let mut other_signer = signed.duplicate();
    other_signer.signature = sign(id(2), signed.batch_id, 1_000);
    assert!(!other_signer.is_well_formed());
    assert!(signed.is_well_formed());
}

#[test]
fn bytes_that_are_no_signature_verify_nothing() {
    let mut broken = header(id(1), 1_000);
    broken.signature = Signature {
        challenge: Scalar { lo: u128::MAX, hi: u128::MAX },
        response: Scalar { lo: 0, hi: 0 },
        pk_sig: id(1),
        pr_sig: id(2),
    };
    assert!(!broken.is_well_formed());
    assert!(!verify_signature(&broken.signature, &broken.author, &broken.batch_id, 1_000));
}

#[test]
fn signers_are_the_addresses_of_the_signing_keys() {
    let author = Account::new(id(1)).unwrap().address();
    let signatures =
        vec![(sign(id(2), id(500), 1_001), 1_001), (sign(id(3), id(500), 1_002), 1_002)];
    let signers = collect_signers(author, &signatures);
    assert_eq!(
        signers,
        vec![author, Account::new(id(2)).unwrap().address(), Account::new(id(3)).unwrap().address()]
    );
}

#[test]
fn bytes_that_are_no_signature_have_no_signer() {
    let author = Account::new(id(1)).unwrap().address();
    let broken = Signature {
        challenge: Scalar { lo: u128::MAX, hi: u128::MAX },
        response: Scalar { lo: 0, hi: 0 },
        pk_sig: id(1),
        pr_sig: id(2),
    };
    assert_eq!(signature_address(&broken), None);
    assert_eq!(collect_signers(author, &vec![(broken, 5)]), vec![author]);
}

#[test]
fn a_certificate_takes_valid_signatures_only() {
    let signed = header(id(1), 1_000);
    let batch_id = signed.batch_id;
    let signatures =
        vec![(sign(id(2), batch_id, 1_001), 1_001), (sign(id(3), batch_id, 1_002), 1_002)];
    assert!(signatures_valid(&signed, &signatures));
    let certificate = BatchCertificate::new(signed.duplicate(), signatures.clone())
        .expect("all signatures are valid");
    assert_eq!(certificate.certificate_id(), batch_id);
    assert_eq!(certificate.batch_id(), batch_id);
    assert_eq!(certificate.round(), 1);
    assert_eq!(certificate.author(), Account::new(id(1)).unwrap().address());
    assert_eq!(certificate.signatures(), signatures);
    assert_eq!(certificate.signer_addresses().len(), 3);
    assert_eq!(certificate.duplicate(), certificate);

    // A signature with another time of signing than it was made for.
    let shifted = vec![(signatures[0].0, 1_002)];
    assert!(!signatures_valid(&signed, &shifted));
    assert_eq!(BatchCertificate::new(signed.duplicate(), shifted), None);

    // A signature on another batch.
    let foreign = vec![(sign(id(2), id(501), 1_001), 1_001)];
    assert_eq!(BatchCertificate::new(signed.duplicate(), foreign), None);

    // A header whose id does not derive from what it says.
    let mut forged = signed.duplicate();
    forged.timestamp = 999;
    forged.signature = sign(id(1), batch_id, 999);
    assert_eq!(BatchCertificate::new(forged, signatures), None);

    // No signatures of peers: the author's own is enough for a certificate to exist.
    assert!(BatchCertificate::new(signed, vec![]).is_some());
}

#[test]
fn what_the_coordinator_signs_verifies_under_its_address() {
    let accounts: Vec<Account> = (1..=4).map(|seed| Account::new(id(seed)).unwrap()).collect();
    let members = accounts.iter().map(|a| Member { address: a.address(), stake: 1 }).collect();
    let committee = Committee::new(COMMITTEE_ID, 1, members).unwrap();
    let mut proposer = Primary::new(committee.duplicate(), Storage::new(10), accounts[0], 1);
    let mut signer = Primary::new(committee, Storage::new(10), accounts[1], 1);

    let proposed = proposer.propose_batch_at(&vec![], 1_000).unwrap().unwrap();
    let batch_id = proposed.batch_id;
    assert!(proposed.is_well_formed());
    assert!(verifies(proposed.signature, accounts[0].address(), batch_id, 1_000));
    assert!(!verifies(proposed.signature, accounts[0].address(), batch_id, 1_001));
    assert!(!verifies(proposed.signature, accounts[1].address(), batch_id, 1_000));

    let answer = signer.sign_batch_propose(&proposed).unwrap();
    assert_eq!(answer.batch_id, batch_id);
    assert!(verifies(answer.signature, accounts[1].address(), batch_id, answer.timestamp));
    assert!(!verifies(answer.signature, accounts[0].address(), batch_id, answer.timestamp));

    // The time of signing is read from the clock.
    let wall = std::time::SystemTime::now()
        .duration_since(std::time::UNIX_EPOCH)
        .unwrap()
        .as_secs() as i64;
    assert!((answer.timestamp - wall).abs() <= 5);
}

#[test]
fn two_signatures_on_one_message_differ() {
    // The nonce is random: signing twice gives two signatures, both valid.
    let first = sign(id(1), id(500), 1_000);
    let second = sign(id(1), id(500), 1_000);
    assert_ne!(first, second);
    let author = Account::new(id(1)).unwrap().address();
    assert!(verifies(first, author, id(500), 1_000));
    assert!(verifies(second, author, id(500), 1_000));
}
