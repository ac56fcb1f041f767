use narwhal_primary::ordered_map::{
    from_signature_key, from_transmission_key, to_signature_key, to_transmission_key,
};
use narwhal_primary::types::{Address, Field, Scalar, Signature, TransmissionId};
use snarkvm::console::network::prelude::{FromBytes, ToBytes};
use snarkvm::console::network::MainnetV0;
use snarkvm::ledger::narwhal::TransmissionID;

fn sample_signature() -> Signature {
    Signature {
        challenge: Scalar { lo: 1, hi: 2 },
        response: Scalar { lo: 3, hi: 4 },
        pk_sig: Field { lo: 5, hi: 6 },
        pr_sig: Field { lo: 7, hi: 8 },
    }
}

#[test]
fn field_bytes_round_trip() {
    let field = Field { lo: 7, hi: 9 };
    let bytes = field.to_bytes_le();
    assert_eq!(bytes.len(), 32);
    assert_eq!(bytes[0], 7);
    assert_eq!(bytes[16], 9);
    assert_eq!(Field::from_bytes_le(&bytes), Some(field));
}

#[test]
fn field_bytes_are_little_endian() {
    let field = Field { lo: 0x0102_0304, hi: u128::MAX };
    let bytes = field.to_bytes_le();
    assert_eq!(&bytes[..4], &[4, 3, 2, 1]);
    assert!(bytes[4..16].iter().all(|b| *b == 0));
    assert!(bytes[16..].iter().all(|b| *b == 0xff));
}

#[test]
fn field_needs_exactly_32_bytes() {
    assert_eq!(Field::from_bytes_le(&[0u8; 31]), None);
    assert_eq!(Field::from_bytes_le(&[0u8; 33]), None);
    assert_eq!(Field::from_bytes_le(&[]), None);
    assert_eq!(Field::from_bytes_le(&[0u8; 32]), Some(Field { lo: 0, hi: 0 }));
}

#[test]
fn address_bytes_round_trip() {
    let address = Address { x: Field { lo: u128::MAX - 1, hi: 12 } };
    let bytes = address.to_bytes_le();
    assert_eq!(bytes, address.x.to_bytes_le());
    assert_eq!(Address::from_bytes_le(&bytes), Some(address));
    assert_eq!(Address::from_bytes_le(&bytes[1..]), None);
}

#[test]
fn signature_bytes_round_trip() {
    let signature = sample_signature();
    let bytes = signature.to_bytes_le();
    assert_eq!(bytes.len(), 128);
    assert_eq!(bytes[0], 1);
    assert_eq!(bytes[16], 2);
    assert_eq!(bytes[32], 3);
    assert_eq!(bytes[48], 4);
    assert_eq!(bytes[64], 5);
    assert_eq!(bytes[80], 6);
    assert_eq!(bytes[96], 7);
    assert_eq!(bytes[112], 8);
    assert_eq!(Signature::from_bytes_le(&bytes), Some(signature));
}

#[test]
fn signature_needs_exactly_128_bytes() {
    assert_eq!(Signature::from_bytes_le(&[0u8; 127]), None);
    assert_eq!(Signature::from_bytes_le(&[0u8; 129]), None);
}

#[test]
fn signature_key_round_trip() {
    let signature = sample_signature();
    let key = to_signature_key(&signature);
    assert_eq!(key, (1, 2, 3, 4, 5, 6, 7, 8));
    assert_eq!(from_signature_key(&key), signature);
}

#[test]
fn transmission_key_round_trip() {
    let ratification = TransmissionId::Ratification;
    let solution = TransmissionId::Solution { solution_id: 5, checksum: 6 };
    let transaction =
        TransmissionId::Transaction { transaction_id: Field { lo: 5, hi: 6 }, checksum: 7 };
    assert_eq!(to_transmission_key(&ratification), (0, 0, 0, 0, 0));
    assert_eq!(to_transmission_key(&solution), (1, 5, 0, 0, 6));
    assert_eq!(to_transmission_key(&transaction), (2, 0, 5, 6, 7));
    assert_eq!(from_transmission_key(&(0, 0, 0, 0, 0)), ratification);
    assert_eq!(from_transmission_key(&(1, 5, 0, 0, 6)), solution);
    assert_eq!(from_transmission_key(&(2, 0, 5, 6, 7)), transaction);
}

#[test]
fn transmission_id_bytes() {
    assert_eq!(TransmissionId::Ratification.to_bytes_le(), vec![0]);
    let solution = TransmissionId::Solution { solution_id: 0x0102, checksum: 3 };
    let bytes = solution.to_bytes_le();
    assert_eq!(bytes.len(), 1 + 8 + 16);
    assert_eq!(&bytes[..4], &[1, 2, 1, 0]);
    assert_eq!(bytes[9], 3);
    let transaction =
        TransmissionId::Transaction { transaction_id: Field { lo: 4, hi: 5 }, checksum: 6 };
    let bytes = transaction.to_bytes_le();
    assert_eq!(bytes.len(), 1 + 32 + 16);
    assert_eq!((bytes[0], bytes[1], bytes[17], bytes[33]), (2, 4, 5, 6));
}

#[test]
fn transmission_id_bytes_are_those_of_the_ledger() {
    let ids = [
        TransmissionId::Ratification,
        TransmissionId::Solution { solution_id: u64::MAX - 1, checksum: u128::MAX - 2 },
        TransmissionId::Transaction { transaction_id: Field { lo: 4, hi: 5 }, checksum: 6 },
    ];
    for id in ids {
        let bytes = id.to_bytes_le();
        let decoded = TransmissionID::<MainnetV0>::from_bytes_le(&bytes).unwrap();
        assert_eq!(decoded.to_bytes_le().unwrap(), bytes);
    }
    let solution = TransmissionID::<MainnetV0>::from_bytes_le(&ids[1].to_bytes_le()).unwrap();
    assert!(matches!(solution, TransmissionID::Solution(_, checksum) if checksum == u128::MAX - 2));
    let transaction = TransmissionID::<MainnetV0>::from_bytes_le(&ids[2].to_bytes_le()).unwrap();
    assert!(matches!(transaction, TransmissionID::Transaction(_, 6)));
}
