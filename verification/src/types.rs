//! The values that identify batches, certificates, transmissions, validators
//! and peers, each held as plain integers, with their byte encodings.

use vstd::bytes::*;
use vstd::prelude::*;
use vstd::slice::*;

verus! {

/// The sixteen bytes of each half of a 256-bit word, low half first, each
/// half in little-endian order.
pub open spec fn word_bytes(lo: u128, hi: u128) -> Seq<u8> {
    spec_u128_to_le_bytes(lo) + spec_u128_to_le_bytes(hi)
}

/// The 256-bit word that the 32 bytes of `bytes` from `at` on spell, as its
/// low and its high half.
pub open spec fn word_at(bytes: Seq<u8>, at: int) -> (u128, u128) {
    (
        spec_u128_from_le_bytes(bytes.subrange(at, at + 16)),
        spec_u128_from_le_bytes(bytes.subrange(at + 16, at + 32)),
    )
}

fn word_to_bytes(lo: u128, hi: u128) -> (out: Vec<u8>)
    ensures
        out@ == word_bytes(lo, hi),
        out@.len() == 32,
{
    let mut out: Vec<u8> = u128_to_le_bytes(lo);
    let mut high: Vec<u8> = u128_to_le_bytes(hi);
    out.append(&mut high);
    out
}

fn word_from_bytes(bytes: &[u8], at: usize) -> (word: (u128, u128))
    requires
        at + 32 <= bytes@.len(),
    ensures
        word == word_at(bytes@, at as int),
        word_bytes(word.0, word.1) == bytes@.subrange(at as int, at + 32),
{
    let len: usize = bytes.len();
    assert(at + 32 <= len);
    let lo: u128 = u128_from_le_bytes(slice_subrange(bytes, at, at + 16));
    let hi: u128 = u128_from_le_bytes(slice_subrange(bytes, at + 16, at + 32));
    proof {
        lemma_auto_spec_u128_to_from_le_bytes();
        assert(word_bytes(lo, hi) =~= bytes@.subrange(at as int, at + 32));
    }
    (lo, hi)
}

/// An element of the base field, as the 256-bit word of its canonical
/// little-endian encoding. Batch, certificate and transaction ids are field
/// elements.
#[derive(Clone, Copy, Debug, PartialEq, Eq, Hash, Structural)]
pub struct Field {
    pub lo: u128,
    pub hi: u128,
}

impl Field {
    /// The 32 bytes of the element.
    pub open spec fn bytes(self) -> Seq<u8> {
        word_bytes(self.lo, self.hi)
    }

    /// Writes the element as 32 bytes.
    pub fn to_bytes_le(&self) -> (out: Vec<u8>)
        ensures
            out@ == self.bytes(),
            out@.len() == 32,
    {
        word_to_bytes(self.lo, self.hi)
    }

    /// The element that `bytes` spell, where they are 32.
    pub open spec fn spec_from_bytes(bytes: Seq<u8>) -> Option<Field> {
        if bytes.len() == 32 {
            Some(Field { lo: word_at(bytes, 0).0, hi: word_at(bytes, 0).1 })
        } else {
            None
        }
    }

    /// Reads an element from exactly 32 bytes.
    pub fn from_bytes_le(bytes: &[u8]) -> (field: Option<Field>)
        ensures
            field == Field::spec_from_bytes(bytes@),
            field is Some <==> bytes@.len() == 32,
            field is Some ==> field->0.bytes() == bytes@,
    {
        if bytes.len() != 32 {
            return None;
        }
        let (lo, hi): (u128, u128) = word_from_bytes(bytes, 0);
        assert(bytes@.subrange(0, 32) =~= bytes@);
        Some(Field { lo, hi })
    }
}

/// An element of the scalar field, as the 256-bit word of its canonical
/// little-endian encoding.
#[derive(Clone, Copy, Debug, PartialEq, Eq, Hash, Structural)]
pub struct Scalar {
    pub lo: u128,
    pub hi: u128,
}

/// The address of an account: a point of the curve, held by its x-coordinate.
#[derive(Clone, Copy, Debug, PartialEq, Eq, Hash, Structural)]
pub struct Address {
    pub x: Field,
}

impl Address {
    /// The 32 bytes of the address.
    pub open spec fn bytes(self) -> Seq<u8> {
        self.x.bytes()
    }

    /// Writes the address as 32 bytes.
    pub fn to_bytes_le(&self) -> (out: Vec<u8>)
        ensures
            out@ == self.bytes(),
            out@.len() == 32,
    {
        self.x.to_bytes_le()
    }

    /// The address that `bytes` spell, where they are 32.
    pub open spec fn spec_from_bytes(bytes: Seq<u8>) -> Option<Address> {
        match Field::spec_from_bytes(bytes) {
            Some(x) => Some(Address { x }),
            None => None,
        }
    }

    /// Reads an address from exactly 32 bytes.
    pub fn from_bytes_le(bytes: &[u8]) -> (address: Option<Address>)
        ensures
            address == Address::spec_from_bytes(bytes@),
            address is Some <==> bytes@.len() == 32,
            address is Some ==> address->0.bytes() == bytes@,
    {
        match Field::from_bytes_le(bytes) {
            Some(x) => Some(Address { x }),
            None => None,
        }
    }
}

/// A Schnorr signature: the challenge, the response, and the signer's compute
/// key as the x-coordinates of its two points.
#[derive(Clone, Copy, Debug, PartialEq, Eq, Hash, Structural)]
pub struct Signature {
    pub challenge: Scalar,
    pub response: Scalar,
    pub pk_sig: Field,
    pub pr_sig: Field,
}

impl Signature {
    /// The 128 bytes of the signature: challenge, response, then the two
    /// coordinates of the compute key.
    pub open spec fn bytes(self) -> Seq<u8> {
        word_bytes(self.challenge.lo, self.challenge.hi) + word_bytes(
            self.response.lo,
            self.response.hi,
        ) + self.pk_sig.bytes() + self.pr_sig.bytes()
    }

    /// Writes the signature as 128 bytes.
    pub fn to_bytes_le(&self) -> (out: Vec<u8>)
        ensures
            out@ == self.bytes(),
            out@.len() == 128,
    {
        let mut out: Vec<u8> = word_to_bytes(self.challenge.lo, self.challenge.hi);
        let mut response: Vec<u8> = word_to_bytes(self.response.lo, self.response.hi);
        let mut pk_sig: Vec<u8> = self.pk_sig.to_bytes_le();
        let mut pr_sig: Vec<u8> = self.pr_sig.to_bytes_le();
        out.append(&mut response);
        out.append(&mut pk_sig);
        out.append(&mut pr_sig);
        out
    }

    /// The signature that `bytes` spell, where they are 128.
    pub open spec fn spec_from_bytes(bytes: Seq<u8>) -> Option<Signature> {
        if bytes.len() == 128 {
            Some(
                Signature {
                    challenge: Scalar { lo: word_at(bytes, 0).0, hi: word_at(bytes, 0).1 },
                    response: Scalar { lo: word_at(bytes, 32).0, hi: word_at(bytes, 32).1 },
                    pk_sig: Field { lo: word_at(bytes, 64).0, hi: word_at(bytes, 64).1 },
                    pr_sig: Field { lo: word_at(bytes, 96).0, hi: word_at(bytes, 96).1 },
                },
            )
        } else {
            None
        }
    }

    /// Reads a signature from exactly 128 bytes.
    pub fn from_bytes_le(bytes: &[u8]) -> (signature: Option<Signature>)
        ensures
            signature == Signature::spec_from_bytes(bytes@),
            signature is Some <==> bytes@.len() == 128,
            signature is Some ==> signature->0.bytes() == bytes@,
    {
        if bytes.len() != 128 {
            return None;
        }
        let c: (u128, u128) = word_from_bytes(bytes, 0);
        let r: (u128, u128) = word_from_bytes(bytes, 32);
        let pk: (u128, u128) = word_from_bytes(bytes, 64);
        let pr: (u128, u128) = word_from_bytes(bytes, 96);
        let signature = Signature {
            challenge: Scalar { lo: c.0, hi: c.1 },
            response: Scalar { lo: r.0, hi: r.1 },
            pk_sig: Field { lo: pk.0, hi: pk.1 },
            pr_sig: Field { lo: pr.0, hi: pr.1 },
        };
        assert(signature.bytes() =~= bytes@.subrange(0, 32) + bytes@.subrange(32, 64)
            + bytes@.subrange(64, 96) + bytes@.subrange(96, 128));
        assert(signature.bytes() =~= bytes@);
        Some(signature)
    }
}

/// The id of a transmission: what it is, its own id, and the checksum of its
/// payload.
#[derive(Clone, Copy, Debug, PartialEq, Eq, Hash, Structural)]
pub enum TransmissionId {
    /// A ratification.
    Ratification,
    /// A prover solution.
    Solution { solution_id: u64, checksum: u128 },
    /// A transaction.
    Transaction { transaction_id: Field, checksum: u128 },
}

impl TransmissionId {
    /// The bytes of the id: one byte for what it is, then the id and the
    /// checksum, each in little-endian order.
    pub open spec fn bytes(self) -> Seq<u8> {
        match self {
            TransmissionId::Ratification => seq![0u8],
            TransmissionId::Solution { solution_id, checksum } => seq![1u8]
                + spec_u64_to_le_bytes(solution_id) + spec_u128_to_le_bytes(checksum),
            TransmissionId::Transaction { transaction_id, checksum } => seq![2u8]
                + transaction_id.bytes() + spec_u128_to_le_bytes(checksum),
        }
    }

    /// Writes the id as bytes.
    pub fn to_bytes_le(&self) -> (out: Vec<u8>)
        ensures
            out@ == self.bytes(),
    {
        let mut out: Vec<u8> = Vec::new();
        match self {
            TransmissionId::Ratification => {
                out.push(0);
                assert(out@ =~= seq![0u8]);
            },
            TransmissionId::Solution { solution_id, checksum } => {
                out.push(1);
                let mut id_bytes: Vec<u8> = u64_to_le_bytes(*solution_id);
                let mut checksum_bytes: Vec<u8> = u128_to_le_bytes(*checksum);
                out.append(&mut id_bytes);
                out.append(&mut checksum_bytes);
                assert(out@ =~= seq![1u8] + spec_u64_to_le_bytes(*solution_id)
                    + spec_u128_to_le_bytes(*checksum));
            },
            TransmissionId::Transaction { transaction_id, checksum } => {
                out.push(2);
                let mut id_bytes: Vec<u8> = transaction_id.to_bytes_le();
                let mut checksum_bytes: Vec<u8> = u128_to_le_bytes(*checksum);
                out.append(&mut id_bytes);
                out.append(&mut checksum_bytes);
                assert(out@ =~= seq![2u8] + transaction_id.bytes() + spec_u128_to_le_bytes(
                    *checksum,
                ));
            },
        }
        out
    }
}

/// The socket address of a peer.
#[derive(Clone, Copy, Debug, PartialEq, Eq, Hash, Structural)]
pub struct PeerAddr {
    /// The IP address; an IPv4 address in its IPv6-mapped form.
    pub ip: u128,
    pub port: u16,
}

/// The bytes of a word have the word's halves at their places.
pub proof fn lemma_word_round_trip(lo: u128, hi: u128)
    ensures
        word_bytes(lo, hi).len() == 32,
        word_at(word_bytes(lo, hi), 0) == (lo, hi),
{
    lemma_auto_spec_u128_to_from_le_bytes();
    let bytes = word_bytes(lo, hi);
    assert(bytes.subrange(0, 16) =~= spec_u128_to_le_bytes(lo));
    assert(bytes.subrange(16, 32) =~= spec_u128_to_le_bytes(hi));
}

/// Reading the bytes of a field element gives the element back, so two
/// elements with the same bytes are the same.
pub proof fn field_bytes_round_trip(field: Field)
    ensures
        Field::spec_from_bytes(field.bytes()) == Some(field),
{
    lemma_word_round_trip(field.lo, field.hi);
}

/// Reading the bytes of an address gives the address back.
pub proof fn address_bytes_round_trip(address: Address)
    ensures
        Address::spec_from_bytes(address.bytes()) == Some(address),
{
    field_bytes_round_trip(address.x);
}

/// Reading the bytes of a signature gives the signature back.
pub proof fn signature_bytes_round_trip(signature: Signature)
    ensures
        Signature::spec_from_bytes(signature.bytes()) == Some(signature),
{
    let bytes = signature.bytes();
    let c = word_bytes(signature.challenge.lo, signature.challenge.hi);
    let r = word_bytes(signature.response.lo, signature.response.hi);
    let k = signature.pk_sig.bytes();
    let p = signature.pr_sig.bytes();
    lemma_word_round_trip(signature.challenge.lo, signature.challenge.hi);
    lemma_word_round_trip(signature.response.lo, signature.response.hi);
    lemma_word_round_trip(signature.pk_sig.lo, signature.pk_sig.hi);
    lemma_word_round_trip(signature.pr_sig.lo, signature.pr_sig.hi);
    assert(bytes.len() == 128);
    assert(bytes.subrange(0, 16) =~= c.subrange(0, 16));
    assert(bytes.subrange(16, 32) =~= c.subrange(16, 32));
    assert(bytes.subrange(32, 48) =~= r.subrange(0, 16));
    assert(bytes.subrange(48, 64) =~= r.subrange(16, 32));
    assert(bytes.subrange(64, 80) =~= k.subrange(0, 16));
    assert(bytes.subrange(80, 96) =~= k.subrange(16, 32));
    assert(bytes.subrange(96, 112) =~= p.subrange(0, 16));
    assert(bytes.subrange(112, 128) =~= p.subrange(16, 32));
}

} // verus!
