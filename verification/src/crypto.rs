//! Signing, verifying and the derivation of batch ids, done by `snarkvm` on
//! the main network's curve. Its functions take and give the byte encodings
//! of keys, addresses, ids and signatures.

use crate::types::{Address, Field, Signature, TransmissionId};
use indexmap::IndexSet;
use snarkvm::console::account;
use snarkvm::console::network::prelude::{FromBytes, ToBytes};
use snarkvm::console::network::MainnetV0;
use snarkvm::console::types;
use snarkvm::ledger::narwhal::{BatchHeader, TransmissionID};
use vstd::prelude::*;

verus! {

/// Whether the 128 bytes `signature` are a valid signature of the account
/// with the 32-byte address `signer` over the message made of the field
/// element `batch_id` and of `timestamp`, the timestamp embedded in the field
/// as an unsigned 64-bit number.
pub uninterp spec fn verifies(
    signature: Seq<u8>,
    signer: Seq<u8>,
    batch_id: Seq<u8>,
    timestamp: i64,
) -> bool;

/// The bytes of the address that the compute key inside the signature
/// `signature` belongs to, where the bytes are the encoding of a signature
/// at all.
pub uninterp spec fn signer_bytes(signature: Seq<u8>) -> Option<Seq<u8>>;

/// The bytes of the address of the account whose private key grows from the
/// seed `seed`, where there is one.
pub uninterp spec fn seed_address_bytes(seed: Seq<u8>) -> Option<Seq<u8>>;

/// The bytes of the id of the batch that the account with the address
/// `author` makes for `round` at `timestamp` under the committee with the id
/// `committee_id`, of the transmissions and on the certificates with the
/// given ids, each id as its bytes; none where some bytes are no encoding of
/// what they stand for or no id can be derived.
pub uninterp spec fn batch_id_bytes(
    author: Seq<u8>,
    round: u64,
    timestamp: i64,
    committee_id: Seq<u8>,
    transmission_ids: Seq<Seq<u8>>,
    previous_certificate_ids: Seq<Seq<u8>>,
) -> Option<Seq<u8>>;

/// What `bytes` holds, as a sequence.
pub open spec fn option_bytes(bytes: Option<Vec<u8>>) -> Option<Seq<u8>> {
    match bytes {
        Some(bytes) => Some(bytes@),
        None => None,
    }
}

/// The byte strings of `list`, each as a sequence.
pub open spec fn byte_views(list: Seq<Vec<u8>>) -> Seq<Seq<u8>> {
    list.map_values(|bytes: Vec<u8>| bytes@)
}

/// The id of the batch with this content, where one can be derived.
pub open spec fn batch_id_of(
    author: Address,
    round: u64,
    timestamp: i64,
    committee_id: Field,
    transmission_ids: Seq<TransmissionId>,
    previous_certificate_ids: Seq<Field>,
) -> Option<Field> {
    match batch_id_bytes(
        author.bytes(),
        round,
        timestamp,
        committee_id.bytes(),
        transmission_ids.map_values(|id: TransmissionId| id.bytes()),
        previous_certificate_ids.map_values(|id: Field| id.bytes()),
    ) {
        Some(bytes) => Field::spec_from_bytes(bytes),
        None => None,
    }
}

/// Whether `signature` is a valid signature of the account at `signer` over
/// `batch_id` and `timestamp`.
pub open spec fn signature_verifies(
    signature: Signature,
    signer: Address,
    batch_id: Field,
    timestamp: i64,
) -> bool {
    verifies(signature.bytes(), signer.bytes(), batch_id.bytes(), timestamp)
}

/// The address of the account that made `signature`, where it is the
/// encoding of a signature.
pub open spec fn signer_of(signature: Signature) -> Option<Address> {
    match signer_bytes(signature.bytes()) {
        Some(bytes) => Address::spec_from_bytes(bytes),
        None => None,
    }
}

/// The address of the account whose private key grows from `seed`, where
/// there is one.
pub open spec fn address_of_seed(seed: Field) -> Option<Address> {
    match seed_address_bytes(seed.bytes()) {
        Some(bytes) => Address::spec_from_bytes(bytes),
        None => None,
    }
}

/// Calls `Signature::verify` of `snarkvm` on the message
/// `[batch_id, Field::from_u64(timestamp)]`. The result is a function of the
/// bytes and the timestamp alone; bytes that are no encoding of a signature,
/// an address or a field element verify nothing.
#[verifier::external_body]
fn verify_encoded(
    signature: &Vec<u8>,
    signer: &Vec<u8>,
    batch_id: &Vec<u8>,
    timestamp: i64,
) -> (valid: bool)
    ensures
        valid == verifies(signature@, signer@, batch_id@, timestamp),
{
    let parsed = (
        account::Signature::<MainnetV0>::from_bytes_le(signature),
        account::Address::<MainnetV0>::from_bytes_le(signer),
        types::Field::<MainnetV0>::from_bytes_le(batch_id),
    );
    match parsed {
        (Ok(signature), Ok(signer), Ok(id)) => {
            signature.verify(&signer, &[id, types::Field::from_u64(timestamp as u64)])
        },
        _ => false,
    }
}

/// Calls `Signature::to_address` of `snarkvm`: the address of the compute key
/// that the signature carries, as its bytes. `None` where the bytes do not
/// decode.
#[verifier::external_body]
fn signer_encoded(signature: &Vec<u8>) -> (address: Option<Vec<u8>>)
    ensures
        option_bytes(address) == signer_bytes(signature@),
{
    let parsed = account::Signature::<MainnetV0>::from_bytes_le(signature).ok()?;
    parsed.to_address().to_bytes_le().ok()
}

/// Calls `Address::try_from(&PrivateKey)` of `snarkvm` on the private key
/// that `PrivateKey::from_bytes_le` derives from the seed, and gives the
/// bytes of the address. `None` where the seed is no field element or the
/// derivation fails.
#[verifier::external_body]
fn seed_address_encoded(seed: &Vec<u8>) -> (address: Option<Vec<u8>>)
    ensures
        option_bytes(address) == seed_address_bytes(seed@),
{
    let key = account::PrivateKey::<MainnetV0>::from_bytes_le(seed).ok()?;
    account::Address::try_from(&key).ok()?.to_bytes_le().ok()
}

/// Calls `PrivateKey::sign` of `snarkvm` on the message
/// `[batch_id, Field::from_u64(timestamp)]`, with the thread's random number
/// generator of `rand`, and gives the bytes of the signature. The nonce is
/// random, so nothing is claimed of what comes back; `None` where the seed
/// or the id does not decode or signing fails.
#[verifier::external_body]
fn sign_encoded(seed: &Vec<u8>, batch_id: &Vec<u8>, timestamp: i64) -> (signature: Option<
    Vec<u8>,
>) {
    let key = account::PrivateKey::<MainnetV0>::from_bytes_le(seed).ok()?;
    let id = types::Field::from_bytes_le(batch_id).ok()?;
    let message = [id, types::Field::from_u64(timestamp as u64)];
    key.sign(&message, &mut rand::thread_rng()).ok()?.to_bytes_le().ok()
}

/// Calls `BatchHeader::compute_batch_id` of `snarkvm` on what the bytes
/// decode to, the ids gathered in their order into sets, and gives the bytes
/// of the id. The result is a function of the arguments alone. `None` where
/// some bytes do not decode or the derivation fails.
#[verifier::external_body]
fn batch_id_encoded(
    author: &Vec<u8>,
    round: u64,
    timestamp: i64,
    committee_id: &Vec<u8>,
    transmission_ids: &Vec<Vec<u8>>,
    previous_certificate_ids: &Vec<Vec<u8>>,
) -> (id: Option<Vec<u8>>)
    ensures
        option_bytes(id) == batch_id_bytes(
            author@,
            round,
            timestamp,
            committee_id@,
            byte_views(transmission_ids@),
            byte_views(previous_certificate_ids@),
        ),
{
    let author = account::Address::<MainnetV0>::from_bytes_le(author).ok()?;
    let committee = types::Field::<MainnetV0>::from_bytes_le(committee_id).ok()?;
    let ids = transmission_ids.iter().map(|id| TransmissionID::<MainnetV0>::from_bytes_le(id));
    let ids = ids.collect::<Result<IndexSet<_>, _>>().ok()?;
    let previous = previous_certificate_ids.iter().map(|id| types::Field::from_bytes_le(id));
    let previous = previous.collect::<Result<IndexSet<_>, _>>().ok()?;
    let id = BatchHeader::compute_batch_id(author, round, timestamp, committee, &ids, &previous);
    id.ok()?.to_bytes_le().ok()
}

/// The id of the batch with this content, where one can be derived.
pub fn derive_batch_id(
    author: &Address,
    round: u64,
    timestamp: i64,
    committee_id: &Field,
    transmission_ids: &Vec<TransmissionId>,
    previous_certificate_ids: &Vec<Field>,
) -> (id: Option<Field>)
    ensures
        id == batch_id_of(
            *author,
            round,
            timestamp,
            *committee_id,
            transmission_ids@,
            previous_certificate_ids@,
        ),
{
    let mut transmissions: Vec<Vec<u8>> = Vec::new();
    let mut i: usize = 0;
    while i < transmission_ids.len()
        invariant
            0 <= i <= transmission_ids.len(),
            byte_views(transmissions@) == transmission_ids@.take(i as int).map_values(
                |id: TransmissionId| id.bytes(),
            ),
        decreases transmission_ids.len() - i,
    {
        let ghost earlier = transmissions@;
        let bytes: Vec<u8> = transmission_ids[i].to_bytes_le();
        transmissions.push(bytes);
        proof {
            let longer = transmission_ids@.take(i + 1);
            assert(longer.drop_last() =~= transmission_ids@.take(i as int));
            assert(transmissions@ == earlier.push(bytes));
            assert(byte_views(transmissions@) =~= byte_views(earlier).push(bytes@));
            assert(byte_views(transmissions@) =~= longer.map_values(
                |id: TransmissionId| id.bytes(),
            ));
        }
        i += 1;
    }
    assert(transmission_ids@.take(transmission_ids@.len() as int) =~= transmission_ids@);
    let mut previous: Vec<Vec<u8>> = Vec::new();
    let mut k: usize = 0;
    while k < previous_certificate_ids.len()
        invariant
            0 <= k <= previous_certificate_ids.len(),
            byte_views(previous@) == previous_certificate_ids@.take(k as int).map_values(
                |id: Field| id.bytes(),
            ),
        decreases previous_certificate_ids.len() - k,
    {
        let ghost earlier = previous@;
        let bytes: Vec<u8> = previous_certificate_ids[k].to_bytes_le();
        previous.push(bytes);
        proof {
            let longer = previous_certificate_ids@.take(k + 1);
            assert(longer.drop_last() =~= previous_certificate_ids@.take(k as int));
            assert(previous@ == earlier.push(bytes));
            assert(byte_views(previous@) =~= byte_views(earlier).push(bytes@));
            assert(byte_views(previous@) =~= longer.map_values(|id: Field| id.bytes()));
        }
        k += 1;
    }
    assert(previous_certificate_ids@.take(previous_certificate_ids@.len() as int)
        =~= previous_certificate_ids@);
    let encoded = batch_id_encoded(
        &author.to_bytes_le(),
        round,
        timestamp,
        &committee_id.to_bytes_le(),
        &transmissions,
        &previous,
    );
    match encoded {
        Some(bytes) => Field::from_bytes_le(bytes.as_slice()),
        None => None,
    }
}

/// Whether `signature` is a valid signature of the account at `signer` over
/// `batch_id` and `timestamp`.
pub fn verify_signature(
    signature: &Signature,
    signer: &Address,
    batch_id: &Field,
    timestamp: i64,
) -> (valid: bool)
    ensures
        valid == signature_verifies(*signature, *signer, *batch_id, timestamp),
{
    verify_encoded(
        &signature.to_bytes_le(),
        &signer.to_bytes_le(),
        &batch_id.to_bytes_le(),
        timestamp,
    )
}

/// The address of the account that made `signature`.
pub fn signature_address(signature: &Signature) -> (address: Option<Address>)
    ensures
        address == signer_of(*signature),
{
    match signer_encoded(&signature.to_bytes_le()) {
        Some(bytes) => Address::from_bytes_le(bytes.as_slice()),
        None => None,
    }
}

/// The address of the account whose private key grows from `seed`.
pub fn seed_address(seed: &Field) -> (address: Option<Address>)
    ensures
        address == address_of_seed(*seed),
{
    match seed_address_encoded(&seed.to_bytes_le()) {
        Some(bytes) => Address::from_bytes_le(bytes.as_slice()),
        None => None,
    }
}

/// A signature on `batch_id` and `timestamp` with the private key that grows
/// from `seed`, freshly made and checked: what comes back is valid under the
/// address of that key. `None` where no valid signature could be made.
pub(crate) fn sign_with_seed(seed: &Field, batch_id: &Field, timestamp: i64) -> (signature: Option<
    Signature,
>)
    ensures
        signature is Some ==> address_of_seed(*seed) is Some && signature_verifies(
            signature->0,
            address_of_seed(*seed)->0,
            *batch_id,
            timestamp,
        ),
{
    let signer: Address = match seed_address(seed) {
        Some(signer) => signer,
        None => {
            return None;
        },
    };
    let made: Option<Signature> = match sign_encoded(
        &seed.to_bytes_le(),
        &batch_id.to_bytes_le(),
        timestamp,
    ) {
        Some(bytes) => Signature::from_bytes_le(bytes.as_slice()),
        None => None,
    };
    match made {
        Some(signature) => {
            if verify_signature(&signature, &signer, batch_id, timestamp) {
                Some(signature)
            } else {
                None
            }
        },
        None => None,
    }
}

} // verus!
