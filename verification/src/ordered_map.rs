//! The insertion-ordered maps of `indexmap`, as the coordinator uses them: one
//! from signatures to the time each was made, one from transmission ids to
//! payloads. A map is known to the proofs by the sequence of its entries.

use indexmap::IndexMap;
use std::hash::RandomState;
use crate::types::{Field, Scalar, Signature, TransmissionId};
use vstd::prelude::*;

verus! {

#[verifier::external_type_specification]
#[verifier::external_body]
#[verifier::reject_recursive_types(K)]
#[verifier::reject_recursive_types(V)]
#[verifier::reject_recursive_types(S)]
pub struct ExIndexMap<K, V, S>(IndexMap<K, V, S>);

/// A signature as a map key: the eight 128-bit halves of its four words, in
/// the order of its bytes.
pub type SignatureKey = (u128, u128, u128, u128, u128, u128, u128, u128);

/// The entries of a signature map, in the order of insertion.
pub uninterp spec fn signature_entries(map: IndexMap<SignatureKey, i64, RandomState>) -> Seq<
    (SignatureKey, i64),
>;

/// No key stands at two places.
pub open spec fn distinct_keys<K, V>(entries: Seq<(K, V)>) -> bool {
    forall|i: int, j: int|
        0 <= i < entries.len() && 0 <= j < entries.len() && i != j ==> entries[i].0
            != entries[j].0
}

/// Whether some entry has `key`.
pub open spec fn has_key<K, V>(entries: Seq<(K, V)>, key: K) -> bool {
    exists|i: int| 0 <= i < entries.len() && #[trigger] entries[i].0 == key
}

/// A place at which `key` stands, where there is one.
pub open spec fn place_of<K, V>(entries: Seq<(K, V)>, key: K) -> int {
    choose|i: int| 0 <= i < entries.len() && #[trigger] entries[i].0 == key
}

/// What an insertion makes of `entries`: the value at the key's place is
/// replaced and the place kept; a new key goes last.
pub open spec fn with_entry<K, V>(entries: Seq<(K, V)>, key: K, value: V) -> Seq<(K, V)> {
    if has_key(entries, key) {
        entries.update(place_of(entries, key), (key, value))
    } else {
        entries.push((key, value))
    }
}

/// The value that `key` had, if any.
pub open spec fn value_of<K, V>(entries: Seq<(K, V)>, key: K) -> Option<V> {
    if has_key(entries, key) {
        Some(entries[place_of(entries, key)].1)
    } else {
        None
    }
}

/// Calls `IndexMap::new`: a map without entries.
#[verifier::external_body]
pub(crate) fn new_signature_map() -> (map: IndexMap<SignatureKey, i64, RandomState>)
    ensures
        signature_entries(map) == Seq::<(SignatureKey, i64)>::empty(),
{
    IndexMap::new()
}

/// Calls `IndexMap::insert`. As its documentation says: where the key is in
/// the map it keeps its place and its value is replaced; otherwise the pair
/// goes last.
#[verifier::external_body]
pub(crate) fn insert_signature(
    map: &mut IndexMap<SignatureKey, i64, RandomState>,
    key: SignatureKey,
    value: i64,
)
    ensures
        signature_entries(*final(map)) == with_entry(signature_entries(*old(map)), key, value),
{
    map.insert(key, value);
}

/// Calls `IndexMap::iter` and copies the pairs out, in the map's order.
#[verifier::external_body]
pub(crate) fn signature_pairs(map: &IndexMap<SignatureKey, i64, RandomState>) -> (pairs: Vec<
    (SignatureKey, i64),
>)
    ensures
        pairs@ == signature_entries(*map),
{
    map.iter().map(|(key, value)| (*key, *value)).collect()
}

/// Inserting keeps the keys distinct.
pub proof fn lemma_with_entry_distinct<K, V>(entries: Seq<(K, V)>, key: K, value: V)
    requires
        distinct_keys(entries),
    ensures
        distinct_keys(with_entry(entries, key, value)),
        has_key(with_entry(entries, key, value), key),
        value_of(with_entry(entries, key, value), key) == Some(value),
{
    let after = with_entry(entries, key, value);
    if has_key(entries, key) {
        let p = place_of(entries, key);
        assert(after[p].0 == key);
    } else {
        assert(after[entries.len() as int].0 == key);
        assert forall|i: int, j: int|
            0 <= i < after.len() && 0 <= j < after.len() && i != j implies after[i].0
            != after[j].0 by {
            if i < entries.len() && j < entries.len() {
            } else if i < entries.len() {
                assert(entries[i].0 != key);
            } else {
                assert(entries[j].0 != key);
            }
        }
    }
    let q = place_of(after, key);
    assert(after[q].0 == key);
}

/// The key that stands for `signature`.
pub open spec fn signature_key(signature: Signature) -> SignatureKey {
    (
        signature.challenge.lo,
        signature.challenge.hi,
        signature.response.lo,
        signature.response.hi,
        signature.pk_sig.lo,
        signature.pk_sig.hi,
        signature.pr_sig.lo,
        signature.pr_sig.hi,
    )
}

/// The signature that `key` stands for.
pub open spec fn key_signature(key: SignatureKey) -> Signature {
    Signature {
        challenge: Scalar { lo: key.0, hi: key.1 },
        response: Scalar { lo: key.2, hi: key.3 },
        pk_sig: Field { lo: key.4, hi: key.5 },
        pr_sig: Field { lo: key.6, hi: key.7 },
    }
}

/// The key that stands for `signature`.
pub fn to_signature_key(signature: &Signature) -> (key: SignatureKey)
    ensures
        key == signature_key(*signature),
        key_signature(key) == *signature,
{
    (
        signature.challenge.lo,
        signature.challenge.hi,
        signature.response.lo,
        signature.response.hi,
        signature.pk_sig.lo,
        signature.pk_sig.hi,
        signature.pr_sig.lo,
        signature.pr_sig.hi,
    )
}

/// The signature that `key` stands for.
pub fn from_signature_key(key: &SignatureKey) -> (signature: Signature)
    ensures
        signature == key_signature(*key),
        signature_key(signature) == *key,
{
    Signature {
        challenge: Scalar { lo: key.0, hi: key.1 },
        response: Scalar { lo: key.2, hi: key.3 },
        pk_sig: Field { lo: key.4, hi: key.5 },
        pr_sig: Field { lo: key.6, hi: key.7 },
    }
}

/// A transmission id as a map key: 0 for a ratification, 1 for a solution and
/// 2 for a transaction, then the id of a solution, the two halves of the id of
/// a transaction, and the checksum; what an id does not have is zero.
pub type TransmissionKey = (u8, u64, u128, u128, u128);

/// The key that stands for `id`.
pub open spec fn transmission_key(id: TransmissionId) -> TransmissionKey {
    match id {
        TransmissionId::Ratification => (0u8, 0u64, 0u128, 0u128, 0u128),
        TransmissionId::Solution { solution_id, checksum } => (
            1u8,
            solution_id,
            0u128,
            0u128,
            checksum,
        ),
        TransmissionId::Transaction { transaction_id, checksum } => (
            2u8,
            0u64,
            transaction_id.lo,
            transaction_id.hi,
            checksum,
        ),
    }
}

/// The id that `key` stands for.
pub open spec fn key_transmission(key: TransmissionKey) -> TransmissionId {
    if key.0 == 0 {
        TransmissionId::Ratification
    } else if key.0 == 1 {
        TransmissionId::Solution { solution_id: key.1, checksum: key.4 }
    } else {
        TransmissionId::Transaction {
            transaction_id: Field { lo: key.2, hi: key.3 },
            checksum: key.4,
        }
    }
}

/// The key that stands for `id`.
pub fn to_transmission_key(id: &TransmissionId) -> (key: TransmissionKey)
    ensures
        key == transmission_key(*id),
        key_transmission(key) == *id,
{
    match id {
        TransmissionId::Ratification => (0, 0, 0, 0, 0),
        TransmissionId::Solution { solution_id, checksum } => (1, *solution_id, 0, 0, *checksum),
        TransmissionId::Transaction { transaction_id, checksum } => (
            2,
            0,
            transaction_id.lo,
            transaction_id.hi,
            *checksum,
        ),
    }
}

/// The id that `key` stands for.
pub fn from_transmission_key(key: &TransmissionKey) -> (id: TransmissionId)
    ensures
        id == key_transmission(*key),
{
    if key.0 == 0 {
        TransmissionId::Ratification
    } else if key.0 == 1 {
        TransmissionId::Solution { solution_id: key.1, checksum: key.4 }
    } else {
        TransmissionId::Transaction {
            transaction_id: Field { lo: key.2, hi: key.3 },
            checksum: key.4,
        }
    }
}

/// The entries of a transmission map, in the order of insertion, each
/// payload as its bytes.
pub uninterp spec fn transmission_entries(
    map: IndexMap<TransmissionKey, Vec<u8>, RandomState>,
) -> Seq<(TransmissionKey, Seq<u8>)>;

/// Calls `IndexMap::new`: a map without entries.
#[verifier::external_body]
pub(crate) fn new_transmission_map() -> (map: IndexMap<TransmissionKey, Vec<u8>, RandomState>)
    ensures
        transmission_entries(map) == Seq::<(TransmissionKey, Seq<u8>)>::empty(),
{
    IndexMap::new()
}

/// Calls `IndexMap::contains_key`: whether an entry has `key`.
#[verifier::external_body]
pub(crate) fn holds_transmission(
    map: &IndexMap<TransmissionKey, Vec<u8>, RandomState>,
    key: &TransmissionKey,
) -> (found: bool)
    ensures
        found == has_key(transmission_entries(*map), *key),
{
    map.contains_key(key)
}

/// Calls `IndexMap::insert`. As its documentation says: where the key is in
/// the map it keeps its place and its value is replaced; otherwise the pair
/// goes last.
#[verifier::external_body]
pub(crate) fn insert_transmission(
    map: &mut IndexMap<TransmissionKey, Vec<u8>, RandomState>,
    key: TransmissionKey,
    payload: Vec<u8>,
)
    ensures
        transmission_entries(*final(map)) == with_entry(
            transmission_entries(*old(map)),
            key,
            payload@,
        ),
{
    map.insert(key, payload);
}

/// The pairs of `pairs`, each payload as its bytes.
pub open spec fn payload_views(pairs: Seq<(TransmissionKey, Vec<u8>)>) -> Seq<
    (TransmissionKey, Seq<u8>),
> {
    pairs.map_values(|pair: (TransmissionKey, Vec<u8>)| (pair.0, pair.1@))
}

/// Calls `IndexMap::into_iter` and collects the pairs, in the map's order.
#[verifier::external_body]
pub(crate) fn transmission_pairs(map: IndexMap<TransmissionKey, Vec<u8>, RandomState>) -> (pairs:
    Vec<(TransmissionKey, Vec<u8>)>)
    ensures
        payload_views(pairs@) == transmission_entries(map),
{
    map.into_iter().collect()
}

} // verus!
