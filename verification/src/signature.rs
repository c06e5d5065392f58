//! Signature checks made by cryptographic crates.

use vstd::prelude::*;
use ark_ec::hashing::HashToCurve;
use ark_ec::pairing::Pairing;
use ark_serialize::{CanonicalDeserialize, CanonicalSerialize};

verus! {

/// Whether `signature` is an Ed25519 signature of `message` under
/// `public_key`, as `sp_core` decides it.
pub uninterp spec fn ed25519_verifies(public_key: Seq<u8>, message: Seq<u8>, signature: Seq<u8>)
    -> bool;

/// Calls `sp_core::ed25519::Pair::verify`. The contract claims only that the
/// answer depends on nothing but the three byte strings.
#[verifier::external_body]
pub(crate) fn ed25519_verify(public_key: &[u8; 32], message: &[u8], signature: &[u8; 64]) -> (valid:
    bool)
    ensures
        valid == ed25519_verifies(public_key@, message@, signature@),
{
    <sp_core::ed25519::Pair as sp_core::Pair>::verify(
        &sp_core::ed25519::Signature::from_raw(*signature),
        message,
        &sp_core::ed25519::Public::from_raw(*public_key),
    )
}

/// The sum of two points of the group of BLS public keys, each given and
/// returned in its compressed form; `None` where one of the two is no point of
/// the group.
pub uninterp spec fn bls_key_sum(first: Seq<u8>, second: Seq<u8>) -> Option<Seq<u8>>;

/// The point of the second group that `message` is hashed to under the tag
/// `domain`, in compressed form; `None` where the hasher fails.
pub uninterp spec fn bls_message_point(message: Seq<u8>, domain: Seq<u8>) -> Option<Seq<u8>>;

/// The pairing of a point of the first group with a point of the second,
/// both given in compressed form, written out as bytes; `None` where one of
/// the two is no point of its group.
pub uninterp spec fn bls_pairing_value(key: Seq<u8>, point: Seq<u8>) -> Option<Seq<u8>>;

/// Reads two compressed points of `ark_bls12_381`'s first group, adds them and
/// writes the sum in compressed form. The contract claims only that the answer
/// depends on nothing but the two byte strings.
#[verifier::external_body]
pub(crate) fn bls_add_keys(first: &[u8; 48], second: &[u8; 48]) -> (sum: Option<[u8; 48]>)
    ensures
        sum matches Some(bytes) ==> bls_key_sum(first@, second@) == Some(bytes@),
        sum is None ==> bls_key_sum(first@, second@) is None,
{
    let first = ark_bls12_381::G1Affine::deserialize_compressed(&first[..]).ok()?;
    let second = ark_bls12_381::G1Affine::deserialize_compressed(&second[..]).ok()?;
    let mut sum = [0u8; 48];
    ark_ec::CurveGroup::into_affine(first + second).serialize_compressed(&mut sum[..]).ok()?;
    Some(sum)
}

/// Hashes a message to the second group of `ark_bls12_381` with `ark_ec`'s
/// `MapToCurveBasedHasher` (SHA-256 expander, Wahby-Boneh map) made for
/// `domain`, and writes the point in compressed form. The contract claims only
/// that the answer depends on nothing but the two byte strings.
#[verifier::external_body]
pub(crate) fn bls_hash_to_curve(message: &[u8; 32], domain: &[u8]) -> (point: Option<[u8; 96]>)
    ensures
        point matches Some(bytes) ==> bls_message_point(message@, domain@) == Some(bytes@),
        point is None ==> bls_message_point(message@, domain@) is None,
{
    let hasher = ark_ec::hashing::map_to_curve_hasher::MapToCurveBasedHasher::<
        ark_bls12_381::G2Projective,
        ark_ff::field_hashers::DefaultFieldHasher<sha2::Sha256, 128>,
        ark_ec::hashing::curve_maps::wb::WBMap<ark_bls12_381::g2::Config>,
    >::new(domain).ok()?;
    let mut point = [0u8; 96];
    hasher.hash(message).ok()?.serialize_compressed(&mut point[..]).ok()?;
    Some(point)
}

/// Reads a compressed point of each group and calls `pairing` of
/// `ark_bls12_381::Bls12_381` on them, then writes the value out. The
/// contract claims only that the answer depends on nothing but the two byte
/// strings.
#[verifier::external_body]
pub(crate) fn bls_pairing(key: &[u8; 48], point: &[u8; 96]) -> (value: Option<Vec<u8>>)
    ensures
        value matches Some(bytes) ==> bls_pairing_value(key@, point@) == Some(bytes@),
        value is None ==> bls_pairing_value(key@, point@) is None,
{
    let key = ark_bls12_381::G1Affine::deserialize_compressed(&key[..]).ok()?;
    let point = ark_bls12_381::G2Affine::deserialize_compressed(&point[..]).ok()?;
    let mut value = Vec::new();
    ark_bls12_381::Bls12_381::pairing(key, point).serialize_compressed(&mut value).ok()?;
    Some(value)
}

/// The generator of the group of BLS public keys, in compressed form.
pub open spec fn spec_bls_generator() -> Seq<u8> {
    seq![
        0x97u8, 0xf1, 0xd3, 0xa7, 0x31, 0x97, 0xd7, 0x94, 0x26, 0x95, 0x63, 0x8c, 0x4f, 0xa9, 0xac,
        0x0f, 0xc3, 0x68, 0x8c, 0x4f, 0x97, 0x74, 0xb9, 0x05, 0xa1, 0x4e, 0x3a, 0x3f, 0x17, 0x1b,
        0xac, 0x58, 0x6c, 0x55, 0xe8, 0x3f, 0xf9, 0x7a, 0x1a, 0xef, 0xfb, 0x3a, 0xf0, 0x0a, 0xdb,
        0x22, 0xc6, 0xbb,
    ]
}

/// Returns the generator of the group of BLS public keys, in compressed form.
pub fn bls_generator() -> (generator: [u8; 48])
    ensures
        generator@ == spec_bls_generator(),
{
    let generator = [
        0x97u8, 0xf1, 0xd3, 0xa7, 0x31, 0x97, 0xd7, 0x94, 0x26, 0x95, 0x63, 0x8c, 0x4f, 0xa9, 0xac,
        0x0f, 0xc3, 0x68, 0x8c, 0x4f, 0x97, 0x74, 0xb9, 0x05, 0xa1, 0x4e, 0x3a, 0x3f, 0x17, 0x1b,
        0xac, 0x58, 0x6c, 0x55, 0xe8, 0x3f, 0xf9, 0x7a, 0x1a, 0xef, 0xfb, 0x3a, 0xf0, 0x0a, 0xdb,
        0x22, 0xc6, 0xbb,
    ];
    assert(generator@ =~= spec_bls_generator());
    generator
}

/// Whether `signature` is a BLS signature of `message` under `public_key`:
/// the message has a point under `domain`, and the pairing of the key with
/// that point is the pairing of the generator with the signature.
pub open spec fn spec_bls_signature_verifies(
    public_key: Seq<u8>,
    message: Seq<u8>,
    signature: Seq<u8>,
    domain: Seq<u8>,
) -> bool {
    match bls_message_point(message, domain) {
        Some(point) => match bls_pairing_value(public_key, point) {
            Some(left) => bls_pairing_value(spec_bls_generator(), signature) == Some(left),
            None => false,
        },
        None => false,
    }
}

/// Checks a BLS signature: hashes the message to the curve and compares the
/// pairing of the key and the hashed message with the pairing of the
/// generator and the signature.
pub fn bls_signature_verifies(
    public_key: &[u8; 48],
    message: &[u8; 32],
    signature: &[u8; 96],
    domain: &[u8],
) -> (valid: bool)
    ensures
        valid == spec_bls_signature_verifies(public_key@, message@, signature@, domain@),
{
    let point = match bls_hash_to_curve(message, domain) {
        Some(point) => point,
        None => {
            return false;
        },
    };
    let left = match bls_pairing(public_key, &point) {
        Some(left) => left,
        None => {
            return false;
        },
    };
    let generator = bls_generator();
    let right = match bls_pairing(&generator, signature) {
        Some(right) => right,
        None => {
            return false;
        },
    };
    crate::bits::bytes_equal(left.as_slice(), right.as_slice())
}

} // verus!
