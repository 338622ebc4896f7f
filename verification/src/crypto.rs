//! The sequencer's signing key and the signature that attests to an order.

use crate::codec::encode_u64;
use crate::hash::{sha3_256, sha3_256_of, H256};
use fastcrypto::ed25519::{Ed25519KeyPair, Ed25519PublicKey, Ed25519Signature};
use fastcrypto::traits::{KeyPair, Signer, ToFromBytes, VerifyingKey};
use vstd::bytes::{lemma_auto_spec_u64_to_from_le_bytes, u64_to_le_bytes};
use vstd::prelude::*;

verus! {

/// The Ed25519 public key that belongs to a 32-byte secret key.
pub uninterp spec fn ed25519_public_key(secret: Seq<u8>) -> Seq<u8>;

/// The Ed25519 signature of `message` under a 32-byte secret key.
pub uninterp spec fn ed25519_signature(secret: Seq<u8>, message: Seq<u8>) -> Seq<u8>;

/// Whether `signature` is accepted as an Ed25519 signature of `message`
/// under `public_key`.
pub uninterp spec fn ed25519_verifies(
    public_key: Seq<u8>,
    message: Seq<u8>,
    signature: Seq<u8>,
) -> bool;

/// Derives the public key with `fastcrypto::ed25519::Ed25519KeyPair`
/// (`from_bytes`, then `public`). The contract claims that the key has 32
/// bytes and depends on the secret alone. Any 32 bytes are a valid secret, so
/// the second arm is never taken.
#[verifier::external_body]
fn ed25519_public_key_of(secret: &[u8; 32]) -> (public_key: Vec<u8>)
    ensures
        public_key@ == ed25519_public_key(secret@),
        public_key@.len() == 32,
{
    match Ed25519KeyPair::from_bytes(secret) {
        Ok(pair) => pair.public().as_ref().to_vec(),
        Err(_) => Vec::new(),
    }
}

/// Signs with `fastcrypto::ed25519::Ed25519KeyPair` (`from_bytes`, then
/// `sign`). The contract claims that the signature has 64 bytes, that it
/// depends on the secret and the message alone (Ed25519 signing draws no
/// randomness), and that it verifies under the public key of the secret.
/// Any 32 bytes are a valid secret, so the second arm is never taken.
#[verifier::external_body]
fn ed25519_sign(secret: &[u8; 32], message: &[u8]) -> (signature: Vec<u8>)
    ensures
        signature@ == ed25519_signature(secret@, message@),
        signature@.len() == 64,
        ed25519_verifies(ed25519_public_key(secret@), message@, signature@),
{
    match Ed25519KeyPair::from_bytes(secret) {
        Ok(pair) => pair.sign(message).as_ref().to_vec(),
        Err(_) => Vec::new(),
    }
}

/// Verifies with `fastcrypto::ed25519::Ed25519PublicKey::verify`. The
/// contract claims only that the answer depends on the three byte strings
/// alone; a key or signature that does not parse is not accepted.
#[verifier::external_body]
fn ed25519_verify(public_key: &[u8], message: &[u8], signature: &[u8]) -> (accepted: bool)
    ensures
        accepted == ed25519_verifies(public_key@, message@, signature@),
{
    match (Ed25519PublicKey::from_bytes(public_key), Ed25519Signature::from_bytes(signature)) {
        (Ok(key), Ok(sig)) => key.verify(message, &sig).is_ok(),
        _ => false,
    }
}

/// What the sequencer signs for a transaction: the transaction hash
/// followed by the order in little-endian bytes.
pub open spec fn witness_data(tx_hash: Seq<u8>, tx_order: u64) -> Seq<u8> {
    tx_hash + encode_u64(tx_order)
}

/// The digest of the witness, which is the signed message.
pub open spec fn witness_hash(tx_hash: Seq<u8>, tx_order: u64) -> Seq<u8> {
    sha3_256(witness_data(tx_hash, tx_order))
}

/// The signature by which the holder of `secret` attests that the
/// transaction with hash `tx_hash` has order `tx_order`.
pub open spec fn order_signature(secret: Seq<u8>, tx_hash: Seq<u8>, tx_order: u64) -> Seq<u8> {
    ed25519_signature(secret, witness_hash(tx_hash, tx_order))
}

/// Whether `signature` attests, under `public_key`, that the transaction
/// with hash `tx_hash` has order `tx_order`.
pub open spec fn order_signature_verifies(
    public_key: Seq<u8>,
    tx_hash: Seq<u8>,
    tx_order: u64,
    signature: Seq<u8>,
) -> bool {
    ed25519_verifies(public_key, witness_hash(tx_hash, tx_order), signature)
}

/// The address of the account that holds `secret`: the digest of its
/// public key.
pub open spec fn address_of(secret: Seq<u8>) -> Seq<u8> {
    sha3_256(ed25519_public_key(secret))
}

/// The witness binds hash and order: two witnesses are the same bytes only
/// if they are built from the same hash and the same order.
pub proof fn lemma_witness_binds(hash_a: Seq<u8>, order_a: u64, hash_b: Seq<u8>, order_b: u64)
    requires
        hash_a.len() == 32,
        hash_b.len() == 32,
        witness_data(hash_a, order_a) == witness_data(hash_b, order_b),
    ensures
        hash_a == hash_b,
        order_a == order_b,
{
    lemma_auto_spec_u64_to_from_le_bytes();
    let wa = witness_data(hash_a, order_a);
    let wb = witness_data(hash_b, order_b);
    assert(wa.take(32) =~= hash_a);
    assert(wb.take(32) =~= hash_b);
    assert(wa.skip(32) =~= encode_u64(order_a));
    assert(wb.skip(32) =~= encode_u64(order_b));
}

/// The key pair with which the sequencer signs. Its view is the secret key.
pub struct RoochKeyPair {
    secret: [u8; 32],
}

impl View for RoochKeyPair {
    type V = Seq<u8>;

    closed spec fn view(&self) -> Seq<u8> {
        self.secret@
    }
}

impl RoochKeyPair {
    /// The key pair of a secret key.
    pub fn from_secret(secret: [u8; 32]) -> (pair: RoochKeyPair)
        ensures
            pair@ == secret@,
    {
        RoochKeyPair { secret }
    }

    /// The public key.
    pub fn public(&self) -> (public_key: Vec<u8>)
        ensures
            public_key@ == ed25519_public_key(self@),
            public_key@.len() == 32,
    {
        ed25519_public_key_of(&self.secret)
    }

    /// The address of the key's holder.
    pub fn rooch_address(&self) -> (address: H256)
        ensures
            address@ == address_of(self@),
    {
        let public_key = self.public();
        sha3_256_of(public_key.as_slice())
    }

    /// Signs the witness of a transaction hash and an order. The signature
    /// verifies under the public key of this pair for that hash and order.
    pub fn sign_order(&self, tx_hash: &H256, tx_order: u64) -> (signature: Vec<u8>)
        ensures
            signature@ == order_signature(self@, tx_hash@, tx_order),
            signature@.len() == 64,
            order_signature_verifies(ed25519_public_key(self@), tx_hash@, tx_order, signature@),
    {
        let mut witness = tx_hash.to_vec();
        let order_bytes = u64_to_le_bytes(tx_order);
        witness.extend_from_slice(order_bytes.as_slice());
        assert(witness@ =~= witness_data(tx_hash@, tx_order));
        let digest = sha3_256_of(witness.as_slice());
        ed25519_sign(&self.secret, digest.0.as_slice())
    }
}

/// Checks a signature over the witness of a transaction hash and an order.
pub fn verify_order_signature(
    public_key: &[u8],
    tx_hash: &H256,
    tx_order: u64,
    signature: &[u8],
) -> (accepted: bool)
    ensures
        accepted == order_signature_verifies(public_key@, tx_hash@, tx_order, signature@),
{
    let mut witness = tx_hash.to_vec();
    let order_bytes = u64_to_le_bytes(tx_order);
    witness.extend_from_slice(order_bytes.as_slice());
    assert(witness@ =~= witness_data(tx_hash@, tx_order));
    let digest = sha3_256_of(witness.as_slice());
    ed25519_verify(public_key, digest.0.as_slice(), signature)
}

} // verus!
