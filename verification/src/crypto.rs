//! The cryptographic primitives of the engine, taken from the
//! `openmls_rust_crypto` provider for one fixed suite: HKDF and hashing with
//! SHA-256, AES-128-GCM, HPKE over X25519, and Ed25519 signatures.
//!
//! Nothing in this module is proved. Each function below states what the
//! provider's source shows of the call it makes; the rest of the crate is
//! verified against these statements. What a primitive computes is given a
//! name (a function of its inputs alone) rather than a definition.
//!
//! Every call builds a provider of its own, which seeds a random number
//! generator from the operating system and aborts where the system has no
//! entropy to give. Only `hpke_seal` and `random_bytes` draw from it.

use openmls_rust_crypto::{RandError, RustCrypto};
use openmls_traits::crypto::OpenMlsCrypto;
use openmls_traits::random::OpenMlsRand;
use openmls_traits::types::{
    AeadType, CryptoError, HashType, HpkeAeadType, HpkeCiphertext, HpkeConfig, HpkeKdfType,
    HpkeKemType, SignatureScheme,
};
use vstd::prelude::*;

verus! {

/// Length in bytes of a hash value, an extracted key and every secret of the
/// key schedule.
pub const HASH_LEN: usize = 32;

/// Length in bytes of a message key.
pub const KEY_LEN: usize = 16;

/// Length in bytes of a message nonce.
pub const NONCE_LEN: usize = 12;

/// Length in bytes of the authentication tag that closes a ciphertext.
pub const TAG_LEN: usize = 16;

/// Length in bytes of an HPKE public or private key.
pub const HPKE_KEY_LEN: usize = 32;

/// The longest output that one expansion can give: 255 hash blocks.
pub const MAX_EXPAND_LEN: usize = 8160;

/// The longest plaintext or associated data that the AEAD accepts.
pub const MAX_AEAD_LEN: u64 = 0x10_0000_0000;

/// The error type of the provider's cryptographic calls.
#[verifier::external_type_specification]
#[verifier::external_body]
pub struct ExCryptoError(CryptoError);

/// The error type of the provider's random number source.
#[verifier::external_type_specification]
#[verifier::external_body]
pub struct ExRandError(RandError);

/// What HKDF-Extract with SHA-256 gives for a salt and input key material.
pub uninterp spec fn hkdf_extracted(salt: Seq<u8>, ikm: Seq<u8>) -> Seq<u8>;

/// What HKDF-Expand with SHA-256 gives for a key, an info string and an
/// output length.
pub uninterp spec fn hkdf_expanded(prk: Seq<u8>, info: Seq<u8>, len: nat) -> Seq<u8>;

/// The SHA-256 digest of a byte string.
pub uninterp spec fn hashed(data: Seq<u8>) -> Seq<u8>;

/// The AES-128-GCM ciphertext (tag included) of a message, where sealing
/// succeeds.
pub uninterp spec fn aead_sealed(key: Seq<u8>, nonce: Seq<u8>, aad: Seq<u8>, msg: Seq<u8>) -> Seq<u8>;

/// What AES-128-GCM opening gives for a ciphertext: the message, or `None`
/// where the key is malformed or the tag does not match.
pub uninterp spec fn aead_opened(key: Seq<u8>, nonce: Seq<u8>, aad: Seq<u8>, ct: Seq<u8>) -> Option<
    Seq<u8>,
>;

/// The HPKE key pair (private, public) derived from input key material.
pub uninterp spec fn hpke_key_pair(ikm: Seq<u8>) -> (Seq<u8>, Seq<u8>);

/// What single-shot HPKE opening gives: the plaintext, or `None` on failure.
pub uninterp spec fn hpke_opened(
    private_key: Seq<u8>,
    info: Seq<u8>,
    aad: Seq<u8>,
    kem_output: Seq<u8>,
    ct: Seq<u8>,
) -> Option<Seq<u8>>;

/// The Ed25519 signature of `data` under a key pair, or `None` where the key
/// bytes are no key pair.
pub uninterp spec fn signed(key: Seq<u8>, data: Seq<u8>) -> Option<Seq<u8>>;

/// Whether `signature` is accepted for `data` under a public key.
pub uninterp spec fn signature_valid(public_key: Seq<u8>, data: Seq<u8>, signature: Seq<u8>) -> bool;

/// Calls `OpenMlsCrypto::hkdf_extract` of `RustCrypto` with SHA-256.
/// The call cannot fail for this hash, and its output has the hash length.
#[verifier::external_body]
pub(crate) fn hkdf_extract(salt: &[u8], ikm: &[u8]) -> (r: Result<Vec<u8>, CryptoError>)
    ensures
        r is Ok,
        r matches Ok(v) ==> v@ == hkdf_extracted(salt@, ikm@),
        r matches Ok(v) ==> v@.len() == HASH_LEN,
{
    match RustCrypto::default().hkdf_extract(HashType::Sha2_256, salt, ikm) {
        Ok(secret) => Ok(secret.as_slice().to_vec()),
        Err(e) => Err(e),
    }
}

/// Calls `OpenMlsCrypto::hkdf_expand` of `RustCrypto` with SHA-256.
/// The provider allocates the output before it looks at the length, so the
/// length is limited here to the 255 blocks that an expansion can give. The
/// call then succeeds exactly when the key has at least the hash length, and
/// the output has the length asked for.
#[verifier::external_body]
pub(crate) fn hkdf_expand(prk: &[u8], info: &[u8], len: usize) -> (r: Result<Vec<u8>, CryptoError>)
    requires
        len <= MAX_EXPAND_LEN,
    ensures
        r is Ok <==> prk@.len() >= HASH_LEN,
        r matches Ok(v) ==> v@ == hkdf_expanded(prk@, info@, len as nat),
        r matches Ok(v) ==> v@.len() == len,
{
    match RustCrypto::default().hkdf_expand(HashType::Sha2_256, prk, info, len) {
        Ok(secret) => Ok(secret.as_slice().to_vec()),
        Err(e) => Err(e),
    }
}

/// Calls `OpenMlsCrypto::hash` of `RustCrypto` with SHA-256, which cannot
/// fail and gives 32 bytes.
#[verifier::external_body]
pub(crate) fn hash(data: &[u8]) -> (r: Result<Vec<u8>, CryptoError>)
    ensures
        r is Ok,
        r matches Ok(v) ==> v@ == hashed(data@),
        r matches Ok(v) ==> v@.len() == HASH_LEN,
{
    RustCrypto::default().hash(HashType::Sha2_256, data)
}

/// Calls `OpenMlsCrypto::aead_encrypt` of `RustCrypto` with AES-128-GCM.
/// The provider converts the nonce to a fixed-size array and panics on
/// another length, hence the precondition. Sealing succeeds exactly for a
/// 16-byte key and inputs within the cipher's limits; the ciphertext is the
/// message length plus the tag, and opening it with the same key, nonce and
/// associated data gives the message back.
#[verifier::external_body]
pub(crate) fn aead_encrypt(key: &[u8], nonce: &[u8], aad: &[u8], msg: &[u8]) -> (r: Result<
    Vec<u8>,
    CryptoError,
>)
    requires
        nonce@.len() == NONCE_LEN,
    ensures
        r is Ok <==> (key@.len() == KEY_LEN && msg@.len() <= MAX_AEAD_LEN && aad@.len()
            <= MAX_AEAD_LEN),
        r matches Ok(ct) ==> ct@ == aead_sealed(key@, nonce@, aad@, msg@),
        r matches Ok(ct) ==> ct@.len() == msg@.len() + TAG_LEN,
        r matches Ok(ct) ==> aead_opened(key@, nonce@, aad@, ct@) == Some(msg@),
{
    RustCrypto::default().aead_encrypt(AeadType::Aes128Gcm, key, msg, nonce, aad)
}

/// Calls `OpenMlsCrypto::aead_decrypt` of `RustCrypto` with AES-128-GCM.
/// The nonce length is required for the same reason as in `aead_encrypt`.
#[verifier::external_body]
pub(crate) fn aead_decrypt(key: &[u8], nonce: &[u8], aad: &[u8], ct: &[u8]) -> (r: Result<
    Vec<u8>,
    CryptoError,
>)
    requires
        nonce@.len() == NONCE_LEN,
    ensures
        r is Ok <==> aead_opened(key@, nonce@, aad@, ct@) is Some,
        r matches Ok(msg) ==> aead_opened(key@, nonce@, aad@, ct@) == Some(msg@),
{
    RustCrypto::default().aead_decrypt(AeadType::Aes128Gcm, key, ct, nonce, aad)
}

/// Calls `OpenMlsCrypto::derive_hpke_keypair` of `RustCrypto` for X25519 and
/// returns the private and the public key, each of 32 bytes. For this KEM
/// the derivation is one extract and one expand and cannot fail.
#[verifier::external_body]
pub(crate) fn derive_hpke_keypair(ikm: &[u8]) -> (r: (Vec<u8>, Vec<u8>))
    ensures
        (r.0@, r.1@) == hpke_key_pair(ikm@),
        r.0@.len() == HPKE_KEY_LEN,
        r.1@.len() == HPKE_KEY_LEN,
{
    let config = HpkeConfig(HpkeKemType::DhKem25519, HpkeKdfType::HkdfSha256, HpkeAeadType::AesGcm128);
    let pair = RustCrypto::default().derive_hpke_keypair(config, ikm);
    (pair.private.to_vec(), pair.public)
}

/// Calls `OpenMlsCrypto::hpke_seal` of `RustCrypto` and returns the KEM
/// output and the ciphertext. The provider unwraps the result, which fails
/// for a public key of another length than 32 or an input beyond the AEAD's
/// limits, hence the preconditions. The ephemeral key is random, so the
/// output has no name; what is stated holds of every outcome: the lengths,
/// and that a non-empty plaintext comes back when the output is opened with
/// the private half of a derived key pair whose public half was sealed to.
/// (The provider's opening rejects a ciphertext that is no longer than the
/// tag, so an empty plaintext does not come back.)
#[verifier::external_body]
pub(crate) fn hpke_seal(public_key: &[u8], info: &[u8], aad: &[u8], ptxt: &[u8]) -> (r: (
    Vec<u8>,
    Vec<u8>,
))
    requires
        public_key@.len() == HPKE_KEY_LEN,
        ptxt@.len() <= MAX_AEAD_LEN,
        aad@.len() <= MAX_AEAD_LEN,
    ensures
        r.0@.len() == HPKE_KEY_LEN,
        r.1@.len() == ptxt@.len() + TAG_LEN,
        forall|ikm: Seq<u8>|
            (#[trigger] hpke_key_pair(ikm)).1 == public_key@ && ptxt@.len() > 0 ==> hpke_opened(
                hpke_key_pair(ikm).0,
                info@,
                aad@,
                r.0@,
                r.1@,
            ) == Some(ptxt@),
{
    let config = HpkeConfig(HpkeKemType::DhKem25519, HpkeKdfType::HkdfSha256, HpkeAeadType::AesGcm128);
    let sealed = RustCrypto::default().hpke_seal(config, public_key, info, aad, ptxt);
    (sealed.kem_output.as_slice().to_vec(), sealed.ciphertext.as_slice().to_vec())
}

/// Calls `OpenMlsCrypto::hpke_open` of `RustCrypto`, which reports every
/// failure as an error.
#[verifier::external_body]
pub(crate) fn hpke_open(
    private_key: &[u8],
    info: &[u8],
    aad: &[u8],
    kem_output: &[u8],
    ct: &[u8],
) -> (r: Result<Vec<u8>, CryptoError>)
    ensures
        r is Ok <==> hpke_opened(private_key@, info@, aad@, kem_output@, ct@) is Some,
        r matches Ok(ptxt) ==> hpke_opened(private_key@, info@, aad@, kem_output@, ct@) == Some(
            ptxt@,
        ),
{
    let config = HpkeConfig(HpkeKemType::DhKem25519, HpkeKdfType::HkdfSha256, HpkeAeadType::AesGcm128);
    let input = HpkeCiphertext { kem_output: kem_output.to_vec().into(), ciphertext: ct.to_vec().into() };
    RustCrypto::default().hpke_open(config, &input, private_key, info, aad)
}

/// Calls `OpenMlsCrypto::sign` of `RustCrypto` with Ed25519, which is
/// deterministic and fails where the key bytes are no key pair.
#[verifier::external_body]
pub(crate) fn sign(key: &[u8], data: &[u8]) -> (r: Result<Vec<u8>, CryptoError>)
    ensures
        r is Ok <==> signed(key@, data@) is Some,
        r matches Ok(signature) ==> signed(key@, data@) == Some(signature@),
{
    RustCrypto::default().sign(SignatureScheme::ED25519, data, key)
}

/// Length in bytes of a signature.
pub const SIGNATURE_LEN: usize = 64;

/// Whether a byte string can be handed to the verification of a signature:
/// a string of signature length has the three highest bits of its last byte
/// unset, as every signature that was made has.
pub open spec fn signature_shaped(signature: Seq<u8>) -> bool {
    signature.len() == SIGNATURE_LEN ==> (signature[63] & 0xE0u8) == 0u8
}

/// Calls `OpenMlsCrypto::verify_signature` of `RustCrypto` with Ed25519.
/// The provider turns a byte string of signature length into a signature by
/// a conversion that panics where one of the three highest bits of the last
/// byte is set, hence the precondition.
#[verifier::external_body]
pub(crate) fn verify_signature(public_key: &[u8], data: &[u8], signature: &[u8]) -> (r: Result<
    (),
    CryptoError,
>)
    requires
        signature_shaped(signature@),
    ensures
        r is Ok <==> signature_valid(public_key@, data@, signature@),
{
    RustCrypto::default().verify_signature(SignatureScheme::ED25519, data, public_key, signature)
}

/// The largest number of random bytes that is asked for at once.
pub const MAX_RANDOM_LEN: usize = 0x1_0000;

/// Calls `OpenMlsRand::random_vec` of `RustCrypto`, which allocates the
/// bytes asked for; the count is limited so that the allocation is small. Of
/// the bytes only the count is known.
#[verifier::external_body]
pub(crate) fn random_bytes(len: usize) -> (r: Result<Vec<u8>, RandError>)
    requires
        len <= MAX_RANDOM_LEN,
    ensures
        r matches Ok(v) ==> v@.len() == len,
{
    RustCrypto::default().random_vec(len)
}

} // verus!
