//! Key packages: the public material with which a member enters the tree.
//! A key package binds an identity and its long-term signature key to an
//! HPKE key, under a signature by that signature key.

use crate::bytes::{append_prefixed, copy, spec_prefixed};
use crate::crypto::{
    derive_hpke_keypair, hash, hashed, hpke_key_pair, random_bytes, sign, signature_shaped,
    signature_valid, signed, verify_signature, HASH_LEN, HPKE_KEY_LEN, SIGNATURE_LEN,
};
use crate::errors::EngineError;
use vstd::pervasive::unreached;
use vstd::prelude::*;

verus! {

/// A key package, as byte strings.
pub struct KeyPackageView {
    pub identity: Seq<u8>,
    pub signature_key: Seq<u8>,
    pub init_key: Seq<u8>,
    pub signature: Seq<u8>,
}

/// A key package.
#[derive(Debug, Clone, PartialEq, Eq)]
pub struct KeyPackage {
    /// The identity that the credential names.
    pub identity: Vec<u8>,
    /// The public key under which this member's signatures verify.
    pub signature_key: Vec<u8>,
    /// The HPKE public key to which secrets for this member are sealed.
    pub init_key: Vec<u8>,
    /// The signature over the three fields above.
    pub signature: Vec<u8>,
}

impl View for KeyPackage {
    type V = KeyPackageView;

    open spec fn view(&self) -> KeyPackageView {
        KeyPackageView {
            identity: self.identity@,
            signature_key: self.signature_key@,
            init_key: self.init_key@,
            signature: self.signature@,
        }
    }
}

impl KeyPackageView {
    /// The bytes that the signature covers.
    pub open spec fn to_be_signed(self) -> Seq<u8> {
        spec_prefixed(self.identity) + spec_prefixed(self.signature_key) + spec_prefixed(
            self.init_key,
        )
    }

    /// The canonical encoding.
    pub open spec fn encode(self) -> Seq<u8> {
        self.to_be_signed() + spec_prefixed(self.signature)
    }

    /// The reference by which the key package is named: the hash of its
    /// encoding.
    pub open spec fn hash_ref(self) -> Seq<u8> {
        hashed(self.encode())
    }

    /// Whether the key package can be used: its HPKE key has the right
    /// length, and its signature has the shape of a signature and verifies
    /// under its own signature key.
    pub open spec fn valid(self) -> bool {
        self.init_key.len() == HPKE_KEY_LEN && signature_shaped(self.signature) && signature_valid(
            self.signature_key,
            self.to_be_signed(),
            self.signature,
        )
    }
}

/// The key package made for an identity from input key material, with the
/// private key that belongs to it; `None` where the signing key is no key
/// pair.
pub open spec fn spec_key_package_from_seed(
    identity: Seq<u8>,
    signature_key: Seq<u8>,
    signing_key: Seq<u8>,
    ikm: Seq<u8>,
) -> Option<(KeyPackageView, Seq<u8>)> {
    let unsigned = KeyPackageView {
        identity,
        signature_key,
        init_key: hpke_key_pair(ikm).1,
        signature: Seq::empty(),
    };
    match signed(signing_key, unsigned.to_be_signed()) {
        Some(signature) => Some((KeyPackageView { signature, ..unsigned }, hpke_key_pair(ikm).0)),
        None => None,
    }
}

/// Whether a byte string has the shape that the verification of a signature
/// asks for.
pub fn has_signature_shape(signature: &[u8]) -> (ok: bool)
    ensures
        ok == signature_shaped(signature@),
{
    signature.len() != SIGNATURE_LEN || (signature[63] & 0xE0u8) == 0u8
}

/// A key package together with the private key of its HPKE key.
#[derive(Debug, Clone, PartialEq, Eq)]
pub struct KeyPackageBundle {
    pub key_package: KeyPackage,
    pub private_key: Vec<u8>,
}

impl KeyPackage {
    /// A copy of this key package.
    pub fn duplicate(&self) -> (out: KeyPackage)
        ensures
            out@ == self@,
    {
        KeyPackage {
            identity: copy(self.identity.as_slice()),
            signature_key: copy(self.signature_key.as_slice()),
            init_key: copy(self.init_key.as_slice()),
            signature: copy(self.signature.as_slice()),
        }
    }

    /// The bytes that the signature covers.
    pub fn to_be_signed(&self) -> (out: Vec<u8>)
        ensures
            out@ == self@.to_be_signed(),
    {
        let mut out: Vec<u8> = Vec::new();
        append_prefixed(&mut out, self.identity.as_slice());
        append_prefixed(&mut out, self.signature_key.as_slice());
        append_prefixed(&mut out, self.init_key.as_slice());
        assert(out@ =~= self@.to_be_signed());
        out
    }

    /// The canonical encoding.
    pub fn encode(&self) -> (out: Vec<u8>)
        ensures
            out@ == self@.encode(),
    {
        let mut out = self.to_be_signed();
        append_prefixed(&mut out, self.signature.as_slice());
        out
    }

    /// The reference by which this key package is named.
    pub fn hash_ref(&self) -> (out: Vec<u8>)
        ensures
            out@ == self@.hash_ref(),
            out@.len() == HASH_LEN,
    {
        let encoded = self.encode();
        match hash(encoded.as_slice()) {
            Ok(v) => v,
            Err(_) => unreached(),
        }
    }

    /// Whether this key package can be used.
    pub fn verify(&self) -> (ok: bool)
        ensures
            ok == self@.valid(),
    {
        if self.init_key.len() != HPKE_KEY_LEN || !has_signature_shape(self.signature.as_slice()) {
            return false;
        }
        let tbs = self.to_be_signed();
        match verify_signature(
            self.signature_key.as_slice(),
            tbs.as_slice(),
            self.signature.as_slice(),
        ) {
            Ok(_) => true,
            Err(_) => false,
        }
    }

    /// Whether two key packages name the same identity.
    pub fn same_identity(&self, other: &KeyPackage) -> (same: bool)
        ensures
            same == (self@.identity == other@.identity),
    {
        crate::bytes::equal(self.identity.as_slice(), other.identity.as_slice())
    }

    /// Whether two key packages hold the same bytes.
    pub fn same(&self, other: &KeyPackage) -> (same: bool)
        ensures
            same == (self@ == other@),
    {
        crate::bytes::equal(self.identity.as_slice(), other.identity.as_slice())
            && crate::bytes::equal(self.signature_key.as_slice(), other.signature_key.as_slice())
            && crate::bytes::equal(self.init_key.as_slice(), other.init_key.as_slice())
            && crate::bytes::equal(self.signature.as_slice(), other.signature.as_slice())
    }
}

impl KeyPackageBundle {
    /// A copy of this bundle.
    pub fn duplicate(&self) -> (out: KeyPackageBundle)
        ensures
            out.key_package@ == self.key_package@,
            out.private_key@ == self.private_key@,
    {
        KeyPackageBundle {
            key_package: self.key_package.duplicate(),
            private_key: copy(self.private_key.as_slice()),
        }
    }

    /// Makes the key package of `identity` from input key material: the HPKE
    /// key pair is derived from `ikm`, and the package is signed with
    /// `signing_key`. Fails with `BadSigningKey` exactly where the signing key
    /// is no key pair.
    pub fn from_seed(identity: &[u8], signature_key: &[u8], signing_key: &[u8], ikm: &[u8]) -> (r:
        Result<KeyPackageBundle, EngineError>)
        ensures
            match spec_key_package_from_seed(identity@, signature_key@, signing_key@, ikm@) {
                Some((package, private_key)) => r matches Ok(bundle) && bundle.key_package@
                    == package && bundle.private_key@ == private_key && package.init_key.len()
                    == HPKE_KEY_LEN,
                None => r matches Err(e) && e == EngineError::BadSigningKey,
            },
    {
        let (private_key, public_key) = derive_hpke_keypair(ikm);
        let mut package = KeyPackage {
            identity: copy(identity),
            signature_key: copy(signature_key),
            init_key: public_key,
            signature: Vec::new(),
        };
        let tbs = package.to_be_signed();
        match sign(signing_key, tbs.as_slice()) {
            Ok(signature) => {
                package.signature = signature;
                Ok(KeyPackageBundle { key_package: package, private_key })
            },
            Err(_) => Err(EngineError::BadSigningKey),
        }
    }

    /// Makes a key package of `identity` with a fresh HPKE key pair. What
    /// comes back is `from_seed` of some 32 random bytes; `NoRandomness` is
    /// returned where the random source fails.
    pub fn generate(identity: &[u8], signature_key: &[u8], signing_key: &[u8]) -> (r: Result<
        KeyPackageBundle,
        EngineError,
    >)
        ensures
            r matches Ok(bundle) ==> exists|ikm: Seq<u8>|
                ikm.len() == HASH_LEN && #[trigger] spec_key_package_from_seed(
                    identity@,
                    signature_key@,
                    signing_key@,
                    ikm,
                ) == Some((bundle.key_package@, bundle.private_key@)),
            r matches Err(e) ==> e == EngineError::NoRandomness || e == EngineError::BadSigningKey,
    {
        match random_bytes(HASH_LEN) {
            Ok(ikm) => KeyPackageBundle::from_seed(identity, signature_key, signing_key, ikm.as_slice()),
            Err(_) => Err(EngineError::NoRandomness),
        }
    }
}

} // verus!
