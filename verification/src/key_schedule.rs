//! The key schedule: the chain of derivations that turns the previous
//! epoch's init secret and a commit's shared secret into the secrets of the
//! new epoch.

use crate::bytes::{append_prefixed, spec_prefixed, spec_u64_be, u64_be, zeros};
use crate::crypto::{
    hkdf_expand, hkdf_expanded, hkdf_extract, hkdf_extracted, HASH_LEN, MAX_EXPAND_LEN,
};
use vstd::pervasive::unreached;
use vstd::prelude::*;
use vstd::string::*;

verus! {

/// The info string of a labelled expansion: the output length, then the
/// label and the context, each behind its own length.
pub open spec fn spec_kdf_label(len: nat, label: Seq<u8>, context: Seq<u8>) -> Seq<u8> {
    spec_u64_be(len as u64) + spec_prefixed(label) + spec_prefixed(context)
}

/// The labelled expansion of a secret.
pub open spec fn spec_expand_with_label(
    secret: Seq<u8>,
    label: Seq<u8>,
    context: Seq<u8>,
    len: nat,
) -> Seq<u8> {
    hkdf_expanded(secret, spec_kdf_label(len, label, context), len)
}

/// A secret of hash length derived from another under a label.
pub open spec fn spec_derive_secret(secret: Seq<u8>, label: Seq<u8>) -> Seq<u8> {
    spec_expand_with_label(secret, label, Seq::empty(), HASH_LEN as nat)
}

/// A key of hash length that holds only zero bytes.
pub open spec fn spec_zero_key() -> Seq<u8> {
    Seq::new(HASH_LEN as nat, |i: int| 0u8)
}

/// The joiner secret of an epoch.
pub open spec fn spec_joiner_secret(
    prev_init_secret: Seq<u8>,
    commit_secret: Seq<u8>,
    context: Seq<u8>,
) -> Seq<u8> {
    spec_expand_with_label(
        hkdf_extracted(prev_init_secret, commit_secret),
        "joiner".spec_bytes(),
        context,
        HASH_LEN as nat,
    )
}

/// The epoch secret that a joiner secret gives in a group context.
pub open spec fn spec_epoch_secret(joiner_secret: Seq<u8>, context: Seq<u8>) -> Seq<u8> {
    spec_expand_with_label(
        hkdf_extracted(joiner_secret, spec_zero_key()),
        "epoch".spec_bytes(),
        context,
        HASH_LEN as nat,
    )
}

/// The secrets of one epoch, as byte strings.
pub struct SecretsView {
    pub joiner_secret: Seq<u8>,
    pub epoch_secret: Seq<u8>,
    pub sender_data_secret: Seq<u8>,
    pub encryption_secret: Seq<u8>,
    pub exporter_secret: Seq<u8>,
    pub confirmation_key: Seq<u8>,
    pub membership_key: Seq<u8>,
    pub resumption_secret: Seq<u8>,
    pub init_secret: Seq<u8>,
}

/// The secrets that follow from a joiner secret in a group context. This is
/// what a committer and a member who joins by a welcome both compute.
pub open spec fn spec_secrets_from_joiner(joiner_secret: Seq<u8>, context: Seq<u8>) -> SecretsView {
    let epoch_secret = spec_epoch_secret(joiner_secret, context);
    SecretsView {
        joiner_secret,
        epoch_secret,
        sender_data_secret: spec_derive_secret(epoch_secret, "sender data".spec_bytes()),
        encryption_secret: spec_derive_secret(epoch_secret, "encryption".spec_bytes()),
        exporter_secret: spec_derive_secret(epoch_secret, "exporter".spec_bytes()),
        confirmation_key: spec_derive_secret(epoch_secret, "confirm".spec_bytes()),
        membership_key: spec_derive_secret(epoch_secret, "membership".spec_bytes()),
        resumption_secret: spec_derive_secret(epoch_secret, "resumption".spec_bytes()),
        init_secret: spec_derive_secret(epoch_secret, "init".spec_bytes()),
    }
}

/// The secrets of the epoch that a commit opens.
pub open spec fn spec_derive_epoch_secrets(
    prev_init_secret: Seq<u8>,
    commit_secret: Seq<u8>,
    context: Seq<u8>,
) -> SecretsView {
    spec_secrets_from_joiner(spec_joiner_secret(prev_init_secret, commit_secret, context), context)
}

/// The secrets of one epoch. Each is `HASH_LEN` bytes long.
#[derive(Debug, Clone, PartialEq, Eq)]
pub struct KeyScheduleSecrets {
    pub joiner_secret: Vec<u8>,
    pub epoch_secret: Vec<u8>,
    pub sender_data_secret: Vec<u8>,
    pub encryption_secret: Vec<u8>,
    pub exporter_secret: Vec<u8>,
    pub confirmation_key: Vec<u8>,
    pub membership_key: Vec<u8>,
    pub resumption_secret: Vec<u8>,
    pub init_secret: Vec<u8>,
}

impl View for KeyScheduleSecrets {
    type V = SecretsView;

    open spec fn view(&self) -> SecretsView {
        SecretsView {
            joiner_secret: self.joiner_secret@,
            epoch_secret: self.epoch_secret@,
            sender_data_secret: self.sender_data_secret@,
            encryption_secret: self.encryption_secret@,
            exporter_secret: self.exporter_secret@,
            confirmation_key: self.confirmation_key@,
            membership_key: self.membership_key@,
            resumption_secret: self.resumption_secret@,
            init_secret: self.init_secret@,
        }
    }
}

impl SecretsView {
    /// Every secret has the hash length.
    pub open spec fn wf(self) -> bool {
        &&& self.joiner_secret.len() == HASH_LEN
        &&& self.epoch_secret.len() == HASH_LEN
        &&& self.sender_data_secret.len() == HASH_LEN
        &&& self.encryption_secret.len() == HASH_LEN
        &&& self.exporter_secret.len() == HASH_LEN
        &&& self.confirmation_key.len() == HASH_LEN
        &&& self.membership_key.len() == HASH_LEN
        &&& self.resumption_secret.len() == HASH_LEN
        &&& self.init_secret.len() == HASH_LEN
    }
}

impl KeyScheduleSecrets {
    /// Every secret has the hash length.
    pub open spec fn wf(&self) -> bool {
        self@.wf()
    }

    /// Whether every secret has the hash length.
    pub fn has_lengths(&self) -> (ok: bool)
        ensures
            ok == self.wf(),
    {
        self.joiner_secret.len() == HASH_LEN && self.epoch_secret.len() == HASH_LEN
            && self.sender_data_secret.len() == HASH_LEN && self.encryption_secret.len()
            == HASH_LEN && self.exporter_secret.len() == HASH_LEN && self.confirmation_key.len()
            == HASH_LEN && self.membership_key.len() == HASH_LEN && self.resumption_secret.len()
            == HASH_LEN && self.init_secret.len() == HASH_LEN
    }

    /// A copy of these secrets.
    pub fn duplicate(&self) -> (out: KeyScheduleSecrets)
        ensures
            out@ == self@,
    {
        KeyScheduleSecrets {
            joiner_secret: crate::bytes::copy(self.joiner_secret.as_slice()),
            epoch_secret: crate::bytes::copy(self.epoch_secret.as_slice()),
            sender_data_secret: crate::bytes::copy(self.sender_data_secret.as_slice()),
            encryption_secret: crate::bytes::copy(self.encryption_secret.as_slice()),
            exporter_secret: crate::bytes::copy(self.exporter_secret.as_slice()),
            confirmation_key: crate::bytes::copy(self.confirmation_key.as_slice()),
            membership_key: crate::bytes::copy(self.membership_key.as_slice()),
            resumption_secret: crate::bytes::copy(self.resumption_secret.as_slice()),
            init_secret: crate::bytes::copy(self.init_secret.as_slice()),
        }
    }
}

/// The info string of a labelled expansion.
pub fn kdf_label(len: usize, label: &str, context: &[u8]) -> (info: Vec<u8>)
    ensures
        info@ == spec_kdf_label(len as nat, label.spec_bytes(), context@),
{
    let mut info = u64_be(len as u64);
    append_prefixed(&mut info, label.as_bytes());
    append_prefixed(&mut info, context);
    info
}

/// Expands `secret` under a label and a context to `len` bytes. This is
/// possible exactly when the secret has at least the hash length and `len` is
/// at most 255 hash blocks.
pub fn expand_with_label(secret: &[u8], label: &str, context: &[u8], len: usize) -> (out: Option<
    Vec<u8>,
>)
    ensures
        out is Some <==> secret@.len() >= HASH_LEN && len <= MAX_EXPAND_LEN,
        out matches Some(v) ==> v@ == spec_expand_with_label(
            secret@,
            label.spec_bytes(),
            context@,
            len as nat,
        ) && v@.len() == len,
{
    if len > MAX_EXPAND_LEN {
        return None;
    }
    let info = kdf_label(len, label, context);
    match hkdf_expand(secret, info.as_slice(), len) {
        Ok(v) => Some(v),
        Err(_) => None,
    }
}

/// Derives a secret of hash length from `secret` under a label.
pub fn derive_secret(secret: &[u8], label: &str) -> (out: Vec<u8>)
    requires
        secret@.len() >= HASH_LEN,
    ensures
        out@ == spec_derive_secret(secret@, label.spec_bytes()),
        out@.len() == HASH_LEN,
{
    let empty: Vec<u8> = Vec::new();
    assert(empty@ =~= Seq::<u8>::empty());
    match expand_with_label(secret, label, empty.as_slice(), HASH_LEN) {
        Some(v) => v,
        None => unreached(),
    }
}

/// HKDF-Extract, whose output has the hash length.
pub fn extract(salt: &[u8], ikm: &[u8]) -> (out: Vec<u8>)
    ensures
        out@ == hkdf_extracted(salt@, ikm@),
        out@.len() == HASH_LEN,
{
    match hkdf_extract(salt, ikm) {
        Ok(v) => v,
        Err(_) => unreached(),
    }
}

/// The joiner secret of the epoch that a commit opens.
pub fn derive_joiner_secret(prev_init_secret: &[u8], commit_secret: &[u8], context: &[u8]) -> (out:
    Vec<u8>)
    ensures
        out@ == spec_joiner_secret(prev_init_secret@, commit_secret@, context@),
        out@.len() == HASH_LEN,
{
    let prk = extract(prev_init_secret, commit_secret);
    match expand_with_label(prk.as_slice(), "joiner", context, HASH_LEN) {
        Some(v) => v,
        None => unreached(),
    }
}

/// The secrets that follow from a joiner secret in a group context.
pub fn secrets_from_joiner(joiner_secret: &[u8], context: &[u8]) -> (out: KeyScheduleSecrets)
    ensures
        out@ == spec_secrets_from_joiner(joiner_secret@, context@),
        joiner_secret@.len() == HASH_LEN ==> out.wf(),
{
    let zero = zeros(HASH_LEN);
    let prk = extract(joiner_secret, zero.as_slice());
    let epoch_secret = match expand_with_label(prk.as_slice(), "epoch", context, HASH_LEN) {
        Some(v) => v,
        None => unreached(),
    };
    let e = epoch_secret.as_slice();
    let sender_data_secret = derive_secret(e, "sender data");
    let encryption_secret = derive_secret(e, "encryption");
    let exporter_secret = derive_secret(e, "exporter");
    let confirmation_key = derive_secret(e, "confirm");
    let membership_key = derive_secret(e, "membership");
    let resumption_secret = derive_secret(e, "resumption");
    let init_secret = derive_secret(e, "init");
    KeyScheduleSecrets {
        joiner_secret: crate::bytes::copy(joiner_secret),
        epoch_secret,
        sender_data_secret,
        encryption_secret,
        exporter_secret,
        confirmation_key,
        membership_key,
        resumption_secret,
        init_secret,
    }
}

/// Derives the secrets of a new epoch from the previous epoch's init secret,
/// the commit's shared secret and the group context of the new epoch. The
/// derivation is a function of its three inputs and touches nothing else.
pub fn derive_epoch_secrets(prev_init_secret: &[u8], commit_secret: &[u8], joiner_context: &[u8]) -> (out:
    KeyScheduleSecrets)
    ensures
        out@ == spec_derive_epoch_secrets(prev_init_secret@, commit_secret@, joiner_context@),
        out.wf(),
{
    let joiner = derive_joiner_secret(prev_init_secret, commit_secret, joiner_context);
    secrets_from_joiner(joiner.as_slice(), joiner_context)
}

/// A message authentication code: HKDF-Extract keyed with `key` over `data`.
pub open spec fn spec_mac(key: Seq<u8>, data: Seq<u8>) -> Seq<u8> {
    hkdf_extracted(key, data)
}

/// The authentication code of `data` under `key`.
pub fn mac(key: &[u8], data: &[u8]) -> (tag: Vec<u8>)
    ensures
        tag@ == spec_mac(key@, data@),
        tag@.len() == HASH_LEN,
{
    extract(key, data)
}

} // verus!
