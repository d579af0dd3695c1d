//! The welcome: what a new member needs to enter a group without having
//! seen any of its commits. The epoch and the joiner secret travel sealed
//! to the HPKE key of the new member's key package; a snapshot of the
//! ratchet tree may travel with them.

use crate::bytes::{append, spec_u64_be, spec_u64_from_be, u64_be};
use crate::crypto::{hpke_key_pair, hpke_opened, hpke_seal, HASH_LEN, HPKE_KEY_LEN, MAX_AEAD_LEN};
use crate::ratchet_tree::{NodeView, RatchetTree};
use vstd::prelude::*;
use vstd::string::*;

verus! {

/// Whether what was sealed to `public_key` opens to `plaintext` under the
/// private half of every derived key pair with that public half.
pub open spec fn sealed_for(
    public_key: Seq<u8>,
    info: Seq<u8>,
    aad: Seq<u8>,
    kem_output: Seq<u8>,
    ciphertext: Seq<u8>,
    plaintext: Seq<u8>,
) -> bool {
    forall|ikm: Seq<u8>|
        (#[trigger] hpke_key_pair(ikm)).1 == public_key ==> hpke_opened(
            hpke_key_pair(ikm).0,
            info,
            aad,
            kem_output,
            ciphertext,
        ) == Some(plaintext)
}

/// Seals a non-empty plaintext to an HPKE public key.
pub(crate) fn seal_to(public_key: &[u8], info: &[u8], aad: &[u8], plaintext: &[u8]) -> (out: (
    Vec<u8>,
    Vec<u8>,
))
    requires
        public_key@.len() == HPKE_KEY_LEN,
        0 < plaintext@.len() <= MAX_AEAD_LEN,
        aad@.len() <= MAX_AEAD_LEN,
    ensures
        sealed_for(public_key@, info@, aad@, out.0@, out.1@, plaintext@),
{
    hpke_seal(public_key, info, aad, plaintext)
}

/// The info string under which a welcome is sealed.
pub open spec fn spec_welcome_info() -> Seq<u8> {
    "welcome".spec_bytes()
}

/// What a welcome seals: the epoch that the new member enters, and the
/// joiner secret of that epoch.
pub open spec fn spec_welcome_payload(epoch: nat, joiner_secret: Seq<u8>) -> Seq<u8> {
    spec_u64_be(epoch as u64) + joiner_secret
}

/// The length of what a welcome seals.
pub const WELCOME_PAYLOAD_LEN: usize = 40;

/// Reading a welcome payload gives back the epoch and the joiner secret.
pub proof fn lemma_welcome_payload(epoch: u64, joiner_secret: Seq<u8>)
    requires
        joiner_secret.len() == HASH_LEN,
    ensures
        spec_welcome_payload(epoch as nat, joiner_secret).len() == WELCOME_PAYLOAD_LEN,
        spec_u64_from_be(spec_welcome_payload(epoch as nat, joiner_secret).subrange(0, 8)) == epoch,
        spec_welcome_payload(epoch as nat, joiner_secret).subrange(8, 40) == joiner_secret,
{
    crate::bytes::lemma_u64_be_round_trip(epoch);
    let p = spec_welcome_payload(epoch as nat, joiner_secret);
    assert(p.subrange(0, 8) =~= spec_u64_be(epoch));
    assert(p.subrange(8, 40) =~= joiner_secret);
}

/// The payload of a welcome.
pub fn welcome_payload(epoch: u64, joiner_secret: &[u8]) -> (out: Vec<u8>)
    ensures
        out@ == spec_welcome_payload(epoch as nat, joiner_secret@),
        out@.len() == 8 + joiner_secret@.len(),
{
    let mut out = u64_be(epoch);
    append(&mut out, joiner_secret);
    out
}

/// A welcome, as plain values.
pub struct WelcomeView {
    pub recipient: Seq<u8>,
    pub group_id: Seq<u8>,
    pub kem_output: Seq<u8>,
    pub ciphertext: Seq<u8>,
    pub confirmed_transcript_hash: Seq<u8>,
    pub confirmation_tag: Seq<u8>,
    pub tree: Option<Seq<NodeView>>,
}

/// A welcome for one new member.
#[derive(Debug, Clone, PartialEq, Eq)]
pub struct Welcome {
    /// The reference of the key package that the welcome is sealed to.
    pub recipient: Vec<u8>,
    /// The group that the new member enters.
    pub group_id: Vec<u8>,
    /// The KEM output of the seal.
    pub kem_output: Vec<u8>,
    /// The sealed epoch and joiner secret.
    pub ciphertext: Vec<u8>,
    /// The transcript hash that the commit confirmed.
    pub confirmed_transcript_hash: Vec<u8>,
    /// The confirmation tag of the commit.
    pub confirmation_tag: Vec<u8>,
    /// A snapshot of the ratchet tree, if one travels with the welcome.
    pub tree: Option<RatchetTree>,
}

impl View for Welcome {
    type V = WelcomeView;

    open spec fn view(&self) -> WelcomeView {
        WelcomeView {
            recipient: self.recipient@,
            group_id: self.group_id@,
            kem_output: self.kem_output@,
            ciphertext: self.ciphertext@,
            confirmed_transcript_hash: self.confirmed_transcript_hash@,
            confirmation_tag: self.confirmation_tag@,
            tree: match self.tree {
                Some(t) => Some(t@),
                None => None,
            },
        }
    }
}

impl Welcome {
    /// Whether the snapshot, if there is one, is a well-formed tree.
    pub open spec fn wf(&self) -> bool {
        self.tree matches Some(t) ==> t.wf()
    }

    /// This welcome with a snapshot of the tree attached.
    pub fn with_tree(self, tree: RatchetTree) -> (out: Welcome)
        requires
            tree.wf(),
        ensures
            out.wf(),
            out@ == (WelcomeView { tree: Some(tree@), ..self@ }),
    {
        Welcome {
            recipient: self.recipient,
            group_id: self.group_id,
            kem_output: self.kem_output,
            ciphertext: self.ciphertext,
            confirmed_transcript_hash: self.confirmed_transcript_hash,
            confirmation_tag: self.confirmation_tag,
            tree: Some(tree),
        }
    }
}

/// The views of a sequence of welcomes.
pub open spec fn welcome_views(v: Seq<Welcome>) -> Seq<WelcomeView> {
    Seq::new(v.len(), |i: int| v[i]@)
}

} // verus!
