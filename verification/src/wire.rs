//! The wire format: how messages, welcomes and key packages are written to
//! bytes and read back. Reading is the inverse of writing: a byte string is
//! read as a value exactly when it is the encoding of that value.

use crate::bytes::{
    append, append_prefixed, byte_views, copy_range, lemma_u64_be_round_trip, spec_concat_prefixed,
    spec_list, spec_prefixed, spec_u64_be, spec_u64_from_be, u64_be, u64_from_be,
};
use crate::framing::{
    proposal_views, sealed_views, BodyView, CiphertextFrame, CiphertextView, Commit, CommitView,
    ContentType, FrameHeader, HandshakeBody, HeaderView, MessageView, PlaintextFrame, PlaintextView,
    Proposal, ProposalView, QueuedProposal, QueuedProposalView, SealedSecret, SealedSecretView,
    UpdatePath, UpdatePathView, WireMessage,
};
use crate::key_package::{KeyPackage, KeyPackageView};
use crate::ratchet_tree::{node_views, spec_encode_node, tree_wf, Node, NodeView, RatchetTree};
use crate::welcome::{Welcome, WelcomeView};
use vstd::prelude::*;

verus! {

/// Writing out the number that eight bytes spell gives the eight bytes.
pub proof fn lemma_u64_from_be_round_trip(b: Seq<u8>)
    requires
        b.len() == 8,
    ensures
        spec_u64_be(spec_u64_from_be(b)) == b,
{
    reveal(spec_u64_be);
    reveal(spec_u64_from_be);
    let (b0, b1, b2, b3, b4, b5, b6, b7) = (b[0], b[1], b[2], b[3], b[4], b[5], b[6], b[7]);
    let x: u64 = spec_u64_from_be(b);
    assert(x == b0 as u64 * 0x100_0000_0000_0000u64 + b1 as u64 * 0x1_0000_0000_0000u64 + b2 as u64
        * 0x100_0000_0000u64 + b3 as u64 * 0x1_0000_0000u64 + b4 as u64 * 0x100_0000u64 + b5 as u64
        * 0x1_0000u64 + b6 as u64 * 0x100u64 + b7 as u64);
    assert(x / 0x100_0000_0000_0000 == b0 && x / 0x1_0000_0000_0000 % 256 == b1 && x
        / 0x100_0000_0000 % 256 == b2 && x / 0x1_0000_0000 % 256 == b3 && x / 0x100_0000 % 256 == b4
        && x / 0x1_0000 % 256 == b5 && x / 0x100 % 256 == b6 && x % 256 == b7) by (bit_vector)
        requires
            x == b0 as u64 * 0x100_0000_0000_0000u64 + b1 as u64 * 0x1_0000_0000_0000u64 + b2 as u64
                * 0x100_0000_0000u64 + b3 as u64 * 0x1_0000_0000u64 + b4 as u64 * 0x100_0000u64
                + b5 as u64 * 0x1_0000u64 + b6 as u64 * 0x100u64 + b7 as u64,
    ;
    assert(spec_u64_be(x) =~= b);
}

/// Appending is associative.
pub proof fn lemma_append_assoc(a: Seq<u8>, b: Seq<u8>, c: Seq<u8>)
    ensures
        (a + b) + c == a + (b + c),
{
    assert((a + b) + c =~= a + (b + c));
}

/// Reads a number from the first eight bytes of a string; what is left is
/// the rest of the string.
pub open spec fn read_u64(s: Seq<u8>) -> Option<(u64, Seq<u8>)> {
    if s.len() < 8 {
        None
    } else {
        Some((spec_u64_from_be(s.subrange(0, 8)), s.skip(8)))
    }
}

/// Reads a 32-bit number written as eight bytes.
pub open spec fn read_u32(s: Seq<u8>) -> Option<(u32, Seq<u8>)> {
    match read_u64(s) {
        Some((x, rest)) => if x <= u32::MAX {
            Some((x as u32, rest))
        } else {
            None
        },
        None => None,
    }
}

/// Reads one byte.
pub open spec fn read_byte(s: Seq<u8>) -> Option<(u8, Seq<u8>)> {
    if s.len() < 1 {
        None
    } else {
        Some((s[0], s.skip(1)))
    }
}

/// Reads a byte string behind its length.
pub open spec fn read_bytes(s: Seq<u8>) -> Option<(Seq<u8>, Seq<u8>)> {
    match read_u64(s) {
        Some((n, rest)) => if n <= rest.len() {
            Some((rest.take(n as int), rest.skip(n as int)))
        } else {
            None
        },
        None => None,
    }
}

/// A string is read as a number and a rest exactly when it is the number
/// written out, followed by the rest.
pub proof fn lemma_read_u64(s: Seq<u8>, x: u64, rest: Seq<u8>)
    ensures
        read_u64(s) == Some((x, rest)) <==> s == spec_u64_be(x) + rest,
{
    lemma_u64_be_round_trip(x);
    if s == spec_u64_be(x) + rest {
        assert(s.subrange(0, 8) =~= spec_u64_be(x));
        assert(s.skip(8) =~= rest);
    }
    if read_u64(s) == Some((x, rest)) {
        lemma_u64_from_be_round_trip(s.subrange(0, 8));
        assert(s =~= s.subrange(0, 8) + s.skip(8));
    }
}

/// A string is read as a 32-bit number and a rest exactly when it is the
/// number written out, followed by the rest.
pub proof fn lemma_read_u32(s: Seq<u8>, x: u32, rest: Seq<u8>)
    ensures
        read_u32(s) == Some((x, rest)) <==> s == spec_u64_be(x as u64) + rest,
{
    lemma_read_u64(s, x as u64, rest);
    if read_u32(s) == Some((x, rest)) {
        let y = read_u64(s)->Some_0.0;
        assert(y == x as u64);
    }
}

/// A string is read as a byte and a rest exactly when it is the byte
/// followed by the rest.
pub proof fn lemma_read_byte(s: Seq<u8>, x: u8, rest: Seq<u8>)
    ensures
        read_byte(s) == Some((x, rest)) <==> s == seq![x] + rest,
{
    if s == seq![x] + rest {
        assert(s.skip(1) =~= rest);
    }
    if read_byte(s) == Some((x, rest)) {
        assert(s =~= seq![x] + rest);
    }
}

/// A string is read as a byte string and a rest exactly when it is the byte
/// string behind its length, followed by the rest.
pub proof fn lemma_read_bytes(s: Seq<u8>, x: Seq<u8>, rest: Seq<u8>)
    requires
        x.len() <= u64::MAX,
    ensures
        read_bytes(s) == Some((x, rest)) <==> s == spec_prefixed(x) + rest,
{
    if s == spec_prefixed(x) + rest {
        assert(s =~= spec_u64_be(x.len() as u64) + (x + rest));
        lemma_read_u64(s, x.len() as u64, x + rest);
        assert((x + rest).take(x.len() as int) =~= x);
        assert((x + rest).skip(x.len() as int) =~= rest);
    }
    if read_bytes(s) == Some((x, rest)) {
        let (n, r) = read_u64(s)->Some_0;
        lemma_read_u64(s, n, r);
        assert(r =~= r.take(n as int) + r.skip(n as int));
        assert(s =~= spec_prefixed(x) + rest);
    }
}

/// Reads a number at place `pos`.
pub fn take_u64(bytes: &[u8], pos: usize) -> (r: Option<(u64, usize)>)
    requires
        pos <= bytes@.len(),
    ensures
        match read_u64(bytes@.skip(pos as int)) {
            Some((x, rest)) => r matches Some(out) && out.0 == x && out.1 == pos + 8 && out.1
                <= bytes@.len() && bytes@.skip(out.1 as int) == rest,
            None => r is None,
        },
{
    if bytes.len() - pos < 8 {
        return None;
    }
    let chunk = copy_range(bytes, pos, pos + 8);
    let x = u64_from_be(chunk.as_slice());
    assert(chunk@.subrange(0, 8) =~= bytes@.skip(pos as int).subrange(0, 8));
    assert(bytes@.skip(pos as int).skip(8) =~= bytes@.skip(pos + 8));
    Some((x, pos + 8))
}

/// Reads a 32-bit number at place `pos`.
pub fn take_u32(bytes: &[u8], pos: usize) -> (r: Option<(u32, usize)>)
    requires
        pos <= bytes@.len(),
    ensures
        match read_u32(bytes@.skip(pos as int)) {
            Some((x, rest)) => r matches Some(out) && out.0 == x && out.1 == pos + 8 && out.1
                <= bytes@.len() && bytes@.skip(out.1 as int) == rest,
            None => r is None,
        },
{
    match take_u64(bytes, pos) {
        Some((x, next)) => if x <= u32::MAX as u64 {
            Some((x as u32, next))
        } else {
            None
        },
        None => None,
    }
}

/// Reads a byte at place `pos`.
pub fn take_byte(bytes: &[u8], pos: usize) -> (r: Option<(u8, usize)>)
    requires
        pos <= bytes@.len(),
    ensures
        match read_byte(bytes@.skip(pos as int)) {
            Some((x, rest)) => r matches Some(out) && out.0 == x && out.1 == pos + 1 && out.1
                <= bytes@.len() && bytes@.skip(out.1 as int) == rest,
            None => r is None,
        },
{
    if pos >= bytes.len() {
        return None;
    }
    assert(bytes@.skip(pos as int).skip(1) =~= bytes@.skip(pos + 1));
    Some((bytes[pos], pos + 1))
}

/// Reads a byte string behind its length at place `pos`.
pub fn take_bytes(bytes: &[u8], pos: usize) -> (r: Option<(Vec<u8>, usize)>)
    requires
        pos <= bytes@.len(),
    ensures
        match read_bytes(bytes@.skip(pos as int)) {
            Some((x, rest)) => r matches Some(out) && out.0@ == x && pos <= out.1 <= bytes@.len()
                && bytes@.skip(out.1 as int) == rest,
            None => r is None,
        },
{
    match take_u64(bytes, pos) {
        None => None,
        Some((n, start)) => {
            if n > (bytes.len() - start) as u64 {
                return None;
            }
            let end = start + n as usize;
            let out = copy_range(bytes, start, end);
            assert(bytes@.skip(start as int).take(n as int) =~= bytes@.subrange(
                start as int,
                end as int,
            ));
            assert(bytes@.skip(start as int).skip(n as int) =~= bytes@.skip(end as int));
            Some((out, end))
        },
    }
}

/// Whether a key package can be written: no field is longer than a length
/// can say.
pub open spec fn key_package_ok(v: KeyPackageView) -> bool {
    &&& v.identity.len() <= u64::MAX
    &&& v.signature_key.len() <= u64::MAX
    &&& v.init_key.len() <= u64::MAX
    &&& v.signature.len() <= u64::MAX
}

/// Reads a key package.
#[verifier::opaque]
pub open spec fn read_key_package(s: Seq<u8>) -> Option<(KeyPackageView, Seq<u8>)> {
    match read_bytes(s) {
        None => None,
        Some((identity, s1)) => match read_bytes(s1) {
            None => None,
            Some((signature_key, s2)) => match read_bytes(s2) {
                None => None,
                Some((init_key, s3)) => match read_bytes(s3) {
                    None => None,
                    Some((signature, rest)) => Some(
                        (KeyPackageView { identity, signature_key, init_key, signature }, rest),
                    ),
                },
            },
        },
    }
}

/// A string is read as a key package and a rest exactly when it is the
/// encoding of the key package, followed by the rest.
pub proof fn lemma_read_key_package(s: Seq<u8>, v: KeyPackageView, rest: Seq<u8>)
    ensures
        read_key_package(s) == Some((v, rest)) ==> s == v.encode() + rest && key_package_ok(v),
        key_package_ok(v) && s == v.encode() + rest ==> read_key_package(s) == Some((v, rest)),
{
    reveal(read_key_package);
    let t3 = spec_prefixed(v.signature) + rest;
    let t2 = spec_prefixed(v.init_key) + t3;
    let t1 = spec_prefixed(v.signature_key) + t2;
    if key_package_ok(v) && s == v.encode() + rest {
        assert(s =~= spec_prefixed(v.identity) + t1);
        lemma_read_bytes(s, v.identity, t1);
        lemma_read_bytes(t1, v.signature_key, t2);
        lemma_read_bytes(t2, v.init_key, t3);
        lemma_read_bytes(t3, v.signature, rest);
    }
    if read_key_package(s) == Some((v, rest)) {
        let (a, s1) = read_bytes(s)->Some_0;
        let (b, s2) = read_bytes(s1)->Some_0;
        let (c, s3) = read_bytes(s2)->Some_0;
        let (d, s4) = read_bytes(s3)->Some_0;
        lemma_read_bytes(s, a, s1);
        lemma_read_bytes(s1, b, s2);
        lemma_read_bytes(s2, c, s3);
        lemma_read_bytes(s3, d, s4);
        assert(s =~= v.encode() + rest);
    }
}

/// Reads a key package at place `pos`.
pub fn take_key_package(bytes: &[u8], pos: usize) -> (r: Option<(KeyPackage, usize)>)
    requires
        pos <= bytes@.len(),
    ensures
        match read_key_package(bytes@.skip(pos as int)) {
            Some((v, rest)) => r matches Some(out) && out.0@ == v && pos <= out.1 <= bytes@.len()
                && bytes@.skip(out.1 as int) == rest,
            None => r is None,
        },
{
    reveal(read_key_package);
    let (identity, c1) = match take_bytes(bytes, pos) {
        Some(x) => x,
        None => {
            return None;
        },
    };
    let (signature_key, c2) = match take_bytes(bytes, c1) {
        Some(x) => x,
        None => {
            return None;
        },
    };
    let (init_key, c3) = match take_bytes(bytes, c2) {
        Some(x) => x,
        None => {
            return None;
        },
    };
    let (signature, c4) = match take_bytes(bytes, c3) {
        Some(x) => x,
        None => {
            return None;
        },
    };
    Some((KeyPackage { identity, signature_key, init_key, signature }, c4))
}

/// Whether a proposal can be written.
pub open spec fn proposal_ok(v: ProposalView) -> bool {
    match v {
        ProposalView::Add(kp) => key_package_ok(kp),
        ProposalView::Remove(leaf) => leaf <= u32::MAX,
        ProposalView::Update(kp) => key_package_ok(kp),
    }
}

/// Reads a proposal.
#[verifier::opaque]
pub open spec fn read_proposal(s: Seq<u8>) -> Option<(ProposalView, Seq<u8>)> {
    match read_byte(s) {
        None => None,
        Some((tag, s1)) => if tag == 1 {
            match read_key_package(s1) {
                Some((kp, rest)) => Some((ProposalView::Add(kp), rest)),
                None => None,
            }
        } else if tag == 2 {
            match read_u32(s1) {
                Some((leaf, rest)) => Some((ProposalView::Remove(leaf as nat), rest)),
                None => None,
            }
        } else if tag == 3 {
            match read_key_package(s1) {
                Some((kp, rest)) => Some((ProposalView::Update(kp), rest)),
                None => None,
            }
        } else {
            None
        },
    }
}

/// A string is read as a proposal and a rest exactly when it is the
/// encoding of the proposal, followed by the rest.
pub proof fn lemma_read_proposal(s: Seq<u8>, v: ProposalView, rest: Seq<u8>)
    ensures
        read_proposal(s) == Some((v, rest)) ==> s == v.encode() + rest && proposal_ok(v),
        proposal_ok(v) && s == v.encode() + rest ==> read_proposal(s) == Some((v, rest)),
{
    reveal(read_proposal);
    if proposal_ok(v) && s == v.encode() + rest {
        match v {
            ProposalView::Add(kp) => {
                assert(s =~= seq![1u8] + (kp.encode() + rest));
                lemma_read_byte(s, 1u8, kp.encode() + rest);
                lemma_read_key_package(kp.encode() + rest, kp, rest);
            },
            ProposalView::Remove(leaf) => {
                assert(s =~= seq![2u8] + (spec_u64_be(leaf as u64) + rest));
                lemma_read_byte(s, 2u8, spec_u64_be(leaf as u64) + rest);
                lemma_read_u32(spec_u64_be(leaf as u64) + rest, leaf as u32, rest);
            },
            ProposalView::Update(kp) => {
                assert(s =~= seq![3u8] + (kp.encode() + rest));
                lemma_read_byte(s, 3u8, kp.encode() + rest);
                lemma_read_key_package(kp.encode() + rest, kp, rest);
            },
        }
    }
    if read_proposal(s) == Some((v, rest)) {
        let (tag, s1) = read_byte(s)->Some_0;
        lemma_read_byte(s, tag, s1);
        match v {
            ProposalView::Add(kp) => {
                lemma_read_key_package(s1, kp, rest);
                assert(s =~= v.encode() + rest);
            },
            ProposalView::Remove(leaf) => {
                lemma_read_u32(s1, leaf as u32, rest);
                assert(s =~= v.encode() + rest);
            },
            ProposalView::Update(kp) => {
                lemma_read_key_package(s1, kp, rest);
                assert(s =~= v.encode() + rest);
            },
        }
    }
}

/// Reads a proposal at place `pos`.
pub fn take_proposal(bytes: &[u8], pos: usize) -> (r: Option<(Proposal, usize)>)
    requires
        pos <= bytes@.len(),
    ensures
        match read_proposal(bytes@.skip(pos as int)) {
            Some((v, rest)) => r matches Some(out) && out.0@ == v && pos <= out.1 <= bytes@.len()
                && bytes@.skip(out.1 as int) == rest,
            None => r is None,
        },
{
    reveal(read_proposal);
    let (tag, c1) = match take_byte(bytes, pos) {
        Some(x) => x,
        None => {
            return None;
        },
    };
    if tag == 1 {
        match take_key_package(bytes, c1) {
            Some((kp, next)) => Some((Proposal::Add(kp), next)),
            None => None,
        }
    } else if tag == 2 {
        match take_u32(bytes, c1) {
            Some((leaf, next)) => Some((Proposal::Remove(leaf), next)),
            None => None,
        }
    } else if tag == 3 {
        match take_key_package(bytes, c1) {
            Some((kp, next)) => Some((Proposal::Update(kp), next)),
            None => None,
        }
    } else {
        None
    }
}

/// Whether a queued proposal can be written.
pub open spec fn queued_ok(v: QueuedProposalView) -> bool {
    v.sender <= u32::MAX && proposal_ok(v.proposal)
}

/// Reads a proposal with its proposer.
#[verifier::opaque]
pub open spec fn read_queued(s: Seq<u8>) -> Option<(QueuedProposalView, Seq<u8>)> {
    match read_u32(s) {
        None => None,
        Some((sender, s1)) => match read_proposal(s1) {
            None => None,
            Some((proposal, rest)) => Some(
                (QueuedProposalView { sender: sender as nat, proposal }, rest),
            ),
        },
    }
}

/// A string is read as a queued proposal and a rest exactly when it is the
/// encoding of the queued proposal, followed by the rest.
pub proof fn lemma_read_queued(s: Seq<u8>, v: QueuedProposalView, rest: Seq<u8>)
    ensures
        read_queued(s) == Some((v, rest)) ==> s == v.encode() + rest && queued_ok(v),
        queued_ok(v) && s == v.encode() + rest ==> read_queued(s) == Some((v, rest)),
{
    reveal(read_queued);
    if queued_ok(v) && s == v.encode() + rest {
        let t1 = v.proposal.encode() + rest;
        assert(s =~= spec_u64_be(v.sender as u64) + t1);
        lemma_read_u32(s, v.sender as u32, t1);
        lemma_read_proposal(t1, v.proposal, rest);
    }
    if read_queued(s) == Some((v, rest)) {
        let (sender, s1) = read_u32(s)->Some_0;
        lemma_read_u32(s, sender, s1);
        lemma_read_proposal(s1, v.proposal, rest);
        assert(s =~= v.encode() + rest);
    }
}

/// Reads a proposal with its proposer at place `pos`.
pub fn take_queued(bytes: &[u8], pos: usize) -> (r: Option<(QueuedProposal, usize)>)
    requires
        pos <= bytes@.len(),
    ensures
        match read_queued(bytes@.skip(pos as int)) {
            Some((v, rest)) => r matches Some(out) && out.0@ == v && pos <= out.1 <= bytes@.len()
                && bytes@.skip(out.1 as int) == rest,
            None => r is None,
        },
{
    reveal(read_queued);
    let (sender, c1) = match take_u32(bytes, pos) {
        Some(x) => x,
        None => {
            return None;
        },
    };
    match take_proposal(bytes, c1) {
        Some((proposal, next)) => Some((QueuedProposal { sender, proposal }, next)),
        None => None,
    }
}

/// Whether a sealed secret can be written.
pub open spec fn sealed_ok(v: SealedSecretView) -> bool {
    v.recipient <= u32::MAX && v.kem_output.len() <= u64::MAX && v.ciphertext.len() <= u64::MAX
}

/// Reads a sealed secret.
#[verifier::opaque]
pub open spec fn read_sealed(s: Seq<u8>) -> Option<(SealedSecretView, Seq<u8>)> {
    match read_u32(s) {
        None => None,
        Some((recipient, s1)) => match read_bytes(s1) {
            None => None,
            Some((kem_output, s2)) => match read_bytes(s2) {
                None => None,
                Some((ciphertext, rest)) => Some(
                    (SealedSecretView { recipient: recipient as nat, kem_output, ciphertext }, rest),
                ),
            },
        },
    }
}

/// A string is read as a sealed secret and a rest exactly when it is the
/// encoding of the sealed secret, followed by the rest.
pub proof fn lemma_read_sealed(s: Seq<u8>, v: SealedSecretView, rest: Seq<u8>)
    ensures
        read_sealed(s) == Some((v, rest)) ==> s == v.encode() + rest && sealed_ok(v),
        sealed_ok(v) && s == v.encode() + rest ==> read_sealed(s) == Some((v, rest)),
{
    reveal(read_sealed);
    if sealed_ok(v) && s == v.encode() + rest {
        let t2 = spec_prefixed(v.ciphertext) + rest;
        let t1 = spec_prefixed(v.kem_output) + t2;
        assert(s =~= spec_u64_be(v.recipient as u64) + t1);
        lemma_read_u32(s, v.recipient as u32, t1);
        lemma_read_bytes(t1, v.kem_output, t2);
        lemma_read_bytes(t2, v.ciphertext, rest);
    }
    if read_sealed(s) == Some((v, rest)) {
        let (recipient, s1) = read_u32(s)->Some_0;
        let (kem, s2) = read_bytes(s1)->Some_0;
        lemma_read_u32(s, recipient, s1);
        lemma_read_bytes(s1, kem, s2);
        lemma_read_bytes(s2, v.ciphertext, rest);
        assert(s =~= v.encode() + rest);
    }
}

/// Reads a sealed secret at place `pos`.
pub fn take_sealed(bytes: &[u8], pos: usize) -> (r: Option<(SealedSecret, usize)>)
    requires
        pos <= bytes@.len(),
    ensures
        match read_sealed(bytes@.skip(pos as int)) {
            Some((v, rest)) => r matches Some(out) && out.0@ == v && pos <= out.1 <= bytes@.len()
                && bytes@.skip(out.1 as int) == rest,
            None => r is None,
        },
{
    reveal(read_sealed);
    let (recipient, c1) = match take_u32(bytes, pos) {
        Some(x) => x,
        None => {
            return None;
        },
    };
    let (kem_output, c2) = match take_bytes(bytes, c1) {
        Some(x) => x,
        None => {
            return None;
        },
    };
    match take_bytes(bytes, c2) {
        Some((ciphertext, next)) => Some((SealedSecret { recipient, kem_output, ciphertext }, next)),
        None => None,
    }
}

/// Whether the items of a list can be written.
pub open spec fn items_ok(items: Seq<Seq<u8>>) -> bool {
    forall|i: int| 0 <= i < items.len() ==> (#[trigger] items[i]).len() <= u64::MAX
}

/// Reads `n` byte strings, each behind its length.
pub open spec fn read_items(s: Seq<u8>, n: nat) -> Option<(Seq<Seq<u8>>, Seq<u8>)>
    decreases n,
{
    if n == 0 {
        Some((Seq::empty(), s))
    } else {
        match read_bytes(s) {
            None => None,
            Some((x, s1)) => match read_items(s1, (n - 1) as nat) {
                None => None,
                Some((xs, rest)) => Some((seq![x] + xs, rest)),
            },
        }
    }
}

/// Reads a list of byte strings: the number of items, then the items.
#[verifier::opaque]
pub open spec fn read_list(s: Seq<u8>) -> Option<(Seq<Seq<u8>>, Seq<u8>)> {
    match read_u64(s) {
        None => None,
        Some((n, s1)) => read_items(s1, n as nat),
    }
}

/// The items of a list that begins with `x` are `x` behind its length and
/// then the other items.
pub proof fn lemma_concat_cons(x: Seq<u8>, xs: Seq<Seq<u8>>)
    ensures
        spec_concat_prefixed(seq![x] + xs) == spec_prefixed(x) + spec_concat_prefixed(xs),
    decreases xs.len(),
{
    let all = seq![x] + xs;
    if xs.len() == 0 {
        assert(all.drop_last() =~= Seq::<Seq<u8>>::empty());
        assert(all.last() == x);
        assert(spec_concat_prefixed(all.drop_last()) =~= Seq::<u8>::empty());
        assert(spec_concat_prefixed(all) =~= spec_prefixed(x));
        assert(spec_concat_prefixed(xs) =~= Seq::<u8>::empty());
        assert(spec_prefixed(x) + spec_concat_prefixed(xs) =~= spec_prefixed(x));
    } else {
        assert(all.drop_last() =~= seq![x] + xs.drop_last());
        assert(all.last() == xs.last());
        lemma_concat_cons(x, xs.drop_last());
        assert(spec_concat_prefixed(all) =~= spec_prefixed(x) + spec_concat_prefixed(xs));
    }
}

/// A string is read as `n` items and a rest exactly when it is the items,
/// each behind its length, followed by the rest.
pub proof fn lemma_read_items(s: Seq<u8>, n: nat, items: Seq<Seq<u8>>, rest: Seq<u8>)
    ensures
        read_items(s, n) == Some((items, rest)) ==> items.len() == n && items_ok(items) && s
            == spec_concat_prefixed(items) + rest,
        items.len() == n && items_ok(items) && s == spec_concat_prefixed(items) + rest
            ==> read_items(s, n) == Some((items, rest)),
    decreases n,
{
    if n == 0 {
        if read_items(s, n) == Some((items, rest)) {
            assert(s =~= spec_concat_prefixed(items) + rest);
        }
        if items.len() == 0 && s == spec_concat_prefixed(items) + rest {
            assert(items =~= Seq::<Seq<u8>>::empty());
            assert(s =~= rest);
        }
    } else {
        if read_items(s, n) == Some((items, rest)) {
            let (x, s1) = read_bytes(s)->Some_0;
            let (xs, r) = read_items(s1, (n - 1) as nat)->Some_0;
            lemma_read_bytes(s, x, s1);
            lemma_read_items(s1, (n - 1) as nat, xs, r);
            lemma_concat_cons(x, xs);
            assert(items == seq![x] + xs);
            assert(s =~= spec_concat_prefixed(items) + rest);
            assert forall|i: int| 0 <= i < items.len() implies (#[trigger] items[i]).len()
                <= u64::MAX by {
                if i > 0 {
                    assert(items[i] == xs[i - 1]);
                }
            }
        }
        if items.len() == n && items_ok(items) && s == spec_concat_prefixed(items) + rest {
            let x = items[0];
            let xs = items.skip(1);
            assert(items =~= seq![x] + xs);
            lemma_concat_cons(x, xs);
            let s1 = spec_concat_prefixed(xs) + rest;
            assert(s =~= spec_prefixed(x) + s1);
            lemma_read_bytes(s, x, s1);
            assert forall|i: int| 0 <= i < xs.len() implies (#[trigger] xs[i]).len()
                <= u64::MAX by {
                assert(xs[i] == items[i + 1]);
            }
            lemma_read_items(s1, (n - 1) as nat, xs, rest);
        }
    }
}

/// A string is read as a list and a rest exactly when it is the encoding of
/// the list, followed by the rest.
pub proof fn lemma_read_list(s: Seq<u8>, items: Seq<Seq<u8>>, rest: Seq<u8>)
    ensures
        read_list(s) == Some((items, rest)) ==> items.len() <= u64::MAX && items_ok(items) && s
            == spec_list(items) + rest,
        items.len() <= u64::MAX && items_ok(items) && s == spec_list(items) + rest ==> read_list(s)
            == Some((items, rest)),
{
    reveal(read_list);
    if read_list(s) == Some((items, rest)) {
        let (n, s1) = read_u64(s)->Some_0;
        lemma_read_u64(s, n, s1);
        lemma_read_items(s1, n as nat, items, rest);
        assert(s =~= spec_list(items) + rest);
    }
    if items.len() <= u64::MAX && items_ok(items) && s == spec_list(items) + rest {
        let s1 = spec_concat_prefixed(items) + rest;
        assert(s =~= spec_u64_be(items.len() as u64) + s1);
        lemma_read_u64(s, items.len() as u64, s1);
        lemma_read_items(s1, items.len(), items, rest);
    }
}

/// Reads a list of byte strings at place `pos`.
pub fn take_list(bytes: &[u8], pos: usize) -> (r: Option<(Vec<Vec<u8>>, usize)>)
    requires
        pos <= bytes@.len(),
    ensures
        match read_list(bytes@.skip(pos as int)) {
            Some((items, rest)) => r matches Some(out) && byte_views(out.0@) == items && pos
                <= out.1 <= bytes@.len() && bytes@.skip(out.1 as int) == rest,
            None => r is None,
        },
{
    reveal(read_list);
    let (n, start) = match take_u64(bytes, pos) {
        Some(x) => x,
        None => {
            return None;
        },
    };
    let mut out: Vec<Vec<u8>> = Vec::new();
    let mut cur: usize = start;
    let mut i: u64 = 0;
    let ghost whole = read_items(bytes@.skip(start as int), n as nat);
    assert(byte_views(out@) =~= Seq::<Seq<u8>>::empty());
    while i < n
        invariant
            i <= n,
            start <= cur <= bytes@.len(),
            whole == read_items(bytes@.skip(start as int), n as nat),
            whole == read_list(bytes@.skip(pos as int)),
            whole == match read_items(bytes@.skip(cur as int), (n - i) as nat) {
                Some((xs, rest)) => Some((byte_views(out@) + xs, rest)),
                None => None,
            },
        decreases n - i,
    {
        let ghost before = byte_views(out@);
        match take_bytes(bytes, cur) {
            None => {
                assert(read_items(bytes@.skip(cur as int), (n - i) as nat) is None);
                return None;
            },
            Some((item, next)) => {
                let ghost x = item@;
                out.push(item);
                proof {
                    assert(byte_views(out@) =~= before.push(x));
                    match read_items(bytes@.skip(next as int), (n - i - 1) as nat) {
                        Some((xs, rest)) => {
                            assert(before + (seq![x] + xs) =~= byte_views(out@) + xs);
                        },
                        None => {},
                    }
                }
                cur = next;
                i = i + 1;
            },
        }
    }
    proof {
        assert(byte_views(out@) + Seq::<Seq<u8>>::empty() =~= byte_views(out@));
    }
    Some((out, cur))
}

/// Reads a value that fills a byte string: what a reader gives when nothing
/// is left over.
pub open spec fn exactly<V>(read: Option<(V, Seq<u8>)>) -> Option<V> {
    match read {
        Some((v, rest)) => if rest.len() == 0 {
            Some(v)
        } else {
            None
        },
        None => None,
    }
}

/// Reads each item of a list as a queued proposal.
pub open spec fn decode_queued_list(items: Seq<Seq<u8>>) -> Option<Seq<QueuedProposalView>> {
    if forall|i: int| 0 <= i < items.len() ==> exactly(#[trigger] read_queued(items[i])) is Some {
        Some(Seq::new(items.len(), |i: int| exactly(read_queued(items[i]))->Some_0))
    } else {
        None
    }
}

/// Reads each item of a list as a sealed secret.
pub open spec fn decode_sealed_list(items: Seq<Seq<u8>>) -> Option<Seq<SealedSecretView>> {
    if forall|i: int| 0 <= i < items.len() ==> exactly(#[trigger] read_sealed(items[i])) is Some {
        Some(Seq::new(items.len(), |i: int| exactly(read_sealed(items[i]))->Some_0))
    } else {
        None
    }
}

/// The encodings of a list of queued proposals.
pub open spec fn queued_encodings(v: Seq<QueuedProposalView>) -> Seq<Seq<u8>> {
    Seq::new(v.len(), |i: int| v[i].encode())
}

/// The encodings of a list of sealed secrets.
pub open spec fn sealed_encodings(v: Seq<SealedSecretView>) -> Seq<Seq<u8>> {
    Seq::new(v.len(), |i: int| v[i].encode())
}

/// Whether every queued proposal of a list can be written.
pub open spec fn queued_list_ok(v: Seq<QueuedProposalView>) -> bool {
    forall|i: int| 0 <= i < v.len() ==> queued_ok(#[trigger] v[i])
}

/// Whether every sealed secret of a list can be written.
pub open spec fn sealed_list_ok(v: Seq<SealedSecretView>) -> bool {
    forall|i: int| 0 <= i < v.len() ==> sealed_ok(#[trigger] v[i])
}

/// The items of a list are read as queued proposals exactly when they are
/// the encodings of those proposals.
pub proof fn lemma_decode_queued_list(items: Seq<Seq<u8>>, v: Seq<QueuedProposalView>)
    ensures
        decode_queued_list(items) == Some(v) ==> items == queued_encodings(v) && queued_list_ok(v),
        queued_list_ok(v) && items == queued_encodings(v) ==> decode_queued_list(items) == Some(v),
{
    if decode_queued_list(items) == Some(v) {
        assert forall|i: int| 0 <= i < v.len() implies queued_ok(#[trigger] v[i]) && items[i]
            == v[i].encode() by {
            let (q, rest) = read_queued(items[i])->Some_0;
            assert(exactly(read_queued(items[i])) is Some);
            lemma_read_queued(items[i], q, rest);
            assert(items[i] =~= q.encode());
        }
        assert(items =~= queued_encodings(v));
    }
    if queued_list_ok(v) && items == queued_encodings(v) {
        assert forall|i: int| 0 <= i < items.len() implies exactly(
            #[trigger] read_queued(items[i]),
        ) == Some(v[i]) by {
            assert(queued_ok(v[i]));
            assert(items[i] =~= v[i].encode() + Seq::<u8>::empty());
            lemma_read_queued(items[i], v[i], Seq::empty());
        }
        assert(decode_queued_list(items)->Some_0 =~= v);
    }
}

/// The items of a list are read as sealed secrets exactly when they are the
/// encodings of those secrets.
pub proof fn lemma_decode_sealed_list(items: Seq<Seq<u8>>, v: Seq<SealedSecretView>)
    ensures
        decode_sealed_list(items) == Some(v) ==> items == sealed_encodings(v) && sealed_list_ok(v),
        sealed_list_ok(v) && items == sealed_encodings(v) ==> decode_sealed_list(items) == Some(v),
{
    if decode_sealed_list(items) == Some(v) {
        assert forall|i: int| 0 <= i < v.len() implies sealed_ok(#[trigger] v[i]) && items[i]
            == v[i].encode() by {
            let (q, rest) = read_sealed(items[i])->Some_0;
            assert(exactly(read_sealed(items[i])) is Some);
            lemma_read_sealed(items[i], q, rest);
            assert(items[i] =~= q.encode());
        }
        assert(items =~= sealed_encodings(v));
    }
    if sealed_list_ok(v) && items == sealed_encodings(v) {
        assert forall|i: int| 0 <= i < items.len() implies exactly(
            #[trigger] read_sealed(items[i]),
        ) == Some(v[i]) by {
            assert(sealed_ok(v[i]));
            assert(items[i] =~= v[i].encode() + Seq::<u8>::empty());
            lemma_read_sealed(items[i], v[i], Seq::empty());
        }
        assert(decode_sealed_list(items)->Some_0 =~= v);
    }
}

/// Reads each item of a list as a queued proposal.
pub fn queued_from_items(items: &Vec<Vec<u8>>) -> (r: Option<Vec<QueuedProposal>>)
    ensures
        match decode_queued_list(byte_views(items@)) {
            Some(v) => r matches Some(out) && crate::framing::proposal_views(out@) == v,
            None => r is None,
        },
{
    let ghost views = byte_views(items@);
    let mut out: Vec<QueuedProposal> = Vec::new();
    let mut i: usize = 0;
    while i < items.len()
        invariant
            i <= items@.len(),
            views == byte_views(items@),
            out@.len() == i,
            forall|k: int| 0 <= k < i ==> exactly(#[trigger] read_queued(views[k])) == Some(out@[k]@),
        decreases items@.len() - i,
    {
        assert(items@[i as int]@.skip(0) =~= items@[i as int]@);
        assert(views[i as int] == items@[i as int]@);
        match take_queued(items[i].as_slice(), 0) {
            Some((q, next)) => {
                if next != items[i].len() {
                    assert(!(exactly(read_queued(views[i as int])) is Some));
                    return None;
                }
                out.push(q);
            },
            None => {
                assert(!(exactly(read_queued(views[i as int])) is Some));
                return None;
            },
        }
        i += 1;
    }
    assert(decode_queued_list(views)->Some_0 =~= crate::framing::proposal_views(out@));
    Some(out)
}

/// Reads each item of a list as a sealed secret.
pub fn sealed_from_items(items: &Vec<Vec<u8>>) -> (r: Option<Vec<SealedSecret>>)
    ensures
        match decode_sealed_list(byte_views(items@)) {
            Some(v) => r matches Some(out) && crate::framing::sealed_views(out@) == v,
            None => r is None,
        },
{
    let ghost views = byte_views(items@);
    let mut out: Vec<SealedSecret> = Vec::new();
    let mut i: usize = 0;
    while i < items.len()
        invariant
            i <= items@.len(),
            views == byte_views(items@),
            out@.len() == i,
            forall|k: int| 0 <= k < i ==> exactly(#[trigger] read_sealed(views[k])) == Some(out@[k]@),
        decreases items@.len() - i,
    {
        assert(items@[i as int]@.skip(0) =~= items@[i as int]@);
        assert(views[i as int] == items@[i as int]@);
        match take_sealed(items[i].as_slice(), 0) {
            Some((q, next)) => {
                if next != items[i].len() {
                    assert(!(exactly(read_sealed(views[i as int])) is Some));
                    return None;
                }
                out.push(q);
            },
            None => {
                assert(!(exactly(read_sealed(views[i as int])) is Some));
                return None;
            },
        }
        i += 1;
    }
    assert(decode_sealed_list(views)->Some_0 =~= crate::framing::sealed_views(out@));
    Some(out)
}

/// Whether a header can be written.
pub open spec fn header_ok(v: HeaderView) -> bool {
    &&& v.group_id.len() <= u64::MAX
    &&& v.epoch <= u64::MAX
    &&& v.sender <= u32::MAX
    &&& v.authenticated_data.len() <= u64::MAX
}

/// The content type that a byte stands for.
pub open spec fn content_type_of(tag: u8) -> Option<ContentType> {
    if tag == 1 {
        Some(ContentType::Application)
    } else if tag == 2 {
        Some(ContentType::Proposal)
    } else if tag == 3 {
        Some(ContentType::Commit)
    } else {
        None
    }
}

/// Reads a header.
#[verifier::opaque]
pub open spec fn read_header(s: Seq<u8>) -> Option<(HeaderView, Seq<u8>)> {
    match read_bytes(s) {
        None => None,
        Some((group_id, s1)) => match read_u64(s1) {
            None => None,
            Some((epoch, s2)) => match read_u32(s2) {
                None => None,
                Some((sender, s3)) => match read_byte(s3) {
                    None => None,
                    Some((tag, s4)) => match content_type_of(tag) {
                        None => None,
                        Some(content_type) => match read_bytes(s4) {
                            None => None,
                            Some((authenticated_data, rest)) => Some(
                                (
                                    HeaderView {
                                        group_id,
                                        epoch: epoch as nat,
                                        sender: sender as nat,
                                        content_type,
                                        authenticated_data,
                                    },
                                    rest,
                                ),
                            ),
                        },
                    },
                },
            },
        },
    }
}

/// The encoding of a header, followed by a rest, is read as the header and
/// the rest.
proof fn lemma_header_written(s: Seq<u8>, v: HeaderView, rest: Seq<u8>)
    requires
        header_ok(v),
        s == v.encode() + rest,
    ensures
        read_header(s) == Some((v, rest)),
{
    reveal(read_header);
    let tag = crate::framing::spec_content_type_byte(v.content_type);
    let t4 = spec_prefixed(v.authenticated_data) + rest;
    let t3 = seq![tag] + t4;
    let t2 = spec_u64_be(v.sender as u64) + t3;
    let t1 = spec_u64_be(v.epoch as u64) + t2;
    let x2 = spec_prefixed(v.group_id) + spec_u64_be(v.epoch as u64);
    let x3 = x2 + spec_u64_be(v.sender as u64);
    let x4 = x3 + seq![tag];
    lemma_append_assoc(x4, spec_prefixed(v.authenticated_data), rest);
    lemma_append_assoc(x3, seq![tag], t4);
    lemma_append_assoc(x2, spec_u64_be(v.sender as u64), t3);
    lemma_append_assoc(spec_prefixed(v.group_id), spec_u64_be(v.epoch as u64), t2);
    assert(s == spec_prefixed(v.group_id) + t1);
    lemma_read_bytes(s, v.group_id, t1);
    assert(read_bytes(s) == Some((v.group_id, t1)));
    lemma_read_u64(t1, v.epoch as u64, t2);
    assert(read_u64(t1) == Some((v.epoch as u64, t2)));
    lemma_read_u32(t2, v.sender as u32, t3);
    assert(read_u32(t2) == Some((v.sender as u32, t3)));
    lemma_read_byte(t3, tag, t4);
    assert(read_byte(t3) == Some((tag, t4)));
    assert(content_type_of(tag) == Some(v.content_type));
    lemma_read_bytes(t4, v.authenticated_data, rest);
    assert(read_bytes(t4) == Some((v.authenticated_data, rest)));
}

/// What is read as a header and a rest is the encoding of the header,
/// followed by the rest.
proof fn lemma_header_read(s: Seq<u8>, v: HeaderView, rest: Seq<u8>)
    requires
        read_header(s) == Some((v, rest)),
    ensures
        s == v.encode() + rest,
        header_ok(v),
{
    reveal(read_header);
    let (g, s1) = read_bytes(s)->Some_0;
    let (e, s2) = read_u64(s1)->Some_0;
    let (sender, s3) = read_u32(s2)->Some_0;
    let (b, s4) = read_byte(s3)->Some_0;
    let ct = content_type_of(b)->Some_0;
    let (ad, s5) = read_bytes(s4)->Some_0;
    assert(v == HeaderView {
        group_id: g,
        epoch: e as nat,
        sender: sender as nat,
        content_type: ct,
        authenticated_data: ad,
    });
    assert(s5 == rest);
    lemma_read_bytes(s, g, s1);
    assert(s == spec_prefixed(g) + s1);
    lemma_read_u64(s1, e, s2);
    assert(s1 == spec_u64_be(e) + s2);
    lemma_read_u32(s2, sender, s3);
    assert(s2 == spec_u64_be(sender as u64) + s3);
    lemma_read_byte(s3, b, s4);
    assert(s3 == seq![b] + s4);
    lemma_read_bytes(s4, ad, rest);
    assert(s4 == spec_prefixed(ad) + rest);
    assert(b == crate::framing::spec_content_type_byte(ct));
    let x2 = spec_prefixed(g) + spec_u64_be(e);
    let x3 = x2 + spec_u64_be(sender as u64);
    let x4 = x3 + seq![b];
    lemma_append_assoc(x4, spec_prefixed(ad), rest);
    lemma_append_assoc(x3, seq![b], s4);
    lemma_append_assoc(x2, spec_u64_be(sender as u64), s3);
    lemma_append_assoc(spec_prefixed(g), spec_u64_be(e), s2);
    assert(v.encode() == x4 + spec_prefixed(ad));
}

/// A string is read as a header and a rest exactly when it is the encoding
/// of the header, followed by the rest.
pub proof fn lemma_read_header(s: Seq<u8>, v: HeaderView, rest: Seq<u8>)
    ensures
        read_header(s) == Some((v, rest)) ==> s == v.encode() + rest && header_ok(v),
        header_ok(v) && s == v.encode() + rest ==> read_header(s) == Some((v, rest)),
{
    if header_ok(v) && s == v.encode() + rest {
        lemma_header_written(s, v, rest);
    }
    if read_header(s) == Some((v, rest)) {
        lemma_header_read(s, v, rest);
    }
}

/// Reads a header at place `pos`.
pub fn take_header(bytes: &[u8], pos: usize) -> (r: Option<(FrameHeader, usize)>)
    requires
        pos <= bytes@.len(),
    ensures
        match read_header(bytes@.skip(pos as int)) {
            Some((v, rest)) => r matches Some(out) && out.0@ == v && pos <= out.1 <= bytes@.len()
                && bytes@.skip(out.1 as int) == rest,
            None => r is None,
        },
{
    reveal(read_header);
    let (group_id, c1) = match take_bytes(bytes, pos) {
        Some(x) => x,
        None => {
            return None;
        },
    };
    let (epoch, c2) = match take_u64(bytes, c1) {
        Some(x) => x,
        None => {
            return None;
        },
    };
    let (sender, c3) = match take_u32(bytes, c2) {
        Some(x) => x,
        None => {
            return None;
        },
    };
    let (tag, c4) = match take_byte(bytes, c3) {
        Some(x) => x,
        None => {
            return None;
        },
    };
    let content_type = if tag == 1 {
        ContentType::Application
    } else if tag == 2 {
        ContentType::Proposal
    } else if tag == 3 {
        ContentType::Commit
    } else {
        return None;
    };
    match take_bytes(bytes, c4) {
        Some((authenticated_data, next)) => Some(
            (FrameHeader { group_id, epoch, sender, content_type, authenticated_data }, next),
        ),
        None => None,
    }
}

/// Whether a path can be written.
pub open spec fn path_ok(v: UpdatePathView) -> bool {
    &&& key_package_ok(v.leaf_key_package)
    &&& v.leaf_key_package.encode().len() <= u64::MAX
    &&& v.public_keys.len() <= u64::MAX
    &&& items_ok(v.public_keys)
    &&& v.secrets.len() <= u64::MAX
    &&& sealed_list_ok(v.secrets)
    &&& items_ok(sealed_encodings(v.secrets))
}

/// Reads a path.
#[verifier::opaque]
pub open spec fn read_path(s: Seq<u8>) -> Option<(UpdatePathView, Seq<u8>)> {
    match read_bytes(s) {
        None => None,
        Some((package, s1)) => match exactly(read_key_package(package)) {
            None => None,
            Some(leaf_key_package) => match read_list(s1) {
                None => None,
                Some((public_keys, s2)) => match read_list(s2) {
                    None => None,
                    Some((items, rest)) => match decode_sealed_list(items) {
                        None => None,
                        Some(secrets) => Some(
                            (UpdatePathView { leaf_key_package, public_keys, secrets }, rest),
                        ),
                    },
                },
            },
        },
    }
}

/// A string is read as a path and a rest exactly when it is the encoding of
/// the path, followed by the rest.
pub proof fn lemma_read_path(s: Seq<u8>, v: UpdatePathView, rest: Seq<u8>)
    ensures
        read_path(s) == Some((v, rest)) ==> s == v.encode() + rest && path_ok(v),
        path_ok(v) && s == v.encode() + rest ==> read_path(s) == Some((v, rest)),
{
    reveal(read_path);
    let encodings = sealed_encodings(v.secrets);
    assert(encodings =~= Seq::new(v.secrets.len(), |i: int| v.secrets[i].encode()));
    if path_ok(v) && s == v.encode() + rest {
        let t2 = spec_list(encodings) + rest;
        let t1 = spec_list(v.public_keys) + t2;
        let package = v.leaf_key_package.encode();
        assert(s =~= spec_prefixed(package) + t1);
        lemma_read_bytes(s, package, t1);
        assert(package =~= package + Seq::<u8>::empty());
        lemma_read_key_package(package, v.leaf_key_package, Seq::empty());
        lemma_read_list(t1, v.public_keys, t2);
        lemma_read_list(t2, encodings, rest);
        lemma_decode_sealed_list(encodings, v.secrets);
    }
    if read_path(s) == Some((v, rest)) {
        let (package, s1) = read_bytes(s)->Some_0;
        let (kp, kp_rest) = read_key_package(package)->Some_0;
        let (pks, s2) = read_list(s1)->Some_0;
        let (items, s3) = read_list(s2)->Some_0;
        lemma_read_bytes(s, package, s1);
        lemma_read_key_package(package, kp, kp_rest);
        assert(package =~= kp.encode());
        lemma_read_list(s1, pks, s2);
        lemma_read_list(s2, items, s3);
        lemma_decode_sealed_list(items, v.secrets);
        assert(s =~= v.encode() + rest);
    }
}

/// Reads a path at place `pos`.
pub fn take_path(bytes: &[u8], pos: usize) -> (r: Option<(UpdatePath, usize)>)
    requires
        pos <= bytes@.len(),
    ensures
        match read_path(bytes@.skip(pos as int)) {
            Some((v, rest)) => r matches Some(out) && out.0@ == v && pos <= out.1 <= bytes@.len()
                && bytes@.skip(out.1 as int) == rest,
            None => r is None,
        },
{
    reveal(read_path);
    let (package, c1) = match take_bytes(bytes, pos) {
        Some(x) => x,
        None => {
            return None;
        },
    };
    assert(package@.skip(0) =~= package@);
    let leaf_key_package = match take_key_package(package.as_slice(), 0) {
        Some((kp, end)) => {
            if end != package.len() {
                return None;
            }
            kp
        },
        None => {
            return None;
        },
    };
    let (public_keys, c2) = match take_list(bytes, c1) {
        Some(x) => x,
        None => {
            return None;
        },
    };
    let (items, c3) = match take_list(bytes, c2) {
        Some(x) => x,
        None => {
            return None;
        },
    };
    match sealed_from_items(&items) {
        Some(secrets) => Some((UpdatePath { leaf_key_package, public_keys, secrets }, c3)),
        None => None,
    }
}

/// Whether a commit can be written.
pub open spec fn commit_ok(v: CommitView) -> bool {
    &&& v.proposals.len() <= u64::MAX
    &&& queued_list_ok(v.proposals)
    &&& items_ok(queued_encodings(v.proposals))
    &&& v.path matches Some(p) ==> path_ok(p)
}

/// Reads a commit.
#[verifier::opaque]
pub open spec fn read_commit(s: Seq<u8>) -> Option<(CommitView, Seq<u8>)> {
    match read_list(s) {
        None => None,
        Some((items, s1)) => match decode_queued_list(items) {
            None => None,
            Some(proposals) => match read_byte(s1) {
                None => None,
                Some((flag, s2)) => if flag == 0 {
                    Some((CommitView { proposals, path: None }, s2))
                } else if flag == 1 {
                    match read_path(s2) {
                        None => None,
                        Some((path, rest)) => Some(
                            (CommitView { proposals, path: Some(path) }, rest),
                        ),
                    }
                } else {
                    None
                },
            },
        },
    }
}

/// A string is read as a commit and a rest exactly when it is the encoding
/// of the commit, followed by the rest.
pub proof fn lemma_read_commit(s: Seq<u8>, v: CommitView, rest: Seq<u8>)
    ensures
        read_commit(s) == Some((v, rest)) ==> s == v.encode() + rest && commit_ok(v),
        commit_ok(v) && s == v.encode() + rest ==> read_commit(s) == Some((v, rest)),
{
    reveal(read_commit);
    let encodings = queued_encodings(v.proposals);
    assert(encodings =~= Seq::new(v.proposals.len(), |i: int| v.proposals[i].encode()));
    if commit_ok(v) && s == v.encode() + rest {
        match v.path {
            None => {
                let t1 = seq![0u8] + rest;
                assert(s =~= spec_list(encodings) + t1);
                lemma_read_list(s, encodings, t1);
                lemma_decode_queued_list(encodings, v.proposals);
                lemma_read_byte(t1, 0u8, rest);
            },
            Some(p) => {
                let t2 = p.encode() + rest;
                let t1 = seq![1u8] + t2;
                assert(s =~= spec_list(encodings) + t1);
                lemma_read_list(s, encodings, t1);
                lemma_decode_queued_list(encodings, v.proposals);
                lemma_read_byte(t1, 1u8, t2);
                lemma_read_path(t2, p, rest);
            },
        }
    }
    if read_commit(s) == Some((v, rest)) {
        let (items, s1) = read_list(s)->Some_0;
        let (flag, s2) = read_byte(s1)->Some_0;
        lemma_read_list(s, items, s1);
        lemma_decode_queued_list(items, v.proposals);
        lemma_read_byte(s1, flag, s2);
        match v.path {
            None => {
                assert(s =~= v.encode() + rest);
            },
            Some(p) => {
                lemma_read_path(s2, p, rest);
                assert(s =~= v.encode() + rest);
            },
        }
    }
}

/// Reads a commit at place `pos`.
pub fn take_commit(bytes: &[u8], pos: usize) -> (r: Option<(Commit, usize)>)
    requires
        pos <= bytes@.len(),
    ensures
        match read_commit(bytes@.skip(pos as int)) {
            Some((v, rest)) => r matches Some(out) && out.0@ == v && pos <= out.1 <= bytes@.len()
                && bytes@.skip(out.1 as int) == rest,
            None => r is None,
        },
{
    reveal(read_commit);
    let (items, c1) = match take_list(bytes, pos) {
        Some(x) => x,
        None => {
            return None;
        },
    };
    let proposals = match queued_from_items(&items) {
        Some(x) => x,
        None => {
            return None;
        },
    };
    let (flag, c2) = match take_byte(bytes, c1) {
        Some(x) => x,
        None => {
            return None;
        },
    };
    if flag == 0 {
        Some((Commit { proposals, path: None }, c2))
    } else if flag == 1 {
        match take_path(bytes, c2) {
            Some((path, next)) => Some((Commit { proposals, path: Some(path) }, next)),
            None => None,
        }
    } else {
        None
    }
}

/// An optional tag on the wire: a zero byte for none, a one byte and the tag
/// behind its length for one.
pub open spec fn spec_optional(tag: Option<Seq<u8>>) -> Seq<u8> {
    match tag {
        None => seq![0u8],
        Some(t) => seq![1u8] + spec_prefixed(t),
    }
}

/// Reads an optional tag.
#[verifier::opaque]
pub open spec fn read_optional(s: Seq<u8>) -> Option<(Option<Seq<u8>>, Seq<u8>)> {
    match read_byte(s) {
        None => None,
        Some((flag, s1)) => if flag == 0 {
            Some((None, s1))
        } else if flag == 1 {
            match read_bytes(s1) {
                None => None,
                Some((t, rest)) => Some((Some(t), rest)),
            }
        } else {
            None
        },
    }
}

/// A string is read as an optional tag and a rest exactly when it is the
/// optional tag written out, followed by the rest.
pub proof fn lemma_read_optional(s: Seq<u8>, v: Option<Seq<u8>>, rest: Seq<u8>)
    ensures
        read_optional(s) == Some((v, rest)) ==> s == spec_optional(v) + rest && (v matches Some(t)
            ==> t.len() <= u64::MAX),
        (v matches Some(t) ==> t.len() <= u64::MAX) && s == spec_optional(v) + rest
            ==> read_optional(s) == Some((v, rest)),
{
    reveal(read_optional);
    if (v matches Some(t) ==> t.len() <= u64::MAX) && s == spec_optional(v) + rest {
        match v {
            None => {
                lemma_read_byte(s, 0u8, rest);
            },
            Some(t) => {
                let t1 = spec_prefixed(t) + rest;
                assert(s =~= seq![1u8] + t1);
                lemma_read_byte(s, 1u8, t1);
                lemma_read_bytes(t1, t, rest);
            },
        }
    }
    if read_optional(s) == Some((v, rest)) {
        let (flag, s1) = read_byte(s)->Some_0;
        lemma_read_byte(s, flag, s1);
        match v {
            None => {},
            Some(t) => {
                lemma_read_bytes(s1, t, rest);
                assert(s =~= spec_optional(v) + rest);
            },
        }
    }
}

/// A handshake message on the wire: what is signed, the signature, the
/// optional confirmation tag and the membership tag.
pub open spec fn spec_plaintext_wire(v: PlaintextView) -> Seq<u8> {
    v.header.encode() + v.body.encode() + spec_prefixed(v.signature) + spec_optional(
        v.confirmation_tag,
    ) + spec_prefixed(v.membership_tag)
}

/// An application message on the wire: the header, the generation and the
/// sealed payload.
pub open spec fn spec_ciphertext_wire(v: CiphertextView) -> Seq<u8> {
    v.header.encode() + spec_u64_be(v.generation as u64) + spec_prefixed(v.ciphertext)
}

/// A message on the wire: a byte that tells the two shapes apart, then the
/// message.
pub open spec fn spec_message_wire(v: MessageView) -> Seq<u8> {
    match v {
        MessageView::Handshake(f) => seq![1u8] + spec_plaintext_wire(f),
        MessageView::Application(f) => seq![2u8] + spec_ciphertext_wire(f),
    }
}

/// Whether a handshake body can be written.
pub open spec fn body_ok(v: BodyView) -> bool {
    match v {
        BodyView::Proposal(p) => proposal_ok(p),
        BodyView::Commit(c) => commit_ok(c),
    }
}

/// Whether a handshake message can be written: every part can, and the
/// header announces the body that follows.
pub open spec fn plaintext_ok(v: PlaintextView) -> bool {
    &&& header_ok(v.header)
    &&& body_ok(v.body)
    &&& v.header.content_type == v.body.content_type()
    &&& v.signature.len() <= u64::MAX
    &&& v.confirmation_tag matches Some(t) ==> t.len() <= u64::MAX
    &&& v.membership_tag.len() <= u64::MAX
}

/// Whether an application message can be written.
pub open spec fn ciphertext_ok(v: CiphertextView) -> bool {
    header_ok(v.header) && v.generation <= u32::MAX && v.ciphertext.len() <= u64::MAX
}

/// Whether a message can be written.
pub open spec fn message_ok(v: MessageView) -> bool {
    match v {
        MessageView::Handshake(f) => plaintext_ok(f),
        MessageView::Application(f) => ciphertext_ok(f),
    }
}

/// Reads the body that a content type announces.
#[verifier::opaque]
pub open spec fn read_body(content_type: ContentType, s: Seq<u8>) -> Option<(BodyView, Seq<u8>)> {
    match content_type {
        ContentType::Application => None,
        ContentType::Proposal => match read_proposal(s) {
            Some((p, rest)) => Some((BodyView::Proposal(p), rest)),
            None => None,
        },
        ContentType::Commit => match read_commit(s) {
            Some((c, rest)) => Some((BodyView::Commit(c), rest)),
            None => None,
        },
    }
}

/// Reads a handshake message.
#[verifier::opaque]
pub open spec fn read_plaintext(s: Seq<u8>) -> Option<(PlaintextView, Seq<u8>)> {
    match read_header(s) {
        None => None,
        Some((header, s1)) => match read_body(header.content_type, s1) {
            None => None,
            Some((body, s2)) => match read_bytes(s2) {
                None => None,
                Some((signature, s3)) => match read_optional(s3) {
                    None => None,
                    Some((confirmation_tag, s4)) => match read_bytes(s4) {
                        None => None,
                        Some((membership_tag, rest)) => Some(
                            (
                                PlaintextView {
                                    header,
                                    body,
                                    signature,
                                    confirmation_tag,
                                    membership_tag,
                                },
                                rest,
                            ),
                        ),
                    },
                },
            },
        },
    }
}

/// Reads an application message.
#[verifier::opaque]
pub open spec fn read_ciphertext(s: Seq<u8>) -> Option<(CiphertextView, Seq<u8>)> {
    match read_header(s) {
        None => None,
        Some((header, s1)) => match read_u32(s1) {
            None => None,
            Some((generation, s2)) => match read_bytes(s2) {
                None => None,
                Some((ciphertext, rest)) => Some(
                    (CiphertextView { header, generation: generation as nat, ciphertext }, rest),
                ),
            },
        },
    }
}

/// Reads a message.
#[verifier::opaque]
pub open spec fn read_message(s: Seq<u8>) -> Option<(MessageView, Seq<u8>)> {
    match read_byte(s) {
        None => None,
        Some((tag, s1)) => if tag == 1 {
            match read_plaintext(s1) {
                Some((f, rest)) => Some((MessageView::Handshake(f), rest)),
                None => None,
            }
        } else if tag == 2 {
            match read_ciphertext(s1) {
                Some((f, rest)) => Some((MessageView::Application(f), rest)),
                None => None,
            }
        } else {
            None
        },
    }
}

/// The message that a byte string spells, if it spells one.
pub open spec fn spec_decode_message(bytes: Seq<u8>) -> Option<MessageView> {
    exactly(read_message(bytes))
}

/// A string is read as a body and a rest exactly when it is the encoding of
/// the body that the content type announces, followed by the rest.
pub proof fn lemma_read_body(content_type: ContentType, s: Seq<u8>, v: BodyView, rest: Seq<u8>)
    ensures
        read_body(content_type, s) == Some((v, rest)) ==> s == v.encode() + rest && body_ok(v)
            && v.content_type() == content_type,
        body_ok(v) && v.content_type() == content_type && s == v.encode() + rest ==> read_body(
            content_type,
            s,
        ) == Some((v, rest)),
{
    reveal(read_body);
    match v {
        BodyView::Proposal(p) => {
            lemma_read_proposal(s, p, rest);
        },
        BodyView::Commit(c) => {
            lemma_read_commit(s, c, rest);
        },
    }
}

/// A handshake message on the wire, followed by a rest, is read as the
/// message and the rest.
proof fn lemma_plaintext_written(s: Seq<u8>, v: PlaintextView, rest: Seq<u8>)
    requires
        plaintext_ok(v),
        s == spec_plaintext_wire(v) + rest,
    ensures
        read_plaintext(s) == Some((v, rest)),
{
    reveal(read_plaintext);
    let t4 = spec_prefixed(v.membership_tag) + rest;
    let t3 = spec_optional(v.confirmation_tag) + t4;
    let t2 = spec_prefixed(v.signature) + t3;
    let t1 = v.body.encode() + t2;
    let x2 = v.header.encode() + v.body.encode();
    let x3 = x2 + spec_prefixed(v.signature);
    let x4 = x3 + spec_optional(v.confirmation_tag);
    lemma_append_assoc(x4, spec_prefixed(v.membership_tag), rest);
    lemma_append_assoc(x3, spec_optional(v.confirmation_tag), t4);
    lemma_append_assoc(x2, spec_prefixed(v.signature), t3);
    lemma_append_assoc(v.header.encode(), v.body.encode(), t2);
    assert(s == v.header.encode() + t1);
    lemma_read_header(s, v.header, t1);
    assert(read_header(s) == Some((v.header, t1)));
    lemma_read_body(v.header.content_type, t1, v.body, t2);
    assert(read_body(v.header.content_type, t1) == Some((v.body, t2)));
    lemma_read_bytes(t2, v.signature, t3);
    assert(read_bytes(t2) == Some((v.signature, t3)));
    lemma_read_optional(t3, v.confirmation_tag, t4);
    assert(read_optional(t3) == Some((v.confirmation_tag, t4)));
    lemma_read_bytes(t4, v.membership_tag, rest);
    assert(read_bytes(t4) == Some((v.membership_tag, rest)));
}

/// What is read as a handshake message and a rest is the message on the
/// wire, followed by the rest.
proof fn lemma_plaintext_read(s: Seq<u8>, v: PlaintextView, rest: Seq<u8>)
    requires
        read_plaintext(s) == Some((v, rest)),
    ensures
        s == spec_plaintext_wire(v) + rest,
        plaintext_ok(v),
{
    reveal(read_plaintext);
    let (h, s1) = read_header(s)->Some_0;
    let (b, s2) = read_body(h.content_type, s1)->Some_0;
    let (sig, s3) = read_bytes(s2)->Some_0;
    let (tag, s4) = read_optional(s3)->Some_0;
    let (m, s5) = read_bytes(s4)->Some_0;
    assert(v == PlaintextView {
        header: h,
        body: b,
        signature: sig,
        confirmation_tag: tag,
        membership_tag: m,
    });
    assert(s5 == rest);
    lemma_read_header(s, h, s1);
    assert(s == h.encode() + s1);
    lemma_read_body(h.content_type, s1, b, s2);
    assert(s1 == b.encode() + s2);
    lemma_read_bytes(s2, sig, s3);
    assert(s2 == spec_prefixed(sig) + s3);
    lemma_read_optional(s3, tag, s4);
    assert(s3 == spec_optional(tag) + s4);
    lemma_read_bytes(s4, m, rest);
    assert(s4 == spec_prefixed(m) + rest);
    let x2 = h.encode() + b.encode();
    let x3 = x2 + spec_prefixed(sig);
    let x4 = x3 + spec_optional(tag);
    lemma_append_assoc(x4, spec_prefixed(m), rest);
    lemma_append_assoc(x3, spec_optional(tag), s4);
    lemma_append_assoc(x2, spec_prefixed(sig), s3);
    lemma_append_assoc(h.encode(), b.encode(), s2);
    assert(spec_plaintext_wire(v) == x4 + spec_prefixed(m));
}

/// A string is read as a handshake message and a rest exactly when it is the
/// message on the wire, followed by the rest.
pub proof fn lemma_read_plaintext(s: Seq<u8>, v: PlaintextView, rest: Seq<u8>)
    ensures
        read_plaintext(s) == Some((v, rest)) ==> s == spec_plaintext_wire(v) + rest
            && plaintext_ok(v),
        plaintext_ok(v) && s == spec_plaintext_wire(v) + rest ==> read_plaintext(s) == Some(
            (v, rest),
        ),
{
    if plaintext_ok(v) && s == spec_plaintext_wire(v) + rest {
        lemma_plaintext_written(s, v, rest);
    }
    if read_plaintext(s) == Some((v, rest)) {
        lemma_plaintext_read(s, v, rest);
    }
}

/// A string is read as an application message and a rest exactly when it is
/// the message on the wire, followed by the rest.
pub proof fn lemma_read_ciphertext(s: Seq<u8>, v: CiphertextView, rest: Seq<u8>)
    ensures
        read_ciphertext(s) == Some((v, rest)) ==> s == spec_ciphertext_wire(v) + rest
            && ciphertext_ok(v),
        ciphertext_ok(v) && s == spec_ciphertext_wire(v) + rest ==> read_ciphertext(s) == Some(
            (v, rest),
        ),
{
    reveal(read_ciphertext);
    if ciphertext_ok(v) && s == spec_ciphertext_wire(v) + rest {
        let t2 = spec_prefixed(v.ciphertext) + rest;
        let t1 = spec_u64_be(v.generation as u64) + t2;
        assert(s =~= v.header.encode() + t1);
        lemma_read_header(s, v.header, t1);
        lemma_read_u32(t1, v.generation as u32, t2);
        lemma_read_bytes(t2, v.ciphertext, rest);
    }
    if read_ciphertext(s) == Some((v, rest)) {
        let (h, s1) = read_header(s)->Some_0;
        let (g, s2) = read_u32(s1)->Some_0;
        lemma_read_header(s, h, s1);
        lemma_read_u32(s1, g, s2);
        lemma_read_bytes(s2, v.ciphertext, rest);
        assert(s =~= spec_ciphertext_wire(v) + rest);
    }
}

/// Reading is the inverse of writing: a byte string spells a message exactly
/// when it is that message on the wire.
pub proof fn lemma_decode_message(bytes: Seq<u8>, v: MessageView)
    ensures
        spec_decode_message(bytes) == Some(v) <==> message_ok(v) && bytes == spec_message_wire(v),
{
    reveal(read_message);
    let empty = Seq::<u8>::empty();
    if message_ok(v) && bytes == spec_message_wire(v) {
        match v {
            MessageView::Handshake(f) => {
                let t1 = spec_plaintext_wire(f) + empty;
                assert(bytes =~= seq![1u8] + t1);
                lemma_read_byte(bytes, 1u8, t1);
                lemma_read_plaintext(t1, f, empty);
            },
            MessageView::Application(f) => {
                let t1 = spec_ciphertext_wire(f) + empty;
                assert(bytes =~= seq![2u8] + t1);
                lemma_read_byte(bytes, 2u8, t1);
                lemma_read_ciphertext(t1, f, empty);
            },
        }
    }
    if spec_decode_message(bytes) == Some(v) {
        let (tag, s1) = read_byte(bytes)->Some_0;
        let rest = read_message(bytes)->Some_0.1;
        lemma_read_byte(bytes, tag, s1);
        assert(rest =~= empty);
        match v {
            MessageView::Handshake(f) => {
                lemma_read_plaintext(s1, f, rest);
                assert(bytes =~= spec_message_wire(v));
            },
            MessageView::Application(f) => {
                lemma_read_ciphertext(s1, f, rest);
                assert(bytes =~= spec_message_wire(v));
            },
        }
    }
}

/// Reads a handshake message at place `pos`.
pub fn take_plaintext(bytes: &[u8], pos: usize) -> (r: Option<(PlaintextFrame, usize)>)
    requires
        pos <= bytes@.len(),
    ensures
        match read_plaintext(bytes@.skip(pos as int)) {
            Some((v, rest)) => r matches Some(out) && out.0@ == v && pos <= out.1 <= bytes@.len()
                && bytes@.skip(out.1 as int) == rest,
            None => r is None,
        },
{
    reveal(read_plaintext);
    reveal(read_body);
    reveal(read_optional);
    let (header, c1) = match take_header(bytes, pos) {
        Some(x) => x,
        None => {
            return None;
        },
    };
    let (body, c2) = match header.content_type {
        ContentType::Application => {
            return None;
        },
        ContentType::Proposal => match take_proposal(bytes, c1) {
            Some((p, next)) => (HandshakeBody::Proposal(p), next),
            None => {
                return None;
            },
        },
        ContentType::Commit => match take_commit(bytes, c1) {
            Some((c, next)) => (HandshakeBody::Commit(c), next),
            None => {
                return None;
            },
        },
    };
    let (signature, c3) = match take_bytes(bytes, c2) {
        Some(x) => x,
        None => {
            return None;
        },
    };
    let (flag, c4) = match take_byte(bytes, c3) {
        Some(x) => x,
        None => {
            return None;
        },
    };
    let (confirmation_tag, c5) = if flag == 0 {
        (None, c4)
    } else if flag == 1 {
        match take_bytes(bytes, c4) {
            Some((t, next)) => (Some(t), next),
            None => {
                return None;
            },
        }
    } else {
        return None;
    };
    match take_bytes(bytes, c5) {
        Some((membership_tag, next)) => Some(
            (PlaintextFrame { header, body, signature, confirmation_tag, membership_tag }, next),
        ),
        None => None,
    }
}

/// Reads an application message at place `pos`.
pub fn take_ciphertext(bytes: &[u8], pos: usize) -> (r: Option<(CiphertextFrame, usize)>)
    requires
        pos <= bytes@.len(),
    ensures
        match read_ciphertext(bytes@.skip(pos as int)) {
            Some((v, rest)) => r matches Some(out) && out.0@ == v && pos <= out.1 <= bytes@.len()
                && bytes@.skip(out.1 as int) == rest,
            None => r is None,
        },
{
    reveal(read_ciphertext);
    let (header, c1) = match take_header(bytes, pos) {
        Some(x) => x,
        None => {
            return None;
        },
    };
    let (generation, c2) = match take_u32(bytes, c1) {
        Some(x) => x,
        None => {
            return None;
        },
    };
    match take_bytes(bytes, c2) {
        Some((ciphertext, next)) => Some((CiphertextFrame { header, generation, ciphertext }, next)),
        None => None,
    }
}

/// Reads a message from the bytes that the transport delivered: the message
/// that the bytes spell, or `None` where they spell none.
pub fn decode_message(bytes: &[u8]) -> (r: Option<WireMessage>)
    ensures
        match spec_decode_message(bytes@) {
            Some(v) => r matches Some(m) && m@ == v,
            None => r is None,
        },
{
    reveal(read_message);
    assert(bytes@.skip(0) =~= bytes@);
    let (tag, c1) = match take_byte(bytes, 0) {
        Some(x) => x,
        None => {
            return None;
        },
    };
    if tag == 1 {
        match take_plaintext(bytes, c1) {
            Some((f, next)) => if next == bytes.len() {
                Some(WireMessage::Handshake(f))
            } else {
                None
            },
            None => None,
        }
    } else if tag == 2 {
        match take_ciphertext(bytes, c1) {
            Some((f, next)) => if next == bytes.len() {
                Some(WireMessage::Application(f))
            } else {
                None
            },
            None => None,
        }
    } else {
        None
    }
}

/// A key package that was held in memory can be written.
pub proof fn lemma_key_package_fits(kp: &KeyPackage)
    ensures
        key_package_ok(kp@),
{
    assert(kp.identity.len() == kp.identity@.len());
    assert(kp.signature_key.len() == kp.signature_key@.len());
    assert(kp.init_key.len() == kp.init_key@.len());
    assert(kp.signature.len() == kp.signature@.len());
}

/// A proposal that was held in memory can be written.
pub proof fn lemma_queued_fits(q: &QueuedProposal)
    ensures
        queued_ok(q@),
{
    match &q.proposal {
        Proposal::Add(kp) => {
            lemma_key_package_fits(kp);
        },
        Proposal::Remove(_) => {},
        Proposal::Update(kp) => {
            lemma_key_package_fits(kp);
        },
    }
}

/// A header that was held in memory can be written.
pub proof fn lemma_header_fits(h: &FrameHeader)
    ensures
        header_ok(h@),
{
    assert(h.group_id.len() == h.group_id@.len());
    assert(h.authenticated_data.len() == h.authenticated_data@.len());
}

/// A commit that was held in memory can be written.
pub proof fn lemma_commit_fits(c: &Commit)
    requires
        c@.fits(),
    ensures
        commit_ok(c@),
{
    let v = c@;
    assert(c.proposals.len() == c.proposals@.len());
    assert forall|i: int| 0 <= i < v.proposals.len() implies queued_ok(#[trigger] v.proposals[i])
        by {
        let q = c.proposals@[i];
        assert(v.proposals[i] == q@);
        lemma_queued_fits(&q);
    }
    assert forall|i: int| 0 <= i < v.proposals.len() implies (#[trigger] queued_encodings(
        v.proposals,
    )[i]).len() <= u64::MAX by {
        assert(v.proposals[i].encode().len() <= usize::MAX);
    }
    match c.path {
        None => {},
        Some(p) => {
            let pv = p@;
            lemma_key_package_fits(&p.leaf_key_package);
            assert(p.public_keys.len() == p.public_keys@.len());
            assert(p.secrets.len() == p.secrets@.len());
            assert forall|i: int| 0 <= i < pv.secrets.len() implies sealed_ok(
                #[trigger] pv.secrets[i],
            ) by {
                let e = p.secrets@[i];
                assert(pv.secrets[i] == e@);
                assert(e.kem_output.len() == e.kem_output@.len());
                assert(e.ciphertext.len() == e.ciphertext@.len());
            }
            assert forall|i: int| 0 <= i < pv.secrets.len() implies (#[trigger] sealed_encodings(
                pv.secrets,
            )[i]).len() <= u64::MAX by {
                assert(pv.secrets[i].encode().len() <= usize::MAX);
            }
            assert forall|i: int| 0 <= i < pv.public_keys.len() implies (
            #[trigger] pv.public_keys[i]).len() <= u64::MAX by {
                assert(pv.public_keys[i] == p.public_keys@[i]@);
                assert(p.public_keys@[i].len() == p.public_keys@[i]@.len());
            }
            assert(path_ok(pv));
        },
    }
}

/// Writes an optional tag.
fn write_optional(out: &mut Vec<u8>, tag: &Option<Vec<u8>>)
    ensures
        final(out)@ == old(out)@ + spec_optional(
            match *tag {
                Some(t) => Some(t@),
                None => None,
            },
        ),
{
    match tag {
        None => {
            out.push(0u8);
            assert(out@ =~= old(out)@ + seq![0u8]);
        },
        Some(t) => {
            let ghost before = out@;
            out.push(1u8);
            append_prefixed(out, t.as_slice());
            assert(out@ =~= before + (seq![1u8] + spec_prefixed(t@)));
        },
    }
}

/// Writes a handshake message.
fn write_plaintext(f: &PlaintextFrame) -> (out: Vec<u8>)
    ensures
        out@ == spec_plaintext_wire(f@),
        f@.header.content_type == f@.body.content_type() ==> plaintext_ok(f@),
{
    let mut out = crate::framing::to_be_signed(&f.header, &f.body);
    append_prefixed(&mut out, f.signature.as_slice());
    write_optional(&mut out, &f.confirmation_tag);
    append_prefixed(&mut out, f.membership_tag.as_slice());
    proof {
        lemma_header_fits(&f.header);
        match &f.body {
            HandshakeBody::Commit(c) => {
                lemma_commit_fits(c);
            },
            HandshakeBody::Proposal(p) => {
                match p {
                    Proposal::Add(kp) => {
                        lemma_key_package_fits(kp);
                    },
                    Proposal::Remove(_) => {},
                    Proposal::Update(kp) => {
                        lemma_key_package_fits(kp);
                    },
                }
            },
        }
        assert(f.signature.len() == f.signature@.len());
        assert(f.membership_tag.len() == f.membership_tag@.len());
        match &f.confirmation_tag {
            Some(t) => {
                assert(t.len() == t@.len());
            },
            None => {},
        }
    }
    out
}

/// Writes an application message.
fn write_ciphertext(f: &CiphertextFrame) -> (out: Vec<u8>)
    ensures
        out@ == spec_ciphertext_wire(f@),
        ciphertext_ok(f@),
{
    let mut out = f.header.encode();
    let generation = u64_be(f.generation as u64);
    append(&mut out, generation.as_slice());
    append_prefixed(&mut out, f.ciphertext.as_slice());
    proof {
        lemma_header_fits(&f.header);
        assert(f.ciphertext.len() == f.ciphertext@.len());
    }
    out
}

/// Writes a message for the transport. A message whose header announces its
/// body is read back by `decode_message` as the message that was written.
pub fn encode_message(message: &WireMessage) -> (out: Vec<u8>)
    ensures
        out@ == spec_message_wire(message@),
        (message@ matches MessageView::Handshake(f) ==> f.header.content_type
            == f.body.content_type()) ==> spec_decode_message(out@) == Some(message@),
{
    let mut out: Vec<u8> = Vec::new();
    match message {
        WireMessage::Handshake(f) => {
            out.push(1u8);
            let body = write_plaintext(f);
            append(&mut out, body.as_slice());
        },
        WireMessage::Application(f) => {
            out.push(2u8);
            let body = write_ciphertext(f);
            append(&mut out, body.as_slice());
        },
    }
    proof {
        assert(out@ =~= spec_message_wire(message@));
        lemma_decode_message(out@, message@);
    }
    out
}

/// The key package that a byte string spells, if it spells one.
pub open spec fn spec_decode_key_package(bytes: Seq<u8>) -> Option<KeyPackageView> {
    exactly(read_key_package(bytes))
}

/// A byte string spells a key package exactly when it is the encoding of
/// that key package.
pub proof fn lemma_decode_key_package(bytes: Seq<u8>, v: KeyPackageView)
    ensures
        spec_decode_key_package(bytes) == Some(v) <==> key_package_ok(v) && bytes == v.encode(),
{
    let empty = Seq::<u8>::empty();
    if key_package_ok(v) && bytes == v.encode() {
        assert(bytes =~= v.encode() + empty);
        lemma_read_key_package(bytes, v, empty);
    }
    if spec_decode_key_package(bytes) == Some(v) {
        let rest = read_key_package(bytes)->Some_0.1;
        lemma_read_key_package(bytes, v, rest);
        assert(rest =~= empty);
        assert(bytes =~= v.encode());
    }
}

/// Reads a key package from bytes: the key package that the bytes spell, or
/// `None` where they spell none.
pub fn decode_key_package(bytes: &[u8]) -> (r: Option<KeyPackage>)
    ensures
        match spec_decode_key_package(bytes@) {
            Some(v) => r matches Some(kp) && kp@ == v,
            None => r is None,
        },
{
    assert(bytes@.skip(0) =~= bytes@);
    match take_key_package(bytes, 0) {
        Some((kp, next)) => if next == bytes.len() {
            Some(kp)
        } else {
            None
        },
        None => None,
    }
}

/// Writes a key package. What is written is read back by
/// `decode_key_package` as the key package.
pub fn encode_key_package(kp: &KeyPackage) -> (out: Vec<u8>)
    ensures
        out@ == kp@.encode(),
        spec_decode_key_package(out@) == Some(kp@),
{
    let out = kp.encode();
    proof {
        lemma_key_package_fits(kp);
        lemma_decode_key_package(out@, kp@);
    }
    out
}

/// Whether a node can be written.
pub open spec fn wire_node_ok(v: NodeView) -> bool {
    match v {
        NodeView::Blank => true,
        NodeView::Leaf(kp) => key_package_ok(kp),
        NodeView::Parent(pk) => pk.len() <= u64::MAX,
    }
}

/// Reads a node.
#[verifier::opaque]
pub open spec fn read_node(s: Seq<u8>) -> Option<(NodeView, Seq<u8>)> {
    match read_byte(s) {
        None => None,
        Some((tag, s1)) => if tag == 0 {
            Some((NodeView::Blank, s1))
        } else if tag == 1 {
            match read_key_package(s1) {
                Some((kp, rest)) => Some((NodeView::Leaf(kp), rest)),
                None => None,
            }
        } else if tag == 2 {
            match read_bytes(s1) {
                Some((pk, rest)) => Some((NodeView::Parent(pk), rest)),
                None => None,
            }
        } else {
            None
        },
    }
}

/// A string is read as a node and a rest exactly when it is the encoding of
/// the node, followed by the rest.
pub proof fn lemma_read_node(s: Seq<u8>, v: NodeView, rest: Seq<u8>)
    ensures
        read_node(s) == Some((v, rest)) ==> s == spec_encode_node(v) + rest && wire_node_ok(v),
        wire_node_ok(v) && s == spec_encode_node(v) + rest ==> read_node(s) == Some((v, rest)),
{
    reveal(read_node);
    if wire_node_ok(v) && s == spec_encode_node(v) + rest {
        match v {
            NodeView::Blank => {
                lemma_read_byte(s, 0u8, rest);
            },
            NodeView::Leaf(kp) => {
                assert(s =~= seq![1u8] + (kp.encode() + rest));
                lemma_read_byte(s, 1u8, kp.encode() + rest);
                lemma_read_key_package(kp.encode() + rest, kp, rest);
            },
            NodeView::Parent(pk) => {
                assert(s =~= seq![2u8] + (spec_prefixed(pk) + rest));
                lemma_read_byte(s, 2u8, spec_prefixed(pk) + rest);
                lemma_read_bytes(spec_prefixed(pk) + rest, pk, rest);
            },
        }
    }
    if read_node(s) == Some((v, rest)) {
        let (tag, s1) = read_byte(s)->Some_0;
        lemma_read_byte(s, tag, s1);
        match v {
            NodeView::Blank => {},
            NodeView::Leaf(kp) => {
                lemma_read_key_package(s1, kp, rest);
                assert(s =~= spec_encode_node(v) + rest);
            },
            NodeView::Parent(pk) => {
                lemma_read_bytes(s1, pk, rest);
                assert(s =~= spec_encode_node(v) + rest);
            },
        }
    }
}

/// Reads a node at place `pos`.
pub fn take_node(bytes: &[u8], pos: usize) -> (r: Option<(Node, usize)>)
    requires
        pos <= bytes@.len(),
    ensures
        match read_node(bytes@.skip(pos as int)) {
            Some((v, rest)) => r matches Some(out) && out.0@ == v && pos <= out.1 <= bytes@.len()
                && bytes@.skip(out.1 as int) == rest,
            None => r is None,
        },
{
    reveal(read_node);
    let (tag, c1) = match take_byte(bytes, pos) {
        Some(x) => x,
        None => {
            return None;
        },
    };
    if tag == 0 {
        Some((Node::Blank, c1))
    } else if tag == 1 {
        match take_key_package(bytes, c1) {
            Some((kp, next)) => Some((Node::Leaf(kp), next)),
            None => None,
        }
    } else if tag == 2 {
        match take_bytes(bytes, c1) {
            Some((pk, next)) => Some((Node::Parent(pk), next)),
            None => None,
        }
    } else {
        None
    }
}

/// The encodings of the nodes of a tree.
pub open spec fn node_encodings(v: Seq<NodeView>) -> Seq<Seq<u8>> {
    Seq::new(v.len(), |i: int| spec_encode_node(v[i]))
}

/// Whether every node of a list can be written.
pub open spec fn node_list_ok(v: Seq<NodeView>) -> bool {
    forall|i: int| 0 <= i < v.len() ==> wire_node_ok(#[trigger] v[i])
}

/// Reads each item of a list as a node.
pub open spec fn decode_node_list(items: Seq<Seq<u8>>) -> Option<Seq<NodeView>> {
    if forall|i: int| 0 <= i < items.len() ==> exactly(#[trigger] read_node(items[i])) is Some {
        Some(Seq::new(items.len(), |i: int| exactly(read_node(items[i]))->Some_0))
    } else {
        None
    }
}

/// The items of a list are read as nodes exactly when they are the
/// encodings of those nodes.
pub proof fn lemma_decode_node_list(items: Seq<Seq<u8>>, v: Seq<NodeView>)
    ensures
        decode_node_list(items) == Some(v) ==> items == node_encodings(v) && node_list_ok(v),
        node_list_ok(v) && items == node_encodings(v) ==> decode_node_list(items) == Some(v),
{
    if decode_node_list(items) == Some(v) {
        assert forall|i: int| 0 <= i < v.len() implies wire_node_ok(#[trigger] v[i]) && items[i]
            == spec_encode_node(v[i]) by {
            let (q, rest) = read_node(items[i])->Some_0;
            assert(exactly(read_node(items[i])) is Some);
            lemma_read_node(items[i], q, rest);
            assert(items[i] =~= spec_encode_node(q));
        }
        assert(items =~= node_encodings(v));
    }
    if node_list_ok(v) && items == node_encodings(v) {
        assert forall|i: int| 0 <= i < items.len() implies exactly(#[trigger] read_node(items[i]))
            == Some(v[i]) by {
            assert(wire_node_ok(v[i]));
            assert(items[i] =~= spec_encode_node(v[i]) + Seq::<u8>::empty());
            lemma_read_node(items[i], v[i], Seq::empty());
        }
        assert(decode_node_list(items)->Some_0 =~= v);
    }
}

/// Reads each item of a list as a node.
pub fn nodes_from_items(items: &Vec<Vec<u8>>) -> (r: Option<Vec<Node>>)
    ensures
        match decode_node_list(byte_views(items@)) {
            Some(v) => r matches Some(out) && node_views(out@) == v,
            None => r is None,
        },
{
    let ghost views = byte_views(items@);
    let mut out: Vec<Node> = Vec::new();
    let mut i: usize = 0;
    while i < items.len()
        invariant
            i <= items@.len(),
            views == byte_views(items@),
            out@.len() == i,
            forall|k: int| 0 <= k < i ==> exactly(#[trigger] read_node(views[k])) == Some(out@[k]@),
        decreases items@.len() - i,
    {
        assert(items@[i as int]@.skip(0) =~= items@[i as int]@);
        assert(views[i as int] == items@[i as int]@);
        match take_node(items[i].as_slice(), 0) {
            Some((q, next)) => {
                if next != items[i].len() {
                    assert(!(exactly(read_node(views[i as int])) is Some));
                    return None;
                }
                out.push(q);
            },
            None => {
                assert(!(exactly(read_node(views[i as int])) is Some));
                return None;
            },
        }
        i += 1;
    }
    assert(decode_node_list(views)->Some_0 =~= node_views(out@));
    Some(out)
}

/// An optional tree on the wire: a zero byte for none, a one byte and the
/// list of its nodes for one.
pub open spec fn spec_optional_tree(tree: Option<Seq<NodeView>>) -> Seq<u8> {
    match tree {
        None => seq![0u8],
        Some(t) => seq![1u8] + spec_list(node_encodings(t)),
    }
}

/// A welcome on the wire.
pub open spec fn spec_welcome_wire(v: WelcomeView) -> Seq<u8> {
    spec_prefixed(v.recipient) + spec_prefixed(v.group_id) + spec_prefixed(v.kem_output)
        + spec_prefixed(v.ciphertext) + spec_prefixed(v.confirmed_transcript_hash) + spec_prefixed(
        v.confirmation_tag,
    ) + spec_optional_tree(v.tree)
}

/// Whether a welcome can be written and read back: every part can be
/// written, and the tree, if there is one, has the shape of a tree.
pub open spec fn welcome_ok(v: WelcomeView) -> bool {
    &&& v.recipient.len() <= u64::MAX
    &&& v.group_id.len() <= u64::MAX
    &&& v.kem_output.len() <= u64::MAX
    &&& v.ciphertext.len() <= u64::MAX
    &&& v.confirmed_transcript_hash.len() <= u64::MAX
    &&& v.confirmation_tag.len() <= u64::MAX
    &&& v.tree matches Some(t) ==> t.len() <= u64::MAX && node_list_ok(t) && items_ok(
        node_encodings(t),
    ) && tree_wf(t)
}

/// Reads an optional tree.
#[verifier::opaque]
pub open spec fn read_optional_tree(s: Seq<u8>) -> Option<(Option<Seq<NodeView>>, Seq<u8>)> {
    match read_byte(s) {
        None => None,
        Some((flag, s1)) => if flag == 0 {
            Some((None, s1))
        } else if flag == 1 {
            match read_list(s1) {
                None => None,
                Some((items, rest)) => match decode_node_list(items) {
                    None => None,
                    Some(t) => if tree_wf(t) {
                        Some((Some(t), rest))
                    } else {
                        None
                    },
                },
            }
        } else {
            None
        },
    }
}

/// Reads a welcome.
#[verifier::opaque]
pub open spec fn read_welcome(s: Seq<u8>) -> Option<(WelcomeView, Seq<u8>)> {
    match read_bytes(s) {
        None => None,
        Some((recipient, s1)) => match read_bytes(s1) {
            None => None,
            Some((group_id, s2)) => match read_bytes(s2) {
                None => None,
                Some((kem_output, s3)) => match read_bytes(s3) {
                    None => None,
                    Some((ciphertext, s4)) => match read_bytes(s4) {
                        None => None,
                        Some((confirmed_transcript_hash, s5)) => match read_bytes(s5) {
                            None => None,
                            Some((confirmation_tag, s6)) => match read_optional_tree(s6) {
                                None => None,
                                Some((tree, rest)) => Some(
                                    (
                                        WelcomeView {
                                            recipient,
                                            group_id,
                                            kem_output,
                                            ciphertext,
                                            confirmed_transcript_hash,
                                            confirmation_tag,
                                            tree,
                                        },
                                        rest,
                                    ),
                                ),
                            },
                        },
                    },
                },
            },
        },
    }
}

/// The welcome that a byte string spells, if it spells one.
pub open spec fn spec_decode_welcome(bytes: Seq<u8>) -> Option<WelcomeView> {
    exactly(read_welcome(bytes))
}

/// A string is read as an optional tree and a rest exactly when it is the
/// optional tree written out, followed by the rest.
pub proof fn lemma_read_optional_tree(s: Seq<u8>, v: Option<Seq<NodeView>>, rest: Seq<u8>)
    ensures
        read_optional_tree(s) == Some((v, rest)) ==> s == spec_optional_tree(v) + rest && (
        v matches Some(t) ==> t.len() <= u64::MAX && node_list_ok(t) && items_ok(node_encodings(t))
            && tree_wf(t)),
        (v matches Some(t) ==> t.len() <= u64::MAX && node_list_ok(t) && items_ok(
            node_encodings(t),
        ) && tree_wf(t)) && s == spec_optional_tree(v) + rest ==> read_optional_tree(s) == Some(
            (v, rest),
        ),
{
    reveal(read_optional_tree);
    if (v matches Some(t) ==> t.len() <= u64::MAX && node_list_ok(t) && items_ok(node_encodings(t))
        && tree_wf(t)) && s == spec_optional_tree(v) + rest {
        match v {
            None => {
                lemma_read_byte(s, 0u8, rest);
            },
            Some(t) => {
                let t1 = spec_list(node_encodings(t)) + rest;
                assert(s =~= seq![1u8] + t1);
                lemma_read_byte(s, 1u8, t1);
                lemma_read_list(t1, node_encodings(t), rest);
                lemma_decode_node_list(node_encodings(t), t);
            },
        }
    }
    if read_optional_tree(s) == Some((v, rest)) {
        let (flag, s1) = read_byte(s)->Some_0;
        lemma_read_byte(s, flag, s1);
        match v {
            None => {},
            Some(t) => {
                let (items, r) = read_list(s1)->Some_0;
                lemma_read_list(s1, items, r);
                lemma_decode_node_list(items, t);
                assert(s =~= spec_optional_tree(v) + rest);
            },
        }
    }
}

/// A welcome on the wire, followed by a rest, is read as the welcome and the
/// rest.
proof fn lemma_welcome_written(s: Seq<u8>, v: WelcomeView, rest: Seq<u8>)
    requires
        welcome_ok(v),
        s == spec_welcome_wire(v) + rest,
    ensures
        read_welcome(s) == Some((v, rest)),
{
    reveal(read_welcome);
    let t6 = spec_optional_tree(v.tree) + rest;
    let t5 = spec_prefixed(v.confirmation_tag) + t6;
    let t4 = spec_prefixed(v.confirmed_transcript_hash) + t5;
    let t3 = spec_prefixed(v.ciphertext) + t4;
    let t2 = spec_prefixed(v.kem_output) + t3;
    let t1 = spec_prefixed(v.group_id) + t2;
    let x2 = spec_prefixed(v.recipient) + spec_prefixed(v.group_id);
    let x3 = x2 + spec_prefixed(v.kem_output);
    let x4 = x3 + spec_prefixed(v.ciphertext);
    let x5 = x4 + spec_prefixed(v.confirmed_transcript_hash);
    let x6 = x5 + spec_prefixed(v.confirmation_tag);
    lemma_append_assoc(x6, spec_optional_tree(v.tree), rest);
    lemma_append_assoc(x5, spec_prefixed(v.confirmation_tag), t6);
    lemma_append_assoc(x4, spec_prefixed(v.confirmed_transcript_hash), t5);
    lemma_append_assoc(x3, spec_prefixed(v.ciphertext), t4);
    lemma_append_assoc(x2, spec_prefixed(v.kem_output), t3);
    lemma_append_assoc(spec_prefixed(v.recipient), spec_prefixed(v.group_id), t2);
    assert(s == spec_prefixed(v.recipient) + t1);
    lemma_read_bytes(s, v.recipient, t1);
    assert(read_bytes(s) == Some((v.recipient, t1)));
    lemma_read_bytes(t1, v.group_id, t2);
    assert(read_bytes(t1) == Some((v.group_id, t2)));
    lemma_read_bytes(t2, v.kem_output, t3);
    assert(read_bytes(t2) == Some((v.kem_output, t3)));
    lemma_read_bytes(t3, v.ciphertext, t4);
    assert(read_bytes(t3) == Some((v.ciphertext, t4)));
    lemma_read_bytes(t4, v.confirmed_transcript_hash, t5);
    assert(read_bytes(t4) == Some((v.confirmed_transcript_hash, t5)));
    lemma_read_bytes(t5, v.confirmation_tag, t6);
    assert(read_bytes(t5) == Some((v.confirmation_tag, t6)));
    lemma_read_optional_tree(t6, v.tree, rest);
    assert(read_optional_tree(t6) == Some((v.tree, rest)));
}

/// What is read as a welcome and a rest is the welcome on the wire, followed
/// by the rest.
proof fn lemma_welcome_read(s: Seq<u8>, v: WelcomeView, rest: Seq<u8>)
    requires
        read_welcome(s) == Some((v, rest)),
    ensures
        s == spec_welcome_wire(v) + rest,
        welcome_ok(v),
{
    reveal(read_welcome);
    let (a, s1) = read_bytes(s)->Some_0;
    let (b, s2) = read_bytes(s1)->Some_0;
    let (c, s3) = read_bytes(s2)->Some_0;
    let (d, s4) = read_bytes(s3)->Some_0;
    let (e, s5) = read_bytes(s4)->Some_0;
    let (f, s6) = read_bytes(s5)->Some_0;
    let (t, s7) = read_optional_tree(s6)->Some_0;
    assert(v == WelcomeView {
        recipient: a,
        group_id: b,
        kem_output: c,
        ciphertext: d,
        confirmed_transcript_hash: e,
        confirmation_tag: f,
        tree: t,
    });
    assert(s7 == rest);
    lemma_read_bytes(s, a, s1);
    assert(s == spec_prefixed(a) + s1);
    lemma_read_bytes(s1, b, s2);
    assert(s1 == spec_prefixed(b) + s2);
    lemma_read_bytes(s2, c, s3);
    assert(s2 == spec_prefixed(c) + s3);
    lemma_read_bytes(s3, d, s4);
    assert(s3 == spec_prefixed(d) + s4);
    lemma_read_bytes(s4, e, s5);
    assert(s4 == spec_prefixed(e) + s5);
    lemma_read_bytes(s5, f, s6);
    assert(s5 == spec_prefixed(f) + s6);
    lemma_read_optional_tree(s6, t, rest);
    assert(s6 == spec_optional_tree(t) + rest);
    let (pa, pb, pc) = (spec_prefixed(a), spec_prefixed(b), spec_prefixed(c));
    let (pd, pe, pf) = (spec_prefixed(d), spec_prefixed(e), spec_prefixed(f));
    let x2 = pa + pb;
    let x3 = x2 + pc;
    let x4 = x3 + pd;
    let x5 = x4 + pe;
    let x6 = x5 + pf;
    lemma_append_assoc(x6, spec_optional_tree(t), rest);
    lemma_append_assoc(x5, pf, s6);
    lemma_append_assoc(x4, pe, s5);
    lemma_append_assoc(x3, pd, s4);
    lemma_append_assoc(x2, pc, s3);
    lemma_append_assoc(pa, pb, s2);
    assert(spec_welcome_wire(v) == x6 + spec_optional_tree(t));
}

/// Reading is the inverse of writing: a byte string spells a welcome exactly
/// when it is that welcome on the wire.
pub proof fn lemma_decode_welcome(bytes: Seq<u8>, v: WelcomeView)
    ensures
        spec_decode_welcome(bytes) == Some(v) <==> welcome_ok(v) && bytes == spec_welcome_wire(v),
{
    let empty = Seq::<u8>::empty();
    if welcome_ok(v) && bytes == spec_welcome_wire(v) {
        assert(bytes =~= spec_welcome_wire(v) + empty);
        lemma_welcome_written(bytes, v, empty);
    }
    if spec_decode_welcome(bytes) == Some(v) {
        let rest = read_welcome(bytes)->Some_0.1;
        assert(rest =~= empty);
        lemma_welcome_read(bytes, v, rest);
        assert(bytes =~= spec_welcome_wire(v));
    }
}

/// Reads an optional tree at place `pos`.
fn take_optional_tree(bytes: &[u8], pos: usize) -> (r: Option<(Option<RatchetTree>, usize)>)
    requires
        pos <= bytes@.len(),
    ensures
        match read_optional_tree(bytes@.skip(pos as int)) {
            Some((v, rest)) => r matches Some(out) && (match out.0 {
                Some(t) => v == Some(t@) && t.wf(),
                None => v is None,
            }) && pos <= out.1 <= bytes@.len() && bytes@.skip(out.1 as int) == rest,
            None => r is None,
        },
{
    reveal(read_optional_tree);
    let (flag, c1) = match take_byte(bytes, pos) {
        Some(x) => x,
        None => {
            return None;
        },
    };
    if flag == 0 {
        Some((None, c1))
    } else if flag == 1 {
        let (items, next) = match take_list(bytes, c1) {
            Some(x) => x,
            None => {
                return None;
            },
        };
        let nodes = match nodes_from_items(&items) {
            Some(x) => x,
            None => {
                return None;
            },
        };
        match RatchetTree::from_nodes(nodes) {
            Some(t) => {
                proof {
                    t.lemma_view_wf();
                }
                Some((Some(t), next))
            },
            None => None,
        }
    } else {
        None
    }
}

/// Reads a welcome from bytes: the welcome that the bytes spell, or `None`
/// where they spell none.
pub fn decode_welcome(bytes: &[u8]) -> (r: Option<Welcome>)
    ensures
        match spec_decode_welcome(bytes@) {
            Some(v) => r matches Some(w) && w@ == v && w.wf(),
            None => r is None,
        },
{
    reveal(read_welcome);
    assert(bytes@.skip(0) =~= bytes@);
    let (recipient, c1) = match take_bytes(bytes, 0) {
        Some(x) => x,
        None => {
            return None;
        },
    };
    let (group_id, c2) = match take_bytes(bytes, c1) {
        Some(x) => x,
        None => {
            return None;
        },
    };
    let (kem_output, c3) = match take_bytes(bytes, c2) {
        Some(x) => x,
        None => {
            return None;
        },
    };
    let (ciphertext, c4) = match take_bytes(bytes, c3) {
        Some(x) => x,
        None => {
            return None;
        },
    };
    let (confirmed_transcript_hash, c5) = match take_bytes(bytes, c4) {
        Some(x) => x,
        None => {
            return None;
        },
    };
    let (confirmation_tag, c6) = match take_bytes(bytes, c5) {
        Some(x) => x,
        None => {
            return None;
        },
    };
    let (tree, c7) = match take_optional_tree(bytes, c6) {
        Some(x) => x,
        None => {
            return None;
        },
    };
    if c7 != bytes.len() {
        return None;
    }
    Some(
        Welcome {
            recipient,
            group_id,
            kem_output,
            ciphertext,
            confirmed_transcript_hash,
            confirmation_tag,
            tree,
        },
    )
}

/// Writes a welcome. What is written is read back by `decode_welcome` as the
/// welcome.
pub fn encode_welcome(welcome: &Welcome) -> (out: Vec<u8>)
    requires
        welcome.wf(),
    ensures
        out@ == spec_welcome_wire(welcome@),
        spec_decode_welcome(out@) == Some(welcome@),
{
    let mut out: Vec<u8> = Vec::new();
    append_prefixed(&mut out, welcome.recipient.as_slice());
    append_prefixed(&mut out, welcome.group_id.as_slice());
    append_prefixed(&mut out, welcome.kem_output.as_slice());
    append_prefixed(&mut out, welcome.ciphertext.as_slice());
    append_prefixed(&mut out, welcome.confirmed_transcript_hash.as_slice());
    append_prefixed(&mut out, welcome.confirmation_tag.as_slice());
    let ghost head = out@;
    match &welcome.tree {
        None => {
            out.push(0u8);
            assert(out@ =~= head + spec_optional_tree(None));
        },
        Some(tree) => {
            out.push(1u8);
            let nodes = tree.nodes();
            let mut encoded: Vec<Vec<u8>> = Vec::new();
            let mut i: usize = 0;
            while i < nodes.len()
                invariant
                    i <= nodes@.len(),
                    encoded@.len() == i,
                    forall|j: int|
                        0 <= j < i ==> (#[trigger] encoded@[j])@ == spec_encode_node(nodes@[j]@)
                            && wire_node_ok(nodes@[j]@),
                decreases nodes@.len() - i,
            {
                let mut item: Vec<u8> = Vec::new();
                match &nodes[i] {
                    Node::Blank => {
                        item.push(0u8);
                        assert(item@ =~= seq![0u8]);
                    },
                    Node::Leaf(kp) => {
                        item.push(1u8);
                        let body = kp.encode();
                        append(&mut item, body.as_slice());
                        proof {
                            lemma_key_package_fits(kp);
                        }
                        assert(item@ =~= seq![1u8] + kp@.encode());
                    },
                    Node::Parent(pk) => {
                        item.push(2u8);
                        append_prefixed(&mut item, pk.as_slice());
                        assert(pk.len() == pk@.len());
                        assert(item@ =~= seq![2u8] + spec_prefixed(pk@));
                    },
                }
                encoded.push(item);
                i += 1;
            }
            let list = crate::bytes::encode_list(&encoded);
            append(&mut out, list.as_slice());
            proof {
                let t = tree@;
                assert(byte_views(encoded@) =~= node_encodings(t));
                assert(nodes.len() == nodes@.len());
                assert forall|j: int| 0 <= j < t.len() implies (#[trigger] node_encodings(t)[j]).len()
                    <= u64::MAX by {
                    assert(encoded@[j].len() == encoded@[j]@.len());
                }
                assert forall|j: int| 0 <= j < t.len() implies wire_node_ok(#[trigger] t[j]) by {
                    assert(t[j] == nodes@[j]@);
                    assert(encoded@[j]@ == spec_encode_node(nodes@[j]@));
                }
                assert(node_list_ok(t));
                tree.lemma_view_wf();
                assert(out@ =~= head + spec_optional_tree(Some(t)));
            }
        },
    }
    proof {
        assert(welcome.recipient.len() == welcome.recipient@.len());
        assert(welcome.group_id.len() == welcome.group_id@.len());
        assert(welcome.kem_output.len() == welcome.kem_output@.len());
        assert(welcome.ciphertext.len() == welcome.ciphertext@.len());
        assert(welcome.confirmed_transcript_hash.len() == welcome.confirmed_transcript_hash@.len());
        assert(welcome.confirmation_tag.len() == welcome.confirmation_tag@.len());
        assert(out@ =~= spec_welcome_wire(welcome@));
        lemma_decode_welcome(out@, welcome@);
    }
    out
}

} // verus!
