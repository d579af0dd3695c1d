//! The proposals of a commit: when a set of proposals may be committed, and
//! what it does to the tree.

use crate::bytes::{copy, equal};
use crate::errors::EngineError;
use crate::framing::{proposal_views, Proposal, ProposalView, QueuedProposal, QueuedProposalView};
use crate::ratchet_tree::{
    find_identity_from, leaf_at, leaf_count, spec_blank, spec_try_add_leaf, spec_try_set_leaf,
    tree_wf, NodeView, RatchetTree,
};
use vstd::prelude::*;

verus! {

/// Whether leaf `leaf` lies in the tree and holds a member.
pub open spec fn is_member(t: Seq<NodeView>, leaf: nat) -> bool {
    leaf < leaf_count(t) && leaf_at(t, leaf) is Leaf
}

/// The identity of the member at leaf `leaf`; empty for a blank leaf and for
/// a leaf outside the tree.
pub open spec fn identity_at(t: Seq<NodeView>, leaf: nat) -> Seq<u8> {
    if leaf < leaf_count(t) {
        match leaf_at(t, leaf) {
            NodeView::Leaf(kp) => kp.identity,
            _ => Seq::empty(),
        }
    } else {
        Seq::empty()
    }
}

/// The identity whose membership a proposal changes.
pub open spec fn touched_identity(t: Seq<NodeView>, q: QueuedProposalView) -> Seq<u8> {
    match q.proposal {
        ProposalView::Add(kp) => kp.identity,
        ProposalView::Remove(leaf) => identity_at(t, leaf),
        ProposalView::Update(kp) => kp.identity,
    }
}

/// Whether one proposal may be committed by `committer` on tree `t`: its
/// proposer is a member; an added key package is valid and names no member;
/// a removed leaf holds a member other than the committer; an update comes
/// from another member than the committer and keeps that member's identity
/// under a valid key package.
pub open spec fn proposal_ok(t: Seq<NodeView>, committer: nat, q: QueuedProposalView) -> bool {
    &&& is_member(t, q.sender)
    &&& match q.proposal {
        ProposalView::Add(kp) => kp.valid() && find_identity_from(t, kp.identity, 0) is None,
        ProposalView::Remove(leaf) => is_member(t, leaf) && leaf != committer,
        ProposalView::Update(kp) => kp.valid() && q.sender != committer && kp.identity
            == identity_at(t, q.sender),
    }
}

/// Whether a list of proposals may be committed: each may be committed, and
/// no two of them change the membership of the same identity.
pub open spec fn proposals_ok(t: Seq<NodeView>, committer: nat, qs: Seq<QueuedProposalView>) -> bool {
    &&& forall|i: int| 0 <= i < qs.len() ==> proposal_ok(t, committer, #[trigger] qs[i])
    &&& forall|i: int, j: int|
        0 <= i < j < qs.len() ==> touched_identity(t, #[trigger] qs[i]) != touched_identity(
            t,
            #[trigger] qs[j],
        )
}

/// What one proposal does to the tree.
pub open spec fn spec_apply_proposal(t: Seq<NodeView>, q: QueuedProposalView) -> Result<
    Seq<NodeView>,
    EngineError,
> {
    match q.proposal {
        ProposalView::Add(kp) => match spec_try_add_leaf(t, kp) {
            Ok((tree, _)) => Ok(tree),
            Err(e) => Err(e),
        },
        ProposalView::Remove(leaf) => if leaf < leaf_count(t) {
            Ok(spec_blank(t, leaf))
        } else {
            Err(EngineError::UnknownLeaf)
        },
        ProposalView::Update(kp) => spec_try_set_leaf(t, q.sender, kp),
    }
}

/// What a list of proposals does to the tree, applied in order from the
/// `i`-th on.
pub open spec fn spec_apply_proposals(t: Seq<NodeView>, qs: Seq<QueuedProposalView>, i: nat) -> Result<
    Seq<NodeView>,
    EngineError,
>
    decreases qs.len() - i,
{
    if i >= qs.len() {
        Ok(t)
    } else {
        match spec_apply_proposal(t, qs[i as int]) {
            Ok(tree) => spec_apply_proposals(tree, qs, i + 1),
            Err(e) => Err(e),
        }
    }
}

/// Whether a proposal leaves the member at leaf `keep` alone: it neither
/// removes it nor replaces its key package.
pub open spec fn spares(q: QueuedProposalView, keep: nat) -> bool {
    match q.proposal {
        ProposalView::Add(_) => true,
        ProposalView::Remove(leaf) => leaf != keep,
        ProposalView::Update(_) => q.sender != keep,
    }
}

/// Proposals that leave a member alone keep the member's leaf as it is, and
/// keep the shape of the tree.
pub proof fn lemma_proposals_keep_member(
    t: Seq<NodeView>,
    qs: Seq<QueuedProposalView>,
    i: nat,
    keep: nat,
)
    requires
        tree_wf(t),
        is_member(t, keep),
        spec_apply_proposals(t, qs, i) is Ok,
        forall|k: int| i <= k < qs.len() ==> spares(#[trigger] qs[k], keep),
    ensures
        tree_wf(spec_apply_proposals(t, qs, i)->Ok_0),
        is_member(spec_apply_proposals(t, qs, i)->Ok_0, keep),
        leaf_at(spec_apply_proposals(t, qs, i)->Ok_0, keep) == leaf_at(t, keep),
    decreases qs.len() - i,
{
    if i < qs.len() {
        let q = qs[i as int];
        assert(spares(q, keep));
        let next = spec_apply_proposal(t, q)->Ok_0;
        match q.proposal {
            ProposalView::Add(kp) => {
                crate::ratchet_tree::lemma_add_keeps_members(t, kp, keep);
            },
            ProposalView::Remove(leaf) => {
                crate::ratchet_tree::lemma_blank_keeps_members(t, leaf, keep);
            },
            ProposalView::Update(kp) => {
                assert(next =~= t.update((2 * q.sender) as int, NodeView::Leaf(kp)));
                assert(tree_wf(next));
            },
        }
        lemma_proposals_keep_member(next, qs, i + 1, keep);
    }
}

/// Proposals that a member may commit leave the committer alone.
pub proof fn lemma_committable_spare_committer(
    t: Seq<NodeView>,
    committer: nat,
    qs: Seq<QueuedProposalView>,
)
    requires
        proposals_ok(t, committer, qs),
    ensures
        forall|k: int| 0 <= k < qs.len() ==> spares(#[trigger] qs[k], committer),
{
    assert forall|k: int| 0 <= k < qs.len() implies spares(#[trigger] qs[k], committer) by {
        assert(proposal_ok(t, committer, qs[k]));
    }
}

/// Whether the `i`-th proposal of a list is the first with its reference.
pub open spec fn first_of_its_reference(qs: Seq<QueuedProposalView>, i: int) -> bool {
    forall|j: int| 0 <= j < i ==> (#[trigger] qs[j]).reference() != qs[i].reference()
}

/// The first `n` proposals of a list without those whose reference came
/// before: of proposals with the same reference the first stays, and the
/// order is kept.
pub open spec fn spec_deduplicate(qs: Seq<QueuedProposalView>, n: nat) -> Seq<QueuedProposalView>
    decreases n,
{
    if n == 0 {
        Seq::empty()
    } else if first_of_its_reference(qs, n - 1) {
        spec_deduplicate(qs, (n - 1) as nat).push(qs[n - 1])
    } else {
        spec_deduplicate(qs, (n - 1) as nat)
    }
}

/// Drops from a list of proposals every proposal whose reference came
/// before, so that each proposal stands in a commit once.
pub fn deduplicate(qs: Vec<QueuedProposal>) -> (out: Vec<QueuedProposal>)
    ensures
        proposal_views(out@) == spec_deduplicate(proposal_views(qs@), qs@.len()),
{
    let ghost views = proposal_views(qs@);
    let mut references: Vec<Vec<u8>> = Vec::new();
    let mut i: usize = 0;
    while i < qs.len()
        invariant
            i <= qs@.len(),
            views == proposal_views(qs@),
            references@.len() == i,
            forall|k: int| 0 <= k < i ==> (#[trigger] references@[k])@ == views[k].reference(),
        decreases qs@.len() - i,
    {
        assert(views[i as int] == qs@[i as int]@);
        references.push(qs[i].reference());
        i += 1;
    }
    let mut out: Vec<QueuedProposal> = Vec::new();
    let mut n: usize = 0;
    assert(proposal_views(out@) =~= spec_deduplicate(views, 0));
    while n < qs.len()
        invariant
            n <= qs@.len(),
            views == proposal_views(qs@),
            references@.len() == qs@.len(),
            forall|k: int|
                0 <= k < references@.len() ==> (#[trigger] references@[k])@ == views[k].reference(),
            proposal_views(out@) == spec_deduplicate(views, n as nat),
        decreases qs@.len() - n,
    {
        let mut first: bool = true;
        let mut j: usize = 0;
        while j < n
            invariant
                j <= n < qs@.len(),
                views == proposal_views(qs@),
                references@.len() == qs@.len(),
                forall|k: int|
                    0 <= k < references@.len() ==> (#[trigger] references@[k])@
                        == views[k].reference(),
                first <==> forall|k: int|
                    0 <= k < j ==> (#[trigger] views[k]).reference() != views[n as int].reference(),
            decreases n - j,
        {
            if equal(references[j].as_slice(), references[n].as_slice()) {
                assert(references@[j as int]@ == views[j as int].reference());
                assert(references@[n as int]@ == views[n as int].reference());
                first = false;
            } else {
                assert(references@[j as int]@ == views[j as int].reference());
                assert(references@[n as int]@ == views[n as int].reference());
            }
            j += 1;
        }
        if first {
            let ghost before = proposal_views(out@);
            assert(views[n as int] == qs@[n as int]@);
            out.push(qs[n].duplicate());
            assert(proposal_views(out@) =~= before.push(views[n as int]));
        }
        n += 1;
    }
    out
}

/// The identity whose membership a proposal changes.
fn touched(tree: &RatchetTree, q: &QueuedProposal) -> (id: Vec<u8>)
    requires
        tree.wf(),
    ensures
        id@ == touched_identity(tree@, q@),
{
    match &q.proposal {
        Proposal::Add(kp) => copy(kp.identity.as_slice()),
        Proposal::Remove(leaf) => identity_of(tree, *leaf),
        Proposal::Update(kp) => copy(kp.identity.as_slice()),
    }
}

/// The identity of the member at a leaf; empty where the leaf is blank or
/// outside the tree.
pub fn identity_of(tree: &RatchetTree, leaf: u32) -> (id: Vec<u8>)
    requires
        tree.wf(),
    ensures
        id@ == identity_at(tree@, leaf as nat),
{
    match tree.member(leaf) {
        Some(kp) => copy(kp.identity.as_slice()),
        None => {
            let id: Vec<u8> = Vec::new();
            assert(id@ =~= Seq::<u8>::empty());
            id
        },
    }
}

/// Whether one proposal may be committed by `committer`.
fn check_proposal(tree: &RatchetTree, committer: u32, q: &QueuedProposal) -> (ok: bool)
    requires
        tree.wf(),
    ensures
        ok == proposal_ok(tree@, committer as nat, q@),
{
    if !tree.is_member(q.sender) {
        return false;
    }
    match &q.proposal {
        Proposal::Add(kp) => {
            if !kp.verify() {
                return false;
            }
            match tree.find_identity(kp.identity.as_slice()) {
                Some(_) => false,
                None => true,
            }
        },
        Proposal::Remove(leaf) => tree.is_member(*leaf) && *leaf != committer,
        Proposal::Update(kp) => {
            if !kp.verify() || q.sender == committer {
                return false;
            }
            let current = identity_of(tree, q.sender);
            equal(kp.identity.as_slice(), current.as_slice())
        },
    }
}

/// Whether a list of proposals may be committed by `committer` on `tree`.
pub fn check_proposals(tree: &RatchetTree, committer: u32, qs: &Vec<QueuedProposal>) -> (ok: bool)
    requires
        tree.wf(),
    ensures
        ok == proposals_ok(tree@, committer as nat, proposal_views(qs@)),
{
    let ghost views = proposal_views(qs@);
    let mut ids: Vec<Vec<u8>> = Vec::new();
    let mut i: usize = 0;
    while i < qs.len()
        invariant
            tree.wf(),
            i <= qs@.len(),
            views == proposal_views(qs@),
            ids@.len() == i,
            forall|k: int| 0 <= k < i ==> proposal_ok(tree@, committer as nat, #[trigger] views[k]),
            forall|k: int| 0 <= k < i ==> (#[trigger] ids@[k])@ == touched_identity(tree@, views[k]),
        decreases qs@.len() - i,
    {
        if !check_proposal(tree, committer, &qs[i]) {
            assert(!proposal_ok(tree@, committer as nat, views[i as int]));
            return false;
        }
        ids.push(touched(tree, &qs[i]));
        i += 1;
    }
    let mut a: usize = 0;
    while a < ids.len()
        invariant
            a <= ids@.len(),
            views == proposal_views(qs@),
            ids@.len() == views.len(),
            forall|k: int| 0 <= k < ids@.len() ==> (#[trigger] ids@[k])@ == touched_identity(
                tree@,
                views[k],
            ),
            forall|x: int, y: int|
                0 <= x < y < ids@.len() && x < a ==> touched_identity(tree@, #[trigger] views[x])
                    != touched_identity(tree@, #[trigger] views[y]),
        decreases ids@.len() - a,
    {
        let mut b: usize = a + 1;
        while b < ids.len()
            invariant
                a < b <= ids@.len(),
                views == proposal_views(qs@),
                ids@.len() == views.len(),
                forall|k: int| 0 <= k < ids@.len() ==> (#[trigger] ids@[k])@ == touched_identity(
                    tree@,
                    views[k],
                ),
                forall|y: int|
                    a < y < b ==> touched_identity(tree@, views[a as int]) != touched_identity(
                        tree@,
                        #[trigger] views[y],
                    ),
            decreases ids@.len() - b,
        {
            if equal(ids[a].as_slice(), ids[b].as_slice()) {
                assert(ids@[a as int]@ == touched_identity(tree@, views[a as int]));
                assert(ids@[b as int]@ == touched_identity(tree@, views[b as int]));
                assert(touched_identity(tree@, views[a as int]) == touched_identity(
                    tree@,
                    views[b as int],
                ));
                return false;
            }
            b += 1;
        }
        a += 1;
    }
    true
}

/// The tree after the proposals of a list were applied in order from the
/// `i`-th on, up to the first that cannot be applied.
pub open spec fn spec_apply_while_possible(
    t: Seq<NodeView>,
    qs: Seq<QueuedProposalView>,
    i: nat,
) -> Seq<NodeView>
    decreases qs.len() - i,
{
    if i >= qs.len() {
        t
    } else {
        match spec_apply_proposal(t, qs[i as int]) {
            Ok(tree) => spec_apply_while_possible(tree, qs, i + 1),
            Err(_) => t,
        }
    }
}

/// Applies a list of proposals to `tree`, in order. On failure the tree is
/// left with the proposals before the failing one applied.
pub fn apply_proposals(tree: &mut RatchetTree, qs: &Vec<QueuedProposal>) -> (r: Result<
    (),
    EngineError,
>)
    requires
        old(tree).wf(),
    ensures
        final(tree).wf(),
        match spec_apply_proposals(old(tree)@, proposal_views(qs@), 0) {
            Ok(t) => r is Ok && final(tree)@ == t,
            Err(e) => r == Err::<(), EngineError>(e),
        },
        final(tree)@ == spec_apply_while_possible(old(tree)@, proposal_views(qs@), 0),
{
    let ghost views = proposal_views(qs@);
    let ghost start = tree@;
    let mut i: usize = 0;
    while i < qs.len()
        invariant
            tree.wf(),
            i <= qs@.len(),
            views == proposal_views(qs@),
            start == old(tree)@,
            spec_apply_proposals(start, views, 0) == spec_apply_proposals(tree@, views, i as nat),
            spec_apply_while_possible(start, views, 0) == spec_apply_while_possible(
                tree@,
                views,
                i as nat,
            ),
        decreases qs@.len() - i,
    {
        let ghost before = tree@;
        assert(views[i as int] == qs@[i as int]@);
        let q = &qs[i];
        let step: Result<(), EngineError> = match &q.proposal {
            Proposal::Add(kp) => match tree.add_leaf(kp.duplicate()) {
                Ok(_) => Ok(()),
                Err(e) => Err(e),
            },
            Proposal::Remove(leaf) => tree.blank(*leaf),
            Proposal::Update(kp) => tree.set_leaf(q.sender, kp.duplicate()),
        };
        match step {
            Ok(_) => {
                assert(spec_apply_proposal(before, views[i as int]) == Ok::<
                    Seq<NodeView>,
                    EngineError,
                >(tree@));
            },
            Err(e) => {
                assert(spec_apply_proposal(before, views[i as int]) == Err::<
                    Seq<NodeView>,
                    EngineError,
                >(e));
                assert(spec_apply_proposals(before, views, i as nat) == Err::<
                    Seq<NodeView>,
                    EngineError,
                >(e));
                return Err(e);
            },
        }
        i += 1;
    }
    Ok(())
}

} // verus!
