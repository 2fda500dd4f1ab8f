//! Mathematical model of the player pool: a sequence of members with
//! distinct identifiers, and the steps of the invite state machine on it.

use vstd::prelude::*;
use crate::player::PlayerId;

verus! {

/// What the pool holds of one member.
pub struct PlayerView<C> {
    pub id: PlayerId,
    pub outbound_invite: Option<PlayerId>,
    pub inbound_invite: Option<PlayerId>,
    pub notified_of_invite: bool,
    pub accepted_invite: bool,
    pub connection: C,
}

/// The pool as a sequence of members, in the order in which they joined.
pub type Members<C> = Seq<PlayerView<C>>;

/// A member as it is when it joins: no invites, nothing notified or accepted.
pub open spec fn fresh_member<C>(id: PlayerId, connection: C) -> PlayerView<C> {
    PlayerView {
        id,
        outbound_invite: None,
        inbound_invite: None,
        notified_of_invite: false,
        accepted_invite: false,
        connection,
    }
}

/// The two flags of a member mean something only while it holds an inbound
/// invite.
pub open spec fn member_wf<C>(p: PlayerView<C>) -> bool {
    &&& p.notified_of_invite ==> p.inbound_invite is Some
    &&& p.accepted_invite ==> p.inbound_invite is Some
}

/// Whether some member has the identifier `id`.
pub open spec fn contains_id<C>(s: Members<C>, id: PlayerId) -> bool {
    exists|i: int| 0 <= i < s.len() && (#[trigger] s[i]).id == id
}

/// No identifier belongs to two members.
pub open spec fn distinct_ids<C>(s: Members<C>) -> bool {
    forall|i: int, j: int|
        0 <= i < j < s.len() ==> (#[trigger] s[i]).id != (#[trigger] s[j]).id
}

/// Validity of a pool: identifiers are unique and every member's flags are
/// meaningful.
pub open spec fn pool_wf<C>(s: Members<C>) -> bool {
    &&& distinct_ids(s)
    &&& forall|i: int| 0 <= i < s.len() ==> member_wf(#[trigger] s[i])
}

/// The position of the member with identifier `id`, where there is one.
pub open spec fn index_of<C>(s: Members<C>, id: PlayerId) -> int {
    choose|i: int| 0 <= i < s.len() && (#[trigger] s[i]).id == id
}

/// The member with identifier `id`, where there is one.
pub open spec fn member<C>(s: Members<C>, id: PlayerId) -> PlayerView<C> {
    s[index_of(s, id)]
}

/// The member with identifier `id`, if there is one.
pub open spec fn lookup<C>(s: Members<C>, id: PlayerId) -> Option<PlayerView<C>> {
    if contains_id(s, id) {
        Some(member(s, id))
    } else {
        None
    }
}

/// The identifiers of the members, in pool order.
pub open spec fn ids<C>(s: Members<C>) -> Seq<PlayerId> {
    s.map_values(|p: PlayerView<C>| p.id)
}

/// The pool after `p` has joined: it takes the place of a member with the
/// same identifier, and comes last if there is none.
pub open spec fn registered<C>(s: Members<C>, p: PlayerView<C>) -> Members<C> {
    if contains_id(s, p.id) {
        s.update(index_of(s, p.id), p)
    } else {
        s.push(p)
    }
}

/// The pool without the member `id`; the pool itself if there is none.
pub open spec fn without<C>(s: Members<C>, id: PlayerId) -> Members<C> {
    if contains_id(s, id) {
        s.remove(index_of(s, id))
    } else {
        s
    }
}

/// In a valid pool a member is found at one position only.
pub proof fn lemma_index_of<C>(s: Members<C>, id: PlayerId, i: int)
    requires
        distinct_ids(s),
        0 <= i < s.len(),
        s[i].id == id,
    ensures
        contains_id(s, id),
        index_of(s, id) == i,
        member(s, id) == s[i],
{
    let j = index_of(s, id);
    assert(0 <= j < s.len() && s[j].id == id);
    if j < i {
        assert(s[j].id != s[i].id);
    } else if i < j {
        assert(s[i].id != s[j].id);
    }
}

/// An absent identifier is at no position.
pub proof fn lemma_absent<C>(s: Members<C>, id: PlayerId)
    requires
        forall|i: int| 0 <= i < s.len() ==> (#[trigger] s[i]).id != id,
    ensures
        !contains_id(s, id),
{
}

/// The identifiers of a valid pool are pairwise different.
pub proof fn lemma_ids_no_duplicates<C>(s: Members<C>)
    requires
        distinct_ids(s),
    ensures
        ids(s).no_duplicates(),
        ids(s).len() == s.len(),
{
    assert forall|i: int, j: int|
        0 <= i < ids(s).len() && 0 <= j < ids(s).len() && i != j implies ids(s)[i] != ids(s)[j] by {
        if i < j {
            assert(s[i].id != s[j].id);
        } else {
            assert(s[j].id != s[i].id);
        }
    }
}

/// Joining keeps a pool valid, and changes its size by one unless a member
/// was replaced.
pub proof fn lemma_registered<C>(s: Members<C>, p: PlayerView<C>)
    requires
        pool_wf(s),
        member_wf(p),
    ensures
        pool_wf(registered(s, p)),
        contains_id(registered(s, p), p.id),
        member(registered(s, p), p.id) == p,
        registered(s, p).len() == s.len() + (if contains_id(s, p.id) { 0int } else { 1int }),
        forall|id: PlayerId|
            id != p.id ==> lookup(registered(s, p), id) == lookup(s, id),
{
    let r = registered(s, p);
    if contains_id(s, p.id) {
        let k = index_of(s, p.id);
        assert(0 <= k < s.len() && s[k].id == p.id);
        assert forall|i: int, j: int| 0 <= i < j < r.len() implies (#[trigger] r[i]).id != (
        #[trigger] r[j]).id by {
            assert(s[i].id != s[j].id);
        }
        assert forall|i: int| 0 <= i < r.len() implies member_wf(#[trigger] r[i]) by {
            if i != k {
                assert(member_wf(s[i]));
            }
        }
        assert(r[k].id == p.id);
        lemma_index_of(r, p.id, k);
        assert forall|id: PlayerId| id != p.id implies lookup(r, id) == lookup(s, id) by {
            if contains_id(s, id) {
                let i = index_of(s, id);
                assert(0 <= i < s.len() && s[i].id == id);
                assert(r[i] == s[i]);
                lemma_index_of(r, id, i);
            } else if contains_id(r, id) {
                let i = index_of(r, id);
                assert(0 <= i < r.len() && r[i].id == id);
                assert(s[i].id == id);
            }
        }
    } else {
        let k = s.len() as int;
        assert forall|i: int, j: int| 0 <= i < j < r.len() implies (#[trigger] r[i]).id != (
        #[trigger] r[j]).id by {
            if j < s.len() {
                assert(s[i].id != s[j].id);
            } else {
                assert(s[i].id != p.id);
            }
        }
        assert forall|i: int| 0 <= i < r.len() implies member_wf(#[trigger] r[i]) by {
            if i < s.len() {
                assert(member_wf(s[i]));
            }
        }
        assert(r[k].id == p.id);
        lemma_index_of(r, p.id, k);
        assert forall|id: PlayerId| id != p.id implies lookup(r, id) == lookup(s, id) by {
            if contains_id(s, id) {
                let i = index_of(s, id);
                assert(0 <= i < s.len() && s[i].id == id);
                assert(r[i] == s[i]);
                lemma_index_of(r, id, i);
            } else if contains_id(r, id) {
                let i = index_of(r, id);
                assert(0 <= i < r.len() && r[i].id == id);
                assert(s[i].id == id);
            }
        }
    }
}

/// Leaving keeps a pool valid, takes exactly the named member out and
/// leaves every other member as it was.
pub proof fn lemma_without<C>(s: Members<C>, id: PlayerId)
    requires
        pool_wf(s),
    ensures
        pool_wf(without(s, id)),
        !contains_id(without(s, id), id),
        without(s, id).len() == s.len() - (if contains_id(s, id) { 1int } else { 0int }),
        forall|other: PlayerId|
            other != id ==> lookup(without(s, id), other) == lookup(s, other),
{
    let r = without(s, id);
    if contains_id(s, id) {
        let k = index_of(s, id);
        assert(0 <= k < s.len() && s[k].id == id);
        assert forall|i: int| 0 <= i < r.len() implies #[trigger] r[i] == s[if i < k {
            i
        } else {
            i + 1
        }] by {}
        assert forall|i: int, j: int| 0 <= i < j < r.len() implies (#[trigger] r[i]).id != (
        #[trigger] r[j]).id by {
            let i2 = if i < k { i } else { i + 1 };
            let j2 = if j < k { j } else { j + 1 };
            assert(s[i2].id != s[j2].id);
        }
        assert forall|i: int| 0 <= i < r.len() implies member_wf(#[trigger] r[i]) by {
            let i2 = if i < k { i } else { i + 1 };
            assert(member_wf(s[i2]));
        }
        assert forall|i: int| 0 <= i < r.len() implies (#[trigger] r[i]).id != id by {
            let i2 = if i < k { i } else { i + 1 };
            if i2 < k {
                assert(s[i2].id != s[k].id);
            } else {
                assert(s[k].id != s[i2].id);
            }
        }
        assert forall|other: PlayerId| other != id implies lookup(r, other) == lookup(
            s,
            other,
        ) by {
            if contains_id(s, other) {
                let i = index_of(s, other);
                assert(0 <= i < s.len() && s[i].id == other);
                let i2 = if i < k { i } else { i - 1 };
                assert(r[i2] == s[i]);
                lemma_index_of(r, other, i2);
            } else if contains_id(r, other) {
                let i = index_of(r, other);
                assert(0 <= i < r.len() && r[i].id == other);
                let i2 = if i < k { i } else { i + 1 };
                assert(s[i2].id == other);
            }
        }
    }
}

/// How an invite ended.
#[derive(Debug, Clone, Copy, PartialEq, Eq, Structural)]
pub enum InviteOutcome {
    /// Target and sender are in the pool: the invite stands.
    Recorded,
    /// The target is in the pool, the sender is not: the target's inbound
    /// invite was cleared.
    SenderNotFound,
    /// The target is not in the pool: nothing changed.
    TargetNotFound,
}

/// How an acceptance ended.
#[derive(Debug, Clone, Copy, PartialEq, Eq, Structural)]
pub enum AcceptOutcome {
    /// The player's inbound invite is now accepted.
    Accepted,
    /// The player holds no inbound invite: nothing changed.
    NoInvite,
    /// The player is not in the pool: nothing changed.
    PlayerNotFound,
}

/// What an invite from `sender` to `target` does to the member `p` of a pool
/// that holds the target; `sender_present` says whether it holds the sender.
/// The target's inbound invite becomes the sender, or nothing if the sender
/// is unknown, and its flags are reset; the sender's outbound invite becomes
/// the target.
pub open spec fn invite_member<C>(
    p: PlayerView<C>,
    sender: PlayerId,
    target: PlayerId,
    sender_present: bool,
) -> PlayerView<C> {
    let received = if p.id == target {
        PlayerView {
            inbound_invite: if sender_present {
                Some(sender)
            } else {
                None
            },
            notified_of_invite: false,
            accepted_invite: false,
            ..p
        }
    } else {
        p
    };
    if p.id == sender {
        PlayerView { outbound_invite: Some(target), ..received }
    } else {
        received
    }
}

/// The pool after an invite from `sender` to `target`. Without the target
/// nothing changes.
pub open spec fn invited<C>(s: Members<C>, sender: PlayerId, target: PlayerId) -> Members<C> {
    if contains_id(s, target) {
        s.map_values(
            |p: PlayerView<C>| invite_member(p, sender, target, contains_id(s, sender)),
        )
    } else {
        s
    }
}

/// How an invite from `sender` to `target` ends on the pool `s`.
pub open spec fn invite_outcome<C>(
    s: Members<C>,
    sender: PlayerId,
    target: PlayerId,
) -> InviteOutcome {
    if !contains_id(s, target) {
        InviteOutcome::TargetNotFound
    } else if !contains_id(s, sender) {
        InviteOutcome::SenderNotFound
    } else {
        InviteOutcome::Recorded
    }
}

/// What the acceptance by the player `id` does to the member `p`.
pub open spec fn accept_member<C>(p: PlayerView<C>, id: PlayerId) -> PlayerView<C> {
    if p.id == id && p.inbound_invite is Some {
        PlayerView { accepted_invite: true, ..p }
    } else {
        p
    }
}

/// The pool after the player `id` has accepted its inbound invite.
pub open spec fn accepted<C>(s: Members<C>, id: PlayerId) -> Members<C> {
    s.map_values(|p: PlayerView<C>| accept_member(p, id))
}

/// How the acceptance by the player `id` ends on the pool `s`.
pub open spec fn accept_outcome<C>(s: Members<C>, id: PlayerId) -> AcceptOutcome {
    if !contains_id(s, id) {
        AcceptOutcome::PlayerNotFound
    } else if member(s, id).inbound_invite is None {
        AcceptOutcome::NoInvite
    } else {
        AcceptOutcome::Accepted
    }
}

/// Two pools of the same length whose members agree on identifiers, one by
/// one, hold the same identifiers.
pub proof fn lemma_same_ids<C>(s: Members<C>, r: Members<C>)
    requires
        s.len() == r.len(),
        forall|i: int| 0 <= i < s.len() ==> (#[trigger] s[i]).id == r[i].id,
    ensures
        ids(s) == ids(r),
        distinct_ids(s) == distinct_ids(r),
        forall|id: PlayerId| contains_id(s, id) == contains_id(r, id),
        forall|id: PlayerId|
            contains_id(s, id) && distinct_ids(s) ==> index_of(s, id) == index_of(r, id),
{
    assert(ids(s) =~= ids(r));
    assert forall|i: int| 0 <= i < r.len() implies (#[trigger] r[i]).id == s[i].id by {
        assert(s[i].id == r[i].id);
    }
    if distinct_ids(s) {
        assert forall|i: int, j: int| 0 <= i < j < r.len() implies (#[trigger] r[i]).id != (
        #[trigger] r[j]).id by {
            assert(s[i].id != s[j].id);
        }
    }
    if distinct_ids(r) {
        assert forall|i: int, j: int| 0 <= i < j < s.len() implies (#[trigger] s[i]).id != (
        #[trigger] s[j]).id by {
            assert(r[i].id != r[j].id);
        }
    }
    assert forall|id: PlayerId| contains_id(s, id) == contains_id(r, id) by {
        if contains_id(s, id) {
            let i = index_of(s, id);
            assert(0 <= i < s.len() && s[i].id == id);
            assert(r[i].id == id);
        }
        if contains_id(r, id) {
            let i = index_of(r, id);
            assert(0 <= i < r.len() && r[i].id == id);
            assert(s[i].id == id);
        }
    }
    assert forall|id: PlayerId| contains_id(s, id) && distinct_ids(s) implies index_of(s, id)
        == index_of(r, id) by {
        let i = index_of(s, id);
        assert(0 <= i < s.len() && s[i].id == id);
        assert(r[i].id == id);
        lemma_index_of(r, id, i);
    }
}

/// An invite keeps a pool valid and keeps its members in place; it changes
/// each of them as `invite_member` says.
pub proof fn lemma_invited<C>(s: Members<C>, sender: PlayerId, target: PlayerId)
    requires
        pool_wf(s),
    ensures
        pool_wf(invited(s, sender, target)),
        invited(s, sender, target).len() == s.len(),
        ids(invited(s, sender, target)) == ids(s),
        forall|id: PlayerId| contains_id(invited(s, sender, target), id) == contains_id(s, id),
        forall|id: PlayerId|
            contains_id(s, id) && contains_id(s, target) ==> member(
                invited(s, sender, target),
                id,
            ) == invite_member(member(s, id), sender, target, contains_id(s, sender)),
{
    let r = invited(s, sender, target);
    assert forall|i: int| 0 <= i < s.len() implies (#[trigger] s[i]).id == r[i].id by {}
    lemma_same_ids(s, r);
    assert forall|i: int| 0 <= i < r.len() implies member_wf(#[trigger] r[i]) by {
        assert(member_wf(s[i]));
    }
    assert forall|id: PlayerId| contains_id(s, id) && contains_id(s, target) implies member(
        r,
        id,
    ) == invite_member(member(s, id), sender, target, contains_id(s, sender)) by {
        let i = index_of(s, id);
        assert(0 <= i < s.len() && s[i].id == id);
    }
}

/// An acceptance keeps a pool valid and keeps its members in place; it
/// changes each of them as `accept_member` says.
pub proof fn lemma_accepted<C>(s: Members<C>, id: PlayerId)
    requires
        pool_wf(s),
    ensures
        pool_wf(accepted(s, id)),
        accepted(s, id).len() == s.len(),
        ids(accepted(s, id)) == ids(s),
        forall|other: PlayerId| contains_id(accepted(s, id), other) == contains_id(s, other),
        forall|other: PlayerId|
            contains_id(s, other) ==> member(accepted(s, id), other) == accept_member(
                member(s, other),
                id,
            ),
{
    let r = accepted(s, id);
    assert forall|i: int| 0 <= i < s.len() implies (#[trigger] s[i]).id == r[i].id by {}
    lemma_same_ids(s, r);
    assert forall|i: int| 0 <= i < r.len() implies member_wf(#[trigger] r[i]) by {
        assert(member_wf(s[i]));
    }
    assert forall|other: PlayerId| contains_id(s, other) implies member(r, other)
        == accept_member(member(s, other), id) by {
        let i = index_of(s, other);
        assert(0 <= i < s.len() && s[i].id == other);
    }
}

} // verus!
