//! Model of the periodic tick: who is told of an invite, which accepted
//! invites become game sessions, and what the pool looks like afterwards.

use vstd::prelude::*;
use crate::model::{
    contains_id, ids, index_of, lemma_same_ids, lemma_without, lookup, member, member_wf,
    pool_wf, without, Members, PlayerView,
};
use crate::player::PlayerId;

verus! {

/// A notice owed to the player `target`: it was invited by `inviter`.
#[derive(Debug, Clone, Copy, PartialEq, Eq, Structural)]
pub struct Notice {
    pub target: PlayerId,
    pub inviter: PlayerId,
}

/// An accepted invite: `invitee` agreed to play with `inviter`.
#[derive(Debug, Clone, Copy, PartialEq, Eq, Structural)]
pub struct Pairing {
    pub inviter: PlayerId,
    pub invitee: PlayerId,
}

/// The two players handed to one game session, as they left the pool.
pub struct SessionView<C> {
    pub inviter: PlayerView<C>,
    pub invitee: PlayerView<C>,
}

/// Whether the member holds an inbound invite that its client was not told of.
pub open spec fn awaits_notice<C>(p: PlayerView<C>) -> bool {
    p.inbound_invite is Some && !p.notified_of_invite
}

/// The notice owed to a member that awaits one.
pub open spec fn notice_for<C>(p: PlayerView<C>) -> Notice {
    Notice { target: p.id, inviter: p.inbound_invite->0 }
}

/// The notices owed to the members of the pool, in pool order.
pub open spec fn pending_notices<C>(s: Members<C>) -> Seq<Notice>
    decreases s.len(),
{
    if s.len() == 0 {
        Seq::empty()
    } else {
        let earlier = pending_notices(s.drop_last());
        if awaits_notice(s.last()) {
            earlier.push(notice_for(s.last()))
        } else {
            earlier
        }
    }
}

/// A member after the notices went out: told of its inbound invite, if it
/// holds one.
pub open spec fn notify_member<C>(p: PlayerView<C>) -> PlayerView<C> {
    if p.inbound_invite is Some {
        PlayerView { notified_of_invite: true, ..p }
    } else {
        p
    }
}

/// The pool after the notices went out.
pub open spec fn notified<C>(s: Members<C>) -> Members<C> {
    s.map_values(|p: PlayerView<C>| notify_member(p))
}

/// Whether the member has accepted an inbound invite.
pub open spec fn has_accepted<C>(p: PlayerView<C>) -> bool {
    p.inbound_invite is Some && p.accepted_invite
}

/// The accepted invite of a member that has accepted one.
pub open spec fn pairing_for<C>(p: PlayerView<C>) -> Pairing {
    Pairing { inviter: p.inbound_invite->0, invitee: p.id }
}

/// The accepted invites of the pool, in pool order of the invitees.
pub open spec fn accepted_pairings<C>(s: Members<C>) -> Seq<Pairing>
    decreases s.len(),
{
    if s.len() == 0 {
        Seq::empty()
    } else {
        let earlier = accepted_pairings(s.drop_last());
        if has_accepted(s.last()) {
            earlier.push(pairing_for(s.last()))
        } else {
            earlier
        }
    }
}

/// Whether both players of `pairing` are in the pool, and are two players.
pub open spec fn can_pair<C>(s: Members<C>, pairing: Pairing) -> bool {
    &&& pairing.inviter != pairing.invitee
    &&& contains_id(s, pairing.inviter)
    &&& contains_id(s, pairing.invitee)
}

/// The session that `pairing` gives on the pool `s`.
pub open spec fn session_of<C>(s: Members<C>, pairing: Pairing) -> SessionView<C> {
    SessionView { inviter: member(s, pairing.inviter), invitee: member(s, pairing.invitee) }
}

/// The pool `s` without the two players of `pairing`.
pub open spec fn without_pair<C>(s: Members<C>, pairing: Pairing) -> Members<C> {
    without(without(s, pairing.inviter), pairing.invitee)
}

/// Progress of the hand-off: the pool that is left, the sessions made so
/// far, and the pairings given up because a player was gone.
pub struct HandOff<C> {
    pub members: Members<C>,
    pub sessions: Seq<SessionView<C>>,
    pub abandoned: Seq<Pairing>,
}

/// The hand-off before any pairing was looked at.
pub open spec fn hand_off_start<C>(s: Members<C>) -> HandOff<C> {
    HandOff { members: s, sessions: Seq::empty(), abandoned: Seq::empty() }
}

/// One step of the hand-off. Both players leave the pool together and make a
/// session; if either is missing, or both are one player, the pool stays as
/// it is and the pairing is given up.
pub open spec fn pair_one<C>(h: HandOff<C>, pairing: Pairing) -> HandOff<C> {
    if can_pair(h.members, pairing) {
        HandOff {
            members: without_pair(h.members, pairing),
            sessions: h.sessions.push(session_of(h.members, pairing)),
            abandoned: h.abandoned,
        }
    } else {
        HandOff { abandoned: h.abandoned.push(pairing), ..h }
    }
}

/// The hand-off after the pairings `pairings` were looked at in order.
pub open spec fn pair_all<C>(h: HandOff<C>, pairings: Seq<Pairing>) -> HandOff<C>
    decreases pairings.len(),
{
    if pairings.len() == 0 {
        h
    } else {
        pair_one(pair_all(h, pairings.drop_last()), pairings.last())
    }
}

/// What one tick does.
pub struct TickView<C> {
    /// The pool after the tick.
    pub members: Members<C>,
    /// The notices to send, in pool order of their targets.
    pub notices: Seq<Notice>,
    /// The sessions to start, in the order in which they were made.
    pub sessions: Seq<SessionView<C>>,
    /// The accepted invites that could not be honoured.
    pub abandoned: Seq<Pairing>,
}

/// One tick on the pool `s`: every member that holds an inbound invite which
/// its client was not told of is owed a notice and counts as told; then the
/// accepted invites are handed off in pool order.
pub open spec fn ticked<C>(s: Members<C>) -> TickView<C> {
    let told = notified(s);
    let done = pair_all(hand_off_start(told), accepted_pairings(told));
    TickView {
        members: done.members,
        notices: pending_notices(s),
        sessions: done.sessions,
        abandoned: done.abandoned,
    }
}

/// Whether `notice` is owed to a member of the pool that awaits one.
pub open spec fn owed_in<C>(s: Members<C>, notice: Notice) -> bool {
    exists|i: int| 0 <= i < s.len() && awaits_notice(#[trigger] s[i]) && notice == notice_for(s[i])
}

/// Whether `pairing` is the accepted invite of a member of the pool.
pub open spec fn accepted_in<C>(s: Members<C>, pairing: Pairing) -> bool {
    exists|i: int|
        0 <= i < s.len() && has_accepted(#[trigger] s[i]) && pairing == pairing_for(s[i])
}

/// The notices owed are those of the members that await one: each such
/// member has its notice among them, and each of them is the notice of such
/// a member.
pub proof fn lemma_pending_notices<C>(s: Members<C>)
    ensures
        pending_notices(s).len() <= s.len(),
        forall|i: int|
            0 <= i < s.len() && awaits_notice(#[trigger] s[i]) ==> pending_notices(s).contains(
                notice_for(s[i]),
            ),
        forall|k: int|
            0 <= k < pending_notices(s).len() ==> owed_in(s, #[trigger] pending_notices(s)[k]),
    decreases s.len(),
{
    if s.len() > 0 {
        let earlier = s.drop_last();
        let last = s.len() - 1;
        lemma_pending_notices(earlier);
        let notices = pending_notices(s);
        assert forall|i: int|
            0 <= i < s.len() && awaits_notice(#[trigger] s[i]) implies notices.contains(
            notice_for(s[i]),
        ) by {
            if i < last {
                assert(earlier[i] == s[i]);
                let k = choose|k: int|
                    0 <= k < pending_notices(earlier).len() && pending_notices(earlier)[k]
                        == notice_for(s[i]);
                assert(pending_notices(s)[k] == notice_for(s[i]));
            } else {
                assert(pending_notices(s)[pending_notices(s).len() - 1] == notice_for(s[i]));
            }
        }
        assert forall|k: int| 0 <= k < pending_notices(s).len() implies owed_in(
            s,
            #[trigger] pending_notices(s)[k],
        ) by {
            if k < pending_notices(earlier).len() {
                let notice = pending_notices(earlier)[k];
                assert(owed_in(earlier, notice));
                let i = choose|i: int|
                    0 <= i < earlier.len() && awaits_notice(#[trigger] earlier[i]) && notice
                        == notice_for(earlier[i]);
                assert(s[i] == earlier[i]);
                assert(awaits_notice(s[i]) && pending_notices(s)[k] == notice_for(s[i]));
            } else {
                assert(awaits_notice(s[last]) && pending_notices(s)[k] == notice_for(s[last]));
            }
        }
    }
}

/// Where no member awaits a notice, none is owed.
pub proof fn lemma_nothing_pending<C>(s: Members<C>)
    requires
        forall|i: int| 0 <= i < s.len() ==> !awaits_notice(#[trigger] s[i]),
    ensures
        pending_notices(s) == Seq::<Notice>::empty(),
    decreases s.len(),
{
    if s.len() > 0 {
        let earlier = s.drop_last();
        assert forall|i: int| 0 <= i < earlier.len() implies !awaits_notice(
            #[trigger] earlier[i],
        ) by {
            assert(earlier[i] == s[i]);
        }
        lemma_nothing_pending(earlier);
        assert(!awaits_notice(s[s.len() - 1]));
    }
}

/// The accepted invites are those of the members that have accepted one:
/// each such member has its pairing among them, and each of them is the
/// pairing of such a member.
pub proof fn lemma_accepted_pairings<C>(s: Members<C>)
    ensures
        accepted_pairings(s).len() <= s.len(),
        forall|i: int|
            0 <= i < s.len() && has_accepted(#[trigger] s[i]) ==> accepted_pairings(s).contains(
                pairing_for(s[i]),
            ),
        forall|k: int|
            0 <= k < accepted_pairings(s).len() ==> accepted_in(
                s,
                #[trigger] accepted_pairings(s)[k],
            ),
    decreases s.len(),
{
    if s.len() > 0 {
        let earlier = s.drop_last();
        let last = s.len() - 1;
        lemma_accepted_pairings(earlier);
        let pairings = accepted_pairings(s);
        assert forall|i: int|
            0 <= i < s.len() && has_accepted(#[trigger] s[i]) implies pairings.contains(
            pairing_for(s[i]),
        ) by {
            if i < last {
                assert(earlier[i] == s[i]);
                let k = choose|k: int|
                    0 <= k < accepted_pairings(earlier).len() && accepted_pairings(earlier)[k]
                        == pairing_for(s[i]);
                assert(accepted_pairings(s)[k] == pairing_for(s[i]));
            } else {
                assert(accepted_pairings(s)[accepted_pairings(s).len() - 1] == pairing_for(s[i]));
            }
        }
        assert forall|k: int| 0 <= k < accepted_pairings(s).len() implies accepted_in(
            s,
            #[trigger] accepted_pairings(s)[k],
        ) by {
            if k < accepted_pairings(earlier).len() {
                let pairing = accepted_pairings(earlier)[k];
                assert(accepted_in(earlier, pairing));
                let i = choose|i: int|
                    0 <= i < earlier.len() && has_accepted(#[trigger] earlier[i]) && pairing
                        == pairing_for(earlier[i]);
                assert(s[i] == earlier[i]);
                assert(has_accepted(s[i]) && accepted_pairings(s)[k] == pairing_for(s[i]));
            } else {
                assert(has_accepted(s[last]) && accepted_pairings(s)[k] == pairing_for(s[last]));
            }
        }
    }
}

/// Sending the notices keeps a pool valid and keeps its members in place.
pub proof fn lemma_notified<C>(s: Members<C>)
    requires
        pool_wf(s),
    ensures
        pool_wf(notified(s)),
        notified(s).len() == s.len(),
        ids(notified(s)) == ids(s),
        forall|id: PlayerId| contains_id(notified(s), id) == contains_id(s, id),
        forall|id: PlayerId|
            contains_id(s, id) ==> member(notified(s), id) == notify_member(member(s, id)),
{
    let r = notified(s);
    assert forall|i: int| 0 <= i < s.len() implies (#[trigger] s[i]).id == r[i].id by {}
    lemma_same_ids(s, r);
    assert forall|i: int| 0 <= i < r.len() implies member_wf(#[trigger] r[i]) by {
        assert(member_wf(s[i]));
    }
    assert forall|id: PlayerId| contains_id(s, id) implies member(r, id) == notify_member(
        member(s, id),
    ) by {
        let i = index_of(s, id);
        assert(0 <= i < s.len() && s[i].id == id);
    }
}

/// Taking a pair out keeps a pool valid, shortens it by two and leaves every
/// other member as it was.
pub proof fn lemma_without_pair<C>(s: Members<C>, pairing: Pairing)
    requires
        pool_wf(s),
        can_pair(s, pairing),
    ensures
        pool_wf(without_pair(s, pairing)),
        without_pair(s, pairing).len() == s.len() - 2,
        !contains_id(without_pair(s, pairing), pairing.inviter),
        !contains_id(without_pair(s, pairing), pairing.invitee),
        forall|id: PlayerId|
            id != pairing.inviter && id != pairing.invitee ==> lookup(
                without_pair(s, pairing),
                id,
            ) == lookup(s, id),
{
    let first = without(s, pairing.inviter);
    lemma_without(s, pairing.inviter);
    assert(lookup(first, pairing.invitee) == lookup(s, pairing.invitee));
    lemma_without(first, pairing.invitee);
    assert(lookup(without_pair(s, pairing), pairing.inviter) == lookup(first, pairing.inviter));
    assert forall|id: PlayerId| id != pairing.inviter && id != pairing.invitee implies lookup(
        without_pair(s, pairing),
        id,
    ) == lookup(s, id) by {
        assert(lookup(first, id) == lookup(s, id));
    }
}

/// One step of the hand-off keeps the pool valid.
pub proof fn lemma_pair_one<C>(h: HandOff<C>, pairing: Pairing)
    requires
        pool_wf(h.members),
    ensures
        pool_wf(pair_one(h, pairing).members),
        pair_one(h, pairing).members.len() + 2 * pair_one(h, pairing).sessions.len()
            == h.members.len() + 2 * h.sessions.len(),
        pair_one(h, pairing).sessions.len() + pair_one(h, pairing).abandoned.len()
            == h.sessions.len() + h.abandoned.len() + 1,
{
    if can_pair(h.members, pairing) {
        lemma_without_pair(h.members, pairing);
    }
}

/// The hand-off keeps the pool valid; every player that leaves the pool
/// leaves it into a session, two at a time, and every pairing ends in a
/// session or is given up.
pub proof fn lemma_pair_all<C>(h: HandOff<C>, pairings: Seq<Pairing>)
    requires
        pool_wf(h.members),
    ensures
        pool_wf(pair_all(h, pairings).members),
        pair_all(h, pairings).members.len() + 2 * pair_all(h, pairings).sessions.len()
            == h.members.len() + 2 * h.sessions.len(),
        pair_all(h, pairings).sessions.len() + pair_all(h, pairings).abandoned.len()
            == h.sessions.len() + h.abandoned.len() + pairings.len(),
    decreases pairings.len(),
{
    if pairings.len() > 0 {
        lemma_pair_all(h, pairings.drop_last());
        lemma_pair_one(pair_all(h, pairings.drop_last()), pairings.last());
    }
}

/// A tick keeps the pool valid.
pub proof fn lemma_ticked<C>(s: Members<C>)
    requires
        pool_wf(s),
    ensures
        pool_wf(ticked(s).members),
        ticked(s).members.len() + 2 * ticked(s).sessions.len() == s.len(),
{
    lemma_notified(s);
    lemma_pair_all(hand_off_start(notified(s)), accepted_pairings(notified(s)));
}

} // verus!
