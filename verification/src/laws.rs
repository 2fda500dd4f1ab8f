//! Laws of the matchmaking actor, proved of its model: what holds of the
//! pool after any run of messages, disconnects and ticks.

use vstd::prelude::*;
use crate::actor::{pool_after, Message};
use crate::model::{
    contains_id, ids, index_of, invited, lemma_accepted, lemma_ids_no_duplicates,
    lemma_index_of, lemma_invited, lemma_registered, lemma_same_ids, lemma_without, lookup,
    member, member_wf, pool_wf, without, Members, PlayerView,
};
use crate::player::PlayerId;
use crate::tick::{
    accepted_pairings, can_pair, hand_off_start, lemma_nothing_pending, lemma_notified,
    lemma_pair_all, lemma_ticked, lemma_without_pair, notified, notify_member, pair_all,
    pair_one, pending_notices, ticked, HandOff, Notice, Pairing,
};

verus! {

/// Something that happens to the pool.
pub enum Event<C> {
    /// The actor handles a message.
    Message(Message<C>),
    /// The connection of a player is found closed: the player leaves.
    Disconnect(PlayerId),
    /// The timer fires.
    Tick,
}

/// Validity of an event: its message is valid.
pub open spec fn event_wf<C>(event: Event<C>) -> bool {
    event matches Event::Message(message) ==> message.wf()
}

/// The pool after `event`.
pub open spec fn step<C>(s: Members<C>, event: Event<C>) -> Members<C> {
    match event {
        Event::Message(message) => pool_after(s, message),
        Event::Disconnect(id) => without(s, id),
        Event::Tick => ticked(s).members,
    }
}

/// Whether `event` is a registration.
pub open spec fn is_registration<C>(event: Event<C>) -> bool {
    event matches Event::Message(Message::Register(_))
}

/// How many players leave the pool by `event`: the one that a registration
/// replaces, the one that disconnects, the two of every session that a tick
/// starts.
pub open spec fn departures<C>(s: Members<C>, event: Event<C>) -> nat {
    match event {
        Event::Message(Message::Register(player)) => if contains_id(s, player@.id) {
            1
        } else {
            0
        },
        Event::Message(_) => 0,
        Event::Disconnect(id) => if contains_id(s, id) {
            1
        } else {
            0
        },
        Event::Tick => 2 * ticked(s).sessions.len(),
    }
}

/// The pool after the events of `events`, in order.
pub open spec fn run<C>(s: Members<C>, events: Seq<Event<C>>) -> Members<C>
    decreases events.len(),
{
    if events.len() == 0 {
        s
    } else {
        step(run(s, events.drop_last()), events.last())
    }
}

/// How many of `events` are registrations.
pub open spec fn registrations<C>(events: Seq<Event<C>>) -> nat
    decreases events.len(),
{
    if events.len() == 0 {
        0
    } else {
        registrations(events.drop_last()) + (if is_registration(events.last()) {
            1nat
        } else {
            0nat
        })
    }
}

/// How many players leave the pool in the course of `events`.
pub open spec fn removals<C>(s: Members<C>, events: Seq<Event<C>>) -> nat
    decreases events.len(),
{
    if events.len() == 0 {
        0
    } else {
        removals(s, events.drop_last()) + departures(
            run(s, events.drop_last()),
            events.last(),
        )
    }
}

/// Every event keeps the pool valid: identifiers stay unique, and no member
/// counts as notified, or as having accepted, without an inbound invite.
/// The size of the pool grows by one with a registration and shrinks by the
/// number of players that leave.
pub proof fn lemma_step<C>(s: Members<C>, event: Event<C>)
    requires
        pool_wf(s),
        event_wf(event),
    ensures
        pool_wf(step(s, event)),
        step(s, event).len() + departures(s, event) == s.len() + (if is_registration(event) {
            1int
        } else {
            0int
        }),
{
    match event {
        Event::Message(message) => {
            match message {
                Message::Register(player) => {
                    lemma_registered(s, player@);
                },
                Message::PlayerList => {},
                Message::Invite { sender, target } => {
                    lemma_invited(s, sender, target);
                },
                Message::Accept(id) => {
                    lemma_accepted(s, id);
                },
            }
        },
        Event::Disconnect(id) => {
            lemma_without(s, id);
        },
        Event::Tick => {
            lemma_ticked(s);
        },
    }
}

/// After any run of valid events from a valid pool, the pool is valid, the
/// list of its identifiers names no player twice, and its length is the
/// length at the start plus the registrations minus the removals.
pub proof fn lemma_run<C>(s: Members<C>, events: Seq<Event<C>>)
    requires
        pool_wf(s),
        forall|i: int| 0 <= i < events.len() ==> event_wf(#[trigger] events[i]),
    ensures
        pool_wf(run(s, events)),
        ids(run(s, events)).no_duplicates(),
        ids(run(s, events)).len() == s.len() + registrations(events) - removals(s, events),
    decreases events.len(),
{
    if events.len() > 0 {
        let earlier = events.drop_last();
        assert forall|i: int| 0 <= i < earlier.len() implies event_wf(#[trigger] earlier[i]) by {
            assert(earlier[i] == events[i]);
        }
        lemma_run(s, earlier);
        lemma_step(run(s, earlier), events.last());
        lemma_ids_no_duplicates(run(s, earlier));
    }
    lemma_ids_no_duplicates(run(s, events));
}

/// From the empty pool, the list of identifiers is as long as the number of
/// registrations minus the number of removals.
pub proof fn lemma_list_length<C>(events: Seq<Event<C>>)
    requires
        forall|i: int| 0 <= i < events.len() ==> event_wf(#[trigger] events[i]),
    ensures
        ids(run(Seq::<PlayerView<C>>::empty(), events)).no_duplicates(),
        ids(run(Seq::<PlayerView<C>>::empty(), events)).len() == registrations(events)
            - removals(Seq::<PlayerView<C>>::empty(), events),
{
    lemma_run(Seq::<PlayerView<C>>::empty(), events);
}

/// The same invite twice in a row leaves the pool as the invite once does.
pub proof fn lemma_invite_idempotent<C>(s: Members<C>, sender: PlayerId, target: PlayerId)
    ensures
        invited(invited(s, sender, target), sender, target) == invited(s, sender, target),
{
    let once = invited(s, sender, target);
    let twice = invited(once, sender, target);
    assert forall|i: int| 0 <= i < s.len() implies (#[trigger] s[i]).id == once[i].id by {}
    lemma_same_ids(s, once);
    assert(twice =~= once);
}

/// An invite from a sender that is not in the pool leaves its target, if it
/// is in the pool, without an inbound invite and with both flags reset; every
/// other member stays as it was.
pub proof fn lemma_invite_rollback<C>(s: Members<C>, sender: PlayerId, target: PlayerId)
    requires
        pool_wf(s),
        !contains_id(s, sender),
        contains_id(s, target),
    ensures
        contains_id(invited(s, sender, target), target),
        member(invited(s, sender, target), target) == (PlayerView {
            inbound_invite: None,
            notified_of_invite: false,
            accepted_invite: false,
            ..member(s, target)
        }),
        forall|id: PlayerId|
            id != target ==> lookup(invited(s, sender, target), id) == lookup(s, id),
{
    lemma_invited(s, sender, target);
    assert forall|id: PlayerId| id != target implies lookup(invited(s, sender, target), id)
        == lookup(s, id) by {
        if contains_id(s, id) {
            let i = index_of(s, id);
            assert(0 <= i < s.len() && s[i].id == id);
        }
    }
}

/// An invite to a target that is not in the pool changes nothing.
pub proof fn lemma_invite_without_target<C>(s: Members<C>, sender: PlayerId, target: PlayerId)
    requires
        !contains_id(s, target),
    ensures
        invited(s, sender, target) == s,
{
}

/// After a tick exactly the members that hold an inbound invite count as
/// notified, and every member is as it was but for that flag.
pub proof fn lemma_tick_notifies<C>(s: Members<C>)
    requires
        pool_wf(s),
    ensures
        forall|i: int|
            0 <= i < ticked(s).members.len() ==> {
                let p = #[trigger] ticked(s).members[i];
                &&& p.notified_of_invite == (p.inbound_invite is Some)
                &&& contains_id(s, p.id)
                &&& p == notify_member(member(s, p.id))
            },
{
    let told = notified(s);
    lemma_notified(s);
    lemma_hand_off_keeps(hand_off_start(told), accepted_pairings(told));
    let done = pair_all(hand_off_start(told), accepted_pairings(told));
    assert forall|i: int| 0 <= i < done.members.len() implies {
        let p = #[trigger] done.members[i];
        &&& p.notified_of_invite == (p.inbound_invite is Some)
        &&& contains_id(s, p.id)
        &&& p == notify_member(member(s, p.id))
    } by {
        let p = done.members[i];
        lemma_pair_all(hand_off_start(told), accepted_pairings(told));
        lemma_index_of(done.members, p.id, i);
        assert(lookup(done.members, p.id) == Some(p));
        assert(lookup(told, p.id) == Some(p));
        assert(member_wf(member(s, p.id)));
    }
}

/// No message marks a member as notified: a member that counts as notified
/// after a message counted as notified of the same invite before it, or has
/// just registered with that state.
pub proof fn lemma_messages_never_notify<C>(s: Members<C>, message: Message<C>, id: PlayerId)
    requires
        pool_wf(s),
        message.wf(),
        contains_id(pool_after(s, message), id),
        member(pool_after(s, message), id).notified_of_invite,
    ensures
        (message matches Message::Register(player) && player@.id == id && member(
            pool_after(s, message),
            id,
        ) == player@) || (contains_id(s, id) && member(s, id).notified_of_invite && member(
            s,
            id,
        ).inbound_invite == member(pool_after(s, message), id).inbound_invite),
{
    match message {
        Message::Register(player) => {
            lemma_registered(s, player@);
            if player@.id != id {
                assert(lookup(pool_after(s, message), id) == lookup(s, id));
            }
        },
        Message::PlayerList => {},
        Message::Invite { sender, target } => {
            lemma_invited(s, sender, target);
        },
        Message::Accept(player) => {
            lemma_accepted(s, player);
        },
    }
}

/// A notice is owed once: right after a tick no member awaits one.
pub proof fn lemma_tick_settles_notices<C>(s: Members<C>)
    requires
        pool_wf(s),
    ensures
        pending_notices(ticked(s).members) == Seq::<Notice>::empty(),
{
    lemma_tick_notifies(s);
    lemma_nothing_pending(ticked(s).members);
}

/// Whether every member of `later` is a member of `earlier`, unchanged.
pub open spec fn kept_from<C>(later: Members<C>, earlier: Members<C>) -> bool {
    forall|id: PlayerId| contains_id(later, id) ==> lookup(later, id) == lookup(earlier, id)
}

/// Whether neither player of any session is in the pool that is left.
pub open spec fn sessions_left<C>(h: HandOff<C>) -> bool {
    forall|i: int|
        0 <= i < h.sessions.len() ==> {
            let session = #[trigger] h.sessions[i];
            &&& session.inviter.id != session.invitee.id
            &&& !contains_id(h.members, session.inviter.id)
            &&& !contains_id(h.members, session.invitee.id)
        }
}

/// The hand-off only takes members out: whoever is in the pool afterwards
/// was in it before, unchanged.
pub proof fn lemma_hand_off_keeps<C>(h: HandOff<C>, pairings: Seq<Pairing>)
    requires
        pool_wf(h.members),
    ensures
        kept_from(pair_all(h, pairings).members, h.members),
    decreases pairings.len(),
{
    if pairings.len() > 0 {
        let before = pair_all(h, pairings.drop_last());
        lemma_hand_off_keeps(h, pairings.drop_last());
        lemma_pair_all(h, pairings.drop_last());
        let pairing = pairings.last();
        if can_pair(before.members, pairing) {
            lemma_without_pair(before.members, pairing);
        }
    }
}

/// The two players of every session are two players, and neither is in the
/// pool once the hand-off is done.
pub proof fn lemma_hand_off_leaves<C>(h: HandOff<C>, pairings: Seq<Pairing>)
    requires
        pool_wf(h.members),
        sessions_left(h),
    ensures
        sessions_left(pair_all(h, pairings)),
    decreases pairings.len(),
{
    if pairings.len() > 0 {
        let before = pair_all(h, pairings.drop_last());
        lemma_hand_off_leaves(h, pairings.drop_last());
        lemma_pair_all(h, pairings.drop_last());
        let pairing = pairings.last();
        let after = pair_one(before, pairing);
        if can_pair(before.members, pairing) {
            lemma_without_pair(before.members, pairing);
            let a = index_of(before.members, pairing.inviter);
            let b = index_of(before.members, pairing.invitee);
            assert(before.members[a].id == pairing.inviter);
            assert(before.members[b].id == pairing.invitee);
            assert forall|i: int| 0 <= i < after.sessions.len() implies {
                let session = #[trigger] after.sessions[i];
                &&& session.inviter.id != session.invitee.id
                &&& !contains_id(after.members, session.inviter.id)
                &&& !contains_id(after.members, session.invitee.id)
            } by {
                if i < before.sessions.len() {
                    let session = before.sessions[i];
                    assert(after.sessions[i] == session);
                    assert(!contains_id(before.members, session.inviter.id));
                    assert(!contains_id(before.members, session.invitee.id));
                    assert(session.inviter.id != pairing.inviter);
                    assert(session.inviter.id != pairing.invitee);
                    assert(session.invitee.id != pairing.inviter);
                    assert(session.invitee.id != pairing.invitee);
                    assert(lookup(after.members, session.inviter.id) == lookup(
                        before.members,
                        session.inviter.id,
                    ));
                    assert(lookup(after.members, session.invitee.id) == lookup(
                        before.members,
                        session.invitee.id,
                    ));
                }
            }
        } else {
            assert forall|i: int| 0 <= i < after.sessions.len() implies {
                let session = #[trigger] after.sessions[i];
                &&& session.inviter.id != session.invitee.id
                &&& !contains_id(after.members, session.inviter.id)
                &&& !contains_id(after.members, session.invitee.id)
            } by {
                assert(after.sessions[i] == before.sessions[i]);
            }
        }
    }
}

/// The players that a tick hands to a session are gone from the pool: a
/// session holds two different players, and neither is in the pool after
/// the tick.
pub proof fn lemma_tick_hands_off<C>(s: Members<C>)
    requires
        pool_wf(s),
    ensures
        forall|i: int|
            0 <= i < ticked(s).sessions.len() ==> {
                let session = #[trigger] ticked(s).sessions[i];
                &&& session.inviter.id != session.invitee.id
                &&& !contains_id(ticked(s).members, session.inviter.id)
                &&& !contains_id(ticked(s).members, session.invitee.id)
            },
{
    let told = notified(s);
    lemma_notified(s);
    lemma_hand_off_leaves(hand_off_start(told), accepted_pairings(told));
}

} // verus!
