//! The matchmaking actor: what each message and each tick does to the pool,
//! and what is owed to the outside afterwards.

use vstd::prelude::*;
use crate::model::{
    accept_outcome, accepted, ids, invite_outcome, invited, lookup, registered, AcceptOutcome,
    InviteOutcome, Members,
};
use crate::player::PlayerId;
use crate::pool::{Player, Pool, Session};
use crate::tick::{
    hand_off_start, lemma_pair_one, lemma_ticked, pair_all, ticked, HandOff, Notice, Pairing,
    SessionView,
};

verus! {

/// A request to the actor.
pub enum Message<C> {
    /// Add a player, already told of its identifier, to the pool.
    Register(Player<C>),
    /// Ask for the identifiers of the players in the pool.
    PlayerList,
    /// Record an invite from `sender` to `target`.
    Invite { sender: PlayerId, target: PlayerId },
    /// Mark the inbound invite of the player as accepted.
    Accept(PlayerId),
}

impl<C> Message<C> {
    /// Validity of a message: a player that registers is a valid record.
    /// Every message that the program holds is valid.
    pub open spec fn wf(&self) -> bool {
        self matches Message::Register(player) ==> player.wf()
    }
}

/// The actor's answer to a message.
pub enum Reply<C> {
    /// The player is in the pool; `replaced` is the player that had the same
    /// identifier and left for it.
    Registered { replaced: Option<Player<C>> },
    /// The identifiers of the players in the pool.
    PlayerList(Vec<PlayerId>),
    /// How the invite ended.
    Invite(InviteOutcome),
    /// How the acceptance ended.
    Accept(AcceptOutcome),
}

/// What a tick owes to the outside.
pub struct TickOutcome<C> {
    /// Notices to send, each over the connection of its target.
    pub notices: Vec<Notice>,
    /// Pairs of players that left the pool, each for one game session.
    pub sessions: Vec<Session<C>>,
    /// Accepted invites that were given up because a player was gone.
    pub abandoned: Vec<Pairing>,
}

/// The sessions of a list as the model sees them.
pub open spec fn session_views<C>(sessions: Seq<Session<C>>) -> Seq<SessionView<C>> {
    sessions.map_values(|s: Session<C>| s@)
}

/// The pool after `message`.
pub open spec fn pool_after<C>(s: Members<C>, message: Message<C>) -> Members<C> {
    match message {
        Message::Register(player) => registered(s, player@),
        Message::PlayerList => s,
        Message::Invite { sender, target } => invited(s, sender, target),
        Message::Accept(id) => accepted(s, id),
    }
}

/// Whether `reply` is the answer that `message` gets on the pool `s`.
pub open spec fn answers<C>(s: Members<C>, message: Message<C>, reply: Reply<C>) -> bool {
    match message {
        Message::Register(player) => {
            &&& reply matches Reply::Registered { replaced }
            &&& match replaced {
                Some(previous) => lookup(s, player@.id) == Some(previous@) && previous.wf(),
                None => lookup(s, player@.id) is None,
            }
        },
        Message::PlayerList => {
            &&& reply matches Reply::PlayerList(list)
            &&& list@ == ids(s)
            &&& list@.no_duplicates()
        },
        Message::Invite { sender, target } => reply == Reply::<C>::Invite(
            invite_outcome(s, sender, target),
        ),
        Message::Accept(id) => reply == Reply::<C>::Accept(accept_outcome(s, id)),
    }
}

/// The matchmaking actor. It owns no state of its own: it works on the pool
/// that its run loop holds.
pub struct Actor;

impl Actor {
    /// Handles one message on the pool and says what to answer.
    pub fn on_message<C>(pool: &mut Pool<C>, message: Message<C>) -> (reply: Reply<C>)
        ensures
            final(pool).wf(),
            final(pool)@ == pool_after(old(pool)@, message),
            answers(old(pool)@, message, reply),
    {
        proof {
            use_type_invariant(&*pool);
        }
        match message {
            Message::Register(player) => {
                let replaced = pool.register(player);
                Reply::Registered { replaced }
            },
            Message::PlayerList => Reply::PlayerList(pool.list_players()),
            Message::Invite { sender, target } => Reply::Invite(pool.invite(sender, target)),
            Message::Accept(id) => Reply::Accept(pool.accept(id)),
        }
    }

    /// Runs one tick on the pool. Every player that holds an inbound invite
    /// which its client was not told of is owed a notice and counts as told.
    /// Then every accepted invite whose two players are in the pool takes
    /// both out of it, for one game session.
    pub fn on_tick<C>(pool: &mut Pool<C>) -> (outcome: TickOutcome<C>)
        ensures
            final(pool).wf(),
            final(pool)@ == ticked(old(pool)@).members,
            outcome.notices@ == ticked(old(pool)@).notices,
            session_views(outcome.sessions@) == ticked(old(pool)@).sessions,
            outcome.abandoned@ == ticked(old(pool)@).abandoned,
            forall|i: int|
                0 <= i < outcome.sessions.len() ==> (#[trigger] outcome.sessions[i]).inviter.wf()
                    && outcome.sessions[i].invitee.wf(),
    {
        proof {
            use_type_invariant(&*pool);
            lemma_ticked(pool@);
        }
        let notices = pool.notify_pending();
        let pairings = pool.accepted_pairings();
        let ghost start = hand_off_start(pool@);
        let mut sessions: Vec<Session<C>> = Vec::new();
        let mut abandoned: Vec<Pairing> = Vec::new();
        assert(session_views(sessions@) =~= start.sessions);
        let mut k: usize = 0;
        while k < pairings.len()
            invariant
                k <= pairings.len(),
                pool.wf(),
                (HandOff {
                    members: pool@,
                    sessions: session_views(sessions@),
                    abandoned: abandoned@,
                }) == pair_all(start, pairings@.take(k as int)),
                forall|i: int|
                    0 <= i < sessions.len() ==> (#[trigger] sessions[i]).inviter.wf()
                        && sessions[i].invitee.wf(),
            decreases pairings.len() - k,
        {
            let pairing = pairings[k];
            let ghost so_far = pair_all(start, pairings@.take(k as int));
            proof {
                assert(pairings@.take(k as int + 1).drop_last() =~= pairings@.take(k as int));
                lemma_pair_one(so_far, pairing);
            }
            match pool.pair(pairing) {
                Some(session) => {
                    let ghost made = session@;
                    let ghost earlier = sessions@;
                    sessions.push(session);
                    assert(session_views(sessions@) =~= session_views(earlier).push(made));
                },
                None => {
                    abandoned.push(pairing);
                },
            }
            k += 1;
        }
        proof {
            assert(pairings@.take(k as int) =~= pairings@);
        }
        TickOutcome { notices, sessions, abandoned }
    }
}

} // verus!
