//! The player pool: the records of the connected players, each with the
//! connection it registered with.

use vstd::prelude::*;
use crate::model::{
    accept_outcome, accepted, contains_id, fresh_member, ids, index_of, invite_outcome, invited,
    lemma_absent, lemma_accepted, lemma_ids_no_duplicates, lemma_index_of, lemma_invited,
    lemma_registered, lemma_without, lookup, member_wf, pool_wf, registered, without,
    AcceptOutcome, InviteOutcome, Members, PlayerView,
};
use crate::player::{is_random_id, PlayerId};
use crate::tick::{
    accepted_pairings, can_pair, lemma_notified, lemma_without_pair, notified, notify_member,
    pending_notices, session_of, without_pair, Notice, Pairing, SessionView,
};

verus! {

/// The place of a player in the invite state machine. The two flags are set
/// only while the player holds an inbound invite.
struct InviteState {
    id: PlayerId,
    outbound_invite: Option<PlayerId>,
    inbound_invite: Option<PlayerId>,
    notified_of_invite: bool,
    accepted_invite: bool,
}

impl InviteState {
    #[verifier::type_invariant]
    closed spec fn flags_need_invite(self) -> bool {
        &&& self.notified_of_invite ==> self.inbound_invite is Some
        &&& self.accepted_invite ==> self.inbound_invite is Some
    }
}

/// A connected player: its place in the invite state machine and the
/// connection that reaches its client.
pub struct Player<C> {
    state: InviteState,
    connection: C,
}

impl<C> View for Player<C> {
    type V = PlayerView<C>;

    closed spec fn view(&self) -> PlayerView<C> {
        PlayerView {
            id: self.state.id,
            outbound_invite: self.state.outbound_invite,
            inbound_invite: self.state.inbound_invite,
            notified_of_invite: self.state.notified_of_invite,
            accepted_invite: self.state.accepted_invite,
            connection: self.connection,
        }
    }
}

impl<C> Player<C> {
    /// Validity of a player record: its flags are set only while it holds an
    /// inbound invite. Every record that the program holds is valid.
    pub open spec fn wf(&self) -> bool {
        member_wf(self@)
    }

    /// A player with a fresh random identifier on `connection`, holding no
    /// invite.
    pub fn new(connection: C) -> (player: Player<C>)
        ensures
            player@ == fresh_member(player@.id, connection),
            is_random_id(player@.id@),
            player.wf(),
    {
        Player::with_id(PlayerId::default(), connection)
    }

    /// A player with the identifier `id` on `connection`, holding no invite.
    pub fn with_id(id: PlayerId, connection: C) -> (player: Player<C>)
        ensures
            player@ == fresh_member(id, connection),
            player.wf(),
    {
        Player {
            state: InviteState {
                id,
                outbound_invite: None,
                inbound_invite: None,
                notified_of_invite: false,
                accepted_invite: false,
            },
            connection,
        }
    }

    /// The player's identifier.
    pub fn id(&self) -> (id: PlayerId)
        ensures
            id == self@.id,
    {
        self.state.id
    }

    /// The player this one has invited, if any.
    pub fn outbound_invite(&self) -> (invite: Option<PlayerId>)
        ensures
            invite == self@.outbound_invite,
    {
        self.state.outbound_invite
    }

    /// The player who has invited this one, if any.
    pub fn inbound_invite(&self) -> (invite: Option<PlayerId>)
        ensures
            invite == self@.inbound_invite,
    {
        self.state.inbound_invite
    }

    /// Whether the client was told of its current inbound invite.
    pub fn notified_of_invite(&self) -> (notified: bool)
        ensures
            notified == self@.notified_of_invite,
    {
        self.state.notified_of_invite
    }

    /// Whether the client has accepted its current inbound invite.
    pub fn accepted_invite(&self) -> (accepted: bool)
        ensures
            accepted == self@.accepted_invite,
    {
        self.state.accepted_invite
    }

    /// The player's connection.
    pub fn connection(&self) -> (connection: &C)
        ensures
            *connection == self@.connection,
    {
        &self.connection
    }

    /// The player's connection, to send on. Nothing else of the record can
    /// change through it.
    pub fn connection_mut(&mut self) -> (connection: &mut C)
        ensures
            *connection == old(self)@.connection,
            final(self)@ == (PlayerView { connection: *final(connection), ..old(self)@ }),
    {
        &mut self.connection
    }

    /// Gives up the record and hands out its connection.
    pub fn into_connection(self) -> (connection: C)
        ensures
            connection == self@.connection,
    {
        self.connection
    }
}

/// Two players that left the pool together, for one game session.
pub struct Session<C> {
    pub inviter: Player<C>,
    pub invitee: Player<C>,
}

impl<C> View for Session<C> {
    type V = SessionView<C>;

    open spec fn view(&self) -> SessionView<C> {
        SessionView { inviter: self.inviter@, invitee: self.invitee@ }
    }
}

/// The records of a list as the model sees them.
pub open spec fn player_views<C>(players: Seq<Player<C>>) -> Members<C> {
    players.map_values(|p: Player<C>| p@)
}

/// The position of the player `id` among `players`, if it is there.
fn position<C>(players: &Vec<Player<C>>, id: PlayerId) -> (found: Option<usize>)
    requires
        pool_wf(player_views(players@)),
    ensures
        found is Some == contains_id(player_views(players@), id),
        found matches Some(i) ==> i < players.len() && players[i as int]@.id == id && i
            == index_of(player_views(players@), id),
{
    let ghost members = player_views(players@);
    let mut i: usize = 0;
    while i < players.len()
        invariant
            members == player_views(players@),
            pool_wf(members),
            i <= players.len(),
            forall|k: int| 0 <= k < i ==> (#[trigger] members[k]).id != id,
        decreases players.len() - i,
    {
        if players[i].state.id == id {
            proof {
                lemma_index_of(members, id, i as int);
            }
            return Some(i);
        }
        i += 1;
    }
    proof {
        lemma_absent(members, id);
    }
    None
}

/// The pool of connected players. No identifier occurs twice in it.
pub struct Pool<C> {
    players: Vec<Player<C>>,
}

impl<C> View for Pool<C> {
    type V = Members<C>;

    closed spec fn view(&self) -> Members<C> {
        player_views(self.players@)
    }
}

impl<C> Pool<C> {
    /// Validity of the pool. Every pool that the program holds is valid.
    #[verifier::type_invariant]
    pub open spec fn wf(&self) -> bool {
        pool_wf(self@)
    }

    /// The empty pool.
    pub fn new() -> (pool: Pool<C>)
        ensures
            pool@ == Seq::<PlayerView<C>>::empty(),
            pool.wf(),
    {
        let players: Vec<Player<C>> = Vec::new();
        assert(player_views(players@) =~= Seq::<PlayerView<C>>::empty());
        Pool { players }
    }

    /// Takes the records out of the pool, which is empty afterwards.
    fn take(&mut self) -> (players: Vec<Player<C>>)
        ensures
            player_views(players@) == old(self)@,
            pool_wf(player_views(players@)),
            final(self)@ == Seq::<PlayerView<C>>::empty(),
    {
        proof {
            use_type_invariant(&*self);
        }
        let mut players: Vec<Player<C>> = Vec::new();
        assert(player_views(players@) =~= Seq::<PlayerView<C>>::empty());
        core::mem::swap(&mut self.players, &mut players);
        players
    }

    /// The number of players in the pool.
    pub fn len(&self) -> (len: usize)
        ensures
            len == self@.len(),
    {
        self.players.len()
    }

    /// Whether the pool holds no player.
    pub fn is_empty(&self) -> (empty: bool)
        ensures
            empty == (self@.len() == 0),
    {
        self.players.len() == 0
    }

    /// Whether the player `id` is in the pool.
    pub fn contains(&self, id: PlayerId) -> (present: bool)
        ensures
            present == contains_id(self@, id),
    {
        proof {
            use_type_invariant(self);
        }
        position(&self.players, id).is_some()
    }

    /// The record of the player `id`, if it is in the pool.
    pub fn player(&self, id: PlayerId) -> (player: Option<&Player<C>>)
        ensures
            match player {
                Some(p) => lookup(self@, id) == Some(p@) && p.wf(),
                None => lookup(self@, id) is None,
            },
    {
        proof {
            use_type_invariant(self);
        }
        match position(&self.players, id) {
            Some(i) => {
                assert(self@[i as int] == self.players[i as int]@);
                Some(&self.players[i])
            },
            None => None,
        }
    }

    /// The identifiers of the players in the pool, each once.
    pub fn list_players(&self) -> (list: Vec<PlayerId>)
        ensures
            list@ == ids(self@),
            list@.len() == self@.len(),
            list@.no_duplicates(),
            forall|id: PlayerId| list@.contains(id) <==> contains_id(self@, id),
    {
        proof {
            use_type_invariant(self);
        }
        let mut list: Vec<PlayerId> = Vec::new();
        let mut i: usize = 0;
        while i < self.players.len()
            invariant
                i <= self.players.len(),
                list@ == ids(self@).take(i as int),
            decreases self.players.len() - i,
        {
            list.push(self.players[i].state.id);
            assert(list@ =~= ids(self@).take(i as int + 1));
            i += 1;
        }
        proof {
            assert(list@ =~= ids(self@));
            lemma_ids_no_duplicates(self@);
            assert forall|id: PlayerId| list@.contains(id) <==> contains_id(self@, id) by {
                if list@.contains(id) {
                    let k = choose|k: int| 0 <= k < list@.len() && list@[k] == id;
                    assert(self@[k].id == id);
                }
                if contains_id(self@, id) {
                    let k = index_of(self@, id);
                    assert(0 <= k < self@.len() && self@[k].id == id);
                    assert(list@[k] == id);
                }
            }
        }
        list
    }

    /// Adds `player` to the pool. A player that had the same identifier
    /// leaves the pool and is handed back.
    pub fn register(&mut self, player: Player<C>) -> (replaced: Option<Player<C>>)
        ensures
            final(self).wf(),
            final(self)@ == registered(old(self)@, player@),
            match replaced {
                Some(p) => lookup(old(self)@, player@.id) == Some(p@) && p.wf(),
                None => lookup(old(self)@, player@.id) is None,
            },
            final(self)@.len() + (if replaced is Some { 1int } else { 0int }) == old(self)@.len()
                + 1,
    {
        let mut players = self.take();
        let ghost before = player_views(players@);
        let ghost joining = player@;
        proof {
            use_type_invariant(&player.state);
            lemma_registered(before, joining);
        }
        let replaced = match position(&players, player.state.id) {
            Some(i) => {
                players.push(player);
                let previous = players.swap_remove(i);
                assert(player_views(players@) =~= before.update(i as int, joining));
                assert(previous@ == before[i as int]);
                Some(previous)
            },
            None => {
                players.push(player);
                assert(player_views(players@) =~= before.push(joining));
                None
            },
        };
        self.players = players;
        replaced
    }

    /// Takes the player `id` out of the pool and hands it back, if it is in
    /// the pool.
    pub fn remove(&mut self, id: PlayerId) -> (removed: Option<Player<C>>)
        ensures
            final(self).wf(),
            final(self)@ == without(old(self)@, id),
            match removed {
                Some(p) => lookup(old(self)@, id) == Some(p@) && p.wf(),
                None => lookup(old(self)@, id) is None,
            },
            final(self)@.len() + (if removed is Some { 1int } else { 0int }) == old(self)@.len(),
    {
        let mut players = self.take();
        let ghost before = player_views(players@);
        proof {
            lemma_without(before, id);
        }
        let removed = match position(&players, id) {
            Some(i) => {
                let removed = players.remove(i);
                assert(player_views(players@) =~= before.remove(i as int));
                assert(removed@ == before[i as int]);
                Some(removed)
            },
            None => None,
        };
        self.players = players;
        removed
    }

    /// Records an invite from `sender` to `target`. With the target in the
    /// pool its inbound invite becomes the sender and its flags are reset;
    /// the sender's outbound invite becomes the target. If the sender is not
    /// in the pool, the target's inbound invite is cleared instead. Without
    /// the target nothing changes.
    pub fn invite(&mut self, sender: PlayerId, target: PlayerId) -> (outcome: InviteOutcome)
        ensures
            final(self).wf(),
            final(self)@ == invited(old(self)@, sender, target),
            outcome == invite_outcome(old(self)@, sender, target),
    {
        let mut players = self.take();
        let ghost before = player_views(players@);
        proof {
            lemma_invited(before, sender, target);
        }
        let outcome = match position(&players, target) {
            None => InviteOutcome::TargetNotFound,
            Some(t) => {
                match position(&players, sender) {
                    Some(s) => {
                        players[t].state.notified_of_invite = false;
                        players[t].state.accepted_invite = false;
                        players[t].state.inbound_invite = Some(sender);
                        players[s].state.outbound_invite = Some(target);
                        proof {
                            let after = invited(before, sender, target);
                            assert forall|k: int| 0 <= k < before.len() implies player_views(
                                players@,
                            )[k] == after[k] by {
                                if k != t as int {
                                    if k < t as int {
                                        assert(before[k].id != before[t as int].id);
                                    } else {
                                        assert(before[t as int].id != before[k].id);
                                    }
                                }
                                if k != s as int {
                                    if k < s as int {
                                        assert(before[k].id != before[s as int].id);
                                    } else {
                                        assert(before[s as int].id != before[k].id);
                                    }
                                }
                            }
                            assert(player_views(players@) =~= after);
                        }
                        InviteOutcome::Recorded
                    },
                    None => {
                        players[t].state.notified_of_invite = false;
                        players[t].state.accepted_invite = false;
                        players[t].state.inbound_invite = None;
                        proof {
                            let after = invited(before, sender, target);
                            assert forall|k: int| 0 <= k < before.len() implies player_views(
                                players@,
                            )[k] == after[k] by {
                                assert(contains_id(before, before[k].id));
                                if k != t as int {
                                    if k < t as int {
                                        assert(before[k].id != before[t as int].id);
                                    } else {
                                        assert(before[t as int].id != before[k].id);
                                    }
                                }
                            }
                            assert(player_views(players@) =~= after);
                        }
                        InviteOutcome::SenderNotFound
                    },
                }
            },
        };
        self.players = players;
        outcome
    }

    /// Marks the inbound invite of the player `id` as accepted. Nothing
    /// changes if the player is not in the pool or holds no inbound invite.
    pub fn accept(&mut self, id: PlayerId) -> (outcome: AcceptOutcome)
        ensures
            final(self).wf(),
            final(self)@ == accepted(old(self)@, id),
            outcome == accept_outcome(old(self)@, id),
    {
        let mut players = self.take();
        let ghost before = player_views(players@);
        proof {
            lemma_accepted(before, id);
        }
        let outcome = match position(&players, id) {
            None => {
                proof {
                    assert forall|k: int| 0 <= k < before.len() implies before[k] == accepted(
                        before,
                        id,
                    )[k] by {
                        assert(contains_id(before, before[k].id));
                    }
                    assert(before =~= accepted(before, id));
                }
                AcceptOutcome::PlayerNotFound
            },
            Some(i) => {
                let outcome = if players[i].state.inbound_invite.is_some() {
                    players[i].state.accepted_invite = true;
                    AcceptOutcome::Accepted
                } else {
                    AcceptOutcome::NoInvite
                };
                proof {
                    let after = accepted(before, id);
                    assert forall|k: int| 0 <= k < before.len() implies player_views(
                        players@,
                    )[k] == after[k] by {
                        if k != i as int {
                            if k < i as int {
                                assert(before[k].id != before[i as int].id);
                            } else {
                                assert(before[i as int].id != before[k].id);
                            }
                        }
                    }
                    assert(player_views(players@) =~= after);
                }
                outcome
            },
        };
        self.players = players;
        outcome
    }

    /// Collects the notices owed to the players that hold an inbound invite
    /// which their client was not told of, and marks every holder of an
    /// inbound invite as told.
    pub fn notify_pending(&mut self) -> (notices: Vec<Notice>)
        ensures
            final(self).wf(),
            final(self)@ == notified(old(self)@),
            notices@ == pending_notices(old(self)@),
    {
        let mut players = self.take();
        let ghost before = player_views(players@);
        proof {
            lemma_notified(before);
        }
        let mut notices: Vec<Notice> = Vec::new();
        let mut i: usize = 0;
        while i < players.len()
            invariant
                i <= players.len(),
                players.len() == before.len(),
                forall|k: int|
                    0 <= k < i ==> #[trigger] player_views(players@)[k] == notify_member(
                        before[k],
                    ),
                forall|k: int|
                    i <= k < before.len() ==> #[trigger] player_views(players@)[k] == before[k],
                notices@ == pending_notices(before.take(i as int)),
            decreases players.len() - i,
        {
            let ghost entering = player_views(players@);
            proof {
                assert(before.take(i as int + 1).drop_last() =~= before.take(i as int));
                assert(entering[i as int] == before[i as int]);
            }
            match players[i].state.inbound_invite {
                Some(inviter) => {
                    if !players[i].state.notified_of_invite {
                        notices.push(Notice { target: players[i].state.id, inviter });
                        players[i].state.notified_of_invite = true;
                    }
                },
                None => {},
            }
            proof {
                assert(player_views(players@)[i as int] == notify_member(before[i as int]));
                let now = player_views(players@);
                assert forall|k: int| 0 <= k < before.len() && k != i implies #[trigger] now[k]
                    == entering[k] by {}
            }
            i += 1;
        }
        proof {
            assert(before.take(i as int) =~= before);
            assert(player_views(players@) =~= notified(before));
        }
        self.players = players;
        notices
    }

    /// The accepted invites of the pool, in pool order of the invitees.
    pub fn accepted_pairings(&self) -> (pairings: Vec<Pairing>)
        ensures
            pairings@ == accepted_pairings(self@),
    {
        let mut pairings: Vec<Pairing> = Vec::new();
        let mut i: usize = 0;
        while i < self.players.len()
            invariant
                i <= self.players.len(),
                pairings@ == accepted_pairings(self@.take(i as int)),
            decreases self.players.len() - i,
        {
            proof {
                assert(self@.take(i as int + 1).drop_last() =~= self@.take(i as int));
            }
            match self.players[i].state.inbound_invite {
                Some(inviter) => {
                    if self.players[i].state.accepted_invite {
                        pairings.push(Pairing { inviter, invitee: self.players[i].state.id });
                    }
                },
                None => {},
            }
            i += 1;
        }
        proof {
            assert(self@.take(i as int) =~= self@);
        }
        pairings
    }

    /// Takes the two players of `pairing` out of the pool, for one session.
    /// If either is missing, or both are one player, the pool stays as it is.
    pub fn pair(&mut self, pairing: Pairing) -> (session: Option<Session<C>>)
        ensures
            final(self).wf(),
            match session {
                Some(made) => {
                    &&& can_pair(old(self)@, pairing)
                    &&& made@ == session_of(old(self)@, pairing)
                    &&& made.inviter.wf()
                    &&& made.invitee.wf()
                    &&& final(self)@ == without_pair(old(self)@, pairing)
                },
                None => !can_pair(old(self)@, pairing) && final(self)@ == old(self)@,
            },
    {
        proof {
            use_type_invariant(&*self);
        }
        if pairing.inviter == pairing.invitee {
            return None;
        }
        if !self.contains(pairing.inviter) || !self.contains(pairing.invitee) {
            return None;
        }
        proof {
            lemma_without_pair(self@, pairing);
            lemma_without(self@, pairing.inviter);
        }
        let ghost before = self@;
        let inviter = self.remove(pairing.inviter);
        assert(lookup(self@, pairing.invitee) == lookup(before, pairing.invitee));
        let invitee = self.remove(pairing.invitee);
        match (inviter, invitee) {
            (Some(inviter), Some(invitee)) => Some(Session { inviter, invitee }),
            _ => None,
        }
    }
}

} // verus!
