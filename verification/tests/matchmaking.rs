use lobby::actor::{Actor, Message, Reply, TickOutcome};
use lobby::model::{AcceptOutcome, InviteOutcome};
use lobby::player::PlayerId;
use lobby::pool::{Player, Pool};
use lobby::tick::{Notice, Pairing};

fn id(value: u128) -> PlayerId {
    PlayerId::from_u128(value)
}

fn register(pool: &mut Pool<&'static str>, value: u128, connection: &'static str) {
    let reply = Actor::on_message(pool, Message::Register(Player::with_id(id(value), connection)));
    assert!(matches!(reply, Reply::Registered { replaced: None }));
}

fn players(pool: &mut Pool<&'static str>) -> Vec<PlayerId> {
    match Actor::on_message(pool, Message::PlayerList) {
        Reply::PlayerList(list) => list,
        _ => panic!("a list request is answered with a list"),
    }
}

fn invite(pool: &mut Pool<&'static str>, sender: u128, target: u128) -> InviteOutcome {
    match Actor::on_message(pool, Message::Invite { sender: id(sender), target: id(target) }) {
        Reply::Invite(outcome) => outcome,
        _ => panic!("an invite is answered with its outcome"),
    }
}

fn accept(pool: &mut Pool<&'static str>, player: u128) -> AcceptOutcome {
    match Actor::on_message(pool, Message::Accept(id(player))) {
        Reply::Accept(outcome) => outcome,
        _ => panic!("an acceptance is answered with its outcome"),
    }
}

type State = (Option<PlayerId>, Option<PlayerId>, bool, bool);

fn state(pool: &Pool<&'static str>, player: u128) -> State {
    let p = pool.player(id(player)).expect("the player is in the pool");
    assert_eq!(p.id(), id(player));
    (p.outbound_invite(), p.inbound_invite(), p.notified_of_invite(), p.accepted_invite())
}

fn quiet(outcome: &TickOutcome<&'static str>) -> bool {
    outcome.notices.is_empty() && outcome.sessions.is_empty() && outcome.abandoned.is_empty()
}

#[test]
fn fresh_pool_lists_nobody() {
    let mut pool: Pool<&'static str> = Pool::new();
    assert_eq!(pool.len(), 0);
    assert!(pool.is_empty());
    assert_eq!(players(&mut pool), Vec::<PlayerId>::new());
    assert!(pool.list_players().is_empty());
}

#[test]
fn tick_on_empty_pool_does_nothing() {
    let mut pool: Pool<&'static str> = Pool::new();
    let outcome = Actor::on_tick(&mut pool);
    assert!(quiet(&outcome));
    assert!(pool.is_empty());
}

#[test]
fn registrations_are_listed_once_each() {
    let mut pool: Pool<&'static str> = Pool::new();
    register(&mut pool, 1, "a");
    register(&mut pool, 2, "b");
    register(&mut pool, 3, "c");
    assert_eq!(pool.len(), 3);
    assert_eq!(players(&mut pool), vec![id(1), id(2), id(3)]);
    assert!(pool.contains(id(2)));
    assert!(!pool.contains(id(4)));
}

#[test]
fn registered_player_starts_idle() {
    let mut pool: Pool<&'static str> = Pool::new();
    register(&mut pool, 7, "seven");
    assert_eq!(state(&pool, 7), (None, None, false, false));
    assert_eq!(*pool.player(id(7)).unwrap().connection(), "seven");
    assert!(pool.player(id(8)).is_none());
}

#[test]
fn registering_a_known_id_replaces_the_player() {
    let mut pool: Pool<&'static str> = Pool::new();
    register(&mut pool, 1, "first");
    register(&mut pool, 2, "other");
    assert_eq!(invite(&mut pool, 2, 1), InviteOutcome::Recorded);
    let reply = Actor::on_message(&mut pool, Message::Register(Player::with_id(id(1), "second")));
    match reply {
        Reply::Registered { replaced: Some(previous) } => {
            assert_eq!(previous.id(), id(1));
            assert_eq!(previous.inbound_invite(), Some(id(2)));
            assert_eq!(previous.into_connection(), "first");
        }
        _ => panic!("the earlier player is handed back"),
    }
    assert_eq!(players(&mut pool), vec![id(1), id(2)]);
    assert_eq!(state(&pool, 1), (None, None, false, false));
    assert_eq!(*pool.player(id(1)).unwrap().connection(), "second");
}

#[test]
fn list_length_is_registrations_minus_removals() {
    let mut pool: Pool<&'static str> = Pool::new();
    for value in 1..=5u128 {
        register(&mut pool, value, "c");
    }
    assert!(pool.register(Player::with_id(id(3), "again")).is_some());
    assert!(pool.remove(id(4)).is_some());
    assert!(pool.remove(id(4)).is_none());
    assert!(pool.remove(id(9)).is_none());
    // six registrations, one replaced player and one disconnect
    let list = pool.list_players();
    assert_eq!(list.len(), 6 - 2);
    assert_eq!(list, vec![id(1), id(2), id(3), id(5)]);
    for (i, a) in list.iter().enumerate() {
        for b in list.iter().skip(i + 1) {
            assert_ne!(a, b);
        }
    }
}

#[test]
fn removed_player_keeps_its_connection() {
    let mut pool: Pool<&'static str> = Pool::new();
    register(&mut pool, 1, "a");
    register(&mut pool, 2, "b");
    let gone = pool.remove(id(1)).expect("the player was in the pool");
    assert_eq!(gone.id(), id(1));
    assert_eq!(gone.into_connection(), "a");
    assert_eq!(players(&mut pool), vec![id(2)]);
}

#[test]
fn invite_sets_both_ends() {
    let mut pool: Pool<&'static str> = Pool::new();
    register(&mut pool, 1, "a");
    register(&mut pool, 2, "b");
    assert_eq!(invite(&mut pool, 1, 2), InviteOutcome::Recorded);
    assert_eq!(state(&pool, 1), (Some(id(2)), None, false, false));
    assert_eq!(state(&pool, 2), (None, Some(id(1)), false, false));
}

#[test]
fn second_invite_overwrites_the_first_and_resets_the_flags() {
    let mut pool: Pool<&'static str> = Pool::new();
    register(&mut pool, 1, "a");
    register(&mut pool, 2, "b");
    register(&mut pool, 3, "c");
    assert_eq!(invite(&mut pool, 1, 2), InviteOutcome::Recorded);
    Actor::on_tick(&mut pool);
    assert_eq!(accept(&mut pool, 2), AcceptOutcome::Accepted);
    assert_eq!(state(&pool, 2), (None, Some(id(1)), true, true));
    assert_eq!(invite(&mut pool, 3, 2), InviteOutcome::Recorded);
    assert_eq!(state(&pool, 2), (None, Some(id(3)), false, false));
    assert_eq!(state(&pool, 1), (Some(id(2)), None, false, false));
    assert_eq!(state(&pool, 3), (Some(id(2)), None, false, false));
}

#[test]
fn same_invite_twice_is_the_invite_once() {
    let mut once: Pool<&'static str> = Pool::new();
    let mut twice: Pool<&'static str> = Pool::new();
    for pool in [&mut once, &mut twice] {
        register(pool, 1, "a");
        register(pool, 2, "b");
        register(pool, 3, "c");
        assert_eq!(invite(pool, 3, 2), InviteOutcome::Recorded);
    }
    assert_eq!(invite(&mut once, 1, 2), InviteOutcome::Recorded);
    assert_eq!(invite(&mut twice, 1, 2), InviteOutcome::Recorded);
    assert_eq!(invite(&mut twice, 1, 2), InviteOutcome::Recorded);
    for player in 1..=3u128 {
        assert_eq!(state(&once, player), state(&twice, player));
    }
    assert_eq!(once.list_players(), twice.list_players());
}

#[test]
fn invite_from_unknown_sender_is_rolled_back() {
    let mut pool: Pool<&'static str> = Pool::new();
    register(&mut pool, 1, "a");
    register(&mut pool, 2, "b");
    assert_eq!(invite(&mut pool, 1, 2), InviteOutcome::Recorded);
    Actor::on_tick(&mut pool);
    assert_eq!(state(&pool, 2), (None, Some(id(1)), true, false));
    assert_eq!(invite(&mut pool, 99, 2), InviteOutcome::SenderNotFound);
    assert_eq!(state(&pool, 2), (None, None, false, false));
    assert_eq!(state(&pool, 1), (Some(id(2)), None, false, false));
    let outcome = Actor::on_tick(&mut pool);
    assert!(quiet(&outcome));
}

#[test]
fn invite_to_unknown_target_changes_nothing() {
    let mut pool: Pool<&'static str> = Pool::new();
    register(&mut pool, 1, "a");
    assert_eq!(invite(&mut pool, 1, 404), InviteOutcome::TargetNotFound);
    assert_eq!(state(&pool, 1), (None, None, false, false));
    assert_eq!(players(&mut pool), vec![id(1)]);
    let outcome = Actor::on_tick(&mut pool);
    assert!(quiet(&outcome));
    assert_eq!(state(&pool, 1), (None, None, false, false));
}

#[test]
fn invite_between_unknown_players_changes_nothing() {
    let mut pool: Pool<&'static str> = Pool::new();
    assert_eq!(invite(&mut pool, 1, 2), InviteOutcome::TargetNotFound);
    assert!(pool.is_empty());
}

#[test]
fn tick_notifies_the_invited_player_once() {
    let mut pool: Pool<&'static str> = Pool::new();
    register(&mut pool, 1, "a");
    register(&mut pool, 2, "b");
    assert_eq!(invite(&mut pool, 1, 2), InviteOutcome::Recorded);
    let outcome = Actor::on_tick(&mut pool);
    assert_eq!(outcome.notices, vec![Notice { target: id(2), inviter: id(1) }]);
    assert!(outcome.sessions.is_empty());
    assert!(outcome.abandoned.is_empty());
    assert_eq!(state(&pool, 2), (None, Some(id(1)), true, false));
    assert_eq!(state(&pool, 1), (Some(id(2)), None, false, false));
    let again = Actor::on_tick(&mut pool);
    assert!(quiet(&again));
    assert_eq!(players(&mut pool), vec![id(1), id(2)]);
}

#[test]
fn accepted_invite_hands_both_players_to_one_session() {
    let mut pool: Pool<&'static str> = Pool::new();
    register(&mut pool, 1, "a");
    register(&mut pool, 2, "b");
    register(&mut pool, 3, "c");
    assert_eq!(invite(&mut pool, 1, 2), InviteOutcome::Recorded);
    Actor::on_tick(&mut pool);
    assert_eq!(accept(&mut pool, 2), AcceptOutcome::Accepted);
    assert_eq!(state(&pool, 2), (None, Some(id(1)), true, true));
    let mut outcome = Actor::on_tick(&mut pool);
    assert!(outcome.notices.is_empty());
    assert!(outcome.abandoned.is_empty());
    assert_eq!(outcome.sessions.len(), 1);
    let session = outcome.sessions.pop().unwrap();
    assert_eq!(session.inviter.id(), id(1));
    assert_eq!(session.invitee.id(), id(2));
    assert_eq!(session.inviter.outbound_invite(), Some(id(2)));
    assert_eq!(session.invitee.inbound_invite(), Some(id(1)));
    assert_eq!(session.inviter.into_connection(), "a");
    assert_eq!(session.invitee.into_connection(), "b");
    assert_eq!(players(&mut pool), vec![id(3)]);
    assert!(!pool.contains(id(1)));
    assert!(!pool.contains(id(2)));
    let after = Actor::on_tick(&mut pool);
    assert!(quiet(&after));
}

#[test]
fn invite_accepted_before_the_tick_is_notified_and_paired_at_once() {
    let mut pool: Pool<&'static str> = Pool::new();
    register(&mut pool, 1, "a");
    register(&mut pool, 2, "b");
    assert_eq!(invite(&mut pool, 1, 2), InviteOutcome::Recorded);
    assert_eq!(accept(&mut pool, 2), AcceptOutcome::Accepted);
    let outcome = Actor::on_tick(&mut pool);
    assert_eq!(outcome.notices, vec![Notice { target: id(2), inviter: id(1) }]);
    assert_eq!(outcome.sessions.len(), 1);
    assert!(outcome.sessions[0].invitee.notified_of_invite());
    assert!(pool.is_empty());
}

#[test]
fn accept_needs_a_player_with_an_invite() {
    let mut pool: Pool<&'static str> = Pool::new();
    register(&mut pool, 1, "a");
    assert_eq!(accept(&mut pool, 5), AcceptOutcome::PlayerNotFound);
    assert_eq!(accept(&mut pool, 1), AcceptOutcome::NoInvite);
    assert_eq!(state(&pool, 1), (None, None, false, false));
    let outcome = Actor::on_tick(&mut pool);
    assert!(quiet(&outcome));
    assert_eq!(players(&mut pool), vec![id(1)]);
}

#[test]
fn pairing_is_abandoned_when_the_inviter_is_gone() {
    let mut pool: Pool<&'static str> = Pool::new();
    register(&mut pool, 1, "a");
    register(&mut pool, 2, "b");
    assert_eq!(invite(&mut pool, 1, 2), InviteOutcome::Recorded);
    assert_eq!(accept(&mut pool, 2), AcceptOutcome::Accepted);
    assert!(pool.remove(id(1)).is_some());
    let outcome = Actor::on_tick(&mut pool);
    assert_eq!(outcome.notices.len(), 1);
    assert!(outcome.sessions.is_empty());
    assert_eq!(outcome.abandoned, vec![Pairing { inviter: id(1), invitee: id(2) }]);
    assert_eq!(players(&mut pool), vec![id(2)]);
    assert_eq!(state(&pool, 2), (None, Some(id(1)), true, true));
}

#[test]
fn one_inviter_is_paired_with_the_first_to_accept_in_pool_order() {
    let mut pool: Pool<&'static str> = Pool::new();
    register(&mut pool, 1, "a");
    register(&mut pool, 2, "b");
    register(&mut pool, 3, "c");
    assert_eq!(invite(&mut pool, 1, 2), InviteOutcome::Recorded);
    assert_eq!(invite(&mut pool, 1, 3), InviteOutcome::Recorded);
    assert_eq!(state(&pool, 1), (Some(id(3)), None, false, false));
    assert_eq!(accept(&mut pool, 3), AcceptOutcome::Accepted);
    assert_eq!(accept(&mut pool, 2), AcceptOutcome::Accepted);
    let outcome = Actor::on_tick(&mut pool);
    assert_eq!(
        outcome.notices,
        vec![
            Notice { target: id(2), inviter: id(1) },
            Notice { target: id(3), inviter: id(1) },
        ]
    );
    assert_eq!(outcome.sessions.len(), 1);
    assert_eq!(outcome.sessions[0].inviter.id(), id(1));
    assert_eq!(outcome.sessions[0].invitee.id(), id(2));
    assert_eq!(outcome.abandoned, vec![Pairing { inviter: id(1), invitee: id(3) }]);
    assert_eq!(players(&mut pool), vec![id(3)]);
}

#[test]
fn player_that_invited_itself_is_not_paired() {
    let mut pool: Pool<&'static str> = Pool::new();
    register(&mut pool, 1, "a");
    assert_eq!(invite(&mut pool, 1, 1), InviteOutcome::Recorded);
    assert_eq!(state(&pool, 1), (Some(id(1)), Some(id(1)), false, false));
    assert_eq!(accept(&mut pool, 1), AcceptOutcome::Accepted);
    let outcome = Actor::on_tick(&mut pool);
    assert_eq!(outcome.notices, vec![Notice { target: id(1), inviter: id(1) }]);
    assert!(outcome.sessions.is_empty());
    assert_eq!(outcome.abandoned, vec![Pairing { inviter: id(1), invitee: id(1) }]);
    assert_eq!(players(&mut pool), vec![id(1)]);
}

#[test]
fn two_pairs_leave_in_one_tick() {
    let mut pool: Pool<&'static str> = Pool::new();
    for (value, connection) in [(1u128, "a"), (2, "b"), (3, "c"), (4, "d"), (5, "e")] {
        register(&mut pool, value, connection);
    }
    assert_eq!(invite(&mut pool, 1, 4), InviteOutcome::Recorded);
    assert_eq!(invite(&mut pool, 5, 2), InviteOutcome::Recorded);
    assert_eq!(accept(&mut pool, 4), AcceptOutcome::Accepted);
    assert_eq!(accept(&mut pool, 2), AcceptOutcome::Accepted);
    let outcome = Actor::on_tick(&mut pool);
    assert_eq!(outcome.sessions.len(), 2);
    assert_eq!(outcome.sessions[0].inviter.id(), id(5));
    assert_eq!(outcome.sessions[0].invitee.id(), id(2));
    assert_eq!(*outcome.sessions[0].inviter.connection(), "e");
    assert_eq!(outcome.sessions[1].inviter.id(), id(1));
    assert_eq!(outcome.sessions[1].invitee.id(), id(4));
    assert!(outcome.abandoned.is_empty());
    assert_eq!(players(&mut pool), vec![id(3)]);
    assert_eq!(pool.len() + 2 * outcome.sessions.len(), 5);
}

#[test]
fn pool_steps_agree_with_the_actor() {
    let mut pool: Pool<&'static str> = Pool::new();
    assert!(pool.register(Player::with_id(id(1), "a")).is_none());
    assert!(pool.register(Player::with_id(id(2), "b")).is_none());
    assert_eq!(pool.invite(id(1), id(2)), InviteOutcome::Recorded);
    assert_eq!(pool.notify_pending(), vec![Notice { target: id(2), inviter: id(1) }]);
    assert!(pool.notify_pending().is_empty());
    assert!(pool.accepted_pairings().is_empty());
    assert_eq!(pool.accept(id(2)), AcceptOutcome::Accepted);
    let pairing = Pairing { inviter: id(1), invitee: id(2) };
    assert_eq!(pool.accepted_pairings(), vec![pairing]);
    assert!(pool.pair(Pairing { inviter: id(1), invitee: id(3) }).is_none());
    assert_eq!(pool.len(), 2);
    let session = pool.pair(pairing).expect("both players are in the pool");
    assert_eq!(session.inviter.id(), id(1));
    assert_eq!(session.invitee.id(), id(2));
    assert!(pool.is_empty());
    assert!(pool.pair(pairing).is_none());
}

#[test]
fn connection_can_be_written_before_registering() {
    let mut player = Player::with_id(id(3), String::from("c"));
    player.connection_mut().push_str("+welcome");
    assert_eq!(player.connection(), "c+welcome");
    assert_eq!(player.id(), id(3));
    assert_eq!(player.inbound_invite(), None);
    let mut pool: Pool<String> = Pool::new();
    assert!(pool.register(player).is_none());
    assert_eq!(pool.player(id(3)).unwrap().connection(), "c+welcome");
}

#[test]
fn connection_behind_a_cell_can_be_used_in_the_pool() {
    let mut pool: Pool<std::cell::RefCell<Vec<&'static str>>> = Pool::new();
    for value in 1..=2u128 {
        let fresh = Player::with_id(id(value), std::cell::RefCell::new(Vec::new()));
        assert!(pool.register(fresh).is_none());
    }
    assert_eq!(pool.invite(id(1), id(2)), InviteOutcome::Recorded);
    for notice in pool.notify_pending() {
        let target = pool.player(notice.target).expect("the target is in the pool");
        target.connection().borrow_mut().push("invited");
    }
    assert_eq!(*pool.player(id(2)).unwrap().connection().borrow(), vec!["invited"]);
    assert!(pool.player(id(1)).unwrap().connection().borrow().is_empty());
    assert_eq!(pool.player(id(2)).unwrap().inbound_invite(), Some(id(1)));
    assert_eq!(pool.list_players(), vec![id(1), id(2)]);
}

#[test]
fn new_player_gets_a_random_id() {
    let a = Player::new("a");
    let b = Player::new("b");
    assert_ne!(a.id(), b.id());
    assert_eq!(a.outbound_invite(), None);
    assert_eq!(a.inbound_invite(), None);
    assert!(!a.notified_of_invite());
    assert!(!a.accepted_invite());
    assert_eq!(*a.connection(), "a");
    let mut pool: Pool<&'static str> = Pool::new();
    let first = a.id();
    let second = b.id();
    assert!(pool.register(a).is_none());
    assert!(pool.register(b).is_none());
    assert_eq!(pool.list_players(), vec![first, second]);
}
