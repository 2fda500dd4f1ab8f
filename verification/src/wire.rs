//! Messages that the server sends to clients, each stamped with the instant
//! at which it was made.

use vstd::prelude::*;
use crate::player::{Player, PlayerId, ProfileView};
use crate::time::{elapsed_seconds, Age, Seconds, Timestamp};

verus! {

/// The profiles of a list as clients see them.
pub open spec fn profile_views(players: Seq<Player>) -> Seq<ProfileView> {
    players.map_values(|p: Player| p@)
}

/// The players that are connected.
#[derive(Debug, Clone)]
pub struct PlayerList {
    sent: Timestamp,
    content: Vec<Player>,
}

impl PlayerList {
    /// The instant at which the list was made.
    pub closed spec fn spec_sent(&self) -> Timestamp {
        self.sent
    }

    /// The profiles on the list, in order.
    pub closed spec fn spec_content(&self) -> Seq<ProfileView> {
        profile_views(self.content@)
    }

    /// The list of `content`, made now.
    pub fn new(content: Vec<Player>) -> (list: PlayerList)
        ensures
            list.spec_content() == profile_views(content@),
    {
        PlayerList::at(Timestamp::new(), content)
    }

    /// The list of `content`, made at the instant `sent`.
    pub fn at(sent: Timestamp, content: Vec<Player>) -> (list: PlayerList)
        ensures
            list.spec_sent() == sent,
            list.spec_content() == profile_views(content@),
    {
        PlayerList { sent, content }
    }

    /// The instant at which the list was made.
    pub fn sent(&self) -> (sent: Timestamp)
        ensures
            sent == self.spec_sent(),
    {
        self.sent
    }

    /// The profiles on the list.
    pub fn content(&self) -> (content: &Vec<Player>)
        ensures
            profile_views(content@) == self.spec_content(),
    {
        &self.content
    }

    /// Gives up the list and hands out its profiles.
    pub fn into_content(self) -> (content: Vec<Player>)
        ensures
            profile_views(content@) == self.spec_content(),
    {
        self.content
    }
}

impl AsRef<Timestamp> for PlayerList {
    fn as_ref(&self) -> (sent: &Timestamp)
        ensures
            *sent == self.spec_sent(),
    {
        &self.sent
    }
}

impl Age for PlayerList {
    open spec fn sent_at(&self) -> Timestamp {
        self.spec_sent()
    }

    fn age(&self) -> (age: Seconds) {
        let now = Timestamp::new();
        let age = self.sent.age_at(&now);
        assert(age@ == elapsed_seconds(self.sent_at()@, now@));
        age
    }
}

/// Tells a client that the player `sender` has invited it to play.
#[derive(Debug, Clone)]
pub struct Invited {
    sent: Timestamp,
    sender: Player,
}

impl Invited {
    /// The instant at which the notice was made.
    pub closed spec fn spec_sent(&self) -> Timestamp {
        self.sent
    }

    /// The inviting player.
    pub closed spec fn spec_sender(&self) -> ProfileView {
        self.sender@
    }

    /// The notice of an invite by `sender`, made now.
    pub fn new(sender: Player) -> (notice: Invited)
        ensures
            notice.spec_sender() == sender@,
    {
        Invited::at(Timestamp::new(), sender)
    }

    /// The notice of an invite by `sender`, made at the instant `sent`.
    pub fn at(sent: Timestamp, sender: Player) -> (notice: Invited)
        ensures
            notice.spec_sent() == sent,
            notice.spec_sender() == sender@,
    {
        Invited { sent, sender }
    }

    /// The instant at which the notice was made.
    pub fn sent(&self) -> (sent: Timestamp)
        ensures
            sent == self.spec_sent(),
    {
        self.sent
    }

    /// The inviting player.
    pub fn sender(&self) -> (sender: &Player)
        ensures
            sender@ == self.spec_sender(),
    {
        &self.sender
    }
}

impl AsRef<Timestamp> for Invited {
    fn as_ref(&self) -> (sent: &Timestamp)
        ensures
            *sent == self.spec_sent(),
    {
        &self.sent
    }
}

impl Age for Invited {
    open spec fn sent_at(&self) -> Timestamp {
        self.spec_sent()
    }

    fn age(&self) -> (age: Seconds) {
        let now = Timestamp::new();
        let age = self.sent.age_at(&now);
        assert(age@ == elapsed_seconds(self.sent_at()@, now@));
        age
    }
}

/// Tells a client to drop any invite from the player `player_id`.
#[derive(Debug, Clone)]
pub struct RetractInvite {
    sent: Timestamp,
    player_id: PlayerId,
}

impl RetractInvite {
    /// The instant at which the message was made.
    pub closed spec fn spec_sent(&self) -> Timestamp {
        self.sent
    }

    /// The player whose invites are withdrawn.
    pub closed spec fn spec_player_id(&self) -> PlayerId {
        self.player_id
    }

    /// The withdrawal of the invites of `player_id`, made now.
    pub fn new(player_id: PlayerId) -> (message: RetractInvite)
        ensures
            message.spec_player_id() == player_id,
    {
        RetractInvite::at(Timestamp::new(), player_id)
    }

    /// The withdrawal of the invites of `player_id`, made at the instant
    /// `sent`.
    pub fn at(sent: Timestamp, player_id: PlayerId) -> (message: RetractInvite)
        ensures
            message.spec_sent() == sent,
            message.spec_player_id() == player_id,
    {
        RetractInvite { sent, player_id }
    }

    /// The instant at which the message was made.
    pub fn sent(&self) -> (sent: Timestamp)
        ensures
            sent == self.spec_sent(),
    {
        self.sent
    }

    /// The player whose invites are withdrawn.
    pub fn player_id(&self) -> (player_id: PlayerId)
        ensures
            player_id == self.spec_player_id(),
    {
        self.player_id
    }
}

/// Messages that originate from the server.
#[derive(Debug, Clone)]
pub enum Server {
    /// The member pool has changed.
    PlayerList(PlayerList),
    /// Another player has invited the client to play.
    Invited(Invited),
    /// Invites from the attached player are to be dropped.
    RetractInvite(RetractInvite),
}

} // verus!
