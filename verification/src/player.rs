//! Player identifiers and the public profile of a player.

use vstd::prelude::*;

verus! {

/// Bits of a 128-bit identifier that hold its version and its variant.
pub const VERSION_VARIANT_MASK: u128 = 0x0000_0000_0000_f000_c000_0000_0000_0000;

/// Value of those bits in a random (version 4) identifier.
pub const RANDOM_VERSION_VARIANT: u128 = 0x0000_0000_0000_4000_8000_0000_0000_0000;

/// Length of an identifier's text form.
pub const ID_TEXT_LEN: usize = 36;

/// Whether `value` is marked as a random identifier: version 4, RFC variant.
pub open spec fn is_random_id(value: u128) -> bool {
    value & VERSION_VARIANT_MASK == RANDOM_VERSION_VARIANT
}

/// The lower-case hexadecimal digit for `nibble`, which is below 16.
pub open spec fn hex_digit(nibble: int) -> char {
    if nibble < 10 {
        (nibble + 48) as char
    } else {
        (nibble + 87) as char
    }
}

/// Whether position `i` of an identifier's text form holds a hyphen.
pub open spec fn is_hyphen_position(i: int) -> bool {
    i == 8 || i == 13 || i == 18 || i == 23
}

/// How many hyphens stand before position `i` of an identifier's text form.
pub open spec fn hyphens_before(i: int) -> int {
    if i < 8 {
        0
    } else if i < 13 {
        1
    } else if i < 18 {
        2
    } else if i < 23 {
        3
    } else {
        4
    }
}

/// Digit `k` of `value` written as 32 hexadecimal digits, most significant
/// first.
pub open spec fn nibble_at(value: u128, k: int) -> int {
    ((value as int) / vstd::arithmetic::power::pow(16, (31 - k) as nat)) % 16
}

/// The text form of an identifier: 32 lower-case hexadecimal digits, most
/// significant first, in groups of 8, 4, 4, 4 and 12 separated by hyphens.
pub open spec fn id_text(value: u128) -> Seq<char> {
    Seq::new(
        ID_TEXT_LEN as nat,
        |i: int|
            if is_hyphen_position(i) {
                '-'
            } else {
                hex_digit(nibble_at(value, i - hyphens_before(i)))
            },
    )
}

/// Draws a random identifier with `uuid::Uuid::new_v4` and returns it as the
/// 128-bit number that `uuid::Uuid::as_u128` gives. Of the bits only the
/// version and the variant are claimed: the rest is the random source's.
/// The call fails the process if the system has no random source.
#[verifier::external_body]
fn random_uuid() -> (value: u128)
    ensures
        is_random_id(value),
{
    uuid::Uuid::new_v4().as_u128()
}

/// Formats a 128-bit identifier with the `Display` of `uuid::Uuid`, built by
/// `uuid::Uuid::from_u128`: the hyphenated lower-case form.
#[verifier::external_body]
fn uuid_text(value: u128) -> (text: String)
    ensures
        text@ == id_text(value),
{
    uuid::Uuid::from_u128(value).to_string()
}

/// Unique identifier of a player: an opaque 128-bit value.
#[derive(Debug, Clone, Copy, PartialEq, Eq, Structural, Hash)]
pub struct PlayerId {
    value: u128,
}

impl View for PlayerId {
    type V = u128;

    closed spec fn view(&self) -> u128 {
        self.value
    }
}

impl PlayerId {
    /// The identifier with the given 128-bit value.
    pub fn from_u128(value: u128) -> (id: PlayerId)
        ensures
            id@ == value,
    {
        PlayerId { value }
    }

    /// The identifier's 128-bit value.
    pub fn as_u128(&self) -> (value: u128)
        ensures
            value == self@,
    {
        self.value
    }

    /// The identifier's text form, as sent to clients.
    pub fn to_string(&self) -> (text: String)
        ensures
            text@ == id_text(self@),
    {
        uuid_text(self.value)
    }

    /// Two identifiers are the same exactly if their values are.
    pub proof fn lemma_eq_by_value(a: PlayerId, b: PlayerId)
        ensures
            (a == b) <==> (a@ == b@),
    {
    }
}

impl Default for PlayerId {
    /// A fresh random identifier.
    fn default() -> (id: PlayerId)
        ensures
            is_random_id(id@),
    {
        PlayerId { value: random_uuid() }
    }
}

/// What clients see of a player.
pub struct ProfileView {
    pub id: PlayerId,
    pub display_name: Option<Seq<char>>,
}

/// The public profile of a player: its identifier and, if it chose one, the
/// name it shows.
#[derive(Debug, Clone)]
pub struct Player {
    id: PlayerId,
    display_name: Option<String>,
}

impl View for Player {
    type V = ProfileView;

    closed spec fn view(&self) -> ProfileView {
        ProfileView {
            id: self.id,
            display_name: match self.display_name {
                Some(name) => Some(name@),
                None => None,
            },
        }
    }
}

impl Player {
    /// A profile with a fresh random identifier and no name.
    pub fn new() -> (player: Player)
        ensures
            is_random_id(player@.id@),
            player@.display_name is None,
    {
        Player::from_parts(PlayerId::default(), None)
    }

    /// The profile of the player `id` with the name `display_name`.
    pub fn from_parts(id: PlayerId, display_name: Option<String>) -> (player: Player)
        ensures
            player@.id == id,
            player@.display_name == match display_name {
                Some(name) => Some(name@),
                None => None,
            },
    {
        Player { id, display_name }
    }

    /// The player's identifier.
    pub fn id(&self) -> (id: PlayerId)
        ensures
            id == self@.id,
    {
        self.id
    }

    /// The name the player shows, if it chose one.
    pub fn display_name(&self) -> (name: Option<&str>)
        ensures
            match name {
                Some(text) => self@.display_name == Some(text@),
                None => self@.display_name is None,
            },
    {
        match &self.display_name {
            Some(name) => Some(name.as_str()),
            None => None,
        }
    }
}

} // verus!
