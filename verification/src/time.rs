//! Send times of messages and their age in whole seconds.

use vstd::prelude::*;
use vstd::std_specs::convert::FromSpecImpl;

verus! {

/// Nanoseconds in one second.
pub const NANOS_PER_SECOND: u32 = 1_000_000_000;

/// The whole seconds that passed from the instant `then` to the instant
/// `now`, both in nanoseconds since the Unix epoch; zero if `now` is not
/// later.
pub open spec fn elapsed_seconds(then: int, now: int) -> nat {
    if now <= then {
        0
    } else {
        ((now - then) / (NANOS_PER_SECOND as int)) as nat
    }
}

/// Reads the clock with `chrono::Utc::now` and returns the seconds since the
/// Unix epoch (`timestamp`) and the nanoseconds into that second
/// (`timestamp_subsec_nanos`). `Utc::now` takes the time that has passed
/// since the Unix epoch from the system clock and fails the process if the
/// clock stands before the epoch, so the seconds are not negative. The
/// system time knows no leap second, so the nanoseconds stay below one
/// second.
#[verifier::external_body]
fn utc_now() -> (parts: (i64, u32))
    ensures
        0 <= parts.0,
        parts.1 < NANOS_PER_SECOND,
{
    let now = chrono::Utc::now();
    (now.timestamp(), now.timestamp_subsec_nanos())
}

/// A number of whole seconds.
#[derive(Debug, Clone, Copy, PartialEq, Eq, Structural)]
pub struct Seconds(u64);

impl View for Seconds {
    type V = nat;

    closed spec fn view(&self) -> nat {
        self.0 as nat
    }
}

impl Seconds {
    /// The number of seconds as a plain integer.
    pub fn into_inner(self) -> (inner: u64)
        ensures
            inner == self@,
    {
        self.0
    }
}

impl FromSpecImpl<Seconds> for u64 {
    open spec fn obeys_from_spec() -> bool {
        true
    }

    open spec fn from_spec(seconds: Seconds) -> u64 {
        seconds@ as u64
    }
}

impl From<Seconds> for u64 {
    fn from(seconds: Seconds) -> (inner: u64) {
        seconds.0
    }
}

/// An instant: seconds since the Unix epoch and nanoseconds into that
/// second, which stay below one second.
#[derive(Debug, Clone, Copy, PartialEq, Eq, Structural)]
pub struct Timestamp {
    secs: i64,
    nanos: u32,
}

impl View for Timestamp {
    type V = int;

    /// The instant in nanoseconds since the Unix epoch.
    closed spec fn view(&self) -> int {
        self.secs * (NANOS_PER_SECOND as int) + self.nanos
    }
}

impl Timestamp {
    #[verifier::type_invariant]
    closed spec fn subsecond(self) -> bool {
        self.nanos < NANOS_PER_SECOND
    }

    /// The current instant by the clock, which does not stand before the
    /// Unix epoch.
    pub fn new() -> (timestamp: Timestamp)
        ensures
            timestamp@ >= 0,
    {
        let (secs, nanos) = utc_now();
        Timestamp { secs, nanos }
    }

    /// The instant `nanos` nanoseconds after second `secs` of the Unix
    /// epoch, if `nanos` is less than a second.
    pub fn from_parts(secs: i64, nanos: u32) -> (timestamp: Option<Timestamp>)
        ensures
            timestamp is Some == (nanos < NANOS_PER_SECOND),
            timestamp matches Some(t) ==> t@ == secs * (NANOS_PER_SECOND as int) + nanos,
    {
        if nanos < NANOS_PER_SECOND {
            Some(Timestamp { secs, nanos })
        } else {
            None
        }
    }

    /// The whole seconds since the Unix epoch, rounded down.
    pub fn secs(&self) -> (secs: i64)
        ensures
            secs == self@ / (NANOS_PER_SECOND as int),
    {
        proof {
            use_type_invariant(self);
            assert((self.secs * 1_000_000_000 + self.nanos) / 1_000_000_000 == self.secs) by {
                vstd::arithmetic::div_mod::lemma_fundamental_div_mod_converse(
                    self.secs * 1_000_000_000 + self.nanos,
                    1_000_000_000,
                    self.secs as int,
                    self.nanos as int,
                );
            }
        }
        self.secs
    }

    /// The nanoseconds into the current second.
    pub fn subsec_nanos(&self) -> (nanos: u32)
        ensures
            nanos == self@ % (NANOS_PER_SECOND as int),
            nanos < NANOS_PER_SECOND,
    {
        proof {
            use_type_invariant(self);
            assert((self.secs * 1_000_000_000 + self.nanos) % 1_000_000_000 == self.nanos) by {
                vstd::arithmetic::div_mod::lemma_fundamental_div_mod_converse(
                    self.secs * 1_000_000_000 + self.nanos,
                    1_000_000_000,
                    self.secs as int,
                    self.nanos as int,
                );
            }
        }
        self.nanos
    }

    /// The whole seconds that passed from this instant to `now`; zero if
    /// `now` is not later.
    pub fn age_at(&self, now: &Timestamp) -> (age: Seconds)
        ensures
            age@ == elapsed_seconds(self@, now@),
    {
        proof {
            use_type_invariant(self);
            use_type_invariant(now);
        }
        let then_nanos: i128 = self.secs as i128 * 1_000_000_000 + self.nanos as i128;
        let now_nanos: i128 = now.secs as i128 * 1_000_000_000 + now.nanos as i128;
        if now_nanos <= then_nanos {
            Seconds(0)
        } else {
            let whole: i128 = (now_nanos - then_nanos) / 1_000_000_000;
            assert(whole <= u64::MAX) by {
                assert(now_nanos - then_nanos <= (u64::MAX as int) * 1_000_000_000
                    + 999_999_999);
            }
            Seconds(whole as u64)
        }
    }

    /// The whole seconds since this instant, by the clock.
    pub fn age(&self) -> (age: Seconds)
        ensures
            exists|now: Timestamp| age@ == #[trigger] elapsed_seconds(self@, now@),
    {
        let now = Timestamp::new();
        let age = self.age_at(&now);
        assert(age@ == elapsed_seconds(self@, now@));
        age
    }
}

impl Default for Timestamp {
    /// The current instant.
    fn default() -> Timestamp {
        Timestamp::new()
    }
}

/// Something that was sent at a known instant and so has an age.
pub trait Age {
    /// The instant at which it was sent.
    spec fn sent_at(&self) -> Timestamp;

    /// The whole seconds since it was sent, by the clock.
    fn age(&self) -> (age: Seconds)
        ensures
            exists|now: Timestamp| age@ == #[trigger] elapsed_seconds(self.sent_at()@, now@),
    ;
}

} // verus!
