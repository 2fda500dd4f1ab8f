//! Matchmaking core of a small multiplayer lobby.
//!
//! Players register with a connection, invite each other and accept; a
//! periodic tick tells the invited and hands each accepted pair over to a
//! game session. The library decides what a message or a tick does to the
//! pool of players and what is owed to the outside afterwards; the program
//! around it owns the connections' transport and the clock's rhythm.
//!
//! * [`actor`]: the actor's two entry points, one per message and one per
//!   tick, with the messages and their answers.
//! * [`pool`]: the pool of players and the steps that change it.
//! * [`model`] and [`tick`]: what those steps mean, on a sequence of members.
//! * [`laws`]: what holds of the pool after any run of events.
//! * [`player`]: player identifiers and public profiles.
//! * [`time`] and [`wire`]: send times, and the messages sent to clients.

pub mod actor;
pub mod laws;
pub mod model;
pub mod player;
pub mod pool;
pub mod tick;
pub mod time;
pub mod wire;
