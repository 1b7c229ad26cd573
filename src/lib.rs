//! Authentication and matchmaking rooms for a two-player game server.
//!
//! `store` keeps the user records; `auth` registers users, checks passwords
//! and issues and verifies signed session tokens, through the hashing, random
//! and signing calls of `primitives`; `game` and `events` hold the room registry, whose
//! rooms go from pending (one player) to active (two players) exactly once.
use vstd::prelude::*;

pub mod auth;
pub mod events;
pub mod game;
pub mod primitives;
pub mod store;

verus! {

} // verus!
