//! The bookkeeping of an encounter: who takes part, whose turn it is, and
//! what condition everyone is in.

pub mod common;
pub mod conditions;
pub mod damage;
pub mod duration;
pub mod expiry;
pub mod game;
pub mod lair;
pub mod monster;
pub mod participant;
pub mod player;
pub mod time;
