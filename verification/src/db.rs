//! The records of the campaign database.

pub mod monsters;
pub mod parties;
pub mod players;
