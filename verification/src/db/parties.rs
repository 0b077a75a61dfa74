//! Parties as the campaign database keeps them.

use vstd::prelude::*;

verus! {

/// A party (group of players) stored in the database.
#[derive(Debug, Clone)]
pub struct PartyRecord {
    /// Database ID.
    pub id: i64,
    pub name: String,
}

/// Data for creating or updating a party.
#[derive(Debug, Clone)]
pub struct PartyData {
    pub name: String,
}

} // verus!
