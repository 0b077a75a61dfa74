//! Player characters as the campaign database keeps them.

use vstd::prelude::*;

verus! {

/// A player character stored in the database.
#[derive(Debug, Clone)]
pub struct PlayerRecord {
    /// Database ID.
    pub id: i64,
    /// Party ID (nullable).
    pub party_id: Option<i64>,
    pub name: String,
    pub str: i32,
    pub dex: i32,
    pub con: i32,
    pub int: i32,
    pub wis: i32,
    pub cha: i32,
    /// Armor class.
    pub ac: i32,
    pub initiative_bonus: i32,
    /// Portrait base name (without path or extension).
    pub portrait: Option<String>,
    pub notes: Option<String>,
}

/// A player class entry (for multiclass support).
#[derive(Debug, Clone)]
pub struct PlayerClassRecord {
    /// Database ID.
    pub id: i64,
    /// Player ID this class belongs to.
    pub player_id: i64,
    pub name: String,
    /// Level in this class.
    pub level: i32,
}

/// Data for creating or updating a player.
#[derive(Debug, Clone)]
pub struct PlayerData {
    pub party_id: Option<i64>,
    pub name: String,
    pub str: i32,
    pub dex: i32,
    pub con: i32,
    pub int: i32,
    pub wis: i32,
    pub cha: i32,
    pub ac: i32,
    pub initiative_bonus: i32,
    pub portrait: Option<String>,
    pub notes: Option<String>,
}

/// Data for creating or updating a player class.
#[derive(Debug, Clone)]
pub struct PlayerClassData {
    pub name: String,
    pub level: i32,
}

} // verus!
