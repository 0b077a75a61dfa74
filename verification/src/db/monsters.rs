//! Monsters as the campaign database keeps them.

use vstd::prelude::*;

verus! {

/// A monster template stored in the database.
#[derive(Debug, Clone)]
pub struct MonsterRecord {
    /// Database ID.
    pub id: i64,
    pub name: String,
    /// Monster subtype (e.g., "Small Humanoid (Goblin)").
    pub subtype: String,
    pub str: u32,
    pub dex: u32,
    pub con: u32,
    pub int: u32,
    pub wis: u32,
    pub cha: u32,
    /// Challenge rating.
    pub cr: u32,
    /// Armor class.
    pub ac: u32,
    pub initiative_bonus: i32,
    /// Hit dice expression (e.g., "3d6+3").
    pub hit_dice: String,
    /// Number of legendary actions per round.
    pub legendary_actions: i32,
    /// Portrait base name (without path or extension).
    pub portrait: Option<String>,
    pub notes: Option<String>,
}

/// Data for creating or updating a monster.
#[derive(Debug, Clone)]
pub struct MonsterData {
    pub name: String,
    pub subtype: String,
    pub str: u32,
    pub dex: u32,
    pub con: u32,
    pub int: u32,
    pub wis: u32,
    pub cha: u32,
    pub cr: u32,
    pub ac: u32,
    pub initiative_bonus: u32,
    pub hit_dice: String,
    pub legendary_actions: u32,
    pub portrait: Option<String>,
    pub notes: Option<String>,
}

} // verus!
