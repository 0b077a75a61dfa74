//! What can be done to a participant's hit points.

use vstd::prelude::*;

verus! {

/// Damage dealt to a participant.
#[derive(Debug, Clone, Copy, PartialEq, Eq, Hash, Structural)]
pub enum Damage {
    Damage { amount: u32 },
    HalfDamage { amount: u32 },
    DoubleDamage { amount: u32 },
    Kill,
}

/// Healing done to a participant.
#[derive(Debug, Clone, Copy, PartialEq, Eq, Hash, Structural)]
pub enum Healing {
    Heal { amount: u32 },
    SetHp { amount: u32 },
    SetTempHp { amount: u32 },
}

} // verus!
