//! Monsters, their hit points and their conditions.

use vstd::prelude::*;
use vstd::string::*;
use crate::dice::DiceExpr;
use crate::game::common::Stats;
use crate::game::conditions::{named, Condition, ConditionView, BLOODIED, DEAD};
use crate::game::damage::{Damage, Healing};
use crate::game::participant::Action;
use crate::game::time::Time;
use crate::num::{div_toward_zero, quotient};
use crate::text::equal;

verus! {

/// A monster as the campaign knows it.
#[derive(Debug, Clone)]
pub struct MonsterDef {
    pub name: String,
    pub subtype: String,
    pub stats: Stats,
    pub cr: u32,
    pub ac: u32,
    pub initiative_bonus: u32,
    pub hit_dice: DiceExpr,
    pub legendary_actions: u32,
    pub small_portrait: Option<String>,
    pub full_portrait: Option<String>,
    pub notes: String,
}

/// A monster in an encounter.
#[derive(Debug, Clone)]
pub struct Monster {
    pub name: String,
    pub subtype: String,
    pub stats: Stats,
    pub cr: u32,
    pub ac: u32,
    pub initiative_bonus: u32,
    pub small_portrait: Option<String>,
    pub full_portrait: Option<String>,
    pub hit_dice: DiceExpr,
    pub initiative: u32,
    pub action: bool,
    pub hp: i32,
    pub temp_hp: i32,
    pub max_hp: i32,
    pub reaction: bool,
    pub bonus_action: bool,
    pub legendary_actions: Vec<bool>,
    pub legendary_action_count: u32,
    pub notes: String,
    pub tiebreaker: i32,
    pub conditions: Vec<Condition>,
    pub is_hostile: bool,
}

/// The conditions as plain values.
pub open spec fn views(conditions: Seq<Condition>) -> Seq<ConditionView> {
    Seq::new(conditions.len(), |i: int| conditions[i]@)
}

/// Whether one of `conditions` is called `name`.
pub open spec fn holds(conditions: Seq<ConditionView>, name: Seq<char>) -> bool {
    exists|i: int| 0 <= i < conditions.len() && (#[trigger] conditions[i]).name == name
}

/// `conditions` with the condition called `name`, beginning at `time`, added
/// at the end if `wanted` and none of that name is there yet.
pub open spec fn marked(
    conditions: Seq<ConditionView>,
    name: Seq<char>,
    time: Time,
    wanted: bool,
) -> Seq<ConditionView> {
    if wanted && !holds(conditions, name) {
        conditions.push(named(name, time))
    } else {
        conditions
    }
}

/// `conditions` without those called `name`, the others in their order.
pub open spec fn without(conditions: Seq<Condition>, name: Seq<char>) -> Seq<Condition>
    decreases conditions.len(),
{
    if conditions.len() == 0 {
        conditions
    } else if conditions.last().name@ == name {
        without(conditions.drop_last(), name)
    } else {
        without(conditions.drop_last(), name).push(conditions.last())
    }
}

/// The hit points that `damage` takes, before temporary hit points: the
/// amount, half of it rounded down, or twice it. A kill takes none by count.
pub open spec fn dealt(damage: Damage) -> int {
    match damage {
        Damage::Damage { amount } => amount as int,
        Damage::HalfDamage { amount } => amount as int / 2,
        Damage::DoubleDamage { amount } => amount as int * 2,
        Damage::Kill => 0,
    }
}

/// The temporary hit points left after `amount` damage: the damage comes
/// off them first.
pub open spec fn temp_after(temp_hp: int, amount: int) -> int {
    if temp_hp > 0 {
        if amount < temp_hp {
            temp_hp - amount
        } else {
            0
        }
    } else {
        temp_hp
    }
}

/// The hit points left after `amount` damage: what the temporary hit points
/// do not take comes off them, and they stop at `i32::MIN`.
pub open spec fn hp_after(hp: int, temp_hp: int, amount: int) -> int {
    let rest = if temp_hp > 0 {
        if amount < temp_hp {
            0
        } else {
            amount - temp_hp
        }
    } else {
        amount
    };
    if hp - rest < i32::MIN {
        i32::MIN as int
    } else {
        hp - rest
    }
}

/// The hit points after healing: healing raises them from no less than 0
/// and not past the maximum; the two settings leave them or set them.
pub open spec fn hp_healed(hp: int, max_hp: int, healing: Healing) -> int {
    match healing {
        Healing::Heal { amount } => {
            let raised = (if hp > 0 {
                hp
            } else {
                0
            }) + amount;
            if raised < max_hp {
                raised
            } else {
                max_hp
            }
        },
        Healing::SetHp { amount } => amount as int,
        Healing::SetTempHp { .. } => hp,
    }
}

fn has_named(conditions: &Vec<Condition>, name: &str) -> (b: bool)
    ensures
        b == holds(views(conditions@), name@),
{
    let mut i: usize = 0;
    while i < conditions.len()
        invariant
            i <= conditions.len(),
            forall|j: int| 0 <= j < i ==> (#[trigger] views(conditions@)[j]).name != name@,
        decreases conditions.len() - i,
    {
        if equal(conditions[i].name.as_str(), name) {
            assert(views(conditions@)[i as int].name == name@);
            return true;
        }
        i = i + 1;
    }
    false
}

fn retain_others(conditions: &mut Vec<Condition>, name: &str)
    ensures
        final(conditions)@ == without(old(conditions)@, name@),
{
    let mut kept: Vec<Condition> = Vec::new();
    let mut i: usize = 0;
    while i < conditions.len()
        invariant
            i <= conditions.len(),
            conditions@ == old(conditions)@,
            kept@ == without(conditions@.take(i as int), name@),
        decreases conditions.len() - i,
    {
        assert(conditions@.take(i as int + 1).drop_last() =~= conditions@.take(i as int));
        if !equal(conditions[i].name.as_str(), name) {
            kept.push(conditions[i].clone());
        }
        i = i + 1;
    }
    assert(conditions@.take(conditions.len() as int) =~= conditions@);
    *conditions = kept;
}

fn mark(conditions: &mut Vec<Condition>, name: &str, time: Time, wanted: bool)
    ensures
        views(final(conditions)@) == marked(views(old(conditions)@), name@, time, wanted),
{
    if wanted && !has_named(conditions, name) {
        conditions.push(Condition::new(String::from_str(name), time));
        assert(views(conditions@) =~= views(old(conditions)@).push(named(name@, time)));
    }
}

impl Monster {
    /// Whether `self` is `before` with the action, the reaction, the bonus
    /// action and every legendary action given back, and nothing else
    /// changed.
    pub open spec fn refreshed(self, before: Monster) -> bool {
        &&& self == (Monster {
            action: true,
            reaction: true,
            bonus_action: true,
            legendary_actions: self.legendary_actions,
            ..before
        })
        &&& self.legendary_actions.len() == before.legendary_actions.len()
        &&& forall|i: int| 0 <= i < self.legendary_actions.len() ==> self.legendary_actions[i]
    }

    /// Gives the monster back the action, the reaction, the bonus action and
    /// every legendary action.
    pub fn begin_turn(&mut self)
        ensures
            final(self).refreshed(*old(self)),
    {
        self.action = true;
        self.reaction = true;
        self.bonus_action = true;
        let mut i: usize = 0;
        while i < self.legendary_actions.len()
            invariant
                i <= self.legendary_actions.len(),
                self.legendary_actions.len() == old(self).legendary_actions.len(),
                forall|j: int| 0 <= j < i ==> self.legendary_actions[j],
                *self == (Monster {
                    action: true,
                    reaction: true,
                    bonus_action: true,
                    legendary_actions: self.legendary_actions,
                    ..*old(self)
                }),
            decreases self.legendary_actions.len() - i,
        {
            self.legendary_actions.set(i, true);
            i = i + 1;
        }
    }

    /// Ends the monster's turn, which changes nothing.
    pub fn end_turn(&mut self)
        ensures
            *final(self) == *old(self),
    {
    }

    /// Whether the monster is in the condition called `condition_name`.
    pub fn has_condition(&self, condition_name: &str) -> (b: bool)
        ensures
            b == holds(views(self.conditions@), condition_name@),
    {
        has_named(&self.conditions, condition_name)
    }

    /// Marks one of the monster's actions as available or used. A legendary
    /// action is named by its index, which must be one the monster has.
    pub fn set_action(&mut self, action: Action, available: bool) -> (r: Result<(), ()>)
        requires
            action matches Action::Legendary { index } ==> index < old(self).legendary_actions.len(),
        ensures
            r is Ok,
            match action {
                Action::Standard => *final(self) == (Monster { action: available, ..*old(self) }),
                Action::Bonus => *final(self) == (Monster {
                    bonus_action: available,
                    ..*old(self)
                }),
                Action::Reaction => *final(self) == (Monster {
                    reaction: available,
                    ..*old(self)
                }),
                Action::Legendary { index } => *final(self) == (Monster {
                    legendary_actions: final(self).legendary_actions,
                    ..*old(self)
                }) && final(self).legendary_actions@ == old(self).legendary_actions@.update(
                    index as int,
                    available,
                ),
            },
    {
        match action {
            Action::Standard => {
                self.action = available;
            },
            Action::Bonus => {
                self.bonus_action = available;
            },
            Action::Reaction => {
                self.reaction = available;
            },
            Action::Legendary { index } => {
                self.legendary_actions.set(index, available);
            },
        }
        Ok(())
    }

    /// Deals `damage` to the monster at `time`. Damage comes off the
    /// temporary hit points first and off the hit points after that. A
    /// monster at half its maximum or below becomes bloodied, one at 0 or
    /// below dead, unless it is so already. A kill sets both kinds of hit
    /// points to 0 and leaves the monster bloodied and dead.
    pub fn damage(&mut self, time: Time, damage: Damage)
        requires
            dealt(damage) <= i32::MAX,
        ensures
            final(self).temp_hp == (if damage is Kill {
                0
            } else {
                temp_after(old(self).temp_hp as int, dealt(damage))
            }),
            final(self).hp == (if damage is Kill {
                0
            } else {
                hp_after(old(self).hp as int, old(self).temp_hp as int, dealt(damage))
            }),
            views(final(self).conditions@) == marked(
                marked(
                    views(old(self).conditions@),
                    BLOODIED@,
                    time,
                    damage is Kill || final(self).hp <= div_toward_zero(old(self).max_hp as int, 2),
                ),
                DEAD@,
                time,
                damage is Kill || final(self).hp <= 0,
            ),
            *final(self) == (Monster {
                hp: final(self).hp,
                temp_hp: final(self).temp_hp,
                conditions: final(self).conditions,
                ..*old(self)
            }),
    {
        let damage_amount: i32 = match damage {
            Damage::Damage { amount } => amount as i32,
            Damage::HalfDamage { amount } => (amount / 2) as i32,
            Damage::DoubleDamage { amount } => {
                assert(amount as int * 2 <= i32::MAX);
                (amount * 2) as i32
            },
            Damage::Kill => {
                self.hp = 0;
                self.temp_hp = 0;
                mark(&mut self.conditions, BLOODIED, time, true);
                mark(&mut self.conditions, DEAD, time, true);
                return ;
            },
        };
        let remaining: i32 = if self.temp_hp > 0 {
            let temp_damage: i32 = if damage_amount < self.temp_hp {
                damage_amount
            } else {
                self.temp_hp
            };
            self.temp_hp = self.temp_hp - temp_damage;
            damage_amount - temp_damage
        } else {
            damage_amount
        };
        self.hp = if (self.hp as i64) - (remaining as i64) < (i32::MIN as i64) {
            i32::MIN
        } else {
            self.hp - remaining
        };
        let bloodied = self.hp <= quotient(self.max_hp, 2);
        mark(&mut self.conditions, BLOODIED, time, bloodied);
        let dead = self.hp <= 0;
        mark(&mut self.conditions, DEAD, time, dead);
    }

    /// Heals the monster, or sets its hit points or its temporary hit
    /// points. A monster left above 0 is no longer dead, and one left above
    /// half its maximum is no longer bloodied.
    pub fn heal(&mut self, healing: Healing)
        requires
            match healing {
                Healing::Heal { amount } => (if old(self).hp > 0 {
                    old(self).hp as int
                } else {
                    0
                }) + amount <= i32::MAX,
                Healing::SetHp { amount } => amount <= i32::MAX,
                Healing::SetTempHp { amount } => amount <= i32::MAX,
            },
        ensures
            final(self).hp == hp_healed(old(self).hp as int, old(self).max_hp as int, healing),
            final(self).temp_hp == (match healing {
                Healing::SetTempHp { amount } => amount as int,
                _ => old(self).temp_hp as int,
            }),
            final(self).conditions@ == ({
                let alive = if final(self).hp > 0 {
                    without(old(self).conditions@, DEAD@)
                } else {
                    old(self).conditions@
                };
                if final(self).hp > div_toward_zero(old(self).max_hp as int, 2) {
                    without(alive, BLOODIED@)
                } else {
                    alive
                }
            }),
            *final(self) == (Monster {
                hp: final(self).hp,
                temp_hp: final(self).temp_hp,
                conditions: final(self).conditions,
                ..*old(self)
            }),
    {
        match healing {
            Healing::Heal { amount } => {
                let base: i32 = if self.hp > 0 {
                    self.hp
                } else {
                    0
                };
                let raised: i32 = base + amount as i32;
                self.hp = if raised < self.max_hp {
                    raised
                } else {
                    self.max_hp
                };
            },
            Healing::SetHp { amount } => {
                self.hp = amount as i32;
            },
            Healing::SetTempHp { amount } => {
                self.temp_hp = amount as i32;
            },
        }
        if self.hp > 0 {
            retain_others(&mut self.conditions, DEAD);
        }
        if self.hp > quotient(self.max_hp, 2) {
            retain_others(&mut self.conditions, BLOODIED);
        }
    }
}

} // verus!
