//! Player characters.

use vstd::prelude::*;
use crate::game::common::{Class, Stats};
use crate::game::conditions::Condition;
use crate::game::participant::Action;

verus! {

/// A player character as the campaign knows it.
#[derive(Debug, Clone)]
pub struct PlayerDef {
    pub name: String,
    pub classes: Vec<Class>,
    pub stats: Stats,
    pub ac: u32,
    pub initiative_bonus: u32,
    pub small_portrait: Option<String>,
    pub full_portrait: Option<String>,
    pub notes: String,
}

/// A player character in an encounter.
#[derive(Debug, Clone)]
pub struct Player {
    pub name: String,
    pub classes: Vec<Class>,
    pub stats: Stats,
    pub ac: u32,
    pub initiative_bonus: u32,
    pub small_portrait: Option<String>,
    pub full_portrait: Option<String>,
    pub initiative: u32,
    pub action: bool,
    pub reaction: bool,
    pub bonus_action: bool,
    pub notes: String,
    pub tiebreaker: i32,
    pub conditions: Vec<Condition>,
}

/// The sum of the levels of `classes`.
pub open spec fn levels(classes: Seq<Class>) -> int
    decreases classes.len(),
{
    if classes.len() == 0 {
        0
    } else {
        levels(classes.drop_last()) + classes.last().level
    }
}

/// The levels of the first classes are no more than the levels of all.
pub proof fn lemma_levels_grow(classes: Seq<Class>, n: int)
    requires
        0 <= n <= classes.len(),
    ensures
        0 <= levels(classes.take(n)) <= levels(classes),
    decreases classes.len() - n,
{
    if n == classes.len() {
        assert(classes.take(n) =~= classes);
        lemma_levels_nonnegative(classes);
    } else {
        lemma_levels_grow(classes, n + 1);
        assert(classes.take(n + 1).drop_last() =~= classes.take(n));
        lemma_levels_nonnegative(classes.take(n));
    }
}

/// A sum of levels is never negative.
pub proof fn lemma_levels_nonnegative(classes: Seq<Class>)
    ensures
        0 <= levels(classes),
    decreases classes.len(),
{
    if classes.len() > 0 {
        lemma_levels_nonnegative(classes.drop_last());
    }
}

impl PlayerDef {
    /// The character's level: the sum of the levels in all classes.
    pub fn total_level(&self) -> (total: u32)
        requires
            levels(self.classes@) <= u32::MAX,
        ensures
            total == levels(self.classes@),
    {
        let mut total: u32 = 0;
        let mut i: usize = 0;
        while i < self.classes.len()
            invariant
                i <= self.classes.len(),
                total == levels(self.classes@.take(i as int)),
                levels(self.classes@) <= u32::MAX,
            decreases self.classes.len() - i,
        {
            proof {
                lemma_levels_grow(self.classes@, i as int + 1);
                assert(self.classes@.take(i as int + 1).drop_last() =~= self.classes@.take(
                    i as int,
                ));
            }
            total = total + self.classes[i].level;
            i = i + 1;
        }
        assert(self.classes@.take(self.classes.len() as int) =~= self.classes@);
        total
    }
}

impl Player {
    /// Gives the player back the action, the reaction and the bonus action.
    pub fn begin_turn(&mut self)
        ensures
            *final(self) == (Player {
                action: true,
                reaction: true,
                bonus_action: true,
                ..*old(self)
            }),
    {
        self.action = true;
        self.reaction = true;
        self.bonus_action = true;
    }

    /// Ends the player's turn, which changes nothing.
    pub fn end_turn(&mut self)
        ensures
            *final(self) == *old(self),
    {
    }

    /// Marks one of the player's actions as available or used. A player has
    /// no legendary actions: for those nothing changes and the call fails.
    pub fn set_action(&mut self, action: Action, available: bool) -> (r: Result<(), ()>)
        ensures
            r is Err <==> action is Legendary,
            *final(self) == (Player {
                action: if action is Standard {
                    available
                } else {
                    old(self).action
                },
                bonus_action: if action is Bonus {
                    available
                } else {
                    old(self).bonus_action
                },
                reaction: if action is Reaction {
                    available
                } else {
                    old(self).reaction
                },
                ..*old(self)
            }),
    {
        match action {
            Action::Standard => {
                self.action = available;
            },
            Action::Bonus => {
                self.bonus_action = available;
            },
            Action::Reaction => {
                self.reaction = available;
            },
            Action::Legendary { .. } => {
                return Err(());
            },
        }
        Ok(())
    }
}

} // verus!
