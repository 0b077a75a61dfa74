//! Whoever takes a turn in an encounter.

use vstd::prelude::*;
use std::cmp::Ordering;
use crate::game::lair::Lair;
use crate::game::monster::Monster;
use crate::game::player::Player;

verus! {

/// The kinds of action that a participant can take in a round.
#[derive(Debug, Clone, Copy, PartialEq, Eq, Hash, Structural)]
pub enum Action {
    Standard,
    Bonus,
    Reaction,
    /// One of a monster's legendary actions, by its index.
    Legendary { index: usize },
}

/// A participant in an encounter.
#[derive(Debug, Clone)]
pub enum Participant {
    Lair(Lair),
    Monster(Monster),
    Player(Player),
}

impl Participant {
    /// The initiative count on which the participant acts. A lair acts on 20.
    pub open spec fn initiative_of(self) -> u32 {
        match self {
            Participant::Lair(_) => 20,
            Participant::Monster(monster) => monster.initiative,
            Participant::Player(player) => player.initiative,
        }
    }

    /// What decides between participants on one initiative count. A lair
    /// has the lowest there is.
    pub open spec fn tiebreaker_of(self) -> i32 {
        match self {
            Participant::Lair(_) => i32::MIN,
            Participant::Monster(monster) => monster.tiebreaker,
            Participant::Player(player) => player.tiebreaker,
        }
    }

    /// Whether `self` comes before `other` in the order of initiative
    /// counts and, on one count, of tiebreakers.
    pub open spec fn precedes(self, other: Participant) -> bool {
        self.initiative_of() < other.initiative_of() || (self.initiative_of()
            == other.initiative_of() && self.tiebreaker_of() < other.tiebreaker_of())
    }

    /// What beginning a turn does to a participant: a monster gets back its
    /// action, reaction, bonus action and legendary actions; anyone else is
    /// left alone.
    pub open spec fn begun(self, before: Participant) -> bool {
        match before {
            Participant::Monster(was) => self matches Participant::Monster(is) && is.refreshed(was),
            _ => self == before,
        }
    }

    pub fn name(&self) -> (name: &str)
        ensures
            name@ == (match *self {
                Participant::Lair(lair) => lair.name@,
                Participant::Monster(monster) => monster.name@,
                Participant::Player(player) => player.name@,
            }),
    {
        match self {
            Participant::Lair(lair) => lair.name.as_str(),
            Participant::Monster(monster) => monster.name.as_str(),
            Participant::Player(player) => player.name.as_str(),
        }
    }

    pub fn initiative(&self) -> (i: u32)
        ensures
            i == self.initiative_of(),
    {
        match self {
            Participant::Lair(_) => 20,
            Participant::Monster(monster) => monster.initiative,
            Participant::Player(player) => player.initiative,
        }
    }

    pub fn tiebreaker(&self) -> (t: i32)
        ensures
            t == self.tiebreaker_of(),
    {
        match self {
            Participant::Lair(_) => i32::MIN,
            Participant::Monster(monster) => monster.tiebreaker,
            Participant::Player(player) => player.tiebreaker,
        }
    }

    /// Begins the participant's turn. Only a monster gets anything back by
    /// it: its action, reaction, bonus action and legendary actions.
    pub fn begin_turn(&mut self)
        ensures
            final(self).begun(*old(self)),
    {
        match self {
            Participant::Monster(monster) => {
                monster.begin_turn();
            },
            _ => {},
        }
    }

    /// Marks one of the participant's actions as available or used. Fails,
    /// and changes nothing, where the participant has no action of that
    /// kind: a lair has only the standard action, a player no legendary ones.
    pub fn set_action(&mut self, action: Action, available: bool) -> (r: Result<(), ()>)
        requires
            match (*old(self), action) {
                (Participant::Monster(m), Action::Legendary { index }) => index
                    < m.legendary_actions.len(),
                _ => true,
            },
        ensures
            r is Ok <==> (match *old(self) {
                Participant::Lair(_) => action is Standard,
                Participant::Monster(_) => true,
                Participant::Player(_) => !(action is Legendary),
            }),
            r is Err ==> *final(self) == *old(self),
            final(self).initiative_of() == old(self).initiative_of(),
            final(self).tiebreaker_of() == old(self).tiebreaker_of(),
            r is Ok ==> (match (*old(self), *final(self)) {
                (Participant::Lair(was), Participant::Lair(is)) => is == (Lair {
                    action: available,
                    ..was
                }),
                (Participant::Monster(was), Participant::Monster(is)) => match action {
                    Action::Standard => is == (Monster { action: available, ..was }),
                    Action::Bonus => is == (Monster { bonus_action: available, ..was }),
                    Action::Reaction => is == (Monster { reaction: available, ..was }),
                    Action::Legendary { index } => is == (Monster {
                        legendary_actions: is.legendary_actions,
                        ..was
                    }) && is.legendary_actions@ == was.legendary_actions@.update(
                        index as int,
                        available,
                    ),
                },
                (Participant::Player(was), Participant::Player(is)) => match action {
                    Action::Standard => is == (Player { action: available, ..was }),
                    Action::Bonus => is == (Player { bonus_action: available, ..was }),
                    Action::Reaction => is == (Player { reaction: available, ..was }),
                    Action::Legendary { .. } => false,
                },
                _ => false,
            }),
    {
        match self {
            Participant::Lair(lair) => lair.set_action(action, available),
            Participant::Monster(monster) => monster.set_action(action, available),
            Participant::Player(player) => player.set_action(action, available),
        }
    }

    /// Ends the participant's turn, which changes nothing.
    pub fn end_turn(&mut self)
        ensures
            *final(self) == *old(self),
    {
    }

    /// Whether the two act on the same initiative count with the same
    /// tiebreaker.
    pub fn same_place(&self, other: &Participant) -> (b: bool)
        ensures
            b == (self.initiative_of() == other.initiative_of() && self.tiebreaker_of()
                == other.tiebreaker_of()),
    {
        self.initiative() == other.initiative() && self.tiebreaker() == other.tiebreaker()
    }

    /// Orders two participants by initiative count and, on one count, by
    /// tiebreaker.
    pub fn compare(&self, other: &Participant) -> (o: Ordering)
        ensures
            o is Less <==> self.precedes(*other),
            o is Greater <==> other.precedes(*self),
    {
        let a = self.initiative();
        let b = other.initiative();
        if a < b {
            Ordering::Less
        } else if a > b {
            Ordering::Greater
        } else {
            let x = self.tiebreaker();
            let y = other.tiebreaker();
            if x < y {
                Ordering::Less
            } else if x > y {
                Ordering::Greater
            } else {
                Ordering::Equal
            }
        }
    }
}

} // verus!
