//! Conditions that a participant can be in, when they began and when they
//! end.

use vstd::prelude::*;
use vstd::string::*;
use crate::game::expiry::Expiry;
use crate::game::game::ParticipantId;
use crate::game::time::Time;
use crate::text::equal;

verus! {

/// A condition on a participant.
#[derive(Debug, PartialEq, Eq, Hash)]
pub struct Condition {
    pub name: String,
    pub start_time: Time,
    pub expiry: Expiry,
    pub instigator: Option<ParticipantId>,
}

pub const BLINDED: &'static str = "blinded";

pub const BLOODIED: &'static str = "bloodied";

pub const CHARMED: &'static str = "charmed";

pub const CONCENTRATING: &'static str = "concentrating";

pub const DEAD: &'static str = "dead";

pub const DEAFENED: &'static str = "deafened";

pub const FRIGHTENED: &'static str = "frightened";

pub const GRAPPLED: &'static str = "grappled";

pub const INCAPACITATED: &'static str = "incapacitated";

pub const INVISIBLE: &'static str = "invisible";

pub const MARKED: &'static str = "marked";

pub const PARALYZED: &'static str = "paralyzed";

pub const PETRIFIED: &'static str = "petrified";

pub const POISONED: &'static str = "poisoned";

pub const PRONE: &'static str = "prone";

pub const RESTRAINED: &'static str = "restrained";

pub const STUNNED: &'static str = "stunned";

pub const SURPRISED: &'static str = "surprised";

pub const UNCONSCIOUS: &'static str = "unconscious";

/// A condition with its name as a sequence of characters.
pub struct ConditionView {
    pub name: Seq<char>,
    pub start_time: Time,
    pub expiry: Expiry,
    pub instigator: Option<ParticipantId>,
}

impl View for Condition {
    type V = ConditionView;

    open spec fn view(&self) -> ConditionView {
        ConditionView {
            name: self.name@,
            start_time: self.start_time,
            expiry: self.expiry,
            instigator: self.instigator,
        }
    }
}

/// The condition called `name` that began at `start_time`, never expires and
/// has no instigator.
pub open spec fn named(name: Seq<char>, start_time: Time) -> ConditionView {
    ConditionView { name, start_time, expiry: Expiry::Never, instigator: None }
}

impl Clone for Condition {
    fn clone(&self) -> (c: Self)
        ensures
            c == *self,
    {
        Condition {
            name: self.name.clone(),
            start_time: self.start_time,
            expiry: self.expiry,
            instigator: self.instigator,
        }
    }
}

impl Condition {
    /// The conditions that `self` brings with it, as names.
    pub open spec fn implied(self) -> Seq<Seq<char>> {
        if self.name@ == GRAPPLED@ {
            seq![RESTRAINED@]
        } else if self.name@ == PARALYZED@ {
            seq![INCAPACITATED@]
        } else if self.name@ == PETRIFIED@ {
            seq![INCAPACITATED@, UNCONSCIOUS@]
        } else if self.name@ == STUNNED@ {
            seq![INCAPACITATED@]
        } else if self.name@ == UNCONSCIOUS@ {
            seq![INCAPACITATED@, PRONE@]
        } else {
            Seq::empty()
        }
    }

    pub fn new(name: String, start_time: Time) -> (c: Self)
        ensures
            c@ == named(name@, start_time),
    {
        Self { name, start_time, expiry: Expiry::Never, instigator: None }
    }

    pub fn with_expiry(self, expiry: Expiry) -> (c: Self)
        ensures
            c@ == (ConditionView { expiry, ..self@ }),
    {
        let mut c = self;
        c.expiry = expiry;
        c
    }

    pub fn with_instigator(self, instigator: ParticipantId) -> (c: Self)
        ensures
            c@ == (ConditionView { instigator: Some(instigator), ..self@ }),
    {
        let mut c = self;
        c.instigator = Some(instigator);
        c
    }

    pub fn blinded(start_time: Time) -> (c: Self)
        ensures
            c@ == named(BLINDED@, start_time),
    {
        Self::new(String::from_str(BLINDED), start_time)
    }

    pub fn bloodied(start_time: Time) -> (c: Self)
        ensures
            c@ == named(BLOODIED@, start_time),
    {
        Self::new(String::from_str(BLOODIED), start_time)
    }

    pub fn charmed(start_time: Time) -> (c: Self)
        ensures
            c@ == named(CHARMED@, start_time),
    {
        Self::new(String::from_str(CHARMED), start_time)
    }

    pub fn concentrating(start_time: Time) -> (c: Self)
        ensures
            c@ == named(CONCENTRATING@, start_time),
    {
        Self::new(String::from_str(CONCENTRATING), start_time)
    }

    pub fn dead(start_time: Time) -> (c: Self)
        ensures
            c@ == named(DEAD@, start_time),
    {
        Self::new(String::from_str(DEAD), start_time)
    }

    pub fn deafened(start_time: Time) -> (c: Self)
        ensures
            c@ == named(DEAFENED@, start_time),
    {
        Self::new(String::from_str(DEAFENED), start_time)
    }

    pub fn frightened(start_time: Time) -> (c: Self)
        ensures
            c@ == named(FRIGHTENED@, start_time),
    {
        Self::new(String::from_str(FRIGHTENED), start_time)
    }

    pub fn grappled(start_time: Time) -> (c: Self)
        ensures
            c@ == named(GRAPPLED@, start_time),
    {
        Self::new(String::from_str(GRAPPLED), start_time)
    }

    pub fn incapacitated(start_time: Time) -> (c: Self)
        ensures
            c@ == named(INCAPACITATED@, start_time),
    {
        Self::new(String::from_str(INCAPACITATED), start_time)
    }

    pub fn invisible(start_time: Time) -> (c: Self)
        ensures
            c@ == named(INVISIBLE@, start_time),
    {
        Self::new(String::from_str(INVISIBLE), start_time)
    }

    pub fn marked(start_time: Time) -> (c: Self)
        ensures
            c@ == named(MARKED@, start_time),
    {
        Self::new(String::from_str(MARKED), start_time)
    }

    pub fn paralyzed(start_time: Time) -> (c: Self)
        ensures
            c@ == named(PARALYZED@, start_time),
    {
        Self::new(String::from_str(PARALYZED), start_time)
    }

    pub fn petrified(start_time: Time) -> (c: Self)
        ensures
            c@ == named(PETRIFIED@, start_time),
    {
        Self::new(String::from_str(PETRIFIED), start_time)
    }

    pub fn poisoned(start_time: Time) -> (c: Self)
        ensures
            c@ == named(POISONED@, start_time),
    {
        Self::new(String::from_str(POISONED), start_time)
    }

    pub fn prone(start_time: Time) -> (c: Self)
        ensures
            c@ == named(PRONE@, start_time),
    {
        Self::new(String::from_str(PRONE), start_time)
    }

    pub fn restrained(start_time: Time) -> (c: Self)
        ensures
            c@ == named(RESTRAINED@, start_time),
    {
        Self::new(String::from_str(RESTRAINED), start_time)
    }

    pub fn stunned(start_time: Time) -> (c: Self)
        ensures
            c@ == named(STUNNED@, start_time),
    {
        Self::new(String::from_str(STUNNED), start_time)
    }

    pub fn surprised(start_time: Time) -> (c: Self)
        ensures
            c@ == named(SURPRISED@, start_time),
    {
        Self::new(String::from_str(SURPRISED), start_time)
    }

    pub fn unconscious(start_time: Time) -> (c: Self)
        ensures
            c@ == named(UNCONSCIOUS@, start_time),
    {
        Self::new(String::from_str(UNCONSCIOUS), start_time)
    }

    /// Whether the condition ends as a turn starts at `game_time`: always if
    /// it lasts until the next turn starts, and once its duration has passed
    /// if it has one.
    pub fn expired_on_turn_start(&self, game_time: Time) -> (b: bool)
        requires
            self.start_time.round() <= i32::MAX,
            self.expiry matches Expiry::Duration(d) ==> 0 <= self.start_time.round() + d.rounds()
                <= i32::MAX,
        ensures
            b == match self.expiry {
                Expiry::NextTurnStart => true,
                Expiry::Duration(d) => {
                    ||| game_time.round() > self.start_time.round() + d.rounds()
                    ||| (game_time.round() == self.start_time.round() + d.rounds()
                        && game_time.initiative() >= self.start_time.initiative())
                },
                _ => false,
            },
    {
        match self.expiry {
            Expiry::NextTurnStart => true,
            Expiry::Duration(duration) => {
                let end = self.start_time.plus(duration);
                game_time.has_reached(&end)
            },
            _ => false,
        }
    }

    /// The conditions that this one brings with it, each beginning when this
    /// one began.
    pub fn implications(&self) -> (v: Vec<Condition>)
        ensures
            v@.len() == self.implied().len(),
            forall|i: int|
                0 <= i < v@.len() ==> (#[trigger] v@[i])@ == named(
                    self.implied()[i],
                    self.start_time,
                ),
    {
        let name = self.name.as_str();
        let mut v: Vec<Condition> = Vec::new();
        if equal(name, GRAPPLED) {
            v.push(Self::restrained(self.start_time));
        } else if equal(name, PARALYZED) {
            v.push(Self::incapacitated(self.start_time));
        } else if equal(name, PETRIFIED) {
            v.push(Self::incapacitated(self.start_time));
            v.push(Self::unconscious(self.start_time));
        } else if equal(name, STUNNED) {
            v.push(Self::incapacitated(self.start_time));
        } else if equal(name, UNCONSCIOUS) {
            v.push(Self::incapacitated(self.start_time));
            v.push(Self::prone(self.start_time));
        }
        v
    }

    /// The name of the condition, as the condition is displayed.
    pub fn to_string(&self) -> (s: String)
        ensures
            s@ == self.name@,
    {
        self.name.clone()
    }
}

} // verus!
