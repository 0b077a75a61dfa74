//! When a condition ends.

use vstd::prelude::*;
use std::cmp::Ordering;
use crate::game::time::Duration;

verus! {

/// When a condition ends.
#[derive(Debug, Clone, Copy, PartialEq, Eq, Hash, Structural)]
pub enum Expiry {
    /// Never, by itself.
    Never,
    /// When the next turn starts.
    NextTurnStart,
    /// When the next turn ends.
    NextTurnEnd,
    /// After a span of game time.
    Duration(Duration),
}

impl Expiry {
    /// The place of an expiry among its kinds, from the soonest to end to
    /// the last: the end of the turn, the start of the turn, any duration,
    /// never.
    pub open spec fn kind(self) -> int {
        match self {
            Expiry::NextTurnEnd => 0,
            Expiry::NextTurnStart => 1,
            Expiry::Duration(_) => 2,
            Expiry::Never => 3,
        }
    }

    /// The rounds of a duration, and 0 for the other kinds.
    pub open spec fn span(self) -> int {
        match self {
            Expiry::Duration(d) => d.rounds() as int,
            _ => 0,
        }
    }

    /// Whether `self` ends before `other`: its kind comes first, or both are
    /// durations and its own is shorter.
    pub open spec fn ends_before(self, other: Expiry) -> bool {
        self.kind() < other.kind() || (self.kind() == other.kind() && self.span() < other.span())
    }

    /// Orders two expiries by when they end.
    pub fn compare(&self, other: &Expiry) -> (o: Ordering)
        ensures
            o is Less <==> self.ends_before(*other),
            o is Greater <==> other.ends_before(*self),
    {
        match (self, other) {
            (Expiry::Never, Expiry::Never) => Ordering::Equal,
            (Expiry::Never, _) => Ordering::Greater,
            (_, Expiry::Never) => Ordering::Less,
            (Expiry::Duration(a), Expiry::Duration(b)) => {
                let x = a.in_rounds();
                let y = b.in_rounds();
                if x < y {
                    Ordering::Less
                } else if x > y {
                    Ordering::Greater
                } else {
                    Ordering::Equal
                }
            },
            (Expiry::Duration(_), _) => Ordering::Greater,
            (_, Expiry::Duration(_)) => Ordering::Less,
            (Expiry::NextTurnStart, Expiry::NextTurnStart) => Ordering::Equal,
            (Expiry::NextTurnStart, Expiry::NextTurnEnd) => Ordering::Greater,
            (Expiry::NextTurnEnd, Expiry::NextTurnStart) => Ordering::Less,
            (Expiry::NextTurnEnd, Expiry::NextTurnEnd) => Ordering::Equal,
        }
    }

    /// The expiry after `duration`.
    pub fn from_duration(duration: Duration) -> (e: Self)
        ensures
            e == Expiry::Duration(duration),
    {
        Expiry::Duration(duration)
    }

    /// The seconds until the expiry, for one that is a duration.
    pub fn seconds(&self) -> (s: Option<i32>)
        requires
            self matches Expiry::Duration(d) ==> i32::MIN <= d.rounds() * 6 <= i32::MAX,
        ensures
            s == match *self {
                Expiry::Duration(d) => Some((d.rounds() * 6) as i32),
                _ => None,
            },
    {
        match self {
            Expiry::Duration(duration) => Some(duration.total_secs()),
            _ => None,
        }
    }
}

} // verus!
