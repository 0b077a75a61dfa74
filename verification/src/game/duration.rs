//! How long an effect lasts.

use vstd::prelude::*;
use std::cmp::Ordering;

verus! {

/// How long an effect lasts.
#[derive(Debug, Clone, PartialEq, Eq, Hash)]
pub enum Duration {
    /// Until something ends it.
    Indefinite,
    /// Until the start of the next turn.
    StartOfTurn,
    /// Until the end of the turn.
    EndOfTurn,
    /// For a number of seconds.
    Seconds(u32),
}

impl Duration {
    /// The place of a duration among its kinds, from the shortest to the
    /// longest: the end of the turn, the start of the turn, any number of
    /// seconds, indefinite.
    pub open spec fn kind(self) -> int {
        match self {
            Duration::EndOfTurn => 0,
            Duration::StartOfTurn => 1,
            Duration::Seconds(_) => 2,
            Duration::Indefinite => 3,
        }
    }

    /// The seconds of a duration that has them, and 0 for the other kinds.
    pub open spec fn span(self) -> int {
        match self {
            Duration::Seconds(s) => s as int,
            _ => 0,
        }
    }

    /// Whether `self` is shorter than `other`.
    pub open spec fn shorter(self, other: Duration) -> bool {
        self.kind() < other.kind() || (self.kind() == other.kind() && self.span() < other.span())
    }

    /// Orders two durations by length.
    pub fn compare(&self, other: &Duration) -> (o: Ordering)
        ensures
            o is Less <==> self.shorter(*other),
            o is Greater <==> other.shorter(*self),
    {
        match (self, other) {
            (Duration::Indefinite, Duration::Indefinite) => Ordering::Equal,
            (Duration::Indefinite, _) => Ordering::Greater,
            (_, Duration::Indefinite) => Ordering::Less,
            (Duration::Seconds(a), Duration::Seconds(b)) => {
                if *a < *b {
                    Ordering::Less
                } else if *a > *b {
                    Ordering::Greater
                } else {
                    Ordering::Equal
                }
            },
            (Duration::Seconds(_), _) => Ordering::Greater,
            (_, Duration::Seconds(_)) => Ordering::Less,
            (Duration::StartOfTurn, Duration::StartOfTurn) => Ordering::Equal,
            (Duration::StartOfTurn, Duration::EndOfTurn) => Ordering::Greater,
            (Duration::EndOfTurn, Duration::StartOfTurn) => Ordering::Less,
            (Duration::EndOfTurn, Duration::EndOfTurn) => Ordering::Equal,
        }
    }

    /// The seconds that the duration takes in play: a turn is six seconds,
    /// and an indefinite duration has no end.
    pub fn seconds(&self) -> (s: Option<u64>)
        ensures
            s == match *self {
                Duration::Indefinite => None,
                Duration::StartOfTurn => Some(6u64),
                Duration::EndOfTurn => Some(6u64),
                Duration::Seconds(n) => Some(n as u64),
            },
    {
        match self {
            Duration::Indefinite => None,
            Duration::StartOfTurn => Some(6),
            Duration::EndOfTurn => Some(6),
            Duration::Seconds(n) => Some(*n as u64),
        }
    }
}

} // verus!
