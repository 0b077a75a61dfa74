//! Game time: rounds of six seconds, and durations counted in rounds.

use vstd::prelude::*;
use vstd::string::*;
use crate::num::{div_toward_zero, quotient, rem_size, remainder_size};
use crate::text::{decimal, push_decimal};

verus! {

/// A point in game time: the round and the initiative count within it.
#[derive(Debug, Clone, Copy, PartialEq, Eq, PartialOrd, Ord, Hash, Structural)]
pub struct Time {
    round: u32,
    initiative: u32,
}

/// A span of game time, in rounds. It may be negative.
#[derive(Debug, Clone, Copy, PartialEq, Eq, PartialOrd, Ord, Hash, Structural)]
pub struct Duration {
    rounds: i32,
}

/// Minutes and seconds as a clock shows them: the minutes, a colon, and the
/// seconds in two digits.
pub open spec fn clock(mins: int, secs: int) -> Seq<char> {
    if 0 <= secs < 10 {
        decimal(mins).push(':').push('0') + decimal(secs)
    } else {
        decimal(mins).push(':') + decimal(secs)
    }
}

fn clock_text(mins: i64, secs: i64) -> (s: String)
    requires
        mins > i64::MIN,
        secs > i64::MIN,
    ensures
        s@ == clock(mins as int, secs as int),
{
    let mut s = String::new();
    push_decimal(&mut s, mins);
    s.push(':');
    if 0 <= secs && secs < 10 {
        s.push('0');
    }
    push_decimal(&mut s, secs);
    assert(s@ =~= clock(mins as int, secs as int));
    s
}

impl Time {
    /// The time as a clock shows it.
    pub fn to_string(&self) -> (s: String)
        requires
            self.round() * 6 <= u32::MAX,
        ensures
            s@ == clock((self.round() * 6) / 60, (self.round() * 6) % 60),
    {
        clock_text(self.mins() as i64, self.secs() as i64)
    }

    /// The round.
    pub closed spec fn round(self) -> u32 {
        self.round
    }

    /// The initiative count within the round.
    pub closed spec fn initiative(self) -> u32 {
        self.initiative
    }

    /// Whether `self` is `other` or comes after it: a later round, or the
    /// same round and an initiative count that is not lower.
    pub open spec fn reached(self, other: Time) -> bool {
        self.round() > other.round() || (self.round() == other.round() && self.initiative()
            >= other.initiative())
    }

    /// The round and the initiative count.
    pub fn parts(&self) -> (p: (u32, u32))
        ensures
            p.0 == self.round(),
            p.1 == self.initiative(),
    {
        (self.round, self.initiative)
    }

    pub fn new(round: u32, initiative: u32) -> (t: Self)
        ensures
            t.round() == round,
            t.initiative() == initiative,
    {
        Time { round, initiative }
    }

    /// The seconds that have passed when the round begins: six per round.
    pub fn total_secs(&self) -> (s: u32)
        requires
            self.round() * 6 <= u32::MAX,
        ensures
            s == self.round() * 6,
    {
        self.round * 6
    }

    /// The whole minutes of [`Self::total_secs`].
    pub fn mins(&self) -> (m: u32)
        requires
            self.round() * 6 <= u32::MAX,
        ensures
            m == (self.round() * 6) / 60,
    {
        self.total_secs() / 60
    }

    /// The seconds of [`Self::total_secs`] beyond the whole minutes.
    pub fn secs(&self) -> (s: u32)
        requires
            self.round() * 6 <= u32::MAX,
        ensures
            s == (self.round() * 6) % 60,
    {
        self.total_secs() % 60
    }

    /// Whether `self` is `other` or comes after it.
    pub fn has_reached(&self, other: &Time) -> (b: bool)
        ensures
            b == self.reached(*other),
    {
        self.round > other.round || (self.round == other.round && self.initiative
            >= other.initiative)
    }

    /// The time `rhs` after `self`, at the same initiative count.
    pub fn plus(self, rhs: Duration) -> (t: Time)
        requires
            self.round() <= i32::MAX,
            0 <= self.round() + rhs.rounds() <= i32::MAX,
        ensures
            t.round() == self.round() + rhs.rounds(),
            t.initiative() == self.initiative(),
    {
        Time { round: (self.round as i32 + rhs.rounds) as u32, initiative: self.initiative }
    }

    /// The rounds from `rhs` to `self`.
    pub fn since(self, rhs: Time) -> (d: Duration)
        requires
            self.round() <= i32::MAX,
            rhs.round() <= i32::MAX,
        ensures
            d.rounds() == self.round() - rhs.round(),
    {
        Duration { rounds: self.round as i32 - rhs.round as i32 }
    }

    /// `self` less `rhs`, at the same initiative count, as far as it lies
    /// before the start of the game: round 0 wherever `rhs` does not reach
    /// back past the start, and the negative difference as it wraps into the
    /// unsigned round wherever it does.
    pub fn minus(self, rhs: Duration) -> (t: Time)
        requires
            self.round() <= i32::MAX,
            i32::MIN <= self.round() - rhs.rounds() <= i32::MAX,
        ensures
            t.round() == if self.round() - rhs.rounds() < 0 {
                self.round() - rhs.rounds() + 0x1_0000_0000
            } else {
                0
            },
            t.initiative() == self.initiative(),
    {
        let diff: i32 = self.round as i32 - rhs.rounds;
        let round: u32 = if diff < 0 {
            ((diff as i64) + 0x1_0000_0000) as u32
        } else {
            0
        };
        Time { round, initiative: self.initiative }
    }
}

impl Duration {
    /// The duration as a clock shows it.
    pub fn to_string(&self) -> (s: String)
        requires
            i32::MIN <= self.rounds() * 6 <= i32::MAX,
        ensures
            s@ == clock(
                div_toward_zero(self.rounds() * 6, 60),
                rem_size(self.rounds() * 6, 60),
            ),
    {
        clock_text(self.mins() as i64, self.secs() as i64)
    }

    /// The number of rounds.
    pub closed spec fn rounds(self) -> i32 {
        self.rounds
    }

    /// The number of rounds.
    pub fn in_rounds(&self) -> (r: i32)
        ensures
            r == self.rounds(),
    {
        self.rounds
    }

    pub fn _from_rounds(rounds: i32) -> (d: Self)
        ensures
            d.rounds() == rounds,
    {
        Duration { rounds }
    }

    /// The whole rounds in `seconds`, rounded toward zero.
    pub fn from_secs(seconds: i32) -> (d: Self)
        ensures
            d.rounds() == div_toward_zero(seconds as int, 6),
    {
        Duration { rounds: quotient(seconds, 6) }
    }

    /// The seconds that the rounds take: six each.
    pub fn total_secs(&self) -> (s: i32)
        requires
            i32::MIN <= self.rounds() * 6 <= i32::MAX,
        ensures
            s == self.rounds() * 6,
    {
        self.rounds * 6
    }

    /// The whole minutes of [`Self::total_secs`], rounded toward zero.
    pub fn mins(&self) -> (m: i32)
        requires
            i32::MIN <= self.rounds() * 6 <= i32::MAX,
        ensures
            m == div_toward_zero(self.rounds() * 6, 60),
    {
        quotient(self.total_secs(), 60)
    }

    /// The seconds of [`Self::total_secs`] beyond the whole minutes, without
    /// a sign.
    pub fn secs(&self) -> (s: i32)
        requires
            i32::MIN <= self.rounds() * 6 <= i32::MAX,
        ensures
            s == rem_size(self.rounds() * 6, 60),
    {
        remainder_size(self.total_secs(), 60)
    }
}

} // verus!
