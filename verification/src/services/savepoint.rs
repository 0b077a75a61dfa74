//! Encounter savepoints.
//!
//! A savepoint is a snapshot of an encounter, kept in the campaign's `saves`
//! folder under a name that tells the turn. This module decides the names
//! and how many snapshots are too many; reading and writing the files is
//! left to the caller.

use vstd::prelude::*;
use vstd::string::*;
use crate::game::game::Game;
use crate::text::{chars_of, digits, join, joined, push_digits};

verus! {

/// A complete snapshot of encounter state.
#[derive(Debug, Clone)]
pub struct Savepoint {
    /// The turn number when this savepoint was created.
    pub turn_number: u32,
    /// The complete game state.
    pub game: Game,
}

/// Service for managing encounter savepoints.
pub struct SavepointService {
    saves_dir: String,
    max_count: u32,
}

/// `n` zeros.
pub open spec fn zeros(n: int) -> Seq<char> {
    Seq::new(
        if n > 0 {
            n as nat
        } else {
            0
        },
        |i: int| '0',
    )
}

/// The digits of `n`, with zeros before them where there are fewer than
/// five.
pub open spec fn padded(n: nat) -> Seq<char> {
    zeros(5 - digits(n).len()) + digits(n)
}

/// The name of the file that keeps the savepoint of turn `turn_number`.
pub open spec fn savepoint_name(turn_number: u32) -> Seq<char> {
    "turn-"@ + padded(turn_number as nat) + ".toml"@
}

/// Whether `head` stands at the start of `s`.
pub open spec fn starts_with(s: Seq<char>, head: Seq<char>) -> bool {
    head.len() <= s.len() && s.subrange(0, head.len() as int) == head
}

/// Whether `tail` stands at the end of `s`.
pub open spec fn ends_with(s: Seq<char>, tail: Seq<char>) -> bool {
    tail.len() <= s.len() && s.subrange(s.len() - tail.len(), s.len() as int) == tail
}

/// The number of a turn, counted through the rounds: so many turns for each
/// round as there are participants, and the turns of the round being played.
pub open spec fn turn_count(participants: int, round: int, turn: int) -> int {
    if participants == 0 {
        0
    } else {
        round * participants + turn
    }
}

fn begins(s: &Vec<char>, head: &Vec<char>) -> (b: bool)
    ensures
        b == starts_with(s@, head@),
{
    if head.len() > s.len() {
        return false;
    }
    let mut i: usize = 0;
    while i < head.len()
        invariant
            i <= head.len() <= s.len(),
            forall|j: int| 0 <= j < i ==> s@[j] == head@[j],
        decreases head.len() - i,
    {
        if s[i] != head[i] {
            assert(s@.subrange(0, head.len() as int)[i as int] != head@[i as int]);
            return false;
        }
        i = i + 1;
    }
    assert(s@.subrange(0, head.len() as int) =~= head@);
    true
}

fn ends(s: &Vec<char>, tail: &Vec<char>) -> (b: bool)
    ensures
        b == ends_with(s@, tail@),
{
    if tail.len() > s.len() {
        return false;
    }
    let offset = s.len() - tail.len();
    let mut i: usize = 0;
    while i < tail.len()
        invariant
            i <= tail.len() <= s.len(),
            offset == s.len() - tail.len(),
            forall|j: int| 0 <= j < i ==> s@[offset + j] == tail@[j],
        decreases tail.len() - i,
    {
        if s[offset + i] != tail[i] {
            assert(s@.subrange(s.len() - tail.len(), s.len() as int)[i as int] != tail@[i as int]);
            return false;
        }
        i = i + 1;
    }
    assert(s@.subrange(s.len() - tail.len(), s.len() as int) =~= tail@);
    true
}

impl SavepointService {
    /// The folder that the savepoints are kept in.
    pub closed spec fn folder(self) -> Seq<char> {
        self.saves_dir@
    }

    /// The number of savepoints that are kept.
    pub closed spec fn limit(self) -> u32 {
        self.max_count
    }

    /// Creates a new savepoint service for the given campaign.
    ///
    /// - `campaign_path`: Path to the campaign folder.
    /// - `max_count`: Maximum number of savepoints to retain.
    pub fn new(campaign_path: &str, max_count: u32) -> (service: Self)
        ensures
            service.folder() == joined(campaign_path@, "saves"@),
            service.limit() == max_count,
    {
        Self { saves_dir: join(campaign_path, "saves"), max_count }
    }

    /// The folder that the savepoints are kept in.
    pub fn saves_dir(&self) -> (dir: &str)
        ensures
            dir@ == self.folder(),
    {
        self.saves_dir.as_str()
    }

    /// Calculates a turn number from the game state that grows from turn to
    /// turn.
    pub fn calculate_turn_number(&self, game: &Game) -> (n: u32)
        requires
            game.turn_order().len() <= u32::MAX,
            turn_count(
                game.turn_order().len() as int,
                game.round_no() as int,
                game.turn_no() as int,
            ) <= u32::MAX,
        ensures
            n == turn_count(
                game.turn_order().len() as int,
                game.round_no() as int,
                game.turn_no() as int,
            ),
    {
        let (participants, round, turn) = game.counts();
        if participants == 0 {
            return 0;
        }
        assert(round * participants <= round * participants + turn);
        assert(0 <= round * participants) by (nonlinear_arith)
            requires
                0 <= round,
                0 <= participants,
        ;
        round * (participants as u32) + turn
    }

    /// The name of the file for the savepoint of turn `turn_number`:
    /// `turn-`, the number in at least five digits, `.toml`.
    pub fn file_name(turn_number: u32) -> (name: String)
        ensures
            name@ == savepoint_name(turn_number),
    {
        let mut number = String::new();
        push_digits(&mut number, turn_number as u64);
        let width = chars_of(number.as_str()).len();
        let mut name = String::from_str("turn-");
        let ghost head = name@;
        let mut i: usize = width;
        while i < 5
            invariant
                width <= i,
                i <= 5 || i == width,
                name@ == head + zeros(i - width),
            decreases 5 - i,
        {
            name.push('0');
            assert(name@ =~= head + zeros(i + 1 - width));
            i = i + 1;
        }
        assert(zeros(i - width) =~= zeros(5 - width));
        name.append(number.as_str());
        name.append(".toml");
        assert(name@ =~= savepoint_name(turn_number));
        name
    }

    /// The path of the file for the savepoint of turn `turn_number`.
    pub fn path_for(&self, turn_number: u32) -> (path: String)
        ensures
            path@ == joined(self.folder(), savepoint_name(turn_number)),
    {
        let name = Self::file_name(turn_number);
        join(self.saves_dir.as_str(), name.as_str())
    }

    /// Whether a file of this name is a savepoint: the name begins with
    /// `turn-` and ends in `.toml`.
    pub fn is_savepoint(file_name: &str) -> (b: bool)
        ensures
            b == (starts_with(file_name@, "turn-"@) && ends_with(file_name@, ".toml"@)),
    {
        let name = chars_of(file_name);
        let head = chars_of("turn-");
        let tail = chars_of(".toml");
        begins(&name, &head) && ends(&name, &tail)
    }

    /// The number of savepoints that are too many among `count`: the oldest
    /// so many are to go.
    pub fn excess(&self, count: usize) -> (n: usize)
        ensures
            n == (if count > self.limit() {
                count - self.limit()
            } else {
                0
            }),
    {
        if count > self.max_count as usize {
            count - self.max_count as usize
        } else {
            0
        }
    }
}

} // verus!
