//! The encounter itself: who takes part, in what order, and whose turn it
//! is.

use vstd::prelude::*;
use std::collections::HashMap;
use std::cmp::Ordering;
use crate::game::participant::Participant;
use crate::game::time::Time;

verus! {

broadcast use vstd::std_specs::hash::group_hash_axioms;

/// The number by which an encounter knows a participant.
pub type ParticipantId = u32;

/// An encounter.
#[derive(Debug, Clone)]
pub struct Game {
    /// The participants, by their numbers.
    pub participants: HashMap<u32, Participant>,
    /// The numbers of the participants, in the order of their turns.
    pub order: Vec<u32>,
    /// The round being played; 0 before play begins.
    pub round: u32,
    /// The place in `order` of the participant whose turn it is.
    pub turn: u32,
    /// When play began, in milliseconds since the epoch.
    pub game_started: i64,
    /// When the turn began, in milliseconds since the epoch.
    pub turn_started: i64,
    /// The dice of the encounter.
    pub rng: rand::rngs::StdRng,
    next_id: u32,
}

/// Whether the participant numbered `a` may stand before the one numbered
/// `b`: `b` does not come before it in the order of initiative.
pub open spec fn ahead(roster: Map<u32, Participant>, a: u32, b: u32) -> bool {
    !roster[b].precedes(roster[a])
}

/// `s`, which is in order, with `x` put in behind every number that may
/// stand before it.
pub open spec fn slot_in(roster: Map<u32, Participant>, s: Seq<u32>, x: u32) -> Seq<u32>
    decreases s.len(),
{
    if s.len() == 0 {
        seq![x]
    } else if ahead(roster, s.last(), x) {
        s.push(x)
    } else {
        slot_in(roster, s.drop_last(), x).push(s.last())
    }
}

/// The numbers of `s` in the order of initiative of their participants.
/// Participants in one place keep the order they had.
pub open spec fn in_order(roster: Map<u32, Participant>, s: Seq<u32>) -> Seq<u32>
    decreases s.len(),
{
    if s.len() == 0 {
        s
    } else {
        slot_in(roster, in_order(roster, s.drop_last()), s.last())
    }
}

/// `s` without the number `id`, the others in their order.
pub open spec fn remaining(s: Seq<u32>, id: u32) -> Seq<u32>
    decreases s.len(),
{
    if s.len() == 0 {
        s
    } else if s.last() == id {
        remaining(s.drop_last(), id)
    } else {
        remaining(s.drop_last(), id).push(s.last())
    }
}

/// Whether every number of `s` is the number of a participant.
pub open spec fn enrolled(roster: Map<u32, Participant>, s: Seq<u32>) -> bool {
    forall|i: int| 0 <= i < s.len() ==> roster.contains_key(#[trigger] s[i])
}

/// Slotting a number in keeps the numbers there were and adds the one.
pub proof fn lemma_slot_in(roster: Map<u32, Participant>, s: Seq<u32>, x: u32)
    requires
        enrolled(roster, s),
        roster.contains_key(x),
    ensures
        slot_in(roster, s, x).len() == s.len() + 1,
        enrolled(roster, slot_in(roster, s, x)),
    decreases s.len(),
{
    if s.len() > 0 && !ahead(roster, s.last(), x) {
        assert(enrolled(roster, s.drop_last())) by {
            assert forall|i: int| 0 <= i < s.drop_last().len() implies roster.contains_key(
                #[trigger] s.drop_last()[i],
            ) by {
                assert(s.drop_last()[i] == s[i]);
            }
        }
        lemma_slot_in(roster, s.drop_last(), x);
        assert(roster.contains_key(s[s.len() - 1]));
    }
}

/// Taking a number out leaves no number that was not there.
pub proof fn lemma_remaining(roster: Map<u32, Participant>, s: Seq<u32>, id: u32)
    requires
        enrolled(roster, s),
    ensures
        enrolled(roster.remove(id), remaining(s, id)),
        remaining(s, id).len() <= s.len(),
    decreases s.len(),
{
    if s.len() > 0 {
        assert(enrolled(roster, s.drop_last())) by {
            assert forall|i: int| 0 <= i < s.drop_last().len() implies roster.contains_key(
                #[trigger] s.drop_last()[i],
            ) by {
                assert(s.drop_last()[i] == s[i]);
            }
        }
        lemma_remaining(roster, s.drop_last(), id);
        assert(roster.contains_key(s[s.len() - 1]));
    }
}

fn goes_ahead(roster: &HashMap<u32, Participant>, a: u32, b: u32) -> (r: bool)
    requires
        roster@.contains_key(a),
        roster@.contains_key(b),
    ensures
        r == ahead(roster@, a, b),
{
    let first = roster.get(&a);
    let second = roster.get(&b);
    match (first, second) {
        (Some(x), Some(y)) => match y.compare(x) {
            Ordering::Less => false,
            _ => true,
        },
        _ => true,
    }
}

/// Moves the number at `at` down into the ordered numbers before it.
fn slot(roster: &HashMap<u32, Participant>, v: &mut Vec<u32>, at: usize)
    requires
        at < old(v).len(),
        enrolled(roster@, old(v)@),
    ensures
        final(v)@ == slot_in(roster@, old(v)@.subrange(0, at as int), old(v)@[at as int])
            + old(v)@.subrange(at as int + 1, old(v).len() as int),
        final(v).len() == old(v).len(),
        enrolled(roster@, final(v)@),
{
    let ghost orig = v@;
    let ghost sp = v@.subrange(0, at as int);
    let x = v[at];
    let mut j: usize = at;
    proof {
        assert(sp.take(at as int) =~= sp);
        assert(slot_in(roster@, sp, x) + sp.subrange(at as int, at as int) =~= slot_in(
            roster@,
            sp,
            x,
        ));
        assert(v@.subrange(0, at as int) =~= sp.take(at as int));
        assert(v@.subrange(at as int + 1, at as int + 1) =~= sp.subrange(at as int, at as int));
    }
    while j > 0 && !goes_ahead(roster, v[j - 1], x)
        invariant
            j <= at < v.len(),
            v.len() == orig.len(),
            sp == orig.subrange(0, at as int),
            x == orig[at as int],
            enrolled(roster@, orig),
            enrolled(roster@, v@),
            v@.subrange(at as int + 1, v.len() as int) == orig.subrange(
                at as int + 1,
                orig.len() as int,
            ),
            v@.subrange(0, j as int) == sp.take(j as int),
            v@.subrange(j as int + 1, at as int + 1) == sp.subrange(j as int, at as int),
            slot_in(roster@, sp, x) == slot_in(roster@, sp.take(j as int), x) + sp.subrange(
                j as int,
                at as int,
            ),
        decreases j,
    {
        let ghost k = j as int;
        let ghost prev = v@;
        let moved = v[j - 1];
        assert(moved == sp[k - 1]) by {
            assert(v@.subrange(0, j as int)[k - 1] == sp.take(k)[k - 1]);
        }
        v.set(j, moved);
        proof {
            assert(sp.take(k).last() == sp[k - 1]);
            assert(sp.take(k).drop_last() =~= sp.take(k - 1));
            assert(slot_in(roster@, sp.take(k), x) == slot_in(roster@, sp.take(k - 1), x).push(
                sp[k - 1],
            ));
            assert(slot_in(roster@, sp.take(k - 1), x).push(sp[k - 1]) + sp.subrange(k, at as int)
                =~= slot_in(roster@, sp.take(k - 1), x) + sp.subrange(k - 1, at as int));
            assert(v@.subrange(at as int + 1, v.len() as int) =~= prev.subrange(
                at as int + 1,
                prev.len() as int,
            ));
            let low = v@.subrange(0, j as int - 1);
            let low_goal = sp.take(k - 1);
            assert(low =~= low_goal) by {
                assert forall|i: int| 0 <= i < k - 1 implies #[trigger] low[i] == low_goal[i] by {
                    assert(prev.subrange(0, j as int)[i] == sp.take(k)[i]);
                }
            }
            let high_part = v@.subrange(j as int, at as int + 1);
            let high_goal = sp.subrange(k - 1, at as int);
            assert(high_part =~= high_goal) by {
                assert forall|i: int| 0 <= i < at - j + 1 implies #[trigger] high_part[i]
                    == high_goal[i] by {
                    if i > 0 {
                        assert(prev.subrange(j as int + 1, at as int + 1)[i - 1] == sp.subrange(
                            k,
                            at as int,
                        )[i - 1]);
                    }
                }
            }
            assert forall|i: int| 0 <= i < v@.len() implies roster@.contains_key(
                #[trigger] v@[i],
            ) by {
                if i == j {
                    assert(v@[i] == prev[j - 1]);
                } else {
                    assert(v@[i] == prev[i]);
                }
            }
        }
        j = j - 1;
    }
    let ghost k = j as int;
    let ghost prev = v@;
    v.set(j, x);
    proof {
        if j > 0 {
            assert(prev[j - 1] == sp[k - 1]) by {
                assert(prev.subrange(0, j as int)[k - 1] == sp.take(k)[k - 1]);
            }
            assert(sp.take(k).last() == sp[k - 1]);
        }
        assert(slot_in(roster@, sp.take(k), x) == sp.take(k).push(x));
        assert(enrolled(roster@, sp)) by {
            assert forall|i: int| 0 <= i < sp.len() implies roster@.contains_key(
                #[trigger] sp[i],
            ) by {
                assert(sp[i] == orig[i]);
            }
        }
        assert(roster@.contains_key(orig[at as int]));
        lemma_slot_in(roster@, sp, x);
        let goal = slot_in(roster@, sp, x) + orig.subrange(at as int + 1, orig.len() as int);
        assert(v@.len() == goal.len());
        assert forall|i: int| 0 <= i < v@.len() implies v@[i] == goal[i] by {
            if i < j {
                assert(prev.subrange(0, j as int)[i] == sp.take(k)[i]);
            } else if i == j {
            } else if i <= at {
                assert(prev.subrange(j as int + 1, at as int + 1)[i - j - 1] == sp.subrange(
                    k,
                    at as int,
                )[i - j - 1]);
            } else {
                assert(prev.subrange(at as int + 1, prev.len() as int)[i - at - 1]
                    == orig.subrange(at as int + 1, orig.len() as int)[i - at - 1]);
            }
        }
        assert(v@ =~= goal);
        assert forall|i: int| 0 <= i < v@.len() implies roster@.contains_key(#[trigger] v@[i]) by {
            if i == j {
            } else {
                assert(v@[i] == prev[i]);
            }
        }
    }
}

/// Puts the numbers in the order of initiative of their participants.
fn arrange(roster: &HashMap<u32, Participant>, v: &mut Vec<u32>)
    requires
        enrolled(roster@, old(v)@),
    ensures
        final(v)@ == in_order(roster@, old(v)@),
        enrolled(roster@, final(v)@),
{
    let ghost orig = v@;
    let mut i: usize = 0;
    assert(v@ =~= in_order(roster@, orig.subrange(0, 0)) + orig.subrange(0, orig.len() as int));
    while i < v.len()
        invariant
            i <= v.len(),
            v.len() == orig.len(),
            enrolled(roster@, v@),
            v@ == in_order(roster@, orig.subrange(0, i as int)) + orig.subrange(
                i as int,
                orig.len() as int,
            ),
        decreases v.len() - i,
    {
        let ghost prev = v@;
        let ghost done = in_order(roster@, orig.subrange(0, i as int));
        proof {
            lemma_in_order_len(roster@, orig.subrange(0, i as int));
        }
        slot(roster, v, i);
        proof {
            assert(prev.subrange(0, i as int) =~= done);
            assert(prev[i as int] == orig[i as int]);
            assert(orig.subrange(0, i as int + 1).drop_last() =~= orig.subrange(0, i as int));
            assert(orig.subrange(0, i as int + 1).last() == orig[i as int]);
            assert(prev.subrange(i as int + 1, prev.len() as int) =~= orig.subrange(
                i as int + 1,
                orig.len() as int,
            ));
        }
        i = i + 1;
    }
    proof {
        assert(orig.subrange(0, orig.len() as int) =~= orig);
        assert(v@ =~= in_order(roster@, orig));
    }
}

/// Putting numbers in order changes not how many there are.
pub proof fn lemma_in_order_len(roster: Map<u32, Participant>, s: Seq<u32>)
    ensures
        in_order(roster, s).len() == s.len(),
    decreases s.len(),
{
    if s.len() > 0 {
        lemma_in_order_len(roster, s.drop_last());
        lemma_slot_len(roster, in_order(roster, s.drop_last()), s.last());
    }
}

/// Slotting a number in makes the sequence one longer.
pub proof fn lemma_slot_len(roster: Map<u32, Participant>, s: Seq<u32>, x: u32)
    ensures
        slot_in(roster, s, x).len() == s.len() + 1,
    decreases s.len(),
{
    if s.len() > 0 && !ahead(roster, s.last(), x) {
        lemma_slot_len(roster, s.drop_last(), x);
    }
}

fn retain_others(order: &mut Vec<u32>, id: u32)
    ensures
        final(order)@ == remaining(old(order)@, id),
{
    let mut kept: Vec<u32> = Vec::new();
    let mut i: usize = 0;
    while i < order.len()
        invariant
            i <= order.len(),
            order@ == old(order)@,
            kept@ == remaining(order@.take(i as int), id),
        decreases order.len() - i,
    {
        assert(order@.take(i as int + 1).drop_last() =~= order@.take(i as int));
        if order[i] != id {
            kept.push(order[i]);
        }
        i = i + 1;
    }
    assert(order@.take(order.len() as int) =~= order@);
    *order = kept;
}

impl Game {
    /// The participants, by their numbers.
    pub closed spec fn roster(self) -> Map<u32, Participant> {
        self.participants@
    }

    /// The numbers of the participants, in the order of their turns.
    pub closed spec fn turn_order(self) -> Seq<u32> {
        self.order@
    }

    /// The round being played.
    pub closed spec fn round_no(self) -> u32 {
        self.round
    }

    /// The place in the order of the participant whose turn it is.
    pub closed spec fn turn_no(self) -> u32 {
        self.turn
    }

    /// The number that the next participant to join gets.
    pub closed spec fn next_number(self) -> u32 {
        self.next_id
    }

    /// When play began, in milliseconds since the epoch.
    pub closed spec fn play_began(self) -> i64 {
        self.game_started
    }

    /// When the turn began, in milliseconds since the epoch.
    pub closed spec fn turn_began(self) -> i64 {
        self.turn_started
    }

    /// Every number in the order is the number of a participant.
    pub open spec fn wf(self) -> bool {
        enrolled(self.roster(), self.turn_order())
    }

    /// An encounter without participants, before play. `now` is the time
    /// in milliseconds since the epoch; `rng` throws the dice.
    pub fn new(now: i64, rng: rand::rngs::StdRng) -> (game: Self)
        ensures
            game.wf(),
            game.roster() == Map::<u32, Participant>::empty(),
            game.turn_order() == Seq::<u32>::empty(),
            game.round_no() == 0,
            game.turn_no() == 0,
            game.next_number() == 1,
            game.play_began() == now,
            game.turn_began() == now,
    {
        Self {
            order: Vec::new(),
            participants: HashMap::new(),
            next_id: 1,
            round: 0,
            turn: 0,
            game_started: now,
            turn_started: now,
            rng,
        }
    }

    /// The number that the next participant to join gets.
    pub fn next_id(&self) -> (id: u32)
        ensures
            id == self.next_number(),
    {
        self.next_id
    }

    /// Sets the number that the next participant to join gets.
    pub fn set_next_id(&mut self, id: u32)
        ensures
            final(self).next_number() == id,
            final(self).roster() == old(self).roster(),
            final(self).turn_order() == old(self).turn_order(),
            final(self).round_no() == old(self).round_no(),
            final(self).turn_no() == old(self).turn_no(),
    {
        self.next_id = id;
    }

    /// Adds a participant and returns its number. The order of turns is put
    /// in the order of initiative again.
    pub fn spawn(&mut self, participant: Participant) -> (id: u32)
        requires
            old(self).wf(),
            old(self).next_number() < u32::MAX,
        ensures
            final(self).wf(),
            id == old(self).next_number(),
            final(self).next_number() == id + 1,
            final(self).roster() == old(self).roster().insert(id, participant),
            final(self).turn_order() == in_order(
                final(self).roster(),
                old(self).turn_order().push(id),
            ),
            final(self).round_no() == old(self).round_no(),
            final(self).turn_no() == old(self).turn_no(),
            final(self).play_began() == old(self).play_began(),
            final(self).turn_began() == old(self).turn_began(),
    {
        let id = self.next_id;
        self.participants.insert(id, participant);
        self.order.push(id);
        assert(enrolled(self.participants@, self.order@)) by {
            assert forall|i: int| 0 <= i < self.order@.len() implies self.participants@.contains_key(
                #[trigger] self.order@[i],
            ) by {
                if i < old(self).order@.len() {
                    assert(self.order@[i] == old(self).order@[i]);
                }
            }
        }
        arrange(&self.participants, &mut self.order);
        self.next_id = self.next_id + 1;
        id
    }

    /// Takes the participant numbered `id` out of the encounter. The turn
    /// stays where it is, or falls back to the last place if the order has
    /// become too short for it.
    pub fn despawn(&mut self, id: u32)
        requires
            old(self).wf(),
        ensures
            final(self).wf(),
            final(self).roster() == old(self).roster().remove(id),
            final(self).turn_order() == remaining(old(self).turn_order(), id),
            final(self).turn_no() == (if final(self).turn_order().len() == 0 {
                0
            } else if old(self).turn_no() < final(self).turn_order().len() {
                old(self).turn_no() as int
            } else {
                final(self).turn_order().len() - 1
            }),
            final(self).round_no() == old(self).round_no(),
            final(self).next_number() == old(self).next_number(),
            final(self).play_began() == old(self).play_began(),
            final(self).turn_began() == old(self).turn_began(),
    {
        proof {
            lemma_remaining(self.participants@, self.order@, id);
        }
        self.participants.remove(&id);
        assert(self.participants@ =~= old(self).participants@.remove(id));
        retain_others(&mut self.order, id);
        let len = self.order.len();
        let last: u32 = if len == 0 {
            0
        } else if len - 1 > u32::MAX as usize {
            u32::MAX
        } else {
            (len - 1) as u32
        };
        if self.turn > last {
            self.turn = last;
        }
    }

    /// Begins play: the first round, the first turn.
    pub fn begin_play(&mut self, now: i64)
        ensures
            final(self).round_no() == 1,
            final(self).turn_no() == 0,
            final(self).play_began() == now,
            final(self).turn_began() == now,
            final(self).roster() == old(self).roster(),
            final(self).turn_order() == old(self).turn_order(),
            final(self).next_number() == old(self).next_number(),
    {
        self.turn = 0;
        self.round = 1;
        self.game_started = now;
        self.turn_started = now;
    }

    /// Ends the turn and begins the next: of the next participant in the
    /// order, or of the first in a new round. The participant whose turn
    /// begins gets what beginning a turn gives. Without participants nothing
    /// happens.
    pub fn next_turn(&mut self, now: i64)
        requires
            old(self).wf(),
            old(self).turn_order().len() > 0 ==> old(self).turn_no() < old(
                self,
            ).turn_order().len(),
            old(self).round_no() < u32::MAX,
            old(self).turn_no() < u32::MAX,
        ensures
            final(self).wf(),
            final(self).turn_order() == old(self).turn_order(),
            final(self).next_number() == old(self).next_number(),
            final(self).play_began() == old(self).play_began(),
            final(self).turn_began() == (if old(self).turn_order().len() == 0 {
                old(self).turn_began()
            } else {
                now
            }),
            old(self).turn_order().len() == 0 ==> final(self).roster() == old(self).roster()
                && final(self).turn_no() == old(self).turn_no() && final(self).round_no() == old(
                self,
            ).round_no(),
            old(self).turn_order().len() > 0 ==> {
                let wraps = old(self).turn_no() + 1 >= old(self).turn_order().len();
                let current = final(self).turn_order()[final(self).turn_no() as int];
                &&& final(self).turn_no() == (if wraps {
                    0
                } else {
                    old(self).turn_no() + 1
                })
                &&& final(self).round_no() == (if wraps {
                    old(self).round_no() + 1
                } else {
                    old(self).round_no() as int
                })
                &&& final(self).roster().dom() == old(self).roster().dom()
                &&& final(self).roster()[current].begun(old(self).roster()[current])
                &&& forall|k: u32|
                    k != current && old(self).roster().contains_key(k) ==> final(self).roster()[k]
                        == old(self).roster()[k]
            },
    {
        if self.order.len() == 0 {
            return ;
        }
        self.turn = self.turn + 1;
        if self.turn as usize >= self.order.len() {
            self.turn = 0;
            self.round = self.round + 1;
        }
        self.turn_started = now;
        let current = self.order[self.turn as usize];
        assert(self.participants@.contains_key(current));
        match self.participants.remove(&current) {
            Some(participant) => {
                let mut participant = participant;
                participant.begin_turn();
                self.participants.insert(current, participant);
                assert(self.participants@.dom() =~= old(self).participants@.dom());
            },
            None => {},
        }
    }

    /// The number of participants in the order of turns, the round and the
    /// turn.
    pub fn counts(&self) -> (c: (usize, u32, u32))
        ensures
            c.0 == self.turn_order().len(),
            c.1 == self.round_no(),
            c.2 == self.turn_no(),
    {
        (self.order.len(), self.round, self.turn)
    }

    /// The game time: the round, and the initiative count of the
    /// participant whose turn it is.
    pub fn time(&self) -> (t: Time)
        requires
            self.turn_no() < self.turn_order().len(),
        ensures
            t.round() == self.round_no(),
            t.initiative() == ({
                let current = self.turn_order()[self.turn_no() as int];
                if self.roster().contains_key(current) {
                    self.roster()[current].initiative_of()
                } else {
                    0
                }
            }),
    {
        let current = self.order[self.turn as usize];
        let initiative = match self.participants.get(&current) {
            Some(p) => p.initiative(),
            None => 0,
        };
        Time::new(self.round, initiative)
    }
}

} // verus!
