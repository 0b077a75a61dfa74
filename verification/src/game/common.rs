//! Ability scores, classes and the tables of the rules.

use vstd::prelude::*;
use vstd::string::*;
use crate::dice::ast::{Node, Selection};
use crate::dice::bounds::{lemma_bounds, survey, survivors, Tally};
use crate::dice::canon::{canonical, lemma_round_trip};
use crate::dice::eval::{evaluate, Mode};
use crate::dice::parser::lit;
use crate::dice::pp::render;
use crate::dice::valued;
use crate::num::{div_toward_zero, quotient};
use crate::text::{decimal, push_decimal};

verus! {

/// The six ability scores.
#[derive(Debug, Clone)]
pub struct Stats {
    pub str: u32,
    pub dex: u32,
    pub con: u32,
    pub int: u32,
    pub wis: u32,
    pub cha: u32,
}

/// A class that a player character has levels in.
#[derive(Debug, Clone)]
pub struct Class {
    pub name: String,
    pub level: u32,
}

/// The experience thresholds of one character level, by difficulty.
#[derive(Debug, Clone)]
pub struct Difficulties {
    pub easy: u32,
    pub medium: u32,
    pub hard: u32,
    pub deadly: u32,
}

/// The dice that an ability score is rolled with: four six-sided dice, of
/// which the highest three count.
pub const ABILITY_DICE: &'static str = "4d6kh3";

/// The tree of [`ABILITY_DICE`].
pub open spec fn ability_dice() -> Node {
    Node::Roll {
        count: lit(4),
        sides: lit(6),
        select: Some(
            Box::new(
                Node::Select { selection: Selection::KeepHighest { count: Some(lit(3)) }, next: None },
            ),
        ),
    }
}

/// The text of the ability dice reads as their tree, and whatever the dice
/// show they give a score from 3 to 18.
pub proof fn lemma_ability_dice()
    ensures
        crate::dice::parser::grammar(ABILITY_DICE@) == Ok::<
            Box<Node>,
            crate::dice::parser::ErrorView,
        >(Box::new(ability_dice())),
        survey(ability_dice(), Tally { kept: 0, span: 0 }) == Some(
            (3int, 18int, Tally { kept: 3, span: 18 }),
        ),
{
    let node = ability_dice();
    let chain = Some(
        Box::new(
            Node::Select { selection: Selection::KeepHighest { count: Some(lit(3)) }, next: None },
        ),
    );
    reveal_strlit("4d6kh3");
    assert(crate::text::digits(4) =~= seq!['4']);
    assert(crate::text::digits(6) =~= seq!['6']);
    assert(crate::text::digits(3) =~= seq!['3']);
    assert(render(*lit(3), false) == seq!['3']);
    assert(crate::dice::pp::render_option(None, false) =~= Seq::<char>::empty());
    let keep = Selection::KeepHighest { count: Some(lit(3)) };
    assert(crate::dice::pp::selection_word(keep) == seq!['k', 'h']);
    assert(crate::dice::pp::render_count(keep, false) == seq!['3']);
    assert(render(*chain->0, false) == crate::dice::pp::selection_word(keep)
        + crate::dice::pp::render_count(keep, false) + crate::dice::pp::render_option(
        None,
        false,
    ));
    assert(crate::dice::pp::render_option(chain, false) =~= seq!['k', 'h', '3']);
    assert(render(*lit(4), false) == seq!['4']);
    assert(render(*lit(6), false) == seq!['6']);
    assert(render(node, false) == render(*lit(4), false) + seq!['d'] + render(*lit(6), false)
        + crate::dice::pp::render_option(chain, false));
    assert(ABILITY_DICE@ =~= seq!['4', 'd', '6', 'k', 'h', '3']);
    assert(render(node, false) =~= ABILITY_DICE@);
    assert(crate::dice::canon::chained(None)) by {
        reveal_with_fuel(crate::dice::canon::chained, 2);
    }
    assert(crate::dice::canon::chained(chain)) by {
        reveal_with_fuel(crate::dice::canon::chained, 3);
    }
    assert(canonical(node, false));
    lemma_round_trip(node);
    assert(survivors(None, 3) == Some(3int));
    assert(survivors(chain, 4) == Some(3int));
    assert(crate::dice::bounds::picked(chain)) by {
        reveal_with_fuel(crate::dice::bounds::picked, 3);
    }
}

fn ability(rng: &mut rand::rngs::StdRng) -> (score: u32)
    ensures
        3 <= score <= 18,
{
    let r = crate::dice::roll(ABILITY_DICE, rng);
    proof {
        lemma_ability_dice();
        let faces = choose|faces: Seq<i32>| #[trigger]
            valued(r, evaluate(ability_dice(), Mode::Rand, faces));
        lemma_bounds(ability_dice(), faces);
    }
    let value = r.unwrap();
    value as u32
}

impl Stats {
    /// Rolls the six ability scores, each with [`ABILITY_DICE`].
    pub fn roll(rng: &mut rand::rngs::StdRng) -> (stats: Self)
        ensures
            3 <= stats.str <= 18,
            3 <= stats.dex <= 18,
            3 <= stats.con <= 18,
            3 <= stats.int <= 18,
            3 <= stats.wis <= 18,
            3 <= stats.cha <= 18,
    {
        let strength = ability(rng);
        let dexterity = ability(rng);
        let constitution = ability(rng);
        let intelligence = ability(rng);
        let wisdom = ability(rng);
        let charisma = ability(rng);
        Stats {
            str: strength,
            dex: dexterity,
            con: constitution,
            int: intelligence,
            wis: wisdom,
            cha: charisma,
        }
    }
}

/// The number of challenge ratings that the experience table covers.
pub const XP_ENTRIES: usize = 34;

/// The experience that a monster is worth, by the place of its challenge
/// rating in the table: 0, 1/8, 1/4, 1/2, then 1 to 30. A place past the end
/// counts as the last.
pub open spec fn xp_per_cr(index: int) -> u32 {
    if index == 0 {
        10
    } else if index == 1 {
        25
    } else if index == 2 {
        50
    } else if index == 3 {
        100
    } else if index == 4 {
        200
    } else if index == 5 {
        450
    } else if index == 6 {
        700
    } else if index == 7 {
        1100
    } else if index == 8 {
        1800
    } else if index == 9 {
        2300
    } else if index == 10 {
        2900
    } else if index == 11 {
        3900
    } else if index == 12 {
        5000
    } else if index == 13 {
        5900
    } else if index == 14 {
        7200
    } else if index == 15 {
        8400
    } else if index == 16 {
        10000
    } else if index == 17 {
        11500
    } else if index == 18 {
        13000
    } else if index == 19 {
        15000
    } else if index == 20 {
        18000
    } else if index == 21 {
        20000
    } else if index == 22 {
        22000
    } else if index == 23 {
        25000
    } else if index == 24 {
        33000
    } else if index == 25 {
        41000
    } else if index == 26 {
        50000
    } else if index == 27 {
        62000
    } else if index == 28 {
        75000
    } else if index == 29 {
        90000
    } else if index == 30 {
        105000
    } else if index == 31 {
        120000
    } else if index == 32 {
        135000
    } else {
        155000
    }
}

/// The experience at place `index` of the table.
pub fn xp_of(index: usize) -> (xp: u32)
    ensures
        xp == xp_per_cr(index as int),
{
    if index == 0 {
        10
    } else if index == 1 {
        25
    } else if index == 2 {
        50
    } else if index == 3 {
        100
    } else if index == 4 {
        200
    } else if index == 5 {
        450
    } else if index == 6 {
        700
    } else if index == 7 {
        1100
    } else if index == 8 {
        1800
    } else if index == 9 {
        2300
    } else if index == 10 {
        2900
    } else if index == 11 {
        3900
    } else if index == 12 {
        5000
    } else if index == 13 {
        5900
    } else if index == 14 {
        7200
    } else if index == 15 {
        8400
    } else if index == 16 {
        10000
    } else if index == 17 {
        11500
    } else if index == 18 {
        13000
    } else if index == 19 {
        15000
    } else if index == 20 {
        18000
    } else if index == 21 {
        20000
    } else if index == 22 {
        22000
    } else if index == 23 {
        25000
    } else if index == 24 {
        33000
    } else if index == 25 {
        41000
    } else if index == 26 {
        50000
    } else if index == 27 {
        62000
    } else if index == 28 {
        75000
    } else if index == 29 {
        90000
    } else if index == 30 {
        105000
    } else if index == 31 {
        120000
    } else if index == 32 {
        135000
    } else {
        155000
    }
}

/// The ability modifier of a score: half of what the score is above 10,
/// rounded down.
pub open spec fn modifier_of(score: int) -> int {
    if score >= 10 {
        (score - 10) / 2
    } else {
        div_toward_zero(score - 11, 2)
    }
}

/// The ability modifier of `score`.
pub fn modifer(score: u32) -> (m: i32)
    requires
        score <= i32::MAX,
    ensures
        m == modifier_of(score as int),
{
    if score >= 10 {
        ((score as i32) - 10) / 2
    } else {
        quotient((score as i32) - 11, 2)
    }
}

/// The experience for the place in the table that is the greater of `cr`
/// and the last place. The table has no entry past the last, so `cr` must
/// not lie past it.
pub fn xp(cr: u32) -> (points: u32)
    requires
        cr < XP_ENTRIES,
    ensures
        points == xp_per_cr(XP_ENTRIES - 1),
{
    let last: usize = XP_ENTRIES - 1;
    let index: usize = if (cr as usize) > last {
        cr as usize
    } else {
        last
    };
    xp_of(index)
}

/// A challenge rating as it is written, by its place in the table.
pub open spec fn cr_text(cr: u32) -> Seq<char> {
    if cr == 0 {
        seq!['0']
    } else if cr == 1 {
        seq!['\u{215b}']
    } else if cr == 2 {
        seq!['\u{bc}']
    } else if cr == 3 {
        seq!['\u{bd}']
    } else {
        decimal(cr - 3)
    }
}

/// The challenge rating at place `cr` of the table, as it is written: `0`,
/// the fractions an eighth, a quarter and a half, then the whole numbers
/// from 1 on.
pub fn cr_string(cr: u32) -> (s: String)
    ensures
        s@ == cr_text(cr),
{
    let mut s = String::new();
    if cr == 0 {
        s.push('0');
    } else if cr == 1 {
        s.push('\u{215b}');
    } else if cr == 2 {
        s.push('\u{bc}');
    } else if cr == 3 {
        s.push('\u{bd}');
    } else {
        push_decimal(&mut s, (cr - 3) as i64);
    }
    assert(s@ =~= cr_text(cr));
    s
}

} // verus!
