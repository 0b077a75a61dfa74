//! The least and the greatest value of an expression, and the law that every
//! roll lies between them.
//!
//! The law holds of expressions that grow with their dice: where a higher
//! face never makes the value lower. Of those the bounds can be read off the
//! tree, by [`survey`], without a single throw.

use vstd::prelude::*;
use crate::dice::ast::{option_size, Node, Selection};
use crate::dice::canon::{literal, plain};
use crate::dice::eval::{
    arith, cast, evaluate, face, finish_roll, operand, pick_dice, pick_throw, quotient, reroll, run,
    run_next, run_throw, thrown, DieRoll, Machine, Mode, Step,
};
use crate::dice::pool::{
    before,
    flag,
    insert,
    kept_total,
    lemma_sorted_keeps,
    lemma_sorted_ordered,
    ordered,
    sort_range,
    sorted,
};

verus! {

/// The number of kept dice.
pub open spec fn kept_count(s: Seq<DieRoll>) -> int
    decreases s.len(),
{
    if s.len() == 0 {
        0
    } else {
        kept_count(s.drop_last()) + if s.last().keep {
            1int
        } else {
            0int
        }
    }
}

/// The sum of the sizes of the kept dice.
pub open spec fn kept_span(s: Seq<DieRoll>) -> int
    decreases s.len(),
{
    if s.len() == 0 {
        0
    } else {
        kept_span(s.drop_last()) + if s.last().keep {
            s.last().sides as int
        } else {
            0int
        }
    }
}

/// The sum of the results of the kept dice, as a number without bounds.
pub open spec fn kept_sum(s: Seq<DieRoll>) -> int
    decreases s.len(),
{
    if s.len() == 0 {
        0
    } else {
        kept_sum(s.drop_last()) + if s.last().keep {
            s.last().result as int
        } else {
            0int
        }
    }
}

/// A die that shows one of its faces, the lowest if every die shows the
/// lowest and the highest if every die shows the highest.
pub open spec fn fair(d: DieRoll, mode: Mode) -> bool {
    &&& 1 <= d.result <= d.sides
    &&& mode is Min ==> d.result == 1
    &&& mode is Max ==> d.result == d.sides
}

/// Whether every die is fair.
pub open spec fn all_fair(s: Seq<DieRoll>, mode: Mode) -> bool {
    forall|i: int| 0 <= i < s.len() ==> fair(#[trigger] s[i], mode)
}

/// Whether every die at `a..b` is kept and has `sides` faces.
pub open spec fn uniform(s: Seq<DieRoll>, a: int, b: int, sides: i32) -> bool {
    &&& 0 <= a <= b <= s.len()
    &&& forall|i: int| a <= i < b ==> (#[trigger] s[i]).keep && s[i].sides == sides
}

/// The counts of dice one behind the other add up.
pub proof fn lemma_concat(a: Seq<DieRoll>, b: Seq<DieRoll>)
    ensures
        kept_count(a + b) == kept_count(a) + kept_count(b),
        kept_span(a + b) == kept_span(a) + kept_span(b),
        kept_sum(a + b) == kept_sum(a) + kept_sum(b),
    decreases b.len(),
{
    if b.len() == 0 {
        assert(a + b =~= a);
    } else {
        assert((a + b).drop_last() =~= a + b.drop_last());
        assert((a + b).last() == b.last());
        lemma_concat(a, b.drop_last());
    }
}

/// A sequence of dice is what stands before a range, the range, and what
/// stands behind it.
pub proof fn lemma_three_parts(s: Seq<DieRoll>, a: int, b: int)
    requires
        0 <= a <= b <= s.len(),
    ensures
        s == s.subrange(0, a) + s.subrange(a, b) + s.subrange(b, s.len() as int),
        kept_count(s) == kept_count(s.subrange(0, a)) + kept_count(s.subrange(a, b)) + kept_count(
            s.subrange(b, s.len() as int),
        ),
        kept_span(s) == kept_span(s.subrange(0, a)) + kept_span(s.subrange(a, b)) + kept_span(
            s.subrange(b, s.len() as int),
        ),
        kept_sum(s) == kept_sum(s.subrange(0, a)) + kept_sum(s.subrange(a, b)) + kept_sum(
            s.subrange(b, s.len() as int),
        ),
{
    let x = s.subrange(0, a);
    let y = s.subrange(a, b);
    let z = s.subrange(b, s.len() as int);
    assert(s =~= x + y + z);
    lemma_concat(x + y, z);
    lemma_concat(x, y);
}

/// Putting a die into an ordered sequence adds the die to every count.
pub proof fn lemma_insert_counts(s: Seq<DieRoll>, x: DieRoll, high: bool)
    ensures
        kept_count(insert(s, x, high)) == kept_count(s) + kept_count(seq![x]),
        kept_span(insert(s, x, high)) == kept_span(s) + kept_span(seq![x]),
        kept_sum(insert(s, x, high)) == kept_sum(s) + kept_sum(seq![x]),
    decreases s.len(),
{
    if s.len() == 0 {
        assert(insert(s, x, high) =~= seq![x]);
    } else if before(s.last(), x, high) {
        assert(s.push(x) =~= s + seq![x]);
        lemma_concat(s, seq![x]);
    } else {
        lemma_insert_counts(s.drop_last(), x, high);
        let shorter = insert(s.drop_last(), x, high);
        let tail = seq![s.last()];
        assert(insert(s, x, high) =~= shorter + tail);
        lemma_concat(shorter, tail);
        assert(s =~= s.drop_last() + tail);
        lemma_concat(s.drop_last(), tail);
    }
}

/// Putting dice in order changes none of the counts.
pub proof fn lemma_sorted_counts(s: Seq<DieRoll>, high: bool)
    ensures
        kept_count(sorted(s, high)) == kept_count(s),
        kept_span(sorted(s, high)) == kept_span(s),
        kept_sum(sorted(s, high)) == kept_sum(s),
    decreases s.len(),
{
    if s.len() > 0 {
        lemma_sorted_counts(s.drop_last(), high);
        lemma_insert_counts(sorted(s.drop_last(), high), s.last(), high);
        let tail = seq![s.last()];
        assert(s =~= s.drop_last() + tail);
        lemma_concat(s.drop_last(), tail);
    }
}

/// Putting a range of dice in order changes none of the counts, keeps every
/// die fair, and keeps a range of like dice within it alike.
pub proof fn lemma_sort_range_counts(s: Seq<DieRoll>, a: int, b: int, high: bool, mode: Mode)
    requires
        0 <= a <= b <= s.len(),
    ensures
        sort_range(s, a, b, high).len() == s.len(),
        kept_count(sort_range(s, a, b, high)) == kept_count(s),
        kept_span(sort_range(s, a, b, high)) == kept_span(s),
        kept_sum(sort_range(s, a, b, high)) == kept_sum(s),
        all_fair(s, mode) ==> all_fair(sort_range(s, a, b, high), mode),
        forall|sides: i32| uniform(s, a, b, sides) ==> uniform(sort_range(s, a, b, high), a, b, sides),
        forall|i: int| 0 <= i < a ==> sort_range(s, a, b, high)[i] == s[i],
        forall|i: int| b <= i < s.len() ==> sort_range(s, a, b, high)[i] == s[i],
{
    let x = s.subrange(0, a);
    let y = s.subrange(a, b);
    let z = s.subrange(b, s.len() as int);
    let out = sort_range(s, a, b, high);
    lemma_three_parts(s, a, b);
    lemma_sorted_counts(y, high);
    lemma_sorted_keeps(y, high, |d: DieRoll| true);
    lemma_concat(x + sorted(y, high), z);
    lemma_concat(x, sorted(y, high));
    assert forall|i: int| 0 <= i < a implies out[i] == s[i] by {
        assert(out[i] == x[i]);
    }
    assert forall|i: int| b <= i < s.len() implies out[i] == s[i] by {
        assert(out[i] == z[i - b]);
    }
    if all_fair(s, mode) {
        assert forall|i: int| 0 <= i < y.len() implies (|d: DieRoll| fair(d, mode))(
            #[trigger] y[i],
        ) by {
            assert(y[i] == s[a + i]);
        }
        lemma_sorted_keeps(y, high, |d: DieRoll| fair(d, mode));
        assert forall|i: int| 0 <= i < out.len() implies fair(#[trigger] out[i], mode) by {
            if a <= i < b {
                assert(out[i] == sorted(y, high)[i - a]);
                assert((|d: DieRoll| fair(d, mode))(sorted(y, high)[i - a]));
            }
        }
    }
    assert forall|sides: i32| uniform(s, a, b, sides) implies uniform(out, a, b, sides) by {
        assert forall|i: int| 0 <= i < y.len() implies (|d: DieRoll| d.keep && d.sides == sides)(
            #[trigger] y[i],
        ) by {
            assert(y[i] == s[a + i]);
        }
        lemma_sorted_keeps(y, high, |d: DieRoll| d.keep && d.sides == sides);
        assert forall|i: int| a <= i < b implies (#[trigger] out[i]).keep && out[i].sides
            == sides by {
            assert(out[i] == sorted(y, high)[i - a]);
            assert((|d: DieRoll| d.keep && d.sides == sides)(sorted(y, high)[i - a]));
        }
    }
}

/// The counts of dice that are all alike: all kept, or all dropped, and all
/// of one size.
pub proof fn lemma_alike(s: Seq<DieRoll>, keep: bool, sides: i32)
    requires
        forall|i: int| 0 <= i < s.len() ==> (#[trigger] s[i]).keep == keep && s[i].sides == sides,
    ensures
        kept_count(s) == (if keep {
            s.len() as int
        } else {
            0
        }),
        kept_span(s) == (if keep {
            s.len() * sides
        } else {
            0
        }),
    decreases s.len(),
{
    if s.len() > 0 {
        lemma_alike(s.drop_last(), keep, sides);
        assert(s.len() * sides == (s.len() - 1) * sides + sides) by (nonlinear_arith);
    }
}

/// Dropping a range of like dice that were all kept takes them off the
/// counts; marking them as kept changes nothing.
pub proof fn lemma_flag(s: Seq<DieRoll>, a: int, b: int, keep: bool, sides: i32, mode: Mode)
    requires
        uniform(s, a, b, sides),
    ensures
        flag(s, a, b, keep).len() == s.len(),
        keep ==> flag(s, a, b, keep) == s,
        !keep ==> kept_count(flag(s, a, b, keep)) == kept_count(s) - (b - a),
        !keep ==> kept_span(flag(s, a, b, keep)) == kept_span(s) - (b - a) * sides,
        all_fair(s, mode) ==> all_fair(flag(s, a, b, keep), mode),
        forall|i: int| 0 <= i < s.len() && !(a <= i < b) ==> flag(s, a, b, keep)[i] == s[i],
        forall|i: int| a <= i < b ==> flag(s, a, b, keep)[i].sides == sides,
{
    let out = flag(s, a, b, keep);
    if keep {
        assert(out =~= s);
    } else {
        lemma_three_parts(s, a, b);
        lemma_three_parts(out, a, b);
        assert(out.subrange(0, a) =~= s.subrange(0, a));
        assert(out.subrange(b, out.len() as int) =~= s.subrange(b, s.len() as int));
        lemma_alike(s.subrange(a, b), true, sides);
        lemma_alike(out.subrange(a, b), false, sides);
    }
}

/// The sum of the kept results lies between the number of kept dice and
/// the sum of their sizes, and is the one or the other where every die shows
/// its lowest or its highest face. Where the sizes add up within `i32`, the
/// sum that the machine computes is that sum.
pub proof fn lemma_kept_sum(s: Seq<DieRoll>, mode: Mode)
    requires
        all_fair(s, mode),
    ensures
        0 <= kept_count(s) <= kept_sum(s) <= kept_span(s),
        mode is Min ==> kept_sum(s) == kept_count(s),
        mode is Max ==> kept_sum(s) == kept_span(s),
        kept_span(s) <= i32::MAX ==> kept_total(s) == kept_sum(s),
    decreases s.len(),
{
    if s.len() > 0 {
        assert(fair(s.last(), mode));
        assert forall|i: int| 0 <= i < s.drop_last().len() implies fair(
            #[trigger] s.drop_last()[i],
            mode,
        ) by {
            assert(s.drop_last()[i] == s[i]);
        }
        lemma_kept_sum(s.drop_last(), mode);
    }
}

/// Throwing `n` dice of `sides` faces puts `n` kept, fair dice of that size
/// behind the others.
pub proof fn lemma_cast(mode: Mode, faces: Seq<i32>, rolls: Seq<DieRoll>, sides: i32, n: int)
    requires
        !(mode is Mid),
        sides >= 1,
        n >= 0,
        all_fair(rolls, mode),
        cast(mode, faces, rolls, sides, n) is Some,
    ensures
        ({
            let after = cast(mode, faces, rolls, sides, n)->0;
            &&& after.len() == rolls.len() + n
            &&& after.subrange(0, rolls.len() as int) == rolls
            &&& uniform(after, rolls.len() as int, after.len() as int, sides)
            &&& all_fair(after, mode)
            &&& kept_count(after) == kept_count(rolls) + n
            &&& kept_span(after) == kept_span(rolls) + n * sides
        }),
    decreases n,
{
    if n > 0 {
        lemma_cast(mode, faces, rolls, sides, n - 1);
        let sofar = cast(mode, faces, rolls, sides, n - 1)->0;
        let f = face(mode, faces, sofar.len() as int, sides)->0;
        let after = sofar.push(thrown(sides, f));
        assert(after.drop_last() =~= sofar);
        assert(after.subrange(0, rolls.len() as int) =~= sofar.subrange(0, rolls.len() as int));
        assert(n * sides == (n - 1) * sides + sides) by (nonlinear_arith);
        assert forall|i: int| 0 <= i < after.len() implies fair(#[trigger] after[i], mode) by {
            if i < sofar.len() {
                assert(after[i] == sofar[i]);
            }
        }
        assert forall|i: int| rolls.len() <= i < after.len() implies (#[trigger] after[i]).keep
            && after[i].sides == sides by {
            if i < sofar.len() {
                assert(after[i] == sofar[i]);
            }
        }
    } else {
        assert(rolls.subrange(0, rolls.len() as int) =~= rolls);
    }
}

/// Throwing a pool of like dice again puts as many kept, fair dice of that
/// size behind the others.
pub proof fn lemma_reroll(
    mode: Mode,
    faces: Seq<i32>,
    rolls: Seq<DieRoll>,
    a: int,
    b: int,
    sides: i32,
)
    requires
        !(mode is Mid),
        sides >= 1,
        uniform(rolls, a, b, sides),
        all_fair(rolls, mode),
        reroll(mode, faces, rolls, a, b) is Some,
    ensures
        ({
            let after = reroll(mode, faces, rolls, a, b)->0;
            &&& after.len() == rolls.len() + (b - a)
            &&& after.subrange(0, rolls.len() as int) == rolls
            &&& uniform(after, rolls.len() as int, after.len() as int, sides)
            &&& uniform(after, a, b, sides)
            &&& all_fair(after, mode)
            &&& kept_count(after) == kept_count(rolls) + (b - a)
            &&& kept_span(after) == kept_span(rolls) + (b - a) * sides
        }),
    decreases b - a,
{
    if b > a {
        assert(uniform(rolls, a, b - 1, sides));
        lemma_reroll(mode, faces, rolls, a, b - 1, sides);
        let sofar = reroll(mode, faces, rolls, a, b - 1)->0;
        assert(sofar[b - 1] == rolls[b - 1]) by {
            assert(sofar.subrange(0, rolls.len() as int)[b - 1] == rolls[b - 1]);
        }
        let f = face(mode, faces, sofar.len() as int, sides)->0;
        let after = sofar.push(thrown(sides, f));
        assert(after.drop_last() =~= sofar);
        assert(after.subrange(0, rolls.len() as int) =~= sofar.subrange(0, rolls.len() as int));
        assert((b - a) * sides == (b - 1 - a) * sides + sides) by (nonlinear_arith);
        assert forall|i: int| 0 <= i < after.len() implies fair(#[trigger] after[i], mode) by {
            if i < sofar.len() {
                assert(after[i] == sofar[i]);
            }
        }
        assert forall|i: int| rolls.len() <= i < after.len() implies (#[trigger] after[i]).keep
            && after[i].sides == sides by {
            if i < sofar.len() {
                assert(after[i] == sofar[i]);
            }
        }
        assert forall|i: int| a <= i < b implies (#[trigger] after[i]).keep && after[i].sides
            == sides by {
            assert(after[i] == sofar[i]);
            assert(sofar.subrange(0, rolls.len() as int)[i] == rolls[i]);
        }
    } else {
        assert(rolls.subrange(0, rolls.len() as int) =~= rolls);
    }
}

/// Where every die shows a fixed face, there is a face for every throw.
pub proof fn lemma_cast_fixed(mode: Mode, faces: Seq<i32>, rolls: Seq<DieRoll>, sides: i32, n: int)
    requires
        !(mode is Rand),
    ensures
        cast(mode, faces, rolls, sides, n) is Some,
    decreases n,
{
    if n > 0 {
        lemma_cast_fixed(mode, faces, rolls, sides, n - 1);
    }
}

/// Where every die shows a fixed face, there is a face for every die thrown
/// again.
pub proof fn lemma_reroll_fixed(mode: Mode, faces: Seq<i32>, rolls: Seq<DieRoll>, a: int, b: int)
    requires
        !(mode is Rand),
    ensures
        reroll(mode, faces, rolls, a, b) is Some,
    decreases b - a,
{
    if b > a {
        lemma_reroll_fixed(mode, faces, rolls, a, b - 1);
    }
}

/// The count that a keep or drop is written with, 1 where it has none.
pub open spec fn count_of(selection: Selection) -> int {
    match selection.count() {
        Some(c) => literal(c) as int,
        None => 1,
    }
}

/// A chain of selections whose counts, where they have any, are plain
/// literals.
pub open spec fn picked(select: Option<Box<Node>>) -> bool
    decreases select,
{
    match select {
        None => true,
        Some(node) => match *node {
            Node::Select { selection, next } => (match selection.count() {
                Some(c) => plain(c),
                None => true,
            }) && picked(next),
            _ => false,
        },
    }
}

/// The number of dice that a chain of selections leaves kept of a pool of
/// `n`, or nothing where one of them asks for more dice than it finds.
pub open spec fn survivors(select: Option<Box<Node>>, n: int) -> Option<int>
    decreases select,
{
    match select {
        None => Some(n),
        Some(node) => match *node {
            Node::Select { selection, next } => if selection.rerolls() {
                survivors(next, n)
            } else if count_of(selection) > n {
                None
            } else if selection.keeps() {
                survivors(next, count_of(selection))
            } else {
                survivors(next, n - count_of(selection))
            },
            _ => None,
        },
    }
}

/// What is kept of the dice thrown so far: how many, and the sum of their
/// sizes.
pub struct Tally {
    pub kept: int,
    pub span: int,
}

/// The tally of a sequence of dice.
pub open spec fn tally(rolls: Seq<DieRoll>) -> Tally {
    Tally { kept: kept_count(rolls), span: kept_span(rolls) }
}

/// Whether `x` is a value of `i32`.
pub open spec fn fits(x: int) -> bool {
    i32::MIN <= x <= i32::MAX
}

/// The values of a binary node whose operands have the values from `lo1` to
/// `hi1` and from `lo2` to `hi2`: from the value of the lowest operands to
/// the value of the highest. There are none where the node does not grow
/// with its operands:
///
/// - a difference, unless what is taken off is one value;
/// - a product, unless neither factor is negative, or one factor is one
///   value and is not negative, or both are one value;
/// - a quotient, unless the divisor is one value and positive, or both are
///   one value and the divisor is not 0;
///
/// nor where one of the two values is no value of `i32`.
pub open spec fn combined(node: Node, lo1: int, hi1: int, lo2: int, hi2: int) -> Option<(int, int)> {
    match node {
        Node::Add { .. } => if fits(lo1 + lo2) && fits(hi1 + hi2) {
            Some((lo1 + lo2, hi1 + hi2))
        } else {
            None
        },
        Node::Sub { .. } => if lo2 == hi2 && fits(lo1 - lo2) && fits(hi1 - hi2) {
            Some((lo1 - lo2, hi1 - hi2))
        } else {
            None
        },
        Node::Mul { .. } => if ((lo1 >= 0 && lo2 >= 0) || (lo1 == hi1 && lo1 >= 0) || (lo2 == hi2
            && lo2 >= 0) || (lo1 == hi1 && lo2 == hi2)) && fits(lo1 * lo2) && fits(hi1 * hi2) {
            Some((lo1 * lo2, hi1 * hi2))
        } else {
            None
        },
        Node::Div { .. } => if lo2 == hi2 && fits(lo1) && fits(hi1) && fits(lo2) && (lo2 > 0 || (
            lo2 < 0 && lo1 == hi1 && !(lo1 == i32::MIN && lo2 == -1))) {
            Some(
                (
                    quotient(lo1 as i32, lo2 as i32) as int,
                    quotient(hi1 as i32, lo2 as i32) as int,
                ),
            )
        } else {
            None
        },
        _ => None,
    }
}

/// The least and the greatest value of `node`, read off the tree, and the
/// tally after it, given the tally before it: the values of the node when
/// every die shows 1 and when every die shows its highest face. The value of
/// a roll is the sum of every die kept so far, so its bounds are the two
/// numbers of the tally.
///
/// There are bounds for literals, for rolls with a literal count and size
/// and a chain of selections with literal counts that never asks for more
/// dice than it finds, for the negation of what has one value, and for the
/// sums, differences, products and quotients that [`combined`] has values
/// for.
pub open spec fn survey(node: Node, t: Tally) -> Option<(int, int, Tally)>
    decreases node,
{
    match node {
        Node::Lit { value } => Some((value as int, value as int, t)),
        Node::Roll { count, sides, select } => if plain(count) && plain(sides) && literal(sides)
            >= 1 && picked(select) {
            match survivors(select, literal(count) as int) {
                Some(k) => {
                    let after = Tally { kept: t.kept + k, span: t.span + k * literal(sides) };
                    if after.span <= i32::MAX {
                        Some((after.kept, after.span, after))
                    } else {
                        None
                    }
                },
                None => None,
            }
        } else {
            None
        },
        Node::Neg { right } => match survey(*right, t) {
            Some((lo, hi, after)) => if lo == hi && fits(-lo) {
                Some((-lo, -lo, after))
            } else {
                None
            },
            None => None,
        },
        Node::Add { left, right }
        | Node::Sub { left, right }
        | Node::Mul { left, right }
        | Node::Div { left, right } => match survey(*left, t) {
            Some((lo1, hi1, t1)) => match survey(*right, t1) {
                Some((lo2, hi2, t2)) => match combined(node, lo1, hi1, lo2, hi2) {
                    Some((lo, hi)) => Some((lo, hi, t2)),
                    None => None,
                },
                None => None,
            },
            None => None,
        },
        Node::Select { .. } => None,
    }
}

/// A chain of selections never leaves more dice kept than it finds, nor
/// fewer than none.
pub proof fn lemma_survivors(select: Option<Box<Node>>, n: int)
    requires
        picked(select),
        n >= 0,
        survivors(select, n) is Some,
    ensures
        0 <= survivors(select, n)->0 <= n,
    decreases select,
{
    if let Some(node) = select {
        if let Node::Select { selection, next } = *node {
            if selection.rerolls() {
                lemma_survivors(next, n);
            } else if selection.keeps() {
                lemma_survivors(next, count_of(selection));
            } else {
                lemma_survivors(next, n - count_of(selection));
            }
        }
    }
}

/// What advantage or disadvantage leaves of a pool of like, kept dice that
/// has been thrown again: one of the two throws, all of it kept, and as many
/// dice kept in all as before the second throw.
pub proof fn lemma_pick_throw(
    selection: Selection,
    mode: Mode,
    before: Seq<DieRoll>,
    rolls: Seq<DieRoll>,
    a: int,
    b: int,
    sides: i32,
)
    requires
        uniform(before, a, b, sides),
        rolls.len() == before.len() + (b - a),
        uniform(rolls, before.len() as int, rolls.len() as int, sides),
        uniform(rolls, a, b, sides),
        all_fair(rolls, mode),
        kept_count(rolls) == kept_count(before) + (b - a),
        kept_span(rolls) == kept_span(before) + (b - a) * sides,
    ensures
        ({
            let (marked, winner) = pick_throw(selection, rolls, a, b);
            &&& uniform(marked, winner.0, winner.1, sides)
            &&& winner.1 - winner.0 == b - a
            &&& all_fair(marked, mode)
            &&& marked.len() == rolls.len()
            &&& kept_count(marked) == kept_count(before)
            &&& kept_span(marked) == kept_span(before)
        }),
{
    let again = rolls.len() - (b - a);
    let (marked, winner) = pick_throw(selection, rolls, a, b);
    if winner == (a, b) {
        lemma_flag(rolls, again, rolls.len() as int, false, sides, mode);
        assert forall|i: int| a <= i < b implies (#[trigger] marked[i]).keep && marked[i].sides
            == sides by {
            assert(marked[i] == rolls[i]);
        }
    } else {
        lemma_flag(rolls, a, b, false, sides, mode);
        assert forall|i: int| again <= i < rolls.len() implies (#[trigger] marked[i]).keep
            && marked[i].sides == sides by {
            assert(marked[i] == rolls[i]);
        }
    }
}

/// What a keep or drop of `v` dice leaves of a pool of like, kept dice: the
/// dice it keeps, all of them kept, and that many fewer dice kept in all as
/// it drops.
pub proof fn lemma_pick_dice(
    selection: Selection,
    mode: Mode,
    rolls: Seq<DieRoll>,
    a: int,
    b: int,
    sides: i32,
    v: int,
)
    requires
        uniform(rolls, a, b, sides),
        all_fair(rolls, mode),
        0 <= v <= b - a,
        v <= i32::MAX,
    ensures
        pick_dice(selection, rolls, a, b, v as usize) matches Ok((marked, pool)) && {
            &&& uniform(marked, pool.0, pool.1, sides)
            &&& pool.1 - pool.0 == (if selection.keeps() {
                v
            } else {
                b - a - v
            })
            &&& all_fair(marked, mode)
            &&& marked.len() == rolls.len()
            &&& kept_count(marked) == kept_count(rolls) - (b - a) + (pool.1 - pool.0)
            &&& kept_span(marked) == kept_span(rolls) - (b - a) * sides + (pool.1 - pool.0) * sides
        },
{
    let high = selection.high();
    let keep = selection.keeps();
    lemma_sort_range_counts(rolls, a, b, high, mode);
    let ordered = sort_range(rolls, a, b, high);
    assert(uniform(ordered, a, b, sides));
    assert(uniform(ordered, a, a + v, sides));
    lemma_flag(ordered, a, a + v, keep, sides, mode);
    let half = flag(ordered, a, a + v, keep);
    assert forall|i: int| a + v <= i < b implies (#[trigger] half[i]).keep && half[i].sides
        == sides by {
        assert(half[i] == ordered[i]);
    }
    lemma_flag(half, a + v, b, !keep, sides, mode);
    let marked = flag(half, a + v, b, !keep);
    if keep {
        assert forall|i: int| a <= i < a + v implies (#[trigger] marked[i]).keep && marked[i].sides
            == sides by {
            assert(marked[i] == half[i]);
        }
    }
    assert((b - a) * sides == v * sides + (b - a - v) * sides) by (nonlinear_arith);
}

/// What a chain of selections does to a pool of like, kept dice: it runs
/// through, leaves stack and pools as they were and every die fair, and of
/// the pool it leaves kept what [`survivors`] counts.
#[verifier::rlimit(50)]
pub proof fn lemma_chain(
    select: Option<Box<Node>>,
    mode: Mode,
    faces: Seq<i32>,
    m: Machine,
    a: int,
    b: int,
    sides: i32,
)
    requires
        picked(select),
        !(mode is Mid),
        sides >= 1,
        all_fair(m.rolls, mode),
        uniform(m.rolls, a, b, sides),
        survivors(select, b - a) is Some,
        mode is Rand ==> !(run_next(select, mode, faces, m, (a, b)) is Invalid),
    ensures
        run_next(select, mode, faces, m, (a, b)) matches Step::Done(after) && {
            let k = survivors(select, b - a)->0;
            &&& after.results == m.results
            &&& after.pools == m.pools
            &&& all_fair(after.rolls, mode)
            &&& after.rolls.len() >= m.rolls.len()
            &&& kept_count(after.rolls) == kept_count(m.rolls) - (b - a) + k
            &&& kept_span(after.rolls) == kept_span(m.rolls) - (b - a) * sides + k * sides
        },
    decreases option_size(select),
{
    let n = b - a;
    if let Some(node) = select {
        if let Node::Select { selection, next } = *node {
            let mp = m.push_pool(a, b);
            assert(mp.pools.last() == (a, b));
            assert(mp.pools.drop_last() =~= m.pools);
            if selection.rerolls() {
                if !(mode is Rand) {
                    lemma_reroll_fixed(mode, faces, m.rolls, a, b);
                }
                lemma_reroll(mode, faces, m.rolls, a, b, sides);
                let rolls = reroll(mode, faces, m.rolls, a, b)->0;
                lemma_pick_throw(selection, mode, m.rolls, rolls, a, b, sides);
                let (marked, winner) = pick_throw(selection, rolls, a, b);
                let m1 = mp.with_rolls(marked);
                assert(run(*node, mode, faces, mp) == run_next(next, mode, faces, m1, winner));
                lemma_chain(next, mode, faces, m1, winner.0, winner.1, sides);
            } else {
                let v = count_of(selection);
                if let Some(c) = selection.count() {
                    assert(mp.push(literal(c)).popped().results =~= mp.results);
                    assert(mp.push(literal(c)).popped() == mp);
                    assert(operand(*c, mode, faces, mp) == Step::Done((literal(c), mp)));
                }
                lemma_pick_dice(selection, mode, m.rolls, a, b, sides, v);
                let (marked, pool) = pick_dice(selection, m.rolls, a, b, v as usize)->Ok_0;
                let m1 = mp.with_rolls(marked);
                assert(run(*node, mode, faces, mp) == run_next(next, mode, faces, m1, pool));
                lemma_chain(next, mode, faces, m1, pool.0, pool.1, sides);
                assert((b - a) * sides == (pool.1 - pool.0) * sides + (b - a - (pool.1 - pool.0))
                    * sides) by (nonlinear_arith);
            }
        }
    }
}

/// What the machine makes of a value that is pushed and taken off again:
/// nothing.
pub proof fn lemma_push_pop(m: Machine, value: i32)
    ensures
        m.push(value).popped() == m,
        m.push(value).results.last() == value,
{
    assert(m.push(value).popped().results =~= m.results);
}

/// What the throw of a roll and its selections does to a machine whose dice
/// are fair: it leaves the stack one value higher, and that value between
/// the number of dice kept and the sum of their sizes.
pub proof fn lemma_throw(
    select: Option<Box<Node>>,
    mode: Mode,
    faces: Seq<i32>,
    m: Machine,
    n: i32,
    size: i32,
)
    requires
        picked(select),
        !(mode is Mid),
        n >= 0,
        size >= 1,
        all_fair(m.rolls, mode),
        survivors(select, n as int) is Some,
        kept_span(m.rolls) + (survivors(select, n as int)->0) * size <= i32::MAX,
        mode is Rand ==> !(run_throw(select, mode, faces, m, n, size) is Invalid),
    ensures
        run_throw(select, mode, faces, m, n, size) matches Step::Done(after) && {
            let k = survivors(select, n as int)->0;
            let value = after.results.last();
            &&& after.results == m.results.push(value)
            &&& after.pools == m.pools
            &&& all_fair(after.rolls, mode)
            &&& kept_count(after.rolls) == kept_count(m.rolls) + k
            &&& kept_span(after.rolls) == kept_span(m.rolls) + k * size
            &&& 0 <= kept_count(after.rolls) <= value <= kept_span(after.rolls)
            &&& mode is Min ==> value == kept_count(after.rolls)
            &&& mode is Max ==> value == kept_span(after.rolls)
        },
{
    if !(mode is Rand) {
        lemma_cast_fixed(mode, faces, m.rolls, size, n as int);
    }
    lemma_cast(mode, faces, m.rolls, size, n as int);
    let rolls = cast(mode, faces, m.rolls, size, n as int)->0;
    let start = m.rolls.len() as int;
    let end = rolls.len() as int;
    let m1 = m.with_rolls(rolls);
    lemma_chain(select, mode, faces, m1, start, end, size);
    let m2 = run_next(select, mode, faces, m1, (start, end))->Done_0;
    lemma_sort_range_counts(m2.rolls, start, end, true, mode);
    let after = finish_roll(m2, start, end);
    lemma_kept_sum(after.rolls, mode);
    assert(n * size - (end - start) * size == 0) by (nonlinear_arith)
        requires
            end - start == n,
    ;
}

/// What running a tree that [`survey`] has bounds for leads to: the run goes
/// through and leaves the stack one value higher, and that value within the
/// bounds; at the lower bound where every die shows 1, at the upper where
/// every die shows its highest face.
pub open spec fn surveyed(node: Node, mode: Mode, faces: Seq<i32>, m: Machine) -> bool {
    run(node, mode, faces, m) matches Step::Done(after) && {
        let (lo, hi, t) = survey(node, tally(m.rolls))->0;
        let value = after.results.last();
        &&& after.results == m.results.push(value)
        &&& after.pools == m.pools
        &&& all_fair(after.rolls, mode)
        &&& tally(after.rolls) == t
        &&& i32::MIN <= lo <= value <= hi <= i32::MAX
        &&& mode is Min ==> value == lo
        &&& mode is Max ==> value == hi
    }
}

/// A roll that [`survey`] has bounds for runs as [`surveyed`] says.
pub proof fn lemma_survey_roll(
    count: Box<Node>,
    sides: Box<Node>,
    select: Option<Box<Node>>,
    mode: Mode,
    faces: Seq<i32>,
    m: Machine,
)
    requires
        !(mode is Mid),
        all_fair(m.rolls, mode),
        survey(Node::Roll { count, sides, select }, tally(m.rolls)) is Some,
        mode is Rand ==> !(run(Node::Roll { count, sides, select }, mode, faces, m) is Invalid),
    ensures
        surveyed(Node::Roll { count, sides, select }, mode, faces, m),
{
    let node = Node::Roll { count, sides, select };
    let n = literal(count);
    let size = literal(sides);
    lemma_push_pop(m, n);
    lemma_push_pop(m, size);
    assert(operand(*count, mode, faces, m) == Step::Done((n, m)));
    assert(operand(*sides, mode, faces, m) == Step::Done((size, m)));
    assert(run(node, mode, faces, m) == run_throw(select, mode, faces, m, n, size));
    lemma_throw(select, mode, faces, m, n, size);
}

/// Quotients by a positive divisor grow with what is divided.
pub proof fn lemma_quotient_grows(a: i32, b: i32, d: i32)
    requires
        a <= b,
        d > 0,
    ensures
        quotient(a, d) <= quotient(b, d),
{
    if a >= 0 {
        vstd::arithmetic::div_mod::lemma_div_is_ordered(a as int, b as int, d as int);
    } else if b >= 0 {
        vstd::arithmetic::div_mod::lemma_div_pos_is_pos(-(a as int), d as int);
        vstd::arithmetic::div_mod::lemma_div_pos_is_pos(b as int, d as int);
    } else {
        vstd::arithmetic::div_mod::lemma_div_is_ordered(-(b as int), -(a as int), d as int);
    }
}

/// The value of a binary node lies between the values that [`combined`]
/// gives, and is the one or the other where the operands are the lowest or
/// the highest.
pub proof fn lemma_combined(node: Node, lo1: int, hi1: int, lo2: int, hi2: int, a: i32, b: i32)
    requires
        combined(node, lo1, hi1, lo2, hi2) is Some,
        lo1 <= a <= hi1,
        lo2 <= b <= hi2,
    ensures
        arith(node, a, b) matches Ok(value) && {
            let (lo, hi) = combined(node, lo1, hi1, lo2, hi2)->0;
            &&& fits(lo) && fits(hi)
            &&& lo <= value <= hi
            &&& (a == lo1 && b == lo2) ==> value == lo
            &&& (a == hi1 && b == hi2) ==> value == hi
        },
{
    match node {
        Node::Add { .. } => {},
        Node::Sub { .. } => {},
        Node::Mul { .. } => {
            assert(lo1 * lo2 <= a * b <= hi1 * hi2) by (nonlinear_arith)
                requires
                    lo1 <= a <= hi1,
                    lo2 <= b <= hi2,
                    (lo1 >= 0 && lo2 >= 0) || (lo1 == hi1 && lo1 >= 0) || (lo2 == hi2 && lo2 >= 0)
                        || (lo1 == hi1 && lo2 == hi2),
            ;
            assert(a.wrapping_mul(b) == a * b);
        },
        Node::Div { .. } => {
            if lo2 > 0 {
                lemma_quotient_grows(lo1 as i32, a, b);
                lemma_quotient_grows(a, hi1 as i32, b);
            }
        },
        _ => {},
    }
}

/// A binary node that [`survey`] has bounds for runs as [`surveyed`] says,
/// if its operands do.
pub proof fn lemma_survey_binary(node: Node, mode: Mode, faces: Seq<i32>, m: Machine)
    requires
        node is Add || node is Sub || node is Mul || node is Div,
        survey(node, tally(m.rolls)) is Some,
        surveyed(crate::dice::canon::left_of(node), mode, faces, m),
        surveyed(
            crate::dice::canon::right_of(node),
            mode,
            faces,
            run(crate::dice::canon::left_of(node), mode, faces, m)->Done_0.popped(),
        ),
    ensures
        surveyed(node, mode, faces, m),
{
    let left = crate::dice::canon::left_of(node);
    let right = crate::dice::canon::right_of(node);
    let t0 = tally(m.rolls);
    let m1 = run(left, mode, faces, m)->Done_0;
    let a = m1.results.last();
    assert(m1.popped().results =~= m.results);
    let m1p = m1.popped();
    assert(operand(left, mode, faces, m) == Step::Done((a, m1p)));
    let m2 = run(right, mode, faces, m1p)->Done_0;
    let b = m2.results.last();
    assert(m2.popped().results =~= m.results);
    assert(operand(right, mode, faces, m1p) == Step::Done((b, m2.popped())));
    let (lo1, hi1, t1) = survey(left, t0)->0;
    let (lo2, hi2, t2) = survey(right, t1)->0;
    lemma_combined(node, lo1, hi1, lo2, hi2, a, b);
    let value = arith(node, a, b)->Ok_0;
    let after = m2.popped().push(value);
    assert(after.results.last() == value);
    assert(run(node, mode, faces, m) == Step::Done(after));
}

/// A tree that [`survey`] has bounds for runs, on a machine whose dice are
/// fair, as [`surveyed`] says.
pub proof fn lemma_survey(node: Node, mode: Mode, faces: Seq<i32>, m: Machine)
    requires
        !(mode is Mid),
        all_fair(m.rolls, mode),
        survey(node, tally(m.rolls)) is Some,
        mode is Rand ==> !(run(node, mode, faces, m) is Invalid),
    ensures
        surveyed(node, mode, faces, m),
    decreases node.size(),
{
    match node {
        Node::Lit { value } => {
            let after = m.push(value);
            assert(after.results.last() == value);
        },
        Node::Roll { count, sides, select } => {
            lemma_survey_roll(count, sides, select, mode, faces, m);
        },
        Node::Neg { right } => {
            lemma_survey(*right, mode, faces, m);
            let m1 = run(*right, mode, faces, m)->Done_0;
            let value = m1.results.last();
            assert(m1.popped().results =~= m.results);
            assert(operand(*right, mode, faces, m) == Step::Done((value, m1.popped())));
            let after = m1.popped().push(0i32.wrapping_sub(value));
            assert(after.results.last() == 0i32.wrapping_sub(value));
        },
        Node::Add { left, right }
        | Node::Sub { left, right }
        | Node::Mul { left, right }
        | Node::Div { left, right } => {
            lemma_survey(*left, mode, faces, m);
            let m1 = run(*left, mode, faces, m)->Done_0;
            assert(operand(*left, mode, faces, m) == Step::Done(
                (m1.results.last(), m1.popped()),
            ));
            lemma_survey(*right, mode, faces, m1.popped());
            lemma_survey_binary(node, mode, faces, m);
        },
        _ => {},
    }
}

/// Bounds: where [`survey`] has bounds for an expression, they are what the
/// expression evaluates to when every die shows 1 and when every die shows
/// its highest face, and every roll of the expression lies between them.
pub proof fn lemma_bounds(node: Node, faces: Seq<i32>)
    requires
        survey(node, Tally { kept: 0, span: 0 }) is Some,
        !(evaluate(node, Mode::Rand, faces) is Invalid),
    ensures
        ({
            let (lo, hi, t) = survey(node, Tally { kept: 0, span: 0 })->0;
            &&& evaluate(node, Mode::Min, Seq::empty()) matches Step::Done((low, _)) && low == lo
            &&& evaluate(node, Mode::Max, Seq::empty()) matches Step::Done((high, _)) && high
                == hi
            &&& evaluate(node, Mode::Rand, faces) matches Step::Done((value, _)) && lo <= value
                <= hi
        }),
{
    let m = Machine::empty();
    assert(tally(m.rolls) == Tally { kept: 0, span: 0 });
    lemma_survey(node, Mode::Min, Seq::empty(), m);
    lemma_survey(node, Mode::Max, Seq::empty(), m);
    lemma_survey(node, Mode::Rand, faces, m);
}

/// Whether every pool of the machine lies within its dice.
pub open spec fn pools_within(m: Machine) -> bool {
    forall|i: int|
        0 <= i < m.pools.len() ==> 0 <= (#[trigger] m.pools[i]).0 <= m.pools[i].1 <= m.rolls.len()
}

/// Dice thrown at random are fair.
pub proof fn lemma_cast_fair(faces: Seq<i32>, rolls: Seq<DieRoll>, sides: i32, n: int)
    requires
        all_fair(rolls, Mode::Rand),
        cast(Mode::Rand, faces, rolls, sides, n) is Some,
    ensures
        all_fair(cast(Mode::Rand, faces, rolls, sides, n)->0, Mode::Rand),
        cast(Mode::Rand, faces, rolls, sides, n)->0.len() >= rolls.len(),
    decreases n,
{
    if n > 0 {
        lemma_cast_fair(faces, rolls, sides, n - 1);
        let sofar = cast(Mode::Rand, faces, rolls, sides, n - 1)->0;
        let after = cast(Mode::Rand, faces, rolls, sides, n)->0;
        assert forall|i: int| 0 <= i < after.len() implies fair(#[trigger] after[i], Mode::Rand) by {
            if i < sofar.len() {
                assert(after[i] == sofar[i]);
            }
        }
    }
}

/// Dice thrown again at random are fair.
pub proof fn lemma_reroll_fair(faces: Seq<i32>, rolls: Seq<DieRoll>, a: int, b: int)
    requires
        all_fair(rolls, Mode::Rand),
        reroll(Mode::Rand, faces, rolls, a, b) is Some,
    ensures
        all_fair(reroll(Mode::Rand, faces, rolls, a, b)->0, Mode::Rand),
        reroll(Mode::Rand, faces, rolls, a, b)->0.len() == rolls.len() + (if b > a {
            b - a
        } else {
            0
        }),
    decreases b - a,
{
    if b > a {
        lemma_reroll_fair(faces, rolls, a, b - 1);
        let sofar = reroll(Mode::Rand, faces, rolls, a, b - 1)->0;
        let after = reroll(Mode::Rand, faces, rolls, a, b)->0;
        assert forall|i: int| 0 <= i < after.len() implies fair(#[trigger] after[i], Mode::Rand) by {
            if i < sofar.len() {
                assert(after[i] == sofar[i]);
            }
        }
    }
}

/// Marking dice as kept or dropped leaves them fair.
pub proof fn lemma_flag_fair(s: Seq<DieRoll>, a: int, b: int, keep: bool)
    requires
        all_fair(s, Mode::Rand),
    ensures
        all_fair(flag(s, a, b, keep), Mode::Rand),
        flag(s, a, b, keep).len() == s.len(),
{
    assert forall|i: int| 0 <= i < s.len() implies fair(
        #[trigger] flag(s, a, b, keep)[i],
        Mode::Rand,
    ) by {
        assert(fair(s[i], Mode::Rand));
    }
}

/// What a run with dice thrown at random keeps as it found it: every die
/// shows one of its faces, the pools are those there were, and no die has
/// gone.
pub open spec fn kept_fair(before: Machine, after: Machine) -> bool {
    &&& all_fair(after.rolls, Mode::Rand)
    &&& after.pools == before.pools
    &&& after.rolls.len() >= before.rolls.len()
}

/// Every die of a roll shows one of its faces: a run with dice thrown at
/// random, on a machine whose dice are fair, leaves every die fair.
pub proof fn lemma_run_fair(node: Node, faces: Seq<i32>, m: Machine)
    requires
        all_fair(m.rolls, Mode::Rand),
        pools_within(m),
        run(node, Mode::Rand, faces, m) is Done,
    ensures
        kept_fair(m, run(node, Mode::Rand, faces, m)->Done_0),
    decreases node.size(), 0int,
{
    let mode = Mode::Rand;
    match node {
        Node::Lit { value } => {},
        Node::Neg { right } => {
            lemma_run_fair(*right, faces, m);
        },
        Node::Add { left, right }
        | Node::Sub { left, right }
        | Node::Mul { left, right }
        | Node::Div { left, right } => {
            lemma_run_fair(*left, faces, m);
            let m1 = operand(*left, mode, faces, m)->Done_0.1;
            lemma_run_fair(*right, faces, m1);
        },
        Node::Roll { count, sides, select } => {
            lemma_run_fair(*count, faces, m);
            let (n, m1) = operand(*count, mode, faces, m)->Done_0;
            lemma_run_fair(*sides, faces, m1);
            let (size, m2) = operand(*sides, mode, faces, m1)->Done_0;
            lemma_cast_fair(faces, m2.rolls, size, n as int);
            let rolls = cast(mode, faces, m2.rolls, size, n as int)->0;
            let start = m2.rolls.len() as int;
            let end = rolls.len() as int;
            let m3 = m2.with_rolls(rolls);
            lemma_next_fair(select, faces, m3, (start, end));
            let m4 = run_next(select, mode, faces, m3, (start, end))->Done_0;
            lemma_sort_range_counts(m4.rolls, start, end, true, mode);
        },
        Node::Select { selection, next } => {
            let pool = m.pools.last();
            assert(pool == m.pools[m.pools.len() - 1]);
            if selection.rerolls() {
                lemma_reroll_fair(faces, m.rolls, pool.0, pool.1);
                let rolls = reroll(mode, faces, m.rolls, pool.0, pool.1)->0;
                let (marked, winner) = pick_throw(selection, rolls, pool.0, pool.1);
                lemma_flag_fair(rolls, pool.0, pool.1, false);
                lemma_flag_fair(rolls, rolls.len() - (pool.1 - pool.0), rolls.len() as int, false);
                lemma_next_fair(next, faces, m.with_rolls(marked), winner);
            } else {
                let m1 = match selection.count() {
                    Some(c) => {
                        lemma_run_fair(*c, faces, m);
                        operand(*c, mode, faces, m)->Done_0.1
                    },
                    None => m,
                };
                let picked: usize = match selection.count() {
                    Some(c) => operand(*c, mode, faces, m)->Done_0.0 as usize,
                    None => 1,
                };
                let (marked, survivors) = pick_dice(
                    selection,
                    m1.rolls,
                    pool.0,
                    pool.1,
                    picked,
                )->Ok_0;
                lemma_sort_range_counts(m1.rolls, pool.0, pool.1, selection.high(), mode);
                let ordered = sort_range(m1.rolls, pool.0, pool.1, selection.high());
                lemma_flag_fair(ordered, pool.0, pool.0 + picked, selection.keeps());
                lemma_flag_fair(
                    flag(ordered, pool.0, pool.0 + picked, selection.keeps()),
                    pool.0 + picked,
                    pool.1,
                    !selection.keeps(),
                );
                lemma_next_fair(next, faces, m1.with_rolls(marked), survivors);
            }
        },
    }
}

/// As [`lemma_run_fair`], for an optional selection on a pool that lies
/// within the dice.
pub proof fn lemma_next_fair(
    next: Option<Box<Node>>,
    faces: Seq<i32>,
    m: Machine,
    pool: (int, int),
)
    requires
        all_fair(m.rolls, Mode::Rand),
        pools_within(m),
        0 <= pool.0 <= pool.1 <= m.rolls.len(),
        run_next(next, Mode::Rand, faces, m, pool) is Done,
    ensures
        kept_fair(m, run_next(next, Mode::Rand, faces, m, pool)->Done_0),
    decreases option_size(next), 1int,
{
    if let Some(node) = next {
        let mp = m.push_pool(pool.0, pool.1);
        assert(mp.pools.drop_last() =~= m.pools);
        assert forall|i: int| 0 <= i < mp.pools.len() implies 0 <= (#[trigger] mp.pools[i]).0
            <= mp.pools[i].1 <= mp.rolls.len() by {
            if i < m.pools.len() {
                assert(mp.pools[i] == m.pools[i]);
            }
        }
        lemma_run_fair(*node, faces, mp);
    }
}

/// Every die of a roll shows one of its faces.
pub proof fn lemma_dice_fair(node: Node, faces: Seq<i32>)
    requires
        evaluate(node, Mode::Rand, faces) is Done,
    ensures
        all_fair(evaluate(node, Mode::Rand, faces)->Done_0.1, Mode::Rand),
{
    lemma_run_fair(node, faces, Machine::empty());
}

/// A keep or drop picks from the top of the order: every die it picks may
/// stand before every die it leaves, the dice it picks are all marked one
/// way and the dice it leaves the other.
pub proof fn lemma_pick_extremes(
    selection: Selection,
    rolls: Seq<DieRoll>,
    start: int,
    end: int,
    count: usize,
)
    requires
        0 <= start <= end <= rolls.len(),
        pick_dice(selection, rolls, start, end, count) is Ok,
    ensures
        ({
            let marked = pick_dice(selection, rolls, start, end, count)->Ok_0.0;
            &&& marked.len() == rolls.len()
            &&& forall|i: int|
                start <= i < start + count ==> (#[trigger] marked[i]).keep == selection.keeps()
            &&& forall|j: int|
                start + count <= j < end ==> (#[trigger] marked[j]).keep == !selection.keeps()
            &&& forall|i: int, j: int|
                start <= i < start + count && start + count <= j < end ==> before(
                    #[trigger] marked[i],
                    #[trigger] marked[j],
                    selection.high(),
                )
        }),
{
    let high = selection.high();
    let part = rolls.subrange(start, end);
    lemma_sorted_keeps(part, high, |d: DieRoll| true);
    lemma_sorted_ordered(part, high);
    let ordered_rolls = sort_range(rolls, start, end, high);
    let marked = pick_dice(selection, rolls, start, end, count)->Ok_0.0;
    assert forall|i: int, j: int|
        start <= i < start + count && start + count <= j < end implies before(
        #[trigger] marked[i],
        #[trigger] marked[j],
        high,
    ) by {
        assert(ordered_rolls[i] == sorted(part, high)[i - start]);
        assert(ordered_rolls[j] == sorted(part, high)[j - start]);
        assert(before(sorted(part, high)[i - start], sorted(part, high)[j - start], high));
    }
}

} // verus!
