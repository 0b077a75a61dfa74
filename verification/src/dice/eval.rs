//! An evaluator for dice expressions: it walks a tree with a small stack
//! machine and returns the value of the expression along with every die that
//! was thrown.
//!
//! What an evaluation returns is fixed by [`evaluate`], a function of the
//! tree, the strategy and the faces that the dice showed, in the order in
//! which they were thrown. The executable [`Evaluator`] is proved to compute
//! exactly that.

use vstd::prelude::*;
use vstd::string::*;
use rand::Rng;
use crate::text::{decimal, digits, push_decimal, push_digits};
use crate::dice::ast::{option_size, Node, Selection};
use crate::dice::pool::{
    flag, kept_total, lemma_sorted_keeps, mark_dice, sort_dice, sort_range, sorted, sum_kept,
    sum_results, total,
};

verus! {

/// A single die roll.
#[derive(Clone, Copy, Debug, PartialEq, Eq, Hash, Structural)]
pub struct DieRoll {
    /// The number of sides on the die.
    pub sides: i32,
    /// The result of the roll.
    pub result: i32,
    /// Whether the roll was kept or discarded during a selection operation.
    pub keep: bool,
}

/// Possible errors that can occur during evaluation.
#[derive(Clone, Copy, Debug, PartialEq, Eq, Structural)]
pub enum Error {
    /// A selection operation (`kh`, `dl`, etc.) involves selecting more dice
    /// than are available after rolling and applying previous selections.
    InvalidSelection { selection_size: usize, pool_size: usize },
    /// An attempt was made to divide by zero.
    DivideByZero,
    /// The stack was empty when an operation expected a value.
    StackUnderflow,
    /// A roll asked for a negative number of dice, or for a random face of a
    /// die that has none.
    InvalidRoll { count: i32, sides: i32 },
}

impl Error {
    /// What the error says to the person who asked for the roll.
    pub open spec fn text(self) -> Seq<char> {
        match self {
            Error::InvalidSelection { selection_size, pool_size } => "Cannot select "@ + digits(
                selection_size as nat,
            ) + " dice from a pool of "@ + digits(pool_size as nat),
            Error::DivideByZero => "Division by zero"@,
            Error::StackUnderflow => "Stack underflow"@,
            Error::InvalidRoll { count, sides } => "Cannot roll "@ + decimal(count as int)
                + " dice of "@ + decimal(sides as int) + " sides"@,
        }
    }

    /// What the error says to the person who asked for the roll.
    pub fn message(&self) -> (m: String)
        ensures
            m@ == self.text(),
    {
        match self {
            Error::InvalidSelection { selection_size, pool_size } => {
                let mut m = String::from_str("Cannot select ");
                push_digits(&mut m, *selection_size as u64);
                m.append(" dice from a pool of ");
                push_digits(&mut m, *pool_size as u64);
                m
            },
            Error::DivideByZero => String::from_str("Division by zero"),
            Error::StackUnderflow => String::from_str("Stack underflow"),
            Error::InvalidRoll { count, sides } => {
                let mut m = String::from_str("Cannot roll ");
                push_decimal(&mut m, *count as i64);
                m.append(" dice of ");
                push_decimal(&mut m, *sides as i64);
                m.append(" sides");
                m
            },
        }
    }
}

impl DieRoll {
    /// The die as a terminal shows it: its size and its result in brackets,
    /// green if it was kept, red and struck through if it was dropped.
    pub open spec fn text(self) -> Seq<char> {
        if self.keep {
            "\x1B[32m[d"@ + decimal(self.sides as int) + ":\x1B[22m\x1B[1m"@ + decimal(
                self.result as int,
            ) + "\x1B[22m]\x1B[39m"@
        } else {
            "\x1B[9m\x1B[31m[d"@ + decimal(self.sides as int) + ":\x1B[22m\x1B[1m"@ + decimal(
                self.result as int,
            ) + "\x1B[22m]\x1B[39m\x1B[29m"@
        }
    }

    /// The die as a terminal shows it.
    pub fn to_string(&self) -> (s: String)
        ensures
            s@ == self.text(),
    {
        let mut s = if self.keep {
            String::from_str("\x1B[32m[d")
        } else {
            String::from_str("\x1B[9m\x1B[31m[d")
        };
        push_decimal(&mut s, self.sides as i64);
        s.append(":\x1B[22m\x1B[1m");
        push_decimal(&mut s, self.result as i64);
        if self.keep {
            s.append("\x1B[22m]\x1B[39m");
        } else {
            s.append("\x1B[22m]\x1B[39m\x1B[29m");
        }
        s
    }
}

/// The ways to decide what a die shows.
pub enum Mode {
    /// Each die shows the next of the faces that were thrown.
    Rand,
    /// Every die shows 1.
    Min,
    /// Every die shows half its number of sides, rounded toward zero.
    Mid,
    /// Every die shows its number of sides.
    Max,
}

/// A range of positions in the sequence of dice: the dice that the selection
/// being evaluated acts on.
#[derive(Clone, Copy, Debug, PartialEq, Eq, Structural)]
pub struct Pool {
    pub start: usize,
    pub end: usize,
}

/// The state of the stack machine.
pub struct Machine {
    /// Every die thrown so far.
    pub rolls: Seq<DieRoll>,
    /// The operand stack.
    pub results: Seq<i32>,
    /// The stack of pools, innermost last.
    pub pools: Seq<(int, int)>,
}

/// What running a tree on a machine leads to.
pub enum Step<T> {
    /// The run went through and left this.
    Done(T),
    /// The run stopped on an error.
    Failed(Error),
    /// The faces do not describe a run: one is missing, or is none of the
    /// faces of the die it was thrown for.
    Invalid,
}

impl Machine {
    /// A machine that has done nothing yet.
    pub open spec fn empty() -> Machine {
        Machine { rolls: Seq::empty(), results: Seq::empty(), pools: Seq::empty() }
    }

    pub open spec fn push(self, value: i32) -> Machine {
        Machine { results: self.results.push(value), ..self }
    }

    /// The machine without its topmost result.
    pub open spec fn popped(self) -> Machine {
        Machine { results: self.results.drop_last(), ..self }
    }

    pub open spec fn push_pool(self, start: int, end: int) -> Machine {
        Machine { pools: self.pools.push((start, end)), ..self }
    }

    /// The machine without its innermost pool, if it has one.
    pub open spec fn pop_pool(self) -> Machine {
        if self.pools.len() > 0 {
            Machine { pools: self.pools.drop_last(), ..self }
        } else {
            self
        }
    }

    pub open spec fn with_rolls(self, rolls: Seq<DieRoll>) -> Machine {
        Machine { rolls, ..self }
    }
}

/// Half of `sides`, rounded toward zero.
pub open spec fn half(sides: i32) -> i32 {
    if sides >= 0 {
        (sides / 2) as i32
    } else {
        (-((-sides) / 2)) as i32
    }
}

/// The face that the die thrown as number `index` shows, if the faces hold
/// one for it.
pub open spec fn face(mode: Mode, faces: Seq<i32>, index: int, sides: i32) -> Option<i32> {
    match mode {
        Mode::Rand => if 0 <= index < faces.len() && 1 <= faces[index] <= sides {
            Some(faces[index])
        } else {
            None
        },
        Mode::Min => Some(1),
        Mode::Mid => Some(half(sides)),
        Mode::Max => Some(sides),
    }
}

/// A die as it lands: kept, until a selection says otherwise.
pub open spec fn thrown(sides: i32, result: i32) -> DieRoll {
    DieRoll { sides, result, keep: true }
}

/// `rolls` after throwing `n` more dice of `sides` faces.
pub open spec fn cast(mode: Mode, faces: Seq<i32>, rolls: Seq<DieRoll>, sides: i32, n: int) -> Option<
    Seq<DieRoll>,
>
    decreases n,
{
    if n <= 0 {
        Some(rolls)
    } else {
        match cast(mode, faces, rolls, sides, n - 1) {
            Some(sofar) => match face(mode, faces, sofar.len() as int, sides) {
                Some(f) => Some(sofar.push(thrown(sides, f))),
                None => None,
            },
            None => None,
        }
    }
}

/// `rolls` after throwing one more die for each of the dice at `from..to`,
/// each of the size of the die it stands for.
pub open spec fn reroll(mode: Mode, faces: Seq<i32>, rolls: Seq<DieRoll>, from: int, to: int) -> Option<
    Seq<DieRoll>,
>
    decreases to - from,
{
    if to <= from {
        Some(rolls)
    } else {
        match reroll(mode, faces, rolls, from, to - 1) {
            Some(sofar) => match face(mode, faces, sofar.len() as int, sofar[to - 1].sides) {
                Some(f) => Some(sofar.push(thrown(sofar[to - 1].sides, f))),
                None => None,
            },
            None => None,
        }
    }
}

/// The quotient of `left` by `right`, rounded toward zero. The one quotient
/// that does not fit, of `i32::MIN` by `-1`, wraps to `i32::MIN`.
pub open spec fn quotient(left: i32, right: i32) -> i32 {
    match left.checked_div(right) {
        Some(q) => q,
        None => i32::MIN,
    }
}

/// The value of a binary node applied to two operands.
pub open spec fn arith(node: Node, left: i32, right: i32) -> Result<i32, Error> {
    match node {
        Node::Add { .. } => Ok(left.wrapping_add(right)),
        Node::Sub { .. } => Ok(left.wrapping_sub(right)),
        Node::Mul { .. } => Ok(left.wrapping_mul(right)),
        _ => if right == 0 {
            Err(Error::DivideByZero)
        } else {
            Ok(quotient(left, right))
        },
    }
}

/// The end of a roll: its dice are put in order from the highest down, and
/// the sum of every die kept so far becomes its value.
pub open spec fn finish_roll(m: Machine, start: int, end: int) -> Machine {
    let rolls = sort_range(m.rolls, start, end, true);
    Machine { rolls, results: m.results.push(kept_total(rolls)), pools: m.pools }
}

/// What a keep or drop of `count` dice does to the pool `start..end`: the
/// pool is put in order, the first `count` dice are marked one way and the
/// rest the other. Gives the dice and the pool of those that survive.
pub open spec fn pick_dice(
    selection: Selection,
    rolls: Seq<DieRoll>,
    start: int,
    end: int,
    count: usize,
) -> Result<(Seq<DieRoll>, (int, int)), Error> {
    if count > end - start {
        Err(Error::InvalidSelection { selection_size: count, pool_size: (end - start) as usize })
    } else {
        let ordered = sort_range(rolls, start, end, selection.high());
        let marked = flag(
            flag(ordered, start, start + count, selection.keeps()),
            start + count,
            end,
            !selection.keeps(),
        );
        Ok(
            (
                marked,
                if selection.keeps() {
                    (start, start + count)
                } else {
                    (start + count, end)
                },
            ),
        )
    }
}

/// What advantage or disadvantage does to the pool `start..end`, once the
/// pool has been thrown again: the throw with the lower total (for
/// advantage; the higher for disadvantage) is dropped. The first throw wins
/// a tie under advantage and loses it under disadvantage. Gives the dice and
/// the pool of those that survive.
pub open spec fn pick_throw(selection: Selection, rolls: Seq<DieRoll>, start: int, end: int) -> (
    Seq<DieRoll>,
    (int, int),
) {
    let again = rolls.len() - (end - start);
    let first = total(rolls.subrange(start, end));
    let second = total(rolls.subrange(again, rolls.len() as int));
    if (second > first) == (selection is Advantage) {
        (flag(rolls, start, end, false), (again, rolls.len() as int))
    } else {
        (flag(rolls, again, rolls.len() as int, false), (start, end))
    }
}

/// What running an optional selection on the pool `pool` leads to.
pub open spec fn run_next(
    next: Option<Box<Node>>,
    mode: Mode,
    faces: Seq<i32>,
    m: Machine,
    pool: (int, int),
) -> Step<Machine>
    decreases option_size(next), 2int,
{
    match next {
        Some(node) => match run(*node, mode, faces, m.push_pool(pool.0, pool.1)) {
            Step::Done(after) => Step::Done(after.pop_pool()),
            Step::Failed(e) => Step::Failed(e),
            Step::Invalid => Step::Invalid,
        },
        None => Step::Done(m),
    }
}

/// What running `node` for its value leads to: the value it leaves on top of
/// the stack, and the machine without it.
pub open spec fn operand(node: Node, mode: Mode, faces: Seq<i32>, m: Machine) -> Step<
    (i32, Machine),
>
    decreases node.size(), 1int,
{
    match run(node, mode, faces, m) {
        Step::Done(after) => if after.results.len() == 0 {
            Step::Failed(Error::StackUnderflow)
        } else {
            Step::Done((after.results.last(), after.popped()))
        },
        Step::Failed(e) => Step::Failed(e),
        Step::Invalid => Step::Invalid,
    }
}

/// What throwing `n` dice of `size` faces and applying `select` to them
/// leads to.
pub open spec fn run_throw(
    select: Option<Box<Node>>,
    mode: Mode,
    faces: Seq<i32>,
    m: Machine,
    n: i32,
    size: i32,
) -> Step<Machine>
    decreases option_size(select), 3int,
{
    if n < 0 || (mode is Rand && n > 0 && size < 1) {
        Step::Failed(Error::InvalidRoll { count: n, sides: size })
    } else {
        match cast(mode, faces, m.rolls, size, n as int) {
            Some(rolls) => {
                let start = m.rolls.len() as int;
                let end = rolls.len() as int;
                match run_next(select, mode, faces, m.with_rolls(rolls), (start, end)) {
                    Step::Done(after) => Step::Done(finish_roll(after, start, end)),
                    Step::Failed(e) => Step::Failed(e),
                    Step::Invalid => Step::Invalid,
                }
            },
            None => Step::Invalid,
        }
    }
}

/// What running `node` on the machine `m` leads to.
pub open spec fn run(node: Node, mode: Mode, faces: Seq<i32>, m: Machine) -> Step<Machine>
    decreases node.size(), 0int,
{
    match node {
        Node::Lit { value } => Step::Done(m.push(value)),
        Node::Neg { right } => match operand(*right, mode, faces, m) {
            Step::Done((value, m1)) => Step::Done(m1.push(0i32.wrapping_sub(value))),
            Step::Failed(e) => Step::Failed(e),
            Step::Invalid => Step::Invalid,
        },
        Node::Add { left, right }
        | Node::Sub { left, right }
        | Node::Mul { left, right }
        | Node::Div { left, right } => match operand(*left, mode, faces, m) {
            Step::Done((a, m1)) => match operand(*right, mode, faces, m1) {
                Step::Done((b, m2)) => match arith(node, a, b) {
                    Ok(value) => Step::Done(m2.push(value)),
                    Err(e) => Step::Failed(e),
                },
                Step::Failed(e) => Step::Failed(e),
                Step::Invalid => Step::Invalid,
            },
            Step::Failed(e) => Step::Failed(e),
            Step::Invalid => Step::Invalid,
        },
        Node::Roll { count, sides, select } => match operand(*count, mode, faces, m) {
            Step::Done((n, m1)) => match operand(*sides, mode, faces, m1) {
                Step::Done((size, m2)) => run_throw(select, mode, faces, m2, n, size),
                Step::Failed(e) => Step::Failed(e),
                Step::Invalid => Step::Invalid,
            },
            Step::Failed(e) => Step::Failed(e),
            Step::Invalid => Step::Invalid,
        },
        Node::Select { selection, next } => if m.pools.len() == 0 {
            Step::Failed(Error::StackUnderflow)
        } else {
            let pool = m.pools.last();
            match selection {
                Selection::Advantage | Selection::Disadvantage => match reroll(
                    mode,
                    faces,
                    m.rolls,
                    pool.0,
                    pool.1,
                ) {
                    Some(rolls) => {
                        let (marked, winner) = pick_throw(selection, rolls, pool.0, pool.1);
                        run_next(next, mode, faces, m.with_rolls(marked), winner)
                    },
                    None => Step::Invalid,
                },
                Selection::KeepLowest { count: Some(c) }
                | Selection::KeepHighest { count: Some(c) }
                | Selection::DropLowest { count: Some(c) }
                | Selection::DropHighest { count: Some(c) } => match operand(*c, mode, faces, m) {
                    Step::Done((n, m1)) => match pick_dice(
                        selection,
                        m1.rolls,
                        pool.0,
                        pool.1,
                        n as usize,
                    ) {
                        Ok((marked, survivors)) => run_next(
                            next,
                            mode,
                            faces,
                            m1.with_rolls(marked),
                            survivors,
                        ),
                        Err(e) => Step::Failed(e),
                    },
                    Step::Failed(e) => Step::Failed(e),
                    Step::Invalid => Step::Invalid,
                },
                _ => match pick_dice(selection, m.rolls, pool.0, pool.1, 1) {
                    Ok((marked, survivors)) => run_next(
                        next,
                        mode,
                        faces,
                        m.with_rolls(marked),
                        survivors,
                    ),
                    Err(e) => Step::Failed(e),
                },
            }
        },
    }
}

/// What evaluating `node` gives when the dice show `faces`, in the order in
/// which they are thrown: the value of the expression and every die thrown,
/// in the order the evaluation leaves them in. The faces matter only in the
/// mode `Rand`.
pub open spec fn evaluate(node: Node, mode: Mode, faces: Seq<i32>) -> Step<(i32, Seq<DieRoll>)> {
    match operand(node, mode, faces, Machine::empty()) {
        Step::Done((value, m)) => Step::Done((value, m.rolls)),
        Step::Failed(e) => Step::Failed(e),
        Step::Invalid => Step::Invalid,
    }
}

/// Whether the faces `long` begin with the faces `short`.
pub open spec fn extends(long: Seq<i32>, short: Seq<i32>) -> bool {
    &&& short.len() <= long.len()
    &&& forall|i: int| 0 <= i < short.len() ==> long[i] == short[i]
}

/// Throwing dice reads only the faces it needs: more faces behind them
/// change nothing.
pub proof fn lemma_cast_extends(
    mode: Mode,
    f1: Seq<i32>,
    f2: Seq<i32>,
    rolls: Seq<DieRoll>,
    sides: i32,
    n: int,
)
    requires
        extends(f2, f1),
        cast(mode, f1, rolls, sides, n) is Some,
    ensures
        cast(mode, f2, rolls, sides, n) == cast(mode, f1, rolls, sides, n),
    decreases n,
{
    if n > 0 {
        lemma_cast_extends(mode, f1, f2, rolls, sides, n - 1);
    }
}

/// Throwing a pool again reads only the faces it needs.
pub proof fn lemma_reroll_extends(
    mode: Mode,
    f1: Seq<i32>,
    f2: Seq<i32>,
    rolls: Seq<DieRoll>,
    from: int,
    to: int,
)
    requires
        extends(f2, f1),
        reroll(mode, f1, rolls, from, to) is Some,
    ensures
        reroll(mode, f2, rolls, from, to) == reroll(mode, f1, rolls, from, to),
    decreases to - from,
{
    if to > from {
        lemma_reroll_extends(mode, f1, f2, rolls, from, to - 1);
    }
}

/// A run reads only the faces it needs: where the faces `f1` describe a run,
/// any faces that begin with them describe the same run.
pub proof fn lemma_run_extends(node: Node, mode: Mode, f1: Seq<i32>, f2: Seq<i32>, m: Machine)
    requires
        extends(f2, f1),
        !(run(node, mode, f1, m) is Invalid),
    ensures
        run(node, mode, f2, m) == run(node, mode, f1, m),
    decreases node.size(), 0int,
{
    match node {
        Node::Lit { value } => {},
        Node::Neg { right } => {
            lemma_operand_extends(*right, mode, f1, f2, m);
        },
        Node::Add { left, right }
        | Node::Sub { left, right }
        | Node::Mul { left, right }
        | Node::Div { left, right } => {
            lemma_operand_extends(*left, mode, f1, f2, m);
            if let Step::Done((a, m1)) = operand(*left, mode, f1, m) {
                lemma_operand_extends(*right, mode, f1, f2, m1);
            }
        },
        Node::Roll { count, sides, select } => {
            lemma_operand_extends(*count, mode, f1, f2, m);
            if let Step::Done((n, m1)) = operand(*count, mode, f1, m) {
                lemma_operand_extends(*sides, mode, f1, f2, m1);
                if let Step::Done((size, m2)) = operand(*sides, mode, f1, m1) {
                    lemma_run_throw_extends(select, mode, f1, f2, m2, n, size);
                }
            }
        },
        Node::Select { selection, next } => {
            if m.pools.len() > 0 {
                let pool = m.pools.last();
                match selection {
                    Selection::Advantage | Selection::Disadvantage => {
                        lemma_reroll_extends(mode, f1, f2, m.rolls, pool.0, pool.1);
                        let rolls = reroll(mode, f1, m.rolls, pool.0, pool.1)->0;
                        let (marked, winner) = pick_throw(selection, rolls, pool.0, pool.1);
                        lemma_run_next_extends(next, mode, f1, f2, m.with_rolls(marked), winner);
                    },
                    Selection::KeepLowest { count: Some(c) }
                    | Selection::KeepHighest { count: Some(c) }
                    | Selection::DropLowest { count: Some(c) }
                    | Selection::DropHighest { count: Some(c) } => {
                        lemma_operand_extends(*c, mode, f1, f2, m);
                        if let Step::Done((n, m1)) = operand(*c, mode, f1, m) {
                            if let Ok((marked, survivors)) = pick_dice(
                                selection,
                                m1.rolls,
                                pool.0,
                                pool.1,
                                n as usize,
                            ) {
                                lemma_run_next_extends(
                                    next,
                                    mode,
                                    f1,
                                    f2,
                                    m1.with_rolls(marked),
                                    survivors,
                                );
                            }
                        }
                    },
                    _ => {
                        if let Ok((marked, survivors)) = pick_dice(
                            selection,
                            m.rolls,
                            pool.0,
                            pool.1,
                            1,
                        ) {
                            lemma_run_next_extends(
                                next,
                                mode,
                                f1,
                                f2,
                                m.with_rolls(marked),
                                survivors,
                            );
                        }
                    },
                }
            }
        },
    }
}

/// As [`lemma_run_extends`], for a run that is made for its value.
pub proof fn lemma_operand_extends(node: Node, mode: Mode, f1: Seq<i32>, f2: Seq<i32>, m: Machine)
    requires
        extends(f2, f1),
        !(operand(node, mode, f1, m) is Invalid),
    ensures
        operand(node, mode, f2, m) == operand(node, mode, f1, m),
    decreases node.size(), 1int,
{
    lemma_run_extends(node, mode, f1, f2, m);
}

/// As [`lemma_run_extends`], for an optional selection.
pub proof fn lemma_run_next_extends(
    next: Option<Box<Node>>,
    mode: Mode,
    f1: Seq<i32>,
    f2: Seq<i32>,
    m: Machine,
    pool: (int, int),
)
    requires
        extends(f2, f1),
        !(run_next(next, mode, f1, m, pool) is Invalid),
    ensures
        run_next(next, mode, f2, m, pool) == run_next(next, mode, f1, m, pool),
    decreases option_size(next), 2int,
{
    if let Some(node) = next {
        lemma_run_extends(*node, mode, f1, f2, m.push_pool(pool.0, pool.1));
    }
}

/// As [`lemma_run_extends`], for the throw of a roll and its selection.
pub proof fn lemma_run_throw_extends(
    select: Option<Box<Node>>,
    mode: Mode,
    f1: Seq<i32>,
    f2: Seq<i32>,
    m: Machine,
    n: i32,
    size: i32,
)
    requires
        extends(f2, f1),
        !(run_throw(select, mode, f1, m, n, size) is Invalid),
    ensures
        run_throw(select, mode, f2, m, n, size) == run_throw(select, mode, f1, m, n, size),
    decreases option_size(select), 3int,
{
    if !(n < 0 || (mode is Rand && n > 0 && size < 1)) {
        lemma_cast_extends(mode, f1, f2, m.rolls, size, n as int);
        let rolls = cast(mode, f1, m.rolls, size, n as int)->0;
        lemma_run_next_extends(
            select,
            mode,
            f1,
            f2,
            m.with_rolls(rolls),
            (m.rolls.len() as int, rolls.len() as int),
        );
    }
}

#[verifier::external_type_specification]
#[verifier::external_body]
pub struct ExStdRng(rand::rngs::StdRng);

/// `StdRng::clone`, which `rand` derives: the copy is a generator of its
/// own. Nothing is claimed about either.
pub assume_specification[ <rand::rngs::StdRng as Clone>::clone ](
    rng: &rand::rngs::StdRng,
) -> (copy: rand::rngs::StdRng)
;

/// `Rng::gen_range` over the inclusive range from 1 to `sides`: the value it
/// returns lies in the range. It panics on an empty range, so `sides` must be
/// at least 1. Nothing is claimed about which value comes.
#[verifier::external_body]
fn roll_die(rng: &mut rand::rngs::StdRng, sides: i32) -> (face: i32)
    requires
        1 <= sides,
    ensures
        1 <= face <= sides,
{
    rng.gen_range(1..=sides)
}

/// Possible ways to evaluate dice rolls.
pub enum Evaluation<'a> {
    /// Randomly generate each die roll.
    Rand(&'a mut rand::rngs::StdRng),
    /// Evaluate the expression as if all dice rolls were 1.
    Min,
    /// Evaluate the expression as if all dice rolls landed in the middle of
    /// their range (rounded down).
    Mid,
    /// Evaluate the expression as if all dice rolls were the highest possible.
    Max,
}

impl<'a> Evaluation<'a> {
    /// How this strategy decides what a die shows.
    pub open spec fn mode(self) -> Mode {
        match self {
            Evaluation::Rand(_) => Mode::Rand,
            Evaluation::Min => Mode::Min,
            Evaluation::Mid => Mode::Mid,
            Evaluation::Max => Mode::Max,
        }
    }
}

/// The pools of the machine, as pairs of bounds.
pub open spec fn bounds(pools: Seq<Pool>) -> Seq<(int, int)> {
    Seq::new(pools.len(), |i: int| (pools[i].start as int, pools[i].end as int))
}

/// A stack machine that evaluates a tree and keeps the individual die rolls.
pub struct Evaluator<'a> {
    /// The rolls made during the evaluation.
    pub rolls: Vec<DieRoll>,
    /// The evaluation strategy to use.
    evaluation: Evaluation<'a>,
    /// A stack of intermediate results. Once the traversal is complete, the
    /// stack holds a single value, the result of the expression.
    results: Vec<i32>,
    /// A stack of dice pools that are being selected from. Pools are ranges
    /// over `rolls`; one is pushed when a roll is made and narrowed by each
    /// selection.
    dice_pools: Vec<Pool>,
    /// The faces the random dice showed, in the order they were thrown.
    faces: Ghost<Seq<i32>>,
}

fn half_of(sides: i32) -> (r: i32)
    ensures
        r == half(sides),
{
    if sides >= 0 {
        sides / 2
    } else {
        let wide: i64 = -(sides as i64);
        (-(wide / 2)) as i32
    }
}

impl<'a> Evaluator<'a> {
    /// How the evaluator decides what a die shows.
    pub closed spec fn mode(self) -> Mode {
        self.evaluation.mode()
    }

    /// The faces that the random dice have shown since the evaluation began,
    /// in the order they were thrown. Empty in the other modes.
    pub closed spec fn faces(self) -> Seq<i32> {
        self.faces@
    }

    /// The dice thrown, as `rolls` holds them.
    pub closed spec fn dice(self) -> Seq<DieRoll> {
        self.rolls@
    }

    /// The state of the machine.
    pub closed spec fn machine(self) -> Machine {
        Machine { rolls: self.rolls@, results: self.results@, pools: bounds(self.dice_pools@) }
    }

    /// Every pool lies within the dice thrown, and the faces recorded are
    /// those of the dice thrown.
    pub closed spec fn wf(self) -> bool {
        &&& forall|i: int|
            0 <= i < self.dice_pools.len() ==> (#[trigger] self.dice_pools[i]).start
                <= self.dice_pools[i].end <= self.rolls.len()
        &&& self.evaluation is Rand ==> {
            &&& self.faces@.len() == self.rolls.len()
            &&& forall|i: int| 0 <= i < self.rolls.len() ==> (#[trigger] self.rolls[i]).sides >= 1
        }
        &&& !(self.evaluation is Rand) ==> self.faces@.len() == 0
    }

    /// What a step of the evaluation has done: it ran `node` on the machine
    /// as it was, with the faces thrown by now, and left the machine as it is.
    spec fn ran(self, before: Self, node: Node, r: Result<(), Error>) -> bool {
        &&& self.wf()
        &&& self.mode() == before.mode()
        &&& extends(self.faces(), before.faces())
        &&& run(node, before.mode(), self.faces(), before.machine()) == match r {
            Ok(_) => Step::Done(self.machine()),
            Err(e) => Step::Failed(e),
        }
        &&& r is Ok ==> self.kept_frame(before)
    }

    /// A step that went through has left the pools as they were and has
    /// taken no die away.
    spec fn kept_frame(self, before: Self) -> bool {
        &&& self.dice_pools@ == before.dice_pools@
        &&& self.rolls.len() >= before.rolls.len()
    }

    /// As [`Self::ran`], for a step that is made for its value.
    spec fn valued(self, before: Self, node: Node, r: Result<i32, Error>) -> bool {
        &&& self.wf()
        &&& self.mode() == before.mode()
        &&& extends(self.faces(), before.faces())
        &&& operand(node, before.mode(), self.faces(), before.machine()) == match r {
            Ok(value) => Step::Done((value, self.machine())),
            Err(e) => Step::Failed(e),
        }
        &&& r is Ok ==> self.kept_frame(before)
    }

    /// An evaluator that has done nothing yet.
    pub fn new(evaluation: Evaluation<'a>) -> (evaluator: Self)
        ensures
            evaluator.wf(),
            evaluator.mode() == evaluation.mode(),
            evaluator.faces() == Seq::<i32>::empty(),
            evaluator.machine() == Machine::empty(),
            evaluator.dice() == Seq::<DieRoll>::empty(),
    {
        let evaluator = Self {
            evaluation,
            rolls: Vec::new(),
            results: Vec::new(),
            dice_pools: Vec::new(),
            faces: Ghost(Seq::empty()),
        };
        assert(bounds(evaluator.dice_pools@) =~= Seq::empty());
        evaluator
    }

    /// Evaluates `node` on a machine that starts empty. Returns the value of
    /// the expression and leaves the dice thrown in `rolls`.
    pub fn eval(&mut self, node: &Node) -> (r: Result<i32, Error>)
        ensures
            final(self).mode() == old(self).mode(),
            match evaluate(*node, old(self).mode(), final(self).faces()) {
                Step::Done((value, dice)) => r == Ok::<i32, Error>(value) && final(self).dice()
                    == dice,
                Step::Failed(e) => r == Err::<i32, Error>(e),
                Step::Invalid => false,
            },
            old(self).mode() is Rand ==> final(self).faces().len() == final(self).dice().len(),
            !(old(self).mode() is Rand) ==> final(self).faces() == Seq::<i32>::empty(),
    {
        self.rolls.clear();
        self.results.clear();
        self.dice_pools.clear();
        self.faces = Ghost(Seq::empty());
        assert(bounds(self.dice_pools@) =~= Seq::empty());
        assert(self.machine() == Machine::empty());
        let r = self.operand(node);
        assert(self.faces@.len() == 0 ==> self.faces@ =~= Seq::empty());
        r
    }

    /// The dice thrown by the last evaluation.
    pub fn into_rolls(self) -> (dice: Vec<DieRoll>)
        ensures
            dice@ == self.dice(),
    {
        self.rolls
    }

    fn visit(&mut self, node: &Node) -> (r: Result<(), Error>)
        requires
            old(self).wf(),
        ensures
            final(self).ran(*old(self), *node, r),
        decreases node.size(), 2int,
    {
        match node {
            Node::Lit { value } => self.lit(*value),
            Node::Roll { count, sides, select } => self.roll(count, sides, select),
            Node::Select { selection, next } => self.select(selection, next),
            Node::Neg { right } => self.neg(right),
            Node::Add { left, right } => self.add(left, right),
            Node::Sub { left, right } => self.sub(left, right),
            Node::Mul { left, right } => self.mul(left, right),
            Node::Div { left, right } => self.div(left, right),
        }
    }

    /// Runs `node` and takes its value off the stack.
    fn operand(&mut self, node: &Node) -> (r: Result<i32, Error>)
        requires
            old(self).wf(),
        ensures
            final(self).valued(*old(self), *node, r),
        decreases node.size(), 3int,
    {
        match self.visit(node) {
            Ok(_) => {},
            Err(e) => {
                return Err(e);
            },
        }
        match self.results.pop() {
            Some(value) => Ok(value),
            None => Err(Error::StackUnderflow),
        }
    }

    fn lit(&mut self, value: i32) -> (r: Result<(), Error>)
        requires
            old(self).wf(),
        ensures
            final(self).ran(*old(self), Node::Lit { value }, r),
    {
        self.results.push(value);
        Ok(())
    }

    fn neg(&mut self, right: &Node) -> (r: Result<(), Error>)
        requires
            old(self).wf(),
        ensures
            final(self).ran(*old(self), Node::Neg { right: Box::new(*right) }, r),
        decreases 1 + right.size(), 1int,
    {
        let value = match self.operand(right) {
            Ok(value) => value,
            Err(e) => {
                return Err(e);
            },
        };
        self.results.push(0i32.wrapping_sub(value));
        Ok(())
    }

    /// Runs both operands of a binary node for their values, the left one
    /// first.
    fn operands(&mut self, left: &Node, right: &Node) -> (r: Result<(i32, i32), Error>)
        requires
            old(self).wf(),
        ensures
            final(self).wf(),
            final(self).mode() == old(self).mode(),
            extends(final(self).faces(), old(self).faces()),
            match operand(*left, old(self).mode(), final(self).faces(), old(self).machine()) {
                Step::Done((a, m1)) => match operand(
                    *right,
                    old(self).mode(),
                    final(self).faces(),
                    m1,
                ) {
                    Step::Done((b, m2)) => {
                        &&& r == Ok::<(i32, i32), Error>((a, b))
                        &&& final(self).machine() == m2
                    },
                    Step::Failed(e) => r == Err::<(i32, i32), Error>(e),
                    Step::Invalid => false,
                },
                Step::Failed(e) => r == Err::<(i32, i32), Error>(e),
                Step::Invalid => false,
            },
            r is Ok ==> final(self).kept_frame(*old(self)),
        decreases 1 + left.size() + right.size(), 0int,
    {
        let a = match self.operand(left) {
            Ok(value) => value,
            Err(e) => {
                return Err(e);
            },
        };
        let ghost mid = *self;
        let b = match self.operand(right) {
            Ok(value) => value,
            Err(e) => {
                proof {
                    lemma_operand_extends(
                        *left,
                        old(self).mode(),
                        mid.faces(),
                        self.faces(),
                        old(self).machine(),
                    );
                }
                return Err(e);
            },
        };
        proof {
            lemma_operand_extends(
                *left,
                old(self).mode(),
                mid.faces(),
                self.faces(),
                old(self).machine(),
            );
        }
        Ok((a, b))
    }

    fn add(&mut self, left: &Node, right: &Node) -> (r: Result<(), Error>)
        requires
            old(self).wf(),
        ensures
            final(self).ran(
                *old(self),
                Node::Add { left: Box::new(*left), right: Box::new(*right) },
                r,
            ),
        decreases 1 + left.size() + right.size(), 1int,
    {
        let (a, b) = match self.operands(left, right) {
            Ok(pair) => pair,
            Err(e) => {
                return Err(e);
            },
        };
        self.results.push(a.wrapping_add(b));
        Ok(())
    }

    fn sub(&mut self, left: &Node, right: &Node) -> (r: Result<(), Error>)
        requires
            old(self).wf(),
        ensures
            final(self).ran(
                *old(self),
                Node::Sub { left: Box::new(*left), right: Box::new(*right) },
                r,
            ),
        decreases 1 + left.size() + right.size(), 1int,
    {
        let (a, b) = match self.operands(left, right) {
            Ok(pair) => pair,
            Err(e) => {
                return Err(e);
            },
        };
        self.results.push(a.wrapping_sub(b));
        Ok(())
    }

    fn mul(&mut self, left: &Node, right: &Node) -> (r: Result<(), Error>)
        requires
            old(self).wf(),
        ensures
            final(self).ran(
                *old(self),
                Node::Mul { left: Box::new(*left), right: Box::new(*right) },
                r,
            ),
        decreases 1 + left.size() + right.size(), 1int,
    {
        let (a, b) = match self.operands(left, right) {
            Ok(pair) => pair,
            Err(e) => {
                return Err(e);
            },
        };
        self.results.push(a.wrapping_mul(b));
        Ok(())
    }

    fn div(&mut self, left: &Node, right: &Node) -> (r: Result<(), Error>)
        requires
            old(self).wf(),
        ensures
            final(self).ran(
                *old(self),
                Node::Div { left: Box::new(*left), right: Box::new(*right) },
                r,
            ),
        decreases 1 + left.size() + right.size(), 1int,
    {
        let (a, b) = match self.operands(left, right) {
            Ok(pair) => pair,
            Err(e) => {
                return Err(e);
            },
        };
        if b == 0 {
            return Err(Error::DivideByZero);
        }
        let q = match a.checked_div(b) {
            Some(q) => q,
            None => i32::MIN,
        };
        self.results.push(q);
        Ok(())
    }

    /// Throws one die of `sides` faces.
    fn throw(&mut self, sides: i32)
        requires
            old(self).wf(),
            old(self).mode() is Rand ==> sides >= 1,
        ensures
            final(self).wf(),
            final(self).mode() == old(self).mode(),
            extends(final(self).faces(), old(self).faces()),
            final(self).results == old(self).results,
            final(self).dice_pools == old(self).dice_pools,
            final(self).rolls.len() == old(self).rolls.len() + 1,
            face(old(self).mode(), final(self).faces(), old(self).rolls.len() as int, sides)
                == Some(final(self).rolls@.last().result),
            final(self).rolls@ == old(self).rolls@.push(
                thrown(sides, final(self).rolls@.last().result),
            ),
    {
        let result = match &mut self.evaluation {
            Evaluation::Rand(rng) => {
                let f = roll_die(rng, sides);
                self.faces = Ghost(self.faces@.push(f));
                f
            },
            Evaluation::Min => 1,
            Evaluation::Mid => half_of(sides),
            Evaluation::Max => sides,
        };
        self.rolls.push(DieRoll { sides, result, keep: true });
    }

    /// Throws `n` dice of `sides` faces.
    fn throw_dice(&mut self, sides: i32, n: i32)
        requires
            old(self).wf(),
            old(self).mode() is Rand && n > 0 ==> sides >= 1,
        ensures
            final(self).wf(),
            final(self).mode() == old(self).mode(),
            extends(final(self).faces(), old(self).faces()),
            final(self).results == old(self).results,
            final(self).dice_pools == old(self).dice_pools,
            cast(old(self).mode(), final(self).faces(), old(self).rolls@, sides, n as int) == Some(
                final(self).rolls@,
            ),
            final(self).rolls.len() >= old(self).rolls.len(),
    {
        let mut i: i32 = 0;
        while i < n
            invariant
                0 <= i,
                i <= n || (n < 0 && i == 0),
                self.wf(),
                self.mode() == old(self).mode(),
                self.mode() is Rand && n > 0 ==> sides >= 1,
                extends(self.faces(), old(self).faces()),
                self.results == old(self).results,
                self.dice_pools == old(self).dice_pools,
                self.rolls.len() >= old(self).rolls.len(),
                cast(old(self).mode(), self.faces(), old(self).rolls@, sides, i as int) == Some(
                    self.rolls@,
                ),
            decreases n - i,
        {
            let ghost earlier = self.faces();
            self.throw(sides);
            proof {
                lemma_cast_extends(
                    old(self).mode(),
                    earlier,
                    self.faces(),
                    old(self).rolls@,
                    sides,
                    i as int,
                );
            }
            i = i + 1;
        }
    }

    /// Throws one more die for each die of the pool `start..end`.
    fn throw_again(&mut self, start: usize, end: usize)
        requires
            old(self).wf(),
            start <= end <= old(self).rolls.len(),
        ensures
            final(self).wf(),
            final(self).mode() == old(self).mode(),
            extends(final(self).faces(), old(self).faces()),
            final(self).results == old(self).results,
            final(self).dice_pools == old(self).dice_pools,
            reroll(
                old(self).mode(),
                final(self).faces(),
                old(self).rolls@,
                start as int,
                end as int,
            ) == Some(final(self).rolls@),
            final(self).rolls.len() == old(self).rolls.len() + (end - start),
    {
        let mut i: usize = start;
        while i < end
            invariant
                start <= i <= end <= old(self).rolls.len(),
                self.wf(),
                self.mode() == old(self).mode(),
                extends(self.faces(), old(self).faces()),
                self.results == old(self).results,
                self.dice_pools == old(self).dice_pools,
                self.rolls.len() == old(self).rolls.len() + (i - start),
                reroll(
                    old(self).mode(),
                    self.faces(),
                    old(self).rolls@,
                    start as int,
                    i as int,
                ) == Some(self.rolls@),
            decreases end - i,
        {
            let ghost earlier = self.faces();
            let sides = self.rolls[i].sides;
            self.throw(sides);
            proof {
                lemma_reroll_extends(
                    old(self).mode(),
                    earlier,
                    self.faces(),
                    old(self).rolls@,
                    start as int,
                    i as int,
                );
            }
            i = i + 1;
        }
    }

    /// Pushes the pool `start..end`, runs the selection `next` if there is
    /// one, and takes the pool off again.
    fn narrow(&mut self, next: &Option<Box<Node>>, start: usize, end: usize) -> (r: Result<
        (),
        Error,
    >)
        requires
            old(self).wf(),
            start <= end <= old(self).rolls.len(),
        ensures
            final(self).wf(),
            final(self).mode() == old(self).mode(),
            extends(final(self).faces(), old(self).faces()),
            run_next(
                *next,
                old(self).mode(),
                final(self).faces(),
                old(self).machine(),
                (start as int, end as int),
            ) == match r {
                Ok(_) => Step::Done(final(self).machine()),
                Err(e) => Step::Failed(e),
            },
            r is Ok ==> final(self).kept_frame(*old(self)),
        decreases option_size(*next), 4int,
    {
        if let Some(node) = next {
            let ghost pools = self.dice_pools@;
            self.dice_pools.push(Pool { start, end });
            assert(bounds(self.dice_pools@) =~= bounds(pools).push((start as int, end as int)));
            match self.visit(node) {
                Ok(_) => {},
                Err(e) => {
                    return Err(e);
                },
            }
            let ghost after = self.machine();
            self.dice_pools.pop();
            assert(self.dice_pools@ =~= pools);
            assert(bounds(pools) =~= after.pop_pool().pools);
            assert(self.machine() == after.pop_pool());
        }
        Ok(())
    }

    fn roll(&mut self, count: &Node, sides: &Node, select: &Option<Box<Node>>) -> (r: Result<
        (),
        Error,
    >)
        requires
            old(self).wf(),
        ensures
            final(self).ran(
                *old(self),
                Node::Roll { count: Box::new(*count), sides: Box::new(*sides), select: *select },
                r,
            ),
        decreases 1 + count.size() + sides.size() + option_size(*select), 1int,
    {
        let ghost mode = self.mode();
        let ghost m0 = self.machine();
        let (n, size) = match self.operands(count, sides) {
            Ok(pair) => pair,
            Err(e) => {
                return Err(e);
            },
        };
        let ghost f2 = self.faces();
        let ghost m2 = self.machine();
        let ghost m1 = operand(*count, mode, f2, m0)->Done_0.1;
        if n < 0 || (self.is_random() && n > 0 && size < 1) {
            return Err(Error::InvalidRoll { count: n, sides: size });
        }
        let start = self.rolls.len();
        self.throw_dice(size, n);
        let end = self.rolls.len();
        let ghost f3 = self.faces();
        let ghost m3 = self.machine();
        let outcome = self.narrow(select, start, end);
        proof {
            let f = self.faces();
            lemma_operand_extends(*count, mode, f2, f, m0);
            lemma_operand_extends(*sides, mode, f2, f, m1);
            lemma_cast_extends(mode, f3, f, m2.rolls, size, n as int);
            assert(m3 == m2.with_rolls(m3.rolls));
        }
        match outcome {
            Ok(_) => {},
            Err(e) => {
                return Err(e);
            },
        }
        let ghost unsorted = self.rolls@;
        sort_dice(&mut self.rolls, start, end, true);
        proof {
            lemma_sort_range_keeps(unsorted, start as int, end as int, true);
        }
        let sum = sum_kept(&self.rolls);
        self.results.push(sum);
        Ok(())
    }

    fn is_random(&self) -> (b: bool)
        ensures
            b == (self.mode() is Rand),
    {
        match &self.evaluation {
            Evaluation::Rand(_) => true,
            _ => false,
        }
    }

    fn select(&mut self, selection: &Selection, next: &Option<Box<Node>>) -> (r: Result<
        (),
        Error,
    >)
        requires
            old(self).wf(),
        ensures
            final(self).ran(*old(self), Node::Select { selection: *selection, next: *next }, r),
        decreases (Node::Select { selection: *selection, next: *next }).size(), 1int,
    {
        if self.dice_pools.len() == 0 {
            assert(bounds(self.dice_pools@).len() == 0);
            return Err(Error::StackUnderflow);
        }
        let pool = self.dice_pools[self.dice_pools.len() - 1];
        assert(self.machine().pools.last() == (pool.start as int, pool.end as int));
        match selection {
            Selection::Advantage | Selection::Disadvantage => self.select_throw(
                selection,
                next,
                pool,
            ),
            _ => self.select_dice(selection, next, pool),
        }
    }

    /// Advantage or disadvantage on the pool `pool`, which is the innermost.
    #[verifier::rlimit(50)]
    fn select_throw(&mut self, selection: &Selection, next: &Option<Box<Node>>, pool: Pool) -> (r:
        Result<(), Error>)
        requires
            old(self).wf(),
            selection.rerolls(),
            old(self).machine().pools.len() > 0,
            old(self).machine().pools.last() == (pool.start as int, pool.end as int),
            pool.start <= pool.end <= old(self).rolls.len(),
        ensures
            final(self).ran(*old(self), Node::Select { selection: *selection, next: *next }, r),
        decreases (Node::Select { selection: *selection, next: *next }).size(), 0int,
    {
        let ghost mode = self.mode();
        let ghost m0 = self.machine();
        let size = pool.end - pool.start;
        self.throw_again(pool.start, pool.end);
        let ghost f1 = self.faces();
        let ghost thrown_again = self.rolls@;
        let again = self.rolls.len() - size;
        let first = sum_results(&self.rolls, pool.start, pool.end);
        let second = sum_results(&self.rolls, again, self.rolls.len());
        let advantage = match selection {
            Selection::Advantage => true,
            _ => false,
        };
        let (from, to) = if (second > first) == advantage {
            mark_dice(&mut self.rolls, pool.start, pool.end, false);
            (again, self.rolls.len())
        } else {
            let len = self.rolls.len();
            mark_dice(&mut self.rolls, again, len, false);
            (pool.start, pool.end)
        };
        let ghost m1 = self.machine();
        assert(m1 == m0.with_rolls(
            pick_throw(*selection, thrown_again, pool.start as int, pool.end as int).0,
        ));
        let outcome = self.narrow(next, from, to);
        proof {
            lemma_reroll_extends(
                mode,
                f1,
                self.faces(),
                m0.rolls,
                pool.start as int,
                pool.end as int,
            );
        }
        outcome
    }

    /// The number of dice that a keep or drop picks: the value of its count,
    /// or 1 where it has none.
    fn select_count(&mut self, selection: &Selection) -> (r: Result<usize, Error>)
        requires
            old(self).wf(),
            !selection.rerolls(),
        ensures
            final(self).wf(),
            final(self).mode() == old(self).mode(),
            extends(final(self).faces(), old(self).faces()),
            r is Ok ==> final(self).kept_frame(*old(self)),
            match selection.count() {
                Some(c) => match operand(
                    *c,
                    old(self).mode(),
                    final(self).faces(),
                    old(self).machine(),
                ) {
                    Step::Done((n, m1)) => r == Ok::<usize, Error>(n as usize) && final(
                        self
                    ).machine() == m1,
                    Step::Failed(e) => r == Err::<usize, Error>(e),
                    Step::Invalid => false,
                },
                None => r == Ok::<usize, Error>(1) && *final(self) == *old(self),
            },
        decreases
                (match selection.count() {
                    Some(c) => c.size(),
                    None => 0,
                }),
                4int,
    {
        let count = match selection {
            Selection::KeepLowest { count } => count,
            Selection::KeepHighest { count } => count,
            Selection::DropLowest { count } => count,
            Selection::DropHighest { count } => count,
            _ => {
                return Ok(1);
            },
        };
        match count {
            Some(child) => {
                let value = match self.operand(child) {
                    Ok(value) => value,
                    Err(e) => {
                        return Err(e);
                    },
                };
                Ok(
                    #[verifier::truncate]
                    (value as usize),
                )
            },
            None => Ok(1),
        }
    }

    /// A keep or drop on the pool `pool`, which is the innermost.
    #[verifier::rlimit(50)]
    fn select_dice(&mut self, selection: &Selection, next: &Option<Box<Node>>, pool: Pool) -> (r:
        Result<(), Error>)
        requires
            old(self).wf(),
            !selection.rerolls(),
            old(self).machine().pools.len() > 0,
            old(self).machine().pools.last() == (pool.start as int, pool.end as int),
            pool.start <= pool.end <= old(self).rolls.len(),
        ensures
            final(self).ran(*old(self), Node::Select { selection: *selection, next: *next }, r),
        decreases (Node::Select { selection: *selection, next: *next }).size(), 0int,
    {
        let ghost mode = self.mode();
        let ghost m0 = self.machine();
        let high = match selection {
            Selection::KeepHighest { .. } | Selection::DropHighest { .. } => true,
            _ => false,
        };
        let keep = match selection {
            Selection::KeepHighest { .. } | Selection::KeepLowest { .. } => true,
            _ => false,
        };
        let picked = match self.select_count(selection) {
            Ok(picked) => picked,
            Err(e) => {
                return Err(e);
            },
        };
        let ghost f1 = self.faces();
        let ghost m1 = self.machine();
        if picked > pool.end - pool.start {
            return Err(
                Error::InvalidSelection {
                    selection_size: picked,
                    pool_size: pool.end - pool.start,
                },
            );
        }
        sort_dice(&mut self.rolls, pool.start, pool.end, high);
        proof {
            lemma_sort_range_keeps(m1.rolls, pool.start as int, pool.end as int, high);
        }
        mark_dice(&mut self.rolls, pool.start, pool.start + picked, keep);
        mark_dice(&mut self.rolls, pool.start + picked, pool.end, !keep);
        let (from, to) = if keep {
            (pool.start, pool.start + picked)
        } else {
            (pool.start + picked, pool.end)
        };
        let ghost m2 = self.machine();
        assert(pick_dice(*selection, m1.rolls, pool.start as int, pool.end as int, picked) == Ok::<
            (Seq<DieRoll>, (int, int)),
            Error,
        >((m2.rolls, (from as int, to as int))));
        assert(m2 == m1.with_rolls(m2.rolls));
        let outcome = self.narrow(next, from, to);
        proof {
            if let Some(child) = selection.count() {
                lemma_operand_extends(*child, mode, f1, self.faces(), m0);
            }
        }
        outcome
    }
}

/// Putting a range of dice in order changes neither how many dice there are
/// nor the size of any of them being at least 1.
pub proof fn lemma_sort_range_keeps(rolls: Seq<DieRoll>, start: int, end: int, high: bool)
    requires
        0 <= start <= end <= rolls.len(),
    ensures
        sort_range(rolls, start, end, high).len() == rolls.len(),
        (forall|i: int| 0 <= i < rolls.len() ==> (#[trigger] rolls[i]).sides >= 1) ==> (forall|
            i: int,
        |
            0 <= i < rolls.len() ==> (#[trigger] sort_range(rolls, start, end, high)[i]).sides
                >= 1),
{
    let part = rolls.subrange(start, end);
    lemma_sorted_keeps(part, high, |d: DieRoll| true);
    if forall|i: int| 0 <= i < rolls.len() ==> (#[trigger] rolls[i]).sides >= 1 {
        assert forall|i: int| 0 <= i < part.len() implies (|d: DieRoll| d.sides >= 1)(
            #[trigger] part[i],
        ) by {
            assert(part[i] == rolls[start + i]);
        }
        lemma_sorted_keeps(part, high, |d: DieRoll| d.sides >= 1);
        let out = sort_range(rolls, start, end, high);
        assert forall|i: int| 0 <= i < rolls.len() implies (#[trigger] out[i]).sides >= 1 by {
            if i < start {
                assert(out[i] == rolls[i]);
            } else if i < end {
                assert(out[i] == sorted(part, high)[i - start]);
                assert((|d: DieRoll| d.sides >= 1)(sorted(part, high)[i - start]));
            } else {
                assert(out[i] == rolls[i]);
            }
        }
    }
}

} // verus!
