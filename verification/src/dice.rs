//! Parsing, evaluation and printing of dice expressions such as `3d8 + 2`.
//!
//! The arithmetic operations `+`, `-`, `*` and `/` are supported, with the
//! multiplication and division signs as other forms of `*` and `/`. Products
//! precede sums unless grouped by parentheses. A roll is written
//! *count*`d`*sides*, where *sides* is 4, 6, 8, 10, 12, 20 or 100 (`d%` is
//! `d100`). A missing count is 1 and missing sides are 6. A roll may be
//! followed by any number of selections:
//!
//! - `k<n>` or `kh<n>`: keep the highest `<n>` dice;
//! - `kl<n>`: keep the lowest `<n>` dice;
//! - `d<n>` or `dl<n>`: discard the lowest `<n>` dice;
//! - `dh<n>`: discard the highest `<n>` dice;
//! - `adv` or `ad`: throw the pool again and take the higher total;
//! - `dis` or `da`: throw the pool again and take the lower total.
//!
//! A missing `<n>` is 1. Only integers are supported; division rounds toward
//! zero.

use vstd::prelude::*;
use vstd::string::*;
use crate::dice::ast::Node;
use crate::dice::bounds::{fair, lemma_bounds, lemma_dice_fair, survey, Tally};
use crate::dice::canon::{canonical, lemma_round_trip};
use crate::dice::eval::{evaluate, DieRoll, Evaluation, Evaluator, Machine, Mode, Step};
use crate::dice::parser::grammar;
use crate::dice::shape::{excusable, lemma_grammar_parsed, lemma_run_sound, parsed};
use crate::dice::pp::{print, render};

pub mod ast;
pub mod bounds;
pub mod canon;
pub mod eval;
pub mod lexer;
pub mod lookahead;
pub mod parser;
pub mod pool;
pub mod pp;
pub mod shape;

verus! {

/// What can go wrong with a dice expression.
#[derive(Debug)]
pub enum Error {
    /// The text is no expression.
    ParseError(parser::Error),
    /// The expression cannot be evaluated.
    EvalError(eval::Error),
}

/// An [`Error`] with its message as a sequence of characters.
pub enum ErrorView {
    ParseError(parser::ErrorView),
    EvalError(eval::Error),
}

impl View for Error {
    type V = ErrorView;

    open spec fn view(&self) -> ErrorView {
        match self {
            Error::ParseError(e) => ErrorView::ParseError(e@),
            Error::EvalError(e) => ErrorView::EvalError(*e),
        }
    }
}

impl ErrorView {
    /// What the error says.
    pub open spec fn text(self) -> Seq<char> {
        match self {
            ErrorView::ParseError(e) => "Parse error "@ + e.text(),
            ErrorView::EvalError(e) => "Evaluation error "@ + e.text(),
        }
    }
}

impl Error {
    /// What the error says.
    pub fn message(&self) -> (m: String)
        ensures
            m@ == self@.text(),
    {
        match self {
            Error::ParseError(e) => {
                let mut m = String::from_str("Parse error ");
                m.append(e.message().as_str());
                m
            },
            Error::EvalError(e) => {
                let mut m = String::from_str("Evaluation error ");
                m.append(e.message().as_str());
                m
            },
        }
    }
}

/// The result of rolling an expression: its value and every die thrown.
#[derive(Debug, Clone)]
pub struct Roll {
    pub value: i32,
    pub dice: Vec<DieRoll>,
}

/// A parsed dice expression.
#[derive(Debug)]
pub struct DiceExpr {
    root: Box<Node>,
}

/// How the outcome `r` of a roll answers to what the evaluation gives.
pub open spec fn rolled(r: Result<Roll, Error>, expected: Step<(i32, Seq<DieRoll>)>) -> bool {
    match expected {
        Step::Done((value, dice)) => r matches Ok(roll) && roll.value == value && roll.dice@
            == dice,
        Step::Failed(e) => r matches Err(Error::EvalError(err)) && err == e,
        Step::Invalid => false,
    }
}

/// How the outcome `r` of an evaluation for its value answers to what the
/// evaluation gives.
pub open spec fn valued(r: Result<i32, Error>, expected: Step<(i32, Seq<DieRoll>)>) -> bool {
    match expected {
        Step::Done((value, dice)) => r matches Ok(v) && v == value,
        Step::Failed(e) => r matches Err(Error::EvalError(err)) && err == e,
        Step::Invalid => false,
    }
}

impl Clone for DiceExpr {
    fn clone(&self) -> (r: Self)
        ensures
            r.root() == self.root(),
    {
        proof {
            use_type_invariant(self);
        }
        DiceExpr { root: Box::new((*self.root).clone()) }
    }
}

/// Whether the outcome of an evaluation is free of the errors that only an
/// ill-formed tree can run into.
pub open spec fn well_behaved<T>(r: Result<T, Error>) -> bool {
    r matches Err(e) ==> e matches Error::EvalError(cause) && excusable(cause)
}

impl DiceExpr {
    /// An expression holds a tree of the shape that parsing gives.
    #[verifier::type_invariant]
    spec fn inv(self) -> bool {
        parsed(*self.root)
    }

    /// The tree of the expression.
    pub closed spec fn root(self) -> Node {
        *self.root
    }

    /// Parses `input` as a dice expression.
    pub fn parse(input: &str) -> (r: Result<Self, Error>)
        ensures
            match grammar(input@) {
                Ok(root) => r matches Ok(expr) && expr.root() == *root,
                Err(e) => r matches Err(Error::ParseError(err)) && err@ == e,
            },
            r matches Ok(expr) ==> parsed(expr.root()),
    {
        proof {
            lemma_grammar_parsed(input@);
        }
        match parser::parse(input) {
            Ok(root) => Ok(DiceExpr { root }),
            Err(e) => Err(Error::ParseError(e)),
        }
    }

    /// Rolls the expression with dice from `rng`. The result is what the
    /// evaluation gives for the faces that the dice showed; each die in it
    /// stands for one of those faces.
    pub fn roll(&self, rng: &mut rand::rngs::StdRng) -> (r: Result<Roll, Error>)
        ensures
            exists|faces: Seq<i32>| #[trigger]
                rolled(r, evaluate(self.root(), Mode::Rand, faces)) && (r matches Ok(roll)
                    ==> faces.len() == roll.dice.len()),
            r matches Ok(roll) ==> forall|i: int|
                0 <= i < roll.dice.len() ==> 1 <= (#[trigger] roll.dice[i]).result
                    <= roll.dice[i].sides,
            well_behaved(r),
    {
        proof {
            use_type_invariant(self);
        }
        let mut evaluator = Evaluator::new(Evaluation::Rand(rng));
        let outcome = evaluator.eval(&self.root);
        let ghost faces = evaluator.faces();
        match outcome {
            Ok(value) => {
                let dice = evaluator.into_rolls();
                let r = Ok(Roll { value, dice });
                assert(rolled(r, evaluate(self.root(), Mode::Rand, faces)));
                proof {
                    lemma_dice_fair(self.root(), faces);
                    assert forall|i: int| 0 <= i < dice.len() implies 1 <= (#[trigger] dice[i]).result
                        <= dice[i].sides by {
                        assert(fair(dice@[i], Mode::Rand));
                    }
                }
                r
            },
            Err(e) => {
                let r = Err(Error::EvalError(e));
                assert(rolled(r, evaluate(self.root(), Mode::Rand, faces)));
                proof {
                    lemma_run_sound(self.root(), Mode::Rand, faces, Machine::empty());
                }
                r
            },
        }
    }

    fn fixed(&self, evaluation: Evaluation<'_>) -> (r: Result<i32, Error>)
        requires
            !(evaluation.mode() is Rand),
        ensures
            valued(r, evaluate(self.root(), evaluation.mode(), Seq::empty())),
            well_behaved(r),
    {
        proof {
            use_type_invariant(self);
            lemma_run_sound(self.root(), evaluation.mode(), Seq::empty(), Machine::empty());
        }
        let mut evaluator = Evaluator::new(evaluation);
        match evaluator.eval(&self.root) {
            Ok(value) => Ok(value),
            Err(e) => Err(Error::EvalError(e)),
        }
    }

    /// The value of the expression when every die shows half its number of
    /// sides, rounded toward zero.
    pub fn mid(&self) -> (r: Result<i32, Error>)
        ensures
            valued(r, evaluate(self.root(), Mode::Mid, Seq::empty())),
            well_behaved(r),
    {
        self.fixed(Evaluation::Mid)
    }

    /// The value of the expression when every die shows 1.
    pub fn min(&self) -> (r: Result<i32, Error>)
        ensures
            valued(r, evaluate(self.root(), Mode::Min, Seq::empty())),
            well_behaved(r),
    {
        self.fixed(Evaluation::Min)
    }

    /// The value of the expression when every die shows its number of sides.
    pub fn max(&self) -> (r: Result<i32, Error>)
        ensures
            valued(r, evaluate(self.root(), Mode::Max, Seq::empty())),
            well_behaved(r),
    {
        self.fixed(Evaluation::Max)
    }

    /// The canonical text of the expression.
    pub fn to_string(&self) -> (text: String)
        ensures
            text@ == render(self.root(), false),
    {
        print(&self.root)
    }
}

/// Parses `input` and rolls it once with dice from `rng`.
pub fn roll(input: &str, rng: &mut rand::rngs::StdRng) -> (r: Result<i32, Error>)
    ensures
        match grammar(input@) {
            Ok(root) => exists|faces: Seq<i32>| #[trigger]
                valued(r, evaluate(*root, Mode::Rand, faces)),
            Err(e) => r matches Err(Error::ParseError(err)) && err@ == e,
        },
        r matches Err(Error::EvalError(cause)) ==> excusable(cause),
{
    proof {
        lemma_grammar_parsed(input@);
    }
    let root = match parser::parse(input) {
        Ok(root) => root,
        Err(e) => {
            return Err(Error::ParseError(e));
        },
    };
    let mut evaluator = Evaluator::new(Evaluation::Rand(rng));
    let outcome = evaluator.eval(&root);
    let ghost faces = evaluator.faces();
    let r = match outcome {
        Ok(value) => Ok(value),
        Err(e) => Err(Error::EvalError(e)),
    };
    assert(valued(r, evaluate(*root, Mode::Rand, faces)));
    proof {
        lemma_run_sound(*root, Mode::Rand, faces, Machine::empty());
    }
    r
}

/// Determinism: two rolls of expressions with the same tree, for which the
/// dice show the same faces, give the same value and the same dice, or fail
/// with the same error. The faces are all that a roll takes from its source
/// of randomness.
pub proof fn lemma_roll_determined(
    a: DiceExpr,
    b: DiceExpr,
    faces: Seq<i32>,
    first: Result<Roll, Error>,
    second: Result<Roll, Error>,
)
    requires
        a.root() == b.root(),
        rolled(first, evaluate(a.root(), Mode::Rand, faces)),
        rolled(second, evaluate(b.root(), Mode::Rand, faces)),
    ensures
        match (first, second) {
            (Ok(x), Ok(y)) => x.value == y.value && x.dice@ == y.dice@,
            (Err(x), Err(y)) => x@ == y@,
            _ => false,
        },
{
}

/// The values of an expression under the three fixed strategies depend on
/// its tree alone.
pub proof fn lemma_fixed_determined(
    a: DiceExpr,
    b: DiceExpr,
    mode: Mode,
    first: Result<i32, Error>,
    second: Result<i32, Error>,
)
    requires
        a.root() == b.root(),
        valued(first, evaluate(a.root(), mode, Seq::empty())),
        valued(second, evaluate(b.root(), mode, Seq::empty())),
    ensures
        match (first, second) {
            (Ok(x), Ok(y)) => x == y,
            (Err(x), Err(y)) => x@ == y@,
            _ => false,
        },
{
}

/// Bounds: for an expression that grows with its dice, within `i32` (one
/// that [`survey`] has bounds for), `min` and `max` succeed, and so does
/// every roll, with a value from the one to the other.
pub proof fn lemma_roll_between_min_and_max(
    expr: DiceExpr,
    min: Result<i32, Error>,
    max: Result<i32, Error>,
    faces: Seq<i32>,
    roll: Result<Roll, Error>,
)
    requires
        survey(expr.root(), Tally { kept: 0, span: 0 }) is Some,
        valued(min, evaluate(expr.root(), Mode::Min, Seq::empty())),
        valued(max, evaluate(expr.root(), Mode::Max, Seq::empty())),
        rolled(roll, evaluate(expr.root(), Mode::Rand, faces)),
    ensures
        min is Ok,
        max is Ok,
        roll is Ok,
        min->Ok_0 <= roll->Ok_0.value <= max->Ok_0,
{
    lemma_bounds(expr.root(), faces);
}

/// Round trip: an expression in canonical form is written as text that
/// parses back to the same expression, and so to the same text.
pub proof fn lemma_parse_of_text(expr: DiceExpr, text: Seq<char>, parsed_back: Result<DiceExpr, Error>)
    requires
        canonical(expr.root(), false),
        text == render(expr.root(), false),
        match grammar(text) {
            Ok(root) => parsed_back matches Ok(e) && e.root() == *root,
            Err(e) => parsed_back matches Err(Error::ParseError(err)) && err@ == e,
        },
    ensures
        parsed_back matches Ok(e) && e.root() == expr.root() && render(e.root(), false) == text,
{
    lemma_round_trip(expr.root());
}

} // verus!
