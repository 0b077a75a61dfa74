//! The shape of the trees that parsing gives, and what it spares their
//! evaluation: such a tree never finds the stack empty and never asks for
//! dice that cannot be thrown.

use vstd::prelude::*;
use crate::dice::ast::{option_size, Node};
use crate::dice::bounds::picked;
use crate::dice::canon::{literal, plain};
use crate::dice::eval::{
    arith,
    cast,
    operand,
    pick_dice,
    pick_throw,
    reroll,
    run,
    run_next,
    Error,
    Machine,
    Mode,
    Step,
};
use crate::dice::lexer::{lemma_scan_bounds, lemma_scan_number, spaces_end, Keyword, Token};
use crate::dice::parser::{
    after,
    allowed_sides,
    chain,
    grammar,
    grammar_factor,
    grammar_roll,
    grammar_selection,
    grammar_sum,
    grammar_term,
    peek_at,
    picks,
    sum_rest,
    term_rest,
};

verus! {

/// The trees that parsing gives: literals are not negative; a roll has a
/// literal count, one of the known die sizes, and a chain of selections
/// whose counts, where they have any, are literals; a selection stands
/// nowhere but in such a chain.
pub open spec fn parsed(node: Node) -> bool
    decreases node,
{
    match node {
        Node::Lit { value } => value >= 0,
        Node::Roll { count, sides, select } => plain(count) && plain(sides) && allowed_sides(
            literal(sides),
        ) && picked(select),
        Node::Select { .. } => false,
        Node::Neg { right } => parsed(*right),
        Node::Add { left, right }
        | Node::Sub { left, right }
        | Node::Mul { left, right }
        | Node::Div { left, right } => parsed(*left) && parsed(*right),
    }
}

/// An integer that the lexer reads is not negative.
pub proof fn lemma_integer(s: Seq<char>, pos: int)
    requires
        0 <= pos <= s.len(),
    ensures
        peek_at(s, pos) matches Some(Ok(Token::Integer(n))) ==> n >= 0,
{
    lemma_scan_bounds(s, pos);
    let start = spaces_end(s, pos);
    if start < s.len() {
        lemma_scan_number(s, start, 0);
    }
}

/// A chain of selections that parsing gives has literal counts.
pub proof fn lemma_selection_parsed(s: Seq<char>, pos: int)
    requires
        0 <= pos <= s.len(),
    ensures
        grammar_selection(s, pos) matches Ok((select, end)) ==> picked(select),
    decreases s.len() - pos,
{
    lemma_scan_bounds(s, pos);
    let pa = after(s, pos);
    if let Some(Ok(Token::Word(k))) = peek_at(s, pos) {
        lemma_scan_bounds(s, pa);
        lemma_integer(s, pa);
        if picks(k) {
            match peek_at(s, pa) {
                Some(Ok(Token::Integer(n))) => {
                    lemma_selection_parsed(s, after(s, pa));
                },
                Some(Err(e)) => {},
                _ => {
                    lemma_selection_parsed(s, pa);
                },
            }
        } else if k is Adv || k is Ad || k is Dis || k is Da {
            lemma_selection_parsed(s, pa);
        }
    }
}

/// A roll that parsing gives has the shape of a parsed tree.
pub proof fn lemma_roll_parsed(s: Seq<char>, pos: int, count: i32)
    requires
        0 <= pos <= s.len(),
        count >= 0,
    ensures
        grammar_roll(s, pos, count) matches Ok((node, end)) ==> parsed(*node),
{
    lemma_scan_bounds(s, pos);
    let pa = after(s, pos);
    lemma_scan_bounds(s, pa);
    lemma_integer(s, pa);
    lemma_selection_parsed(s, pa);
    lemma_selection_parsed(s, after(s, pa));
}

/// A factor that parsing gives has the shape of a parsed tree.
pub proof fn lemma_factor_parsed(s: Seq<char>, pos: int)
    requires
        0 <= pos <= s.len(),
    ensures
        grammar_factor(s, pos) matches Ok((node, end)) ==> parsed(*node),
    decreases s.len() - pos, 0int,
{
    lemma_scan_bounds(s, pos);
    lemma_integer(s, pos);
    let pa = after(s, pos);
    match peek_at(s, pos) {
        Some(Ok(Token::Open(open))) => {
            lemma_sum_parsed(s, pa);
        },
        Some(Ok(Token::Integer(n))) => {
            lemma_roll_parsed(s, pa, n);
        },
        Some(Ok(Token::Word(Keyword::D))) => {
            lemma_roll_parsed(s, pos, 1);
        },
        Some(Ok(Token::Minus)) => {
            lemma_factor_parsed(s, pa);
        },
        _ => {},
    }
}

/// What follows a parsed term in a term has the shape of a parsed tree.
pub proof fn lemma_term_rest_parsed(s: Seq<char>, left: Box<Node>, pos: int)
    requires
        0 <= pos <= s.len(),
        parsed(*left),
    ensures
        term_rest(s, left, pos) matches Ok((node, end)) ==> parsed(*node),
    decreases s.len() - pos, 1int,
{
    lemma_scan_bounds(s, pos);
    let pa = after(s, pos);
    match peek_at(s, pos) {
        Some(Ok(Token::Times)) => {
            lemma_factor_parsed(s, pa);
            if let Ok((right, pb)) = grammar_factor(s, pa) {
                if pa <= pb <= s.len() {
                    lemma_term_rest_parsed(s, Box::new(Node::Mul { left, right }), pb);
                }
            }
        },
        Some(Ok(Token::Divide)) => {
            lemma_factor_parsed(s, pa);
            if let Ok((right, pb)) = grammar_factor(s, pa) {
                if pa <= pb <= s.len() {
                    lemma_term_rest_parsed(s, Box::new(Node::Div { left, right }), pb);
                }
            }
        },
        _ => {},
    }
}

/// A term that parsing gives has the shape of a parsed tree.
pub proof fn lemma_term_parsed(s: Seq<char>, pos: int)
    requires
        0 <= pos <= s.len(),
    ensures
        grammar_term(s, pos) matches Ok((node, end)) ==> parsed(*node),
    decreases s.len() - pos, 2int,
{
    lemma_factor_parsed(s, pos);
    if let Ok((left, p)) = grammar_factor(s, pos) {
        if pos <= p <= s.len() {
            lemma_term_rest_parsed(s, left, p);
        }
    }
}

/// What follows a parsed sum in a sum has the shape of a parsed tree.
pub proof fn lemma_sum_rest_parsed(s: Seq<char>, left: Box<Node>, pos: int)
    requires
        0 <= pos <= s.len(),
        parsed(*left),
    ensures
        sum_rest(s, left, pos) matches Ok((node, end)) ==> parsed(*node),
    decreases s.len() - pos, 3int,
{
    lemma_scan_bounds(s, pos);
    let pa = after(s, pos);
    match peek_at(s, pos) {
        Some(Ok(Token::Plus)) => {
            lemma_term_parsed(s, pa);
            if let Ok((right, pb)) = grammar_term(s, pa) {
                if pa <= pb <= s.len() {
                    lemma_sum_rest_parsed(s, Box::new(Node::Add { left, right }), pb);
                }
            }
        },
        Some(Ok(Token::Minus)) => {
            lemma_term_parsed(s, pa);
            if let Ok((right, pb)) = grammar_term(s, pa) {
                if pa <= pb <= s.len() {
                    lemma_sum_rest_parsed(s, Box::new(Node::Sub { left, right }), pb);
                }
            }
        },
        _ => {},
    }
}

/// A sum that parsing gives has the shape of a parsed tree.
pub proof fn lemma_sum_parsed(s: Seq<char>, pos: int)
    requires
        0 <= pos <= s.len(),
    ensures
        grammar_sum(s, pos) matches Ok((node, end)) ==> parsed(*node),
    decreases s.len() - pos, 4int,
{
    lemma_term_parsed(s, pos);
    if let Ok((left, p)) = grammar_term(s, pos) {
        if pos <= p <= s.len() {
            lemma_sum_rest_parsed(s, left, p);
        }
    }
}

/// Whatever text parses, parses to a tree of the parsed shape.
pub proof fn lemma_grammar_parsed(s: Seq<char>)
    ensures
        grammar(s) matches Ok(root) ==> parsed(*root),
{
    lemma_sum_parsed(s, 0);
}

/// The errors that the evaluation of a parsed tree can end in: a selection
/// of more dice than there are, and a division by zero.
pub open spec fn excusable(e: Error) -> bool {
    e is InvalidSelection || e is DivideByZero
}

/// What a run of a parsed tree leads to: one value more on the stack, or one
/// of the excusable errors.
pub open spec fn sound(before: Machine, step: Step<Machine>) -> bool {
    match step {
        Step::Done(after) => after.results.len() == before.results.len() + 1
            && after.results.drop_last() == before.results,
        Step::Failed(e) => excusable(e),
        Step::Invalid => true,
    }
}

/// What a run of a chain of selections leads to: the stack as it was, or a
/// selection of more dice than there are.
pub open spec fn sound_chain(before: Machine, step: Step<Machine>) -> bool {
    match step {
        Step::Done(after) => after.results == before.results,
        Step::Failed(e) => e is InvalidSelection,
        Step::Invalid => true,
    }
}

/// A chain of selections with literal counts leaves the stack as it was, or
/// fails on a selection of more dice than there are.
pub proof fn lemma_chain_sound(
    select: Option<Box<Node>>,
    mode: Mode,
    faces: Seq<i32>,
    m: Machine,
    pool: (int, int),
)
    requires
        picked(select),
    ensures
        sound_chain(m, run_next(select, mode, faces, m, pool)),
    decreases option_size(select),
{
    if let Some(node) = select {
        if let Node::Select { selection, next } = *node {
            let mp = m.push_pool(pool.0, pool.1);
            assert(mp.pools.last() == pool);
            if selection.rerolls() {
                if let Some(rolls) = reroll(mode, faces, mp.rolls, pool.0, pool.1) {
                    let (marked, winner) = pick_throw(selection, rolls, pool.0, pool.1);
                    lemma_chain_sound(next, mode, faces, mp.with_rolls(marked), winner);
                    assert(run(*node, mode, faces, mp) == run_next(
                        next,
                        mode,
                        faces,
                        mp.with_rolls(marked),
                        winner,
                    ));
                } else {
                    assert(run(*node, mode, faces, mp) is Invalid);
                }
            } else {
                match selection.count() {
                    Some(c) => {
                        let v = literal(c);
                        assert(mp.push(v).popped().results =~= mp.results);
                        assert(mp.push(v).popped() == mp);
                        assert(operand(*c, mode, faces, mp) == Step::Done((v, mp)));
                        match pick_dice(selection, mp.rolls, pool.0, pool.1, v as usize) {
                            Ok((marked, survivors)) => {
                                lemma_chain_sound(
                                    next,
                                    mode,
                                    faces,
                                    mp.with_rolls(marked),
                                    survivors,
                                );
                                assert(run(*node, mode, faces, mp) == run_next(
                                    next,
                                    mode,
                                    faces,
                                    mp.with_rolls(marked),
                                    survivors,
                                ));
                            },
                            Err(e) => {
                                assert(run(*node, mode, faces, mp) == Step::<Machine>::Failed(e));
                            },
                        }
                    },
                    None => {
                        match pick_dice(selection, mp.rolls, pool.0, pool.1, 1) {
                            Ok((marked, survivors)) => {
                                lemma_chain_sound(
                                    next,
                                    mode,
                                    faces,
                                    mp.with_rolls(marked),
                                    survivors,
                                );
                                assert(run(*node, mode, faces, mp) == run_next(
                                    next,
                                    mode,
                                    faces,
                                    mp.with_rolls(marked),
                                    survivors,
                                ));
                            },
                            Err(e) => {
                                assert(run(*node, mode, faces, mp) == Step::<Machine>::Failed(e));
                            },
                        }
                    },
                }
            }
        }
    }
}

/// The operand of a parsed tree is the one value that its run puts on the
/// stack, and leaves the stack as it was.
pub proof fn lemma_operand_sound(node: Node, mode: Mode, faces: Seq<i32>, m: Machine)
    requires
        parsed(node),
    ensures
        match operand(node, mode, faces, m) {
            Step::Done((value, after)) => after.results == m.results,
            Step::Failed(e) => excusable(e),
            Step::Invalid => true,
        },
    decreases node.size(), 1int,
{
    lemma_run_sound(node, mode, faces, m);
}

/// Soundness: the run of a parsed tree puts one value on the stack, or ends
/// in one of the excusable errors. The stack is never found empty, and no
/// roll asks for dice that cannot be thrown.
pub proof fn lemma_run_sound(node: Node, mode: Mode, faces: Seq<i32>, m: Machine)
    requires
        parsed(node),
    ensures
        sound(m, run(node, mode, faces, m)),
    decreases node.size(), 0int,
{
    match node {
        Node::Lit { value } => {
            assert(m.push(value).results.drop_last() =~= m.results);
        },
        Node::Neg { right } => {
            lemma_operand_sound(*right, mode, faces, m);
            if let Step::Done((value, m1)) = operand(*right, mode, faces, m) {
                assert(m1.push(0i32.wrapping_sub(value)).results.drop_last() =~= m.results);
            }
        },
        Node::Add { left, right }
        | Node::Sub { left, right }
        | Node::Mul { left, right }
        | Node::Div { left, right } => {
            lemma_operand_sound(*left, mode, faces, m);
            if let Step::Done((a, m1)) = operand(*left, mode, faces, m) {
                lemma_operand_sound(*right, mode, faces, m1);
                if let Step::Done((b, m2)) = operand(*right, mode, faces, m1) {
                    if let Ok(value) = arith(node, a, b) {
                        assert(m2.push(value).results.drop_last() =~= m.results);
                    }
                }
            }
        },
        Node::Roll { count, sides, select } => {
            let n = literal(count);
            let size = literal(sides);
            assert(m.push(n).popped().results =~= m.results);
            assert(m.push(size).popped().results =~= m.results);
            assert(operand(*count, mode, faces, m) == Step::Done((n, m)));
            assert(operand(*sides, mode, faces, m) == Step::Done((size, m)));
            if let Some(rolls) = cast(mode, faces, m.rolls, size, n as int) {
                let start = m.rolls.len() as int;
                let end = rolls.len() as int;
                let m1 = m.with_rolls(rolls);
                lemma_chain_sound(select, mode, faces, m1, (start, end));
                if let Step::Done(m2) = run_next(select, mode, faces, m1, (start, end)) {
                    let done = crate::dice::eval::finish_roll(m2, start, end);
                    assert(done.results.drop_last() =~= m.results);
                }
            }
        },
        Node::Select { .. } => {},
    }
}

} // verus!
