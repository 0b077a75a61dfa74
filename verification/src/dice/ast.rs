//! Abstract syntax tree for dice expressions.
//!
//! Every node exclusively owns its children, so a tree is a plain value and
//! can be compared, cloned and reasoned about structurally.

use vstd::prelude::*;

verus! {

/// Selections that can be made over dice rolls.
#[derive(Debug, PartialEq, Eq, Hash)]
pub enum Selection {
    /// Keep the lowest *n* dice.
    KeepLowest { count: Option<Box<Node>> },
    /// Keep the highest *n* dice.
    KeepHighest { count: Option<Box<Node>> },
    /// Discard the lowest *n* dice.
    DropLowest { count: Option<Box<Node>> },
    /// Discard the highest *n* dice.
    DropHighest { count: Option<Box<Node>> },
    /// Reroll the pool and keep the higher total.
    Advantage,
    /// Reroll the pool and keep the lower total.
    Disadvantage,
}

/// A node in the syntax tree.
#[derive(Debug, PartialEq, Eq, Hash)]
pub enum Node {
    /// A literal integer value.
    Lit { value: i32 },
    /// Rolling some number of dice of one size, with an optional selection.
    Roll { count: Box<Node>, sides: Box<Node>, select: Option<Box<Node>> },
    /// A selection over previously rolled dice, followed by further selections.
    Select { selection: Selection, next: Option<Box<Node>> },
    /// Unary negation.
    Neg { right: Box<Node> },
    /// Addition.
    Add { left: Box<Node>, right: Box<Node> },
    /// Subtraction.
    Sub { left: Box<Node>, right: Box<Node> },
    /// Multiplication.
    Mul { left: Box<Node>, right: Box<Node> },
    /// Division, truncating toward zero.
    Div { left: Box<Node>, right: Box<Node> },
}

impl Selection {
    /// The count operand of a keep or drop selection, if it has one.
    pub open spec fn count(self) -> Option<Box<Node>> {
        match self {
            Selection::KeepLowest { count } => count,
            Selection::KeepHighest { count } => count,
            Selection::DropLowest { count } => count,
            Selection::DropHighest { count } => count,
            Selection::Advantage => None,
            Selection::Disadvantage => None,
        }
    }

    /// Whether the selection orders the pool from the highest result down.
    pub open spec fn high(self) -> bool {
        self is KeepHighest || self is DropHighest
    }

    /// Whether the dice the selection picks are the ones kept.
    pub open spec fn keeps(self) -> bool {
        self is KeepHighest || self is KeepLowest
    }

    /// Whether the selection rerolls the pool rather than picking from it.
    pub open spec fn rerolls(self) -> bool {
        self is Advantage || self is Disadvantage
    }
}

/// The number of nodes in an optional subtree.
pub open spec fn option_size(node: Option<Box<Node>>) -> nat
    decreases node,
{
    match node {
        Some(child) => child.size(),
        None => 0,
    }
}

impl Node {
    /// The number of nodes in the tree.
    pub open spec fn size(self) -> nat
        decreases self,
    {
        match self {
            Node::Lit { .. } => 1,
            Node::Roll { count, sides, select } => 1 + count.size() + sides.size() + option_size(
                select,
            ),
            Node::Select { selection, next } => 1 + (match selection {
                Selection::KeepLowest { count: Some(c) } => c.size(),
                Selection::KeepHighest { count: Some(c) } => c.size(),
                Selection::DropLowest { count: Some(c) } => c.size(),
                Selection::DropHighest { count: Some(c) } => c.size(),
                _ => 0,
            }) + option_size(next),
            Node::Neg { right } => 1 + right.size(),
            Node::Add { left, right } => 1 + left.size() + right.size(),
            Node::Sub { left, right } => 1 + left.size() + right.size(),
            Node::Mul { left, right } => 1 + left.size() + right.size(),
            Node::Div { left, right } => 1 + left.size() + right.size(),
        }
    }
}

fn clone_child(child: &Option<Box<Node>>) -> (r: Option<Box<Node>>)
    ensures
        r == *child,
    decreases *child,
{
    match child {
        Some(node) => Some(Box::new((**node).clone())),
        None => None,
    }
}

impl Clone for Selection {
    fn clone(&self) -> (r: Self)
        ensures
            r == *self,
        decreases *self,
    {
        match self {
            Selection::KeepLowest { count } => Selection::KeepLowest { count: clone_child(count) },
            Selection::KeepHighest { count } => Selection::KeepHighest {
                count: clone_child(count),
            },
            Selection::DropLowest { count } => Selection::DropLowest { count: clone_child(count) },
            Selection::DropHighest { count } => Selection::DropHighest {
                count: clone_child(count),
            },
            Selection::Advantage => Selection::Advantage,
            Selection::Disadvantage => Selection::Disadvantage,
        }
    }
}

impl Clone for Node {
    fn clone(&self) -> (r: Self)
        ensures
            r == *self,
        decreases *self,
    {
        match self {
            Node::Lit { value } => Node::Lit { value: *value },
            Node::Roll { count, sides, select } => Node::Roll {
                count: Box::new((**count).clone()),
                sides: Box::new((**sides).clone()),
                select: clone_child(select),
            },
            Node::Select { selection, next } => Node::Select {
                selection: selection.clone(),
                next: clone_child(next),
            },
            Node::Neg { right } => Node::Neg { right: Box::new((**right).clone()) },
            Node::Add { left, right } => Node::Add {
                left: Box::new((**left).clone()),
                right: Box::new((**right).clone()),
            },
            Node::Sub { left, right } => Node::Sub {
                left: Box::new((**left).clone()),
                right: Box::new((**right).clone()),
            },
            Node::Mul { left, right } => Node::Mul {
                left: Box::new((**left).clone()),
                right: Box::new((**right).clone()),
            },
            Node::Div { left, right } => Node::Div {
                left: Box::new((**left).clone()),
                right: Box::new((**right).clone()),
            },
        }
    }
}

} // verus!
