//! A pretty-printer for dice expressions: it walks a tree and writes the
//! canonical text of the expression.
//!
//! The text is fixed by [`render`]. Sums inside a product, a quotient or a
//! negation are parenthesized; every keep or drop selection is written with
//! its count, also where the count was left out of the source.

use vstd::prelude::*;
use crate::dice::ast::{option_size, Node, Selection};
use crate::text::{decimal, push_decimal};

verus! {

/// The word that writes a selection.
pub open spec fn selection_word(selection: Selection) -> Seq<char> {
    match selection {
        Selection::KeepHighest { .. } => seq!['k', 'h'],
        Selection::KeepLowest { .. } => seq!['k', 'l'],
        Selection::DropHighest { .. } => seq!['d', 'h'],
        Selection::DropLowest { .. } => seq!['d', 'l'],
        Selection::Advantage => seq!['a', 'd', 'v'],
        Selection::Disadvantage => seq!['d', 'i', 's'],
    }
}

/// `body` in parentheses where `prod` holds, bare otherwise.
pub open spec fn grouped(prod: bool, body: Seq<char>) -> Seq<char> {
    if prod {
        seq!['('] + body + seq![')']
    } else {
        body
    }
}

/// The text of an optional child, nothing where there is none.
pub open spec fn render_option(node: Option<Box<Node>>, prod: bool) -> Seq<char>
    decreases node,
{
    match node {
        Some(child) => render(*child, prod),
        None => Seq::empty(),
    }
}

/// The count of a selection as written: the count itself, `1` where a keep or
/// drop has none, and nothing for advantage and disadvantage.
pub open spec fn render_count(selection: Selection, prod: bool) -> Seq<char>
    decreases selection,
{
    match selection {
        Selection::KeepHighest { count: Some(c) } => render(*c, prod),
        Selection::KeepLowest { count: Some(c) } => render(*c, prod),
        Selection::DropHighest { count: Some(c) } => render(*c, prod),
        Selection::DropLowest { count: Some(c) } => render(*c, prod),
        Selection::Advantage => Seq::empty(),
        Selection::Disadvantage => Seq::empty(),
        _ => seq!['1'],
    }
}

/// The canonical text of `node`. `prod` says whether the node stands inside
/// a product, a quotient or a negation, where a sum needs parentheses.
pub open spec fn render(node: Node, prod: bool) -> Seq<char>
    decreases node,
{
    match node {
        Node::Lit { value } => decimal(value as int),
        Node::Roll { count, sides, select } => render(*count, prod) + seq!['d'] + render(
            *sides,
            prod,
        ) + render_option(select, prod),
        Node::Select { selection, next } => selection_word(selection) + render_count(
            selection,
            prod,
        ) + render_option(next, prod),
        Node::Neg { right } => seq!['-'] + render(*right, true),
        Node::Add { left, right } => grouped(
            prod,
            render(*left, false) + seq![' ', '+', ' '] + render(*right, false),
        ),
        Node::Sub { left, right } => grouped(
            prod,
            render(*left, false) + seq![' ', '-', ' '] + render(*right, false),
        ),
        Node::Mul { left, right } => render(*left, true) + seq![' ', '\u{d7}', ' '] + render(
            *right,
            true,
        ),
        Node::Div { left, right } => render(*left, true) + seq![' ', '/', ' '] + render(
            *right,
            true,
        ),
    }
}

/// A pretty-printer for dice expressions.
pub struct PP<'o> {
    /// The text written so far.
    pub writer: &'o mut String,
    /// Whether the node being written stands inside a product, a quotient or
    /// a negation, where sums need parentheses.
    pub prod: bool,
}

impl<'o> PP<'o> {
    /// The text written so far.
    pub open spec fn written(self) -> Seq<char> {
        (*self.writer)@
    }

    /// Whether the printer is inside a product, a quotient or a negation.
    pub open spec fn in_product(self) -> bool {
        self.prod
    }

    /// A printer that appends to `writer`.
    pub fn new(writer: &'o mut String) -> (pp: Self)
        ensures
            pp.written() == old(writer)@,
            !pp.in_product(),
            *final(pp.writer) == *final(writer),
    {
        Self { writer, prod: false }
    }

    /// Appends the canonical text of `node`.
    pub fn write(&mut self, node: &Node)
        ensures
            final(self).written() == old(self).written() + render(*node, old(self).in_product()),
            final(self).in_product() == old(self).in_product(),
            *final(final(self).writer) == *final(old(self).writer),
    {
        self.visit(node)
    }

    fn visit(&mut self, node: &Node)
        ensures
            final(self).written() == old(self).written() + render(*node, old(self).in_product()),
            final(self).in_product() == old(self).in_product(),
            *final(final(self).writer) == *final(old(self).writer),
        decreases node.size(), 2int,
    {
        match node {
            Node::Lit { value } => self.lit(*value),
            Node::Roll { count, sides, select } => self.roll(count, sides, select),
            Node::Select { selection, next } => self.select(selection, next),
            Node::Neg { right } => self.neg(right),
            Node::Add { left, right } => self.add(left, right),
            Node::Sub { left, right } => self.sub(left, right),
            Node::Mul { left, right } => self.mul(left, right),
            Node::Div { left, right } => self.div(left, right),
        }
    }

    fn lit(&mut self, value: i32)
        ensures
            final(self).written() == old(self).written() + decimal(value as int),
            final(self).in_product() == old(self).in_product(),
            *final(final(self).writer) == *final(old(self).writer),
    {
        push_decimal(self.writer, value as i64);
    }

    fn roll(&mut self, count: &Node, sides: &Node, select: &Option<Box<Node>>)
        ensures
            final(self).written() == old(self).written() + render(
                Node::Roll { count: Box::new(*count), sides: Box::new(*sides), select: *select },
                old(self).in_product(),
            ),
            final(self).in_product() == old(self).in_product(),
            *final(final(self).writer) == *final(old(self).writer),
        decreases 1 + count.size() + sides.size() + option_size(*select), 0int,
    {
        let ghost start = self.written();
        let ghost prod = self.prod;
        self.visit(count);
        self.writer.push('d');
        self.visit(sides);
        if let Some(selection) = select {
            self.visit(selection);
        }
        assert(self.written() =~= start + (render(*count, prod) + seq!['d'] + render(*sides, prod)
            + render_option(*select, prod)));
    }

    fn select(&mut self, selection: &Selection, next: &Option<Box<Node>>)
        ensures
            final(self).written() == old(self).written() + render(
                Node::Select { selection: *selection, next: *next },
                old(self).in_product(),
            ),
            final(self).in_product() == old(self).in_product(),
            *final(final(self).writer) == *final(old(self).writer),
        decreases (Node::Select { selection: *selection, next: *next }).size(), 0int,
    {
        let ghost start = self.written();
        let ghost prod = self.prod;
        match selection {
            Selection::KeepHighest { .. } => {
                self.writer.push('k');
                self.writer.push('h');
            },
            Selection::KeepLowest { .. } => {
                self.writer.push('k');
                self.writer.push('l');
            },
            Selection::DropHighest { .. } => {
                self.writer.push('d');
                self.writer.push('h');
            },
            Selection::DropLowest { .. } => {
                self.writer.push('d');
                self.writer.push('l');
            },
            Selection::Advantage => {
                self.writer.push('a');
                self.writer.push('d');
                self.writer.push('v');
            },
            Selection::Disadvantage => {
                self.writer.push('d');
                self.writer.push('i');
                self.writer.push('s');
            },
        }
        assert(self.written() =~= start + selection_word(*selection));
        match selection {
            Selection::KeepHighest { count }
            | Selection::KeepLowest { count }
            | Selection::DropHighest { count }
            | Selection::DropLowest { count } => {
                if let Some(count) = count {
                    self.visit(count);
                } else {
                    self.writer.push('1');
                }
            },
            _ => {},
        }
        assert(self.written() =~= start + selection_word(*selection) + render_count(
            *selection,
            prod,
        ));
        if let Some(following) = next {
            assert(option_size(*next) == following.size());
            self.visit(following);
        }
        assert(self.written() =~= start + (selection_word(*selection) + render_count(
            *selection,
            prod,
        ) + render_option(*next, prod)));
    }

    fn neg(&mut self, right: &Node)
        ensures
            final(self).written() == old(self).written() + render(
                Node::Neg { right: Box::new(*right) },
                old(self).in_product(),
            ),
            final(self).in_product() == old(self).in_product(),
            *final(final(self).writer) == *final(old(self).writer),
        decreases 1 + right.size(), 0int,
    {
        let ghost start = self.written();
        let was_prod = self.prod;
        self.prod = true;
        self.writer.push('-');
        self.visit(right);
        self.prod = was_prod;
        assert(self.written() =~= start + (seq!['-'] + render(*right, true)));
    }

    fn infix(&mut self, left: &Node, op: char, right: &Node, inner: bool, parens: bool)
        ensures
            final(self).written() == old(self).written() + grouped(
                parens,
                render(*left, inner) + seq![' ', op, ' '] + render(*right, inner),
            ),
            final(self).in_product() == old(self).in_product(),
            *final(final(self).writer) == *final(old(self).writer),
        decreases 1 + left.size() + right.size(), 0int,
    {
        let ghost start = self.written();
        let was_prod = self.prod;
        self.prod = inner;
        if parens {
            self.writer.push('(');
        }
        self.visit(left);
        self.writer.push(' ');
        self.writer.push(op);
        self.writer.push(' ');
        self.visit(right);
        if parens {
            self.writer.push(')');
        }
        self.prod = was_prod;
        assert(self.written() =~= start + grouped(
            parens,
            render(*left, inner) + seq![' ', op, ' '] + render(*right, inner),
        ));
    }

    fn add(&mut self, left: &Node, right: &Node)
        ensures
            final(self).written() == old(self).written() + render(
                Node::Add { left: Box::new(*left), right: Box::new(*right) },
                old(self).in_product(),
            ),
            final(self).in_product() == old(self).in_product(),
            *final(final(self).writer) == *final(old(self).writer),
        decreases 1 + left.size() + right.size(), 1int,
    {
        let parens = self.prod;
        self.infix(left, '+', right, false, parens);
    }

    fn sub(&mut self, left: &Node, right: &Node)
        ensures
            final(self).written() == old(self).written() + render(
                Node::Sub { left: Box::new(*left), right: Box::new(*right) },
                old(self).in_product(),
            ),
            final(self).in_product() == old(self).in_product(),
            *final(final(self).writer) == *final(old(self).writer),
        decreases 1 + left.size() + right.size(), 1int,
    {
        let parens = self.prod;
        self.infix(left, '-', right, false, parens);
    }

    fn mul(&mut self, left: &Node, right: &Node)
        ensures
            final(self).written() == old(self).written() + render(
                Node::Mul { left: Box::new(*left), right: Box::new(*right) },
                old(self).in_product(),
            ),
            final(self).in_product() == old(self).in_product(),
            *final(final(self).writer) == *final(old(self).writer),
        decreases 1 + left.size() + right.size(), 1int,
    {
        self.infix(left, '\u{d7}', right, true, false);
    }

    fn div(&mut self, left: &Node, right: &Node)
        ensures
            final(self).written() == old(self).written() + render(
                Node::Div { left: Box::new(*left), right: Box::new(*right) },
                old(self).in_product(),
            ),
            final(self).in_product() == old(self).in_product(),
            *final(final(self).writer) == *final(old(self).writer),
        decreases 1 + left.size() + right.size(), 1int,
    {
        self.infix(left, '/', right, true, false);
    }
}

/// The canonical text of `node`.
pub fn print(node: &Node) -> (text: String)
    ensures
        text@ == render(*node, false),
{
    let mut text = String::new();
    let mut pp = PP::new(&mut text);
    pp.write(node);
    text
}

} // verus!
