//! The canonical form of an expression, and the law that canonical text
//! reads back as the tree it was written from.

use vstd::prelude::*;
use crate::dice::ast::{option_size, Node, Selection};
use crate::dice::parser::{
    allowed_sides,
    grammar,
    grammar_factor,
    grammar_roll,
    grammar_selection,
    grammar_sum,
    grammar_term,
    lit,
    peek_at,
    sum_rest,
    term_rest,
    ErrorView,
};
use crate::dice::pp::{grouped, render, render_count, render_option, selection_word};
use crate::dice::lexer::{is_letter, keyword, letters_end, scan, scan_number, symbol, Scan, Token};
use crate::text::{decimal, digit_char, digits, is_digit, lemma_digit_char};

verus! {

/// Whether the text `t` stands in `s` from `pos` on.
pub open spec fn at(s: Seq<char>, pos: int, t: Seq<char>) -> bool {
    &&& 0 <= pos
    &&& pos + t.len() <= s.len()
    &&& s.subrange(pos, pos + t.len()) == t
}

/// Text that stands in `s` is there character by character.
pub proof fn lemma_at_index(s: Seq<char>, pos: int, t: Seq<char>, i: int)
    requires
        at(s, pos, t),
        0 <= i < t.len(),
    ensures
        s[pos + i] == t[i],
{
    assert(s.subrange(pos, pos + t.len())[i] == s[pos + i]);
}

/// Where two texts stand one behind the other, each stands by itself.
pub proof fn lemma_at_split(s: Seq<char>, pos: int, a: Seq<char>, b: Seq<char>)
    requires
        at(s, pos, a + b),
    ensures
        at(s, pos, a),
        at(s, pos + a.len(), b),
{
    let whole = s.subrange(pos, pos + (a + b).len());
    assert(s.subrange(pos, pos + a.len()) =~= a) by {
        assert forall|i: int| 0 <= i < a.len() implies s[pos + i] == a[i] by {
            assert(whole[i] == (a + b)[i]);
        }
    }
    assert(s.subrange(pos + a.len(), pos + a.len() + b.len()) =~= b) by {
        assert forall|i: int| 0 <= i < b.len() implies s[pos + a.len() + i] == b[i] by {
            assert(whole[a.len() + i] == (a + b)[a.len() + i]);
        }
    }
}

/// The digits of a number are at least one, and all of them digits.
pub proof fn lemma_digits(n: nat)
    ensures
        digits(n).len() >= 1,
        forall|i: int| 0 <= i < digits(n).len() ==> is_digit(#[trigger] digits(n)[i]),
    decreases n,
{
    if n < 10 {
        lemma_digit_char(n as int);
    } else {
        lemma_digits(n / 10);
        lemma_digit_char((n % 10) as int);
    }
}

/// Reading the digits of `n` gives `n`.
pub proof fn lemma_scan_digits(s: Seq<char>, pos: int, n: nat)
    requires
        at(s, pos, digits(n)),
        n <= i32::MAX,
    ensures
        scan_number(s, pos, 0) == scan_number(s, pos + digits(n).len(), n as int),
    decreases n,
{
    lemma_digits(n);
    if n < 10 {
        lemma_digit_char(n as int);
        lemma_at_index(s, pos, digits(n), 0);
    } else {
        let head = digits(n / 10);
        let last = seq![digit_char((n % 10) as int)];
        assert(digits(n) =~= head + last);
        lemma_at_split(s, pos, head, last);
        lemma_scan_digits(s, pos, n / 10);
        lemma_digit_char((n % 10) as int);
        lemma_at_index(s, pos + head.len(), last, 0);
        assert((n / 10) * 10 + n % 10 == n);
    }
}

/// Whether a digit stands at `pos`.
pub open spec fn digit_at(s: Seq<char>, pos: int) -> bool {
    0 <= pos < s.len() && is_digit(s[pos])
}

/// Whether a letter stands at `pos`.
pub open spec fn letter_at(s: Seq<char>, pos: int) -> bool {
    0 <= pos < s.len() && is_letter(s[pos])
}

/// The digits of `n`, with no digit behind them, scan as the integer `n`.
pub proof fn lemma_scan_integer(s: Seq<char>, pos: int, n: nat)
    requires
        at(s, pos, digits(n)),
        n <= i32::MAX,
        !digit_at(s, pos + digits(n).len()),
    ensures
        scan(s, pos) == (Scan {
            item: Some(Ok(Token::Integer(n as i32))),
            start: pos,
            end: pos + digits(n).len(),
        }),
{
    lemma_digits(n);
    lemma_at_index(s, pos, digits(n), 0);
    lemma_scan_digits(s, pos, n);
}

/// A run of letters that stands in `s`, with no letter behind it, ends
/// behind itself.
pub proof fn lemma_letters_run(s: Seq<char>, pos: int, w: Seq<char>, i: int)
    requires
        at(s, pos, w),
        forall|j: int| 0 <= j < w.len() ==> is_letter(#[trigger] w[j]),
        !letter_at(s, pos + w.len()),
        0 <= i <= w.len(),
    ensures
        letters_end(s, pos + i) == pos + w.len(),
    decreases w.len() - i,
{
    if i < w.len() {
        lemma_at_index(s, pos, w, i);
        lemma_letters_run(s, pos, w, i + 1);
    }
}

/// A word that stands in `s`, with no letter behind it, scans as itself.
pub proof fn lemma_scan_word(s: Seq<char>, pos: int, w: Seq<char>)
    requires
        at(s, pos, w),
        w.len() >= 1,
        forall|j: int| 0 <= j < w.len() ==> is_letter(#[trigger] w[j]),
        !letter_at(s, pos + w.len()),
    ensures
        scan(s, pos) == (Scan {
            item: Some(Ok(Token::Word(keyword(w)))),
            start: pos,
            end: pos + w.len(),
        }),
{
    lemma_at_index(s, pos, w, 0);
    lemma_letters_run(s, pos, w, 0);
}

/// A character that is a token by itself scans as that token.
pub proof fn lemma_scan_symbol(s: Seq<char>, pos: int, token: Token)
    requires
        0 <= pos < s.len(),
        symbol(s[pos]) == Some(token),
    ensures
        scan(s, pos) == (Scan { item: Some(Ok(token)), start: pos, end: pos + 1 }),
{
}

/// A space before a token changes nothing about the token.
pub proof fn lemma_scan_space(s: Seq<char>, pos: int)
    requires
        0 <= pos < s.len(),
        s[pos] == ' ',
    ensures
        scan(s, pos) == scan(s, pos + 1),
{
}

/// A literal that is not negative.
pub open spec fn plain(node: Box<Node>) -> bool {
    *node matches Node::Lit { value } && value >= 0
}

/// The value of a literal.
pub open spec fn literal(node: Box<Node>) -> i32 {
    match *node {
        Node::Lit { value } => value,
        _ => 0,
    }
}

/// A chain of selections as the printer writes it for reading back: every
/// keep and drop has a plain count, and advantage or disadvantage, which is
/// written without a count, stands last.
pub open spec fn chained(select: Option<Box<Node>>) -> bool
    decreases select,
{
    match select {
        None => true,
        Some(node) => match *node {
            Node::Select { selection, next } => match selection {
                Selection::Advantage | Selection::Disadvantage => next is None,
                Selection::KeepLowest { count: Some(c) }
                | Selection::KeepHighest { count: Some(c) }
                | Selection::DropLowest { count: Some(c) }
                | Selection::DropHighest { count: Some(c) } => plain(c) && chained(next),
                _ => false,
            },
            _ => false,
        },
    }
}

/// Whether the node is a product or a quotient.
pub open spec fn is_product(node: Node) -> bool {
    node is Mul || node is Div
}

/// Whether the node is a sum or a difference.
pub open spec fn is_sum(node: Node) -> bool {
    node is Add || node is Sub
}

/// The trees in canonical form, as they stand inside a product, a quotient
/// or a negation (`prod`) or outside one. These are the trees that reading
/// gives back from what printing wrote:
///
/// - literals are not negative (a minus sign reads as a negation);
/// - a roll has a plain count, one of the known die sizes, and a chain of
///   selections as [`chained`] asks;
/// - sums and products lean to the left, as reading builds them;
/// - the operand of a negation is no product, which would read as the
///   product of a negation.
pub open spec fn canonical(node: Node, prod: bool) -> bool
    decreases node,
{
    match node {
        Node::Lit { value } => value >= 0,
        Node::Roll { count, sides, select } => plain(count) && plain(sides) && allowed_sides(
            literal(sides),
        ) && chained(select),
        Node::Select { .. } => false,
        Node::Neg { right } => canonical(*right, true) && !is_product(*right),
        Node::Add { left, right } | Node::Sub { left, right } => canonical(*left, false)
            && canonical(*right, false) && !is_sum(*right),
        Node::Mul { left, right } | Node::Div { left, right } => canonical(*left, true)
            && canonical(*right, true) && !is_product(*right),
    }
}

/// Whether what stands at `e` can follow a factor: the end of the text, a
/// closing parenthesis, or a space and then an operator or one of the former.
pub open spec fn followed(s: Seq<char>, e: int) -> bool {
    &&& 0 <= e <= s.len()
    &&& (e == s.len() || s[e] == ' ' || s[e] == ')')
    &&& match peek_at(s, e) {
        None => true,
        Some(Ok(Token::Plus)) => true,
        Some(Ok(Token::Minus)) => true,
        Some(Ok(Token::Times)) => true,
        Some(Ok(Token::Divide)) => true,
        Some(Ok(Token::Close(_))) => true,
        _ => false,
    }
}

/// Whether what stands at `e` can follow a term: as for a factor, but no
/// sign of a product.
pub open spec fn term_followed(s: Seq<char>, e: int) -> bool {
    &&& followed(s, e)
    &&& !(peek_at(s, e) matches Some(Ok(Token::Times)))
    &&& !(peek_at(s, e) matches Some(Ok(Token::Divide)))
}

/// Whether what stands at `e` can follow a whole sum: the end of the text or
/// a closing parenthesis.
pub open spec fn sum_followed(s: Seq<char>, e: int) -> bool {
    &&& term_followed(s, e)
    &&& !(peek_at(s, e) matches Some(Ok(Token::Plus)))
    &&& !(peek_at(s, e) matches Some(Ok(Token::Minus)))
}

/// A chain of selections is written starting with a letter, if it is
/// written at all.
pub proof fn lemma_chain_start(select: Option<Box<Node>>, prod: bool)
    requires
        chained(select),
    ensures
        select is None ==> render_option(select, prod).len() == 0,
        select is Some ==> render_option(select, prod).len() > 0 && is_letter(
            render_option(select, prod)[0],
        ),
{
    if let Some(node) = select {
        if let Node::Select { selection, next } = *node {
            let word = selection_word(selection);
            assert(render_option(select, prod) == word + render_count(selection, prod)
                + render_option(next, prod));
            assert(is_letter(word[0]));
        }
    }
}

/// A chain of selections in canonical form reads back as itself.
#[verifier::rlimit(60)]
pub proof fn lemma_selection(s: Seq<char>, pos: int, select: Option<Box<Node>>, prod: bool)
    requires
        chained(select),
        at(s, pos, render_option(select, prod)),
        followed(s, pos + render_option(select, prod).len()),
    ensures
        grammar_selection(s, pos) == Ok::<(Option<Box<Node>>, int), ErrorView>(
            (select, pos + render_option(select, prod).len()),
        ),
    decreases option_size(select),
{
    let e = pos + render_option(select, prod).len();
    match select {
        None => {},
        Some(node) => {
            if let Node::Select { selection, next } = *node {
                let word = selection_word(selection);
                let count_text = render_count(selection, prod);
                let rest = render_option(next, prod);
                assert(render_option(select, prod) == word + count_text + rest);
                lemma_at_split(s, pos, word + count_text, rest);
                lemma_at_split(s, pos, word, count_text);
                lemma_chain_start(next, prod);
                assert(forall|j: int| 0 <= j < word.len() ==> is_letter(#[trigger] word[j]));
                match selection {
                    Selection::Advantage | Selection::Disadvantage => {
                        lemma_scan_word(s, pos, word);
                        assert(grammar_selection(s, e) == Ok::<
                            (Option<Box<Node>>, int),
                            ErrorView,
                        >((None, e)));
                    },
                    Selection::KeepLowest { count: Some(c) }
                    | Selection::KeepHighest { count: Some(c) }
                    | Selection::DropLowest { count: Some(c) }
                    | Selection::DropHighest { count: Some(c) } => {
                        let k = literal(c) as nat;
                        assert(count_text == digits(k));
                        lemma_digits(k);
                        lemma_at_index(s, pos + word.len(), count_text, 0);
                        lemma_scan_word(s, pos, word);
                        let pa = pos + word.len();
                        let pb = pa + count_text.len();
                        if next is Some {
                            lemma_at_index(s, pb, rest, 0);
                        }
                        lemma_scan_integer(s, pa, k);
                        lemma_selection(s, pb, next, prod);
                        assert(c == lit(literal(c)));
                    },
                    _ => {},
                }
            }
        },
    }
}

/// A literal in canonical form reads back as itself.
pub proof fn lemma_literal(s: Seq<char>, pos: int, value: i32)
    requires
        value >= 0,
        at(s, pos, decimal(value as int)),
        followed(s, pos + decimal(value as int).len()),
    ensures
        grammar_factor(s, pos) == Ok::<(Box<Node>, int), ErrorView>(
            (lit(value), pos + decimal(value as int).len()),
        ),
{
    lemma_scan_integer(s, pos, value as nat);
}

/// A roll in canonical form reads back as itself.
#[verifier::rlimit(60)]
pub proof fn lemma_roll(
    s: Seq<char>,
    pos: int,
    count: Box<Node>,
    sides: Box<Node>,
    select: Option<Box<Node>>,
    prod: bool,
)
    requires
        canonical(Node::Roll { count, sides, select }, prod),
        at(s, pos, render(Node::Roll { count, sides, select }, prod)),
        followed(s, pos + render(Node::Roll { count, sides, select }, prod).len()),
    ensures
        grammar_factor(s, pos) == Ok::<(Box<Node>, int), ErrorView>(
            (
                Box::new(Node::Roll { count, sides, select }),
                pos + render(Node::Roll { count, sides, select }, prod).len(),
            ),
        ),
{
    let node = Node::Roll { count, sides, select };
    let n = literal(count);
    let size = literal(sides);
    let a = digits(n as nat);
    let d = seq!['d'];
    let b = digits(size as nat);
    let c = render_option(select, prod);
    assert(render(*count, prod) == a);
    assert(render(*sides, prod) == b);
    assert(render(node, prod) == a + d + b + c);
    lemma_at_split(s, pos, a + d + b, c);
    lemma_at_split(s, pos, a + d, b);
    lemma_at_split(s, pos, a, d);
    lemma_digits(n as nat);
    lemma_digits(size as nat);
    lemma_chain_start(select, prod);
    let pa = pos + a.len();
    let pb = pa + 1;
    let pc = pb + b.len();
    lemma_at_index(s, pa, d, 0);
    lemma_at_index(s, pb, b, 0);
    if select is Some {
        lemma_at_index(s, pc, c, 0);
    }
    lemma_scan_integer(s, pos, n as nat);
    lemma_scan_word(s, pa, d);
    lemma_scan_integer(s, pb, size as nat);
    lemma_selection(s, pc, select, prod);
    assert(count == lit(n));
    assert(sides == lit(size));
    assert(grammar_roll(s, pa, n) == Ok::<(Box<Node>, int), ErrorView>(
        (Box::new(node), pc + c.len()),
    ));
}

/// A space before a factor changes nothing about the factor.
pub proof fn lemma_factor_space(s: Seq<char>, pos: int)
    requires
        0 <= pos < s.len(),
        s[pos] == ' ',
    ensures
        grammar_factor(s, pos) == grammar_factor(s, pos + 1),
{
    lemma_scan_space(s, pos);
}

/// A space before a term changes nothing about the term.
pub proof fn lemma_term_space(s: Seq<char>, pos: int)
    requires
        0 <= pos < s.len(),
        s[pos] == ' ',
    ensures
        grammar_term(s, pos) == grammar_term(s, pos + 1),
{
    lemma_factor_space(s, pos);
    crate::dice::lexer::lemma_scan_bounds(s, pos);
}

/// Whether the node is written as one factor: it is no product, and no
/// sum unless sums are parenthesized where it stands.
pub open spec fn unit_level(node: Node, prod: bool) -> bool {
    !is_product(node) && (prod || !is_sum(node))
}

/// Whether the node is written as one term.
pub open spec fn term_level(node: Node, prod: bool) -> bool {
    prod || !is_sum(node)
}

/// The sign that writes a binary node.
pub open spec fn sign(node: Node) -> char {
    match node {
        Node::Add { .. } => '+',
        Node::Sub { .. } => '-',
        Node::Mul { .. } => '\u{d7}',
        _ => '/',
    }
}

/// The left operand of a binary node.
pub open spec fn left_of(node: Node) -> Node {
    match node {
        Node::Add { left, .. } => *left,
        Node::Sub { left, .. } => *left,
        Node::Mul { left, .. } => *left,
        Node::Div { left, .. } => *left,
        _ => node,
    }
}

/// The right operand of a binary node.
pub open spec fn right_of(node: Node) -> Node {
    match node {
        Node::Add { right, .. } => *right,
        Node::Sub { right, .. } => *right,
        Node::Mul { right, .. } => *right,
        Node::Div { right, .. } => *right,
        _ => node,
    }
}

/// A sign between spaces scans as its token from the space before it.
pub proof fn lemma_scan_sign(s: Seq<char>, pos: int, c: char, token: Token)
    requires
        at(s, pos, seq![' ', c, ' ']),
        symbol(c) == Some(token),
    ensures
        scan(s, pos) == (Scan { item: Some(Ok(token)), start: pos + 1, end: pos + 2 }),
        s[pos] == ' ',
        s[pos + 2] == ' ',
{
    let t = seq![' ', c, ' '];
    lemma_at_index(s, pos, t, 0);
    lemma_at_index(s, pos, t, 1);
    lemma_at_index(s, pos, t, 2);
    lemma_scan_space(s, pos);
    lemma_scan_symbol(s, pos + 1, token);
}

/// A factor in canonical form reads back as itself.
#[verifier::rlimit(60)]
pub proof fn lemma_factor(s: Seq<char>, pos: int, node: Node, prod: bool)
    requires
        canonical(node, prod),
        unit_level(node, prod),
        at(s, pos, render(node, prod)),
        followed(s, pos + render(node, prod).len()),
    ensures
        grammar_factor(s, pos) == Ok::<(Box<Node>, int), ErrorView>(
            (Box::new(node), pos + render(node, prod).len()),
        ),
    decreases node.size(),
        (if is_sum(node) {
            2int
        } else {
            1int
        }),
{
    let e = pos + render(node, prod).len();
    match node {
        Node::Lit { value } => {
            lemma_literal(s, pos, value);
        },
        Node::Roll { count, sides, select } => {
            lemma_roll(s, pos, count, sides, select, prod);
        },
        Node::Select { .. } => {},
        Node::Neg { right } => {
            let inner = render(*right, true);
            assert(render(node, prod) == seq!['-'] + inner);
            lemma_at_split(s, pos, seq!['-'], inner);
            lemma_at_index(s, pos, seq!['-'], 0);
            lemma_scan_symbol(s, pos, Token::Minus);
            lemma_factor(s, pos + 1, *right, true);
        },
        Node::Add { .. } | Node::Sub { .. } => {
            let inner = render(node, false);
            assert(render(node, prod) == seq!['('] + inner + seq![')']);
            lemma_at_split(s, pos, seq!['('] + inner, seq![')']);
            lemma_at_split(s, pos, seq!['('], inner);
            lemma_at_index(s, pos, seq!['('], 0);
            lemma_at_index(s, e - 1, seq![')'], 0);
            lemma_scan_symbol(s, pos, Token::Open('('));
            lemma_scan_symbol(s, e - 1, Token::Close(')'));
            lemma_sum(s, pos + 1, node);
            let (first, p) = grammar_term(s, pos + 1)->Ok_0;
            lemma_sum_unfold(s, pos + 1, first, p);
            lemma_sum_stop(s, Box::new(node), e - 1);
            assert(grammar_sum(s, pos + 1) == Ok::<(Box<Node>, int), ErrorView>(
                (Box::new(node), e - 1),
            ));
        },
        _ => {},
    }
}

/// The binary node of the kind of `node` over two operands.
pub open spec fn joined(node: Node, left: Box<Node>, right: Box<Node>) -> Box<Node> {
    Box::new(
        match node {
            Node::Add { .. } => Node::Add { left, right },
            Node::Sub { .. } => Node::Sub { left, right },
            Node::Mul { .. } => Node::Mul { left, right },
            _ => Node::Div { left, right },
        },
    )
}

/// Where nothing of a product follows, a term ends.
pub proof fn lemma_term_stop(s: Seq<char>, node: Box<Node>, e: int)
    requires
        term_followed(s, e),
    ensures
        term_rest(s, node, e) == Ok::<(Box<Node>, int), ErrorView>((node, e)),
{
}

/// Where nothing of a sum follows, a sum ends.
pub proof fn lemma_sum_stop(s: Seq<char>, node: Box<Node>, e: int)
    requires
        sum_followed(s, e),
    ensures
        sum_rest(s, node, e) == Ok::<(Box<Node>, int), ErrorView>((node, e)),
{
}

/// One step of reading a product: a sign and a factor behind what has been
/// read.
pub proof fn lemma_term_step(
    s: Seq<char>,
    node: Node,
    left: Box<Node>,
    el: int,
    right: Box<Node>,
    e: int,
)
    requires
        is_product(node),
        0 <= el,
        el + 3 <= e <= s.len(),
        at(s, el, seq![' ', sign(node), ' ']),
        grammar_factor(s, el + 3) == Ok::<(Box<Node>, int), ErrorView>((right, e)),
    ensures
        term_rest(s, left, el) == term_rest(s, joined(node, left, right), e),
{
    let token = if node is Mul {
        Token::Times
    } else {
        Token::Divide
    };
    lemma_scan_sign(s, el, sign(node), token);
    lemma_factor_space(s, el + 2);
}

/// One step of reading a sum: a sign and a term behind what has been read.
pub proof fn lemma_sum_step(
    s: Seq<char>,
    node: Node,
    left: Box<Node>,
    el: int,
    right: Box<Node>,
    e: int,
)
    requires
        is_sum(node),
        0 <= el,
        el + 3 <= e <= s.len(),
        at(s, el, seq![' ', sign(node), ' ']),
        grammar_term(s, el + 3) == Ok::<(Box<Node>, int), ErrorView>((right, e)),
    ensures
        sum_rest(s, left, el) == sum_rest(s, joined(node, left, right), e),
{
    let token = if node is Add {
        Token::Plus
    } else {
        Token::Minus
    };
    lemma_scan_sign(s, el, sign(node), token);
    lemma_term_space(s, el + 2);
}

/// A term is its first factor and what follows it.
pub proof fn lemma_term_unfold(s: Seq<char>, pos: int, first: Box<Node>, p: int)
    requires
        0 <= pos <= p <= s.len(),
        grammar_factor(s, pos) == Ok::<(Box<Node>, int), ErrorView>((first, p)),
    ensures
        grammar_term(s, pos) == term_rest(s, first, p),
{
}

/// A sum is its first term and what follows it.
pub proof fn lemma_sum_unfold(s: Seq<char>, pos: int, first: Box<Node>, p: int)
    requires
        0 <= pos <= p <= s.len(),
        grammar_term(s, pos) == Ok::<(Box<Node>, int), ErrorView>((first, p)),
    ensures
        grammar_sum(s, pos) == sum_rest(s, first, p),
{
}

/// The text of a binary node is the text of its operands with the sign
/// between them, in parentheses where a sum stands inside a product.
pub proof fn lemma_render_binary(node: Node, prod: bool)
    requires
        is_sum(node) || is_product(node),
    ensures
        render(node, prod) == grouped(
            prod && is_sum(node),
            render(left_of(node), is_product(node)) + seq![' ', sign(node), ' '] + render(
                right_of(node),
                is_product(node),
            ),
        ),
        node == *joined(node, Box::new(left_of(node)), Box::new(right_of(node))),
        render(node, prod).len() >= 3,
{
}

/// A term in canonical form reads as its first factor and then, factor by
/// factor, as itself.
#[verifier::rlimit(60)]
pub proof fn lemma_term(s: Seq<char>, pos: int, node: Node, prod: bool)
    requires
        canonical(node, prod),
        term_level(node, prod),
        at(s, pos, render(node, prod)),
        followed(s, pos + render(node, prod).len()),
    ensures
        grammar_factor(s, pos) matches Ok((first, p)) && pos <= p <= s.len() && term_rest(
            s,
            first,
            p,
        ) == term_rest(s, Box::new(node), pos + render(node, prod).len()),
    decreases node.size(),
        (if is_sum(node) {
            3int
        } else {
            2int
        }),
{
    let e = pos + render(node, prod).len();
    if is_product(node) {
        let l = left_of(node);
        let r = right_of(node);
        let a = render(l, true);
        let op = seq![' ', sign(node), ' '];
        let b = render(r, true);
        lemma_render_binary(node, prod);
        lemma_at_split(s, pos, a + op, b);
        lemma_at_split(s, pos, a, op);
        let el = pos + a.len();
        lemma_at_index(s, el, op, 0);
        lemma_scan_space(s, el);
        lemma_at_index(s, el, op, 1);
        lemma_term(s, pos, l, true);
        lemma_factor(s, el + 3, r, true);
        lemma_term_step(s, node, Box::new(l), el, Box::new(r), e);
    } else {
        lemma_factor(s, pos, node, prod);
    }
}

/// A sum in canonical form reads as its first term and then, term by term,
/// as itself.
#[verifier::rlimit(60)]
pub proof fn lemma_sum(s: Seq<char>, pos: int, node: Node)
    requires
        canonical(node, false),
        at(s, pos, render(node, false)),
        term_followed(s, pos + render(node, false).len()),
    ensures
        grammar_term(s, pos) matches Ok((first, p)) && pos <= p <= s.len() && sum_rest(
            s,
            first,
            p,
        ) == sum_rest(s, Box::new(node), pos + render(node, false).len()),
    decreases node.size(),
        (if is_sum(node) {
            1int
        } else {
            3int
        }),
{
    let e = pos + render(node, false).len();
    if is_sum(node) {
        let l = left_of(node);
        let r = right_of(node);
        let a = render(l, false);
        let op = seq![' ', sign(node), ' '];
        let b = render(r, false);
        lemma_render_binary(node, false);
        lemma_at_split(s, pos, a + op, b);
        lemma_at_split(s, pos, a, op);
        let el = pos + a.len();
        lemma_at_index(s, el, op, 0);
        lemma_scan_space(s, el);
        lemma_at_index(s, el, op, 1);
        lemma_sum(s, pos, l);
        lemma_term(s, el + 3, r, false);
        let (first, p) = grammar_factor(s, el + 3)->Ok_0;
        lemma_term_unfold(s, el + 3, first, p);
        lemma_term_stop(s, Box::new(r), e);
        lemma_sum_step(s, node, Box::new(l), el, Box::new(r), e);
    } else {
        lemma_term(s, pos, node, false);
        let (first, p) = grammar_factor(s, pos)->Ok_0;
        lemma_term_unfold(s, pos, first, p);
        lemma_term_stop(s, Box::new(node), e);
    }
}

/// Round trip: the canonical text of a tree in canonical form reads back as
/// that tree.
pub proof fn lemma_round_trip(node: Node)
    requires
        canonical(node, false),
    ensures
        grammar(render(node, false)) == Ok::<Box<Node>, ErrorView>(Box::new(node)),
{
    let s = render(node, false);
    assert(s.subrange(0, s.len() as int) =~= s);
    lemma_sum(s, 0, node);
    let (first, p) = grammar_term(s, 0)->Ok_0;
    lemma_sum_unfold(s, 0, first, p);
    lemma_sum_stop(s, Box::new(node), s.len() as int);
}

/// Round trip, on text: the text of a tree in canonical form parses, and
/// what it parses to is written as the same text again.
pub proof fn lemma_text_round_trip(text: Seq<char>, node: Node)
    requires
        canonical(node, false),
        text == render(node, false),
    ensures
        grammar(text) matches Ok(root) && render(*root, false) == text,
{
    lemma_round_trip(node);
}

} // verus!
