//! A recursive descent parser for dice expressions.
//!
//! ```text
//! sum        = term, { ("+" | "-"), term };
//! term       = factor, { ("*" | "/"), factor };
//! factor     = "(" sum ")" | negation | integer | roll;
//! negation   = "-", factor;
//! roll       = [integer], "d", [integer | "%"], [selection];
//! selection  = ("k" | "kh" | "kl" | "d" | "dh" | "dl", [integer]
//!              | "adv" | "ad" | "dis" | "da"), [selection];
//! ```
//!
//! The grammar is written down twice: as the spec functions `grammar_*`, which
//! say what tree a text stands for, and as the executable `parse_*` functions,
//! each proved to return what its `grammar_*` counterpart gives.

use vstd::prelude::*;
use vstd::string::*;
use crate::dice::ast::{Node, Selection};
use crate::dice::lexer::{lemma_scan_bounds, scan, Keyword, Lexer, Token};
use crate::dice::lookahead::Lookahead;
use crate::text::{decimal, push_decimal};

verus! {

/// Parsing errors. Each carries a message for the person who typed the
/// expression.
#[derive(Debug)]
pub enum Error {
    /// A token was encountered at an unexpected position.
    UnexpectedToken(String),
    /// The end of the input was reached unexpectedly.
    UnexpectedEnd(String),
    /// A die with an invalid number of sides was encountered.
    InvalidDie(String),
    /// A closing `)` or `]` did not match the opening `(` or `[`.
    MismatchedParentheses(String),
    /// An error occurred in the lexer.
    LexError(crate::dice::lexer::Error),
}

/// A parsing error with its message as a sequence of characters.
pub enum ErrorView {
    UnexpectedToken(Seq<char>),
    UnexpectedEnd(Seq<char>),
    InvalidDie(Seq<char>),
    MismatchedParentheses(Seq<char>),
    LexError(crate::dice::lexer::Error),
}

impl View for Error {
    type V = ErrorView;

    open spec fn view(&self) -> ErrorView {
        match self {
            Error::UnexpectedToken(m) => ErrorView::UnexpectedToken(m@),
            Error::UnexpectedEnd(m) => ErrorView::UnexpectedEnd(m@),
            Error::InvalidDie(m) => ErrorView::InvalidDie(m@),
            Error::MismatchedParentheses(m) => ErrorView::MismatchedParentheses(m@),
            Error::LexError(e) => ErrorView::LexError(*e),
        }
    }
}

impl ErrorView {
    /// What the error says to the person who typed the expression.
    pub open spec fn text(self) -> Seq<char> {
        match self {
            ErrorView::UnexpectedToken(m) => m,
            ErrorView::UnexpectedEnd(m) => m,
            ErrorView::InvalidDie(m) => m,
            ErrorView::MismatchedParentheses(m) => m,
            ErrorView::LexError(e) => e.text(),
        }
    }
}

impl Error {
    /// What the error says to the person who typed the expression.
    pub fn message(&self) -> (m: String)
        ensures
            m@ == self@.text(),
    {
        match self {
            Error::UnexpectedToken(m) => m.clone(),
            Error::UnexpectedEnd(m) => m.clone(),
            Error::InvalidDie(m) => m.clone(),
            Error::MismatchedParentheses(m) => m.clone(),
            Error::LexError(e) => e.message(),
        }
    }
}

/// The token under a cursor at `pos`.
pub open spec fn peek_at(s: Seq<char>, pos: int) -> Option<Result<Token, crate::dice::lexer::Error>> {
    scan(s, pos).item
}

/// Where the cursor stands after moving past the token at `pos`.
pub open spec fn after(s: Seq<char>, pos: int) -> int {
    scan(s, pos).end
}

/// The token at `pos` as it was written.
pub open spec fn text_at(s: Seq<char>, pos: int) -> Seq<char> {
    s.subrange(scan(s, pos).start, scan(s, pos).end)
}

/// The die sizes the language knows.
pub open spec fn allowed_sides(n: i32) -> bool {
    n == 4 || n == 6 || n == 8 || n == 10 || n == 12 || n == 20 || n == 100
}

/// Whether `k` starts a keep or drop selection.
pub open spec fn picks(k: Keyword) -> bool {
    k is K || k is Kh || k is Kl || k is D || k is Dh || k is Dl
}

/// The keep or drop selection that the word `k` names.
pub open spec fn pick(k: Keyword, count: Option<Box<Node>>) -> Selection {
    match k {
        Keyword::K | Keyword::Kh => Selection::KeepHighest { count },
        Keyword::Kl => Selection::KeepLowest { count },
        Keyword::Dh => Selection::DropHighest { count },
        _ => Selection::DropLowest { count },
    }
}

/// The message for a token that nothing expects at `pos`.
pub open spec fn unexpected(s: Seq<char>, pos: int, place: Seq<char>) -> ErrorView {
    ErrorView::UnexpectedToken("'"@ + text_at(s, pos) + "' unexpected in "@ + place)
}

/// The message for input that ends where more is needed.
pub open spec fn ended() -> ErrorView {
    ErrorView::UnexpectedEnd("Unexpected end of input"@)
}

/// A literal node.
pub open spec fn lit(value: i32) -> Box<Node> {
    Box::new(Node::Lit { value })
}

/// What a partial parse gives: a tree and the cursor after it, or an error.
pub type Parsed = Result<(Box<Node>, int), ErrorView>;

/// What parsing an optional selection gives.
pub type ParsedOption = Result<(Option<Box<Node>>, int), ErrorView>;

/// Prepends `selection` to the chain that `rest` parsed.
pub open spec fn chain(selection: Selection, rest: ParsedOption) -> ParsedOption {
    match rest {
        Ok((next, end)) => Ok((Some(Box::new(Node::Select { selection, next })), end)),
        Err(e) => Err(e),
    }
}

/// `selection = (pick, [integer] | "adv" | "ad" | "dis" | "da"), [selection]`,
/// or nothing where no selection starts.
pub open spec fn grammar_selection(s: Seq<char>, pos: int) -> ParsedOption
    decreases s.len() - pos,
    when 0 <= pos <= s.len()
{
    match peek_at(s, pos) {
        Some(Ok(Token::Word(k))) => {
            let pa = after(s, pos);
            proof {
                lemma_scan_bounds(s, pos);
                lemma_scan_bounds(s, pa);
            }
            if picks(k) {
                match peek_at(s, pa) {
                    Some(Ok(Token::Integer(n))) => chain(
                        pick(k, Some(lit(n))),
                        grammar_selection(s, after(s, pa)),
                    ),
                    Some(Err(e)) => Err(ErrorView::LexError(e)),
                    _ => chain(pick(k, None), grammar_selection(s, pa)),
                }
            } else if k is Adv || k is Ad {
                chain(Selection::Advantage, grammar_selection(s, pa))
            } else if k is Dis || k is Da {
                chain(Selection::Disadvantage, grammar_selection(s, pa))
            } else {
                Ok((None, pos))
            }
        },
        Some(Err(e)) => Err(ErrorView::LexError(e)),
        _ => Ok((None, pos)),
    }
}

/// The roll of `count` dice of `sides` faces with the selection that `rest`
/// parsed.
pub open spec fn rolled(count: i32, sides: i32, rest: ParsedOption) -> Parsed {
    match rest {
        Ok((select, end)) => Ok(
            (Box::new(Node::Roll { count: lit(count), sides: lit(sides), select }), end),
        ),
        Err(e) => Err(e),
    }
}

/// `roll = "d", [integer | "%"], [selection]`, the count having been read.
pub open spec fn grammar_roll(s: Seq<char>, pos: int, count: i32) -> Parsed {
    match peek_at(s, pos) {
        Some(Ok(Token::Word(Keyword::D))) => {
            let pa = after(s, pos);
            match peek_at(s, pa) {
                Some(Ok(Token::Integer(sides))) => if allowed_sides(sides) {
                    rolled(count, sides, grammar_selection(s, after(s, pa)))
                } else {
                    Err(ErrorView::InvalidDie("Invalid die: d"@ + decimal(sides as int)))
                },
                Some(Ok(Token::Percent)) => rolled(
                    count,
                    100,
                    grammar_selection(s, after(s, pa)),
                ),
                Some(Err(e)) => Err(ErrorView::LexError(e)),
                _ => rolled(count, 6, grammar_selection(s, pa)),
            }
        },
        Some(Err(e)) => Err(ErrorView::LexError(e)),
        Some(Ok(_)) => Err(unexpected(s, pos, "roll"@)),
        None => Err(ended()),
    }
}

/// The bracket that closes `open`.
pub open spec fn closing(open: char) -> char {
    if open == '(' {
        ')'
    } else {
        ']'
    }
}

/// What the token after a bracketed sum makes of the group.
pub open spec fn closed(s: Seq<char>, open: char, sum: Box<Node>, pos: int) -> Parsed {
    match peek_at(s, pos) {
        Some(Ok(Token::Close(close))) => if close == closing(open) {
            Ok((sum, after(s, pos)))
        } else {
            Err(
                ErrorView::MismatchedParentheses(
                    "Closing '"@.push(close) + "' does not match opening '"@.push(open) + "'"@,
                ),
            )
        },
        Some(Ok(_)) => Err(unexpected(s, pos, "parenthetical"@)),
        Some(Err(e)) => Err(ErrorView::LexError(e)),
        None => Err(
            ErrorView::UnexpectedEnd(
                "Expression ended without closing '"@.push(closing(open)) + "'"@,
            ),
        ),
    }
}

/// `factor = "(" sum ")" | "-" factor | integer | roll`.
pub open spec fn grammar_factor(s: Seq<char>, pos: int) -> Parsed
    decreases s.len() - pos, 0int,
    when 0 <= pos <= s.len()
{
    let pa = after(s, pos);
    match peek_at(s, pos) {
        Some(Ok(Token::Open(open))) => {
            proof {
                lemma_scan_bounds(s, pos);
            }
            match grammar_sum(s, pa) {
                Ok((sum, pb)) => closed(s, open, sum, pb),
                Err(e) => Err(e),
            }
        },
        Some(Ok(Token::Integer(n))) => match peek_at(s, pa) {
            Some(Ok(Token::Word(Keyword::D))) => grammar_roll(s, pa, n),
            _ => Ok((lit(n), pa)),
        },
        Some(Ok(Token::Word(Keyword::D))) => grammar_roll(s, pos, 1),
        Some(Ok(Token::Minus)) => {
            proof {
                lemma_scan_bounds(s, pos);
            }
            match grammar_factor(s, pa) {
                Ok((right, end)) => Ok((Box::new(Node::Neg { right }), end)),
                Err(e) => Err(e),
            }
        },
        Some(Err(e)) => Err(ErrorView::LexError(e)),
        Some(Ok(_)) => Err(unexpected(s, pos, "factor"@)),
        None => Err(ended()),
    }
}

/// The factors that follow `left` in a term, folded in from the left.
///
/// A parse never ends before it starts; the comparison of the two cursors
/// only records that, so that the recursion is well founded.
pub open spec fn term_rest(s: Seq<char>, left: Box<Node>, pos: int) -> Parsed
    decreases s.len() - pos, 1int,
    when 0 <= pos <= s.len()
{
    let pa = after(s, pos);
    match peek_at(s, pos) {
        Some(Ok(Token::Times)) => {
            proof {
                lemma_scan_bounds(s, pos);
            }
            match grammar_factor(s, pa) {
                Ok((right, pb)) => if pa <= pb <= s.len() {
                    term_rest(s, Box::new(Node::Mul { left, right }), pb)
                } else {
                    Ok((Box::new(Node::Mul { left, right }), pb))
                },
                Err(e) => Err(e),
            }
        },
        Some(Ok(Token::Divide)) => {
            proof {
                lemma_scan_bounds(s, pos);
            }
            match grammar_factor(s, pa) {
                Ok((right, pb)) => if pa <= pb <= s.len() {
                    term_rest(s, Box::new(Node::Div { left, right }), pb)
                } else {
                    Ok((Box::new(Node::Div { left, right }), pb))
                },
                Err(e) => Err(e),
            }
        },
        Some(Err(e)) => Err(ErrorView::LexError(e)),
        _ => Ok((left, pos)),
    }
}

/// `term = factor, { ("*" | "/"), factor }`.
pub open spec fn grammar_term(s: Seq<char>, pos: int) -> Parsed
    decreases s.len() - pos, 2int,
    when 0 <= pos <= s.len()
{
    match grammar_factor(s, pos) {
        Ok((left, p)) => if pos <= p <= s.len() {
            term_rest(s, left, p)
        } else {
            Ok((left, p))
        },
        Err(e) => Err(e),
    }
}

/// The terms that follow `left` in a sum, folded in from the left.
pub open spec fn sum_rest(s: Seq<char>, left: Box<Node>, pos: int) -> Parsed
    decreases s.len() - pos, 3int,
    when 0 <= pos <= s.len()
{
    let pa = after(s, pos);
    match peek_at(s, pos) {
        Some(Ok(Token::Plus)) => {
            proof {
                lemma_scan_bounds(s, pos);
            }
            match grammar_term(s, pa) {
                Ok((right, pb)) => if pa <= pb <= s.len() {
                    sum_rest(s, Box::new(Node::Add { left, right }), pb)
                } else {
                    Ok((Box::new(Node::Add { left, right }), pb))
                },
                Err(e) => Err(e),
            }
        },
        Some(Ok(Token::Minus)) => {
            proof {
                lemma_scan_bounds(s, pos);
            }
            match grammar_term(s, pa) {
                Ok((right, pb)) => if pa <= pb <= s.len() {
                    sum_rest(s, Box::new(Node::Sub { left, right }), pb)
                } else {
                    Ok((Box::new(Node::Sub { left, right }), pb))
                },
                Err(e) => Err(e),
            }
        },
        Some(Err(e)) => Err(ErrorView::LexError(e)),
        _ => Ok((left, pos)),
    }
}

/// `sum = term, { ("+" | "-"), term }`.
pub open spec fn grammar_sum(s: Seq<char>, pos: int) -> Parsed
    decreases s.len() - pos, 4int,
    when 0 <= pos <= s.len()
{
    match grammar_term(s, pos) {
        Ok((left, p)) => if pos <= p <= s.len() {
            sum_rest(s, left, p)
        } else {
            Ok((left, p))
        },
        Err(e) => Err(e),
    }
}

/// The tree that the whole text `s` stands for: one sum and nothing after it.
pub open spec fn grammar(s: Seq<char>) -> Result<Box<Node>, ErrorView> {
    match grammar_sum(s, 0) {
        Ok((root, end)) => match peek_at(s, end) {
            Some(Ok(_)) => Err(
                ErrorView::UnexpectedToken(
                    "Unexpected leftover token: '"@ + text_at(s, end) + "'"@,
                ),
            ),
            Some(Err(e)) => Err(ErrorView::LexError(e)),
            None => Ok(root),
        },
        Err(e) => Err(e),
    }
}

/// How the outcome `r` of an executable parse step, which left the cursor at
/// `end`, answers to what the grammar gives.
pub open spec fn answers(r: Result<Box<Node>, Error>, end: int, expected: Parsed) -> bool {
    match expected {
        Ok((node, stop)) => r == Ok::<Box<Node>, Error>(node) && end == stop,
        Err(e) => r is Err && r->Err_0@ == e,
    }
}

/// As [`answers`], for an optional selection.
pub open spec fn answers_option(
    r: Result<Option<Box<Node>>, Error>,
    end: int,
    expected: ParsedOption,
) -> bool {
    match expected {
        Ok((node, stop)) => r == Ok::<Option<Box<Node>>, Error>(node) && end == stop,
        Err(e) => r is Err && r->Err_0@ == e,
    }
}

fn unexpected_token(lexer: &Lookahead<Lexer>, place: &str) -> (e: Error)
    requires
        lexer.wf(),
    ensures
        e@ == unexpected(lexer.source(), lexer.cursor(), place@),
{
    let mut m = String::from_str("'");
    lexer.push_current(&mut m);
    m.append("' unexpected in ");
    m.append(place);
    Error::UnexpectedToken(m)
}

fn end_of_input() -> (e: Error)
    ensures
        e@ == ended(),
{
    Error::UnexpectedEnd(String::from_str("Unexpected end of input"))
}

/// Parse a dice expression into an abstract syntax tree.
pub fn parse(input: &str) -> (r: Result<Box<Node>, Error>)
    ensures
        match grammar(input@) {
            Ok(root) => r == Ok::<Box<Node>, Error>(root),
            Err(e) => r is Err && r->Err_0@ == e,
        },
{
    let lexer = Lexer::new(input);
    let mut lexer = Lookahead::new(lexer);
    let root = match parse_root(&mut lexer) {
        Ok(root) => root,
        Err(e) => {
            return Err(e);
        },
    };
    match lexer.peek() {
        Some(Ok(_)) => {
            let mut m = String::from_str("Unexpected leftover token: '");
            lexer.push_current(&mut m);
            m.append("'");
            Err(Error::UnexpectedToken(m))
        },
        Some(Err(err)) => Err(Error::LexError(err)),
        None => Ok(root),
    }
}

/// Parses `root = sum`.
fn parse_root(lexer: &mut Lookahead<Lexer>) -> (r: Result<Box<Node>, Error>)
    requires
        old(lexer).wf(),
    ensures
        final(lexer).wf(),
        final(lexer).source() == old(lexer).source(),
        old(lexer).cursor() <= final(lexer).cursor() <= final(lexer).source().len(),
        answers(r, final(lexer).cursor(), grammar_sum(old(lexer).source(), old(lexer).cursor())),
{
    parse_sum(lexer)
}

/// Parses `sum = term, { ("+" | "-"), term }`.
fn parse_sum(lexer: &mut Lookahead<Lexer>) -> (r: Result<Box<Node>, Error>)
    requires
        old(lexer).wf(),
    ensures
        final(lexer).wf(),
        final(lexer).source() == old(lexer).source(),
        old(lexer).cursor() <= final(lexer).cursor() <= final(lexer).source().len(),
        answers(r, final(lexer).cursor(), grammar_sum(old(lexer).source(), old(lexer).cursor())),
    decreases old(lexer).source().len() - old(lexer).cursor(), 4int,
{
    let ghost s = lexer.source();
    let ghost start = lexer.cursor();
    let _ = lexer.peek();
    let mut left = match parse_term(lexer) {
        Ok(left) => left,
        Err(e) => {
            return Err(e);
        },
    };
    loop
        invariant
            lexer.wf(),
            lexer.source() == s,
            s == old(lexer).source(),
            start == old(lexer).cursor(),
            start <= lexer.cursor() <= s.len(),
            0 <= start,
            sum_rest(s, left, lexer.cursor()) == grammar_sum(s, start),
        decreases s.len() - lexer.cursor(),
    {
        let ghost here = lexer.cursor();
        proof {
            lemma_scan_bounds(s, here);
        }
        match lexer.peek() {
            Some(Ok(Token::Plus)) => {
                lexer.next();
                let right = match parse_term(lexer) {
                    Ok(right) => right,
                    Err(e) => {
                        return Err(e);
                    },
                };
                left = Box::new(Node::Add { left, right });
            },
            Some(Ok(Token::Minus)) => {
                lexer.next();
                let right = match parse_term(lexer) {
                    Ok(right) => right,
                    Err(e) => {
                        return Err(e);
                    },
                };
                left = Box::new(Node::Sub { left, right });
            },
            Some(Err(err)) => {
                return Err(Error::LexError(err));
            },
            _ => {
                return Ok(left);
            },
        }
    }
}

/// Parses `term = factor, { ("*" | "/"), factor }`.
fn parse_term(lexer: &mut Lookahead<Lexer>) -> (r: Result<Box<Node>, Error>)
    requires
        old(lexer).wf(),
    ensures
        final(lexer).wf(),
        final(lexer).source() == old(lexer).source(),
        old(lexer).cursor() <= final(lexer).cursor() <= final(lexer).source().len(),
        answers(r, final(lexer).cursor(), grammar_term(old(lexer).source(), old(lexer).cursor())),
    decreases old(lexer).source().len() - old(lexer).cursor(), 2int,
{
    let ghost s = lexer.source();
    let ghost start = lexer.cursor();
    let _ = lexer.peek();
    let mut left = match parse_factor(lexer) {
        Ok(left) => left,
        Err(e) => {
            return Err(e);
        },
    };
    loop
        invariant
            lexer.wf(),
            lexer.source() == s,
            s == old(lexer).source(),
            start == old(lexer).cursor(),
            start <= lexer.cursor() <= s.len(),
            0 <= start,
            term_rest(s, left, lexer.cursor()) == grammar_term(s, start),
        decreases s.len() - lexer.cursor(),
    {
        let ghost here = lexer.cursor();
        proof {
            lemma_scan_bounds(s, here);
        }
        match lexer.peek() {
            Some(Ok(Token::Times)) => {
                lexer.next();
                let right = match parse_factor(lexer) {
                    Ok(right) => right,
                    Err(e) => {
                        return Err(e);
                    },
                };
                left = Box::new(Node::Mul { left, right });
            },
            Some(Ok(Token::Divide)) => {
                lexer.next();
                let right = match parse_factor(lexer) {
                    Ok(right) => right,
                    Err(e) => {
                        return Err(e);
                    },
                };
                left = Box::new(Node::Div { left, right });
            },
            Some(Err(err)) => {
                return Err(Error::LexError(err));
            },
            _ => {
                return Ok(left);
            },
        }
    }
}

/// Parses `factor = "(" sum ")" | negation | integer | roll`.
fn parse_factor(lexer: &mut Lookahead<Lexer>) -> (r: Result<Box<Node>, Error>)
    requires
        old(lexer).wf(),
    ensures
        final(lexer).wf(),
        final(lexer).source() == old(lexer).source(),
        old(lexer).cursor() <= final(lexer).cursor() <= final(lexer).source().len(),
        answers(
            r,
            final(lexer).cursor(),
            grammar_factor(old(lexer).source(), old(lexer).cursor()),
        ),
    decreases old(lexer).source().len() - old(lexer).cursor(), 0int,
{
    let ghost s = lexer.source();
    let ghost start = lexer.cursor();
    let token = lexer.peek();
    proof {
        lemma_scan_bounds(s, start);
    }
    match token {
        Some(Ok(Token::Open(open_ch))) => {
            lexer.next();
            let sum = match parse_sum(lexer) {
                Ok(sum) => sum,
                Err(e) => {
                    return Err(e);
                },
            };
            match lexer.peek() {
                Some(Ok(Token::Close(close_ch))) => {
                    let expected = if open_ch == '(' {
                        ')'
                    } else {
                        ']'
                    };
                    if close_ch == expected {
                        lexer.next();
                        Ok(sum)
                    } else {
                        let mut m = String::from_str("Closing '");
                        m.push(close_ch);
                        m.append("' does not match opening '");
                        m.push(open_ch);
                        m.append("'");
                        Err(Error::MismatchedParentheses(m))
                    }
                },
                Some(Ok(_)) => Err(unexpected_token(lexer, "parenthetical")),
                Some(Err(err)) => Err(Error::LexError(err)),
                None => {
                    let mut m = String::from_str("Expression ended without closing '");
                    m.push(
                        if open_ch == '(' {
                            ')'
                        } else {
                            ']'
                        },
                    );
                    m.append("'");
                    Err(Error::UnexpectedEnd(m))
                },
            }
        },
        Some(Ok(Token::Integer(n))) => {
            let token = lexer.next();
            match token {
                Some(Ok(Token::Word(Keyword::D))) => parse_roll(lexer, n),
                _ => Ok(Box::new(Node::Lit { value: n })),
            }
        },
        Some(Ok(Token::Word(Keyword::D))) => parse_roll(lexer, 1),
        Some(Ok(Token::Minus)) => {
            lexer.next();
            let right = match parse_factor(lexer) {
                Ok(right) => right,
                Err(e) => {
                    return Err(e);
                },
            };
            Ok(Box::new(Node::Neg { right }))
        },
        Some(Err(err)) => Err(Error::LexError(err)),
        Some(Ok(_)) => Err(unexpected_token(lexer, "factor")),
        None => Err(end_of_input()),
    }
}

fn make_roll(count: i32, sides: i32, select: Option<Box<Node>>) -> (r: Box<Node>)
    ensures
        *r == (Node::Roll { count: lit(count), sides: lit(sides), select }),
{
    Box::new(
        Node::Roll {
            count: Box::new(Node::Lit { value: count }),
            sides: Box::new(Node::Lit { value: sides }),
            select,
        },
    )
}

/// Parses `roll = [integer], "d", [integer | "%"], [selection]`, the count
/// having been read already.
fn parse_roll(lexer: &mut Lookahead<Lexer>, count: i32) -> (r: Result<Box<Node>, Error>)
    requires
        old(lexer).wf(),
    ensures
        final(lexer).wf(),
        final(lexer).source() == old(lexer).source(),
        old(lexer).cursor() <= final(lexer).cursor() <= final(lexer).source().len(),
        answers(
            r,
            final(lexer).cursor(),
            grammar_roll(old(lexer).source(), old(lexer).cursor(), count),
        ),
{
    let token = lexer.peek();
    match token {
        Some(Ok(Token::Word(Keyword::D))) => {
            let token = lexer.next();
            match token {
                Some(Ok(Token::Integer(sides))) => {
                    if sides == 4 || sides == 6 || sides == 8 || sides == 10 || sides == 12
                        || sides == 20 || sides == 100 {
                        lexer.next();
                        match parse_selection(lexer) {
                            Ok(select) => Ok(make_roll(count, sides, select)),
                            Err(e) => Err(e),
                        }
                    } else {
                        let mut m = String::from_str("Invalid die: d");
                        push_decimal(&mut m, sides as i64);
                        Err(Error::InvalidDie(m))
                    }
                },
                Some(Ok(Token::Percent)) => {
                    lexer.next();
                    match parse_selection(lexer) {
                        Ok(select) => Ok(make_roll(count, 100, select)),
                        Err(e) => Err(e),
                    }
                },
                Some(Err(err)) => Err(Error::LexError(err)),
                _ => match parse_selection(lexer) {
                    Ok(select) => Ok(make_roll(count, 6, select)),
                    Err(e) => Err(e),
                },
            }
        },
        Some(Err(err)) => Err(Error::LexError(err)),
        Some(Ok(_)) => Err(unexpected_token(lexer, "roll")),
        None => Err(end_of_input()),
    }
}

fn make_pick(k: Keyword, count: Option<Box<Node>>) -> (r: Selection)
    ensures
        r == pick(k, count),
{
    match k {
        Keyword::K | Keyword::Kh => Selection::KeepHighest { count },
        Keyword::Kl => Selection::KeepLowest { count },
        Keyword::Dh => Selection::DropHighest { count },
        _ => Selection::DropLowest { count },
    }
}

fn make_chain(selection: Selection, rest: Result<Option<Box<Node>>, Error>) -> (r: Result<
    Option<Box<Node>>,
    Error,
>)
    ensures
        match rest {
            Ok(next) => r == Ok::<Option<Box<Node>>, Error>(
                Some(Box::new(Node::Select { selection, next })),
            ),
            Err(e) => r is Err && r->Err_0@ == e@,
        },
{
    match rest {
        Ok(next) => Ok(Some(Box::new(Node::Select { selection, next }))),
        Err(e) => Err(e),
    }
}

/// Parses an optional chain of selections.
fn parse_selection(lexer: &mut Lookahead<Lexer>) -> (r: Result<Option<Box<Node>>, Error>)
    requires
        old(lexer).wf(),
    ensures
        final(lexer).wf(),
        final(lexer).source() == old(lexer).source(),
        old(lexer).cursor() <= final(lexer).cursor() <= final(lexer).source().len(),
        answers_option(
            r,
            final(lexer).cursor(),
            grammar_selection(old(lexer).source(), old(lexer).cursor()),
        ),
    decreases old(lexer).source().len() - old(lexer).cursor(),
{
    let ghost s = lexer.source();
    let ghost start = lexer.cursor();
    let token = lexer.peek();
    proof {
        lemma_scan_bounds(s, start);
        lemma_scan_bounds(s, after(s, start));
    }
    match token {
        Some(Ok(Token::Word(k))) => {
            match k {
                Keyword::K | Keyword::Kh | Keyword::Kl | Keyword::D | Keyword::Dh | Keyword::Dl => {
                    let token = lexer.next();
                    match token {
                        Some(Ok(Token::Integer(n))) => {
                            lexer.next();
                            let rest = parse_selection(lexer);
                            make_chain(make_pick(k, Some(Box::new(Node::Lit { value: n }))), rest)
                        },
                        Some(Err(err)) => Err(Error::LexError(err)),
                        _ => {
                            let rest = parse_selection(lexer);
                            make_chain(make_pick(k, None), rest)
                        },
                    }
                },
                Keyword::Adv | Keyword::Ad => {
                    lexer.next();
                    let rest = parse_selection(lexer);
                    make_chain(Selection::Advantage, rest)
                },
                Keyword::Dis | Keyword::Da => {
                    lexer.next();
                    let rest = parse_selection(lexer);
                    make_chain(Selection::Disadvantage, rest)
                },
                Keyword::Other => Ok(None),
            }
        },
        Some(Err(err)) => Err(Error::LexError(err)),
        _ => Ok(None),
    }
}

} // verus!
