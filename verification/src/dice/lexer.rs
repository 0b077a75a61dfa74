//! Lexical analysis of dice expressions.
//!
//! The lexer walks the input once, left to right, and hands out one token per
//! call. What it hands out is fixed by [`scan`], a function of the input and
//! the position alone.

use vstd::prelude::*;
use vstd::string::*;
use crate::text::{chars_of, digit_value, digits, is_digit, push_digits, push_slice};

verus! {

/// A character that no token can start with, and where it stands.
///
/// A digit that would carry an integer literal past `i32::MAX` is reported
/// the same way, at its own position.
#[derive(Debug, Clone, Copy, PartialEq, Eq, Hash, Structural)]
pub struct Error {
    /// The offending character.
    pub ch: char,
    /// Its index in the input, counted in characters.
    pub position: usize,
}

impl Error {
    /// What the error says to the person who typed the expression.
    pub open spec fn text(self) -> Seq<char> {
        "Unexpected character '"@.push(self.ch) + "' at position "@ + digits(self.position as nat)
    }

    /// What the error says to the person who typed the expression.
    pub fn message(&self) -> (m: String)
        ensures
            m@ == self.text(),
    {
        let mut m = String::from_str("Unexpected character '");
        m.push(self.ch);
        m.append("' at position ");
        push_digits(&mut m, self.position as u64);
        m
    }
}

/// The words of the language. Letter case does not matter.
#[derive(Debug, Clone, Copy, PartialEq, Eq, Hash, Structural)]
pub enum Keyword {
    /// `d`: a die, or "drop lowest" after a roll.
    D,
    /// `k`: keep highest.
    K,
    /// `kh`: keep highest.
    Kh,
    /// `kl`: keep lowest.
    Kl,
    /// `dl`: drop lowest.
    Dl,
    /// `dh`: drop highest.
    Dh,
    /// `adv`: advantage.
    Adv,
    /// `ad`: advantage.
    Ad,
    /// `dis`: disadvantage.
    Dis,
    /// `da`: disadvantage.
    Da,
    /// A run of letters that is none of the words above.
    Other,
}

/// One lexical unit of a dice expression.
#[derive(Debug, Clone, Copy, PartialEq, Eq, Hash, Structural)]
pub enum Token {
    /// An unsigned integer literal.
    Integer(i32),
    /// A maximal run of ASCII letters.
    Word(Keyword),
    /// `+`
    Plus,
    /// `-`
    Minus,
    /// `*` or the multiplication sign.
    Times,
    /// `/` or the division sign.
    Divide,
    /// `%`
    Percent,
    /// `(` or `[`, as written.
    Open(char),
    /// `)` or `]`, as written.
    Close(char),
}

/// Whitespace between tokens.
pub open spec fn is_space(c: char) -> bool {
    c == ' ' || c == '\t' || c == '\n' || c == '\r'
}

/// An ASCII letter of either case.
pub open spec fn is_letter(c: char) -> bool {
    ('a' <= c && c <= 'z') || ('A' <= c && c <= 'Z')
}

/// The lower-case form of an ASCII letter; other characters are unchanged.
pub open spec fn lower(c: char) -> char {
    if 'A' <= c && c <= 'Z' {
        ((c as int) + 32) as char
    } else {
        c
    }
}

/// The first position at or after `pos` that holds no whitespace.
pub open spec fn spaces_end(s: Seq<char>, pos: int) -> int
    decreases s.len() - pos,
{
    if 0 <= pos < s.len() && is_space(s[pos]) {
        spaces_end(s, pos + 1)
    } else {
        pos
    }
}

/// The first position at or after `pos` that holds no letter.
pub open spec fn letters_end(s: Seq<char>, pos: int) -> int
    decreases s.len() - pos,
{
    if 0 <= pos < s.len() && is_letter(s[pos]) {
        letters_end(s, pos + 1)
    } else {
        pos
    }
}

/// The keyword that a run of letters spells, ignoring case.
pub open spec fn keyword(w: Seq<char>) -> Keyword {
    if w.len() == 1 {
        if lower(w[0]) == 'd' {
            Keyword::D
        } else if lower(w[0]) == 'k' {
            Keyword::K
        } else {
            Keyword::Other
        }
    } else if w.len() == 2 {
        if lower(w[0]) == 'k' && lower(w[1]) == 'h' {
            Keyword::Kh
        } else if lower(w[0]) == 'k' && lower(w[1]) == 'l' {
            Keyword::Kl
        } else if lower(w[0]) == 'd' && lower(w[1]) == 'l' {
            Keyword::Dl
        } else if lower(w[0]) == 'd' && lower(w[1]) == 'h' {
            Keyword::Dh
        } else if lower(w[0]) == 'a' && lower(w[1]) == 'd' {
            Keyword::Ad
        } else if lower(w[0]) == 'd' && lower(w[1]) == 'a' {
            Keyword::Da
        } else {
            Keyword::Other
        }
    } else if w.len() == 3 {
        if lower(w[0]) == 'a' && lower(w[1]) == 'd' && lower(w[2]) == 'v' {
            Keyword::Adv
        } else if lower(w[0]) == 'd' && lower(w[1]) == 'i' && lower(w[2]) == 's' {
            Keyword::Dis
        } else {
            Keyword::Other
        }
    } else {
        Keyword::Other
    }
}

/// What reading a run of digits gives.
pub enum Number {
    /// The run ends before `end` and spells `value`.
    Value { value: i32, end: int },
    /// The digit at `position` carries the literal past `i32::MAX`.
    TooLarge { position: int },
}

/// Reads the digits from `pos` on, having read the value `acc` so far.
pub open spec fn scan_number(s: Seq<char>, pos: int, acc: int) -> Number
    decreases s.len() - pos,
{
    if 0 <= pos < s.len() && is_digit(s[pos]) {
        let next = acc * 10 + digit_value(s[pos]);
        if next > i32::MAX {
            Number::TooLarge { position: pos }
        } else {
            scan_number(s, pos + 1, next)
        }
    } else {
        Number::Value { value: acc as i32, end: pos }
    }
}

/// The token that is a single character, if `c` is one.
pub open spec fn symbol(c: char) -> Option<Token> {
    if c == '+' {
        Some(Token::Plus)
    } else if c == '-' {
        Some(Token::Minus)
    } else if c == '*' || c == '\u{d7}' {
        Some(Token::Times)
    } else if c == '/' || c == '\u{f7}' {
        Some(Token::Divide)
    } else if c == '%' {
        Some(Token::Percent)
    } else if c == '(' || c == '[' {
        Some(Token::Open(c))
    } else if c == ')' || c == ']' {
        Some(Token::Close(c))
    } else {
        None
    }
}

/// The outcome of scanning for one token.
pub struct Scan {
    /// The token, a lexical error, or `None` at the end of the input.
    pub item: Option<Result<Token, Error>>,
    /// Where the token starts, after any whitespace.
    pub start: int,
    /// Where scanning resumes. After an error this is `start`.
    pub end: int,
}

/// The token found when scanning `s` from `pos`.
pub open spec fn scan(s: Seq<char>, pos: int) -> Scan {
    let start = spaces_end(s, pos);
    if !(0 <= start < s.len()) {
        Scan { item: None, start, end: start }
    } else if is_digit(s[start]) {
        match scan_number(s, start, 0) {
            Number::Value { value, end } => Scan {
                item: Some(Ok(Token::Integer(value))),
                start,
                end,
            },
            Number::TooLarge { position } => Scan {
                item: Some(Err(Error { ch: s[position], position: position as usize })),
                start,
                end: start,
            },
        }
    } else if is_letter(s[start]) {
        let end = letters_end(s, start);
        Scan { item: Some(Ok(Token::Word(keyword(s.subrange(start, end))))), start, end }
    } else {
        match symbol(s[start]) {
            Some(token) => Scan { item: Some(Ok(token)), start, end: start + 1 },
            None => Scan {
                item: Some(Err(Error { ch: s[start], position: start as usize })),
                start,
                end: start,
            },
        }
    }
}

/// Whitespace skipping stays within the input and never moves backwards.
pub proof fn lemma_spaces_end(s: Seq<char>, pos: int)
    requires
        0 <= pos <= s.len(),
    ensures
        pos <= spaces_end(s, pos) <= s.len(),
        spaces_end(s, pos) < s.len() ==> !is_space(s[spaces_end(s, pos)]),
    decreases s.len() - pos,
{
    if pos < s.len() && is_space(s[pos]) {
        lemma_spaces_end(s, pos + 1);
    }
}

/// A run of letters ends within the input, at or after its start.
pub proof fn lemma_letters_end(s: Seq<char>, pos: int)
    requires
        0 <= pos <= s.len(),
    ensures
        pos <= letters_end(s, pos) <= s.len(),
        pos < s.len() && is_letter(s[pos]) ==> pos < letters_end(s, pos),
    decreases s.len() - pos,
{
    if pos < s.len() && is_letter(s[pos]) {
        lemma_letters_end(s, pos + 1);
    }
}

/// A run of digits that fits ends within the input, after its first digit.
pub proof fn lemma_scan_number(s: Seq<char>, pos: int, acc: int)
    requires
        0 <= pos <= s.len(),
        0 <= acc <= i32::MAX,
    ensures
        match scan_number(s, pos, acc) {
            Number::Value { value, end } => {
                &&& pos <= end <= s.len()
                &&& value >= 0
                &&& pos < s.len() && is_digit(s[pos]) ==> pos < end
            },
            Number::TooLarge { position } => pos <= position < s.len(),
        },
    decreases s.len() - pos,
{
    if pos < s.len() && is_digit(s[pos]) {
        let next = acc * 10 + digit_value(s[pos]);
        if next <= i32::MAX {
            lemma_scan_number(s, pos + 1, next);
        }
    }
}

/// Scanning stays within the input; a token always takes at least one
/// character, and nothing else moves the position past its start.
pub proof fn lemma_scan_bounds(s: Seq<char>, pos: int)
    requires
        0 <= pos <= s.len(),
    ensures
        pos <= scan(s, pos).start <= scan(s, pos).end <= s.len(),
        scan(s, pos).item matches Some(Ok(_)) ==> scan(s, pos).start < scan(s, pos).end,
        scan(s, pos).item is None ==> scan(s, pos).end == s.len(),
{
    lemma_spaces_end(s, pos);
    let start = spaces_end(s, pos);
    if start < s.len() {
        lemma_scan_number(s, start, 0);
        lemma_letters_end(s, start);
    }
}

/// A lazy tokenizer over the characters of one input string.
pub struct Lexer {
    input: Vec<char>,
    pos: usize,
    token_start: usize,
}

impl Lexer {
    #[verifier::type_invariant]
    spec fn inv(self) -> bool {
        self.token_start <= self.pos <= self.input.len()
    }

    /// The characters being tokenized.
    pub closed spec fn source(self) -> Seq<char> {
        self.input@
    }

    /// The position from which the next token will be scanned.
    pub closed spec fn position(self) -> int {
        self.pos as int
    }

    /// Where the most recently scanned token starts.
    pub closed spec fn token_start(self) -> int {
        self.token_start as int
    }

    /// A lexer at the start of `input`.
    pub fn new(input: &str) -> (lexer: Lexer)
        ensures
            lexer.source() == input@,
            lexer.position() == 0,
            lexer.token_start() == 0,
    {
        Lexer { input: chars_of(input), pos: 0, token_start: 0 }
    }

    fn skip_spaces(&mut self)
        ensures
            final(self).input == old(self).input,
            final(self).pos == spaces_end(old(self).input@, old(self).pos as int),
            final(self).token_start == final(self).pos,
    {
        proof {
            use_type_invariant(&*self);
        }
        let mut i: usize = self.pos;
        while i < self.input.len() && Self::space(self.input[i])
            invariant
                self.pos <= i <= self.input.len(),
                spaces_end(self.input@, self.pos as int) == spaces_end(self.input@, i as int),
            decreases self.input.len() - i,
        {
            i = i + 1;
        }
        self.pos = i;
        self.token_start = i;
    }

    fn space(c: char) -> (b: bool)
        ensures
            b == is_space(c),
    {
        c == ' ' || c == '\t' || c == '\n' || c == '\r'
    }

    fn letter(c: char) -> (b: bool)
        ensures
            b == is_letter(c),
    {
        (c >= 'a' && c <= 'z') || (c >= 'A' && c <= 'Z')
    }

    fn digit(c: char) -> (b: bool)
        ensures
            b == is_digit(c),
    {
        c >= '0' && c <= '9'
    }

    fn fold(c: char) -> (r: char)
        ensures
            r == lower(c),
    {
        if c >= 'A' && c <= 'Z' {
            ((c as u8) + 32) as char
        } else {
            c
        }
    }

    fn single(c: char) -> (r: Option<Token>)
        ensures
            r == symbol(c),
    {
        if c == '+' {
            Some(Token::Plus)
        } else if c == '-' {
            Some(Token::Minus)
        } else if c == '*' || c == '\u{d7}' {
            Some(Token::Times)
        } else if c == '/' || c == '\u{f7}' {
            Some(Token::Divide)
        } else if c == '%' {
            Some(Token::Percent)
        } else if c == '(' || c == '[' {
            Some(Token::Open(c))
        } else if c == ')' || c == ']' {
            Some(Token::Close(c))
        } else {
            None
        }
    }

    fn classify(&self, from: usize, to: usize) -> (k: Keyword)
        requires
            from <= to <= self.input.len(),
        ensures
            k == keyword(self.input@.subrange(from as int, to as int)),
    {
        let ghost w = self.input@.subrange(from as int, to as int);
        let n = to - from;
        if n == 1 {
            let a = Self::fold(self.input[from]);
            assert(w[0] == self.input@[from as int]);
            if a == 'd' {
                Keyword::D
            } else if a == 'k' {
                Keyword::K
            } else {
                Keyword::Other
            }
        } else if n == 2 {
            let a = Self::fold(self.input[from]);
            let b = Self::fold(self.input[from + 1]);
            assert(w[0] == self.input@[from as int]);
            assert(w[1] == self.input@[from as int + 1]);
            if a == 'k' && b == 'h' {
                Keyword::Kh
            } else if a == 'k' && b == 'l' {
                Keyword::Kl
            } else if a == 'd' && b == 'l' {
                Keyword::Dl
            } else if a == 'd' && b == 'h' {
                Keyword::Dh
            } else if a == 'a' && b == 'd' {
                Keyword::Ad
            } else if a == 'd' && b == 'a' {
                Keyword::Da
            } else {
                Keyword::Other
            }
        } else if n == 3 {
            let a = Self::fold(self.input[from]);
            let b = Self::fold(self.input[from + 1]);
            let c = Self::fold(self.input[from + 2]);
            assert(w[0] == self.input@[from as int]);
            assert(w[1] == self.input@[from as int + 1]);
            assert(w[2] == self.input@[from as int + 2]);
            if a == 'a' && b == 'd' && c == 'v' {
                Keyword::Adv
            } else if a == 'd' && b == 'i' && c == 's' {
                Keyword::Dis
            } else {
                Keyword::Other
            }
        } else {
            Keyword::Other
        }
    }

    /// Scans the next token and moves past it.
    ///
    /// Returns `None` at the end of the input. After an error the lexer stays
    /// at the offending character.
    pub fn next_token(&mut self) -> (item: Option<Result<Token, Error>>)
        ensures
            final(self).source() == old(self).source(),
            item == scan(old(self).source(), old(self).position()).item,
            final(self).token_start() == scan(old(self).source(), old(self).position()).start,
            final(self).position() == scan(old(self).source(), old(self).position()).end,
            0 <= old(self).position() <= final(self).token_start() <= final(self).position(),
            final(self).position() <= final(self).source().len(),
    {
        proof {
            use_type_invariant(&*self);
            lemma_scan_bounds(self.input@, self.pos as int);
            lemma_scan_number(self.input@, spaces_end(self.input@, self.pos as int), 0);
        }
        self.skip_spaces();
        let start = self.pos;
        if start >= self.input.len() {
            return None;
        }
        let c = self.input[start];
        if Self::digit(c) {
            let mut i: usize = start;
            let mut acc: i64 = 0;
            while i < self.input.len() && Self::digit(self.input[i])
                invariant
                    start <= i <= self.input.len(),
                    0 <= acc <= i32::MAX,
                    self.pos == start,
                    self.token_start == start,
                    self.input == old(self).input,
                    old(self).pos <= start,
                    start == spaces_end(self.input@, old(self).pos as int),
                    start < self.input.len(),
                    is_digit(self.input@[start as int]),
                    scan_number(self.input@, start as int, 0) == scan_number(
                        self.input@,
                        i as int,
                        acc as int,
                    ),
                decreases self.input.len() - i,
            {
                let d = ((self.input[i] as u32) - 48) as i64;
                let next = acc * 10 + d;
                if next > i32::MAX as i64 {
                    return Some(Err(Error { ch: self.input[i], position: i }));
                }
                acc = next;
                i = i + 1;
            }
            self.pos = i;
            Some(Ok(Token::Integer(acc as i32)))
        } else if Self::letter(c) {
            let mut i: usize = start;
            while i < self.input.len() && Self::letter(self.input[i])
                invariant
                    start <= i <= self.input.len(),
                    self.pos == start,
                    self.token_start == start,
                    self.input == old(self).input,
                    letters_end(self.input@, start as int) == letters_end(self.input@, i as int),
                decreases self.input.len() - i,
            {
                i = i + 1;
            }
            let k = self.classify(start, i);
            self.pos = i;
            Some(Ok(Token::Word(k)))
        } else {
            match Self::single(c) {
                Some(token) => {
                    self.pos = start + 1;
                    Some(Ok(token))
                },
                None => Some(Err(Error { ch: c, position: start })),
            }
        }
    }

    /// Appends the input characters from `from` up to `to` to `out`.
    pub fn push_text(&self, out: &mut String, from: usize, to: usize)
        requires
            from <= to <= self.source().len(),
        ensures
            final(out)@ == old(out)@ + self.source().subrange(from as int, to as int),
    {
        push_slice(out, &self.input, from, to);
    }

    /// The start of the most recently scanned token.
    pub fn last_start(&self) -> (p: usize)
        ensures
            p == self.token_start(),
            p <= self.position() <= self.source().len(),
    {
        proof {
            use_type_invariant(self);
        }
        self.token_start
    }

    /// The position from which the next token will be scanned.
    pub fn offset(&self) -> (p: usize)
        ensures
            p == self.position(),
    {
        self.pos
    }
}

impl crate::dice::lookahead::TokenSource for Lexer {
    type Item = Result<Token, Error>;

    open spec fn upcoming(&self) -> Option<Result<Token, Error>> {
        scan(self.source(), self.position()).item
    }

    open spec fn follows(&self, before: &Lexer) -> bool {
        &&& self.source() == before.source()
        &&& self.token_start() == scan(before.source(), before.position()).start
        &&& self.position() == scan(before.source(), before.position()).end
        &&& 0 <= before.position() <= self.token_start() <= self.position() <= self.source().len()
    }

    fn next_item(&mut self) -> (item: Option<Result<Token, Error>>) {
        self.next_token()
    }
}

} // verus!
