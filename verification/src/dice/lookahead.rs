//! One item of lookahead over any source of tokens.
//!
//! The grammar has to see the token after an integer before it knows whether
//! the integer is a literal or the count of a roll. The buffer keeps the
//! item under the cursor; `peek` reads it and `next` moves on.

use vstd::prelude::*;
use crate::dice::lexer::{scan, Lexer};

verus! {

/// Something that hands out items one at a time, such as a lexer.
pub trait TokenSource: Sized {
    /// What the source hands out.
    type Item: Copy;

    /// The item that the next call of `next_item` hands out.
    spec fn upcoming(&self) -> Option<Self::Item>;

    /// Whether `self` is what `before` becomes by one call of `next_item`.
    spec fn follows(&self, before: &Self) -> bool;

    /// Hands out the next item and moves past it.
    fn next_item(&mut self) -> (item: Option<Self::Item>)
        ensures
            item == old(self).upcoming(),
            final(self).follows(old(self)),
    ;
}

/// A source together with the item it has read ahead.
pub struct Lookahead<S: TokenSource> {
    source: S,
    current: Option<S::Item>,
    behind: Ghost<S>,
}

impl<S: TokenSource> Lookahead<S> {
    /// The source as it was before it handed out the item under the cursor.
    pub closed spec fn behind(self) -> S {
        self.behind@
    }

    /// The source as it is, past the item under the cursor.
    pub closed spec fn inner(self) -> S {
        self.source
    }

    /// The item under the cursor.
    pub closed spec fn held(self) -> Option<S::Item> {
        self.current
    }

    /// The buffered item is the one that the source handed out last.
    pub open spec fn wf(self) -> bool {
        &&& self.held() == self.behind().upcoming()
        &&& self.inner().follows(&self.behind())
    }

    /// Reads the first item of `source` ahead.
    pub fn new(source: S) -> (la: Self)
        ensures
            la.wf(),
            la.behind() == source,
    {
        let ghost behind = source;
        let mut source = source;
        let current = source.next_item();
        Lookahead { source, current, behind: Ghost(behind) }
    }

    /// The item under the cursor, without moving.
    pub fn peek(&self) -> (item: Option<S::Item>)
        ensures
            item == self.held(),
    {
        self.current
    }

    /// Moves the cursor past the item under it and returns the item that
    /// follows.
    pub fn next(&mut self) -> (item: Option<S::Item>)
        requires
            old(self).wf(),
        ensures
            final(self).wf(),
            final(self).behind() == old(self).inner(),
            item == final(self).held(),
    {
        self.behind = Ghost(self.source);
        self.current = self.source.next_item();
        self.current
    }
}

impl Lookahead<Lexer> {
    /// The characters being tokenized.
    pub open spec fn source(self) -> Seq<char> {
        self.behind().source()
    }

    /// The position from which the token under the cursor was scanned.
    pub open spec fn cursor(self) -> int {
        self.behind().position()
    }

    /// Appends the text of the token under the cursor, as written, to `out`.
    pub fn push_current(&self, out: &mut String)
        requires
            self.wf(),
        ensures
            final(out)@ == old(out)@ + self.source().subrange(
                scan(self.source(), self.cursor()).start,
                scan(self.source(), self.cursor()).end,
            ),
    {
        let from = self.source.last_start();
        let to = self.source.offset();
        self.source.push_text(out, from, to);
    }
}

} // verus!
