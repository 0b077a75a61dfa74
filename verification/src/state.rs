//! The state of the application: the game, and the games before it that
//! undoing goes back to.

use vstd::prelude::*;
use vstd::string::*;
use crate::game::game::Game;

verus! {

/// The state of the application.
pub struct AppState {
    pub gamestate: GameState,
}

/// The game as it is, on top of the games as they were, and the games that
/// were undone.
pub struct GameState {
    pub undo_stack: Vec<Game>,
    pub redo_stack: Vec<Game>,
}

impl Default for GameState {
    fn default() -> (state: Self)
        ensures
            state.undo_stack@.len() == 0,
            state.redo_stack@.len() == 0,
    {
        GameState { undo_stack: Vec::new(), redo_stack: Vec::new() }
    }
}

impl GameState {
    /// Whether both stacks hold what they held in `before`.
    pub open spec fn unchanged(self, before: GameState) -> bool {
        self.undo_stack@ == before.undo_stack@ && self.redo_stack@ == before.redo_stack@
    }

    /// The game as it is now, if there is one.
    pub fn current(&self) -> (game: Option<&Game>)
        ensures
            match game {
                Some(g) => self.undo_stack@.len() > 0 && *g == self.undo_stack@.last(),
                None => self.undo_stack@.len() == 0,
            },
    {
        if self.undo_stack.len() == 0 {
            None
        } else {
            Some(&self.undo_stack[self.undo_stack.len() - 1])
        }
    }

    /// Starts over with `game`: nothing to undo, nothing to do again.
    pub fn reset(&mut self, game: Game)
        ensures
            final(self).undo_stack@ == seq![game],
            final(self).redo_stack@.len() == 0,
    {
        let mut stack: Vec<Game> = Vec::new();
        stack.push(game);
        self.undo_stack = stack;
        self.redo_stack.clear();
    }

    /// Makes `game`, which came of the game as it is, the game as it is.
    /// What was undone cannot be done again after that. Fails, and changes
    /// nothing, where there is no game.
    pub fn mutate(&mut self, game: Game) -> (r: Result<(), String>)
        ensures
            match r {
                Ok(_) => old(self).undo_stack@.len() > 0 && final(self).undo_stack@ == old(
                    self,
                ).undo_stack@.push(game) && final(self).redo_stack@.len() == 0,
                Err(message) => old(self).undo_stack@.len() == 0 && final(self).unchanged(*old(self))
                    && message@ == "No game found"@,
            },
    {
        if self.undo_stack.len() == 0 {
            return Err(String::from_str("No game found"));
        }
        self.undo_stack.push(game);
        self.redo_stack.clear();
        Ok(())
    }

    /// Goes back to the game as it was before the last change, which can be
    /// done again after that. Fails, and changes nothing, where there is no
    /// change to go back on.
    pub fn undo(&mut self) -> (r: Result<(), String>)
        ensures
            match r {
                Ok(_) => old(self).undo_stack@.len() > 1 && final(self).undo_stack@ == old(
                    self,
                ).undo_stack@.drop_last() && final(self).redo_stack@ == old(
                    self,
                ).redo_stack@.push(old(self).undo_stack@.last()),
                Err(message) => old(self).undo_stack@.len() <= 1 && final(self).unchanged(*old(self))
                    && message@ == "Undo stack is empty"@,
            },
    {
        if self.undo_stack.len() > 1 {
            match self.undo_stack.pop() {
                Some(game) => {
                    self.redo_stack.push(game);
                },
                None => {},
            }
            Ok(())
        } else {
            Err(String::from_str("Undo stack is empty"))
        }
    }

    /// Does again what was undone last. Fails, and changes nothing, where
    /// nothing was undone.
    pub fn redo(&mut self) -> (r: Result<(), String>)
        ensures
            match r {
                Ok(_) => old(self).redo_stack@.len() > 0 && final(self).redo_stack@ == old(
                    self,
                ).redo_stack@.drop_last() && final(self).undo_stack@ == old(
                    self,
                ).undo_stack@.push(old(self).redo_stack@.last()),
                Err(message) => old(self).redo_stack@.len() == 0 && final(self).unchanged(*old(self))
                    && message@ == "Redo stack is empty"@,
            },
    {
        match self.redo_stack.pop() {
            Some(game) => {
                self.undo_stack.push(game);
                Ok(())
            },
            None => Err(String::from_str("Redo stack is empty")),
        }
    }
}

} // verus!
