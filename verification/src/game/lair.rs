//! A lair that acts in an encounter.

use vstd::prelude::*;
use crate::game::participant::Action;

verus! {

/// A lair: it acts on initiative count 20 and has one action.
#[derive(Debug, Clone)]
pub struct Lair {
    pub name: String,
    pub notes: String,
    pub action: bool,
    pub small_portrait: Option<String>,
    pub full_portrait: Option<String>,
}

impl Lair {
    /// Marks the lair's action as available or used. A lair has no other
    /// kind of action: for those nothing changes and the call fails.
    pub fn set_action(&mut self, action: Action, available: bool) -> (r: Result<(), ()>)
        ensures
            r is Ok <==> action is Standard,
            *final(self) == (Lair {
                action: if action is Standard {
                    available
                } else {
                    old(self).action
                },
                ..*old(self)
            }),
    {
        match action {
            Action::Standard => {
                self.action = available;
                Ok(())
            },
            _ => Err(()),
        }
    }
}

} // verus!
