//! The positions of a game, the latest last.

use vstd::prelude::*;
use crate::gamestate::Gamestate;

verus! {

/// The positions that a game has gone through. Taking a move back is
/// dropping the last position.
pub struct History {
    list: Vec<Gamestate>,
}

impl View for History {
    type V = Seq<Gamestate>;

    closed spec fn view(&self) -> Seq<Gamestate> {
        self.list@
    }
}

impl History {
    /// No positions.
    pub fn new() -> (history: History)
        ensures
            history@ == Seq::<Gamestate>::empty(),
    {
        History { list: Vec::new() }
    }

    /// Adds `game` as the last position.
    pub fn push(&mut self, game: Gamestate)
        ensures
            final(self)@ == old(self)@.push(game),
    {
        self.list.push(game);
    }

    /// Drops the last position, if there is one.
    pub fn pop(&mut self)
        ensures
            old(self)@.len() > 0 ==> final(self)@ == old(self)@.drop_last(),
            old(self)@.len() == 0 ==> final(self)@ == old(self)@,
    {
        let _ = self.list.pop();
    }

    /// The last position. There must be one.
    pub fn get_last(&self) -> (game: &Gamestate)
        requires
            self@.len() > 0,
        ensures
            *game == self@.last(),
    {
        &self.list[self.list.len() - 1]
    }

    /// The number of positions.
    pub fn len(&self) -> (n: usize)
        ensures
            n == self@.len(),
    {
        self.list.len()
    }
}

} // verus!
