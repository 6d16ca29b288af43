//! A cell: what it is now, and what it will be after the next commit.

use vstd::prelude::*;
use crate::canvas::{Color, Colorize};

verus! {

/// A cell is alive or dead. `curr` is the state that neighbours and renderers
/// see; `succ` is the state it takes at the next commit, and is never read as
/// the cell's state before that.
#[derive(Clone, Copy, Debug)]
pub struct Cell {
    pub curr: bool,
    pub succ: bool,
}

impl Colorize for Cell {
    /// Living cells are drawn at full brightness, dead ones black.
    fn color(&self) -> (c: Color)
        ensures
            c == if self.curr { (25u8, 25u8, 25u8) } else { (0u8, 0u8, 0u8) },
    {
        if self.curr {
            (25, 25, 25)
        } else {
            (0, 0, 0)
        }
    }
}

impl Cell {
    /// The cell after a commit: its pending state has become its state.
    pub open spec fn committed(self) -> Cell {
        Cell { curr: self.succ, succ: self.succ }
    }

    /// Whether a commit brings this cell to life.
    pub open spec fn is_born(self) -> bool {
        !self.curr && self.succ
    }

    /// Whether a commit kills this cell.
    pub open spec fn is_dying(self) -> bool {
        self.curr && !self.succ
    }

    /// A dead cell that stays dead.
    pub fn new() -> (c: Self)
        ensures
            c == (Cell { curr: false, succ: false }),
    {
        Self { curr: false, succ: false }
    }

    /// Marks the cell to be alive after the next commit.
    pub fn birth(&mut self)
        ensures
            *final(self) == (Cell { curr: old(self).curr, succ: true }),
    {
        self.succ = true;
    }

    /// Marks the cell to be dead after the next commit.
    pub fn kill(&mut self)
        ensures
            *final(self) == (Cell { curr: old(self).curr, succ: false }),
    {
        self.succ = false;
    }

    /// Commits the pending state, and counts the cell in `born` or `dead` if
    /// that changed what it is.
    pub fn update(&mut self, born: &mut usize, dead: &mut usize)
        requires
            old(self).is_born() ==> *old(born) < usize::MAX,
            old(self).is_dying() ==> *old(dead) < usize::MAX,
        ensures
            *final(self) == old(self).committed(),
            *final(born) == *old(born) + if old(self).is_born() { 1int } else { 0int },
            *final(dead) == *old(dead) + if old(self).is_dying() { 1int } else { 0int },
    {
        if self.succ {
            if !self.curr {
                self.curr = true;
                *born += 1;
            }
        } else if self.curr {
            self.curr = false;
            *dead += 1;
        }
    }

    /// Whether the cell is alive now.
    pub fn is_alive(self) -> (a: bool)
        ensures
            a == self.curr,
    {
        self.curr
    }
}

} // verus!
