//! The eight placements of a pattern: four rotations, each plain or mirrored.
//!
//! A pattern is read as lines of cells. A placement says where on the grid the
//! next cell of a line goes, and where the next line starts.

use vstd::prelude::*;

verus! {

/// The rotations of a pattern.
#[derive(Clone, Copy, Debug, PartialEq, Eq, Structural)]
pub enum Rotate {
    Identity,
    Left,
    Right,
    Double,
}

/// A rotation, and whether the pattern is mirrored as well.
#[derive(Clone, Copy, Debug, PartialEq, Eq, Structural)]
pub struct Transform {
    pub rot: Rotate,
    pub mirror: bool,
}

/// The pattern as it is written.
pub fn t_none() -> (t: Transform)
    ensures
        t == (Transform { rot: Rotate::Identity, mirror: false }),
{
    Transform { rot: Rotate::Identity, mirror: false }
}

/// A quarter turn to the left.
pub fn t_lt() -> (t: Transform)
    ensures
        t == (Transform { rot: Rotate::Left, mirror: false }),
{
    Transform { rot: Rotate::Left, mirror: false }
}

/// A quarter turn to the right.
pub fn t_rt() -> (t: Transform)
    ensures
        t == (Transform { rot: Rotate::Right, mirror: false }),
{
    Transform { rot: Rotate::Right, mirror: false }
}

/// A half turn.
pub fn t_db() -> (t: Transform)
    ensures
        t == (Transform { rot: Rotate::Double, mirror: false }),
{
    Transform { rot: Rotate::Double, mirror: false }
}

/// The pattern mirrored.
pub fn t_none_sym() -> (t: Transform)
    ensures
        t == (Transform { rot: Rotate::Identity, mirror: true }),
{
    Transform { rot: Rotate::Identity, mirror: true }
}

/// A quarter turn to the left, mirrored.
pub fn t_lt_sym() -> (t: Transform)
    ensures
        t == (Transform { rot: Rotate::Left, mirror: true }),
{
    Transform { rot: Rotate::Left, mirror: true }
}

/// A quarter turn to the right, mirrored.
pub fn t_rt_sym() -> (t: Transform)
    ensures
        t == (Transform { rot: Rotate::Right, mirror: true }),
{
    Transform { rot: Rotate::Right, mirror: true }
}

/// A half turn, mirrored.
pub fn t_db_sym() -> (t: Transform)
    ensures
        t == (Transform { rot: Rotate::Double, mirror: true }),
{
    Transform { rot: Rotate::Double, mirror: true }
}

impl Transform {
    /// The step `(di, dj)` from one cell of a line to the next. Unrotated
    /// lines run along a row, to the right unless mirrored; a half turn
    /// reverses that. Quarter turns make lines run along a column, upwards
    /// for a left turn and downwards for a right turn, mirrored or not.
    pub open spec fn step(self) -> (int, int) {
        match self.rot {
            Rotate::Identity => (0, if self.mirror { -1 } else { 1 }),
            Rotate::Left => (-1, 0),
            Rotate::Right => (1, 0),
            Rotate::Double => (0, if self.mirror { 1 } else { -1 }),
        }
    }

    /// The step `(di, dj)` from one line to the next, across the direction
    /// of `step`. Unrotated lines follow each other downwards and half-turned
    /// ones upwards, mirrored or not; after a left turn they follow each
    /// other to the right, after a right turn to the left, and mirroring
    /// reverses both.
    pub open spec fn line_step(self) -> (int, int) {
        match self.rot {
            Rotate::Identity => (1, 0),
            Rotate::Left => (0, if self.mirror { -1 } else { 1 }),
            Rotate::Right => (0, if self.mirror { 1 } else { -1 }),
            Rotate::Double => (-1, 0),
        }
    }

    /// Whether lines run along a row.
    pub open spec fn row_major(self) -> bool {
        self.rot == Rotate::Identity || self.rot == Rotate::Double
    }

    /// The position after `(i, j)` on the same line.
    pub open spec fn advance(self, i: int, j: int) -> (int, int) {
        (i + self.step().0, j + self.step().1)
    }

    /// Where the line after the one through `(i, j)` starts, for a pattern
    /// placed at `(i0, j0)`: one line further, and back at the origin's
    /// coordinate along the line.
    pub open spec fn next_line(self, i: int, j: int, i0: int, j0: int) -> (int, int) {
        if self.row_major() {
            (i + self.line_step().0, j0)
        } else {
            (i0, j + self.line_step().1)
        }
    }

    /// Whether `advance` from `(i, j)` stays within `isize`.
    pub open spec fn can_advance(self, i: int, j: int) -> bool {
        &&& isize::MIN <= self.advance(i, j).0 <= isize::MAX
        &&& isize::MIN <= self.advance(i, j).1 <= isize::MAX
    }

    /// Whether `next_line` from `(i, j)` stays within `isize`.
    pub open spec fn can_break(self, i: int, j: int, i0: int, j0: int) -> bool {
        &&& isize::MIN <= self.next_line(i, j, i0, j0).0 <= isize::MAX
        &&& isize::MIN <= self.next_line(i, j, i0, j0).1 <= isize::MAX
    }

    /// Moves `(i, j)` to the next cell of the line.
    pub fn next(&self, i: &mut isize, j: &mut isize)
        requires
            self.can_advance(*old(i) as int, *old(j) as int),
        ensures
            (*final(i) as int, *final(j) as int) == self.advance(*old(i) as int, *old(j) as int),
    {
        if self.mirror {
            match self.rot {
                Rotate::Identity => *j -= 1,
                Rotate::Left => *i -= 1,
                Rotate::Right => *i += 1,
                Rotate::Double => *j += 1,
            }
        } else {
            match self.rot {
                Rotate::Identity => *j += 1,
                Rotate::Left => *i -= 1,
                Rotate::Right => *i += 1,
                Rotate::Double => *j -= 1,
            }
        }
    }

    /// Moves `(i, j)` to the start of the next line of a pattern placed at
    /// `(i0, j0)`.
    pub fn newline(&self, i: &mut isize, j: &mut isize, i0: isize, j0: isize)
        requires
            self.can_break(*old(i) as int, *old(j) as int, i0 as int, j0 as int),
        ensures
            (*final(i) as int, *final(j) as int) == self.next_line(
                *old(i) as int,
                *old(j) as int,
                i0 as int,
                j0 as int,
            ),
    {
        if self.mirror {
            match self.rot {
                Rotate::Identity => {
                    *i += 1;
                    *j = j0;
                },
                Rotate::Left => {
                    *j -= 1;
                    *i = i0;
                },
                Rotate::Right => {
                    *j += 1;
                    *i = i0;
                },
                Rotate::Double => {
                    *i -= 1;
                    *j = j0;
                },
            }
        } else {
            match self.rot {
                Rotate::Identity => {
                    *i += 1;
                    *j = j0;
                },
                Rotate::Left => {
                    *j += 1;
                    *i = i0;
                },
                Rotate::Right => {
                    *j -= 1;
                    *i = i0;
                },
                Rotate::Double => {
                    *i -= 1;
                    *j = j0;
                },
            }
        }
    }
}

} // verus!
