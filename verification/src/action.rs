//! Coordinates of the grid and the moves of the game.

use vstd::prelude::*;
use vstd::std_specs::ops::AddSpecImpl;
use vstd::std_specs::ops::SubSpecImpl;
use crate::player::Player;

verus! {

/// A position on the grid, or next to it: column `0`, row `1`.
#[derive(Debug, Clone, Copy, Hash, PartialEq, Eq, Structural)]
pub struct Coordinate(pub isize, pub isize);

impl Coordinate {
    pub fn new(x: isize, y: isize) -> (coord: Coordinate)
        ensures
            coord == Coordinate(x, y),
    {
        Coordinate(x, y)
    }

    /// The column.
    pub fn x(&self) -> (x: isize)
        ensures
            x == self.0,
    {
        self.0
    }

    /// The row, counted from the bottom.
    pub fn y(&self) -> (y: isize)
        ensures
            y == self.1,
    {
        self.1
    }

    /// Whether `self` lies in the rectangle from `a` up to, but without, `b`.
    pub open spec fn within(self, a: (isize, isize), b: (isize, isize)) -> bool {
        a.0 <= self.0 < b.0 && a.1 <= self.1 < b.1
    }

    pub fn is_contained(&self, a: (isize, isize), b: (isize, isize)) -> (inside: bool)
        ensures
            inside == self.within(a, b),
    {
        a.0 <= self.0 && self.0 < b.0 && a.1 <= self.1 && self.1 < b.1
    }

    /// Whether `self` moved `distance` times by `offset` is still a
    /// coordinate of machine integers.
    pub open spec fn can_offset(self, offset: (isize, isize), distance: isize) -> bool {
        &&& isize::MIN <= offset.0 * distance <= isize::MAX
        &&& isize::MIN <= offset.1 * distance <= isize::MAX
        &&& isize::MIN <= self.0 + offset.0 * distance <= isize::MAX
        &&& isize::MIN <= self.1 + offset.1 * distance <= isize::MAX
    }

    /// `self` moved `distance` times by `offset`.
    pub fn offset(&self, offset: (isize, isize), distance: isize) -> (moved: Coordinate)
        requires
            self.can_offset(offset, distance),
        ensures
            moved.0 == self.0 + offset.0 * distance,
            moved.1 == self.1 + offset.1 * distance,
    {
        Coordinate(self.0 + offset.0 * distance, self.1 + offset.1 * distance)
    }
}

impl core::ops::Add<(isize, isize)> for Coordinate {
    type Output = Coordinate;

    fn add(self, rhs: (isize, isize)) -> (sum: Coordinate) {
        Coordinate(self.0 + rhs.0, self.1 + rhs.1)
    }
}

impl AddSpecImpl<(isize, isize)> for Coordinate {
    open spec fn obeys_add_spec() -> bool {
        true
    }

    open spec fn add_req(self, rhs: (isize, isize)) -> bool {
        &&& isize::MIN <= self.0 + rhs.0 <= isize::MAX
        &&& isize::MIN <= self.1 + rhs.1 <= isize::MAX
    }

    open spec fn add_spec(self, rhs: (isize, isize)) -> Coordinate {
        Coordinate((self.0 + rhs.0) as isize, (self.1 + rhs.1) as isize)
    }
}

impl core::ops::Sub<(isize, isize)> for Coordinate {
    type Output = Coordinate;

    fn sub(self, rhs: (isize, isize)) -> (difference: Coordinate) {
        Coordinate(self.0 - rhs.0, self.1 - rhs.1)
    }
}

impl SubSpecImpl<(isize, isize)> for Coordinate {
    open spec fn obeys_sub_spec() -> bool {
        true
    }

    open spec fn sub_req(self, rhs: (isize, isize)) -> bool {
        &&& isize::MIN <= self.0 - rhs.0 <= isize::MAX
        &&& isize::MIN <= self.1 - rhs.1 <= isize::MAX
    }

    open spec fn sub_spec(self, rhs: (isize, isize)) -> Coordinate {
        Coordinate((self.0 - rhs.0) as isize, (self.1 - rhs.1) as isize)
    }
}

/// What a player may do on their turn.
#[derive(Debug, Clone, Copy, PartialEq, Eq, Structural)]
pub enum BoardAction {
    /// The player lets a stone fall into the column.
    DropStone(Player, usize),
    /// The stones at the two coordinates change places.
    SwitchStone(Coordinate, Coordinate),
}

fn try_ops(c: Coordinate) -> (r: Coordinate)
    requires 0 <= c.0 < 8, 0 <= c.1 < 8,
    ensures r.0 == c.0 + 1, r.1 == c.1,
{
    let d = c + (1, 1);
    let e = d - (0, 1);
    e
}

} // verus!
