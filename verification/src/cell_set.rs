//! Sets of places of the grid.

use vstd::prelude::*;
use crate::action::Coordinate;
use crate::grid::{on_board, HEIGHT, WIDTH};

verus! {

/// A set of places of the grid.
#[derive(Debug, Clone, Copy)]
pub struct CellSet {
    marks: [[bool; HEIGHT]; WIDTH],
}

impl View for CellSet {
    type V = Set<(int, int)>;

    closed spec fn view(&self) -> Set<(int, int)> {
        Set::new(|c: (int, int)| on_board(c.0, c.1) && self.marks[c.0][c.1])
    }
}

/// A grid of flags, none of them set.
fn no_marks() -> (marks: [[bool; HEIGHT]; WIDTH])
    ensures
        forall|x: int, y: int| on_board(x, y) ==> !#[trigger] marks[x][y],
{
    let column = [false, false, false, false, false, false, false, false];
    [column, column, column, column, column, column, column, column]
}

impl CellSet {
    /// The set without a place.
    pub fn new() -> (set: CellSet)
        ensures
            set@ == Set::<(int, int)>::empty(),
    {
        let set = CellSet { marks: no_marks() };
        assert(set@ =~= Set::<(int, int)>::empty());
        set
    }

    /// Whether `coord` is in the set.
    pub fn contains(&self, coord: Coordinate) -> (found: bool)
        ensures
            found == self@.contains((coord.0 as int, coord.1 as int)),
    {
        if coord.is_contained((0, 0), (WIDTH as isize, HEIGHT as isize)) {
            self.marks[coord.x() as usize][coord.y() as usize]
        } else {
            false
        }
    }

    /// Puts `coord` into the set.
    pub fn insert(&mut self, coord: Coordinate)
        requires
            on_board(coord.0 as int, coord.1 as int),
        ensures
            final(self)@ == old(self)@.insert((coord.0 as int, coord.1 as int)),
    {
        self.marks[coord.x() as usize][coord.y() as usize] = true;
        assert(self@ =~= old(self)@.insert((coord.0 as int, coord.1 as int)));
    }
}

} // verus!
