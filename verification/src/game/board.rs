use vstd::prelude::*;

use super::piece::{Piece, Side};

verus! {

/// Board edge length.
pub const SIZE: usize = 10;

/// (row, col), 0-indexed. Rows 0..=3 are Red's home rows, rows 6..=9 Blue's;
/// rows 4 and 5 hold the two lakes.
pub type Pos = (usize, usize);

#[derive(Clone, Copy, PartialEq, Eq, Debug, Structural)]
pub enum Square {
    Empty,
    Lake,
    Occupied(Piece),
}

#[derive(Clone, Debug)]
pub struct Board {
    pub squares: [[Square; SIZE]; SIZE],
}

/// True for the eight lake squares of the standard layout.
pub open spec fn is_lake(r: int, c: int) -> bool {
    (r == 4 || r == 5) && (c == 2 || c == 3 || c == 6 || c == 7)
}

/// True for a cell inside the 10x10 board.
pub open spec fn on_board(r: int, c: int) -> bool {
    0 <= r < 10 && 0 <= c < 10
}

/// First and last home row of `side`.
pub open spec fn home_lo(side: Side) -> int {
    match side {
        Side::Red => 0,
        Side::Blue => 6,
    }
}

pub open spec fn home_hi(side: Side) -> int {
    match side {
        Side::Red => 3,
        Side::Blue => 9,
    }
}

pub open spec fn in_home_rows(side: Side, r: int) -> bool {
    home_lo(side) <= r <= home_hi(side)
}

/// The neighbour `(r, c)` as a one-element list when it is on the board.
pub open spec fn neighbor_if_on_board(r: int, c: int) -> Seq<Pos> {
    if on_board(r, c) {
        seq![(r as usize, c as usize)]
    } else {
        seq![]
    }
}

/// Up, down, left, right of `pos`, in that order, keeping those on the board.
/// Coordinates are read as signed machine integers, as the lookup does.
pub open spec fn neighbors(pos: Pos) -> Seq<Pos> {
    let r = pos.0 as isize as int;
    let c = pos.1 as isize as int;
    neighbor_if_on_board(r - 1, c) + neighbor_if_on_board(r + 1, c) + neighbor_if_on_board(r, c - 1)
        + neighbor_if_on_board(r, c + 1)
}

/// Reading a board coordinate as a signed integer keeps it on the board
/// exactly when it was on the board.
pub proof fn lemma_signed_coordinate(x: usize)
    by (bit_vector)
    ensures
        (0 <= (x as isize) < 10) == (x < 10),
        x < 10 ==> x as isize == x,
{
}

/// Every on-board square orthogonally next to an on-board `pos` is listed
/// among its neighbours; its place in the list is returned.
pub proof fn lemma_neighbor_listed(pos: Pos, step: Pos) -> (i: int)
    requires
        pos.0 < 10 && pos.1 < 10,
        step.0 < 10 && step.1 < 10,
        (step.0 == pos.0 && (step.1 + 1 == pos.1 || pos.1 + 1 == step.1)) || (step.1 == pos.1 && (
        step.0 + 1 == pos.0 || pos.0 + 1 == step.0)),
    ensures
        0 <= i < neighbors(pos).len(),
        neighbors(pos)[i] == step,
{
    lemma_signed_coordinate(pos.0);
    lemma_signed_coordinate(pos.1);
    let r = pos.0 as int;
    let c = pos.1 as int;
    let up = neighbor_if_on_board(r - 1, c);
    let down = neighbor_if_on_board(r + 1, c);
    let left = neighbor_if_on_board(r, c - 1);
    let right = neighbor_if_on_board(r, c + 1);
    assert(neighbors(pos) == up + down + left + right);
    if step.0 + 1 == pos.0 {
        0
    } else if pos.0 + 1 == step.0 {
        up.len() as int
    } else if step.1 + 1 == pos.1 {
        (up.len() + down.len()) as int
    } else {
        (up.len() + down.len() + left.len()) as int
    }
}

impl Board {
    /// The square at row `r`, column `c`.
    pub open spec fn at(&self, r: int, c: int) -> Square {
        self.squares[r][c]
    }

    pub open spec fn at_pos(&self, pos: Pos) -> Square {
        self.at(pos.0 as int, pos.1 as int)
    }

    /// The empty board of the standard layout: lakes and nothing else.
    pub open spec fn is_fresh(&self) -> bool {
        forall|r: int, c: int|
            on_board(r, c) ==> #[trigger] self.at(r, c) == if is_lake(r, c) {
                Square::Lake
            } else {
                Square::Empty
            }
    }

    /// `self` is `old` with the square at `pos` replaced by `sq`.
    pub open spec fn is_update(&self, old: &Board, pos: Pos, sq: Square) -> bool {
        forall|r: int, c: int|
            on_board(r, c) ==> #[trigger] self.at(r, c) == if r == pos.0 && c == pos.1 {
                sq
            } else {
                old.at(r, c)
            }
    }

    pub fn new() -> (b: Self)
        ensures
            b.is_fresh(),
    {
        let mut squares = [[Square::Empty; SIZE]; SIZE];
        squares[4][2] = Square::Lake;
        squares[4][3] = Square::Lake;
        squares[5][2] = Square::Lake;
        squares[5][3] = Square::Lake;
        squares[4][6] = Square::Lake;
        squares[4][7] = Square::Lake;
        squares[5][6] = Square::Lake;
        squares[5][7] = Square::Lake;
        Board { squares }
    }

    pub fn get(&self, pos: Pos) -> (r: Square)
        requires
            pos.0 < SIZE,
            pos.1 < SIZE,
        ensures
            r == self.at_pos(pos),
    {
        self.squares[pos.0][pos.1]
    }

    pub fn set(&mut self, pos: Pos, square: Square)
        requires
            pos.0 < SIZE,
            pos.1 < SIZE,
        ensures
            final(self).is_update(old(self), pos, square),
    {
        self.squares[pos.0][pos.1] = square;
    }
    pub fn in_bounds(row: isize, col: isize) -> (r: bool)
        ensures
            r == on_board(row as int, col as int),
    {
        row >= 0 && row < SIZE as isize && col >= 0 && col < SIZE as isize
    }

    /// Home rows where a side may place pieces during setup.
    pub fn home_rows(side: Side) -> (r: std::ops::RangeInclusive<usize>)
        ensures
            r@.start == home_lo(side),
            r@.end == home_hi(side),
            !r@.exhausted,
    {
        match side {
            Side::Red => 0..=3,
            Side::Blue => 6..=9,
        }
    }

    pub fn is_home_row(side: Side, pos: Pos) -> (r: bool)
        ensures
            r == in_home_rows(side, pos.0 as int),
    {
        Self::home_rows(side).contains(&pos.0)
    }

    /// The on-board squares orthogonally next to `pos`: up, down, left, right.
    pub fn orthogonal_neighbors(pos: Pos) -> (v: Vec<Pos>)
        requires
            isize::MIN < (pos.0 as isize) < isize::MAX,
            isize::MIN < (pos.1 as isize) < isize::MAX,
        ensures
            v@ == neighbors(pos),
    {
        let r = pos.0 as isize;
        let c = pos.1 as isize;
        let mut v: Vec<Pos> = Vec::new();
        if Self::in_bounds(r - 1, c) {
            v.push(((r - 1) as usize, c as usize));
        }
        assert(v@ =~= neighbor_if_on_board(r - 1, c as int));
        let ghost v1 = v@;
        if Self::in_bounds(r + 1, c) {
            v.push(((r + 1) as usize, c as usize));
        }
        assert(v@ =~= v1 + neighbor_if_on_board(r + 1, c as int));
        let ghost v2 = v@;
        if Self::in_bounds(r, c - 1) {
            v.push((r as usize, (c - 1) as usize));
        }
        assert(v@ =~= v2 + neighbor_if_on_board(r as int, c - 1));
        let ghost v3 = v@;
        if Self::in_bounds(r, c + 1) {
            v.push((r as usize, (c + 1) as usize));
        }
        assert(v@ =~= v3 + neighbor_if_on_board(r as int, c + 1));
        v
    }
}

/// Boards that agree on every square are the same board.
pub proof fn lemma_board_ext(a: Board, b: Board)
    requires
        forall|r: int, c: int| on_board(r, c) ==> #[trigger] a.at(r, c) == b.at(r, c),
    ensures
        a == b,
{
    assert forall|r: int| 0 <= r < 10 implies #[trigger] a.squares[r] == b.squares[r] by {
        assert forall|c: int| 0 <= c < 10 implies a.squares[r][c] == b.squares[r][c] by {
            assert(a.at(r, c) == b.at(r, c));
        }
        assert(a.squares[r] =~= b.squares[r]);
    }
    assert(a.squares =~= b.squares);
}

} // verus!
