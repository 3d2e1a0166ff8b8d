use vstd::prelude::*;

use crate::game::board::Pos;

verus! {

/// A board position as the front end sends it.
#[derive(Clone, Copy, Debug, PartialEq, Eq, Structural)]
pub struct PosDto {
    pub row: usize,
    pub col: usize,
}

impl From<PosDto> for (usize, usize) {
    fn from(p: PosDto) -> (r: Pos) {
        (p.row, p.col)
    }
}

impl vstd::std_specs::convert::FromSpecImpl<PosDto> for (usize, usize) {
    open spec fn obeys_from_spec() -> bool {
        true
    }

    open spec fn from_spec(p: PosDto) -> Pos {
        (p.row, p.col)
    }
}

} // verus!
