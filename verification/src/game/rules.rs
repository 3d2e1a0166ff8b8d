use vstd::prelude::*;

use super::board::{lemma_signed_coordinate, in_home_rows, neighbors, on_board, Board, Pos, Square, SIZE};
use super::count::{
    lemma_count_in_row_bound, pieces_of, rank_sum, within_quota, count_in_row, count_in_rows,
};
use super::piece::{lemma_all_ranks_complete, lemma_rank_index, quota_prefix, rank_index, Rank, Side};

verus! {

#[derive(Debug, Clone, Copy, PartialEq, Eq, Structural)]
pub enum MoveError {
    OutOfBounds,
    NoPieceAtSource,
    NotOwnPiece,
    PieceIsStatic,
    InvalidDirection,
    TooFar,
    PathBlocked,
    DestinationIsLake,
    DestinationOccupiedByOwnPiece,
    /// The same piece shuttling between the same two squares for a fourth
    /// consecutive time. Checked by the game state, which keeps the history.
    TwoSquares,
}

#[derive(Debug, Clone, Copy, PartialEq, Eq, Structural)]
pub enum PlaceError {
    NotHomeRow,
    SquareIsLake,
    SquareOccupied,
    RankQuotaExceeded,
}

#[derive(Debug, Clone, Copy, PartialEq, Eq, Structural)]
pub enum CombatOutcome {
    AttackerWins,
    DefenderWins,
    BothDestroyed,
    FlagCaptured,
}

/// `(r, c)` lies strictly between `from` and `to` on the row or the column
/// they share.
pub open spec fn strictly_between(from: Pos, to: Pos, r: int, c: int) -> bool {
    let fr = from.0 as int;
    let fc = from.1 as int;
    let tr = to.0 as int;
    let tc = to.1 as int;
    ||| r == fr && (fc < c < tc || tc < c < fc)
    ||| c == fc && (fr < r < tr || tr < r < fr)
}

/// Every square strictly between `from` and `to` is empty (no piece, no lake).
pub open spec fn lane_clear(board: Board, from: Pos, to: Pos) -> bool {
    forall|r: int, c: int|
        #![trigger board.at(r, c)]
        strictly_between(from, to, r, c) ==> board.at(r, c) == Square::Empty
}

/// Manhattan distance; for a straight move it is the number of squares moved.
pub open spec fn move_distance(from: Pos, to: Pos) -> int {
    let dr = to.0 - from.0;
    let dc = to.1 - from.1;
    (if dr < 0 { -dr } else { dr }) + (if dc < 0 { -dc } else { dc })
}

/// Orthogonal, at least one square, no diagonal.
pub open spec fn is_straight(from: Pos, to: Pos) -> bool {
    (from.0 == to.0 && from.1 != to.1) || (from.1 == to.1 && from.0 != to.0)
}

/// The movement rules, checked in order: both squares on the board, an own
/// movable piece at `from`, a straight line, one square unless the piece is a
/// Scout on a clear lane, and a destination that is neither water nor an own
/// piece.
pub open spec fn move_check(board: Board, side: Side, from: Pos, to: Pos) -> Result<(), MoveError> {
    if !(from.0 < SIZE && from.1 < SIZE && to.0 < SIZE && to.1 < SIZE) {
        Err(MoveError::OutOfBounds)
    } else {
        match board.at_pos(from) {
            Square::Occupied(piece) => {
                if piece.owner != side {
                    Err(MoveError::NotOwnPiece)
                } else if piece.rank.spec_is_static() {
                    Err(MoveError::PieceIsStatic)
                } else if !is_straight(from, to) {
                    Err(MoveError::InvalidDirection)
                } else if move_distance(from, to) > 1 && piece.rank != Rank::Scout {
                    Err(MoveError::TooFar)
                } else if move_distance(from, to) > 1 && !lane_clear(board, from, to) {
                    Err(MoveError::PathBlocked)
                } else {
                    match board.at_pos(to) {
                        Square::Lake => Err(MoveError::DestinationIsLake),
                        Square::Occupied(target) => if target.owner == side {
                            Err(MoveError::DestinationOccupiedByOwnPiece)
                        } else {
                            Ok(())
                        },
                        Square::Empty => Ok(()),
                    }
                }
            },
            _ => Err(MoveError::NoPieceAtSource),
        }
    }
}

/// Outcome of `attacker` striking `defender`.
pub open spec fn combat_outcome(attacker: Rank, defender: Rank) -> CombatOutcome {
    if defender == Rank::Flag {
        CombatOutcome::FlagCaptured
    } else if attacker == Rank::Spy && defender == Rank::Marshal {
        CombatOutcome::AttackerWins
    } else if attacker == Rank::Miner && defender == Rank::Bomb {
        CombatOutcome::AttackerWins
    } else if attacker.spec_strength() > defender.spec_strength() {
        CombatOutcome::AttackerWins
    } else if attacker.spec_strength() < defender.spec_strength() {
        CombatOutcome::DefenderWins
    } else {
        CombatOutcome::BothDestroyed
    }
}

/// Movement rules: orthogonal, no diagonals, can't land on water, can't land
/// on own piece, Bombs/Flag never move. Every piece may step exactly one
/// square, except the Scout, which may run any distance along a clear,
/// straight lane, capturing only the piece it finally lands on.
pub fn validate_move(board: &Board, side: Side, from: Pos, to: Pos) -> (r: Result<(), MoveError>)
    ensures
        r == move_check(*board, side, from, to),
{
    proof {
        lemma_signed_coordinate(from.0);
        lemma_signed_coordinate(from.1);
        lemma_signed_coordinate(to.0);
        lemma_signed_coordinate(to.1);
    }
    if !Board::in_bounds(#[verifier::truncate] (from.0 as isize), #[verifier::truncate] (from.1 as isize))
        || !Board::in_bounds(#[verifier::truncate] (to.0 as isize), #[verifier::truncate] (to.1 as isize)) {
        return Err(MoveError::OutOfBounds);
    }
    let piece = match board.get(from) {
        Square::Occupied(p) => p,
        _ => return Err(MoveError::NoPieceAtSource),
    };
    if piece.owner != side {
        return Err(MoveError::NotOwnPiece);
    }
    if piece.rank.is_static() {
        return Err(MoveError::PieceIsStatic);
    }
    let row_delta = to.0 as isize - from.0 as isize;
    let col_delta = to.1 as isize - from.1 as isize;
    let is_horizontal = row_delta == 0 && col_delta != 0;
    let is_vertical = col_delta == 0 && row_delta != 0;
    if !is_horizontal && !is_vertical {
        return Err(MoveError::InvalidDirection);
    }
    let distance: isize = if is_vertical {
        if row_delta < 0 { -row_delta } else { row_delta }
    } else {
        if col_delta < 0 { -col_delta } else { col_delta }
    };
    assert(distance == move_distance(from, to));
    if distance > 1 {
        if piece.rank != Rank::Scout {
            return Err(MoveError::TooFar);
        }
        let mut step: isize = 1;
        while step < distance
            invariant
                1 <= step <= distance,
                board.at_pos(from) == Square::Occupied(piece),
                piece.owner == side,
                !piece.rank.spec_is_static(),
                piece.rank == Rank::Scout,
                distance == move_distance(from, to),
                is_straight(from, to),
                from.0 < SIZE && from.1 < SIZE && to.0 < SIZE && to.1 < SIZE,
                row_delta == to.0 - from.0,
                col_delta == to.1 - from.1,
                forall|r: int, c: int|
                    #![trigger board.at(r, c)]
                    strictly_between(from, to, r, c) && move_distance(from, (r as usize, c as usize))
                        < step ==> board.at(r, c) == Square::Empty,
            decreases distance - step,
        {
            let r: usize;
            let c: usize;
            if row_delta > 0 {
                r = from.0 + step as usize;
                c = from.1;
            } else if row_delta < 0 {
                r = from.0 - step as usize;
                c = from.1;
            } else if col_delta > 0 {
                r = from.0;
                c = from.1 + step as usize;
            } else {
                r = from.0;
                c = from.1 - step as usize;
            }
            assert(strictly_between(from, to, r as int, c as int));
            match board.get((r, c)) {
                Square::Empty => {},
                _ => {
                    assert(!lane_clear(*board, from, to));
                    return Err(MoveError::PathBlocked);
                },
            }
            step = step + 1;
        }
        assert(lane_clear(*board, from, to));
    }
    match board.get(to) {
        Square::Lake => Err(MoveError::DestinationIsLake),
        Square::Occupied(target) => {
            if target.owner == side {
                Err(MoveError::DestinationOccupiedByOwnPiece)
            } else {
                Ok(())
            }
        },
        Square::Empty => Ok(()),
    }
}

/// Higher rank wins; equal ranks destroy each other; capturing the Flag ends
/// the game. A Spy attacking the Marshal assassinates it (but loses when the
/// Marshal attacks first), and a Miner attacking a Bomb defuses it.
pub fn resolve_combat(attacker: Rank, defender: Rank) -> (r: CombatOutcome)
    ensures
        r == combat_outcome(attacker, defender),
{
    if defender == Rank::Flag {
        return CombatOutcome::FlagCaptured;
    }
    if attacker == Rank::Spy && defender == Rank::Marshal {
        return CombatOutcome::AttackerWins;
    }
    if attacker == Rank::Miner && defender == Rank::Bomb {
        return CombatOutcome::AttackerWins;
    }
    let a = attacker.strength();
    let d = defender.strength();
    if a > d {
        CombatOutcome::AttackerWins
    } else if a < d {
        CombatOutcome::DefenderWins
    } else {
        CombatOutcome::BothDestroyed
    }
}

/// The piece at `from` can legally step to its `i`-th orthogonal neighbour.
pub open spec fn legal_step(board: Board, side: Side, from: Pos, i: int) -> bool {
    0 <= i < neighbors(from).len() && move_check(board, side, from, neighbors(from)[i]) is Ok
}

/// `side` has some piece on the board with a legal one-square move.
pub open spec fn can_move(board: Board, side: Side) -> bool {
    exists|from: Pos, i: int|
        from.0 < SIZE && from.1 < SIZE && #[trigger] legal_step(board, side, from, i)
}

/// True if `side` has at least one piece that can make a legal move.
/// Used for the stalemate-loss check after each turn.
pub fn has_legal_move(board: &Board, side: Side) -> (r: bool)
    ensures
        r == can_move(*board, side),
{
    let mut row: usize = 0;
    while row < SIZE
        invariant
            row <= SIZE,
            forall|from: Pos, i: int|
                from.0 < row && from.1 < SIZE ==> !#[trigger] legal_step(*board, side, from, i),
        decreases SIZE - row,
    {
        let mut col: usize = 0;
        while col < SIZE
            invariant
                row < SIZE,
                col <= SIZE,
                forall|from: Pos, i: int|
                    (from.0 < row && from.1 < SIZE) || (from.0 == row && from.1 < col)
                        ==> !#[trigger] legal_step(*board, side, from, i),
            decreases SIZE - col,
        {
            let from = (row, col);
            if let Square::Occupied(piece) = board.get(from) {
                if piece.owner == side && !piece.rank.is_static() {
                    let targets = Board::orthogonal_neighbors(from);
                    let mut j: usize = 0;
                    while j < targets.len()
                        invariant
                            row < SIZE,
                            col < SIZE,
                            from == (row, col),
                            targets@ == neighbors(from),
                            j <= targets.len(),
                            forall|k: int| 0 <= k < j ==> !#[trigger] legal_step(*board, side, from, k),
                            forall|f: Pos, i: int|
                                (f.0 < row && f.1 < SIZE) || (f.0 == row && f.1 < col)
                                    ==> !#[trigger] legal_step(*board, side, f, i),
                        decreases targets.len() - j,
                    {
                        if validate_move(board, side, from, targets[j]).is_ok() {
                            assert(legal_step(*board, side, from, j as int));
                            return true;
                        }
                        j += 1;
                    }
                    assert forall|i: int| !#[trigger] legal_step(*board, side, from, i) by {
                        if 0 <= i < neighbors(from).len() {
                            assert(!legal_step(*board, side, from, i));
                        }
                    }
                }
            }
            col += 1;
        }
        row += 1;
    }
    false
}

fn count_on_board(board: &Board, side: Side, rank: Rank) -> (n: u8)
    ensures
        n == pieces_of(*board, side, rank),
{
    let mut n: u8 = 0;
    let mut row: usize = 0;
    while row < SIZE
        invariant
            row <= SIZE,
            n == count_in_rows(*board, side, rank, 0, row as int),
            n <= 10 * row,
        decreases SIZE - row,
    {
        let mut col: usize = 0;
        let ghost base = n;
        while col < SIZE
            invariant
                row < SIZE,
                col <= SIZE,
                base == count_in_rows(*board, side, rank, 0, row as int),
                base <= 10 * row,
                n == base + count_in_row(*board, side, rank, row as int, col as int),
            decreases SIZE - col,
        {
            proof {
                lemma_count_in_row_bound(*board, side, rank, row as int, col as int);
            }
            if let Square::Occupied(p) = board.squares[row][col] {
                if p.owner == side && p.rank == rank {
                    n += 1;
                }
            }
            col += 1;
        }
        proof {
            lemma_count_in_row_bound(*board, side, rank, row as int, 10);
        }
        row += 1;
    }
    n
}

/// Setup placement rules, checked in order: own home rows only, an empty
/// land square, and no more than the quota of that rank.
pub open spec fn placement_check(board: Board, side: Side, pos: Pos, rank: Rank) -> Result<(), PlaceError> {
    if !in_home_rows(side, pos.0 as int) {
        Err(PlaceError::NotHomeRow)
    } else {
        match board.at_pos(pos) {
            Square::Lake => Err(PlaceError::SquareIsLake),
            Square::Occupied(_) => Err(PlaceError::SquareOccupied),
            Square::Empty => if pieces_of(board, side, rank) >= rank.quota() {
                Err(PlaceError::RankQuotaExceeded)
            } else {
                Ok(())
            },
        }
    }
}

/// Every rank of `side` is on the board exactly as often as its quota.
pub open spec fn full_set(board: Board, side: Side) -> bool {
    forall|rank: Rank| #[trigger] pieces_of(board, side, rank) == rank.quota()
}

/// The ranks still to place for the first `k` ranks of the canonical order,
/// each repeated by its remaining quota.
pub open spec fn missing_ranks(board: Board, side: Side, k: int) -> Seq<Rank>
    decreases k,
{
    if k <= 0 {
        seq![]
    } else {
        let rank = Rank::all_ranks()[k - 1];
        missing_ranks(board, side, k - 1) + Seq::new(
            (rank.quota() - pieces_of(board, side, rank)) as nat,
            |i: int| rank,
        )
    }
}

/// Setup placement rules: own home rows only, empty land square,
/// and no more than the standard quota per rank (40-piece set).
pub fn validate_placement(board: &Board, side: Side, pos: Pos, rank: Rank) -> (r: Result<(), PlaceError>)
    requires
        in_home_rows(side, pos.0 as int) ==> pos.1 < SIZE,
    ensures
        r == placement_check(*board, side, pos, rank),
{
    if !Board::is_home_row(side, pos) {
        return Err(PlaceError::NotHomeRow);
    }
    match board.get(pos) {
        Square::Lake => return Err(PlaceError::SquareIsLake),
        Square::Occupied(_) => return Err(PlaceError::SquareOccupied),
        Square::Empty => {},
    }
    if count_on_board(board, side, rank) >= rank.count() {
        return Err(PlaceError::RankQuotaExceeded);
    }
    Ok(())
}

/// Whether `side` has placed its whole set.
pub fn setup_complete(board: &Board, side: Side) -> (r: bool)
    ensures
        r == full_set(*board, side),
{
    let all = Rank::all();
    let mut i: usize = 0;
    while i < all.len()
        invariant
            all@ == Rank::all_ranks(),
            i <= all@.len(),
            forall|j: int| 0 <= j < i ==> pieces_of(*board, side, #[trigger] all@[j]) == all@[j].quota(),
        decreases all.len() - i,
    {
        if count_on_board(board, side, all[i]) != all[i].count() {
            assert(!full_set(*board, side)) by {
                assert(pieces_of(*board, side, all@[i as int]) != all@[i as int].quota());
            }
            return false;
        }
        i += 1;
    }
    assert forall|rank: Rank| #[trigger] pieces_of(*board, side, rank) == rank.quota() by {
        lemma_all_ranks_complete(rank);
        let j = choose|j: int| 0 <= j < all@.len() && all@[j] == rank;
        assert(pieces_of(*board, side, all@[j]) == all@[j].quota());
    }
    true
}

/// Ranks `side` still has left to place, each repeated by its remaining
/// quota: two unplaced Bombs yield `[Bomb, Bomb]`.
pub fn remaining_ranks(board: &Board, side: Side) -> (v: Vec<Rank>)
    requires
        within_quota(*board, side),
    ensures
        v@ == missing_ranks(*board, side, 12),
{
    let all = Rank::all();
    let mut v: Vec<Rank> = Vec::new();
    let mut i: usize = 0;
    while i < all.len()
        invariant
            all@ == Rank::all_ranks(),
            i <= all@.len(),
            within_quota(*board, side),
            v@ == missing_ranks(*board, side, i as int),
        decreases all.len() - i,
    {
        let rank = all[i];
        let on_board = count_on_board(board, side, rank);
        assert(pieces_of(*board, side, rank) <= rank.quota());
        let missing = rank.count() - on_board;
        let ghost before = v@;
        let mut k: u8 = 0;
        while k < missing
            invariant
                k <= missing,
                v@ == before + Seq::new(k as nat, |j: int| rank),
            decreases missing - k,
        {
            v.push(rank);
            k += 1;
            assert(v@ =~= before + Seq::new(k as nat, |j: int| rank));
        }
        i += 1;
        assert(v@ =~= missing_ranks(*board, side, i as int));
    }
    v
}

/// `n` copies of `x` hold `n` of `x` and nothing else.
pub proof fn lemma_repeat_count(n: nat, x: Rank, y: Rank)
    ensures
        Seq::new(n, |i: int| x).to_multiset().count(y) == if x == y {
            n
        } else {
            0
        },
    decreases n,
{
    broadcast use vstd::seq_lib::group_to_multiset_ensures;

    if n > 0 {
        let s = Seq::new(n, |i: int| x);
        let t = Seq::new((n - 1) as nat, |i: int| x);
        assert(s =~= t.push(x));
        lemma_repeat_count((n - 1) as nat, x, y);
    }
}

/// The ranks still to place hold each rank as often as its quota exceeds
/// what is on the board.
pub proof fn lemma_missing_count(board: Board, side: Side, k: int, x: Rank)
    requires
        0 <= k <= 12,
        within_quota(board, side),
    ensures
        missing_ranks(board, side, k).to_multiset().count(x) == if rank_index(x) < k {
            x.quota() - pieces_of(board, side, x)
        } else {
            0
        },
    decreases k,
{
    broadcast use vstd::multiset::group_multiset_axioms;
    broadcast use vstd::seq_lib::group_to_multiset_ensures;

    if k > 0 {
        lemma_missing_count(board, side, k - 1, x);
        let rank = Rank::all_ranks()[k - 1];
        let m = (rank.quota() - pieces_of(board, side, rank)) as nat;
        let rest = Seq::new(m, |i: int| rank);
        let prev = missing_ranks(board, side, k - 1);
        assert(missing_ranks(board, side, k) == prev + rest);
        vstd::seq_lib::lemma_multiset_commutative(prev, rest);
        lemma_repeat_count(m, rank, x);
        lemma_rank_index(x, k - 1);
        assert(pieces_of(board, side, rank) <= rank.quota());
        assert((prev + rest).to_multiset().count(x) == prev.to_multiset().count(x)
            + rest.to_multiset().count(x));
    } else {
        assert(missing_ranks(board, side, k) =~= Seq::<Rank>::empty());
        lemma_rank_index(x, 0);
    }
}

/// Never more ranks are missing than a full set holds.
pub proof fn lemma_missing_len(board: Board, side: Side, k: int)
    requires
        0 <= k <= 12,
        within_quota(board, side),
    ensures
        missing_ranks(board, side, k).len() <= quota_prefix(k),
    decreases k,
{
    if k > 0 {
        lemma_missing_len(board, side, k - 1);
        let rank = Rank::all_ranks()[k - 1];
        assert(pieces_of(board, side, rank) <= rank.quota());
    }
}

/// The ranks still to place number the summed quotas less what is on the
/// board.
pub proof fn lemma_missing_len_exact(board: Board, side: Side, k: int)
    requires
        0 <= k <= 12,
        within_quota(board, side),
    ensures
        missing_ranks(board, side, k).len() == quota_prefix(k) - rank_sum(board, side, k),
    decreases k,
{
    if k > 0 {
        lemma_missing_len_exact(board, side, k - 1);
        let rank = Rank::all_ranks()[k - 1];
        assert(pieces_of(board, side, rank) <= rank.quota());
    }
}

} // verus!
