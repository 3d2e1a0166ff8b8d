use vstd::prelude::*;

use super::board::{self, in_home_rows, lemma_board_ext, on_board, Board, Pos, Square, SIZE};
use super::piece::{self, Piece, Rank, Side, SET_SIZE};
use super::random;
use super::count::{self, within_quota};
use super::rules::{
    self, can_move, combat_outcome, full_set, move_check, placement_check, CombatOutcome,
    MoveError, PlaceError,
};

verus! {

#[derive(Clone, Copy, PartialEq, Eq, Debug, Structural)]
pub enum Phase {
    SetupBlue,
    SetupRed,
    Playing(Side),
    GameOver(Side),
}

#[derive(Debug, Clone, Copy, PartialEq, Eq, Structural)]
pub enum ActionError {
    WrongPhase,
    HandoffPending,
    NoPendingHandoff,
    CannotCancelAttack,
    SetupIncomplete,
    Placement(PlaceError),
    Move(MoveError),
}

/// What a single square looks like to one particular viewer.
/// `rank: None` is the hidden card-back; during blind setup the opponent's
/// pieces do not even show up as occupied.
#[derive(Clone, Copy, Debug, PartialEq, Eq, Structural)]
pub enum SquareView {
    Empty,
    Lake,
    Piece { owner: Side, rank: Option<Rank> },
}

pub type BoardView = Vec<Vec<SquareView>>;

#[derive(Clone, Copy, Debug, PartialEq, Eq, Structural)]
pub enum PhaseDto {
    SetupBlue,
    SetupRed,
    Playing { turn: Side },
    GameOver { winner: Side },
}

pub open spec fn phase_dto(phase: Phase) -> PhaseDto {
    match phase {
        Phase::SetupBlue => PhaseDto::SetupBlue,
        Phase::SetupRed => PhaseDto::SetupRed,
        Phase::Playing(turn) => PhaseDto::Playing { turn },
        Phase::GameOver(winner) => PhaseDto::GameOver { winner },
    }
}

impl From<Phase> for PhaseDto {
    fn from(phase: Phase) -> (r: Self)
        ensures
            phase matches Phase::GameOver(w) ==> r == (PhaseDto::GameOver { winner: w }),
            phase matches Phase::Playing(t) ==> r == (PhaseDto::Playing { turn: t }),
    {
        match phase {
            Phase::SetupBlue => PhaseDto::SetupBlue,
            Phase::SetupRed => PhaseDto::SetupRed,
            Phase::Playing(turn) => PhaseDto::Playing { turn },
            Phase::GameOver(winner) => PhaseDto::GameOver { winner },
        }
    }
}

impl vstd::std_specs::convert::FromSpecImpl<Phase> for PhaseDto {
    open spec fn obeys_from_spec() -> bool {
        true
    }

    open spec fn from_spec(phase: Phase) -> Self {
        phase_dto(phase)
    }
}

/// Snapshot of a single combat resolution, so the front end can animate the
/// clash even though the destroyed piece never lands on the board.
#[derive(Clone, Copy, Debug, PartialEq, Eq, Structural)]
pub struct CombatResultDto {
    pub row: usize,
    pub col: usize,
    pub attacker_owner: Side,
    pub attacker_rank: Rank,
    pub defender_owner: Side,
    pub defender_rank: Rank,
    pub outcome: CombatOutcome,
}

/// The most recent move, flattened into four coordinates.
#[derive(Clone, Copy, Debug, PartialEq, Eq, Structural)]
pub struct LastMoveDto {
    pub from_row: usize,
    pub from_col: usize,
    pub to_row: usize,
    pub to_col: usize,
}

#[derive(Clone, Debug)]
pub struct StatusDto {
    pub phase: PhaseDto,
    pub pending_handoff: Option<Side>,
    /// `true` when the pending handoff was triggered by an attack, which
    /// cannot be taken back.
    pub pending_attack: bool,
    pub last_move: Option<LastMoveDto>,
    pub captured_blue: Vec<Rank>,
    pub captured_red: Vec<Rank>,
}

/// Back-and-forth bookkeeping: `a -> b` was the side's last move, and it was
/// the `count`-th consecutive hop within the pair {a, b}.
#[derive(Clone, Copy, Debug, PartialEq, Eq)]
pub struct Shuttle {
    pub a: Pos,
    pub b: Pos,
    pub count: u8,
}

/// Everything that taking back a pending action must restore.
pub struct UndoSnapshot {
    pub board: Board,
    pub last_move: Option<(Pos, Pos)>,
    pub captured_blue: Vec<Rank>,
    pub captured_red: Vec<Rank>,
    pub shuttle_blue: Option<Shuttle>,
    pub shuttle_red: Option<Shuttle>,
}

pub struct GameState {
    pub board: Board,
    pub phase: Phase,
    /// Phase to switch to once the handoff is confirmed; `None` while no
    /// handoff is pending.
    pub pending_transition: Option<Phase>,
    /// Side whose action awaits confirmation.
    pub pending_handoff: Option<Side>,
    /// Whether the pending handoff came from an attack, which cannot be
    /// cancelled.
    pub pending_attack: bool,
    /// State right before the pending action, restored on cancel.
    pub undo_snapshot: Option<UndoSnapshot>,
    /// From/to of the most recent executed move (public information).
    pub last_move: Option<(Pos, Pos)>,
    /// Ranks each side has lost, in capture order.
    pub captured_blue: Vec<Rank>,
    pub captured_red: Vec<Rank>,
    pub shuttle_blue: Option<Shuttle>,
    pub shuttle_red: Option<Shuttle>,
}

/// The setup phase in which `side` places its pieces.
pub open spec fn setup_phase(side: Side) -> Phase {
    match side {
        Side::Blue => Phase::SetupBlue,
        Side::Red => Phase::SetupRed,
    }
}

/// What `viewer` may see of `square` in `phase`: own pieces, pieces revealed
/// by combat and, once the game is over, every piece show their rank; other
/// opposing pieces show a card back; during setup opposing pieces are
/// invisible altogether.
pub open spec fn view_of(square: Square, viewer: Side, phase: Phase) -> SquareView {
    match square {
        Square::Empty => SquareView::Empty,
        Square::Lake => SquareView::Lake,
        Square::Occupied(piece) => {
            if piece.owner != viewer && (phase == Phase::SetupBlue || phase == Phase::SetupRed) {
                SquareView::Empty
            } else if piece.owner == viewer || piece.revealed || phase is GameOver {
                SquareView::Piece { owner: piece.owner, rank: Some(piece.rank) }
            } else {
                SquareView::Piece { owner: piece.owner, rank: None }
            }
        },
    }
}

/// A recorded streak has between one and three hops.
pub open spec fn shuttle_ok(s: Option<Shuttle>) -> bool {
    s matches Some(t) ==> 1 <= t.count <= 3
}

/// The move `from -> to` would be the fourth consecutive hop of a streak.
pub open spec fn breaks_two_squares(s: Option<Shuttle>, from: Pos, to: Pos) -> bool {
    s matches Some(t) && t.b == from && t.a == to && t.count >= 3
}

/// The streak after the executed move `from -> to`: the reverse hop extends
/// it, anything else starts a new one.
pub open spec fn next_shuttle(s: Option<Shuttle>, from: Pos, to: Pos) -> Option<Shuttle> {
    let count: u8 = match s {
        Some(t) => if t.b == from && t.a == to {
            (t.count + 1) as u8
        } else {
            1
        },
        None => 1,
    };
    Some(Shuttle { a: from, b: to, count })
}

pub open spec fn last_move_dto(m: Option<(Pos, Pos)>) -> Option<LastMoveDto> {
    match m {
        Some((from, to)) => Some(
            LastMoveDto { from_row: from.0, from_col: from.1, to_row: to.0, to_col: to.1 },
        ),
        None => None,
    }
}

/// The phase that follows the confirmed end of `side`'s setup.
pub open spec fn phase_after_setup(side: Side) -> Phase {
    match side {
        Side::Blue => Phase::SetupRed,
        Side::Red => Phase::Playing(Side::Blue),
    }
}

/// Board, last move, losses and streaks of `new` are those of `old`.
pub open spec fn same_records(new: &GameState, old: &GameState) -> bool {
    &&& new.board == old.board
    &&& new.last_move == old.last_move
    &&& new.captured_blue@ == old.captured_blue@
    &&& new.captured_red@ == old.captured_red@
    &&& new.shuttle_blue == old.shuttle_blue
    &&& new.shuttle_red == old.shuttle_red
}

/// `new` waits for `side`'s action to be confirmed: `next` is queued, the
/// snapshot holds `before` (the state right before the action), and the
/// phase is still that of `before`.
pub open spec fn awaits_confirmation(
    new: &GameState,
    before: &GameState,
    next: Phase,
    side: Side,
    attack: bool,
) -> bool {
    &&& new.phase == before.phase
    &&& new.pending_transition == Some(next)
    &&& new.pending_handoff == Some(side)
    &&& new.pending_attack == attack
    &&& new.undo_snapshot matches Some(s) && s.saves(before)
}

/// What `finish_setup(side)` does to `old`, giving `new` and answering `r`.
pub open spec fn finish_effect(old: &GameState, new: &GameState, side: Side, r: Result<(), ActionError>) -> bool {
    if old.pending_handoff is Some {
        r == Err::<(), ActionError>(ActionError::HandoffPending) && *new == *old
    } else if old.phase != setup_phase(side) {
        r == Err::<(), ActionError>(ActionError::WrongPhase) && *new == *old
    } else if !full_set(old.board, side) {
        r == Err::<(), ActionError>(ActionError::SetupIncomplete) && *new == *old
    } else {
        &&& r is Ok
        &&& same_records(new, old)
        &&& awaits_confirmation(new, old, phase_after_setup(side), side, false)
    }
}

/// What `confirm_handoff` does: the queued phase takes over and the side now
/// in control is reported.
pub open spec fn confirm_effect(old: &GameState, new: &GameState, r: Result<Side, ActionError>) -> bool {
    match old.pending_transition {
        None => r == Err::<Side, ActionError>(ActionError::NoPendingHandoff) && *new == *old,
        Some(next) => {
            &&& r == Ok::<Side, ActionError>(new.controller())
            &&& new.phase == next
            &&& new.pending_transition is None
            &&& new.pending_handoff is None
            &&& new.undo_snapshot is None
            &&& !new.pending_attack
            &&& same_records(new, old)
        },
    }
}

/// What `cancel_handoff` does: unless nothing is pending or the pending
/// action was an attack, the snapshot is put back and control returns to the
/// side that acted, in the same phase.
pub open spec fn cancel_effect(old: &GameState, new: &GameState, r: Result<Side, ActionError>) -> bool {
    if old.pending_handoff is None {
        r == Err::<Side, ActionError>(ActionError::NoPendingHandoff) && *new == *old
    } else if old.pending_attack {
        r == Err::<Side, ActionError>(ActionError::CannotCancelAttack) && *new == *old
    } else {
        &&& r == Ok::<Side, ActionError>(old.pending_handoff->0)
        &&& new.phase == old.phase
        &&& new.pending_transition is None
        &&& new.pending_handoff is None
        &&& new.undo_snapshot is None
        &&& new.pending_attack == old.pending_attack
        &&& match old.undo_snapshot {
            Some(snap) => snap.saves(new),
            None => same_records(new, old),
        }
    }
}

/// The piece after it has been in combat: same owner and rank, now known to
/// both players.
pub open spec fn revealed(p: Piece) -> Piece {
    Piece { owner: p.owner, rank: p.rank, revealed: true }
}

/// What stands on `to` after the piece from `from` moved there on `board`:
/// the mover itself, the winner of the combat (revealed), or nothing when
/// both fall.
pub open spec fn landing_square(board: Board, from: Pos, to: Pos) -> Square {
    match board.at_pos(from) {
        Square::Occupied(a) => match board.at_pos(to) {
            Square::Occupied(d) => match combat_outcome(a.rank, d.rank) {
                CombatOutcome::AttackerWins => Square::Occupied(revealed(a)),
                CombatOutcome::FlagCaptured => Square::Occupied(revealed(a)),
                CombatOutcome::DefenderWins => Square::Occupied(revealed(d)),
                CombatOutcome::BothDestroyed => Square::Empty,
            },
            _ => Square::Occupied(a),
        },
        _ => board.at_pos(to),
    }
}

/// Square `(r, c)` after the move `from -> to` on `board`.
pub open spec fn square_after_move(board: Board, from: Pos, to: Pos, r: int, c: int) -> Square {
    if r == to.0 && c == to.1 {
        landing_square(board, from, to)
    } else if r == from.0 && c == from.1 {
        Square::Empty
    } else {
        board.at(r, c)
    }
}

/// The rank as a one-element list when its piece belongs to `side`.
pub open spec fn loss_of(p: Piece, side: Side) -> Seq<Rank> {
    if p.owner == side {
        seq![p.rank]
    } else {
        seq![]
    }
}

/// Ranks that `side` loses when `from` strikes `to` on `board`, in the order
/// they are recorded (attacker first).
pub open spec fn losses(board: Board, from: Pos, to: Pos, side: Side) -> Seq<Rank> {
    match board.at_pos(from) {
        Square::Occupied(a) => match board.at_pos(to) {
            Square::Occupied(d) => match combat_outcome(a.rank, d.rank) {
                CombatOutcome::AttackerWins => loss_of(d, side),
                CombatOutcome::FlagCaptured => loss_of(d, side),
                CombatOutcome::DefenderWins => loss_of(a, side),
                CombatOutcome::BothDestroyed => loss_of(a, side) + loss_of(d, side),
            },
            _ => seq![],
        },
        _ => seq![],
    }
}

/// The combat report of the move `from -> to` on `board`: present exactly
/// when `to` holds a piece.
pub open spec fn combat_report(board: Board, from: Pos, to: Pos) -> Option<CombatResultDto> {
    match board.at_pos(from) {
        Square::Occupied(a) => match board.at_pos(to) {
            Square::Occupied(d) => Some(
                CombatResultDto {
                    row: to.0,
                    col: to.1,
                    attacker_owner: a.owner,
                    attacker_rank: a.rank,
                    defender_owner: d.owner,
                    defender_rank: d.rank,
                    outcome: combat_outcome(a.rank, d.rank),
                },
            ),
            _ => None,
        },
        _ => None,
    }
}

/// Why `g` refuses the move, if it does: a pending handoff, not `side`'s
/// turn, a broken movement rule, or the fourth hop of a back-and-forth.
pub open spec fn move_rejection(g: &GameState, side: Side, from: Pos, to: Pos) -> Option<ActionError> {
    if g.pending_handoff is Some {
        Some(ActionError::HandoffPending)
    } else if g.phase != Phase::Playing(side) {
        Some(ActionError::WrongPhase)
    } else {
        match move_check(g.board, side, from, to) {
            Err(e) => Some(ActionError::Move(e)),
            Ok(_) => if breaks_two_squares(g.shuttle_of(side), from, to) {
                Some(ActionError::Move(MoveError::TwoSquares))
            } else {
                None
            },
        }
    }
}

/// The move ends the game: the Flag fell, or the opponent is left without a
/// legal move on the new board.
pub open spec fn ends_game(report: Option<CombatResultDto>, new_board: Board, side: Side) -> bool {
    (report matches Some(c) && c.outcome == CombatOutcome::FlagCaptured) || !can_move(
        new_board,
        side.opponent(),
    )
}

/// What `make_move(side, from, to)` does to `old`, giving `new` and answering
/// `r`. A refused move changes nothing. An executed move rewrites `to` and
/// empties `from`, records losses, the last move and the streak; a move
/// that ends the game declares `side` the winner at once, any other move
/// waits for the handoff to the opponent.
pub open spec fn move_effect(
    old: &GameState,
    new: &GameState,
    side: Side,
    from: Pos,
    to: Pos,
    r: Result<Option<CombatResultDto>, ActionError>,
) -> bool {
    match move_rejection(old, side, from, to) {
        Some(e) => r == Err::<Option<CombatResultDto>, ActionError>(e) && *new == *old,
        None => {
            let report = combat_report(old.board, from, to);
            &&& r == Ok::<Option<CombatResultDto>, ActionError>(report)
            &&& forall|rr: int, cc: int|
                on_board(rr, cc) ==> #[trigger] new.board.at(rr, cc) == square_after_move(
                    old.board,
                    from,
                    to,
                    rr,
                    cc,
                )
            &&& new.captured_blue@ == old.captured_blue@ + losses(old.board, from, to, Side::Blue)
            &&& new.captured_red@ == old.captured_red@ + losses(old.board, from, to, Side::Red)
            &&& new.last_move == Some((from, to))
            &&& new.shuttle_of(side) == next_shuttle(old.shuttle_of(side), from, to)
            &&& new.shuttle_of(side.opponent()) == old.shuttle_of(side.opponent())
            &&& if ends_game(report, new.board, side) {
                &&& new.phase == Phase::GameOver(side)
                &&& new.undo_snapshot is None
                &&& new.pending_transition == old.pending_transition
                &&& new.pending_handoff == old.pending_handoff
                &&& !new.pending_attack
            } else {
                awaits_confirmation(new, old, Phase::Playing(side.opponent()), side, report is Some)
            }
        },
    }
}

/// The square can take a piece of `side` in a random setup: it is empty or
/// holds one of `side`'s own pieces (which is lifted first).
pub open spec fn free_for(sq: Square, side: Side) -> bool {
    match sq {
        Square::Empty => true,
        Square::Occupied(p) => p.owner == side,
        Square::Lake => false,
    }
}

/// Pieces of `side` and `rank` standing outside `side`'s home rows.
pub open spec fn pieces_away(board: Board, side: Side, rank: Rank) -> nat {
    match side {
        Side::Red => count::count_in_rows(board, side, rank, 4, 10),
        Side::Blue => count::count_in_rows(board, side, rank, 0, 6),
    }
}

/// Home squares of `side` among the first `n` columns of row `r` that are
/// free for it.
pub open spec fn free_in_row(board: Board, side: Side, r: int, n: int) -> nat
    decreases n,
{
    if n <= 0 {
        0
    } else {
        free_in_row(board, side, r, n - 1) + if in_home_rows(side, r) && free_for(
            board.at(r, n - 1),
            side,
        ) {
            1nat
        } else {
            0nat
        }
    }
}

/// Home squares of `side` in rows `lo..hi` that are free for it.
pub open spec fn free_in_rows(board: Board, side: Side, lo: int, hi: int) -> nat
    decreases hi - lo,
{
    if hi <= lo {
        0
    } else {
        free_in_rows(board, side, lo, hi - 1) + free_in_row(board, side, hi - 1, 10)
    }
}

/// Home squares of `side` that a random setup may fill: empty, or holding
/// an own piece that is lifted first.
pub open spec fn free_home_squares(board: Board, side: Side) -> nat {
    free_in_rows(board, side, 0, 10)
}

/// Pieces of `side` off its home rows, for the first `k` ranks in canonical
/// order.
pub open spec fn away_sum(board: Board, side: Side, k: int) -> nat
    decreases k,
{
    if k <= 0 {
        0
    } else {
        away_sum(board, side, k - 1) + pieces_away(board, side, Rank::all_ranks()[k - 1])
    }
}

/// All pieces of `side` standing off its home rows.
pub open spec fn away_total(board: Board, side: Side) -> nat {
    away_sum(board, side, 12)
}

/// The home rows of `side` can take a whole set: they hold no opposing piece,
/// and no piece of `side` stands anywhere else.
pub open spec fn room_for_full_set(board: Board, side: Side) -> bool {
    forall|r: int, c: int|
        on_board(r, c) ==> if in_home_rows(side, r) {
            free_for(#[trigger] board.at(r, c), side)
        } else {
            !(board.at(r, c) matches Square::Occupied(p) && p.owner == side)
        }
}

/// Every square of `side`'s home rows holds a fresh (unrevealed) piece of
/// `side`.
pub open spec fn home_rows_filled(board: Board, side: Side) -> bool {
    forall|r: int, c: int|
        on_board(r, c) && in_home_rows(side, r) ==> (#[trigger] board.at(r, c) matches Square::Occupied(
            p,
        ) && p.owner == side && !p.revealed)
}

/// `new` is `old` after `side`'s pieces were scattered over its home rows:
/// squares off those rows, and home squares held by anything but an own
/// piece or nothing, are as they were; every other home square is empty or
/// holds a fresh (unrevealed) piece of `side`.
pub open spec fn scattered(old: Board, new: Board, side: Side) -> bool {
    forall|r: int, c: int|
        on_board(r, c) ==> if in_home_rows(side, r) && free_for(old.at(r, c), side) {
            (#[trigger] new.at(r, c) == Square::Empty || (new.at(r, c) matches Square::Occupied(p)
                && p.owner == side && !p.revealed))
        } else {
            new.at(r, c) == old.at(r, c)
        }
}

/// Length of the pairing of two lists: the shorter one's.
pub open spec fn pair_len(a: int, b: int) -> int {
    if a < b {
        a
    } else {
        b
    }
}

/// The square holds a piece of `side`.
pub open spec fn is_own(sq: Square, side: Side) -> bool {
    sq matches Square::Occupied(p) && p.owner == side
}

/// The square with an own piece of `side` lifted off.
pub open spec fn lifted(sq: Square, side: Side) -> Square {
    if is_own(sq, side) {
        Square::Empty
    } else {
        sq
    }
}

/// Home squares of `side` among the cells before `(row, col)` in row-major
/// order.
pub open spec fn home_cells_before(side: Side, row: int, col: int) -> int {
    let lo = board::home_lo(side);
    let rows = if row <= lo {
        0
    } else if row >= lo + 4 {
        4
    } else {
        row - lo
    };
    10 * rows + if in_home_rows(side, row) {
        col
    } else {
        0
    }
}

impl UndoSnapshot {
    /// The snapshot holds exactly the restorable part of `g`.
    pub open spec fn saves(&self, g: &GameState) -> bool {
        &&& self.board == g.board
        &&& self.last_move == g.last_move
        &&& self.captured_blue@ == g.captured_blue@
        &&& self.captured_red@ == g.captured_red@
        &&& self.shuttle_blue == g.shuttle_blue
        &&& self.shuttle_red == g.shuttle_red
    }
}

impl GameState {
    /// A fresh game: empty board, Blue to set up, nothing pending or recorded.
    pub open spec fn is_new_game(&self) -> bool {
        &&& self.board.is_fresh()
        &&& self.phase == Phase::SetupBlue
        &&& self.pending_transition is None
        &&& self.pending_handoff is None
        &&& !self.pending_attack
        &&& self.undo_snapshot is None
        &&& self.last_move is None
        &&& self.captured_blue@ == Seq::<Rank>::empty()
        &&& self.captured_red@ == Seq::<Rank>::empty()
        &&& self.shuttle_blue is None
        &&& self.shuttle_red is None
    }

    /// The handoff bookkeeping is consistent: a confirmation is pending
    /// exactly when a transition is queued and a snapshot is held, and the
    /// attack flag is only raised beside a pending confirmation. Every side
    /// keeps within its piece quota, on the board and in the snapshot, and no
    /// shuttle streak is longer than three hops.
    pub open spec fn wf(&self) -> bool {
        &&& self.pending_handoff is Some <==> self.pending_transition is Some
        &&& self.pending_handoff is Some <==> self.undo_snapshot is Some
        &&& self.pending_attack ==> self.pending_handoff is Some
        &&& shuttle_ok(self.shuttle_blue)
        &&& shuttle_ok(self.shuttle_red)
        &&& within_quota(self.board, Side::Blue)
        &&& within_quota(self.board, Side::Red)
        &&& (self.undo_snapshot matches Some(s) ==> within_quota(s.board, Side::Blue)
            && within_quota(s.board, Side::Red) && shuttle_ok(s.shuttle_blue) && shuttle_ok(
            s.shuttle_red,
        ))
    }

    /// All fields but the board are as in `old`.
    pub open spec fn same_except_board(&self, old: &GameState) -> bool {
        &&& self.phase == old.phase
        &&& self.pending_transition == old.pending_transition
        &&& self.pending_handoff == old.pending_handoff
        &&& self.pending_attack == old.pending_attack
        &&& self.undo_snapshot == old.undo_snapshot
        &&& self.last_move == old.last_move
        &&& self.captured_blue@ == old.captured_blue@
        &&& self.captured_red@ == old.captured_red@
        &&& self.shuttle_blue == old.shuttle_blue
        &&& self.shuttle_red == old.shuttle_red
    }

    pub open spec fn shuttle_of(&self, side: Side) -> Option<Shuttle> {
        match side {
            Side::Blue => self.shuttle_blue,
            Side::Red => self.shuttle_red,
        }
    }

    pub open spec fn captured_of(&self, side: Side) -> Seq<Rank> {
        match side {
            Side::Blue => self.captured_blue@,
            Side::Red => self.captured_red@,
        }
    }

    /// The side that has control in the current phase (the winner once the
    /// game is over).
    pub open spec fn controller(&self) -> Side {
        match self.phase {
            Phase::SetupBlue => Side::Blue,
            Phase::SetupRed => Side::Red,
            Phase::Playing(s) => s,
            Phase::GameOver(winner) => winner,
        }
    }

    /// What `place_piece` answers: a pending handoff, the wrong phase, or the
    /// first placement rule that fails; `Ok` when the piece may go down.
    pub open spec fn place_outcome(&self, side: Side, pos: Pos, rank: Rank) -> Result<(), ActionError> {
        if self.pending_handoff is Some {
            Err(ActionError::HandoffPending)
        } else if self.phase != setup_phase(side) {
            Err(ActionError::WrongPhase)
        } else {
            match placement_check(self.board, side, pos, rank) {
                Err(e) => Err(ActionError::Placement(e)),
                Ok(_) => Ok(()),
            }
        }
    }

    /// What `unplace_piece` answers: `Ok` when `side` is setting up and has a
    /// piece at `pos`.
    pub open spec fn unplace_outcome(&self, side: Side, pos: Pos) -> Result<(), ActionError> {
        if self.pending_handoff is Some {
            Err(ActionError::HandoffPending)
        } else if self.phase != setup_phase(side) {
            Err(ActionError::WrongPhase)
        } else {
            match self.board.at_pos(pos) {
                Square::Occupied(p) => if p.owner == side {
                    Ok(())
                } else {
                    Err(ActionError::Placement(PlaceError::SquareOccupied))
                },
                _ => Err(ActionError::Placement(PlaceError::SquareOccupied)),
            }
        }
    }

    /// What `reposition_piece` answers. The piece is lifted off `from` first,
    /// so the destination checks see `from` empty and one piece fewer of
    /// its rank.
    pub open spec fn reposition_outcome(&self, side: Side, from: Pos, to: Pos) -> Result<(), ActionError> {
        if self.pending_handoff is Some {
            Err(ActionError::HandoffPending)
        } else if self.phase != setup_phase(side) {
            Err(ActionError::WrongPhase)
        } else {
            match self.board.at_pos(from) {
                Square::Occupied(p) => if p.owner != side {
                    Err(ActionError::Placement(PlaceError::SquareOccupied))
                } else if !in_home_rows(side, to.0 as int) {
                    Err(ActionError::Placement(PlaceError::NotHomeRow))
                } else {
                    let dest = if to == from {
                        Square::Empty
                    } else {
                        self.board.at_pos(to)
                    };
                    match dest {
                        Square::Lake => Err(ActionError::Placement(PlaceError::SquareIsLake)),
                        Square::Occupied(_) => Err(
                            ActionError::Placement(PlaceError::SquareOccupied),
                        ),
                        Square::Empty => if count::pieces_of(self.board, side, p.rank) - 1
                            >= p.rank.quota() {
                            Err(ActionError::Placement(PlaceError::RankQuotaExceeded))
                        } else {
                            Ok(())
                        },
                    }
                },
                _ => Err(ActionError::Placement(PlaceError::SquareOccupied)),
            }
        }
    }

    pub fn new() -> (g: Self)
        ensures
            g.is_new_game(),
            g.wf(),
    {
        let g = GameState {
            board: Board::new(),
            phase: Phase::SetupBlue,
            pending_transition: None,
            pending_handoff: None,
            pending_attack: false,
            undo_snapshot: None,
            last_move: None,
            captured_blue: Vec::new(),
            captured_red: Vec::new(),
            shuttle_blue: None,
            shuttle_red: None,
        };
        proof {
            lemma_fresh_board_is_empty(g.board);
        }
        g
    }

    /// Throws everything away and starts over at Blue's setup. Has no
    /// preconditions: allowed mid-game and while a handoff is pending.
    pub fn reset(&mut self)
        ensures
            final(self).is_new_game(),
            final(self).wf(),
    {
        *self = GameState::new();
    }
    pub fn status(&self) -> (s: StatusDto)
        ensures
            s.phase == phase_dto(self.phase),
            self.phase matches Phase::GameOver(w) ==> s.phase == (PhaseDto::GameOver { winner: w }),
            self.phase matches Phase::Playing(t) ==> s.phase == (PhaseDto::Playing { turn: t }),
            s.pending_handoff == self.pending_handoff,
            s.pending_attack == self.pending_attack,
            s.last_move == last_move_dto(self.last_move),
            s.captured_blue@ == self.captured_blue@,
            s.captured_red@ == self.captured_red@,
    {
        let last_move = match self.last_move {
            Some((from, to)) => Some(
                LastMoveDto { from_row: from.0, from_col: from.1, to_row: to.0, to_col: to.1 },
            ),
            None => None,
        };
        StatusDto {
            phase: PhaseDto::from(self.phase),
            pending_handoff: self.pending_handoff,
            pending_attack: self.pending_attack,
            last_move,
            captured_blue: copy_ranks(&self.captured_blue),
            captured_red: copy_ranks(&self.captured_red),
        }
    }

    /// The whole board as `viewer` may see it, row by row.
    pub fn board_view(&self, viewer: Side) -> (v: BoardView)
        ensures
            v@.len() == SIZE,
            forall|r: int| 0 <= r < SIZE ==> (#[trigger] v@[r])@.len() == SIZE,
            forall|r: int, c: int|
                on_board(r, c) ==> #[trigger] v@[r]@[c] == view_of(self.board.at(r, c), viewer, self.phase),
    {
        let mut v: BoardView = Vec::new();
        let mut row: usize = 0;
        while row < SIZE
            invariant
                row <= SIZE,
                v@.len() == row,
                forall|r: int| 0 <= r < row ==> (#[trigger] v@[r])@.len() == SIZE,
                forall|r: int, c: int|
                    0 <= r < row && 0 <= c < SIZE ==> #[trigger] v@[r]@[c] == view_of(
                        self.board.at(r, c),
                        viewer,
                        self.phase,
                    ),
            decreases SIZE - row,
        {
            let mut line: Vec<SquareView> = Vec::new();
            let mut col: usize = 0;
            while col < SIZE
                invariant
                    row < SIZE,
                    col <= SIZE,
                    line@.len() == col,
                    forall|c: int|
                        0 <= c < col ==> #[trigger] line@[c] == view_of(
                            self.board.at(row as int, c),
                            viewer,
                            self.phase,
                        ),
                decreases SIZE - col,
            {
                line.push(square_view(self.board.squares[row][col], viewer, self.phase));
                col += 1;
            }
            v.push(line);
            row += 1;
        }
        v
    }

    pub fn place_piece(&mut self, side: Side, pos: Pos, rank: Rank) -> (r: Result<(), ActionError>)
        requires
            old(self).pending_handoff is None && old(self).phase == setup_phase(side)
                && in_home_rows(side, pos.0 as int) ==> pos.1 < SIZE,
        ensures
            r == old(self).place_outcome(side, pos, rank),
            r is Err ==> *final(self) == *old(self),
            r is Ok ==> final(self).board.is_update(
                &old(self).board,
                pos,
                Square::Occupied(Piece { owner: side, rank, revealed: false }),
            ) && final(self).same_except_board(old(self)),
            old(self).wf() ==> final(self).wf(),
    {
        if let Err(e) = self.expect_no_pending() {
            return Err(e);
        }
        let expected = match side {
            Side::Blue => Phase::SetupBlue,
            Side::Red => Phase::SetupRed,
        };
        if self.phase != expected {
            return Err(ActionError::WrongPhase);
        }
        if let Err(e) = rules::validate_placement(&self.board, side, pos, rank) {
            return Err(ActionError::Placement(e));
        }
        let ghost before = self.board;
        self.board.set(pos, Square::Occupied(Piece::new(side, rank)));
        proof {
            if old(self).wf() {
                count::lemma_update_within_quota(self.board, before, pos, Square::Occupied(Piece { owner: side, rank, revealed: false }), side);
                count::lemma_update_within_quota(self.board, before, pos, Square::Occupied(Piece { owner: side, rank, revealed: false }), side.opponent());
            }
        }
        Ok(())
    }

    /// Takes a piece back off the board during one's own setup phase.
    pub fn unplace_piece(&mut self, side: Side, pos: Pos) -> (r: Result<(), ActionError>)
        requires
            old(self).pending_handoff is None && old(self).phase == setup_phase(side) ==> pos.0 < SIZE
                && pos.1 < SIZE,
        ensures
            r == old(self).unplace_outcome(side, pos),
            r is Err ==> *final(self) == *old(self),
            r is Ok ==> final(self).board.is_update(&old(self).board, pos, Square::Empty)
                && final(self).same_except_board(old(self)),
            old(self).wf() ==> final(self).wf(),
    {
        if let Err(e) = self.expect_no_pending() {
            return Err(e);
        }
        let expected = match side {
            Side::Blue => Phase::SetupBlue,
            Side::Red => Phase::SetupRed,
        };
        if self.phase != expected {
            return Err(ActionError::WrongPhase);
        }
        match self.board.get(pos) {
            Square::Occupied(p) => {
                if p.owner == side {
                    let ghost before = self.board;
                    self.board.set(pos, Square::Empty);
                    proof {
                        if old(self).wf() {
                            count::lemma_update_within_quota(self.board, before, pos, Square::Empty, Side::Blue);
                            count::lemma_update_within_quota(self.board, before, pos, Square::Empty, Side::Red);
                        }
                    }
                    Ok(())
                } else {
                    Err(ActionError::Placement(PlaceError::SquareOccupied))
                }
            },
            _ => Err(ActionError::Placement(PlaceError::SquareOccupied)),
        }
    }

    /// Moves a placed piece to another square during one's own setup phase,
    /// lifting it off `from` first so it does not count against its own
    /// quota, and putting it back when the destination is refused.
    pub fn reposition_piece(&mut self, side: Side, from: Pos, to: Pos) -> (r: Result<(), ActionError>)
        requires
            old(self).pending_handoff is None && old(self).phase == setup_phase(side) ==> from.0
                < SIZE && from.1 < SIZE,
            old(self).pending_handoff is None && old(self).phase == setup_phase(side)
                && is_own(old(self).board.at_pos(from), side) && in_home_rows(side, to.0 as int)
                ==> to.1 < SIZE,
        ensures
            r == old(self).reposition_outcome(side, from, to),
            r is Err ==> *final(self) == *old(self),
            r is Ok ==> final(self).same_except_board(old(self)) && (forall|rr: int, cc: int|
                on_board(rr, cc) ==> #[trigger] final(self).board.at(rr, cc) == if rr == to.0 && cc
                    == to.1 {
                    old(self).board.at_pos(from)
                } else if rr == from.0 && cc == from.1 {
                    Square::Empty
                } else {
                    old(self).board.at(rr, cc)
                }),
            old(self).wf() ==> final(self).wf(),
    {
        if let Err(e) = self.expect_no_pending() {
            return Err(e);
        }
        let expected = match side {
            Side::Blue => Phase::SetupBlue,
            Side::Red => Phase::SetupRed,
        };
        if self.phase != expected {
            return Err(ActionError::WrongPhase);
        }
        let piece = match self.board.get(from) {
            Square::Occupied(p) => {
                if p.owner == side {
                    p
                } else {
                    return Err(ActionError::Placement(PlaceError::SquareOccupied));
                }
            },
            _ => return Err(ActionError::Placement(PlaceError::SquareOccupied)),
        };
        let ghost start = self.board;
        self.board.set(from, Square::Empty);
        let ghost lifted = self.board;
        proof {
            count::lemma_pieces_of_update(lifted, start, from, Square::Empty, side, piece.rank);
        }
        if let Err(e) = rules::validate_placement(&self.board, side, to, piece.rank) {
            self.board.set(from, Square::Occupied(piece));
            proof {
                lemma_board_ext(self.board, start);
            }
            return Err(ActionError::Placement(e));
        }
        self.board.set(to, Square::Occupied(piece));
        proof {
            if old(self).wf() {
                count::lemma_update_within_quota(lifted, start, from, Square::Empty, Side::Blue);
                count::lemma_update_within_quota(lifted, start, from, Square::Empty, Side::Red);
                count::lemma_update_within_quota(self.board, lifted, to, Square::Occupied(piece), side);
                count::lemma_update_within_quota(self.board, lifted, to, Square::Occupied(piece), side.opponent());
            }
        }
        Ok(())
    }

    /// Clears every piece `side` has on its home rows and scatters the full
    /// set across them at random, so repeated calls keep reshuffling into a
    /// fresh layout rather than only filling in what is left.
    pub fn random_setup(&mut self, side: Side) -> (r: Result<(), ActionError>)
        requires
            old(self).pending_handoff is None && old(self).phase == setup_phase(side) ==> forall|
                rank: Rank,
            | #[trigger] pieces_away(old(self).board, side, rank) <= rank.quota(),
        ensures
            r == if old(self).pending_handoff is Some {
                Err(ActionError::HandoffPending)
            } else if old(self).phase != setup_phase(side) {
                Err(ActionError::WrongPhase)
            } else {
                Ok(())
            },
            r is Err ==> *final(self) == *old(self),
            r is Ok ==> {
                &&& final(self).same_except_board(old(self))
                &&& scattered(old(self).board, final(self).board, side)
                &&& within_quota(final(self).board, side)
                &&& forall|rank: Rank|
                    #[trigger] count::pieces_of(final(self).board, side.opponent(), rank)
                        == count::pieces_of(old(self).board, side.opponent(), rank)
                &&& room_for_full_set(old(self).board, side) ==> full_set(final(self).board, side)
                &&& room_for_full_set(old(self).board, side) ==> home_rows_filled(
                    final(self).board,
                    side,
                )
                &&& count::own_pieces(final(self).board, side) == away_total(old(self).board, side)
                    + pair_len(
                    free_home_squares(old(self).board, side) as int,
                    SET_SIZE - away_total(old(self).board, side),
                )
            },
            old(self).wf() ==> final(self).wf(),
    {
        if let Err(e) = self.expect_no_pending() {
            return Err(e);
        }
        let expected = match side {
            Side::Blue => Phase::SetupBlue,
            Side::Red => Phase::SetupRed,
        };
        if self.phase != expected {
            return Err(ActionError::WrongPhase);
        }
        let ghost before = *self;
        let ghost b_old = self.board;
        // Lift every own piece off the home rows.
        let mut row: usize = 0;
        while row < SIZE
            invariant
                row <= SIZE,
                self.same_except_board(&before),
                b_old == before.board,
                forall|r: int, c: int|
                    on_board(r, c) ==> #[trigger] self.board.at(r, c) == if r < row && in_home_rows(
                        side,
                        r,
                    ) {
                        lifted(b_old.at(r, c), side)
                    } else {
                        b_old.at(r, c)
                    },
            decreases SIZE - row,
        {
            let mut col: usize = 0;
            while col < SIZE
                invariant
                    row < SIZE,
                    col <= SIZE,
                    self.same_except_board(&before),
                    b_old == before.board,
                    forall|r: int, c: int|
                        on_board(r, c) ==> #[trigger] self.board.at(r, c) == if (r < row || (r
                            == row && c < col)) && in_home_rows(side, r) {
                            lifted(b_old.at(r, c), side)
                        } else {
                            b_old.at(r, c)
                        },
                decreases SIZE - col,
            {
                if Board::is_home_row(side, (row, col)) {
                    if let Square::Occupied(p) = self.board.get((row, col)) {
                        if p.owner == side {
                            self.board.set((row, col), Square::Empty);
                        }
                    }
                }
                col += 1;
            }
            row += 1;
        }
        let ghost lifted_board = self.board;
        proof {
            lemma_lifted_counts(b_old, lifted_board, side);
        }
        // The free home squares, in row-major order.
        let mut empties: Vec<Pos> = Vec::new();
        let mut row: usize = 0;
        while row < SIZE
            invariant
                row <= SIZE,
                self.board == lifted_board,
                forall|r: int, c: int|
                    on_board(r, c) ==> #[trigger] lifted_board.at(r, c) == if in_home_rows(side, r) {
                        lifted(b_old.at(r, c), side)
                    } else {
                        b_old.at(r, c)
                    },
                forall|j: int|
                    0 <= j < empties@.len() ==> {
                        let e = #[trigger] empties@[j];
                        &&& e.0 < SIZE && e.1 < SIZE
                        &&& e.0 < row
                        &&& in_home_rows(side, e.0 as int)
                        &&& lifted_board.at_pos(e) == Square::Empty
                    },
                empties@.no_duplicates(),
                room_for_full_set(b_old, side) ==> empties@.len() == home_cells_before(
                    side,
                    row as int,
                    0,
                ),
                empties@.len() == free_in_rows(b_old, side, 0, row as int),
                room_for_full_set(b_old, side) ==> forall|r: int, c: int|
                    on_board(r, c) && in_home_rows(side, r) && r < row ==> #[trigger] empties@.contains(
                        (r as usize, c as usize),
                    ),
            decreases SIZE - row,
        {
            let mut col: usize = 0;
            while col < SIZE
                invariant
                    row < SIZE,
                    col <= SIZE,
                    self.board == lifted_board,
                    forall|r: int, c: int|
                        on_board(r, c) ==> #[trigger] lifted_board.at(r, c) == if in_home_rows(
                            side,
                            r,
                        ) {
                            lifted(b_old.at(r, c), side)
                        } else {
                            b_old.at(r, c)
                        },
                    forall|j: int|
                        0 <= j < empties@.len() ==> {
                            let e = #[trigger] empties@[j];
                            &&& e.0 < SIZE && e.1 < SIZE
                            &&& (e.0 < row || (e.0 == row && e.1 < col))
                            &&& in_home_rows(side, e.0 as int)
                            &&& lifted_board.at_pos(e) == Square::Empty
                        },
                    empties@.no_duplicates(),
                    room_for_full_set(b_old, side) ==> empties@.len() == home_cells_before(
                        side,
                        row as int,
                        col as int,
                    ),
                    empties@.len() == free_in_rows(b_old, side, 0, row as int) + free_in_row(
                        b_old,
                        side,
                        row as int,
                        col as int,
                    ),
                    room_for_full_set(b_old, side) ==> forall|r: int, c: int|
                        on_board(r, c) && in_home_rows(side, r) && (r < row || (r == row && c < col))
                            ==> #[trigger] empties@.contains((r as usize, c as usize)),
                decreases SIZE - col,
            {
                if Board::is_home_row(side, (row, col)) {
                    if let Square::Empty = self.board.get((row, col)) {
                        let ghost prev = empties@;
                        empties.push((row, col));
                        assert(empties@[prev.len() as int] == (row, col));
                        assert forall|x: Pos| prev.contains(x) implies empties@.contains(x) by {
                            let k = choose|k: int| 0 <= k < prev.len() && prev[k] == x;
                            assert(empties@[k] == x);
                        }
                        assert(empties@.contains((row, col)));
                        assert forall|r: int, c: int|
                            on_board(r, c) && in_home_rows(side, r) && (r < row || (r == row && c
                                < col + 1)) && room_for_full_set(b_old, side) implies #[trigger] empties@.contains(
                            (r as usize, c as usize),
                        ) by {
                            if r == row && c == col {
                                assert((r as usize, c as usize) == (row, col));
                            } else {
                                assert(prev.contains((r as usize, c as usize)));
                            }
                        }
                        assert forall|j: int, k: int|
                            0 <= j < empties@.len() && 0 <= k < empties@.len() && j != k implies
                            empties@[j] != empties@[k] by {
                            if j < prev.len() && k < prev.len() {
                                assert(prev[j] != prev[k]);
                            }
                        }
                    } else {
                        proof {
                            if room_for_full_set(b_old, side) {
                                assert(free_for(b_old.at(row as int, col as int), side));
                            }
                        }
                    }
                }
                col += 1;
            }
            row += 1;
        }
        let mut ranks = rules::remaining_ranks(&self.board, side);
        let mut rng = random::thread_rng();
        let ghost empties_in_order = empties@;
        let ghost ranks_in_order = ranks@;
        random::shuffle(&mut empties, &mut rng);
        random::shuffle(&mut ranks, &mut rng);
        proof {
            lemma_permutation_keeps(empties_in_order, empties@);
            rules::lemma_missing_len(lifted_board, side, 12);
            piece::lemma_set_size();
            assert(home_cells_before(side, 10, 0) == 40);
            if room_for_full_set(b_old, side) {
                lemma_room_means_whole_set_missing(b_old, lifted_board, side);
            }
        }
        let ghost n = pair_len(empties@.len() as int, ranks@.len() as int);
        self.deal_pieces(side, &empties, &ranks);
        proof {
            lemma_scatter_result(b_old, lifted_board, self.board, side, empties@, ranks@, n);
            // Count what was dealt: one piece per pair.
            count::lemma_own_pieces_by_rank(self.board, side);
            lemma_rank_sum_add(lifted_board, self.board, side, ranks@.take(n), 12);
            lemma_rank_tally_len(ranks@.take(n));
            lemma_away_sum(b_old, lifted_board, side, 12);
            rules::lemma_missing_len_exact(lifted_board, side, 12);
        }
        Ok(())
    }

    /// Pairs `squares` with `ranks` in order, until the shorter list ends,
    /// and puts a fresh piece of `side` of rank `ranks[i]` on `squares[i]`.
    pub fn deal_pieces(&mut self, side: Side, squares: &Vec<Pos>, ranks: &Vec<Rank>)
        requires
            squares@.no_duplicates(),
            forall|j: int|
                0 <= j < squares@.len() ==> {
                    let e = #[trigger] squares@[j];
                    &&& e.0 < SIZE && e.1 < SIZE
                    &&& old(self).board.at_pos(e) == Square::Empty
                },
        ensures
            final(self).same_except_board(old(self)),
            forall|j: int|
                0 <= j < pair_len(squares@.len() as int, ranks@.len() as int)
                    ==> #[trigger] final(self).board.at_pos(squares@[j]) == Square::Occupied(
                    Piece { owner: side, rank: ranks@[j], revealed: false },
                ),
            forall|r: int, c: int|
                on_board(r, c) && !squares@.take(
                    pair_len(squares@.len() as int, ranks@.len() as int),
                ).contains((r as usize, c as usize)) ==> #[trigger] final(self).board.at(r, c)
                    == old(self).board.at(r, c),
            forall|rank: Rank|
                #[trigger] count::pieces_of(final(self).board, side, rank) == count::pieces_of(
                    old(self).board,
                    side,
                    rank,
                ) + ranks@.take(pair_len(squares@.len() as int, ranks@.len() as int)).to_multiset().count(
                    rank,
                ),
            forall|rank: Rank|
                #[trigger] count::pieces_of(final(self).board, side.opponent(), rank)
                    == count::pieces_of(old(self).board, side.opponent(), rank),
    {
        let ghost start = self.board;
        let n: usize = if squares.len() < ranks.len() {
            squares.len()
        } else {
            ranks.len()
        };
        let mut i: usize = 0;
        proof {
            broadcast use vstd::seq_lib::group_to_multiset_ensures;

            assert(ranks@.take(0) =~= Seq::<Rank>::empty());
            assert(squares@.take(0) =~= Seq::<Pos>::empty());
        }
        while i < n
            invariant
                n == pair_len(squares@.len() as int, ranks@.len() as int),
                n <= squares@.len(),
                n <= ranks@.len(),
                i <= n,
                self.same_except_board(old(self)),
                start == old(self).board,
                forall|j: int|
                    0 <= j < squares@.len() ==> {
                        let e = #[trigger] squares@[j];
                        &&& e.0 < SIZE && e.1 < SIZE
                        &&& start.at_pos(e) == Square::Empty
                    },
                squares@.no_duplicates(),
                forall|j: int|
                    0 <= j < i ==> #[trigger] self.board.at_pos(squares@[j]) == Square::Occupied(
                        Piece { owner: side, rank: ranks@[j], revealed: false },
                    ),
                forall|r: int, c: int|
                    on_board(r, c) && !squares@.take(i as int).contains((r as usize, c as usize))
                        ==> #[trigger] self.board.at(r, c) == start.at(r, c),
                forall|rank: Rank|
                    #[trigger] count::pieces_of(self.board, side, rank) == count::pieces_of(
                        start,
                        side,
                        rank,
                    ) + ranks@.take(i as int).to_multiset().count(rank),
                forall|rank: Rank|
                    #[trigger] count::pieces_of(self.board, side.opponent(), rank)
                        == count::pieces_of(start, side.opponent(), rank),
            decreases n - i,
        {
            let pos = squares[i];
            let rank = ranks[i];
            let ghost prev = self.board;
            self.board.set(pos, Square::Occupied(Piece::new(side, rank)));
            proof {
                lemma_place_step(prev, self.board, start, pos, side, rank, squares@, ranks@, i as int);
            }
            i += 1;
        }
    }

    /// Ends `side`'s setup; the next phase waits for the handoff to be
    /// confirmed.
    pub fn finish_setup(&mut self, side: Side) -> (r: Result<(), ActionError>)
        ensures
            finish_effect(old(self), final(self), side, r),
            old(self).wf() ==> final(self).wf(),
    {
        if let Err(e) = self.expect_no_pending() {
            return Err(e);
        }
        let (expected, next) = match side {
            Side::Blue => (Phase::SetupBlue, Phase::SetupRed),
            Side::Red => (Phase::SetupRed, Phase::Playing(Side::Blue)),
        };
        if self.phase != expected {
            return Err(ActionError::WrongPhase);
        }
        if !rules::setup_complete(&self.board, side) {
            return Err(ActionError::SetupIncomplete);
        }
        self.take_snapshot();
        self.pending_transition = Some(next);
        self.pending_handoff = Some(side);
        self.pending_attack = false;
        Ok(())
    }

    /// Confirms the pending handoff: applies the queued phase transition,
    /// drops the snapshot and reports which side now has control.
    pub fn confirm_handoff(&mut self) -> (r: Result<Side, ActionError>)
        ensures
            confirm_effect(old(self), final(self), r),
            old(self).wf() ==> final(self).wf(),
    {
        let next_phase = match self.pending_transition.take() {
            Some(p) => p,
            None => return Err(ActionError::NoPendingHandoff),
        };
        self.pending_handoff = None;
        self.pending_attack = false;
        self.undo_snapshot = None;
        self.phase = next_phase;
        Ok(self.side_in_control())
    }

    /// Restores the snapshot taken right before the pending action, drops
    /// the queued transition and hands control back to the side that acted.
    pub fn cancel_handoff(&mut self) -> (r: Result<Side, ActionError>)
        ensures
            cancel_effect(old(self), final(self), r),
            old(self).wf() ==> final(self).wf(),
    {
        if self.pending_handoff.is_none() {
            return Err(ActionError::NoPendingHandoff);
        }
        if self.pending_attack {
            return Err(ActionError::CannotCancelAttack);
        }
        let acting_side = match self.pending_handoff.take() {
            Some(s) => s,
            None => return Err(ActionError::NoPendingHandoff),
        };
        if let Some(snapshot) = self.undo_snapshot.take() {
            self.board = snapshot.board;
            self.last_move = snapshot.last_move;
            self.captured_blue = snapshot.captured_blue;
            self.captured_red = snapshot.captured_red;
            self.shuttle_blue = snapshot.shuttle_blue;
            self.shuttle_red = snapshot.shuttle_red;
        }
        self.pending_transition = None;
        Ok(acting_side)
    }

    /// Plays `from -> to` for `side`, resolving combat when `to` holds an
    /// enemy piece. A game-ending move skips the handoff.
    pub fn make_move(&mut self, side: Side, from: Pos, to: Pos) -> (r: Result<
        Option<CombatResultDto>,
        ActionError,
    >)
        ensures
            move_effect(old(self), final(self), side, from, to, r),
            r is Ok ==> forall|s: Side, rank: Rank|
                #[trigger] count::pieces_of(final(self).board, s, rank) <= count::pieces_of(
                    old(self).board,
                    s,
                    rank,
                ),
            old(self).wf() ==> final(self).wf(),
    {
        if let Err(e) = self.expect_no_pending() {
            return Err(e);
        }
        if self.phase != Phase::Playing(side) {
            return Err(ActionError::WrongPhase);
        }
        if let Err(e) = rules::validate_move(&self.board, side, from, to) {
            return Err(ActionError::Move(e));
        }
        if self.violates_two_squares(side, from, to) {
            return Err(ActionError::Move(MoveError::TwoSquares));
        }
        let ghost before = *self;
        self.take_snapshot();
        let attacker = match self.board.get(from) {
            Square::Occupied(p) => p,
            _ => {
                proof {
                    assert(false);
                }
                return Ok(None);
            },
        };
        let ghost b0 = self.board;
        let combat_result = match self.board.get(to) {
            Square::Occupied(defender) => {
                let outcome = rules::resolve_combat(attacker.rank, defender.rank);
                self.apply_combat(from, to, attacker, defender, outcome);
                Some(
                    CombatResultDto {
                        row: to.0,
                        col: to.1,
                        attacker_owner: attacker.owner,
                        attacker_rank: attacker.rank,
                        defender_owner: defender.owner,
                        defender_rank: defender.rank,
                        outcome,
                    },
                )
            },
            _ => {
                self.board.set(to, Square::Occupied(attacker));
                let ghost b1 = self.board;
                self.board.set(from, Square::Empty);
                proof {
                    count::lemma_move_within_quota(b0, b1, self.board, from, to, Square::Occupied(attacker), Side::Blue);
                    count::lemma_move_within_quota(b0, b1, self.board, from, to, Square::Occupied(attacker), Side::Red);
                }
                proof {
                    assert forall|s: Side, rank: Rank|
                        #[trigger] count::pieces_of(self.board, s, rank) <= count::pieces_of(b0, s, rank) by {
                        match s {
                            Side::Blue => assert(count::pieces_of(self.board, Side::Blue, rank) <= count::pieces_of(b0, Side::Blue, rank)),
                            Side::Red => assert(count::pieces_of(self.board, Side::Red, rank) <= count::pieces_of(b0, Side::Red, rank)),
                        }
                    }
                }
                None
            },
        };
        self.last_move = Some((from, to));
        self.track_shuttle(side, from, to);
        let flag_captured = match combat_result {
            Some(c) => matches!(c.outcome, CombatOutcome::FlagCaptured),
            None => false,
        };
        let game_over = if flag_captured {
            true
        } else {
            let opponent = side.other();
            !rules::has_legal_move(&self.board, opponent)
        };
        if game_over {
            self.phase = Phase::GameOver(side);
            self.undo_snapshot = None;
            self.pending_attack = false;
        } else {
            self.pending_transition = Some(Phase::Playing(side.other()));
            self.pending_handoff = Some(side);
            self.pending_attack = combat_result.is_some();
        }
        Ok(combat_result)
    }

    fn shuttle(&self, side: Side) -> (r: &Option<Shuttle>)
        ensures
            *r == self.shuttle_of(side),
    {
        match side {
            Side::Blue => &self.shuttle_blue,
            Side::Red => &self.shuttle_red,
        }
    }

    /// The move would be the fourth consecutive hop within the same pair of
    /// squares. After `a -> b` the piece sits on `b`, so the only way to
    /// continue the shuttle is the exact reverse `b -> a`.
    fn violates_two_squares(&self, side: Side, from: Pos, to: Pos) -> (r: bool)
        ensures
            r == breaks_two_squares(self.shuttle_of(side), from, to),
    {
        match self.shuttle(side) {
            Some(s) => s.b.0 == from.0 && s.b.1 == from.1 && s.a.0 == to.0 && s.a.1 == to.1
                && s.count >= 3,
            None => false,
        }
    }

    /// Records the executed move: the reverse hop extends the streak,
    /// anything else starts a fresh pair at count 1.
    fn track_shuttle(&mut self, side: Side, from: Pos, to: Pos)
        requires
            !breaks_two_squares(old(self).shuttle_of(side), from, to),
        ensures
            final(self).shuttle_of(side) == next_shuttle(old(self).shuttle_of(side), from, to),
            final(self).shuttle_of(side.opponent()) == old(self).shuttle_of(side.opponent()),
            final(self).board == old(self).board,
            final(self).phase == old(self).phase,
            final(self).pending_transition == old(self).pending_transition,
            final(self).pending_handoff == old(self).pending_handoff,
            final(self).pending_attack == old(self).pending_attack,
            final(self).undo_snapshot == old(self).undo_snapshot,
            final(self).last_move == old(self).last_move,
            final(self).captured_blue@ == old(self).captured_blue@,
            final(self).captured_red@ == old(self).captured_red@,
            shuttle_ok(old(self).shuttle_of(side)) ==> shuttle_ok(final(self).shuttle_of(side)),
    {
        let slot = self.shuttle_mut(side);
        let count: u8 = match *slot {
            Some(s) => {
                if s.b.0 == from.0 && s.b.1 == from.1 && s.a.0 == to.0 && s.a.1 == to.1 {
                    s.count + 1
                } else {
                    1
                }
            },
            None => 1,
        };
        *slot = Some(Shuttle { a: from, b: to, count });
    }

    fn shuttle_mut(&mut self, side: Side) -> (r: &mut Option<Shuttle>)
        ensures
            *r == old(self).shuttle_of(side),
            final(self).shuttle_of(side) == *final(r),
            final(self).shuttle_of(side.opponent()) == old(self).shuttle_of(side.opponent()),
            final(self).board == old(self).board,
            final(self).phase == old(self).phase,
            final(self).pending_transition == old(self).pending_transition,
            final(self).pending_handoff == old(self).pending_handoff,
            final(self).pending_attack == old(self).pending_attack,
            final(self).undo_snapshot == old(self).undo_snapshot,
            final(self).last_move == old(self).last_move,
            final(self).captured_blue@ == old(self).captured_blue@,
            final(self).captured_red@ == old(self).captured_red@,
    {
        match side {
            Side::Blue => &mut self.shuttle_blue,
            Side::Red => &mut self.shuttle_red,
        }
    }

    fn record_loss(&mut self, side: Side, rank: Rank)
        ensures
            final(self).captured_of(side) == old(self).captured_of(side).push(rank),
            final(self).captured_of(side.opponent()) == old(self).captured_of(side.opponent()),
            final(self).board == old(self).board,
            final(self).phase == old(self).phase,
            final(self).pending_transition == old(self).pending_transition,
            final(self).pending_handoff == old(self).pending_handoff,
            final(self).pending_attack == old(self).pending_attack,
            final(self).undo_snapshot == old(self).undo_snapshot,
            final(self).last_move == old(self).last_move,
            final(self).shuttle_blue == old(self).shuttle_blue,
            final(self).shuttle_red == old(self).shuttle_red,
    {
        match side {
            Side::Blue => self.captured_blue.push(rank),
            Side::Red => self.captured_red.push(rank),
        }
    }

    /// Settles the clash on `to`: both pieces become known, the loser(s)
    /// leave the board and are recorded as lost, `from` is emptied.
    pub fn apply_combat(
        &mut self,
        from: Pos,
        to: Pos,
        attacker: Piece,
        defender: Piece,
        outcome: CombatOutcome,
    )
        requires
            from.0 < SIZE && from.1 < SIZE && to.0 < SIZE && to.1 < SIZE,
            from != to,
            old(self).board.at_pos(from) == Square::Occupied(attacker),
            old(self).board.at_pos(to) == Square::Occupied(defender),
            outcome == combat_outcome(attacker.rank, defender.rank),
        ensures
            forall|rr: int, cc: int|
                on_board(rr, cc) ==> #[trigger] final(self).board.at(rr, cc) == square_after_move(
                    old(self).board,
                    from,
                    to,
                    rr,
                    cc,
                ),
            final(self).captured_blue@ == old(self).captured_blue@ + losses(
                old(self).board,
                from,
                to,
                Side::Blue,
            ),
            final(self).captured_red@ == old(self).captured_red@ + losses(
                old(self).board,
                from,
                to,
                Side::Red,
            ),
            final(self).phase == old(self).phase,
            final(self).pending_transition == old(self).pending_transition,
            final(self).pending_handoff == old(self).pending_handoff,
            final(self).pending_attack == old(self).pending_attack,
            final(self).undo_snapshot == old(self).undo_snapshot,
            final(self).last_move == old(self).last_move,
            final(self).shuttle_blue == old(self).shuttle_blue,
            final(self).shuttle_red == old(self).shuttle_red,
            within_quota(old(self).board, Side::Blue) ==> within_quota(final(self).board, Side::Blue),
            within_quota(old(self).board, Side::Red) ==> within_quota(final(self).board, Side::Red),
            forall|s: Side, rank: Rank|
                #[trigger] count::pieces_of(final(self).board, s, rank) <= count::pieces_of(
                    old(self).board,
                    s,
                    rank,
                ),
    {
        let ghost b0 = self.board;
        let mut attacker = attacker;
        let mut defender = defender;
        attacker.revealed = true;
        defender.revealed = true;
        let landed = match outcome {
            CombatOutcome::AttackerWins | CombatOutcome::FlagCaptured => {
                self.record_loss(defender.owner, defender.rank);
                Square::Occupied(attacker)
            },
            CombatOutcome::DefenderWins => {
                self.record_loss(attacker.owner, attacker.rank);
                Square::Occupied(defender)
            },
            CombatOutcome::BothDestroyed => {
                self.record_loss(attacker.owner, attacker.rank);
                self.record_loss(defender.owner, defender.rank);
                Square::Empty
            },
        };
        self.board.set(to, landed);
        let ghost b1 = self.board;
        self.board.set(from, Square::Empty);
        proof {
            count::lemma_move_within_quota(b0, b1, self.board, from, to, landed, Side::Blue);
            count::lemma_move_within_quota(b0, b1, self.board, from, to, landed, Side::Red);
            assert forall|s: Side, rank: Rank|
                #[trigger] count::pieces_of(self.board, s, rank) <= count::pieces_of(b0, s, rank) by {
                match s {
                    Side::Blue => assert(count::pieces_of(self.board, Side::Blue, rank) <= count::pieces_of(b0, Side::Blue, rank)),
                    Side::Red => assert(count::pieces_of(self.board, Side::Red, rank) <= count::pieces_of(b0, Side::Red, rank)),
                }
            }
        }
    }

    /// Keeps what a cancelled handoff must restore.
    fn take_snapshot(&mut self)
        ensures
            final(self).undo_snapshot matches Some(s) && s.saves(old(self)),
            final(self).board == old(self).board,
            final(self).phase == old(self).phase,
            final(self).pending_transition == old(self).pending_transition,
            final(self).pending_handoff == old(self).pending_handoff,
            final(self).pending_attack == old(self).pending_attack,
            final(self).last_move == old(self).last_move,
            final(self).captured_blue@ == old(self).captured_blue@,
            final(self).captured_red@ == old(self).captured_red@,
            final(self).shuttle_blue == old(self).shuttle_blue,
            final(self).shuttle_red == old(self).shuttle_red,
    {
        self.undo_snapshot = Some(
            UndoSnapshot {
                board: Board { squares: self.board.squares },
                last_move: self.last_move,
                captured_blue: copy_ranks(&self.captured_blue),
                captured_red: copy_ranks(&self.captured_red),
                shuttle_blue: self.shuttle_blue,
                shuttle_red: self.shuttle_red,
            },
        );
    }

    fn expect_no_pending(&self) -> (r: Result<(), ActionError>)
        ensures
            r == if self.pending_handoff is Some {
                Err(ActionError::HandoffPending)
            } else {
                Ok(())
            },
    {
        if self.pending_handoff.is_some() {
            Err(ActionError::HandoffPending)
        } else {
            Ok(())
        }
    }

    fn side_in_control(&self) -> (r: Side)
        ensures
            r == self.controller(),
    {
        match self.phase {
            Phase::SetupBlue => Side::Blue,
            Phase::SetupRed => Side::Red,
            Phase::Playing(s) => s,
            Phase::GameOver(winner) => winner,
        }
    }
}

/// The fresh board holds no piece of any side, so it keeps every quota.
pub proof fn lemma_fresh_board_is_empty(board: Board)
    requires
        board.is_fresh(),
    ensures
        forall|side: Side, rank: Rank| #[trigger] count::pieces_of(board, side, rank) == 0,
        within_quota(board, Side::Blue),
        within_quota(board, Side::Red),
{
    assert forall|side: Side, rank: Rank| #[trigger] count::pieces_of(board, side, rank) == 0 by {
        count::lemma_count_none(board, side, rank, 0, 10);
    }
}

/// A copy of a list of ranks.
fn copy_ranks(v: &Vec<Rank>) -> (r: Vec<Rank>)
    ensures
        r@ == v@,
{
    let mut r: Vec<Rank> = Vec::new();
    let mut i: usize = 0;
    while i < v.len()
        invariant
            i <= v.len(),
            r@ == v@.take(i as int),
        decreases v.len() - i,
    {
        r.push(v[i]);
        i += 1;
        assert(r@ =~= v@.take(i as int));
    }
    assert(v@.take(v.len() as int) =~= v@);
    r
}

/// Filters a raw square into what `viewer` is allowed to see.
pub fn square_view(square: Square, viewer: Side, phase: Phase) -> (r: SquareView)
    ensures
        r == view_of(square, viewer, phase),
{
    match square {
        Square::Empty => SquareView::Empty,
        Square::Lake => SquareView::Lake,
        Square::Occupied(piece) => {
            let blind_setup = piece.owner != viewer && (phase == Phase::SetupBlue || phase
                == Phase::SetupRed);
            if blind_setup {
                SquareView::Empty
            } else if piece.owner == viewer || piece.revealed || matches!(phase, Phase::GameOver(_)) {
                SquareView::Piece { owner: piece.owner, rank: Some(piece.rank) }
            } else {
                SquareView::Piece { owner: piece.owner, rank: None }
            }
        },
    }
}

/// Lifting the own pieces off the home rows leaves exactly the own pieces
/// away from home, and the opponent's pieces untouched.
proof fn lemma_lifted_counts(old: Board, new: Board, side: Side)
    requires
        forall|r: int, c: int|
            on_board(r, c) ==> #[trigger] new.at(r, c) == if in_home_rows(side, r) {
                lifted(old.at(r, c), side)
            } else {
                old.at(r, c)
            },
    ensures
        forall|rank: Rank| #[trigger] count::pieces_of(new, side, rank) == pieces_away(old, side, rank),
        forall|rank: Rank|
            #[trigger] count::pieces_of(new, side.opponent(), rank) == count::pieces_of(
                old,
                side.opponent(),
                rank,
            ),
{
    assert forall|rank: Rank| #[trigger] count::pieces_of(new, side, rank) == pieces_away(old, side, rank) by {
        let (lo, hi): (int, int) = match side {
            Side::Red => (0, 4),
            Side::Blue => (6, 10),
        };
        let mid: int = match side {
            Side::Red => 4,
            Side::Blue => 6,
        };
        count::lemma_count_in_rows_split(new, side, rank, 0, mid, 10);
        assert forall|r: int, c: int|
            lo <= r < hi && 0 <= c < 10 implies !count::holds(#[trigger] new.at(r, c), side, rank) by {
            assert(on_board(r, c));
        }
        match side {
            Side::Red => {
                count::lemma_count_none(new, side, rank, 0, 4);
                assert forall|r: int, c: int|
                    4 <= r < 10 && 0 <= c < 10 implies count::holds(#[trigger] new.at(r, c), side, rank)
                    == count::holds(old.at(r, c), side, rank) by {
                    assert(on_board(r, c));
                }
                count::lemma_count_same_hits(new, old, side, rank, 4, 10);
            },
            Side::Blue => {
                count::lemma_count_none(new, side, rank, 6, 10);
                assert forall|r: int, c: int|
                    0 <= r < 6 && 0 <= c < 10 implies count::holds(#[trigger] new.at(r, c), side, rank)
                    == count::holds(old.at(r, c), side, rank) by {
                    assert(on_board(r, c));
                }
                count::lemma_count_same_hits(new, old, side, rank, 0, 6);
            },
        }
    }
    assert forall|rank: Rank|
        #[trigger] count::pieces_of(new, side.opponent(), rank) == count::pieces_of(
            old,
            side.opponent(),
            rank,
        ) by {
        assert forall|r: int, c: int|
            0 <= r < 10 && 0 <= c < 10 implies count::holds(#[trigger] new.at(r, c), side.opponent(), rank)
            == count::holds(old.at(r, c), side.opponent(), rank) by {
            assert(on_board(r, c));
        }
        count::lemma_count_same_hits(new, old, side.opponent(), rank, 0, 10);
    }
}

/// A reordering keeps a list free of repeats and keeps every element.
proof fn lemma_permutation_keeps<A>(a: Seq<A>, b: Seq<A>)
    requires
        a.no_duplicates(),
        b.to_multiset() == a.to_multiset(),
    ensures
        b.no_duplicates(),
        forall|j: int| 0 <= j < b.len() ==> a.contains(#[trigger] b[j]),
        forall|x: A| a.contains(x) ==> #[trigger] b.contains(x),
{
    broadcast use vstd::seq_lib::group_to_multiset_ensures;

    a.lemma_multiset_has_no_duplicates();
    b.lemma_multiset_has_no_duplicates_conv();
    assert forall|j: int| 0 <= j < b.len() implies a.contains(#[trigger] b[j]) by {
        assert(b.to_multiset().contains(b[j]));
    }
    assert forall|x: A| a.contains(x) implies #[trigger] b.contains(x) by {
        assert(a.to_multiset().contains(x));
    }
}

/// When the home rows have room for a full set, nothing of `side` is left on
/// the board once its home pieces are lifted, so all forty pieces are to be
/// placed.
proof fn lemma_room_means_whole_set_missing(old: Board, lifted_board: Board, side: Side)
    requires
        room_for_full_set(old, side),
        forall|r: int, c: int|
            on_board(r, c) ==> #[trigger] lifted_board.at(r, c) == if in_home_rows(side, r) {
                lifted(old.at(r, c), side)
            } else {
                old.at(r, c)
            },
    ensures
        rules::missing_ranks(lifted_board, side, 12).len() == SET_SIZE,
{
    assert forall|rank: Rank| #[trigger] count::pieces_of(lifted_board, side, rank) == 0 by {
        assert forall|r: int, c: int|
            0 <= r < 10 && 0 <= c < 10 implies !count::holds(#[trigger] lifted_board.at(r, c), side, rank) by {
            assert(on_board(r, c));
        }
        count::lemma_count_none(lifted_board, side, rank, 0, 10);
    }
    count::lemma_rank_sum_zero(lifted_board, side, 12);
    assert(within_quota(lifted_board, side));
    rules::lemma_missing_len_exact(lifted_board, side, 12);
    piece::lemma_set_size();
}

/// The first `n` elements hold no more of `x` than the whole list.
proof fn lemma_take_count_le<A>(s: Seq<A>, n: int, x: A)
    requires
        0 <= n <= s.len(),
    ensures
        s.take(n).to_multiset().count(x) <= s.to_multiset().count(x),
{
    broadcast use vstd::multiset::group_multiset_axioms;

    assert(s =~= s.take(n) + s.skip(n));
    vstd::seq_lib::lemma_multiset_commutative(s.take(n), s.skip(n));
}

/// One placement of the random setup: the square `empties[i]`, still free,
/// takes a piece of `side` of rank `ranks[i]`.
proof fn lemma_place_step(
    prev: Board,
    cur: Board,
    lifted_board: Board,
    pos: Pos,
    side: Side,
    rank: Rank,
    empties: Seq<Pos>,
    ranks: Seq<Rank>,
    i: int,
)
    requires
        0 <= i < empties.len(),
        i < ranks.len(),
        pos == empties[i],
        rank == ranks[i],
        pos.0 < SIZE && pos.1 < SIZE,
        cur.is_update(&prev, pos, Square::Occupied(Piece { owner: side, rank, revealed: false })),
        empties.no_duplicates(),
        forall|j: int|
            0 <= j < empties.len() ==> {
                let e = #[trigger] empties[j];
                &&& e.0 < SIZE && e.1 < SIZE
                &&& lifted_board.at_pos(e) == Square::Empty
            },
        forall|j: int|
            0 <= j < i ==> #[trigger] prev.at_pos(empties[j]) == Square::Occupied(
                Piece { owner: side, rank: ranks[j], revealed: false },
            ),
        forall|r: int, c: int|
            on_board(r, c) && !empties.take(i).contains((r as usize, c as usize))
                ==> #[trigger] prev.at(r, c) == lifted_board.at(r, c),
        forall|x: Rank|
            #[trigger] count::pieces_of(prev, side, x) == count::pieces_of(lifted_board, side, x)
                + ranks.take(i).to_multiset().count(x),
        forall|x: Rank|
            #[trigger] count::pieces_of(prev, side.opponent(), x) == count::pieces_of(
                lifted_board,
                side.opponent(),
                x,
            ),
    ensures
        forall|j: int|
            0 <= j < i + 1 ==> #[trigger] cur.at_pos(empties[j]) == Square::Occupied(
                Piece { owner: side, rank: ranks[j], revealed: false },
            ),
        forall|r: int, c: int|
            on_board(r, c) && !empties.take(i + 1).contains((r as usize, c as usize))
                ==> #[trigger] cur.at(r, c) == lifted_board.at(r, c),
        forall|x: Rank|
            #[trigger] count::pieces_of(cur, side, x) == count::pieces_of(lifted_board, side, x)
                + ranks.take(i + 1).to_multiset().count(x),
        forall|x: Rank|
            #[trigger] count::pieces_of(cur, side.opponent(), x) == count::pieces_of(
                lifted_board,
                side.opponent(),
                x,
            ),
{
    broadcast use vstd::seq_lib::group_to_multiset_ensures;
    broadcast use vstd::multiset::group_multiset_axioms;

    let sq = Square::Occupied(Piece { owner: side, rank, revealed: false });
    // `pos` is not among the squares filled so far.
    assert(!empties.take(i).contains(((pos.0 as int) as usize, (pos.1 as int) as usize))) by {
        if empties.take(i).contains(pos) {
            let k = choose|k: int| 0 <= k < i && empties.take(i)[k] == pos;
            assert(empties[k] == empties[i]);
        }
    }
    assert(prev.at_pos(pos) == Square::Empty);
    assert(empties.take(i + 1) =~= empties.take(i).push(pos));
    assert(ranks.take(i + 1) =~= ranks.take(i).push(rank));
    assert forall|j: int| 0 <= j < i + 1 implies #[trigger] cur.at_pos(empties[j]) == Square::Occupied(
        Piece { owner: side, rank: ranks[j], revealed: false },
    ) by {
        let e = empties[j];
        assert(e.0 < SIZE && e.1 < SIZE);
        assert(cur.at(e.0 as int, e.1 as int) == if e.0 == pos.0 && e.1 == pos.1 {
            sq
        } else {
            prev.at(e.0 as int, e.1 as int)
        });
        if j < i {
            assert(empties[j] != empties[i]);
            assert(prev.at_pos(empties[j]) == Square::Occupied(
                Piece { owner: side, rank: ranks[j], revealed: false },
            ));
        }
    }
    assert forall|r: int, c: int|
        on_board(r, c) && !empties.take(i + 1).contains((r as usize, c as usize)) implies #[trigger] cur.at(
        r,
        c,
    ) == lifted_board.at(r, c) by {
        assert(empties.take(i + 1)[i] == pos);
        if r == pos.0 && c == pos.1 {
            assert(empties.take(i + 1).contains((r as usize, c as usize)));
        }
        assert forall|k: int| 0 <= k < i implies empties.take(i)[k] == empties.take(i + 1)[k] by {}
        if empties.take(i).contains((r as usize, c as usize)) {
            let k = choose|k: int| 0 <= k < i && empties.take(i)[k] == (r as usize, c as usize);
            assert(empties.take(i + 1)[k] == (r as usize, c as usize));
        }
    }
    assert forall|x: Rank| #[trigger] count::pieces_of(cur, side, x) == count::pieces_of(lifted_board, side, x)
        + ranks.take(i + 1).to_multiset().count(x) by {
        count::lemma_pieces_of_update(cur, prev, pos, sq, side, x);
        assert(count::pieces_of(prev, side, x) == count::pieces_of(lifted_board, side, x)
            + ranks.take(i).to_multiset().count(x));
    }
    assert forall|x: Rank| #[trigger] count::pieces_of(cur, side.opponent(), x) == count::pieces_of(
        lifted_board,
        side.opponent(),
        x,
    ) by {
        count::lemma_pieces_of_update(cur, prev, pos, sq, side.opponent(), x);
        assert(count::pieces_of(prev, side.opponent(), x) == count::pieces_of(
            lifted_board,
            side.opponent(),
            x,
        ));
    }
}

/// After the placements, the board is a scattering of `side`'s pieces over
/// its home rows, within quota, and a full set whenever there was room.
proof fn lemma_scatter_result(
    b_old: Board,
    lifted_board: Board,
    b: Board,
    side: Side,
    empties: Seq<Pos>,
    ranks: Seq<Rank>,
    n: int,
)
    requires
        forall|r: int, c: int|
            on_board(r, c) ==> #[trigger] lifted_board.at(r, c) == if in_home_rows(side, r) {
                lifted(b_old.at(r, c), side)
            } else {
                b_old.at(r, c)
            },
        forall|j: int|
            0 <= j < empties.len() ==> {
                let e = #[trigger] empties[j];
                &&& e.0 < SIZE && e.1 < SIZE
                &&& in_home_rows(side, e.0 as int)
                &&& lifted_board.at_pos(e) == Square::Empty
            },
        n == pair_len(empties.len() as int, ranks.len() as int),
        forall|j: int|
            0 <= j < n ==> #[trigger] b.at_pos(empties[j]) == Square::Occupied(
                Piece { owner: side, rank: ranks[j], revealed: false },
            ),
        forall|r: int, c: int|
            on_board(r, c) && !empties.take(n).contains((r as usize, c as usize))
                ==> #[trigger] b.at(r, c) == lifted_board.at(r, c),
        forall|x: Rank|
            #[trigger] count::pieces_of(b, side, x) == count::pieces_of(lifted_board, side, x)
                + ranks.take(n).to_multiset().count(x),
        within_quota(lifted_board, side),
        ranks.to_multiset() == rules::missing_ranks(lifted_board, side, 12).to_multiset(),
        room_for_full_set(b_old, side) ==> empties.len() == SET_SIZE,
        room_for_full_set(b_old, side) ==> ranks.len() == SET_SIZE,
        room_for_full_set(b_old, side) ==> forall|r: int, c: int|
            on_board(r, c) && in_home_rows(side, r) ==> #[trigger] empties.contains(
                (r as usize, c as usize),
            ),
        ranks.len() <= SET_SIZE,
    ensures
        scattered(b_old, b, side),
        within_quota(b, side),
        room_for_full_set(b_old, side) ==> full_set(b, side),
        room_for_full_set(b_old, side) ==> home_rows_filled(b, side),
{
    assert forall|r: int, c: int| on_board(r, c) implies if in_home_rows(side, r) && free_for(
        b_old.at(r, c),
        side,
    ) {
        (#[trigger] b.at(r, c) == Square::Empty || (b.at(r, c) matches Square::Occupied(p)
            && p.owner == side && !p.revealed))
    } else {
        b.at(r, c) == b_old.at(r, c)
    } by {
        if empties.take(n).contains((r as usize, c as usize)) {
            let k = choose|k: int| 0 <= k < n && empties.take(n)[k] == (r as usize, c as usize);
            assert(empties[k] == (r as usize, c as usize));
            assert(b.at_pos(empties[k]) == Square::Occupied(
                Piece { owner: side, rank: ranks[k], revealed: false },
            ));
            assert(lifted_board.at_pos(empties[k]) == Square::Empty);
        }
    }
    assert forall|x: Rank| #[trigger] count::pieces_of(b, side, x) <= x.quota() by {
        lemma_take_count_le(ranks, n, x);
        rules::lemma_missing_count(lifted_board, side, 12, x);
        piece::lemma_rank_index(x, 0);
    }
    if room_for_full_set(b_old, side) {
        assert(ranks.take(n) =~= ranks);
        assert(empties.take(n) =~= empties);
        assert forall|r: int, c: int| on_board(r, c) && in_home_rows(side, r) implies (#[trigger] b.at(
            r,
            c,
        ) matches Square::Occupied(p) && p.owner == side && !p.revealed) by {
            assert(empties.contains((r as usize, c as usize)));
            let k = choose|k: int| 0 <= k < n && empties[k] == (r as usize, c as usize);
            assert(b.at_pos(empties[k]) == Square::Occupied(
                Piece { owner: side, rank: ranks[k], revealed: false },
            ));
        }
        assert forall|x: Rank| #[trigger] count::pieces_of(b, side, x) == x.quota() by {
            rules::lemma_missing_count(lifted_board, side, 12, x);
            piece::lemma_rank_index(x, 0);
            assert(count::pieces_of(lifted_board, side, x) <= x.quota());
        }
    }
}

/// How many of the first `k` canonical ranks equal `x`.
spec fn rank_hits(x: Rank, k: int) -> nat
    decreases k,
{
    if k <= 0 {
        0
    } else {
        rank_hits(x, k - 1) + if Rank::all_ranks()[k - 1] == x {
            1nat
        } else {
            0nat
        }
    }
}

/// Occurrences in `s` of the first `k` canonical ranks, summed.
spec fn rank_tally(s: Seq<Rank>, k: int) -> nat
    decreases k,
{
    if k <= 0 {
        0
    } else {
        rank_tally(s, k - 1) + s.to_multiset().count(Rank::all_ranks()[k - 1])
    }
}

proof fn lemma_rank_hits(x: Rank)
    ensures
        rank_hits(x, 12) == 1,
{
    reveal_with_fuel(rank_hits, 13);
}

proof fn lemma_rank_tally_push(t: Seq<Rank>, x: Rank, k: int)
    ensures
        rank_tally(t.push(x), k) == rank_tally(t, k) + rank_hits(x, k),
    decreases k,
{
    broadcast use vstd::seq_lib::group_to_multiset_ensures;
    broadcast use vstd::multiset::group_multiset_axioms;

    if k > 0 {
        lemma_rank_tally_push(t, x, k - 1);
    }
}

proof fn lemma_rank_tally_empty(k: int)
    ensures
        rank_tally(Seq::<Rank>::empty(), k) == 0,
    decreases k,
{
    broadcast use vstd::seq_lib::group_to_multiset_ensures;
    broadcast use vstd::multiset::group_multiset_axioms;

    if k > 0 {
        lemma_rank_tally_empty(k - 1);
    }
}

/// Every element of a list of ranks is one of the twelve ranks, so the
/// per-rank tallies add up to its length.
proof fn lemma_rank_tally_len(s: Seq<Rank>)
    ensures
        rank_tally(s, 12) == s.len(),
    decreases s.len(),
{
    if s.len() == 0 {
        assert(s =~= Seq::<Rank>::empty());
        lemma_rank_tally_empty(12);
    } else {
        let t = s.drop_last();
        assert(s =~= t.push(s.last()));
        lemma_rank_tally_len(t);
        lemma_rank_tally_push(t, s.last(), 12);
        lemma_rank_hits(s.last());
    }
}

/// Per-rank counts that grow by the tallies of `s` make the rank sum grow by
/// them too.
proof fn lemma_rank_sum_add(a: Board, b: Board, side: Side, s: Seq<Rank>, k: int)
    requires
        forall|rank: Rank|
            #[trigger] count::pieces_of(b, side, rank) == count::pieces_of(a, side, rank)
                + s.to_multiset().count(rank),
    ensures
        count::rank_sum(b, side, k) == count::rank_sum(a, side, k) + rank_tally(s, k),
    decreases k,
{
    if k > 0 {
        lemma_rank_sum_add(a, b, side, s, k - 1);
        let rank = Rank::all_ranks()[k - 1];
        assert(count::pieces_of(b, side, rank) == count::pieces_of(a, side, rank)
            + s.to_multiset().count(rank));
    }
}

proof fn lemma_away_sum(old: Board, lifted_board: Board, side: Side, k: int)
    requires
        forall|rank: Rank|
            #[trigger] count::pieces_of(lifted_board, side, rank) == pieces_away(old, side, rank),
    ensures
        count::rank_sum(lifted_board, side, k) == away_sum(old, side, k),
    decreases k,
{
    if k > 0 {
        lemma_away_sum(old, lifted_board, side, k - 1);
        let rank = Rank::all_ranks()[k - 1];
        assert(count::pieces_of(lifted_board, side, rank) == pieces_away(old, side, rank));
    }
}

} // verus!
