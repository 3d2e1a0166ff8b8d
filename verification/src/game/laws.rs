use vstd::prelude::*;

use super::board::{Board, Pos, Square, SIZE};
use super::count;
use super::piece::{self, Piece, Rank, Side, SET_SIZE};
use super::board::{lemma_neighbor_listed, neighbors};
use super::rules::{
    self, full_set, missing_ranks, can_move, combat_outcome, is_straight, legal_step, move_check, move_distance, strictly_between,
    CombatOutcome,
};
use super::state::{
    cancel_effect, combat_report, confirm_effect, finish_effect, landing_square, losses,
    move_effect, pieces_away, revealed, same_records, view_of, ActionError,
    CombatResultDto, GameState, Phase, SquareView,
};

verus! {

/// Taking back the end of a setup ("think again") restores the game exactly
/// as it was before: same board, records and phase, nothing pending, and
/// control stays with the side that had finished.
pub proof fn law_cancel_undoes_finish_setup(
    s0: GameState,
    s1: GameState,
    s2: GameState,
    side: Side,
    r1: Result<(), ActionError>,
    r2: Result<Side, ActionError>,
)
    requires
        finish_effect(&s0, &s1, side, r1),
        r1 is Ok,
        cancel_effect(&s1, &s2, r2),
    ensures
        r2 == Ok::<Side, ActionError>(side),
        same_records(&s2, &s0),
        s2.phase == s0.phase,
        s2.pending_handoff is None,
        s2.pending_transition is None,
        s2.undo_snapshot is None,
{
}

/// Taking back a plain move (one that attacked nothing and did not end the
/// game) restores the board, the last move, the losses and the
/// back-and-forth streaks, and gives control back to the mover.
pub proof fn law_cancel_undoes_plain_move(
    s0: GameState,
    s1: GameState,
    s2: GameState,
    side: Side,
    from: Pos,
    to: Pos,
    r2: Result<Side, ActionError>,
)
    requires
        move_effect(&s0, &s1, side, from, to, Ok(None)),
        s1.pending_handoff is Some,
        cancel_effect(&s1, &s2, r2),
    ensures
        r2 == Ok::<Side, ActionError>(side),
        same_records(&s2, &s0),
        s2.phase == s0.phase,
        s2.pending_handoff is None,
        s2.pending_transition is None,
{
}

/// A move that attacked cannot be taken back: the cancel is refused and
/// nothing changes.
pub proof fn law_attack_cannot_be_cancelled(
    s0: GameState,
    s1: GameState,
    s2: GameState,
    side: Side,
    from: Pos,
    to: Pos,
    report: CombatResultDto,
    r2: Result<Side, ActionError>,
)
    requires
        move_effect(&s0, &s1, side, from, to, Ok(Some(report))),
        s1.pending_handoff is Some,
        cancel_effect(&s1, &s2, r2),
    ensures
        r2 == Err::<Side, ActionError>(ActionError::CannotCancelAttack),
        s2 == s1,
{
}

/// Confirming the handoff after a move gives the turn to the opponent, who
/// is reported as the side now in control; the board stays as the move
/// left it.
pub proof fn law_confirm_passes_the_turn(
    s0: GameState,
    s1: GameState,
    s2: GameState,
    side: Side,
    from: Pos,
    to: Pos,
    r1: Result<Option<CombatResultDto>, ActionError>,
    r2: Result<Side, ActionError>,
)
    requires
        move_effect(&s0, &s1, side, from, to, r1),
        r1 is Ok,
        s1.pending_handoff is Some,
        confirm_effect(&s1, &s2, r2),
    ensures
        s2.phase == Phase::Playing(side.opponent()),
        r2 == Ok::<Side, ActionError>(side.opponent()),
        same_records(&s2, &s1),
{
}

/// Confirming the end of a setup hands control to the other side: Blue's
/// setup is followed by Red's, Red's by Blue's first move.
pub proof fn law_confirm_after_setup(
    s0: GameState,
    s1: GameState,
    s2: GameState,
    side: Side,
    r1: Result<(), ActionError>,
    r2: Result<Side, ActionError>,
)
    requires
        finish_effect(&s0, &s1, side, r1),
        r1 is Ok,
        confirm_effect(&s1, &s2, r2),
    ensures
        r2 == Ok::<Side, ActionError>(side.opponent()),
        s2.pending_handoff is None,
        same_records(&s2, &s0),
{
}

/// Once the game is over (and nothing waits for confirmation) every action
/// is refused and changes nothing: only a reset starts play again.
pub proof fn law_game_over_is_final(
    g: GameState,
    new: GameState,
    side: Side,
    from: Pos,
    to: Pos,
    rank: Rank,
)
    requires
        g.phase is GameOver,
        g.pending_handoff is None,
        g.pending_transition is None,
    ensures
        forall|r: Result<Option<CombatResultDto>, ActionError>|
            move_effect(&g, &new, side, from, to, r) ==> r == Err::<
                Option<CombatResultDto>,
                ActionError,
            >(ActionError::WrongPhase) && new == g,
        g.place_outcome(side, from, rank) == Err::<(), ActionError>(ActionError::WrongPhase),
        g.unplace_outcome(side, from) == Err::<(), ActionError>(ActionError::WrongPhase),
        g.reposition_outcome(side, from, to) == Err::<(), ActionError>(ActionError::WrongPhase),
        forall|r: Result<(), ActionError>|
            finish_effect(&g, &new, side, r) ==> r == Err::<(), ActionError>(ActionError::WrongPhase)
                && new == g,
        forall|r: Result<Side, ActionError>|
            confirm_effect(&g, &new, r) ==> r == Err::<Side, ActionError>(
                ActionError::NoPendingHandoff,
            ) && new == g,
        forall|r: Result<Side, ActionError>|
            cancel_effect(&g, &new, r) ==> r == Err::<Side, ActionError>(
                ActionError::NoPendingHandoff,
            ) && new == g,
{
}

/// Taking a freshly placed piece back off its square leaves the board as it
/// was before the placement.
pub proof fn law_unplace_undoes_place(
    g0: GameState,
    g1: GameState,
    g2: GameState,
    side: Side,
    pos: Pos,
    rank: Rank,
)
    requires
        pos.0 < SIZE && pos.1 < SIZE,
        g0.place_outcome(side, pos, rank) is Ok,
        g1.board.is_update(&g0.board, pos, Square::Occupied(Piece { owner: side, rank, revealed: false })),
        g1.same_except_board(&g0),
        g2.board.is_update(&g1.board, pos, Square::Empty),
        g2.same_except_board(&g1),
    ensures
        g1.unplace_outcome(side, pos) == Ok::<(), ActionError>(()),
        g2.board == g0.board,
        g2.same_except_board(&g0),
{
    assert(g0.board.at_pos(pos) == Square::Empty);
    assert(g1.board.at_pos(pos) == Square::Occupied(Piece { owner: side, rank, revealed: false }));
    super::board::lemma_board_ext(g2.board, g0.board);
}

/// Only the Scout ever moves more than one square, and every legal move runs
/// straight along a row or a column.
pub proof fn law_only_scouts_run(board: Board, side: Side, from: Pos, to: Pos)
    requires
        move_check(board, side, from, to) is Ok,
    ensures
        is_straight(from, to),
        board.at_pos(from) matches Square::Occupied(p) && (p.rank != Rank::Scout ==> move_distance(
            from,
            to,
        ) == 1),
{
}

/// Outside the special cases (the Flag, the Spy striking the Marshal, the
/// Miner striking a Bomb), combat is a plain comparison: the attacker wins
/// exactly when it would lose with the roles swapped, and equal ranks fall
/// together whoever strikes.
pub proof fn law_plain_combat_is_symmetric(a: Rank, d: Rank)
    requires
        a != Rank::Flag && d != Rank::Flag,
        !(a == Rank::Spy && d == Rank::Marshal) && !(d == Rank::Spy && a == Rank::Marshal),
        !(a == Rank::Miner && d == Rank::Bomb) && !(d == Rank::Miner && a == Rank::Bomb),
    ensures
        (combat_outcome(a, d) == CombatOutcome::AttackerWins) == (combat_outcome(d, a)
            == CombatOutcome::DefenderWins),
        (combat_outcome(a, d) == CombatOutcome::BothDestroyed) == (combat_outcome(d, a)
            == CombatOutcome::BothDestroyed),
        a == d ==> combat_outcome(a, d) == CombatOutcome::BothDestroyed,
{
}

/// A player always sees the rank of every own piece, whatever the phase.
pub proof fn law_own_pieces_always_visible(p: Piece, viewer: Side, phase: Phase)
    requires
        p.owner == viewer,
    ensures
        view_of(Square::Occupied(p), viewer, phase) == (SquareView::Piece {
            owner: viewer,
            rank: Some(p.rank),
        }),
{
}

/// During either setup phase the opponent's pieces are invisible: their
/// squares look empty.
pub proof fn law_setup_is_blind(p: Piece, viewer: Side, phase: Phase)
    requires
        p.owner != viewer,
        phase == Phase::SetupBlue || phase == Phase::SetupRed,
    ensures
        view_of(Square::Occupied(p), viewer, phase) == SquareView::Empty,
{
}

/// While the game is played an opposing piece shows its rank only once combat
/// has revealed it; until then the viewer sees a card back of its owner's
/// colour. When the game is over every piece is shown.
pub proof fn law_opposing_ranks_stay_hidden_until_revealed(p: Piece, viewer: Side, phase: Phase)
    requires
        p.owner != viewer,
        phase is Playing || phase is GameOver,
    ensures
        view_of(Square::Occupied(p), viewer, phase) == (SquareView::Piece {
            owner: p.owner,
            rank: if p.revealed || phase is GameOver {
                Some(p.rank)
            } else {
                None
            },
        }),
{
}

/// In a well-formed game no side has more pieces of a rank off its home rows
/// than the quota, so a random setup can always be asked for.
pub proof fn law_well_formed_games_allow_random_setup(g: GameState, side: Side)
    requires
        g.wf(),
    ensures
        forall|rank: Rank| #[trigger] pieces_away(g.board, side, rank) <= rank.quota(),
{
    assert forall|rank: Rank| #[trigger] pieces_away(g.board, side, rank) <= rank.quota() by {
        let mid: int = match side {
            Side::Red => 4,
            Side::Blue => 6,
        };
        count::lemma_count_in_rows_split(g.board, side, rank, 0, mid, 10);
        match side {
            Side::Red => assert(count::within_quota(g.board, Side::Red)),
            Side::Blue => assert(count::within_quota(g.board, Side::Blue)),
        }
        assert(count::pieces_of(g.board, side, rank) <= rank.quota());
    }
}

/// A side can make a one-square move exactly when it can make any legal move
/// at all: a legal Scout run begins with a legal single step. So the
/// stalemate check, which tries single steps only, misses no move.
pub proof fn law_single_steps_decide_stalemate(board: Board, side: Side)
    ensures
        can_move(board, side) <==> exists|from: Pos, to: Pos|
            #[trigger] move_check(board, side, from, to) is Ok,
{
    if can_move(board, side) {
        let (from, i) = choose|from: Pos, i: int|
            from.0 < SIZE && from.1 < SIZE && #[trigger] legal_step(board, side, from, i);
        assert(move_check(board, side, from, neighbors(from)[i]) is Ok);
    }
    if exists|from: Pos, to: Pos| #[trigger] move_check(board, side, from, to) is Ok {
        let (from, to) = choose|from: Pos, to: Pos| #[trigger] move_check(board, side, from, to) is Ok;
        let step: Pos = if to.0 > from.0 {
            ((from.0 + 1) as usize, from.1)
        } else if to.0 < from.0 {
            ((from.0 - 1) as usize, from.1)
        } else if to.1 > from.1 {
            (from.0, (from.1 + 1) as usize)
        } else {
            (from.0, (from.1 - 1) as usize)
        };
        if step != to {
            assert(strictly_between(from, to, step.0 as int, step.1 as int));
            assert(board.at(step.0 as int, step.1 as int) == Square::Empty);
        }
        assert(move_check(board, side, from, step) is Ok);
        let i = lemma_neighbor_listed(from, step);
        assert(legal_step(board, side, from, i));
    }
}

/// For a side within its quotas, "setup complete" means the same as "no rank
/// left to place" and as "forty own pieces on the board".
pub proof fn law_setup_complete_equivalences(board: Board, side: Side)
    requires
        count::within_quota(board, side),
    ensures
        full_set(board, side) <==> missing_ranks(board, side, 12).len() == 0,
        full_set(board, side) <==> count::own_pieces(board, side) == SET_SIZE,
{
    broadcast use vstd::seq_lib::group_to_multiset_ensures;
    broadcast use vstd::multiset::group_multiset_axioms;

    count::lemma_own_pieces_by_rank(board, side);
    count::lemma_rank_sum_quota(board, side, 12);
    piece::lemma_set_size();
    let all = Rank::all_ranks();
    let missing = missing_ranks(board, side, 12);
    // "Every rank at its quota" read rank by rank or index by index.
    assert((forall|j: int| 0 <= j < 12 ==> count::pieces_of(board, side, #[trigger] all[j]) == all[j].quota())
        == full_set(board, side)) by {
        if full_set(board, side) {
            assert forall|j: int| 0 <= j < 12 implies count::pieces_of(board, side, #[trigger] all[j])
                == all[j].quota() by {
                assert(count::pieces_of(board, side, all[j]) == all[j].quota());
            }
        }
        if forall|j: int| 0 <= j < 12 ==> count::pieces_of(board, side, #[trigger] all[j]) == all[j].quota() {
            assert forall|rank: Rank| #[trigger] count::pieces_of(board, side, rank) == rank.quota() by {
                piece::lemma_rank_index(rank, 0);
                assert(count::pieces_of(board, side, all[piece::rank_index(rank)]) == all[piece::rank_index(rank)].quota());
            }
        }
    }
    // Nothing missing exactly when every rank is at its quota.
    assert forall|x: Rank| #[trigger] missing.to_multiset().count(x) == x.quota() - count::pieces_of(board, side, x) by {
        rules::lemma_missing_count(board, side, 12, x);
        piece::lemma_rank_index(x, 0);
    }
    if missing.len() == 0 {
        assert forall|rank: Rank| #[trigger] count::pieces_of(board, side, rank) == rank.quota() by {
            assert(missing.to_multiset().count(rank) == rank.quota() - count::pieces_of(board, side, rank));
            assert(missing =~= Seq::<Rank>::empty());
            assert(count::within_quota(board, side));
            assert(count::pieces_of(board, side, rank) <= rank.quota());
        }
    }
    if full_set(board, side) {
        assert(missing.to_multiset() =~= vstd::multiset::Multiset::<Rank>::empty()) by {
            assert forall|x: Rank| #[trigger] missing.to_multiset().count(x) == 0 by {
                assert(missing.to_multiset().count(x) == x.quota() - count::pieces_of(board, side, x));
                assert(count::pieces_of(board, side, x) == x.quota());
            }
        }
        assert(missing.to_multiset().len() == missing.len());
    }
}

/// Combat settles the attacked square and the loss records by its outcome:
/// the winner (now revealed) stands on the attacked square, each fallen
/// piece's rank is added to its owner's losses, attacker first, and both
/// squares are empty when both fall.
pub proof fn law_combat_settles_the_square(board: Board, from: Pos, to: Pos, a: Piece, d: Piece)
    requires
        board.at_pos(from) == Square::Occupied(a),
        board.at_pos(to) == Square::Occupied(d),
        a.owner != d.owner,
    ensures
        match combat_outcome(a.rank, d.rank) {
            CombatOutcome::AttackerWins | CombatOutcome::FlagCaptured => {
                &&& landing_square(board, from, to) == Square::Occupied(revealed(a))
                &&& losses(board, from, to, d.owner) == seq![d.rank]
                &&& losses(board, from, to, a.owner) == Seq::<Rank>::empty()
            },
            CombatOutcome::DefenderWins => {
                &&& landing_square(board, from, to) == Square::Occupied(revealed(d))
                &&& losses(board, from, to, a.owner) == seq![a.rank]
                &&& losses(board, from, to, d.owner) == Seq::<Rank>::empty()
            },
            CombatOutcome::BothDestroyed => {
                &&& landing_square(board, from, to) == Square::Empty
                &&& losses(board, from, to, a.owner) == seq![a.rank]
                &&& losses(board, from, to, d.owner) == seq![d.rank]
            },
        },
        combat_report(board, from, to) == Some(
            CombatResultDto {
                row: to.0,
                col: to.1,
                attacker_owner: a.owner,
                attacker_rank: a.rank,
                defender_owner: d.owner,
                defender_rank: d.rank,
                outcome: combat_outcome(a.rank, d.rank),
            },
        ),
{
    assert(seq![a.rank] + Seq::<Rank>::empty() =~= seq![a.rank]);
    assert(Seq::<Rank>::empty() + seq![d.rank] =~= seq![d.rank]);
}

/// A move onto an empty square carries the piece over exactly as it stood,
/// its revealed flag included, and leaves its old square empty: only combat
/// ever reveals a piece.
pub proof fn law_plain_move_carries_the_piece_unchanged(
    old: GameState,
    new: GameState,
    side: Side,
    from: Pos,
    to: Pos,
    r: Result<Option<CombatResultDto>, ActionError>,
)
    requires
        move_effect(&old, &new, side, from, to, r),
        r is Ok,
        old.board.at_pos(to) == Square::Empty,
    ensures
        r == Ok::<Option<CombatResultDto>, ActionError>(None),
        new.board.at_pos(to) == old.board.at_pos(from),
        new.board.at_pos(from) == Square::Empty,
        old.board.at_pos(from) matches Square::Occupied(p) && p.owner == side,
        forall|rr: int, cc: int|
            0 <= rr < 10 && 0 <= cc < 10 && !(rr == from.0 && cc == from.1) && !(rr == to.0 && cc
                == to.1) ==> #[trigger] new.board.at(rr, cc) == old.board.at(rr, cc),
{
    assert(to.0 < SIZE && to.1 < SIZE && from.0 < SIZE && from.1 < SIZE);
    assert(new.board.at(to.0 as int, to.1 as int) == super::state::square_after_move(
        old.board,
        from,
        to,
        to.0 as int,
        to.1 as int,
    ));
    assert(new.board.at(from.0 as int, from.1 as int) == super::state::square_after_move(
        old.board,
        from,
        to,
        from.0 as int,
        from.1 as int,
    ));
}

/// Every accepted move starts from a movable piece of the mover (never a
/// Bomb or the Flag), runs straight along a row or column over empty
/// squares only, is a single step unless the piece is a Scout, and ends on
/// the board on a square that is neither water nor held by the mover.
pub proof fn law_accepted_moves_respect_the_board(board: Board, side: Side, from: Pos, to: Pos)
    requires
        move_check(board, side, from, to) is Ok,
    ensures
        from.0 < 10 && from.1 < 10 && to.0 < 10 && to.1 < 10,
        board.at_pos(to) != Square::Lake,
        !(board.at_pos(to) matches Square::Occupied(q) && q.owner == side),
        board.at_pos(from) matches Square::Occupied(p) && p.owner == side && p.rank != Rank::Bomb
            && p.rank != Rank::Flag,
        (from.0 == to.0) != (from.1 == to.1),
        board.at_pos(from) matches Square::Occupied(p) && (p.rank != Rank::Scout ==> (
        from.0 + 1 == to.0 || to.0 + 1 == from.0 || from.1 + 1 == to.1 || to.1 + 1 == from.1)),
        forall|r: int, c: int|
            ((r == from.0 && (from.1 < c < to.1 || to.1 < c < from.1)) || (c == from.1 && (from.0
                < r < to.0 || to.0 < r < from.0))) ==> #[trigger] board.at(r, c) == Square::Empty,
{
    assert forall|r: int, c: int|
        ((r == from.0 && (from.1 < c < to.1 || to.1 < c < from.1)) || (c == from.1 && (from.0 < r
            < to.0 || to.0 < r < from.0))) implies #[trigger] board.at(r, c) == Square::Empty by {
        assert(strictly_between(from, to, r, c));
    }
}

/// Combat between pieces that can attack follows the standard rank order
/// Marshal > General > Colonel > Major > Captain > Lieutenant > Sergeant >
/// Miner > Scout > Spy (the canonical order of `Rank::all_ranks`): the
/// higher rank wins whoever strikes, equal ranks fall together; the only
/// exception is the Spy striking the Marshal. A Bomb defeats every attacker
/// but the Miner, and an attacked Flag is always captured.
pub proof fn law_combat_follows_the_rank_order(a: Rank, d: Rank)
    requires
        a != Rank::Bomb && a != Rank::Flag,
    ensures
        d == Rank::Flag ==> combat_outcome(a, d) == CombatOutcome::FlagCaptured,
        d == Rank::Bomb ==> combat_outcome(a, d) == if a == Rank::Miner {
            CombatOutcome::AttackerWins
        } else {
            CombatOutcome::DefenderWins
        },
        d != Rank::Bomb && d != Rank::Flag && !(a == Rank::Spy && d == Rank::Marshal) ==> {
            &&& piece::rank_index(a) < piece::rank_index(d) ==> combat_outcome(a, d)
                == CombatOutcome::AttackerWins
            &&& piece::rank_index(a) > piece::rank_index(d) ==> combat_outcome(a, d)
                == CombatOutcome::DefenderWins
            &&& a == d ==> combat_outcome(a, d) == CombatOutcome::BothDestroyed
        },
        a == Rank::Spy && d == Rank::Marshal ==> combat_outcome(a, d) == CombatOutcome::AttackerWins,
        Rank::all_ranks() == seq![
            Rank::Marshal,
            Rank::General,
            Rank::Colonel,
            Rank::Major,
            Rank::Captain,
            Rank::Lieutenant,
            Rank::Sergeant,
            Rank::Miner,
            Rank::Scout,
            Rank::Spy,
            Rank::Bomb,
            Rank::Flag,
        ],
{
}

/// The two boards hold the same pieces of `side`, square by square.
pub open spec fn same_own_pieces(b1: Board, b2: Board, side: Side) -> bool {
    forall|r: int, c: int|
        0 <= r < 10 && 0 <= c < 10 ==> ((#[trigger] b1.at(r, c) matches Square::Occupied(p)
            && p.owner == side) == (b2.at(r, c) matches Square::Occupied(q) && q.owner == side))
            && ((b1.at(r, c) matches Square::Occupied(p) && p.owner == side) ==> b1.at(r, c)
            == b2.at(r, c))
}

proof fn lemma_same_own_counts(b1: Board, b2: Board, side: Side, rank: Rank)
    requires
        same_own_pieces(b1, b2, side),
    ensures
        count::pieces_of(b1, side, rank) == count::pieces_of(b2, side, rank),
{
    assert forall|r: int, c: int|
        0 <= r < 10 && 0 <= c < 10 implies count::holds(#[trigger] b1.at(r, c), side, rank)
        == count::holds(b2.at(r, c), side, rank) by {
        assert((b1.at(r, c) matches Square::Occupied(p) && p.owner == side) == (b2.at(
            r,
            c,
        ) matches Square::Occupied(q) && q.owner == side));
    }
    count::lemma_count_same_hits(b1, b2, side, rank, 0, 10);
}

/// Placement looks only at the placing side's own pieces and at the target
/// square: whatever the opponent has on the board elsewhere, the answer is
/// the same. In particular the opponent's pieces never count against the
/// placing side's quota.
pub proof fn law_placement_ignores_the_opponent(
    b1: Board,
    b2: Board,
    side: Side,
    pos: Pos,
    rank: Rank,
)
    requires
        same_own_pieces(b1, b2, side),
        b1.at_pos(pos) == b2.at_pos(pos),
    ensures
        rules::placement_check(b1, side, pos, rank) == rules::placement_check(b2, side, pos, rank),
{
    lemma_same_own_counts(b1, b2, side, rank);
}

/// On an empty square of its home rows a side may place a rank exactly while
/// it has fewer pieces of that rank on the board than the rank's quota.
pub proof fn law_placement_counts_own_pieces_only(board: Board, side: Side, pos: Pos, rank: Rank)
    requires
        super::board::in_home_rows(side, pos.0 as int),
        board.at_pos(pos) == Square::Empty,
    ensures
        (rules::placement_check(board, side, pos, rank) is Ok) == (count::pieces_of(
            board,
            side,
            rank,
        ) < rank.quota()),
        count::pieces_of(board, side, rank) == 0 ==> rules::placement_check(board, side, pos, rank)
            is Ok,
{
}

/// The game's answers to placing and repositioning during setup do not
/// depend on the opponent's pieces away from the squares involved.
pub proof fn law_setup_actions_ignore_the_opponent(
    g1: GameState,
    g2: GameState,
    side: Side,
    from: Pos,
    to: Pos,
    rank: Rank,
)
    requires
        g1.pending_handoff == g2.pending_handoff,
        g1.phase == g2.phase,
        same_own_pieces(g1.board, g2.board, side),
        g1.board.at_pos(from) == g2.board.at_pos(from),
        g1.board.at_pos(to) == g2.board.at_pos(to),
    ensures
        g1.place_outcome(side, to, rank) == g2.place_outcome(side, to, rank),
        g1.unplace_outcome(side, from) == g2.unplace_outcome(side, from),
        g1.reposition_outcome(side, from, to) == g2.reposition_outcome(side, from, to),
{
    lemma_same_own_counts(g1.board, g2.board, side, rank);
    match g1.board.at_pos(from) {
        Square::Occupied(p) => lemma_same_own_counts(g1.board, g2.board, side, p.rank),
        _ => {},
    }
}

/// The reported phase names the same side as the phase itself: the winner of
/// a finished game, the side to move while playing.
pub proof fn law_status_names_the_right_side(phase: Phase, s: Side)
    ensures
        (super::state::phase_dto(phase) == super::state::PhaseDto::GameOver { winner: s }) == (phase
            == Phase::GameOver(s)),
        (super::state::phase_dto(phase) == super::state::PhaseDto::Playing { turn: s }) == (phase
            == Phase::Playing(s)),
        (super::state::phase_dto(phase) == super::state::PhaseDto::SetupBlue) == (phase
            == Phase::SetupBlue),
        (super::state::phase_dto(phase) == super::state::PhaseDto::SetupRed) == (phase
            == Phase::SetupRed),
{
}

} // verus!
