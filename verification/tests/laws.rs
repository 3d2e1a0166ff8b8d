use stratego::game::board::{Board, Square};
use stratego::game::piece::{Piece, Rank, Side};
use stratego::game::rules::{
    has_legal_move, remaining_ranks, resolve_combat, setup_complete, validate_move, CombatOutcome,
};
use stratego::game::state::{square_view, ActionError, GameState, Phase, SquareView};

fn playing_with(pieces: &[((usize, usize), Side, Rank)]) -> GameState {
    let mut gs = GameState::new();
    for &(pos, side, rank) in pieces {
        gs.board.set(pos, Square::Occupied(Piece::new(side, rank)));
    }
    gs.phase = Phase::Playing(Side::Blue);
    gs
}

fn same_board(a: &Board, b: &Board) -> bool {
    (0..10).all(|r| (0..10).all(|c| a.get((r, c)) == b.get((r, c))))
}

fn pieces_on(b: &Board, side: Side, rank: Rank) -> usize {
    (0..10)
        .flat_map(|r| (0..10).map(move |c| (r, c)))
        .filter(|&p| matches!(b.get(p), Square::Occupied(q) if q.owner == side && q.rank == rank))
        .count()
}

const ALL_RANKS: [Rank; 12] = [
    Rank::Marshal,
    Rank::General,
    Rank::Colonel,
    Rank::Major,
    Rank::Captain,
    Rank::Lieutenant,
    Rank::Sergeant,
    Rank::Miner,
    Rank::Scout,
    Rank::Spy,
    Rank::Bomb,
    Rank::Flag,
];

#[test]
fn cancel_after_finished_setup_restores_everything() {
    let mut gs = GameState::new();
    gs.random_setup(Side::Blue).unwrap();
    let before = gs.board.clone();
    gs.finish_setup(Side::Blue).unwrap();
    assert_eq!(gs.cancel_handoff(), Ok(Side::Blue));
    assert!(same_board(&gs.board, &before));
    assert_eq!(gs.phase, Phase::SetupBlue);
    assert!(gs.pending_handoff.is_none());
    assert!(gs.pending_transition.is_none());
    assert!(gs.undo_snapshot.is_none());
}

#[test]
fn confirm_after_setup_hands_over() {
    let mut gs = GameState::new();
    gs.random_setup(Side::Blue).unwrap();
    gs.finish_setup(Side::Blue).unwrap();
    assert_eq!(gs.confirm_handoff(), Ok(Side::Red));
    gs.random_setup(Side::Red).unwrap();
    gs.finish_setup(Side::Red).unwrap();
    assert_eq!(gs.confirm_handoff(), Ok(Side::Blue));
    assert_eq!(gs.phase, Phase::Playing(Side::Blue));
}

#[test]
fn confirm_after_move_passes_the_turn() {
    let mut gs = playing_with(&[
        ((9, 0), Side::Blue, Rank::Miner),
        ((0, 0), Side::Red, Rank::Miner),
    ]);
    gs.make_move(Side::Blue, (9, 0), (8, 0)).unwrap();
    let after_move = gs.board.clone();
    assert_eq!(gs.confirm_handoff(), Ok(Side::Red));
    assert_eq!(gs.phase, Phase::Playing(Side::Red));
    assert!(same_board(&gs.board, &after_move));
}

#[test]
fn game_over_refuses_every_action() {
    let mut gs = playing_with(&[
        ((5, 0), Side::Blue, Rank::Scout),
        ((4, 0), Side::Red, Rank::Flag),
        ((0, 9), Side::Red, Rank::Scout),
    ]);
    gs.make_move(Side::Blue, (5, 0), (4, 0)).unwrap();
    assert_eq!(gs.phase, Phase::GameOver(Side::Blue));
    let board = gs.board.clone();
    assert_eq!(gs.make_move(Side::Red, (0, 9), (1, 9)), Err(ActionError::WrongPhase));
    assert_eq!(gs.place_piece(Side::Red, (0, 0), Rank::Spy), Err(ActionError::WrongPhase));
    assert_eq!(gs.unplace_piece(Side::Red, (0, 9)), Err(ActionError::WrongPhase));
    assert_eq!(gs.reposition_piece(Side::Red, (0, 9), (1, 9)), Err(ActionError::WrongPhase));
    assert_eq!(gs.random_setup(Side::Red), Err(ActionError::WrongPhase));
    assert_eq!(gs.finish_setup(Side::Red), Err(ActionError::WrongPhase));
    assert_eq!(gs.confirm_handoff(), Err(ActionError::NoPendingHandoff));
    assert_eq!(gs.cancel_handoff(), Err(ActionError::NoPendingHandoff));
    assert!(same_board(&gs.board, &board));
    gs.reset();
    assert_eq!(gs.phase, Phase::SetupBlue);
}

#[test]
fn unplace_undoes_place() {
    let mut gs = GameState::new();
    let before = gs.board.clone();
    gs.place_piece(Side::Blue, (7, 4), Rank::Major).unwrap();
    gs.unplace_piece(Side::Blue, (7, 4)).unwrap();
    assert!(same_board(&gs.board, &before));
}

#[test]
fn plain_combat_is_symmetric() {
    for &a in ALL_RANKS.iter() {
        for &d in ALL_RANKS.iter() {
            let special = a == Rank::Flag
                || d == Rank::Flag
                || (a == Rank::Spy && d == Rank::Marshal)
                || (d == Rank::Spy && a == Rank::Marshal)
                || (a == Rank::Miner && d == Rank::Bomb)
                || (d == Rank::Miner && a == Rank::Bomb);
            if special {
                continue;
            }
            let forward = resolve_combat(a, d);
            let backward = resolve_combat(d, a);
            assert_eq!(
                forward == CombatOutcome::AttackerWins,
                backward == CombatOutcome::DefenderWins
            );
            assert_eq!(
                forward == CombatOutcome::BothDestroyed,
                backward == CombatOutcome::BothDestroyed
            );
            if a == d {
                assert_eq!(forward, CombatOutcome::BothDestroyed);
            }
        }
    }
}

#[test]
fn moves_never_add_pieces() {
    let mut gs = playing_with(&[
        ((5, 0), Side::Blue, Rank::Captain),
        ((4, 0), Side::Red, Rank::Captain),
        ((9, 9), Side::Blue, Rank::Scout),
        ((0, 9), Side::Red, Rank::Scout),
    ]);
    gs.make_move(Side::Blue, (5, 0), (4, 0)).unwrap();
    assert_eq!(pieces_on(&gs.board, Side::Blue, Rank::Captain), 0);
    assert_eq!(pieces_on(&gs.board, Side::Red, Rank::Captain), 0);
    assert_eq!(pieces_on(&gs.board, Side::Blue, Rank::Scout), 1);
    gs.confirm_handoff().unwrap();
    gs.make_move(Side::Red, (0, 9), (8, 9)).unwrap();
    assert_eq!(pieces_on(&gs.board, Side::Red, Rank::Scout), 1);
    assert_eq!(pieces_on(&gs.board, Side::Blue, Rank::Scout), 1);
}

#[test]
fn placement_never_exceeds_the_quota() {
    let mut gs = GameState::new();
    let mut placed = 0;
    for row in 6..10 {
        for col in 0..10 {
            if gs.place_piece(Side::Blue, (row, col), Rank::Scout).is_ok() {
                placed += 1;
            }
        }
    }
    assert_eq!(placed, 8);
    assert_eq!(pieces_on(&gs.board, Side::Blue, Rank::Scout), 8);
    assert_eq!(
        gs.place_piece(Side::Blue, (6, 0), Rank::Marshal),
        Err(ActionError::Placement(stratego::game::rules::PlaceError::SquareOccupied))
    );
}

#[test]
fn random_setup_varies_the_layout() {
    // With a fixed order the Marshal would always land on the same square.
    let mut squares = std::collections::HashSet::new();
    for _ in 0..30 {
        let mut gs = GameState::new();
        gs.random_setup(Side::Blue).unwrap();
        assert!(setup_complete(&gs.board, Side::Blue));
        for row in 6..10 {
            for col in 0..10 {
                if matches!(gs.board.get((row, col)), Square::Occupied(p) if p.rank == Rank::Marshal) {
                    squares.insert((row, col));
                }
            }
        }
    }
    assert!(squares.len() > 1);
}

#[test]
fn random_setup_keeps_opposing_pieces_and_fills_the_rest() {
    let mut gs = GameState::new();
    // A foreign piece on Blue's home rows stays, and Blue's set gets one
    // square fewer.
    gs.board.set((9, 9), Square::Occupied(Piece::new(Side::Red, Rank::Spy)));
    gs.random_setup(Side::Blue).unwrap();
    assert_eq!(
        gs.board.get((9, 9)),
        Square::Occupied(Piece::new(Side::Red, Rank::Spy))
    );
    let blue: usize = ALL_RANKS.iter().map(|&r| pieces_on(&gs.board, Side::Blue, r)).sum();
    assert_eq!(blue, 39);
    assert_eq!(remaining_ranks(&gs.board, Side::Blue).len(), 1);
}

#[test]
fn deal_pieces_pairs_squares_with_ranks() {
    let mut gs = GameState::new();
    gs.deal_pieces(
        Side::Red,
        &vec![(0, 0), (1, 1), (2, 2)],
        &vec![Rank::Flag, Rank::Bomb],
    );
    assert_eq!(gs.board.get((0, 0)), Square::Occupied(Piece::new(Side::Red, Rank::Flag)));
    assert_eq!(gs.board.get((1, 1)), Square::Occupied(Piece::new(Side::Red, Rank::Bomb)));
    assert_eq!(gs.board.get((2, 2)), Square::Empty);
    gs.deal_pieces(Side::Blue, &vec![(9, 0)], &vec![Rank::Spy, Rank::Scout]);
    assert_eq!(gs.board.get((9, 0)), Square::Occupied(Piece::new(Side::Blue, Rank::Spy)));
    assert_eq!(pieces_on(&gs.board, Side::Blue, Rank::Scout), 0);
}

#[test]
fn confirmed_attack_clears_the_attack_flag() {
    let mut gs = playing_with(&[
        ((5, 0), Side::Blue, Rank::Marshal),
        ((4, 0), Side::Red, Rank::Miner),
        ((9, 9), Side::Blue, Rank::Scout),
        ((0, 9), Side::Red, Rank::Scout),
    ]);
    assert!(gs.make_move(Side::Blue, (5, 0), (4, 0)).unwrap().is_some());
    assert!(gs.status().pending_attack);
    assert_eq!(gs.confirm_handoff(), Ok(Side::Red));
    assert_eq!(gs.status().pending_handoff, None);
    assert!(!gs.status().pending_attack);
}

#[test]
fn game_ending_attack_leaves_no_attack_flag() {
    let mut gs = playing_with(&[
        ((5, 0), Side::Blue, Rank::Scout),
        ((4, 0), Side::Red, Rank::Flag),
        ((0, 9), Side::Red, Rank::Scout),
    ]);
    assert!(gs.make_move(Side::Blue, (5, 0), (4, 0)).unwrap().is_some());
    assert_eq!(gs.phase, Phase::GameOver(Side::Blue));
    assert_eq!(gs.status().pending_handoff, None);
    assert!(!gs.status().pending_attack);
}

#[test]
fn setup_complete_agrees_with_remaining_and_piece_count() {
    let mut gs = GameState::new();
    let own = |b: &Board| {
        (0..10)
            .flat_map(|r| (0..10).map(move |c| (r, c)))
            .filter(|&p| matches!(b.get(p), Square::Occupied(q) if q.owner == Side::Red))
            .count()
    };
    gs.phase = Phase::SetupRed;
    gs.place_piece(Side::Red, (0, 0), Rank::Flag).unwrap();
    assert!(!setup_complete(&gs.board, Side::Red));
    assert!(!remaining_ranks(&gs.board, Side::Red).is_empty());
    assert_ne!(own(&gs.board), 40);
    gs.random_setup(Side::Red).unwrap();
    assert!(setup_complete(&gs.board, Side::Red));
    assert!(remaining_ranks(&gs.board, Side::Red).is_empty());
    assert_eq!(own(&gs.board), 40);
}

#[test]
fn a_scout_run_implies_a_single_step() {
    let b = {
        let mut b = Board::new();
        b.set((9, 0), Square::Occupied(Piece::new(Side::Blue, Rank::Scout)));
        b.set((9, 1), Square::Occupied(Piece::new(Side::Blue, Rank::Bomb)));
        b
    };
    assert_eq!(validate_move(&b, Side::Blue, (9, 0), (5, 0)), Ok(()));
    assert!(has_legal_move(&b, Side::Blue));
    assert_eq!(validate_move(&b, Side::Blue, (9, 0), (8, 0)), Ok(()));
}

#[test]
fn square_view_filters_by_viewer_and_phase() {
    let red_spy = Square::Occupied(Piece::new(Side::Red, Rank::Spy));
    let mut shown = Piece::new(Side::Red, Rank::Spy);
    shown.revealed = true;
    assert_eq!(square_view(Square::Lake, Side::Blue, Phase::SetupBlue), SquareView::Lake);
    assert_eq!(square_view(red_spy, Side::Blue, Phase::SetupRed), SquareView::Empty);
    assert_eq!(
        square_view(red_spy, Side::Red, Phase::SetupBlue),
        SquareView::Piece { owner: Side::Red, rank: Some(Rank::Spy) }
    );
    assert_eq!(
        square_view(red_spy, Side::Blue, Phase::Playing(Side::Blue)),
        SquareView::Piece { owner: Side::Red, rank: None }
    );
    assert_eq!(
        square_view(Square::Occupied(shown), Side::Blue, Phase::Playing(Side::Red)),
        SquareView::Piece { owner: Side::Red, rank: Some(Rank::Spy) }
    );
    assert_eq!(
        square_view(red_spy, Side::Blue, Phase::GameOver(Side::Blue)),
        SquareView::Piece { owner: Side::Red, rank: Some(Rank::Spy) }
    );
}

#[test]
fn reposition_from_an_empty_square_is_refused_before_the_target_is_read() {
    let mut gs = GameState::new();
    assert_eq!(
        gs.reposition_piece(Side::Blue, (9, 0), (9, 12)),
        Err(ActionError::Placement(stratego::game::rules::PlaceError::SquareOccupied))
    );
}

#[test]
fn apply_combat_settles_square_and_losses() {
    let mut gs = playing_with(&[
        ((5, 0), Side::Blue, Rank::Spy),
        ((4, 0), Side::Red, Rank::Marshal),
    ]);
    gs.apply_combat(
        (5, 0),
        (4, 0),
        Piece::new(Side::Blue, Rank::Spy),
        Piece::new(Side::Red, Rank::Marshal),
        CombatOutcome::AttackerWins,
    );
    assert_eq!(
        gs.board.get((4, 0)),
        Square::Occupied(Piece { owner: Side::Blue, rank: Rank::Spy, revealed: true })
    );
    assert_eq!(gs.board.get((5, 0)), Square::Empty);
    assert_eq!(gs.captured_red, vec![Rank::Marshal]);
    assert!(gs.captured_blue.is_empty());
    assert_eq!(gs.phase, Phase::Playing(Side::Blue));
    assert!(gs.pending_handoff.is_none());
}

#[test]
fn random_setup_deals_as_many_pieces_as_fit() {
    let mut gs = GameState::new();
    // Two opposing pieces take two of Blue's forty home squares, and one
    // Blue Scout already stands off the home rows.
    gs.board.set((9, 9), Square::Occupied(Piece::new(Side::Red, Rank::Spy)));
    gs.board.set((6, 0), Square::Occupied(Piece::new(Side::Red, Rank::Bomb)));
    gs.board.set((3, 3), Square::Occupied(Piece::new(Side::Blue, Rank::Scout)));
    gs.random_setup(Side::Blue).unwrap();
    let blue: usize = ALL_RANKS.iter().map(|&r| pieces_on(&gs.board, Side::Blue, r)).sum();
    // 1 away + min(38 free squares, 39 missing ranks).
    assert_eq!(blue, 39);
    assert!(pieces_on(&gs.board, Side::Blue, Rank::Scout) <= 8);
}
