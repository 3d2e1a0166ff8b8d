use stratego::game::board::{Pos, Square};
use stratego::game::piece::{Piece, Rank, Side};
use stratego::game::rules::{setup_complete, CombatOutcome, MoveError, PlaceError};
use stratego::game::state::{ActionError, GameState, Phase, PhaseDto, Shuttle, SquareView};

/// A game already in Playing(Blue) with exactly these pieces, skipping setup
/// so the scenarios stay small.
fn playing_with(pieces: &[(Pos, Side, Rank)]) -> GameState {
    let mut gs = GameState::new();
    for &(pos, side, rank) in pieces {
        gs.board.set(pos, Square::Occupied(Piece::new(side, rank)));
    }
    gs.phase = Phase::Playing(Side::Blue);
    gs
}

/// Both sides keep a legal move: one Miner and one Scout each, far apart.
fn two_movers() -> GameState {
    playing_with(&[
        ((9, 0), Side::Blue, Rank::Miner),
        ((9, 9), Side::Blue, Rank::Scout),
        ((0, 0), Side::Red, Rank::Miner),
        ((0, 9), Side::Red, Rank::Scout),
    ])
}

/// Makes a move and confirms the handoff when one is pending.
fn move_and_confirm(gs: &mut GameState, side: Side, from: Pos, to: Pos) {
    gs.make_move(side, from, to).expect("move should be legal");
    if gs.pending_handoff.is_some() {
        gs.confirm_handoff().expect("confirm_handoff");
    }
}

/// Blue attacker at (5,0), Red defender at (4,0), plus spare movers.
fn combat_board(attacker: Rank, defender: Rank) -> GameState {
    playing_with(&[
        ((5, 0), Side::Blue, attacker),
        ((4, 0), Side::Red, defender),
        ((9, 9), Side::Blue, Rank::Scout),
        ((0, 9), Side::Red, Rank::Scout),
    ])
}

#[test]
fn last_move_tracks_most_recent_move() {
    let mut gs = two_movers();
    assert_eq!(gs.last_move, None);
    move_and_confirm(&mut gs, Side::Blue, (9, 0), (8, 0));
    assert_eq!(gs.last_move, Some(((9, 0), (8, 0))));
    move_and_confirm(&mut gs, Side::Red, (0, 0), (1, 0));
    assert_eq!(gs.last_move, Some(((0, 0), (1, 0))));
}

#[test]
fn cancel_handoff_restores_last_move() {
    let mut gs = two_movers();
    move_and_confirm(&mut gs, Side::Blue, (9, 0), (8, 0));
    // Red moves but reconsiders.
    gs.make_move(Side::Red, (0, 0), (1, 0)).unwrap();
    gs.cancel_handoff().unwrap();
    assert_eq!(gs.last_move, Some(((9, 0), (8, 0))));
}

#[test]
fn cancel_handoff_restores_board() {
    let mut gs = two_movers();
    gs.make_move(Side::Blue, (9, 0), (8, 0)).unwrap();
    gs.cancel_handoff().unwrap();
    assert!(matches!(gs.board.get((9, 0)), Square::Occupied(p) if p.rank == Rank::Miner));
    assert_eq!(gs.board.get((8, 0)), Square::Empty);
    assert_eq!(gs.phase, Phase::Playing(Side::Blue));
}

#[test]
fn attacker_win_records_defender_loss() {
    let mut gs = combat_board(Rank::Marshal, Rank::Miner);
    gs.make_move(Side::Blue, (5, 0), (4, 0)).unwrap();
    assert_eq!(gs.captured_red, vec![Rank::Miner]);
    assert!(gs.captured_blue.is_empty());
}

#[test]
fn defender_win_records_attacker_loss() {
    let mut gs = combat_board(Rank::Miner, Rank::Marshal);
    gs.make_move(Side::Blue, (5, 0), (4, 0)).unwrap();
    assert_eq!(gs.captured_blue, vec![Rank::Miner]);
    assert!(gs.captured_red.is_empty());
}

#[test]
fn mutual_destruction_records_both_losses() {
    let mut gs = combat_board(Rank::Captain, Rank::Captain);
    gs.make_move(Side::Blue, (5, 0), (4, 0)).unwrap();
    assert_eq!(gs.captured_blue, vec![Rank::Captain]);
    assert_eq!(gs.captured_red, vec![Rank::Captain]);
}

#[test]
fn flag_capture_records_flag_loss() {
    let mut gs = combat_board(Rank::Scout, Rank::Flag);
    gs.make_move(Side::Blue, (5, 0), (4, 0)).unwrap();
    assert_eq!(gs.captured_red, vec![Rank::Flag]);
    assert_eq!(gs.phase, Phase::GameOver(Side::Blue));
}

#[test]
fn plain_move_captures_nothing() {
    let mut gs = two_movers();
    move_and_confirm(&mut gs, Side::Blue, (9, 0), (8, 0));
    assert!(gs.captured_blue.is_empty());
    assert!(gs.captured_red.is_empty());
}

#[test]
fn two_squares_rule_blocks_fourth_hop() {
    let mut gs = two_movers();
    move_and_confirm(&mut gs, Side::Blue, (9, 0), (8, 0)); // hop 1
    move_and_confirm(&mut gs, Side::Red, (0, 0), (1, 0));
    move_and_confirm(&mut gs, Side::Blue, (8, 0), (9, 0)); // hop 2
    move_and_confirm(&mut gs, Side::Red, (1, 0), (0, 0));
    move_and_confirm(&mut gs, Side::Blue, (9, 0), (8, 0)); // hop 3, still legal
    move_and_confirm(&mut gs, Side::Red, (0, 9), (1, 9));
    // hop 4, forbidden
    assert!(matches!(
        gs.make_move(Side::Blue, (8, 0), (9, 0)),
        Err(ActionError::Move(MoveError::TwoSquares))
    ));
    // ...and the board is untouched: the piece is still on (8,0).
    assert!(matches!(gs.board.get((8, 0)), Square::Occupied(p) if p.owner == Side::Blue));
}

#[test]
fn two_squares_counter_resets_on_other_move() {
    let mut gs = two_movers();
    move_and_confirm(&mut gs, Side::Blue, (9, 0), (8, 0));
    move_and_confirm(&mut gs, Side::Red, (0, 0), (1, 0));
    move_and_confirm(&mut gs, Side::Blue, (8, 0), (9, 0));
    move_and_confirm(&mut gs, Side::Red, (1, 0), (0, 0));
    move_and_confirm(&mut gs, Side::Blue, (9, 0), (8, 0));
    move_and_confirm(&mut gs, Side::Red, (0, 9), (1, 9));
    // Blue moves a different piece: the shuttle counter resets.
    move_and_confirm(&mut gs, Side::Blue, (9, 9), (8, 9));
    move_and_confirm(&mut gs, Side::Red, (1, 9), (0, 9));
    // The previously forbidden hop is legal again.
    assert!(gs.make_move(Side::Blue, (8, 0), (9, 0)).is_ok());
}

#[test]
fn two_squares_rule_applies_to_scout_slides() {
    // Scout slides count by exact square pair, same as single steps.
    let mut gs = two_movers();
    move_and_confirm(&mut gs, Side::Blue, (9, 9), (6, 9)); // hop 1
    move_and_confirm(&mut gs, Side::Red, (0, 0), (1, 0));
    move_and_confirm(&mut gs, Side::Blue, (6, 9), (9, 9)); // hop 2
    move_and_confirm(&mut gs, Side::Red, (1, 0), (0, 0));
    move_and_confirm(&mut gs, Side::Blue, (9, 9), (6, 9)); // hop 3
    move_and_confirm(&mut gs, Side::Red, (0, 9), (1, 9));
    assert!(matches!(
        gs.make_move(Side::Blue, (6, 9), (9, 9)),
        Err(ActionError::Move(MoveError::TwoSquares))
    ));
}

#[test]
fn cancel_handoff_restores_shuttle_state() {
    let mut gs = two_movers();
    move_and_confirm(&mut gs, Side::Blue, (9, 0), (8, 0)); // count 1
    move_and_confirm(&mut gs, Side::Red, (0, 0), (1, 0));
    // Blue hops back (count 2) but reconsiders.
    gs.make_move(Side::Blue, (8, 0), (9, 0)).unwrap();
    gs.cancel_handoff().unwrap();
    assert_eq!(gs.shuttle_blue, Some(Shuttle { a: (9, 0), b: (8, 0), count: 1 }));
}

#[test]
fn reset_returns_to_fresh_setup() {
    let mut gs = combat_board(Rank::Marshal, Rank::Miner);
    // A capture fills captured_red, sets last_move and the shuttle, and
    // leaves a handoff pending.
    gs.make_move(Side::Blue, (5, 0), (4, 0)).unwrap();
    gs.reset();
    assert_eq!(gs.phase, Phase::SetupBlue);
    assert_eq!(gs.last_move, None);
    assert!(gs.captured_blue.is_empty());
    assert!(gs.captured_red.is_empty());
    assert_eq!(gs.shuttle_blue, None);
    assert!(gs.pending_handoff.is_none());
    assert!(gs.status().pending_handoff.is_none());
    // The board is empty again ((4,0) held the winning Marshal).
    assert_eq!(gs.board.get((4, 0)), Square::Empty);
}

#[test]
fn combat_reports_and_reveals_both_pieces() {
    let mut gs = combat_board(Rank::Marshal, Rank::Miner);
    let report = gs.make_move(Side::Blue, (5, 0), (4, 0)).unwrap().expect("combat");
    assert_eq!(report.row, 4);
    assert_eq!(report.col, 0);
    assert_eq!(report.attacker_owner, Side::Blue);
    assert_eq!(report.attacker_rank, Rank::Marshal);
    assert_eq!(report.defender_owner, Side::Red);
    assert_eq!(report.defender_rank, Rank::Miner);
    assert_eq!(report.outcome, CombatOutcome::AttackerWins);
    assert_eq!(
        gs.board.get((4, 0)),
        Square::Occupied(Piece { owner: Side::Blue, rank: Rank::Marshal, revealed: true })
    );
    assert_eq!(gs.board.get((5, 0)), Square::Empty);
    assert!(gs.pending_attack);
    assert_eq!(gs.pending_handoff, Some(Side::Blue));
    // Red now sees the Marshal's rank.
    let view = gs.board_view(Side::Red);
    assert!(matches!(
        view[4][0],
        SquareView::Piece { owner: Side::Blue, rank: Some(Rank::Marshal) }
    ));
    // ...but not the unrevealed Scout at (9,9).
    assert!(matches!(view[9][9], SquareView::Piece { owner: Side::Blue, rank: None }));
}

#[test]
fn attack_cannot_be_cancelled() {
    let mut gs = combat_board(Rank::Captain, Rank::Captain);
    gs.make_move(Side::Blue, (5, 0), (4, 0)).unwrap();
    assert_eq!(gs.cancel_handoff(), Err(ActionError::CannotCancelAttack));
    assert_eq!(gs.board.get((4, 0)), Square::Empty);
    assert_eq!(gs.confirm_handoff(), Ok(Side::Red));
    assert_eq!(gs.phase, Phase::Playing(Side::Red));
}

#[test]
fn handoff_errors() {
    let mut gs = two_movers();
    assert_eq!(gs.confirm_handoff(), Err(ActionError::NoPendingHandoff));
    assert_eq!(gs.cancel_handoff(), Err(ActionError::NoPendingHandoff));
    gs.make_move(Side::Blue, (9, 0), (8, 0)).unwrap();
    assert_eq!(
        gs.make_move(Side::Red, (0, 0), (1, 0)),
        Err(ActionError::HandoffPending)
    );
    assert_eq!(gs.cancel_handoff(), Ok(Side::Blue));
    assert_eq!(
        gs.make_move(Side::Red, (0, 0), (1, 0)),
        Err(ActionError::WrongPhase)
    );
    assert_eq!(
        gs.make_move(Side::Blue, (9, 0), (7, 0)),
        Err(ActionError::Move(MoveError::TooFar))
    );
}

#[test]
fn opponent_without_moves_loses_at_once() {
    // Red has only its Flag; Blue's move leaves Red no legal move.
    let mut gs = playing_with(&[
        ((9, 0), Side::Blue, Rank::Scout),
        ((0, 9), Side::Red, Rank::Flag),
    ]);
    assert_eq!(gs.make_move(Side::Blue, (9, 0), (8, 0)), Ok(None));
    assert_eq!(gs.phase, Phase::GameOver(Side::Blue));
    assert!(gs.pending_handoff.is_none());
    assert!(gs.undo_snapshot.is_none());
    // Nothing more can be played.
    assert_eq!(
        gs.make_move(Side::Blue, (8, 0), (7, 0)),
        Err(ActionError::WrongPhase)
    );
    // After the game every piece is shown.
    let view = gs.board_view(Side::Blue);
    assert!(matches!(
        view[0][9],
        SquareView::Piece { owner: Side::Red, rank: Some(Rank::Flag) }
    ));
}

#[test]
fn setup_flow_with_placement_and_handoffs() {
    let mut gs = GameState::new();
    assert_eq!(
        gs.place_piece(Side::Red, (0, 0), Rank::Flag),
        Err(ActionError::WrongPhase)
    );
    assert_eq!(
        gs.place_piece(Side::Blue, (0, 0), Rank::Flag),
        Err(ActionError::Placement(PlaceError::NotHomeRow))
    );
    assert_eq!(gs.place_piece(Side::Blue, (9, 0), Rank::Flag), Ok(()));
    assert_eq!(
        gs.place_piece(Side::Blue, (9, 1), Rank::Flag),
        Err(ActionError::Placement(PlaceError::RankQuotaExceeded))
    );
    assert_eq!(gs.finish_setup(Side::Blue), Err(ActionError::SetupIncomplete));
    // Move the Flag along, then take it back.
    assert_eq!(gs.reposition_piece(Side::Blue, (9, 0), (8, 3)), Ok(()));
    assert_eq!(gs.board.get((9, 0)), Square::Empty);
    assert_eq!(
        gs.board.get((8, 3)),
        Square::Occupied(Piece::new(Side::Blue, Rank::Flag))
    );
    assert_eq!(
        gs.reposition_piece(Side::Blue, (8, 3), (3, 3)),
        Err(ActionError::Placement(PlaceError::NotHomeRow))
    );
    assert_eq!(
        gs.board.get((8, 3)),
        Square::Occupied(Piece::new(Side::Blue, Rank::Flag))
    );
    assert_eq!(gs.unplace_piece(Side::Blue, (8, 3)), Ok(()));
    assert_eq!(
        gs.unplace_piece(Side::Blue, (8, 3)),
        Err(ActionError::Placement(PlaceError::SquareOccupied))
    );
    // During Blue's setup Red sees nothing of Blue.
    gs.place_piece(Side::Blue, (9, 0), Rank::Spy).unwrap();
    assert!(matches!(gs.board_view(Side::Red)[9][0], SquareView::Empty));
    assert!(matches!(
        gs.board_view(Side::Blue)[9][0],
        SquareView::Piece { owner: Side::Blue, rank: Some(Rank::Spy) }
    ));
    assert!(matches!(gs.board_view(Side::Blue)[4][2], SquareView::Lake));

    // A random setup fills the home rows with the whole set.
    assert_eq!(gs.random_setup(Side::Blue), Ok(()));
    assert!(setup_complete(&gs.board, Side::Blue));
    for row in 0..6 {
        for col in 0..10 {
            assert!(!matches!(gs.board.get((row, col)), Square::Occupied(_)));
        }
    }
    assert_eq!(gs.finish_setup(Side::Blue), Ok(()));
    assert!(matches!(gs.status().phase, PhaseDto::SetupBlue));
    assert_eq!(gs.status().pending_handoff, Some(Side::Blue));
    assert!(!gs.status().pending_attack);
    // Reconsider, then finish again and hand over.
    assert_eq!(gs.cancel_handoff(), Ok(Side::Blue));
    assert_eq!(gs.phase, Phase::SetupBlue);
    assert_eq!(gs.finish_setup(Side::Blue), Ok(()));
    assert_eq!(gs.confirm_handoff(), Ok(Side::Red));
    assert_eq!(gs.phase, Phase::SetupRed);
    assert_eq!(
        gs.place_piece(Side::Blue, (9, 0), Rank::Flag),
        Err(ActionError::WrongPhase)
    );

    assert_eq!(gs.random_setup(Side::Red), Ok(()));
    assert!(setup_complete(&gs.board, Side::Red));
    assert!(setup_complete(&gs.board, Side::Blue));
    assert_eq!(gs.finish_setup(Side::Red), Ok(()));
    assert_eq!(gs.confirm_handoff(), Ok(Side::Blue));
    assert_eq!(gs.phase, Phase::Playing(Side::Blue));
    assert!(matches!(
        gs.status().phase,
        PhaseDto::Playing { turn: Side::Blue }
    ));
    // Once play starts, the opponent's pieces show as card backs.
    assert!(matches!(
        gs.board_view(Side::Blue)[0][0],
        SquareView::Piece { owner: Side::Red, rank: None }
    ));
}

#[test]
fn random_setup_reshuffles_only_own_home_pieces() {
    let mut gs = GameState::new();
    gs.random_setup(Side::Blue).unwrap();
    gs.random_setup(Side::Blue).unwrap();
    assert!(setup_complete(&gs.board, Side::Blue));
    let mut pieces = 0;
    for row in 6..10 {
        for col in 0..10 {
            if let Square::Occupied(p) = gs.board.get((row, col)) {
                assert_eq!(p.owner, Side::Blue);
                assert!(!p.revealed);
                pieces += 1;
            }
        }
    }
    assert_eq!(pieces, 40);
    assert_eq!(gs.random_setup(Side::Red), Err(ActionError::WrongPhase));
}

#[test]
fn status_reports_last_move_and_losses() {
    let mut gs = combat_board(Rank::Miner, Rank::Marshal);
    gs.make_move(Side::Blue, (5, 0), (4, 0)).unwrap();
    let st = gs.status();
    let last = st.last_move.expect("last move");
    assert_eq!((last.from_row, last.from_col, last.to_row, last.to_col), (5, 0, 4, 0));
    assert_eq!(st.captured_blue, vec![Rank::Miner]);
    assert!(st.captured_red.is_empty());
    assert!(st.pending_attack);
    assert!(matches!(st.phase, PhaseDto::Playing { turn: Side::Blue }));
}
