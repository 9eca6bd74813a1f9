use battleship::board::{Board, CellState};
use battleship::strategy::generate_opponent_move;
use battleship::turns::{Match, TurnState};

#[test]
fn player_win_path_follows_the_state_machine() {
    let mut rng = rand::thread_rng();
    let mut player_board = Board::new();
    player_board.place_ship_at(0, 0, 2, true).unwrap();
    let mut opponent_board = Board::new();
    opponent_board.place_ship_at(5, 5, 2, false).unwrap();
    let mut m = Match::new(player_board, opponent_board);
    assert_eq!(m.turn_state(), TurnState::PlayerTurn);
    assert!(!m.is_finished());

    assert_eq!(m.player_fire(5, 5), CellState::Hit);
    assert_eq!(m.turn_state(), TurnState::OpponentTurn);

    // One random shot cannot sink a two-cell fleet.
    let _shot = m.opponent_fire(&mut rng);
    assert_eq!(m.turn_state(), TurnState::PlayerTurn);

    assert_eq!(m.player_fire(6, 5), CellState::Hit);
    assert_eq!(m.turn_state(), TurnState::PlayerWon);
    assert!(m.is_finished());
    assert_eq!(m.opponent_cell(5, 5), Ok(CellState::Hit));
    assert_eq!(m.opponent_cell(6, 5), Ok(CellState::Hit));
}

#[test]
fn full_random_match_reaches_a_terminal_state() {
    let mut rng = rand::thread_rng();
    let mut m = Match::new_with_fleet(&mut rng).unwrap();
    assert_eq!(m.turn_state(), TurnState::PlayerTurn);
    let mut next: usize = 0;
    for _ in 0..100000 {
        match m.turn_state() {
            TurnState::PlayerTurn => {
                let row = (next / 10) % 10;
                let col = next % 10;
                next += 1;
                m.player_fire(row, col);
            }
            TurnState::OpponentTurn => {
                m.opponent_fire(&mut rng);
            }
            _ => break,
        }
    }
    assert!(m.is_finished());
    assert!(
        m.turn_state() == TurnState::PlayerWon || m.turn_state() == TurnState::OpponentWon
    );
}

#[test]
fn opponent_move_stays_on_the_grid() {
    let mut rng = rand::thread_rng();
    for _ in 0..1000 {
        let (row, col) = generate_opponent_move(&mut rng);
        assert!(row < 10 && col < 10);
    }
}
