use battleship::board::{Board, BoardError, CellState};

#[test]
fn new_board_all_empty() {
    let b = Board::new();
    assert_eq!(b.size(), 10);
    assert_eq!(b.ship_count(), 0);
    for row in 0..10 {
        for col in 0..10 {
            assert_eq!(b.cell_state(row, col), Ok(CellState::Empty));
        }
    }
    assert!(b.is_game_over());
}

#[test]
fn with_size_builds_small_board() {
    let b = Board::with_size(3);
    assert_eq!(b.size(), 3);
    for row in 0..3 {
        for col in 0..3 {
            assert_eq!(b.cell_state(row, col), Ok(CellState::Empty));
        }
    }
}

#[test]
fn cell_state_rejects_out_of_bounds() {
    let b = Board::new();
    assert_eq!(b.cell_state(10, 0), Err(BoardError::OutOfBounds));
    assert_eq!(b.cell_state(0, 10), Err(BoardError::OutOfBounds));
    assert_eq!(b.cell_state(10, 10), Err(BoardError::OutOfBounds));
}

#[test]
fn fire_on_empty_misses_permanently() {
    let mut b = Board::new();
    assert_eq!(b.fire(5, 5), CellState::Missed);
    assert_eq!(b.cell_state(5, 5), Ok(CellState::Missed));
    assert_eq!(b.fire(5, 5), CellState::Missed);
    assert_eq!(b.cell_state(5, 5), Ok(CellState::Missed));
}

#[test]
fn fire_on_empty_board_is_vacuously_game_over() {
    let mut b = Board::new();
    assert_eq!(b.fire(5, 5), CellState::Missed);
    assert!(b.is_game_over());
}

#[test]
fn first_hit_then_refire_reports_missed() {
    let mut b = Board::new();
    b.place_ship_at(0, 0, 3, true).unwrap();
    assert_eq!(b.fire(0, 0), CellState::Hit);
    assert_eq!(b.cell_state(0, 0), Ok(CellState::Hit));
    assert_eq!(b.fire(0, 0), CellState::Missed);
    assert_eq!(b.cell_state(0, 0), Ok(CellState::Hit));
}

#[test]
fn sinking_a_single_ship_ends_the_game() {
    let mut b = Board::new();
    b.place_ship_at(0, 0, 3, true).unwrap();
    assert_eq!(b.fire(0, 0), CellState::Hit);
    assert!(!b.is_game_over());
    assert_eq!(b.fire(0, 1), CellState::Hit);
    assert!(!b.is_game_over());
    assert_eq!(b.fire(0, 2), CellState::Hit);
    assert!(b.is_game_over());
}

#[test]
fn one_horizontal_ship_occupies_exactly_three_contiguous_cells() {
    let mut b = Board::new();
    b.place_ship_at(2, 4, 3, true).unwrap();
    let mut occupied: Vec<(usize, usize)> = Vec::new();
    for row in 0..10 {
        for col in 0..10 {
            if b.cell_state(row, col) == Ok(CellState::Occupied) {
                occupied.push((row, col));
            }
        }
    }
    assert_eq!(occupied, vec![(2, 4), (2, 5), (2, 6)]);
    assert_eq!(b.ship_count(), 3);
}

#[test]
fn placement_rejects_overlap_and_leaves_board_unchanged() {
    let mut b = Board::new();
    b.place_ship_at(0, 0, 3, true).unwrap();
    assert_eq!(
        b.place_ship_at(0, 2, 3, false),
        Err(BoardError::PlacementExhausted)
    );
    assert_eq!(b.ship_count(), 3);
    assert_eq!(b.cell_state(1, 2), Ok(CellState::Empty));
}

#[test]
fn can_place_ship_checks_bounds_and_occupancy() {
    let mut b = Board::new();
    assert!(b.can_place_ship(0, 7, 3, true));
    assert!(!b.can_place_ship(0, 8, 3, true));
    assert!(b.can_place_ship(7, 0, 3, false));
    assert!(!b.can_place_ship(8, 0, 3, false));
    b.place_ship_at(0, 0, 3, true).unwrap();
    assert!(!b.can_place_ship(0, 2, 3, false));
    assert!(b.can_place_ship(1, 0, 3, false));
}

#[test]
fn full_fleet_gives_seventeen_distinct_ship_cells_in_bounds() {
    let mut rng = rand::thread_rng();
    let mut b = Board::new();
    for len in [5, 4, 3, 3, 2] {
        b.place_ship(len, &mut rng).unwrap();
    }
    assert_eq!(b.ship_count(), 17);
    let mut cells: Vec<(usize, usize)> = Vec::new();
    for i in 0..b.ship_count() {
        let rc = b.ship_cell(i);
        assert!(rc.0 < 10 && rc.1 < 10);
        assert!(!cells.contains(&rc));
        cells.push(rc);
    }
    for rc in &cells {
        assert_eq!(b.cell_state(rc.0, rc.1), Ok(CellState::Occupied));
    }
}

#[test]
fn placement_fails_only_when_no_room_exists() {
    let mut rng = rand::thread_rng();
    let mut b = Board::with_size(2);
    assert_eq!(
        b.place_ship(3, &mut rng),
        Err(BoardError::PlacementExhausted)
    );
    assert_eq!(b.ship_count(), 0);
    assert!(b.place_ship(2, &mut rng).is_ok());
    assert_eq!(b.ship_count(), 2);
}
