use battleship::board::{Board, CellState, Placement, BOARD_SIZE};

fn ship_cell_count(b: &Board) -> usize {
    let mut n = 0;
    for r in 0..BOARD_SIZE {
        for c in 0..BOARD_SIZE {
            if b.cell_at(r, c) == CellState::Ship {
                n += 1;
            }
        }
    }
    n
}

#[test]
fn new_board_is_empty() {
    let b = Board::new();
    for r in 0..BOARD_SIZE {
        for c in 0..BOARD_SIZE {
            assert_eq!(b.cell_at(r, c), CellState::Empty);
        }
    }
    assert!(b.ship_cells().is_empty());
    assert!(b.is_game_over());
}

#[test]
fn can_place_respects_grid_edges() {
    let b = Board::new();
    assert!(b.can_place_ship(0, 5, 5, true));
    assert!(!b.can_place_ship(0, 6, 5, true));
    assert!(b.can_place_ship(5, 0, 5, false));
    assert!(!b.can_place_ship(6, 0, 5, false));
    assert!(b.can_place_ship(9, 9, 1, true));
    assert!(b.can_place_ship(9, 9, 1, false));
    assert!(!b.can_place_ship(9, 9, 2, true));
    assert!(!b.can_place_ship(9, 9, 2, false));
    assert!(!b.can_place_ship(10, 0, 1, true));
    assert!(!b.can_place_ship(0, 10, 1, false));
    assert!(!b.can_place_ship(0, 0, 11, true));
    assert!(!b.can_place_ship(0, 0, usize::MAX, false));
}

#[test]
fn can_place_empty_run_at_the_edge() {
    let b = Board::new();
    assert!(b.can_place_ship(10, 0, 0, false));
    assert!(b.can_place_ship(0, 10, 0, true));
    assert!(b.can_place_ship(10, 10, 0, true));
    assert!(b.can_place_ship(3, 3, 0, false));
    assert!(!b.can_place_ship(11, 0, 0, false));
    assert!(!b.can_place_ship(0, 11, 0, true));
    assert!(!b.can_place_ship(10, 0, 1, true));
}

#[test]
fn can_place_rejects_overlap() {
    let mut b = Board::new();
    b.place_ship_at(Placement { row: 2, col: 2, horizontal: true }, 3);
    assert!(!b.can_place_ship(0, 3, 3, false));
    assert!(!b.can_place_ship(2, 0, 3, true));
    assert!(b.can_place_ship(3, 3, 3, false));
    assert!(b.can_place_ship(2, 5, 3, true));
    assert_eq!(b.fire(7, 7), CellState::Miss);
    assert!(!b.can_place_ship(7, 5, 3, true));
    assert_eq!(b.fire(2, 2), CellState::Hit);
    assert!(!b.can_place_ship(0, 2, 3, false));
}

#[test]
fn place_ship_at_marks_cells_in_order() {
    let mut b = Board::new();
    b.place_ship_at(Placement { row: 4, col: 1, horizontal: false }, 3);
    assert_eq!(b.ship_cells(), vec![(4, 1), (5, 1), (6, 1)]);
    assert_eq!(b.cell_at(4, 1), CellState::Ship);
    assert_eq!(b.cell_at(6, 1), CellState::Ship);
    assert_eq!(b.cell_at(7, 1), CellState::Empty);
    assert_eq!(b.cell_at(4, 2), CellState::Empty);
    assert_eq!(ship_cell_count(&b), 3);
}

#[test]
fn place_ship_random_places_a_straight_run() {
    let mut b = Board::new();
    let p = b.place_ship(4).expect("an empty board has room");
    let cells = b.ship_cells();
    assert_eq!(cells.len(), 4);
    for (i, &(r, c)) in cells.iter().enumerate() {
        if p.horizontal {
            assert_eq!((r, c), (p.row, p.col + i));
        } else {
            assert_eq!((r, c), (p.row + i, p.col));
        }
        assert_eq!(b.cell_at(r, c), CellState::Ship);
    }
    assert_eq!(ship_cell_count(&b), 4);
}

#[test]
fn place_ship_too_long_is_refused() {
    let mut b = Board::new();
    assert_eq!(b.place_ship(BOARD_SIZE + 1), None);
    assert!(b.ship_cells().is_empty());
    assert_eq!(ship_cell_count(&b), 0);
}

#[test]
fn place_ship_on_crowded_board_finds_the_gap() {
    let mut b = Board::new();
    for r in 0..BOARD_SIZE {
        if r != 7 {
            b.place_ship_at(Placement { row: r, col: 0, horizontal: true }, BOARD_SIZE);
        }
    }
    b.place_ship_at(Placement { row: 7, col: 0, horizontal: true }, 6);
    let p = b.place_ship(4).expect("four cells are left in row 7");
    assert_eq!(p, Placement { row: 7, col: 6, horizontal: true });
    assert_eq!(b.place_ship(1), None);
}

#[test]
fn fire_on_empty_is_miss() {
    let mut b = Board::new();
    assert_eq!(b.fire(3, 4), CellState::Miss);
    assert_eq!(b.cell_at(3, 4), CellState::Miss);
    assert_eq!(b.cell_at(4, 3), CellState::Empty);
}

#[test]
fn fire_on_ship_is_hit() {
    let mut b = Board::new();
    b.place_ship_at(Placement { row: 0, col: 0, horizontal: true }, 2);
    assert_eq!(b.fire(0, 1), CellState::Hit);
    assert_eq!(b.cell_at(0, 1), CellState::Hit);
    assert_eq!(b.cell_at(0, 0), CellState::Ship);
}

#[test]
fn fire_again_changes_nothing() {
    let mut b = Board::new();
    b.place_ship_at(Placement { row: 0, col: 0, horizontal: true }, 2);
    assert_eq!(b.fire(0, 0), CellState::Hit);
    assert_eq!(b.fire(0, 0), CellState::Miss);
    assert_eq!(b.cell_at(0, 0), CellState::Hit);
    assert_eq!(b.fire(5, 5), CellState::Miss);
    assert_eq!(b.fire(5, 5), CellState::Miss);
    assert_eq!(b.cell_at(5, 5), CellState::Miss);
}

#[test]
fn game_over_after_every_segment_hit() {
    let mut b = Board::new();
    b.place_ship_at(Placement { row: 0, col: 0, horizontal: true }, 2);
    assert!(!b.is_game_over());
    b.fire(0, 0);
    assert!(!b.is_game_over());
    b.fire(5, 5);
    assert!(!b.is_game_over());
    b.fire(0, 1);
    assert!(b.is_game_over());
}

#[test]
fn fleet_occupies_seventeen_distinct_cells() {
    for _ in 0..50 {
        let (b, ps) = Board::with_fleet();
        let sizes = [5, 4, 3, 3, 2];
        assert_eq!(ps.len(), 5);
        let cells = b.ship_cells();
        assert_eq!(cells.len(), 17);
        let mut k = 0;
        for (p, &size) in ps.iter().zip(sizes.iter()) {
            for i in 0..size {
                let expected = if p.horizontal { (p.row, p.col + i) } else { (p.row + i, p.col) };
                assert_eq!(cells[k], expected);
                k += 1;
            }
        }
        for i in 0..cells.len() {
            for j in i + 1..cells.len() {
                assert_ne!(cells[i], cells[j]);
            }
        }
        assert_eq!(ship_cell_count(&b), 17);
        assert!(!b.is_game_over());
    }
}
