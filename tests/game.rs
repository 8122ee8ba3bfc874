use battleship::board::{CellState, BOARD_SIZE};
use battleship::game::{generate_opponent_move, next_phase, Game, Phase};

#[test]
fn opponent_moves_stay_on_the_grid() {
    for _ in 0..500 {
        let (r, c) = generate_opponent_move();
        assert!(r < BOARD_SIZE && c < BOARD_SIZE);
    }
}

#[test]
fn player_wins_after_sweeping_the_grid() {
    let mut g = Game::new();
    assert!(!g.player.is_game_over());
    assert!(!g.opponent.is_game_over());
    let mut hits = 0;
    let mut last = None;
    'outer: for r in 0..BOARD_SIZE {
        for c in 0..BOARD_SIZE {
            let s = g.player_turn(r, c);
            assert_eq!((s.row, s.col), (r, c));
            if s.result == CellState::Hit {
                hits += 1;
            }
            if s.game_over {
                last = Some((r, c));
                break 'outer;
            }
        }
    }
    assert_eq!(hits, 17);
    assert!(last.is_some());
    assert!(g.opponent.is_game_over());
    assert!(!g.player.is_game_over());
}

#[test]
fn opponent_turn_fires_on_player_board() {
    let mut g = Game::new();
    let s = g.opponent_turn();
    assert!(s.row < BOARD_SIZE && s.col < BOARD_SIZE);
    let after = g.player.cell_at(s.row, s.col);
    match s.result {
        CellState::Hit => assert_eq!(after, CellState::Hit),
        _ => assert_eq!(after, CellState::Miss),
    }
    assert!(!s.game_over);
}

#[test]
fn turns_alternate_until_a_board_is_lost() {
    assert_eq!(next_phase(Phase::PlayerToFire, false), Phase::OpponentToFire);
    assert_eq!(next_phase(Phase::OpponentToFire, false), Phase::PlayerToFire);
    assert_eq!(next_phase(Phase::PlayerToFire, true), Phase::PlayerWon);
    assert_eq!(next_phase(Phase::OpponentToFire, true), Phase::OpponentWon);
    assert_eq!(next_phase(Phase::PlayerWon, false), Phase::PlayerWon);
    assert_eq!(next_phase(Phase::OpponentWon, true), Phase::OpponentWon);
}
