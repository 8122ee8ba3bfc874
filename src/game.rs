//! Setting up the two fleets and resolving each side's shot.
use crate::board::{fits, in_grid, run, Board, CellState, Placement, BOARD_SIZE};
use crate::random::random_below;
use crate::room::lemma_room_for_ship;
use vstd::prelude::*;

verus! {

/// Segments of each ship of the fleet, in placement order.
pub open spec fn fleet_size(i: int) -> int {
    if i == 0 {
        5
    } else if i == 1 {
        4
    } else if i == 2 || i == 3 {
        3
    } else {
        2
    }
}

/// The cells of the fleet placed at `ps`, ship after ship.
pub open spec fn fleet_cells(ps: Seq<Placement>) -> Seq<(usize, usize)> {
    run(ps[0], 5) + run(ps[1], 4) + run(ps[2], 3) + run(ps[3], 3) + run(ps[4], 2)
}

/// A board just after setup: its ship list is exactly the fleet at `ps`,
/// each ship straight and on the grid, no two sharing a cell, and no cell
/// fired upon yet.
pub open spec fn fleet_board(b: Board, ps: Seq<Placement>) -> bool {
    &&& b.wf()
    &&& ps.len() == 5
    &&& forall|i: int| 0 <= i < 5 ==> #[trigger] fits(ps[i], fleet_size(i))
    &&& b.ships() == fleet_cells(ps)
    &&& b.ships().len() == 17
    &&& b.ships().no_duplicates()
    &&& forall|r: int, c: int|
        in_grid(r, c) ==> (#[trigger] b.cell(r, c) is Ship <==> b.ships().contains(
            (r as usize, c as usize),
        ))
    &&& unfired(b)
}

/// No cell of `b` has been fired upon.
pub open spec fn unfired(b: Board) -> bool {
    forall|r: int, c: int| in_grid(r, c) ==> (#[trigger] b.cell(r, c) is Empty || b.cell(r, c) is Ship)
}

/// A board with no segment hit, as after setup, is not lost yet when it
/// holds any ship.
pub proof fn lemma_fresh_fleet_afloat(b: Board)
    requires
        b.wf(),
        b.ships().len() > 0,
        forall|r: int, c: int| in_grid(r, c) ==> !(#[trigger] b.cell(r, c) is Hit),
    ensures
        !b.all_sunk(),
{
    let s = b.ships();
    assert(in_grid(s[0].0 as int, s[0].1 as int));
    assert(!(b.cell(s[0].0 as int, s[0].1 as int) is Hit));
}

impl Board {
    /// Places a ship on a board that is known to have room for it.
    fn place_ship_with_room(&mut self, size: usize) -> (p: Placement)
        requires
            old(self).wf(),
            size <= 5,
            old(self).ships().len() < 2 * BOARD_SIZE,
            unfired(*old(self)),
        ensures
            final(self).wf(),
            unfired(*final(self)),
            final(self).ships().len() == old(self).ships().len() + size,
            old(self).can_place(p, size as int),
            old(self).placed(*final(self), p, size as int),
    {
        match self.place_ship(size) {
            Some(p) => {
                assert(run(p, size as int).len() == size);
                assert forall|r: int, c: int| in_grid(r, c) implies (#[trigger] self.cell(r, c) is Empty
                    || self.cell(r, c) is Ship) by {
                    assert(old(self).cell(r, c) is Empty || old(self).cell(r, c) is Ship);
                }
                p
            },
            None => {
                proof {
                    let q = lemma_room_for_ship(*self, size as int);
                    assert(!self.can_place(q, size as int));
                }
                Placement { row: 0, col: 0, horizontal: true }
            },
        }
    }

    /// A fresh board with the fleet of ships of 5, 4, 3, 3 and 2 segments
    /// placed at random, and where each ship went.
    pub fn with_fleet() -> (r: (Board, Vec<Placement>))
        ensures
            fleet_board(r.0, r.1@),
            !r.0.all_sunk(),
    {
        let mut b = Board::new();
        let mut ps: Vec<Placement> = Vec::new();
        let carrier = b.place_ship_with_room(5);
        let battleship = b.place_ship_with_room(4);
        let cruiser = b.place_ship_with_room(3);
        let submarine = b.place_ship_with_room(3);
        let destroyer = b.place_ship_with_room(2);
        ps.push(carrier);
        ps.push(battleship);
        ps.push(cruiser);
        ps.push(submarine);
        ps.push(destroyer);
        proof {
            assert(b.ships() =~= fleet_cells(ps@));
            assert forall|i: int| 0 <= i < 5 implies #[trigger] fits(ps@[i], fleet_size(i)) by {}
            assert forall|r: int, c: int| in_grid(r, c) implies (#[trigger] b.cell(r, c) is Ship
                <==> b.ships().contains((r as usize, c as usize))) by {
                if b.ships().contains((r as usize, c as usize)) {
                    let j = choose|j: int|
                        0 <= j < b.ships().len() && b.ships()[j] == (r as usize, c as usize);
                    assert(in_grid(b.ships()[j].0 as int, b.ships()[j].1 as int));
                    assert(b.is_ship_segment(r, c));
                    assert(b.cell(r, c) is Empty || b.cell(r, c) is Ship);
                }
                if b.cell(r, c) is Ship {
                    assert(b.is_ship_segment(r, c));
                }
            }
            lemma_fresh_fleet_afloat(b);
        }
        (b, ps)
    }
}

/// One resolved shot: where it went, what it did, and whether the board
/// fired upon has no ship segment left unhit.
#[derive(Clone, Copy, Debug, PartialEq, Eq, Structural)]
pub struct Shot {
    pub row: usize,
    pub col: usize,
    pub result: CellState,
    pub game_over: bool,
}

/// Where a game stands between shots.
#[derive(Clone, Copy, Debug, PartialEq, Eq, Structural)]
pub enum Phase {
    PlayerToFire,
    OpponentToFire,
    PlayerWon,
    OpponentWon,
}

/// The phase after a shot taken in `phase` that left the board fired upon
/// lost (`game_over`) or not: a lost board ends the game for the side that
/// fired; otherwise the other side fires next. A finished game stays
/// finished.
pub open spec fn phase_after(phase: Phase, game_over: bool) -> Phase {
    match phase {
        Phase::PlayerToFire => if game_over {
            Phase::PlayerWon
        } else {
            Phase::OpponentToFire
        },
        Phase::OpponentToFire => if game_over {
            Phase::OpponentWon
        } else {
            Phase::PlayerToFire
        },
        _ => phase,
    }
}

/// The phase that follows a shot taken in `phase`.
pub fn next_phase(phase: Phase, game_over: bool) -> (r: Phase)
    ensures
        r == phase_after(phase, game_over),
{
    match phase {
        Phase::PlayerToFire => if game_over {
            Phase::PlayerWon
        } else {
            Phase::OpponentToFire
        },
        Phase::OpponentToFire => if game_over {
            Phase::OpponentWon
        } else {
            Phase::PlayerToFire
        },
        _ => phase,
    }
}

/// The two boards of a game: the human player's and the computer
/// opponent's.
pub struct Game {
    pub player: Board,
    pub opponent: Board,
}

/// A uniformly random target cell for the opponent, with no memory of
/// earlier shots.
pub fn generate_opponent_move() -> (r: (usize, usize))
    ensures
        r.0 < BOARD_SIZE,
        r.1 < BOARD_SIZE,
{
    let row = random_below(BOARD_SIZE);
    let col = random_below(BOARD_SIZE);
    (row, col)
}

impl Game {
    pub open spec fn wf(self) -> bool {
        self.player.wf() && self.opponent.wf()
    }

    /// Both boards set up with their fleets.
    pub fn new() -> (g: Game)
        ensures
            g.wf(),
            exists|ps: Seq<Placement>| fleet_board(g.player, ps),
            exists|ps: Seq<Placement>| fleet_board(g.opponent, ps),
            !g.player.all_sunk(),
            !g.opponent.all_sunk(),
    {
        let (player, _) = Board::with_fleet();
        let (opponent, _) = Board::with_fleet();
        Game { player, opponent }
    }

    /// The player fires at `(row, col)` on the opponent's board; the game is
    /// over, won by the player, when that board has no unhit segment left.
    pub fn player_turn(&mut self, row: usize, col: usize) -> (s: Shot)
        requires
            old(self).wf(),
            row < BOARD_SIZE,
            col < BOARD_SIZE,
        ensures
            final(self).wf(),
            final(self).player == old(self).player,
            old(self).opponent.fired(final(self).opponent, row as int, col as int, s.result),
            s.row == row && s.col == col,
            s.game_over == final(self).opponent.all_sunk(),
    {
        let result = self.opponent.fire(row, col);
        let game_over = self.opponent.is_game_over();
        Shot { row, col, result, game_over }
    }

    /// The opponent fires at a random cell of the player's board; the game
    /// is over, lost by the player, when that board has no unhit segment
    /// left.
    pub fn opponent_turn(&mut self) -> (s: Shot)
        requires
            old(self).wf(),
        ensures
            final(self).wf(),
            final(self).opponent == old(self).opponent,
            s.row < BOARD_SIZE && s.col < BOARD_SIZE,
            old(self).player.fired(final(self).player, s.row as int, s.col as int, s.result),
            s.game_over == final(self).player.all_sunk(),
    {
        let (row, col) = generate_opponent_move();
        self.player_turn_at(row, col)
    }

    fn player_turn_at(&mut self, row: usize, col: usize) -> (s: Shot)
        requires
            old(self).wf(),
            row < BOARD_SIZE,
            col < BOARD_SIZE,
        ensures
            final(self).wf(),
            final(self).opponent == old(self).opponent,
            old(self).player.fired(final(self).player, row as int, col as int, s.result),
            s.row == row && s.col == col,
            s.game_over == final(self).player.all_sunk(),
    {
        let result = self.player.fire(row, col);
        let game_over = self.player.is_game_over();
        Shot { row, col, result, game_over }
    }
}

} // verus!
