use crate::random::{random_below, random_bool};
use vstd::prelude::*;

verus! {

/// Side length of the square grid.
pub const BOARD_SIZE: usize = 10;

/// How many random placements `Board::place_ship` draws before it tries
/// every placement in turn.
pub const RANDOM_ATTEMPTS: usize = 10000;

/// The state of one cell of a board.
#[derive(Clone, Copy, Debug, PartialEq, Eq, Structural)]
pub enum CellState {
    Empty,
    Ship,
    Hit,
    Miss,
}

/// Where a ship starts and which way it runs: along a row (`horizontal`)
/// or down a column.
#[derive(Clone, Copy, Debug, PartialEq, Eq, Structural)]
pub struct Placement {
    pub row: usize,
    pub col: usize,
    pub horizontal: bool,
}

/// A grid of cells, stored row-major, and the coordinates of every ship
/// segment placed on it, in the order they were placed.
pub struct Board {
    grid: Vec<CellState>,
    ships: Vec<(usize, usize)>,
}

/// Position of cell `(r, c)` in the row-major grid.
pub open spec fn index_of(r: int, c: int) -> int {
    r * BOARD_SIZE + c
}

pub open spec fn in_grid(r: int, c: int) -> bool {
    0 <= r < BOARD_SIZE && 0 <= c < BOARD_SIZE
}

/// The `i`-th cell of a ship of placement `p`.
pub open spec fn run_cell(p: Placement, i: int) -> (int, int) {
    if p.horizontal {
        (p.row as int, p.col + i)
    } else {
        (p.row + i, p.col as int)
    }
}

/// The cells of a ship of `size` segments at `p`, in order.
pub open spec fn run(p: Placement, size: int) -> Seq<(usize, usize)> {
    Seq::new(size as nat, |i: int| (run_cell(p, i).0 as usize, run_cell(p, i).1 as usize))
}

/// Whether the ship of `size` segments at `p` covers cell `(r, c)`.
pub open spec fn covers(p: Placement, size: int, r: int, c: int) -> bool {
    if p.horizontal {
        r == p.row && p.col <= c < p.col + size
    } else {
        c == p.col && p.row <= r < p.row + size
    }
}

/// Every cell of the ship lies on the grid: its run ends by the grid's edge
/// and, unless the ship is empty, its row (or column) is one of the grid's.
pub open spec fn fits(p: Placement, size: int) -> bool {
    if p.horizontal {
        p.col + size <= BOARD_SIZE && (size == 0 || p.row < BOARD_SIZE)
    } else {
        p.row + size <= BOARD_SIZE && (size == 0 || p.col < BOARD_SIZE)
    }
}

/// On a well-formed board the game is over exactly when no cell of the
/// grid still holds an unhit ship segment.
pub proof fn lemma_game_over_iff_no_ship_left(b: Board)
    requires
        b.wf(),
    ensures
        b.all_sunk() <==> forall|r: int, c: int| in_grid(r, c) ==> !(#[trigger] b.cell(r, c) is Ship),
{
    if b.all_sunk() {
        assert forall|r: int, c: int| in_grid(r, c) implies !(#[trigger] b.cell(r, c) is Ship) by {
            if b.cell(r, c) is Ship {
                assert(b.is_ship_segment(r, c));
                let j = choose|j: int|
                    0 <= j < b.ships().len() && b.ships()[j] == (r as usize, c as usize);
                assert(b.cell(b.ships()[j].0 as int, b.ships()[j].1 as int) is Hit);
            }
        }
    }
    if forall|r: int, c: int| in_grid(r, c) ==> !(#[trigger] b.cell(r, c) is Ship) {
        assert forall|i: int| 0 <= i < b.ships().len() implies #[trigger] b.cell(
            b.ships()[i].0 as int,
            b.ships()[i].1 as int,
        ) is Hit by {
            assert(in_grid(b.ships()[i].0 as int, b.ships()[i].1 as int));
        }
    }
}

impl Board {
    /// The cells, row-major.
    pub closed spec fn cells(self) -> Seq<CellState> {
        self.grid@
    }

    /// Coordinates of every ship segment ever placed, in placement order.
    pub closed spec fn ships(self) -> Seq<(usize, usize)> {
        self.ships@
    }

    pub open spec fn cell(self, r: int, c: int) -> CellState {
        self.cells()[index_of(r, c)]
    }

    pub open spec fn is_ship_segment(self, r: int, c: int) -> bool {
        self.cell(r, c) is Ship || self.cell(r, c) is Hit
    }

    /// The grid has its full size, and the ship list holds each cell that
    /// is `Ship` or `Hit`, once, and nothing else.
    pub open spec fn wf(self) -> bool {
        &&& self.cells().len() == BOARD_SIZE * BOARD_SIZE
        &&& self.ships().no_duplicates()
        &&& forall|i: int|
            0 <= i < self.ships().len() ==> {
                &&& #[trigger] in_grid(self.ships()[i].0 as int, self.ships()[i].1 as int)
                &&& self.is_ship_segment(self.ships()[i].0 as int, self.ships()[i].1 as int)
            }
        &&& forall|r: int, c: int|
            in_grid(r, c) && #[trigger] self.is_ship_segment(r, c) ==> self.ships().contains(
                (r as usize, c as usize),
            )
    }

    /// A ship of `size` segments fits at `p` and every cell it would cover
    /// is `Empty`.
    pub open spec fn can_place(self, p: Placement, size: int) -> bool {
        &&& fits(p, size)
        &&& forall|r: int, c: int|
            #[trigger] covers(p, size, r, c) ==> self.cell(r, c) is Empty
    }

    /// `next` is this board with a ship of `size` segments added at `p`.
    pub open spec fn placed(self, next: Board, p: Placement, size: int) -> bool {
        &&& next.ships() == self.ships() + run(p, size)
        &&& next.cells().len() == self.cells().len()
        &&& forall|r: int, c: int|
            in_grid(r, c) ==> #[trigger] next.cell(r, c) == if covers(p, size, r, c) {
                CellState::Ship
            } else {
                self.cell(r, c)
            }
    }

    /// `next` and `shot` are what firing at `(row, col)` makes of this
    /// board: `Empty` turns `Miss` and misses, `Ship` turns `Hit` and hits,
    /// a cell already fired upon is left alone and counts as a miss.
    pub open spec fn fired(self, next: Board, row: int, col: int, shot: CellState) -> bool {
        &&& next.ships() == self.ships()
        &&& match self.cell(row, col) {
            CellState::Empty => shot is Miss && next.cells() == self.cells().update(
                index_of(row, col),
                CellState::Miss,
            ),
            CellState::Ship => shot is Hit && next.cells() == self.cells().update(
                index_of(row, col),
                CellState::Hit,
            ),
            _ => shot is Miss && next.cells() == self.cells(),
        }
    }

    /// Every ship segment has been hit.
    pub open spec fn all_sunk(self) -> bool {
        forall|i: int|
            0 <= i < self.ships().len() ==> #[trigger] self.cell(
                self.ships()[i].0 as int,
                self.ships()[i].1 as int,
            ) is Hit
    }

    /// An empty board: every cell `Empty`, no ships.
    pub fn new() -> (b: Board)
        ensures
            b.wf(),
            b.ships().len() == 0,
            forall|r: int, c: int| in_grid(r, c) ==> #[trigger] b.cell(r, c) is Empty,
    {
        let mut grid: Vec<CellState> = Vec::new();
        let mut i: usize = 0;
        while i < BOARD_SIZE * BOARD_SIZE
            invariant
                i <= BOARD_SIZE * BOARD_SIZE,
                grid@.len() == i,
                forall|k: int| 0 <= k < i ==> grid@[k] is Empty,
            decreases BOARD_SIZE * BOARD_SIZE - i,
        {
            grid.push(CellState::Empty);
            i = i + 1;
        }
        Board { grid, ships: Vec::new() }
    }

    /// The state of cell `(row, col)`.
    pub fn cell_at(&self, row: usize, col: usize) -> (s: CellState)
        requires
            self.wf(),
            row < BOARD_SIZE,
            col < BOARD_SIZE,
        ensures
            s == self.cell(row as int, col as int),
    {
        self.grid[row * BOARD_SIZE + col]
    }

    /// The coordinates of every ship segment, in placement order.
    pub fn ship_cells(&self) -> (v: Vec<(usize, usize)>)
        ensures
            v@ == self.ships(),
    {
        let mut v: Vec<(usize, usize)> = Vec::new();
        let mut i: usize = 0;
        while i < self.ships.len()
            invariant
                i <= self.ships@.len(),
                v@ == self.ships@.take(i as int),
            decreases self.ships@.len() - i,
        {
            v.push(self.ships[i]);
            i = i + 1;
            assert(v@ =~= self.ships@.take(i as int));
        }
        assert(v@ =~= self.ships@);
        v
    }

    /// Whether a ship of `size` segments can start at `(row, col)` and run
    /// along the row (`direction`) or down the column: it stays on the grid
    /// and covers only `Empty` cells.
    pub fn can_place_ship(&self, row: usize, col: usize, size: usize, direction: bool) -> (r: bool)
        requires
            self.wf(),
        ensures
            r == self.can_place(Placement { row, col, horizontal: direction }, size as int),
    {
        let ghost p = Placement { row, col, horizontal: direction };
        if direction {
            if col > BOARD_SIZE || size > BOARD_SIZE - col {
                return false;
            }
        } else {
            if row > BOARD_SIZE || size > BOARD_SIZE - row {
                return false;
            }
        }
        if size == 0 {
            return true;
        }
        if row >= BOARD_SIZE || col >= BOARD_SIZE {
            return false;
        }
        if direction {
            let mut i: usize = 0;
            while i < size
                invariant
                    self.wf(),
                    p == (Placement { row, col, horizontal: direction }),
                    direction,
                    row < BOARD_SIZE,
                    col + size <= BOARD_SIZE,
                    i <= size,
                    forall|r: int, c: int|
                        #[trigger] covers(p, i as int, r, c) ==> self.cell(r, c) is Empty,
                decreases size - i,
            {
                if self.grid[row * BOARD_SIZE + col + i] != CellState::Empty {
                    assert(covers(p, size as int, row as int, (col + i) as int));
                    return false;
                }
                assert forall|r: int, c: int| #[trigger] covers(p, i + 1, r, c) implies self.cell(
                    r,
                    c,
                ) is Empty by {
                    if !covers(p, i as int, r, c) {
                        assert(r == run_cell(p, i as int).0 && c == run_cell(p, i as int).1);
                    }
                }
                i = i + 1;
            }
        } else {
            let mut i: usize = 0;
            while i < size
                invariant
                    self.wf(),
                    p == (Placement { row, col, horizontal: direction }),
                    !direction,
                    col < BOARD_SIZE,
                    row + size <= BOARD_SIZE,
                    i <= size,
                    forall|r: int, c: int|
                        #[trigger] covers(p, i as int, r, c) ==> self.cell(r, c) is Empty,
                decreases size - i,
            {
                if self.grid[(row + i) * BOARD_SIZE + col] != CellState::Empty {
                    assert(covers(p, size as int, (row + i) as int, col as int));
                    return false;
                }
                assert forall|r: int, c: int| #[trigger] covers(p, i + 1, r, c) implies self.cell(
                    r,
                    c,
                ) is Empty by {
                    if !covers(p, i as int, r, c) {
                        assert(r == run_cell(p, i as int).0 && c == run_cell(p, i as int).1);
                    }
                }
                i = i + 1;
            }
        }
        true
    }

    /// Places a ship of `size` segments at `p`: each covered cell becomes
    /// `Ship` and its coordinates are appended to the ship list, from the
    /// start cell onwards.
    pub fn place_ship_at(&mut self, p: Placement, size: usize)
        requires
            old(self).wf(),
            old(self).can_place(p, size as int),
        ensures
            final(self).wf(),
            old(self).placed(*final(self), p, size as int),
    {
        let mut i: usize = 0;
        while i < size
            invariant
                old(self).wf(),
                old(self).can_place(p, size as int),
                i <= size,
                self.wf(),
                old(self).placed(*self, p, i as int),
            decreases size - i,
        {
            let (r, c) = if p.horizontal {
                (p.row, p.col + i)
            } else {
                (p.row + i, p.col)
            };
            proof {
                assert(covers(p, size as int, r as int, c as int));
                assert(!covers(p, i as int, r as int, c as int));
                assert(self.cell(r as int, c as int) is Empty);
                if self.ships@.contains((r, c)) {
                    let j = choose|j: int| 0 <= j < self.ships@.len() && self.ships@[j] == (r, c);
                    assert(in_grid(self.ships()[j].0 as int, self.ships()[j].1 as int));
                }
            }
            let ghost before = *self;
            self.grid.set(r * BOARD_SIZE + c, CellState::Ship);
            self.ships.push((r, c));
            proof {
                assert forall|rr: int, cc: int| in_grid(rr, cc) implies #[trigger] self.cell(rr, cc)
                    == if rr == r && cc == c {
                    CellState::Ship
                } else {
                    before.cell(rr, cc)
                } by {
                    if rr != r || cc != c {
                        assert(index_of(rr, cc) != index_of(r as int, c as int));
                    }
                }
                assert(self.ships@ =~= old(self).ships() + run(p, i + 1));
                assert forall|k: int| 0 <= k < self.ships().len() implies {
                    &&& #[trigger] in_grid(self.ships()[k].0 as int, self.ships()[k].1 as int)
                    &&& self.is_ship_segment(self.ships()[k].0 as int, self.ships()[k].1 as int)
                } by {
                    if k < before.ships().len() {
                        assert(in_grid(before.ships()[k].0 as int, before.ships()[k].1 as int));
                    }
                }
                assert forall|rr: int, cc: int|
                    in_grid(rr, cc) && #[trigger] self.is_ship_segment(rr, cc) implies self.ships().contains(
                    (rr as usize, cc as usize),
                ) by {
                    if rr == r && cc == c {
                        assert(self.ships()[self.ships().len() - 1] == (r, c));
                    } else {
                        assert(before.is_ship_segment(rr, cc));
                        let j = choose|j: int|
                            0 <= j < before.ships().len() && before.ships()[j] == (
                                rr as usize,
                                cc as usize,
                            );
                        assert(self.ships()[j] == (rr as usize, cc as usize));
                    }
                }
            }
            i = i + 1;
        }
    }

    /// Places a ship of `size` segments at a random start cell and
    /// orientation, drawing again until the ship fits on `Empty` cells. The
    /// draws are capped; should they all miss, every placement is tried in
    /// turn, so a ship is placed whenever any placement is possible.
    /// Returns where the ship went, or `None` (board unchanged) when no
    /// placement exists.
    pub fn place_ship(&mut self, size: usize) -> (r: Option<Placement>)
        requires
            old(self).wf(),
        ensures
            final(self).wf(),
            match r {
                Some(p) => old(self).can_place(p, size as int) && old(self).placed(
                    *final(self),
                    p,
                    size as int,
                ),
                None => *final(self) == *old(self) && forall|p: Placement|
                    !#[trigger] old(self).can_place(p, size as int),
            },
    {
        let mut attempt: usize = 0;
        while attempt < RANDOM_ATTEMPTS
            invariant
                self.wf(),
                *self == *old(self),
            decreases RANDOM_ATTEMPTS - attempt,
        {
            let row = random_below(BOARD_SIZE);
            let col = random_below(BOARD_SIZE);
            let horizontal = random_bool();
            if self.can_place_ship(row, col, size, horizontal) {
                let p = Placement { row, col, horizontal };
                self.place_ship_at(p, size);
                return Some(p);
            }
            attempt = attempt + 1;
        }
        let mut row: usize = 0;
        while row < BOARD_SIZE
            invariant
                self.wf(),
                *self == *old(self),
                row <= BOARD_SIZE,
                forall|p: Placement|
                    p.row < row && p.col < BOARD_SIZE ==> !#[trigger] self.can_place(p, size as int),
            decreases BOARD_SIZE - row,
        {
            let mut col: usize = 0;
            while col < BOARD_SIZE
                invariant
                    self.wf(),
                    *self == *old(self),
                    row < BOARD_SIZE,
                    col <= BOARD_SIZE,
                    forall|p: Placement|
                        p.col < BOARD_SIZE && (p.row < row || (p.row == row && p.col < col))
                            ==> !#[trigger] self.can_place(
                            p,
                            size as int,
                        ),
                decreases BOARD_SIZE - col,
            {
                let mut k: usize = 0;
                while k < 2
                    invariant
                        self.wf(),
                        *self == *old(self),
                        row < BOARD_SIZE,
                        col < BOARD_SIZE,
                        k <= 2,
                        forall|p: Placement|
                            p.col < BOARD_SIZE && (p.row < row || (p.row == row && p.col < col))
                                || (p.row == row && p.col
                                == col && (p.horizontal ==> k >= 1) && (!p.horizontal ==> k >= 2))
                                ==> !#[trigger] self.can_place(p, size as int),
                    decreases 2 - k,
                {
                    let horizontal = k == 0;
                    if self.can_place_ship(row, col, size, horizontal) {
                        let p = Placement { row, col, horizontal };
                        self.place_ship_at(p, size);
                        return Some(p);
                    }
                    k = k + 1;
                }
                col = col + 1;
            }
            row = row + 1;
        }
        assert(size > 0) by {
            if size == 0 {
                assert(self.can_place(Placement { row: 0, col: 0, horizontal: true }, 0));
            }
        }
        assert forall|p: Placement| !#[trigger] self.can_place(p, size as int) by {
            if p.row < BOARD_SIZE && p.col < BOARD_SIZE {
                assert(p.row < row && p.col < BOARD_SIZE);
            }
        }
        None
    }

    /// Fires at `(row, col)`: an `Empty` cell becomes `Miss` and the shot
    /// misses; a `Ship` cell becomes `Hit` and the shot hits; a cell already
    /// fired upon stays as it is and the shot counts as a miss.
    pub fn fire(&mut self, row: usize, col: usize) -> (r: CellState)
        requires
            old(self).wf(),
            row < BOARD_SIZE,
            col < BOARD_SIZE,
        ensures
            final(self).wf(),
            old(self).fired(*final(self), row as int, col as int, r),
    {
        let k = row * BOARD_SIZE + col;
        let r = match self.grid[k] {
            CellState::Empty => {
                self.grid.set(k, CellState::Miss);
                CellState::Miss
            },
            CellState::Ship => {
                self.grid.set(k, CellState::Hit);
                CellState::Hit
            },
            _ => CellState::Miss,
        };
        proof {
            assert forall|r: int, c: int| in_grid(r, c) implies self.is_ship_segment(r, c)
                == old(self).is_ship_segment(r, c) by {
                if r != row || c != col {
                    assert(index_of(r, c) != index_of(row as int, col as int));
                }
            }
        }
        r
    }

    /// Whether every ship segment on the board has been hit (trivially so
    /// when no ship was placed).
    pub fn is_game_over(&self) -> (r: bool)
        requires
            self.wf(),
        ensures
            r == self.all_sunk(),
    {
        let mut i: usize = 0;
        while i < self.ships.len()
            invariant
                self.wf(),
                i <= self.ships@.len(),
                forall|j: int|
                    0 <= j < i ==> #[trigger] self.cell(
                        self.ships()[j].0 as int,
                        self.ships()[j].1 as int,
                    ) is Hit,
            decreases self.ships@.len() - i,
        {
            let (r, c) = self.ships[i];
            assert(in_grid(self.ships()[i as int].0 as int, self.ships()[i as int].1 as int));
            if self.grid[r * BOARD_SIZE + c] != CellState::Hit {
                return false;
            }
            i = i + 1;
        }
        true
    }
}

} // verus!
