//! The text picture of a board.
use crate::board::{index_of, Board, CellState, BOARD_SIZE};
use vstd::prelude::*;

verus! {

/// The decimal digit for `i` (`0 <= i < 10`).
pub open spec fn digit_text(i: int) -> Seq<char> {
    if i == 0 {
        "0"@
    } else if i == 1 {
        "1"@
    } else if i == 2 {
        "2"@
    } else if i == 3 {
        "3"@
    } else if i == 4 {
        "4"@
    } else if i == 5 {
        "5"@
    } else if i == 6 {
        "6"@
    } else if i == 7 {
        "7"@
    } else if i == 8 {
        "8"@
    } else {
        "9"@
    }
}

/// How one cell is drawn: water and ships as hollow and filled squares (or
/// blank when ships are hidden), hits as a red dot, misses as a cyan
/// mid-dot.
pub open spec fn glyph_text(c: CellState, hide_ships: bool) -> Seq<char> {
    match c {
        CellState::Empty => if hide_ships {
            "   "@
        } else {
            " \u{25A1} "@
        },
        CellState::Ship => if hide_ships {
            "   "@
        } else {
            " \u{25A0} "@
        },
        CellState::Hit => "\x1b[31m \u{25CF} \x1b[0m"@,
        CellState::Miss => "\x1b[36m \u{00B7} \x1b[0m"@,
    }
}

/// The header row up to column `n`: a gutter, then each column index.
pub open spec fn header_text(n: int) -> Seq<char>
    decreases n,
{
    if n <= 0 {
        "   "@
    } else {
        header_text(n - 1) + " "@ + digit_text(n - 1) + " "@
    }
}

/// Row `r` up to column `n`: its index in a two-wide gutter, then its cells.
pub open spec fn row_text(cells: Seq<CellState>, r: int, n: int, hide_ships: bool) -> Seq<char>
    decreases n,
{
    if n <= 0 {
        " "@ + digit_text(r) + " "@
    } else {
        row_text(cells, r, n - 1, hide_ships) + glyph_text(cells[index_of(r, n - 1)], hide_ships)
    }
}

/// The header line, then each of the first `n` rows on a line of its own.
pub open spec fn board_text(cells: Seq<CellState>, n: int, hide_ships: bool) -> Seq<char>
    decreases n,
{
    if n <= 0 {
        header_text(BOARD_SIZE as int) + "\n"@
    } else {
        board_text(cells, n - 1, hide_ships) + row_text(cells, n - 1, BOARD_SIZE as int, hide_ships)
            + "\n"@
    }
}

/// The whole picture of a grid.
pub open spec fn rendering(cells: Seq<CellState>, hide_ships: bool) -> Seq<char> {
    board_text(cells, BOARD_SIZE as int, hide_ships)
}

/// Two boards with the same cells, drawn with the same flag, give the same
/// picture: drawing depends on nothing else.
pub proof fn lemma_rendering_depends_on_cells(a: Board, b: Board, hide_ships: bool)
    requires
        a.cells() == b.cells(),
    ensures
        a.rendering(hide_ships) == b.rendering(hide_ships),
{
}

fn digit_str(i: usize) -> (s: &'static str)
    requires
        i < 10,
    ensures
        s@ == digit_text(i as int),
{
    match i {
        0 => "0",
        1 => "1",
        2 => "2",
        3 => "3",
        4 => "4",
        5 => "5",
        6 => "6",
        7 => "7",
        8 => "8",
        _ => "9",
    }
}

fn glyph_str(c: CellState, hide_ships: bool) -> (s: &'static str)
    ensures
        s@ == glyph_text(c, hide_ships),
{
    match c {
        CellState::Empty => if hide_ships {
            "   "
        } else {
            " \u{25A1} "
        },
        CellState::Ship => if hide_ships {
            "   "
        } else {
            " \u{25A0} "
        },
        CellState::Hit => "\x1b[31m \u{25CF} \x1b[0m",
        CellState::Miss => "\x1b[36m \u{00B7} \x1b[0m",
    }
}

impl Board {
    pub open spec fn rendering(self, hide_ships: bool) -> Seq<char> {
        rendering(self.cells(), hide_ships)
    }

    /// The picture of the board: a header of column indices, then one line
    /// per row with its index and a glyph for each cell. With `hide_ships`,
    /// ships and untouched water look alike.
    pub fn display(&self, hide_ships: bool) -> (s: String)
        requires
            self.wf(),
        ensures
            s@ == self.rendering(hide_ships),
    {
        let mut out = String::from_str("   ");
        let mut i: usize = 0;
        while i < BOARD_SIZE
            invariant
                i <= BOARD_SIZE,
                out@ == header_text(i as int),
            decreases BOARD_SIZE - i,
        {
            out.append(" ");
            out.append(digit_str(i));
            out.append(" ");
            i = i + 1;
        }
        out.append("\n");
        let mut r: usize = 0;
        while r < BOARD_SIZE
            invariant
                self.wf(),
                r <= BOARD_SIZE,
                out@ == board_text(self.cells(), r as int, hide_ships),
            decreases BOARD_SIZE - r,
        {
            let mut line = String::from_str(" ");
            line.append(digit_str(r));
            line.append(" ");
            let mut c: usize = 0;
            while c < BOARD_SIZE
                invariant
                    self.wf(),
                    r < BOARD_SIZE,
                    c <= BOARD_SIZE,
                    line@ == row_text(self.cells(), r as int, c as int, hide_ships),
                decreases BOARD_SIZE - c,
            {
                line.append(glyph_str(self.cell_at(r, c), hide_ships));
                c = c + 1;
            }
            out.append(line.as_str());
            out.append("\n");
            r = r + 1;
        }
        out
    }
}

} // verus!
