//! Why the fleet always fits: with few enough segments on the board some
//! row holds at most one of them, and that row has a free run of five.
use crate::board::{covers, fits, in_grid, Board, Placement, BOARD_SIZE};
use vstd::prelude::*;

verus! {

/// How many entries of `s` lie in row `r`.
pub open spec fn row_count(s: Seq<(usize, usize)>, r: int) -> nat
    decreases s.len(),
{
    if s.len() == 0 {
        0
    } else {
        row_count(s.drop_last(), r) + if s.last().0 == r {
            1nat
        } else {
            0nat
        }
    }
}

/// Sum of `row_count(s, r)` over the rows `r < n`.
pub open spec fn rows_total(s: Seq<(usize, usize)>, n: int) -> nat
    decreases n,
{
    if n <= 0 {
        0
    } else {
        rows_total(s, n - 1) + row_count(s, n - 1)
    }
}

proof fn lemma_rows_total_push(s: Seq<(usize, usize)>, n: int)
    requires
        s.len() > 0,
        n >= 0,
    ensures
        rows_total(s, n) == rows_total(s.drop_last(), n) + if s.last().0 < n {
            1nat
        } else {
            0nat
        },
    decreases n,
{
    if n > 0 {
        lemma_rows_total_push(s, n - 1);
    }
}

proof fn lemma_rows_total_len(s: Seq<(usize, usize)>)
    requires
        forall|i: int| 0 <= i < s.len() ==> #[trigger] s[i].0 < BOARD_SIZE,
    ensures
        rows_total(s, BOARD_SIZE as int) == s.len(),
    decreases s.len(),
{
    if s.len() > 0 {
        assert forall|i: int| 0 <= i < s.drop_last().len() implies #[trigger] s.drop_last()[i].0
            < BOARD_SIZE by {
            assert(s[i].0 < BOARD_SIZE);
        }
        lemma_rows_total_len(s.drop_last());
        lemma_rows_total_push(s, BOARD_SIZE as int);
        assert(s[s.len() - 1].0 < BOARD_SIZE);
    } else {
        lemma_rows_total_zero(s, BOARD_SIZE as int);
    }
}

proof fn lemma_rows_total_zero(s: Seq<(usize, usize)>, n: int)
    requires
        s.len() == 0,
    ensures
        rows_total(s, n) == 0,
    decreases n,
{
    if n > 0 {
        lemma_rows_total_zero(s, n - 1);
    }
}

proof fn lemma_sparse_row(s: Seq<(usize, usize)>, n: int) -> (r: int)
    requires
        n >= 1,
        rows_total(s, n) < 2 * n,
    ensures
        0 <= r < n,
        row_count(s, r) <= 1,
    decreases n,
{
    if row_count(s, n - 1) <= 1 {
        n - 1
    } else {
        lemma_sparse_row(s, n - 1)
    }
}

proof fn lemma_contains_counts(s: Seq<(usize, usize)>, x: (usize, usize))
    requires
        s.contains(x),
    ensures
        row_count(s, x.0 as int) >= 1,
    decreases s.len(),
{
    if s.last() != x {
        let j = choose|j: int| 0 <= j < s.len() && s[j] == x;
        assert(s.drop_last()[j] == x);
        lemma_contains_counts(s.drop_last(), x);
    }
}

proof fn lemma_two_in_row(s: Seq<(usize, usize)>, x: (usize, usize), y: (usize, usize))
    requires
        s.contains(x),
        s.contains(y),
        x != y,
        x.0 == y.0,
    ensures
        row_count(s, x.0 as int) >= 2,
    decreases s.len(),
{
    let jx = choose|j: int| 0 <= j < s.len() && s[j] == x;
    let jy = choose|j: int| 0 <= j < s.len() && s[j] == y;
    let t = s.drop_last();
    if s.last() == x {
        assert(t[jy] == y);
        lemma_contains_counts(t, y);
    } else if s.last() == y {
        assert(t[jx] == x);
        lemma_contains_counts(t, x);
    } else {
        assert(t[jx] == x);
        assert(t[jy] == y);
        lemma_two_in_row(t, x, y);
    }
}

/// On a board with no `Miss` cell and fewer than two ship segments per row on average, a ship
/// of up to five segments can be placed somewhere.
pub proof fn lemma_room_for_ship(b: Board, size: int) -> (p: Placement)
    requires
        b.wf(),
        0 <= size <= 5,
        b.ships().len() < 2 * BOARD_SIZE,
        forall|r: int, c: int| in_grid(r, c) ==> !(#[trigger] b.cell(r, c) is Miss),
    ensures
        b.can_place(p, size),
{
    let s = b.ships();
    assert forall|i: int| 0 <= i < s.len() implies #[trigger] s[i].0 < BOARD_SIZE by {
        assert(in_grid(s[i].0 as int, s[i].1 as int));
    }
    lemma_rows_total_len(s);
    let r = lemma_sparse_row(s, BOARD_SIZE as int);
    // Each non-empty cell of row `r` is a ship segment; at most one is there.
    let start: usize = if exists|c: int| 0 <= c < 5 && !(#[trigger] b.cell(r, c) is Empty) {
        5
    } else {
        0
    };
    let p = Placement { row: r as usize, col: start, horizontal: true };
    assert forall|rr: int, cc: int| #[trigger] covers(p, size, rr, cc) implies b.cell(
        rr,
        cc,
    ) is Empty by {
        if start == 5 {
            let c0 = choose|c: int| 0 <= c < 5 && !(#[trigger] b.cell(r, c) is Empty);
            if !(b.cell(rr, cc) is Empty) {
                assert(b.is_ship_segment(r, c0));
                assert(b.is_ship_segment(rr, cc));
                lemma_two_in_row(s, (r as usize, c0 as usize), (rr as usize, cc as usize));
            }
        }
    }
    assert(fits(p, size));
    p
}

} // verus!
