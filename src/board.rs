use vstd::prelude::*;

use crate::piece::{pair_view, Piece};

verus! {

/// Number of columns of the playfield.
pub const BOARD_WIDTH: usize = 10;

/// Number of rows of the playfield; row 0 is the floor, the bottom 20 are visible.
pub const BOARD_HEIGHT: usize = 40;

/// The state of one cell of the playfield.
#[derive(Copy, Clone, Debug, PartialEq, Eq, Structural)]
pub enum Cell {
    Piece(Piece),
    Garbage,
    Empty,
}

/// The playfield, indexed `[row][column]`.
pub type Board = [[Cell; 10]; 40];

/// A row holds no empty cell.
pub open spec fn row_full(row: [Cell; 10]) -> bool {
    forall|x: int| 0 <= x < 10 ==> row@[x] != Cell::Empty
}

pub open spec fn row_not_full(row: [Cell; 10]) -> bool {
    !row_full(row)
}

/// Every cell of the row is empty.
pub open spec fn row_empty(row: [Cell; 10]) -> bool {
    forall|x: int| 0 <= x < 10 ==> row@[x] == Cell::Empty
}

/// The cell at column `c.0`, row `c.1` lies on the board and is empty.
pub open spec fn cell_free(b: Board, c: (int, int)) -> bool {
    &&& 0 <= c.0 < BOARD_WIDTH
    &&& 0 <= c.1 < BOARD_HEIGHT
    &&& b@[c.1]@[c.0] == Cell::Empty
}

/// The rows that are not full, in their order.
pub open spec fn kept_rows(rows: Seq<[Cell; 10]>) -> Seq<[Cell; 10]> {
    rows.filter(|r: [Cell; 10]| row_not_full(r))
}

/// `after` is `before` with its full rows removed: the rows that are not full, in
/// their order from the floor, topped with empty rows up to the same height.
pub open spec fn cleared(before: Seq<[Cell; 10]>, after: Seq<[Cell; 10]>) -> bool {
    let kept = kept_rows(before);
    &&& after.len() == before.len()
    &&& after.subrange(0, kept.len() as int) == kept
    &&& forall|j: int| kept.len() <= j < after.len() ==> row_empty(#[trigger] after[j])
}

/// Number of full rows.
pub open spec fn full_row_count(rows: Seq<[Cell; 10]>) -> nat {
    (rows.len() - kept_rows(rows).len()) as nat
}

/// No row of the board is full.
pub open spec fn no_full_rows(b: Board) -> bool {
    forall|y: int| 0 <= y < 40 ==> !row_full(#[trigger] b@[y])
}

/// A board from which the full rows were cleared has none left.
pub proof fn lemma_cleared_no_full(before: Seq<[Cell; 10]>, after: Board)
    requires
        before.len() == 40,
        cleared(before, after@),
    ensures
        no_full_rows(after),
{
    let kept = kept_rows(before);
    assert forall|y: int| 0 <= y < 40 implies !row_full(#[trigger] after@[y]) by {
        if y < kept.len() {
            assert(after@[y] == after@.subrange(0, kept.len() as int)[y]);
            before.lemma_filter_pred(|r: [Cell; 10]| row_not_full(r), y);
        } else {
            assert(row_empty(after@[y]));
            assert(after@[y]@[0] == Cell::Empty);
        }
    }
}

/// A board on which every cell is empty.
pub fn empty_board() -> (b: Board)
    ensures
        forall|y: int, x: int| 0 <= y < 40 && 0 <= x < 10 ==> #[trigger] b@[y]@[x] == Cell::Empty,
        no_full_rows(b),
{
    let b: Board = [[Cell::Empty; 10]; 40];
    assert forall|y: int| 0 <= y < 40 implies !row_full(#[trigger] b@[y]) by {
        assert(b@[y]@[0] == Cell::Empty);
    }
    b
}

/// True iff all four cells lie within the board and are empty.
pub fn is_region_free(board: &Board, cells: [(i8, i8); 4]) -> (r: bool)
    ensures
        r == forall|i: int| 0 <= i < 4 ==> cell_free(*board, pair_view(#[trigger] cells@[i])),
{
    let mut i: usize = 0;
    while i < 4
        invariant
            0 <= i <= 4,
            forall|j: int| 0 <= j < i ==> cell_free(*board, pair_view(#[trigger] cells@[j])),
        decreases 4 - i,
    {
        let (x, y) = cells[i];
        if x < 0 || x >= 10 || y < 0 || y >= 40 {
            return false;
        }
        if board[y as usize][x as usize] != Cell::Empty {
            return false;
        }
        i = i + 1;
    }
    true
}

/// Marks the four cells as taken by `kind`.
pub fn place(board: &mut Board, cells: [(i8, i8); 4], kind: Piece)
    requires
        forall|i: int| 0 <= i < 4 ==> 0 <= (#[trigger] cells@[i]).0 < 10 && 0 <= cells@[i].1 < 40,
    ensures
        forall|y: int, x: int| 0 <= y < 40 && 0 <= x < 10 ==> #[trigger] final(board)@[y]@[x] == if (
        exists|i: int| 0 <= i < 4 && pair_view(cells@[i]) == (x, y)) {
            Cell::Piece(kind)
        } else {
            old(board)@[y]@[x]
        },
{
    let ghost before = *board;
    let mut i: usize = 0;
    while i < 4
        invariant
            0 <= i <= 4,
            forall|i: int| 0 <= i < 4 ==> 0 <= (#[trigger] cells@[i]).0 < 10 && 0 <= cells@[i].1 < 40,
            forall|y: int, x: int| 0 <= y < 40 && 0 <= x < 10 ==> #[trigger] board@[y]@[x] == if (
            exists|j: int| 0 <= j < i && pair_view(cells@[j]) == (x, y)) {
                Cell::Piece(kind)
            } else {
                before@[y]@[x]
            },
        decreases 4 - i,
    {
        let (x, y) = cells[i];
        let mut row = board[y as usize];
        row[x as usize] = Cell::Piece(kind);
        board[y as usize] = row;
        assert forall|yy: int, xx: int| 0 <= yy < 40 && 0 <= xx < 10 implies #[trigger] board@[yy]@[xx] == if (
            exists|j: int| 0 <= j < i + 1 && pair_view(cells@[j]) == (xx, yy)) {
                Cell::Piece(kind)
            } else {
                before@[yy]@[xx]
            } by {
            if yy == y as int && xx == x as int {
                assert(pair_view(cells@[i as int]) == (xx, yy));
            } else {
                if exists|j: int| 0 <= j < i + 1 && pair_view(cells@[j]) == (xx, yy) {
                    let j = choose|j: int| 0 <= j < i + 1 && pair_view(cells@[j]) == (xx, yy);
                    assert(j != i);
                }
            }
        }
        i = i + 1;
    }
}

/// Tells whether a row has no empty cell.
pub fn is_row_full(row: &[Cell; 10]) -> (r: bool)
    ensures
        r == row_full(*row),
{
    let mut x: usize = 0;
    while x < 10
        invariant
            0 <= x <= 10,
            forall|j: int| 0 <= j < x ==> row@[j] != Cell::Empty,
        decreases 10 - x,
    {
        if row[x] == Cell::Empty {
            return false;
        }
        x = x + 1;
    }
    true
}

/// Removes every full row, moving the rows above down so that their order is
/// kept, and fills the top with empty rows. Returns the number of rows removed.
pub fn clear_filled_rows(board: &mut Board) -> (n: usize)
    ensures
        cleared(old(board)@, final(board)@),
        n as nat == full_row_count(old(board)@),
        n <= 40,
{
    let ghost before = board@;
    let mut w: usize = 0;
    let mut r: usize = 0;
    while r < 40
        invariant
            0 <= w <= r <= 40,
            board@.len() == 40,
            before.len() == 40,
            board@.subrange(0, w as int) == kept_rows(before.subrange(0, r as int)),
            board@.subrange(r as int, 40) == before.subrange(r as int, 40),
        decreases 40 - r,
    {
        let row = board[r];
        proof {
            assert(before.subrange(0, r as int + 1) =~= before.subrange(0, r as int).push(before[r as int]));
            before.subrange(0, r as int).lemma_filter_push(before[r as int], |r: [Cell; 10]| row_not_full(r));
            assert(before.subrange(0, r as int + 1).drop_last() =~= before.subrange(0, r as int));
            assert(before.subrange(0, r as int + 1).last() == before[r as int]);
            assert(before[r as int] == board@[r as int]) by {
                assert(board@.subrange(r as int, 40)[0] == before.subrange(r as int, 40)[0]);
            }
        }
        if !is_row_full(&row) {
            let ghost old_board = board@;
            board[w] = row;
            proof {
                assert(row_not_full(row));
                assert(kept_rows(before.subrange(0, r as int + 1)) == kept_rows(before.subrange(0, r as int)).push(row));
                assert(board@.subrange(0, w as int + 1) =~= old_board.subrange(0, w as int).push(row));
                assert(board@.subrange(r as int + 1, 40) =~= old_board.subrange(r as int + 1, 40));
                assert(old_board.subrange(r as int + 1, 40) =~= old_board.subrange(r as int, 40).subrange(1, 40 - r as int));
                assert(before.subrange(r as int + 1, 40) =~= before.subrange(r as int, 40).subrange(1, 40 - r as int));
            }
            w = w + 1;
        } else {
            proof {
                assert(!row_not_full(row));
                assert(kept_rows(before.subrange(0, r as int + 1)) == kept_rows(before.subrange(0, r as int)));
                assert(board@.subrange(r as int + 1, 40) =~= board@.subrange(r as int, 40).subrange(1, 40 - r as int));
                assert(before.subrange(r as int + 1, 40) =~= before.subrange(r as int, 40).subrange(1, 40 - r as int));
            }
        }
        r = r + 1;
    }
    assert(before.subrange(0, 40) =~= before);
    let ghost kept = kept_rows(before);
    let n = 40 - w;
    let mut k: usize = w;
    while k < 40
        invariant
            w <= k <= 40,
            board@.len() == 40,
            kept.len() == w,
            board@.subrange(0, w as int) == kept,
            forall|j: int| w <= j < k ==> row_empty(#[trigger] board@[j]),
        decreases 40 - k,
    {
        let ghost old_board = board@;
        board[k] = [Cell::Empty, Cell::Empty, Cell::Empty, Cell::Empty, Cell::Empty, Cell::Empty, Cell::Empty, Cell::Empty, Cell::Empty, Cell::Empty];
        assert(board@.subrange(0, w as int) =~= old_board.subrange(0, w as int));
        assert(row_empty(board@[k as int]));
        k = k + 1;
    }
    assert(kept =~= kept_rows(before));
    n
}

} // verus!
