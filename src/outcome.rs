//! Lines of the board, the winner, and the outcome of a position.

use vstd::prelude::*;
use crate::board::{Board, Cell, Grid, grid_wf, has_empty, get_empty_cells, lemma_empty_cells_members};

verus! {

/// What a board says about the game: still going, won by a player, or drawn.
#[derive(Clone, Copy, Debug, PartialEq, Eq, Structural)]
pub enum GameOutcome {
    Ongoing,
    Win(Cell),
    Draw,
}

/// The number of lines of a board of side `n`: `n` rows, `n` columns and two
/// diagonals, in that scan order.
pub open spec fn line_count(n: int) -> int {
    2 * n + 2
}

/// The coordinates of the `k`-th cell of line `l` on a board of side `n`.
/// Lines `0..n` are the rows, `n..2n` the columns, `2n` the diagonal from the
/// top left corner and `2n + 1` the diagonal from the top right corner.
pub open spec fn line_pos(n: int, l: int, k: int) -> (int, int) {
    if l < n {
        (l, k)
    } else if l < 2 * n {
        (k, l - n)
    } else if l == 2 * n {
        (k, k)
    } else {
        (k, n - 1 - k)
    }
}

/// The `k`-th cell of line `l`.
pub open spec fn line_cell(g: Grid, l: int, k: int) -> Cell {
    let p = line_pos(g.len() as int, l, k);
    g[p.0][p.1]
}

/// A line is won when its cells are all the same non-empty value.
pub open spec fn line_won(g: Grid, l: int) -> bool {
    &&& line_cell(g, l, 0) != Cell::Empty
    &&& forall|k: int| 0 <= k < g.len() ==> #[trigger] line_cell(g, l, k) == line_cell(g, l, 0)
}

/// The value of the first won line among lines `l..`, in scan order.
pub open spec fn first_win_from(g: Grid, l: int) -> Option<Cell>
    decreases line_count(g.len() as int) - l,
{
    if l < 0 || l >= line_count(g.len() as int) {
        None
    } else if line_won(g, l) {
        Some(line_cell(g, l, 0))
    } else {
        first_win_from(g, l + 1)
    }
}

/// The value of the first won line of the grid, if any line is won.
pub open spec fn winner(g: Grid) -> Option<Cell> {
    first_win_from(g, 0)
}

/// The outcome of a grid: the first won line decides; otherwise a grid with no
/// empty cell is a draw.
pub open spec fn outcome(g: Grid) -> GameOutcome {
    match winner(g) {
        Some(c) => GameOutcome::Win(c),
        None => if has_empty(g) {
            GameOutcome::Ongoing
        } else {
            GameOutcome::Draw
        },
    }
}

/// Whether no line of the grid is won.
pub open spec fn no_line_won(g: Grid) -> bool {
    forall|l: int| 0 <= l < line_count(g.len() as int) ==> !#[trigger] line_won(g, l)
}

proof fn lemma_first_win_reaches(g: Grid, i: int, l: int)
    requires
        0 <= i <= l < line_count(g.len() as int),
        line_won(g, l),
    ensures
        exists|j: int|
            i <= j <= l && #[trigger] line_won(g, j) && first_win_from(g, i) == Some(line_cell(g, j, 0)),
        (forall|j: int| i <= j < l ==> !#[trigger] line_won(g, j)) ==> first_win_from(g, i) == Some(
            line_cell(g, l, 0),
        ),
    decreases l - i,
{
    if !line_won(g, i) {
        lemma_first_win_reaches(g, i + 1, l);
    }
}

proof fn lemma_no_line_from(g: Grid, i: int)
    requires
        0 <= i,
        no_line_won(g),
    ensures
        first_win_from(g, i) is None,
    decreases line_count(g.len() as int) - i,
{
    if i < line_count(g.len() as int) {
        lemma_no_line_from(g, i + 1);
    }
}

/// A completed line always ends the game in a win: the outcome is the value
/// of the first completed line in scan order (rows, then columns, then the two
/// diagonals), and when `l` is the first completed line, that is its value.
pub proof fn lemma_complete_line_wins(g: Grid, l: int)
    requires
        grid_wf(g),
        0 <= l < line_count(g.len() as int),
        line_won(g, l),
    ensures
        exists|j: int|
            0 <= j <= l && #[trigger] line_won(g, j) && (forall|i: int| 0 <= i < j ==> !#[trigger] line_won(g, i))
                && outcome(g) == GameOutcome::Win(line_cell(g, j, 0)),
        (forall|i: int| 0 <= i < l ==> !#[trigger] line_won(g, i)) ==> outcome(g) == GameOutcome::Win(
            line_cell(g, l, 0),
        ),
{
    lemma_first_win_reaches(g, 0, l);
    lemma_first_won_line_exists(g, l);
    let jf = choose|jf: int| 0 <= jf <= l && #[trigger] line_won(g, jf) && (forall|i: int| 0 <= i < jf ==> !#[trigger] line_won(g, i));
    lemma_first_win_reaches(g, 0, jf);
}

proof fn lemma_first_won_line_exists(g: Grid, j: int)
    requires
        0 <= j,
        line_won(g, j),
    ensures
        exists|jf: int| 0 <= jf <= j && #[trigger] line_won(g, jf) && (forall|i: int| 0 <= i < jf ==> !#[trigger] line_won(g, i)),
    decreases j,
{
    if exists|i: int| 0 <= i < j && #[trigger] line_won(g, i) {
        let i = choose|i: int| 0 <= i < j && #[trigger] line_won(g, i);
        lemma_first_won_line_exists(g, i);
    } else {
        assert(forall|i: int| 0 <= i < j ==> !#[trigger] line_won(g, i));
    }
}

/// A full board on which no line is won is a draw.
pub proof fn lemma_full_board_without_line_is_draw(g: Grid)
    requires
        grid_wf(g),
        !has_empty(g),
        no_line_won(g),
    ensures
        outcome(g) == GameOutcome::Draw,
{
    lemma_no_line_from(g, 0);
}

/// A board with an empty cell on which no line is won is still being played.
pub proof fn lemma_open_board_without_line_is_ongoing(g: Grid)
    requires
        grid_wf(g),
        has_empty(g),
        no_line_won(g),
    ensures
        outcome(g) == GameOutcome::Ongoing,
{
    lemma_no_line_from(g, 0);
}

/// The `k`-th cell of line `line`.
fn line_at(board: &Board, line: usize, k: usize) -> (r: Cell)
    requires
        board.wf(),
        line < line_count(board@.len() as int),
        k < board@.len(),
    ensures
        r == line_cell(board@, line as int, k as int),
{
    let n = board.size();
    if line < n {
        board.get(line, k)
    } else if line < 2 * n {
        board.get(k, line - n)
    } else if line == 2 * n {
        board.get(k, k)
    } else {
        board.get(k, n - 1 - k)
    }
}

/// Whether every cell of line `line` holds the same non-empty value.
fn line_complete(board: &Board, line: usize) -> (r: bool)
    requires
        board.wf(),
        line < line_count(board@.len() as int),
    ensures
        r == line_won(board@, line as int),
{
    let n = board.size();
    let first = line_at(board, line, 0);
    if first == Cell::Empty {
        return false;
    }
    let mut k: usize = 1;
    while k < n
        invariant
            board.wf(),
            n == board@.len(),
            line < line_count(n as int),
            1 <= k <= n,
            first == line_cell(board@, line as int, 0),
            forall|i: int| 0 <= i < k ==> #[trigger] line_cell(board@, line as int, i) == first,
        decreases n - k,
    {
        if line_at(board, line, k) != first {
            return false;
        }
        k += 1;
    }
    true
}

/// The value of the first won line, checking the rows, then the columns, then
/// the diagonal from the top left and the diagonal from the top right.
pub fn check_for_win(board: &Board) -> (r: Option<Cell>)
    requires
        board.wf(),
    ensures
        r == winner(board@),
{
    let n = board.size();
    let lines = 2 * n + 2;
    let mut line: usize = 0;
    while line < lines
        invariant
            board.wf(),
            n == board@.len(),
            lines == line_count(n as int),
            line <= lines,
            winner(board@) == first_win_from(board@, line as int),
        decreases lines - line,
    {
        if line_complete(board, line) {
            return Some(line_at(board, line, 0));
        }
        line += 1;
    }
    None
}

/// The outcome of the game on this board.
pub fn check_for_game_over(board: &Board) -> (r: GameOutcome)
    requires
        board.wf(),
    ensures
        r == outcome(board@),
{
    if let Some(c) = check_for_win(board) {
        return GameOutcome::Win(c);
    }
    proof {
        lemma_empty_cells_members(board@);
    }
    if get_empty_cells(board).len() == 0 {
        GameOutcome::Draw
    } else {
        GameOutcome::Ongoing
    }
}

} // verus!
