//! The computer's move search: a negamax-style score with halving, and the
//! choice of the best-scoring move.

use vstd::prelude::*;
use crate::board::{
    Board, Cell, Grid, grid_wf, in_grid, place, empty_count, lemma_place_decreases_empty_count,
};
use crate::board::has_empty;
use crate::outcome::{check_for_win, winner};

verus! {

/// The score of a position in which the opponent has already won.
pub const LOST_SCORE: i32 = -128;

/// The starting point of the search over replies, below every real candidate.
pub const NO_REPLY_SCORE: i32 = -200;

/// The starting point of the choice of a move, below every score.
pub const NO_MOVE_SCORE: i32 = -201;

/// The other player; `Empty` has none.
pub open spec fn opponent(p: Cell) -> Cell {
    match p {
        Cell::X => Cell::O,
        Cell::O => Cell::X,
        Cell::Empty => Cell::Empty,
    }
}

/// `-s / 2`, with the division truncated toward zero.
pub open spec fn neg_half(s: int) -> int {
    if s <= 0 {
        (-s) / 2
    } else {
        -(s / 2)
    }
}

/// The score of grid `g` for player `p`, who has just moved: `LOST_SCORE` when
/// the opponent has already won, otherwise the best of the opponent's replies.
pub open spec fn score(g: Grid, p: Cell) -> int
    decreases empty_count(g), 1nat, 0nat, 0nat,
{
    if winner(g) == Some(opponent(p)) {
        LOST_SCORE as int
    } else {
        best_reply(g, p, g.len() as nat, 0)
    }
}

/// The largest of `NO_REPLY_SCORE` and the values, for `p`, of the opponent's
/// replies on the empty cells before `(r, c)` in row-major order. A reply is
/// worth `neg_half` of its score for the opponent.
pub open spec fn best_reply(g: Grid, p: Cell, r: nat, c: nat) -> int
    decreases empty_count(g), 0nat, r, c,
    via best_reply_decreases
{
    if c == 0 {
        if r == 0 {
            NO_REPLY_SCORE as int
        } else {
            best_reply(g, p, (r - 1) as nat, g.len() as nat)
        }
    } else {
        let prev = best_reply(g, p, r, (c - 1) as nat);
        if grid_wf(g) && p != Cell::Empty && in_grid(g, r as int, c - 1) && g[r as int][c - 1]
            == Cell::Empty {
            let v = neg_half(score(place(g, r as int, c - 1, opponent(p)), opponent(p)));
            if v > prev {
                v
            } else {
                prev
            }
        } else {
            prev
        }
    }
}

#[via_fn]
proof fn best_reply_decreases(g: Grid, p: Cell, r: nat, c: nat) {
    if c > 0 && grid_wf(g) && p != Cell::Empty && in_grid(g, r as int, c - 1)
        && g[r as int][c - 1] == Cell::Empty {
        lemma_place_decreases_empty_count(g, r as int, c - 1, opponent(p));
    }
}

/// Every score lies between `NO_REPLY_SCORE` and 100.
pub proof fn lemma_score_range(g: Grid, p: Cell)
    requires
        grid_wf(g),
        p != Cell::Empty,
    ensures
        NO_REPLY_SCORE <= score(g, p) <= 100,
    decreases empty_count(g), 1nat, 0nat, 0nat,
{
    if winner(g) != Some(opponent(p)) {
        lemma_best_reply_range(g, p, g.len() as nat, 0);
    }
}

proof fn lemma_best_reply_range(g: Grid, p: Cell, r: nat, c: nat)
    requires
        grid_wf(g),
        p != Cell::Empty,
    ensures
        NO_REPLY_SCORE <= best_reply(g, p, r, c) <= 100,
    decreases empty_count(g), 0nat, r, c,
{
    if c == 0 {
        if r > 0 {
            lemma_best_reply_range(g, p, (r - 1) as nat, g.len() as nat);
        }
    } else {
        lemma_best_reply_range(g, p, r, (c - 1) as nat);
        if in_grid(g, r as int, c - 1) && g[r as int][c - 1] == Cell::Empty {
            lemma_place_decreases_empty_count(g, r as int, c - 1, opponent(p));
            lemma_score_range(place(g, r as int, c - 1, opponent(p)), opponent(p));
        }
    }
}

/// The other player.
fn opponent_of(player: &Cell) -> (r: Cell)
    requires
        *player != Cell::Empty,
    ensures
        r == opponent(*player),
{
    match player {
        Cell::X => Cell::O,
        _ => Cell::X,
    }
}

/// `-s / 2`, truncated toward zero.
fn negated_half(s: i32) -> (r: i32)
    requires
        NO_REPLY_SCORE <= s <= 100,
    ensures
        r == neg_half(s as int),
{
    if s <= 0 {
        (-s) / 2
    } else {
        -(s / 2)
    }
}

/// The score of the board for `player`, who has just moved (see `score`).
pub fn check_move_strength(board: &Board, player: &Cell) -> (r: i32)
    requires
        board.wf(),
        *player != Cell::Empty,
    ensures
        r == score(board@, *player),
    decreases empty_count(board@),
{
    let ghost g = board@;
    let other = opponent_of(player);
    if check_for_win(board) == Some(other) {
        return LOST_SCORE;
    }
    let n = board.size();
    let mut max_value: i32 = NO_REPLY_SCORE;
    let mut row: usize = 0;
    while row < n
        invariant
            board.wf(),
            g == board@,
            n == g.len(),
            *player != Cell::Empty,
            other == opponent(*player),
            row <= n,
            max_value == best_reply(g, *player, row as nat, 0),
        decreases n - row,
    {
        let mut col: usize = 0;
        while col < n
            invariant
                board.wf(),
                g == board@,
                n == g.len(),
                *player != Cell::Empty,
                other == opponent(*player),
                row < n,
                col <= n,
                max_value == best_reply(g, *player, row as nat, col as nat),
            decreases n - col,
        {
            if board.get(row, col) == Cell::Empty {
                let mut predictive_board = board.duplicate();
                predictive_board.set(row, col, other);
                proof {
                    lemma_place_decreases_empty_count(g, row as int, col as int, other);
                    lemma_score_range(predictive_board@, other);
                }
                let move_value = negated_half(check_move_strength(&predictive_board, &other));
                if move_value > max_value {
                    max_value = move_value;
                }
            }
            col += 1;
        }
        row += 1;
    }
    max_value
}

/// The score, for `p`, of playing `p` at `(r, c)`.
pub open spec fn move_value(g: Grid, p: Cell, r: int, c: int) -> int {
    score(place(g, r, c, p), p)
}

/// The running best value and move after the cells before `(r, c)` in
/// row-major order: a move replaces the best one only when its value is
/// strictly greater, so that ties keep the earliest move.
pub open spec fn select_upto(g: Grid, p: Cell, r: nat, c: nat) -> (int, Option<(usize, usize)>)
    decreases r, c,
{
    if c == 0 {
        if r == 0 {
            (NO_MOVE_SCORE as int, None)
        } else {
            select_upto(g, p, (r - 1) as nat, g.len() as nat)
        }
    } else {
        let prev = select_upto(g, p, r, (c - 1) as nat);
        if in_grid(g, r as int, c - 1) && g[r as int][c - 1] == Cell::Empty && move_value(
            g,
            p,
            r as int,
            c - 1,
        ) > prev.0 {
            (move_value(g, p, r as int, c - 1), Some((r as usize, (c - 1) as usize)))
        } else {
            prev
        }
    }
}

/// The move that the search picks for `p` on grid `g`.
pub open spec fn best_move(g: Grid, p: Cell) -> Option<(usize, usize)> {
    select_upto(g, p, g.len() as nat, 0).1
}

/// The cell that the computer takes first when it is free: the center, or the
/// upper left one of the four central cells on an even board.
pub open spec fn center(n: int) -> int {
    if n % 2 == 0 {
        n / 2 - 1
    } else {
        n / 2
    }
}

/// The computer's move: the center cell when it is free, else the search's.
pub open spec fn computer_move(g: Grid) -> Option<(usize, usize)> {
    let m = center(g.len() as int);
    if g[m][m] == Cell::Empty {
        Some((m as usize, m as usize))
    } else {
        best_move(g, Cell::O)
    }
}

proof fn lemma_select_upto_empty(g: Grid, p: Cell, r: nat, c: nat)
    requires
        grid_wf(g),
    ensures
        select_upto(g, p, r, c).1 matches Some(m) ==> in_grid(g, m.0 as int, m.1 as int) && g[m.0 as int][m.1 as int] == Cell::Empty,
        NO_MOVE_SCORE <= select_upto(g, p, r, c).0,
        select_upto(g, p, r, c).1 is None <==> select_upto(g, p, r, c).0 == NO_MOVE_SCORE,
    decreases r, c,
{
    if c == 0 {
        if r > 0 {
            lemma_select_upto_empty(g, p, (r - 1) as nat, g.len() as nat);
        }
    } else {
        lemma_select_upto_empty(g, p, r, (c - 1) as nat);
    }
}

proof fn lemma_select_none_when_full(g: Grid, p: Cell, r: nat, c: nat)
    requires
        grid_wf(g),
        !has_empty(g),
    ensures
        select_upto(g, p, r, c).1 is None,
    decreases r, c,
{
    if c == 0 {
        if r > 0 {
            lemma_select_none_when_full(g, p, (r - 1) as nat, g.len() as nat);
        }
    } else {
        lemma_select_none_when_full(g, p, r, (c - 1) as nat);
        if in_grid(g, r as int, c - 1) {
            assert(g[r as int][c - 1] != Cell::Empty);
        }
    }
}

proof fn lemma_select_some(g: Grid, p: Cell, r: nat, c: nat, a: int, b: int)
    requires
        grid_wf(g),
        in_grid(g, a, b),
        g[a][b] == Cell::Empty,
        move_value(g, p, a, b) > NO_MOVE_SCORE,
        a < r || (a == r && b < c),
        c <= g.len(),
    ensures
        select_upto(g, p, r, c).1 is Some,
    decreases r, c,
{
    if c == 0 {
        lemma_select_some(g, p, (r - 1) as nat, g.len() as nat, a, b);
    } else if a == r && b == c - 1 {
        lemma_select_upto_empty(g, p, r, (c - 1) as nat);
    } else {
        lemma_select_some(g, p, r, (c - 1) as nat, a, b);
    }
}

/// Whether `(a, b)` comes before `(r, c)` in row-major order.
pub open spec fn before(a: int, b: int, r: int, c: int) -> bool {
    a < r || (a == r && b < c)
}

/// Every empty cell has a move value above `NO_MOVE_SCORE`.
proof fn lemma_move_value_above_start(g: Grid, p: Cell, a: int, b: int)
    requires
        grid_wf(g),
        p != Cell::Empty,
        in_grid(g, a, b),
        g[a][b] == Cell::Empty,
    ensures
        move_value(g, p, a, b) > NO_MOVE_SCORE,
{
    lemma_place_decreases_empty_count(g, a, b, p);
    lemma_score_range(place(g, a, b, p), p);
}

proof fn lemma_select_upto_best(g: Grid, p: Cell, r: nat, c: nat)
    requires
        grid_wf(g),
        c <= g.len(),
    ensures
        select_upto(g, p, r, c).1 matches Some(m) ==> before(m.0 as int, m.1 as int, r as int, c as int)
            && select_upto(g, p, r, c).0 == move_value(g, p, m.0 as int, m.1 as int)
            && (forall|a: int, b: int|
                in_grid(g, a, b) && g[a][b] == Cell::Empty && before(a, b, m.0 as int, m.1 as int)
                    ==> #[trigger] move_value(g, p, a, b) < select_upto(g, p, r, c).0),
        forall|a: int, b: int|
            in_grid(g, a, b) && g[a][b] == Cell::Empty && before(a, b, r as int, c as int)
                ==> #[trigger] move_value(g, p, a, b) <= select_upto(g, p, r, c).0,
    decreases r, c,
{
    if c == 0 {
        if r > 0 {
            lemma_select_upto_best(g, p, (r - 1) as nat, g.len() as nat);
        }
    } else {
        lemma_select_upto_best(g, p, r, (c - 1) as nat);
    }
}

/// The search picks an empty cell whose move value is the highest of all the
/// empty cells and strictly higher than that of every empty cell before it in
/// row-major order; it picks none exactly when the board is full.
pub proof fn lemma_best_move_is_first_best(g: Grid, p: Cell)
    requires
        grid_wf(g),
        p != Cell::Empty,
    ensures
        best_move(g, p) is None <==> !has_empty(g),
        best_move(g, p) matches Some(m) ==> in_grid(g, m.0 as int, m.1 as int)
            && g[m.0 as int][m.1 as int] == Cell::Empty
            && (forall|a: int, b: int|
                in_grid(g, a, b) && g[a][b] == Cell::Empty ==> #[trigger] move_value(g, p, a, b)
                    <= move_value(g, p, m.0 as int, m.1 as int))
            && (forall|a: int, b: int|
                in_grid(g, a, b) && g[a][b] == Cell::Empty && before(a, b, m.0 as int, m.1 as int)
                    ==> #[trigger] move_value(g, p, a, b) < move_value(g, p, m.0 as int, m.1 as int)),
{
    lemma_no_move_iff_full(g, p);
    lemma_select_upto_empty(g, p, g.len() as nat, 0);
    lemma_select_upto_best(g, p, g.len() as nat, 0);
}

/// The search picks a cell that is empty on the board.
pub proof fn lemma_best_move_is_empty_cell(g: Grid, p: Cell)
    requires
        grid_wf(g),
    ensures
        best_move(g, p) matches Some(m) ==> in_grid(g, m.0 as int, m.1 as int)
            && g[m.0 as int][m.1 as int] == Cell::Empty,
{
    lemma_select_upto_empty(g, p, g.len() as nat, 0);
}

/// The search finds no move exactly when the board has no empty cell.
pub proof fn lemma_no_move_iff_full(g: Grid, p: Cell)
    requires
        grid_wf(g),
        p != Cell::Empty,
    ensures
        best_move(g, p) is None <==> !has_empty(g),
{
    if has_empty(g) {
        let (a, b) = choose|a: int, b: int| in_grid(g, a, b) && #[trigger] g[a][b] == Cell::Empty;
        lemma_move_value_above_start(g, p, a, b);
        lemma_select_some(g, p, g.len() as nat, 0, a, b);
    } else {
        lemma_select_none_when_full(g, p, g.len() as nat, 0);
    }
}

/// The move that the search picks for `player`: among the empty cells whose
/// `move_value` is highest, the first in row-major order; `None` when the
/// board has no empty cell.
pub fn select_best_move(board: &Board, player: &Cell) -> (r: Option<(usize, usize)>)
    requires
        board.wf(),
        *player != Cell::Empty,
    ensures
        r == best_move(board@, *player),
        r is None <==> !has_empty(board@),
        r matches Some(m) ==> in_grid(board@, m.0 as int, m.1 as int)
            && board@[m.0 as int][m.1 as int] == Cell::Empty
            && (forall|a: int, b: int|
                in_grid(board@, a, b) && board@[a][b] == Cell::Empty ==> #[trigger] move_value(
                    board@,
                    *player,
                    a,
                    b,
                ) <= move_value(board@, *player, m.0 as int, m.1 as int))
            && (forall|a: int, b: int|
                in_grid(board@, a, b) && board@[a][b] == Cell::Empty && before(
                    a,
                    b,
                    m.0 as int,
                    m.1 as int,
                ) ==> #[trigger] move_value(board@, *player, a, b) < move_value(
                    board@,
                    *player,
                    m.0 as int,
                    m.1 as int,
                )),
{
    let ghost g = board@;
    let n = board.size();
    let mut max_value: i32 = NO_MOVE_SCORE;
    let mut best: Option<(usize, usize)> = None;
    let mut row: usize = 0;
    while row < n
        invariant
            board.wf(),
            g == board@,
            n == g.len(),
            *player != Cell::Empty,
            row <= n,
            (max_value as int, best) == select_upto(g, *player, row as nat, 0),
        decreases n - row,
    {
        let mut col: usize = 0;
        while col < n
            invariant
                board.wf(),
                g == board@,
                n == g.len(),
                *player != Cell::Empty,
                row < n,
                col <= n,
                (max_value as int, best) == select_upto(g, *player, row as nat, col as nat),
            decreases n - col,
        {
            if board.get(row, col) == Cell::Empty {
                let mut predictive_board = board.duplicate();
                predictive_board.set(row, col, *player);
                proof {
                    lemma_place_decreases_empty_count(g, row as int, col as int, *player);
                }
                let move_value = check_move_strength(&predictive_board, player);
                if move_value > max_value {
                    max_value = move_value;
                    best = Some((row, col));
                }
            }
            col += 1;
        }
        row += 1;
    }
    proof {
        lemma_best_move_is_first_best(g, *player);
    }
    best
}

/// The computer's turn, playing `O` on a board with an empty cell: takes the
/// center cell when it is free, else the move of `select_best_move`. Returns
/// the move made.
pub fn computer_turn(board: &mut Board) -> (r: (usize, usize))
    requires
        old(board).wf(),
        has_empty(old(board)@),
    ensures
        final(board).wf(),
        computer_move(old(board)@) == Some(r),
        in_grid(old(board)@, r.0 as int, r.1 as int),
        old(board)@[r.0 as int][r.1 as int] == Cell::Empty,
        final(board)@ == place(old(board)@, r.0 as int, r.1 as int, Cell::O),
{
    let player = Cell::O;
    let n = board.size();
    let mut middle_cell = n / 2;
    if n % 2 == 0 {
        middle_cell -= 1;
    }
    if board.get(middle_cell, middle_cell) == Cell::Empty {
        board.set(middle_cell, middle_cell, player);
        return (middle_cell, middle_cell);
    }
    let best = select_best_move(board, &player);
    let (row, col) = best.unwrap();
    board.set(row, col, player);
    (row, col)
}

} // verus!
