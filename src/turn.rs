//! The human's turn: reading a move from a line of text and applying it.

use vstd::prelude::*;
use crate::board::{Board, Cell, Grid, grid_wf, place};

verus! {

/// What a line of input asks for: to quit, or to play at a cell (0-indexed).
#[derive(Clone, Copy, Debug, PartialEq, Eq, Structural)]
pub enum Command {
    Quit,
    Place(usize, usize),
}

/// Why a line of input was refused.
#[derive(Clone, Copy, Debug, PartialEq, Eq, Structural)]
pub enum MoveError {
    /// The line does not hold exactly two characters besides whitespace.
    WrongLength,
    /// One of the two characters is not a decimal digit.
    NotNumbers,
    /// A row or column is outside `1..=size`.
    OutOfRange,
    /// The cell already holds a mark.
    Occupied,
}

/// Whether `c` has the Unicode White_Space property, as `char::is_whitespace`
/// decides: the tab, line feed, vertical tab, form feed, carriage return and
/// space, U+0085, U+00A0, U+1680, U+2000 to U+200A, U+2028, U+2029, U+202F,
/// U+205F and U+3000.
pub open spec fn whitespace_of(c: char) -> bool {
    let u = c as u32;
    ||| 0x09 <= u <= 0x0D
    ||| u == 0x20
    ||| u == 0x85
    ||| u == 0xA0
    ||| u == 0x1680
    ||| 0x2000 <= u <= 0x200A
    ||| u == 0x2028
    ||| u == 0x2029
    ||| u == 0x202F
    ||| u == 0x205F
    ||| u == 0x3000
}

/// Whether `c` is whitespace (see `whitespace_of`).
fn is_whitespace(c: char) -> (r: bool)
    ensures
        r == whitespace_of(c),
{
    let u = c as u32;
    (0x09 <= u && u <= 0x0D) || u == 0x20 || u == 0x85 || u == 0xA0 || u == 0x1680 || (0x2000
        <= u && u <= 0x200A) || u == 0x2028 || u == 0x2029 || u == 0x202F || u == 0x205F || u
        == 0x3000
}

/// The characters of `s` that are not whitespace, in order.
pub open spec fn without_whitespace(s: Seq<char>) -> Seq<char>
    decreases s.len(),
{
    if s.len() == 0 {
        s
    } else if whitespace_of(s.last()) {
        without_whitespace(s.drop_last())
    } else {
        without_whitespace(s.drop_last()).push(s.last())
    }
}

/// The words that end the game at the move prompt.
pub open spec fn is_quit_word(s: Seq<char>) -> bool {
    ||| s == seq!['f', 'o', 'r', 'f', 'e', 'i', 't']
    ||| s == seq!['q', 'u', 'i', 't']
    ||| s == seq!['q']
}

/// Whether `c` is one of `0` to `9`.
pub open spec fn is_digit(c: char) -> bool {
    '0' as u32 <= c as u32 <= '9' as u32
}

/// The value of the decimal digit `c`.
pub open spec fn digit_value(c: char) -> int {
    c as u32 - '0' as u32
}

/// The command that the characters `s` (whitespace already removed) give on a
/// board of side `n`: a quit word, or two digits naming the row and column
/// counted from 1.
pub open spec fn command_of(s: Seq<char>, n: int) -> Result<Command, MoveError> {
    if is_quit_word(s) {
        Ok(Command::Quit)
    } else if s.len() != 2 {
        Err(MoveError::WrongLength)
    } else if !is_digit(s[0]) || !is_digit(s[1]) {
        Err(MoveError::NotNumbers)
    } else if digit_value(s[0]) < 1 || digit_value(s[0]) > n || digit_value(s[1]) < 1
        || digit_value(s[1]) > n {
        Err(MoveError::OutOfRange)
    } else {
        Ok(Command::Place((digit_value(s[0]) - 1) as usize, (digit_value(s[1]) - 1) as usize))
    }
}

/// What the human's input `s` does to grid `g`: the answer, and the grid
/// afterwards. A move onto an empty cell places `X` there; everything else
/// leaves the grid as it is.
pub open spec fn human_turn(g: Grid, s: Seq<char>) -> (Result<Command, MoveError>, Grid) {
    match command_of(s, g.len() as int) {
        Ok(Command::Place(r, c)) => if g[r as int][c as int] == Cell::Empty {
            (Ok(Command::Place(r, c)), place(g, r as int, c as int, Cell::X))
        } else {
            (Err(MoveError::Occupied), g)
        },
        other => (other, g),
    }
}

/// A human move changes at most its own cell, which then holds `X`; a quit or
/// a refused input leaves the grid unchanged.
pub proof fn lemma_human_turn_touches_only_target(g: Grid, s: Seq<char>)
    requires
        grid_wf(g),
    ensures
        match human_turn(g, s).0 {
            Ok(Command::Place(r, c)) => human_turn(g, s).1 == place(g, r as int, c as int, Cell::X)
                && (forall|i: int, j: int|
                    #![trigger human_turn(g, s).1[i][j]]
                    0 <= i < g.len() && 0 <= j < g[i].len() && (i != r || j != c)
                        ==> human_turn(g, s).1[i][j] == g[i][j]),
            _ => human_turn(g, s).1 == g,
        },
{
    if let Ok(Command::Place(r, c)) = human_turn(g, s).0 {
        let g2 = human_turn(g, s).1;
        assert(0 <= r < g.len() && 0 <= c < g.len());
        assert forall|i: int, j: int|
            0 <= i < g.len() && 0 <= j < g[i].len() && (i != r || j != c) implies #[trigger] g2[i][j] == g[i][j] by {
            if i == r {
                assert(g2[i] == g[i].update(c as int, Cell::X));
            } else {
                assert(g2[i] == g[i]);
            }
        }
    }
}

/// Whether the characters spell one of the quit words.
fn is_quit(s: &Vec<char>) -> (r: bool)
    ensures
        r == is_quit_word(s@),
{
    let n = s.len();
    let r = if n == 7 {
        s[0] == 'f' && s[1] == 'o' && s[2] == 'r' && s[3] == 'f' && s[4] == 'e' && s[5] == 'i'
            && s[6] == 't'
    } else if n == 4 {
        s[0] == 'q' && s[1] == 'u' && s[2] == 'i' && s[3] == 't'
    } else if n == 1 {
        s[0] == 'q'
    } else {
        false
    };
    proof {
        if r {
            if n == 7 {
                assert(s@ =~= seq!['f', 'o', 'r', 'f', 'e', 'i', 't']);
            } else if n == 4 {
                assert(s@ =~= seq!['q', 'u', 'i', 't']);
            } else {
                assert(s@ =~= seq!['q']);
            }
        }
    }
    r
}

/// The command that the characters give on a board of side `size` (see
/// `command_of`); `chars` holds no whitespace.
pub fn read_command(chars: &Vec<char>, size: usize) -> (r: Result<Command, MoveError>)
    ensures
        r == command_of(chars@, size as int),
{
    if is_quit(chars) {
        return Ok(Command::Quit);
    }
    if chars.len() != 2 {
        return Err(MoveError::WrongLength);
    }
    let d0 = chars[0] as u32;
    let d1 = chars[1] as u32;
    if d0 < '0' as u32 || d0 > '9' as u32 || d1 < '0' as u32 || d1 > '9' as u32 {
        return Err(MoveError::NotNumbers);
    }
    let row = (d0 - '0' as u32) as usize;
    let col = (d1 - '0' as u32) as usize;
    if row < 1 || row > size || col < 1 || col > size {
        return Err(MoveError::OutOfRange);
    }
    Ok(Command::Place(row - 1, col - 1))
}

/// Applies the human's input, given without whitespace, to the board (see
/// `human_turn`).
pub fn apply_human_move(board: &mut Board, chars: &Vec<char>) -> (r: Result<Command, MoveError>)
    requires
        old(board).wf(),
    ensures
        final(board).wf(),
        (r, final(board)@) == human_turn(old(board)@, chars@),
{
    let command = read_command(chars, board.size());
    match command {
        Ok(Command::Place(row, col)) => {
            if board.get(row, col) != Cell::Empty {
                return Err(MoveError::Occupied);
            }
            board.set(row, col, Cell::X);
            Ok(Command::Place(row, col))
        },
        other => other,
    }
}

/// The characters of `line` that are not whitespace.
pub fn strip_whitespace(line: &str) -> (r: Vec<char>)
    ensures
        r@ == without_whitespace(line@),
{
    let n = line.unicode_len();
    let mut out: Vec<char> = Vec::new();
    let mut i: usize = 0;
    while i < n
        invariant
            n == line@.len(),
            i <= n,
            out@ == without_whitespace(line@.subrange(0, i as int)),
        decreases n - i,
    {
        let c = line.get_char(i);
        if !is_whitespace(c) {
            out.push(c);
        }
        proof {
            assert(line@.subrange(0, i + 1).drop_last() =~= line@.subrange(0, i as int));
        }
        i += 1;
    }
    assert(line@.subrange(0, n as int) =~= line@);
    out
}

/// The human's turn on one line of input: whitespace is dropped, then the
/// rest is read and applied as by `apply_human_move`.
pub fn player_turn(board: &mut Board, line: &str) -> (r: Result<Command, MoveError>)
    requires
        old(board).wf(),
    ensures
        final(board).wf(),
        (r, final(board)@) == human_turn(old(board)@, without_whitespace(line@)),
{
    let chars = strip_whitespace(line);
    apply_human_move(board, &chars)
}

} // verus!
