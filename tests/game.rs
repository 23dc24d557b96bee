use tictactoe::board::{get_empty_cells, Board, Cell};
use tictactoe::outcome::{check_for_game_over, check_for_win, GameOutcome};
use tictactoe::search::{check_move_strength, computer_turn, select_best_move};
use tictactoe::turn::{apply_human_move, player_turn, read_command, strip_whitespace, Command, MoveError};

fn board_from(rows: &[&str]) -> Board {
    let mut board = Board::new(rows.len()).unwrap();
    for (r, row) in rows.iter().enumerate() {
        for (c, ch) in row.chars().enumerate() {
            let cell = match ch {
                'X' => Cell::X,
                'O' => Cell::O,
                _ => Cell::Empty,
            };
            board.set(r, c, cell);
        }
    }
    board
}

fn cells(board: &Board) -> Vec<Vec<Cell>> {
    let n = board.size();
    (0..n).map(|r| (0..n).map(|c| board.get(r, c)).collect()).collect()
}

fn chars(s: &str) -> Vec<char> {
    s.chars().collect()
}

#[test]
fn new_board_sizes() {
    assert!(Board::new(0).is_none());
    assert!(Board::new(10).is_none());
    let b = Board::new(4).unwrap();
    assert_eq!(b.size(), 4);
    assert!(cells(&b).iter().all(|row| row.iter().all(|c| *c == Cell::Empty)));
    assert_eq!(Board::new(1).unwrap().size(), 1);
    assert_eq!(Board::new(9).unwrap().size(), 9);
}

#[test]
fn set_changes_one_cell() {
    let mut b = Board::new(3).unwrap();
    b.set(1, 2, Cell::O);
    assert_eq!(b.get(1, 2), Cell::O);
    assert_eq!(b.get(2, 1), Cell::Empty);
    assert_eq!(get_empty_cells(&b).len(), 8);
}

#[test]
fn empty_cells_in_row_major_order() {
    let b = board_from(&["X.O", ".O.", "XX."]);
    assert_eq!(get_empty_cells(&b), vec![(0, 1), (1, 0), (1, 2), (2, 2)]);
    let full = board_from(&["XOX", "XOO", "OXX"]);
    assert!(get_empty_cells(&full).is_empty());
}

#[test]
fn row_win_found_first() {
    let b = board_from(&["XXX", "OO.", "..."]);
    assert_eq!(check_for_win(&b), Some(Cell::X));
    assert_eq!(check_for_game_over(&b), GameOutcome::Win(Cell::X));
}

#[test]
fn earlier_line_decides_between_two_wins() {
    let b = board_from(&["OOO", "...", "XXX"]);
    assert_eq!(check_for_game_over(&b), GameOutcome::Win(Cell::O));
    let b = board_from(&["XXX", "...", "OOO"]);
    assert_eq!(check_for_game_over(&b), GameOutcome::Win(Cell::X));
}

#[test]
fn column_and_diagonal_wins() {
    assert_eq!(check_for_game_over(&board_from(&["X.O", "X.O", "X.O"])), GameOutcome::Win(Cell::X));
    assert_eq!(check_for_game_over(&board_from(&["X.O", ".XO", "..X"])), GameOutcome::Win(Cell::X));
    assert_eq!(check_for_game_over(&board_from(&["..O", ".O.", "O.."])), GameOutcome::Win(Cell::O));
    assert_eq!(
        check_for_game_over(&board_from(&["...O", "..O.", ".O..", "O..."])),
        GameOutcome::Win(Cell::O)
    );
    assert_eq!(check_for_win(&board_from(&["XXX.", "....", "....", "...."])), None);
}

#[test]
fn full_board_without_line_is_draw() {
    let b = board_from(&["XOX", "XOO", "OXX"]);
    assert_eq!(check_for_win(&b), None);
    assert_eq!(check_for_game_over(&b), GameOutcome::Draw);
}

#[test]
fn open_board_without_line_is_ongoing() {
    assert_eq!(check_for_game_over(&board_from(&["X..", "...", "..."])), GameOutcome::Ongoing);
    assert_eq!(check_for_game_over(&Board::new(4).unwrap()), GameOutcome::Ongoing);
    assert_eq!(check_for_game_over(&board_from(&["XOX", "XOO", "OX."])), GameOutcome::Ongoing);
}

#[test]
fn strength_when_opponent_has_won() {
    let b = board_from(&["XXX", "OO.", "..."]);
    assert_eq!(check_move_strength(&b, &Cell::O), -128);
}

#[test]
fn strength_of_full_board() {
    let b = board_from(&["XOX", "XOO", "OXX"]);
    assert_eq!(check_move_strength(&b, &Cell::X), -200);
    assert_eq!(check_move_strength(&b, &Cell::O), -200);
}

#[test]
fn strength_after_block() {
    let b = board_from(&["XXO", ".O.", "..."]);
    assert_eq!(check_move_strength(&b, &Cell::O), 6);
    let b = board_from(&["X.O", ".O.", "..."]);
    assert_eq!(check_move_strength(&b, &Cell::O), -2);
    let b = board_from(&["XO.", ".O.", "..."]);
    assert_eq!(check_move_strength(&b, &Cell::O), -3);
}

#[test]
fn select_blocks_open_row() {
    let b = board_from(&["XX.", ".O.", "..."]);
    assert_eq!(select_best_move(&b, &Cell::O), Some((0, 2)));
}

#[test]
fn select_ties_keep_earliest() {
    let b = board_from(&["X..", ".O.", "..."]);
    let m = select_best_move(&b, &Cell::O);
    assert_eq!(m, Some((0, 2)));
    let (r, c) = m.unwrap();
    assert_eq!(b.get(r, c), Cell::Empty);
}

#[test]
fn select_on_full_board_is_none() {
    let b = board_from(&["XOX", "XOO", "OXX"]);
    assert_eq!(select_best_move(&b, &Cell::O), None);
}

#[test]
fn select_on_last_empty_cell_plays_it() {
    let b = board_from(&["XOX", "XOO", "OX."]);
    assert_eq!(select_best_move(&b, &Cell::O), Some((2, 2)));
    let b = board_from(&["XOXO", "XOXO", "OXOX", "OX.X"]);
    assert_eq!(select_best_move(&b, &Cell::O), Some((3, 2)));
}

#[test]
fn select_when_every_move_loses() {
    let b = board_from(&["XXX", "OO.", "..."]);
    assert_eq!(select_best_move(&b, &Cell::O), Some((1, 2)));
}

#[test]
fn computer_takes_center_first() {
    let mut b = Board::new(3).unwrap();
    assert_eq!(computer_turn(&mut b), (1, 1));
    assert_eq!(b.get(1, 1), Cell::O);
    let mut b = Board::new(4).unwrap();
    assert_eq!(computer_turn(&mut b), (1, 1));
    assert_eq!(get_empty_cells(&b).len(), 15);
}

#[test]
fn opening_sequence_three_by_three() {
    let mut b = Board::new(3).unwrap();
    assert_eq!(player_turn(&mut b, "11\n"), Ok(Command::Place(0, 0)));
    assert_eq!(computer_turn(&mut b), (1, 1));
    assert_eq!(player_turn(&mut b, "1 2"), Ok(Command::Place(0, 1)));
    assert_eq!(computer_turn(&mut b), (0, 2));
    assert_eq!(cells(&b), cells(&board_from(&["XXO", ".O.", "..."])));
    assert_eq!(check_for_game_over(&b), GameOutcome::Ongoing);
}

#[test]
fn computer_fills_last_cell() {
    let mut b = board_from(&["XOX", "XOO", "OX."]);
    assert_eq!(computer_turn(&mut b), (2, 2));
    assert_eq!(cells(&b), cells(&board_from(&["XOX", "XOO", "OXO"])));
    let mut b = board_from(&["XOXO", "XOXO", "OXOX", "OX.X"]);
    assert_eq!(computer_turn(&mut b), (3, 2));
    assert_eq!(cells(&b), cells(&board_from(&["XOXO", "XOXO", "OXOX", "OXOX"])));
    assert_eq!(check_for_game_over(&b), GameOutcome::Draw);
}

#[test]
fn quit_words() {
    assert_eq!(read_command(&chars("forfeit"), 4), Ok(Command::Quit));
    assert_eq!(read_command(&chars("quit"), 4), Ok(Command::Quit));
    assert_eq!(read_command(&chars("q"), 4), Ok(Command::Quit));
    assert_eq!(read_command(&chars("Quit"), 4), Err(MoveError::WrongLength));
}

#[test]
fn forfeit_leaves_board_unchanged() {
    let mut b = board_from(&["X...", ".O..", "....", "...."]);
    let before = cells(&b);
    assert_eq!(player_turn(&mut b, "  forfeit \n"), Ok(Command::Quit));
    assert_eq!(cells(&b), before);
}

#[test]
fn command_errors() {
    assert_eq!(read_command(&chars("1"), 3), Err(MoveError::WrongLength));
    assert_eq!(read_command(&chars("123"), 3), Err(MoveError::WrongLength));
    assert_eq!(read_command(&chars(""), 3), Err(MoveError::WrongLength));
    assert_eq!(read_command(&chars("ab"), 3), Err(MoveError::NotNumbers));
    assert_eq!(read_command(&chars("+5"), 3), Err(MoveError::NotNumbers));
    assert_eq!(read_command(&chars("04"), 4), Err(MoveError::OutOfRange));
    assert_eq!(read_command(&chars("14"), 3), Err(MoveError::OutOfRange));
    assert_eq!(read_command(&chars("10"), 3), Err(MoveError::OutOfRange));
    assert_eq!(read_command(&chars("44"), 4), Ok(Command::Place(3, 3)));
    assert_eq!(read_command(&chars("13"), 3), Ok(Command::Place(0, 2)));
}

#[test]
fn whitespace_is_dropped() {
    assert_eq!(strip_whitespace(" 1\t3 \r\n"), vec!['1', '3']);
    assert_eq!(strip_whitespace("q u i t"), vec!['q', 'u', 'i', 't']);
    assert_eq!(strip_whitespace(""), Vec::<char>::new());
    assert_eq!(strip_whitespace("\u{3000}1\u{a0}3\u{2009}"), vec!['1', '3']);
    assert_eq!(strip_whitespace("1\u{200b}3"), vec!['1', '\u{200b}', '3']);
    for c in ['\t', '\n', '\u{b}', '\u{c}', '\r', ' ', '\u{85}', '\u{1680}', '\u{2028}', '\u{2029}', '\u{202f}', '\u{205f}'] {
        assert!(c.is_whitespace());
        assert_eq!(strip_whitespace(&c.to_string()), Vec::<char>::new());
    }
}

#[test]
fn refused_moves_leave_board_unchanged() {
    let mut b = board_from(&["X..", ".O.", "..."]);
    let before = cells(&b);
    assert_eq!(player_turn(&mut b, "22"), Err(MoveError::Occupied));
    assert_eq!(player_turn(&mut b, "99"), Err(MoveError::OutOfRange));
    assert_eq!(player_turn(&mut b, "x1"), Err(MoveError::NotNumbers));
    assert_eq!(player_turn(&mut b, "1 2 3"), Err(MoveError::WrongLength));
    assert_eq!(cells(&b), before);
}

#[test]
fn human_move_changes_only_its_cell() {
    let mut b = board_from(&["X..", ".O.", "..."]);
    assert_eq!(apply_human_move(&mut b, &chars("33")), Ok(Command::Place(2, 2)));
    assert_eq!(cells(&b), cells(&board_from(&["X..", ".O.", "..X"])));
}
