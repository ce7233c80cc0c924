use gomoku::board::{ArrayBasedBoard, GomokuBoard};
use gomoku::game::SimpleGomokuGame;
use gomoku::stone::Stone;
use gomoku::text::{render_board, render_grid};

const BLACK: &str = "\u{26ab}\u{fe0e}";
const WHITE: &str = "\u{26aa}\u{fe0e}";

#[test]
fn plain_picture_of_an_empty_board() {
    let board = ArrayBasedBoard::with_size(5);
    assert_eq!(render_grid(board.board()), "[][][][][]\n".repeat(5));
}

#[test]
fn plain_picture_shows_stones_where_they_lie() {
    let mut board = ArrayBasedBoard::with_size(5);
    board.put_stone(1, 0, Stone::Black).unwrap();
    board.put_stone(4, 2, Stone::White).unwrap();
    let expected = format!(
        "[]{b}[][][]\n[][][][][]\n[][][][]{w}\n[][][][][]\n[][][][][]\n",
        b = BLACK,
        w = WHITE
    );
    assert_eq!(render_grid(board.board()), expected);
}

fn concat_lines(lines: &[&str]) -> String {
    let mut text = String::new();
    for line in lines {
        text.push_str(line);
        text.push('\n');
    }
    text
}

#[test]
fn framed_picture_of_a_small_board() {
    let mut board = ArrayBasedBoard::with_size(5);
    board.put_stone(0, 0, Stone::Black).unwrap();
    board.put_stone(2, 3, Stone::White).unwrap();
    let expected = concat_lines(&[
        "   | A B C D E ",
        "---+-----------",
        "1  | \u{26ab}\u{fe0e}[][][][]",
        "2  | [][][][][]",
        "3  | [][][][][]",
        "4  | [][]\u{26aa}\u{fe0e}[][]",
        "5  | [][][][][]",
    ]);
    assert_eq!(render_board(board.board()), expected);
}

#[test]
fn framed_picture_of_the_default_board() {
    let game = SimpleGomokuGame::new();
    let text = game.to_string();
    let lines: Vec<&str> = text.lines().collect();
    assert_eq!(lines.len(), 17);
    assert_eq!(lines[0], "   | A B C D E F G H I J K L M N O ");
    assert_eq!(lines[1], "---+-------------------------------");
    assert_eq!(lines[2], format!("1  | {}", "[]".repeat(15)));
    assert_eq!(lines[10], format!("9  | {}", "[]".repeat(15)));
    assert_eq!(lines[11], format!("10 | {}", "[]".repeat(15)));
    assert_eq!(lines[16], format!("15 | {}", "[]".repeat(15)));
    assert!(text.ends_with('\n'));
}

#[test]
fn game_text_is_the_framed_picture_of_its_board() {
    let mut game = SimpleGomokuGame::new();
    game.put_stone(0, 0).unwrap();
    game.put_stone(14, 14).unwrap();
    let text = game.to_string();
    assert_eq!(text, render_board(game.board().board()));
    let lines: Vec<&str> = text.lines().collect();
    assert_eq!(lines[2], format!("1  | {}{}", BLACK, "[]".repeat(14)));
    assert_eq!(lines[16], format!("15 | {}{}", "[]".repeat(14), WHITE));
}

#[test]
fn row_numbers_of_three_digits_and_labels_past_the_alphabet() {
    let board = ArrayBasedBoard::with_size(100);
    let text = render_board(board.board());
    let lines: Vec<&str> = text.lines().collect();
    assert_eq!(lines.len(), 102);
    assert_eq!(lines[101], format!("100 | {}", "[]".repeat(100)));
    assert_eq!(lines[100], format!("99 | {}", "[]".repeat(100)));
    let header: Vec<char> = lines[0].chars().collect();
    assert_eq!(header.len(), 5 + 200);
    assert_eq!(header[5], 'A');
    assert_eq!(header[5 + 2 * 25], 'Z');
    assert_eq!(header[5 + 2 * 26], '[');
    assert_eq!(header[5 + 2 * 99], (65u8 + 99) as char);
    assert_eq!(header[6], ' ');
    assert_eq!(lines[1], format!("---+-{}", "--".repeat(100)));
}

#[test]
fn column_labels_stay_in_one_byte() {
    let board = ArrayBasedBoard::with_size(200);
    let text = render_board(board.board());
    let header: Vec<char> = text.lines().next().unwrap().chars().collect();
    assert_eq!(header.len(), 5 + 400);
    assert_eq!(header[5 + 2 * 190], '\u{ff}');
    assert_eq!(header[5 + 2 * 191], '\u{0}');
    assert_eq!(header[5 + 2 * 199], '\u{8}');
}

#[test]
fn pictures_of_boards_without_rows_or_with_uneven_rows() {
    let empty: Vec<Vec<Option<Stone>>> = Vec::new();
    assert_eq!(render_grid(&empty), "");
    assert_eq!(render_board(&empty), "   | \n---+-\n");
    let uneven = vec![vec![Some(Stone::White)], vec![], vec![None, Some(Stone::Black)]];
    assert_eq!(render_grid(&uneven), format!("{}\n\n[]{}\n", WHITE, BLACK));
    assert_eq!(
        render_board(&uneven),
        format!("   | A B C \n---+-------\n1  | {}\n2  | \n3  | []{}\n", WHITE, BLACK)
    );
}
