use vstd::prelude::*;
use crate::board::{grid_of, Board};
use crate::grid::Grid;
use crate::stone::Stone;

verus! {

/// `String::push` of the standard library appends the given character to the
/// end of the string and changes nothing else of it; this is taken on trust.
pub assume_specification[ String::push ](s: &mut String, ch: char)
    ensures
        final(s)@ == old(s)@.push(ch),
;

/// How one cell is drawn: a black or a white disc, each followed by the
/// selector that asks for its plain form, or a pair of brackets.
pub open spec fn cell_text(cell: Option<Stone>) -> Seq<char> {
    match cell {
        Some(Stone::Black) => seq!['\u{26ab}', '\u{fe0e}'],
        Some(Stone::White) => seq!['\u{26aa}', '\u{fe0e}'],
        None => seq!['[', ']'],
    }
}

/// The cells of one row, drawn one after another.
pub open spec fn row_text(row: Seq<Option<Stone>>) -> Seq<char>
    decreases row.len(),
{
    if row.len() == 0 {
        Seq::empty()
    } else {
        row_text(row.drop_last()) + cell_text(row.last())
    }
}

/// The plain picture of a grid: its rows from first to last, each closed by
/// a line feed.
pub open spec fn grid_text(g: Grid) -> Seq<char>
    decreases g.len(),
{
    if g.len() == 0 {
        Seq::empty()
    } else {
        grid_text(g.drop_last()) + row_text(g.last()) + seq!['\n']
    }
}

/// The label of column `i`: `A` for the first column, and from there on the
/// character whose code is one higher for each column. The codes are kept in
/// one byte: after the column labelled with code 255 they start again at 0.
pub open spec fn column_label(i: nat) -> char {
    ((65 + i) % 256) as char
}

/// The labels of the first `n` columns, each followed by a blank.
pub open spec fn column_labels(n: nat) -> Seq<char>
    decreases n,
{
    if n == 0 {
        Seq::empty()
    } else {
        column_labels((n - 1) as nat) + seq![column_label((n - 1) as nat), ' ']
    }
}

/// Two dashes for each of `n` columns.
pub open spec fn dashes(n: nat) -> Seq<char>
    decreases n,
{
    if n == 0 {
        Seq::empty()
    } else {
        dashes((n - 1) as nat) + seq!['-', '-']
    }
}

/// The decimal digit for `d`, where `d` is less than ten.
pub open spec fn digit(d: nat) -> char {
    (48 + d) as char
}

/// `n` in decimal digits, without leading zeros.
pub open spec fn decimal(n: nat) -> Seq<char>
    decreases n,
{
    if n < 10 {
        seq![digit(n)]
    } else {
        decimal(n / 10).push(digit(n % 10))
    }
}

/// The label of the row with number `k`: the number in decimal, with a
/// blank after it where it has a single digit.
pub open spec fn row_label(k: nat) -> Seq<char> {
    if k < 10 {
        decimal(k) + seq![' ']
    } else {
        decimal(k)
    }
}

/// The rows of a grid, one line each: the row's label, counted from one, a
/// bar between blanks, and the row's cells.
pub open spec fn numbered_rows(g: Grid) -> Seq<char>
    decreases g.len(),
{
    if g.len() == 0 {
        Seq::empty()
    } else {
        numbered_rows(g.drop_last()) + row_label(g.len()) + seq![' ', '|', ' '] + row_text(g.last()) + seq!['\n']
    }
}

/// The framed picture of a grid: a line of column labels, a ruled line, and
/// the numbered rows.
pub open spec fn board_text(g: Grid) -> Seq<char> {
    seq![' ', ' ', ' ', '|', ' '] + column_labels(g.len()) + seq!['\n'] + seq!['-', '-', '-', '+', '-'] + dashes(
        g.len(),
    ) + seq!['\n'] + numbered_rows(g)
}

/// Appends the picture of one cell.
fn push_cell(text: &mut String, cell: Option<Stone>)
    ensures
        final(text)@ == old(text)@ + cell_text(cell),
{
    match cell {
        Some(Stone::Black) => {
            text.push('\u{26ab}');
            text.push('\u{fe0e}');
        },
        Some(Stone::White) => {
            text.push('\u{26aa}');
            text.push('\u{fe0e}');
        },
        None => {
            text.push('[');
            text.push(']');
        },
    }
    assert(text@ =~= old(text)@ + cell_text(cell));
}

/// Appends the picture of one row, without a line feed.
fn push_row(text: &mut String, row: &Vec<Option<Stone>>)
    ensures
        final(text)@ == old(text)@ + row_text(row@),
{
    let mut x: usize = 0;
    assert(row@.take(0) =~= Seq::empty());
    assert(text@ =~= old(text)@ + row_text(row@.take(0)));
    while x < row.len()
        invariant
            x <= row@.len(),
            text@ == old(text)@ + row_text(row@.take(x as int)),
        decreases row@.len() - x,
    {
        push_cell(text, row[x]);
        proof {
            let next = row@.take(x + 1);
            assert(next.drop_last() =~= row@.take(x as int));
            assert(next.last() == row@[x as int]);
            assert(text@ =~= old(text)@ + row_text(next));
        }
        x += 1;
    }
    assert(row@.take(x as int) =~= row@);
}

/// The plain picture of a board: one line per row, a black disc for a black
/// stone, a white disc for a white stone and `[]` for an empty cell.
pub fn render_grid(board: &Board) -> (text: String)
    ensures
        text@ == grid_text(grid_of(*board)),
{
    let mut text = String::new();
    let ghost g = grid_of(*board);
    let mut y: usize = 0;
    assert(g.take(0) =~= Seq::empty());
    while y < board.len()
        invariant
            y <= board@.len(),
            g == grid_of(*board),
            text@ == grid_text(g.take(y as int)),
        decreases board@.len() - y,
    {
        let ghost before = text@;
        push_row(&mut text, &board[y]);
        text.push('\n');
        proof {
            let next = g.take(y + 1);
            assert(next.drop_last() =~= g.take(y as int));
            assert(next.last() == board@[y as int]@);
            assert(text@ =~= grid_text(next));
        }
        y += 1;
    }
    assert(g.take(y as int) =~= g);
    text
}

/// Appends `n` in decimal digits.
fn push_decimal(text: &mut String, n: usize)
    ensures
        final(text)@ == old(text)@ + decimal(n as nat),
    decreases n,
{
    if n >= 10 {
        push_decimal(text, n / 10);
    }
    let d: u8 = (n % 10) as u8;
    text.push((48 + d) as char);
    assert(text@ =~= old(text)@ + decimal(n as nat));
}

/// The framed picture of a board: a header that labels the columns from `A`
/// on, a ruled line, and the rows of the plain picture, each behind its
/// number, counted from one.
pub fn render_board(board: &Board) -> (text: String)
    ensures
        text@ == board_text(grid_of(*board)),
{
    let ghost g = grid_of(*board);
    let n = board.len();
    let mut text = String::new();
    text.push(' ');
    text.push(' ');
    text.push(' ');
    text.push('|');
    text.push(' ');
    let ghost lead = text@;
    assert(lead =~= seq![' ', ' ', ' ', '|', ' ']);
    let mut i: usize = 0;
    while i < n
        invariant
            i <= n,
            text@ == lead + column_labels(i as nat),
        decreases n - i,
    {
        let code: u8 = ((65 + i % 256) % 256) as u8;
        assert(code == (65 + i) % 256);
        text.push(code as char);
        text.push(' ');
        assert(text@ =~= lead + column_labels((i + 1) as nat));
        i += 1;
    }
    text.push('\n');
    text.push('-');
    text.push('-');
    text.push('-');
    text.push('+');
    text.push('-');
    let ghost head = text@;
    assert(head =~= lead + column_labels(n as nat) + seq!['\n'] + seq!['-', '-', '-', '+', '-']);
    let mut j: usize = 0;
    while j < n
        invariant
            j <= n,
            text@ == head + dashes(j as nat),
        decreases n - j,
    {
        text.push('-');
        text.push('-');
        assert(text@ =~= head + dashes((j + 1) as nat));
        j += 1;
    }
    text.push('\n');
    let ghost frame = text@;
    assert(frame =~= head + dashes(n as nat) + seq!['\n']);
    let mut y: usize = 0;
    assert(g.take(0) =~= Seq::empty());
    while y < n
        invariant
            y <= n,
            n == board@.len(),
            g == grid_of(*board),
            text@ == frame + numbered_rows(g.take(y as int)),
        decreases n - y,
    {
        let ghost before = text@;
        push_decimal(&mut text, y + 1);
        if y + 1 < 10 {
            text.push(' ');
        }
        assert(text@ =~= before + row_label((y + 1) as nat));
        text.push(' ');
        text.push('|');
        text.push(' ');
        push_row(&mut text, &board[y]);
        text.push('\n');
        proof {
            let next = g.take(y + 1);
            assert(next.drop_last() =~= g.take(y as int));
            assert(next.last() == board@[y as int]@);
            assert(text@ =~= frame + numbered_rows(next));
        }
        y += 1;
    }
    assert(g.take(y as int) =~= g);
    text
}

} // verus!
