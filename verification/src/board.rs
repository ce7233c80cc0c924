use vstd::prelude::*;
use crate::error::GomokuError;
use crate::grid;
use crate::grid::{cell_at, empty_grid, Grid};
use crate::point::Point;
use crate::rules::{
    accepts, cell_on_line, grid_after, is_direction, line_of_five, outcome, well_formed, wins_at,
    MIN_BOARD_SIZE, WIN_LENGTH,
};
use crate::stone::Stone;

verus! {

/// The storage of a board: `board[y][x]` is the cell in column `x` of row `y`.
pub type Board = Vec<Vec<Option<Stone>>>;

/// The side of the board that `new` makes.
pub const DEFAULT_BOARD_SIZE: usize = 15;

/// The grid that a stored board stands for.
pub open spec fn grid_of(board: Board) -> Grid {
    Seq::new(board@.len(), |y: int| board@[y]@)
}

/// What every board offers, whatever its storage.
///
/// The contracts speak of two values that each board stands for: its grid,
/// `cells()`, and the number of stones it has counted, `stones()`.
pub trait GomokuBoard {
    /// The grid this board stands for.
    spec fn cells(&self) -> Grid;

    /// The number of stones this board has counted.
    spec fn stones(&self) -> nat;

    /// The side of the board.
    fn size(&self) -> (n: usize)
        ensures
            n == self.cells().len(),
    ;

    /// The stored cells.
    fn board(&self) -> (board: &Board)
        ensures
            grid_of(*board) == self.cells(),
    ;

    /// The stored cells, open to any change. The stone count stays as it is,
    /// so a caller that adds or removes stones this way leaves the board in a
    /// state that `put_stone` does not take.
    fn board_mut(&mut self) -> (board: &mut Board)
        ensures
            grid_of(*board) == old(self).cells(),
            final(self).cells() == grid_of(*final(board)),
            final(self).stones() == old(self).stones(),
    ;

    /// The occupant of `(x, y)`; `None` where the cell is empty or the
    /// coordinates name no cell.
    fn get_at(&self, x: usize, y: usize) -> (cell: Option<Stone>)
        ensures
            cell == cell_at(self.cells(), x as int, y as int),
    ;

    /// Whether both coordinates lie on the board.
    fn in_range(&self, x: usize, y: usize) -> (inside: bool)
        ensures
            inside == grid::in_range(self.cells(), x as int, y as int),
    ;

    /// The number of stones on the board, of both colours: `player` does not
    /// enter into it.
    fn count(&self, player: Stone) -> (n: usize)
        ensures
            n == self.stones(),
    ;

    /// Whether no cell is empty.
    fn is_full(&self) -> (full: bool)
        ensures
            full == grid::is_full(self.cells()),
    ;

    /// Places a stone of `player` at `(x, y)` and reports what came of it.
    ///
    /// A cell that holds a stone is refused with `StoneAlreadyPlaced`,
    /// coordinates off the board with `IndexOutOfBound`; the board is then
    /// unchanged. Otherwise the stone is placed and counted, and the result is
    /// `GameOverWithWinner(player)` if it starts a line of five,
    /// `GameOverWithDraw` if it filled the board, and `Ok` if the game goes on.
    fn put_stone(&mut self, x: usize, y: usize, player: Stone) -> (result: Result<(), GomokuError>)
        requires
            well_formed(old(self).cells(), old(self).stones()),
        ensures
            result == outcome(old(self).cells(), x as int, y as int, player),
            cell_at(old(self).cells(), x as int, y as int) is Some ==> result == Err::<(), GomokuError>(
                GomokuError::StoneAlreadyPlaced,
            ),
            cell_at(old(self).cells(), x as int, y as int) is None && !grid::in_range(
                old(self).cells(),
                x as int,
                y as int,
            ) ==> result == Err::<(), GomokuError>(GomokuError::IndexOutOfBound),
            final(self).cells() == grid_after(old(self).cells(), x as int, y as int, player),
            final(self).stones() == old(self).stones() + if accepts(old(self).cells(), x as int, y as int) {
                1nat
            } else {
                0nat
            },
            well_formed(final(self).cells(), final(self).stones()),
    ;

    /// Whether the stone at `(x, y)` starts a line of five: whether it and the
    /// next four cells in one of the eight directions hold the same colour.
    fn check_win_at(&self, x: usize, y: usize) -> (won: bool)
        ensures
            won == wins_at(self.cells(), x as int, y as int),
    ;
}

/// A board in dense storage: one vector per row and a running count of the
/// stones.
pub struct ArrayBasedBoard {
    board: Board,
    stone_count: usize,
}

impl ArrayBasedBoard {
    /// An empty board of the default size.
    pub fn new() -> (board: Self)
        ensures
            board.cells() == empty_grid(DEFAULT_BOARD_SIZE as nat),
            board.stones() == 0,
            well_formed(board.cells(), board.stones()),
    {
        Self::with_size(DEFAULT_BOARD_SIZE)
    }

    /// An empty board of side `size`.
    pub fn with_size(size: usize) -> (board: Self)
        requires
            size >= MIN_BOARD_SIZE,
            size * size <= usize::MAX,
        ensures
            board.cells() == empty_grid(size as nat),
            board.stones() == 0,
            well_formed(board.cells(), board.stones()),
    {
        let mut board: Board = Vec::new();
        let mut y: usize = 0;
        while y < size
            invariant
                y <= size,
                board@.len() == y,
                forall|j: int| 0 <= j < y ==> (#[trigger] board@[j])@ == Seq::new(size as nat, |x: int| None::<Stone>),
            decreases size - y,
        {
            let mut row: Vec<Option<Stone>> = Vec::new();
            let mut x: usize = 0;
            while x < size
                invariant
                    x <= size,
                    row@.len() == x,
                    forall|i: int| 0 <= i < x ==> (#[trigger] row@[i]) is None,
                decreases size - x,
            {
                row.push(None);
                x += 1;
            }
            assert(row@ =~= Seq::new(size as nat, |x: int| None::<Stone>));
            board.push(row);
            y += 1;
        }
        proof {
            assert(grid_of(board) =~= empty_grid(size as nat));
            grid::lemma_empty_grid_occupied(size as nat);
        }
        ArrayBasedBoard { board, stone_count: 0 }
    }

    /// The coordinate `c` moved `i` cells along a direction component `d`,
    /// where that is still a `usize`.
    fn shifted(c: usize, d: i8, i: usize) -> (moved: Option<usize>)
        requires
            -1 <= d <= 1,
            i < WIN_LENGTH,
        ensures
            moved matches Some(m) ==> m == c + i * d,
            moved is None ==> c + i * d < 0 || c + i * d > usize::MAX,
    {
        if d == 0 {
            assert(i * d == 0) by (nonlinear_arith)
                requires
                    d == 0,
            ;
            Some(c)
        } else if d > 0 {
            assert(i * d == i) by (nonlinear_arith)
                requires
                    d == 1,
            ;
            c.checked_add(i)
        } else {
            assert(i * d == -i) by (nonlinear_arith)
                requires
                    d == -1,
            ;
            if i <= c {
                Some(c - i)
            } else {
                None
            }
        }
    }

    /// Walks from `(x, y)` in direction `(dx, dy)` and collects the cells that
    /// hold `player`, stopping at the first that does not, or after five.
    fn scan(&self, x: usize, y: usize, dx: i8, dy: i8, player: Stone) -> (stack: Vec<Point>)
        requires
            is_direction(dx as int, dy as int),
        ensures
            stack@.len() <= WIN_LENGTH,
            forall|i: int|
                0 <= i < stack@.len() ==> {
                    &&& #[trigger] cell_on_line(self.cells(), x as int, y as int, dx as int, dy as int, i) == Some(player)
                    &&& stack@[i].x == x + i * dx
                    &&& stack@[i].y == y + i * dy
                },
            stack@.len() < WIN_LENGTH ==> cell_on_line(
                self.cells(),
                x as int,
                y as int,
                dx as int,
                dy as int,
                stack@.len() as int,
            ) != Some(player),
    {
        let mut stack: Vec<Point> = Vec::new();
        let mut i: usize = 0;
        while i < WIN_LENGTH
            invariant_except_break
                stack@.len() == i,
            invariant
                i <= WIN_LENGTH,
                is_direction(dx as int, dy as int),
                stack@.len() <= i,
                forall|j: int|
                    0 <= j < stack@.len() ==> {
                        &&& #[trigger] cell_on_line(self.cells(), x as int, y as int, dx as int, dy as int, j) == Some(player)
                        &&& stack@[j].x == x + j * dx
                        &&& stack@[j].y == y + j * dy
                    },
            ensures
                stack@.len() < WIN_LENGTH ==> cell_on_line(
                    self.cells(),
                    x as int,
                    y as int,
                    dx as int,
                    dy as int,
                    stack@.len() as int,
                ) != Some(player),
            decreases WIN_LENGTH - i,
        {
            let cell = match (Self::shifted(x, dx, i), Self::shifted(y, dy, i)) {
                (Some(cx), Some(cy)) => {
                    let cell = self.get_at(cx, cy);
                    match cell {
                        Some(s) => if s == player { Some(Point::new(cx, cy)) } else { None },
                        None => None,
                    }
                },
                _ => None,
            };
            match cell {
                Some(p) => {
                    stack.push(p);
                },
                None => {
                    proof {
                        let g = self.cells();
                        let px = x + i * dx;
                        let py = y + i * dy;
                        assert(self.board.len() == g.len());
                        if 0 <= py < g.len() {
                            assert(self.board@[py].len() == g[py].len());
                        }
                        assert(cell_at(g, px, py) != Some(player));
                    }
                    break;
                },
            }
            i += 1;
        }
        stack
    }

}

impl Clone for ArrayBasedBoard {
    /// A board of its own with the same cells and the same count.
    fn clone(&self) -> (copy: Self)
        ensures
            copy.cells() == self.cells(),
            copy.stones() == self.stones(),
    {
        let mut board: Board = Vec::new();
        let mut y: usize = 0;
        while y < self.board.len()
            invariant
                y <= self.board@.len(),
                board@.len() == y,
                forall|j: int| 0 <= j < y ==> (#[trigger] board@[j])@ == self.board@[j]@,
            decreases self.board@.len() - y,
        {
            let source = &self.board[y];
            let mut row: Vec<Option<Stone>> = Vec::new();
            let mut x: usize = 0;
            while x < source.len()
                invariant
                    x <= source@.len(),
                    row@.len() == x,
                    forall|i: int| 0 <= i < x ==> #[trigger] row@[i] == source@[i],
                decreases source@.len() - x,
            {
                row.push(source[x]);
                x += 1;
            }
            assert(row@ =~= source@);
            board.push(row);
            y += 1;
        }
        assert(grid_of(board) =~= grid_of(self.board));
        ArrayBasedBoard { board, stone_count: self.stone_count }
    }
}

impl Default for ArrayBasedBoard {
    /// The same board as `new` gives.
    fn default() -> (board: Self)
        ensures
            board.cells() == empty_grid(DEFAULT_BOARD_SIZE as nat),
            board.stones() == 0,
            well_formed(board.cells(), board.stones()),
    {
        Self::new()
    }
}

impl GomokuBoard for ArrayBasedBoard {
    closed spec fn cells(&self) -> Grid {
        grid_of(self.board)
    }

    closed spec fn stones(&self) -> nat {
        self.stone_count as nat
    }

    fn size(&self) -> (n: usize) {
        self.board.len()
    }

    fn board(&self) -> (board: &Board) {
        &self.board
    }

    fn board_mut(&mut self) -> (board: &mut Board) {
        &mut self.board
    }

    fn get_at(&self, x: usize, y: usize) -> (cell: Option<Stone>) {
        if y < self.board.len() {
            let row = &self.board[y];
            if x < row.len() {
                row[x]
            } else {
                None
            }
        } else {
            None
        }
    }

    fn in_range(&self, x: usize, y: usize) -> (inside: bool) {
        x < self.size() && y < self.size()
    }

    fn count(&self, player: Stone) -> (n: usize) {
        self.stone_count
    }

    fn is_full(&self) -> (full: bool) {
        let mut y: usize = 0;
        while y < self.board.len()
            invariant
                y <= self.board@.len(),
                forall|i: int, j: int|
                    0 <= j < y && 0 <= i < self.cells()[j].len() ==> (#[trigger] self.cells()[j][i]) is Some,
            decreases self.board@.len() - y,
        {
            let row = &self.board[y];
            let mut x: usize = 0;
            while x < row.len()
                invariant
                    x <= row@.len(),
                    y < self.board@.len(),
                    row@ == self.cells()[y as int],
                    forall|i: int| 0 <= i < x ==> (#[trigger] self.cells()[y as int][i]) is Some,
                decreases row@.len() - x,
            {
                if row[x].is_none() {
                    assert(self.cells()[y as int][x as int] is None);
                    return false;
                }
                x += 1;
            }
            y += 1;
        }
        true
    }

    fn put_stone(&mut self, x: usize, y: usize, player: Stone) -> (result: Result<(), GomokuError>) {
        if self.get_at(x, y).is_some() {
            return Err(GomokuError::StoneAlreadyPlaced);
        }
        if !self.in_range(x, y) {
            return Err(GomokuError::IndexOutOfBound);
        }
        proof {
            let g = self.cells();
            grid::lemma_occupied_bound(g, g.len());
            grid::lemma_row_stones_update(g[y as int], x as int, player);
            grid::lemma_occupied_update(g, y as int, g[y as int].update(x as int, Some(player)));
            assert(g[y as int][x as int] is None);
        }
        self.board[y][x] = Some(player);
        self.stone_count += 1;
        assert(self.cells() =~= grid::with_stone(old(self).cells(), x as int, y as int, player));
        if self.check_win_at(x, y) {
            Err(GomokuError::GameOverWithWinner(player))
        } else if self.is_full() {
            Err(GomokuError::GameOverWithDraw)
        } else {
            Ok(())
        }
    }

    fn check_win_at(&self, x: usize, y: usize) -> (won: bool) {
        let player = match self.get_at(x, y) {
            Some(p) => p,
            None => { return false; },
        };
        let mut dx: i8 = -1;
        while dx <= 1
            invariant
                -1 <= dx <= 2,
                cell_at(self.cells(), x as int, y as int) == Some(player),
                forall|a: int, b: int|
                    is_direction(a, b) && a < dx ==> !#[trigger] line_of_five(self.cells(), x as int, y as int, a, b),
            decreases 2 - dx,
        {
            let mut dy: i8 = -1;
            while dy <= 1
                invariant
                    -1 <= dx <= 1,
                    -1 <= dy <= 2,
                    cell_at(self.cells(), x as int, y as int) == Some(player),
                    forall|a: int, b: int|
                        is_direction(a, b) && (a < dx || (a == dx && b < dy)) ==> !#[trigger] line_of_five(
                            self.cells(),
                            x as int,
                            y as int,
                            a,
                            b,
                        ),
                decreases 2 - dy,
            {
                if !(dx == 0 && dy == 0) {
                    let stack = self.scan(x, y, dx, dy, player);
                    if stack.len() >= WIN_LENGTH {
                        assert(line_of_five(self.cells(), x as int, y as int, dx as int, dy as int));
                        return true;
                    }
                    assert(!line_of_five(self.cells(), x as int, y as int, dx as int, dy as int)) by {
                        let k = stack@.len() as int;
                        assert(cell_on_line(self.cells(), x as int, y as int, dx as int, dy as int, k) != Some(
                            player,
                        ));
                    }
                }
                dy += 1;
            }
            dx += 1;
        }
        false
    }
}

} // verus!
