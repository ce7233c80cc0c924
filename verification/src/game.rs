use vstd::prelude::*;
use crate::board::{ArrayBasedBoard, GomokuBoard, DEFAULT_BOARD_SIZE};
use crate::error::GomokuError;
use crate::grid::{cell_at, empty_grid, Grid};
use crate::rules::{accepts, grid_after, outcome, well_formed};
use crate::stone::Stone;
use crate::text::{board_text, render_board};

verus! {

/// A match between two players: a board and the player whose move is next.
///
/// Every request for a move passes the turn on, whether the move was made,
/// refused, or ended the game; a game that is over is not closed to further
/// moves, so callers stop at the first `GameOverWithWinner` or
/// `GameOverWithDraw`.
pub struct SimpleGomokuGame {
    board: Box<dyn GomokuBoard>,
    turn: Stone,
}

impl SimpleGomokuGame {
    /// The grid of the game's board.
    pub closed spec fn cells(&self) -> Grid {
        self.board.cells()
    }

    /// The number of stones the game's board has counted.
    pub closed spec fn stones(&self) -> nat {
        self.board.stones()
    }

    /// The player whose move is next.
    pub closed spec fn to_move(&self) -> Stone {
        self.turn
    }

    /// The board is in a state that takes moves.
    pub open spec fn wf(&self) -> bool {
        well_formed(self.cells(), self.stones())
    }

    /// A game on an empty board of the default size, with Black to move.
    pub fn new() -> (game: Self)
        ensures
            game.cells() == empty_grid(DEFAULT_BOARD_SIZE as nat),
            game.stones() == 0,
            game.turn() == Stone::Black,
            game.wf(),
    {
        Self { board: Box::new(ArrayBasedBoard::new()), turn: Stone::Black }
    }

    /// Asks for `(x, y)` on behalf of the player to move, hands the board's
    /// answer on as it is, and passes the turn to the other player whatever
    /// the answer was.
    pub fn put_stone(&mut self, x: usize, y: usize) -> (result: Result<(), GomokuError>)
        requires
            old(self).wf(),
        ensures
            result == outcome(old(self).cells(), x as int, y as int, old(self).turn()),
            final(self).turn() == old(self).turn().opposite(),
            final(self).cells() == grid_after(old(self).cells(), x as int, y as int, old(self).turn()),
            final(self).stones() == old(self).stones() + if accepts(old(self).cells(), x as int, y as int) {
                1nat
            } else {
                0nat
            },
            final(self).wf(),
    {
        let result = self.board.put_stone(x, y, self.turn);
        self.take_turn();
        result
    }

    /// The game's board.
    pub fn board(&self) -> (board: &Box<dyn GomokuBoard>)
        ensures
            board.cells() == self.cells(),
            board.stones() == self.stones(),
    {
        &self.board
    }

    /// The game's board, open to any change; the turn is not touched.
    pub fn board_mut(&mut self) -> (board: &mut Box<dyn GomokuBoard>)
        ensures
            board.cells() == old(self).cells(),
            board.stones() == old(self).stones(),
            final(self).cells() == final(board).cells(),
            final(self).stones() == final(board).stones(),
            final(self).turn() == old(self).turn(),
    {
        &mut self.board
    }

    /// Passes the turn to the other player.
    pub fn take_turn(&mut self)
        ensures
            final(self).turn() == old(self).turn().opposite(),
            final(self).cells() == old(self).cells(),
            final(self).stones() == old(self).stones(),
    {
        self.turn = self.turn.opposite();
    }

    /// The player whose move is next.
    #[verifier::when_used_as_spec(to_move)]
    pub fn turn(&self) -> (turn: Stone)
        ensures
            turn == self.to_move(),
    {
        self.turn
    }

    /// The framed picture of the game's board.
    pub fn to_string(&self) -> (text: String)
        ensures
            text@ == board_text(self.cells()),
    {
        render_board(self.board.board())
    }

    /// Makes `turn` the player whose move is next.
    pub fn set_turn(&mut self, turn: Stone)
        ensures
            final(self).turn() == turn,
            final(self).cells() == old(self).cells(),
            final(self).stones() == old(self).stones(),
    {
        self.turn = turn;
    }
}

impl Default for SimpleGomokuGame {
    /// The same game as `new` gives.
    fn default() -> (game: Self)
        ensures
            game.cells() == empty_grid(DEFAULT_BOARD_SIZE as nat),
            game.stones() == 0,
            game.turn() == Stone::Black,
            game.wf(),
    {
        Self::new()
    }
}

} // verus!
