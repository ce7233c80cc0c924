use vstd::prelude::*;
use crate::stone::Stone;

verus! {

/// Every way a move can end other than "the game goes on".
///
/// The first three are rejections: the board is unchanged and the caller may
/// try again. The last two report that the move was made and ended the game.
#[derive(Debug, Clone, Copy, PartialEq, Eq, Structural)]
pub enum GomokuError {
    /// The cell already holds a stone.
    StoneAlreadyPlaced,
    /// The input could not be read as a move. The engine never reports this
    /// itself; it is there for front ends.
    InvalidMove,
    /// The coordinates lie outside the board.
    IndexOutOfBound,
    /// The move completed a line of five for this player.
    GameOverWithWinner(Stone),
    /// The move filled the last empty cell and nobody has won.
    GameOverWithDraw,
}

} // verus!
