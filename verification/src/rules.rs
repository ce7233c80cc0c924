use vstd::prelude::*;
use crate::error::GomokuError;
use crate::grid::{
    cell_at, empty_grid, in_range, is_full, is_square, lemma_empty_grid_occupied, lemma_occupied_bound,
    lemma_occupied_update, lemma_row_stones_update, lemma_with_stone_cell, occupied, with_stone, Grid,
};
use crate::stone::Stone;

verus! {

/// How many cells in a row win the game.
pub const WIN_LENGTH: usize = 5;

/// The smallest side a board can have.
pub const MIN_BOARD_SIZE: usize = 5;

/// What has to hold of a board between moves: the grid is square with a side
/// of at least five, its cells can be counted in a `usize`, and `stones` is
/// the number of cells that are not empty.
pub open spec fn well_formed(g: Grid, stones: nat) -> bool {
    &&& g.len() >= MIN_BOARD_SIZE
    &&& is_square(g)
    &&& g.len() * g.len() <= usize::MAX
    &&& stones == occupied(g)
}

/// One of the eight unit steps: along a row, along a column, or along either
/// diagonal, each in both senses.
pub open spec fn is_direction(dx: int, dy: int) -> bool {
    &&& -1 <= dx <= 1
    &&& -1 <= dy <= 1
    &&& !(dx == 0 && dy == 0)
}

/// The cell `i` steps away from `(x, y)` in direction `(dx, dy)`.
pub open spec fn cell_on_line(g: Grid, x: int, y: int, dx: int, dy: int, i: int) -> Option<Stone> {
    cell_at(g, x + i * dx, y + i * dy)
}

/// `(x, y)` holds a stone, and so do the next four cells in direction
/// `(dx, dy)`, all of the same colour. The line is looked for on one side of
/// `(x, y)` only: stones on the opposite side do not count towards it.
pub open spec fn line_of_five(g: Grid, x: int, y: int, dx: int, dy: int) -> bool {
    &&& cell_at(g, x, y) is Some
    &&& forall|i: int| 0 <= i < WIN_LENGTH ==> #[trigger] cell_on_line(g, x, y, dx, dy, i) == cell_at(g, x, y)
}

/// The stone at `(x, y)` starts a line of five in at least one of the eight
/// directions.
pub open spec fn wins_at(g: Grid, x: int, y: int) -> bool {
    exists|dx: int, dy: int| is_direction(dx, dy) && #[trigger] line_of_five(g, x, y, dx, dy)
}

/// A move to `(x, y)` is made, rather than rejected: the cell is on the
/// board and empty.
pub open spec fn accepts(g: Grid, x: int, y: int) -> bool {
    cell_at(g, x, y) is None && in_range(g, x, y)
}

/// The grid after `player` has asked for `(x, y)`: with the stone where the
/// move is made, unchanged where it is rejected.
pub open spec fn grid_after(g: Grid, x: int, y: int, player: Stone) -> Grid {
    if accepts(g, x, y) {
        with_stone(g, x, y, player)
    } else {
        g
    }
}

/// What `player` is told on asking for `(x, y)`. The cell is tested for a
/// stone before the coordinates are tested for their range; a move that is
/// made is then judged on the grid that holds the new stone, a win before a
/// draw.
pub open spec fn outcome(g: Grid, x: int, y: int, player: Stone) -> Result<(), GomokuError> {
    if cell_at(g, x, y) is Some {
        Err(GomokuError::StoneAlreadyPlaced)
    } else if !in_range(g, x, y) {
        Err(GomokuError::IndexOutOfBound)
    } else if wins_at(with_stone(g, x, y, player), x, y) {
        Err(GomokuError::GameOverWithWinner(player))
    } else if is_full(with_stone(g, x, y, player)) {
        Err(GomokuError::GameOverWithDraw)
    } else {
        Ok(())
    }
}

/// The four cells after `(x, y)` in direction `(dx, dy)` all hold a stone of
/// `player`.
pub open spec fn four_ahead(g: Grid, x: int, y: int, dx: int, dy: int, player: Stone) -> bool {
    forall|i: int| 1 <= i < WIN_LENGTH ==> #[trigger] cell_on_line(g, x, y, dx, dy, i) == Some(player)
}

/// One request for a cell, as a value: who asks, and for which cell.
pub struct Move {
    pub x: int,
    pub y: int,
    pub player: Stone,
}

/// The grid after the requests `moves` were answered one after another,
/// starting from `start`.
pub open spec fn replay(start: Grid, moves: Seq<Move>) -> Grid
    decreases moves.len(),
{
    if moves.len() == 0 {
        start
    } else {
        grid_after(replay(start, moves.drop_last()), moves.last().x, moves.last().y, moves.last().player)
    }
}

/// The `k`-th of `moves` puts a stone on the board and forms no line of five.
pub open spec fn placed_quietly(start: Grid, moves: Seq<Move>, k: int) -> bool {
    let before = replay(start, moves.take(k));
    &&& accepts(before, moves[k].x, moves[k].y)
    &&& !wins_at(with_stone(before, moves[k].x, moves[k].y, moves[k].player), moves[k].x, moves[k].y)
}

/// A step in one of the eight directions, taken once or more, leaves the
/// cell it started from.
proof fn lemma_line_leaves_its_start(dx: int, dy: int, i: int)
    requires
        is_direction(dx, dy),
        i >= 1,
    ensures
        i * dx != 0 || i * dy != 0,
{
    if dx != 0 {
        assert(i * dx != 0) by (nonlinear_arith)
            requires
                dx != 0,
                i >= 1,
        ;
    } else {
        assert(i * dy != 0) by (nonlinear_arith)
            requires
                dy != 0,
                i >= 1,
        ;
    }
}

/// A stone placed on an empty cell wins exactly when the four cells after it
/// in one of the eight directions already hold the player's colour. So the
/// fifth stone at the end of a row, a column or a diagonal of four wins, and
/// a stone with fewer than four of its colour after it in every direction
/// does not.
pub proof fn lemma_win_iff_four_ahead(g: Grid, x: int, y: int, player: Stone)
    requires
        is_square(g),
        accepts(g, x, y),
    ensures
        wins_at(with_stone(g, x, y, player), x, y) <==> exists|dx: int, dy: int|
            is_direction(dx, dy) && #[trigger] four_ahead(g, x, y, dx, dy, player),
{
    let next = with_stone(g, x, y, player);
    assert(g[y].len() == g.len());
    lemma_with_stone_cell(g, x, y, player, x, y);
    assert forall|dx: int, dy: int| is_direction(dx, dy) implies (line_of_five(next, x, y, dx, dy) <==> four_ahead(
        g,
        x,
        y,
        dx,
        dy,
        player,
    )) by {
        assert forall|i: int| 1 <= i < WIN_LENGTH implies cell_on_line(next, x, y, dx, dy, i) == cell_on_line(
            g,
            x,
            y,
            dx,
            dy,
            i,
        ) by {
            lemma_line_leaves_its_start(dx, dy, i);
            lemma_with_stone_cell(g, x, y, player, x + i * dx, y + i * dy);
        }
        assert(cell_on_line(next, x, y, dx, dy, 0) == cell_at(next, x, y)) by {
            assert(0 * dx == 0 && 0 * dy == 0);
        }
        if four_ahead(g, x, y, dx, dy, player) {
            assert forall|i: int| 0 <= i < WIN_LENGTH implies #[trigger] cell_on_line(next, x, y, dx, dy, i)
                == cell_at(next, x, y) by {
                if i >= 1 {
                    assert(cell_on_line(g, x, y, dx, dy, i) == Some(player));
                }
            }
        }
        if line_of_five(next, x, y, dx, dy) {
            assert forall|i: int| 1 <= i < WIN_LENGTH implies #[trigger] cell_on_line(g, x, y, dx, dy, i) == Some(
                player,
            ) by {
                assert(cell_on_line(next, x, y, dx, dy, i) == cell_at(next, x, y));
            }
        }
    }
    if wins_at(next, x, y) {
        let (dx, dy) = choose|dx: int, dy: int| is_direction(dx, dy) && #[trigger] line_of_five(next, x, y, dx, dy);
        assert(four_ahead(g, x, y, dx, dy, player));
    }
    if exists|dx: int, dy: int| is_direction(dx, dy) && #[trigger] four_ahead(g, x, y, dx, dy, player) {
        let (dx, dy) = choose|dx: int, dy: int| is_direction(dx, dy) && #[trigger] four_ahead(g, x, y, dx, dy, player);
        assert(line_of_five(next, x, y, dx, dy));
    }
}

/// The fifth stone at the end of four of its colour in a line wins the game
/// for the player who places it.
pub proof fn lemma_fifth_stone_wins(g: Grid, x: int, y: int, dx: int, dy: int, player: Stone)
    requires
        is_square(g),
        accepts(g, x, y),
        is_direction(dx, dy),
        four_ahead(g, x, y, dx, dy, player),
    ensures
        outcome(g, x, y, player) == Err::<(), GomokuError>(GomokuError::GameOverWithWinner(player)),
{
    lemma_win_iff_four_ahead(g, x, y, player);
}

/// No move wins without four stones of the player's colour after it in some
/// direction; and a win is never reported for the other player.
pub proof fn lemma_win_needs_four_ahead(g: Grid, x: int, y: int, player: Stone)
    requires
        is_square(g),
        outcome(g, x, y, player) matches Err(GomokuError::GameOverWithWinner(_)),
    ensures
        outcome(g, x, y, player) == Err::<(), GomokuError>(GomokuError::GameOverWithWinner(player)),
        exists|dx: int, dy: int| is_direction(dx, dy) && #[trigger] four_ahead(g, x, y, dx, dy, player),
{
    lemma_win_iff_four_ahead(g, x, y, player);
}

/// A move that is made adds one stone to a square grid and keeps it square.
pub proof fn lemma_accepted_move_counts(g: Grid, x: int, y: int, player: Stone)
    requires
        is_square(g),
        accepts(g, x, y),
    ensures
        occupied(grid_after(g, x, y, player)) == occupied(g) + 1,
        is_square(grid_after(g, x, y, player)),
        grid_after(g, x, y, player).len() == g.len(),
{
    assert(g[y].len() == g.len());
    lemma_with_stone_cell(g, x, y, player, x, y);
    lemma_row_stones_update(g[y], x, player);
    lemma_occupied_update(g, y, g[y].update(x, Some(player)));
}

/// On a board in order, the stone that brings the count to the number of
/// cells fills the board: unless it wins, the game is drawn.
pub proof fn lemma_last_cell_draws(g: Grid, stones: nat, x: int, y: int, player: Stone)
    requires
        well_formed(g, stones),
        accepts(g, x, y),
        stones + 1 == g.len() * g.len(),
        !wins_at(with_stone(g, x, y, player), x, y),
    ensures
        is_full(grid_after(g, x, y, player)),
        outcome(g, x, y, player) == Err::<(), GomokuError>(GomokuError::GameOverWithDraw),
{
    lemma_accepted_move_counts(g, x, y, player);
    lemma_occupied_bound(grid_after(g, x, y, player), g.len());
}

/// As long as every request so far put a stone on the board, the board holds
/// as many stones as there were requests.
pub proof fn lemma_replay_counts(n: nat, moves: Seq<Move>)
    requires
        forall|k: int| 0 <= k < moves.len() ==> accepts(#[trigger] replay(empty_grid(n), moves.take(k)), moves[k].x, moves[k].y),
    ensures
        occupied(replay(empty_grid(n), moves)) == moves.len(),
        is_square(replay(empty_grid(n), moves)),
        replay(empty_grid(n), moves).len() == n,
    decreases moves.len(),
{
    lemma_empty_grid_occupied(n);
    if moves.len() > 0 {
        let front = moves.drop_last();
        assert forall|k: int| 0 <= k < front.len() implies accepts(
            #[trigger] replay(empty_grid(n), front.take(k)),
            front[k].x,
            front[k].y,
        ) by {
            assert(front.take(k) =~= moves.take(k));
            assert(accepts(replay(empty_grid(n), moves.take(k)), moves[k].x, moves[k].y));
        }
        lemma_replay_counts(n, front);
        let last = moves.len() - 1;
        assert(moves.take(last) =~= front);
        assert(accepts(replay(empty_grid(n), moves.take(last)), moves[last].x, moves[last].y));
        lemma_accepted_move_counts(replay(empty_grid(n), front), moves.last().x, moves.last().y, moves.last().player);
    }
}

/// On a board of side `n`, `n * n` requests that each put a stone on the
/// board without forming a line of five fill the board: every request but
/// the last is answered with `Ok`, and the last with `GameOverWithDraw`.
pub proof fn lemma_filling_the_board_draws(n: nat, moves: Seq<Move>)
    requires
        n >= MIN_BOARD_SIZE,
        moves.len() == n * n,
        forall|k: int| 0 <= k < moves.len() ==> #[trigger] placed_quietly(empty_grid(n), moves, k),
    ensures
        is_full(replay(empty_grid(n), moves)),
        outcome(
            replay(empty_grid(n), moves.drop_last()),
            moves.last().x,
            moves.last().y,
            moves.last().player,
        ) == Err::<(), GomokuError>(GomokuError::GameOverWithDraw),
        forall|k: int|
            0 <= k < moves.len() - 1 ==> #[trigger] outcome(
                replay(empty_grid(n), moves.take(k)),
                moves[k].x,
                moves[k].y,
                moves[k].player,
            ) is Ok,
{
    let start = empty_grid(n);
    assert(n * n >= 1) by (nonlinear_arith)
        requires
            n >= 5,
    ;
    assert forall|k: int| 0 <= k < moves.len() implies accepts(
        #[trigger] replay(start, moves.take(k)),
        moves[k].x,
        moves[k].y,
    ) by {
        assert(placed_quietly(start, moves, k));
    }
    lemma_replay_counts(n, moves);
    lemma_occupied_bound(replay(start, moves), n);
    let last = moves.len() - 1;
    assert(moves.take(last) =~= moves.drop_last());
    assert(placed_quietly(start, moves, last));
    assert forall|k: int| 0 <= k < moves.len() - 1 implies #[trigger] outcome(
        replay(start, moves.take(k)),
        moves[k].x,
        moves[k].y,
        moves[k].player,
    ) is Ok by {
        assert(placed_quietly(start, moves, k));
        let prefix = moves.take(k + 1);
        assert forall|j: int| 0 <= j < prefix.len() implies accepts(
            #[trigger] replay(start, prefix.take(j)),
            prefix[j].x,
            prefix[j].y,
        ) by {
            assert(prefix.take(j) =~= moves.take(j));
            assert(placed_quietly(start, moves, j));
        }
        lemma_replay_counts(n, prefix);
        assert(prefix.drop_last() =~= moves.take(k));
        let after = replay(start, prefix);
        lemma_occupied_bound(after, n);
        assert(after == with_stone(replay(start, moves.take(k)), moves[k].x, moves[k].y, moves[k].player));
    }
}

} // verus!
