use vstd::prelude::*;
use crate::stone::Stone;

verus! {

/// The mathematical model of a board: a sequence of rows, each a sequence of
/// cells. `g[y][x]` is the cell in column `x` of row `y`.
pub type Grid = Seq<Seq<Option<Stone>>>;

/// The occupant of column `x` in row `y`, and `None` for an empty cell as
/// well as for coordinates that name no cell.
pub open spec fn cell_at(g: Grid, x: int, y: int) -> Option<Stone> {
    if 0 <= y < g.len() && 0 <= x < g[y].len() {
        g[y][x]
    } else {
        None
    }
}

/// Both coordinates lie in `[0, N)`, where `N` is the number of rows.
pub open spec fn in_range(g: Grid, x: int, y: int) -> bool {
    0 <= x < g.len() && 0 <= y < g.len()
}

/// Every row is as long as the grid has rows.
pub open spec fn is_square(g: Grid) -> bool {
    forall|y: int| 0 <= y < g.len() ==> (#[trigger] g[y]).len() == g.len()
}

/// The square grid of side `n` without any stone.
pub open spec fn empty_grid(n: nat) -> Grid {
    Seq::new(n, |y: int| Seq::new(n, |x: int| None::<Stone>))
}

/// The grid `g` with `stone` written to column `x` of row `y`.
pub open spec fn with_stone(g: Grid, x: int, y: int, stone: Stone) -> Grid {
    g.update(y, g[y].update(x, Some(stone)))
}

/// No cell is empty.
pub open spec fn is_full(g: Grid) -> bool {
    forall|x: int, y: int| 0 <= y < g.len() && 0 <= x < g[y].len() ==> (#[trigger] g[y][x]) is Some
}

/// Writing a stone changes the cell it is written to and no other.
pub proof fn lemma_with_stone_cell(g: Grid, x: int, y: int, stone: Stone, px: int, py: int)
    requires
        0 <= y < g.len(),
        0 <= x < g[y].len(),
    ensures
        cell_at(with_stone(g, x, y, stone), px, py) == if px == x && py == y {
            Some(stone)
        } else {
            cell_at(g, px, py)
        },
        with_stone(g, x, y, stone).len() == g.len(),
        is_square(g) ==> is_square(with_stone(g, x, y, stone)),
{
    let next = with_stone(g, x, y, stone);
    if is_square(g) {
        assert forall|j: int| 0 <= j < next.len() implies (#[trigger] next[j]).len() == next.len() by {
            assert(g[j].len() == g.len());
        }
    }
}

/// The number of stones in one row.
pub open spec fn row_stones(row: Seq<Option<Stone>>) -> nat
    decreases row.len(),
{
    if row.len() == 0 {
        0
    } else {
        row_stones(row.drop_last()) + if row.last() is Some { 1nat } else { 0nat }
    }
}

/// The number of stones on the grid.
pub open spec fn occupied(g: Grid) -> nat
    decreases g.len(),
{
    if g.len() == 0 {
        0
    } else {
        occupied(g.drop_last()) + row_stones(g.last())
    }
}

/// A row holds at most one stone per cell, and exactly that many only when
/// no cell is empty.
pub proof fn lemma_row_stones_bound(row: Seq<Option<Stone>>)
    ensures
        row_stones(row) <= row.len(),
        row_stones(row) == row.len() <==> (forall|x: int| 0 <= x < row.len() ==> (#[trigger] row[x]) is Some),
    decreases row.len(),
{
    if row.len() > 0 {
        let front = row.drop_last();
        lemma_row_stones_bound(front);
        assert(forall|x: int| 0 <= x < front.len() ==> front[x] == row[x]);
        if row_stones(row) == row.len() {
            assert(row.last() is Some);
            assert forall|x: int| 0 <= x < row.len() implies (#[trigger] row[x]) is Some by {
                if x < front.len() {
                    assert(front[x] is Some);
                }
            }
        }
        if forall|x: int| 0 <= x < row.len() ==> (#[trigger] row[x]) is Some {
            assert(row[row.len() - 1] is Some);
            assert forall|x: int| 0 <= x < front.len() implies (#[trigger] front[x]) is Some by {
                assert(row[x] is Some);
            }
        }
    }
}

/// Writing a stone to a cell of a row adds one to its count if the cell was
/// empty, and leaves the count as it was otherwise.
pub proof fn lemma_row_stones_update(row: Seq<Option<Stone>>, x: int, stone: Stone)
    requires
        0 <= x < row.len(),
    ensures
        row_stones(row.update(x, Some(stone))) == row_stones(row) + if row[x] is None { 1nat } else { 0nat },
    decreases row.len(),
{
    let next = row.update(x, Some(stone));
    if x == row.len() - 1 {
        assert(next.drop_last() =~= row.drop_last());
    } else {
        lemma_row_stones_update(row.drop_last(), x, stone);
        assert(next.drop_last() =~= row.drop_last().update(x, Some(stone)));
    }
}

/// Replacing one row changes the number of stones by the difference between
/// the new row and the old.
pub proof fn lemma_occupied_update(g: Grid, y: int, row: Seq<Option<Stone>>)
    requires
        0 <= y < g.len(),
    ensures
        occupied(g.update(y, row)) + row_stones(g[y]) == occupied(g) + row_stones(row),
    decreases g.len(),
{
    let next = g.update(y, row);
    if y == g.len() - 1 {
        assert(next.drop_last() =~= g.drop_last());
    } else {
        lemma_occupied_update(g.drop_last(), y, row);
        assert(next.drop_last() =~= g.drop_last().update(y, row));
    }
}

/// A grid whose rows all have `width` cells holds at most `width` stones per
/// row, and exactly that many only when it is full.
pub proof fn lemma_occupied_bound(g: Grid, width: nat)
    requires
        forall|y: int| 0 <= y < g.len() ==> (#[trigger] g[y]).len() == width,
    ensures
        occupied(g) <= g.len() * width,
        occupied(g) == g.len() * width <==> is_full(g),
    decreases g.len(),
{
    if g.len() == 0 {
        assert(g.len() * width == 0) by (nonlinear_arith)
            requires
                g.len() == 0,
        ;
    } else {
        let front = g.drop_last();
        lemma_occupied_bound(front, width);
        lemma_row_stones_bound(g.last());
        assert(g.len() * width == front.len() * width + width) by (nonlinear_arith)
            requires
                g.len() == front.len() + 1,
        ;
        assert(forall|y: int| 0 <= y < front.len() ==> front[y] == g[y]);
        if is_full(g) {
            assert forall|x: int| 0 <= x < g.last().len() implies (#[trigger] g.last()[x]) is Some by {
                assert(g[g.len() - 1][x] is Some);
            }
            assert forall|x: int, y: int| 0 <= y < front.len() && 0 <= x < front[y].len() implies (
            #[trigger] front[y][x]) is Some by {
                assert(g[y][x] is Some);
            }
        }
        if occupied(g) == g.len() * width {
            assert(is_full(front));
            assert forall|x: int, y: int| 0 <= y < g.len() && 0 <= x < g[y].len() implies (
            #[trigger] g[y][x]) is Some by {
                if y < front.len() {
                    assert(front[y][x] is Some);
                } else {
                    assert(g.last()[x] is Some);
                }
            }
        }
    }
}

/// An empty grid holds no stone.
pub proof fn lemma_empty_grid_occupied(n: nat)
    ensures
        occupied(empty_grid(n)) == 0,
        is_square(empty_grid(n)),
{
    lemma_rows_without_stones(empty_grid(n));
}

/// A grid without stones has none to count.
pub proof fn lemma_rows_without_stones(g: Grid)
    requires
        forall|x: int, y: int| 0 <= y < g.len() && 0 <= x < g[y].len() ==> (#[trigger] g[y][x]) is None,
    ensures
        occupied(g) == 0,
    decreases g.len(),
{
    if g.len() > 0 {
        let front = g.drop_last();
        assert forall|x: int, y: int| 0 <= y < front.len() && 0 <= x < front[y].len() implies (
        #[trigger] front[y][x]) is None by {
            assert(g[y][x] is None);
        }
        lemma_rows_without_stones(front);
        lemma_row_without_stones(g.last());
    }
}

/// A row of empty cells has no stone to count.
pub proof fn lemma_row_without_stones(row: Seq<Option<Stone>>)
    requires
        forall|x: int| 0 <= x < row.len() ==> (#[trigger] row[x]) is None,
    ensures
        row_stones(row) == 0,
    decreases row.len(),
{
    if row.len() > 0 {
        lemma_row_without_stones(row.drop_last());
    }
}

} // verus!
