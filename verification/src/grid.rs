//! The mathematical model of a board: a sequence of columns of tiles, so that `g[x][y]` is
//! the tile in column `x` and row `y`.

use crate::count::{count_cells, lemma_cells_agree, lemma_cells_differ, lemma_cells_none, one_if};
use crate::tile::{Feature, Tile, TileContent, TileMode};
use vstd::prelude::*;

verus! {

/// A board as a sequence of columns.
pub type Grid = Seq<Seq<Tile>>;

/// A cell of a grid, as column and row.
pub type Cell = (int, int);

/// The number of columns.
pub open spec fn width(g: Grid) -> int {
    g.len() as int
}

/// The number of rows; an empty grid has none.
pub open spec fn height(g: Grid) -> int {
    if g.len() > 0 {
        g[0].len() as int
    } else {
        0
    }
}

/// Every column has the same number of rows.
pub open spec fn rectangular(g: Grid) -> bool {
    forall|x: int| 0 <= x < g.len() ==> (#[trigger] g[x]).len() == height(g)
}

/// The cell lies on the grid.
pub open spec fn inside(g: Grid, c: Cell) -> bool {
    0 <= c.0 < width(g) && 0 <= c.1 < height(g)
}

/// Two grids of the same width and height.
pub open spec fn same_shape(g1: Grid, g2: Grid) -> bool {
    &&& width(g1) == width(g2)
    &&& height(g1) == height(g2)
}

/// The tile at `c`.
pub open spec fn at(g: Grid, c: Cell) -> Tile {
    g[c.0][c.1]
}

/// The grid with the tile at `c` replaced.
pub open spec fn put(g: Grid, c: Cell, t: Tile) -> Grid {
    g.update(c.0, g[c.0].update(c.1, t))
}

/// The cell that a pair of indices names.
pub open spec fn cell(p: (usize, usize)) -> Cell {
    (p.0 as int, p.1 as int)
}

/// The cells that a list of index pairs names.
pub open spec fn cells(v: Seq<(usize, usize)>) -> Seq<Cell> {
    Seq::new(v.len(), |i: int| cell(v[i]))
}

/// A grid of `w` columns and `h` rows of blank tiles.
pub open spec fn blank_grid(w: int, h: int) -> Grid {
    Seq::new(w as nat, |x: int| Seq::new(h as nat, |y: int| Tile::blank()))
}

/// Two different cells that touch, sideways or diagonally.
pub open spec fn adjacent(a: Cell, b: Cell) -> bool {
    &&& a != b
    &&& -1 <= a.0 - b.0 <= 1
    &&& -1 <= a.1 - b.1 <= 1
}

/// The block of three by three cells around `c`, column by column, `c` itself included.
pub open spec fn block(c: Cell) -> Seq<Cell> {
    Seq::new(9, |k: int| (c.0 + k / 3 - 1, c.1 + k % 3 - 1))
}

/// A cell of a `w` by `h` grid other than `c`.
pub open spec fn is_neighbour(w: int, h: int, c: Cell) -> spec_fn(Cell) -> bool {
    |d: Cell| d != c && 0 <= d.0 < w && 0 <= d.1 < h
}

/// The cells next to `c` that lie on the grid, in the order of `block`. A cell on an edge
/// or in a corner has fewer than eight.
pub open spec fn neighbours(g: Grid, c: Cell) -> Seq<Cell> {
    block(c).filter(is_neighbour(width(g), height(g), c))
}

/// The cells whose tile has the feature `f`.
pub open spec fn shows(g: Grid, f: Feature) -> spec_fn(Cell) -> bool {
    |d: Cell| at(g, d).has(f)
}

/// The number of neighbours of `c` whose tile has the feature `f`.
pub open spec fn count_around(g: Grid, c: Cell, f: Feature) -> nat {
    neighbours(g, c).filter(shows(g, f)).len()
}

/// The cells whose tile has the feature `f`, by column and row.
pub open spec fn shows_at(g: Grid, f: Feature) -> spec_fn(int, int) -> bool {
    |x: int, y: int| g[x][y].has(f)
}

/// The number of tiles on the grid that have the feature `f`.
pub open spec fn census(g: Grid, f: Feature) -> nat {
    count_cells(width(g), height(g), shows_at(g, f))
}

/// Some tile on the grid has the feature `f`.
pub open spec fn any(g: Grid, f: Feature) -> bool {
    exists|c: Cell| inside(g, c) && #[trigger] at(g, c).has(f)
}

/// Every safe tile carries the number of mines among its neighbours.
pub open spec fn numbered(g: Grid) -> bool {
    forall|c: Cell|
        inside(g, c) ==> match (#[trigger] at(g, c)).content {
            TileContent::Field(n) => n == count_around(g, c, Feature::Mined),
            _ => true,
        }
}

/// The grid after the player has toggled the flag at `c`.
pub open spec fn toggled(g: Grid, c: Cell) -> Grid {
    put(g, c, at(g, c).toggled())
}

/// The grid as it is shown at the end of a round: each tile swept on its own.
pub open spec fn swept(g: Grid) -> Grid {
    Seq::new(g.len(), |x: int| Seq::new(g[x].len(), |y: int| g[x][y].swept()))
}

/// The grids agree in every content; only modes may differ.
pub open spec fn same_contents(g1: Grid, g2: Grid) -> bool {
    &&& same_shape(g1, g2)
    &&& forall|c: Cell| inside(g1, c) ==> (#[trigger] at(g1, c)).content == at(g2, c).content
}

/// Replacing a tile keeps the shape of the grid and changes no other tile.
pub proof fn lemma_put(g: Grid, c: Cell, t: Tile)
    requires
        rectangular(g),
        inside(g, c),
    ensures
        rectangular(put(g, c, t)),
        same_shape(g, put(g, c, t)),
        at(put(g, c, t), c) == t,
        forall|d: Cell| inside(g, d) && d != c ==> #[trigger] at(put(g, c, t), d) == at(g, d),
{
    let g2 = put(g, c, t);
    assert forall|x: int| 0 <= x < g2.len() implies (#[trigger] g2[x]).len() == height(g2) by {
        assert(g[x].len() == height(g));
    }
}

/// The neighbours of a cell are the cells of the grid that touch it.
pub proof fn lemma_neighbours(g: Grid, c: Cell)
    ensures
        neighbours(g, c).len() <= 8,
        forall|i: int|
            0 <= i < neighbours(g, c).len() ==> inside(g, #[trigger] neighbours(g, c)[i])
                && adjacent(c, neighbours(g, c)[i]),
        forall|d: Cell| inside(g, d) && adjacent(c, d) ==> #[trigger] neighbours(g, c).contains(d),
{
    let b = block(c);
    let p = is_neighbour(width(g), height(g), c);
    let n = neighbours(g, c);
    assert forall|i: int| 0 <= i < n.len() implies inside(g, #[trigger] n[i]) && adjacent(
        c,
        n[i],
    ) by {
        b.lemma_filter_pred(p, i);
        assert(n.contains(n[i]));
        b.lemma_filter_contains_rev(p, n[i]);
        let k = choose|k: int| 0 <= k < b.len() && b[k] == n[i];
        assert(b[k] == (c.0 + k / 3 - 1, c.1 + k % 3 - 1));
    }
    assert forall|d: Cell| inside(g, d) && adjacent(c, d) implies #[trigger] n.contains(d) by {
        let k = (d.0 - c.0 + 1) * 3 + (d.1 - c.1 + 1);
        assert(0 <= k < 9);
        assert(b[k] == d);
        b.lemma_filter_contains(p, k);
    }
    // The centre of the block is no neighbour, so at most eight of its nine cells are.
    assert(n.len() <= 8) by {
        let front = b.take(4);
        let back = b.skip(5);
        assert(b =~= front.push(b[4]) + back);
        Seq::filter_distributes_over_add(front.push(b[4]), back, p);
        front.lemma_filter_push(b[4], p);
        front.lemma_filter_len(p);
        back.lemma_filter_len(p);
        assert(b[4] == c);
    }
}

/// Grids of the same shape that hold the same tile in every cell are the same grid.
pub proof fn lemma_grids_equal(g1: Grid, g2: Grid)
    requires
        rectangular(g1),
        rectangular(g2),
        same_shape(g1, g2),
        forall|c: Cell| inside(g1, c) ==> #[trigger] at(g1, c) == at(g2, c),
    ensures
        g1 == g2,
{
    assert forall|x: int| 0 <= x < g1.len() implies g1[x] =~= g2[x] by {
        assert(g1[x].len() == height(g1));
        assert(g2[x].len() == height(g2));
        assert forall|y: int| 0 <= y < g1[x].len() implies g1[x][y] == g2[x][y] by {
            assert(at(g1, (x, y)) == at(g2, (x, y)));
        }
    }
    assert(g1 =~= g2);
}

/// Replacing one tile changes a census by what the old and the new tile add to it.
pub proof fn lemma_census_put(g: Grid, c: Cell, t: Tile, f: Feature)
    requires
        rectangular(g),
        inside(g, c),
    ensures
        census(put(g, c, t), f) + one_if(at(g, c).has(f)) == census(g, f) + one_if(t.has(f)),
{
    let g2 = put(g, c, t);
    lemma_put(g, c, t);
    let p = shows_at(g2, f);
    let q = shows_at(g, f);
    assert forall|x: int, y: int|
        0 <= x < width(g) && 0 <= y < height(g) && (x != c.0 || y != c.1) implies #[trigger] p(
        x,
        y,
    ) == q(x, y) by {
        assert(at(g2, (x, y)) == at(g, (x, y)));
    }
    assert(p(c.0, c.1) == at(g2, c).has(f));
    lemma_cells_differ(width(g), height(g), p, q, c.0, c.1);
}

/// Grids whose tiles agree on a feature have the same census of it.
pub proof fn lemma_census_agree(g1: Grid, g2: Grid, f: Feature)
    requires
        same_shape(g1, g2),
        forall|c: Cell| inside(g1, c) ==> #[trigger] at(g1, c).has(f) == at(g2, c).has(f),
    ensures
        census(g1, f) == census(g2, f),
{
    let p = shows_at(g1, f);
    let q = shows_at(g2, f);
    assert forall|x: int, y: int| 0 <= x < width(g1) && 0 <= y < height(g1) implies #[trigger] p(
        x,
        y,
    ) == q(x, y) by {
        assert(at(g1, (x, y)).has(f) == at(g2, (x, y)).has(f));
    }
    lemma_cells_agree(width(g1), height(g1), p, q);
}

/// The census of a feature is zero exactly when no tile has it.
pub proof fn lemma_census_none(g: Grid, f: Feature)
    ensures
        census(g, f) == 0 <==> !any(g, f),
{
    let p = shows_at(g, f);
    lemma_cells_none(width(g), height(g), p);
    if census(g, f) == 0 {
        assert forall|c: Cell| inside(g, c) implies !#[trigger] at(g, c).has(f) by {
            assert(!p(c.0, c.1));
        }
    } else {
        let (x, y) = choose|x: int, y: int|
            0 <= x < width(g) && 0 <= y < height(g) && #[trigger] p(x, y);
        assert(inside(g, (x, y)) && at(g, (x, y)).has(f));
    }
}

/// Sweeping keeps the shape of the grid and turns each tile on its own.
pub proof fn lemma_swept(g: Grid)
    requires
        rectangular(g),
    ensures
        rectangular(swept(g)),
        same_shape(g, swept(g)),
        forall|c: Cell| inside(g, c) ==> #[trigger] at(swept(g), c) == at(g, c).swept(),
{
    let s = swept(g);
    assert forall|x: int| 0 <= x < s.len() implies (#[trigger] s[x]).len() == height(s) by {
        assert(g[x].len() == height(g));
    }
    assert forall|c: Cell| inside(g, c) implies #[trigger] at(s, c) == at(g, c).swept() by {
        assert(g[c.0].len() == height(g));
    }
}

/// Sweeping neither sets a flag nor takes one off.
pub proof fn lemma_swept_flags(g: Grid)
    requires
        rectangular(g),
    ensures
        census(swept(g), Feature::Flagged) == census(g, Feature::Flagged),
{
    lemma_swept(g);
    lemma_census_agree(g, swept(g), Feature::Flagged);
}

/// Toggling the flag of a covered tile adds a flag to the board, toggling that of a
/// flagged tile takes one off, and toggling that of an uncovered tile changes nothing.
pub proof fn lemma_toggled_flags(g: Grid, c: Cell)
    requires
        rectangular(g),
        inside(g, c),
    ensures
        rectangular(toggled(g, c)),
        same_contents(g, toggled(g, c)),
        census(toggled(g, c), Feature::Flagged) == census(g, Feature::Flagged) + match at(
            g,
            c,
        ).mode {
            TileMode::Hidden => 1int,
            TileMode::Flagged => -1int,
            TileMode::Revealed => 0int,
        },
        at(g, c).mode is Revealed ==> toggled(g, c) == g,
{
    lemma_put(g, c, at(g, c).toggled());
    lemma_census_put(g, c, at(g, c).toggled(), Feature::Flagged);
    if at(g, c).mode is Revealed {
        lemma_grids_equal(toggled(g, c), g);
    }
}

} // verus!
