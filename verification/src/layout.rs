//! Where mines may go, and the numbers that follow from where they lie.

use crate::count::{
    count_before, count_cells, lemma_before_grows, lemma_cells_agree, lemma_cells_differ,
    lemma_cells_split, one_if,
};
use crate::flood::{
    begins, covered, lemma_reaches_cases, lemma_reaches_covered, lemma_reaches_start,
    lemma_revealed_contents, lemma_spread_shape, reaches, revealed,
};
use crate::grid::{
    adjacent, any, at, census, count_around, height, inside, lemma_census_agree, lemma_census_none,
    lemma_neighbours, lemma_put, lemma_toggled_flags, neighbours, numbered, put, rectangular,
    same_contents, same_shape, shows, shows_at, toggled, width, Cell, Grid,
};
use crate::tile::{Feature, Tile, TileContent, TileMode};
use vstd::prelude::*;

verus! {

/// The cells that can take a mine: those that hold none and are not `ignore`.
pub open spec fn vacant(g: Grid, ignore: Cell) -> spec_fn(int, int) -> bool {
    |x: int, y: int| !g[x][y].has(Feature::Mined) && (x, y) != ignore
}

/// The number of cells of the grid that can take a mine.
pub open spec fn vacancies(g: Grid, ignore: Cell) -> nat {
    count_cells(width(g), height(g), vacant(g, ignore))
}

/// The cell `c` can take a mine, and `k` such cells come before it in scan order.
pub open spec fn is_vacancy(g: Grid, ignore: Cell, k: nat, c: Cell) -> bool {
    &&& inside(g, c)
    &&& vacant(g, ignore)(c.0, c.1)
    &&& count_before(c.0, c.1, height(g), vacant(g, ignore)) == k
}

/// The cell that can take a mine and has `k` such cells before it in scan order. There is
/// one if `k` is less than the number of cells that can take a mine, and never another.
pub open spec fn vacancy(g: Grid, ignore: Cell, k: nat) -> Cell {
    choose|c: Cell| is_vacancy(g, ignore, k, c)
}

/// The grid with a mine put under the cell that has `k` cells that can take one before it.
pub open spec fn mine_added(g: Grid, ignore: Cell, k: nat) -> Grid {
    put(g, vacancy(g, ignore, k), at(g, vacancy(g, ignore, k)).mined())
}

/// The grid with every safe tile numbered by the mines among its neighbours.
pub open spec fn counted(g: Grid) -> Grid {
    Seq::new(
        g.len(),
        |x: int|
            Seq::new(
                g[x].len(),
                |y: int|
                    match g[x][y].content {
                        TileContent::Field(_) => g[x][y].numbered(
                            count_around(g, (x, y), Feature::Mined) as u8,
                        ),
                        _ => g[x][y],
                    },
            ),
    )
}

/// There is one `k`-th cell that can take a mine, and no other.
pub proof fn lemma_vacancy_unique(g: Grid, ignore: Cell, k: nat, c1: Cell, c2: Cell)
    requires
        is_vacancy(g, ignore, k, c1),
        is_vacancy(g, ignore, k, c2),
    ensures
        c1 == c2,
{
    let p = vacant(g, ignore);
    let h = height(g);
    if c1.0 < c2.0 || (c1.0 == c2.0 && c1.1 < c2.1) {
        lemma_before_grows(c1.0, c1.1, c2.0, c2.1, h, p);
    } else if c2.0 < c1.0 || (c2.0 == c1.0 && c2.1 < c1.1) {
        lemma_before_grows(c2.0, c2.1, c1.0, c1.1, h, p);
    }
}

/// The cells that can take a mine are all cells but the mines and the one left out.
pub proof fn lemma_vacancies(g: Grid, ignore: Cell)
    requires
        rectangular(g),
    ensures
        vacancies(g, ignore) + census(g, Feature::Mined) + one_if(
            inside(g, ignore) && !at(g, ignore).has(Feature::Mined),
        ) == width(g) * height(g),
{
    let w = width(g);
    let h = height(g);
    let mined = shows_at(g, Feature::Mined);
    let safe = |x: int, y: int| !g[x][y].has(Feature::Mined);
    let free = vacant(g, ignore);
    assert forall|x: int, y: int| 0 <= x < w && 0 <= y < h implies #[trigger] safe(x, y) == !mined(
        x,
        y,
    ) by {}
    lemma_cells_split(w, h, safe, mined);
    if inside(g, ignore) {
        assert forall|x: int, y: int|
            0 <= x < w && 0 <= y < h && (x != ignore.0 || y != ignore.1) implies #[trigger] safe(
            x,
            y,
        ) == free(x, y) by {}
        lemma_cells_differ(w, h, safe, free, ignore.0, ignore.1);
    } else {
        assert forall|x: int, y: int| 0 <= x < w && 0 <= y < h implies #[trigger] safe(x, y)
            == free(x, y) by {}
        lemma_cells_agree(w, h, safe, free);
    }
}

/// A mine put under a cell that can take one leaves one such cell fewer.
pub proof fn lemma_mine_placed(g: Grid, ignore: Cell, c: Cell)
    requires
        rectangular(g),
        inside(g, c),
        vacant(g, ignore)(c.0, c.1),
    ensures
        vacancies(put(g, c, at(g, c).mined()), ignore) + 1 == vacancies(g, ignore),
{
    let g2 = put(g, c, at(g, c).mined());
    lemma_put(g, c, at(g, c).mined());
    let p = vacant(g, ignore);
    let q = vacant(g2, ignore);
    assert forall|x: int, y: int|
        0 <= x < width(g) && 0 <= y < height(g) && (x != c.0 || y != c.1) implies #[trigger] p(
        x,
        y,
    ) == q(x, y) by {
        assert(at(g2, (x, y)) == at(g, (x, y)));
    }
    assert(!q(c.0, c.1)) by {
        assert(at(g2, c) == at(g, c).mined());
    }
    lemma_cells_differ(width(g), height(g), p, q, c.0, c.1);
}

/// Predicates that agree on the items of a sequence keep the same items.
pub proof fn lemma_filter_agree<A>(s: Seq<A>, p: spec_fn(A) -> bool, q: spec_fn(A) -> bool)
    requires
        forall|i: int| 0 <= i < s.len() ==> p(#[trigger] s[i]) == q(s[i]),
    ensures
        s.filter(p) == s.filter(q),
    decreases s.len(),
{
    reveal(Seq::filter);
    if s.len() > 0 {
        let front = s.drop_last();
        assert forall|i: int| 0 <= i < front.len() implies p(#[trigger] front[i]) == q(
            front[i],
        ) by {
            assert(front[i] == s[i]);
        }
        lemma_filter_agree(front, p, q);
        assert(p(s[s.len() - 1]) == q(s[s.len() - 1]));
    }
}

/// Grids whose tiles agree on a feature have the same number of it around every cell.
pub proof fn lemma_count_around_agree(g1: Grid, g2: Grid, c: Cell, f: Feature)
    requires
        same_shape(g1, g2),
        forall|d: Cell| inside(g1, d) ==> #[trigger] at(g1, d).has(f) == at(g2, d).has(f),
    ensures
        count_around(g1, c, f) == count_around(g2, c, f),
{
    let nbs = neighbours(g1, c);
    lemma_neighbours(g1, c);
    assert forall|i: int| 0 <= i < nbs.len() implies shows(g1, f)(#[trigger] nbs[i]) == shows(
        g2,
        f,
    )(nbs[i]) by {
        assert(inside(g1, nbs[i]));
        assert(at(g1, nbs[i]).has(f) == at(g2, nbs[i]).has(f));
    }
    lemma_filter_agree(nbs, shows(g1, f), shows(g2, f));
}

/// Numbering changes no mine and no mode, and leaves every safe tile with the number of
/// mines among its neighbours.
pub proof fn lemma_counted(g: Grid)
    requires
        rectangular(g),
    ensures
        rectangular(counted(g)),
        same_shape(g, counted(g)),
        numbered(counted(g)),
        forall|c: Cell|
            inside(g, c) ==> (#[trigger] at(counted(g), c)).mode == at(g, c).mode && at(
                counted(g),
                c,
            ).has(Feature::Mined) == at(g, c).has(Feature::Mined) && at(counted(g), c).has(
                Feature::Mistaken,
            ) == at(g, c).has(Feature::Mistaken),
{
    let n = counted(g);
    assert forall|x: int| 0 <= x < n.len() implies (#[trigger] n[x]).len() == height(n) by {
        assert(g[x].len() == height(g));
    }
    assert forall|c: Cell| inside(g, c) implies at(n, c) == match at(g, c).content {
        TileContent::Field(_) => at(g, c).numbered(count_around(g, c, Feature::Mined) as u8),
        _ => at(g, c),
    } by {
        assert(g[c.0].len() == height(g));
    }
    assert forall|c: Cell| inside(n, c) implies match (#[trigger] at(n, c)).content {
        TileContent::Field(k) => k == count_around(n, c, Feature::Mined),
        _ => true,
    } by {
        assert(inside(g, c));
        assert forall|d: Cell| inside(g, d) implies #[trigger] at(g, d).has(Feature::Mined)
            == at(n, d).has(Feature::Mined) by {
            assert(g[d.0].len() == height(g));
        }
        lemma_count_around_agree(g, n, c, Feature::Mined);
        lemma_neighbours(g, c);
        neighbours(g, c).lemma_filter_len(shows(g, Feature::Mined));
    }
}

/// Grids with the same contents have the same mines, the same mistakes and the same
/// numbering, however their tiles are shown.
pub proof fn lemma_same_contents(g1: Grid, g2: Grid)
    requires
        same_contents(g1, g2),
    ensures
        census(g1, Feature::Mined) == census(g2, Feature::Mined),
        any(g1, Feature::Mistaken) == any(g2, Feature::Mistaken),
        numbered(g1) == numbered(g2),
{
    lemma_census_agree(g1, g2, Feature::Mined);
    lemma_census_agree(g1, g2, Feature::Mistaken);
    lemma_census_none(g1, Feature::Mistaken);
    lemma_census_none(g2, Feature::Mistaken);
    if numbered(g1) {
        assert forall|c: Cell| inside(g2, c) implies match (#[trigger] at(g2, c)).content {
            TileContent::Field(k) => k == count_around(g2, c, Feature::Mined),
            _ => true,
        } by {
            assert(inside(g1, c));
            assert(at(g1, c).content == at(g2, c).content);
            lemma_count_around_agree(g1, g2, c, Feature::Mined);
        }
    }
    if numbered(g2) {
        assert forall|c: Cell| inside(g1, c) implies match (#[trigger] at(g1, c)).content {
            TileContent::Field(k) => k == count_around(g1, c, Feature::Mined),
            _ => true,
        } by {
            assert(inside(g2, c));
            assert(at(g1, c).content == at(g2, c).content);
            assert(match at(g2, c).content {
                TileContent::Field(k) => k == count_around(g2, c, Feature::Mined),
                _ => true,
            });
            lemma_count_around_agree(g1, g2, c, Feature::Mined);
        }
    }
}

/// The grid with every tile covered again and every flag taken off.
pub open spec fn concealed(g: Grid) -> Grid {
    Seq::new(
        g.len(),
        |x: int|
            Seq::new(
                g[x].len(),
                |y: int| Tile { mode: TileMode::Hidden, content: g[x][y].content },
            ),
    )
}

/// Covering a grid again keeps its contents and leaves every tile covered.
pub proof fn lemma_concealed(g: Grid)
    requires
        rectangular(g),
    ensures
        rectangular(concealed(g)),
        same_contents(concealed(g), g),
        forall|c: Cell|
            inside(g, c) ==> #[trigger] at(concealed(g), c) == (Tile {
                mode: TileMode::Hidden,
                content: at(g, c).content,
            }),
{
    let k = concealed(g);
    assert forall|x: int| 0 <= x < k.len() implies (#[trigger] k[x]).len() == height(k) by {
        assert(g[x].len() == height(g));
    }
    assert forall|c: Cell| inside(g, c) implies #[trigger] at(k, c) == (Tile {
        mode: TileMode::Hidden,
        content: at(g, c).content,
    }) by {
        assert(g[c.0].len() == height(g));
    }
}

/// What a board is when a round starts on it: `w` by `h` tiles with `mines` mines, none
/// of them at `start`; every safe tile numbered; and uncovered exactly what revealing
/// `start` uncovers on the covered board.
pub open spec fn opening(g: Grid, w: int, h: int, start: Cell, mines: nat) -> bool {
    &&& rectangular(g)
    &&& width(g) == w
    &&& height(g) == h
    &&& inside(g, start)
    &&& census(g, Feature::Mined) == mines
    &&& !at(g, start).has(Feature::Mined)
    &&& !any(g, Feature::Mistaken)
    &&& numbered(g)
    &&& g == revealed(concealed(g), start)
}

/// Where no neighbour of a cell is counted for a feature, none has it.
pub proof fn lemma_none_around(g: Grid, c: Cell, f: Feature, d: Cell)
    requires
        count_around(g, c, f) == 0,
        inside(g, d),
        adjacent(c, d),
    ensures
        !at(g, d).has(f),
{
    let nbs = neighbours(g, c);
    lemma_neighbours(g, c);
    assert(nbs.contains(d));
    let i = choose|i: int| 0 <= i < nbs.len() && nbs[i] == d;
    if at(g, d).has(f) {
        nbs.lemma_filter_contains(shows(g, f), i);
    }
}

/// On a numbered grid, uncovering that starts at safe tiles spreads to safe tiles only.
pub proof fn lemma_spread_safe(g: Grid, from: spec_fn(Cell) -> bool, c: Cell)
    requires
        numbered(g),
        forall|d: Cell| #[trigger] covered(g, d) && from(d) ==> !at(g, d).has(Feature::Mined),
        reaches(g, from, c),
    ensures
        !at(g, c).has(Feature::Mined),
{
    lemma_reaches_covered(g, from, c);
    lemma_reaches_cases(g, from, c);
    if !from(c) {
        let b = choose|b: Cell|
            #![trigger at(g, b)]
            reaches(g, from, b) && at(g, b).is_zero() && adjacent(b, c);
        lemma_reaches_covered(g, from, b);
        assert(inside(g, b));
        lemma_none_around(g, b, Feature::Mined, c);
    }
}

/// The first move of a round uncovers no mine.
pub proof fn lemma_opening_safe(g: Grid, w: int, h: int, start: Cell, mines: nat)
    requires
        opening(g, w, h, start, mines),
    ensures
        !any(g, Feature::Tripped),
        at(g, start).mode is Revealed,
{
    let covered_all = concealed(g);
    let from = begins(covered_all, start);
    lemma_concealed(g);
    lemma_same_contents(covered_all, g);
    lemma_spread_shape(covered_all, from);
    assert(at(covered_all, start).mode is Hidden);
    lemma_reaches_start(covered_all, from, start);
    if any(g, Feature::Tripped) {
        let c = choose|c: Cell| inside(g, c) && #[trigger] at(g, c).has(Feature::Tripped);
        assert(at(covered_all, c).mode is Hidden);
        assert(reaches(covered_all, from, c));
        assert forall|d: Cell| #[trigger] covered(covered_all, d) && from(d) implies !at(
            covered_all,
            d,
        ).has(Feature::Mined) by {
            assert(d == start);
        }
        lemma_spread_safe(covered_all, from, c);
    }
}

/// No move of the player changes a mine or a number: after revealing a tile, and after
/// toggling a flag, the board holds the same mines and is numbered as before.
pub proof fn lemma_moves_keep_numbers(g: Grid, c: Cell)
    requires
        rectangular(g),
        inside(g, c),
        numbered(g),
    ensures
        numbered(revealed(g, c)),
        numbered(toggled(g, c)),
        census(revealed(g, c), Feature::Mined) == census(g, Feature::Mined),
        census(toggled(g, c), Feature::Mined) == census(g, Feature::Mined),
{
    lemma_revealed_contents(g, c);
    lemma_same_contents(g, revealed(g, c));
    lemma_toggled_flags(g, c);
    lemma_same_contents(g, toggled(g, c));
}

} // verus!
