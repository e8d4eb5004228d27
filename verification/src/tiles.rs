//! The board: a rectangle of tiles with its mines, numbers and flood fill.

use crate::count::{
    count_before, count_cells, lemma_before_bound, lemma_cells_bound, lemma_column_bound,
};
use crate::flood::{
    begins, cleared_around, covered, lemma_reaches_start, lemma_reaches_step,
    lemma_revealed_contents, lemma_spreading_done, queued, reaches, revealed, spread, spreading,
};
use crate::grid::{
    adjacent, any, at, blank_grid, block, cell, cells, census, count_around, height, inside,
    is_neighbour, lemma_census_agree, lemma_census_none, lemma_census_put, lemma_grids_equal,
    lemma_neighbours, lemma_put, lemma_swept, neighbours, put, rectangular, same_shape, shows,
    shows_at, swept, toggled, width, Cell, Grid,
};
use crate::layout::{
    concealed, counted, is_vacancy, lemma_concealed, lemma_count_around_agree, lemma_counted,
    lemma_mine_placed, lemma_same_contents, lemma_vacancies, lemma_vacancy_unique, mine_added,
    opening, vacancies, vacancy, vacant,
};
use crate::random::{random_below, thread_rng};
use crate::tile::{Feature, Tile, TileContent, TileMode};
use vstd::prelude::*;

verus! {

/// The cell `d` is one of the first `n` cells of `s`.
spec fn among(s: Seq<Cell>, n: int, d: Cell) -> bool {
    exists|j: int| 0 <= j < n && j < s.len() && #[trigger] s[j] == d
}

/// The board, as columns of tiles: `tiles[x][y]` is the tile in column `x` and row `y`.
pub struct Tiles(Vec<Vec<Tile>>);

/// What a new board is made from.
pub struct TilesOptions {
    /// Width and height.
    pub size: (usize, usize),
    /// The cell that is uncovered first and never holds a mine.
    pub starting_position: (usize, usize),
    pub mine_count: usize,
}

impl View for Tiles {
    type V = Grid;

    closed spec fn view(&self) -> Grid {
        Seq::new(self.0.len() as nat, |x: int| self.0[x]@)
    }
}

impl core::ops::Deref for Tiles {
    type Target = Vec<Vec<Tile>>;

    /// The columns of the board, to read.
    fn deref(&self) -> (columns: &Vec<Vec<Tile>>)
        ensures
            columns@.len() == width(self@),
            forall|x: int| 0 <= x < columns@.len() ==> (#[trigger] columns@[x])@ == self@[x],
    {
        &self.0
    }
}

impl Tiles {
    /// The board is a rectangle, and the number of its tiles fits in a `usize`.
    pub open spec fn wf(&self) -> bool {
        &&& rectangular(self@)
        &&& width(self@) * height(self@) <= usize::MAX
    }

    /// The number of columns.
    pub fn width(&self) -> (w: usize)
        ensures
            w == width(self@),
    {
        self.0.len()
    }

    /// The number of rows.
    pub fn height(&self) -> (h: usize)
        ensures
            h == height(self@),
    {
        if self.0.len() > 0 {
            self.0[0].len()
        } else {
            0
        }
    }

    /// The tile at `(x, y)`.
    pub fn tile(&self, x: usize, y: usize) -> (t: &Tile)
        requires
            self.wf(),
            inside(self@, (x as int, y as int)),
        ensures
            *t == at(self@, (x as int, y as int)),
    {
        assert(self@[x as int].len() == height(self@));
        &self.0[x][y]
    }

    /// A board of covered, safe tiles without numbers.
    pub fn new_blank(size: (usize, usize)) -> (tiles: Tiles)
        requires
            size.0 * size.1 <= usize::MAX,
        ensures
            tiles.wf(),
            tiles@ == blank_grid(size.0 as int, size.1 as int),
    {
        let (width, height) = size;
        let mut columns: Vec<Vec<Tile>> = Vec::new();
        let mut x: usize = 0;
        while x < width
            invariant
                x <= width,
                columns@.len() == x,
                forall|i: int|
                    0 <= i < x ==> (#[trigger] columns@[i])@ == Seq::new(
                        height as nat,
                        |y: int| Tile::blank(),
                    ),
            decreases width - x,
        {
            let mut column: Vec<Tile> = Vec::new();
            let mut y: usize = 0;
            while y < height
                invariant
                    y <= height,
                    column@.len() == y,
                    forall|j: int| 0 <= j < y ==> #[trigger] column@[j] == Tile::blank(),
                decreases height - y,
            {
                column.push(Tile { mode: TileMode::Hidden, content: TileContent::Field(0) });
                y += 1;
            }
            assert(column@ =~= Seq::new(height as nat, |y: int| Tile::blank()));
            columns.push(column);
            x += 1;
        }
        let tiles = Tiles(columns);
        proof {
            let b = blank_grid(size.0 as int, size.1 as int);
            assert(tiles@.len() == b.len());
            assert forall|i: int| 0 <= i < b.len() implies tiles@[i] == b[i] by {
                assert(tiles.0@[i]@ == Seq::new(height as nat, |y: int| Tile::blank()));
            }
            assert(tiles@ =~= b);
            if width > 0 {
                assert(b[0].len() == height);
            } else {
                assert(width * height == 0) by (nonlinear_arith)
                    requires
                        width == 0,
                ;
            }
        }
        tiles
    }

    /// The cells next to `(x, y)` that lie on the board.
    pub fn neighbours(&self, x: usize, y: usize) -> (around: Vec<(usize, usize)>)
        requires
            self.wf(),
            inside(self@, (x as int, y as int)),
        ensures
            cells(around@) == neighbours(self@, (x as int, y as int)),
    {
        let ghost c = (x as int, y as int);
        let ghost keep = is_neighbour(width(self@), height(self@), c);
        assert(self@[x as int].len() == height(self@));
        let w = self.0.len();
        let h = self.0[x].len();
        let mut around: Vec<(usize, usize)> = Vec::new();
        let mut k: usize = 0;
        assert(cells(around@) =~= block(c).take(0).filter(keep)) by {
            reveal(Seq::filter);
        }
        while k < 9
            invariant
                k <= 9,
                x < w,
                y < h,
                w == width(self@),
                h == height(self@),
                c == (x as int, y as int),
                keep == is_neighbour(width(self@), height(self@), c),
                cells(around@) == block(c).take(k as int).filter(keep),
            decreases 9 - k,
        {
            let dx = k / 3;
            let dy = k % 3;
            let off = (dx == 1 && dy == 1) || (dx == 0 && x == 0) || (dy == 0 && y == 0) || (dx == 2
                && x == w - 1) || (dy == 2 && y == h - 1);
            proof {
                let b = block(c);
                assert(b[k as int] == (c.0 + dx - 1, c.1 + dy - 1));
                b.lemma_take_succ_push(k as int);
                b.take(k as int).lemma_filter_push(b[k as int], keep);
                assert(off == !keep(b[k as int]));
            }
            if !off {
                let ghost before = around@;
                around.push((x + dx - 1, y + dy - 1));
                assert(cells(around@) =~= cells(before).push(block(c)[k as int]));
            }
            k += 1;
        }
        assert(block(c).take(9) =~= block(c));
        around
    }

    /// The number of tiles that have the feature `f`.
    pub fn count(&self, f: Feature) -> (n: usize)
        requires
            self.wf(),
        ensures
            n == census(self@, f),
    {
        let ghost p = shows_at(self@, f);
        let w = self.0.len();
        let ghost h = height(self@);
        let mut n: usize = 0;
        let mut x: usize = 0;
        while x < w
            invariant
                self.wf(),
                x <= w,
                w == width(self@),
                h == height(self@),
                p == shows_at(self@, f),
                n == count_cells(x as int, h, p),
            decreases w - x,
        {
            assert(self@[x as int].len() == h);
            let rows = self.0[x].len();
            let mut y: usize = 0;
            while y < rows
                invariant
                    self.wf(),
                    x < w,
                    y <= rows,
                    rows == h,
                    w == width(self@),
                    h == height(self@),
                    p == shows_at(self@, f),
                    n == count_before(x as int, y as int, h, p),
                decreases rows - y,
            {
                proof {
                    lemma_cells_bound(x as int, h, p);
                    lemma_column_bound(x as int, y as int, p);
                    lemma_before_bound(w as int, h, x as int, y as int);
                }
                if self.0[x][y].shows(f) {
                    n += 1;
                }
                y += 1;
            }
            x += 1;
        }
        n
    }

    /// The number of neighbours of `(x, y)` that have the feature `f`.
    pub fn count_around(&self, x: usize, y: usize, f: Feature) -> (n: u8)
        requires
            self.wf(),
            inside(self@, (x as int, y as int)),
        ensures
            n == count_around(self@, (x as int, y as int), f),
    {
        let ghost c = (x as int, y as int);
        let ghost p = shows(self@, f);
        let around = self.neighbours(x, y);
        let ghost nbs = neighbours(self@, c);
        proof {
            lemma_neighbours(self@, c);
        }
        let mut n: u8 = 0;
        let mut i: usize = 0;
        assert(nbs.take(0).filter(p).len() == 0) by {
            reveal(Seq::filter);
        }
        while i < around.len()
            invariant
                self.wf(),
                i <= around.len(),
                around@.len() == nbs.len(),
                nbs.len() <= 8,
                nbs == cells(around@),
                nbs == neighbours(self@, c),
                p == shows(self@, f),
                forall|j: int| 0 <= j < nbs.len() ==> inside(self@, #[trigger] nbs[j]),
                n == nbs.take(i as int).filter(p).len(),
                n <= i,
            decreases around.len() - i,
        {
            let (nx, ny) = around[i];
            proof {
                assert(nbs[i as int] == (nx as int, ny as int));
                assert(inside(self@, nbs[i as int]));
                assert(self@[nx as int].len() == height(self@));
                nbs.lemma_take_succ_push(i as int);
                nbs.take(i as int).lemma_filter_len_push(p, nbs[i as int]);
            }
            if self.0[nx][ny].shows(f) {
                n += 1;
            }
            i += 1;
        }
        assert(nbs.take(nbs.len() as int) =~= nbs);
        n
    }

    /// Replaces the tile at `(x, y)`.
    fn set(&mut self, x: usize, y: usize, tile: Tile)
        requires
            old(self).wf(),
            inside(old(self)@, (x as int, y as int)),
        ensures
            final(self).wf(),
            final(self)@ == put(old(self)@, (x as int, y as int), tile),
    {
        let ghost c = (x as int, y as int);
        assert(self@[x as int].len() == height(self@));
        self.0[x][y] = tile;
        proof {
            lemma_put(old(self)@, c, tile);
            assert(self@ =~= put(old(self)@, c, tile));
        }
    }

    /// Toggles the flag at `(x, y)`: a covered tile gets a flag, a flagged tile loses it,
    /// an uncovered tile stays as it is.
    pub fn toggle_flag(&mut self, x: usize, y: usize)
        requires
            old(self).wf(),
            inside(old(self)@, (x as int, y as int)),
        ensures
            final(self).wf(),
            final(self)@ == toggled(old(self)@, (x as int, y as int)),
    {
        let tile = *self.tile(x, y);
        let mode = match tile.mode {
            TileMode::Hidden => TileMode::Flagged,
            TileMode::Flagged => TileMode::Hidden,
            TileMode::Revealed => TileMode::Revealed,
        };
        self.set(x, y, Tile { mode, content: tile.content });
    }

    /// Shows the board as it is at the end of a round: every flag on a safe tile and every
    /// uncovered mine becomes a mistake, every other mine is uncovered.
    pub fn sweep(&mut self)
        requires
            old(self).wf(),
            !any(old(self)@, Feature::Mistaken),
        ensures
            final(self).wf(),
            final(self)@ == swept(old(self)@),
    {
        let ghost g0 = self@;
        let w = self.width();
        let h = self.height();
        let mut x: usize = 0;
        while x < w
            invariant
                self.wf(),
                x <= w,
                w == width(g0),
                h == height(g0),
                rectangular(g0),
                same_shape(g0, self@),
                !any(g0, Feature::Mistaken),
                forall|c: Cell|
                    inside(g0, c) ==> #[trigger] at(self@, c) == if c.0 < x {
                        at(g0, c).swept()
                    } else {
                        at(g0, c)
                    },
            decreases w - x,
        {
            let mut y: usize = 0;
            while y < h
                invariant
                    self.wf(),
                    x < w,
                    y <= h,
                    w == width(g0),
                    h == height(g0),
                    rectangular(g0),
                    same_shape(g0, self@),
                    !any(g0, Feature::Mistaken),
                    forall|c: Cell|
                        inside(g0, c) ==> #[trigger] at(self@, c) == if c.0 < x || (c.0 == x && c.1
                            < y) {
                            at(g0, c).swept()
                        } else {
                            at(g0, c)
                        },
                decreases h - y,
            {
                let ghost c = (x as int, y as int);
                let ghost before = self@;
                let mut tile = *self.tile(x, y);
                assert(tile == at(g0, c));
                assert(!at(g0, c).has(Feature::Mistaken));
                tile.sweep();
                self.set(x, y, tile);
                proof {
                    lemma_put(before, c, tile);
                    assert forall|d: Cell| inside(g0, d) implies #[trigger] at(self@, d) == if d.0
                        < x || (d.0 == x && d.1 < y + 1) {
                        at(g0, d).swept()
                    } else {
                        at(g0, d)
                    } by {
                        if d != c {
                            assert(at(self@, d) == at(before, d));
                        }
                    }
                }
                y += 1;
            }
            x += 1;
        }
        proof {
            lemma_swept(g0);
            lemma_grids_equal(self@, swept(g0));
        }
    }

    /// Uncovers every covered neighbour of `(x, y)` and appends it to `pending`.
    fn open_around(&mut self, x: usize, y: usize, pending: &mut Vec<(usize, usize)>)
        requires
            old(self).wf(),
            inside(old(self)@, (x as int, y as int)),
        ensures
            final(self).wf(),
            same_shape(old(self)@, final(self)@),
            forall|d: Cell|
                inside(old(self)@, d) ==> #[trigger] at(final(self)@, d) == if adjacent(
                    (x as int, y as int),
                    d,
                ) && covered(old(self)@, d) {
                    at(old(self)@, d).opened()
                } else {
                    at(old(self)@, d)
                },
            final(pending)@.len() >= old(pending)@.len(),
            forall|i: int|
                0 <= i < old(pending)@.len() ==> #[trigger] final(pending)@[i] == old(pending)@[i],
            forall|i: int|
                old(pending)@.len() <= i < final(pending)@.len() ==> adjacent(
                    (x as int, y as int),
                    cell(#[trigger] final(pending)@[i]),
                ) && covered(old(self)@, cell(final(pending)@[i])),
            forall|d: Cell|
                adjacent((x as int, y as int), d) && covered(old(self)@, d) ==> queued(
                    final(pending)@,
                    d,
                ),
            census(final(self)@, Feature::Hidden) + final(pending)@.len() == census(
                old(self)@,
                Feature::Hidden,
            ) + old(pending)@.len(),
    {
        let ghost g0 = self@;
        let ghost waiting = pending@;
        let ghost c = (x as int, y as int);
        let around = self.neighbours(x, y);
        let ghost nbs = neighbours(g0, c);
        proof {
            lemma_neighbours(g0, c);
        }
        let mut i: usize = 0;
        while i < around.len()
            invariant
                self.wf(),
                rectangular(g0),
                same_shape(g0, self@),
                i <= around.len(),
                around@.len() == nbs.len(),
                nbs == cells(around@),
                forall|j: int|
                    0 <= j < nbs.len() ==> inside(g0, #[trigger] nbs[j]) && adjacent(c, nbs[j]),
                forall|d: Cell|
                    inside(g0, d) ==> #[trigger] at(self@, d) == if among(nbs, i as int, d)
                        && covered(g0, d) {
                        at(g0, d).opened()
                    } else {
                        at(g0, d)
                    },
                pending@.len() >= waiting.len(),
                forall|j: int| 0 <= j < waiting.len() ==> #[trigger] pending@[j] == waiting[j],
                forall|j: int|
                    waiting.len() <= j < pending@.len() ==> adjacent(c, cell(#[trigger] pending@[j]))
                        && covered(g0, cell(pending@[j])),
                forall|d: Cell|
                    among(nbs, i as int, d) && covered(g0, d) ==> queued(pending@, d),
                census(self@, Feature::Hidden) + pending@.len() == census(g0, Feature::Hidden)
                    + waiting.len(),
            decreases around.len() - i,
        {
            let (nx, ny) = around[i];
            let ghost d = (nx as int, ny as int);
            let ghost before = self@;
            let ghost queue = pending@;
            assert(nbs[i as int] == d);
            assert(inside(g0, nbs[i as int]));
            let tile = *self.tile(nx, ny);
            if let TileMode::Hidden = tile.mode {
                self.set(nx, ny, Tile { mode: TileMode::Revealed, content: tile.content });
                pending.push((nx, ny));
                proof {
                    lemma_put(before, d, tile.opened());
                    lemma_census_put(before, d, tile.opened(), Feature::Hidden);
                    assert(pending@[queue.len() as int] == (nx, ny));
                    assert forall|e: Cell|
                        among(nbs, i + 1, e) && covered(g0, e) implies queued(pending@, e) by {
                        if e == d {
                            assert(cell(pending@[queue.len() as int]) == e);
                        } else {
                            assert(among(nbs, i as int, e));
                            let j = choose|j: int|
                                0 <= j < queue.len() && cell(#[trigger] queue[j]) == e;
                            assert(cell(pending@[j]) == e);
                        }
                    }
                }
            }
            proof {
                assert forall|e: Cell| inside(g0, e) implies #[trigger] at(self@, e) == if among(
                    nbs,
                    i + 1,
                    e,
                ) && covered(g0, e) {
                    at(g0, e).opened()
                } else {
                    at(g0, e)
                } by {
                    if e == d {
                        assert(among(nbs, i + 1, e));
                    } else {
                        assert(at(self@, e) == at(before, e));
                        assert(among(nbs, i + 1, e) == among(nbs, i as int, e));
                    }
                }
            }
            i += 1;
        }
        proof {
            assert forall|e: Cell| inside(g0, e) implies (among(nbs, nbs.len() as int, e)
                <==> adjacent(c, e)) by {
                if adjacent(c, e) {
                    assert(nbs.contains(e));
                }
            }
            assert forall|e: Cell| adjacent(c, e) && covered(g0, e) implies queued(pending@, e) by {
                assert(among(nbs, nbs.len() as int, e));
            }
        }
    }

    /// Carries a flood fill to its end: looks at each pending cell in turn and, where it
    /// has no mine beside it, uncovers its covered neighbours, which become pending.
    fn cascade(
        &mut self,
        pending: Vec<(usize, usize)>,
        Ghost(g0): Ghost<Grid>,
        Ghost(from): Ghost<spec_fn(Cell) -> bool>,
    )
        requires
            old(self).wf(),
            rectangular(g0),
            spreading(g0, old(self)@, from, pending@),
        ensures
            final(self).wf(),
            final(self)@ == spread(g0, from),
    {
        let mut pending = pending;
        while pending.len() > 0
            invariant
                self.wf(),
                rectangular(g0),
                spreading(g0, self@, from, pending@),
            decreases census(self@, Feature::Hidden), pending@.len(),
        {
            let ghost before = self@;
            let ghost queue = pending@;
            let (x, y) = pending.pop().unwrap();
            let ghost c = (x as int, y as int);
            let ghost rest = pending@;
            assert(queue[queue.len() - 1] == (x, y));
            assert(covered(g0, cell(queue[queue.len() - 1])));
            assert(at(before, c) != at(g0, c));
            let tile = *self.tile(x, y);
            let zero = match tile.content {
                TileContent::Field(n) => n == 0,
                _ => false,
            };
            if zero {
                self.open_around(x, y, &mut pending);
            }
            proof {
                let g = self@;
                assert(at(g0, c).is_zero() == zero);
                assert forall|d: Cell| inside(g0, d) implies #[trigger] at(g, d) == at(g0, d) || (
                covered(g0, d) && at(g, d) == at(g0, d).opened()) by {
                    assert(at(before, d) == at(g0, d) || (covered(g0, d) && at(before, d) == at(
                        g0,
                        d,
                    ).opened()));
                }
                assert forall|d: Cell| inside(g0, d) && #[trigger] at(g, d) != at(
                    g0,
                    d,
                ) implies reaches(g0, from, d) by {
                    if at(before, d) == at(g0, d) {
                        lemma_reaches_step(g0, from, c, d);
                    }
                }
                assert forall|d: Cell| covered(g0, d) && from(d) implies #[trigger] at(
                    g,
                    d,
                ).mode is Revealed by {
                    assert(at(before, d).mode is Revealed);
                }
                assert forall|i: int| 0 <= i < pending@.len() implies covered(
                    g0,
                    cell(#[trigger] pending@[i]),
                ) && at(g, cell(pending@[i])).mode is Revealed by {
                    let d = cell(pending@[i]);
                    if i < rest.len() {
                        assert(pending@[i] == rest[i]);
                        assert(rest[i] == queue[i]);
                        assert(at(before, d).mode is Revealed);
                    } else {
                        assert(covered(before, d));
                        assert(at(before, d) == at(g0, d));
                    }
                }
                assert forall|d: Cell|
                    covered(g0, d) && at(g0, d).is_zero() && (#[trigger] at(g, d)).mode is Revealed
                        && !queued(pending@, d) implies cleared_around(g, d) by {
                    if d == c {
                        assert forall|e: Cell| inside(g, e) && adjacent(d, e) implies !(
                        #[trigger] at(g, e).mode is Hidden) by {
                            assert(inside(g0, e));
                        }
                    } else {
                        assert(at(before, d).mode is Revealed) by {
                            if at(before, d).mode is Hidden {
                                assert(queued(pending@, d));
                            }
                        }
                        assert(!queued(queue, d)) by {
                            if queued(queue, d) {
                                let j = choose|j: int|
                                    0 <= j < queue.len() && cell(#[trigger] queue[j]) == d;
                                assert(j < rest.len());
                                assert(rest[j] == queue[j]);
                                assert(pending@[j] == rest[j]);
                            }
                        }
                        assert(cleared_around(before, d));
                        assert forall|e: Cell| inside(g, e) && adjacent(d, e) implies !(
                        #[trigger] at(g, e).mode is Hidden) by {
                            assert(inside(g0, e));
                            assert(!(at(before, e).mode is Hidden));
                        }
                    }
                }
                assert(census(g, Feature::Hidden) + pending@.len() == census(
                    before,
                    Feature::Hidden,
                ) + rest.len());
            }
        }
        proof {
            assert(pending@ =~= Seq::empty());
            lemma_spreading_done(g0, self@, from);
        }
    }

    /// Reveals the tile at `(x, y)`.
    ///
    /// A flagged tile stays as it is. A covered tile is uncovered, and if it has no mine
    /// beside it, so are its covered neighbours, and theirs in turn. An uncovered number
    /// with as many flags around it has its covered neighbours uncovered in the same way.
    pub fn uncover(&mut self, x: usize, y: usize)
        requires
            old(self).wf(),
            inside(old(self)@, (x as int, y as int)),
        ensures
            final(self).wf(),
            final(self)@ == revealed(old(self)@, (x as int, y as int)),
    {
        let ghost g0 = self@;
        let ghost c = (x as int, y as int);
        let ghost from = begins(g0, c);
        let mut pending: Vec<(usize, usize)> = Vec::new();
        let tile = *self.tile(x, y);
        match tile.mode {
            TileMode::Hidden => {
                self.set(x, y, Tile { mode: TileMode::Revealed, content: tile.content });
                pending.push((x, y));
                proof {
                    lemma_put(g0, c, tile.opened());
                    lemma_reaches_start(g0, from, c);
                    assert(cell(pending@[0]) == c);
                }
            },
            TileMode::Flagged => {},
            TileMode::Revealed => {
                if let TileContent::Field(mines) = tile.content {
                    let flags = self.count_around(x, y, Feature::Flagged);
                    if mines == flags {
                        self.open_around(x, y, &mut pending);
                        proof {
                            assert forall|d: Cell| inside(g0, d) && #[trigger] at(self@, d) != at(
                                g0,
                                d,
                            ) implies reaches(g0, from, d) by {
                                lemma_reaches_start(g0, from, d);
                            }
                        }
                    }
                }
            },
        }
        assert(spreading(g0, self@, from, pending@));
        self.cascade(pending, Ghost(g0), Ghost(from));
    }

    /// The number of cells that can take a mine: those without one, `ignore` left out.
    pub fn vacancies(&self, ignore: (usize, usize)) -> (n: usize)
        requires
            self.wf(),
        ensures
            n == vacancies(self@, cell(ignore)),
    {
        let w = self.width();
        let h = self.height();
        let mined = self.count(Feature::Mined);
        proof {
            lemma_vacancies(self@, cell(ignore));
        }
        let mut n = w * h - mined;
        if ignore.0 < w && ignore.1 < h && !self.tile(ignore.0, ignore.1).shows(Feature::Mined) {
            n -= 1;
        }
        n
    }

    /// Puts a mine under the cell that has `rank` cells that can take a mine before it,
    /// counting column by column: the cell that a draw of `rank` stands for. The cell
    /// `ignore` never takes one.
    pub fn place_mine(&mut self, rank: usize, ignore: (usize, usize))
        requires
            old(self).wf(),
            rank < vacancies(old(self)@, cell(ignore)),
        ensures
            final(self).wf(),
            is_vacancy(
                old(self)@,
                cell(ignore),
                rank as nat,
                vacancy(old(self)@, cell(ignore), rank as nat),
            ),
            final(self)@ == mine_added(old(self)@, cell(ignore), rank as nat),
    {
        let ghost g0 = self@;
        let ghost free = vacant(g0, cell(ignore));
        let w = self.width();
        let h = self.height();
        let mut seen: usize = 0;
        let mut x: usize = 0;
        while x < w
            invariant
                self.wf(),
                self@ == g0,
                g0 == old(self)@,
                x <= w,
                w == width(g0),
                h == height(g0),
                free == vacant(g0, cell(ignore)),
                seen == count_cells(x as int, h as int, free),
                seen <= rank,
                rank < vacancies(g0, cell(ignore)),
            decreases w - x,
        {
            let mut y: usize = 0;
            while y < h
                invariant
                    self.wf(),
                    self@ == g0,
                    g0 == old(self)@,
                g0 == old(self)@,
                    x < w,
                    y <= h,
                    w == width(g0),
                    h == height(g0),
                    free == vacant(g0, cell(ignore)),
                    seen == count_before(x as int, y as int, h as int, free),
                    seen <= rank,
                decreases h - y,
            {
                let tile = *self.tile(x, y);
                let open = !tile.shows(Feature::Mined) && (x != ignore.0 || y != ignore.1);
                assert(open == free(x as int, y as int));
                if open {
                    if seen == rank {
                        self.set(x, y, Tile { mode: tile.mode, content: TileContent::Mine });
                        proof {
                            let c = (x as int, y as int);
                            assert(is_vacancy(g0, cell(ignore), rank as nat, c));
                            lemma_vacancy_unique(
                                g0,
                                cell(ignore),
                                rank as nat,
                                c,
                                vacancy(g0, cell(ignore), rank as nat),
                            );
                        }
                        return ;
                    }
                    seen += 1;
                }
                y += 1;
            }
            x += 1;
        }
        // The scan has passed every cell that can take a mine, and they were more than
        // `rank`: it has come by the one it looks for.
        assert(seen == vacancies(g0, cell(ignore)));
    }

    /// Lays `mine_count` mines at random. Each mine goes under a cell drawn from those that
    /// can still take one, all of them equally likely, so that laying the mines takes as
    /// many draws as there are mines. The cell `ignore` never takes one.
    pub fn populate_mines(&mut self, mine_count: usize, ignore: (usize, usize))
        requires
            old(self).wf(),
            mine_count <= vacancies(old(self)@, cell(ignore)),
        ensures
            final(self).wf(),
            same_shape(old(self)@, final(self)@),
            census(final(self)@, Feature::Mined) == census(old(self)@, Feature::Mined) + mine_count,
            forall|c: Cell|
                inside(old(self)@, c) ==> #[trigger] at(final(self)@, c) == at(old(self)@, c) || (
                c != cell(ignore) && at(final(self)@, c) == at(old(self)@, c).mined()),
    {
        let ghost g0 = self@;
        let mut rng = thread_rng();
        let mut free = self.vacancies(ignore);
        let mut placed: usize = 0;
        while placed < mine_count
            invariant
                self.wf(),
                rectangular(g0),
                same_shape(g0, self@),
                placed <= mine_count,
                free == vacancies(self@, cell(ignore)),
                free + placed == vacancies(g0, cell(ignore)),
                mine_count <= vacancies(g0, cell(ignore)),
                census(self@, Feature::Mined) == census(g0, Feature::Mined) + placed,
                forall|c: Cell|
                    inside(g0, c) ==> #[trigger] at(self@, c) == at(g0, c) || (c != cell(ignore)
                        && at(self@, c) == at(g0, c).mined()),
            decreases mine_count - placed,
        {
            let ghost before = self@;
            let rank = random_below(&mut rng, free);
            self.place_mine(rank, ignore);
            proof {
                let c = vacancy(before, cell(ignore), rank as nat);
                lemma_put(before, c, at(before, c).mined());
                lemma_mine_placed(before, cell(ignore), c);
                lemma_census_put(before, c, at(before, c).mined(), Feature::Mined);
                assert forall|d: Cell| inside(g0, d) implies #[trigger] at(self@, d) == at(g0, d)
                    || (d != cell(ignore) && at(self@, d) == at(g0, d).mined()) by {
                    if d != c {
                        assert(at(self@, d) == at(before, d));
                    }
                }
            }
            free -= 1;
            placed += 1;
        }
    }

    /// Gives every safe tile the number of mines among its neighbours.
    pub fn number(&mut self)
        requires
            old(self).wf(),
        ensures
            final(self).wf(),
            final(self)@ == counted(old(self)@),
    {
        let ghost g0 = self@;
        let ghost goal = counted(g0);
        proof {
            lemma_counted(g0);
            assert forall|c: Cell| inside(g0, c) implies #[trigger] at(goal, c) == match at(
                g0,
                c,
            ).content {
                TileContent::Field(_) => at(g0, c).numbered(
                    count_around(g0, c, Feature::Mined) as u8,
                ),
                _ => at(g0, c),
            } by {
                assert(g0[c.0].len() == height(g0));
            }
        }
        let w = self.width();
        let h = self.height();
        let mut x: usize = 0;
        while x < w
            invariant
                self.wf(),
                x <= w,
                w == width(g0),
                h == height(g0),
                rectangular(g0),
                same_shape(g0, self@),
                goal == counted(g0),
                same_shape(g0, goal),
                forall|c: Cell|
                    inside(g0, c) ==> #[trigger] at(goal, c) == match at(g0, c).content {
                        TileContent::Field(_) => at(g0, c).numbered(
                            count_around(g0, c, Feature::Mined) as u8,
                        ),
                        _ => at(g0, c),
                    },
                forall|c: Cell|
                    inside(g0, c) ==> #[trigger] at(self@, c) == if c.0 < x {
                        at(goal, c)
                    } else {
                        at(g0, c)
                    },
            decreases w - x,
        {
            let mut y: usize = 0;
            while y < h
                invariant
                    self.wf(),
                    x < w,
                    y <= h,
                    w == width(g0),
                    h == height(g0),
                    rectangular(g0),
                    same_shape(g0, self@),
                    goal == counted(g0),
                    same_shape(g0, goal),
                    forall|c: Cell|
                        inside(g0, c) ==> #[trigger] at(goal, c) == match at(g0, c).content {
                            TileContent::Field(_) => at(g0, c).numbered(
                                count_around(g0, c, Feature::Mined) as u8,
                            ),
                            _ => at(g0, c),
                        },
                    forall|c: Cell|
                        inside(g0, c) ==> #[trigger] at(self@, c) == if c.0 < x || (c.0 == x && c.1
                            < y) {
                            at(goal, c)
                        } else {
                            at(g0, c)
                        },
                decreases h - y,
            {
                let ghost c = (x as int, y as int);
                let ghost before = self@;
                let tile = *self.tile(x, y);
                assert(tile == at(g0, c));
                if let TileContent::Field(_) = tile.content {
                    let mines = self.count_around(x, y, Feature::Mined);
                    proof {
                        assert forall|d: Cell| inside(before, d) implies #[trigger] at(
                            before,
                            d,
                        ).has(Feature::Mined) == at(g0, d).has(Feature::Mined) by {
                            assert(inside(g0, d));
                            assert(at(goal, d).has(Feature::Mined) == at(g0, d).has(
                                Feature::Mined,
                            ));
                        }
                        lemma_count_around_agree(before, g0, c, Feature::Mined);
                    }
                    self.set(x, y, Tile { mode: tile.mode, content: TileContent::Field(mines) });
                    proof {
                        lemma_put(before, c, tile.numbered(mines));
                    }
                }
                proof {
                    assert(at(self@, c) == at(goal, c));
                    assert forall|d: Cell| inside(g0, d) implies #[trigger] at(self@, d) == if d.0
                        < x || (d.0 == x && d.1 < y + 1) {
                        at(goal, d)
                    } else {
                        at(g0, d)
                    } by {
                        if d != c {
                            assert(at(self@, d) == at(before, d));
                        }
                    }
                }
                y += 1;
            }
            x += 1;
        }
        proof {
            lemma_grids_equal(self@, goal);
        }
    }

    /// A board for a new round: mines laid at random, every safe tile numbered, and the
    /// starting position revealed.
    pub fn new(options: &TilesOptions) -> (tiles: Tiles)
        requires
            options.mine_count < options.size.0 * options.size.1 <= usize::MAX,
            options.starting_position.0 < options.size.0,
            options.starting_position.1 < options.size.1,
        ensures
            tiles.wf(),
            opening(
                tiles@,
                options.size.0 as int,
                options.size.1 as int,
                cell(options.starting_position),
                options.mine_count as nat,
            ),
    {
        let (width, height) = options.size;
        let ghost start = cell(options.starting_position);
        let mut tiles = Self::new_blank((width, height));
        let ghost blank = tiles@;
        proof {
            assert(blank[0].len() == height);
            assert forall|c: Cell| inside(blank, c) implies #[trigger] at(blank, c)
                == Tile::blank() by {}
            lemma_census_none(blank, Feature::Mined);
            lemma_vacancies(blank, start);
        }
        tiles.populate_mines(options.mine_count, options.starting_position);
        let ghost mined = tiles@;
        tiles.number();
        let ghost numbers = tiles@;
        tiles.uncover(options.starting_position.0, options.starting_position.1);
        proof {
            let g = tiles@;
            lemma_counted(mined);
            lemma_revealed_contents(numbers, start);
            lemma_census_agree(mined, numbers, Feature::Mined);
            lemma_same_contents(numbers, g);
            assert(!any(numbers, Feature::Mistaken)) by {
                if any(numbers, Feature::Mistaken) {
                    let c = choose|c: Cell|
                        inside(numbers, c) && #[trigger] at(numbers, c).has(Feature::Mistaken);
                    assert(at(numbers, c).has(Feature::Mistaken) == at(mined, c).has(
                        Feature::Mistaken,
                    ));
                    assert(at(mined, c) == at(blank, c) || at(mined, c) == at(blank, c).mined());
                }
            }
            assert(!at(g, start).has(Feature::Mined)) by {
                assert(at(g, start).content == at(numbers, start).content);
                assert(at(numbers, start).has(Feature::Mined) == at(mined, start).has(
                    Feature::Mined,
                ));
                assert(at(mined, start) == at(blank, start));
            }
            lemma_concealed(g);
            assert forall|c: Cell| inside(g, c) implies #[trigger] at(concealed(g), c) == at(
                numbers,
                c,
            ) by {
                assert(at(g, c).content == at(numbers, c).content);
                assert(at(numbers, c).mode == at(mined, c).mode);
                assert(at(mined, c) == at(blank, c) || at(mined, c) == at(blank, c).mined());
            }
            lemma_grids_equal(concealed(g), numbers);
        }
        tiles
    }
}

} // verus!
