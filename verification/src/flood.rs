//! What revealing a tile uncovers: the rule by which uncovering spreads over the grid, and
//! the facts about it that the board relies on.

use crate::grid::{
    adjacent, at, cell, census, count_around, height, inside, lemma_census_agree, lemma_grids_equal,
    lemma_put, put, rectangular, same_contents, same_shape, Cell, Grid,
};
use crate::tile::{Feature, TileContent, TileMode};
use vstd::prelude::*;

verus! {

/// The tile at `c` is on the grid, still covered and without a flag.
pub open spec fn covered(g: Grid, c: Cell) -> bool {
    inside(g, c) && at(g, c).mode is Hidden
}

/// A trail along which uncovering spreads: covered cells, each next to the one before,
/// and every one but the last without a mine beside it.
pub open spec fn trail(g: Grid, t: Seq<Cell>) -> bool {
    &&& t.len() >= 1
    &&& forall|i: int| 0 <= i < t.len() ==> covered(g, #[trigger] t[i])
    &&& forall|i: int|
        0 <= i < t.len() - 1 ==> at(g, #[trigger] t[i]).is_zero() && adjacent(t[i], t[i + 1])
}

/// Some trail leads from a cell accepted by `from` to `c`.
pub open spec fn reaches(g: Grid, from: spec_fn(Cell) -> bool, c: Cell) -> bool {
    exists|t: Seq<Cell>| #[trigger] trail(g, t) && from(t[0]) && t.last() == c
}

/// The grid with every cell uncovered that a trail reaches, and nothing else changed.
pub open spec fn spread(g: Grid, from: spec_fn(Cell) -> bool) -> Grid {
    Seq::new(
        g.len(),
        |x: int|
            Seq::new(
                g[x].len(),
                |y: int|
                    if reaches(g, from, (x, y)) {
                        g[x][y].opened()
                    } else {
                        g[x][y]
                    },
            ),
    )
}

/// The uncovered tile at `c` shows a number, and as many of its neighbours carry a flag.
pub open spec fn satisfied(g: Grid, c: Cell) -> bool {
    at(g, c).content matches TileContent::Field(n) && count_around(g, c, Feature::Flagged) == n
}

/// Where uncovering starts when the player reveals `c`: at `c` itself if it is covered,
/// at its neighbours if it is an uncovered number with all its flags set, and nowhere
/// otherwise.
pub open spec fn begins(g: Grid, c: Cell) -> spec_fn(Cell) -> bool {
    |d: Cell|
        match at(g, c).mode {
            TileMode::Hidden => d == c,
            TileMode::Flagged => false,
            TileMode::Revealed => satisfied(g, c) && adjacent(c, d),
        }
}

/// The grid after the player has revealed `c`.
pub open spec fn revealed(g: Grid, c: Cell) -> Grid {
    spread(g, begins(g, c))
}

/// Between `g0` and `g`, tiles have only been uncovered.
pub open spec fn opened_since(g0: Grid, g: Grid) -> bool {
    &&& same_shape(g0, g)
    &&& rectangular(g)
    &&& forall|c: Cell|
        inside(g0, c) ==> #[trigger] at(g, c) == at(g0, c) || (covered(g0, c) && at(g, c) == at(
            g0,
            c,
        ).opened())
}

/// No neighbour of `c` is still covered.
pub open spec fn cleared_around(g: Grid, c: Cell) -> bool {
    forall|d: Cell| inside(g, d) && adjacent(c, d) ==> !(#[trigger] at(g, d).mode is Hidden)
}

/// Spreading keeps the shape of the grid, uncovers the cells that are reached and leaves
/// every other tile as it is.
pub proof fn lemma_spread_shape(g: Grid, from: spec_fn(Cell) -> bool)
    requires
        rectangular(g),
    ensures
        rectangular(spread(g, from)),
        same_shape(g, spread(g, from)),
        forall|c: Cell|
            inside(g, c) ==> #[trigger] at(spread(g, from), c) == if reaches(g, from, c) {
                at(g, c).opened()
            } else {
                at(g, c)
            },
{
    let s = spread(g, from);
    assert forall|x: int| 0 <= x < s.len() implies (#[trigger] s[x]).len() == height(
        s,
    ) by {
        assert(g[x].len() == height(g));
    }
    assert forall|c: Cell| inside(g, c) implies #[trigger] at(s, c) == if reaches(g, from, c) {
        at(g, c).opened()
    } else {
        at(g, c)
    } by {
        assert(g[c.0].len() == height(g));
    }
}

/// A covered cell where uncovering starts is reached.
pub proof fn lemma_reaches_start(g: Grid, from: spec_fn(Cell) -> bool, c: Cell)
    requires
        covered(g, c),
        from(c),
    ensures
        reaches(g, from, c),
{
    let t = seq![c];
    assert(trail(g, t));
    assert(t[0] == c && t.last() == c);
}

/// Uncovering spreads from a reached cell without a mine beside it to its covered
/// neighbours.
pub proof fn lemma_reaches_step(g: Grid, from: spec_fn(Cell) -> bool, c: Cell, d: Cell)
    requires
        reaches(g, from, c),
        at(g, c).is_zero(),
        adjacent(c, d),
        covered(g, d),
    ensures
        reaches(g, from, d),
{
    let t = choose|t: Seq<Cell>| #[trigger] trail(g, t) && from(t[0]) && t.last() == c;
    let u = t.push(d);
    assert forall|i: int| 0 <= i < u.len() implies covered(g, #[trigger] u[i]) by {
        if i < t.len() {
            assert(u[i] == t[i]);
        }
    }
    assert forall|i: int| 0 <= i < u.len() - 1 implies at(g, #[trigger] u[i]).is_zero()
        && adjacent(u[i], u[i + 1]) by {
        assert(u[i] == t[i]);
        if i < t.len() - 1 {
            assert(u[i + 1] == t[i + 1]);
        }
    }
    assert(trail(g, u));
    assert(u[0] == t[0] && u.last() == d);
}

/// Only covered cells are reached.
pub proof fn lemma_reaches_covered(g: Grid, from: spec_fn(Cell) -> bool, c: Cell)
    requires
        reaches(g, from, c),
    ensures
        covered(g, c),
{
    let t = choose|t: Seq<Cell>| #[trigger] trail(g, t) && from(t[0]) && t.last() == c;
    assert(covered(g, t[t.len() - 1]));
}

/// A reached cell is one where uncovering starts, or lies next to a reached cell that has
/// no mine beside it.
pub proof fn lemma_reaches_cases(g: Grid, from: spec_fn(Cell) -> bool, c: Cell)
    requires
        reaches(g, from, c),
    ensures
        from(c) || exists|b: Cell|
            #![trigger at(g, b)]
            reaches(g, from, b) && at(g, b).is_zero() && adjacent(b, c),
{
    let t = choose|t: Seq<Cell>| #[trigger] trail(g, t) && from(t[0]) && t.last() == c;
    if t.len() > 1 {
        let u = t.drop_last();
        let b = u.last();
        assert forall|i: int| 0 <= i < u.len() implies covered(g, #[trigger] u[i]) by {
            assert(u[i] == t[i]);
        }
        assert forall|i: int| 0 <= i < u.len() - 1 implies at(g, #[trigger] u[i]).is_zero()
            && adjacent(u[i], u[i + 1]) by {
            assert(u[i] == t[i]);
            assert(u[i + 1] == t[i + 1]);
        }
        assert(trail(g, u));
        assert(u[0] == t[0]);
        assert(reaches(g, from, b));
        assert(b == t[t.len() - 2]);
        assert(at(g, t[t.len() - 2]).is_zero() && adjacent(t[t.len() - 2], t[t.len() - 2 + 1]));
    }
}

/// Once every covered starting cell has been uncovered, and no uncovered cell that passes
/// uncovering on has a covered neighbour left, every cell on a trail has been uncovered.
pub proof fn lemma_trail_opened(g0: Grid, g: Grid, from: spec_fn(Cell) -> bool, t: Seq<Cell>)
    requires
        opened_since(g0, g),
        trail(g0, t),
        from(t[0]),
        forall|c: Cell| covered(g0, c) && from(c) ==> #[trigger] at(g, c).mode is Revealed,
        forall|c: Cell|
            covered(g0, c) && at(g0, c).is_zero() && (#[trigger] at(g, c)).mode is Revealed
                ==> cleared_around(g, c),
    ensures
        at(g, t.last()).mode is Revealed,
    decreases t.len(),
{
    if t.len() > 1 {
        let u = t.drop_last();
        assert forall|i: int| 0 <= i < u.len() implies covered(g0, #[trigger] u[i]) by {
            assert(u[i] == t[i]);
        }
        assert forall|i: int| 0 <= i < u.len() - 1 implies at(g0, #[trigger] u[i]).is_zero()
            && adjacent(u[i], u[i + 1]) by {
            assert(u[i] == t[i]);
            assert(u[i + 1] == t[i + 1]);
        }
        assert(u[0] == t[0]);
        lemma_trail_opened(g0, g, from, u);
        let b = t[t.len() - 2];
        let c = t[t.len() - 1];
        assert(u.last() == b);
        assert(covered(g0, b) && at(g0, b).is_zero() && adjacent(b, t[t.len() - 2 + 1]));
        assert(at(g, b).mode is Revealed);
        assert(cleared_around(g, b));
        assert(covered(g0, c));
        assert(inside(g, c));
        assert(!(at(g, c).mode is Hidden));
    } else {
        assert(covered(g0, t[0]));
    }
}

/// The cell `c` is among the cells that `pending` names.
pub open spec fn queued(pending: Seq<(usize, usize)>, c: Cell) -> bool {
    exists|i: int| 0 <= i < pending.len() && cell(#[trigger] pending[i]) == c
}

/// The state of a flood fill that began on `g0` and has come to `g`, with the cells in
/// `pending` uncovered but not yet looked at: nothing but reached cells has been
/// uncovered, every starting cell has been, and every uncovered cell that passes
/// uncovering on either waits in `pending` or has no covered neighbour left.
pub open spec fn spreading(
    g0: Grid,
    g: Grid,
    from: spec_fn(Cell) -> bool,
    pending: Seq<(usize, usize)>,
) -> bool {
    &&& opened_since(g0, g)
    &&& forall|c: Cell| inside(g0, c) && #[trigger] at(g, c) != at(g0, c) ==> reaches(g0, from, c)
    &&& forall|c: Cell| covered(g0, c) && from(c) ==> #[trigger] at(g, c).mode is Revealed
    &&& forall|c: Cell|
        covered(g0, c) && at(g0, c).is_zero() && (#[trigger] at(g, c)).mode is Revealed && !queued(
            pending,
            c,
        ) ==> cleared_around(g, c)
    &&& forall|i: int|
        0 <= i < pending.len() ==> covered(g0, cell(#[trigger] pending[i])) && at(
            g,
            cell(pending[i]),
        ).mode is Revealed
}

/// A flood fill with nothing pending has produced the spread of its starting cells.
pub proof fn lemma_spreading_done(g0: Grid, g: Grid, from: spec_fn(Cell) -> bool)
    requires
        rectangular(g0),
        spreading(g0, g, from, Seq::empty()),
    ensures
        g == spread(g0, from),
{
    let s = spread(g0, from);
    lemma_spread_shape(g0, from);
    assert forall|c: Cell| inside(g0, c) implies at(g, c) == at(s, c) by {
        if reaches(g0, from, c) {
            let t = choose|t: Seq<Cell>| #[trigger] trail(g0, t) && from(t[0]) && t.last() == c;
            assert forall|d: Cell|
                covered(g0, d) && at(g0, d).is_zero() && (#[trigger] at(g, d)).mode is Revealed
                implies cleared_around(g, d) by {
                assert(!queued(Seq::empty(), d));
            }
            lemma_trail_opened(g0, g, from, t);
            lemma_reaches_covered(g0, from, c);
        }
    }
    lemma_grids_equal(g, s);
}

/// Revealing changes no content: it uncovers tiles and does nothing else.
pub proof fn lemma_revealed_contents(g: Grid, c: Cell)
    requires
        rectangular(g),
    ensures
        rectangular(revealed(g, c)),
        same_contents(g, revealed(g, c)),
        opened_since(g, revealed(g, c)),
{
    lemma_spread_shape(g, begins(g, c));
    let r = revealed(g, c);
    assert forall|d: Cell| inside(g, d) implies #[trigger] at(r, d) == at(g, d) || (covered(g, d)
        && at(r, d) == at(g, d).opened()) by {
        if reaches(g, begins(g, c), d) {
            lemma_reaches_covered(g, begins(g, c), d);
        }
    }
}

/// Where uncovering starts at no covered cell, nothing changes.
pub proof fn lemma_spread_nowhere(g: Grid, from: spec_fn(Cell) -> bool)
    requires
        rectangular(g),
        forall|c: Cell| #[trigger] covered(g, c) ==> !from(c),
    ensures
        spread(g, from) == g,
{
    let s = spread(g, from);
    lemma_spread_shape(g, from);
    assert forall|c: Cell| inside(g, c) implies at(s, c) == at(g, c) by {
        if reaches(g, from, c) {
            let t = choose|t: Seq<Cell>| #[trigger] trail(g, t) && from(t[0]) && t.last() == c;
            assert(covered(g, t[0]));
        }
    }
    lemma_grids_equal(s, g);
}

/// Revealing a flagged tile changes nothing.
pub proof fn lemma_revealed_flagged(g: Grid, c: Cell)
    requires
        rectangular(g),
        at(g, c).mode is Flagged,
    ensures
        revealed(g, c) == g,
{
    lemma_spread_nowhere(g, begins(g, c));
}

/// Revealing an uncovered tile that has no covered neighbour changes nothing.
pub proof fn lemma_revealed_settled(g: Grid, c: Cell)
    requires
        rectangular(g),
        at(g, c).mode is Revealed,
        cleared_around(g, c),
    ensures
        revealed(g, c) == g,
{
    assert forall|d: Cell| #[trigger] covered(g, d) implies !begins(g, c)(d) by {
        if adjacent(c, d) {
            assert(!(at(g, d).mode is Hidden));
        }
    }
    lemma_spread_nowhere(g, begins(g, c));
}

/// Once a tile has been revealed, every tile without a mine beside it that the move
/// uncovered has no covered neighbour left, so that revealing it again changes nothing.
pub proof fn lemma_revealed_settles(g: Grid, c: Cell, d: Cell)
    requires
        rectangular(g),
        reaches(g, begins(g, c), d),
        at(g, d).is_zero(),
    ensures
        at(revealed(g, c), d).mode is Revealed,
        cleared_around(revealed(g, c), d),
        revealed(revealed(g, c), d) == revealed(g, c),
{
    let from = begins(g, c);
    let r = revealed(g, c);
    lemma_spread_shape(g, from);
    lemma_reaches_covered(g, from, d);
    assert forall|e: Cell| inside(r, e) && adjacent(d, e) implies !(#[trigger] at(
        r,
        e,
    ).mode is Hidden) by {
        if covered(g, e) {
            lemma_reaches_step(g, from, d, e);
        }
    }
    lemma_revealed_settled(r, d);
}

/// The chord: revealing an uncovered number uncovers every covered neighbour if as many
/// neighbours carry a flag as the number says, and changes nothing if not.
pub proof fn lemma_revealed_chord(g: Grid, c: Cell)
    requires
        rectangular(g),
        inside(g, c),
        at(g, c).mode is Revealed,
    ensures
        satisfied(g, c) ==> cleared_around(revealed(g, c), c) && forall|d: Cell|
            adjacent(c, d) && covered(g, d) ==> #[trigger] at(revealed(g, c), d) == at(
                g,
                d,
            ).opened(),
        !satisfied(g, c) ==> revealed(g, c) == g,
{
    let from = begins(g, c);
    let r = revealed(g, c);
    lemma_spread_shape(g, from);
    if satisfied(g, c) {
        assert forall|d: Cell| adjacent(c, d) && covered(g, d) implies #[trigger] at(r, d) == at(
            g,
            d,
        ).opened() by {
            lemma_reaches_start(g, from, d);
        }
        assert forall|d: Cell| inside(r, d) && adjacent(c, d) implies !(#[trigger] at(
            r,
            d,
        ).mode is Hidden) by {
            if covered(g, d) {
                lemma_reaches_start(g, from, d);
            }
        }
    } else {
        lemma_spread_nowhere(g, from);
    }
}

/// Revealing a covered tile that is no safe tile without a mine beside it, such as a
/// mine or a number, uncovers that tile and no other.
pub proof fn lemma_revealed_single(g: Grid, c: Cell)
    requires
        rectangular(g),
        covered(g, c),
        !at(g, c).is_zero(),
    ensures
        revealed(g, c) == put(g, c, at(g, c).opened()),
{
    let from = begins(g, c);
    let r = revealed(g, c);
    let p = put(g, c, at(g, c).opened());
    lemma_spread_shape(g, from);
    lemma_put(g, c, at(g, c).opened());
    lemma_reaches_start(g, from, c);
    assert forall|d: Cell| inside(g, d) implies at(r, d) == at(p, d) by {
        if d != c && reaches(g, from, d) {
            let t = choose|t: Seq<Cell>| #[trigger] trail(g, t) && from(t[0]) && t.last() == d;
            assert(t[0] == c);
            assert(t.len() > 1);
            assert(at(g, t[0]).is_zero());
        }
    }
    lemma_grids_equal(r, p);
}

/// Revealing the same tile twice is the same as revealing it once, unless the tile was a
/// covered number: then the second move is a chord.
pub proof fn lemma_revealed_twice(g: Grid, c: Cell)
    requires
        rectangular(g),
        inside(g, c),
        at(g, c).mode is Hidden ==> !(at(g, c).content matches TileContent::Field(n) && n > 0),
    ensures
        revealed(revealed(g, c), c) == revealed(g, c),
{
    let r = revealed(g, c);
    lemma_revealed_contents(g, c);
    match at(g, c).mode {
        TileMode::Flagged => {
            lemma_revealed_flagged(g, c);
        },
        TileMode::Revealed => {
            lemma_revealed_chord(g, c);
            if satisfied(g, c) {
                lemma_revealed_settled(r, c);
            }
        },
        TileMode::Hidden => {
            if at(g, c).is_zero() {
                lemma_reaches_start(g, begins(g, c), c);
                lemma_revealed_settles(g, c, c);
            } else {
                lemma_revealed_single(g, c);
                lemma_put(g, c, at(g, c).opened());
                assert(!satisfied(r, c));
                lemma_spread_nowhere(r, begins(r, c));
            }
        },
    }
}

/// Revealing neither sets a flag nor takes one off.
pub proof fn lemma_revealed_flags(g: Grid, c: Cell)
    requires
        rectangular(g),
    ensures
        census(revealed(g, c), Feature::Flagged) == census(g, Feature::Flagged),
{
    lemma_revealed_contents(g, c);
    lemma_census_agree(g, revealed(g, c), Feature::Flagged);
}

} // verus!
