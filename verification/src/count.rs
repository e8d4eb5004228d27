//! Counting the cells of a `w` by `h` grid that satisfy a predicate on coordinates.
//!
//! Cells are visited column by column, `(0, 0), (0, 1), .., (0, h - 1), (1, 0), ..`, which is
//! the order every scan of a board uses.

use vstd::prelude::*;

verus! {

/// One if `b` holds, else zero.
pub open spec fn one_if(b: bool) -> nat {
    if b {
        1
    } else {
        0
    }
}

/// The number of cells `(x, 0), .., (x, h - 1)` that satisfy `p`.
pub open spec fn count_column(x: int, h: int, p: spec_fn(int, int) -> bool) -> nat
    decreases h,
{
    if h <= 0 {
        0
    } else {
        count_column(x, h - 1, p) + one_if(p(x, h - 1))
    }
}

/// The number of cells in columns `0, .., w - 1` and rows `0, .., h - 1` that satisfy `p`.
pub open spec fn count_cells(w: int, h: int, p: spec_fn(int, int) -> bool) -> nat
    decreases w,
{
    if w <= 0 {
        0
    } else {
        count_cells(w - 1, h, p) + count_column(w - 1, h, p)
    }
}

/// The number of cells that come before `(x, y)` in scan order and satisfy `p`.
pub open spec fn count_before(x: int, y: int, h: int, p: spec_fn(int, int) -> bool) -> nat {
    count_cells(x, h, p) + count_column(x, y, p)
}

/// A column holds no more satisfying cells than cells.
pub proof fn lemma_column_bound(x: int, h: int, p: spec_fn(int, int) -> bool)
    requires
        0 <= h,
    ensures
        count_column(x, h, p) <= h,
    decreases h,
{
    if h > 0 {
        lemma_column_bound(x, h - 1, p);
    }
}

/// A grid holds no more satisfying cells than cells.
pub proof fn lemma_cells_bound(w: int, h: int, p: spec_fn(int, int) -> bool)
    requires
        0 <= w,
        0 <= h,
    ensures
        count_cells(w, h, p) <= w * h,
    decreases w,
{
    if w > 0 {
        lemma_cells_bound(w - 1, h, p);
        lemma_column_bound(w - 1, h, p);
        assert((w - 1) * h + h == w * h) by (nonlinear_arith);
    } else {
        assert(w * h == 0) by (nonlinear_arith)
            requires
                w == 0,
        ;
    }
}

/// The cells before `(x, y)` are fewer than the cells of the grid.
pub proof fn lemma_before_bound(w: int, h: int, x: int, y: int)
    requires
        0 <= x < w,
        0 <= y < h,
    ensures
        0 <= x * h + y < w * h,
{
    assert(x * h + y < w * h) by (nonlinear_arith)
        requires
            0 <= x < w,
            0 <= y < h,
    ;
    assert(0 <= x * h) by (nonlinear_arith)
        requires
            0 <= x,
            0 <= h,
    ;
}

proof fn lemma_column_agree(
    x: int,
    h: int,
    p: spec_fn(int, int) -> bool,
    q: spec_fn(int, int) -> bool,
)
    requires
        forall|y: int| 0 <= y < h ==> #[trigger] p(x, y) == q(x, y),
    ensures
        count_column(x, h, p) == count_column(x, h, q),
    decreases h,
{
    if h > 0 {
        lemma_column_agree(x, h - 1, p, q);
    }
}

/// Predicates that agree on the grid count the same.
pub proof fn lemma_cells_agree(
    w: int,
    h: int,
    p: spec_fn(int, int) -> bool,
    q: spec_fn(int, int) -> bool,
)
    requires
        forall|x: int, y: int| 0 <= x < w && 0 <= y < h ==> #[trigger] p(x, y) == q(x, y),
    ensures
        count_cells(w, h, p) == count_cells(w, h, q),
    decreases w,
{
    if w > 0 {
        lemma_cells_agree(w - 1, h, p, q);
        lemma_column_agree(w - 1, h, p, q);
    }
}

proof fn lemma_column_differ(
    x: int,
    h: int,
    p: spec_fn(int, int) -> bool,
    q: spec_fn(int, int) -> bool,
    b: int,
)
    requires
        0 <= b < h,
        forall|y: int| 0 <= y < h && y != b ==> #[trigger] p(x, y) == q(x, y),
    ensures
        count_column(x, h, p) + one_if(q(x, b)) == count_column(x, h, q) + one_if(p(x, b)),
    decreases h,
{
    if h - 1 == b {
        lemma_column_agree(x, h - 1, p, q);
    } else {
        lemma_column_differ(x, h - 1, p, q, b);
    }
}

/// Predicates that agree everywhere but at `(a, b)` differ in their counts by what they
/// say of `(a, b)`.
pub proof fn lemma_cells_differ(
    w: int,
    h: int,
    p: spec_fn(int, int) -> bool,
    q: spec_fn(int, int) -> bool,
    a: int,
    b: int,
)
    requires
        0 <= a < w,
        0 <= b < h,
        forall|x: int, y: int|
            0 <= x < w && 0 <= y < h && (x != a || y != b) ==> #[trigger] p(x, y) == q(x, y),
    ensures
        count_cells(w, h, p) + one_if(q(a, b)) == count_cells(w, h, q) + one_if(p(a, b)),
    decreases w,
{
    if w - 1 == a {
        lemma_cells_agree(w - 1, h, p, q);
        lemma_column_differ(w - 1, h, p, q, b);
    } else {
        lemma_cells_differ(w - 1, h, p, q, a, b);
        lemma_column_agree(w - 1, h, p, q);
    }
}

proof fn lemma_column_none(x: int, h: int, p: spec_fn(int, int) -> bool)
    ensures
        count_column(x, h, p) == 0 <==> forall|y: int| 0 <= y < h ==> !#[trigger] p(x, y),
    decreases h,
{
    if h > 0 {
        lemma_column_none(x, h - 1, p);
        if count_column(x, h, p) == 0 {
            assert forall|y: int| 0 <= y < h implies !#[trigger] p(x, y) by {
                if y < h - 1 {
                }
            }
        }
    }
}

/// The count is zero exactly when no cell of the grid satisfies the predicate.
pub proof fn lemma_cells_none(w: int, h: int, p: spec_fn(int, int) -> bool)
    ensures
        count_cells(w, h, p) == 0 <==> forall|x: int, y: int|
            0 <= x < w && 0 <= y < h ==> !#[trigger] p(x, y),
    decreases w,
{
    if w > 0 {
        lemma_cells_none(w - 1, h, p);
        lemma_column_none(w - 1, h, p);
        if count_cells(w, h, p) == 0 {
            assert forall|x: int, y: int| 0 <= x < w && 0 <= y < h implies !#[trigger] p(x, y) by {
                if x < w - 1 {
                }
            }
        }
    }
}

proof fn lemma_column_split(
    x: int,
    h: int,
    p: spec_fn(int, int) -> bool,
    q: spec_fn(int, int) -> bool,
)
    requires
        0 <= h,
        forall|y: int| 0 <= y < h ==> #[trigger] p(x, y) == !q(x, y),
    ensures
        count_column(x, h, p) + count_column(x, h, q) == h,
    decreases h,
{
    if h > 0 {
        lemma_column_split(x, h - 1, p, q);
        assert(p(x, h - 1) == !q(x, h - 1));
    }
}

/// A predicate and its opposite count all the cells between them.
pub proof fn lemma_cells_split(
    w: int,
    h: int,
    p: spec_fn(int, int) -> bool,
    q: spec_fn(int, int) -> bool,
)
    requires
        0 <= w,
        0 <= h,
        forall|x: int, y: int| 0 <= x < w && 0 <= y < h ==> #[trigger] p(x, y) == !q(x, y),
    ensures
        count_cells(w, h, p) + count_cells(w, h, q) == w * h,
    decreases w,
{
    if w > 0 {
        lemma_cells_split(w - 1, h, p, q);
        lemma_column_split(w - 1, h, p, q);
        assert((w - 1) * h + h == w * h) by (nonlinear_arith);
    } else {
        assert(w * h == 0) by (nonlinear_arith)
            requires
                w == 0,
        ;
    }
}

proof fn lemma_column_grows(x: int, y1: int, y2: int, p: spec_fn(int, int) -> bool)
    requires
        y1 <= y2,
    ensures
        count_column(x, y1, p) <= count_column(x, y2, p),
        0 <= y1 < y2 && p(x, y1) ==> count_column(x, y1, p) < count_column(x, y2, p),
    decreases y2 - y1,
{
    if y1 < y2 {
        if y2 > 0 {
            lemma_column_grows(x, y1, y2 - 1, p);
        }
    }
}

proof fn lemma_cells_grow(x1: int, x2: int, h: int, p: spec_fn(int, int) -> bool)
    requires
        x1 <= x2,
    ensures
        count_cells(x1, h, p) <= count_cells(x2, h, p),
    decreases x2 - x1,
{
    if x1 < x2 {
        if x2 > 0 {
            lemma_cells_grow(x1, x2 - 1, h, p);
        }
    }
}

/// A satisfying cell has fewer satisfying cells before it than any cell that comes
/// later in scan order.
pub proof fn lemma_before_grows(
    x1: int,
    y1: int,
    x2: int,
    y2: int,
    h: int,
    p: spec_fn(int, int) -> bool,
)
    requires
        0 <= x1,
        0 <= y1 < h,
        0 <= y2 < h,
        x1 < x2 || (x1 == x2 && y1 < y2),
        p(x1, y1),
    ensures
        count_before(x1, y1, h, p) < count_before(x2, y2, h, p),
{
    if x1 < x2 {
        lemma_column_grows(x1, y1, h, p);
        lemma_cells_grow(x1 + 1, x2, h, p);
    } else {
        lemma_column_grows(x1, y1, y2, p);
    }
}

} // verus!
