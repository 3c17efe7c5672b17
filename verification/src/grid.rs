use vstd::prelude::*;
use crate::counting::count_if;
use crate::minesweeper::Tile;
use crate::point::{chebyshev, neighbors_seq, Point};

verus! {

/// Rank of a point in a row-major grid of the given width.
pub open spec fn grid_index(w: int, p: Point) -> int {
    p.y * w + p.x
}

/// Whether a point lies on a `w` by `h` board.
pub open spec fn on_board(w: int, h: int, p: Point) -> bool {
    p.x < w && p.y < h
}

/// The point of the given rank, inverting `grid_index`.
pub open spec fn point_of_index(w: int, i: int) -> Point {
    Point { x: (i % w) as usize, y: (i / w) as usize }
}

/// All points of a `w` by `h` board, in rank order.
pub open spec fn all_points(w: int, h: int) -> Seq<Point> {
    Seq::new((w * h) as nat, |i: int| point_of_index(w, i))
}

/// Whether the mine grid holds a mine at `q`; points off the board hold none.
pub open spec fn mine_at(mines: Seq<bool>, w: int, h: int, q: Point) -> bool {
    on_board(w, h, q) && mines[grid_index(w, q)]
}

/// The mine predicate as a closure, shared by every count over it.
pub open spec fn mine_pred(mines: Seq<bool>, w: int, h: int) -> spec_fn(Point) -> bool {
    |q: Point| mine_at(mines, w, h, q)
}

/// How many of a point's neighbors hold a mine.
#[verifier::opaque]
pub open spec fn adj_mines(mines: Seq<bool>, w: int, h: int, p: Point) -> int {
    count_if(neighbors_seq(p), mine_pred(mines, w, h))
}

/// The tile a point shows once revealed, derived from the mine grid alone.
pub open spec fn derived_tile(mines: Seq<bool>, w: int, h: int, p: Point) -> Tile {
    if mine_at(mines, w, h, p) {
        Tile::Mine
    } else if adj_mines(mines, w, h, p) == 0 {
        Tile::Empty
    } else {
        Tile::Hint(adj_mines(mines, w, h, p) as usize)
    }
}

/// Whether a point lies outside the opening kept clear around `c`,
/// as a closure shared by every count over it.
pub open spec fn outside_zone_pred(c: Point) -> spec_fn(Point) -> bool {
    |q: Point| chebyshev(q, c) > 1
}

/// The number of board cells at Chebyshev distance greater than one from `c`:
/// the cells still open to mines once the opening around `c` is kept clear.
pub open spec fn cells_outside_zone(w: int, h: int, c: Point) -> int {
    count_if(all_points(w, h), outside_zone_pred(c))
}

/// Counting mines point by point over the board equals counting the grid.
pub proof fn lemma_mine_count_lockstep(mines: Seq<bool>, w: int, h: int)
    requires
        0 < w <= usize::MAX,
        0 < h <= usize::MAX,
        mines.len() == w * h,
    ensures
        count_if(all_points(w, h), mine_pred(mines, w, h)) == count_if(
            mines,
            crate::counting::id_bool(),
        ),
{
    assert forall|i: int| 0 <= i < all_points(w, h).len() implies mine_pred(mines, w, h)(
        all_points(w, h)[i],
    ) == crate::counting::id_bool()(mines[i]) by {
        lemma_point_of_index(w, h, i);
    }
    crate::counting::lemma_count_if_lockstep(
        all_points(w, h),
        mines,
        mine_pred(mines, w, h),
        crate::counting::id_bool(),
    );
}

pub proof fn lemma_grid_index_bounds(w: int, h: int, p: Point)
    requires
        0 < w,
        0 < h,
        on_board(w, h, p),
    ensures
        0 <= grid_index(w, p) < w * h,
{
    assert(p.y * w + p.x < w * h) by (nonlinear_arith)
        requires
            0 < w,
            0 < h,
            0 <= p.x < w,
            0 <= p.y < h,
    ;
}

pub proof fn lemma_grid_index_injective(w: int, h: int, p: Point, q: Point)
    requires
        0 < w,
        on_board(w, h, p),
        on_board(w, h, q),
        grid_index(w, p) == grid_index(w, q),
    ensures
        p == q,
{
    assert(p.x == q.x && p.y == q.y) by (nonlinear_arith)
        requires
            0 < w,
            0 <= p.x < w,
            0 <= q.x < w,
            p.y * w + p.x == q.y * w + q.x,
    ;
}

pub proof fn lemma_point_of_index(w: int, h: int, i: int)
    requires
        0 < w <= usize::MAX,
        0 < h <= usize::MAX,
        0 <= i < w * h,
    ensures
        on_board(w, h, point_of_index(w, i)),
        grid_index(w, point_of_index(w, i)) == i,
{
    vstd::arithmetic::div_mod::lemma_fundamental_div_mod(i, w);
    assert(0 <= i % w < w) by (nonlinear_arith)
        requires
            0 < w,
    ;
    assert(0 <= i / w < h) by (nonlinear_arith)
        requires
            0 < w,
            0 < h,
            0 <= i < w * h,
    ;
    assert((i / w) * w + i % w == i) by (nonlinear_arith)
        requires
            0 < w,
            i == w * (i / w) + i % w,
    ;
}

} // verus!
