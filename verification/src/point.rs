use vstd::prelude::*;

verus! {

/// A non-negative 2D grid coordinate. The grid is clipped to the first
/// quadrant: there are no negative coordinates and no wraparound.
#[derive(Debug, Clone, Copy, PartialEq, Eq, Hash, PartialOrd, Ord, Structural)]
pub struct Point {
    pub x: usize,
    pub y: usize,
}

pub open spec fn abs_diff_int(a: int, b: int) -> int {
    if a >= b {
        a - b
    } else {
        b - a
    }
}

pub open spec fn max_int(a: int, b: int) -> int {
    if a >= b {
        a
    } else {
        b
    }
}

/// Chebyshev distance between two points.
pub open spec fn chebyshev(p: Point, q: Point) -> int {
    max_int(abs_diff_int(p.x as int, q.x as int), abs_diff_int(p.y as int, q.y as int))
}

/// Two points are adjacent when they are distinct and differ by at most one
/// in each coordinate, that is, when their Chebyshev distance is exactly one.
pub open spec fn is_adjacent(p: Point, q: Point) -> bool {
    chebyshev(p, q) == 1
}

/// The neighbor list of a point, in the order the executable `neighbors`
/// builds it: the three neighbors with larger coordinates first, then the
/// ones reached by stepping left or down where those exist.
pub open spec fn neighbors_seq(p: Point) -> Seq<Point> {
    let x = p.x;
    let y = p.y;
    let base = seq![
        Point { x: (x + 1) as usize, y },
        Point { x, y: (y + 1) as usize },
        Point { x: (x + 1) as usize, y: (y + 1) as usize },
    ];
    let left = if x > 0 {
        seq![Point { x: (x - 1) as usize, y }, Point { x: (x - 1) as usize, y: (y + 1) as usize }]
    } else {
        Seq::<Point>::empty()
    };
    let down = if y > 0 {
        seq![Point { x, y: (y - 1) as usize }, Point { x: (x + 1) as usize, y: (y - 1) as usize }]
    } else {
        Seq::<Point>::empty()
    };
    let diag = if x > 0 && y > 0 {
        seq![Point { x: (x - 1) as usize, y: (y - 1) as usize }]
    } else {
        Seq::<Point>::empty()
    };
    base + left + down + diag
}

/// The neighbor list holds exactly the points at Chebyshev distance one.
pub proof fn lemma_neighbors_adjacent(p: Point, q: Point)
    requires
        p.x < usize::MAX,
        p.y < usize::MAX,
    ensures
        neighbors_seq(p).contains(q) <==> is_adjacent(p, q),
{
    let s = neighbors_seq(p);
    if s.contains(q) {
        let i = choose|i: int| 0 <= i < s.len() && s[i] == q;
        assert(is_adjacent(p, s[i]));
    }
    if is_adjacent(p, q) {
        let x = p.x;
        let y = p.y;
        if q.x == x + 1 && q.y == y {
            assert(s[0] == q);
        } else if q.x == x && q.y == y + 1 {
            assert(s[1] == q);
        } else if q.x == x + 1 && q.y == y + 1 {
            assert(s[2] == q);
        } else if x > 0 && q.x == x - 1 && q.y == y {
            assert(s[3] == q);
        } else if x > 0 && q.x == x - 1 && q.y == y + 1 {
            assert(s[4] == q);
        } else if y > 0 && q.x == x && q.y == y - 1 {
            assert(s[if x > 0 { 5int } else { 3int }] == q);
        } else if y > 0 && q.x == x + 1 && q.y == y - 1 {
            assert(s[if x > 0 { 6int } else { 4int }] == q);
        } else {
            assert(x > 0 && y > 0 && q.x == x - 1 && q.y == y - 1);
            assert(s[7] == q);
        }
    }
}

impl Point {
    pub fn new(x: usize, y: usize) -> (r: Self)
        ensures
            r == (Point { x, y }),
    {
        Point { x, y }
    }

    /// All points of the half-open rectangle, column by column: the point
    /// of rank `k` is `(min_x + k / (max_y - min_y), min_y + k % (max_y - min_y))`.
    /// A reversed or empty range yields no points.
    pub fn iter_range(min_x: usize, max_x: usize, min_y: usize, max_y: usize) -> (r: Vec<Point>)
        requires
            min_x <= max_x && min_y <= max_y ==> (max_x - min_x) * (max_y - min_y) <= usize::MAX,
        ensures
            min_x <= max_x && min_y <= max_y ==> r@.len() == (max_x - min_x) * (max_y - min_y),
            min_x > max_x || min_y > max_y ==> r@.len() == 0,
            forall|k: int|
                0 <= k < r@.len() ==> #[trigger] r@[k] == (Point {
                    x: (min_x + k / (max_y - min_y)) as usize,
                    y: (min_y + k % (max_y - min_y)) as usize,
                }),
    {
        if max_x < min_x || max_y < min_y {
            return Vec::new();
        }
        let nx = max_x - min_x;
        let ny = max_y - min_y;
        let mut r: Vec<Point> = Vec::new();
        let mut x = min_x;
        while x < max_x
            invariant
                min_x <= x <= max_x,
                nx == max_x - min_x,
                ny == max_y - min_y,
                nx * ny <= usize::MAX,
                r@.len() == (x - min_x) * ny,
                forall|k: int|
                    0 <= k < r@.len() ==> #[trigger] r@[k] == (Point {
                        x: (min_x + k / (ny as int)) as usize,
                        y: (min_y + k % (ny as int)) as usize,
                    }),
            decreases max_x - x,
        {
            let mut y = min_y;
            proof {
                assert((x - min_x) * ny + ny <= nx * ny) by (nonlinear_arith)
                    requires
                        x < max_x,
                        nx == max_x - min_x,
                        0 <= ny,
                        0 <= x - min_x,
                ;
            }
            while y < max_y
                invariant
                    min_y <= y <= max_y,
                    min_x <= x < max_x,
                    nx == max_x - min_x,
                    ny == max_y - min_y,
                    (x - min_x) * ny + ny <= nx * ny,
                    nx * ny <= usize::MAX,
                    r@.len() == (x - min_x) * ny + (y - min_y),
                    forall|k: int|
                        0 <= k < r@.len() ==> #[trigger] r@[k] == (Point {
                            x: (min_x + k / (ny as int)) as usize,
                            y: (min_y + k % (ny as int)) as usize,
                        }),
                decreases max_y - y,
            {
                proof {
                    let k0 = r@.len() as int;
                    vstd::arithmetic::div_mod::lemma_fundamental_div_mod_converse(
                        k0,
                        ny as int,
                        x - min_x,
                        y - min_y,
                    );
                }
                r.push(Point { x, y });
                y = y + 1;
            }
            x = x + 1;
            proof {
                assert((x - min_x) * ny == (x - 1 - min_x) * ny + ny) by (nonlinear_arith);
            }
        }
        r
    }

    /// Taxicab distance: the two coordinate differences added together.
    pub fn dist_step(&self, other: &Point) -> (r: usize)
        requires
            abs_diff_int(self.x as int, other.x as int) + abs_diff_int(
                self.y as int,
                other.y as int,
            ) <= usize::MAX,
        ensures
            r == abs_diff_int(self.x as int, other.x as int) + abs_diff_int(
                self.y as int,
                other.y as int,
            ),
    {
        let dx = if self.x >= other.x {
            self.x - other.x
        } else {
            other.x - self.x
        };
        let dy = if self.y >= other.y {
            self.y - other.y
        } else {
            other.y - self.y
        };
        dx + dy
    }

    /// Chebyshev distance: the larger of the two coordinate differences.
    pub fn dist_max(&self, other: &Point) -> (r: usize)
        ensures
            r == chebyshev(*self, *other),
    {
        let dx = if self.x >= other.x {
            self.x - other.x
        } else {
            other.x - self.x
        };
        let dy = if self.y >= other.y {
            self.y - other.y
        } else {
            other.y - self.y
        };
        if dx >= dy {
            dx
        } else {
            dy
        }
    }

    /// The up to eight grid-adjacent points, clipped at the axes: neighbors
    /// that would need a negative coordinate are left out.
    pub fn neighbors(&self) -> (r: Vec<Point>)
        requires
            self.x < usize::MAX,
            self.y < usize::MAX,
        ensures
            r@ == neighbors_seq(*self),
    {
        let x = self.x;
        let y = self.y;
        let mut r: Vec<Point> = Vec::new();
        r.push(Point { x: x + 1, y });
        r.push(Point { x, y: y + 1 });
        r.push(Point { x: x + 1, y: y + 1 });
        if x > 0 {
            r.push(Point { x: x - 1, y });
            r.push(Point { x: x - 1, y: y + 1 });
        }
        if y > 0 {
            r.push(Point { x, y: y - 1 });
            r.push(Point { x: x + 1, y: y - 1 });
        }
        if x > 0 && y > 0 {
            r.push(Point { x: x - 1, y: y - 1 });
        }
        proof {
            assert(r@ =~= neighbors_seq(*self));
        }
        r
    }
}

} // verus!
