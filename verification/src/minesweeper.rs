use vstd::prelude::*;
use crate::counting::{
    count_if, id_bool, is_some_pred, lemma_count_cover, lemma_count_if_all,
    lemma_count_if_bounds, lemma_count_if_full, lemma_count_if_le, lemma_count_if_none,
    lemma_count_if_take_full, lemma_count_if_take_step, lemma_count_if_update,
    lemma_count_if_zero,
};
use crate::grid::{
    adj_mines, all_points, cells_outside_zone, derived_tile, grid_index, lemma_grid_index_bounds,
    lemma_grid_index_injective, lemma_mine_count_lockstep, lemma_point_of_index, mine_at,
    mine_pred, on_board, outside_zone_pred, point_of_index,
};
use crate::point::{chebyshev, neighbors_seq, Point};

verus! {

/// What a cell shows. A revealed cell is `Empty` when no neighbor holds a
/// mine, `Hint(n)` when `n` of its up to eight neighbors do, and `Mine` when
/// it holds one itself. `Flag` only marks an unrevealed cell.
#[derive(Debug, PartialEq, Eq, PartialOrd, Ord, Hash, Clone, Copy, Structural)]
pub enum Tile {
    Empty,
    Mine,
    Hint(usize),
    Flag,
}

#[derive(Debug, PartialEq, Eq, PartialOrd, Ord, Hash, Clone, Copy, Structural)]
pub enum GameStatus {
    New,
    InProgress,
    Win,
    Loss,
}

#[derive(Debug, PartialEq, Eq, PartialOrd, Ord, Hash, Clone, Copy, Structural)]
pub enum GameAction {
    Reveal(Point),
    Flag(Point),
    Unflag(Point),
    ToggleFlag(Point),
}

#[derive(Debug, PartialEq, Eq, Clone, Copy, Structural)]
pub enum NewMinesweeperError {
    InvalidWidth,
    InvalidHeight,
    TooManyMines { area: usize, mines: usize },
}

/// A Minesweeper board. Mines, flags and revealed tiles are kept as
/// row-major grids over the `width` by `height` rectangle; mines are
/// placed lazily, on the first reveal.
#[derive(Debug)]
pub struct MineSweeper {
    width: usize,
    height: usize,
    mine_count: usize,
    status: GameStatus,
    mines: Vec<bool>,
    flags: Vec<bool>,
    revealed: Vec<Option<Tile>>,
    revealed_count: usize,
}

impl MineSweeper {
    pub closed spec fn sp_width(&self) -> int {
        self.width as int
    }

    pub closed spec fn sp_height(&self) -> int {
        self.height as int
    }

    pub closed spec fn sp_mine_count(&self) -> int {
        self.mine_count as int
    }

    pub closed spec fn sp_status(&self) -> GameStatus {
        self.status
    }

    /// The mine grid in rank order; true marks a mine.
    pub closed spec fn sp_mines(&self) -> Seq<bool> {
        self.mines@
    }

    /// The flag grid in rank order; true marks a flag.
    pub closed spec fn sp_flags(&self) -> Seq<bool> {
        self.flags@
    }

    /// The revealed grid in rank order; `Some` carries the shown tile.
    pub closed spec fn sp_revealed(&self) -> Seq<Option<Tile>> {
        self.revealed@
    }

    pub open spec fn sp_area(&self) -> int {
        self.sp_width() * self.sp_height()
    }

    pub open spec fn sp_valid(&self, p: Point) -> bool {
        on_board(self.sp_width(), self.sp_height(), p)
    }

    pub open spec fn sp_index(&self, p: Point) -> int {
        grid_index(self.sp_width(), p)
    }

    pub open spec fn sp_is_mine(&self, q: Point) -> bool {
        mine_at(self.sp_mines(), self.sp_width(), self.sp_height(), q)
    }

    pub open spec fn sp_is_flagged(&self, q: Point) -> bool {
        self.sp_valid(q) && self.sp_flags()[self.sp_index(q)]
    }

    /// The tile shown at `q`, or `None` while `q` is unrevealed or off board.
    pub open spec fn sp_revealed_tile(&self, q: Point) -> Option<Tile> {
        if self.sp_valid(q) {
            self.sp_revealed()[self.sp_index(q)]
        } else {
            None
        }
    }

    pub open spec fn sp_adj_mines(&self, p: Point) -> int {
        adj_mines(self.sp_mines(), self.sp_width(), self.sp_height(), p)
    }

    /// The tile a reveal of `p` would show, derived from the mines alone.
    pub open spec fn sp_derived_tile(&self, p: Point) -> Tile {
        derived_tile(self.sp_mines(), self.sp_width(), self.sp_height(), p)
    }

    pub open spec fn sp_num_mines(&self) -> int {
        count_if(self.sp_mines(), id_bool())
    }

    pub open spec fn sp_flag_count(&self) -> int {
        count_if(self.sp_flags(), id_bool())
    }

    pub open spec fn sp_revealed_count(&self) -> int {
        count_if(self.sp_revealed(), is_some_pred::<Tile>())
    }

    pub closed spec fn sp_count_field_ok(&self) -> bool {
        self.revealed_count as int == count_if(self.revealed@, is_some_pred::<Tile>())
    }

    /// The dimensions are positive, the area fits a machine word, and the
    /// three grids cover the board.
    pub open spec fn sp_dims_ok(&self) -> bool {
        &&& 0 < self.sp_width()
        &&& 0 < self.sp_height()
        &&& self.sp_area() <= usize::MAX
        &&& 0 <= self.sp_mine_count() <= self.sp_area()
        &&& self.sp_mines().len() == self.sp_area()
        &&& self.sp_flags().len() == self.sp_area()
        &&& self.sp_revealed().len() == self.sp_area()
    }

    /// Every revealed tile shows what the mine grid derives for its point.
    pub open spec fn tiles_truthful(&self) -> bool {
        forall|q: Point|
            (#[trigger] self.sp_revealed_tile(q)) is Some ==> self.sp_revealed_tile(q) == Some(
                self.sp_derived_tile(q),
            )
    }

    /// No flag stands on a revealed cell.
    pub open spec fn flags_unrevealed(&self) -> bool {
        forall|q: Point| #[trigger] self.sp_is_flagged(q) ==> self.sp_revealed_tile(q) is None
    }

    /// No mine has been revealed.
    pub open spec fn mines_unrevealed(&self) -> bool {
        forall|q: Point| #[trigger] self.sp_is_mine(q) ==> self.sp_revealed_tile(q) is None
    }

    /// The board invariant: every constructor establishes it and every
    /// mutation preserves it.
    pub open spec fn wf(&self) -> bool {
        &&& self.sp_dims_ok()
        &&& self.sp_count_field_ok()
        &&& (self.sp_status() is New ==> self.sp_num_mines() == 0 && (forall|q: Point|
            (#[trigger] self.sp_revealed_tile(q)) is None))
        &&& (!(self.sp_status() is New) ==> self.sp_num_mines() == self.sp_mine_count())
        &&& self.tiles_truthful()
        &&& self.flags_unrevealed()
        &&& (self.sp_status() is InProgress ==> self.mines_unrevealed())
        &&& (self.sp_status() is Win ==> forall|q: Point|
            self.sp_valid(q) && !self.sp_is_mine(q) ==> (#[trigger] self.sp_revealed_tile(
                q,
            )) is Some)
    }

    /// Every revealed empty tile has all of its valid, unflagged neighbors
    /// revealed as well: no flood fill has been cut short.
    pub open spec fn flood_closed(&self) -> bool {
        forall|p: Point, i: int|
            #![trigger self.sp_revealed_tile(p), neighbors_seq(p)[i]]
            self.sp_revealed_tile(p) == Some(Tile::Empty) && 0 <= i < neighbors_seq(p).len()
                && self.sp_valid(neighbors_seq(p)[i]) && !self.sp_is_flagged(neighbors_seq(p)[i])
                ==> self.sp_revealed_tile(neighbors_seq(p)[i]) is Some
    }

    /// Builds an empty board. Fails exactly on a zero dimension or on more
    /// mines than cells; on success the board is in status `New`, with no
    /// mines placed, nothing revealed and nothing flagged.
    pub fn new(width: usize, height: usize, mines: usize) -> (r: Result<
        Self,
        NewMinesweeperError,
    >)
        requires
            width * height <= usize::MAX,
        ensures
            width == 0 ==> r == Err::<MineSweeper, _>(NewMinesweeperError::InvalidWidth),
            width > 0 && height == 0 ==> r == Err::<MineSweeper, _>(
                NewMinesweeperError::InvalidHeight,
            ),
            width > 0 && height > 0 && mines > width * height ==> r == Err::<MineSweeper, _>(
                NewMinesweeperError::TooManyMines { area: (width * height) as usize, mines },
            ),
            width > 0 && height > 0 && mines <= width * height ==> (r matches Ok(b) && b.wf()
                && b.sp_width() == width && b.sp_height() == height && b.sp_mine_count() == mines
                && b.sp_status() is New && b.sp_flag_count() == 0 && b.sp_revealed_count() == 0
                && (forall|q: Point| !(#[trigger] b.sp_is_flagged(q))) && (forall|q: Point|
                (#[trigger] b.sp_revealed_tile(q)) is None) && (forall|q: Point|
                !(#[trigger] b.sp_is_mine(q))) && b.flood_closed()),
    {
        if width == 0 {
            return Err(NewMinesweeperError::InvalidWidth);
        } else if height == 0 {
            return Err(NewMinesweeperError::InvalidHeight);
        }
        proof {
            assert((height as int) * (width as int) == (width as int) * (height as int))
                by (nonlinear_arith);
        }
        let area = height * width;
        if area < mines {
            return Err(NewMinesweeperError::TooManyMines { area, mines });
        }
        let b = MineSweeper {
            height,
            width,
            status: GameStatus::New,
            mine_count: mines,
            mines: vec![false; area],
            flags: vec![false; area],
            revealed: vec![None; area],
            revealed_count: 0,
        };
        proof {
            lemma_count_if_zero(b.sp_mines(), id_bool());
            lemma_count_if_zero(b.sp_flags(), id_bool());
            lemma_count_if_zero(b.sp_revealed(), is_some_pred::<Tile>());
            assert forall|q: Point| !(#[trigger] b.sp_is_mine(q)) by {
                if b.sp_valid(q) {
                    lemma_grid_index_bounds(b.sp_width(), b.sp_height(), q);
                }
            }
            assert forall|q: Point| !(#[trigger] b.sp_is_flagged(q)) by {
                if b.sp_valid(q) {
                    lemma_grid_index_bounds(b.sp_width(), b.sp_height(), q);
                }
            }
            assert forall|q: Point| (#[trigger] b.sp_revealed_tile(q)) is None by {
                if b.sp_valid(q) {
                    lemma_grid_index_bounds(b.sp_width(), b.sp_height(), q);
                }
            }
        }
        Ok(b)
    }

    pub fn width(&self) -> (r: usize)
        ensures
            r as int == self.sp_width(),
    {
        self.width
    }

    pub fn height(&self) -> (r: usize)
        ensures
            r as int == self.sp_height(),
    {
        self.height
    }

    pub fn status(&self) -> (r: &GameStatus)
        ensures
            *r == self.sp_status(),
    {
        &self.status
    }

    /// All points of the board, column by column: the point of rank `k` is
    /// `(k / height, k mod height)`.
    pub fn points(&self) -> (r: Vec<Point>)
        requires
            self.sp_dims_ok(),
        ensures
            r@.len() == self.sp_area(),
            forall|k: int|
                0 <= k < r@.len() ==> #[trigger] r@[k] == (Point {
                    x: (k / self.sp_height()) as usize,
                    y: (k % self.sp_height()) as usize,
                }),
    {
        proof {
            assert((self.width as int) * (self.height as int) == (self.height as int) * (
            self.width as int)) by (nonlinear_arith);
        }
        Point::iter_range(0, self.width, 0, self.height)
    }

    /// The revealed grid in rank order: `Some(tile)` where a cell has been
    /// revealed, `None` where it has not.
    pub fn revealed(&self) -> (r: &Vec<Option<Tile>>)
        ensures
            r@ == self.sp_revealed(),
    {
        &self.revealed
    }

    /// The flag grid in rank order: true where a flag stands.
    pub fn flagged(&self) -> (r: &Vec<bool>)
        ensures
            r@ == self.sp_flags(),
    {
        &self.flags
    }

    pub fn is_valid_point(&self, point: &Point) -> (r: bool)
        ensures
            r == self.sp_valid(*point),
    {
        point.x < self.width && point.y < self.height
    }

    /// Ground-truth query: whether `point` holds a mine. Before the first
    /// reveal no cell does.
    pub fn is_mine(&self, point: &Point) -> (r: bool)
        requires
            self.sp_dims_ok(),
        ensures
            r == self.sp_is_mine(*point),
    {
        if point.x < self.width && point.y < self.height {
            let i = self.index_of(point);
            self.mines[i]
        } else {
            false
        }
    }

    fn index_of(&self, p: &Point) -> (i: usize)
        requires
            self.sp_dims_ok(),
            self.sp_valid(*p),
        ensures
            i as int == self.sp_index(*p),
            i < self.sp_area(),
    {
        proof {
            lemma_grid_index_bounds(self.sp_width(), self.sp_height(), *p);
        }
        p.y * self.width + p.x
    }

    fn count_adjacent_mines(&self, p: &Point) -> (n: usize)
        requires
            self.sp_dims_ok(),
            self.sp_valid(*p),
        ensures
            n as int == self.sp_adj_mines(*p),
            n <= 8,
    {
        let nb = p.neighbors();
        let ghost f = mine_pred(self.sp_mines(), self.sp_width(), self.sp_height());
        let mut n: usize = 0;
        let mut j: usize = 0;
        assert(nb@.len() <= 8);
        while j < nb.len()
            invariant
                j <= nb@.len() <= 8,
                n <= j,
                nb@ == neighbors_seq(*p),
                f == mine_pred(self.sp_mines(), self.sp_width(), self.sp_height()),
                self.sp_dims_ok(),
                n as int == count_if(nb@.take(j as int), f),
            decreases nb@.len() - j,
        {
            let q = nb[j];
            proof {
                lemma_count_if_take_step(nb@, f, j as int);
            }
            if q.x < self.width && q.y < self.height {
                let iq = self.index_of(&q);
                if self.mines[iq] {
                    n = n + 1;
                }
                assert(f(q) == self.sp_is_mine(q));
            } else {
                assert(!f(q));
            }
            j = j + 1;
        }
        proof {
            reveal(adj_mines);
            lemma_count_if_take_full(nb@, f);
        }
        n
    }

    /// The tile rule in full: a flagged cell shows `Flag`; any other cell
    /// shows what the mine grid derives for it.
    pub open spec fn sp_tile_rule(&self, p: Point) -> Tile {
        if self.sp_is_flagged(p) {
            Tile::Flag
        } else {
            self.sp_derived_tile(p)
        }
    }

    /// The tile a cell would show right now: `Flag` where a flag stands,
    /// else `Mine`, `Empty` or `Hint(n)` derived from the mine grid.
    pub fn get_tile(&self, point: &Point) -> (t: Tile)
        requires
            self.sp_dims_ok(),
            self.sp_valid(*point),
        ensures
            t == self.sp_tile_rule(*point),
    {
        let i = self.index_of(point);
        if self.flags[i] {
            Tile::Flag
        } else {
            self.tile_for(point)
        }
    }

    fn tile_for(&self, p: &Point) -> (t: Tile)
        requires
            self.sp_dims_ok(),
            self.sp_valid(*p),
        ensures
            t == self.sp_derived_tile(*p),
    {
        let i = self.index_of(p);
        if self.mines[i] {
            return Tile::Mine;
        }
        let n = self.count_adjacent_mines(p);
        proof {
            lemma_count_if_bounds(neighbors_seq(*p), mine_pred(self.sp_mines(), self.sp_width(), self.sp_height()));
        }
        if n == 0 {
            Tile::Empty
        } else {
            Tile::Hint(n)
        }
    }

    /// Scatters `mine_count` mines: first by uniform random draws that are
    /// rejected inside the opening around `starting_point`, then, if draws
    /// run out, by a deterministic sweep of the cells outside the opening,
    /// and only when the board has too few such cells by falling back to
    /// the cells of the opening itself, the starting point last of all.
    fn generate_mines(&mut self, starting_point: &Point)
        requires
            old(self).sp_dims_ok(),
            old(self).sp_status() is New,
            old(self).sp_num_mines() == 0,
            old(self).sp_valid(*starting_point),
        ensures
            final(self).sp_dims_ok(),
            final(self).sp_width() == old(self).sp_width(),
            final(self).sp_height() == old(self).sp_height(),
            final(self).sp_mine_count() == old(self).sp_mine_count(),
            final(self).sp_status() == old(self).sp_status(),
            final(self).sp_flags() == old(self).sp_flags(),
            final(self).sp_revealed() == old(self).sp_revealed(),
            old(self).sp_count_field_ok() ==> final(self).sp_count_field_ok(),
            final(self).sp_num_mines() == final(self).sp_mine_count(),
            cells_outside_zone(old(self).sp_width(), old(self).sp_height(), *starting_point) >= old(
                self,
            ).sp_mine_count() ==> (forall|q: Point|
                #[trigger] final(self).sp_is_mine(q) ==> chebyshev(q, *starting_point) > 1),
    {
        let ghost w = self.sp_width();
        let ghost h = self.sp_height();
        let c = *starting_point;
        let total = self.mine_count;
        let start_i = self.index_of(starting_point);
        let mut placed: usize = 0;
        let mut tries: usize = 0;
        proof {
            lemma_count_if_none(self.sp_mines(), id_bool());
            assert forall|q: Point| !(#[trigger] self.sp_is_mine(q)) by {
                if self.sp_valid(q) {
                    lemma_grid_index_bounds(w, h, q);
                }
            }
        }
        while placed < total && tries < RANDOM_PLACEMENT_TRIES
            invariant
                self.sp_dims_ok(),
                self.sp_width() == w,
                self.sp_height() == h,
                self.sp_valid(c),
                self.sp_mine_count() == total,
                self.sp_status() == old(self).sp_status(),
                self.sp_flags() == old(self).sp_flags(),
                self.sp_revealed() == old(self).sp_revealed(),
                self.sp_count_field_ok() == old(self).sp_count_field_ok(),
                c == *starting_point,
                start_i as int == grid_index(w, c),
                (start_i as int) < self.sp_area(),
                placed <= total,
                placed as int == self.sp_num_mines(),
                forall|q: Point| #[trigger] self.sp_is_mine(q) ==> chebyshev(q, c) > 1,
                !self.sp_mines()[start_i as int],
            decreases RANDOM_PLACEMENT_TRIES - tries,
        {
            tries = tries + 1;
            let rx = random_usize() % self.width;
            let ry = random_usize() % self.height;
            let p = Point { x: rx, y: ry };
            if p.dist_max(starting_point) > 1 {
                let i = self.index_of(&p);
                if !self.mines[i] {
                    proof {
                        if i as int == start_i as int {
                            lemma_grid_index_injective(w, h, p, c);
                        }
                    }
                    self.place_mine(i, Ghost(p), Ghost(c));
                    placed = placed + 1;
                }
            }
        }
        // Deterministic completion over the cells outside the opening.
        let area = self.width * self.height;
        let mut i: usize = 0;
        while placed < total && i < area
            invariant
                self.sp_dims_ok(),
                self.sp_width() == w,
                self.sp_height() == h,
                self.sp_valid(c),
                self.sp_mine_count() == total,
                self.sp_status() == old(self).sp_status(),
                self.sp_flags() == old(self).sp_flags(),
                self.sp_revealed() == old(self).sp_revealed(),
                self.sp_count_field_ok() == old(self).sp_count_field_ok(),
                c == *starting_point,
                start_i as int == grid_index(w, c),
                (start_i as int) < self.sp_area(),
                area as int == self.sp_area(),
                i <= area,
                placed <= total,
                placed as int == self.sp_num_mines(),
                forall|q: Point| #[trigger] self.sp_is_mine(q) ==> chebyshev(q, c) > 1,
                !self.sp_mines()[start_i as int],
                placed < total ==> (forall|j: int|
                    0 <= j < i && chebyshev(#[trigger] point_of_index(w, j), c) > 1
                        ==> self.sp_mines()[j]),
            decreases area - i,
        {
            let px = i % self.width;
            let py = i / self.width;
            let p = Point { x: px, y: py };
            proof {
                lemma_point_of_index(w, h, i as int);
                assert(p == point_of_index(w, i as int));
                assert(self.sp_index(p) == i as int);
            }
            if p.dist_max(starting_point) > 1 && !self.mines[i] {
                proof {
                    if i as int == start_i as int {
                        lemma_grid_index_injective(w, h, p, c);
                    }
                }
                self.place_mine(i, Ghost(p), Ghost(c));
                placed = placed + 1;
            }
            i = i + 1;
        }
        proof {
            if placed < total {
                assert forall|k: int|
                    0 <= k < all_points(w, h).len() implies (outside_zone_pred(c)(
                        #[trigger] all_points(w, h)[k],
                    ) ==> mine_pred(self.sp_mines(), w, h)(all_points(w, h)[k])) by {
                    if outside_zone_pred(c)(all_points(w, h)[k]) {
                        lemma_point_of_index(w, h, k);
                    }
                }
                lemma_count_if_le(
                    all_points(w, h),
                    outside_zone_pred(c),
                    mine_pred(self.sp_mines(), w, h),
                );
                lemma_mine_count_lockstep(self.sp_mines(), w, h);
                assert(cells_outside_zone(w, h, c) < total);
            }
        }
        let ghost room = cells_outside_zone(w, h, c) >= total;
        // Only a board whose opening leaves too few free cells gets here with
        // mines still owed; they go inside the opening, the start last.
        let mut i: usize = 0;
        while placed < total && i < area
            invariant
                self.sp_dims_ok(),
                self.sp_width() == w,
                self.sp_height() == h,
                self.sp_valid(c),
                self.sp_mine_count() == total,
                self.sp_status() == old(self).sp_status(),
                self.sp_flags() == old(self).sp_flags(),
                self.sp_revealed() == old(self).sp_revealed(),
                self.sp_count_field_ok() == old(self).sp_count_field_ok(),
                c == *starting_point,
                start_i as int == grid_index(w, c),
                (start_i as int) < self.sp_area(),
                area as int == self.sp_area(),
                i <= area,
                placed <= total,
                placed as int == self.sp_num_mines(),
                room ==> placed == total,
                room ==> (forall|q: Point| #[trigger] self.sp_is_mine(q) ==> chebyshev(q, c) > 1),
                !self.sp_mines()[start_i as int],
                placed < total ==> (forall|j: int|
                    0 <= j < i ==> self.sp_mines()[j] || j == start_i as int),
            decreases area - i,
        {
            let px = i % self.width;
            let py = i / self.width;
            let p = Point { x: px, y: py };
            proof {
                lemma_point_of_index(w, h, i as int);
                assert(p == point_of_index(w, i as int));
                assert(self.sp_index(p) == i as int);
            }
            if i != start_i && !self.mines[i] {
                self.place_mine_anywhere(i, Ghost(p));
                placed = placed + 1;
            }
            i = i + 1;
        }
        if placed < total {
            proof {
                let t = self.sp_mines().update(start_i as int, true);
                assert forall|k: int| 0 <= k < t.len() implies id_bool()(t[k]) by {
                    if k != start_i as int {
                        assert(self.sp_mines()[k]);
                    }
                }
                lemma_count_if_all(t, id_bool());
                lemma_count_if_update(self.sp_mines(), id_bool(), start_i as int, true);
                assert(placed as int == self.sp_area() - 1);
                assert(total as int == self.sp_area());
            }
            proof {
                lemma_point_of_index(w, h, start_i as int);
                assert(point_of_index(w, start_i as int) == c) by {
                    lemma_grid_index_injective(w, h, point_of_index(w, start_i as int), c);
                }
            }
            self.place_mine_anywhere(start_i, Ghost(c));
            placed = placed + 1;
        }
    }

    /// Marks the cell of rank `i`, which lies outside the opening around
    /// `c`, as a mine.
    fn place_mine(&mut self, i: usize, p: Ghost<Point>, c: Ghost<Point>)
        requires
            old(self).sp_dims_ok(),
            old(self).sp_valid(p@),
            i as int == old(self).sp_index(p@),
            !old(self).sp_mines()[i as int],
            chebyshev(p@, c@) > 1,
        ensures
            i < old(self).sp_mines().len(),
            final(self).sp_dims_ok(),
            *final(self) == (MineSweeper {
                mines: final(self).mines,
                ..*old(self)
            }),
            final(self).sp_mines() == old(self).sp_mines().update(i as int, true),
            final(self).sp_num_mines() == old(self).sp_num_mines() + 1,
            forall|q: Point|
                #[trigger] final(self).sp_is_mine(q) ==> old(self).sp_is_mine(q) || q == p@,
            final(self).sp_is_mine(p@),
            (forall|q: Point| #[trigger] old(self).sp_is_mine(q) ==> chebyshev(q, c@) > 1)
                ==> (forall|q: Point| #[trigger] final(self).sp_is_mine(q) ==> chebyshev(q, c@) > 1),
    {
        proof {
            lemma_grid_index_bounds(self.sp_width(), self.sp_height(), p@);
        }
        self.mines[i] = true;
        proof {
            lemma_count_if_update(old(self).sp_mines(), id_bool(), i as int, true);
            assert forall|q: Point| #[trigger] self.sp_is_mine(q) implies old(self).sp_is_mine(q)
                || q == p@ by {
                if self.sp_valid(q) {
                    lemma_grid_index_bounds(self.sp_width(), self.sp_height(), q);
                    if self.sp_index(q) == i as int {
                        lemma_grid_index_injective(self.sp_width(), self.sp_height(), q, p@);
                    }
                }
            }
        }
    }

    /// Marks the cell of rank `i` as a mine, wherever it lies.
    fn place_mine_anywhere(&mut self, i: usize, p: Ghost<Point>)
        requires
            old(self).sp_dims_ok(),
            old(self).sp_valid(p@),
            i as int == old(self).sp_index(p@),
            !old(self).sp_mines()[i as int],
        ensures
            i < old(self).sp_mines().len(),
            final(self).sp_dims_ok(),
            *final(self) == (MineSweeper {
                mines: final(self).mines,
                ..*old(self)
            }),
            final(self).sp_mines() == old(self).sp_mines().update(i as int, true),
            final(self).sp_num_mines() == old(self).sp_num_mines() + 1,
            forall|q: Point|
                #[trigger] final(self).sp_is_mine(q) ==> old(self).sp_is_mine(q) || q == p@,
            final(self).sp_is_mine(p@),
    {
        proof {
            lemma_grid_index_bounds(self.sp_width(), self.sp_height(), p@);
        }
        self.mines[i] = true;
        proof {
            lemma_count_if_update(old(self).sp_mines(), id_bool(), i as int, true);
            assert forall|q: Point| #[trigger] self.sp_is_mine(q) implies old(self).sp_is_mine(q)
                || q == p@ by {
                if self.sp_valid(q) {
                    lemma_grid_index_bounds(self.sp_width(), self.sp_height(), q);
                    if self.sp_index(q) == i as int {
                        lemma_grid_index_injective(self.sp_width(), self.sp_height(), q, p@);
                    }
                }
            }
        }
    }
}

/// How many uniform random draws mine placement spends before it falls back
/// to a deterministic sweep.
pub const RANDOM_PLACEMENT_TRIES: usize = 65536;

/// Relies on rand::random: one uniform draw from the thread-local generator.
/// Nothing is promised of the value.
#[verifier::external_body]
fn random_usize() -> usize {
    rand::random::<usize>()
}

/// What `flag_point` does: a flag appears at `point` exactly when the game
/// is still running and `point` is a valid, unflagged, unrevealed cell;
/// nothing else about the board moves.
pub open spec fn flag_post(pre: MineSweeper, post: MineSweeper, point: Point, changed: bool) -> bool {
    &&& changed == (!(pre.sp_status() is Win) && !(pre.sp_status() is Loss) && pre.sp_valid(point)
        && !pre.sp_is_flagged(point) && pre.sp_revealed_tile(point) is None)
    &&& (!changed ==> post == pre)
    &&& (changed ==> post.sp_flags() == pre.sp_flags().update(pre.sp_index(point), true))
    &&& (changed ==> post.sp_flag_count() == pre.sp_flag_count() + 1)
    &&& (changed ==> post.sp_is_flagged(point))
    &&& (forall|q: Point|
        q != point ==> #[trigger] post.sp_is_flagged(q) == pre.sp_is_flagged(q))
    &&& post.sp_width() == pre.sp_width()
    &&& post.sp_height() == pre.sp_height()
    &&& post.sp_mine_count() == pre.sp_mine_count()
    &&& post.sp_status() == pre.sp_status()
    &&& post.sp_mines() == pre.sp_mines()
    &&& post.sp_revealed() == pre.sp_revealed()
}

/// What `unflag_point` does: the flag at `point` goes away exactly when the
/// game is still running and `point` is a valid, flagged cell; nothing else
/// about the board moves.
pub open spec fn unflag_post(pre: MineSweeper, post: MineSweeper, point: Point, changed: bool) -> bool {
    &&& changed == (!(pre.sp_status() is Win) && !(pre.sp_status() is Loss) && pre.sp_is_flagged(
        point,
    ))
    &&& (!changed ==> post == pre)
    &&& (changed ==> post.sp_flags() == pre.sp_flags().update(pre.sp_index(point), false))
    &&& (changed ==> post.sp_flag_count() == pre.sp_flag_count() - 1)
    &&& (changed ==> !post.sp_is_flagged(point))
    &&& (forall|q: Point|
        q != point ==> #[trigger] post.sp_is_flagged(q) == pre.sp_is_flagged(q))
    &&& post.sp_width() == pre.sp_width()
    &&& post.sp_height() == pre.sp_height()
    &&& post.sp_mine_count() == pre.sp_mine_count()
    &&& post.sp_status() == pre.sp_status()
    &&& post.sp_mines() == pre.sp_mines()
    &&& post.sp_revealed() == pre.sp_revealed()
}

impl MineSweeper {
    /// Plants a flag. Rejected, reporting no change, once the game is over,
    /// off the board, on a revealed cell, or where a flag already stands.
    #[verifier::rlimit(50)]
    pub fn flag_point(&mut self, point: Point) -> (changed: bool)
        requires
            old(self).wf(),
        ensures
            final(self).wf(),
            flag_post(*old(self), *final(self), point, changed),
            old(self).flood_closed() ==> final(self).flood_closed(),
    {
        match self.status {
            GameStatus::Win | GameStatus::Loss => {
                return false;
            },
            _ => {},
        }
        if !(point.x < self.width && point.y < self.height) {
            return false;
        }
        let i = self.index_of(&point);
        if self.revealed[i].is_some() {
            return false;
        }
        if self.flags[i] {
            return false;
        }
        self.flags[i] = true;
        proof {
            let pre = *old(self);
            lemma_count_if_update(pre.sp_flags(), id_bool(), i as int, true);
            assert(self.sp_mines() == pre.sp_mines());
            assert(self.sp_revealed() == pre.sp_revealed());
            assert forall|q: Point| q != point implies #[trigger] self.sp_is_flagged(q)
                == pre.sp_is_flagged(q) by {
                if self.sp_valid(q) {
                    lemma_grid_index_bounds(self.sp_width(), self.sp_height(), q);
                    if self.sp_index(q) == self.sp_index(point) {
                        lemma_grid_index_injective(self.sp_width(), self.sp_height(), q, point);
                    }
                }
            }
            assert forall|q: Point| (#[trigger] self.sp_revealed_tile(q)) == pre.sp_revealed_tile(
                q,
            ) by {}
            assert forall|q: Point| (#[trigger] self.sp_derived_tile(q)) == pre.sp_derived_tile(
                q,
            ) by {}
            assert forall|q: Point| #[trigger] self.sp_is_flagged(q) implies self.sp_revealed_tile(
                q,
            ) is None by {
                if q != point {
                    assert(pre.sp_is_flagged(q));
                }
            }
            if pre.sp_status() is InProgress {
                assert forall|q: Point| #[trigger] self.sp_is_mine(q) implies self.sp_revealed_tile(
                    q,
                ) is None by {
                    assert(pre.sp_is_mine(q));
                    assert(pre.sp_revealed_tile(q) is None);
                }
            }
            if pre.flood_closed() {
                assert forall|p: Point, j: int|
                    #![trigger self.sp_revealed_tile(p), neighbors_seq(p)[j]]
                    self.sp_revealed_tile(p) == Some(Tile::Empty) && 0 <= j < neighbors_seq(
                        p,
                    ).len() && self.sp_valid(neighbors_seq(p)[j]) && !self.sp_is_flagged(
                        neighbors_seq(p)[j],
                    ) implies self.sp_revealed_tile(neighbors_seq(p)[j]) is Some by {
                    let nb = neighbors_seq(p)[j];
                    assert(!pre.sp_is_flagged(nb));
                    assert(pre.sp_revealed_tile(nb) is Some);
                }
            }
        }
        true
    }

    /// Removes a flag. Rejected, reporting no change, once the game is over
    /// or where no flag stands.
    #[verifier::rlimit(50)]
    pub fn unflag_point(&mut self, point: &Point) -> (changed: bool)
        requires
            old(self).wf(),
        ensures
            final(self).wf(),
            unflag_post(*old(self), *final(self), *point, changed),
    {
        match self.status {
            GameStatus::Win | GameStatus::Loss => {
                return false;
            },
            _ => {},
        }
        if !(point.x < self.width && point.y < self.height) {
            return false;
        }
        let i = self.index_of(point);
        if !self.flags[i] {
            return false;
        }
        self.flags[i] = false;
        proof {
            let pre = *old(self);
            lemma_count_if_update(pre.sp_flags(), id_bool(), i as int, false);
            assert(self.sp_mines() == pre.sp_mines());
            assert(self.sp_revealed() == pre.sp_revealed());
            assert forall|q: Point| q != point implies #[trigger] self.sp_is_flagged(q)
                == pre.sp_is_flagged(q) by {
                if self.sp_valid(q) {
                    lemma_grid_index_bounds(self.sp_width(), self.sp_height(), q);
                    if self.sp_index(q) == self.sp_index(*point) {
                        lemma_grid_index_injective(self.sp_width(), self.sp_height(), q, *point);
                    }
                }
            }
            assert forall|q: Point| (#[trigger] self.sp_revealed_tile(q)) == pre.sp_revealed_tile(
                q,
            ) by {}
            assert forall|q: Point| (#[trigger] self.sp_derived_tile(q)) == pre.sp_derived_tile(
                q,
            ) by {}
            assert forall|q: Point| #[trigger] self.sp_is_flagged(q) implies self.sp_revealed_tile(
                q,
            ) is None by {
                assert(pre.sp_is_flagged(q));
            }
            if pre.sp_status() is InProgress {
                assert forall|q: Point| #[trigger] self.sp_is_mine(q) implies self.sp_revealed_tile(
                    q,
                ) is None by {
                    assert(pre.sp_is_mine(q));
                    assert(pre.sp_revealed_tile(q) is None);
                }
            }
        }
        true
    }
}

/// A chain of successively neighboring cells from `from` to `to` that stays
/// on the board, avoids flags, and passes only through cells whose derived
/// tile is empty (the last cell alone may derive anything). These are
/// exactly the chains a flood fill can walk.
pub open spec fn flood_path(b: MineSweeper, path: Seq<Point>, from: Point, to: Point) -> bool {
    &&& path.len() > 0
    &&& path[0] == from
    &&& path[path.len() - 1] == to
    &&& (forall|k: int|
        0 <= k < path.len() - 1 ==> neighbors_seq(#[trigger] path[k]).contains(path[k + 1]))
    &&& (forall|k: int|
        0 <= k < path.len() ==> b.sp_valid(#[trigger] path[k]) && !b.sp_is_flagged(path[k]))
    &&& (forall|k: int|
        0 <= k < path.len() - 1 ==> b.sp_derived_tile(#[trigger] path[k]) == Tile::Empty)
}

/// Whether a flood fill that starts at `from` may reach `to`: some chain of
/// empty cells leads there. For `to != from` this forces the derived tile
/// of `from` itself to be empty, so a reveal of a hinted cell reveals that
/// one cell alone.
pub open spec fn flood_reaches(b: MineSweeper, from: Point, to: Point) -> bool {
    exists|path: Seq<Point>| flood_path(b, path, from, to)
}

/// Reachability reads only the dimensions, the mines and the flags, so it
/// carries between boards that agree on those.
proof fn lemma_flood_reaches_frame(a: MineSweeper, b: MineSweeper, from: Point, to: Point)
    requires
        b.sp_width() == a.sp_width(),
        b.sp_height() == a.sp_height(),
        b.sp_mines() == a.sp_mines(),
        b.sp_flags() == a.sp_flags(),
        flood_reaches(a, from, to),
    ensures
        flood_reaches(b, from, to),
{
    let path = choose|path: Seq<Point>| flood_path(a, path, from, to);
    assert forall|k: int|
        0 <= k < path.len() implies b.sp_valid(#[trigger] path[k]) && !b.sp_is_flagged(
        path[k],
    ) by {
        assert(a.sp_valid(path[k]) && !a.sp_is_flagged(path[k]));
    }
    assert forall|k: int|
        0 <= k < path.len() - 1 implies b.sp_derived_tile(#[trigger] path[k]) == Tile::Empty by {
        assert(a.sp_derived_tile(path[k]) == Tile::Empty);
    }
    assert(flood_path(b, path, from, to));
}

/// What `reveal` does. On a running game and a valid point: the first reveal
/// scatters the mines, keeping them out of the opening around `point`
/// whenever the board has room for that; a flagged or already revealed point
/// then changes nothing; otherwise `point` is revealed with its derived
/// tile — a mine ends the game at once and alone, anything else cascades
/// without ever revealing a mine, and wins exactly when every safe cell
/// stands revealed.
pub open spec fn reveal_post(
    pre: MineSweeper,
    post: MineSweeper,
    point: Point,
    changed: bool,
) -> bool {
    &&& post.sp_width() == pre.sp_width()
    &&& post.sp_height() == pre.sp_height()
    &&& post.sp_mine_count() == pre.sp_mine_count()
    &&& post.sp_flags() == pre.sp_flags()
    &&& ((pre.sp_status() is Win || pre.sp_status() is Loss) ==> post == pre && !changed)
    &&& ((pre.sp_status() is New || pre.sp_status() is InProgress) && !pre.sp_valid(point) ==> post
        == pre && !changed)
    &&& ((pre.sp_status() is New || pre.sp_status() is InProgress) && pre.sp_valid(point) ==> {
        &&& (pre.sp_status() is InProgress ==> post.sp_mines() == pre.sp_mines())
        &&& (pre.sp_status() is New ==> {
            &&& post.sp_num_mines() == pre.sp_mine_count()
            &&& !(post.sp_status() is New)
            &&& (cells_outside_zone(pre.sp_width(), pre.sp_height(), point)
                >= pre.sp_mine_count() ==> (forall|q: Point|
                #[trigger] post.sp_is_mine(q) ==> chebyshev(q, point) > 1))
        })
        &&& (forall|q: Point|
            (#[trigger] pre.sp_revealed_tile(q)) is Some ==> post.sp_revealed_tile(q)
                == pre.sp_revealed_tile(q))
        &&& ((pre.sp_is_flagged(point) || pre.sp_revealed_tile(point) is Some) ==> {
            &&& !changed
            &&& post.sp_revealed() == pre.sp_revealed()
            &&& post.sp_status() == (if pre.sp_status() is New {
                GameStatus::InProgress
            } else {
                pre.sp_status()
            })
        })
        &&& (!pre.sp_is_flagged(point) && pre.sp_revealed_tile(point) is None ==> {
            &&& changed
            &&& post.sp_revealed_tile(point) == Some(post.sp_derived_tile(point))
            &&& post.sp_revealed_count() > pre.sp_revealed_count()
            &&& (post.sp_is_mine(point) ==> post.sp_status() is Loss && (forall|q: Point|
                q != point ==> #[trigger] post.sp_revealed_tile(q) == (if pre.sp_status() is New {
                    None
                } else {
                    pre.sp_revealed_tile(q)
                })))
            &&& (!post.sp_is_mine(point) ==> {
                &&& (forall|q: Point|
                    #[trigger] post.sp_is_mine(q) ==> post.sp_revealed_tile(q) is None)
                &&& (forall|q: Point|
                    (#[trigger] post.sp_revealed_tile(q)) is Some && pre.sp_revealed_tile(
                        q,
                    ) is None ==> q == point || flood_reaches(post, point, q))
                &&& (post.sp_status() is Win <==> (forall|q: Point|
                    post.sp_valid(q) && !post.sp_is_mine(q) ==> (#[trigger] post.sp_revealed_tile(
                        q,
                    )) is Some))
                &&& (post.sp_status() is Win || post.sp_status() is InProgress)
            })
        })
    })
}

/// Reads as one step of the flood fill's bookkeeping: every empty tile that
/// this call has revealed so far either has each valid, unflagged neighbor
/// revealed already, or that neighbor still waits on the worklist.
#[verifier::opaque]
spec fn flood_pending(cur: MineSweeper, gen: MineSweeper, stack: Seq<Point>) -> bool {
    forall|p2: Point, j: int|
        #![trigger cur.sp_revealed_tile(p2), neighbors_seq(p2)[j]]
        (cur.sp_revealed_tile(p2) == Some(Tile::Empty) && gen.sp_revealed_tile(p2) is None && 0
            <= j < neighbors_seq(p2).len() && cur.sp_valid(neighbors_seq(p2)[j])
            && !cur.sp_is_flagged(neighbors_seq(p2)[j])) ==> (cur.sp_revealed_tile(
            neighbors_seq(p2)[j],
        ) is Some || stack.contains(neighbors_seq(p2)[j]))
}

/// Revealing one unrevealed, unflagged cell with its derived tile keeps the
/// board's pointwise invariants and changes no other cell.
proof fn lemma_reveal_cell(before: MineSweeper, after: MineSweeper, p: Point, t: Tile)
    requires
        before.sp_dims_ok(),
        before.sp_valid(p),
        after.sp_width() == before.sp_width(),
        after.sp_height() == before.sp_height(),
        after.sp_mines() == before.sp_mines(),
        after.sp_flags() == before.sp_flags(),
        after.sp_revealed() == before.sp_revealed().update(
            grid_index(before.sp_width(), p),
            Some(t),
        ),
        before.sp_revealed_tile(p) is None,
        !before.sp_is_flagged(p),
        t == before.sp_derived_tile(p),
        before.tiles_truthful(),
        before.flags_unrevealed(),
    ensures
        after.sp_revealed_tile(p) == Some(t),
        forall|q: Point|
            q != p ==> #[trigger] after.sp_revealed_tile(q) == before.sp_revealed_tile(q),
        after.tiles_truthful(),
        after.flags_unrevealed(),
        before.mines_unrevealed() && !before.sp_is_mine(p) ==> after.mines_unrevealed(),
{
    let w = before.sp_width();
    let h = before.sp_height();
    lemma_grid_index_bounds(w, h, p);
    assert forall|q: Point|
        q != p implies #[trigger] after.sp_revealed_tile(q) == before.sp_revealed_tile(q) by {
        if after.sp_valid(q) {
            lemma_grid_index_bounds(w, h, q);
            if grid_index(w, q) == grid_index(w, p) {
                lemma_grid_index_injective(w, h, q, p);
            }
        }
    }
    assert forall|q: Point|
        (#[trigger] after.sp_revealed_tile(q)) is Some implies after.sp_revealed_tile(q) == Some(
        after.sp_derived_tile(q),
    ) by {
        if q != p {
            assert(after.sp_revealed_tile(q) == before.sp_revealed_tile(q));
        }
        assert(after.sp_derived_tile(q) == before.sp_derived_tile(q));
    }
    assert forall|q: Point| #[trigger] after.sp_is_flagged(q) implies after.sp_revealed_tile(
        q,
    ) is None by {
        assert(before.sp_is_flagged(q));
        assert(q != p);
    }
    if before.mines_unrevealed() && !before.sp_is_mine(p) {
        assert forall|q: Point| #[trigger] after.sp_is_mine(q) implies after.sp_revealed_tile(
            q,
        ) is None by {
            assert(before.sp_is_mine(q));
            assert(q != p);
        }
    }
}

/// On a board where no mine is revealed and all mines are placed, the
/// revealed count reaches cells-minus-mines exactly when every safe cell
/// stands revealed.
proof fn lemma_win_equivalence(b: MineSweeper)
    requires
        b.sp_dims_ok(),
        b.mines_unrevealed(),
        b.sp_num_mines() == b.sp_mine_count(),
    ensures
        (b.sp_revealed_count() == b.sp_area() - b.sp_mine_count()) <==> (forall|q: Point|
            b.sp_valid(q) && !b.sp_is_mine(q) ==> (#[trigger] b.sp_revealed_tile(q)) is Some),
{
    let w = b.sp_width();
    let h = b.sp_height();
    assert forall|k: int|
        0 <= k < b.sp_revealed().len() implies ((#[trigger] b.sp_revealed()[k]) is Some
        ==> !b.sp_mines()[k]) by {
        if b.sp_revealed()[k] is Some {
            lemma_point_of_index(w, h, k);
            let q = point_of_index(w, k);
            assert(b.sp_revealed_tile(q) == b.sp_revealed()[k]);
            assert(!b.sp_is_mine(q));
        }
    }
    lemma_count_cover(b.sp_revealed(), b.sp_mines());
    if b.sp_revealed_count() == b.sp_area() - b.sp_mine_count() {
        assert forall|q: Point|
            b.sp_valid(q) && !b.sp_is_mine(q) implies (#[trigger] b.sp_revealed_tile(
            q,
        )) is Some by {
            lemma_grid_index_bounds(w, h, q);
            assert(b.sp_revealed()[b.sp_index(q)] is Some || b.sp_mines()[b.sp_index(q)]);
        }
    }
    if forall|q: Point|
        b.sp_valid(q) && !b.sp_is_mine(q) ==> (#[trigger] b.sp_revealed_tile(q)) is Some {
        assert forall|k: int|
            0 <= k < b.sp_revealed().len() implies ((#[trigger] b.sp_revealed()[k]) is Some
            || b.sp_mines()[k]) by {
            lemma_point_of_index(w, h, k);
            let q = point_of_index(w, k);
            if !b.sp_is_mine(q) {
                assert(b.sp_revealed_tile(q) is Some);
            }
        }
        assert(b.sp_revealed_count() == b.sp_area() - b.sp_mine_count());
    }
}

/// Revealing the worklist's last point keeps the pending flood obligations:
/// obligations aimed at it are now met, an empty tile's new obligations all
/// sit on the worklist, and every other pending point is still there.
proof fn reveal_step_keeps_pending(
    cur0: MineSweeper,
    cur: MineSweeper,
    stack0: Seq<Point>,
    stack: Seq<Point>,
    p: Point,
    t: Tile,
    gen: MineSweeper,
)
    requires
        stack0.len() > 0,
        p == stack0[stack0.len() - 1],
        cur.sp_width() == cur0.sp_width(),
        cur.sp_height() == cur0.sp_height(),
        cur.sp_flags() == cur0.sp_flags(),
        cur.sp_revealed_tile(p) == Some(t),
        forall|q: Point|
            q != p ==> #[trigger] cur.sp_revealed_tile(q) == cur0.sp_revealed_tile(q),
        t is Empty ==> stack == stack0.subrange(0, stack0.len() - 1) + neighbors_seq(p),
        !(t is Empty) ==> stack == stack0.subrange(0, stack0.len() - 1),
        flood_pending(cur0, gen, stack0),
    ensures
        flood_pending(cur, gen, stack),
{
    reveal(flood_pending);
    let sub = stack0.subrange(0, stack0.len() - 1);
    assert forall|p2: Point, j: int|
        #![trigger cur.sp_revealed_tile(p2), neighbors_seq(p2)[j]]
        (cur.sp_revealed_tile(p2) == Some(Tile::Empty) && gen.sp_revealed_tile(p2) is None && 0 <= j
            < neighbors_seq(p2).len() && cur.sp_valid(neighbors_seq(p2)[j]) && !cur.sp_is_flagged(
            neighbors_seq(p2)[j],
        )) implies (cur.sp_revealed_tile(neighbors_seq(p2)[j]) is Some || stack.contains(
            neighbors_seq(p2)[j],
        )) by {
        let q = neighbors_seq(p2)[j];
        if p2 == p {
            assert(t == Tile::Empty);
            assert(stack[sub.len() + j] == q);
        } else if !(cur.sp_revealed_tile(q) is Some) {
            assert(cur0.sp_revealed_tile(p2) == Some(Tile::Empty));
            assert(q != p);
            assert(cur0.sp_revealed_tile(q) is Some || stack0.contains(q));
            assert(stack0.contains(q));
            let k = choose|k: int| 0 <= k < stack0.len() && stack0[k] == q;
            assert(k < stack0.len() - 1);
            assert(stack[k] == q);
        }
    }
}

/// After the worklist has drained, the empty regions this call opened are
/// fully opened, so a board that was flood-closed before stays flood-closed.
proof fn lemma_flood_carryover(pre: MineSweeper, gen: MineSweeper, cur: MineSweeper)
    requires
        pre.flood_closed(),
        gen.sp_width() == pre.sp_width(),
        gen.sp_height() == pre.sp_height(),
        cur.sp_width() == pre.sp_width(),
        cur.sp_height() == pre.sp_height(),
        cur.sp_flags() == pre.sp_flags(),
        forall|q: Point|
            (#[trigger] gen.sp_revealed_tile(q)) is Some ==> cur.sp_revealed_tile(q)
                == gen.sp_revealed_tile(q),
        forall|q: Point|
            (#[trigger] gen.sp_revealed_tile(q)) is Some ==> pre.sp_revealed_tile(q)
                == gen.sp_revealed_tile(q),
        forall|q: Point|
            (#[trigger] pre.sp_revealed_tile(q)) is Some ==> gen.sp_revealed_tile(q)
                == pre.sp_revealed_tile(q),
        flood_pending(cur, gen, Seq::<Point>::empty()),
    ensures
        cur.flood_closed(),
{
    reveal(flood_pending);
    assert forall|p2: Point, j: int|
        #![trigger cur.sp_revealed_tile(p2), neighbors_seq(p2)[j]]
        (cur.sp_revealed_tile(p2) == Some(Tile::Empty) && 0 <= j < neighbors_seq(p2).len()
            && cur.sp_valid(neighbors_seq(p2)[j]) && !cur.sp_is_flagged(
            neighbors_seq(p2)[j],
        )) implies cur.sp_revealed_tile(neighbors_seq(p2)[j]) is Some by {
        let q = neighbors_seq(p2)[j];
        if gen.sp_revealed_tile(p2) is Some {
            assert(gen.sp_revealed_tile(p2) == cur.sp_revealed_tile(p2));
            assert(pre.sp_revealed_tile(p2) == Some(Tile::Empty));
            assert(!pre.sp_is_flagged(q));
            assert(pre.sp_revealed_tile(q) is Some);
            assert(gen.sp_revealed_tile(q) is Some);
            assert(cur.sp_revealed_tile(q) is Some);
        } else {
            assert(!Seq::<Point>::empty().contains(q));
        }
    }
}

/// The flood fill's working state: the board agrees with the snapshot taken
/// after mine generation on everything but newly revealed tiles, the
/// starting point is revealed, only safe cells sit on the worklist, and
/// every obligation of an opened empty tile is met or still queued.
spec fn flood_inv(
    cur: MineSweeper,
    gen: MineSweeper,
    point: Point,
    t0: Tile,
    stack: Seq<Point>,
) -> bool {
    &&& cur.sp_dims_ok()
    &&& cur.sp_count_field_ok()
    &&& cur.sp_width() == gen.sp_width()
    &&& cur.sp_height() == gen.sp_height()
    &&& cur.sp_mine_count() == gen.sp_mine_count()
    &&& cur.sp_mines() == gen.sp_mines()
    &&& cur.sp_flags() == gen.sp_flags()
    &&& cur.sp_status() is InProgress
    &&& cur.sp_num_mines() == cur.sp_mine_count()
    &&& cur.sp_revealed_count() <= cur.sp_area()
    &&& cur.sp_revealed_count() > gen.sp_revealed_count()
    &&& cur.sp_valid(point)
    &&& cur.sp_revealed_tile(point) == Some(t0)
    &&& gen.sp_revealed_tile(point) is None
    &&& (forall|q: Point|
        (#[trigger] gen.sp_revealed_tile(q)) is Some ==> cur.sp_revealed_tile(q)
            == gen.sp_revealed_tile(q))
    &&& cur.tiles_truthful()
    &&& cur.flags_unrevealed()
    &&& cur.mines_unrevealed()
    &&& (forall|k: int|
        0 <= k < stack.len() ==> (cur.sp_valid(#[trigger] stack[k]) ==> !cur.sp_is_mine(
            stack[k],
        )))
    &&& (forall|k: int|
        0 <= k < stack.len() ==> (cur.sp_valid(#[trigger] stack[k]) && !cur.sp_is_flagged(
            stack[k],
        ) ==> flood_reaches(gen, point, stack[k])))
    &&& (forall|q: Point|
        (#[trigger] cur.sp_revealed_tile(q)) is Some && gen.sp_revealed_tile(q) is None ==> q
            == point || flood_reaches(gen, point, q))
    &&& flood_pending(cur, gen, stack)
}

/// Two boards with the same dimensions and mine grid hold mines at the
/// same points.
proof fn lemma_mines_agree(a: MineSweeper, b: MineSweeper)
    requires
        b.sp_width() == a.sp_width(),
        b.sp_height() == a.sp_height(),
        b.sp_mines() == a.sp_mines(),
    ensures
        forall|q: Point| #[trigger] b.sp_is_mine(q) == a.sp_is_mine(q),
{
    assert forall|q: Point| #[trigger] b.sp_is_mine(q) == a.sp_is_mine(q) by {}
}

/// Two boards that agree on dimensions and on all three grids agree on
/// every per-point observation; only the status may differ.
proof fn lemma_status_frame(a: MineSweeper, b: MineSweeper)
    requires
        b.sp_width() == a.sp_width(),
        b.sp_height() == a.sp_height(),
        b.sp_mines() == a.sp_mines(),
        b.sp_flags() == a.sp_flags(),
        b.sp_revealed() == a.sp_revealed(),
    ensures
        forall|q: Point| #[trigger] b.sp_revealed_tile(q) == a.sp_revealed_tile(q),
        forall|q: Point| #[trigger] b.sp_is_mine(q) == a.sp_is_mine(q),
        forall|q: Point| #[trigger] b.sp_is_flagged(q) == a.sp_is_flagged(q),
        forall|q: Point| #[trigger] b.sp_derived_tile(q) == a.sp_derived_tile(q),
        a.tiles_truthful() ==> b.tiles_truthful(),
        a.flags_unrevealed() ==> b.flags_unrevealed(),
        a.mines_unrevealed() ==> b.mines_unrevealed(),
        a.flood_closed() ==> b.flood_closed(),
{
    assert forall|q: Point| #[trigger] b.sp_revealed_tile(q) == a.sp_revealed_tile(q) by {}
    assert forall|q: Point| #[trigger] b.sp_is_mine(q) == a.sp_is_mine(q) by {}
    assert forall|q: Point| #[trigger] b.sp_is_flagged(q) == a.sp_is_flagged(q) by {}
    assert forall|q: Point| #[trigger] b.sp_derived_tile(q) == a.sp_derived_tile(q) by {}
    if a.tiles_truthful() {
        assert forall|q: Point|
            (#[trigger] b.sp_revealed_tile(q)) is Some implies b.sp_revealed_tile(q) == Some(
            b.sp_derived_tile(q),
        ) by {
            assert(a.sp_revealed_tile(q) is Some);
        }
    }
    if a.flags_unrevealed() {
        assert forall|q: Point| #[trigger] b.sp_is_flagged(q) implies b.sp_revealed_tile(
            q,
        ) is None by {
            assert(a.sp_is_flagged(q));
        }
    }
    if a.mines_unrevealed() {
        assert forall|q: Point| #[trigger] b.sp_is_mine(q) implies b.sp_revealed_tile(
            q,
        ) is None by {
            assert(a.sp_is_mine(q));
        }
    }
    if a.flood_closed() {
        assert forall|p: Point, i: int|
            #![trigger b.sp_revealed_tile(p), neighbors_seq(p)[i]]
            b.sp_revealed_tile(p) == Some(Tile::Empty) && 0 <= i < neighbors_seq(p).len()
                && b.sp_valid(neighbors_seq(p)[i]) && !b.sp_is_flagged(
                neighbors_seq(p)[i],
            ) implies b.sp_revealed_tile(neighbors_seq(p)[i]) is Some by {
            let q = neighbors_seq(p)[i];
            assert(a.sp_revealed_tile(p) == Some(Tile::Empty));
            assert(!a.sp_is_flagged(q));
            assert(a.sp_revealed_tile(q) is Some);
        }
    }
}

impl MineSweeper {
    /// Handles one worklist point of the flood fill: reveals it if it is a
    /// valid, unflagged, unrevealed cell, and queues its neighbors when the
    /// revealed tile turns out empty.
    #[verifier::rlimit(100)]
    fn flood_visit(
        &mut self,
        p: Point,
        stack: &mut Vec<Point>,
        Ghost(gen): Ghost<MineSweeper>,
        Ghost(point): Ghost<Point>,
        Ghost(t0): Ghost<Tile>,
    )
        requires
            flood_inv(*old(self), gen, point, t0, old(stack)@.push(p)),
        ensures
            flood_inv(*final(self), gen, point, t0, final(stack)@),
            9 * (final(self).sp_area() - final(self).sp_revealed_count()) + final(stack)@.len() < 9
                * (old(self).sp_area() - old(self).sp_revealed_count()) + old(stack)@.len() + 1,
    {
        let ghost w = self.sp_width();
        let ghost h = self.sp_height();
        let ghost stack0 = old(stack)@.push(p);
        let ghost cur0 = *old(self);
        proof {
            assert(p == stack0[stack0.len() - 1]);
            assert(old(stack)@ == stack0.subrange(0, stack0.len() - 1)) by {
                assert(old(stack)@ =~= stack0.subrange(0, stack0.len() - 1));
            }
            assert forall|k: int|
                0 <= k < stack@.len() && self.sp_valid(#[trigger] stack@[k]) implies !self.sp_is_mine(
                stack@[k],
            ) by {
                assert(stack@[k] == stack0[k]);
            }
            assert forall|k: int|
                0 <= k < stack@.len() && self.sp_valid(#[trigger] stack@[k])
                    && !self.sp_is_flagged(stack@[k]) implies flood_reaches(
                gen,
                point,
                stack@[k],
            ) by {
                assert(stack@[k] == stack0[k]);
            }
        }
        if !(p.x < self.width && p.y < self.height) {
            proof {
                reveal_skip_keeps_pending(cur0, *self, stack0, stack@, p, gen);
            }
            return ;
        }
        let ip = self.index_of(&p);
        if self.flags[ip] {
            proof {
                reveal_skip_keeps_pending(cur0, *self, stack0, stack@, p, gen);
            }
            return ;
        }
        if self.revealed[ip].is_some() {
            proof {
                reveal_skip_keeps_pending(cur0, *self, stack0, stack@, p, gen);
            }
            return ;
        }
        proof {
            assert(self.sp_valid(p) ==> !self.sp_is_mine(p)) by {
                assert(stack0[stack0.len() - 1] == p);
            }
            lemma_count_if_bounds(self.sp_revealed(), is_some_pred::<Tile>());
            assert(self.sp_revealed_count() < self.sp_area()) by {
                if self.sp_revealed_count() == self.sp_area() {
                    lemma_count_if_full(self.sp_revealed(), is_some_pred::<Tile>());
                    assert(is_some_pred::<Tile>()(self.sp_revealed()[ip as int]));
                }
            }
        }
        let t = self.tile_for(&p);
        let ghost before = *self;
        self.revealed[ip] = Some(t);
        self.revealed_count = self.revealed_count + 1;
        proof {
            lemma_count_if_update(before.sp_revealed(), is_some_pred::<Tile>(), ip as int, Some(t));
            lemma_reveal_cell(before, *self, p, t);
            assert(t != Tile::Mine);
            assert forall|q: Point|
                (#[trigger] gen.sp_revealed_tile(q)) is Some implies self.sp_revealed_tile(q)
                == gen.sp_revealed_tile(q) by {
                assert(q != p);
            }
            assert(self.sp_revealed_tile(point) == Some(t0)) by {
                assert(point != p);
            }
            assert(flood_reaches(gen, point, p)) by {
                assert(stack0[stack0.len() - 1] == p);
                assert(cur0.sp_valid(p) && !cur0.sp_is_flagged(p));
            }
            assert forall|q: Point|
                (#[trigger] self.sp_revealed_tile(q)) is Some && gen.sp_revealed_tile(
                    q,
                ) is None implies q == point || flood_reaches(gen, point, q) by {
                if q != p {
                    assert(cur0.sp_revealed_tile(q) == self.sp_revealed_tile(q));
                }
            }
        }
        let is_empty = match t {
            Tile::Empty => true,
            _ => false,
        };
        if is_empty {
            let ghost stack1 = stack@;
            let mut nb = p.neighbors();
            let ghost nbs = nb@;
            stack.append(&mut nb);
            proof {
                assert(stack@ == stack1 + nbs);
                assert(nbs == neighbors_seq(p));
                assert(self.sp_adj_mines(p) == 0);
                reveal(adj_mines);
                lemma_count_if_none(neighbors_seq(p), mine_pred(self.sp_mines(), w, h));
                assert forall|k: int|
                    0 <= k < stack@.len() && self.sp_valid(
                        #[trigger] stack@[k],
                    ) implies !self.sp_is_mine(stack@[k]) by {
                    if k < stack1.len() {
                        assert(stack@[k] == stack1[k]);
                        assert(stack1[k] == stack0[k]);
                    } else {
                        assert(stack@[k] == neighbors_seq(p)[k - stack1.len()]);
                        assert(!mine_pred(self.sp_mines(), w, h)(
                            neighbors_seq(p)[k - stack1.len()],
                        ));
                    }
                }
                assert forall|k: int|
                    0 <= k < stack@.len() && self.sp_valid(#[trigger] stack@[k])
                        && !self.sp_is_flagged(stack@[k]) implies flood_reaches(
                    gen,
                    point,
                    stack@[k],
                ) by {
                    if k < stack1.len() {
                        assert(stack@[k] == stack1[k]);
                        assert(stack1[k] == stack0[k]);
                    } else {
                        let s = stack@[k];
                        assert(s == neighbors_seq(p)[k - stack1.len()]);
                        assert(neighbors_seq(p).contains(s));
                        let path_p = choose|path: Seq<Point>| flood_path(gen, path, point, p);
                        let path_s = path_p.push(s);
                        assert(gen.sp_derived_tile(p) == Tile::Empty);
                        assert forall|m: int|
                            0 <= m < path_s.len() - 1 implies neighbors_seq(
                            #[trigger] path_s[m],
                        ).contains(path_s[m + 1]) by {
                            if m < path_p.len() - 1 {
                                assert(path_s[m] == path_p[m]);
                                assert(path_s[m + 1] == path_p[m + 1]);
                            } else {
                                assert(path_s[m] == path_p[path_p.len() - 1]);
                            }
                        }
                        assert forall|m: int|
                            0 <= m < path_s.len() implies gen.sp_valid(#[trigger] path_s[m])
                            && !gen.sp_is_flagged(path_s[m]) by {
                            if m < path_p.len() {
                                assert(path_s[m] == path_p[m]);
                            } else {
                                assert(path_s[m] == s);
                            }
                        }
                        assert forall|m: int|
                            0 <= m < path_s.len() - 1 implies gen.sp_derived_tile(
                            #[trigger] path_s[m],
                        ) == Tile::Empty by {
                            if m < path_p.len() - 1 {
                                assert(path_s[m] == path_p[m]);
                            } else {
                                assert(path_s[m] == path_p[path_p.len() - 1]);
                            }
                        }
                        assert(flood_path(gen, path_s, point, s));
                    }
                }
                reveal_step_keeps_pending(cur0, *self, stack0, stack@, p, t, gen);
            }
        } else {
            proof {
                reveal_step_keeps_pending(cur0, *self, stack0, stack@, p, t, gen);
            }
        }
    }

    /// Reveals a point. The first reveal places the mines and starts the
    /// game; revealing an empty tile floods its whole region; revealing a
    /// mine loses the game; a reveal that uncovers the last safe cell wins
    /// it. Returns whether any tile became revealed.
    #[verifier::rlimit(100)]
    pub fn reveal_point(&mut self, point: Point) -> (changed: bool)
        requires
            old(self).wf(),
        ensures
            final(self).wf(),
            reveal_post(*old(self), *final(self), point, changed),
            old(self).flood_closed() ==> final(self).flood_closed(),
    {
        let ghost pre = *old(self);
        let ghost w = self.sp_width();
        let ghost h = self.sp_height();
        match self.status {
            GameStatus::Win | GameStatus::Loss => {
                return false;
            },
            _ => {},
        }
        if !(point.x < self.width && point.y < self.height) {
            return false;
        }
        if let GameStatus::New = self.status {
            self.generate_mines(&point);
            let ghost g0 = *self;
            self.status = GameStatus::InProgress;
            proof {
                assert forall|q: Point| (#[trigger] self.sp_revealed_tile(q)) is None by {
                    assert(pre.sp_revealed_tile(q) is None);
                }
                if cells_outside_zone(w, h, point) >= pre.sp_mine_count() {
                    assert forall|q: Point| #[trigger] self.sp_is_mine(q) implies chebyshev(
                        q,
                        point,
                    ) > 1 by {
                        assert(g0.sp_is_mine(q));
                    }
                }
            }
        }
        let ghost gen = *self;
        proof {
            assert(gen.sp_status() is InProgress);
            assert(gen.sp_revealed() == pre.sp_revealed());
            assert forall|q: Point|
                (#[trigger] gen.sp_revealed_tile(q)) is Some implies gen.sp_revealed_tile(q)
                == Some(gen.sp_derived_tile(q)) by {
                if pre.sp_status() is InProgress {
                    assert(gen.sp_revealed_tile(q) == pre.sp_revealed_tile(q));
                    assert(gen.sp_derived_tile(q) == pre.sp_derived_tile(q));
                } else {
                    assert(pre.sp_revealed_tile(q) is None);
                }
            }
            assert(gen.tiles_truthful());
            assert(gen.flags_unrevealed());
            assert(gen.mines_unrevealed());
        }
        let i0 = self.index_of(&point);
        if self.flags[i0] {
            return false;
        }
        if self.revealed[i0].is_some() {
            return false;
        }
        let t0 = self.tile_for(&point);
        proof {
            lemma_count_if_bounds(self.sp_revealed(), is_some_pred::<Tile>());
            assert(self.sp_revealed_count() < self.sp_area()) by {
                if self.sp_revealed_count() == self.sp_area() {
                    lemma_count_if_full(self.sp_revealed(), is_some_pred::<Tile>());
                    assert(is_some_pred::<Tile>()(self.sp_revealed()[i0 as int]));
                }
            }
        }
        self.revealed[i0] = Some(t0);
        self.revealed_count = self.revealed_count + 1;
        proof {
            lemma_count_if_update(gen.sp_revealed(), is_some_pred::<Tile>(), i0 as int, Some(t0));
            lemma_reveal_cell(gen, *self, point, t0);
            assert forall|q: Point|
                (#[trigger] self.sp_revealed_tile(q)) is Some && gen.sp_revealed_tile(
                    q,
                ) is None implies q == point || flood_reaches(gen, point, q) by {
                if q != point {
                    assert(self.sp_revealed_tile(q) == gen.sp_revealed_tile(q));
                }
            }
        }
        if let Tile::Mine = t0 {
            let ghost hit = *self;
            self.status = GameStatus::Loss;
            proof {
                lemma_status_frame(hit, *self);
                lemma_mines_agree(gen, *self);
                if pre.sp_status() is New && cells_outside_zone(w, h, point)
                    >= pre.sp_mine_count() {
                    assert forall|q: Point| #[trigger] self.sp_is_mine(q) implies chebyshev(
                        q,
                        point,
                    ) > 1 by {
                        assert(gen.sp_is_mine(q));
                    }
                }
            }
            return true;
        }
        proof {
            assert(!gen.sp_is_mine(point));
            assert(self.mines_unrevealed());
        }
        let mut stack: Vec<Point> = Vec::new();
        if let Tile::Empty = t0 {
            let mut nb = point.neighbors();
            stack.append(&mut nb);
            proof {
                reveal(adj_mines);
                lemma_count_if_none(neighbors_seq(point), mine_pred(self.sp_mines(), w, h));
            }
        }
        proof {
            assert forall|k: int|
                0 <= k < stack@.len() && self.sp_valid(
                    #[trigger] stack@[k],
                ) implies !self.sp_is_mine(stack@[k]) by {
                assert(!mine_pred(self.sp_mines(), w, h)(neighbors_seq(point)[k]));
            }
            assert forall|k: int|
                0 <= k < stack@.len() && self.sp_valid(#[trigger] stack@[k])
                    && !self.sp_is_flagged(stack@[k]) implies flood_reaches(
                gen,
                point,
                stack@[k],
            ) by {
                let s = stack@[k];
                assert(s == neighbors_seq(point)[k]);
                assert(neighbors_seq(point).contains(s));
                let path_s = seq![point, s];
                assert(path_s.len() == 2 && path_s[0] == point && path_s[1] == s);
                assert(gen.sp_valid(point) && !gen.sp_is_flagged(point));
                assert(gen.sp_derived_tile(point) == Tile::Empty);
                assert(gen.sp_valid(s) && !gen.sp_is_flagged(s));
                assert(flood_path(gen, path_s, point, s));
            }
            assert(flood_pending(*self, gen, stack@)) by {
                reveal(flood_pending);
            }
            assert(flood_inv(*self, gen, point, t0, stack@));
        }
        while stack.len() > 0
            invariant
                flood_inv(*self, gen, point, t0, stack@),
            decreases 9 * (self.sp_area() - self.sp_revealed_count()) + stack@.len(),
        {
            let ghost prev = stack@;
            let p = stack.pop().unwrap();
            proof {
                assert(stack@.push(p) =~= prev);
            }
            self.flood_visit(p, &mut stack, Ghost(gen), Ghost(point), Ghost(t0));
        }
        let ghost mid = *self;
        proof {
            lemma_win_equivalence(mid);
            assert forall|q: Point|
                (#[trigger] pre.sp_revealed_tile(q)) is Some implies mid.sp_revealed_tile(q)
                == pre.sp_revealed_tile(q) by {
                assert(gen.sp_revealed_tile(q) == pre.sp_revealed_tile(q));
            }
            if pre.flood_closed() {
                assert forall|q: Point|
                    (#[trigger] gen.sp_revealed_tile(q)) is Some implies pre.sp_revealed_tile(q)
                    == gen.sp_revealed_tile(q) by {}
                assert forall|q: Point|
                    (#[trigger] pre.sp_revealed_tile(q)) is Some implies gen.sp_revealed_tile(q)
                    == pre.sp_revealed_tile(q) by {}
                assert(stack@ =~= Seq::<Point>::empty());
                assert(flood_pending(mid, gen, Seq::<Point>::empty()));
                lemma_flood_carryover(pre, gen, mid);
            }
        }
        let area = self.width * self.height;
        if self.revealed_count == area - self.mine_count {
            self.status = GameStatus::Win;
        }
        proof {
            lemma_status_frame(mid, *self);
            lemma_mines_agree(gen, *self);
            if pre.sp_status() is New && cells_outside_zone(w, h, point) >= pre.sp_mine_count() {
                assert forall|q: Point| #[trigger] self.sp_is_mine(q) implies chebyshev(
                    q,
                    point,
                ) > 1 by {
                    assert(gen.sp_is_mine(q));
                }
            }
            assert forall|q: Point|
                (#[trigger] self.sp_revealed_tile(q)) is Some && pre.sp_revealed_tile(
                    q,
                ) is None implies q == point || flood_reaches(*self, point, q) by {
                assert(mid.sp_revealed_tile(q) == self.sp_revealed_tile(q));
                assert(gen.sp_revealed_tile(q) == pre.sp_revealed_tile(q));
                if q != point {
                    assert(flood_reaches(gen, point, q));
                    lemma_flood_reaches_frame(gen, *self, point, q);
                }
            }
        }
        true
    }
}

/// A skipped worklist entry keeps the pending flood obligations: the point
/// was off the board, flagged, or already revealed, so nothing is owed for
/// it, and every other pending point is still on the worklist.
proof fn reveal_skip_keeps_pending(
    cur0: MineSweeper,
    cur: MineSweeper,
    stack0: Seq<Point>,
    stack: Seq<Point>,
    p: Point,
    gen: MineSweeper,
)
    requires
        cur == cur0,
        stack0.len() > 0,
        p == stack0[stack0.len() - 1],
        stack == stack0.subrange(0, stack0.len() - 1),
        !cur0.sp_valid(p) || cur0.sp_is_flagged(p) || cur0.sp_revealed_tile(p) is Some,
        flood_pending(cur0, gen, stack0),
    ensures
        flood_pending(cur, gen, stack),
{
    reveal(flood_pending);
    assert forall|p2: Point, j: int|
        #![trigger cur.sp_revealed_tile(p2), neighbors_seq(p2)[j]]
        (cur.sp_revealed_tile(p2) == Some(Tile::Empty) && gen.sp_revealed_tile(p2) is None && 0 <= j
            < neighbors_seq(p2).len() && cur.sp_valid(neighbors_seq(p2)[j]) && !cur.sp_is_flagged(
            neighbors_seq(p2)[j],
        )) implies (cur.sp_revealed_tile(neighbors_seq(p2)[j]) is Some || stack.contains(
            neighbors_seq(p2)[j],
        )) by {
        let q = neighbors_seq(p2)[j];
        if !(cur.sp_revealed_tile(q) is Some) {
            assert(stack0.contains(q));
            if q == p {
                assert(cur0.sp_valid(q) && !cur0.sp_is_flagged(q));
                assert(cur0.sp_revealed_tile(q) is Some);
            } else {
                let k = choose|k: int| 0 <= k < stack0.len() && stack0[k] == q;
                assert(stack[k] == q);
            }
        }
    }
}


impl MineSweeper {
    /// Removes the flag at `point` if one stands there, else plants one.
    /// Rejected once the game is over; reports whether anything changed.
    pub fn toggle_flag(&mut self, point: &Point) -> (changed: bool)
        requires
            old(self).wf(),
        ensures
            final(self).wf(),
            old(self).sp_is_flagged(*point) ==> unflag_post(
                *old(self),
                *final(self),
                *point,
                changed,
            ),
            !old(self).sp_is_flagged(*point) ==> flag_post(*old(self), *final(self), *point, changed),
    {
        if self.unflag_point(point) {
            true
        } else {
            proof {
                assert(*self == *old(self));
            }
            self.flag_point(*point)
        }
    }

    /// Applies one game action to the board and reports whether any
    /// observable state changed. Once the game is won or lost every action
    /// is rejected.
    pub fn perform_action(&mut self, action: GameAction) -> (changed: bool)
        requires
            old(self).wf(),
        ensures
            final(self).wf(),
            (old(self).sp_status() is Win || old(self).sp_status() is Loss) ==> *final(self)
                == *old(self) && !changed,
            action matches GameAction::Reveal(p) ==> reveal_post(
                *old(self),
                *final(self),
                p,
                changed,
            ),
            action matches GameAction::Flag(p) ==> flag_post(*old(self), *final(self), p, changed),
            action matches GameAction::Unflag(p) ==> unflag_post(
                *old(self),
                *final(self),
                p,
                changed,
            ),
            action matches GameAction::ToggleFlag(p) ==> (if old(self).sp_is_flagged(p) {
                unflag_post(*old(self), *final(self), p, changed)
            } else {
                flag_post(*old(self), *final(self), p, changed)
            }),
            action is Reveal && old(self).flood_closed() ==> final(self).flood_closed(),
    {
        match self.status {
            GameStatus::Win | GameStatus::Loss => {
                return false;
            },
            _ => {},
        }
        match action {
            GameAction::Reveal(point) => self.reveal_point(point),
            GameAction::Flag(point) => self.flag_point(point),
            GameAction::Unflag(point) => self.unflag_point(&point),
            GameAction::ToggleFlag(point) => self.toggle_flag(&point),
        }
    }
}

/// The flood-fill closure law: on a well-formed, flood-closed board, walk
/// any chain of successively neighboring points that starts at a revealed
/// empty tile, stays on the board, avoids flags, and passes through empty
/// tiles; every point of the chain is revealed, the last one included. The
/// chain's interior points carry empty tiles, its final point may carry any
/// tile, so the whole empty region around a revealed empty tile and the
/// hints on its border are all revealed.
pub proof fn lemma_flood_fill_closure(b: MineSweeper, path: Seq<Point>)
    requires
        b.wf(),
        b.flood_closed(),
        path.len() > 0,
        b.sp_revealed_tile(path[0]) == Some(Tile::Empty),
        forall|k: int|
            0 <= k < path.len() - 1 ==> neighbors_seq(#[trigger] path[k]).contains(path[k + 1]),
        forall|k: int| 1 <= k < path.len() ==> b.sp_valid(#[trigger] path[k]),
        forall|k: int| 1 <= k < path.len() ==> !b.sp_is_flagged(#[trigger] path[k]),
        forall|k: int|
            1 <= k < path.len() - 1 ==> b.sp_derived_tile(#[trigger] path[k]) == Tile::Empty,
    ensures
        forall|k: int| 0 <= k < path.len() ==> (#[trigger] b.sp_revealed_tile(path[k])) is Some,
{
    assert forall|k: int|
        0 <= k < path.len() implies (#[trigger] b.sp_revealed_tile(path[k])) is Some by {
        lemma_flood_fill_closure_step(b, path, k);
    }
}

proof fn lemma_flood_fill_closure_step(b: MineSweeper, path: Seq<Point>, k: int)
    requires
        b.wf(),
        b.flood_closed(),
        path.len() > 0,
        0 <= k < path.len(),
        b.sp_revealed_tile(path[0]) == Some(Tile::Empty),
        forall|j: int|
            0 <= j < path.len() - 1 ==> neighbors_seq(#[trigger] path[j]).contains(path[j + 1]),
        forall|j: int| 1 <= j < path.len() ==> b.sp_valid(#[trigger] path[j]),
        forall|j: int| 1 <= j < path.len() ==> !b.sp_is_flagged(#[trigger] path[j]),
        forall|j: int|
            1 <= j < path.len() - 1 ==> b.sp_derived_tile(#[trigger] path[j]) == Tile::Empty,
    ensures
        b.sp_revealed_tile(path[k]) is Some,
        k < path.len() - 1 ==> b.sp_revealed_tile(path[k]) == Some(Tile::Empty),
    decreases k,
{
    if k > 0 {
        lemma_flood_fill_closure_step(b, path, k - 1);
        assert(b.sp_revealed_tile(path[k - 1]) == Some(Tile::Empty));
        assert(neighbors_seq(path[k - 1]).contains(path[k]));
        let i = choose|i: int|
            0 <= i < neighbors_seq(path[k - 1]).len() && #[trigger] neighbors_seq(path[k - 1])[i]
                == path[k];
        assert(b.sp_revealed_tile(neighbors_seq(path[k - 1])[i]) is Some);
        if k < path.len() - 1 {
            assert(b.sp_revealed_tile(path[k]) == Some(b.sp_derived_tile(path[k])));
        }
    }
}

} // verus!
