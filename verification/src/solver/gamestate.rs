use vstd::prelude::*;
use crate::counting::{count_if, id_bool, lemma_count_if_take_full, lemma_count_if_take_step, lemma_count_if_update, lemma_push_contains};
use crate::grid::{grid_index, lemma_grid_index_bounds, lemma_grid_index_injective, lemma_point_of_index, on_board, point_of_index};
use crate::minesweeper::{GameAction, MineSweeper, Tile};
use crate::point::{neighbors_seq, Point};

verus! {

/// Whether a point carries a flag, real or hypothetical, as a closure
/// shared by every count over it.
pub open spec fn flag_pred(bf: Seq<bool>, nf: Seq<bool>, w: int, h: int) -> spec_fn(Point) -> bool {
    |q: Point| on_board(w, h, q) && (bf[grid_index(w, q)] || nf[grid_index(w, q)])
}

/// Whether a point counts as revealed, on the board or in the overlay, as a
/// closure shared by every count over it.
pub open spec fn revealed_pred(br: Seq<Option<Tile>>, ns: Seq<bool>, w: int, h: int) -> spec_fn(
    Point,
) -> bool {
    |q: Point| on_board(w, h, q) && (br[grid_index(w, q)] is Some || ns[grid_index(w, q)])
}

/// Whether a point is still unknown: on the board, neither flagged nor
/// revealed in any sense.
pub open spec fn unknown_pred(
    bf: Seq<bool>,
    nf: Seq<bool>,
    br: Seq<Option<Tile>>,
    ns: Seq<bool>,
    w: int,
    h: int,
) -> spec_fn(Point) -> bool {
    |q: Point|
        on_board(w, h, q) && !(flag_pred(bf, nf, w, h)(q)) && !(revealed_pred(br, ns, w, h)(q))
}

/// A read-only overlay over one board snapshot: the board's revealed tiles
/// and flags as they stood, plus the points the deduction pass has since
/// found certainly mined (`new_flags`) or certainly safe (`new_safe`). The
/// overlay never touches the board it was built from.
pub struct SolveState {
    width: usize,
    height: usize,
    base_revealed: Vec<Option<Tile>>,
    base_flags: Vec<bool>,
    new_flags: Vec<bool>,
    new_safe: Vec<bool>,
    flag_list: Vec<Point>,
    safe_list: Vec<Point>,
    base: Ghost<MineSweeper>,
}

impl SolveState {
    pub closed spec fn sp_width(&self) -> int {
        self.width as int
    }

    pub closed spec fn sp_height(&self) -> int {
        self.height as int
    }

    /// The board this overlay was built from.
    pub closed spec fn sp_base(&self) -> MineSweeper {
        self.base@
    }

    pub closed spec fn sp_base_revealed(&self) -> Seq<Option<Tile>> {
        self.base_revealed@
    }

    pub closed spec fn sp_base_flags(&self) -> Seq<bool> {
        self.base_flags@
    }

    pub closed spec fn sp_new_flags(&self) -> Seq<bool> {
        self.new_flags@
    }

    pub closed spec fn sp_new_safe(&self) -> Seq<bool> {
        self.new_safe@
    }

    pub closed spec fn sp_flag_list(&self) -> Seq<Point> {
        self.flag_list@
    }

    pub closed spec fn sp_safe_list(&self) -> Seq<Point> {
        self.safe_list@
    }

    pub open spec fn sp_area(&self) -> int {
        self.sp_width() * self.sp_height()
    }

    pub open spec fn sp_valid(&self, q: Point) -> bool {
        on_board(self.sp_width(), self.sp_height(), q)
    }

    pub open spec fn sp_index(&self, q: Point) -> int {
        grid_index(self.sp_width(), q)
    }

    /// Flagged in the overlay alone.
    pub open spec fn sp_is_new_flag(&self, q: Point) -> bool {
        self.sp_valid(q) && self.sp_new_flags()[self.sp_index(q)]
    }

    /// Marked safe in the overlay alone.
    pub open spec fn sp_is_new_safe(&self, q: Point) -> bool {
        self.sp_valid(q) && self.sp_new_safe()[self.sp_index(q)]
    }

    /// Flagged on the board itself, before any deduction.
    pub open spec fn sp_is_base_flag(&self, q: Point) -> bool {
        self.sp_valid(q) && self.sp_base_flags()[self.sp_index(q)]
    }

    /// Revealed on the board itself, before any deduction.
    pub open spec fn sp_is_base_revealed(&self, q: Point) -> bool {
        self.sp_valid(q) && self.sp_base_revealed()[self.sp_index(q)] is Some
    }

    /// Flagged on the board or in the overlay.
    pub open spec fn sp_is_flag_at(&self, q: Point) -> bool {
        flag_pred(self.sp_base_flags(), self.sp_new_flags(), self.sp_width(), self.sp_height())(q)
    }

    /// Revealed on the board or marked safe in the overlay.
    pub open spec fn sp_is_revealed_at(&self, q: Point) -> bool {
        revealed_pred(self.sp_base_revealed(), self.sp_new_safe(), self.sp_width(), self.sp_height())(
            q,
        )
    }

    /// Neither flagged nor revealed in any sense, but on the board.
    pub open spec fn sp_is_unknown(&self, q: Point) -> bool {
        unknown_pred(
            self.sp_base_flags(),
            self.sp_new_flags(),
            self.sp_base_revealed(),
            self.sp_new_safe(),
            self.sp_width(),
            self.sp_height(),
        )(q)
    }

    /// The hint number the board shows at `q`, if a hint stands there.
    pub open spec fn sp_hint_of(&self, q: Point) -> Option<usize> {
        if self.sp_valid(q) {
            match self.sp_base_revealed()[self.sp_index(q)] {
                Some(Tile::Hint(n)) => Some(n),
                _ => None,
            }
        } else {
            None
        }
    }

    /// How many of a point's neighbors carry a flag, real or hypothetical.
    pub open spec fn sp_flagged_neighbors(&self, p: Point) -> int {
        count_if(
            neighbors_seq(p),
            flag_pred(self.sp_base_flags(), self.sp_new_flags(), self.sp_width(), self.sp_height()),
        )
    }

    /// How many of a point's neighbors are still unknown.
    pub open spec fn sp_unknown_neighbors(&self, p: Point) -> int {
        count_if(
            neighbors_seq(p),
            unknown_pred(
                self.sp_base_flags(),
                self.sp_new_flags(),
                self.sp_base_revealed(),
                self.sp_new_safe(),
                self.sp_width(),
                self.sp_height(),
            ),
        )
    }

    /// Whether the flag rule matches at `p`: a revealed hint whose
    /// outstanding mine count equals its number of unknown neighbors. When
    /// any unknown neighbor remains, the rule proves each one mined.
    pub open spec fn sp_flag_rule_at(&self, p: Point) -> bool {
        &&& self.sp_hint_of(p) is Some
        &&& self.sp_hint_of(p).unwrap() - self.sp_flagged_neighbors(p)
            == self.sp_unknown_neighbors(p)
    }

    /// Whether the safe rule matches at `p`: a revealed hint whose flagged
    /// neighbors already account for its whole number. When any unknown
    /// neighbor remains, the rule proves each one clear.
    pub open spec fn sp_safe_rule_at(&self, p: Point) -> bool {
        &&& self.sp_hint_of(p) is Some
        &&& self.sp_hint_of(p).unwrap() == self.sp_flagged_neighbors(p)
    }

    /// Whether some hint where the flag rule matches has `q` among its
    /// neighbors: the only way the flag rule ever yields `q`.
    pub open spec fn sp_flag_rule_yields(&self, q: Point) -> bool {
        exists|p: Point| #[trigger] self.sp_flag_rule_at(p) && neighbors_seq(p).contains(q)
    }

    /// Whether some hint where the safe rule matches has `q` among its
    /// neighbors: the only way the safe rule ever yields `q`.
    pub open spec fn sp_safe_rule_yields(&self, q: Point) -> bool {
        exists|p: Point| #[trigger] self.sp_safe_rule_at(p) && neighbors_seq(p).contains(q)
    }

    /// The deduction fixed point: neither rule can add anything, because no
    /// matching hint has an unknown neighbor left.
    pub open spec fn sp_at_fixed_point(&self) -> bool {
        &&& (forall|p: Point|
            #[trigger] self.sp_flag_rule_at(p) ==> self.sp_unknown_neighbors(p) == 0)
        &&& (forall|p: Point|
            #[trigger] self.sp_safe_rule_at(p) ==> self.sp_unknown_neighbors(p) == 0)
    }

    /// The overlay's invariant: the snapshot grids mirror a well-formed
    /// board, the two deduction lists mirror the two overlay grids, and no
    /// point is both flagged and revealed.
    pub open spec fn wf(&self) -> bool {
        &&& 0 < self.sp_width()
        &&& 0 < self.sp_height()
        &&& self.sp_area() <= usize::MAX
        &&& self.sp_base_revealed().len() == self.sp_area()
        &&& self.sp_base_flags().len() == self.sp_area()
        &&& self.sp_new_flags().len() == self.sp_area()
        &&& self.sp_new_safe().len() == self.sp_area()
        &&& self.sp_base().wf()
        &&& self.sp_base().sp_width() == self.sp_width()
        &&& self.sp_base().sp_height() == self.sp_height()
        &&& self.sp_base_revealed() == self.sp_base().sp_revealed()
        &&& self.sp_base_flags() == self.sp_base().sp_flags()
        &&& (forall|q: Point| !(#[trigger] self.sp_is_flag_at(q) && self.sp_is_revealed_at(q)))
        &&& (forall|q: Point| #[trigger] self.sp_is_new_flag(q) ==> !self.sp_is_base_flag(q))
        &&& (forall|q: Point| #[trigger] self.sp_is_new_safe(q) ==> !self.sp_is_base_revealed(q))
        &&& (forall|k: int|
            0 <= k < self.sp_flag_list().len() ==> self.sp_is_new_flag(
                #[trigger] self.sp_flag_list()[k],
            ))
        &&& (forall|q: Point|
            #[trigger] self.sp_is_new_flag(q) ==> self.sp_flag_list().contains(q))
        &&& (forall|k: int|
            0 <= k < self.sp_safe_list().len() ==> self.sp_is_new_safe(
                #[trigger] self.sp_safe_list()[k],
            ))
        &&& (forall|q: Point|
            #[trigger] self.sp_is_new_safe(q) ==> self.sp_safe_list().contains(q))
    }

    /// Every flag, real or hypothetical, stands on a true mine of the board
    /// this overlay was built from.
    pub open spec fn flags_sound(&self) -> bool {
        forall|q: Point| #[trigger] self.sp_is_flag_at(q) ==> self.sp_base().sp_is_mine(q)
    }

    /// Every point the overlay marks safe is truly free of mines.
    pub open spec fn safes_sound(&self) -> bool {
        forall|q: Point| #[trigger] self.sp_is_new_safe(q) ==> !self.sp_base().sp_is_mine(q)
    }

    /// Builds a fresh overlay over the given board, with nothing deduced yet.
    pub fn from_game(game: &MineSweeper) -> (r: Self)
        requires
            game.wf(),
        ensures
            r.wf(),
            r.sp_base() == *game,
            r.sp_width() == game.sp_width(),
            r.sp_height() == game.sp_height(),
            forall|q: Point| !(#[trigger] r.sp_is_new_flag(q)),
            forall|q: Point| !(#[trigger] r.sp_is_new_safe(q)),
            r.sp_flag_list().len() == 0,
            r.sp_safe_list().len() == 0,
            count_if(r.sp_new_flags(), id_bool()) == 0,
            count_if(r.sp_new_safe(), id_bool()) == 0,
    {
        let width = game.width();
        let height = game.height();
        let area = width * height;
        let base_revealed = copy_tiles(game.revealed());
        let base_flags = copy_bools(game.flagged());
        let r = SolveState {
            width,
            height,
            base_revealed,
            base_flags,
            new_flags: vec![false; area],
            new_safe: vec![false; area],
            flag_list: Vec::new(),
            safe_list: Vec::new(),
            base: Ghost(*game),
        };
        proof {
            crate::counting::lemma_count_if_zero(r.sp_new_flags(), id_bool());
            crate::counting::lemma_count_if_zero(r.sp_new_safe(), id_bool());
            assert forall|q: Point| !(#[trigger] r.sp_is_new_flag(q)) by {
                if r.sp_valid(q) {
                    lemma_grid_index_bounds(r.sp_width(), r.sp_height(), q);
                }
            }
            assert forall|q: Point| !(#[trigger] r.sp_is_new_safe(q)) by {
                if r.sp_valid(q) {
                    lemma_grid_index_bounds(r.sp_width(), r.sp_height(), q);
                }
            }
            assert forall|q: Point|
                !(#[trigger] r.sp_is_flag_at(q) && r.sp_is_revealed_at(q)) by {
                if r.sp_valid(q) {
                    lemma_grid_index_bounds(r.sp_width(), r.sp_height(), q);
                    if r.sp_is_flag_at(q) && r.sp_is_revealed_at(q) {
                        assert(game.sp_is_flagged(q));
                        assert(game.sp_revealed_tile(q) is Some);
                    }
                }
            }
        }
        r
    }

    fn index_of(&self, p: &Point) -> (i: usize)
        requires
            0 < self.sp_width(),
            0 < self.sp_height(),
            self.sp_area() <= usize::MAX,
            self.sp_valid(*p),
        ensures
            i as int == self.sp_index(*p),
            i < self.sp_area(),
    {
        proof {
            lemma_grid_index_bounds(self.sp_width(), self.sp_height(), *p);
        }
        p.y * self.width + p.x
    }

    pub fn is_valid_point(&self, point: &Point) -> (r: bool)
        ensures
            r == self.sp_valid(*point),
    {
        point.x < self.width && point.y < self.height
    }

    pub fn is_revealed(&self, point: &Point) -> (r: bool)
        requires
            self.wf(),
        ensures
            r == self.sp_is_revealed_at(*point),
    {
        if !(point.x < self.width && point.y < self.height) {
            return false;
        }
        let i = self.index_of(point);
        self.new_safe[i] || self.base_revealed[i].is_some()
    }

    pub fn is_flag(&self, point: &Point) -> (r: bool)
        requires
            self.wf(),
        ensures
            r == self.sp_is_flag_at(*point),
    {
        if !(point.x < self.width && point.y < self.height) {
            return false;
        }
        let i = self.index_of(point);
        self.new_flags[i] || self.base_flags[i]
    }

    /// Adds one hypothetical flag; reports whether it is new to the overlay.
    pub fn add_flag(&mut self, point: Point) -> (changed: bool)
        requires
            old(self).wf(),
            old(self).sp_valid(point),
            !old(self).sp_is_revealed_at(point),
            !old(self).sp_is_base_flag(point),
        ensures
            final(self).wf(),
            add_flag_post(*old(self), *final(self), point, changed),
    {
        let i = self.index_of(&point);
        if self.new_flags[i] {
            return false;
        }
        self.new_flags[i] = true;
        self.flag_list.push(point);
        proof {
            lemma_count_if_update(old(self).sp_new_flags(), id_bool(), i as int, true);
            self.lemma_after_flag_update(*old(self), point, i as int);
        }
        true
    }

    /// Adds one hypothetical safe point; reports whether it is new.
    pub fn add_safe(&mut self, point: Point) -> (changed: bool)
        requires
            old(self).wf(),
            old(self).sp_valid(point),
            !old(self).sp_is_flag_at(point),
            !old(self).sp_is_base_revealed(point),
        ensures
            final(self).wf(),
            add_safe_post(*old(self), *final(self), point, changed),
    {
        let i = self.index_of(&point);
        if self.new_safe[i] {
            return false;
        }
        self.new_safe[i] = true;
        self.safe_list.push(point);
        proof {
            lemma_count_if_update(old(self).sp_new_safe(), id_bool(), i as int, true);
            self.lemma_after_safe_update(*old(self), point, i as int);
        }
        true
    }

    proof fn lemma_after_flag_update(&self, pre: SolveState, point: Point, i: int)
        requires
            pre.wf(),
            pre.sp_valid(point),
            !pre.sp_is_revealed_at(point),
            !pre.sp_is_base_flag(point),
            i == pre.sp_index(point),
            self.sp_width() == pre.sp_width(),
            self.sp_height() == pre.sp_height(),
            self.sp_base() == pre.sp_base(),
            self.sp_base_revealed() == pre.sp_base_revealed(),
            self.sp_base_flags() == pre.sp_base_flags(),
            self.sp_new_safe() == pre.sp_new_safe(),
            self.sp_new_flags() == pre.sp_new_flags().update(i, true),
            self.sp_flag_list() == pre.sp_flag_list().push(point),
            self.sp_safe_list() == pre.sp_safe_list(),
        ensures
            self.wf(),
            forall|q: Point|
                #[trigger] self.sp_is_new_flag(q) == (pre.sp_is_new_flag(q) || q == point),
            forall|q: Point|
                #[trigger] self.sp_is_flag_at(q) == (pre.sp_is_flag_at(q) || q == point),
            forall|q: Point| #[trigger] self.sp_is_new_safe(q) == pre.sp_is_new_safe(q),
            forall|q: Point| #[trigger] self.sp_is_revealed_at(q) == pre.sp_is_revealed_at(q),
    {
        let w = pre.sp_width();
        let h = pre.sp_height();
        lemma_grid_index_bounds(w, h, point);
        assert forall|q: Point|
            #[trigger] self.sp_is_new_flag(q) == (pre.sp_is_new_flag(q) || q == point) by {
            if self.sp_valid(q) {
                lemma_grid_index_bounds(w, h, q);
                if self.sp_index(q) == i {
                    lemma_grid_index_injective(w, h, q, point);
                }
            }
        }
        assert forall|q: Point|
            #[trigger] self.sp_is_flag_at(q) == (pre.sp_is_flag_at(q) || q == point) by {
            if self.sp_valid(q) {
                lemma_grid_index_bounds(w, h, q);
                if self.sp_index(q) == i {
                    lemma_grid_index_injective(w, h, q, point);
                }
            }
        }
        assert forall|q: Point| #[trigger] self.sp_is_new_safe(q) == pre.sp_is_new_safe(q) by {}
        assert forall|q: Point|
            #[trigger] self.sp_is_revealed_at(q) == pre.sp_is_revealed_at(q) by {}
        assert forall|q: Point|
            !(#[trigger] self.sp_is_flag_at(q) && self.sp_is_revealed_at(q)) by {
            if q != point {
                assert(!(pre.sp_is_flag_at(q) && pre.sp_is_revealed_at(q)));
            } else {
                assert(!pre.sp_is_revealed_at(point));
            }
        }
        assert forall|q: Point| #[trigger] self.sp_is_new_flag(q) implies !self.sp_is_base_flag(
            q,
        ) by {
            if q != point {
                assert(pre.sp_is_new_flag(q));
                assert(!pre.sp_is_base_flag(q));
            }
        }
        assert forall|q: Point|
            #[trigger] self.sp_is_new_safe(q) implies !self.sp_is_base_revealed(q) by {
            assert(pre.sp_is_new_safe(q));
        }
        assert forall|k: int|
            0 <= k < self.sp_flag_list().len() implies self.sp_is_new_flag(
            #[trigger] self.sp_flag_list()[k],
        ) by {
            if k < pre.sp_flag_list().len() {
                assert(self.sp_flag_list()[k] == pre.sp_flag_list()[k]);
                assert(pre.sp_is_new_flag(pre.sp_flag_list()[k]));
            } else {
                assert(self.sp_flag_list()[k] == point);
            }
        }
        assert forall|q: Point|
            #[trigger] self.sp_is_new_flag(q) implies self.sp_flag_list().contains(q) by {
            if q == point {
                assert(self.sp_flag_list()[self.sp_flag_list().len() - 1] == point);
            } else {
                assert(pre.sp_is_new_flag(q));
                let k = choose|k: int|
                    0 <= k < pre.sp_flag_list().len() && pre.sp_flag_list()[k] == q;
                assert(self.sp_flag_list()[k] == q);
            }
        }
        assert forall|k: int|
            0 <= k < self.sp_safe_list().len() implies self.sp_is_new_safe(
            #[trigger] self.sp_safe_list()[k],
        ) by {
            assert(pre.sp_is_new_safe(pre.sp_safe_list()[k]));
        }
        assert forall|q: Point|
            #[trigger] self.sp_is_new_safe(q) implies self.sp_safe_list().contains(q) by {
            assert(pre.sp_is_new_safe(q));
            let k = choose|k: int| 0 <= k < pre.sp_safe_list().len() && pre.sp_safe_list()[k] == q;
            assert(self.sp_safe_list()[k] == q);
        }
    }

    proof fn lemma_after_safe_update(&self, pre: SolveState, point: Point, i: int)
        requires
            pre.wf(),
            pre.sp_valid(point),
            !pre.sp_is_flag_at(point),
            !pre.sp_is_base_revealed(point),
            i == pre.sp_index(point),
            self.sp_width() == pre.sp_width(),
            self.sp_height() == pre.sp_height(),
            self.sp_base() == pre.sp_base(),
            self.sp_base_revealed() == pre.sp_base_revealed(),
            self.sp_base_flags() == pre.sp_base_flags(),
            self.sp_new_flags() == pre.sp_new_flags(),
            self.sp_new_safe() == pre.sp_new_safe().update(i, true),
            self.sp_safe_list() == pre.sp_safe_list().push(point),
            self.sp_flag_list() == pre.sp_flag_list(),
        ensures
            self.wf(),
            forall|q: Point|
                #[trigger] self.sp_is_new_safe(q) == (pre.sp_is_new_safe(q) || q == point),
            forall|q: Point|
                #[trigger] self.sp_is_revealed_at(q) == (pre.sp_is_revealed_at(q) || q == point),
            forall|q: Point| #[trigger] self.sp_is_new_flag(q) == pre.sp_is_new_flag(q),
            forall|q: Point| #[trigger] self.sp_is_flag_at(q) == pre.sp_is_flag_at(q),
    {
        let w = pre.sp_width();
        let h = pre.sp_height();
        lemma_grid_index_bounds(w, h, point);
        assert forall|q: Point|
            #[trigger] self.sp_is_new_safe(q) == (pre.sp_is_new_safe(q) || q == point) by {
            if self.sp_valid(q) {
                lemma_grid_index_bounds(w, h, q);
                if self.sp_index(q) == i {
                    lemma_grid_index_injective(w, h, q, point);
                }
            }
        }
        assert forall|q: Point|
            #[trigger] self.sp_is_revealed_at(q) == (pre.sp_is_revealed_at(q) || q == point) by {
            if self.sp_valid(q) {
                lemma_grid_index_bounds(w, h, q);
                if self.sp_index(q) == i {
                    lemma_grid_index_injective(w, h, q, point);
                }
            }
        }
        assert forall|q: Point| #[trigger] self.sp_is_new_flag(q) == pre.sp_is_new_flag(q) by {}
        assert forall|q: Point| #[trigger] self.sp_is_flag_at(q) == pre.sp_is_flag_at(q) by {}
        assert forall|q: Point|
            !(#[trigger] self.sp_is_flag_at(q) && self.sp_is_revealed_at(q)) by {
            if q != point {
                assert(!(pre.sp_is_flag_at(q) && pre.sp_is_revealed_at(q)));
            } else {
                assert(!pre.sp_is_flag_at(point));
            }
        }
        assert forall|q: Point|
            #[trigger] self.sp_is_new_safe(q) implies !self.sp_is_base_revealed(q) by {
            if q != point {
                assert(pre.sp_is_new_safe(q));
                assert(!pre.sp_is_base_revealed(q));
            }
        }
        assert forall|q: Point| #[trigger] self.sp_is_new_flag(q) implies !self.sp_is_base_flag(
            q,
        ) by {
            assert(pre.sp_is_new_flag(q));
        }
        assert forall|k: int|
            0 <= k < self.sp_safe_list().len() implies self.sp_is_new_safe(
            #[trigger] self.sp_safe_list()[k],
        ) by {
            if k < pre.sp_safe_list().len() {
                assert(self.sp_safe_list()[k] == pre.sp_safe_list()[k]);
                assert(pre.sp_is_new_safe(pre.sp_safe_list()[k]));
            } else {
                assert(self.sp_safe_list()[k] == point);
            }
        }
        assert forall|q: Point|
            #[trigger] self.sp_is_new_safe(q) implies self.sp_safe_list().contains(q) by {
            if q == point {
                assert(self.sp_safe_list()[self.sp_safe_list().len() - 1] == point);
            } else {
                assert(pre.sp_is_new_safe(q));
                let k = choose|k: int|
                    0 <= k < pre.sp_safe_list().len() && pre.sp_safe_list()[k] == q;
                assert(self.sp_safe_list()[k] == q);
            }
        }
        assert forall|k: int|
            0 <= k < self.sp_flag_list().len() implies self.sp_is_new_flag(
            #[trigger] self.sp_flag_list()[k],
        ) by {
            assert(pre.sp_is_new_flag(pre.sp_flag_list()[k]));
        }
        assert forall|q: Point|
            #[trigger] self.sp_is_new_flag(q) implies self.sp_flag_list().contains(q) by {
            assert(pre.sp_is_new_flag(q));
            let k = choose|k: int|
                0 <= k < pre.sp_flag_list().len() && pre.sp_flag_list()[k] == q;
            assert(self.sp_flag_list()[k] == q);
        }
    }
}

/// What `add_flag` does: the overlay gains the point as a hypothetical flag
/// if it did not hold it yet; nothing else moves.
pub open spec fn add_flag_post(
    pre: SolveState,
    post: SolveState,
    point: Point,
    changed: bool,
) -> bool {
    &&& changed == !pre.sp_is_new_flag(point)
    &&& (!changed ==> post == pre)
    &&& (forall|q: Point|
        #[trigger] post.sp_is_new_flag(q) == (pre.sp_is_new_flag(q) || q == point))
    &&& (forall|q: Point| #[trigger] post.sp_is_flag_at(q) == (pre.sp_is_flag_at(q) || q == point))
    &&& (forall|q: Point| #[trigger] post.sp_is_new_safe(q) == pre.sp_is_new_safe(q))
    &&& (forall|q: Point| #[trigger] post.sp_is_revealed_at(q) == pre.sp_is_revealed_at(q))
    &&& (changed ==> count_if(post.sp_new_flags(), id_bool()) == count_if(
        pre.sp_new_flags(),
        id_bool(),
    ) + 1)
    &&& post.sp_new_safe() == pre.sp_new_safe()
    &&& post.sp_base() == pre.sp_base()
    &&& post.sp_base_revealed() == pre.sp_base_revealed()
    &&& post.sp_base_flags() == pre.sp_base_flags()
    &&& post.sp_width() == pre.sp_width()
    &&& post.sp_height() == pre.sp_height()
    &&& post.sp_safe_list() == pre.sp_safe_list()
}

/// What `add_safe` does: the overlay gains the point as a hypothetical safe
/// cell if it did not hold it yet; nothing else moves.
pub open spec fn add_safe_post(
    pre: SolveState,
    post: SolveState,
    point: Point,
    changed: bool,
) -> bool {
    &&& changed == !pre.sp_is_new_safe(point)
    &&& (!changed ==> post == pre)
    &&& (forall|q: Point|
        #[trigger] post.sp_is_new_safe(q) == (pre.sp_is_new_safe(q) || q == point))
    &&& (forall|q: Point|
        #[trigger] post.sp_is_revealed_at(q) == (pre.sp_is_revealed_at(q) || q == point))
    &&& (forall|q: Point| #[trigger] post.sp_is_new_flag(q) == pre.sp_is_new_flag(q))
    &&& (forall|q: Point| #[trigger] post.sp_is_flag_at(q) == pre.sp_is_flag_at(q))
    &&& (changed ==> count_if(post.sp_new_safe(), id_bool()) == count_if(
        pre.sp_new_safe(),
        id_bool(),
    ) + 1)
    &&& post.sp_new_flags() == pre.sp_new_flags()
    &&& post.sp_base() == pre.sp_base()
    &&& post.sp_base_revealed() == pre.sp_base_revealed()
    &&& post.sp_base_flags() == pre.sp_base_flags()
    &&& post.sp_width() == pre.sp_width()
    &&& post.sp_height() == pre.sp_height()
    &&& post.sp_flag_list() == pre.sp_flag_list()
}

fn copy_tiles(src: &Vec<Option<Tile>>) -> (r: Vec<Option<Tile>>)
    ensures
        r@ == src@,
{
    let mut r: Vec<Option<Tile>> = Vec::new();
    let mut i: usize = 0;
    while i < src.len()
        invariant
            i <= src@.len(),
            r@ == src@.take(i as int),
        decreases src@.len() - i,
    {
        r.push(src[i]);
        proof {
            assert(r@ =~= src@.take(i as int + 1));
        }
        i = i + 1;
    }
    proof {
        assert(src@.take(src@.len() as int) =~= src@);
    }
    r
}

fn copy_bools(src: &Vec<bool>) -> (r: Vec<bool>)
    ensures
        r@ == src@,
{
    let mut r: Vec<bool> = Vec::new();
    let mut i: usize = 0;
    while i < src.len()
        invariant
            i <= src@.len(),
            r@ == src@.take(i as int),
        decreases src@.len() - i,
    {
        r.push(src[i]);
        proof {
            assert(r@ =~= src@.take(i as int + 1));
        }
        i = i + 1;
    }
    proof {
        assert(src@.take(src@.len() as int) =~= src@);
    }
    r
}


/// Whether an action replays one entry of the overlay: a `Flag` of a point
/// the deduction flagged, or a `Reveal` of a point it proved safe.
pub open spec fn action_from_overlay(st: SolveState, a: GameAction) -> bool {
    match a {
        GameAction::Flag(p) => st.sp_is_new_flag(p),
        GameAction::Reveal(p) => st.sp_is_new_safe(p),
        _ => false,
    }
}

impl SolveState {
    /// Adds a batch of hypothetical flags; reports whether any was new.
    pub fn add_flags(&mut self, points: &Vec<Point>) -> (changed: bool)
        requires
            old(self).wf(),
            forall|k: int|
                0 <= k < points@.len() ==> old(self).sp_valid(#[trigger] points@[k]) && !old(
                    self,
                ).sp_is_revealed_at(points@[k]) && !old(self).sp_is_base_flag(points@[k]),
        ensures
            final(self).wf(),
            changed == exists|k: int|
                0 <= k < points@.len() && !old(self).sp_is_new_flag(#[trigger] points@[k]),
            !changed ==> *final(self) == *old(self),
            forall|q: Point|
                #[trigger] final(self).sp_is_new_flag(q) == (old(self).sp_is_new_flag(q)
                    || points@.contains(q)),
            forall|q: Point|
                #[trigger] final(self).sp_is_flag_at(q) == (old(self).sp_is_flag_at(q)
                    || points@.contains(q)),
            forall|q: Point|
                #[trigger] final(self).sp_is_new_safe(q) == old(self).sp_is_new_safe(q),
            forall|q: Point|
                #[trigger] final(self).sp_is_revealed_at(q) == old(self).sp_is_revealed_at(q),
            final(self).sp_new_safe() == old(self).sp_new_safe(),
            final(self).sp_base() == old(self).sp_base(),
            final(self).sp_base_revealed() == old(self).sp_base_revealed(),
            final(self).sp_base_flags() == old(self).sp_base_flags(),
            final(self).sp_width() == old(self).sp_width(),
            final(self).sp_height() == old(self).sp_height(),
            final(self).sp_safe_list() == old(self).sp_safe_list(),
            count_if(final(self).sp_new_flags(), id_bool()) >= count_if(
                old(self).sp_new_flags(),
                id_bool(),
            ),
            changed ==> count_if(final(self).sp_new_flags(), id_bool()) > count_if(
                old(self).sp_new_flags(),
                id_bool(),
            ),
    {
        let mut changed = false;
        let mut j: usize = 0;
        while j < points.len()
            invariant
                j <= points@.len(),
                self.wf(),
                forall|k: int|
                    0 <= k < points@.len() ==> old(self).sp_valid(#[trigger] points@[k]) && !old(
                        self,
                    ).sp_is_revealed_at(points@[k]) && !old(self).sp_is_base_flag(points@[k]),
                changed == exists|k: int|
                    0 <= k < j && !old(self).sp_is_new_flag(#[trigger] points@[k]),
                !changed ==> *self == *old(self),
                forall|q: Point|
                    #[trigger] self.sp_is_new_flag(q) == (old(self).sp_is_new_flag(q)
                        || points@.take(j as int).contains(q)),
                forall|q: Point|
                    #[trigger] self.sp_is_flag_at(q) == (old(self).sp_is_flag_at(q)
                        || points@.take(j as int).contains(q)),
                forall|q: Point|
                    #[trigger] self.sp_is_new_safe(q) == old(self).sp_is_new_safe(q),
                forall|q: Point|
                    #[trigger] self.sp_is_revealed_at(q) == old(self).sp_is_revealed_at(q),
                self.sp_new_safe() == old(self).sp_new_safe(),
                self.sp_base() == old(self).sp_base(),
                self.sp_base_revealed() == old(self).sp_base_revealed(),
                self.sp_base_flags() == old(self).sp_base_flags(),
                self.sp_width() == old(self).sp_width(),
                self.sp_height() == old(self).sp_height(),
                self.sp_safe_list() == old(self).sp_safe_list(),
                count_if(self.sp_new_flags(), id_bool()) >= count_if(
                    old(self).sp_new_flags(),
                    id_bool(),
                ),
                changed ==> count_if(self.sp_new_flags(), id_bool()) > count_if(
                    old(self).sp_new_flags(),
                    id_bool(),
                ),
            decreases points@.len() - j,
        {
            let p = points[j];
            let added = self.add_flag(p);
            changed = changed || added;
            proof {
                assert(points@.take(j as int + 1) =~= points@.take(j as int).push(p));
                lemma_push_contains(points@.take(j as int), p);
            }
            j = j + 1;
        }
        proof {
            assert(points@.take(points@.len() as int) =~= points@);
        }
        changed
    }

    /// Adds a batch of hypothetical safe points; reports whether any was new.
    pub fn add_safes(&mut self, points: &Vec<Point>) -> (changed: bool)
        requires
            old(self).wf(),
            forall|k: int|
                0 <= k < points@.len() ==> old(self).sp_valid(#[trigger] points@[k]) && !old(
                    self,
                ).sp_is_flag_at(points@[k]) && !old(self).sp_is_base_revealed(points@[k]),
        ensures
            final(self).wf(),
            changed == exists|k: int|
                0 <= k < points@.len() && !old(self).sp_is_new_safe(#[trigger] points@[k]),
            !changed ==> *final(self) == *old(self),
            forall|q: Point|
                #[trigger] final(self).sp_is_new_safe(q) == (old(self).sp_is_new_safe(q)
                    || points@.contains(q)),
            forall|q: Point|
                #[trigger] final(self).sp_is_revealed_at(q) == (old(self).sp_is_revealed_at(q)
                    || points@.contains(q)),
            forall|q: Point|
                #[trigger] final(self).sp_is_new_flag(q) == old(self).sp_is_new_flag(q),
            forall|q: Point|
                #[trigger] final(self).sp_is_flag_at(q) == old(self).sp_is_flag_at(q),
            final(self).sp_new_flags() == old(self).sp_new_flags(),
            final(self).sp_base() == old(self).sp_base(),
            final(self).sp_base_revealed() == old(self).sp_base_revealed(),
            final(self).sp_base_flags() == old(self).sp_base_flags(),
            final(self).sp_width() == old(self).sp_width(),
            final(self).sp_height() == old(self).sp_height(),
            final(self).sp_flag_list() == old(self).sp_flag_list(),
            count_if(final(self).sp_new_safe(), id_bool()) >= count_if(
                old(self).sp_new_safe(),
                id_bool(),
            ),
            changed ==> count_if(final(self).sp_new_safe(), id_bool()) > count_if(
                old(self).sp_new_safe(),
                id_bool(),
            ),
    {
        let mut changed = false;
        let mut j: usize = 0;
        while j < points.len()
            invariant
                j <= points@.len(),
                self.wf(),
                forall|k: int|
                    0 <= k < points@.len() ==> old(self).sp_valid(#[trigger] points@[k]) && !old(
                        self,
                    ).sp_is_flag_at(points@[k]) && !old(self).sp_is_base_revealed(points@[k]),
                changed == exists|k: int|
                    0 <= k < j && !old(self).sp_is_new_safe(#[trigger] points@[k]),
                !changed ==> *self == *old(self),
                forall|q: Point|
                    #[trigger] self.sp_is_new_safe(q) == (old(self).sp_is_new_safe(q)
                        || points@.take(j as int).contains(q)),
                forall|q: Point|
                    #[trigger] self.sp_is_revealed_at(q) == (old(self).sp_is_revealed_at(q)
                        || points@.take(j as int).contains(q)),
                forall|q: Point|
                    #[trigger] self.sp_is_new_flag(q) == old(self).sp_is_new_flag(q),
                forall|q: Point|
                    #[trigger] self.sp_is_flag_at(q) == old(self).sp_is_flag_at(q),
                self.sp_new_flags() == old(self).sp_new_flags(),
                self.sp_base() == old(self).sp_base(),
                self.sp_base_revealed() == old(self).sp_base_revealed(),
                self.sp_base_flags() == old(self).sp_base_flags(),
                self.sp_width() == old(self).sp_width(),
                self.sp_height() == old(self).sp_height(),
                self.sp_flag_list() == old(self).sp_flag_list(),
                count_if(self.sp_new_safe(), id_bool()) >= count_if(
                    old(self).sp_new_safe(),
                    id_bool(),
                ),
                changed ==> count_if(self.sp_new_safe(), id_bool()) > count_if(
                    old(self).sp_new_safe(),
                    id_bool(),
                ),
            decreases points@.len() - j,
        {
            let p = points[j];
            let added = self.add_safe(p);
            changed = changed || added;
            proof {
                assert(points@.take(j as int + 1) =~= points@.take(j as int).push(p));
                lemma_push_contains(points@.take(j as int), p);
            }
            j = j + 1;
        }
        proof {
            assert(points@.take(points@.len() as int) =~= points@);
        }
        changed
    }

    /// All flagged points, real and hypothetical, in rank order.
    pub fn flags(&self) -> (r: Vec<Point>)
        requires
            self.wf(),
        ensures
            forall|k: int| 0 <= k < r@.len() ==> self.sp_is_flag_at(#[trigger] r@[k]),
            forall|q: Point| #[trigger] self.sp_is_flag_at(q) ==> r@.contains(q),
            forall|k1: int, k2: int|
                0 <= k1 < k2 < r@.len() ==> #[trigger] r@[k1] != #[trigger] r@[k2],
    {
        self.collect_matching(true)
    }

    /// The tile a revealed-or-safe point shows under this overlay: the
    /// board's tile where the board revealed it, `Empty` where only the
    /// deduction marked it safe.
    pub open spec fn sp_shown_tile(&self, q: Point) -> Tile {
        match self.sp_base_revealed()[self.sp_index(q)] {
            Some(t) => t,
            None => Tile::Empty,
        }
    }

    /// All points that count as revealed under this overlay, each with the
    /// tile it shows, in rank order.
    pub fn revealed(&self) -> (r: Vec<(Point, Tile)>)
        requires
            self.wf(),
        ensures
            forall|k: int|
                0 <= k < r@.len() ==> self.sp_is_revealed_at((#[trigger] r@[k]).0) && r@[k].1
                    == self.sp_shown_tile(r@[k].0),
            forall|q: Point|
                #[trigger] self.sp_is_revealed_at(q) ==> r@.contains((q, self.sp_shown_tile(q))),
            forall|k1: int, k2: int|
                0 <= k1 < k2 < r@.len() ==> (#[trigger] r@[k1]).0 != (#[trigger] r@[k2]).0,
    {
        let ghost w = self.sp_width();
        let ghost h = self.sp_height();
        let area = self.width * self.height;
        let mut r: Vec<(Point, Tile)> = Vec::new();
        let mut i: usize = 0;
        while i < area
            invariant
                i <= area,
                self.wf(),
                area as int == self.sp_area(),
                w == self.sp_width(),
                h == self.sp_height(),
                forall|k: int|
                    0 <= k < r@.len() ==> self.sp_is_revealed_at((#[trigger] r@[k]).0) && r@[k].1
                        == self.sp_shown_tile(r@[k].0),
                forall|q: Point|
                    self.sp_valid(q) && self.sp_index(q) < i && #[trigger] self.sp_is_revealed_at(
                        q,
                    ) ==> r@.contains((q, self.sp_shown_tile(q))),
                forall|k: int|
                    0 <= k < r@.len() ==> self.sp_valid((#[trigger] r@[k]).0) && self.sp_index(
                        r@[k].0,
                    ) < i,
                forall|k1: int, k2: int|
                    0 <= k1 < k2 < r@.len() ==> (#[trigger] r@[k1]).0 != (#[trigger] r@[k2]).0,
            decreases area - i,
        {
            let px = i % self.width;
            let py = i / self.width;
            let p = Point { x: px, y: py };
            proof {
                lemma_point_of_index(w, h, i as int);
                assert(p == point_of_index(w, i as int));
                assert(self.sp_index(p) == i as int);
            }
            let mut shown: Option<Tile> = None;
            if let Some(t) = self.base_revealed[i] {
                shown = Some(t);
            } else if self.new_safe[i] {
                shown = Some(Tile::Empty);
            }
            let ghost r0 = r@;
            if let Some(t) = shown {
                r.push((p, t));
                proof {
                    lemma_push_contains(r0, (p, t));
                    assert forall|k1: int, k2: int|
                        0 <= k1 < k2 < r@.len() implies (#[trigger] r@[k1]).0 != (
                    #[trigger] r@[k2]).0 by {
                        if k2 == r@.len() - 1 {
                            assert(r@[k1] == r0[k1]);
                            assert(self.sp_index(r@[k1].0) < i as int);
                            assert(r@[k2].0 == p);
                        } else {
                            assert(r@[k1] == r0[k1]);
                            assert(r@[k2] == r0[k2]);
                        }
                    }
                }
            }
            proof {
                assert forall|q: Point|
                    self.sp_valid(q) && self.sp_index(q) < i + 1
                        && #[trigger] self.sp_is_revealed_at(q) implies r@.contains(
                    (q, self.sp_shown_tile(q)),
                ) by {
                    if self.sp_index(q) == i as int {
                        lemma_grid_index_injective(w, h, q, p);
                        assert(r@[r@.len() - 1] == (q, self.sp_shown_tile(q)));
                    }
                }
            }
            i = i + 1;
        }
        proof {
            assert forall|q: Point| #[trigger] self.sp_is_revealed_at(q) implies r@.contains(
                (q, self.sp_shown_tile(q)),
            ) by {
                lemma_grid_index_bounds(w, h, q);
            }
        }
        r
    }

    /// The board's revealed hint cells, each with its number, in rank order.
    pub fn get_game_hints(&self) -> (r: Vec<(Point, usize)>)
        requires
            self.wf(),
        ensures
            forall|k: int|
                0 <= k < r@.len() ==> self.sp_hint_of((#[trigger] r@[k]).0) == Some(r@[k].1),
            forall|q: Point|
                (#[trigger] self.sp_hint_of(q)) is Some ==> r@.contains(
                    (q, self.sp_hint_of(q).unwrap()),
                ),
            forall|k1: int, k2: int|
                0 <= k1 < k2 < r@.len() ==> (#[trigger] r@[k1]).0 != (#[trigger] r@[k2]).0,
    {
        let ghost w = self.sp_width();
        let ghost h = self.sp_height();
        let area = self.width * self.height;
        let mut r: Vec<(Point, usize)> = Vec::new();
        let mut i: usize = 0;
        while i < area
            invariant
                i <= area,
                self.wf(),
                area as int == self.sp_area(),
                w == self.sp_width(),
                h == self.sp_height(),
                forall|k: int|
                    0 <= k < r@.len() ==> self.sp_hint_of((#[trigger] r@[k]).0) == Some(r@[k].1),
                forall|q: Point|
                    self.sp_valid(q) && self.sp_index(q) < i && (#[trigger] self.sp_hint_of(
                        q,
                    )) is Some ==> r@.contains((q, self.sp_hint_of(q).unwrap())),
                forall|k: int|
                    0 <= k < r@.len() ==> self.sp_valid((#[trigger] r@[k]).0) && self.sp_index(
                        r@[k].0,
                    ) < i,
                forall|k1: int, k2: int|
                    0 <= k1 < k2 < r@.len() ==> (#[trigger] r@[k1]).0 != (#[trigger] r@[k2]).0,
            decreases area - i,
        {
            let px = i % self.width;
            let py = i / self.width;
            let p = Point { x: px, y: py };
            proof {
                lemma_point_of_index(w, h, i as int);
                assert(p == point_of_index(w, i as int));
                assert(self.sp_index(p) == i as int);
            }
            let ghost r0 = r@;
            if let Some(Tile::Hint(n)) = self.base_revealed[i] {
                r.push((p, n));
                proof {
                    lemma_push_contains(r0, (p, n));
                    assert forall|k1: int, k2: int|
                        0 <= k1 < k2 < r@.len() implies (#[trigger] r@[k1]).0 != (
                    #[trigger] r@[k2]).0 by {
                        if k2 == r@.len() - 1 {
                            assert(r@[k1] == r0[k1]);
                            assert(self.sp_index(r@[k1].0) < i as int);
                            assert(r@[k2].0 == p);
                        } else {
                            assert(r@[k1] == r0[k1]);
                            assert(r@[k2] == r0[k2]);
                        }
                    }
                }
            }
            proof {
                assert forall|q: Point|
                    self.sp_valid(q) && self.sp_index(q) < i + 1 && (#[trigger] self.sp_hint_of(
                        q,
                    )) is Some implies r@.contains((q, self.sp_hint_of(q).unwrap())) by {
                    if self.sp_index(q) == i as int {
                        lemma_grid_index_injective(w, h, q, p);
                        assert(r@[r@.len() - 1] == (q, self.sp_hint_of(q).unwrap()));
                    }
                }
            }
            i = i + 1;
        }
        proof {
            assert forall|q: Point| (#[trigger] self.sp_hint_of(q)) is Some implies r@.contains(
                (q, self.sp_hint_of(q).unwrap()),
            ) by {
                lemma_grid_index_bounds(w, h, q);
            }
        }
        r
    }

    /// The frontier: every revealed hint whose number exceeds its flagged
    /// neighbors, paired with the outstanding mines still unaccounted for,
    /// each such hint exactly once.
    pub fn get_frontier(&self) -> (r: Vec<(Point, usize)>)
        requires
            self.wf(),
        ensures
            forall|k: int|
                0 <= k < r@.len() ==> (#[trigger] self.sp_hint_of(r@[k].0)) is Some && r@[k].1
                    as int == self.sp_hint_of(r@[k].0).unwrap() - self.sp_flagged_neighbors(
                    r@[k].0,
                ) && r@[k].1 > 0,
            forall|q: Point|
                (#[trigger] self.sp_hint_of(q)) is Some && self.sp_hint_of(q).unwrap()
                    > self.sp_flagged_neighbors(q) ==> r@.contains(
                    (
                        q,
                        (self.sp_hint_of(q).unwrap() - self.sp_flagged_neighbors(q)) as usize,
                    ),
                ),
            forall|k1: int, k2: int|
                0 <= k1 < k2 < r@.len() ==> (#[trigger] r@[k1]).0 != (#[trigger] r@[k2]).0,
    {
        let hints = self.get_game_hints();
        let mut r: Vec<(Point, usize)> = Vec::new();
        let mut j: usize = 0;
        while j < hints.len()
            invariant
                j <= hints@.len(),
                self.wf(),
                forall|k: int|
                    0 <= k < hints@.len() ==> self.sp_hint_of((#[trigger] hints@[k]).0) == Some(
                        hints@[k].1,
                    ),
                forall|q: Point|
                    (#[trigger] self.sp_hint_of(q)) is Some ==> hints@.contains(
                        (q, self.sp_hint_of(q).unwrap()),
                    ),
                forall|k1: int, k2: int|
                    0 <= k1 < k2 < hints@.len() ==> (#[trigger] hints@[k1]).0 != (
                    #[trigger] hints@[k2]).0,
                forall|k: int|
                    0 <= k < r@.len() ==> (#[trigger] self.sp_hint_of(r@[k].0)) is Some && r@[k].1
                        as int == self.sp_hint_of(r@[k].0).unwrap() - self.sp_flagged_neighbors(
                        r@[k].0,
                    ) && r@[k].1 > 0,
                forall|kk: int|
                    0 <= kk < j && self.sp_hint_of((#[trigger] hints@[kk]).0).unwrap()
                        > self.sp_flagged_neighbors(hints@[kk].0) ==> r@.contains(
                        (
                            hints@[kk].0,
                            (self.sp_hint_of(hints@[kk].0).unwrap() - self.sp_flagged_neighbors(
                                hints@[kk].0,
                            )) as usize,
                        ),
                    ),
                forall|k: int|
                    0 <= k < r@.len() ==> exists|kk: int|
                        0 <= kk < j && (#[trigger] hints@[kk]).0 == (#[trigger] r@[k]).0,
                forall|k1: int, k2: int|
                    0 <= k1 < k2 < r@.len() ==> (#[trigger] r@[k1]).0 != (#[trigger] r@[k2]).0,
            decreases hints@.len() - j,
        {
            let (p, n) = hints[j];
            proof {
                assert(self.sp_hint_of(p) == Some(n));
                assert(self.sp_valid(p));
                assert(self.sp_width() <= self.sp_width() * self.sp_height()) by (nonlinear_arith)
                    requires
                        0 < self.sp_height(),
                        0 < self.sp_width(),
                ;
                assert(self.sp_height() <= self.sp_width() * self.sp_height())
                    by (nonlinear_arith)
                    requires
                        0 < self.sp_height(),
                        0 < self.sp_width(),
                ;
            }
            let f = self.flagged_neighbor_count(&p);
            let ghost r0 = r@;
            if n > f {
                r.push((p, n - f));
                proof {
                    lemma_push_contains(r0, (p, (n - f) as usize));
                    assert forall|k1: int, k2: int|
                        0 <= k1 < k2 < r@.len() implies (#[trigger] r@[k1]).0 != (
                    #[trigger] r@[k2]).0 by {
                        if k2 == r@.len() - 1 {
                            assert(r@[k1] == r0[k1]);
                            let kk = choose|kk: int|
                                0 <= kk < j && (#[trigger] hints@[kk]).0 == r0[k1].0;
                            assert(hints@[kk].0 != hints@[j as int].0);
                        } else {
                            assert(r@[k1] == r0[k1]);
                            assert(r@[k2] == r0[k2]);
                        }
                    }
                    assert forall|k: int|
                        0 <= k < r@.len() implies exists|kk: int|
                        0 <= kk < j + 1 && (#[trigger] hints@[kk]).0 == (#[trigger] r@[k]).0 by {
                        if k < r0.len() {
                            assert(r@[k] == r0[k]);
                            let kk = choose|kk: int|
                                0 <= kk < j && (#[trigger] hints@[kk]).0 == r0[k].0;
                            assert(hints@[kk].0 == r@[k].0);
                        } else {
                            assert(hints@[j as int].0 == r@[k].0);
                        }
                    }
                }
            }
            j = j + 1;
        }
        proof {
            assert forall|q: Point|
                (#[trigger] self.sp_hint_of(q)) is Some && self.sp_hint_of(q).unwrap()
                    > self.sp_flagged_neighbors(q) implies r@.contains(
                (q, (self.sp_hint_of(q).unwrap() - self.sp_flagged_neighbors(q)) as usize),
            ) by {
                assert(hints@.contains((q, self.sp_hint_of(q).unwrap())));
                let kk = choose|kk: int|
                    0 <= kk < hints@.len() && hints@[kk] == (q, self.sp_hint_of(q).unwrap());
                assert(hints@[kk].0 == q);
            }
        }
        r
    }

    fn collect_matching(&self, want_flags: bool) -> (r: Vec<Point>)
        requires
            self.wf(),
        ensures
            want_flags ==> (forall|k: int| 0 <= k < r@.len() ==> self.sp_is_flag_at(#[trigger] r@[k]))
                && (forall|q: Point| #[trigger] self.sp_is_flag_at(q) ==> r@.contains(q)),
            !want_flags ==> (forall|k: int|
                0 <= k < r@.len() ==> self.sp_is_unknown(#[trigger] r@[k])) && (forall|q: Point|
                #[trigger] self.sp_is_unknown(q) ==> r@.contains(q)),
            forall|k1: int, k2: int|
                0 <= k1 < k2 < r@.len() ==> #[trigger] r@[k1] != #[trigger] r@[k2],
    {
        let ghost w = self.sp_width();
        let ghost h = self.sp_height();
        let area = self.width * self.height;
        let mut r: Vec<Point> = Vec::new();
        let mut i: usize = 0;
        while i < area
            invariant
                i <= area,
                self.wf(),
                area as int == self.sp_area(),
                w == self.sp_width(),
                h == self.sp_height(),
                want_flags ==> (forall|k: int|
                    0 <= k < r@.len() ==> self.sp_is_flag_at(#[trigger] r@[k])) && (forall|q: Point|
                    self.sp_valid(q) && self.sp_index(q) < i && #[trigger] self.sp_is_flag_at(q)
                        ==> r@.contains(q)),
                !want_flags ==> (forall|k: int|
                    0 <= k < r@.len() ==> self.sp_is_unknown(#[trigger] r@[k])) && (forall|q: Point|
                    self.sp_valid(q) && self.sp_index(q) < i && #[trigger] self.sp_is_unknown(q)
                        ==> r@.contains(q)),
                forall|k: int|
                    0 <= k < r@.len() ==> self.sp_valid(#[trigger] r@[k]) && self.sp_index(r@[k])
                        < i,
                forall|k1: int, k2: int|
                    0 <= k1 < k2 < r@.len() ==> #[trigger] r@[k1] != #[trigger] r@[k2],
            decreases area - i,
        {
            let px = i % self.width;
            let py = i / self.width;
            let p = Point { x: px, y: py };
            proof {
                lemma_point_of_index(w, h, i as int);
                assert(p == point_of_index(w, i as int));
                assert(self.sp_index(p) == i as int);
            }
            let hit = if want_flags {
                self.new_flags[i] || self.base_flags[i]
            } else {
                !(self.new_flags[i] || self.base_flags[i]) && !(self.base_revealed[i].is_some()
                    || self.new_safe[i])
            };
            let ghost r0 = r@;
            if hit {
                r.push(p);
                proof {
                    lemma_push_contains(r0, p);
                    assert forall|k1: int, k2: int|
                        0 <= k1 < k2 < r@.len() implies #[trigger] r@[k1] != #[trigger] r@[k2] by {
                        if k2 == r@.len() - 1 {
                            assert(r@[k1] == r0[k1]);
                            assert(self.sp_index(r@[k1]) < i as int);
                            assert(r@[k2] == p);
                        } else {
                            assert(r@[k1] == r0[k1]);
                            assert(r@[k2] == r0[k2]);
                        }
                    }
                }
            }
            proof {
                if want_flags {
                    assert forall|q: Point|
                        self.sp_valid(q) && self.sp_index(q) < i + 1
                            && #[trigger] self.sp_is_flag_at(q) implies r@.contains(q) by {
                        if self.sp_index(q) == i as int {
                            lemma_grid_index_injective(w, h, q, p);
                            assert(r@[r@.len() - 1] == q);
                        }
                    }
                } else {
                    assert forall|q: Point|
                        self.sp_valid(q) && self.sp_index(q) < i + 1
                            && #[trigger] self.sp_is_unknown(q) implies r@.contains(q) by {
                        if self.sp_index(q) == i as int {
                            lemma_grid_index_injective(w, h, q, p);
                            assert(r@[r@.len() - 1] == q);
                        }
                    }
                }
            }
            i = i + 1;
        }
        proof {
            if want_flags {
                assert forall|q: Point| #[trigger] self.sp_is_flag_at(q) implies r@.contains(q) by {
                    lemma_grid_index_bounds(w, h, q);
                }
            } else {
                assert forall|q: Point| #[trigger] self.sp_is_unknown(q) implies r@.contains(q) by {
                    lemma_grid_index_bounds(w, h, q);
                }
            }
        }
        r
    }

    /// The valid neighbors of a point: the neighbors that lie on the board.
    pub fn get_neighbors(&self, point: &Point) -> (r: Vec<Point>)
        requires
            self.wf(),
            point.x < usize::MAX,
            point.y < usize::MAX,
        ensures
            forall|k: int|
                0 <= k < r@.len() ==> self.sp_valid(#[trigger] r@[k]) && neighbors_seq(
                    *point,
                ).contains(r@[k]),
            forall|j: int|
                0 <= j < neighbors_seq(*point).len() && self.sp_valid(
                    #[trigger] neighbors_seq(*point)[j],
                ) ==> r@.contains(neighbors_seq(*point)[j]),
    {
        let nb = point.neighbors();
        let mut r: Vec<Point> = Vec::new();
        let mut j: usize = 0;
        while j < nb.len()
            invariant
                j <= nb@.len(),
                nb@ == neighbors_seq(*point),
                self.wf(),
                forall|k: int|
                    0 <= k < r@.len() ==> self.sp_valid(#[trigger] r@[k]) && neighbors_seq(
                        *point,
                    ).contains(r@[k]),
                forall|jj: int|
                    0 <= jj < j && self.sp_valid(#[trigger] neighbors_seq(*point)[jj])
                        ==> r@.contains(neighbors_seq(*point)[jj]),
            decreases nb@.len() - j,
        {
            let q = nb[j];
            let ghost r0 = r@;
            if q.x < self.width && q.y < self.height {
                r.push(q);
                proof {
                    lemma_push_contains(r0, q);
                    assert(r@[r@.len() - 1] == neighbors_seq(*point)[j as int]);
                }
            }
            proof {
                if q.x < self.width && q.y < self.height {
                } else {
                    assert(!self.sp_valid(q));
                }
            }
            j = j + 1;
        }
        r
    }

    /// The still-unknown neighbors of a point; their number is exactly the
    /// point's unknown-neighbor count.
    pub fn get_unknown_neighbors(&self, point: &Point) -> (r: Vec<Point>)
        requires
            self.wf(),
            point.x < usize::MAX,
            point.y < usize::MAX,
        ensures
            r@.len() == self.sp_unknown_neighbors(*point),
            forall|k: int|
                0 <= k < r@.len() ==> self.sp_is_unknown(#[trigger] r@[k]) && neighbors_seq(
                    *point,
                ).contains(r@[k]),
            forall|j: int|
                0 <= j < neighbors_seq(*point).len() && self.sp_is_unknown(
                    #[trigger] neighbors_seq(*point)[j],
                ) ==> r@.contains(neighbors_seq(*point)[j]),
    {
        let ghost f = unknown_pred(
            self.sp_base_flags(),
            self.sp_new_flags(),
            self.sp_base_revealed(),
            self.sp_new_safe(),
            self.sp_width(),
            self.sp_height(),
        );
        let nb = point.neighbors();
        let mut r: Vec<Point> = Vec::new();
        let mut j: usize = 0;
        while j < nb.len()
            invariant
                j <= nb@.len(),
                nb@ == neighbors_seq(*point),
                self.wf(),
                f == unknown_pred(
                    self.sp_base_flags(),
                    self.sp_new_flags(),
                    self.sp_base_revealed(),
                    self.sp_new_safe(),
                    self.sp_width(),
                    self.sp_height(),
                ),
                r@.len() == count_if(nb@.take(j as int), f),
                forall|k: int|
                    0 <= k < r@.len() ==> self.sp_is_unknown(#[trigger] r@[k]) && neighbors_seq(
                        *point,
                    ).contains(r@[k]),
                forall|jj: int|
                    0 <= jj < j && self.sp_is_unknown(#[trigger] neighbors_seq(*point)[jj])
                        ==> r@.contains(neighbors_seq(*point)[jj]),
            decreases nb@.len() - j,
        {
            let q = nb[j];
            proof {
                lemma_count_if_take_step(nb@, f, j as int);
            }
            let unknown = if q.x < self.width && q.y < self.height {
                let iq = self.index_of(&q);
                !(self.new_flags[iq] || self.base_flags[iq]) && !(self.base_revealed[iq].is_some()
                    || self.new_safe[iq])
            } else {
                false
            };
            let ghost r0 = r@;
            if unknown {
                r.push(q);
                proof {
                    lemma_push_contains(r0, q);
                    assert(r@[r@.len() - 1] == neighbors_seq(*point)[j as int]);
                }
            }
            proof {
                assert(f(q) == self.sp_is_unknown(q));
            }
            j = j + 1;
        }
        proof {
            lemma_count_if_take_full(nb@, f);
        }
        r
    }

    /// How many neighbors of a point carry a flag, real or hypothetical.
    pub(crate) fn flagged_neighbor_count(&self, point: &Point) -> (n: usize)
        requires
            self.wf(),
            point.x < usize::MAX,
            point.y < usize::MAX,
        ensures
            n as int == self.sp_flagged_neighbors(*point),
            n <= 8,
    {
        let ghost f = flag_pred(
            self.sp_base_flags(),
            self.sp_new_flags(),
            self.sp_width(),
            self.sp_height(),
        );
        let nb = point.neighbors();
        let mut n: usize = 0;
        let mut j: usize = 0;
        assert(nb@.len() <= 8);
        while j < nb.len()
            invariant
                j <= nb@.len() <= 8,
                n <= j,
                nb@ == neighbors_seq(*point),
                self.wf(),
                f == flag_pred(
                    self.sp_base_flags(),
                    self.sp_new_flags(),
                    self.sp_width(),
                    self.sp_height(),
                ),
                n as int == count_if(nb@.take(j as int), f),
            decreases nb@.len() - j,
        {
            let q = nb[j];
            proof {
                lemma_count_if_take_step(nb@, f, j as int);
            }
            if q.x < self.width && q.y < self.height {
                let iq = self.index_of(&q);
                if self.new_flags[iq] || self.base_flags[iq] {
                    n = n + 1;
                }
                proof {
                    assert(f(q) == self.sp_is_flag_at(q));
                }
            } else {
                proof {
                    assert(!f(q));
                }
            }
            j = j + 1;
        }
        proof {
            lemma_count_if_take_full(nb@, f);
        }
        n
    }

    /// Every hint is consistent with the flags: no revealed hint has more
    /// flagged neighbors than its number.
    pub open spec fn sp_consistent(&self) -> bool {
        forall|q: Point|
            (#[trigger] self.sp_hint_of(q)) is Some ==> self.sp_flagged_neighbors(q)
                <= self.sp_hint_of(q).unwrap()
    }

    /// Checks that no revealed hint already has more flagged neighbors than
    /// its number allows.
    pub fn is_valid(&self) -> (r: bool)
        requires
            self.wf(),
        ensures
            r == self.sp_consistent(),
    {
        let ghost w = self.sp_width();
        let ghost h = self.sp_height();
        let area = self.width * self.height;
        let mut i: usize = 0;
        while i < area
            invariant
                i <= area,
                self.wf(),
                area as int == self.sp_area(),
                w == self.sp_width(),
                h == self.sp_height(),
                forall|q: Point|
                    self.sp_valid(q) && self.sp_index(q) < i && (#[trigger] self.sp_hint_of(
                        q,
                    )) is Some ==> self.sp_flagged_neighbors(q) <= self.sp_hint_of(q).unwrap(),
            decreases area - i,
        {
            let px = i % self.width;
            let py = i / self.width;
            let p = Point { x: px, y: py };
            proof {
                lemma_point_of_index(w, h, i as int);
                assert(p == point_of_index(w, i as int));
                assert(self.sp_index(p) == i as int);
            }
            if let Some(Tile::Hint(n)) = self.base_revealed[i] {
                let flagged = self.flagged_neighbor_count(&p);
                if flagged > n {
                    proof {
                        assert(self.sp_hint_of(p) == Some(n));
                        assert(!self.sp_consistent());
                    }
                    return false;
                }
            }
            proof {
                assert forall|q: Point|
                    self.sp_valid(q) && self.sp_index(q) < i + 1 && (#[trigger] self.sp_hint_of(
                        q,
                    )) is Some implies self.sp_flagged_neighbors(q) <= self.sp_hint_of(
                    q,
                ).unwrap() by {
                    if self.sp_index(q) == i as int {
                        lemma_grid_index_injective(w, h, q, p);
                    }
                }
            }
            i = i + 1;
        }
        proof {
            assert forall|q: Point|
                (#[trigger] self.sp_hint_of(q)) is Some implies self.sp_flagged_neighbors(q)
                <= self.sp_hint_of(q).unwrap() by {
                lemma_grid_index_bounds(w, h, q);
            }
        }
        true
    }

    /// Turns the overlay into a batch of game actions: one `Flag` for each
    /// deduced mine, then one `Reveal` for each deduced safe point, each
    /// group in the order the deduction found them.
    pub fn into_actions(self) -> (r: Vec<GameAction>)
        requires
            self.wf(),
        ensures
            r@.len() == self.sp_flag_list().len() + self.sp_safe_list().len(),
            forall|k: int|
                0 <= k < self.sp_flag_list().len() ==> #[trigger] r@[k] == GameAction::Flag(
                    self.sp_flag_list()[k],
                ),
            forall|k: int|
                0 <= k < self.sp_safe_list().len() ==> #[trigger] r@[self.sp_flag_list().len() + k]
                    == GameAction::Reveal(self.sp_safe_list()[k]),
            forall|k: int| 0 <= k < r@.len() ==> action_from_overlay(self, #[trigger] r@[k]),
            forall|q: Point|
                #[trigger] self.sp_is_new_flag(q) ==> r@.contains(GameAction::Flag(q)),
            forall|q: Point|
                #[trigger] self.sp_is_new_safe(q) ==> r@.contains(GameAction::Reveal(q)),
    {
        let mut r: Vec<GameAction> = Vec::new();
        let mut j: usize = 0;
        while j < self.flag_list.len()
            invariant
                j <= self.sp_flag_list().len(),
                self.wf(),
                r@.len() == j,
                forall|k: int|
                    0 <= k < j ==> #[trigger] r@[k] == GameAction::Flag(self.sp_flag_list()[k]),
            decreases self.sp_flag_list().len() - j,
        {
            r.push(GameAction::Flag(self.flag_list[j]));
            j = j + 1;
        }
        let ghost fl = self.sp_flag_list().len() as int;
        let mut k: usize = 0;
        while k < self.safe_list.len()
            invariant
                k <= self.sp_safe_list().len(),
                self.wf(),
                fl == self.sp_flag_list().len(),
                r@.len() == fl + k,
                forall|m: int|
                    0 <= m < fl ==> #[trigger] r@[m] == GameAction::Flag(self.sp_flag_list()[m]),
                forall|m: int|
                    0 <= m < k ==> #[trigger] r@[fl + m] == GameAction::Reveal(
                        self.sp_safe_list()[m],
                    ),
            decreases self.sp_safe_list().len() - k,
        {
            r.push(GameAction::Reveal(self.safe_list[k]));
            k = k + 1;
        }
        proof {
            assert forall|m: int|
                0 <= m < r@.len() implies action_from_overlay(self, #[trigger] r@[m]) by {
                if m < fl {
                    assert(r@[m] == GameAction::Flag(self.sp_flag_list()[m]));
                    assert(self.sp_is_new_flag(self.sp_flag_list()[m]));
                } else {
                    assert(r@[fl + (m - fl)] == GameAction::Reveal(self.sp_safe_list()[m - fl]));
                    assert(fl + (m - fl) == m);
                    assert(self.sp_is_new_safe(self.sp_safe_list()[m - fl]));
                }
            }
            assert forall|q: Point| #[trigger] self.sp_is_new_flag(q) implies r@.contains(
                GameAction::Flag(q),
            ) by {
                let m = choose|m: int|
                    0 <= m < self.sp_flag_list().len() && self.sp_flag_list()[m] == q;
                assert(r@[m] == GameAction::Flag(q));
            }
            assert forall|q: Point| #[trigger] self.sp_is_new_safe(q) implies r@.contains(
                GameAction::Reveal(q),
            ) by {
                let m = choose|m: int|
                    0 <= m < self.sp_safe_list().len() && self.sp_safe_list()[m] == q;
                assert(r@[fl + m] == GameAction::Reveal(q));
            }
        }
        r
    }
}

} // verus!
