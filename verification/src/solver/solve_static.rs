use vstd::prelude::*;
use crate::counting::{
    and_pred, count_if, id_bool, lemma_count_disjoint, lemma_count_if_bounds,
    lemma_count_if_lockstep, lemma_count_if_none, lemma_count_if_pinned, lemma_count_if_pos,
    lemma_count_if_split,
};
use crate::grid::{adj_mines, lemma_point_of_index, mine_pred, point_of_index};
use crate::minesweeper::{GameStatus, Tile};
use crate::point::{neighbors_seq, Point};
use crate::solver::gamestate::{flag_pred, unknown_pred, SolveState};

verus! {

/// A revealed hint speaks the truth about its neighborhood: on a running,
/// consistent overlay its number splits into the flagged neighbors, all of
/// which are mines when the flags are sound, and the mines still hidden
/// among its unknown neighbors.
proof fn lemma_hint_partition(st: SolveState, p: Point, n: usize)
    requires
        st.wf(),
        st.flags_sound(),
        st.safes_sound(),
        st.sp_base().sp_status() is InProgress,
        st.sp_hint_of(p) == Some(n),
    ensures
        n as int == st.sp_flagged_neighbors(p) + count_if(
            neighbors_seq(p),
            and_pred(
                mine_pred(st.sp_base().sp_mines(), st.sp_width(), st.sp_height()),
                unknown_pred(
                    st.sp_base_flags(),
                    st.sp_new_flags(),
                    st.sp_base_revealed(),
                    st.sp_new_safe(),
                    st.sp_width(),
                    st.sp_height(),
                ),
            ),
        ),
{
    let w = st.sp_width();
    let h = st.sp_height();
    let base = st.sp_base();
    let s = neighbors_seq(p);
    let m = mine_pred(base.sp_mines(), w, h);
    let fl = flag_pred(st.sp_base_flags(), st.sp_new_flags(), w, h);
    let un = unknown_pred(
        st.sp_base_flags(),
        st.sp_new_flags(),
        st.sp_base_revealed(),
        st.sp_new_safe(),
        w,
        h,
    );
    // The hint is truthful: its number is the count of mined neighbors.
    assert(base.sp_revealed_tile(p) == Some(Tile::Hint(n)));
    assert(base.sp_revealed_tile(p) == Some(base.sp_derived_tile(p)));
    reveal(adj_mines);
    lemma_count_if_bounds(s, m);
    assert(count_if(s, m) == n as int);
    // Each neighbor that holds a mine is either flagged or still unknown:
    // a revealed or safe-marked neighbor cannot hold one.
    assert forall|i: int|
        0 <= i < s.len() implies (m(s[i]) <==> (and_pred(m, fl)(s[i]) || and_pred(m, un)(s[i])))
        && !(and_pred(m, fl)(s[i]) && and_pred(m, un)(s[i])) by {
        let q = s[i];
        if m(q) {
            assert(base.sp_is_mine(q));
            if st.sp_is_revealed_at(q) {
                if st.sp_base_revealed()[st.sp_index(q)] is Some {
                    assert(base.sp_revealed_tile(q) is Some);
                    assert(base.mines_unrevealed());
                    assert(false);
                } else {
                    assert(st.sp_is_new_safe(q));
                    assert(false);
                }
            }
        }
    }
    lemma_count_if_split(s, m, and_pred(m, fl), and_pred(m, un));
    // Sound flags make the flagged and the flagged-and-mined neighbors one
    // and the same set.
    assert forall|i: int| 0 <= i < s.len() implies and_pred(m, fl)(s[i]) == fl(s[i]) by {
        let q = s[i];
        if fl(q) {
            assert(st.sp_is_flag_at(q));
            assert(base.sp_is_mine(q));
        }
    }
    lemma_count_if_lockstep(s, s, and_pred(m, fl), fl);
}

impl SolveState {
    /// Points the flag rule proves mined: for every revealed hint whose
    /// outstanding mine count equals its number of unknown neighbors, all
    /// those unknown neighbors, and nothing else.
    fn flag_known_points(&self) -> (r: Vec<Point>)
        requires
            self.wf(),
        ensures
            forall|k: int|
                0 <= k < r@.len() ==> self.sp_valid(#[trigger] r@[k]) && self.sp_is_unknown(r@[k]),
            forall|k: int|
                0 <= k < r@.len() ==> self.sp_flag_rule_yields(#[trigger] r@[k]),
            forall|p: Point, q: Point|
                self.sp_flag_rule_at(p) && self.sp_is_unknown(q) && #[trigger] neighbors_seq(
                    p,
                ).contains(q) ==> r@.contains(q),
            self.flags_sound() && self.safes_sound() && self.sp_base().sp_status()
                is InProgress ==> (forall|k: int|
                0 <= k < r@.len() ==> self.sp_base().sp_is_mine(#[trigger] r@[k])),
    {
        let ghost sound = self.flags_sound() && self.safes_sound() && self.sp_base().sp_status()
            is InProgress;
        let hints = self.get_game_hints();
        let mut r: Vec<Point> = Vec::new();
        let mut j: usize = 0;
        while j < hints.len()
            invariant
                self.wf(),
                sound == (self.flags_sound() && self.safes_sound() && self.sp_base().sp_status()
                    is InProgress),
                forall|k: int|
                    0 <= k < hints@.len() ==> self.sp_hint_of((#[trigger] hints@[k]).0) == Some(
                        hints@[k].1,
                    ),
                forall|q: Point|
                    (#[trigger] self.sp_hint_of(q)) is Some ==> hints@.contains(
                        (q, self.sp_hint_of(q).unwrap()),
                    ),
                forall|k: int|
                    0 <= k < r@.len() ==> self.sp_valid(#[trigger] r@[k]) && self.sp_is_unknown(
                        r@[k],
                    ),
                forall|k: int|
                    0 <= k < r@.len() ==> self.sp_flag_rule_yields(#[trigger] r@[k]),
                forall|kk: int, q: Point|
                    #![trigger neighbors_seq((hints@[kk]).0).contains(q)]
                    0 <= kk < j && self.sp_flag_rule_at(hints@[kk].0) && self.sp_is_unknown(q)
                        && neighbors_seq(hints@[kk].0).contains(q) ==> r@.contains(q),
                sound ==> (forall|k: int|
                    0 <= k < r@.len() ==> self.sp_base().sp_is_mine(#[trigger] r@[k])),
            decreases hints@.len() - j,
        {
            let (p, n) = hints[j];
            proof {
                assert(self.sp_hint_of(p) == Some(n));
                assert(self.sp_valid(p));
                assert(self.sp_width() <= self.sp_width() * self.sp_height()) by (nonlinear_arith)
                    requires
                        0 < self.sp_height(),
                        0 < self.sp_width(),
                ;
                assert(self.sp_height() <= self.sp_width() * self.sp_height())
                    by (nonlinear_arith)
                    requires
                        0 < self.sp_height(),
                        0 < self.sp_width(),
                ;
            }
            let f = self.flagged_neighbor_count(&p);
            let mut u = self.get_unknown_neighbors(&p);
            let ghost r0 = r@;
            let ghost u0 = u@;
            if n > f && n - f == u.len() {
                proof {
                    assert(self.sp_flag_rule_at(p));
                    if sound {
                        lemma_flag_rule(*self, p, n);
                        assert forall|k: int|
                            0 <= k < u@.len() implies self.sp_base().sp_is_mine(
                            #[trigger] u@[k],
                        ) by {
                            assert(neighbors_seq(p).contains(u@[k]));
                        }
                    }
                }
                r.append(&mut u);
                proof {
                    assert forall|k: int|
                        0 <= k < r@.len() implies self.sp_valid(#[trigger] r@[k])
                        && self.sp_is_unknown(r@[k]) && (sound ==> self.sp_base().sp_is_mine(
                        r@[k],
                    )) && self.sp_flag_rule_yields(r@[k]) by {
                        if k < r0.len() {
                            assert(r@[k] == r0[k]);
                        } else {
                            assert(r@[k] == u0[k - r0.len()]);
                            assert(self.sp_flag_rule_at(p) && neighbors_seq(p).contains(r@[k]));
                        }
                    }
                }
            }
            proof {
                assert forall|kk: int, q: Point|
                    #![trigger neighbors_seq((hints@[kk]).0).contains(q)]
                    0 <= kk < j + 1 && self.sp_flag_rule_at(hints@[kk].0) && self.sp_is_unknown(q)
                        && neighbors_seq(hints@[kk].0).contains(q) implies r@.contains(q) by {
                    if kk < j {
                        assert(r0.contains(q));
                        let m = choose|m: int| 0 <= m < r0.len() && r0[m] == q;
                        assert(r@[m] == q);
                    } else {
                        assert(hints@[kk].0 == p);
                        let nb = neighbors_seq(p);
                        let i = choose|i: int| 0 <= i < nb.len() && nb[i] == q;
                        assert(u0.contains(nb[i]));
                        assert(u0.len() > 0);
                        assert(n as int - f as int == self.sp_unknown_neighbors(p));
                        assert(n > f && n as int - f as int == u0.len());
                        assert(r@ == r0 + u0);
                        let m = choose|m: int| 0 <= m < u0.len() && u0[m] == q;
                        assert(r@[r0.len() + m] == q);
                    }
                }
                assert forall|k: int|
                    0 <= k < r@.len() implies self.sp_flag_rule_yields(#[trigger] r@[k]) by {
                    if k < r0.len() {
                        assert(r@[k] == r0[k]);
                        assert(self.sp_flag_rule_yields(r0[k]));
                    } else {
                        assert(r@ == r0 + u0);
                        assert(r@[k] == u0[k - r0.len()]);
                        assert(self.sp_flag_rule_at(p) && neighbors_seq(p).contains(r@[k]));
                    }
                }
            }
            j = j + 1;
        }
        proof {
            assert forall|p: Point, q: Point|
                self.sp_flag_rule_at(p) && self.sp_is_unknown(q) && #[trigger] neighbors_seq(
                p,
            ).contains(q) implies r@.contains(q) by {
                assert(hints@.contains((p, self.sp_hint_of(p).unwrap())));
                let kk = choose|kk: int|
                    0 <= kk < hints@.len() && hints@[kk] == (p, self.sp_hint_of(p).unwrap());
                assert(hints@[kk].0 == p);
                assert(neighbors_seq(hints@[kk].0).contains(q));
            }
        }
        r
    }

    /// Points the safe rule proves clear: for every revealed hint whose
    /// flagged neighbors already account for its whole number, all its
    /// remaining unknown neighbors, and nothing else.
    fn reveal_known_safes(&self) -> (r: Vec<Point>)
        requires
            self.wf(),
        ensures
            forall|k: int|
                0 <= k < r@.len() ==> self.sp_valid(#[trigger] r@[k]) && self.sp_is_unknown(r@[k]),
            forall|k: int|
                0 <= k < r@.len() ==> self.sp_safe_rule_yields(#[trigger] r@[k]),
            forall|p: Point, q: Point|
                self.sp_safe_rule_at(p) && self.sp_is_unknown(q) && #[trigger] neighbors_seq(
                    p,
                ).contains(q) ==> r@.contains(q),
            self.flags_sound() && self.safes_sound() && self.sp_base().sp_status()
                is InProgress ==> (forall|k: int|
                0 <= k < r@.len() ==> !self.sp_base().sp_is_mine(#[trigger] r@[k])),
    {
        let ghost sound = self.flags_sound() && self.safes_sound() && self.sp_base().sp_status()
            is InProgress;
        let hints = self.get_game_hints();
        let mut r: Vec<Point> = Vec::new();
        let mut j: usize = 0;
        while j < hints.len()
            invariant
                self.wf(),
                sound == (self.flags_sound() && self.safes_sound() && self.sp_base().sp_status()
                    is InProgress),
                forall|k: int|
                    0 <= k < hints@.len() ==> self.sp_hint_of((#[trigger] hints@[k]).0) == Some(
                        hints@[k].1,
                    ),
                forall|q: Point|
                    (#[trigger] self.sp_hint_of(q)) is Some ==> hints@.contains(
                        (q, self.sp_hint_of(q).unwrap()),
                    ),
                forall|k: int|
                    0 <= k < r@.len() ==> self.sp_valid(#[trigger] r@[k]) && self.sp_is_unknown(
                        r@[k],
                    ),
                forall|k: int|
                    0 <= k < r@.len() ==> self.sp_safe_rule_yields(#[trigger] r@[k]),
                forall|kk: int, q: Point|
                    #![trigger neighbors_seq((hints@[kk]).0).contains(q)]
                    0 <= kk < j && self.sp_safe_rule_at(hints@[kk].0) && self.sp_is_unknown(q)
                        && neighbors_seq(hints@[kk].0).contains(q) ==> r@.contains(q),
                sound ==> (forall|k: int|
                    0 <= k < r@.len() ==> !self.sp_base().sp_is_mine(#[trigger] r@[k])),
            decreases hints@.len() - j,
        {
            let (p, n) = hints[j];
            proof {
                assert(self.sp_hint_of(p) == Some(n));
                assert(self.sp_valid(p));
                assert(self.sp_width() <= self.sp_width() * self.sp_height()) by (nonlinear_arith)
                    requires
                        0 < self.sp_height(),
                        0 < self.sp_width(),
                ;
                assert(self.sp_height() <= self.sp_width() * self.sp_height())
                    by (nonlinear_arith)
                    requires
                        0 < self.sp_height(),
                        0 < self.sp_width(),
                ;
            }
            let f = self.flagged_neighbor_count(&p);
            let mut u = self.get_unknown_neighbors(&p);
            let ghost r0 = r@;
            let ghost u0 = u@;
            if n == f {
                proof {
                    assert(self.sp_safe_rule_at(p));
                    if sound {
                        lemma_safe_rule(*self, p, n);
                        assert forall|k: int|
                            0 <= k < u@.len() implies !self.sp_base().sp_is_mine(
                            #[trigger] u@[k],
                        ) by {
                            assert(neighbors_seq(p).contains(u@[k]));
                        }
                    }
                }
                r.append(&mut u);
                proof {
                    assert forall|k: int|
                        0 <= k < r@.len() implies self.sp_valid(#[trigger] r@[k])
                        && self.sp_is_unknown(r@[k]) && (sound ==> !self.sp_base().sp_is_mine(
                        r@[k],
                    )) && self.sp_safe_rule_yields(r@[k]) by {
                        if k < r0.len() {
                            assert(r@[k] == r0[k]);
                        } else {
                            assert(r@[k] == u0[k - r0.len()]);
                            assert(self.sp_safe_rule_at(p) && neighbors_seq(p).contains(r@[k]));
                        }
                    }
                    assert forall|kk: int, q: Point|
                        #![trigger neighbors_seq((hints@[kk]).0).contains(q)]
                        0 <= kk < j + 1 && self.sp_safe_rule_at(hints@[kk].0)
                            && self.sp_is_unknown(q) && neighbors_seq(hints@[kk].0).contains(
                            q,
                        ) implies r@.contains(q) by {
                        if kk < j {
                            assert(r0.contains(q));
                            let m = choose|m: int| 0 <= m < r0.len() && r0[m] == q;
                            assert(r@[m] == q);
                        } else {
                            assert(hints@[kk].0 == p);
                            let nb = neighbors_seq(p);
                            let i = choose|i: int| 0 <= i < nb.len() && nb[i] == q;
                            assert(u0.contains(nb[i]));
                            let m = choose|m: int| 0 <= m < u0.len() && u0[m] == q;
                            assert(r@[r0.len() + m] == q);
                        }
                    }
                }
            } else {
                proof {
                    assert forall|kk: int, q: Point|
                        #![trigger neighbors_seq((hints@[kk]).0).contains(q)]
                        0 <= kk < j + 1 && self.sp_safe_rule_at(hints@[kk].0)
                            && self.sp_is_unknown(q) && neighbors_seq(hints@[kk].0).contains(
                            q,
                        ) implies r@.contains(q) by {
                        if kk == j {
                            assert(hints@[kk].0 == p);
                            assert(self.sp_hint_of(p).unwrap() == n);
                            assert(false);
                        }
                    }
                }
            }
            proof {
                assert forall|k: int|
                    0 <= k < r@.len() implies self.sp_safe_rule_yields(#[trigger] r@[k]) by {
                    if k < r0.len() {
                        assert(r@[k] == r0[k]);
                        assert(self.sp_safe_rule_yields(r0[k]));
                    } else {
                        assert(r@ == r0 + u0);
                        assert(r@[k] == u0[k - r0.len()]);
                        assert(self.sp_safe_rule_at(p) && neighbors_seq(p).contains(r@[k]));
                    }
                }
            }
            j = j + 1;
        }
        proof {
            assert forall|p: Point, q: Point|
                self.sp_safe_rule_at(p) && self.sp_is_unknown(q) && #[trigger] neighbors_seq(
                p,
            ).contains(q) implies r@.contains(q) by {
                assert(hints@.contains((p, self.sp_hint_of(p).unwrap())));
                let kk = choose|kk: int|
                    0 <= kk < hints@.len() && hints@[kk] == (p, self.sp_hint_of(p).unwrap());
                assert(hints@[kk].0 == p);
                assert(neighbors_seq(hints@[kk].0).contains(q));
            }
        }
        r
    }

    /// Runs both deduction rules to their joint fixed point: while either
    /// rule still finds a certain mine or a certain safe cell, the overlay
    /// grows; the overlays only grow and never shrink, and since flags and
    /// safes are disjoint subsets of the board the loop halts after at most
    /// one round per board cell and one final round that finds nothing. On
    /// return no hint admits either rule any longer.
    pub fn static_solve(&mut self)
        requires
            old(self).wf(),
        ensures
            final(self).wf(),
            final(self).sp_base() == old(self).sp_base(),
            final(self).sp_width() == old(self).sp_width(),
            final(self).sp_height() == old(self).sp_height(),
            final(self).sp_base_revealed() == old(self).sp_base_revealed(),
            final(self).sp_base_flags() == old(self).sp_base_flags(),
            forall|q: Point|
                old(self).sp_is_new_flag(q) ==> #[trigger] final(self).sp_is_new_flag(q),
            forall|q: Point|
                old(self).sp_is_new_safe(q) ==> #[trigger] final(self).sp_is_new_safe(q),
            final(self).sp_at_fixed_point(),
            old(self).flags_sound() && old(self).safes_sound() && old(self).sp_base().sp_status()
                is InProgress ==> final(self).flags_sound() && final(self).safes_sound(),
    {
        let ghost hyp = old(self).flags_sound() && old(self).safes_sound() && old(
            self,
        ).sp_base().sp_status() is InProgress;
        let mut changed = true;
        while changed
            invariant
                self.wf(),
                self.sp_base() == old(self).sp_base(),
                self.sp_width() == old(self).sp_width(),
                self.sp_height() == old(self).sp_height(),
                self.sp_base_revealed() == old(self).sp_base_revealed(),
                self.sp_base_flags() == old(self).sp_base_flags(),
                hyp == (old(self).flags_sound() && old(self).safes_sound() && old(
                    self,
                ).sp_base().sp_status() is InProgress),
                forall|q: Point|
                    old(self).sp_is_new_flag(q) ==> #[trigger] self.sp_is_new_flag(q),
                forall|q: Point|
                    old(self).sp_is_new_safe(q) ==> #[trigger] self.sp_is_new_safe(q),
                !changed ==> self.sp_at_fixed_point(),
                hyp ==> self.flags_sound() && self.safes_sound(),
            decreases self.sp_area() + 1 - count_if(self.sp_new_flags(), id_bool()) - count_if(
                self.sp_new_safe(),
                id_bool(),
            ) + (if changed {
                1int
            } else {
                0int
            }),
        {
            let ghost at_start = *self;
            proof {
                self.lemma_overlays_disjoint();
            }
            let fl = self.flag_known_points();
            proof {
                assert forall|k: int|
                    0 <= k < fl@.len() implies self.sp_valid(#[trigger] fl@[k])
                    && !self.sp_is_revealed_at(fl@[k]) && !self.sp_is_base_flag(fl@[k]) by {
                    assert(self.sp_is_unknown(fl@[k]));
                }
            }
            let ch1 = self.add_flags(&fl);
            proof {
                if hyp {
                    assert forall|q: Point| #[trigger] self.sp_is_flag_at(
                        q,
                    ) implies self.sp_base().sp_is_mine(q) by {
                        if !at_start.sp_is_flag_at(q) {
                            assert(fl@.contains(q));
                            let k = choose|k: int| 0 <= k < fl@.len() && fl@[k] == q;
                            assert(at_start.sp_base().sp_is_mine(fl@[k]));
                        }
                    }
                }
            }
            let ghost mid = *self;
            let sf = self.reveal_known_safes();
            proof {
                assert forall|k: int|
                    0 <= k < sf@.len() implies self.sp_valid(#[trigger] sf@[k])
                    && !self.sp_is_flag_at(sf@[k]) && !self.sp_is_base_revealed(sf@[k]) by {
                    assert(self.sp_is_unknown(sf@[k]));
                }
            }
            let ch2 = self.add_safes(&sf);
            proof {
                if hyp {
                    assert forall|q: Point| #[trigger] self.sp_is_new_safe(
                        q,
                    ) implies !self.sp_base().sp_is_mine(q) by {
                        if !mid.sp_is_new_safe(q) {
                            assert(sf@.contains(q));
                            let k = choose|k: int| 0 <= k < sf@.len() && sf@[k] == q;
                            assert(!mid.sp_base().sp_is_mine(sf@[k]));
                        }
                    }
                    assert forall|q: Point| #[trigger] self.sp_is_flag_at(
                        q,
                    ) implies self.sp_base().sp_is_mine(q) by {
                        assert(mid.sp_is_flag_at(q));
                    }
                }
                self.lemma_overlays_disjoint();
            }
            changed = ch1 || ch2;
            proof {
                if !ch1 && !ch2 {
                    assert(*self == at_start);
                    let un = unknown_pred(
                        self.sp_base_flags(),
                        self.sp_new_flags(),
                        self.sp_base_revealed(),
                        self.sp_new_safe(),
                        self.sp_width(),
                        self.sp_height(),
                    );
                    assert forall|p: Point|
                        #[trigger] self.sp_flag_rule_at(p) implies self.sp_unknown_neighbors(p)
                        == 0 by {
                        let nb = neighbors_seq(p);
                        lemma_count_if_bounds(nb, un);
                        if self.sp_unknown_neighbors(p) != 0 {
                            lemma_count_if_pos(nb, un);
                            let i = choose|i: int| 0 <= i < nb.len() && un(#[trigger] nb[i]);
                            let q = nb[i];
                            assert(self.sp_is_unknown(q));
                            assert(nb.contains(q));
                            assert(fl@.contains(q));
                            assert(self.sp_is_unknown(fl@[0]));
                            assert(!at_start.sp_is_new_flag(fl@[0]));
                            assert(false);
                        }
                    }
                    assert forall|p: Point|
                        #[trigger] self.sp_safe_rule_at(p) implies self.sp_unknown_neighbors(p)
                        == 0 by {
                        let nb = neighbors_seq(p);
                        lemma_count_if_bounds(nb, un);
                        if self.sp_unknown_neighbors(p) != 0 {
                            lemma_count_if_pos(nb, un);
                            let i = choose|i: int| 0 <= i < nb.len() && un(#[trigger] nb[i]);
                            let q = nb[i];
                            assert(self.sp_is_unknown(q));
                            assert(nb.contains(q));
                            assert(sf@.contains(q));
                            assert(self.sp_is_unknown(sf@[0]));
                            assert(!mid.sp_is_new_safe(sf@[0]));
                            assert(false);
                        }
                    }
                }
            }
        }
    }

    /// The overlay's flag and safe grids never mark the same cell.
    proof fn lemma_overlays_disjoint(&self)
        requires
            self.wf(),
        ensures
            count_if(self.sp_new_flags(), id_bool()) + count_if(self.sp_new_safe(), id_bool())
                <= self.sp_area(),
    {
        let w = self.sp_width();
        let h = self.sp_height();
        assert(w <= w * h && h <= w * h) by (nonlinear_arith)
            requires
                0 < w,
                0 < h,
        ;
        assert forall|i: int|
            0 <= i < self.sp_new_flags().len() implies !(self.sp_new_flags()[i]
            && self.sp_new_safe()[i]) by {
            if self.sp_new_flags()[i] && self.sp_new_safe()[i] {
                lemma_point_of_index(w, h, i);
                let q = point_of_index(w, i);
                assert(self.sp_is_flag_at(q));
                assert(self.sp_is_revealed_at(q));
            }
        }
        lemma_count_disjoint(self.sp_new_flags(), self.sp_new_safe());
    }
}

/// The flag rule is sound: when a truthful hint's outstanding mines exactly
/// fill its unknown neighborhood, every unknown neighbor holds a mine.
proof fn lemma_flag_rule(st: SolveState, p: Point, n: usize)
    requires
        st.wf(),
        st.flags_sound(),
        st.safes_sound(),
        st.sp_base().sp_status() is InProgress,
        st.sp_hint_of(p) == Some(n),
        n as int - st.sp_flagged_neighbors(p) == st.sp_unknown_neighbors(p),
    ensures
        forall|q: Point|
            #[trigger] st.sp_is_unknown(q) && neighbors_seq(p).contains(q)
                ==> st.sp_base().sp_is_mine(q),
{
    let w = st.sp_width();
    let h = st.sp_height();
    let s = neighbors_seq(p);
    let m = mine_pred(st.sp_base().sp_mines(), w, h);
    let un = unknown_pred(
        st.sp_base_flags(),
        st.sp_new_flags(),
        st.sp_base_revealed(),
        st.sp_new_safe(),
        w,
        h,
    );
    lemma_hint_partition(st, p, n);
    assert(count_if(s, and_pred(m, un)) == count_if(s, un));
    assert forall|i: int| 0 <= i < s.len() implies (and_pred(m, un)(s[i]) ==> un(s[i])) by {}
    lemma_count_if_pinned(s, and_pred(m, un), un);
    assert forall|q: Point|
        #[trigger] st.sp_is_unknown(q) && s.contains(q) implies st.sp_base().sp_is_mine(q) by {
        let i = choose|i: int| 0 <= i < s.len() && s[i] == q;
        assert(un(s[i]));
        assert(and_pred(m, un)(s[i]));
    }
}

/// The safe rule is sound: when a truthful hint's number is already covered
/// by its flagged neighbors, none of its unknown neighbors holds a mine.
proof fn lemma_safe_rule(st: SolveState, p: Point, n: usize)
    requires
        st.wf(),
        st.flags_sound(),
        st.safes_sound(),
        st.sp_base().sp_status() is InProgress,
        st.sp_hint_of(p) == Some(n),
        n as int == st.sp_flagged_neighbors(p),
    ensures
        forall|q: Point|
            #[trigger] st.sp_is_unknown(q) && neighbors_seq(p).contains(q)
                ==> !st.sp_base().sp_is_mine(q),
{
    let w = st.sp_width();
    let h = st.sp_height();
    let s = neighbors_seq(p);
    let m = mine_pred(st.sp_base().sp_mines(), w, h);
    let un = unknown_pred(
        st.sp_base_flags(),
        st.sp_new_flags(),
        st.sp_base_revealed(),
        st.sp_new_safe(),
        w,
        h,
    );
    lemma_hint_partition(st, p, n);
    assert(count_if(s, and_pred(m, un)) == 0);
    lemma_count_if_none(s, and_pred(m, un));
    assert forall|q: Point|
        #[trigger] st.sp_is_unknown(q) && s.contains(q) implies !st.sp_base().sp_is_mine(q) by {
        let i = choose|i: int| 0 <= i < s.len() && s[i] == q;
        assert(!(and_pred(m, un)(s[i])));
        assert(un(s[i]));
    }
}

} // verus!
