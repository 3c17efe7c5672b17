pub mod gamestate;
mod solve_static;

use vstd::prelude::*;
use crate::counting::{count_if, id_bool, is_some_pred, lemma_count_if_bounds,
    lemma_count_if_lockstep};
use crate::grid::cells_outside_zone;
use crate::minesweeper::{flag_post, reveal_post, GameAction, GameStatus, MineSweeper, Tile};
use crate::point::{chebyshev, neighbors_seq, Point};
use crate::solver::gamestate::{action_from_overlay, flag_pred, unknown_pred, SolveState};

verus! {

/// The hint number the board shows at `q`, if a hint stands there.
pub open spec fn board_hint_of(g: MineSweeper, q: Point) -> Option<usize> {
    match g.sp_revealed_tile(q) {
        Some(Tile::Hint(n)) => Some(n),
        _ => None,
    }
}

/// Whether a point carries one of the board's own flags, as a closure
/// shared by every count over it.
pub open spec fn board_flag_pred(g: MineSweeper) -> spec_fn(Point) -> bool {
    |q: Point| g.sp_is_flagged(q)
}

/// Whether a point of the board is still unknown: on the board, unflagged
/// and unrevealed, as a closure shared by every count over it.
pub open spec fn board_unknown_pred(g: MineSweeper) -> spec_fn(Point) -> bool {
    |q: Point| g.sp_valid(q) && !g.sp_is_flagged(q) && g.sp_revealed_tile(q) is None
}

/// How many of a point's neighbors carry one of the board's own flags.
pub open spec fn board_flagged_neighbors(g: MineSweeper, p: Point) -> int {
    count_if(neighbors_seq(p), board_flag_pred(g))
}

/// How many of a point's neighbors are still unknown on the board.
pub open spec fn board_unknown_neighbors(g: MineSweeper, p: Point) -> int {
    count_if(neighbors_seq(p), board_unknown_pred(g))
}

/// The board admits no further deduction: a fresh pass of either rule
/// would find nothing, because every revealed hint whose outstanding mine
/// count equals its unknown-neighbor count, and every revealed hint fully
/// accounted for by flags, has no unknown neighbor left.
pub open spec fn deduction_stuck(g: MineSweeper) -> bool {
    &&& (forall|p: Point|
        (#[trigger] board_hint_of(g, p)) is Some && board_hint_of(g, p).unwrap()
            - board_flagged_neighbors(g, p) == board_unknown_neighbors(g, p)
            ==> board_unknown_neighbors(g, p) == 0)
    &&& (forall|p: Point|
        (#[trigger] board_hint_of(g, p)) is Some && board_hint_of(g, p).unwrap()
            == board_flagged_neighbors(g, p) ==> board_unknown_neighbors(g, p) == 0)
}

/// A fresh overlay with nothing deduced observes exactly the board: its
/// per-hint counts are the board's own.
proof fn lemma_counts_transfer(st: SolveState, g: MineSweeper, p: Point)
    requires
        st.wf(),
        st.sp_base() == g,
        forall|q: Point| !(#[trigger] st.sp_is_new_flag(q)),
        forall|q: Point| !(#[trigger] st.sp_is_new_safe(q)),
    ensures
        board_flagged_neighbors(g, p) == st.sp_flagged_neighbors(p),
        board_unknown_neighbors(g, p) == st.sp_unknown_neighbors(p),
        board_hint_of(g, p) == st.sp_hint_of(p),
{
    let w = st.sp_width();
    let h = st.sp_height();
    let nb = neighbors_seq(p);
    let fl = flag_pred(st.sp_base_flags(), st.sp_new_flags(), w, h);
    let un = unknown_pred(
        st.sp_base_flags(),
        st.sp_new_flags(),
        st.sp_base_revealed(),
        st.sp_new_safe(),
        w,
        h,
    );
    assert forall|i: int| 0 <= i < nb.len() implies fl(nb[i]) == board_flag_pred(g)(nb[i]) by {
        let q = nb[i];
        if st.sp_valid(q) {
            assert(!st.sp_is_new_flag(q));
        }
    }
    lemma_count_if_lockstep(nb, nb, fl, board_flag_pred(g));
    assert forall|i: int| 0 <= i < nb.len() implies un(nb[i]) == board_unknown_pred(g)(nb[i]) by {
        let q = nb[i];
        if st.sp_valid(q) {
            assert(!st.sp_is_new_flag(q));
            assert(!st.sp_is_new_safe(q));
        }
    }
    lemma_count_if_lockstep(nb, nb, un, board_unknown_pred(g));
}

/// A deduction fixed point of a fresh overlay is a fixed point of the board
/// itself: a further full pass over the board would change nothing.
proof fn lemma_stuck_transfer(st: SolveState, g: MineSweeper)
    requires
        st.wf(),
        st.sp_base() == g,
        forall|q: Point| !(#[trigger] st.sp_is_new_flag(q)),
        forall|q: Point| !(#[trigger] st.sp_is_new_safe(q)),
        st.sp_at_fixed_point(),
    ensures
        deduction_stuck(g),
{
    assert forall|p: Point|
        (#[trigger] board_hint_of(g, p)) is Some && board_hint_of(g, p).unwrap()
            - board_flagged_neighbors(g, p) == board_unknown_neighbors(
            g,
            p,
        ) implies board_unknown_neighbors(g, p) == 0 by {
        lemma_counts_transfer(st, g, p);
        assert(st.sp_flag_rule_at(p));
    }
    assert forall|p: Point|
        (#[trigger] board_hint_of(g, p)) is Some && board_hint_of(g, p).unwrap()
            == board_flagged_neighbors(g, p) implies board_unknown_neighbors(g, p) == 0 by {
        lemma_counts_transfer(st, g, p);
        assert(st.sp_safe_rule_at(p));
    }
}

/// The fixed opening move: the board's center point.
pub open spec fn center_of(g: MineSweeper) -> Point {
    Point { x: (g.sp_width() / 2) as usize, y: (g.sp_height() / 2) as usize }
}

/// A game the solver is promised to survive: not yet started, without any
/// flags, on a board whose opening around the center leaves room for all
/// its mines.
pub open spec fn fresh_start(g: MineSweeper) -> bool {
    &&& g.sp_status() is New
    &&& (forall|q: Point| !(#[trigger] g.sp_is_flagged(q)))
    &&& cells_outside_zone(g.sp_width(), g.sp_height(), center_of(g)) >= g.sp_mine_count()
}

/// All flags on the board stand on true mines.
pub open spec fn flags_on_mines(g: MineSweeper) -> bool {
    forall|q: Point| #[trigger] g.sp_is_flagged(q) ==> g.sp_is_mine(q)
}

/// How much work is left on a board: unrevealed plus unflagged cells. The
/// solver only ever reveals and flags, so this never grows.
spec fn measure_of(g: MineSweeper) -> int {
    2 * g.sp_area() - g.sp_revealed_count() - g.sp_flag_count()
}

/// Plays one game to its end by pure deduction: one opening reveal at the
/// center, then repeated deduction passes replayed against the board until
/// a pass changes nothing or the game is decided.
pub struct Solver {
    game: MineSweeper,
    step_delay: u64,
    show_map_steps: bool,
}

impl Solver {
    /// The board being played.
    pub closed spec fn sp_game(&self) -> MineSweeper {
        self.game
    }

    pub closed spec fn sp_step_delay(&self) -> u64 {
        self.step_delay
    }

    pub closed spec fn sp_show_map_steps(&self) -> bool {
        self.show_map_steps
    }

    pub fn new(game: MineSweeper) -> (r: Self)
        ensures
            r.sp_game() == game,
            r.sp_step_delay() == 0,
            r.sp_show_map_steps() == true,
    {
        Solver { game, step_delay: 0, show_map_steps: true }
    }

    pub fn game(&self) -> (r: &MineSweeper)
        ensures
            *r == self.sp_game(),
    {
        &self.game
    }

    /// How long a caller driving the board wishes to pause between steps;
    /// the deduction itself never waits.
    pub fn set_step_delay(&mut self, delay: u64)
        ensures
            final(self).sp_game() == old(self).sp_game(),
            final(self).sp_step_delay() == delay,
            final(self).sp_show_map_steps() == old(self).sp_show_map_steps(),
    {
        self.step_delay = delay
    }

    /// Whether a caller driving the board wishes to render it after each
    /// step; the deduction itself never draws.
    pub fn set_show_map_steps(&mut self, show_map_steps: bool)
        ensures
            final(self).sp_game() == old(self).sp_game(),
            final(self).sp_step_delay() == old(self).sp_step_delay(),
            final(self).sp_show_map_steps() == show_map_steps,
    {
        self.show_map_steps = show_map_steps
    }

    /// Runs the game to a stop: first reveal at the center, then deduction
    /// passes until one changes nothing or the game ends. On return the
    /// game is won or lost, or it stands at the deduction fixed point: a
    /// further pass would change nothing. On a fresh, unflagged board whose
    /// opening leaves room for all mines, the solver never loses, every
    /// flag it plants stands on a real mine, the center is revealed, and
    /// every mine sits outside the opening around the center.
    pub fn solve(&mut self)
        requires
            old(self).sp_game().wf(),
        ensures
            final(self).sp_game().wf(),
            final(self).sp_game().sp_width() == old(self).sp_game().sp_width(),
            final(self).sp_game().sp_height() == old(self).sp_game().sp_height(),
            final(self).sp_game().sp_mine_count() == old(self).sp_game().sp_mine_count(),
            final(self).sp_step_delay() == old(self).sp_step_delay(),
            final(self).sp_show_map_steps() == old(self).sp_show_map_steps(),
            old(self).sp_game().sp_status() is New ==> !(final(self).sp_game().sp_status()
                is New),
            final(self).sp_game().sp_status() is Win || final(self).sp_game().sp_status()
                is Loss || deduction_stuck(final(self).sp_game()),
            fresh_start(old(self).sp_game()) ==> !(final(self).sp_game().sp_status() is Loss)
                && flags_on_mines(final(self).sp_game()),
            fresh_start(old(self).sp_game()) ==> final(self).sp_game().sp_revealed_tile(
                center_of(old(self).sp_game()),
            ) is Some && (forall|q: Point|
                #[trigger] final(self).sp_game().sp_is_mine(q) ==> chebyshev(
                    q,
                    center_of(old(self).sp_game()),
                ) > 1),
    {
        let ghost g0 = old(self).sp_game();
        let ghost hyp = fresh_start(g0);
        let is_new = match *self.game.status() {
            GameStatus::New => true,
            _ => false,
        };
        if is_new {
            let cx = self.game.width() / 2;
            let cy = self.game.height() / 2;
            let c = Point::new(cx, cy);
            proof {
                assert(c == center_of(g0));
                assert(g0.sp_valid(c));
            }
            let first = self.game.perform_action(GameAction::Reveal(c));
            proof {
                assert(reveal_post(g0, self.sp_game(), c, first));
                if hyp {
                    assert(!g0.sp_is_flagged(c));
                    assert(g0.sp_revealed_tile(c) is None);
                    assert(!self.sp_game().sp_is_mine(c));
                    assert(self.sp_game().sp_revealed_tile(c) is Some);
                    assert forall|q: Point| #[trigger] self.sp_game().sp_is_mine(
                        q,
                    ) implies chebyshev(q, c) > 1 by {}
                    assert forall|q: Point| #[trigger] self.sp_game().sp_is_flagged(
                        q,
                    ) implies self.sp_game().sp_is_mine(q) by {
                        assert(!g0.sp_is_flagged(q));
                    }
                }
            }
        }
        proof {
            lemma_count_if_bounds(self.sp_game().sp_revealed(), is_some_pred());
            lemma_count_if_bounds(self.sp_game().sp_flags(), id_bool());
        }
        let mut running = match *self.game.status() {
            GameStatus::InProgress => true,
            _ => false,
        };
        while running
            invariant
                self.sp_game().wf(),
                self.sp_game().sp_width() == g0.sp_width(),
                self.sp_game().sp_height() == g0.sp_height(),
                self.sp_game().sp_mine_count() == g0.sp_mine_count(),
                self.sp_step_delay() == old(self).sp_step_delay(),
                self.sp_show_map_steps() == old(self).sp_show_map_steps(),
                !(self.sp_game().sp_status() is New),
                running ==> self.sp_game().sp_status() is InProgress,
                !running ==> self.sp_game().sp_status() is Win || self.sp_game().sp_status()
                    is Loss || deduction_stuck(self.sp_game()),
                self.sp_game().sp_revealed_count() <= self.sp_game().sp_area(),
                self.sp_game().sp_flag_count() <= self.sp_game().sp_area(),
                hyp ==> !(self.sp_game().sp_status() is Loss) && flags_on_mines(self.sp_game()),
                hyp ==> self.sp_game().sp_revealed_tile(center_of(g0)) is Some,
                hyp ==> (forall|q: Point|
                    #[trigger] self.sp_game().sp_is_mine(q) ==> chebyshev(q, center_of(g0))
                        > 1),
            decreases measure_of(self.sp_game()) + (if running {
                1int
            } else {
                0int
            }),
        {
            let ghost round0 = self.sp_game();
            let mut st = SolveState::from_game(&self.game);
            proof {
                if hyp {
                    assert forall|q: Point| #[trigger] st.sp_is_flag_at(
                        q,
                    ) implies st.sp_base().sp_is_mine(q) by {
                        assert(!st.sp_is_new_flag(q));
                        assert(round0.sp_is_flagged(q));
                    }
                    assert(st.flags_sound());
                    assert(st.safes_sound());
                }
            }
            st.static_solve();
            let ghost st1 = st;
            proof {
                if hyp {
                    assert(st1.flags_sound() && st1.safes_sound());
                    assert forall|q: Point| #[trigger] st1.sp_is_new_flag(
                        q,
                    ) implies round0.sp_is_mine(q) by {
                        assert(st1.sp_is_flag_at(q));
                    }
                }
            }
            let actions = st.into_actions();
            proof {
                if st1.sp_flag_list().len() == 0 && st1.sp_safe_list().len() > 0 {
                    assert(actions@[st1.sp_flag_list().len() as int + 0] == GameAction::Reveal(
                        st1.sp_safe_list()[0],
                    ));
                }
            }
            let mut changed = false;
            let mut j: usize = 0;
            while j < actions.len()
                invariant
                    j <= actions@.len(),
                    self.sp_game().wf(),
                    self.sp_game().sp_width() == round0.sp_width(),
                    self.sp_game().sp_height() == round0.sp_height(),
                    self.sp_game().sp_mine_count() == round0.sp_mine_count(),
                    self.sp_step_delay() == old(self).sp_step_delay(),
                    self.sp_show_map_steps() == old(self).sp_show_map_steps(),
                    !(self.sp_game().sp_status() is New),
                    self.sp_game().sp_mines() == round0.sp_mines(),
                    st1.wf(),
                    st1.sp_base() == round0,
                    st1.sp_base().sp_width() == round0.sp_width(),
                    round0.sp_status() is InProgress,
                    actions@.len() == st1.sp_flag_list().len() + st1.sp_safe_list().len(),
                    st1.sp_flag_list().len() > 0 ==> actions@[0] == GameAction::Flag(
                        st1.sp_flag_list()[0],
                    ),
                    st1.sp_flag_list().len() == 0 && st1.sp_safe_list().len() > 0
                        ==> actions@[0] == GameAction::Reveal(st1.sp_safe_list()[0]),
                    forall|k: int|
                        0 <= k < actions@.len() ==> action_from_overlay(
                            st1,
                            #[trigger] actions@[k],
                        ),
                    hyp ==> (forall|q: Point|
                        #[trigger] st1.sp_is_new_flag(q) ==> round0.sp_is_mine(q)),
                    hyp ==> (forall|q: Point|
                        #[trigger] st1.sp_is_new_safe(q) ==> !round0.sp_is_mine(q)),
                    hyp ==> !(self.sp_game().sp_status() is Loss) && flags_on_mines(
                        self.sp_game(),
                    ),
                    hyp ==> self.sp_game().sp_revealed_tile(center_of(g0)) is Some,
                    self.sp_game().sp_revealed_count() <= self.sp_game().sp_area(),
                    self.sp_game().sp_flag_count() <= self.sp_game().sp_area(),
                    measure_of(self.sp_game()) <= measure_of(round0),
                    changed ==> measure_of(self.sp_game()) < measure_of(round0),
                    j == 0 ==> self.sp_game() == round0,
                    actions@.len() > 0 && j > 0 ==> changed,
                decreases actions@.len() - j,
            {
                let ghost before = self.sp_game();
                let a = actions[j];
                let ch = self.game.perform_action(a);
                changed = changed || ch;
                proof {
                    assert(self.sp_game().sp_mines() == before.sp_mines()) by {
                        match a {
                            GameAction::Reveal(p) => {
                                if before.sp_status() is Win || before.sp_status() is Loss {
                                } else if !before.sp_valid(p) {
                                } else {
                                    assert(before.sp_status() is InProgress);
                                }
                            },
                            _ => {},
                        }
                    }
                    if hyp {
                        match a {
                            GameAction::Flag(p) => {
                                assert(flag_post(before, self.sp_game(), p, ch));
                                assert forall|q: Point| #[trigger] self.sp_game().sp_is_flagged(
                                    q,
                                ) implies self.sp_game().sp_is_mine(q) by {
                                    if q == p && ch {
                                        assert(st1.sp_is_new_flag(p));
                                        assert(round0.sp_is_mine(p));
                                    } else {
                                        assert(before.sp_is_flagged(q));
                                    }
                                }
                            },
                            GameAction::Reveal(p) => {
                                assert(st1.sp_is_new_safe(p));
                                assert(!round0.sp_is_mine(p));
                                assert(!self.sp_game().sp_is_mine(p));
                                assert(!(self.sp_game().sp_status() is Loss));
                                assert forall|q: Point| #[trigger] self.sp_game().sp_is_flagged(
                                    q,
                                ) implies self.sp_game().sp_is_mine(q) by {
                                    assert(before.sp_is_flagged(q));
                                }
                            },
                            _ => {
                                assert(false);
                            },
                        }
                    }
                    lemma_count_if_bounds(self.sp_game().sp_revealed(), is_some_pred());
                    lemma_count_if_bounds(self.sp_game().sp_flags(), id_bool());
                    if hyp {
                        let c = center_of(g0);
                        assert(self.sp_game().sp_revealed_tile(c) is Some) by {
                            match a {
                                GameAction::Reveal(p) => {
                                    if before.sp_status() is Win || before.sp_status() is Loss {
                                    } else if !before.sp_valid(p) {
                                    } else {
                                        assert(before.sp_revealed_tile(c) is Some);
                                    }
                                },
                                _ => {
                                    assert(self.sp_game().sp_revealed() == before.sp_revealed());
                                },
                            }
                        }
                    }
                    if j == 0 {
                        assert(before == round0);
                        assert(before.sp_status() is InProgress);
                        if st1.sp_flag_list().len() > 0 {
                            let p0 = st1.sp_flag_list()[0];
                            assert(a == GameAction::Flag(p0));
                            assert(st1.sp_is_new_flag(p0));
                            assert(st1.sp_is_flag_at(p0));
                            assert(!st1.sp_is_base_flag(p0));
                            assert(!st1.sp_is_revealed_at(p0));
                            assert(round0.sp_valid(p0));
                            assert(!round0.sp_is_flagged(p0));
                            assert(round0.sp_revealed_tile(p0) is None);
                            assert(flag_post(before, self.sp_game(), p0, ch));
                            assert(ch);
                        } else if st1.sp_safe_list().len() > 0 {
                            let p0 = st1.sp_safe_list()[0];
                            assert(a == GameAction::Reveal(p0));
                            assert(st1.sp_is_new_safe(p0));
                            assert(st1.sp_is_revealed_at(p0));
                            assert(!st1.sp_is_base_revealed(p0));
                            assert(!st1.sp_is_flag_at(p0));
                            assert(round0.sp_valid(p0));
                            assert(!round0.sp_is_flagged(p0));
                            assert(round0.sp_revealed_tile(p0) is None);
                            assert(reveal_post(before, self.sp_game(), p0, ch));
                            assert(ch);
                        }
                    }
                }
                j = j + 1;
            }
            proof {
                if hyp {
                    assert forall|q: Point| #[trigger] self.sp_game().sp_is_mine(
                        q,
                    ) implies chebyshev(q, center_of(g0)) > 1 by {
                        assert(round0.sp_is_mine(q));
                    }
                }
            }
            let still = match *self.game.status() {
                GameStatus::InProgress => true,
                _ => false,
            };
            running = still && changed;
            proof {
                if still && !changed {
                    assert(actions@.len() == 0);
                    assert(self.sp_game() == round0);
                    assert forall|q: Point| !(#[trigger] st1.sp_is_new_flag(q)) by {
                        if st1.sp_is_new_flag(q) {
                            assert(st1.sp_flag_list().contains(q));
                        }
                    }
                    assert forall|q: Point| !(#[trigger] st1.sp_is_new_safe(q)) by {
                        if st1.sp_is_new_safe(q) {
                            assert(st1.sp_safe_list().contains(q));
                        }
                    }
                    lemma_stuck_transfer(st1, round0);
                }
            }
        }
    }
}

} // verus!
