use minesweeper_solver::minesweeper::{GameAction, GameStatus, MineSweeper};
use minesweeper_solver::point::Point;
use minesweeper_solver::solver::gamestate::SolveState;
use minesweeper_solver::solver::Solver;

fn points_of(w: usize, h: usize) -> Vec<Point> {
    let mut r = Vec::new();
    for x in 0..w {
        for y in 0..h {
            r.push(Point::new(x, y));
        }
    }
    r
}

#[test]
fn solver_wins_the_trivial_board() {
    let b = MineSweeper::new(1, 1, 0).unwrap();
    let mut s = Solver::new(b);
    s.solve();
    assert_eq!(*s.game().status(), GameStatus::Win);
}

#[test]
fn solver_never_loses_a_fresh_board() {
    for _ in 0..5 {
        let b = MineSweeper::new(9, 9, 10).unwrap();
        let mut s = Solver::new(b);
        s.solve();
        assert_ne!(*s.game().status(), GameStatus::New);
        assert_ne!(*s.game().status(), GameStatus::Loss);
    }
}

#[test]
fn solver_flags_only_real_mines() {
    let b = MineSweeper::new(9, 9, 12).unwrap();
    let mut s = Solver::new(b);
    s.solve();
    let g = s.game();
    for p in points_of(g.width(), g.height()) {
        if g.flagged()[p.y * g.width() + p.x] {
            assert!(g.is_mine(&p));
        }
    }
}

#[test]
fn solver_stops_only_at_a_fixed_point() {
    let b = MineSweeper::new(9, 9, 20).unwrap();
    let mut s = Solver::new(b);
    s.solve();
    let g = s.game();
    if *g.status() == GameStatus::InProgress {
        // A further pass must find nothing: no frontier hint has its
        // deficit equal to its unknown-neighbor count, and no hint already
        // covered by flags has an unknown neighbor left.
        let st = SolveState::from_game(g);
        for (p, deficit) in st.get_frontier() {
            let unknown = st.get_unknown_neighbors(&p);
            assert!(!(deficit == unknown.len() && !unknown.is_empty()));
        }
        for (p, n) in st.get_game_hints() {
            let flagged = p
                .neighbors()
                .iter()
                .filter(|q| st.is_flag(q))
                .count();
            if flagged == n {
                assert!(st.get_unknown_neighbors(&p).is_empty());
            }
        }
    }
}

#[test]
fn static_solve_deductions_are_sound() {
    let mut b = MineSweeper::new(7, 7, 8).unwrap();
    assert!(b.reveal_point(Point::new(3, 3)));
    if *b.status() == GameStatus::InProgress {
        let mut st = SolveState::from_game(&b);
        st.static_solve();
        for a in st.into_actions() {
            match a {
                GameAction::Flag(p) => assert!(b.is_mine(&p)),
                GameAction::Reveal(p) => assert!(!b.is_mine(&p)),
                _ => panic!("the overlay only flags and reveals"),
            }
        }
    }
}

#[test]
fn flag_rule_flags_every_forced_cell_in_one_pass() {
    let mut b = MineSweeper::new(9, 9, 30).unwrap();
    assert!(b.reveal_point(Point::new(4, 4)));
    if *b.status() == GameStatus::InProgress {
        // Every hint whose deficit equals its unknown-neighbor count forces
        // all those neighbors to be mines; one deduction run flags them all.
        let st0 = SolveState::from_game(&b);
        let mut forced: Vec<Point> = Vec::new();
        for (p, deficit) in st0.get_frontier() {
            let unknown = st0.get_unknown_neighbors(&p);
            if deficit == unknown.len() {
                forced.extend(unknown);
            }
        }
        let mut st = SolveState::from_game(&b);
        st.static_solve();
        for q in &forced {
            assert!(st.is_flag(q));
            assert!(b.is_mine(q));
        }
    }
}

#[test]
fn frontier_reports_outstanding_deficits() {
    let mut b = MineSweeper::new(9, 9, 10).unwrap();
    assert!(b.reveal_point(Point::new(4, 4)));
    let st = SolveState::from_game(&b);
    let hints = st.get_game_hints();
    let frontier = st.get_frontier();
    for (p, deficit) in &frontier {
        assert!(*deficit > 0);
        let n = hints
            .iter()
            .find(|(q, _)| q == p)
            .map(|(_, n)| *n)
            .unwrap();
        let flagged = p.neighbors().iter().filter(|q| st.is_flag(q)).count();
        assert_eq!(*deficit, n - flagged);
    }
    // Nothing is flagged yet, so every hint is on the frontier exactly once.
    assert_eq!(frontier.len(), hints.iter().filter(|(_, n)| *n > 0).count());
}

#[test]
fn overlay_marks_do_not_touch_the_board() {
    let mut b = MineSweeper::new(5, 5, 3).unwrap();
    assert!(b.reveal_point(Point::new(2, 2)));
    let snapshot_rev = b.revealed().clone();
    let snapshot_flags = b.flagged().clone();
    let mut st = SolveState::from_game(&b);
    st.static_solve();
    assert_eq!(*b.revealed(), snapshot_rev);
    assert_eq!(*b.flagged(), snapshot_flags);
}

#[test]
fn overlay_queries_agree_with_the_board() {
    let mut b = MineSweeper::new(6, 6, 5).unwrap();
    assert!(b.reveal_point(Point::new(3, 3)));
    let _ = b.flag_point(Point::new(0, 0));
    let st = SolveState::from_game(&b);
    for x in 0..6usize {
        for y in 0..6usize {
            let p = Point::new(x, y);
            assert_eq!(st.is_revealed(&p), b.revealed()[y * 6 + x].is_some());
            assert_eq!(st.is_flag(&p), b.flagged()[y * 6 + x]);
        }
    }
    assert!(st.is_valid());
}
