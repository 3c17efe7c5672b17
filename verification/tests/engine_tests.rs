use minesweeper_solver::minesweeper::{
    GameAction, GameStatus, MineSweeper, NewMinesweeperError, Tile,
};
use minesweeper_solver::point::Point;

fn all_points(b: &MineSweeper) -> Vec<Point> {
    let mut r = Vec::new();
    for x in 0..b.width() {
        for y in 0..b.height() {
            r.push(Point::new(x, y));
        }
    }
    r
}

fn mine_count(b: &MineSweeper) -> usize {
    all_points(b).iter().filter(|p| b.is_mine(p)).count()
}

#[test]
fn new_rejects_zero_width() {
    assert_eq!(
        MineSweeper::new(0, 5, 3).err(),
        Some(NewMinesweeperError::InvalidWidth)
    );
}

#[test]
fn new_rejects_zero_height() {
    assert_eq!(
        MineSweeper::new(5, 0, 3).err(),
        Some(NewMinesweeperError::InvalidHeight)
    );
}

#[test]
fn new_rejects_too_many_mines() {
    assert_eq!(
        MineSweeper::new(3, 3, 10).err(),
        Some(NewMinesweeperError::TooManyMines { area: 9, mines: 10 })
    );
}

#[test]
fn new_accepts_mine_count_equal_to_area() {
    let b = MineSweeper::new(3, 3, 9).unwrap();
    assert_eq!(*b.status(), GameStatus::New);
    assert_eq!(b.width(), 3);
    assert_eq!(b.height(), 3);
    assert_eq!(mine_count(&b), 0);
    assert!(b.revealed().iter().all(|t| t.is_none()));
    assert!(b.flagged().iter().all(|f| !f));
}

#[test]
fn one_by_one_zero_mines_first_reveal_wins() {
    let mut b = MineSweeper::new(1, 1, 0).unwrap();
    assert!(b.reveal_point(Point::new(0, 0)));
    assert_eq!(*b.status(), GameStatus::Win);
    assert_eq!(b.revealed()[0], Some(Tile::Empty));
}

#[test]
fn two_by_one_single_mine_lands_on_far_cell() {
    // The opening around (0,0) covers both cells, so the single mine can
    // only fall back onto the far cell, and revealing (0,0) wins at once.
    let mut b = MineSweeper::new(2, 1, 1).unwrap();
    assert!(b.reveal_point(Point::new(0, 0)));
    assert!(b.is_mine(&Point::new(1, 0)));
    assert!(!b.is_mine(&Point::new(0, 0)));
    assert_eq!(*b.status(), GameStatus::Win);
}

#[test]
fn first_reveal_places_exact_mines_outside_opening() {
    let mut b = MineSweeper::new(9, 9, 10).unwrap();
    let start = Point::new(4, 4);
    assert!(b.reveal_point(start));
    assert_eq!(mine_count(&b), 10);
    for p in all_points(&b) {
        if b.is_mine(&p) {
            assert!(p.dist_max(&start) > 1);
        }
    }
    assert_ne!(*b.status(), GameStatus::New);
    assert_ne!(*b.status(), GameStatus::Loss);
}

#[test]
fn reveal_is_idempotent() {
    let mut b = MineSweeper::new(9, 9, 10).unwrap();
    let start = Point::new(4, 4);
    assert!(b.reveal_point(start));
    let snapshot = b.revealed().clone();
    assert!(!b.reveal_point(start));
    assert_eq!(*b.revealed(), snapshot);
}

#[test]
fn flag_is_idempotent_and_unflag_reverses() {
    let mut b = MineSweeper::new(4, 4, 2).unwrap();
    let p = Point::new(0, 0);
    assert!(b.flag_point(p));
    assert!(!b.flag_point(p));
    assert!(b.unflag_point(&p));
    assert!(!b.unflag_point(&p));
}

#[test]
fn toggle_flag_flips() {
    let mut b = MineSweeper::new(4, 4, 2).unwrap();
    let p = Point::new(2, 2);
    assert!(b.toggle_flag(&p));
    assert!(b.flagged()[2 * 4 + 2]);
    assert!(b.toggle_flag(&p));
    assert!(!b.flagged()[2 * 4 + 2]);
}

#[test]
fn off_board_actions_change_nothing() {
    let mut b = MineSweeper::new(3, 3, 1).unwrap();
    assert!(!b.flag_point(Point::new(5, 5)));
    assert!(!b.reveal_point(Point::new(3, 0)));
    assert_eq!(*b.status(), GameStatus::New);
}

#[test]
fn reveal_of_flagged_cell_is_rejected() {
    let mut b = MineSweeper::new(4, 4, 2).unwrap();
    let p = Point::new(1, 1);
    assert!(b.flag_point(p));
    assert!(!b.reveal_point(p));
    assert!(b.revealed().iter().all(|t| t.is_none()));
}

#[test]
fn empty_reveal_floods_whole_mine_free_board() {
    let mut b = MineSweeper::new(3, 3, 0).unwrap();
    assert!(b.reveal_point(Point::new(1, 1)));
    assert_eq!(*b.status(), GameStatus::Win);
    for t in b.revealed().iter() {
        assert_eq!(*t, Some(Tile::Empty));
    }
}

#[test]
fn get_tile_shows_flags_first() {
    let mut b = MineSweeper::new(3, 3, 0).unwrap();
    let p = Point::new(0, 0);
    assert!(b.flag_point(p));
    assert_eq!(b.get_tile(&p), Tile::Flag);
    assert_eq!(b.get_tile(&Point::new(1, 1)), Tile::Empty);
}

#[test]
fn actions_rejected_once_game_is_over() {
    let mut b = MineSweeper::new(1, 1, 0).unwrap();
    assert!(b.reveal_point(Point::new(0, 0)));
    assert_eq!(*b.status(), GameStatus::Win);
    assert!(!b.perform_action(GameAction::Flag(Point::new(0, 0))));
    assert!(!b.perform_action(GameAction::Reveal(Point::new(0, 0))));
    assert!(!b.perform_action(GameAction::ToggleFlag(Point::new(0, 0))));
}

#[test]
fn revealed_tiles_match_get_tile_rule() {
    let mut b = MineSweeper::new(9, 9, 10).unwrap();
    assert!(b.reveal_point(Point::new(4, 4)));
    for p in all_points(&b) {
        if let Some(t) = b.revealed()[p.y * 9 + p.x] {
            assert_eq!(t, b.get_tile(&p));
            assert_ne!(t, Tile::Mine);
        }
    }
}

#[test]
fn iter_range_is_column_major() {
    let r = Point::iter_range(1, 3, 0, 3);
    assert_eq!(r.len(), 6);
    assert_eq!(r[0], Point::new(1, 0));
    assert_eq!(r[1], Point::new(1, 1));
    assert_eq!(r[2], Point::new(1, 2));
    assert_eq!(r[3], Point::new(2, 0));
    assert_eq!(r[5], Point::new(2, 2));
}

#[test]
fn iter_range_reversed_is_empty() {
    assert_eq!(Point::iter_range(3, 1, 0, 3).len(), 0);
    assert_eq!(Point::iter_range(0, 2, 5, 2).len(), 0);
}

#[test]
fn neighbors_are_clipped_at_the_axes() {
    let n = Point::new(0, 0).neighbors();
    assert_eq!(n.len(), 3);
    assert!(n.contains(&Point::new(1, 0)));
    assert!(n.contains(&Point::new(0, 1)));
    assert!(n.contains(&Point::new(1, 1)));
    assert_eq!(Point::new(2, 2).neighbors().len(), 8);
}

#[test]
fn distances_match_their_definitions() {
    let a = Point::new(1, 5);
    let b = Point::new(4, 3);
    assert_eq!(a.dist_step(&b), 5);
    assert_eq!(a.dist_max(&b), 3);
    assert_eq!(a.dist_max(&a), 0);
}
