use tetris::config::Config;
use tetris::piece::{Piece, Type};
use tetris::state::{GameHistory, PieceStats};

fn start() -> GameHistory {
    let c = Config::new();
    GameHistory::new(&c, Piece::new(Type::I, 2), Piece::new(Type::O, 2))
}

#[test]
fn config_defaults() {
    let c = Config::new();
    assert_eq!(c.width, 10);
    assert_eq!(c.height, 20);
    assert_eq!(c.level, 0);
    assert_eq!(c.gravity.len(), 30);
    assert_eq!(c.gravity[0], 48);
    assert_eq!(c.gravity[29], 1);
    assert_eq!(c.das_initial, 16);
    assert_eq!(c.are_base, 10);
    assert_eq!(c.are_max, 20);
    assert_eq!(c.line_clear, 18);
    assert!(c.is_wf());
}

#[test]
fn transition_lines_by_start_level() {
    let mut c = Config::new();
    assert_eq!(c.transition(), 10);
    c.level = 5;
    assert_eq!(c.transition(), 60);
    c.level = 9;
    assert_eq!(c.transition(), 100);
    c.level = 15;
    assert_eq!(c.transition(), 100);
    c.level = 16;
    assert_eq!(c.transition(), 110);
    c.level = 19;
    assert_eq!(c.transition(), 140);
}

#[test]
fn bad_config_is_refused() {
    let mut c = Config::new();
    c.width = 2;
    assert!(!c.is_wf());
    let mut c = Config::new();
    c.gravity.clear();
    assert!(!c.is_wf());
}

#[test]
fn piece_stats_count_and_drought() {
    let s = PieceStats::new().checkin(Type::T).checkin(Type::I).checkin(Type::T);
    assert_eq!(s.get(Type::T), (2, 0));
    assert_eq!(s.get(Type::I), (1, 1));
    assert_eq!(s.get(Type::O), (0, 3));
}

#[test]
fn new_history_has_the_first_piece_at_the_top() {
    let h = start();
    let s = h.snapshot();
    assert_eq!(s.timestamp(), 0);
    assert_eq!(s.score(), 0);
    assert_eq!(s.level(), 0);
    assert_eq!(s.lines(), 0);
    let (p, x, y) = s.piece().unwrap();
    assert_eq!(p.get_type(), Type::I);
    assert_eq!((x, y), (3, 17));
    assert_eq!(s.next_piece().get_type(), Type::O);
    assert_eq!(s.stats().get(Type::I), (1, 0));
    assert!(s.are_duration().is_none());
}

#[test]
fn moves_that_fit_are_recorded() {
    let mut h = start();
    let p = Piece::new(Type::I, 2);
    assert!(h.try_move(1, p, 2, 17));
    assert!(!h.try_move(2, p, -1, 17));
    assert!(h.try_move(3, p, 2, 16));
    assert_eq!(h.snapshot().piece().unwrap().1, 2);
    assert_eq!(h.snapshot().piece().unwrap().2, 16);
    assert_eq!(h.snapshot_at(0).piece().unwrap().1, 3);
    assert_eq!(h.snapshot_at(1).piece().unwrap().1, 2);
    assert_eq!(h.snapshot_at(2).piece().unwrap().2, 17);
    assert_eq!(h.snapshot_at(100).timestamp(), 3);
}

#[test]
fn ghost_piece_falls_to_the_floor() {
    let h = start();
    let (p, x, y) = h.snapshot().ghost_piece().unwrap();
    assert_eq!(p.get_type(), Type::I);
    assert_eq!(x, 3);
    assert_eq!(y, -2);
}

#[test]
fn merge_locks_the_piece_and_waits() {
    let mut h = start();
    let p = Piece::new(Type::I, 2);
    assert!(h.try_move(5, p, 3, -2));
    let cleared = h.merge(6, Piece::new(Type::T, 2), 0);
    assert!(!cleared);
    let s = h.snapshot();
    assert!(s.piece().is_none());
    assert_eq!(s.are_duration(), Some(10));
    assert_eq!(*s.stack().blocks().at(3, 0), Type::I);
    assert_eq!(s.next_piece().get_type(), Type::O);
    assert!(h.start_new_piece(20));
    let s = h.snapshot();
    assert_eq!(s.piece().unwrap().0.get_type(), Type::O);
    assert_eq!(s.next_piece().get_type(), Type::T);
}

#[test]
fn soft_drop_scores_one_point_per_level_and_row() {
    let mut h = start();
    let p = Piece::new(Type::I, 2);
    assert!(h.try_move(5, p, 3, -2));
    h.merge(6, Piece::new(Type::T, 2), 7);
    assert_eq!(h.snapshot().score(), 7);
}

#[test]
fn clearing_a_row_scores_forty() {
    let mut h = start();
    let i = Piece::new(Type::I, 2);
    let o = Piece::new(Type::O, 2);
    assert!(h.try_move(1, i, 0, -2));
    assert!(!h.merge(2, i, 0));
    assert!(h.start_new_piece(30));
    assert_eq!(h.snapshot().piece().unwrap().0.get_type(), Type::O);
    assert!(h.try_move(31, o, 3, -1));
    assert!(!h.merge(32, o, 0));
    assert!(h.start_new_piece(60));
    assert_eq!(h.snapshot().piece().unwrap().0.get_type(), Type::I);
    assert!(h.try_move(61, i, 6, 17));
    assert!(h.try_move(62, i, 6, -2));
    assert!(h.merge(63, o, 0));
    let s = h.snapshot();
    assert_eq!(s.lines(), 1);
    assert_eq!(s.score(), 40);
    assert_eq!(s.are_duration(), Some(28));
    let (rows, before) = s.animation().unwrap();
    assert_eq!(rows, &vec![0]);
    assert_eq!(*before.blocks().at(0, 0), Type::I);
    assert_eq!(*s.stack().blocks().at(0, 0), Type::I);
    assert_eq!(*h.snapshot_at(63).stack().blocks().at(4, 0), Type::O);
}

#[test]
fn a_negative_soft_drop_takes_points() {
    let mut h = start();
    let p = Piece::new(Type::I, 2);
    assert!(h.try_move(5, p, 3, -2));
    h.merge(6, Piece::new(Type::T, 2), -5);
    assert_eq!(h.snapshot().score(), -5);
}

#[test]
fn an_empty_piece_fits_anywhere() {
    let mut h = start();
    let e = Piece::new(Type::Empty, 0);
    assert!(h.try_move(1, e, -100, -100));
    let (p, x, y) = h.snapshot().piece().unwrap();
    assert_eq!((p.get_type(), x, y), (Type::Empty, -100, -100));
}

#[test]
fn an_empty_piece_can_be_dealt_and_waited_for() {
    let c = Config::new();
    let mut h = GameHistory::new(&c, Piece::new(Type::I, 2), Piece::new(Type::Empty, 2));
    assert_eq!(h.snapshot().next_piece().get_type(), Type::Empty);
    let mut g = start();
    assert!(g.try_move(5, Piece::new(Type::I, 2), 3, -2));
    assert!(!g.merge(6, Piece::new(Type::Empty, 2), 0));
    assert_eq!(g.snapshot().next_piece().get_type(), Type::O);
    assert!(g.start_new_piece(20));
    assert_eq!(g.snapshot().next_piece().get_type(), Type::Empty);
    assert!(h.try_move(1, Piece::new(Type::I, 2), 3, 10));
}
