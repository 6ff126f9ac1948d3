use tetris::config::Config;
use tetris::piece::{Piece, Type};
use tetris::replay::{Entry, EntryType, Replay, Replayer};

#[test]
fn entry_packs_frames_type_and_detail() {
    let e = Entry::from(5, EntryType::MoveX, 17);
    assert_eq!(e.0, 5 * 256 + 32 + 17);
    assert_eq!(e.dt(), 5);
    assert_eq!(e.detail(), 17);
    assert_eq!(e.type_code(), 1);
    assert_eq!(e.entry_type(), EntryType::MoveX);
}

#[test]
fn entry_frames_wrap_at_one_byte() {
    let e = Entry::from(300, EntryType::Nop, 0);
    assert_eq!(e.dt(), 44);
    assert_eq!(e.entry_type(), EntryType::Nop);
}

#[test]
fn entry_type_codes_round_trip() {
    for c in 0..7u16 {
        assert_eq!(EntryType::from_code(c).code(), c);
    }
    assert_eq!(EntryType::from_code(6), EntryType::NextPiece);
}

#[test]
fn long_gaps_are_padded_with_empty_entries() {
    let c = Config::new();
    let mut r = Replay::new(&c, Type::I, Type::O, 0);
    r.add_move(600, None, 1, 0);
    assert_eq!(r.data(), &vec![65280u16, 65280, 90 * 256 + 32 + 17]);
    assert_eq!(r.frames(), 600);
}

#[test]
fn move_records_turn_then_sideways_then_down() {
    let c = Config::new();
    let mut r = Replay::new(&c, Type::I, Type::O, 0);
    r.add_move(3, Some(true), -2, -1);
    assert_eq!(r.data(), &vec![3 * 256 + 3 * 32 + 1, 32 + 14, 2 * 32 + 15]);
    r.add_move(4, None, 0, 0);
    assert_eq!(r.data().len(), 3);
    assert_eq!(r.frames(), 3);
}

#[test]
fn merge_records_drop_and_next_piece() {
    let c = Config::new();
    let mut r = Replay::new(&c, Type::I, Type::O, 0);
    r.add_merge(10, 3, Piece::new(Type::T, 2));
    r.add_new_piece(30);
    assert_eq!(r.data(), &vec![10 * 256 + 4 * 32 + 3, 6 * 32 + 2, 20 * 256 + 5 * 32]);
    assert_eq!(r.frames(), 30);
    assert_eq!(r.first(), Type::I);
    assert_eq!(r.second(), Type::O);
}

#[test]
fn replayer_plays_moves_back() {
    let c = Config::new();
    let mut r = Replay::new(&c, Type::I, Type::O, 0);
    r.add_move(1, None, -1, 0);
    r.add_move(2, Some(true), 0, 0);
    r.add_move(5, None, 0, -1);
    let p = Replayer::try_new(&r).unwrap();
    assert_eq!(p.frame_count(), 5);
    let (piece, x, y) = p.last_snapshot().piece().unwrap();
    assert_eq!(piece.get_type(), Type::I);
    assert_eq!(piece.blocks(), Piece::new(Type::I, 1).blocks());
    assert_eq!((x, y), (2, 16));
    assert_eq!(p.snapshot_at(0).piece().unwrap().1, 3);
    assert_eq!(p.snapshot_at(1).piece().unwrap().1, 2);
    assert_eq!(p.snapshot_at(4).piece().unwrap().2, 17);
}

#[test]
fn replayer_plays_a_lock_and_the_next_piece() {
    let c = Config::new();
    let mut r = Replay::new(&c, Type::I, Type::O, 0);
    r.add_move(1, None, 0, -15);
    r.add_move(2, None, 0, -4);
    r.add_merge(3, 2, Piece::new(Type::T, 2));
    r.add_new_piece(20);
    let p = Replayer::try_new(&r).unwrap();
    let s = p.last_snapshot();
    assert_eq!(s.score(), 2);
    assert_eq!(s.piece().unwrap().0.get_type(), Type::O);
    assert_eq!(s.next_piece().get_type(), Type::T);
    assert_eq!(*s.stack().blocks().at(3, 0), Type::I);
    assert!(p.snapshot_at(10).piece().is_none());
}

#[test]
fn replay_that_cannot_be_played_is_refused() {
    let c = Config::new();
    let spawn_while_falling = Replay::from_parts(c.copy(), Type::I, Type::O, 0, vec![5 * 32]);
    assert!(Replayer::try_new(&spawn_while_falling).is_none());
    let unknown_type = Replay::from_parts(c.copy(), Type::I, Type::O, 0, vec![7 * 32]);
    assert!(Replayer::try_new(&unknown_type).is_none());
    let no_piece = Replay::from_parts(c.copy(), Type::Empty, Type::O, 0, vec![]);
    assert!(Replayer::try_new(&no_piece).is_none());
    let empty = Replay::from_parts(c.copy(), Type::I, Type::O, 0, vec![]);
    assert!(Replayer::try_new(&empty).is_some());
}
