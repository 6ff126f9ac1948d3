use tetris::config::Config;
use tetris::game::{deal, Game, Outcome};
use tetris::piece::Type;
use tetris::replay::Replayer;

#[test]
fn new_game_starts_with_a_falling_piece() {
    let c = Config::new();
    let g = Game::new(&c).unwrap();
    assert_eq!(g.timestamp(), 0);
    let (_, x, y) = g.snapshot().piece().unwrap();
    assert_eq!((x, y), (3, 17));
    assert!(g.can_advance());
    assert!(g.replay().data().is_empty());
}

#[test]
fn frames_advance_the_clock() {
    let c = Config::new();
    let mut g = Game::new(&c).unwrap();
    for _ in 0..10 {
        g.frame().unwrap();
    }
    assert_eq!(g.timestamp(), 10);
}

#[test]
fn untouched_game_ends_in_death() {
    let c = Config::new();
    let mut g = Game::new(&c).unwrap();
    let mut died = false;
    for _ in 0..200_000 {
        if !g.can_advance() {
            break;
        }
        if let Outcome::Death = g.frame().unwrap() {
            died = true;
            break;
        }
    }
    assert!(died);
}

#[test]
fn replay_of_a_game_gives_its_final_state() {
    let c = Config::new();
    let mut g = Game::new(&c).unwrap();
    let mut t: u32 = 0;
    while t < 20_000 && g.can_advance() {
        match t % 37 {
            3 => g.left(true),
            9 => g.left(false),
            12 => g.rotate(true),
            17 => g.right(true),
            21 => g.right(false),
            25 => g.down(true),
            31 => g.down(false),
            33 => g.rotate(false),
            _ => {}
        }
        if let Outcome::Death = g.frame().unwrap() {
            break;
        }
        t += 1;
    }
    let r = Replayer::try_new(g.replay()).unwrap();
    let a = r.last_snapshot();
    let b = g.snapshot();
    assert_eq!(a.score(), b.score());
    assert_eq!(a.level(), b.level());
    assert_eq!(a.lines(), b.lines());
    assert_eq!(a.piece().is_some(), b.piece().is_some());
    for x in 0..10 {
        for y in 0..20 {
            assert_eq!(*a.stack().blocks().at(x, y), *b.stack().blocks().at(x, y));
        }
    }
}

#[test]
fn counters_never_go_back() {
    let c = Config::new();
    let mut g = Game::new(&c).unwrap();
    let mut last = (0, 0, 0);
    let mut t: u32 = 0;
    while t < 20_000 && g.can_advance() {
        match t % 23 {
            2 => g.left(true),
            6 => g.left(false),
            8 => g.down(true),
            19 => g.down(false),
            _ => {}
        }
        let died = matches!(g.frame().unwrap(), Outcome::Death);
        let s = g.snapshot();
        let now = (s.score(), s.level(), s.lines());
        assert!(now.0 >= last.0 && now.1 >= last.1 && now.2 >= last.2);
        assert!(now.2 <= last.2 + 4);
        last = now;
        if died {
            break;
        }
        t += 1;
    }
}

#[test]
fn deal_takes_the_first_draw_unless_it_repeats() {
    assert_eq!(deal(Type::Empty, 1, 5).get_type(), Type::I);
    assert_eq!(deal(Type::I, 1, 5).get_type(), Type::S);
    assert_eq!(deal(Type::O, 7, 9).get_type(), Type::T);
    assert_eq!(deal(Type::O, 15, 13).get_type(), Type::Z);
}

#[test]
fn game_from_draws_starts_with_their_pieces() {
    let c = Config::new();
    let g = Game::with_draws(&c, 2, 0, 3, 0);
    let (p, _, _) = g.snapshot().piece().unwrap();
    assert_eq!(p.get_type(), Type::T);
    assert_eq!(g.snapshot().next_piece().get_type(), Type::L);
    assert_eq!(g.replay().first(), Type::T);
    assert_eq!(g.replay().second(), Type::L);
}

#[test]
fn frame_with_draws_advances_like_frame() {
    let c = Config::new();
    let mut g = Game::with_draws(&c, 2, 0, 3, 0);
    for _ in 0..5 {
        g.frame_with(0, 0);
    }
    assert_eq!(g.timestamp(), 5);
}
