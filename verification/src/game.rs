use vstd::prelude::*;

use crate::config::{Config, max_duration, max_side};
use crate::piece::{Piece, Type, type_index, type_of};
use crate::replay::{Replay, EntryType, recorded, move_entries};
use crate::stack::{Stack, StackView};
use crate::state::{GameHistory, Snapshot, SnapshotView, StateView, after_merge, merge_room_at};
use crate::recording::{agrees, recordable, start_of, single_move, lemma_moved_agrees, lemma_moved_down_agrees, lemma_step_are_agrees};

verus! {

/// Which side key drives the piece.
#[derive(Debug, Clone, Copy, PartialEq, Eq, Structural)]
pub enum Move {
    Idle,
    Left,
    Right,
}

/// What a frame of play ended with.
pub enum Outcome {
    /// Nothing to report.
    Nothing,
    /// A piece locked without clearing rows.
    Merge,
    /// A piece locked and cleared these rows (from the top down); the field before.
    Clear(Vec<i32>, Stack),
    /// The game is lost.
    Death,
}

/// What an outcome holds.
pub enum OutcomeView {
    Nothing,
    Merge,
    Clear(Seq<i32>, StackView),
    Death,
}

impl View for Outcome {
    type V = OutcomeView;

    closed spec fn view(&self) -> OutcomeView {
        match self {
            Outcome::Nothing => OutcomeView::Nothing,
            Outcome::Merge => OutcomeView::Merge,
            Outcome::Clear(rows, stack) => OutcomeView::Clear(rows@, stack@),
            Outcome::Death => OutcomeView::Death,
        }
    }
}

/// A piece that can be dealt: a tetromino in orientation 2.
pub open spec fn is_deal(p: Piece) -> bool {
    p.spec_type() != Type::Empty && p.spec_orientation() == 2
}

/// The first draw for the next piece: `first % 8` names the type, unless it names
/// `Empty` or repeats `last`, in which case there is a second draw.
pub fn first_choice(last: Type, first: u32) -> (result: Option<Type>)
    ensures
        match result {
            Some(t) => type_index(t) == first % 8 && t == type_of((first % 8) as int) && first % 8 < 7 && first % 8 != type_index(last),
            None => first % 8 == 7 || first % 8 == type_index(last),
        },
{
    let f = first % 8;
    if f < 7 && f != last.index() as u32 {
        Some(Type::from_int(f))
    } else {
        None
    }
}

/// The type named by the second draw: `second % 7`.
pub fn second_choice(second: u32) -> (result: Type)
    ensures
        type_index(result) == second % 7,
        result == type_of((second % 7) as int),
{
    Type::from_int(second % 7)
}

/// The type dealt after a piece of type `last` for the draws `first` and
/// `second`: the one `first % 8` names, unless that is `Empty` or `last`, else the
/// one `second % 7` names.
pub open spec fn dealt_type(last: Type, first: u32, second: u32) -> Type {
    if first % 8 < 7 && first % 8 != type_index(last) {
        type_of((first % 8) as int)
    } else {
        type_of((second % 7) as int)
    }
}

/// The piece dealt after a piece of type `last` for the draws `first` and
/// `second`: the type `dealt_type` names, in orientation 2.
pub open spec fn dealt_piece(last: Type, first: u32, second: u32) -> Piece {
    Piece::spec_new(dealt_type(last, first, second), 2)
}

/// The piece dealt after a piece of type `last` for the draws `first` and `second`
/// (see `dealt_piece`).
pub fn deal(last: Type, first: u32, second: u32) -> (result: Piece)
    ensures
        result == dealt_piece(last, first, second),
        is_deal(result),
{
    let tp = match first_choice(last, first) {
        Some(t) => t,
        None => second_choice(second),
    };
    Piece::new(tp, 2)
}

/// Two draws from the operating system's randomness, or `None` where it gives
/// none.
fn draw_pair() -> (result: Option<(u32, u32)>)
{
    match crate::entropy::os_random_bytes() {
        None => None,
        Some(b) => {
            let first = (b[0] as u32) | ((b[1] as u32) << 8) | ((b[2] as u32) << 16) | ((b[3] as u32) << 24);
            let second = (b[4] as u32) | ((b[5] as u32) << 8) | ((b[6] as u32) << 16) | ((b[7] as u32) << 24);
            Some((first, second))
        },
    }
}

/// What a game holds.
pub struct GameView {
    pub timestamp: int,
    pub lost: Option<(int, int)>,
    pub drop_timer: int,
    pub left: bool,
    pub right: bool,
    pub movekey: Move,
    pub das: int,
    pub down_pressed: bool,
    pub down: int,
    pub down_das: int,
    pub frames: Seq<SnapshotView>,
    pub replay_time: int,
    pub replay: Seq<u16>,
    /// Every piece locked so far came down with a soft drop of fewer than 32 rows,
    /// the most the five bits of a recorded lock can hold.
    pub faithful: bool,
}

/// The falling piece moved by (`dx`, `dy`), turned first when `rotate` gives a
/// direction: done, and recorded, when the game is not lost, a piece falls, and the
/// piece fits there. Returns whether it was done.
pub open spec fn moved(g: GameView, rotate: Option<bool>, dx: int, dy: int) -> (GameView, bool) {
    if g.lost is Some {
        (g, false)
    } else {
        let s = g.frames.last();
        match s.falling() {
            None => (g, false),
            Some(f) => {
                let p = match rotate {
                    Some(cw) => f.0.spec_rotate(cw),
                    None => f.0,
                };
                if s.shown_stack().fits_at(p, f.1 + dx, f.2 + dy) {
                    (
                        GameView {
                            frames: g.frames.push(
                                SnapshotView {
                                    timestamp: g.timestamp,
                                    turn: s.turn,
                                    state: StateView::Falling { piece: p, x: f.1 + dx, y: f.2 + dy },
                                },
                            ),
                            replay: g.replay + move_entries(g.timestamp - g.replay_time, rotate, dx, dy),
                            replay_time: if rotate is None && dx == 0 && dy == 0 {
                                g.replay_time
                            } else {
                                g.timestamp
                            },
                            ..g
                        },
                        true,
                    )
                } else {
                    (g, false)
                }
            },
        }
    }
}

/// The side key that drives the piece: the one held alone, or none.
pub open spec fn held_move(left: bool, right: bool) -> Move {
    if left && !right {
        Move::Left
    } else if !left && right {
        Move::Right
    } else {
        Move::Idle
    }
}

/// The column step of a side move.
pub open spec fn move_dx(m: Move) -> int {
    if m == Move::Left { -1 } else { 1 }
}

/// When the side keys start driving the piece another way, the piece moves once at
/// once, and a piece that moved starts the delay before it repeats.
pub open spec fn update_move(g: GameView, c: Config) -> GameView {
    let mk = held_move(g.left, g.right);
    if mk != g.movekey {
        let g1 = GameView { movekey: mk, ..g };
        if mk != Move::Idle {
            let (g2, ok) = moved(g1, None, move_dx(mk), 0);
            GameView { das: if ok { c.das_initial as int } else { 0 }, ..g2 }
        } else {
            g1
        }
    } else {
        g
    }
}

/// Pressing the down key moves the piece down once and starts the soft drop;
/// releasing it ends the soft drop.
pub open spec fn pressed_down(g: GameView, c: Config, pressed: bool) -> GameView {
    let g1 = if !g.down_pressed && pressed {
        let (g2, ok) = moved(g, None, 0, -1);
        if ok {
            GameView { down: 1, down_das: c.das_down as int, ..g2 }
        } else {
            g2
        }
    } else if !pressed {
        GameView { down: 0, ..g }
    } else {
        g
    };
    GameView { down_pressed: pressed, ..g1 }
}

/// The outcome of the entry delay that a snapshot starts.
pub open spec fn lock_outcome(s: SnapshotView) -> OutcomeView {
    match s.state {
        StateView::Entry { animation: Some(a), .. } => OutcomeView::Clear(a.0, a.1),
        _ => OutcomeView::Merge,
    }
}

/// The entry delay of a snapshot, 0 when a piece falls.
pub open spec fn delay_of(s: SnapshotView) -> int {
    match s.state {
        StateView::Entry { duration, .. } => duration,
        _ => 0,
    }
}

/// One step down: the piece moves down when it fits; else it locks, `dealt` is
/// dealt as the next piece, and the entry delay starts.
pub open spec fn moved_down(g: GameView, c: Config, dealt: Piece) -> (GameView, OutcomeView) {
    if g.lost is Some {
        (g, OutcomeView::Death)
    } else if g.frames.last().falling() is None {
        (g, OutcomeView::Nothing)
    } else {
        let (g1, ok) = moved(g, None, 0, -1);
        if ok {
            (g1, OutcomeView::Nothing)
        } else {
            let s = g.frames.last();
            let m = after_merge(s, c, g.timestamp, dealt, g.down);
            (
                GameView {
                    replay: g.replay + recorded(g.timestamp - g.replay_time, EntryType::Merge, (g.down as u8) as int)
                        + recorded(0, EntryType::NextPiece, type_index(dealt.spec_type())),
                    replay_time: g.timestamp,
                    frames: g.frames.push(m),
                    drop_timer: -delay_of(m),
                    down: 0,
                    faithful: g.faithful && 0 <= g.down < 32,
                    ..g
                },
                lock_outcome(m),
            )
        }
    }
}

/// The repeated side move of a held key, once its delay ran out; the delay counts down.
pub open spec fn step_das(g: GameView, c: Config) -> GameView {
    if g.movekey != Move::Idle && g.das <= 0 {
        let (g2, ok) = moved(g, None, move_dx(g.movekey), 0);
        GameView { das: (if ok { c.das_step as int } else { g2.das }) - 1, ..g2 }
    } else {
        GameView { das: g.das - 1, ..g }
    }
}

/// The end of the entry delay: once it ran out, the waiting piece enters at the top;
/// when it does not fit, the game is lost with the score and level of the turn.
/// Returns the game, whether the delay still runs, and the outcome so far.
pub open spec fn step_are(g: GameView, c: Config) -> (GameView, bool, OutcomeView) {
    let s = g.frames.last();
    match s.state {
        StateView::Entry { duration, .. } => if s.timestamp + duration < g.timestamp {
            let np = s.next_piece();
            let x = c.width / 2 - 2;
            let y = c.height - 3;
            let fits = s.turn.stack.fits_at(np, x as int, y as int);
            (
                GameView {
                    replay: g.replay + recorded(g.timestamp - g.replay_time, EntryType::Spawn, 0),
                    replay_time: g.timestamp,
                    frames: g.frames.push(
                        SnapshotView {
                            timestamp: g.timestamp,
                            turn: s.turn,
                            state: StateView::Falling { piece: np, x: x as int, y: y as int },
                        },
                    ),
                    lost: if fits { g.lost } else { Some((s.turn.score, s.turn.level)) },
                    drop_timer: 0,
                    ..g
                },
                false,
                if fits { OutcomeView::Nothing } else { OutcomeView::Death },
            )
        } else {
            (g, true, OutcomeView::Nothing)
        },
        StateView::Falling { .. } => (g, false, OutcomeView::Nothing),
    }
}

/// Frames between gravity steps at the level of the newest snapshot.
pub open spec fn gravity_at(g: GameView, c: Config) -> int {
    let level = g.frames.last().turn.level;
    let last = c.gravity@.len() - 1;
    c.gravity@[if level <= last { level } else { last }] as int
}

/// The soft drop: once its delay ran out it asks for a step down and restarts the
/// delay; the delay counts down. Returns the game and whether a step down is due.
pub open spec fn step_soft(g: GameView, c: Config, gravity: int) -> (GameView, bool) {
    if g.down > 0 && g.down_das <= 0 {
        (GameView { drop_timer: gravity, down_das: c.das_down - 1, down: g.down + 1, ..g }, true)
    } else {
        (GameView { down_das: g.down_das - 1, ..g }, false)
    }
}

/// One frame of play, with `dealt` dealt if a piece locks.
pub open spec fn frame_step(g: GameView, c: Config, dealt: Piece) -> (GameView, OutcomeView) {
    let g0 = GameView { timestamp: g.timestamp + 1, ..g };
    let g1 = step_das(g0, c);
    let (g2, in_delay, ret0) = step_are(g1, c);
    let gravity = gravity_at(g2, c);
    let (g3, due) = step_soft(g2, c, gravity);
    if !in_delay {
        let g4 = GameView { drop_timer: g3.drop_timer + 1, ..g3 };
        if due || (!g4.down_pressed && g4.drop_timer >= gravity) {
            let (g5, r) = moved_down(g4, c, dealt);
            (GameView { drop_timer: 0, ..g5 }, r)
        } else {
            (g4, ret0)
        }
    } else {
        (g3, ret0)
    }
}

/// A held side key that is due moves the piece again, and a move that succeeds
/// waits `das_step` frames before the next one (counting this frame); a move that
/// does not fit leaves the piece and the delay as they were, counted down.
pub proof fn lemma_das_repeats(g: GameView, c: Config)
    requires
        g.movekey != Move::Idle,
        g.das <= 0,
    ensures
        moved(g, None, move_dx(g.movekey), 0).1 ==> {
            &&& step_das(g, c).das == c.das_step - 1
            &&& step_das(g, c).frames == moved(g, None, move_dx(g.movekey), 0).0.frames
        },
        !moved(g, None, move_dx(g.movekey), 0).1 ==> step_das(g, c).das == g.das - 1 && step_das(g, c).frames == g.frames,
{
}

/// When the side keys start driving the piece another way, the piece moves once
/// at once, and a move that succeeds waits `das_initial` frames before it repeats;
/// one that does not fit leaves no delay.
pub proof fn lemma_das_first_press(g: GameView, c: Config)
    requires
        held_move(g.left, g.right) != g.movekey,
        held_move(g.left, g.right) != Move::Idle,
    ensures
        ({
            let mk = held_move(g.left, g.right);
            let (g2, ok) = moved(GameView { movekey: mk, ..g }, None, move_dx(mk), 0);
            &&& update_move(g, c).movekey == mk
            &&& update_move(g, c).frames == g2.frames
            &&& update_move(g, c).das == if ok { c.das_initial as int } else { 0 }
        }),
{
}

/// Pressing the down key moves the piece down at once and, when it moved, starts
/// the soft drop at one row with `das_down` frames to its next step; releasing
/// the key ends the soft drop. While the soft drop runs and its delay ran out, a
/// frame asks for a step down, counts one more row and waits `das_down` frames
/// again (counting this one).
pub proof fn lemma_soft_drop(g: GameView, c: Config, gravity: int)
    ensures
        !g.down_pressed && moved(g, None, 0, -1).1 ==> {
            &&& pressed_down(g, c, true).down == 1
            &&& pressed_down(g, c, true).down_das == c.das_down
            &&& pressed_down(g, c, true).frames == moved(g, None, 0, -1).0.frames
        },
        pressed_down(g, c, false).down == 0 && !pressed_down(g, c, false).down_pressed,
        g.down > 0 && g.down_das <= 0 ==> {
            &&& step_soft(g, c, gravity).1
            &&& step_soft(g, c, gravity).0.down == g.down + 1
            &&& step_soft(g, c, gravity).0.down_das == c.das_down - 1
        },
        !(g.down > 0 && g.down_das <= 0) ==> !step_soft(g, c, gravity).1 && step_soft(g, c, gravity).0.down == g.down,
{
}

/// While a piece falls freely (no delay, no soft drop, down not held), the frame's
/// gravity is the configured entry for the level of the turn, the last entry for
/// the levels past the table: the drop timer counts up, and the piece takes a step
/// down, the timer starting over, in the frame the timer reaches that entry.
pub proof fn lemma_gravity_by_level(g: GameView, c: Config, dealt: Piece)
    requires
        g.frames.len() >= 1,
        g.frames.last().is_falling(),
        !g.down_pressed,
        g.down == 0,
        c.gravity@.len() >= 1,
        0 <= g.frames.last().turn.level,
    ensures
        ({
            let level = g.frames.last().turn.level;
            let k = if level < c.gravity@.len() { level } else { c.gravity@.len() - 1 };
            let steps = g.drop_timer + 1 >= c.gravity@[k] as int;
            &&& frame_step(g, c, dealt).0.drop_timer == if steps { 0 } else { g.drop_timer + 1 }
            &&& !steps ==> frame_step(g, c, dealt).0.frames == step_das(GameView { timestamp: g.timestamp + 1, ..g }, c).frames
        }),
{
    let g0 = GameView { timestamp: g.timestamp + 1, ..g };
    let g1 = step_das(g0, c);
    if g0.movekey != Move::Idle && g0.das <= 0 {
        let (g2, ok) = moved(g0, None, move_dx(g0.movekey), 0);
        assert(g1.frames.last().turn == g.frames.last().turn);
        assert(g1.frames.last().is_falling());
    } else {
        assert(g1.frames == g.frames);
    }
    assert(g1.frames.last().turn == g.frames.last().turn);
    assert(g1.frames.last().is_falling());
    let (g2, in_delay, r0) = step_are(g1, c);
    assert(!in_delay && g2 == g1);
}

/// The counters of the newest snapshot leave room for locking its piece after the
/// soft drop grew by `extra` rows.
pub open spec fn lock_room(g: GameView, extra: int) -> bool {
    let s = g.frames.last();
    &&& s.turn.stack.generation <= i32::MAX - 2
    &&& g.down + extra <= 127
    &&& s.turn.score + (s.turn.level + 1) * (1200 + g.down + extra) <= i32::MAX
    &&& s.turn.level < i32::MAX
    &&& s.turn.cleared <= i32::MAX - 4
    &&& s.turn.tetrises < i32::MAX
    &&& s.turn.stats.within(i32::MAX - 1)
}

/// A snapshot a game with configuration `c` runs through up to frame `t`: a score
/// of zero or more, tetrominoes falling and to come, falling pieces in orientations below 4 at most three rows below the top, entry delays in
/// range, pieces to come in orientations below 4, stamped no later than `t`.
pub open spec fn game_frame_ok(s: SnapshotView, c: Config, t: int) -> bool {
    &&& s.timestamp <= t
    &&& 0 <= s.turn.score
    &&& s.turn.next_piece.spec_orientation() < 4
    &&& s.next_piece().spec_orientation() < 4
    &&& s.turn.next_piece.spec_type() != Type::Empty
    &&& s.next_piece().spec_type() != Type::Empty
    &&& match s.state {
        StateView::Falling { piece, x, y } => piece.spec_type() != Type::Empty && piece.spec_orientation() < 4 && x <= c.width
            && y <= c.height - 3,
        StateView::Entry { duration, .. } => 0 <= duration <= 3 * max_duration(),
    }
}

/// Whether every counter of the statistics stays below `i32::MAX`.
fn stats_below_max(stats: &crate::state::PieceStats) -> (result: bool)
    requires
        stats@.within(i32::MAX as int),
    ensures
        result == stats@.within(i32::MAX - 1),
{
    let mut stats_ok = true;
    let mut i: u32 = 0;
    while i < 7
        invariant
            i <= 7,
            stats@.count.len() == 7,
            stats@.drought.len() == 7,
            stats_ok == (forall|k: int|
                #![trigger stats@.count[k]]
                #![trigger stats@.drought[k]]
                0 <= k < i ==> stats@.count[k] <= i32::MAX - 1 && stats@.drought[k] <= i32::MAX - 1),
            stats@.within(i32::MAX as int),
        decreases 7 - i,
    {
        let tp = Type::from_int(i);
        let (count, drought) = stats.get(tp);
        if count > i32::MAX - 1 || drought > i32::MAX - 1 {
            stats_ok = false;
        }
        i = i + 1;
    }
    stats_ok
}

/// A game of Tetris: the pieces, the keys, the timers and the recording.
pub struct Game {
    config: Config,
    state: GameHistory,
    timestamp: i32,
    lost: Option<(i32, i32)>,
    drop_timer: i32,
    left: bool,
    right: bool,
    movekey: Move,
    das: i32,
    down_pressed: bool,
    down: i32,
    down_das: i32,
    replay: Replay,
    faithful: Ghost<bool>,
}

impl View for Game {
    type V = GameView;

    closed spec fn view(&self) -> GameView {
        GameView {
            timestamp: self.timestamp as int,
            lost: match self.lost {
                Some(l) => Some((l.0 as int, l.1 as int)),
                None => None,
            },
            drop_timer: self.drop_timer as int,
            left: self.left,
            right: self.right,
            movekey: self.movekey,
            das: self.das as int,
            down_pressed: self.down_pressed,
            down: self.down as int,
            down_das: self.down_das as int,
            frames: self.state.frames(),
            replay_time: self.replay.spec_time(),
            replay: self.replay.entries(),
            faithful: self.faithful@,
        }
    }
}

impl Game {
    /// The configuration the game is played with.
    pub closed spec fn spec_config(&self) -> Config {
        self.config
    }

    /// The game is in a state that play can reach.
    pub closed spec fn wf(&self) -> bool {
        &&& self.wf_core()
        &&& self.counters_ok(self.timestamp as int)
    }

    /// The pieces, the history and the recording are in a state that play can reach.
    closed spec fn wf_core(&self) -> bool {
        let c = self.config;
        let t = self.timestamp as int;
        &&& c.wf()
        &&& self.state.wf()
        &&& self.state.spec_config().same_as(&c)
        &&& self.replay.spec_config().same_as(&c)
        &&& 0 <= t
        &&& 0 <= self.replay.spec_time() <= t
        &&& forall|i: int| 0 <= i < self.state.frames().len() ==> game_frame_ok(#[trigger] self.state.frames()[i], c, t)
        &&& self.replay.spec_first() != Type::Empty
        &&& self.replay.spec_second() != Type::Empty
        &&& self@.faithful ==> agrees(self@, self.replay.spec_config(), start_of(self.replay))
    }

    /// A game in a reachable state keeps the bounds its recording relies on.
    proof fn lemma_recordable(&self)
        requires
            self.wf_core(),
        ensures
            recordable(self@),
    {
        let n = self.state.frames().len();
        assert(game_frame_ok(self.state.frames()[n - 1], self.config, self.timestamp as int));
        assert(crate::state::frame_ok(self.state.frames()[n - 1], self.state.spec_config()));
    }

    /// The timers and the soft drop are where play puts them by frame `t`.
    closed spec fn counters_ok(&self, t: int) -> bool {
        &&& -t <= self.das
        &&& -t <= self.down_das
        &&& 0 <= self.down <= t + 1
        &&& -3 * max_duration() <= self.drop_timer <= t + max_duration()
    }

    /// The counters leave room for one more frame of play: none of them can leave
    /// `i32` in it, and the soft drop fits the byte the recording gives it.
    pub open spec fn has_room(&self) -> bool {
        let g = self@;
        let s = g.frames.last();
        &&& g.timestamp < i32::MAX - 4 * max_duration()
        &&& s.shown_stack().generation <= i32::MAX - 3
        &&& g.down + 1 <= 127
        &&& s.turn.score + (s.turn.level + 1) * (1200 + g.down + 1) <= i32::MAX
        &&& s.turn.level < i32::MAX
        &&& s.turn.cleared <= i32::MAX - 4
        &&& s.turn.tetrises < i32::MAX
        &&& s.turn.stats.within(i32::MAX - 1)
    }

    /// A new game with configuration `config` and two random pieces: `None` where
    /// the operating system gives no randomness, else a game as `with_draws` makes
    /// it for some draws.
    pub fn new(config: &Config) -> (result: Option<Self>)
        requires
            config.wf(),
        ensures
            match result {
                Some(g) => exists|a: u32, b: u32, c: u32, d: u32| #[trigger] Self::made_with(g, *config, a, b, c, d),
                None => true,
            },
    {
        let (a, b) = match draw_pair() {
            Some(p) => p,
            None => {
                return None;
            },
        };
        let (c, d) = match draw_pair() {
            Some(p) => p,
            None => {
                return None;
            },
        };
        let g = Self::with_draws(config, a, b, c, d);
        assert(Self::made_with(g, *config, a, b, c, d));
        Some(g)
    }

    /// `g` is the game that `with_draws` makes of `config` and the draws `a`, `b`
    /// (first piece) and `c`, `d` (second piece).
    pub open spec fn made_with(g: Self, config: Config, a: u32, b: u32, c: u32, d: u32) -> bool {
        let first = dealt_piece(Type::Empty, a, b);
        let second = dealt_piece(first.spec_type(), c, d);
        &&& g.wf()
        &&& g.spec_config().same_as(&config)
        &&& g@.timestamp == 0
        &&& g@.lost is None
        &&& g@.drop_timer == -90
        &&& !g@.left
        &&& !g@.right
        &&& g@.movekey == Move::Idle
        &&& g@.das == 0
        &&& !g@.down_pressed
        &&& g@.down == 0
        &&& g@.down_das == 0
        &&& g@.frames == seq![crate::state::initial_snapshot(config, first, second)]
        &&& g@.replay_time == 0
        &&& g@.replay == Seq::<u16>::empty()
        &&& g@.faithful
        &&& g.spec_replay().spec_config().same_as(&config)
        &&& g.spec_replay().spec_first() == first.spec_type()
        &&& g.spec_replay().spec_second() == second.spec_type()
    }

    /// The recording the game keeps.
    pub closed spec fn spec_replay(&self) -> Replay {
        self.replay
    }

    /// A new game with configuration `config` whose first piece is dealt from the
    /// draws `a` and `b` and whose second piece from `c` and `d` (see `deal`).
    pub fn with_draws(config: &Config, a: u32, b: u32, c: u32, d: u32) -> (result: Self)
        requires
            config.wf(),
        ensures
            Self::made_with(result, *config, a, b, c, d),
            is_deal(result@.frames[0].falling().unwrap().0),
            is_deal(result@.frames[0].turn.next_piece),
    {
        let first = deal(Type::Empty, a, b);
        let second = deal(first.get_type(), c, d);
        let timestamp: i32 = 0;
        let state = GameHistory::new(config, first, second);
        let replay = Replay::new(config, first.get_type(), second.get_type(), timestamp);
        let result = Game {
            config: config.copy(),
            state,
            timestamp,
            lost: None,
            drop_timer: -90,
            movekey: Move::Idle,
            left: false,
            right: false,
            das: 0,
            down: 0,
            down_pressed: false,
            down_das: 0,
            replay,
            faithful: Ghost(true),
        };
        proof {
            assert(result.state.frames()[0] == result.state.last());
            let rc = result.replay.spec_config();
            let st = start_of(result.replay);
            Piece::lemma_spec_new(first.spec_type(), 2);
            Piece::lemma_spec_new(second.spec_type(), 2);
            Piece::lemma_same_piece(Piece::spec_new(first.spec_type(), 2), first);
            Piece::lemma_same_piece(Piece::spec_new(second.spec_type(), 2), second);
            assert(rc.wf());
            assert(crate::state::initial_snapshot(rc, first, second) == crate::state::initial_snapshot(*config, first, second));
            assert(st.frames =~= result.state.frames());
            assert(crate::replay::playback(rc, st, result.replay.entries()) == Some(st));
        }
        result
    }

    /// See `moved`.
    fn try_move(&mut self, rotate: Option<bool>, dx: i32, dy: i32) -> (result: bool)
        requires
            old(self).wf_core(),
            -1 <= dx <= 1,
            -1 <= dy <= 0,
            single_move(rotate, dx as int, dy as int),
        ensures
            final(self).wf_core(),
            final(self).spec_config() == old(self).spec_config(),
            (final(self)@, result) == moved(old(self)@, rotate, dx as int, dy as int),
            final(self).replay.spec_config() == old(self).replay.spec_config(),
            start_of(final(self).replay) == start_of(old(self).replay),
    {
        if self.lost.is_some() {
            return false;
        }
        let ghost g = self@;
        let ghost rc = self.replay.spec_config();
        let ghost start = start_of(self.replay);
        proof {
            self.lemma_recordable();
            if g.faithful {
                lemma_moved_agrees(g, rc, start, rotate, dx as int, dy as int);
            }
        }
        let curr = self.state.snapshot().piece();
        match curr {
            Some(f) => {
                let mut piece = f.0;
                proof {
                    assert(game_frame_ok(self.state.frames()[self.state.frames().len() - 1], self.config, self.timestamp as int));
                }
                if let Some(rot) = rotate {
                    piece = piece.rotate(rot);
                }
                let x = f.1 + dx;
                let y = f.2 + dy;
                let ghost shown = self.state.last().shown_stack();
                let ret = self.state.try_move(self.timestamp, piece, x, y);
                proof {
                    crate::stack::lemma_fits_floor(shown, piece, x as int, y as int);
                    assert(shown.width == self.config.width);
                }
                if ret {
                    proof {
                        let gap = self.timestamp - self.replay.spec_time();
                        assert(((dx + 16) as u8) as int == dx + 16);
                        assert(((dy + 16) as u8) as int == dy + 16);
                        crate::replay::lemma_last_word_fits(gap, EntryType::MoveX, dx + 16);
                        crate::replay::lemma_last_word_fits(0, EntryType::MoveX, dx + 16);
                        crate::replay::lemma_last_word_fits(gap, EntryType::MoveDown, dy + 16);
                        crate::replay::lemma_last_word_fits(0, EntryType::MoveDown, dy + 16);
                    }
                    self.replay.add_move(self.timestamp, rotate, dx, dy);
                }
                proof {
                    if ret {
                        assert forall|i: int| 0 <= i < self.state.frames().len() implies game_frame_ok(
                            #[trigger] self.state.frames()[i],
                            self.config,
                            self.timestamp as int,
                        ) by {
                            if i < g.frames.len() {
                                assert(self.state.frames()[i] == g.frames[i]);
                            }
                        }
                    }
                }
                ret
            },
            None => false,
        }
    }

    fn update_move(&mut self)
        requires
            old(self).wf(),
        ensures
            final(self).wf(),
            final(self).spec_config() == old(self).spec_config(),
            final(self)@ == update_move(old(self)@, old(self).spec_config()),
    {
        let movekey = if self.left && !self.right {
            Move::Left
        } else if !self.left && self.right {
            Move::Right
        } else {
            Move::Idle
        };
        if movekey != self.movekey {
            self.movekey = movekey;
            if movekey != Move::Idle {
                let direction: i32 = if movekey == Move::Left { -1 } else { 1 };
                let moved = self.try_move(None, direction, 0);
                self.das = if moved { self.config.das_initial } else { 0 };
            }
        }
    }

    /// The left key is pressed or released.
    pub fn left(&mut self, pressed: bool)
        requires
            old(self).wf(),
        ensures
            final(self).wf(),
            final(self).spec_config() == old(self).spec_config(),
            final(self)@ == update_move(GameView { left: pressed, ..old(self)@ }, old(self).spec_config()),
    {
        self.left = pressed;
        self.update_move();
    }

    /// The right key is pressed or released.
    pub fn right(&mut self, pressed: bool)
        requires
            old(self).wf(),
        ensures
            final(self).wf(),
            final(self).spec_config() == old(self).spec_config(),
            final(self)@ == update_move(GameView { right: pressed, ..old(self)@ }, old(self).spec_config()),
    {
        self.right = pressed;
        self.update_move();
    }

    /// The down key is pressed or released (see `pressed_down`).
    pub fn down(&mut self, pressed: bool)
        requires
            old(self).wf(),
        ensures
            final(self).wf(),
            final(self).spec_config() == old(self).spec_config(),
            final(self)@ == pressed_down(old(self)@, old(self).spec_config(), pressed),
    {
        if !self.down_pressed && pressed {
            if self.try_move(None, 0, -1) {
                self.down = 1;
                self.down_das = self.config.das_down;
            }
        } else if !pressed {
            self.down = 0;
        }
        self.down_pressed = pressed;
    }

    /// Turns the falling piece, if it fits turned (see `moved`).
    pub fn rotate(&mut self, clockwise: bool)
        requires
            old(self).wf(),
        ensures
            final(self).wf(),
            final(self).spec_config() == old(self).spec_config(),
            final(self)@ == moved(old(self)@, Some(clockwise), 0, 0).0,
    {
        self.try_move(Some(clockwise), 0, 0);
    }

    /// See `moved_down`; returns the outcome and the piece that was dealt, if any.
    fn move_down(&mut self, first: u32, second: u32) -> (result: (Outcome, Ghost<Piece>))
        requires
            old(self).wf_core(),
            lock_room(old(self)@, 0),
            0 <= old(self).down,
        ensures
            final(self).wf_core(),
            final(self).spec_config() == old(self).spec_config(),
            is_deal(result.1@),
            result.1@ == dealt_piece(old(self)@.frames.last().turn.next_piece.spec_type(), first, second),
            (final(self)@, result.0@) == moved_down(old(self)@, old(self).spec_config(), result.1@),
    {
        let ghost dealt = dealt_piece(self@.frames.last().turn.next_piece.spec_type(), first, second);
        proof {
            Piece::lemma_spec_new(dealt_type(self@.frames.last().turn.next_piece.spec_type(), first, second), 2);
        }
        if self.lost.is_some() {
            return (Outcome::Death, Ghost(dealt));
        }
        let curr_piece = self.state.snapshot().piece();
        if curr_piece.is_none() {
            return (Outcome::Nothing, Ghost(dealt));
        }
        let ghost g = self@;
        let ghost rc = self.replay.spec_config();
        let ghost start = start_of(self.replay);
        proof {
            self.lemma_recordable();
        }
        if !self.try_move(None, 0, -1) {
            let waiting = self.state.snapshot().next_piece();
            let next_piece = deal(waiting.get_type(), first, second);
            let ghost s = g.frames.last();
            proof {
                assert(crate::state::frame_ok(s, self.state.spec_config()));
                let f = curr_piece.unwrap();
                assert(game_frame_ok(s, self.config, self.timestamp as int));
                assert(0 <= (if f.2 >= 0 { f.2 as int } else { 0 }) <= max_side());
                assert((if f.2 >= 0 { f.2 as int } else { 0 }) * (self.config.are_max - self.config.are_base) <= max_side() * max_duration()) by (nonlinear_arith)
                    requires
                        0 <= (if f.2 >= 0 { f.2 as int } else { 0 }) <= max_side(),
                        0 <= self.config.are_max - self.config.are_base <= max_duration(),
                ;
            }
            proof {
                let f = curr_piece.unwrap();
                let ym = if f.2 >= 0 { f.2 as int } else { 0 };
                let diff = self.config.are_max - self.config.are_base;
                let h = self.config.height as int;
                assert(ym <= h);
                assert(0 <= ym * diff / h <= diff) by (nonlinear_arith)
                    requires
                        0 <= ym <= h,
                        0 <= diff,
                        0 < h,
                ;
            }
            assert(merge_room_at(self.state.last(), self.state.spec_config(), self.down as int));
            assert(merge_room_at(g.frames.last(), self.config, g.down));
            proof {
                lemma_moved_down_agrees(g, self.config, rc, start, next_piece);
            }
            proof {
                assert((self.down as u8) as int == self.down);
                crate::replay::lemma_last_word_fits(self.timestamp - self.replay.spec_time(), EntryType::Merge, self.down as int);
            }
            self.replay.add_merge(self.timestamp, self.down, next_piece);
            self.state.merge(self.timestamp, next_piece, self.down);
            let snap = self.state.snapshot();
            let duration = match snap.are_duration() {
                Some(d) => d,
                None => {
                    proof {
                        assert(false);
                    }
                    0
                },
            };
            self.drop_timer = -duration;
            let ghost keep: bool = self.faithful@ && 0 <= self.down && self.down < 32;
            self.faithful = Ghost(keep);
            self.down = 0;
            let snap = self.state.snapshot();
            let result = match snap.animation() {
                None => Outcome::Merge,
                Some(anim) => {
                    let rows = anim.0.clone();
                    assert(rows@ =~= anim.0@);
                    Outcome::Clear(rows, anim.1.copy())
                },
            };
            proof {
                assert forall|i: int| 0 <= i < self.state.frames().len() implies game_frame_ok(
                    #[trigger] self.state.frames()[i],
                    self.config,
                    self.timestamp as int,
                ) by {
                    if i < g.frames.len() {
                        assert(self.state.frames()[i] == g.frames[i]);
                    }
                }
            }
            proof {
                assert(self@ == moved_down(g, self.config, next_piece).0);
                assert(start_of(self.replay) == start);
                assert(self.replay.spec_config() == rc);
            }
            return (result, Ghost(next_piece));
        }
        (Outcome::Nothing, Ghost(dealt))
    }
    /// Whether the game has room for one more frame (see `has_room`).
    pub fn can_advance(&self) -> (result: bool)
        requires
            self.wf(),
        ensures
            result == self.has_room(),
    {
        let snap = self.state.snapshot();
        proof {
            assert(crate::state::frame_ok(self.state.frames()[self.state.frames().len() - 1], self.state.spec_config()));
        }
        let time_ok = self.timestamp < i32::MAX - 40_000;
        let generation_ok = snap.stack().generation() <= i32::MAX - 3;
        let down_ok = self.down < 127;
        let level = snap.level();
        let level_ok = level < i32::MAX;
        let lines_ok = snap.lines() <= i32::MAX - 4;
        let tetrises_ok = snap.tetrises() < i32::MAX;
        let factor = (level as i64) + 1;
        let points = 1200i64 + (self.down as i64) + 1;
        assert(0 <= factor * points <= 2147483648i64 * 2147485000i64) by (nonlinear_arith)
            requires
                1 <= factor <= 2147483648,
                1 <= points <= 2147485000,
        ;
        let score_ok = (snap.score() as i128) + (factor as i128) * (points as i128) <= i32::MAX as i128;
        let stats_ok = stats_below_max(snap.stats());
        time_ok && generation_ok && down_ok && level_ok && lines_ok && tetrises_ok && score_ok && stats_ok
    }

    /// See `step_das`.
    fn step_das(&mut self)
        requires
            old(self).wf_core(),
            old(self).das >= 1 - old(self).timestamp,
        ensures
            final(self).wf_core(),
            final(self).spec_config() == old(self).spec_config(),
            final(self)@ == step_das(old(self)@, old(self).spec_config()),
            final(self)@.frames.last().turn == old(self)@.frames.last().turn,
            final(self).das >= -final(self).timestamp,
    {
        if self.movekey != Move::Idle && self.das <= 0 {
            let direction: i32 = if self.movekey == Move::Left { -1 } else { 1 };
            if self.try_move(None, direction, 0) {
                self.das = self.config.das_step;
            }
        }
        self.das = self.das - 1;
    }

    /// See `step_are`; returns whether the delay still runs and the outcome so far.
    fn step_are(&mut self) -> (result: (bool, Outcome))
        requires
            old(self).wf_core(),
            old(self)@.timestamp < i32::MAX - 3 * max_duration(),
        ensures
            final(self).wf_core(),
            final(self).spec_config() == old(self).spec_config(),
            (final(self)@, result.0, result.1@) == step_are(old(self)@, old(self).spec_config()),
            final(self)@.frames.last().turn == old(self)@.frames.last().turn,
            final(self)@.down == old(self)@.down,
    {
        let ghost c = self.config;
        let mut ret = Outcome::Nothing;
        let are_start = self.state.snapshot().timestamp();
        let mut are_we_are = false;
        if let Some(duration) = self.state.snapshot().are_duration() {
            proof {
                assert(game_frame_ok(self.state.frames()[self.state.frames().len() - 1], c, self.timestamp as int));
            }
            if are_start + duration < self.timestamp {
                let ghost before = self@;
                proof {
                    self.lemma_recordable();
                    lemma_step_are_agrees(before, c, self.replay.spec_config(), start_of(self.replay));
                }
                self.replay.add_new_piece(self.timestamp);
                let fits = self.state.start_new_piece(self.timestamp);
                if !fits {
                    let last_breath = self.state.snapshot();
                    self.lost = Some((last_breath.score(), last_breath.level()));
                    ret = Outcome::Death;
                }
                self.drop_timer = 0;
                proof {
                    assert forall|i: int| 0 <= i < self.state.frames().len() implies game_frame_ok(
                        #[trigger] self.state.frames()[i],
                        self.config,
                        self.timestamp as int,
                    ) by {
                        if i < before.frames.len() {
                            assert(self.state.frames()[i] == before.frames[i]);
                        }
                    }
                }
            } else {
                are_we_are = true;
            }
        }
        (are_we_are, ret)
    }

    /// The gravity at the level of the newest snapshot (see `gravity_at`).
    fn gravity(&self) -> (result: i32)
        requires
            self.wf_core(),
        ensures
            result == gravity_at(self@, self.spec_config()),
            0 <= result <= max_duration(),
    {
        proof {
            assert(crate::state::frame_ok(self.state.frames()[self.state.frames().len() - 1], self.state.spec_config()));
        }
        let level = self.state.snapshot().level();
        let last_level = self.config.gravity.len() as i32 - 1;
        let gidx = if level <= last_level { level } else { last_level };
        self.config.gravity[gidx as usize]
    }

    /// See `step_soft`; returns whether a step down is due.
    fn step_soft(&mut self, gravity: i32) -> (result: bool)
        requires
            old(self).wf_core(),
            0 <= gravity <= max_duration(),
            old(self).down_das >= 1 - old(self).timestamp,
            0 <= old(self).down <= old(self).timestamp < i32::MAX,
        ensures
            final(self).wf_core(),
            final(self).spec_config() == old(self).spec_config(),
            (final(self)@, result) == step_soft(old(self)@, old(self).spec_config(), gravity as int),
            final(self)@.down <= old(self)@.down + 1,
            final(self).down_das >= -final(self).timestamp,
            0 <= final(self).down <= final(self).timestamp + 1,
    {
        let mut move_down = false;
        if self.down > 0 && self.down_das <= 0 {
            self.drop_timer = gravity;
            self.down_das = self.config.das_down;
            self.down = self.down + 1;
            move_down = true;
        }
        self.down_das = self.down_das - 1;
        move_down
    }

    /// One frame of play with a random deal (see `frame_with`): `None`, with the game
    /// unchanged, where the operating system gives no randomness.
    pub fn frame(&mut self) -> (result: Option<Outcome>)
        requires
            old(self).wf(),
            old(self).has_room(),
        ensures
            match result {
                Some(r) => exists|first: u32, second: u32|
                    #[trigger] frame_step(old(self)@, old(self).spec_config(), dealt_piece(old(self)@.frames.last().turn.next_piece.spec_type(), first, second))
                        == (final(self)@, r@) && final(self).wf() && final(self).spec_config() == old(self).spec_config(),
                None => *final(self) == *old(self),
            },
    {
        match draw_pair() {
            None => None,
            Some((first, second)) => Some(self.frame_with(first, second)),
        }
    }

    /// One frame of play (see `frame_step`); a piece dealt in it is dealt from the
    /// draws `first` and `second` after the type waiting to come (see `deal`).
    #[verifier::rlimit(40)]
    pub fn frame_with(&mut self, first: u32, second: u32) -> (result: Outcome)
        requires
            old(self).wf(),
            old(self).has_room(),
        ensures
            final(self).wf(),
            final(self).spec_config() == old(self).spec_config(),
            (final(self)@, result@) == frame_step(
                old(self)@,
                old(self).spec_config(),
                dealt_piece(old(self)@.frames.last().turn.next_piece.spec_type(), first, second),
            ),
    {
        let ghost c = self.config;
        let ghost g = self@;
        let ghost t_old = self.timestamp as int;
        proof {
            assert(crate::state::frame_ok(g.frames.last(), self.state.spec_config())) by {
                assert(g.frames.last() == self.state.frames()[self.state.frames().len() - 1]);
            }
        }
        self.timestamp = self.timestamp + 1;
        let ghost g0 = self@;
        assert(g0 == GameView { timestamp: g.timestamp + 1, ..g });
        proof {
            assert forall|i: int| 0 <= i < self.state.frames().len() implies game_frame_ok(
                #[trigger] self.state.frames()[i],
                self.config,
                self.timestamp as int,
            ) by {
                assert(game_frame_ok(self.state.frames()[i], self.config, t_old));
            }
        }
        self.step_das();
        let ghost g1 = self@;
        assert(g1 == step_das(g0, c));
        let (are_we_are, mut ret) = self.step_are();
        let ghost g2 = self@;
        assert((g2, are_we_are, ret@) == step_are(g1, c));
        assert(self.drop_timer <= t_old + max_duration());
        let gravity = self.gravity();
        let mut move_down = self.step_soft(gravity);
        let ghost g3 = self@;
        assert((g3, move_down) == step_soft(g2, c, gravity as int));
        let ghost dealt = dealt_piece(g.frames.last().turn.next_piece.spec_type(), first, second);
        if !are_we_are {
            self.drop_timer = self.drop_timer + 1;
            if !self.down_pressed && self.drop_timer >= gravity {
                move_down = true;
            }
            if move_down {
                proof {
                    let s = self@.frames.last();
                    assert(s.turn == g.frames.last().turn);
                    assert(s.is_falling() ==> s.shown_stack() == s.turn.stack);
                    let lv = s.turn.level;
                    let dn = self.down as int;
                    assert((lv + 1) * (1200 + dn) <= (lv + 1) * (1200 + g.down + 1)) by (nonlinear_arith)
                        requires
                            0 <= lv,
                            dn <= g.down + 1,
                    ;
                    match g.frames.last().state {
                        StateView::Entry { animation: Some(a), .. } => {
                            assert(a.1.generation + 1 == s.turn.stack.generation);
                        },
                        _ => {},
                    }
                }
                let (r, d) = self.move_down(first, second);
                ret = r;
                self.drop_timer = 0;
            }
        }
        assert((self@, ret@) == frame_step(g, c, dealt));
        ret
    }

    /// The newest snapshot of the game.
    pub fn snapshot(&self) -> (result: &Snapshot)
        requires
            self.wf(),
        ensures
            result@ == self@.frames.last(),
    {
        self.state.snapshot()
    }

    /// The current frame number.
    pub fn timestamp(&self) -> (result: i32)
        ensures
            result == self@.timestamp,
    {
        self.timestamp
    }

    /// The recording of the game. Played back (see `replay_playback`), it gives
    /// the game's snapshots, one for one, as long as no piece locked after a soft
    /// drop of 32 rows or more.
    pub fn replay(&self) -> (result: &Replay)
        ensures
            *result == self.spec_replay(),
            self.wf() ==> result.spec_config().same_as(&self.spec_config()),
            result.entries() == self@.replay,
            result.spec_time() == self@.replay_time,
            self.wf() && self@.faithful ==> (crate::replay::replay_playback(*result) matches Some(st) && st.frames
                == self@.frames),
    {
        proof {
            if self.wf() && self@.faithful {
                let r = self.replay;
                assert(r.spec_config().wf());
                assert(crate::replay::playback_start(r.spec_config(), r.spec_first(), r.spec_second()) is Some);
            }
        }
        &self.replay
    }
}

} // verus!
