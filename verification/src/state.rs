use vstd::prelude::*;

use crate::config::{Config, max, transition_lines};
use crate::piece::{Piece, Type, type_index};
use crate::stack::{Stack, StackView, no_full_row, in_rect};

verus! {

/// How often each tetromino was dealt, and how many pieces ago each was last dealt.
#[derive(Clone, Copy)]
pub struct PieceStats {
    count: [i32; 7],
    drought: [i32; 7],
}

/// What piece statistics hold, indexed by `type_index`.
#[verifier::ext_equal]
pub struct StatsView {
    pub count: Seq<int>,
    pub drought: Seq<int>,
}

impl StatsView {
    /// How often pieces of type `tp` were dealt.
    pub open spec fn count_of(&self, tp: Type) -> int {
        self.count[type_index(tp)]
    }

    /// How many pieces were dealt since the last one of type `tp`.
    pub open spec fn drought_of(&self, tp: Type) -> int {
        self.drought[type_index(tp)]
    }

    /// Every counter lies in `0..=bound`.
    pub open spec fn within(&self, bound: int) -> bool {
        &&& self.count.len() == 7
        &&& self.drought.len() == 7
        &&& forall|k: int| 0 <= k < 7 ==> 0 <= #[trigger] self.count[k] <= bound
        &&& forall|k: int| 0 <= k < 7 ==> 0 <= #[trigger] self.drought[k] <= bound
    }

    /// The statistics after a piece of type `tp` was dealt: its count goes up by one
    /// and its drought to zero, the drought of every other type up by one.
    pub open spec fn checked_in(&self, tp: Type) -> StatsView {
        StatsView {
            count: self.count.update(type_index(tp), self.count[type_index(tp)] + 1),
            drought: Seq::new(7, |k: int| if k == type_index(tp) { 0 } else { self.drought[k] + 1 }),
        }
    }
}

/// Dealing a piece of type `tp` counts it once more and ends its drought, and
/// every other type's drought grows by one while its count stays.
pub proof fn lemma_checkin_counters(s: StatsView, tp: Type, t: Type)
    requires
        s.count.len() == 7,
        s.drought.len() == 7,
        tp != Type::Empty,
        t != Type::Empty,
    ensures
        s.checked_in(tp).count_of(tp) == s.count_of(tp) + 1,
        s.checked_in(tp).drought_of(tp) == 0,
        t != tp ==> s.checked_in(tp).count_of(t) == s.count_of(t),
        t != tp ==> s.checked_in(tp).drought_of(t) == s.drought_of(t) + 1,
{
}

impl View for PieceStats {
    type V = StatsView;

    closed spec fn view(&self) -> StatsView {
        StatsView {
            count: self.count@.map_values(|c: i32| c as int),
            drought: self.drought@.map_values(|c: i32| c as int),
        }
    }
}

impl PieceStats {
    /// No piece dealt yet.
    pub fn new() -> (result: Self)
        ensures
            result@ == (StatsView { count: Seq::new(7, |k: int| 0), drought: Seq::new(7, |k: int| 0) }),
    {
        let result = PieceStats { count: [0, 0, 0, 0, 0, 0, 0], drought: [0, 0, 0, 0, 0, 0, 0] };
        assert(result@ =~= StatsView { count: Seq::new(7, |k: int| 0), drought: Seq::new(7, |k: int| 0) });
        result
    }

    /// The statistics after a piece of type `tp` was dealt.
    pub fn checkin(&self, tp: Type) -> (result: Self)
        requires
            tp != Type::Empty,
            self@.within(i32::MAX - 1),
        ensures
            result@ == self@.checked_in(tp),
    {
        let mut ret = *self;
        let mut i: usize = 0;
        while i < 7
            invariant
                i <= 7,
                ret.count == self.count,
                forall|k: int| 0 <= k < i ==> ret.drought@[k] == self.drought@[k] + 1,
                forall|k: int| i <= k < 7 ==> ret.drought@[k] == self.drought@[k],
                self@.within(i32::MAX - 1),
            decreases 7 - i,
        {
            assert(self@.drought[i as int] == self.drought@[i as int]);
            ret.drought[i] = ret.drought[i] + 1;
            i = i + 1;
        }
        let piece_idx = tp.index();
        assert(self@.count[piece_idx as int] == self.count@[piece_idx as int]);
        ret.count[piece_idx] = ret.count[piece_idx] + 1;
        ret.drought[piece_idx] = 0;
        assert(ret@ =~= self@.checked_in(tp));
        ret
    }

    /// Whether every counter stays below `i32::MAX`.
    pub fn below_max(&self) -> (result: bool)
        requires
            self@.within(i32::MAX as int),
        ensures
            result == self@.within(i32::MAX - 1),
    {
        let mut ok = true;
        let mut i: usize = 0;
        while i < 7
            invariant
                i <= 7,
                self@.within(i32::MAX as int),
                ok == (forall|k: int|
                    #![trigger self@.count[k]]
                    #![trigger self@.drought[k]]
                    0 <= k < i ==> self@.count[k] <= i32::MAX - 1 && self@.drought[k] <= i32::MAX - 1),
            decreases 7 - i,
        {
            assert(self@.count[i as int] == self.count@[i as int]);
            assert(self@.drought[i as int] == self.drought@[i as int]);
            if self.count[i] > i32::MAX - 1 || self.drought[i] > i32::MAX - 1 {
                ok = false;
            }
            i = i + 1;
        }
        ok
    }

    /// (count, drought) of pieces of type `tp`.
    pub fn get(&self, tp: Type) -> (result: (i32, i32))
        requires
            tp != Type::Empty,
        ensures
            result.0 == self@.count_of(tp),
            result.1 == self@.drought_of(tp),
    {
        let piece_idx = tp.index();
        (self.count[piece_idx], self.drought[piece_idx])
    }
}

/// The state of the game between two pieces locking.
struct Turn {
    score: i32,
    level: i32,
    left_to_clear: i32,
    cleared: i32,
    tetrises: i32,
    stack: Stack,
    next_piece: Piece,
    stats: PieceStats,
}

/// What a turn holds.
#[verifier::ext_equal]
pub struct TurnView {
    pub score: int,
    pub level: int,
    pub left_to_clear: int,
    pub cleared: int,
    pub tetrises: int,
    pub stack: StackView,
    pub next_piece: Piece,
    pub stats: StatsView,
}

impl View for Turn {
    type V = TurnView;

    closed spec fn view(&self) -> TurnView {
        TurnView {
            score: self.score as int,
            level: self.level as int,
            left_to_clear: self.left_to_clear as int,
            cleared: self.cleared as int,
            tetrises: self.tetrises as int,
            stack: self.stack@,
            next_piece: self.next_piece,
            stats: self.stats@,
        }
    }
}

impl Turn {
    fn copy(&self) -> (result: Self)
        ensures
            result@ == self@,
    {
        let stack = self.stack.copy();
        let result = Turn {
            score: self.score,
            level: self.level,
            left_to_clear: self.left_to_clear,
            cleared: self.cleared,
            tetrises: self.tetrises,
            stack,
            next_piece: self.next_piece,
            stats: self.stats,
        };
        assert(result@.stack =~= self@.stack);
        assert(result@.stats =~= self@.stats);
        result
    }
}

/// Either the entry delay after a piece locked, or a piece falling.
enum State {
    ARE { waiting: Piece, duration: i32, animation: Option<(Vec<i32>, Stack)> },
    Piece { piece: Piece, x: i32, y: i32 },
}

/// What a state holds.
pub enum StateView {
    /// The entry delay: the piece that comes next, the delay in frames, and, when rows
    /// were cleared, those rows (from the top down) with the field just before.
    Entry { waiting: Piece, duration: int, animation: Option<(Seq<i32>, StackView)> },
    /// A piece falling, with the position of its 4x4 box.
    Falling { piece: Piece, x: int, y: int },
}

impl View for State {
    type V = StateView;

    closed spec fn view(&self) -> StateView {
        match self {
            State::ARE { waiting, duration, animation } => StateView::Entry {
                waiting: *waiting,
                duration: *duration as int,
                animation: match animation {
                    Some(a) => Some((a.0@, a.1@)),
                    None => None,
                },
            },
            State::Piece { piece, x, y } => StateView::Falling { piece: *piece, x: *x as int, y: *y as int },
        }
    }
}

/// The game at one moment.
pub struct Snapshot {
    timestamp: i32,
    turn: Turn,
    state: State,
}

/// What a snapshot holds.
pub struct SnapshotView {
    pub timestamp: int,
    pub turn: TurnView,
    pub state: StateView,
}

impl SnapshotView {
    /// The field to show: during the clearing animation the field before the rows were
    /// removed, else the field of the turn.
    pub open spec fn shown_stack(&self) -> StackView {
        match self.state {
            StateView::Entry { animation: Some(a), .. } => a.1,
            _ => self.turn.stack,
        }
    }

    /// The piece that enters next.
    pub open spec fn next_piece(&self) -> Piece {
        match self.state {
            StateView::Entry { waiting, .. } => waiting,
            StateView::Falling { .. } => self.turn.next_piece,
        }
    }

    /// The falling piece and its position, if a piece is falling.
    pub open spec fn falling(&self) -> Option<(Piece, int, int)> {
        match self.state {
            StateView::Falling { piece, x, y } => Some((piece, x, y)),
            _ => None,
        }
    }

    pub open spec fn is_falling(&self) -> bool {
        self.state is Falling
    }
}

impl View for Snapshot {
    type V = SnapshotView;

    closed spec fn view(&self) -> SnapshotView {
        SnapshotView { timestamp: self.timestamp as int, turn: self.turn@, state: self.state@ }
    }
}

/// A falling piece leaves room for its last column and row in `i32`; a tetromino's
/// box lies no lower than three rows below the floor and no further left than three
/// columns (an empty piece, which has no block, may stand anywhere).
pub open spec fn piece_placed(piece: Piece, x: int, y: int) -> bool {
    &&& x <= i32::MAX - 3
    &&& y <= i32::MAX - 3
    &&& piece.spec_type() != Type::Empty ==> -3 <= x && -3 <= y
}

impl Snapshot {
    #[verifier::type_invariant]
    spec fn inv(self) -> bool {
        match self.state {
            State::Piece { piece, x, y } => piece_placed(piece, x as int, y as int),
            State::ARE { .. } => true,
        }
    }

    /// The field to show (see `SnapshotView::shown_stack`).
    pub fn stack(&self) -> (result: &Stack)
        ensures
            result@ == self@.shown_stack(),
    {
        if let State::ARE { animation, .. } = &self.state {
            if let Some(animation) = animation {
                return &animation.1;
            }
        }
        &self.turn.stack
    }

    pub fn timestamp(&self) -> (result: i32)
        ensures
            result == self@.timestamp,
    {
        self.timestamp
    }

    pub fn score(&self) -> (result: i32)
        ensures
            result == self@.turn.score,
    {
        self.turn.score
    }

    pub fn level(&self) -> (result: i32)
        ensures
            result == self@.turn.level,
    {
        self.turn.level
    }

    /// Rows cleared so far.
    pub fn lines(&self) -> (result: i32)
        ensures
            result == self@.turn.cleared,
    {
        self.turn.cleared
    }

    /// Clears of four rows at once so far.
    pub fn tetrises(&self) -> (result: i32)
        ensures
            result == self@.turn.tetrises,
    {
        self.turn.tetrises
    }

    pub fn stats(&self) -> (result: &PieceStats)
        ensures
            result@ == self@.turn.stats,
    {
        &self.turn.stats
    }

    /// The piece that enters next.
    pub fn next_piece(&self) -> (result: Piece)
        ensures
            result == self@.next_piece(),
    {
        match &self.state {
            State::Piece { .. } => self.turn.next_piece,
            State::ARE { waiting, .. } => *waiting,
        }
    }

    /// The falling piece and its position, if a piece is falling.
    pub fn piece(&self) -> (result: Option<(Piece, i32, i32)>)
        ensures
            match result {
                Some(p) => self@.falling() == Some((p.0, p.1 as int, p.2 as int)),
                None => self@.falling() is None,
            },
            result matches Some(p) ==> piece_placed(p.0, p.1 as int, p.2 as int),
    {
        proof {
            use_type_invariant(self);
        }
        match &self.state {
            State::Piece { piece, x, y } => Some((*piece, *x, *y)),
            _ => None,
        }
    }

    /// Where the falling piece would come to rest if dropped straight down: the
    /// lowest position at or below it down to which every position fits the field
    /// of the turn. The falling piece is a tetromino: an empty piece fits at every
    /// height and would never come to rest.
    pub fn ghost_piece(&self) -> (result: Option<(Piece, i32, i32)>)
        requires
            self@.falling() matches Some(f) ==> f.0.spec_type() != Type::Empty,
        ensures
            match self@.falling() {
                None => result is None,
                Some(f) => result matches Some(g) && {
                    &&& g.0 == f.0
                    &&& g.1 == f.1
                    &&& g.2 <= f.2
                    &&& forall|yy: int| g.2 <= yy < f.2 ==> #[trigger] self@.turn.stack.fits_at(f.0, f.1, yy)
                    &&& !self@.turn.stack.fits_at(f.0, f.1, g.2 - 1)
                },
            },
    {
        proof {
            use_type_invariant(self);
        }
        match &self.state {
            State::Piece { piece, x, y } => {
                let piece = *piece;
                let x = *x;
                let y0 = *y;
                let mut y = *y;
                proof {
                    crate::stack::lemma_fits_floor(self.turn.stack@, piece, x as int, y as int - 1);
                }
                while self.turn.stack.fits(piece, x, y - 1)
                    invariant
                        piece.spec_type() != Type::Empty,
                        piece_placed(piece, x as int, y0 as int),
                        -3 <= y <= y0,
                        forall|yy: int| y <= yy < y0 ==> #[trigger] self.turn.stack@.fits_at(piece, x as int, yy),
                    decreases y + 4,
                {
                    proof {
                        crate::stack::lemma_fits_floor(self.turn.stack@, piece, x as int, y as int - 1);
                    }
                    y = y - 1;
                }
                Some((piece, x, y))
            },
            _ => None,
        }
    }

    /// The entry delay in frames, if the game is in it.
    pub fn are_duration(&self) -> (result: Option<i32>)
        ensures
            match self@.state {
                StateView::Falling { .. } => result is None,
                StateView::Entry { duration, .. } => result == Some(duration as i32),
            },
    {
        match &self.state {
            State::Piece { .. } => None,
            State::ARE { duration, .. } => Some(*duration),
        }
    }

    /// The cleared rows (from the top down) and the field before they were removed,
    /// while the clearing animation runs.
    pub fn animation(&self) -> (result: Option<(&Vec<i32>, &Stack)>)
        ensures
            match self@.state {
                StateView::Entry { animation: Some(a), .. } => result matches Some(r) && r.0@ == a.0 && r.1@ == a.1,
                _ => result is None,
            },
    {
        match &self.state {
            State::Piece { .. } => None,
            State::ARE { animation, .. } => match animation {
                Some(anim) => Some((&anim.0, &anim.1)),
                None => None,
            },
        }
    }
}

/// Points for clearing `n` rows at once, before the level factor.
pub open spec fn line_points(n: int) -> int {
    if n == 0 {
        0
    } else if n == 1 {
        40
    } else if n == 2 {
        100
    } else if n == 3 {
        300
    } else {
        1200
    }
}

/// A snapshot that a game with configuration `c` can be in: the field has the
/// configured size and no full row, the pieces to come are tetrominoes, and the
/// counters are where play puts them.
pub open spec fn frame_ok(s: SnapshotView, c: Config) -> bool {
    &&& s.turn.stack.width == c.width
    &&& s.turn.stack.height == c.height
    &&& s.turn.stack.generation >= 0
    &&& forall|p: (int, int)| #[trigger] s.turn.stack.cells.dom().contains(p) <==> in_rect(p, c.width as int, c.height as int)
    &&& no_full_row(s.turn.stack.cells, c.width as int, c.height as int)
    &&& 0 <= s.turn.level
    &&& 1 <= s.turn.left_to_clear <= 20_000
    &&& 0 <= s.turn.cleared
    &&& 0 <= s.turn.tetrises
    &&& s.turn.stats.within(i32::MAX as int)
    &&& match s.state {
        StateView::Falling { piece, x, y } => piece_placed(piece, x, y),
        StateView::Entry { animation: Some(a), .. } => a.1.generation + 1 == s.turn.stack.generation,
        StateView::Entry { .. } => true,
    }
}

/// The snapshot that locking the falling piece of `s` at `timestamp` leads to, with
/// `next_piece` dealt and `soft_drop` rows of soft drop counted for the score.
pub open spec fn after_merge(s: SnapshotView, c: Config, timestamp: int, next_piece: Piece, soft_drop: int) -> SnapshotView {
    let (piece, x, y) = s.falling().unwrap();
    let stack = s.shown_stack();
    let merged = StackView {
        width: stack.width,
        height: stack.height,
        generation: stack.generation + 1,
        cells: stack.merged_cells(piece, x, y),
    };
    let rows = merged.full_rows();
    let n = rows.len() as int;
    let left = s.turn.left_to_clear - n;
    let turn = TurnView {
        score: s.turn.score + (s.turn.level + 1) * (line_points(n) + soft_drop),
        level: if left <= 0 { s.turn.level + 1 } else { s.turn.level },
        left_to_clear: if left <= 0 { left + 10 } else { left },
        cleared: s.turn.cleared + n,
        tetrises: s.turn.tetrises + if n == 4 { 1int } else { 0int },
        stack: StackView {
            width: stack.width,
            height: stack.height,
            generation: stack.generation + 2,
            cells: merged.eliminated_cells(),
        },
        next_piece,
        stats: s.turn.stats.checked_in(s.next_piece().spec_type()),
    };
    let duration = c.are_base + max(y, 0) * (c.are_max - c.are_base) / (c.height as int) + if n > 0 {
        c.line_clear as int
    } else {
        0int
    };
    SnapshotView {
        timestamp,
        turn,
        state: StateView::Entry {
            waiting: s.next_piece(),
            duration,
            animation: if n > 0 { Some((rows.map_values(|r: int| r as i32), merged)) } else { None },
        },
    }
}

/// The counters of `s` leave room for locking its falling piece with `soft_drop` rows
/// of soft drop: none of them leaves `i32`.
pub open spec fn merge_room_at(s: SnapshotView, c: Config, soft_drop: int) -> bool {
    &&& s.turn.stack.generation <= i32::MAX - 2
    &&& 1200 + soft_drop <= i32::MAX
    &&& i32::MIN <= (s.turn.level + 1) * soft_drop
    &&& (s.turn.level + 1) * (1200 + soft_drop) <= i32::MAX
    &&& i32::MIN <= s.turn.score + (s.turn.level + 1) * soft_drop
    &&& s.turn.score + (s.turn.level + 1) * (1200 + soft_drop) <= i32::MAX
    &&& s.turn.level < i32::MAX
    &&& s.turn.cleared <= i32::MAX - 4
    &&& s.turn.tetrises < i32::MAX
    &&& s.turn.stats.within(i32::MAX - 1)
    &&& match s.falling() {
        Some(f) => max(f.2, 0) * (c.are_max - c.are_base) <= i32::MAX - 2 * crate::config::max_duration(),
        None => true,
    }
}

/// The snapshot a game with configuration `c` starts with: `first` falling from the
/// top middle, `second` to come, an empty field, and `first` counted as dealt.
pub open spec fn initial_snapshot(c: Config, first: Piece, second: Piece) -> SnapshotView {
    SnapshotView {
        timestamp: 0,
        turn: TurnView {
            score: 0,
            level: c.level as int,
            left_to_clear: transition_lines(c.level as int),
            cleared: 0,
            tetrises: 0,
            stack: StackView {
                width: c.width as int,
                height: c.height as int,
                generation: 0,
                cells: crate::array2d::Array2D::filled(c.width as nat, c.height as nat, Type::Empty),
            },
            next_piece: second,
            stats: StatsView { count: Seq::new(7, |k: int| 0), drought: Seq::new(7, |k: int| 0) }.checked_in(first.spec_type()),
        },
        state: StateView::Falling { piece: first, x: c.width / 2 - 2, y: c.height - 3 },
    }
}

/// The frame shown at `timestamp`: the last one of the leading frames stamped no
/// later than `timestamp`, or the first frame when there is none.
pub open spec fn frame_index_at(frames: Seq<SnapshotView>, timestamp: int) -> int {
    let k = leading_frames(frames, timestamp, 0);
    if k > 0 { k - 1 } else { 0 }
}

/// The index of the first frame from `i` on stamped later than `timestamp`, or the
/// number of frames when there is none.
pub open spec fn leading_frames(frames: Seq<SnapshotView>, timestamp: int, i: int) -> int
    decreases frames.len() - i,
{
    if i >= frames.len() || i < 0 {
        if i < 0 { 0 } else { i }
    } else if frames[i].timestamp > timestamp {
        i
    } else {
        leading_frames(frames, timestamp, i + 1)
    }
}

/// The snapshots of one game, in the order they were taken.
pub struct GameHistory {
    config: Config,
    frames: Vec<Snapshot>,
}

impl GameHistory {
    /// The configuration the game is played with.
    pub closed spec fn spec_config(&self) -> Config {
        self.config
    }

    /// The snapshots, oldest first.
    pub closed spec fn frames(&self) -> Seq<SnapshotView> {
        self.frames@.map_values(|f: Snapshot| f@)
    }

    /// The newest snapshot.
    pub open spec fn last(&self) -> SnapshotView {
        self.frames().last()
    }

    /// The history is one a game can have: a playable configuration, at least one
    /// snapshot, and every snapshot one the game can be in.
    pub open spec fn wf(&self) -> bool {
        &&& self.spec_config().wf()
        &&& self.frames().len() >= 1
        &&& forall|i: int| 0 <= i < self.frames().len() ==> frame_ok(#[trigger] self.frames()[i], self.spec_config())
    }

    /// The counters of the newest snapshot leave room for locking its piece with
    /// `soft_drop` rows of soft drop (see `merge_room_at`).
    pub open spec fn merge_room(&self, soft_drop: int) -> bool {
        merge_room_at(self.last(), self.spec_config(), soft_drop)
    }

    /// Whether the newest snapshot leaves room for locking its falling piece with
    /// `soft_drop` rows of soft drop (see `merge_room`).
    pub fn has_merge_room(&self, soft_drop: i32) -> (result: bool)
        requires
            self.wf(),
            self.last().is_falling(),
        ensures
            result == self.merge_room(soft_drop as int),
    {
        let n = self.frames.len();
        let snap = &self.frames[n - 1];
        assert(snap@ == self.last());
        assert(frame_ok(snap@, self.config));
        let generation_ok = snap.stack().generation() <= i32::MAX - 2;
        let level = snap.level();
        let factor = (level as i128) + 1;
        let drop = soft_drop as i128;
        let score = snap.score() as i128;
        assert(-4611686018427387904 <= factor * drop <= 4611686018427387904) by (nonlinear_arith)
            requires
                1 <= factor <= 2147483648,
                -2147483648 <= drop <= 2147483647,
        ;
        assert(-4611686018427387904 <= factor * (1200 + drop) <= 4611686018427387904 + 2147483648 * 1200) by (nonlinear_arith)
            requires
                1 <= factor <= 2147483648,
                -2147483648 <= drop <= 2147483647,
        ;
        let low = factor * drop;
        let high = factor * (1200 + drop);
        let score_ok = 1200 + drop <= i32::MAX as i128 && i32::MIN as i128 <= low && high <= i32::MAX as i128
            && i32::MIN as i128 <= score + low && score + high <= i32::MAX as i128;
        let counters_ok = level < i32::MAX && snap.lines() <= i32::MAX - 4 && snap.tetrises() < i32::MAX;
        let stats_ok = snap.stats().below_max();
        let f = snap.piece();
        let y = match f {
            Some(p) => p.2,
            None => {
                proof {
                    assert(false);
                }
                0
            },
        };
        let ymax: i64 = if y >= 0 { y as i64 } else { 0 };
        let diff = (self.config.are_max - self.config.are_base) as i64;
        assert(0 <= ymax * diff <= 2147483647i64 * 10000) by (nonlinear_arith)
            requires
                0 <= ymax <= 2147483647,
                0 <= diff <= 10000,
        ;
        let delay_ok = ymax * diff <= (i32::MAX as i64) - 20_000;
        generation_ok && score_ok && counters_ok && stats_ok && delay_ok
    }

    /// A game whose first piece `first` is falling from the top, `second` to come next.
    pub fn new(config: &Config, first: Piece, second: Piece) -> (result: Self)
        requires
            config.wf(),
            first.spec_type() != Type::Empty,
        ensures
            result.wf(),
            result.spec_config().same_as(config),
            result.frames().len() == 1,
            result.last() == initial_snapshot(*config, first, second),
    {
        assert((config.width as usize) * (config.height as usize) <= 1_000_000) by (nonlinear_arith)
            requires
                0 <= config.width <= 1000,
                0 <= config.height <= 1000,
        ;
        let stack = Stack::new(config.width as usize, config.height as usize);
        let stats0 = PieceStats::new();
        let stats = stats0.checkin(first.get_type());
        let turn0 = Turn {
            score: 0,
            level: config.level,
            left_to_clear: config.transition(),
            cleared: 0,
            tetrises: 0,
            stack,
            next_piece: second,
            stats,
        };
        let snapshot = Snapshot {
            timestamp: 0,
            turn: turn0,
            state: State::Piece { piece: first, x: config.width / 2 - 2, y: config.height - 3 },
        };
        let mut frames: Vec<Snapshot> = Vec::new();
        frames.push(snapshot);
        let result = GameHistory { config: config.copy(), frames };
        proof {
            assert(snapshot@.turn.stats =~= StatsView { count: Seq::new(7, |k: int| 0), drought: Seq::new(7, |k: int| 0) }.checked_in(first.spec_type()));
            assert(result.frames() =~= seq![snapshot@]);
            assert forall|r: int| 0 <= r < config.height implies !#[trigger] crate::stack::row_full(snapshot@.turn.stack.cells, config.width as int, r) by {
                assert(snapshot@.turn.stack.cells[(0, r)] == Type::Empty);
            }
            assert(snapshot@.turn.stack =~= StackView {
                width: config.width as int,
                height: config.height as int,
                generation: 0,
                cells: crate::array2d::Array2D::filled(config.width as nat, config.height as nat, Type::Empty),
            });
        }
        result
    }

    /// The newest snapshot.
    pub fn snapshot(&self) -> (result: &Snapshot)
        requires
            self.wf(),
        ensures
            result@ == self.last(),
    {
        let n = self.frames.len();
        &self.frames[n - 1]
    }

    /// The snapshot shown at `timestamp` (see `frame_index_at`).
    pub fn snapshot_at(&self, timestamp: i32) -> (result: &Snapshot)
        requires
            self.wf(),
        ensures
            result@ == self.frames()[frame_index_at(self.frames(), timestamp as int)],
    {
        let n = self.frames.len();
        let mut k: usize = 0;
        while k < n && self.frames[k].timestamp <= timestamp
            invariant
                k <= n,
                n == self.frames().len(),
                leading_frames(self.frames(), timestamp as int, 0) == leading_frames(self.frames(), timestamp as int, k as int),
            decreases n - k,
        {
            assert(self.frames()[k as int] == self.frames@[k as int]@);
            k = k + 1;
        }
        if k < n {
            assert(self.frames()[k as int] == self.frames@[k as int]@);
        }
        let idx = if k > 0 { k - 1 } else { 0 };
        &self.frames[idx]
    }

    /// Moves the falling piece: if `piece` at (`x`, `y`) fits the shown field of the
    /// newest snapshot, a snapshot at `timestamp` with that piece falling there is
    /// added. Returns whether it fits.
    pub fn try_move(&mut self, timestamp: i32, piece: Piece, x: i32, y: i32) -> (result: bool)
        requires
            old(self).wf(),
            old(self).last().timestamp <= timestamp,
            x <= i32::MAX - 3,
            y <= i32::MAX - 3,
        ensures
            final(self).wf(),
            final(self).spec_config() == old(self).spec_config(),
            result == old(self).last().shown_stack().fits_at(piece, x as int, y as int),
            final(self).frames() == if result {
                old(self).frames().push(SnapshotView {
                    timestamp: timestamp as int,
                    turn: old(self).last().turn,
                    state: StateView::Falling { piece, x: x as int, y: y as int },
                })
            } else {
                old(self).frames()
            },
    {
        let n = self.frames.len();
        let last = &self.frames[n - 1];
        let shown = last.stack();
        let fits = shown.fits(piece, x, y);
        if fits {
            proof {
                if piece.spec_type() != Type::Empty {
                    crate::stack::lemma_fits_floor(shown@, piece, x as int, y as int);
                }
            }
            let turn = last.turn.copy();
            let snapshot = Snapshot { timestamp, turn, state: State::Piece { piece, x, y } };
            let ghost old_frames = self.frames();
            self.frames.push(snapshot);
            proof {
                assert(self.frames() =~= old_frames.push(snapshot@));
                assert(frame_ok(snapshot@, self.config));
            }
        }
        fits
    }

    /// Lets the waiting piece enter at the top, in the middle of the field: adds a
    /// snapshot at `timestamp` with it falling there. Returns whether it fits the
    /// field of the turn; when not, the game is lost.
    pub fn start_new_piece(&mut self, timestamp: i32) -> (result: bool)
        requires
            old(self).wf(),
            old(self).last().state is Entry,
        ensures
            final(self).wf(),
            final(self).spec_config() == old(self).spec_config(),
            final(self).frames() == old(self).frames().push(SnapshotView {
                timestamp: timestamp as int,
                turn: old(self).last().turn,
                state: StateView::Falling {
                    piece: old(self).last().next_piece(),
                    x: old(self).spec_config().width / 2 - 2,
                    y: old(self).spec_config().height - 3,
                },
            }),
            result == old(self).last().turn.stack.fits_at(
                old(self).last().next_piece(),
                old(self).spec_config().width / 2 - 2,
                old(self).spec_config().height - 3,
            ),
    {
        let n = self.frames.len();
        let last = &self.frames[n - 1];
        let piece = last.next_piece();
        let x = self.config.width / 2 - 2;
        let y = self.config.height - 3;
        let turn = last.turn.copy();
        let snapshot = Snapshot { timestamp, turn, state: State::Piece { piece, x, y } };
        let ghost old_frames = self.frames();
        self.frames.push(snapshot);
        proof {
            assert(self.frames() =~= old_frames.push(snapshot@));
        }
        let n = self.frames.len();
        let newest = &self.frames[n - 1];
        newest.turn.stack.fits(piece, x, y)
    }

    /// Locks the falling piece into the field, removes the rows it completes, scores
    /// them, and starts the entry delay: adds the snapshot `after_merge(..)` at
    /// `timestamp`, with `next_piece` dealt. Returns whether rows were cleared.
    pub fn merge(&mut self, timestamp: i32, next_piece: Piece, soft_drop: i32) -> (result: bool)
        requires
            old(self).wf(),
            old(self).last().timestamp <= timestamp,
            old(self).last().is_falling(),
            old(self).last().next_piece().spec_type() != Type::Empty,
            old(self).merge_room(soft_drop as int),
        ensures
            final(self).wf(),
            final(self).spec_config() == old(self).spec_config(),
            final(self).frames() == old(self).frames().push(
                after_merge(old(self).last(), old(self).spec_config(), timestamp as int, next_piece, soft_drop as int),
            ),
            result == (final(self).last().state matches StateView::Entry { animation: Some(_), .. }),
    {
        let n = self.frames.len();
        let last = &self.frames[n - 1];
        let ghost s = last@;
        assert(s == self.last());
        assert(frame_ok(s, self.config));
        let (piece, px, py) = match &last.state {
            State::Piece { piece, x, y } => (*piece, *x, *y),
            State::ARE { .. } => {
                proof {
                    assert(false);
                }
                (last.turn.next_piece, 0, 0)
            },
        };
        let stack = last.stack();
        let merged = stack.merge(piece, px, py);
        proof {
            crate::stack::lemma_merge_fills_box_rows(stack@, piece, px as int, py as int);
            crate::stack::lemma_full_rows_at_most_four(merged@.cells, merged@.width, 0, merged@.height, py as int);
            crate::stack::lemma_full_rows_range(merged@.cells, merged@.width, 0, merged@.height);
        }
        let eliminated = merged.eliminate();
        proof {
            crate::stack::lemma_eliminated_no_full_row(merged@);
        }
        let nrows = eliminated.1.len();
        assert(nrows <= 4);
        let points: i32 = if nrows == 0 {
            0
        } else if nrows == 1 {
            40
        } else if nrows == 2 {
            100
        } else if nrows == 3 {
            300
        } else {
            1200
        };
        let level0 = last.turn.level;
        assert((level0 + 1) * soft_drop <= (level0 + 1) * (points + soft_drop) <= (level0 + 1) * (1200 + soft_drop)) by (nonlinear_arith)
            requires
                0 <= level0,
                0 <= points <= 1200,
        ;
        let score = last.turn.score + (level0 + 1) * (points + soft_drop);
        let mut level = level0;
        let mut left_to_clear = last.turn.left_to_clear - nrows as i32;
        if left_to_clear <= 0 {
            level = level + 1;
            left_to_clear = left_to_clear + 10;
        }
        let tetrises = last.turn.tetrises + if nrows == 4 { 1 } else { 0 };
        let waiting = last.next_piece();
        let stats = last.turn.stats.checkin(waiting.get_type());
        let line_cleared = nrows > 0;
        let ymax = if py >= 0 { py } else { 0 };
        let diff = self.config.are_max - self.config.are_base;
        assert(0 <= ymax * diff) by (nonlinear_arith)
            requires
                0 <= ymax,
                0 <= diff,
        ;
        let scaled = ymax * diff;
        let mut are = self.config.are_base + scaled / self.config.height;
        if line_cleared {
            are = are + self.config.line_clear;
        }
        let turn = Turn {
            score,
            level,
            left_to_clear,
            cleared: last.turn.cleared + nrows as i32,
            tetrises,
            stack: eliminated.0,
            next_piece,
            stats,
        };
        let rows = eliminated.1;
        let state = State::ARE {
            waiting,
            duration: are,
            animation: if line_cleared { Some((rows, merged)) } else { None },
        };
        let snapshot = Snapshot { timestamp, turn, state };
        let ghost old_frames = self.frames();
        proof {
            let expected = after_merge(s, self.config, timestamp as int, next_piece, soft_drop as int);
            assert(snapshot@.turn.stats =~= expected.turn.stats);
            assert(snapshot@.turn.stack =~= expected.turn.stack);
            assert(snapshot@.turn =~= expected.turn);
            assert(snapshot@ == expected);
            assert(snapshot@.turn.stats.within(i32::MAX as int));
            assert(no_full_row(snapshot@.turn.stack.cells, self.config.width as int, self.config.height as int));
            assert(forall|p: (int, int)| #[trigger] snapshot@.turn.stack.cells.dom().contains(p) <==> in_rect(p, self.config.width as int, self.config.height as int));
            assert(frame_ok(snapshot@, self.config));
        }
        self.frames.push(snapshot);
        proof {
            assert(self.frames() =~= old_frames.push(snapshot@));
        }
        line_cleared
    }
}

/// The entry delay a snapshot starts, 0 when a piece falls.
pub open spec fn delay_of_entry(s: SnapshotView) -> int {
    match s.state {
        StateView::Entry { duration, .. } => duration,
        _ => 0,
    }
}

/// The points for rows cleared at once: 40 for one, 100 for two, 300 for three,
/// 1200 for four (a tetris).
pub proof fn lemma_line_points()
    ensures
        line_points(0) == 0,
        line_points(1) == 40,
        line_points(2) == 100,
        line_points(3) == 300,
        line_points(4) == 1200,
{
}

/// Locking the falling piece scores the rows it clears at once, times the level
/// plus one, with the soft drop added: `n` rows (0 to 4, what the cleared count
/// grows by) give 0, 40, 100, 300 or 1200 points, a clear of four is counted as
/// a tetris, and the level goes up when the rows to the next level run out (ten
/// more rows to the one after). The dealt piece waits its turn behind the one
/// that was waiting, and the entry delay grows from `are_base` to `are_max` with
/// the height the piece locked at, the line-clear time added when rows go.
pub proof fn lemma_merge_scores(s: SnapshotView, c: Config, timestamp: int, next_piece: Piece, soft_drop: int)
    requires
        frame_ok(s, c),
        s.is_falling(),
    ensures
        ({
            let m = after_merge(s, c, timestamp, next_piece, soft_drop);
            let n = m.turn.cleared - s.turn.cleared;
            let f = s.turn.level + 1;
            &&& 0 <= n <= 4
            &&& n == 0 ==> m.turn.score == s.turn.score + f * soft_drop
            &&& n == 1 ==> m.turn.score == s.turn.score + f * (40 + soft_drop)
            &&& n == 2 ==> m.turn.score == s.turn.score + f * (100 + soft_drop)
            &&& n == 3 ==> m.turn.score == s.turn.score + f * (300 + soft_drop)
            &&& n == 4 ==> m.turn.score == s.turn.score + f * (1200 + soft_drop)
            &&& m.turn.tetrises == s.turn.tetrises + if n == 4 { 1int } else { 0int }
            &&& m.turn.level == if s.turn.left_to_clear <= n { s.turn.level + 1 } else { s.turn.level }
            &&& m.turn.left_to_clear == if s.turn.left_to_clear <= n { s.turn.left_to_clear - n + 10 } else { s.turn.left_to_clear - n }
            &&& m.turn.next_piece == next_piece
            &&& m.next_piece() == s.next_piece()
            &&& m.timestamp == timestamp
            &&& m.falling() is None
            &&& delay_of_entry(m) == c.are_base + max(s.falling().unwrap().2, 0) * (c.are_max - c.are_base) / (c.height as int)
                + if n > 0 { c.line_clear as int } else { 0int }
        }),
{
    let (piece, x, y) = s.falling().unwrap();
    let stack = s.shown_stack();
    let merged = StackView {
        width: stack.width,
        height: stack.height,
        generation: stack.generation + 1,
        cells: stack.merged_cells(piece, x, y),
    };
    crate::stack::lemma_merge_fills_box_rows(stack, piece, x, y);
    crate::stack::lemma_full_rows_at_most_four(merged.cells, merged.width, 0, merged.height, y);
}

/// Locking a piece never takes points, levels, cleared rows or tetrises away: each
/// counter of the turn after the lock is at least what it was, and the cleared rows
/// grow by at most four.
pub proof fn lemma_lock_counters_grow(s: SnapshotView, c: Config, timestamp: int, next_piece: Piece, soft_drop: int)
    requires
        frame_ok(s, c),
        s.is_falling(),
        0 <= soft_drop,
    ensures
        after_merge(s, c, timestamp, next_piece, soft_drop).turn.score >= s.turn.score,
        after_merge(s, c, timestamp, next_piece, soft_drop).turn.level >= s.turn.level,
        s.turn.cleared <= after_merge(s, c, timestamp, next_piece, soft_drop).turn.cleared <= s.turn.cleared + 4,
        after_merge(s, c, timestamp, next_piece, soft_drop).turn.tetrises >= s.turn.tetrises,
{
    let (piece, x, y) = s.falling().unwrap();
    let stack = s.shown_stack();
    let merged = StackView {
        width: stack.width,
        height: stack.height,
        generation: stack.generation + 1,
        cells: stack.merged_cells(piece, x, y),
    };
    let n = merged.full_rows().len() as int;
    crate::stack::lemma_merge_fills_box_rows(stack, piece, x, y);
    crate::stack::lemma_full_rows_at_most_four(merged.cells, merged.width, 0, merged.height, y);
    assert(0 <= line_points(n));
    assert((s.turn.level + 1) * (line_points(n) + soft_drop) >= 0) by (nonlinear_arith)
        requires
            s.turn.level >= 0,
            line_points(n) >= 0,
            soft_drop >= 0,
    ;
}

} // verus!
