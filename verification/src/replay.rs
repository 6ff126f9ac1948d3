use vstd::prelude::*;

use crate::config::Config;
use crate::piece::{Piece, Type, type_index, type_of};
use crate::state::{GameHistory, Snapshot, SnapshotView, StateView, after_merge, initial_snapshot, merge_room_at, frame_index_at};

verus! {

/// What a replay entry records.
#[derive(Debug, Clone, Copy, PartialEq, Eq, Structural)]
pub enum EntryType {
    /// Time passes, nothing else.
    Nop,
    /// The piece moves sideways by `detail - 16` columns.
    MoveX,
    /// The piece moves up by `detail - 16` rows.
    MoveDown,
    /// The piece turns, clockwise when `detail` is not 0.
    Rot,
    /// The piece locks after `detail` rows of soft drop.
    Merge,
    /// The waiting piece enters.
    Spawn,
    /// The piece of type number `detail` is dealt.
    NextPiece,
}

/// The number of an entry type, in the order of declaration.
pub open spec fn entry_code(tp: EntryType) -> int {
    match tp {
        EntryType::Nop => 0,
        EntryType::MoveX => 1,
        EntryType::MoveDown => 2,
        EntryType::Rot => 3,
        EntryType::Merge => 4,
        EntryType::Spawn => 5,
        EntryType::NextPiece => 6,
    }
}

/// The entry type numbered `code`, for `code` below 7.
pub open spec fn entry_type_of(code: int) -> EntryType {
    if code == 0 {
        EntryType::Nop
    } else if code == 1 {
        EntryType::MoveX
    } else if code == 2 {
        EntryType::MoveDown
    } else if code == 3 {
        EntryType::Rot
    } else if code == 4 {
        EntryType::Merge
    } else if code == 5 {
        EntryType::Spawn
    } else {
        EntryType::NextPiece
    }
}

impl EntryType {
    /// The number of the entry type (see `entry_code`).
    pub fn code(&self) -> (result: u16)
        ensures
            result == entry_code(*self),
    {
        match self {
            EntryType::Nop => 0,
            EntryType::MoveX => 1,
            EntryType::MoveDown => 2,
            EntryType::Rot => 3,
            EntryType::Merge => 4,
            EntryType::Spawn => 5,
            EntryType::NextPiece => 6,
        }
    }

    /// The entry type numbered `code` (see `entry_type_of`).
    pub fn from_code(code: u16) -> (result: Self)
        requires
            code < 7,
        ensures
            result == entry_type_of(code as int),
            entry_code(result) == code,
    {
        match code {
            0 => EntryType::Nop,
            1 => EntryType::MoveX,
            2 => EntryType::MoveDown,
            3 => EntryType::Rot,
            4 => EntryType::Merge,
            5 => EntryType::Spawn,
            _ => EntryType::NextPiece,
        }
    }
}

/// One replay entry in 16 bits: frames since the previous entry in the high byte, the
/// entry type in the next three bits, the detail in the low five bits.
pub struct Entry(pub u16);

/// The 16-bit word for an entry of `dt` frames, type number `code` and `detail`.
pub open spec fn encode(dt: int, code: int, detail: int) -> int {
    dt * 256 + code * 32 + detail
}

/// Frames since the previous entry, read from a word.
pub open spec fn decode_dt(e: int) -> int {
    e / 256
}

/// The type number read from a word.
pub open spec fn decode_code(e: int) -> int {
    (e / 32) % 8
}

/// The detail read from a word.
pub open spec fn decode_detail(e: int) -> int {
    e % 32
}

impl Entry {
    /// The type bits of the entry.
    pub fn type_code(&self) -> (result: u16)
        ensures
            result == decode_code(self.0 as int),
            result < 8,
    {
        let e = self.0;
        let code = (e >> 5u16) & 0x7u16;
        assert(code == (e / 32) % 8) by (bit_vector)
            requires
                code == (e >> 5u16) & 0x7u16,
        ;
        code
    }

    /// The entry for `dt` frames (taken modulo 256), type `tp` and `detail`; the
    /// fields must not overflow the word.
    pub fn from(dt: usize, tp: EntryType, detail: u8) -> (result: Self)
        requires
            encode(dt as int % 256, entry_code(tp), detail as int) <= u16::MAX,
        ensures
            result.0 == encode(dt as int % 256, entry_code(tp), detail as int),
    {
        let dt16 = (dt % 256) as u16;
        let tp16 = tp.code();
        let shifted = dt16 << 8u16;
        assert(shifted == dt16 * 256) by (bit_vector)
            requires
                dt16 < 256,
                shifted == dt16 << 8u16,
        ;
        let code_bits = tp16 << 5u16;
        assert(code_bits == tp16 * 32) by (bit_vector)
            requires
                tp16 < 7,
                code_bits == tp16 << 5u16,
        ;
        Entry(shifted + code_bits + detail as u16)
    }

    /// The type of the entry; its type bits must name one (below 7).
    pub fn entry_type(&self) -> (result: EntryType)
        requires
            decode_code(self.0 as int) < 7,
        ensures
            entry_code(result) == decode_code(self.0 as int),
    {
        let e = self.0;
        let code = (e >> 5u16) & 0x7u16;
        assert(code == (e / 32) % 8) by (bit_vector)
            requires
                code == (e >> 5u16) & 0x7u16,
        ;
        EntryType::from_code(code)
    }

    /// Frames since the previous entry.
    pub fn dt(&self) -> (result: usize)
        ensures
            result == decode_dt(self.0 as int),
    {
        let e = self.0;
        let d = e >> 8u16;
        assert(d == e / 256) by (bit_vector)
            requires
                d == e >> 8u16,
        ;
        d as usize
    }

    /// The detail of the entry.
    pub fn detail(&self) -> (result: u8)
        ensures
            result == decode_detail(self.0 as int),
    {
        let e = self.0;
        let d = e & 0x1fu16;
        assert(d == e % 32) by (bit_vector)
            requires
                d == e & 0x1fu16,
        ;
        d as u8
    }
}

/// The format of a recorded word: the frames since the previous word in the high
/// byte, the entry type's number (Nop 0, MoveX 1, MoveDown 2, Rot 3, Merge 4,
/// Spawn 5, NextPiece 6) in the next three bits, the detail in the low five.
pub proof fn lemma_entry_format(dt: int, tp: EntryType, detail: int)
    ensures
        encode(dt, entry_code(tp), detail) == 256 * dt + 32 * entry_code(tp) + detail,
        entry_code(EntryType::Nop) == 0,
        entry_code(EntryType::MoveX) == 1,
        entry_code(EntryType::MoveDown) == 2,
        entry_code(EntryType::Rot) == 3,
        entry_code(EntryType::Merge) == 4,
        entry_code(EntryType::Spawn) == 5,
        entry_code(EntryType::NextPiece) == 6,
        entry_type_of(entry_code(tp)) == tp,
{
}

/// Reading a word back gives the frames, the type and the detail it was made from,
/// when each fits its field.
pub proof fn lemma_entry_roundtrip(dt: int, code: int, detail: int)
    requires
        0 <= dt < 256,
        0 <= code < 8,
        0 <= detail < 32,
    ensures
        decode_dt(encode(dt, code, detail)) == dt,
        decode_code(encode(dt, code, detail)) == code,
        decode_detail(encode(dt, code, detail)) == detail,
{
    let e = encode(dt, code, detail);
    assert(e == (dt * 8 + code) * 32 + detail);
    assert(e / 32 == dt * 8 + code) by (nonlinear_arith)
        requires
            e == (dt * 8 + code) * 32 + detail,
            0 <= detail < 32,
    ;
    assert((dt * 8 + code) % 8 == code) by (nonlinear_arith)
        requires
            0 <= code < 8,
            0 <= dt,
    ;
    assert(e % 32 == detail) by (nonlinear_arith)
        requires
            e == (dt * 8 + code) * 32 + detail,
            0 <= detail < 32,
    ;
    assert(e / 256 == dt) by (nonlinear_arith)
        requires
            e == dt * 256 + code * 32 + detail,
            0 <= code < 8,
            0 <= detail < 32,
    ;
}

/// The padding entries written for a gap of `dt` frames before the entry itself:
/// one empty entry of 255 frames for every 255 frames beyond the first 255.
pub open spec fn padding(dt: int) -> Seq<u16>
    decreases dt,
{
    if dt > 255 {
        seq![65280u16] + padding(dt - 255)
    } else {
        Seq::empty()
    }
}

/// The frames left for the entry itself after the padding for a gap of `dt`.
pub open spec fn rest(dt: int) -> int
    decreases dt,
{
    if dt > 255 {
        rest(dt - 255)
    } else {
        dt
    }
}

/// Total frames recorded by a sequence of words.
pub open spec fn recorded_frames(entries: Seq<u16>) -> int
    decreases entries.len(),
{
    if entries.len() == 0 {
        0
    } else {
        recorded_frames(entries.drop_last()) + decode_dt(entries.last() as int)
    }
}

/// The word of an entry of type `tp` and `detail` recorded `dt` frames after the
/// previous one, after its padding.
pub open spec fn last_word(dt: int, tp: EntryType, detail: int) -> int {
    let r = rest(dt);
    encode(if r > 0 { r } else { 0 }, entry_code(tp), detail)
}

/// The words appended for an entry of type `tp` and `detail` recorded `dt` frames
/// after the previous one.
pub open spec fn recorded(dt: int, tp: EntryType, detail: int) -> Seq<u16> {
    padding(dt) + seq![last_word(dt, tp, detail) as u16]
}

/// The word of an entry whose type and detail fit one byte fits 16 bits, whatever
/// the gap.
pub proof fn lemma_last_word_fits(dt: int, tp: EntryType, detail: int)
    requires
        0 <= detail,
        entry_code(tp) * 32 + detail <= 255,
    ensures
        0 <= last_word(dt, tp, detail) <= u16::MAX,
{
    lemma_rest(dt);
}

/// The last gap after padding lies in `..=255`, and in `1..=255` when there was padding.
pub proof fn lemma_rest(dt: int)
    ensures
        rest(dt) <= 255,
        dt > 255 ==> 1 <= rest(dt),
        dt <= 255 ==> rest(dt) == dt,
    decreases dt,
{
    if dt > 255 {
        lemma_rest(dt - 255);
    }
}

/// Frames recorded by a concatenation add up.
pub proof fn lemma_recorded_frames_append(a: Seq<u16>, b: Seq<u16>)
    ensures
        recorded_frames(a + b) == recorded_frames(a) + recorded_frames(b),
    decreases b.len(),
{
    if b.len() > 0 {
        assert((a + b).drop_last() == a + b.drop_last());
        lemma_recorded_frames_append(a, b.drop_last());
    } else {
        assert(a + b == a);
    }
}

/// The padding of a gap of `dt` records `dt - rest(dt)` frames.
pub proof fn lemma_padding_frames(dt: int)
    ensures
        recorded_frames(padding(dt)) == dt - rest(dt),
    decreases dt,
{
    if dt > 255 {
        lemma_padding_frames(dt - 255);
        lemma_recorded_frames_append(seq![65280u16], padding(dt - 255));
        assert(recorded_frames(seq![65280u16]) == decode_dt(65280)) by {
            reveal_with_fuel(recorded_frames, 2);
            assert(seq![65280u16].drop_last() =~= Seq::<u16>::empty());
        }
    }
}

/// An entry recorded after a gap of `dt` frames accounts for exactly that gap (for a
/// gap that is not negative): replaying the recorded words meets every event at the
/// frame it happened.
pub proof fn lemma_recorded_gap(dt: int, tp: EntryType, detail: int)
    requires
        0 <= dt,
        0 <= detail < 32,
    ensures
        recorded_frames(recorded(dt, tp, detail)) == dt,
{
    lemma_rest(dt);
    lemma_padding_frames(dt);
    let r = rest(dt);
    let w = encode(if r > 0 { r } else { 0 }, entry_code(tp), detail);
    lemma_entry_roundtrip(if r > 0 { r } else { 0 }, entry_code(tp), detail);
    assert(0 <= w <= u16::MAX);
    lemma_recorded_frames_append(padding(dt), seq![w as u16]);
    assert(recorded_frames(seq![w as u16]) == decode_dt(w)) by {
        reveal_with_fuel(recorded_frames, 2);
        assert(seq![w as u16].drop_last() =~= Seq::<u16>::empty());
    }
}

/// A recorded game: its configuration, its first two pieces, the frame of its last
/// entry, and the entries.
pub struct Replay {
    config: Config,
    first: Type,
    second: Type,
    time: i32,
    data: Vec<u16>,
}

impl Replay {
    pub closed spec fn spec_config(&self) -> Config {
        self.config
    }

    pub closed spec fn spec_first(&self) -> Type {
        self.first
    }

    pub closed spec fn spec_second(&self) -> Type {
        self.second
    }

    /// The frame of the newest entry.
    pub closed spec fn spec_time(&self) -> int {
        self.time as int
    }

    /// The recorded words.
    pub closed spec fn entries(&self) -> Seq<u16> {
        self.data@
    }

    /// An empty recording of a game with `config` that starts at frame `time`.
    pub fn new(config: &Config, first: Type, second: Type, time: i32) -> (result: Self)
        ensures
            result.spec_config().same_as(config),
            result.spec_first() == first,
            result.spec_second() == second,
            result.spec_time() == time,
            result.entries() == Seq::<u16>::empty(),
    {
        Replay { config: config.copy(), first, second, time, data: Vec::new() }
    }

    /// Records an entry of type `tp` with `detail` at frame `time`.
    fn add(&mut self, time: i32, tp: EntryType, detail: u8)
        requires
            i32::MIN <= time - old(self).spec_time() <= i32::MAX,
            last_word(time - old(self).spec_time(), tp, detail as int) <= u16::MAX,
        ensures
            final(self).spec_config() == old(self).spec_config(),
            final(self).spec_first() == old(self).spec_first(),
            final(self).spec_second() == old(self).spec_second(),
            final(self).spec_time() == time,
            final(self).entries() == old(self).entries() + recorded(time - old(self).spec_time(), tp, detail as int),
    {
        let ghost d0 = time - self.time;
        let mut dt = time - self.time;
        let ghost start = self.data@;
        while dt > 255
            invariant
                self.config == old(self).config,
                self.first == old(self).first,
                self.second == old(self).second,
                self.data@ + padding(dt as int) == start + padding(d0),
                rest(dt as int) == rest(d0),
            decreases dt,
        {
            let nop = Entry::from(255, EntryType::Nop, 0);
            assert(nop.0 == 65280);
            let ghost before = self.data@;
            self.data.push(nop.0);
            assert(padding(dt as int) == seq![65280u16] + padding(dt - 255));
            assert(before + padding(dt as int) == self.data@ + padding(dt - 255));
            dt = dt - 255;
        }
        assert(padding(dt as int) == Seq::<u16>::empty());
        assert(rest(dt as int) == dt);
        let last_dt: i32 = if dt > 0 { dt } else { 0 };
        let entry = Entry::from(last_dt as usize, tp, detail);
        self.data.push(entry.0);
        assert(self.data@ == start + recorded(d0, tp, detail as int));
        self.time = time;
    }

    /// Records a move at frame `time`: a turn first, when `rotate` holds its direction,
    /// then a sideways move by `x` and a move up by `y`, each only when not 0.
    pub fn add_move(&mut self, time: i32, rotate: Option<bool>, x: i32, y: i32)
        requires
            i32::MIN <= time - old(self).spec_time() <= i32::MAX,
            move_fits(time - old(self).spec_time(), rotate, x as int, y as int),
        ensures
            final(self).spec_config() == old(self).spec_config(),
            final(self).spec_first() == old(self).spec_first(),
            final(self).spec_second() == old(self).spec_second(),
            final(self).entries() == old(self).entries() + move_entries(
                time - old(self).spec_time(),
                rotate,
                x as int,
                y as int,
            ),
            final(self).spec_time() == if rotate is None && x == 0 && y == 0 { old(self).spec_time() } else { time as int },
    {
        let ghost t0 = self.time as int;
        let ghost e0 = self.entries();
        if let Some(clockwise) = rotate {
            proof {
                lemma_last_word_fits(time - t0, EntryType::Rot, if clockwise { 1 } else { 0 });
            }
            self.add(time, EntryType::Rot, if clockwise { 1 } else { 0 });
        }
        let ghost e1 = self.entries();
        let ghost t1 = self.time as int;
        if x != 0 {
            self.add(time, EntryType::MoveX, (x + 16) as u8);
        }
        let ghost e2 = self.entries();
        let ghost t2 = self.time as int;
        if y != 0 {
            self.add(time, EntryType::MoveDown, (y + 16) as u8);
        }
        proof {
            let first_gap = time - t0;
            let rot_part: Seq<u16> = match rotate {
                Some(c) => recorded(first_gap, EntryType::Rot, if c { 1int } else { 0int }),
                None => Seq::empty(),
            };
            assert(e1 == e0 + rot_part);
            let gx = time - t1;
            assert(gx == if rotate is Some { 0 } else { first_gap });
            let x_part: Seq<u16> = if x != 0 { recorded(gx, EntryType::MoveX, ((x + 16) as u8) as int) } else { Seq::empty() };
            assert(e2 == e1 + x_part);
            let gy = time - t2;
            assert(gy == if rotate is Some || x != 0 { 0 } else { first_gap });
            let y_part: Seq<u16> = if y != 0 { recorded(gy, EntryType::MoveDown, ((y + 16) as u8) as int) } else { Seq::empty() };
            assert(self.entries() == e2 + y_part);
            assert(self.entries() =~= e0 + move_entries(first_gap, rotate, x as int, y as int));
        }
    }

    /// Records at frame `time` that the piece locked after `drop` rows of soft drop
    /// (its low byte is written), then that a piece of the type of `next` was dealt.
    pub fn add_merge(&mut self, time: i32, drop: i32, next: Piece)
        requires
            i32::MIN <= time - old(self).spec_time() <= i32::MAX,
            last_word(time - old(self).spec_time(), EntryType::Merge, (drop as u8) as int) <= u16::MAX,
            next.spec_type() != Type::Empty,
        ensures
            final(self).spec_config() == old(self).spec_config(),
            final(self).spec_first() == old(self).spec_first(),
            final(self).spec_second() == old(self).spec_second(),
            final(self).spec_time() == time,
            final(self).entries() == old(self).entries() + recorded(
                time - old(self).spec_time(),
                EntryType::Merge,
                (drop as u8) as int,
            ) + recorded(0, EntryType::NextPiece, type_index(next.spec_type())),
    {
        self.add(time, EntryType::Merge, drop as u8);
        let code = next.get_type().index();
        proof {
            lemma_last_word_fits(0, EntryType::NextPiece, code as int);
        }
        self.add(time, EntryType::NextPiece, code as u8);
    }

    /// Records at frame `time` that the waiting piece entered.
    pub fn add_new_piece(&mut self, time: i32)
        requires
            i32::MIN <= time - old(self).spec_time() <= i32::MAX,
        ensures
            final(self).spec_config() == old(self).spec_config(),
            final(self).spec_first() == old(self).spec_first(),
            final(self).spec_second() == old(self).spec_second(),
            final(self).spec_time() == time,
            final(self).entries() == old(self).entries() + recorded(time - old(self).spec_time(), EntryType::Spawn, 0),
    {
        proof {
            lemma_last_word_fits(time - self.time, EntryType::Spawn, 0);
        }
        self.add(time, EntryType::Spawn, 0);
    }

    pub fn config(&self) -> (result: &Config)
        ensures
            *result == self.spec_config(),
    {
        &self.config
    }

    /// The frame of the newest entry.
    pub fn frames(&self) -> (result: i32)
        ensures
            result == self.spec_time(),
    {
        self.time
    }

    pub fn first(&self) -> (result: Type)
        ensures
            result == self.spec_first(),
    {
        self.first
    }

    pub fn second(&self) -> (result: Type)
        ensures
            result == self.spec_second(),
    {
        self.second
    }

    /// The recorded words.
    pub fn data(&self) -> (result: &Vec<u16>)
        ensures
            result@ == self.entries(),
    {
        &self.data
    }

    /// A replay made of its parts, as read back from storage.
    pub fn from_parts(config: Config, first: Type, second: Type, time: i32, data: Vec<u16>) -> (result: Self)
        ensures
            result.spec_config() == config,
            result.spec_first() == first,
            result.spec_second() == second,
            result.spec_time() == time,
            result.entries() == data@,
    {
        Replay { config, first, second, time, data }
    }

    /// A value-for-value copy.
    pub fn copy(&self) -> (result: Self)
        ensures
            result.spec_config().same_as(&self.spec_config()),
            result.spec_first() == self.spec_first(),
            result.spec_second() == self.spec_second(),
            result.spec_time() == self.spec_time(),
            result.entries() == self.entries(),
    {
        let data = self.data.clone();
        assert(data@ =~= self.data@);
        Replay { config: self.config.copy(), first: self.first, second: self.second, time: self.time, data }
    }
}

/// The words `add_move` appends for a move recorded `gap` frames after the newest entry.
pub open spec fn move_entries(gap: int, rotate: Option<bool>, x: int, y: int) -> Seq<u16> {
    let rot_part: Seq<u16> = match rotate {
        Some(c) => recorded(gap, EntryType::Rot, if c { 1int } else { 0int }),
        None => Seq::empty(),
    };
    let gx = if rotate is Some { 0 } else { gap };
    let x_part: Seq<u16> = if x != 0 { recorded(gx, EntryType::MoveX, ((x + 16) as u8) as int) } else { Seq::empty() };
    let gy = if rotate is Some || x != 0 { 0 } else { gap };
    let y_part: Seq<u16> = if y != 0 { recorded(gy, EntryType::MoveDown, ((y + 16) as u8) as int) } else { Seq::empty() };
    rot_part + x_part + y_part
}

/// The words of a move recorded `gap` frames after the newest entry fit 16 bits, and
/// the steps fit `i32` once offset by 16 (see `move_entries`).
pub open spec fn move_fits(gap: int, rotate: Option<bool>, x: int, y: int) -> bool {
    let gx = if rotate is Some { 0 } else { gap };
    let gy = if rotate is Some || x != 0 { 0 } else { gap };
    &&& x != 0 ==> x <= i32::MAX - 16 && last_word(gx, EntryType::MoveX, ((x + 16) as u8) as int) <= u16::MAX
    &&& y != 0 ==> y <= i32::MAX - 16 && last_word(gy, EntryType::MoveDown, ((y + 16) as u8) as int) <= u16::MAX
}

/// Where the playback of a replay stands: the snapshots so far, the frame of the
/// entry read last, the soft drop recorded for the next lock, and the position the
/// recording moves the piece to.
pub struct PlaybackView {
    pub frames: Seq<SnapshotView>,
    pub time: int,
    pub drop: int,
    pub posx: int,
    pub posy: int,
}

/// The snapshots after trying to move the falling piece as `piece` to (`x`, `y`) at
/// frame `t`: a snapshot is added when it fits the shown field.
pub open spec fn tried_move(frames: Seq<SnapshotView>, piece: Piece, x: int, y: int, t: int) -> Seq<SnapshotView> {
    let last = frames.last();
    if last.shown_stack().fits_at(piece, x, y) {
        frames.push(SnapshotView { timestamp: t, turn: last.turn, state: StateView::Falling { piece, x, y } })
    } else {
        frames
    }
}

/// Playing one entry `e`; `None` where the entry cannot be played: its type bits
/// name no type, the clock would leave `i32`, a move or turn comes while no piece
/// falls, a position leaves the range the field's arithmetic allows, a piece enters
/// while one falls, a lock names no tetromino or comes while no piece falls, or a
/// counter would leave `i32`.
pub open spec fn playback_step(c: Config, st: PlaybackView, e: u16) -> Option<PlaybackView> {
    let code = decode_code(e as int);
    let t = st.time + decode_dt(e as int);
    if code >= 7 || t > i32::MAX {
        None
    } else {
        step_effect(c, st, entry_type_of(code), decode_detail(e as int), t)
    }
}

/// The playback state after an entry of type `tp` with detail `d` at frame `t`
/// (see `playback_step`); `None` where the entry cannot be played.
pub open spec fn step_effect(c: Config, st: PlaybackView, tp: EntryType, d: int, t: int) -> Option<PlaybackView> {
    let last = st.frames.last();
    let st1 = PlaybackView { time: t, ..st };
    match tp {
        EntryType::Nop => Some(st1),
        EntryType::MoveX => match last.falling() {
            None => None,
            Some(f) => {
                let nx = st.posx + d - 16;
                if nx > i32::MAX - 3 || st.posy > i32::MAX - 3 || nx < i32::MIN {
                    None
                } else {
                    Some(PlaybackView { posx: nx, frames: tried_move(st.frames, f.0, nx, st.posy, t), ..st1 })
                }
            },
        },
        EntryType::MoveDown => match last.falling() {
            None => None,
            Some(f) => {
                let ny = st.posy + d - 16;
                if ny > i32::MAX - 3 || st.posx > i32::MAX - 3 || ny < i32::MIN {
                    None
                } else {
                    Some(PlaybackView { posy: ny, frames: tried_move(st.frames, f.0, st.posx, ny, t), ..st1 })
                }
            },
        },
        EntryType::Rot => match last.falling() {
            None => None,
            Some(f) => {
                if f.0.spec_orientation() + (if d != 0 { 3int } else { 1int }) > 255 || st.posx > i32::MAX - 3
                    || st.posy > i32::MAX - 3 {
                    None
                } else {
                    Some(PlaybackView { frames: tried_move(st.frames, f.0.spec_rotate(d != 0), st.posx, st.posy, t), ..st1 })
                }
            },
        },
        EntryType::Merge => Some(PlaybackView { drop: d, ..st1 }),
        EntryType::Spawn => if last.is_falling() {
            None
        } else {
            let x = c.width / 2 - 2;
            let y = c.height - 3;
            Some(
                PlaybackView {
                    frames: st.frames.push(
                        SnapshotView {
                            timestamp: t,
                            turn: last.turn,
                            state: StateView::Falling { piece: last.next_piece(), x: x as int, y: y as int },
                        },
                    ),
                    posx: x as int,
                    posy: y as int,
                    ..st1
                },
            )
        },
        EntryType::NextPiece => if d >= 7 || !last.is_falling() || last.next_piece().spec_type() == Type::Empty || !merge_room_at(last, c, st.drop) {
            None
        } else {
            Some(
                PlaybackView {
                    frames: st.frames.push(after_merge(last, c, t, Piece::spec_new(type_of(d), 2), st.drop)),
                    ..st1
                },
            )
        },
    }
}

/// Playing `entries` one after the other from `st`; `None` once one cannot be played.
pub open spec fn playback(c: Config, st: PlaybackView, entries: Seq<u16>) -> Option<PlaybackView>
    decreases entries.len(),
{
    if entries.len() == 0 {
        Some(st)
    } else {
        match playback(c, st, entries.drop_last()) {
            None => None,
            Some(s2) => playback_step(c, s2, entries.last()),
        }
    }
}

/// Where the playback of a game with configuration `c` and first pieces of types
/// `first` and `second` starts; `None` where such a game cannot be played.
pub open spec fn playback_start(c: Config, first: Type, second: Type) -> Option<PlaybackView> {
    if !c.wf() || first == Type::Empty || second == Type::Empty {
        None
    } else {
        Some(
            PlaybackView {
                frames: seq![initial_snapshot(c, Piece::spec_new(first, 2), Piece::spec_new(second, 2))],
                time: 0,
                drop: 0,
                posx: c.width / 2 - 2,
                posy: c.height - 3,
            },
        )
    }
}

/// The playback of the whole replay; `None` where it cannot be played.
pub open spec fn replay_playback(r: Replay) -> Option<PlaybackView> {
    match playback_start(r.spec_config(), r.spec_first(), r.spec_second()) {
        None => None,
        Some(st) => playback(r.spec_config(), st, r.entries()),
    }
}

/// Once a prefix of the entries cannot be played, neither can the whole.
pub proof fn lemma_playback_none_extends(c: Config, st: PlaybackView, entries: Seq<u16>, k: int)
    requires
        0 <= k <= entries.len(),
        playback(c, st, entries.take(k)) is None,
    ensures
        playback(c, st, entries) is None,
    decreases entries.len() - k,
{
    if k < entries.len() {
        assert(entries.take(k + 1).drop_last() =~= entries.take(k));
        lemma_playback_none_extends(c, st, entries, k + 1);
    } else {
        assert(entries.take(k) =~= entries);
    }
}

/// Plays one entry of type `tp` with `detail` at frame `t` on the history; returns
/// whether it could be played.
fn play_entry(
    c: &Config,
    state: &mut GameHistory,
    tp: EntryType,
    detail: u8,
    t: i32,
    drop: &mut u8,
    posx: &mut i32,
    posy: &mut i32,
) -> (result: bool)
    requires
        c.wf(),
        old(state).wf(),
        old(state).spec_config().same_as(c),
        old(state).last().timestamp <= t,
        detail < 32,
    ensures
        result ==> {
            &&& final(state).wf()
            &&& final(state).spec_config() == old(state).spec_config()
            &&& final(state).last().timestamp <= t
        },
        ({
            let st = PlaybackView { frames: old(state).frames(), time: t as int, drop: *old(drop) as int, posx: *old(posx) as int, posy: *old(posy) as int };
            let step = step_effect(*c, st, tp, detail as int, t as int);
            if result {
                step == Some(PlaybackView { frames: final(state).frames(), time: t as int, drop: *final(drop) as int, posx: *final(posx) as int, posy: *final(posy) as int })
            } else {
                step is None
            }
        }),
{
    match tp {
        EntryType::Nop => true,
        EntryType::MoveX => {
            let piece = match state.snapshot().piece() {
                Some(f) => f.0,
                None => {
                    return false;
                },
            };
            let nx = (*posx as i64) + (detail as i64) - 16;
            if nx > (i32::MAX - 3) as i64 || *posy > i32::MAX - 3 || nx < i32::MIN as i64 {
                return false;
            }
            *posx = nx as i32;
            state.try_move(t, piece, *posx, *posy);
            true
        },
        EntryType::MoveDown => {
            let piece = match state.snapshot().piece() {
                Some(f) => f.0,
                None => {
                    return false;
                },
            };
            let ny = (*posy as i64) + (detail as i64) - 16;
            if ny > (i32::MAX - 3) as i64 || *posx > i32::MAX - 3 || ny < i32::MIN as i64 {
                return false;
            }
            *posy = ny as i32;
            state.try_move(t, piece, *posx, *posy);
            true
        },
        EntryType::Rot => {
            let piece = match state.snapshot().piece() {
                Some(f) => f.0,
                None => {
                    return false;
                },
            };
            let turn_ok = if detail != 0 { piece.orientation_below(253) } else { piece.orientation_below(255) };
            if !turn_ok || *posx > i32::MAX - 3 || *posy > i32::MAX - 3 {
                return false;
            }
            let turned = piece.rotate(detail != 0);
            state.try_move(t, turned, *posx, *posy);
            true
        },
        EntryType::Merge => {
            *drop = detail;
            true
        },
        EntryType::Spawn => {
            if state.snapshot().piece().is_some() {
                return false;
            }
            state.start_new_piece(t);
            *posx = c.width / 2 - 2;
            *posy = c.height - 3;
            true
        },
        EntryType::NextPiece => {
            if detail >= 7 || state.snapshot().piece().is_none() || state.snapshot().next_piece().get_type() == Type::Empty {
                return false;
            }
            if !state.has_merge_room(*drop as i32) {
                return false;
            }
            let next = Piece::new(Type::from_int(detail as u32), 2);
            state.merge(t, next, *drop as i32);
            true
        },
    }
}

/// Plays the word `e` on the history, moving the clock `time` by its frames;
/// returns whether it could be played (see `playback_step`).
fn play_word(
    c: &Config,
    state: &mut GameHistory,
    e: u16,
    time: &mut i32,
    drop: &mut u8,
    posx: &mut i32,
    posy: &mut i32,
) -> (result: bool)
    requires
        c.wf(),
        old(state).wf(),
        old(state).spec_config().same_as(c),
        old(state).last().timestamp <= *old(time),
    ensures
        result ==> {
            &&& final(state).wf()
            &&& final(state).spec_config() == old(state).spec_config()
            &&& final(state).last().timestamp <= *final(time)
        },
        ({
            let st = PlaybackView { frames: old(state).frames(), time: *old(time) as int, drop: *old(drop) as int, posx: *old(posx) as int, posy: *old(posy) as int };
            if result {
                playback_step(*c, st, e) == Some(PlaybackView { frames: final(state).frames(), time: *final(time) as int, drop: *final(drop) as int, posx: *final(posx) as int, posy: *final(posy) as int })
            } else {
                playback_step(*c, st, e) is None
            }
        }),
{
    let entry = Entry(e);
    let code = entry.type_code();
    let detail = entry.detail();
    let dt = entry.dt();
    if code >= 7 || (*time as i64) + (dt as i64) > i32::MAX as i64 {
        return false;
    }
    let t = *time + dt as i32;
    let tp = EntryType::from_code(code);
    let ok = play_entry(c, state, tp, detail, t, drop, posx, posy);
    if ok {
        *time = t;
    }
    ok
}

/// A recorded game played back, ready to be shown at any of its frames.
pub struct Replayer {
    config: Config,
    state: GameHistory,
    frames: usize,
}

impl Replayer {
    /// The snapshots of the played-back game.
    pub closed spec fn spec_frames(&self) -> Seq<SnapshotView> {
        self.state.frames()
    }

    /// The number of frames the replay lasts.
    pub closed spec fn spec_frame_count(&self) -> int {
        self.frames as int
    }

    pub closed spec fn wf(&self) -> bool {
        self.state.wf()
    }

    /// Plays the replay back; `None` exactly where it cannot be played (see
    /// `replay_playback`).
    pub fn try_new(replay: &Replay) -> (result: Option<Self>)
        ensures
            match result {
                None => replay_playback(*replay) is None,
                Some(r) => {
                    &&& r.wf()
                    &&& replay_playback(*replay) matches Some(st) && r.spec_frames() == st.frames
                    &&& r.spec_frame_count() == if replay.spec_time() > 0 { replay.spec_time() } else { 0 }
                },
            },
    {
        let c = &replay.config;
        if !c.is_wf() || replay.first == Type::Empty || replay.second == Type::Empty {
            return None;
        }
        let first = Piece::new(replay.first, 2);
        let second = Piece::new(replay.second, 2);
        let mut state = GameHistory::new(c, first, second);
        let frames: usize = if replay.time > 0 { replay.time as usize } else { 0 };
        let mut time: i32 = 0;
        let mut drop: u8 = 0;
        let mut posx: i32 = c.width / 2 - 2;
        let mut posy: i32 = c.height - 3;
        let ghost start = playback_start(*c, replay.first, replay.second).unwrap();
        proof {
            assert(replay_playback(*replay) == playback(*c, start, replay.data@));
            assert(state.frames() =~= start.frames);
            assert(playback(*c, start, replay.data@.take(0)) == Some(start)) by {
                assert(replay.data@.take(0) =~= Seq::<u16>::empty());
            }
        }
        let n = replay.data.len();
        let mut i: usize = 0;
        while i < n
            invariant
                i <= n,
                n == replay.data@.len(),
                replay_playback(*replay) == playback(*c, start, replay.data@),
                c.wf(),
                state.wf(),
                state.spec_config().same_as(c),
                state.last().timestamp <= time,
                playback(*c, start, replay.data@.take(i as int)) == Some(PlaybackView {
                    frames: state.frames(),
                    time: time as int,
                    drop: drop as int,
                    posx: posx as int,
                    posy: posy as int,
                }),
            decreases n - i,
        {
            proof {
                assert(replay.data@.take(i + 1).drop_last() =~= replay.data@.take(i as int));
                assert(replay.data@.take(i + 1).last() == replay.data@[i as int]);
            }
            let ok = play_word(c, &mut state, replay.data[i], &mut time, &mut drop, &mut posx, &mut posy);
            if !ok {
                proof {
                    assert(playback(*c, start, replay.data@.take(i + 1)) is None);
                    lemma_playback_none_extends(*c, start, replay.data@, i as int + 1);
                    assert(playback(*c, start, replay.data@) is None);
                }
                return None;
            }
            i = i + 1;
        }
        proof {
            assert(replay.data@.take(n as int) =~= replay.data@);
        }
        Some(Replayer { config: c.copy(), state, frames })
    }

    /// Plays back a replay that can be played (see `try_new`).
    pub fn new(replay: &Replay) -> (result: Self)
        requires
            replay_playback(*replay) is Some,
        ensures
            result.wf(),
            result.spec_frames() == replay_playback(*replay).unwrap().frames,
            result.spec_frame_count() == if replay.spec_time() > 0 { replay.spec_time() } else { 0 },
    {
        Self::try_new(replay).unwrap()
    }

    /// The number of frames the replay lasts.
    pub fn frame_count(&self) -> (result: usize)
        ensures
            result == self.spec_frame_count(),
    {
        self.frames
    }

    /// The snapshot shown at frame `timestamp` (see `frame_index_at`).
    pub fn snapshot_at(&self, timestamp: i32) -> (result: &Snapshot)
        requires
            self.wf(),
        ensures
            result@ == self.spec_frames()[frame_index_at(self.spec_frames(), timestamp as int)],
    {
        self.state.snapshot_at(timestamp)
    }

    /// The newest snapshot of the played-back game.
    pub fn last_snapshot(&self) -> (result: &Snapshot)
        requires
            self.wf(),
        ensures
            result@ == self.spec_frames().last(),
    {
        self.state.snapshot()
    }
}

} // verus!
