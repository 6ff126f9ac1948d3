use vstd::prelude::*;

use crate::config::Config;
use crate::game::{GameView, is_deal, moved, moved_down, step_are};
use crate::piece::{Piece, Type, type_index, type_of};
use crate::replay::{
    Replay, playback_start, EntryType, PlaybackView, decode_code, decode_dt, encode, entry_code, entry_type_of, lemma_entry_roundtrip,
    lemma_rest, move_entries, padding, playback, playback_step, recorded, rest, step_effect,
};
use crate::state::{StateView, after_merge, merge_room_at};

verus! {

/// Playing two runs of words one after the other is playing the second from where
/// the first ends.
pub proof fn lemma_playback_concat(c: Config, s: PlaybackView, a: Seq<u16>, b: Seq<u16>)
    ensures
        playback(c, s, a + b) == match playback(c, s, a) {
            None => None,
            Some(s1) => playback(c, s1, b),
        },
    decreases b.len(),
{
    if b.len() == 0 {
        assert(a + b =~= a);
    } else {
        lemma_playback_concat(c, s, a, b.drop_last());
        assert((a + b).drop_last() =~= a + b.drop_last());
        assert((a + b).last() == b.last());
        match playback(c, s, a) {
            None => {
                assert(playback(c, s, a + b.drop_last()) is None);
            },
            Some(s1) => {},
        }
    }
}

/// The padding of a gap only moves the clock, by all but the last part of the gap.
pub proof fn lemma_playback_padding(c: Config, s: PlaybackView, dt: int)
    requires
        0 <= dt,
        s.time + dt <= i32::MAX,
    ensures
        playback(c, s, padding(dt)) == Some(PlaybackView { time: s.time + dt - rest(dt), ..s }),
    decreases dt,
{
    if dt > 255 {
        let one = seq![65280u16];
        assert(padding(dt) == one + padding(dt - 255));
        lemma_playback_concat(c, s, one, padding(dt - 255));
        assert(one.drop_last() =~= Seq::<u16>::empty());
        assert(decode_code(65280) == 0 && decode_dt(65280) == 255);
        assert(entry_type_of(0) == EntryType::Nop);
        let s1 = PlaybackView { time: s.time + 255, ..s };
        assert(playback(c, s, one.drop_last()) == Some(s));
        assert(one.last() == 65280u16);
        assert(playback(c, s, one) == playback_step(c, s, 65280u16));
        assert(playback(c, s, one) == Some(s1));
        lemma_playback_padding(c, s1, dt - 255);
    } else {
        assert(padding(dt) =~= Seq::<u16>::empty());
        assert(PlaybackView { time: s.time + dt - rest(dt), ..s } == s);
    }
}

/// The effect of an entry does not depend on the clock before it.
pub proof fn lemma_step_effect_time(c: Config, s: PlaybackView, time: int, tp: EntryType, d: int, t: int)
    ensures
        step_effect(c, PlaybackView { time, ..s }, tp, d, t) == step_effect(c, s, tp, d, t),
{
    let s2 = PlaybackView { time, ..s };
    assert(s2.frames == s.frames && s2.drop == s.drop && s2.posx == s.posx && s2.posy == s.posy);
    assert(PlaybackView { time: t, ..s2 } == PlaybackView { time: t, ..s });
}

/// Playing the words recorded for an entry after a gap of `dt` frames is the entry's
/// effect `dt` frames later.
pub proof fn lemma_playback_recorded(c: Config, s: PlaybackView, dt: int, tp: EntryType, d: int)
    requires
        0 <= dt,
        s.time + dt <= i32::MAX,
        0 <= d < 32,
        entry_code(tp) * 32 + d <= 255,
    ensures
        playback(c, s, recorded(dt, tp, d)) == step_effect(c, s, tp, d, s.time + dt),
{
    lemma_rest(dt);
    let r = rest(dt);
    assert(0 <= r <= 255);
    let w = encode(r, entry_code(tp), d);
    assert(0 <= w <= 65535) by (nonlinear_arith)
        requires
            w == r * 256 + entry_code(tp) * 32 + d,
            0 <= r <= 255,
            0 <= entry_code(tp) * 32 + d <= 255,
    ;
    assert(recorded(dt, tp, d) == padding(dt) + seq![w as u16]);
    lemma_playback_concat(c, s, padding(dt), seq![w as u16]);
    lemma_playback_padding(c, s, dt);
    let s2 = PlaybackView { time: s.time + dt - r, ..s };
    assert(seq![w as u16].drop_last() =~= Seq::<u16>::empty());
    lemma_entry_roundtrip(r, entry_code(tp), d);
    assert((w as u16) as int == w);
    assert(entry_type_of(entry_code(tp)) == tp);
    assert(playback(c, s2, seq![w as u16].drop_last()) == Some(s2));
    assert(seq![w as u16].last() == w as u16);
    assert(playback(c, s2, seq![w as u16]) == playback_step(c, s2, w as u16));
    lemma_step_effect_time(c, s, s.time + dt - r, tp, d, s.time + dt);
}

/// The recording of game `g` plays back, from `start` with configuration `rc`, to
/// the game's snapshots, with the clock at the newest entry and the position the
/// recording tracks on the falling piece.
pub open spec fn agrees(g: GameView, rc: Config, start: PlaybackView) -> bool {
    &&& playback(rc, start, g.replay) matches Some(st)
    &&& st.frames == g.frames
    &&& st.time == g.replay_time
    &&& (g.frames.last().falling() matches Some(f) ==> st.posx == f.1 && st.posy == f.2)
}

/// The bounds that play keeps and that the recording relies on: the clock in
/// range, a tetromino to come, and a falling tetromino turned less than four times
/// and near the field.
pub open spec fn recordable(g: GameView) -> bool {
    &&& g.frames.len() >= 1
    &&& 0 <= g.replay_time <= g.timestamp <= i32::MAX
    &&& g.frames.last().next_piece().spec_type() != Type::Empty
    &&& (g.frames.last().falling() matches Some(f) ==> {
        &&& f.0.spec_type() != Type::Empty
        &&& f.0.spec_orientation() < 4
        &&& -3 <= f.1 <= 1000
        &&& -3 <= f.2 <= 1000
    })
}

/// A move the game makes: a turn alone, or one step sideways or down.
pub open spec fn single_move(rotate: Option<bool>, dx: int, dy: int) -> bool {
    ||| (rotate is Some && dx == 0 && dy == 0)
    ||| (rotate is None && (dx == 1 || dx == -1) && dy == 0)
    ||| (rotate is None && dx == 0 && dy == -1)
}

/// A move keeps the recording in step with the game.
pub proof fn lemma_moved_agrees(g: GameView, rc: Config, start: PlaybackView, rotate: Option<bool>, dx: int, dy: int)
    requires
        agrees(g, rc, start),
        recordable(g),
        single_move(rotate, dx, dy),
    ensures
        agrees(moved(g, rotate, dx, dy).0, rc, start),
{
    let (g2, ok) = moved(g, rotate, dx, dy);
    if ok {
        let st = playback(rc, start, g.replay).unwrap();
        let gap = g.timestamp - g.replay_time;
        let f = g.frames.last().falling().unwrap();
        let (tp, d) = match rotate {
            Some(cw) => (EntryType::Rot, if cw { 1int } else { 0int }),
            None => if dx != 0 { (EntryType::MoveX, dx + 16) } else { (EntryType::MoveDown, dy + 16) },
        };
        assert(move_entries(gap, rotate, dx, dy) =~= recorded(gap, tp, d));
        lemma_playback_concat(rc, start, g.replay, recorded(gap, tp, d));
        lemma_playback_recorded(rc, st, gap, tp, d);
        assert(st.frames.last() == g.frames.last());
    }
}

/// A step down keeps the recording in step with the game, as long as every lock
/// came after a soft drop the recording can hold.
pub proof fn lemma_moved_down_agrees(g: GameView, c: Config, rc: Config, start: PlaybackView, dealt: Piece)
    requires
        g.faithful ==> agrees(g, rc, start),
        recordable(g),
        rc.same_as(&c),
        is_deal(dealt),
        g.lost is None && g.frames.last().is_falling() && !moved(g, None, 0, -1).1 ==> merge_room_at(
            g.frames.last(),
            c,
            g.down,
        ),
    ensures
        moved_down(g, c, dealt).0.faithful ==> agrees(moved_down(g, c, dealt).0, rc, start),
{
    let g2 = moved_down(g, c, dealt).0;
    if g.lost is None && g.frames.last().falling() is Some {
        let (g1, ok) = moved(g, None, 0, -1);
        if ok {
            if g.faithful {
                lemma_moved_agrees(g, rc, start, None, 0, -1);
            }
        } else if g2.faithful {
            let st = playback(rc, start, g.replay).unwrap();
            let gap = g.timestamp - g.replay_time;
            let s = g.frames.last();
            let d = g.down;
            assert((d as u8) as int == d);
            let ti = type_index(dealt.spec_type());
            assert(0 <= ti < 7);
            lemma_playback_concat(rc, start, g.replay, recorded(gap, EntryType::Merge, d));
            lemma_playback_recorded(rc, st, gap, EntryType::Merge, d);
            let st1 = PlaybackView { drop: d, time: g.timestamp, ..st };
            assert(playback(rc, start, g.replay + recorded(gap, EntryType::Merge, d)) == Some(st1));
            lemma_playback_concat(rc, start, g.replay + recorded(gap, EntryType::Merge, d), recorded(0, EntryType::NextPiece, ti));
            lemma_playback_recorded(rc, st1, 0, EntryType::NextPiece, ti);
            assert(g2.replay == g.replay + recorded(gap, EntryType::Merge, d) + recorded(0, EntryType::NextPiece, ti));
            assert(type_of(ti) == dealt.spec_type());
            Piece::lemma_spec_new(dealt.spec_type(), 2);
            Piece::lemma_same_piece(Piece::spec_new(type_of(ti), 2), dealt);
            assert(merge_room_at(s, rc, d) == merge_room_at(s, c, d));
            assert(after_merge(s, rc, g.timestamp, dealt, d) == after_merge(s, c, g.timestamp, dealt, d));
            assert(st1.frames.last() == s);
        }
    }
}

/// The end of the entry delay keeps the recording in step with the game.
pub proof fn lemma_step_are_agrees(g: GameView, c: Config, rc: Config, start: PlaybackView)
    requires
        g.faithful ==> agrees(g, rc, start),
        recordable(g),
        rc.same_as(&c),
    ensures
        step_are(g, c).0.faithful ==> agrees(step_are(g, c).0, rc, start),
{
    let (g2, waiting, out) = step_are(g, c);
    let s = g.frames.last();
    if g.faithful {
        match s.state {
            StateView::Entry { duration, .. } => {
                if s.timestamp + duration < g.timestamp {
                    let st = playback(rc, start, g.replay).unwrap();
                    let gap = g.timestamp - g.replay_time;
                    lemma_playback_concat(rc, start, g.replay, recorded(gap, EntryType::Spawn, 0));
                    lemma_playback_recorded(rc, st, gap, EntryType::Spawn, 0);
                    assert(st.frames.last() == s);
                }
            },
            StateView::Falling { .. } => {},
        }
    }
}

/// Where the playback of `r` starts (see `playback_start`).
pub open spec fn start_of(r: Replay) -> PlaybackView {
    playback_start(r.spec_config(), r.spec_first(), r.spec_second()).unwrap()
}

} // verus!
