use vstd::prelude::*;

verus! {

/// The rules of a game. Durations are counted in frames, 60 to the second.
pub struct Config {
    /// Columns of the field.
    pub width: i32,
    /// Rows of the field.
    pub height: i32,
    /// The level the game starts at.
    pub level: i32,
    /// Frames between two gravity steps, by level; the last entry serves every higher level.
    pub gravity: Vec<i32>,
    /// Frames a held side key waits before the piece starts to repeat its move.
    pub das_initial: i32,
    /// Frames between two repeated side moves.
    pub das_step: i32,
    /// Frames between two soft-drop steps.
    pub das_down: i32,
    /// Entry delay after a piece locks at the bottom row, in frames.
    pub are_base: i32,
    /// Entry delay after a piece locks at the top row, in frames.
    pub are_max: i32,
    /// Frames added to the entry delay when rows are cleared.
    pub line_clear: i32,
}

/// The smaller of two integers.
pub open spec fn min(a: int, b: int) -> int {
    if a <= b { a } else { b }
}

/// The larger of two integers.
pub open spec fn max(a: int, b: int) -> int {
    if a >= b { a } else { b }
}

/// Lines to clear at `level` before the first level-up.
pub open spec fn transition_lines(level: int) -> int {
    min(level * 10 + 10, max(100, level * 10 - 50))
}

/// Rows to clear before the first level-up, from start level `level`: ten per
/// level above zero plus ten up to level 9, then 100 up to level 15, then ten per
/// level less 50.
pub proof fn lemma_transition_lines(level: int)
    requires
        0 <= level,
    ensures
        transition_lines(level) == if level < 10 { 10 * level + 10 } else if level <= 15 { 100 } else { 10 * level - 50 },
        transition_lines(0) == 10,
{
}

/// Largest value a duration of the configuration may take.
pub open spec fn max_duration() -> int {
    10_000
}

/// Largest field side a configuration may have.
pub open spec fn max_side() -> int {
    1_000
}

/// Largest start level a configuration may have.
pub open spec fn max_start_level() -> int {
    1_000
}

impl Config {
    /// The configuration is one that a game can be played with: a field of at least
    /// four columns and one row, a gravity for at least one level, and durations and a
    /// start level in a range that keeps the game's counters from overflowing.
    pub open spec fn wf(&self) -> bool {
        &&& 4 <= self.width <= max_side()
        &&& 4 <= self.height <= max_side()
        &&& 0 <= self.level <= max_start_level()
        &&& 1 <= self.gravity@.len() <= max_duration()
        &&& forall|i: int| 0 <= i < self.gravity@.len() ==> 0 <= #[trigger] self.gravity@[i] <= max_duration()
        &&& 0 <= self.das_initial <= max_duration()
        &&& 0 <= self.das_step <= max_duration()
        &&& 0 <= self.das_down <= max_duration()
        &&& 0 <= self.are_base <= max_duration()
        &&& self.are_base <= self.are_max <= max_duration()
        &&& 0 <= self.line_clear <= max_duration()
    }

    /// Both configurations hold the same values.
    pub open spec fn same_as(&self, other: &Config) -> bool {
        &&& self.width == other.width
        &&& self.height == other.height
        &&& self.level == other.level
        &&& self.gravity@ == other.gravity@
        &&& self.das_initial == other.das_initial
        &&& self.das_step == other.das_step
        &&& self.das_down == other.das_down
        &&& self.are_base == other.are_base
        &&& self.are_max == other.are_max
        &&& self.line_clear == other.line_clear
    }

    /// The classic rules: a 10x20 field, level 0, and the gravity and timings of the
    /// classic console game.
    pub fn new() -> (result: Self)
        ensures
            result.width == 10,
            result.height == 20,
            result.level == 0,
            result.gravity@ == seq![
                48i32, 43, 38, 33, 28, 23, 18, 13, 8, 6, 5, 5, 5, 4, 4, 4, 3, 3, 3,
                2, 2, 2, 2, 2, 2, 2, 2, 2, 2, 1,
            ],
            result.das_initial == 16,
            result.das_step == 6,
            result.das_down == 2,
            result.are_base == 10,
            result.are_max == 20,
            result.line_clear == 18,
            result.wf(),
    {
        let gravity: Vec<i32> = vec![
            48, 43, 38, 33, 28, 23, 18, 13, 8, 6, 5, 5, 5, 4, 4, 4, 3, 3, 3,
            2, 2, 2, 2, 2, 2, 2, 2, 2, 2, 1,
        ];
        let result = Config {
            width: 10,
            height: 20,
            level: 0,
            gravity,
            das_initial: 16,
            das_step: 6,
            das_down: 2,
            are_base: 10,
            are_max: 20,
            line_clear: 18,
        };
        assert(result.gravity@ =~= seq![
            48i32, 43, 38, 33, 28, 23, 18, 13, 8, 6, 5, 5, 5, 4, 4, 4, 3, 3, 3,
            2, 2, 2, 2, 2, 2, 2, 2, 2, 2, 1,
        ]);
        result
    }

    /// Lines to clear before the first level-up when starting at `self.level`.
    pub fn transition(&self) -> (result: i32)
        requires
            -214_748_359 <= self.level <= 214_748_363,
        ensures
            result == transition_lines(self.level as int),
    {
        let a = self.level * 10 + 10;
        let b = self.level * 10 - 50;
        let c = if 100 >= b { 100 } else { b };
        if a <= c { a } else { c }
    }

    /// Whether the configuration is one a game can be played with (see `wf`).
    pub fn is_wf(&self) -> (result: bool)
        ensures
            result == self.wf(),
    {
        let d: i32 = 10_000;
        if !(4 <= self.width && self.width <= 1000 && 4 <= self.height && self.height <= 1000) {
            return false;
        }
        if !(0 <= self.level && self.level <= 1000) {
            return false;
        }
        let n = self.gravity.len();
        if !(1 <= n && n <= 10_000) {
            return false;
        }
        let mut i: usize = 0;
        while i < n
            invariant
                i <= n,
                n == self.gravity@.len(),
                forall|k: int| 0 <= k < i ==> 0 <= #[trigger] self.gravity@[k] <= max_duration(),
            decreases n - i,
        {
            if !(0 <= self.gravity[i] && self.gravity[i] <= 10_000) {
                return false;
            }
            i = i + 1;
        }
        0 <= self.das_initial && self.das_initial <= d && 0 <= self.das_step && self.das_step <= d && 0 <= self.das_down
            && self.das_down <= d && 0 <= self.are_base && self.are_base <= self.are_max && self.are_max <= d
            && 0 <= self.line_clear && self.line_clear <= d
    }

    /// A value-for-value copy.
    pub fn copy(&self) -> (result: Self)
        ensures
            result.same_as(self),
    {
        let gravity = self.gravity.clone();
        assert(gravity@ =~= self.gravity@);
        Config {
            width: self.width,
            height: self.height,
            level: self.level,
            gravity,
            das_initial: self.das_initial,
            das_step: self.das_step,
            das_down: self.das_down,
            are_base: self.are_base,
            are_max: self.are_max,
            line_clear: self.line_clear,
        }
    }
}

impl Clone for Config {
    fn clone(&self) -> (result: Self)
        ensures
            result.same_as(self),
    {
        self.copy()
    }
}

} // verus!
