use vstd::prelude::*;

verus! {

/// The seven tetrominoes, and `Empty` for an empty cell.
#[derive(Debug, Clone, Copy, PartialEq, Eq, Structural)]
pub enum Type {
    O,
    I,
    T,
    L,
    J,
    S,
    Z,
    Empty,
}

/// The number of a piece type, in the order of declaration (`O` is 0, `Empty` is 7).
pub open spec fn type_index(tp: Type) -> int {
    match tp {
        Type::O => 0,
        Type::I => 1,
        Type::T => 2,
        Type::L => 3,
        Type::J => 4,
        Type::S => 5,
        Type::Z => 6,
        Type::Empty => 7,
    }
}

/// The piece type numbered `i`, for `i` below 8 (see `type_index`).
pub open spec fn type_of(i: int) -> Type {
    if i == 0 {
        Type::O
    } else if i == 1 {
        Type::I
    } else if i == 2 {
        Type::T
    } else if i == 3 {
        Type::L
    } else if i == 4 {
        Type::J
    } else if i == 5 {
        Type::S
    } else if i == 6 {
        Type::Z
    } else {
        Type::Empty
    }
}

impl Type {
    /// The piece type numbered `i` (see `type_index`).
    pub fn from_int(i: u32) -> (result: Self)
        requires
            i < 8,
        ensures
            type_index(result) == i,
            result == type_of(i as int),
    {
        match i {
            0 => Type::O,
            1 => Type::I,
            2 => Type::T,
            3 => Type::L,
            4 => Type::J,
            5 => Type::S,
            6 => Type::Z,
            _ => Type::Empty,
        }
    }

    /// The number of this piece type (see `type_index`).
    pub fn index(&self) -> (result: usize)
        ensures
            result == type_index(*self),
    {
        match self {
            Type::O => 0,
            Type::I => 1,
            Type::T => 2,
            Type::L => 3,
            Type::J => 4,
            Type::S => 5,
            Type::Z => 6,
            Type::Empty => 7,
        }
    }
}

/// Number of quarter turns of a piece; only its remainder by 4 matters.
pub type Orientation = u8;

/// A piece type in one of its four orientations.
#[derive(Debug, Clone, Copy, PartialEq, Eq, Structural)]
pub struct Piece {
    tp: Type,
    orientation: Orientation,
}

/// The 4x4 shape of a piece type in orientation `rot` (taken modulo 4), row by row:
/// entry `4 * j + i` is the cell in column `i` and row `j`.
pub open spec fn shape(tp: Type, rot: int) -> Seq<bool> {
    let r = rot % 4;
    match tp {
        Type::Empty => seq![
            false, false, false, false,
            false, false, false, false,
            false, false, false, false,
            false, false, false, false,
        ],
        Type::O => seq![
            false, false, false, false,
            false, true, true, false,
            false, true, true, false,
            false, false, false, false,
        ],
        Type::I => if r == 0 || r == 2 {
            seq![
                false, false, false, false,
                false, false, false, false,
                true, true, true, true,
                false, false, false, false,
            ]
        } else {
            seq![
                false, false, true, false,
                false, false, true, false,
                false, false, true, false,
                false, false, true, false,
            ]
        },
        Type::T => if r == 0 {
            seq![
                false, false, false, false,
                false, false, false, false,
                false, true, true, true,
                false, false, true, false,
            ]
        } else if r == 1 {
            seq![
                false, false, false, false,
                false, false, true, false,
                false, true, true, false,
                false, false, true, false,
            ]
        } else if r == 2 {
            seq![
                false, false, false, false,
                false, false, true, false,
                false, true, true, true,
                false, false, false, false,
            ]
        } else {
            seq![
                false, false, false, false,
                false, false, true, false,
                false, false, true, true,
                false, false, true, false,
            ]
        },
        Type::J => if r == 0 {
            seq![
                false, false, false, false,
                false, false, false, false,
                false, true, true, true,
                false, true, false, false,
            ]
        } else if r == 1 {
            seq![
                false, false, false, false,
                false, true, true, false,
                false, false, true, false,
                false, false, true, false,
            ]
        } else if r == 2 {
            seq![
                false, false, false, false,
                false, false, false, true,
                false, true, true, true,
                false, false, false, false,
            ]
        } else {
            seq![
                false, false, false, false,
                false, false, true, false,
                false, false, true, false,
                false, false, true, true,
            ]
        },
        Type::L => if r == 0 {
            seq![
                false, false, false, false,
                false, false, false, false,
                false, true, true, true,
                false, false, false, true,
            ]
        } else if r == 1 {
            seq![
                false, false, false, false,
                false, false, true, false,
                false, false, true, false,
                false, true, true, false,
            ]
        } else if r == 2 {
            seq![
                false, false, false, false,
                false, true, false, false,
                false, true, true, true,
                false, false, false, false,
            ]
        } else {
            seq![
                false, false, false, false,
                false, false, true, true,
                false, false, true, false,
                false, false, true, false,
            ]
        },
        Type::S => if r == 0 || r == 2 {
            seq![
                false, false, false, false,
                false, true, true, false,
                false, false, true, true,
                false, false, false, false,
            ]
        } else {
            seq![
                false, false, false, true,
                false, false, true, true,
                false, false, true, false,
                false, false, false, false,
            ]
        },
        Type::Z => if r == 0 || r == 2 {
            seq![
                false, false, false, false,
                false, false, true, true,
                false, true, true, false,
                false, false, false, false,
            ]
        } else {
            seq![
                false, false, true, false,
                false, false, true, true,
                false, false, false, true,
                false, false, false, false,
            ]
        },
    }
}

/// Number of occupied cells among the first `n` entries of a shape.
pub open spec fn count_blocks(s: Seq<bool>, n: int) -> int
    decreases n,
{
    if n <= 0 {
        0
    } else {
        count_blocks(s, n - 1) + if s[n - 1] { 1int } else { 0int }
    }
}

impl Piece {
    /// The type of the piece.
    pub closed spec fn spec_type(&self) -> Type {
        self.tp
    }

    /// The number of quarter turns of the piece.
    pub closed spec fn spec_orientation(&self) -> int {
        self.orientation as int
    }

    /// Two pieces of the same type in the same orientation are the same piece.
    pub proof fn lemma_same_piece(p: Piece, q: Piece)
        requires
            p.spec_type() == q.spec_type(),
            p.spec_orientation() == q.spec_orientation(),
        ensures
            p == q,
    {
    }

    pub proof fn lemma_spec_new(tp: Type, orientation: Orientation)
        ensures
            Piece::spec_new(tp, orientation).spec_type() == tp,
            Piece::spec_new(tp, orientation).spec_orientation() == orientation,
    {
    }

    /// The piece turned a quarter (see `rotate`).
    pub closed spec fn spec_rotate(&self, clockwise: bool) -> Piece {
        Piece {
            tp: self.tp,
            orientation: ((self.orientation + if clockwise { 3int } else { 1int }) % 4) as u8,
        }
    }

    /// Whether the piece covers the cell in column `i` and row `j` of its 4x4 box.
    pub open spec fn block(&self, i: int, j: int) -> bool {
        0 <= i < 4 && 0 <= j < 4 && shape(self.spec_type(), self.spec_orientation())[4 * j + i]
    }

    pub fn get_type(&self) -> (result: Type)
        ensures
            result == self.spec_type(),
    {
        self.tp
    }

    /// The piece of type `tp` in `orientation` (see `new`).
    pub closed spec fn spec_new(tp: Type, orientation: Orientation) -> Piece {
        Piece { tp, orientation }
    }

    pub fn new(tp: Type, orientation: Orientation) -> (result: Self)
        ensures
            result == Piece::spec_new(tp, orientation),
            result.spec_type() == tp,
            result.spec_orientation() == orientation,
    {
        Piece { tp, orientation }
    }

    /// Whether the piece has fewer than `bound` quarter turns.
    pub fn orientation_below(&self, bound: u8) -> (result: bool)
        ensures
            result == (self.spec_orientation() < bound),
    {
        self.orientation < bound
    }

    /// The piece turned a quarter: clockwise adds three quarter turns, counter-clockwise one.
    pub fn rotate(&self, clockwise: bool) -> (result: Self)
        requires
            self.spec_orientation() + (if clockwise { 3int } else { 1int }) <= u8::MAX,
        ensures
            result == self.spec_rotate(clockwise),
            result.spec_type() == self.spec_type(),
            result.spec_orientation() == (self.spec_orientation() + if clockwise { 3int } else { 1int }) % 4,
    {
        let delta: u8 = if clockwise { 3 } else { 1 };
        Piece { tp: self.tp, orientation: (self.orientation + delta) % 4 }
    }

    /// The 4x4 shape of the piece, row by row: entry `4 * j + i` is column `i` of row `j`.
    pub fn blocks(&self) -> (result: [bool; 16])
        ensures
            result@ == shape(self.spec_type(), self.spec_orientation()),
    {
        let r = self.orientation % 4;
        let result = match self.tp {
            Type::Empty => [
                false, false, false, false,
                false, false, false, false,
                false, false, false, false,
                false, false, false, false,
            ],
            Type::O => [
                false, false, false, false,
                false, true, true, false,
                false, true, true, false,
                false, false, false, false,
            ],
            Type::I => if r == 0 || r == 2 {
                [
                    false, false, false, false,
                    false, false, false, false,
                    true, true, true, true,
                    false, false, false, false,
                ]
            } else {
                [
                    false, false, true, false,
                    false, false, true, false,
                    false, false, true, false,
                    false, false, true, false,
                ]
            },
            Type::T => if r == 0 {
                [
                    false, false, false, false,
                    false, false, false, false,
                    false, true, true, true,
                    false, false, true, false,
                ]
            } else if r == 1 {
                [
                    false, false, false, false,
                    false, false, true, false,
                    false, true, true, false,
                    false, false, true, false,
                ]
            } else if r == 2 {
                [
                    false, false, false, false,
                    false, false, true, false,
                    false, true, true, true,
                    false, false, false, false,
                ]
            } else {
                [
                    false, false, false, false,
                    false, false, true, false,
                    false, false, true, true,
                    false, false, true, false,
                ]
            },
            Type::J => if r == 0 {
                [
                    false, false, false, false,
                    false, false, false, false,
                    false, true, true, true,
                    false, true, false, false,
                ]
            } else if r == 1 {
                [
                    false, false, false, false,
                    false, true, true, false,
                    false, false, true, false,
                    false, false, true, false,
                ]
            } else if r == 2 {
                [
                    false, false, false, false,
                    false, false, false, true,
                    false, true, true, true,
                    false, false, false, false,
                ]
            } else {
                [
                    false, false, false, false,
                    false, false, true, false,
                    false, false, true, false,
                    false, false, true, true,
                ]
            },
            Type::L => if r == 0 {
                [
                    false, false, false, false,
                    false, false, false, false,
                    false, true, true, true,
                    false, false, false, true,
                ]
            } else if r == 1 {
                [
                    false, false, false, false,
                    false, false, true, false,
                    false, false, true, false,
                    false, true, true, false,
                ]
            } else if r == 2 {
                [
                    false, false, false, false,
                    false, true, false, false,
                    false, true, true, true,
                    false, false, false, false,
                ]
            } else {
                [
                    false, false, false, false,
                    false, false, true, true,
                    false, false, true, false,
                    false, false, true, false,
                ]
            },
            Type::S => if r == 0 || r == 2 {
                [
                    false, false, false, false,
                    false, true, true, false,
                    false, false, true, true,
                    false, false, false, false,
                ]
            } else {
                [
                    false, false, false, true,
                    false, false, true, true,
                    false, false, true, false,
                    false, false, false, false,
                ]
            },
            Type::Z => if r == 0 || r == 2 {
                [
                    false, false, false, false,
                    false, false, true, true,
                    false, true, true, false,
                    false, false, false, false,
                ]
            } else {
                [
                    false, false, true, false,
                    false, false, true, true,
                    false, false, false, true,
                    false, false, false, false,
                ]
            },
        };
        assert(result@ =~= shape(self.tp, self.orientation as int));
        result
    }
}

/// A shape with a block among its first `n` entries has a block at some index below `n`.
pub proof fn lemma_some_block(s: Seq<bool>, n: int) -> (k: int)
    requires
        count_blocks(s, n) > 0,
    ensures
        0 <= k < n,
        s[k],
    decreases n,
{
    if n <= 0 {
        0
    } else if s[n - 1] {
        n - 1
    } else {
        lemma_some_block(s, n - 1)
    }
}

/// A J dealt in orientation 2 is a row of three with one block above its right
/// end: cells 7, 9, 10 and 11 of its box.
pub proof fn lemma_dealt_j(p: Piece)
    requires
        p.spec_type() == Type::J,
        p.spec_orientation() == 2,
    ensures
        forall|k: int| 0 <= k < 16 ==> #[trigger] shape(Type::J, 2)[k] == (k == 7 || k == 9 || k == 10 || k == 11),
        p.block(3, 1) && p.block(1, 2) && p.block(2, 2) && p.block(3, 2),
{
    assert(shape(Type::J, 2) =~= seq![
        false, false, false, false,
        false, false, false, true,
        false, true, true, true,
        false, false, false, false,
    ]);
}

/// Turning a piece keeps its type and moves its orientation a quarter: clockwise
/// one step back (`+3` modulo 4), counter-clockwise one step on (`+1`); turning it
/// back gives the piece it was, and four turns the same way give it again.
pub proof fn lemma_turns(p: Piece, clockwise: bool)
    requires
        0 <= p.spec_orientation() < 4,
    ensures
        p.spec_rotate(clockwise).spec_type() == p.spec_type(),
        p.spec_rotate(true).spec_orientation() == (p.spec_orientation() + 3) % 4,
        p.spec_rotate(false).spec_orientation() == (p.spec_orientation() + 1) % 4,
        p.spec_rotate(clockwise).spec_rotate(!clockwise) == p,
        p.spec_rotate(clockwise).spec_rotate(clockwise).spec_rotate(clockwise).spec_rotate(clockwise) == p,
        p.spec_rotate(clockwise).spec_orientation() != p.spec_orientation(),
{
}

/// The shapes of the seven tetrominoes as they are dealt (orientation 2): the
/// cells of the 4x4 box, row by row, that each one covers.
pub proof fn lemma_dealt_shapes(k: int)
    requires
        0 <= k < 16,
    ensures
        shape(Type::O, 2)[k] == (k == 5 || k == 6 || k == 9 || k == 10),
        shape(Type::I, 2)[k] == (k == 8 || k == 9 || k == 10 || k == 11),
        shape(Type::T, 2)[k] == (k == 6 || k == 9 || k == 10 || k == 11),
        shape(Type::J, 2)[k] == (k == 7 || k == 9 || k == 10 || k == 11),
        shape(Type::L, 2)[k] == (k == 5 || k == 9 || k == 10 || k == 11),
        shape(Type::S, 2)[k] == (k == 5 || k == 6 || k == 10 || k == 11),
        shape(Type::Z, 2)[k] == (k == 6 || k == 7 || k == 9 || k == 10),
{
    assert(k == 0 || k == 1 || k == 2 || k == 3 || k == 4 || k == 5 || k == 6 || k == 7 || k == 8 || k == 9 || k == 10
        || k == 11 || k == 12 || k == 13 || k == 14 || k == 15);
}

/// J and L are mirror images: turning a box of J over its middle column (cell
/// `(i, j)` to `(4 - i, j)`, the column 0 of both staying empty) gives L in the
/// opposite number of quarter turns; the T is its own mirror image in the same
/// way. So no J looks like an L.
pub proof fn lemma_mirror_shapes(r: int, i: int, j: int)
    requires
        0 <= r < 4,
        1 <= i < 4,
        0 <= j < 4,
    ensures
        shape(Type::J, r)[4 * j + i] == shape(Type::L, (4 - r) % 4)[4 * j + 4 - i],
        shape(Type::T, r)[4 * j + i] == shape(Type::T, (4 - r) % 4)[4 * j + 4 - i],
        !shape(Type::J, r)[4 * j] && !shape(Type::L, r)[4 * j] && !shape(Type::T, r)[4 * j],
        shape(Type::J, r) != shape(Type::L, r),
{
    assert(shape(Type::J, r)[4 * j + i] == shape(Type::L, (4 - r) % 4)[4 * j + 4 - i]
        && shape(Type::T, r)[4 * j + i] == shape(Type::T, (4 - r) % 4)[4 * j + 4 - i]
        && !shape(Type::J, r)[4 * j] && !shape(Type::L, r)[4 * j] && !shape(Type::T, r)[4 * j]) by {
        assert(r == 0 || r == 1 || r == 2 || r == 3);
        assert(j == 0 || j == 1 || j == 2 || j == 3);
        assert(i == 1 || i == 2 || i == 3);
    }
    if r == 0 {
        assert(shape(Type::J, r)[13] != shape(Type::L, r)[13]);
    } else if r == 1 {
        assert(shape(Type::J, r)[5] != shape(Type::L, r)[5]);
    } else if r == 2 {
        assert(shape(Type::J, r)[7] != shape(Type::L, r)[7]);
    } else {
        assert(shape(Type::J, r)[15] != shape(Type::L, r)[15]);
    }
}

/// A piece's shape depends only on its orientation modulo 4.
pub proof fn lemma_shape_period(tp: Type, rot: int)
    requires
        0 <= rot,
    ensures
        shape(tp, rot) == shape(tp, rot % 4),
{
}

/// Every tetromino covers exactly four cells of its box in every orientation;
/// `Empty` covers none.
pub proof fn lemma_four_blocks(tp: Type, rot: int)
    ensures
        shape(tp, rot).len() == 16,
        count_blocks(shape(tp, rot), 16) == if tp == Type::Empty { 0int } else { 4int },
{
    let r = rot % 4;
    assert(shape(tp, rot) == shape(tp, r));
    reveal_with_fuel(count_blocks, 17);
    assert(count_blocks(shape(tp, r), 16) == if tp == Type::Empty { 0int } else { 4int });
}

/// Turning a piece one way and then the other gives back its shape; for an
/// orientation below 4 it gives back the piece itself.
pub proof fn lemma_rotate_back(tp: Type, rot: int, clockwise: bool)
    requires
        0 <= rot,
    ensures
        ({
            let once = (rot + if clockwise { 3int } else { 1int }) % 4;
            let back = (once + if clockwise { 1int } else { 3int }) % 4;
            &&& back == rot % 4
            &&& shape(tp, back) == shape(tp, rot)
        }),
{
}

/// Four quarter turns in the same direction give back the piece's shape.
pub proof fn lemma_rotate_four(tp: Type, rot: int, clockwise: bool)
    requires
        0 <= rot,
    ensures
        ({
            let d = if clockwise { 3int } else { 1int };
            let r1 = (rot + d) % 4;
            let r2 = (r1 + d) % 4;
            let r3 = (r2 + d) % 4;
            let r4 = (r3 + d) % 4;
            &&& r4 == rot % 4
            &&& shape(tp, r4) == shape(tp, rot)
        }),
{
}

} // verus!
