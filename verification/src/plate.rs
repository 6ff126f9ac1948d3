use vstd::prelude::*;
use vstd::arithmetic::power2::{pow2, lemma_pow2_unfold, lemma_pow2_pos};

verus! {

/// The six faces of the cube that the planet's sphere is mapped onto.
#[derive(Debug, Clone, Copy, PartialEq, Eq, Structural, Hash)]
pub enum Direction {
    PosX,
    NegX,
    PosY,
    NegY,
    PosZ,
    NegZ,
}

/// A square of the quadtree over one cube face: at `depth` the face is cut into
/// `2^depth` by `2^depth` squares, and (`x`, `y`) is the column and row of this one.
#[derive(Debug, Clone, Copy, PartialEq, Eq, Structural, Hash)]
pub struct Position {
    direction: Direction,
    depth: i32,
    x: i32,
    y: i32,
}

impl Position {
    pub closed spec fn spec_direction(&self) -> Direction {
        self.direction
    }

    pub closed spec fn spec_depth(&self) -> int {
        self.depth as int
    }

    pub closed spec fn spec_x(&self) -> int {
        self.x as int
    }

    pub closed spec fn spec_y(&self) -> int {
        self.y as int
    }

    /// The square lies on its face's grid: the depth is not negative and both
    /// coordinates lie in `0..2^depth`.
    pub open spec fn wf(&self) -> bool {
        &&& 0 <= self.spec_depth()
        &&& 0 <= self.spec_x() < pow2(self.spec_depth() as nat)
        &&& 0 <= self.spec_y() < pow2(self.spec_depth() as nat)
    }

    /// The whole face `dir`.
    pub fn root(dir: Direction) -> (result: Self)
        ensures
            result.wf(),
            result.spec_direction() == dir,
            result.spec_depth() == 0,
            result.spec_x() == 0,
            result.spec_y() == 0,
    {
        proof {
            lemma_pow2_pos(0);
        }
        Position { direction: dir, depth: 0, x: 0, y: 0 }
    }

    /// The quarter (`dx`, `dy`) of this square, each 0 or 1, one level down.
    pub fn child(&self, dx: i32, dy: i32) -> (result: Self)
        requires
            self.wf(),
            dx == 0 || dx == 1,
            dy == 0 || dy == 1,
            self.spec_depth() < i32::MAX,
            2 * self.spec_x() + dx <= i32::MAX,
            2 * self.spec_y() + dy <= i32::MAX,
        ensures
            result.wf(),
            result.spec_direction() == self.spec_direction(),
            result.spec_depth() == self.spec_depth() + 1,
            result.spec_x() == 2 * self.spec_x() + dx,
            result.spec_y() == 2 * self.spec_y() + dy,
    {
        proof {
            lemma_pow2_unfold((self.depth + 1) as nat);
        }
        Position { direction: self.direction, depth: self.depth + 1, x: self.x * 2 + dx, y: self.y * 2 + dy }
    }

    pub fn direction(&self) -> (result: Direction)
        ensures
            result == self.spec_direction(),
    {
        self.direction
    }

    pub fn depth(&self) -> (result: i32)
        ensures
            result == self.spec_depth(),
    {
        self.depth
    }

    pub fn x(&self) -> (result: i32)
        ensures
            result == self.spec_x(),
    {
        self.x
    }

    pub fn y(&self) -> (result: i32)
        ensures
            result == self.spec_y(),
    {
        self.y
    }
}

/// A child names its parent and its quarter: halving a child's coordinates gives
/// the parent's and their remainders give the quarter. So two children of the
/// same depth are the same square exactly when they have the same parent and lie
/// in the same quarter of it.
pub proof fn lemma_child_injective(
    p1: Position,
    p2: Position,
    c1: Position,
    c2: Position,
    dx1: int,
    dy1: int,
    dx2: int,
    dy2: int,
)
    requires
        p1.wf(),
        p2.wf(),
        0 <= dx1 <= 1,
        0 <= dy1 <= 1,
        0 <= dx2 <= 1,
        0 <= dy2 <= 1,
        c1.spec_direction() == p1.spec_direction(),
        c1.spec_depth() == p1.spec_depth() + 1,
        c1.spec_x() == 2 * p1.spec_x() + dx1,
        c1.spec_y() == 2 * p1.spec_y() + dy1,
        c2.spec_direction() == p2.spec_direction(),
        c2.spec_depth() == p2.spec_depth() + 1,
        c2.spec_x() == 2 * p2.spec_x() + dx2,
        c2.spec_y() == 2 * p2.spec_y() + dy2,
    ensures
        c1.spec_x() / 2 == p1.spec_x(),
        c1.spec_y() / 2 == p1.spec_y(),
        c1.spec_x() % 2 == dx1,
        c1.spec_y() % 2 == dy1,
        c1 == c2 <==> (p1 == p2 && dx1 == dx2 && dy1 == dy2),
{
}

/// The square (depth, column, row) that `Position::root` and then `child` with the
/// quarters `steps`, one after the other, lead to.
pub open spec fn descend(steps: Seq<(int, int)>) -> (int, int, int)
    decreases steps.len(),
{
    if steps.len() == 0 {
        (0, 0, 0)
    } else {
        let p = descend(steps.drop_last());
        (p.0 + 1, 2 * p.1 + steps.last().0, 2 * p.2 + steps.last().1)
    }
}

/// Every step names a quarter: both halves are 0 or 1.
pub open spec fn quarters(steps: Seq<(int, int)>) -> bool {
    forall|k: int| 0 <= k < steps.len() ==> 0 <= #[trigger] steps[k].0 <= 1 && 0 <= steps[k].1 <= 1
}

/// After `k` steps down from a face the square is at depth `k`, with both
/// coordinates in `0..2^k`.
pub proof fn lemma_descend_range(steps: Seq<(int, int)>)
    requires
        quarters(steps),
    ensures
        descend(steps).0 == steps.len(),
        0 <= descend(steps).1 < pow2(steps.len()),
        0 <= descend(steps).2 < pow2(steps.len()),
    decreases steps.len(),
{
    if steps.len() == 0 {
        lemma_pow2_pos(0);
        vstd::arithmetic::power2::lemma2_to64();
    } else {
        let rest = steps.drop_last();
        assert(quarters(rest)) by {
            assert forall|k: int| 0 <= k < rest.len() implies 0 <= #[trigger] rest[k].0 <= 1 && 0 <= rest[k].1 <= 1 by {
                assert(rest[k] == steps[k]);
            }
        }
        lemma_descend_range(rest);
        lemma_pow2_unfold(steps.len());
        assert(0 <= steps.last().0 <= 1 && 0 <= steps.last().1 <= 1) by {
            assert(steps.last() == steps[steps.len() - 1]);
        }
    }
}

/// Quadtree addresses are unique: two ways down from a face that reach the same
/// square take the same quarters.
pub proof fn lemma_descend_injective(s1: Seq<(int, int)>, s2: Seq<(int, int)>)
    requires
        quarters(s1),
        quarters(s2),
        descend(s1) == descend(s2),
    ensures
        s1 == s2,
    decreases s1.len(),
{
    lemma_descend_range(s1);
    lemma_descend_range(s2);
    if s1.len() > 0 {
        let r1 = s1.drop_last();
        let r2 = s2.drop_last();
        assert(quarters(r1)) by {
            assert forall|k: int| 0 <= k < r1.len() implies 0 <= #[trigger] r1[k].0 <= 1 && 0 <= r1[k].1 <= 1 by {
                assert(r1[k] == s1[k]);
            }
        }
        assert(quarters(r2)) by {
            assert forall|k: int| 0 <= k < r2.len() implies 0 <= #[trigger] r2[k].0 <= 1 && 0 <= r2[k].1 <= 1 by {
                assert(r2[k] == s2[k]);
            }
        }
        assert(s1.last() == s1[s1.len() - 1]);
        assert(s2.last() == s2[s2.len() - 1]);
        let p1 = descend(r1);
        let p2 = descend(r2);
        assert(s1.last().0 == s2.last().0 && p1.1 == p2.1) by {
            assert(2 * p1.1 + s1.last().0 == 2 * p2.1 + s2.last().0);
        }
        assert(s1.last().1 == s2.last().1 && p1.2 == p2.2) by {
            assert(2 * p1.2 + s1.last().1 == 2 * p2.2 + s2.last().1);
        }
        lemma_descend_injective(r1, r2);
        assert(s1 =~= r1.push(s1.last()));
        assert(s2 =~= r2.push(s2.last()));
    } else {
        assert(s2.len() == 0);
        assert(s1 =~= s2);
    }
}

/// `p` is the square that `Position::root(dir)` and then `child` with the quarters
/// `steps`, one after the other, lead to.
pub open spec fn reached(p: Position, dir: Direction, steps: Seq<(int, int)>) -> bool {
    &&& p.spec_direction() == dir
    &&& (p.spec_depth(), p.spec_x(), p.spec_y()) == descend(steps)
}

/// Quadtree addresses are unique: two squares reached from the faces `d1` and `d2`
/// by the quarters `s1` and `s2` are the same square exactly when they start on
/// the same face and take the same quarters.
pub proof fn lemma_positions_unique(p1: Position, p2: Position, d1: Direction, d2: Direction, s1: Seq<(int, int)>, s2: Seq<(int, int)>)
    requires
        quarters(s1),
        quarters(s2),
        reached(p1, d1, s1),
        reached(p2, d2, s2),
    ensures
        p1 == p2 <==> (d1 == d2 && s1 == s2),
{
    if p1 == p2 {
        lemma_descend_injective(s1, s2);
    }
}

} // verus!
