use vstd::prelude::*;

use crate::array2d::Array2D;
use crate::piece::{Piece, Type};

verus! {

/// The field of settled blocks; row 0 is the bottom row.
pub struct Stack {
    generation: i32,
    width: i32,
    height: i32,
    blocks: Array2D<Type>,
}

/// What a stack holds: its dimensions, how often it was changed, and its blocks.
#[verifier::ext_equal]
pub struct StackView {
    pub width: int,
    pub height: int,
    pub generation: int,
    pub cells: Map<(int, int), Type>,
}

impl View for Stack {
    type V = StackView;

    open spec fn view(&self) -> StackView {
        StackView { width: self.w(), height: self.h(), generation: self.spec_generation(), cells: self.cells() }
    }
}

impl StackView {
    /// The block in column `x` and row `y`.
    pub open spec fn cell(&self, x: int, y: int) -> Type {
        self.cells[(x, y)]
    }

    /// The piece at (`x`, `y`) covers only cells inside the side walls and above the
    /// floor, and none that holds a block; cells above the top row count as free.
    pub open spec fn fits_at(&self, piece: Piece, x: int, y: int) -> bool {
        forall|i: int, j: int|
            #[trigger] piece.block(i, j) ==> {
                &&& 0 <= x + i < self.width
                &&& 0 <= y + j
                &&& (y + j < self.height ==> self.cell(x + i, y + j) == Type::Empty)
            }
    }

    /// The cells after the piece at (`x`, `y`) is written into them; the parts of the
    /// piece outside the rectangle are dropped.
    pub open spec fn merged_cells(&self, piece: Piece, x: int, y: int) -> Map<(int, int), Type> {
        Map::new(
            |p: (int, int)| in_rect(p, self.width, self.height),
            |p: (int, int)| if piece.block(p.0 - x, p.1 - y) { piece.spec_type() } else { self.cell(p.0, p.1) },
        )
    }

    /// The cells once every full row is removed and the rows above it fall down.
    pub open spec fn eliminated_cells(&self) -> Map<(int, int), Type> {
        compacted(self.cells, self.width, self.height, 0)
    }

    /// The full rows, from the top down.
    pub open spec fn full_rows(&self) -> Seq<int> {
        full_rows(self.cells, self.width, 0, self.height)
    }
}

/// Rows of `cells` in `lo..hi` that are not full, from the bottom up.
pub open spec fn kept_rows(cells: Map<(int, int), Type>, width: int, lo: int, hi: int) -> Seq<int>
    decreases hi - lo,
{
    if lo >= hi {
        Seq::empty()
    } else {
        (if row_full(cells, width, lo) { Seq::empty() } else { seq![lo] }) + kept_rows(cells, width, lo + 1, hi)
    }
}

/// Full rows of `cells` in `lo..hi`, from the top down.
pub open spec fn full_rows(cells: Map<(int, int), Type>, width: int, lo: int, hi: int) -> Seq<int>
    decreases hi - lo,
{
    if lo >= hi {
        Seq::empty()
    } else {
        full_rows(cells, width, lo + 1, hi) + (if row_full(cells, width, lo) { seq![lo] } else { Seq::empty() })
    }
}

/// Every cell of row `j` holds a block.
pub open spec fn row_full(cells: Map<(int, int), Type>, width: int, j: int) -> bool {
    forall|x: int| 0 <= x < width ==> #[trigger] cells[(x, j)] != Type::Empty
}

/// The `width` by `height` rectangle of cells.
pub open spec fn in_rect(p: (int, int), width: int, height: int) -> bool {
    0 <= p.0 < width && 0 <= p.1 < height
}

/// `cells` with the rows from `lo` upward replaced by the non-full ones among them,
/// moved down to start at row `lo`, and empty rows above them.
pub open spec fn compacted(cells: Map<(int, int), Type>, width: int, height: int, lo: int) -> Map<(int, int), Type> {
    let kept = kept_rows(cells, width, lo, height);
    Map::new(
        |p: (int, int)| in_rect(p, width, height),
        |p: (int, int)|
            if p.1 < lo {
                cells[p]
            } else if p.1 - lo < kept.len() {
                cells[(p.0, kept[p.1 - lo])]
            } else {
                Type::Empty
            },
    )
}

/// `cells` with row `j` removed: the rows above it moved down by one, an empty row on top.
pub open spec fn row_removed(cells: Map<(int, int), Type>, width: int, height: int, j: int) -> Map<(int, int), Type> {
    Map::new(
        |p: (int, int)| in_rect(p, width, height),
        |p: (int, int)|
            if p.1 < j {
                cells[p]
            } else if p.1 < height - 1 {
                cells[(p.0, p.1 + 1)]
            } else {
                Type::Empty
            },
    )
}

/// A piece that fits lies no lower than three rows below the floor.
pub proof fn lemma_fits_floor(s: StackView, piece: Piece, x: int, y: int)
    requires
        piece.spec_type() != Type::Empty,
    ensures
        s.fits_at(piece, x, y) ==> -3 <= y && -3 <= x < s.width,
{
    crate::piece::lemma_four_blocks(piece.spec_type(), piece.spec_orientation());
    let k = crate::piece::lemma_some_block(crate::piece::shape(piece.spec_type(), piece.spec_orientation()), 16);
    assert(piece.block(k % 4, k / 4));
}

/// At most `hi - lo` rows are kept out of `lo..hi`.
pub proof fn lemma_kept_len(cells: Map<(int, int), Type>, width: int, lo: int, hi: int)
    ensures
        kept_rows(cells, width, lo, hi).len() <= if lo >= hi { 0 } else { hi - lo },
        forall|k: int| 0 <= k < kept_rows(cells, width, lo, hi).len() ==> lo <= #[trigger] kept_rows(cells, width, lo, hi)[k] < hi,
        forall|k: int| 0 <= k < kept_rows(cells, width, lo, hi).len() ==> !row_full(cells, width, #[trigger] kept_rows(cells, width, lo, hi)[k]),
    decreases hi - lo,
{
    if lo < hi {
        lemma_kept_len(cells, width, lo + 1, hi);
        let rest = kept_rows(cells, width, lo + 1, hi);
        let head: Seq<int> = if row_full(cells, width, lo) { Seq::empty() } else { seq![lo] };
        assert(kept_rows(cells, width, lo, hi) == head + rest);
        assert forall|k: int| 0 <= k < kept_rows(cells, width, lo, hi).len() implies
            lo <= #[trigger] kept_rows(cells, width, lo, hi)[k] < hi && !row_full(cells, width, kept_rows(cells, width, lo, hi)[k]) by {
            if k >= head.len() {
                assert(kept_rows(cells, width, lo, hi)[k] == rest[k - head.len()]);
            }
        }
    }
}

/// The entries of `full_rows(lo, hi)` are the full rows of `lo..hi`.
pub proof fn lemma_full_rows_range(cells: Map<(int, int), Type>, width: int, lo: int, hi: int)
    ensures
        full_rows(cells, width, lo, hi).len() <= if lo >= hi { 0 } else { hi - lo },
        forall|k: int| 0 <= k < full_rows(cells, width, lo, hi).len() ==> lo <= #[trigger] full_rows(cells, width, lo, hi)[k] < hi,
    decreases hi - lo,
{
    if lo < hi {
        lemma_full_rows_range(cells, width, lo + 1, hi);
        let rest = full_rows(cells, width, lo + 1, hi);
        let tail: Seq<int> = if row_full(cells, width, lo) { seq![lo] } else { Seq::empty() };
        assert(full_rows(cells, width, lo, hi) == rest + tail);
        assert forall|k: int| 0 <= k < full_rows(cells, width, lo, hi).len() implies
            lo <= #[trigger] full_rows(cells, width, lo, hi)[k] < hi by {
            if k < rest.len() {
                assert(full_rows(cells, width, lo, hi)[k] == rest[k]);
            }
        }
    }
}

/// When every full row of `lo..hi` lies in the four rows from `a`, at most four rows
/// of `lo..hi` are full.
pub proof fn lemma_full_rows_at_most_four(cells: Map<(int, int), Type>, width: int, lo: int, hi: int, a: int)
    requires
        forall|r: int| lo <= r < hi && #[trigger] row_full(cells, width, r) ==> a <= r < a + 4,
    ensures
        full_rows(cells, width, lo, hi).len() <= 4,
        full_rows(cells, width, lo, hi).len() <= max0(min2(hi, a + 4) - max2(lo, a)),
    decreases hi - lo,
{
    if lo < hi {
        lemma_full_rows_at_most_four(cells, width, lo + 1, hi, a);
    }
}

/// The larger of `v` and 0.
pub open spec fn max0(v: int) -> int {
    if v > 0 { v } else { 0 }
}

/// The smaller of two integers.
pub open spec fn min2(a: int, b: int) -> int {
    if a <= b { a } else { b }
}

/// The larger of two integers.
pub open spec fn max2(a: int, b: int) -> int {
    if a >= b { a } else { b }
}

/// No row of the `w` by `h` rectangle of `cells` is full.
pub open spec fn no_full_row(cells: Map<(int, int), Type>, w: int, h: int) -> bool {
    forall|r: int| 0 <= r < h ==> !#[trigger] row_full(cells, w, r)
}

/// Once the full rows are removed, no row is full: the rows that stay were not full,
/// and the rows that come in on top are empty.
pub proof fn lemma_eliminated_no_full_row(s: StackView)
    requires
        s.width > 0,
        s.height >= 0,
    ensures
        no_full_row(s.eliminated_cells(), s.width, s.height),
{
    let cells = s.cells;
    let w = s.width;
    let h = s.height;
    let kept = kept_rows(cells, w, 0, h);
    lemma_kept_len(cells, w, 0, h);
    assert forall|r: int| 0 <= r < h implies !#[trigger] row_full(s.eliminated_cells(), w, r) by {
        if r < kept.len() {
            let k = kept[r];
            assert(!row_full(cells, w, k));
            let x0 = choose|x: int| 0 <= x < w && cells[(x, k)] == Type::Empty;
            assert(s.eliminated_cells()[(x0, r)] == Type::Empty);
        } else {
            assert(s.eliminated_cells()[(0, r)] == Type::Empty);
        }
    }
}

/// Writing a piece into a field without full rows can fill only rows that the piece's
/// box covers.
pub proof fn lemma_merge_fills_box_rows(s: StackView, piece: Piece, x: int, y: int)
    requires
        no_full_row(s.cells, s.width, s.height),
    ensures
        forall|r: int| 0 <= r < s.height && #[trigger] row_full(s.merged_cells(piece, x, y), s.width, r) ==> y <= r < y + 4,
{
    assert forall|r: int| 0 <= r < s.height && #[trigger] row_full(s.merged_cells(piece, x, y), s.width, r) implies y <= r < y + 4 by {
        if !(y <= r < y + 4) {
            assert(!row_full(s.cells, s.width, r));
            let x0 = choose|xx: int| 0 <= xx < s.width && s.cells[(xx, r)] == Type::Empty;
            assert(!piece.block(x0 - x, r - y));
            assert(s.merged_cells(piece, x, y)[(x0, r)] == Type::Empty);
        }
    }
}

impl Stack {
    #[verifier::type_invariant]
    spec fn inv(self) -> bool {
        &&& 0 <= self.width
        &&& 0 <= self.height
        &&& self.blocks.w() == self.width
        &&& self.blocks.h() == self.height
    }

    /// Number of columns.
    pub closed spec fn w(&self) -> int {
        self.width as int
    }

    /// Number of rows.
    pub closed spec fn h(&self) -> int {
        self.height as int
    }

    /// How many times the stack was changed by `merge` or `eliminate` since `new`.
    pub closed spec fn spec_generation(&self) -> int {
        self.generation as int
    }

    /// The blocks, keyed by (column, row); exactly the cells of the `w()` by `h()` rectangle.
    pub closed spec fn cells(&self) -> Map<(int, int), Type> {
        self.blocks.cells()
    }

    /// An empty field of `width` columns and `height` rows.
    pub fn new(width: usize, height: usize) -> (result: Self)
        requires
            width <= i32::MAX,
            height <= i32::MAX,
            width * height <= usize::MAX,
        ensures
            result.w() == width,
            result.h() == height,
            result.spec_generation() == 0,
            result.cells() == Array2D::filled(width as nat, height as nat, Type::Empty),
    {
        Stack {
            generation: 0,
            width: width as i32,
            height: height as i32,
            blocks: Array2D::new(width, height, Type::Empty),
        }
    }

    pub fn blocks(&self) -> (result: &Array2D<Type>)
        ensures
            result.w() == self.w(),
            result.h() == self.h(),
            result.cells() == self.cells(),
    {
        proof {
            use_type_invariant(self);
        }
        &self.blocks
    }

    pub fn width(&self) -> (result: i32)
        ensures
            result == self.w(),
            result >= 0,
    {
        proof {
            use_type_invariant(self);
        }
        self.width
    }

    pub fn height(&self) -> (result: i32)
        ensures
            result == self.h(),
            result >= 0,
    {
        proof {
            use_type_invariant(self);
        }
        self.height
    }

    pub fn generation(&self) -> (result: i32)
        ensures
            result == self.spec_generation(),
    {
        self.generation
    }

    /// A block-for-block copy.
    pub fn copy(&self) -> (result: Self)
        ensures
            result.w() == self.w(),
            result.h() == self.h(),
            result.spec_generation() == self.spec_generation(),
            result.cells() == self.cells(),
    {
        proof {
            use_type_invariant(self);
        }
        Stack { generation: self.generation, width: self.width, height: self.height, blocks: self.blocks.copy() }
    }

    /// Whether `piece` at (`x`, `y`) fits the field (see `fits_at`).
    pub fn fits(&self, piece: Piece, x: i32, y: i32) -> (result: bool)
        requires
            x <= i32::MAX - 3,
            y <= i32::MAX - 3,
        ensures
            result == self@.fits_at(piece, x as int, y as int),
    {
        proof {
            use_type_invariant(self);
        }
        let blocks = piece.blocks();
        let mut i: usize = 0;
        while i < 4
            invariant
                i <= 4,
                x <= i32::MAX - 3,
                y <= i32::MAX - 3,
                blocks@ == crate::piece::shape(piece.spec_type(), piece.spec_orientation()),
                self.blocks.w() == self.width,
                self.blocks.h() == self.height,
                0 <= self.width,
                0 <= self.height,
                forall|a: int, b: int|
                    0 <= a < i && #[trigger] piece.block(a, b) ==> {
                        &&& 0 <= x + a < self.w()
                        &&& 0 <= y + b
                        &&& (y + b < self.h() ==> self@.cell(x + a, y + b) == Type::Empty)
                    },
            decreases 4 - i,
        {
            let xi = x + i as i32;
            let mut j: usize = 0;
            while j < 4
                invariant
                    i < 4,
                    j <= 4,
                    xi == x + i,
                    y <= i32::MAX - 3,
                    blocks@ == crate::piece::shape(piece.spec_type(), piece.spec_orientation()),
                    self.blocks.w() == self.width,
                    self.blocks.h() == self.height,
                    0 <= self.width,
                    0 <= self.height,
                    forall|a: int, b: int|
                        (0 <= a < i || (a == i && b < j)) && #[trigger] piece.block(a, b) ==> {
                            &&& 0 <= x + a < self.w()
                            &&& 0 <= y + b
                            &&& (y + b < self.h() ==> self@.cell(x + a, y + b) == Type::Empty)
                        },
                decreases 4 - j,
            {
                let yj = y + j as i32;
                if blocks[4 * j + i] {
                    assert(piece.block(i as int, j as int));
                    if xi < 0 || xi >= self.width || yj < 0 {
                        return false;
                    }
                    if yj < self.height && *self.blocks.at(xi as usize, yj as usize) != Type::Empty {
                        return false;
                    }
                }
                j = j + 1;
            }
            i = i + 1;
        }
        true
    }

    /// The field with `piece` at (`x`, `y`) written into it (see `merged_cells`).
    pub fn merge(&self, piece: Piece, x: i32, y: i32) -> (result: Self)
        requires
            x <= i32::MAX - 3,
            y <= i32::MAX - 3,
            self.spec_generation() < i32::MAX,
        ensures
            result.w() == self.w(),
            result.h() == self.h(),
            result.spec_generation() == self.spec_generation() + 1,
            result.cells() == self@.merged_cells(piece, x as int, y as int),
    {
        proof {
            use_type_invariant(self);
        }
        let piece_blocks = piece.blocks();
        let mut blocks = self.blocks.copy();
        let tp = piece.get_type();
        let ghost old_cells = self.cells();
        proof {
            self.blocks.lemma_domain();
        }
        assert(blocks.cells() =~= Map::new(
            |p: (int, int)| in_rect(p, self.w(), self.h()),
            |p: (int, int)| if p.0 - x < 0 && piece.block(p.0 - x, p.1 - y) { tp } else { old_cells[p] },
        ));
        let mut i: usize = 0;
        while i < 4
            invariant
                i <= 4,
                x <= i32::MAX - 3,
                y <= i32::MAX - 3,
                piece_blocks@ == crate::piece::shape(piece.spec_type(), piece.spec_orientation()),
                tp == piece.spec_type(),
                old_cells == self.cells(),
                blocks.w() == self.width,
                blocks.h() == self.height,
                0 <= self.width,
                0 <= self.height,
                blocks.cells() == Map::new(
                    |p: (int, int)| in_rect(p, self.w(), self.h()),
                    |p: (int, int)| if p.0 - x < i && piece.block(p.0 - x, p.1 - y) { tp } else { old_cells[p] },
                ),
            decreases 4 - i,
        {
            let xi = x + i as i32;
            let mut j: usize = 0;
            while j < 4
                invariant
                    i < 4,
                    j <= 4,
                    xi == x + i,
                    y <= i32::MAX - 3,
                    piece_blocks@ == crate::piece::shape(piece.spec_type(), piece.spec_orientation()),
                    tp == piece.spec_type(),
                    old_cells == self.cells(),
                    blocks.w() == self.width,
                    blocks.h() == self.height,
                    0 <= self.width,
                    0 <= self.height,
                    blocks.cells() == Map::new(
                        |p: (int, int)| in_rect(p, self.w(), self.h()),
                        |p: (int, int)|
                            if (p.0 - x < i || (p.0 - x == i && p.1 - y < j)) && piece.block(p.0 - x, p.1 - y) {
                                tp
                            } else {
                                old_cells[p]
                            },
                    ),
                decreases 4 - j,
            {
                let yj = y + j as i32;
                let ghost before = blocks.cells();
                if piece_blocks[4 * j + i] {
                    if xi >= 0 && xi < self.width && yj >= 0 && yj < self.height {
                        blocks.set(xi as usize, yj as usize, tp);
                    }
                }
                assert(blocks.cells() =~= Map::new(
                    |p: (int, int)| in_rect(p, self.w(), self.h()),
                    |p: (int, int)|
                        if (p.0 - x < i || (p.0 - x == i && p.1 - y < j + 1)) && piece.block(p.0 - x, p.1 - y) {
                            tp
                        } else {
                            old_cells[p]
                        },
                ));
                j = j + 1;
            }
            assert(blocks.cells() =~= Map::new(
                |p: (int, int)| in_rect(p, self.w(), self.h()),
                |p: (int, int)| if p.0 - x < i + 1 && piece.block(p.0 - x, p.1 - y) { tp } else { old_cells[p] },
            ));
            i = i + 1;
        }
        assert(blocks.cells() =~= self@.merged_cells(piece, x as int, y as int));
        Stack { generation: self.generation + 1, width: self.width, height: self.height, blocks }
    }
    /// Removes every full row; the rows above each one fall down, empty rows fill the
    /// top. Returns the new field and the removed rows, from the top down.
    pub fn eliminate(&self) -> (result: (Self, Vec<i32>))
        requires
            self.spec_generation() < i32::MAX,
        ensures
            result.0.w() == self.w(),
            result.0.h() == self.h(),
            result.0.spec_generation() == self.spec_generation() + 1,
            result.0.cells() == self@.eliminated_cells(),
            result.1@ == self@.full_rows().map_values(|r: int| r as i32),
    {
        proof {
            use_type_invariant(self);
            self.blocks.lemma_domain();
        }
        let width = self.width;
        let height = self.height;
        let ghost w = width as int;
        let ghost h = height as int;
        let ghost old_cells = self.cells();
        let mut blocks = self.blocks.copy();
        let mut rows: Vec<i32> = Vec::new();
        proof {
            lemma_compacted_top(old_cells, w, h);
        }
        let mut jj: i32 = height;
        while jj > 0
            invariant
                0 <= jj <= height,
                width == w,
                height == h,
                0 <= w,
                blocks.w() == w,
                blocks.h() == h,
                old_cells == self.cells(),
                forall|p: (int, int)| #[trigger] old_cells.dom().contains(p) <==> in_rect(p, w, h),
                blocks.cells() == compacted(old_cells, w, h, jj as int),
                rows@ == full_rows(old_cells, w, jj as int, h).map_values(|r: int| r as i32),
            decreases jj,
        {
            let j = jj - 1;
            // is row j full? (row j still holds row j as it was)
            let mut full = true;
            let mut x: i32 = 0;
            while x < width
                invariant
                    0 <= x <= width,
                    0 <= j < height,
                    width == w,
                    height == h,
                    blocks.w() == w,
                    blocks.h() == h,
                    blocks.cells() == compacted(old_cells, w, h, j + 1),
                    full == (forall|a: int| 0 <= a < x ==> #[trigger] old_cells[(a, j as int)] != Type::Empty),
                decreases width - x,
            {
                let b = *blocks.at(x as usize, j as usize);
                assert(b == old_cells[(x as int, j as int)]);
                if b == Type::Empty {
                    full = false;
                }
                x = x + 1;
            }
            assert(full == row_full(old_cells, w, j as int));
            if full {
                let ghost cur = blocks.cells();
                let mut x: i32 = 0;
                while x < width
                    invariant
                        0 <= x <= width,
                        0 <= j < height,
                        width == w,
                        height == h,
                        blocks.w() == w,
                        blocks.h() == h,
                        forall|p: (int, int)| #[trigger] cur.dom().contains(p) <==> in_rect(p, w, h),
                        blocks.cells() == Map::new(
                            |p: (int, int)| in_rect(p, w, h),
                            |p: (int, int)| if p.0 < x { row_removed(cur, w, h, j as int)[p] } else { cur[p] },
                        ),
                    decreases width - x,
                {
                    let mut y: i32 = j;
                    while y < height - 1
                        invariant
                            0 <= x < width,
                            0 <= j <= y <= height - 1,
                            width == w,
                            height == h,
                            blocks.w() == w,
                            blocks.h() == h,
                            forall|p: (int, int)| #[trigger] cur.dom().contains(p) <==> in_rect(p, w, h),
                            blocks.cells() == Map::new(
                                |p: (int, int)| in_rect(p, w, h),
                                |p: (int, int)|
                                    if p.0 < x || (p.0 == x && j <= p.1 < y) {
                                        row_removed(cur, w, h, j as int)[p]
                                    } else {
                                        cur[p]
                                    },
                            ),
                        decreases height - y,
                    {
                        let above = *blocks.at(x as usize, (y + 1) as usize);
                        blocks.set(x as usize, y as usize, above);
                        assert(blocks.cells() =~= Map::new(
                            |p: (int, int)| in_rect(p, w, h),
                            |p: (int, int)|
                                if p.0 < x || (p.0 == x && j <= p.1 < y + 1) {
                                    row_removed(cur, w, h, j as int)[p]
                                } else {
                                    cur[p]
                                },
                        ));
                        y = y + 1;
                    }
                    blocks.set(x as usize, (height - 1) as usize, Type::Empty);
                    assert(blocks.cells() =~= Map::new(
                        |p: (int, int)| in_rect(p, w, h),
                        |p: (int, int)| if p.0 < x + 1 { row_removed(cur, w, h, j as int)[p] } else { cur[p] },
                    ));
                    x = x + 1;
                }
                proof {
                    lemma_remove_full_row(old_cells, w, h, j as int);
                }
                assert(blocks.cells() =~= compacted(old_cells, w, h, j as int));
                rows.push(j);
            } else {
                proof {
                    lemma_keep_row(old_cells, w, h, j as int);
                }
            }
            proof {
                assert(full_rows(old_cells, w, j as int, h) == full_rows(old_cells, w, j + 1, h) + (if row_full(old_cells, w, j as int) { seq![j as int] } else { Seq::<int>::empty() }));
                assert(rows@ =~= full_rows(old_cells, w, j as int, h).map_values(|r: int| r as i32));
            }
            jj = j;
        }
        (Stack { generation: self.generation + 1, width, height, blocks }, rows)
    }
}

/// Above the top row nothing is compacted: the cells are unchanged.
proof fn lemma_compacted_top(cells: Map<(int, int), Type>, w: int, h: int)
    requires
        0 <= h,
        forall|p: (int, int)| #[trigger] cells.dom().contains(p) <==> in_rect(p, w, h),
    ensures
        compacted(cells, w, h, h) == cells,
{
    assert(compacted(cells, w, h, h) =~= cells);
}

/// Removing full row `j` from the field compacted above `j` compacts it from `j`.
proof fn lemma_remove_full_row(cells: Map<(int, int), Type>, w: int, h: int, j: int)
    requires
        0 <= j < h,
        row_full(cells, w, j),
        forall|p: (int, int)| #[trigger] cells.dom().contains(p) <==> in_rect(p, w, h),
    ensures
        row_removed(compacted(cells, w, h, j + 1), w, h, j) == compacted(cells, w, h, j),
{
    lemma_kept_len(cells, w, j + 1, h);
    assert(kept_rows(cells, w, j, h) =~= kept_rows(cells, w, j + 1, h));
    assert(row_removed(compacted(cells, w, h, j + 1), w, h, j) =~= compacted(cells, w, h, j));
}

/// A row that is not full stays where it is when compacting from it.
proof fn lemma_keep_row(cells: Map<(int, int), Type>, w: int, h: int, j: int)
    requires
        0 <= j < h,
        !row_full(cells, w, j),
    ensures
        compacted(cells, w, h, j + 1) == compacted(cells, w, h, j),
{
    let k1 = kept_rows(cells, w, j + 1, h);
    assert(kept_rows(cells, w, j, h) =~= seq![j] + k1);
    assert(compacted(cells, w, h, j + 1) =~= compacted(cells, w, h, j));
}

/// Writing a piece where it fits keeps every block of the field, and puts the piece's
/// type on every cell of the field that the piece covers.
pub proof fn lemma_merge_keeps_blocks(s: StackView, piece: Piece, x: int, y: int)
    requires
        s.fits_at(piece, x, y),
    ensures
        forall|p: (int, int)|
            in_rect(p, s.width, s.height) && s.cells[p] != Type::Empty ==> #[trigger] s.merged_cells(piece, x, y)[p] == s.cells[p],
        forall|i: int, j: int|
            #[trigger] piece.block(i, j) && y + j < s.height ==> s.merged_cells(piece, x, y)[(x + i, y + j)] == piece.spec_type(),
{
    assert forall|p: (int, int)| in_rect(p, s.width, s.height) && s.cells[p] != Type::Empty implies #[trigger] s.merged_cells(piece, x, y)[p] == s.cells[p] by {
        if piece.block(p.0 - x, p.1 - y) {
            assert(s.cell(x + (p.0 - x), y + (p.1 - y)) == Type::Empty);
        }
    }
}

/// Once a tetromino with a block inside the field is written into it, it does not
/// fit at that place any more: the field remembers the piece.
pub proof fn lemma_merged_piece_blocks_its_place(s: StackView, piece: Piece, x: int, y: int, i: int, j: int)
    requires
        piece.spec_type() != Type::Empty,
        piece.block(i, j),
        0 <= x + i < s.width,
        0 <= y + j < s.height,
    ensures
        !(StackView { width: s.width, height: s.height, generation: s.generation + 1, cells: s.merged_cells(piece, x, y) }).fits_at(piece, x, y),
{
    let m = StackView { width: s.width, height: s.height, generation: s.generation + 1, cells: s.merged_cells(piece, x, y) };
    assert(m.cell(x + i, y + j) == piece.spec_type());
}

/// Every row of the field is either kept or removed by `eliminate`.
pub proof fn lemma_rows_partition(cells: Map<(int, int), Type>, width: int, lo: int, hi: int)
    requires
        lo <= hi,
    ensures
        kept_rows(cells, width, lo, hi).len() + full_rows(cells, width, lo, hi).len() == hi - lo,
    decreases hi - lo,
{
    if lo < hi {
        lemma_rows_partition(cells, width, lo + 1, hi);
    }
}

} // verus!
