use vstd::prelude::*;

verus! {

/// A dense two-dimensional grid, stored row by row.
pub struct Array2D<T: Copy> {
    width: usize,
    height: usize,
    data: Vec<T>,
}

/// `x + width * y` stays below `width * height` for a cell inside the grid.
pub proof fn lemma_index_in_bounds(x: int, y: int, width: int, height: int)
    requires
        0 <= x < width,
        0 <= y < height,
    ensures
        0 <= x + width * y < width * height,
{
    assert(width * y <= width * (height - 1)) by (nonlinear_arith)
        requires
            0 <= y < height,
            0 < width,
    ;
    assert(width * (height - 1) == width * height - width) by (nonlinear_arith);
    assert(0 <= width * y) by (nonlinear_arith)
        requires
            0 <= y,
            0 < width,
    ;
}

/// Two distinct cells of the grid have distinct positions in the storage.
pub proof fn lemma_index_injective(x1: int, y1: int, x2: int, y2: int, width: int)
    requires
        0 <= x1 < width,
        0 <= x2 < width,
        0 <= y1,
        0 <= y2,
        x1 + width * y1 == x2 + width * y2,
    ensures
        x1 == x2,
        y1 == y2,
{
    if y1 < y2 {
        assert(width * y1 + width <= width * y2) by (nonlinear_arith)
            requires
                y1 < y2,
                0 < width,
        ;
    } else if y2 < y1 {
        assert(width * y2 + width <= width * y1) by (nonlinear_arith)
            requires
                y2 < y1,
                0 < width,
        ;
    }
}

impl<T: Copy> Array2D<T> {
    #[verifier::type_invariant]
    spec fn inv(self) -> bool {
        self.data.len() == self.width * self.height
    }

    /// Number of columns.
    pub closed spec fn w(&self) -> nat {
        self.width as nat
    }

    /// Number of rows.
    pub closed spec fn h(&self) -> nat {
        self.height as nat
    }

    /// The cells of the grid, keyed by (column, row).
    pub closed spec fn cells(&self) -> Map<(int, int), T> {
        Map::new(
            |p: (int, int)| 0 <= p.0 < self.width && 0 <= p.1 < self.height,
            |p: (int, int)| self.data@[p.0 + self.width * p.1],
        )
    }

    /// The cell in column `x` and row `y`.
    pub open spec fn cell(&self, x: int, y: int) -> T {
        self.cells()[(x, y)]
    }

    /// The rectangle of `width` by `height` cells, all holding `value`.
    pub open spec fn filled(width: nat, height: nat, value: T) -> Map<(int, int), T> {
        Map::new(|p: (int, int)| 0 <= p.0 < width && 0 <= p.1 < height, |p: (int, int)| value)
    }

    /// Every cell of the grid lies in its `w()` by `h()` rectangle.
    pub proof fn lemma_domain(&self)
        ensures
            forall|p: (int, int)| #[trigger] self.cells().dom().contains(p) <==> (0 <= p.0 < self.w() && 0 <= p.1 < self.h()),
    {
    }

    /// Creates a grid of `w` by `h` cells, each holding `default`.
    pub fn new(w: usize, h: usize, default: T) -> (result: Self)
        requires
            w * h <= usize::MAX,
        ensures
            result.w() == w,
            result.h() == h,
            result.cells() == Self::filled(w as nat, h as nat, default),
    {
        let n: usize = w * h;
        let mut data: Vec<T> = Vec::new();
        let mut k: usize = 0;
        while k < n
            invariant
                k <= n,
                data@.len() == k,
                forall|i: int| 0 <= i < k ==> data@[i] == default,
            decreases n - k,
        {
            data.push(default);
            k = k + 1;
        }
        let result = Array2D { width: w, height: h, data };
        assert forall|x: int, y: int| 0 <= x < w && 0 <= y < h implies #[trigger] result.data@[x + w * y] == default by {
            lemma_index_in_bounds(x, y, w as int, h as int);
        }
        assert(result.cells() =~= Self::filled(w as nat, h as nat, default));
        result
    }

    pub fn width(&self) -> (result: usize)
        ensures
            result == self.w(),
    {
        self.width
    }

    pub fn height(&self) -> (result: usize)
        ensures
            result == self.h(),
    {
        self.height
    }

    /// Calls `functor(x, y, &cell)` for every cell, row by row from row 0, each
    /// row from column 0; coordinates are handed over as `i32`, truncated as by `as`.
    /// Each cell's call takes place and ends as `functor`'s contract says.
    pub fn for_each<F: FnMut(i32, i32, &T)>(&self, functor: &mut F)
        requires
            forall|f: F, x: i32, y: i32, v: &T| call_requires(f, (x, y, v)),
        ensures
            forall|x: int, y: int|
                0 <= x < self.w() && 0 <= y < self.h() ==> call_ensures(
                    *old(functor),
                    (x as i32, y as i32, &#[trigger] self.cell(x, y)),
                    (),
                ),
    {
        proof {
            use_type_invariant(self);
        }
        let mut j: usize = 0;
        while j < self.height
            invariant
                j <= self.height,
                self.data.len() == self.width * self.height,
                forall|f: F, x: i32, y: i32, v: &T| call_requires(f, (x, y, v)),
                *functor == *old(functor),
                forall|x: int, y: int|
                    0 <= x < self.w() && 0 <= y < j ==> call_ensures(
                        *old(functor),
                        (x as i32, y as i32, &#[trigger] self.cell(x, y)),
                        (),
                    ),
            decreases self.height - j,
        {
            let mut i: usize = 0;
            while i < self.width
                invariant
                    i <= self.width,
                    j < self.height,
                    self.data.len() == self.width * self.height,
                    forall|f: F, x: i32, y: i32, v: &T| call_requires(f, (x, y, v)),
                    *functor == *old(functor),
                    forall|x: int, y: int|
                        (0 <= x < self.w() && 0 <= y < j) || (0 <= x < i && y == j) ==> call_ensures(
                            *old(functor),
                            (x as i32, y as i32, &#[trigger] self.cell(x, y)),
                            (),
                        ),
                decreases self.width - i,
            {
                proof {
                    lemma_index_in_bounds(i as int, j as int, self.width as int, self.height as int);
                }
                let idx = i + self.width * j;
                functor(i as i32, j as i32, &self.data[idx]);
                proof {
                    assert(self.cell(i as int, j as int) == self.data@[idx as int]);
                }
                i = i + 1;
            }
            j = j + 1;
        }
    }

    /// The cell in column `x` and row `y`.
    pub fn at(&self, x: usize, y: usize) -> (result: &T)
        requires
            x < self.w(),
            y < self.h(),
        ensures
            *result == self.cell(x as int, y as int),
    {
        proof {
            use_type_invariant(self);
            lemma_index_in_bounds(x as int, y as int, self.width as int, self.height as int);
        }
        let idx = x + self.width * y;
        &self.data[idx]
    }

    /// A mutable handle on the cell in column `x` and row `y`.
    pub fn at_mut(&mut self, x: usize, y: usize) -> (result: &mut T)
        requires
            x < old(self).w(),
            y < old(self).h(),
        ensures
            *result == old(self).cell(x as int, y as int),
            final(self).w() == old(self).w(),
            final(self).h() == old(self).h(),
            final(self).cells() == old(self).cells().insert((x as int, y as int), *final(result)),
        no_unwind
    {
        proof {
            use_type_invariant(&*self);
            lemma_index_in_bounds(x as int, y as int, self.width as int, self.height as int);
        }
        let idx = x + self.width * y;
        proof {
            assert forall|i: int, j: int|
                0 <= i < self.w() && 0 <= j < self.h() && (i != x || j != y)
                implies 0 <= #[trigger] (i + self.width * j) < self.data@.len() && i + self.width * j != idx by {
                lemma_index_in_bounds(i, j, self.width as int, self.height as int);
                if i + self.width * j == idx {
                    lemma_index_injective(i, j, x as int, y as int, self.width as int);
                }
            }
        }
        &mut self.data[idx]
    }

    /// Replaces the cell in column `x` and row `y` by `value`.
    pub fn set(&mut self, x: usize, y: usize, value: T)
        requires
            x < old(self).w(),
            y < old(self).h(),
        ensures
            final(self).w() == old(self).w(),
            final(self).h() == old(self).h(),
            final(self).cells() == old(self).cells().insert((x as int, y as int), value),
    {
        proof {
            use_type_invariant(&*self);
            lemma_index_in_bounds(x as int, y as int, self.width as int, self.height as int);
        }
        let idx = x + self.width * y;
        let ghost before = *self;
        self.data[idx] = value;
        proof {
            assert forall|i: int, j: int| 0 <= i < self.w() && 0 <= j < self.h() && (i != x || j != y) implies #[trigger] self.data@[i + self.width * j] == before.data@[i + self.width * j] by {
                lemma_index_in_bounds(i, j, self.width as int, self.height as int);
                if i + self.width * j == idx {
                    lemma_index_injective(i, j, x as int, y as int, self.width as int);
                }
            }
            assert(self.cells() =~= before.cells().insert((x as int, y as int), value));
        }
    }

    /// A cell-for-cell copy of the grid.
    pub fn copy(&self) -> (result: Self)
        ensures
            result.w() == self.w(),
            result.h() == self.h(),
            result.cells() == self.cells(),
    {
        proof {
            use_type_invariant(self);
        }
        let n = self.data.len();
        let mut data: Vec<T> = Vec::new();
        let mut k: usize = 0;
        while k < n
            invariant
                k <= n,
                n == self.data@.len(),
                data@.len() == k,
                forall|i: int| 0 <= i < k ==> data@[i] == self.data@[i],
            decreases n - k,
        {
            data.push(self.data[k]);
            k = k + 1;
        }
        let result = Array2D { width: self.width, height: self.height, data };
        assert forall|x: int, y: int| 0 <= x < self.w() && 0 <= y < self.h() implies #[trigger] result.data@[x + self.width * y] == self.data@[x + self.width * y] by {
            lemma_index_in_bounds(x, y, self.width as int, self.height as int);
        }
        assert(result.cells() =~= self.cells());
        result
    }
}

} // verus!
