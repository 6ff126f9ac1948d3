use vstd::prelude::*;
use vstd::arithmetic::power2::{pow2, lemma2_to64, lemma_pow2_unfold};

use crate::array2d::Array2D;

verus! {

/// `v` kept within `lo..=hi`.
pub open spec fn clamp(v: int, lo: int, hi: int) -> int {
    if v < lo {
        lo
    } else if v > hi {
        hi
    } else {
        v
    }
}

/// The 16-bit texture coordinate of vertex column (or row) `i` of a plate `size`
/// quads wide: the centre of texel `i`, clamped to the plate's own texels, of a
/// texture `size + 3` texels wide, scaled to `0..0x7fff * 2`.
pub open spec fn plate_coord(size: int, i: int) -> int {
    (2 * clamp(i, 1, size + 1) + 1) * 32767 / (size + 3)
}

/// Vertex coordinates for a plate `size` quads wide with its ribbon ring, row by
/// row: for vertex (`i`, `j`) the pair `plate_coord(i)`, `plate_coord(j)`.
pub fn generate_plate_coords(size: i32) -> (result: Vec<u16>)
    requires
        0 <= size <= 32767,
    ensures
        result@.len() == 2 * (size + 3) * (size + 3),
        forall|j: int, i: int|
            0 <= j < size + 3 && 0 <= i < size + 3 ==> {
                &&& #[trigger] result@[2 * (j * (size + 3) + i)] == plate_coord(size as int, i)
                &&& result@[2 * (j * (size + 3) + i) + 1] == plate_coord(size as int, j)
            },
{
    let n = size + 3;
    let mut tile_coords: Vec<u16> = Vec::new();
    let mut j: i32 = 0;
    while j < n
        invariant
            0 <= size <= 32767,
            n == size + 3,
            0 <= j <= n,
            tile_coords@.len() == 2 * j * n,
            forall|jj: int, i: int|
                0 <= jj < j && 0 <= i < n ==> {
                    &&& #[trigger] tile_coords@[2 * (jj * n + i)] == plate_coord(size as int, i)
                    &&& tile_coords@[2 * (jj * n + i) + 1] == plate_coord(size as int, jj)
                },
        decreases n - j,
    {
        let jc = if j < 1 { 1 } else if j > size + 1 { size + 1 } else { j };
        assert(0 <= (2 * jc + 1) * 32767 <= 65537 * 32767) by (nonlinear_arith)
            requires
                1 <= jc <= size + 1,
                size <= 32767,
        ;
        let y = (2 * jc + 1) * 0x7FFF / n;
        assert(y < 65536) by (nonlinear_arith)
            requires
                y == (2 * jc + 1) * 32767 / (n as int),
                jc <= n - 2,
                n >= 3,
        ;
        let ghost row_start = tile_coords@.len();
        let mut i: i32 = 0;
        while i < n
            invariant
                0 <= size <= 32767,
                n == size + 3,
                0 <= j < n,
                0 <= i <= n,
                jc == clamp(j as int, 1, size + 1),
                y == plate_coord(size as int, j as int),
                0 <= y < 65536,
                row_start == 2 * j * n,
                tile_coords@.len() == 2 * j * n + 2 * i,
                forall|jj: int, ii: int|
                    0 <= jj < j && 0 <= ii < n ==> {
                        &&& #[trigger] tile_coords@[2 * (jj * n + ii)] == plate_coord(size as int, ii)
                        &&& tile_coords@[2 * (jj * n + ii) + 1] == plate_coord(size as int, jj)
                    },
                forall|ii: int|
                    0 <= ii < i ==> {
                        &&& #[trigger] tile_coords@[2 * (j * n + ii)] == plate_coord(size as int, ii)
                        &&& tile_coords@[2 * (j * n + ii) + 1] == plate_coord(size as int, j as int)
                    },
            decreases n - i,
        {
            let ic = if i < 1 { 1 } else if i > size + 1 { size + 1 } else { i };
            assert(0 <= (2 * ic + 1) * 32767 <= 65537 * 32767) by (nonlinear_arith)
                requires
                    1 <= ic <= size + 1,
                    size <= 32767,
            ;
            let x = (2 * ic + 1) * 0x7FFF / n;
            assert(x < 65536) by (nonlinear_arith)
                requires
                    x == (2 * ic + 1) * 32767 / (n as int),
                    ic <= n - 2,
                    n >= 3,
            ;
            let ghost before = tile_coords@;
            tile_coords.push(x as u16);
            tile_coords.push(y as u16);
            proof {
                assert(2 * (j * n + i) == 2 * j * n + 2 * i) by (nonlinear_arith);
                assert forall|jj: int, ii: int| 0 <= jj < j && 0 <= ii < n implies {
                    &&& #[trigger] tile_coords@[2 * (jj * n + ii)] == plate_coord(size as int, ii)
                    &&& tile_coords@[2 * (jj * n + ii) + 1] == plate_coord(size as int, jj)
                } by {
                    assert(2 * (jj * n + ii) + 1 < 2 * j * n) by (nonlinear_arith)
                        requires
                            0 <= jj < j,
                            0 <= ii < n,
                    ;
                    assert(tile_coords@[2 * (jj * n + ii)] == before[2 * (jj * n + ii)]);
                    assert(tile_coords@[2 * (jj * n + ii) + 1] == before[2 * (jj * n + ii) + 1]);
                }
                assert forall|ii: int| 0 <= ii < i + 1 implies {
                    &&& #[trigger] tile_coords@[2 * (j * n + ii)] == plate_coord(size as int, ii)
                    &&& tile_coords@[2 * (j * n + ii) + 1] == plate_coord(size as int, j as int)
                } by {
                    assert(2 * (j * n + ii) == 2 * j * n + 2 * ii) by (nonlinear_arith);
                    if ii < i {
                        assert(tile_coords@[2 * (j * n + ii)] == before[2 * (j * n + ii)]);
                        assert(tile_coords@[2 * (j * n + ii) + 1] == before[2 * (j * n + ii) + 1]);
                    }
                }
            }
            i = i + 1;
        }
        proof {
            assert(2 * j * n + 2 * n == 2 * (j + 1) * n) by (nonlinear_arith);
        }
        j = j + 1;
    }
    proof {
        assert(2 * n * n == 2 * (size + 3) * (size + 3));
    }
    tile_coords
}

/// Whether column (or row) `i` of cells of a plate `size` quads wide lies in the
/// ribbon ring.
pub open spec fn is_ring(size: int, i: int) -> bool {
    i == 0 || i == size + 1
}

/// The two triangles of cell (`i`, `j`) of a grid `w` vertices wide.
pub open spec fn cell_triangles(w: int, i: int, j: int) -> Seq<u16> {
    let i00 = i + j * w;
    let i01 = i + (j + 1) * w;
    let i10 = i + 1 + j * w;
    let i11 = i + 1 + (j + 1) * w;
    seq![i00 as u16, i01 as u16, i11 as u16, i00 as u16, i11 as u16, i10 as u16]
}

/// The three wireframe lines of cell (`i`, `j`) of a grid `w` vertices wide.
pub open spec fn cell_lines(w: int, i: int, j: int) -> Seq<u16> {
    let i00 = i + j * w;
    let i01 = i + (j + 1) * w;
    let i10 = i + 1 + j * w;
    let i11 = i + 1 + (j + 1) * w;
    seq![i00 as u16, i01 as u16, i00 as u16, i11 as u16, i00 as u16, i10 as u16]
}

/// The triangles of the first `j` cells of column `i`: every cell but the four
/// corners of the ring.
pub open spec fn column_triangles(size: int, i: int, j: int) -> Seq<u16>
    decreases j,
{
    if j <= 0 {
        Seq::empty()
    } else {
        column_triangles(size, i, j - 1) + if is_ring(size, i) && is_ring(size, j - 1) {
            Seq::empty()
        } else {
            cell_triangles(size + 3, i, j - 1)
        }
    }
}

/// The wireframe of the first `j` cells of column `i`: the plate's own cells only.
pub open spec fn column_lines(size: int, i: int, j: int) -> Seq<u16>
    decreases j,
{
    if j <= 0 {
        Seq::empty()
    } else {
        column_lines(size, i, j - 1) + if !is_ring(size, i) && !is_ring(size, j - 1) {
            cell_lines(size + 3, i, j - 1)
        } else {
            Seq::empty()
        }
    }
}

/// The triangles of the first `i` columns.
pub open spec fn plate_triangles(size: int, i: int) -> Seq<u16>
    decreases i,
{
    if i <= 0 {
        Seq::empty()
    } else {
        plate_triangles(size, i - 1) + column_triangles(size, i - 1, size + 2)
    }
}

/// The wireframe of the first `i` columns.
pub open spec fn plate_lines(size: int, i: int) -> Seq<u16>
    decreases i,
{
    if i <= 0 {
        Seq::empty()
    } else {
        plate_lines(size, i - 1) + column_lines(size, i - 1, size + 2)
    }
}

/// Appends the triangles and the wireframe of cell (`i`, `j`) (see
/// `column_triangles` and `column_lines`).
fn push_cell(triangles: &mut Vec<u16>, wireframe: &mut Vec<u16>, size: usize, i: usize, j: usize)
    requires
        size <= 60000,
        i < size + 2,
        j < size + 2,
    ensures
        final(triangles)@ == old(triangles)@ + if is_ring(size as int, i as int) && is_ring(size as int, j as int) {
            Seq::<u16>::empty()
        } else {
            cell_triangles(size + 3, i as int, j as int)
        },
        final(wireframe)@ == old(wireframe)@ + if !is_ring(size as int, i as int) && !is_ring(size as int, j as int) {
            cell_lines(size + 3, i as int, j as int)
        } else {
            Seq::<u16>::empty()
        },
{
    let w = size + 3;
    let i_edge = (i == 0) || (i == size + 1);
    let j_edge = (j == 0) || (j == size + 1);
    proof {
        assert((i + 1) + (j + 1) * w < 60004 * 60004 && 0 <= j * w <= (j + 1) * w && (j + 1) * w == j * w + w) by (nonlinear_arith)
            requires
                i < size + 2,
                j < size + 2,
                w == size + 3,
                size <= 60000,
        ;
    }
    let i00 = i + j * w;
    let i01 = i + (j + 1) * w;
    let i10 = (i + 1) + j * w;
    let i11 = (i + 1) + (j + 1) * w;
    if !i_edge || !j_edge {
        triangles.push(i00 as u16);
        triangles.push(i01 as u16);
        triangles.push(i11 as u16);
        triangles.push(i00 as u16);
        triangles.push(i11 as u16);
        triangles.push(i10 as u16);
    }
    if !i_edge && !j_edge {
        wireframe.push(i00 as u16);
        wireframe.push(i01 as u16);
        wireframe.push(i00 as u16);
        wireframe.push(i11 as u16);
        wireframe.push(i00 as u16);
        wireframe.push(i10 as u16);
    }
    proof {
        if !i_edge || !j_edge {
            assert(triangles@ =~= old(triangles)@ + cell_triangles(w as int, i as int, j as int));
        } else {
            assert(triangles@ =~= old(triangles)@ + Seq::<u16>::empty());
        }
        if !i_edge && !j_edge {
            assert(wireframe@ =~= old(wireframe)@ + cell_lines(w as int, i as int, j as int));
        } else {
            assert(wireframe@ =~= old(wireframe)@ + Seq::<u16>::empty());
        }
    }
}

/// The full-detail mesh of a plate `size` quads wide with its ribbon ring: the
/// triangles of every cell but the ring's corners, and the wireframe of the plate's
/// own cells, column by column. Indices are kept in 16 bits, as by `as`: beyond
/// 252 quads they wrap.
pub fn generate_indices(size: usize) -> (result: (Vec<u16>, Vec<u16>))
    requires
        size <= 60000,
    ensures
        result.0@ == plate_triangles(size as int, size + 2),
        result.1@ == plate_lines(size as int, size + 2),
{
    let mut triangles: Vec<u16> = Vec::new();
    let mut wireframe: Vec<u16> = Vec::new();
    let w = size + 3;
    for i in 0..(size + 2)
        invariant
            size <= 60000,
            w == size + 3,
            triangles@ == plate_triangles(size as int, i as int),
            wireframe@ == plate_lines(size as int, i as int),
    {
        let i_edge = (i == 0) || (i == size + 1);
        for j in 0..(size + 2)
            invariant
                size <= 60000,
                w == size + 3,
                i < size + 2,
                i_edge == is_ring(size as int, i as int),
                triangles@ == plate_triangles(size as int, i as int) + column_triangles(size as int, i as int, j as int),
                wireframe@ == plate_lines(size as int, i as int) + column_lines(size as int, i as int, j as int),
        {
            let ghost t0 = triangles@;
            let ghost l0 = wireframe@;
            push_cell(&mut triangles, &mut wireframe, size, i, j);
            proof {
                let ii = i as int;
                let jj = j as int;
                assert(triangles@ =~= plate_triangles(size as int, ii) + column_triangles(size as int, ii, jj + 1));
                assert(wireframe@ =~= plate_lines(size as int, ii) + column_lines(size as int, ii, jj + 1));
            }
        }
    }
    (triangles, wireframe)
}

/// `2^e` in 16 bits.
fn pow2_i16(e: u32) -> (result: i16)
    requires
        e <= 14,
    ensures
        result == pow2(e as nat),
{
    let mut r: i16 = 1;
    let mut i: u32 = 0;
    proof {
        lemma2_to64();
    }
    while i < e
        invariant
            i <= e <= 14,
            r == pow2(i as nat),
        decreases e - i,
    {
        proof {
            vstd::arithmetic::power2::lemma_pow2_unfold((i + 1) as nat);
            vstd::arithmetic::power2::lemma_pow2_strictly_increases((i + 1) as nat, 15);
            lemma2_to64();
        }
        r = r * 2;
        i = i + 1;
    }
    r
}

/// Whether vertex (`x`, `y`) of the grid of a plate `v` quads wide lies on the
/// ribbon ring.
pub open spec fn on_ring(v: int, x: int, y: int) -> bool {
    x == 0 || y == 0 || x == v + 2 || y == v + 2
}

/// The ribbon flag of every vertex of a plate `2^plate_depth` quads wide with its
/// ring, row by row: 255 on the ring, 0 inside.
pub fn gen_ribbon_buffer(plate_depth: u32) -> (result: Vec<u8>)
    requires
        plate_depth <= 14,
    ensures
        ({
            let v = pow2(plate_depth as nat) as int;
            &&& result@.len() == (v + 3) * (v + 3)
            &&& forall|x: int, y: int|
                0 <= x < v + 3 && 0 <= y < v + 3 ==> #[trigger] result@[y * (v + 3) + x] == if on_ring(v, x, y) {
                    255u8
                } else {
                    0u8
                }
        }),
{
    let vertsize = pow2_i16(plate_depth);
    proof {
        lemma2_to64();
        vstd::arithmetic::power2::lemma_pow2_strictly_increases(plate_depth as nat, 15);
    }
    let ghost v = vertsize as int;
    let n = vertsize + 3;
    let mut data: Vec<u8> = Vec::new();
    let mut y: i16 = 0;
    while y < n
        invariant
            0 < vertsize <= 16384,
            v == vertsize,
            n == vertsize + 3,
            0 <= y <= n,
            data@.len() == y * n,
            forall|xx: int, yy: int|
                0 <= xx < n && 0 <= yy < y ==> #[trigger] data@[yy * n + xx] == if on_ring(v, xx, yy) {
                    255u8
                } else {
                    0u8
                },
        decreases n - y,
    {
        let mut x: i16 = 0;
        while x < n
            invariant
                0 < vertsize <= 16384,
                v == vertsize,
                n == vertsize + 3,
                0 <= y < n,
                0 <= x <= n,
                data@.len() == y * n + x,
                forall|xx: int, yy: int|
                    0 <= xx < n && 0 <= yy < y ==> #[trigger] data@[yy * n + xx] == if on_ring(v, xx, yy) {
                        255u8
                    } else {
                        0u8
                    },
                forall|xx: int|
                    0 <= xx < x ==> #[trigger] data@[y * n + xx] == if on_ring(v, xx, y as int) {
                        255u8
                    } else {
                        0u8
                    },
            decreases n - x,
        {
            let ribbon = (x == 0) || (y == 0) || (x == vertsize + 2) || (y == vertsize + 2);
            let ghost before = data@;
            data.push(if ribbon { 255u8 } else { 0u8 });
            proof {
                assert forall|xx: int, yy: int| 0 <= xx < n && 0 <= yy < y implies #[trigger] data@[yy * n + xx]
                    == if on_ring(v, xx, yy) {
                    255u8
                } else {
                    0u8
                } by {
                    assert(yy * n + xx < y * n) by (nonlinear_arith)
                        requires
                            0 <= yy < y,
                            0 <= xx < n,
                    ;
                    assert(data@[yy * n + xx] == before[yy * n + xx]);
                }
                assert forall|xx: int| 0 <= xx < x + 1 implies #[trigger] data@[y * n + xx] == if on_ring(
                    v,
                    xx,
                    y as int,
                ) {
                    255u8
                } else {
                    0u8
                } by {
                    if xx < x {
                        assert(data@[y * n + xx] == before[y * n + xx]);
                    }
                }
            }
            x = x + 1;
        }
        proof {
            assert(y * n + n == (y + 1) * n) by (nonlinear_arith);
        }
        y = y + 1;
    }
    data
}

/// The two triangles of the quad of a plate `v` quads wide whose corner is vertex
/// (`x0`, `y0`) of its grid and which spans `sx` by `sy` vertices.
pub open spec fn water_quad(v: int, x0: int, y0: int, sx: int, sy: int) -> Seq<u16> {
    let y0base = (v + 3) * y0;
    let y1base = (v + 3) * (y0 + sy);
    let i00 = (y0base + x0) as u16;
    let i01 = (y1base + x0) as u16;
    let i10 = (y0base + x0 + sx) as u16;
    let i11 = (y1base + x0 + sx) as u16;
    seq![i00, i01, i11, i11, i10, i00]
}

/// The quads of row `yk` of the water mesh, `step` wide, first `n` of them.
pub open spec fn water_row(v: int, step: int, yk: int, n: int) -> Seq<u16>
    decreases n,
{
    if n <= 0 {
        Seq::empty()
    } else {
        water_row(v, step, yk, n - 1) + water_quad(v, (n - 1) * step + 1, yk * step + 1, step, step)
    }
}

/// The first `n` rows of the water mesh, `count` quads each.
pub open spec fn water_rows(v: int, step: int, count: int, n: int) -> Seq<u16>
    decreases n,
{
    if n <= 0 {
        Seq::empty()
    } else {
        water_rows(v, step, count, n - 1) + water_row(v, step, n - 1, count)
    }
}

/// The ribbon quads along the four edges for the first `n` steps.
pub open spec fn water_ribbons(v: int, step: int, n: int) -> Seq<u16>
    decreases n,
{
    if n <= 0 {
        Seq::empty()
    } else {
        let p = (n - 1) * step + 1;
        water_ribbons(v, step, n - 1) + water_quad(v, 0, p, 1, step) + water_quad(v, v + 1, p, 1, step)
            + water_quad(v, p, 0, step, 1) + water_quad(v, p, v + 1, step, 1)
    }
}

/// The ribbon quads in the four corners.
pub open spec fn water_corners(v: int) -> Seq<u16> {
    water_quad(v, 0, 0, 1, 1) + water_quad(v, v + 1, 0, 1, 1) + water_quad(v, 0, v + 1, 1, 1) + water_quad(
        v,
        v + 1,
        v + 1,
        1,
        1,
    )
}

/// Appends `water_quad(v, x0, y0, sx, sy)`.
fn add_quad(indices: &mut Vec<u16>, vertsize: i16, x0: i16, y0: i16, sx: i16, sy: i16)
    requires
        0 < vertsize <= 128,
        0 <= x0,
        0 <= y0,
        0 <= sx,
        0 <= sy,
        x0 + sx <= vertsize + 2,
        y0 + sy <= vertsize + 2,
    ensures
        final(indices)@ == old(indices)@ + water_quad(vertsize as int, x0 as int, y0 as int, sx as int, sy as int),
{
    proof {
        assert(0 <= (vertsize + 3) * y0 <= (vertsize + 3) * (y0 + sy) <= 131 * 130) by (nonlinear_arith)
            requires
                0 < vertsize <= 128,
                0 <= y0,
                0 <= sy,
                y0 + sy <= vertsize + 2,
        ;
    }
    let y0base = (vertsize + 3) * y0;
    let y1base = (vertsize + 3) * (y0 + sy);
    let i00 = (y0base + x0) as u16;
    let i01 = (y1base + x0) as u16;
    let i10 = (y0base + x0 + sx) as u16;
    let i11 = (y1base + x0 + sx) as u16;
    indices.push(i00);
    indices.push(i01);
    indices.push(i11);
    indices.push(i11);
    indices.push(i10);
    indices.push(i00);
    proof {
        assert(indices@ =~= old(indices)@ + water_quad(vertsize as int, x0 as int, y0 as int, sx as int, sy as int));
    }
}

/// The water mesh of a plate `2^plate_depth` quads wide at the resolution of
/// `2^water_depth` quads (no finer than the plate): its quads row by row, then,
/// when `ribbons`, the ribbon quads along the edges and in the corners.
#[verifier::rlimit(40)]
pub fn gen_indices(water_depth: u32, plate_depth: u32, ribbons: bool) -> (result: Vec<u16>)
    requires
        plate_depth <= 7,
    ensures
        ({
            let v = pow2(plate_depth as nat) as int;
            let wd = if water_depth < plate_depth { water_depth } else { plate_depth };
            let step = pow2((plate_depth - wd) as nat) as int;
            let count = pow2(wd as nat) as int;
            result@ == water_rows(v, step, count, count) + if ribbons {
                water_ribbons(v, step, count) + water_corners(v)
            } else {
                Seq::empty()
            }
        }),
{
    let mut indices: Vec<u16> = Vec::new();
    let vertsize = pow2_i16(plate_depth);
    let water_depth = if water_depth < plate_depth { water_depth } else { plate_depth };
    let step = pow2_i16(plate_depth - water_depth);
    let ghost v = vertsize as int;
    let ghost count = pow2(water_depth as nat) as int;
    proof {
        lemma2_to64();
        vstd::arithmetic::power2::lemma_pow2_adds((plate_depth - water_depth) as nat, water_depth as nat);
        assert(((plate_depth - water_depth) as nat + water_depth as nat) as nat == plate_depth as nat);
        vstd::arithmetic::power2::lemma_pow2_pos(water_depth as nat);
        vstd::arithmetic::power2::lemma_pow2_pos((plate_depth - water_depth) as nat);
        if plate_depth == 0 {
        } else if plate_depth == 1 {
        } else if plate_depth == 2 {
        } else if plate_depth == 3 {
        } else if plate_depth == 4 {
        } else if plate_depth == 5 {
        } else if plate_depth == 6 {
        } else {
        }
        assert(v == step * count);
        assert(v <= 128);
    }
    let mut y: i16 = 0;
    let ghost mut yk: int = 0;
    while y < vertsize
        invariant
            0 < vertsize <= 128,
            v == vertsize,
            1 <= step,
            1 <= count,
            v == step * count,
            0 <= yk <= count,
            y == yk * step,
            indices@ == water_rows(v, step as int, count, yk),
        decreases v - y,
    {
        proof {
            assert(yk < count) by (nonlinear_arith)
                requires
                    y == yk * step,
                    y < step * count,
                    1 <= step,
            ;
            assert(y + step <= v) by (nonlinear_arith)
                requires
                    y == yk * step,
                    0 <= yk < count,
                    v == step * count,
                    1 <= step,
            ;
        }
        let ghost row_start = indices@;
        let mut x: i16 = 0;
        let ghost mut xk: int = 0;
        while x < vertsize
            invariant
                0 < vertsize <= 128,
                v == vertsize,
                1 <= step,
                1 <= count,
                v == step * count,
                0 <= yk < count,
                y == yk * step,
                y + step <= v,
                0 <= xk <= count,
                x == xk * step,
                indices@ == row_start + water_row(v, step as int, yk, xk),
            decreases v - x,
        {
            proof {
                assert(xk < count) by (nonlinear_arith)
                    requires
                        x == xk * step,
                        x < step * count,
                        1 <= step,
                ;
                assert(x + step <= v) by (nonlinear_arith)
                    requires
                        x == xk * step,
                        0 <= xk < count,
                        v == step * count,
                        1 <= step,
                ;
            }
            add_quad(&mut indices, vertsize, x + 1, y + 1, step, step);
            proof {
                assert(water_row(v, step as int, yk, xk + 1) == water_row(v, step as int, yk, xk) + water_quad(
                    v,
                    xk * step + 1,
                    yk * step + 1,
                    step as int,
                    step as int,
                ));
                assert(indices@ =~= row_start + water_row(v, step as int, yk, xk + 1));
                assert((xk + 1) * step == x + step) by (nonlinear_arith)
                    requires
                        x == xk * step,
                ;
                xk = xk + 1;
            }
            x = x + step;
        }
        proof {
            assert(xk == count) by (nonlinear_arith)
                requires
                    x == xk * step,
                    x >= step * count,
                    xk <= count,
                    1 <= step,
            ;
            assert(indices@ =~= water_rows(v, step as int, count, yk + 1));
            assert((yk + 1) * step == y + step) by (nonlinear_arith)
                    requires
                        y == yk * step,
                ;
            yk = yk + 1;
        }
        y = y + step;
    }
    proof {
        assert(yk == count) by (nonlinear_arith)
            requires
                y == yk * step,
                y >= step * count,
                yk <= count,
                1 <= step,
        ;
    }
    let ghost grid = indices@;
    if ribbons {
        let mut p: i16 = 0;
        let ghost mut pk: int = 0;
        while p < vertsize
            invariant
                0 < vertsize <= 128,
                v == vertsize,
                1 <= step,
                1 <= count,
                v == step * count,
                0 <= pk <= count,
                p == pk * step,
                indices@ == grid + water_ribbons(v, step as int, pk),
            decreases v - p,
        {
            proof {
                assert(pk < count) by (nonlinear_arith)
                    requires
                        p == pk * step,
                        p < step * count,
                        1 <= step,
                ;
                assert(p + step <= v) by (nonlinear_arith)
                    requires
                        p == pk * step,
                        0 <= pk < count,
                        v == step * count,
                        1 <= step,
                ;
            }
            add_quad(&mut indices, vertsize, 0, p + 1, 1, step);
            add_quad(&mut indices, vertsize, vertsize + 1, p + 1, 1, step);
            add_quad(&mut indices, vertsize, p + 1, 0, step, 1);
            add_quad(&mut indices, vertsize, p + 1, vertsize + 1, step, 1);
            proof {
                assert(indices@ =~= grid + water_ribbons(v, step as int, pk + 1));
                assert((pk + 1) * step == p + step) by (nonlinear_arith)
                    requires
                        p == pk * step,
                ;
                pk = pk + 1;
            }
            p = p + step;
        }
        proof {
            assert(pk == count) by (nonlinear_arith)
                requires
                    p == pk * step,
                    p >= step * count,
                    pk <= count,
                    1 <= step,
            ;
        }
        let ghost edges = indices@;
        add_quad(&mut indices, vertsize, 0, 0, 1, 1);
        add_quad(&mut indices, vertsize, vertsize + 1, 0, 1, 1);
        add_quad(&mut indices, vertsize, 0, vertsize + 1, 1, 1);
        add_quad(&mut indices, vertsize, vertsize + 1, vertsize + 1, 1, 1);
        proof {
            assert(indices@ =~= edges + water_corners(v));
            assert(indices@ =~= grid + (water_ribbons(v, step as int, count) + water_corners(v)));
        }
    } else {
        proof {
            assert(indices@ =~= grid + Seq::<u16>::empty());
        }
    }
    indices
}

/// A pair of vertices.
pub type Parents = ((u16, u16), (u16, u16));

/// Vertex (`x`, `y`) lies in the square with corners (`x1`, `y1`) and (`x2`, `y2`).
pub open spec fn in_square(x: int, y: int, x1: int, y1: int, x2: int, y2: int) -> bool {
    x1 <= x <= x2 && y1 <= y <= y2
}

/// `p` holds two vertices of the square whose midpoint is (`x`, `y`).
pub open spec fn parents_of(p: Parents, x: int, y: int, x1: int, y1: int, x2: int, y2: int) -> bool {
    &&& p.0.0 + p.1.0 == 2 * x
    &&& p.0.1 + p.1.1 == 2 * y
    &&& in_square(p.0.0 as int, p.0.1 as int, x1, y1, x2, y2)
    &&& in_square(p.1.0 as int, p.1.1 as int, x1, y1, x2, y2)
}

/// The pair of vertices as integers.
pub open spec fn as_points(p: Parents) -> ((int, int), (int, int)) {
    ((p.0.0 as int, p.0.1 as int), (p.1.0 as int, p.1.1 as int))
}

/// The pair `fill_offsets` records for vertex (`x`, `y`) of the square with corners
/// (`x1`, `y1`) and (`x2`, `y2`) split `k` times: itself for a corner; the ends of
/// the edge for the midpoint of an edge, the corners of the diagonal for the
/// centre; else the pair within the quarter it lies in, taking the lower right
/// quarter first, then the lower left, then the upper right, for a vertex that two
/// quarters share.
pub open spec fn offset_at(x: int, y: int, x1: int, y1: int, x2: int, y2: int, k: nat) -> ((int, int), (int, int))
    decreases k,
{
    let xm = (x1 + x2) / 2;
    let ym = (y1 + y2) / 2;
    if (x == x1 || x == x2) && (y == y1 || y == y2) {
        ((x, y), (x, y))
    } else if k == 0 {
        ((x, y), (x, y))
    } else if x == x1 && y == ym {
        ((x1, y1), (x1, y2))
    } else if x == x2 && y == ym {
        ((x2, y1), (x2, y2))
    } else if x == xm && y == y1 {
        ((x1, y1), (x2, y1))
    } else if x == xm && y == y2 {
        ((x1, y2), (x2, y2))
    } else if x == xm && y == ym {
        ((x1, y1), (x2, y2))
    } else if x >= xm && y >= ym {
        offset_at(x, y, xm, ym, x2, y2, (k - 1) as nat)
    } else if x <= xm && y >= ym {
        offset_at(x, y, x1, ym, xm, y2, (k - 1) as nat)
    } else if x >= xm && y <= ym {
        offset_at(x, y, xm, y1, x2, ym, (k - 1) as nat)
    } else {
        offset_at(x, y, x1, y1, xm, ym, (k - 1) as nat)
    }
}

/// Records, for every vertex of the square with corners (`x1`, `y1`) and
/// (`x2`, `y2`), split in halves `maxdepth - depth` times down to single quads,
/// the two vertices it lies between at the coarsest split that made it: the ends
/// of the edge it halves, the corners of the diagonal for a centre, itself for the
/// square's corners.
pub fn fill_offsets(
    depth: u8,
    maxdepth: u8,
    x1: u16,
    y1: u16,
    x2: u16,
    y2: u16,
    vertex_parents: &mut Array2D<Parents>,
)
    requires
        depth <= maxdepth,
        maxdepth - depth <= 15,
        x2 - x1 == pow2((maxdepth - depth) as nat),
        y2 - y1 == pow2((maxdepth - depth) as nat),
        x2 < old(vertex_parents).w(),
        y2 < old(vertex_parents).h(),
    ensures
        final(vertex_parents).w() == old(vertex_parents).w(),
        final(vertex_parents).h() == old(vertex_parents).h(),
        forall|x: int, y: int|
            0 <= x < old(vertex_parents).w() && 0 <= y < old(vertex_parents).h() && !in_square(
                x,
                y,
                x1 as int,
                y1 as int,
                x2 as int,
                y2 as int,
            ) ==> #[trigger] final(vertex_parents).cell(x, y) == old(vertex_parents).cell(x, y),
        forall|x: int, y: int|
            in_square(x, y, x1 as int, y1 as int, x2 as int, y2 as int) ==> parents_of(
                #[trigger] final(vertex_parents).cell(x, y),
                x,
                y,
                x1 as int,
                y1 as int,
                x2 as int,
                y2 as int,
            ),
        forall|x: int, y: int|
            in_square(x, y, x1 as int, y1 as int, x2 as int, y2 as int) ==> as_points(
                #[trigger] final(vertex_parents).cell(x, y),
            ) == offset_at(x, y, x1 as int, y1 as int, x2 as int, y2 as int, (maxdepth - depth) as nat),
        final(vertex_parents).cell(x1 as int, y1 as int) == ((x1, y1), (x1, y1)),
        final(vertex_parents).cell(x2 as int, y1 as int) == ((x2, y1), (x2, y1)),
        final(vertex_parents).cell(x1 as int, y2 as int) == ((x1, y2), (x1, y2)),
        final(vertex_parents).cell(x2 as int, y2 as int) == ((x2, y2), (x2, y2)),
        depth < maxdepth ==> {
            let xm = ((x1 + x2) / 2) as u16;
            let ym = ((y1 + y2) / 2) as u16;
            &&& final(vertex_parents).cell(x1 as int, ym as int) == ((x1, y1), (x1, y2))
            &&& final(vertex_parents).cell(x2 as int, ym as int) == ((x2, y1), (x2, y2))
            &&& final(vertex_parents).cell(xm as int, y1 as int) == ((x1, y1), (x2, y1))
            &&& final(vertex_parents).cell(xm as int, y2 as int) == ((x1, y2), (x2, y2))
            &&& final(vertex_parents).cell(xm as int, ym as int) == ((x1, y1), (x2, y2))
        },
    decreases maxdepth - depth,
{
    proof {
        lemma2_to64();
        vstd::arithmetic::power2::lemma_pow2_pos((maxdepth - depth) as nat);
    }
    let xm = ((x1 as i32 + x2 as i32) / 2) as u16;
    let ym = ((y1 as i32 + y2 as i32) / 2) as u16;
    let ghost w = vertex_parents.w();
    let ghost h = vertex_parents.h();
    let ghost start = *vertex_parents;
    if depth < maxdepth {
        proof {
            lemma_pow2_unfold((maxdepth - depth) as nat);
            assert(((maxdepth - depth) - 1) as nat == (maxdepth - (depth + 1)) as nat);
        }
        fill_offsets(depth + 1, maxdepth, x1, y1, xm, ym, vertex_parents);
        let ghost a = *vertex_parents;
        fill_offsets(depth + 1, maxdepth, xm, y1, x2, ym, vertex_parents);
        let ghost b = *vertex_parents;
        fill_offsets(depth + 1, maxdepth, x1, ym, xm, y2, vertex_parents);
        let ghost c = *vertex_parents;
        fill_offsets(depth + 1, maxdepth, xm, ym, x2, y2, vertex_parents);
        proof {
            let (xi, yi, xmi, ymi, x2i, y2i) = (x1 as int, y1 as int, xm as int, ym as int, x2 as int, y2 as int);
            assert forall|x: int, y: int| in_square(x, y, xi, yi, x2i, y2i) implies parents_of(
                #[trigger] vertex_parents.cell(x, y),
                x,
                y,
                xi,
                yi,
                x2i,
                y2i,
            ) by {
                if in_square(x, y, xmi, ymi, x2i, y2i) {
                } else if in_square(x, y, xi, ymi, xmi, y2i) {
                    assert(vertex_parents.cell(x, y) == c.cell(x, y));
                } else if in_square(x, y, xmi, yi, x2i, ymi) {
                    assert(vertex_parents.cell(x, y) == c.cell(x, y));
                    assert(c.cell(x, y) == b.cell(x, y));
                } else {
                    assert(vertex_parents.cell(x, y) == c.cell(x, y));
                    assert(c.cell(x, y) == b.cell(x, y));
                    assert(b.cell(x, y) == a.cell(x, y));
                }
            }
            let k1 = (maxdepth - (depth + 1)) as nat;
            assert forall|x: int, y: int| in_square(x, y, xi, yi, x2i, y2i) implies as_points(
                #[trigger] vertex_parents.cell(x, y),
            ) == (if x >= xmi && y >= ymi {
                offset_at(x, y, xmi, ymi, x2i, y2i, k1)
            } else if x <= xmi && y >= ymi {
                offset_at(x, y, xi, ymi, xmi, y2i, k1)
            } else if x >= xmi && y <= ymi {
                offset_at(x, y, xmi, yi, x2i, ymi, k1)
            } else {
                offset_at(x, y, xi, yi, xmi, ymi, k1)
            }) by {
                if in_square(x, y, xmi, ymi, x2i, y2i) {
                } else if in_square(x, y, xi, ymi, xmi, y2i) {
                    assert(vertex_parents.cell(x, y) == c.cell(x, y));
                } else if in_square(x, y, xmi, yi, x2i, ymi) {
                    assert(vertex_parents.cell(x, y) == c.cell(x, y));
                    assert(c.cell(x, y) == b.cell(x, y));
                } else {
                    assert(vertex_parents.cell(x, y) == c.cell(x, y));
                    assert(c.cell(x, y) == b.cell(x, y));
                    assert(b.cell(x, y) == a.cell(x, y));
                }
            }
        }
    }
    let ghost before = *vertex_parents;
    vertex_parents.set(x1 as usize, y1 as usize, ((x1, y1), (x1, y1)));
    vertex_parents.set(x2 as usize, y1 as usize, ((x2, y1), (x2, y1)));
    vertex_parents.set(x1 as usize, y2 as usize, ((x1, y2), (x1, y2)));
    vertex_parents.set(x2 as usize, y2 as usize, ((x2, y2), (x2, y2)));
    if depth < maxdepth {
        vertex_parents.set(x1 as usize, ym as usize, ((x1, y1), (x1, y2)));
        vertex_parents.set(x2 as usize, ym as usize, ((x2, y1), (x2, y2)));
        vertex_parents.set(xm as usize, y1 as usize, ((x1, y1), (x2, y1)));
        vertex_parents.set(xm as usize, y2 as usize, ((x1, y2), (x2, y2)));
        vertex_parents.set(xm as usize, ym as usize, ((x1, y1), (x2, y2)));
    }
    proof {
        let (xi, yi, xmi, ymi, x2i, y2i) = (x1 as int, y1 as int, xm as int, ym as int, x2 as int, y2 as int);
        assert forall|x: int, y: int| in_square(x, y, xi, yi, x2i, y2i) implies parents_of(
            #[trigger] vertex_parents.cell(x, y),
            x,
            y,
            xi,
            yi,
            x2i,
            y2i,
        ) by {
            if depth == maxdepth {
                assert(x == xi || x == x2i);
                assert(y == yi || y == y2i);
            } else {
                let touched = (x == xi || x == xmi || x == x2i) && (y == yi || y == ymi || y == y2i);
                if !touched {
                    assert(vertex_parents.cell(x, y) == before.cell(x, y));
                }
            }
        }
        assert forall|x: int, y: int|
            0 <= x < w && 0 <= y < h && !in_square(x, y, xi, yi, x2i, y2i) implies #[trigger] vertex_parents.cell(x, y)
                == start.cell(x, y) by {
            assert(vertex_parents.cell(x, y) == before.cell(x, y));
        }
        let k = (maxdepth - depth) as nat;
        assert forall|x: int, y: int| in_square(x, y, xi, yi, x2i, y2i) implies as_points(
            #[trigger] vertex_parents.cell(x, y),
        ) == offset_at(x, y, xi, yi, x2i, y2i, k) by {
            assert(xmi == (xi + x2i) / 2 && ymi == (yi + y2i) / 2);
            if depth == maxdepth {
                assert(x == xi || x == x2i);
                assert(y == yi || y == y2i);
            } else {
                let touched = (x == xi || x == xmi || x == x2i) && (y == yi || y == ymi || y == y2i);
                if !touched {
                    assert(vertex_parents.cell(x, y) == before.cell(x, y));
                }
            }
        }
    }
}

} // verus!
