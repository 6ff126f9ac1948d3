use vstd::prelude::*;
use vstd::arithmetic::power2::{pow2, lemma_pow2_unfold, lemma2_to64};
use vstd::arithmetic::div_mod::{lemma_fundamental_div_mod, lemma_fundamental_div_mod_converse};

use crate::array2d::Array2D;

verus! {

/// The index of vertex (`x`, `y`) of a plate `s` quads wide, in the grid of
/// `(s + 3)` by `(s + 3)` vertices that has a ring of ribbon vertices around the
/// plate's own `s + 1` by `s + 1`.
pub open spec fn vertex_index(s: int, x: int, y: int) -> int {
    x + 1 + (s + 3) * (y + 1)
}

/// `i` is the index of one of the plate's own vertices (not of the ribbon ring).
pub open spec fn is_plate_vertex(s: int, i: int) -> bool {
    &&& 0 <= i
    &&& 1 <= i % (s + 3) <= s + 1
    &&& 1 <= i / (s + 3) <= s + 1
}

/// `i` is the index of a vertex of the grid, ribbon ring included.
pub open spec fn is_vertex(s: int, i: int) -> bool {
    0 <= i < (s + 3) * (s + 3)
}

/// `v` occurs in `s`.
pub open spec fn has_index(s: Seq<u16>, v: int) -> bool {
    exists|k: int| 0 <= k < s.len() && s[k] == v
}

/// `b` starts with `a`.
pub open spec fn grows(a: Seq<u16>, b: Seq<u16>) -> bool {
    a.len() <= b.len() && b.take(a.len() as int) == a
}

/// Vertex (`x`, `y`) may be merged away, or it is in the mesh `s`.
pub open spec fn covered(mergeable: Map<(int, int), bool>, s: Seq<u16>, size: int, x: int, y: int) -> bool {
    mergeable[(x, y)] || has_index(s, vertex_index(size, x, y))
}

/// Each of the five key points of the quad with corners (`x1`, `y1`) and
/// (`x2`, `y2`) and centre (`xm`, `ym`) (the midpoints of its edges and its
/// centre) may be merged away or is in the mesh.
pub open spec fn keypoints_covered(
    mergeable: Map<(int, int), bool>,
    s: Seq<u16>,
    size: int,
    x1: int,
    xm: int,
    x2: int,
    y1: int,
    ym: int,
    y2: int,
) -> bool {
    &&& covered(mergeable, s, size, x1, ym)
    &&& covered(mergeable, s, size, x2, ym)
    &&& covered(mergeable, s, size, xm, y1)
    &&& covered(mergeable, s, size, xm, y2)
    &&& covered(mergeable, s, size, xm, ym)
}

/// At the level where the plate is cut into `count` by `count` quads of `q`
/// vertices' spacing, the key points of every quad are covered.
pub open spec fn level_covered(mergeable: Map<(int, int), bool>, s: Seq<u16>, size: int, q: int, count: int) -> bool {
    forall|qx: int, qy: int|
        #![trigger keypoints_covered(mergeable, s, size, qx * q, qx * q + q / 2, qx * q + q, qy * q, qy * q + q / 2, qy * q + q)]
        0 <= qx < count && 0 <= qy < count ==> keypoints_covered(
            mergeable,
            s,
            size,
            qx * q,
            qx * q + q / 2,
            qx * q + q,
            qy * q,
            qy * q + q / 2,
            qy * q + q,
        )
}

/// The four corners of the quad with corners (`x1`, `y1`) and (`x2`, `y2`) are in
/// the mesh `s`.
pub open spec fn corners_in(s: Seq<u16>, size: int, x1: int, y1: int, x2: int, y2: int) -> bool {
    &&& has_index(s, vertex_index(size, x1, y1))
    &&& has_index(s, vertex_index(size, x2, y1))
    &&& has_index(s, vertex_index(size, x1, y2))
    &&& has_index(s, vertex_index(size, x2, y2))
}

/// Every quad marked in `quads` (quads of `q` vertices' spacing) has its corners
/// in the mesh `s`.
pub open spec fn quads_in(quads: Map<(int, int), bool>, s: Seq<u16>, size: int, q: int) -> bool {
    forall|qx: int, qy: int|
        #![trigger quads[(qx, qy)]]
        quads.dom().contains((qx, qy)) && quads[(qx, qy)] ==> corners_in(s, size, qx * q, qy * q, qx * q + q, qy * q + q)
}

/// The coarsest level the optimizer works on, for a plate `2^depth` quads wide.
pub open spec fn coarsest_level(depth: int) -> int {
    if depth - 2 < 1 {
        depth - 2
    } else {
        1
    }
}

/// What the optimized mesh `s` keeps of a plate `2^depth` quads wide: at every
/// level it works on, from quads of 2 vertices' spacing up to the coarsest, each
/// key point of each quad that may not be merged away; and every corner of the
/// coarsest quads.
pub open spec fn keeps_vertices(mergeable: Map<(int, int), bool>, s: Seq<u16>, depth: int) -> bool {
    let size = pow2(depth as nat) as int;
    let top = depth - coarsest_level(depth);
    &&& forall|j: int|
        1 <= j <= top ==> #[trigger] level_covered(
            mergeable,
            s,
            size,
            pow2(j as nat) as int,
            pow2((depth - j) as nat) as int,
        )
    &&& forall|qx: int, qy: int|
        0 <= qx <= pow2(coarsest_level(depth) as nat) && 0 <= qy <= pow2(coarsest_level(depth) as nat) ==> has_index(
            s,
            #[trigger] vertex_index(size, qx * pow2(top as nat), qy * pow2(top as nat)),
        )
}

proof fn lemma_vertex_index(s: int, x: int, y: int)
    requires
        0 <= s,
        0 <= x <= s,
        0 <= y <= s,
    ensures
        is_plate_vertex(s, vertex_index(s, x, y)),
        vertex_index(s, x, y) < (s + 3) * (s + 3),
{
    let w = s + 3;
    let i = vertex_index(s, x, y);
    assert(i == (y + 1) * w + (x + 1)) by (nonlinear_arith)
        requires
            i == x + 1 + w * (y + 1),
    ;
    lemma_fundamental_div_mod_converse(i, w, y + 1, x + 1);
    assert(i < w * w) by (nonlinear_arith)
        requires
            i == (y + 1) * w + (x + 1),
            0 <= x <= s,
            0 <= y <= s,
            w == s + 3,
    ;
}

proof fn lemma_neighbours(s: int, i: int)
    requires
        0 <= s,
        is_plate_vertex(s, i),
    ensures
        is_vertex(s, i),
        is_vertex(s, i - 1),
        is_vertex(s, i + 1),
        is_vertex(s, i - (s + 3)),
        is_vertex(s, i + (s + 3)),
{
    let w = s + 3;
    lemma_fundamental_div_mod(i, w);
    let q = i / w;
    let r = i % w;
    assert(i + w < w * w && i - w >= 0) by (nonlinear_arith)
        requires
            i == w * q + r,
            1 <= q <= s + 1,
            1 <= r <= s + 1,
            w == s + 3,
    ;
}

proof fn lemma_has_grows(a: Seq<u16>, b: Seq<u16>, v: int)
    requires
        grows(a, b),
        has_index(a, v),
    ensures
        has_index(b, v),
{
    let k = choose|k: int| 0 <= k < a.len() && a[k] == v;
    assert(b.take(a.len() as int)[k] == b[k]);
}

proof fn lemma_level_grows(m: Map<(int, int), bool>, a: Seq<u16>, b: Seq<u16>, size: int, q: int, count: int)
    requires
        forall|v: int| #[trigger] has_index(a, v) ==> has_index(b, v),
        level_covered(m, a, size, q, count),
    ensures
        level_covered(m, b, size, q, count),
{
    assert forall|qx: int, qy: int| 0 <= qx < count && 0 <= qy < count implies #[trigger] keypoints_covered(
        m,
        b,
        size,
        qx * q,
        qx * q + q / 2,
        qx * q + q,
        qy * q,
        qy * q + q / 2,
        qy * q + q,
    ) by {
        assert(keypoints_covered(m, a, size, qx * q, qx * q + q / 2, qx * q + q, qy * q, qy * q + q / 2, qy * q + q));
        if !m[(qx * q, qy * q + q / 2)] {
        }
        if !m[(qx * q + q, qy * q + q / 2)] {
        }
        if !m[(qx * q + q / 2, qy * q)] {
        }
        if !m[(qx * q + q / 2, qy * q + q)] {
        }
        if !m[(qx * q + q / 2, qy * q + q / 2)] {
        }
    }
}

proof fn lemma_keypoints_grows(
    m: Map<(int, int), bool>,
    a: Seq<u16>,
    b: Seq<u16>,
    size: int,
    x1: int,
    xm: int,
    x2: int,
    y1: int,
    ym: int,
    y2: int,
)
    requires
        forall|v: int| #[trigger] has_index(a, v) ==> has_index(b, v),
        keypoints_covered(m, a, size, x1, xm, x2, y1, ym, y2),
    ensures
        keypoints_covered(m, b, size, x1, xm, x2, y1, ym, y2),
{
}

proof fn lemma_quads_grows(quads: Map<(int, int), bool>, a: Seq<u16>, b: Seq<u16>, size: int, q: int)
    requires
        forall|v: int| #[trigger] has_index(a, v) ==> has_index(b, v),
        quads_in(quads, a, size, q),
    ensures
        quads_in(quads, b, size, q),
{
    assert forall|qx: int, qy: int| quads.dom().contains((qx, qy)) && #[trigger] quads[(qx, qy)] implies corners_in(
        b,
        size,
        qx * q,
        qy * q,
        qx * q + q,
        qy * q + q,
    ) by {
    }
}


/// The index buffer of one optimized plate: first the triangles of the plate
/// (`wireframe_count` indices, also drawn as its wireframe), then the ribbon
/// triangles along its edges and the triangles that fill the cracks between
/// quads of different sizes.
pub struct Result {
    pub indices: Vec<u16>,
    pub wireframe_count: usize,
}

/// The indices of the nine points of a quad (its corners, the midpoints of its
/// edges and its centre), and which edges of the plate it touches.
struct QuadIndices {
    pub i00: u16,
    pub i0m: u16,
    pub i01: u16,
    pub im0: u16,
    pub imm: u16,
    pub im1: u16,
    pub i10: u16,
    pub i1m: u16,
    pub i11: u16,
    pub edge_left: bool,
    pub edge_right: bool,
    pub edge_top: bool,
    pub edge_bottom: bool,
}

spec fn quad_indices_of(q: QuadIndices, s: int, x1: int, xm: int, x2: int, y1: int, ym: int, y2: int) -> bool {
    &&& q.i00 == vertex_index(s, x1, y1)
    &&& q.i0m == vertex_index(s, x1, ym)
    &&& q.i01 == vertex_index(s, x1, y2)
    &&& q.im0 == vertex_index(s, xm, y1)
    &&& q.imm == vertex_index(s, xm, ym)
    &&& q.im1 == vertex_index(s, xm, y2)
    &&& q.i10 == vertex_index(s, x2, y1)
    &&& q.i1m == vertex_index(s, x2, ym)
    &&& q.i11 == vertex_index(s, x2, y2)
    &&& q.edge_left == (x1 == 0)
    &&& q.edge_right == (x2 == s)
    &&& q.edge_top == (y1 == 0)
    &&& q.edge_bottom == (y2 == s)
}

/// A mesh under construction: the plate vertices drawn so far, the triangle part
/// (pairs of triangles over the plate's own vertices) and the extra triangles
/// (ribbons along the plate's edge and fills of cracks).
#[verifier::ext_equal]
pub struct MeshState {
    pub rendered: Map<(int, int), bool>,
    pub tris: Seq<u16>,
    pub extra: Seq<u16>,
}

/// The 16-bit index of vertex (`x`, `y`) of a plate `s` quads wide.
pub open spec fn vi(s: int, x: int, y: int) -> u16 {
    vertex_index(s, x, y) as u16
}

/// The two triangles of a quad with corners `i00`, `i10`, `i01` and `i11`.
pub open spec fn quad_tris(i00: u16, i10: u16, i01: u16, i11: u16) -> Seq<u16> {
    seq![i00, i01, i11, i11, i10, i00]
}

/// The two ribbon triangles between the edge from `i0` to `i1` and the ribbon
/// vertices `ofs` away from them.
pub open spec fn ribbon_tris(i0: u16, i1: u16, ofs: int) -> Seq<u16> {
    seq![i0, i1, (i0 + ofs) as u16, i1, (i1 + ofs) as u16, (i0 + ofs) as u16]
}

/// `s` where `c` holds, else nothing.
pub open spec fn when(c: bool, s: Seq<u16>) -> Seq<u16> {
    if c {
        s
    } else {
        Seq::empty()
    }
}

/// `r` with the nine points of a quad marked as drawn.
pub open spec fn mark_nine(r: Map<(int, int), bool>, x1: int, xm: int, x2: int, y1: int, ym: int, y2: int) -> Map<(int, int), bool> {
    r.insert((x1, y1), true).insert((x1, ym), true).insert((x1, y2), true).insert((xm, y1), true).insert(
        (xm, ym),
        true,
    ).insert((xm, y2), true).insert((x2, y1), true).insert((x2, ym), true).insert((x2, y2), true)
}

/// The triangles of the children of a quad (corner, edge-midpoint and centre
/// indices `i00` to `i11`) that were not drawn a level below (`c0` to `c3`).
pub open spec fn children_tris(
    i00: u16, i0m: u16, i01: u16, im0: u16, imm: u16, im1: u16, i10: u16, i1m: u16, i11: u16,
    c0: bool, c1: bool, c2: bool, c3: bool,
) -> Seq<u16> {
    when(!c0, quad_tris(i00, im0, i0m, imm)) + when(!c1, quad_tris(im0, i10, imm, i1m)) + when(
        !c2,
        quad_tris(i0m, imm, i01, im1),
    ) + when(!c3, quad_tris(imm, i1m, im1, i11))
}

/// The ribbons of those children on the plate's edges (`left` to `bottom`), the
/// ribbon ring `vr` indices away across the top and bottom edges.
pub open spec fn children_extra(
    i00: u16, i0m: u16, i01: u16, im0: u16, im1: u16, i10: u16, i1m: u16, i11: u16,
    left: bool, right: bool, top: bool, bottom: bool, vr: int,
    c0: bool, c1: bool, c2: bool, c3: bool,
) -> Seq<u16> {
    when(!c0, when(left, ribbon_tris(i0m, i00, -1)) + when(top, ribbon_tris(i00, im0, -vr)))
        + when(!c1, when(top, ribbon_tris(im0, i10, -vr)) + when(right, ribbon_tris(i10, i1m, 1)))
        + when(!c2, when(left, ribbon_tris(i01, i0m, -1)) + when(bottom, ribbon_tris(im1, i01, vr)))
        + when(!c3, when(right, ribbon_tris(i1m, i11, 1)) + when(bottom, ribbon_tris(i11, im1, vr)))
}

/// The triangles of all four children of a quad.
pub open spec fn all_tris(i00: u16, i0m: u16, i01: u16, im0: u16, imm: u16, im1: u16, i10: u16, i1m: u16, i11: u16) -> Seq<u16> {
    quad_tris(i00, im0, i0m, imm) + quad_tris(im0, i10, imm, i1m) + quad_tris(i0m, imm, i01, im1) + quad_tris(
        imm,
        i1m,
        im1,
        i11,
    )
}

/// The ribbons of all four children of a quad on the plate's edges.
pub open spec fn all_extra(
    i00: u16, i0m: u16, i01: u16, im0: u16, im1: u16, i10: u16, i1m: u16, i11: u16,
    left: bool, right: bool, top: bool, bottom: bool, vr: int,
) -> Seq<u16> {
    when(left, ribbon_tris(i01, i0m, -1) + ribbon_tris(i0m, i00, -1)) + when(
        right,
        ribbon_tris(i10, i1m, 1) + ribbon_tris(i1m, i11, 1),
    ) + when(top, ribbon_tris(i00, im0, -vr) + ribbon_tris(im0, i10, -vr)) + when(
        bottom,
        ribbon_tris(i11, im1, vr) + ribbon_tris(im1, i01, vr),
    )
}

/// The ribbons of a quad drawn whole (corners `i00` to `i11`) on the plate's
/// edges.
pub open spec fn whole_ribbons(i00: u16, i01: u16, i10: u16, i11: u16, left: bool, right: bool, top: bool, bottom: bool, vr: int) -> Seq<u16> {
    when(left, ribbon_tris(i01, i00, -1)) + when(right, ribbon_tris(i10, i11, 1)) + when(top, ribbon_tris(i00, i10, -vr))
        + when(bottom, ribbon_tris(i11, i01, vr))
}

/// A triangle filling the crack at each edge midpoint of a quad drawn whole that
/// a neighbour drew (`r0` to `r3`: left, right, top, bottom).
pub open spec fn crack_fills(
    i00: u16, i0m: u16, i01: u16, im0: u16, im1: u16, i10: u16, i1m: u16, i11: u16,
    r0: bool, r1: bool, r2: bool, r3: bool,
) -> Seq<u16> {
    when(r0, seq![i00, i0m, i01]) + when(r1, seq![i10, i11, i1m]) + when(r2, seq![i00, i10, im0]) + when(r3, seq![i01, im1, i11])
}

/// The ribbons of a quad drawn whole, then its crack fills.
pub open spec fn whole_extra(
    i00: u16, i0m: u16, i01: u16, im0: u16, im1: u16, i10: u16, i1m: u16, i11: u16,
    left: bool, right: bool, top: bool, bottom: bool, vr: int,
    r0: bool, r1: bool, r2: bool, r3: bool,
) -> Seq<u16> {
    whole_ribbons(i00, i01, i10, i11, left, right, top, bottom, vr) + crack_fills(i00, i0m, i01, im0, im1, i10, i1m, i11, r0, r1, r2, r3)
}

/// The first look at quad (`qx`, `qy`), `q` vertices wide, of a plate `s` quads
/// wide: where one of its children was drawn (`child`, a level below), the other
/// children are drawn with their ribbons; else, where one of its five key points
/// may not be merged away (`m`), its four children are drawn with their ribbons;
/// in both cases its nine points count as drawn and the quad is marked.
#[verifier::opaque]
pub open spec fn split_visit(
    st: MeshState,
    quads: Map<(int, int), bool>,
    child: Map<(int, int), bool>,
    m: Map<(int, int), bool>,
    s: int,
    qx: int,
    qy: int,
    q: int,
) -> (MeshState, Map<(int, int), bool>) {
    let h = q / 2;
    let x1 = qx * q;
    let xm = qx * q + h;
    let x2 = qx * q + q;
    let y1 = qy * q;
    let ym = qy * q + h;
    let y2 = qy * q + q;
    let vr = s + 3;
    let i00 = vi(s, x1, y1);
    let i0m = vi(s, x1, ym);
    let i01 = vi(s, x1, y2);
    let im0 = vi(s, xm, y1);
    let imm = vi(s, xm, ym);
    let im1 = vi(s, xm, y2);
    let i10 = vi(s, x2, y1);
    let i1m = vi(s, x2, ym);
    let i11 = vi(s, x2, y2);
    let c0 = child[(2 * qx, 2 * qy)];
    let c1 = child[(2 * qx + 1, 2 * qy)];
    let c2 = child[(2 * qx, 2 * qy + 1)];
    let c3 = child[(2 * qx + 1, 2 * qy + 1)];
    let rendered = mark_nine(st.rendered, x1, xm, x2, y1, ym, y2);
    let marked = quads.insert((qx, qy), true);
    if h > 1 && (c0 || c1 || c2 || c3) {
        (
            MeshState {
                rendered,
                tris: st.tris + children_tris(i00, i0m, i01, im0, imm, im1, i10, i1m, i11, c0, c1, c2, c3),
                extra: st.extra + children_extra(
                    i00, i0m, i01, im0, im1, i10, i1m, i11,
                    x1 == 0, x2 == s, y1 == 0, y2 == s, vr,
                    c0, c1, c2, c3,
                ),
            },
            marked,
        )
    } else if !(m[(x1, ym)] && m[(x2, ym)] && m[(xm, y1)] && m[(xm, y2)] && m[(xm, ym)]) {
        (
            MeshState {
                rendered,
                tris: st.tris + all_tris(i00, i0m, i01, im0, imm, im1, i10, i1m, i11),
                extra: st.extra + all_extra(i00, i0m, i01, im0, im1, i10, i1m, i11, x1 == 0, x2 == s, y1 == 0, y2 == s, vr),
            },
            marked,
        )
    } else {
        (st, quads)
    }
}

/// The second look at quad (`qx`, `qy`), `q` vertices wide: where it is not
/// marked yet and the midpoint of one of its edges was drawn (or this is the
/// coarsest level), the quad is drawn whole with its ribbons, a triangle fills
/// the crack at each such midpoint, its corners count as drawn and it is marked.
#[verifier::opaque]
pub open spec fn join_visit(
    st: MeshState,
    quads: Map<(int, int), bool>,
    s: int,
    qx: int,
    qy: int,
    q: int,
    coarsest: bool,
) -> (MeshState, Map<(int, int), bool>) {
    let h = q / 2;
    let x1 = qx * q;
    let xm = qx * q + h;
    let x2 = qx * q + q;
    let y1 = qy * q;
    let ym = qy * q + h;
    let y2 = qy * q + q;
    let vr = s + 3;
    let i00 = vi(s, x1, y1);
    let i0m = vi(s, x1, ym);
    let i01 = vi(s, x1, y2);
    let im0 = vi(s, xm, y1);
    let im1 = vi(s, xm, y2);
    let i10 = vi(s, x2, y1);
    let i1m = vi(s, x2, ym);
    let i11 = vi(s, x2, y2);
    let r0 = st.rendered[(x1, ym)];
    let r1 = st.rendered[(x2, ym)];
    let r2 = st.rendered[(xm, y1)];
    let r3 = st.rendered[(xm, y2)];
    if quads[(qx, qy)] || !(r0 || r1 || r2 || r3 || coarsest) {
        (st, quads)
    } else {
        (
            MeshState {
                rendered: st.rendered.insert((x1, y1), true).insert((x1, y2), true).insert((x2, y1), true).insert(
                    (x2, y2),
                    true,
                ),
                tris: st.tris + quad_tris(i00, i10, i01, i11),
                extra: st.extra + whole_extra(
                    i00, i0m, i01, im0, im1, i10, i1m, i11,
                    x1 == 0, x2 == s, y1 == 0, y2 == s, vr,
                    r0, r1, r2, r3,
                ),
            },
            quads.insert((qx, qy), true),
        )
    }
}

/// `split_visit` on quads 0 to `n - 1` of row `qy`, in order.
pub open spec fn split_row(
    st: (MeshState, Map<(int, int), bool>),
    child: Map<(int, int), bool>,
    m: Map<(int, int), bool>,
    s: int,
    q: int,
    qy: int,
    n: int,
) -> (MeshState, Map<(int, int), bool>)
    decreases n,
{
    if n <= 0 {
        st
    } else {
        let p = split_row(st, child, m, s, q, qy, n - 1);
        split_visit(p.0, p.1, child, m, s, n - 1, qy, q)
    }
}

/// `split_row` over all `count` quads of rows 0 to `n - 1`, in order.
pub open spec fn split_rows(
    st: (MeshState, Map<(int, int), bool>),
    child: Map<(int, int), bool>,
    m: Map<(int, int), bool>,
    s: int,
    q: int,
    count: int,
    n: int,
) -> (MeshState, Map<(int, int), bool>)
    decreases n,
{
    if n <= 0 {
        st
    } else {
        split_row(split_rows(st, child, m, s, q, count, n - 1), child, m, s, q, n - 1, count)
    }
}

/// `join_visit` on quads 0 to `n - 1` of row `qy`, in order.
pub open spec fn join_row(
    st: (MeshState, Map<(int, int), bool>),
    s: int,
    q: int,
    coarsest: bool,
    qy: int,
    n: int,
) -> (MeshState, Map<(int, int), bool>)
    decreases n,
{
    if n <= 0 {
        st
    } else {
        let p = join_row(st, s, q, coarsest, qy, n - 1);
        join_visit(p.0, p.1, s, n - 1, qy, q, coarsest)
    }
}

/// `join_row` over all `count` quads of rows 0 to `n - 1`, in order.
pub open spec fn join_rows(
    st: (MeshState, Map<(int, int), bool>),
    s: int,
    q: int,
    coarsest: bool,
    count: int,
    n: int,
) -> (MeshState, Map<(int, int), bool>)
    decreases n,
{
    if n <= 0 {
        st
    } else {
        join_row(join_rows(st, s, q, coarsest, count, n - 1), s, q, coarsest, n - 1, count)
    }
}

/// One level of quads, `count` by `count`, `q` vertices wide: the split pass over
/// fresh marks, then the join pass; its marks are the next level's `child`.
pub open spec fn level_step(
    st: MeshState,
    child: Map<(int, int), bool>,
    m: Map<(int, int), bool>,
    s: int,
    count: int,
    q: int,
    coarsest: bool,
) -> (MeshState, Map<(int, int), bool>) {
    let fresh = Array2D::<bool>::filled(count as nat, count as nat, false);
    join_rows(split_rows((st, fresh), child, m, s, q, count, count), s, q, coarsest, count, count)
}

/// The levels below `level`, down to `coarsest`, of a plate `2^depth` quads wide,
/// from the mesh `st` and the marks `child` of level `level`.
pub open spec fn levels(
    st: MeshState,
    child: Map<(int, int), bool>,
    m: Map<(int, int), bool>,
    depth: int,
    level: int,
    coarsest: int,
) -> MeshState
    decreases level - coarsest,
{
    if level <= coarsest || level <= 0 {
        st
    } else {
        let l = level - 1;
        let r = level_step(
            st,
            child,
            m,
            pow2(depth as nat) as int,
            pow2(l as nat) as int,
            pow2((depth - l) as nat) as int,
            l == coarsest,
        );
        levels(r.0, r.1, m, depth, l, coarsest)
    }
}

/// The mesh of a plate `2^depth` quads wide whose vertex (`x`, `y`) may be merged
/// away where `m` holds `true`: all levels, from quads two vertices wide up to
/// the coarsest, over an empty mesh.
pub open spec fn plate_mesh(depth: int, m: Map<(int, int), bool>) -> MeshState {
    let size = pow2(depth as nat);
    levels(
        MeshState {
            rendered: Array2D::<bool>::filled(size + 1, size + 1, false),
            tris: Seq::empty(),
            extra: Seq::empty(),
        },
        Array2D::<bool>::filled(0, 0, false),
        m,
        depth,
        depth,
        coarsest_level(depth),
    )
}

/// The index buffer the optimizer builds for a plate `2^depth` quads wide whose
/// vertex (`x`, `y`) may be merged away where `m` holds `true`: the triangle part
/// of `plate_mesh`, then its ribbons and crack fills.
pub open spec fn mesh_indices(depth: int, m: Map<(int, int), bool>) -> Seq<u16> {
    plate_mesh(depth, m).tris + plate_mesh(depth, m).extra
}

/// The length of the triangle part of that buffer.
pub open spec fn mesh_wireframe_count(depth: int, m: Map<(int, int), bool>) -> int {
    plate_mesh(depth, m).tris.len() as int
}

proof fn lemma_quad_vi(q: QuadIndices, s: int, x1: int, xm: int, x2: int, y1: int, ym: int, y2: int)
    requires
        quad_indices_of(q, s, x1, xm, x2, y1, ym, y2),
    ensures
        q.i00 == vi(s, x1, y1),
        q.i0m == vi(s, x1, ym),
        q.i01 == vi(s, x1, y2),
        q.im0 == vi(s, xm, y1),
        q.imm == vi(s, xm, ym),
        q.im1 == vi(s, xm, y2),
        q.i10 == vi(s, x2, y1),
        q.i1m == vi(s, x2, ym),
        q.i11 == vi(s, x2, y2),
{
}

/// `split_visit` where a child was drawn a level below.
proof fn lemma_split_visit_children(
    st: MeshState, quads: Map<(int, int), bool>, child: Map<(int, int), bool>, m: Map<(int, int), bool>,
    s: int, qx: int, qy: int, q: int,
)
    requires
        q / 2 > 1,
        child[(2 * qx, 2 * qy)] || child[(2 * qx + 1, 2 * qy)] || child[(2 * qx, 2 * qy + 1)] || child[(2 * qx + 1, 2 * qy + 1)],
    ensures
        split_visit(st, quads, child, m, s, qx, qy, q) == (
            MeshState {
                rendered: mark_nine(st.rendered, qx * q, qx * q + q / 2, qx * q + q, qy * q, qy * q + q / 2, qy * q + q),
                tris: st.tris + children_tris(
                    vi(s, qx * q, qy * q), vi(s, qx * q, qy * q + q / 2), vi(s, qx * q, qy * q + q),
                    vi(s, qx * q + q / 2, qy * q), vi(s, qx * q + q / 2, qy * q + q / 2), vi(s, qx * q + q / 2, qy * q + q),
                    vi(s, qx * q + q, qy * q), vi(s, qx * q + q, qy * q + q / 2), vi(s, qx * q + q, qy * q + q),
                    child[(2 * qx, 2 * qy)], child[(2 * qx + 1, 2 * qy)], child[(2 * qx, 2 * qy + 1)], child[(2 * qx + 1, 2 * qy + 1)],
                ),
                extra: st.extra + children_extra(
                    vi(s, qx * q, qy * q), vi(s, qx * q, qy * q + q / 2), vi(s, qx * q, qy * q + q),
                    vi(s, qx * q + q / 2, qy * q), vi(s, qx * q + q / 2, qy * q + q),
                    vi(s, qx * q + q, qy * q), vi(s, qx * q + q, qy * q + q / 2), vi(s, qx * q + q, qy * q + q),
                    qx * q == 0, qx * q + q == s, qy * q == 0, qy * q + q == s, s + 3,
                    child[(2 * qx, 2 * qy)], child[(2 * qx + 1, 2 * qy)], child[(2 * qx, 2 * qy + 1)], child[(2 * qx + 1, 2 * qy + 1)],
                ),
            },
            quads.insert((qx, qy), true),
        ),
{
    reveal(split_visit);
}

/// `split_visit` where no child was drawn and a key point may not be merged away.
proof fn lemma_split_visit_all(
    st: MeshState, quads: Map<(int, int), bool>, child: Map<(int, int), bool>, m: Map<(int, int), bool>,
    s: int, qx: int, qy: int, q: int,
)
    requires
        !(q / 2 > 1 && (child[(2 * qx, 2 * qy)] || child[(2 * qx + 1, 2 * qy)] || child[(2 * qx, 2 * qy + 1)] || child[(2 * qx + 1, 2 * qy + 1)])),
        !(m[(qx * q, qy * q + q / 2)] && m[(qx * q + q, qy * q + q / 2)] && m[(qx * q + q / 2, qy * q)] && m[(qx * q + q / 2, qy * q + q)]
            && m[(qx * q + q / 2, qy * q + q / 2)]),
    ensures
        split_visit(st, quads, child, m, s, qx, qy, q) == (
            MeshState {
                rendered: mark_nine(st.rendered, qx * q, qx * q + q / 2, qx * q + q, qy * q, qy * q + q / 2, qy * q + q),
                tris: st.tris + all_tris(
                    vi(s, qx * q, qy * q), vi(s, qx * q, qy * q + q / 2), vi(s, qx * q, qy * q + q),
                    vi(s, qx * q + q / 2, qy * q), vi(s, qx * q + q / 2, qy * q + q / 2), vi(s, qx * q + q / 2, qy * q + q),
                    vi(s, qx * q + q, qy * q), vi(s, qx * q + q, qy * q + q / 2), vi(s, qx * q + q, qy * q + q),
                ),
                extra: st.extra + all_extra(
                    vi(s, qx * q, qy * q), vi(s, qx * q, qy * q + q / 2), vi(s, qx * q, qy * q + q),
                    vi(s, qx * q + q / 2, qy * q), vi(s, qx * q + q / 2, qy * q + q),
                    vi(s, qx * q + q, qy * q), vi(s, qx * q + q, qy * q + q / 2), vi(s, qx * q + q, qy * q + q),
                    qx * q == 0, qx * q + q == s, qy * q == 0, qy * q + q == s, s + 3,
                ),
            },
            quads.insert((qx, qy), true),
        ),
{
    reveal(split_visit);
}

/// The first look at a quad none of whose children was drawn a level below and
/// all of whose key points may be merged away changes nothing.
pub proof fn lemma_split_visit_none(
    st: MeshState, quads: Map<(int, int), bool>, child: Map<(int, int), bool>, m: Map<(int, int), bool>,
    s: int, qx: int, qy: int, q: int,
)
    requires
        !(q / 2 > 1 && (child[(2 * qx, 2 * qy)] || child[(2 * qx + 1, 2 * qy)] || child[(2 * qx, 2 * qy + 1)] || child[(2 * qx + 1, 2 * qy + 1)])),
        m[(qx * q, qy * q + q / 2)] && m[(qx * q + q, qy * q + q / 2)] && m[(qx * q + q / 2, qy * q)] && m[(qx * q + q / 2, qy * q + q)]
            && m[(qx * q + q / 2, qy * q + q / 2)],
    ensures
        split_visit(st, quads, child, m, s, qx, qy, q) == (st, quads),
{
    reveal(split_visit);
}

/// The corners of a quad whose triangles stand in `t` are in `t`.
proof fn lemma_quad_in(t: Seq<u16>, pre: Seq<u16>, post: Seq<u16>, a: u16, b: u16, c: u16, d: u16)
    requires
        t == pre + quad_tris(a, b, c, d) + post,
    ensures
        has_index(t, a as int),
        has_index(t, b as int),
        has_index(t, c as int),
        has_index(t, d as int),
{
    let n = pre.len() as int;
    assert(t[n] == a);
    assert(t[n + 1] == c);
    assert(t[n + 2] == d);
    assert(t[n + 4] == b);
}

/// The corners of the children drawn by `children_tris` are in the mesh after it.
proof fn lemma_children_has(
    t0: Seq<u16>,
    i00: u16, i0m: u16, i01: u16, im0: u16, imm: u16, im1: u16, i10: u16, i1m: u16, i11: u16,
    c0: bool, c1: bool, c2: bool, c3: bool,
)
    ensures
        !c0 ==> has_index(t0 + children_tris(i00, i0m, i01, im0, imm, im1, i10, i1m, i11, c0, c1, c2, c3), i00 as int)
            && has_index(t0 + children_tris(i00, i0m, i01, im0, imm, im1, i10, i1m, i11, c0, c1, c2, c3), im0 as int)
            && has_index(t0 + children_tris(i00, i0m, i01, im0, imm, im1, i10, i1m, i11, c0, c1, c2, c3), i0m as int)
            && has_index(t0 + children_tris(i00, i0m, i01, im0, imm, im1, i10, i1m, i11, c0, c1, c2, c3), imm as int),
        !c1 ==> has_index(t0 + children_tris(i00, i0m, i01, im0, imm, im1, i10, i1m, i11, c0, c1, c2, c3), im0 as int)
            && has_index(t0 + children_tris(i00, i0m, i01, im0, imm, im1, i10, i1m, i11, c0, c1, c2, c3), i10 as int)
            && has_index(t0 + children_tris(i00, i0m, i01, im0, imm, im1, i10, i1m, i11, c0, c1, c2, c3), imm as int)
            && has_index(t0 + children_tris(i00, i0m, i01, im0, imm, im1, i10, i1m, i11, c0, c1, c2, c3), i1m as int),
        !c2 ==> has_index(t0 + children_tris(i00, i0m, i01, im0, imm, im1, i10, i1m, i11, c0, c1, c2, c3), i0m as int)
            && has_index(t0 + children_tris(i00, i0m, i01, im0, imm, im1, i10, i1m, i11, c0, c1, c2, c3), imm as int)
            && has_index(t0 + children_tris(i00, i0m, i01, im0, imm, im1, i10, i1m, i11, c0, c1, c2, c3), i01 as int)
            && has_index(t0 + children_tris(i00, i0m, i01, im0, imm, im1, i10, i1m, i11, c0, c1, c2, c3), im1 as int),
        !c3 ==> has_index(t0 + children_tris(i00, i0m, i01, im0, imm, im1, i10, i1m, i11, c0, c1, c2, c3), imm as int)
            && has_index(t0 + children_tris(i00, i0m, i01, im0, imm, im1, i10, i1m, i11, c0, c1, c2, c3), i1m as int)
            && has_index(t0 + children_tris(i00, i0m, i01, im0, imm, im1, i10, i1m, i11, c0, c1, c2, c3), im1 as int)
            && has_index(t0 + children_tris(i00, i0m, i01, im0, imm, im1, i10, i1m, i11, c0, c1, c2, c3), i11 as int),
{
    let t = t0 + children_tris(i00, i0m, i01, im0, imm, im1, i10, i1m, i11, c0, c1, c2, c3);
    let w0 = when(!c0, quad_tris(i00, im0, i0m, imm));
    let w1 = when(!c1, quad_tris(im0, i10, imm, i1m));
    let w2 = when(!c2, quad_tris(i0m, imm, i01, im1));
    let w3 = when(!c3, quad_tris(imm, i1m, im1, i11));
    if !c0 {
        assert(t =~= t0 + quad_tris(i00, im0, i0m, imm) + (w1 + w2 + w3));
        lemma_quad_in(t, t0, w1 + w2 + w3, i00, im0, i0m, imm);
    }
    if !c1 {
        assert(t =~= (t0 + w0) + quad_tris(im0, i10, imm, i1m) + (w2 + w3));
        lemma_quad_in(t, t0 + w0, w2 + w3, im0, i10, imm, i1m);
    }
    if !c2 {
        assert(t =~= (t0 + w0 + w1) + quad_tris(i0m, imm, i01, im1) + w3);
        lemma_quad_in(t, t0 + w0 + w1, w3, i0m, imm, i01, im1);
    }
    if !c3 {
        assert(t =~= (t0 + w0 + w1 + w2) + quad_tris(imm, i1m, im1, i11) + Seq::<u16>::empty());
        lemma_quad_in(t, t0 + w0 + w1 + w2, Seq::<u16>::empty(), imm, i1m, im1, i11);
    }
}

/// The nine points of a quad whose four children `all_tris` draws are in the
/// mesh after it.
proof fn lemma_all_has(
    t0: Seq<u16>,
    i00: u16, i0m: u16, i01: u16, im0: u16, imm: u16, im1: u16, i10: u16, i1m: u16, i11: u16,
)
    ensures
        has_index(t0 + all_tris(i00, i0m, i01, im0, imm, im1, i10, i1m, i11), i00 as int),
        has_index(t0 + all_tris(i00, i0m, i01, im0, imm, im1, i10, i1m, i11), i0m as int),
        has_index(t0 + all_tris(i00, i0m, i01, im0, imm, im1, i10, i1m, i11), i01 as int),
        has_index(t0 + all_tris(i00, i0m, i01, im0, imm, im1, i10, i1m, i11), im0 as int),
        has_index(t0 + all_tris(i00, i0m, i01, im0, imm, im1, i10, i1m, i11), imm as int),
        has_index(t0 + all_tris(i00, i0m, i01, im0, imm, im1, i10, i1m, i11), im1 as int),
        has_index(t0 + all_tris(i00, i0m, i01, im0, imm, im1, i10, i1m, i11), i10 as int),
        has_index(t0 + all_tris(i00, i0m, i01, im0, imm, im1, i10, i1m, i11), i1m as int),
        has_index(t0 + all_tris(i00, i0m, i01, im0, imm, im1, i10, i1m, i11), i11 as int),
{
    lemma_children_has(t0, i00, i0m, i01, im0, imm, im1, i10, i1m, i11, false, false, false, false);
    assert(children_tris(i00, i0m, i01, im0, imm, im1, i10, i1m, i11, false, false, false, false) =~= all_tris(
        i00, i0m, i01, im0, imm, im1, i10, i1m, i11,
    ));
}

/// Appending four pieces one after the other appends their concatenation.
proof fn lemma_append4(e0: Seq<u16>, w0: Seq<u16>, w1: Seq<u16>, w2: Seq<u16>, w3: Seq<u16>)
    ensures
        e0 + w0 + w1 + w2 + w3 == e0 + (w0 + w1 + w2 + w3),
{
    assert(e0 + w0 + w1 + w2 + w3 =~= e0 + (w0 + w1 + w2 + w3));
}

/// Appending two pieces one after the other appends their concatenation.
proof fn lemma_append2(e0: Seq<u16>, w0: Seq<u16>, w1: Seq<u16>)
    ensures
        e0 + w0 + w1 == e0 + (w0 + w1),
{
    assert(e0 + w0 + w1 =~= e0 + (w0 + w1));
}

/// `join_visit` where the quad is marked already, or nothing calls for drawing it.
proof fn lemma_join_visit_skip(st: MeshState, quads: Map<(int, int), bool>, s: int, qx: int, qy: int, q: int, coarsest: bool)
    requires
        quads[(qx, qy)] || !(st.rendered[(qx * q, qy * q + q / 2)] || st.rendered[(qx * q + q, qy * q + q / 2)]
            || st.rendered[(qx * q + q / 2, qy * q)] || st.rendered[(qx * q + q / 2, qy * q + q)] || coarsest),
    ensures
        join_visit(st, quads, s, qx, qy, q, coarsest) == (st, quads),
{
    reveal(join_visit);
}

/// `join_visit` where the quad is drawn whole.
proof fn lemma_join_visit_draw(st: MeshState, quads: Map<(int, int), bool>, s: int, qx: int, qy: int, q: int, coarsest: bool)
    requires
        !quads[(qx, qy)],
        st.rendered[(qx * q, qy * q + q / 2)] || st.rendered[(qx * q + q, qy * q + q / 2)]
            || st.rendered[(qx * q + q / 2, qy * q)] || st.rendered[(qx * q + q / 2, qy * q + q)] || coarsest,
    ensures
        join_visit(st, quads, s, qx, qy, q, coarsest) == (
            MeshState {
                rendered: st.rendered.insert((qx * q, qy * q), true).insert((qx * q, qy * q + q), true).insert(
                    (qx * q + q, qy * q),
                    true,
                ).insert((qx * q + q, qy * q + q), true),
                tris: st.tris + quad_tris(vi(s, qx * q, qy * q), vi(s, qx * q + q, qy * q), vi(s, qx * q, qy * q + q), vi(s, qx * q + q, qy * q + q)),
                extra: st.extra + whole_extra(
                    vi(s, qx * q, qy * q), vi(s, qx * q, qy * q + q / 2), vi(s, qx * q, qy * q + q),
                    vi(s, qx * q + q / 2, qy * q), vi(s, qx * q + q / 2, qy * q + q),
                    vi(s, qx * q + q, qy * q), vi(s, qx * q + q, qy * q + q / 2), vi(s, qx * q + q, qy * q + q),
                    qx * q == 0, qx * q + q == s, qy * q == 0, qy * q + q == s, s + 3,
                    st.rendered[(qx * q, qy * q + q / 2)], st.rendered[(qx * q + q, qy * q + q / 2)],
                    st.rendered[(qx * q + q / 2, qy * q)], st.rendered[(qx * q + q / 2, qy * q + q)],
                ),
            },
            quads.insert((qx, qy), true),
        ),
{
    reveal(join_visit);
}

/// `s` holds the triangle `a`, `b`, `c` as three indices in a row.
pub open spec fn has_triangle(s: Seq<u16>, a: u16, b: u16, c: u16) -> bool {
    exists|k: int| 0 <= k && k + 2 < s.len() && #[trigger] s[k] == a && s[k + 1] == b && s[k + 2] == c
}

/// A quad that the second look draws whole is two triangles over its corners,
/// which count as drawn, and the quad is marked. It fills the crack at every midpoint of
/// its edges that a neighbour drew: the left edge with the triangle of its two
/// corners and the midpoint, and likewise the right, top and bottom edges; its
/// extra part grows by six indices per plate edge it lies on and three per such
/// midpoint. The extra part it had before stays in front.
#[verifier::spinoff_prover]
#[verifier::rlimit(60)]
pub proof fn lemma_join_fills_cracks(st: MeshState, quads: Map<(int, int), bool>, s: int, qx: int, qy: int, q: int, coarsest: bool)
    requires
        !quads[(qx, qy)],
        st.rendered[(qx * q, qy * q + q / 2)] || st.rendered[(qx * q + q, qy * q + q / 2)]
            || st.rendered[(qx * q + q / 2, qy * q)] || st.rendered[(qx * q + q / 2, qy * q + q)] || coarsest,
    ensures
        ({
            let x1 = qx * q;
            let xm = qx * q + q / 2;
            let x2 = qx * q + q;
            let y1 = qy * q;
            let ym = qy * q + q / 2;
            let y2 = qy * q + q;
            let e = join_visit(st, quads, s, qx, qy, q, coarsest).0.extra;
            let t = join_visit(st, quads, s, qx, qy, q, coarsest).0.tris;
            let r = join_visit(st, quads, s, qx, qy, q, coarsest).0.rendered;
            &&& t == st.tris + seq![vi(s, x1, y1), vi(s, x1, y2), vi(s, x2, y2), vi(s, x2, y2), vi(s, x2, y1), vi(s, x1, y1)]
            &&& r[(x1, y1)] && r[(x1, y2)] && r[(x2, y1)] && r[(x2, y2)]
            &&& join_visit(st, quads, s, qx, qy, q, coarsest).1[(qx, qy)]
            &&& e.take(st.extra.len() as int) == st.extra
            &&& st.rendered[(x1, ym)] ==> has_triangle(e, vi(s, x1, y1), vi(s, x1, ym), vi(s, x1, y2))
            &&& st.rendered[(x2, ym)] ==> has_triangle(e, vi(s, x2, y1), vi(s, x2, y2), vi(s, x2, ym))
            &&& st.rendered[(xm, y1)] ==> has_triangle(e, vi(s, x1, y1), vi(s, x2, y1), vi(s, xm, y1))
            &&& st.rendered[(xm, y2)] ==> has_triangle(e, vi(s, x1, y2), vi(s, xm, y2), vi(s, x2, y2))
            &&& e.len() == st.extra.len() + 6 * ((if x1 == 0 { 1int } else { 0 }) + (if x2 == s { 1int } else { 0 })
                + (if y1 == 0 { 1int } else { 0 }) + (if y2 == s { 1int } else { 0 })) + 3 * ((if st.rendered[(x1, ym)] { 1int } else { 0 })
                + (if st.rendered[(x2, ym)] { 1int } else { 0 }) + (if st.rendered[(xm, y1)] { 1int } else { 0 })
                + (if st.rendered[(xm, y2)] { 1int } else { 0 }))
        }),
{
    let x1 = qx * q;
    let xm = qx * q + q / 2;
    let x2 = qx * q + q;
    let y1 = qy * q;
    let ym = qy * q + q / 2;
    let y2 = qy * q + q;
    let i00 = vi(s, x1, y1);
    let i0m = vi(s, x1, ym);
    let i01 = vi(s, x1, y2);
    let im0 = vi(s, xm, y1);
    let im1 = vi(s, xm, y2);
    let i10 = vi(s, x2, y1);
    let i1m = vi(s, x2, ym);
    let i11 = vi(s, x2, y2);
    let r0 = st.rendered[(x1, ym)];
    let r1 = st.rendered[(x2, ym)];
    let r2 = st.rendered[(xm, y1)];
    let r3 = st.rendered[(xm, y2)];
    let rib = whole_ribbons(i00, i01, i10, i11, x1 == 0, x2 == s, y1 == 0, y2 == s, s + 3);
    let fills = crack_fills(i00, i0m, i01, im0, im1, i10, i1m, i11, r0, r1, r2, r3);
    let e = join_visit(st, quads, s, qx, qy, q, coarsest).0.extra;
    assert({
        &&& e == st.extra + (rib + fills)
        &&& join_visit(st, quads, s, qx, qy, q, coarsest).0.tris == st.tris + seq![i00, i01, i11, i11, i10, i00]
        &&& join_visit(st, quads, s, qx, qy, q, coarsest).0.rendered == st.rendered.insert((x1, y1), true).insert((x1, y2), true).insert((x2, y1), true).insert((x2, y2), true)
        &&& join_visit(st, quads, s, qx, qy, q, coarsest).1 == quads.insert((qx, qy), true)
    }) by {
        lemma_join_visit_draw(st, quads, s, qx, qy, q, coarsest);
    }
    assert(e =~= (st.extra + rib) + fills);
    assert(e.take(st.extra.len() as int) =~= st.extra);
    lemma_ribbons_len(i00, i01, i10, i11, x1 == 0, x2 == s, y1 == 0, y2 == s, s + 3);
    lemma_fill_triangles(st.extra + rib, i00, i0m, i01, im0, im1, i10, i1m, i11, r0, r1, r2, r3);
}

/// The ribbons of a quad drawn whole: six indices per plate edge it lies on.
proof fn lemma_ribbons_len(i00: u16, i01: u16, i10: u16, i11: u16, left: bool, right: bool, top: bool, bottom: bool, vr: int)
    ensures
        whole_ribbons(i00, i01, i10, i11, left, right, top, bottom, vr).len() == 6 * ((if left { 1int } else { 0 })
            + (if right { 1int } else { 0 }) + (if top { 1int } else { 0 }) + (if bottom { 1int } else { 0 })),
{
}

/// The crack fills after `pre`: each midpoint drawn by a neighbour has its
/// triangle, three indices each.
proof fn lemma_fill_triangles(
    pre: Seq<u16>,
    i00: u16, i0m: u16, i01: u16, im0: u16, im1: u16, i10: u16, i1m: u16, i11: u16,
    r0: bool, r1: bool, r2: bool, r3: bool,
)
    ensures
        ({
            let e = pre + crack_fills(i00, i0m, i01, im0, im1, i10, i1m, i11, r0, r1, r2, r3);
            &&& r0 ==> has_triangle(e, i00, i0m, i01)
            &&& r1 ==> has_triangle(e, i10, i11, i1m)
            &&& r2 ==> has_triangle(e, i00, i10, im0)
            &&& r3 ==> has_triangle(e, i01, im1, i11)
            &&& e.len() == pre.len() + 3 * ((if r0 { 1int } else { 0 }) + (if r1 { 1int } else { 0 }) + (if r2 { 1int } else { 0 })
                + (if r3 { 1int } else { 0 }))
        }),
{
    let w0 = when(r0, seq![i00, i0m, i01]);
    let w1 = when(r1, seq![i10, i11, i1m]);
    let w2 = when(r2, seq![i00, i10, im0]);
    let w3 = when(r3, seq![i01, im1, i11]);
    let e = pre + crack_fills(i00, i0m, i01, im0, im1, i10, i1m, i11, r0, r1, r2, r3);
    assert(e =~= pre + w0 + w1 + w2 + w3);
    let b: int = pre.len() as int;
    if r0 {
        assert(e[b] == i00 && e[b + 1] == i0m && e[b + 2] == i01);
    }
    if r1 {
        let k: int = b + w0.len();
        assert(e[k] == i10 && e[k + 1] == i11 && e[k + 2] == i1m);
    }
    if r2 {
        let k: int = b + w0.len() + w1.len();
        assert(e[k] == i00 && e[k + 1] == i10 && e[k + 2] == im0);
    }
    if r3 {
        let k: int = b + w0.len() + w1.len() + w2.len();
        assert(e[k] == i01 && e[k + 1] == im1 && e[k + 2] == i11);
    }
}

/// The first look at a quad none of whose children was drawn a level below, one
/// of whose five key points may not be merged away: its four children are drawn,
/// eight triangles over its nine points, top left, top right, bottom left, bottom
/// right, with two ribbons on each plate edge the quad lies on; the nine points
/// count as drawn and the quad is marked.
#[verifier::spinoff_prover]
pub proof fn lemma_split_draws_all_children(
    st: MeshState, quads: Map<(int, int), bool>, child: Map<(int, int), bool>, m: Map<(int, int), bool>,
    s: int, qx: int, qy: int, q: int,
)
    requires
        !(q / 2 > 1 && (child[(2 * qx, 2 * qy)] || child[(2 * qx + 1, 2 * qy)] || child[(2 * qx, 2 * qy + 1)] || child[(2 * qx + 1, 2 * qy + 1)])),
        !(m[(qx * q, qy * q + q / 2)] && m[(qx * q + q, qy * q + q / 2)] && m[(qx * q + q / 2, qy * q)] && m[(qx * q + q / 2, qy * q + q)]
            && m[(qx * q + q / 2, qy * q + q / 2)]),
    ensures
        ({
            let x1 = qx * q;
            let xm = qx * q + q / 2;
            let x2 = qx * q + q;
            let y1 = qy * q;
            let ym = qy * q + q / 2;
            let y2 = qy * q + q;
            let r = split_visit(st, quads, child, m, s, qx, qy, q);
            &&& r.0.tris == st.tris + seq![
                vi(s, x1, y1), vi(s, x1, ym), vi(s, xm, ym), vi(s, xm, ym), vi(s, xm, y1), vi(s, x1, y1),
                vi(s, xm, y1), vi(s, xm, ym), vi(s, x2, ym), vi(s, x2, ym), vi(s, x2, y1), vi(s, xm, y1),
                vi(s, x1, ym), vi(s, x1, y2), vi(s, xm, y2), vi(s, xm, y2), vi(s, xm, ym), vi(s, x1, ym),
                vi(s, xm, ym), vi(s, xm, y2), vi(s, x2, y2), vi(s, x2, y2), vi(s, x2, ym), vi(s, xm, ym)
            ]
            &&& r.0.extra.len() == st.extra.len() + 12 * ((if x1 == 0 { 1int } else { 0 }) + (if x2 == s { 1int } else { 0 })
                + (if y1 == 0 { 1int } else { 0 }) + (if y2 == s { 1int } else { 0 }))
            &&& r.0.extra.take(st.extra.len() as int) == st.extra
            &&& r.1 == quads.insert((qx, qy), true)
            &&& r.0.rendered == mark_nine(st.rendered, x1, xm, x2, y1, ym, y2)
        }),
{
    lemma_split_visit_all(st, quads, child, m, s, qx, qy, q);
    let r = split_visit(st, quads, child, m, s, qx, qy, q);
    assert(r.0.extra.take(st.extra.len() as int) =~= st.extra);
    let x1 = qx * q;
    let xm = qx * q + q / 2;
    let x2 = qx * q + q;
    let y1 = qy * q;
    let ym = qy * q + q / 2;
    let y2 = qy * q + q;
    assert(r.0.tris =~= st.tris + seq![
        vi(s, x1, y1), vi(s, x1, ym), vi(s, xm, ym), vi(s, xm, ym), vi(s, xm, y1), vi(s, x1, y1),
        vi(s, xm, y1), vi(s, xm, ym), vi(s, x2, ym), vi(s, x2, ym), vi(s, x2, y1), vi(s, xm, y1),
        vi(s, x1, ym), vi(s, x1, y2), vi(s, xm, y2), vi(s, xm, y2), vi(s, xm, ym), vi(s, x1, ym),
        vi(s, xm, ym), vi(s, xm, y2), vi(s, x2, y2), vi(s, x2, y2), vi(s, x2, ym), vi(s, xm, ym)
    ]);
}

/// The first look at a quad one of whose children was drawn a level below: each
/// child not drawn yet gets its two triangles (six indices), the nine points count
/// as drawn and the quad is marked.
#[verifier::spinoff_prover]
pub proof fn lemma_split_completes_children(
    st: MeshState, quads: Map<(int, int), bool>, child: Map<(int, int), bool>, m: Map<(int, int), bool>,
    s: int, qx: int, qy: int, q: int,
)
    requires
        q / 2 > 1,
        child[(2 * qx, 2 * qy)] || child[(2 * qx + 1, 2 * qy)] || child[(2 * qx, 2 * qy + 1)] || child[(2 * qx + 1, 2 * qy + 1)],
    ensures
        ({
            let r = split_visit(st, quads, child, m, s, qx, qy, q);
            &&& r.0.tris.len() == st.tris.len() + 6 * ((if child[(2 * qx, 2 * qy)] { 0int } else { 1 })
                + (if child[(2 * qx + 1, 2 * qy)] { 0int } else { 1 }) + (if child[(2 * qx, 2 * qy + 1)] { 0int } else { 1 })
                + (if child[(2 * qx + 1, 2 * qy + 1)] { 0int } else { 1 }))
            &&& r.0.tris.take(st.tris.len() as int) == st.tris
            &&& r.0.extra.take(st.extra.len() as int) == st.extra
            &&& r.1 == quads.insert((qx, qy), true)
            &&& r.0.rendered == mark_nine(st.rendered, qx * q, qx * q + q / 2, qx * q + q, qy * q, qy * q + q / 2, qy * q + q)
        }),
{
    lemma_split_visit_children(st, quads, child, m, s, qx, qy, q);
    let r = split_visit(st, quads, child, m, s, qx, qy, q);
    assert(r.0.tris.take(st.tris.len() as int) =~= st.tris);
    assert(r.0.extra.take(st.extra.len() as int) =~= st.extra);
}

struct IndexBufferBuilder {
    depth: usize,
    size: usize,
    mutable: Array2D<bool>,
    rendered: Array2D<bool>,
    indices: Vec<u16>,
    additional_vertex_indices: Vec<u16>,
}

impl IndexBufferBuilder {
    /// The mesh built so far.
    spec fn mesh(&self) -> MeshState {
        MeshState {
            rendered: self.rendered.cells(),
            tris: self.indices@,
            extra: self.additional_vertex_indices@,
        }
    }

    spec fn wf(&self) -> bool {
        &&& 2 <= self.depth <= 7
        &&& self.size == pow2(self.depth as nat)
        &&& 4 <= self.size <= 128
        &&& self.mutable.w() == self.size + 1
        &&& self.mutable.h() == self.size + 1
        &&& self.rendered.w() == self.size + 1
        &&& self.rendered.h() == self.size + 1
        &&& self.indices@.len() % 6 == 0
        &&& forall|k: int|
            0 <= k < self.indices@.len() ==> is_plate_vertex(self.size as int, #[trigger] self.indices@[k] as int)
        &&& self.additional_vertex_indices@.len() % 3 == 0
        &&& forall|k: int|
            0 <= k < self.additional_vertex_indices@.len() ==> is_vertex(
                self.size as int,
                #[trigger] self.additional_vertex_indices@[k] as int,
            )
        &&& forall|x: int, y: int|
            0 <= x <= self.size && 0 <= y <= self.size && #[trigger] self.rendered.cell(x, y) ==> has_index(
                self.indices@,
                vertex_index(self.size as int, x, y),
            )
    }

    /// What a step keeps: the plate, its grid of mergeable vertices, and the
    /// triangles already written, which it only extends.
    spec fn keeps(&self, old: &Self) -> bool {
        &&& self.depth == old.depth
        &&& self.size == old.size
        &&& self.mutable == old.mutable
        &&& forall|v: int| #[trigger] has_index(old.indices@, v) ==> has_index(self.indices@, v)
    }

    fn idx(&self, x: usize, y: usize) -> (result: u16)
        requires
            self.wf(),
            x <= self.size,
            y <= self.size,
        ensures
            result == vertex_index(self.size as int, x as int, y as int),
    {
        proof {
            lemma_vertex_index(self.size as int, x as int, y as int);
            assert((self.size + 3) * (self.size + 3) <= 131 * 131) by (nonlinear_arith)
                requires
                    self.size <= 128,
            ;
            assert((self.size + 3) * (y + 1) <= 131 * 129) by (nonlinear_arith)
                requires
                    self.size <= 128,
                    y <= self.size,
            ;
        }
        (x + 1 + (self.size + 3) * (y + 1)) as u16
    }

    fn get_indices(&self, x1: usize, xm: usize, x2: usize, y1: usize, ym: usize, y2: usize) -> (result: QuadIndices)
        requires
            self.wf(),
            x1 <= self.size,
            xm <= self.size,
            x2 <= self.size,
            y1 <= self.size,
            ym <= self.size,
            y2 <= self.size,
        ensures
            quad_indices_of(result, self.size as int, x1 as int, xm as int, x2 as int, y1 as int, ym as int, y2 as int),
    {
        QuadIndices {
            i00: self.idx(x1, y1),
            i0m: self.idx(x1, ym),
            i01: self.idx(x1, y2),
            im0: self.idx(xm, y1),
            imm: self.idx(xm, ym),
            im1: self.idx(xm, y2),
            i10: self.idx(x2, y1),
            i1m: self.idx(x2, ym),
            i11: self.idx(x2, y2),
            edge_left: x1 == 0,
            edge_right: x2 == self.size,
            edge_top: y1 == 0,
            edge_bottom: y2 == self.size,
        }
    }

    /// Two triangles for the quad with corners `i00`, `i10`, `i01` and `i11`.
    fn render(&mut self, i00: u16, i10: u16, i01: u16, i11: u16)
        requires
            old(self).wf(),
            is_plate_vertex(old(self).size as int, i00 as int),
            is_plate_vertex(old(self).size as int, i10 as int),
            is_plate_vertex(old(self).size as int, i01 as int),
            is_plate_vertex(old(self).size as int, i11 as int),
        ensures
            final(self).wf(),
            final(self).keeps(old(self)),
            final(self).rendered == old(self).rendered,
            final(self).additional_vertex_indices == old(self).additional_vertex_indices,
            final(self).indices@ == old(self).indices@ + seq![i00, i01, i11, i11, i10, i00],
            has_index(final(self).indices@, i00 as int),
            has_index(final(self).indices@, i10 as int),
            has_index(final(self).indices@, i01 as int),
            has_index(final(self).indices@, i11 as int),
    {
        self.indices.push(i00);
        self.indices.push(i01);
        self.indices.push(i11);
        self.indices.push(i11);
        self.indices.push(i10);
        self.indices.push(i00);
        proof {
            let a = old(self).indices@;
            assert(self.indices@ =~= a + seq![i00, i01, i11, i11, i10, i00]);
            assert(self.indices@.take(a.len() as int) =~= a);
            assert(self.indices@[a.len() as int] == i00);
            assert(self.indices@[a.len() as int + 1] == i01);
            assert(self.indices@[a.len() as int + 2] == i11);
            assert(self.indices@[a.len() as int + 4] == i10);
            assert forall|v: int| #[trigger] has_index(a, v) implies has_index(self.indices@, v) by {
                lemma_has_grows(a, self.indices@, v);
            }
            assert forall|x: int, y: int|
                0 <= x <= self.size && 0 <= y <= self.size && #[trigger] self.rendered.cell(x, y) implies has_index(
                self.indices@,
                vertex_index(self.size as int, x, y),
            ) by {
                lemma_has_grows(a, self.indices@, vertex_index(self.size as int, x, y));
            }
        }
    }

    /// Two ribbon triangles between the plate's edge from `i0` to `i1` and the
    /// ribbon vertices `ofs` away from them.
    fn ribbon(&mut self, i0: u16, i1: u16, ofs: i32)
        requires
            old(self).wf(),
            is_plate_vertex(old(self).size as int, i0 as int),
            is_plate_vertex(old(self).size as int, i1 as int),
            ofs == 1 || ofs == -1 || ofs == old(self).size + 3 || ofs == -(old(self).size + 3),
        ensures
            final(self).wf(),
            final(self).keeps(old(self)),
            final(self).rendered == old(self).rendered,
            final(self).indices == old(self).indices,
            final(self).additional_vertex_indices@ == old(self).additional_vertex_indices@ + seq![
                i0,
                i1,
                (i0 + ofs) as u16,
                i1,
                (i1 + ofs) as u16,
                (i0 + ofs) as u16,
            ],
    {
        proof {
            lemma_neighbours(self.size as int, i0 as int);
            lemma_neighbours(self.size as int, i1 as int);
            assert((self.size + 3) * (self.size + 3) <= 131 * 131) by (nonlinear_arith)
                requires
                    self.size <= 128,
            ;
        }
        let r0 = (i0 as i32 + ofs) as u16;
        let r1 = (i1 as i32 + ofs) as u16;
        self.additional_vertex_indices.push(i0);
        self.additional_vertex_indices.push(i1);
        self.additional_vertex_indices.push(r0);
        self.additional_vertex_indices.push(i1);
        self.additional_vertex_indices.push(r1);
        self.additional_vertex_indices.push(r0);
        proof {
            assert(self.additional_vertex_indices@ =~= old(self).additional_vertex_indices@ + seq![
                i0,
                i1,
                r0,
                i1,
                r1,
                r0,
            ]);
            assert(self.indices@.take(self.indices@.len() as int) =~= self.indices@);
        }
    }

    /// Three extra indices: a triangle that fills the crack at a split edge.
    fn fill_crack(&mut self, a: u16, b: u16, c: u16)
        requires
            old(self).wf(),
            is_vertex(old(self).size as int, a as int),
            is_vertex(old(self).size as int, b as int),
            is_vertex(old(self).size as int, c as int),
        ensures
            final(self).wf(),
            final(self).keeps(old(self)),
            final(self).rendered == old(self).rendered,
            final(self).indices == old(self).indices,
            final(self).additional_vertex_indices@ == old(self).additional_vertex_indices@ + seq![a, b, c],
    {
        self.additional_vertex_indices.push(a);
        self.additional_vertex_indices.push(b);
        self.additional_vertex_indices.push(c);
        proof {
            assert(self.additional_vertex_indices@ =~= old(self).additional_vertex_indices@ + seq![a, b, c]);
            assert(self.indices@.take(self.indices@.len() as int) =~= self.indices@);
        }
    }

    /// Marks vertex (`x`, `y`), which is in the mesh, as rendered.
    fn mark_rendered(&mut self, x: usize, y: usize)
        requires
            old(self).wf(),
            x <= old(self).size,
            y <= old(self).size,
            has_index(old(self).indices@, vertex_index(old(self).size as int, x as int, y as int)),
        ensures
            final(self).wf(),
            final(self).keeps(old(self)),
            final(self).indices == old(self).indices,
            final(self).additional_vertex_indices == old(self).additional_vertex_indices,
            final(self).rendered.cell(x as int, y as int),
            final(self).rendered.cells() == old(self).rendered.cells().insert((x as int, y as int), true),
            forall|i: int, j: int| #[trigger] old(self).rendered.cell(i, j) && 0 <= i <= old(self).size && 0 <= j <= old(self).size ==> final(self).rendered.cell(i, j),
    {
        self.rendered.set(x, y, true);
        proof {
            assert(self.indices@.take(self.indices@.len() as int) =~= self.indices@);
            assert forall|i: int, j: int|
                0 <= i <= self.size && 0 <= j <= self.size && #[trigger] self.rendered.cell(i, j) implies has_index(
                self.indices@,
                vertex_index(self.size as int, i, j),
            ) by {
                if i != x || j != y {
                    assert(self.rendered.cell(i, j) == old(self).rendered.cell(i, j));
                }
            }
        }
    }


    /// Where `draw` holds, draws the quad `a`, `b`, `c`, `d` (as `render` takes
    /// them) with up to two ribbons: from `p0` to `p1` `o1` away where `e1` holds,
    /// from `q0` to `q1` `o2` away where `e2` holds.
    fn draw_child(
        &mut self,
        draw: bool,
        a: u16, b: u16, c: u16, d: u16,
        e1: bool, p0: u16, p1: u16, o1: i32,
        e2: bool, q0: u16, q1: u16, o2: i32,
    )
        requires
            old(self).wf(),
            is_plate_vertex(old(self).size as int, a as int),
            is_plate_vertex(old(self).size as int, b as int),
            is_plate_vertex(old(self).size as int, c as int),
            is_plate_vertex(old(self).size as int, d as int),
            is_plate_vertex(old(self).size as int, p0 as int),
            is_plate_vertex(old(self).size as int, p1 as int),
            is_plate_vertex(old(self).size as int, q0 as int),
            is_plate_vertex(old(self).size as int, q1 as int),
            o1 == 1 || o1 == -1 || o1 == old(self).size + 3 || o1 == -(old(self).size + 3),
            o2 == 1 || o2 == -1 || o2 == old(self).size + 3 || o2 == -(old(self).size + 3),
        ensures
            final(self).wf(),
            final(self).keeps(old(self)),
            final(self).rendered == old(self).rendered,
            final(self).indices@ == old(self).indices@ + when(draw, quad_tris(a, b, c, d)),
            final(self).additional_vertex_indices@ == old(self).additional_vertex_indices@ + when(
                draw,
                when(e1, ribbon_tris(p0, p1, o1 as int)) + when(e2, ribbon_tris(q0, q1, o2 as int)),
            ),
    {
        let ghost t0 = self.indices@;
        let ghost e0 = self.additional_vertex_indices@;
        if draw {
            self.render(a, b, c, d);
            let ghost e1s = self.additional_vertex_indices@;
            if e1 {
                self.ribbon(p0, p1, o1);
            }
            let ghost e2s = self.additional_vertex_indices@;
            if e2 {
                self.ribbon(q0, q1, o2);
            }
            proof {
                assert(e2s =~= e1s + when(e1, ribbon_tris(p0, p1, o1 as int)));
                assert(self.additional_vertex_indices@ =~= e2s + when(e2, ribbon_tris(q0, q1, o2 as int)));
                assert(self.additional_vertex_indices@ =~= e0 + when(
                    draw,
                    when(e1, ribbon_tris(p0, p1, o1 as int)) + when(e2, ribbon_tris(q0, q1, o2 as int)),
                ));
            }
        } else {
            proof {
                assert(self.indices@ =~= t0 + when(draw, quad_tris(a, b, c, d)));
                assert(self.additional_vertex_indices@ =~= e0 + when(
                    draw,
                    when(e1, ribbon_tris(p0, p1, o1 as int)) + when(e2, ribbon_tris(q0, q1, o2 as int)),
                ));
                assert(self.indices@.take(self.indices@.len() as int) =~= self.indices@);
            }
        }
    }

    /// Draws the children of a quad not drawn a level below (`c0` to `c3`), with
    /// their ribbons on the plate's edges.
    fn draw_children(&mut self, idx: &QuadIndices, c0: bool, c1: bool, c2: bool, c3: bool, vribbonofs: i32)
        requires
            old(self).wf(),
            vribbonofs == old(self).size + 3,
            is_plate_vertex(old(self).size as int, idx.i00 as int),
            is_plate_vertex(old(self).size as int, idx.i0m as int),
            is_plate_vertex(old(self).size as int, idx.i01 as int),
            is_plate_vertex(old(self).size as int, idx.im0 as int),
            is_plate_vertex(old(self).size as int, idx.imm as int),
            is_plate_vertex(old(self).size as int, idx.im1 as int),
            is_plate_vertex(old(self).size as int, idx.i10 as int),
            is_plate_vertex(old(self).size as int, idx.i1m as int),
            is_plate_vertex(old(self).size as int, idx.i11 as int),
        ensures
            final(self).wf(),
            final(self).keeps(old(self)),
            final(self).rendered == old(self).rendered,
            final(self).indices@ == old(self).indices@ + children_tris(
                idx.i00, idx.i0m, idx.i01, idx.im0, idx.imm, idx.im1, idx.i10, idx.i1m, idx.i11, c0, c1, c2, c3,
            ),
            final(self).additional_vertex_indices@ == old(self).additional_vertex_indices@ + children_extra(
                idx.i00, idx.i0m, idx.i01, idx.im0, idx.im1, idx.i10, idx.i1m, idx.i11,
                idx.edge_left, idx.edge_right, idx.edge_top, idx.edge_bottom, vribbonofs as int,
                c0, c1, c2, c3,
            ),
    {
        let ghost t0 = self.indices@;
        let ghost e0 = self.additional_vertex_indices@;
        self.draw_child(!c0, idx.i00, idx.im0, idx.i0m, idx.imm, idx.edge_left, idx.i0m, idx.i00, -1, idx.edge_top, idx.i00, idx.im0, -vribbonofs);
        self.draw_child(!c1, idx.im0, idx.i10, idx.imm, idx.i1m, idx.edge_top, idx.im0, idx.i10, -vribbonofs, idx.edge_right, idx.i10, idx.i1m, 1);
        self.draw_child(!c2, idx.i0m, idx.imm, idx.i01, idx.im1, idx.edge_left, idx.i01, idx.i0m, -1, idx.edge_bottom, idx.im1, idx.i01, vribbonofs);
        self.draw_child(!c3, idx.imm, idx.i1m, idx.im1, idx.i11, idx.edge_right, idx.i1m, idx.i11, 1, idx.edge_bottom, idx.i11, idx.im1, vribbonofs);
        proof {
            let vr = vribbonofs as int;
            lemma_append4(
                t0,
                when(!c0, quad_tris(idx.i00, idx.im0, idx.i0m, idx.imm)),
                when(!c1, quad_tris(idx.im0, idx.i10, idx.imm, idx.i1m)),
                when(!c2, quad_tris(idx.i0m, idx.imm, idx.i01, idx.im1)),
                when(!c3, quad_tris(idx.imm, idx.i1m, idx.im1, idx.i11)),
            );
            lemma_append4(
                e0,
                when(!c0, when(idx.edge_left, ribbon_tris(idx.i0m, idx.i00, -1)) + when(idx.edge_top, ribbon_tris(idx.i00, idx.im0, -vr))),
                when(!c1, when(idx.edge_top, ribbon_tris(idx.im0, idx.i10, -vr)) + when(idx.edge_right, ribbon_tris(idx.i10, idx.i1m, 1))),
                when(!c2, when(idx.edge_left, ribbon_tris(idx.i01, idx.i0m, -1)) + when(idx.edge_bottom, ribbon_tris(idx.im1, idx.i01, vr))),
                when(!c3, when(idx.edge_right, ribbon_tris(idx.i1m, idx.i11, 1)) + when(idx.edge_bottom, ribbon_tris(idx.i11, idx.im1, vr))),
            );
        }
    }

    /// Draws all four children of a quad, with their ribbons on the plate's edges:
    /// the triangles and the ribbons go to separate buffers, so each child's call
    /// carries the pair of ribbons of one edge, left, right, top, then bottom.
    fn draw_all(&mut self, idx: &QuadIndices, vribbonofs: i32)
        requires
            old(self).wf(),
            vribbonofs == old(self).size + 3,
            is_plate_vertex(old(self).size as int, idx.i00 as int),
            is_plate_vertex(old(self).size as int, idx.i0m as int),
            is_plate_vertex(old(self).size as int, idx.i01 as int),
            is_plate_vertex(old(self).size as int, idx.im0 as int),
            is_plate_vertex(old(self).size as int, idx.imm as int),
            is_plate_vertex(old(self).size as int, idx.im1 as int),
            is_plate_vertex(old(self).size as int, idx.i10 as int),
            is_plate_vertex(old(self).size as int, idx.i1m as int),
            is_plate_vertex(old(self).size as int, idx.i11 as int),
        ensures
            final(self).wf(),
            final(self).keeps(old(self)),
            final(self).rendered == old(self).rendered,
            final(self).indices@ == old(self).indices@ + all_tris(
                idx.i00, idx.i0m, idx.i01, idx.im0, idx.imm, idx.im1, idx.i10, idx.i1m, idx.i11,
            ),
            final(self).additional_vertex_indices@ == old(self).additional_vertex_indices@ + all_extra(
                idx.i00, idx.i0m, idx.i01, idx.im0, idx.im1, idx.i10, idx.i1m, idx.i11,
                idx.edge_left, idx.edge_right, idx.edge_top, idx.edge_bottom, vribbonofs as int,
            ),
    {
        let ghost t0 = self.indices@;
        let ghost e0 = self.additional_vertex_indices@;
        self.draw_child(true, idx.i00, idx.im0, idx.i0m, idx.imm, idx.edge_left, idx.i01, idx.i0m, -1, idx.edge_left, idx.i0m, idx.i00, -1);
        self.draw_child(true, idx.im0, idx.i10, idx.imm, idx.i1m, idx.edge_right, idx.i10, idx.i1m, 1, idx.edge_right, idx.i1m, idx.i11, 1);
        self.draw_child(true, idx.i0m, idx.imm, idx.i01, idx.im1, idx.edge_top, idx.i00, idx.im0, -vribbonofs, idx.edge_top, idx.im0, idx.i10, -vribbonofs);
        self.draw_child(true, idx.imm, idx.i1m, idx.im1, idx.i11, idx.edge_bottom, idx.i11, idx.im1, vribbonofs, idx.edge_bottom, idx.im1, idx.i01, vribbonofs);
        proof {
            let vr = vribbonofs as int;
            lemma_append4(
                t0,
                quad_tris(idx.i00, idx.im0, idx.i0m, idx.imm),
                quad_tris(idx.im0, idx.i10, idx.imm, idx.i1m),
                quad_tris(idx.i0m, idx.imm, idx.i01, idx.im1),
                quad_tris(idx.imm, idx.i1m, idx.im1, idx.i11),
            );
            let l = when(idx.edge_left, ribbon_tris(idx.i01, idx.i0m, -1)) + when(idx.edge_left, ribbon_tris(idx.i0m, idx.i00, -1));
            let r = when(idx.edge_right, ribbon_tris(idx.i10, idx.i1m, 1)) + when(idx.edge_right, ribbon_tris(idx.i1m, idx.i11, 1));
            let t = when(idx.edge_top, ribbon_tris(idx.i00, idx.im0, -vr)) + when(idx.edge_top, ribbon_tris(idx.im0, idx.i10, -vr));
            let b = when(idx.edge_bottom, ribbon_tris(idx.i11, idx.im1, vr)) + when(idx.edge_bottom, ribbon_tris(idx.im1, idx.i01, vr));
            assert(l =~= when(idx.edge_left, ribbon_tris(idx.i01, idx.i0m, -1) + ribbon_tris(idx.i0m, idx.i00, -1)));
            assert(r =~= when(idx.edge_right, ribbon_tris(idx.i10, idx.i1m, 1) + ribbon_tris(idx.i1m, idx.i11, 1)));
            assert(t =~= when(idx.edge_top, ribbon_tris(idx.i00, idx.im0, -vr) + ribbon_tris(idx.im0, idx.i10, -vr)));
            assert(b =~= when(idx.edge_bottom, ribbon_tris(idx.i11, idx.im1, vr) + ribbon_tris(idx.im1, idx.i01, vr)));
            lemma_append4(e0, l, r, t, b);
        }
    }

    /// The ribbons of a quad drawn whole on the plate's edges.
    fn whole_quad_ribbons(&mut self, idx: &QuadIndices, vribbonofs: i32)
        requires
            old(self).wf(),
            vribbonofs == old(self).size + 3,
            is_plate_vertex(old(self).size as int, idx.i00 as int),
            is_plate_vertex(old(self).size as int, idx.i01 as int),
            is_plate_vertex(old(self).size as int, idx.i10 as int),
            is_plate_vertex(old(self).size as int, idx.i11 as int),
        ensures
            final(self).wf(),
            final(self).keeps(old(self)),
            final(self).rendered == old(self).rendered,
            final(self).indices == old(self).indices,
            final(self).additional_vertex_indices@ == old(self).additional_vertex_indices@ + whole_ribbons(
                idx.i00, idx.i01, idx.i10, idx.i11,
                idx.edge_left, idx.edge_right, idx.edge_top, idx.edge_bottom, vribbonofs as int,
            ),
    {
        let ghost vr = vribbonofs as int;
        let ghost e0 = self.additional_vertex_indices@;
        if idx.edge_left {
            self.ribbon(idx.i01, idx.i00, -1);
        }
        let ghost e1 = self.additional_vertex_indices@;
        assert(e1 =~= e0 + when(idx.edge_left, ribbon_tris(idx.i01, idx.i00, -1)));
        if idx.edge_right {
            self.ribbon(idx.i10, idx.i11, 1);
        }
        let ghost e2 = self.additional_vertex_indices@;
        assert(e2 =~= e1 + when(idx.edge_right, ribbon_tris(idx.i10, idx.i11, 1)));
        if idx.edge_top {
            self.ribbon(idx.i00, idx.i10, -vribbonofs);
        }
        let ghost e3 = self.additional_vertex_indices@;
        assert(e3 =~= e2 + when(idx.edge_top, ribbon_tris(idx.i00, idx.i10, -vr)));
        if idx.edge_bottom {
            self.ribbon(idx.i11, idx.i01, vribbonofs);
        }
        proof {
            assert(self.additional_vertex_indices@ =~= e3 + when(idx.edge_bottom, ribbon_tris(idx.i11, idx.i01, vr)));
            lemma_append4(
                e0,
                when(idx.edge_left, ribbon_tris(idx.i01, idx.i00, -1)),
                when(idx.edge_right, ribbon_tris(idx.i10, idx.i11, 1)),
                when(idx.edge_top, ribbon_tris(idx.i00, idx.i10, -vr)),
                when(idx.edge_bottom, ribbon_tris(idx.i11, idx.i01, vr)),
            );
            assert(self.indices@.take(self.indices@.len() as int) =~= self.indices@);
        }
    }

    /// A triangle filling the crack at each edge midpoint of a quad drawn whole
    /// that a neighbour drew (`r0` to `r3`: left, right, top, bottom).
    fn quad_crack_fills(&mut self, idx: &QuadIndices, r0: bool, r1: bool, r2: bool, r3: bool)
        requires
            old(self).wf(),
            is_vertex(old(self).size as int, idx.i00 as int),
            is_vertex(old(self).size as int, idx.i0m as int),
            is_vertex(old(self).size as int, idx.i01 as int),
            is_vertex(old(self).size as int, idx.im0 as int),
            is_vertex(old(self).size as int, idx.im1 as int),
            is_vertex(old(self).size as int, idx.i10 as int),
            is_vertex(old(self).size as int, idx.i1m as int),
            is_vertex(old(self).size as int, idx.i11 as int),
        ensures
            final(self).wf(),
            final(self).keeps(old(self)),
            final(self).rendered == old(self).rendered,
            final(self).indices == old(self).indices,
            final(self).additional_vertex_indices@ == old(self).additional_vertex_indices@ + crack_fills(
                idx.i00, idx.i0m, idx.i01, idx.im0, idx.im1, idx.i10, idx.i1m, idx.i11, r0, r1, r2, r3,
            ),
    {
        let ghost e0 = self.additional_vertex_indices@;
        if r0 {
            self.fill_crack(idx.i00, idx.i0m, idx.i01);
        }
        let ghost e1 = self.additional_vertex_indices@;
        assert(e1 =~= e0 + when(r0, seq![idx.i00, idx.i0m, idx.i01]));
        if r1 {
            self.fill_crack(idx.i10, idx.i11, idx.i1m);
        }
        let ghost e2 = self.additional_vertex_indices@;
        assert(e2 =~= e1 + when(r1, seq![idx.i10, idx.i11, idx.i1m]));
        if r2 {
            self.fill_crack(idx.i00, idx.i10, idx.im0);
        }
        let ghost e3 = self.additional_vertex_indices@;
        assert(e3 =~= e2 + when(r2, seq![idx.i00, idx.i10, idx.im0]));
        if r3 {
            self.fill_crack(idx.i01, idx.im1, idx.i11);
        }
        proof {
            assert(self.additional_vertex_indices@ =~= e3 + when(r3, seq![idx.i01, idx.im1, idx.i11]));
            lemma_append4(
                e0,
                when(r0, seq![idx.i00, idx.i0m, idx.i01]),
                when(r1, seq![idx.i10, idx.i11, idx.i1m]),
                when(r2, seq![idx.i00, idx.i10, idx.im0]),
                when(r3, seq![idx.i01, idx.im1, idx.i11]),
            );
            assert(self.indices@.take(self.indices@.len() as int) =~= self.indices@);
        }
    }

    /// Marks the nine points of a quad, all of them in the mesh, as rendered, and
    /// changes nothing else.
    fn set_rendered_flags(&mut self, x1: usize, xm: usize, x2: usize, y1: usize, ym: usize, y2: usize)
        requires
            old(self).wf(),
            x1 <= old(self).size,
            xm <= old(self).size,
            x2 <= old(self).size,
            y1 <= old(self).size,
            ym <= old(self).size,
            y2 <= old(self).size,
            has_index(old(self).indices@, vertex_index(old(self).size as int, x1 as int, y1 as int)),
            has_index(old(self).indices@, vertex_index(old(self).size as int, x1 as int, ym as int)),
            has_index(old(self).indices@, vertex_index(old(self).size as int, x1 as int, y2 as int)),
            has_index(old(self).indices@, vertex_index(old(self).size as int, xm as int, y1 as int)),
            has_index(old(self).indices@, vertex_index(old(self).size as int, xm as int, ym as int)),
            has_index(old(self).indices@, vertex_index(old(self).size as int, xm as int, y2 as int)),
            has_index(old(self).indices@, vertex_index(old(self).size as int, x2 as int, y1 as int)),
            has_index(old(self).indices@, vertex_index(old(self).size as int, x2 as int, ym as int)),
            has_index(old(self).indices@, vertex_index(old(self).size as int, x2 as int, y2 as int)),
        ensures
            final(self).wf(),
            final(self).keeps(old(self)),
            final(self).indices == old(self).indices,
            final(self).additional_vertex_indices == old(self).additional_vertex_indices,
            final(self).rendered.cells() == old(self).rendered.cells().insert((x1 as int, y1 as int), true).insert(
                (x1 as int, ym as int),
                true,
            ).insert((x1 as int, y2 as int), true).insert((xm as int, y1 as int), true).insert(
                (xm as int, ym as int),
                true,
            ).insert((xm as int, y2 as int), true).insert((x2 as int, y1 as int), true).insert(
                (x2 as int, ym as int),
                true,
            ).insert((x2 as int, y2 as int), true),
    {
        self.mark_rendered(x1, y1);
        self.mark_rendered(x1, ym);
        self.mark_rendered(x1, y2);
        self.mark_rendered(xm, y1);
        self.mark_rendered(xm, ym);
        self.mark_rendered(xm, y2);
        self.mark_rendered(x2, y1);
        self.mark_rendered(x2, ym);
        self.mark_rendered(x2, y2);
    }

    /// The first look at quad (`quadx`, `quady`) of a level of quads `qsize`
    /// vertices wide: if one of its children was drawn, the others are drawn too;
    /// else, if one of its five key points may not be merged away, its four
    /// children are drawn. Either way the quad is marked as drawn.
    #[verifier::rlimit(60)]
    fn visit_split(
        &mut self,
        childquads: &Array2D<bool>,
        quads: &mut Array2D<bool>,
        quadx: usize,
        quady: usize,
        count: usize,
        qsize: usize,
        vribbonofs: i32,
    )
        requires
            old(self).wf(),
            count * qsize == old(self).size,
            2 <= qsize,
            qsize % 2 == 0,
            quadx < count,
            quady < count,
            vribbonofs == old(self).size + 3,
            old(quads).w() == count,
            old(quads).h() == count,
            quads_in(old(quads).cells(), old(self).indices@, old(self).size as int, qsize as int),
            qsize > 2 ==> {
                &&& childquads.w() == 2 * count
                &&& childquads.h() == 2 * count
                &&& quads_in(childquads.cells(), old(self).indices@, old(self).size as int, qsize as int / 2)
            },
        ensures
            final(self).wf(),
            final(self).keeps(old(self)),
            final(quads).w() == count,
            final(quads).h() == count,
            quads_in(final(quads).cells(), final(self).indices@, old(self).size as int, qsize as int),
            keypoints_covered(
                old(self).mutable.cells(),
                final(self).indices@,
                old(self).size as int,
                quadx * qsize,
                quadx * qsize + qsize / 2,
                quadx * qsize + qsize,
                quady * qsize,
                quady * qsize + qsize / 2,
                quady * qsize + qsize,
            ),
            (final(self).mesh(), final(quads).cells()) == split_visit(
                old(self).mesh(),
                old(quads).cells(),
                childquads.cells(),
                old(self).mutable.cells(),
                old(self).size as int,
                quadx as int,
                quady as int,
                qsize as int,
            ),
    {
        let ghost s = self.size as int;
        let ghost m = self.mutable.cells();
        let ghost start = self.indices@;
        let ghost q0 = quads.cells();
        let size2 = qsize / 2;
        proof {
            assert(count <= count * qsize) by (nonlinear_arith)
                requires
                    2 <= qsize,
                    0 <= count,
            ;
            assert(quadx * qsize + qsize <= count * qsize) by (nonlinear_arith)
                requires
                    quadx < count,
                    0 <= qsize,
            ;
            assert(quady * qsize + qsize <= count * qsize) by (nonlinear_arith)
                requires
                    quady < count,
                    0 <= qsize,
            ;
            assert(0 <= quadx * qsize && 0 <= quady * qsize) by (nonlinear_arith)
                requires
                    0 <= quadx,
                    0 <= quady,
                    0 <= qsize,
            ;
        }
        let x1 = quadx * qsize;
        let xm = quadx * qsize + size2;
        let x2 = quadx * qsize + qsize;
        let y1 = quady * qsize;
        let ym = quady * qsize + size2;
        let y2 = quady * qsize + qsize;
        proof {
            lemma_vertex_index(s, x1 as int, y1 as int);
            lemma_vertex_index(s, x1 as int, ym as int);
            lemma_vertex_index(s, x1 as int, y2 as int);
            lemma_vertex_index(s, xm as int, y1 as int);
            lemma_vertex_index(s, xm as int, ym as int);
            lemma_vertex_index(s, xm as int, y2 as int);
            lemma_vertex_index(s, x2 as int, y1 as int);
            lemma_vertex_index(s, x2 as int, ym as int);
            lemma_vertex_index(s, x2 as int, y2 as int);
        }
        if size2 > 1 {
            proof {
                assert(2 * quadx + 1 < 2 * count);
                assert(2 * quady + 1 < 2 * count);
                assert((2 * quadx) * size2 == x1 && (2 * quadx + 1) * size2 == xm && (2 * quadx + 1) * size2 + size2
                    == x2) by (nonlinear_arith)
                    requires
                        qsize == 2 * size2,
                        x1 == quadx * qsize,
                        xm == quadx * qsize + size2,
                        x2 == quadx * qsize + qsize,
                ;
                assert((2 * quady) * size2 == y1 && (2 * quady + 1) * size2 == ym && (2 * quady + 1) * size2 + size2
                    == y2) by (nonlinear_arith)
                    requires
                        qsize == 2 * size2,
                        y1 == quady * qsize,
                        ym == quady * qsize + size2,
                        y2 == quady * qsize + qsize,
                ;
            }
            let c0 = *childquads.at(2 * quadx, 2 * quady);
            let c1 = *childquads.at(2 * quadx + 1, 2 * quady);
            let c2 = *childquads.at(2 * quadx, 2 * quady + 1);
            let c3 = *childquads.at(2 * quadx + 1, 2 * quady + 1);
            if c0 || c1 || c2 || c3 {
                proof {
                    let cq = childquads.cells();
                    assert(c0 == cq[((2 * quadx) as int, (2 * quady) as int)]);
                    assert(c1 == cq[((2 * quadx + 1) as int, (2 * quady) as int)]);
                    assert(c2 == cq[((2 * quadx) as int, (2 * quady + 1) as int)]);
                    assert(c3 == cq[((2 * quadx + 1) as int, (2 * quady + 1) as int)]);
                    childquads.lemma_domain();
                }
                let idx = self.get_indices(x1, xm, x2, y1, ym, y2);
                let ghost t0 = self.indices@;
                self.draw_children(&idx, c0, c1, c2, c3, vribbonofs);
                proof {
                    lemma_children_has(t0, idx.i00, idx.i0m, idx.i01, idx.im0, idx.imm, idx.im1, idx.i10, idx.i1m, idx.i11, c0, c1, c2, c3);
                }
                self.set_rendered_flags(x1, xm, x2, y1, ym, y2);
                quads.set(quadx, quady, true);
                proof {
                    self.lemma_mark_quad(q0, quads.cells(), start, quadx as int, quady as int, qsize as int);
                    lemma_quad_vi(idx, s, x1 as int, xm as int, x2 as int, y1 as int, ym as int, y2 as int);
                    lemma_split_visit_children(old(self).mesh(), q0, childquads.cells(), m, s, quadx as int, quady as int, qsize as int);
                    assert(self.mesh() =~= split_visit(old(self).mesh(), q0, childquads.cells(), m, s, quadx as int, quady as int, qsize as int).0);
                }
                return;
            }
        }
        let mutable = [
            *self.mutable.at(x1, ym),
            *self.mutable.at(x2, ym),
            *self.mutable.at(xm, y1),
            *self.mutable.at(xm, y2),
            *self.mutable.at(xm, ym),
        ];
        let all_mutable = mutable[0] && mutable[1] && mutable[2] && mutable[3] && mutable[4];
        if !all_mutable {
            let idx = self.get_indices(x1, xm, x2, y1, ym, y2);
            let ghost t0 = self.indices@;
            self.draw_all(&idx, vribbonofs);
            proof {
                lemma_all_has(t0, idx.i00, idx.i0m, idx.i01, idx.im0, idx.imm, idx.im1, idx.i10, idx.i1m, idx.i11);
            }
            self.set_rendered_flags(x1, xm, x2, y1, ym, y2);
            quads.set(quadx, quady, true);
            proof {
                self.lemma_mark_quad(q0, quads.cells(), start, quadx as int, quady as int, qsize as int);
                lemma_quad_vi(idx, s, x1 as int, xm as int, x2 as int, y1 as int, ym as int, y2 as int);
                lemma_split_visit_all(old(self).mesh(), q0, childquads.cells(), m, s, quadx as int, quady as int, qsize as int);
                assert(self.mesh() =~= split_visit(old(self).mesh(), q0, childquads.cells(), m, s, quadx as int, quady as int, qsize as int).0);
            }
        } else {
            proof {
                assert(self.indices@.take(self.indices@.len() as int) =~= self.indices@);
                lemma_split_visit_none(old(self).mesh(), q0, childquads.cells(), m, s, quadx as int, quady as int, qsize as int);
            }
        }
    }

    /// Marking quad (`qx`, `qy`), whose corners are in the mesh, keeps every
    /// marked quad's corners in the mesh.
    proof fn lemma_mark_quad(
        &self,
        before: Map<(int, int), bool>,
        after: Map<(int, int), bool>,
        start: Seq<u16>,
        qx: int,
        qy: int,
        q: int,
    )
        requires
            quads_in(before, start, self.size as int, q),
            forall|v: int| #[trigger] has_index(start, v) ==> has_index(self.indices@, v),
            after == before.insert((qx, qy), true),
            corners_in(self.indices@, self.size as int, qx * q, qy * q, qx * q + q, qy * q + q),
        ensures
            quads_in(after, self.indices@, self.size as int, q),
    {
        lemma_quads_grows(before, start, self.indices@, self.size as int, q);
    }

    /// The second look at quad (`quadx`, `quady`), not drawn yet: it is drawn
    /// whole if the midpoint of one of its edges was drawn by a neighbour (and
    /// then the crack at that midpoint is filled), or if this is the coarsest
    /// level.
    #[verifier::rlimit(40)]
    fn visit_join(
        &mut self,
        quads: &mut Array2D<bool>,
        quadx: usize,
        quady: usize,
        count: usize,
        qsize: usize,
        vribbonofs: i32,
        coarsest: bool,
    )
        requires
            old(self).wf(),
            count * qsize == old(self).size,
            2 <= qsize,
            qsize % 2 == 0,
            quadx < count,
            quady < count,
            vribbonofs == old(self).size + 3,
            old(quads).w() == count,
            old(quads).h() == count,
            quads_in(old(quads).cells(), old(self).indices@, old(self).size as int, qsize as int),
        ensures
            final(self).wf(),
            final(self).keeps(old(self)),
            final(quads).w() == count,
            final(quads).h() == count,
            quads_in(final(quads).cells(), final(self).indices@, old(self).size as int, qsize as int),
            coarsest ==> final(quads).cell(quadx as int, quady as int),
            forall|i: int, j: int|
                0 <= i < count && 0 <= j < count && #[trigger] old(quads).cell(i, j) ==> final(quads).cell(i, j),
            (final(self).mesh(), final(quads).cells()) == join_visit(
                old(self).mesh(),
                old(quads).cells(),
                old(self).size as int,
                quadx as int,
                quady as int,
                qsize as int,
                coarsest,
            ),
    {
        let ghost s = self.size as int;
        let ghost start = self.indices@;
        let ghost q0 = quads.cells();
        if *quads.at(quadx, quady) {
            proof {
                lemma_join_visit_skip(old(self).mesh(), q0, s, quadx as int, quady as int, qsize as int, coarsest);
            }
            return;
        }
        let size2 = qsize / 2;
        proof {
            assert(quadx * qsize + qsize <= count * qsize) by (nonlinear_arith)
                requires
                    quadx < count,
                    0 <= qsize,
            ;
            assert(quady * qsize + qsize <= count * qsize) by (nonlinear_arith)
                requires
                    quady < count,
                    0 <= qsize,
            ;
            assert(0 <= quadx * qsize && 0 <= quady * qsize) by (nonlinear_arith)
                requires
                    0 <= quadx,
                    0 <= quady,
                    0 <= qsize,
            ;
        }
        let x1 = quadx * qsize;
        let xm = quadx * qsize + size2;
        let x2 = quadx * qsize + qsize;
        let y1 = quady * qsize;
        let ym = quady * qsize + size2;
        let y2 = quady * qsize + qsize;
        proof {
            lemma_vertex_index(s, x1 as int, y1 as int);
            lemma_vertex_index(s, x1 as int, ym as int);
            lemma_vertex_index(s, x1 as int, y2 as int);
            lemma_vertex_index(s, xm as int, y1 as int);
            lemma_vertex_index(s, xm as int, y2 as int);
            lemma_vertex_index(s, x2 as int, y1 as int);
            lemma_vertex_index(s, x2 as int, ym as int);
            lemma_vertex_index(s, x2 as int, y2 as int);
            lemma_neighbours(s, vertex_index(s, x1 as int, y1 as int));
            lemma_neighbours(s, vertex_index(s, x1 as int, ym as int));
            lemma_neighbours(s, vertex_index(s, x1 as int, y2 as int));
            lemma_neighbours(s, vertex_index(s, xm as int, y1 as int));
            lemma_neighbours(s, vertex_index(s, xm as int, y2 as int));
            lemma_neighbours(s, vertex_index(s, x2 as int, y1 as int));
            lemma_neighbours(s, vertex_index(s, x2 as int, ym as int));
            lemma_neighbours(s, vertex_index(s, x2 as int, y2 as int));
        }
        let rendered = [
            *self.rendered.at(x1, ym),
            *self.rendered.at(x2, ym),
            *self.rendered.at(xm, y1),
            *self.rendered.at(xm, y2),
        ];
        let some_rendered = rendered[0] || rendered[1] || rendered[2] || rendered[3];
        if some_rendered || coarsest {
            let idx = self.get_indices(x1, xm, x2, y1, ym, y2);
            self.render(idx.i00, idx.i10, idx.i01, idx.i11);
            self.mark_rendered(x1, y1);
            self.mark_rendered(x1, y2);
            self.mark_rendered(x2, y1);
            self.mark_rendered(x2, y2);
            quads.set(quadx, quady, true);
            proof {
                self.lemma_mark_quad(q0, quads.cells(), start, quadx as int, quady as int, qsize as int);
            }
            let ghost marked = quads.cells();
            let ghost marked_indices = self.indices@;
            let ghost e0 = self.additional_vertex_indices@;
            self.whole_quad_ribbons(&idx, vribbonofs);
            self.quad_crack_fills(&idx, rendered[0], rendered[1], rendered[2], rendered[3]);
            proof {
                lemma_append2(
                    e0,
                    whole_ribbons(idx.i00, idx.i01, idx.i10, idx.i11, idx.edge_left, idx.edge_right, idx.edge_top, idx.edge_bottom, s + 3),
                    crack_fills(idx.i00, idx.i0m, idx.i01, idx.im0, idx.im1, idx.i10, idx.i1m, idx.i11, rendered[0], rendered[1], rendered[2], rendered[3]),
                );
            }
            proof {
                lemma_quads_grows(marked, marked_indices, self.indices@, s, qsize as int);
                lemma_quad_vi(idx, s, x1 as int, xm as int, x2 as int, y1 as int, ym as int, y2 as int);
                lemma_join_visit_draw(old(self).mesh(), q0, s, quadx as int, quady as int, qsize as int, coarsest);
                assert(self.mesh() =~= join_visit(old(self).mesh(), q0, s, quadx as int, quady as int, qsize as int, coarsest).0);
            }
        } else {
            proof {
                assert(self.indices@.take(self.indices@.len() as int) =~= self.indices@);
                lemma_join_visit_skip(old(self).mesh(), q0, s, quadx as int, quady as int, qsize as int, coarsest);
            }
        }
    }

    /// The first pass over a level: `visit_split` on each quad, row by row.
    fn split_pass(
        &mut self,
        childquads: &Array2D<bool>,
        quads: &mut Array2D<bool>,
        count: usize,
        qsize: usize,
        vribbonofs: i32,
    )
        requires
            old(self).wf(),
            count * qsize == old(self).size,
            2 <= qsize,
            qsize % 2 == 0,
            vribbonofs == old(self).size + 3,
            old(quads).w() == count,
            old(quads).h() == count,
            quads_in(old(quads).cells(), old(self).indices@, old(self).size as int, qsize as int),
            qsize > 2 ==> {
                &&& childquads.w() == 2 * count
                &&& childquads.h() == 2 * count
                &&& quads_in(childquads.cells(), old(self).indices@, old(self).size as int, qsize as int / 2)
            },
        ensures
            final(self).wf(),
            final(self).keeps(old(self)),
            final(quads).w() == count,
            final(quads).h() == count,
            quads_in(final(quads).cells(), final(self).indices@, old(self).size as int, qsize as int),
            level_covered(old(self).mutable.cells(), final(self).indices@, old(self).size as int, qsize as int, count as int),
            (final(self).mesh(), final(quads).cells()) == split_rows(
                (old(self).mesh(), old(quads).cells()),
                childquads.cells(),
                old(self).mutable.cells(),
                old(self).size as int,
                qsize as int,
                count as int,
                count as int,
            ),
    {
        let ghost init = (self.mesh(), quads.cells());
        let ghost child = childquads.cells();
        let ghost m = self.mutable.cells();
        let ghost s = self.size as int;
        let ghost q = qsize as int;
        assert(m == old(self).mutable.cells());
        for quady in 0..count
            invariant
                self.wf(),
                self.keeps(old(self)),
                s == self.size,
                q == qsize,
                m == self.mutable.cells(),
                child == childquads.cells(),
                (self.mesh(), quads.cells()) == split_rows(init, child, m, s, q, count as int, quady as int),
                count * qsize == self.size,
                2 <= qsize,
                qsize % 2 == 0,
                vribbonofs == self.size + 3,
                quads.w() == count,
                quads.h() == count,
                quads_in(quads.cells(), self.indices@, s, q),
                qsize > 2 ==> {
                    &&& childquads.w() == 2 * count
                    &&& childquads.h() == 2 * count
                    &&& quads_in(childquads.cells(), self.indices@, s, q / 2)
                },
                forall|qx: int, qy: int|
                    0 <= qx < count && 0 <= qy < quady ==> #[trigger] keypoints_covered(
                        m,
                        self.indices@,
                        s,
                        qx * q,
                        qx * q + q / 2,
                        qx * q + q,
                        qy * q,
                        qy * q + q / 2,
                        qy * q + q,
                    ),
        {
            for quadx in 0..count
                invariant
                    0 <= quady < count,
                    self.wf(),
                    self.keeps(old(self)),
                    s == self.size,
                    q == qsize,
                    m == self.mutable.cells(),
                    child == childquads.cells(),
                    (self.mesh(), quads.cells()) == split_row(
                        split_rows(init, child, m, s, q, count as int, quady as int),
                        child,
                        m,
                        s,
                        q,
                        quady as int,
                        quadx as int,
                    ),
                    count * qsize == self.size,
                    2 <= qsize,
                    qsize % 2 == 0,
                    vribbonofs == self.size + 3,
                    quads.w() == count,
                    quads.h() == count,
                    quads_in(quads.cells(), self.indices@, s, q),
                    qsize > 2 ==> {
                        &&& childquads.w() == 2 * count
                        &&& childquads.h() == 2 * count
                        &&& quads_in(childquads.cells(), self.indices@, s, q / 2)
                    },
                    forall|qx: int, qy: int|
                        0 <= qx < count && 0 <= qy < count && (qy < quady || (qy == quady && qx < quadx))
                            ==> #[trigger] keypoints_covered(
                            m,
                            self.indices@,
                            s,
                            qx * q,
                            qx * q + q / 2,
                            qx * q + q,
                            qy * q,
                            qy * q + q / 2,
                            qy * q + q,
                        ),
            {
                let ghost before = self.indices@;
                self.visit_split(childquads, quads, quadx, quady, count, qsize, vribbonofs);
                proof {
                    if qsize > 2 {
                        lemma_quads_grows(childquads.cells(), before, self.indices@, s, q / 2);
                    }
                    assert forall|qx: int, qy: int|
                        0 <= qx < count && 0 <= qy < count && (qy < quady || (qy == quady && qx < quadx + 1))
                            implies #[trigger] keypoints_covered(
                            m,
                            self.indices@,
                            s,
                            qx * q,
                            qx * q + q / 2,
                            qx * q + q,
                            qy * q,
                            qy * q + q / 2,
                            qy * q + q,
                        ) by {
                        if qy < quady || qx < quadx {
                            lemma_keypoints_grows(m, before, self.indices@, s, qx * q, qx * q + q / 2, qx * q + q, qy * q, qy * q + q / 2, qy * q + q);
                        }
                    }
                }
            }
        }
    }

    /// The second pass over a level: `visit_join` on each quad, row by row.
    fn join_pass(&mut self, quads: &mut Array2D<bool>, count: usize, qsize: usize, vribbonofs: i32, coarsest: bool)
        requires
            old(self).wf(),
            count * qsize == old(self).size,
            2 <= qsize,
            qsize % 2 == 0,
            vribbonofs == old(self).size + 3,
            old(quads).w() == count,
            old(quads).h() == count,
            quads_in(old(quads).cells(), old(self).indices@, old(self).size as int, qsize as int),
        ensures
            final(self).wf(),
            final(self).keeps(old(self)),
            final(quads).w() == count,
            final(quads).h() == count,
            quads_in(final(quads).cells(), final(self).indices@, old(self).size as int, qsize as int),
            coarsest ==> forall|i: int, j: int| 0 <= i < count && 0 <= j < count ==> #[trigger] final(quads).cell(i, j),
            (final(self).mesh(), final(quads).cells()) == join_rows(
                (old(self).mesh(), old(quads).cells()),
                old(self).size as int,
                qsize as int,
                coarsest,
                count as int,
                count as int,
            ),
    {
        let ghost s = self.size as int;
        let ghost q = qsize as int;
        let ghost init = (self.mesh(), quads.cells());
        for quady in 0..count
            invariant
                self.wf(),
                self.keeps(old(self)),
                s == self.size,
                q == qsize,
                (self.mesh(), quads.cells()) == join_rows(init, s, q, coarsest, count as int, quady as int),
                count * qsize == self.size,
                2 <= qsize,
                qsize % 2 == 0,
                vribbonofs == self.size + 3,
                quads.w() == count,
                quads.h() == count,
                quads_in(quads.cells(), self.indices@, s, q),
                coarsest ==> forall|i: int, j: int| 0 <= i < count && 0 <= j < quady ==> #[trigger] quads.cell(i, j),
        {
            for quadx in 0..count
                invariant
                    0 <= quady < count,
                    self.wf(),
                    self.keeps(old(self)),
                    s == self.size,
                    q == qsize,
                    (self.mesh(), quads.cells()) == join_row(
                        join_rows(init, s, q, coarsest, count as int, quady as int),
                        s,
                        q,
                        coarsest,
                        quady as int,
                        quadx as int,
                    ),
                    count * qsize == self.size,
                    2 <= qsize,
                    qsize % 2 == 0,
                    vribbonofs == self.size + 3,
                    quads.w() == count,
                    quads.h() == count,
                    quads_in(quads.cells(), self.indices@, s, q),
                    coarsest ==> forall|i: int, j: int|
                        0 <= i < count && 0 <= j < count && (j < quady || (j == quady && i < quadx)) ==> #[trigger] quads.cell(i, j),
            {
                let ghost qb = *quads;
                self.visit_join(quads, quadx, quady, count, qsize, vribbonofs, coarsest);
                proof {
                    if coarsest {
                        assert forall|i: int, j: int|
                            0 <= i < count && 0 <= j < count && (j < quady || (j == quady && i < quadx + 1)) implies #[trigger] quads.cell(i, j) by {
                            if j < quady || i < quadx {
                                assert(qb.cell(i, j));
                            }
                        }
                    }
                }
            }
        }
    }

    /// All levels, from quads two vertices wide up to the coarsest: first the
    /// split pass, then the join pass of each.
    #[verifier::spinoff_prover]
    fn process(&mut self)
        requires
            old(self).wf(),
        ensures
            final(self).wf(),
            final(self).keeps(old(self)),
            keeps_vertices(old(self).mutable.cells(), final(self).indices@, old(self).depth as int),
            final(self).mesh() == levels(
                old(self).mesh(),
                Array2D::<bool>::filled(0, 0, false),
                old(self).mutable.cells(),
                old(self).depth as int,
                old(self).depth as int,
                coarsest_level(old(self).depth as int),
            ),
    {
        let ghost m = self.mutable.cells();
        let ghost s = self.size as int;
        let ghost depth = self.depth as int;
        let maxlevel: usize = if self.depth - 2 < 1 { self.depth - 2 } else { 1 };
        let vribbonofs = (self.size + 3) as i32;
        let mut childquads: Array2D<bool> = Array2D::new(0, 0, false);
        let mut level: usize = self.depth;
        let mut count: usize = self.size;
        let mut qsize: usize = 1;
        proof {
            lemma2_to64();
        }
        while level > maxlevel
            invariant
                self.wf(),
                self.keeps(old(self)),
                s == self.size,
                m == self.mutable.cells(),
                m == old(self).mutable.cells(),
                depth == self.depth,
                maxlevel == coarsest_level(depth),
                levels(self.mesh(), childquads.cells(), m, depth, level as int, maxlevel as int) == levels(
                    old(self).mesh(),
                    Array2D::<bool>::filled(0, 0, false),
                    m,
                    depth,
                    depth,
                    maxlevel as int,
                ),
                vribbonofs == self.size + 3,
                maxlevel <= level <= depth,
                count == pow2(level as nat),
                qsize == pow2((depth - level) as nat),
                count * qsize == self.size,
                (level == depth) == (qsize == 1),
                1 <= count,
                1 <= qsize <= self.size,
                level < depth ==> {
                    &&& childquads.w() == count
                    &&& childquads.h() == count
                    &&& quads_in(childquads.cells(), self.indices@, s, qsize as int)
                },
                level == maxlevel && level < depth ==> forall|i: int, j: int|
                    0 <= i < count && 0 <= j < count ==> #[trigger] childquads.cell(i, j),
                forall|j: int|
                    1 <= j <= depth - level ==> #[trigger] level_covered(
                        m,
                        self.indices@,
                        s,
                        pow2(j as nat) as int,
                        pow2((depth - j) as nat) as int,
                    ),
            decreases level,
        {
            let ghost before = self.indices@;
            proof {
                lemma_pow2_unfold(level as nat);
                lemma_pow2_unfold((depth - level + 1) as nat);
                assert(qsize * 2 <= self.size) by (nonlinear_arith)
                    requires
                        count * qsize == self.size,
                        count == 2 * pow2((level - 1) as nat),
                        pow2((level - 1) as nat) >= 1,
                        qsize >= 1,
                ;
                assert((count / 2) * (qsize * 2) == count * qsize) by (nonlinear_arith)
                    requires
                        count % 2 == 0,
                ;
            }
            level = level - 1;
            count = count / 2;
            qsize = qsize * 2;
            proof {
                assert(count <= 128 && count * count <= 128 * 128) by (nonlinear_arith)
                    requires
                        count * qsize == s,
                        s <= 128,
                        2 <= qsize,
                        0 <= count,
                ;
            }
            let mut quads = Array2D::new(count, count, false);
            self.split_pass(&childquads, &mut quads, count, qsize, vribbonofs);
            let ghost mid = self.indices@;
            self.join_pass(&mut quads, count, qsize, vribbonofs, level == maxlevel);
            proof {
                assert forall|j: int| 1 <= j <= depth - level implies #[trigger] level_covered(
                    m,
                    self.indices@,
                    s,
                    pow2(j as nat) as int,
                    pow2((depth - j) as nat) as int,
                ) by {
                    if j < depth - level {
                        lemma_level_grows(m, before, self.indices@, s, pow2(j as nat) as int, pow2((depth - j) as nat) as int);
                    } else {
                        lemma_level_grows(m, mid, self.indices@, s, qsize as int, count as int);
                    }
                }
            }
            childquads = quads;
        }
        proof {
            childquads.lemma_domain();
            assert forall|i: int, j: int| 0 <= i < count && 0 <= j < count implies childquads.cells().dom().contains((i, j))
                && #[trigger] childquads.cells()[(i, j)] by {
                assert(childquads.cell(i, j));
            }
            lemma_all_corners(childquads.cells(), self.indices@, s, qsize as int, count as int);
        }
    }


    /// Builds the mesh of a plate `2^depth` quads wide, asking `can_merge(x, y)`
    /// for each vertex, row by row.
    fn build<T: FnMut(usize, usize) -> bool>(depth: usize, mut can_merge: T) -> (result: Result)
        requires
            2 <= depth <= 7,
            forall|f: T, x: usize, y: usize| call_requires(f, (x, y)),
        ensures
            exists|mergeable: Map<(int, int), bool>|
                optimized(&result, depth as int, mergeable) && answered::<T>(mergeable, pow2(depth as nat) as int)
                    && result.indices@ == mesh_indices(depth as int, mergeable)
                    && result.wireframe_count == mesh_wireframe_count(depth as int, mergeable),
    {
        let size = two_to_the(depth);
        proof {
            lemma_plate_size(depth as nat);
            assert((size + 1) * (size + 1) <= 129 * 129) by (nonlinear_arith)
                requires
                    size <= 128,
            ;
        }
        let mut mutable = Array2D::new(size + 1, size + 1, false);
        for y in 0..(size + 1)
            invariant
                size == pow2(depth as nat),
                size <= 128,
                mutable.w() == size + 1,
                mutable.h() == size + 1,
                forall|f: T, x: usize, y: usize| call_requires(f, (x, y)),
                forall|i: int, j: int|
                    #![trigger mutable.cell(i, j)]
                    0 <= i <= size && 0 <= j < y ==> answered_cell::<T>(mutable.cell(i, j), i, j),
        {
            for x in 0..(size + 1)
                invariant
                    y < size + 1,
                    size <= 128,
                    mutable.w() == size + 1,
                    mutable.h() == size + 1,
                    forall|f: T, x: usize, y: usize| call_requires(f, (x, y)),
                    forall|i: int, j: int|
                        #![trigger mutable.cell(i, j)]
                        0 <= i <= size && 0 <= j <= y && (j < y || i < x) ==> answered_cell::<T>(mutable.cell(i, j), i, j),
            {
                let ghost before = mutable;
                let ghost f0 = can_merge;
                let merge = can_merge(x, y);
                mutable.set(x, y, merge);
                proof {
                    assert forall|i: int, j: int|
                        #![trigger mutable.cell(i, j)]
                        0 <= i <= size && 0 <= j <= y && (j < y || i < x + 1) implies answered_cell::<T>(mutable.cell(i, j), i, j) by {
                        if i == x && j == y {
                            reveal(answered_cell);
                            assert(call_ensures(f0, (i as usize, j as usize), mutable.cell(i, j)));
                        } else {
                            assert(mutable.cell(i, j) == before.cell(i, j));
                        }
                    }
                }
            }
        }
        let ghost grid = mutable.cells();
        proof {
            assert forall|x: int, y: int| 0 <= x <= size && 0 <= y <= size implies #[trigger] answered_cell::<T>(
                grid[(x, y)],
                x,
                y,
            ) by {
                assert(answered_cell::<T>(mutable.cell(x, y), x, y));
            }
        }
        let result = Self::build_from(depth, mutable);
        assert(answered::<T>(grid, size as int));
        result
    }

    /// Builds the mesh of a plate `2^depth` quads wide whose vertex (`x`, `y`) may
    /// be merged away where `mergeable` holds `true` there.
    fn build_from(depth: usize, mutable: Array2D<bool>) -> (result: Result)
        requires
            2 <= depth <= 7,
            mutable.w() == pow2(depth as nat) + 1,
            mutable.h() == pow2(depth as nat) + 1,
        ensures
            optimized(&result, depth as int, mutable.cells()),
            result.indices@ == mesh_indices(depth as int, mutable.cells()),
            result.wireframe_count == mesh_wireframe_count(depth as int, mutable.cells()),
    {
        let size = two_to_the(depth);
        proof {
            lemma_plate_size(depth as nat);
            assert((size + 1) * (size + 1) <= 129 * 129) by (nonlinear_arith)
                requires
                    size <= 128,
            ;
        }
        let rendered = Array2D::new(size + 1, size + 1, false);
        let mut builder = IndexBufferBuilder {
            depth,
            size,
            mutable,
            rendered,
            indices: Vec::with_capacity(6 * size * size),
            additional_vertex_indices: Vec::with_capacity(6 * size * size),
        };
        proof {
            assert forall|x: int, y: int|
                0 <= x <= builder.size && 0 <= y <= builder.size && #[trigger] builder.rendered.cell(x, y) implies has_index(
                builder.indices@,
                vertex_index(builder.size as int, x, y),
            ) by {
                assert(!builder.rendered.cell(x, y));
            }
        }
        let ghost mutable_cells = builder.mutable.cells();
        proof {
            assert(builder.mesh() =~= MeshState {
                rendered: Array2D::<bool>::filled(pow2(depth as nat) + 1, pow2(depth as nat) + 1, false),
                tris: Seq::empty(),
                extra: Seq::empty(),
            });
        }
        builder.process();
        let wireframe_count = builder.indices.len();
        let ghost tri = builder.indices@;
        let ghost extra = builder.additional_vertex_indices@;
        let mut indices = builder.indices;
        let mut additional = builder.additional_vertex_indices;
        indices.append(&mut additional);
        proof {
            assert(indices@.take(wireframe_count as int) =~= tri);
            assert forall|k: int| 0 <= k < indices@.len() implies is_vertex(size as int, #[trigger] indices@[k] as int) by {
                if k < wireframe_count {
                    assert(indices@[k] == tri[k]);
                    lemma_neighbours(size as int, tri[k] as int);
                } else {
                    assert(indices@[k] == extra[k - wireframe_count]);
                }
            }
            assert forall|k: int| 0 <= k < wireframe_count implies is_plate_vertex(size as int, #[trigger] indices@[k] as int) by {
                assert(indices@[k] == tri[k]);
            }
        }
        proof {
            lemma_keeps_fixed_vertices(mutable_cells, tri, depth as int);
        }
        Result { indices, wireframe_count }
    }
}



/// The plate widths the optimizer handles: 4 to 128 quads.
proof fn lemma_plate_size(d: nat)
    requires
        2 <= d <= 7,
    ensures
        4 <= pow2(d) <= 128,
        (pow2(d) + 3) * (pow2(d) + 3) <= 131 * 131,
        6 * pow2(d) * pow2(d) <= 6 * 128 * 128,
{
    lemma2_to64();
    if d == 2 {
    } else if d == 3 {
    } else if d == 4 {
    } else if d == 5 {
    } else if d == 6 {
    } else {
    }
    let p = pow2(d);
    assert((p + 3) * (p + 3) <= 131 * 131) by (nonlinear_arith)
        requires
            4 <= p <= 128,
    ;
    assert(6 * p * p <= 6 * 128 * 128) by (nonlinear_arith)
        requires
            4 <= p <= 128,
    ;
}

/// `2^e`.
fn two_to_the(e: usize) -> (result: usize)
    requires
        e < 16,
    ensures
        result == pow2(e as nat),
{
    let mut r: usize = 1;
    let mut i: usize = 0;
    proof {
        lemma2_to64();
    }
    while i < e
        invariant
            i <= e < 16,
            r == pow2(i as nat),
        decreases e - i,
    {
        proof {
            lemma_pow2_unfold((i + 1) as nat);
            lemma2_to64();
            vstd::arithmetic::power2::lemma_pow2_strictly_increases((i + 1) as nat, 16);
        }
        r = r * 2;
        i = i + 1;
    }
    r
}

/// The corners of every quad of a grid of `count` by `count` marked quads, `q`
/// vertices wide, are in the mesh: so is every point of the grid of their corners.
proof fn lemma_all_corners(quads: Map<(int, int), bool>, s: Seq<u16>, size: int, q: int, count: int)
    requires
        1 <= count,
        forall|i: int, j: int| 0 <= i < count && 0 <= j < count ==> quads.dom().contains((i, j)) && #[trigger] quads[(i, j)],
        quads_in(quads, s, size, q),
    ensures
        forall|qx: int, qy: int|
            0 <= qx <= count && 0 <= qy <= count ==> has_index(s, #[trigger] vertex_index(size, qx * q, qy * q)),
{
    assert forall|qx: int, qy: int| 0 <= qx <= count && 0 <= qy <= count implies has_index(
        s,
        #[trigger] vertex_index(size, qx * q, qy * q),
    ) by {
        let i = if qx == count { count - 1 } else { qx };
        let j = if qy == count { count - 1 } else { qy };
        assert(quads[(i, j)]);
        assert(corners_in(s, size, i * q, j * q, i * q + q, j * q + q));
        assert((count - 1) * q + q == count * q) by (nonlinear_arith);
    }
}

/// The mesh `r` of a plate `2^depth` quads wide, built with the vertices where
/// `mergeable` holds `true` allowed to be merged away: its triangle part is
/// `wireframe_count` indices, whole triangle pairs of the plate's own vertices;
/// the rest are whole triangles of vertices of the grid with its ribbon ring;
/// it keeps the vertices that `keeps_vertices` names; so every vertex that may not
/// be merged away is in its triangle part.
pub open spec fn optimized(r: &Result, depth: int, mergeable: Map<(int, int), bool>) -> bool {
    let size = pow2(depth as nat) as int;
    &&& r.wireframe_count <= r.indices@.len()
    &&& r.wireframe_count % 6 == 0
    &&& (r.indices@.len() - r.wireframe_count) % 3 == 0
    &&& forall|k: int| 0 <= k < r.indices@.len() ==> is_vertex(size, #[trigger] r.indices@[k] as int)
    &&& forall|k: int| 0 <= k < r.wireframe_count ==> is_plate_vertex(size, #[trigger] r.indices@[k] as int)
    &&& keeps_vertices(mergeable, r.indices@.take(r.wireframe_count as int), depth)
    &&& forall|x: int, y: int|
        0 <= x <= size && 0 <= y <= size && !mergeable[(x, y)] ==> has_index(
            r.indices@.take(r.wireframe_count as int),
            #[trigger] vertex_index(size, x, y),
        )
}


/// Each vertex's cell in `mergeable` is an answer that a closure of type `T`
/// gives when asked about that vertex.
pub open spec fn answered<T: FnMut(usize, usize) -> bool>(mergeable: Map<(int, int), bool>, size: int) -> bool {
    forall|x: int, y: int|
        0 <= x <= size && 0 <= y <= size ==> #[trigger] answered_cell::<T>(mergeable[(x, y)], x, y)
}

/// `v` is what a closure of type `T` answers when asked about vertex (`x`, `y`).
#[verifier::opaque]
pub open spec fn answered_cell<T: FnMut(usize, usize) -> bool>(v: bool, x: int, y: int) -> bool {
    exists|f: T| #[trigger] call_ensures(f, (x as usize, y as usize), v)
}

/// Builds index buffers for plates `2^depth` quads wide that leave out the
/// vertices that can be merged into their neighbours.
pub struct PlateOptimizer {
    depth: u16,
    size: u16,
}

impl PlateOptimizer {
    pub closed spec fn spec_depth(&self) -> int {
        self.depth as int
    }

    /// The number of quads along a plate's edge, `2^depth` kept in 16 bits.
    pub closed spec fn spec_size(&self) -> int {
        self.size as int
    }

    /// An optimizer for plates `2^depth` quads wide.
    pub fn new(depth: u16) -> (result: Self)
        requires
            depth < 32,
        ensures
            result.spec_depth() == depth,
            result.spec_size() == if depth < 16 { pow2(depth as nat) as int } else { 0 },
    {
        let size: u16 = if depth < 16 {
            proof {
                vstd::arithmetic::power2::lemma_pow2_strictly_increases(depth as nat, 16);
                lemma2_to64();
            }
            two_to_the(depth as usize) as u16
        } else {
            0
        };
        PlateOptimizer { depth, size }
    }

    /// The mesh of a plate whose vertex (`x`, `y`) may be merged away where
    /// `mergeable` holds `true` there; `mergeable` has a cell for each of the
    /// plate's `2^depth + 1` by `2^depth + 1` vertices.
    pub fn optimize_grid(&self, mergeable: &Array2D<bool>) -> (result: Result)
        requires
            2 <= self.spec_depth() <= 7,
            mergeable.w() == pow2(self.spec_depth() as nat) + 1,
            mergeable.h() == pow2(self.spec_depth() as nat) + 1,
        ensures
            optimized(&result, self.spec_depth(), mergeable.cells()),
            result.indices@ == mesh_indices(self.spec_depth(), mergeable.cells()),
            result.wireframe_count == mesh_wireframe_count(self.spec_depth(), mergeable.cells()),
    {
        IndexBufferBuilder::build_from(self.depth as usize, mergeable.copy())
    }

    /// The mesh of a plate, asking `can_merge(x, y)` once for each vertex, row
    /// by row, whether it may be merged away.
    pub fn optimize<T: FnMut(usize, usize) -> bool>(&self, can_merge: T) -> (result: Result)
        requires
            2 <= self.spec_depth() <= 7,
            forall|f: T, x: usize, y: usize| call_requires(f, (x, y)),
        ensures
            exists|mergeable: Map<(int, int), bool>|
                optimized(&result, self.spec_depth(), mergeable) && answered::<T>(mergeable, pow2(self.spec_depth() as nat) as int)
                    && result.indices@ == mesh_indices(self.spec_depth(), mergeable)
                    && result.wireframe_count == mesh_wireframe_count(self.spec_depth(), mergeable),
    {
        IndexBufferBuilder::build(self.depth as usize, can_merge)
    }
}

/// `x` is a multiple of `h`, so its remainder by `2 * h` is 0 or `h`.
proof fn lemma_mod_double(x: int, h: int)
    requires
        0 <= x,
        0 < h,
        x % h == 0,
    ensures
        x % (2 * h) == 0 || x % (2 * h) == h,
        x % (2 * h) == h ==> x / (2 * h) * (2 * h) + h == x,
        x % (2 * h) == 0 ==> x / (2 * h) * (2 * h) == x,
{
    lemma_fundamental_div_mod(x, h);
    let k = x / h;
    assert(x == h * k);
    assert(0 <= k) by (nonlinear_arith)
        requires
            x == h * k,
            0 <= x,
            0 < h,
    ;
    let r = h * (k % 2);
    assert(x == (k / 2) * (2 * h) + r && 0 <= r < 2 * h) by (nonlinear_arith)
        requires
            x == h * k,
            0 < h,
            0 <= k,
            r == h * (k % 2),
    ;
    lemma_fundamental_div_mod_converse(x, 2 * h, k / 2, r);
    assert(r == 0 || r == h) by (nonlinear_arith)
        requires
            r == h * (k % 2),
            0 <= k,
    ;
}

/// A vertex whose coordinates are multiples of `q / 2` but not both of `q` is a
/// key point of one of the `count` by `count` quads `q` wide, and so covered where
/// that level is.
proof fn lemma_keypoint_covered(
    m: Map<(int, int), bool>,
    s: Seq<u16>,
    size: int,
    q: int,
    count: int,
    x: int,
    y: int,
)
    requires
        2 <= q,
        q % 2 == 0,
        1 <= count,
        count * q == size,
        0 <= x <= size,
        0 <= y <= size,
        x % (q / 2) == 0,
        y % (q / 2) == 0,
        !(x % q == 0 && y % q == 0),
        level_covered(m, s, size, q, count),
    ensures
        covered(m, s, size, x, y),
{
    let h = q / 2;
    assert(q == 2 * h);
    lemma_mod_double(x, h);
    lemma_mod_double(y, h);
    let a = x / q;
    let b = y / q;
    assert(0 <= a && 0 <= b) by (nonlinear_arith)
        requires
            0 <= x,
            0 <= y,
            0 < q,
            a == x / q,
            b == y / q,
    ;
    assert(a <= count && b <= count) by (nonlinear_arith)
        requires
            x <= count * q,
            y <= count * q,
            0 < q,
            a == x / q,
            b == y / q,
    ;
    if x % q == h {
        assert(a < count) by (nonlinear_arith)
            requires
                a * q + h == x,
                x <= count * q,
                0 < h,
                0 < q,
        ;
    }
    if y % q == h {
        assert(b < count) by (nonlinear_arith)
            requires
                b * q + h == y,
                y <= count * q,
                0 < h,
                0 < q,
        ;
    }
    if x % q == h && y % q == h {
        assert(keypoints_covered(m, s, size, a * q, a * q + q / 2, a * q + q, b * q, b * q + q / 2, b * q + q));
    } else if x % q == h {
        if b < count {
            assert(keypoints_covered(m, s, size, a * q, a * q + q / 2, a * q + q, b * q, b * q + q / 2, b * q + q));
        } else {
            let b2 = count - 1;
            assert(b2 * q + q == y) by (nonlinear_arith)
                requires
                    b == count,
                    b * q == y,
                    b2 == count - 1,
            ;
            assert(keypoints_covered(m, s, size, a * q, a * q + q / 2, a * q + q, b2 * q, b2 * q + q / 2, b2 * q + q));
        }
    } else {
        assert(y % q == h);
        if a < count {
            assert(keypoints_covered(m, s, size, a * q, a * q + q / 2, a * q + q, b * q, b * q + q / 2, b * q + q));
        } else {
            let a2 = count - 1;
            assert(a2 * q + q == x) by (nonlinear_arith)
                requires
                    a == count,
                    a * q == x,
                    a2 == count - 1,
            ;
            assert(keypoints_covered(m, s, size, a2 * q, a2 * q + q / 2, a2 * q + q, b * q, b * q + q / 2, b * q + q));
        }
    }
}

/// Climbing the levels from `j` on: a vertex on the grid of level `j - 1` is
/// either a key point of some level from `j` up, or a corner of the coarsest quads;
/// either way, where it may not be merged away, it is in the mesh.
proof fn lemma_kept_from(m: Map<(int, int), bool>, s: Seq<u16>, depth: int, j: int, x: int, y: int)
    requires
        2 <= depth <= 7,
        keeps_vertices(m, s, depth),
        1 <= j <= depth - coarsest_level(depth) + 1,
        0 <= x <= pow2(depth as nat),
        0 <= y <= pow2(depth as nat),
        x % pow2((j - 1) as nat) as int == 0,
        y % pow2((j - 1) as nat) as int == 0,
        !m[(x, y)],
    ensures
        has_index(s, vertex_index(pow2(depth as nat) as int, x, y)),
    decreases depth + 1 - j,
{
    let size = pow2(depth as nat) as int;
    let top = depth - coarsest_level(depth);
    lemma2_to64();
    vstd::arithmetic::power2::lemma_pow2_pos((j - 1) as nat);
    if j == top + 1 {
        let g = pow2(top as nat) as int;
        lemma_fundamental_div_mod(x, g);
        lemma_fundamental_div_mod(y, g);
        vstd::arithmetic::power2::lemma_pow2_adds(top as nat, coarsest_level(depth) as nat);
        assert((top as nat + coarsest_level(depth) as nat) as nat == depth as nat);
        let cl = pow2(coarsest_level(depth) as nat) as int;
        assert(size == g * cl);
        let qx = x / g;
        let qy = y / g;
        assert(0 <= qx <= cl && 0 <= qy <= cl) by (nonlinear_arith)
            requires
                x == g * qx,
                y == g * qy,
                0 <= x <= g * cl,
                0 <= y <= g * cl,
                0 < g,
        ;
        assert(vertex_index(size, qx * g, qy * g) == vertex_index(size, x, y)) by (nonlinear_arith)
            requires
                x == g * qx,
                y == g * qy,
        ;
        assert(has_index(s, vertex_index(size, qx * pow2(top as nat), qy * pow2(top as nat))));
    } else {
        let q = pow2(j as nat) as int;
        let h = pow2((j - 1) as nat) as int;
        lemma_pow2_unfold(j as nat);
        assert(q == 2 * h);
        assert(j <= depth);
        vstd::arithmetic::power2::lemma_pow2_adds(j as nat, (depth - j) as nat);
        assert((j as nat + (depth - j) as nat) as nat == depth as nat);
        let count = pow2((depth - j) as nat) as int;
        vstd::arithmetic::power2::lemma_pow2_pos((depth - j) as nat);
        assert(pow2(depth as nat) == pow2(j as nat) * pow2((depth - j) as nat));
        assert(count * q == size) by (nonlinear_arith)
            requires
                size == q * count,
        ;
        assert(q / 2 == h);
        if x % q == 0 && y % q == 0 {
            lemma_kept_from(m, s, depth, j + 1, x, y);
        } else {
            assert(level_covered(m, s, size, pow2(j as nat) as int, pow2((depth - j) as nat) as int));
            lemma_keypoint_covered(m, s, size, q, count, x, y);
        }
    }
}

/// Every vertex that may not be merged away is in the mesh: the optimizer only
/// ever leaves out vertices it was allowed to merge.
pub proof fn lemma_keeps_fixed_vertices(m: Map<(int, int), bool>, s: Seq<u16>, depth: int)
    requires
        2 <= depth <= 7,
        keeps_vertices(m, s, depth),
    ensures
        forall|x: int, y: int|
            0 <= x <= pow2(depth as nat) && 0 <= y <= pow2(depth as nat) && !m[(x, y)] ==> has_index(
                s,
                #[trigger] vertex_index(pow2(depth as nat) as int, x, y),
            ),
{
    assert forall|x: int, y: int|
        0 <= x <= pow2(depth as nat) && 0 <= y <= pow2(depth as nat) && !m[(x, y)] implies has_index(
        s,
        #[trigger] vertex_index(pow2(depth as nat) as int, x, y),
    ) by {
        lemma2_to64();
        lemma_kept_from(m, s, depth, 1, x, y);
    }
}

} // verus!
