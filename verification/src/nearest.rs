//! The nearest-hit solver: among all single-point intersections of a test
//! segment with the exterior edges of the obstacle polygons, selects the one
//! closest to the segment start, breaking exact ties by lowest polygon index
//! and then lowest edge index.  The candidate set comes from the spatial
//! index; a bounding-box argument shows pruned polygons cannot contribute.

use vstd::prelude::*;

verus! {

use crate::geom::{Aabb, Coord, lemma_abs_mul_bound};
use crate::index::{index_boxes, query_index, ObstacleIndex};
use crate::polygon::{lemma_bbox_contains_vertices, Polygon};
use crate::raycast::{edge_hit, hit_den, hit_det, hit_exists, hit_point, hit_t_raw, hit_tn, hit_u_raw,
    hit_un, Hit};

/// `(i, j)` names an exterior edge of the polygon sequence.
pub open spec fn valid_pair(polys: Seq<Polygon>, i: int, j: int) -> bool {
    0 <= i < polys.len() && 0 <= j < polys[i].edge_count()
}

/// Edge `(i, j)` meets the test segment in a single point.
pub open spec fn pair_hits(p1: Coord, p2: Coord, polys: Seq<Polygon>, i: int, j: int) -> bool {
    hit_exists(p1, p2, polys[i].edge_start(j), polys[i].edge_end(j))
}

/// The normalized parameter numerator of the hit on edge `(i, j)`.
pub open spec fn pair_tn(p1: Coord, p2: Coord, polys: Seq<Polygon>, i: int, j: int) -> int {
    hit_tn(p1, p2, polys[i].edge_start(j), polys[i].edge_end(j))
}

/// The normalized parameter denominator of the hit on edge `(i, j)`.
pub open spec fn pair_td(p1: Coord, p2: Coord, polys: Seq<Polygon>, i: int, j: int) -> int {
    hit_den(p1, p2, polys[i].edge_start(j), polys[i].edge_end(j))
}

/// The intersection point of the hit on edge `(i, j)`.
pub open spec fn pair_point(p1: Coord, p2: Coord, polys: Seq<Polygon>, i: int, j: int) -> Coord {
    hit_point(p1, p2, polys[i].edge_start(j), polys[i].edge_end(j))
}

/// The hit on edge `a` is strictly closer to the segment start than the hit
/// on edge `b`: `tn_a / td_a < tn_b / td_b`, compared exactly.
pub open spec fn closer(
    p1: Coord,
    p2: Coord,
    polys: Seq<Polygon>,
    ai: int,
    aj: int,
    bi: int,
    bj: int,
) -> bool {
    pair_tn(p1, p2, polys, ai, aj) * pair_td(p1, p2, polys, bi, bj) < pair_tn(
        p1,
        p2,
        polys,
        bi,
        bj,
    ) * pair_td(p1, p2, polys, ai, aj)
}

/// The hits on edges `a` and `b` are exactly equidistant.
pub open spec fn tied(
    p1: Coord,
    p2: Coord,
    polys: Seq<Polygon>,
    ai: int,
    aj: int,
    bi: int,
    bj: int,
) -> bool {
    pair_tn(p1, p2, polys, ai, aj) * pair_td(p1, p2, polys, bi, bj) == pair_tn(
        p1,
        p2,
        polys,
        bi,
        bj,
    ) * pair_td(p1, p2, polys, ai, aj)
}

/// Edge `a` is preferred over edge `b`: strictly closer, or equidistant and
/// earlier in (polygon, edge) order.  This is the deterministic tie-break.
pub open spec fn wins(
    p1: Coord,
    p2: Coord,
    polys: Seq<Polygon>,
    ai: int,
    aj: int,
    bi: int,
    bj: int,
) -> bool {
    closer(p1, p2, polys, ai, aj, bi, bj) || (tied(p1, p2, polys, ai, aj, bi, bj) && (ai < bi || (
    ai == bi && aj < bj)))
}

/// Pair `(ai, aj)` enumerates before `(i, j)`.
pub open spec fn before(ai: int, aj: int, i: int, j: int) -> bool {
    ai < i || (ai == i && aj < j)
}

/// The preferred hit among the edges enumerating before `(i, j)`, scanning
/// polygons and their edges in order and keeping the earlier edge on exact
/// ties.
pub open spec fn best_before(p1: Coord, p2: Coord, polys: Seq<Polygon>, i: int, j: int) -> Option<
    (int, int),
>
    decreases i, j,
{
    if i <= 0 && j <= 0 {
        None
    } else if j <= 0 {
        best_before(p1, p2, polys, i - 1, polys[i - 1].edge_count())
    } else {
        let prev = best_before(p1, p2, polys, i, j - 1);
        if pair_hits(p1, p2, polys, i, j - 1) {
            match prev {
                Option::None => Some((i, j - 1)),
                Option::Some(w) => if closer(p1, p2, polys, i, j - 1, w.0, w.1) {
                    Some((i, j - 1))
                } else {
                    prev
                },
            }
        } else {
            prev
        }
    }
}

/// The preferred hit over all obstacle edges.
pub open spec fn nearest_spec(p1: Coord, p2: Coord, polys: Seq<Polygon>) -> Option<(int, int)> {
    best_before(p1, p2, polys, polys.len() as int, 0)
}

/// A hitting pair's parameter denominator is positive.
proof fn lemma_td_pos(p1: Coord, p2: Coord, polys: Seq<Polygon>, i: int, j: int)
    requires
        pair_hits(p1, p2, polys, i, j),
    ensures
        pair_td(p1, p2, polys, i, j) > 0,
{
}

/// The exact-ratio order is transitive, across its strict and tied cases.
proof fn lemma_ratio_trans(an: int, ad: int, bn: int, bd: int, cn: int, cd: int)
    requires
        ad > 0,
        bd > 0,
        cd > 0,
    ensures
        an * bd < bn * ad && bn * cd < cn * bd ==> an * cd < cn * ad,
        an * bd < bn * ad && bn * cd == cn * bd ==> an * cd < cn * ad,
        an * bd == bn * ad && bn * cd < cn * bd ==> an * cd < cn * ad,
        an * bd == bn * ad && bn * cd == cn * bd ==> an * cd == cn * ad,
{
    if an * bd < bn * ad && bn * cd < cn * bd {
        assert(an * cd < cn * ad) by (nonlinear_arith)
            requires
                ad > 0,
                bd > 0,
                cd > 0,
                an * bd < bn * ad,
                bn * cd < cn * bd,
        ;
    }
    if an * bd < bn * ad && bn * cd == cn * bd {
        assert(an * cd < cn * ad) by (nonlinear_arith)
            requires
                ad > 0,
                bd > 0,
                cd > 0,
                an * bd < bn * ad,
                bn * cd == cn * bd,
        ;
    }
    if an * bd == bn * ad && bn * cd < cn * bd {
        assert(an * cd < cn * ad) by (nonlinear_arith)
            requires
                ad > 0,
                bd > 0,
                cd > 0,
                an * bd == bn * ad,
                bn * cd < cn * bd,
        ;
    }
    if an * bd == bn * ad && bn * cd == cn * bd {
        assert(an * cd == cn * ad) by (nonlinear_arith)
            requires
                ad > 0,
                bd > 0,
                cd > 0,
                an * bd == bn * ad,
                bn * cd == cn * bd,
        ;
    }
}

/// The preference order is transitive over hitting pairs.
proof fn lemma_wins_trans(
    p1: Coord,
    p2: Coord,
    polys: Seq<Polygon>,
    ai: int,
    aj: int,
    bi: int,
    bj: int,
    ci: int,
    cj: int,
)
    requires
        pair_hits(p1, p2, polys, ai, aj),
        pair_hits(p1, p2, polys, bi, bj),
        pair_hits(p1, p2, polys, ci, cj),
        wins(p1, p2, polys, ai, aj, bi, bj),
        wins(p1, p2, polys, bi, bj, ci, cj),
    ensures
        wins(p1, p2, polys, ai, aj, ci, cj),
{
    lemma_td_pos(p1, p2, polys, ai, aj);
    lemma_td_pos(p1, p2, polys, bi, bj);
    lemma_td_pos(p1, p2, polys, ci, cj);
    lemma_ratio_trans(
        pair_tn(p1, p2, polys, ai, aj),
        pair_td(p1, p2, polys, ai, aj),
        pair_tn(p1, p2, polys, bi, bj),
        pair_td(p1, p2, polys, bi, bj),
        pair_tn(p1, p2, polys, ci, cj),
        pair_td(p1, p2, polys, ci, cj),
    );
}

/// The preference order is asymmetric: two distinct hitting pairs cannot
/// each win against the other.
proof fn lemma_wins_asym(
    p1: Coord,
    p2: Coord,
    polys: Seq<Polygon>,
    ai: int,
    aj: int,
    bi: int,
    bj: int,
)
    requires
        pair_hits(p1, p2, polys, ai, aj),
        pair_hits(p1, p2, polys, bi, bj),
        wins(p1, p2, polys, ai, aj, bi, bj),
    ensures
        !wins(p1, p2, polys, bi, bj, ai, aj),
{
}

/// What `best_before` returns: `None` exactly when no earlier edge hits, and
/// otherwise the hitting pair that wins against every other earlier hitting
/// pair.
pub proof fn lemma_best_before(p1: Coord, p2: Coord, polys: Seq<Polygon>, i: int, j: int)
    requires
        0 <= i <= polys.len(),
        0 <= j,
        i < polys.len() ==> j <= polys[i].edge_count(),
        i == polys.len() as int ==> j == 0,
    ensures
        best_before(p1, p2, polys, i, j) is None ==> forall|ai: int, aj: int|
            valid_pair(polys, ai, aj) && before(ai, aj, i, j) ==> !#[trigger] pair_hits(
                p1,
                p2,
                polys,
                ai,
                aj,
            ),
        best_before(p1, p2, polys, i, j) matches Some(w) ==> valid_pair(polys, w.0, w.1) && before(
            w.0,
            w.1,
            i,
            j,
        ) && pair_hits(p1, p2, polys, w.0, w.1) && forall|ai: int, aj: int|
            valid_pair(polys, ai, aj) && before(ai, aj, i, j) && #[trigger] pair_hits(
                p1,
                p2,
                polys,
                ai,
                aj,
            ) && !(ai == w.0 && aj == w.1) ==> wins(p1, p2, polys, w.0, w.1, ai, aj),
    decreases i, j,
{
    if i <= 0 && j <= 0 {
    } else if j <= 0 {
        lemma_best_before(p1, p2, polys, i - 1, polys[i - 1].edge_count());
        assert forall|ai: int, aj: int|
            valid_pair(polys, ai, aj) && before(ai, aj, i, j) implies (valid_pair(polys, ai, aj)
            && before(ai, aj, i - 1, polys[i - 1].edge_count())) by {}
    } else {
        lemma_best_before(p1, p2, polys, i, j - 1);
        let prev = best_before(p1, p2, polys, i, j - 1);
        if pair_hits(p1, p2, polys, i, j - 1) {
            match prev {
                Option::None => {},
                Option::Some(w) => {
                    if closer(p1, p2, polys, i, j - 1, w.0, w.1) {
                        assert forall|ai: int, aj: int|
                            valid_pair(polys, ai, aj) && before(ai, aj, i, j) && #[trigger] pair_hits(
                                p1,
                                p2,
                                polys,
                                ai,
                                aj,
                            ) && !(ai == i && aj == j - 1) implies wins(
                            p1,
                            p2,
                            polys,
                            i,
                            j - 1,
                            ai,
                            aj,
                        ) by {
                            if ai == w.0 && aj == w.1 {
                            } else {
                                lemma_wins_trans(p1, p2, polys, i, j - 1, w.0, w.1, ai, aj);
                            }
                        }
                    } else {
                        lemma_td_pos(p1, p2, polys, i, j - 1);
                        lemma_td_pos(p1, p2, polys, w.0, w.1);
                        assert(wins(p1, p2, polys, w.0, w.1, i, j - 1));
                    }
                },
            }
        }
    }
}

/// The bounding box of the test segment.
spec fn seg_bbox(p1: Coord, p2: Coord) -> Aabb {
    Aabb {
        min_x: if p1.x <= p2.x {
            p1.x
        } else {
            p2.x
        },
        min_y: if p1.y <= p2.y {
            p1.y
        } else {
            p2.y
        },
        max_x: if p1.x <= p2.x {
            p2.x
        } else {
            p1.x
        },
        max_y: if p1.y <= p2.y {
            p2.y
        } else {
            p1.y
        },
    }
}

/// The algebraic identity behind segment intersection: the parameters point
/// at one shared point.
proof fn lemma_hit_identity(
    rx: int,
    ry: int,
    sx: int,
    sy: int,
    qpx: int,
    qpy: int,
    det: int,
    traw: int,
    uraw: int,
)
    requires
        det == rx * sy - ry * sx,
        traw == qpx * sy - qpy * sx,
        uraw == qpx * ry - qpy * rx,
    ensures
        traw * rx - uraw * sx == det * qpx,
        traw * ry - uraw * sy == det * qpy,
{
    assert(traw * rx - uraw * sx == det * qpx) by (nonlinear_arith)
        requires
            det == rx * sy - ry * sx,
            traw == qpx * sy - qpy * sx,
            uraw == qpx * ry - qpy * rx,
    ;
    assert(traw * ry - uraw * sy == det * qpy) by (nonlinear_arith)
        requires
            det == rx * sy - ry * sx,
            traw == qpx * sy - qpy * sx,
            uraw == qpx * ry - qpy * rx,
    ;
}

/// One axis of the bounding-box argument: a point that lies (scaled by
/// `d > 0`) both between `pa` and `pb` and between `qa` and `qb` forces the
/// intervals around them to overlap.
proof fn lemma_axis_overlap(
    d: int,
    pa: int,
    pb: int,
    qa: int,
    qb: int,
    tn: int,
    un: int,
    pt: int,
    smin: int,
    smax: int,
    qmin: int,
    qmax: int,
)
    requires
        0 < d,
        0 <= tn <= d,
        0 <= un <= d,
        pt == d * pa + tn * (pb - pa),
        pt == d * qa + un * (qb - qa),
        smin <= pa <= smax,
        smin <= pb <= smax,
        qmin <= qa <= qmax,
        qmin <= qb <= qmax,
    ensures
        smin <= qmax,
        qmin <= smax,
{
    assert(d * smin <= pt <= d * smax) by (nonlinear_arith)
        requires
            0 < d,
            0 <= tn <= d,
            pt == d * pa + tn * (pb - pa),
            smin <= pa <= smax,
            smin <= pb <= smax,
    ;
    assert(d * qmin <= pt <= d * qmax) by (nonlinear_arith)
        requires
            0 < d,
            0 <= un <= d,
            pt == d * qa + un * (qb - qa),
            qmin <= qa <= qmax,
            qmin <= qb <= qmax,
    ;
    assert(smin <= qmax && qmin <= smax) by (nonlinear_arith)
        requires
            0 < d,
            d * smin <= pt <= d * smax,
            d * qmin <= pt <= d * qmax,
    ;
}

/// A hit on an edge of a polygon forces the test segment's bounding box to
/// meet the polygon's bounding box: pruning by bounding box never discards a
/// polygon that could contribute a hit.
proof fn lemma_hit_implies_bbox_overlap(
    p1: Coord,
    p2: Coord,
    polys: Seq<Polygon>,
    i: int,
    j: int,
)
    requires
        valid_pair(polys, i, j),
        pair_hits(p1, p2, polys, i, j),
    ensures
        seg_bbox(p1, p2).intersects(polys[i].bbox_spec()),
{
    let q1 = polys[i].edge_start(j);
    let q2 = polys[i].edge_end(j);
    let rx = p2.x - p1.x;
    let ry = p2.y - p1.y;
    let sx = q2.x - q1.x;
    let sy = q2.y - q1.y;
    let qpx = q1.x - p1.x;
    let qpy = q1.y - p1.y;
    let det = hit_det(p1, p2, q1, q2);
    let traw = hit_t_raw(p1, p2, q1, q2);
    let uraw = hit_u_raw(p1, p2, q1, q2);
    let dd = hit_den(p1, p2, q1, q2);
    let tn = hit_tn(p1, p2, q1, q2);
    let un = hit_un(p1, p2, q1, q2);
    lemma_hit_identity(rx, ry, sx, sy, qpx, qpy, det, traw, uraw);
    assert(tn * rx - un * sx == dd * qpx && tn * ry - un * sy == dd * qpy) by (nonlinear_arith)
        requires
            traw * rx - uraw * sx == det * qpx,
            traw * ry - uraw * sy == det * qpy,
            (det >= 0 && dd == det && tn == traw && un == uraw) || (det < 0 && dd == -det && tn
                == -traw && un == -uraw),
    ;
    let ptx = dd * (p1.x as int) + tn * rx;
    let pty = dd * (p1.y as int) + tn * ry;
    assert(ptx == dd * (q1.x as int) + un * sx && pty == dd * (q1.y as int) + un * sy)
        by (nonlinear_arith)
        requires
            tn * rx - un * sx == dd * qpx,
            tn * ry - un * sy == dd * qpy,
            qpx == q1.x - p1.x,
            qpy == q1.y - p1.y,
            ptx == dd * p1.x + tn * rx,
            pty == dd * p1.y + tn * ry,
    ;
    lemma_bbox_contains_vertices(polys[i], j);
    lemma_bbox_contains_vertices(polys[i], j + 1);
    let sb = seg_bbox(p1, p2);
    let pb = polys[i].bbox_spec();
    lemma_axis_overlap(
        dd,
        p1.x as int,
        p2.x as int,
        q1.x as int,
        q2.x as int,
        tn,
        un,
        ptx,
        sb.min_x as int,
        sb.max_x as int,
        pb.min_x as int,
        pb.max_x as int,
    );
    lemma_axis_overlap(
        dd,
        p1.y as int,
        p2.y as int,
        q1.y as int,
        q2.y as int,
        tn,
        un,
        pty,
        sb.min_y as int,
        sb.max_y as int,
        pb.min_y as int,
        pb.max_y as int,
    );
}

/// The hit record `h` carries the exact parameters and point of the hit on
/// edge `(i, j)`.
pub open spec fn hit_matches(
    p1: Coord,
    p2: Coord,
    polys: Seq<Polygon>,
    h: Hit,
    i: int,
    j: int,
) -> bool {
    h.t_num as int == pair_tn(p1, p2, polys, i, j) && h.t_den as int == pair_td(
        p1,
        p2,
        polys,
        i,
        j,
    ) && h.point == pair_point(p1, p2, polys, i, j) && 0 < h.t_den && 0 <= h.t_num <= h.t_den
        && h.point.in_wide_bounds()
}

/// Polygon `i` occurs among the first `k` candidate handles.
pub open spec fn cand_before(cands: Seq<usize>, k: int, i: int) -> bool {
    exists|m: int| 0 <= m < k && cands[m] == i
}

/// Finds the nearest single-point intersection of the test segment
/// `(p1, p2)` with any exterior polygon edge, consulting the spatial index
/// to prune polygons whose bounding box the segment's bounding box misses.
/// The result is exactly the in-order preferred hit `nearest_spec`, whatever
/// order the index yields its candidates in.
pub fn nearest_hit(p1: Coord, p2: Coord, polys: &Vec<Polygon>, idx: &ObstacleIndex) -> (r: Option<
    Hit,
>)
    requires
        p1.in_wide_bounds(),
        p2.in_wide_bounds(),
        forall|i: int| 0 <= i < polys@.len() ==> (#[trigger] polys@[i]).in_bounds(),
        index_boxes(*idx).len() == polys@.len(),
        forall|i: int|
            0 <= i < polys@.len() ==> index_boxes(*idx)[i] == (#[trigger] polys@[i]).bbox_spec(),
    ensures
        r is Some <==> nearest_spec(p1, p2, polys@) is Some,
        r matches Some(h) ==> (nearest_spec(p1, p2, polys@) matches Some(w) && hit_matches(
            p1,
            p2,
            polys@,
            h,
            w.0,
            w.1,
        )),
{
    let qb = Aabb {
        min_x: if p1.x <= p2.x {
            p1.x
        } else {
            p2.x
        },
        min_y: if p1.y <= p2.y {
            p1.y
        } else {
            p2.y
        },
        max_x: if p1.x <= p2.x {
            p2.x
        } else {
            p1.x
        },
        max_y: if p1.y <= p2.y {
            p2.y
        } else {
            p1.y
        },
    };
    assert(qb == seg_bbox(p1, p2));
    let cands = query_index(idx, &qb);
    let ncand = cands.len();
    let npolys = polys.len();
    let mut best: Option<Hit> = None;
    let mut best_poly: usize = 0;
    let mut best_edge: usize = 0;
    let mut k: usize = 0;
    while k < ncand
        invariant
            0 <= k <= ncand,
            ncand == cands@.len(),
            p1.in_wide_bounds(),
            p2.in_wide_bounds(),
            forall|i: int| 0 <= i < polys@.len() ==> (#[trigger] polys@[i]).in_bounds(),
            forall|m: int| 0 <= m < cands@.len() ==> (#[trigger] cands@[m]) < polys@.len(),
            best is None ==> forall|ai: int, aj: int|
                valid_pair(polys@, ai, aj) && cand_before(cands@, k as int, ai)
                    ==> !#[trigger] pair_hits(p1, p2, polys@, ai, aj),
            best matches Some(h) ==> valid_pair(polys@, best_poly as int, best_edge as int)
                && pair_hits(p1, p2, polys@, best_poly as int, best_edge as int) && cand_before(
                cands@,
                k as int,
                best_poly as int,
            ) && hit_matches(p1, p2, polys@, h, best_poly as int, best_edge as int) && forall|
                ai: int,
                aj: int,
            |
                valid_pair(polys@, ai, aj) && cand_before(cands@, k as int, ai)
                    && #[trigger] pair_hits(p1, p2, polys@, ai, aj) && !(ai == best_poly as int
                    && aj == best_edge as int) ==> wins(
                    p1,
                    p2,
                    polys@,
                    best_poly as int,
                    best_edge as int,
                    ai,
                    aj,
                ),
        decreases ncand - k,
    {
        let ci = cands[k];
        let m = polys[ci].exterior.len();
        let ec: usize = if m == 0 {
            0
        } else {
            m - 1
        };
        assert(ec as int == polys@[ci as int].edge_count());
        let mut j: usize = 0;
        while j < ec
            invariant
                0 <= j <= ec,
                ci == cands@[k as int],
                k < ncand,
                ncand == cands@.len(),
                ci < polys@.len(),
                ec as int == polys@[ci as int].edge_count(),
                p1.in_wide_bounds(),
                p2.in_wide_bounds(),
                forall|i: int| 0 <= i < polys@.len() ==> (#[trigger] polys@[i]).in_bounds(),
                forall|m2: int| 0 <= m2 < cands@.len() ==> (#[trigger] cands@[m2]) < polys@.len(),
                best is None ==> forall|ai: int, aj: int|
                    valid_pair(polys@, ai, aj) && (cand_before(cands@, k as int, ai) || (ai
                        == ci as int && aj < j as int)) ==> !#[trigger] pair_hits(
                        p1,
                        p2,
                        polys@,
                        ai,
                        aj,
                    ),
                best matches Some(h) ==> valid_pair(polys@, best_poly as int, best_edge as int)
                    && pair_hits(p1, p2, polys@, best_poly as int, best_edge as int) && (
                cand_before(cands@, k as int, best_poly as int) || (best_poly == ci
                    && (best_edge as int) < j as int)) && hit_matches(
                    p1,
                    p2,
                    polys@,
                    h,
                    best_poly as int,
                    best_edge as int,
                ) && forall|ai: int, aj: int|
                    valid_pair(polys@, ai, aj) && (cand_before(cands@, k as int, ai) || (ai
                        == ci as int && aj < j as int)) && #[trigger] pair_hits(
                        p1,
                        p2,
                        polys@,
                        ai,
                        aj,
                    ) && !(ai == best_poly as int && aj == best_edge as int) ==> wins(
                        p1,
                        p2,
                        polys@,
                        best_poly as int,
                        best_edge as int,
                        ai,
                        aj,
                    ),
            decreases ec - j,
        {
            let q1 = polys[ci].exterior[j];
            let q2 = polys[ci].exterior[j + 1];
            let cur = edge_hit(p1, p2, q1, q2);
            match cur {
                Option::None => {
                    assert(!pair_hits(p1, p2, polys@, ci as int, j as int));
                },
                Option::Some(hnew) => {
                    assert(pair_hits(p1, p2, polys@, ci as int, j as int));
                    assert(hit_matches(p1, p2, polys@, hnew, ci as int, j as int));
                    match best {
                        Option::None => {
                            best = Some(hnew);
                            best_poly = ci;
                            best_edge = j;
                        },
                        Option::Some(hb) => {
                            if ci == best_poly && j == best_edge {
                            } else {
                                proof {
                                    lemma_abs_mul_bound(
                                        hnew.t_num as int,
                                        hb.t_den as int,
                                        9223372036854775807,
                                        9223372036854775807,
                                    );
                                    lemma_abs_mul_bound(
                                        hb.t_num as int,
                                        hnew.t_den as int,
                                        9223372036854775807,
                                        9223372036854775807,
                                    );
                                }
                                let lhs: i128 = (hnew.t_num as i128) * (hb.t_den as i128);
                                let rhs: i128 = (hb.t_num as i128) * (hnew.t_den as i128);
                                let take = lhs < rhs || (lhs == rhs && (ci < best_poly || (ci
                                    == best_poly && j < best_edge)));
                                let ghost obp = best_poly as int;
                                let ghost obe = best_edge as int;
                                if take {
                                    assert(wins(
                                        p1,
                                        p2,
                                        polys@,
                                        ci as int,
                                        j as int,
                                        obp,
                                        obe,
                                    ));
                                    best = Some(hnew);
                                    best_poly = ci;
                                    best_edge = j;
                                    proof {
                                        assert forall|ai: int, aj: int|
                                            valid_pair(polys@, ai, aj) && (cand_before(
                                                cands@,
                                                k as int,
                                                ai,
                                            ) || (ai == ci as int && aj < j as int))
                                                && #[trigger] pair_hits(p1, p2, polys@, ai, aj)
                                                && !(ai == ci as int && aj
                                                == j as int) implies wins(
                                            p1,
                                            p2,
                                            polys@,
                                            ci as int,
                                            j as int,
                                            ai,
                                            aj,
                                        ) by {
                                            if !(ai == obp && aj == obe) {
                                                lemma_wins_trans(
                                                    p1,
                                                    p2,
                                                    polys@,
                                                    ci as int,
                                                    j as int,
                                                    obp,
                                                    obe,
                                                    ai,
                                                    aj,
                                                );
                                            }
                                        }
                                    }
                                } else {
                                    proof {
                                        lemma_td_pos(p1, p2, polys@, ci as int, j as int);
                                        lemma_td_pos(p1, p2, polys@, obp, obe);
                                        assert(wins(p1, p2, polys@, obp, obe, ci as int, j as int));
                                    }
                                }
                            }
                        },
                    }
                },
            }
            proof {
                assert forall|ai: int, aj: int|
                    valid_pair(polys@, ai, aj) && (cand_before(cands@, k as int, ai) || (ai
                        == ci as int && aj < j as int + 1)) implies (cand_before(
                    cands@,
                    k as int,
                    ai,
                ) || (ai == ci as int && aj < j as int) || (ai == ci as int && aj
                    == j as int)) by {}
            }
            j = j + 1;
        }
        proof {
            assert forall|ai: int, aj: int|
                valid_pair(polys@, ai, aj) && cand_before(cands@, k as int + 1, ai) implies (
            cand_before(cands@, k as int, ai) || (ai == ci as int && aj
                < polys@[ci as int].edge_count())) by {
                if !cand_before(cands@, k as int, ai) {
                    let m0 = choose|m0: int| 0 <= m0 < k as int + 1 && cands@[m0] == ai;
                    assert(m0 == k as int);
                    assert(ai == ci as int);
                }
            }
            if best is Some {
                assert(cand_before(cands@, k as int + 1, best_poly as int)) by {
                    if !cand_before(cands@, k as int, best_poly as int) {
                        assert(cands@[k as int] == best_poly as usize);
                        assert(0 <= k as int && (k as int) < (k as int) + 1);
                    }
                }
            }
        }
        k = k + 1;
    }
    proof {
        lemma_best_before(p1, p2, polys@, polys@.len() as int, 0);
        assert forall|ai: int, aj: int|
            valid_pair(polys@, ai, aj) && #[trigger] pair_hits(p1, p2, polys@, ai, aj) implies
            cand_before(cands@, ncand as int, ai) by {
            lemma_hit_implies_bbox_overlap(p1, p2, polys@, ai, aj);
            assert(polys@[ai].bbox_spec().intersects(qb));
            assert(index_boxes(*idx)[ai].intersects(qb));
            assert(cands@.contains(ai as usize));
            let m0 = choose|m0: int| 0 <= m0 < cands@.len() && cands@[m0] == ai as usize;
            assert(cands@[m0] == ai as usize);
            assert(0 <= ai < npolys as int);
            assert((ai as usize) as int == ai);
            assert(0 <= m0 < ncand as int);
        }
        match best {
            Option::None => {
                if nearest_spec(p1, p2, polys@) is Some {
                    let w = nearest_spec(p1, p2, polys@)->Some_0;
                    assert(pair_hits(p1, p2, polys@, w.0, w.1));
                    assert(cand_before(cands@, ncand as int, w.0));
                    assert(false);
                }
            },
            Option::Some(h) => {
                assert(nearest_spec(p1, p2, polys@) is Some) by {
                    if nearest_spec(p1, p2, polys@) is None {
                        assert(before(best_poly as int, best_edge as int, polys@.len() as int, 0));
                        assert(!pair_hits(p1, p2, polys@, best_poly as int, best_edge as int));
                    }
                }
                let w = nearest_spec(p1, p2, polys@)->Some_0;
                lemma_best_unique(
                    p1,
                    p2,
                    polys@,
                    best_poly as int,
                    best_edge as int,
                    w.0,
                    w.1,
                );
            },
        }
    }
    best
}

/// A pair that wins against every other hitting pair is unique.
proof fn lemma_best_unique(
    p1: Coord,
    p2: Coord,
    polys: Seq<Polygon>,
    ai: int,
    aj: int,
    bi: int,
    bj: int,
)
    requires
        valid_pair(polys, ai, aj),
        pair_hits(p1, p2, polys, ai, aj),
        valid_pair(polys, bi, bj),
        pair_hits(p1, p2, polys, bi, bj),
        forall|vi: int, vj: int|
            valid_pair(polys, vi, vj) && #[trigger] pair_hits(p1, p2, polys, vi, vj) && !(vi == ai
                && vj == aj) ==> wins(p1, p2, polys, ai, aj, vi, vj),
        forall|vi: int, vj: int|
            valid_pair(polys, vi, vj) && #[trigger] pair_hits(p1, p2, polys, vi, vj) && !(vi == bi
                && vj == bj) ==> wins(p1, p2, polys, bi, bj, vi, vj),
    ensures
        ai == bi && aj == bj,
{
    if !(ai == bi && aj == bj) {
        assert(wins(p1, p2, polys, ai, aj, bi, bj));
        assert(wins(p1, p2, polys, bi, bj, ai, aj));
        lemma_wins_asym(p1, p2, polys, ai, aj, bi, bj);
    }
}

} // verus!
