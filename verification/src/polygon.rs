//! Point-in-polygon testing by ray casting.
//!
//! A point is inside a closed polygon when a horizontal ray cast from it
//! toward positive x crosses an odd number of edges. An edge is counted when
//! it straddles the ray's height (lower end inclusive, upper end exclusive)
//! and the crossing lies strictly to the point's right; the comparison is
//! exact, done on cross products rather than a divided intersection.

use vstd::prelude::*;
use crate::geometry::Vec2i;

verus! {

/// Coordinates accepted by the exact crossing test: differences of two such
/// values and their pairwise products stay far inside 128 bits.
pub const POLY_LIMIT: i64 = 2_000_000_000_000_000_000;

/// Whether the edge from `a` to `b` spans the horizontal line through `q`,
/// counting an endpoint on the line as below it.
pub open spec fn straddles(a: Vec2i, b: Vec2i, q: Vec2i) -> bool {
    (a.y > q.y) != (b.y > q.y)
}

/// Whether the ray from `q` toward positive x crosses the edge from `a` to
/// `b`: the edge straddles the ray and the intersection abscissa exceeds
/// `q.x`, compared exactly after multiplying through by the edge's rise.
pub open spec fn crossing(a: Vec2i, b: Vec2i, q: Vec2i) -> bool {
    &&& straddles(a, b, q)
    &&& {
        let d = b.y - a.y;
        if d > 0 {
            (q.x - a.x) * d < (b.x - a.x) * (q.y - a.y)
        } else {
            (q.x - a.x) * d > (b.x - a.x) * (q.y - a.y)
        }
    }
}

/// Whether edge `e` of the closed polygon `pts` crosses the ray from `q`.
pub open spec fn edge_crossing(pts: Seq<Vec2i>, q: Vec2i, e: int) -> bool {
    crossing(pts[e], pts[(e + 1) % (pts.len() as int)], q)
}

/// How many of the first `k` edges cross the ray from `q`.
pub open spec fn crossings_upto(pts: Seq<Vec2i>, q: Vec2i, k: int) -> int
    decreases k,
{
    if k <= 0 {
        0
    } else {
        crossings_upto(pts, q, k - 1) + if edge_crossing(pts, q, k - 1) {
            1int
        } else {
            0int
        }
    }
}

/// Whether `q` lies inside the closed polygon `pts`: an odd number of edge
/// crossings on the ray toward positive x.
pub open spec fn polygon_contains(pts: Seq<Vec2i>, q: Vec2i) -> bool {
    crossings_upto(pts, q, pts.len() as int) % 2 == 1
}

/// Ray-cast `q` against the closed polygon `pts`.
#[verifier::loop_isolation(false)]
pub fn point_in_polygon(pts: &Vec<Vec2i>, q: Vec2i) -> (r: bool)
    requires
        1 <= pts@.len(),
        forall|k: int|
            0 <= k < pts@.len() ==> -POLY_LIMIT <= (#[trigger] pts@[k]).x <= POLY_LIMIT
                && -POLY_LIMIT <= pts@[k].y <= POLY_LIMIT,
        -POLY_LIMIT <= q.x <= POLY_LIMIT,
        -POLY_LIMIT <= q.y <= POLY_LIMIT,
    ensures
        r == polygon_contains(pts@, q),
{
    let n: usize = pts.len();
    let mut inside: bool = false;
    let mut k: usize = 0;
    while k < n
        invariant
            k <= n,
            inside == (crossings_upto(pts@, q, k as int) % 2 == 1),
        decreases n - k,
    {
        let a: Vec2i = pts[k];
        let b: Vec2i = if k + 1 == n {
            pts[0]
        } else {
            pts[k + 1]
        };
        proof {
            if k + 1 < n {
                vstd::arithmetic::div_mod::lemma_small_mod((k + 1) as nat, n as nat);
            } else {
                vstd::arithmetic::div_mod::lemma_mod_self_0(n as int);
            }
        }
        if (a.y > q.y) != (b.y > q.y) {
            let d: i64 = b.y - a.y;
            proof {
                assert(
                    -20_000_000_000_000_000_000_000_000_000_000_000_000 <= ((q.x as int) - (
                    a.x as int)) * (d as int) <= 20_000_000_000_000_000_000_000_000_000_000_000_000
                        && -20_000_000_000_000_000_000_000_000_000_000_000_000 <= ((b.x as int) - (
                    a.x as int)) * ((q.y as int) - (a.y as int))
                        <= 20_000_000_000_000_000_000_000_000_000_000_000_000) by (nonlinear_arith)
                    requires
                        -4_000_000_000_000_000_000 <= (q.x as int) - (a.x as int)
                            <= 4_000_000_000_000_000_000,
                        -4_000_000_000_000_000_000 <= d as int <= 4_000_000_000_000_000_000,
                        -4_000_000_000_000_000_000 <= (b.x as int) - (a.x as int)
                            <= 4_000_000_000_000_000_000,
                        -4_000_000_000_000_000_000 <= (q.y as int) - (a.y as int)
                            <= 4_000_000_000_000_000_000,
                ;
            }
            let lhs: i128 = ((q.x as i128) - (a.x as i128)) * (d as i128);
            let rhs: i128 = ((b.x as i128) - (a.x as i128)) * ((q.y as i128) - (a.y as i128));
            let crossed: bool = if d > 0 {
                lhs < rhs
            } else {
                lhs > rhs
            };
            if crossed {
                inside = !inside;
            }
        }
        k += 1;
        proof {
            assert(crossings_upto(pts@, q, k as int) == crossings_upto(pts@, q, k as int - 1)
                + if edge_crossing(pts@, q, k as int - 1) {
                1int
            } else {
                0int
            });
        }
    }
    inside
}

/// The sign of the x offset from the centre for vertex `k` of a 20-point
/// ring laid out anticlockwise from the positive x axis.
pub open spec fn ring_x_sign(k: int) -> int {
    if k == 5 || k == 15 {
        0
    } else if 6 <= k <= 14 {
        -1
    } else {
        1
    }
}

/// The sign of the y offset from the centre for vertex `k` of the ring.
pub open spec fn ring_y_sign(k: int) -> int {
    if k == 0 || k == 10 {
        0
    } else if 1 <= k <= 9 {
        1
    } else {
        -1
    }
}

/// Whether `v` has the sign `s` asks for: zero, positive or negative.
pub open spec fn matches_sign(v: int, s: int) -> bool {
    if s == 0 {
        v == 0
    } else if s > 0 {
        v > 0
    } else {
        v < 0
    }
}

/// A 20-point polygon that winds once around `q`: every vertex sits in the
/// angular sector the ring layout assigns it, at any positive distance.
pub open spec fn ring_around(pts: Seq<Vec2i>, q: Vec2i) -> bool {
    &&& pts.len() == 20
    &&& forall|k: int|
        0 <= k < 20 ==> matches_sign((#[trigger] pts[k]).x - q.x, ring_x_sign(k)) && matches_sign(
            pts[k].y - q.y,
            ring_y_sign(k),
        )
}

/// A ring around `q` contains `q`: the ray toward positive x crosses exactly
/// the one edge that leaves the positive x axis upward.
pub proof fn lemma_ring_contains_centre(pts: Seq<Vec2i>, q: Vec2i)
    requires
        ring_around(pts, q),
    ensures
        polygon_contains(pts, q),
{
    assert forall|e: int| 0 <= e < 20 implies (#[trigger] ((e + 1) % (pts.len() as int))) == (
    if e == 19 {
        0int
    } else {
        e + 1
    }) by {
        if e < 19 {
            vstd::arithmetic::div_mod::lemma_small_mod((e + 1) as nat, 20nat);
        } else {
            vstd::arithmetic::div_mod::lemma_mod_self_0(20);
        }
    }
    assert(edge_crossing(pts, q, 0)) by {
        let a = pts[0];
        let b = pts[1];
        let d = b.y - a.y;
        assert(straddles(a, b, q));
        assert(d > 0);
        assert((q.x - a.x) * d < 0) by (nonlinear_arith)
            requires
                q.x - a.x < 0,
                d > 0,
        ;
        assert((b.x - a.x) * (q.y - a.y) == 0) by (nonlinear_arith)
            requires
                q.y - a.y == 0,
        ;
    }
    assert(!edge_crossing(pts, q, 9)) by {
        let a = pts[9];
        let b = pts[10];
        let d = b.y - a.y;
        let t = q.y - a.y;
        assert(d < 0);
        assert(t == d);
        assert((q.x - a.x) * d <= (b.x - a.x) * t) by (nonlinear_arith)
            requires
                d < 0,
                t == d,
                b.x - a.x < q.x - a.x,
        ;
    }
    assert forall|e: int| 1 <= e < 20 && e != 9 implies !edge_crossing(pts, q, e) by {
        let a = pts[e];
        let b = pts[(e + 1) % (pts.len() as int)];
        assert(!straddles(a, b, q));
    }
    assert(crossings_upto(pts, q, 0) == 0);
    assert(crossings_upto(pts, q, 1) == 1);
    assert(crossings_upto(pts, q, 2) == 1);
    assert(crossings_upto(pts, q, 3) == 1);
    assert(crossings_upto(pts, q, 4) == 1);
    assert(crossings_upto(pts, q, 5) == 1);
    assert(crossings_upto(pts, q, 6) == 1);
    assert(crossings_upto(pts, q, 7) == 1);
    assert(crossings_upto(pts, q, 8) == 1);
    assert(crossings_upto(pts, q, 9) == 1);
    assert(crossings_upto(pts, q, 10) == 1);
    assert(crossings_upto(pts, q, 11) == 1);
    assert(crossings_upto(pts, q, 12) == 1);
    assert(crossings_upto(pts, q, 13) == 1);
    assert(crossings_upto(pts, q, 14) == 1);
    assert(crossings_upto(pts, q, 15) == 1);
    assert(crossings_upto(pts, q, 16) == 1);
    assert(crossings_upto(pts, q, 17) == 1);
    assert(crossings_upto(pts, q, 18) == 1);
    assert(crossings_upto(pts, q, 19) == 1);
    assert(crossings_upto(pts, q, 20) == 1);
}

/// When no edge crosses the ray, the crossing count is zero.
proof fn lemma_no_crossings(pts: Seq<Vec2i>, q: Vec2i, k: int)
    requires
        forall|e: int| 0 <= e < k ==> !#[trigger] edge_crossing(pts, q, e),
    ensures
        crossings_upto(pts, q, k) == 0,
    decreases k,
{
    if k > 0 {
        lemma_no_crossings(pts, q, k - 1);
    }
}

/// A point strictly to the right of every vertex is outside the polygon:
/// the ray toward positive x leaves every edge behind it.
pub proof fn lemma_right_of_all_outside(pts: Seq<Vec2i>, q: Vec2i)
    requires
        1 <= pts.len(),
        forall|k: int| 0 <= k < pts.len() ==> (#[trigger] pts[k]).x < q.x,
    ensures
        !polygon_contains(pts, q),
{
    let n = pts.len() as int;
    assert forall|e: int| 0 <= e < n implies !#[trigger] edge_crossing(pts, q, e) by {
        vstd::arithmetic::div_mod::lemma_remainder_lower(e + 1, n);
        vstd::arithmetic::div_mod::lemma_remainder_upper(e + 1, n);
        let a = pts[e];
        let b = pts[(e + 1) % n];
        if straddles(a, b, q) {
            let d = b.y - a.y;
            let t = q.y - a.y;
            if d > 0 {
                assert((b.x - a.x) * t <= (q.x - a.x) * d) by (nonlinear_arith)
                    requires
                        b.x < q.x,
                        a.x < q.x,
                        0 <= t < d,
                ;
            } else {
                assert((b.x - a.x) * t >= (q.x - a.x) * d) by (nonlinear_arith)
                    requires
                        b.x < q.x,
                        a.x < q.x,
                        d <= t < 0,
                ;
            }
        }
    }
    lemma_no_crossings(pts, q, n);
}

} // verus!
