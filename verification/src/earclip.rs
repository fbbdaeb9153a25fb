//! Ear-clipping triangulation of a planar polygon.
//!
//! The polygon arrives as exact integer coordinates (see
//! [`crate::point::Point2`]), so every orientation and containment
//! test below is exact.  The algorithm mirrors the classic scheme: a
//! clockwise polygon (positive doubled shoelace sum under this sign
//! convention) is reversed first; then the first ear of each pass —
//! a convex corner whose triangle holds no other active vertex — is
//! clipped until three vertices remain.  Emitted triangles index the
//! polygon in its original order.

use vstd::prelude::*;
use crate::point::Point2;

verus! {

/// Bound on the quantized coordinates (and on the polygon length)
/// the triangulator accepts; it keeps every intermediate product far
/// inside the 128-bit range.
pub const QMAX: i64 = 0x10000000000;

/// Whether every coordinate of the polygon is within the accepted
/// bound.
pub open spec fn coords_bounded(pts: Seq<Point2>) -> bool {
    forall|i: int|
        0 <= i < pts.len() ==> -QMAX <= (#[trigger] pts[i]).x <= QMAX && -QMAX <= pts[i].y <= QMAX
}

/// One term of the doubled shoelace sum: the edge from position `i`
/// to its cyclic successor.
pub open spec fn sh_term(pts: Seq<Point2>, i: int) -> int {
    let p0 = pts[i];
    let p1 = pts[if i + 1 == pts.len() {
        0int
    } else {
        i + 1
    }];
    (p1.x - p0.x) * (p1.y + p0.y)
}

/// The first `k` terms of the doubled shoelace sum.
pub open spec fn sh_sum(pts: Seq<Point2>, k: int) -> int
    decreases k,
{
    if k <= 0 {
        0
    } else {
        sh_sum(pts, k - 1) + sh_term(pts, k - 1)
    }
}

/// Twice the signed area of the polygon; positive means clockwise
/// under this implementation's sign convention.
pub open spec fn signed_area2(pts: Seq<Point2>) -> int {
    sh_sum(pts, pts.len() as int)
}

/// Twice the cross product of the corner `a -> b -> c`: positive
/// exactly when the corner turns left (is convex after
/// normalization).
pub open spec fn spec_cross(a: Point2, b: Point2, c: Point2) -> int {
    (b.x - a.x) * (c.y - b.y) - (b.y - a.y) * (c.x - b.x)
}

/// The orientation sign of `p1` against the directed line
/// `p3 -> p2`.
pub open spec fn spec_sign(p1: Point2, p2: Point2, p3: Point2) -> int {
    (p1.x - p3.x) * (p2.y - p3.y) - (p2.x - p3.x) * (p1.y - p3.y)
}

/// Whether `p` lies inside or on the triangle `a b c` (no strictly
/// separating side sign).
pub open spec fn spec_point_in_tri(p: Point2, a: Point2, b: Point2, c: Point2) -> bool {
    let d1 = spec_sign(p, a, b);
    let d2 = spec_sign(p, b, c);
    let d3 = spec_sign(p, c, a);
    !((d1 < 0 || d2 < 0 || d3 < 0) && (d1 > 0 || d2 > 0 || d3 > 0))
}

/// Whether the corner over the active vertices `prev, curr, next` is
/// a valid ear: convex, with no other active vertex inside its
/// triangle.
pub open spec fn spec_ear_vals(
    pts: Seq<Point2>,
    act: Seq<usize>,
    prev: usize,
    curr: usize,
    next: usize,
) -> bool {
    &&& spec_cross(pts[prev as int], pts[curr as int], pts[next as int]) > 0
    &&& forall|j: int|
        0 <= j < act.len() && act[j] != prev && act[j] != curr && act[j] != next
            ==> !spec_point_in_tri(
            pts[(#[trigger] act[j]) as int],
            pts[prev as int],
            pts[curr as int],
            pts[next as int],
        )
}

/// Whether the active position `i` is an ear.
pub open spec fn spec_ear_at(pts: Seq<Point2>, act: Seq<usize>, i: int) -> bool {
    let prev = act[if i == 0 {
        act.len() - 1
    } else {
        i - 1
    }];
    let curr = act[i];
    let next = act[if i + 1 == act.len() {
        0int
    } else {
        i + 1
    }];
    spec_ear_vals(pts, act, prev, curr, next)
}

/// The first ear position at or after `i`, if any.
pub open spec fn find_ear(pts: Seq<Point2>, act: Seq<usize>, i: int) -> Option<int>
    decreases act.len() - i,
{
    if i < 0 || i >= act.len() {
        None
    } else if spec_ear_at(pts, act, i) {
        Some(i)
    } else {
        find_ear(pts, act, i + 1)
    }
}

/// Whether repeated clipping of the first ear reduces the active
/// list to a final triangle.
pub open spec fn clip_ok(pts: Seq<Point2>, act: Seq<usize>) -> bool
    decreases act.len(),
{
    if act.len() <= 3 {
        true
    } else {
        match find_ear(pts, act, 0) {
            None => false,
            Some(i) => if 0 <= i < act.len() {
                clip_ok(pts, act.remove(i))
            } else {
                false
            },
        }
    }
}

/// The polygon with its winding normalized: reversed when the
/// doubled shoelace sum is positive.
pub open spec fn norm_poly(pts: Seq<Point2>) -> Seq<Point2> {
    if signed_area2(pts) > 0 {
        pts.reverse()
    } else {
        pts
    }
}

/// The initial active list: every position, in order.
pub open spec fn init_active(n: nat) -> Seq<usize> {
    Seq::new(n, |i: int| i as usize)
}

/// Whether ear clipping succeeds on a polygon: trivially for a
/// triangle, and through the clipping process after winding
/// normalization otherwise.
pub open spec fn earclip_ok(pts: Seq<Point2>) -> bool {
    &&& pts.len() >= 3
    &&& (pts.len() == 3 || clip_ok(norm_poly(pts), init_active(pts.len())))
}


/// The triangle denoted by a returned index triple.
pub open spec fn tri_of(a: [usize; 3]) -> (usize, usize, usize) {
    (a@[0], a@[1], a@[2])
}

/// A triangle's indices mapped back through a reversal of an
/// `n`-point polygon.
pub open spec fn flip_tri(n: int, t: (usize, usize, usize)) -> (usize, usize, usize) {
    (((n - 1 - t.0) as usize), ((n - 1 - t.1) as usize), ((n - 1 - t.2) as usize))
}

/// The triangles that clipping emits, in order: the first ear of
/// each pass, then the final triangle.
pub open spec fn clip_triangles(pts: Seq<Point2>, act: Seq<usize>) -> Seq<(usize, usize, usize)>
    decreases act.len(),
{
    if act.len() < 3 {
        Seq::empty()
    } else if act.len() == 3 {
        seq![(act[0], act[1], act[2])]
    } else {
        match find_ear(pts, act, 0) {
            None => Seq::empty(),
            Some(i) => if 0 <= i < act.len() {
                let prev = act[if i == 0 {
                    act.len() - 1
                } else {
                    i - 1
                }];
                let curr = act[i];
                let next = act[if i + 1 == act.len() {
                    0int
                } else {
                    i + 1
                }];
                seq![(prev, curr, next)] + clip_triangles(pts, act.remove(i))
            } else {
                Seq::empty()
            },
        }
    }
}

/// The exact triangle list ear clipping returns: a three-point
/// polygon short-circuits to its single triangle; otherwise the
/// clipped triangles of the normalized polygon, indices mapped back
/// through the reversal when one happened.
pub open spec fn spec_earclip(pts: Seq<Point2>) -> Seq<(usize, usize, usize)> {
    let n = pts.len() as int;
    if n == 3 {
        seq![(0usize, 1usize, 2usize)]
    } else {
        let base = clip_triangles(norm_poly(pts), init_active(pts.len()));
        if signed_area2(pts) > 0 {
            base.map_values(|t: (usize, usize, usize)| flip_tri(n, t))
        } else {
            base
        }
    }
}

/// A triangle references three distinct positions of a polygon of
/// `n` points.
pub open spec fn tri_valid(t: Seq<usize>, n: int) -> bool {
    &&& t.len() == 3
    &&& t[0] < n && t[1] < n && t[2] < n
    &&& t[0] != t[1] && t[1] != t[2] && t[0] != t[2]
}


/// The shoelace terms from position `a` up to position `b`.
pub open spec fn sh_range(pts: Seq<Point2>, a: int, b: int) -> int
    decreases b - a,
{
    if b <= a {
        0
    } else {
        sh_range(pts, a, b - 1) + sh_term(pts, b - 1)
    }
}

/// The range sum from zero is the prefix sum.
proof fn lemma_sh_range_is_sum(pts: Seq<Point2>, k: int)
    ensures
        sh_range(pts, 0, k) == sh_sum(pts, k),
    decreases k,
{
    if k > 0 {
        lemma_sh_range_is_sum(pts, k - 1);
    }
}

/// A range sum can also be peeled from the bottom.
proof fn lemma_sh_range_lo(pts: Seq<Point2>, a: int, b: int)
    requires
        a < b,
    ensures
        sh_range(pts, a, b) == sh_term(pts, a) + sh_range(pts, a + 1, b),
    decreases b - a,
{
    if a + 1 == b {
        assert(sh_range(pts, a, b) == sh_range(pts, a, a) + sh_term(pts, a));
        assert(sh_range(pts, a, a) == 0);
        assert(sh_range(pts, a + 1, b) == 0);
    } else {
        lemma_sh_range_lo(pts, a, b - 1);
        assert(sh_range(pts, a, b) == sh_range(pts, a, b - 1) + sh_term(pts, b - 1));
        assert(sh_range(pts, a + 1, b) == sh_range(pts, a + 1, b - 1) + sh_term(pts, b - 1));
    }
}

/// Each shoelace term of the reversed polygon is the negation of a
/// term of the original.
proof fn lemma_sh_term_reverse(pts: Seq<Point2>, k: int)
    requires
        pts.len() >= 1,
        0 <= k < pts.len(),
    ensures
        sh_term(pts.reverse(), k) == -sh_term(
            pts,
            if k == pts.len() - 1 {
                pts.len() - 1
            } else {
                pts.len() - 2 - k
            },
        ),
{
    let n = pts.len() as int;
    let rev = pts.reverse();
    assert(rev.len() == n);
    if k == n - 1 {
        assert(rev[k] == pts[0] && rev[0] == pts[n - 1]);
        let ax: int = pts[n - 1].x as int;
        let bx: int = pts[0].x as int;
        let ay: int = pts[n - 1].y as int;
        let by: int = pts[0].y as int;
        assert(sh_term(rev, k) == (ax - bx) * (ay + by));
        assert(sh_term(pts, n - 1) == (bx - ax) * (by + ay));
        assert((ax - bx) * (ay + by) == -((bx - ax) * (by + ay))) by (nonlinear_arith);
    } else {
        assert(rev[k] == pts[n - 1 - k] && rev[k + 1] == pts[n - 2 - k]);
        let ax: int = pts[n - 2 - k].x as int;
        let bx: int = pts[n - 1 - k].x as int;
        let ay: int = pts[n - 2 - k].y as int;
        let by: int = pts[n - 1 - k].y as int;
        assert(sh_term(rev, k) == (ax - bx) * (ay + by));
        assert(sh_term(pts, n - 2 - k) == (bx - ax) * (by + ay));
        assert((ax - bx) * (ay + by) == -((bx - ax) * (by + ay))) by (nonlinear_arith);
    }
}

/// The partial reversed sums negate range sums of the original.
proof fn lemma_sh_sum_reverse_partial(pts: Seq<Point2>, k: int)
    requires
        pts.len() >= 1,
        0 <= k <= pts.len() - 1,
    ensures
        sh_sum(pts.reverse(), k) == -sh_range(pts, pts.len() - 1 - k, pts.len() - 1),
    decreases k,
{
    let n = pts.len() as int;
    if k > 0 {
        lemma_sh_sum_reverse_partial(pts, k - 1);
        lemma_sh_term_reverse(pts, k - 1);
        lemma_sh_range_lo(pts, n - 1 - k, n - 1);
    }
}

/// Reversing a polygon negates its doubled signed area.
pub proof fn lemma_signed_area_reverse(pts: Seq<Point2>)
    requires
        pts.len() >= 1,
    ensures
        signed_area2(pts.reverse()) == -signed_area2(pts),
{
    let n = pts.len() as int;
    lemma_sh_sum_reverse_partial(pts, n - 1);
    lemma_sh_term_reverse(pts, n - 1);
    lemma_sh_range_is_sum(pts, n - 1);
    assert(sh_sum(pts.reverse(), n) == sh_sum(pts.reverse(), n - 1) + sh_term(pts.reverse(), n - 1));
    assert(sh_sum(pts, n) == sh_sum(pts, n - 1) + sh_term(pts, n - 1));
}

/// Winding invariance of ear clipping: for a polygon whose doubled
/// signed area is not zero, clipping succeeds on the reversed point
/// order exactly when it succeeds on the original order.  Combined
/// with the triangulator's contract, both orders then yield the same
/// number of triangles.
pub proof fn lemma_earclip_winding(pts: Seq<Point2>)
    requires
        pts.len() >= 3,
        signed_area2(pts) != 0,
    ensures
        earclip_ok(pts.reverse()) == earclip_ok(pts),
{
    let rev = pts.reverse();
    if pts.len() == 3 {
    } else {
        lemma_signed_area_reverse(pts);
        if signed_area2(pts) > 0 {
            assert(norm_poly(pts) == rev);
            assert(signed_area2(rev) < 0);
            assert(norm_poly(rev) == rev);
        } else {
            assert(norm_poly(pts) == pts);
            assert(signed_area2(rev) > 0);
            assert(rev.reverse() =~= pts);
            assert(norm_poly(rev) == pts);
        }
    }
}

/// The product of two values bounded by `m` is bounded by `m * m`.
pub proof fn lemma_prod_bound(a: int, b: int, m: int)
    requires
        -m <= a <= m,
        -m <= b <= m,
        0 <= m,
    ensures
        -(m * m) <= a * b <= m * m,
{
    assert(-(m * m) <= a * b <= m * m) by (nonlinear_arith)
        requires
            -m <= a <= m,
            -m <= b <= m,
            0 <= m,
    ;
}

/// Exact orientation sign of `p1` against the line `p3 -> p2`, for
/// bounded points.
fn sign3(p1: Point2, p2: Point2, p3: Point2) -> (s: i128)
    requires
        -QMAX <= p1.x <= QMAX && -QMAX <= p1.y <= QMAX,
        -QMAX <= p2.x <= QMAX && -QMAX <= p2.y <= QMAX,
        -QMAX <= p3.x <= QMAX && -QMAX <= p3.y <= QMAX,
    ensures
        s == spec_sign(p1, p2, p3),
{
    let ax = p1.x as i128 - p3.x as i128;
    let by = p2.y as i128 - p3.y as i128;
    let bx = p2.x as i128 - p3.x as i128;
    let ay = p1.y as i128 - p3.y as i128;
    proof {
        lemma_prod_bound(ax as int, by as int, 0x20000000000);
        lemma_prod_bound(bx as int, ay as int, 0x20000000000);
    }
    ax * by - bx * ay
}

/// Exact doubled cross product of the corner `a -> b -> c`, for
/// bounded points.
fn cross3(a: Point2, b: Point2, c: Point2) -> (s: i128)
    requires
        -QMAX <= a.x <= QMAX && -QMAX <= a.y <= QMAX,
        -QMAX <= b.x <= QMAX && -QMAX <= b.y <= QMAX,
        -QMAX <= c.x <= QMAX && -QMAX <= c.y <= QMAX,
    ensures
        s == spec_cross(a, b, c),
{
    let abx = b.x as i128 - a.x as i128;
    let aby = b.y as i128 - a.y as i128;
    let bcx = c.x as i128 - b.x as i128;
    let bcy = c.y as i128 - b.y as i128;
    proof {
        lemma_prod_bound(abx as int, bcy as int, 0x20000000000);
        lemma_prod_bound(aby as int, bcx as int, 0x20000000000);
    }
    abx * bcy - aby * bcx
}

/// Whether `p` lies inside or on the triangle `a b c`, exactly.
fn point_in_triangle(p: Point2, a: Point2, b: Point2, c: Point2) -> (r: bool)
    requires
        -QMAX <= p.x <= QMAX && -QMAX <= p.y <= QMAX,
        -QMAX <= a.x <= QMAX && -QMAX <= a.y <= QMAX,
        -QMAX <= b.x <= QMAX && -QMAX <= b.y <= QMAX,
        -QMAX <= c.x <= QMAX && -QMAX <= c.y <= QMAX,
    ensures
        r == spec_point_in_tri(p, a, b, c),
{
    let d1 = sign3(p, a, b);
    let d2 = sign3(p, b, c);
    let d3 = sign3(p, c, a);
    let has_neg = d1 < 0 || d2 < 0 || d3 < 0;
    let has_pos = d1 > 0 || d2 > 0 || d3 > 0;
    !(has_neg && has_pos)
}

/// Twice the signed area of the polygon, exactly.
#[verifier::loop_isolation(false)]
pub fn compute_signed_area(points: &Vec<Point2>) -> (s: i128)
    requires
        coords_bounded(points@),
        points@.len() <= QMAX,
    ensures
        s == signed_area2(points@),
{
    let n = points.len();
    let mut acc: i128 = 0;
    let mut i: usize = 0;
    while i < n
        invariant
            0 <= i <= n,
            acc == sh_sum(points@, i as int),
            -0x400000000000000000000 * (i as int) <= acc <= 0x400000000000000000000 * (i as int),
        decreases n - i,
    {
        let p0 = points[i];
        let p1 = if i + 1 == n {
            points[0]
        } else {
            points[i + 1]
        };
        let dx = p1.x as i128 - p0.x as i128;
        let sy = p1.y as i128 + p0.y as i128;
        proof {
            lemma_prod_bound(dx as int, sy as int, 0x20000000000);
            assert(dx * sy == sh_term(points@, i as int));
            vstd::arithmetic::mul::lemma_mul_inequality(
                i as int + 1,
                n as int,
                0x400000000000000000000,
            );
            vstd::arithmetic::mul::lemma_mul_inequality(n as int, QMAX as int, 0x400000000000000000000);
        }
        acc = acc + dx * sy;
        i += 1;
    }
    acc
}

/// Whether the corner `prev, curr, next` over the active list is a
/// valid ear.
#[verifier::loop_isolation(false)]
fn is_ear(
    points: &Vec<Point2>,
    indices: &Vec<usize>,
    prev: usize,
    curr: usize,
    next: usize,
) -> (b: bool)
    requires
        coords_bounded(points@),
        (prev as int) < points@.len(),
        (curr as int) < points@.len(),
        (next as int) < points@.len(),
        forall|j: int| 0 <= j < indices@.len() ==> (#[trigger] indices@[j]) < points@.len(),
    ensures
        b == spec_ear_vals(points@, indices@, prev, curr, next),
{
    let a = points[prev];
    let bb = points[curr];
    let c = points[next];
    let cross = cross3(a, bb, c);
    if cross <= 0 {
        return false;
    }
    let m = indices.len();
    let mut j: usize = 0;
    while j < m
        invariant
            0 <= j <= m,
            forall|t: int|
                0 <= t < j && indices@[t] != prev && indices@[t] != curr && indices@[t] != next
                    ==> !spec_point_in_tri(
                    points@[(#[trigger] indices@[t]) as int],
                    points@[prev as int],
                    points@[curr as int],
                    points@[next as int],
                ),
        decreases m - j,
    {
        let idx = indices[j];
        if idx != prev && idx != curr && idx != next {
            if point_in_triangle(points[idx], a, bb, c) {
                return false;
            }
        }
        j += 1;
    }
    true
}

/// Skipping positions that are not ears does not change the first
/// ear found.
proof fn lemma_find_ear_from(pts: Seq<Point2>, act: Seq<usize>, k: int)
    requires
        0 <= k <= act.len(),
        forall|j: int| 0 <= j < k ==> !spec_ear_at(pts, act, j),
    ensures
        find_ear(pts, act, 0) == find_ear(pts, act, k),
    decreases k,
{
    if k > 0 {
        lemma_find_ear_from(pts, act, k - 1);
    }
}


/// The first ear of the active polygon, scanning from the start:
/// its position and the three corner vertices, or nothing when no
/// position is an ear.
#[verifier::loop_isolation(false)]
fn find_first_ear(points: &Vec<Point2>, indices: &Vec<usize>) -> (r: Option<
    (usize, usize, usize, usize),
>)
    requires
        coords_bounded(points@),
        indices@.len() >= 1,
        forall|j: int| 0 <= j < indices@.len() ==> (#[trigger] indices@[j]) < points@.len(),
    ensures
        match r {
            Some(q) => {
                &&& (q.0 as int) < indices@.len()
                &&& find_ear(points@, indices@, 0) == Some(q.0 as int)
                &&& q.1 == indices@[if q.0 == 0 {
                    indices@.len() - 1
                } else {
                    q.0 as int - 1
                }]
                &&& q.2 == indices@[q.0 as int]
                &&& q.3 == indices@[if q.0 as int + 1 == indices@.len() {
                    0int
                } else {
                    q.0 as int + 1
                }]
            },
            None => find_ear(points@, indices@, 0) is None,
        },
{
    let m = indices.len();
    let mut s: usize = 0;
    while s < m
        invariant
            0 <= s <= m,
            m == indices@.len(),
            forall|j: int| 0 <= j < s ==> !spec_ear_at(points@, indices@, j),
        decreases m - s,
    {
        let prev_idx = if s == 0 {
            m - 1
        } else {
            s - 1
        };
        let next_idx = if s + 1 == m {
            0
        } else {
            s + 1
        };
        let prev = indices[prev_idx];
        let curr = indices[s];
        let next = indices[next_idx];
        if is_ear(points, indices, prev, curr, next) {
            proof {
                lemma_find_ear_from(points@, indices@, s as int);
            }
            return Some((s, prev, curr, next));
        }
        s += 1;
    }
    proof {
        lemma_find_ear_from(points@, indices@, m as int);
    }
    None
}

/// Clipping the first ear advances the clipping mirror by exactly
/// that ear's triangle.
proof fn lemma_clip_step(pts: Seq<Point2>, act: Seq<usize>, i: int)
    requires
        3 < act.len(),
        0 <= i < act.len(),
        find_ear(pts, act, 0) == Some(i),
    ensures
        clip_ok(pts, act) == clip_ok(pts, act.remove(i)),
        clip_triangles(pts, act) == seq![
            (
                act[if i == 0 {
                    act.len() - 1
                } else {
                    i - 1
                }],
                act[i],
                act[if i + 1 == act.len() {
                    0int
                } else {
                    i + 1
                }],
            ),
        ] + clip_triangles(pts, act.remove(i)),
{
}


/// An independent copy of the point list.
#[verifier::loop_isolation(false)]
fn copy_points(points: &Vec<Point2>) -> (r: Vec<Point2>)
    ensures
        r@ == points@,
{
    let n = points.len();
    let mut r: Vec<Point2> = Vec::new();
    let mut i: usize = 0;
    while i < n
        invariant
            0 <= i <= n,
            n == points@.len(),
            r@.len() == i,
            forall|j: int| 0 <= j < i ==> r@[j] == points@[j],
        decreases n - i,
    {
        r.push(points[i]);
        i += 1;
    }
    proof {
        assert(r@ =~= points@);
    }
    r
}

/// The point list in reverse order.
#[verifier::loop_isolation(false)]
fn reverse_points(points: &Vec<Point2>) -> (r: Vec<Point2>)
    ensures
        r@ == points@.reverse(),
{
    let n = points.len();
    let mut r: Vec<Point2> = Vec::new();
    let mut i: usize = 0;
    while i < n
        invariant
            0 <= i <= n,
            n == points@.len(),
            r@.len() == i,
            forall|j: int| 0 <= j < i ==> r@[j] == points@[n - 1 - j],
        decreases n - i,
    {
        r.push(points[n - 1 - i]);
        i += 1;
    }
    proof {
        assert(r@ =~= points@.reverse());
    }
    r
}

/// The initial active list: every position, in order.
#[verifier::loop_isolation(false)]
fn init_indices(n: usize) -> (r: Vec<usize>)
    ensures
        r@ == init_active(n as nat),
        r@.no_duplicates(),
        forall|j: int| 0 <= j < r@.len() ==> (#[trigger] r@[j]) < n,
{
    let mut r: Vec<usize> = Vec::new();
    let mut i: usize = 0;
    while i < n
        invariant
            0 <= i <= n,
            r@.len() == i,
            forall|j: int| 0 <= j < i ==> r@[j] == j as usize,
        decreases n - i,
    {
        r.push(i);
        i += 1;
    }
    proof {
        assert(r@ =~= init_active(n as nat));
    }
    r
}

/// Maps every triangle's indices back through the reversal of an
/// `n`-point polygon, in place.
#[verifier::loop_isolation(false)]
fn flip_triangles(triangles: &mut Vec<[usize; 3]>, n: usize)
    requires
        forall|k: int|
            0 <= k < old(triangles)@.len() ==> tri_valid(
                (#[trigger] old(triangles)@[k])@,
                n as int,
            ),
    ensures
        final(triangles)@.len() == old(triangles)@.len(),
        forall|k: int|
            0 <= k < final(triangles)@.len() ==> tri_valid(
                (#[trigger] final(triangles)@[k])@,
                n as int,
            ) && tri_of(final(triangles)@[k]) == flip_tri(n as int, tri_of(old(triangles)@[k])),
{
    let count = triangles.len();
    let ghost tris_mid = triangles@;
    let mut t: usize = 0;
    while t < count
        invariant
            0 <= t <= count,
            triangles@.len() == count,
            count == tris_mid.len(),
            forall|k: int| t <= k < count ==> triangles@[k] == tris_mid[k],
            forall|k: int| 0 <= k < count ==> tri_valid((#[trigger] tris_mid[k])@, n as int),
            forall|k: int|
                0 <= k < t ==> tri_valid((#[trigger] triangles@[k])@, n as int) && tri_of(
                    triangles@[k],
                ) == flip_tri(n as int, tri_of(tris_mid[k])),
        decreases count - t,
    {
        let tr = triangles[t];
        proof {
            assert(tr == tris_mid[t as int]);
            assert(tri_valid(tr@, n as int));
            assert(tr@[0] == tr[0] && tr@[1] == tr[1] && tr@[2] == tr[2]);
        }
        let flipped: [usize; 3] = [n - 1 - tr[0], n - 1 - tr[1], n - 1 - tr[2]];
        triangles[t] = flipped;
        proof {
            assert(flipped@ =~= seq![
                (n - 1 - tr@[0]) as usize,
                (n - 1 - tr@[1]) as usize,
                (n - 1 - tr@[2]) as usize,
            ]);
            assert(tri_valid(flipped@, n as int));
            assert(tri_of(flipped) == flip_tri(n as int, tri_of(tris_mid[t as int])));
        }
        t += 1;
    }
}

/// Triangulate a polygon by ear clipping.
///
/// Returns the triangles as triples of positions into the original
/// point order.  Succeeds exactly when the clipping process finds an
/// ear in every pass; on success there are exactly `n - 2`
/// triangles, each over three distinct positions.
#[verifier::loop_isolation(false)]
#[verifier::rlimit(100)]
pub fn earclip_triangulate(points: &Vec<Point2>) -> (r: Result<Vec<[usize; 3]>, &'static str>)
    requires
        coords_bounded(points@),
        points@.len() <= QMAX,
    ensures
        r is Ok <==> earclip_ok(points@),
        r is Ok ==> (r->Ok_0)@.len() == points@.len() - 2,
        r is Ok ==> forall|t: int|
            0 <= t < (r->Ok_0)@.len() ==> tri_valid((#[trigger] (r->Ok_0)@[t])@, points@.len() as int),
        r is Ok ==> (r->Ok_0)@.map_values(|a: [usize; 3]| tri_of(a)) == spec_earclip(points@),
        r is Err ==> (r->Err_0)@ == if points@.len() < 3 {
            "Polygon must have at least 3 vertices"@
        } else {
            "Unable to find valid ear for triangulation"@
        },
{
    let n = points.len();
    if n < 3 {
        return Err("Polygon must have at least 3 vertices");
    }
    if n == 3 {
        let mut tris: Vec<[usize; 3]> = Vec::new();
        let first: [usize; 3] = [0, 1, 2];
        proof {
            assert(first@ =~= seq![0usize, 1usize, 2usize]);
        }
        tris.push(first);
        proof {
            assert(tris@.map_values(|a: [usize; 3]| tri_of(a)) =~= spec_earclip(points@));
        }
        return Ok(tris);
    }
    let area2 = compute_signed_area(points);
    let was_reversed = area2 > 0;
    let poly: Vec<Point2> = if was_reversed {
        reverse_points(points)
    } else {
        copy_points(points)
    };
    assert(poly@ == norm_poly(points@));
    assert(coords_bounded(poly@));
    let indices = init_indices(n);
    let mut indices = indices;
    let ghost act0 = indices@;
    let mut triangles: Vec<[usize; 3]> = Vec::new();
    proof {
        assert(triangles@.map_values(|a: [usize; 3]| tri_of(a)) + clip_triangles(poly@, act0)
            =~= clip_triangles(poly@, act0));
    }
    while indices.len() > 3
        invariant
            3 <= indices@.len() <= n,
            indices@.no_duplicates(),
            forall|j: int| 0 <= j < indices@.len() ==> (#[trigger] indices@[j]) < n,
            triangles@.len() + indices@.len() == n,
            forall|t: int|
                0 <= t < triangles@.len() ==> tri_valid((#[trigger] triangles@[t])@, n as int),
            clip_ok(poly@, indices@) == clip_ok(poly@, act0),
            triangles@.map_values(|a: [usize; 3]| tri_of(a)) + clip_triangles(poly@, indices@)
                == clip_triangles(poly@, act0),
        decreases indices@.len(),
    {
        let (ear_pos, ear_prev, ear_curr, ear_next) = match find_first_ear(&poly, &indices) {
            Some(q) => q,
            None => {
                proof {
                    assert(!clip_ok(poly@, indices@));
                }
                return Err("Unable to find valid ear for triangulation");
            },
        };
        proof {
            lemma_clip_step(poly@, indices@, ear_pos as int);
            // The three corner positions are distinct, so the corner
            // values are distinct active vertices.
            let len = indices@.len() as int;
            let pi = if ear_pos == 0 {
                len - 1
            } else {
                ear_pos as int - 1
            };
            let ni = if ear_pos as int + 1 == len {
                0int
            } else {
                ear_pos as int + 1
            };
            assert(pi != ear_pos as int && ni != ear_pos as int && pi != ni);
            assert(ear_prev != ear_curr && ear_curr != ear_next && ear_prev != ear_next);
        }
        let ghost tris_before = triangles@;
        let new_tri: [usize; 3] = [ear_prev, ear_curr, ear_next];
        proof {
            assert(new_tri@ =~= seq![ear_prev, ear_curr, ear_next]);
        }
        triangles.push(new_tri);
        let ghost act_before = indices@;
        indices.remove(ear_pos);
        proof {
            assert(indices@ == act_before.remove(ear_pos as int));
            assert(indices@.no_duplicates());
            assert(clip_ok(poly@, act_before) == clip_ok(poly@, indices@));
            assert(forall|t: int|
                0 <= t < triangles@.len() - 1 ==> triangles@[t] == triangles@.drop_last()[t]);
            // The emitted triangle is the one the clipping mirror
            // prepends for this pass (the clip-step lemma above).
            assert(clip_triangles(poly@, act_before) == seq![(ear_prev, ear_curr, ear_next)]
                + clip_triangles(poly@, indices@));
            assert(triangles@.map_values(|a: [usize; 3]| tri_of(a)) =~= tris_before.map_values(
                |a: [usize; 3]| tri_of(a),
            ).push((ear_prev, ear_curr, ear_next)));
            assert(triangles@.map_values(|a: [usize; 3]| tri_of(a)) + clip_triangles(
                poly@,
                indices@,
            ) =~= clip_triangles(poly@, act0));
        }
    }
    proof {
        assert(clip_ok(poly@, indices@));
        assert(clip_ok(poly@, act0));
        assert(earclip_ok(points@));
    }
    let t0 = indices[0];
    let t1 = indices[1];
    let t2 = indices[2];
    let ghost tris_pre_final = triangles@;
    let last_tri: [usize; 3] = [t0, t1, t2];
    proof {
        assert(last_tri@ =~= seq![t0, t1, t2]);
    }
    triangles.push(last_tri);
    proof {
        assert(clip_triangles(poly@, indices@) == seq![(t0, t1, t2)]);
        assert(triangles@.map_values(|a: [usize; 3]| tri_of(a)) =~= tris_pre_final.map_values(
            |a: [usize; 3]| tri_of(a),
        ).push((t0, t1, t2)));
        assert(triangles@.map_values(|a: [usize; 3]| tri_of(a)) =~= clip_triangles(poly@, act0));
    }
    if was_reversed {
        let ghost tris_mid = triangles@;
        flip_triangles(&mut triangles, n);
        proof {
            assert(tris_mid.map_values(|a: [usize; 3]| tri_of(a)) == clip_triangles(poly@, act0));
            assert(triangles@.map_values(|a: [usize; 3]| tri_of(a)) =~= clip_triangles(
                poly@,
                act0,
            ).map_values(|tt: (usize, usize, usize)| flip_tri(n as int, tt)));
            assert(triangles@.map_values(|a: [usize; 3]| tri_of(a)) == spec_earclip(points@));
        }
    } else {
        proof {
            assert(triangles@.map_values(|a: [usize; 3]| tri_of(a)) == spec_earclip(points@));
        }
    }
    Ok(triangles)
}

} // verus!
