//! Building meshes from polygon soups.
//!
//! The builders merge vertices by their quantized coordinates (two
//! points merge exactly when all three quantized coordinates agree),
//! insert faces through [`crate::mesh::Mesh::add_face`], and
//! triangulate larger faces with the ear-clipping triangulator after
//! an axis-dropping projection chosen by Newell's method — all on
//! exact integer coordinates.

use vstd::prelude::*;
use crate::earclip::QMAX;
use crate::earclip::coords_bounded;
use crate::earclip::earclip_ok;
use crate::earclip::earclip_triangulate;
use crate::earclip::spec_earclip;
use crate::earclip::tri_valid;
use crate::mesh::Mesh;
use crate::mesh::face_halfedges;
use crate::point::Point2;
use crate::point::Point3;
use crate::point::SoupPoint;

verus! {

/// The vertex key that the `i`-th auto-keyed vertex insertion gets
/// on a fresh mesh.
pub open spec fn nth_auto_key(i: int) -> usize {
    (2 * i + 1) as usize
}

/// The quantized coordinates of a soup point, as the merge key.
pub open spec fn qkey_of(p: SoupPoint) -> (i64, i64, i64) {
    (p.qx, p.qy, p.qz)
}

/// Whether every quantized coordinate of a polygon is within the
/// accepted bound.
pub open spec fn soup_poly_bounded(ps: Seq<SoupPoint>) -> bool {
    forall|i: int|
        0 <= i < ps.len() ==> -QMAX <= (#[trigger] ps[i]).qx <= QMAX && -QMAX <= ps[i].qy <= QMAX
            && -QMAX <= ps[i].qz <= QMAX
}

/// The cyclic successor position in a polygon.
pub open spec fn succ(len: int, i: int) -> int {
    if i + 1 == len {
        0int
    } else {
        i + 1
    }
}

/// One term of the Newell sum for the first normal component.
pub open spec fn newell_term_x(ps: Seq<SoupPoint>, i: int) -> int {
    let c = ps[i];
    let n = ps[succ(ps.len() as int, i)];
    (c.qy - n.qy) * (c.qz + n.qz)
}

/// One term of the Newell sum for the second normal component.
pub open spec fn newell_term_y(ps: Seq<SoupPoint>, i: int) -> int {
    let c = ps[i];
    let n = ps[succ(ps.len() as int, i)];
    (c.qz - n.qz) * (c.qx + n.qx)
}

/// One term of the Newell sum for the third normal component.
pub open spec fn newell_term_z(ps: Seq<SoupPoint>, i: int) -> int {
    let c = ps[i];
    let n = ps[succ(ps.len() as int, i)];
    (c.qx - n.qx) * (c.qy + n.qy)
}

/// The first `k` terms of the Newell sum for the first component.
pub open spec fn newell_x(ps: Seq<SoupPoint>, k: int) -> int
    decreases k,
{
    if k <= 0 {
        0
    } else {
        newell_x(ps, k - 1) + newell_term_x(ps, k - 1)
    }
}

/// The first `k` terms of the Newell sum for the second component.
pub open spec fn newell_y(ps: Seq<SoupPoint>, k: int) -> int
    decreases k,
{
    if k <= 0 {
        0
    } else {
        newell_y(ps, k - 1) + newell_term_y(ps, k - 1)
    }
}

/// The first `k` terms of the Newell sum for the third component.
pub open spec fn newell_z(ps: Seq<SoupPoint>, k: int) -> int
    decreases k,
{
    if k <= 0 {
        0
    } else {
        newell_z(ps, k - 1) + newell_term_z(ps, k - 1)
    }
}

/// The absolute value.
pub open spec fn abs_i(x: int) -> int {
    if x < 0 {
        -x
    } else {
        x
    }
}

/// The planar projection of a polygon: the coordinate axis with the
/// dominant Newell-normal component is dropped (the third axis on
/// ties and for degenerate polygons).
pub open spec fn spec_project(ps: Seq<SoupPoint>) -> Seq<Point2> {
    let n = ps.len() as int;
    let ax = abs_i(newell_x(ps, n));
    let ay = abs_i(newell_y(ps, n));
    let az = abs_i(newell_z(ps, n));
    if az >= ax && az >= ay {
        ps.map_values(|p: SoupPoint| Point2 { x: p.qx, y: p.qy })
    } else if ay >= ax && ay >= az {
        ps.map_values(|p: SoupPoint| Point2 { x: p.qx, y: p.qz })
    } else {
        ps.map_values(|p: SoupPoint| Point2 { x: p.qy, y: p.qz })
    }
}

/// Project a polygon to the plane by dropping the axis of the
/// dominant Newell-normal component.
#[verifier::loop_isolation(false)]
pub fn project_polygon_to_2d(polygon: &Vec<SoupPoint>) -> (r: Vec<Point2>)
    requires
        soup_poly_bounded(polygon@),
        polygon@.len() <= QMAX,
        polygon@.len() >= 3,
    ensures
        r@ == spec_project(polygon@),
        coords_bounded(r@),
        r@.len() == polygon@.len(),
{
    let n = polygon.len();
    let mut sx: i128 = 0;
    let mut sy: i128 = 0;
    let mut sz: i128 = 0;
    let mut i: usize = 0;
    while i < n
        invariant
            0 <= i <= n,
            sx == newell_x(polygon@, i as int),
            sy == newell_y(polygon@, i as int),
            sz == newell_z(polygon@, i as int),
            -0x400000000000000000000 * (i as int) <= sx <= 0x400000000000000000000 * (i as int),
            -0x400000000000000000000 * (i as int) <= sy <= 0x400000000000000000000 * (i as int),
            -0x400000000000000000000 * (i as int) <= sz <= 0x400000000000000000000 * (i as int),
        decreases n - i,
    {
        let c = polygon[i];
        let nx = if i + 1 == n {
            polygon[0]
        } else {
            polygon[i + 1]
        };
        let dyx = c.qy as i128 - nx.qy as i128;
        let szx = c.qz as i128 + nx.qz as i128;
        let dzy = c.qz as i128 - nx.qz as i128;
        let sxy = c.qx as i128 + nx.qx as i128;
        let dxz = c.qx as i128 - nx.qx as i128;
        let syz = c.qy as i128 + nx.qy as i128;
        proof {
            crate::earclip::lemma_prod_bound(
                c.qy - nx.qy,
                c.qz + nx.qz,
                0x20000000000,
            );
            crate::earclip::lemma_prod_bound(
                c.qz - nx.qz,
                c.qx + nx.qx,
                0x20000000000,
            );
            crate::earclip::lemma_prod_bound(
                c.qx - nx.qx,
                c.qy + nx.qy,
                0x20000000000,
            );
            vstd::arithmetic::mul::lemma_mul_inequality(
                i as int + 1,
                n as int,
                0x400000000000000000000,
            );
            vstd::arithmetic::mul::lemma_mul_inequality(
                n as int,
                QMAX as int,
                0x400000000000000000000,
            );
        }
        let tx = dyx * szx;
        let ty = dzy * sxy;
        let tz = dxz * syz;
        proof {
            assert(tx == newell_term_x(polygon@, i as int));
            assert(ty == newell_term_y(polygon@, i as int));
            assert(tz == newell_term_z(polygon@, i as int));
        }
        sx = sx + tx;
        sy = sy + ty;
        sz = sz + tz;
        i += 1;
    }
    let ax = if sx < 0 {
        -sx
    } else {
        sx
    };
    let ay = if sy < 0 {
        -sy
    } else {
        sy
    };
    let az = if sz < 0 {
        -sz
    } else {
        sz
    };
    let mut r: Vec<Point2> = Vec::new();
    let mut j: usize = 0;
    if az >= ax && az >= ay {
        while j < n
            invariant
                0 <= j <= n,
                r@.len() == j,
                forall|t: int|
                    0 <= t < j ==> r@[t] == (Point2 { x: polygon@[t].qx, y: polygon@[t].qy }),
            decreases n - j,
        {
            r.push(Point2 { x: polygon[j].qx, y: polygon[j].qy });
            j += 1;
        }
        proof {
            assert(r@ =~= spec_project(polygon@));
        }
    } else if ay >= ax && ay >= az {
        while j < n
            invariant
                0 <= j <= n,
                r@.len() == j,
                forall|t: int|
                    0 <= t < j ==> r@[t] == (Point2 { x: polygon@[t].qx, y: polygon@[t].qz }),
            decreases n - j,
        {
            r.push(Point2 { x: polygon[j].qx, y: polygon[j].qz });
            j += 1;
        }
        proof {
            assert(r@ =~= spec_project(polygon@));
        }
    } else {
        while j < n
            invariant
                0 <= j <= n,
                r@.len() == j,
                forall|t: int|
                    0 <= t < j ==> r@[t] == (Point2 { x: polygon@[t].qy, y: polygon@[t].qz }),
            decreases n - j,
        {
            r.push(Point2 { x: polygon[j].qy, y: polygon[j].qz });
            j += 1;
        }
        proof {
            assert(r@ =~= spec_project(polygon@));
        }
    }
    r
}

/// The merge keys of a polygon's points, in order.
pub open spec fn qkeys_of(ps: Seq<SoupPoint>) -> Seq<(i64, i64, i64)> {
    ps.map_values(|p: SoupPoint| qkey_of(p))
}

/// Whether no two points of a polygon share a merge key.
pub open spec fn qkeys_distinct(ps: Seq<SoupPoint>) -> bool {
    qkeys_of(ps).no_duplicates()
}

/// The points of the polygons with at least three points, flattened
/// in order.
pub open spec fn valid_soup_points(polys: Seq<Vec<SoupPoint>>) -> Seq<SoupPoint>
    decreases polys.len(),
{
    if polys.len() == 0 {
        Seq::empty()
    } else {
        valid_soup_points(polys.drop_last()) + (if polys.last()@.len() >= 3 {
            polys.last()@
        } else {
            Seq::empty()
        })
    }
}

/// The number of polygons that yield a face: at least three points,
/// no two sharing a merge key.
pub open spec fn good_polys(polys: Seq<Vec<SoupPoint>>) -> int
    decreases polys.len(),
{
    if polys.len() == 0 {
        0
    } else {
        good_polys(polys.drop_last()) + (if polys.last()@.len() >= 3 && qkeys_distinct(
            polys.last()@,
        ) {
            1int
        } else {
            0int
        })
    }
}

/// The total number of points over all polygons.
pub open spec fn total_soup_points(polys: Seq<Vec<SoupPoint>>) -> int
    decreases polys.len(),
{
    if polys.len() == 0 {
        0
    } else {
        total_soup_points(polys.drop_last()) + polys.last()@.len()
    }
}

/// Unfolds the per-polygon aggregates by one polygon.
pub proof fn lemma_soup_take_step(polys: Seq<Vec<SoupPoint>>, k: int)
    requires
        0 <= k < polys.len(),
    ensures
        valid_soup_points(polys.take(k + 1)) == valid_soup_points(polys.take(k)) + (if polys[k]@.len()
            >= 3 {
            polys[k]@
        } else {
            Seq::<SoupPoint>::empty()
        }),
        good_polys(polys.take(k + 1)) == good_polys(polys.take(k)) + (if polys[k]@.len() >= 3
            && qkeys_distinct(polys[k]@) {
            1int
        } else {
            0int
        }),
        total_soup_points(polys.take(k + 1)) == total_soup_points(polys.take(k)) + polys[k]@.len(),
{
    assert(polys.take(k + 1).drop_last() =~= polys.take(k));
    assert(polys.take(k + 1).last() == polys[k]);
}

/// The total point count never decreases as more polygons are
/// considered.
pub proof fn lemma_total_take_le(polys: Seq<Vec<SoupPoint>>, k: int)
    requires
        0 <= k <= polys.len(),
    ensures
        total_soup_points(polys.take(k)) <= total_soup_points(polys),
    decreases polys.len() - k,
{
    if k == polys.len() {
        assert(polys.take(k) =~= polys);
    } else {
        lemma_soup_take_step(polys, k);
        lemma_total_take_le(polys, k + 1);
    }
}

/// The good-polygon count is at most the polygon count.
pub proof fn lemma_good_le(polys: Seq<Vec<SoupPoint>>)
    ensures
        0 <= good_polys(polys) <= polys.len(),
    decreases polys.len(),
{
    if polys.len() > 0 {
        lemma_good_le(polys.drop_last());
    }
}

/// The points of all polygons, flattened in order.
pub open spec fn all_soup_points(polys: Seq<Vec<SoupPoint>>) -> Seq<SoupPoint>
    decreases polys.len(),
{
    if polys.len() == 0 {
        Seq::empty()
    } else {
        all_soup_points(polys.drop_last()) + polys.last()@
    }
}

/// The number of triangles that triangulating every polygon with at
/// least three points yields: `n - 2` for each.
pub open spec fn tri_face_total(polys: Seq<Vec<SoupPoint>>) -> int
    decreases polys.len(),
{
    if polys.len() == 0 {
        0
    } else {
        tri_face_total(polys.drop_last()) + (if polys.last()@.len() >= 3 {
            polys.last()@.len() - 2
        } else {
            0int
        })
    }
}

/// Whether every quantized coordinate of every polygon is within the
/// accepted bound.
pub open spec fn soup_all_bounded(polys: Seq<Vec<SoupPoint>>) -> bool {
    forall|p: int| 0 <= p < polys.len() ==> soup_poly_bounded((#[trigger] polys[p])@)
}

/// Whether every polygon with at least three points has pairwise
/// distinct merge keys.
pub open spec fn all_polys_distinct(polys: Seq<Vec<SoupPoint>>) -> bool {
    forall|p: int|
        0 <= p < polys.len() && (#[trigger] polys[p])@.len() >= 3 ==> qkeys_distinct(polys[p]@)
}

/// Unfolds the whole-soup aggregates by one polygon.
pub proof fn lemma_merge_take_step(polys: Seq<Vec<SoupPoint>>, k: int)
    requires
        0 <= k < polys.len(),
    ensures
        all_soup_points(polys.take(k + 1)) == all_soup_points(polys.take(k)) + polys[k]@,
        tri_face_total(polys.take(k + 1)) == tri_face_total(polys.take(k)) + (if polys[k]@.len()
            >= 3 {
            polys[k]@.len() - 2
        } else {
            0int
        }),
{
    assert(polys.take(k + 1).drop_last() =~= polys.take(k));
    assert(polys.take(k + 1).last() == polys[k]);
}

/// The triangle total over a prefix never exceeds the total point
/// count of the whole soup.
pub proof fn lemma_tri_total_take_le(polys: Seq<Vec<SoupPoint>>, k: int)
    requires
        0 <= k <= polys.len(),
    ensures
        0 <= tri_face_total(polys.take(k)),
        tri_face_total(polys.take(k)) <= total_soup_points(polys),
    decreases polys.len() - k,
{
    lemma_tri_total_le_total(polys.take(k));
    if k == polys.len() {
        assert(polys.take(k) =~= polys);
        lemma_tri_total_le_total(polys);
    } else {
        lemma_merge_take_step(polys, k);
        lemma_tri_total_take_le(polys, k + 1);
    }
}

/// The triangle total of a soup is at most its point total.
pub proof fn lemma_tri_total_le_total(polys: Seq<Vec<SoupPoint>>)
    ensures
        0 <= tri_face_total(polys),
        tri_face_total(polys) <= total_soup_points(polys),
    decreases polys.len(),
{
    if polys.len() > 0 {
        lemma_tri_total_le_total(polys.drop_last());
    }
}

/// The point total is never negative.
pub proof fn lemma_total_nonneg_all(polys: Seq<Vec<SoupPoint>>)
    ensures
        0 <= total_soup_points(polys),
    decreases polys.len(),
{
    if polys.len() > 0 {
        lemma_total_nonneg_all(polys.drop_last());
    }
}


/// Whether the merge table maps a point's merge key to the vertex
/// key `v`.
pub open spec fn table_maps(qv: Seq<(i64, i64, i64, usize)>, p: SoupPoint, v: usize) -> bool {
    exists|idx: int| 0 <= idx < qv.len() && (#[trigger] qv[idx]) == (p.qx, p.qy, p.qz, v)
}

/// A table mapping survives any extension of the table.
pub proof fn lemma_table_maps_prefix(
    q1: Seq<(i64, i64, i64, usize)>,
    q2: Seq<(i64, i64, i64, usize)>,
    p: SoupPoint,
    v: usize,
)
    requires
        q1.is_prefix_of(q2),
        table_maps(q1, p, v),
    ensures
        table_maps(q2, p, v),
{
    let idx = choose|idx: int| 0 <= idx < q1.len() && (#[trigger] q1[idx]) == (p.qx, p.qy, p.qz, v);
    assert(q2[idx] == (p.qx, p.qy, p.qz, v));
}

/// In a well-formed merge table, two mapped vertex keys agree
/// exactly when the merge keys agree.
pub proof fn lemma_table_injective(
    qv: Seq<(i64, i64, i64, usize)>,
    p1: SoupPoint,
    v1: usize,
    p2: SoupPoint,
    v2: usize,
)
    requires
        qv_keys(qv).no_duplicates(),
        forall|idx: int| 0 <= idx < qv.len() ==> (#[trigger] qv[idx]).3 == nth_auto_key(idx),
        2 * qv.len() <= usize::MAX,
        table_maps(qv, p1, v1),
        table_maps(qv, p2, v2),
    ensures
        (v1 == v2) <==> (qkey_of(p1) == qkey_of(p2)),
{
    let idx1 = choose|idx: int|
        0 <= idx < qv.len() && (#[trigger] qv[idx]) == (p1.qx, p1.qy, p1.qz, v1);
    let idx2 = choose|idx: int|
        0 <= idx < qv.len() && (#[trigger] qv[idx]) == (p2.qx, p2.qy, p2.qz, v2);
    assert(qv_keys(qv)[idx1] == qkey_of(p1));
    assert(qv_keys(qv)[idx2] == qkey_of(p2));
    assert(qv[idx1].3 == nth_auto_key(idx1));
    assert(qv[idx2].3 == nth_auto_key(idx2));
    if qkey_of(p1) == qkey_of(p2) {
        assert(idx1 == idx2);
    }
    if v1 == v2 {
        assert(idx1 == idx2);
    }
}


/// Whether some point of a polygon soup carries a merge key.
pub open spec fn seq_has_key(ps: Seq<SoupPoint>, k: (i64, i64, i64)) -> bool {
    exists|i: int| 0 <= i < ps.len() && qkey_of(#[trigger] ps[i]) == k
}

/// The distinct merge keys of a polygon soup, in first-seen order.
pub open spec fn first_seen_qkeys(ps: Seq<SoupPoint>) -> Seq<(i64, i64, i64)>
    decreases ps.len(),
{
    if ps.len() == 0 {
        Seq::empty()
    } else {
        let prior = first_seen_qkeys(ps.drop_last());
        if prior.contains(qkey_of(ps.last())) {
            prior
        } else {
            prior.push(qkey_of(ps.last()))
        }
    }
}

/// The position of the first point carrying a merge key.
pub open spec fn key_first_pos(ps: Seq<SoupPoint>, k: (i64, i64, i64)) -> Point3
    decreases ps.len(),
{
    if ps.len() == 0 {
        Point3 { x: 0, y: 0, z: 0 }
    } else if qkey_of(ps.first()) == k {
        ps.first().position
    } else {
        key_first_pos(ps.drop_first(), k)
    }
}

/// A soup has a merge key exactly when its key set holds it.
pub proof fn lemma_has_key_set(ps: Seq<SoupPoint>, k: (i64, i64, i64))
    ensures
        qkeys_of(ps).to_set().contains(k) <==> seq_has_key(ps, k),
{
    if qkeys_of(ps).to_set().contains(k) {
        let i = choose|i: int| 0 <= i < qkeys_of(ps).len() && qkeys_of(ps)[i] == k;
        assert(qkey_of(ps[i]) == k);
    }
    if seq_has_key(ps, k) {
        let i = choose|i: int| 0 <= i < ps.len() && qkey_of(#[trigger] ps[i]) == k;
        assert(qkeys_of(ps)[i] == k);
        assert(qkeys_of(ps).contains(k));
    }
}

/// The first-seen key list holds exactly the keys the soup carries.
pub proof fn lemma_distinct_has(ps: Seq<SoupPoint>, k: (i64, i64, i64))
    ensures
        first_seen_qkeys(ps).contains(k) <==> seq_has_key(ps, k),
    decreases ps.len(),
{
    if ps.len() == 0 {
    } else {
        let d = ps.drop_last();
        let kl = qkey_of(ps.last());
        lemma_distinct_has(d, k);
        if first_seen_qkeys(ps).contains(k) {
            let prior = first_seen_qkeys(d);
            if prior.contains(k) {
                let i = choose|i: int| 0 <= i < d.len() && qkey_of(#[trigger] d[i]) == k;
                assert(qkey_of(ps[i]) == k);
            } else {
                assert(k == kl);
                assert(qkey_of(ps[ps.len() - 1]) == k);
            }
            assert(seq_has_key(ps, k));
        }
        if seq_has_key(ps, k) {
            let i = choose|i: int| 0 <= i < ps.len() && qkey_of(#[trigger] ps[i]) == k;
            if i < ps.len() - 1 {
                assert(qkey_of(d[i]) == k);
                assert(seq_has_key(d, k));
                assert(first_seen_qkeys(d).contains(k));
                let j = choose|j: int|
                    0 <= j < first_seen_qkeys(d).len() && first_seen_qkeys(d)[j] == k;
                assert(first_seen_qkeys(ps)[j] == k);
            } else {
                assert(k == kl);
                if first_seen_qkeys(d).contains(kl) {
                    let j = choose|j: int|
                        0 <= j < first_seen_qkeys(d).len() && first_seen_qkeys(d)[j] == k;
                    assert(first_seen_qkeys(ps)[j] == k);
                } else {
                    assert(first_seen_qkeys(ps).last() == k);
                }
            }
            assert(first_seen_qkeys(ps).contains(k));
        }
    }
}

/// Appending one point extends the first-seen key list exactly when
/// the point's key is new.
pub proof fn lemma_distinct_push(s: Seq<SoupPoint>, p: SoupPoint)
    ensures
        first_seen_qkeys(s.push(p)) == if seq_has_key(s, qkey_of(p)) {
            first_seen_qkeys(s)
        } else {
            first_seen_qkeys(s).push(qkey_of(p))
        },
{
    assert(s.push(p).drop_last() =~= s);
    assert(s.push(p).last() == p);
    lemma_distinct_has(s, qkey_of(p));
}

/// Appending one point keeps the first position of present keys and
/// sets the first position of a new key to the new point's.
pub proof fn lemma_first_pos_push(s: Seq<SoupPoint>, p: SoupPoint, k: (i64, i64, i64))
    ensures
        seq_has_key(s, k) ==> key_first_pos(s.push(p), k) == key_first_pos(s, k),
        !seq_has_key(s, k) && qkey_of(p) == k ==> key_first_pos(s.push(p), k) == p.position,
    decreases s.len(),
{
    if s.len() == 0 {
        assert(s.push(p).first() == p);
        if qkey_of(p) == k {
            assert(key_first_pos(s.push(p), k) == p.position);
        }
    } else {
        let f = s.first();
        assert(s.push(p).first() == f);
        if qkey_of(f) == k {
            assert(seq_has_key(s, k)) by {
                assert(qkey_of(s[0]) == k);
            }
            assert(key_first_pos(s.push(p), k) == f.position);
            assert(key_first_pos(s, k) == f.position);
        } else {
            let d = s.drop_first();
            assert(s.push(p).drop_first() =~= d.push(p));
            lemma_first_pos_push(d, p, k);
            assert(key_first_pos(s.push(p), k) == key_first_pos(d.push(p), k));
            assert(key_first_pos(s, k) == key_first_pos(d, k));
            if seq_has_key(s, k) {
                let i = choose|i: int| 0 <= i < s.len() && qkey_of(#[trigger] s[i]) == k;
                assert(i != 0);
                assert(qkey_of(d[i - 1]) == k);
                assert(seq_has_key(d, k));
            } else {
                assert forall|i: int| 0 <= i < d.len() implies qkey_of(#[trigger] d[i]) != k by {
                    assert(d[i] == s[i + 1]);
                }
                assert(!seq_has_key(d, k));
            }
        }
    }
}


/// The slot of a merge key in the first-seen key order: the index
/// of the vertex that carries it.
pub open spec fn key_slot(s: Seq<SoupPoint>, k: (i64, i64, i64)) -> int {
    first_seen_qkeys(s).index_of(k)
}

/// A polygon's points mapped to their vertex keys through the
/// first-seen merge order of a soup.
pub open spec fn mapped_cycle(s: Seq<SoupPoint>, poly: Seq<SoupPoint>) -> Seq<usize> {
    poly.map_values(|p: SoupPoint| nth_auto_key(key_slot(s, qkey_of(p))))
}


/// The `t`-th triangle face a merged polygon yields: the polygon
/// itself when it is a triangle; otherwise the `t`-th ear-clipped
/// triangle of its planar projection, or the `t`-th fan triangle
/// from the first point when no ear can be found — in each case
/// over the soup's merged vertex keys.
pub open spec fn merge_face_cycle(s: Seq<SoupPoint>, poly: Seq<SoupPoint>, t: int) -> Seq<usize> {
    let mc = mapped_cycle(s, poly);
    if poly.len() == 3 {
        mc
    } else if earclip_ok(spec_project(poly)) {
        let tr = spec_earclip(spec_project(poly))[t];
        seq![mc[tr.0 as int], mc[tr.1 as int], mc[tr.2 as int]]
    } else {
        seq![mc[0], mc[t + 1], mc[t + 2]]
    }
}

/// Whether a mesh holds, at the `t`-th face slot starting at
/// `slot`, exactly the `t`-th merged face of a polygon.
pub open spec fn holds_merge_face(
    m: Mesh,
    s: Seq<SoupPoint>,
    poly: Seq<SoupPoint>,
    slot: int,
    t: int,
) -> bool {
    &&& m.fmap().dom().contains(nth_auto_key(slot + t))
    &&& m.fmap()[nth_auto_key(slot + t)]@ == merge_face_cycle(s, poly, t)
}

/// The key at a slot determines the slot, once keys never repeat.
pub proof fn lemma_key_slot(s: Seq<SoupPoint>, k: (i64, i64, i64), idx: int)
    requires
        first_seen_qkeys(s).no_duplicates(),
        0 <= idx < first_seen_qkeys(s).len(),
        first_seen_qkeys(s)[idx] == k,
    ensures
        key_slot(s, k) == idx,
{
    let i0 = key_slot(s, k);
    assert(exists|i: int| 0 <= i < first_seen_qkeys(s).len() && first_seen_qkeys(s)[i] == k);
    assert(0 <= i0 < first_seen_qkeys(s).len() && first_seen_qkeys(s)[i0] == k);
    if i0 != idx {
        assert(false);
    }
}

/// The merge keys of the merge-table entries, in order.
pub open spec fn qv_keys(s: Seq<(i64, i64, i64, usize)>) -> Seq<(i64, i64, i64)> {
    s.map_values(|e: (i64, i64, i64, usize)| (e.0, e.1, e.2))
}

/// The position of the entry for a merge key in the merge table, if
/// present, with its mapped vertex key.
fn find_qv(qv: &Vec<(i64, i64, i64, usize)>, x: i64, y: i64, z: i64) -> (r: Option<usize>)
    ensures
        match r {
            Some(v) => exists|idx: int|
                0 <= idx < qv@.len() && (#[trigger] qv@[idx]) == (x, y, z, v),
            None => forall|idx: int|
                0 <= idx < qv@.len() ==> !((#[trigger] qv@[idx]).0 == x && qv@[idx].1 == y
                    && qv@[idx].2 == z),
        },
{
    let n = qv.len();
    let mut i: usize = 0;
    while i < n
        invariant
            0 <= i <= n,
            n == qv@.len(),
            forall|idx: int|
                0 <= idx < i ==> !((#[trigger] qv@[idx]).0 == x && qv@[idx].1 == y && qv@[idx].2
                    == z),
        decreases n - i,
    {
        if qv[i].0 == x && qv[i].1 == y && qv[i].2 == z {
            return Some(qv[i].3);
        }
        i += 1;
    }
    None
}

/// Inserts the triangle over positions `a, b, c` of a mapped
/// vertex-key list, when its three vertex keys are distinct; with a
/// repeated key nothing changes.
pub(crate) fn add_tri_face(mesh: &mut Mesh, fv: &Vec<usize>, a: usize, b: usize, c: usize) -> (added: bool)
    requires
        old(mesh).wf(),
        (a as int) < fv@.len(),
        (b as int) < fv@.len(),
        (c as int) < fv@.len(),
        a != b && b != c && a != c,
        forall|t: int| 0 <= t < fv@.len() ==> old(mesh).vmap().dom().contains(#[trigger] fv@[t]),
        old(mesh).max_face + 2 <= usize::MAX,
    ensures
        final(mesh).wf(),
        final(mesh).vertex == old(mesh).vertex,
        final(mesh).max_vertex == old(mesh).max_vertex,
        added <==> (fv@[a as int] != fv@[b as int] && fv@[b as int] != fv@[c as int] && fv@[
            a as int
        ] != fv@[c as int]),
        !added ==> *final(mesh) == *old(mesh),
        added ==> final(mesh).fmap().dom().len() == old(mesh).fmap().dom().len() + 1,
        added ==> final(mesh).max_face == old(mesh).max_face + 2,
        added ==> !old(mesh).fmap().dom().contains(((old(mesh).max_face + 1) as usize)),
        added ==> final(mesh).fmap().dom() == old(mesh).fmap().dom().insert(
            ((old(mesh).max_face + 1) as usize),
        ),
        added ==> final(mesh).fmap()[((old(mesh).max_face + 1) as usize)]@ == seq![
            fv@[a as int],
            fv@[b as int],
            fv@[c as int],
        ],
        added ==> final(mesh).face.keys() == old(mesh).face.keys().push(
            ((old(mesh).max_face + 1) as usize),
        ),
        old(mesh).hmap().dom() == face_halfedges(*old(mesh)) ==> final(mesh).hmap().dom()
            == face_halfedges(*final(mesh)),
        forall|f: usize|
            #[trigger] old(mesh).fmap().dom().contains(f) ==> final(mesh).fmap().dom().contains(f)
                && final(mesh).fmap()[f] == old(mesh).fmap()[f],
        forall|f: usize|
            #[trigger] final(mesh).fmap().dom().contains(f) ==> old(mesh).fmap().dom().contains(f)
                || final(mesh).fmap()[f]@.len() == 3,
{
    let mut vs: Vec<usize> = Vec::new();
    vs.push(fv[a]);
    vs.push(fv[b]);
    vs.push(fv[c]);
    proof {
        assert(vs@.len() == 3);
        assert(vs@[0] == fv@[a as int] && vs@[1] == fv@[b as int] && vs@[2] == fv@[c as int]);
        crate::keymap::lemma_assoc_len(mesh.face.kseq());
        if fv@[a as int] != fv@[b as int] && fv@[b as int] != fv@[c as int] && fv@[a as int] != fv@[
            c as int
        ] {
            assert forall|x: int, y: int|
                0 <= x < 3 && 0 <= y < 3 && x != y implies vs@[x] != vs@[y] by {}
            assert(vs@.no_duplicates());
            assert forall|t: int| 0 <= t < vs@.len() implies mesh.vmap().dom().contains(
                #[trigger] vs@[t],
            ) by {
                assert(t == 0 || t == 1 || t == 2);
            }
            assert(crate::mesh::face_input_valid(mesh.vmap(), vs@));
        } else {
            assert(!vs@.no_duplicates());
            assert(!crate::mesh::face_input_valid(mesh.vmap(), vs@));
        }
    }
    let ghost fm_old = mesh.fmap();
    let ghost vs_seq = vs@;
    let ghost m_before = *mesh;
    let res = mesh.add_face(vs, None);
    match res {
        Some(fk) => {
            proof {
                assert(!fm_old.dom().contains(fk));
                vstd::set::axiom_set_insert_len(fm_old.dom(), fk);
                assert forall|f: usize| #[trigger] mesh.fmap().dom().contains(f) implies fm_old.dom().contains(
                    f,
                ) || mesh.fmap()[f]@.len() == 3 by {
                    if f == fk {
                        assert(mesh.fmap()[fk]@.len() == 3);
                    }
                }
                assert(mesh.fmap()[fk]@ =~= seq![fv@[a as int], fv@[b as int], fv@[c as int]]);
                if m_before.hmap().dom() == face_halfedges(m_before) {
                    crate::mesh::lemma_face_halfedges_insert(m_before, *mesh, fk, vs_seq);
                }
            }
            true
        },
        None => false,
    }
}


/// Winding invariance of the ear-clipping mesh builder: reversing
/// the input polygon's point order changes neither whether
/// triangulation succeeds nor, by the builder's contract, the vertex
/// count (`n`) and face count (`n - 2`) of the resulting mesh.
/// Degenerate polygons whose doubled signed area is zero are not
/// covered: with them, one order can triangulate while the other
/// cannot.
pub proof fn lemma_from_polygon_earclip_winding(pts: Seq<SoupPoint>)
    requires
        pts.len() >= 3,
        crate::earclip::signed_area2(drop_z(pts)) != 0,
    ensures
        earclip_ok(drop_z(pts.reverse())) == earclip_ok(drop_z(pts)),
{
    assert(drop_z(pts.reverse()) =~= drop_z(pts).reverse());
    crate::earclip::lemma_earclip_winding(drop_z(pts));
}

/// The drop-third-axis projection used for a standalone polygon.
pub open spec fn drop_z(ps: Seq<SoupPoint>) -> Seq<Point2> {
    ps.map_values(|p: SoupPoint| Point2 { x: p.qx, y: p.qy })
}

impl Mesh {
    /// Create a mesh from one planar polygon using ear-clipping
    /// triangulation of its first two quantized coordinates.
    ///
    /// On success every input point becomes a vertex, in order, and
    /// the polygon's `n - 2` triangles become faces.  When the input
    /// has fewer than three points or no ear can be found, the
    /// result is an empty mesh.
    #[verifier::loop_isolation(false)]
    pub fn from_polygon_earclip(polygon_points: Vec<SoupPoint>) -> (m: Mesh)
        requires
            soup_poly_bounded(polygon_points@),
            polygon_points@.len() <= QMAX,
            2 * polygon_points@.len() + 2 <= usize::MAX,
        ensures
            m.wf(),
            polygon_points@.len() >= 3 && earclip_ok(drop_z(polygon_points@)) ==> {
                &&& m.vmap().dom().len() == polygon_points@.len()
                &&& m.fmap().dom().len() == polygon_points@.len() - 2
                &&& (forall|i: int|
                    0 <= i < polygon_points@.len() ==> m.vmap().dom().contains(
                        #[trigger] nth_auto_key(i),
                    ) && m.vmap()[nth_auto_key(i)].position == polygon_points@[i].position)
                &&& (forall|f: usize|
                    #[trigger] m.fmap().dom().contains(f) ==> m.fmap()[f]@.len() == 3)
                &&& m.face.keys() == Seq::new(
                    (polygon_points@.len() - 2) as nat,
                    |g: int| nth_auto_key(g),
                )
                &&& (forall|g: int|
                    0 <= g < polygon_points@.len() - 2 ==> m.fmap().dom().contains(
                        #[trigger] nth_auto_key(g),
                    ) && m.fmap()[nth_auto_key(g)]@ == seq![
                    nth_auto_key(spec_earclip(drop_z(polygon_points@))[g].0 as int),
                    nth_auto_key(spec_earclip(drop_z(polygon_points@))[g].1 as int),
                    nth_auto_key(spec_earclip(drop_z(polygon_points@))[g].2 as int),
                ])
            },
            !(polygon_points@.len() >= 3 && earclip_ok(drop_z(polygon_points@))) ==> {
                &&& m.vmap().dom().len() == 0
                &&& m.fmap().dom().len() == 0
            },
            m.hmap().dom() == face_halfedges(m),
    {
        let n = polygon_points.len();
        if n < 3 {
            let m = Mesh::new();
            proof {
                crate::keymap::lemma_assoc_len(m.vertex.kseq());
                crate::keymap::lemma_assoc_len(m.face.kseq());
                crate::mesh::lemma_face_halfedges_empty(m);
            }
            return m;
        }
        let mut points_2d: Vec<Point2> = Vec::new();
        let mut i: usize = 0;
        while i < n
            invariant
                0 <= i <= n,
                points_2d@.len() == i,
                forall|t: int|
                    0 <= t < i ==> points_2d@[t] == (Point2 {
                        x: polygon_points@[t].qx,
                        y: polygon_points@[t].qy,
                    }),
            decreases n - i,
        {
            points_2d.push(Point2 { x: polygon_points[i].qx, y: polygon_points[i].qy });
            i += 1;
        }
        proof {
            assert(points_2d@ =~= drop_z(polygon_points@));
        }
        let triangles = match earclip_triangulate(&points_2d) {
            Ok(tris) => tris,
            Err(_) => {
                let m = Mesh::new();
                proof {
                    crate::keymap::lemma_assoc_len(m.vertex.kseq());
                    crate::keymap::lemma_assoc_len(m.face.kseq());
                    crate::mesh::lemma_face_halfedges_empty(m);
                }
                return m;
            },
        };
        let mut mesh = Mesh::new();
        proof {
            crate::keymap::lemma_assoc_len(mesh.face.kseq());
            assert(mesh.face.keys() =~= Seq::<usize>::empty());
            crate::mesh::lemma_face_halfedges_empty(mesh);
        }
        let mut vertex_keys: Vec<usize> = Vec::new();
        let mut i: usize = 0;
        while i < n
            invariant
                0 <= i <= n,
                mesh.wf(),
                mesh.max_vertex == 2 * i,
                mesh.max_face == 0,
                mesh.fmap().dom().len() == 0,
                mesh.face.keys() == Seq::<usize>::empty(),
                mesh.hmap().dom() == face_halfedges(mesh),
                mesh.vmap().dom().len() == i,
                vertex_keys@.len() == i,
                forall|t: int| 0 <= t < i ==> #[trigger] vertex_keys@[t] == (2 * t + 1) as usize,
                forall|t: int|
                    0 <= t < i ==> mesh.vmap().dom().contains(#[trigger] vertex_keys@[t]),
                forall|t: int|
                    0 <= t < i ==> mesh.vmap()[#[trigger] vertex_keys@[t]].position
                        == polygon_points@[t].position,
            decreases n - i,
        {
            proof {
                crate::keymap::lemma_assoc_len(mesh.vertex.kseq());
            }
            let ghost vm_old = mesh.vmap();
            let key = mesh.add_vertex(polygon_points[i].position, None);
            proof {
                assert(key == 2 * i + 1);
                vstd::set::axiom_set_insert_len(vm_old.dom(), key);
            }
            let ghost vk_old = vertex_keys@;
            vertex_keys.push(key);
            let ghost i_prev = i as int;
            i += 1;
            proof {
                assert forall|t: int|
                    0 <= t < i implies mesh.vmap().dom().contains(#[trigger] vertex_keys@[t])
                    && mesh.vmap()[vertex_keys@[t]].position == polygon_points@[t].position by {
                    if t < i_prev {
                        assert(vertex_keys@[t] == vk_old[t]);
                        assert(vm_old.dom().contains(vk_old[t]));
                        assert(vm_old[vk_old[t]].position == polygon_points@[t].position);
                        assert(vk_old[t] == (2 * t + 1) as usize);
                        assert((2 * t + 1) as usize != key);
                        assert(mesh.vmap()[vertex_keys@[t]] == vm_old[vk_old[t]]);
                    } else {
                        assert(vertex_keys@[t] == key);
                    }
                }
            }
        }
        let tcount = triangles.len();
        let ghost vm_frozen = mesh.vmap();
        let ghost dz = drop_z(polygon_points@);
        proof {
            assert(triangles@.map_values(|a: [usize; 3]| crate::earclip::tri_of(a))
                == spec_earclip(dz));
        }
        let mut t: usize = 0;
        while t < tcount
            invariant
                0 <= t <= tcount,
                tcount == triangles@.len(),
                tcount == n - 2,
                dz == drop_z(polygon_points@),
                triangles@.map_values(|a: [usize; 3]| crate::earclip::tri_of(a)) == spec_earclip(
                    dz,
                ),
                mesh.wf(),
                mesh.vmap() == vm_frozen,
                mesh.vmap().dom().len() == n,
                mesh.max_face == 2 * t,
                mesh.fmap().dom().len() == t,
                mesh.face.keys() == Seq::new(t as nat, |g: int| nth_auto_key(g)),
                mesh.hmap().dom() == face_halfedges(mesh),
                forall|g: int|
                    0 <= g < t ==> mesh.fmap().dom().contains(#[trigger] nth_auto_key(g))
                        && mesh.fmap()[nth_auto_key(g)]@ == seq![
                        nth_auto_key(spec_earclip(dz)[g].0 as int),
                        nth_auto_key(spec_earclip(dz)[g].1 as int),
                        nth_auto_key(spec_earclip(dz)[g].2 as int),
                    ],
                vertex_keys@.len() == n,
                forall|q: int| 0 <= q < n ==> #[trigger] vertex_keys@[q] == (2 * q + 1) as usize,
                forall|q: int|
                    0 <= q < n ==> mesh.vmap().dom().contains(#[trigger] vertex_keys@[q]),
                forall|q: int|
                    0 <= q < n ==> mesh.vmap()[#[trigger] vertex_keys@[q]].position
                        == polygon_points@[q].position,
                forall|tr: int|
                    0 <= tr < triangles@.len() ==> tri_valid(
                        (#[trigger] triangles@[tr])@,
                        n as int,
                    ),
                forall|f: usize|
                    #[trigger] mesh.fmap().dom().contains(f) ==> mesh.fmap()[f]@.len() == 3,
            decreases tcount - t,
        {
            let tri = triangles[t];
            proof {
                assert(tri_valid(tri@, n as int));
                assert(tri@[0] == tri[0] && tri@[1] == tri[1] && tri@[2] == tri[2]);
            }
            let mut face_vertices: Vec<usize> = Vec::new();
            face_vertices.push(vertex_keys[tri[0]]);
            face_vertices.push(vertex_keys[tri[1]]);
            face_vertices.push(vertex_keys[tri[2]]);
            proof {
                assert(face_vertices@.len() == 3);
                assert(face_vertices@[0] == vertex_keys@[tri@[0] as int]);
                assert(face_vertices@[1] == vertex_keys@[tri@[1] as int]);
                assert(face_vertices@[2] == vertex_keys@[tri@[2] as int]);
                assert(face_vertices@[0] == 2 * (tri@[0] as int) + 1);
                assert(face_vertices@[1] == 2 * (tri@[1] as int) + 1);
                assert(face_vertices@[2] == 2 * (tri@[2] as int) + 1);
                assert(face_vertices@.no_duplicates());
                assert(mesh.vmap().dom().contains(face_vertices@[0]));
                assert(mesh.vmap().dom().contains(face_vertices@[1]));
                assert(mesh.vmap().dom().contains(face_vertices@[2]));
                assert forall|j: int| 0 <= j < face_vertices@.len() implies mesh.vmap().dom().contains(
                    #[trigger] face_vertices@[j],
                ) by {
                    assert(j == 0 || j == 1 || j == 2);
                }
                assert(crate::mesh::face_input_valid(mesh.vmap(), face_vertices@));
                crate::keymap::lemma_assoc_len(mesh.face.kseq());
            }
            let ghost fm_old = mesh.fmap();
            let ghost fv_seq = face_vertices@;
            let ghost m_before = *&mesh;
            let res = mesh.add_face(face_vertices, None);
            proof {
                assert(res is Some);
                let fk = res->Some_0;
                assert(!fm_old.dom().contains(fk));
                vstd::set::axiom_set_insert_len(fm_old.dom(), fk);
                assert forall|f: usize| #[trigger]
                    mesh.fmap().dom().contains(f) implies mesh.fmap()[f]@.len() == 3 by {
                    if f != fk {
                        assert(fm_old.dom().contains(f));
                    }
                }
                assert(fk == nth_auto_key(t as int));
                assert(crate::earclip::tri_of(triangles@[t as int]) == spec_earclip(dz)[t as int]);
                assert(tri@[0] == spec_earclip(dz)[t as int].0);
                assert(tri@[1] == spec_earclip(dz)[t as int].1);
                assert(tri@[2] == spec_earclip(dz)[t as int].2);
                assert(mesh.fmap()[fk]@ =~= seq![
                    nth_auto_key(spec_earclip(dz)[t as int].0 as int),
                    nth_auto_key(spec_earclip(dz)[t as int].1 as int),
                    nth_auto_key(spec_earclip(dz)[t as int].2 as int),
                ]);
                assert(mesh.face.keys() =~= Seq::new((t + 1) as nat, |g: int| nth_auto_key(g)));
                crate::mesh::lemma_face_halfedges_insert(m_before, mesh, fk, fv_seq);
                assert forall|g: int|
                    0 <= g < t + 1 implies mesh.fmap().dom().contains(#[trigger] nth_auto_key(g))
                    && mesh.fmap()[nth_auto_key(g)]@ == seq![
                    nth_auto_key(spec_earclip(dz)[g].0 as int),
                    nth_auto_key(spec_earclip(dz)[g].1 as int),
                    nth_auto_key(spec_earclip(dz)[g].2 as int),
                ] by {
                    if g < t {
                        assert(fm_old.dom().contains(nth_auto_key(g)));
                        assert(nth_auto_key(g) != fk);
                        assert(mesh.fmap()[nth_auto_key(g)] == fm_old[nth_auto_key(g)]);
                    }
                }
            }
            t += 1;
        }
        proof {
            assert forall|q: int| 0 <= q < polygon_points@.len() implies mesh.vmap().dom().contains(
                #[trigger] nth_auto_key(q),
            ) && mesh.vmap()[nth_auto_key(q)].position == polygon_points@[q].position by {
                assert(vertex_keys@[q] == (2 * q + 1) as usize);
                assert(vertex_keys@[q] == nth_auto_key(q));
                assert(mesh.vmap().dom().contains(vertex_keys@[q]));
                assert(mesh.vmap()[vertex_keys@[q]].position == polygon_points@[q].position);
            }
        }
        mesh
    }

    /// Create a mesh from a list of polygons, merging vertices by
    /// their quantized coordinates.
    ///
    /// Polygons with fewer than three points are skipped entirely.
    /// Each kept polygon contributes its unseen merge keys as new
    /// vertices, in order, and becomes one face — or none, when two
    /// of its points share a merge key.  The mesh ends with one
    /// vertex per distinct merge key of the kept polygons and one
    /// face per polygon whose merge keys are pairwise distinct.
    #[verifier::loop_isolation(false)]
    #[verifier::rlimit(100)]
    pub fn from_polygons(polygons: Vec<Vec<SoupPoint>>) -> (m: Mesh)
        requires
            2 * total_soup_points(polygons@) + 2 <= usize::MAX,
            2 * polygons@.len() + 2 <= usize::MAX,
        ensures
            m.wf(),
            m.vmap().dom().len() == qkeys_of(valid_soup_points(polygons@)).to_set().len(),
            m.fmap().dom().len() == good_polys(polygons@),
            m.vertex.keys() == Seq::new(
                first_seen_qkeys(valid_soup_points(polygons@)).len(),
                |i: int| nth_auto_key(i),
            ),
            forall|i: int|
                0 <= i < first_seen_qkeys(valid_soup_points(polygons@)).len()
                    ==> m.vmap().dom().contains(#[trigger] nth_auto_key(i)) && m.vmap()[
                    nth_auto_key(i)
                ].position == key_first_pos(
                    valid_soup_points(polygons@),
                    first_seen_qkeys(valid_soup_points(polygons@))[i],
                ),
            m.face.keys() == Seq::new(
                good_polys(polygons@) as nat,
                |g: int| nth_auto_key(g),
            ),
            forall|p: int|
                #![trigger polygons@[p]]
                0 <= p < polygons@.len() && polygons@[p]@.len() >= 3 && qkeys_distinct(
                    polygons@[p]@,
                ) ==> m.fmap().dom().contains(nth_auto_key(good_polys(polygons@.take(p))))
                    && m.fmap()[nth_auto_key(good_polys(polygons@.take(p)))]@ == mapped_cycle(
                    valid_soup_points(polygons@),
                    polygons@[p]@,
                ),
            m.hmap().dom() == face_halfedges(m),
    {
        let mut mesh = Mesh::new();
        let mut qv: Vec<(i64, i64, i64, usize)> = Vec::new();
        let np = polygons.len();
        let mut pi: usize = 0;
        proof {
            assert(polygons@.take(0int) =~= Seq::<Vec<SoupPoint>>::empty());
            assert(qv_keys(qv@).to_set() =~= qkeys_of(
                valid_soup_points(polygons@.take(0int)),
            ).to_set());
            assert(qv_keys(qv@).no_duplicates());
            assert(qv_keys(qv@) =~= first_seen_qkeys(valid_soup_points(polygons@.take(0int))));
            crate::keymap::lemma_assoc_len(mesh.vertex.kseq());
            assert(mesh.vertex.kseq().len() == 0);
            assert(mesh.vertex.keys() =~= Seq::new(0nat, |i: int| nth_auto_key(i)));
            crate::keymap::lemma_assoc_len(mesh.face.kseq());
            assert(mesh.face.kseq().len() == 0);
            assert(mesh.face.keys() =~= Seq::new(0nat, |g: int| nth_auto_key(g)));
            crate::mesh::lemma_face_halfedges_empty(mesh);
        }
        while pi < np
            invariant
                0 <= pi <= np,
                np == polygons@.len(),
                mesh.wf(),
                qv@.len() <= total_soup_points(polygons@.take(pi as int)),
                mesh.vmap().dom().len() == qv@.len(),
                mesh.max_vertex == 2 * qv@.len(),
                mesh.fmap().dom().len() == good_polys(polygons@.take(pi as int)),
                mesh.max_face == 2 * good_polys(polygons@.take(pi as int)),
                mesh.face.keys() == Seq::new(
                    good_polys(polygons@.take(pi as int)) as nat,
                    |g: int| nth_auto_key(g),
                ),
                mesh.hmap().dom() == face_halfedges(mesh),
                forall|p: int|
                    #![trigger polygons@[p]]
                    0 <= p < pi && polygons@[p]@.len() >= 3 && qkeys_distinct(polygons@[p]@) ==> {
                        let fkp = nth_auto_key(good_polys(polygons@.take(p)));
                        &&& mesh.fmap().dom().contains(fkp)
                        &&& mesh.fmap()[fkp]@.len() == polygons@[p]@.len()
                        &&& forall|t: int|
                            0 <= t < polygons@[p]@.len() ==> table_maps(
                                qv@,
                                polygons@[p]@[t],
                                #[trigger] mesh.fmap()[fkp]@[t],
                            )
                    },
                qv_keys(qv@).no_duplicates(),
                qv_keys(qv@).to_set() == qkeys_of(
                    valid_soup_points(polygons@.take(pi as int)),
                ).to_set(),
                qv_keys(qv@) == first_seen_qkeys(valid_soup_points(polygons@.take(pi as int))),
                mesh.vertex.keys() == Seq::new(qv@.len() as nat, |i: int| nth_auto_key(i)),
                forall|idx: int| 0 <= idx < qv@.len() ==> (#[trigger] qv@[idx]).3 == nth_auto_key(idx),
                forall|idx: int|
                    0 <= idx < qv@.len() ==> mesh.vmap().dom().contains((#[trigger] qv@[idx]).3),
                forall|idx: int|
                    0 <= idx < qv@.len() ==> mesh.vmap()[(#[trigger] qv@[idx]).3].position
                        == key_first_pos(
                        valid_soup_points(polygons@.take(pi as int)),
                        qv_keys(qv@)[idx],
                    ),
            decreases np - pi,
        {
            let poly_len = polygons[pi].len();
            let ghost qv_start = qv@;
            let ghost face_frozen = mesh.face;
            let ghost he_frozen = mesh.halfedge;
            let ghost mesh_start = *&mesh;
            if poly_len >= 3 {
                let mut face_vertices: Vec<usize> = Vec::new();
                let mut j: usize = 0;
                let ghost set_before = qv_keys(qv@).to_set();
                proof {
                    assert(valid_soup_points(polygons@.take(pi as int)) + polygons@[pi as int]@.take(
                        0int,
                    ) =~= valid_soup_points(polygons@.take(pi as int)));
                }
                while j < poly_len
                    invariant
                        0 <= j <= poly_len,
                        0 <= pi < np,
                        poly_len == polygons@[pi as int]@.len(),
                        mesh.wf(),
                        qv@.len() <= total_soup_points(polygons@.take(pi as int)) + j,
                        mesh.vmap().dom().len() == qv@.len(),
                        mesh.max_vertex == 2 * qv@.len(),
                        mesh.fmap().dom().len() == good_polys(polygons@.take(pi as int)),
                        mesh.max_face == 2 * good_polys(polygons@.take(pi as int)),
                        mesh.face == face_frozen,
                        mesh.halfedge == he_frozen,
                        face_frozen == mesh_start.face,
                        he_frozen == mesh_start.halfedge,
                        qv_start.is_prefix_of(qv@),
                        qv_keys(qv@).no_duplicates(),
                        qv_keys(qv@).to_set() == set_before.union(
                            qkeys_of(polygons@[pi as int]@.take(j as int)).to_set(),
                        ),
                        set_before == qkeys_of(valid_soup_points(polygons@.take(pi as int))).to_set(),
                        qv_keys(qv@) == first_seen_qkeys(
                            valid_soup_points(polygons@.take(pi as int)) + polygons@[pi as int]@.take(
                                j as int,
                            ),
                        ),
                        mesh.vertex.keys() == Seq::new(qv@.len() as nat, |i: int| nth_auto_key(i)),
                        forall|idx: int|
                            0 <= idx < qv@.len() ==> (#[trigger] qv@[idx]).3 == nth_auto_key(idx),
                        forall|idx: int|
                            0 <= idx < qv@.len() ==> mesh.vmap().dom().contains(
                                (#[trigger] qv@[idx]).3,
                            ),
                        forall|idx: int|
                            0 <= idx < qv@.len() ==> mesh.vmap()[(#[trigger] qv@[idx]).3].position
                                == key_first_pos(
                                valid_soup_points(polygons@.take(pi as int)) + polygons@[pi as int]@.take(
                                    j as int,
                                ),
                                qv_keys(qv@)[idx],
                            ),
                        face_vertices@.len() == j,
                        forall|t: int|
                            #![trigger face_vertices@[t]]
                            0 <= t < j ==> exists|idx: int|
                                0 <= idx < qv@.len() && (#[trigger] qv@[idx]) == (
                                polygons@[pi as int]@[t].qx,
                                polygons@[pi as int]@[t].qy,
                                polygons@[pi as int]@[t].qz,
                                face_vertices@[t],
                                ),
                    decreases poly_len - j,
                {
                    let pt = polygons[pi][j];
                    let ghost qv_before = qv@;
                    let ghost fv_before = face_vertices@;
                    let ghost k = qkey_of(polygons@[pi as int]@[j as int]);
                    let ghost proc_old = valid_soup_points(polygons@.take(pi as int))
                        + polygons@[pi as int]@.take(j as int);
                    let ghost proc_new = valid_soup_points(polygons@.take(pi as int))
                        + polygons@[pi as int]@.take(j as int + 1);
                    proof {
                        assert(polygons@[pi as int]@.take(j as int + 1).drop_last()
                            =~= polygons@[pi as int]@.take(j as int));
                        assert(proc_new =~= proc_old.push(polygons@[pi as int]@[j as int]));
                        assert(qkeys_of(proc_old) =~= qkeys_of(
                            valid_soup_points(polygons@.take(pi as int)),
                        ) + qkeys_of(polygons@[pi as int]@.take(j as int)));
                        vstd::seq_lib::seq_to_set_distributes_over_add(
                            qkeys_of(valid_soup_points(polygons@.take(pi as int))),
                            qkeys_of(polygons@[pi as int]@.take(j as int)),
                        );
                        assert(qkeys_of(proc_old).to_set() =~= qv_keys(qv_before).to_set());
                        lemma_has_key_set(proc_old, k);
                        lemma_distinct_push(proc_old, polygons@[pi as int]@[j as int]);
                    }
                    let vkey: usize = match find_qv(&qv, pt.qx, pt.qy, pt.qz) {
                        Some(v) => {
                            proof {
                                let idx = choose|idx: int|
                                    0 <= idx < qv@.len() && (#[trigger] qv@[idx]) == (
                                    pt.qx,
                                    pt.qy,
                                    pt.qz,
                                    v,
                                    );
                                assert(qv_keys(qv@)[idx] == k);
                                assert(qv_keys(qv@).to_set().contains(k));
                                assert(exists|idx2: int|
                                    0 <= idx2 < qv@.len() && (#[trigger] qv@[idx2]) == (
                                    pt.qx,
                                    pt.qy,
                                    pt.qz,
                                    v,
                                    ));
                                assert(seq_has_key(proc_old, k));
                                assert(first_seen_qkeys(proc_new) == first_seen_qkeys(proc_old));
                                assert forall|idx: int|
                                    0 <= idx < qv@.len() implies mesh.vmap()[
                                    (#[trigger] qv@[idx]).3
                                ].position == key_first_pos(proc_new, qv_keys(qv@)[idx]) by {
                                    assert(mesh.vmap()[qv@[idx].3].position == key_first_pos(
                                        proc_old,
                                        qv_keys(qv@)[idx],
                                    ));
                                    assert(qv_keys(qv@).to_set().contains(qv_keys(qv@)[idx]));
                                    lemma_has_key_set(proc_old, qv_keys(qv@)[idx]);
                                    lemma_first_pos_push(
                                        proc_old,
                                        polygons@[pi as int]@[j as int],
                                        qv_keys(qv@)[idx],
                                    );
                                }
                            }
                            v
                        },
                        None => {
                            proof {
                                lemma_total_take_le(polygons@, pi as int + 1);
                                lemma_soup_take_step(polygons@, pi as int);
                                crate::keymap::lemma_assoc_len(mesh.vertex.kseq());
                            }
                            let ghost qlen = qv@.len() as int;
                            let ghost vm_old = mesh.vmap();
                            let nk = mesh.add_vertex(pt.position, None);
                            proof {
                                assert(nk == nth_auto_key(qlen));
                                vstd::set::axiom_set_insert_len(vm_old.dom(), nk);
                            }
                            qv.push((pt.qx, pt.qy, pt.qz, nk));
                            proof {
                                assert(qv@[qv@.len() - 1] == (pt.qx, pt.qy, pt.qz, nk));
                                assert(exists|idx2: int|
                                    0 <= idx2 < qv@.len() && (#[trigger] qv@[idx2]) == (
                                    pt.qx,
                                    pt.qy,
                                    pt.qz,
                                    nk,
                                    ));
                                assert(qv_keys(qv@) =~= qv_keys(qv_before).push(k));
                                assert forall|j2: int|
                                    0 <= j2 < qv_keys(qv_before).len() implies qv_keys(qv_before)[j2]
                                    != k by {
                                    assert(!(qv_before[j2].0 == pt.qx && qv_before[j2].1 == pt.qy
                                        && qv_before[j2].2 == pt.qz));
                                }
                                assert forall|a: int, b: int|
                                    0 <= a < qv_keys(qv@).len() && 0 <= b < qv_keys(qv@).len() && a
                                        != b implies qv_keys(qv@)[a] != qv_keys(qv@)[b] by {
                                    if a < qv_keys(qv_before).len() && b < qv_keys(
                                        qv_before,
                                    ).len() {
                                        assert(qv_keys(qv_before)[a] != qv_keys(qv_before)[b]);
                                    }
                                }
                                assert(qv_keys(qv@).no_duplicates());
                                qv_keys(qv_before).lemma_push_to_set_commute(k);
                                assert forall|idx: int|
                                    0 <= idx < qv@.len() implies (#[trigger] qv@[idx]).3
                                    == nth_auto_key(idx) by {
                                    if idx < qv_before.len() {
                                        assert(qv_before[idx].3 == nth_auto_key(idx));
                                    }
                                }
                                assert forall|idx: int|
                                    0 <= idx < qv@.len() implies mesh.vmap().dom().contains(
                                    (#[trigger] qv@[idx]).3,
                                ) by {
                                    if idx < qv_before.len() {
                                        assert(vm_old.dom().contains(qv_before[idx].3));
                                    }
                                }
                                assert(qv_start.is_prefix_of(qv@)) by {
                                    assert forall|x: int|
                                        0 <= x < qv_start.len() implies qv@[x] == qv_start[x] by {
                                        assert(qv@[x] == qv_before[x]);
                                    }
                                    assert(qv_start =~= qv@.subrange(0, qv_start.len() as int));
                                }
                                assert(!qv_keys(qv_before).contains(k)) by {
                                    if qv_keys(qv_before).contains(k) {
                                        let j2 = choose|j2: int|
                                            0 <= j2 < qv_keys(qv_before).len() && qv_keys(
                                                qv_before,
                                            )[j2] == k;
                                        assert(qv_before[j2].0 == pt.qx && qv_before[j2].1
                                            == pt.qy && qv_before[j2].2 == pt.qz);
                                    }
                                }
                                assert(!qv_keys(qv_before).to_set().contains(k));
                                assert(!seq_has_key(proc_old, k));
                                assert(qv_keys(qv@) =~= first_seen_qkeys(proc_new));
                                assert(mesh.vertex.keys() =~= Seq::new(
                                    qv@.len() as nat,
                                    |i: int| nth_auto_key(i),
                                ));
                                assert forall|idx: int|
                                    0 <= idx < qv@.len() implies mesh.vmap()[
                                    (#[trigger] qv@[idx]).3
                                ].position == key_first_pos(proc_new, qv_keys(qv@)[idx]) by {
                                    lemma_first_pos_push(
                                        proc_old,
                                        polygons@[pi as int]@[j as int],
                                        qv_keys(qv@)[idx],
                                    );
                                    if idx < qv_before.len() {
                                        assert(qv@[idx] == qv_before[idx]);
                                        assert(qv_keys(qv@)[idx] == qv_keys(qv_before)[idx]);
                                        assert(vm_old[qv_before[idx].3].position == key_first_pos(
                                            proc_old,
                                            qv_keys(qv_before)[idx],
                                        ));
                                        assert(qv_before[idx].3 == nth_auto_key(idx));
                                        assert(nth_auto_key(idx) != nk);
                                        assert(mesh.vmap()[qv@[idx].3] == vm_old[qv_before[idx].3]);
                                        assert(qv_keys(qv_before).to_set().contains(
                                            qv_keys(qv_before)[idx],
                                        ));
                                        lemma_has_key_set(proc_old, qv_keys(qv_before)[idx]);
                                    } else {
                                        assert(qv@[idx] == (pt.qx, pt.qy, pt.qz, nk));
                                        assert(qv_keys(qv@)[idx] == k);
                                        assert(mesh.vmap()[nk].position == pt.position);
                                        assert(polygons@[pi as int]@[j as int].position
                                            == pt.position);
                                    }
                                }
                            }
                            nk
                        },
                    };
                    face_vertices.push(vkey);
                    proof {
                        assert(polygons@[pi as int]@.take(j as int + 1).drop_last() =~= polygons@[pi as int]@.take(
                            j as int,
                        ));
                        assert(qkeys_of(polygons@[pi as int]@.take(j as int + 1)) =~= qkeys_of(
                            polygons@[pi as int]@.take(j as int),
                        ).push(k));
                        qkeys_of(polygons@[pi as int]@.take(j as int)).lemma_push_to_set_commute(k);
                        assert(qv_keys(qv@).to_set() =~= set_before.union(
                            qkeys_of(polygons@[pi as int]@.take(j as int + 1)).to_set(),
                        ));
                        assert forall|t: int|
                            #![trigger face_vertices@[t]]
                            0 <= t < j + 1 implies exists|idx: int|
                                0 <= idx < qv@.len() && (#[trigger] qv@[idx]) == (
                                polygons@[pi as int]@[t].qx,
                                polygons@[pi as int]@[t].qy,
                                polygons@[pi as int]@[t].qz,
                                face_vertices@[t],
                                ) by {
                            if t < j {
                                assert(face_vertices@[t] == fv_before[t]);
                                let idx = choose|idx: int|
                                    0 <= idx < qv_before.len() && (#[trigger] qv_before[idx]) == (
                                    polygons@[pi as int]@[t].qx,
                                    polygons@[pi as int]@[t].qy,
                                    polygons@[pi as int]@[t].qz,
                                    fv_before[t],
                                    );
                                assert(qv@[idx] == qv_before[idx]);
                            } else {
                                assert(face_vertices@[t] == vkey);
                                assert(polygons@[pi as int]@[t] == pt);
                                let idx = choose|idx: int|
                                    0 <= idx < qv@.len() && (#[trigger] qv@[idx]) == (
                                    pt.qx,
                                    pt.qy,
                                    pt.qz,
                                    vkey,
                                    );
                                assert(qv@[idx] == (
                                    polygons@[pi as int]@[t].qx,
                                    polygons@[pi as int]@[t].qy,
                                    polygons@[pi as int]@[t].qz,
                                    face_vertices@[t],
                                ));
                            }
                        }
                    }
                    j += 1;
                }
                proof {
                    assert(polygons@[pi as int]@.take(poly_len as int) =~= polygons@[pi as int]@);
                    // The face store is untouched by the vertex pass, and the
                    // face history carries over to the grown merge table.
                    assert(mesh.fmap() == mesh_start.fmap());
                    assert(mesh.face.keys() == mesh_start.face.keys());
                    assert(mesh.hmap() == mesh_start.hmap());
                    assert forall|p: int|
                        #![trigger polygons@[p]]
                        0 <= p < pi && polygons@[p]@.len() >= 3 && qkeys_distinct(
                            polygons@[p]@,
                        ) implies {
                        let fkp = nth_auto_key(good_polys(polygons@.take(p)));
                        &&& mesh.fmap().dom().contains(fkp)
                        &&& mesh.fmap()[fkp]@.len() == polygons@[p]@.len()
                        &&& forall|t: int|
                            0 <= t < polygons@[p]@.len() ==> table_maps(
                                qv@,
                                polygons@[p]@[t],
                                #[trigger] mesh.fmap()[fkp]@[t],
                            )
                    } by {
                        let fkp = nth_auto_key(good_polys(polygons@.take(p)));
                        assert(mesh_start.fmap().dom().contains(fkp));
                        assert(mesh_start.fmap()[fkp]@.len() == polygons@[p]@.len());
                        assert forall|t: int|
                            0 <= t < polygons@[p]@.len() implies table_maps(
                            qv@,
                            polygons@[p]@[t],
                            #[trigger] mesh.fmap()[fkp]@[t],
                        ) by {
                            assert(mesh.fmap()[fkp]@[t] == mesh_start.fmap()[fkp]@[t]);
                            assert(table_maps(qv_start, polygons@[p]@[t], mesh_start.fmap()[fkp]@[t]));
                            lemma_table_maps_prefix(
                                qv_start,
                                qv@,
                                polygons@[p]@[t],
                                mesh_start.fmap()[fkp]@[t],
                            );
                        }
                    }
                }
                let ghost poly_seq = polygons@[pi as int]@;
                proof {
                    // A face vertex repeats exactly when the merge keys repeat.
                    assert forall|t1: int, t2: int|
                        0 <= t1 < poly_len && 0 <= t2 < poly_len implies ((face_vertices@[t1]
                        == face_vertices@[t2]) <==> (qkey_of(#[trigger] poly_seq[t1]) == qkey_of(
                        #[trigger] poly_seq[t2]))) by {
                        let idx1 = choose|idx: int|
                            0 <= idx < qv@.len() && (#[trigger] qv@[idx]) == (
                            poly_seq[t1].qx,
                            poly_seq[t1].qy,
                            poly_seq[t1].qz,
                            face_vertices@[t1],
                            );
                        let idx2 = choose|idx: int|
                            0 <= idx < qv@.len() && (#[trigger] qv@[idx]) == (
                            poly_seq[t2].qx,
                            poly_seq[t2].qy,
                            poly_seq[t2].qz,
                            face_vertices@[t2],
                            );
                        assert(qv_keys(qv@)[idx1] == qkey_of(poly_seq[t1]));
                        assert(qv_keys(qv@)[idx2] == qkey_of(poly_seq[t2]));
                        if qkey_of(poly_seq[t1]) == qkey_of(poly_seq[t2]) {
                            assert(idx1 == idx2);
                        }
                        if face_vertices@[t1] == face_vertices@[t2] {
                            assert(qv@[idx1].3 == nth_auto_key(idx1));
                            assert(qv@[idx2].3 == nth_auto_key(idx2));
                            assert(idx1 == idx2);
                        }
                    }
                    assert(qkeys_of(poly_seq).len() == poly_len);
                    if qkeys_distinct(poly_seq) {
                        assert forall|t1: int, t2: int|
                            0 <= t1 < poly_len && 0 <= t2 < poly_len && t1 != t2 implies #[trigger] face_vertices@[t1]
                            != #[trigger] face_vertices@[t2] by {
                            assert(qkeys_of(poly_seq)[t1] != qkeys_of(poly_seq)[t2]);
                            assert(qkey_of(poly_seq[t1]) != qkey_of(poly_seq[t2]));
                        }
                        assert(face_vertices@.no_duplicates());
                    } else {
                        let (d1, d2) = choose|d1: int, d2: int|
                            0 <= d1 < poly_len && 0 <= d2 < poly_len && d1 != d2 && qkeys_of(
                                poly_seq,
                            )[d1] == qkeys_of(poly_seq)[d2];
                        assert(qkey_of(poly_seq[d1]) == qkey_of(poly_seq[d2]));
                        assert(face_vertices@[d1] == face_vertices@[d2]);
                        assert(!face_vertices@.no_duplicates());
                    }
                    // Every mapped vertex exists in the mesh.
                    assert forall|t: int| 0 <= t < poly_len implies mesh.vmap().dom().contains(
                        #[trigger] face_vertices@[t],
                    ) by {
                        let idx = choose|idx: int|
                            0 <= idx < qv@.len() && (#[trigger] qv@[idx]) == (
                            poly_seq[t].qx,
                            poly_seq[t].qy,
                            poly_seq[t].qz,
                            face_vertices@[t],
                            );
                        assert(mesh.vmap().dom().contains(qv@[idx].3));
                    }
                    crate::keymap::lemma_assoc_len(mesh.face.kseq());
                    lemma_good_le(polygons@.take(pi as int));
                }
                let ghost fm_old = mesh.fmap();
                let ghost fv_seq = face_vertices@;
                let ghost m_before = *&mesh;
                let res = mesh.add_face(face_vertices, None);
                proof {
                    lemma_soup_take_step(polygons@, pi as int);
                    assert(polygons@.take(pi as int + 1).last() == polygons@[pi as int]);
                    if res is Some {
                        assert(qkeys_distinct(poly_seq));
                        vstd::set::axiom_set_insert_len(fm_old.dom(), res->Some_0);
                        assert(mesh.fmap().dom().len() == good_polys(
                            polygons@.take(pi as int + 1),
                        ));
                        let fk = res->Some_0;
                        assert(fk == nth_auto_key(good_polys(polygons@.take(pi as int))));
                        assert(mesh.fmap()[fk]@ == fv_seq);
                        assert(mesh.face.keys() =~= Seq::new(
                            good_polys(polygons@.take(pi as int + 1)) as nat,
                            |g: int| nth_auto_key(g),
                        ));
                        crate::mesh::lemma_face_halfedges_insert(m_before, mesh, fk, fv_seq);
                        assert forall|t: int|
                            0 <= t < polygons@[pi as int]@.len() implies table_maps(
                            qv@,
                            polygons@[pi as int]@[t],
                            #[trigger] mesh.fmap()[fk]@[t],
                        ) by {
                            assert(mesh.fmap()[fk]@[t] == fv_seq[t]);
                        }
                    } else {
                        assert(!qkeys_distinct(poly_seq));
                        assert(mesh.fmap().dom().len() == good_polys(
                            polygons@.take(pi as int + 1),
                        ));
                        assert(*&mesh == m_before);
                    }
                    // The key set now covers this polygon's points too.
                    vstd::seq_lib::seq_to_set_distributes_over_add(
                        qkeys_of(valid_soup_points(polygons@.take(pi as int))),
                        qkeys_of(poly_seq),
                    );
                    assert(qkeys_of(valid_soup_points(polygons@.take(pi as int)) + poly_seq)
                        =~= qkeys_of(valid_soup_points(polygons@.take(pi as int))) + qkeys_of(
                        poly_seq,
                    ));
                    assert(qv_keys(qv@).to_set() == qkeys_of(
                        valid_soup_points(polygons@.take(pi as int + 1)),
                    ).to_set());
                    // The prefix aggregates for the next polygon are those
                    // of the processed points.
                    assert(valid_soup_points(polygons@.take(pi as int)) + polygons@[pi as int]@.take(
                        poly_len as int,
                    ) == valid_soup_points(polygons@.take(pi as int + 1)));
                }
            } else {
                proof {
                    lemma_soup_take_step(polygons@, pi as int);
                    assert(valid_soup_points(polygons@.take(pi as int + 1))
                        =~= valid_soup_points(polygons@.take(pi as int)));
                }
            }
            pi += 1;
            proof {
                assert forall|p: int|
                    #![trigger polygons@[p]]
                    0 <= p < pi && polygons@[p]@.len() >= 3 && qkeys_distinct(
                        polygons@[p]@,
                    ) implies {
                    let fkp = nth_auto_key(good_polys(polygons@.take(p)));
                    &&& mesh.fmap().dom().contains(fkp)
                    &&& mesh.fmap()[fkp]@.len() == polygons@[p]@.len()
                    &&& forall|t: int|
                        0 <= t < polygons@[p]@.len() ==> table_maps(
                            qv@,
                            polygons@[p]@[t],
                            #[trigger] mesh.fmap()[fkp]@[t],
                        )
                } by {
                }
            }
        }
        proof {
            assert(polygons@.take(np as int) =~= polygons@);
            qv_keys(qv@).unique_seq_to_set();
            let sall = valid_soup_points(polygons@);
            assert(mesh.face.keys() == Seq::new(
                good_polys(polygons@) as nat,
                |g: int| nth_auto_key(g),
            ));
            assert forall|p: int|
                #![trigger polygons@[p]]
                0 <= p < polygons@.len() && polygons@[p]@.len() >= 3 && qkeys_distinct(
                    polygons@[p]@,
                ) implies mesh.fmap().dom().contains(nth_auto_key(good_polys(polygons@.take(p))))
                && mesh.fmap()[nth_auto_key(good_polys(polygons@.take(p)))]@ == mapped_cycle(
                sall,
                polygons@[p]@,
            ) by {
                let fkp = nth_auto_key(good_polys(polygons@.take(p)));
                assert(mesh.fmap().dom().contains(fkp));
                assert forall|t: int|
                    0 <= t < polygons@[p]@.len() implies #[trigger] mesh.fmap()[fkp]@[t]
                    == mapped_cycle(sall, polygons@[p]@)[t] by {
                    assert(table_maps(qv@, polygons@[p]@[t], mesh.fmap()[fkp]@[t]));
                    let pnt = polygons@[p]@[t];
                    let idx = choose|idx: int|
                        0 <= idx < qv@.len() && (#[trigger] qv@[idx]) == (
                        pnt.qx,
                        pnt.qy,
                        pnt.qz,
                        mesh.fmap()[fkp]@[t],
                        );
                    assert(qv_keys(qv@)[idx] == qkey_of(pnt));
                    assert(first_seen_qkeys(sall)[idx] == qkey_of(pnt));
                    lemma_key_slot(sall, qkey_of(pnt), idx);
                    assert(qv@[idx].3 == nth_auto_key(idx));
                }
                assert(mesh.fmap()[fkp]@ =~= mapped_cycle(sall, polygons@[p]@));
            }
            assert(qv_keys(qv@) == first_seen_qkeys(sall));
            assert forall|i: int|
                0 <= i < first_seen_qkeys(sall).len() implies mesh.vmap().dom().contains(
                #[trigger] nth_auto_key(i),
            ) && mesh.vmap()[nth_auto_key(i)].position == key_first_pos(
                sall,
                first_seen_qkeys(sall)[i],
            ) by {
                assert(qv@[i].3 == nth_auto_key(i));
                assert(mesh.vmap().dom().contains(qv@[i].3));
                assert(qv_keys(qv@)[i] == first_seen_qkeys(sall)[i]);
                assert(mesh.vmap()[qv@[i].3].position == key_first_pos(sall, qv_keys(qv@)[i]));
            }
        }
        mesh
    }

    /// Create a mesh from a list of polygons with vertex merging and
    /// triangulation of every face with more than three points.
    ///
    /// A first pass registers one vertex per distinct merge key over
    /// all points.  A second pass turns each polygon with at least
    /// three points into triangles: a triangle directly, larger
    /// polygons through planar projection and ear clipping, falling
    /// back to a fan from the first point when no ear can be found.
    /// Every face of the result is a triangle, and when no kept
    /// polygon repeats a merge key the face count is exactly the sum
    /// of `n - 2` over the kept polygons.
    #[verifier::loop_isolation(false)]
    #[verifier::rlimit(100)]
    pub fn from_polygons_with_merge(polygons: Vec<Vec<SoupPoint>>) -> (m: Mesh)
        requires
            soup_all_bounded(polygons@),
            forall|p: int| 0 <= p < polygons@.len() ==> (#[trigger] polygons@[p])@.len() <= QMAX,
            2 * total_soup_points(polygons@) + 2 <= usize::MAX,
        ensures
            m.wf(),
            m.vmap().dom().len() == qkeys_of(all_soup_points(polygons@)).to_set().len(),
            m.vertex.keys() == Seq::new(
                first_seen_qkeys(all_soup_points(polygons@)).len(),
                |i: int| nth_auto_key(i),
            ),
            forall|i: int|
                0 <= i < first_seen_qkeys(all_soup_points(polygons@)).len()
                    ==> m.vmap().dom().contains(#[trigger] nth_auto_key(i)) && m.vmap()[
                    nth_auto_key(i)
                ].position == key_first_pos(
                    all_soup_points(polygons@),
                    first_seen_qkeys(all_soup_points(polygons@))[i],
                ),
            forall|f: usize| #[trigger] m.fmap().dom().contains(f) ==> m.fmap()[f]@.len() == 3,
            all_polys_distinct(polygons@) ==> m.fmap().dom().len() == tri_face_total(polygons@),
            all_polys_distinct(polygons@) ==> m.face.keys() == Seq::new(
                tri_face_total(polygons@) as nat,
                |g: int| nth_auto_key(g),
            ),
            all_polys_distinct(polygons@) ==> forall|p: int, t: int|
                0 <= p < polygons@.len() && polygons@[p]@.len() >= 3 && 0 <= t < polygons@[p]@.len()
                    - 2 ==> #[trigger] holds_merge_face(
                    m,
                    all_soup_points(polygons@),
                    polygons@[p]@,
                    tri_face_total(polygons@.take(p)),
                    t,
                ),
            m.hmap().dom() == face_halfedges(m),
    {
        let mut mesh = Mesh::new();
        proof {
            crate::mesh::lemma_face_halfedges_empty(mesh);
        }
        let mut qv: Vec<(i64, i64, i64, usize)> = Vec::new();
        let mut mapped: Vec<Vec<usize>> = Vec::new();
        let np = polygons.len();
        let mut pi: usize = 0;
        proof {
            assert(polygons@.take(0int) =~= Seq::<Vec<SoupPoint>>::empty());
            assert(qv_keys(qv@).to_set() =~= qkeys_of(
                all_soup_points(polygons@.take(0int)),
            ).to_set());
            assert(qv_keys(qv@).no_duplicates());
            assert(qv_keys(qv@) =~= first_seen_qkeys(all_soup_points(polygons@.take(0int))));
            crate::keymap::lemma_assoc_len(mesh.vertex.kseq());
            assert(mesh.vertex.kseq().len() == 0);
            assert(mesh.vertex.keys() =~= Seq::new(0nat, |i: int| nth_auto_key(i)));
        }
        while pi < np
            invariant
                0 <= pi <= np,
                np == polygons@.len(),
                mesh.wf(),
                qv@.len() <= total_soup_points(polygons@.take(pi as int)),
                mesh.vmap().dom().len() == qv@.len(),
                mesh.max_vertex == 2 * qv@.len(),
                mesh.fmap().dom().len() == 0,
                mesh.max_face == 0,
                mesh.hmap().dom() == face_halfedges(mesh),
                qv_keys(qv@).no_duplicates(),
                qv_keys(qv@).to_set() == qkeys_of(
                    all_soup_points(polygons@.take(pi as int)),
                ).to_set(),
                qv_keys(qv@) == first_seen_qkeys(all_soup_points(polygons@.take(pi as int))),
                mesh.vertex.keys() == Seq::new(qv@.len() as nat, |i: int| nth_auto_key(i)),
                forall|idx: int|
                    0 <= idx < qv@.len() ==> mesh.vmap()[(#[trigger] qv@[idx]).3].position
                        == key_first_pos(
                        all_soup_points(polygons@.take(pi as int)),
                        qv_keys(qv@)[idx],
                    ),
                forall|idx: int| 0 <= idx < qv@.len() ==> (#[trigger] qv@[idx]).3 == nth_auto_key(idx),
                forall|idx: int|
                    0 <= idx < qv@.len() ==> mesh.vmap().dom().contains((#[trigger] qv@[idx]).3),
                mapped@.len() == pi,
                forall|p: int| 0 <= p < pi ==> (#[trigger] mapped@[p])@.len() == polygons@[p]@.len(),
                forall|p: int, t: int|
                    #![trigger mapped@[p]@[t]]
                    0 <= p < pi && 0 <= t < polygons@[p]@.len() ==> table_maps(
                        qv@,
                        polygons@[p]@[t],
                        mapped@[p]@[t],
                    ),
            decreases np - pi,
        {
            let poly_len = polygons[pi].len();
            let ghost qv_start = qv@;
            let ghost mapped_start = mapped@;
            let mut face_vertices: Vec<usize> = Vec::new();
            let mut j: usize = 0;
            let ghost set_before = qv_keys(qv@).to_set();
            proof {
                assert(all_soup_points(polygons@.take(pi as int)) + polygons@[pi as int]@.take(0int)
                    =~= all_soup_points(polygons@.take(pi as int)));
            }
            while j < poly_len
                invariant
                    0 <= j <= poly_len,
                    0 <= pi < np,
                    poly_len == polygons@[pi as int]@.len(),
                    mesh.wf(),
                    qv@.len() <= total_soup_points(polygons@.take(pi as int)) + j,
                    mesh.vmap().dom().len() == qv@.len(),
                    mesh.max_vertex == 2 * qv@.len(),
                    mesh.fmap().dom().len() == 0,
                    mesh.max_face == 0,
                    mesh.hmap().dom() == face_halfedges(mesh),
                    qv_keys(qv@).no_duplicates(),
                    qv_keys(qv@).to_set() == set_before.union(
                        qkeys_of(polygons@[pi as int]@.take(j as int)).to_set(),
                    ),
                    set_before == qkeys_of(all_soup_points(polygons@.take(pi as int))).to_set(),
                    qv_keys(qv@) == first_seen_qkeys(
                        all_soup_points(polygons@.take(pi as int)) + polygons@[pi as int]@.take(
                            j as int,
                        ),
                    ),
                    mesh.vertex.keys() == Seq::new(qv@.len() as nat, |i: int| nth_auto_key(i)),
                    forall|idx: int|
                        0 <= idx < qv@.len() ==> mesh.vmap()[(#[trigger] qv@[idx]).3].position
                            == key_first_pos(
                            all_soup_points(polygons@.take(pi as int)) + polygons@[pi as int]@.take(
                                j as int,
                            ),
                            qv_keys(qv@)[idx],
                        ),
                    qv_start.is_prefix_of(qv@),
                    forall|idx: int|
                        0 <= idx < qv@.len() ==> (#[trigger] qv@[idx]).3 == nth_auto_key(idx),
                    forall|idx: int|
                        0 <= idx < qv@.len() ==> mesh.vmap().dom().contains(
                            (#[trigger] qv@[idx]).3,
                        ),
                    face_vertices@.len() == j,
                    forall|t: int|
                        0 <= t < j ==> table_maps(
                            qv@,
                            polygons@[pi as int]@[t],
                            #[trigger] face_vertices@[t],
                        ),
                decreases poly_len - j,
            {
                let pt = polygons[pi][j];
                let ghost qv_before = qv@;
                let ghost fv_before = face_vertices@;
                let ghost k = qkey_of(polygons@[pi as int]@[j as int]);
                let ghost proc_old = all_soup_points(polygons@.take(pi as int))
                    + polygons@[pi as int]@.take(j as int);
                let ghost proc_new = all_soup_points(polygons@.take(pi as int))
                    + polygons@[pi as int]@.take(j as int + 1);
                proof {
                    assert(polygons@[pi as int]@.take(j as int + 1).drop_last()
                        =~= polygons@[pi as int]@.take(j as int));
                    assert(proc_new =~= proc_old.push(polygons@[pi as int]@[j as int]));
                    assert(qkeys_of(proc_old) =~= qkeys_of(
                        all_soup_points(polygons@.take(pi as int)),
                    ) + qkeys_of(polygons@[pi as int]@.take(j as int)));
                    vstd::seq_lib::seq_to_set_distributes_over_add(
                        qkeys_of(all_soup_points(polygons@.take(pi as int))),
                        qkeys_of(polygons@[pi as int]@.take(j as int)),
                    );
                    assert(qkeys_of(proc_old).to_set() =~= qv_keys(qv_before).to_set());
                    lemma_has_key_set(proc_old, k);
                    lemma_distinct_push(proc_old, polygons@[pi as int]@[j as int]);
                }
                let vkey: usize = match find_qv(&qv, pt.qx, pt.qy, pt.qz) {
                    Some(v) => {
                        proof {
                            let idx = choose|idx: int|
                                0 <= idx < qv@.len() && (#[trigger] qv@[idx]) == (
                                pt.qx,
                                pt.qy,
                                pt.qz,
                                v,
                                );
                            assert(qv_keys(qv@)[idx] == k);
                            assert(qv_keys(qv@).to_set().contains(k));
                            assert(table_maps(qv@, polygons@[pi as int]@[j as int], v));
                            assert(seq_has_key(proc_old, k));
                            assert(first_seen_qkeys(proc_new) == first_seen_qkeys(proc_old));
                            assert forall|idx: int|
                                0 <= idx < qv@.len() implies mesh.vmap()[
                                (#[trigger] qv@[idx]).3
                            ].position == key_first_pos(proc_new, qv_keys(qv@)[idx]) by {
                                assert(mesh.vmap()[qv@[idx].3].position == key_first_pos(
                                    proc_old,
                                    qv_keys(qv@)[idx],
                                ));
                                assert(qv_keys(qv@).to_set().contains(qv_keys(qv@)[idx]));
                                lemma_has_key_set(proc_old, qv_keys(qv@)[idx]);
                                lemma_first_pos_push(
                                    proc_old,
                                    polygons@[pi as int]@[j as int],
                                    qv_keys(qv@)[idx],
                                );
                            }
                        }
                        v
                    },
                    None => {
                        proof {
                            lemma_total_take_le(polygons@, pi as int + 1);
                            lemma_soup_take_step(polygons@, pi as int);
                            crate::keymap::lemma_assoc_len(mesh.vertex.kseq());
                        }
                        let ghost qlen = qv@.len() as int;
                        let ghost vm_old = mesh.vmap();
                        let nk = mesh.add_vertex(pt.position, None);
                        proof {
                            assert(nk == nth_auto_key(qlen));
                            vstd::set::axiom_set_insert_len(vm_old.dom(), nk);
                        }
                        qv.push((pt.qx, pt.qy, pt.qz, nk));
                        proof {
                            assert(qv@[qv@.len() - 1] == (pt.qx, pt.qy, pt.qz, nk));
                            assert(table_maps(qv@, polygons@[pi as int]@[j as int], nk));
                            assert(qv_keys(qv@) =~= qv_keys(qv_before).push(k));
                            assert forall|j2: int|
                                0 <= j2 < qv_keys(qv_before).len() implies qv_keys(qv_before)[j2]
                                != k by {
                                assert(!(qv_before[j2].0 == pt.qx && qv_before[j2].1 == pt.qy
                                    && qv_before[j2].2 == pt.qz));
                            }
                            assert forall|a: int, b: int|
                                0 <= a < qv_keys(qv@).len() && 0 <= b < qv_keys(qv@).len() && a
                                    != b implies qv_keys(qv@)[a] != qv_keys(qv@)[b] by {
                                if a < qv_keys(qv_before).len() && b < qv_keys(qv_before).len() {
                                    assert(qv_keys(qv_before)[a] != qv_keys(qv_before)[b]);
                                }
                            }
                            assert(qv_keys(qv@).no_duplicates());
                            qv_keys(qv_before).lemma_push_to_set_commute(k);
                            assert forall|idx: int|
                                0 <= idx < qv@.len() implies (#[trigger] qv@[idx]).3
                                == nth_auto_key(idx) by {
                                if idx < qv_before.len() {
                                    assert(qv_before[idx].3 == nth_auto_key(idx));
                                }
                            }
                            assert forall|idx: int|
                                0 <= idx < qv@.len() implies mesh.vmap().dom().contains(
                                (#[trigger] qv@[idx]).3,
                            ) by {
                                if idx < qv_before.len() {
                                    assert(vm_old.dom().contains(qv_before[idx].3));
                                }
                            }
                            assert(!qv_keys(qv_before).contains(k)) by {
                                if qv_keys(qv_before).contains(k) {
                                    let j2 = choose|j2: int|
                                        0 <= j2 < qv_keys(qv_before).len() && qv_keys(
                                            qv_before,
                                        )[j2] == k;
                                    assert(qv_before[j2].0 == pt.qx && qv_before[j2].1 == pt.qy
                                        && qv_before[j2].2 == pt.qz);
                                }
                            }
                            assert(!qv_keys(qv_before).to_set().contains(k));
                            assert(!seq_has_key(proc_old, k));
                            assert(qv_keys(qv@) =~= first_seen_qkeys(proc_new));
                            assert(mesh.vertex.keys() =~= Seq::new(
                                qv@.len() as nat,
                                |i: int| nth_auto_key(i),
                            ));
                            assert forall|idx: int|
                                0 <= idx < qv@.len() implies mesh.vmap()[
                                (#[trigger] qv@[idx]).3
                            ].position == key_first_pos(proc_new, qv_keys(qv@)[idx]) by {
                                lemma_first_pos_push(
                                    proc_old,
                                    polygons@[pi as int]@[j as int],
                                    qv_keys(qv@)[idx],
                                );
                                if idx < qv_before.len() {
                                    assert(qv@[idx] == qv_before[idx]);
                                    assert(qv_keys(qv@)[idx] == qv_keys(qv_before)[idx]);
                                    assert(vm_old[qv_before[idx].3].position == key_first_pos(
                                        proc_old,
                                        qv_keys(qv_before)[idx],
                                    ));
                                    assert(qv_before[idx].3 == nth_auto_key(idx));
                                    assert(nth_auto_key(idx) != nk);
                                    assert(mesh.vmap()[qv@[idx].3] == vm_old[qv_before[idx].3]);
                                    assert(qv_keys(qv_before).to_set().contains(
                                        qv_keys(qv_before)[idx],
                                    ));
                                    lemma_has_key_set(proc_old, qv_keys(qv_before)[idx]);
                                } else {
                                    assert(qv@[idx] == (pt.qx, pt.qy, pt.qz, nk));
                                    assert(qv_keys(qv@)[idx] == k);
                                    assert(mesh.vmap()[nk].position == pt.position);
                                    assert(polygons@[pi as int]@[j as int].position == pt.position);
                                }
                            }
                        }
                        nk
                    },
                };
                face_vertices.push(vkey);
                proof {
                    assert(polygons@[pi as int]@.take(j as int + 1).drop_last() =~= polygons@[pi as int]@.take(
                        j as int,
                    ));
                    assert(qkeys_of(polygons@[pi as int]@.take(j as int + 1)) =~= qkeys_of(
                        polygons@[pi as int]@.take(j as int),
                    ).push(k));
                    qkeys_of(polygons@[pi as int]@.take(j as int)).lemma_push_to_set_commute(k);
                    assert(qv_keys(qv@).to_set() =~= set_before.union(
                        qkeys_of(polygons@[pi as int]@.take(j as int + 1)).to_set(),
                    ));
                    assert(qv_start.is_prefix_of(qv@));
                    assert forall|t: int|
                        0 <= t < j + 1 implies table_maps(
                        qv@,
                        polygons@[pi as int]@[t],
                        #[trigger] face_vertices@[t],
                    ) by {
                        if t < j {
                            assert(face_vertices@[t] == fv_before[t]);
                            assert(table_maps(qv_before, polygons@[pi as int]@[t], fv_before[t]));
                            assert(qv_before.is_prefix_of(qv@));
                            lemma_table_maps_prefix(
                                qv_before,
                                qv@,
                                polygons@[pi as int]@[t],
                                fv_before[t],
                            );
                        } else {
                            assert(face_vertices@[t] == vkey);
                        }
                    }
                }
                j += 1;
            }
            let ghost fv_final = face_vertices@;
            mapped.push(face_vertices);
            proof {
                lemma_soup_take_step(polygons@, pi as int);
                lemma_merge_take_step(polygons@, pi as int);
                assert(polygons@[pi as int]@.take(poly_len as int) =~= polygons@[pi as int]@);
                vstd::seq_lib::seq_to_set_distributes_over_add(
                    qkeys_of(all_soup_points(polygons@.take(pi as int))),
                    qkeys_of(polygons@[pi as int]@),
                );
                assert(qkeys_of(all_soup_points(polygons@.take(pi as int)) + polygons@[pi as int]@)
                    =~= qkeys_of(all_soup_points(polygons@.take(pi as int))) + qkeys_of(
                    polygons@[pi as int]@,
                ));
                assert(qv_keys(qv@).to_set() == qkeys_of(
                    all_soup_points(polygons@.take(pi as int + 1)),
                ).to_set());
                assert(all_soup_points(polygons@.take(pi as int)) + polygons@[pi as int]@.take(
                    poly_len as int,
                ) == all_soup_points(polygons@.take(pi as int + 1)));
                assert forall|p: int, t: int|
                    #![trigger mapped@[p]@[t]]
                    0 <= p < pi + 1 && 0 <= t < polygons@[p]@.len() implies table_maps(
                    qv@,
                    polygons@[p]@[t],
                    mapped@[p]@[t],
                ) by {
                    if p < pi {
                        assert(mapped@[p] == mapped_start[p]);
                        assert(mapped@[p]@[t] == mapped_start[p]@[t]);
                        assert(table_maps(qv_start, polygons@[p]@[t], mapped_start[p]@[t]));
                        lemma_table_maps_prefix(
                            qv_start,
                            qv@,
                            polygons@[p]@[t],
                            mapped_start[p]@[t],
                        );
                    } else {
                        assert(mapped@[p]@[t] == fv_final[t]);
                        assert(table_maps(qv@, polygons@[p]@[t], fv_final[t]));
                    }
                }
            }
            pi += 1;
        }
        proof {
            assert(polygons@.take(np as int) =~= polygons@);
            qv_keys(qv@).unique_seq_to_set();
        }
        let ghost vm_frozen = mesh.vmap();
        let ghost vx_frozen = mesh.vertex;
        let ghost nverts = qv@.len() as int;
        let mut pi2: usize = 0;
        proof {
            assert(polygons@.take(0int) =~= Seq::<Vec<SoupPoint>>::empty());
            lemma_total_nonneg_all(polygons@);
            crate::keymap::lemma_assoc_len(mesh.face.kseq());
            assert(mesh.face.kseq().len() == 0);
            assert(mesh.face.keys() =~= Seq::new(0nat, |g: int| nth_auto_key(g)));
        }
        while pi2 < np
            invariant
                0 <= pi2 <= np,
                np == polygons@.len(),
                mesh.wf(),
                mesh.vmap() == vm_frozen,
                mesh.vertex == vx_frozen,
                mesh.vmap().dom().len() == nverts,
                mesh.max_vertex == 2 * nverts,
                mesh.fmap().dom().len() <= tri_face_total(polygons@.take(pi2 as int)),
                all_polys_distinct(polygons@) ==> mesh.fmap().dom().len() == tri_face_total(
                    polygons@.take(pi2 as int),
                ),
                mesh.max_face == 2 * mesh.fmap().dom().len(),
                mesh.hmap().dom() == face_halfedges(mesh),
                all_polys_distinct(polygons@) ==> mesh.face.keys() == Seq::new(
                    tri_face_total(polygons@.take(pi2 as int)) as nat,
                    |g: int| nth_auto_key(g),
                ),
                all_polys_distinct(polygons@) ==> forall|p: int, t: int|
                    0 <= p < pi2 && polygons@[p]@.len() >= 3 && 0 <= t < polygons@[p]@.len() - 2
                        ==> #[trigger] holds_merge_face(
                        mesh,
                        all_soup_points(polygons@),
                        polygons@[p]@,
                        tri_face_total(polygons@.take(p)),
                        t,
                    ),
                forall|f: usize|
                    #[trigger] mesh.fmap().dom().contains(f) ==> mesh.fmap()[f]@.len() == 3,
            decreases np - pi2,
        {
            let poly_len = polygons[pi2].len();
            proof {
                lemma_merge_take_step(polygons@, pi2 as int);
                lemma_tri_total_take_le(polygons@, pi2 as int + 1);
                lemma_tri_total_take_le(polygons@, pi2 as int);
            }
            if poly_len >= 3 {
                let ghost poly_seq = polygons@[pi2 as int]@;
                let ghost sall = all_soup_points(polygons@);
                let fv = &mapped[pi2];
                proof {
                    assert(fv@.len() == poly_len);
                    assert(polygons@.take(np as int) =~= polygons@);
                    assert(qv_keys(qv@) == first_seen_qkeys(sall));
                    assert forall|x: int| 0 <= x < poly_len implies #[trigger] fv@[x]
                        == mapped_cycle(sall, poly_seq)[x] by {
                        assert(mapped@[pi2 as int]@[x] == fv@[x]);
                        assert(table_maps(qv@, poly_seq[x], fv@[x]));
                        let idx = choose|idx: int|
                            0 <= idx < qv@.len() && (#[trigger] qv@[idx]) == (
                            poly_seq[x].qx,
                            poly_seq[x].qy,
                            poly_seq[x].qz,
                            fv@[x],
                            );
                        assert(qv_keys(qv@)[idx] == qkey_of(poly_seq[x]));
                        assert(first_seen_qkeys(sall)[idx] == qkey_of(poly_seq[x]));
                        lemma_key_slot(sall, qkey_of(poly_seq[x]), idx);
                        assert(qv@[idx].3 == nth_auto_key(idx));
                    }
                    assert(fv@ =~= mapped_cycle(sall, poly_seq));
                    assert forall|t: int| 0 <= t < fv@.len() implies mesh.vmap().dom().contains(
                        #[trigger] fv@[t],
                    ) by {
                        assert(mapped@[pi2 as int]@[t] == fv@[t]);
                        assert(table_maps(qv@, poly_seq[t], fv@[t]));
                        let idx = choose|idx: int|
                            0 <= idx < qv@.len() && (#[trigger] qv@[idx]) == (
                            poly_seq[t].qx,
                            poly_seq[t].qy,
                            poly_seq[t].qz,
                            fv@[t],
                            );
                        assert(vm_frozen.dom().contains(qv@[idx].3));
                    }
                    if all_polys_distinct(polygons@) {
                        assert(qkeys_distinct(poly_seq));
                        assert forall|t1: int, t2: int|
                            0 <= t1 < poly_len && 0 <= t2 < poly_len && t1 != t2 implies #[trigger] fv@[t1]
                            != #[trigger] fv@[t2] by {
                            assert(mapped@[pi2 as int]@[t1] == fv@[t1]);
                            assert(mapped@[pi2 as int]@[t2] == fv@[t2]);
                            assert(qkeys_of(poly_seq)[t1] != qkeys_of(poly_seq)[t2]);
                            assert(qkey_of(poly_seq[t1]) != qkey_of(poly_seq[t2]));
                            lemma_table_injective(
                                qv@,
                                poly_seq[t1],
                                fv@[t1],
                                poly_seq[t2],
                                fv@[t2],
                            );
                        }
                    }
                }
                let ghost base = mesh.fmap().dom().len() as int;
                if poly_len == 3 {
                    let ghost m_prev = mesh;
                    let added = add_tri_face(&mut mesh, fv, 0, 1, 2);
                    proof {
                        if all_polys_distinct(polygons@) {
                            assert(added);
                            assert(base == tri_face_total(polygons@.take(pi2 as int)));
                            let fk = nth_auto_key(base);
                            assert(mesh.fmap()[fk]@ == seq![fv@[0], fv@[1], fv@[2]]);
                            assert(merge_face_cycle(sall, poly_seq, 0) == mapped_cycle(
                                sall,
                                poly_seq,
                            ));
                            assert(mesh.fmap()[fk]@ =~= merge_face_cycle(sall, poly_seq, 0));
                            assert(holds_merge_face(mesh, sall, poly_seq, base, 0));
                            assert(mesh.face.keys() =~= Seq::new(
                                (base + 1) as nat,
                                |g: int| nth_auto_key(g),
                            ));
                                        assert forall|p: int, tt: int|
                                            0 <= p < pi2 && polygons@[p]@.len() >= 3 && 0 <= tt
                                                < polygons@[p]@.len() - 2
                                                implies #[trigger] holds_merge_face(
                                            mesh,
                                            all_soup_points(polygons@),
                                            polygons@[p]@,
                                            tri_face_total(polygons@.take(p)),
                                            tt,
                                        ) by {
                                            assert(holds_merge_face(
                                                m_prev,
                                                all_soup_points(polygons@),
                                                polygons@[p]@,
                                                tri_face_total(polygons@.take(p)),
                                                tt,
                                            ));
                                            let fkp = nth_auto_key(
                                                tri_face_total(polygons@.take(p)) + tt,
                                            );
                                            assert(m_prev.fmap().dom().contains(fkp));
                                            assert(mesh.fmap()[fkp] == m_prev.fmap()[fkp]);
                                        }
                        }
                    }
                } else {
                    let proj = project_polygon_to_2d(&polygons[pi2]);
                    match earclip_triangulate(&proj) {
                        Ok(tris) => {
                            let tcount = tris.len();
                            let mut t: usize = 0;
                            while t < tcount
                                invariant
                                    0 <= t <= tcount,
                                    tcount == tris@.len(),
                                    tcount == poly_len - 2,
                                    3 < poly_len,
                                    fv@.len() == poly_len,
                                    mesh.wf(),
                                    mesh.vmap() == vm_frozen,
                                    mesh.vertex == vx_frozen,
                                    mesh.vmap().dom().len() == nverts,
                                    mesh.max_vertex == 2 * nverts,
                                    mesh.fmap().dom().len() <= base + t,
                                    all_polys_distinct(polygons@) ==> mesh.fmap().dom().len()
                                        == base + t,
                                    mesh.max_face == 2 * mesh.fmap().dom().len(),
                                    mesh.hmap().dom() == face_halfedges(mesh),
                                    all_polys_distinct(polygons@) ==> base == tri_face_total(
                                        polygons@.take(pi2 as int),
                                    ),
                                    all_polys_distinct(polygons@) ==> mesh.face.keys()
                                        == Seq::new(
                                        (base + t) as nat,
                                        |g: int| nth_auto_key(g),
                                    ),
                                    all_polys_distinct(polygons@) ==> forall|tt: int|
                                        0 <= tt < t ==> #[trigger] holds_merge_face(
                                            mesh,
                                            all_soup_points(polygons@),
                                            poly_seq,
                                            base,
                                            tt,
                                        ),
                                    all_polys_distinct(polygons@) ==> forall|p: int, tt: int|
                                        0 <= p < pi2 && polygons@[p]@.len() >= 3 && 0 <= tt
                                            < polygons@[p]@.len() - 2
                                            ==> #[trigger] holds_merge_face(
                                            mesh,
                                            all_soup_points(polygons@),
                                            polygons@[p]@,
                                            tri_face_total(polygons@.take(p)),
                                            tt,
                                        ),
                                    base + tcount <= tri_face_total(
                                        polygons@.take(pi2 as int + 1),
                                    ),
                                    all_polys_distinct(polygons@) ==> base + tcount
                                        == tri_face_total(polygons@.take(pi2 as int + 1)),
                                    forall|tr: int|
                                        0 <= tr < tris@.len() ==> tri_valid(
                                            (#[trigger] tris@[tr])@,
                                            poly_len as int,
                                        ),
                                    forall|f: usize|
                                        #[trigger] mesh.fmap().dom().contains(f)
                                            ==> mesh.fmap()[f]@.len() == 3,
                                decreases tcount - t,
                            {
                                let tri = tris[t];
                                proof {
                                    assert(tri_valid(tri@, poly_len as int));
                                    assert(tri@[0] == tri[0] && tri@[1] == tri[1] && tri@[2]
                                        == tri[2]);
                                    lemma_tri_total_take_le(polygons@, np as int);
                                    assert(polygons@.take(np as int) =~= polygons@);
                                }
                                let ghost m_prev = mesh;
                                let added = add_tri_face(&mut mesh, fv, tri[0], tri[1], tri[2]);
                                proof {
                                    if all_polys_distinct(polygons@) {
                                        assert(added);
                                        let fk = nth_auto_key(base + t);
                                        assert(mesh.fmap()[fk]@ == seq![
                                            fv@[tri@[0] as int],
                                            fv@[tri@[1] as int],
                                            fv@[tri@[2] as int],
                                        ]);
                                        assert(proj@ == spec_project(poly_seq));
                                        assert(earclip_ok(proj@));
                                        assert(crate::earclip::tri_of(tris@[t as int])
                                            == spec_earclip(proj@)[t as int]);
                                        assert(tri@[0] == spec_earclip(spec_project(poly_seq))[
                                            t as int
                                        ].0);
                                        assert(tri@[1] == spec_earclip(spec_project(poly_seq))[
                                            t as int
                                        ].1);
                                        assert(tri@[2] == spec_earclip(spec_project(poly_seq))[
                                            t as int
                                        ].2);
                                        assert(mesh.fmap()[fk]@ =~= merge_face_cycle(
                                            sall,
                                            poly_seq,
                                            t as int,
                                        ));
                                        assert(holds_merge_face(
                                            mesh,
                                            sall,
                                            poly_seq,
                                            base,
                                            t as int,
                                        ));
                                        assert(mesh.face.keys() =~= Seq::new(
                                            (base + t + 1) as nat,
                                            |g: int| nth_auto_key(g),
                                        ));
                                        assert forall|tt: int|
                                            0 <= tt < t + 1 implies #[trigger] holds_merge_face(
                                            mesh,
                                            all_soup_points(polygons@),
                                            poly_seq,
                                            base,
                                            tt,
                                        ) by {
                                            if tt < t {
                                                assert(holds_merge_face(
                                                    m_prev,
                                                    all_soup_points(polygons@),
                                                    poly_seq,
                                                    base,
                                                    tt,
                                                ));
                                                let fkt = nth_auto_key(base + tt);
                                                assert(m_prev.fmap().dom().contains(fkt));
                                                assert(mesh.fmap()[fkt] == m_prev.fmap()[fkt]);
                                            }
                                        }
                                        assert forall|p: int, tt: int|
                                            0 <= p < pi2 && polygons@[p]@.len() >= 3 && 0 <= tt
                                                < polygons@[p]@.len() - 2
                                                implies #[trigger] holds_merge_face(
                                            mesh,
                                            all_soup_points(polygons@),
                                            polygons@[p]@,
                                            tri_face_total(polygons@.take(p)),
                                            tt,
                                        ) by {
                                            assert(holds_merge_face(
                                                m_prev,
                                                all_soup_points(polygons@),
                                                polygons@[p]@,
                                                tri_face_total(polygons@.take(p)),
                                                tt,
                                            ));
                                            let fkp = nth_auto_key(
                                                tri_face_total(polygons@.take(p)) + tt,
                                            );
                                            assert(m_prev.fmap().dom().contains(fkp));
                                            assert(mesh.fmap()[fkp] == m_prev.fmap()[fkp]);
                                        }
                                    }
                                }
                                t += 1;
                            }
                        },
                        Err(_) => {
                            let mut fi: usize = 1;
                            while fi < poly_len - 1
                                invariant
                                    1 <= fi <= poly_len - 1,
                                    3 < poly_len,
                                    poly_len == polygons@[pi2 as int]@.len(),
                                    fv@.len() == poly_len,
                                    mesh.wf(),
                                    mesh.vmap() == vm_frozen,
                                    mesh.vertex == vx_frozen,
                                    mesh.vmap().dom().len() == nverts,
                                    mesh.max_vertex == 2 * nverts,
                                    mesh.fmap().dom().len() <= base + fi - 1,
                                    all_polys_distinct(polygons@) ==> mesh.fmap().dom().len()
                                        == base + fi - 1,
                                    mesh.max_face == 2 * mesh.fmap().dom().len(),
                                    mesh.hmap().dom() == face_halfedges(mesh),
                                    all_polys_distinct(polygons@) ==> base == tri_face_total(
                                        polygons@.take(pi2 as int),
                                    ),
                                    all_polys_distinct(polygons@) ==> mesh.face.keys()
                                        == Seq::new(
                                        (base + fi - 1) as nat,
                                        |g: int| nth_auto_key(g),
                                    ),
                                    all_polys_distinct(polygons@) ==> forall|tt: int|
                                        0 <= tt < fi - 1 ==> #[trigger] holds_merge_face(
                                            mesh,
                                            all_soup_points(polygons@),
                                            poly_seq,
                                            base,
                                            tt,
                                        ),
                                    all_polys_distinct(polygons@) ==> forall|p: int, tt: int|
                                        0 <= p < pi2 && polygons@[p]@.len() >= 3 && 0 <= tt
                                            < polygons@[p]@.len() - 2
                                            ==> #[trigger] holds_merge_face(
                                            mesh,
                                            all_soup_points(polygons@),
                                            polygons@[p]@,
                                            tri_face_total(polygons@.take(p)),
                                            tt,
                                        ),
                                    base + poly_len - 2 <= tri_face_total(
                                        polygons@.take(pi2 as int + 1),
                                    ),
                                    all_polys_distinct(polygons@) ==> base + poly_len - 2
                                        == tri_face_total(polygons@.take(pi2 as int + 1)),
                                    forall|f: usize|
                                        #[trigger] mesh.fmap().dom().contains(f)
                                            ==> mesh.fmap()[f]@.len() == 3,
                                decreases poly_len - 1 - fi,
                            {
                                proof {
                                    lemma_tri_total_take_le(polygons@, np as int);
                                    assert(polygons@.take(np as int) =~= polygons@);
                                }
                                let ghost m_prev = mesh;
                                let added = add_tri_face(&mut mesh, fv, 0, fi, fi + 1);
                                proof {
                                    if all_polys_distinct(polygons@) {
                                        assert(added);
                                        let tt0 = fi as int - 1;
                                        let fk = nth_auto_key(base + tt0);
                                        assert(mesh.fmap()[fk]@ == seq![
                                            fv@[0],
                                            fv@[fi as int],
                                            fv@[fi as int + 1],
                                        ]);
                                        assert(proj@ == spec_project(poly_seq));
                                        assert(!earclip_ok(proj@));
                                        assert(mesh.fmap()[fk]@ =~= merge_face_cycle(
                                            sall,
                                            poly_seq,
                                            tt0,
                                        ));
                                        assert(holds_merge_face(mesh, sall, poly_seq, base, tt0));
                                        assert(mesh.face.keys() =~= Seq::new(
                                            (base + fi) as nat,
                                            |g: int| nth_auto_key(g),
                                        ));
                                        assert forall|tt: int|
                                            0 <= tt < fi implies #[trigger] holds_merge_face(
                                            mesh,
                                            all_soup_points(polygons@),
                                            poly_seq,
                                            base,
                                            tt,
                                        ) by {
                                            if tt < tt0 {
                                                assert(holds_merge_face(
                                                    m_prev,
                                                    all_soup_points(polygons@),
                                                    poly_seq,
                                                    base,
                                                    tt,
                                                ));
                                                let fkt = nth_auto_key(base + tt);
                                                assert(m_prev.fmap().dom().contains(fkt));
                                                assert(mesh.fmap()[fkt] == m_prev.fmap()[fkt]);
                                            }
                                        }
                                        assert forall|p: int, tt: int|
                                            0 <= p < pi2 && polygons@[p]@.len() >= 3 && 0 <= tt
                                                < polygons@[p]@.len() - 2
                                                implies #[trigger] holds_merge_face(
                                            mesh,
                                            all_soup_points(polygons@),
                                            polygons@[p]@,
                                            tri_face_total(polygons@.take(p)),
                                            tt,
                                        ) by {
                                            assert(holds_merge_face(
                                                m_prev,
                                                all_soup_points(polygons@),
                                                polygons@[p]@,
                                                tri_face_total(polygons@.take(p)),
                                                tt,
                                            ));
                                            let fkp = nth_auto_key(
                                                tri_face_total(polygons@.take(p)) + tt,
                                            );
                                            assert(m_prev.fmap().dom().contains(fkp));
                                            assert(mesh.fmap()[fkp] == m_prev.fmap()[fkp]);
                                        }
                                    }
                                }
                                fi += 1;
                            }
                        },
                    }
                }
            }
            proof {
                if all_polys_distinct(polygons@) {
                    assert forall|p: int, tt: int|
                        0 <= p < pi2 + 1 && polygons@[p]@.len() >= 3 && 0 <= tt
                            < polygons@[p]@.len() - 2 implies #[trigger] holds_merge_face(
                        mesh,
                        all_soup_points(polygons@),
                        polygons@[p]@,
                        tri_face_total(polygons@.take(p)),
                        tt,
                    ) by {
                        if p == pi2 {
                            assert(polygons@[p]@ == polygons@[pi2 as int]@);
                            assert(holds_merge_face(
                                mesh,
                                all_soup_points(polygons@),
                                polygons@[pi2 as int]@,
                                tri_face_total(polygons@.take(pi2 as int)),
                                tt,
                            ));
                        } else {
                            assert(holds_merge_face(
                                mesh,
                                all_soup_points(polygons@),
                                polygons@[p]@,
                                tri_face_total(polygons@.take(p)),
                                tt,
                            ));
                        }
                    }
                }
            }
            pi2 += 1;
        }
        proof {
            assert(polygons@.take(np as int) =~= polygons@);
            let sall = all_soup_points(polygons@);
            assert(qv_keys(qv@) == first_seen_qkeys(sall));
            assert forall|i: int|
                0 <= i < first_seen_qkeys(sall).len() implies mesh.vmap().dom().contains(
                #[trigger] nth_auto_key(i),
            ) && mesh.vmap()[nth_auto_key(i)].position == key_first_pos(
                sall,
                first_seen_qkeys(sall)[i],
            ) by {
                assert(qv@[i].3 == nth_auto_key(i));
                assert(vm_frozen.dom().contains(qv@[i].3));
                assert(qv_keys(qv@)[i] == first_seen_qkeys(sall)[i]);
                assert(vm_frozen[qv@[i].3].position == key_first_pos(sall, qv_keys(qv@)[i]));
            }
        }
        mesh
    }
}

} // verus!
