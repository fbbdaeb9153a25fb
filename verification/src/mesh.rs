//! The halfedge mesh: connectivity storage and derived counts.
//!
//! A mesh maps vertex keys to vertex data, face keys to cyclic vertex
//! lists, and directed vertex pairs to the face (if any) lying on the
//! left of that direction.  Every edge inserted by a face produces two
//! directed halfedge entries: the face-owning direction and, if it was
//! absent, an opposite boundary placeholder carrying no face.

use vstd::prelude::*;
use vstd::seq_lib::*;
use crate::attrs::AttrList;
use crate::edgemap::EdgeMap;
use crate::edgemap::lemma_passoc_dom;
use crate::edgemap::lemma_passoc_get;
use crate::keymap::KeyMap;
use crate::point::Point3;

verus! {

/// Weighting scheme for vertex normal computation.
#[derive(Debug, Clone, Copy, PartialEq, Eq, Structural)]
pub enum NormalWeighting {
    /// Weight face normals by face area (default).
    Area,
    /// Weight face normals by interior angle at the vertex.
    Angle,
    /// Uniform weighting (all faces contribute equally).
    Uniform,
}

/// Vertex data: a position and a sparse attribute list.
pub struct VertexData {
    /// The position payloads.
    pub position: Point3,
    /// Named scalar attributes (color, normal, texture coordinates,
    /// or arbitrary extras), absent until a caller sets them.
    pub attributes: AttrList,
}

/// The payload conventionally used for a missing color channel: the
/// encoding callers use for a mid-range channel value.
pub const DEFAULT_COLOR_PAYLOAD: u64 = 0x3FE0000000000000;

impl VertexData {
    /// Create a new vertex from a position.
    pub fn new(position: Point3) -> (v: Self)
        ensures
            v.position == position,
            v.attributes.kseq() == Seq::<(String, u64)>::empty(),
            v.attributes.wf(),
    {
        VertexData { position, attributes: AttrList::new() }
    }

    /// Get the position.
    pub fn position(&self) -> (p: Point3)
        ensures
            p == self.position,
    {
        self.position
    }

    /// Set the position.
    pub fn set_position(&mut self, position: Point3)
        ensures
            final(self).position == position,
            final(self).attributes == old(self).attributes,
    {
        self.position = position;
    }

    /// The color channels, with the default payload for each channel
    /// that was never set.
    pub fn color(&self) -> (c: (u64, u64, u64))
        requires
            self.attributes.wf(),
        ensures
            c.0 == if self.attributes.as_map().dom().contains("r"@) {
                self.attributes.as_map()["r"@]
            } else {
                DEFAULT_COLOR_PAYLOAD
            },
            c.1 == if self.attributes.as_map().dom().contains("g"@) {
                self.attributes.as_map()["g"@]
            } else {
                DEFAULT_COLOR_PAYLOAD
            },
            c.2 == if self.attributes.as_map().dom().contains("b"@) {
                self.attributes.as_map()["b"@]
            } else {
                DEFAULT_COLOR_PAYLOAD
            },
    {
        let r = match self.attributes.get("r") {
            Some(v) => v,
            None => DEFAULT_COLOR_PAYLOAD,
        };
        let g = match self.attributes.get("g") {
            Some(v) => v,
            None => DEFAULT_COLOR_PAYLOAD,
        };
        let b = match self.attributes.get("b") {
            Some(v) => v,
            None => DEFAULT_COLOR_PAYLOAD,
        };
        (r, g, b)
    }

    /// Store the three color channels.
    pub fn set_color(&mut self, r: u64, g: u64, b: u64)
        requires
            old(self).attributes.wf(),
        ensures
            final(self).attributes.wf(),
            final(self).attributes.as_map() == old(self).attributes.as_map().insert(
                "r"@,
                r,
            ).insert("g"@, g).insert("b"@, b),
            final(self).position == old(self).position,
    {
        self.attributes.set("r", r);
        self.attributes.set("g", g);
        self.attributes.set("b", b);
    }

    /// The normal components, if all three were set.
    pub fn normal(&self) -> (n: Option<(u64, u64, u64)>)
        requires
            self.attributes.wf(),
        ensures
            n is Some <==> self.attributes.as_map().dom().contains("nx"@)
                && self.attributes.as_map().dom().contains("ny"@)
                && self.attributes.as_map().dom().contains("nz"@),
            n is Some ==> n->Some_0 == (
                self.attributes.as_map()["nx"@],
                self.attributes.as_map()["ny"@],
                self.attributes.as_map()["nz"@],
            ),
    {
        let nx = self.attributes.get("nx");
        let ny = self.attributes.get("ny");
        let nz = self.attributes.get("nz");
        match (nx, ny, nz) {
            (Some(x), Some(y), Some(z)) => Some((x, y, z)),
            _ => None,
        }
    }

    /// Store the three normal components.
    pub fn set_normal(&mut self, nx: u64, ny: u64, nz: u64)
        requires
            old(self).attributes.wf(),
        ensures
            final(self).attributes.wf(),
            final(self).attributes.as_map() == old(self).attributes.as_map().insert(
                "nx"@,
                nx,
            ).insert("ny"@, ny).insert("nz"@, nz),
            final(self).position == old(self).position,
    {
        self.attributes.set("nx", nx);
        self.attributes.set("ny", ny);
        self.attributes.set("nz", nz);
    }

    /// The texture coordinates, if both were set.
    pub fn tex_coords(&self) -> (t: Option<(u64, u64)>)
        requires
            self.attributes.wf(),
        ensures
            t is Some <==> self.attributes.as_map().dom().contains("u"@)
                && self.attributes.as_map().dom().contains("v"@),
            t is Some ==> t->Some_0 == (self.attributes.as_map()["u"@], self.attributes.as_map()["v"@]),
    {
        let u = self.attributes.get("u");
        let v = self.attributes.get("v");
        match (u, v) {
            (Some(a), Some(b)) => Some((a, b)),
            _ => None,
        }
    }

    /// Store the texture coordinates.
    pub fn set_tex_coords(&mut self, u: u64, v: u64)
        requires
            old(self).attributes.wf(),
        ensures
            final(self).attributes.wf(),
            final(self).attributes.as_map() == old(self).attributes.as_map().insert(
                "u"@,
                u,
            ).insert("v"@, v),
            final(self).position == old(self).position,
    {
        self.attributes.set("u", u);
        self.attributes.set("v", v);
    }

    /// The payload of a named attribute, if set.
    pub fn get_attribute(&self, name: &str) -> (r: Option<u64>)
        requires
            self.attributes.wf(),
        ensures
            r == if self.attributes.as_map().dom().contains(name@) {
                Some(self.attributes.as_map()[name@])
            } else {
                None::<u64>
            },
    {
        self.attributes.get(name)
    }

    /// Store the payload of a named attribute.
    pub fn set_attribute(&mut self, name: &str, value: u64)
        requires
            old(self).attributes.wf(),
        ensures
            final(self).attributes.wf(),
            final(self).attributes.as_map() == old(self).attributes.as_map().insert(name@, value),
            final(self).position == old(self).position,
    {
        self.attributes.set(name, value);
    }
}

/// Whether a key list contains a key.
fn vec_contains_key(vs: &Vec<usize>, x: usize) -> (b: bool)
    ensures
        b == vs@.contains(x),
{
    let n = vs.len();
    let mut i: usize = 0;
    while i < n
        invariant
            0 <= i <= n,
            n == vs@.len(),
            forall|j: int| 0 <= j < i ==> vs@[j] != x,
        decreases n - i,
    {
        if vs[i] == x {
            return true;
        }
        i += 1;
    }
    false
}

/// Whether a pair list contains a pair.
fn pair_vec_contains(vs: &Vec<(usize, usize)>, a: usize, b: usize) -> (r: bool)
    ensures
        r == vs@.contains((a, b)),
{
    let n = vs.len();
    let mut i: usize = 0;
    while i < n
        invariant
            0 <= i <= n,
            n == vs@.len(),
            forall|j: int| 0 <= j < i ==> vs@[j] != (a, b),
        decreases n - i,
    {
        if vs[i].0 == a && vs[i].1 == b {
            return true;
        }
        i += 1;
    }
    false
}

/// The directed pair with its smaller endpoint first, standing for
/// the undirected edge.
pub open spec fn norm_pair(p: (usize, usize)) -> (usize, usize) {
    if p.0 <= p.1 {
        p
    } else {
        (p.1, p.0)
    }
}

/// The `i`-th directed edge of a cyclic vertex list.
pub open spec fn face_cycle_pair(vs: Seq<usize>, i: int) -> (usize, usize) {
    (vs[i], vs[if i + 1 == vs.len() { 0int } else { i + 1 }])
}

/// The directed edges of a cyclic vertex list whose position is
/// below `n`.
pub open spec fn fwd_pairs_upto(vs: Seq<usize>, n: int) -> Set<(usize, usize)> {
    Set::new(|p: (usize, usize)| exists|i: int| 0 <= i < n && p == face_cycle_pair(vs, i))
}

/// All directed edges of a cyclic vertex list.
pub open spec fn fwd_pairs(vs: Seq<usize>) -> Set<(usize, usize)> {
    fwd_pairs_upto(vs, vs.len() as int)
}

/// The reversals of the directed edges of a cyclic vertex list whose
/// position is below `n`.
pub open spec fn rev_pairs_upto(vs: Seq<usize>, n: int) -> Set<(usize, usize)> {
    Set::new(
        |p: (usize, usize)|
            exists|i: int|
                0 <= i < n && p == (face_cycle_pair(vs, i).1, face_cycle_pair(vs, i).0),
    )
}

/// The reversals of all directed edges of a cyclic vertex list.
pub open spec fn rev_pairs(vs: Seq<usize>) -> Set<(usize, usize)> {
    rev_pairs_upto(vs, vs.len() as int)
}

/// A valid face boundary over a vertex map: at least three vertices,
/// no repetitions, and every key present in the map.
pub open spec fn face_input_valid(vmap: Map<usize, VertexData>, vs: Seq<usize>) -> bool {
    &&& vs.len() >= 3
    &&& vs.no_duplicates()
    &&& forall|i: int| 0 <= i < vs.len() ==> vmap.dom().contains(#[trigger] vs[i])
}

/// In a duplicate-free cyclic list of three or more vertices the
/// directed edges are pairwise distinct, none is the reversal of
/// another, and none is a self-loop.
pub proof fn lemma_cycle_pairs(vs: Seq<usize>)
    requires
        vs.no_duplicates(),
        3 <= vs.len(),
    ensures
        forall|i: int|
            0 <= i < vs.len() ==> (#[trigger] face_cycle_pair(vs, i)).0 != face_cycle_pair(vs, i).1,
        forall|i: int, j: int|
            0 <= i < vs.len() && 0 <= j < vs.len() && i != j ==> #[trigger] face_cycle_pair(vs, i)
                != #[trigger] face_cycle_pair(vs, j),
        forall|i: int, j: int|
            #![trigger face_cycle_pair(vs, i), face_cycle_pair(vs, j)]
            0 <= i < vs.len() && 0 <= j < vs.len() ==> face_cycle_pair(vs, i) != (
            face_cycle_pair(vs, j).1,
            face_cycle_pair(vs, j).0,
            ),
{
    let n = vs.len() as int;
    assert forall|i: int| 0 <= i < n implies (#[trigger] face_cycle_pair(vs, i)).0
        != face_cycle_pair(vs, i).1 by {
        let s = if i + 1 == n {
            0int
        } else {
            i + 1
        };
        assert(s != i);
    }
    assert forall|i: int, j: int|
        0 <= i < n && 0 <= j < n && i != j implies #[trigger] face_cycle_pair(vs, i)
        != #[trigger] face_cycle_pair(vs, j) by {
        assert(vs[i] != vs[j]);
    }
    assert forall|i: int, j: int|
        #![trigger face_cycle_pair(vs, i), face_cycle_pair(vs, j)]
        0 <= i < n && 0 <= j < n implies face_cycle_pair(vs, i) != (
        face_cycle_pair(vs, j).1,
        face_cycle_pair(vs, j).0,
    ) by {
        let si = if i + 1 == n {
            0int
        } else {
            i + 1
        };
        let sj = if j + 1 == n {
            0int
        } else {
            j + 1
        };
        if face_cycle_pair(vs, i) == (face_cycle_pair(vs, j).1, face_cycle_pair(vs, j).0) {
            // vs[i] == vs[sj] and vs[si] == vs[j]: positions must agree,
            // so following the cycle twice from j returns to j, which a
            // cycle of three or more distinct vertices cannot do.
            assert(i == sj);
            assert(si == j);
            assert(false);
        }
    }
}

/// Extending the range of considered positions by one extends the
/// directed-edge sets by exactly that position's pair.
pub proof fn lemma_pairs_upto_step(vs: Seq<usize>, i: int)
    requires
        0 <= i < vs.len(),
    ensures
        fwd_pairs_upto(vs, i + 1) == fwd_pairs_upto(vs, i).insert(face_cycle_pair(vs, i)),
        rev_pairs_upto(vs, i + 1) == rev_pairs_upto(vs, i).insert(
            (face_cycle_pair(vs, i).1, face_cycle_pair(vs, i).0),
        ),
{
    let pf = face_cycle_pair(vs, i);
    let pr = (pf.1, pf.0);
    assert forall|p: (usize, usize)| fwd_pairs_upto(vs, i + 1).contains(p) implies fwd_pairs_upto(
        vs,
        i,
    ).insert(pf).contains(p) by {
        let j = choose|j: int| 0 <= j < i + 1 && p == face_cycle_pair(vs, j);
        if j < i {
            assert(fwd_pairs_upto(vs, i).contains(p));
        }
    }
    assert forall|p: (usize, usize)| fwd_pairs_upto(vs, i).insert(pf).contains(
        p,
    ) implies fwd_pairs_upto(vs, i + 1).contains(p) by {
        if p == pf {
            assert(0 <= i < i + 1 && p == face_cycle_pair(vs, i));
        } else {
            let j = choose|j: int| 0 <= j < i && p == face_cycle_pair(vs, j);
            assert(0 <= j < i + 1 && p == face_cycle_pair(vs, j));
        }
    }
    assert(fwd_pairs_upto(vs, i + 1) =~= fwd_pairs_upto(vs, i).insert(pf));
    assert forall|p: (usize, usize)| rev_pairs_upto(vs, i + 1).contains(p) implies rev_pairs_upto(
        vs,
        i,
    ).insert(pr).contains(p) by {
        let j = choose|j: int|
            0 <= j < i + 1 && p == (face_cycle_pair(vs, j).1, face_cycle_pair(vs, j).0);
        if j < i {
            assert(rev_pairs_upto(vs, i).contains(p));
        }
    }
    assert forall|p: (usize, usize)| rev_pairs_upto(vs, i).insert(pr).contains(
        p,
    ) implies rev_pairs_upto(vs, i + 1).contains(p) by {
        if p == pr {
            assert(0 <= i < i + 1 && p == (face_cycle_pair(vs, i).1, face_cycle_pair(vs, i).0));
        } else {
            let j = choose|j: int|
                0 <= j < i && p == (face_cycle_pair(vs, j).1, face_cycle_pair(vs, j).0);
            assert(0 <= j < i + 1 && p == (face_cycle_pair(vs, j).1, face_cycle_pair(vs, j).0));
        }
    }
    assert(rev_pairs_upto(vs, i + 1) =~= rev_pairs_upto(vs, i).insert(pr));
}

/// An independent copy of a vertex-key list.
fn copy_keys(vs: &Vec<usize>) -> (r: Vec<usize>)
    ensures
        r@ == vs@,
{
    let n = vs.len();
    let mut r: Vec<usize> = Vec::new();
    let mut i: usize = 0;
    while i < n
        invariant
            0 <= i <= n,
            n == vs@.len(),
            r@.len() == i,
            forall|j: int| 0 <= j < i ==> r@[j] == vs@[j],
        decreases n - i,
    {
        r.push(vs[i]);
        i += 1;
    }
    proof {
        assert(r@ =~= vs@);
    }
    r
}

/// Whether some vertex key occurs twice in a list.
pub(crate) fn has_duplicate(vs: &Vec<usize>) -> (b: bool)
    ensures
        b == !vs@.no_duplicates(),
{
    let n = vs.len();
    let mut i: usize = 0;
    while i < n
        invariant
            0 <= i <= n,
            n == vs@.len(),
            forall|a: int, b0: int| 0 <= a < b0 < i ==> vs@[a] != vs@[b0],
        decreases n - i,
    {
        let mut j: usize = 0;
        while j < i
            invariant
                0 <= j <= i < n,
                n == vs@.len(),
                forall|a: int, b0: int| 0 <= a < b0 < i ==> vs@[a] != vs@[b0],
                forall|a: int| 0 <= a < j ==> vs@[a] != vs@[i as int],
            decreases i - j,
        {
            if vs[j] == vs[i] {
                assert(!vs@.no_duplicates());
                return true;
            }
            j += 1;
        }
        i += 1;
    }
    proof {
        assert forall|a: int, b0: int|
            0 <= a < vs@.len() && 0 <= b0 < vs@.len() && a != b0 implies vs@[a] != vs@[b0] by {
            if a < b0 {
            } else {
            }
        }
    }
    false
}


/// The undirected edges among the first `k` directed edges of a
/// cyclic vertex list.
pub open spec fn norm_pairs_upto(vs: Seq<usize>, k: int) -> Set<(usize, usize)> {
    Set::new(
        |e: (usize, usize)|
            exists|i: int| 0 <= i < k && e == norm_pair(#[trigger] face_cycle_pair(vs, i)),
    )
}

/// The undirected edges of the first `fj` faces of a face list.
pub open spec fn faces_edges_upto(fs: Seq<(usize, Vec<usize>)>, fj: int) -> Set<(usize, usize)> {
    Set::new(
        |e: (usize, usize)|
            exists|j: int, i: int|
                0 <= j < fj && 0 <= i < fs[j].1@.len() && e == norm_pair(
                    #[trigger] face_cycle_pair(fs[j].1@, i),
                ) && 0 <= j < fs.len(),
    )
}

/// Whether a position pair is the pair of endpoint positions of
/// some face edge of the mesh.
pub open spec fn line_from_edge(m: Mesh, pq: (Point3, Point3)) -> bool {
    exists|e: (usize, usize)|
        #[trigger] m.face_edge_set().contains(e) && m.vmap().dom().contains(e.0)
            && m.vmap().dom().contains(e.1) && pq == (
        m.vmap()[e.0].position,
        m.vmap()[e.1].position,
    )
}

/// Extending the edge range of one face by one edge.
pub proof fn lemma_norm_pairs_step(vs: Seq<usize>, k: int)
    requires
        0 <= k < vs.len(),
    ensures
        norm_pairs_upto(vs, k + 1) == norm_pairs_upto(vs, k).insert(
            norm_pair(face_cycle_pair(vs, k)),
        ),
{
    let pk = norm_pair(face_cycle_pair(vs, k));
    assert forall|e: (usize, usize)| norm_pairs_upto(vs, k + 1).contains(e) implies norm_pairs_upto(
        vs,
        k,
    ).insert(pk).contains(e) by {
        let i = choose|i: int| 0 <= i < k + 1 && e == norm_pair(#[trigger] face_cycle_pair(vs, i));
        if i < k {
            assert(norm_pairs_upto(vs, k).contains(e));
        }
    }
    assert forall|e: (usize, usize)| norm_pairs_upto(vs, k).insert(pk).contains(
        e,
    ) implies norm_pairs_upto(vs, k + 1).contains(e) by {
        if e == pk {
            assert(0 <= k < k + 1 && e == norm_pair(face_cycle_pair(vs, k)));
        } else {
            let i = choose|i: int| 0 <= i < k && e == norm_pair(#[trigger] face_cycle_pair(vs, i));
            assert(0 <= i < k + 1 && e == norm_pair(face_cycle_pair(vs, i)));
        }
    }
    assert(norm_pairs_upto(vs, k + 1) =~= norm_pairs_upto(vs, k).insert(pk));
}

/// Extending the face range by one whole face.
pub proof fn lemma_faces_edges_step(fs: Seq<(usize, Vec<usize>)>, fj: int)
    requires
        0 <= fj < fs.len(),
    ensures
        faces_edges_upto(fs, fj + 1) == faces_edges_upto(fs, fj).union(
            norm_pairs_upto(fs[fj].1@, fs[fj].1@.len() as int),
        ),
{
    let vs = fs[fj].1@;
    assert forall|e: (usize, usize)| faces_edges_upto(fs, fj + 1).contains(
        e,
    ) implies faces_edges_upto(fs, fj).union(norm_pairs_upto(vs, vs.len() as int)).contains(e) by {
        let (j, i) = choose|j: int, i: int|
            0 <= j < fj + 1 && 0 <= i < fs[j].1@.len() && e == norm_pair(
                #[trigger] face_cycle_pair(fs[j].1@, i),
            ) && 0 <= j < fs.len();
        if j < fj {
            assert(faces_edges_upto(fs, fj).contains(e));
        } else {
            assert(0 <= i < vs.len() && e == norm_pair(face_cycle_pair(vs, i)));
            assert(norm_pairs_upto(vs, vs.len() as int).contains(e));
        }
    }
    assert forall|e: (usize, usize)| faces_edges_upto(fs, fj).union(
        norm_pairs_upto(vs, vs.len() as int),
    ).contains(e) implies faces_edges_upto(fs, fj + 1).contains(e) by {
        if faces_edges_upto(fs, fj).contains(e) {
            let (j, i) = choose|j: int, i: int|
                0 <= j < fj && 0 <= i < fs[j].1@.len() && e == norm_pair(
                    #[trigger] face_cycle_pair(fs[j].1@, i),
                ) && 0 <= j < fs.len();
            assert(0 <= j < fj + 1 && 0 <= i < fs[j].1@.len() && e == norm_pair(
                face_cycle_pair(fs[j].1@, i),
            ));
        } else {
            let i = choose|i: int|
                0 <= i < vs.len() && e == norm_pair(#[trigger] face_cycle_pair(vs, i));
            assert(0 <= fj < fj + 1 && 0 <= i < fs[fj].1@.len() && e == norm_pair(
                face_cycle_pair(fs[fj].1@, i),
            ));
        }
    }
    assert(faces_edges_upto(fs, fj + 1) =~= faces_edges_upto(fs, fj).union(
        norm_pairs_upto(vs, vs.len() as int),
    ));
}


/// A single-triangle mesh — one face over three vertices, with the
/// six directed halfedges the face inserts — has exactly three
/// undirected edges and Euler characteristic one.
pub proof fn lemma_triangle_mesh(m: Mesh, f: usize, a: usize, b: usize, c: usize)
    requires
        m.wf(),
        a != b && b != c && a != c,
        m.vmap().dom() == set![a, b, c],
        m.fmap().dom() == set![f],
        m.hmap().dom() == set![(a, b), (b, c), (c, a), (b, a), (c, b), (a, c)],
    ensures
        m.spec_num_edges() == 3,
        m.spec_euler() == 1,
{
    let e1 = norm_pair((a, b));
    let e2 = norm_pair((b, c));
    let e3 = norm_pair((c, a));
    assert forall|e: (usize, usize)| m.edge_set().contains(e) implies set![e1, e2, e3].contains(
        e,
    ) by {
        let p = choose|p: (usize, usize)|
            m.hmap().dom().contains(p) && e == norm_pair(p);
        assert(norm_pair((b, a)) == e1 && norm_pair((c, b)) == e2 && norm_pair((a, c)) == e3);
    }
    assert forall|e: (usize, usize)| set![e1, e2, e3].contains(e) implies m.edge_set().contains(
        e,
    ) by {
        if e == e1 {
            assert(m.hmap().dom().contains((a, b)));
        } else if e == e2 {
            assert(m.hmap().dom().contains((b, c)));
        } else {
            assert(m.hmap().dom().contains((c, a)));
        }
    }
    assert(m.edge_set() =~= set![e1, e2, e3]);
    assert(e1 != e2 && e2 != e3 && e1 != e3);
    assert(set![e1, e2, e3] == Set::<(usize, usize)>::empty().insert(e1).insert(e2).insert(e3));
    vstd::set::axiom_set_insert_len(Set::<(usize, usize)>::empty().insert(e1).insert(e2), e3);
    vstd::set::axiom_set_insert_len(Set::<(usize, usize)>::empty().insert(e1), e2);
    vstd::set::axiom_set_insert_len(Set::<(usize, usize)>::empty(), e1);
    assert(m.spec_num_edges() == 3);
    assert(m.vmap().dom() == Set::<usize>::empty().insert(a).insert(b).insert(c));
    vstd::set::axiom_set_insert_len(Set::<usize>::empty().insert(a).insert(b), c);
    vstd::set::axiom_set_insert_len(Set::<usize>::empty().insert(a), b);
    vstd::set::axiom_set_insert_len(Set::<usize>::empty(), a);
    assert(m.vmap().dom().len() == 3);
    assert(m.fmap().dom() == Set::<usize>::empty().insert(f));
    vstd::set::axiom_set_insert_len(Set::<usize>::empty(), f);
    assert(m.fmap().dom().len() == 1);
}


/// The directed halfedges that the faces of a mesh draw: every
/// cyclic edge of every face, in both directions.
pub open spec fn face_halfedges(m: Mesh) -> Set<(usize, usize)> {
    Set::new(
        |p: (usize, usize)|
            exists|f: usize|
                #[trigger] m.fmap().dom().contains(f) && (fwd_pairs(m.fmap()[f]@).contains(p)
                    || rev_pairs(m.fmap()[f]@).contains(p)),
    )
}

/// A mesh without faces draws no halfedges.
pub proof fn lemma_face_halfedges_empty(m: Mesh)
    requires
        m.fmap().dom() == Set::<usize>::empty(),
    ensures
        face_halfedges(m) == Set::<(usize, usize)>::empty(),
{
    assert(face_halfedges(m) =~= Set::<(usize, usize)>::empty());
}

/// Inserting one fresh face extends the drawn halfedges by exactly
/// that face's directed edges, in both directions.
pub proof fn lemma_face_halfedges_insert(m0: Mesh, m1: Mesh, fk: usize, vs: Seq<usize>)
    requires
        m1.fmap().dom() == m0.fmap().dom().insert(fk),
        !m0.fmap().dom().contains(fk),
        m1.fmap()[fk]@ == vs,
        forall|j: usize|
            j != fk && m0.fmap().dom().contains(j) ==> m1.fmap()[j] == m0.fmap()[j],
        m0.hmap().dom() == face_halfedges(m0),
        m1.hmap().dom() == m0.hmap().dom().union(fwd_pairs(vs)).union(rev_pairs(vs)),
    ensures
        m1.hmap().dom() == face_halfedges(m1),
{
    assert forall|p: (usize, usize)| m1.hmap().dom().contains(p) implies face_halfedges(
        m1,
    ).contains(p) by {
        if m0.hmap().dom().contains(p) {
            let f = choose|f: usize|
                #[trigger] m0.fmap().dom().contains(f) && (fwd_pairs(m0.fmap()[f]@).contains(p)
                    || rev_pairs(m0.fmap()[f]@).contains(p));
            assert(f != fk);
            assert(m1.fmap().dom().contains(f) && (fwd_pairs(m1.fmap()[f]@).contains(p)
                || rev_pairs(m1.fmap()[f]@).contains(p)));
        } else {
            assert(m1.fmap().dom().contains(fk) && (fwd_pairs(m1.fmap()[fk]@).contains(p)
                || rev_pairs(m1.fmap()[fk]@).contains(p)));
        }
    }
    assert forall|p: (usize, usize)| face_halfedges(m1).contains(p) implies m1.hmap().dom().contains(
        p,
    ) by {
        let f = choose|f: usize|
            #[trigger] m1.fmap().dom().contains(f) && (fwd_pairs(m1.fmap()[f]@).contains(p)
                || rev_pairs(m1.fmap()[f]@).contains(p));
        if f == fk {
        } else {
            assert(m0.fmap().dom().contains(f));
            assert(m1.fmap()[f] == m0.fmap()[f]);
            assert(face_halfedges(m0).contains(p));
        }
    }
    assert(m1.hmap().dom() =~= face_halfedges(m1));
}

/// A halfedge mesh.
pub struct Mesh {
    /// Vertices: vertex key to vertex data.
    pub vertex: KeyMap<VertexData>,
    /// Faces: face key to the ordered cycle of its vertex keys.
    pub face: KeyMap<Vec<usize>>,
    /// Halfedges: the directed pair `(u, v)` maps to `Some(f)` when
    /// face `f` lies on the left of `u -> v`, and to `None` when that
    /// direction is a boundary.
    pub halfedge: EdgeMap<Option<usize>>,
    /// Face attributes, caller-populated.
    pub facedata: KeyMap<AttrList>,
    /// Edge attributes, caller-populated.
    pub edgedata: EdgeMap<AttrList>,
    /// Default vertex attributes.
    pub default_vertex_attributes: AttrList,
    /// Default face attributes.
    pub default_face_attributes: AttrList,
    /// Default edge attributes.
    pub default_edge_attributes: AttrList,
    /// Strict upper bound on every vertex key used so far; the source
    /// of fresh vertex keys.
    pub max_vertex: usize,
    /// Strict upper bound on every face key used so far; the source
    /// of fresh face keys.
    pub max_face: usize,
}

impl Mesh {
    /// The vertex map view.
    pub open spec fn vmap(self) -> Map<usize, VertexData> {
        self.vertex.as_map()
    }

    /// The face map view.
    pub open spec fn fmap(self) -> Map<usize, Vec<usize>> {
        self.face.as_map()
    }

    /// The halfedge map view.
    pub open spec fn hmap(self) -> Map<(usize, usize), Option<usize>> {
        self.halfedge.as_map()
    }

    /// The undirected edges: each present directed pair, normalized.
    pub open spec fn edge_set(self) -> Set<(usize, usize)> {
        self.hmap().dom().map(|p: (usize, usize)| norm_pair(p))
    }

    /// The undirected edges drawn by the faces: each consecutive
    /// pair of a face cycle, normalized.
    pub open spec fn face_edge_set(self) -> Set<(usize, usize)> {
        faces_edges_upto(self.face.kseq(), self.face.kseq().len() as int)
    }

    /// The number of undirected edges.
    pub open spec fn spec_num_edges(self) -> nat {
        self.edge_set().len()
    }

    /// The Euler characteristic `V - E + F`.
    pub open spec fn spec_euler(self) -> int {
        self.vmap().dom().len() - self.spec_num_edges() + self.fmap().dom().len()
    }

    /// Structural well-formedness.  Constructors establish it and
    /// every operation preserves it.
    pub open spec fn wf(self) -> bool {
        &&& self.vertex.wf()
        &&& self.face.wf()
        &&& self.halfedge.wf()
        &&& self.facedata.wf()
        &&& self.edgedata.wf()
        &&& self.default_vertex_attributes.wf()
        &&& self.default_face_attributes.wf()
        &&& self.default_edge_attributes.wf()
        &&& forall|f: usize|
            self.fmap().dom().contains(f) ==> face_input_valid(
                self.vmap(),
                (#[trigger] self.fmap()[f])@,
            )
        &&& forall|p: (usize, usize)|
            #[trigger] self.hmap().dom().contains(p) ==> p.0 != p.1 && self.vmap().dom().contains(
                p.0,
            ) && self.vmap().dom().contains(p.1) && self.hmap().dom().contains((p.1, p.0))
        &&& forall|p: (usize, usize)|
            self.hmap().dom().contains(p) && (#[trigger] self.hmap()[p]) is Some
                ==> self.fmap().dom().contains(self.hmap()[p]->Some_0)
        &&& forall|k: usize| self.vmap().dom().contains(k) ==> k < self.max_vertex
        &&& forall|k: usize| self.fmap().dom().contains(k) ==> k < self.max_face
        &&& forall|v: usize|
            self.vmap().dom().contains(v) ==> (#[trigger] self.vmap()[v]).attributes.wf()
        &&& forall|f: usize|
            self.facedata.as_map().dom().contains(f) ==> (#[trigger] self.facedata.as_map()[f]).wf()
        &&& forall|e: (usize, usize)|
            self.edgedata.as_map().dom().contains(e) ==> (#[trigger] self.edgedata.as_map()[e]).wf()
    }

    /// Create a new empty halfedge mesh.  The default vertex
    /// attributes carry zero payloads for the three coordinates.
    pub fn new() -> (m: Self)
        ensures
            m.wf(),
            m.vmap() == Map::<usize, VertexData>::empty(),
            m.fmap() == Map::<usize, Vec<usize>>::empty(),
            m.hmap() == Map::<(usize, usize), Option<usize>>::empty(),
            m.facedata.as_map() == Map::<usize, AttrList>::empty(),
            m.edgedata.as_map() == Map::<(usize, usize), AttrList>::empty(),
            m.default_vertex_attributes.as_map() == Map::<Seq<char>, u64>::empty().insert(
                "x"@,
                0u64,
            ).insert("y"@, 0u64).insert("z"@, 0u64),
            m.default_face_attributes.as_map() == Map::<Seq<char>, u64>::empty(),
            m.default_edge_attributes.as_map() == Map::<Seq<char>, u64>::empty(),
            m.max_vertex == 0 && m.max_face == 0,
            m.spec_num_edges() == 0,
            m.spec_euler() == 0,
    {
        let mut dva = AttrList::new();
        dva.set("x", 0);
        dva.set("y", 0);
        dva.set("z", 0);
        let m = Mesh {
            vertex: KeyMap::new(),
            face: KeyMap::new(),
            halfedge: EdgeMap::new(),
            facedata: KeyMap::new(),
            edgedata: EdgeMap::new(),
            default_vertex_attributes: dva,
            default_face_attributes: AttrList::new(),
            default_edge_attributes: AttrList::new(),
            max_vertex: 0,
            max_face: 0,
        };
        proof {
            assert(m.edge_set() =~= Set::<(usize, usize)>::empty());
            vstd::set_lib::lemma_set_empty_equivalency_len(m.edge_set());
        }
        m
    }

    /// Check if the mesh has no vertices and no faces.
    pub fn is_empty(&self) -> (b: bool)
        ensures
            b == (self.vertex.kseq().len() == 0 && self.face.kseq().len() == 0),
            self.wf() ==> b == (self.vmap().dom().len() == 0 && self.fmap().dom().len() == 0),
    {
        proof {
            if self.wf() {
                crate::keymap::lemma_assoc_len(self.vertex.kseq());
                crate::keymap::lemma_assoc_len(self.face.kseq());
            }
        }
        self.vertex.len() == 0 && self.face.len() == 0
    }

    /// The number of vertices.
    pub fn number_of_vertices(&self) -> (n: usize)
        ensures
            n == self.vertex.kseq().len(),
            self.wf() ==> n == self.vmap().dom().len(),
    {
        self.vertex.len()
    }

    /// The number of faces.
    pub fn number_of_faces(&self) -> (n: usize)
        ensures
            n == self.face.kseq().len(),
            self.wf() ==> n == self.fmap().dom().len(),
    {
        self.face.len()
    }

    /// Clear the mesh: all entity maps are emptied and the key
    /// counters reset; the default attribute lists stay.
    pub fn clear(&mut self)
        ensures
            old(self).wf() ==> final(self).wf(),
            final(self).vmap() == Map::<usize, VertexData>::empty(),
            final(self).fmap() == Map::<usize, Vec<usize>>::empty(),
            final(self).hmap() == Map::<(usize, usize), Option<usize>>::empty(),
            final(self).facedata.as_map() == Map::<usize, AttrList>::empty(),
            final(self).edgedata.as_map() == Map::<(usize, usize), AttrList>::empty(),
            final(self).default_vertex_attributes == old(self).default_vertex_attributes,
            final(self).default_face_attributes == old(self).default_face_attributes,
            final(self).default_edge_attributes == old(self).default_edge_attributes,
            final(self).max_vertex == 0 && final(self).max_face == 0,
    {
        self.halfedge.clear();
        self.vertex.clear();
        self.face.clear();
        self.facedata.clear();
        self.edgedata.clear();
        self.max_vertex = 0;
        self.max_face = 0;
    }

    /// Add a vertex at the given position, under the given key or a
    /// fresh one.  An existing vertex under the same explicit key is
    /// overwritten.  The key counter stays above every key ever used.
    pub fn add_vertex(&mut self, position: Point3, key: Option<usize>) -> (k: usize)
        requires
            old(self).wf(),
            match key {
                None => old(self).max_vertex + 2 <= usize::MAX,
                Some(k0) => k0 < usize::MAX,
            },
        ensures
            final(self).wf(),
            k == match key {
                None => (old(self).max_vertex + 1) as usize,
                Some(k0) => k0,
            },
            key is None ==> !old(self).vmap().dom().contains(k),
            final(self).vmap().dom() == old(self).vmap().dom().insert(k),
            final(self).vmap()[k].position == position,
            final(self).vmap()[k].attributes.kseq() == Seq::<(String, u64)>::empty(),
            forall|j: usize|
                j != k && old(self).vmap().dom().contains(j) ==> final(self).vmap()[j] == old(
                    self,
                ).vmap()[j],
            final(self).vertex.keys() == if old(self).vmap().dom().contains(k) {
                old(self).vertex.keys()
            } else {
                old(self).vertex.keys().push(k)
            },
            final(self).face == old(self).face,
            final(self).halfedge == old(self).halfedge,
            final(self).facedata == old(self).facedata,
            final(self).edgedata == old(self).edgedata,
            final(self).default_vertex_attributes == old(self).default_vertex_attributes,
            final(self).default_face_attributes == old(self).default_face_attributes,
            final(self).default_edge_attributes == old(self).default_edge_attributes,
            final(self).max_face == old(self).max_face,
            final(self).max_vertex == if k >= old(self).max_vertex {
                (k + 1) as usize
            } else {
                old(self).max_vertex
            },
            final(self).max_vertex >= old(self).max_vertex,
    {
        let vertex_key: usize = match key {
            None => self.max_vertex + 1,
            Some(k0) => k0,
        };
        if vertex_key >= self.max_vertex {
            self.max_vertex = vertex_key + 1;
        }
        let data = VertexData { position, attributes: AttrList::new() };
        self.vertex.insert(vertex_key, data);
        proof {
            let m0 = *old(self);
            let m1 = *self;
            assert(m1.vmap().dom() =~= m0.vmap().dom().insert(vertex_key));
            assert forall|f: usize| m1.fmap().dom().contains(f) implies face_input_valid(
                m1.vmap(),
                (#[trigger] m1.fmap()[f])@,
            ) by {
                assert(face_input_valid(m0.vmap(), (m0.fmap()[f])@));
                let vs = (m1.fmap()[f])@;
                assert forall|i: int| 0 <= i < vs.len() implies m1.vmap().dom().contains(
                    #[trigger] vs[i],
                ) by {
                    assert(m0.vmap().dom().contains(vs[i]));
                }
            }
            assert forall|p: (usize, usize)| #[trigger]
                m1.hmap().dom().contains(p) implies p.0 != p.1 && m1.vmap().dom().contains(p.0)
                && m1.vmap().dom().contains(p.1) && m1.hmap().dom().contains((p.1, p.0)) by {
                assert(m0.hmap().dom().contains(p));
                assert(m0.vmap().dom().contains(p.0) && m0.vmap().dom().contains(p.1));
            }
            assert forall|k: usize| m1.fmap().dom().contains(k) implies k < m1.max_face by {
                assert(m0.fmap().dom().contains(k));
            }
            assert forall|k: usize| m1.vmap().dom().contains(k) implies k < m1.max_vertex by {
                if k != vertex_key {
                    assert(m0.vmap().dom().contains(k));
                    assert(k < m0.max_vertex);
                }
            }
            assert forall|v: usize| m1.vmap().dom().contains(v) implies (#[trigger] m1.vmap()[v]).attributes.wf() by {
                if v != vertex_key {
                    assert(m0.vmap().dom().contains(v));
                    assert(m1.vmap()[v] == m0.vmap()[v]);
                    assert(m0.vmap()[v].attributes.wf());
                }
            }
            assert forall|f: usize| m1.facedata.as_map().dom().contains(f) implies (
            #[trigger] m1.facedata.as_map()[f]).wf() by {
                assert(m0.facedata.as_map().dom().contains(f));
                assert(m0.facedata.as_map()[f].wf());
            }
            assert forall|e: (usize, usize)| m1.edgedata.as_map().dom().contains(e) implies (
            #[trigger] m1.edgedata.as_map()[e]).wf() by {
                assert(m0.edgedata.as_map().dom().contains(e));
                assert(m0.edgedata.as_map()[e].wf());
            }
            assert(m1.wf());
        }
        vertex_key
    }

    /// Whether every key of a list is a vertex of this mesh.
    pub(crate) fn keys_all_exist(&self, vs: &Vec<usize>) -> (b: bool)
        ensures
            b == (forall|i: int| 0 <= i < vs@.len() ==> self.vmap().dom().contains(#[trigger] vs@[i])),
    {
        let n = vs.len();
        let mut i: usize = 0;
        while i < n
            invariant
                0 <= i <= n,
                n == vs@.len(),
                forall|j: int| 0 <= j < i ==> self.vmap().dom().contains(#[trigger] vs@[j]),
            decreases n - i,
        {
            if !self.vertex.contains_key(vs[i]) {
                return false;
            }
            i += 1;
        }
        true
    }

    /// Add a face over an ordered cycle of vertex keys, under the
    /// given key or a fresh one.
    ///
    /// Returns `None`, leaving the mesh untouched, exactly when the
    /// cycle has fewer than three vertices, repeats a vertex, or
    /// names a missing vertex.  On success the face is stored, every
    /// directed edge of the cycle points to the new face, and each
    /// opposite direction that was absent becomes a boundary
    /// halfedge.  An existing face under the same explicit key is
    /// overwritten.
    #[verifier::loop_isolation(false)]
    #[verifier::rlimit(60)]
    pub fn add_face(&mut self, vertices: Vec<usize>, fkey: Option<usize>) -> (r: Option<usize>)
        requires
            old(self).wf(),
            face_input_valid(old(self).vmap(), vertices@) ==> match fkey {
                None => old(self).max_face + 2 <= usize::MAX,
                Some(k0) => k0 < usize::MAX,
            },
        ensures
            final(self).wf(),
            r is Some <==> face_input_valid(old(self).vmap(), vertices@),
            r is None ==> *final(self) == *old(self),
            r is Some ==> {
                let fk = r->Some_0;
                &&& fk == match fkey {
                    None => (old(self).max_face + 1) as usize,
                    Some(k0) => k0,
                }
                &&& (fkey is None ==> !old(self).fmap().dom().contains(fk))
                &&& final(self).fmap().dom() == old(self).fmap().dom().insert(fk)
                &&& final(self).fmap()[fk]@ == vertices@
                &&& (forall|j: usize|
                    j != fk && old(self).fmap().dom().contains(j) ==> final(self).fmap()[j] == old(
                        self,
                    ).fmap()[j])
                &&& final(self).face.keys() == if old(self).fmap().dom().contains(fk) {
                    old(self).face.keys()
                } else {
                    old(self).face.keys().push(fk)
                }
                &&& final(self).hmap().dom() == old(self).hmap().dom().union(
                    fwd_pairs(vertices@),
                ).union(rev_pairs(vertices@))
                &&& (forall|p: (usize, usize)|
                    fwd_pairs(vertices@).contains(p) ==> final(self).hmap()[p] == Some(fk))
                &&& (forall|p: (usize, usize)|
                    #[trigger] final(self).hmap().dom().contains(p) && !fwd_pairs(
                        vertices@,
                    ).contains(p) ==> final(self).hmap()[p] == (if old(self).hmap().dom().contains(
                        p,
                    ) {
                        old(self).hmap()[p]
                    } else {
                        None::<usize>
                    }))
                &&& final(self).vertex == old(self).vertex
                &&& final(self).facedata == old(self).facedata
                &&& final(self).edgedata == old(self).edgedata
                &&& final(self).default_vertex_attributes == old(self).default_vertex_attributes
                &&& final(self).default_face_attributes == old(self).default_face_attributes
                &&& final(self).default_edge_attributes == old(self).default_edge_attributes
                &&& final(self).max_vertex == old(self).max_vertex
                &&& final(self).max_face == if fk >= old(self).max_face {
                    (fk + 1) as usize
                } else {
                    old(self).max_face
                }
            },
    {
        let ghost vs = vertices@;
        let n = vertices.len();
        if n < 3 {
            return None;
        }
        if !self.keys_all_exist(&vertices) {
            return None;
        }
        if has_duplicate(&vertices) {
            return None;
        }
        assert(face_input_valid(old(self).vmap(), vs));
        proof {
            lemma_cycle_pairs(vs);
        }
        let face_key: usize = match fkey {
            None => self.max_face + 1,
            Some(k0) => k0,
        };
        proof {
            if fkey is None {
                assert(!old(self).fmap().dom().contains(face_key));
            }
        }
        if face_key >= self.max_face {
            self.max_face = face_key + 1;
        }
        let stored = copy_keys(&vertices);
        self.face.insert(face_key, stored);
        proof {
            assert(self.fmap().dom() =~= old(self).fmap().dom().insert(face_key));
        }
        let ghost h0 = old(self).hmap();
        let ghost mid = *self;
        assert(self.hmap() == h0);
        let mut i: usize = 0;
        while i < n
            invariant
                0 <= i <= n,
                self.vertex == mid.vertex,
                self.face == mid.face,
                self.facedata == mid.facedata,
                self.edgedata == mid.edgedata,
                self.default_vertex_attributes == mid.default_vertex_attributes,
                self.default_face_attributes == mid.default_face_attributes,
                self.default_edge_attributes == mid.default_edge_attributes,
                self.max_vertex == mid.max_vertex,
                self.max_face == mid.max_face,
                self.halfedge.wf(),
                self.hmap().dom() == h0.dom().union(fwd_pairs_upto(vs, i as int)).union(
                    rev_pairs_upto(vs, i as int),
                ),
                forall|p: (usize, usize)|
                    fwd_pairs_upto(vs, i as int).contains(p) ==> self.hmap()[p] == Some(face_key),
                forall|p: (usize, usize)|
                    #[trigger] self.hmap().dom().contains(p) && !fwd_pairs_upto(
                        vs,
                        i as int,
                    ).contains(p) ==> self.hmap()[p] == (if h0.dom().contains(p) {
                        h0[p]
                    } else {
                        None::<usize>
                    }),
            decreases n - i,
        {
            proof {
                assert(fwd_pairs_upto(vs, 0int) =~= Set::<(usize, usize)>::empty());
                assert(rev_pairs_upto(vs, 0int) =~= Set::<(usize, usize)>::empty());
            }
            let ghost h_prev = self.hmap();
            let u = vertices[i];
            let v = if i + 1 == n {
                vertices[0]
            } else {
                vertices[i + 1]
            };
            proof {
                assert((u, v) == face_cycle_pair(vs, i as int));
            }
            let ghost pf = face_cycle_pair(vs, i as int);
            let ghost pr = (pf.1, pf.0);
            self.halfedge.insert(u, v, Some(face_key));
            let had_rev = self.halfedge.contains_pair(v, u);
            if !had_rev {
                self.halfedge.insert(v, u, None);
            }
            proof {
                lemma_pairs_upto_step(vs, i as int);
                let hn = self.hmap();
                // The reverse direction, when it was already present,
                // came from the untouched part of the map.
                if had_rev {
                    assert(h_prev.dom().contains(pr) || pr == pf);
                    assert(pr != pf);
                    assert(!fwd_pairs_upto(vs, i as int).contains(pr));
                    assert(hn.dom() =~= h_prev.dom().insert(pf));
                } else {
                    assert(hn.dom() =~= h_prev.dom().insert(pf).insert(pr));
                }
                assert(hn.dom() =~= h0.dom().union(fwd_pairs_upto(vs, i as int + 1)).union(
                    rev_pairs_upto(vs, i as int + 1),
                ));
                assert forall|p: (usize, usize)|
                    fwd_pairs_upto(vs, i as int + 1).contains(p) implies hn[p] == Some(
                    face_key,
                ) by {
                    if p == pf {
                        assert(pr != pf);
                    } else {
                        assert(fwd_pairs_upto(vs, i as int).contains(p));
                        let j = choose|j: int| 0 <= j < i && p == face_cycle_pair(vs, j);
                        assert(p != pf);
                        assert(p != pr);
                    }
                }
                assert forall|p: (usize, usize)|
                    #[trigger] hn.dom().contains(p) && !fwd_pairs_upto(vs, i as int + 1).contains(
                        p,
                    ) implies hn[p] == (if h0.dom().contains(p) {
                    h0[p]
                } else {
                    None::<usize>
                }) by {
                    assert(p != pf);
                    if p == pr {
                        if had_rev {
                            assert(h_prev.dom().contains(p));
                            assert(!fwd_pairs_upto(vs, i as int).contains(p));
                            assert(hn[p] == h_prev[p]);
                        } else {
                            assert(hn[p] == None::<usize>);
                            assert(!h_prev.dom().contains(p));
                            assert(!h0.dom().contains(p));
                        }
                    } else {
                        assert(hn[p] == h_prev[p]);
                        assert(h_prev.dom().contains(p));
                        assert(!fwd_pairs_upto(vs, i as int).contains(p));
                    }
                }
            }
            i += 1;
        }
        proof {
            assert(fwd_pairs_upto(vs, n as int) == fwd_pairs(vs));
            assert(rev_pairs_upto(vs, n as int) == rev_pairs(vs));
            let m1 = *self;
            let m0 = *old(self);
            // Well-formedness of the result.
            assert forall|f: usize| m1.fmap().dom().contains(f) implies face_input_valid(
                m1.vmap(),
                (#[trigger] m1.fmap()[f])@,
            ) by {
                if f == face_key {
                    assert(m1.fmap()[f]@ == vs);
                } else {
                    assert(m0.fmap().dom().contains(f));
                    assert(m1.fmap()[f] == m0.fmap()[f]);
                    assert(face_input_valid(m0.vmap(), (m0.fmap()[f])@));
                }
            }
            assert forall|p: (usize, usize)| #[trigger]
                m1.hmap().dom().contains(p) implies p.0 != p.1 && m1.vmap().dom().contains(p.0)
                && m1.vmap().dom().contains(p.1) && m1.hmap().dom().contains((p.1, p.0)) by {
                if h0.dom().contains(p) {
                    assert(m0.hmap().dom().contains((p.1, p.0)));
                } else if fwd_pairs(vs).contains(p) {
                    let j = choose|j: int| 0 <= j < vs.len() && p == face_cycle_pair(vs, j);
                    assert(m1.vmap().dom().contains(vs[j]));
                    assert(rev_pairs(vs).contains((p.1, p.0)));
                } else {
                    let j = choose|j: int|
                        0 <= j < vs.len() && p == (face_cycle_pair(vs, j).1, face_cycle_pair(
                            vs,
                            j,
                        ).0);
                    assert(m1.vmap().dom().contains(vs[j]));
                    assert(fwd_pairs(vs).contains((p.1, p.0)));
                }
            }
            assert forall|p: (usize, usize)|
                m1.hmap().dom().contains(p) && (#[trigger] m1.hmap()[p]) is Some implies m1.fmap(
            ).dom().contains(m1.hmap()[p]->Some_0) by {
                if fwd_pairs(vs).contains(p) {
                    assert(m1.hmap()[p] == Some(face_key));
                } else {
                    assert(m1.hmap()[p] == (if h0.dom().contains(p) {
                        h0[p]
                    } else {
                        None::<usize>
                    }));
                    assert(h0.dom().contains(p));
                    assert(m0.fmap().dom().contains(m0.hmap()[p]->Some_0));
                }
            }
            assert forall|k: usize| m1.fmap().dom().contains(k) implies k < m1.max_face by {
                if k != face_key {
                    assert(m0.fmap().dom().contains(k));
                    assert(k < m0.max_face);
                }
            }
            assert forall|k: usize| m1.vmap().dom().contains(k) implies k < m1.max_vertex by {
                assert(m0.vmap().dom().contains(k));
            }
            assert forall|v: usize| m1.vmap().dom().contains(v) implies (#[trigger] m1.vmap()[v]).attributes.wf() by {
                assert(m0.vmap().dom().contains(v));
                assert(m1.vmap()[v] == m0.vmap()[v]);
                assert(m0.vmap()[v].attributes.wf());
            }
            assert forall|f: usize| m1.facedata.as_map().dom().contains(f) implies (
            #[trigger] m1.facedata.as_map()[f]).wf() by {
                assert(m0.facedata.as_map().dom().contains(f));
                assert(m0.facedata.as_map()[f].wf());
            }
            assert forall|e: (usize, usize)| m1.edgedata.as_map().dom().contains(e) implies (
            #[trigger] m1.edgedata.as_map()[e]).wf() by {
                assert(m0.edgedata.as_map().dom().contains(e));
                assert(m0.edgedata.as_map()[e].wf());
            }
            assert(m1.wf());
        }
        Some(face_key)
    }


    /// Store a named attribute payload on a vertex.  Returns whether
    /// the vertex exists; a missing vertex leaves the mesh untouched.
    pub fn set_vertex_attribute(&mut self, vertex_key: usize, name: &str, value: u64) -> (r: bool)
        requires
            old(self).wf(),
        ensures
            final(self).wf(),
            r == old(self).vmap().dom().contains(vertex_key),
            !r ==> *final(self) == *old(self),
            r ==> {
                &&& final(self).vmap().dom() == old(self).vmap().dom()
                &&& final(self).vmap()[vertex_key].position == old(self).vmap()[vertex_key].position
                &&& final(self).vmap()[vertex_key].attributes.wf()
                &&& final(self).vmap()[vertex_key].attributes.as_map() == old(self).vmap()[vertex_key].attributes.as_map().insert(name@, value)
                &&& (forall|j: usize|
                    j != vertex_key && old(self).vmap().dom().contains(j) ==> final(self).vmap()[j]
                        == old(self).vmap()[j])
                &&& final(self).face == old(self).face
                &&& final(self).halfedge == old(self).halfedge
                &&& final(self).max_vertex == old(self).max_vertex
                &&& final(self).max_face == old(self).max_face
            },
    {
        let (pos, mut attrs) = match self.vertex.get(vertex_key) {
            None => {
                return false;
            },
            Some(vd) => (vd.position, vd.attributes.duplicate()),
        };
        proof {
            assert(old(self).vmap()[vertex_key].attributes.wf());
            assert(attrs.wf());
        }
        attrs.set(name, value);
        self.vertex.insert(vertex_key, VertexData { position: pos, attributes: attrs });
        proof {
            let m0 = *old(self);
            let m1 = *self;
            assert(m1.vmap().dom() =~= m0.vmap().dom().insert(vertex_key));
            assert(m1.vmap().dom() =~= m0.vmap().dom());
            assert forall|f: usize| m1.fmap().dom().contains(f) implies face_input_valid(
                m1.vmap(),
                (#[trigger] m1.fmap()[f])@,
            ) by {
                assert(face_input_valid(m0.vmap(), (m0.fmap()[f])@));
                let vs = (m1.fmap()[f])@;
                assert forall|i: int| 0 <= i < vs.len() implies m1.vmap().dom().contains(
                    #[trigger] vs[i],
                ) by {
                    assert(m0.vmap().dom().contains(vs[i]));
                }
            }
            assert forall|p: (usize, usize)| #[trigger]
                m1.hmap().dom().contains(p) implies p.0 != p.1 && m1.vmap().dom().contains(p.0)
                && m1.vmap().dom().contains(p.1) && m1.hmap().dom().contains((p.1, p.0)) by {
                assert(m0.hmap().dom().contains(p));
            }
            assert forall|k: usize| m1.vmap().dom().contains(k) implies k < m1.max_vertex by {
                assert(m0.vmap().dom().contains(k));
            }
            assert forall|k: usize| m1.fmap().dom().contains(k) implies k < m1.max_face by {
                assert(m0.fmap().dom().contains(k));
            }
            assert forall|v: usize| m1.vmap().dom().contains(v) implies (#[trigger] m1.vmap()[v]).attributes.wf() by {
                if v != vertex_key {
                    assert(m0.vmap().dom().contains(v));
                    assert(m1.vmap()[v] == m0.vmap()[v]);
                    assert(m0.vmap()[v].attributes.wf());
                }
            }
            assert forall|f: usize| m1.facedata.as_map().dom().contains(f) implies (
            #[trigger] m1.facedata.as_map()[f]).wf() by {
                assert(m0.facedata.as_map().dom().contains(f));
                assert(m0.facedata.as_map()[f].wf());
            }
            assert forall|e: (usize, usize)| m1.edgedata.as_map().dom().contains(e) implies (
            #[trigger] m1.edgedata.as_map()[e]).wf() by {
                assert(m0.edgedata.as_map().dom().contains(e));
                assert(m0.edgedata.as_map()[e].wf());
            }
            assert(m1.wf());
        }
        true
    }

    /// The number of undirected edges: each pair of directed
    /// halfedges between two vertices counts once.
    #[verifier::loop_isolation(false)]
    pub fn number_of_edges(&self) -> (n: usize)
        ensures
            n == self.spec_num_edges(),
    {
        let ghost keys = self.halfedge.keys();
        let m = self.halfedge.len();
        let mut seen: Vec<(usize, usize)> = Vec::new();
        let mut count: usize = 0;
        let mut i: usize = 0;
        while i < m
            invariant
                0 <= i <= m,
                seen@.no_duplicates(),
                count == seen@.len(),
                seen@.len() <= i,
                seen@.to_set() == keys.take(i as int).map_values(
                    |p: (usize, usize)| norm_pair(p),
                ).to_set(),
            decreases m - i,
        {
            let e = self.halfedge.entry_at(i);
            let key = if e.0 < e.1 {
                (e.0, e.1)
            } else {
                (e.1, e.0)
            };
            proof {
                assert(key == norm_pair(keys[i as int]));
                assert(keys.take(i as int + 1).map_values(|p: (usize, usize)| norm_pair(p)) =~= keys.take(
                    i as int,
                ).map_values(|p: (usize, usize)| norm_pair(p)).push(key));
            }
            let ghost seen_old = seen@;
            if !pair_vec_contains(&seen, key.0, key.1) {
                seen.push(key);
                count += 1;
                proof {
                    assert(seen@.drop_last() =~= seen_old);
                    assert(seen@.to_set() =~= seen_old.to_set().insert(key)) by {
                        seen_old.lemma_push_to_set_commute(key);
                    }
                    assert(keys.take(i as int).map_values(|p: (usize, usize)| norm_pair(p)).push(
                        key,
                    ).to_set() =~= seen_old.to_set().insert(key)) by {
                        keys.take(i as int).map_values(
                            |p: (usize, usize)| norm_pair(p),
                        ).lemma_push_to_set_commute(key);
                    }
                }
            } else {
                proof {
                    assert(seen_old.to_set().contains(key));
                    assert(keys.take(i as int).map_values(|p: (usize, usize)| norm_pair(p)).push(
                        key,
                    ).to_set() =~= seen_old.to_set()) by {
                        keys.take(i as int).map_values(
                            |p: (usize, usize)| norm_pair(p),
                        ).lemma_push_to_set_commute(key);
                    }
                }
            }
            i += 1;
        }
        proof {
            assert(keys.take(m as int) =~= keys);
            lemma_passoc_dom(self.halfedge.kseq());
            keys.lemma_to_set_map_commutes(|p: (usize, usize)| norm_pair(p));
            assert(self.edge_set() == seen@.to_set());
            seen@.unique_seq_to_set();
        }
        count
    }

    /// Compute the Euler characteristic `V - E + F` of the mesh.
    pub fn euler(&self) -> (e: i128)
        requires
            self.wf(),
        ensures
            e == self.spec_euler(),
    {
        let v = self.number_of_vertices();
        let ed = self.number_of_edges();
        let f = self.number_of_faces();
        (v as i128) - (ed as i128) + (f as i128)
    }

    /// Get the position of a vertex, if the vertex exists.
    pub fn vertex_position(&self, vertex_key: usize) -> (r: Option<Point3>)
        requires
            self.wf(),
        ensures
            r == if self.vmap().dom().contains(vertex_key) {
                Some(self.vmap()[vertex_key].position)
            } else {
                None::<Point3>
            },
    {
        match self.vertex.get(vertex_key) {
            Some(vd) => Some(vd.position),
            None => None,
        }
    }

    /// Get the ordered vertex keys of a face, if the face exists.
    pub fn face_vertices(&self, face_key: usize) -> (r: Option<&Vec<usize>>)
        requires
            self.wf(),
        ensures
            match r {
                Some(v) => self.fmap().dom().contains(face_key) && *v == self.fmap()[face_key],
                None => !self.fmap().dom().contains(face_key),
            },
    {
        self.face.get(face_key)
    }

    /// All faces, as pairs of a face key and its vertex cycle, in
    /// insertion order.
    pub fn get_face_data(&self) -> (r: Vec<(usize, Vec<usize>)>)
        ensures
            r@.len() == self.face.kseq().len(),
            forall|i: int|
                0 <= i < r@.len() ==> (#[trigger] r@[i]).0 == self.face.keys()[i] && r@[i].1@
                    == self.face.kseq()[i].1@,
    {
        let n = self.face.len();
        let mut r: Vec<(usize, Vec<usize>)> = Vec::new();
        let mut i: usize = 0;
        while i < n
            invariant
                0 <= i <= n,
                n == self.face.kseq().len(),
                r@.len() == i,
                forall|j: int|
                    0 <= j < i ==> (#[trigger] r@[j]).0 == self.face.keys()[j] && r@[j].1@
                        == self.face.kseq()[j].1@,
            decreases n - i,
        {
            let k = self.face.key_at(i);
            let vs = copy_keys(self.face.value_at(i));
            r.push((k, vs));
            i += 1;
        }
        r
    }

    /// Check if a vertex is on the boundary: some outgoing halfedge
    /// carries no face.
    #[verifier::loop_isolation(false)]
    pub fn is_vertex_on_boundary(&self, vertex_key: usize) -> (b: bool)
        requires
            self.wf(),
        ensures
            b == exists|w: usize|
                #[trigger] self.hmap().dom().contains((vertex_key, w)) && self.hmap()[
                    (vertex_key, w)
                ] is None,
    {
        let m = self.halfedge.len();
        let mut i: usize = 0;
        while i < m
            invariant
                0 <= i <= m,
                forall|j: int|
                    0 <= j < i ==> !((#[trigger] self.halfedge.kseq()[j]).0 == vertex_key
                        && self.halfedge.kseq()[j].2 is None),
            decreases m - i,
        {
            let e = self.halfedge.entry_at(i);
            if e.0 == vertex_key && e.2.is_none() {
                proof {
                    assert(self.hmap().dom().contains((vertex_key, e.1)) && self.hmap()[
                        (vertex_key, e.1)
                    ] is None);
                }
                return true;
            }
            i += 1;
        }
        proof {
            assert forall|w: usize| #[trigger]
                self.hmap().dom().contains((vertex_key, w)) implies self.hmap()[
                (vertex_key, w)
            ] is Some by {
                lemma_passoc_dom(self.halfedge.kseq());
                assert(self.halfedge.keys().contains((vertex_key, w)));
                let j = choose|j: int|
                    0 <= j < self.halfedge.keys().len() && self.halfedge.keys()[j] == (
                    vertex_key,
                    w,
                    );
                assert(self.halfedge.kseq()[j].0 == vertex_key && self.halfedge.kseq()[j].1 == w);
                lemma_passoc_get(self.halfedge.kseq(), j);
            }
        }
        false
    }

    /// The vertices reachable from a vertex along one halfedge, in
    /// first-seen order, without repetition.
    #[verifier::loop_isolation(false)]
    pub fn vertex_neighbors(&self, vertex_key: usize) -> (r: Vec<usize>)
        requires
            self.wf(),
        ensures
            r@.no_duplicates(),
            forall|w: usize|
                #[trigger] r@.contains(w) <==> self.hmap().dom().contains((vertex_key, w)),
    {
        let m = self.halfedge.len();
        let mut r: Vec<usize> = Vec::new();
        let mut i: usize = 0;
        while i < m
            invariant
                0 <= i <= m,
                r@.no_duplicates(),
                forall|w: usize|
                    #[trigger] r@.contains(w) <==> exists|j: int|
                        0 <= j < i && (#[trigger] self.halfedge.kseq()[j]).0 == vertex_key
                            && self.halfedge.kseq()[j].1 == w,
            decreases m - i,
        {
            let e = self.halfedge.entry_at(i);
            let ghost r_old = r@;
            if e.0 == vertex_key {
                proof {
                    if r_old.contains(e.1) {
                        let j = choose|j: int|
                            0 <= j < i && (#[trigger] self.halfedge.kseq()[j]).0 == vertex_key
                                && self.halfedge.kseq()[j].1 == e.1;
                        assert(self.halfedge.keys()[j] == (vertex_key, e.1));
                        assert(self.halfedge.keys()[i as int] == (vertex_key, e.1));
                        assert(false);
                    }
                }
                r.push(e.1);
                proof {
                    assert forall|w: usize| #[trigger] r@.contains(w) implies exists|j: int|
                        0 <= j < i + 1 && (#[trigger] self.halfedge.kseq()[j]).0 == vertex_key
                            && self.halfedge.kseq()[j].1 == w by {
                        if r_old.contains(w) {
                            let j = choose|j: int|
                                0 <= j < i && (#[trigger] self.halfedge.kseq()[j]).0 == vertex_key
                                    && self.halfedge.kseq()[j].1 == w;
                            assert(0 <= j < i + 1 && self.halfedge.kseq()[j].0 == vertex_key
                                && self.halfedge.kseq()[j].1 == w);
                        } else {
                            let idx = choose|idx: int| 0 <= idx < r@.len() && r@[idx] == w;
                            assert(idx == r@.len() - 1);
                            assert(w == e.1);
                            assert(0 <= i < i + 1 && self.halfedge.kseq()[i as int].0 == vertex_key
                                && self.halfedge.kseq()[i as int].1 == w);
                        }
                    }
                    assert forall|w: usize|
                        (exists|j: int|
                            0 <= j < i + 1 && (#[trigger] self.halfedge.kseq()[j]).0 == vertex_key
                                && self.halfedge.kseq()[j].1 == w) implies #[trigger] r@.contains(
                        w,
                    ) by {
                        let j = choose|j: int|
                            0 <= j < i + 1 && (#[trigger] self.halfedge.kseq()[j]).0 == vertex_key
                                && self.halfedge.kseq()[j].1 == w;
                        if j < i {
                            assert(r_old.contains(w));
                            let idx = choose|idx: int| 0 <= idx < r_old.len() && r_old[idx] == w;
                            assert(r@[idx] == w);
                        } else {
                            assert(r@[r@.len() - 1] == w);
                        }
                    }
                }
            } else {
                proof {
                    assert forall|w: usize|
                        (exists|j: int|
                            0 <= j < i + 1 && (#[trigger] self.halfedge.kseq()[j]).0 == vertex_key
                                && self.halfedge.kseq()[j].1 == w) implies #[trigger] r@.contains(
                        w,
                    ) by {
                        let j = choose|j: int|
                            0 <= j < i + 1 && (#[trigger] self.halfedge.kseq()[j]).0 == vertex_key
                                && self.halfedge.kseq()[j].1 == w;
                        assert(j < i);
                    }
                }
            }
            i += 1;
        }
        proof {
            lemma_passoc_dom(self.halfedge.kseq());
            assert forall|w: usize| #[trigger]
                r@.contains(w) <==> self.hmap().dom().contains((vertex_key, w)) by {
                if r@.contains(w) {
                    let j = choose|j: int|
                        0 <= j < m && (#[trigger] self.halfedge.kseq()[j]).0 == vertex_key
                            && self.halfedge.kseq()[j].1 == w;
                    assert(self.halfedge.keys()[j] == (vertex_key, w));
                    assert(self.halfedge.keys().to_set().contains((vertex_key, w)));
                }
                if self.hmap().dom().contains((vertex_key, w)) {
                    assert(self.halfedge.keys().contains((vertex_key, w)));
                    let j = choose|j: int|
                        0 <= j < self.halfedge.keys().len() && self.halfedge.keys()[j] == (
                        vertex_key,
                        w,
                        );
                    assert(self.halfedge.kseq()[j].0 == vertex_key && self.halfedge.kseq()[j].1
                        == w);
                }
            }
        }
        r
    }

    /// The faces whose cycle contains a vertex, in insertion order,
    /// without repetition.
    #[verifier::loop_isolation(false)]
    pub fn vertex_faces(&self, vertex_key: usize) -> (r: Vec<usize>)
        requires
            self.wf(),
        ensures
            r@.no_duplicates(),
            forall|f: usize|
                #[trigger] r@.contains(f) <==> self.fmap().dom().contains(f) && self.fmap()[
                    f
                ]@.contains(vertex_key),
    {
        let n = self.face.len();
        let mut r: Vec<usize> = Vec::new();
        let mut i: usize = 0;
        while i < n
            invariant
                0 <= i <= n,
                n == self.face.kseq().len(),
                r@.no_duplicates(),
                forall|f: usize|
                    #[trigger] r@.contains(f) <==> exists|j: int|
                        0 <= j < i && (#[trigger] self.face.kseq()[j]).0 == f
                            && self.face.kseq()[j].1@.contains(vertex_key),
            decreases n - i,
        {
            let ghost r_old = r@;
            let k = self.face.key_at(i);
            let hit = vec_contains_key(self.face.value_at(i), vertex_key);
            if hit {
                proof {
                    if r_old.contains(k) {
                        let j = choose|j: int|
                            0 <= j < i && (#[trigger] self.face.kseq()[j]).0 == k
                                && self.face.kseq()[j].1@.contains(vertex_key);
                        assert(self.face.keys()[j] == k);
                        assert(self.face.keys()[i as int] == k);
                        assert(false);
                    }
                }
                r.push(k);
                proof {
                    assert forall|f: usize| #[trigger] r@.contains(f) implies exists|j: int|
                        0 <= j < i + 1 && (#[trigger] self.face.kseq()[j]).0 == f
                            && self.face.kseq()[j].1@.contains(vertex_key) by {
                        if r_old.contains(f) {
                            let j = choose|j: int|
                                0 <= j < i && (#[trigger] self.face.kseq()[j]).0 == f
                                    && self.face.kseq()[j].1@.contains(vertex_key);
                            assert(0 <= j < i + 1 && self.face.kseq()[j].0 == f
                                && self.face.kseq()[j].1@.contains(vertex_key));
                        } else {
                            let idx = choose|idx: int| 0 <= idx < r@.len() && r@[idx] == f;
                            assert(idx == r@.len() - 1);
                            assert(f == k);
                            assert(0 <= i < i + 1 && self.face.kseq()[i as int].0 == f
                                && self.face.kseq()[i as int].1@.contains(vertex_key));
                        }
                    }
                    assert forall|f: usize|
                        (exists|j: int|
                            0 <= j < i + 1 && (#[trigger] self.face.kseq()[j]).0 == f
                                && self.face.kseq()[j].1@.contains(
                                vertex_key,
                            )) implies #[trigger] r@.contains(f) by {
                        let j = choose|j: int|
                            0 <= j < i + 1 && (#[trigger] self.face.kseq()[j]).0 == f
                                && self.face.kseq()[j].1@.contains(vertex_key);
                        if j < i {
                            assert(r_old.contains(f));
                            let idx = choose|idx: int| 0 <= idx < r_old.len() && r_old[idx] == f;
                            assert(r@[idx] == f);
                        } else {
                            assert(r@[r@.len() - 1] == f);
                        }
                    }
                }
            } else {
                proof {
                    assert forall|f: usize|
                        (exists|j: int|
                            0 <= j < i + 1 && (#[trigger] self.face.kseq()[j]).0 == f
                                && self.face.kseq()[j].1@.contains(
                                vertex_key,
                            )) implies #[trigger] r@.contains(f) by {
                        let j = choose|j: int|
                            0 <= j < i + 1 && (#[trigger] self.face.kseq()[j]).0 == f
                                && self.face.kseq()[j].1@.contains(vertex_key);
                        assert(j < i);
                    }
                }
            }
            i += 1;
        }
        proof {
            crate::keymap::lemma_assoc_dom(self.face.kseq());
            assert forall|f: usize| #[trigger]
                r@.contains(f) <==> self.fmap().dom().contains(f) && self.fmap()[f]@.contains(
                    vertex_key,
                ) by {
                if r@.contains(f) {
                    let j = choose|j: int|
                        0 <= j < n && (#[trigger] self.face.kseq()[j]).0 == f
                            && self.face.kseq()[j].1@.contains(vertex_key);
                    assert(self.face.keys()[j] == f);
                    assert(self.face.keys().to_set().contains(f));
                    crate::keymap::lemma_assoc_get(self.face.kseq(), j);
                }
                if self.fmap().dom().contains(f) && self.fmap()[f]@.contains(vertex_key) {
                    assert(self.face.keys().contains(f));
                    let j = choose|j: int|
                        0 <= j < self.face.keys().len() && self.face.keys()[j] == f;
                    crate::keymap::lemma_assoc_get(self.face.kseq(), j);
                    assert(self.face.kseq()[j].0 == f);
                    assert(self.face.kseq()[j].1 == self.fmap()[f]);
                }
            }
        }
        r
    }

    /// Extract all unique face edges as endpoint-position pairs, in
    /// first-seen order while walking the faces.
    #[verifier::loop_isolation(false)]
    #[verifier::rlimit(100)]
    pub fn extract_edges_as_lines(&self) -> (r: Vec<(Point3, Point3)>)
        requires
            self.wf(),
        ensures
            r@.len() == self.face_edge_set().len(),
            forall|x: int| 0 <= x < r@.len() ==> line_from_edge(*self, #[trigger] r@[x]),
    {
        let nf = self.face.len();
        let mut seen: Vec<(usize, usize)> = Vec::new();
        let mut lines: Vec<(Point3, Point3)> = Vec::new();
        let mut fj: usize = 0;
        proof {
            assert(faces_edges_upto(self.face.kseq(), 0int) =~= Set::<(usize, usize)>::empty());
        }
        while fj < nf
            invariant
                0 <= fj <= nf,
                nf == self.face.kseq().len(),
                seen@.no_duplicates(),
                lines@.len() == seen@.len(),
                seen@.to_set() == faces_edges_upto(self.face.kseq(), fj as int),
                forall|x: int|
                    0 <= x < seen@.len() ==> faces_edges_upto(self.face.kseq(), fj as int).contains(
                        #[trigger] seen@[x],
                    ) && self.vmap().dom().contains(seen@[x].0) && self.vmap().dom().contains(
                        seen@[x].1,
                    ) && lines@[x] == (
                        self.vmap()[seen@[x].0].position,
                        self.vmap()[seen@[x].1].position,
                    ),
            decreases nf - fj,
        {
            let face_vs = self.face.value_at(fj);
            let fvn = face_vs.len();
            let ghost vs = face_vs@;
            proof {
                crate::keymap::lemma_assoc_get(self.face.kseq(), fj as int);
                assert(self.fmap().dom().contains(self.face.keys()[fj as int]));
                assert(face_input_valid(self.vmap(), vs));
                assert(norm_pairs_upto(vs, 0int) =~= Set::<(usize, usize)>::empty());
                lemma_cycle_pairs(vs);
            }
            let mut vi: usize = 0;
            while vi < fvn
                invariant
                    0 <= vi <= fvn,
                    0 <= fj < nf,
                    nf == self.face.kseq().len(),
                    fvn == vs.len(),
                    vs == self.face.kseq()[fj as int].1@,
                    face_input_valid(self.vmap(), vs),
                    seen@.no_duplicates(),
                    lines@.len() == seen@.len(),
                    seen@.to_set() == faces_edges_upto(self.face.kseq(), fj as int).union(
                        norm_pairs_upto(vs, vi as int),
                    ),
                    forall|x: int|
                        0 <= x < seen@.len() ==> (faces_edges_upto(
                            self.face.kseq(),
                            fj as int,
                        ).union(norm_pairs_upto(vs, vi as int))).contains(#[trigger] seen@[x])
                            && self.vmap().dom().contains(seen@[x].0)
                            && self.vmap().dom().contains(seen@[x].1) && lines@[x] == (
                            self.vmap()[seen@[x].0].position,
                            self.vmap()[seen@[x].1].position,
                        ),
                decreases fvn - vi,
            {
                let v1 = face_vs[vi];
                let v2 = if vi + 1 == fvn {
                    face_vs[0]
                } else {
                    face_vs[vi + 1]
                };
                let edge = if v1 < v2 {
                    (v1, v2)
                } else {
                    (v2, v1)
                };
                proof {
                    assert((v1, v2) == face_cycle_pair(vs, vi as int));
                    assert(edge == norm_pair(face_cycle_pair(vs, vi as int)));
                    lemma_norm_pairs_step(vs, vi as int);
                    assert(self.vmap().dom().contains(v1) && self.vmap().dom().contains(v2));
                }
                let ghost seen_old = seen@;
                if !pair_vec_contains(&seen, edge.0, edge.1) {
                    let p1 = match self.vertex.get(edge.0) {
                        Some(vd) => vd.position,
                        None => {
                            proof {
                                assert(false);
                            }
                            Point3 { x: 0, y: 0, z: 0 }
                        },
                    };
                    let p2 = match self.vertex.get(edge.1) {
                        Some(vd) => vd.position,
                        None => {
                            proof {
                                assert(false);
                            }
                            Point3 { x: 0, y: 0, z: 0 }
                        },
                    };
                    seen.push(edge);
                    lines.push((p1, p2));
                    proof {
                        seen_old.lemma_push_to_set_commute(edge);
                        assert(seen@.to_set() =~= faces_edges_upto(
                            self.face.kseq(),
                            fj as int,
                        ).union(norm_pairs_upto(vs, vi as int + 1)));
                        assert forall|x: int|
                            0 <= x < seen@.len() implies (faces_edges_upto(
                            self.face.kseq(),
                            fj as int,
                        ).union(norm_pairs_upto(vs, vi as int + 1))).contains(#[trigger] seen@[x])
                            && self.vmap().dom().contains(seen@[x].0)
                            && self.vmap().dom().contains(seen@[x].1) && lines@[x] == (
                            self.vmap()[seen@[x].0].position,
                            self.vmap()[seen@[x].1].position,
                        ) by {
                            if x < seen_old.len() {
                                assert(seen@[x] == seen_old[x]);
                                assert(lines@[x] == (
                                    self.vmap()[seen_old[x].0].position,
                                    self.vmap()[seen_old[x].1].position,
                                ));
                            } else {
                                assert(seen@[x] == edge);
                            }
                        }
                    }
                } else {
                    proof {
                        assert(seen_old.to_set().contains(edge));
                        assert(seen@.to_set() =~= faces_edges_upto(
                            self.face.kseq(),
                            fj as int,
                        ).union(norm_pairs_upto(vs, vi as int + 1)));
                    }
                }
                vi += 1;
            }
            proof {
                lemma_faces_edges_step(self.face.kseq(), fj as int);
                assert(norm_pairs_upto(vs, fvn as int) == norm_pairs_upto(vs, vs.len() as int));
                assert(seen@.to_set() =~= faces_edges_upto(self.face.kseq(), fj as int + 1));
            }
            fj += 1;
        }
        proof {
            seen@.unique_seq_to_set();
            assert forall|x: int| 0 <= x < lines@.len() implies line_from_edge(
                *self,
                #[trigger] lines@[x],
            ) by {
                assert(self.face_edge_set().contains(seen@[x]));
                assert(lines@[x] == (
                    self.vmap()[seen@[x].0].position,
                    self.vmap()[seen@[x].1].position,
                ));
            }
        }
        lines
    }
}

} // verus!
