//! Lossless export and import of a mesh's full state.
//!
//! `MeshData` carries everything a mesh owns — vertices with their
//! positions and attributes, faces, halfedges, per-entity attribute
//! maps, the default attribute lists and both key counters — so an
//! outside serialization layer can write it out and hand it back.
//! Import validates the data and reproduces the exact mesh, so the
//! round trip loses nothing.

use vstd::prelude::*;
use crate::attrs::AttrList;
use crate::edgemap::EdgeMap;
use crate::edgemap::lemma_passoc_dom;
use crate::edgemap::lemma_passoc_get;
use crate::keymap::KeyMap;
use crate::keymap::lemma_assoc_dom;
use crate::keymap::lemma_assoc_get;
use crate::mesh::Mesh;
use crate::mesh::VertexData;
use crate::mesh::face_input_valid;
use crate::mesh::has_duplicate;

verus! {

/// The full exported state of a mesh.
pub struct MeshData {
    /// Vertices: vertex key to vertex data.
    pub vertex: KeyMap<VertexData>,
    /// Faces: face key to the ordered cycle of its vertex keys.
    pub face: KeyMap<Vec<usize>>,
    /// Halfedges: directed pair to the bordering face, if any.
    pub halfedge: EdgeMap<Option<usize>>,
    /// Face attributes.
    pub facedata: KeyMap<AttrList>,
    /// Edge attributes.
    pub edgedata: EdgeMap<AttrList>,
    /// Default vertex attributes.
    pub default_vertex_attributes: AttrList,
    /// Default face attributes.
    pub default_face_attributes: AttrList,
    /// Default edge attributes.
    pub default_edge_attributes: AttrList,
    /// Strict upper bound on every vertex key used so far.
    pub max_vertex: usize,
    /// Strict upper bound on every face key used so far.
    pub max_face: usize,
}

/// The mesh that an exported state describes.
pub open spec fn as_mesh(d: MeshData) -> Mesh {
    Mesh {
        vertex: d.vertex,
        face: d.face,
        halfedge: d.halfedge,
        facedata: d.facedata,
        edgedata: d.edgedata,
        default_vertex_attributes: d.default_vertex_attributes,
        default_face_attributes: d.default_face_attributes,
        default_edge_attributes: d.default_edge_attributes,
        max_vertex: d.max_vertex,
        max_face: d.max_face,
    }
}

impl Mesh {
    /// Export the mesh's full state.
    pub fn to_data(self) -> (d: MeshData)
        ensures
            as_mesh(d) == self,
    {
        MeshData {
            vertex: self.vertex,
            face: self.face,
            halfedge: self.halfedge,
            facedata: self.facedata,
            edgedata: self.edgedata,
            default_vertex_attributes: self.default_vertex_attributes,
            default_face_attributes: self.default_face_attributes,
            default_edge_attributes: self.default_edge_attributes,
            max_vertex: self.max_vertex,
            max_face: self.max_face,
        }
    }

    /// Import an exported state, validating it structurally.
    ///
    /// Returns the described mesh exactly when the data is well
    /// formed as a mesh, and `None` otherwise.
    #[verifier::loop_isolation(false)]
    #[verifier::rlimit(100)]
    pub fn from_data(data: MeshData) -> (r: Option<Mesh>)
        ensures
            r is Some <==> as_mesh(data).wf(),
            r is Some ==> r->Some_0 == as_mesh(data),
    {
        let m = Mesh {
            vertex: data.vertex,
            face: data.face,
            halfedge: data.halfedge,
            facedata: data.facedata,
            edgedata: data.edgedata,
            default_vertex_attributes: data.default_vertex_attributes,
            default_face_attributes: data.default_face_attributes,
            default_edge_attributes: data.default_edge_attributes,
            max_vertex: data.max_vertex,
            max_face: data.max_face,
        };
        proof {
            assert(m == as_mesh(data));
        }
        let vkeys = m.vertex.keys_vec();
        if has_duplicate(&vkeys) {
            return None;
        }
        let fkeys = m.face.keys_vec();
        if has_duplicate(&fkeys) {
            return None;
        }
        if !m.halfedge.check_wf() {
            return None;
        }
        let fdkeys = m.facedata.keys_vec();
        if has_duplicate(&fdkeys) {
            return None;
        }
        if !m.edgedata.check_wf() {
            return None;
        }
        if !m.default_vertex_attributes.check_wf() {
            return None;
        }
        if !m.default_face_attributes.check_wf() {
            return None;
        }
        if !m.default_edge_attributes.check_wf() {
            return None;
        }
        // Every face must be a valid cycle over existing vertices.
        let nf = m.face.len();
        let mut i: usize = 0;
        while i < nf
            invariant
                0 <= i <= nf,
                nf == m.face.kseq().len(),
                forall|j: int|
                    0 <= j < i ==> face_input_valid(m.vmap(), (#[trigger] m.face.kseq()[j]).1@),
            decreases nf - i,
        {
            let vs = m.face.value_at(i);
            if vs.len() < 3 || has_duplicate(vs) || !m.keys_all_exist(vs) {
                proof {
                    lemma_assoc_get(m.face.kseq(), i as int);
                    assert(m.fmap().dom().contains(m.face.keys()[i as int]));
                    assert(m.fmap()[m.face.keys()[i as int]] == m.face.kseq()[i as int].1);
                    assert(!face_input_valid(m.vmap(), (m.fmap()[m.face.keys()[i as int]])@));
                    assert(!m.wf());
                }
                return None;
            }
            i += 1;
        }
        proof {
            assert forall|f: usize| m.fmap().dom().contains(f) implies face_input_valid(
                m.vmap(),
                (#[trigger] m.fmap()[f])@,
            ) by {
                lemma_assoc_dom(m.face.kseq());
                assert(m.face.keys().contains(f));
                let j = choose|j: int| 0 <= j < m.face.keys().len() && m.face.keys()[j] == f;
                lemma_assoc_get(m.face.kseq(), j);
                assert(m.fmap()[f] == m.face.kseq()[j].1);
            }
        }
        // Every halfedge must join two distinct existing vertices,
        // have its opposite direction present, and name an existing
        // face if it names one.
        let nh = m.halfedge.len();
        let mut i: usize = 0;
        while i < nh
            invariant
                0 <= i <= nh,
                nh == m.halfedge.kseq().len(),
                forall|j: int|
                    0 <= j < i ==> {
                        let e = #[trigger] m.halfedge.kseq()[j];
                        &&& e.0 != e.1
                        &&& m.vmap().dom().contains(e.0)
                        &&& m.vmap().dom().contains(e.1)
                        &&& m.hmap().dom().contains((e.1, e.0))
                        &&& (e.2 is Some ==> m.fmap().dom().contains(e.2->Some_0))
                    },
            decreases nh - i,
        {
            let e = m.halfedge.entry_at(i);
            let mut ok = e.0 != e.1 && m.vertex.contains_key(e.0) && m.vertex.contains_key(e.1)
                && m.halfedge.contains_pair(e.1, e.0);
            match e.2 {
                Some(fk) => {
                    if !m.face.contains_key(*fk) {
                        ok = false;
                    }
                },
                None => {},
            }
            if !ok {
                proof {
                    lemma_passoc_get(m.halfedge.kseq(), i as int);
                    let p = (m.halfedge.kseq()[i as int].0, m.halfedge.kseq()[i as int].1);
                    assert(m.hmap().dom().contains(p));
                    assert(m.hmap()[p] == m.halfedge.kseq()[i as int].2);
                    assert(!m.wf());
                }
                return None;
            }
            i += 1;
        }
        proof {
            assert forall|p: (usize, usize)| #[trigger]
                m.hmap().dom().contains(p) implies p.0 != p.1 && m.vmap().dom().contains(p.0)
                && m.vmap().dom().contains(p.1) && m.hmap().dom().contains((p.1, p.0)) && (
            m.hmap()[p] is Some ==> m.fmap().dom().contains(m.hmap()[p]->Some_0)) by {
                lemma_passoc_dom(m.halfedge.kseq());
                assert(m.halfedge.keys().contains(p));
                let j = choose|j: int|
                    0 <= j < m.halfedge.keys().len() && m.halfedge.keys()[j] == p;
                assert(m.halfedge.kseq()[j].0 == p.0 && m.halfedge.kseq()[j].1 == p.1);
                lemma_passoc_get(m.halfedge.kseq(), j);
            }
        }
        // The key counters must stay above every key in use.
        let nv = vkeys.len();
        let mut i: usize = 0;
        while i < nv
            invariant
                0 <= i <= nv,
                nv == m.vertex.keys().len(),
                vkeys@ == m.vertex.keys(),
                forall|j: int| 0 <= j < i ==> (#[trigger] m.vertex.keys()[j]) < m.max_vertex,
            decreases nv - i,
        {
            if vkeys[i] >= m.max_vertex {
                proof {
                    lemma_assoc_dom(m.vertex.kseq());
                    assert(m.vertex.keys().to_set().contains(m.vertex.keys()[i as int]));
                    assert(m.vmap().dom().contains(m.vertex.keys()[i as int]));
                    assert(!m.wf());
                }
                return None;
            }
            i += 1;
        }
        let nfk = fkeys.len();
        let mut i: usize = 0;
        while i < nfk
            invariant
                0 <= i <= nfk,
                nfk == m.face.keys().len(),
                fkeys@ == m.face.keys(),
                forall|j: int| 0 <= j < i ==> (#[trigger] m.face.keys()[j]) < m.max_face,
            decreases nfk - i,
        {
            if fkeys[i] >= m.max_face {
                proof {
                    lemma_assoc_dom(m.face.kseq());
                    assert(m.face.keys().to_set().contains(m.face.keys()[i as int]));
                    assert(m.fmap().dom().contains(m.face.keys()[i as int]));
                    assert(!m.wf());
                }
                return None;
            }
            i += 1;
        }
        // Every attribute list must be free of repeated names.
        let nvv = m.vertex.len();
        let mut i: usize = 0;
        while i < nvv
            invariant
                0 <= i <= nvv,
                nvv == m.vertex.kseq().len(),
                forall|j: int| 0 <= j < i ==> (#[trigger] m.vertex.kseq()[j]).1.attributes.wf(),
            decreases nvv - i,
        {
            if !m.vertex.value_at(i).attributes.check_wf() {
                proof {
                    lemma_assoc_get(m.vertex.kseq(), i as int);
                    assert(m.vmap().dom().contains(m.vertex.keys()[i as int]));
                    assert(m.vmap()[m.vertex.keys()[i as int]] == m.vertex.kseq()[i as int].1);
                    assert(!m.wf());
                }
                return None;
            }
            i += 1;
        }
        proof {
            assert forall|v: usize| m.vmap().dom().contains(v) implies (#[trigger] m.vmap()[v]).attributes.wf() by {
                lemma_assoc_dom(m.vertex.kseq());
                assert(m.vertex.keys().contains(v));
                let j = choose|j: int| 0 <= j < m.vertex.keys().len() && m.vertex.keys()[j] == v;
                lemma_assoc_get(m.vertex.kseq(), j);
                assert(m.vmap()[v] == m.vertex.kseq()[j].1);
            }
        }
        let nfd = m.facedata.len();
        let mut i: usize = 0;
        while i < nfd
            invariant
                0 <= i <= nfd,
                nfd == m.facedata.kseq().len(),
                forall|j: int| 0 <= j < i ==> (#[trigger] m.facedata.kseq()[j]).1.wf(),
            decreases nfd - i,
        {
            if !m.facedata.value_at(i).check_wf() {
                proof {
                    lemma_assoc_get(m.facedata.kseq(), i as int);
                    assert(m.facedata.as_map().dom().contains(m.facedata.keys()[i as int]));
                    assert(m.facedata.as_map()[m.facedata.keys()[i as int]]
                        == m.facedata.kseq()[i as int].1);
                    assert(!m.wf());
                }
                return None;
            }
            i += 1;
        }
        proof {
            assert forall|f: usize| m.facedata.as_map().dom().contains(f) implies (
            #[trigger] m.facedata.as_map()[f]).wf() by {
                lemma_assoc_dom(m.facedata.kseq());
                assert(m.facedata.keys().contains(f));
                let j = choose|j: int|
                    0 <= j < m.facedata.keys().len() && m.facedata.keys()[j] == f;
                lemma_assoc_get(m.facedata.kseq(), j);
                assert(m.facedata.as_map()[f] == m.facedata.kseq()[j].1);
            }
        }
        let ned = m.edgedata.len();
        let mut i: usize = 0;
        while i < ned
            invariant
                0 <= i <= ned,
                ned == m.edgedata.kseq().len(),
                forall|j: int| 0 <= j < i ==> (#[trigger] m.edgedata.kseq()[j]).2.wf(),
            decreases ned - i,
        {
            let e = m.edgedata.entry_at(i);
            if !e.2.check_wf() {
                proof {
                    lemma_passoc_get(m.edgedata.kseq(), i as int);
                    let p = (m.edgedata.kseq()[i as int].0, m.edgedata.kseq()[i as int].1);
                    assert(m.edgedata.as_map().dom().contains(p));
                    assert(m.edgedata.as_map()[p] == m.edgedata.kseq()[i as int].2);
                    assert(!m.wf());
                }
                return None;
            }
            i += 1;
        }
        proof {
            assert forall|e: (usize, usize)| m.edgedata.as_map().dom().contains(e) implies (
            #[trigger] m.edgedata.as_map()[e]).wf() by {
                lemma_passoc_dom(m.edgedata.kseq());
                assert(m.edgedata.keys().contains(e));
                let j = choose|j: int|
                    0 <= j < m.edgedata.keys().len() && m.edgedata.keys()[j] == e;
                assert(m.edgedata.kseq()[j].0 == e.0 && m.edgedata.kseq()[j].1 == e.1);
                lemma_passoc_get(m.edgedata.kseq(), j);
            }
        }
        proof {
            assert forall|k: usize| m.vmap().dom().contains(k) implies k < m.max_vertex by {
                lemma_assoc_dom(m.vertex.kseq());
                assert(m.vertex.keys().contains(k));
                let j = choose|j: int| 0 <= j < m.vertex.keys().len() && m.vertex.keys()[j] == k;
                assert(m.vertex.keys()[j] < m.max_vertex);
            }
            assert forall|k: usize| m.fmap().dom().contains(k) implies k < m.max_face by {
                lemma_assoc_dom(m.face.kseq());
                assert(m.face.keys().contains(k));
                let j = choose|j: int| 0 <= j < m.face.keys().len() && m.face.keys()[j] == k;
                assert(m.face.keys()[j] < m.max_face);
            }
            assert(m.wf());
        }
        Some(m)
    }
}

/// Round trip: exporting a well-formed mesh's full state describes
/// the very same mesh, importing that state is guaranteed to
/// succeed, and the imported mesh agrees with the original in every
/// entity map — so in particular in its vertex, face and edge counts
/// and in every per-vertex attribute payload.
pub proof fn lemma_export_import_round_trip(m: Mesh, d: MeshData, m2: Mesh)
    requires
        m.wf(),
        as_mesh(d) == m,
        m2 == as_mesh(d),
    ensures
        as_mesh(d).wf(),
        m2 == m,
        m2.vmap() == m.vmap(),
        m2.fmap() == m.fmap(),
        m2.hmap() == m.hmap(),
        m2.spec_num_edges() == m.spec_num_edges(),
        m2.spec_euler() == m.spec_euler(),
{
}

} // verus!
