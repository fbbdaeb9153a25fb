//! The fixed-topology pipe mesh.
//!
//! A pipe is a twelve-sided closed cylinder: one center and twelve
//! rim vertices per cap, twelve triangles per cap and twenty-four
//! side triangles.  The caller hands in the twenty-six template
//! positions already transformed to the segment (scaled to the
//! radius and length, rotated onto the axis, moved to the midpoint);
//! this builder contributes the connectivity, which is the same for
//! every segment: twenty-six vertices and forty-eight triangles.

use vstd::prelude::*;
use crate::builder::add_tri_face;
use crate::builder::nth_auto_key;
use crate::mesh::Mesh;
use crate::mesh::face_halfedges;
use crate::point::Point3;

verus! {

/// The number of vertices of the pipe template.
pub const PIPE_VERTICES: usize = 26;

/// The number of triangles of the pipe template.
pub const PIPE_FACES: usize = 48;

/// The template-position indices of the `g`-th pipe triangle: the
/// twelve bottom-cap fans, the twelve top-cap fans, then the
/// twenty-four side triangles.
#[verifier::opaque]
pub open spec fn pipe_face_template(g: int) -> (int, int, int) {
    if g == 0 {
        (0int, 2int, 1int)
    } else    if g == 1 {
        (0int, 3int, 2int)
    } else    if g == 2 {
        (0int, 4int, 3int)
    } else    if g == 3 {
        (0int, 5int, 4int)
    } else    if g == 4 {
        (0int, 6int, 5int)
    } else    if g == 5 {
        (0int, 7int, 6int)
    } else    if g == 6 {
        (0int, 8int, 7int)
    } else    if g == 7 {
        (0int, 9int, 8int)
    } else    if g == 8 {
        (0int, 10int, 9int)
    } else    if g == 9 {
        (0int, 11int, 10int)
    } else    if g == 10 {
        (0int, 12int, 11int)
    } else    if g == 11 {
        (0int, 1int, 12int)
    } else    if g == 12 {
        (13int, 14int, 15int)
    } else    if g == 13 {
        (13int, 15int, 16int)
    } else    if g == 14 {
        (13int, 16int, 17int)
    } else    if g == 15 {
        (13int, 17int, 18int)
    } else    if g == 16 {
        (13int, 18int, 19int)
    } else    if g == 17 {
        (13int, 19int, 20int)
    } else    if g == 18 {
        (13int, 20int, 21int)
    } else    if g == 19 {
        (13int, 21int, 22int)
    } else    if g == 20 {
        (13int, 22int, 23int)
    } else    if g == 21 {
        (13int, 23int, 24int)
    } else    if g == 22 {
        (13int, 24int, 25int)
    } else    if g == 23 {
        (13int, 25int, 14int)
    } else    if g == 24 {
        (1int, 2int, 14int)
    } else    if g == 25 {
        (14int, 2int, 15int)
    } else    if g == 26 {
        (2int, 3int, 15int)
    } else    if g == 27 {
        (15int, 3int, 16int)
    } else    if g == 28 {
        (3int, 4int, 16int)
    } else    if g == 29 {
        (16int, 4int, 17int)
    } else    if g == 30 {
        (4int, 5int, 17int)
    } else    if g == 31 {
        (17int, 5int, 18int)
    } else    if g == 32 {
        (5int, 6int, 18int)
    } else    if g == 33 {
        (18int, 6int, 19int)
    } else    if g == 34 {
        (6int, 7int, 19int)
    } else    if g == 35 {
        (19int, 7int, 20int)
    } else    if g == 36 {
        (7int, 8int, 20int)
    } else    if g == 37 {
        (20int, 8int, 21int)
    } else    if g == 38 {
        (8int, 9int, 21int)
    } else    if g == 39 {
        (21int, 9int, 22int)
    } else    if g == 40 {
        (9int, 10int, 22int)
    } else    if g == 41 {
        (22int, 10int, 23int)
    } else    if g == 42 {
        (10int, 11int, 23int)
    } else    if g == 43 {
        (23int, 11int, 24int)
    } else    if g == 44 {
        (11int, 12int, 24int)
    } else    if g == 45 {
        (24int, 12int, 25int)
    } else    if g == 46 {
        (12int, 1int, 25int)
    } else {
        (25int, 1int, 14int)
    }
}

/// Every template triangle joins three distinct positions of the
/// twenty-six-point template.
proof fn lemma_pipe_template_valid(g: int)
    requires
        0 <= g < PIPE_FACES,
    ensures
        0 <= pipe_face_template(g).0 < PIPE_VERTICES,
        0 <= pipe_face_template(g).1 < PIPE_VERTICES,
        0 <= pipe_face_template(g).2 < PIPE_VERTICES,
        pipe_face_template(g).0 != pipe_face_template(g).1,
        pipe_face_template(g).1 != pipe_face_template(g).2,
        pipe_face_template(g).0 != pipe_face_template(g).2,
{
    reveal(pipe_face_template);
}

/// The template triangle table, one entry per face in order.
#[verifier::loop_isolation(false)]
fn pipe_face_table() -> (faces: Vec<[usize; 3]>)
    ensures
        faces@.len() == PIPE_FACES,
        forall|g: int|
            0 <= g < PIPE_FACES ==> (#[trigger] faces@[g])@ == seq![
                pipe_face_template(g).0 as usize,
                pipe_face_template(g).1 as usize,
                pipe_face_template(g).2 as usize,
            ],
{
    proof {
        reveal(pipe_face_template);
    }
    let mut faces: Vec<[usize; 3]> = Vec::new();
    faces.push([0, 2, 1]);
    faces.push([0, 3, 2]);
    faces.push([0, 4, 3]);
    faces.push([0, 5, 4]);
    faces.push([0, 6, 5]);
    faces.push([0, 7, 6]);
    faces.push([0, 8, 7]);
    faces.push([0, 9, 8]);
    faces.push([0, 10, 9]);
    faces.push([0, 11, 10]);
    faces.push([0, 12, 11]);
    faces.push([0, 1, 12]);
    faces.push([13, 14, 15]);
    faces.push([13, 15, 16]);
    faces.push([13, 16, 17]);
    faces.push([13, 17, 18]);
    faces.push([13, 18, 19]);
    faces.push([13, 19, 20]);
    faces.push([13, 20, 21]);
    faces.push([13, 21, 22]);
    faces.push([13, 22, 23]);
    faces.push([13, 23, 24]);
    faces.push([13, 24, 25]);
    faces.push([13, 25, 14]);
    faces.push([1, 2, 14]);
    faces.push([14, 2, 15]);
    faces.push([2, 3, 15]);
    faces.push([15, 3, 16]);
    faces.push([3, 4, 16]);
    faces.push([16, 4, 17]);
    faces.push([4, 5, 17]);
    faces.push([17, 5, 18]);
    faces.push([5, 6, 18]);
    faces.push([18, 6, 19]);
    faces.push([6, 7, 19]);
    faces.push([19, 7, 20]);
    faces.push([7, 8, 20]);
    faces.push([20, 8, 21]);
    faces.push([8, 9, 21]);
    faces.push([21, 9, 22]);
    faces.push([9, 10, 22]);
    faces.push([22, 10, 23]);
    faces.push([10, 11, 23]);
    faces.push([23, 11, 24]);
    faces.push([11, 12, 24]);
    faces.push([24, 12, 25]);
    faces.push([12, 1, 25]);
    faces.push([25, 1, 14]);
    proof {
        assert((#[trigger] faces@[0int])@ =~= seq![0usize, 2usize, 1usize]);
        assert((#[trigger] faces@[1int])@ =~= seq![0usize, 3usize, 2usize]);
        assert((#[trigger] faces@[2int])@ =~= seq![0usize, 4usize, 3usize]);
        assert((#[trigger] faces@[3int])@ =~= seq![0usize, 5usize, 4usize]);
        assert((#[trigger] faces@[4int])@ =~= seq![0usize, 6usize, 5usize]);
        assert((#[trigger] faces@[5int])@ =~= seq![0usize, 7usize, 6usize]);
        assert((#[trigger] faces@[6int])@ =~= seq![0usize, 8usize, 7usize]);
        assert((#[trigger] faces@[7int])@ =~= seq![0usize, 9usize, 8usize]);
        assert((#[trigger] faces@[8int])@ =~= seq![0usize, 10usize, 9usize]);
        assert((#[trigger] faces@[9int])@ =~= seq![0usize, 11usize, 10usize]);
        assert((#[trigger] faces@[10int])@ =~= seq![0usize, 12usize, 11usize]);
        assert((#[trigger] faces@[11int])@ =~= seq![0usize, 1usize, 12usize]);
        assert((#[trigger] faces@[12int])@ =~= seq![13usize, 14usize, 15usize]);
        assert((#[trigger] faces@[13int])@ =~= seq![13usize, 15usize, 16usize]);
        assert((#[trigger] faces@[14int])@ =~= seq![13usize, 16usize, 17usize]);
        assert((#[trigger] faces@[15int])@ =~= seq![13usize, 17usize, 18usize]);
        assert((#[trigger] faces@[16int])@ =~= seq![13usize, 18usize, 19usize]);
        assert((#[trigger] faces@[17int])@ =~= seq![13usize, 19usize, 20usize]);
        assert((#[trigger] faces@[18int])@ =~= seq![13usize, 20usize, 21usize]);
        assert((#[trigger] faces@[19int])@ =~= seq![13usize, 21usize, 22usize]);
        assert((#[trigger] faces@[20int])@ =~= seq![13usize, 22usize, 23usize]);
        assert((#[trigger] faces@[21int])@ =~= seq![13usize, 23usize, 24usize]);
        assert((#[trigger] faces@[22int])@ =~= seq![13usize, 24usize, 25usize]);
        assert((#[trigger] faces@[23int])@ =~= seq![13usize, 25usize, 14usize]);
        assert((#[trigger] faces@[24int])@ =~= seq![1usize, 2usize, 14usize]);
        assert((#[trigger] faces@[25int])@ =~= seq![14usize, 2usize, 15usize]);
        assert((#[trigger] faces@[26int])@ =~= seq![2usize, 3usize, 15usize]);
        assert((#[trigger] faces@[27int])@ =~= seq![15usize, 3usize, 16usize]);
        assert((#[trigger] faces@[28int])@ =~= seq![3usize, 4usize, 16usize]);
        assert((#[trigger] faces@[29int])@ =~= seq![16usize, 4usize, 17usize]);
        assert((#[trigger] faces@[30int])@ =~= seq![4usize, 5usize, 17usize]);
        assert((#[trigger] faces@[31int])@ =~= seq![17usize, 5usize, 18usize]);
        assert((#[trigger] faces@[32int])@ =~= seq![5usize, 6usize, 18usize]);
        assert((#[trigger] faces@[33int])@ =~= seq![18usize, 6usize, 19usize]);
        assert((#[trigger] faces@[34int])@ =~= seq![6usize, 7usize, 19usize]);
        assert((#[trigger] faces@[35int])@ =~= seq![19usize, 7usize, 20usize]);
        assert((#[trigger] faces@[36int])@ =~= seq![7usize, 8usize, 20usize]);
        assert((#[trigger] faces@[37int])@ =~= seq![20usize, 8usize, 21usize]);
        assert((#[trigger] faces@[38int])@ =~= seq![8usize, 9usize, 21usize]);
        assert((#[trigger] faces@[39int])@ =~= seq![21usize, 9usize, 22usize]);
        assert((#[trigger] faces@[40int])@ =~= seq![9usize, 10usize, 22usize]);
        assert((#[trigger] faces@[41int])@ =~= seq![22usize, 10usize, 23usize]);
        assert((#[trigger] faces@[42int])@ =~= seq![10usize, 11usize, 23usize]);
        assert((#[trigger] faces@[43int])@ =~= seq![23usize, 11usize, 24usize]);
        assert((#[trigger] faces@[44int])@ =~= seq![11usize, 12usize, 24usize]);
        assert((#[trigger] faces@[45int])@ =~= seq![24usize, 12usize, 25usize]);
        assert((#[trigger] faces@[46int])@ =~= seq![12usize, 1usize, 25usize]);
        assert((#[trigger] faces@[47int])@ =~= seq![25usize, 1usize, 14usize]);
    }
    faces
}

impl Mesh {
    /// Create the pipe mesh over the twenty-six transformed template
    /// positions: both cap centers first and last of their thirteen,
    /// as produced by the unit-cylinder template.
    ///
    /// The result always has twenty-six vertices and forty-eight
    /// triangular faces — the template triangles over the vertices
    /// in input order — whatever the positions are.
    #[verifier::loop_isolation(false)]
    #[verifier::rlimit(100)]
    pub fn create_pipe(ring: Vec<Point3>) -> (m: Mesh)
        requires
            ring@.len() == PIPE_VERTICES,
        ensures
            m.wf(),
            m.vmap().dom().len() == PIPE_VERTICES,
            m.fmap().dom().len() == PIPE_FACES,
            forall|i: int|
                0 <= i < PIPE_VERTICES ==> m.vmap().dom().contains(#[trigger] nth_auto_key(i))
                    && m.vmap()[nth_auto_key(i)].position == ring@[i],
            m.vertex.keys() == Seq::new(PIPE_VERTICES as nat, |i: int| nth_auto_key(i)),
            m.face.keys() == Seq::new(PIPE_FACES as nat, |g: int| nth_auto_key(g)),
            forall|g: int|
                0 <= g < PIPE_FACES ==> m.fmap().dom().contains(#[trigger] nth_auto_key(g))
                    && m.fmap()[nth_auto_key(g)]@ == seq![
                    nth_auto_key(pipe_face_template(g).0),
                    nth_auto_key(pipe_face_template(g).1),
                    nth_auto_key(pipe_face_template(g).2),
                ],
            forall|f: usize| #[trigger] m.fmap().dom().contains(f) ==> m.fmap()[f]@.len() == 3,
            m.hmap().dom() == face_halfedges(m),
    {
        let mut mesh = Mesh::new();
        proof {
            crate::keymap::lemma_assoc_len(mesh.face.kseq());
            assert(mesh.face.keys() =~= Seq::<usize>::empty());
            crate::keymap::lemma_assoc_len(mesh.vertex.kseq());
            assert(mesh.vertex.keys() =~= Seq::new(0nat, |i: int| nth_auto_key(i)));
            crate::mesh::lemma_face_halfedges_empty(mesh);
        }
        let mut keys: Vec<usize> = Vec::new();
        let n = ring.len();
        let mut i: usize = 0;
        while i < n
            invariant
                0 <= i <= n,
                n == PIPE_VERTICES,
                n == ring@.len(),
                mesh.wf(),
                mesh.max_vertex == 2 * i,
                mesh.max_face == 0,
                mesh.fmap().dom().len() == 0,
                mesh.face.keys() == Seq::<usize>::empty(),
                mesh.hmap().dom() == face_halfedges(mesh),
                mesh.vmap().dom().len() == i,
                mesh.vertex.keys() == Seq::new(i as nat, |x: int| nth_auto_key(x)),
                keys@.len() == i,
                forall|t: int| 0 <= t < i ==> #[trigger] keys@[t] == nth_auto_key(t),
                forall|t: int|
                    0 <= t < i ==> mesh.vmap().dom().contains(#[trigger] nth_auto_key(t))
                        && mesh.vmap()[nth_auto_key(t)].position == ring@[t],
            decreases n - i,
        {
            proof {
                crate::keymap::lemma_assoc_len(mesh.vertex.kseq());
            }
            let ghost vm_old = mesh.vmap();
            let key = mesh.add_vertex(ring[i], None);
            proof {
                assert(key == nth_auto_key(i as int));
                vstd::set::axiom_set_insert_len(vm_old.dom(), key);
            }
            keys.push(key);
            let ghost i_prev = i as int;
            i += 1;
            proof {
                assert(mesh.vertex.keys() =~= Seq::new(i as nat, |x: int| nth_auto_key(x)));
                assert forall|t: int|
                    0 <= t < i implies mesh.vmap().dom().contains(#[trigger] nth_auto_key(t))
                    && mesh.vmap()[nth_auto_key(t)].position == ring@[t] by {
                    if t < i_prev {
                        assert(vm_old.dom().contains(nth_auto_key(t)));
                        assert(vm_old[nth_auto_key(t)].position == ring@[t]);
                        assert(nth_auto_key(t) != key);
                        assert(mesh.vmap()[nth_auto_key(t)] == vm_old[nth_auto_key(t)]);
                    }
                }
            }
        }
        proof {
            assert forall|t: int| 0 <= t < keys@.len() implies mesh.vmap().dom().contains(
                #[trigger] keys@[t],
            ) by {
                assert(keys@[t] == nth_auto_key(t));
            }
        }
        let faces = pipe_face_table();
        let ghost vm_frozen = mesh.vmap();
        let ghost vx_frozen = mesh.vertex;
        let fcount = faces.len();
        let mut g: usize = 0;
        while g < fcount
            invariant
                0 <= g <= fcount,
                fcount == PIPE_FACES,
                fcount == faces@.len(),
                forall|x: int|
                    0 <= x < PIPE_FACES ==> (#[trigger] faces@[x])@ == seq![
                        pipe_face_template(x).0 as usize,
                        pipe_face_template(x).1 as usize,
                        pipe_face_template(x).2 as usize,
                    ],
                keys@.len() == PIPE_VERTICES,
                forall|t: int| 0 <= t < PIPE_VERTICES ==> #[trigger] keys@[t] == nth_auto_key(t),
                forall|t: int|
                    0 <= t < keys@.len() ==> mesh.vmap().dom().contains(#[trigger] keys@[t]),
                mesh.wf(),
                mesh.vmap() == vm_frozen,
                mesh.vertex == vx_frozen,
                mesh.vmap().dom().len() == PIPE_VERTICES,
                mesh.max_vertex == 2 * PIPE_VERTICES,
                mesh.max_face == 2 * g,
                mesh.fmap().dom().len() == g,
                mesh.face.keys() == Seq::new(g as nat, |x: int| nth_auto_key(x)),
                mesh.hmap().dom() == face_halfedges(mesh),
                forall|x: int|
                    0 <= x < g ==> mesh.fmap().dom().contains(#[trigger] nth_auto_key(x))
                        && mesh.fmap()[nth_auto_key(x)]@ == seq![
                        nth_auto_key(pipe_face_template(x).0),
                        nth_auto_key(pipe_face_template(x).1),
                        nth_auto_key(pipe_face_template(x).2),
                    ],
                forall|f: usize|
                    #[trigger] mesh.fmap().dom().contains(f) ==> mesh.fmap()[f]@.len() == 3,
            decreases fcount - g,
        {
            let tri = faces[g];
            proof {
                lemma_pipe_template_valid(g as int);
                assert(tri@ == seq![
                    pipe_face_template(g as int).0 as usize,
                    pipe_face_template(g as int).1 as usize,
                    pipe_face_template(g as int).2 as usize,
                ]);
                assert(tri@[0] == tri[0] && tri@[1] == tri[1] && tri@[2] == tri[2]);
            }
            let ghost fm_old = mesh.fmap();
            let added = add_tri_face(&mut mesh, &keys, tri[0], tri[1], tri[2]);
            proof {
                let gi = g as int;
                assert(keys@[pipe_face_template(gi).0] == nth_auto_key(pipe_face_template(gi).0));
                assert(keys@[pipe_face_template(gi).1] == nth_auto_key(pipe_face_template(gi).1));
                assert(keys@[pipe_face_template(gi).2] == nth_auto_key(pipe_face_template(gi).2));
                assert(added);
                let fk = nth_auto_key(gi);
                assert(mesh.fmap()[fk]@ == seq![
                    nth_auto_key(pipe_face_template(gi).0),
                    nth_auto_key(pipe_face_template(gi).1),
                    nth_auto_key(pipe_face_template(gi).2),
                ]);
                assert(mesh.face.keys() =~= Seq::new((g + 1) as nat, |x: int| nth_auto_key(x)));
                assert forall|x: int|
                    0 <= x < g + 1 implies mesh.fmap().dom().contains(#[trigger] nth_auto_key(x))
                    && mesh.fmap()[nth_auto_key(x)]@ == seq![
                    nth_auto_key(pipe_face_template(x).0),
                    nth_auto_key(pipe_face_template(x).1),
                    nth_auto_key(pipe_face_template(x).2),
                ] by {
                    if x < g {
                        assert(fm_old.dom().contains(nth_auto_key(x)));
                        assert(nth_auto_key(x) != fk);
                        assert(mesh.fmap()[nth_auto_key(x)] == fm_old[nth_auto_key(x)]);
                    }
                }
            }
            g += 1;
        }
        mesh
    }
}

} // verus!
