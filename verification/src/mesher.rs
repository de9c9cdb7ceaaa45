//! The mesher: the two stages run one after the other on buffers that are
//! kept from call to call.

use crate::bits::{bit, dilated, lemma_bit_consts, lemma_dilated, test_bit, PAD_MASK};
use crate::face::{lemma_face_all, lemma_face_index, Axis, Face};
use crate::layout::{interior, linearize_2d, CUBE, LEN, SQUARE};
use crate::merge::{lemma_limited, limited, merge_plane, shows_planes, sweep_x};
use crate::mesh::{MeshChanges, QuadMesh};
use crate::model::{
    along, axis_word, face_quads, kept, lemma_plane_blank, lemma_plane_inside, lemma_reach_next,
    mask_faces, mask_mesh_list, mesh_list, plane_quads, planes_quads, quad_plane, reach,
    remeshed, seen_faces, spliced, within_shell,
};
use crate::quad::Quad;
use crate::visible::{lemma_source_within, InnerMesher, Source};
use std::collections::HashSet;
use vstd::prelude::*;

verus! {

impl InnerMesher {
    /// The quads of a direction along x: one sweep over all planes, then
    /// the lists of the planes one after the other.
    pub(crate) fn merge_x(
        &mut self,
        voxels: &[u16; CUBE],
        face: Face,
        output: &mut Vec<Quad>,
        Ghost(seen): Ghost<spec_fn(int, int, int) -> bool>,
    )
        requires
            face.axis() == Axis::X,
            old(self).counters_rest(),
            old(self).planes_rest(),
            within_shell(seen),
            shows_planes(old(self).mask(face), seen, Axis::X, !0u64),
        ensures
            final(self).visible_masks == old(self).visible_masks,
            final(self).counters_rest(),
            final(self).planes_rest(),
            final(output)@ == old(output)@ + face_quads(voxels@, seen, Axis::X),
    {
        sweep_x(
            voxels,
            &self.visible_masks[face.ordinal()],
            !0u64,
            &mut self.forward_merged,
            &mut self.upward_merged,
            &mut self.planes,
            Ghost(seen),
        );
        let ghost pre = output@;
        proof {
            lemma_bit_consts();
            assert(output@ =~= pre + planes_quads(voxels@, seen, Axis::X, 0));
        }
        for k in 0..LEN
            invariant
                self.visible_masks == old(self).visible_masks,
                self.counters_rest(),
                self.planes@.len() == 64,
                forall|i: int| #[trigger] bit(!0u64, i) == (0 <= i < 64),
                forall|j: int| 0 <= j < k ==> (#[trigger] self.planes@[j])@.len() == 0,
                forall|j: int|
                    k <= j < 64 ==> (#[trigger] self.planes@[j])@ == plane_quads(
                        voxels@,
                        limited(seen, !0u64),
                        Axis::X,
                        j,
                    ),
                output@ == pre + planes_quads(voxels@, seen, Axis::X, k as int),
        {
            proof {
                lemma_limited(voxels@, seen, !0u64, k as int);
            }
            output.append(&mut self.planes[k]);
            proof {
                assert(output@ =~= pre + planes_quads(voxels@, seen, Axis::X, k + 1));
            }
        }
    }

    /// The quads of a direction along y: plane after plane, each by a bar
    /// merge whose runs grow along z.
    pub(crate) fn merge_y(
        &mut self,
        voxels: &[u16; CUBE],
        face: Face,
        output: &mut Vec<Quad>,
        Ghost(seen): Ghost<spec_fn(int, int, int) -> bool>,
    )
        requires
            face.axis() == Axis::Y,
            old(self).counters_rest(),
            within_shell(seen),
            shows_planes(old(self).mask(face), seen, Axis::Y, !0u64),
        ensures
            final(self).visible_masks == old(self).visible_masks,
            final(self).planes == old(self).planes,
            final(self).counters_rest(),
            final(output)@ == old(output)@ + face_quads(voxels@, seen, Axis::Y),
    {
        let ghost pre = output@;
        proof {
            lemma_bit_consts();
            lemma_plane_inside(voxels@, seen, Axis::Y, 0);
            lemma_plane_blank(voxels@, seen, Axis::Y, 0);
            assert(planes_quads(voxels@, seen, Axis::Y, 0) =~= Seq::<Quad>::empty());
            assert(output@ =~= pre + planes_quads(voxels@, seen, Axis::Y, 1));
        }
        for y in 1..63
            invariant
                face.axis() == Axis::Y,
                self.visible_masks == old(self).visible_masks,
                self.planes == old(self).planes,
                self.counters_rest(),
                within_shell(seen),
                shows_planes(self.mask(face), seen, Axis::Y, !0u64),
                forall|i: int| #[trigger] bit(!0u64, i) == (0 <= i < 64),
                output@ == pre + planes_quads(voxels@, seen, Axis::Y, y as int),
        {
            let base: usize = linearize_2d(0, y);
            merge_plane(
                voxels,
                &self.visible_masks[face.ordinal()],
                &mut self.forward_merged,
                base,
                Axis::Y,
                y,
                output,
                Ghost(seen),
            );
            proof {
                assert(output@ =~= pre + planes_quads(voxels@, seen, Axis::Y, y + 1));
            }
        }
        proof {
            lemma_plane_inside(voxels@, seen, Axis::Y, 63);
            lemma_plane_blank(voxels@, seen, Axis::Y, 63);
            assert(output@ =~= pre + planes_quads(voxels@, seen, Axis::Y, 64));
        }
    }

    /// The quads of a direction along z: plane after plane, each by a bar
    /// merge whose runs grow along y.
    pub(crate) fn merge_z(
        &mut self,
        voxels: &[u16; CUBE],
        face: Face,
        output: &mut Vec<Quad>,
        Ghost(seen): Ghost<spec_fn(int, int, int) -> bool>,
    )
        requires
            face.axis() == Axis::Z,
            old(self).counters_rest(),
            within_shell(seen),
            shows_planes(old(self).mask(face), seen, Axis::Z, !0u64),
        ensures
            final(self).visible_masks == old(self).visible_masks,
            final(self).planes == old(self).planes,
            final(self).counters_rest(),
            final(output)@ == old(output)@ + face_quads(voxels@, seen, Axis::Z),
    {
        let ghost pre = output@;
        proof {
            lemma_bit_consts();
            lemma_plane_inside(voxels@, seen, Axis::Z, 0);
            lemma_plane_blank(voxels@, seen, Axis::Z, 0);
            assert(planes_quads(voxels@, seen, Axis::Z, 0) =~= Seq::<Quad>::empty());
            assert(output@ =~= pre + planes_quads(voxels@, seen, Axis::Z, 1));
        }
        for z in 1..63
            invariant
                face.axis() == Axis::Z,
                self.visible_masks == old(self).visible_masks,
                self.planes == old(self).planes,
                self.counters_rest(),
                within_shell(seen),
                shows_planes(self.mask(face), seen, Axis::Z, !0u64),
                forall|i: int| #[trigger] bit(!0u64, i) == (0 <= i < 64),
                output@ == pre + planes_quads(voxels@, seen, Axis::Z, z as int),
        {
            merge_plane(
                voxels,
                &self.visible_masks[face.ordinal()],
                &mut self.upward_merged,
                0,
                Axis::Z,
                z,
                output,
                Ghost(seen),
            );
            proof {
                assert(output@ =~= pre + planes_quads(voxels@, seen, Axis::Z, z + 1));
            }
        }
        proof {
            lemma_plane_inside(voxels@, seen, Axis::Z, 63);
            lemma_plane_blank(voxels@, seen, Axis::Z, 63);
            assert(output@ =~= pre + planes_quads(voxels@, seen, Axis::Z, 64));
        }
    }

    /// One list of a mesh made anew where `ks` marks a plane: the quads of
    /// `former` plane by plane, those of a marked plane replaced by the quads
    /// that the words give it. The new list is appended to `output`.
    pub(crate) fn splice(
        &mut self,
        voxels: &[u16; CUBE],
        face: Face,
        ks: u64,
        former: &Vec<Quad>,
        output: &mut Vec<Quad>,
        Ghost(seen): Ghost<spec_fn(int, int, int) -> bool>,
    )
        requires
            old(self).counters_rest(),
            old(self).planes_rest(),
            within_shell(seen),
            shows_planes(old(self).mask(face), seen, face.axis(), ks),
            forall|i: int| #[trigger] bit(ks, i) ==> interior(i),
            old(output)@.len() == 0,
        ensures
            final(self).visible_masks == old(self).visible_masks,
            final(self).counters_rest(),
            final(self).planes_rest(),
            final(output)@ == spliced(former@, voxels@, seen, face.axis(), ks, 64),
    {
        let axis: Axis = face.along();
        match axis {
            Axis::X => {
                sweep_x(
                    voxels,
                    &self.visible_masks[face.ordinal()],
                    ks,
                    &mut self.forward_merged,
                    &mut self.upward_merged,
                    &mut self.planes,
                    Ghost(seen),
                );
            },
            _ => {},
        }
        let mut i: usize = 0;
        proof {
            assert(output@ =~= spliced(former@, voxels@, seen, axis, ks, 0));
            assert forall|j: int| 0 <= j < 64 implies (#[trigger] self.planes@[j])@ == (if axis
                == Axis::X {
                plane_quads(voxels@, limited(seen, ks), Axis::X, j)
            } else {
                Seq::empty()
            }) by {
                assert(self.planes@[j]@ =~= Seq::<Quad>::empty() || axis == Axis::X);
            }
        }
        for k in 0..LEN
            invariant
                axis == face.axis(),
                self.visible_masks == old(self).visible_masks,
                self.counters_rest(),
                self.planes@.len() == 64,
                within_shell(seen),
                shows_planes(self.mask(face), seen, axis, ks),
                forall|i: int| #[trigger] bit(ks, i) ==> interior(i),
                forall|j: int| 0 <= j < k ==> (#[trigger] self.planes@[j])@.len() == 0,
                forall|j: int|
                    k <= j < 64 ==> (#[trigger] self.planes@[j])@ == (if axis == Axis::X {
                        plane_quads(voxels@, limited(seen, ks), Axis::X, j)
                    } else {
                        Seq::empty()
                    }),
                i == reach(former@, axis, k as int, 0),
                i <= former@.len(),
                output@ == spliced(former@, voxels@, seen, axis, ks, k as int),
        {
            let mut j: usize = i;
            while j < former.len() && plane_index(axis, former[j]) <= k
                invariant
                    i <= j <= former@.len(),
                    reach(former@, axis, k + 1, i as int) == reach(former@, axis, k + 1, j as int),
                decreases former@.len() - j,
            {
                j = j + 1;
            }
            proof {
                lemma_reach_next(former@, axis, k as int);
                lemma_limited(voxels@, seen, ks, k as int);
                assert(j == reach(former@, axis, k + 1, 0));
            }
            let ghost before = output@;
            if test_bit(ks, k) {
                match axis {
                    Axis::X => {
                        output.append(&mut self.planes[k]);
                    },
                    Axis::Y => {
                        let base: usize = linearize_2d(0, k);
                        merge_plane(
                            voxels,
                            &self.visible_masks[face.ordinal()],
                            &mut self.forward_merged,
                            base,
                            Axis::Y,
                            k,
                            output,
                            Ghost(seen),
                        );
                    },
                    Axis::Z => {
                        merge_plane(
                            voxels,
                            &self.visible_masks[face.ordinal()],
                            &mut self.upward_merged,
                            0,
                            Axis::Z,
                            k,
                            output,
                            Ghost(seen),
                        );
                    },
                }
                proof {
                    assert(output@ =~= before + plane_quads(voxels@, seen, axis, k as int));
                }
            } else {
                for m in i..j
                    invariant
                        i <= j <= former@.len(),
                        output@ == before + former@.subrange(i as int, m as int),
                {
                    output.push(former[m]);
                    proof {
                        assert(former@.subrange(i as int, m + 1) =~= former@.subrange(
                            i as int,
                            m as int,
                        ).push(former@[m as int]));
                    }
                }
                proof {
                    assert(output@ =~= before + kept(former@, axis, k as int));
                }
            }
            i = j;
        }
    }

    /// The six lists of quads of the faces that the words show.
    pub(crate) fn face_merging(
        &mut self,
        voxels: &[u16; CUBE],
        Ghost(src): Ghost<Source>,
    ) -> (mesh: QuadMesh)
        requires
            old(self).at_rest(),
            old(self).shows_near(voxels@, src, !0u64, !0u64, !0u64),
        ensures
            final(self).at_rest(),
            final(self).visible_masks == old(self).visible_masks,
            forall|f: Face| #[trigger]
                mesh.list(f) == face_quads(voxels@, src.faces(voxels@, f), f.axis()),
    {
        let mut lists: [Vec<Quad>; 6] = [
            Vec::new(),
            Vec::new(),
            Vec::new(),
            Vec::new(),
            Vec::new(),
            Vec::new(),
        ];
        let faces: [Face; 6] = Face::ALL;
        proof {
            lemma_face_all();
        }
        for n in 0..6
            invariant
                self.at_rest(),
                self.visible_masks == old(self).visible_masks,
                self.shows_near(voxels@, src, !0u64, !0u64, !0u64),
                forall|j: int| 0 <= j < 6 ==> faces@[j] == Face::of_index(j),
                forall|j: int| n <= j < 6 ==> (#[trigger] lists@[j])@.len() == 0,
                forall|j: int|
                    0 <= j < n ==> (#[trigger] lists@[j])@ == face_quads(
                        voxels@,
                        src.faces(voxels@, Face::of_index(j)),
                        Face::of_index(j).axis(),
                    ),
        {
            let face: Face = faces[n];
            let ghost seen = src.faces(voxels@, face);
            let ghost prev = *self;
            proof {
                lemma_source_within(src, voxels@, face);
                lemma_bit_consts();
                assert(shows_planes(self.mask(face), seen, face.axis(), !0u64));
            }
            match face.along() {
                Axis::X => self.merge_x(voxels, face, &mut lists[n], Ghost(seen)),
                Axis::Y => self.merge_y(voxels, face, &mut lists[n], Ghost(seen)),
                Axis::Z => self.merge_z(voxels, face, &mut lists[n], Ghost(seen)),
            }
            proof {
                self.lemma_same_words(prev, voxels@, src, !0u64, !0u64, !0u64);
                assert(lists@[n as int]@ =~= face_quads(voxels@, seen, face.axis()));
            }
        }
        let mesh = QuadMesh(lists);
        proof {
            assert forall|f: Face| #[trigger]
                mesh.list(f) == face_quads(voxels@, src.faces(voxels@, f), f.axis()) by {
                lemma_face_index(f);
            }
        }
        mesh
    }
}

/// The plane in which a quad of a direction along `axis` lies.
pub(crate) fn plane_index(axis: Axis, q: Quad) -> (k: usize)
    ensures
        k == quad_plane(axis, q),
        k < 64,
{
    match axis {
        Axis::X => q.x() as usize,
        Axis::Y => q.y() as usize,
        Axis::Z => q.z() as usize,
    }
}

/// A plane word widened by one plane to either side, without the shell.
pub(crate) fn dilate(w: u64) -> (r: u64)
    ensures
        r == dilated(w),
        forall|i: int| #[trigger] bit(r, i) ==> interior(i),
{
    let r: u64 = ((w << 1) | (w >> 1) | w) & !PAD_MASK;
    proof {
        lemma_dilated(w);
        assert forall|i: int| #[trigger] bit(r, i) implies interior(i) by {
            assert(bit(dilated(w), i));
        }
    }
    r
}

/// Reusable buffers for meshing.
pub struct Mesher {
    scratch: Vec<Quad>,
    inner: InnerMesher,
}

impl Mesher {
    /// The counters of the runs along z, one per `(x, y)`.
    pub closed spec fn forward_merged(self) -> Seq<u8> {
        self.inner.forward_merged@
    }

    /// The counters of the runs along y, one per `x`.
    pub closed spec fn upward_merged(self) -> Seq<u8> {
        self.inner.upward_merged@
    }

    /// The buffers are as a call leaves them and the next one expects them.
    pub closed spec fn wf(self) -> bool {
        self.inner.at_rest()
    }

    /// The state between two calls: the buffers are in order and every
    /// counter of the merges is zero.
    pub open spec fn at_rest(self) -> bool {
        &&& self.wf()
        &&& self.forward_merged() =~= Seq::new(SQUARE as nat, |i: int| 0u8)
        &&& self.upward_merged() =~= Seq::new(LEN as nat, |i: int| 0u8)
    }

    /// A mesher with fresh buffers.
    pub fn new() -> (mesher: Mesher)
        ensures
            mesher.at_rest(),
    {
        Mesher { scratch: Vec::new(), inner: InnerMesher::new() }
    }

    /// Meshes a chunk from its voxels and the two column masks that the
    /// caller keeps beside them.
    pub fn mesh(
        &mut self,
        voxels: &[u16; CUBE],
        opaque_masks: &[u64; SQUARE],
        transparent_masks: &[u64; SQUARE],
    ) -> (mesh: QuadMesh)
        requires
            old(self).at_rest(),
        ensures
            final(self).at_rest(),
            forall|f: Face| #[trigger]
                mesh.list(f) == mask_mesh_list(voxels@, opaque_masks@, transparent_masks@, f),
    {
        self.inner.build_all_visible(voxels, opaque_masks, transparent_masks);
        self.inner.face_merging(voxels, Ghost(Source::Masks { opaque_masks, transparent_masks }))
    }

    /// Meshes a chunk from its voxels and the set of transparent materials.
    pub fn slow_mesh(&mut self, voxels: &[u16; CUBE], transparents: &HashSet<u16>) -> (mesh:
        QuadMesh)
        requires
            old(self).at_rest(),
        ensures
            final(self).at_rest(),
            forall|f: Face| #[trigger] mesh.list(f) == mesh_list(voxels@, transparents@, f),
    {
        self.inner.build_all_visible_slow(voxels, transparents);
        self.inner.face_merging(voxels, Ghost(Source::Materials { transparents }))
    }
}

impl Mesher {
    /// Makes the six lists of `mesh` anew on the planes that `xs`, `ys` and
    /// `zs` mark, from the words as they stand.
    fn merge_and_splice(
        &mut self,
        voxels: &[u16; CUBE],
        mesh: &mut QuadMesh,
        xs: u64,
        ys: u64,
        zs: u64,
        Ghost(src): Ghost<Source>,
    )
        requires
            old(self).inner.at_rest(),
            old(self).inner.shows_near(voxels@, src, xs, ys, zs),
            forall|i: int| #[trigger] bit(xs, i) ==> interior(i),
            forall|i: int| #[trigger] bit(ys, i) ==> interior(i),
            forall|i: int| #[trigger] bit(zs, i) ==> interior(i),
        ensures
            final(self).inner.at_rest(),
            forall|f: Face| #[trigger]
                final(mesh).list(f) == spliced(
                    old(mesh).list(f),
                    voxels@,
                    src.faces(voxels@, f),
                    f.axis(),
                    axis_word(f.axis(), xs, ys, zs),
                    64,
                ),
    {
        let faces: [Face; 6] = Face::ALL;
        proof {
            lemma_face_all();
        }
        for n in 0..6
            invariant
                self.inner.at_rest(),
                self.inner.shows_near(voxels@, src, xs, ys, zs),
                forall|i: int| #[trigger] bit(xs, i) ==> interior(i),
                forall|i: int| #[trigger] bit(ys, i) ==> interior(i),
                forall|i: int| #[trigger] bit(zs, i) ==> interior(i),
                forall|j: int| 0 <= j < 6 ==> faces@[j] == Face::of_index(j),
                forall|j: int| n <= j < 6 ==> #[trigger] mesh.0@[j] == old(mesh).0@[j],
                forall|j: int|
                    0 <= j < n ==> (#[trigger] mesh.0@[j])@ == spliced(
                        old(mesh).0@[j]@,
                        voxels@,
                        src.faces(voxels@, Face::of_index(j)),
                        Face::of_index(j).axis(),
                        axis_word(Face::of_index(j).axis(), xs, ys, zs),
                        64,
                    ),
        {
            let face: Face = faces[n];
            let ks: u64 = match face.along() {
                Axis::X => xs,
                Axis::Y => ys,
                Axis::Z => zs,
            };
            let ghost seen = src.faces(voxels@, face);
            let ghost prev = self.inner;
            proof {
                lemma_source_within(src, voxels@, face);
                assert(shows_planes(self.inner.mask(face), seen, face.axis(), ks));
            }
            self.scratch.clear();
            self.inner.splice(voxels, face, ks, &mesh.0[n], &mut self.scratch, Ghost(seen));
            core::mem::swap(&mut mesh.0[n], &mut self.scratch);
            proof {
                self.inner.lemma_same_words(prev, voxels@, src, xs, ys, zs);
            }
        }
        proof {
            assert forall|f: Face| #[trigger]
                mesh.list(f) == spliced(
                    old(mesh).list(f),
                    voxels@,
                    src.faces(voxels@, f),
                    f.axis(),
                    axis_word(f.axis(), xs, ys, zs),
                    64,
                ) by {
                lemma_face_index(f);
            }
        }
    }

    /// Meshes a chunk again after edits, from its voxels and the two column
    /// masks, touching only the planes near an edit.
    ///
    /// On every plane next to one that `changes` marks, and on those planes
    /// themselves, the quads of `mesh` are replaced by the quads of the
    /// chunk as it is now; the quads of the other planes stay.
    pub fn remesh(
        &mut self,
        voxels: &[u16; CUBE],
        opaque_masks: &[u64; SQUARE],
        transparent_masks: &[u64; SQUARE],
        mesh: &mut QuadMesh,
        changes: MeshChanges,
    )
        requires
            old(self).at_rest(),
        ensures
            final(self).at_rest(),
            forall|f: Face| #[trigger]
                final(mesh).list(f) == remeshed(
                    old(mesh).list(f),
                    voxels@,
                    mask_faces(voxels@, opaque_masks@, transparent_masks@, f),
                    f.axis(),
                    changes.planes(f.axis()),
                ),
    {
        let words: [u64; 3] = changes.to_array();
        let xs: u64 = dilate(words[0]);
        let ys: u64 = dilate(words[1]);
        let zs: u64 = dilate(words[2]);
        self.inner.build_visible(voxels, opaque_masks, transparent_masks, xs, ys, zs);
        self.merge_and_splice(
            voxels,
            mesh,
            xs,
            ys,
            zs,
            Ghost(Source::Masks { opaque_masks, transparent_masks }),
        );
    }

    /// Meshes a chunk again after edits, from its voxels and the set of
    /// transparent materials, touching only the planes near an edit.
    pub fn remesh_slow(
        &mut self,
        voxels: &[u16; CUBE],
        transparents: &HashSet<u16>,
        mesh: &mut QuadMesh,
        changes: MeshChanges,
    )
        requires
            old(self).at_rest(),
        ensures
            final(self).at_rest(),
            forall|f: Face| #[trigger]
                final(mesh).list(f) == remeshed(
                    old(mesh).list(f),
                    voxels@,
                    seen_faces(voxels@, transparents@, f),
                    f.axis(),
                    changes.planes(f.axis()),
                ),
    {
        let words: [u64; 3] = changes.to_array();
        let xs: u64 = dilate(words[0]);
        let ys: u64 = dilate(words[1]);
        let zs: u64 = dilate(words[2]);
        self.inner.build_visible_slow(voxels, transparents, xs, ys, zs);
        self.merge_and_splice(voxels, mesh, xs, ys, zs, Ghost(Source::Materials { transparents }));
    }
}

impl Default for Mesher {
    fn default() -> (mesher: Mesher)
        ensures
            mesher.at_rest(),
    {
        Mesher::new()
    }
}

} // verus!
