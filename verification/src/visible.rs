//! The first stage: one word per column and face direction, with a position
//! set for each voxel that shows its face in that direction.

use crate::bits::{
    among, bit, bit_positions, lemma_among_all, lemma_bit_consts, lemma_bit_ops, lists_bits,
    test_bit, with_bit, PAD_MASK,
};
use crate::face::{lemma_face_all, lemma_face_index, Axis, Face};
use crate::layout::{
    adj_opaque, in_chunk, index_2d, index_3d, interior, linearize_2d, linearize_2d_to_3d,
    linearize_3d, offset_3d, voxel_at, CUBE, LEN, SQUARE,
};
use crate::masks::in_set;
use crate::model::{face_visible, mask_faces, mask_visible, seen_faces, within_shell};
use crate::quad::Quad;
use std::collections::HashSet;
use vstd::prelude::*;

verus! {

/// What decides visibility: the two column masks of the fast path, or the
/// set of transparent materials of the slow one.
pub(crate) enum Source<'a> {
    Masks { opaque_masks: &'a [u64; SQUARE], transparent_masks: &'a [u64; SQUARE] },
    Materials { transparents: &'a HashSet<u16> },
}

impl<'a> Source<'a> {
    /// The faces that are visible in direction `face` by this source.
    pub(crate) open spec fn faces(self, voxels: Seq<u16>, face: Face) -> spec_fn(
        int,
        int,
        int,
    ) -> bool {
        match self {
            Source::Masks { opaque_masks, transparent_masks } => mask_faces(
                voxels,
                opaque_masks@,
                transparent_masks@,
                face,
            ),
            Source::Materials { transparents } => seen_faces(voxels, transparents@, face),
        }
    }
}

/// Whichever the source, only faces inside the shell are visible.
pub(crate) proof fn lemma_source_within(src: Source, voxels: Seq<u16>, face: Face)
    ensures
        within_shell(src.faces(voxels, face)),
{
}

/// The buffers that a mesher keeps from one call to the next.
pub(crate) struct InnerMesher {
    pub(crate) visible_masks: Box<[[u64; SQUARE]; 6]>,
    pub(crate) forward_merged: Box<[u8; SQUARE]>,
    pub(crate) upward_merged: Box<[u8; LEN]>,
    pub(crate) planes: Vec<Vec<Quad>>,
}

impl InnerMesher {
    /// The words of direction `face`, column by column.
    pub(crate) open spec fn mask(self, face: Face) -> Seq<u64> {
        self.visible_masks@[face.index()]@
    }

    /// The columns of the shell hold no visible face.
    pub(crate) open spec fn shell_clear(self) -> bool {
        forall|f: Face, y: int, z: int|
            in_chunk(y) && in_chunk(z) && !(interior(y) && interior(z))
                ==> #[trigger] self.mask(f)[index_2d(y, z)] == 0
    }

    /// Every counter of the merges is zero.
    pub(crate) open spec fn counters_rest(self) -> bool {
        &&& forall|i: int| 0 <= i < SQUARE ==> #[trigger] self.forward_merged@[i] == 0
        &&& forall|i: int| 0 <= i < LEN ==> #[trigger] self.upward_merged@[i] == 0
    }

    /// There is one list per plane, and each is empty.
    pub(crate) open spec fn planes_rest(self) -> bool {
        &&& self.planes@.len() == 64
        &&& forall|k: int| 0 <= k < 64 ==> (#[trigger] self.planes@[k])@.len() == 0
    }

    /// The state between two calls.
    pub(crate) open spec fn at_rest(self) -> bool {
        self.shell_clear() && self.counters_rest() && self.planes_rest()
    }

    /// The words of the column `(y, z)` show, within the positions `xs`,
    /// exactly the faces that are visible by `src`.
    pub(crate) open spec fn row_shows(
        self,
        voxels: Seq<u16>,
        src: Source,
        xs: u64,
        y: int,
        z: int,
    ) -> bool {
        forall|f: Face, x: int|
            in_chunk(x) ==> #[trigger] bit(self.mask(f)[index_2d(y, z)], x) == (bit(xs, x) && (
            src.faces(voxels, f))(x, y, z))
    }

    /// Apart from the words of the columns `(y, z)` with `y` in `ys` and `z`
    /// in `zs`, `self` is as `old` was.
    pub(crate) open spec fn same_but(self, old: InnerMesher, ys: u64, zs: u64) -> bool {
        &&& self.forward_merged == old.forward_merged
        &&& self.upward_merged == old.upward_merged
        &&& self.planes == old.planes
        &&& forall|f: Face, y: int, z: int|
            in_chunk(y) && in_chunk(z) && !(bit(ys, y) && bit(zs, z))
                ==> #[trigger] self.mask(f)[index_2d(y, z)] == old.mask(f)[index_2d(y, z)]
    }

    /// Fresh buffers, at rest.
    pub(crate) fn new() -> (r: InnerMesher)
        ensures
            r.at_rest(),
            forall|f: Face, i: int| 0 <= i < SQUARE ==> #[trigger] r.mask(f)[i] == 0,
    {
        let mut planes: Vec<Vec<Quad>> = Vec::new();
        for k in 0..LEN
            invariant
                planes@.len() == k,
                forall|j: int| 0 <= j < k ==> (#[trigger] planes@[j])@.len() == 0,
        {
            planes.push(Vec::new());
        }
        let r = InnerMesher {
            visible_masks: Box::new([[0u64; SQUARE]; 6]),
            forward_merged: Box::new([0u8; SQUARE]),
            upward_merged: Box::new([0u8; LEN]),
            planes,
        };
        proof {
            assert forall|f: Face, i: int| 0 <= i < SQUARE implies #[trigger] r.mask(f)[i] == 0 by {
                lemma_face_index(f);
            }
        }
        r
    }

    /// Writes the six words of the column `(y, z)`. `list` is room for the
    /// positions of the voxels to look at one by one.
    pub(crate) fn row_handler(
        &mut self,
        voxels: &[u16; CUBE],
        src: &Source,
        xs: u64,
        y: usize,
        z: usize,
        list: &mut Vec<usize>,
    )
        requires
            1 <= y < 63,
            1 <= z < 63,
        ensures
            final(self).row_shows(voxels@, *src, xs, y as int, z as int),
            final(self).forward_merged == old(self).forward_merged,
            final(self).upward_merged == old(self).upward_merged,
            final(self).planes == old(self).planes,
            forall|f: Face, i: int|
                0 <= i < SQUARE && i != index_2d(y as int, z as int)
                    ==> #[trigger] final(self).mask(f)[i] == old(self).mask(f)[i],
    {
        let i_2d: usize = linearize_2d(y, z);
        let faces: [Face; 6] = Face::ALL;
        proof {
            lemma_face_all();
        }
        for n in 0..6
            invariant
                1 <= y < 63,
                1 <= z < 63,
                i_2d == index_2d(y as int, z as int),
                forall|j: int| 0 <= j < 6 ==> faces@[j] == Face::of_index(j),
                self.forward_merged == old(self).forward_merged,
                self.upward_merged == old(self).upward_merged,
                self.planes == old(self).planes,
                forall|j: int, x: int|
                    0 <= j < n && in_chunk(x) ==> #[trigger] bit(
                        self.visible_masks@[j]@[i_2d as int],
                        x,
                    ) == (bit(xs, x) && (src.faces(voxels@, Face::of_index(j)))(
                        x,
                        y as int,
                        z as int,
                    )),
                forall|j: int, i: int|
                    0 <= j < 6 && 0 <= i < SQUARE && i != i_2d
                        ==> #[trigger] self.visible_masks@[j]@[i] == old(
                        self,
                    ).visible_masks@[j]@[i],
        {
            let face: Face = faces[n];
            let word: u64 = match src {
                Source::Masks { opaque_masks, transparent_masks } => fast_row(
                    voxels,
                    opaque_masks,
                    transparent_masks,
                    face,
                    xs,
                    y,
                    z,
                    list,
                ),
                Source::Materials { transparents } => slow_row(
                    voxels,
                    transparents,
                    face,
                    xs,
                    y,
                    z,
                ),
            };
            self.visible_masks[n][i_2d] = word;
        }
        proof {
            assert forall|f: Face, x: int| in_chunk(x) implies #[trigger] bit(
                self.mask(f)[index_2d(y as int, z as int)],
                x,
            ) == (bit(xs, x) && (src.faces(voxels@, f))(x, y as int, z as int)) by {
                lemma_face_index(f);
            }
            assert forall|f: Face, i: int|
                0 <= i < SQUARE && i != index_2d(y as int, z as int)
                    implies #[trigger] self.mask(f)[i] == old(self).mask(f)[i] by {
                lemma_face_index(f);
            }
        }
    }

    /// Writes the words of the columns `(y, z)` with `y` in `ys` and `z` in
    /// `zs`, within the positions `xs`.
    pub(crate) fn build_block(
        &mut self,
        voxels: &[u16; CUBE],
        src: &Source,
        xs: u64,
        ys: u64,
        zs: u64,
    )
        requires
            forall|i: int| #[trigger] bit(ys, i) ==> interior(i),
            forall|i: int| #[trigger] bit(zs, i) ==> interior(i),
        ensures
            final(self).same_but(*old(self), ys, zs),
            forall|y: int, z: int|
                bit(ys, y) && bit(zs, z) ==> #[trigger] final(self).row_shows(
                    voxels@,
                    *src,
                    xs,
                    y,
                    z,
                ),
    {
        let mut z_list: Vec<usize> = Vec::with_capacity(LEN);
        let mut y_list: Vec<usize> = Vec::with_capacity(LEN);
        let mut list: Vec<usize> = Vec::with_capacity(LEN);
        bit_positions(zs, &mut z_list);
        bit_positions(ys, &mut y_list);
        for n in 0..z_list.len()
            invariant
                lists_bits(z_list@, zs),
                lists_bits(y_list@, ys),
                forall|i: int| #[trigger] bit(ys, i) ==> interior(i),
                forall|i: int| #[trigger] bit(zs, i) ==> interior(i),
                self.same_but(*old(self), ys, zs),
                forall|y: int, z: int|
                    bit(ys, y) && among(z_list@, n as int, z) ==> #[trigger] self.row_shows(
                        voxels@,
                        *src,
                        xs,
                        y,
                        z,
                    ),
        {
            let z: usize = z_list[n];
            assert(bit(zs, z as int));
            let ghost before = *self;
            for m in 0..y_list.len()
                invariant
                    lists_bits(y_list@, ys),
                    forall|i: int| #[trigger] bit(ys, i) ==> interior(i),
                    interior(z as int),
                    bit(zs, z as int),
                    self.same_but(*old(self), ys, zs),
                    forall|f: Face, i: int, k: int|
                        in_chunk(i) && in_chunk(k) && k != z ==> #[trigger] self.mask(f)[index_2d(
                            i,
                            k,
                        )] == before.mask(f)[index_2d(i, k)],
                    forall|y: int|
                        among(y_list@, m as int, y) ==> #[trigger] self.row_shows(
                            voxels@,
                            *src,
                            xs,
                            y,
                            z as int,
                        ),
            {
                let y: usize = y_list[m];
                assert(bit(ys, y as int));
                let ghost prior = *self;
                self.row_handler(voxels, src, xs, y, z, &mut list);
                proof {
                    assert forall|v: int|
                        among(y_list@, m + 1, v) implies #[trigger] self.row_shows(
                        voxels@,
                        *src,
                        xs,
                        v,
                        z as int,
                    ) by {
                        if v != y {
                            assert(among(y_list@, m as int, v));
                            assert(prior.row_shows(voxels@, *src, xs, v, z as int));
                            assert(index_2d(v, z as int) != index_2d(y as int, z as int));
                        }
                    }
                }
            }
            proof {
                assert forall|y: int, v: int|
                    bit(ys, y) && among(z_list@, n + 1, v) implies #[trigger] self.row_shows(
                    voxels@,
                    *src,
                    xs,
                    y,
                    v,
                ) by {
                    if v != z {
                        assert(among(z_list@, n as int, v));
                        assert(before.row_shows(voxels@, *src, xs, y, v));
                        let w = choose|w: int| 0 <= w < n && z_list@[w] == v;
                        assert(bit(zs, z_list@[w] as int));
                    } else {
                        lemma_among_all(y_list@, ys, y);
                    }
                }
            }
        }
        proof {
            assert forall|y: int, z: int|
                bit(ys, y) && bit(zs, z) implies #[trigger] self.row_shows(
                voxels@,
                *src,
                xs,
                y,
                z,
            ) by {
                lemma_among_all(z_list@, zs, z);
            }
        }
    }
}

impl InnerMesher {
    /// The words show the faces that are visible by `src` wherever one of
    /// `xs`, `ys`, `zs` marks the plane of the voxel, and nothing elsewhere.
    pub(crate) open spec fn shows_near(
        self,
        voxels: Seq<u16>,
        src: Source,
        xs: u64,
        ys: u64,
        zs: u64,
    ) -> bool {
        forall|f: Face, x: int, y: int, z: int|
            in_chunk(x) && in_chunk(y) && in_chunk(z) ==> #[trigger] bit(
                self.mask(f)[index_2d(y, z)],
                x,
            ) == ((src.faces(voxels, f))(x, y, z) && (bit(xs, x) || bit(ys, y) || bit(zs, z)))
    }

    /// Apart from the words of the columns, `self` is as `old` was.
    pub(crate) open spec fn same_counters(self, old: InnerMesher) -> bool {
        &&& self.forward_merged == old.forward_merged
        &&& self.upward_merged == old.upward_merged
        &&& self.planes == old.planes
    }

    /// What is said of the words holds of any state with the same words.
    pub(crate) proof fn lemma_same_words(
        self,
        other: InnerMesher,
        voxels: Seq<u16>,
        src: Source,
        xs: u64,
        ys: u64,
        zs: u64,
    )
        requires
            self.visible_masks == other.visible_masks,
        ensures
            other.shell_clear() ==> self.shell_clear(),
            other.shows_near(voxels, src, xs, ys, zs) ==> self.shows_near(voxels, src, xs, ys, zs),
    {
        assert forall|f: Face| #[trigger] self.mask(f) == other.mask(f) by {
        }
        if other.shell_clear() {
            assert forall|f: Face, y: int, z: int|
                in_chunk(y) && in_chunk(z) && !(interior(y) && interior(z))
                    implies #[trigger] self.mask(f)[index_2d(y, z)] == 0 by {
                assert(self.mask(f) == other.mask(f));
            }
        }
        if other.shows_near(voxels, src, xs, ys, zs) {
            assert forall|f: Face, x: int, y: int, z: int|
                in_chunk(x) && in_chunk(y) && in_chunk(z) implies #[trigger] bit(
                self.mask(f)[index_2d(y, z)],
                x,
            ) == ((src.faces(voxels, f))(x, y, z) && (bit(xs, x) || bit(ys, y) || bit(zs, z))) by {
                assert(self.mask(f) == other.mask(f));
            }
        }
    }

    /// The words of every column inside the shell, for all six directions.
    pub(crate) fn build_all(&mut self, voxels: &[u16; CUBE], src: &Source)
        requires
            old(self).shell_clear(),
        ensures
            final(self).shell_clear(),
            final(self).same_counters(*old(self)),
            final(self).shows_near(voxels@, *src, !0u64, !0u64, !0u64),
    {
        proof {
            lemma_bit_consts();
        }
        self.build_block(voxels, src, !0u64, !PAD_MASK, !PAD_MASK);
        proof {
            assert forall|f: Face, x: int, y: int, z: int|
                in_chunk(x) && in_chunk(y) && in_chunk(z) implies #[trigger] bit(
                self.mask(f)[index_2d(y, z)],
                x,
            ) == ((src.faces(voxels@, f))(x, y, z) && (bit(!0u64, x) || bit(!0u64, y) || bit(
                !0u64,
                z,
            ))) by {
                if interior(y) && interior(z) {
                    assert(self.row_shows(voxels@, *src, !0u64, y, z));
                } else {
                    assert(self.mask(f)[index_2d(y, z)] == old(self).mask(f)[index_2d(y, z)]);
                }
            }
        }
    }

    /// The words of the columns near an edit: all of the column where `ys`
    /// or `zs` marks it, and the positions that `xs` marks everywhere else.
    pub(crate) fn build_near(
        &mut self,
        voxels: &[u16; CUBE],
        src: &Source,
        xs: u64,
        ys: u64,
        zs: u64,
    )
        requires
            old(self).shell_clear(),
            forall|i: int| #[trigger] bit(ys, i) ==> interior(i),
            forall|i: int| #[trigger] bit(zs, i) ==> interior(i),
        ensures
            final(self).shell_clear(),
            final(self).same_counters(*old(self)),
            final(self).shows_near(voxels@, *src, xs, ys, zs),
    {
        let inv_ys: u64 = !ys & !PAD_MASK;
        let inv_zs: u64 = !zs & !PAD_MASK;
        proof {
            lemma_bit_consts();
            lemma_bit_ops(ys, ys);
            lemma_bit_ops(zs, zs);
            lemma_bit_ops(!ys, !PAD_MASK);
            lemma_bit_ops(!zs, !PAD_MASK);
        }
        self.build_block(voxels, src, !0u64, !PAD_MASK, zs);
        let ghost first = *self;
        self.build_block(voxels, src, !0u64, ys, inv_zs);
        let ghost second = *self;
        self.build_block(voxels, src, xs, inv_ys, inv_zs);
        proof {
            assert forall|f: Face, x: int, y: int, z: int|
                in_chunk(x) && in_chunk(y) && in_chunk(z) implies #[trigger] bit(
                self.mask(f)[index_2d(y, z)],
                x,
            ) == ((src.faces(voxels@, f))(x, y, z) && (bit(xs, x) || bit(ys, y) || bit(zs, z))) by {
                if interior(y) && interior(z) {
                    if bit(zs, z) {
                        assert(first.row_shows(voxels@, *src, !0u64, y, z));
                        assert(second.mask(f)[index_2d(y, z)] == first.mask(f)[index_2d(y, z)]);
                        assert(self.mask(f)[index_2d(y, z)] == second.mask(f)[index_2d(y, z)]);
                    } else if bit(ys, y) {
                        assert(second.row_shows(voxels@, *src, !0u64, y, z));
                        assert(self.mask(f)[index_2d(y, z)] == second.mask(f)[index_2d(y, z)]);
                    } else {
                        assert(self.row_shows(voxels@, *src, xs, y, z));
                    }
                } else {
                    assert(first.mask(f)[index_2d(y, z)] == old(self).mask(f)[index_2d(y, z)]);
                    assert(second.mask(f)[index_2d(y, z)] == first.mask(f)[index_2d(y, z)]);
                    assert(self.mask(f)[index_2d(y, z)] == second.mask(f)[index_2d(y, z)]);
                }
            }
            assert forall|f: Face, y: int, z: int|
                in_chunk(y) && in_chunk(z) && !(interior(y) && interior(z))
                    implies #[trigger] self.mask(f)[index_2d(y, z)] == 0 by {
                assert(first.mask(f)[index_2d(y, z)] == old(self).mask(f)[index_2d(y, z)]);
                assert(second.mask(f)[index_2d(y, z)] == first.mask(f)[index_2d(y, z)]);
                assert(self.mask(f)[index_2d(y, z)] == second.mask(f)[index_2d(y, z)]);
            }
        }
    }

    /// The words of every column, from the two masks.
    pub(crate) fn build_all_visible(
        &mut self,
        voxels: &[u16; CUBE],
        opaque_masks: &[u64; SQUARE],
        transparent_masks: &[u64; SQUARE],
    )
        requires
            old(self).shell_clear(),
        ensures
            final(self).shell_clear(),
            final(self).same_counters(*old(self)),
            final(self).shows_near(
                voxels@,
                Source::Masks { opaque_masks, transparent_masks },
                !0u64,
                !0u64,
                !0u64,
            ),
    {
        self.build_all(voxels, &Source::Masks { opaque_masks, transparent_masks });
    }

    /// The words of every column, voxel by voxel.
    pub(crate) fn build_all_visible_slow(
        &mut self,
        voxels: &[u16; CUBE],
        transparents: &HashSet<u16>,
    )
        requires
            old(self).shell_clear(),
        ensures
            final(self).shell_clear(),
            final(self).same_counters(*old(self)),
            final(self).shows_near(
                voxels@,
                Source::Materials { transparents },
                !0u64,
                !0u64,
                !0u64,
            ),
    {
        self.build_all(voxels, &Source::Materials { transparents });
    }

    /// The words of the columns near an edit, from the two masks.
    pub(crate) fn build_visible(
        &mut self,
        voxels: &[u16; CUBE],
        opaque_masks: &[u64; SQUARE],
        transparent_masks: &[u64; SQUARE],
        xs: u64,
        ys: u64,
        zs: u64,
    )
        requires
            old(self).shell_clear(),
            forall|i: int| #[trigger] bit(ys, i) ==> interior(i),
            forall|i: int| #[trigger] bit(zs, i) ==> interior(i),
        ensures
            final(self).shell_clear(),
            final(self).same_counters(*old(self)),
            final(self).shows_near(
                voxels@,
                Source::Masks { opaque_masks, transparent_masks },
                xs,
                ys,
                zs,
            ),
    {
        self.build_near(voxels, &Source::Masks { opaque_masks, transparent_masks }, xs, ys, zs);
    }

    /// The words of the columns near an edit, voxel by voxel.
    pub(crate) fn build_visible_slow(
        &mut self,
        voxels: &[u16; CUBE],
        transparents: &HashSet<u16>,
        xs: u64,
        ys: u64,
        zs: u64,
    )
        requires
            old(self).shell_clear(),
            forall|i: int| #[trigger] bit(ys, i) ==> interior(i),
            forall|i: int| #[trigger] bit(zs, i) ==> interior(i),
        ensures
            final(self).shell_clear(),
            final(self).same_counters(*old(self)),
            final(self).shows_near(voxels@, Source::Materials { transparents }, xs, ys, zs),
    {
        self.build_near(voxels, &Source::Materials { transparents }, xs, ys, zs);
    }
}

/// The word of direction `face` for the column `(y, z)`, from the masks:
/// the opaque voxels whose neighbour is not opaque, and the transparent ones
/// whose neighbour is not opaque and of another material.
///
/// `list` is room for the positions of the transparent voxels to look at.
pub(crate) fn fast_row(
    voxels: &[u16; CUBE],
    opaque_masks: &[u64; SQUARE],
    transparent_masks: &[u64; SQUARE],
    face: Face,
    xs: u64,
    y: usize,
    z: usize,
    list: &mut Vec<usize>,
) -> (word: u64)
    requires
        1 <= y < 63,
        1 <= z < 63,
    ensures
        forall|x: int|
            in_chunk(x) ==> #[trigger] bit(word, x) == (bit(xs, x) && mask_visible(
                voxels@,
                opaque_masks@,
                transparent_masks@,
                face,
                x,
                y as int,
                z as int,
            )),
{
    let i_2d: usize = linearize_2d(y, z);
    let pad_opaque: u64 = opaque_masks[i_2d];
    let opaque: u64 = pad_opaque & !PAD_MASK & xs;
    let transparent: u64 = transparent_masks[i_2d] & !PAD_MASK & xs;
    let offset: isize = offset_3d(face);
    let adjacent: u64 = adj_opaque(face, pad_opaque, opaque_masks, i_2d);
    let open: u64 = opaque & !adjacent;
    let candidates: u64 = transparent & !adjacent;
    let ghost ay = y + face.dy();
    let ghost az = z + face.dz();
    proof {
        lemma_bit_consts();
        lemma_bit_ops(pad_opaque, !PAD_MASK);
        lemma_bit_ops(pad_opaque & !PAD_MASK, xs);
        lemma_bit_ops(transparent_masks[i_2d as int], !PAD_MASK);
        lemma_bit_ops(transparent_masks[i_2d as int] & !PAD_MASK, xs);
        lemma_bit_ops(adjacent, adjacent);
        lemma_bit_ops(opaque, !adjacent);
        lemma_bit_ops(transparent, !adjacent);
        assert(index_2d(ay, az) == i_2d + face.dy() + 64 * face.dz());
        assert forall|x: int| in_chunk(x) implies bit(adjacent, x) == bit(
            opaque_masks@[index_2d(ay, az)],
            x + face.dx(),
        ) by {
            if face.axis() == Axis::X {
                assert(bit(adjacent, x) == bit(pad_opaque, x + face.dx()));
            }
        }
    }
    let mut word: u64 = open;
    bit_positions(candidates, list);
    for n in 0..list.len()
        invariant
            1 <= y < 63,
            1 <= z < 63,
            i_2d == index_2d(y as int, z as int),
            offset == face.dx() + 64 * face.dy() + 4096 * face.dz(),
            lists_bits(list@, candidates),
            forall|x: int| #[trigger] bit(candidates, x) ==> interior(x),
            forall|x: int|
                in_chunk(x) ==> #[trigger] bit(word, x) == (bit(open, x) || (among(
                    list@,
                    n as int,
                    x,
                ) && voxel_at(voxels@, x, y as int, z as int) != voxel_at(
                    voxels@,
                    x + face.dx(),
                    y + face.dy(),
                    z + face.dz(),
                ))),
    {
        let x: usize = list[n];
        assert(bit(candidates, x as int));
        let i_3d: usize = linearize_2d_to_3d(x, i_2d);
        let voxel: u16 = voxels[i_3d];
        assert(i_3d == index_3d(x as int, y as int, z as int));
        let adj_i_3d: usize = (i_3d as isize + offset) as usize;
        assert(adj_i_3d == index_3d(x + face.dx(), y + face.dy(), z + face.dz()));
        let adj_voxel: u16 = voxels[adj_i_3d];
        let ghost prior = word;
        if voxel != adj_voxel {
            word = with_bit(word, x);
        }
        proof {
            assert forall|v: int| in_chunk(v) implies #[trigger] bit(word, v) == (bit(open, v) || (
            among(list@, n + 1, v) && voxel_at(voxels@, v, y as int, z as int) != voxel_at(
                voxels@,
                v + face.dx(),
                y + face.dy(),
                z + face.dz(),
            ))) by {
                if v == x {
                    assert(list@[n as int] == v);
                } else {
                    if among(list@, n + 1, v) {
                        let w = choose|w: int| 0 <= w < n + 1 && list@[w] == v;
                        assert(among(list@, n as int, v));
                    }
                }
            }
        }
    }
    proof {
        assert forall|x: int| in_chunk(x) implies #[trigger] bit(word, x) == (bit(xs, x)
            && mask_visible(
            voxels@,
            opaque_masks@,
            transparent_masks@,
            face,
            x,
            y as int,
            z as int,
        )) by {
            lemma_among_all(list@, candidates, x);
        }
    }
    word
}

/// The word of direction `face` for the column `(y, z)`, voxel by voxel.
pub(crate) fn slow_row(
    voxels: &[u16; CUBE],
    transparents: &HashSet<u16>,
    face: Face,
    xs: u64,
    y: usize,
    z: usize,
) -> (word: u64)
    requires
        1 <= y < 63,
        1 <= z < 63,
    ensures
        forall|x: int|
            in_chunk(x) ==> #[trigger] bit(word, x) == (bit(xs, x) && face_visible(
                voxels@,
                transparents@,
                face,
                x,
                y as int,
                z as int,
            )),
{
    let offset: isize = offset_3d(face);
    let mut word: u64 = 0;
    proof {
        lemma_bit_consts();
    }
    for x in 1..63
        invariant
            1 <= y < 63,
            1 <= z < 63,
            offset == face.dx() + 64 * face.dy() + 4096 * face.dz(),
            forall|v: int|
                in_chunk(v) ==> #[trigger] bit(word, v) == (v < x && bit(xs, v) && face_visible(
                    voxels@,
                    transparents@,
                    face,
                    v,
                    y as int,
                    z as int,
                )),
    {
        if test_bit(xs, x) {
            let i_3d: usize = linearize_3d(x, y, z);
            let voxel: u16 = voxels[i_3d];
            if voxel != 0 {
                let adj_i_3d: usize = (i_3d as isize + offset) as usize;
                assert(adj_i_3d == index_3d(x + face.dx(), y + face.dy(), z + face.dz()));
                let adj_voxel: u16 = voxels[adj_i_3d];
                if adj_voxel == 0 || (voxel != adj_voxel && in_set(transparents, adj_voxel)) {
                    word = with_bit(word, x);
                }
            }
        }
    }
    word
}

} // verus!
