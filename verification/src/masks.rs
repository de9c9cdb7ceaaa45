//! The two column masks that the fast path keeps beside the voxels.

use crate::bits::{bit, lemma_bit_consts, with_bit};
use crate::layout::{in_chunk, index_2d, linearize_2d, linearize_3d, voxel_at, CUBE, LEN, SQUARE};
use std::collections::HashSet;
use vstd::prelude::*;

verus! {

/// A voxel that fills its cell and hides what lies behind it.
pub open spec fn is_opaque(voxel: u16, transparents: Set<u16>) -> bool {
    voxel != 0 && !transparents.contains(voxel)
}

/// A voxel that fills its cell and lets other materials show through.
pub open spec fn is_transparent(voxel: u16, transparents: Set<u16>) -> bool {
    voxel != 0 && transparents.contains(voxel)
}

/// `masks` marks, column by column, exactly the opaque voxels.
pub open spec fn marks_opaque(masks: Seq<u64>, voxels: Seq<u16>, transparents: Set<u16>) -> bool {
    &&& masks.len() == SQUARE
    &&& forall|x: int, y: int, z: int|
        in_chunk(x) && in_chunk(y) && in_chunk(z) ==> #[trigger] bit(masks[index_2d(y, z)], x)
            == is_opaque(voxel_at(voxels, x, y, z), transparents)
}

/// `masks` marks, column by column, exactly the transparent voxels.
pub open spec fn marks_transparent(
    masks: Seq<u64>,
    voxels: Seq<u16>,
    transparents: Set<u16>,
) -> bool {
    &&& masks.len() == SQUARE
    &&& forall|x: int, y: int, z: int|
        in_chunk(x) && in_chunk(y) && in_chunk(z) ==> #[trigger] bit(masks[index_2d(y, z)], x)
            == is_transparent(voxel_at(voxels, x, y, z), transparents)
}

/// Whether `voxel` is one of the transparent materials.
pub fn in_set(transparents: &HashSet<u16>, voxel: u16) -> (r: bool)
    ensures
        r == transparents@.contains(voxel),
{
    broadcast use vstd::std_specs::hash::group_hash_axioms;

    transparents.contains(&voxel)
}

/// The column at `(y, z)` with a position set for each voxel that is solid
/// and whose membership in `transparents` is `wanted`.
fn column_mask(
    voxels: &[u16; CUBE],
    transparents: &HashSet<u16>,
    y: usize,
    z: usize,
    wanted: bool,
) -> (word: u64)
    requires
        y < LEN,
        z < LEN,
    ensures
        forall|x: int|
            in_chunk(x) ==> #[trigger] bit(word, x) == (voxel_at(voxels@, x, y as int, z as int)
                != 0 && transparents@.contains(voxel_at(voxels@, x, y as int, z as int))
                == wanted),
{
    let mut word: u64 = 0;
    proof {
        lemma_bit_consts();
    }
    for x in 0..LEN
        invariant
            y < LEN,
            z < LEN,
            forall|i: int|
                0 <= i < x ==> #[trigger] bit(word, i) == (voxel_at(voxels@, i, y as int, z as int)
                    != 0 && transparents@.contains(voxel_at(voxels@, i, y as int, z as int))
                    == wanted),
            forall|i: int| i >= x ==> !#[trigger] bit(word, i),
    {
        let i_3d: usize = linearize_3d(x, y, z);
        let voxel: u16 = voxels[i_3d];
        if voxel != 0 && in_set(transparents, voxel) == wanted {
            word = with_bit(word, x);
        }
    }
    word
}

/// One word per column, with a position set for each voxel that is solid and
/// not transparent.
pub fn compute_opaque_masks(voxels: &[u16; CUBE], transparents: &HashSet<u16>) -> (masks: Box<
    [u64; SQUARE],
>)
    ensures
        marks_opaque(masks@, voxels@, transparents@),
{
    let mut opaque_mask: [u64; SQUARE] = [0u64; SQUARE];
    for z in 0..LEN
        invariant
            forall|x: int, y: int, k: int|
                in_chunk(x) && in_chunk(y) && 0 <= k < z ==> #[trigger] bit(
                    opaque_mask@[index_2d(y, k)],
                    x,
                ) == is_opaque(voxel_at(voxels@, x, y, k), transparents@),
    {
        for y in 0..LEN
            invariant
                z < LEN,
                forall|x: int, j: int, k: int|
                    in_chunk(x) && in_chunk(j) && 0 <= k < z ==> #[trigger] bit(
                        opaque_mask@[index_2d(j, k)],
                        x,
                    ) == is_opaque(voxel_at(voxels@, x, j, k), transparents@),
                forall|x: int, j: int|
                    in_chunk(x) && 0 <= j < y ==> #[trigger] bit(
                        opaque_mask@[index_2d(j, z as int)],
                        x,
                    ) == is_opaque(voxel_at(voxels@, x, j, z as int), transparents@),
        {
            let i_2d: usize = linearize_2d(y, z);
            opaque_mask[i_2d] = column_mask(voxels, transparents, y, z, false);
        }
    }
    Box::new(opaque_mask)
}

/// One word per column, with a position set for each voxel that is solid and
/// transparent.
pub fn compute_transparent_masks(voxels: &[u16; CUBE], transparents: &HashSet<u16>) -> (masks: Box<
    [u64; SQUARE],
>)
    ensures
        marks_transparent(masks@, voxels@, transparents@),
{
    let mut transparent_mask: [u64; SQUARE] = [0u64; SQUARE];
    for z in 0..LEN
        invariant
            forall|x: int, y: int, k: int|
                in_chunk(x) && in_chunk(y) && 0 <= k < z ==> #[trigger] bit(
                    transparent_mask@[index_2d(y, k)],
                    x,
                ) == is_transparent(voxel_at(voxels@, x, y, k), transparents@),
    {
        for y in 0..LEN
            invariant
                z < LEN,
                forall|x: int, j: int, k: int|
                    in_chunk(x) && in_chunk(j) && 0 <= k < z ==> #[trigger] bit(
                        transparent_mask@[index_2d(j, k)],
                        x,
                    ) == is_transparent(voxel_at(voxels@, x, j, k), transparents@),
                forall|x: int, j: int|
                    in_chunk(x) && 0 <= j < y ==> #[trigger] bit(
                        transparent_mask@[index_2d(j, z as int)],
                        x,
                    ) == is_transparent(voxel_at(voxels@, x, j, z as int), transparents@),
        {
            let i_2d: usize = linearize_2d(y, z);
            transparent_mask[i_2d] = column_mask(voxels, transparents, y, z, true);
        }
    }
    Box::new(transparent_mask)
}

} // verus!
