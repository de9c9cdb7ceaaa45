//! Where a voxel and its column stand in the flat buffers.

use crate::bits::{bit, lemma_bit_ops};
use crate::face::{Axis, Face};
use vstd::prelude::*;

verus! {

/// The side of the chunk.
pub const LEN: usize = 64;

/// The number of columns of a chunk: one per `(y, z)`.
pub const SQUARE: usize = 4096;

/// The number of voxels of a chunk.
pub const CUBE: usize = 262144;

/// A coordinate that lies in the chunk.
pub open spec fn in_chunk(c: int) -> bool {
    0 <= c < 64
}

/// A coordinate that lies inside the one-voxel shell of the chunk.
pub open spec fn interior(c: int) -> bool {
    1 <= c < 63
}

/// The place of column `(y, z)` in a buffer of columns.
pub open spec fn index_2d(y: int, z: int) -> int {
    y + 64 * z
}

/// The place of voxel `(x, y, z)` in a buffer of voxels.
pub open spec fn index_3d(x: int, y: int, z: int) -> int {
    x + 64 * y + 4096 * z
}

/// The voxel at `(x, y, z)`.
pub open spec fn voxel_at(voxels: Seq<u16>, x: int, y: int, z: int) -> u16 {
    voxels[index_3d(x, y, z)]
}

proof fn bv_linearize(x: usize, y: usize, z: usize)
    by (bit_vector)
    requires
        x < 64,
        y < 64,
        z < 64,
    ensures
        x | (y << 6) | (z << 12) == x + 64 * y + 4096 * z,
        x | (y << 6) == x + 64 * y,
        (x << 0) == x,
{
}

proof fn bv_column(x: usize, i: usize)
    by (bit_vector)
    requires
        x < 64,
        i < 4096,
    ensures
        x | (i << 6) == x + 64 * i,
{
}

/// The place of column `(y, z)` among the columns.
pub fn linearize_2d(y: usize, z: usize) -> (i: usize)
    ensures
        i == y | (z << 6),
        y < LEN && z < LEN ==> i == index_2d(y as int, z as int) && i < SQUARE,
{
    proof {
        if y < 64 && z < 64 {
            bv_linearize(y, z, 0);
        }
    }
    y | (z << 6)
}

/// The place of voxel `(x, y, z)` among the voxels.
pub fn linearize_3d(x: usize, y: usize, z: usize) -> (i: usize)
    ensures
        i == x | (y << 6) | (z << 12),
        x < LEN && y < LEN && z < LEN ==> i == index_3d(x as int, y as int, z as int) && i < CUBE,
{
    proof {
        if x < 64 && y < 64 && z < 64 {
            bv_linearize(x, y, z);
        }
    }
    x | (y << 6) | (z << 12)
}

/// The place of the voxel at position `x` of the column at `i_2d`.
pub fn linearize_2d_to_3d(x: usize, i_2d: usize) -> (i: usize)
    ensures
        i == x | (i_2d << 6),
        x < LEN && i_2d < SQUARE ==> i == x + 64 * i_2d && i < CUBE,
{
    proof {
        if x < 64 && i_2d < 4096 {
            bv_column(x, i_2d);
        }
    }
    x | (i_2d << 6)
}

/// How far, in the buffer of voxels, the neighbour across `face` lies.
pub fn offset_3d(face: Face) -> (d: isize)
    ensures
        d == face.dx() + 64 * face.dy() + 4096 * face.dz(),
{
    match face {
        Face::PosX => 1,
        Face::NegX => -1,
        Face::PosY => 64,
        Face::NegY => -64,
        Face::PosZ => 4096,
        Face::NegZ => -4096,
    }
}

/// The column across `face` from the column at `i_2d`, shifted so that its
/// position `x` tells of the neighbour of the voxel at `x`.
///
/// `pad_opaque` is the column at `i_2d` itself; along x the neighbour lies in it.
pub fn adj_opaque(face: Face, pad_opaque: u64, opaque_masks: &[u64; SQUARE], i_2d: usize) -> (r:
    u64)
    requires
        0 <= i_2d + face.dy() + 64 * face.dz() < SQUARE,
    ensures
        face.axis() == Axis::X ==> forall|x: int|
            in_chunk(x) ==> #[trigger] bit(r, x) == bit(pad_opaque, x + face.dx()),
        face.axis() != Axis::X ==> r == opaque_masks@[i_2d + face.dy() + 64 * face.dz()],
{
    proof {
        lemma_bit_ops(pad_opaque, pad_opaque);
    }
    match face {
        Face::PosX => pad_opaque >> 1,
        Face::NegX => pad_opaque << 1,
        Face::PosY => opaque_masks[i_2d + 1],
        Face::NegY => opaque_masks[i_2d - 1],
        Face::PosZ => opaque_masks[i_2d + 64],
        Face::NegZ => opaque_masks[i_2d - 64],
    }
}

} // verus!
