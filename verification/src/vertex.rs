//! The corners of a quad, packed for a vertex buffer.

use crate::face::Face;
use crate::quad::{field, Quad, MASK_6, MASK_XYZ};
use vstd::prelude::*;

verus! {

/// A corner of a quad.
///
/// The word holds, from the lowest bit up, six bits each of `x`, `y`, `z`,
/// `u` and `v`.
#[derive(Debug, Clone, Copy, PartialEq, Eq, PartialOrd, Ord, Hash)]
pub struct Vertex(pub u32);

/// Three coordinates in one word: `x` in the lowest bits, then `y`, then `z`.
pub open spec fn spec_packed_xyz(x: u32, y: u32, z: u32) -> u32 {
    (z << 12) | (y << 6) | x
}

proof fn bv_packed_xyz(x: u32, y: u32, z: u32)
    by (bit_vector)
    requires
        x < 64,
        y < 64,
        z < 64,
    ensures
        (z << 12) | (y << 6) | x == x + 64 * y + 4096 * z,
{
}

proof fn bv_vertex_fields(x: u32, y: u32, z: u32, u: u32, v: u32)
    by (bit_vector)
    requires
        x < 64,
        y < 64,
        z < 64,
        u < 64,
        v < 64,
    ensures
        ((x | (y << 6) | (z << 12) | (u << 18) | (v << 24)) >> 0) & 0x3f == x,
        ((x | (y << 6) | (z << 12) | (u << 18) | (v << 24)) >> 6) & 0x3f == y,
        ((x | (y << 6) | (z << 12) | (u << 18) | (v << 24)) >> 12) & 0x3f == z,
        ((x | (y << 6) | (z << 12) | (u << 18) | (v << 24)) >> 18) & 0x3f == u,
        ((x | (y << 6) | (z << 12) | (u << 18) | (v << 24)) >> 24) & 0x3f == v,
{
}

proof fn bv_six_bits(word: u32)
    by (bit_vector)
    ensures
        word & 0x3f < 64,
        word & 0x3_ffff < 0x4_0000,
{
}

proof fn bv_shift_none(word: u32)
    by (bit_vector)
    ensures
        (word << 0) == word,
{
}

/// Three coordinates in one word. Coordinates below 64 do not touch each
/// other, and the word is then `x + 64 * y + 4096 * z`.
pub fn packed_xyz(x: u32, y: u32, z: u32) -> (r: u32)
    ensures
        r == spec_packed_xyz(x, y, z),
        x < 64 && y < 64 && z < 64 ==> r == x + 64 * y + 4096 * z,
{
    proof {
        if x < 64 && y < 64 && z < 64 {
            bv_packed_xyz(x, y, z);
        }
        bv_shift_none(x);
    }
    (z << 12) | (y << 6) | (x << 0)
}

impl Vertex {
    /// The word of a corner at `(x, y, z)` with the texture coordinates `(u, v)`.
    pub open spec fn spec_new(x: u32, y: u32, z: u32, u: u32, v: u32) -> Vertex {
        Vertex(x | (y << 6) | (z << 12) | (u << 18) | (v << 24))
    }

    /// The word of a corner whose coordinates are packed already.
    pub open spec fn spec_from_xyz_u_v(xyz: u32, u: u32, v: u32) -> Vertex {
        Vertex((v << 24) | (u << 18) | xyz)
    }

    /// The x coordinate of the corner.
    pub open spec fn spec_x(self) -> u32 {
        field(self.0, 0)
    }

    /// The y coordinate of the corner.
    pub open spec fn spec_y(self) -> u32 {
        field(self.0, 6)
    }

    /// The z coordinate of the corner.
    pub open spec fn spec_z(self) -> u32 {
        field(self.0, 12)
    }

    /// The first texture coordinate.
    pub open spec fn spec_u(self) -> u32 {
        field(self.0, 18)
    }

    /// The second texture coordinate.
    pub open spec fn spec_v(self) -> u32 {
        field(self.0, 24)
    }

    /// Packs a corner. Values below 64 are read back as they were given.
    pub fn new(x: u32, y: u32, z: u32, u: u32, v: u32) -> (r: Vertex)
        ensures
            r == Vertex::spec_new(x, y, z, u, v),
            x < 64 && y < 64 && z < 64 && u < 64 && v < 64 ==> r.spec_x() == x && r.spec_y() == y
                && r.spec_z() == z && r.spec_u() == u && r.spec_v() == v,
    {
        proof {
            if x < 64 && y < 64 && z < 64 && u < 64 && v < 64 {
                bv_vertex_fields(x, y, z, u, v);
            }
            bv_shift_none(x);
        }
        Vertex((x << 0) | (y << 6) | (z << 12) | (u << 18) | (v << 24))
    }

    /// Packs a corner whose coordinates are packed already.
    pub(crate) fn from_xyz_u_v(xyz: u32, u: u32, v: u32) -> (r: Vertex)
        ensures
            r == Vertex::spec_from_xyz_u_v(xyz, u, v),
    {
        proof {
            bv_shift_none(xyz);
        }
        Vertex((v << 24) | (u << 18) | (xyz << 0))
    }

    /// The x coordinate of the corner.
    #[verifier::when_used_as_spec(spec_x)]
    pub fn x(self) -> (r: u32)
        ensures
            r == self.spec_x(),
            r < 64,
    {
        proof {
            bv_six_bits(self.0 >> 0);
        }
        (self.0 >> 0) & MASK_6
    }

    /// The y coordinate of the corner.
    #[verifier::when_used_as_spec(spec_y)]
    pub fn y(self) -> (r: u32)
        ensures
            r == self.spec_y(),
            r < 64,
    {
        proof {
            bv_six_bits(self.0 >> 6);
        }
        (self.0 >> 6) & MASK_6
    }

    /// The z coordinate of the corner.
    #[verifier::when_used_as_spec(spec_z)]
    pub fn z(self) -> (r: u32)
        ensures
            r == self.spec_z(),
            r < 64,
    {
        proof {
            bv_six_bits(self.0 >> 12);
        }
        (self.0 >> 12) & MASK_6
    }

    /// The first texture coordinate.
    #[verifier::when_used_as_spec(spec_u)]
    pub fn u(self) -> (r: u32)
        ensures
            r == self.spec_u(),
            r < 64,
    {
        proof {
            bv_six_bits(self.0 >> 18);
        }
        (self.0 >> 18) & MASK_6
    }

    /// The second texture coordinate.
    #[verifier::when_used_as_spec(spec_v)]
    pub fn v(self) -> (r: u32)
        ensures
            r == self.spec_v(),
            r < 64,
    {
        proof {
            bv_six_bits(self.0 >> 24);
        }
        (self.0 >> 24) & MASK_6
    }

    /// The three coordinates of the corner.
    pub fn xyz(self) -> (r: [u32; 3])
        ensures
            r@ == seq![self.spec_x(), self.spec_y(), self.spec_z()],
    {
        let r: [u32; 3] = [self.x(), self.y(), self.z()];
        assert(r@ =~= seq![self.spec_x(), self.spec_y(), self.spec_z()]);
        r
    }

    /// The two texture coordinates of the corner.
    pub fn uv(self) -> (r: [u32; 2])
        ensures
            r@ == seq![self.spec_u(), self.spec_v()],
    {
        let r: [u32; 2] = [self.u(), self.v()];
        assert(r@ =~= seq![self.spec_u(), self.spec_v()]);
        r
    }
}

/// The corner that lies `dx`, `dy`, `dz` from the packed position `xyz`,
/// with the texture coordinates `(u, v)`.
pub open spec fn corner(xyz: u32, dx: int, dy: int, dz: int, u: u32, v: u32) -> Vertex {
    Vertex::spec_from_xyz_u_v((xyz + dx + 64 * dy + 4096 * dz) as u32, u, v)
}

impl Quad {
    /// The three coordinates of the origin in one word.
    pub open spec fn spec_packed_xyz(self) -> u32 {
        self.other & MASK_XYZ
    }

    /// The three coordinates of the origin in one word.
    pub(crate) fn packed_xyz(self) -> (r: u32)
        ensures
            r == self.spec_packed_xyz(),
            r < 0x4_0000,
    {
        proof {
            bv_six_bits(self.other);
        }
        self.other & MASK_XYZ
    }

    /// The four corners of the quad as a face of direction `face`, each
    /// given by its distance from the origin of the quad along x, y and z.
    pub open spec fn corners(self, face: Face) -> Seq<Vertex> {
        let w = self.spec_w();
        let h = self.spec_h();
        let xyz = self.spec_packed_xyz();
        match face {
            Face::NegX => seq![
                corner(xyz, 0, 0, 0, h, w),
                corner(xyz, 0, 0, h as int, 0, w),
                corner(xyz, 0, w as int, 0, h, 0),
                corner(xyz, 0, w as int, h as int, 0, 0),
            ],
            Face::NegY => seq![
                corner(xyz, -w, 0, h as int, w, h),
                corner(xyz, -w, 0, 0, w, 0),
                corner(xyz, 0, 0, h as int, 0, h),
                corner(xyz, 0, 0, 0, 0, 0),
            ],
            Face::NegZ => seq![
                corner(xyz, 0, 0, 0, w, h),
                corner(xyz, 0, h as int, 0, w, 0),
                corner(xyz, w as int, 0, 0, 0, h),
                corner(xyz, w as int, h as int, 0, 0, 0),
            ],
            Face::PosX => seq![
                corner(xyz, 0, 0, 0, 0, 0),
                corner(xyz, 0, 0, h as int, h, 0),
                corner(xyz, 0, -w, 0, 0, w),
                corner(xyz, 0, -w, h as int, h, w),
            ],
            Face::PosY => seq![
                corner(xyz, w as int, 0, h as int, w, h),
                corner(xyz, w as int, 0, 0, w, 0),
                corner(xyz, 0, 0, h as int, 0, h),
                corner(xyz, 0, 0, 0, 0, 0),
            ],
            Face::PosZ => seq![
                corner(xyz, -w, h as int, 0, 0, 0),
                corner(xyz, -w, 0, 0, 0, h),
                corner(xyz, 0, h as int, 0, w, 0),
                corner(xyz, 0, 0, 0, w, h),
            ],
        }
    }

    /// Whether every corner of the quad as a face of direction `face` has a
    /// position that can be packed: no distance leads below zero.
    pub open spec fn has_corners(self, face: Face) -> bool {
        match face {
            Face::NegY | Face::PosZ => self.spec_packed_xyz() >= self.spec_w(),
            Face::PosX => self.spec_packed_xyz() >= 64 * self.spec_w(),
            _ => true,
        }
    }

    /// The four corners of the quad as a face of direction `face`.
    pub fn vertices(self, face: Face) -> (r: [Vertex; 4])
        requires
            self.has_corners(face),
        ensures
            r@ == self.corners(face),
    {
        let w: u32 = self.w();
        let h: u32 = self.h();
        let xyz: u32 = self.packed_xyz();
        let r: [Vertex; 4] = match face {
            Face::NegX => [
                Vertex::from_xyz_u_v(xyz, h, w),
                Vertex::from_xyz_u_v(xyz + packed_xyz(0, 0, h), 0, w),
                Vertex::from_xyz_u_v(xyz + packed_xyz(0, w, 0), h, 0),
                Vertex::from_xyz_u_v(xyz + packed_xyz(0, w, h), 0, 0),
            ],
            Face::NegY => [
                Vertex::from_xyz_u_v(xyz - packed_xyz(w, 0, 0) + packed_xyz(0, 0, h), w, h),
                Vertex::from_xyz_u_v(xyz - packed_xyz(w, 0, 0), w, 0),
                Vertex::from_xyz_u_v(xyz + packed_xyz(0, 0, h), 0, h),
                Vertex::from_xyz_u_v(xyz, 0, 0),
            ],
            Face::NegZ => [
                Vertex::from_xyz_u_v(xyz, w, h),
                Vertex::from_xyz_u_v(xyz + packed_xyz(0, h, 0), w, 0),
                Vertex::from_xyz_u_v(xyz + packed_xyz(w, 0, 0), 0, h),
                Vertex::from_xyz_u_v(xyz + packed_xyz(w, h, 0), 0, 0),
            ],
            Face::PosX => [
                Vertex::from_xyz_u_v(xyz, 0, 0),
                Vertex::from_xyz_u_v(xyz + packed_xyz(0, 0, h), h, 0),
                Vertex::from_xyz_u_v(xyz - packed_xyz(0, w, 0), 0, w),
                Vertex::from_xyz_u_v(xyz + packed_xyz(0, 0, h) - packed_xyz(0, w, 0), h, w),
            ],
            Face::PosY => [
                Vertex::from_xyz_u_v(xyz + packed_xyz(w, 0, h), w, h),
                Vertex::from_xyz_u_v(xyz + packed_xyz(w, 0, 0), w, 0),
                Vertex::from_xyz_u_v(xyz + packed_xyz(0, 0, h), 0, h),
                Vertex::from_xyz_u_v(xyz, 0, 0),
            ],
            Face::PosZ => [
                Vertex::from_xyz_u_v(xyz - packed_xyz(w, 0, 0) + packed_xyz(0, h, 0), 0, 0),
                Vertex::from_xyz_u_v(xyz - packed_xyz(w, 0, 0), 0, h),
                Vertex::from_xyz_u_v(xyz + packed_xyz(0, h, 0), w, 0),
                Vertex::from_xyz_u_v(xyz, w, h),
            ],
        };
        assert(r@ =~= self.corners(face));
        r
    }
}

} // verus!
