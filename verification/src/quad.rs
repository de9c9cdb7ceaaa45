//! The packed record of one merged rectangle.

use vstd::prelude::*;

verus! {

/// The six low bits: the width of every coordinate and extent field.
pub const MASK_6: u32 = 0x3f;

/// The 26 low bits: the width of the material field.
pub const MASK_ID: u32 = 0x3ff_ffff;

/// The three coordinate fields together.
pub const MASK_XYZ: u32 = 0x3_ffff;

/// A rectangle of merged voxel faces.
///
/// `other` holds, from the lowest bit up, six bits each of `x`, `y`, `z`,
/// `w` and `h`; `id` holds the material in its 26 low bits. The bits above
/// are reserved and stay zero.
#[derive(Debug, Clone, Copy, PartialEq, Eq, PartialOrd, Ord, Hash)]
pub struct Quad {
    pub other: u32,
    pub id: u32,
}

/// The word that packs five six-bit fields, each cut to its width.
pub open spec fn pack_fields(x: u32, y: u32, z: u32, w: u32, h: u32) -> u32 {
    ((h & MASK_6) << 24) | ((w & MASK_6) << 18) | ((z & MASK_6) << 12) | ((y & MASK_6) << 6) | (x
        & MASK_6)
}

/// The six-bit field of `word` that starts at bit `shift`.
pub open spec fn field(word: u32, shift: u32) -> u32 {
    (word >> shift) & MASK_6
}

proof fn bv_pack_fields(x: u32, y: u32, z: u32, w: u32, h: u32)
    by (bit_vector)
    ensures
        (pack_fields(x, y, z, w, h) >> 0) & 0x3f == x & 0x3f,
        (pack_fields(x, y, z, w, h) >> 6) & 0x3f == y & 0x3f,
        (pack_fields(x, y, z, w, h) >> 12) & 0x3f == z & 0x3f,
        (pack_fields(x, y, z, w, h) >> 18) & 0x3f == w & 0x3f,
        (pack_fields(x, y, z, w, h) >> 24) & 0x3f == h & 0x3f,
        pack_fields(x, y, z, w, h) < 0x4000_0000,
{
}

proof fn bv_small_field(v: u32)
    by (bit_vector)
    ensures
        v & 0x3f < 64,
        v < 64 ==> v & 0x3f == v,
        v & 0x3f == v % 64,
        v & 0x3ff_ffff == v % 0x400_0000,
        v < 0x400_0000 ==> v & 0x3ff_ffff == v,
{
}

impl Quad {
    /// The quad at `(x, y, z)` of width `w`, height `h` and material `id`.
    pub open spec fn spec_new(x: u32, y: u32, z: u32, w: u32, h: u32, id: u32) -> Quad {
        Quad { other: pack_fields(x, y, z, w, h), id: id & MASK_ID }
    }

    /// The x coordinate of the origin.
    pub open spec fn spec_x(self) -> u32 {
        field(self.other, 0)
    }

    /// The y coordinate of the origin.
    pub open spec fn spec_y(self) -> u32 {
        field(self.other, 6)
    }

    /// The z coordinate of the origin.
    pub open spec fn spec_z(self) -> u32 {
        field(self.other, 12)
    }

    /// The width: the first of the two extents.
    pub open spec fn spec_w(self) -> u32 {
        field(self.other, 18)
    }

    /// The height: the second of the two extents.
    pub open spec fn spec_h(self) -> u32 {
        field(self.other, 24)
    }

    /// Packs a rectangle. Every field is cut to its width first, so a value
    /// that is out of range cannot spill into its neighbour, and the bits
    /// above the fields stay zero.
    pub fn new(x: u32, y: u32, z: u32, w: u32, h: u32, id: u32) -> (q: Quad)
        ensures
            q == Quad::spec_new(x, y, z, w, h, id),
            q.spec_x() == x % 64,
            q.spec_y() == y % 64,
            q.spec_z() == z % 64,
            q.spec_w() == w % 64,
            q.spec_h() == h % 64,
            q.id == id % 0x400_0000,
            q.other < 0x4000_0000,
    {
        proof {
            lemma_quad_fields(x, y, z, w, h, id);
        }
        Quad {
            other: ((h & MASK_6) << 24) | ((w & MASK_6) << 18) | ((z & MASK_6) << 12) | ((y
                & MASK_6) << 6) | (x & MASK_6),
            id: id & MASK_ID,
        }
    }

    /// The x coordinate of the origin.
    #[verifier::when_used_as_spec(spec_x)]
    pub fn x(self) -> (r: u32)
        ensures
            r == self.spec_x(),
            r < 64,
    {
        proof {
            bv_small_field(self.other >> 0);
        }
        (self.other >> 0) & MASK_6
    }

    /// The y coordinate of the origin.
    #[verifier::when_used_as_spec(spec_y)]
    pub fn y(self) -> (r: u32)
        ensures
            r == self.spec_y(),
            r < 64,
    {
        proof {
            bv_small_field(self.other >> 6);
        }
        (self.other >> 6) & MASK_6
    }

    /// The z coordinate of the origin.
    #[verifier::when_used_as_spec(spec_z)]
    pub fn z(self) -> (r: u32)
        ensures
            r == self.spec_z(),
            r < 64,
    {
        proof {
            bv_small_field(self.other >> 12);
        }
        (self.other >> 12) & MASK_6
    }

    /// The width: the first of the two extents.
    #[verifier::when_used_as_spec(spec_w)]
    pub fn w(self) -> (r: u32)
        ensures
            r == self.spec_w(),
            r < 64,
    {
        proof {
            bv_small_field(self.other >> 18);
        }
        (self.other >> 18) & MASK_6
    }

    /// The height: the second of the two extents.
    #[verifier::when_used_as_spec(spec_h)]
    pub fn h(self) -> (r: u32)
        ensures
            r == self.spec_h(),
            r < 64,
    {
        proof {
            bv_small_field(self.other >> 24);
        }
        (self.other >> 24) & MASK_6
    }

    /// The origin of the rectangle.
    pub fn xyz(self) -> (r: [u32; 3])
        ensures
            r@ == seq![self.spec_x(), self.spec_y(), self.spec_z()],
    {
        let r: [u32; 3] = [self.x(), self.y(), self.z()];
        assert(r@ =~= seq![self.spec_x(), self.spec_y(), self.spec_z()]);
        r
    }

    /// The two extents of the rectangle.
    pub fn size(self) -> (r: [u32; 2])
        ensures
            r@ == seq![self.spec_w(), self.spec_h()],
    {
        let r: [u32; 2] = [self.w(), self.h()];
        assert(r@ =~= seq![self.spec_w(), self.spec_h()]);
        r
    }
}

/// Packing and reading back: each accessor returns what was packed, cut to
/// the width of its field.
pub proof fn lemma_quad_fields(x: u32, y: u32, z: u32, w: u32, h: u32, id: u32)
    ensures
        Quad::spec_new(x, y, z, w, h, id).spec_x() == x % 64,
        Quad::spec_new(x, y, z, w, h, id).spec_y() == y % 64,
        Quad::spec_new(x, y, z, w, h, id).spec_z() == z % 64,
        Quad::spec_new(x, y, z, w, h, id).spec_w() == w % 64,
        Quad::spec_new(x, y, z, w, h, id).spec_h() == h % 64,
        Quad::spec_new(x, y, z, w, h, id).id == id % 0x400_0000,
        Quad::spec_new(x, y, z, w, h, id).other < 0x4000_0000,
{
    bv_pack_fields(x, y, z, w, h);
    bv_small_field(x);
    bv_small_field(y);
    bv_small_field(z);
    bv_small_field(w);
    bv_small_field(h);
    bv_small_field(id);
}

} // verus!
