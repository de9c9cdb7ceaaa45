//! What a mesher hands out, and what it takes to mesh again after edits.

use crate::bits::{bit, bit_positions, lemma_bit_consts, lists_bits, with_bit};
use crate::face::{Axis, Face};
use crate::quad::Quad;
use vstd::prelude::*;
use vstd::std_specs::convert::FromSpecImpl;

verus! {

/// The quads of a chunk: one list per face direction, each in the order of
/// its planes.
#[derive(Debug, Clone, PartialEq, Eq, Hash)]
pub struct QuadMesh(pub [Vec<Quad>; 6]);

impl QuadMesh {
    /// The quads of direction `face`.
    pub open spec fn list(self, face: Face) -> Seq<Quad> {
        self.0@[face.index()]@
    }

    /// The number of quads of all six directions together.
    pub open spec fn total(self) -> nat {
        self.0@[0]@.len() + self.0@[1]@.len() + self.0@[2]@.len() + self.0@[3]@.len()
            + self.0@[4]@.len() + self.0@[5]@.len()
    }

    /// The mesh of an empty chunk.
    pub fn new() -> (mesh: QuadMesh)
        ensures
            forall|f: Face| (#[trigger] mesh.list(f)).len() == 0,
    {
        QuadMesh([Vec::new(), Vec::new(), Vec::new(), Vec::new(), Vec::new(), Vec::new()])
    }

    /// The quads of direction `face`.
    pub fn quads(&self, face: Face) -> (list: &Vec<Quad>)
        ensures
            list@ == self.list(face),
    {
        &self.0[face.ordinal()]
    }

    /// The number of quads of all six directions together.
    pub fn len(&self) -> (n: usize)
        requires
            self.total() <= usize::MAX,
        ensures
            n == self.total(),
    {
        self.0[0].len() + self.0[1].len() + self.0[2].len() + self.0[3].len() + self.0[4].len()
            + self.0[5].len()
    }
}

/// The planes of a chunk in which a voxel was edited since the last mesh:
/// one word per axis, with a position set for each plane.
///
/// An edit marks one plane on every axis, so either all three words are
/// empty or none is.
#[derive(Debug, Clone, Copy, PartialEq, Eq, Hash)]
pub struct MeshChanges {
    x: u64,
    y: u64,
    z: u64,
}

impl MeshChanges {
    #[verifier::type_invariant]
    spec fn inv(self) -> bool {
        (self.x == 0) == (self.y == 0) && (self.x == 0) == (self.z == 0)
    }

    /// The word of the planes across `axis`.
    pub closed spec fn planes(self, axis: Axis) -> u64 {
        match axis {
            Axis::X => self.x,
            Axis::Y => self.y,
            Axis::Z => self.z,
        }
    }

    /// The three words, for x, y and z.
    pub closed spec fn words(self) -> [u64; 3] {
        [self.x, self.y, self.z]
    }

    /// No edit is recorded.
    pub open spec fn blank(self) -> bool {
        self.planes(Axis::X) == 0 && self.planes(Axis::Y) == 0 && self.planes(Axis::Z) == 0
    }

    /// A record of no edits.
    pub fn new() -> (r: MeshChanges)
        ensures
            r.blank(),
    {
        MeshChanges { x: 0, y: 0, z: 0 }
    }

    /// Records an edit of the voxel at `position`.
    pub fn push(&mut self, position: [u32; 3])
        requires
            position@[0] < 64,
            position@[1] < 64,
            position@[2] < 64,
        ensures
            forall|i: int| #[trigger]
                bit(final(self).planes(Axis::X), i) == (bit(old(self).planes(Axis::X), i) || i
                    == position@[0]),
            forall|i: int| #[trigger]
                bit(final(self).planes(Axis::Y), i) == (bit(old(self).planes(Axis::Y), i) || i
                    == position@[1]),
            forall|i: int| #[trigger]
                bit(final(self).planes(Axis::Z), i) == (bit(old(self).planes(Axis::Z), i) || i
                    == position@[2]),
            !final(self).blank(),
    {
        let x: u64 = with_bit(self.x, position[0] as usize);
        let y: u64 = with_bit(self.y, position[1] as usize);
        let z: u64 = with_bit(self.z, position[2] as usize);
        proof {
            lemma_bit_consts();
            assert(bit(x, position@[0] as int));
            assert(bit(y, position@[1] as int));
            assert(bit(z, position@[2] as int));
        }
        *self = MeshChanges { x, y, z };
    }

    /// Whether no edit is recorded.
    pub fn is_empty(self) -> (r: bool)
        ensures
            r == self.blank(),
    {
        proof {
            use_type_invariant(self);
        }
        self.x == 0
    }

    /// Forgets every edit.
    pub fn clear(&mut self)
        ensures
            final(self).blank(),
    {
        *self = MeshChanges { x: 0, y: 0, z: 0 };
    }

    /// The planes across x that hold an edit, lowest first.
    pub fn xs(self) -> (r: Vec<usize>)
        ensures
            lists_bits(r@, self.planes(Axis::X)),
    {
        let mut r: Vec<usize> = Vec::new();
        bit_positions(self.x, &mut r);
        r
    }

    /// The planes across y that hold an edit, lowest first.
    pub fn ys(self) -> (r: Vec<usize>)
        ensures
            lists_bits(r@, self.planes(Axis::Y)),
    {
        let mut r: Vec<usize> = Vec::new();
        bit_positions(self.y, &mut r);
        r
    }

    /// The planes across z that hold an edit, lowest first.
    pub fn zs(self) -> (r: Vec<usize>)
        ensures
            lists_bits(r@, self.planes(Axis::Z)),
    {
        let mut r: Vec<usize> = Vec::new();
        bit_positions(self.z, &mut r);
        r
    }

    /// The three words, for x, y and z.
    pub fn to_array(self) -> (r: [u64; 3])
        ensures
            r == self.words(),
            r@ == seq![self.planes(Axis::X), self.planes(Axis::Y), self.planes(Axis::Z)],
    {
        let r: [u64; 3] = [self.x, self.y, self.z];
        assert(r@ =~= seq![self.planes(Axis::X), self.planes(Axis::Y), self.planes(Axis::Z)]);
        r
    }
}

impl From<MeshChanges> for [u64; 3] {
    /// The three words, for x, y and z.
    fn from(value: MeshChanges) -> (r: [u64; 3]) {
        value.to_array()
    }
}

impl FromSpecImpl<MeshChanges> for [u64; 3] {
    open spec fn obeys_from_spec() -> bool {
        true
    }

    open spec fn from_spec(value: MeshChanges) -> [u64; 3] {
        value.words()
    }
}

impl Default for MeshChanges {
    fn default() -> (r: MeshChanges)
        ensures
            r.blank(),
    {
        MeshChanges::new()
    }
}

} // verus!
