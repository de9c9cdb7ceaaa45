//! The six directions a voxel face can point in.

use vstd::prelude::*;
use vstd::std_specs::convert::TryFromSpecImpl;

verus! {

/// One of the six axis-aligned directions, in the order in which a mesh
/// lists them.
#[derive(Debug, Clone, Copy, PartialEq, Eq, PartialOrd, Ord, Hash)]
pub enum Face {
    PosX,
    NegX,
    PosY,
    NegY,
    PosZ,
    NegZ,
}

/// One of the three axes of the chunk.
#[derive(Debug, Clone, Copy, PartialEq, Eq, Hash)]
pub enum Axis {
    X,
    Y,
    Z,
}

/// The byte handed to `Face::try_from` was not one of `0..=5`.
#[derive(Debug, Clone, Copy, PartialEq, Eq)]
pub struct GreaterThanFive;

impl Face {
    /// The position of this face in the order `+X, -X, +Y, -Y, +Z, -Z`.
    pub open spec fn index(self) -> int {
        match self {
            Face::PosX => 0,
            Face::NegX => 1,
            Face::PosY => 2,
            Face::NegY => 3,
            Face::PosZ => 4,
            Face::NegZ => 5,
        }
    }

    /// The face at position `i` of that order.
    pub open spec fn of_index(i: int) -> Face {
        if i == 0 {
            Face::PosX
        } else if i == 1 {
            Face::NegX
        } else if i == 2 {
            Face::PosY
        } else if i == 3 {
            Face::NegY
        } else if i == 4 {
            Face::PosZ
        } else {
            Face::NegZ
        }
    }

    /// The axis along which this face looks.
    pub open spec fn axis(self) -> Axis {
        match self {
            Face::PosX | Face::NegX => Axis::X,
            Face::PosY | Face::NegY => Axis::Y,
            Face::PosZ | Face::NegZ => Axis::Z,
        }
    }

    /// `+1` for the faces that look up their axis, `-1` for the others.
    pub open spec fn sign(self) -> int {
        match self {
            Face::PosX | Face::PosY | Face::PosZ => 1,
            Face::NegX | Face::NegY | Face::NegZ => -1,
        }
    }

    /// How far the neighbour across this face lies along x.
    pub open spec fn dx(self) -> int {
        if self.axis() == Axis::X {
            self.sign()
        } else {
            0
        }
    }

    /// How far the neighbour across this face lies along y.
    pub open spec fn dy(self) -> int {
        if self.axis() == Axis::Y {
            self.sign()
        } else {
            0
        }
    }

    /// How far the neighbour across this face lies along z.
    pub open spec fn dz(self) -> int {
        if self.axis() == Axis::Z {
            self.sign()
        } else {
            0
        }
    }

    /// The six faces in their order.
    pub const ALL: [Face; 6] = [
        Face::PosX,
        Face::NegX,
        Face::PosY,
        Face::NegY,
        Face::PosZ,
        Face::NegZ,
    ];

    /// The position of this face in the order of the faces.
    pub fn ordinal(self) -> (r: usize)
        ensures
            r == self.index(),
            r < 6,
    {
        match self {
            Face::PosX => 0,
            Face::NegX => 1,
            Face::PosY => 2,
            Face::NegY => 3,
            Face::PosZ => 4,
            Face::NegZ => 5,
        }
    }

    /// The axis along which this face looks.
    pub fn along(self) -> (r: Axis)
        ensures
            r == self.axis(),
    {
        match self {
            Face::PosX | Face::NegX => Axis::X,
            Face::PosY | Face::NegY => Axis::Y,
            Face::PosZ | Face::NegZ => Axis::Z,
        }
    }
}

/// `Face::of_index` and `Face::index` undo each other.
pub proof fn lemma_face_index(f: Face)
    ensures
        0 <= f.index() < 6,
        Face::of_index(f.index()) == f,
{
}

/// `Face::ALL` lists the faces in their order.
pub proof fn lemma_face_all()
    ensures
        forall|i: int| 0 <= i < 6 ==> Face::ALL@[i] == Face::of_index(i),
{
}

impl TryFrom<u8> for Face {
    type Error = GreaterThanFive;

    /// Decodes a face from its position; fails exactly on the bytes above 5.
    fn try_from(value: u8) -> (r: Result<Self, GreaterThanFive>) {
        match value {
            0 => Ok(Face::PosX),
            1 => Ok(Face::NegX),
            2 => Ok(Face::PosY),
            3 => Ok(Face::NegY),
            4 => Ok(Face::PosZ),
            5 => Ok(Face::NegZ),
            _ => Err(GreaterThanFive),
        }
    }
}

impl TryFromSpecImpl<u8> for Face {
    open spec fn obeys_try_from_spec() -> bool {
        true
    }

    open spec fn try_from_spec(value: u8) -> Result<Self, GreaterThanFive> {
        if value <= 5 {
            Ok(Face::of_index(value as int))
        } else {
            Err(GreaterThanFive)
        }
    }
}

} // verus!
