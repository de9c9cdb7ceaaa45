//! Binary greedy meshing of a 64×64×64 chunk of voxels.
//!
//! A [`Mesher`] turns the voxels of a chunk into six lists of [`Quad`]s, one
//! per face direction. Each quad is a rectangle of visible faces of one
//! material, as large as a greedy merge makes it. Only the voxels inside the
//! one-voxel shell of the chunk are meshed; the shell tells what lies next
//! to them.
//!
//! Meshing has two stages. The first writes, for each direction and each
//! column of voxels along x, a word with a position set for every voxel that
//! shows its face ([`visible`]). The second merges the faces of each plane
//! into rectangles ([`merge`]). What the lists hold is defined in [`model`]
//! and [`plane`]; [`laws`] proves that the quads of a list tile the visible
//! faces, that the lists are in the order of their planes, that the fast
//! and the slow path agree, and that meshing again after edits gives the
//! mesh of the edited chunk.

pub mod bits;
pub mod face;
pub mod laws;
pub mod layout;
pub mod masks;
pub mod merge;
pub mod mesh;
pub mod mesher;
pub mod model;
pub mod plane;
pub mod quad;
pub mod tiling;
pub mod vertex;
pub mod visible;

pub use face::{Axis, Face, GreaterThanFive};
pub use layout::{linearize_3d, CUBE, LEN, SQUARE};
pub use masks::{compute_opaque_masks, compute_transparent_masks};
pub use mesh::{MeshChanges, QuadMesh};
pub use mesher::Mesher;
pub use quad::Quad;
pub use vertex::Vertex;
