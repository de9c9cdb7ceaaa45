use std::collections::HashSet;

use binary_greedy_meshing::{
    compute_opaque_masks, compute_transparent_masks, linearize_3d, Face, Mesher, Quad, QuadMesh,
    CUBE, LEN,
};

struct Rng(u64);

impl Rng {
    fn next(&mut self) -> u64 {
        self.0 = self.0.wrapping_mul(6364136223846793005).wrapping_add(1442695040888963407);
        self.0 >> 33
    }
}

/// A chunk of clumps of a few materials, the shell included.
fn clumps(seed: u64, fill: u64) -> Box<[u16; CUBE]> {
    let mut rng = Rng(seed);
    let mut voxels: Box<[u16; CUBE]> = vec![0u16; CUBE].into_boxed_slice().try_into().unwrap();
    for bx in 0..16 {
        for by in 0..16 {
            for bz in 0..16 {
                let id = if rng.next() % 100 < fill { 1 + (rng.next() % 4) as u16 } else { 0 };
                for x in 0..4 {
                    for y in 0..4 {
                        for z in 0..4 {
                            let keep = rng.next() % 8 != 0;
                            voxels[linearize_3d(4 * bx + x, 4 * by + y, 4 * bz + z)] =
                                if keep { id } else { 0 };
                        }
                    }
                }
            }
        }
    }
    voxels
}

fn neighbour(face: Face, x: usize, y: usize, z: usize) -> (usize, usize, usize) {
    match face {
        Face::PosX => (x + 1, y, z),
        Face::NegX => (x - 1, y, z),
        Face::PosY => (x, y + 1, z),
        Face::NegY => (x, y - 1, z),
        Face::PosZ => (x, y, z + 1),
        Face::NegZ => (x, y, z - 1),
    }
}

fn visible(
    voxels: &[u16; CUBE],
    transparents: &HashSet<u16>,
    face: Face,
    x: usize,
    y: usize,
    z: usize,
) -> bool {
    if [x, y, z].iter().any(|&c| c == 0 || c == LEN - 1) {
        return false;
    }
    let voxel = voxels[linearize_3d(x, y, z)];
    let (ax, ay, az) = neighbour(face, x, y, z);
    let adj = voxels[linearize_3d(ax, ay, az)];
    voxel != 0 && (adj == 0 || (voxel != adj && transparents.contains(&adj)))
}

fn cells(face: Face, quad: &Quad) -> Vec<(usize, usize, usize)> {
    let [x, y, z] = quad.xyz().map(|c| c as usize);
    let [w, h] = quad.size().map(|c| c as usize);
    let mut cells = Vec::new();
    for i in 0..w {
        for j in 0..h {
            cells.push(match face {
                Face::PosX | Face::NegX => (x, y + j, z + i),
                Face::PosY | Face::NegY => (x + i, y, z + j),
                Face::PosZ | Face::NegZ => (x + i, y + j, z),
            });
        }
    }
    cells
}

fn plane(face: Face, quad: &Quad) -> u32 {
    match face {
        Face::PosX | Face::NegX => quad.x(),
        Face::PosY | Face::NegY => quad.y(),
        Face::PosZ | Face::NegZ => quad.z(),
    }
}

fn check_tiling(voxels: &[u16; CUBE], transparents: &HashSet<u16>, mesh: &QuadMesh) {
    for face in Face::ALL {
        let mut count = vec![0u8; CUBE];
        for quad in mesh.quads(face) {
            assert!(quad.w() >= 1 && quad.h() >= 1);
            for (x, y, z) in cells(face, quad) {
                assert!(x < LEN && y < LEN && z < LEN);
                let i = linearize_3d(x, y, z);
                count[i] += 1;
                assert_eq!(voxels[i] as u32, quad.id);
            }
        }
        for x in 0..LEN {
            for y in 0..LEN {
                for z in 0..LEN {
                    let expected = if visible(voxels, transparents, face, x, y, z) { 1 } else { 0 };
                    assert_eq!(count[linearize_3d(x, y, z)], expected, "{face:?} at {x} {y} {z}");
                }
            }
        }
    }
}

fn check_order(mesh: &QuadMesh) {
    for face in Face::ALL {
        let quads = mesh.quads(face);
        for pair in quads.windows(2) {
            assert!(plane(face, &pair[0]) <= plane(face, &pair[1]));
        }
    }
}

fn meshes(voxels: &[u16; CUBE], transparents: &HashSet<u16>) -> QuadMesh {
    let opaque_masks = compute_opaque_masks(voxels, transparents);
    let transparent_masks = compute_transparent_masks(voxels, transparents);
    let mut mesher = Mesher::new();
    let mesh = mesher.mesh(voxels, &opaque_masks, &transparent_masks);
    let slow = mesher.slow_mesh(voxels, transparents);
    assert_eq!(mesh, slow);
    let again = mesher.mesh(voxels, &opaque_masks, &transparent_masks);
    assert_eq!(mesh, again);
    mesh
}

#[test]
fn quads_tile_the_visible_faces_of_opaque_clumps() {
    let transparents = HashSet::new();
    for seed in [1, 2] {
        let voxels = clumps(seed, 35);
        let mesh = meshes(&voxels, &transparents);
        check_tiling(&voxels, &transparents, &mesh);
        check_order(&mesh);
    }
}

#[test]
fn quads_tile_the_visible_faces_with_transparent_materials() {
    let transparents = HashSet::from([2, 4]);
    for seed in [3, 4] {
        let voxels = clumps(seed, 60);
        let mesh = meshes(&voxels, &transparents);
        check_tiling(&voxels, &transparents, &mesh);
        check_order(&mesh);
    }
}

#[test]
fn quads_tile_the_visible_faces_of_a_dense_chunk() {
    let transparents = HashSet::from([1]);
    let voxels = clumps(5, 97);
    let mesh = meshes(&voxels, &transparents);
    check_tiling(&voxels, &transparents, &mesh);
    check_order(&mesh);
}

#[test]
fn lists_ascend_along_their_axis() {
    let voxels = clumps(6, 20);
    let mesh = meshes(&voxels, &HashSet::from([3]));
    check_order(&mesh);
    let xs: Vec<u32> = mesh.quads(Face::PosX).iter().map(|q| q.x()).collect();
    let mut sorted = xs.clone();
    sorted.sort();
    assert_eq!(xs, sorted);
    assert!(xs.first() < xs.last());
}

#[test]
fn fast_and_slow_agree_on_many_chunks() {
    for seed in 10..16 {
        let voxels = clumps(seed, 10 + 15 * (seed % 6));
        let transparents: HashSet<u16> = (1..=4).filter(|id| (seed >> id) & 1 == 1).collect();
        meshes(&voxels, &transparents);
    }
}
