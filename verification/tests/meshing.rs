use std::collections::HashSet;

use binary_greedy_meshing::{
    compute_opaque_masks, compute_transparent_masks, linearize_3d, Face, Mesher, Quad, QuadMesh,
    CUBE, LEN,
};

fn empty_chunk() -> Box<[u16; CUBE]> {
    vec![0u16; CUBE].into_boxed_slice().try_into().unwrap()
}

fn mesh_of(voxels: &[u16; CUBE], transparents: &HashSet<u16>) -> QuadMesh {
    let opaque_masks = compute_opaque_masks(voxels, transparents);
    let transparent_masks = compute_transparent_masks(voxels, transparents);
    let mut mesher = Mesher::new();
    mesher.mesh(voxels, &opaque_masks, &transparent_masks)
}

fn transparent_sphere(x: usize, y: usize, z: usize) -> u16 {
    if x == 8 {
        2
    } else if (x as i32 - 31).pow(2) + (y as i32 - 31).pow(2) + (z as i32 - 31).pow(2) < 16 as i32 {
        1
    } else {
        0
    }
}

fn test_buffer() -> Box<[u16; CUBE]> {
    let mut voxels = empty_chunk();
    for x in 1..LEN - 1 {
        for y in 1..LEN - 1 {
            for z in 1..LEN - 1 {
                let i_3d = linearize_3d(x, y, z);
                voxels[i_3d] = transparent_sphere(x, y, z);
            }
        }
    }
    voxels
}

/// Show quad output for two voxels
#[test]
fn test_output() {
    let transparents = HashSet::new();

    let mut voxels = empty_chunk();
    voxels[linearize_3d(1, 1, 1)] = 1;
    voxels[linearize_3d(1, 2, 1)] = 1;

    let opaque_masks = compute_opaque_masks(&voxels, &transparents);
    let transparent_masks = compute_transparent_masks(&voxels, &transparents);

    let mut mesher = Mesher::new();

    let mesh = mesher.mesh(&voxels, &opaque_masks, &transparent_masks);
    for face in Face::ALL {
        let quads = mesh.quads(face);
        println!("--- Face {face:?} ---\n{quads:?}");
    }
}

/// Ensures that mesh and fast_mesh return the same results
#[test]
fn same_results() {
    let transparents = HashSet::from([2]);

    let voxels = test_buffer();
    let opaque_masks = compute_opaque_masks(&voxels, &transparents);
    let transparent_masks = compute_transparent_masks(&voxels, &transparents);

    let mut mesher = Mesher::new();

    let mesh = mesher.mesh(&voxels, &opaque_masks, &transparent_masks);
    let slow_mesh = mesher.slow_mesh(&voxels, &transparents);

    assert_eq!(mesh, slow_mesh);
}

#[test]
fn two_voxels_make_one_quad_per_face() {
    let mut voxels = empty_chunk();
    voxels[linearize_3d(1, 1, 1)] = 1;
    voxels[linearize_3d(1, 2, 1)] = 1;
    let mesh = mesh_of(&voxels, &HashSet::new());

    assert_eq!(mesh.quads(Face::PosX), &vec![Quad::new(1, 1, 1, 1, 2, 1)]);
    assert_eq!(mesh.quads(Face::NegX), &vec![Quad::new(1, 1, 1, 1, 2, 1)]);
    assert_eq!(mesh.quads(Face::PosY), &vec![Quad::new(1, 2, 1, 1, 1, 1)]);
    assert_eq!(mesh.quads(Face::NegY), &vec![Quad::new(1, 1, 1, 1, 1, 1)]);
    assert_eq!(mesh.quads(Face::PosZ), &vec![Quad::new(1, 1, 1, 1, 2, 1)]);
    assert_eq!(mesh.quads(Face::NegZ), &vec![Quad::new(1, 1, 1, 1, 2, 1)]);
    assert_eq!(mesh.len(), 6);
}
