use std::collections::HashSet;

use binary_greedy_meshing::{
    compute_opaque_masks, compute_transparent_masks, linearize_3d, Face, MeshChanges, Mesher,
    CUBE, LEN,
};

fn blank() -> Box<[u16; CUBE]> {
    vec![0u16; CUBE].into_boxed_slice().try_into().unwrap()
}

fn landscape() -> Box<[u16; CUBE]> {
    let mut voxels = blank();
    for x in 1..LEN - 1 {
        for y in 1..LEN - 1 {
            for z in 1..LEN - 1 {
                let height = 8 + (x * 7 + z * 3) % 23;
                let id = if y < height {
                    1 + ((x / 5 + z / 9) % 3) as u16
                } else if y < 12 {
                    9
                } else {
                    0
                };
                voxels[linearize_3d(x, y, z)] = id;
            }
        }
    }
    voxels
}

fn edit(voxels: &mut [u16; CUBE], changes: &mut MeshChanges, at: [usize; 3], id: u16) {
    voxels[linearize_3d(at[0], at[1], at[2])] = id;
    changes.push([at[0] as u32, at[1] as u32, at[2] as u32]);
}

#[test]
fn remesh_equals_mesh_after_edits() {
    let transparents = HashSet::from([9]);
    let mut voxels = landscape();
    let mut mesher = Mesher::new();
    let opaque = compute_opaque_masks(&voxels, &transparents);
    let transparent = compute_transparent_masks(&voxels, &transparents);
    let mut mesh = mesher.mesh(&voxels, &opaque, &transparent);

    let mut changes = MeshChanges::new();
    edit(&mut voxels, &mut changes, [5, 9, 5], 0);
    edit(&mut voxels, &mut changes, [5, 10, 5], 7);
    edit(&mut voxels, &mut changes, [40, 30, 17], 2);
    edit(&mut voxels, &mut changes, [62, 62, 62], 3);
    edit(&mut voxels, &mut changes, [1, 1, 1], 0);
    assert!(!changes.is_empty());

    let opaque = compute_opaque_masks(&voxels, &transparents);
    let transparent = compute_transparent_masks(&voxels, &transparents);
    mesher.remesh(&voxels, &opaque, &transparent, &mut mesh, changes);

    let fresh = Mesher::new().mesh(&voxels, &opaque, &transparent);
    assert_eq!(mesh, fresh);
    for face in Face::ALL {
        assert_eq!(mesh.quads(face), fresh.quads(face));
    }
}

#[test]
fn remesh_slow_equals_slow_mesh_after_edits() {
    let transparents = HashSet::from([9]);
    let mut voxels = landscape();
    let mut mesher = Mesher::new();
    let mut mesh = mesher.slow_mesh(&voxels, &transparents);

    let mut changes = MeshChanges::new();
    edit(&mut voxels, &mut changes, [20, 9, 33], 0);
    edit(&mut voxels, &mut changes, [20, 40, 33], 4);
    edit(&mut voxels, &mut changes, [21, 40, 33], 4);

    mesher.remesh_slow(&voxels, &transparents, &mut mesh, changes);

    let fresh = Mesher::new().slow_mesh(&voxels, &transparents);
    assert_eq!(mesh, fresh);
}

#[test]
fn remesh_without_changes_keeps_the_mesh() {
    let transparents = HashSet::new();
    let voxels = landscape();
    let mut mesher = Mesher::new();
    let opaque = compute_opaque_masks(&voxels, &transparents);
    let transparent = compute_transparent_masks(&voxels, &transparents);
    let mut mesh = mesher.mesh(&voxels, &opaque, &transparent);
    let before = mesh.clone();

    mesher.remesh(&voxels, &opaque, &transparent, &mut mesh, MeshChanges::new());

    assert_eq!(mesh, before);
}

#[test]
fn a_mesher_can_be_used_again() {
    let transparents = HashSet::from([9]);
    let voxels = landscape();
    let opaque = compute_opaque_masks(&voxels, &transparents);
    let transparent = compute_transparent_masks(&voxels, &transparents);
    let mut mesher = Mesher::new();
    let first = mesher.mesh(&voxels, &opaque, &transparent);
    let other = mesher.slow_mesh(&blank(), &transparents);
    let second = mesher.mesh(&voxels, &opaque, &transparent);
    assert_eq!(other.len(), 0);
    assert_eq!(first, second);
    assert!(first.len() > 100);
}
