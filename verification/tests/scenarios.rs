use std::collections::HashSet;

use binary_greedy_meshing::{
    compute_opaque_masks, compute_transparent_masks, linearize_3d, Face, Mesher, Quad, QuadMesh,
    CUBE, LEN,
};

fn air() -> Box<[u16; CUBE]> {
    vec![0u16; CUBE].into_boxed_slice().try_into().unwrap()
}

fn fast(voxels: &[u16; CUBE], transparents: &HashSet<u16>) -> QuadMesh {
    let opaque_masks = compute_opaque_masks(voxels, transparents);
    let transparent_masks = compute_transparent_masks(voxels, transparents);
    Mesher::new().mesh(voxels, &opaque_masks, &transparent_masks)
}

fn both(voxels: &[u16; CUBE], transparents: &HashSet<u16>) -> QuadMesh {
    let mesh = fast(voxels, transparents);
    let slow = Mesher::new().slow_mesh(voxels, transparents);
    assert_eq!(mesh, slow);
    mesh
}

fn halves() -> Box<[u16; CUBE]> {
    let mut voxels = air();
    for x in 1..LEN - 1 {
        for y in 1..LEN - 1 {
            for z in 1..LEN - 1 {
                voxels[linearize_3d(x, y, z)] = if y < 32 { 1 } else { 2 };
            }
        }
    }
    voxels
}

#[test]
fn empty_chunk_gives_six_empty_lists() {
    let mesh = both(&air(), &HashSet::new());
    for face in Face::ALL {
        assert!(mesh.quads(face).is_empty());
    }
    assert_eq!(mesh.len(), 0);
}

#[test]
fn voxels_in_the_shell_are_not_meshed() {
    let mut voxels = air();
    for i in 0..LEN {
        for j in 0..LEN {
            voxels[linearize_3d(0, i, j)] = 1;
            voxels[linearize_3d(63, i, j)] = 1;
            voxels[linearize_3d(i, 0, j)] = 2;
            voxels[linearize_3d(i, 63, j)] = 2;
            voxels[linearize_3d(i, j, 0)] = 3;
            voxels[linearize_3d(i, j, 63)] = 3;
        }
    }
    let mesh = both(&voxels, &HashSet::from([3]));
    assert_eq!(mesh.len(), 0);
}

#[test]
fn a_chunk_filled_to_the_shell_shows_no_face() {
    let voxels: Box<[u16; CUBE]> = vec![1u16; CUBE].into_boxed_slice().try_into().unwrap();
    assert_eq!(both(&voxels, &HashSet::new()).len(), 0);
    assert_eq!(both(&voxels, &HashSet::from([1])).len(), 0);
}

#[test]
fn full_interior_gives_one_quad_per_face() {
    let mut voxels = air();
    for x in 1..LEN - 1 {
        for y in 1..LEN - 1 {
            for z in 1..LEN - 1 {
                voxels[linearize_3d(x, y, z)] = 1;
            }
        }
    }
    let mesh = both(&voxels, &HashSet::new());
    assert_eq!(mesh.quads(Face::PosX), &vec![Quad::new(62, 1, 1, 62, 62, 1)]);
    assert_eq!(mesh.quads(Face::NegX), &vec![Quad::new(1, 1, 1, 62, 62, 1)]);
    assert_eq!(mesh.quads(Face::PosY), &vec![Quad::new(1, 62, 1, 62, 62, 1)]);
    assert_eq!(mesh.quads(Face::NegY), &vec![Quad::new(1, 1, 1, 62, 62, 1)]);
    assert_eq!(mesh.quads(Face::PosZ), &vec![Quad::new(1, 1, 62, 62, 62, 1)]);
    assert_eq!(mesh.quads(Face::NegZ), &vec![Quad::new(1, 1, 1, 62, 62, 1)]);
    for face in Face::ALL {
        assert_eq!(mesh.quads(face)[0].size(), [62, 62]);
    }
}

#[test]
fn single_voxel_gives_six_unit_quads() {
    let mut voxels = air();
    voxels[linearize_3d(5, 5, 5)] = 7;
    let mesh = both(&voxels, &HashSet::new());
    for face in Face::ALL {
        assert_eq!(mesh.quads(face), &vec![Quad::new(5, 5, 5, 1, 1, 7)]);
        assert_eq!(mesh.quads(face)[0].size(), [1, 1]);
        assert_eq!(mesh.quads(face)[0].id, 7);
    }
    assert_eq!(mesh.len(), 6);
}

#[test]
fn small_cube_gives_six_quads_of_two_by_two() {
    let mut voxels = air();
    for x in 10..12 {
        for y in 10..12 {
            for z in 10..12 {
                voxels[linearize_3d(x, y, z)] = 4;
            }
        }
    }
    let mesh = both(&voxels, &HashSet::new());
    assert_eq!(mesh.quads(Face::PosX), &vec![Quad::new(11, 10, 10, 2, 2, 4)]);
    assert_eq!(mesh.quads(Face::NegX), &vec![Quad::new(10, 10, 10, 2, 2, 4)]);
    assert_eq!(mesh.quads(Face::PosY), &vec![Quad::new(10, 11, 10, 2, 2, 4)]);
    assert_eq!(mesh.quads(Face::NegY), &vec![Quad::new(10, 10, 10, 2, 2, 4)]);
    assert_eq!(mesh.quads(Face::PosZ), &vec![Quad::new(10, 10, 11, 2, 2, 4)]);
    assert_eq!(mesh.quads(Face::NegZ), &vec![Quad::new(10, 10, 10, 2, 2, 4)]);
}

#[test]
fn a_bar_along_each_axis_keeps_width_and_height_apart() {
    let mut voxels = air();
    for x in 3..8 {
        voxels[linearize_3d(x, 20, 30)] = 1;
    }
    let mesh = both(&voxels, &HashSet::new());
    assert_eq!(mesh.quads(Face::PosY), &vec![Quad::new(3, 20, 30, 5, 1, 1)]);
    assert_eq!(mesh.quads(Face::PosZ), &vec![Quad::new(3, 20, 30, 5, 1, 1)]);
    assert_eq!(mesh.quads(Face::PosX), &vec![Quad::new(7, 20, 30, 1, 1, 1)]);
    assert_eq!(mesh.quads(Face::NegX), &vec![Quad::new(3, 20, 30, 1, 1, 1)]);

    let mut voxels = air();
    for z in 3..8 {
        voxels[linearize_3d(20, 30, z)] = 1;
    }
    let mesh = both(&voxels, &HashSet::new());
    assert_eq!(mesh.quads(Face::PosX), &vec![Quad::new(20, 30, 3, 5, 1, 1)]);
    assert_eq!(mesh.quads(Face::PosY), &vec![Quad::new(20, 30, 3, 1, 5, 1)]);
    assert_eq!(mesh.quads(Face::NegZ), &vec![Quad::new(20, 30, 3, 1, 1, 1)]);
    assert_eq!(mesh.quads(Face::PosZ), &vec![Quad::new(20, 30, 7, 1, 1, 1)]);
}

#[test]
fn different_materials_do_not_merge() {
    let mut voxels = air();
    voxels[linearize_3d(4, 4, 4)] = 1;
    voxels[linearize_3d(5, 4, 4)] = 2;
    let mesh = both(&voxels, &HashSet::new());
    assert_eq!(
        mesh.quads(Face::PosY),
        &vec![Quad::new(4, 4, 4, 1, 1, 1), Quad::new(5, 4, 4, 1, 1, 2)]
    );
    assert_eq!(mesh.quads(Face::PosX), &vec![Quad::new(5, 4, 4, 1, 1, 2)]);
    assert_eq!(mesh.quads(Face::NegX), &vec![Quad::new(4, 4, 4, 1, 1, 1)]);
}

#[test]
fn runs_grow_forward_before_they_are_joined_sideways() {
    // An L: a 2 by 1 foot along x and a leg of three along z on the left.
    let mut voxels = air();
    voxels[linearize_3d(10, 10, 10)] = 1;
    voxels[linearize_3d(11, 10, 10)] = 1;
    voxels[linearize_3d(10, 10, 11)] = 1;
    voxels[linearize_3d(10, 10, 12)] = 1;
    let mesh = both(&voxels, &HashSet::new());
    assert_eq!(
        mesh.quads(Face::PosY),
        &vec![Quad::new(11, 10, 10, 1, 1, 1), Quad::new(10, 10, 10, 1, 3, 1)]
    );
}

#[test]
fn sphere_is_covered_by_far_fewer_quads_than_faces() {
    let mut voxels = air();
    let mut faces = 0usize;
    for x in 1..LEN - 1 {
        for y in 1..LEN - 1 {
            for z in 1..LEN - 1 {
                let (dx, dy, dz) = (x as i32 - 31, y as i32 - 31, z as i32 - 31);
                if dx * dx + dy * dy + dz * dz < 16 * 16 {
                    voxels[linearize_3d(x, y, z)] = 1;
                }
            }
        }
    }
    for x in 1..LEN - 1 {
        for y in 1..LEN - 1 {
            for z in 1..LEN - 1 {
                if voxels[linearize_3d(x, y, z)] != 0 {
                    for (ax, ay, az) in [
                        (x + 1, y, z),
                        (x - 1, y, z),
                        (x, y + 1, z),
                        (x, y - 1, z),
                        (x, y, z + 1),
                        (x, y, z - 1),
                    ] {
                        if voxels[linearize_3d(ax, ay, az)] == 0 {
                            faces += 1;
                        }
                    }
                }
            }
        }
    }
    let mesh = both(&voxels, &HashSet::new());
    let mut covered = 0usize;
    for face in Face::ALL {
        for quad in mesh.quads(face) {
            covered += (quad.w() * quad.h()) as usize;
            assert_eq!(quad.id, 1);
        }
    }
    assert_eq!(covered, faces);
    assert!(mesh.len() * 2 < faces);
    let silhouette: usize = mesh.quads(Face::PosY).iter().map(|q| (q.w() * q.h()) as usize).sum();
    let mut shadow = 0usize;
    for x in 1..LEN - 1 {
        for z in 1..LEN - 1 {
            if (1..LEN - 1).any(|y| voxels[linearize_3d(x, y, z)] != 0) {
                shadow += 1;
            }
        }
    }
    assert_eq!(silhouette, shadow);
}

#[test]
fn two_opaque_layers_show_no_face_between_them() {
    let mesh = both(&halves(), &HashSet::new());
    assert_eq!(mesh.quads(Face::PosY), &vec![Quad::new(1, 62, 1, 62, 62, 2)]);
    assert_eq!(mesh.quads(Face::NegY), &vec![Quad::new(1, 1, 1, 62, 62, 1)]);
    for face in [Face::PosX, Face::NegX] {
        let x = if face == Face::PosX { 62 } else { 1 };
        assert_eq!(
            mesh.quads(face),
            &vec![Quad::new(x, 1, 1, 62, 31, 1), Quad::new(x, 32, 1, 62, 31, 2)]
        );
    }
    for face in [Face::PosZ, Face::NegZ] {
        let z = if face == Face::PosZ { 62 } else { 1 };
        assert_eq!(
            mesh.quads(face),
            &vec![Quad::new(1, 1, z, 62, 31, 1), Quad::new(1, 32, z, 62, 31, 2)]
        );
    }
    assert_eq!(mesh.len(), 10);
}

#[test]
fn an_opaque_layer_shows_through_a_transparent_one() {
    let mesh = both(&halves(), &HashSet::from([2]));
    assert_eq!(
        mesh.quads(Face::PosY),
        &vec![Quad::new(1, 31, 1, 62, 62, 1), Quad::new(1, 62, 1, 62, 62, 2)]
    );
    assert_eq!(mesh.quads(Face::NegY), &vec![Quad::new(1, 1, 1, 62, 62, 1)]);
    assert_eq!(mesh.len(), 11);
}

#[test]
fn transparent_voxels_of_one_material_hide_each_other() {
    let mut voxels = air();
    voxels[linearize_3d(8, 8, 8)] = 2;
    voxels[linearize_3d(9, 8, 8)] = 2;
    voxels[linearize_3d(10, 8, 8)] = 3;
    let mesh = both(&voxels, &HashSet::from([2, 3]));
    // Between the two voxels of material 2 nothing shows; between 2 and 3
    // both sides show.
    assert_eq!(
        mesh.quads(Face::PosX),
        &vec![Quad::new(9, 8, 8, 1, 1, 2), Quad::new(10, 8, 8, 1, 1, 3)]
    );
    assert_eq!(
        mesh.quads(Face::NegX),
        &vec![Quad::new(8, 8, 8, 1, 1, 2), Quad::new(10, 8, 8, 1, 1, 3)]
    );
    assert_eq!(
        mesh.quads(Face::PosY),
        &vec![Quad::new(8, 8, 8, 2, 1, 2), Quad::new(10, 8, 8, 1, 1, 3)]
    );
}
