use std::collections::HashSet;

use binary_greedy_meshing::{
    compute_opaque_masks, compute_transparent_masks, linearize_3d, Face, GreaterThanFive,
    MeshChanges, Quad, QuadMesh, Vertex, CUBE, LEN, SQUARE,
};

fn blank_chunk() -> Box<[u16; CUBE]> {
    vec![0u16; CUBE].into_boxed_slice().try_into().unwrap()
}

#[test]
fn linearize_3d_is_x_plus_64_y_plus_4096_z() {
    assert_eq!(linearize_3d(0, 0, 0), 0);
    assert_eq!(linearize_3d(1, 0, 0), 1);
    assert_eq!(linearize_3d(0, 1, 0), 64);
    assert_eq!(linearize_3d(0, 0, 1), 4096);
    assert_eq!(linearize_3d(5, 6, 7), 5 + 64 * 6 + 4096 * 7);
    assert_eq!(linearize_3d(63, 63, 63), CUBE - 1);
    assert_eq!(LEN * LEN, SQUARE);
    assert_eq!(LEN * LEN * LEN, CUBE);
}

#[test]
fn face_from_byte() {
    assert_eq!(Face::try_from(0), Ok(Face::PosX));
    assert_eq!(Face::try_from(1), Ok(Face::NegX));
    assert_eq!(Face::try_from(2), Ok(Face::PosY));
    assert_eq!(Face::try_from(3), Ok(Face::NegY));
    assert_eq!(Face::try_from(4), Ok(Face::PosZ));
    assert_eq!(Face::try_from(5), Ok(Face::NegZ));
    assert_eq!(Face::try_from(6), Err(GreaterThanFive));
    assert_eq!(Face::try_from(255), Err(GreaterThanFive));
}

#[test]
fn faces_in_order() {
    let all = Face::ALL;
    assert_eq!(
        all,
        [Face::PosX, Face::NegX, Face::PosY, Face::NegY, Face::PosZ, Face::NegZ]
    );
    for (i, face) in all.into_iter().enumerate() {
        assert_eq!(face.ordinal(), i);
        assert_eq!(Face::try_from(i as u8), Ok(face));
    }
}

#[test]
fn quad_reads_back_what_was_packed() {
    let quad = Quad::new(1, 2, 3, 4, 5, 6);
    assert_eq!(quad.x(), 1);
    assert_eq!(quad.y(), 2);
    assert_eq!(quad.z(), 3);
    assert_eq!(quad.w(), 4);
    assert_eq!(quad.h(), 5);
    assert_eq!(quad.id, 6);
    assert_eq!(quad.xyz(), [1, 2, 3]);
    assert_eq!(quad.size(), [4, 5]);
    assert_eq!(quad.other, 1 | (2 << 6) | (3 << 12) | (4 << 18) | (5 << 24));
}

#[test]
fn quad_cuts_each_field_to_its_width() {
    let quad = Quad::new(64 + 7, 128 + 9, 0xffff_ffc0 + 11, 64, 63 + 64, (1 << 26) + 5);
    assert_eq!(quad.x(), 7);
    assert_eq!(quad.y(), 9);
    assert_eq!(quad.z(), 11);
    assert_eq!(quad.w(), 0);
    assert_eq!(quad.h(), 63);
    assert_eq!(quad.id, 5);
    assert_eq!(quad.other >> 30, 0);

    let full = Quad::new(u32::MAX, u32::MAX, u32::MAX, u32::MAX, u32::MAX, u32::MAX);
    assert_eq!(full.xyz(), [63, 63, 63]);
    assert_eq!(full.size(), [63, 63]);
    assert_eq!(full.id, (1 << 26) - 1);
}

#[test]
fn quad_round_trip_over_all_small_fields() {
    for a in [0u32, 1, 31, 62, 63] {
        for b in [0u32, 2, 33, 63] {
            for id in [0u32, 1, 0xffff, (1 << 26) - 1] {
                let quad = Quad::new(a, b, a ^ b, b, a, id);
                assert_eq!(quad.xyz(), [a, b, a ^ b]);
                assert_eq!(quad.size(), [b, a]);
                assert_eq!(quad.id, id);
            }
        }
    }
}

#[test]
fn vertex_reads_back_what_was_packed() {
    let vertex = Vertex::new(1, 2, 3, 4, 5);
    assert_eq!(vertex.0, 1 | (2 << 6) | (3 << 12) | (4 << 18) | (5 << 24));
    assert_eq!(vertex.x(), 1);
    assert_eq!(vertex.y(), 2);
    assert_eq!(vertex.z(), 3);
    assert_eq!(vertex.u(), 4);
    assert_eq!(vertex.v(), 5);
    assert_eq!(vertex.xyz(), [1, 2, 3]);
    assert_eq!(vertex.uv(), [4, 5]);
}

#[test]
fn vertices_of_a_quad() {
    let quad = Quad::new(10, 20, 30, 3, 2, 1);

    let neg_x = quad.vertices(Face::NegX);
    assert_eq!(neg_x[0], Vertex::new(10, 20, 30, 2, 3));
    assert_eq!(neg_x[1], Vertex::new(10, 20, 32, 0, 3));
    assert_eq!(neg_x[2], Vertex::new(10, 23, 30, 2, 0));
    assert_eq!(neg_x[3], Vertex::new(10, 23, 32, 0, 0));

    let pos_x = quad.vertices(Face::PosX);
    assert_eq!(pos_x[0], Vertex::new(10, 20, 30, 0, 0));
    assert_eq!(pos_x[1], Vertex::new(10, 20, 32, 2, 0));
    assert_eq!(pos_x[2], Vertex::new(10, 17, 30, 0, 3));
    assert_eq!(pos_x[3], Vertex::new(10, 17, 32, 2, 3));

    let pos_y = quad.vertices(Face::PosY);
    assert_eq!(pos_y[0], Vertex::new(13, 20, 32, 3, 2));
    assert_eq!(pos_y[1], Vertex::new(13, 20, 30, 3, 0));
    assert_eq!(pos_y[2], Vertex::new(10, 20, 32, 0, 2));
    assert_eq!(pos_y[3], Vertex::new(10, 20, 30, 0, 0));

    let neg_y = quad.vertices(Face::NegY);
    assert_eq!(neg_y[0], Vertex::new(7, 20, 32, 3, 2));
    assert_eq!(neg_y[1], Vertex::new(7, 20, 30, 3, 0));
    assert_eq!(neg_y[2], Vertex::new(10, 20, 32, 0, 2));
    assert_eq!(neg_y[3], Vertex::new(10, 20, 30, 0, 0));

    let neg_z = quad.vertices(Face::NegZ);
    assert_eq!(neg_z[0], Vertex::new(10, 20, 30, 3, 2));
    assert_eq!(neg_z[1], Vertex::new(10, 22, 30, 3, 0));
    assert_eq!(neg_z[2], Vertex::new(13, 20, 30, 0, 2));
    assert_eq!(neg_z[3], Vertex::new(13, 22, 30, 0, 0));

    let pos_z = quad.vertices(Face::PosZ);
    assert_eq!(pos_z[0], Vertex::new(7, 22, 30, 0, 0));
    assert_eq!(pos_z[1], Vertex::new(7, 20, 30, 0, 2));
    assert_eq!(pos_z[2], Vertex::new(10, 22, 30, 3, 0));
    assert_eq!(pos_z[3], Vertex::new(10, 20, 30, 3, 2));
}

#[test]
fn mesh_changes_record_planes() {
    let mut changes = MeshChanges::new();
    assert!(changes.is_empty());
    assert_eq!(changes.to_array(), [0, 0, 0]);
    assert_eq!(changes.xs(), Vec::<usize>::new());

    changes.push([3, 0, 63]);
    changes.push([1, 0, 5]);
    changes.push([3, 62, 5]);
    assert!(!changes.is_empty());
    assert_eq!(
        changes.to_array(),
        [(1 << 3) | (1 << 1), 1 | (1 << 62), (1 << 63) | (1 << 5)]
    );
    assert_eq!(changes.xs(), vec![1, 3]);
    assert_eq!(changes.ys(), vec![0, 62]);
    assert_eq!(changes.zs(), vec![5, 63]);

    changes.clear();
    assert!(changes.is_empty());
    assert_eq!(changes.to_array(), [0, 0, 0]);
    assert_eq!(changes, MeshChanges::default());
}

#[test]
fn positions_of_a_word_come_lowest_first() {
    let mut changes = MeshChanges::new();
    for x in [63u32, 0, 17, 40, 17, 1] {
        changes.push([x, x, x]);
    }
    assert_eq!(changes.xs(), vec![0, 1, 17, 40, 63]);
    assert_eq!(changes.zs(), vec![0, 1, 17, 40, 63]);

    let mut all = MeshChanges::new();
    for x in 0..64u32 {
        all.push([x, 0, 0]);
    }
    assert_eq!(all.xs(), (0..64).collect::<Vec<usize>>());
    assert_eq!(all.ys(), vec![0]);
}

#[test]
fn masks_mark_each_solid_voxel_once() {
    let transparents = HashSet::from([2, 9]);
    let mut voxels = blank_chunk();
    voxels[linearize_3d(0, 0, 0)] = 1;
    voxels[linearize_3d(63, 0, 0)] = 2;
    voxels[linearize_3d(5, 6, 7)] = 3;
    voxels[linearize_3d(6, 6, 7)] = 9;
    voxels[linearize_3d(63, 63, 63)] = 4;

    let opaque = compute_opaque_masks(&voxels, &transparents);
    let transparent = compute_transparent_masks(&voxels, &transparents);

    let mut expect_opaque = [0u64; SQUARE];
    let mut expect_transparent = [0u64; SQUARE];
    expect_opaque[0] = 1;
    expect_transparent[0] = 1 << 63;
    expect_opaque[6 + 64 * 7] = 1 << 5;
    expect_transparent[6 + 64 * 7] = 1 << 6;
    expect_opaque[63 + 64 * 63] = 1 << 63;
    assert_eq!(*opaque, expect_opaque);
    assert_eq!(*transparent, expect_transparent);

    for i in 0..SQUARE {
        assert_eq!(opaque[i] & transparent[i], 0);
    }
}

#[test]
fn masks_of_an_empty_chunk_are_empty() {
    let voxels = blank_chunk();
    let transparents = HashSet::from([1]);
    assert_eq!(*compute_opaque_masks(&voxels, &transparents), [0u64; SQUARE]);
    assert_eq!(*compute_transparent_masks(&voxels, &transparents), [0u64; SQUARE]);
}

#[test]
fn an_empty_mesh_has_no_quads() {
    let mesh = QuadMesh::new();
    assert_eq!(mesh.len(), 0);
    for face in Face::ALL {
        assert!(mesh.quads(face).is_empty());
    }
}
