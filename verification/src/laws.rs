//! What holds of every mesh.

use crate::bits::{bit, dilated, lemma_dilated};
use crate::face::{Axis, Face};
use crate::layout::{in_chunk, index_3d, interior, voxel_at, CUBE};
use crate::masks::{marks_opaque, marks_transparent};
use crate::model::{
    along, axis_word, cell_x, cell_y, cell_z, col, face_quads, face_visible, kept,
    lemma_mask_faces, lemma_plane_blank, lemma_plane_inside, lemma_plane_local,
    lemma_quad_of_plane, lemma_reach_from, mask_faces, mask_mesh_list, mesh_list, plane_of,
    plane_quads, plane_rects, planes_quads, quad_of, quad_plane, reach, remeshed, row, seen_faces,
    spliced, within_shell,
};
use crate::plane::Rect;
use crate::quad::{lemma_quad_fields, Quad};
use crate::tiling::{lemma_bar_tiles, lemma_slab_tiles, tiles, well_shaped};
use vstd::prelude::*;

verus! {

/// The fast path and the slow path give the same mesh: with masks that mark
/// the opaque and the transparent voxels of the chunk, the lists made from
/// the masks are the lists made from the set of transparent materials.
pub proof fn law_mesh_is_slow_mesh(
    voxels: Seq<u16>,
    transparents: Set<u16>,
    opaque_masks: Seq<u64>,
    transparent_masks: Seq<u64>,
    face: Face,
)
    requires
        marks_opaque(opaque_masks, voxels, transparents),
        marks_transparent(transparent_masks, voxels, transparents),
    ensures
        mask_mesh_list(voxels, opaque_masks, transparent_masks, face) == mesh_list(
            voxels,
            transparents,
            face,
        ),
{
    lemma_mask_faces(voxels, transparents, opaque_masks, transparent_masks, face);
}

/// Planes without a visible face have no quads.
proof fn lemma_planes_blank(
    voxels: Seq<u16>,
    vis: spec_fn(int, int, int) -> bool,
    axis: Axis,
    n: int,
)
    requires
        forall|x: int, y: int, z: int| !#[trigger] vis(x, y, z),
    ensures
        planes_quads(voxels, vis, axis, n) == Seq::<Quad>::empty(),
    decreases n,
{
    if n > 0 {
        lemma_planes_blank(voxels, vis, axis, n - 1);
        lemma_plane_blank(voxels, vis, axis, n - 1);
    }
}

/// An empty chunk has an empty mesh: if no voxel of the chunk is solid, the
/// list of every direction is empty.
pub proof fn law_empty_chunk(voxels: Seq<u16>, transparents: Set<u16>, face: Face)
    requires
        forall|x: int, y: int, z: int|
            in_chunk(x) && in_chunk(y) && in_chunk(z) ==> #[trigger] voxel_at(voxels, x, y, z)
                == 0,
    ensures
        mesh_list(voxels, transparents, face) == Seq::<Quad>::empty(),
{
    let vis = seen_faces(voxels, transparents, face);
    assert forall|x: int, y: int, z: int| !#[trigger] vis(x, y, z) by {
        if interior(x) && interior(y) && interior(z) {
            assert(voxel_at(voxels, x, y, z) == 0);
        }
    }
    lemma_planes_blank(voxels, vis, face.axis(), 64);
}

/// Every quad of plane `k` lies in plane `k`.
pub proof fn lemma_plane_quads_plane(
    voxels: Seq<u16>,
    vis: spec_fn(int, int, int) -> bool,
    axis: Axis,
    k: int,
    i: int,
)
    requires
        0 <= k < 64,
        0 <= i < plane_quads(voxels, vis, axis, k).len(),
    ensures
        quad_plane(axis, plane_quads(voxels, vis, axis, k)[i]) == k,
{
    lemma_quad_of_plane(axis, k, plane_rects(plane_of(voxels, vis, axis, k), axis)[i]);
}

/// The quads of the first planes stand first among the quads of more planes.
pub proof fn lemma_planes_grow(
    voxels: Seq<u16>,
    vis: spec_fn(int, int, int) -> bool,
    axis: Axis,
    n: int,
    m: int,
)
    requires
        0 <= n <= m,
    ensures
        planes_quads(voxels, vis, axis, n).len() <= planes_quads(voxels, vis, axis, m).len(),
        planes_quads(voxels, vis, axis, m).subrange(
            0,
            planes_quads(voxels, vis, axis, n).len() as int,
        ) == planes_quads(voxels, vis, axis, n),
    decreases m - n,
{
    if n < m {
        lemma_planes_grow(voxels, vis, axis, n, m - 1);
        assert(planes_quads(voxels, vis, axis, m).subrange(
            0,
            planes_quads(voxels, vis, axis, n).len() as int,
        ) =~= planes_quads(voxels, vis, axis, m - 1).subrange(
            0,
            planes_quads(voxels, vis, axis, n).len() as int,
        ));
    } else {
        assert(planes_quads(voxels, vis, axis, m).subrange(
            0,
            planes_quads(voxels, vis, axis, n).len() as int,
        ) =~= planes_quads(voxels, vis, axis, n));
    }
}

/// The plane from which the quad at place `i` among the quads of the planes
/// `0..n` comes.
pub proof fn lemma_planes_find(
    voxels: Seq<u16>,
    vis: spec_fn(int, int, int) -> bool,
    axis: Axis,
    n: int,
    i: int,
) -> (k: int)
    requires
        0 <= i < planes_quads(voxels, vis, axis, n).len(),
    ensures
        0 <= k < n,
        planes_quads(voxels, vis, axis, k).len() <= i,
        i < planes_quads(voxels, vis, axis, k + 1).len(),
        planes_quads(voxels, vis, axis, n)[i] == plane_quads(voxels, vis, axis, k)[i
            - planes_quads(voxels, vis, axis, k).len()],
    decreases n,
{
    if i < planes_quads(voxels, vis, axis, n - 1).len() {
        lemma_planes_find(voxels, vis, axis, n - 1, i)
    } else {
        n - 1
    }
}

/// Each list of a mesh is in the order of its planes: the quads of the
/// faces along x never step back in x, those along y never in y, those
/// along z never in z.
pub proof fn law_lists_ascend(
    voxels: Seq<u16>,
    vis: spec_fn(int, int, int) -> bool,
    axis: Axis,
    i: int,
    j: int,
)
    requires
        0 <= i <= j < face_quads(voxels, vis, axis).len(),
    ensures
        quad_plane(axis, face_quads(voxels, vis, axis)[i]) <= quad_plane(
            axis,
            face_quads(voxels, vis, axis)[j],
        ),
{
    let ki = lemma_planes_find(voxels, vis, axis, 64, i);
    let kj = lemma_planes_find(voxels, vis, axis, 64, j);
    lemma_plane_quads_plane(
        voxels,
        vis,
        axis,
        ki,
        i - planes_quads(voxels, vis, axis, ki).len(),
    );
    lemma_plane_quads_plane(
        voxels,
        vis,
        axis,
        kj,
        j - planes_quads(voxels, vis, axis, kj).len(),
    );
    if ki > kj {
        lemma_planes_grow(voxels, vis, axis, kj + 1, ki);
    }
}

/// In a list of a mesh the quads of plane `k` start where the quads of the
/// planes before it end.
pub proof fn lemma_face_start(
    voxels: Seq<u16>,
    vis: spec_fn(int, int, int) -> bool,
    axis: Axis,
    k: int,
)
    requires
        0 <= k <= 64,
    ensures
        reach(face_quads(voxels, vis, axis), axis, k, 0) == planes_quads(
            voxels,
            vis,
            axis,
            k,
        ).len(),
{
    let list = face_quads(voxels, vis, axis);
    let start = planes_quads(voxels, vis, axis, k).len() as int;
    lemma_planes_grow(voxels, vis, axis, k, 64);
    assert forall|m: int| 0 <= m < start implies quad_plane(axis, #[trigger] list[m]) < k by {
        let km = lemma_planes_find(voxels, vis, axis, 64, m);
        lemma_plane_quads_plane(
            voxels,
            vis,
            axis,
            km,
            m - planes_quads(voxels, vis, axis, km).len(),
        );
        if km >= k {
            lemma_planes_grow(voxels, vis, axis, k, km);
        }
    }
    lemma_reach_from(list, axis, k, 0, start);
    if start < list.len() {
        let ks = lemma_planes_find(voxels, vis, axis, 64, start);
        lemma_plane_quads_plane(
            voxels,
            vis,
            axis,
            ks,
            start - planes_quads(voxels, vis, axis, ks).len(),
        );
        if ks < k {
            lemma_planes_grow(voxels, vis, axis, ks + 1, k);
        }
    }
}

/// What a list of a mesh holds for plane `k` is the quads of plane `k`.
pub proof fn lemma_face_kept(
    voxels: Seq<u16>,
    vis: spec_fn(int, int, int) -> bool,
    axis: Axis,
    k: int,
)
    requires
        0 <= k < 64,
    ensures
        kept(face_quads(voxels, vis, axis), axis, k) == plane_quads(voxels, vis, axis, k),
{
    lemma_face_start(voxels, vis, axis, k);
    lemma_face_start(voxels, vis, axis, k + 1);
    lemma_planes_grow(voxels, vis, axis, k + 1, 64);
    let list = face_quads(voxels, vis, axis);
    let upto = planes_quads(voxels, vis, axis, k + 1);
    let start = planes_quads(voxels, vis, axis, k).len() as int;
    let fresh = plane_quads(voxels, vis, axis, k);
    assert(upto =~= planes_quads(voxels, vis, axis, k) + fresh);
    assert forall|i: int| 0 <= i < fresh.len() implies list[start + i] == fresh[i] by {
        assert(list.subrange(0, upto.len() as int)[start + i] == list[start + i]);
    }
    assert(kept(list, axis, k) =~= fresh);
}

/// The two chunks hold the same voxel wherever the words `cx`, `cy`, `cz`
/// do not all mark the plane of the place.
pub open spec fn differ_within(
    before: Seq<u16>,
    after: Seq<u16>,
    cx: u64,
    cy: u64,
    cz: u64,
) -> bool {
    forall|x: int, y: int, z: int|
        in_chunk(x) && in_chunk(y) && in_chunk(z) && #[trigger] voxel_at(before, x, y, z)
            != voxel_at(after, x, y, z) ==> bit(cx, x) && bit(cy, y) && bit(cz, z)
}

/// Away from the edits a plane has the quads it had.
proof fn lemma_plane_untouched(
    before: Seq<u16>,
    after: Seq<u16>,
    transparents: Set<u16>,
    cx: u64,
    cy: u64,
    cz: u64,
    face: Face,
    k: int,
)
    requires
        differ_within(before, after, cx, cy, cz),
        0 <= k < 64,
        !bit(dilated(axis_word(face.axis(), cx, cy, cz)), k),
    ensures
        plane_quads(before, seen_faces(before, transparents, face), face.axis(), k) == plane_quads(
            after,
            seen_faces(after, transparents, face),
            face.axis(),
            k,
        ),
{
    let axis = face.axis();
    let vis0 = seen_faces(before, transparents, face);
    let vis1 = seen_faces(after, transparents, face);
    lemma_dilated(axis_word(axis, cx, cy, cz));
    if interior(k) {
        assert forall|x: int, y: int, z: int|
            in_chunk(x) && in_chunk(y) && in_chunk(z) && along(axis, x, y, z) == k implies voxel_at(
            before,
            x,
            y,
            z,
        ) == voxel_at(after, x, y, z) && vis0(x, y, z) == vis1(x, y, z) by {
            let (ax, ay, az) = (x + face.dx(), y + face.dy(), z + face.dz());
            if interior(x) && interior(y) && interior(z) {
                assert(in_chunk(ax) && in_chunk(ay) && in_chunk(az));
                assert(along(axis, ax, ay, az) == k + face.sign());
                if voxel_at(before, ax, ay, az) != voxel_at(after, ax, ay, az) {
                    assert(bit(axis_word(axis, cx, cy, cz), k + face.sign()));
                }
            }
            if voxel_at(before, x, y, z) != voxel_at(after, x, y, z) {
                assert(bit(axis_word(axis, cx, cy, cz), k));
            }
        }
        lemma_plane_local(before, vis0, after, vis1, axis, k);
    } else {
        lemma_plane_inside(before, vis0, axis, k);
        lemma_plane_inside(after, vis1, axis, k);
        lemma_plane_blank(before, vis0, axis, k);
        lemma_plane_blank(after, vis1, axis, k);
    }
}

proof fn lemma_spliced_planes(
    before: Seq<u16>,
    after: Seq<u16>,
    transparents: Set<u16>,
    cx: u64,
    cy: u64,
    cz: u64,
    face: Face,
    n: int,
)
    requires
        differ_within(before, after, cx, cy, cz),
        0 <= n <= 64,
    ensures
        spliced(
            face_quads(before, seen_faces(before, transparents, face), face.axis()),
            after,
            seen_faces(after, transparents, face),
            face.axis(),
            dilated(axis_word(face.axis(), cx, cy, cz)),
            n,
        ) == planes_quads(after, seen_faces(after, transparents, face), face.axis(), n),
    decreases n,
{
    if n > 0 {
        lemma_spliced_planes(before, after, transparents, cx, cy, cz, face, n - 1);
        if !bit(dilated(axis_word(face.axis(), cx, cy, cz)), n - 1) {
            lemma_face_kept(before, seen_faces(before, transparents, face), face.axis(), n - 1);
            lemma_plane_untouched(before, after, transparents, cx, cy, cz, face, n - 1);
        }
    }
}

/// Meshing again after edits gives the mesh of the chunk as it is now.
///
/// Take the list of direction `face` of the chunk `before`, and let `after`
/// differ from `before` only at places whose three planes the words `cx`,
/// `cy`, `cz` mark. Then the list made anew near the planes that the word of
/// the axis marks, from the faces of `after`, is the list of direction
/// `face` of `after`.
pub proof fn law_remesh_is_mesh(
    before: Seq<u16>,
    after: Seq<u16>,
    transparents: Set<u16>,
    cx: u64,
    cy: u64,
    cz: u64,
    face: Face,
)
    requires
        differ_within(before, after, cx, cy, cz),
    ensures
        remeshed(
            mesh_list(before, transparents, face),
            after,
            seen_faces(after, transparents, face),
            face.axis(),
            axis_word(face.axis(), cx, cy, cz),
        ) == mesh_list(after, transparents, face),
{
    lemma_spliced_planes(before, after, transparents, cx, cy, cz, face, 64);
}

/// Meshing again from masks gives the mesh of the chunk as it is now: as
/// [`law_remesh_is_mesh`], with the faces of `after` read from masks that
/// mark its opaque and its transparent voxels.
pub proof fn law_remesh_by_masks_is_mesh(
    before: Seq<u16>,
    after: Seq<u16>,
    transparents: Set<u16>,
    opaque_masks: Seq<u64>,
    transparent_masks: Seq<u64>,
    cx: u64,
    cy: u64,
    cz: u64,
    face: Face,
)
    requires
        differ_within(before, after, cx, cy, cz),
        marks_opaque(opaque_masks, after, transparents),
        marks_transparent(transparent_masks, after, transparents),
    ensures
        remeshed(
            mesh_list(before, transparents, face),
            after,
            mask_faces(after, opaque_masks, transparent_masks, face),
            face.axis(),
            axis_word(face.axis(), cx, cy, cz),
        ) == mask_mesh_list(after, opaque_masks, transparent_masks, face),
{
    lemma_mask_faces(after, transparents, opaque_masks, transparent_masks, face);
    law_remesh_is_mesh(before, after, transparents, cx, cy, cz, face);
}

/// An edit that is recorded keeps the record true: if `mid` differs from
/// `before` only where the words mark all three planes, and `after` is
/// `mid` with the voxel at `(x, y, z)` replaced, then `after` differs from
/// `before` only where the words with the planes of `(x, y, z)` added mark
/// all three planes.
pub proof fn law_edits_are_recorded(
    before: Seq<u16>,
    mid: Seq<u16>,
    after: Seq<u16>,
    x: int,
    y: int,
    z: int,
    id: u16,
    cx: u64,
    cy: u64,
    cz: u64,
    nx: u64,
    ny: u64,
    nz: u64,
)
    requires
        mid.len() == CUBE,
        in_chunk(x) && in_chunk(y) && in_chunk(z),
        after == mid.update(index_3d(x, y, z), id),
        differ_within(before, mid, cx, cy, cz),
        forall|i: int| #[trigger] bit(nx, i) == (bit(cx, i) || i == x),
        forall|i: int| #[trigger] bit(ny, i) == (bit(cy, i) || i == y),
        forall|i: int| #[trigger] bit(nz, i) == (bit(cz, i) || i == z),
    ensures
        differ_within(before, after, nx, ny, nz),
{
    assert forall|a: int, b: int, c: int|
        in_chunk(a) && in_chunk(b) && in_chunk(c) && #[trigger] voxel_at(before, a, b, c)
            != voxel_at(after, a, b, c) implies bit(nx, a) && bit(ny, b) && bit(nz, c) by {
        if index_3d(a, b, c) != index_3d(x, y, z) {
            assert(voxel_at(after, a, b, c) == voxel_at(mid, a, b, c));
        }
    }
}

/// The quad `q` of a direction along `axis` covers the face of the voxel at
/// `(x, y, z)`: it lies in the plane of the voxel, and the voxel lies within
/// its width and height.
pub open spec fn quad_covers(axis: Axis, q: Quad, x: int, y: int, z: int) -> bool {
    match axis {
        Axis::X => q.spec_x() == x && q.spec_y() <= y < q.spec_y() + q.spec_h() && q.spec_z()
            <= z < q.spec_z() + q.spec_w(),
        Axis::Y => q.spec_y() == y && q.spec_x() <= x < q.spec_x() + q.spec_w() && q.spec_z()
            <= z < q.spec_z() + q.spec_h(),
        Axis::Z => q.spec_z() == z && q.spec_x() <= x < q.spec_x() + q.spec_w() && q.spec_y()
            <= y < q.spec_y() + q.spec_h(),
    }
}

/// A packed rectangle covers the voxels of its plane whose cells it covers,
/// and carries its material.
pub proof fn lemma_quad_of_covers(axis: Axis, k: int, r: Rect, x: int, y: int, z: int)
    requires
        0 <= k < 64,
        well_shaped(r),
    ensures
        quad_covers(axis, quad_of(axis, k, r), x, y, z) == (along(axis, x, y, z) == k && r.covers(
            col(axis, x, y, z),
            row(axis, x, y, z),
        )),
        quad_of(axis, k, r).id == r.id,
{
    match axis {
        Axis::X => lemma_quad_fields(
            k as u32,
            r.a as u32,
            r.b as u32,
            r.nb as u32,
            r.na as u32,
            r.id as u32,
        ),
        Axis::Y => lemma_quad_fields(
            r.a as u32,
            k as u32,
            r.b as u32,
            r.na as u32,
            r.nb as u32,
            r.id as u32,
        ),
        Axis::Z => lemma_quad_fields(
            r.a as u32,
            r.b as u32,
            k as u32,
            r.na as u32,
            r.nb as u32,
            r.id as u32,
        ),
    }
}

/// The rectangles of every plane tile its seen cells.
pub proof fn lemma_plane_tiles(
    voxels: Seq<u16>,
    vis: spec_fn(int, int, int) -> bool,
    axis: Axis,
    k: int,
)
    requires
        within_shell(vis),
    ensures
        tiles(
            plane_of(voxels, vis, axis, k),
            plane_rects(plane_of(voxels, vis, axis, k), axis),
            |c: int| 63,
        ),
{
    let p = plane_of(voxels, vis, axis, k);
    lemma_plane_inside(voxels, vis, axis, k);
    if axis == Axis::X {
        lemma_slab_tiles(p);
    } else {
        lemma_bar_tiles(p);
    }
}

/// A quad covers visible faces of its own material only: if the quad at
/// place `i` of a list covers the voxel at `(x, y, z)`, the face of that
/// voxel is visible and the quad carries the material of the voxel.
pub proof fn law_covered_is_seen(
    voxels: Seq<u16>,
    vis: spec_fn(int, int, int) -> bool,
    axis: Axis,
    i: int,
    x: int,
    y: int,
    z: int,
)
    requires
        within_shell(vis),
        0 <= i < face_quads(voxels, vis, axis).len(),
        quad_covers(axis, face_quads(voxels, vis, axis)[i], x, y, z),
    ensures
        vis(x, y, z),
        face_quads(voxels, vis, axis)[i].id == voxel_at(voxels, x, y, z),
{
    let k = lemma_planes_find(voxels, vis, axis, 64, i);
    let j = i - planes_quads(voxels, vis, axis, k).len();
    let p = plane_of(voxels, vis, axis, k);
    let rects = plane_rects(p, axis);
    lemma_plane_tiles(voxels, vis, axis, k);
    assert(well_shaped(rects[j]));
    lemma_quad_of_covers(axis, k, rects[j], x, y, z);
    let (c, r) = (col(axis, x, y, z), row(axis, x, y, z));
    assert(rects[j].covers(c, r));
    assert(p.seen(c, r));
    assert(p.mat(c, r) == rects[j].id);
    assert(cell_x(axis, k, c, r) == x && cell_y(axis, k, c, r) == y && cell_z(axis, k, c, r) == z);
}

/// Every quad of a list has a width and a height of at least one voxel and
/// carries the identifier of a voxel.
pub proof fn law_quads_have_extent(
    voxels: Seq<u16>,
    vis: spec_fn(int, int, int) -> bool,
    axis: Axis,
    i: int,
)
    requires
        within_shell(vis),
        0 <= i < face_quads(voxels, vis, axis).len(),
    ensures
        1 <= face_quads(voxels, vis, axis)[i].spec_w() <= 62,
        1 <= face_quads(voxels, vis, axis)[i].spec_h() <= 62,
        face_quads(voxels, vis, axis)[i].id <= u16::MAX,
        interior(quad_plane(axis, face_quads(voxels, vis, axis)[i])),
{
    let k = lemma_planes_find(voxels, vis, axis, 64, i);
    let j = i - planes_quads(voxels, vis, axis, k).len();
    let rect = plane_rects(plane_of(voxels, vis, axis, k), axis)[j];
    lemma_plane_tiles(voxels, vis, axis, k);
    assert(well_shaped(rect));
    match axis {
        Axis::X => lemma_quad_fields(
            k as u32,
            rect.a as u32,
            rect.b as u32,
            rect.nb as u32,
            rect.na as u32,
            rect.id as u32,
        ),
        Axis::Y => lemma_quad_fields(
            rect.a as u32,
            k as u32,
            rect.b as u32,
            rect.na as u32,
            rect.nb as u32,
            rect.id as u32,
        ),
        Axis::Z => lemma_quad_fields(
            rect.a as u32,
            rect.b as u32,
            k as u32,
            rect.na as u32,
            rect.nb as u32,
            rect.id as u32,
        ),
    }
    let (x, y, z) = (
        cell_x(axis, k, rect.a, rect.b),
        cell_y(axis, k, rect.a, rect.b),
        cell_z(axis, k, rect.a, rect.b),
    );
    lemma_quad_of_covers(axis, k, rect, x, y, z);
    assert(rect.covers(rect.a, rect.b));
    law_covered_is_seen(voxels, vis, axis, i, x, y, z);
}

/// No two quads of a list cover the same face: if the quads at the places
/// `i` and `j` both cover the voxel at `(x, y, z)`, they are the same quad.
pub proof fn law_quads_apart(
    voxels: Seq<u16>,
    vis: spec_fn(int, int, int) -> bool,
    axis: Axis,
    i: int,
    j: int,
    x: int,
    y: int,
    z: int,
)
    requires
        within_shell(vis),
        0 <= i < face_quads(voxels, vis, axis).len(),
        0 <= j < face_quads(voxels, vis, axis).len(),
        quad_covers(axis, face_quads(voxels, vis, axis)[i], x, y, z),
        quad_covers(axis, face_quads(voxels, vis, axis)[j], x, y, z),
    ensures
        i == j,
{
    let ki = lemma_planes_find(voxels, vis, axis, 64, i);
    let kj = lemma_planes_find(voxels, vis, axis, 64, j);
    let ii = i - planes_quads(voxels, vis, axis, ki).len();
    let jj = j - planes_quads(voxels, vis, axis, kj).len();
    lemma_plane_tiles(voxels, vis, axis, ki);
    lemma_plane_tiles(voxels, vis, axis, kj);
    let pi = plane_of(voxels, vis, axis, ki);
    let pj = plane_of(voxels, vis, axis, kj);
    assert(well_shaped(plane_rects(pi, axis)[ii]));
    assert(well_shaped(plane_rects(pj, axis)[jj]));
    lemma_quad_of_covers(axis, ki, plane_rects(pi, axis)[ii], x, y, z);
    lemma_quad_of_covers(axis, kj, plane_rects(pj, axis)[jj], x, y, z);
    assert(ki == kj);
    let (c, r) = (col(axis, x, y, z), row(axis, x, y, z));
    assert(plane_rects(pi, axis)[ii].covers(c, r));
    assert(plane_rects(pi, axis)[jj].covers(c, r));
}

/// Every visible face is covered: if the face of the voxel at `(x, y, z)`
/// is visible, some quad of the list covers it.
pub proof fn law_seen_is_covered(
    voxels: Seq<u16>,
    vis: spec_fn(int, int, int) -> bool,
    axis: Axis,
    x: int,
    y: int,
    z: int,
) -> (i: int)
    requires
        within_shell(vis),
        vis(x, y, z),
    ensures
        0 <= i < face_quads(voxels, vis, axis).len(),
        quad_covers(axis, face_quads(voxels, vis, axis)[i], x, y, z),
{
    let k = along(axis, x, y, z);
    let (c, r) = (col(axis, x, y, z), row(axis, x, y, z));
    let p = plane_of(voxels, vis, axis, k);
    let rects = plane_rects(p, axis);
    lemma_plane_tiles(voxels, vis, axis, k);
    assert(cell_x(axis, k, c, r) == x && cell_y(axis, k, c, r) == y && cell_z(axis, k, c, r) == z);
    assert(p.seen(c, r));
    let j = choose|j: int| 0 <= j < rects.len() && #[trigger] rects[j].covers(c, r);
    assert(well_shaped(rects[j]));
    lemma_quad_of_covers(axis, k, rects[j], x, y, z);
    lemma_planes_grow(voxels, vis, axis, k + 1, 64);
    let start = planes_quads(voxels, vis, axis, k).len() as int;
    let upto = planes_quads(voxels, vis, axis, k + 1);
    assert(upto =~= planes_quads(voxels, vis, axis, k) + plane_quads(voxels, vis, axis, k));
    assert(face_quads(voxels, vis, axis).subrange(0, upto.len() as int)[start + j]
        == face_quads(voxels, vis, axis)[start + j]);
    start + j
}

/// A voxel shows a face exactly if a quad of the list of that direction
/// covers it, and then no second quad does.
pub proof fn law_exposed_iff_covered(
    voxels: Seq<u16>,
    transparents: Set<u16>,
    face: Face,
    x: int,
    y: int,
    z: int,
)
    ensures
        face_visible(voxels, transparents, face, x, y, z) <==> exists|i: int|
            0 <= i < mesh_list(voxels, transparents, face).len() && quad_covers(
                face.axis(),
                #[trigger] mesh_list(voxels, transparents, face)[i],
                x,
                y,
                z,
            ),
        forall|i: int, j: int|
            #![trigger
                mesh_list(voxels, transparents, face)[i],
                mesh_list(voxels, transparents, face)[j],
            ]
            0 <= i < mesh_list(voxels, transparents, face).len() && 0 <= j < mesh_list(
                voxels,
                transparents,
                face,
            ).len() && quad_covers(face.axis(), mesh_list(voxels, transparents, face)[i], x, y, z)
                && quad_covers(face.axis(), mesh_list(voxels, transparents, face)[j], x, y, z)
                ==> i == j,
{
    let vis = seen_faces(voxels, transparents, face);
    let axis = face.axis();
    let list = mesh_list(voxels, transparents, face);
    if vis(x, y, z) {
        let i = law_seen_is_covered(voxels, vis, axis, x, y, z);
        assert(quad_covers(axis, list[i], x, y, z));
    }
    assert forall|i: int| 0 <= i < list.len() && quad_covers(axis, #[trigger] list[i], x, y, z)
        implies vis(x, y, z) by {
        law_covered_is_seen(voxels, vis, axis, i, x, y, z);
    }
    assert forall|i: int, j: int|
        #![trigger list[i], list[j]]
        0 <= i < list.len() && 0 <= j < list.len() && quad_covers(axis, list[i], x, y, z)
            && quad_covers(axis, list[j], x, y, z) implies i == j by {
        law_quads_apart(voxels, vis, axis, i, j, x, y, z);
    }
}

} // verus!
