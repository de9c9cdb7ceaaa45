//! What a mesh is: which faces of a chunk are visible, and the lists of
//! rectangles that the greedy merge makes of them.

use crate::bits::{bit, dilated};
use crate::face::{Axis, Face};
use crate::layout::{in_chunk, index_2d, interior, voxel_at};
use crate::masks::{is_opaque, is_transparent, marks_opaque, marks_transparent};
use crate::plane::{
    bar_rows, lemma_bar_blank, lemma_slab_blank, slab_at, slab_rows, Plane, Rect,
};
use crate::quad::{lemma_quad_fields, Quad};
use vstd::prelude::*;

verus! {

/// A solid voxel shows a face towards a neighbour that is empty, or that is
/// transparent and of another material.
pub open spec fn exposed(voxel: u16, adj: u16, transparents: Set<u16>) -> bool {
    voxel != 0 && (adj == 0 || (voxel != adj && transparents.contains(adj)))
}

/// The face `face` of the voxel at `(x, y, z)` is visible: the voxel lies
/// inside the shell and is exposed to its neighbour across that face.
pub open spec fn face_visible(
    voxels: Seq<u16>,
    transparents: Set<u16>,
    face: Face,
    x: int,
    y: int,
    z: int,
) -> bool {
    interior(x) && interior(y) && interior(z) && exposed(
        voxel_at(voxels, x, y, z),
        voxel_at(voxels, x + face.dx(), y + face.dy(), z + face.dz()),
        transparents,
    )
}

/// The same question answered from the two column masks: the neighbour is
/// not marked opaque, and the voxel is marked opaque, or is marked
/// transparent and differs from its neighbour.
pub open spec fn mask_visible(
    voxels: Seq<u16>,
    opaque: Seq<u64>,
    transparent: Seq<u64>,
    face: Face,
    x: int,
    y: int,
    z: int,
) -> bool {
    interior(x) && interior(y) && interior(z) && !bit(
        opaque[index_2d(y + face.dy(), z + face.dz())],
        x + face.dx(),
    ) && (bit(opaque[index_2d(y, z)], x) || (bit(transparent[index_2d(y, z)], x) && voxel_at(
        voxels,
        x,
        y,
        z,
    ) != voxel_at(voxels, x + face.dx(), y + face.dy(), z + face.dz())))
}

/// The visible faces in direction `face`, from the voxels and the set of
/// transparent materials.
pub open spec fn seen_faces(voxels: Seq<u16>, transparents: Set<u16>, face: Face) -> spec_fn(
    int,
    int,
    int,
) -> bool {
    |x: int, y: int, z: int| face_visible(voxels, transparents, face, x, y, z)
}

/// The visible faces in direction `face`, from the voxels and the two masks.
pub open spec fn mask_faces(
    voxels: Seq<u16>,
    opaque: Seq<u64>,
    transparent: Seq<u64>,
    face: Face,
) -> spec_fn(int, int, int) -> bool {
    |x: int, y: int, z: int| mask_visible(voxels, opaque, transparent, face, x, y, z)
}

/// Masks that mark what they should answer as the voxels do.
pub proof fn lemma_mask_faces(
    voxels: Seq<u16>,
    transparents: Set<u16>,
    opaque: Seq<u64>,
    transparent: Seq<u64>,
    face: Face,
)
    requires
        marks_opaque(opaque, voxels, transparents),
        marks_transparent(transparent, voxels, transparents),
    ensures
        mask_faces(voxels, opaque, transparent, face) == seen_faces(voxels, transparents, face),
{
    assert forall|x: int, y: int, z: int|
        mask_visible(voxels, opaque, transparent, face, x, y, z) == face_visible(
            voxels,
            transparents,
            face,
            x,
            y,
            z,
        ) by {
        if interior(x) && interior(y) && interior(z) {
            let (ax, ay, az) = (x + face.dx(), y + face.dy(), z + face.dz());
            assert(in_chunk(ax) && in_chunk(ay) && in_chunk(az));
            assert(bit(opaque[index_2d(ay, az)], ax) == is_opaque(
                voxel_at(voxels, ax, ay, az),
                transparents,
            ));
            assert(bit(opaque[index_2d(y, z)], x) == is_opaque(
                voxel_at(voxels, x, y, z),
                transparents,
            ));
            assert(bit(transparent[index_2d(y, z)], x) == is_transparent(
                voxel_at(voxels, x, y, z),
                transparents,
            ));
        }
    }
    assert(mask_faces(voxels, opaque, transparent, face) =~= seen_faces(
        voxels,
        transparents,
        face,
    ));
}

/// The coordinate of `(x, y, z)` along `axis`: the plane the voxel lies in.
pub open spec fn along(axis: Axis, x: int, y: int, z: int) -> int {
    match axis {
        Axis::X => x,
        Axis::Y => y,
        Axis::Z => z,
    }
}

/// The word of the planes across `axis` among three words for x, y and z.
pub open spec fn axis_word(axis: Axis, xs: u64, ys: u64, zs: u64) -> u64 {
    match axis {
        Axis::X => xs,
        Axis::Y => ys,
        Axis::Z => zs,
    }
}

/// The column of the plane of `(x, y, z)` across `axis`.
///
/// Planes across x are walked by `(y, z)`, planes across y by `(x, z)`,
/// planes across z by `(x, y)`.
pub open spec fn col(axis: Axis, x: int, y: int, z: int) -> int {
    match axis {
        Axis::X => y,
        Axis::Y => x,
        Axis::Z => x,
    }
}

/// The row of the plane of `(x, y, z)` across `axis`.
pub open spec fn row(axis: Axis, x: int, y: int, z: int) -> int {
    match axis {
        Axis::X => z,
        Axis::Y => z,
        Axis::Z => y,
    }
}

/// The x coordinate of cell `(a, b)` of plane `k` across `axis`.
pub open spec fn cell_x(axis: Axis, k: int, a: int, b: int) -> int {
    match axis {
        Axis::X => k,
        Axis::Y => a,
        Axis::Z => a,
    }
}

/// The y coordinate of cell `(a, b)` of plane `k` across `axis`.
pub open spec fn cell_y(axis: Axis, k: int, a: int, b: int) -> int {
    match axis {
        Axis::X => a,
        Axis::Y => k,
        Axis::Z => b,
    }
}

/// The z coordinate of cell `(a, b)` of plane `k` across `axis`.
pub open spec fn cell_z(axis: Axis, k: int, a: int, b: int) -> int {
    match axis {
        Axis::X => b,
        Axis::Y => b,
        Axis::Z => k,
    }
}

/// Plane `k` across `axis`, of the faces `vis` of the chunk `voxels`.
///
/// Outside the chunk no cell is seen and every cell is empty.
pub open spec fn plane_of(
    voxels: Seq<u16>,
    vis: spec_fn(int, int, int) -> bool,
    axis: Axis,
    k: int,
) -> Plane {
    Plane {
        vis: |a: int, b: int|
            in_chunk(a) && in_chunk(b) && vis(
                cell_x(axis, k, a, b),
                cell_y(axis, k, a, b),
                cell_z(axis, k, a, b),
            ),
        id: |a: int, b: int|
            if in_chunk(a) && in_chunk(b) {
                voxel_at(
                    voxels,
                    cell_x(axis, k, a, b),
                    cell_y(axis, k, a, b),
                    cell_z(axis, k, a, b),
                )
            } else {
                0u16
            },
    }
}

/// Only faces of voxels inside the shell are visible.
pub open spec fn within_shell(vis: spec_fn(int, int, int) -> bool) -> bool {
    forall|x: int, y: int, z: int| #[trigger]
        vis(x, y, z) ==> interior(x) && interior(y) && interior(z)
}

/// The rectangle `r` of plane `k` across `axis`, packed.
///
/// Across x its width runs along z and its height along y; across y the
/// width runs along x and the height along z; across z the width runs along
/// x and the height along y.
pub open spec fn quad_of(axis: Axis, k: int, r: Rect) -> Quad {
    match axis {
        Axis::X => Quad::spec_new(
            k as u32,
            r.a as u32,
            r.b as u32,
            r.nb as u32,
            r.na as u32,
            r.id as u32,
        ),
        Axis::Y => Quad::spec_new(
            r.a as u32,
            k as u32,
            r.b as u32,
            r.na as u32,
            r.nb as u32,
            r.id as u32,
        ),
        Axis::Z => Quad::spec_new(
            r.a as u32,
            r.b as u32,
            k as u32,
            r.na as u32,
            r.nb as u32,
            r.id as u32,
        ),
    }
}

/// The rectangles `rects` of plane `k` across `axis`, packed one by one.
pub open spec fn quads_of(axis: Axis, k: int, rects: Seq<Rect>) -> Seq<Quad> {
    Seq::new(rects.len(), |i: int| quad_of(axis, k, rects[i]))
}

/// The rectangles of a plane: planes across x are merged in slabs, the
/// others in bars.
pub open spec fn plane_rects(p: Plane, axis: Axis) -> Seq<Rect> {
    if axis == Axis::X {
        slab_rows(p, 63).out
    } else {
        bar_rows(p, 63).out
    }
}

/// The quads of plane `k` across `axis`.
pub open spec fn plane_quads(
    voxels: Seq<u16>,
    vis: spec_fn(int, int, int) -> bool,
    axis: Axis,
    k: int,
) -> Seq<Quad> {
    quads_of(axis, k, plane_rects(plane_of(voxels, vis, axis, k), axis))
}

/// The coordinate of a quad along `axis`: the plane it lies in.
pub open spec fn quad_plane(axis: Axis, q: Quad) -> int {
    match axis {
        Axis::X => q.spec_x() as int,
        Axis::Y => q.spec_y() as int,
        Axis::Z => q.spec_z() as int,
    }
}

/// The quads of the planes `0..n` across `axis`, plane after plane.
pub open spec fn planes_quads(
    voxels: Seq<u16>,
    vis: spec_fn(int, int, int) -> bool,
    axis: Axis,
    n: int,
) -> Seq<Quad>
    decreases n,
{
    if n <= 0 {
        Seq::empty()
    } else {
        planes_quads(voxels, vis, axis, n - 1) + plane_quads(voxels, vis, axis, n - 1)
    }
}

/// The list of quads of one face direction: all 64 planes in order.
pub open spec fn face_quads(
    voxels: Seq<u16>,
    vis: spec_fn(int, int, int) -> bool,
    axis: Axis,
) -> Seq<Quad> {
    planes_quads(voxels, vis, axis, 64)
}

/// The list of direction `face` of the mesh of a chunk: the quads of the
/// faces that are visible in that direction.
pub open spec fn mesh_list(voxels: Seq<u16>, transparents: Set<u16>, face: Face) -> Seq<Quad> {
    face_quads(voxels, seen_faces(voxels, transparents, face), face.axis())
}

/// The list of direction `face` of the mesh of a chunk, with the visible
/// faces read from the two column masks.
pub open spec fn mask_mesh_list(
    voxels: Seq<u16>,
    opaque: Seq<u64>,
    transparent: Seq<u64>,
    face: Face,
) -> Seq<Quad> {
    face_quads(voxels, mask_faces(voxels, opaque, transparent, face), face.axis())
}

/// Packing one more rectangle appends one more quad.
pub proof fn lemma_quads_of_push(axis: Axis, k: int, rects: Seq<Rect>, r: Rect)
    ensures
        quads_of(axis, k, rects.push(r)) == quads_of(axis, k, rects).push(quad_of(axis, k, r)),
{
    assert(quads_of(axis, k, rects.push(r)) =~= quads_of(axis, k, rects).push(quad_of(axis, k, r)));
}

/// Every quad of plane `k` lies in plane `k`.
pub proof fn lemma_quad_of_plane(axis: Axis, k: int, r: Rect)
    requires
        0 <= k < 64,
    ensures
        quad_plane(axis, quad_of(axis, k, r)) == k,
{
    match axis {
        Axis::X => lemma_quad_fields(
            k as u32,
            r.a as u32,
            r.b as u32,
            r.nb as u32,
            r.na as u32,
            r.id as u32,
        ),
        Axis::Y => lemma_quad_fields(
            r.a as u32,
            k as u32,
            r.b as u32,
            r.na as u32,
            r.nb as u32,
            r.id as u32,
        ),
        Axis::Z => lemma_quad_fields(
            r.a as u32,
            r.b as u32,
            k as u32,
            r.na as u32,
            r.nb as u32,
            r.id as u32,
        ),
    }
}

/// A plane of faces inside the shell is a plane inside the shell, and the
/// two outermost planes are blank.
pub proof fn lemma_plane_inside(
    voxels: Seq<u16>,
    vis: spec_fn(int, int, int) -> bool,
    axis: Axis,
    k: int,
)
    requires
        within_shell(vis),
    ensures
        plane_of(voxels, vis, axis, k).inside(),
        !interior(k) ==> plane_of(voxels, vis, axis, k).blank(),
{
    let p = plane_of(voxels, vis, axis, k);
    assert forall|a: int, b: int| #[trigger] p.seen(a, b) implies 1 <= a < 63 && 1 <= b < 63
        && interior(k) by {
        assert(vis(cell_x(axis, k, a, b), cell_y(axis, k, a, b), cell_z(axis, k, a, b)));
    }
}

/// A plane on which nothing is seen has no quads.
pub proof fn lemma_plane_blank(
    voxels: Seq<u16>,
    vis: spec_fn(int, int, int) -> bool,
    axis: Axis,
    k: int,
)
    requires
        plane_of(voxels, vis, axis, k).blank(),
    ensures
        plane_quads(voxels, vis, axis, k) == Seq::<Quad>::empty(),
{
    let p = plane_of(voxels, vis, axis, k);
    lemma_bar_blank(p, 63);
    lemma_slab_blank(p, 63, 1);
    assert(slab_at(p, 63, 1) == slab_rows(p, 63));
    assert(plane_quads(voxels, vis, axis, k) =~= Seq::<Quad>::empty());
}

/// The quads of a plane depend on the faces and the voxels of that plane
/// alone.
pub proof fn lemma_plane_local(
    voxels: Seq<u16>,
    vis: spec_fn(int, int, int) -> bool,
    voxels2: Seq<u16>,
    vis2: spec_fn(int, int, int) -> bool,
    axis: Axis,
    k: int,
)
    requires
        forall|x: int, y: int, z: int|
            in_chunk(x) && in_chunk(y) && in_chunk(z) && along(axis, x, y, z) == k ==> vis(x, y, z)
                == vis2(x, y, z),
        forall|x: int, y: int, z: int|
            in_chunk(x) && in_chunk(y) && in_chunk(z) && along(axis, x, y, z) == k ==> voxel_at(
                voxels,
                x,
                y,
                z,
            ) == voxel_at(voxels2, x, y, z),
        in_chunk(k),
    ensures
        plane_of(voxels, vis, axis, k) == plane_of(voxels2, vis2, axis, k),
        plane_quads(voxels, vis, axis, k) == plane_quads(voxels2, vis2, axis, k),
{
    let p = plane_of(voxels, vis, axis, k);
    let q = plane_of(voxels2, vis2, axis, k);
    assert forall|a: int, b: int| #[trigger] (p.vis)(a, b) == (q.vis)(a, b) by {
        assert(along(axis, cell_x(axis, k, a, b), cell_y(axis, k, a, b), cell_z(axis, k, a, b))
            == k);
    }
    assert forall|a: int, b: int| #[trigger] (p.id)(a, b) == (q.id)(a, b) by {
        assert(along(axis, cell_x(axis, k, a, b), cell_y(axis, k, a, b), cell_z(axis, k, a, b))
            == k);
    }
    assert(p.vis =~= q.vis);
    assert(p.id =~= q.id);
}

/// The first place from `i` on in `list` whose quad lies in plane `k` or in
/// a later one; the length of the list if there is none.
pub open spec fn reach(list: Seq<Quad>, axis: Axis, k: int, i: int) -> int
    decreases list.len() - i,
{
    if 0 <= i < list.len() && quad_plane(axis, list[i]) < k {
        reach(list, axis, k, i + 1)
    } else {
        i
    }
}

/// The quads that a list holds for plane `k`: what stands between the first
/// quad of plane `k` or later and the first quad of a plane after `k`.
pub open spec fn kept(list: Seq<Quad>, axis: Axis, k: int) -> Seq<Quad> {
    list.subrange(reach(list, axis, k, 0), reach(list, axis, k + 1, 0))
}

/// The list `old` with the quads of every plane below `n` that `ks` marks
/// replaced by the quads that the faces `vis` of `voxels` give that plane.
pub open spec fn spliced(
    old: Seq<Quad>,
    voxels: Seq<u16>,
    vis: spec_fn(int, int, int) -> bool,
    axis: Axis,
    ks: u64,
    n: int,
) -> Seq<Quad>
    decreases n,
{
    if n <= 0 {
        Seq::empty()
    } else {
        spliced(old, voxels, vis, axis, ks, n - 1) + (if bit(ks, n - 1) {
            plane_quads(voxels, vis, axis, n - 1)
        } else {
            kept(old, axis, n - 1)
        })
    }
}

/// The list `old` made anew near the planes that `changed` marks: the quads
/// of those planes and of the planes next to them are replaced by the quads
/// that the faces `vis` of `voxels` give them.
pub open spec fn remeshed(
    old: Seq<Quad>,
    voxels: Seq<u16>,
    vis: spec_fn(int, int, int) -> bool,
    axis: Axis,
    changed: u64,
) -> Seq<Quad> {
    spliced(old, voxels, vis, axis, dilated(changed), 64)
}

/// Where a search for plane `k` ends: not before its start, within the
/// list, past quads of earlier planes only, and not on one.
pub proof fn lemma_reach(list: Seq<Quad>, axis: Axis, k: int, i: int)
    requires
        0 <= i <= list.len(),
    ensures
        i <= reach(list, axis, k, i) <= list.len(),
        forall|m: int|
            i <= m < reach(list, axis, k, i) ==> quad_plane(axis, #[trigger] list[m]) < k,
        reach(list, axis, k, i) < list.len() ==> quad_plane(
            axis,
            list[reach(list, axis, k, i)],
        ) >= k,
    decreases list.len() - i,
{
    if i < list.len() && quad_plane(axis, list[i]) < k {
        lemma_reach(list, axis, k, i + 1);
    }
}

/// A search may start anywhere behind quads of earlier planes.
pub proof fn lemma_reach_from(list: Seq<Quad>, axis: Axis, k: int, i: int, j: int)
    requires
        0 <= i <= j <= list.len(),
        forall|m: int| i <= m < j ==> quad_plane(axis, #[trigger] list[m]) < k,
    ensures
        reach(list, axis, k, i) == reach(list, axis, k, j),
    decreases j - i,
{
    if i < j {
        lemma_reach_from(list, axis, k, i + 1, j);
    }
}

/// The search for a later plane goes on where the search for an earlier one ended.
pub proof fn lemma_reach_next(list: Seq<Quad>, axis: Axis, k: int)
    ensures
        reach(list, axis, k + 1, 0) == reach(list, axis, k + 1, reach(list, axis, k, 0)),
        0 <= reach(list, axis, k, 0) <= reach(list, axis, k + 1, 0) <= list.len(),
{
    lemma_reach(list, axis, k, 0);
    lemma_reach_from(list, axis, k + 1, 0, reach(list, axis, k, 0));
    lemma_reach(list, axis, k + 1, reach(list, axis, k, 0));
}

} // verus!
