//! The second stage: the greedy merge of the visible faces into quads.

use crate::bits::{
    among, bit, bit_positions, lemma_among_all, lemma_bit_consts, lemma_bit_ops, lists_bits,
    lowest_bit, test_bit, without_below, without_lowest,
};
use crate::face::Axis;
use crate::layout::{
    in_chunk, index_2d, index_3d, linearize_2d, linearize_2d_to_3d, linearize_3d, CUBE, LEN,
    SQUARE,
};
use crate::model::{
    along, cell_y, cell_z, lemma_plane_blank, lemma_plane_inside, lemma_plane_local,
    lemma_quads_of_push, plane_of, plane_quads, quad_of, quads_of, within_shell,
};
use crate::plane::{
    bar_defers, bar_end, bar_inv, bar_joins, bar_rect, bar_rows, bar_scan, bar_step, lemma_bar_end,
    lemma_bar_rests, lemma_bar_rows, lemma_bar_skip, lemma_bar_skip_inv, lemma_bar_step,
    lemma_slab_at, lemma_slab_rests, slab_at, slab_cell, slab_climbs, slab_defers, slab_inv,
    slab_rect, slab_rows, Bars, Plane, Slabs,
};
use crate::quad::Quad;
use vstd::prelude::*;

verus! {

/// The words `vis` show the faces `seen` on every plane across `axis` that
/// `ks` marks.
pub open spec fn shows_planes(
    vis: Seq<u64>,
    seen: spec_fn(int, int, int) -> bool,
    axis: Axis,
    ks: u64,
) -> bool {
    forall|x: int, y: int, z: int|
        in_chunk(x) && in_chunk(y) && in_chunk(z) && bit(ks, along(axis, x, y, z))
            ==> #[trigger] bit(vis[index_2d(y, z)], x) == seen(x, y, z)
}

/// One row of a bar merge: the cells of the word `visible`, lowest first.
///
/// `ahead` is the word of the next row, `counters[base..base + 64]` count
/// the cells put off per column, `corner` is the place of the first voxel of
/// the row and `stride` the distance to the next row among the voxels.
pub(crate) fn merge_row<const N: usize>(
    voxels: &[u16; CUBE],
    visible: u64,
    ahead: u64,
    counters: &mut [u8; N],
    base: usize,
    corner: usize,
    stride: usize,
    axis: Axis,
    k: usize,
    b: usize,
    output: &mut Vec<Quad>,
    Ghost(p): Ghost<Plane>,
    Ghost(st): Ghost<Bars>,
    Ghost(pre): Ghost<Seq<Quad>>,
)
    requires
        axis != Axis::X,
        k < 64,
        1 <= b < 63,
        base + 64 <= N,
        corner + stride + 64 <= CUBE,
        p.inside(),
        bar_inv(p, b as int, 0, st),
        forall|a: int| 0 <= a < 64 ==> #[trigger] bit(visible, a) == p.seen(a, b as int),
        forall|a: int| 0 <= a < 64 ==> #[trigger] bit(ahead, a) == p.seen(a, b + 1),
        forall|a: int| 0 <= a < 64 ==> voxels@[corner + a] == #[trigger] p.mat(a, b as int),
        forall|a: int| 0 <= a < 64 ==> voxels@[corner + stride + a] == #[trigger] p.mat(a, b + 1),
        forall|i: int| base <= i < base + 64 ==> #[trigger] old(counters)@[i] == st.run[i - base],
        old(output)@ == pre + quads_of(axis, k as int, st.out),
    ensures
        forall|i: int|
            base <= i < base + 64 ==> #[trigger] final(counters)@[i] == bar_scan(
                p,
                b as int,
                0,
                st,
            ).run[i - base],
        forall|i: int|
            0 <= i < N && !(base <= i < base + 64) ==> #[trigger] final(counters)@[i] == old(
                counters,
            )@[i],
        final(output)@ == pre + quads_of(axis, k as int, bar_scan(p, b as int, 0, st).out),
{
    let mut rest: u64 = visible;
    let ghost mut cur: Bars = st;
    let ghost mut at: int = 0;
    while rest != 0
        invariant
            axis != Axis::X,
            k < 64,
            1 <= b < 63,
            base + 64 <= N,
            corner + stride + 64 <= CUBE,
            p.inside(),
            forall|a: int| 0 <= a < 64 ==> #[trigger] bit(ahead, a) == p.seen(a, b + 1),
            forall|a: int| 0 <= a < 64 ==> voxels@[corner + a] == #[trigger] p.mat(a, b as int),
            forall|a: int|
                0 <= a < 64 ==> voxels@[corner + stride + a] == #[trigger] p.mat(a, b + 1),
            0 <= at <= 64,
            bar_inv(p, b as int, at, cur),
            bar_scan(p, b as int, 0, st) == bar_scan(p, b as int, at, cur),
            forall|a: int|
                #![trigger bit(rest, a)]
                #![trigger p.seen(a, b as int)]
                0 <= a < 64 ==> bit(rest, a) == (a >= at && p.seen(a, b as int)),
            forall|i: int| base <= i < base + 64 ==> #[trigger] counters@[i] == cur.run[i - base],
            forall|i: int|
                0 <= i < N && !(base <= i < base + 64) ==> #[trigger] counters@[i] == old(
                    counters,
                )@[i],
            output@ == pre + quads_of(axis, k as int, cur.out),
        decreases 64 - at,
    {
        let x: usize = lowest_bit(rest);
        let ghost was: Bars = cur;
        proof {
            lemma_bar_skip(p, b as int, at, x as int, cur);
            lemma_bar_skip_inv(p, b as int, at, x as int, cur);
            lemma_bar_step(p, b as int, x as int, cur);
            lemma_bar_end(p, cur.run, b as int, x as int, x + 1);
            assert(p.seen(x as int, b as int));
            assert(cur.run[x as int] < b);
        }
        let i_3d: usize = corner + x;
        let voxel: u16 = voxels[i_3d];
        assert(voxel == p.mat(x as int, b as int));
        assert(voxels@[corner + stride + x] == p.mat(x as int, b + 1));
        if test_bit(ahead, x) && voxel == voxels[i_3d + stride] {
            assert(bar_defers(p, x as int, b as int));
            counters[base + x] = counters[base + x] + 1;
            rest = without_lowest(rest);
            proof {
                cur = bar_step(p, b as int, x as int, was);
                at = x + 1;
            }
        } else {
            assert(!bar_defers(p, x as int, b as int));
            let mut next_x: usize = x + 1;
            while next_x < 63 && test_bit(rest, next_x) && counters[base + x] == counters[base
                + next_x] && voxel == voxels[corner + next_x]
                invariant
                    base + 64 <= N,
                    corner + stride + 64 <= CUBE,
                    1 <= b < 63,
                    x < next_x <= 63 || next_x == x + 1,
                    x < 64,
                    next_x <= 64,
                    was.run.len() == 64,
                    at <= x,
                    voxel == p.mat(x as int, b as int),
                    forall|a: int|
                        0 <= a < 64 ==> voxels@[corner + a] == #[trigger] p.mat(a, b as int),
                    forall|a: int|
                        #![trigger bit(rest, a)]
                        #![trigger p.seen(a, b as int)]
                        0 <= a < 64 ==> bit(rest, a) == (a >= at && p.seen(a, b as int)),
                    bar_end(p, was.run, b as int, x as int, x + 1) == bar_end(
                        p,
                        was.run,
                        b as int,
                        x as int,
                        next_x as int,
                    ),
                    forall|i: int|
                        base <= i < base + 64 ==> #[trigger] counters@[i] == (if x < i - base
                            < next_x {
                            0
                        } else {
                            was.run[i - base]
                        }),
                    forall|i: int|
                        0 <= i < N && !(base <= i < base + 64) ==> #[trigger] counters@[i] == old(
                            counters,
                        )@[i],
                decreases 64 - next_x,
            {
                assert(p.mat(next_x as int, b as int) == voxels@[corner + next_x]);
                assert(bar_joins(p, was.run, b as int, x as int, next_x as int));
                counters[base + next_x] = 0;
                next_x = next_x + 1;
            }
            proof {
                if next_x < 63 {
                    assert(p.mat(next_x as int, b as int) == voxels@[corner + next_x]);
                    assert(bit(rest, next_x as int) == p.seen(next_x as int, b as int));
                }
                assert(!bar_joins(p, was.run, b as int, x as int, next_x as int));
                assert(next_x == bar_end(p, was.run, b as int, x as int, x + 1));
            }
            let right_merged: usize = next_x - x;
            rest = without_below(rest, next_x);
            let run: u32 = counters[base + x] as u32;
            let quad: Quad = match axis {
                Axis::Y => Quad::new(
                    x as u32,
                    k as u32,
                    b as u32 - run,
                    right_merged as u32,
                    run + 1,
                    voxel as u32,
                ),
                _ => Quad::new(
                    x as u32,
                    b as u32 - run,
                    k as u32,
                    right_merged as u32,
                    run + 1,
                    voxel as u32,
                ),
            };
            output.push(quad);
            counters[base + x] = 0;
            proof {
                let rect = bar_rect(p, was.run, b as int, x as int, next_x as int);
                assert(quad == quad_of(axis, k as int, rect));
                lemma_quads_of_push(axis, k as int, was.out, rect);
                cur = bar_step(p, b as int, x as int, was);
                at = next_x as int;
                assert(output@ =~= pre + quads_of(axis, k as int, cur.out));
            }
        }
    }
    proof {
        lemma_bit_consts();
        lemma_bar_skip(p, b as int, at, 64, cur);
    }
}

/// The bar merge of plane `k` across `axis`: its rows in order, each by
/// [`merge_row`]. The quads of the plane are appended to `output`.
pub(crate) fn merge_plane<const N: usize>(
    voxels: &[u16; CUBE],
    vis: &[u64; SQUARE],
    counters: &mut [u8; N],
    base: usize,
    axis: Axis,
    k: usize,
    output: &mut Vec<Quad>,
    Ghost(seen): Ghost<spec_fn(int, int, int) -> bool>,
)
    requires
        axis != Axis::X,
        1 <= k < 63,
        base + 64 <= N,
        within_shell(seen),
        forall|x: int, y: int, z: int|
            in_chunk(x) && in_chunk(y) && in_chunk(z) && along(axis, x, y, z) == k
                ==> #[trigger] bit(vis@[index_2d(y, z)], x) == seen(x, y, z),
        forall|i: int| base <= i < base + 64 ==> #[trigger] old(counters)@[i] == 0,
    ensures
        final(output)@ == old(output)@ + plane_quads(voxels@, seen, axis, k as int),
        forall|i: int| 0 <= i < N ==> #[trigger] final(counters)@[i] == old(counters)@[i],
{
    let ghost p: Plane = plane_of(voxels@, seen, axis, k as int);
    let ghost pre: Seq<Quad> = output@;
    proof {
        lemma_plane_inside(voxels@, seen, axis, k as int);
        assert(output@ =~= pre + quads_of(axis, k as int, bar_rows(p, 1).out));
    }
    for b in 1..63
        invariant
            axis != Axis::X,
            1 <= k < 63,
            base + 64 <= N,
            within_shell(seen),
            p == plane_of(voxels@, seen, axis, k as int),
            p.inside(),
            forall|x: int, y: int, z: int|
                in_chunk(x) && in_chunk(y) && in_chunk(z) && along(axis, x, y, z) == k
                    ==> #[trigger] bit(vis@[index_2d(y, z)], x) == seen(x, y, z),
            forall|i: int|
                base <= i < base + 64 ==> #[trigger] counters@[i] == bar_rows(p, b as int).run[i
                    - base],
            forall|i: int|
                0 <= i < N && !(base <= i < base + 64) ==> #[trigger] counters@[i] == old(
                    counters,
                )@[i],
            output@ == pre + quads_of(axis, k as int, bar_rows(p, b as int).out),
    {
        let i_2d: usize = match axis {
            Axis::Y => linearize_2d(k, b),
            _ => linearize_2d(b, k),
        };
        let step: usize = match axis {
            Axis::Y => 64,
            _ => 1,
        };
        let visible: u64 = vis[i_2d];
        let ahead: u64 = vis[i_2d + step];
        let corner: usize = linearize_2d_to_3d(0, i_2d);
        let stride: usize = step * 64;
        proof {
            lemma_bar_rows(p, b as int);
            let (y0, z0) = (
                cell_y(axis, k as int, 0, b as int),
                cell_z(axis, k as int, 0, b as int),
            );
            let (y1, z1) = (
                cell_y(axis, k as int, 0, b + 1),
                cell_z(axis, k as int, 0, b + 1),
            );
            assert(visible == vis@[index_2d(y0, z0)]);
            assert(ahead == vis@[index_2d(y1, z1)]);
            assert forall|a: int| 0 <= a < 64 implies #[trigger] bit(visible, a) == p.seen(
                a,
                b as int,
            ) by {
                assert(bit(vis@[index_2d(y0, z0)], a) == seen(a, y0, z0));
            }
            assert forall|a: int| 0 <= a < 64 implies #[trigger] bit(ahead, a) == p.seen(
                a,
                b + 1,
            ) by {
                assert(bit(vis@[index_2d(y1, z1)], a) == seen(a, y1, z1));
            }
            assert forall|a: int| 0 <= a < 64 implies voxels@[corner + a] == #[trigger] p.mat(
                a,
                b as int,
            ) by {
                assert(corner + a == index_3d(a, y0, z0));
            }
            assert forall|a: int| 0 <= a < 64 implies voxels@[corner + stride + a]
                == #[trigger] p.mat(a, b + 1) by {
                assert(corner + stride + a == index_3d(a, y1, z1));
            }
        }
        merge_row(
            voxels,
            visible,
            ahead,
            counters,
            base,
            corner,
            stride,
            axis,
            k,
            b,
            output,
            Ghost(p),
            Ghost(bar_rows(p, b as int)),
            Ghost(pre),
        );
    }
    proof {
        lemma_bar_rests(p);
    }
}

/// The faces `seen` on the planes across x that `xs` marks, and no others.
pub open spec fn limited(seen: spec_fn(int, int, int) -> bool, xs: u64) -> spec_fn(
    int,
    int,
    int,
) -> bool {
    |x: int, y: int, z: int| bit(xs, x) && seen(x, y, z)
}

/// Plane `k` across x of the faces that `xs` leaves.
pub open spec fn x_plane(
    voxels: Seq<u16>,
    seen: spec_fn(int, int, int) -> bool,
    xs: u64,
    k: int,
) -> Plane {
    plane_of(voxels, limited(seen, xs), Axis::X, k)
}

/// On a plane that `xs` marks, leaving out the other planes changes
/// nothing; a plane that `xs` does not mark is left with no quads.
pub proof fn lemma_limited(
    voxels: Seq<u16>,
    seen: spec_fn(int, int, int) -> bool,
    xs: u64,
    k: int,
)
    ensures
        bit(xs, k) ==> plane_quads(voxels, limited(seen, xs), Axis::X, k) == plane_quads(
            voxels,
            seen,
            Axis::X,
            k,
        ),
        !bit(xs, k) ==> plane_quads(voxels, limited(seen, xs), Axis::X, k) == Seq::<Quad>::empty(),
{
    if bit(xs, k) {
        lemma_plane_local(voxels, limited(seen, xs), voxels, seen, Axis::X, k);
    } else {
        lemma_plane_blank(voxels, limited(seen, xs), Axis::X, k);
    }
}

/// The state of a slab merge before cell `(a, b)`, or after it once it is `done`.
pub open spec fn slab_now(p: Plane, b: int, a: int, done: bool) -> Slabs {
    if done {
        slab_cell(p, a, b, slab_at(p, b, a))
    } else {
        slab_at(p, b, a)
    }
}

/// The buffers hold the state `st` of the slab merge of plane `k`.
pub open spec fn x_tracks(
    forward: Seq<u8>,
    upward: Seq<u8>,
    planes: Seq<Vec<Quad>>,
    k: int,
    st: Slabs,
) -> bool {
    &&& forall|c: int| 0 <= c < 64 ==> #[trigger] forward[index_2d(k, c)] == st.fm[c]
    &&& upward[k] == st.um
    &&& planes[k]@ == quads_of(Axis::X, k, st.out)
}

/// One cell of one slab merge: cell `(y, z)` of plane `x`, which is seen.
fn sweep_cell(
    voxels: &[u16; CUBE],
    forward_visible: u64,
    upward_visible: u64,
    forward: &mut [u8; SQUARE],
    upward: &mut [u8; LEN],
    planes: &mut Vec<Vec<Quad>>,
    x: usize,
    y: usize,
    z: usize,
    Ghost(p): Ghost<Plane>,
    Ghost(st): Ghost<Slabs>,
)
    requires
        x < 64,
        1 <= y < 63,
        1 <= z < 63,
        old(planes)@.len() == 64,
        slab_inv(p, z as int, y as int, st),
        x_tracks(old(forward)@, old(upward)@, old(planes)@, x as int, st),
        p.seen(y as int, z as int),
        bit(forward_visible, x as int) == p.seen(y as int, z + 1),
        bit(upward_visible, x as int) == p.seen(y + 1, z as int),
        voxels@[index_3d(x as int, y as int, z as int)] == p.mat(y as int, z as int),
        voxels@[index_3d(x as int, y as int, z + 1)] == p.mat(y as int, z + 1),
        voxels@[index_3d(x as int, y + 1, z as int)] == p.mat(y + 1, z as int),
    ensures
        final(planes)@.len() == 64,
        x_tracks(
            final(forward)@,
            final(upward)@,
            final(planes)@,
            x as int,
            slab_cell(p, y as int, z as int, st),
        ),
        forall|i: int|
            0 <= i < SQUARE && i != index_2d(x as int, y as int) ==> #[trigger] final(forward)@[i]
                == old(forward)@[i],
        forall|k: int| 0 <= k < 64 && k != x ==> #[trigger] final(upward)@[k] == old(upward)@[k],
        forall|k: int| 0 <= k < 64 && k != x ==> #[trigger] final(planes)@[k] == old(planes)@[k],
{
    let ghost forward0: Seq<u8> = forward@;
    let forward_i: usize = linearize_2d(x, y);
    let i_3d: usize = linearize_3d(x, y, z);
    let voxel: u16 = voxels[i_3d];
    proof {
        assert(st.fm[y as int] < z);
        assert(forward@[index_2d(x as int, y as int)] == st.fm[y as int]);
        assert(forward@[index_2d(x as int, y + 1)] == st.fm[y + 1]);
        assert(i_3d + 4096 == index_3d(x as int, y as int, z + 1));
        assert(i_3d + 64 == index_3d(x as int, y + 1, z as int));
    }
    if upward[x] == 0 && test_bit(forward_visible, x) && voxel == voxels[i_3d + 4096] {
        assert(slab_defers(p, y as int, z as int, st));
        forward[forward_i] = forward[forward_i] + 1;
    } else if test_bit(upward_visible, x) && forward[forward_i] == forward[forward_i + 64]
        && voxel == voxels[i_3d + 64] {
        assert(!slab_defers(p, y as int, z as int, st));
        assert(slab_climbs(p, y as int, z as int, st));
        forward[forward_i] = 0;
        upward[x] = upward[x] + 1;
    } else {
        assert(!slab_defers(p, y as int, z as int, st));
        assert(!slab_climbs(p, y as int, z as int, st));
        let forward_merged: u32 = forward[forward_i] as u32;
        let upward_merged: u32 = upward[x] as u32;
        let quad: Quad = Quad::new(
            x as u32,
            y as u32 - upward_merged,
            z as u32 - forward_merged,
            forward_merged + 1,
            upward_merged + 1,
            voxel as u32,
        );
        planes[x].push(quad);
        forward[forward_i] = 0;
        upward[x] = 0;
        proof {
            let rect = slab_rect(p, y as int, z as int, st);
            assert(quad == quad_of(Axis::X, x as int, rect));
            lemma_quads_of_push(Axis::X, x as int, st.out, rect);
        }
    }
    proof {
        let after: Slabs = slab_cell(p, y as int, z as int, st);
        assert forall|c: int| 0 <= c < 64 implies #[trigger] forward@[index_2d(x as int, c)]
            == after.fm[c] by {
            assert(forward0[index_2d(x as int, c)] == st.fm[c]);
        }
        assert(planes@[x as int]@ =~= quads_of(Axis::X, x as int, after.out));
    }
}

/// The slab merge of all planes across x at once.
///
/// The columns are walked by `(y, z)`; position `x` of a word is cell
/// `(y, z)` of plane `x`, so one pass serves 64 merges that do not touch
/// each other. Each plane emits into its own list of `planes`, which keeps
/// the quads of a plane together and in the order of their emission.
pub(crate) fn sweep_x(
    voxels: &[u16; CUBE],
    vis: &[u64; SQUARE],
    xs: u64,
    forward: &mut [u8; SQUARE],
    upward: &mut [u8; LEN],
    planes: &mut Vec<Vec<Quad>>,
    Ghost(seen): Ghost<spec_fn(int, int, int) -> bool>,
)
    requires
        within_shell(seen),
        shows_planes(vis@, seen, Axis::X, xs),
        forall|i: int| 0 <= i < SQUARE ==> #[trigger] old(forward)@[i] == 0,
        forall|i: int| 0 <= i < LEN ==> #[trigger] old(upward)@[i] == 0,
        old(planes)@.len() == 64,
        forall|k: int| 0 <= k < 64 ==> (#[trigger] old(planes)@[k])@.len() == 0,
    ensures
        forall|i: int| 0 <= i < SQUARE ==> #[trigger] final(forward)@[i] == 0,
        forall|i: int| 0 <= i < LEN ==> #[trigger] final(upward)@[i] == 0,
        final(planes)@.len() == 64,
        forall|k: int|
            0 <= k < 64 ==> (#[trigger] final(planes)@[k])@ == plane_quads(
                voxels@,
                limited(seen, xs),
                Axis::X,
                k,
            ),
{
    let mut list: Vec<usize> = Vec::with_capacity(LEN);
    let ghost mut states: Seq<Slabs> = Seq::new(
        64,
        |k: int| slab_rows(x_plane(voxels@, seen, xs, k), 1),
    );
    proof {
        assert forall|k: int| 0 <= k < 64 implies x_tracks(
            forward@,
            upward@,
            planes@,
            k,
            #[trigger] states[k],
        ) by {
            assert(planes@[k]@ =~= quads_of(Axis::X, k, Seq::empty()));
            assert forall|c: int| 0 <= c < 64 implies #[trigger] forward@[index_2d(k, c)] == 0 by {
            }
        }
    }
    for z in 1..63
        invariant
            within_shell(seen),
            shows_planes(vis@, seen, Axis::X, xs),
            planes@.len() == 64,
            states.len() == 64,
            forall|k: int|
                0 <= k < 64 ==> x_tracks(forward@, upward@, planes@, k, #[trigger] states[k]),
            forall|k: int|
                0 <= k < 64 ==> #[trigger] states[k] == slab_rows(
                    x_plane(voxels@, seen, xs, k),
                    z as int,
                ),
    {
        for y in 1..63
            invariant
                1 <= z < 63,
                within_shell(seen),
                shows_planes(vis@, seen, Axis::X, xs),
                planes@.len() == 64,
                states.len() == 64,
                forall|k: int|
                    0 <= k < 64 ==> x_tracks(forward@, upward@, planes@, k, #[trigger] states[k]),
                forall|k: int|
                    0 <= k < 64 ==> #[trigger] states[k] == slab_at(
                        x_plane(voxels@, seen, xs, k),
                        z as int,
                        y as int,
                    ),
        {
            let i_2d: usize = linearize_2d(y, z);
            let visible: u64 = vis[i_2d] & xs;
            let upward_visible: u64 = vis[i_2d + 1] & xs;
            let forward_visible: u64 = vis[i_2d + 64] & xs;
            bit_positions(visible, &mut list);
            proof {
                lemma_bit_ops(vis@[i_2d as int], xs);
                lemma_bit_ops(vis@[i_2d + 1], xs);
                lemma_bit_ops(vis@[i_2d + 64], xs);
                assert(vis@[i_2d as int] == vis@[index_2d(y as int, z as int)]);
                assert(vis@[i_2d + 1] == vis@[index_2d(y + 1, z as int)]);
                assert(vis@[i_2d + 64] == vis@[index_2d(y as int, z + 1)]);
                assert forall|k: int| 0 <= k < 64 implies #[trigger] bit(visible, k) == x_plane(
                    voxels@,
                    seen,
                    xs,
                    k,
                ).seen(y as int, z as int) by {
                    assert(bit(visible, k) == (bit(vis@[index_2d(y as int, z as int)], k) && bit(
                        xs,
                        k,
                    )));
                }
                assert forall|k: int| 0 <= k < 64 implies #[trigger] bit(upward_visible, k)
                    == x_plane(voxels@, seen, xs, k).seen(y + 1, z as int) by {
                    assert(bit(upward_visible, k) == (bit(vis@[index_2d(y + 1, z as int)], k)
                        && bit(xs, k)));
                }
                assert forall|k: int| 0 <= k < 64 implies #[trigger] bit(forward_visible, k)
                    == x_plane(voxels@, seen, xs, k).seen(y as int, z + 1) by {
                    assert(bit(forward_visible, k) == (bit(vis@[index_2d(y as int, z + 1)], k)
                        && bit(xs, k)));
                }
            }
            for n in 0..list.len()
                invariant
                    1 <= z < 63,
                    1 <= y < 63,
                    i_2d == index_2d(y as int, z as int),
                    within_shell(seen),
                    lists_bits(list@, visible),
                    planes@.len() == 64,
                    states.len() == 64,
                    forall|k: int|
                        0 <= k < 64 ==> #[trigger] bit(visible, k) == x_plane(
                            voxels@,
                            seen,
                            xs,
                            k,
                        ).seen(y as int, z as int),
                    forall|k: int|
                        0 <= k < 64 ==> #[trigger] bit(upward_visible, k) == x_plane(
                            voxels@,
                            seen,
                            xs,
                            k,
                        ).seen(y + 1, z as int),
                    forall|k: int|
                        0 <= k < 64 ==> #[trigger] bit(forward_visible, k) == x_plane(
                            voxels@,
                            seen,
                            xs,
                            k,
                        ).seen(y as int, z + 1),
                    forall|k: int|
                        0 <= k < 64 ==> x_tracks(
                            forward@,
                            upward@,
                            planes@,
                            k,
                            #[trigger] states[k],
                        ),
                    forall|k: int|
                        0 <= k < 64 ==> #[trigger] states[k] == slab_now(
                            x_plane(voxels@, seen, xs, k),
                            z as int,
                            y as int,
                            among(list@, n as int, k),
                        ),
            {
                let x: usize = list[n];
                let ghost p: Plane = x_plane(voxels@, seen, xs, x as int);
                let ghost st: Slabs = slab_at(p, z as int, y as int);
                let ghost forward0: Seq<u8> = forward@;
                let ghost upward0: Seq<u8> = upward@;
                let ghost planes0: Seq<Vec<Quad>> = planes@;
                let ghost states0: Seq<Slabs> = states;
                proof {
                    assert(bit(visible, x as int));
                    assert(!among(list@, n as int, x as int)) by {
                        if among(list@, n as int, x as int) {
                            let w = choose|w: int| 0 <= w < n && list@[w] == x;
                            assert(list@[w] < list@[n as int]);
                        }
                    }
                    assert(states[x as int] == st);
                    assert(x_tracks(forward@, upward@, planes@, x as int, states[x as int]));
                    lemma_plane_inside(voxels@, limited(seen, xs), Axis::X, x as int);
                    lemma_slab_at(p, z as int, y as int);
                    assert(bit(forward_visible, x as int) == p.seen(y as int, z + 1));
                    assert(bit(upward_visible, x as int) == p.seen(y + 1, z as int));
                }
                sweep_cell(
                    voxels,
                    forward_visible,
                    upward_visible,
                    forward,
                    upward,
                    planes,
                    x,
                    y,
                    z,
                    Ghost(p),
                    Ghost(st),
                );
                proof {
                    let after: Slabs = slab_cell(p, y as int, z as int, st);
                    states = states.update(x as int, after);
                    assert forall|k: int| 0 <= k < 64 implies #[trigger] states[k] == slab_now(
                        x_plane(voxels@, seen, xs, k),
                        z as int,
                        y as int,
                        among(list@, n + 1, k),
                    ) by {
                        if k == x {
                            assert(list@[n as int] == k);
                            assert(among(list@, n + 1, k));
                        } else {
                            assert(states[k] == states0[k]);
                            assert(among(list@, n + 1, k) == among(list@, n as int, k)) by {
                                if among(list@, n + 1, k) {
                                    let w = choose|w: int| 0 <= w < n + 1 && list@[w] == k;
                                    assert(among(list@, n as int, k));
                                }
                            }
                        }
                    }
                    assert forall|k: int| 0 <= k < 64 implies x_tracks(
                        forward@,
                        upward@,
                        planes@,
                        k,
                        #[trigger] states[k],
                    ) by {
                        if k != x {
                            let other = states0[k];
                            assert(x_tracks(forward0, upward0, planes0, k, other));
                            assert forall|c: int| 0 <= c < 64 implies #[trigger] forward@[index_2d(
                                k,
                                c,
                            )] == other.fm[c] by {
                                assert(forward0[index_2d(k, c)] == other.fm[c]);
                            }
                        }
                    }
                }
            }
            proof {
                assert forall|k: int| 0 <= k < 64 implies #[trigger] states[k] == slab_at(
                    x_plane(voxels@, seen, xs, k),
                    z as int,
                    y + 1,
                ) by {
                    lemma_among_all(list@, visible, k);
                }
            }
        }
        proof {
            assert forall|k: int| 0 <= k < 64 implies #[trigger] states[k] == slab_rows(
                x_plane(voxels@, seen, xs, k),
                z + 1,
            ) by {
            }
        }
    }
    proof {
        assert forall|i: int| 0 <= i < SQUARE implies #[trigger] forward@[i] == 0 by {
            let (k, c) = (i % 64, i / 64);
            let p = x_plane(voxels@, seen, xs, k);
            assert(x_tracks(forward@, upward@, planes@, k, states[k]));
            lemma_plane_inside(voxels@, limited(seen, xs), Axis::X, k);
            lemma_slab_rests(p);
            assert(forward@[index_2d(k, c)] == slab_rows(p, 63).fm[c]);
        }
        assert forall|k: int| 0 <= k < LEN implies #[trigger] upward@[k] == 0 by {
            let p = x_plane(voxels@, seen, xs, k);
            assert(x_tracks(forward@, upward@, planes@, k, states[k]));
            lemma_plane_inside(voxels@, limited(seen, xs), Axis::X, k);
            lemma_slab_rests(p);
        }
        assert forall|k: int| 0 <= k < 64 implies (#[trigger] planes@[k])@ == plane_quads(
            voxels@,
            limited(seen, xs),
            Axis::X,
            k,
        ) by {
            assert(x_tracks(forward@, upward@, planes@, k, states[k]));
        }
    }
}

} // verus!
