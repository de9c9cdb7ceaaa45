//! The rectangles of a plane tile its seen cells: each covers seen cells of
//! its own material only, no two share a cell, and no seen cell is left out.

use crate::plane::{
    bar_defers, bar_inv, bar_joins, bar_next, bar_rect, bar_rows, bar_scan, bar_step, bar_top,
    lemma_bar_end, lemma_bar_rests, lemma_bar_rows, lemma_bar_step, lemma_slab_at,
    lemma_slab_rests, slab_at, slab_cell, slab_climbs, slab_defers, slab_inv, slab_rect, slab_rows,
    Bars, Plane, Rect, Slabs,
};
use vstd::prelude::*;

verus! {

/// A rectangle of at least one cell that lies inside the shell.
pub open spec fn well_shaped(r: Rect) -> bool {
    1 <= r.a && 1 <= r.na && r.a + r.na <= 63 && 1 <= r.b && 1 <= r.nb && r.b + r.nb <= 63
}

/// The rectangles `out` tile the seen cells of `p` below the rows `front`:
/// the cells `(c, r)` with `r < front(c)`.
pub open spec fn tiles(p: Plane, out: Seq<Rect>, front: spec_fn(int) -> int) -> bool {
    &&& forall|i: int| 0 <= i < out.len() ==> well_shaped(#[trigger] out[i])
    &&& forall|i: int, c: int, r: int|
        0 <= i < out.len() && #[trigger] out[i].covers(c, r) ==> r < front(c) && p.seen(c, r)
            && p.mat(c, r) == out[i].id
    &&& forall|i: int, j: int, c: int, r: int|
        0 <= i < out.len() && 0 <= j < out.len() && #[trigger] out[i].covers(c, r)
            && #[trigger] out[j].covers(c, r) ==> i == j
    &&& forall|c: int, r: int|
        0 <= c < 64 && r < front(c) && #[trigger] p.seen(c, r) ==> exists|i: int|
            0 <= i < out.len() && #[trigger] out[i].covers(c, r)
}

/// Tiling below one set of rows is tiling below another that adds no seen
/// cell and takes none that is covered.
pub proof fn lemma_tiles_moved(
    p: Plane,
    out: Seq<Rect>,
    from: spec_fn(int) -> int,
    to: spec_fn(int) -> int,
)
    requires
        p.inside(),
        tiles(p, out, from),
        forall|c: int| 1 <= c < 63 ==> #[trigger] to(c) >= from(c),
        forall|c: int, r: int| 1 <= c < 63 && from(c) <= r < to(c) ==> !#[trigger] p.seen(c, r),
    ensures
        tiles(p, out, to),
{
    assert forall|i: int, c: int, r: int|
        0 <= i < out.len() && #[trigger] out[i].covers(c, r) implies r < to(c) && p.seen(c, r)
        && p.mat(c, r) == out[i].id by {
        assert(well_shaped(out[i]));
        assert(from(c) <= to(c));
    }
    assert forall|c: int, r: int|
        0 <= c < 64 && r < to(c) && #[trigger] p.seen(c, r) implies exists|i: int|
        0 <= i < out.len() && #[trigger] out[i].covers(c, r) by {
        assert(r < from(c));
    }
}

/// Tiling with one more rectangle: it is well shaped, it covers seen cells
/// of its material, and they are exactly the cells that the rows now take in.
pub proof fn lemma_tiles_push(
    p: Plane,
    out: Seq<Rect>,
    from: spec_fn(int) -> int,
    to: spec_fn(int) -> int,
    rect: Rect,
)
    requires
        p.inside(),
        tiles(p, out, from),
        well_shaped(rect),
        forall|c: int| 1 <= c < 63 ==> #[trigger] to(c) >= from(c),
        forall|c: int, r: int|
            #[trigger] rect.covers(c, r) ==> from(c) <= r < to(c) && p.seen(c, r) && p.mat(c, r)
                == rect.id,
        forall|c: int, r: int|
            1 <= c < 63 && from(c) <= r < to(c) && #[trigger] p.seen(c, r) ==> rect.covers(c, r),
    ensures
        tiles(p, out.push(rect), to),
{
    let next = out.push(rect);
    assert forall|i: int| 0 <= i < next.len() implies well_shaped(#[trigger] next[i]) by {
        if i < out.len() {
            assert(next[i] == out[i]);
        }
    }
    assert forall|i: int, c: int, r: int|
        0 <= i < next.len() && #[trigger] next[i].covers(c, r) implies r < to(c) && p.seen(c, r)
        && p.mat(c, r) == next[i].id by {
        if i < out.len() {
            assert(out[i].covers(c, r));
            assert(well_shaped(out[i]));
            assert(from(c) <= to(c));
        }
    }
    assert forall|i: int, j: int, c: int, r: int|
        0 <= i < next.len() && 0 <= j < next.len() && #[trigger] next[i].covers(c, r)
            && #[trigger] next[j].covers(c, r) implies i == j by {
        if i < out.len() {
            assert(out[i].covers(c, r));
        }
        if j < out.len() {
            assert(out[j].covers(c, r));
        }
    }
    assert forall|c: int, r: int|
        0 <= c < 64 && r < to(c) && #[trigger] p.seen(c, r) implies exists|i: int|
        0 <= i < next.len() && #[trigger] next[i].covers(c, r) by {
        if r < from(c) {
            let i = choose|i: int| 0 <= i < out.len() && #[trigger] out[i].covers(c, r);
            assert(next[i].covers(c, r));
        } else {
            assert(next[out.len() as int].covers(c, r));
        }
    }
}

/// The rows below which the bar merge has settled every cell, while row `b`
/// is scanned and the columns below `a` are done.
pub open spec fn bar_front(run: Seq<int>, b: int, a: int) -> spec_fn(int) -> int {
    |c: int| bar_top(b, a, c) - run[c]
}

/// One step of the scan keeps the tiling.
pub proof fn lemma_bar_step_tiles(p: Plane, b: int, a: int, st: Bars)
    requires
        p.inside(),
        1 <= b < 63,
        0 <= a < 64,
        bar_inv(p, b, a, st),
        tiles(p, st.out, bar_front(st.run, b, a)),
    ensures
        tiles(
            p,
            bar_step(p, b, a, st).out,
            bar_front(bar_step(p, b, a, st).run, b, bar_next(p, b, a, st)),
        ),
{
    let next = bar_step(p, b, a, st);
    let n = bar_next(p, b, a, st);
    let from = bar_front(st.run, b, a);
    let to = bar_front(next.run, b, n);
    lemma_bar_step(p, b, a, st);
    lemma_bar_end(p, st.run, b, a, a + 1);
    if !p.seen(a, b) || bar_defers(p, a, b) {
        assert(!p.seen(a, b) ==> st.run[a] == 0);
        lemma_tiles_moved(p, st.out, from, to);
    } else {
        let rect = bar_rect(p, st.run, b, a, n);
        assert forall|c: int| a < c < n implies st.run[c] == st.run[a] && p.seen(c, b) && p.mat(
            c,
            b,
        ) == p.mat(a, b) by {
            assert(bar_joins(p, st.run, b, a, c));
        }
        assert forall|c: int, r: int| #[trigger] rect.covers(c, r) implies from(c) <= r < to(c)
            && p.seen(c, r) && p.mat(c, r) == rect.id by {
            assert(a <= c < n);
            assert(st.run[c] == st.run[a]);
            assert(p.seen(c, b) && p.mat(c, b) == p.mat(a, b));
            if r < b {
                assert(bar_top(b, a, c) == b);
                assert(0 <= c < 64 && bar_top(b, a, c) - st.run[c] <= r < bar_top(b, a, c));
                assert(p.seen(c, r));
                assert(p.mat(c, r) == p.mat(c, bar_top(b, a, c)));
            }
        }
        assert forall|c: int, r: int|
            0 <= c < 64 && from(c) <= r < to(c) && #[trigger] p.seen(c, r) implies rect.covers(
            c,
            r,
        ) by {
            if a <= c < n {
                assert(c > a ==> st.run[c] == st.run[a]);
            }
        }
        lemma_tiles_push(p, st.out, from, to, rect);
    }
}

/// One row keeps the tiling.
pub proof fn lemma_bar_scan_tiles(p: Plane, b: int, a: int, st: Bars)
    requires
        p.inside(),
        1 <= b < 63,
        0 <= a <= 64,
        bar_inv(p, b, a, st),
        tiles(p, st.out, bar_front(st.run, b, a)),
    ensures
        tiles(p, bar_scan(p, b, a, st).out, bar_front(bar_scan(p, b, a, st).run, b, 64)),
    decreases 64 - a,
{
    if a < 64 {
        lemma_bar_step(p, b, a, st);
        lemma_bar_step_tiles(p, b, a, st);
        lemma_bar_scan_tiles(p, b, bar_next(p, b, a, st), bar_step(p, b, a, st));
    }
}

/// Before every row the rectangles tile the rows below.
pub proof fn lemma_bar_rows_tiles(p: Plane, b: int)
    requires
        p.inside(),
        1 <= b <= 63,
    ensures
        tiles(p, bar_rows(p, b).out, bar_front(bar_rows(p, b).run, b, 0)),
    decreases b,
{
    if b > 1 {
        lemma_bar_rows_tiles(p, b - 1);
        lemma_bar_rows(p, b - 1);
        lemma_bar_scan_tiles(p, b - 1, 0, bar_rows(p, b - 1));
        let st = bar_rows(p, b);
        lemma_tiles_moved(p, st.out, bar_front(st.run, b - 1, 64), bar_front(st.run, b, 0));
    } else {
        let st = bar_rows(p, 1);
        assert forall|c: int, r: int|
            0 <= c < 64 && r < (bar_front(st.run, b, 0))(c) && #[trigger] p.seen(
                c,
                r,
            ) implies exists|i: int| 0 <= i < st.out.len() && #[trigger] st.out[i].covers(c, r) by {
        }
    }
}

/// The rectangles of a bar merge tile the seen cells of the plane.
pub proof fn lemma_bar_tiles(p: Plane)
    requires
        p.inside(),
    ensures
        tiles(p, bar_rows(p, 63).out, |c: int| 63),
{
    lemma_bar_rows_tiles(p, 63);
    lemma_bar_rests(p);
    let st = bar_rows(p, 63);
    lemma_tiles_moved(p, st.out, bar_front(st.run, 63, 0), |c: int| 63);
}

/// The rows below which the slab merge has settled every cell before cell
/// `(a, b)`: the columns of the run that is growing along the row share the
/// depth of the column it has reached.
pub open spec fn slab_front(st: Slabs, b: int, a: int) -> spec_fn(int) -> int {
    |c: int|
        if a - st.um <= c < a {
            b - st.fm[a]
        } else {
            bar_top(b, a, c) - st.fm[c]
        }
}

/// What holds of the run that is growing along row `b` before cell
/// `(a, b)`: its columns have handed on their counters, and their cells down
/// to the depth of column `a` are seen and of the material of cell `(a, b)`.
pub open spec fn slab_block(p: Plane, b: int, a: int, st: Slabs) -> bool {
    &&& forall|c: int| a - st.um <= c < a ==> #[trigger] st.fm[c] == 0
    &&& forall|c: int, r: int|
        a - st.um <= c < a && b - st.fm[a] <= r <= b ==> #[trigger] p.seen(c, r) && p.mat(c, r)
            == p.mat(a, b)
}

/// One cell keeps the tiling.
pub proof fn lemma_slab_cell_tiles(p: Plane, b: int, a: int, st: Slabs)
    requires
        p.inside(),
        1 <= b < 63,
        1 <= a < 63,
        slab_inv(p, b, a, st),
        slab_block(p, b, a, st),
        tiles(p, st.out, slab_front(st, b, a)),
    ensures
        slab_block(p, b, a + 1, slab_cell(p, a, b, st)),
        tiles(p, slab_cell(p, a, b, st).out, slab_front(slab_cell(p, a, b, st), b, a + 1)),
{
    let next = slab_cell(p, a, b, st);
    let from = slab_front(st, b, a);
    let to = slab_front(next, b, a + 1);
    crate::plane::lemma_slab_cell(p, b, a, st);
    if !p.seen(a, b) {
        assert(st.um == 0);
        assert(st.fm[a] == 0);
        assert(next.um == 0);
        lemma_tiles_moved(p, st.out, from, to);
    } else if slab_defers(p, a, b, st) {
        assert(next.um == 0);
        lemma_tiles_moved(p, st.out, from, to);
    } else if slab_climbs(p, a, b, st) {
        assert(next.um == st.um + 1);
        assert(next.fm == st.fm.update(a, 0));
        assert forall|c: int| a + 1 - next.um <= c < a + 1 implies #[trigger] next.fm[c] == 0 by {
            if c < a {
                assert(st.fm[c] == 0);
            }
        }
        assert forall|c: int, r: int|
            a + 1 - next.um <= c < a + 1 && b - next.fm[a + 1] <= r <= b implies #[trigger] p.seen(
            c,
            r,
        ) && p.mat(c, r) == p.mat(a + 1, b) by {
            if c == a && r < b {
                assert(bar_top(b, a, a) - st.fm[a] <= r < bar_top(b, a, a));
                assert(p.seen(c, r));
                assert(p.mat(c, r) == p.mat(a, bar_top(b, a, a)));
            }
        }
        lemma_tiles_moved(p, st.out, from, to);
    } else {
        let rect = slab_rect(p, a, b, st);
        assert(next.um == 0);
        assert forall|c: int, r: int| #[trigger] rect.covers(c, r) implies from(c) <= r < to(c)
            && p.seen(c, r) && p.mat(c, r) == rect.id by {
            assert(a - st.um <= c <= a);
            if c < a {
                assert(st.fm[c] == 0);
                assert(p.seen(c, r));
                assert(p.mat(c, r) == p.mat(a, b));
            } else if r < b {
                assert(bar_top(b, a, a) - st.fm[a] <= r < bar_top(b, a, a));
                assert(p.seen(c, r));
                assert(p.mat(c, r) == p.mat(a, bar_top(b, a, a)));
            }
        }
        assert forall|c: int, r: int|
            1 <= c < 63 && from(c) <= r < to(c) && #[trigger] p.seen(c, r) implies rect.covers(
            c,
            r,
        ) by {
            if a - st.um <= c < a {
                assert(st.fm[c] == 0);
            }
        }
        assert forall|c: int| 1 <= c < 63 implies #[trigger] to(c) >= from(c) by {
            if a - st.um <= c < a {
                assert(st.fm[c] == 0);
            }
        }
        lemma_tiles_push(p, st.out, from, to, rect);
    }
}

/// Before every cell the rectangles tile what is settled.
pub proof fn lemma_slab_at_tiles(p: Plane, b: int, a: int)
    requires
        p.inside(),
        1 <= b < 63 && 1 <= a <= 63 || b == 63 && a == 1,
    ensures
        slab_block(p, b, a, slab_at(p, b, a)),
        tiles(p, slab_at(p, b, a).out, slab_front(slab_at(p, b, a), b, a)),
    decreases b, a,
{
    if a > 1 {
        lemma_slab_at_tiles(p, b, a - 1);
        lemma_slab_at(p, b, a - 1);
        lemma_slab_cell_tiles(p, b, a - 1, slab_at(p, b, a - 1));
    } else if b > 1 {
        lemma_slab_at_tiles(p, b - 1, 63);
        lemma_slab_at(p, b - 1, 63);
        lemma_slab_at(p, b, 1);
        let st = slab_at(p, b - 1, 63);
        assert(st == slab_at(p, b, 1));
        assert(st.um == 0);
        assert forall|c: int| 1 <= c < 63 implies #[trigger] (slab_front(st, b, 1))(c) >= (
        slab_front(st, b - 1, 63))(c) by {
        }
        lemma_tiles_moved(p, st.out, slab_front(st, b - 1, 63), slab_front(st, b, 1));
    } else {
        let st = slab_at(p, 1, 1);
        assert forall|c: int, r: int|
            0 <= c < 64 && r < (slab_front(st, 1, 1))(c) && #[trigger] p.seen(
                c,
                r,
            ) implies exists|i: int| 0 <= i < st.out.len() && #[trigger] st.out[i].covers(c, r) by {
        }
    }
}

/// The rectangles of a slab merge tile the seen cells of the plane.
pub proof fn lemma_slab_tiles(p: Plane)
    requires
        p.inside(),
    ensures
        tiles(p, slab_rows(p, 63).out, |c: int| 63),
{
    lemma_slab_at_tiles(p, 63, 1);
    lemma_slab_rests(p);
    let st = slab_rows(p, 63);
    assert(st == slab_at(p, 63, 1));
    lemma_tiles_moved(p, st.out, slab_front(st, 63, 1), |c: int| 63);
}

} // verus!
