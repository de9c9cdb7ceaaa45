//! Greedy merging on one plane of faces, as mathematics.
//!
//! A plane is a 64×64 grid of cells `(a, b)`: column `a`, row `b`. A cell is
//! *seen* when the face of its voxel is visible, and it carries the material
//! of that voxel. A merge walks the rows inside the shell in order and,
//! within a row, the columns in order; it keeps a counter per column for the
//! cells it has put off, and emits rectangles. What a merge emits is the
//! definition of the mesh. That the rectangles tile the seen cells is proved
//! from it elsewhere.
//!
//! The *bar merge* makes the quads of the faces along y and along z. A seen
//! cell whose neighbour in the next row is seen and of the same material is
//! put off: the counter of its column grows, and the cell becomes part of a
//! rectangle that ends in a later row. Any other seen cell ends a
//! rectangle. The rectangle takes in the cells put off below it, and it is
//! widened to the right over the columns whose cell in this row is seen, of
//! the same material and with the same count of cells put off.
//!
//! The *slab merge* makes the quads of the faces along x. A cell is put off
//! as before, but only while no run is growing along the row. A cell that is
//! not put off hands its run on to the next column if the cell there is seen,
//! of the same material and with the same count; the run along the row
//! grows by one column. Any other seen cell ends a rectangle, as long as the
//! run along the row and as deep as the count of its column.

use vstd::prelude::*;

verus! {

/// One plane of faces: which cells are seen, and the material of each.
pub struct Plane {
    pub vis: spec_fn(int, int) -> bool,
    pub id: spec_fn(int, int) -> u16,
}

impl Plane {
    /// The face of cell `(a, b)` is visible.
    pub open spec fn seen(self, a: int, b: int) -> bool {
        (self.vis)(a, b)
    }

    /// The material of cell `(a, b)`.
    pub open spec fn mat(self, a: int, b: int) -> u16 {
        (self.id)(a, b)
    }

    /// No cell of the shell is seen.
    pub open spec fn inside(self) -> bool {
        forall|a: int, b: int| #[trigger] self.seen(a, b) ==> 1 <= a < 63 && 1 <= b < 63
    }

    /// No cell at all is seen.
    pub open spec fn blank(self) -> bool {
        forall|a: int, b: int| !#[trigger] self.seen(a, b)
    }
}

/// A rectangle of cells: `na` columns from `a`, `nb` rows from `b`.
pub struct Rect {
    pub a: int,
    pub b: int,
    pub na: int,
    pub nb: int,
    pub id: u16,
}

impl Rect {
    /// The rectangle holds cell `(a, b)`.
    pub open spec fn covers(self, a: int, b: int) -> bool {
        self.a <= a < self.a + self.na && self.b <= b < self.b + self.nb
    }
}

/// A counter per column, all at rest.
pub open spec fn zeros() -> Seq<int> {
    Seq::new(64, |i: int| 0int)
}

/// `run` with the counters of the columns `from..to` put back to rest.
pub open spec fn cleared(run: Seq<int>, from: int, to: int) -> Seq<int> {
    Seq::new(
        run.len(),
        |i: int|
            if from <= i < to {
                0int
            } else {
                run[i]
            },
    )
}

/// The state of the bar merge: per column the number of cells put off below
/// the row at hand, and the rectangles emitted so far.
pub struct Bars {
    pub run: Seq<int>,
    pub out: Seq<Rect>,
}

/// The cell `(a, b)` is put off: the cell above it continues its run.
pub open spec fn bar_defers(p: Plane, a: int, b: int) -> bool {
    p.seen(a, b + 1) && p.mat(a, b) == p.mat(a, b + 1)
}

/// The column `n` can join the rectangle that starts at column `a` of row `b`.
pub open spec fn bar_joins(p: Plane, run: Seq<int>, b: int, a: int, n: int) -> bool {
    n < 63 && p.seen(n, b) && run[n] == run[a] && p.mat(n, b) == p.mat(a, b)
}

/// The first column from `n` on that cannot join the rectangle that starts
/// at column `a` of row `b`.
pub open spec fn bar_end(p: Plane, run: Seq<int>, b: int, a: int, n: int) -> int
    decreases 64 - n,
{
    if bar_joins(p, run, b, a, n) {
        bar_end(p, run, b, a, n + 1)
    } else {
        n
    }
}

/// The rectangle emitted at column `a` of row `b`, reaching to column `n`.
pub open spec fn bar_rect(p: Plane, run: Seq<int>, b: int, a: int, n: int) -> Rect {
    Rect { a: a, b: b - run[a], na: n - a, nb: run[a] + 1, id: p.mat(a, b) }
}

/// The column at which the scan of row `b` goes on after column `a`.
pub open spec fn bar_next(p: Plane, b: int, a: int, st: Bars) -> int {
    if !p.seen(a, b) || bar_defers(p, a, b) {
        a + 1
    } else {
        bar_end(p, st.run, b, a, a + 1)
    }
}

/// What the scan of row `b` does at column `a`: it passes over an unseen
/// cell, puts off a cell whose run goes on in the next row, and else emits
/// the rectangle that ends here, as wide as the columns to the right allow.
pub open spec fn bar_step(p: Plane, b: int, a: int, st: Bars) -> Bars {
    if !p.seen(a, b) {
        st
    } else if bar_defers(p, a, b) {
        Bars { run: st.run.update(a, st.run[a] + 1), out: st.out }
    } else {
        let n = bar_end(p, st.run, b, a, a + 1);
        Bars { run: cleared(st.run, a, n), out: st.out.push(bar_rect(p, st.run, b, a, n)) }
    }
}

/// Row `b` from column `a` on.
pub open spec fn bar_scan(p: Plane, b: int, a: int, st: Bars) -> Bars
    decreases 64 - a,
{
    if a >= 64 {
        st
    } else {
        proof {
            lemma_bar_end(p, st.run, b, a, a + 1);
        }
        bar_scan(p, b, bar_next(p, b, a, st), bar_step(p, b, a, st))
    }
}

/// The state before row `b`: the rows `1..b` are done.
pub open spec fn bar_rows(p: Plane, b: int) -> Bars
    decreases b,
{
    if b <= 1 {
        Bars { run: zeros(), out: Seq::empty() }
    } else {
        bar_scan(p, b - 1, 0, bar_rows(p, b - 1))
    }
}

/// Where a rectangle ends: right of its start, inside the shell, and every
/// column before the end has joined.
pub proof fn lemma_bar_end(p: Plane, run: Seq<int>, b: int, a: int, n: int)
    ensures
        n <= bar_end(p, run, b, a, n),
        bar_end(p, run, b, a, n) <= 63 || bar_end(p, run, b, a, n) == n,
        forall|c: int| n <= c < bar_end(p, run, b, a, n) ==> bar_joins(p, run, b, a, c),
        !bar_joins(p, run, b, a, bar_end(p, run, b, a, n)),
    decreases 64 - n,
{
    if bar_joins(p, run, b, a, n) {
        lemma_bar_end(p, run, b, a, n + 1);
    }
}

/// The top of column `c` while row `b` is scanned and the columns below `a`
/// are done: the row of the next cell of that column to be looked at.
pub open spec fn bar_top(b: int, a: int, c: int) -> int {
    if c < a {
        b + 1
    } else {
        b
    }
}

/// What holds of the counters while row `b` is scanned and the columns below
/// `a` are done: a counter counts cells put off directly below the top of
/// its column, all seen and all of the material of the cell at the top.
pub open spec fn bar_inv(p: Plane, b: int, a: int, st: Bars) -> bool {
    &&& st.run.len() == 64
    &&& forall|c: int| 0 <= c < 64 ==> 0 <= #[trigger] st.run[c] < bar_top(b, a, c)
    &&& forall|c: int| 0 <= c < 64 && #[trigger] st.run[c] > 0 ==> p.seen(c, bar_top(b, a, c))
    &&& forall|c: int, r: int|
        0 <= c < 64 && bar_top(b, a, c) - st.run[c] <= r < bar_top(b, a, c) ==> #[trigger] p.seen(
            c,
            r,
        ) && p.mat(c, r) == p.mat(c, bar_top(b, a, c))
}

/// One step of the scan keeps the counters in order and moves right.
pub proof fn lemma_bar_step(p: Plane, b: int, a: int, st: Bars)
    requires
        p.inside(),
        1 <= b < 63,
        0 <= a < 64,
        bar_inv(p, b, a, st),
    ensures
        a < bar_next(p, b, a, st) <= 64,
        bar_inv(p, b, bar_next(p, b, a, st), bar_step(p, b, a, st)),
{
    if !p.seen(a, b) {
        assert(st.run[a] == 0);
    } else if bar_defers(p, a, b) {
        let next = bar_step(p, b, a, st);
        assert forall|c: int, r: int|
            0 <= c < 64 && bar_top(b, a + 1, c) - next.run[c] <= r < bar_top(
                b,
                a + 1,
                c,
            ) implies #[trigger] p.seen(c, r) && p.mat(c, r) == p.mat(c, bar_top(b, a + 1, c)) by {
            if c == a && r < b {
                assert(p.seen(c, r) && p.mat(c, r) == p.mat(c, bar_top(b, a, c)));
            }
        }
    } else {
        lemma_bar_end(p, st.run, b, a, a + 1);
    }
}

/// One row keeps the counters in order.
pub proof fn lemma_bar_scan(p: Plane, b: int, a: int, st: Bars)
    requires
        p.inside(),
        1 <= b < 63,
        0 <= a <= 64,
        bar_inv(p, b, a, st),
    ensures
        bar_inv(p, b, 64, bar_scan(p, b, a, st)),
    decreases 64 - a,
{
    if a < 64 {
        lemma_bar_step(p, b, a, st);
        lemma_bar_scan(p, b, bar_next(p, b, a, st), bar_step(p, b, a, st));
    }
}

/// Before every row the counters are in order.
pub proof fn lemma_bar_rows(p: Plane, b: int)
    requires
        p.inside(),
        1 <= b <= 63,
    ensures
        bar_inv(p, b, 0, bar_rows(p, b)),
    decreases b,
{
    if b > 1 {
        lemma_bar_rows(p, b - 1);
        lemma_bar_scan(p, b - 1, 0, bar_rows(p, b - 1));
        let st = bar_rows(p, b);
        assert(bar_inv(p, b, 0, st)) by {
            assert forall|c: int| 0 <= c < 64 implies bar_top(b, 0, c) == bar_top(b - 1, 64, c) by {
            }
        }
    }
}

/// When the last row is done every counter is back at rest.
pub proof fn lemma_bar_rests(p: Plane)
    requires
        p.inside(),
    ensures
        bar_rows(p, 63).run =~= zeros(),
{
    lemma_bar_rows(p, 63);
    let st = bar_rows(p, 63);
    assert forall|c: int| 0 <= c < 64 implies st.run[c] == 0 by {
        if st.run[c] > 0 {
            assert(p.seen(c, bar_top(63, 0, c)));
        }
    }
}

/// Cells that are not seen are passed over.
pub proof fn lemma_bar_skip(p: Plane, b: int, a: int, n: int, st: Bars)
    requires
        0 <= a <= n <= 64,
        forall|c: int| a <= c < n ==> !p.seen(c, b),
    ensures
        bar_scan(p, b, a, st) == bar_scan(p, b, n, st),
    decreases n - a,
{
    if a < n {
        lemma_bar_skip(p, b, a + 1, n, st);
    }
}

/// Passing over cells that are not seen keeps the counters in order.
pub proof fn lemma_bar_skip_inv(p: Plane, b: int, a: int, n: int, st: Bars)
    requires
        p.inside(),
        1 <= b < 63,
        0 <= a <= n <= 64,
        bar_inv(p, b, a, st),
        forall|c: int| a <= c < n ==> !p.seen(c, b),
    ensures
        bar_inv(p, b, n, st),
    decreases n - a,
{
    if a < n {
        lemma_bar_step(p, b, a, st);
        lemma_bar_skip_inv(p, b, a + 1, n, st);
    }
}

/// A plane on which nothing is seen yields nothing.
pub proof fn lemma_bar_blank(p: Plane, b: int)
    requires
        p.blank(),
        b <= 63,
    ensures
        bar_rows(p, b) == (Bars { run: zeros(), out: Seq::empty() }),
    decreases b,
{
    if b > 1 {
        lemma_bar_blank(p, b - 1);
        lemma_bar_skip(p, b - 1, 0, 64, bar_rows(p, b - 1));
    }
}

/// The state of the slab merge: per column the number of cells put off
/// below the row at hand, the number of columns of the run that is growing
/// along the row, and the rectangles emitted so far.
pub struct Slabs {
    pub fm: Seq<int>,
    pub um: int,
    pub out: Seq<Rect>,
}

/// The cell `(a, b)` is put off to the next row: no run along the row is
/// growing, and the cell in the next row continues it.
pub open spec fn slab_defers(p: Plane, a: int, b: int, st: Slabs) -> bool {
    st.um == 0 && p.seen(a, b + 1) && p.mat(a, b) == p.mat(a, b + 1)
}

/// The cell `(a, b)` hands its run on to the next column: that cell is seen,
/// of the same material, and as many cells have been put off below it.
pub open spec fn slab_climbs(p: Plane, a: int, b: int, st: Slabs) -> bool {
    p.seen(a + 1, b) && st.fm[a] == st.fm[a + 1] && p.mat(a, b) == p.mat(a + 1, b)
}

/// The rectangle emitted at cell `(a, b)`.
pub open spec fn slab_rect(p: Plane, a: int, b: int, st: Slabs) -> Rect {
    Rect { a: a - st.um, b: b - st.fm[a], na: st.um + 1, nb: st.fm[a] + 1, id: p.mat(a, b) }
}

/// What the slab merge does at cell `(a, b)`.
pub open spec fn slab_cell(p: Plane, a: int, b: int, st: Slabs) -> Slabs {
    if !p.seen(a, b) {
        st
    } else if slab_defers(p, a, b, st) {
        Slabs { fm: st.fm.update(a, st.fm[a] + 1), um: st.um, out: st.out }
    } else if slab_climbs(p, a, b, st) {
        Slabs { fm: st.fm.update(a, 0), um: st.um + 1, out: st.out }
    } else {
        Slabs { fm: st.fm.update(a, 0), um: 0, out: st.out.push(slab_rect(p, a, b, st)) }
    }
}

/// Row `b` up to column `a`: the cells `1..a` of the row are done.
pub open spec fn slab_row(p: Plane, b: int, a: int, st: Slabs) -> Slabs
    decreases a,
{
    if a <= 1 {
        st
    } else {
        slab_cell(p, a - 1, b, slab_row(p, b, a - 1, st))
    }
}

/// The state before row `b`: the rows `1..b` are done.
pub open spec fn slab_rows(p: Plane, b: int) -> Slabs
    decreases b,
{
    if b <= 1 {
        Slabs { fm: zeros(), um: 0, out: Seq::empty() }
    } else {
        slab_row(p, b - 1, 63, slab_rows(p, b - 1))
    }
}

/// The state before cell `(a, b)`.
pub open spec fn slab_at(p: Plane, b: int, a: int) -> Slabs {
    slab_row(p, b, a, slab_rows(p, b))
}

/// What holds of the counters before cell `(a, b)`: as for the bar merge,
/// and the run along the row is shorter than the row so far and goes on
/// only into a seen cell.
pub open spec fn slab_inv(p: Plane, b: int, a: int, st: Slabs) -> bool {
    &&& st.fm.len() == 64
    &&& 0 <= st.um < a
    &&& st.um > 0 ==> p.seen(a, b)
    &&& forall|c: int| 0 <= c < 64 ==> 0 <= #[trigger] st.fm[c] < bar_top(b, a, c)
    &&& forall|c: int| 0 <= c < 64 && #[trigger] st.fm[c] > 0 ==> p.seen(c, bar_top(b, a, c))
    &&& forall|c: int, r: int|
        0 <= c < 64 && bar_top(b, a, c) - st.fm[c] <= r < bar_top(b, a, c) ==> #[trigger] p.seen(
            c,
            r,
        ) && p.mat(c, r) == p.mat(c, bar_top(b, a, c))
}

/// One cell keeps the counters in order.
pub proof fn lemma_slab_cell(p: Plane, b: int, a: int, st: Slabs)
    requires
        p.inside(),
        1 <= b < 63,
        1 <= a < 63,
        slab_inv(p, b, a, st),
    ensures
        slab_inv(p, b, a + 1, slab_cell(p, a, b, st)),
{
    let next = slab_cell(p, a, b, st);
    if !p.seen(a, b) {
        assert(st.fm[a] == 0);
    } else if slab_defers(p, a, b, st) {
        assert(next.fm == st.fm.update(a, st.fm[a] + 1));
        assert(st.fm[a] < bar_top(b, a, a));
        assert forall|c: int, r: int|
            0 <= c < 64 && bar_top(b, a + 1, c) - next.fm[c] <= r < bar_top(
                b,
                a + 1,
                c,
            ) implies #[trigger] p.seen(c, r) && p.mat(c, r) == p.mat(c, bar_top(b, a + 1, c)) by {
            if c == a && r < b {
                assert(p.seen(c, r) && p.mat(c, r) == p.mat(c, bar_top(b, a, c)));
            }
        }
    } else {
    }
}

/// Before every cell the counters are in order.
pub proof fn lemma_slab_at(p: Plane, b: int, a: int)
    requires
        p.inside(),
        1 <= b < 63 && 1 <= a <= 63 || b == 63 && a == 1,
    ensures
        slab_inv(p, b, a, slab_at(p, b, a)),
    decreases b, a,
{
    if a > 1 {
        lemma_slab_at(p, b, a - 1);
        lemma_slab_cell(p, b, a - 1, slab_at(p, b, a - 1));
    } else if b > 1 {
        lemma_slab_at(p, b - 1, 63);
        let st = slab_at(p, b - 1, 63);
        assert(st == slab_at(p, b, 1));
        assert(st.um == 0) by {
            if st.um > 0 {
                assert(p.seen(63, b - 1));
            }
        }
        assert forall|c: int| 0 <= c < 64 implies 0 <= #[trigger] st.fm[c] < bar_top(b, 1, c) && (
        st.fm[c] > 0 ==> p.seen(c, bar_top(b, 1, c))) by {
            if st.fm[c] > 0 {
                assert(p.seen(c, bar_top(b - 1, 63, c)));
            }
        }
        assert forall|c: int, r: int|
            0 <= c < 64 && bar_top(b, 1, c) - st.fm[c] <= r < bar_top(
                b,
                1,
                c,
            ) implies #[trigger] p.seen(c, r) && p.mat(c, r) == p.mat(c, bar_top(b, 1, c)) by {
            assert(st.fm[c] > 0);
            assert(p.seen(c, bar_top(b - 1, 63, c)));
        }
    }
}

/// When the last row is done every counter is back at rest.
pub proof fn lemma_slab_rests(p: Plane)
    requires
        p.inside(),
    ensures
        slab_rows(p, 63).fm =~= zeros(),
        slab_rows(p, 63).um == 0,
{
    lemma_slab_at(p, 63, 1);
    let st = slab_rows(p, 63);
    assert(st == slab_at(p, 63, 1));
    assert forall|c: int| 0 <= c < 64 implies st.fm[c] == 0 by {
        if st.fm[c] > 0 {
            assert(p.seen(c, bar_top(63, 1, c)));
        }
    }
}

/// A plane on which nothing is seen yields nothing.
pub proof fn lemma_slab_blank(p: Plane, b: int, a: int)
    requires
        p.blank(),
    ensures
        slab_at(p, b, a) == (Slabs { fm: zeros(), um: 0, out: Seq::empty() }),
    decreases b, a,
{
    if a > 1 {
        lemma_slab_blank(p, b, a - 1);
    } else if b > 1 {
        lemma_slab_blank(p, b - 1, 63);
    }
}

} // verus!
