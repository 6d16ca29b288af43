//! Runs of cells and of line breaks on a grid that wraps around.
//!
//! A run may be longer than the grid is wide, and a count in a pattern may be
//! larger than any machine integer. Neither matters on a torus: a run that
//! has gone once around its line marks no cell that it has not marked already,
//! and positions that differ by a multiple of the grid's size fall on the
//! same cell. This module proves that, so that a pattern can be placed with
//! counts reduced to less than twice the number of cells.

use vstd::prelude::*;
use vstd::arithmetic::div_mod::*;
use crate::canvas::{has_shape, wrap};
use crate::cell::Cell;
use crate::pattern::{after_breaks, after_run, mark, paint};
use crate::tally::same_living;
use crate::transform::Transform;

verus! {

/// The count `n` reduced for a grid of `p` cells: itself if it is less than
/// `p`, and else the number from `p` up to `2 * p` that leaves the same
/// remainder on division by `p`.
pub open spec fn reduced(n: nat, p: nat) -> nat {
    if n < p {
        n
    } else {
        (p + n % p) as nat
    }
}

/// How many times `p` was taken from `n` to reduce it.
pub open spec fn turns(n: nat, p: nat) -> nat {
    if n < p {
        0
    } else {
        (n / p - 1) as nat
    }
}

/// A reduced count is less than `2 * p`, differs from the count by a
/// multiple of `p`, and is at least `p` if the count is.
pub proof fn lemma_reduced(n: nat, p: nat)
    requires
        p > 0,
    ensures
        reduced(n, p) < 2 * p,
        n == reduced(n, p) + turns(n, p) * p,
        n < p ==> reduced(n, p) == n,
        n >= p ==> reduced(n, p) >= p,
{
    if n >= p {
        lemma_fundamental_div_mod(n as int, p as int);
        let q = n as int / p as int;
        assert(q >= 1) by (nonlinear_arith)
            requires
                n == p * q + n % p,
                0 <= n % p < p,
                n >= p,
                p > 0,
        ;
        assert(n == (p + n % p) + (q - 1) * p) by (nonlinear_arith)
            requires
                n == p * q + n % p,
        ;
    }
}

/// Appending a digit to a count and reducing gives what appending it to the
/// reduced count and reducing gives.
pub proof fn lemma_reduced_digit(n: nat, d: nat, p: nat)
    requires
        p > 0,
    ensures
        reduced(n * 10 + d, p) == reduced(reduced(n, p) * 10 + d, p),
{
    if n >= p {
        lemma_reduced(n, p);
        let r = reduced(n, p);
        let q = turns(n, p);
        assert(n * 10 + d == p * (q * 10) + (r * 10 + d)) by (nonlinear_arith)
            requires
                n == r + q * p,
        ;
        lemma_mod_multiples_vanish((q * 10) as int, (r * 10 + d) as int, p as int);
    }
}

/// A position moved by a multiple of the ring's size falls on the same place.
pub proof fn lemma_wrap_multiple(a: int, k: int, n: int)
    requires
        n > 0,
    ensures
        wrap(a + k * n, n) == wrap(a, n),
{
    lemma_mod_multiples_vanish(k, a, n);
    assert(n * k + a == a + k * n) by (nonlinear_arith);
}

/// Positions that fall on the same place still do after the same move.
pub proof fn lemma_wrap_offset(a: int, b: int, d: int, n: int)
    requires
        n > 0,
        wrap(a, n) == wrap(b, n),
    ensures
        wrap(a + d, n) == wrap(b + d, n),
{
    lemma_add_mod_noop(a, d, n);
    lemma_add_mod_noop(b, d, n);
}

/// A place on the ring falls on itself.
pub proof fn lemma_wrap_fixed(a: int, n: int)
    requires
        0 <= a < n,
    ensures
        wrap(a, n) == a,
{
    lemma_small_mod(a as nat, n as nat);
}

/// The cell of `g` that `p` falls on.
pub open spec fn cell_at(g: Seq<Seq<Cell>>, p: (int, int)) -> Cell {
    g[wrap(p.0, g.len() as int)][wrap(p.1, g[0].len() as int)]
}

/// The number of cells on a line of a pattern placed under `t`, on a grid of
/// `h` rows and `w` columns.
pub open spec fn line_length(t: Transform, h: int, w: int) -> int {
    if t.row_major() {
        w
    } else {
        h
    }
}

/// Marking a cell keeps the grid's shape and what is alive now, and marks
/// that cell and no other.
pub proof fn lemma_mark(g: Seq<Seq<Cell>>, h: int, w: int, i: int, j: int, v: bool)
    requires
        h > 0,
        w > 0,
        has_shape(g, h, w),
    ensures
        has_shape(mark(g, i, j, v), h, w),
        same_living(mark(g, i, j, v), g),
        cell_at(mark(g, i, j, v), (i, j)).succ == v,
        forall|r: int, c: int|
            0 <= r < h && 0 <= c < w && !(r == wrap(i, h) && c == wrap(j, w)) ==> #[trigger] mark(
                g,
                i,
                j,
                v,
            )[r][c] == g[r][c],
        cell_at(g, (i, j)).succ == v ==> mark(g, i, j, v) == g,
{
    if cell_at(g, (i, j)).succ == v {
        assert(mark(g, i, j, v) =~~= g);
    }
}

/// A run keeps the grid's shape and what is alive now, and every cell of the
/// run is marked.
pub proof fn lemma_paint(
    g: Seq<Seq<Cell>>,
    h: int,
    w: int,
    t: Transform,
    i: int,
    j: int,
    n: nat,
    v: bool,
)
    requires
        h > 0,
        w > 0,
        has_shape(g, h, w),
    ensures
        has_shape(paint(g, t, i, j, n, v), h, w),
        same_living(paint(g, t, i, j, n, v), g),
        forall|k: nat| k < n ==> cell_at(paint(g, t, i, j, n, v), #[trigger] after_run(t, i, j, k)).succ == v,
    decreases n,
{
    if n > 0 {
        let m = (n - 1) as nat;
        let before = paint(g, t, i, j, m, v);
        let p = after_run(t, i, j, m);
        lemma_paint(g, h, w, t, i, j, m, v);
        lemma_mark(before, h, w, p.0, p.1, v);
        let now = paint(g, t, i, j, n, v);
        assert(now == mark(before, p.0, p.1, v));
        assert forall|k: nat| k < n implies cell_at(now, #[trigger] after_run(t, i, j, k)).succ
            == v by {
            if k < m {
                assert(cell_at(before, after_run(t, i, j, k)).succ == v);
            }
        }
    }
}

/// A run from another position that falls on the same cell is the same run.
pub proof fn lemma_paint_wrapped(
    g: Seq<Seq<Cell>>,
    h: int,
    w: int,
    t: Transform,
    i: int,
    j: int,
    i2: int,
    j2: int,
    n: nat,
    v: bool,
)
    requires
        h > 0,
        w > 0,
        has_shape(g, h, w),
        wrap(i, h) == wrap(i2, h),
        wrap(j, w) == wrap(j2, w),
    ensures
        paint(g, t, i, j, n, v) == paint(g, t, i2, j2, n, v),
    decreases n,
{
    if n > 0 {
        let m = (n - 1) as nat;
        lemma_paint_wrapped(g, h, w, t, i, j, i2, j2, m, v);
        lemma_paint(g, h, w, t, i, j, m, v);
        lemma_wrap_offset(i, i2, m * t.step().0, h);
        lemma_wrap_offset(j, j2, m * t.step().1, w);
    }
}

/// The cell one line's length further along a line is the same cell.
pub proof fn lemma_around(t: Transform, h: int, w: int, i: int, j: int, k: nat)
    requires
        h > 0,
        w > 0,
    ensures
        wrap(after_run(t, i, j, (k + line_length(t, h, w)) as nat).0, h) == wrap(
            after_run(t, i, j, k).0,
            h,
        ),
        wrap(after_run(t, i, j, (k + line_length(t, h, w)) as nat).1, w) == wrap(
            after_run(t, i, j, k).1,
            w,
        ),
{
    let di = t.step().0;
    let dj = t.step().1;
    if t.row_major() {
        assert(j + (k + w) * dj == (j + k * dj) + dj * w) by (nonlinear_arith);
        lemma_wrap_multiple(j + k * dj, dj, w);
        assert(i + (k + w) * di == i + k * di) by (nonlinear_arith)
            requires
                di == 0,
        ;
    } else {
        assert(i + (k + h) * di == (i + k * di) + di * h) by (nonlinear_arith);
        lemma_wrap_multiple(i + k * di, di, h);
        assert(j + (k + h) * dj == j + k * dj) by (nonlinear_arith)
            requires
                dj == 0,
        ;
    }
}

/// A run that has gone around its line marks nothing new by going on.
pub proof fn lemma_paint_full(
    g: Seq<Seq<Cell>>,
    h: int,
    w: int,
    t: Transform,
    i: int,
    j: int,
    n: nat,
    v: bool,
)
    requires
        h > 0,
        w > 0,
        has_shape(g, h, w),
        n >= line_length(t, h, w),
    ensures
        paint(g, t, i, j, n, v) == paint(g, t, i, j, line_length(t, h, w) as nat, v),
    decreases n,
{
    let len = line_length(t, h, w) as nat;
    if n > len {
        let m = (n - 1) as nat;
        let k = (m - len) as nat;
        lemma_paint_full(g, h, w, t, i, j, m, v);
        lemma_paint(g, h, w, t, i, j, m, v);
        let before = paint(g, t, i, j, m, v);
        let p = after_run(t, i, j, m);
        let q = after_run(t, i, j, k);
        lemma_around(t, h, w, i, j, k);
        assert(cell_at(before, after_run(t, i, j, k)).succ == v);
        assert(cell_at(before, p) == cell_at(before, q));
        lemma_mark(before, h, w, p.0, p.1, v);
    }
}

/// The position after a run, wrapped, is the same for counts that differ by
/// a multiple of the number of cells.
pub proof fn lemma_after_run_turns(t: Transform, h: int, w: int, i: int, j: int, r: nat, q: nat)
    requires
        h > 0,
        w > 0,
    ensures
        wrap(after_run(t, i, j, r + q * (h * w) as nat).0, h) == wrap(after_run(t, i, j, r).0, h),
        wrap(after_run(t, i, j, r + q * (h * w) as nat).1, w) == wrap(after_run(t, i, j, r).1, w),
{
    let di = t.step().0;
    let dj = t.step().1;
    assert(h * w > 0) by (nonlinear_arith)
        requires
            h > 0,
            w > 0,
    ;
    assert(i + (r + q * (h * w)) * di == (i + r * di) + (q * w * di) * h) by (nonlinear_arith);
    assert(j + (r + q * (h * w)) * dj == (j + r * dj) + (q * h * dj) * w) by (nonlinear_arith);
    lemma_wrap_multiple(i + r * di, q * w * di, h);
    lemma_wrap_multiple(j + r * dj, q * h * dj, w);
}

/// A run of a reduced count, from the wrapped position, marks the grid as
/// the run of the full count does, and ends on the same cell.
pub proof fn lemma_run_reduced(
    g: Seq<Seq<Cell>>,
    h: int,
    w: int,
    t: Transform,
    i: int,
    j: int,
    n: nat,
    v: bool,
)
    requires
        h > 0,
        w > 0,
        has_shape(g, h, w),
    ensures
        paint(g, t, wrap(i, h), wrap(j, w), reduced(n, (h * w) as nat), v) == paint(
            g,
            t,
            i,
            j,
            n,
            v,
        ),
        wrap(after_run(t, wrap(i, h), wrap(j, w), reduced(n, (h * w) as nat)).0, h) == wrap(
            after_run(t, i, j, n).0,
            h,
        ),
        wrap(after_run(t, wrap(i, h), wrap(j, w), reduced(n, (h * w) as nat)).1, w) == wrap(
            after_run(t, i, j, n).1,
            w,
        ),
{
    assert(h * w >= h && h * w >= w) by (nonlinear_arith)
        requires
            h > 0,
            w > 0,
    ;
    let p = (h * w) as nat;
    let r = reduced(n, p);
    lemma_reduced(n, p);
    lemma_mod_twice(i, h);
    lemma_mod_twice(j, w);
    lemma_paint_wrapped(g, h, w, t, wrap(i, h), wrap(j, w), i, j, r, v);
    if n >= p {
        lemma_paint_full(g, h, w, t, i, j, n, v);
        lemma_paint_full(g, h, w, t, i, j, r, v);
    }
    lemma_after_run_turns(t, h, w, i, j, r, turns(n, p));
    lemma_wrap_offset(wrap(i, h), i, r * t.step().0, h);
    lemma_wrap_offset(wrap(j, w), j, r * t.step().1, w);
}

/// Line breaks of a reduced count, from the wrapped position and for the
/// wrapped origin, end on the same cell as those of the full count.
pub proof fn lemma_breaks_reduced(
    t: Transform,
    h: int,
    w: int,
    i: int,
    j: int,
    i0: int,
    j0: int,
    n: nat,
)
    requires
        h > 0,
        w > 0,
        n > 0,
    ensures
        reduced(n, (h * w) as nat) > 0,
        wrap(
            after_breaks(t, wrap(i, h), wrap(j, w), wrap(i0, h), wrap(j0, w), reduced(n, (h * w) as nat)).0,
            h,
        ) == wrap(after_breaks(t, i, j, i0, j0, n).0, h),
        wrap(
            after_breaks(t, wrap(i, h), wrap(j, w), wrap(i0, h), wrap(j0, w), reduced(n, (h * w) as nat)).1,
            w,
        ) == wrap(after_breaks(t, i, j, i0, j0, n).1, w),
{
    assert(h * w > 0) by (nonlinear_arith)
        requires
            h > 0,
            w > 0,
    ;
    let p = (h * w) as nat;
    let r = reduced(n, p);
    let q = turns(n, p);
    lemma_reduced(n, p);
    lemma_mod_twice(i, h);
    lemma_mod_twice(j, w);
    lemma_mod_twice(i0, h);
    lemma_mod_twice(j0, w);
    let li = t.line_step().0;
    let lj = t.line_step().1;
    if t.row_major() {
        assert(i + n * li == (i + r * li) + (q * w * li) * h) by (nonlinear_arith)
            requires
                n == r + q * (h * w),
        ;
        lemma_wrap_multiple(i + r * li, q * w * li, h);
        lemma_wrap_offset(wrap(i, h), i, r * li, h);
    } else {
        assert(j + n * lj == (j + r * lj) + (q * h * lj) * w) by (nonlinear_arith)
            requires
                n == r + q * (h * w),
        ;
        lemma_wrap_multiple(j + r * lj, q * h * lj, w);
        lemma_wrap_offset(wrap(j, w), j, r * lj, w);
    }
}

} // verus!
