//! Counting the cells of a grid that have some property, and what a commit
//! does to such counts.

use vstd::prelude::*;
use crate::canvas::has_shape;
use crate::cell::Cell;

verus! {

/// The property of being alive now.
pub open spec fn alive() -> spec_fn(Cell) -> bool {
    |c: Cell| c.curr
}

/// The property of coming to life at the next commit.
pub open spec fn born() -> spec_fn(Cell) -> bool {
    |c: Cell| c.is_born()
}

/// The property of dying at the next commit.
pub open spec fn dying() -> spec_fn(Cell) -> bool {
    |c: Cell| c.is_dying()
}

/// How many cells of `row` have the property `f`.
pub open spec fn count_row(row: Seq<Cell>, f: spec_fn(Cell) -> bool) -> nat
    decreases row.len(),
{
    if row.len() == 0 {
        0
    } else {
        count_row(row.drop_last(), f) + if f(row.last()) { 1nat } else { 0nat }
    }
}

/// How many cells of the grid `g` have the property `f`.
pub open spec fn count_grid(g: Seq<Seq<Cell>>, f: spec_fn(Cell) -> bool) -> nat
    decreases g.len(),
{
    if g.len() == 0 {
        0
    } else {
        count_grid(g.drop_last(), f) + count_row(g.last(), f)
    }
}

/// The row after a commit of each of its cells.
pub open spec fn commit_row(row: Seq<Cell>) -> Seq<Cell> {
    Seq::new(row.len(), |c: int| row[c].committed())
}

/// The grid after a commit of each of its cells.
pub open spec fn commit(g: Seq<Seq<Cell>>) -> Seq<Seq<Cell>> {
    Seq::new(g.len(), |r: int| commit_row(g[r]))
}

/// Whether two grids of one shape agree on which cells are alive now.
pub open spec fn same_living(g1: Seq<Seq<Cell>>, g2: Seq<Seq<Cell>>) -> bool {
    &&& g1.len() == g2.len()
    &&& forall|r: int| 0 <= r < g1.len() ==> (#[trigger] g1[r]).len() == g2[r].len()
    &&& forall|r: int, c: int|
        0 <= r < g1.len() && 0 <= c < g1[r].len() ==> (#[trigger] g1[r][c]).curr == g2[r][c].curr
}

/// One more cell in a row adds one to the count if it has the property.
pub proof fn lemma_count_row_step(row: Seq<Cell>, j: int, f: spec_fn(Cell) -> bool)
    requires
        0 <= j < row.len(),
    ensures
        count_row(row.take(j + 1), f) == count_row(row.take(j), f) + if f(row[j]) {
            1nat
        } else {
            0nat
        },
{
    assert(row.take(j + 1).drop_last() =~= row.take(j));
}

/// One more row in a grid adds that row's count.
pub proof fn lemma_count_grid_step(g: Seq<Seq<Cell>>, i: int, f: spec_fn(Cell) -> bool)
    requires
        0 <= i < g.len(),
    ensures
        count_grid(g.take(i + 1), f) == count_grid(g.take(i), f) + count_row(g[i], f),
{
    assert(g.take(i + 1).drop_last() =~= g.take(i));
}

/// No more cells of a row have a property than the row has cells.
pub proof fn lemma_count_row_bound(row: Seq<Cell>, f: spec_fn(Cell) -> bool)
    ensures
        count_row(row, f) <= row.len(),
    decreases row.len(),
{
    if row.len() > 0 {
        lemma_count_row_bound(row.drop_last(), f);
    }
}

/// A grid none of whose cells is alive counts no living cell.
pub proof fn lemma_count_all_dead(g: Seq<Seq<Cell>>)
    requires
        forall|r: int, c: int| 0 <= r < g.len() && 0 <= c < g[r].len() ==> !(#[trigger] g[r][c]).curr,
    ensures
        count_grid(g, alive()) == 0,
    decreases g.len(),
{
    if g.len() > 0 {
        lemma_count_all_dead(g.drop_last());
        lemma_count_row_all_dead(g.last());
    }
}

/// A row none of whose cells is alive counts no living cell.
pub proof fn lemma_count_row_all_dead(row: Seq<Cell>)
    requires
        forall|c: int| 0 <= c < row.len() ==> !(#[trigger] row[c]).curr,
    ensures
        count_row(row, alive()) == 0,
    decreases row.len(),
{
    if row.len() > 0 {
        lemma_count_row_all_dead(row.drop_last());
    }
}

/// Rows that agree on `f`, cell by cell, have the same count.
pub proof fn lemma_count_row_same(r1: Seq<Cell>, r2: Seq<Cell>, f: spec_fn(Cell) -> bool)
    requires
        r1.len() == r2.len(),
        forall|c: int| 0 <= c < r1.len() ==> f(#[trigger] r1[c]) == f(r2[c]),
    ensures
        count_row(r1, f) == count_row(r2, f),
    decreases r1.len(),
{
    if r1.len() > 0 {
        lemma_count_row_same(r1.drop_last(), r2.drop_last(), f);
    }
}

/// Grids that agree on which cells are alive have as many living cells.
pub proof fn lemma_count_same_living(g1: Seq<Seq<Cell>>, g2: Seq<Seq<Cell>>)
    requires
        same_living(g1, g2),
    ensures
        count_grid(g1, alive()) == count_grid(g2, alive()),
    decreases g1.len(),
{
    if g1.len() > 0 {
        lemma_count_same_living(g1.drop_last(), g2.drop_last());
        lemma_count_row_same(g1.last(), g2.last(), alive());
    }
}

/// In a row, a commit adds the cells that are born to the living and takes
/// the dying from them; and the born are none of the living.
pub proof fn lemma_commit_row(row: Seq<Cell>)
    ensures
        count_row(commit_row(row), alive()) + count_row(row, dying()) == count_row(row, alive())
            + count_row(row, born()),
        count_row(row, alive()) + count_row(row, born()) <= row.len(),
        count_row(row, born()) + count_row(row, dying()) <= row.len(),
    decreases row.len(),
{
    if row.len() > 0 {
        lemma_commit_row(row.drop_last());
        assert(commit_row(row).drop_last() =~= commit_row(row.drop_last()));
    }
}

/// In a grid of `h` rows of `w` cells, a commit adds the cells that are born
/// to the living and takes the dying from them, and none of the three counts
/// exceeds the number of cells.
pub proof fn lemma_commit(g: Seq<Seq<Cell>>, h: int, w: int)
    requires
        has_shape(g, h, w),
    ensures
        count_grid(commit(g), alive()) + count_grid(g, dying()) == count_grid(g, alive())
            + count_grid(g, born()),
        count_grid(g, alive()) + count_grid(g, born()) <= h * w,
        count_grid(g, born()) + count_grid(g, dying()) <= h * w,
    decreases g.len(),
{
    if g.len() > 0 {
        lemma_commit(g.drop_last(), h - 1, w);
        lemma_commit_row(g.last());
        assert(commit(g).drop_last() =~= commit(g.drop_last()));
        assert(h * w == (h - 1) * w + w) by (nonlinear_arith);
    } else {
        assert(h * w == 0) by (nonlinear_arith)
            requires
                h == 0,
        ;
    }
}

} // verus!
