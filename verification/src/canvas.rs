//! A dense two-dimensional grid whose indices wrap around at the edges.

use vstd::prelude::*;
use vstd::arithmetic::div_mod::*;

verus! {

/// The representative in `[0, n)` of `i` modulo `n`, under floor semantics.
pub open spec fn wrap(i: int, n: int) -> int {
    i % n
}

/// Reduces a signed index to the row or column of a ring of `n` places that it
/// falls on: `-1` falls on the last place, `n` on the first.
pub fn mod_idx(i: isize, n: usize) -> (r: usize)
    requires
        n > 0,
    ensures
        r == wrap(i as int, n as int),
        r < n,
{
    if i >= 0 {
        let r: usize = (i as usize) % n;
        r
    } else {
        // `-(i + 1)` is the distance of `i` below `-1`, and never overflows.
        let below: usize = (-(i + 1)) as usize;
        let m: usize = below % n;
        proof {
            lemma_wrap_negative(i as int, n as int);
        }
        n - 1 - m
    }
}

/// Wrapping gives a place on the ring that differs from the index by a whole
/// number of turns around it.
pub proof fn lemma_wrap_represents(i: int, n: int)
    requires
        n > 0,
    ensures
        0 <= wrap(i, n) < n,
        i == (i / n) * n + wrap(i, n),
{
    lemma_mod_bound(i, n);
    lemma_fundamental_div_mod(i, n);
}

/// Wrapping gives the only such place: whatever place `r` on the ring
/// differs from `i` by `k` turns is the one that `i` wraps to.
pub proof fn lemma_wrap_unique(i: int, n: int, k: int, r: int)
    requires
        n > 0,
        0 <= r < n,
        i == k * n + r,
    ensures
        r == wrap(i, n),
{
    lemma_fundamental_div_mod_converse(i, n, k, r);
}

/// For a negative index, counting back from the last place gives the floor
/// remainder.
pub proof fn lemma_wrap_negative(i: int, n: int)
    requires
        i < 0,
        n > 0,
    ensures
        wrap(i, n) == n - 1 - ((-(i + 1)) % n),
{
    let a = -(i + 1);
    let q = a / n;
    let m = a % n;
    lemma_fundamental_div_mod(a, n);
    // i = -a - 1 = -(n*q + m) - 1 = n*(-q - 1) + (n - 1 - m)
    assert(i == n * (-q - 1) + (n - 1 - m)) by (nonlinear_arith)
        requires
            a == n * q + m,
            i == -a - 1,
    ;
    lemma_fundamental_div_mod_converse(i, n, -q - 1, n - 1 - m);
}

/// A colour as red, green and blue.
pub type Color = (u8, u8, u8);

/// What a grid asks of its cells: that they can be copied, and shown.
pub trait Colorize: Copy {
    fn color(&self) -> Color;
}

/// A grid of `hgt` rows and `wth` columns, stored row by row.
pub struct Canvas<T: Colorize> {
    hgt: usize,
    wth: usize,
    tab: Vec<Vec<T>>,
}

impl<T: Colorize> View for Canvas<T> {
    type V = Seq<Seq<T>>;

    closed spec fn view(&self) -> Seq<Seq<T>> {
        Seq::new(self.tab@.len(), |r: int| self.tab@[r]@)
    }
}

/// Whether `g` has `h` rows of `w` cells each.
pub open spec fn has_shape<T>(g: Seq<Seq<T>>, h: int, w: int) -> bool {
    &&& g.len() == h
    &&& forall|r: int| 0 <= r < h ==> (#[trigger] g[r]).len() == w
}

/// The grid `g` with the cell at row `r`, column `c` replaced by `v`.
pub open spec fn put<T>(g: Seq<Seq<T>>, r: int, c: int, v: T) -> Seq<Seq<T>> {
    g.update(r, g[r].update(c, v))
}

impl<T: Colorize> Canvas<T> {
    /// The number of rows.
    pub closed spec fn height(&self) -> int {
        self.hgt as int
    }

    /// The number of columns.
    pub closed spec fn width(&self) -> int {
        self.wth as int
    }

    /// A grid has at least one row and one column, and every row is full.
    pub closed spec fn wf(&self) -> bool {
        &&& self.hgt > 0
        &&& self.wth > 0
        &&& self.tab@.len() == self.hgt
        &&& forall|r: int| 0 <= r < self.hgt ==> (#[trigger] self.tab@[r])@.len() == self.wth
    }

    /// The view of a well-formed grid has the grid's shape.
    pub proof fn lemma_shape(&self)
        requires
            self.wf(),
        ensures
            has_shape(self@, self.height(), self.width()),
            self.height() > 0,
            self.width() > 0,
    {
    }

    /// A grid of `hgt` rows and `wth` columns with `init` in every cell.
    pub fn new(hgt: usize, wth: usize, init: T) -> (g: Self)
        requires
            hgt > 0,
            wth > 0,
        ensures
            g.wf(),
            g.height() == hgt,
            g.width() == wth,
            forall|r: int, c: int| 0 <= r < hgt && 0 <= c < wth ==> #[trigger] g@[r][c] == init,
    {
        let mut tab: Vec<Vec<T>> = Vec::new();
        let mut r: usize = 0;
        while r < hgt
            invariant
                r <= hgt,
                tab@.len() == r,
                forall|k: int| 0 <= k < r ==> (#[trigger] tab@[k])@.len() == wth,
                forall|k: int, c: int| 0 <= k < r && 0 <= c < wth ==> #[trigger] tab@[k]@[c] == init,
            decreases hgt - r,
        {
            let mut row: Vec<T> = Vec::new();
            let mut c: usize = 0;
            while c < wth
                invariant
                    c <= wth,
                    row@.len() == c,
                    forall|k: int| 0 <= k < c ==> #[trigger] row@[k] == init,
                decreases wth - c,
            {
                row.push(init);
                c += 1;
            }
            tab.push(row);
            r += 1;
        }
        Canvas { hgt, wth, tab }
    }

    /// The number of rows.
    pub fn rows(&self) -> (h: usize)
        ensures
            h == self.height(),
    {
        self.hgt
    }

    /// The number of columns.
    pub fn cols(&self) -> (w: usize)
        ensures
            w == self.width(),
    {
        self.wth
    }

    /// The cell at row `idx[0]`, column `idx[1]`, both within the grid.
    pub fn index(&self, idx: [usize; 2]) -> (cell: &T)
        requires
            self.wf(),
            idx@[0] < self.height(),
            idx@[1] < self.width(),
        ensures
            *cell == self@[idx@[0] as int][idx@[1] as int],
    {
        &self.tab[idx[0]][idx[1]]
    }

    /// The cell at row `idx[0]`, column `idx[1]`, both within the grid, to be
    /// changed in place.
    pub fn index_mut(&mut self, idx: [usize; 2]) -> (cell: &mut T)
        requires
            old(self).wf(),
            idx@[0] < old(self).height(),
            idx@[1] < old(self).width(),
        ensures
            *cell == old(self)@[idx@[0] as int][idx@[1] as int],
            final(self).wf(),
            final(self).height() == old(self).height(),
            final(self).width() == old(self).width(),
            final(self)@ == put(old(self)@, idx@[0] as int, idx@[1] as int, *final(cell)),
    {
        &mut self.tab[idx[0]][idx[1]]
    }

    /// The cell that the signed position `(i, j)` falls on once both
    /// coordinates are wrapped around the grid's edges.
    pub fn mod_idx(&mut self, i: isize, j: isize) -> (cell: &mut T)
        requires
            old(self).wf(),
        ensures
            *cell == old(self)@[wrap(i as int, old(self).height())][wrap(j as int, old(self).width())],
            final(self).wf(),
            final(self).height() == old(self).height(),
            final(self).width() == old(self).width(),
            final(self)@ == put(
                old(self)@,
                wrap(i as int, old(self).height()),
                wrap(j as int, old(self).width()),
                *final(cell),
            ),
    {
        let r = self::mod_idx(i, self.hgt);
        let c = self::mod_idx(j, self.wth);
        &mut self.tab[r][c]
    }
}

} // verus!
