//! The automaton: a grid of cells, a rule, and the step from one generation
//! to the next.

use vstd::prelude::*;
use vstd::arithmetic::div_mod::*;
use vstd::string::StringSliceAdditionalSpecFns;
use crate::canvas::{has_shape, put, wrap, Canvas};
use crate::cell::Cell;
use crate::error::LifeError;
use crate::pattern::{announced, extension, load, outcome, scan, FileFormat, Scan};
use crate::rules::{is_rule, Rules};
use crate::transform::Transform;
use crate::tally::{
    alive, born, commit, commit_row, count_grid, count_row, dying, lemma_commit,
    lemma_count_all_dead, lemma_count_grid_step, lemma_count_row_step, lemma_count_same_living,
    same_living,
};

verus! {

/// What an automaton is at one moment: its rule, its cells, how many of them
/// are alive, and how many were born and died at the last commit.
pub struct LifeState {
    pub rules: Rules,
    pub grid: Seq<Seq<Cell>>,
    pub alive: nat,
    pub born: nat,
    pub died: nat,
}

/// One if the cell that `(i, j)` falls on, wrapped around the edges of `g`, is
/// alive, and zero if not.
pub open spec fn living_at(g: Seq<Seq<Cell>>, i: int, j: int) -> int {
    if g[wrap(i, g.len() as int)][wrap(j, g[0].len() as int)].curr {
        1
    } else {
        0
    }
}

/// How many of the eight cells around `(i, j)` are alive. On a grid with
/// fewer than three rows or columns one cell is counted once for each way in
/// which it is a neighbour.
pub open spec fn neighbours(g: Seq<Seq<Cell>>, i: int, j: int) -> int {
    living_at(g, i - 1, j) + living_at(g, i - 1, j - 1) + living_at(g, i - 1, j + 1) + living_at(
        g,
        i + 1,
        j,
    ) + living_at(g, i + 1, j - 1) + living_at(g, i + 1, j + 1) + living_at(g, i, j - 1)
        + living_at(g, i, j + 1)
}

/// The grid in which every cell awaits the state that `rules` gives it for
/// its own state and the number of its living neighbours in `g`.
pub open spec fn staged(g: Seq<Seq<Cell>>, rules: Rules) -> Seq<Seq<Cell>> {
    Seq::new(
        g.len(),
        |r: int|
            Seq::new(
                g[r].len(),
                |c: int|
                    Cell { curr: g[r][c].curr, succ: rules.lives(g[r][c].curr, neighbours(g, r, c)) },
            ),
    )
}

/// The generation after `g` under `rules`: every cell takes its new state at
/// once, from the states of `g` alone.
pub open spec fn evolve(g: Seq<Seq<Cell>>, rules: Rules) -> Seq<Seq<Cell>> {
    commit(staged(g, rules))
}

/// The scan of the whole of `text` onto the grid `g`.
pub open spec fn placed(
    g: Seq<Seq<Cell>>,
    text: Seq<u8>,
    format: FileFormat,
    i0: int,
    j0: int,
    t: Transform,
) -> Scan {
    scan(format, t, i0, j0, g, text, text.len() as int)
}

/// The automaton `s` after the scan `p` of a pattern onto its grid. A scan
/// that ended well is committed, and the counts follow; one that stopped at
/// a byte leaves its marks and nothing else.
pub open spec fn added(s: LifeState, p: Scan) -> LifeState {
    if outcome(p) is Ok {
        LifeState {
            rules: s.rules,
            grid: commit(p.grid),
            alive: (s.alive + count_grid(p.grid, born()) - count_grid(p.grid, dying())) as nat,
            born: count_grid(p.grid, born()),
            died: count_grid(p.grid, dying()),
        }
    } else {
        LifeState { grid: p.grid, ..s }
    }
}

/// A life-like automaton on a grid that wraps around at its edges.
pub struct LifeLike {
    rules: Rules,
    field: Canvas<Cell>,
    hgt: usize,
    wth: usize,
    cnt: usize,
    born: usize,
    dead: usize,
}

impl View for LifeLike {
    type V = LifeState;

    closed spec fn view(&self) -> LifeState {
        LifeState {
            rules: self.rules,
            grid: self.field@,
            alive: self.cnt as nat,
            born: self.born as nat,
            died: self.dead as nat,
        }
    }
}

impl LifeLike {
    /// The number of rows.
    pub closed spec fn height(&self) -> int {
        self.hgt as int
    }

    /// The number of columns.
    pub closed spec fn width(&self) -> int {
        self.wth as int
    }

    /// The grid is well-formed and of the stated size, its cells can be
    /// counted in an `isize`, and the count of living cells is what a scan of
    /// the grid would find.
    pub closed spec fn wf(&self) -> bool {
        &&& self.field.wf()
        &&& self.field.height() == self.hgt
        &&& self.field.width() == self.wth
        &&& self.hgt * self.wth <= isize::MAX
        &&& self.cnt == count_grid(self.field@, alive())
    }

    /// The count of living cells that a well-formed automaton keeps is the
    /// number that a scan of its grid finds. Every operation leaves the
    /// automaton well-formed, so this holds after any sequence of marks,
    /// commits, generations and patterns.
    pub proof fn lemma_wf(&self)
        requires
            self.wf(),
        ensures
            has_shape(self@.grid, self.height(), self.width()),
            0 < self.height() <= isize::MAX,
            0 < self.width() <= isize::MAX,
            self.height() * self.width() <= isize::MAX,
            self@.alive == count_grid(self@.grid, alive()),
    {
        self.field.lemma_shape();
        let h = self.hgt as int;
        let w = self.wth as int;
        assert(h <= h * w && w <= h * w) by (nonlinear_arith)
            requires
                h > 0,
                w > 0,
        ;
    }

    /// An automaton of `hgt` rows and `wth` columns under the rule that
    /// `rules` spells, with every cell dead. The rule is fixed from here on.
    pub fn new(hgt: usize, wth: usize, rules: &str) -> (r: Result<Self, LifeError>)
        requires
            hgt > 0,
            wth > 0,
            hgt * wth <= isize::MAX,
        ensures
            match r {
                Ok(life) => {
                    &&& life.wf()
                    &&& life.height() == hgt
                    &&& life.width() == wth
                    &&& exists|sep: int|
                        #[trigger] is_rule(rules.spec_bytes(), sep) && life@.rules.spelled_by(
                            rules.spec_bytes(),
                            sep,
                        )
                    &&& forall|i: int, j: int|
                        0 <= i < hgt && 0 <= j < wth ==> #[trigger] life@.grid[i][j] == (Cell {
                            curr: false,
                            succ: false,
                        })
                    &&& life@.alive == 0
                    &&& life@.born == 0
                    &&& life@.died == 0
                },
                Err(e) => e == LifeError::RuleFormat && forall|sep: int|
                    !#[trigger] is_rule(rules.spec_bytes(), sep),
            },
    {
        match Rules::new(rules) {
            Ok(parsed) => {
                let field = Canvas::new(hgt, wth, Cell::new());
                proof {
                    field.lemma_shape();
                    lemma_count_all_dead(field@);
                }
                Ok(Self { rules: parsed, field, hgt, wth, cnt: 0, born: 0, dead: 0 })
            },
            Err(e) => Err(e),
        }
    }

    /// The row and column next to `(i, j)` in the direction `(mvi, mvj)`,
    /// each of which is -1, 0 or 1. Stepping off an edge comes back in at the
    /// opposite one.
    pub fn index_move(&self, i: usize, j: usize, mvi: isize, mvj: isize) -> (r: [usize; 2])
        requires
            self.wf(),
            i < self.height(),
            j < self.width(),
            -1 <= mvi <= 1,
            -1 <= mvj <= 1,
        ensures
            r@[0] == wrap(i + mvi, self.height()),
            r@[1] == wrap(j + mvj, self.width()),
            r@[0] < self.height(),
            r@[1] < self.width(),
    {
        let ni = step_on_ring(i, mvi, self.hgt);
        let nj = step_on_ring(j, mvj, self.wth);
        [ni, nj]
    }

    /// One if the neighbour of `(i, j)` in the direction `(mvi, mvj)` is
    /// alive now, zero if not.
    fn look(&self, i: usize, j: usize, mvi: isize, mvj: isize) -> (n: usize)
        requires
            self.wf(),
            i < self.height(),
            j < self.width(),
            -1 <= mvi <= 1,
            -1 <= mvj <= 1,
        ensures
            n == living_at(self@.grid, i + mvi, j + mvj),
    {
        proof {
            self.field.lemma_shape();
        }
        if self.field.index(self.index_move(i, j, mvi, mvj)).is_alive() {
            1
        } else {
            0
        }
    }

    /// How many of the eight cells around `(i, j)` are alive now.
    pub fn count_neigh(&self, i: usize, j: usize) -> (n: usize)
        requires
            self.wf(),
            i < self.height(),
            j < self.width(),
        ensures
            n == neighbours(self@.grid, i as int, j as int),
            n <= 8,
    {
        let mut res: usize = 0;
        res += self.look(i, j, -1, 0);
        res += self.look(i, j, -1, -1);
        res += self.look(i, j, -1, 1);
        res += self.look(i, j, 1, 0);
        res += self.look(i, j, 1, -1);
        res += self.look(i, j, 1, 1);
        res += self.look(i, j, 0, -1);
        res += self.look(i, j, 0, 1);
        res
    }

    /// Commits every cell: each takes the state it was marked for. Counts
    /// the cells that this brought to life and those that it killed, and
    /// brings the count of living cells up to date.
    pub fn update(&mut self)
        requires
            old(self).wf(),
        ensures
            final(self).wf(),
            final(self).height() == old(self).height(),
            final(self).width() == old(self).width(),
            final(self)@.rules == old(self)@.rules,
            final(self)@.grid == commit(old(self)@.grid),
            final(self)@.born == count_grid(old(self)@.grid, born()),
            final(self)@.died == count_grid(old(self)@.grid, dying()),
            final(self)@.alive == old(self)@.alive + final(self)@.born - final(self)@.died,
    {
        let ghost g0 = self.field@;
        let ghost h = self.hgt as int;
        let ghost w = self.wth as int;
        proof {
            self.field.lemma_shape();
        }
        self.born = 0;
        self.dead = 0;
        let mut i: usize = 0;
        while i < self.hgt
            invariant
                has_shape(g0, h, w),
                has_shape(self.field@, h, w),
                h > 0,
                w > 0,
                h == self.hgt == old(self).hgt,
                w == self.wth == old(self).wth,
                h * w <= isize::MAX,
                self.rules == old(self).rules,
                self.cnt == old(self).cnt,
                self.field.wf(),
                self.field.height() == h,
                self.field.width() == w,
                i <= h,
                forall|r: int| 0 <= r < i ==> #[trigger] self.field@[r] == commit_row(g0[r]),
                forall|r: int| i <= r < h ==> #[trigger] self.field@[r] == g0[r],
                self.born == count_grid(g0.take(i as int), born()),
                self.dead == count_grid(g0.take(i as int), dying()),
            decreases h - i,
        {
            let mut j: usize = 0;
            proof {
                lemma_commit(g0.take(i as int), i as int, w);
                assert(i * w + w <= h * w) by (nonlinear_arith)
                    requires
                        0 <= i < h,
                        w > 0,
                ;
            }
            while j < self.wth
                invariant
                    has_shape(g0, h, w),
                    has_shape(self.field@, h, w),
                    h > 0,
                    w > 0,
                    h == self.hgt == old(self).hgt,
                    w == self.wth == old(self).wth,
                    h * w <= isize::MAX,
                    self.rules == old(self).rules,
                    self.cnt == old(self).cnt,
                    self.field.wf(),
                    self.field.height() == h,
                    self.field.width() == w,
                    i < h,
                    j <= w,
                    i * w + w <= h * w,
                    count_grid(g0.take(i as int), born()) + count_grid(g0.take(i as int), dying())
                        <= i * w,
                    forall|r: int| 0 <= r < i ==> #[trigger] self.field@[r] == commit_row(g0[r]),
                    forall|r: int| i < r < h ==> #[trigger] self.field@[r] == g0[r],
                    forall|c: int|
                        0 <= c < j ==> #[trigger] self.field@[i as int][c] == g0[i as int][c].committed(),
                    forall|c: int| j <= c < w ==> #[trigger] self.field@[i as int][c] == g0[i as int][c],
                    self.born == count_grid(g0.take(i as int), born()) + count_row(
                        g0[i as int].take(j as int),
                        born(),
                    ),
                    self.dead == count_grid(g0.take(i as int), dying()) + count_row(
                        g0[i as int].take(j as int),
                        dying(),
                    ),
                decreases w - j,
            {
                proof {
                    crate::tally::lemma_commit_row(g0[i as int].take(j as int));
                    lemma_count_row_step(g0[i as int], j as int, born());
                    lemma_count_row_step(g0[i as int], j as int, dying());
                }
                self.field.index_mut([i, j]).update(&mut self.born, &mut self.dead);
                j += 1;
            }
            proof {
                assert(g0[i as int].take(w) =~= g0[i as int]);
                lemma_count_grid_step(g0, i as int, born());
                lemma_count_grid_step(g0, i as int, dying());
            }
            i += 1;
        }
        proof {
            assert(g0.take(h) =~= g0);
            assert(self.field@ =~= commit(g0));
            lemma_commit(g0, h, w);
        }
        self.cnt += self.born;
        self.cnt -= self.dead;
    }

    /// Brings the automaton to its next generation. Every cell is marked
    /// with the state that the rule gives it for the number of neighbours
    /// alive now, and only then are all cells committed: no cell's new state
    /// depends on the new state of another.
    pub fn next(&mut self)
        requires
            old(self).wf(),
        ensures
            final(self).wf(),
            final(self).height() == old(self).height(),
            final(self).width() == old(self).width(),
            final(self)@.rules == old(self)@.rules,
            final(self)@.grid == evolve(old(self)@.grid, old(self)@.rules),
            final(self)@.born == count_grid(staged(old(self)@.grid, old(self)@.rules), born()),
            final(self)@.died == count_grid(staged(old(self)@.grid, old(self)@.rules), dying()),
            final(self)@.alive == old(self)@.alive + final(self)@.born - final(self)@.died,
    {
        let ghost g0 = self.field@;
        let ghost h = self.hgt as int;
        let ghost w = self.wth as int;
        let ghost plan = staged(g0, self.rules);
        proof {
            self.field.lemma_shape();
        }
        let mut i: usize = 0;
        while i < self.hgt
            invariant
                has_shape(g0, h, w),
                has_shape(self.field@, h, w),
                h > 0,
                w > 0,
                h == self.hgt == old(self).hgt,
                w == self.wth == old(self).wth,
                self.rules == old(self).rules,
                self.cnt == old(self).cnt,
                self.wf(),
                plan == staged(g0, self.rules),
                i <= h,
                same_living(self.field@, g0),
                forall|r: int, c: int|
                    0 <= r < i && 0 <= c < w ==> #[trigger] self.field@[r][c] == plan[r][c],
            decreases h - i,
        {
            let mut j: usize = 0;
            while j < self.wth
                invariant
                    has_shape(g0, h, w),
                    has_shape(self.field@, h, w),
                    h > 0,
                    w > 0,
                    h == self.hgt == old(self).hgt,
                    w == self.wth == old(self).wth,
                    self.rules == old(self).rules,
                    self.cnt == old(self).cnt,
                    self.wf(),
                    plan == staged(g0, self.rules),
                    i < h,
                    j <= w,
                    same_living(self.field@, g0),
                    forall|r: int, c: int|
                        0 <= r < i && 0 <= c < w ==> #[trigger] self.field@[r][c] == plan[r][c],
                    forall|c: int| 0 <= c < j ==> #[trigger] self.field@[i as int][c] == plan[i as int][c],
                decreases w - j,
            {
                let ghost before = self.field@;
                let neigh = self.count_neigh(i, j);
                proof {
                    lemma_neighbours_same_living(before, g0, h, w, i as int, j as int);
                }
                let cell = self.field.index_mut([i, j]);
                if cell.is_alive() {
                    if self.rules.s[neigh] {
                        cell.birth();
                    } else {
                        cell.kill();
                    }
                } else if self.rules.b[neigh] {
                    cell.birth();
                } else {
                    cell.kill();
                }
                proof {
                    lemma_count_same_living(self.field@, before);
                }
                j += 1;
            }
            i += 1;
        }
        proof {
            assert(self.field@ =~~= plan);
        }
        self.update();
    }

    /// Marks the cell that `(i, j)` falls on, wrapped around the edges, to be
    /// alive after the next commit. What is alive now does not change.
    pub fn birth(&mut self, i: isize, j: isize)
        requires
            old(self).wf(),
        ensures
            final(self).wf(),
            final(self).height() == old(self).height(),
            final(self).width() == old(self).width(),
            final(self)@ == (LifeState {
                grid: put(
                    old(self)@.grid,
                    wrap(i as int, old(self).height()),
                    wrap(j as int, old(self).width()),
                    Cell {
                        curr: old(self)@.grid[wrap(i as int, old(self).height())][wrap(
                            j as int,
                            old(self).width(),
                        )].curr,
                        succ: true,
                    },
                ),
                ..old(self)@
            }),
    {
        let ghost before = self.field@;
        proof {
            self.field.lemma_shape();
        }
        self.field.mod_idx(i, j).birth();
        proof {
            lemma_count_same_living(self.field@, before);
        }
    }

    /// Marks the cell that `(i, j)` falls on, wrapped around the edges, to be
    /// dead after the next commit. What is alive now does not change.
    pub fn kill(&mut self, i: isize, j: isize)
        requires
            old(self).wf(),
        ensures
            final(self).wf(),
            final(self).height() == old(self).height(),
            final(self).width() == old(self).width(),
            final(self)@ == (LifeState {
                grid: put(
                    old(self)@.grid,
                    wrap(i as int, old(self).height()),
                    wrap(j as int, old(self).width()),
                    Cell {
                        curr: old(self)@.grid[wrap(i as int, old(self).height())][wrap(
                            j as int,
                            old(self).width(),
                        )].curr,
                        succ: false,
                    },
                ),
                ..old(self)@
            }),
    {
        let ghost before = self.field@;
        proof {
            self.field.lemma_shape();
        }
        self.field.mod_idx(i, j).kill();
        proof {
            lemma_count_same_living(self.field@, before);
        }
    }

    /// Places the pattern that `text` holds in `format`, with its first cell
    /// at `(i0, j0)` and laid out under `t`, and commits it.
    ///
    /// If the scan of the text stops at a byte that the format has no
    /// meaning for, nothing is committed: the cells read before that byte
    /// stay marked, what is alive stays alive, and the counts stay.
    pub fn add_pattern(
        &mut self,
        text: &str,
        format: FileFormat,
        i0: isize,
        j0: isize,
        t: Transform,
    ) -> (r: Result<(), LifeError>)
        requires
            old(self).wf(),
        ensures
            final(self).wf(),
            final(self).height() == old(self).height(),
            final(self).width() == old(self).width(),
            r == outcome(placed(old(self)@.grid, text.spec_bytes(), format, i0 as int, j0 as int, t)),
            final(self)@ == added(
                old(self)@,
                placed(old(self)@.grid, text.spec_bytes(), format, i0 as int, j0 as int, t),
            ),
    {
        let ghost before = self.field@;
        match load(text, format, i0, j0, t, &mut self.field) {
            Ok(()) => {
                proof {
                    lemma_count_same_living(self.field@, before);
                }
                self.update();
                Ok(())
            },
            Err(e) => {
                proof {
                    lemma_count_same_living(self.field@, before);
                }
                Err(e)
            },
        }
    }

    /// Places the pattern that `text` holds, in the format that the
    /// extension of the file name `file` announces, as `add_pattern` does.
    /// A name with another extension is refused, and nothing changes.
    pub fn add_from_text(&mut self, file: &str, text: &str, i0: isize, j0: isize, t: Transform) -> (r:
        Result<(), LifeError>)
        requires
            old(self).wf(),
        ensures
            final(self).wf(),
            final(self).height() == old(self).height(),
            final(self).width() == old(self).width(),
            match announced(extension(file.spec_bytes())) {
                Some(format) => {
                    &&& r == outcome(
                        placed(old(self)@.grid, text.spec_bytes(), format, i0 as int, j0 as int, t),
                    )
                    &&& final(self)@ == added(
                        old(self)@,
                        placed(old(self)@.grid, text.spec_bytes(), format, i0 as int, j0 as int, t),
                    )
                },
                None => r == Err::<(), LifeError>(LifeError::UnsupportedFormat) && final(self)@ == old(
                    self,
                )@,
            },
    {
        match FileFormat::of_name(file) {
            Ok(format) => self.add_pattern(text, format, i0, j0, t),
            Err(e) => Err(e),
        }
    }

    /// Counts the living cells by looking at every cell. The count that the
    /// automaton keeps is always this number.
    pub fn rescan(&self) -> (n: usize)
        requires
            self.wf(),
        ensures
            n == count_grid(self@.grid, alive()),
            n == self@.alive,
    {
        let ghost g = self.field@;
        let ghost h = self.hgt as int;
        let ghost w = self.wth as int;
        proof {
            self.field.lemma_shape();
        }
        let mut n: usize = 0;
        let mut i: usize = 0;
        while i < self.hgt
            invariant
                self.wf(),
                g == self.field@,
                has_shape(g, h, w),
                h == self.hgt,
                w == self.wth,
                i <= h,
                n == count_grid(g.take(i as int), alive()),
            decreases h - i,
        {
            let mut j: usize = 0;
            while j < self.wth
                invariant
                    self.wf(),
                    g == self.field@,
                    has_shape(g, h, w),
                    h == self.hgt,
                    w == self.wth,
                    i < h,
                    j <= w,
                    n == count_grid(g.take(i as int), alive()) + count_row(
                        g[i as int].take(j as int),
                        alive(),
                    ),
                decreases w - j,
            {
                proof {
                    lemma_count_row_step(g[i as int], j as int, alive());
                    lemma_count_prefix_bound(g, h, w, i as int, j as int + 1);
                }
                if self.field.index([i, j]).is_alive() {
                    n += 1;
                }
                j += 1;
            }
            proof {
                assert(g[i as int].take(w) =~= g[i as int]);
                lemma_count_grid_step(g, i as int, alive());
            }
            i += 1;
        }
        proof {
            assert(g.take(h) =~= g);
        }
        n
    }

    /// The number of rows.
    pub fn rows(&self) -> (h: usize)
        ensures
            h == self.height(),
    {
        self.hgt
    }

    /// The number of columns.
    pub fn cols(&self) -> (w: usize)
        ensures
            w == self.width(),
    {
        self.wth
    }

    /// The cells, to be read.
    pub fn field(&self) -> (f: &Canvas<Cell>)
        requires
            self.wf(),
        ensures
            f.wf(),
            f.height() == self.height(),
            f.width() == self.width(),
            f@ == self@.grid,
    {
        &self.field
    }

    /// The rule.
    pub fn rules(&self) -> (r: Rules)
        ensures
            r == self@.rules,
    {
        self.rules
    }

    /// How many cells are alive now.
    pub fn alive(&self) -> (n: usize)
        ensures
            n == self@.alive,
    {
        self.cnt
    }

    /// How many cells the last commit brought to life.
    pub fn born(&self) -> (n: usize)
        ensures
            n == self@.born,
    {
        self.born
    }

    /// How many cells the last commit killed.
    pub fn dead(&self) -> (n: usize)
        ensures
            n == self@.died,
    {
        self.dead
    }
}

/// In the next generation a cell is alive exactly if the rule says so for
/// what the cell is now and for the number of its neighbours alive now, and
/// it awaits no other state.
pub proof fn lemma_evolve_cell(g: Seq<Seq<Cell>>, h: int, w: int, rules: Rules, r: int, c: int)
    requires
        has_shape(g, h, w),
        0 <= r < h,
        0 <= c < w,
    ensures
        has_shape(evolve(g, rules), h, w),
        evolve(g, rules)[r][c].curr == rules.lives(g[r][c].curr, neighbours(g, r, c)),
        evolve(g, rules)[r][c].succ == evolve(g, rules)[r][c].curr,
{
}

/// The next generation depends on what is alive now and on nothing else:
/// marks that were made and not committed do not count.
pub proof fn lemma_evolve_reads_the_living(
    g1: Seq<Seq<Cell>>,
    g2: Seq<Seq<Cell>>,
    h: int,
    w: int,
    rules: Rules,
)
    requires
        h > 0,
        w > 0,
        has_shape(g1, h, w),
        has_shape(g2, h, w),
        same_living(g1, g2),
    ensures
        evolve(g1, rules) == evolve(g2, rules),
{
    assert forall|r: int, c: int| 0 <= r < h && 0 <= c < w implies #[trigger] evolve(
        g1,
        rules,
    )[r][c] == evolve(g2, rules)[r][c] by {
        lemma_neighbours_same_living(g1, g2, h, w, r, c);
    }
    assert(evolve(g1, rules) =~~= evolve(g2, rules));
}

/// Grids of one shape that agree on which cells are alive count the same
/// living neighbours around every cell.
pub proof fn lemma_neighbours_same_living(
    g1: Seq<Seq<Cell>>,
    g2: Seq<Seq<Cell>>,
    h: int,
    w: int,
    i: int,
    j: int,
)
    requires
        h > 0,
        w > 0,
        has_shape(g1, h, w),
        has_shape(g2, h, w),
        same_living(g1, g2),
    ensures
        neighbours(g1, i, j) == neighbours(g2, i, j),
{
}

/// The living cells among the first `i` rows and the first `j` cells of the
/// next row are no more than the cells of the grid.
pub proof fn lemma_count_prefix_bound(g: Seq<Seq<Cell>>, h: int, w: int, i: int, j: int)
    requires
        has_shape(g, h, w),
        0 <= i < h,
        0 <= j <= w,
    ensures
        count_grid(g.take(i), alive()) + count_row(g[i].take(j), alive()) <= h * w,
{
    lemma_commit(g.take(i), i, w);
    crate::tally::lemma_count_row_bound(g[i].take(j), alive());
    assert(i * w + j <= h * w) by (nonlinear_arith)
        requires
            0 <= i < h,
            0 <= j <= w,
    ;
}

/// The place next to `i` in the direction `mv` on a ring of `n` places.
fn step_on_ring(i: usize, mv: isize, n: usize) -> (r: usize)
    requires
        i < n,
        -1 <= mv <= 1,
    ensures
        r == wrap(i + mv, n as int),
        r < n,
{
    if mv == -1 {
        if i == 0 {
            proof {
                lemma_fundamental_div_mod_converse(-1, n as int, -1, n - 1);
            }
            n - 1
        } else {
            proof {
                lemma_small_mod((i - 1) as nat, n as nat);
            }
            i - 1
        }
    } else if mv == 1 {
        if i == n - 1 {
            proof {
                lemma_mod_self_0(n as int);
            }
            0
        } else {
            proof {
                lemma_small_mod((i + 1) as nat, n as nat);
            }
            i + 1
        }
    } else {
        proof {
            lemma_small_mod(i as nat, n as nat);
        }
        i
    }
}

} // verus!
