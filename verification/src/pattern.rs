//! Reading a pattern from text, in one of four formats, onto a grid.
//!
//! A pattern is scanned byte by byte, from left to right, in one pass. The
//! scan keeps a position on the grid, which starts at the pattern's origin;
//! a cell symbol marks the cell at the position and moves it along the line,
//! a line break moves it to the start of the next line. Which way "along"
//! and "next" go is the placement's business. Positions are not confined to
//! the grid: a mark lands on the cell that the position falls on once it is
//! wrapped around the edges.
//!
//! A byte that the format has no meaning for ends the scan with an error.
//! The cells marked before it stay marked.

use vstd::prelude::*;
use vstd::arithmetic::div_mod::*;
use vstd::string::StringSliceAdditionalSpecFns;
use crate::canvas::{has_shape, mod_idx, put, wrap, Canvas};
use crate::cell::Cell;
use crate::error::LifeError;
use crate::runs::{
    lemma_breaks_reduced, lemma_paint, lemma_reduced_digit, lemma_run_reduced, lemma_wrap_fixed,
    lemma_wrap_offset, reduced,
};
use crate::tally::same_living;
use crate::transform::Transform;

verus! {

/// The byte of a line feed.
pub const NL: u8 = 10;

/// The byte of a carriage return.
pub const CR: u8 = 13;

/// The byte of a blank.
pub const SPACE: u8 = 32;

/// The byte of `!`.
pub const BANG: u8 = 33;

/// The byte of `#`.
pub const HASH: u8 = 35;

/// The byte of `$`.
pub const DOLLAR: u8 = 36;

/// The byte of `*`.
pub const STAR: u8 = 42;

/// The byte of `.`.
pub const DOT: u8 = 46;

/// The byte of `0`.
pub const DIGIT_0: u8 = 48;

/// The byte of `9`.
pub const DIGIT_9: u8 = 57;

/// The byte of `O`.
pub const UPPER_O: u8 = 79;

/// The byte of `b`.
pub const LOWER_B: u8 = 98;

/// The byte of `o`.
pub const LOWER_O: u8 = 111;

/// The byte of `x`.
pub const LOWER_X: u8 = 120;

/// The four encodings of a pattern, named after the file extensions that
/// announce them.
#[derive(Clone, Copy, Debug, PartialEq, Eq, Structural)]
pub enum FileFormat {
    /// Plain text: `x` alive, `.` dead, a blank skips a cell.
    Txt,
    /// Life 1.05: `*` alive, `.` dead, `#` starts a comment.
    Lif,
    /// Plain cells: `O` alive, `.` dead, `!` starts a comment.
    Cells,
    /// Run-length encoded: `o` alive, `b` dead, `$` ends a line, each after
    /// an optional count; `#` and `x` start a comment, `!` ends the pattern.
    Rle,
}

impl FileFormat {
    /// The byte that stands for a living cell.
    pub open spec fn alive_symbol(self) -> u8 {
        match self {
            FileFormat::Txt => LOWER_X,
            FileFormat::Lif => STAR,
            FileFormat::Cells => UPPER_O,
            FileFormat::Rle => LOWER_O,
        }
    }

    /// The byte that stands for a dead cell.
    pub open spec fn dead_symbol(self) -> u8 {
        match self {
            FileFormat::Rle => LOWER_B,
            _ => DOT,
        }
    }

    /// Whether `c` starts a comment, which runs to the end of its line.
    pub open spec fn starts_comment(self, c: u8) -> bool {
        match self {
            FileFormat::Txt => false,
            FileFormat::Lif => c == HASH,
            FileFormat::Cells => c == BANG,
            FileFormat::Rle => c == HASH || c == LOWER_X,
        }
    }

    /// The format of the file called `name`, by its extension. Anything
    /// but `txt`, `lif`, `cells` and `rle`, in lower case, is refused.
    pub fn of_name(name: &str) -> (r: Result<FileFormat, LifeError>)
        ensures
            r == match announced(extension(name.spec_bytes())) {
                Some(format) => Ok::<FileFormat, LifeError>(format),
                None => Err(LifeError::UnsupportedFormat),
            },
    {
        let bytes = name.as_bytes();
        let mut k: usize = bytes.len();
        assert(bytes@.take(k as int) =~= bytes@);
        while k > 0 && bytes[k - 1] != DOT
            invariant
                k <= bytes@.len(),
                extension_start(bytes@) == extension_start(bytes@.take(k as int)),
            decreases k,
        {
            assert(bytes@.take(k as int).drop_last() =~= bytes@.take(k - 1));
            k -= 1;
        }
        let ghost ext = extension(bytes@);
        let n: usize = bytes.len() - k;
        if n == 3 && bytes[k] == 116 && bytes[k + 1] == 120 && bytes[k + 2] == 116 {
            assert(ext =~= ext_txt());
            Ok(FileFormat::Txt)
        } else if n == 3 && bytes[k] == 108 && bytes[k + 1] == 105 && bytes[k + 2] == 102 {
            assert(ext =~= ext_lif());
            Ok(FileFormat::Lif)
        } else if n == 5 && bytes[k] == 99 && bytes[k + 1] == 101 && bytes[k + 2] == 108 && bytes[k
            + 3] == 108 && bytes[k + 4] == 115 {
            assert(ext =~= ext_cells());
            Ok(FileFormat::Cells)
        } else if n == 3 && bytes[k] == 114 && bytes[k + 1] == 108 && bytes[k + 2] == 101 {
            assert(ext =~= ext_rle());
            Ok(FileFormat::Rle)
        } else {
            proof {
                if n == 3 {
                    assert(ext[0] == bytes@[k as int] && ext[1] == bytes@[k + 1] && ext[2]
                        == bytes@[k + 2]);
                }
                if n == 5 {
                    assert(ext[0] == bytes@[k as int] && ext[1] == bytes@[k + 1] && ext[2]
                        == bytes@[k + 2] && ext[3] == bytes@[k + 3] && ext[4] == bytes@[k + 4]);
                }
                assert(ext_txt().len() == 3 && ext_lif().len() == 3 && ext_rle().len() == 3
                    && ext_cells().len() == 5);
            }
            Err(LifeError::UnsupportedFormat)
        }
    }

    /// The byte that stands for a living cell.
    pub fn alive_byte(self) -> (c: u8)
        ensures
            c == self.alive_symbol(),
    {
        match self {
            FileFormat::Txt => LOWER_X,
            FileFormat::Lif => STAR,
            FileFormat::Cells => UPPER_O,
            FileFormat::Rle => LOWER_O,
        }
    }

    /// The byte that stands for a dead cell.
    pub fn dead_byte(self) -> (c: u8)
        ensures
            c == self.dead_symbol(),
    {
        match self {
            FileFormat::Rle => LOWER_B,
            _ => DOT,
        }
    }

    /// Whether `c` starts a comment.
    pub fn opens_comment(self, c: u8) -> (b: bool)
        ensures
            b == self.starts_comment(c),
    {
        match self {
            FileFormat::Txt => false,
            FileFormat::Lif => c == HASH,
            FileFormat::Cells => c == BANG,
            FileFormat::Rle => c == HASH || c == LOWER_X,
        }
    }
}

/// Where the extension of a file name starts: after its last `.`, or at its
/// first byte if it has none.
pub open spec fn extension_start(name: Seq<u8>) -> int
    decreases name.len(),
{
    if name.len() == 0 {
        0
    } else if name.last() == DOT {
        name.len() as int
    } else {
        extension_start(name.drop_last())
    }
}

/// The extension of a file name.
pub open spec fn extension(name: Seq<u8>) -> Seq<u8> {
    name.subrange(extension_start(name), name.len() as int)
}

/// The bytes of `txt`.
pub open spec fn ext_txt() -> Seq<u8> {
    seq![116u8, 120u8, 116u8]
}

/// The bytes of `lif`.
pub open spec fn ext_lif() -> Seq<u8> {
    seq![108u8, 105u8, 102u8]
}

/// The bytes of `cells`.
pub open spec fn ext_cells() -> Seq<u8> {
    seq![99u8, 101u8, 108u8, 108u8, 115u8]
}

/// The bytes of `rle`.
pub open spec fn ext_rle() -> Seq<u8> {
    seq![114u8, 108u8, 101u8]
}

/// The format that an extension announces, if any.
pub open spec fn announced(ext: Seq<u8>) -> Option<FileFormat> {
    if ext == ext_txt() {
        Some(FileFormat::Txt)
    } else if ext == ext_lif() {
        Some(FileFormat::Lif)
    } else if ext == ext_cells() {
        Some(FileFormat::Cells)
    } else if ext == ext_rle() {
        Some(FileFormat::Rle)
    } else {
        None
    }
}

/// What a scan is doing when it comes to a byte.
pub enum Mode {
    /// Reading cells.
    Data,
    /// Skipping a comment, up to and including the end of its line.
    Comment,
    /// Past the end of the pattern: nothing more is read.
    Done,
    /// Stopped at the byte `symbol`, with `at` bytes before it.
    Failed { at: int, symbol: u8 },
}

/// A scan at some point of the text: the grid as marked so far, the position
/// `(i, j)` of the next cell, the count read so far for the next run, and
/// what the scan is doing.
pub struct Scan {
    pub grid: Seq<Seq<Cell>>,
    pub i: int,
    pub j: int,
    pub run: nat,
    pub mode: Mode,
}

/// The grid `g` with the cell that `(i, j)` falls on marked to be alive
/// (`v`) or dead after the next commit. What the cell is now stays.
pub open spec fn mark(g: Seq<Seq<Cell>>, i: int, j: int, v: bool) -> Seq<Seq<Cell>> {
    let r = wrap(i, g.len() as int);
    let c = wrap(j, g[0].len() as int);
    put(g, r, c, Cell { curr: g[r][c].curr, succ: v })
}

/// The position `n` cells after `(i, j)` on the same line.
pub open spec fn after_run(t: Transform, i: int, j: int, n: nat) -> (int, int) {
    (i + n * t.step().0, j + n * t.step().1)
}

/// The grid `g` with a run of `n` cells marked `v`, the first at `(i, j)` and
/// each next one a step of `t` further along the line.
pub open spec fn paint(g: Seq<Seq<Cell>>, t: Transform, i: int, j: int, n: nat, v: bool) -> Seq<
    Seq<Cell>,
>
    decreases n,
{
    if n == 0 {
        g
    } else {
        let m = (n - 1) as nat;
        let p = after_run(t, i, j, m);
        mark(paint(g, t, i, j, m, v), p.0, p.1, v)
    }
}

/// The position after `n` line breaks from `(i, j)`, for a pattern placed at
/// `(i0, j0)`: `n` lines further, and at the origin's coordinate along the
/// line if there was a break at all.
pub open spec fn after_breaks(t: Transform, i: int, j: int, i0: int, j0: int, n: nat) -> (
    int,
    int,
) {
    if n == 0 {
        (i, j)
    } else if t.row_major() {
        (i + n * t.line_step().0, j0)
    } else {
        (i0, j + n * t.line_step().1)
    }
}

/// The length of the run that a tag stands for after the count `run`: a tag
/// without a count stands for one, and so does a tag after a count of zero.
pub open spec fn run_length(run: nat) -> nat {
    if run == 0 {
        1
    } else {
        run
    }
}

/// The scan `s` with the position moved to `p`.
pub open spec fn moved(s: Scan, p: (int, int)) -> Scan {
    Scan { i: p.0, j: p.1, ..s }
}

/// What a byte `c` of a `txt`, `lif` or `cells` pattern, with `at` bytes
/// before it, makes of the scan `s` that is reading cells.
pub open spec fn step_plain(
    format: FileFormat,
    t: Transform,
    i0: int,
    j0: int,
    s: Scan,
    c: u8,
    at: int,
) -> Scan {
    if c == NL {
        moved(s, t.next_line(s.i, s.j, i0, j0))
    } else if c == CR {
        s
    } else if c == format.alive_symbol() {
        moved(Scan { grid: mark(s.grid, s.i, s.j, true), ..s }, t.advance(s.i, s.j))
    } else if c == format.dead_symbol() {
        moved(Scan { grid: mark(s.grid, s.i, s.j, false), ..s }, t.advance(s.i, s.j))
    } else if format == FileFormat::Txt && c == SPACE {
        moved(s, t.advance(s.i, s.j))
    } else if format.starts_comment(c) {
        Scan { mode: Mode::Comment, ..s }
    } else {
        Scan { mode: Mode::Failed { at, symbol: c }, ..s }
    }
}

/// What a byte `c` of an `rle` pattern, with `at` bytes before it, makes of
/// the scan `s` that is reading cells. Digits build up a count; the tag that
/// follows uses it and clears it. Line ends mean nothing, and neither they
/// nor a comment clear the count.
pub open spec fn step_rle(t: Transform, i0: int, j0: int, s: Scan, c: u8, at: int) -> Scan {
    let n = run_length(s.run);
    if FileFormat::Rle.starts_comment(c) {
        Scan { mode: Mode::Comment, ..s }
    } else if c == DOLLAR {
        moved(Scan { run: 0, ..s }, after_breaks(t, s.i, s.j, i0, j0, n))
    } else if c == LOWER_O {
        moved(
            Scan { grid: paint(s.grid, t, s.i, s.j, n, true), run: 0, ..s },
            after_run(t, s.i, s.j, n),
        )
    } else if c == LOWER_B {
        moved(
            Scan { grid: paint(s.grid, t, s.i, s.j, n, false), run: 0, ..s },
            after_run(t, s.i, s.j, n),
        )
    } else if DIGIT_0 <= c <= DIGIT_9 {
        Scan { run: (s.run * 10 + (c - DIGIT_0)) as nat, ..s }
    } else if c == BANG {
        Scan { mode: Mode::Done, ..s }
    } else if c == CR || c == NL {
        s
    } else {
        Scan { mode: Mode::Failed { at, symbol: c }, ..s }
    }
}

/// What the byte `c`, with `at` bytes before it, makes of the scan `s`.
pub open spec fn step(
    format: FileFormat,
    t: Transform,
    i0: int,
    j0: int,
    s: Scan,
    c: u8,
    at: int,
) -> Scan {
    match s.mode {
        Mode::Done => s,
        Mode::Failed { .. } => s,
        Mode::Comment => if c == NL {
            Scan { mode: Mode::Data, ..s }
        } else {
            s
        },
        Mode::Data => if format == FileFormat::Rle {
            step_rle(t, i0, j0, s, c, at)
        } else {
            step_plain(format, t, i0, j0, s, c, at)
        },
    }
}

/// The scan before the first byte: at the origin, reading cells.
pub open spec fn start(g: Seq<Seq<Cell>>, i0: int, j0: int) -> Scan {
    Scan { grid: g, i: i0, j: j0, run: 0, mode: Mode::Data }
}

/// The scan of the first `n` bytes of `text` onto the grid `g`, for a
/// pattern in `format` placed at `(i0, j0)` under `t`.
pub open spec fn scan(
    format: FileFormat,
    t: Transform,
    i0: int,
    j0: int,
    g: Seq<Seq<Cell>>,
    text: Seq<u8>,
    n: int,
) -> Scan
    decreases n,
{
    if n <= 0 {
        start(g, i0, j0)
    } else {
        step(format, t, i0, j0, scan(format, t, i0, j0, g, text, n - 1), text[n - 1], n - 1)
    }
}

/// How a scan that ended as `s` ended: well, unless it stopped at a byte.
pub open spec fn outcome(s: Scan) -> Result<(), LifeError> {
    match s.mode {
        Mode::Failed { at, symbol } => Err(
            LifeError::UnrecognizedSymbol { symbol, offset: at as usize },
        ),
        _ => Ok(()),
    }
}

/// Once a scan is past the end of the pattern, or has stopped at a byte,
/// the rest of the text changes nothing.
pub proof fn lemma_scan_stops(
    format: FileFormat,
    t: Transform,
    i0: int,
    j0: int,
    g: Seq<Seq<Cell>>,
    text: Seq<u8>,
    k: int,
    n: int,
)
    requires
        0 <= k <= n,
        scan(format, t, i0, j0, g, text, k).mode is Done || scan(
            format,
            t,
            i0,
            j0,
            g,
            text,
            k,
        ).mode is Failed,
    ensures
        scan(format, t, i0, j0, g, text, n) == scan(format, t, i0, j0, g, text, k),
    decreases n - k,
{
    if n > k {
        lemma_scan_stops(format, t, i0, j0, g, text, k, n - 1);
    }
}

/// A scan keeps the grid's shape and what is alive now: it only marks cells.
pub proof fn lemma_scan_keeps_living(
    format: FileFormat,
    t: Transform,
    i0: int,
    j0: int,
    g: Seq<Seq<Cell>>,
    h: int,
    w: int,
    text: Seq<u8>,
    n: int,
)
    requires
        h > 0,
        w > 0,
        has_shape(g, h, w),
    ensures
        has_shape(scan(format, t, i0, j0, g, text, n).grid, h, w),
        same_living(scan(format, t, i0, j0, g, text, n).grid, g),
    decreases n,
{
    if n > 0 {
        lemma_scan_keeps_living(format, t, i0, j0, g, h, w, text, n - 1);
        let s = scan(format, t, i0, j0, g, text, n - 1);
        lemma_paint(s.grid, h, w, t, s.i, s.j, run_length(s.run), true);
        lemma_paint(s.grid, h, w, t, s.i, s.j, run_length(s.run), false);
    }
}

/// What reading a byte leaves the reader to do.
enum Turn {
    Data,
    Comment,
    Done,
    Failed,
}

impl Turn {
    /// Whether this is what the scan's mode `m` says, after the byte `c` with
    /// `at` bytes before it.
    spec fn tells(self, m: Mode, at: int, c: u8) -> bool {
        match self {
            Turn::Data => m is Data,
            Turn::Comment => m is Comment,
            Turn::Done => m is Done,
            Turn::Failed => m == (Mode::Failed { at, symbol: c }),
        }
    }
}

/// The place of a scan on a grid of `h` rows and `w` columns, kept on the
/// grid: the position and the origin wrapped around its edges, and the count
/// reduced for its number of cells.
struct Reader {
    t: Transform,
    h: usize,
    w: usize,
    cells: usize,
    oi: isize,
    oj: isize,
    i: isize,
    j: isize,
    run: usize,
}

impl Reader {
    /// The reader's grid has cells, few enough to count in an `isize`, and
    /// its position and origin are on the grid.
    spec fn wf(self) -> bool {
        &&& self.h > 0
        &&& self.w > 0
        &&& self.cells == self.h * self.w
        &&& self.cells <= isize::MAX
        &&& self.h <= isize::MAX
        &&& self.w <= isize::MAX
        &&& 0 <= self.i < self.h
        &&& 0 <= self.j < self.w
        &&& 0 <= self.oi < self.h
        &&& 0 <= self.oj < self.w
        &&& self.run < 2 * self.cells
    }

    /// Whether the reader is where the scan `s` of a pattern placed at
    /// `(i0, j0)` is.
    spec fn follows(self, s: Scan, i0: int, j0: int) -> bool {
        &&& self.wf()
        &&& has_shape(s.grid, self.h as int, self.w as int)
        &&& self.oi == wrap(i0, self.h as int)
        &&& self.oj == wrap(j0, self.w as int)
        &&& self.i == wrap(s.i, self.h as int)
        &&& self.j == wrap(s.j, self.w as int)
        &&& self.run == reduced(s.run, self.cells as nat)
    }

    /// Whether the grid `g` belongs to this reader.
    spec fn reads(self, g: Canvas<Cell>) -> bool {
        &&& g.wf()
        &&& g.height() == self.h
        &&& g.width() == self.w
    }

    /// Brings the position back onto the grid after a step off it.
    fn rewrap(&mut self)
        requires
            old(self).h > 0,
            old(self).w > 0,
            old(self).h <= isize::MAX,
            old(self).w <= isize::MAX,
        ensures
            *final(self) == (Reader {
                i: wrap(old(self).i as int, old(self).h as int) as isize,
                j: wrap(old(self).j as int, old(self).w as int) as isize,
                ..*old(self)
            }),
            0 <= final(self).i < old(self).h,
            0 <= final(self).j < old(self).w,
    {
        self.i = mod_idx(self.i, self.h) as isize;
        self.j = mod_idx(self.j, self.w) as isize;
    }

    /// Moves on by one cell, marking nothing.
    fn skip_cell(&mut self)
        requires
            old(self).wf(),
        ensures
            final(self).wf(),
            *final(self) == (Reader {
                i: wrap(old(self).t.advance(old(self).i as int, old(self).j as int).0, old(self).h as int) as isize,
                j: wrap(old(self).t.advance(old(self).i as int, old(self).j as int).1, old(self).w as int) as isize,
                ..*old(self)
            }),
    {
        let t = self.t;
        t.next(&mut self.i, &mut self.j);
        self.rewrap();
    }

    /// Marks the cell at the position, and moves on by one cell.
    fn mark_cell(&mut self, grid: &mut Canvas<Cell>, v: bool)
        requires
            old(self).wf(),
            old(self).reads(*old(grid)),
        ensures
            final(self).wf(),
            final(self).reads(*final(grid)),
            final(grid)@ == mark(old(grid)@, old(self).i as int, old(self).j as int, v),
            *final(self) == (Reader {
                i: wrap(old(self).t.advance(old(self).i as int, old(self).j as int).0, old(self).h as int) as isize,
                j: wrap(old(self).t.advance(old(self).i as int, old(self).j as int).1, old(self).w as int) as isize,
                ..*old(self)
            }),
    {
        proof {
            grid.lemma_shape();
        }
        if v {
            grid.mod_idx(self.i, self.j).birth();
        } else {
            grid.mod_idx(self.i, self.j).kill();
        }
        self.skip_cell();
    }

    /// Marks a run of `n` cells from the position on, and moves past it.
    fn mark_run(&mut self, grid: &mut Canvas<Cell>, n: usize, v: bool)
        requires
            old(self).wf(),
            old(self).reads(*old(grid)),
        ensures
            final(self).wf(),
            final(self).reads(*final(grid)),
            final(grid)@ == paint(
                old(grid)@,
                old(self).t,
                old(self).i as int,
                old(self).j as int,
                n as nat,
                v,
            ),
            *final(self) == (Reader {
                i: wrap(
                    after_run(old(self).t, old(self).i as int, old(self).j as int, n as nat).0,
                    old(self).h as int,
                ) as isize,
                j: wrap(
                    after_run(old(self).t, old(self).i as int, old(self).j as int, n as nat).1,
                    old(self).w as int,
                ) as isize,
                ..*old(self)
            }),
    {
        let ghost g0 = grid@;
        let ghost r0 = *self;
        let ghost h = self.h as int;
        let ghost w = self.w as int;
        proof {
            grid.lemma_shape();
            lemma_wrap_fixed(self.i as int, h);
            lemma_wrap_fixed(self.j as int, w);
            assert(0 * r0.t.step().0 == 0 && 0 * r0.t.step().1 == 0);
        }
        let mut k: usize = 0;
        while k < n
            invariant
                k <= n,
                r0.wf(),
                h == r0.h,
                w == r0.w,
                has_shape(g0, h, w),
                self.wf(),
                self.reads(*grid),
                grid@ == paint(g0, r0.t, r0.i as int, r0.j as int, k as nat, v),
                *self == (Reader {
                    i: wrap(after_run(r0.t, r0.i as int, r0.j as int, k as nat).0, h) as isize,
                    j: wrap(after_run(r0.t, r0.i as int, r0.j as int, k as nat).1, w) as isize,
                    ..r0
                }),
            decreases n - k,
        {
            proof {
                let p = after_run(r0.t, r0.i as int, r0.j as int, k as nat);
                lemma_paint(g0, h, w, r0.t, r0.i as int, r0.j as int, k as nat, v);
                lemma_mod_twice(p.0, h);
                lemma_mod_twice(p.1, w);
                lemma_wrap_offset(self.i as int, p.0, r0.t.step().0, h);
                lemma_wrap_offset(self.j as int, p.1, r0.t.step().1, w);
                assert((k + 1) * r0.t.step().0 == k * r0.t.step().0 + r0.t.step().0)
                    by (nonlinear_arith);
                assert((k + 1) * r0.t.step().1 == k * r0.t.step().1 + r0.t.step().1)
                    by (nonlinear_arith);
            }
            self.mark_cell(grid, v);
            k += 1;
        }
    }

    /// Moves to the start of the `n`th line after the one at the position.
    fn line_breaks(&mut self, n: usize)
        requires
            old(self).wf(),
        ensures
            final(self).wf(),
            *final(self) == (Reader {
                i: wrap(
                    after_breaks(
                        old(self).t,
                        old(self).i as int,
                        old(self).j as int,
                        old(self).oi as int,
                        old(self).oj as int,
                        n as nat,
                    ).0,
                    old(self).h as int,
                ) as isize,
                j: wrap(
                    after_breaks(
                        old(self).t,
                        old(self).i as int,
                        old(self).j as int,
                        old(self).oi as int,
                        old(self).oj as int,
                        n as nat,
                    ).1,
                    old(self).w as int,
                ) as isize,
                ..*old(self)
            }),
    {
        let ghost r0 = *self;
        let ghost h = self.h as int;
        let ghost w = self.w as int;
        proof {
            lemma_wrap_fixed(self.i as int, h);
            lemma_wrap_fixed(self.j as int, w);
        }
        let mut k: usize = 0;
        while k < n
            invariant
                k <= n,
                r0.wf(),
                h == r0.h,
                w == r0.w,
                self.wf(),
                *self == (Reader {
                    i: wrap(
                        after_breaks(
                            r0.t,
                            r0.i as int,
                            r0.j as int,
                            r0.oi as int,
                            r0.oj as int,
                            k as nat,
                        ).0,
                        h,
                    ) as isize,
                    j: wrap(
                        after_breaks(
                            r0.t,
                            r0.i as int,
                            r0.j as int,
                            r0.oi as int,
                            r0.oj as int,
                            k as nat,
                        ).1,
                        w,
                    ) as isize,
                    ..r0
                }),
            decreases n - k,
        {
            proof {
                let p = after_breaks(
                    r0.t,
                    r0.i as int,
                    r0.j as int,
                    r0.oi as int,
                    r0.oj as int,
                    k as nat,
                );
                let li = r0.t.line_step().0;
                let lj = r0.t.line_step().1;
                lemma_mod_twice(p.0, h);
                lemma_mod_twice(p.1, w);
                if r0.t.row_major() {
                    lemma_wrap_offset(self.i as int, r0.i + k * li, li, h);
                } else {
                    lemma_wrap_offset(self.j as int, r0.j + k * lj, lj, w);
                }
            }
            let t = self.t;
            t.newline(&mut self.i, &mut self.j, self.oi, self.oj);
            self.rewrap();
            k += 1;
        }
    }

    /// Appends the digit `d` to the count.
    fn push_digit(&mut self, d: u8)
        requires
            old(self).wf(),
            d <= 9,
        ensures
            final(self).wf(),
            *final(self) == (Reader {
                run: reduced((old(self).run * 10 + d) as nat, old(self).cells as nat) as usize,
                ..*old(self)
            }),
    {
        let x: u128 = (self.run as u128) * 10 + (d as u128);
        let cells: u128 = self.cells as u128;
        if x < cells {
            self.run = x as usize;
        } else {
            let rest: u128 = x % cells;
            self.run = self.cells + (rest as usize);
        }
    }

    /// Reads the byte `c` of a `txt`, `lif` or `cells` pattern.
    fn plain_byte(
        &mut self,
        grid: &mut Canvas<Cell>,
        format: FileFormat,
        c: u8,
        Ghost(s): Ghost<Scan>,
        Ghost(i0): Ghost<int>,
        Ghost(j0): Ghost<int>,
        Ghost(at): Ghost<int>,
    ) -> (turn: Turn)
        requires
            old(self).follows(s, i0, j0),
            old(self).reads(*old(grid)),
            old(grid)@ == s.grid,
            s.mode is Data,
            format != FileFormat::Rle,
        ensures
            final(self).follows(step_plain(format, old(self).t, i0, j0, s, c, at), i0, j0),
            final(self).reads(*final(grid)),
            final(self).t == old(self).t,
            final(self).h == old(self).h,
            final(self).w == old(self).w,
            final(grid)@ == step_plain(format, old(self).t, i0, j0, s, c, at).grid,
            turn.tells(step_plain(format, old(self).t, i0, j0, s, c, at).mode, at, c),
    {
        let ghost h = self.h as int;
        let ghost w = self.w as int;
        proof {
            lemma_mod_twice(s.i, h);
            lemma_mod_twice(s.j, w);
            lemma_wrap_offset(self.i as int, s.i, self.t.step().0, h);
            lemma_wrap_offset(self.j as int, s.j, self.t.step().1, w);
        }
        if c == NL {
            proof {
                lemma_breaks_reduced(self.t, h, w, s.i, s.j, i0, j0, 1);
            }
            self.line_breaks(1);
            Turn::Data
        } else if c == CR {
            Turn::Data
        } else if c == format.alive_byte() {
            self.mark_cell(grid, true);
            Turn::Data
        } else if c == format.dead_byte() {
            self.mark_cell(grid, false);
            Turn::Data
        } else if format == FileFormat::Txt && c == SPACE {
            self.skip_cell();
            Turn::Data
        } else if format.opens_comment(c) {
            Turn::Comment
        } else {
            Turn::Failed
        }
    }

    /// Reads the byte `c` of an `rle` pattern.
    fn rle_byte(
        &mut self,
        grid: &mut Canvas<Cell>,
        c: u8,
        Ghost(s): Ghost<Scan>,
        Ghost(i0): Ghost<int>,
        Ghost(j0): Ghost<int>,
        Ghost(at): Ghost<int>,
    ) -> (turn: Turn)
        requires
            old(self).follows(s, i0, j0),
            old(self).reads(*old(grid)),
            old(grid)@ == s.grid,
            s.mode is Data,
        ensures
            final(self).follows(step_rle(old(self).t, i0, j0, s, c, at), i0, j0),
            final(self).reads(*final(grid)),
            final(self).t == old(self).t,
            final(self).h == old(self).h,
            final(self).w == old(self).w,
            final(grid)@ == step_rle(old(self).t, i0, j0, s, c, at).grid,
            turn.tells(step_rle(old(self).t, i0, j0, s, c, at).mode, at, c),
    {
        let ghost h = self.h as int;
        let ghost w = self.w as int;
        let ghost n = run_length(s.run);
        let ghost t = self.t;
        if FileFormat::Rle.opens_comment(c) {
            Turn::Comment
        } else if c == DOLLAR {
            let len = self.run_length();
            proof {
                lemma_breaks_reduced(t, h, w, s.i, s.j, i0, j0, n);
            }
            self.line_breaks(len);
            self.run = 0;
            Turn::Data
        } else if c == LOWER_O {
            let len = self.run_length();
            proof {
                lemma_run_reduced(s.grid, h, w, t, s.i, s.j, n, true);
                lemma_paint(s.grid, h, w, t, s.i, s.j, n, true);
            }
            self.mark_run(grid, len, true);
            self.run = 0;
            Turn::Data
        } else if c == LOWER_B {
            let len = self.run_length();
            proof {
                lemma_run_reduced(s.grid, h, w, t, s.i, s.j, n, false);
                lemma_paint(s.grid, h, w, t, s.i, s.j, n, false);
            }
            self.mark_run(grid, len, false);
            self.run = 0;
            Turn::Data
        } else if DIGIT_0 <= c && c <= DIGIT_9 {
            proof {
                lemma_reduced_digit(s.run, (c - DIGIT_0) as nat, self.cells as nat);
            }
            self.push_digit(c - DIGIT_0);
            Turn::Data
        } else if c == BANG {
            Turn::Done
        } else if c == CR || c == NL {
            Turn::Data
        } else {
            Turn::Failed
        }
    }

    /// The length of the run that the next tag stands for.
    fn run_length(&self) -> (n: usize)
        requires
            self.wf(),
        ensures
            n == if self.run == 0 {
                1
            } else {
                self.run as int
            },
    {
        if self.run == 0 {
            1
        } else {
            self.run
        }
    }
}

/// Places the pattern that `text` holds in `format` onto `grid`, with its
/// first cell at `(i0, j0)` and laid out under `t`. Cells are only marked:
/// what is alive now does not change before the next commit.
///
/// The result is that of the scan of the whole text. If the scan stops at a
/// byte that the format has no meaning for, the error names the byte and
/// its offset, and the grid keeps the marks made before it.
pub fn load(
    text: &str,
    format: FileFormat,
    i0: isize,
    j0: isize,
    t: Transform,
    grid: &mut Canvas<Cell>,
) -> (r: Result<(), LifeError>)
    requires
        old(grid).wf(),
        old(grid).height() * old(grid).width() <= isize::MAX,
    ensures
        final(grid).wf(),
        final(grid).height() == old(grid).height(),
        final(grid).width() == old(grid).width(),
        final(grid)@ == scan(
            format,
            t,
            i0 as int,
            j0 as int,
            old(grid)@,
            text.spec_bytes(),
            text.spec_bytes().len() as int,
        ).grid,
        r == outcome(
            scan(
                format,
                t,
                i0 as int,
                j0 as int,
                old(grid)@,
                text.spec_bytes(),
                text.spec_bytes().len() as int,
            ),
        ),
        same_living(final(grid)@, old(grid)@),
{
    let bytes = text.as_bytes();
    let ghost g0 = grid@;
    let ghost len = bytes@.len() as int;
    let h = grid.rows();
    let w = grid.cols();
    proof {
        grid.lemma_shape();
        assert(h <= h * w && w <= h * w) by (nonlinear_arith)
            requires
                h > 0,
                w > 0,
        ;
    }
    let oi = mod_idx(i0, h) as isize;
    let oj = mod_idx(j0, w) as isize;
    let mut reader = Reader { t, h, w, cells: h * w, oi, oj, i: oi, j: oj, run: 0 };
    let mut in_comment = false;
    let mut k: usize = 0;
    while k < bytes.len()
        invariant
            k <= len,
            len == bytes@.len(),
            bytes@ == text.spec_bytes(),
            g0 == old(grid)@,
            has_shape(g0, h as int, w as int),
            h == old(grid).height(),
            w == old(grid).width(),
            h > 0,
            w > 0,
            reader.t == t,
            reader.h == h,
            reader.w == w,
            reader.reads(*grid),
            reader.follows(scan(format, t, i0 as int, j0 as int, g0, bytes@, k as int), i0 as int, j0 as int),
            grid@ == scan(format, t, i0 as int, j0 as int, g0, bytes@, k as int).grid,
            scan(format, t, i0 as int, j0 as int, g0, bytes@, k as int).mode == if in_comment {
                Mode::Comment
            } else {
                Mode::Data
            },
        decreases len - k,
    {
        let c = bytes[k];
        let ghost s = scan(format, t, i0 as int, j0 as int, g0, bytes@, k as int);
        assert(scan(format, t, i0 as int, j0 as int, g0, bytes@, k + 1) == step(
            format,
            t,
            i0 as int,
            j0 as int,
            s,
            c,
            k as int,
        ));
        if in_comment {
            if c == NL {
                in_comment = false;
            }
        } else {
            let turn = match format {
                FileFormat::Rle => reader.rle_byte(
                    grid,
                    c,
                    Ghost(s),
                    Ghost(i0 as int),
                    Ghost(j0 as int),
                    Ghost(k as int),
                ),
                _ => reader.plain_byte(
                    grid,
                    format,
                    c,
                    Ghost(s),
                    Ghost(i0 as int),
                    Ghost(j0 as int),
                    Ghost(k as int),
                ),
            };
            match turn {
                Turn::Data => {},
                Turn::Comment => {
                    in_comment = true;
                },
                Turn::Done => {
                    proof {
                        lemma_scan_stops(format, t, i0 as int, j0 as int, g0, bytes@, k + 1, len);
                        lemma_scan_keeps_living(
                            format,
                            t,
                            i0 as int,
                            j0 as int,
                            g0,
                            h as int,
                            w as int,
                            bytes@,
                            len,
                        );
                    }
                    return Ok(());
                },
                Turn::Failed => {
                    proof {
                        lemma_scan_stops(format, t, i0 as int, j0 as int, g0, bytes@, k + 1, len);
                        lemma_scan_keeps_living(
                            format,
                            t,
                            i0 as int,
                            j0 as int,
                            g0,
                            h as int,
                            w as int,
                            bytes@,
                            len,
                        );
                    }
                    return Err(LifeError::UnrecognizedSymbol { symbol: c, offset: k });
                },
            }
        }
        k += 1;
    }
    proof {
        lemma_scan_keeps_living(format, t, i0 as int, j0 as int, g0, h as int, w as int, bytes@, len);
    }
    Ok(())
}

} // verus!
