//! The state of a fractal session and its persistable snapshot.
//!
//! A session holds the geometry of the sample grid, the grid of escape
//! counts, and the colour palette. Coordinates are stored as given; the
//! limits that are derived from them are handed in by the caller.

use crate::escape::{settle, settled};
use crate::palette::Anchor;
use crate::plane::{Coord, Point};
use crate::settings::Settings;
use vstd::prelude::*;

verus! {

/// The state of a fractal session.
pub struct Fractal {
    pub settings: Settings,
    /// Number of rows of the sample grid.
    pub rows: u32,
    /// Number of columns of the sample grid.
    pub cols: u32,
    /// Centre of the sample grid.
    pub mid_pt: Point,
    /// Distance between neighbouring samples, the same along both axes.
    pub pt_div: Coord,
    /// Limit on the iterations of one orbit.
    pub max_its: u32,
    /// Real part of the leftmost column.
    pub left_lim: Coord,
    /// Imaginary part of the topmost row.
    pub top_lim: Coord,
    /// Escape counts, row by row from the top.
    pub escape_its: Vec<Vec<u32>>,
    /// The sample at the top left corner.
    pub pt_lt: Point,
    /// The colour palette, anchor by anchor.
    pub col_palete: Vec<Anchor>,
}

/// The part of a session that is saved to a file and loaded from it.
pub struct FractalConfig {
    pub rows: u32,
    pub cols: u32,
    pub mid_pt: (Coord, Coord),
    pub pt_div: Coord,
    pub max_its: u32,
    pub col_palete: Vec<Anchor>,
    pub escape_its: Vec<Vec<u32>>,
}

/// The rows of a grid, each as the sequence of its cells.
pub open spec fn cells_of(grid: Seq<Vec<u32>>) -> Seq<Seq<u32>> {
    Seq::new(grid.len(), |r: int| grid[r]@)
}

/// A row of `cols` cells that all hold zero.
pub open spec fn zero_row(cols: nat) -> Seq<u32> {
    Seq::new(cols, |c: int| 0u32)
}

/// A grid of `rows` by `cols` cells that all hold zero.
pub open spec fn zero_grid(rows: nat, cols: nat) -> Seq<Seq<u32>> {
    Seq::new(rows, |r: int| zero_row(cols))
}

/// A row of smoothed counts, each settled under the limit `max_its`.
pub open spec fn settled_row(smoothed: Seq<u32>, max_its: u32) -> Seq<u32> {
    Seq::new(smoothed.len(), |c: int| settled(smoothed[c], max_its))
}

/// A grid of smoothed counts, each settled under the limit `max_its`.
pub open spec fn settled_grid(smoothed: Seq<Seq<u32>>, max_its: u32) -> Seq<Seq<u32>> {
    Seq::new(smoothed.len(), |r: int| settled_row(smoothed[r], max_its))
}

/// What a snapshot holds.
#[verifier::ext_equal]
pub struct ConfigModel {
    pub rows: u32,
    pub cols: u32,
    pub mid_pt: (Coord, Coord),
    pub pt_div: Coord,
    pub max_its: u32,
    pub col_palete: Seq<Anchor>,
    pub escape_its: Seq<Seq<u32>>,
}

/// What a session holds.
#[verifier::ext_equal]
pub struct FractalModel {
    pub settings: Settings,
    pub rows: u32,
    pub cols: u32,
    pub mid_pt: Point,
    pub pt_div: Coord,
    pub max_its: u32,
    pub left_lim: Coord,
    pub top_lim: Coord,
    pub escape_its: Seq<Seq<u32>>,
    pub pt_lt: Point,
    pub col_palete: Seq<Anchor>,
}

impl View for FractalConfig {
    type V = ConfigModel;

    open spec fn view(&self) -> ConfigModel {
        ConfigModel {
            rows: self.rows,
            cols: self.cols,
            mid_pt: self.mid_pt,
            pt_div: self.pt_div,
            max_its: self.max_its,
            col_palete: self.col_palete@,
            escape_its: cells_of(self.escape_its@),
        }
    }
}

impl View for Fractal {
    type V = FractalModel;

    open spec fn view(&self) -> FractalModel {
        FractalModel {
            settings: self.settings,
            rows: self.rows,
            cols: self.cols,
            mid_pt: self.mid_pt,
            pt_div: self.pt_div,
            max_its: self.max_its,
            left_lim: self.left_lim,
            top_lim: self.top_lim,
            escape_its: cells_of(self.escape_its@),
            pt_lt: self.pt_lt,
            col_palete: self.col_palete@,
        }
    }
}

impl FractalModel {
    /// The session before anything has been defined: it holds the program
    /// settings, every number is zero, the grid and the palette are empty.
    pub open spec fn blank(settings: Settings) -> FractalModel {
        FractalModel {
            settings,
            rows: 0,
            cols: 0,
            mid_pt: Point::origin(),
            pt_div: Coord::zero(),
            max_its: 0,
            left_lim: Coord::zero(),
            top_lim: Coord::zero(),
            escape_its: Seq::empty(),
            pt_lt: Point::origin(),
            col_palete: Seq::empty(),
        }
    }

    /// The grid has `rows` rows of `cols` cells each.
    pub open spec fn wf(self) -> bool {
        &&& self.escape_its.len() == self.rows
        &&& forall|r: int| 0 <= r < self.escape_its.len() ==> #[trigger] self.escape_its[r].len()
            == self.cols
    }

    /// The snapshot of this session.
    pub open spec fn snapshot(self) -> ConfigModel {
        ConfigModel {
            rows: self.rows,
            cols: self.cols,
            mid_pt: (self.mid_pt.re, self.mid_pt.im),
            pt_div: self.pt_div,
            max_its: self.max_its,
            col_palete: self.col_palete,
            escape_its: self.escape_its,
        }
    }

    /// This session after `config` has been loaded into it: everything that
    /// a snapshot holds is replaced, the limits and the program settings
    /// stay.
    pub open spec fn loaded(self, config: ConfigModel) -> FractalModel {
        FractalModel {
            rows: config.rows,
            cols: config.cols,
            mid_pt: Point { re: config.mid_pt.0, im: config.mid_pt.1 },
            pt_div: config.pt_div,
            max_its: config.max_its,
            col_palete: config.col_palete,
            escape_its: config.escape_its,
            ..self
        }
    }

    /// This session with the given limits: the top left sample lies at the
    /// two of them.
    pub open spec fn placed(self, left_lim: Coord, top_lim: Coord) -> FractalModel {
        FractalModel { left_lim, top_lim, pt_lt: Point { re: left_lim, im: top_lim }, ..self }
    }

    /// This session after a grid of `rows` by `cols` has been laid out with
    /// the given limits: every cell of the grid holds zero.
    pub open spec fn sized(self, rows: u32, cols: u32, left_lim: Coord, top_lim: Coord)
        -> FractalModel {
        FractalModel {
            rows,
            cols,
            escape_its: zero_grid(rows as nat, cols as nat),
            ..self.placed(left_lim, top_lim)
        }
    }

    /// This session with the cells of one row replaced.
    pub open spec fn with_row(self, row: int, cells: Seq<u32>) -> FractalModel {
        FractalModel { escape_its: self.escape_its.update(row, cells), ..self }
    }

    /// This session with the whole grid replaced.
    pub open spec fn with_grid(self, cells: Seq<Seq<u32>>) -> FractalModel {
        FractalModel { escape_its: cells, ..self }
    }

    /// This session with the palette replaced.
    pub open spec fn with_palete(self, palete: Seq<Anchor>) -> FractalModel {
        FractalModel { col_palete: palete, ..self }
    }

    /// This session with one more anchor at the end of the palette.
    pub open spec fn with_anchor(self, anchor: Anchor) -> FractalModel {
        self.with_palete(self.col_palete.push(anchor))
    }

    /// Every cell of the grid holds a count from one to the limit.
    pub open spec fn counted(self) -> bool {
        forall|r: int| 0 <= r < self.escape_its.len() ==> #[trigger] self.row_counted(r)
    }

    /// Every cell of row `row` holds a count from one to the limit.
    pub open spec fn row_counted(self, row: int) -> bool {
        forall|c: int|
            0 <= c < self.escape_its[row].len() ==> 1 <= #[trigger] self.escape_its[row][c]
                <= self.max_its
    }
}

/// A copy of one row.
fn copy_row(row: &Vec<u32>) -> (copy: Vec<u32>)
    ensures
        copy@ == row@,
{
    let mut copy: Vec<u32> = Vec::new();
    let mut c: usize = 0;
    while c < row.len()
        invariant
            c <= row@.len(),
            copy@ == row@.subrange(0, c as int),
        decreases row@.len() - c,
    {
        copy.push(row[c]);
        c += 1;
    }
    copy
}

/// A copy of a grid.
fn copy_grid(grid: &Vec<Vec<u32>>) -> (copy: Vec<Vec<u32>>)
    ensures
        cells_of(copy@) == cells_of(grid@),
{
    let mut copy: Vec<Vec<u32>> = Vec::new();
    let mut r: usize = 0;
    while r < grid.len()
        invariant
            r <= grid@.len(),
            copy@.len() == r,
            forall|i: int| 0 <= i < r ==> copy@[i]@ == grid@[i]@,
        decreases grid@.len() - r,
    {
        let row: Vec<u32> = copy_row(&grid[r]);
        copy.push(row);
        r += 1;
    }
    copy
}

/// A copy of a palette.
fn copy_palete(palete: &Vec<Anchor>) -> (copy: Vec<Anchor>)
    ensures
        copy@ == palete@,
{
    let mut copy: Vec<Anchor> = Vec::new();
    let mut i: usize = 0;
    while i < palete.len()
        invariant
            i <= palete@.len(),
            copy@ == palete@.subrange(0, i as int),
        decreases palete@.len() - i,
    {
        let anchor: Anchor = palete[i];
        copy.push(anchor);
        i += 1;
    }
    copy
}

/// A grid of `rows` by `cols` cells that all hold zero.
fn new_grid(rows: u32, cols: u32) -> (grid: Vec<Vec<u32>>)
    ensures
        cells_of(grid@) == zero_grid(rows as nat, cols as nat),
{
    let mut grid: Vec<Vec<u32>> = Vec::new();
    let mut r: u32 = 0;
    while r < rows
        invariant
            r <= rows,
            grid@.len() == r,
            forall|i: int| 0 <= i < r ==> grid@[i]@ == zero_row(cols as nat),
        decreases rows - r,
    {
        let mut row: Vec<u32> = Vec::new();
        let mut c: u32 = 0;
        while c < cols
            invariant
                c <= cols,
                row@ == zero_row(c as nat),
            decreases cols - c,
        {
            row.push(0);
            c += 1;
        }
        grid.push(row);
        r += 1;
    }
    grid
}

impl Fractal {
    /// A session in which nothing has been defined yet.
    pub fn init(settings: Settings) -> (fractal: Fractal)
        ensures
            fractal@ == FractalModel::blank(settings),
    {
        Fractal {
            settings,
            rows: 0,
            cols: 0,
            mid_pt: Point { re: Coord { bits: 0 }, im: Coord { bits: 0 } },
            pt_div: Coord { bits: 0 },
            max_its: 0,
            left_lim: Coord { bits: 0 },
            top_lim: Coord { bits: 0 },
            escape_its: Vec::new(),
            pt_lt: Point { re: Coord { bits: 0 }, im: Coord { bits: 0 } },
            col_palete: Vec::new(),
        }
    }

    /// The snapshot of this session, for saving.
    pub fn to_config(&self) -> (config: FractalConfig)
        ensures
            config@ == self@.snapshot(),
    {
        FractalConfig {
            rows: self.rows,
            cols: self.cols,
            mid_pt: (self.mid_pt.re, self.mid_pt.im),
            pt_div: self.pt_div,
            max_its: self.max_its,
            col_palete: copy_palete(&self.col_palete),
            escape_its: copy_grid(&self.escape_its),
        }
    }

    /// Replaces what this session holds by what `config` holds. The limits
    /// and the program settings stay as they are.
    pub fn from_config(&mut self, config: FractalConfig)
        ensures
            final(self)@ == old(self)@.loaded(config@),
    {
        self.rows = config.rows;
        self.cols = config.cols;
        self.mid_pt = Point { re: config.mid_pt.0, im: config.mid_pt.1 };
        self.pt_div = config.pt_div;
        self.max_its = config.max_its;
        self.col_palete = config.col_palete;
        self.escape_its = config.escape_its;
    }

    /// Loads a saved session: what `config` holds replaces what this session
    /// holds, and the limits that belong to the loaded geometry are stored
    /// together with the top left sample that they define. The program
    /// settings stay.
    ///
    /// The limits follow from the centre, the spacing and the size of the
    /// loaded grid; they are computed by the caller.
    pub fn load_config(&mut self, config: FractalConfig, left_lim: Coord, top_lim: Coord)
        ensures
            final(self)@ == old(self)@.loaded(config@).placed(left_lim, top_lim),
    {
        self.from_config(config);
        self.set_limits(left_lim, top_lim);
    }

    /// Says whether the grid has `rows` rows of `cols` cells each.
    pub fn is_well_formed(&self) -> (ok: bool)
        ensures
            ok == self@.wf(),
    {
        if self.escape_its.len() != self.rows as usize {
            return false;
        }
        let mut r: usize = 0;
        while r < self.escape_its.len()
            invariant
                r <= self.escape_its@.len(),
                self.escape_its@.len() == self.rows,
                forall|i: int| 0 <= i < r ==> #[trigger] self@.escape_its[i].len() == self.cols,
            decreases self.escape_its@.len() - r,
        {
            if self.escape_its[r].len() != self.cols as usize {
                assert(self@.escape_its[r as int].len() != self.cols);
                return false;
            }
            r += 1;
        }
        true
    }

    /// Stores the limits of the grid, and the top left sample that they
    /// define. The grid and everything else stay as they are.
    ///
    /// The limits follow from the centre, the spacing and the size of the
    /// grid; they are computed by the caller.
    pub fn set_limits(&mut self, left_lim: Coord, top_lim: Coord)
        ensures
            final(self)@ == old(self)@.placed(left_lim, top_lim),
    {
        self.left_lim = left_lim;
        self.top_lim = top_lim;
        self.pt_lt = Point { re: left_lim, im: top_lim };
    }

    /// Lays out a grid of `rows` by `cols` samples: the grid of escape counts
    /// is made anew, every cell zero, and the limits are stored as by
    /// [`Fractal::set_limits`].
    ///
    /// No size is refused: with no rows the grid is empty, with no columns
    /// every row is.
    pub fn init_fractal_image(&mut self, rows: u32, cols: u32, left_lim: Coord, top_lim: Coord)
        ensures
            final(self)@ == old(self)@.sized(rows, cols, left_lim, top_lim),
            final(self)@.wf(),
    {
        self.rows = rows;
        self.cols = cols;
        self.escape_its = new_grid(rows, cols);
        self.set_limits(left_lim, top_lim);
    }

    /// Writes one row of the grid of escape counts.
    ///
    /// `smoothed` holds, for each column of the row from the left, the whole
    /// part of the smoothed count of that sample's orbit. Each is settled
    /// under the session's limit and stored in its cell; the other rows stay.
    pub fn cal_row_divergence(&mut self, row: u32, smoothed: &Vec<u32>)
        requires
            old(self)@.wf(),
            row < old(self).rows,
            smoothed@.len() == old(self).cols,
        ensures
            final(self)@ == old(self)@.with_row(
                row as int,
                settled_row(smoothed@, old(self).max_its),
            ),
            final(self)@.wf(),
            old(self).max_its >= 1 ==> final(self)@.row_counted(row as int),
    {
        let mut cells: Vec<u32> = Vec::new();
        let mut col: usize = 0;
        while col < smoothed.len()
            invariant
                col <= smoothed@.len(),
                cells@.len() == col,
                forall|c: int| 0 <= c < col ==> cells@[c] == settled(smoothed@[c], self.max_its),
            decreases smoothed@.len() - col,
        {
            cells.push(settle(smoothed[col], self.max_its));
            col += 1;
        }
        assert(cells@ == settled_row(smoothed@, self.max_its));
        self.escape_its.set(row as usize, cells);
        proof {
            assert forall|r: int| 0 <= r < self@.escape_its.len() implies #[trigger] self@.escape_its[r].len()
                == self.cols by {
                if r != row {
                    assert(self@.escape_its[r] == old(self)@.escape_its[r]);
                }
            }
        }
    }
}

/// Saving a session and loading the snapshot, into any session, reproduces
/// the rows, the columns, the centre, the spacing and the iteration limit of
/// the saved session, bit for bit, and its palette and grid as well.
pub proof fn lemma_config_round_trip(saved: FractalModel, session: FractalModel)
    ensures
        session.loaded(saved.snapshot()).rows == saved.rows,
        session.loaded(saved.snapshot()).cols == saved.cols,
        session.loaded(saved.snapshot()).mid_pt == saved.mid_pt,
        session.loaded(saved.snapshot()).pt_div == saved.pt_div,
        session.loaded(saved.snapshot()).max_its == saved.max_its,
        session.loaded(saved.snapshot()).col_palete == saved.col_palete,
        session.loaded(saved.snapshot()).escape_its == saved.escape_its,
        session.loaded(saved.snapshot()).snapshot() == saved.snapshot(),
{
}

} // verus!
