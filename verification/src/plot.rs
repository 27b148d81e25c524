//! The sampled surface: a grid of points, fixed once it is built.

use vstd::prelude::*;
use crate::grid::{
    coordinate, grid_coordinate, lemma_cell_index, lemma_cell_of_position, mirrored,
};
use crate::ratio::Ratio;

verus! {

/// The exponent field of an IEEE-754 binary64 bit pattern: the eleven bits
/// below the sign bit.
pub open spec fn exponent_field(bits: u64) -> int {
    (bits as int / 0x10_0000_0000_0000) % 0x800
}

/// Whether a binary64 bit pattern encodes a finite number. Infinities and NaNs
/// are the patterns whose exponent field is all ones.
pub open spec fn finite_bits(bits: u64) -> bool {
    exponent_field(bits) != 0x7ff
}

/// Whether a binary64 bit pattern encodes a finite number.
pub fn is_finite_bits(bits: u64) -> (finite: bool)
    ensures
        finite == finite_bits(bits),
{
    assert((bits >> 52) & 0x7ff == (bits / 0x10_0000_0000_0000) % 0x800) by (bit_vector);
    (bits >> 52) & 0x7ff != 0x7ff
}

/// One grid point of the surface: its position in the plane after the fixed
/// rotation, and its height. Each field is a binary64 bit pattern.
#[derive(Clone, Copy, Debug, PartialEq, Eq, Structural)]
pub struct Sample {
    pub x: u64,
    pub y: u64,
    pub z: u64,
}

impl Sample {
    /// All three numbers are finite.
    pub open spec fn finite(self) -> bool {
        finite_bits(self.x) && finite_bits(self.y) && finite_bits(self.z)
    }

    /// Whether all three numbers are finite.
    pub fn is_finite(&self) -> (finite: bool)
        ensures
            finite == self.finite(),
    {
        is_finite_bits(self.x) && is_finite_bits(self.y) && is_finite_bits(self.z)
    }
}

/// A point on the screen. Each field is the bit pattern of an IEEE-754
/// binary32 number.
#[derive(Clone, Copy, Debug, PartialEq, Eq, Structural)]
pub struct Pixel {
    pub x: u32,
    pub y: u32,
}

/// Why a plot could not be built.
#[derive(Clone, Copy, Debug, PartialEq, Eq, Structural)]
pub enum ConstructionError {
    /// Fewer than two rows or columns, or a number of samples other than
    /// rows times columns.
    InvalidDimensions,
    /// The sample at this grid point is infinite or not a number. It is the
    /// first such sample in row-major order.
    NonFiniteSample { row: usize, col: usize },
}

/// A plot as a mathematical value: a grid of `rows * cols` samples in row-major
/// order, and the three numbers (binary64 bit patterns) that place it on the
/// screen.
pub struct PlotView {
    pub rows: nat,
    pub cols: nat,
    pub samples: Seq<Sample>,
    pub spread: u64,
    pub x_shift: u64,
    pub y_shift: u64,
}

impl PlotView {
    /// The sample at a grid point.
    pub open spec fn at(self, row: int, col: int) -> Sample
        recommends
            0 <= row < self.rows,
            0 <= col < self.cols,
    {
        self.samples[row * self.cols + col]
    }

    /// `project` accepts every sample of the plot at the angle `alpha`.
    pub open spec fn projectable<P: Fn(Sample, u64, u64, u64, u64) -> Pixel>(
        self,
        project: P,
        alpha: u64,
    ) -> bool {
        forall|row: int, col: int|
            0 <= row < self.rows && 0 <= col < self.cols ==> call_requires(
                project,
                (#[trigger] self.at(row, col), alpha, self.spread, self.x_shift, self.y_shift),
            )
    }

    /// `pixel` is what `project` returned for the sample at a grid point, the
    /// angle `alpha`, and the plot's spread and shifts.
    pub open spec fn projects<P: Fn(Sample, u64, u64, u64, u64) -> Pixel>(
        self,
        project: P,
        alpha: u64,
        row: int,
        col: int,
        pixel: Pixel,
    ) -> bool {
        call_ensures(
            project,
            (self.at(row, col), alpha, self.spread, self.x_shift, self.y_shift),
            pixel,
        )
    }

    /// What holds of every plot: at least two rows and two columns, one
    /// sample for each grid point, and every sample finite.
    pub open spec fn wf(self) -> bool {
        &&& valid_dimensions(self.rows as int, self.cols as int, self.samples.len() as int)
        &&& all_finite(self.samples)
    }
}

/// A grid of `rows` by `cols` points is large enough to be drawn, and `len`
/// samples fill it.
pub open spec fn valid_dimensions(rows: int, cols: int, len: int) -> bool {
    rows >= 2 && cols >= 2 && rows * cols == len
}

/// Every sample is finite.
pub open spec fn all_finite(samples: Seq<Sample>) -> bool {
    forall|k: int| 0 <= k < samples.len() ==> (#[trigger] samples[k]).finite()
}

/// `k` is the position of the first sample that is not finite.
pub open spec fn first_non_finite(samples: Seq<Sample>, k: int) -> bool {
    &&& 0 <= k < samples.len()
    &&& !samples[k].finite()
    &&& forall|m: int| 0 <= m < k ==> (#[trigger] samples[m]).finite()
}

/// The surface, sampled on a grid of at least two rows and two columns. Every
/// sample is finite, and nothing changes after construction.
pub struct Plot {
    array: Vec<Sample>,
    rows: usize,
    cols: usize,
    spread: u64,
    x_shift: u64,
    y_shift: u64,
}

impl View for Plot {
    type V = PlotView;

    closed spec fn view(&self) -> PlotView {
        PlotView {
            rows: self.rows as nat,
            cols: self.cols as nat,
            samples: self.array@,
            spread: self.spread,
            x_shift: self.x_shift,
            y_shift: self.y_shift,
        }
    }
}

impl Plot {
    #[verifier::type_invariant]
    spec fn well_formed(self) -> bool {
        self@.wf()
    }

    /// What `from_samples` makes of its arguments: the plot, or the reason why
    /// there is none. Exactly one result fits.
    pub open spec fn built(
        result: Result<Plot, ConstructionError>,
        rows: usize,
        cols: usize,
        samples: Seq<Sample>,
        spread: u64,
        x_shift: u64,
        y_shift: u64,
    ) -> bool {
        match result {
            Ok(plot) => {
                &&& valid_dimensions(rows as int, cols as int, samples.len() as int)
                &&& all_finite(samples)
                &&& plot@ == (PlotView {
                    rows: rows as nat,
                    cols: cols as nat,
                    samples,
                    spread,
                    x_shift,
                    y_shift,
                })
            },
            Err(ConstructionError::InvalidDimensions) => !valid_dimensions(
                rows as int,
                cols as int,
                samples.len() as int,
            ),
            Err(ConstructionError::NonFiniteSample { row, col }) => {
                &&& valid_dimensions(rows as int, cols as int, samples.len() as int)
                &&& row < rows
                &&& col < cols
                &&& first_non_finite(samples, row * cols + col)
            },
        }
    }

    /// The samples are what `function` returned at the grid points, taken row
    /// by row: sample `k` belongs to column `k % cols` and row `k / cols`, and
    /// `function` was given the coordinate of the column, then that of the row.
    pub open spec fn sampled<F: Fn(Ratio, Ratio) -> Sample>(
        function: F,
        rows: int,
        cols: int,
        samples: Seq<Sample>,
    ) -> bool {
        &&& samples.len() == rows * cols
        &&& forall|k: int|
            0 <= k < samples.len() ==> call_ensures(
                function,
                (coordinate(k % cols, cols), coordinate(k / cols, rows)),
                #[trigger] samples[k],
            )
    }

    /// Two results are the same plot, or the same error.
    pub open spec fn same_outcome(
        first: Result<Plot, ConstructionError>,
        second: Result<Plot, ConstructionError>,
    ) -> bool {
        match (first, second) {
            (Ok(p), Ok(q)) => p@ == q@,
            (Err(e), Err(f)) => e == f,
            _ => false,
        }
    }

    /// Samples `function` on a grid of `rows` by `cols` points and builds the
    /// plot from what it returns.
    ///
    /// `function` is called once for each grid point, row by row, unless the
    /// dimensions are invalid: then it is not called at all.
    pub fn get_initial_plot<F>(
        function: F,
        rows: usize,
        cols: usize,
        spread: u64,
        x_shift: u64,
        y_shift: u64,
    ) -> (result: Result<Plot, ConstructionError>) where F: Fn(Ratio, Ratio) -> Sample
        requires
            forall|row: int, col: int|
                0 <= row < rows && 0 <= col < cols ==> #[trigger] call_requires(
                    function,
                    (coordinate(col, cols as int), coordinate(row, rows as int)),
                ),
        ensures
            rows < 2 || cols < 2 || rows * cols > usize::MAX ==> result matches Err(
                ConstructionError::InvalidDimensions,
            ),
            rows >= 2 && cols >= 2 && rows * cols <= usize::MAX ==> exists|samples: Seq<Sample>|
                Plot::sampled(function, rows as int, cols as int, samples) && Plot::built(
                    result,
                    rows,
                    cols,
                    samples,
                    spread,
                    x_shift,
                    y_shift,
                ),
            result matches Ok(plot) ==> plot@.wf(),
    {
        if rows < 2 || cols < 2 {
            return Err(ConstructionError::InvalidDimensions);
        }
        let total: usize = match rows.checked_mul(cols) {
            Some(total) => total,
            None => {
                return Err(ConstructionError::InvalidDimensions);
            },
        };
        assert(rows <= i64::MAX && cols <= i64::MAX) by (nonlinear_arith)
            requires
                rows >= 2,
                cols >= 2,
                rows * cols <= u64::MAX,
        ;
        let mut array: Vec<Sample> = Vec::with_capacity(total);
        let mut i: usize = 0;
        while i < rows
            invariant
                i <= rows,
                2 <= rows <= i64::MAX,
                2 <= cols <= i64::MAX,
                array@.len() == i * cols,
                forall|k: int|
                    0 <= k < array@.len() ==> call_ensures(
                        function,
                        (
                            coordinate(k % (cols as int), cols as int),
                            coordinate(k / (cols as int), rows as int),
                        ),
                        #[trigger] array@[k],
                    ),
                forall|row: int, col: int|
                    0 <= row < rows && 0 <= col < cols ==> #[trigger] call_requires(
                        function,
                        (coordinate(col, cols as int), coordinate(row, rows as int)),
                    ),
            decreases rows - i,
        {
            let y: Ratio = grid_coordinate(i, rows);
            let mut j: usize = 0;
            while j < cols
                invariant
                    i < rows,
                    j <= cols,
                    2 <= rows <= i64::MAX,
                    2 <= cols <= i64::MAX,
                    y == coordinate(i as int, rows as int),
                    array@.len() == i * cols + j,
                    forall|k: int|
                        0 <= k < array@.len() ==> call_ensures(
                            function,
                            (
                                coordinate(k % (cols as int), cols as int),
                                coordinate(k / (cols as int), rows as int),
                            ),
                            #[trigger] array@[k],
                        ),
                    forall|row: int, col: int|
                        0 <= row < rows && 0 <= col < cols ==> #[trigger] call_requires(
                            function,
                            (coordinate(col, cols as int), coordinate(row, rows as int)),
                        ),
                decreases cols - j,
            {
                let x: Ratio = grid_coordinate(j, cols);
                proof {
                    lemma_cell_index(i as int, j as int, rows as int, cols as int);
                }
                let sample: Sample = function(x, y);
                array.push(sample);
                j += 1;
            }
            assert((i + 1) * cols == i * cols + cols) by (nonlinear_arith);
            i += 1;
        }
        let ghost samples = array@;
        let result = Plot::from_samples(rows, cols, array, spread, x_shift, y_shift);
        assert(Plot::sampled(function, rows as int, cols as int, samples) && Plot::built(
            result,
            rows,
            cols,
            samples,
            spread,
            x_shift,
            y_shift,
        ));
        result
    }

    /// Builds a plot from samples that were taken beforehand, row by row.
    ///
    /// The dimensions are looked at first: there must be at least two rows and
    /// two columns, and as many samples as grid points. Then every sample must
    /// be finite.
    pub fn from_samples(
        rows: usize,
        cols: usize,
        samples: Vec<Sample>,
        spread: u64,
        x_shift: u64,
        y_shift: u64,
    ) -> (result: Result<Plot, ConstructionError>)
        ensures
            Plot::built(result, rows, cols, samples@, spread, x_shift, y_shift),
            result matches Ok(plot) ==> plot@.wf(),
    {
        let len: usize = samples.len();
        if rows < 2 || cols < 2 {
            return Err(ConstructionError::InvalidDimensions);
        }
        match rows.checked_mul(cols) {
            Some(total) => {
                if total != len {
                    return Err(ConstructionError::InvalidDimensions);
                }
            },
            None => {
                return Err(ConstructionError::InvalidDimensions);
            },
        }
        let mut k: usize = 0;
        while k < len
            invariant
                len == samples@.len(),
                k <= len,
                valid_dimensions(rows as int, cols as int, samples@.len() as int),
                forall|m: int| 0 <= m < k ==> (#[trigger] samples@[m]).finite(),
            decreases len - k,
        {
            if !samples[k].is_finite() {
                let row: usize = k / cols;
                let col: usize = k % cols;
                proof {
                    lemma_cell_of_position(k as int, rows as int, cols as int);
                }
                return Err(ConstructionError::NonFiniteSample { row, col });
            }
            k += 1;
        }
        Ok(Plot { array: samples, rows, cols, spread, x_shift, y_shift })
    }

    /// The sample at a grid point.
    pub fn sample(&self, row: usize, col: usize) -> (sample: Sample)
        requires
            row < self@.rows,
            col < self@.cols,
        ensures
            sample == self@.at(row as int, col as int),
            sample.finite(),
    {
        proof {
            use_type_invariant(self);
            lemma_cell_index(row as int, col as int, self.rows as int, self.cols as int);
            assert(self.array@.len() == self.array.len());
            assert(0 <= row * self.cols) by (nonlinear_arith);
        }
        self.array[row * self.cols + col]
    }

    /// The number of rows of the grid.
    pub fn rows(&self) -> (rows: usize)
        ensures
            rows == self@.rows,
            self@.wf(),
    {
        proof {
            use_type_invariant(self);
        }
        self.rows
    }

    /// The number of columns of the grid.
    pub fn cols(&self) -> (cols: usize)
        ensures
            cols == self@.cols,
            self@.wf(),
    {
        proof {
            use_type_invariant(self);
        }
        self.cols
    }

    /// The scale of the plot on the screen, in pixels for each unit.
    pub fn spread(&self) -> (spread: u64)
        ensures
            spread == self@.spread,
    {
        self.spread
    }

    /// The horizontal position of the plot's origin on the screen, in pixels.
    pub fn x_shift(&self) -> (x_shift: u64)
        ensures
            x_shift == self@.x_shift,
    {
        self.x_shift
    }

    /// The vertical position of the plot's origin on the screen, in pixels.
    pub fn y_shift(&self) -> (y_shift: u64)
        ensures
            y_shift == self@.y_shift,
    {
        self.y_shift
    }

    /// Where the sample at grid point `(i, j)` appears on the screen when the
    /// surface is viewed at the angle `alpha`.
    ///
    /// The arithmetic is `project`'s. This function hands it the sample, the
    /// angle, and the plot's spread and shifts, in this order.
    pub fn get_pixel_value<P>(&self, i: usize, j: usize, alpha: u64, project: &P) -> (pixel: Pixel)
        where P: Fn(Sample, u64, u64, u64, u64) -> Pixel
        requires
            i < self@.rows,
            j < self@.cols,
            call_requires(
                *project,
                (self@.at(i as int, j as int), alpha, self@.spread, self@.x_shift, self@.y_shift),
            ),
        ensures
            self@.projects(*project, alpha, i as int, j as int, pixel),
    {
        let sample: Sample = self.sample(i, j);
        project(sample, alpha, self.spread, self.x_shift, self.y_shift)
    }
}

/// `function` has one result for each pair of arguments.
pub open spec fn single_valued<F: Fn(Ratio, Ratio) -> Sample>(function: F) -> bool {
    forall|x: Ratio, y: Ratio, s: Sample, t: Sample|
        #![trigger call_ensures(function, (x, y), s), call_ensures(function, (x, y), t)]
        call_ensures(function, (x, y), s) && call_ensures(function, (x, y), t) ==> s == t
}

/// `function` gives a point and its reflection through the origin the same
/// height.
pub open spec fn point_symmetric<F: Fn(Ratio, Ratio) -> Sample>(function: F) -> bool {
    forall|x: Ratio, y: Ratio, s: Sample, t: Sample|
        #![trigger
            call_ensures(function, (x, y), s),
            call_ensures(function, (x.negated(), y.negated()), t)
        ]
        call_ensures(function, (x, y), s) && call_ensures(function, (x.negated(), y.negated()), t)
            ==> s.z == t.z
}

/// For given samples and dimensions there is one result: two results that
/// `from_samples` may return for the same arguments are the same plot or the
/// same error.
pub proof fn lemma_built_unique(
    first: Result<Plot, ConstructionError>,
    second: Result<Plot, ConstructionError>,
    rows: usize,
    cols: usize,
    samples: Seq<Sample>,
    spread: u64,
    x_shift: u64,
    y_shift: u64,
)
    requires
        Plot::built(first, rows, cols, samples, spread, x_shift, y_shift),
        Plot::built(second, rows, cols, samples, spread, x_shift, y_shift),
    ensures
        Plot::same_outcome(first, second),
{
    if let Err(ConstructionError::NonFiniteSample { row: r1, col: c1 }) = first {
        if let Err(ConstructionError::NonFiniteSample { row: r2, col: c2 }) = second {
            let k1 = r1 * cols + c1;
            let k2 = r2 * cols + c2;
            assert(k1 == k2) by {
                if k1 < k2 {
                    assert(samples[k1].finite());
                }
                if k2 < k1 {
                    assert(samples[k2].finite());
                }
            }
            lemma_cell_index(r1 as int, c1 as int, rows as int, cols as int);
            lemma_cell_index(r2 as int, c2 as int, rows as int, cols as int);
        }
    }
}

/// Building twice gives the same grid, bit for bit: if `function` has one
/// result for each pair of arguments, two plots sampled from it with the same
/// dimensions, spread and shifts hold the same samples, and where one build
/// fails the other fails with the same error.
pub proof fn lemma_rebuild_identical<F: Fn(Ratio, Ratio) -> Sample>(
    function: F,
    rows: usize,
    cols: usize,
    spread: u64,
    x_shift: u64,
    y_shift: u64,
    first_samples: Seq<Sample>,
    first: Result<Plot, ConstructionError>,
    second_samples: Seq<Sample>,
    second: Result<Plot, ConstructionError>,
)
    requires
        single_valued(function),
        Plot::sampled(function, rows as int, cols as int, first_samples),
        Plot::built(first, rows, cols, first_samples, spread, x_shift, y_shift),
        Plot::sampled(function, rows as int, cols as int, second_samples),
        Plot::built(second, rows, cols, second_samples, spread, x_shift, y_shift),
    ensures
        first_samples == second_samples,
        Plot::same_outcome(first, second),
{
    assert forall|k: int| 0 <= k < first_samples.len() implies first_samples[k]
        == second_samples[k] by {
        let x = coordinate(k % (cols as int), cols as int);
        let y = coordinate(k / (cols as int), rows as int);
        assert(call_ensures(function, (x, y), first_samples[k]));
        assert(call_ensures(function, (x, y), second_samples[k]));
    }
    assert(first_samples =~= second_samples);
    lemma_built_unique(first, second, rows, cols, first_samples, spread, x_shift, y_shift);
}

/// The heights of a plot are symmetric about the centre of the grid: if
/// `function` gives a point and its reflection through the origin the same
/// height, then the sample at a grid point and the sample at the grid point
/// that mirrors it about the centre row and the centre column have the same
/// height. With an even number of rows or columns the first row or column has
/// no mirror image on the grid.
pub proof fn lemma_heights_point_symmetric<F: Fn(Ratio, Ratio) -> Sample>(
    function: F,
    plot: PlotView,
    row: int,
    col: int,
)
    requires
        point_symmetric(function),
        plot.wf(),
        plot.rows <= i64::MAX,
        plot.cols <= i64::MAX,
        Plot::sampled(function, plot.rows as int, plot.cols as int, plot.samples),
        0 <= row < plot.rows,
        0 <= col < plot.cols,
        0 <= mirrored(row, plot.rows as int) < plot.rows,
        0 <= mirrored(col, plot.cols as int) < plot.cols,
    ensures
        plot.at(row, col).z == plot.at(
            mirrored(row, plot.rows as int),
            mirrored(col, plot.cols as int),
        ).z,
{
    let rows = plot.rows as int;
    let cols = plot.cols as int;
    let other_row = mirrored(row, rows);
    let other_col = mirrored(col, cols);
    let here = row * cols + col;
    let there = other_row * cols + other_col;
    lemma_cell_index(row, col, rows, cols);
    lemma_cell_index(other_row, other_col, rows, cols);
    let x = coordinate(col, cols);
    let y = coordinate(row, rows);
    assert(coordinate(other_col, cols) == x.negated());
    assert(coordinate(other_row, rows) == y.negated());
    assert(call_ensures(function, (x, y), plot.samples[here]));
    assert(call_ensures(function, (x.negated(), y.negated()), plot.samples[there]));
}

} // verus!
