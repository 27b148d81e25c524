//! The wireframe of a plot: which lines are drawn, and in which order.

use vstd::prelude::*;
use vstd::arithmetic::div_mod::{lemma_fundamental_div_mod, lemma_fundamental_div_mod_converse};
use crate::grid::lemma_cell_of_position;
use crate::plot::{Pixel, Plot, PlotView, Sample};

verus! {

/// A straight piece of the wireframe. It joins two neighbouring grid points,
/// each given as row and column.
pub struct Segment {
    pub from: (int, int),
    pub to: (int, int),
}

/// A line on the screen.
#[derive(Clone, Copy, Debug, PartialEq, Eq, Structural)]
pub struct Line {
    pub from: Pixel,
    pub to: Pixel,
}

/// The piece of row `row` that runs from column `k` to column `k + 1`.
pub open spec fn row_segment(row: int, k: int) -> Segment {
    Segment { from: (row, k), to: (row, k + 1) }
}

/// The piece of column `col` that runs from row `k` to row `k + 1`.
pub open spec fn column_segment(col: int, k: int) -> Segment {
    Segment { from: (k, col), to: (k + 1, col) }
}

/// Row `row` as a connected run of `cols - 1` pieces, from the first column
/// to the last.
pub open spec fn row_polyline(row: int, cols: int) -> Seq<Segment> {
    Seq::new((cols - 1) as nat, |k: int| row_segment(row, k))
}

/// Column `col` as a connected run of `rows - 1` pieces, from the first row to
/// the last.
pub open spec fn column_polyline(col: int, rows: int) -> Seq<Segment> {
    Seq::new((rows - 1) as nat, |k: int| column_segment(col, k))
}

/// The first `count` rows, one polyline each.
pub open spec fn row_pass(count: int, cols: int) -> Seq<Seq<Segment>> {
    Seq::new(count as nat, |row: int| row_polyline(row, cols))
}

/// The first `count` columns, one polyline each.
pub open spec fn column_pass(count: int, rows: int) -> Seq<Seq<Segment>> {
    Seq::new(count as nat, |col: int| column_polyline(col, rows))
}

/// Every piece of the wireframe in the order of drawing: all rows from the
/// first to the last, then all columns from the first to the last.
pub open spec fn wireframe(rows: int, cols: int) -> Seq<Segment> {
    row_pass(rows, cols).flatten() + column_pass(cols, rows).flatten()
}

/// `lines` and `frame` have one entry per piece, and each line joins what
/// `project` returned for the two grid points of its piece.
pub open spec fn projected<P: Fn(Sample, u64, u64, u64, u64) -> Pixel>(
    plot: PlotView,
    project: P,
    alpha: u64,
    frame: Seq<Segment>,
    lines: Seq<Line>,
) -> bool {
    &&& lines.len() == frame.len()
    &&& forall|n: int|
        0 <= n < lines.len() ==> {
            let piece = frame[n];
            let line = #[trigger] lines[n];
            &&& plot.projects(project, alpha, piece.from.0, piece.from.1, line.from)
            &&& plot.projects(project, alpha, piece.to.0, piece.to.1, line.to)
        }
}

/// Where one piece starts at the grid point at which the piece before it
/// ended, its line starts at the very pixel at which the line before it ended.
pub open spec fn connected(frame: Seq<Segment>, lines: Seq<Line>) -> bool {
    forall|n: int|
        0 <= n && n + 1 < lines.len() && frame[n].to == frame[n + 1].from ==> {
            let line = #[trigger] lines[n];
            line.to == lines[n + 1].from
        }
}

impl PlotView {
    /// `lines` is one frame of the plot seen at the angle `alpha`: the
    /// wireframe, piece by piece in the order of drawing, with every grid point
    /// mapped to the screen by `project`.
    pub open spec fn rendered<P: Fn(Sample, u64, u64, u64, u64) -> Pixel>(
        self,
        project: P,
        alpha: u64,
        lines: Seq<Line>,
    ) -> bool {
        let frame = wireframe(self.rows as int, self.cols as int);
        projected(self, project, alpha, frame, lines) && connected(frame, lines)
    }
}

impl Plot {
    /// The lines of one frame, in the order in which they are to be drawn.
    ///
    /// Each row is followed from its first column to its last, then each
    /// column from its first row to its last. A grid point is projected once
    /// for each polyline that passes through it, and a line starts with the
    /// pixel that ended the line before it on the same polyline.
    pub fn render<P>(&self, alpha: u64, project: &P) -> (lines: Vec<Line>) where
        P: Fn(Sample, u64, u64, u64, u64) -> Pixel,

        requires
            self@.projectable(*project, alpha),
        ensures
            self@.rendered(*project, alpha, lines@),
            lines@.len() == self@.rows * (self@.cols - 1) + self@.cols * (self@.rows - 1),
    {
        let rows: usize = self.rows();
        let cols: usize = self.cols();
        let mut lines: Vec<Line> = Vec::new();
        let ghost mut frame: Seq<Segment> = Seq::empty();

        let mut i: usize = 0;
        while i < rows
            invariant
                i <= rows,
                rows == self@.rows,
                cols == self@.cols,
                self@.wf(),
                self@.projectable(*project, alpha),
                frame == row_pass(i as int, cols as int).flatten(),
                frame.len() > 0 ==> frame.last().to.0 == i - 1,
                projected(self@, *project, alpha, frame, lines@),
                connected(frame, lines@),
            decreases rows - i,
        {
            let ghost done = frame;
            let ghost polyline = row_polyline(i as int, cols as int);
            let mut previous_point: Pixel = self.get_pixel_value(i, 0, alpha, project);
            let mut j: usize = 1;
            while j < cols
                invariant
                    i < rows,
                    1 <= j <= cols,
                    rows == self@.rows,
                    cols == self@.cols,
                    self@.wf(),
                    self@.projectable(*project, alpha),
                    polyline == row_polyline(i as int, cols as int),
                    frame == done + polyline.take(j - 1),
                    projected(self@, *project, alpha, frame, lines@),
                    connected(frame, lines@),
                    self@.projects(*project, alpha, i as int, j - 1, previous_point),
                    j == 1 ==> (frame.len() > 0 ==> frame.last().to.0 == i - 1),
                    j > 1 ==> frame.len() > 0 && frame.last() == row_segment(i as int, j - 2)
                        && lines@.last().to == previous_point,
                decreases cols - j,
            {
                let next_point: Pixel = self.get_pixel_value(i, j, alpha, project);
                lines.push(Line { from: previous_point, to: next_point });
                proof {
                    let piece = row_segment(i as int, j - 1);
                    assert(polyline[j - 1] == piece);
                    assert(done + polyline.take(j as int) =~= frame.push(piece));
                    frame = frame.push(piece);
                }
                previous_point = next_point;
                j += 1;
            }
            proof {
                assert(polyline.take(cols - 1) =~= polyline);
                assert(row_pass(i + 1, cols as int) =~= row_pass(i as int, cols as int).push(
                    polyline,
                ));
                row_pass(i as int, cols as int).lemma_flatten_push(polyline);
            }
            i += 1;
        }

        let ghost row_part = frame;
        let mut j: usize = 0;
        while j < cols
            invariant
                j <= cols,
                rows == self@.rows,
                cols == self@.cols,
                self@.wf(),
                self@.projectable(*project, alpha),
                row_part == row_pass(rows as int, cols as int).flatten(),
                frame == row_part + column_pass(j as int, rows as int).flatten(),
                frame.len() > 0 ==> frame.last().to.0 >= 1,
                projected(self@, *project, alpha, frame, lines@),
                connected(frame, lines@),
            decreases cols - j,
        {
            let ghost done = frame;
            let ghost polyline = column_polyline(j as int, rows as int);
            let mut previous_point: Pixel = self.get_pixel_value(0, j, alpha, project);
            let mut i: usize = 1;
            while i < rows
                invariant
                    j < cols,
                    1 <= i <= rows,
                    rows == self@.rows,
                    cols == self@.cols,
                    self@.wf(),
                    self@.projectable(*project, alpha),
                    polyline == column_polyline(j as int, rows as int),
                    frame == done + polyline.take(i - 1),
                    projected(self@, *project, alpha, frame, lines@),
                    connected(frame, lines@),
                    self@.projects(*project, alpha, i - 1, j as int, previous_point),
                    i == 1 ==> (frame.len() > 0 ==> frame.last().to.0 >= 1),
                    i > 1 ==> frame.len() > 0 && frame.last() == column_segment(j as int, i - 2)
                        && lines@.last().to == previous_point,
                decreases rows - i,
            {
                let next_point: Pixel = self.get_pixel_value(i, j, alpha, project);
                lines.push(Line { from: previous_point, to: next_point });
                proof {
                    let piece = column_segment(j as int, i - 1);
                    assert(polyline[i - 1] == piece);
                    assert(done + polyline.take(i as int) =~= frame.push(piece));
                    frame = frame.push(piece);
                }
                previous_point = next_point;
                i += 1;
            }
            proof {
                assert(polyline.take(rows - 1) =~= polyline);
                assert(column_pass(j + 1, rows as int) =~= column_pass(j as int, rows as int).push(
                    polyline,
                ));
                column_pass(j as int, rows as int).lemma_flatten_push(polyline);
                assert(frame =~= row_part + column_pass(j + 1, rows as int).flatten());
            }
            j += 1;
        }
        proof {
            lemma_wireframe_counts(rows as int, cols as int);
        }
        lines
    }
}

/// `project` has one result for each choice of arguments.
pub open spec fn single_valued_projection<P: Fn(Sample, u64, u64, u64, u64) -> Pixel>(
    project: P,
) -> bool {
    forall|sample: Sample, alpha: u64, spread: u64, x_shift: u64, y_shift: u64, p: Pixel, q: Pixel|
        #![trigger
            call_ensures(project, (sample, alpha, spread, x_shift, y_shift), p),
            call_ensures(project, (sample, alpha, spread, x_shift, y_shift), q)
        ]
        call_ensures(project, (sample, alpha, spread, x_shift, y_shift), p) && call_ensures(
            project,
            (sample, alpha, spread, x_shift, y_shift),
            q,
        ) ==> p == q
}

/// Polylines of one length laid end to end: piece `r` of polyline `q` is
/// piece `q * width + r` of the whole.
proof fn lemma_flatten_uniform<A>(polylines: Seq<Seq<A>>, width: int)
    requires
        0 <= width,
        forall|q: int| 0 <= q < polylines.len() ==> (#[trigger] polylines[q]).len() == width,
    ensures
        polylines.flatten().len() == polylines.len() * width,
        forall|q: int, r: int|
            0 <= q < polylines.len() && 0 <= r < width ==> polylines.flatten()[q * width + r]
                == #[trigger] polylines[q][r],
    decreases polylines.len(),
{
    if polylines.len() == 0 {
        assert(polylines.flatten() =~= Seq::<A>::empty());
    } else {
        let front = polylines.drop_last();
        let back = polylines.last();
        lemma_flatten_uniform(front, width);
        assert(polylines =~= front.push(back));
        front.lemma_flatten_push(back);
        assert(polylines.flatten() =~= front.flatten() + back);
        assert(polylines.len() * width == front.len() * width + width) by (nonlinear_arith)
            requires
                polylines.len() == front.len() + 1,
        ;
        let whole = polylines.flatten();
        assert(back == polylines[polylines.len() - 1]);
        assert(back.len() == width);
        assert(whole.len() == front.flatten().len() + width);
        assert forall|q: int, r: int|
            0 <= q < polylines.len() && 0 <= r < width implies whole[q * width + r]
            == #[trigger] polylines[q][r] by {
            let position = q * width + r;
            if q < front.len() {
                assert(0 <= position < front.len() * width) by (nonlinear_arith)
                    requires
                        position == q * width + r,
                        0 <= q < front.len(),
                        0 <= r < width,
                ;
                assert(front[q] == polylines[q]);
                assert(front.flatten()[position] == front[q][r]);
            } else {
                assert(position == front.flatten().len() + r);
            }
        }
    }
}

/// The wireframe has `rows` row polylines of `cols - 1` pieces each, followed
/// by `cols` column polylines of `rows - 1` pieces each: in all
/// `rows * (cols - 1) + cols * (rows - 1)` pieces.
pub proof fn lemma_wireframe_counts(rows: int, cols: int)
    requires
        1 <= rows,
        1 <= cols,
    ensures
        row_pass(rows, cols).len() == rows,
        forall|row: int|
            0 <= row < rows ==> (#[trigger] row_pass(rows, cols)[row]).len() == cols - 1,
        column_pass(cols, rows).len() == cols,
        forall|col: int|
            0 <= col < cols ==> (#[trigger] column_pass(cols, rows)[col]).len() == rows - 1,
        row_pass(rows, cols).flatten().len() == rows * (cols - 1),
        column_pass(cols, rows).flatten().len() == cols * (rows - 1),
        wireframe(rows, cols).len() == rows * (cols - 1) + cols * (rows - 1),
{
    lemma_flatten_uniform(row_pass(rows, cols), cols - 1);
    lemma_flatten_uniform(column_pass(cols, rows), rows - 1);
}

/// The piece at each position of the wireframe. Position `n` of the row pass
/// is piece `n % (cols - 1)` of row `n / (cols - 1)`; position `m` of the
/// column pass, which follows the row pass, is piece `m % (rows - 1)` of
/// column `m / (rows - 1)`.
pub proof fn lemma_wireframe_piece(rows: int, cols: int, n: int)
    requires
        1 <= rows,
        1 <= cols,
        0 <= n < rows * (cols - 1) + cols * (rows - 1),
    ensures
        n < rows * (cols - 1) ==> wireframe(rows, cols)[n] == row_segment(
            n / (cols - 1),
            n % (cols - 1),
        ),
        n >= rows * (cols - 1) ==> wireframe(rows, cols)[n] == column_segment(
            (n - rows * (cols - 1)) / (rows - 1),
            (n - rows * (cols - 1)) % (rows - 1),
        ),
{
    lemma_wireframe_counts(rows, cols);
    lemma_flatten_uniform(row_pass(rows, cols), cols - 1);
    lemma_flatten_uniform(column_pass(cols, rows), rows - 1);
    if n < rows * (cols - 1) {
        let width = cols - 1;
        assert(width > 0) by (nonlinear_arith)
            requires
                0 <= n < rows * width,
                0 <= width,
        ;
        lemma_cell_of_position(n, rows, width);
        let q = n / width;
        let r = n % width;
        assert(row_pass(rows, cols)[q][r] == row_segment(q, r));
    } else {
        let width = rows - 1;
        let m = n - rows * (cols - 1);
        assert(width > 0) by (nonlinear_arith)
            requires
                0 <= m < cols * width,
                0 <= width,
        ;
        lemma_cell_of_position(m, cols, width);
        let q = m / width;
        let r = m % width;
        assert(column_pass(cols, rows)[q][r] == column_segment(q, r));
    }
}

/// Position `n` of the wireframe is the first piece of a polyline.
pub open spec fn starts_polyline(rows: int, cols: int, n: int) -> bool {
    if n < rows * (cols - 1) {
        n % (cols - 1) == 0
    } else {
        (n - rows * (cols - 1)) % (rows - 1) == 0
    }
}

/// A piece starts at the grid point at which the piece before it ended,
/// unless it is the first piece of a polyline: then it starts elsewhere.
pub proof fn lemma_wireframe_joints(rows: int, cols: int, n: int)
    requires
        2 <= rows,
        2 <= cols,
        0 <= n,
        n + 1 < rows * (cols - 1) + cols * (rows - 1),
    ensures
        (wireframe(rows, cols)[n].to == wireframe(rows, cols)[n + 1].from) == !starts_polyline(
            rows,
            cols,
            n + 1,
        ),
{
    let row_pieces = rows * (cols - 1);
    lemma_wireframe_piece(rows, cols, n);
    lemma_wireframe_piece(rows, cols, n + 1);
    if n + 1 < row_pieces {
        lemma_next_position(n, rows, cols - 1);
    } else if n < row_pieces {
        let width = cols - 1;
        lemma_cell_of_position(n, rows, width);
        assert(0int % (rows - 1) == 0);
        assert(0int / (rows - 1) == 0);
        assert(rows * width >= 2 * width) by (nonlinear_arith)
            requires
                rows >= 2,
                width > 0,
        ;
        assert(n / width != 0);
    } else {
        lemma_next_position(n - row_pieces, cols, rows - 1);
    }
}

/// The grid point of the position after `k`: the next point of the same
/// line, or the first point of the next line.
proof fn lemma_next_position(k: int, lines: int, width: int)
    requires
        0 < width,
        0 <= k,
        k + 1 < lines * width,
    ensures
        k % width + 1 < width ==> (k + 1) / width == k / width && (k + 1) % width == k % width + 1,
        k % width + 1 == width ==> (k + 1) / width == k / width + 1 && (k + 1) % width == 0,
        0 <= k % width < width,
{
    lemma_fundamental_div_mod(k, width);
    let q = k / width;
    let r = k % width;
    assert(width * q == q * width) by (nonlinear_arith);
    if r + 1 < width {
        lemma_fundamental_div_mod_converse(k + 1, width, q, r + 1);
    } else {
        assert((q + 1) * width == q * width + width) by (nonlinear_arith);
        lemma_fundamental_div_mod_converse(k + 1, width, q + 1, 0);
    }
}

/// A frame is determined by the plot, the angle and the projection: if
/// `project` has one result for each choice of arguments, any two frames of
/// one plot at one angle hold the same lines in the same order.
pub proof fn lemma_render_deterministic<P: Fn(Sample, u64, u64, u64, u64) -> Pixel>(
    plot: PlotView,
    project: P,
    alpha: u64,
    first: Seq<Line>,
    second: Seq<Line>,
)
    requires
        single_valued_projection(project),
        plot.rendered(project, alpha, first),
        plot.rendered(project, alpha, second),
    ensures
        first == second,
{
    let frame = wireframe(plot.rows as int, plot.cols as int);
    assert forall|n: int| 0 <= n < first.len() implies first[n] == second[n] by {
        assert(plot.projects(project, alpha, frame[n].from.0, frame[n].from.1, first[n].from));
        assert(plot.projects(project, alpha, frame[n].from.0, frame[n].from.1, second[n].from));
        assert(plot.projects(project, alpha, frame[n].to.0, frame[n].to.1, first[n].to));
        assert(plot.projects(project, alpha, frame[n].to.0, frame[n].to.1, second[n].to));
    }
    assert(first =~= second);
}

} // verus!
