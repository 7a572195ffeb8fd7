//! Tables on a slide: where their cells lie.
use crate::docx_layout::RunMetrics;
use crate::draw_command::DrawCommand;
use crate::geometry::{PtOffset, PtSize};
use crate::pptx_paint;
use crate::pptx_paint::SlideTally;
use crate::units::Pt;
use vstd::prelude::*;

verus! {

/// A text body that was laid out in its box: its commands in the box's own
/// coordinates, what each of them measures, and the colours that its runs
/// declare.
#[derive(Debug)]
pub struct BodyLayout {
    /// The size of the box that it was laid out in.
    pub extent: PtSize,
    pub commands: Vec<DrawCommand>,
    pub runs: Vec<RunMetrics>,
    pub colors: Vec<Option<u32>>,
    /// Whether the text was shrunk to fit.
    pub shrunk: bool,
}

impl BodyLayout {
    /// Whether there is a measure for each command.
    pub open spec fn ok(self) -> bool {
        self.runs@.len() == self.commands@.len()
    }
}

/// The text of a table cell.
#[derive(Debug)]
pub struct CellText {
    /// Whether it holds no characters.
    pub empty: bool,
    /// The height that it needs at the width of its cell.
    pub needed: Pt,
    /// The text laid out in its cell, for which [`cell_boxes`] says how large it
    /// is.
    pub body: BodyLayout,
}

/// One cell as the table declares it.
#[derive(Debug)]
pub struct TableCell {
    /// How many columns it spans, one at the least.
    pub grid_span: u32,
    /// How many rows it spans, one at the least.
    pub row_span: u32,
    /// Whether another cell spans over it. It then keeps its place only.
    pub absorbed: bool,
    pub text: Option<CellText>,
}

/// One row as the table declares it.
#[derive(Debug)]
pub struct TableRow {
    /// The least height of the row, in EMU.
    pub height: Option<i64>,
    pub cells: Vec<TableCell>,
}

/// A table: the widths of its columns in EMU, and its rows.
#[derive(Debug)]
pub struct Table {
    pub grid: Vec<i64>,
    pub rows: Vec<TableRow>,
}

/// One cell with a text, waiting for the height of its row.
#[derive(Debug)]
pub struct CellLayout {
    pub row: usize,
    pub row_span: usize,
    /// Left edge within the frame.
    pub left: Pt,
    pub width: Pt,
    pub needed: Pt,
    pub body: BodyLayout,
}

// ── Edges and heights ──────────────────────────────────────────────────

/// The sum of the first `n` lengths.
pub open spec fn edge(lengths: Seq<Pt>, n: int) -> Pt
    decreases n,
{
    if n <= 0 {
        Pt::spec_zero()
    } else {
        edge(lengths, n - 1).spec_plus(lengths[n - 1])
    }
}

/// The edges that a run of lengths makes, from zero on.
pub open spec fn edges(lengths: Seq<Pt>) -> Seq<Pt> {
    Seq::new(lengths.len() + 1, |i: int| edge(lengths, i))
}

/// The edges that a run of lengths makes, one more than there are lengths.
pub fn prefix_edges(lengths: &Vec<Pt>) -> (r: Vec<Pt>)
    ensures
        r@ == edges(lengths@),
{
    let mut out: Vec<Pt> = Vec::new();
    let mut acc = Pt::zero();
    out.push(acc);
    let mut i: usize = 0;
    while i < lengths.len()
        invariant
            i <= lengths@.len(),
            acc == edge(lengths@, i as int),
            out@.len() == i + 1,
            forall|k: int| 0 <= k <= i ==> #[trigger] out@[k] == edge(lengths@, k),
        decreases lengths@.len() - i,
    {
        acc = acc.plus(lengths[i]);
        out.push(acc);
        i += 1;
    }
    assert(out@ =~= edges(lengths@));
    out
}

/// Edges never run backwards where no length is negative.
pub proof fn edges_ascend(lengths: Seq<Pt>, a: int, b: int)
    requires
        0 <= a <= b <= lengths.len(),
        forall|i: int| 0 <= i < lengths.len() ==> (#[trigger] lengths[i]).emu >= 0,
    ensures
        0 <= edge(lengths, a).emu <= edge(lengths, b).emu,
    decreases b,
{
    if b > 0 {
        assert(lengths[b - 1].emu >= 0);
        if a < b {
            edges_ascend(lengths, a, b - 1);
        } else {
            edges_ascend(lengths, a - 1, b - 1);
        }
    }
}

/// Each length lies between its two edges, as long as the sum stays in range.
pub proof fn edges_bracket_every_length(lengths: Seq<Pt>, i: int)
    requires
        0 <= i < lengths.len(),
        crate::units::fits(edge(lengths, i).emu + lengths[i].emu),
    ensures
        edges(lengths)[i + 1].spec_minus(edges(lengths)[i]) == lengths[i],
{
}

/// The heights of rows once the first `n` cells were taken into account: a row
/// is as tall as its tallest cell, and no lower than it declares. A cell that
/// spans rows makes none of them taller.
pub open spec fn grown(declared: Seq<Pt>, cells: Seq<CellLayout>, n: int) -> Seq<Pt>
    decreases n,
{
    if n <= 0 {
        declared
    } else {
        let h = grown(declared, cells, n - 1);
        let c = cells[n - 1];
        if c.row_span == 1 && c.row < h.len() {
            h.update(c.row as int, h[c.row as int].spec_max(c.needed))
        } else {
            h
        }
    }
}

/// The heights of rows, each raised to fit its tallest cell.
pub fn grown_row_heights(declared: &Vec<Pt>, cells: &Vec<CellLayout>) -> (r: Vec<Pt>)
    ensures
        r@ == grown(declared@, cells@, cells@.len() as int),
{
    let mut heights = declared.clone();
    assert(heights@ =~= declared@);
    let mut i: usize = 0;
    while i < cells.len()
        invariant
            i <= cells@.len(),
            heights@ == grown(declared@, cells@, i as int),
        decreases cells@.len() - i,
    {
        let row: usize = cells[i].row;
        if cells[i].row_span == 1 && row < heights.len() {
            let h = heights[row].max(cells[i].needed);
            heights.set(row, h);
        }
        i += 1;
    }
    heights
}

/// No row is lower than it declares, and none is too low for a cell of its
/// own.
pub proof fn rows_never_shrink(declared: Seq<Pt>, cells: Seq<CellLayout>, n: int)
    requires
        0 <= n <= cells.len(),
    ensures
        grown(declared, cells, n).len() == declared.len(),
        forall|r: int|
            0 <= r < declared.len() ==> declared[r].emu <= (#[trigger] grown(
                declared,
                cells,
                n,
            )[r]).emu,
        forall|i: int|
            0 <= i < n && (#[trigger] cells[i]).row_span == 1 && cells[i].row < declared.len()
                ==> cells[i].needed.emu <= grown(declared, cells, n)[cells[i].row as int].emu,
    decreases n,
{
    if n > 0 {
        rows_never_shrink(declared, cells, n - 1);
    }
}

/// A row that no cell of its own stands in keeps the height it declares.
pub proof fn untouched_rows_keep_their_height(
    declared: Seq<Pt>,
    cells: Seq<CellLayout>,
    n: int,
    r: int,
)
    requires
        0 <= n <= cells.len(),
        0 <= r < declared.len(),
        forall|i: int|
            0 <= i < n ==> !((#[trigger] cells[i]).row_span == 1 && cells[i].row == r),
    ensures
        grown(declared, cells, n)[r] == declared[r],
    decreases n,
{
    if n > 0 {
        rows_never_shrink(declared, cells, n - 1);
        untouched_rows_keep_their_height(declared, cells, n - 1, r);
        assert(!(cells[n - 1].row_span == 1 && cells[n - 1].row == r));
    }
}

// ── Cells ──────────────────────────────────────────────────────────────

/// One at the least.
pub open spec fn at_least_one(n: u32) -> int {
    if n < 1 {
        1
    } else {
        n as int
    }
}

/// How many columns the first `n` cells of a row take. A cell that another one
/// spans over takes its columns too.
pub open spec fn columns_before(cells: Seq<TableCell>, n: int) -> int
    decreases n,
{
    if n <= 0 {
        0
    } else {
        columns_before(cells, n - 1) + at_least_one(cells[n - 1].grid_span)
    }
}

/// The smaller of two numbers.
pub open spec fn least(a: int, b: int) -> int {
    if a < b {
        a
    } else {
        b
    }
}

/// The width that the grid gives the `n`th cell of a row.
pub open spec fn cell_width(cells: Seq<TableCell>, col_edges: Seq<Pt>, n: int) -> Pt {
    let start = columns_before(cells, n);
    let end = least(columns_before(cells, n + 1), col_edges.len() - 1);
    col_edges[end].spec_minus(col_edges[start])
}

/// Whether a cell has a text and a place in the grid.
pub open spec fn in_grid(cells: Seq<TableCell>, col_edges: Seq<Pt>, n: int) -> bool {
    &&& !cells[n].absorbed
    &&& cells[n].text is Some
    &&& columns_before(cells, n) + 1 < col_edges.len()
}

/// The cells among the first `n` of a row that have a text and a width.
pub open spec fn row_cells(
    cells: Seq<TableCell>,
    row: usize,
    col_edges: Seq<Pt>,
    n: int,
) -> Seq<CellLayout>
    decreases n,
{
    if n <= 0 {
        seq![]
    } else {
        let before = row_cells(cells, row, col_edges, n - 1);
        let c = cells[n - 1];
        if in_grid(cells, col_edges, n - 1) && cell_width(cells, col_edges, n - 1).emu > 0 {
            before.push(
                CellLayout {
                    row,
                    row_span: at_least_one(c.row_span) as usize,
                    left: col_edges[columns_before(cells, n - 1)],
                    width: cell_width(cells, col_edges, n - 1),
                    needed: c.text->0.needed,
                    body: c.text->0.body,
                },
            )
        } else {
            before
        }
    }
}

/// The cells of the first `n` rows that have a text and a width.
pub open spec fn table_cells(rows: Seq<TableRow>, col_edges: Seq<Pt>, n: int) -> Seq<CellLayout>
    decreases n,
{
    if n <= 0 {
        seq![]
    } else {
        table_cells(rows, col_edges, n - 1) + row_cells(
            rows[n - 1].cells@,
            (n - 1) as usize,
            col_edges,
            rows[n - 1].cells@.len() as int,
        )
    }
}

/// What is counted of the first `n` cells of a row: the texts that have no
/// width to go into, and the colours of the others.
pub open spec fn row_tally(
    t: SlideTally,
    cells: Seq<TableCell>,
    col_edges: Seq<Pt>,
    n: int,
    background: Option<u32>,
) -> SlideTally
    decreases n,
{
    if n <= 0 {
        t
    } else {
        let u = row_tally(t, cells, col_edges, n - 1, background);
        if !in_grid(cells, col_edges, n - 1) {
            u
        } else if cell_width(cells, col_edges, n - 1).emu > 0 {
            let colors = cells[n - 1].text->0.body.colors@;
            pptx_paint::run_tallies(u, colors, colors.len() as int, background)
        } else if cells[n - 1].text->0.empty {
            u
        } else {
            SlideTally { unplaced_table_cells: pptx_paint::up(u.unplaced_table_cells), ..u }
        }
    }
}

/// What is counted of the first `n` rows.
pub open spec fn rows_tally(
    t: SlideTally,
    rows: Seq<TableRow>,
    col_edges: Seq<Pt>,
    n: int,
    background: Option<u32>,
) -> SlideTally
    decreases n,
{
    if n <= 0 {
        t
    } else {
        row_tally(
            rows_tally(t, rows, col_edges, n - 1, background),
            rows[n - 1].cells@,
            col_edges,
            rows[n - 1].cells@.len() as int,
            background,
        )
    }
}

proof fn lemma_columns_before(cells: Seq<TableCell>, n: int)
    requires
        0 <= n,
    ensures
        n <= columns_before(cells, n),
    decreases n,
{
    if n > 0 {
        lemma_columns_before(cells, n - 1);
    }
}

/// Collects the cells of one row that have a text and a width.
fn collect_row(
    cells: Vec<TableCell>,
    row: usize,
    col_edges: &Vec<Pt>,
    background: Option<u32>,
    tally: &mut SlideTally,
    out: &mut Vec<CellLayout>,
)
    requires
        col_edges@.len() >= 2,
    ensures
        *final(tally) == row_tally(
            *old(tally),
            cells@,
            col_edges@,
            cells@.len() as int,
            background,
        ),
        final(out)@ == old(out)@ + row_cells(cells@, row, col_edges@, cells@.len() as int),
{
    let ghost all = cells@;
    let ghost counted = *tally;
    let ghost start_out = out@;
    let tracks: usize = col_edges.len() - 1;
    let mut col: usize = 0;
    assert(out@ =~= start_out + row_cells(all, row, col_edges@, 0));
    for cell in it: cells
        invariant
            it.seq() == all,
            tracks == col_edges@.len() - 1,
            tracks >= 1,
            col == least(columns_before(all, it.index() as int), usize::MAX as int),
            *tally == row_tally(counted, all, col_edges@, it.index() as int, background),
            out@ == start_out + row_cells(all, row, col_edges@, it.index() as int),
    {
        let ghost k = it.index() as int;
        let ghost before = out@;
        proof {
            lemma_columns_before(all, k);
            assert(cell == all[k]);
            assert(columns_before(all, k + 1) == columns_before(all, k) + at_least_one(
                cell.grid_span,
            ));
            assert(row_cells(all, row, col_edges@, k + 1) == (if in_grid(all, col_edges@, k)
                && cell_width(all, col_edges@, k).emu > 0 {
                row_cells(all, row, col_edges@, k).push(
                    CellLayout {
                        row,
                        row_span: at_least_one(cell.row_span) as usize,
                        left: col_edges@[columns_before(all, k)],
                        width: cell_width(all, col_edges@, k),
                        needed: cell.text->0.needed,
                        body: cell.text->0.body,
                    },
                )
            } else {
                row_cells(all, row, col_edges@, k)
            }));
        }
        let span: usize = if cell.grid_span < 1 {
            1
        } else {
            cell.grid_span as usize
        };
        let row_span: usize = if cell.row_span < 1 {
            1
        } else {
            cell.row_span as usize
        };
        let start: usize = col;
        col = col.saturating_add(span);
        if !cell.absorbed && start < tracks {
            if let Some(text) = cell.text {
                let end: usize = if col < tracks {
                    col
                } else {
                    tracks
                };
                let width = col_edges[end].minus(col_edges[start]);
                assert(width == cell_width(all, col_edges@, k));
                if width.emu > 0 {
                    pptx_paint::count_runs(&text.body.colors, background, tally);
                    out.push(
                        CellLayout {
                            row,
                            row_span,
                            left: col_edges[start],
                            width,
                            needed: text.needed,
                            body: text.body,
                        },
                    );
                    assert(out@ =~= start_out + row_cells(all, row, col_edges@, k + 1));
                } else if !text.empty {
                    tally.unplaced_table_cells = pptx_paint::count(tally.unplaced_table_cells);
                }
            }
        }
    }
}

/// Collects the cells of a table that have a text and a width.
pub fn collect_cells(
    rows: Vec<TableRow>,
    col_edges: &Vec<Pt>,
    background: Option<u32>,
    tally: &mut SlideTally,
) -> (r: Vec<CellLayout>)
    requires
        col_edges@.len() >= 2,
    ensures
        *final(tally) == rows_tally(
            *old(tally),
            rows@,
            col_edges@,
            rows@.len() as int,
            background,
        ),
        r@ == table_cells(rows@, col_edges@, rows@.len() as int),
{
    let ghost all = rows@;
    let ghost counted = *tally;
    let mut out: Vec<CellLayout> = Vec::new();
    let mut row: usize = 0;
    let count: usize = rows.len();
    assert(out@ =~= table_cells(all, col_edges@, 0));
    for r in it: rows
        invariant
            it.seq() == all,
            count == all.len(),
            col_edges@.len() >= 2,
            row == it.index(),
            *tally == rows_tally(counted, all, col_edges@, it.index() as int, background),
            out@ == table_cells(all, col_edges@, it.index() as int),
    {
        assert(r == all[it.index() as int]);
        collect_row(r.cells, row, col_edges, background, tally, &mut out);
        row += 1;
    }
    out
}

/// The height that each row declares; none below zero.
pub open spec fn declared_heights(rows: Seq<TableRow>) -> Seq<Pt> {
    rows.map_values(
        |r: TableRow|
            match r.height {
                Some(h) => if h > 0 {
                    Pt { emu: h }
                } else {
                    Pt::spec_zero()
                },
                None => Pt::spec_zero(),
            },
    )
}

/// The height that each row declares.
pub fn heights_of(rows: &Vec<TableRow>) -> (r: Vec<Pt>)
    ensures
        r@ == declared_heights(rows@),
{
    let mut out: Vec<Pt> = Vec::new();
    let mut i: usize = 0;
    while i < rows.len()
        invariant
            i <= rows@.len(),
            out@ == declared_heights(rows@).take(i as int),
        decreases rows@.len() - i,
    {
        let h = match rows[i].height {
            Some(h) => if h > 0 {
                Pt::from_emu(h)
            } else {
                Pt::zero()
            },
            None => Pt::zero(),
        };
        out.push(h);
        assert(out@ =~= declared_heights(rows@).take(i + 1));
        i += 1;
    }
    assert(out@ =~= declared_heights(rows@));
    out
}

/// The widths of a table's columns.
pub open spec fn grid_lengths(grid: Seq<i64>) -> Seq<Pt> {
    grid.map_values(|w: i64| Pt { emu: w })
}

/// The edges of a table's columns.
pub fn column_edges(grid: &Vec<i64>) -> (r: Vec<Pt>)
    ensures
        r@ == edges(grid_lengths(grid@)),
{
    let mut lengths: Vec<Pt> = Vec::new();
    let mut i: usize = 0;
    while i < grid.len()
        invariant
            i <= grid@.len(),
            lengths@ == grid_lengths(grid@).take(i as int),
        decreases grid@.len() - i,
    {
        lengths.push(Pt::from_emu(grid[i]));
        assert(lengths@ =~= grid_lengths(grid@).take(i + 1));
        i += 1;
    }
    assert(lengths@ =~= grid_lengths(grid@));
    prefix_edges(&lengths)
}

/// Whether a table's grid gives its columns any width.
pub open spec fn has_grid(col_edges: Seq<Pt>) -> bool {
    col_edges.len() >= 2 && col_edges.last().emu > 0
}

/// How many of the first `n` cells of a row have a text to place.
pub open spec fn row_text_cells(cells: Seq<TableCell>, n: int) -> int
    decreases n,
{
    if n <= 0 {
        0
    } else {
        row_text_cells(cells, n - 1) + (if !cells[n - 1].absorbed && (cells[n
            - 1].text matches Some(t) && !t.empty) {
            1int
        } else {
            0
        })
    }
}

/// How many cells of the first `n` rows have a text to place.
pub open spec fn text_cells(rows: Seq<TableRow>, n: int) -> int
    decreases n,
{
    if n <= 0 {
        0
    } else {
        text_cells(rows, n - 1) + row_text_cells(
            rows[n - 1].cells@,
            rows[n - 1].cells@.len() as int,
        )
    }
}

/// A count raised by a number, up to the largest number there is.
pub open spec fn up_by(n: usize, k: int) -> usize {
    if n + k > usize::MAX {
        usize::MAX
    } else {
        (n + k) as usize
    }
}

proof fn lemma_text_cells(rows: Seq<TableRow>, n: int)
    ensures
        0 <= text_cells(rows, n),
    decreases n,
{
    if n > 0 {
        lemma_text_cells(rows, n - 1);
        lemma_row_text_cells(rows[n - 1].cells@, rows[n - 1].cells@.len() as int);
    }
}

proof fn lemma_row_text_cells(cells: Seq<TableCell>, n: int)
    ensures
        0 <= row_text_cells(cells, n),
    decreases n,
{
    if n > 0 {
        lemma_row_text_cells(cells, n - 1);
    }
}

/// Counts all cells of a table with a text as not placed.
pub fn count_unplaced(rows: &Vec<TableRow>, tally: &mut SlideTally)
    ensures
        *final(tally) == (SlideTally {
            unplaced_table_cells: up_by(
                old(tally).unplaced_table_cells,
                text_cells(rows@, rows@.len() as int),
            ),
            ..*old(tally)
        }),
{
    let ghost start = *tally;
    let mut i: usize = 0;
    while i < rows.len()
        invariant
            i <= rows@.len(),
            *tally == (SlideTally {
                unplaced_table_cells: up_by(
                    start.unplaced_table_cells,
                    text_cells(rows@, i as int),
                ),
                ..start
            }),
        decreases rows@.len() - i,
    {
        let cells = &rows[i].cells;
        let ghost row_start = *tally;
        let mut j: usize = 0;
        while j < cells.len()
            invariant
                j <= cells@.len(),
                *tally == (SlideTally {
                    unplaced_table_cells: up_by(
                        row_start.unplaced_table_cells,
                        row_text_cells(cells@, j as int),
                    ),
                    ..row_start
                }),
            decreases cells@.len() - j,
        {
            proof {
                lemma_row_text_cells(cells@, j as int);
            }
            if !cells[j].absorbed {
                if let Some(text) = &cells[j].text {
                    if !text.empty {
                        tally.unplaced_table_cells = pptx_paint::count(
                            tally.unplaced_table_cells,
                        );
                    }
                }
            }
            j += 1;
        }
        proof {
            lemma_text_cells(rows@, i as int);
            lemma_row_text_cells(cells@, cells@.len() as int);
        }
        i += 1;
    }
}

/// The box of a cell within its frame, once the edges of the rows are known.
pub open spec fn cell_extent(cell: CellLayout, row_edges: Seq<Pt>) -> PtSize {
    PtSize {
        width: cell.width,
        height: row_edges[least(cell.row + cell.row_span, row_edges.len() - 1)].spec_minus(
            row_edges[cell.row as int],
        ),
    }
}

/// Where a cell lies within its frame.
pub open spec fn cell_offset(cell: CellLayout, row_edges: Seq<Pt>) -> PtOffset {
    PtOffset { x: cell.left, y: row_edges[cell.row as int] }
}

/// The place and size of a cell within its frame.
pub fn cell_box(cell: &CellLayout, row_edges: &Vec<Pt>) -> (r: (PtOffset, PtSize))
    requires
        cell.row < row_edges@.len(),
    ensures
        r.0 == cell_offset(*cell, row_edges@),
        r.1 == cell_extent(*cell, row_edges@),
{
    let last: usize = row_edges.len() - 1;
    let end: usize = if cell.row_span < last - cell.row {
        cell.row + cell.row_span
    } else {
        last
    };
    let bottom = row_edges[end];
    let top = row_edges[cell.row];
    (
        PtOffset { x: cell.left, y: top },
        PtSize { width: cell.width, height: bottom.minus(top) },
    )
}

// ── Boxes before bodies ────────────────────────────────────────────────

/// The edges of a table's rows.
pub open spec fn row_edges_of(table: Table) -> Seq<Pt> {
    let rows = table.rows@;
    let cells = table_cells(rows, edges(grid_lengths(table.grid@)), rows.len() as int);
    edges(grown(declared_heights(rows), cells, cells.len() as int))
}

/// Whether each body of a table that is placed was laid out in the box of its
/// cell, the rows of the table grown to what their cells need.
pub open spec fn bodies_fit(table: Table) -> bool {
    let col_edges = edges(grid_lengths(table.grid@));
    let cells = table_cells(table.rows@, col_edges, table.rows@.len() as int);
    has_grid(col_edges) ==> forall|k: int|
        0 <= k < cells.len() ==> (#[trigger] cells[k]).body.extent == cell_extent(
            cells[k],
            row_edges_of(table),
        )
}

/// A cell's place in its table, without its text.
#[derive(Debug, Clone, Copy, PartialEq, Eq, Structural)]
pub struct CellSlot {
    pub row: usize,
    /// Which cell of the row it is.
    pub cell: usize,
    pub row_span: usize,
    pub left: Pt,
    pub width: Pt,
    pub needed: Pt,
}

/// Whether a slot is that of a cell that is waiting for the height of its row.
pub open spec fn is_slot(s: CellSlot, c: CellLayout, rows: Seq<TableRow>) -> bool {
    &&& s.row == c.row
    &&& s.row_span == c.row_span
    &&& s.left == c.left
    &&& s.width == c.width
    &&& s.needed == c.needed
    &&& s.row < rows.len()
    &&& s.cell < rows[s.row as int].cells@.len()
    &&& rows[s.row as int].cells@[s.cell as int].text matches Some(t) && t.body == c.body
}

/// Whether slots are those of some cells, one for each.
pub open spec fn are_slots(s: Seq<CellSlot>, c: Seq<CellLayout>, rows: Seq<TableRow>) -> bool {
    &&& s.len() == c.len()
    &&& forall|k: int| 0 <= k < s.len() ==> is_slot(#[trigger] s[k], c[k], rows)
}

fn row_slots(rows: &Vec<TableRow>, row: usize, col_edges: &Vec<Pt>, out: &mut Vec<CellSlot>)
    requires
        col_edges@.len() >= 2,
        row < rows@.len(),
        are_slots(old(out)@, table_cells(rows@, col_edges@, row as int), rows@),
    ensures
        are_slots(final(out)@, table_cells(rows@, col_edges@, row + 1), rows@),
{
    let cells = &rows[row].cells;
    let ghost before = table_cells(rows@, col_edges@, row as int);
    let tracks: usize = col_edges.len() - 1;
    let mut col: usize = 0;
    let mut k: usize = 0;
    assert(before + row_cells(cells@, row, col_edges@, 0) =~= before);
    while k < cells.len()
        invariant
            k <= cells@.len(),
            row < rows@.len(),
            cells == rows@[row as int].cells,
            tracks == col_edges@.len() - 1,
            tracks >= 1,
            col == least(columns_before(cells@, k as int), usize::MAX as int),
            are_slots(out@, before + row_cells(cells@, row, col_edges@, k as int), rows@),
        decreases cells@.len() - k,
    {
        let cell = &cells[k];
        let ghost so_far = before + row_cells(cells@, row, col_edges@, k as int);
        proof {
            lemma_columns_before(cells@, k as int);
        }
        let span: usize = if cell.grid_span < 1 {
            1
        } else {
            cell.grid_span as usize
        };
        let row_span: usize = if cell.row_span < 1 {
            1
        } else {
            cell.row_span as usize
        };
        let start: usize = col;
        col = col.saturating_add(span);
        if !cell.absorbed && start < tracks {
            if let Some(text) = &cell.text {
                let end: usize = if col < tracks {
                    col
                } else {
                    tracks
                };
                let width = col_edges[end].minus(col_edges[start]);
                assert(width == cell_width(cells@, col_edges@, k as int));
                if width.emu > 0 {
                    let ghost held = out@;
                    out.push(
                        CellSlot {
                            row,
                            cell: k,
                            row_span,
                            left: col_edges[start],
                            width,
                            needed: text.needed,
                        },
                    );
                    proof {
                        let now = before + row_cells(cells@, row, col_edges@, k + 1);
                        assert(now =~= so_far.push(now.last()));
                        assert forall|j: int| 0 <= j < out@.len() implies is_slot(
                            #[trigger] out@[j],
                            now[j],
                            rows@,
                        ) by {
                            if j < held.len() {
                                assert(is_slot(held[j], so_far[j], rows@));
                            }
                        }
                    }
                }
            }
        }
        k += 1;
    }
}

/// The box that a cell's text is to be laid out in: which cell of which row it
/// is, where it lies within the table, and how large it is.
#[derive(Debug, Clone, Copy, PartialEq, Eq, Structural)]
pub struct CellBox {
    pub row: usize,
    pub cell: usize,
    pub offset: PtOffset,
    pub extent: PtSize,
}

/// Whether a box is that of a cell, with the edges of the rows known.
pub open spec fn is_cell_box(
    b: CellBox,
    c: CellLayout,
    rows: Seq<TableRow>,
    row_edges: Seq<Pt>,
) -> bool {
    &&& b.row == c.row
    &&& b.row < rows.len()
    &&& b.cell < rows[b.row as int].cells@.len()
    &&& rows[b.row as int].cells@[b.cell as int].text matches Some(t) && t.body == c.body
    &&& b.offset == cell_offset(c, row_edges)
    &&& b.extent == cell_extent(c, row_edges)
}

/// The boxes of the cells of a table that have a text and a width, in their
/// order. They depend on what the texts need, not on how they were laid out, so
/// they are known before any text is placed.
pub fn cell_boxes(table: &Table) -> (r: Vec<CellBox>)
    ensures
        ({
            let col_edges = edges(grid_lengths(table.grid@));
            let cells = table_cells(table.rows@, col_edges, table.rows@.len() as int);
            if has_grid(col_edges) {
                &&& r@.len() == cells.len()
                &&& forall|k: int|
                    0 <= k < r@.len() ==> is_cell_box(
                        #[trigger] r@[k],
                        cells[k],
                        table.rows@,
                        row_edges_of(*table),
                    )
            } else {
                r@.len() == 0
            }
        }),
{
    let col_edges = column_edges(&table.grid);
    let mut out: Vec<CellBox> = Vec::new();
    if col_edges.len() < 2 || col_edges[col_edges.len() - 1].emu <= 0 {
        return out;
    }
    let rows = &table.rows;
    let ghost cells = table_cells(rows@, col_edges@, rows@.len() as int);
    let mut slots: Vec<CellSlot> = Vec::new();
    let mut row: usize = 0;
    while row < rows.len()
        invariant
            row <= rows@.len(),
            col_edges@.len() >= 2,
            are_slots(slots@, table_cells(rows@, col_edges@, row as int), rows@),
        decreases rows@.len() - row,
    {
        row_slots(rows, row, &col_edges, &mut slots);
        row += 1;
    }
    let ghost declared = declared_heights(rows@);
    let mut heights = heights_of(rows);
    let mut i: usize = 0;
    while i < slots.len()
        invariant
            i <= slots@.len(),
            are_slots(slots@, cells, rows@),
            heights@ == grown(declared, cells, i as int),
        decreases slots@.len() - i,
    {
        let at: usize = slots[i].row;
        assert(is_slot(slots@[i as int], cells[i as int], rows@));
        if slots[i].row_span == 1 && at < heights.len() {
            let h = heights[at].max(slots[i].needed);
            heights.set(at, h);
        }
        i += 1;
    }
    let row_edges = prefix_edges(&heights);
    proof {
        rows_never_shrink(declared, cells, cells.len() as int);
    }
    let last: usize = row_edges.len() - 1;
    let mut j: usize = 0;
    while j < slots.len()
        invariant
            j <= slots@.len(),
            are_slots(slots@, cells, rows@),
            row_edges@.len() == rows@.len() + 1,
            last == rows@.len(),
            out@.len() == j,
            forall|k: int|
                0 <= k < j ==> is_cell_box(#[trigger] out@[k], cells[k], rows@, row_edges@),
        decreases slots@.len() - j,
    {
        let s = slots[j];
        assert(is_slot(slots@[j as int], cells[j as int], rows@));
        let end: usize = if s.row_span < last - s.row {
            s.row + s.row_span
        } else {
            last
        };
        let top = row_edges[s.row];
        out.push(
            CellBox {
                row: s.row,
                cell: s.cell,
                offset: PtOffset { x: s.left, y: top },
                extent: PtSize { width: s.width, height: row_edges[end].minus(top) },
            },
        );
        j += 1;
    }
    out
}

proof fn lemma_row_cells_rows(cells: Seq<TableCell>, row: usize, col_edges: Seq<Pt>, n: int)
    ensures
        forall|k: int|
            0 <= k < row_cells(cells, row, col_edges, n).len() ==> (#[trigger] row_cells(
                cells,
                row,
                col_edges,
                n,
            )[k]).row == row,
    decreases n,
{
    if n > 0 {
        lemma_row_cells_rows(cells, row, col_edges, n - 1);
        let a = row_cells(cells, row, col_edges, n - 1);
        let b = row_cells(cells, row, col_edges, n);
        assert forall|k: int| 0 <= k < b.len() implies (#[trigger] b[k]).row == row by {
            if k < a.len() {
                assert(b[k] == a[k]);
            }
        }
    }
}

/// Every cell that is laid out stands in a row of the table.
pub proof fn cells_stand_in_rows(rows: Seq<TableRow>, col_edges: Seq<Pt>, n: int)
    requires
        0 <= n <= rows.len(),
        rows.len() <= usize::MAX,
    ensures
        forall|k: int|
            0 <= k < table_cells(rows, col_edges, n).len() ==> (#[trigger] table_cells(
                rows,
                col_edges,
                n,
            )[k]).row < n,
    decreases n,
{
    if n > 0 {
        cells_stand_in_rows(rows, col_edges, n - 1);
        let cells = rows[n - 1].cells@;
        lemma_row_cells_rows(cells, (n - 1) as usize, col_edges, cells.len() as int);
        let a = table_cells(rows, col_edges, n - 1);
        let b = row_cells(cells, (n - 1) as usize, col_edges, cells.len() as int);
        assert forall|k: int| 0 <= k < (a + b).len() implies (#[trigger] (a + b)[k]).row < n by {
            if k < a.len() {
                assert((a + b)[k] == a[k]);
            } else {
                assert((a + b)[k] == b[k - a.len()]);
            }
        }
    }
}

}
