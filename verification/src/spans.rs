//! The accounting of merged cells.
//!
//! A cell that spans several columns or rows is written once, and the
//! cells that it covers are left out: a counter for each column says how
//! many cells are still to be skipped there. Where every cell spans in one
//! direction only, each cell of a row either uses up one skip or is
//! written and leaves as many skips as it covers further cells. So the
//! cells that are written cover the whole grid, and beyond it what is
//! still pending after the last row. Where the merged regions lie inside
//! the grid and do not overlap, nothing is pending then, and the areas of
//! the written cells add up to the rows times the columns.

use vstd::prelude::*;
use crate::gdoc_to_html::{
    bumped, capped_sum, cell_attrs, cell_tokens, cells_from, line_close, line_open, no_indent,
    row_skips, row_tokens, rows_from, skips_after, span_of, structural_from, table_tokens,
};
use crate::markup::{Tag, Token};
use crate::model::{Document, RenderError, Table, TableCell, TableRow};

verus! {

/// The sum of the skip counters.
pub open spec fn total(skips: Seq<u64>) -> int
    decreases skips.len(),
{
    if skips.len() == 0 {
        0
    } else {
        total(skips.drop_last()) + skips.last()
    }
}

/// The number of columns or rows that a span covers: a span that is
/// absent or zero covers one.
pub open spec fn extent(span: Option<u32>) -> int {
    if span_of(span) > 1 {
        span_of(span) as int
    } else {
        1
    }
}

/// The number of cells of the grid that a cell covers.
pub open spec fn area(cell: TableCell) -> int {
    extent(cell.column_span) * extent(cell.row_span)
}

/// A cell that spans in one direction at most.
pub open spec fn one_way(cell: TableCell) -> bool {
    extent(cell.column_span) == 1 || extent(cell.row_span) == 1
}

/// Every cell of the row spans in one direction at most.
pub open spec fn row_one_way(row: TableRow) -> bool {
    forall|c: int| 0 <= c < row.cells@.len() ==> one_way(#[trigger] row.cells@[c])
}

/// The extents of the cells from column `col` on, added up.
pub open spec fn weight(cells: Seq<TableCell>, col: int) -> int
    decreases cells.len() - col,
{
    if col < 0 || col >= cells.len() {
        0
    } else {
        extent(cells[col].column_span) + extent(cells[col].row_span) + weight(cells, col + 1)
    }
}

/// The extents of the cells of the rows from position `from` on, added up.
pub open spec fn table_weight(rows: Seq<TableRow>, from: int) -> int
    decreases rows.len() - from,
{
    if from < 0 || from >= rows.len() {
        0
    } else {
        weight(rows[from].cells@, 0) + table_weight(rows, from + 1)
    }
}

/// The number of cells of the rows from position `from` on.
pub open spec fn cell_count(rows: Seq<TableRow>, from: int) -> int
    decreases rows.len() - from,
{
    if from < 0 || from >= rows.len() {
        0
    } else {
        rows[from].cells@.len() + cell_count(rows, from + 1)
    }
}

/// The cells of a row, from column `col` on, that are written: those
/// whose column has no skip pending.
pub open spec fn written_cells(cells: Seq<TableCell>, col: int, skips: Seq<u64>) -> Seq<TableCell>
    decreases cells.len() - col,
{
    if col < 0 || col >= cells.len() || col >= skips.len() {
        Seq::empty()
    } else if skips[col] > 0 {
        written_cells(cells, col + 1, skips.update(col, (skips[col] - 1) as u64))
    } else {
        seq![cells[col]] + written_cells(cells, col + 1, skips_after(cells[col], col, skips))
    }
}

/// The skip counters after the cells of a row from column `col` on.
pub open spec fn skips_past(cells: Seq<TableCell>, col: int, skips: Seq<u64>) -> Seq<u64>
    decreases cells.len() - col,
{
    if col < 0 || col >= cells.len() || col >= skips.len() {
        skips
    } else if skips[col] > 0 {
        skips_past(cells, col + 1, skips.update(col, (skips[col] - 1) as u64))
    } else {
        skips_past(cells, col + 1, skips_after(cells[col], col, skips))
    }
}

/// The cells of the rows from position `from` on that are written.
pub open spec fn table_written(rows: Seq<TableRow>, from: int, skips: Seq<u64>) -> Seq<TableCell>
    decreases rows.len() - from,
{
    if from < 0 || from >= rows.len() {
        Seq::empty()
    } else {
        let cells = rows[from].cells@;
        let start = row_skips(skips, cells.len());
        written_cells(cells, 0, start) + table_written(
            rows,
            from + 1,
            skips_past(cells, 0, start),
        )
    }
}

/// The skip counters after the last row.
pub open spec fn pending(rows: Seq<TableRow>, from: int, skips: Seq<u64>) -> Seq<u64>
    decreases rows.len() - from,
{
    if from < 0 || from >= rows.len() {
        skips
    } else {
        let cells = rows[from].cells@;
        pending(rows, from + 1, skips_past(cells, 0, row_skips(skips, cells.len())))
    }
}

/// The areas of `cells`, added up.
pub open spec fn area_sum(cells: Seq<TableCell>) -> int
    decreases cells.len(),
{
    if cells.len() == 0 {
        0
    } else {
        area(cells.first()) + area_sum(cells.drop_first())
    }
}

/// What one cell writes, where its content can be rendered.
pub open spec fn cell_markup(doc: Document, cell: TableCell) -> Seq<Token> {
    line_open(Tag::Td, cell_attrs(cell)) + (match structural_from(
        doc,
        cell.content@,
        0,
        no_indent(),
    ) {
        Ok(inner) => inner,
        Err(_) => Seq::empty(),
    }) + line_close(Tag::Td)
}

/// What `cells` write, one after the other.
pub open spec fn cells_markup(doc: Document, cells: Seq<TableCell>) -> Seq<Token>
    decreases cells.len(),
{
    if cells.len() == 0 {
        Seq::empty()
    } else {
        cell_markup(doc, cells.first()) + cells_markup(doc, cells.drop_first())
    }
}

/// What the rows from position `from` on write, where they can be
/// rendered: each row around what its written cells write.
pub open spec fn rows_markup(doc: Document, rows: Seq<TableRow>, from: int, skips: Seq<u64>) -> Seq<
    Token,
>
    decreases rows.len() - from,
{
    if from < 0 || from >= rows.len() {
        Seq::empty()
    } else {
        let cells = rows[from].cells@;
        let start = row_skips(skips, cells.len());
        row_tokens(cells_markup(doc, written_cells(cells, 0, start))) + rows_markup(
            doc,
            rows,
            from + 1,
            skips_past(cells, 0, start),
        )
    }
}

/// The extents of cells add up to no less than zero.
pub proof fn lemma_weight_bounds(cells: Seq<TableCell>, col: int)
    ensures
        weight(cells, col) >= 0,
    decreases cells.len() - col,
{
    if 0 <= col < cells.len() {
        lemma_weight_bounds(cells, col + 1);
    }
}

/// The extents of the cells of rows add up to no less than zero.
pub proof fn lemma_table_weight_bounds(rows: Seq<TableRow>, from: int)
    ensures
        table_weight(rows, from) >= 0,
    decreases rows.len() - from,
{
    if 0 <= from < rows.len() {
        lemma_weight_bounds(rows[from].cells@, 0);
        lemma_table_weight_bounds(rows, from + 1);
    }
}

/// Counters are not negative, and none is more than their sum.
pub proof fn lemma_total_bounds(skips: Seq<u64>)
    ensures
        total(skips) >= 0,
        forall|i: int| 0 <= i < skips.len() ==> #[trigger] skips[i] <= total(skips),
    decreases skips.len(),
{
    if skips.len() > 0 {
        let front = skips.drop_last();
        lemma_total_bounds(front);
        assert forall|i: int| 0 <= i < skips.len() implies #[trigger] skips[i] <= total(skips) by {
            if i < front.len() {
                assert(skips[i] == front[i]);
            }
        }
    }
}

/// Counters that are all zero add up to zero.
pub proof fn lemma_total_zero(skips: Seq<u64>)
    requires
        forall|i: int| 0 <= i < skips.len() ==> #[trigger] skips[i] == 0,
    ensures
        total(skips) == 0,
    decreases skips.len(),
{
    if skips.len() > 0 {
        let front = skips.drop_last();
        assert forall|i: int| 0 <= i < front.len() implies #[trigger] front[i] == 0 by {
            assert(front[i] == skips[i]);
        }
        lemma_total_zero(front);
    }
}

/// A new value for one counter changes the sum by the difference.
pub proof fn lemma_total_update(skips: Seq<u64>, at: int, value: u64)
    requires
        0 <= at < skips.len(),
    ensures
        total(skips.update(at, value)) == total(skips) - skips[at] + value,
    decreases skips.len(),
{
    let changed = skips.update(at, value);
    if at == skips.len() - 1 {
        assert(changed.drop_last() =~= skips.drop_last());
    } else {
        assert(changed.drop_last() =~= skips.drop_last().update(at, value));
        lemma_total_update(skips.drop_last(), at, value);
    }
}

/// One more skip for each column from `lo` up to `hi`, where no counter
/// is at its largest value, adds the number of those columns to the sum.
pub proof fn lemma_total_bumped(skips: Seq<u64>, lo: int, hi: int)
    requires
        0 <= lo <= hi <= skips.len(),
        forall|i: int| lo <= i < hi ==> #[trigger] skips[i] < u64::MAX,
    ensures
        total(bumped(skips, lo, hi)) == total(skips) + hi - lo,
    decreases hi - lo,
{
    if lo == hi {
        assert(bumped(skips, lo, hi) =~= skips);
    } else {
        let before = bumped(skips, lo, hi - 1);
        lemma_total_bumped(skips, lo, hi - 1);
        assert(skips[hi - 1] < u64::MAX);
        assert(before[hi - 1] == skips[hi - 1]);
        let value = capped_sum(skips[hi - 1], 1);
        assert(bumped(skips, lo, hi) =~= before.update(hi - 1, value));
        lemma_total_update(before, hi - 1, value);
    }
}

/// A cell that is written, and spans in one direction at most, leaves as
/// many skips as it covers further cells.
pub proof fn lemma_cell_accounts(cell: TableCell, col: int, skips: Seq<u64>)
    requires
        0 <= col < skips.len(),
        skips[col] == 0,
        span_of(cell.column_span) > 1 ==> col + span_of(cell.column_span) <= skips.len(),
        one_way(cell),
        total(skips) + extent(cell.column_span) + extent(cell.row_span) <= u64::MAX,
    ensures
        total(skips_after(cell, col, skips)) == total(skips) + area(cell) - 1,
        total(skips_after(cell, col, skips)) <= total(skips) + extent(cell.column_span) + extent(
            cell.row_span,
        ),
{
    let colspan = span_of(cell.column_span);
    let rowspan = span_of(cell.row_span);
    lemma_total_bounds(skips);
    let across = if colspan > 1 {
        bumped(skips, col + 1, col + colspan)
    } else {
        skips
    };
    if colspan > 1 {
        lemma_total_bumped(skips, col + 1, col + colspan);
    }
    assert(total(across) == total(skips) + extent(cell.column_span) - 1);
    assert(across[col] == 0);
    if rowspan > 1 {
        let value = capped_sum(across[col], (rowspan - 1) as u64);
        assert(value == rowspan - 1);
        lemma_total_update(across, col, value);
    }
    assert(total(skips_after(cell, col, skips)) == total(skips) + extent(cell.column_span) - 1
        + extent(cell.row_span) - 1);
    assert(area(cell) == extent(cell.column_span) + extent(cell.row_span) - 1) by (nonlinear_arith)
        requires
            area(cell) == extent(cell.column_span) * extent(cell.row_span),
            extent(cell.column_span) == 1 || extent(cell.row_span) == 1,
    ;
}

/// The areas of two sequences of cells add up.
pub proof fn lemma_area_concat(a: Seq<TableCell>, b: Seq<TableCell>)
    ensures
        area_sum(a + b) == area_sum(a) + area_sum(b),
    decreases a.len(),
{
    if a.len() == 0 {
        assert(a + b =~= b);
    } else {
        assert((a + b).first() == a.first());
        assert((a + b).drop_first() =~= a.drop_first() + b);
        lemma_area_concat(a.drop_first(), b);
    }
}

/// A row that can be rendered writes its written cells, one after the
/// other, and leaves the skip counters that follow them.
pub proof fn lemma_row_writes(doc: Document, cells: Seq<TableCell>, col: int, skips: Seq<u64>)
    requires
        0 <= col,
    ensures
        cells_from(doc, cells, col, skips) matches Ok((tokens, after)) ==> tokens == cells_markup(
            doc,
            written_cells(cells, col, skips),
        ) && after == skips_past(cells, col, skips),
    decreases cells.len() - col,
{
    if col < cells.len() && col < skips.len() {
        if skips[col] > 0 {
            lemma_row_writes(doc, cells, col + 1, skips.update(col, (skips[col] - 1) as u64));
        } else {
            match cell_tokens(doc, cells[col], col, skips) {
                Ok((tokens, after)) => {
                    lemma_row_writes(doc, cells, col + 1, after);
                    let rest = written_cells(cells, col + 1, after);
                    let all = seq![cells[col]] + rest;
                    assert(all.first() == cells[col]);
                    assert(all.drop_first() =~= rest);
                    assert(tokens == cell_markup(doc, cells[col]));
                },
                Err(_) => {},
            }
        }
    }
}

/// Rows that can be rendered write, row by row, their written cells.
pub proof fn lemma_rows_write(doc: Document, rows: Seq<TableRow>, from: int, skips: Seq<u64>)
    requires
        0 <= from,
    ensures
        rows_from(doc, rows, from, skips) matches Ok(tokens) ==> tokens == rows_markup(
            doc,
            rows,
            from,
            skips,
        ),
    decreases rows.len() - from,
{
    if from < rows.len() {
        let cells = rows[from].cells@;
        let start = row_skips(skips, cells.len());
        lemma_row_writes(doc, cells, 0, start);
        match cells_from(doc, cells, 0, start) {
            Ok((tokens, after)) => {
                lemma_rows_write(doc, rows, from + 1, after);
            },
            Err(_) => {},
        }
    }
}

/// In a row that can be rendered and whose cells span in one direction at
/// most, the areas of the written cells add up to the number of cells of
/// the row and the skips that it leaves, less the skips that it found.
pub proof fn lemma_row_accounts(doc: Document, cells: Seq<TableCell>, col: int, skips: Seq<u64>)
    requires
        0 <= col <= cells.len(),
        forall|c: int| col <= c < cells.len() ==> one_way(#[trigger] cells[c]),
        total(skips) + weight(cells, col) <= u64::MAX,
        cells_from(doc, cells, col, skips) is Ok,
    ensures
        area_sum(written_cells(cells, col, skips)) == cells.len() - col + total(
            skips_past(cells, col, skips),
        ) - total(skips),
        total(skips_past(cells, col, skips)) <= total(skips) + weight(cells, col),
    decreases cells.len() - col,
{
    if col < cells.len() {
        assert(col < skips.len());
        if skips[col] > 0 {
            let next = skips.update(col, (skips[col] - 1) as u64);
            lemma_total_update(skips, col, (skips[col] - 1) as u64);
            lemma_row_accounts(doc, cells, col + 1, next);
        } else {
            let cell = cells[col];
            assert(one_way(cell));
            lemma_weight_bounds(cells, col + 1);
            match cell_tokens(doc, cell, col, skips) {
                Ok((tokens, after)) => {
                    lemma_cell_accounts(cell, col, skips);
                    lemma_row_accounts(doc, cells, col + 1, after);
                    let rest = written_cells(cells, col + 1, after);
                    let all = seq![cell] + rest;
                    assert(all.first() == cell);
                    assert(all.drop_first() =~= rest);
                },
                Err(_) => {},
            }
        }
    }
}

/// In rows that can be rendered and whose cells span in one direction at
/// most, the areas of the written cells add up to the number of cells of
/// the rows and the skips that are pending after the last row, less the
/// skips that the first row found.
pub proof fn lemma_rows_account(doc: Document, rows: Seq<TableRow>, from: int, skips: Seq<u64>)
    requires
        0 <= from,
        forall|r: int| from <= r < rows.len() ==> row_one_way(#[trigger] rows[r]),
        total(skips) + table_weight(rows, from) <= u64::MAX,
        rows_from(doc, rows, from, skips) is Ok,
    ensures
        area_sum(table_written(rows, from, skips)) == cell_count(rows, from) + total(
            pending(rows, from, skips),
        ) - total(skips),
    decreases rows.len() - from,
{
    if from < rows.len() {
        let cells = rows[from].cells@;
        let start = row_skips(skips, cells.len());
        assert(total(start) == total(skips)) by {
            if skips.len() == 0 {
                lemma_total_zero(start);
            }
        }
        assert(row_one_way(rows[from]));
        lemma_table_weight_bounds(rows, from + 1);
        lemma_row_writes(doc, cells, 0, start);
        lemma_row_accounts(doc, cells, 0, start);
        let after = skips_past(cells, 0, start);
        lemma_rows_account(doc, rows, from + 1, after);
        lemma_area_concat(written_cells(cells, 0, start), table_written(rows, from + 1, after));
    }
}

/// The rows from position `from` on, each of `columns` cells, hold
/// `columns` cells for each row.
pub proof fn lemma_grid_count(rows: Seq<TableRow>, from: int, columns: nat)
    requires
        0 <= from <= rows.len(),
        forall|r: int| from <= r < rows.len() ==> (#[trigger] rows[r]).cells@.len() == columns,
    ensures
        cell_count(rows, from) == (rows.len() - from) * columns,
    decreases rows.len() - from,
{
    if from < rows.len() {
        lemma_grid_count(rows, from + 1, columns);
        assert((rows.len() - from) * columns == columns + (rows.len() - from - 1) * columns)
            by (nonlinear_arith);
    } else {
        assert((rows.len() - from) * columns == 0) by (nonlinear_arith)
            requires
                rows.len() - from == 0,
        ;
    }
}

/// In a table of equal rows that can be rendered, whose cells span in one
/// direction at most and leave no skip pending after the last row, the
/// areas of the cells that are written add up to the number of rows times
/// the number of columns.
pub proof fn lemma_spans_fill_grid(doc: Document, rows: Seq<TableRow>, columns: nat)
    requires
        forall|r: int| 0 <= r < rows.len() ==> (#[trigger] rows[r]).cells@.len() == columns,
        forall|r: int| 0 <= r < rows.len() ==> row_one_way(#[trigger] rows[r]),
        table_weight(rows, 0) <= u64::MAX,
        rows_from(doc, rows, 0, Seq::empty()) is Ok,
        total(pending(rows, 0, Seq::empty())) == 0,
    ensures
        area_sum(table_written(rows, 0, Seq::empty())) == rows.len() * columns,
{
    lemma_rows_account(doc, rows, 0, Seq::empty());
    lemma_grid_count(rows, 0, columns);
}

/// How many rows, from row `r` on, the cells above that row reach in
/// column `j`.
pub open spec fn reach_down(rows: Seq<TableRow>, r: int, j: int) -> int
    decreases r,
{
    if r <= 0 || r > rows.len() {
        0
    } else {
        let above = reach_down(rows, r - 1, j) - 1;
        let own = if 0 <= j < rows[r - 1].cells@.len() {
            extent(rows[r - 1].cells@[j].row_span) - 1
        } else {
            0
        };
        if above > own {
            above
        } else {
            own
        }
    }
}

/// The first column that none of the cells before column `c` reaches.
pub open spec fn reach_right(cells: Seq<TableCell>, c: int) -> int
    decreases c,
{
    if c <= 0 || c > cells.len() {
        0
    } else {
        let before = reach_right(cells, c - 1);
        let own = c - 1 + extent(cells[c - 1].column_span);
        if before > own {
            before
        } else {
            own
        }
    }
}

/// The cell in row `r` and column `c` is merged well: it spans in one
/// direction at most and not beyond the grid, it is not reached both from
/// above and from the left, and where it is reached it spans nothing
/// itself.
pub open spec fn well_merged_at(rows: Seq<TableRow>, r: int, c: int) -> bool {
    let cells = rows[r].cells@;
    let cell = cells[c];
    let from_above = reach_down(rows, r, c) > 0;
    let from_left = reach_right(cells, c) > c;
    &&& one_way(cell)
    &&& r + extent(cell.row_span) <= rows.len()
    &&& c + extent(cell.column_span) <= cells.len()
    &&& !(from_above && from_left)
    &&& from_above || from_left ==> extent(cell.column_span) == 1 && extent(cell.row_span) == 1
}

/// Every merged region of the table lies inside the grid, no two of them
/// overlap, and no cell spans in both directions.
pub open spec fn well_merged(rows: Seq<TableRow>) -> bool {
    forall|r: int, c: int|
        0 <= r < rows.len() && 0 <= c < rows[r].cells@.len() ==> #[trigger] well_merged_at(
            rows,
            r,
            c,
        )
}

/// The skip counters are what the cells before column `c` of row `r`,
/// and the rows above, have left: for a column that is still to come,
/// the rows that are reached from above, and one more where a cell of
/// this row reaches it; for a column that is done, the rows that are
/// reached from this row on.
pub open spec fn tracks(rows: Seq<TableRow>, r: int, c: int, skips: Seq<u64>) -> bool {
    forall|j: int|
        0 <= j < skips.len() ==> #[trigger] skips[j] == (if j < c {
            reach_down(rows, r + 1, j)
        } else {
            reach_down(rows, r, j) + (if reach_right(rows[r].cells@, c) > j {
                1int
            } else {
                0int
            })
        })
}

/// No cell reaches further down than the largest span allows.
pub proof fn lemma_reach_down_small(rows: Seq<TableRow>, r: int, j: int)
    ensures
        0 <= reach_down(rows, r, j) < u32::MAX,
    decreases r,
{
    if 0 < r <= rows.len() {
        lemma_reach_down_small(rows, r - 1, j);
    }
}

/// In a table that is merged well no cell reaches below the last row.
pub proof fn lemma_reach_down_ends(rows: Seq<TableRow>, r: int, j: int)
    requires
        well_merged(rows),
        0 <= r <= rows.len(),
    ensures
        reach_down(rows, r, j) <= rows.len() - r,
    decreases r,
{
    if 0 < r {
        lemma_reach_down_ends(rows, r - 1, j);
        if 0 <= j < rows[r - 1].cells@.len() {
            assert(well_merged_at(rows, r - 1, j));
        }
    }
}

/// A row of a table that is merged well leaves, for each column, the
/// skips for the rows that are reached from this row on.
pub proof fn lemma_row_tracks(
    doc: Document,
    rows: Seq<TableRow>,
    r: int,
    col: int,
    skips: Seq<u64>,
)
    requires
        well_merged(rows),
        0 <= r < rows.len(),
        0 <= col <= rows[r].cells@.len(),
        rows[r].cells@.len() == skips.len(),
        tracks(rows, r, col, skips),
        cells_from(doc, rows[r].cells@, col, skips) is Ok,
    ensures
        tracks(rows, r, skips.len() as int, skips_past(rows[r].cells@, col, skips)),
        skips_past(rows[r].cells@, col, skips).len() == skips.len(),
    decreases rows[r].cells@.len() - col,
{
    let cells = rows[r].cells@;
    if col < cells.len() {
        let cell = cells[col];
        assert(well_merged_at(rows, r, col));
        if skips[col] > 0 {
            let next = skips.update(col, (skips[col] - 1) as u64);
            assert(tracks(rows, r, col + 1, next)) by {
                assert forall|j: int| 0 <= j < next.len() implies #[trigger] next[j] == (if j < col
                    + 1 {
                    reach_down(rows, r + 1, j)
                } else {
                    reach_down(rows, r, j) + (if reach_right(cells, col + 1) > j {
                        1int
                    } else {
                        0int
                    })
                }) by {
                    lemma_reach_down_small(rows, r, j);
                }
            }
            lemma_row_tracks(doc, rows, r, col + 1, next);
        } else {
            let after = skips_after(cell, col, skips);
            assert(cell_tokens(doc, cell, col, skips) is Ok);
            assert(skips[col] == 0);
            assert(reach_down(rows, r, col) == 0 && reach_right(cells, col) <= col) by {
                lemma_reach_down_small(rows, r, col);
            }
            assert(tracks(rows, r, col + 1, after)) by {
                assert forall|j: int| 0 <= j < after.len() implies #[trigger] after[j] == (if j
                    < col + 1 {
                    reach_down(rows, r + 1, j)
                } else {
                    reach_down(rows, r, j) + (if reach_right(cells, col + 1) > j {
                        1int
                    } else {
                        0int
                    })
                }) by {
                    lemma_reach_down_small(rows, r, j);
                }
            }
            lemma_row_tracks(doc, rows, r, col + 1, after);
        }
    }
}

/// The rows of a table that is merged well leave no skip pending after
/// the last row.
pub proof fn lemma_rows_track(
    doc: Document,
    rows: Seq<TableRow>,
    from: int,
    skips: Seq<u64>,
    columns: nat,
)
    requires
        well_merged(rows),
        0 <= from <= rows.len(),
        forall|r: int| 0 <= r < rows.len() ==> (#[trigger] rows[r]).cells@.len() == columns,
        (from == 0 && skips.len() == 0) || skips.len() == columns,
        forall|j: int| 0 <= j < skips.len() ==> #[trigger] skips[j] == reach_down(rows, from, j),
        rows_from(doc, rows, from, skips) is Ok,
    ensures
        total(pending(rows, from, skips)) == 0,
    decreases rows.len() - from,
{
    if from < rows.len() {
        let cells = rows[from].cells@;
        let start = row_skips(skips, cells.len());
        assert(tracks(rows, from, 0, start)) by {
            assert forall|j: int| 0 <= j < start.len() implies #[trigger] start[j] == reach_down(
                rows,
                from,
                j,
            ) + (if reach_right(cells, 0) > j {
                1int
            } else {
                0int
            }) by {
                if skips.len() != 0 {
                    assert(start[j] == skips[j]);
                }
            }
        }
        lemma_row_writes(doc, cells, 0, start);
        lemma_row_tracks(doc, rows, from, 0, start);
        let after = skips_past(cells, 0, start);
        assert forall|j: int| 0 <= j < after.len() implies #[trigger] after[j] == reach_down(
            rows,
            from + 1,
            j,
        ) by {}
        lemma_rows_track(doc, rows, from + 1, after, columns);
    } else {
        assert forall|j: int| 0 <= j < skips.len() implies #[trigger] skips[j] == 0 by {
            lemma_reach_down_ends(rows, from, j);
            lemma_reach_down_small(rows, from, j);
        }
        lemma_total_zero(skips);
    }
}

/// In a table of equal rows that can be rendered and that is merged well,
/// the areas of the cells that are written add up to the number of rows
/// times the number of columns.
pub proof fn lemma_merged_cells_fill_grid(doc: Document, table: Table, columns: nat)
    requires
        forall|r: int|
            0 <= r < table.rows@.len() ==> (#[trigger] table.rows@[r]).cells@.len() == columns,
        well_merged(table.rows@),
        table_weight(table.rows@, 0) <= u64::MAX,
        table_tokens(doc, table) is Ok,
    ensures
        area_sum(table_written(table.rows@, 0, Seq::empty())) == table.rows@.len() * columns,
        table_tokens(doc, table) == Ok::<Seq<Token>, RenderError>(
            line_open(Tag::Table, Seq::empty()) + line_open(Tag::Tbody, Seq::empty())
                + rows_markup(doc, table.rows@, 0, Seq::empty()) + line_close(Tag::Tbody)
                + line_close(Tag::Table),
        ),
{
    let rows = table.rows@;
    assert forall|r: int| 0 <= r < rows.len() implies row_one_way(#[trigger] rows[r]) by {
        assert forall|c: int| 0 <= c < rows[r].cells@.len() implies one_way(
            #[trigger] rows[r].cells@[c],
        ) by {
            assert(well_merged_at(rows, r, c));
        }
    }
    lemma_rows_write(doc, rows, 0, Seq::empty());
    lemma_rows_track(doc, rows, 0, Seq::empty(), columns);
    lemma_spans_fill_grid(doc, rows, columns);
}

} // verus!
