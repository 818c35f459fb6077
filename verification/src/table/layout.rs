//! The grid, as mathematics: which cell covers which grid column, how wide
//! the columns are, and what every line of a rendered table holds.
use super::cell::CellView;
use crate::text::repeated;
use super::{RowPosition, TableStyle};
use vstd::prelude::*;

verus! {

/// Widths as natural numbers.
pub open spec fn as_nats(widths: Seq<usize>) -> Seq<nat> {
    Seq::new(widths.len(), |i: int| widths[i] as nat)
}

/// Every cell of the row occupies at least one grid column.
pub open spec fn row_wf(cells: Seq<CellView>) -> bool {
    forall|k: int| 0 <= k < cells.len() ==> (#[trigger] cells[k]).span >= 1
}

/// Every row of the table is well formed.
pub open spec fn rows_wf(rows: Seq<Seq<CellView>>) -> bool {
    forall|r: int| 0 <= r < rows.len() ==> row_wf(#[trigger] rows[r])
}

/// The number of grid columns that the first `k` cells of a row occupy.
pub open spec fn columns_before(cells: Seq<CellView>, k: int) -> int
    decreases k,
{
    if k <= 0 {
        0
    } else {
        columns_before(cells, k - 1) + cells[k - 1].span
    }
}

/// The first cell, from cell `from` on, that ends to the right of grid
/// column `col`; the number of cells if there is none.
pub open spec fn cell_at_from(cells: Seq<CellView>, col: int, from: int) -> int
    decreases cells.len() - from,
{
    if from >= cells.len() {
        cells.len() as int
    } else if col < columns_before(cells, from + 1) {
        from
    } else {
        cell_at_from(cells, col, from + 1)
    }
}

/// The index of the cell that covers grid column `col`; the number of cells
/// if the column lies to the right of them all.
pub open spec fn cell_at(cells: Seq<CellView>, col: int) -> int {
    cell_at_from(cells, col, 0)
}

/// Whether a vertical line stands at the left of grid column `col`: a cell
/// begins there, or the row has no cell for that column.
pub open spec fn opens_cell(cells: Seq<CellView>, col: int) -> bool {
    let k = cell_at(cells, col);
    k >= cells.len() || columns_before(cells, k) == col
}

/// What a separator line shows at the left of grid column `col`: nothing at
/// the first column, where the line's opening glyph stands; the junction of
/// the line's position where a vertical line meets it; a horizontal glyph
/// inside a cell that spans several columns.
pub open spec fn separator_joint(
    cells: Seq<CellView>,
    style: TableStyle,
    pos: RowPosition,
    col: int,
) -> Seq<char> {
    if col <= 0 {
        Seq::empty()
    } else if opens_cell(cells, col) {
        seq![style.intersect_glyph(pos)]
    } else {
        seq![style.horizontal]
    }
}

/// The part of a separator line that belongs to the first `n` grid columns:
/// for each its joint, then as many horizontal glyphs as the column is wide.
pub open spec fn separator_columns(
    cells: Seq<CellView>,
    widths: Seq<nat>,
    style: TableStyle,
    pos: RowPosition,
    n: int,
) -> Seq<char>
    decreases n,
{
    if n <= 0 {
        Seq::empty()
    } else {
        separator_columns(cells, widths, style, pos, n - 1) + separator_joint(
            cells,
            style,
            pos,
            n - 1,
        ) + repeated(style.horizontal, widths[n - 1])
    }
}

/// The separator line of one row taken alone.
pub open spec fn plain_separator(
    cells: Seq<CellView>,
    widths: Seq<nat>,
    style: TableStyle,
    pos: RowPosition,
) -> Seq<char> {
    seq![style.start_glyph(pos)] + separator_columns(
        cells,
        widths,
        style,
        pos,
        widths.len() as int,
    ) + seq![style.end_glyph(pos)]
}

/// One glyph of a separator that serves two rows. The first and the last
/// glyph of the current line stay. Where both lines are horizontal the
/// result is; everywhere else the style's merge rule decides.
pub open spec fn merged_at(
    style: TableStyle,
    current: Seq<char>,
    above: Seq<char>,
    pos: RowPosition,
    at: int,
) -> char {
    if at == 0 || at == current.len() - 1 {
        current[at]
    } else if current[at] != style.horizontal || above[at] != style.horizontal {
        style.merged_glyph(above[at], current[at], pos)
    } else {
        style.horizontal
    }
}

/// The current row's separator merged, offset by offset, with the separator
/// of the row above. The result is as long as the shorter of the two.
pub open spec fn merged_separator(
    style: TableStyle,
    current: Seq<char>,
    above: Seq<char>,
    pos: RowPosition,
) -> Seq<char> {
    Seq::new(
        if current.len() <= above.len() {
            current.len()
        } else {
            above.len()
        },
        |at: int| merged_at(style, current, above, pos, at),
    )
}

/// The separator line of a row: its own, merged with that of the row above
/// where one is given.
pub open spec fn separator_line(
    cells: Seq<CellView>,
    widths: Seq<nat>,
    style: TableStyle,
    pos: RowPosition,
    previous: Option<Seq<char>>,
) -> Seq<char> {
    match previous {
        None => plain_separator(cells, widths, style, pos),
        Some(above) => merged_separator(
            style,
            plain_separator(cells, widths, style, pos),
            above,
            pos,
        ),
    }
}

/// The blanks that fill a room of `width` glyphs behind a text of `used`
/// glyphs.
pub open spec fn padding(width: nat, used: nat) -> nat {
    if width > used {
        (width - used) as nat
    } else {
        0
    }
}

/// The room from the left edge of column `from` to the right edge of column
/// `to - 1`: the widths of these columns, and one glyph for every joint
/// between two of them.
pub open spec fn room(widths: Seq<nat>, from: int, to: int) -> nat
    decreases to - from,
{
    if to <= from {
        0
    } else if to == from + 1 {
        widths[from]
    } else {
        room(widths, from, to - 1) + 1 + widths[to - 1]
    }
}

/// The column behind the last one that a cell of `span` columns covers when
/// it begins at column `col`: the grid cuts off what lies beyond it.
pub open spec fn span_end(widths: Seq<nat>, col: int, span: nat) -> int {
    if col + span < widths.len() {
        col + span
    } else {
        widths.len() as int
    }
}

/// What a content line holds for grid column `col`. Where a cell begins: a
/// vertical glyph, the padded text, and blanks up to the right edge of the
/// last column that the cell covers, so that the text and the blanks fill
/// the room of these columns; a text that is longer than the room is not cut.
/// Inside a cell that began further left: nothing more. Where the row has no
/// cell: a vertical glyph and blanks for the column.
pub open spec fn content_column(
    cells: Seq<CellView>,
    widths: Seq<nat>,
    style: TableStyle,
    col: int,
) -> Seq<char> {
    let k = cell_at(cells, col);
    if k >= cells.len() {
        seq![style.vertical] + repeated(' ', widths[col])
    } else if columns_before(cells, k) == col {
        seq![style.vertical] + cells[k].padded() + repeated(
            ' ',
            padding(
                room(widths, col, span_end(widths, col, cells[k].span)),
                cells[k].padded().len(),
            ),
        )
    } else {
        Seq::empty()
    }
}

/// The part of a content line that belongs to the first `n` grid columns.
pub open spec fn content_columns(
    cells: Seq<CellView>,
    widths: Seq<nat>,
    style: TableStyle,
    n: int,
) -> Seq<char>
    decreases n,
{
    if n <= 0 {
        Seq::empty()
    } else {
        content_columns(cells, widths, style, n - 1) + content_column(cells, widths, style, n - 1)
    }
}

/// The content line of a row: every grid column, then the closing vertical
/// glyph.
pub open spec fn content_line(cells: Seq<CellView>, widths: Seq<nat>, style: TableStyle) -> Seq<
    char,
> {
    content_columns(cells, widths, style, widths.len() as int) + seq![style.vertical]
}

/// The widths that the cells of a row ask for, one per cell.
pub open spec fn row_widths(cells: Seq<CellView>) -> Seq<nat> {
    Seq::new(cells.len(), |k: int| cells[k].width())
}

/// The largest number of cells in any row.
pub open spec fn column_count(rows: Seq<Seq<CellView>>) -> nat
    decreases rows.len(),
{
    if rows.len() == 0 {
        0
    } else {
        let rest = column_count(rows.drop_last());
        if rows.last().len() > rest {
            rows.last().len()
        } else {
            rest
        }
    }
}

/// The largest width that any row's cell number `col` asks for; 0 if no row
/// has such a cell.
pub open spec fn column_max(rows: Seq<Seq<CellView>>, col: int) -> nat
    decreases rows.len(),
{
    if rows.len() == 0 {
        0
    } else {
        let rest = column_max(rows.drop_last(), col);
        let row = rows.last();
        if 0 <= col < row.len() && row[col].width() > rest {
            row[col].width()
        } else {
            rest
        }
    }
}

/// The width of every grid column of a table.
pub open spec fn max_column_widths(rows: Seq<Seq<CellView>>) -> Seq<nat> {
    Seq::new(column_count(rows), |col: int| column_max(rows, col))
}

/// The separator line above row number `row` of a table: for the first row
/// its own, for every other row its own merged with the line above the row
/// before.
pub open spec fn table_separator(
    rows: Seq<Seq<CellView>>,
    widths: Seq<nat>,
    style: TableStyle,
    row: int,
) -> Seq<char>
    decreases row,
{
    if row <= 0 {
        separator_line(rows[0], widths, style, RowPosition::First, None)
    } else {
        separator_line(
            rows[row],
            widths,
            style,
            RowPosition::Mid,
            Some(table_separator(rows, widths, style, row - 1)),
        )
    }
}

/// The lines of the first `n` rows: for each its separator and its content,
/// every line closed by a line feed.
pub open spec fn rendered_rows(
    rows: Seq<Seq<CellView>>,
    widths: Seq<nat>,
    style: TableStyle,
    n: int,
) -> Seq<char>
    decreases n,
{
    if n <= 0 {
        Seq::empty()
    } else {
        rendered_rows(rows, widths, style, n - 1) + table_separator(rows, widths, style, n - 1)
            + seq!['\n'] + content_line(rows[n - 1], widths, style) + seq!['\n']
    }
}

/// The whole table as text. A table without rows is the empty text; any
/// other is the lines of its rows and a closing separator below the last.
pub open spec fn rendered(rows: Seq<Seq<CellView>>, style: TableStyle) -> Seq<char> {
    if rows.len() == 0 {
        Seq::empty()
    } else {
        let widths = max_column_widths(rows);
        rendered_rows(rows, widths, style, rows.len() as int) + plain_separator(
            rows.last(),
            widths,
            style,
            RowPosition::Last,
        ) + seq!['\n']
    }
}

/// The sum of the first `n` widths.
pub open spec fn width_sum(widths: Seq<nat>, n: int) -> nat
    decreases n,
{
    if n <= 0 {
        0
    } else {
        width_sum(widths, n - 1) + widths[n - 1]
    }
}

/// The sum of all widths.
pub open spec fn total_width(widths: Seq<nat>) -> nat {
    width_sum(widths, widths.len() as int)
}

/// The length of every separator line drawn over columns of these widths:
/// the two end glyphs, the columns, and one joint between any two of them.
pub open spec fn separator_len(widths: Seq<nat>) -> nat {
    if widths.len() == 0 {
        2
    } else {
        (total_width(widths) + widths.len() + 1) as nat
    }
}

/// Every cell's text, with its two blanks, is no longer than the room of the
/// columns that the cell covers.
pub open spec fn cells_fit(cells: Seq<CellView>, widths: Seq<nat>) -> bool {
    forall|k: int|
        0 <= k < cells.len() ==> (#[trigger] cells[k]).padded().len() <= room(
            widths,
            columns_before(cells, k),
            columns_before(cells, k + 1),
        )
}

/// What makes a row's content line close the box: the grid has a column,
/// every cell occupies at least one, every text fits the room of its cell,
/// and the last cell ends inside the grid.
pub open spec fn closes_box(cells: Seq<CellView>, widths: Seq<nat>) -> bool {
    &&& widths.len() >= 1
    &&& row_wf(cells)
    &&& cells_fit(cells, widths)
    &&& columns_before(cells, cells.len() as int) <= widths.len()
}

/// The state of a walk over the grid columns of a row: at column `col` the
/// walk stands in cell `cell`, `spanned` columns into it; or it has left the
/// last cell behind.
pub open spec fn covers(cells: Seq<CellView>, col: int, cell: int, spanned: int) -> bool {
    &&& 0 <= cell <= cells.len()
    &&& cell < cells.len() ==> 0 <= spanned < cells[cell].span && columns_before(cells, cell)
        + spanned == col
    &&& cell == cells.len() ==> spanned == 0 && col >= columns_before(cells, cell)
}

/// The columns before a cell grow with the cell's index.
pub proof fn lemma_columns_before_grows(cells: Seq<CellView>, j: int, k: int)
    requires
        row_wf(cells),
        0 <= j <= k <= cells.len(),
    ensures
        columns_before(cells, j) + (k - j) <= columns_before(cells, k),
    decreases k - j,
{
    if j < k {
        lemma_columns_before_grows(cells, j, k - 1);
    }
}

/// A walk that stands in a cell stands in the cell that covers its column.
pub proof fn lemma_covers_cell_at(cells: Seq<CellView>, col: int, cell: int, spanned: int)
    requires
        row_wf(cells),
        covers(cells, col, cell, spanned),
    ensures
        cell_at(cells, col) == cell,
        opens_cell(cells, col) <==> (cell == cells.len() || spanned == 0),
{
    lemma_cell_at_from(cells, col, cell, spanned, 0);
}

proof fn lemma_cell_at_from(cells: Seq<CellView>, col: int, cell: int, spanned: int, from: int)
    requires
        row_wf(cells),
        covers(cells, col, cell, spanned),
        0 <= from <= cell,
    ensures
        cell_at_from(cells, col, from) == cell,
    decreases cell - from,
{
    if from < cell {
        lemma_columns_before_grows(cells, from + 1, cell);
        lemma_cell_at_from(cells, col, cell, spanned, from + 1);
    }
}

/// No row has a cell for a column at or beyond the column count, so the
/// largest width asked for there is 0.
pub proof fn lemma_column_max_beyond(rows: Seq<Seq<CellView>>, col: int)
    requires
        col >= column_count(rows),
    ensures
        column_max(rows, col) == 0,
    decreases rows.len(),
{
    if rows.len() > 0 {
        lemma_column_max_beyond(rows.drop_last(), col);
    }
}

} // verus!
