//! What holds of every table, whatever its contents.
use super::cell::CellView;
use super::layout::{
    cell_at, cells_fit, closes_box, cell_at_from, column_count, column_max, columns_before, content_column,
    content_columns, content_line, covers, lemma_columns_before_grows, lemma_covers_cell_at,
    max_column_widths, merged_at, merged_separator, opens_cell, plain_separator, rendered,
    rendered_rows, room, row_wf, separator_columns, separator_joint, separator_len, span_end,
    table_separator, total_width, width_sum,
};
use super::{RowPosition, Table, TableStyle};
use crate::text::repeated;
use vstd::prelude::*;

verus! {

/// The offset, in a separator line, of the joint between the first and the
/// second column: behind the opening glyph and the first column.
pub open spec fn joint_offset(widths: Seq<nat>) -> int {
    (1 + widths[0]) as int
}

/// No cell of any row asks for more than its column's width.
pub proof fn lemma_column_max_bounds(rows: Seq<Seq<CellView>>, r: int, col: int)
    requires
        0 <= r < rows.len(),
        0 <= col < rows[r].len(),
    ensures
        rows[r][col].width() <= column_max(rows, col),
    decreases rows.len(),
{
    if r < rows.len() - 1 {
        assert(rows.drop_last()[r] == rows[r]);
        lemma_column_max_bounds(rows.drop_last(), r, col);
    }
}

/// A column's width is asked for by some cell, unless it is 0.
pub proof fn lemma_column_max_reached(rows: Seq<Seq<CellView>>, col: int) -> (r: int)
    requires
        column_max(rows, col) > 0,
    ensures
        0 <= r < rows.len(),
        0 <= col < rows[r].len(),
        rows[r][col].width() == column_max(rows, col),
    decreases rows.len(),
{
    if column_max(rows, col) == column_max(rows.drop_last(), col) {
        let r = lemma_column_max_reached(rows.drop_last(), col);
        assert(rows.drop_last()[r] == rows[r]);
        r
    } else {
        rows.len() - 1
    }
}

/// No row has more cells than the table has columns.
pub proof fn lemma_column_count_bounds(rows: Seq<Seq<CellView>>, r: int)
    requires
        0 <= r < rows.len(),
    ensures
        rows[r].len() <= column_count(rows),
    decreases rows.len(),
{
    if r < rows.len() - 1 {
        assert(rows.drop_last()[r] == rows[r]);
        lemma_column_count_bounds(rows.drop_last(), r);
    }
}

/// Some row has as many cells as the table has columns, unless it has none.
pub proof fn lemma_column_count_reached(rows: Seq<Seq<CellView>>) -> (r: int)
    requires
        column_count(rows) > 0,
    ensures
        0 <= r < rows.len(),
        rows[r].len() == column_count(rows),
    decreases rows.len(),
{
    if column_count(rows) == column_count(rows.drop_last()) {
        let r = lemma_column_count_reached(rows.drop_last());
        assert(rows.drop_last()[r] == rows[r]);
        r
    } else {
        rows.len() - 1
    }
}

/// Every row of `a` is a row of `b`, so `b` has at least the columns of `a`,
/// each at least as wide.
proof fn lemma_widths_of_contained_rows(a: Seq<Seq<CellView>>, b: Seq<Seq<CellView>>)
    requires
        forall|r: int| 0 <= r < a.len() ==> b.contains(#[trigger] a[r]),
    ensures
        column_count(a) <= column_count(b),
        forall|col: int| column_max(a, col) <= column_max(b, col),
{
    if column_count(a) > 0 {
        let r = lemma_column_count_reached(a);
        assert(b.contains(a[r]));
        let s = choose|s: int| 0 <= s < b.len() && b[s] == a[r];
        lemma_column_count_bounds(b, s);
    }
    assert forall|col: int| column_max(a, col) <= column_max(b, col) by {
        if column_max(a, col) > 0 {
            let r = lemma_column_max_reached(a, col);
            assert(b.contains(a[r]));
            let s = choose|s: int| 0 <= s < b.len() && b[s] == a[r];
            lemma_column_max_bounds(b, s, col);
        }
    }
}

/// The column widths do not depend on the order of the rows: two lists of
/// rows that hold the same rows, each as often as the other, give the same
/// widths.
pub proof fn lemma_max_column_widths_permutation(
    a: Seq<Seq<CellView>>,
    b: Seq<Seq<CellView>>,
)
    requires
        a.to_multiset() == b.to_multiset(),
    ensures
        max_column_widths(a) == max_column_widths(b),
{
    a.to_multiset_ensures();
    b.to_multiset_ensures();
    assert forall|r: int| 0 <= r < a.len() implies b.contains(#[trigger] a[r]) by {
        assert(a.contains(a[r]));
        assert(a.to_multiset().count(a[r]) > 0);
    }
    assert forall|r: int| 0 <= r < b.len() implies a.contains(#[trigger] b[r]) by {
        assert(b.contains(b[r]));
        assert(b.to_multiset().count(b[r]) > 0);
    }
    lemma_widths_of_contained_rows(a, b);
    lemma_widths_of_contained_rows(b, a);
    assert(max_column_widths(a) =~= max_column_widths(b));
}

/// Rendering reads the table and nothing else: two renderings of one table
/// are the same text.
pub proof fn lemma_render_twice(table: Table, first: String, second: String)
    requires
        first@ == rendered(table@, table.style),
        second@ == rendered(table@, table.style),
    ensures
        first@ == second@,
{
}

/// The columns of a separator line take as many glyphs as they are wide and
/// one more for each joint.
pub proof fn lemma_separator_columns_len(
    cells: Seq<CellView>,
    widths: Seq<nat>,
    style: TableStyle,
    pos: RowPosition,
    n: int,
)
    requires
        0 <= n <= widths.len(),
    ensures
        separator_columns(cells, widths, style, pos, n).len() == if n == 0 {
            0
        } else {
            width_sum(widths, n) + n - 1
        },
    decreases n,
{
    if n > 0 {
        lemma_separator_columns_len(cells, widths, style, pos, n - 1);
        assert(width_sum(widths, n) == width_sum(widths, n - 1) + widths[n - 1]);
        if n == 1 {
            assert(width_sum(widths, 0) == 0);
        }
    }
}

/// A row's own separator is as long as the widths say, whatever its cells.
pub proof fn lemma_plain_separator_len(
    cells: Seq<CellView>,
    widths: Seq<nat>,
    style: TableStyle,
    pos: RowPosition,
)
    ensures
        plain_separator(cells, widths, style, pos).len() == separator_len(widths),
{
    lemma_separator_columns_len(cells, widths, style, pos, widths.len() as int);
}

/// Every separator of a table has the same length.
pub proof fn lemma_table_separator_len(
    rows: Seq<Seq<CellView>>,
    widths: Seq<nat>,
    style: TableStyle,
    row: int,
)
    ensures
        table_separator(rows, widths, style, row).len() == separator_len(widths),
    decreases row,
{
    if row <= 0 {
        lemma_plain_separator_len(rows[0], widths, style, RowPosition::First);
    } else {
        lemma_table_separator_len(rows, widths, style, row - 1);
        lemma_plain_separator_len(rows[row], widths, style, RowPosition::Mid);
    }
}

/// The room of a run of columns is their widths and one glyph for each joint
/// between them.
pub proof fn lemma_room(widths: Seq<nat>, from: int, to: int)
    requires
        0 <= from < to <= widths.len(),
    ensures
        room(widths, from, to) == width_sum(widths, to) - width_sum(widths, from) + (to - from
            - 1),
    decreases to - from,
{
    if to > from + 1 {
        lemma_room(widths, from, to - 1);
    }
}

/// The content of the first `col` columns of a row whose cells fit and end
/// inside the grid. A cell that has begun has its whole room filled; where
/// no cell is under way, every column so far has one glyph and its width.
proof fn lemma_content_columns_len(
    cells: Seq<CellView>,
    widths: Seq<nat>,
    style: TableStyle,
    col: int,
    cell: int,
    spanned: int,
)
    requires
        row_wf(cells),
        cells_fit(cells, widths),
        columns_before(cells, cells.len() as int) <= widths.len(),
        0 <= col <= widths.len(),
        covers(cells, col, cell, spanned),
    ensures
        content_columns(cells, widths, style, col).len() == if cell < cells.len() && spanned > 0 {
            width_sum(widths, columns_before(cells, cell + 1)) + columns_before(cells, cell + 1)
        } else {
            width_sum(widths, col) + col
        },
    decreases col,
{
    if col > 0 {
        let before = col - 1;
        // The state of the walk one column to the left.
        let (c, s) = if cell < cells.len() && spanned > 0 {
            (cell, spanned - 1)
        } else if cell == cells.len() && col > columns_before(cells, cell) {
            (cell, 0int)
        } else {
            (cell - 1, cells[cell - 1].span - 1)
        };
        if !(cell < cells.len() && spanned > 0) && !(cell == cells.len() && col > columns_before(
            cells,
            cell,
        )) {
            assert(cell > 0) by {
                if cell == 0 {
                    assert(columns_before(cells, 0) == 0);
                }
            }
            assert(cells[cell - 1].span >= 1);
            assert(columns_before(cells, cell) == columns_before(cells, cell - 1) + cells[cell
                - 1].span);
        }
        assert(covers(cells, before, c, s));
        lemma_content_columns_len(cells, widths, style, before, c, s);
        lemma_covers_cell_at(cells, before, c, s);
        let drawn = content_column(cells, widths, style, before);
        if c < cells.len() {
            let end = columns_before(cells, c + 1);
            assert(end == columns_before(cells, c) + cells[c].span);
            lemma_columns_before_grows(cells, c + 1, cells.len() as int);
            if s == 0 {
                assert(span_end(widths, before, cells[c].span) == end);
                lemma_room(widths, before, end);
                assert(cells[c].padded().len() <= room(widths, before, end));
                assert(drawn.len() == 1 + room(widths, before, end));
            } else {
                assert(drawn.len() == 0);
            }
        } else {
            assert(drawn.len() == 1 + widths[before]);
        }
        assert(content_columns(cells, widths, style, col).len() == content_columns(
            cells,
            widths,
            style,
            before,
        ).len() + drawn.len());
        assert(width_sum(widths, col) == width_sum(widths, before) + widths[before]);
    } else {
        lemma_columns_before_grows(cells, 0, cell);
        assert(columns_before(cells, 0) == 0);
    }
}

/// A content line closes the box: where every cell of a row fits the room
/// of the columns it covers and the last cell ends inside the grid, the
/// row's content line is as long as every separator line drawn over the
/// same columns.
pub proof fn lemma_content_line_len(cells: Seq<CellView>, widths: Seq<nat>, style: TableStyle)
    requires
        closes_box(cells, widths),
    ensures
        content_line(cells, widths, style).len() == separator_len(widths),
{
    let n = widths.len() as int;
    assert(covers(cells, n, cells.len() as int, 0));
    lemma_content_columns_len(cells, widths, style, n, cells.len() as int, 0);
}

/// In a row of cells that occupy one column each, cell `k` begins at column
/// `k`.
proof fn lemma_columns_before_single(cells: Seq<CellView>, k: int)
    requires
        0 <= k <= cells.len(),
        forall|j: int| 0 <= j < cells.len() ==> (#[trigger] cells[j]).span == 1,
    ensures
        columns_before(cells, k) == k,
    decreases k,
{
    if k > 0 {
        lemma_columns_before_single(cells, k - 1);
    }
}

/// The content of a row of single-column cells, drawn in columns as wide as
/// its own cells ask: one vertical glyph and the column per cell.
proof fn lemma_single_row_content_len(cells: Seq<CellView>, style: TableStyle, n: int)
    requires
        0 <= n <= cells.len(),
        forall|j: int| 0 <= j < cells.len() ==> (#[trigger] cells[j]).span == 1,
    ensures
        content_columns(cells, max_column_widths(seq![cells]), style, n).len() == width_sum(
            max_column_widths(seq![cells]),
            n,
        ) + n,
    decreases n,
{
    if n > 0 {
        let rows = seq![cells];
        let widths = max_column_widths(rows);
        let col = n - 1;
        lemma_single_row_content_len(cells, style, n - 1);
        lemma_single_row_widths(cells);
        lemma_columns_before_single(cells, col);
        lemma_columns_before_single(cells, col + 1);
        assert(cells[col].span == 1);
        assert(covers(cells, col, col, 0));
        assert forall|k: int| 0 <= k < cells.len() implies (#[trigger] cells[k]).span >= 1 by {}
        lemma_covers_cell_at(cells, col, col, 0);
        assert(cells[col].width() == cells[col].padded().len());
        assert(content_column(cells, widths, style, col).len() == 1 + widths[col]);
    }
}

/// A table of one row has a column per cell, as wide as the cell asks.
proof fn lemma_single_row_widths(cells: Seq<CellView>)
    ensures
        max_column_widths(seq![cells]).len() == cells.len(),
        forall|col: int|
            0 <= col < cells.len() ==> (#[trigger] max_column_widths(seq![cells])[col])
                == cells[col].width(),
{
    let rows = seq![cells];
    assert(rows.drop_last() =~= Seq::<Seq<CellView>>::empty());
    assert(rows.last() == cells);
    assert(column_count(rows.drop_last()) == 0);
    assert(column_count(rows) == cells.len());
    assert forall|col: int| 0 <= col < cells.len() implies (#[trigger] max_column_widths(
        rows,
    )[col]) == cells[col].width() by {
        assert(column_max(rows.drop_last(), col) == 0);
    }
}

/// A table of one row whose cells occupy one column each is drawn as three
/// lines: the row's separator for the first position, its content, and its
/// separator for the last position. Each of the three is as long as the
/// columns together, and one glyph more for each cell and one for the end.
pub proof fn lemma_single_row_lines(cells: Seq<CellView>, style: TableStyle)
    requires
        cells.len() >= 1,
        forall|k: int| 0 <= k < cells.len() ==> (#[trigger] cells[k]).span == 1,
    ensures
        ({
            let widths = max_column_widths(seq![cells]);
            let top = plain_separator(cells, widths, style, RowPosition::First);
            let content = content_line(cells, widths, style);
            let bottom = plain_separator(cells, widths, style, RowPosition::Last);
            &&& rendered(seq![cells], style) == top + seq!['\n'] + content + seq!['\n'] + bottom
                + seq!['\n']
            &&& top.len() == total_width(widths) + cells.len() + 1
            &&& content.len() == total_width(widths) + cells.len() + 1
            &&& bottom.len() == total_width(widths) + cells.len() + 1
        }),
{
    let rows = seq![cells];
    let widths = max_column_widths(rows);
    lemma_single_row_widths(cells);
    lemma_plain_separator_len(cells, widths, style, RowPosition::First);
    lemma_plain_separator_len(cells, widths, style, RowPosition::Last);
    lemma_single_row_content_len(cells, style, cells.len() as int);
    assert(rows.last() == cells);
    assert(rows[0] == cells);
    assert(rendered_rows(rows, widths, style, 0) =~= Seq::<char>::empty());
    assert(rendered_rows(rows, widths, style, 1) =~= plain_separator(
        cells,
        widths,
        style,
        RowPosition::First,
    ) + seq!['\n'] + content_line(cells, widths, style) + seq!['\n']);
    assert(rendered(rows, style) =~= plain_separator(cells, widths, style, RowPosition::First)
        + seq!['\n'] + content_line(cells, widths, style) + seq!['\n'] + plain_separator(
        cells,
        widths,
        style,
        RowPosition::Last,
    ) + seq!['\n']);
}

/// Merging keeps the shape of the current line's ends: its first glyph
/// stays, its last glyph stays where the line above reaches that far, and
/// in between the line is horizontal wherever both lines are.
pub proof fn lemma_merge_keeps_ends(
    style: TableStyle,
    current: Seq<char>,
    above: Seq<char>,
    pos: RowPosition,
)
    ensures
        merged_separator(style, current, above, pos).len() <= current.len(),
        merged_separator(style, current, above, pos).len() <= above.len(),
        current.len() > 0 && above.len() > 0 ==> merged_separator(style, current, above, pos)[0]
            == current[0],
        0 < current.len() <= above.len() ==> merged_separator(style, current, above, pos).last()
            == current.last(),
        forall|at: int|
            0 <= at < merged_separator(style, current, above, pos).len() && current[at]
                == style.horizontal && above[at] == style.horizontal ==> #[trigger] merged_separator(
                style,
                current,
                above,
                pos,
            )[at] == style.horizontal,
{
}

/// The columns of a separator line are drawn from left to right: the glyphs
/// of the first `m` columns stay where they are when more columns follow.
proof fn lemma_separator_columns_prefix(
    cells: Seq<CellView>,
    widths: Seq<nat>,
    style: TableStyle,
    pos: RowPosition,
    m: int,
    n: int,
    at: int,
)
    requires
        0 <= m <= n <= widths.len(),
        0 <= at < separator_columns(cells, widths, style, pos, m).len(),
    ensures
        at < separator_columns(cells, widths, style, pos, n).len(),
        separator_columns(cells, widths, style, pos, n)[at] == separator_columns(
            cells,
            widths,
            style,
            pos,
            m,
        )[at],
    decreases n - m,
{
    if m < n {
        lemma_separator_columns_prefix(cells, widths, style, pos, m, n - 1, at);
    }
}

/// Where a grid has two columns or more, a row's own separator shows the
/// joint of the second column right behind the first column.
pub proof fn lemma_second_joint(
    cells: Seq<CellView>,
    widths: Seq<nat>,
    style: TableStyle,
    pos: RowPosition,
)
    requires
        widths.len() >= 2,
    ensures
        joint_offset(widths) < plain_separator(cells, widths, style, pos).len() - 1,
        plain_separator(cells, widths, style, pos)[joint_offset(widths)] == separator_joint(
            cells,
            style,
            pos,
            1,
        )[0],
{
    let one = separator_columns(cells, widths, style, pos, 1);
    let two = separator_columns(cells, widths, style, pos, 2);
    let all = separator_columns(cells, widths, style, pos, widths.len() as int);
    assert(separator_columns(cells, widths, style, pos, 0) =~= Seq::<char>::empty());
    assert(one =~= repeated(style.horizontal, widths[0]));
    assert(separator_joint(cells, style, pos, 1).len() == 1);
    assert(two[widths[0] as int] == separator_joint(cells, style, pos, 1)[0]);
    lemma_separator_columns_prefix(cells, widths, style, pos, 2, widths.len() as int, widths[0] as int);
}

/// A column boundary that a row needs shows in the separator above it even
/// where the row above has none: where a row of one cell that occupies two
/// columns stands right above a row of two cells of one column each, the
/// separator between them holds the full intersection glyph between the
/// first and the second column.
pub proof fn lemma_merge_keeps_boundary(rows: Seq<Seq<CellView>>, style: TableStyle, r: int)
    requires
        0 <= r,
        r + 1 < rows.len(),
        rows[r].len() == 1,
        rows[r][0].span == 2,
        rows[r + 1].len() == 2,
        rows[r + 1][0].span == 1,
        rows[r + 1][1].span == 1,
    ensures
        ({
            let widths = max_column_widths(rows);
            let line = table_separator(rows, widths, style, r + 1);
            &&& widths.len() >= 2
            &&& joint_offset(widths) < line.len()
            &&& line[joint_offset(widths)] == style.intersection
        }),
{
    let widths = max_column_widths(rows);
    let upper = rows[r];
    let lower = rows[r + 1];
    let at = joint_offset(widths);
    lemma_column_count_bounds(rows, r + 1);
    lemma_table_separator_len(rows, widths, style, r + 1);
    lemma_table_separator_len(rows, widths, style, r);
    if r > 0 {
        lemma_table_separator_len(rows, widths, style, r - 1);
    }
    // The row above has no boundary there.
    assert(columns_before(upper, 1) == 2) by {
        assert(columns_before(upper, 0) == 0);
    }
    assert(cell_at(upper, 1) == 0);
    assert(!opens_cell(upper, 1));
    // The row below has one.
    assert(columns_before(lower, 1) == 1) by {
        assert(columns_before(lower, 0) == 0);
    }
    assert(columns_before(lower, 2) == 2);
    assert(cell_at_from(lower, 1, 1) == 1);
    assert(cell_at(lower, 1) == 1);
    assert(opens_cell(lower, 1));
    let upper_pos = if r == 0 {
        RowPosition::First
    } else {
        RowPosition::Mid
    };
    lemma_second_joint(upper, widths, style, upper_pos);
    lemma_second_joint(lower, widths, style, RowPosition::Mid);
    lemma_plain_separator_len(upper, widths, style, upper_pos);
    lemma_plain_separator_len(lower, widths, style, RowPosition::Mid);
    let above = table_separator(rows, widths, style, r);
    let current = plain_separator(lower, widths, style, RowPosition::Mid);
    assert(current[at] == style.intersection);
    assert(above[at] == style.horizontal || above[at] == style.outer_bottom_horizontal || above[at]
        == style.intersection) by {
        let own = plain_separator(upper, widths, style, upper_pos);
        assert(own[at] == style.horizontal);
        if r > 0 {
            let higher = table_separator(rows, widths, style, r - 1);
            assert(above == merged_separator(style, own, higher, RowPosition::Mid));
            assert(above[at] == merged_at(style, own, higher, RowPosition::Mid, at));
        }
    }
    let line = table_separator(rows, widths, style, r + 1);
    assert(line == merged_separator(style, current, above, RowPosition::Mid));
    assert(line[at] == merged_at(style, current, above, RowPosition::Mid, at));
}

} // verus!
