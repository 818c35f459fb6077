//! Border styles and the table itself.
use self::cell::CellView;
use self::laws::lemma_content_line_len;
use self::layout::{
    as_nats, closes_box, column_count, column_max, content_column, content_columns, content_line,
    covers, lemma_column_max_beyond, lemma_covers_cell_at, max_column_widths, padding, rendered,
    rendered_rows, room, rows_wf, separator_len, span_end, table_separator,
};
use self::row::Row;
use crate::text::{push_glyphs, push_repeated, push_text, repeated, string_of};
use vstd::prelude::*;
use vstd::string::*;

pub mod cell;
pub mod laws;
pub mod layout;
pub mod row;

verus! {

/// Where a separator line stands: above the first row, between two rows, or
/// below the last row.
#[derive(Clone, Copy, Debug, PartialEq, Eq, Structural)]
pub enum RowPosition {
    First,
    Mid,
    Last,
}

/// The glyphs that borders are drawn with.
#[derive(Clone, Copy, Debug, PartialEq, Eq)]
pub struct TableStyle {
    pub top_left_corner: char,
    pub top_right_corner: char,
    pub bottom_left_corner: char,
    pub bottom_right_corner: char,
    pub outer_left_vertical: char,
    pub outer_right_vertical: char,
    pub outer_bottom_horizontal: char,
    pub outer_top_horizontal: char,
    pub intersection: char,
    pub vertical: char,
    pub horizontal: char,
}

impl TableStyle {
    /// The glyph that opens a separator line at `pos`.
    pub open spec fn start_glyph(self, pos: RowPosition) -> char {
        match pos {
            RowPosition::First => self.top_left_corner,
            RowPosition::Mid => self.outer_left_vertical,
            RowPosition::Last => self.bottom_left_corner,
        }
    }

    /// The glyph that closes a separator line at `pos`.
    pub open spec fn end_glyph(self, pos: RowPosition) -> char {
        match pos {
            RowPosition::First => self.top_right_corner,
            RowPosition::Mid => self.outer_right_vertical,
            RowPosition::Last => self.bottom_right_corner,
        }
    }

    /// The glyph drawn where a column boundary meets a separator line at `pos`.
    pub open spec fn intersect_glyph(self, pos: RowPosition) -> char {
        match pos {
            RowPosition::First => self.outer_top_horizontal,
            RowPosition::Mid => self.intersection,
            RowPosition::Last => self.outer_bottom_horizontal,
        }
    }

    /// The glyph for one offset of a separator that has to serve two rows:
    /// `top` is what the separator above the upper row shows there, `bottom`
    /// what the lower row alone would draw.
    ///
    /// - The lower row has a column boundary and the line above shows none
    ///   for the upper row (it is horizontal there, or a junction that only
    ///   opens upwards): the full intersection.
    /// - The lower row has none and the line above shows one for the upper
    ///   row (the full intersection, or the junction of the top line): the
    ///   junction that opens upwards.
    /// - The lower row has none and the line above shows a junction that
    ///   only opens upwards: a horizontal glyph.
    /// - Any other pair: the junction of the line's position.
    pub open spec fn merged_glyph(self, top: char, bottom: char, pos: RowPosition) -> char {
        if (top == self.horizontal || top == self.outer_bottom_horizontal) && bottom
            == self.intersection {
            self.intersection
        } else if (top == self.intersection || top == self.outer_top_horizontal) && bottom
            == self.horizontal {
            self.outer_bottom_horizontal
        } else if top == self.outer_bottom_horizontal && bottom == self.horizontal {
            self.horizontal
        } else {
            self.intersect_glyph(pos)
        }
    }

    /// A plain ASCII box: `+` for every corner and junction, `-` and `|` for
    /// the lines.
    pub open spec fn spec_simple() -> TableStyle {
        TableStyle {
            top_left_corner: '+',
            top_right_corner: '+',
            bottom_left_corner: '+',
            bottom_right_corner: '+',
            outer_left_vertical: '+',
            outer_right_vertical: '+',
            outer_bottom_horizontal: '+',
            outer_top_horizontal: '+',
            intersection: '+',
            vertical: '|',
            horizontal: '-',
        }
    }

    /// Double-line box-drawing glyphs, a distinct one for every corner and
    /// junction.
    pub open spec fn spec_extended() -> TableStyle {
        TableStyle {
            top_left_corner: '╔',
            top_right_corner: '╗',
            bottom_left_corner: '╚',
            bottom_right_corner: '╝',
            outer_left_vertical: '╠',
            outer_right_vertical: '╣',
            outer_bottom_horizontal: '╩',
            outer_top_horizontal: '╦',
            intersection: '╬',
            vertical: '║',
            horizontal: '═',
        }
    }

    /// The plain ASCII style.
    #[verifier::when_used_as_spec(spec_simple)]
    pub fn simple() -> (style: TableStyle)
        ensures
            style == Self::spec_simple(),
    {
        TableStyle {
            top_left_corner: '+',
            top_right_corner: '+',
            bottom_left_corner: '+',
            bottom_right_corner: '+',
            outer_left_vertical: '+',
            outer_right_vertical: '+',
            outer_bottom_horizontal: '+',
            outer_top_horizontal: '+',
            intersection: '+',
            vertical: '|',
            horizontal: '-',
        }
    }

    /// The double-line style.
    #[verifier::when_used_as_spec(spec_extended)]
    pub fn extended() -> (style: TableStyle)
        ensures
            style == Self::spec_extended(),
    {
        TableStyle {
            top_left_corner: '╔',
            top_right_corner: '╗',
            bottom_left_corner: '╚',
            bottom_right_corner: '╝',
            outer_left_vertical: '╠',
            outer_right_vertical: '╣',
            outer_bottom_horizontal: '╩',
            outer_top_horizontal: '╦',
            intersection: '╬',
            vertical: '║',
            horizontal: '═',
        }
    }

    /// The glyph that opens a separator line at `pos`.
    pub fn start_for_position(&self, pos: RowPosition) -> (glyph: char)
        ensures
            glyph == self.start_glyph(pos),
    {
        match pos {
            RowPosition::First => self.top_left_corner,
            RowPosition::Mid => self.outer_left_vertical,
            RowPosition::Last => self.bottom_left_corner,
        }
    }

    /// The glyph that closes a separator line at `pos`.
    pub fn end_for_position(&self, pos: RowPosition) -> (glyph: char)
        ensures
            glyph == self.end_glyph(pos),
    {
        match pos {
            RowPosition::First => self.top_right_corner,
            RowPosition::Mid => self.outer_right_vertical,
            RowPosition::Last => self.bottom_right_corner,
        }
    }

    /// The glyph drawn where a column boundary meets a separator line at
    /// `pos`.
    pub fn intersect_for_position(&self, pos: RowPosition) -> (glyph: char)
        ensures
            glyph == self.intersect_glyph(pos),
    {
        match pos {
            RowPosition::First => self.outer_top_horizontal,
            RowPosition::Mid => self.intersection,
            RowPosition::Last => self.outer_bottom_horizontal,
        }
    }

    /// The glyph for one offset of a separator that has to serve two rows.
    pub fn merge_intersection_for_position(
        &self,
        top: char,
        bottom: char,
        pos: RowPosition,
    ) -> (glyph: char)
        ensures
            glyph == self.merged_glyph(top, bottom, pos),
    {
        if (top == self.horizontal || top == self.outer_bottom_horizontal) && bottom
            == self.intersection {
            self.intersection
        } else if (top == self.intersection || top == self.outer_top_horizontal) && bottom
            == self.horizontal {
            self.outer_bottom_horizontal
        } else if top == self.outer_bottom_horizontal && bottom == self.horizontal {
            self.horizontal
        } else {
            self.intersect_for_position(pos)
        }
    }
}

/// An ordered list of rows and the style they are drawn in.
pub struct Table {
    pub column_titles: Vec<String>,
    pub rows: Vec<Row>,
    pub style: TableStyle,
}

impl View for Table {
    type V = Seq<Seq<CellView>>;

    /// The rows, each as the list of its cells.
    open spec fn view(&self) -> Seq<Seq<CellView>> {
        Seq::new(self.rows@.len(), |r: int| self.rows@[r]@)
    }
}

impl Table {
    /// Every cell of every row occupies at least one grid column.
    pub open spec fn wf(&self) -> bool {
        rows_wf(self@)
    }

    /// A table without rows, in the extended style.
    pub fn new() -> (table: Table)
        ensures
            table@ == Seq::<Seq<CellView>>::empty(),
            table.column_titles@.len() == 0,
            table.style == TableStyle::extended(),
            table.wf(),
    {
        let table = Table {
            column_titles: Vec::new(),
            rows: Vec::new(),
            style: TableStyle::extended(),
        };
        assert(table@ =~= Seq::<Seq<CellView>>::empty());
        table
    }

    /// A table without rows, in the style given.
    pub fn with_style(style: TableStyle) -> (table: Table)
        ensures
            table@ == Seq::<Seq<CellView>>::empty(),
            table.column_titles@.len() == 0,
            table.style == style,
            table.wf(),
    {
        let table = Table { column_titles: Vec::new(), rows: Vec::new(), style };
        assert(table@ =~= Seq::<Seq<CellView>>::empty());
        table
    }

    /// Puts `row` below the rows that are there.
    pub fn add_row(&mut self, row: Row)
        ensures
            final(self)@ == old(self)@.push(row@),
            final(self).rows@ == old(self).rows@.push(row),
            final(self).style == old(self).style,
            final(self).column_titles == old(self).column_titles,
            old(self).wf() && row.wf() ==> final(self).wf(),
    {
        self.rows.push(row);
        assert(self@ =~= old(self)@.push(row@));
    }

    /// The width of every grid column: for each index the largest width that
    /// any row's cell of that index asks for. A row with fewer cells has no
    /// say on the columns beyond them.
    pub fn max_column_widths(&self) -> (widths: Vec<usize>)
        requires
            self.wf(),
        ensures
            as_nats(widths@) == max_column_widths(self@),
            widths@.len() == column_count(self@),
            forall|col: int|
                0 <= col < widths@.len() ==> (#[trigger] widths@[col]) as nat == column_max(
                    self@,
                    col,
                ),
    {
        let mut widths: Vec<usize> = Vec::new();
        let mut r: usize = 0;
        assert(as_nats(widths@) =~= max_column_widths(self@.take(0)));
        while r < self.rows.len()
            invariant
                self.wf(),
                r <= self.rows.len(),
                as_nats(widths@) == max_column_widths(self@.take(r as int)),
            decreases self.rows.len() - r,
        {
            let row = &self.rows[r];
            let ghost seen = self@.take(r as int);
            let ghost with_row = self@.take(r + 1);
            assert(with_row.drop_last() =~= seen);
            assert(with_row.last() == row@);
            assert(widths.len() == column_count(seen)) by {
                assert(as_nats(widths@).len() == max_column_widths(seen).len());
            }
            assert forall|j: int| 0 <= j < widths.len() implies widths@[j] as nat == column_max(
                seen,
                j,
            ) by {
                assert(as_nats(widths@)[j] == max_column_widths(seen)[j]);
            }
            let mut k: usize = 0;
            while k < row.cells.len()
                invariant
                    row.wf(),
                    k <= row.cells.len(),
                    with_row.drop_last() == seen,
                    with_row.last() == row@,
                    with_row.len() > 0,
                    widths.len() == if column_count(seen) > k {
                        column_count(seen)
                    } else {
                        k as nat
                    },
                    forall|j: int| 0 <= j < k ==> widths@[j] as nat == column_max(with_row, j),
                    forall|j: int|
                        k <= j < widths.len() ==> widths@[j] as nat == column_max(seen, j),
                decreases row.cells.len() - k,
            {
                assert(row@[k as int].span >= 1);
                let ghost earlier = widths@;
                let width: usize = row.cells[k].width();
                assert(width as nat == with_row.last()[k as int].width());
                assert(column_max(with_row, k as int) == if width as nat > column_max(
                    seen,
                    k as int,
                ) {
                    width as nat
                } else {
                    column_max(seen, k as int)
                });
                if widths.len() > k {
                    assert(widths@[k as int] as nat == column_max(seen, k as int));
                }
                if widths.len() <= k {
                    proof {
                        lemma_column_max_beyond(seen, k as int);
                    }
                    widths.push(width);
                } else if width > widths[k] {
                    widths.set(k, width);
                }
                assert(widths@[k as int] as nat == column_max(with_row, k as int));
                assert forall|j: int| 0 <= j < k + 1 implies widths@[j] as nat == column_max(
                    with_row,
                    j,
                ) by {
                    if j < k {
                        assert(widths@[j] == earlier[j]);
                    }
                }
                assert forall|j: int| k + 1 <= j < widths.len() implies widths@[j] as nat
                    == column_max(seen, j) by {
                    assert(widths@[j] == earlier[j]);
                }
                k += 1;
            }
            r += 1;
            assert(widths.len() == column_count(with_row));
            assert forall|j: int| 0 <= j < widths.len() implies widths@[j] as nat == column_max(
                with_row,
                j,
            ) by {
                if j >= row@.len() {
                    assert(column_max(with_row, j) == column_max(seen, j));
                }
            }
            assert(as_nats(widths@) =~= max_column_widths(with_row));
        }
        assert(self@.take(r as int) =~= self@);
        assert forall|col: int| 0 <= col < widths@.len() implies (#[trigger] widths@[col]) as nat
            == column_max(self@, col) by {
            assert(as_nats(widths@)[col] == max_column_widths(self@)[col]);
        }
        widths
    }

    /// The content line of `row`, as glyphs.
    pub fn content_glyphs(&self, row: &Row, max_widths: &Vec<usize>) -> (line: Vec<char>)
        requires
            row.wf(),
        ensures
            line@ == content_line(row@, as_nats(max_widths@), self.style),
            closes_box(row@, as_nats(max_widths@)) ==> line@.len() == separator_len(
                as_nats(max_widths@),
            ),
    {
        let ghost widths = as_nats(max_widths@);
        proof {
            if closes_box(row@, widths) {
                lemma_content_line_len(row@, widths, self.style);
            }
        }
        let mut line: Vec<char> = Vec::new();
        // The cell that covers the current column, and how many of its
        // columns lie to the left of it.
        let mut cell: usize = 0;
        let mut spanned: usize = 0;
        let mut col: usize = 0;
        assert(line@ =~= content_columns(row@, widths, self.style, 0));
        while col < max_widths.len()
            invariant
                row.wf(),
                widths == as_nats(max_widths@),
                col <= max_widths.len(),
                cell <= row.cells.len(),
                covers(row@, col as int, cell as int, spanned as int),
                line@ == content_columns(row@, widths, self.style, col as int),
            decreases max_widths.len() - col,
        {
            proof {
                lemma_covers_cell_at(row@, col as int, cell as int, spanned as int);
            }
            let ghost before = line@;
            if cell < row.cells.len() {
                if spanned == 0 {
                    assert(row@[cell as int].span >= 1);
                    let text = row.cells[cell].padded_text();
                    let used: usize = text.as_str().unicode_len();
                    line.push(self.style.vertical);
                    push_text(&mut line, text.as_str());
                    push_fill(&mut line, max_widths, col, row.cells[cell].col_span, used);
                }
                spanned += 1;
                if spanned == row.cells[cell].col_span {
                    spanned = 0;
                    cell += 1;
                }
            } else {
                line.push(self.style.vertical);
                push_repeated(&mut line, ' ', max_widths[col]);
            }
            assert(line@ =~= before + content_column(row@, widths, self.style, col as int));
            col += 1;
        }
        line.push(self.style.vertical);
        line
    }

    /// The content line of `row`. Where one of its cells begins: a vertical
    /// glyph, the padded text, and blanks up to the right edge of the last
    /// grid column that the cell covers. Where the row has no cell: a
    /// vertical glyph and blanks for the column. At the end a closing
    /// vertical glyph. A text that is longer than the room of its columns is
    /// not cut. Where every cell fits its room and the last cell ends inside
    /// the grid, the line is as long as the separator lines.
    pub fn format_row(&self, row: &Row, max_widths: &Vec<usize>) -> (line: String)
        requires
            row.wf(),
        ensures
            line@ == content_line(row@, as_nats(max_widths@), self.style),
            closes_box(row@, as_nats(max_widths@)) ==> line@.len() == separator_len(
                as_nats(max_widths@),
            ),
    {
        let glyphs = self.content_glyphs(row, max_widths);
        string_of(&glyphs)
    }

    /// The whole table as text, each line closed by a line feed: above every
    /// row its separator, merged with the one above it, then its content;
    /// below the last row a closing separator. A table without rows gives
    /// the empty string.
    pub fn render(&self) -> (text: String)
        requires
            self.wf(),
        ensures
            text@ == rendered(self@, self.style),
            self@.len() == 0 ==> text@ == Seq::<char>::empty(),
    {
        let mut buffer: Vec<char> = Vec::new();
        if self.rows.len() > 0 {
            let max_widths = self.max_column_widths();
            let ghost widths = as_nats(max_widths@);
            let mut previous: Option<Vec<char>> = None;
            let mut r: usize = 0;
            assert(buffer@ =~= rendered_rows(self@, widths, self.style, 0));
            while r < self.rows.len()
                invariant
                    self.wf(),
                    r <= self.rows.len(),
                    widths == as_nats(max_widths@),
                    r == 0 ==> previous is None,
                    r > 0 ==> previous is Some && previous->0@ == table_separator(
                        self@,
                        widths,
                        self.style,
                        r - 1,
                    ),
                    buffer@ == rendered_rows(self@, widths, self.style, r as int),
                decreases self.rows.len() - r,
            {
                let ghost before = buffer@;
                let row = &self.rows[r];
                assert(row@ == self@[r as int]);
                let separator = if r == 0 {
                    row.merged_glyphs(&max_widths, &self.style, RowPosition::First, None)
                } else {
                    row.merged_glyphs(
                        &max_widths,
                        &self.style,
                        RowPosition::Mid,
                        previous.as_ref(),
                    )
                };
                assert(separator@ == table_separator(self@, widths, self.style, r as int));
                let content = self.content_glyphs(row, &max_widths);
                push_glyphs(&mut buffer, &separator);
                buffer.push('\n');
                push_glyphs(&mut buffer, &content);
                buffer.push('\n');
                assert(buffer@ =~= before + separator@ + seq!['\n'] + content@ + seq!['\n']);
                previous = Some(separator);
                r += 1;
            }
            let last = &self.rows[self.rows.len() - 1];
            assert(last@ == self@.last());
            let closing = last.separator_glyphs(&max_widths, &self.style, RowPosition::Last);
            let ghost before = buffer@;
            push_glyphs(&mut buffer, &closing);
            buffer.push('\n');
            assert(buffer@ =~= before + closing@ + seq!['\n']);
        }
        string_of(&buffer)
    }
}

/// Adds the blanks that stand behind a text of `used` glyphs in a cell of
/// `span` columns that begins at column `col`: as many as the room of the
/// columns it covers has left.
pub fn push_fill(
    line: &mut Vec<char>,
    max_widths: &Vec<usize>,
    col: usize,
    span: usize,
    used: usize,
)
    requires
        col < max_widths.len(),
    ensures
        final(line)@ == old(line)@ + repeated(
            ' ',
            padding(
                room(
                    as_nats(max_widths@),
                    col as int,
                    span_end(as_nats(max_widths@), col as int, span as nat),
                ),
                used as nat,
            ),
        ),
{
    let ghost widths = as_nats(max_widths@);
    // What of the text the columns so far have not yet taken up.
    let mut owed: usize = used;
    let ghost mut filled: nat = 0;
    let mut next: usize = col;
    let mut taken: usize = 0;
    assert(line@ =~= old(line)@ + repeated(' ', filled));
    while taken < span && next < max_widths.len()
        invariant
            widths == as_nats(max_widths@),
            col <= next <= max_widths.len(),
            next == col + taken,
            taken <= span,
            owed as nat == padding(used as nat, room(widths, col as int, next as int)),
            filled == padding(room(widths, col as int, next as int), used as nat),
            line@ == old(line)@ + repeated(' ', filled),
        decreases max_widths.len() - next,
    {
        let ghost so_far = line@;
        let ghost filled_before = filled;
        if taken > 0 {
            if owed > 0 {
                owed -= 1;
            } else {
                line.push(' ');
                proof {
                    filled = filled + 1;
                }
            }
        }
        let width: usize = max_widths[next];
        assert(widths[next as int] == width as nat);
        if owed >= width {
            owed -= width;
        } else {
            push_repeated(line, ' ', width - owed);
            proof {
                filled = filled + (width - owed) as nat;
            }
            owed = 0;
        }
        assert(line@ =~= old(line)@ + repeated(' ', filled));
        next += 1;
        taken += 1;
    }
}

} // verus!
