//! One horizontal band of a table.
use super::cell::{Cell, CellView};
use super::laws::lemma_plain_separator_len;
use super::layout::{
    as_nats, covers, lemma_covers_cell_at, merged_at, merged_separator, plain_separator, row_wf,
    row_widths, separator_columns, separator_joint, separator_len, separator_line,
};
use crate::text::{glyphs_of, push_repeated, string_of};
use super::{RowPosition, TableStyle};
use vstd::prelude::*;

verus! {

/// An ordered list of cells.
pub struct Row {
    pub cells: Vec<Cell>,
}

impl View for Row {
    type V = Seq<CellView>;

    open spec fn view(&self) -> Seq<CellView> {
        Seq::new(self.cells@.len(), |k: int| self.cells@[k]@)
    }
}

/// The text of a separator that may or may not be there.
pub open spec fn text_of(line: Option<String>) -> Option<Seq<char>> {
    match line {
        Some(text) => Some(text@),
        None => None,
    }
}

impl Row {
    /// Every cell occupies at least one grid column.
    pub open spec fn wf(&self) -> bool {
        row_wf(self@)
    }

    /// The row of these cells, from left to right.
    pub fn new(cells: Vec<Cell>) -> (row: Row)
        ensures
            row.cells == cells,
            (forall|k: int| 0 <= k < cells@.len() ==> (#[trigger] cells@[k]).wf()) ==> row.wf(),
    {
        Row { cells }
    }

    /// The width that each cell asks for, in the order of the cells: one
    /// entry per cell, whatever its span.
    pub fn column_widths(&self) -> (widths: Vec<usize>)
        requires
            self.wf(),
        ensures
            as_nats(widths@) == row_widths(self@),
    {
        let mut widths: Vec<usize> = Vec::new();
        let mut k: usize = 0;
        while k < self.cells.len()
            invariant
                self.wf(),
                k <= self.cells.len(),
                widths.len() == k,
                forall|j: int| 0 <= j < k ==> widths@[j] as nat == (#[trigger] self@[j]).width(),
            decreases self.cells.len() - k,
        {
            assert(self@[k as int].span >= 1);
            widths.push(self.cells[k].width());
            k += 1;
        }
        assert(as_nats(widths@) =~= row_widths(self@));
        widths
    }

    /// The separator line of this row taken alone, as glyphs.
    pub fn separator_glyphs(
        &self,
        max_widths: &Vec<usize>,
        style: &TableStyle,
        row_position: RowPosition,
    ) -> (line: Vec<char>)
        requires
            self.wf(),
        ensures
            line@ == plain_separator(self@, as_nats(max_widths@), *style, row_position),
            line@.len() == separator_len(as_nats(max_widths@)),
    {
        let ghost widths = as_nats(max_widths@);
        proof {
            lemma_plain_separator_len(self@, widths, *style, row_position);
        }
        let mut line: Vec<char> = Vec::new();
        line.push(style.start_for_position(row_position));
        let ghost opening = line@;
        // The cell that covers the current column, and how many of its
        // columns lie to the left of it.
        let mut cell: usize = 0;
        let mut spanned: usize = 0;
        let mut col: usize = 0;
        while col < max_widths.len()
            invariant
                self.wf(),
                widths == as_nats(max_widths@),
                col <= max_widths.len(),
                cell <= self.cells.len(),
                covers(self@, col as int, cell as int, spanned as int),
                line@ == opening + separator_columns(
                    self@,
                    widths,
                    *style,
                    row_position,
                    col as int,
                ),
            decreases max_widths.len() - col,
        {
            proof {
                lemma_covers_cell_at(self@, col as int, cell as int, spanned as int);
            }
            let ghost before = line@;
            if col > 0 {
                if cell >= self.cells.len() || spanned == 0 {
                    line.push(style.intersect_for_position(row_position));
                } else {
                    line.push(style.horizontal);
                }
            }
            assert(line@ =~= before + separator_joint(self@, *style, row_position, col as int));
            push_repeated(&mut line, style.horizontal, max_widths[col]);
            assert(line@ =~= opening + separator_columns(
                self@,
                widths,
                *style,
                row_position,
                col + 1,
            ));
            if cell < self.cells.len() {
                spanned += 1;
                if spanned == self.cells[cell].col_span {
                    spanned = 0;
                    cell += 1;
                }
            }
            col += 1;
        }
        line.push(style.end_for_position(row_position));
        line
    }

    /// The separator line of this row, as glyphs: its own, merged with the
    /// line of the row above where one is given.
    pub fn merged_glyphs(
        &self,
        max_widths: &Vec<usize>,
        style: &TableStyle,
        row_position: RowPosition,
        previous: Option<&Vec<char>>,
    ) -> (line: Vec<char>)
        requires
            self.wf(),
        ensures
            line@ == separator_line(
                self@,
                as_nats(max_widths@),
                *style,
                row_position,
                match previous {
                    Some(above) => Some(above@),
                    None => None,
                },
            ),
    {
        let current = self.separator_glyphs(max_widths, style, row_position);
        match previous {
            None => current,
            Some(above) => merge_separators(style, &current, above, row_position),
        }
    }

    /// The separator line of this row. It opens with the style's opening
    /// glyph for `row_position`, holds for every grid column its joint and
    /// as many horizontal glyphs as the column is wide, and closes with the
    /// closing glyph. Where `previous_separator` is given, the line is merged
    /// with it offset by offset, so that it shows the column boundaries of
    /// the row above as well.
    pub fn get_separator(
        &self,
        max_widths: &Vec<usize>,
        style: &TableStyle,
        row_position: RowPosition,
        previous_separator: Option<String>,
    ) -> (line: String)
        requires
            self.wf(),
        ensures
            line@ == separator_line(
                self@,
                as_nats(max_widths@),
                *style,
                row_position,
                text_of(previous_separator),
            ),
            match previous_separator {
                None => line@.len() == separator_len(as_nats(max_widths@)),
                Some(above) => line@.len() == if separator_len(as_nats(max_widths@))
                    <= above@.len() {
                    separator_len(as_nats(max_widths@))
                } else {
                    above@.len()
                },
            },
    {
        proof {
            lemma_plain_separator_len(self@, as_nats(max_widths@), *style, row_position);
        }
        let glyphs = match previous_separator {
            None => self.merged_glyphs(max_widths, style, row_position, None),
            Some(text) => {
                let above = glyphs_of(text.as_str());
                self.merged_glyphs(max_widths, style, row_position, Some(&above))
            },
        };
        string_of(&glyphs)
    }
}

/// Merges the separator of the current row with that of the row above.
pub fn merge_separators(
    style: &TableStyle,
    current: &Vec<char>,
    above: &Vec<char>,
    row_position: RowPosition,
) -> (line: Vec<char>)
    ensures
        line@ == merged_separator(*style, current@, above@, row_position),
{
    let len: usize = if current.len() <= above.len() {
        current.len()
    } else {
        above.len()
    };
    let mut line: Vec<char> = Vec::new();
    let mut at: usize = 0;
    while at < len
        invariant
            at <= len,
            len <= current.len(),
            len <= above.len(),
            line.len() == at,
            forall|i: int|
                0 <= i < at ==> line@[i] == merged_at(
                    *style,
                    current@,
                    above@,
                    row_position,
                    i,
                ),
        decreases len - at,
    {
        let bottom: char = current[at];
        let top: char = above[at];
        if at == 0 || at == current.len() - 1 {
            line.push(bottom);
        } else if bottom != style.horizontal || top != style.horizontal {
            line.push(style.merge_intersection_for_position(top, bottom, row_position));
        } else {
            line.push(style.horizontal);
        }
        at += 1;
    }
    assert(line@ =~= merged_separator(*style, current@, above@, row_position));
    line
}

} // verus!
