//! One entry of a table.
use vstd::prelude::*;
use vstd::string::*;

verus! {

/// What a cell is, as plain values: its text and the number of grid columns
/// it occupies.
pub struct CellView {
    pub text: Seq<char>,
    pub span: nat,
}

impl CellView {
    /// The text as it is drawn: one blank on either side.
    pub open spec fn padded(self) -> Seq<char> {
        seq![' '] + self.text + seq![' ']
    }

    /// The width the cell asks of each grid column it occupies: the length
    /// of the padded text shared out over the columns, rounded down.
    pub open spec fn width(self) -> nat
        recommends
            self.span >= 1,
    {
        (self.padded().len() / self.span) as nat
    }
}

/// A piece of text that occupies `col_span` grid columns.
pub struct Cell {
    pub data: String,
    pub col_span: usize,
}

impl View for Cell {
    type V = CellView;

    open spec fn view(&self) -> CellView {
        CellView { text: self.data@, span: self.col_span as nat }
    }
}

impl Cell {
    /// A cell occupies at least one grid column.
    pub open spec fn wf(&self) -> bool {
        self.col_span >= 1
    }

    /// A cell with the text `data` that occupies `col_span` grid columns.
    pub fn new(data: &str, col_span: usize) -> (cell: Cell)
        requires
            col_span >= 1,
        ensures
            cell.wf(),
            cell@ == (CellView { text: data@, span: col_span as nat }),
    {
        Cell { data: String::from_str(data), col_span }
    }

    /// A cell of one grid column.
    pub fn from_text(data: &str) -> (cell: Cell)
        ensures
            cell.wf(),
            cell@ == (CellView { text: data@, span: 1 }),
    {
        Cell::new(data, 1)
    }

    /// The text with one blank on either side, as it stands in a content
    /// line.
    pub fn padded_text(&self) -> (text: String)
        ensures
            text@ == self@.padded(),
    {
        let mut text = String::from_str(" ");
        text.append(self.data.as_str());
        text.append(" ");
        proof {
            reveal_strlit(" ");
            assert(" "@ =~= seq![' ']);
            assert(text@ =~= self@.padded());
        }
        text
    }

    /// The number of characters of the padded text.
    pub fn width_real(&self) -> (width: usize)
        ensures
            width == self@.padded().len(),
            width == self@.text.len() + 2,
    {
        self.padded_text().as_str().unicode_len()
    }

    /// The width per occupied grid column. A cell of one column is as wide
    /// as its text and the two blanks.
    pub fn width(&self) -> (width: usize)
        requires
            self.wf(),
        ensures
            width == self@.width(),
            self@.span == 1 ==> width == self@.text.len() + 2,
    {
        self.width_real() / self.col_span
    }
}

} // verus!
