//! Tables that list named values under a heading.
use crate::table::cell::{Cell, CellView};
use crate::table::row::Row;
use crate::table::{Table, TableStyle};
use vstd::prelude::*;

verus! {

/// The row that shows one entry: its name and its value, one grid column
/// each.
pub open spec fn entry_row(name: Seq<char>, value: Seq<char>) -> Seq<CellView> {
    seq![CellView { text: name, span: 1 }, CellView { text: value, span: 1 }]
}

/// The rows of a section: the heading across both columns, then one row per
/// entry, in the order of the entries.
pub open spec fn section_rows(heading: Seq<char>, entries: Seq<(String, String)>) -> Seq<
    Seq<CellView>,
> {
    Seq::new(
        entries.len() + 1,
        |r: int|
            if r == 0 {
                seq![CellView { text: heading, span: 2 }]
            } else {
                entry_row(entries[r - 1].0@, entries[r - 1].1@)
            },
    )
}

/// The table of one section, in the extended style: a heading that spans
/// both columns, and below it one row of two cells for every entry.
pub fn section(heading: &str, entries: &Vec<(String, String)>) -> (table: Table)
    ensures
        table.wf(),
        table@ == section_rows(heading@, entries@),
        table.style == TableStyle::extended(),
{
    let mut table = Table::new();
    let mut top: Vec<Cell> = Vec::new();
    top.push(Cell::new(heading, 2));
    let top_row = Row::new(top);
    assert(top_row@ =~= seq![CellView { text: heading@, span: 2 }]);
    table.add_row(top_row);
    let mut i: usize = 0;
    while i < entries.len()
        invariant
            i <= entries.len(),
            table.wf(),
            table.style == TableStyle::extended(),
            table@.len() == i + 1,
            forall|r: int| 0 <= r <= i ==> #[trigger] table@[r] == section_rows(heading@, entries@)[r],
        decreases entries.len() - i,
    {
        let mut cells: Vec<Cell> = Vec::new();
        cells.push(Cell::from_text(entries[i].0.as_str()));
        cells.push(Cell::from_text(entries[i].1.as_str()));
        let row = Row::new(cells);
        assert(row@ =~= entry_row(entries@[i as int].0@, entries@[i as int].1@));
        table.add_row(row);
        i += 1;
    }
    assert(table@ =~= section_rows(heading@, entries@));
    table
}

} // verus!
