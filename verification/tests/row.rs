use managed_alias::table::cell::Cell;
use managed_alias::table::row::{merge_separators, Row};
use managed_alias::table::{RowPosition, TableStyle};

fn cells(texts: &[(&str, usize)]) -> Row {
    let mut list = Vec::new();
    for (text, span) in texts {
        list.push(Cell::new(text, *span));
    }
    Row::new(list)
}

#[test]
fn column_widths_has_one_entry_per_cell() {
    let row = cells(&[("ll", 1), ("COMMANDS", 2), ("", 1)]);
    assert_eq!(row.column_widths(), vec![4, 5, 2]);
    assert_eq!(cells(&[]).column_widths(), Vec::<usize>::new());
}

#[test]
fn separator_of_single_column_cells() {
    let row = cells(&[("a", 1), ("bb", 1)]);
    let widths = vec![3, 4];
    let style = TableStyle::extended();
    assert_eq!(row.get_separator(&widths, &style, RowPosition::First, None), "╔═══╦════╗");
    assert_eq!(row.get_separator(&widths, &style, RowPosition::Mid, None), "╠═══╬════╣");
    assert_eq!(row.get_separator(&widths, &style, RowPosition::Last, None), "╚═══╩════╝");
}

#[test]
fn separator_runs_through_a_spanning_cell() {
    let row = cells(&[("COMMANDS", 2)]);
    let widths = vec![6, 17];
    let style = TableStyle::simple();
    assert_eq!(
        row.get_separator(&widths, &style, RowPosition::First, None),
        "+------------------------+"
    );
    let style = TableStyle::extended();
    assert_eq!(row.get_separator(&vec![2, 3], &style, RowPosition::Mid, None), "╠══════╣");
}

#[test]
fn separator_boundaries_follow_the_span_of_each_cell() {
    let style = TableStyle::extended();
    let widths = vec![3, 3, 3, 3];
    let row = cells(&[("a", 1), ("b", 2), ("c", 1)]);
    assert_eq!(
        row.get_separator(&widths, &style, RowPosition::First, None),
        "╔═══╦═══════╦═══╗"
    );
    let row = cells(&[("a", 2), ("b", 1), ("c", 1)]);
    assert_eq!(
        row.get_separator(&widths, &style, RowPosition::First, None),
        "╔═══════╦═══╦═══╗"
    );
    let row = cells(&[("a", 3), ("b", 1)]);
    assert_eq!(
        row.get_separator(&widths, &style, RowPosition::Last, None),
        "╚═══════════╩═══╝"
    );
}

#[test]
fn separator_has_a_boundary_at_every_column_beyond_the_cells() {
    let style = TableStyle::extended();
    let row = cells(&[("a", 2)]);
    assert_eq!(
        row.get_separator(&vec![1, 1, 1, 1], &style, RowPosition::Mid, None),
        "╠═══╬═╬═╣"
    );
    let empty = cells(&[]);
    assert_eq!(empty.get_separator(&vec![2, 2], &style, RowPosition::First, None), "╔══╦══╗");
}

#[test]
fn separator_without_columns_is_the_two_ends() {
    let style = TableStyle::extended();
    let row = cells(&[("a", 1)]);
    assert_eq!(row.get_separator(&vec![], &style, RowPosition::First, None), "╔╗");
    assert_eq!(row.get_separator(&vec![0], &style, RowPosition::Last, None), "╚╝");
}

#[test]
fn separator_stops_where_the_widths_stop() {
    let style = TableStyle::simple();
    let row = cells(&[("a", 1), ("b", 1), ("c", 1)]);
    assert_eq!(row.get_separator(&vec![3, 3], &style, RowPosition::First, None), "+---+---+");
}

#[test]
fn merge_shows_the_boundary_below_a_spanning_cell() {
    let style = TableStyle::extended();
    let widths = vec![4, 6];
    let above = cells(&[("wide", 2)]);
    let below = cells(&[("a", 1), ("b", 1)]);
    let first = above.get_separator(&widths, &style, RowPosition::First, None);
    assert_eq!(first, "╔═══════════╗");
    let between = below.get_separator(&widths, &style, RowPosition::Mid, Some(first));
    assert_eq!(between, "╠════╬══════╣");
    assert_eq!(between.chars().nth(5), Some(style.intersection));
}

#[test]
fn merge_shows_the_boundary_above_a_spanning_cell() {
    let style = TableStyle::extended();
    let widths = vec![4, 6];
    let above = cells(&[("a", 1), ("b", 1)]);
    let below = cells(&[("wide", 2)]);
    let first = above.get_separator(&widths, &style, RowPosition::First, None);
    assert_eq!(first, "╔════╦══════╗");
    let between = below.get_separator(&widths, &style, RowPosition::Mid, Some(first));
    assert_eq!(between, "╠════╩══════╣");
}

#[test]
fn merge_forgets_a_boundary_two_rows_up() {
    let style = TableStyle::extended();
    let widths = vec![4, 6];
    let split = cells(&[("a", 1), ("b", 1)]);
    let wide = cells(&[("wide", 2)]);
    let first = split.get_separator(&widths, &style, RowPosition::First, None);
    let second = wide.get_separator(&widths, &style, RowPosition::Mid, Some(first));
    let third = wide.get_separator(&widths, &style, RowPosition::Mid, Some(second));
    assert_eq!(third, "╠═══════════╣");
    let fourth = split.get_separator(&widths, &style, RowPosition::Mid, Some(third));
    assert_eq!(fourth, "╠════╬══════╣");
}

#[test]
fn merge_of_two_split_rows_is_the_full_intersection() {
    let style = TableStyle::extended();
    let widths = vec![2, 2];
    let row = cells(&[("a", 1), ("b", 1)]);
    let first = row.get_separator(&widths, &style, RowPosition::First, None);
    let second = row.get_separator(&widths, &style, RowPosition::Mid, Some(first));
    assert_eq!(second, "╠══╬══╣");
    let third = row.get_separator(&widths, &style, RowPosition::Mid, Some(second));
    assert_eq!(third, "╠══╬══╣");
}

#[test]
fn merge_keeps_the_ends_of_the_current_line() {
    let style = TableStyle::extended();
    let row = cells(&[("a", 1)]);
    let previous = String::from("╔══╗");
    assert_eq!(
        row.get_separator(&vec![2], &style, RowPosition::First, Some(previous.clone())),
        "╔══╗"
    );
    assert_eq!(
        row.get_separator(&vec![2], &style, RowPosition::Last, Some(previous)),
        "╚══╝"
    );
}

#[test]
fn merge_is_as_long_as_the_shorter_line() {
    let style = TableStyle::simple();
    let row = cells(&[("a", 1), ("b", 1)]);
    let widths = vec![2, 2];
    assert_eq!(
        row.get_separator(&widths, &style, RowPosition::Mid, Some(String::from("+--"))),
        "+--"
    );
    assert_eq!(
        row.get_separator(&widths, &style, RowPosition::Mid, Some(String::new())),
        ""
    );
    assert_eq!(
        row.get_separator(&widths, &style, RowPosition::Mid, Some(String::from("+--+--+--+"))),
        "+--+--+"
    );
}

#[test]
fn merge_separators_works_on_glyphs() {
    let style = TableStyle::extended();
    let current: Vec<char> = "╠══╬══╣".chars().collect();
    let above: Vec<char> = "╔═════╗".chars().collect();
    let merged: String = merge_separators(&style, &current, &above, RowPosition::Mid)
        .into_iter()
        .collect();
    assert_eq!(merged, "╠══╬══╣");
}

#[test]
fn separator_glyphs_is_the_unmerged_line() {
    let style = TableStyle::simple();
    let row = cells(&[("a", 1), ("b", 1)]);
    let line: String = row
        .separator_glyphs(&vec![1, 2], &style, RowPosition::Mid)
        .into_iter()
        .collect();
    assert_eq!(line, "+-+--+");
}
