use managed_alias::table::{RowPosition, TableStyle};

#[test]
fn simple_style_is_plain_ascii() {
    let style = TableStyle::simple();
    assert_eq!(style.top_left_corner, '+');
    assert_eq!(style.top_right_corner, '+');
    assert_eq!(style.bottom_left_corner, '+');
    assert_eq!(style.bottom_right_corner, '+');
    assert_eq!(style.outer_left_vertical, '+');
    assert_eq!(style.outer_right_vertical, '+');
    assert_eq!(style.outer_bottom_horizontal, '+');
    assert_eq!(style.outer_top_horizontal, '+');
    assert_eq!(style.intersection, '+');
    assert_eq!(style.vertical, '|');
    assert_eq!(style.horizontal, '-');
}

#[test]
fn extended_style_has_a_glyph_of_its_own_for_every_junction() {
    let style = TableStyle::extended();
    assert_eq!(style.top_left_corner, '╔');
    assert_eq!(style.top_right_corner, '╗');
    assert_eq!(style.bottom_left_corner, '╚');
    assert_eq!(style.bottom_right_corner, '╝');
    assert_eq!(style.outer_left_vertical, '╠');
    assert_eq!(style.outer_right_vertical, '╣');
    assert_eq!(style.outer_bottom_horizontal, '╩');
    assert_eq!(style.outer_top_horizontal, '╦');
    assert_eq!(style.intersection, '╬');
    assert_eq!(style.vertical, '║');
    assert_eq!(style.horizontal, '═');
}

#[test]
fn start_glyph_by_position() {
    let style = TableStyle::extended();
    assert_eq!(style.start_for_position(RowPosition::First), '╔');
    assert_eq!(style.start_for_position(RowPosition::Mid), '╠');
    assert_eq!(style.start_for_position(RowPosition::Last), '╚');
}

#[test]
fn end_glyph_by_position() {
    let style = TableStyle::extended();
    assert_eq!(style.end_for_position(RowPosition::First), '╗');
    assert_eq!(style.end_for_position(RowPosition::Mid), '╣');
    assert_eq!(style.end_for_position(RowPosition::Last), '╝');
}

#[test]
fn intersection_glyph_by_position() {
    let style = TableStyle::extended();
    assert_eq!(style.intersect_for_position(RowPosition::First), '╦');
    assert_eq!(style.intersect_for_position(RowPosition::Mid), '╬');
    assert_eq!(style.intersect_for_position(RowPosition::Last), '╩');
}

#[test]
fn merge_draws_the_full_intersection_for_a_boundary_below_a_plain_line() {
    let style = TableStyle::extended();
    assert_eq!(style.merge_intersection_for_position('═', '╬', RowPosition::Mid), '╬');
    assert_eq!(style.merge_intersection_for_position('╩', '╬', RowPosition::Mid), '╬');
    assert_eq!(style.merge_intersection_for_position('═', '╬', RowPosition::First), '╬');
}

#[test]
fn merge_opens_upwards_for_a_boundary_that_only_the_row_above_has() {
    let style = TableStyle::extended();
    assert_eq!(style.merge_intersection_for_position('╬', '═', RowPosition::Mid), '╩');
    assert_eq!(style.merge_intersection_for_position('╦', '═', RowPosition::Mid), '╩');
}

#[test]
fn merge_closes_a_junction_that_opened_upwards() {
    let style = TableStyle::extended();
    assert_eq!(style.merge_intersection_for_position('╩', '═', RowPosition::Mid), '═');
}

#[test]
fn merge_falls_back_to_the_junction_of_the_position() {
    let style = TableStyle::extended();
    assert_eq!(style.merge_intersection_for_position('╬', '╬', RowPosition::Mid), '╬');
    assert_eq!(style.merge_intersection_for_position('╦', '╬', RowPosition::Mid), '╬');
    assert_eq!(style.merge_intersection_for_position('═', '╦', RowPosition::First), '╦');
    assert_eq!(style.merge_intersection_for_position('x', 'y', RowPosition::Last), '╩');
    assert_eq!(style.merge_intersection_for_position('═', '═', RowPosition::Mid), '╬');
}

#[test]
fn merge_in_simple_style_is_always_a_plus() {
    let style = TableStyle::simple();
    assert_eq!(style.merge_intersection_for_position('-', '+', RowPosition::Mid), '+');
    assert_eq!(style.merge_intersection_for_position('+', '-', RowPosition::Mid), '+');
    assert_eq!(style.merge_intersection_for_position('+', '+', RowPosition::Mid), '+');
}
