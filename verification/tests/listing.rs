use managed_alias::listing::section;
use managed_alias::table::TableStyle;

#[test]
fn section_has_a_heading_and_a_row_per_entry() {
    let entries = vec![
        (String::from("ll"), String::from("list files")),
        (String::from("gs"), String::from("git status")),
    ];
    let table = section("COMMANDS", &entries);
    assert_eq!(table.style, TableStyle::extended());
    assert_eq!(table.rows.len(), 3);
    assert_eq!(table.rows[0].cells.len(), 1);
    assert_eq!(table.rows[0].cells[0].data, "COMMANDS");
    assert_eq!(table.rows[0].cells[0].col_span, 2);
    assert_eq!(table.rows[2].cells.len(), 2);
    assert_eq!(table.rows[2].cells[0].data, "gs");
    assert_eq!(table.rows[2].cells[0].col_span, 1);
    assert_eq!(table.rows[2].cells[1].data, "git status");
    assert_eq!(table.rows[2].cells[1].col_span, 1);
}

#[test]
fn section_without_entries_is_the_heading_alone() {
    let table = section("PATHS", &Vec::new());
    assert_eq!(table.rows.len(), 1);
    assert_eq!(table.render(), "╔═══╗\n║ PATHS ║\n╚═══╝\n");
}

#[test]
fn section_renders_as_a_box() {
    let entries = vec![(String::from("proj"), String::from("/home/u/project"))];
    let expected = [
        "╔════════════════════════╗",
        "║ PATHS                  ║",
        "╠══════╬═════════════════╣",
        "║ proj ║ /home/u/project ║",
        "╚══════╩═════════════════╝",
        "",
    ]
    .join("\n");
    assert_eq!(section("PATHS", &entries).render(), expected);
}
