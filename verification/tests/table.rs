use fastgrep::table::{table_lines, table_row};
use fastgrep::types::{MatchEntry, Report};

const TOP: &str = "┌──────────────────────────────────────────────┬────────┬────────────────────────────────────────────┐";
const NAMES: &str = "│ FILE                                         │ LINE   │ MATCH                                      │";
const INNER: &str = "├──────────────────────────────────────────────┼────────┼────────────────────────────────────────────┤";
const BOTTOM: &str = "└──────────────────────────────────────────────┴────────┴────────────────────────────────────────────┘";

fn entry(file: &str, line: usize, text: &str) -> MatchEntry {
    MatchEntry::new(file, line, text)
}

#[test]
fn row_fills_the_file_and_aligns_the_line() {
    let e = entry("src/a.txt", 12, "hit");
    assert_eq!(
        table_row("src/a.txt", &e, false),
        format!("│ {:<44} │ {:>6} │ {} │", "src/a.txt", 12, "hit")
    );
    assert_eq!(
        table_row("src/a.txt", &e, false),
        "│ src/a.txt                                    │     12 │ hit │"
    );
}

#[test]
fn row_with_colors_wraps_the_match() {
    let e = entry("a", 7, "hit");
    assert_eq!(
        table_row("a", &e, true),
        format!("│ {:<44} │ {:>6} │ \u{1b}[33;1m{}\u{1b}[0m │", "a", 7, "hit")
    );
}

#[test]
fn wide_cells_are_not_cut() {
    let long = "d/".repeat(30);
    let e = entry(&long, 1234567, "m");
    assert_eq!(
        table_row(&long, &e, false),
        format!("│ {:<44} │ {:>6} │ {} │", long, 1234567, "m")
    );
    let exact = "x".repeat(44);
    let e = entry(&exact, 123456, "m");
    assert_eq!(table_row(&exact, &e, false), format!("│ {} │ 123456 │ m │", exact));
}

#[test]
fn width_counts_characters() {
    let e = entry("é→", 1, "ü");
    assert_eq!(
        table_row("é→", &e, false),
        format!("│ {:<44} │ {:>6} │ {} │", "é→", 1, "ü")
    );
}

#[test]
fn styled_file_cell_is_filled_as_it_stands() {
    let cell = "\u{1b}[32ma.txt\u{1b}[0m";
    let e = entry("a.txt", 3, "m");
    assert_eq!(
        table_row(cell, &e, true),
        format!("│ {:<44} │ {:>6} │ \u{1b}[33;1m{}\u{1b}[0m │", cell, 3, "m")
    );
}

#[test]
fn table_has_its_borders_and_one_row_per_match() {
    let report = Report::new("p", vec![entry("b", 2, "y"), entry("a", 1, "x")]);
    let cells = vec!["b".to_string(), "a".to_string()];
    let lines = table_lines("TITLE", &cells, &report, false);
    assert_eq!(
        lines,
        vec![
            "TITLE".to_string(),
            TOP.to_string(),
            NAMES.to_string(),
            INNER.to_string(),
            format!("│ {:<44} │ {:>6} │ {} │", "b", 2, "y"),
            format!("│ {:<44} │ {:>6} │ {} │", "a", 1, "x"),
            BOTTOM.to_string(),
        ]
    );
}

#[test]
fn table_of_an_empty_report() {
    let report = Report::new("p", Vec::new());
    let lines = table_lines("T", &Vec::new(), &report, true);
    assert_eq!(
        lines,
        vec![
            "T".to_string(),
            TOP.to_string(),
            NAMES.to_string(),
            INNER.to_string(),
            BOTTOM.to_string()
        ]
    );
}
