use fastgrep::order::{entry_le, sort_matches, sorted_order, SortKey};
use fastgrep::types::MatchEntry;

fn entry(file: &str, line: usize, text: &str) -> MatchEntry {
    MatchEntry::new(file, line, text)
}

fn sample() -> Vec<MatchEntry> {
    vec![
        entry("b.txt", 10, "pear"),
        entry("a.txt", 7, "apple"),
        entry("b.txt", 2, "fig"),
        entry("a.txt", 7, "zebra"),
        entry("c.txt", 1, "apple"),
        entry("a.txt", 30, "fig"),
    ]
}

#[test]
fn sort_by_file_is_stable() {
    assert_eq!(
        sort_matches(&sample(), SortKey::File),
        vec![
            entry("a.txt", 7, "apple"),
            entry("a.txt", 7, "zebra"),
            entry("a.txt", 30, "fig"),
            entry("b.txt", 10, "pear"),
            entry("b.txt", 2, "fig"),
            entry("c.txt", 1, "apple"),
        ]
    );
}

#[test]
fn sort_by_line_is_numeric() {
    assert_eq!(
        sort_matches(&sample(), SortKey::Line),
        vec![
            entry("c.txt", 1, "apple"),
            entry("b.txt", 2, "fig"),
            entry("a.txt", 7, "apple"),
            entry("a.txt", 7, "zebra"),
            entry("b.txt", 10, "pear"),
            entry("a.txt", 30, "fig"),
        ]
    );
}

#[test]
fn sort_by_matched_text() {
    assert_eq!(
        sort_matches(&sample(), SortKey::Match),
        vec![
            entry("a.txt", 7, "apple"),
            entry("c.txt", 1, "apple"),
            entry("b.txt", 2, "fig"),
            entry("a.txt", 30, "fig"),
            entry("b.txt", 10, "pear"),
            entry("a.txt", 7, "zebra"),
        ]
    );
}

#[test]
fn sorted_order_lists_the_indices() {
    assert_eq!(sorted_order(&sample(), SortKey::Line), vec![4, 2, 1, 3, 0, 5]);
    assert_eq!(sorted_order(&Vec::new(), SortKey::File), Vec::<usize>::new());
    assert_eq!(sorted_order(&vec![entry("a", 1, "")], SortKey::Match), vec![0]);
}

#[test]
fn sort_agrees_with_the_standard_stable_sort() {
    let mut entries = Vec::new();
    let mut seed: u64 = 12345;
    for _ in 0..500 {
        seed = seed.wrapping_mul(6364136223846793005).wrapping_add(1442695040888963407);
        let file = format!("f{}", (seed >> 33) % 7);
        let line = ((seed >> 20) % 13) as usize + 1;
        let text = format!("t{}é", (seed >> 45) % 5);
        entries.push(entry(&file, line, &text));
    }
    let mut by_file = entries.clone();
    by_file.sort_by(|a, b| a.file.cmp(&b.file));
    assert_eq!(sort_matches(&entries, SortKey::File), by_file);
    let mut by_line = entries.clone();
    by_line.sort_by(|a, b| a.line.cmp(&b.line));
    assert_eq!(sort_matches(&entries, SortKey::Line), by_line);
    let mut by_match = entries.clone();
    by_match.sort_by(|a, b| a.matched_text.cmp(&b.matched_text));
    assert_eq!(sort_matches(&entries, SortKey::Match), by_match);
}

#[test]
fn text_order_is_the_order_of_strings() {
    let words = ["", "a", "ab", "b", "B", "é", "z", "ab\u{0}", "→", "a→"];
    for x in words {
        for y in words {
            let a = entry(x, 1, y);
            let b = entry(y, 1, x);
            assert_eq!(entry_le(SortKey::File, &a, &b), x <= y, "for {:?}", (x, y));
            assert_eq!(entry_le(SortKey::Match, &a, &b), y <= x, "for {:?}", (y, x));
        }
    }
}

#[test]
fn line_order_is_the_order_of_numbers() {
    let a = entry("z", 9, "z");
    let b = entry("a", 10, "a");
    assert!(entry_le(SortKey::Line, &a, &b));
    assert!(!entry_le(SortKey::Line, &b, &a));
    assert!(entry_le(SortKey::Line, &a, &a));
}

#[test]
fn sorting_keeps_every_entry() {
    let entries = sample();
    for key in [SortKey::File, SortKey::Line, SortKey::Match] {
        let sorted = sort_matches(&entries, key);
        assert_eq!(sorted.len(), entries.len());
        for e in &entries {
            let before = entries.iter().filter(|x| *x == e).count();
            let after = sorted.iter().filter(|x| *x == e).count();
            assert_eq!(before, after);
        }
    }
}
