use fastgrep::lines::split_lines;

fn lines(text: &str) -> Vec<String> {
    split_lines(text)
}

#[test]
fn empty_text_has_no_lines() {
    assert!(lines("").is_empty());
}

#[test]
fn text_without_line_feed_is_one_line() {
    assert_eq!(lines("alpha"), vec!["alpha"]);
}

#[test]
fn final_line_feed_adds_no_line() {
    assert_eq!(lines("alpha\n"), vec!["alpha"]);
    assert_eq!(lines("alpha\nbeta\n"), vec!["alpha", "beta"]);
    assert_eq!(lines("alpha\nbeta"), vec!["alpha", "beta"]);
}

#[test]
fn lone_line_feed_is_one_empty_line() {
    assert_eq!(lines("\n"), vec![""]);
    assert_eq!(lines("\n\n"), vec!["", ""]);
}

#[test]
fn empty_lines_are_kept() {
    assert_eq!(lines("a\n\nb"), vec!["a", "", "b"]);
}

#[test]
fn carriage_return_before_line_feed_is_dropped() {
    assert_eq!(lines("a\r\nb\r\n"), vec!["a", "b"]);
    assert_eq!(lines("\r\n"), vec![""]);
}

#[test]
fn only_one_carriage_return_is_dropped() {
    assert_eq!(lines("a\r\r\nb"), vec!["a\r", "b"]);
}

#[test]
fn carriage_return_elsewhere_is_kept() {
    assert_eq!(lines("a\rb\nc"), vec!["a\rb", "c"]);
    assert_eq!(lines("a\r"), vec!["a\r"]);
    assert_eq!(lines("\r"), vec!["\r"]);
}

#[test]
fn mixed_endings() {
    assert_eq!(lines("foo\nbar\n\r\nbaz\r"), vec!["foo", "bar", "", "baz\r"]);
}

#[test]
fn agrees_with_the_standard_library() {
    let samples = [
        "",
        "\n",
        "\r",
        "\r\n",
        "\n\r",
        "a",
        "a\n",
        "a\r\n",
        "a\n\r",
        "a\r\rb\r\n\r\n",
        "one\ntwo\r\nthree\rfour\n\nfive",
        "ünï\r\ncödé\n→\r",
    ];
    for text in samples {
        let expected: Vec<String> = text.lines().map(|l| l.to_string()).collect();
        assert_eq!(lines(text), expected, "for {:?}", text);
    }
}

#[test]
fn line_numbers_count_from_one() {
    let all = lines("x\ny\nz");
    assert_eq!(all.len(), 3);
    assert_eq!(all[0], "x");
    assert_eq!(all[2], "z");
}
