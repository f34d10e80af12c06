use fastgrep::matcher::Matcher;
use fastgrep::patterns::{resolve_pattern, smart_pattern};

#[test]
fn known_names() {
    assert_eq!(
        smart_pattern("email").unwrap(),
        r"[a-zA-Z0-9._%+-]+@[a-zA-Z0-9.-]+\.[a-zA-Z]{2,}"
    );
    assert_eq!(smart_pattern("ipv4").unwrap(), r"\b(?:\d{1,3}\.){3}\d{1,3}\b");
    assert_eq!(smart_pattern("url").unwrap(), r#"https?://[^\s"']+"#);
    assert_eq!(
        smart_pattern("jwt").unwrap(),
        r"[A-Za-z0-9-_]+\.[A-Za-z0-9-_]+\.[A-Za-z0-9-_]+"
    );
    assert_eq!(smart_pattern("token").unwrap(), r"(?:ghp|gho|github_pat|ya29)\w{20,}");
    assert_eq!(
        smart_pattern("uuid").unwrap(),
        r"[0-9a-fA-F]{8}-[0-9a-fA-F]{4}-[0-9a-fA-F]{4}-[0-9a-fA-F]{4}-[0-9a-fA-F]{12}"
    );
    assert_eq!(smart_pattern("creditcard").unwrap(), r"\b(?:\d[ -]*?){13,16}\b");
    assert_eq!(smart_pattern("hex").unwrap(), r"\b[A-Fa-f0-9]{8,}\b");
}

#[test]
fn unknown_names() {
    assert_eq!(smart_pattern(""), None);
    assert_eq!(smart_pattern("Email"), None);
    assert_eq!(smart_pattern("email "), None);
    assert_eq!(smart_pattern("phone"), None);
}

#[test]
fn every_named_pattern_is_accepted() {
    for name in ["email", "ipv4", "url", "jwt", "token", "uuid", "creditcard", "hex"] {
        let text = smart_pattern(name).unwrap();
        assert!(Matcher::compile(&text).is_ok(), "{} does not compile", name);
    }
}

#[test]
fn named_patterns_find_what_they_name() {
    let cases = [
        ("ipv4", "host 192.168.0.1 up", "192.168.0.1"),
        ("url", "see https://example.org/x?y=1 now", "https://example.org/x?y=1"),
        (
            "uuid",
            "id=123e4567-e89b-12d3-a456-426614174000;",
            "123e4567-e89b-12d3-a456-426614174000",
        ),
        ("hex", "key deadbeef01 end", "deadbeef01"),
    ];
    for (name, line, expected) in cases {
        let m = Matcher::compile(&smart_pattern(name).unwrap()).unwrap();
        let span = m.find_first(line).unwrap();
        assert_eq!(&line[span.0..span.1], expected);
    }
}

#[test]
fn plain_argument_stands_for_itself() {
    assert_eq!(resolve_pattern(r"\d+").unwrap(), r"\d+");
    assert_eq!(resolve_pattern("").unwrap(), "");
    assert_eq!(resolve_pattern("smart").unwrap(), "smart");
    assert_eq!(resolve_pattern("Smart:email").unwrap(), "Smart:email");
    assert_eq!(resolve_pattern(" smart:email").unwrap(), " smart:email");
}

#[test]
fn marked_argument_stands_for_the_named_pattern() {
    assert_eq!(resolve_pattern("smart:hex"), smart_pattern("hex"));
    assert_eq!(resolve_pattern("smart:email"), smart_pattern("email"));
}

#[test]
fn marked_argument_with_unknown_name_stands_for_nothing() {
    assert_eq!(resolve_pattern("smart:"), None);
    assert_eq!(resolve_pattern("smart:phone"), None);
    assert_eq!(resolve_pattern("smart:smart:email"), None);
}
