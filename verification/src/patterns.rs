//! Named patterns, and the text a pattern argument stands for.

use crate::text::{chars_of, push_chars, str_eq};
use vstd::prelude::*;

verus! {

/// The pattern that the name `kind` stands for, if it is one of the known
/// names.
pub open spec fn smart_pattern_text(kind: Seq<char>) -> Option<Seq<char>> {
    if kind == "email"@ {
        Some(r"[a-zA-Z0-9._%+-]+@[a-zA-Z0-9.-]+\.[a-zA-Z]{2,}"@)
    } else if kind == "ipv4"@ {
        Some(r"\b(?:\d{1,3}\.){3}\d{1,3}\b"@)
    } else if kind == "url"@ {
        Some(r#"https?://[^\s"']+"#@)
    } else if kind == "jwt"@ {
        Some(r"[A-Za-z0-9-_]+\.[A-Za-z0-9-_]+\.[A-Za-z0-9-_]+"@)
    } else if kind == "token"@ {
        Some(r"(?:ghp|gho|github_pat|ya29)\w{20,}"@)
    } else if kind == "uuid"@ {
        Some(r"[0-9a-fA-F]{8}-[0-9a-fA-F]{4}-[0-9a-fA-F]{4}-[0-9a-fA-F]{4}-[0-9a-fA-F]{12}"@)
    } else if kind == "creditcard"@ {
        Some(r"\b(?:\d[ -]*?){13,16}\b"@)
    } else if kind == "hex"@ {
        Some(r"\b[A-Fa-f0-9]{8,}\b"@)
    } else {
        None
    }
}

/// Whether `found` holds the text `expected`, or both are absent.
pub open spec fn holds_text(found: Option<String>, expected: Option<Seq<char>>) -> bool {
    match found {
        Some(s) => expected == Some(s@),
        None => expected is None,
    }
}

/// Looks `kind` up among the named patterns.
pub fn smart_pattern(kind: &str) -> (found: Option<String>)
    ensures
        holds_text(found, smart_pattern_text(kind@)),
{
    if str_eq(kind, "email") {
        Some(r"[a-zA-Z0-9._%+-]+@[a-zA-Z0-9.-]+\.[a-zA-Z]{2,}".to_owned())
    } else if str_eq(kind, "ipv4") {
        Some(r"\b(?:\d{1,3}\.){3}\d{1,3}\b".to_owned())
    } else if str_eq(kind, "url") {
        Some(r#"https?://[^\s"']+"#.to_owned())
    } else if str_eq(kind, "jwt") {
        Some(r"[A-Za-z0-9-_]+\.[A-Za-z0-9-_]+\.[A-Za-z0-9-_]+".to_owned())
    } else if str_eq(kind, "token") {
        Some(r"(?:ghp|gho|github_pat|ya29)\w{20,}".to_owned())
    } else if str_eq(kind, "uuid") {
        let text = r"[0-9a-fA-F]{8}-[0-9a-fA-F]{4}-[0-9a-fA-F]{4}-[0-9a-fA-F]{4}-[0-9a-fA-F]{12}";
        Some(text.to_owned())
    } else if str_eq(kind, "creditcard") {
        Some(r"\b(?:\d[ -]*?){13,16}\b".to_owned())
    } else if str_eq(kind, "hex") {
        Some(r"\b[A-Fa-f0-9]{8,}\b".to_owned())
    } else {
        None
    }
}

/// The marker that makes a pattern argument name a pattern instead of
/// spelling one out.
pub open spec fn smart_prefix() -> Seq<char> {
    seq!['s', 'm', 'a', 'r', 't', ':']
}

/// The pattern text that the argument `pattern` stands for: the named
/// pattern if the argument is the marker followed by a name, and the argument
/// itself otherwise. An unknown name stands for nothing.
pub open spec fn resolved_text(pattern: Seq<char>) -> Option<Seq<char>> {
    if smart_prefix().is_prefix_of(pattern) {
        smart_pattern_text(pattern.skip(smart_prefix().len() as int))
    } else {
        Some(pattern)
    }
}

/// Resolves a pattern argument to the pattern text to search for.
pub fn resolve_pattern(pattern: &str) -> (found: Option<String>)
    ensures
        holds_text(found, resolved_text(pattern@)),
{
    let chars = chars_of(pattern);
    let marked = chars.len() >= 6 && chars[0] == 's' && chars[1] == 'm' && chars[2] == 'a'
        && chars[3] == 'r' && chars[4] == 't' && chars[5] == ':';
    if marked {
        let mut name = String::new();
        push_chars(&mut name, &chars, 6, chars.len());
        smart_pattern(name.as_str())
    } else {
        Some(pattern.to_owned())
    }
}

} // verus!
