//! The compiled pattern and the searches it supports.
//!
//! The pattern language and the search itself belong to the `regex` crate.
//! This module states what the rest of the library relies on: that a search
//! is a function of the compiled expression and the line, that an expression
//! which `Regex::new` makes of a pattern text searches as that text alone
//! says, and that the span a search reports can be cut out of the line.

use crate::types::{SearchError, SearchErrorView};
use regex::Regex;
use vstd::prelude::*;
use vstd::string::StringSliceAdditionalSpecFns;
use vstd::utf8::{decode_utf8, encode_utf8, is_char_boundary, pop_first_scalar, valid_utf8};

verus! {

/// `regex::Regex`, a compiled expression. Nothing inside it is visible here.
#[verifier::external_type_specification]
#[verifier::external_body]
pub struct ExRegex(regex::Regex);

/// `regex::Error`, the reason why an expression was not compiled. Nothing
/// inside it is visible here.
#[verifier::external_type_specification]
#[verifier::external_body]
pub struct ExRegexError(regex::Error);

/// The pattern text a compiled expression was built from: what
/// `Regex::as_str` returns.
pub uninterp spec fn regex_source(re: Regex) -> Seq<char>;

/// Whether `Regex::new` accepts `pattern`.
pub uninterp spec fn regex_accepts(pattern: Seq<char>) -> bool;

/// The complaint with which `Regex::new` rejects `pattern`, where it does.
pub uninterp spec fn regex_complaint(pattern: Seq<char>) -> Seq<char>;

/// The byte offsets at which the leftmost match of `pattern` in `line`
/// starts and ends, if there is one, as an expression that `Regex::new` made
/// of `pattern` finds it.
pub uninterp spec fn regex_span(pattern: Seq<char>, line: Seq<char>) -> Option<(usize, usize)>;

/// The byte offsets of the leftmost match of the expression `re` in `line`,
/// if there is one: what `Regex::find` returns. It depends on how the
/// expression was built, not on its pattern text alone.
pub uninterp spec fn engine_span(re: Regex, line: Seq<char>) -> Option<(usize, usize)>;

/// The text that the `Display` impl of `regex::Error` renders for `e`.
pub uninterp spec fn error_text(e: regex::Error) -> Seq<char>;

/// Whether the expression `re` searches as one that `Regex::new` makes of
/// its pattern text does.
pub open spec fn plainly_built(re: Regex) -> bool {
    forall|line: Seq<char>| #[trigger]
        engine_span(re, line) == regex_span(regex_source(re), line)
}

/// Whether `span` lies within the encoding of `line` and both of its ends
/// fall between characters.
pub open spec fn span_fits(line: Seq<char>, span: (usize, usize)) -> bool {
    let bytes = encode_utf8(line);
    &&& span.0 <= span.1 <= bytes.len()
    &&& is_char_boundary(bytes, span.0 as int)
    &&& is_char_boundary(bytes, span.1 as int)
}

/// The characters of `line` that `span` covers.
pub open spec fn span_text(line: Seq<char>, span: (usize, usize)) -> Seq<char> {
    decode_utf8(encode_utf8(line).subrange(span.0 as int, span.1 as int))
}

/// The span of the leftmost match of `pattern` in `line`, if the line has a
/// match. A span that could not be cut out of the line counts as none; the
/// engine reports no such span.
pub open spec fn first_match(pattern: Seq<char>, line: Seq<char>) -> Option<(usize, usize)> {
    match regex_span(pattern, line) {
        Some(span) => if span_fits(line, span) {
            Some(span)
        } else {
            None
        },
        None => None,
    }
}

/// Calls `Regex::new`. Trusted: the call succeeds exactly on the patterns
/// that [`regex_accepts`] names. The expression it returns remembers the text
/// it was given and searches as [`regex_span`] says of that text, since it is
/// built with the default settings. The error it returns renders as
/// [`regex_complaint`] says of the text.
#[verifier::external_body]
fn regex_new(pattern: &str) -> (r: Result<Regex, regex::Error>)
    ensures
        r is Ok <==> regex_accepts(pattern@),
        r matches Ok(re) ==> regex_source(re) == pattern@,
        r matches Ok(re) ==> (forall|line: Seq<char>| #[trigger]
            engine_span(re, line) == regex_span(pattern@, line)),
        r matches Err(e) ==> error_text(e) == regex_complaint(pattern@),
{
    Regex::new(pattern)
}

/// Calls `Regex::as_str`. Trusted: the result is the text the expression was
/// compiled from.
#[verifier::external_body]
fn regex_as_str(re: &Regex) -> (r: &str)
    ensures
        r@ == regex_source(*re),
{
    re.as_str()
}

/// Calls `Regex::find` and hands back the byte offsets of the match.
/// Trusted: the outcome depends on the expression and the line alone, and a
/// reported span starts no later than it ends, ends within the line, and has
/// both ends on character boundaries.
#[verifier::external_body]
fn regex_find(re: &Regex, line: &str) -> (r: Option<(usize, usize)>)
    ensures
        r == engine_span(*re, line@),
        r matches Some(span) ==> span_fits(line@, span),
{
    match re.find(line) {
        Some(m) => Some((m.start(), m.end())),
        None => None,
    }
}

/// Renders an error of the engine with its `Display` impl. Trusted: the
/// text depends on the error alone.
#[verifier::external_body]
fn regex_error_text(e: &regex::Error) -> (r: String)
    ensures
        r@ == error_text(*e),
{
    e.to_string()
}

/// A character boundary of `bytes` that lies at or after another one is a
/// boundary of what follows that one.
pub proof fn lemma_boundary_after(bytes: Seq<u8>, a: int, b: int)
    requires
        valid_utf8(bytes),
        is_char_boundary(bytes, a),
        is_char_boundary(bytes, b),
        0 <= a <= b <= bytes.len(),
    ensures
        valid_utf8(bytes.subrange(a, bytes.len() as int)),
        is_char_boundary(bytes.subrange(a, bytes.len() as int), b - a),
    decreases a,
{
    vstd::utf8::valid_utf8_split(bytes, a);
    if a == 0 {
        assert(bytes.subrange(0, bytes.len() as int) =~= bytes);
    } else {
        reveal_with_fuel(is_char_boundary, 2);
        let width = vstd::utf8::length_of_first_scalar(bytes);
        let tail = pop_first_scalar(bytes);
        assert(tail.subrange(a - width, tail.len() as int) =~= bytes.subrange(
            a,
            bytes.len() as int,
        ));
        lemma_boundary_after(tail, a - width, b - width);
    }
}

/// The text a fitting span covers is a run of consecutive characters of the
/// line.
pub proof fn lemma_span_text_within(line: Seq<char>, span: (usize, usize))
    requires
        span_fits(line, span),
    ensures
        exists|i: int, j: int|
            0 <= i <= j <= line.len() && #[trigger] line.subrange(i, j) == span_text(line, span),
{
    broadcast use vstd::utf8::encode_utf8_valid_utf8, vstd::utf8::encode_utf8_decode_utf8;

    let bytes = encode_utf8(line);
    let a = span.0 as int;
    let b = span.1 as int;
    let tail = bytes.subrange(a, bytes.len() as int);
    lemma_boundary_after(bytes, a, b);
    vstd::utf8::decode_utf8_split(bytes, a);
    vstd::utf8::decode_utf8_split(tail, b - a);
    assert(tail.subrange(0, b - a) =~= bytes.subrange(a, b));
    let before = decode_utf8(bytes.subrange(0, a));
    let inside = decode_utf8(bytes.subrange(a, b));
    let i = before.len() as int;
    let j = i + inside.len();
    assert(line.subrange(i, j) =~= inside);
}

/// On a line of ASCII characters byte offsets are character positions:
/// every span within the line fits, and covers the characters between its
/// ends.
pub proof fn lemma_span_in_ascii(line: Seq<char>, span: (usize, usize))
    requires
        vstd::utf8::is_ascii_chars(line),
        span.0 <= span.1 <= line.len(),
    ensures
        span_fits(line, span),
        span_text(line, span) == line.subrange(span.0 as int, span.1 as int),
{
    broadcast use vstd::utf8::encode_utf8_valid_utf8, vstd::utf8::encode_utf8_decode_utf8;

    let bytes = encode_utf8(line);
    let part = line.subrange(span.0 as int, span.1 as int);
    vstd::utf8::is_ascii_chars_encode_utf8(line);
    vstd::utf8::is_ascii_chars_encode_utf8(part);
    assert(encode_utf8(part) =~= bytes.subrange(span.0 as int, span.1 as int));
    vstd::utf8::is_char_boundary_start_end_of_seq(bytes);
    lemma_ascii_boundary(line, span.0 as int);
    lemma_ascii_boundary(line, span.1 as int);
}

/// On a line of ASCII characters every position is a character boundary.
proof fn lemma_ascii_boundary(line: Seq<char>, at: int)
    requires
        vstd::utf8::is_ascii_chars(line),
        0 <= at <= line.len(),
    ensures
        is_char_boundary(encode_utf8(line), at),
{
    broadcast use vstd::utf8::encode_utf8_valid_utf8;

    let bytes = encode_utf8(line);
    vstd::utf8::is_ascii_chars_encode_utf8(line);
    vstd::utf8::is_char_boundary_start_end_of_seq(bytes);
    if at < line.len() {
        let b = bytes[at];
        assert(!vstd::utf8::is_continuation_byte(b)) by (bit_vector)
            requires
                b < 128,
        ;
        vstd::utf8::is_char_boundary_iff_not_is_continuation_byte(bytes, at);
    }
}

/// Whether `span` can be cut out of `line`.
pub fn fits(line: &str, span: (usize, usize)) -> (ok: bool)
    ensures
        ok == span_fits(line@, span),
{
    broadcast use vstd::utf8::encode_utf8_valid_utf8;

    span.0 <= span.1 && span.1 <= line.as_bytes().len() && line.is_char_boundary(span.0)
        && line.is_char_boundary(span.1)
}

/// The part of `line` that the span covers.
pub fn span_str<'a>(line: &'a str, span: (usize, usize)) -> (part: &'a str)
    requires
        span_fits(line@, span),
    ensures
        part@ == span_text(line@, span),
{
    broadcast use vstd::utf8::encode_utf8_valid_utf8, vstd::utf8::encode_utf8_decode_utf8;

    proof {
        lemma_boundary_after(line.spec_bytes(), span.0 as int, span.1 as int);
    }
    let (_, tail) = line.split_at(span.0);
    let (part, _) = tail.split_at(span.1 - span.0);
    proof {
        assert(part.spec_bytes() =~= line.spec_bytes().subrange(span.0 as int, span.1 as int));
    }
    part
}

/// A compiled pattern. It is read-only once built, so one matcher can serve
/// any number of searches.
pub struct Matcher {
    engine: Regex,
}

impl View for Matcher {
    type V = Seq<char>;

    /// The pattern text the matcher was compiled from.
    closed spec fn view(&self) -> Seq<char> {
        regex_source(self.engine)
    }
}

impl Matcher {
    /// A matcher searches as its pattern text says, and as nothing else.
    #[verifier::type_invariant]
    spec fn searches_by_text(&self) -> bool {
        plainly_built(self.engine)
    }

    /// Compiles `pattern`. Fails exactly when the engine rejects the text,
    /// and then reports the text unchanged, with the engine's complaint.
    pub fn compile(pattern: &str) -> (r: Result<Matcher, SearchError>)
        ensures
            match r {
                Ok(m) => regex_accepts(pattern@) && m@ == pattern@,
                Err(e) => !regex_accepts(pattern@) && e@ == (SearchErrorView::Compile {
                    pattern: pattern@,
                    message: regex_complaint(pattern@),
                }),
            },
    {
        Matcher::from_engine(pattern, regex_new(pattern))
    }

    /// Turns what the engine made of `pattern` into a matcher or into the
    /// failure to report: a compiled expression becomes a matcher for the
    /// text it was compiled from, a rejection is reported with `pattern` and
    /// the text of the error. The expression must be one that searches as its
    /// pattern text says: one built with settings of its own does not.
    pub fn from_engine(pattern: &str, outcome: Result<Regex, regex::Error>) -> (r: Result<
        Matcher,
        SearchError,
    >)
        requires
            outcome matches Ok(engine) ==> plainly_built(engine),
        ensures
            match outcome {
                Ok(engine) => r matches Ok(m) && m@ == regex_source(engine),
                Err(error) => r matches Err(e) && e@ == (SearchErrorView::Compile {
                    pattern: pattern@,
                    message: error_text(error),
                }),
            },
    {
        match outcome {
            Ok(engine) => Ok(Matcher { engine }),
            Err(e) => Err(
                SearchError::Compile { pattern: pattern.to_owned(), message: regex_error_text(&e) },
            ),
        }
    }

    /// The pattern text this matcher searches for.
    pub fn pattern(&self) -> (text: &str)
        ensures
            text@ == self@,
    {
        regex_as_str(&self.engine)
    }

    /// The byte span of the leftmost match in `line`, if any.
    pub fn find_first(&self, line: &str) -> (r: Option<(usize, usize)>)
        ensures
            r == regex_span(self@, line@),
            r == first_match(self@, line@),
    {
        proof {
            use_type_invariant(self);
            assert(engine_span(self.engine, line@) == regex_span(regex_source(self.engine), line@));
        }
        regex_find(&self.engine, line)
    }

    /// Whether `line` contains a match.
    pub fn is_match(&self, line: &str) -> (b: bool)
        ensures
            b == first_match(self@, line@) is Some,
    {
        self.find_first(line).is_some()
    }
}

} // verus!
