//! The lines of text that report a search: one per match as it is found,
//! and one at the end.

use crate::text::{chars_of, push_chars};
use vstd::prelude::*;

verus! {

/// The character of the decimal digit `d`.
pub open spec fn digit_char(d: nat) -> char {
    if d == 0 {
        '0'
    } else if d == 1 {
        '1'
    } else if d == 2 {
        '2'
    } else if d == 3 {
        '3'
    } else if d == 4 {
        '4'
    } else if d == 5 {
        '5'
    } else if d == 6 {
        '6'
    } else if d == 7 {
        '7'
    } else if d == 8 {
        '8'
    } else {
        '9'
    }
}

/// The decimal numeral of `n`, without leading zeros.
pub open spec fn decimal(n: nat) -> Seq<char>
    decreases n,
{
    if n < 10 {
        seq![digit_char(n)]
    } else {
        decimal(n / 10).push(digit_char(n % 10))
    }
}

fn digit(d: usize) -> (c: char)
    requires
        d < 10,
    ensures
        c == digit_char(d as nat),
{
    if d == 0 {
        '0'
    } else if d == 1 {
        '1'
    } else if d == 2 {
        '2'
    } else if d == 3 {
        '3'
    } else if d == 4 {
        '4'
    } else if d == 5 {
        '5'
    } else if d == 6 {
        '6'
    } else if d == 7 {
        '7'
    } else if d == 8 {
        '8'
    } else {
        '9'
    }
}

/// Appends the decimal numeral of `n` to `out`.
pub fn push_decimal(out: &mut String, n: usize)
    ensures
        final(out)@ == old(out)@ + decimal(n as nat),
    decreases n,
{
    if n >= 10 {
        push_decimal(out, n / 10);
    }
    out.push(digit(n % 10));
}

/// `s` with every occurrence of `from` replaced by `to`. Occurrences are
/// found from the left and do not overlap. An empty `from` occurs before
/// every character and at the end.
pub open spec fn replace_all(s: Seq<char>, from: Seq<char>, to: Seq<char>) -> Seq<char>
    decreases s.len(),
{
    if from.len() == 0 {
        if s.len() == 0 {
            to
        } else {
            to + seq![s[0]] + replace_all(s.drop_first(), from, to)
        }
    } else if from.is_prefix_of(s) {
        to + replace_all(s.skip(from.len() as int), from, to)
    } else if s.len() == 0 {
        s
    } else {
        seq![s[0]] + replace_all(s.drop_first(), from, to)
    }
}

/// Whether `from` occurs in `s` at index `at`.
fn occurs_at(s: &Vec<char>, at: usize, from: &Vec<char>) -> (found: bool)
    requires
        at <= s.len(),
    ensures
        found == from@.is_prefix_of(s@.skip(at as int)),
{
    if from.len() > s.len() - at {
        return false;
    }
    let mut k: usize = 0;
    while k < from.len()
        invariant
            k <= from.len() <= s.len() - at,
            forall|j: int| 0 <= j < k ==> s@[at + j] == from@[j],
        decreases from.len() - k,
    {
        if s[at + k] != from[k] {
            return false;
        }
        k += 1;
    }
    true
}

/// Replaces every occurrence of `from` in `s` by `to`.
pub fn replace_chars(s: &Vec<char>, from: &Vec<char>, to: &Vec<char>) -> (out: Vec<char>)
    ensures
        out@ == replace_all(s@, from@, to@),
{
    let mut out: Vec<char> = Vec::new();
    let mut i: usize = 0;
    proof {
        assert(s@.skip(0) =~= s@);
    }
    while i < s.len()
        invariant
            i <= s.len(),
            replace_all(s@, from@, to@) == out@ + replace_all(s@.skip(i as int), from@, to@),
        decreases s.len() - i,
    {
        let ghost rest = s@.skip(i as int);
        if from.len() == 0 {
            append_chars(&mut out, to);
            out.push(s[i]);
            proof {
                assert(rest.drop_first() =~= s@.skip(i + 1));
            }
            i += 1;
        } else if occurs_at(s, i, from) {
            append_chars(&mut out, to);
            proof {
                assert(rest.skip(from@.len() as int) =~= s@.skip(i + from@.len()));
            }
            i += from.len();
        } else {
            out.push(s[i]);
            proof {
                assert(rest.drop_first() =~= s@.skip(i + 1));
            }
            i += 1;
        }
    }
    if from.len() == 0 {
        append_chars(&mut out, to);
    }
    out
}

/// Appends all of `more` to `out`.
fn append_chars(out: &mut Vec<char>, more: &Vec<char>)
    ensures
        final(out)@ == old(out)@ + more@,
{
    let mut k: usize = 0;
    while k < more.len()
        invariant
            k <= more.len(),
            out@ == old(out)@ + more@.subrange(0, k as int),
        decreases more.len() - k,
    {
        out.push(more[k]);
        k += 1;
    }
}

/// `matched` wrapped in the escape sequences that make a terminal show it
/// in bold yellow.
pub open spec fn highlighted(matched: Seq<char>) -> Seq<char> {
    "\x1b[33;1m"@ + matched + "\x1b[0m"@
}

/// The console line that announces a match: the file, the line number, and
/// the line with every occurrence of the matched text highlighted.
pub open spec fn live_line_text(
    file: Seq<char>,
    number: nat,
    line: Seq<char>,
    matched: Seq<char>,
) -> Seq<char> {
    file + seq![':'] + decimal(number) + seq![':', ' '] + replace_all(
        line,
        matched,
        highlighted(matched),
    )
}

/// Renders the console line for a match of `matched` on line `number` of
/// `file`, whose content is `line`.
pub fn live_line(file: &str, number: usize, line: &str, matched: &str) -> (out: String)
    ensures
        out@ == live_line_text(file@, number as nat, line@, matched@),
{
    let from = chars_of(matched);
    let mut to = chars_of("\x1b[33;1m");
    append_chars(&mut to, &from);
    let reset = chars_of("\x1b[0m");
    append_chars(&mut to, &reset);
    let shown = replace_chars(&chars_of(line), &from, &to);
    let mut out = file.to_owned();
    out.push(':');
    push_decimal(&mut out, number);
    out.push(':');
    out.push(' ');
    push_chars(&mut out, &shown, 0, shown.len());
    out
}

/// The console line that closes a run whose report is not written to a
/// file.
pub open spec fn summary_text(total: nat) -> Seq<char> {
    "Total matches: "@ + decimal(total)
}

/// Renders the closing line for a run that found `total` matches.
pub fn summary_line(total: usize) -> (out: String)
    ensures
        out@ == summary_text(total as nat),
{
    let mut out = "Total matches: ".to_owned();
    push_decimal(&mut out, total);
    out
}

/// The console line that closes a run: it confirms where the report was
/// saved, or states the total where no report file was asked for.
pub open spec fn closing_text(total: nat, json_out: Option<Seq<char>>) -> Seq<char> {
    match json_out {
        Some(path) => "Report saved to: "@ + path + " ("@ + decimal(total) + " matches)"@,
        None => summary_text(total),
    }
}

/// Renders the closing line of a run.
pub fn closing_line(total: usize, json_out: Option<&str>) -> (out: String)
    ensures
        out@ == closing_text(
            total as nat,
            match json_out {
                Some(path) => Some(path@),
                None => None,
            },
        ),
{
    match json_out {
        Some(path) => {
            let mut out = "Report saved to: ".to_owned();
            out.append(path);
            out.append(" (");
            push_decimal(&mut out, total);
            out.append(" matches)");
            out
        },
        None => summary_line(total),
    }
}

} // verus!
