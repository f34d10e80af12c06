//! Matching the lines of one file.

use crate::lines::{lines_of, split_lines};
use crate::text::texts;
use crate::matcher::{first_match, fits, span_fits, span_str, span_text, Matcher};
use crate::render::{live_line, live_line_text};
use crate::types::{entry_views, MatchEntry, MatchEntryView};
use vstd::prelude::*;

verus! {

/// The entry for line number `number` of `file`, given what the search of
/// the line found: an entry with the text under the span, if a span was
/// found and can be cut out of the line.
pub open spec fn entry_of(
    file: Seq<char>,
    number: nat,
    line: Seq<char>,
    found: Option<(usize, usize)>,
) -> Option<MatchEntryView> {
    match found {
        Some(span) => if span_fits(line, span) {
            Some(MatchEntryView { file, line: number, matched_text: span_text(line, span) })
        } else {
            None
        },
        None => None,
    }
}

/// The entry that line number `number` of `file` gives rise to: one that
/// holds the leftmost match in the line, if the line has a match.
pub open spec fn line_entry(
    pattern: Seq<char>,
    file: Seq<char>,
    number: nat,
    line: Seq<char>,
) -> Option<MatchEntryView> {
    entry_of(file, number, line, first_match(pattern, line))
}

/// Builds the entry for line number `number` of `file` from what the search
/// of the line found.
pub fn entry_for(file: &str, number: usize, line: &str, found: Option<(usize, usize)>) -> (entry:
    Option<MatchEntry>)
    requires
        number >= 1,
    ensures
        match entry {
            Some(e) => entry_of(file@, number as nat, line@, found) == Some(e@),
            None => entry_of(file@, number as nat, line@, found) is None,
        },
{
    match found {
        Some(span) => if fits(line, span) {
            Some(MatchEntry::new(file, number, span_str(line, span)))
        } else {
            None
        },
        None => None,
    }
}

/// The entries of `lines`, taken as the lines of `file` numbered from one:
/// one entry for each line that has a match, in line order.
pub open spec fn entries_in(pattern: Seq<char>, file: Seq<char>, lines: Seq<Seq<char>>) -> Seq<
    MatchEntryView,
>
    decreases lines.len(),
{
    if lines.len() == 0 {
        seq![]
    } else {
        let before = entries_in(pattern, file, lines.drop_last());
        match line_entry(pattern, file, lines.len(), lines.last()) {
            Some(entry) => before.push(entry),
            None => before,
        }
    }
}

/// The notices of `lines`: one for each line that has a match, in line
/// order.
pub open spec fn notices_in(pattern: Seq<char>, file: Seq<char>, lines: Seq<Seq<char>>) -> Seq<
    Seq<char>,
>
    decreases lines.len(),
{
    if lines.len() == 0 {
        seq![]
    } else {
        let before = notices_in(pattern, file, lines.drop_last());
        match first_match(pattern, lines.last()) {
            Some(span) => before.push(
                live_line_text(file, lines.len(), lines.last(), span_text(lines.last(), span)),
            ),
            None => before,
        }
    }
}

/// What scanning one file yields.
#[derive(Debug, PartialEq, Eq)]
pub struct FileScan {
    /// One entry for each line with a match, in line order.
    pub entries: Vec<MatchEntry>,
    /// One line of console text for each entry, unless they were not asked
    /// for.
    pub notices: Vec<String>,
}

/// Scans `text`, the content of `file`, line by line. For each line with a
/// match the result holds an entry and, unless `list_only` is set, a notice.
pub fn scan_text(matcher: &Matcher, file: &str, text: &str, list_only: bool) -> (scan: FileScan)
    ensures
        entry_views(scan.entries@) == entries_in(matcher@, file@, lines_of(text@)),
        texts(scan.notices@) == if list_only {
            Seq::<Seq<char>>::empty()
        } else {
            notices_in(matcher@, file@, lines_of(text@))
        },
{
    let lines = split_lines(text);
    let mut entries: Vec<MatchEntry> = Vec::new();
    let mut notices: Vec<String> = Vec::new();
    let mut i: usize = 0;
    while i < lines.len()
        invariant
            i <= lines.len(),
            entry_views(entries@) == entries_in(matcher@, file@, texts(lines@).take(i as int)),
            texts(notices@) == if list_only {
                Seq::<Seq<char>>::empty()
            } else {
                notices_in(matcher@, file@, texts(lines@).take(i as int))
            },
        decreases lines.len() - i,
    {
        proof {
            let seen = texts(lines@).take(i as int);
            assert(texts(lines@).take(i + 1).drop_last() =~= seen);
        }
        let line = lines[i].as_str();
        match entry_for(file, i + 1, line, matcher.find_first(line)) {
            Some(entry) => {
                if !list_only {
                    notices.push(live_line(file, i + 1, line, entry.matched_text.as_str()));
                }
                entries.push(entry);
            },
            None => {},
        }
        i += 1;
    }
    proof {
        assert(texts(lines@).take(lines@.len() as int) =~= texts(lines@));
    }
    FileScan { entries, notices }
}

} // verus!
