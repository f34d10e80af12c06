//! The records a search produces.

use vstd::prelude::*;

verus! {

/// One matched line.
#[derive(Debug, Clone, PartialEq, Eq)]
pub struct MatchEntry {
    /// Path of the file the line was read from.
    pub file: String,
    /// Number of the line within its file, counted from one.
    pub line: usize,
    /// The part of the line that satisfied the pattern.
    pub matched_text: String,
}

/// The mathematical content of a [`MatchEntry`].
pub struct MatchEntryView {
    pub file: Seq<char>,
    pub line: nat,
    pub matched_text: Seq<char>,
}

impl View for MatchEntry {
    type V = MatchEntryView;

    open spec fn view(&self) -> MatchEntryView {
        MatchEntryView {
            file: self.file@,
            line: self.line as nat,
            matched_text: self.matched_text@,
        }
    }
}

impl MatchEntryView {
    /// Whether the entry names a line: lines are counted from one.
    pub open spec fn wf(&self) -> bool {
        self.line >= 1
    }
}

impl MatchEntry {
    /// Whether the entry names a line: lines are counted from one.
    pub open spec fn wf(&self) -> bool {
        self@.wf()
    }

    /// Builds the record of a match on line `line` of `file`.
    pub fn new(file: &str, line: usize, matched_text: &str) -> (entry: MatchEntry)
        requires
            line >= 1,
        ensures
            entry.wf(),
            entry@ == (MatchEntryView {
                file: file@,
                line: line as nat,
                matched_text: matched_text@,
            }),
    {
        MatchEntry { file: file.to_owned(), line, matched_text: matched_text.to_owned() }
    }
}

/// The views of a sequence of entries, in order.
pub open spec fn entry_views(entries: Seq<MatchEntry>) -> Seq<MatchEntryView> {
    Seq::new(entries.len(), |i: int| entries[i]@)
}

/// The result of one search run.
#[derive(Debug, Clone, PartialEq, Eq)]
pub struct Report {
    /// The pattern text that was searched for.
    pub pattern: String,
    /// The number of entries in `matches`.
    pub total_matches: usize,
    /// The matches, in the order in which they were collected.
    pub matches: Vec<MatchEntry>,
}

/// The mathematical content of a [`Report`].
pub struct ReportView {
    pub pattern: Seq<char>,
    pub total_matches: nat,
    pub matches: Seq<MatchEntryView>,
}

impl View for Report {
    type V = ReportView;

    open spec fn view(&self) -> ReportView {
        ReportView {
            pattern: self.pattern@,
            total_matches: self.total_matches as nat,
            matches: entry_views(self.matches@),
        }
    }
}

impl Report {
    /// Whether the count the report states is the number of matches it
    /// holds.
    pub open spec fn wf(&self) -> bool {
        self.total_matches == self.matches@.len()
    }

    /// The report of a run that searched for `pattern` and collected
    /// `matches`.
    pub fn new(pattern: &str, matches: Vec<MatchEntry>) -> (report: Report)
        ensures
            report.wf(),
            report.pattern@ == pattern@,
            report.matches == matches,
            report.total_matches == matches@.len(),
    {
        let total_matches = matches.len();
        Report { pattern: pattern.to_owned(), total_matches, matches }
    }
}

/// Why a run ended before it could report.
#[derive(Debug, Clone, PartialEq, Eq)]
pub enum SearchError {
    /// The pattern text is not a valid pattern.
    Compile {
        /// The pattern text as it was given.
        pattern: String,
        /// The engine's complaint about it.
        message: String,
    },
    /// The number of workers asked for is zero.
    InvalidWorkerCount,
    /// The root of the search does not exist.
    RootNotFound,
    /// The root of the search exists but cannot be listed.
    RootNotReadable,
}

impl SearchError {
    /// What the message of each kind of failure says; for a rejected pattern
    /// it is the engine's complaint, as it stands.
    pub open spec fn message_text(&self) -> Seq<char> {
        match self {
            SearchError::Compile { message, .. } => message@,
            SearchError::InvalidWorkerCount => "the number of workers must be at least 1"@,
            SearchError::RootNotFound => "the root of the search is not an existing directory"@,
            SearchError::RootNotReadable => "the root of the search cannot be read"@,
        }
    }

    /// The message to show for this failure.
    pub fn describe(&self) -> (text: String)
        ensures
            text@ == self.message_text(),
    {
        match self {
            SearchError::Compile { message, .. } => message.clone(),
            SearchError::InvalidWorkerCount => {
                "the number of workers must be at least 1".to_owned()
            },
            SearchError::RootNotFound => {
                "the root of the search is not an existing directory".to_owned()
            },
            SearchError::RootNotReadable => "the root of the search cannot be read".to_owned(),
        }
    }
}

/// The mathematical content of a [`SearchError`]: the kind of failure and,
/// for a rejected pattern, its text and the engine's complaint.
pub enum SearchErrorView {
    Compile { pattern: Seq<char>, message: Seq<char> },
    InvalidWorkerCount,
    RootNotFound,
    RootNotReadable,
}

impl View for SearchError {
    type V = SearchErrorView;

    open spec fn view(&self) -> SearchErrorView {
        match self {
            SearchError::Compile { pattern, message } => SearchErrorView::Compile {
                pattern: pattern@,
                message: message@,
            },
            SearchError::InvalidWorkerCount => SearchErrorView::InvalidWorkerCount,
            SearchError::RootNotFound => SearchErrorView::RootNotFound,
            SearchError::RootNotReadable => SearchErrorView::RootNotReadable,
        }
    }
}

} // verus!
