//! A whole run: from the pattern text and the files to the report.

use crate::aggregate::Aggregator;
use crate::enumerate::{
    check_root, is_scannable, root_refusal, selected_paths, walk_views, EntryKind, RootStatus,
    WalkEntry, WalkEntryView,
};
use crate::lines::lines_of;
use crate::matcher::{regex_accepts, regex_complaint, Matcher};
use crate::render::{closing_line, closing_text};
use crate::scan::{entries_in, notices_in, scan_text, FileScan};
use crate::text::texts;
use crate::types::{
    entry_views, MatchEntryView, Report, ReportView, SearchError, SearchErrorView,
};
use vstd::prelude::*;

pub use crate::patterns::smart_pattern;

verus! {

/// A file as the search sees it: its path, and its content if it could be
/// read and decoded as text.
#[derive(Debug, Clone, PartialEq, Eq)]
pub struct SourceFile {
    /// The path under which matches in the file are reported.
    pub path: String,
    /// The text of the file. `None` stands for a file that could not be
    /// opened or does not hold text.
    pub content: Option<String>,
}

/// The mathematical content of a [`SourceFile`].
pub struct SourceFileView {
    pub path: Seq<char>,
    pub content: Option<Seq<char>>,
}

impl View for SourceFile {
    type V = SourceFileView;

    open spec fn view(&self) -> SourceFileView {
        SourceFileView {
            path: self.path@,
            content: match self.content {
                Some(text) => Some(text@),
                None => None,
            },
        }
    }
}

/// An entry of a walk taken as a file to scan.
pub open spec fn source_view(entry: WalkEntryView) -> SourceFileView {
    SourceFileView { path: entry.path, content: entry.content }
}

/// The entries that one file contributes. A file without text contributes
/// none.
pub open spec fn file_entries(pattern: Seq<char>, file: SourceFileView) -> Seq<MatchEntryView> {
    match file.content {
        Some(text) => entries_in(pattern, file.path, lines_of(text)),
        None => seq![],
    }
}

/// The notices that one file contributes.
pub open spec fn file_notices(pattern: Seq<char>, file: SourceFileView) -> Seq<Seq<char>> {
    match file.content {
        Some(text) => notices_in(pattern, file.path, lines_of(text)),
        None => seq![],
    }
}

/// The entries of a run over `files`, file after file.
pub open spec fn run_entries(pattern: Seq<char>, files: Seq<SourceFileView>) -> Seq<
    MatchEntryView,
>
    decreases files.len(),
{
    if files.len() == 0 {
        seq![]
    } else {
        run_entries(pattern, files.drop_last()) + file_entries(pattern, files.last())
    }
}

/// The notices of a run over `files`, file after file.
pub open spec fn run_notices(pattern: Seq<char>, files: Seq<SourceFileView>) -> Seq<Seq<char>>
    decreases files.len(),
{
    if files.len() == 0 {
        seq![]
    } else {
        run_notices(pattern, files.drop_last()) + file_notices(pattern, files.last())
    }
}

/// What a run hands back: the report, and the lines to print.
#[derive(Debug, PartialEq, Eq)]
pub struct SearchOutcome {
    /// The report of the run.
    pub report: Report,
    /// The console text of the run, line by line: the notices, then the
    /// closing line.
    pub console: Vec<String>,
}

/// The mathematical content of a [`SearchOutcome`].
pub struct SearchOutcomeView {
    pub report: ReportView,
    pub console: Seq<Seq<char>>,
}

impl View for SearchOutcome {
    type V = SearchOutcomeView;

    open spec fn view(&self) -> SearchOutcomeView {
        SearchOutcomeView { report: self.report@, console: texts(self.console@) }
    }
}

/// The report of a run over `files` with the pattern text `pattern`.
pub open spec fn run_report(pattern: Seq<char>, files: Seq<SourceFileView>) -> ReportView {
    ReportView {
        pattern,
        total_matches: run_entries(pattern, files).len(),
        matches: run_entries(pattern, files),
    }
}

/// The console text of such a run.
pub open spec fn run_console(
    pattern: Seq<char>,
    files: Seq<SourceFileView>,
    list_only: bool,
    json_out: Option<Seq<char>>,
) -> Seq<Seq<char>> {
    let notices = if list_only {
        Seq::<Seq<char>>::empty()
    } else {
        run_notices(pattern, files)
    };
    notices.push(closing_text(run_entries(pattern, files).len(), json_out))
}

/// Scans one file. A file without text yields nothing.
pub fn scan_file(matcher: &Matcher, file: &SourceFile, list_only: bool) -> (scan: FileScan)
    ensures
        entry_views(scan.entries@) == file_entries(matcher@, file@),
        texts(scan.notices@) == if list_only {
            Seq::<Seq<char>>::empty()
        } else {
            file_notices(matcher@, file@)
        },
{
    match &file.content {
        Some(text) => scan_text(matcher, file.path.as_str(), text.as_str(), list_only),
        None => FileScan { entries: Vec::new(), notices: Vec::new() },
    }
}

/// The files that a run scans among the entries of a walk: the regular
/// files, in the order of the walk, each with the text that was read from it.
/// An entry of another kind is left out whatever its name and whatever text
/// stands with it; so is one whose metadata cannot be read.
pub open spec fn sources_of(entries: Seq<WalkEntryView>) -> Seq<SourceFileView>
    decreases entries.len(),
{
    if entries.len() == 0 {
        seq![]
    } else {
        let before = sources_of(entries.drop_last());
        if is_scannable(entries.last()) {
            before.push(source_view(entries.last()))
        } else {
            before
        }
    }
}

/// Why a run with the pattern text `text` and `threads` workers fails before
/// it asks for its root, if it does: the number of workers is checked first,
/// then the pattern.
pub open spec fn early_refusal(text: Seq<char>, threads: usize) -> Option<SearchErrorView> {
    if threads == 0 {
        Some(SearchErrorView::InvalidWorkerCount)
    } else if !regex_accepts(text) {
        Some(SearchErrorView::Compile { pattern: text, message: regex_complaint(text) })
    } else {
        None
    }
}

/// Why a run fails before it looks at any file, if it does: the number of
/// workers is checked first, then the pattern, then the root.
pub open spec fn refusal(text: Seq<char>, threads: usize, root: RootStatus) -> Option<
    SearchErrorView,
> {
    match early_refusal(text, threads) {
        Some(e) => Some(e),
        None => root_refusal(root),
    }
}

/// What a run yields: the failure that ends it before it looks at any
/// entry, or else the report of the regular files among `entries` and the
/// console text.
pub open spec fn run_outcome(
    pattern: Seq<char>,
    root: RootStatus,
    entries: Seq<WalkEntryView>,
    list_only: bool,
    threads: usize,
    json_out: Option<Seq<char>>,
) -> Result<SearchOutcomeView, SearchErrorView> {
    match refusal(pattern, threads, root) {
        Some(e) => Err(e),
        None => Ok(
            SearchOutcomeView {
                report: run_report(pattern, sources_of(entries)),
                console: run_console(pattern, sources_of(entries), list_only, json_out),
            },
        ),
    }
}

/// Checks the number of workers and compiles the pattern text: all that
/// can fail before the file system is touched.
pub fn prepare(pattern: &str, threads: usize) -> (r: Result<Matcher, SearchError>)
    ensures
        match r {
            Ok(m) => early_refusal(pattern@, threads) is None && m@ == pattern@,
            Err(e) => Some(e@) == early_refusal(pattern@, threads),
        },
{
    if threads == 0 {
        return Err(SearchError::InvalidWorkerCount);
    }
    Matcher::compile(pattern)
}

/// Runs a search for the pattern text `pattern` over what a walk of the
/// tree found: `root` says how the root of the walk was found, `entries` are
/// the entries of the walk, with the text of those that were read.
///
/// The run fails before it looks at any entry if `threads` is zero, if the
/// pattern text is rejected, or if the root is missing or unreadable, in this
/// order. Otherwise it scans the regular files among the entries, in order,
/// and reports one entry for each line that has a match. With the report it
/// returns the console text: a notice per entry unless `list_only` is set,
/// and the closing line, which names `json_out` if there is one. The number
/// of workers has no part in the result.
pub fn search_pattern(
    pattern: &str,
    root: RootStatus,
    entries: &Vec<WalkEntry>,
    list_only: bool,
    threads: usize,
    json_out: Option<&str>,
) -> (r: Result<SearchOutcome, SearchError>)
    ensures
        r matches Ok(outcome) ==> outcome.report.wf(),
        run_outcome(
            pattern@,
            root,
            walk_views(entries@),
            list_only,
            threads,
            match json_out {
                Some(path) => Some(path@),
                None => None,
            },
        ) == match r {
            Ok(outcome) => Ok::<SearchOutcomeView, SearchErrorView>(outcome@),
            Err(e) => Err::<SearchOutcomeView, SearchErrorView>(e@),
        },
{
    let matcher = match prepare(pattern, threads) {
        Ok(matcher) => matcher,
        Err(e) => {
            return Err(e);
        },
    };
    match check_root(root) {
        Ok(_) => {},
        Err(e) => {
            return Err(e);
        },
    }
    let ghost all = walk_views(entries@);
    let mut aggregator = Aggregator::new();
    let mut console: Vec<String> = Vec::new();
    let mut i: usize = 0;
    proof {
        assert(all.take(0) =~= Seq::<WalkEntryView>::empty());
    }
    while i < entries.len()
        invariant
            i <= entries.len(),
            all == walk_views(entries@),
            matcher@ == pattern@,
            aggregator@ == run_entries(pattern@, sources_of(all.take(i as int))),
            texts(console@) == if list_only {
                Seq::<Seq<char>>::empty()
            } else {
                run_notices(pattern@, sources_of(all.take(i as int)))
            },
        decreases entries.len() - i,
    {
        proof {
            let seen = all.take(i as int);
            assert(all.take(i + 1).drop_last() =~= seen);
            assert(all.take(i + 1).last() == entries@[i as int]@);
            let with_entry = sources_of(seen).push(source_view(entries@[i as int]@));
            assert(with_entry.drop_last() =~= sources_of(seen));
        }
        let entry = &entries[i];
        let scannable = match entry.kind {
            Some(EntryKind::File) => true,
            _ => false,
        };
        if scannable {
            let FileScan { entries: found, notices } = match &entry.content {
                Some(text) => scan_text(&matcher, entry.path.as_str(), text.as_str(), list_only),
                None => FileScan { entries: Vec::new(), notices: Vec::new() },
            };
            let mut notices = notices;
            aggregator.submit_all(found);
            console.append(&mut notices);
        }
        i += 1;
    }
    proof {
        assert(all.take(entries@.len() as int) =~= all);
    }
    let ghost told = texts(console@);
    let closing = closing_line(aggregator.len(), json_out);
    console.push(closing);
    let report = aggregator.snapshot(pattern);
    proof {
        assert(texts(console@) =~= told.push(closing@));
        assert(report@.matches =~= run_entries(pattern@, sources_of(all)));
        assert(report@ == run_report(pattern@, sources_of(all)));
    }
    Ok(SearchOutcome { report, console })
}

/// The paths of the files that a run scans are the paths that
/// [`select_files`](crate::enumerate::select_files) keeps.
pub proof fn lemma_sources_are_selected(entries: Seq<WalkEntryView>)
    ensures
        sources_of(entries).len() == selected_paths(entries).len(),
        forall|k: int|
            0 <= k < sources_of(entries).len() ==> (#[trigger] sources_of(entries)[k]).path
                == selected_paths(entries)[k],
    decreases entries.len(),
{
    if entries.len() > 0 {
        lemma_sources_are_selected(entries.drop_last());
    }
}

} // verus!
