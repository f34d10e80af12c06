//! What holds of every run: each matching line is reported, nothing else is,
//! nothing is reported twice, and the order in which files are scanned does
//! not change what is found.

use crate::enumerate::{is_scannable, RootStatus, WalkEntryView};
use crate::lines::lines_of;
use crate::matcher::{first_match, lemma_span_text_within, span_text};
use crate::scan::{entries_in, line_entry, notices_in};
use crate::search::{
    file_entries, run_entries, run_notices, run_outcome, run_report, source_view, sources_of,
    SourceFileView,
};
use crate::types::MatchEntryView;
use vstd::multiset::Multiset;
use vstd::prelude::*;

verus! {

/// Whether `entry` reports line `l` (counted from zero) of `lines`, read from
/// `file`: the line has a match, and the entry holds the file, the line's
/// number and the text of its leftmost match.
pub open spec fn reports_line(
    pattern: Seq<char>,
    file: Seq<char>,
    lines: Seq<Seq<char>>,
    l: int,
    entry: MatchEntryView,
) -> bool {
    0 <= l < lines.len() && line_entry(pattern, file, (l + 1) as nat, lines[l]) == Some(entry)
}

/// Whether `entry` reports line `l` of the file `file`.
pub open spec fn reports(
    pattern: Seq<char>,
    file: SourceFileView,
    l: int,
    entry: MatchEntryView,
) -> bool {
    match file.content {
        Some(text) => reports_line(pattern, file.path, lines_of(text), l, entry),
        None => false,
    }
}

/// Whether no two files have the same path.
pub open spec fn distinct_paths(files: Seq<SourceFileView>) -> bool {
    forall|i: int, j: int|
        0 <= i < j < files.len() ==> (#[trigger] files[i]).path != (#[trigger] files[j]).path
}

/// Every entry of a file reports one of its lines, and the entries come in
/// rising line order.
pub proof fn lemma_entries_in_sound(pattern: Seq<char>, file: Seq<char>, lines: Seq<Seq<char>>)
    ensures
        forall|k: int|
            0 <= k < entries_in(pattern, file, lines).len() ==> {
                let e = #[trigger] entries_in(pattern, file, lines)[k];
                e.file == file && reports_line(pattern, file, lines, e.line - 1, e)
            },
        forall|i: int, j: int|
            0 <= i < j < entries_in(pattern, file, lines).len() ==> (#[trigger] entries_in(
                pattern,
                file,
                lines,
            )[i]).line < (#[trigger] entries_in(pattern, file, lines)[j]).line,
    decreases lines.len(),
{
    if lines.len() > 0 {
        let before = lines.drop_last();
        lemma_entries_in_sound(pattern, file, before);
        let found = entries_in(pattern, file, before);
        assert forall|k: int| 0 <= k < found.len() implies reports_line(
            pattern,
            file,
            lines,
            (#[trigger] found[k]).line - 1,
            found[k],
        ) by {
            let l = found[k].line - 1;
            assert(reports_line(pattern, file, before, l, found[k]));
            assert(before[l] == lines[l]);
        }
    }
}

/// Every line of a file that has a match is reported by one of the file's
/// entries.
pub proof fn lemma_entries_in_complete(
    pattern: Seq<char>,
    file: Seq<char>,
    lines: Seq<Seq<char>>,
    l: int,
)
    requires
        0 <= l < lines.len(),
        first_match(pattern, lines[l]) is Some,
    ensures
        entries_in(pattern, file, lines).contains(
            line_entry(pattern, file, (l + 1) as nat, lines[l])->0,
        ),
    decreases lines.len(),
{
    let before = lines.drop_last();
    let found = entries_in(pattern, file, before);
    let all = entries_in(pattern, file, lines);
    if l == lines.len() - 1 {
        assert(all == found.push(line_entry(pattern, file, lines.len(), lines.last())->0));
        assert(all[all.len() - 1] == line_entry(pattern, file, (l + 1) as nat, lines[l])->0);
    } else {
        lemma_entries_in_complete(pattern, file, before, l);
        let e = line_entry(pattern, file, (l + 1) as nat, lines[l])->0;
        assert(before[l] == lines[l]);
        let k = choose|k: int| 0 <= k < found.len() && found[k] == e;
        assert(all[k] == e);
    }
}

/// A line with a match, in a file with text, is among the entries of the
/// run.
pub proof fn lemma_every_match_reported(
    pattern: Seq<char>,
    files: Seq<SourceFileView>,
    f: int,
    l: int,
    entry: MatchEntryView,
)
    requires
        0 <= f < files.len(),
        reports(pattern, files[f], l, entry),
    ensures
        run_entries(pattern, files).contains(entry),
    decreases files.len(),
{
    let before = files.drop_last();
    let all = run_entries(pattern, files);
    let head = run_entries(pattern, before);
    let tail = file_entries(pattern, files.last());
    if f == files.len() - 1 {
        let lines = lines_of(files[f].content->0);
        lemma_entries_in_complete(pattern, files[f].path, lines, l);
        let k = choose|k: int| 0 <= k < tail.len() && tail[k] == entry;
        assert(all[head.len() + k] == entry);
    } else {
        assert(before[f] == files[f]);
        lemma_every_match_reported(pattern, before, f, l, entry);
        let k = choose|k: int| 0 <= k < head.len() && head[k] == entry;
        assert(all[k] == entry);
    }
}

/// Every entry of the run reports a line, with a match, of one of the
/// files.
pub proof fn lemma_every_entry_is_a_match(pattern: Seq<char>, files: Seq<SourceFileView>, k: int)
    requires
        0 <= k < run_entries(pattern, files).len(),
    ensures
        exists|f: int, l: int|
            0 <= f < files.len() && #[trigger] reports(
                pattern,
                files[f],
                l,
                run_entries(pattern, files)[k],
            ),
    decreases files.len(),
{
    let before = files.drop_last();
    let all = run_entries(pattern, files);
    let head = run_entries(pattern, before);
    let tail = file_entries(pattern, files.last());
    if k < head.len() {
        lemma_every_entry_is_a_match(pattern, before, k);
        let (f, l) = choose|f: int, l: int|
            0 <= f < before.len() && #[trigger] reports(pattern, before[f], l, head[k]);
        assert(before[f] == files[f]);
        assert(reports(pattern, files[f], l, all[k]));
    } else {
        let last = files.last();
        let e = tail[k - head.len()];
        lemma_entries_in_sound(pattern, last.path, lines_of(last.content->0));
        assert(reports(pattern, files[files.len() - 1], e.line - 1, all[k]));
    }
}

/// Every entry of the run carries the path of the file it comes from, a line
/// number of at least one, and a text that is a run of consecutive characters
/// of that line.
pub proof fn lemma_entries_well_formed(pattern: Seq<char>, files: Seq<SourceFileView>, k: int)
    requires
        0 <= k < run_entries(pattern, files).len(),
    ensures
        run_entries(pattern, files)[k].wf(),
        exists|f: int, l: int, i: int, j: int|
            0 <= f < files.len() && #[trigger] reports(
                pattern,
                files[f],
                l,
                run_entries(pattern, files)[k],
            ) && 0 <= i <= j && #[trigger] lines_of(files[f].content->0)[l].subrange(i, j)
                == run_entries(pattern, files)[k].matched_text,
{
    lemma_every_entry_is_a_match(pattern, files, k);
    let e = run_entries(pattern, files)[k];
    let (f, l) = choose|f: int, l: int|
        0 <= f < files.len() && #[trigger] reports(pattern, files[f], l, e);
    let line = lines_of(files[f].content->0)[l];
    let span = first_match(pattern, line)->0;
    lemma_span_text_within(line, span);
    let (i, j) = choose|i: int, j: int|
        0 <= i <= j <= line.len() && #[trigger] line.subrange(i, j) == span_text(line, span);
    assert(lines_of(files[f].content->0)[l].subrange(i, j) == e.matched_text);
}

/// Where no two files share a path, no entry occurs twice among the entries
/// of the run.
pub proof fn lemma_no_duplicates(pattern: Seq<char>, files: Seq<SourceFileView>)
    requires
        distinct_paths(files),
    ensures
        run_entries(pattern, files).no_duplicates(),
    decreases files.len(),
{
    if files.len() > 0 {
        let before = files.drop_last();
        let last = files.last();
        let head = run_entries(pattern, before);
        let tail = file_entries(pattern, last);
        assert forall|i: int, j: int| 0 <= i < j < before.len() implies (#[trigger] before[i]).path
            != (#[trigger] before[j]).path by {
            assert(before[i] == files[i] && before[j] == files[j]);
        }
        lemma_no_duplicates(pattern, before);
        if last.content is Some {
            lemma_entries_in_sound(pattern, last.path, lines_of(last.content->0));
        }
        assert forall|i: int, j: int| 0 <= i < head.len() && 0 <= j < tail.len() implies head[i]
            != tail[j] by {
            lemma_every_entry_is_a_match(pattern, before, i);
            let (f, l) = choose|f: int, l: int|
                0 <= f < before.len() && #[trigger] reports(pattern, before[f], l, head[i]);
            assert(before[f] == files[f]);
            assert(head[i].file == files[f].path);
            assert(tail[j].file == files[files.len() - 1].path);
        }
        vstd::seq_lib::lemma_no_dup_in_concat(head, tail);
    }
}

/// Where no two files share a path, a line with a match, in a file with
/// text, is reported by exactly one entry of the run.
pub proof fn lemma_reported_exactly_once(
    pattern: Seq<char>,
    files: Seq<SourceFileView>,
    f: int,
    l: int,
    entry: MatchEntryView,
)
    requires
        distinct_paths(files),
        0 <= f < files.len(),
        reports(pattern, files[f], l, entry),
    ensures
        run_entries(pattern, files).to_multiset().count(entry) == 1,
{
    let all = run_entries(pattern, files);
    lemma_every_match_reported(pattern, files, f, l, entry);
    lemma_no_duplicates(pattern, files);
    all.lemma_multiset_has_no_duplicates();
    all.to_multiset_ensures();
}

/// What one file adds to the entries gathered so far, order left aside.
pub open spec fn add_file(pattern: Seq<char>) -> spec_fn(
    Multiset<MatchEntryView>,
    SourceFileView,
) -> Multiset<MatchEntryView> {
    |found: Multiset<MatchEntryView>, file: SourceFileView|
        found.add(file_entries(pattern, file).to_multiset())
}

/// The entries of a run, order left aside, are what the files add one by
/// one.
pub proof fn lemma_run_entries_fold(pattern: Seq<char>, files: Seq<SourceFileView>)
    ensures
        run_entries(pattern, files).to_multiset() == files.fold_left(
            Multiset::<MatchEntryView>::empty(),
            add_file(pattern),
        ),
    decreases files.len(),
{
    if files.len() == 0 {
        assert(run_entries(pattern, files).to_multiset() =~= Multiset::<MatchEntryView>::empty())
            by {
            run_entries(pattern, files).to_multiset_ensures();
        }
    } else {
        lemma_run_entries_fold(pattern, files.drop_last());
        vstd::seq_lib::lemma_multiset_commutative(
            run_entries(pattern, files.drop_last()),
            file_entries(pattern, files.last()),
        );
    }
}

/// Two runs over the same files, scanned in any two orders, find the same
/// entries, each as often in one as in the other.
/// Workers that take files from a shared queue scan them in some order, so
/// the number of workers does not change what is found.
pub proof fn lemma_scan_order_immaterial(
    pattern: Seq<char>,
    files_a: Seq<SourceFileView>,
    files_b: Seq<SourceFileView>,
)
    requires
        files_a.to_multiset() == files_b.to_multiset(),
    ensures
        run_entries(pattern, files_a).to_multiset() == run_entries(pattern, files_b).to_multiset(),
        run_entries(pattern, files_a).len() == run_entries(pattern, files_b).len(),
{
    let f = add_file(pattern);
    assert forall|x: SourceFileView, y: SourceFileView, v: Multiset<MatchEntryView>| #[trigger]
        f(f(v, x), y) == f(f(v, y), x) by {
        assert(f(f(v, x), y) =~= f(f(v, y), x));
    }
    lemma_run_entries_fold(pattern, files_a);
    lemma_run_entries_fold(pattern, files_b);
    vstd::seq_lib::lemma_fold_left_permutation(
        files_a,
        files_b,
        f,
        Multiset::<MatchEntryView>::empty(),
    );
    run_entries(pattern, files_a).to_multiset_ensures();
    run_entries(pattern, files_b).to_multiset_ensures();
}

/// What a run yields does not depend on how many workers it is given, as
/// long as it is given one: neither whether it fails, nor what it reports,
/// nor what it prints.
pub proof fn lemma_worker_count_immaterial(
    pattern: Seq<char>,
    root: RootStatus,
    entries: Seq<WalkEntryView>,
    list_only: bool,
    json_out: Option<Seq<char>>,
    threads_a: usize,
    threads_b: usize,
)
    requires
        threads_a > 0,
        threads_b > 0,
    ensures
        run_outcome(pattern, root, entries, list_only, threads_a, json_out) == run_outcome(
            pattern,
            root,
            entries,
            list_only,
            threads_b,
            json_out,
        ),
{
}

/// A file gives as many notices as entries.
pub proof fn lemma_notice_per_entry_in(pattern: Seq<char>, file: Seq<char>, lines: Seq<Seq<char>>)
    ensures
        notices_in(pattern, file, lines).len() == entries_in(pattern, file, lines).len(),
    decreases lines.len(),
{
    if lines.len() > 0 {
        lemma_notice_per_entry_in(pattern, file, lines.drop_last());
    }
}

/// A run that announces its matches gives one notice for each entry.
pub proof fn lemma_notice_per_entry(pattern: Seq<char>, files: Seq<SourceFileView>)
    ensures
        run_notices(pattern, files).len() == run_entries(pattern, files).len(),
    decreases files.len(),
{
    if files.len() > 0 {
        lemma_notice_per_entry(pattern, files.drop_last());
        if files.last().content is Some {
            lemma_notice_per_entry_in(
                pattern,
                files.last().path,
                lines_of(files.last().content->0),
            );
        }
    }
}

/// Whether no line of any of the files has a match.
pub open spec fn nothing_matches(pattern: Seq<char>, files: Seq<SourceFileView>) -> bool {
    forall|f: int, l: int|
        0 <= f < files.len() && files[f].content is Some && 0 <= l < lines_of(
            files[f].content->0,
        ).len() ==> first_match(pattern, #[trigger] lines_of(files[f].content->0)[l]) is None
}

/// A pattern that matches no line of any file yields no entry, and the
/// report counts zero.
pub proof fn lemma_nothing_matches(pattern: Seq<char>, files: Seq<SourceFileView>)
    requires
        nothing_matches(pattern, files),
    ensures
        run_entries(pattern, files) == Seq::<MatchEntryView>::empty(),
        run_report(pattern, files).total_matches == 0,
{
    let all = run_entries(pattern, files);
    if all.len() > 0 {
        lemma_every_entry_is_a_match(pattern, files, 0);
        let (f, l) = choose|f: int, l: int|
            0 <= f < files.len() && #[trigger] reports(pattern, files[f], l, all[0]);
        assert(first_match(pattern, lines_of(files[f].content->0)[l]) is Some);
    }
    assert(all =~= Seq::<MatchEntryView>::empty());
}

/// Whether no two entries of a walk have the same path.
pub open spec fn distinct_entries(entries: Seq<WalkEntryView>) -> bool {
    forall|i: int, j: int|
        0 <= i < j < entries.len() ==> (#[trigger] entries[i]).path != (#[trigger] entries[j]).path
}

/// Every file that a run scans is a regular file among the entries of the
/// walk.
pub proof fn lemma_sources_come_from_entries(entries: Seq<WalkEntryView>, k: int)
    requires
        0 <= k < sources_of(entries).len(),
    ensures
        exists|i: int|
            0 <= i < entries.len() && is_scannable(entries[i]) && source_view(
                #[trigger] entries[i],
            ) == sources_of(entries)[k],
    decreases entries.len(),
{
    let before = entries.drop_last();
    if k < sources_of(before).len() {
        lemma_sources_come_from_entries(before, k);
        let i = choose|i: int|
            0 <= i < before.len() && is_scannable(before[i]) && source_view(#[trigger] before[i])
                == sources_of(before)[k];
        assert(source_view(entries[i]) == sources_of(entries)[k]);
    } else {
        assert(source_view(entries[entries.len() - 1]) == sources_of(entries)[k]);
    }
}

/// A walk that names no path twice gives the run no path twice.
pub proof fn lemma_sources_distinct(entries: Seq<WalkEntryView>)
    requires
        distinct_entries(entries),
    ensures
        distinct_paths(sources_of(entries)),
    decreases entries.len(),
{
    if entries.len() > 0 {
        let before = entries.drop_last();
        assert forall|i: int, j: int| 0 <= i < j < before.len() implies (#[trigger] before[i]).path
            != (#[trigger] before[j]).path by {
            assert(before[i] == entries[i] && before[j] == entries[j]);
        }
        lemma_sources_distinct(before);
        let found = sources_of(entries);
        assert forall|a: int, b: int| 0 <= a < b < found.len() implies (#[trigger] found[a]).path
            != (#[trigger] found[b]).path by {
            if b == sources_of(before).len() {
                lemma_sources_come_from_entries(before, a);
                let i = choose|i: int|
                    0 <= i < before.len() && is_scannable(before[i]) && source_view(
                        #[trigger] before[i],
                    ) == sources_of(before)[a];
                assert(before[i] == entries[i]);
                assert(entries[i].path != entries[entries.len() - 1].path);
            }
        }
    }
}

/// An entry that is not a regular file has no part in the run: the files
/// scanned are the same without it, whatever its name and whatever text
/// stands with it.
pub proof fn lemma_unscannable_left_out(entries: Seq<WalkEntryView>, i: int)
    requires
        0 <= i < entries.len(),
        !is_scannable(entries[i]),
    ensures
        sources_of(entries) == sources_of(entries.remove(i)),
    decreases entries.len(),
{
    if i == entries.len() - 1 {
        assert(entries.remove(i) =~= entries.drop_last());
    } else {
        lemma_unscannable_left_out(entries.drop_last(), i);
        assert(entries.remove(i).drop_last() =~= entries.drop_last().remove(i));
        assert(entries.remove(i).last() == entries.last());
    }
}

} // verus!
