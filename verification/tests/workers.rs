use fastgrep::aggregate::Aggregator;
use fastgrep::enumerate::{select_files, EntryKind, RootStatus, WalkEntry};
use fastgrep::queue::WorkQueue;
use fastgrep::search::{prepare, scan_file, SourceFile};
use fastgrep::types::Report;
use std::collections::HashMap;
use std::sync::Mutex;

fn corpus() -> Vec<SourceFile> {
    let mut files = Vec::new();
    for f in 0..40usize {
        let mut text = String::new();
        for l in 0..(f % 7 + 1) {
            if (f + l) % 3 == 0 {
                text.push_str(&format!("id-{}-{} here\n", f, l));
            } else {
                text.push_str("nothing\r\n");
            }
        }
        let content = if f % 11 == 5 { None } else { Some(text) };
        files.push(SourceFile { path: format!("dir/f{}.txt", f), content });
    }
    files
}

fn walk(files: &[SourceFile]) -> Vec<WalkEntry> {
    let mut entries =
        vec![WalkEntry { path: "dir".to_string(), kind: Some(EntryKind::Directory), content: None }];
    for f in files {
        entries.push(WalkEntry {
            path: f.path.clone(),
            kind: Some(EntryKind::File),
            content: f.content.clone(),
        });
    }
    entries.push(WalkEntry { path: "dir/odd".to_string(), kind: None, content: None });
    entries
}

fn search_pattern(pattern: &str, files: &[SourceFile]) -> Report {
    fastgrep::search::search_pattern(pattern, RootStatus::Readable, &walk(files), true, 1, None)
        .unwrap()
        .report
}

fn run_with_workers(pattern: &str, files: &[SourceFile], workers: usize) -> Report {
    let matcher = prepare(pattern, workers).unwrap();
    let by_path: HashMap<String, &SourceFile> =
        files.iter().map(|f| (f.path.clone(), f)).collect();
    let queue = Mutex::new(WorkQueue::new(select_files(&walk(files))));
    let aggregator = Mutex::new(Aggregator::new());
    let pool = rayon::ThreadPoolBuilder::new().num_threads(workers).build().unwrap();
    pool.scope(|scope| {
        for _ in 0..workers {
            scope.spawn(|_| loop {
                let next = queue.lock().unwrap().pull();
                let Some(path) = next else { break };
                let scan = scan_file(&matcher, by_path[&path], true);
                aggregator.lock().unwrap().submit_all(scan.entries);
            });
        }
    });
    aggregator.into_inner().unwrap().snapshot(matcher.pattern())
}

fn keys(report: &Report) -> Vec<(String, usize, String)> {
    let mut keys: Vec<(String, usize, String)> = report
        .matches
        .iter()
        .map(|e| (e.file.clone(), e.line, e.matched_text.clone()))
        .collect();
    keys.sort();
    keys
}

#[test]
fn one_worker_and_many_find_the_same_matches() {
    let files = corpus();
    let pattern = r"id-\d+-\d+";
    let reference = search_pattern(pattern, &files);
    let expected = keys(&reference);
    assert!(!expected.is_empty());
    for workers in [1usize, 2, 3, 8, 16] {
        let report = run_with_workers(pattern, &files, workers);
        assert_eq!(report.pattern, pattern);
        assert_eq!(report.total_matches, report.matches.len());
        assert_eq!(keys(&report), expected, "with {} workers", workers);
    }
}

#[test]
fn one_worker_reports_in_queue_order() {
    let files = corpus();
    let reference = search_pattern(r"id-\d+", &files);
    assert_eq!(run_with_workers(r"id-\d+", &files, 1), reference);
}

#[test]
fn many_workers_report_nothing_twice() {
    let files = corpus();
    let report = run_with_workers("here", &files, 8);
    let all = keys(&report);
    let mut unique = all.clone();
    unique.dedup();
    assert_eq!(all, unique);
}

#[test]
fn many_workers_and_no_match() {
    let files = corpus();
    let report = run_with_workers("absent", &files, 8);
    assert_eq!(report.total_matches, 0);
    assert!(report.matches.is_empty());
}
