use fastgrep::enumerate::{check_root, select_files, EntryKind, RootStatus, WalkEntry};
use fastgrep::types::SearchError;

fn entry(path: &str, kind: Option<EntryKind>) -> WalkEntry {
    WalkEntry { path: path.to_string(), kind, content: None }
}

#[test]
fn missing_root_is_fatal() {
    assert_eq!(check_root(RootStatus::Missing), Err(SearchError::RootNotFound));
}

#[test]
fn unreadable_root_is_fatal() {
    assert_eq!(check_root(RootStatus::Unreadable), Err(SearchError::RootNotReadable));
}

#[test]
fn readable_root_is_accepted() {
    assert_eq!(check_root(RootStatus::Readable), Ok(()));
}

#[test]
fn directory_with_a_file_like_name_is_left_out() {
    let entries = vec![
        entry("root", Some(EntryKind::Directory)),
        entry("root/notes.txt", Some(EntryKind::Directory)),
        entry("root/notes.txt/inner.txt", Some(EntryKind::File)),
        entry("root/a.txt", Some(EntryKind::File)),
    ];
    assert_eq!(select_files(&entries), vec!["root/notes.txt/inner.txt", "root/a.txt"]);
}

#[test]
fn file_with_a_directory_like_name_is_kept() {
    let entries = vec![entry("root/dir", Some(EntryKind::File))];
    assert_eq!(select_files(&entries), vec!["root/dir"]);
}

#[test]
fn entries_without_metadata_are_skipped() {
    let entries = vec![
        entry("a", None),
        entry("b", Some(EntryKind::File)),
        entry("c", Some(EntryKind::Other)),
        entry("d", None),
        entry("e", Some(EntryKind::File)),
    ];
    assert_eq!(select_files(&entries), vec!["b", "e"]);
}

#[test]
fn nothing_to_select() {
    assert!(select_files(&Vec::new()).is_empty());
    assert!(select_files(&vec![entry("d", Some(EntryKind::Directory))]).is_empty());
}
