//! Choosing the files to scan among what a walk of the tree turns up.

use crate::text::texts;
use crate::types::{SearchError, SearchErrorView};
use vstd::prelude::*;

verus! {

/// What the metadata of a directory entry says it is.
#[derive(Debug, Clone, Copy, PartialEq, Eq, Structural)]
pub enum EntryKind {
    /// A regular file, or a link that leads to one.
    File,
    /// A directory.
    Directory,
    /// Anything else: a device, a socket, a pipe.
    Other,
}

/// One entry of a walk.
#[derive(Debug, Clone, PartialEq, Eq)]
pub struct WalkEntry {
    /// The path of the entry.
    pub path: String,
    /// What the entry is, or `None` where its metadata cannot be read.
    pub kind: Option<EntryKind>,
    /// The text of the entry, where it was read and holds text. It counts
    /// only for an entry that is a regular file.
    pub content: Option<String>,
}

/// The mathematical content of a [`WalkEntry`].
pub struct WalkEntryView {
    pub path: Seq<char>,
    pub kind: Option<EntryKind>,
    pub content: Option<Seq<char>>,
}

impl View for WalkEntry {
    type V = WalkEntryView;

    open spec fn view(&self) -> WalkEntryView {
        WalkEntryView {
            path: self.path@,
            kind: self.kind,
            content: match self.content {
                Some(text) => Some(text@),
                None => None,
            },
        }
    }
}

/// The views of a sequence of entries, in order.
pub open spec fn walk_views(entries: Seq<WalkEntry>) -> Seq<WalkEntryView> {
    Seq::new(entries.len(), |i: int| entries[i]@)
}

/// Whether an entry is to be scanned: its metadata says that it is a regular
/// file. Its name plays no part.
pub open spec fn is_scannable(entry: WalkEntryView) -> bool {
    entry.kind == Some(EntryKind::File)
}

/// The paths of the entries to scan, in the order of the walk.
pub open spec fn selected_paths(entries: Seq<WalkEntryView>) -> Seq<Seq<char>>
    decreases entries.len(),
{
    if entries.len() == 0 {
        seq![]
    } else {
        let before = selected_paths(entries.drop_last());
        if is_scannable(entries.last()) {
            before.push(entries.last().path)
        } else {
            before
        }
    }
}

/// The paths of the regular files among `entries`, in order. Entries of
/// another kind, and entries whose metadata cannot be read, are left out.
pub fn select_files(entries: &Vec<WalkEntry>) -> (paths: Vec<String>)
    ensures
        texts(paths@) == selected_paths(walk_views(entries@)),
{
    let ghost all = walk_views(entries@);
    let mut paths: Vec<String> = Vec::new();
    let mut i: usize = 0;
    while i < entries.len()
        invariant
            i <= entries.len(),
            all == walk_views(entries@),
            texts(paths@) == selected_paths(all.take(i as int)),
        decreases entries.len() - i,
    {
        proof {
            assert(all.take(i + 1).drop_last() =~= all.take(i as int));
        }
        let scannable = match entries[i].kind {
            Some(EntryKind::File) => true,
            _ => false,
        };
        if scannable {
            paths.push(entries[i].path.clone());
        }
        i += 1;
    }
    proof {
        assert(all.take(entries@.len() as int) =~= all);
    }
    paths
}

/// What a look at the root of the search found.
#[derive(Debug, Clone, Copy, PartialEq, Eq, Structural)]
pub enum RootStatus {
    /// There is no directory at the path.
    Missing,
    /// There is a directory, but it cannot be listed.
    Unreadable,
    /// There is a directory and it can be listed.
    Readable,
}

/// Why a run cannot scan under a root in the state `status`, if it cannot.
pub open spec fn root_refusal(status: RootStatus) -> Option<SearchErrorView> {
    match status {
        RootStatus::Missing => Some(SearchErrorView::RootNotFound),
        RootStatus::Unreadable => Some(SearchErrorView::RootNotReadable),
        RootStatus::Readable => None,
    }
}

/// Decides whether a run may go on to scan under its root.
pub fn check_root(status: RootStatus) -> (r: Result<(), SearchError>)
    ensures
        match r {
            Ok(_) => root_refusal(status) is None,
            Err(e) => Some(e@) == root_refusal(status),
        },
{
    match status {
        RootStatus::Missing => Err(SearchError::RootNotFound),
        RootStatus::Unreadable => Err(SearchError::RootNotReadable),
        RootStatus::Readable => Ok(()),
    }
}

} // verus!
