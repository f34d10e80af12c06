//! The sink that gathers the matches of a run.

use crate::types::{entry_views, MatchEntry, MatchEntryView, Report};
use vstd::prelude::*;

verus! {

/// Collects entries in the order in which they are submitted. A run owns one
/// aggregator; whoever shares it between workers guards it with a lock, so
/// that submissions are taken one at a time.
pub struct Aggregator {
    matches: Vec<MatchEntry>,
}

impl View for Aggregator {
    type V = Seq<MatchEntryView>;

    /// The entries accepted so far, in order of submission.
    closed spec fn view(&self) -> Seq<MatchEntryView> {
        entry_views(self.matches@)
    }
}

impl Aggregator {
    /// An aggregator that holds nothing.
    pub fn new() -> (agg: Aggregator)
        ensures
            agg@ == Seq::<MatchEntryView>::empty(),
    {
        Aggregator { matches: Vec::new() }
    }

    /// Accepts one entry.
    pub fn submit(&mut self, entry: MatchEntry)
        ensures
            final(self)@ == old(self)@.push(entry@),
    {
        self.matches.push(entry);
    }

    /// Accepts the entries of one file, keeping their order.
    pub fn submit_all(&mut self, entries: Vec<MatchEntry>)
        ensures
            final(self)@ == old(self)@ + entry_views(entries@),
    {
        let mut entries = entries;
        self.matches.append(&mut entries);
    }

    /// The number of entries accepted so far.
    pub fn len(&self) -> (n: usize)
        ensures
            n == self@.len(),
    {
        self.matches.len()
    }

    /// Ends the collection and hands out the report of the run that searched
    /// for `pattern`: every accepted entry, in order of submission, and their
    /// count.
    pub fn snapshot(self, pattern: &str) -> (report: Report)
        ensures
            report.wf(),
            report@.pattern == pattern@,
            report@.matches == self@,
            report@.total_matches == self@.len(),
    {
        Report::new(pattern, self.matches)
    }
}

} // verus!
