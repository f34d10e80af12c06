//! The queue from which the workers of a run take their files.

use crate::text::texts;
use vstd::prelude::*;

verus! {

/// The files of a run, handed out one at a time. Workers share one queue
/// behind a lock and pull from it until it is exhausted; each pull is one
/// step, so every file goes to exactly one worker.
pub struct WorkQueue {
    files: Vec<String>,
    next: usize,
}

impl WorkQueue {
    #[verifier::type_invariant]
    spec fn within(&self) -> bool {
        self.next <= self.files@.len()
    }

    /// All files of the run, in the order in which they are handed out.
    pub closed spec fn files(&self) -> Seq<Seq<char>> {
        Seq::new(self.files@.len(), |i: int| self.files@[i]@)
    }

    /// How many files have been handed out.
    pub closed spec fn delivered(&self) -> nat {
        self.next as nat
    }

    /// A queue that holds `files` and has handed out none.
    pub fn new(files: Vec<String>) -> (queue: WorkQueue)
        ensures
            queue.files() == texts(files@),
            queue.delivered() == 0,
    {
        let queue = WorkQueue { files, next: 0 };
        queue
    }

    /// Hands out the next file that has not been handed out yet, or nothing
    /// once all have been.
    pub fn pull(&mut self) -> (file: Option<String>)
        ensures
            final(self).files() == old(self).files(),
            match file {
                Some(path) => {
                    &&& old(self).delivered() < old(self).files().len()
                    &&& path@ == old(self).files()[old(self).delivered() as int]
                    &&& final(self).delivered() == old(self).delivered() + 1
                },
                None => {
                    &&& old(self).delivered() >= old(self).files().len()
                    &&& final(self).delivered() == old(self).delivered()
                },
            },
    {
        proof {
            use_type_invariant(&*self);
        }
        if self.next < self.files.len() {
            let path = self.files[self.next].clone();
            self.next = self.next + 1;
            Some(path)
        } else {
            None
        }
    }

    /// Hands out all files that have not been handed out yet, in order.
    pub fn drain(&mut self) -> (rest: Vec<String>)
        ensures
            final(self).files() == old(self).files(),
            old(self).delivered() <= old(self).files().len(),
            final(self).delivered() == old(self).files().len(),
            texts(rest@) == old(self).files().skip(old(self).delivered() as int),
    {
        proof {
            use_type_invariant(&*self);
        }
        let mut rest: Vec<String> = Vec::new();
        loop
            invariant_except_break
                self.files() == old(self).files(),
                old(self).delivered() <= self.delivered() <= self.files().len(),
                texts(rest@) == old(self).files().subrange(
                    old(self).delivered() as int,
                    self.delivered() as int,
                ),
            ensures
                self.files() == old(self).files(),
                old(self).delivered() <= old(self).files().len(),
                self.delivered() == old(self).files().len(),
                texts(rest@) == old(self).files().skip(old(self).delivered() as int),
            decreases self.files().len() - self.delivered(),
        {
            let ghost had = texts(rest@);
            match self.pull() {
                Some(path) => {
                    rest.push(path);
                    proof {
                        assert(texts(rest@) =~= had.push(path@));
                    }
                },
                None => {
                    break ;
                },
            }
        }
        rest
    }

    /// How many files are still to be handed out.
    pub fn remaining(&self) -> (n: usize)
        ensures
            self.delivered() <= self.files().len(),
            n == self.files().len() - self.delivered(),
    {
        proof {
            use_type_invariant(self);
        }
        self.files.len() - self.next
    }
}

} // verus!
