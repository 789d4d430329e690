//! The configuration of a run, as plain values.

use vstd::prelude::*;

verus! {

/// How much the logger lets through.
#[derive(Debug, Clone, Copy, PartialEq, Eq)]
pub enum LogLevel {
    Debug,
    Info,
    Warn,
    Error,
}

/// The targets of a run, in the order in which they were configured.
#[derive(Debug)]
pub struct WorkersConfig {
    pub workers: Vec<String>,
}

#[derive(Debug)]
pub struct LoggerConfig {
    pub log_level: LogLevel,
}

/// Everything a run is configured with.
#[derive(Debug)]
pub struct Data {
    pub root: String,
    pub command: String,
    pub repos: WorkersConfig,
    pub logger: LoggerConfig,
    pub parallel: bool,
}

/// `copy` holds the texts of `list`, one for one.
pub open spec fn same_texts(list: Seq<String>, copy: Seq<String>) -> bool {
    &&& copy.len() == list.len()
    &&& forall|i: int| 0 <= i < list.len() ==> (#[trigger] copy[i])@ == list[i]@
}

impl WorkersConfig {
    /// The configured targets, copied, in their order.
    pub fn get_repos_list(&self) -> (repos: Vec<String>)
        ensures
            same_texts(self.workers@, repos@),
    {
        let mut repos: Vec<String> = Vec::with_capacity(self.workers.len());
        let mut i: usize = 0;
        while i < self.workers.len()
            invariant
                i <= self.workers.len(),
                same_texts(self.workers@.take(i as int), repos@),
            decreases self.workers.len() - i,
        {
            repos.push(self.workers[i].clone());
            i += 1;
        }
        assert(self.workers@.take(i as int) =~= self.workers@);
        repos
    }
}

} // verus!
