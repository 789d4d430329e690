//! The concurrent executor: every target is dispatched at once, and what
//! comes back is gathered in the order in which it arrives.

use vstd::prelude::*;
use crate::custom_error::CustomResult;
use crate::workers::executer::{joined_path_text, resolvable, resolve_path};
use crate::workers::structs::{Delivery, Event, ExecutionResult, Report};

verus! {

/// One unit of work: the target it runs for and the directory it runs in.
#[derive(Debug)]
pub struct WorkUnit {
    pub target: String,
    pub directory: String,
}

/// The events that `deliveries` stand for, one for one.
pub open spec fn delivered_events(deliveries: Seq<Delivery>) -> Seq<Event> {
    Seq::new(deliveries.len(), |i: int| deliveries[i]@)
}

/// Runs one command in each of the targets below a root, all at once.
pub struct ParallelExecuter<'config> {
    pub root: &'config String,
    pub command: &'config String,
    pub repos: &'config Vec<String>,
}

impl<'config> ParallelExecuter<'config> {
    pub fn new(
        root: &'config String,
        repos: &'config Vec<String>,
        command: &'config String,
    ) -> (r: Self)
        ensures
            r.root == root,
            r.repos == repos,
            r.command == command,
    {
        ParallelExecuter { root, repos, command }
    }

    /// `units` holds one unit for each of the first `n` targets, in order,
    /// each with the target's directory.
    pub open spec fn units_for(&self, units: Seq<WorkUnit>, n: int) -> bool {
        &&& units.len() == n
        &&& forall|i: int|
            0 <= i < n ==> (#[trigger] units[i]).target@ == self.repos@[i]@
                && joined_path_text(self.root@, self.repos@[i]@) == Some(units[i].directory@)
    }

    /// Resolves the directory of every target, in the order given, and hands
    /// back one unit of work for each. A directory that cannot be written as
    /// text ends the run with an error, and no unit is handed back.
    pub fn dispatch(&self) -> (res: CustomResult<Vec<WorkUnit>>)
        ensures
            match res {
                Ok(units) => self.units_for(units@, self.repos@.len() as int),
                Err(e) => e is PathBuildException && !resolvable(
                    self.root@,
                    self.repos@,
                    self.repos@.len() as int,
                ),
            },
    {
        let mut units: Vec<WorkUnit> = Vec::new();
        let mut i: usize = 0;
        while i < self.repos.len()
            invariant
                i <= self.repos.len(),
                self.units_for(units@, i as int),
            decreases self.repos.len() - i,
        {
            let target = &self.repos[i];
            let directory = match resolve_path(self.root, target) {
                Ok(directory) => directory,
                Err(e) => {
                    assert(joined_path_text(self.root@, self.repos@[i as int]@) is None);
                    return Err(e);
                },
            };
            units.push(WorkUnit { target: target.clone(), directory });
            i += 1;
        }
        Ok(units)
    }

    /// Runs the command for every target at once: resolves every directory,
    /// hands all the units and the command to `run_all`, which runs them as it
    /// sees fit and hands back what it received, in the order of arrival, and
    /// gathers that. A directory that cannot be written as text ends the run
    /// with an error before `run_all` is called.
    pub fn execute<F: FnOnce(Vec<WorkUnit>, &String) -> Vec<Delivery>>(&self, run_all: F) -> (res:
        CustomResult<ExecutionResult>)
        requires
            forall|units: Vec<WorkUnit>|
                self.units_for(units@, self.repos@.len() as int) ==> #[trigger] run_all.requires(
                    (units, self.command),
                ),
        ensures
            match res {
                Ok(report) => {
                    &&& report.wf()
                    &&& exists|units: Vec<WorkUnit>, deliveries: Vec<Delivery>|
                        self.units_for(units@, self.repos@.len() as int)
                            && #[trigger] run_all.ensures((units, self.command), deliveries)
                            && report@ == Report::gathered(delivered_events(deliveries@))
                },
                Err(e) => e is PathBuildException && !resolvable(
                    self.root@,
                    self.repos@,
                    self.repos@.len() as int,
                ),
            },
    {
        let units = match self.dispatch() {
            Ok(units) => units,
            Err(e) => {
                return Err(e);
            },
        };
        let ghost dispatched = units;
        let deliveries = run_all(units, self.command);
        let report = Self::gather(&deliveries);
        assert(run_all.ensures((dispatched, self.command), deliveries));
        Ok(report)
    }

    /// Gathers what was received for the dispatched units, in the order of
    /// arrival: a lost unit among the technical failures, under its
    /// description; a delivered one by its outcome, under its target.
    pub fn gather(deliveries: &Vec<Delivery>) -> (report: ExecutionResult)
        ensures
            report.wf(),
            report@ == Report::gathered(delivered_events(deliveries@)),
    {
        let mut report = ExecutionResult::new();
        let mut i: usize = 0;
        while i < deliveries.len()
            invariant
                i <= deliveries.len(),
                report.wf(),
                report@ == Report::gathered(delivered_events(deliveries@.take(i as int))),
            decreases deliveries.len() - i,
        {
            report.record_delivery(&deliveries[i]);
            proof {
                let before = delivered_events(deliveries@.take(i as int));
                let after = delivered_events(deliveries@.take(i + 1));
                assert(after.drop_last() =~= before);
                assert(after.last() == deliveries@[i as int]@);
            }
            i += 1;
        }
        proof {
            assert(deliveries@.take(i as int) =~= deliveries@);
        }
        report
    }
}

} // verus!
