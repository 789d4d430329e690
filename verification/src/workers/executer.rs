//! The sequential executor: one target after the other, in the order given.

use vstd::prelude::*;
use crate::custom_error::{CustomError, CustomResult};
use crate::workers::facts::lemma_every_target_reported;
pub use crate::workers::structs::ExecutionResult;
use crate::workers::structs::{text_set, Event, InvocationOutcome, Report};

verus! {

/// The text of the path that joining `target` to `root` gives, where that path
/// can be written as text.
pub uninterp spec fn joined_path_text(root: Seq<char>, target: Seq<char>) -> Option<Seq<char>>;

/// Joins `target` to `root` with `std::path::Path::join` and reads the result
/// back with `Path::to_str`, which gives nothing where the path is not valid
/// Unicode. The result is a function of the two texts alone, fixed by the
/// path rules that the library is compiled for, and is known to the proofs
/// only by its name, `joined_path_text`.
#[verifier::external_body]
fn join_path(root: &String, target: &String) -> (r: Option<String>)
    ensures
        match r {
            Some(path) => joined_path_text(root@, target@) == Some(path@),
            None => joined_path_text(root@, target@) is None,
        },
{
    std::path::Path::new(root).join(target).to_str().map(String::from)
}

/// The directory in which the command runs for `target`: the target joined to
/// the root. Fails where the joined path cannot be written as text.
pub fn resolve_path(root: &String, target: &String) -> (r: CustomResult<String>)
    ensures
        match r {
            Ok(path) => joined_path_text(root@, target@) == Some(path@),
            Err(e) => e is PathBuildException && joined_path_text(root@, target@) is None,
        },
{
    match join_path(root, target) {
        Some(path) => Ok(path),
        None => Err(CustomError::PathBuildException),
    }
}

/// The directory of each of the first `n` targets can be written as text.
pub open spec fn resolvable(root: Seq<char>, targets: Seq<String>, n: int) -> bool {
    forall|i: int| 0 <= i < n ==> joined_path_text(root, (#[trigger] targets[i])@) is Some
}

/// What a sequential run learns: for each target in turn, how its invocation
/// went.
pub open spec fn run_events(targets: Seq<String>, outcomes: Seq<InvocationOutcome>) -> Seq<
    Event,
> {
    Seq::new(
        targets.len(),
        |i: int| Event::Finished { target: targets[i]@, detail: outcomes[i].failure_detail() },
    )
}

/// Runs one command in each of the targets below a root, one at a time.
pub struct Executer<'config> {
    pub root: &'config String,
    pub command: &'config String,
    pub repos: &'config Vec<String>,
}

impl<'config> Executer<'config> {
    pub fn new(
        root: &'config String,
        repos: &'config Vec<String>,
        command: &'config String,
    ) -> (r: Self)
        ensures
            r.root == root,
            r.repos == repos,
            r.command == command,
    {
        Executer { root, repos, command }
    }

    /// `outcome` is an answer of `invoke` for the `i`-th target: for the
    /// command, in that target's directory.
    pub open spec fn answer_at<F: Fn(&String, &String) -> InvocationOutcome>(
        &self,
        invoke: F,
        i: int,
        outcome: InvocationOutcome,
    ) -> bool {
        exists|directory: String|
            joined_path_text(self.root@, self.repos@[i]@) == Some(directory@)
                && #[trigger] invoke.ensures((&directory, self.command), outcome)
    }

    /// `outcomes` holds, target by target, an answer of `invoke`.
    pub open spec fn answered<F: Fn(&String, &String) -> InvocationOutcome>(
        &self,
        invoke: F,
        outcomes: Seq<InvocationOutcome>,
    ) -> bool {
        &&& outcomes.len() == self.repos@.len()
        &&& forall|i: int|
            0 <= i < outcomes.len() ==> self.answer_at(invoke, i, #[trigger] outcomes[i])
    }

    /// `invoke` can be called for every target: for the command, in that
    /// target's directory.
    pub open spec fn callable<F: Fn(&String, &String) -> InvocationOutcome>(
        &self,
        invoke: F,
    ) -> bool {
        forall|i: int, directory: &String|
            0 <= i < self.repos@.len() && joined_path_text(self.root@, (#[trigger] self.repos@[i])@)
                == Some(directory@) ==> #[trigger] invoke.requires((directory, self.command))
    }

    /// Runs the command for every target, in the order given: resolves the
    /// target's directory, has `invoke` run the command there, and notes the
    /// outcome. `invoke` is called once for each target, in the target's
    /// directory and with the command. A directory that cannot be written as
    /// text ends the run with an error; a failed command does not.
    pub fn execute<F: Fn(&String, &String) -> InvocationOutcome>(&self, invoke: F) -> (res:
        CustomResult<ExecutionResult>)
        requires
            self.callable(invoke),
        ensures
            match res {
                Ok(report) => {
                    &&& report.wf()
                    &&& resolvable(self.root@, self.repos@, self.repos@.len() as int)
                    &&& report@.succeeded.union(report@.failed.dom()) == text_set(self.repos@)
                    &&& report@.technical == Set::<Seq<char>>::empty()
                    &&& exists|outcomes: Seq<InvocationOutcome>|
                        #[trigger] self.answered(invoke, outcomes) && report@ == Report::gathered(
                            run_events(self.repos@, outcomes),
                        )
                },
                Err(e) => e is PathBuildException && !resolvable(
                    self.root@,
                    self.repos@,
                    self.repos@.len() as int,
                ),
            },
    {
        let mut report = ExecutionResult::new();
        let ghost mut outcomes: Seq<InvocationOutcome> = Seq::empty();
        let mut i: usize = 0;
        while i < self.repos.len()
            invariant
                i <= self.repos.len(),
                report.wf(),
                outcomes.len() == i,
                resolvable(self.root@, self.repos@, i as int),
                forall|j: int| 0 <= j < i ==> self.answer_at(invoke, j, #[trigger] outcomes[j]),
                report@ == Report::gathered(run_events(self.repos@.take(i as int), outcomes)),
                self.callable(invoke),
            decreases self.repos.len() - i,
        {
            let target = &self.repos[i];
            let directory = match resolve_path(self.root, target) {
                Ok(directory) => directory,
                Err(e) => {
                    assert(joined_path_text(self.root@, self.repos@[i as int]@) is None);
                    return Err(e);
                },
            };
            let outcome = invoke(&directory, self.command);
            report.record(target, &outcome);
            proof {
                let before = run_events(self.repos@.take(i as int), outcomes);
                assert(self.answer_at(invoke, i as int, outcome));
                outcomes = outcomes.push(outcome);
                let after = run_events(self.repos@.take(i + 1), outcomes);
                assert(after.drop_last() =~= before);
                assert(after.last() == Event::Finished {
                    target: target@,
                    detail: outcome.failure_detail(),
                });
            }
            i += 1;
        }
        proof {
            assert(self.repos@.take(i as int) =~= self.repos@);
            assert(self.answered(invoke, outcomes));
            lemma_every_target_reported(self.repos@, outcomes);
        }
        Ok(report)
    }
}

} // verus!
