//! The outcome of one invocation and the report of a whole run.

use vstd::prelude::*;
use crate::custom_error::{command_failure_text, CustomError};

verus! {

/// What a spawned shell left behind: its exit code, where it has one, and the
/// bytes it wrote.
#[derive(Debug)]
pub struct ProcessOutput {
    pub exit_code: Option<i32>,
    pub stdout: Vec<u8>,
    pub stderr: Vec<u8>,
}

/// The result of running the command once, for one target.
#[derive(Debug)]
pub enum InvocationOutcome {
    /// The command exited with status zero.
    Success { stdout: String, stderr: String },
    /// The command ran and exited with another status, or was killed.
    CommandFailed { exit_code: Option<i32>, stderr: String },
    /// The shell could not be started, or its status could not be had.
    InvocationError { reason: String },
}

/// The text that a permissive UTF-8 decoding gives for `bytes`: invalid
/// sequences are replaced, none is fatal.
pub uninterp spec fn lossy_text(bytes: Seq<u8>) -> Seq<char>;

/// Decodes bytes with `String::from_utf8_lossy`. The result is a function of
/// the bytes alone and is known to the proofs only by its name, `lossy_text`.
#[verifier::external_body]
fn decode_lossy(bytes: &Vec<u8>) -> (r: String)
    ensures
        r@ == lossy_text(bytes@),
{
    String::from_utf8_lossy(bytes).into_owned()
}

/// Whether `outcome` is what classifying `spawned` gives.
pub open spec fn classifies(
    spawned: Result<ProcessOutput, String>,
    outcome: InvocationOutcome,
) -> bool {
    match spawned {
        Err(description) => outcome matches InvocationOutcome::InvocationError { reason }
            && reason@ == description@,
        Ok(output) => if output.exit_code == Some(0i32) {
            outcome matches InvocationOutcome::Success { stdout, stderr }
                && stdout@ == lossy_text(output.stdout@)
                && stderr@ == lossy_text(output.stderr@)
        } else {
            outcome matches InvocationOutcome::CommandFailed { exit_code, stderr }
                && exit_code == output.exit_code
                && stderr@ == lossy_text(output.stderr@)
        },
    }
}

impl InvocationOutcome {
    /// The message of the failure, if the outcome is one.
    pub open spec fn failure_message(self) -> Option<Seq<char>> {
        match self {
            InvocationOutcome::Success { .. } => None,
            InvocationOutcome::CommandFailed { stderr, .. } => Some(stderr@),
            InvocationOutcome::InvocationError { reason } => Some(reason@),
        }
    }

    /// The detail under which a failure is reported, if the outcome is one.
    pub open spec fn failure_detail(self) -> Option<Seq<char>> {
        match self.failure_message() {
            None => None,
            Some(message) => Some(command_failure_text(message)),
        }
    }

    /// Classifies what came of spawning the shell: a failure to spawn is an
    /// invocation error, exit status zero is a success, anything else is a
    /// command failure that carries the decoded standard error.
    pub fn classify(spawned: Result<ProcessOutput, String>) -> (outcome: InvocationOutcome)
        ensures
            classifies(spawned, outcome),
    {
        match spawned {
            Err(description) => InvocationOutcome::InvocationError { reason: description },
            Ok(output) => {
                let stderr = decode_lossy(&output.stderr);
                match output.exit_code {
                    Some(0) => InvocationOutcome::Success {
                        stdout: decode_lossy(&output.stdout),
                        stderr,
                    },
                    _ => InvocationOutcome::CommandFailed { exit_code: output.exit_code, stderr },
                }
            },
        }
    }

    /// Whether the command exited with status zero.
    pub fn is_success(&self) -> (r: bool)
        ensures
            r == (self.failure_message() is None),
    {
        match self {
            InvocationOutcome::Success { .. } => true,
            _ => false,
        }
    }

    /// The error that a failed invocation is recorded with; none for a
    /// success.
    pub fn error(&self) -> (r: Option<CustomError>)
        ensures
            match r {
                None => self.failure_message() is None,
                Some(e) => e matches CustomError::CommandExecution(message)
                    && self.failure_message() == Some(message@),
            },
    {
        match self {
            InvocationOutcome::Success { .. } => None,
            InvocationOutcome::CommandFailed { stderr, .. } => Some(
                CustomError::CommandExecution(stderr.clone()),
            ),
            InvocationOutcome::InvocationError { reason } => Some(
                CustomError::CommandExecution(reason.clone()),
            ),
        }
    }
}

/// One thing that the engine learns while it gathers: a target's invocation
/// finished, with the detail of its failure if it failed, or a unit of work
/// was lost before it could say which target it ran for.
pub enum Event {
    Finished { target: Seq<char>, detail: Option<Seq<char>> },
    Lost { description: Seq<char> },
}

/// The report of a run as mathematics: the targets whose command succeeded,
/// the failed targets with their details, and the descriptions of lost units.
pub struct Report {
    pub succeeded: Set<Seq<char>>,
    pub failed: Map<Seq<char>, Seq<char>>,
    pub technical: Set<Seq<char>>,
}

impl Report {
    /// The report of a run in which nothing has happened yet.
    pub open spec fn empty() -> Report {
        Report { succeeded: Set::empty(), failed: Map::empty(), technical: Set::empty() }
    }

    /// The report after one more event.
    pub open spec fn record(self, event: Event) -> Report {
        match event {
            Event::Finished { target, detail: None } => Report {
                succeeded: self.succeeded.insert(target),
                ..self
            },
            Event::Finished { target, detail: Some(text) } => Report {
                failed: self.failed.insert(target, text),
                ..self
            },
            Event::Lost { description } => Report {
                technical: self.technical.insert(description),
                ..self
            },
        }
    }

    /// The report of a run in which `events` happened, in that order.
    pub open spec fn gathered(events: Seq<Event>) -> Report
        decreases events.len(),
    {
        if events.len() == 0 {
            Report::empty()
        } else {
            Report::gathered(events.drop_last()).record(events.last())
        }
    }
}

/// What the gatherer receives for one dispatched unit of work.
#[derive(Debug)]
pub enum Delivery {
    /// The unit ran to its end and says for which target, and how it went.
    Delivered { target: String, outcome: InvocationOutcome },
    /// The unit could not be joined; only a description of that is left.
    Lost { description: String },
}

impl View for Delivery {
    type V = Event;

    open spec fn view(&self) -> Event {
        match *self {
            Delivery::Delivered { target, outcome } => Event::Finished {
                target: target@,
                detail: outcome.failure_detail(),
            },
            Delivery::Lost { description } => Event::Lost { description: description@ },
        }
    }
}

/// The texts that occur in `list`.
pub open spec fn text_set(list: Seq<String>) -> Set<Seq<char>> {
    Set::new(|t: Seq<char>| exists|i: int| 0 <= i < list.len() && (#[trigger] list[i])@ == t)
}

/// No text occurs twice in `list`.
pub open spec fn distinct_texts(list: Seq<String>) -> bool {
    forall|i: int, j: int|
        0 <= i < j < list.len() ==> (#[trigger] list[i])@ != (#[trigger] list[j])@
}

/// Some entry of `list` has the key `key`.
pub open spec fn has_key(list: Seq<(String, String)>, key: Seq<char>) -> bool {
    exists|i: int| 0 <= i < list.len() && (#[trigger] list[i]).0@ == key
}

/// The place of an entry of `list` with the key `key`.
pub open spec fn key_index(list: Seq<(String, String)>, key: Seq<char>) -> int {
    choose|i: int| 0 <= i < list.len() && (#[trigger] list[i]).0@ == key
}

/// No key occurs twice in `list`.
pub open spec fn distinct_keys(list: Seq<(String, String)>) -> bool {
    forall|i: int, j: int|
        0 <= i < j < list.len() ==> (#[trigger] list[i]).0@ != (#[trigger] list[j]).0@
}

/// The mapping that `list` stands for: each key to the text beside it.
pub open spec fn text_map(list: Seq<(String, String)>) -> Map<Seq<char>, Seq<char>> {
    Map::new(|k: Seq<char>| has_key(list, k), |k: Seq<char>| list[key_index(list, k)].1@)
}

proof fn lemma_push_text_set(list: Seq<String>, item: String)
    ensures
        text_set(list.push(item)) =~= text_set(list).insert(item@),
{
    let longer = list.push(item);
    assert forall|t: Seq<char>| text_set(longer).contains(t) implies text_set(list).insert(
        item@,
    ).contains(t) by {
        let i = choose|i: int| 0 <= i < longer.len() && (#[trigger] longer[i])@ == t;
        if i < list.len() {
            assert(list[i]@ == t);
        }
    }
    assert forall|t: Seq<char>| text_set(list).insert(item@).contains(t) implies text_set(
        longer,
    ).contains(t) by {
        if t == item@ {
            assert(longer[list.len() as int]@ == t);
        } else {
            let i = choose|i: int| 0 <= i < list.len() && (#[trigger] list[i])@ == t;
            assert(longer[i]@ == t);
        }
    }
}

proof fn lemma_key_index(list: Seq<(String, String)>, i: int)
    requires
        distinct_keys(list),
        0 <= i < list.len(),
    ensures
        has_key(list, list[i].0@),
        key_index(list, list[i].0@) == i,
{
    assert(has_key(list, list[i].0@));
    let j = key_index(list, list[i].0@);
    assert(list[j].0@ == list[i].0@);
}

proof fn lemma_push_text_map(list: Seq<(String, String)>, key: String, text: String)
    requires
        distinct_keys(list),
        !has_key(list, key@),
    ensures
        distinct_keys(list.push((key, text))),
        text_map(list.push((key, text))) =~= text_map(list).insert(key@, text@),
{
    let longer = list.push((key, text));
    let wanted = text_map(list).insert(key@, text@);
    assert forall|i: int, j: int| 0 <= i < j < longer.len() implies (#[trigger] longer[i]).0@ != (
    #[trigger] longer[j]).0@ by {
        assert(longer[i] == list[i]);
        if j < list.len() {
            assert(longer[j] == list[j]);
        }
    }
    assert forall|q: Seq<char>| has_key(longer, q) <==> wanted.dom().contains(q) by {
        if has_key(longer, q) {
            let i = key_index(longer, q);
            if i < list.len() {
                assert(list[i].0@ == q);
            }
        }
        if has_key(list, q) {
            let j = key_index(list, q);
            assert(longer[j].0@ == q);
        }
        if q == key@ {
            assert(longer[list.len() as int].0@ == q);
        }
    }
    assert forall|q: Seq<char>| has_key(longer, q) implies text_map(longer)[q] == wanted[q] by {
        let i = key_index(longer, q);
        lemma_key_index(longer, i);
        if i < list.len() {
            assert(longer[i] == list[i]);
            lemma_key_index(list, i);
        }
    }
}

proof fn lemma_update_text_map(list: Seq<(String, String)>, at: int, key: String, text: String)
    requires
        distinct_keys(list),
        0 <= at < list.len(),
        list[at].0@ == key@,
    ensures
        distinct_keys(list.update(at, (key, text))),
        text_map(list.update(at, (key, text))) =~= text_map(list).insert(key@, text@),
{
    let changed = list.update(at, (key, text));
    let wanted = text_map(list).insert(key@, text@);
    assert forall|i: int| 0 <= i < list.len() implies (#[trigger] changed[i]).0@ == list[i].0@ by {}
    assert forall|i: int, j: int| 0 <= i < j < changed.len() implies (#[trigger] changed[i]).0@
        != (#[trigger] changed[j]).0@ by {
        assert(changed[i].0@ == list[i].0@);
        assert(changed[j].0@ == list[j].0@);
    }
    assert forall|q: Seq<char>| has_key(changed, q) <==> wanted.dom().contains(q) by {
        if has_key(changed, q) {
            let i = key_index(changed, q);
            assert(list[i].0@ == q);
        }
        if has_key(list, q) {
            let j = key_index(list, q);
            assert(changed[j].0@ == q);
        }
        if q == key@ {
            assert(changed[at].0@ == q);
        }
    }
    assert forall|q: Seq<char>| has_key(changed, q) implies text_map(changed)[q] == wanted[q] by {
        let i = key_index(changed, q);
        lemma_key_index(changed, i);
        assert(list[i].0@ == q);
        lemma_key_index(list, i);
        if i != at {
            assert(changed[i] == list[i]);
        }
    }
}

/// The place of `text` in `list`, if it occurs there.
fn position(list: &Vec<String>, text: &String) -> (r: Option<usize>)
    ensures
        match r {
            Some(i) => i < list.len() && list[i as int]@ == text@,
            None => !text_set(list@).contains(text@),
        },
{
    let mut i: usize = 0;
    while i < list.len()
        invariant
            i <= list.len(),
            forall|j: int| 0 <= j < i ==> (#[trigger] list[j])@ != text@,
        decreases list.len() - i,
    {
        if list[i] == *text {
            return Some(i);
        }
        i += 1;
    }
    None
}

/// The place of the entry of `list` with the key `key`, if there is one.
fn key_position(list: &Vec<(String, String)>, key: &String) -> (r: Option<usize>)
    ensures
        match r {
            Some(i) => i < list.len() && list[i as int].0@ == key@,
            None => !has_key(list@, key@),
        },
{
    let mut i: usize = 0;
    while i < list.len()
        invariant
            i <= list.len(),
            forall|j: int| 0 <= j < i ==> (#[trigger] list[j]).0@ != key@,
        decreases list.len() - i,
    {
        if list[i].0 == *key {
            return Some(i);
        }
        i += 1;
    }
    None
}

/// The final report of a run. Each list stands for a set, `failed` for a
/// mapping from target to error detail: no target occurs twice in one list.
#[derive(Debug)]
pub struct ExecutionResult {
    pub failed: Vec<(String, String)>,
    pub succeed: Vec<String>,
    pub technical: Vec<String>,
}

impl View for ExecutionResult {
    type V = Report;

    open spec fn view(&self) -> Report {
        Report {
            succeeded: text_set(self.succeed@),
            failed: text_map(self.failed@),
            technical: text_set(self.technical@),
        }
    }
}

impl ExecutionResult {
    /// The lists hold nothing twice.
    pub open spec fn wf(&self) -> bool {
        &&& distinct_texts(self.succeed@)
        &&& distinct_keys(self.failed@)
        &&& distinct_texts(self.technical@)
    }

    /// The report of a run in which nothing has happened yet.
    pub fn new() -> (r: ExecutionResult)
        ensures
            r.wf(),
            r@ == Report::empty(),
    {
        let r = ExecutionResult { failed: Vec::new(), succeed: Vec::new(), technical: Vec::new() };
        assert(r@.succeeded =~= Set::empty());
        assert(r@.technical =~= Set::empty());
        assert(r@.failed =~= Map::empty());
        r
    }

    /// Notes that the command succeeded for `target`.
    pub fn record_success(&mut self, target: &String)
        requires
            old(self).wf(),
        ensures
            final(self).wf(),
            final(self)@ == old(self)@.record(Event::Finished { target: target@, detail: None }),
    {
        if position(&self.succeed, target).is_none() {
            proof {
                lemma_push_text_set(self.succeed@, *target);
            }
            self.succeed.push(target.clone());
        } else {
            assert(text_set(self.succeed@).insert(target@) =~= text_set(self.succeed@));
        }
    }

    /// Notes that the command failed for `target`, with `detail`. A detail
    /// noted earlier for the same target is replaced.
    pub fn record_failure(&mut self, target: &String, detail: String)
        requires
            old(self).wf(),
        ensures
            final(self).wf(),
            final(self)@ == old(self)@.record(
                Event::Finished { target: target@, detail: Some(detail@) },
            ),
    {
        let key = target.clone();
        match key_position(&self.failed, target) {
            Some(at) => {
                proof {
                    lemma_update_text_map(self.failed@, at as int, key, detail);
                }
                self.failed.set(at, (key, detail));
            },
            None => {
                proof {
                    lemma_push_text_map(self.failed@, key, detail);
                }
                self.failed.push((key, detail));
            },
        }
    }

    /// Notes that a unit of work was lost, with the description of how.
    pub fn record_technical(&mut self, description: &String)
        requires
            old(self).wf(),
        ensures
            final(self).wf(),
            final(self)@ == old(self)@.record(Event::Lost { description: description@ }),
    {
        if position(&self.technical, description).is_none() {
            proof {
                lemma_push_text_set(self.technical@, *description);
            }
            self.technical.push(description.clone());
        } else {
            assert(text_set(self.technical@).insert(description@) =~= text_set(self.technical@));
        }
    }

    /// Notes how the command went for `target`: a success among the
    /// succeeded, a failure among the failed, under the text of its error.
    pub fn record(&mut self, target: &String, outcome: &InvocationOutcome)
        requires
            old(self).wf(),
        ensures
            final(self).wf(),
            final(self)@ == old(self)@.record(
                Event::Finished { target: target@, detail: outcome.failure_detail() },
            ),
    {
        match outcome.error() {
            None => self.record_success(target),
            Some(e) => {
                let detail = e.to_string();
                self.record_failure(target, detail)
            },
        }
    }

    /// Notes what was received for one unit of work.
    pub fn record_delivery(&mut self, delivery: &Delivery)
        requires
            old(self).wf(),
        ensures
            final(self).wf(),
            final(self)@ == old(self)@.record(delivery@),
    {
        match delivery {
            Delivery::Delivered { target, outcome } => self.record(target, outcome),
            Delivery::Lost { description } => self.record_technical(description),
        }
    }

    /// Whether the command succeeded for `target`.
    pub fn is_succeeded(&self, target: &String) -> (r: bool)
        ensures
            r == self@.succeeded.contains(target@),
    {
        position(&self.succeed, target).is_some()
    }

    /// The detail with which the command failed for `target`, if it did.
    pub fn failure_of(&self, target: &String) -> (r: Option<String>)
        requires
            self.wf(),
        ensures
            match r {
                Some(detail) => self@.failed.contains_key(target@) && self@.failed[target@]
                    == detail@,
                None => !self@.failed.contains_key(target@),
            },
    {
        match key_position(&self.failed, target) {
            Some(at) => {
                proof {
                    lemma_key_index(self.failed@, at as int);
                }
                Some(self.failed[at].1.clone())
            },
            None => None,
        }
    }

    /// Whether a lost unit of work was noted with `description`.
    pub fn is_technical(&self, description: &String) -> (r: bool)
        ensures
            r == self@.technical.contains(description@),
    {
        position(&self.technical, description).is_some()
    }
}

} // verus!
