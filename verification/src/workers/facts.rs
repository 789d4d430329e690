//! What holds of every report, proved from the way a report is gathered.

use vstd::prelude::*;
use crate::custom_error::command_failure_text;
use crate::workers::executer::{run_events, Executer};
use crate::workers::structs::{distinct_texts, text_set, Event, InvocationOutcome, Report};

verus! {

/// `event` says that the command succeeded for `target`.
pub open spec fn is_success_of(event: Event, target: Seq<char>) -> bool {
    event == (Event::Finished { target, detail: None })
}

/// `event` says that the command failed for `target`.
pub open spec fn is_failure_of(event: Event, target: Seq<char>) -> bool {
    event matches Event::Finished { target: t, detail: Some(_) } && t == target
}

/// Some event says that the command succeeded for `target`.
pub open spec fn succeeded_in(events: Seq<Event>, target: Seq<char>) -> bool {
    exists|i: int| 0 <= i < events.len() && is_success_of(#[trigger] events[i], target)
}

/// Some event says that the command failed for `target`.
pub open spec fn failed_in(events: Seq<Event>, target: Seq<char>) -> bool {
    exists|i: int| 0 <= i < events.len() && is_failure_of(#[trigger] events[i], target)
}

/// Some event says that the command failed for `target`, with `detail`.
pub open spec fn failed_with(events: Seq<Event>, target: Seq<char>, detail: Seq<char>) -> bool {
    exists|i: int|
        0 <= i < events.len() && #[trigger] events[i] == (Event::Finished {
            target,
            detail: Some(detail),
        })
}

/// Some event says that a unit was lost, with `description`.
pub open spec fn lost_in(events: Seq<Event>, description: Seq<char>) -> bool {
    exists|i: int|
        0 <= i < events.len() && #[trigger] events[i] == (Event::Lost { description })
}

/// No two events speak of the same target.
pub open spec fn distinct_targets(events: Seq<Event>) -> bool {
    forall|i: int, j: int|
        0 <= i < j < events.len() ==> !((#[trigger] events[i]) is Finished
            && (#[trigger] events[j]) is Finished && events[i]->target == events[j]->target)
}

/// The number of events that say that a unit was lost.
pub open spec fn lost_count(events: Seq<Event>) -> nat
    decreases events.len(),
{
    if events.len() == 0 {
        0
    } else {
        lost_count(events.drop_last()) + if events.last() is Lost {
            1nat
        } else {
            0nat
        }
    }
}

/// A report holds what the events say and nothing else: a target is among the
/// succeeded exactly if some event says that it succeeded, among the failed
/// exactly if some event says that it failed, and then with the detail of one
/// such event; a description is among the technical failures exactly if some
/// event says that a unit was lost with it.
pub proof fn lemma_report_holds_what_events_say(events: Seq<Event>)
    ensures
        forall|t: Seq<char>|
            Report::gathered(events).succeeded.contains(t) <==> succeeded_in(events, t),
        forall|t: Seq<char>|
            Report::gathered(events).failed.contains_key(t) <==> failed_in(events, t),
        forall|t: Seq<char>| #[trigger]
            Report::gathered(events).failed.contains_key(t) ==> failed_with(
                events,
                t,
                Report::gathered(events).failed[t],
            ),
        forall|d: Seq<char>| Report::gathered(events).technical.contains(d) <==> lost_in(events, d),
    decreases events.len(),
{
    if events.len() > 0 {
        let prefix = events.drop_last();
        let n = events.len() - 1;
        let last = events.last();
        let before = Report::gathered(prefix);
        let after = Report::gathered(events);
        lemma_report_holds_what_events_say(prefix);
        assert(after == before.record(last));
        assert forall|i: int| 0 <= i < n implies #[trigger] prefix[i] == events[i] by {}
        assert forall|t: Seq<char>| after.succeeded.contains(t) <==> succeeded_in(events, t) by {
            if after.succeeded.contains(t) {
                if before.succeeded.contains(t) {
                    assert(succeeded_in(prefix, t));
                    let i = choose|i: int| 0 <= i < n && is_success_of(#[trigger] prefix[i], t);
                    assert(is_success_of(events[i], t));
                } else {
                    assert(is_success_of(events[n], t));
                }
            }
            if succeeded_in(events, t) {
                let i = choose|i: int|
                    0 <= i < events.len() && is_success_of(#[trigger] events[i], t);
                if i < n {
                    assert(is_success_of(prefix[i], t));
                    assert(succeeded_in(prefix, t));
                }
            }
        }
        assert forall|t: Seq<char>| after.failed.contains_key(t) <==> failed_in(events, t) by {
            if after.failed.contains_key(t) {
                if before.failed.contains_key(t) {
                    assert(failed_in(prefix, t));
                    let i = choose|i: int| 0 <= i < n && is_failure_of(#[trigger] prefix[i], t);
                    assert(is_failure_of(events[i], t));
                } else {
                    assert(is_failure_of(events[n], t));
                }
            }
            if failed_in(events, t) {
                let i = choose|i: int|
                    0 <= i < events.len() && is_failure_of(#[trigger] events[i], t);
                if i < n {
                    assert(is_failure_of(prefix[i], t));
                    assert(failed_in(prefix, t));
                }
            }
        }
        assert forall|t: Seq<char>| #[trigger] after.failed.contains_key(t) implies failed_with(
            events,
            t,
            after.failed[t],
        ) by {
            if is_failure_of(last, t) {
                assert(events[n] == (Event::Finished { target: t, detail: Some(after.failed[t]) }));
            } else {
                assert(before.failed.contains_key(t));
                assert(after.failed[t] == before.failed[t]);
                assert(failed_with(prefix, t, before.failed[t]));
                let i = choose|i: int|
                    0 <= i < n && #[trigger] prefix[i] == (Event::Finished {
                        target: t,
                        detail: Some(before.failed[t]),
                    });
                assert(events[i] == prefix[i]);
            }
        }
        assert forall|d: Seq<char>| after.technical.contains(d) <==> lost_in(events, d) by {
            if after.technical.contains(d) {
                if before.technical.contains(d) {
                    assert(lost_in(prefix, d));
                    let i = choose|i: int|
                        0 <= i < n && #[trigger] prefix[i] == (Event::Lost { description: d });
                    assert(events[i] == prefix[i]);
                } else {
                    assert(events[n] == (Event::Lost { description: d }));
                }
            }
            if lost_in(events, d) {
                let i = choose|i: int|
                    0 <= i < events.len() && #[trigger] events[i] == (Event::Lost {
                        description: d,
                    });
                if i < n {
                    assert(prefix[i] == events[i]);
                    assert(lost_in(prefix, d));
                }
            }
        }
    }
}

/// Where the command succeeds for every target, the succeeded are all the
/// targets, and nothing is among the failed or the technical failures.
pub proof fn lemma_all_succeed(targets: Seq<String>, outcomes: Seq<InvocationOutcome>)
    requires
        outcomes.len() == targets.len(),
        forall|i: int| 0 <= i < outcomes.len() ==> (#[trigger] outcomes[i]).failure_message() is None,
    ensures
        Report::gathered(run_events(targets, outcomes)).succeeded == text_set(targets),
        Report::gathered(run_events(targets, outcomes)).failed == Map::<
            Seq<char>,
            Seq<char>,
        >::empty(),
        Report::gathered(run_events(targets, outcomes)).technical == Set::<Seq<char>>::empty(),
{
    let events = run_events(targets, outcomes);
    let report = Report::gathered(events);
    lemma_report_holds_what_events_say(events);
    assert forall|t: Seq<char>| report.succeeded.contains(t) <==> text_set(targets).contains(
        t,
    ) by {
        if succeeded_in(events, t) {
            let i = choose|i: int| 0 <= i < events.len() && is_success_of(#[trigger] events[i], t);
            assert(targets[i]@ == t);
        }
        if text_set(targets).contains(t) {
            let i = choose|i: int| 0 <= i < targets.len() && (#[trigger] targets[i])@ == t;
            assert(outcomes[i].failure_message() is None);
            assert(is_success_of(events[i], t));
        }
    }
    assert forall|t: Seq<char>| !report.failed.contains_key(t) by {
        if failed_in(events, t) {
            let i = choose|i: int| 0 <= i < events.len() && is_failure_of(#[trigger] events[i], t);
            assert(outcomes[i].failure_message() is None);
        }
    }
    assert forall|d: Seq<char>| !report.technical.contains(d) by {
        if lost_in(events, d) {
            let i = choose|i: int|
                0 <= i < events.len() && #[trigger] events[i] == (Event::Lost { description: d });
        }
    }
    assert(report.succeeded =~= text_set(targets));
    assert(report.failed =~= Map::<Seq<char>, Seq<char>>::empty());
    assert(report.technical =~= Set::<Seq<char>>::empty());
}

/// Where the command fails for every target, the failed are all the targets,
/// each with a detail that is not empty, and nothing is among the succeeded
/// or the technical failures.
pub proof fn lemma_all_fail(targets: Seq<String>, outcomes: Seq<InvocationOutcome>)
    requires
        outcomes.len() == targets.len(),
        forall|i: int| 0 <= i < outcomes.len() ==> (#[trigger] outcomes[i]).failure_message() is Some,
    ensures
        Report::gathered(run_events(targets, outcomes)).succeeded == Set::<Seq<char>>::empty(),
        Report::gathered(run_events(targets, outcomes)).failed.dom() == text_set(targets),
        forall|t: Seq<char>| #[trigger]
            Report::gathered(run_events(targets, outcomes)).failed.contains_key(t)
                ==> Report::gathered(run_events(targets, outcomes)).failed[t].len() > 0,
        Report::gathered(run_events(targets, outcomes)).technical == Set::<Seq<char>>::empty(),
{
    let events = run_events(targets, outcomes);
    let report = Report::gathered(events);
    lemma_report_holds_what_events_say(events);
    assert forall|t: Seq<char>| report.failed.dom().contains(t) <==> text_set(targets).contains(
        t,
    ) by {
        if failed_in(events, t) {
            let i = choose|i: int| 0 <= i < events.len() && is_failure_of(#[trigger] events[i], t);
            assert(targets[i]@ == t);
        }
        if text_set(targets).contains(t) {
            let i = choose|i: int| 0 <= i < targets.len() && (#[trigger] targets[i])@ == t;
            assert(outcomes[i].failure_message() is Some);
            assert(is_failure_of(events[i], t));
        }
    }
    assert forall|t: Seq<char>| !report.succeeded.contains(t) by {
        if succeeded_in(events, t) {
            let i = choose|i: int| 0 <= i < events.len() && is_success_of(#[trigger] events[i], t);
            assert(outcomes[i].failure_message() is Some);
        }
    }
    assert forall|t: Seq<char>| #[trigger] report.failed.contains_key(t) implies report.failed[t].len()
        > 0 by {
        let detail = report.failed[t];
        assert(failed_with(events, t, detail));
        let i = choose|i: int|
            0 <= i < events.len() && #[trigger] events[i] == (Event::Finished {
                target: t,
                detail: Some(detail),
            });
        let message = outcomes[i].failure_message().unwrap();
        assert(detail == command_failure_text(message));
        reveal_strlit("CommandExecution(");
    }
    assert forall|d: Seq<char>| !report.technical.contains(d) by {
        if lost_in(events, d) {
            let i = choose|i: int|
                0 <= i < events.len() && #[trigger] events[i] == (Event::Lost { description: d });
        }
    }
    assert(report.succeeded =~= Set::<Seq<char>>::empty());
    assert(report.failed.dom() =~= text_set(targets));
    assert(report.technical =~= Set::<Seq<char>>::empty());
}

/// No target is both among the succeeded and among the failed, where no two
/// events speak of the same target.
pub proof fn lemma_buckets_disjoint(events: Seq<Event>)
    requires
        distinct_targets(events),
    ensures
        Report::gathered(events).succeeded.disjoint(Report::gathered(events).failed.dom()),
{
    let report = Report::gathered(events);
    lemma_report_holds_what_events_say(events);
    assert forall|t: Seq<char>|
        !(report.succeeded.contains(t) && report.failed.dom().contains(t)) by {
        if succeeded_in(events, t) && failed_in(events, t) {
            let i = choose|i: int| 0 <= i < events.len() && is_success_of(#[trigger] events[i], t);
            let j = choose|j: int| 0 <= j < events.len() && is_failure_of(#[trigger] events[j], t);
            assert(i != j);
            if i < j {
                assert(events[i]->target == events[j]->target);
            } else {
                assert(events[j]->target == events[i]->target);
            }
        }
    }
}

/// In a sequential run over targets of which none is given twice, no two
/// events speak of the same target.
pub proof fn lemma_run_events_distinct(targets: Seq<String>, outcomes: Seq<InvocationOutcome>)
    requires
        distinct_texts(targets),
    ensures
        distinct_targets(run_events(targets, outcomes)),
{
    let events = run_events(targets, outcomes);
    assert forall|i: int, j: int| 0 <= i < j < events.len() implies !((#[trigger] events[i])
        is Finished && (#[trigger] events[j]) is Finished && events[i]->target
        == events[j]->target) by {
        assert(targets[i]@ != targets[j]@);
    }
}

/// Each target is reported by its own outcome, whatever came of the others:
/// where none is given twice, a target whose command succeeded is among the
/// succeeded and not among the failed, and one whose command failed is among
/// the failed, with the detail of its own failure, and not among the
/// succeeded.
pub proof fn lemma_target_reported_by_its_outcome(
    targets: Seq<String>,
    outcomes: Seq<InvocationOutcome>,
    i: int,
)
    requires
        distinct_texts(targets),
        outcomes.len() == targets.len(),
        0 <= i < targets.len(),
    ensures
        match outcomes[i].failure_detail() {
            None => Report::gathered(run_events(targets, outcomes)).succeeded.contains(targets[i]@)
                && !Report::gathered(run_events(targets, outcomes)).failed.contains_key(
                targets[i]@,
            ),
            Some(detail) => !Report::gathered(run_events(targets, outcomes)).succeeded.contains(
                targets[i]@,
            ) && Report::gathered(run_events(targets, outcomes)).failed.contains_key(targets[i]@)
                && Report::gathered(run_events(targets, outcomes)).failed[targets[i]@] == detail,
        },
{
    let events = run_events(targets, outcomes);
    let report = Report::gathered(events);
    let t = targets[i]@;
    lemma_report_holds_what_events_say(events);
    lemma_run_events_distinct(targets, outcomes);
    lemma_buckets_disjoint(events);
    match outcomes[i].failure_detail() {
        None => {
            assert(is_success_of(events[i], t));
            assert(succeeded_in(events, t));
        },
        Some(detail) => {
            assert(is_failure_of(events[i], t));
            assert(failed_in(events, t));
            assert(report.failed.contains_key(t));
            assert(failed_with(events, t, report.failed[t]));
            let j = choose|j: int|
                0 <= j < events.len() && #[trigger] events[j] == (Event::Finished {
                    target: t,
                    detail: Some(report.failed[t]),
                });
            if j < i {
                assert(targets[j]@ != targets[i]@);
            }
            if i < j {
                assert(targets[i]@ != targets[j]@);
            }
        },
    }
    assert(!(report.succeeded.contains(t) && report.failed.dom().contains(t)));
}

/// The order in which the events arrive does not matter: two runs in which
/// the same events happened report the same succeeded targets, the same
/// failed targets and the same technical failures; and the same details,
/// where no two events speak of the same target.
pub proof fn lemma_order_does_not_matter(a: Seq<Event>, b: Seq<Event>)
    requires
        forall|e: Event| a.contains(e) <==> b.contains(e),
    ensures
        Report::gathered(a).succeeded == Report::gathered(b).succeeded,
        Report::gathered(a).failed.dom() == Report::gathered(b).failed.dom(),
        Report::gathered(a).technical == Report::gathered(b).technical,
        distinct_targets(b) ==> Report::gathered(a) == Report::gathered(b),
{
    let ra = Report::gathered(a);
    let rb = Report::gathered(b);
    lemma_report_holds_what_events_say(a);
    lemma_report_holds_what_events_say(b);
    assert forall|x: Seq<Event>, y: Seq<Event>, t: Seq<char>|
        (forall|e: Event| x.contains(e) ==> y.contains(e)) && succeeded_in(
            x,
            t,
        ) implies succeeded_in(y, t) by {
        let i = choose|i: int| 0 <= i < x.len() && is_success_of(#[trigger] x[i], t);
        assert(x.contains(x[i]));
        let j = choose|j: int| 0 <= j < y.len() && y[j] == x[i];
        assert(is_success_of(y[j], t));
    }
    assert forall|x: Seq<Event>, y: Seq<Event>, t: Seq<char>|
        (forall|e: Event| x.contains(e) ==> y.contains(e)) && failed_in(x, t) implies failed_in(
        y,
        t,
    ) by {
        let i = choose|i: int| 0 <= i < x.len() && is_failure_of(#[trigger] x[i], t);
        assert(x.contains(x[i]));
        let j = choose|j: int| 0 <= j < y.len() && y[j] == x[i];
        assert(is_failure_of(y[j], t));
    }
    assert forall|x: Seq<Event>, y: Seq<Event>, d: Seq<char>|
        (forall|e: Event| x.contains(e) ==> y.contains(e)) && lost_in(x, d) implies lost_in(
        y,
        d,
    ) by {
        let i = choose|i: int|
            0 <= i < x.len() && #[trigger] x[i] == (Event::Lost { description: d });
        assert(x.contains(x[i]));
        let j = choose|j: int| 0 <= j < y.len() && y[j] == x[i];
        assert(y[j] == (Event::Lost { description: d }));
    }
    assert forall|t: Seq<char>| ra.succeeded.contains(t) <==> rb.succeeded.contains(t) by {
        if succeeded_in(a, t) {
            assert(succeeded_in(b, t));
        }
        if succeeded_in(b, t) {
            assert(succeeded_in(a, t));
        }
    }
    assert forall|t: Seq<char>| ra.failed.dom().contains(t) <==> rb.failed.dom().contains(t) by {
        if failed_in(a, t) {
            assert(failed_in(b, t));
        }
        if failed_in(b, t) {
            assert(failed_in(a, t));
        }
    }
    assert forall|d: Seq<char>| ra.technical.contains(d) <==> rb.technical.contains(d) by {
        if lost_in(a, d) {
            assert(lost_in(b, d));
        }
        if lost_in(b, d) {
            assert(lost_in(a, d));
        }
    }
    assert(ra.succeeded =~= rb.succeeded);
    assert(ra.failed.dom() =~= rb.failed.dom());
    assert(ra.technical =~= rb.technical);
    if distinct_targets(b) {
        assert forall|t: Seq<char>| ra.failed.contains_key(t) implies ra.failed[t]
            == rb.failed[t] by {
            assert(rb.failed.dom().contains(t));
            assert(rb.failed.contains_key(t));
            assert(failed_with(a, t, ra.failed[t]));
            assert(failed_with(b, t, rb.failed[t]));
            let i = choose|i: int|
                0 <= i < a.len() && #[trigger] a[i] == (Event::Finished {
                    target: t,
                    detail: Some(ra.failed[t]),
                });
            assert(a.contains(a[i]));
            let j = choose|j: int| 0 <= j < b.len() && b[j] == a[i];
            let k = choose|k: int|
                0 <= k < b.len() && #[trigger] b[k] == (Event::Finished {
                    target: t,
                    detail: Some(rb.failed[t]),
                });
            if j < k {
                assert(!(b[j] is Finished && b[k] is Finished && b[j]->target == b[k]->target));
            }
            if k < j {
                assert(!(b[k] is Finished && b[j] is Finished && b[k]->target == b[j]->target));
            }
        }
        assert(ra.failed =~= rb.failed);
    }
}

/// A run told twice is reported twice alike: two sequential runs over the
/// same targets in which each target's command went the same way give the
/// same report.
pub proof fn lemma_same_outcomes_same_report(
    targets: Seq<String>,
    first: Seq<InvocationOutcome>,
    second: Seq<InvocationOutcome>,
)
    requires
        first.len() == targets.len(),
        second.len() == targets.len(),
        forall|i: int|
            0 <= i < targets.len() ==> (#[trigger] first[i]).failure_detail()
                == second[i].failure_detail(),
    ensures
        Report::gathered(run_events(targets, first)) == Report::gathered(
            run_events(targets, second),
        ),
{
    assert(run_events(targets, first) =~= run_events(targets, second));
}

/// Every event is counted once: where no two events speak of the same
/// target, the succeeded, the failed and the lost units together are as many
/// as the events.
pub proof fn lemma_every_event_counted(events: Seq<Event>)
    requires
        distinct_targets(events),
    ensures
        Report::gathered(events).succeeded.finite(),
        Report::gathered(events).failed.dom().finite(),
        Report::gathered(events).succeeded.len() + Report::gathered(events).failed.dom().len()
            + lost_count(events) == events.len(),
    decreases events.len(),
{
    if events.len() > 0 {
        let prefix = events.drop_last();
        let n = events.len() - 1;
        let last = events.last();
        let before = Report::gathered(prefix);
        assert forall|i: int, j: int| 0 <= i < j < prefix.len() implies !((#[trigger] prefix[i])
            is Finished && (#[trigger] prefix[j]) is Finished && prefix[i]->target
            == prefix[j]->target) by {
            assert(prefix[i] == events[i]);
            assert(prefix[j] == events[j]);
        }
        lemma_every_event_counted(prefix);
        lemma_report_holds_what_events_say(prefix);
        if last is Finished {
            let t = last->target;
            if succeeded_in(prefix, t) {
                let i = choose|i: int| 0 <= i < n && is_success_of(#[trigger] prefix[i], t);
                assert(events[i] == prefix[i]);
                assert(events[i]->target == events[n]->target);
            }
            if failed_in(prefix, t) {
                let i = choose|i: int| 0 <= i < n && is_failure_of(#[trigger] prefix[i], t);
                assert(events[i] == prefix[i]);
                assert(events[i]->target == events[n]->target);
            }
            assert(!before.succeeded.contains(t));
            assert(!before.failed.dom().contains(t));
        }
        assert(Report::gathered(events) == before.record(last));
    }
}

/// In a sequential run over targets of which none is given twice, the
/// succeeded and the failed together are as many as the targets.
pub proof fn lemma_every_target_counted(targets: Seq<String>, outcomes: Seq<InvocationOutcome>)
    requires
        distinct_texts(targets),
    ensures
        Report::gathered(run_events(targets, outcomes)).succeeded.finite(),
        Report::gathered(run_events(targets, outcomes)).failed.dom().finite(),
        Report::gathered(run_events(targets, outcomes)).succeeded.len() + Report::gathered(
            run_events(targets, outcomes),
        ).failed.dom().len() == targets.len(),
{
    let events = run_events(targets, outcomes);
    lemma_run_events_distinct(targets, outcomes);
    lemma_every_event_counted(events);
    lemma_nothing_lost(events);
}

/// Where every event speaks of a target, no unit was lost.
pub proof fn lemma_nothing_lost(events: Seq<Event>)
    requires
        forall|i: int| 0 <= i < events.len() ==> (#[trigger] events[i]) is Finished,
    ensures
        lost_count(events) == 0,
    decreases events.len(),
{
    if events.len() > 0 {
        let prefix = events.drop_last();
        assert forall|i: int| 0 <= i < prefix.len() implies (#[trigger] prefix[i]) is Finished by {
            assert(prefix[i] == events[i]);
        }
        lemma_nothing_lost(prefix);
    }
}

/// A sequential run reports every target, whatever came of its command, and
/// nothing else; and no technical failure.
pub proof fn lemma_every_target_reported(targets: Seq<String>, outcomes: Seq<InvocationOutcome>)
    ensures
        Report::gathered(run_events(targets, outcomes)).succeeded.union(
            Report::gathered(run_events(targets, outcomes)).failed.dom(),
        ) == text_set(targets),
        Report::gathered(run_events(targets, outcomes)).technical == Set::<Seq<char>>::empty(),
{
    let events = run_events(targets, outcomes);
    let report = Report::gathered(events);
    let reported = report.succeeded.union(report.failed.dom());
    lemma_report_holds_what_events_say(events);
    assert forall|t: Seq<char>| reported.contains(t) <==> text_set(targets).contains(t) by {
        if succeeded_in(events, t) {
            let i = choose|i: int| 0 <= i < events.len() && is_success_of(#[trigger] events[i], t);
            assert(targets[i]@ == t);
        }
        if failed_in(events, t) {
            let i = choose|i: int| 0 <= i < events.len() && is_failure_of(#[trigger] events[i], t);
            assert(targets[i]@ == t);
        }
        if text_set(targets).contains(t) {
            let i = choose|i: int| 0 <= i < targets.len() && (#[trigger] targets[i])@ == t;
            if outcomes[i].failure_detail() is None {
                assert(is_success_of(events[i], t));
            } else {
                assert(is_failure_of(events[i], t));
            }
        }
    }
    assert forall|d: Seq<char>| !report.technical.contains(d) by {
        if lost_in(events, d) {
            let i = choose|i: int|
                0 <= i < events.len() && #[trigger] events[i] == (Event::Lost { description: d });
        }
    }
    assert(reported =~= text_set(targets));
    assert(report.technical =~= Set::<Seq<char>>::empty());
}

/// With an invoker whose every answer is a success, a sequential run reports
/// every target among the succeeded, and nothing else.
pub proof fn lemma_succeeding_command<F: Fn(&String, &String) -> InvocationOutcome>(
    executer: Executer,
    invoke: F,
    outcomes: Seq<InvocationOutcome>,
)
    requires
        executer.answered(invoke, outcomes),
        forall|directory: &String, command: &String, outcome: InvocationOutcome| #[trigger]
            invoke.ensures((directory, command), outcome) ==> outcome.failure_message() is None,
    ensures
        Report::gathered(run_events(executer.repos@, outcomes)).succeeded == text_set(
            executer.repos@,
        ),
        Report::gathered(run_events(executer.repos@, outcomes)).failed == Map::<
            Seq<char>,
            Seq<char>,
        >::empty(),
        Report::gathered(run_events(executer.repos@, outcomes)).technical == Set::<
            Seq<char>,
        >::empty(),
{
    assert forall|i: int| 0 <= i < outcomes.len() implies (#[trigger] outcomes[i]).failure_message()
        is None by {
        assert(executer.answer_at(invoke, i, outcomes[i]));
    }
    lemma_all_succeed(executer.repos@, outcomes);
}

/// With an invoker whose every answer is a failure, a sequential run reports
/// every target among the failed, each with a detail that is not empty, and
/// nothing else.
pub proof fn lemma_failing_command<F: Fn(&String, &String) -> InvocationOutcome>(
    executer: Executer,
    invoke: F,
    outcomes: Seq<InvocationOutcome>,
)
    requires
        executer.answered(invoke, outcomes),
        forall|directory: &String, command: &String, outcome: InvocationOutcome| #[trigger]
            invoke.ensures((directory, command), outcome) ==> outcome.failure_message() is Some,
    ensures
        Report::gathered(run_events(executer.repos@, outcomes)).succeeded == Set::<
            Seq<char>,
        >::empty(),
        Report::gathered(run_events(executer.repos@, outcomes)).failed.dom() == text_set(
            executer.repos@,
        ),
        forall|t: Seq<char>| #[trigger]
            Report::gathered(run_events(executer.repos@, outcomes)).failed.contains_key(t)
                ==> Report::gathered(run_events(executer.repos@, outcomes)).failed[t].len() > 0,
        Report::gathered(run_events(executer.repos@, outcomes)).technical == Set::<
            Seq<char>,
        >::empty(),
{
    assert forall|i: int| 0 <= i < outcomes.len() implies (#[trigger] outcomes[i]).failure_message()
        is Some by {
        assert(executer.answer_at(invoke, i, outcomes[i]));
    }
    lemma_all_fail(executer.repos@, outcomes);
}

/// With an invoker whose answer, as far as the report shows it, is fixed by
/// the directory and the command, two sequential runs of one executer give
/// the same report.
pub proof fn lemma_deterministic_command<F: Fn(&String, &String) -> InvocationOutcome>(
    executer: Executer,
    invoke: F,
    first: Seq<InvocationOutcome>,
    second: Seq<InvocationOutcome>,
)
    requires
        executer.answered(invoke, first),
        executer.answered(invoke, second),
        forall|d1: &String, d2: &String, command: &String, o1: InvocationOutcome, o2: InvocationOutcome|
            d1@ == d2@ && #[trigger] invoke.ensures((d1, command), o1) && #[trigger] invoke.ensures(
                (d2, command),
                o2,
            ) ==> o1.failure_detail() == o2.failure_detail(),
    ensures
        Report::gathered(run_events(executer.repos@, first)) == Report::gathered(
            run_events(executer.repos@, second),
        ),
{
    assert forall|i: int| 0 <= i < executer.repos@.len() implies (#[trigger] first[i]).failure_detail()
        == second[i].failure_detail() by {
        assert(executer.answer_at(invoke, i, first[i]));
        assert(executer.answer_at(invoke, i, second[i]));
    }
    lemma_same_outcomes_same_report(executer.repos@, first, second);
}

} // verus!
