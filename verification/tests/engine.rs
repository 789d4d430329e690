use command_executer::config::{Data, LogLevel, LoggerConfig, WorkersConfig};
use command_executer::custom_error::CustomError;
use command_executer::workers::executer::{resolve_path, Executer};
use command_executer::workers::parallel_executer::{ParallelExecuter, WorkUnit};
use command_executer::workers::structs::{
    Delivery, ExecutionResult, InvocationOutcome, ProcessOutput,
};

fn s(text: &str) -> String {
    text.to_string()
}

fn names(list: &[&str]) -> Vec<String> {
    list.iter().map(|t| t.to_string()).collect()
}

fn sorted(list: &Vec<String>) -> Vec<String> {
    let mut copy = list.clone();
    copy.sort();
    copy
}

fn sorted_keys(list: &Vec<(String, String)>) -> Vec<String> {
    let mut copy: Vec<String> = list.iter().map(|e| e.0.clone()).collect();
    copy.sort();
    copy
}

/// Stands in for a shell: knows three commands, and only the directories
/// below `/tmp/repos` whose name does not start with `missing`.
fn shell(directory: &String, command: &String) -> InvocationOutcome {
    let spawned = if directory.contains("missing") {
        Err(s("No such file or directory (os error 2)"))
    } else if command == "exit 1" {
        Ok(ProcessOutput { exit_code: Some(1), stdout: Vec::new(), stderr: Vec::new() })
    } else if command == "echo hi" {
        Ok(ProcessOutput { exit_code: Some(0), stdout: b"hi\n".to_vec(), stderr: Vec::new() })
    } else if command == "complain" {
        Ok(ProcessOutput { exit_code: Some(2), stdout: Vec::new(), stderr: b"no such thing\n".to_vec() })
    } else {
        Ok(ProcessOutput { exit_code: Some(0), stdout: Vec::new(), stderr: Vec::new() })
    };
    InvocationOutcome::classify(spawned)
}

fn in_order(units: Vec<WorkUnit>, command: &String) -> Vec<Delivery> {
    units
        .into_iter()
        .map(|u| Delivery::Delivered { outcome: shell(&u.directory, command), target: u.target })
        .collect()
}

fn reversed(units: Vec<WorkUnit>, command: &String) -> Vec<Delivery> {
    let mut deliveries = in_order(units, command);
    deliveries.reverse();
    deliveries
}

fn losing_first(units: Vec<WorkUnit>, command: &String) -> Vec<Delivery> {
    let mut deliveries = in_order(units, command);
    deliveries[0] = Delivery::Lost { description: s("task 1 panicked") };
    deliveries
}

#[test]
fn path_is_target_joined_to_root() {
    assert_eq!(resolve_path(&s("/tmp/repos"), &s("a")).unwrap(), "/tmp/repos/a");
    assert_eq!(resolve_path(&s("/tmp/repos/"), &s("a")).unwrap(), "/tmp/repos/a");
    assert_eq!(resolve_path(&s("/tmp/repos"), &s("group/a")).unwrap(), "/tmp/repos/group/a");
    assert_eq!(resolve_path(&s("relative"), &s("a")).unwrap(), "relative/a");
}

#[test]
fn absolute_target_replaces_root() {
    assert_eq!(resolve_path(&s("/tmp/repos"), &s("/srv/a")).unwrap(), "/srv/a");
}

#[test]
fn error_text_names_variant_and_quotes_message() {
    assert_eq!(CustomError::CommandExecution(s("boom")).to_string(), "CommandExecution(\"boom\")");
    assert_eq!(CustomError::CommandExecution(s("")).to_string(), "CommandExecution(\"\")");
    assert_eq!(
        CustomError::CommandExecution(s("a \"b\"\n")).to_string(),
        "CommandExecution(\"a \\\"b\\\"\\n\")"
    );
    assert_eq!(CustomError::PathBuildException.to_string(), "PathBuildException");
}

#[test]
fn error_text_is_its_debug_form() {
    let e = CustomError::CommandExecution(s("fatal: not a git repository\n"));
    assert_eq!(e.to_string(), format!("{:?}", e));
    let p = CustomError::PathBuildException;
    assert_eq!(p.to_string(), format!("{:?}", p));
}

#[test]
fn classify_status_zero_is_success() {
    let o = InvocationOutcome::classify(Ok(ProcessOutput {
        exit_code: Some(0),
        stdout: b"hi\n".to_vec(),
        stderr: b"warn".to_vec(),
    }));
    match o {
        InvocationOutcome::Success { stdout, stderr } => {
            assert_eq!(stdout, "hi\n");
            assert_eq!(stderr, "warn");
        }
        other => panic!("{:?}", other),
    }
}

#[test]
fn classify_other_status_is_command_failure() {
    let o = InvocationOutcome::classify(Ok(ProcessOutput {
        exit_code: Some(3),
        stdout: b"ignored".to_vec(),
        stderr: b"bad".to_vec(),
    }));
    assert!(!o.is_success());
    match o {
        InvocationOutcome::CommandFailed { exit_code, stderr } => {
            assert_eq!(exit_code, Some(3));
            assert_eq!(stderr, "bad");
        }
        other => panic!("{:?}", other),
    }
}

#[test]
fn classify_without_status_is_command_failure() {
    let o = InvocationOutcome::classify(Ok(ProcessOutput {
        exit_code: None,
        stdout: Vec::new(),
        stderr: Vec::new(),
    }));
    assert!(matches!(o, InvocationOutcome::CommandFailed { exit_code: None, .. }));
}

#[test]
fn classify_spawn_failure_is_invocation_error() {
    let o = InvocationOutcome::classify(Err(s("No such file or directory (os error 2)")));
    match &o {
        InvocationOutcome::InvocationError { reason } => {
            assert_eq!(reason, "No such file or directory (os error 2)")
        }
        other => panic!("{:?}", other),
    }
    match o.error() {
        Some(CustomError::CommandExecution(message)) => {
            assert_eq!(message, "No such file or directory (os error 2)")
        }
        other => panic!("{:?}", other),
    }
}

#[test]
fn classify_replaces_invalid_bytes() {
    let o = InvocationOutcome::classify(Ok(ProcessOutput {
        exit_code: Some(1),
        stdout: Vec::new(),
        stderr: vec![0x66, 0xff, 0x6f],
    }));
    match o {
        InvocationOutcome::CommandFailed { stderr, .. } => assert_eq!(stderr, "f\u{FFFD}o"),
        other => panic!("{:?}", other),
    }
}

#[test]
fn success_has_no_error() {
    let o = InvocationOutcome::Success { stdout: s("x"), stderr: s("") };
    assert!(o.is_success());
    assert!(o.error().is_none());
}

#[test]
fn all_succeed() {
    let root = s("/tmp/repos");
    let targets = names(&["a", "b", "c"]);
    let command = s("true");
    let report = Executer::new(&root, &targets, &command).execute(shell).unwrap();
    assert_eq!(sorted(&report.succeed), names(&["a", "b", "c"]));
    assert!(report.failed.is_empty());
    assert!(report.technical.is_empty());
}

#[test]
fn all_fail_with_detail() {
    let root = s("/tmp/repos");
    let targets = names(&["a", "b", "c"]);
    let command = s("complain");
    let report = Executer::new(&root, &targets, &command).execute(shell).unwrap();
    assert!(report.succeed.is_empty());
    assert_eq!(sorted_keys(&report.failed), names(&["a", "b", "c"]));
    for t in targets.iter() {
        let detail = report.failure_of(t).unwrap();
        assert!(!detail.is_empty());
        assert_eq!(detail, "CommandExecution(\"no such thing\\n\")");
    }
}

#[test]
fn missing_directory_does_not_touch_the_others() {
    let root = s("/tmp/repos");
    let targets = names(&["missing_a", "b"]);
    let command = s("true");
    let report = Executer::new(&root, &targets, &command).execute(shell).unwrap();
    assert_eq!(
        report.failure_of(&s("missing_a")).unwrap(),
        "CommandExecution(\"No such file or directory (os error 2)\")"
    );
    assert!(!report.is_succeeded(&s("missing_a")));
    assert!(report.is_succeeded(&s("b")));
    assert!(report.failure_of(&s("b")).is_none());
}

#[test]
fn buckets_are_disjoint_and_complete() {
    let root = s("/tmp/repos");
    let targets = names(&["a", "missing_b", "c", "missing_d"]);
    let command = s("true");
    let report = Executer::new(&root, &targets, &command).execute(shell).unwrap();
    for t in targets.iter() {
        assert!(report.is_succeeded(t) != report.failure_of(t).is_some());
    }
    assert_eq!(report.succeed.len() + report.failed.len(), targets.len());
    assert!(report.technical.is_empty());
}

#[test]
fn sequential_and_concurrent_agree() {
    let root = s("/tmp/repos");
    let targets = names(&["a", "b", "c"]);
    let command = s("true");
    let one = Executer::new(&root, &targets, &command).execute(shell).unwrap();
    let two = ParallelExecuter::new(&root, &targets, &command).execute(reversed).unwrap();
    assert_eq!(sorted(&one.succeed), sorted(&two.succeed));
    assert!(two.failed.is_empty());
    assert!(two.technical.is_empty());
}

#[test]
fn concurrent_arrival_order_does_not_matter() {
    let root = s("/tmp/repos");
    let targets = names(&["a", "missing_b", "c"]);
    let command = s("true");
    let one = ParallelExecuter::new(&root, &targets, &command).execute(in_order).unwrap();
    let two = ParallelExecuter::new(&root, &targets, &command).execute(reversed).unwrap();
    assert_eq!(sorted(&one.succeed), sorted(&two.succeed));
    assert_eq!(sorted_keys(&one.failed), sorted_keys(&two.failed));
    assert_eq!(one.failure_of(&s("missing_b")), two.failure_of(&s("missing_b")));
}

#[test]
fn lost_unit_is_technical_and_takes_one_slot() {
    let root = s("/tmp/repos");
    let targets = names(&["a", "b", "c"]);
    let command = s("true");
    let report = ParallelExecuter::new(&root, &targets, &command).execute(losing_first).unwrap();
    assert_eq!(report.technical, names(&["task 1 panicked"]));
    assert!(report.is_technical(&s("task 1 panicked")));
    assert!(!report.is_technical(&s("a")));
    assert_eq!(sorted(&report.succeed), names(&["b", "c"]));
    assert!(report.failed.is_empty());
    assert_eq!(report.succeed.len() + report.failed.len() + 1, targets.len());
}

#[test]
fn running_twice_gives_the_same_report() {
    let root = s("/tmp/repos");
    let targets = names(&["a", "missing_b"]);
    let command = s("exit 0");
    let one = Executer::new(&root, &targets, &command).execute(shell).unwrap();
    let two = Executer::new(&root, &targets, &command).execute(shell).unwrap();
    assert_eq!(sorted(&one.succeed), sorted(&two.succeed));
    let mut f1 = one.failed.clone();
    let mut f2 = two.failed.clone();
    f1.sort();
    f2.sort();
    assert_eq!(f1, f2);
    assert_eq!(one.technical, two.technical);
}

#[test]
fn exit_one_fails_every_target() {
    let root = s("/tmp/repos");
    let targets = names(&["a", "b"]);
    let command = s("exit 1");
    let report = Executer::new(&root, &targets, &command).execute(shell).unwrap();
    assert!(report.succeed.is_empty());
    assert_eq!(sorted_keys(&report.failed), names(&["a", "b"]));
    assert_eq!(report.failure_of(&s("a")).unwrap(), "CommandExecution(\"\")");
    assert_eq!(report.failure_of(&s("b")).unwrap(), "CommandExecution(\"\")");
}

#[test]
fn echo_succeeds() {
    let root = s("/tmp/repos");
    let targets = names(&["a"]);
    let command = s("echo hi");
    let report = Executer::new(&root, &targets, &command).execute(shell).unwrap();
    assert_eq!(report.succeed, names(&["a"]));
    assert!(report.failed.is_empty());
}

#[test]
fn invoker_gets_directory_and_command() {
    let root = s("/tmp/repos");
    let targets = names(&["a", "b"]);
    let command = s("git status");
    let seen = std::cell::RefCell::new(Vec::new());
    let report = Executer::new(&root, &targets, &command)
        .execute(|d: &String, c: &String| {
            seen.borrow_mut().push((d.clone(), c.clone()));
            InvocationOutcome::Success { stdout: String::new(), stderr: String::new() }
        })
        .unwrap();
    assert_eq!(
        seen.into_inner(),
        vec![(s("/tmp/repos/a"), s("git status")), (s("/tmp/repos/b"), s("git status"))]
    );
    assert_eq!(report.succeed, names(&["a", "b"]));
}

#[test]
fn no_targets_empty_report() {
    let root = s("/tmp/repos");
    let targets: Vec<String> = Vec::new();
    let command = s("true");
    let report = Executer::new(&root, &targets, &command).execute(shell).unwrap();
    assert!(report.succeed.is_empty() && report.failed.is_empty() && report.technical.is_empty());
    let units = ParallelExecuter::new(&root, &targets, &command).dispatch().unwrap();
    assert!(units.is_empty());
}

#[test]
fn target_given_twice_is_recorded_once_per_bucket() {
    let root = s("/tmp/repos");
    let targets = names(&["a", "a"]);
    let command = s("true");
    let report = Executer::new(&root, &targets, &command).execute(shell).unwrap();
    assert_eq!(report.succeed, names(&["a"]));
}

#[test]
fn dispatch_gives_one_unit_per_target() {
    let root = s("/tmp/repos");
    let targets = names(&["a", "group/b"]);
    let command = s("true");
    let units = ParallelExecuter::new(&root, &targets, &command).dispatch().unwrap();
    assert_eq!(units.len(), 2);
    assert_eq!(units[0].target, "a");
    assert_eq!(units[0].directory, "/tmp/repos/a");
    assert_eq!(units[1].target, "group/b");
    assert_eq!(units[1].directory, "/tmp/repos/group/b");
}

#[test]
fn gather_sorts_deliveries_into_buckets() {
    let deliveries = vec![
        Delivery::Delivered {
            target: s("b"),
            outcome: InvocationOutcome::CommandFailed { exit_code: Some(1), stderr: s("oops") },
        },
        Delivery::Lost { description: s("cancelled") },
        Delivery::Delivered {
            target: s("a"),
            outcome: InvocationOutcome::Success { stdout: s(""), stderr: s("") },
        },
        Delivery::Lost { description: s("cancelled") },
    ];
    let report = ParallelExecuter::gather(&deliveries);
    assert_eq!(report.succeed, names(&["a"]));
    assert_eq!(report.failed, vec![(s("b"), s("CommandExecution(\"oops\")"))]);
    assert_eq!(report.technical, names(&["cancelled"]));
}

#[test]
fn later_failure_replaces_detail() {
    let mut report = ExecutionResult::new();
    report.record_failure(&s("a"), s("first"));
    report.record_failure(&s("b"), s("other"));
    report.record_failure(&s("a"), s("second"));
    assert_eq!(report.failed.len(), 2);
    assert_eq!(report.failure_of(&s("a")).unwrap(), "second");
    assert_eq!(report.failure_of(&s("b")).unwrap(), "other");
    assert!(report.failure_of(&s("c")).is_none());
}

#[test]
fn success_recorded_once() {
    let mut report = ExecutionResult::new();
    report.record_success(&s("a"));
    report.record_success(&s("a"));
    report.record_technical(&s("x"));
    report.record_technical(&s("x"));
    assert_eq!(report.succeed, names(&["a"]));
    assert_eq!(report.technical, names(&["x"]));
    assert!(report.is_succeeded(&s("a")));
    assert!(!report.is_succeeded(&s("x")));
}

#[test]
fn record_delivery_matches_record() {
    let mut report = ExecutionResult::new();
    report.record_delivery(&Delivery::Delivered {
        target: s("a"),
        outcome: InvocationOutcome::InvocationError { reason: s("no shell") },
    });
    report.record(&s("b"), &InvocationOutcome::Success { stdout: s(""), stderr: s("") });
    assert_eq!(report.failure_of(&s("a")).unwrap(), "CommandExecution(\"no shell\")");
    assert!(report.is_succeeded(&s("b")));
}

#[test]
fn repos_list_is_a_copy_in_order() {
    let data = Data {
        root: s("/tmp/repos"),
        command: s("true"),
        repos: WorkersConfig { workers: names(&["b", "a", "b"]) },
        logger: LoggerConfig { log_level: LogLevel::Info },
        parallel: false,
    };
    assert_eq!(data.repos.get_repos_list(), names(&["b", "a", "b"]));
    assert_eq!(WorkersConfig { workers: Vec::new() }.get_repos_list(), Vec::<String>::new());
    assert_eq!(data.logger.log_level, LogLevel::Info);
}
