use renzokutai::step::{ValidatedDependency, ValidatedStep, ValidatedSteps};
use renzokutai::runnable::{RunnableSteps, Status};
use renzokutai::ValidationError;

fn step(name: &str, script: &str, deps: &[&str]) -> ValidatedStep {
    ValidatedStep {
        name: name.to_string(),
        script: script.to_string(),
        depends: deps
            .iter()
            .map(|d| ValidatedDependency { name: d.to_string() })
            .collect(),
    }
}

fn runnable(steps: Vec<ValidatedStep>) -> RunnableSteps {
    ValidatedSteps { vec: steps }
        .as_runnable()
        .expect("Should have returned some steps")
}

#[test]
fn mod_steps_without_dependencies() {
    let mut rsteps = runnable(vec![
        step("build", "build.sh", &[]),
        step("lint", "lint.sh", &[]),
    ]);

    let ready = rsteps.unblocked_steps();
    assert_eq!(ready.len(), 2);
    for &i in ready.iter() {
        rsteps.mark_running(i);
    }

    assert_eq!(rsteps.unblocked_steps().len(), 0);
    assert!(!rsteps.is_complete());

    for &i in ready.iter() {
        rsteps.record_exit(i, 0);
    }

    assert_eq!(rsteps.unblocked_steps().len(), 0);
    assert!(rsteps.is_complete());
}

#[test]
fn mod_steps_with_dependencies() {
    let mut rsteps = runnable(vec![
        step("build", "build.sh", &[]),
        step("test", "test.sh", &["build"]),
    ]);

    let ready = rsteps.unblocked_steps();
    assert_eq!(ready.len(), 1);
    for &i in ready.iter() {
        rsteps.mark_running(i);
    }

    assert_eq!(rsteps.unblocked_steps().len(), 0);

    for &i in ready.iter() {
        rsteps.record_exit(i, 0);
    }

    let ready = rsteps.unblocked_steps();
    assert_eq!(ready.len(), 1);
    for &i in ready.iter() {
        rsteps.mark_running(i);
        rsteps.record_exit(i, 0);
    }

    assert_eq!(rsteps.unblocked_steps().len(), 0);
    assert!(rsteps.is_complete());
}

#[test]
fn step_steps_without_dependencies() {
    let mut rsteps = runnable(vec![
        step("build", "build.sh", &[]),
        step("lint", "lint.sh", &[]),
    ]);

    let ready = rsteps.unblocked_steps();
    assert_eq!(ready.len(), 2);
    for &i in ready.iter() {
        rsteps.mark_running(i);
    }
    assert_eq!(rsteps.unblocked_steps().len(), 0);
    for &i in ready.iter() {
        rsteps.record_exit(i, 0);
    }
    assert!(rsteps.is_complete());
    assert!(rsteps.all_finished());
}

#[test]
fn step_steps_with_dependencies() {
    let mut rsteps = runnable(vec![
        step("build", "build.sh", &[]),
        step("test", "test.sh", &["build"]),
    ]);

    let ready = rsteps.unblocked_steps();
    assert_eq!(ready.len(), 1);
    rsteps.mark_running(ready[0]);
    assert_eq!(rsteps.unblocked_steps().len(), 0);
    rsteps.record_exit(ready[0], 0);

    let ready = rsteps.unblocked_steps();
    assert_eq!(ready.len(), 1);
    rsteps.mark_running(ready[0]);
    rsteps.record_exit(ready[0], 0);

    assert!(rsteps.is_complete());
    assert!(rsteps.all_finished());
}

#[test]
fn two_independents_overlap() {
    // Both steps are ready at once and finish with exit code 0.
    let mut rsteps = runnable(vec![
        step("build", "sleep.sh", &[]),
        step("lint", "sleep.sh", &[]),
    ]);

    let ready = rsteps.unblocked_steps();
    assert_eq!(ready, vec![0, 1]);
    rsteps.mark_running(0);
    rsteps.mark_running(1);
    // Both are Running in the same interval.
    assert_eq!(rsteps.status_of(0), Status::Running);
    assert_eq!(rsteps.status_of(1), Status::Running);
    rsteps.record_exit(0, 0);
    rsteps.record_exit(1, 0);

    let report = rsteps.report();
    assert_eq!(report.len(), 2);
    assert_eq!(report[0].status, Status::Finished);
    assert_eq!(report[1].status, Status::Finished);
    assert_eq!(report[0].exit_code, Some(0));
    assert_eq!(report[1].exit_code, Some(0));
}

#[test]
fn linear_chain_ordered() {
    // build -> test -> deploy: start order follows the chain.
    let mut rsteps = runnable(vec![
        step("build", "build.sh", &[]),
        step("test", "test.sh", &["build"]),
        step("deploy", "deploy.sh", &["test"]),
    ]);

    let mut started: Vec<usize> = Vec::new();
    loop {
        let ready = rsteps.unblocked_steps();
        if ready.is_empty() {
            break;
        }
        assert_eq!(ready.len(), 1);
        started.push(ready[0]);
        rsteps.mark_running(ready[0]);
        rsteps.record_exit(ready[0], 0);
    }
    assert_eq!(started, vec![0, 1, 2]);
    assert!(rsteps.all_finished());
}

#[test]
fn diamond_join_waits() {
    // fanout -> {a, b} -> join: a and b overlap, join waits for both.
    let mut rsteps = runnable(vec![
        step("fanout", "fanout.sh", &[]),
        step("a", "a.sh", &["fanout"]),
        step("b", "b.sh", &["fanout"]),
        step("join", "join.sh", &["a", "b"]),
    ]);

    assert_eq!(rsteps.unblocked_steps(), vec![0]);
    rsteps.mark_running(0);
    rsteps.record_exit(0, 0);

    let mid = rsteps.unblocked_steps();
    assert_eq!(mid, vec![1, 2]);
    rsteps.mark_running(1);
    rsteps.mark_running(2);
    // join is not ready while a and b run.
    assert_eq!(rsteps.unblocked_steps().len(), 0);
    rsteps.record_exit(1, 0);
    // join still waits: b has not finished.
    assert_eq!(rsteps.unblocked_steps().len(), 0);
    rsteps.record_exit(2, 0);

    assert_eq!(rsteps.unblocked_steps(), vec![3]);
    rsteps.mark_running(3);
    rsteps.record_exit(3, 0);
    assert!(rsteps.all_finished());
}

#[test]
fn failure_propagates_to_dependents() {
    // build exits 1; test depends on build and is skipped.
    let mut rsteps = runnable(vec![
        step("build", "build.sh", &[]),
        step("test", "test.sh", &["build"]),
    ]);

    rsteps.run(&vec![1, 0]);

    let report = rsteps.report();
    assert_eq!(report[0].name, "build".to_string());
    assert_eq!(report[0].status, Status::Failed);
    assert_eq!(report[0].exit_code, Some(1));
    assert_eq!(report[1].name, "test".to_string());
    assert_eq!(report[1].status, Status::Skipped);
    assert_eq!(report[1].blocked_by, Some("build".to_string()));
    assert!(!rsteps.all_finished());
}

#[test]
fn cycle_rejected() {
    // a depends on b and b on a: the validator reports both, the engine is
    // never built.
    let r = ValidatedSteps {
        vec: vec![step("a", "a.sh", &["b"]), step("b", "b.sh", &["a"])],
    }
    .as_runnable();
    match r {
        Err(ValidationError::DependencyCycle(members)) => {
            assert_eq!(members, vec!["a".to_string(), "b".to_string()]);
        }
        _ => panic!("expected a dependency cycle"),
    }
}

#[test]
fn duplicate_step_rejected() {
    let r = ValidatedSteps {
        vec: vec![step("build", "one.sh", &[]), step("build", "two.sh", &[])],
    }
    .as_runnable();
    match r {
        Err(ValidationError::DuplicateStep(n)) => assert_eq!(n, "build".to_string()),
        _ => panic!("expected a duplicate step"),
    }
}

#[test]
fn unknown_dependency_rejected() {
    let r = ValidatedSteps {
        vec: vec![step("test", "test.sh", &["build"])],
    }
    .as_runnable();
    match r {
        Err(ValidationError::UnknownDependency(s, d)) => {
            assert_eq!(s, "test".to_string());
            assert_eq!(d, "build".to_string());
        }
        _ => panic!("expected an unknown dependency"),
    }
}

#[test]
fn run_whole_set() {
    // The driver runs a mixed DAG to completion: one failure, one skip, the
    // independent branch finishes.
    let mut rsteps = runnable(vec![
        step("build", "build.sh", &[]),
        step("test", "test.sh", &["build"]),
        step("docs", "docs.sh", &[]),
    ]);
    rsteps.run(&vec![2, 0, 0]);
    let report = rsteps.report();
    assert_eq!(report[0].status, Status::Failed);
    assert_eq!(report[0].exit_code, Some(2));
    assert_eq!(report[1].status, Status::Skipped);
    assert_eq!(report[1].blocked_by, Some("build".to_string()));
    assert_eq!(report[2].status, Status::Finished);
    assert!(rsteps.is_complete());
}

#[test]
fn cancellation_marks_remainder() {
    let mut rsteps = runnable(vec![
        step("build", "build.sh", &[]),
        step("test", "test.sh", &["build"]),
    ]);
    let ready = rsteps.unblocked_steps();
    rsteps.mark_running(ready[0]);
    rsteps.cancel();
    let report = rsteps.report();
    assert_eq!(report[0].status, Status::Canceled);
    assert_eq!(report[1].status, Status::Canceled);
    assert!(rsteps.is_complete());
}

#[test]
fn spawn_failure_fails_without_running() {
    let mut rsteps = runnable(vec![step("build", "build.sh", &[])]);
    let ready = rsteps.unblocked_steps();
    rsteps.record_spawn_failure(ready[0]);
    let report = rsteps.report();
    assert_eq!(report[0].status, Status::Failed);
    assert_eq!(report[0].exit_code, None);
}
