use k8s_workflow_deploy::action::Action;
use k8s_workflow_deploy::action_loop::{ActionLoop, Sweep, WorkflowJob, DEBOUNCE_SECONDS, MAX_IN_FLIGHT};
use k8s_workflow_deploy::crd::{
    Workflow, WorkflowMetadata, WorkflowSpec, WorkflowStep, WorkflowStepAction,
    WorkflowStepActionTarget,
};
use k8s_workflow_deploy::crd_storage::{MemoryWorkflowStorager, StorageError};
use k8s_workflow_deploy::time::Timestamp;
use k8s_workflow_deploy::watch_workflow::workflow_applied;

const T0: i64 = 1_672_531_200;

fn at(seconds: i64) -> Timestamp {
    Timestamp::new(T0 + seconds, 0)
}

fn workflow(name: &str, version: &str, namespaces: &[&str], supression: &[&str]) -> Workflow {
    Workflow {
        metadata: WorkflowMetadata { name: Some(name.to_string()) },
        spec: WorkflowSpec {
            namespaces: namespaces.iter().map(|s| s.to_string()).collect(),
            version: version.to_string(),
            debounce: None,
            parallel: None,
            supression: supression.iter().map(|s| s.to_string()).collect(),
            steps: vec![WorkflowStep {
                actions: vec![WorkflowStepAction {
                    action: "update_deployment".to_string(),
                    targets: vec![WorkflowStepActionTarget {
                        resource: "deployment".to_string(),
                        name: "app".to_string(),
                        containers: vec!["api".to_string()],
                    }],
                }],
            }],
        },
    }
}

fn groups(jobs: &[WorkflowJob]) -> Vec<String> {
    let mut names: Vec<String> = jobs.iter().map(|j| j.group.clone()).collect();
    names.sort();
    names
}

fn in_flight(jobs: &[WorkflowJob]) -> usize {
    jobs.iter().filter(|j| j.in_flight).count()
}

#[test]
fn constants_are_the_documented_ones() {
    assert_eq!(MAX_IN_FLIGHT, 3);
    assert_eq!(DEBOUNCE_SECONDS, 15);
}

#[test]
fn happy_path_dispatches_every_group_and_empties_the_queue() {
    let mut store = MemoryWorkflowStorager::new();
    let mut state = ActionLoop::new();
    let (action, stored) = workflow_applied(&mut store, workflow("w1", "v2", &["a", "b", "c"], &[]));
    assert_eq!(stored, Ok(()));
    assert_eq!(action, Action::WorkflowUpdated("w1".to_string(), true));

    let first = state.on_wake(Some(&action), &store, at(0));
    assert!(first.spawned.is_empty());
    assert_eq!(state.len(), 3);
    let checksum = store.lastest_workflow("w1").unwrap();
    for job in state.jobs() {
        assert_eq!(job.workflow, "w1");
        assert_eq!(job.checksum, checksum);
        assert_eq!(job.after, at(15));
        assert!(!job.in_flight);
    }

    let pass = state.on_wake(None, &store, at(16));
    assert_eq!(groups(&pass.spawned), vec!["a", "b", "c"]);
    assert!(pass.spawned.iter().all(|j| !j.in_flight && j.checksum == checksum));
    assert_eq!(in_flight(&state.jobs()), 3);
    assert_eq!(state.in_flight("w1"), 3);

    let again = state.on_wake(None, &store, at(19));
    assert!(again.spawned.is_empty());

    for group in ["a", "b", "c"] {
        let done = Action::WorkflowJobFinished("w1".to_string(), group.to_string(), true);
        let pass = state.on_wake(Some(&done), &store, at(30));
        assert!(pass.spawned.is_empty());
    }
    assert_eq!(state.len(), 0);
}

#[test]
fn debounce_is_strict() {
    let mut store = MemoryWorkflowStorager::new();
    let mut state = ActionLoop::new();
    let (action, _) = workflow_applied(&mut store, workflow("w1", "v2", &["a"], &[]));
    assert!(state.on_wake(Some(&action), &store, at(0)).spawned.is_empty());
    assert!(state.on_wake(None, &store, at(14)).spawned.is_empty());
    assert!(state.on_wake(None, &store, at(15)).spawned.is_empty());
    let late = state.on_wake(None, &store, Timestamp::new(T0 + 15, 1));
    assert_eq!(late.spawned.len(), 1);
}

#[test]
fn no_more_than_three_jobs_of_a_workflow_are_in_flight() {
    let mut store = MemoryWorkflowStorager::new();
    let mut state = ActionLoop::new();
    let (action, _) =
        workflow_applied(&mut store, workflow("w1", "v2", &["a", "b", "c", "d", "e"], &[]));
    state.on_wake(Some(&action), &store, at(0));
    let pass = state.on_wake(None, &store, at(20));
    assert_eq!(pass.spawned.len(), 3);
    assert_eq!(state.in_flight("w1"), 3);
    assert!(state.on_wake(None, &store, at(23)).spawned.is_empty());

    let first = pass.spawned[0].group.clone();
    let done = Action::WorkflowJobFinished("w1".to_string(), first, true);
    let next = state.on_wake(Some(&done), &store, at(26));
    assert_eq!(next.spawned.len(), 1);
    assert_eq!(state.in_flight("w1"), 3);
    assert_eq!(state.len(), 4);
}

#[test]
fn workflows_have_their_own_slots() {
    let mut store = MemoryWorkflowStorager::new();
    let mut state = ActionLoop::new();
    let (one, _) = workflow_applied(&mut store, workflow("w1", "v2", &["a", "b", "c", "d"], &[]));
    let (two, _) = workflow_applied(&mut store, workflow("w2", "v7", &["a", "b"], &[]));
    state.on_wake(Some(&one), &store, at(0));
    state.on_wake(Some(&two), &store, at(0));
    let pass = state.on_wake(None, &store, at(20));
    assert_eq!(pass.spawned.iter().filter(|j| j.workflow == "w1").count(), 3);
    assert_eq!(pass.spawned.iter().filter(|j| j.workflow == "w2").count(), 2);
    assert_eq!(state.in_flight("w1"), 3);
    assert_eq!(state.in_flight("w2"), 2);
}

#[test]
fn a_second_update_supersedes_the_first() {
    let mut store = MemoryWorkflowStorager::new();
    let mut state = ActionLoop::new();
    let (first, _) = workflow_applied(&mut store, workflow("w1", "v2", &["a", "b"], &[]));
    state.on_wake(Some(&first), &store, at(0));
    let old = store.lastest_workflow("w1").unwrap();
    let (second, _) = workflow_applied(&mut store, workflow("w1", "v3", &["a", "b"], &[]));
    assert_eq!(second, Action::WorkflowUpdated("w1".to_string(), true));
    state.on_wake(Some(&second), &store, at(2));
    let new = store.lastest_workflow("w1").unwrap();
    assert_ne!(old, new);
    assert_eq!(state.len(), 2);
    assert!(state.jobs().iter().all(|j| j.checksum == new && j.after == at(17)));

    assert!(state.on_wake(None, &store, at(16)).spawned.is_empty());
    assert!(state.on_wake(None, &store, at(17)).spawned.is_empty());
    let pass = state.on_wake(None, &store, at(18));
    assert_eq!(groups(&pass.spawned), vec!["a", "b"]);
    assert!(pass.spawned.iter().all(|j| j.checksum == new));
}

#[test]
fn an_update_keeps_the_jobs_in_flight() {
    let mut store = MemoryWorkflowStorager::new();
    let mut state = ActionLoop::new();
    let (first, _) = workflow_applied(&mut store, workflow("w1", "v2", &["a", "b"], &[]));
    state.on_wake(Some(&first), &store, at(0));
    let old = store.lastest_workflow("w1").unwrap();
    assert_eq!(state.on_wake(None, &store, at(20)).spawned.len(), 2);
    let (second, _) = workflow_applied(&mut store, workflow("w1", "v3", &["a", "b"], &[]));
    state.on_wake(Some(&second), &store, at(21));
    let jobs = state.jobs();
    assert_eq!(jobs.len(), 4);
    assert_eq!(jobs.iter().filter(|j| j.checksum == old && j.in_flight).count(), 2);
    assert_eq!(jobs.iter().filter(|j| j.checksum != old && !j.in_flight).count(), 2);
    // one slot is left for the new revision
    let pass = state.on_wake(None, &store, at(40));
    assert_eq!(pass.spawned.len(), 1);
    assert_eq!(state.in_flight("w1"), 3);
}

#[test]
fn an_update_of_the_same_revision_does_not_double_a_job_in_flight() {
    let mut store = MemoryWorkflowStorager::new();
    let mut state = ActionLoop::new();
    let (first, _) = workflow_applied(&mut store, workflow("w1", "v2", &["a"], &[]));
    state.on_wake(Some(&first), &store, at(0));
    assert_eq!(state.on_wake(None, &store, at(20)).spawned.len(), 1);
    let again = Action::WorkflowUpdated("w1".to_string(), true);
    state.on_wake(Some(&again), &store, at(21));
    assert_eq!(state.len(), 1);
    assert!(state.jobs()[0].in_flight);
    assert_eq!(state.jobs()[0].after, at(15));
}

#[test]
fn a_namespace_named_twice_is_queued_once() {
    let mut store = MemoryWorkflowStorager::new();
    let mut state = ActionLoop::new();
    let (action, _) = workflow_applied(&mut store, workflow("w1", "v2", &["a", "b", "a"], &[]));
    state.on_wake(Some(&action), &store, at(0));
    assert_eq!(groups(&state.jobs()), vec!["a", "b"]);
}

#[test]
fn supression_withholds_dispatch_while_it_lasts() {
    let mut store = MemoryWorkflowStorager::new();
    let mut state = ActionLoop::new();
    let window = "2023-01-01T00:00:00Z 2023-01-01T01:00:00Z";
    let (action, _) = workflow_applied(&mut store, workflow("w1", "v2", &["a", "b"], &[window]));
    let first = state.on_wake(Some(&action), &store, at(0));
    assert!(first.spawned.is_empty());
    assert_eq!(first.supressed, vec!["w1".to_string()]);
    assert_eq!(state.len(), 2);
    assert!(state.is_supressed("w1", at(0)));
    for seconds in [20, 1800, 3600] {
        let pass = state.on_wake(None, &store, at(seconds));
        assert!(pass.spawned.is_empty());
        assert_eq!(pass.supressed, vec!["w1".to_string()]);
    }
    assert!(!state.is_supressed("w1", at(3601)));
    let pass = state.on_wake(None, &store, at(3601));
    assert!(pass.supressed.is_empty());
    assert_eq!(groups(&pass.spawned), vec!["a", "b"]);
}

#[test]
fn supression_of_one_workflow_leaves_the_others() {
    let mut store = MemoryWorkflowStorager::new();
    let mut state = ActionLoop::new();
    let (one, _) = workflow_applied(&mut store, workflow("w1", "v2", &["a"], &["2023-01-01T00:00:00Z"]));
    let (two, _) = workflow_applied(&mut store, workflow("w2", "v2", &["a"], &[]));
    state.on_wake(Some(&one), &store, at(0));
    state.on_wake(Some(&two), &store, at(0));
    let pass = state.on_wake(None, &store, at(60));
    assert_eq!(pass.supressed, vec!["w1".to_string()]);
    assert_eq!(pass.spawned.len(), 1);
    assert_eq!(pass.spawned[0].workflow, "w2");
}

#[test]
fn an_update_without_a_version_change_refreshes_the_windows_only() {
    let mut store = MemoryWorkflowStorager::new();
    let mut state = ActionLoop::new();
    let (first, _) = workflow_applied(&mut store, workflow("w1", "v2", &["a"], &[]));
    state.on_wake(Some(&first), &store, at(0));
    let before = state.jobs();
    let (second, _) =
        workflow_applied(&mut store, workflow("w1", "v2", &["a", "b"], &["2023-01-01T00:00:00Z"]));
    assert_eq!(second, Action::WorkflowUpdated("w1".to_string(), false));
    let pass = state.on_wake(Some(&second), &store, at(20));
    assert_eq!(state.jobs(), before);
    assert!(state.is_supressed("w1", at(20)));
    assert!(pass.spawned.is_empty());
    assert_eq!(pass.supressed, vec!["w1".to_string()]);
}

#[test]
fn a_workflow_without_waiting_jobs_is_not_reported_as_supressed() {
    let mut store = MemoryWorkflowStorager::new();
    let mut state = ActionLoop::new();
    let (action, _) = workflow_applied(&mut store, workflow("w1", "v2", &["a"], &["2023-01-01T00:00:00Z"]));
    let refresh = match action {
        Action::WorkflowUpdated(name, _) => Action::WorkflowUpdated(name, false),
        other => other,
    };
    let pass = state.on_wake(Some(&refresh), &store, at(0));
    assert!(pass.supressed.is_empty());
    assert!(pass.spawned.is_empty());
    assert_eq!(state.len(), 0);
}

#[test]
fn failure_purges_the_newer_revision_and_the_failed_job() {
    let mut store = MemoryWorkflowStorager::new();
    let mut state = ActionLoop::new();
    let (first, _) = workflow_applied(&mut store, workflow("w1", "v2", &["a", "b", "c"], &[]));
    state.on_wake(Some(&first), &store, at(0));
    let cs1 = store.lastest_workflow("w1").unwrap();
    assert_eq!(state.on_wake(None, &store, at(20)).spawned.len(), 3);
    let (second, _) = workflow_applied(&mut store, workflow("w1", "v3", &["a", "b", "c"], &[]));
    state.on_wake(Some(&second), &store, at(21));
    assert_eq!(state.len(), 6);

    let removed = state.job_finished("w1", "a", false);
    assert_eq!(removed, 4);
    let jobs = state.jobs();
    assert_eq!(groups(&jobs), vec!["b", "c"]);
    assert!(jobs.iter().all(|j| j.checksum == cs1 && j.in_flight));

    assert_eq!(state.reconcile_workflow("w1", &store, at(100)), Ok(false));
    assert_eq!(state.job_finished("w1", "b", true), 1);
    assert_eq!(state.job_finished("w1", "c", true), 1);
    assert_eq!(state.len(), 0);

    assert_eq!(state.reconcile_workflow("w1", &store, at(120)), Ok(true));
    let cs2 = store.lastest_workflow("w1").unwrap();
    assert_eq!(groups(&state.jobs()), vec!["a", "b", "c"]);
    assert!(state.jobs().iter().all(|j| j.checksum == cs2 && !j.in_flight && j.after == at(135)));
}

#[test]
fn failure_leaves_other_workflows_alone() {
    let mut store = MemoryWorkflowStorager::new();
    let mut state = ActionLoop::new();
    let (one, _) = workflow_applied(&mut store, workflow("w1", "v2", &["a"], &[]));
    let (two, _) = workflow_applied(&mut store, workflow("w2", "v9", &["a", "b"], &[]));
    state.on_wake(Some(&one), &store, at(0));
    state.on_wake(Some(&two), &store, at(0));
    state.on_wake(None, &store, at(20));
    assert_eq!(state.job_finished("w1", "a", false), 1);
    assert_eq!(state.len(), 2);
    assert!(state.jobs().iter().all(|j| j.workflow == "w2"));
}

#[test]
fn failure_for_an_unknown_group_changes_nothing() {
    let mut store = MemoryWorkflowStorager::new();
    let mut state = ActionLoop::new();
    let (one, _) = workflow_applied(&mut store, workflow("w1", "v2", &["a"], &[]));
    state.on_wake(Some(&one), &store, at(0));
    let before = state.jobs();
    assert_eq!(state.job_finished("w1", "zz", false), 0);
    assert_eq!(state.job_finished("w9", "a", false), 0);
    assert_eq!(state.jobs(), before);
}

#[test]
fn success_removes_only_the_jobs_of_that_workflow_and_group() {
    let mut store = MemoryWorkflowStorager::new();
    let mut state = ActionLoop::new();
    let (one, _) = workflow_applied(&mut store, workflow("w1", "v2", &["a", "b"], &[]));
    let (two, _) = workflow_applied(&mut store, workflow("w2", "v2", &["a", "b"], &[]));
    state.on_wake(Some(&one), &store, at(0));
    state.on_wake(Some(&two), &store, at(0));
    assert_eq!(state.job_finished("w1", "a", true), 1);
    let jobs = state.jobs();
    assert_eq!(jobs.len(), 3);
    assert!(!jobs.iter().any(|j| j.workflow == "w1" && j.group == "a"));
    assert!(jobs.iter().any(|j| j.workflow == "w1" && j.group == "b"));
    assert!(jobs.iter().any(|j| j.workflow == "w2" && j.group == "a"));
}

#[test]
fn an_unknown_workflow_is_not_queued() {
    let store = MemoryWorkflowStorager::new();
    let mut state = ActionLoop::new();
    assert_eq!(state.workflow_updated("nope", true, &store, at(0)), Err(StorageError::NotFound));
    assert_eq!(state.reconcile_workflow("nope", &store, at(0)), Err(StorageError::NotFound));
    let action = Action::WorkflowUpdated("nope".to_string(), true);
    assert_eq!(state.handle(&action, &store, at(0)), Err(StorageError::NotFound));
    assert_eq!(state.len(), 0);
    assert!(!state.has_jobs("nope"));
    assert!(!state.has_work("nope"));
}

#[test]
fn reconcile_leaves_a_workflow_with_jobs_alone() {
    let mut store = MemoryWorkflowStorager::new();
    let mut state = ActionLoop::new();
    let (one, _) = workflow_applied(&mut store, workflow("w1", "v2", &["a"], &[]));
    state.on_wake(Some(&one), &store, at(0));
    let before = state.jobs();
    let hint = Action::ReconcileWorkflow("w1".to_string());
    state.on_wake(Some(&hint), &store, at(5));
    assert_eq!(state.jobs(), before);
}

#[test]
fn sweep_keeps_what_its_rule_keeps() {
    let job = |workflow: &str, checksum: u64, group: &str, in_flight: bool| WorkflowJob {
        workflow: workflow.to_string(),
        checksum,
        group: group.to_string(),
        after: at(0),
        in_flight,
    };
    let waiting = job("w1", 1, "a", false);
    let flying = job("w1", 1, "b", true);
    let other = job("w2", 1, "a", false);
    assert!(!waiting.should_retain(&"w1".to_string()));
    assert!(flying.should_retain(&"w1".to_string()));
    assert!(other.should_retain(&"w1".to_string()));
    assert!(!Sweep::Waiting("w1".to_string()).keep(&waiting));
    assert!(Sweep::Waiting("w1".to_string()).keep(&flying));
    assert!(!Sweep::Done("w1".to_string(), "b".to_string()).keep(&flying));
    assert!(Sweep::Done("w1".to_string(), "b".to_string()).keep(&waiting));
    assert!(Sweep::Purged("w1".to_string(), 2, "z".to_string()).keep(&other));
    assert!(!Sweep::Purged("w1".to_string(), 2, "z".to_string()).keep(&waiting));
    assert!(Sweep::Purged("w1".to_string(), 1, "b".to_string()).keep(&waiting));
    assert!(!Sweep::Purged("w1".to_string(), 1, "b".to_string()).keep(&flying));
}
