use k8s_workflow_deploy::action_loop::WorkflowJob;
use k8s_workflow_deploy::crd::{
    Workflow, WorkflowMetadata, WorkflowSpec, WorkflowStep, WorkflowStepAction,
    WorkflowStepActionTarget,
};
use k8s_workflow_deploy::crd_storage::{KnownResource, MemoryWorkflowStorager, StorageError};
use k8s_workflow_deploy::executor::{
    build_plan, image_patches, plan_action, plan_step, Command, Container, Executor, ImagePatch,
    Outcome, WorkflowAction, GRACE_SECONDS, READY_TIMEOUT_SECONDS, TIMEOUT_FLOOR_SECONDS,
};
use k8s_workflow_deploy::time::Timestamp;

const T0: i64 = 1_672_531_200;

fn at(seconds: i64) -> Timestamp {
    Timestamp::new(T0 + seconds, 0)
}

fn target(name: &str, containers: &[&str]) -> WorkflowStepActionTarget {
    WorkflowStepActionTarget {
        resource: "deployment".to_string(),
        name: name.to_string(),
        containers: containers.iter().map(|s| s.to_string()).collect(),
    }
}

fn update(targets: Vec<WorkflowStepActionTarget>) -> WorkflowStepAction {
    WorkflowStepAction { action: "update_deployment".to_string(), targets }
}

fn workflow(steps: Vec<WorkflowStep>) -> Workflow {
    Workflow {
        metadata: WorkflowMetadata { name: Some("w1".to_string()) },
        spec: WorkflowSpec {
            namespaces: vec!["a".to_string(), "b".to_string(), "c".to_string()],
            version: "v2".to_string(),
            debounce: None,
            parallel: None,
            supression: vec![],
            steps,
        },
    }
}

fn simple() -> Workflow {
    workflow(vec![WorkflowStep { actions: vec![update(vec![target("app", &["api"])])] }])
}

fn pair(a: &str, b: &str) -> (String, String) {
    (a.to_string(), b.to_string())
}

fn started(store: &MemoryWorkflowStorager, group: &str) -> Executor {
    let job = WorkflowJob {
        workflow: "w1".to_string(),
        checksum: store.lastest_workflow("w1").unwrap(),
        group: group.to_string(),
        after: at(0),
        in_flight: true,
    };
    Executor::start(&job, store, at(0)).unwrap()
}

fn report(store: &mut MemoryWorkflowStorager, namespace: &str, ready: bool) {
    store.add_resource(
        KnownResource {
            namespace: namespace.to_string(),
            kind: "apps/v1;Deployment".to_string(),
            name: "app".to_string(),
            workflow: "w1".to_string(),
            annotations: vec![],
        },
        ready,
    );
}

fn containers() -> Vec<Container> {
    vec![Container { name: "api".to_string(), image: Some("registry/app:v1".to_string()) }]
}

#[test]
fn the_waits_are_the_documented_ones() {
    assert_eq!(GRACE_SECONDS, 5);
    assert_eq!(READY_TIMEOUT_SECONDS, 90);
    assert_eq!(TIMEOUT_FLOOR_SECONDS, 30);
}

#[test]
fn plan_updates_every_target_before_it_waits() {
    let spec = workflow(vec![
        WorkflowStep {
            actions: vec![
                update(vec![target("app", &["api", "worker"]), target("web", &["front"])]),
                WorkflowStepAction { action: "noop".to_string(), targets: vec![target("x", &["y"])] },
            ],
        },
        WorkflowStep { actions: vec![update(vec![target("db", &[])])] },
    ])
    .spec;
    let plan = build_plan(&spec);
    assert_eq!(
        plan,
        vec![
            WorkflowAction::Started,
            WorkflowAction::UpdateDeployment(
                "app".to_string(),
                vec![pair("api", "v2"), pair("worker", "v2")]
            ),
            WorkflowAction::UpdateDeployment("web".to_string(), vec![pair("front", "v2")]),
            WorkflowAction::WaitDeploymentReady("app".to_string()),
            WorkflowAction::WaitDeploymentReady("web".to_string()),
            WorkflowAction::UpdateDeployment("db".to_string(), vec![]),
            WorkflowAction::WaitDeploymentReady("db".to_string()),
        ]
    );
    assert_eq!(plan_step(&spec.steps[1], &spec.version).len(), 2);
    assert!(plan_action(&spec.steps[0].actions[1], &spec.version).is_empty());
}

#[test]
fn plan_of_a_revision_without_steps_is_the_start_mark() {
    assert_eq!(build_plan(&workflow(vec![]).spec), vec![WorkflowAction::Started]);
}

#[test]
fn image_keeps_its_name_and_takes_the_version() {
    let deployed = vec![
        Container { name: "api".to_string(), image: Some("r.io/app:abc123".to_string()) },
        Container { name: "sidecar".to_string(), image: Some("r.io/side:1".to_string()) },
        Container { name: "bare".to_string(), image: Some("app".to_string()) },
        Container { name: "none".to_string(), image: None },
        Container { name: "port".to_string(), image: Some("localhost:5000/app:1.0".to_string()) },
    ];
    let versions = vec![
        pair("api", "v2"),
        pair("bare", "v2"),
        pair("none", "v2"),
        pair("port", "v3"),
        pair("api", "v9"),
    ];
    assert_eq!(
        image_patches(&deployed, &versions),
        vec![
            ImagePatch {
                index: 0,
                path: "/spec/template/spec/containers/0/image".to_string(),
                image: "r.io/app:v2".to_string()
            },
            ImagePatch {
                index: 2,
                path: "/spec/template/spec/containers/2/image".to_string(),
                image: "v2".to_string()
            },
            ImagePatch {
                index: 4,
                path: "/spec/template/spec/containers/4/image".to_string(),
                image: "localhost:5000/app:v3".to_string()
            },
        ]
    );
}

#[test]
fn image_path_counts_in_decimal() {
    let mut deployed: Vec<Container> = Vec::new();
    for i in 0..12 {
        deployed.push(Container { name: format!("c{i}"), image: Some("x:1".to_string()) });
    }
    let patches = image_patches(&deployed, &vec![pair("c11", "2")]);
    assert_eq!(patches.len(), 1);
    assert_eq!(patches[0].index, 11);
    assert_eq!(patches[0].path, "/spec/template/spec/containers/11/image");
    assert_eq!(patches[0].image, "x:2");
}

#[test]
fn happy_path_patches_waits_and_completes() {
    let mut store = MemoryWorkflowStorager::new();
    store.add_workflow(simple()).unwrap();
    let mut executor = started(&store, "a");
    assert_eq!(executor.workflow(), "w1");
    assert_eq!(executor.group(), "a");
    assert_eq!(executor.work_remaining(), 3);
    assert!(!executor.is_done());

    assert_eq!(executor.tick(at(1), &store), Command::Wait);
    assert_eq!(executor.work_remaining(), 2);
    assert_eq!(executor.tick(at(2), &store), Command::FetchDeployment("app".to_string()));
    match executor.deployment_fetched(Some(containers())) {
        Command::PatchDeployment(name, patches, document) => {
            assert_eq!(name, "app");
            assert_eq!(
                patches,
                vec![ImagePatch {
                    index: 0,
                    path: "/spec/template/spec/containers/0/image".to_string(),
                    image: "registry/app:v2".to_string()
                }]
            );
            assert_eq!(
                serde_json::to_string(&document).unwrap(),
                r#"[{"op":"replace","path":"/spec/template/spec/containers/0/image","value":"registry/app:v2"}]"#
            );
        }
        other => panic!("{other:?}"),
    }
    assert_eq!(executor.patch_applied(true), Command::Wait);
    assert_eq!(executor.work_remaining(), 1);
    assert_eq!(executor.last_update_at("app"), Some(at(2)));
    assert_eq!(executor.last_update_at("web"), None);

    report(&mut store, "a", true);
    // within the grace period readiness is not asked for
    assert_eq!(executor.tick(at(3), &store), Command::Wait);
    assert_eq!(executor.tick(at(6), &store), Command::Wait);
    assert_eq!(executor.work_remaining(), 1);
    assert_eq!(executor.tick(at(7), &store), Command::Wait);
    assert_eq!(executor.work_remaining(), 0);
    assert_eq!(executor.tick(at(8), &store), Command::Finished(Outcome::Completed));
    assert!(executor.is_done());
    assert!(Outcome::Completed.everything_ok());
}

#[test]
fn the_end_is_reported_once() {
    let mut store = MemoryWorkflowStorager::new();
    store.add_workflow(workflow(vec![])).unwrap();
    let mut executor = started(&store, "a");
    assert_eq!(executor.tick(at(1), &store), Command::Wait);
    assert_eq!(executor.tick(at(2), &store), Command::Finished(Outcome::Completed));
    assert_eq!(executor.tick(at(3), &store), Command::Stopped);
    assert_eq!(executor.deployment_fetched(Some(containers())), Command::Stopped);
    assert_eq!(executor.deployment_fetched(None), Command::Stopped);
    assert_eq!(executor.patch_applied(true), Command::Stopped);
    assert_eq!(executor.patch_applied(false), Command::Stopped);
    assert_eq!(executor.tick(at(4), &store), Command::Stopped);
}

#[test]
fn a_deployment_that_never_becomes_ready_times_out_after_ninety_seconds() {
    let mut store = MemoryWorkflowStorager::new();
    store.add_workflow(simple()).unwrap();
    report(&mut store, "a", false);
    let mut executor = started(&store, "a");
    executor.tick(at(1), &store);
    executor.tick(at(10), &store);
    executor.deployment_fetched(Some(containers()));
    assert_eq!(executor.patch_applied(true), Command::Wait);
    for seconds in [11, 14, 15, 39, 40, 41, 70, 99] {
        assert_eq!(executor.tick(at(seconds), &store), Command::Wait);
        assert_eq!(executor.work_remaining(), 1);
    }
    assert_eq!(executor.tick(at(100), &store), Command::Finished(Outcome::ReadyTimeout));
    assert!(!Outcome::ReadyTimeout.everything_ok());
    assert_eq!(executor.tick(at(101), &store), Command::Stopped);
}

#[test]
fn a_deployment_that_becomes_ready_late_still_counts() {
    let mut store = MemoryWorkflowStorager::new();
    store.add_workflow(simple()).unwrap();
    let mut executor = started(&store, "a");
    executor.tick(at(1), &store);
    executor.tick(at(10), &store);
    executor.deployment_fetched(Some(containers()));
    executor.patch_applied(true);
    assert_eq!(executor.tick(at(200), &store), Command::Finished(Outcome::ReadyTimeout));

    let mut second = started(&store, "b");
    second.tick(at(1), &store);
    second.tick(at(10), &store);
    second.deployment_fetched(Some(containers()));
    second.patch_applied(true);
    report(&mut store, "b", true);
    assert_eq!(second.tick(at(200), &store), Command::Wait);
    assert_eq!(second.tick(at(201), &store), Command::Finished(Outcome::Completed));
}

#[test]
fn a_missing_deployment_ends_the_job() {
    let mut store = MemoryWorkflowStorager::new();
    store.add_workflow(simple()).unwrap();
    let mut executor = started(&store, "a");
    executor.tick(at(1), &store);
    assert_eq!(executor.tick(at(2), &store), Command::FetchDeployment("app".to_string()));
    // out of turn: a tick or a patch result while the fetch is under way
    assert_eq!(executor.tick(at(3), &store), Command::Wait);
    assert_eq!(executor.patch_applied(true), Command::Wait);
    assert_eq!(executor.deployment_fetched(None), Command::Finished(Outcome::DeploymentNotFound));
    assert!(!Outcome::DeploymentNotFound.everything_ok());
    assert!(executor.is_done());
}

#[test]
fn a_refused_patch_ends_the_job() {
    let mut store = MemoryWorkflowStorager::new();
    store.add_workflow(simple()).unwrap();
    let mut executor = started(&store, "a");
    executor.tick(at(1), &store);
    executor.tick(at(2), &store);
    executor.deployment_fetched(Some(vec![]));
    assert_eq!(executor.deployment_fetched(Some(vec![])), Command::Wait);
    assert_eq!(executor.patch_applied(false), Command::Finished(Outcome::PatchFailed));
    assert!(!Outcome::PatchFailed.everything_ok());
    assert_eq!(executor.last_update_at("app"), None);
}

#[test]
fn a_deployment_without_the_container_gets_an_empty_patch() {
    let mut store = MemoryWorkflowStorager::new();
    store.add_workflow(simple()).unwrap();
    let mut executor = started(&store, "a");
    executor.tick(at(1), &store);
    executor.tick(at(2), &store);
    let other = vec![Container { name: "other".to_string(), image: Some("x:1".to_string()) }];
    match executor.deployment_fetched(Some(other)) {
        Command::PatchDeployment(name, patches, document) => {
            assert_eq!(name, "app");
            assert!(patches.is_empty());
            assert_eq!(serde_json::to_string(&document).unwrap(), "[]");
        }
        other => panic!("{other:?}"),
    }
}

#[test]
fn an_unknown_revision_starts_no_executor() {
    let store = MemoryWorkflowStorager::new();
    let job = WorkflowJob {
        workflow: "w1".to_string(),
        checksum: 7,
        group: "a".to_string(),
        after: at(0),
        in_flight: true,
    };
    assert_eq!(Executor::start(&job, &store, at(0)).err(), Some(StorageError::NotFound));
}

#[test]
fn outcome_never_updated_is_a_failure() {
    assert!(!Outcome::NeverUpdated.everything_ok());
}

#[test]
fn the_document_holds_every_replacement_in_order() {
    let mut store = MemoryWorkflowStorager::new();
    store
        .add_workflow(workflow(vec![WorkflowStep {
            actions: vec![update(vec![target("app", &["api", "worker", "odd"])])],
        }]))
        .unwrap();
    let mut executor = started(&store, "a");
    executor.tick(at(1), &store);
    executor.tick(at(2), &store);
    let deployed = vec![
        Container { name: "api".to_string(), image: Some("r.io/app:abc123".to_string()) },
        Container { name: "sidecar".to_string(), image: Some("r.io/side:1".to_string()) },
        Container { name: "worker".to_string(), image: Some("worker".to_string()) },
        Container { name: "odd".to_string(), image: Some("r.io/a~b/\"c\":1".to_string()) },
    ];
    match executor.deployment_fetched(Some(deployed)) {
        Command::PatchDeployment(_, patches, document) => {
            assert_eq!(patches.len(), 3);
            assert_eq!(
                serde_json::to_string(&document).unwrap(),
                concat_all(&[
                    r#"[{"op":"replace","path":"/spec/template/spec/containers/0/image","value":"r.io/app:v2"},"#,
                    r#"{"op":"replace","path":"/spec/template/spec/containers/2/image","value":"v2"},"#,
                    r#"{"op":"replace","path":"/spec/template/spec/containers/3/image","value":"r.io/a~b/\"c\":v2"}]"#,
                ])
            );
        }
        other => panic!("{other:?}"),
    }
}

fn concat_all(parts: &[&str]) -> String {
    parts.iter().map(|s| s.to_string()).collect()
}
