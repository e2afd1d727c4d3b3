use k8s_workflow_deploy::crd::{
    Workflow, WorkflowMetadata, WorkflowSpec, WorkflowStep, WorkflowStepAction,
    WorkflowStepActionTarget,
};

fn strings(items: &[&str]) -> Vec<String> {
    items.iter().map(|s| s.to_string()).collect()
}

#[test]
fn test_workflow_checksum() {
    let workflow = Workflow {
        metadata: WorkflowMetadata { name: None },
        spec: WorkflowSpec {
            version: "v1".to_string(),
            namespaces: vec!["default".to_string()],
            parallel: None,
            debounce: None,
            supression: vec![],
            steps: vec![],
        },
    };
    assert_eq!(workflow.checksum(), 8856693534762849072);
}

#[test]
fn target_checksum_sorts_containers() {
    let a = WorkflowStepActionTarget {
        resource: "deployment".to_string(),
        name: "app".to_string(),
        containers: strings(&["web", "api"]),
    };
    let b = WorkflowStepActionTarget {
        resource: "deployment".to_string(),
        name: "app".to_string(),
        containers: strings(&["api", "web"]),
    };
    assert_eq!(a.checksum(), b.checksum());
    let c = WorkflowStepAction { action: "update_deployment".to_string(), targets: vec![a.clone()] };
    let _ = WorkflowStep { actions: vec![c] };
}

fn spec(namespaces: &[&str], supression: &[&str], steps: Vec<WorkflowStep>) -> WorkflowSpec {
    WorkflowSpec {
        version: "v1".to_string(),
        namespaces: strings(namespaces),
        parallel: None,
        debounce: Some(30),
        supression: strings(supression),
        steps,
    }
}

fn step(target: &str, containers: &[&str]) -> WorkflowStep {
    WorkflowStep {
        actions: vec![WorkflowStepAction {
            action: "update_deployment".to_string(),
            targets: vec![WorkflowStepActionTarget {
                resource: "deployment".to_string(),
                name: target.to_string(),
                containers: strings(containers),
            }],
        }],
    }
}

#[test]
fn checksum_forgets_the_order_of_namespaces_supressions_and_containers() {
    let a = spec(
        &["b", "a", "c"],
        &["2023-01-01T00:00:00Z", "2022-01-01T00:00:00Z"],
        vec![step("app", &["api", "worker"]), step("web", &["front"])],
    );
    let b = spec(
        &["c", "b", "a"],
        &["2022-01-01T00:00:00Z", "2023-01-01T00:00:00Z"],
        vec![step("app", &["worker", "api"]), step("web", &["front"])],
    );
    assert_eq!(a.checksum(), b.checksum());
}

#[test]
fn checksum_follows_the_order_of_steps() {
    let a = spec(&["a"], &[], vec![step("app", &["api"]), step("web", &["front"])]);
    let b = spec(&["a"], &[], vec![step("web", &["front"]), step("app", &["api"])]);
    assert_ne!(a.checksum(), b.checksum());
}

#[test]
fn checksum_follows_what_is_declared() {
    let base = spec(&["a"], &[], vec![step("app", &["api"])]);
    let mut other = base.clone();
    assert_eq!(base.checksum(), other.checksum());
    other.version = "v2".to_string();
    assert_ne!(base.checksum(), other.checksum());
    let mut other = base.clone();
    other.namespaces.push("b".to_string());
    assert_ne!(base.checksum(), other.checksum());
    let mut other = base.clone();
    other.debounce = None;
    assert_ne!(base.checksum(), other.checksum());
    let mut other = base.clone();
    other.steps[0].actions[0].targets[0].containers.push("worker".to_string());
    assert_ne!(base.checksum(), other.checksum());
    assert_eq!(base.steps[0].checksum(), base.steps[0].clone().checksum());
    assert_ne!(base.steps[0].checksum(), other.steps[0].checksum());
    assert_ne!(base.steps[0].actions[0].checksum(), other.steps[0].actions[0].checksum());
}

#[test]
fn checksums_have_their_known_values() {
    // FNV-1a of "resource=deployment name=app" and of the empty text
    let target = WorkflowStepActionTarget {
        resource: "deployment".to_string(),
        name: "app".to_string(),
        containers: vec![],
    };
    let mut hash: u64 = 0xcbf29ce484222325;
    for byte in "resource=deployment name=app".bytes() {
        hash = (hash ^ byte as u64).wrapping_mul(0x100000001b3);
    }
    assert_eq!(target.checksum(), hash);
    assert_eq!(WorkflowStep { actions: vec![] }.checksum(), 0xcbf29ce484222325);
    let workflow = Workflow { metadata: WorkflowMetadata { name: Some("w".to_string()) }, spec: spec(&[], &[], vec![]) };
    let mut hash: u64 = 0xcbf29ce484222325;
    for byte in "version=v1debounce=30".bytes() {
        hash = (hash ^ byte as u64).wrapping_mul(0x100000001b3);
    }
    assert_eq!(workflow.checksum(), hash);
    assert_eq!(workflow.clone(), workflow);
}
