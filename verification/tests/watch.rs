use k8s_workflow_deploy::action::Action;
use k8s_workflow_deploy::crd::{Workflow, WorkflowMetadata, WorkflowSpec};
use k8s_workflow_deploy::crd_storage::{MemoryWorkflowStorager, StorageError};
use k8s_workflow_deploy::watch_deployment::{
    deployment_applied, deployment_deleted, ObservedDeployment, ObservedStatus,
};
use k8s_workflow_deploy::watch_namespace::{namespace_applied, namespace_deleted};
use k8s_workflow_deploy::watch_workflow::workflow_applied;

fn pairs(items: &[(&str, &str)]) -> Vec<(String, String)> {
    items.iter().map(|(k, v)| (k.to_string(), v.to_string())).collect()
}

fn deployment(
    namespace: Option<&str>,
    workflow: Option<&str>,
    conditions: Option<Option<Vec<&str>>>,
) -> ObservedDeployment {
    ObservedDeployment {
        namespace: namespace.map(|s| s.to_string()),
        name: "app".to_string(),
        annotations: match workflow {
            Some(w) => pairs(&[("workflow-deploy.ngerakines.me/workflow", w)]),
            None => pairs(&[("other", "x")]),
        },
        status: conditions.map(|c| ObservedStatus {
            conditions: c.map(|all| all.iter().map(|s| s.to_string()).collect()),
        }),
    }
}

fn workflow(name: Option<&str>, version: &str) -> Workflow {
    Workflow {
        metadata: WorkflowMetadata { name: name.map(|s| s.to_string()) },
        spec: WorkflowSpec {
            namespaces: vec![],
            version: version.to_string(),
            debounce: None,
            parallel: None,
            supression: vec![],
            steps: vec![],
        },
    }
}

#[test]
fn a_deployment_is_ready_when_every_condition_holds() {
    assert!(!deployment(None, None, None).is_ready());
    assert!(deployment(None, None, Some(None)).is_ready());
    assert!(deployment(None, None, Some(Some(vec![]))).is_ready());
    assert!(deployment(None, None, Some(Some(vec!["True", "True"]))).is_ready());
    assert!(!deployment(None, None, Some(Some(vec!["True", "False"]))).is_ready());
    assert!(!deployment(None, None, Some(Some(vec!["true"]))).is_ready());
    assert!(!deployment(None, None, Some(Some(vec!["Unknown"]))).is_ready());
}

#[test]
fn an_annotated_deployment_is_recorded_for_its_workflow() {
    let mut store = MemoryWorkflowStorager::new();
    let seen = deployment(None, Some("w1"), Some(Some(vec!["True"])));
    assert_eq!(seen.known_namespace(), "default");
    assert!(deployment_applied(&mut store, &seen));
    let known = store.workflow_resources("w1");
    assert_eq!(known.len(), 1);
    assert_eq!(known[0].namespace, "default");
    assert_eq!(known[0].kind, "apps/v1;Deployment");
    assert_eq!(known[0].name, "app");
    assert_eq!(known[0].workflow, "w1");
    assert_eq!(known[0].annotations, seen.annotations);
    assert!(store.is_resource_ready("w1", "apps/v1;Deployment", "app"));

    assert!(deployment_applied(&mut store, &deployment(None, Some("w1"), Some(Some(vec!["False"])))));
    assert_eq!(store.workflow_resources("w1").len(), 1);
    assert!(!store.is_resource_ready("w1", "apps/v1;Deployment", "app"));
}

#[test]
fn a_deployment_without_the_annotation_is_forgotten() {
    let mut store = MemoryWorkflowStorager::new();
    deployment_applied(&mut store, &deployment(Some("a"), Some("w1"), None));
    deployment_applied(&mut store, &deployment(Some("b"), Some("w1"), None));
    assert_eq!(store.workflow_resources("w1").len(), 2);
    assert!(!deployment_applied(&mut store, &deployment(Some("a"), None, None)));
    let known = store.workflow_resources("w1");
    assert_eq!(known.len(), 1);
    assert_eq!(known[0].namespace, "b");
    deployment_deleted(&mut store, &deployment(Some("b"), Some("w1"), None));
    assert!(store.workflow_resources("w1").is_empty());
}

#[test]
fn a_namespace_is_enabled_by_its_annotation() {
    let mut store = MemoryWorkflowStorager::new();
    let on = pairs(&[("workflow-deploy.ngerakines.me/enabled", "True")]);
    let off = pairs(&[("workflow-deploy.ngerakines.me/enabled", "no")]);
    assert!(namespace_applied(&mut store, "a".to_string(), &on));
    assert!(namespace_applied(&mut store, "b".to_string(), &on));
    assert!(!namespace_applied(&mut store, "c".to_string(), &off));
    assert!(!namespace_applied(&mut store, "d".to_string(), &vec![]));
    assert!(store.namespace_enabled("a"));
    assert!(store.namespace_enabled("b"));
    assert!(!store.namespace_enabled("c"));
    assert!(!store.namespace_enabled("d"));
    assert!(!namespace_applied(&mut store, "a".to_string(), &off));
    assert!(!store.namespace_enabled("a"));
    namespace_deleted(&mut store, "b");
    assert!(!store.namespace_enabled("b"));
}

#[test]
fn an_applied_workflow_is_stored_and_announced() {
    let mut store = MemoryWorkflowStorager::new();
    let (action, stored) = workflow_applied(&mut store, workflow(Some("w1"), "v1"));
    assert_eq!(stored, Ok(()));
    assert_eq!(action, Action::WorkflowUpdated("w1".to_string(), true));
    let (action, _) = workflow_applied(&mut store, workflow(Some("w1"), "v1"));
    assert_eq!(action, Action::WorkflowUpdated("w1".to_string(), false));
    let (action, _) = workflow_applied(&mut store, workflow(Some("w1"), "v2"));
    assert_eq!(action, Action::WorkflowUpdated("w1".to_string(), true));
    assert_eq!(store.current_version("w1"), Ok("v2".to_string()));
    assert_eq!(action.clone(), action);
}

#[test]
fn a_workflow_without_a_name_is_announced_under_the_empty_name() {
    let mut store = MemoryWorkflowStorager::new();
    let unnamed = workflow(None, "v1");
    assert_eq!(unnamed.name_any(), "");
    let (action, stored) = workflow_applied(&mut store, unnamed);
    assert_eq!(stored, Err(StorageError::NameRequired));
    assert_eq!(action, Action::WorkflowUpdated("".to_string(), true));
    let (action, _) = workflow_applied(&mut store, workflow(None, ""));
    assert_eq!(action, Action::WorkflowUpdated("".to_string(), false));
    assert!(store.get_workflow_names().is_empty());
}
