//! What the deployment watcher makes of what it sees.

use vstd::prelude::*;
use vstd::string::StringExecFns;

use crate::crd_storage::KnownResource;
use crate::crd_storage::KnownResourceView;
use crate::crd_storage::MemoryWorkflowStorager;
use crate::crd_storage::StorageView;
use crate::crd_storage::clone_pairs;
use crate::executor::deployment_kind;
use crate::k8s_util::annotation_value;
use crate::k8s_util::find_annotation;

verus! {

/// The status of a deployment, as far as the watcher reads it: the status
/// of each of its conditions, where it reports conditions.
#[derive(Debug, PartialEq, Eq)]
pub struct ObservedStatus {
    pub conditions: Option<Vec<String>>,
}

/// A deployment, as far as the watcher reads it.
#[derive(Debug, PartialEq, Eq)]
pub struct ObservedDeployment {
    pub namespace: Option<String>,
    pub name: String,
    pub annotations: Vec<(String, String)>,
    pub status: Option<ObservedStatus>,
}

pub struct ObservedDeploymentView {
    pub namespace: Option<Seq<char>>,
    pub name: Seq<char>,
    pub annotations: Seq<(Seq<char>, Seq<char>)>,
    pub status: Option<Option<Seq<Seq<char>>>>,
}

impl View for ObservedDeployment {
    type V = ObservedDeploymentView;

    open spec fn view(&self) -> ObservedDeploymentView {
        ObservedDeploymentView {
            namespace: match self.namespace {
                Some(namespace) => Some(namespace@),
                None => None,
            },
            name: self.name@,
            annotations: self.annotations.deep_view(),
            status: match self.status {
                Some(status) => Some(
                    match status.conditions {
                        Some(conditions) => Some(conditions.deep_view()),
                        None => None,
                    },
                ),
                None => None,
            },
        }
    }
}

/// The annotation that ties a deployment to a workflow.
pub open spec fn workflow_annotation() -> Seq<char> {
    "workflow-deploy.ngerakines.me/workflow"@
}

/// The namespace of a deployment that names none.
pub open spec fn default_namespace() -> Seq<char> {
    "default"@
}

/// The status of a condition that holds.
pub open spec fn condition_true() -> Seq<char> {
    "True"@
}

impl ObservedDeploymentView {
    /// The namespace under which the deployment is known.
    pub open spec fn known_namespace(self) -> Seq<char> {
        match self.namespace {
            Some(namespace) => namespace,
            None => default_namespace(),
        }
    }

    /// A deployment is ready where it reports a status and every condition
    /// in it holds; a status without conditions counts as ready.
    pub open spec fn ready(self) -> bool {
        match self.status {
            Some(Some(conditions)) => forall|i: int|
                0 <= i < conditions.len() ==> #[trigger] conditions[i] == condition_true(),
            Some(None) => true,
            None => false,
        }
    }

    /// The record under which the deployment is known for `workflow`.
    pub open spec fn resource(self, workflow: Seq<char>) -> KnownResourceView {
        KnownResourceView {
            namespace: self.known_namespace(),
            kind: deployment_kind(),
            name: self.name,
            workflow,
            annotations: self.annotations,
        }
    }

    /// The storage after the deployment was applied: with the annotation it
    /// is recorded for the workflow that the annotation names, with its
    /// readiness; without, it is forgotten.
    pub open spec fn applied_to(self, store: StorageView) -> StorageView {
        match annotation_value(self.annotations, workflow_annotation()) {
            Some(workflow) => store.with_resource(self.resource(workflow), self.ready()),
            None => store.without_resource(self.known_namespace(), deployment_kind(), self.name),
        }
    }

    /// The storage after the deployment was deleted.
    pub open spec fn deleted_from(self, store: StorageView) -> StorageView {
        store.without_resource(self.known_namespace(), deployment_kind(), self.name)
    }
}

impl ObservedDeployment {
    /// The namespace under which the deployment is known.
    pub fn known_namespace(&self) -> (r: String)
        ensures
            r@ == self@.known_namespace(),
    {
        match &self.namespace {
            Some(namespace) => namespace.clone(),
            None => String::from_str("default"),
        }
    }

    /// Whether the deployment is ready.
    pub fn is_ready(&self) -> (r: bool)
        ensures
            r == self@.ready(),
    {
        match &self.status {
            Some(status) => match &status.conditions {
                Some(conditions) => {
                    let holds = String::from_str("True");
                    let mut i: usize = 0;
                    while i < conditions.len()
                        invariant
                            i <= conditions.len(),
                            holds@ == condition_true(),
                            self@.status == Some(Some(conditions.deep_view())),
                            forall|k: int|
                                0 <= k < i ==> #[trigger] conditions.deep_view()[k]
                                    == condition_true(),
                        decreases conditions.len() - i,
                    {
                        if conditions[i] != holds {
                            proof {
                                let all = conditions.deep_view();
                                assert(all[i as int] != condition_true());
                                assert(self@.status->0->0 == all);
                                assert(!self@.ready());
                            }
                            return false;
                        }
                        i += 1;
                    }
                    true
                },
                None => true,
            },
            None => false,
        }
    }
}

/// A deployment was applied.  Returns whether it is recorded now.
pub fn deployment_applied(store: &mut MemoryWorkflowStorager, deployment: &ObservedDeployment) -> (recorded:
    bool)
    requires
        old(store).wf(),
    ensures
        final(store).wf(),
        final(store)@ == deployment@.applied_to(old(store)@),
        recorded == annotation_value(deployment@.annotations, workflow_annotation()) is Some,
{
    let namespace = deployment.known_namespace();
    match find_annotation(&deployment.annotations, "workflow-deploy.ngerakines.me/workflow") {
        Some(workflow) => {
            let ready = deployment.is_ready();
            store.add_resource(
                KnownResource {
                    namespace,
                    kind: String::from_str("apps/v1;Deployment"),
                    name: deployment.name.clone(),
                    workflow: workflow.clone(),
                    annotations: clone_pairs(&deployment.annotations),
                },
                ready,
            );
            true
        },
        None => {
            store.remove_resource(namespace.as_str(), "apps/v1;Deployment", deployment.name.as_str());
            false
        },
    }
}

/// A deployment was deleted: it is forgotten.
pub fn deployment_deleted(store: &mut MemoryWorkflowStorager, deployment: &ObservedDeployment)
    requires
        old(store).wf(),
    ensures
        final(store).wf(),
        final(store)@ == deployment@.deleted_from(old(store)@),
{
    let namespace = deployment.known_namespace();
    store.remove_resource(namespace.as_str(), "apps/v1;Deployment", deployment.name.as_str());
}

} // verus!
