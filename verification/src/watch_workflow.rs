//! What the workflow watcher makes of what it sees.

use vstd::prelude::*;

use crate::action::Action;
use crate::action::ActionView;
use crate::crd::Workflow;
use crate::crd::WorkflowView;
use crate::crd_storage::MemoryWorkflowStorager;
use crate::crd_storage::StorageError;
use crate::crd_storage::StorageView;

verus! {

impl WorkflowView {
    /// The name under which the workflow is spoken of: its own, or the
    /// empty name where it has none.
    pub open spec fn name_any(self) -> Seq<char> {
        match self.name {
            Some(name) => name,
            None => Seq::empty(),
        }
    }
}

/// The version that the storage holds for `name`; the empty version where
/// it holds none.
pub open spec fn stored_version(store: StorageView, name: Seq<char>) -> Seq<char> {
    match store.workflow(name, None) {
        Some(workflow) => workflow.spec.version,
        None => Seq::empty(),
    }
}

/// The storage after `workflow` was applied.
pub open spec fn applied_to(workflow: WorkflowView, store: StorageView) -> StorageView {
    match workflow.name {
        Some(name) => store.with_workflow(name, workflow),
        None => store,
    }
}

impl Workflow {
    /// The name under which the workflow is spoken of.
    pub fn name_any(&self) -> (r: String)
        ensures
            r@ == self@.name_any(),
    {
        match &self.metadata.name {
            Some(name) => name.clone(),
            None => String::new(),
        }
    }
}

/// A workflow was applied: it is stored, and the action loop is told,
/// with the flag that says whether its version differs from the one that
/// was stored for its name.  The action is due also where the storage
/// refused the workflow; the error comes with it.
pub fn workflow_applied(store: &mut MemoryWorkflowStorager, workflow: Workflow) -> (r: (
    Action,
    Result<(), StorageError>,
))
    requires
        old(store).wf(),
    ensures
        final(store).wf(),
        final(store)@ == applied_to(workflow@, old(store)@),
        r.0@ == ActionView::WorkflowUpdated(
            workflow@.name_any(),
            stored_version(old(store)@, workflow@.name_any()) != workflow@.spec.version,
        ),
        r.1 == if workflow@.name is Some {
            Ok::<(), StorageError>(())
        } else {
            Err::<(), StorageError>(StorageError::NameRequired)
        },
{
    let name = workflow.name_any();
    let current_version = match store.current_version(name.as_str()) {
        Ok(version) => version,
        Err(_) => String::new(),
    };
    let version_changed = current_version != workflow.spec.version;
    let stored = store.add_workflow(workflow);
    (Action::WorkflowUpdated(name, version_changed), stored)
}

} // verus!
