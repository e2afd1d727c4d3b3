//! Messages consumed by the action loop.

use vstd::prelude::*;

verus! {

/// One message on the action channel.
#[derive(Hash, Eq, PartialEq, Debug)]
pub enum Action {
    /// A workflow was applied; the flag tells whether its version differs
    /// from the one last seen under that name.
    WorkflowUpdated(String, bool),
    /// Periodic hint to look at a workflow again.
    ReconcileWorkflow(String),
    /// A job for `(workflow, group)` ended; the flag is true on success.
    WorkflowJobFinished(String, String, bool),
}

/// What an `Action` holds, with strings as character sequences.
pub enum ActionView {
    WorkflowUpdated(Seq<char>, bool),
    ReconcileWorkflow(Seq<char>),
    WorkflowJobFinished(Seq<char>, Seq<char>, bool),
}

impl View for Action {
    type V = ActionView;

    open spec fn view(&self) -> ActionView {
        match *self {
            Action::WorkflowUpdated(name, changed) => ActionView::WorkflowUpdated(name@, changed),
            Action::ReconcileWorkflow(name) => ActionView::ReconcileWorkflow(name@),
            Action::WorkflowJobFinished(name, group, ok) => ActionView::WorkflowJobFinished(
                name@,
                group@,
                ok,
            ),
        }
    }
}

impl DeepView for Action {
    type V = ActionView;

    open spec fn deep_view(&self) -> ActionView {
        self@
    }
}

impl Clone for Action {
    fn clone(&self) -> (r: Self)
        ensures
            r@ == self@,
    {
        match self {
            Action::WorkflowUpdated(name, changed) => Action::WorkflowUpdated(name.clone(), *changed),
            Action::ReconcileWorkflow(name) => Action::ReconcileWorkflow(name.clone()),
            Action::WorkflowJobFinished(name, group, ok) => Action::WorkflowJobFinished(
                name.clone(),
                group.clone(),
                *ok,
            ),
        }
    }
}

} // verus!
