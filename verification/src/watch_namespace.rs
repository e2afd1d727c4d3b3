//! What the namespace watcher makes of what it sees.

use vstd::prelude::*;

use crate::crd_storage::MemoryWorkflowStorager;
use crate::k8s_util::annotation_true;
use crate::k8s_util::annotation_value;
use crate::k8s_util::is_truthy;

verus! {

/// The annotation that enables a namespace.
pub open spec fn enabled_annotation() -> Seq<char> {
    "workflow-deploy.ngerakines.me/enabled"@
}

/// Whether the annotations enable the namespace that carries them.
pub open spec fn enables(annotations: Seq<(Seq<char>, Seq<char>)>) -> bool {
    match annotation_value(annotations, enabled_annotation()) {
        Some(value) => is_truthy(value),
        None => false,
    }
}

/// A namespace was applied: it is enabled where its annotation says so,
/// and disabled otherwise.  Returns whether it is enabled.
pub fn namespace_applied(
    store: &mut MemoryWorkflowStorager,
    name: String,
    annotations: &Vec<(String, String)>,
) -> (enabled: bool)
    requires
        old(store).wf(),
    ensures
        final(store).wf(),
        enabled == enables(annotations.deep_view()),
        final(store)@ == if enabled {
            old(store)@.with_namespace(name@)
        } else {
            old(store)@.without_namespace(name@)
        },
{
    if annotation_true(annotations, "workflow-deploy.ngerakines.me/enabled") {
        store.enable_namespace(name);
        true
    } else {
        store.disable_namespace(name.as_str());
        false
    }
}

/// A namespace was deleted: it is disabled.
pub fn namespace_deleted(store: &mut MemoryWorkflowStorager, name: &str)
    requires
        old(store).wf(),
    ensures
        final(store).wf(),
        final(store)@ == old(store)@.without_namespace(name@),
{
    store.disable_namespace(name);
}

} // verus!
