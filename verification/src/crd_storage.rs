//! The in-memory view of what the watchers have seen: workflow revisions
//! by checksum, the latest revision of each name, the resources that belong
//! to a workflow, and the namespaces that are enabled.

use std::collections::HashMap;
use vstd::prelude::*;
use vstd::string::StringExecFns;

use crate::collections::distinct;
use crate::collections::distinct_keys;
use crate::collections::key_index;
use crate::collections::keys;
use crate::collections::lemma_filter_pairwise;
use crate::collections::lemma_filter_step;
use crate::collections::lemma_key_index;
use crate::collections::lemma_key_index_absent;
use crate::collections::lemma_key_index_is;
use crate::collections::lemma_upsert;
use crate::collections::lookup;
use crate::collections::upsert;
use crate::crd::Workflow;
use crate::crd::WorkflowView;

verus! {

broadcast use vstd::std_specs::hash::group_hash_axioms;

/// A deployment or job in a namespace that belongs to a workflow.
#[derive(Debug, PartialEq, Eq)]
pub struct KnownResource {
    pub namespace: String,
    pub kind: String,
    pub name: String,
    pub workflow: String,
    pub annotations: Vec<(String, String)>,
}

pub struct KnownResourceView {
    pub namespace: Seq<char>,
    pub kind: Seq<char>,
    pub name: Seq<char>,
    pub workflow: Seq<char>,
    pub annotations: Seq<(Seq<char>, Seq<char>)>,
}

impl View for KnownResource {
    type V = KnownResourceView;

    open spec fn view(&self) -> KnownResourceView {
        KnownResourceView {
            namespace: self.namespace@,
            kind: self.kind@,
            name: self.name@,
            workflow: self.workflow@,
            annotations: self.annotations.deep_view(),
        }
    }
}

impl DeepView for KnownResource {
    type V = KnownResourceView;

    open spec fn deep_view(&self) -> KnownResourceView {
        self@
    }
}

/// A copy of a list of annotations.
pub fn clone_pairs(pairs: &Vec<(String, String)>) -> (r: Vec<(String, String)>)
    ensures
        r.deep_view() == pairs.deep_view(),
{
    let mut r: Vec<(String, String)> = Vec::new();
    let mut i: usize = 0;
    while i < pairs.len()
        invariant
            i <= pairs.len(),
            r.deep_view() =~= pairs.deep_view().take(i as int),
        decreases pairs.len() - i,
    {
        let ghost done = r.deep_view();
        r.push((pairs[i].0.clone(), pairs[i].1.clone()));
        proof {
            let item = pairs.deep_view()[i as int];
            assert(r.deep_view() =~= done.push(item));
            assert(pairs.deep_view().take(i + 1) =~= pairs.deep_view().take(i as int).push(item));
        }
        i += 1;
    }
    assert(pairs.deep_view().take(i as int) =~= pairs.deep_view());
    r
}

/// Whether two lists of annotations hold the same pairs in the same order.
pub fn same_pairs(a: &Vec<(String, String)>, b: &Vec<(String, String)>) -> (r: bool)
    ensures
        r == (a.deep_view() == b.deep_view()),
{
    if a.len() != b.len() {
        return false;
    }
    let mut i: usize = 0;
    while i < a.len()
        invariant
            i <= a.len(),
            a.len() == b.len(),
            a.deep_view().take(i as int) =~= b.deep_view().take(i as int),
        decreases a.len() - i,
    {
        if !(a[i].0 == b[i].0 && a[i].1 == b[i].1) {
            assert(a.deep_view()[i as int] != b.deep_view()[i as int]);
            return false;
        }
        assert(a.deep_view().take(i + 1) =~= a.deep_view().take(i as int).push(
            a.deep_view()[i as int],
        ));
        assert(b.deep_view().take(i + 1) =~= b.deep_view().take(i as int).push(
            b.deep_view()[i as int],
        ));
        i += 1;
    }
    assert(a.deep_view().take(i as int) =~= a.deep_view());
    assert(b.deep_view().take(i as int) =~= b.deep_view());
    true
}

impl Clone for KnownResource {
    fn clone(&self) -> (r: Self)
        ensures
            r@ == self@,
    {
        KnownResource {
            namespace: self.namespace.clone(),
            kind: self.kind.clone(),
            name: self.name.clone(),
            workflow: self.workflow.clone(),
            annotations: clone_pairs(&self.annotations),
        }
    }
}

impl KnownResource {
    /// Whether two records hold the same values.
    pub fn same_as(&self, other: &KnownResource) -> (r: bool)
        ensures
            r == (self@ == other@),
    {
        self.namespace == other.namespace && self.kind == other.kind && self.name == other.name
            && self.workflow == other.workflow && same_pairs(&self.annotations, &other.annotations)
    }
}

impl KnownResourceView {
    /// The record is the resource `name` of `kind` in `namespace`.
    pub open spec fn is_at(self, namespace: Seq<char>, kind: Seq<char>, name: Seq<char>) -> bool {
        self.namespace == namespace && self.kind == kind && self.name == name
    }

    /// The record is a resource `name` of `kind` that belongs to `workflow`.
    pub open spec fn serves(self, workflow: Seq<char>, kind: Seq<char>, name: Seq<char>) -> bool {
        self.workflow == workflow && self.kind == kind && self.name == name
    }
}

/// Why the storage gives no answer.
#[derive(Debug, PartialEq, Eq, Clone, Copy, Structural)]
pub enum StorageError {
    /// Nothing is stored under the name or checksum asked for.
    NotFound,
    /// The workflow to store has no name.
    NameRequired,
}

impl StorageError {
    pub fn message(&self) -> (text: String)
        ensures
            *self == StorageError::NotFound ==> text@ == "not found"@,
            *self == StorageError::NameRequired ==> text@ == "workflow name is required"@,
    {
        match self {
            StorageError::NotFound => String::from_str("not found"),
            StorageError::NameRequired => String::from_str("workflow name is required"),
        }
    }
}

/// What the storage holds.
pub struct StorageView {
    /// Each stored revision, by checksum.
    pub workflows: Map<u64, WorkflowView>,
    /// The checksum of the latest revision of each name, names in the
    /// order in which they were first stored.
    pub latest: Seq<(Seq<char>, u64)>,
    /// The known resources, each with the readiness last reported for it.
    pub resources: Seq<(KnownResourceView, bool)>,
    /// The enabled namespaces.
    pub namespaces: Seq<Seq<char>>,
}

/// Keeps the resources that are not at the given place.
pub open spec fn not_at(namespace: Seq<char>, kind: Seq<char>, name: Seq<char>) -> spec_fn(
    (KnownResourceView, bool),
) -> bool {
    |entry: (KnownResourceView, bool)| !entry.0.is_at(namespace, kind, name)
}

/// Keeps the resources of a workflow.
pub open spec fn of_workflow(workflow: Seq<char>) -> spec_fn((KnownResourceView, bool)) -> bool {
    |entry: (KnownResourceView, bool)| entry.0.workflow == workflow
}

/// Keeps every name but one.
pub open spec fn other_than(name: Seq<char>) -> spec_fn(Seq<char>) -> bool {
    |item: Seq<char>| item != name
}

impl StorageView {
    /// No name, resource or namespace is held twice, and each latest
    /// checksum is that of a stored revision.
    pub open spec fn wf(self) -> bool {
        &&& distinct_keys(self.latest)
        &&& distinct_keys(self.resources)
        &&& distinct(self.namespaces)
        &&& forall|i: int|
            0 <= i < self.latest.len() ==> self.workflows.contains_key((#[trigger] self.latest[i]).1)
    }

    pub open spec fn empty() -> StorageView {
        StorageView {
            workflows: Map::empty(),
            latest: Seq::empty(),
            resources: Seq::empty(),
            namespaces: Seq::empty(),
        }
    }

    /// The checksum of the latest revision of `name`.
    pub open spec fn latest_checksum(self, name: Seq<char>) -> Option<u64> {
        lookup(self.latest, name)
    }

    /// The revision stored under `checksum`, or the latest of `name` where
    /// no checksum is given.
    pub open spec fn workflow(self, name: Seq<char>, checksum: Option<u64>) -> Option<WorkflowView> {
        let wanted = match checksum {
            Some(checksum) => Some(checksum),
            None => self.latest_checksum(name),
        };
        match wanted {
            Some(checksum) => if self.workflows.contains_key(checksum) {
                Some(self.workflows[checksum])
            } else {
                None
            },
            None => None,
        }
    }

    /// The latest revision of each name, in the order of the names.
    pub open spec fn latest_workflows(self) -> Seq<WorkflowView> {
        Seq::new(self.latest.len(), |i: int| self.workflows[self.latest[i].1])
    }

    /// The names of the stored workflows.
    pub open spec fn names(self) -> Seq<Seq<char>> {
        keys(self.latest)
    }

    /// Some known resource `name` of `kind` that belongs to `workflow` was
    /// last reported ready.
    pub open spec fn resource_ready(self, workflow: Seq<char>, kind: Seq<char>, name: Seq<char>) -> bool {
        exists|i: int|
            0 <= i < self.resources.len() && (#[trigger] self.resources[i]).0.serves(
                workflow,
                kind,
                name,
            ) && self.resources[i].1
    }

    /// The known resources of `workflow`.
    pub open spec fn resources_of(self, workflow: Seq<char>) -> Seq<KnownResourceView> {
        keys(self.resources.filter(of_workflow(workflow)))
    }

    /// The storage after `workflow`, named `name`, was stored.
    pub open spec fn with_workflow(self, name: Seq<char>, workflow: WorkflowView) -> StorageView {
        StorageView {
            workflows: self.workflows.insert(workflow.spec.checksum(), workflow),
            latest: upsert(self.latest, name, workflow.spec.checksum()),
            ..self
        }
    }

    /// The storage after `resource` was reported.
    pub open spec fn with_resource(self, resource: KnownResourceView, ready: bool) -> StorageView {
        StorageView { resources: upsert(self.resources, resource, ready), ..self }
    }

    /// The storage without the resources at the given place.
    pub open spec fn without_resource(
        self,
        namespace: Seq<char>,
        kind: Seq<char>,
        name: Seq<char>,
    ) -> StorageView {
        StorageView { resources: self.resources.filter(not_at(namespace, kind, name)), ..self }
    }

    pub open spec fn with_namespace(self, name: Seq<char>) -> StorageView {
        if self.namespaces.contains(name) {
            self
        } else {
            StorageView { namespaces: self.namespaces.push(name), ..self }
        }
    }

    pub open spec fn without_namespace(self, name: Seq<char>) -> StorageView {
        StorageView { namespaces: self.namespaces.filter(other_than(name)), ..self }
    }
}

/// In-memory storage.
pub struct MemoryWorkflowStorager {
    workflows: HashMap<u64, Workflow>,
    latest: Vec<(String, u64)>,
    resources: Vec<(KnownResource, bool)>,
    namespaces: Vec<String>,
}

/// The place of `name` among the keys of `entries`.
pub fn position_of_name<V: DeepView>(entries: &Vec<(String, V)>, name: &str) -> (r: Option<usize>)
    requires
        distinct_keys(entries.deep_view()),
    ensures
        match r {
            Some(i) => key_index(entries.deep_view(), name@) == i && i < entries.len(),
            None => key_index(entries.deep_view(), name@) == -1,
        },
{
    let key = String::from_str(name);
    let mut i: usize = 0;
    while i < entries.len()
        invariant
            i <= entries.len(),
            key@ == name@,
            distinct_keys(entries.deep_view()),
            forall|j: int| 0 <= j < i ==> (#[trigger] entries.deep_view()[j]).0 != name@,
        decreases entries.len() - i,
    {
        if entries[i].0 == key {
            proof {
                let all = entries.deep_view();
                assert(all[i as int].0 == name@);
                assert forall|j: int| i < j < all.len() implies (#[trigger] all[j]).0 != name@ by {
                    assert(all[i as int].0 != all[j].0);
                }
                lemma_key_index_is(all, name@, i as int);
            }
            return Some(i);
        }
        i += 1;
    }
    proof {
        lemma_key_index_absent(entries.deep_view(), name@);
    }
    None
}

impl View for MemoryWorkflowStorager {
    type V = StorageView;

    closed spec fn view(&self) -> StorageView {
        StorageView {
            workflows: self.workflows@.map_values(|w: Workflow| w@),
            latest: self.latest.deep_view(),
            resources: self.resources.deep_view(),
            namespaces: self.namespaces.deep_view(),
        }
    }
}

impl MemoryWorkflowStorager {
    /// The storage holds no entry twice and every latest revision.
    pub open spec fn wf(&self) -> bool {
        self@.wf()
    }

    /// An empty storage.
    pub fn new() -> (r: Self)
        ensures
            r.wf(),
            r@ == StorageView::empty(),
    {
        let r = MemoryWorkflowStorager {
            workflows: HashMap::new(),
            latest: Vec::new(),
            resources: Vec::new(),
            namespaces: Vec::new(),
        };
        assert(r@.workflows =~= Map::empty());
        assert(r@.latest =~= Seq::empty());
        assert(r@.resources =~= Seq::empty());
        assert(r@.namespaces =~= Seq::empty());
        r
    }

    /// Stores a revision under its checksum and makes it the latest of its
    /// name.  A workflow without a name is refused.
    pub fn add_workflow(&mut self, workflow: Workflow) -> (r: Result<(), StorageError>)
        requires
            old(self).wf(),
        ensures
            final(self).wf(),
            match workflow@.name {
                Some(name) => r == Ok::<(), StorageError>(()) && final(self)@ == old(self)@.with_workflow(
                    name,
                    workflow@,
                ),
                None => r == Err::<(), StorageError>(StorageError::NameRequired) && final(self)@ == old(
                    self,
                )@,
            },
    {
        if workflow.metadata.name.is_none() {
            return Err(StorageError::NameRequired);
        }
        let name = match &workflow.metadata.name {
            Some(name) => name.clone(),
            None => String::new(),
        };
        let checksum = workflow.checksum();
        let ghost before = self@;
        let ghost stored = workflow@;
        proof {
            lemma_upsert(before.latest, name@, checksum);
            lemma_key_index(before.latest, name@);
        }
        let found = position_of_name(&self.latest, name.as_str());
        self.workflows.insert(checksum, workflow);
        match found {
            Some(i) => {
                self.latest.set(i, (name, checksum));
            },
            None => {
                self.latest.push((name, checksum));
            },
        }
        proof {
            let after = self@;
            assert(after.workflows =~= before.workflows.insert(checksum, stored));
            assert(after.latest =~= upsert(before.latest, name@, checksum));
            assert forall|i: int| 0 <= i < after.latest.len() implies after.workflows.contains_key(
                (#[trigger] after.latest[i]).1,
            ) by {
                if after.latest[i].0 != name@ {
                    assert(after.latest[i] == before.latest[i]);
                }
            }
        }
        Ok(())
    }

    /// The checksum of the latest revision of `name`.
    pub fn lastest_workflow(&self, name: &str) -> (r: Result<u64, StorageError>)
        requires
            self.wf(),
        ensures
            r == match self@.latest_checksum(name@) {
                Some(checksum) => Ok::<u64, StorageError>(checksum),
                None => Err::<u64, StorageError>(StorageError::NotFound),
            },
    {
        match position_of_name(&self.latest, name) {
            Some(i) => Ok(self.latest[i].1),
            None => Err(StorageError::NotFound),
        }
    }

    /// The revision stored under `checksum`; without a checksum, the latest
    /// revision of `name`.
    pub fn get_workflow(&self, name: &str, checksum: Option<u64>) -> (r: Result<
        Workflow,
        StorageError,
    >)
        requires
            self.wf(),
        ensures
            match r {
                Ok(workflow) => self@.workflow(name@, checksum) == Some(workflow@),
                Err(e) => e == StorageError::NotFound && self@.workflow(name@, checksum) is None,
            },
    {
        let wanted = match checksum {
            Some(checksum) => checksum,
            None => match position_of_name(&self.latest, name) {
                Some(i) => self.latest[i].1,
                None => {
                    return Err(StorageError::NotFound);
                },
            },
        };
        match self.workflows.get(&wanted) {
            Some(workflow) => Ok(workflow.clone()),
            None => Err(StorageError::NotFound),
        }
    }

    /// The latest revision of every name.
    pub fn get_latest_workflows(&self) -> (r: Vec<Workflow>)
        requires
            self.wf(),
        ensures
            r.deep_view() == self@.latest_workflows(),
    {
        let mut r: Vec<Workflow> = Vec::new();
        let mut i: usize = 0;
        while i < self.latest.len()
            invariant
                i <= self.latest.len(),
                self.wf(),
                r.deep_view() =~= self@.latest_workflows().take(i as int),
            decreases self.latest.len() - i,
        {
            assert(self@.workflows.contains_key(self@.latest[i as int].1));
            let ghost done = r.deep_view();
            match self.workflows.get(&self.latest[i].1) {
                Some(workflow) => {
                    r.push(workflow.clone());
                },
                None => {},
            }
            proof {
                let item = self@.latest_workflows()[i as int];
                assert(r.deep_view() =~= done.push(item));
                assert(self@.latest_workflows().take(i + 1) =~= self@.latest_workflows().take(
                    i as int,
                ).push(item));
            }
            i += 1;
        }
        assert(self@.latest_workflows().take(i as int) =~= self@.latest_workflows());
        r
    }

    /// The names of the stored workflows.
    pub fn get_workflow_names(&self) -> (r: Vec<String>)
        ensures
            r.deep_view() == self@.names(),
    {
        let mut r: Vec<String> = Vec::new();
        let mut i: usize = 0;
        while i < self.latest.len()
            invariant
                i <= self.latest.len(),
                r.deep_view() =~= self@.names().take(i as int),
            decreases self.latest.len() - i,
        {
            let ghost done = r.deep_view();
            r.push(self.latest[i].0.clone());
            proof {
                let item = self@.names()[i as int];
                assert(r.deep_view() =~= done.push(item));
                assert(self@.names().take(i + 1) =~= self@.names().take(i as int).push(item));
            }
            i += 1;
        }
        assert(self@.names().take(i as int) =~= self@.names());
        r
    }

    /// The version that the latest revision of `name` declares.
    pub fn current_version(&self, name: &str) -> (r: Result<String, StorageError>)
        requires
            self.wf(),
        ensures
            match r {
                Ok(version) => self@.workflow(name@, None) matches Some(w) && w.spec.version
                    == version@,
                Err(e) => e == StorageError::NotFound && self@.workflow(name@, None) is None,
            },
    {
        match self.get_workflow(name, None) {
            Ok(workflow) => Ok(workflow.spec.version),
            Err(e) => Err(e),
        }
    }

    /// Records a resource with its readiness; a record that is already
    /// known keeps its place and takes the new readiness.
    pub fn add_resource(&mut self, resource: KnownResource, ready: bool)
        requires
            old(self).wf(),
        ensures
            final(self).wf(),
            final(self)@ == old(self)@.with_resource(resource@, ready),
    {
        let ghost before = self@;
        proof {
            lemma_upsert(before.resources, resource@, ready);
        }
        let mut i: usize = 0;
        while i < self.resources.len()
            invariant
                i <= self.resources.len(),
                self@ == before,
                before == old(self)@,
                before.wf(),
                distinct_keys(upsert(before.resources, resource@, ready)),
                forall|j: int| 0 <= j < i ==> (#[trigger] before.resources[j]).0 != resource@,
            decreases self.resources.len() - i,
        {
            if self.resources[i].0.same_as(&resource) {
                proof {
                    assert forall|j: int| i < j < before.resources.len() implies (
                    #[trigger] before.resources[j]).0 != resource@ by {
                        assert(before.resources[i as int].0 != before.resources[j].0);
                    }
                    lemma_key_index_is(before.resources, resource@, i as int);
                }
                self.resources.set(i, (resource, ready));
                assert(self@.resources =~= upsert(before.resources, resource@, ready));
                assert(self@.workflows =~= before.workflows);
                return ;
            }
            i += 1;
        }
        proof {
            lemma_key_index_absent(before.resources, resource@);
        }
        self.resources.push((resource, ready));
        assert(self@.resources =~= upsert(before.resources, resource@, ready));
        assert(self@.workflows =~= before.workflows);
    }

    /// Forgets the resource `name` of `kind` in `namespace`.
    pub fn remove_resource(&mut self, namespace: &str, kind: &str, name: &str)
        requires
            old(self).wf(),
        ensures
            final(self).wf(),
            final(self)@ == old(self)@.without_resource(namespace@, kind@, name@),
    {
        let ghost before = self@;
        let ghost keep = not_at(namespace@, kind@, name@);
        let namespace_key = String::from_str(namespace);
        let kind_key = String::from_str(kind);
        let name_key = String::from_str(name);
        let mut kept: Vec<(KnownResource, bool)> = Vec::new();
        let mut i: usize = 0;
        assert(before.resources.take(0) =~= Seq::empty());
        assert(Seq::<(KnownResourceView, bool)>::empty().filter(keep) =~= Seq::empty()) by {
            reveal(Seq::filter);
        }
        while i < self.resources.len()
            invariant
                i <= self.resources.len(),
                self@ == before,
                keep == not_at(namespace@, kind@, name@),
                namespace_key@ == namespace@,
                kind_key@ == kind@,
                name_key@ == name@,
                kept.deep_view() =~= before.resources.take(i as int).filter(keep),
            decreases self.resources.len() - i,
        {
            proof {
                lemma_filter_step(before.resources, keep, i as int);
            }
            let entry = &self.resources[i];
            if !(entry.0.namespace == namespace_key && entry.0.kind == kind_key && entry.0.name
                == name_key) {
                kept.push((entry.0.clone(), entry.1));
            }
            i += 1;
        }
        proof {
            assert(before.resources.take(i as int) =~= before.resources);
            lemma_filter_pairwise(
                before.resources,
                keep,
                |a: (KnownResourceView, bool), b: (KnownResourceView, bool)| a.0 != b.0,
            );
        }
        self.resources = kept;
        assert(self@.workflows =~= before.workflows);
    }

    /// The known resources of `workflow`.
    pub fn workflow_resources(&self, workflow: &str) -> (r: Vec<KnownResource>)
        ensures
            r.deep_view() == self@.resources_of(workflow@),
    {
        let ghost keep = of_workflow(workflow@);
        let ghost all = self@.resources;
        let key = String::from_str(workflow);
        let mut r: Vec<KnownResource> = Vec::new();
        let mut i: usize = 0;
        assert(all.take(0) =~= Seq::empty());
        assert(Seq::<(KnownResourceView, bool)>::empty().filter(keep) =~= Seq::empty()) by {
            reveal(Seq::filter);
        }
        while i < self.resources.len()
            invariant
                i <= self.resources.len(),
                all == self@.resources,
                keep == of_workflow(workflow@),
                key@ == workflow@,
                r.deep_view() =~= keys(all.take(i as int).filter(keep)),
            decreases self.resources.len() - i,
        {
            proof {
                lemma_filter_step(all, keep, i as int);
            }
            let ghost done = r.deep_view();
            let ghost chosen = all.take(i as int).filter(keep);
            if self.resources[i].0.workflow == key {
                r.push(self.resources[i].0.clone());
                proof {
                    assert(r.deep_view() =~= done.push(all[i as int].0));
                    assert(keys(chosen.push(all[i as int])) =~= keys(chosen).push(all[i as int].0));
                }
            }
            i += 1;
        }
        assert(all.take(i as int) =~= all);
        r
    }

    /// Whether some known resource `name` of `kind` that belongs to
    /// `workflow` was last reported ready.
    pub fn is_resource_ready(&self, workflow: &str, kind: &str, name: &str) -> (r: bool)
        ensures
            r == self@.resource_ready(workflow@, kind@, name@),
    {
        let workflow_key = String::from_str(workflow);
        let kind_key = String::from_str(kind);
        let name_key = String::from_str(name);
        let mut i: usize = 0;
        while i < self.resources.len()
            invariant
                i <= self.resources.len(),
                workflow_key@ == workflow@,
                kind_key@ == kind@,
                name_key@ == name@,
                forall|j: int|
                    0 <= j < i ==> !((#[trigger] self@.resources[j]).0.serves(
                        workflow@,
                        kind@,
                        name@,
                    ) && self@.resources[j].1),
            decreases self.resources.len() - i,
        {
            let entry = &self.resources[i];
            if entry.1 && entry.0.workflow == workflow_key && entry.0.kind == kind_key
                && entry.0.name == name_key {
                assert(self@.resources[i as int].0.serves(workflow@, kind@, name@)
                    && self@.resources[i as int].1);
                return true;
            }
            i += 1;
        }
        false
    }

    /// Adds a namespace to those that are enabled.
    pub fn enable_namespace(&mut self, name: String)
        requires
            old(self).wf(),
        ensures
            final(self).wf(),
            final(self)@ == old(self)@.with_namespace(name@),
    {
        let ghost before = self@;
        if !self.namespace_enabled(name.as_str()) {
            self.namespaces.push(name);
            assert(self@.namespaces =~= before.namespaces.push(name@));
            assert(self@.workflows =~= before.workflows);
            assert forall|i: int, j: int| 0 <= i < j < self@.namespaces.len() implies #[trigger] self@.namespaces[i]
                != #[trigger] self@.namespaces[j] by {
                if j == before.namespaces.len() {
                    assert(before.namespaces.contains(before.namespaces[i]));
                } else {
                    assert(before.namespaces[i] != before.namespaces[j]);
                }
            }
        }
    }

    /// Takes a namespace from those that are enabled.
    pub fn disable_namespace(&mut self, name: &str)
        requires
            old(self).wf(),
        ensures
            final(self).wf(),
            final(self)@ == old(self)@.without_namespace(name@),
    {
        let ghost before = self@;
        let ghost keep = other_than(name@);
        let key = String::from_str(name);
        let mut kept: Vec<String> = Vec::new();
        let mut i: usize = 0;
        assert(before.namespaces.take(0) =~= Seq::empty());
        assert(Seq::<Seq<char>>::empty().filter(keep) =~= Seq::empty()) by {
            reveal(Seq::filter);
        }
        while i < self.namespaces.len()
            invariant
                i <= self.namespaces.len(),
                self@ == before,
                keep == other_than(name@),
                key@ == name@,
                kept.deep_view() =~= before.namespaces.take(i as int).filter(keep),
            decreases self.namespaces.len() - i,
        {
            proof {
                lemma_filter_step(before.namespaces, keep, i as int);
            }
            if self.namespaces[i] != key {
                kept.push(self.namespaces[i].clone());
            }
            i += 1;
        }
        proof {
            assert(before.namespaces.take(i as int) =~= before.namespaces);
            lemma_filter_pairwise(
                before.namespaces,
                keep,
                |a: Seq<char>, b: Seq<char>| a != b,
            );
        }
        self.namespaces = kept;
        assert(self@.workflows =~= before.workflows);
    }

    /// Whether a namespace is enabled.
    pub fn namespace_enabled(&self, name: &str) -> (r: bool)
        ensures
            r == self@.namespaces.contains(name@),
    {
        let key = String::from_str(name);
        let mut i: usize = 0;
        while i < self.namespaces.len()
            invariant
                i <= self.namespaces.len(),
                key@ == name@,
                forall|j: int| 0 <= j < i ==> self@.namespaces[j] != name@,
            decreases self.namespaces.len() - i,
        {
            if self.namespaces[i] == key {
                assert(self@.namespaces[i as int] == name@);
                return true;
            }
            i += 1;
        }
        false
    }
}

/// The storage of the given kind.  The only kind is `memory`.
pub fn get_workflow_storage(workflow_storage_type: &str) -> (r: MemoryWorkflowStorager)
    requires
        workflow_storage_type@ == "memory"@,
    ensures
        r.wf(),
        r@ == StorageView::empty(),
{
    MemoryWorkflowStorager::new()
}

} // verus!
