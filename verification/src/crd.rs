//! The workflow resource: a target version, the namespaces to roll it
//! across, suppression windows and the ordered steps of the rollout; and the
//! checksum that identifies one revision of it.

use std::hash::Hasher;
use vstd::prelude::*;
use vstd::seq_lib::lemma_sorted_unique;
use vstd::string::StringExecFns;
use vstd::utf8::encode_utf8;

use crate::text::decimal_digits;
use crate::text::decimal_string;
use crate::text::lemma_string_order_total;
use crate::text::sort_strings;
use crate::text::string_order;

verus! {

/// A deployment to update, with the containers whose image is rewritten.
#[derive(Debug, PartialEq, Eq)]
pub struct WorkflowStepActionTarget {
    pub resource: String,
    pub name: String,
    pub containers: Vec<String>,
}

pub struct WorkflowStepActionTargetView {
    pub resource: Seq<char>,
    pub name: Seq<char>,
    pub containers: Seq<Seq<char>>,
}

/// One action of a step: its kind and its targets, in order.
#[derive(Debug, PartialEq, Eq)]
pub struct WorkflowStepAction {
    pub action: String,
    pub targets: Vec<WorkflowStepActionTarget>,
}

pub struct WorkflowStepActionView {
    pub action: Seq<char>,
    pub targets: Seq<WorkflowStepActionTargetView>,
}

/// One step of a rollout: its actions, in order.
#[derive(Debug, PartialEq, Eq)]
pub struct WorkflowStep {
    pub actions: Vec<WorkflowStepAction>,
}

pub struct WorkflowStepView {
    pub actions: Seq<WorkflowStepActionView>,
}

/// What a workflow declares.
#[derive(Debug, PartialEq, Eq)]
pub struct WorkflowSpec {
    pub namespaces: Vec<String>,
    pub version: String,
    pub debounce: Option<u32>,
    pub parallel: Option<u32>,
    pub supression: Vec<String>,
    pub steps: Vec<WorkflowStep>,
}

pub struct WorkflowSpecView {
    pub namespaces: Seq<Seq<char>>,
    pub version: Seq<char>,
    pub debounce: Option<u32>,
    pub parallel: Option<u32>,
    pub supression: Seq<Seq<char>>,
    pub steps: Seq<WorkflowStepView>,
}

/// The part of a resource's metadata that the controller reads.
#[derive(Debug, PartialEq, Eq)]
pub struct WorkflowMetadata {
    pub name: Option<String>,
}

/// A workflow resource.
#[derive(Debug, PartialEq, Eq)]
pub struct Workflow {
    pub metadata: WorkflowMetadata,
    pub spec: WorkflowSpec,
}

pub struct WorkflowView {
    pub name: Option<Seq<char>>,
    pub spec: WorkflowSpecView,
}

impl View for WorkflowStepActionTarget {
    type V = WorkflowStepActionTargetView;

    open spec fn view(&self) -> WorkflowStepActionTargetView {
        WorkflowStepActionTargetView {
            resource: self.resource@,
            name: self.name@,
            containers: self.containers.deep_view(),
        }
    }
}

impl DeepView for WorkflowStepActionTarget {
    type V = WorkflowStepActionTargetView;

    open spec fn deep_view(&self) -> WorkflowStepActionTargetView {
        self@
    }
}

impl View for WorkflowStepAction {
    type V = WorkflowStepActionView;

    open spec fn view(&self) -> WorkflowStepActionView {
        WorkflowStepActionView { action: self.action@, targets: self.targets.deep_view() }
    }
}

impl DeepView for WorkflowStepAction {
    type V = WorkflowStepActionView;

    open spec fn deep_view(&self) -> WorkflowStepActionView {
        self@
    }
}

impl View for WorkflowStep {
    type V = WorkflowStepView;

    open spec fn view(&self) -> WorkflowStepView {
        WorkflowStepView { actions: self.actions.deep_view() }
    }
}

impl DeepView for WorkflowStep {
    type V = WorkflowStepView;

    open spec fn deep_view(&self) -> WorkflowStepView {
        self@
    }
}

impl View for WorkflowSpec {
    type V = WorkflowSpecView;

    open spec fn view(&self) -> WorkflowSpecView {
        WorkflowSpecView {
            namespaces: self.namespaces.deep_view(),
            version: self.version@,
            debounce: self.debounce,
            parallel: self.parallel,
            supression: self.supression.deep_view(),
            steps: self.steps.deep_view(),
        }
    }
}

impl View for Workflow {
    type V = WorkflowView;

    open spec fn view(&self) -> WorkflowView {
        WorkflowView {
            name: match self.metadata.name {
                Some(name) => Some(name@),
                None => None,
            },
            spec: self.spec@,
        }
    }
}

impl DeepView for WorkflowSpec {
    type V = WorkflowSpecView;

    open spec fn deep_view(&self) -> WorkflowSpecView {
        self@
    }
}

impl DeepView for Workflow {
    type V = WorkflowView;

    open spec fn deep_view(&self) -> WorkflowView {
        self@
    }
}

impl Clone for WorkflowStepActionTarget {
    fn clone(&self) -> (r: Self)
        ensures
            r@ == self@,
    {
        let r = WorkflowStepActionTarget {
            resource: self.resource.clone(),
            name: self.name.clone(),
            containers: self.containers.clone(),
        };
        assert(r.containers.deep_view() =~= self.containers.deep_view());
        r
    }
}

impl Clone for WorkflowStepAction {
    fn clone(&self) -> (r: Self)
        ensures
            r@ == self@,
    {
        let r = WorkflowStepAction { action: self.action.clone(), targets: self.targets.clone() };
        assert(r.targets.deep_view() =~= self.targets.deep_view());
        r
    }
}

impl Clone for WorkflowStep {
    fn clone(&self) -> (r: Self)
        ensures
            r@ == self@,
    {
        let r = WorkflowStep { actions: self.actions.clone() };
        assert(r.actions.deep_view() =~= self.actions.deep_view());
        r
    }
}

impl Clone for WorkflowSpec {
    fn clone(&self) -> (r: Self)
        ensures
            r@ == self@,
    {
        let r = WorkflowSpec {
            namespaces: self.namespaces.clone(),
            version: self.version.clone(),
            debounce: self.debounce,
            parallel: self.parallel,
            supression: self.supression.clone(),
            steps: self.steps.clone(),
        };
        assert(r.namespaces.deep_view() =~= self.namespaces.deep_view());
        assert(r.supression.deep_view() =~= self.supression.deep_view());
        assert(r.steps.deep_view() =~= self.steps.deep_view());
        r
    }
}

impl Clone for Workflow {
    fn clone(&self) -> (r: Self)
        ensures
            r@ == self@,
    {
        let name = match &self.metadata.name {
            Some(name) => Some(name.clone()),
            None => None,
        };
        Workflow { metadata: WorkflowMetadata { name }, spec: self.spec.clone() }
    }
}

/// The state a fresh FNV-1a hasher starts from.
pub const FNV_OFFSET: u64 = 0xcbf29ce484222325;

/// The factor of one FNV-1a round.
pub const FNV_PRIME: u64 = 0x100000001b3;

/// The 64-bit FNV-1a hash of `bytes` from `state`: for each byte in turn,
/// xor it into the state, then multiply by the prime, wrapping at 64 bits.
pub open spec fn fnv1a(state: u64, bytes: Seq<u8>) -> u64
    decreases bytes.len(),
{
    if bytes.len() == 0 {
        state
    } else {
        let mixed = fnv1a(state, bytes.drop_last()) ^ (bytes.last() as u64);
        ((mixed * FNV_PRIME) % 0x1_0000_0000_0000_0000) as u64
    }
}

/// Feeds `bytes` to a fresh `fnv::FnvHasher` with `Hasher::write` and reads
/// it with `Hasher::finish`.  The hasher starts at the offset basis; `write`
/// folds each byte in by xor and a wrapping multiplication by the prime;
/// `finish` hands the state out.
#[verifier::external_body]
fn fnv_hash(bytes: &[u8]) -> (h: u64)
    ensures
        h == fnv1a(FNV_OFFSET, bytes@),
{
    let mut hasher = fnv::FnvHasher::default();
    hasher.write(bytes);
    hasher.finish()
}

/// The FNV-1a hash of a text's UTF-8 bytes.
pub open spec fn text_checksum(text: Seq<char>) -> u64 {
    fnv1a(FNV_OFFSET, encode_utf8(text))
}

/// Puts `label` in front of a text.
pub open spec fn with_label(label: Seq<char>) -> spec_fn(Seq<char>) -> Seq<char> {
    |item: Seq<char>| label + item
}

/// Each item with `label` in front of it, all in one text.
pub open spec fn labelled(label: Seq<char>, items: Seq<Seq<char>>) -> Seq<char> {
    items.map_values(with_label(label)).flatten()
}

pub proof fn lemma_labelled_push(label: Seq<char>, items: Seq<Seq<char>>, item: Seq<char>)
    ensures
        labelled(label, items.push(item)) == labelled(label, items) + label + item,
{
    let f = with_label(label);
    assert(items.push(item).map_values(f) =~= items.map_values(f).push(f(item)));
    items.map_values(f).lemma_flatten_push(f(item));
    assert(labelled(label, items.push(item)) =~= labelled(label, items) + label + item);
}

fn append_labelled(text: &mut String, label: &str, items: &Vec<String>)
    ensures
        final(text)@ == old(text)@ + labelled(label@, items.deep_view()),
{
    let mut i: usize = 0;
    assert(items.deep_view().take(0) =~= Seq::<Seq<char>>::empty());
    assert(text@ =~= old(text)@ + labelled(label@, items.deep_view().take(0)));
    while i < items.len()
        invariant
            i <= items.len(),
            text@ == old(text)@ + labelled(label@, items.deep_view().take(i as int)),
        decreases items.len() - i,
    {
        let ghost done = items.deep_view().take(i as int);
        text.append(label);
        text.append(items[i].as_str());
        proof {
            assert(items.deep_view().take(i + 1) =~= done.push(items[i as int]@));
            lemma_labelled_push(label@, done, items[i as int]@);
            assert(text@ =~= old(text)@ + labelled(label@, items.deep_view().take(i + 1)));
        }
        i += 1;
    }
    assert(items.deep_view().take(i as int) =~= items.deep_view());
}

fn hash_text(text: &String) -> (h: u64)
    ensures
        h == text_checksum(text@),
{
    fnv_hash(text.as_str().as_bytes())
}

impl WorkflowStepActionTargetView {
    /// The text that is hashed: resource and name, then the containers in
    /// ascending order.
    pub open spec fn checksum_text(self) -> Seq<char> {
        "resource="@ + self.resource + " name="@ + self.name + labelled(
            "container="@,
            self.containers.sort_by(string_order()),
        )
    }

    pub open spec fn checksum(self) -> u64 {
        text_checksum(self.checksum_text())
    }

    /// The checksum as the decimal numeral that the enclosing action hashes.
    pub open spec fn numeral() -> spec_fn(WorkflowStepActionTargetView) -> Seq<char> {
        |t: WorkflowStepActionTargetView| decimal_digits(t.checksum() as nat)
    }
}

impl WorkflowStepActionView {
    /// The text that is hashed: the checksum of each target, in declared order.
    pub open spec fn checksum_text(self) -> Seq<char> {
        labelled("step="@, self.targets.map_values(WorkflowStepActionTargetView::numeral()))
    }

    pub open spec fn checksum(self) -> u64 {
        text_checksum(self.checksum_text())
    }

    pub open spec fn numeral() -> spec_fn(WorkflowStepActionView) -> Seq<char> {
        |a: WorkflowStepActionView| decimal_digits(a.checksum() as nat)
    }
}

impl WorkflowStepView {
    /// The text that is hashed: the checksum of each action, in declared order.
    pub open spec fn checksum_text(self) -> Seq<char> {
        labelled("step="@, self.actions.map_values(WorkflowStepActionView::numeral()))
    }

    pub open spec fn checksum(self) -> u64 {
        text_checksum(self.checksum_text())
    }

    pub open spec fn numeral() -> spec_fn(WorkflowStepView) -> Seq<char> {
        |s: WorkflowStepView| decimal_digits(s.checksum() as nat)
    }
}

impl WorkflowSpecView {
    /// The debounce that is hashed: zero where none is declared.
    pub open spec fn debounce_or_zero(self) -> u32 {
        match self.debounce {
            Some(seconds) => seconds,
            None => 0,
        }
    }

    /// The text that is hashed: the version, the namespaces in ascending
    /// order, the debounce, the suppressions in ascending order, and the
    /// checksum of each step in declared order.
    pub open spec fn checksum_text(self) -> Seq<char> {
        "version="@ + self.version + labelled(
            "namespace="@,
            self.namespaces.sort_by(string_order()),
        ) + "debounce="@ + decimal_digits(self.debounce_or_zero() as nat) + labelled(
            "supression="@,
            self.supression.sort_by(string_order()),
        ) + labelled("step="@, self.steps.map_values(WorkflowStepView::numeral()))
    }

    /// The checksum of a revision.
    pub open spec fn checksum(self) -> u64 {
        text_checksum(self.checksum_text())
    }
}

impl WorkflowStepActionTarget {
    pub fn checksum(&self) -> (h: u64)
        ensures
            h == self@.checksum(),
    {
        let mut text = String::from_str("resource=");
        text.append(self.resource.as_str());
        text.append(" name=");
        text.append(self.name.as_str());
        let containers = sort_strings(&self.containers);
        append_labelled(&mut text, "container=", &containers);
        assert(text@ =~= self@.checksum_text());
        hash_text(&text)
    }
}

impl WorkflowStepAction {
    pub fn checksum(&self) -> (h: u64)
        ensures
            h == self@.checksum(),
    {
        let ghost numeral = WorkflowStepActionTargetView::numeral();
        let mut sums: Vec<String> = Vec::new();
        let mut i: usize = 0;
        while i < self.targets.len()
            invariant
                i <= self.targets.len(),
                numeral == WorkflowStepActionTargetView::numeral(),
                sums.deep_view() =~= self.targets.deep_view().take(i as int).map_values(numeral),
            decreases self.targets.len() - i,
        {
            let ghost done = sums.deep_view();
            sums.push(decimal_string(self.targets[i].checksum()));
            proof {
                let item = self.targets[i as int]@;
                assert(sums.deep_view() =~= done.push(numeral(item)));
                assert(self.targets.deep_view().take(i + 1) =~= self.targets.deep_view().take(
                    i as int,
                ).push(item));
            }
            i += 1;
        }
        assert(self.targets.deep_view().take(i as int) =~= self.targets.deep_view());
        let mut text = String::new();
        append_labelled(&mut text, "step=", &sums);
        assert(text@ =~= self@.checksum_text());
        hash_text(&text)
    }
}

impl WorkflowStep {
    pub fn checksum(&self) -> (h: u64)
        ensures
            h == self@.checksum(),
    {
        let ghost numeral = WorkflowStepActionView::numeral();
        let mut sums: Vec<String> = Vec::new();
        let mut i: usize = 0;
        while i < self.actions.len()
            invariant
                i <= self.actions.len(),
                numeral == WorkflowStepActionView::numeral(),
                sums.deep_view() =~= self.actions.deep_view().take(i as int).map_values(numeral),
            decreases self.actions.len() - i,
        {
            let ghost done = sums.deep_view();
            sums.push(decimal_string(self.actions[i].checksum()));
            proof {
                let item = self.actions[i as int]@;
                assert(sums.deep_view() =~= done.push(numeral(item)));
                assert(self.actions.deep_view().take(i + 1) =~= self.actions.deep_view().take(
                    i as int,
                ).push(item));
            }
            i += 1;
        }
        assert(self.actions.deep_view().take(i as int) =~= self.actions.deep_view());
        let mut text = String::new();
        append_labelled(&mut text, "step=", &sums);
        assert(text@ =~= self@.checksum_text());
        hash_text(&text)
    }
}

impl WorkflowSpec {
    pub fn checksum(&self) -> (h: u64)
        ensures
            h == self@.checksum(),
    {
        let ghost numeral = WorkflowStepView::numeral();
        let mut sums: Vec<String> = Vec::new();
        let mut i: usize = 0;
        while i < self.steps.len()
            invariant
                i <= self.steps.len(),
                numeral == WorkflowStepView::numeral(),
                sums.deep_view() =~= self.steps.deep_view().take(i as int).map_values(numeral),
            decreases self.steps.len() - i,
        {
            let ghost done = sums.deep_view();
            sums.push(decimal_string(self.steps[i].checksum()));
            proof {
                let item = self.steps[i as int]@;
                assert(sums.deep_view() =~= done.push(numeral(item)));
                assert(self.steps.deep_view().take(i + 1) =~= self.steps.deep_view().take(
                    i as int,
                ).push(item));
            }
            i += 1;
        }
        assert(self.steps.deep_view().take(i as int) =~= self.steps.deep_view());
        let debounce: u32 = match self.debounce {
            Some(seconds) => seconds,
            None => 0,
        };
        let mut text = String::from_str("version=");
        text.append(self.version.as_str());
        let namespaces = sort_strings(&self.namespaces);
        append_labelled(&mut text, "namespace=", &namespaces);
        text.append("debounce=");
        text.append(decimal_string(debounce as u64).as_str());
        let supression = sort_strings(&self.supression);
        append_labelled(&mut text, "supression=", &supression);
        append_labelled(&mut text, "step=", &sums);
        assert(text@ =~= self@.checksum_text());
        hash_text(&text)
    }
}

impl Workflow {
    /// The checksum of the revision that this resource declares.
    pub fn checksum(&self) -> (h: u64)
        ensures
            h == self@.spec.checksum(),
    {
        self.spec.checksum()
    }
}

/// Two targets that differ at most in the order of their containers.
pub open spec fn same_target(a: WorkflowStepActionTargetView, b: WorkflowStepActionTargetView) -> bool {
    &&& a.resource == b.resource
    &&& a.name == b.name
    &&& a.containers.to_multiset() == b.containers.to_multiset()
}

pub open spec fn same_action(a: WorkflowStepActionView, b: WorkflowStepActionView) -> bool {
    &&& a.action == b.action
    &&& a.targets.len() == b.targets.len()
    &&& forall|i: int| 0 <= i < a.targets.len() ==> same_target(#[trigger] a.targets[i], b.targets[i])
}

pub open spec fn same_step(a: WorkflowStepView, b: WorkflowStepView) -> bool {
    &&& a.actions.len() == b.actions.len()
    &&& forall|i: int| 0 <= i < a.actions.len() ==> same_action(#[trigger] a.actions[i], b.actions[i])
}

/// Two revisions that differ at most in the order of their namespaces, of
/// their suppressions, and of the containers of a target.
pub open spec fn same_up_to_order(a: WorkflowSpecView, b: WorkflowSpecView) -> bool {
    &&& a.version == b.version
    &&& a.debounce == b.debounce
    &&& a.parallel == b.parallel
    &&& a.namespaces.to_multiset() == b.namespaces.to_multiset()
    &&& a.supression.to_multiset() == b.supression.to_multiset()
    &&& a.steps.len() == b.steps.len()
    &&& forall|i: int| 0 <= i < a.steps.len() ==> same_step(#[trigger] a.steps[i], b.steps[i])
}

/// Sorting forgets the order that the strings came in.
pub proof fn lemma_sorted_strings_agree(a: Seq<Seq<char>>, b: Seq<Seq<char>>)
    requires
        a.to_multiset() == b.to_multiset(),
    ensures
        a.sort_by(string_order()) == b.sort_by(string_order()),
{
    let leq = string_order();
    lemma_string_order_total();
    a.lemma_sort_by_ensures(leq);
    b.lemma_sort_by_ensures(leq);
    lemma_sorted_unique(a.sort_by(leq), b.sort_by(leq), leq);
}

pub proof fn lemma_target_checksum_ignores_order(
    a: WorkflowStepActionTargetView,
    b: WorkflowStepActionTargetView,
)
    requires
        same_target(a, b),
    ensures
        a.checksum() == b.checksum(),
{
    lemma_sorted_strings_agree(a.containers, b.containers);
}

pub proof fn lemma_action_checksum_ignores_order(a: WorkflowStepActionView, b: WorkflowStepActionView)
    requires
        same_action(a, b),
    ensures
        a.checksum() == b.checksum(),
{
    let numeral = WorkflowStepActionTargetView::numeral();
    assert forall|i: int| 0 <= i < a.targets.len() implies numeral(a.targets[i]) == numeral(
        b.targets[i],
    ) by {
        lemma_target_checksum_ignores_order(a.targets[i], b.targets[i]);
    }
    assert(a.targets.map_values(numeral) =~= b.targets.map_values(numeral));
}

pub proof fn lemma_step_checksum_ignores_order(a: WorkflowStepView, b: WorkflowStepView)
    requires
        same_step(a, b),
    ensures
        a.checksum() == b.checksum(),
{
    let numeral = WorkflowStepActionView::numeral();
    assert forall|i: int| 0 <= i < a.actions.len() implies numeral(a.actions[i]) == numeral(
        b.actions[i],
    ) by {
        lemma_action_checksum_ignores_order(a.actions[i], b.actions[i]);
    }
    assert(a.actions.map_values(numeral) =~= b.actions.map_values(numeral));
}

/// The checksum is a function of the normalized revision: the order in
/// which namespaces, suppressions and a target's containers are written
/// does not change it.
pub proof fn lemma_checksum_ignores_order(a: WorkflowSpecView, b: WorkflowSpecView)
    requires
        same_up_to_order(a, b),
    ensures
        a.checksum() == b.checksum(),
{
    let numeral = WorkflowStepView::numeral();
    assert forall|i: int| 0 <= i < a.steps.len() implies numeral(a.steps[i]) == numeral(
        b.steps[i],
    ) by {
        lemma_step_checksum_ignores_order(a.steps[i], b.steps[i]);
    }
    assert(a.steps.map_values(numeral) =~= b.steps.map_values(numeral));
    lemma_sorted_strings_agree(a.namespaces, b.namespaces);
    lemma_sorted_strings_agree(a.supression, b.supression);
}

} // verus!
