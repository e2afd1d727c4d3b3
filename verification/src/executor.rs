//! The executor of one job: the plan it derives from a revision, and the
//! steps by which it patches deployments and waits for them to be ready.
//!
//! The executor decides; its caller ticks it once a second, fetches and
//! patches deployments when told to, and reports back what came of it.

use vstd::prelude::*;
use vstd::string::StringExecFns;

use crate::action_loop::WorkflowJob;
use crate::collections::lemma_filter_none;
use crate::collections::lemma_filter_single;
use crate::crd::WorkflowSpec;
use crate::crd::WorkflowSpecView;
use crate::crd::WorkflowStep;
use crate::crd::WorkflowStepAction;
use crate::crd::WorkflowStepActionTargetView;
use crate::crd::WorkflowStepActionView;
use crate::crd::WorkflowStepView;
use crate::crd_storage::MemoryWorkflowStorager;
use crate::crd_storage::StorageError;
use crate::crd_storage::StorageView;
use crate::crd_storage::clone_pairs;
use crate::k8s_util::annotation_value;
use crate::k8s_util::find_annotation;
use crate::k8s_util::replace_last;
use crate::k8s_util::spec_replace_last;
use crate::text::decimal_digits;
use crate::text::decimal_string;
use crate::time::Timestamp;

verus! {

/// After a patch the executor waits this long before it asks for readiness.
pub const GRACE_SECONDS: u32 = 5;

/// A deployment that is not ready this long after its patch has timed out.
pub const READY_TIMEOUT_SECONDS: u32 = 90;

/// The bound of the timeout test itself.  It is tested only once the
/// longer wait is over, so it never decides.
pub const TIMEOUT_FLOOR_SECONDS: u32 = 30;

/// One entry of a plan.
#[derive(Debug, PartialEq, Eq)]
pub enum WorkflowAction {
    /// Marks the start of the plan.
    Started,
    /// Set the image version of the named containers of a deployment.
    UpdateDeployment(String, Vec<(String, String)>),
    /// Wait until a deployment is ready.
    WaitDeploymentReady(String),
}

pub enum WorkflowActionView {
    Started,
    UpdateDeployment(Seq<char>, Seq<(Seq<char>, Seq<char>)>),
    WaitDeploymentReady(Seq<char>),
}

impl View for WorkflowAction {
    type V = WorkflowActionView;

    open spec fn view(&self) -> WorkflowActionView {
        match *self {
            WorkflowAction::Started => WorkflowActionView::Started,
            WorkflowAction::UpdateDeployment(name, versions) => WorkflowActionView::UpdateDeployment(
                name@,
                versions.deep_view(),
            ),
            WorkflowAction::WaitDeploymentReady(name) => WorkflowActionView::WaitDeploymentReady(
                name@,
            ),
        }
    }
}

impl DeepView for WorkflowAction {
    type V = WorkflowActionView;

    open spec fn deep_view(&self) -> WorkflowActionView {
        self@
    }
}

impl Clone for WorkflowAction {
    fn clone(&self) -> (r: Self)
        ensures
            r@ == self@,
    {
        match self {
            WorkflowAction::Started => WorkflowAction::Started,
            WorkflowAction::UpdateDeployment(name, versions) => WorkflowAction::UpdateDeployment(
                name.clone(),
                clone_pairs(versions),
            ),
            WorkflowAction::WaitDeploymentReady(name) => WorkflowAction::WaitDeploymentReady(
                name.clone(),
            ),
        }
    }
}

/// The kind under which deployments are known to the storage.
pub open spec fn deployment_kind() -> Seq<char> {
    "apps/v1;Deployment"@
}

/// The name of the action that updates deployments.
pub open spec fn update_deployment() -> Seq<char> {
    "update_deployment"@
}

/// Pairs a container with the version it is to run.
pub open spec fn at_version(version: Seq<char>) -> spec_fn(Seq<char>) -> (Seq<char>, Seq<char>) {
    |container: Seq<char>| (container, version)
}

/// The update of one target to `version`.
pub open spec fn update_of(version: Seq<char>) -> spec_fn(
    WorkflowStepActionTargetView,
) -> WorkflowActionView {
    |target: WorkflowStepActionTargetView|
        WorkflowActionView::UpdateDeployment(
            target.name,
            target.containers.map_values(at_version(version)),
        )
}

/// The wait for one target.
pub open spec fn wait_of() -> spec_fn(WorkflowStepActionTargetView) -> WorkflowActionView {
    |target: WorkflowStepActionTargetView| WorkflowActionView::WaitDeploymentReady(target.name)
}

/// The plan of one action: the update of each target, then the wait for
/// each target.  An action of another kind plans nothing.
pub open spec fn action_plan(action: WorkflowStepActionView, version: Seq<char>) -> Seq<
    WorkflowActionView,
> {
    if action.action == update_deployment() {
        action.targets.map_values(update_of(version)) + action.targets.map_values(wait_of())
    } else {
        Seq::empty()
    }
}

pub open spec fn action_plan_at(version: Seq<char>) -> spec_fn(WorkflowStepActionView) -> Seq<
    WorkflowActionView,
> {
    |action: WorkflowStepActionView| action_plan(action, version)
}

/// The plan of one step: the plans of its actions, in order.
pub open spec fn step_plan(step: WorkflowStepView, version: Seq<char>) -> Seq<WorkflowActionView> {
    step.actions.map_values(action_plan_at(version)).flatten()
}

pub open spec fn step_plan_at(version: Seq<char>) -> spec_fn(WorkflowStepView) -> Seq<
    WorkflowActionView,
> {
    |step: WorkflowStepView| step_plan(step, version)
}

/// The plan of a revision: the start mark, then the plans of its steps in
/// order.
pub open spec fn plan_of(spec: WorkflowSpecView) -> Seq<WorkflowActionView> {
    seq![WorkflowActionView::Started] + spec.steps.map_values(step_plan_at(spec.version)).flatten()
}

fn versions_for(containers: &Vec<String>, version: &String) -> (r: Vec<(String, String)>)
    ensures
        r.deep_view() == containers.deep_view().map_values(at_version(version@)),
{
    let mut r: Vec<(String, String)> = Vec::new();
    let mut i: usize = 0;
    while i < containers.len()
        invariant
            i <= containers.len(),
            r.deep_view() =~= containers.deep_view().take(i as int).map_values(at_version(version@)),
        decreases containers.len() - i,
    {
        let ghost done = r.deep_view();
        r.push((containers[i].clone(), version.clone()));
        proof {
            let item = containers.deep_view()[i as int];
            assert(r.deep_view() =~= done.push((item, version@)));
            assert(containers.deep_view().take(i + 1) =~= containers.deep_view().take(i as int).push(
                item,
            ));
        }
        i += 1;
    }
    assert(containers.deep_view().take(i as int) =~= containers.deep_view());
    r
}

/// The plan of one action.
pub fn plan_action(action: &WorkflowStepAction, version: &String) -> (r: Vec<WorkflowAction>)
    ensures
        r.deep_view() == action_plan(action@, version@),
{
    let mut r: Vec<WorkflowAction> = Vec::new();
    if action.action != String::from_str("update_deployment") {
        assert(r.deep_view() =~= Seq::empty());
        return r;
    }
    let ghost targets = action.targets.deep_view();
    let mut i: usize = 0;
    while i < action.targets.len()
        invariant
            i <= action.targets.len(),
            targets == action.targets.deep_view(),
            r.deep_view() =~= targets.take(i as int).map_values(update_of(version@)),
        decreases action.targets.len() - i,
    {
        let ghost done = r.deep_view();
        let target = &action.targets[i];
        r.push(
            WorkflowAction::UpdateDeployment(
                target.name.clone(),
                versions_for(&target.containers, version),
            ),
        );
        proof {
            assert(r.deep_view() =~= done.push(update_of(version@)(targets[i as int])));
            assert(targets.take(i + 1) =~= targets.take(i as int).push(targets[i as int]));
        }
        i += 1;
    }
    assert(targets.take(i as int) =~= targets);
    let ghost updates = r.deep_view();
    let mut j: usize = 0;
    while j < action.targets.len()
        invariant
            j <= action.targets.len(),
            targets == action.targets.deep_view(),
            r.deep_view() =~= updates + targets.take(j as int).map_values(wait_of()),
        decreases action.targets.len() - j,
    {
        let ghost done = r.deep_view();
        r.push(WorkflowAction::WaitDeploymentReady(action.targets[j].name.clone()));
        proof {
            assert(r.deep_view() =~= done.push(wait_of()(targets[j as int])));
            assert(targets.take(j + 1) =~= targets.take(j as int).push(targets[j as int]));
        }
        j += 1;
    }
    assert(targets.take(j as int) =~= targets);
    r
}

/// The plan of one step.
pub fn plan_step(step: &WorkflowStep, version: &String) -> (r: Vec<WorkflowAction>)
    ensures
        r.deep_view() == step_plan(step@, version@),
{
    let ghost actions = step.actions.deep_view();
    let ghost plan = action_plan_at(version@);
    let mut r: Vec<WorkflowAction> = Vec::new();
    let mut i: usize = 0;
    assert(actions.take(0).map_values(plan) =~= Seq::empty());
    while i < step.actions.len()
        invariant
            i <= step.actions.len(),
            actions == step.actions.deep_view(),
            plan == action_plan_at(version@),
            r.deep_view() =~= actions.take(i as int).map_values(plan).flatten(),
        decreases step.actions.len() - i,
    {
        let ghost done = r.deep_view();
        let mut part = plan_action(&step.actions[i], version);
        let ghost added = part.deep_view();
        r.append(&mut part);
        proof {
            assert(r.deep_view() =~= done + added);
            assert(actions.take(i + 1).map_values(plan) =~= actions.take(i as int).map_values(
                plan,
            ).push(plan(actions[i as int])));
            actions.take(i as int).map_values(plan).lemma_flatten_push(plan(actions[i as int]));
        }
        i += 1;
    }
    assert(actions.take(i as int) =~= actions);
    r
}

/// The plan of a revision.
pub fn build_plan(spec: &WorkflowSpec) -> (r: Vec<WorkflowAction>)
    ensures
        r.deep_view() == plan_of(spec@),
{
    let ghost steps = spec.steps.deep_view();
    let ghost plan = step_plan_at(spec.version@);
    let mut r: Vec<WorkflowAction> = Vec::new();
    r.push(WorkflowAction::Started);
    let mut i: usize = 0;
    assert(steps.take(0).map_values(plan) =~= Seq::empty());
    assert(r.deep_view() =~= seq![WorkflowActionView::Started]);
    while i < spec.steps.len()
        invariant
            i <= spec.steps.len(),
            steps == spec.steps.deep_view(),
            plan == step_plan_at(spec.version@),
            r.deep_view() =~= seq![WorkflowActionView::Started] + steps.take(i as int).map_values(
                plan,
            ).flatten(),
        decreases spec.steps.len() - i,
    {
        let ghost done = r.deep_view();
        let mut part = plan_step(&spec.steps[i], &spec.version);
        let ghost added = part.deep_view();
        r.append(&mut part);
        proof {
            assert(r.deep_view() =~= done + added);
            assert(steps.take(i + 1).map_values(plan) =~= steps.take(i as int).map_values(plan).push(
                plan(steps[i as int]),
            ));
            steps.take(i as int).map_values(plan).lemma_flatten_push(plan(steps[i as int]));
        }
        i += 1;
    }
    assert(steps.take(i as int) =~= steps);
    r
}

/// A container of a deployment's pod template, as far as the executor reads it.
#[derive(Debug, PartialEq, Eq)]
pub struct Container {
    pub name: String,
    pub image: Option<String>,
}

pub struct ContainerView {
    pub name: Seq<char>,
    pub image: Option<Seq<char>>,
}

impl View for Container {
    type V = ContainerView;

    open spec fn view(&self) -> ContainerView {
        ContainerView {
            name: self.name@,
            image: match self.image {
                Some(image) => Some(image@),
                None => None,
            },
        }
    }
}

impl DeepView for Container {
    type V = ContainerView;

    open spec fn deep_view(&self) -> ContainerView {
        self@
    }
}

/// One replacement of a JSON patch: the new image of the container at `index`.
#[derive(Debug, PartialEq, Eq)]
pub struct ImagePatch {
    pub index: usize,
    pub path: String,
    pub image: String,
}

pub struct ImagePatchView {
    pub index: usize,
    pub path: Seq<char>,
    pub image: Seq<char>,
}

impl View for ImagePatch {
    type V = ImagePatchView;

    open spec fn view(&self) -> ImagePatchView {
        ImagePatchView { index: self.index, path: self.path@, image: self.image@ }
    }
}

impl DeepView for ImagePatch {
    type V = ImagePatchView;

    open spec fn deep_view(&self) -> ImagePatchView {
        self@
    }
}

/// Where the image of the container at `index` stands in a deployment.
pub open spec fn image_path(index: nat) -> Seq<char> {
    "/spec/template/spec/containers/"@ + decimal_digits(index) + "/image"@
}

/// The replacement for the container at `index`: none where no version is
/// planned for its name or it has no image.
pub open spec fn patch_for(
    container: ContainerView,
    index: int,
    versions: Seq<(Seq<char>, Seq<char>)>,
) -> Option<ImagePatchView> {
    match (annotation_value(versions, container.name), container.image) {
        (Some(version), Some(image)) => Some(
            ImagePatchView {
                index: index as usize,
                path: image_path(index as nat),
                image: spec_replace_last(image, ':', version),
            },
        ),
        _ => None,
    }
}

/// The replacements for a deployment's containers, in their order.
pub open spec fn spec_image_patches(
    containers: Seq<ContainerView>,
    versions: Seq<(Seq<char>, Seq<char>)>,
) -> Seq<ImagePatchView>
    decreases containers.len(),
{
    if containers.len() == 0 {
        Seq::empty()
    } else {
        let before = spec_image_patches(containers.drop_last(), versions);
        match patch_for(containers.last(), containers.len() - 1, versions) {
            Some(patch) => before.push(patch),
            None => before,
        }
    }
}

/// The path and the new image of a replacement.
pub open spec fn replacement_of() -> spec_fn(ImagePatchView) -> (Seq<char>, Seq<char>) {
    |patch: ImagePatchView| (patch.path, patch.image)
}

/// A text that is a JSON pointer on its face: it starts with `/` and holds
/// no `~`, so nothing in it is escaped.
pub open spec fn plain_pointer(path: Seq<char>) -> bool {
    &&& path.len() > 0
    &&& path[0] == '/'
    &&& forall|i: int| 0 <= i < path.len() ==> #[trigger] path[i] != '~'
}

/// `json_patch::Patch`, a JSON patch document.  Nothing is known of a
/// value of it but what `patch_replacements` names.
#[verifier::external_type_specification]
#[verifier::external_body]
pub struct ExJsonPatch(json_patch::Patch);

/// `json_patch::PatchOperation`, one operation of a document.  It is
/// declared because a document hands its operations out as a slice; no
/// value of it is used here.
#[verifier::external_type_specification]
#[verifier::external_body]
pub struct ExJsonPatchOperation(json_patch::PatchOperation);

/// What a JSON patch document of replacements holds: for each operation
/// in order, the path it points to and the text it sets there.
pub uninterp spec fn patch_replacements(document: json_patch::Patch) -> Seq<(Seq<char>, Seq<char>)>;

/// Builds a `json_patch::Patch` of `Replace` operations, one for each
/// replacement in order.  Each path is parsed by
/// `jsonptr::PointerBuf::parse`, which accepts the empty text and any text
/// that starts with `/` and in which each `~` is followed by `0` or `1`, so
/// it accepts every plain pointer; each value is the JSON string of the
/// image.  A path that is refused gives no document.
#[verifier::external_body]
fn replace_document(patches: &Vec<ImagePatch>) -> (r: Option<json_patch::Patch>)
    ensures
        (forall|i: int| 0 <= i < patches.len() ==> plain_pointer((#[trigger] patches[i])@.path))
            ==> r is Some,
        r matches Some(document) ==> patch_replacements(document) == patches.deep_view().map_values(
            replacement_of(),
        ),
{
    let mut operations = Vec::new();
    for patch in patches.iter() {
        let path = json_patch::jsonptr::PointerBuf::parse(patch.path.as_str()).ok()?;
        let value = serde_json::Value::String(patch.image.clone());
        let operation = json_patch::ReplaceOperation { path, value };
        operations.push(json_patch::PatchOperation::Replace(operation));
    }
    Some(json_patch::Patch(operations))
}

/// Decimal digits are no `~`.
pub proof fn lemma_decimal_digits_plain(n: nat)
    ensures
        decimal_digits(n).len() > 0,
        forall|i: int| 0 <= i < decimal_digits(n).len() ==> #[trigger] decimal_digits(n)[i] != '~',
    decreases n,
{
    if n >= 10 {
        lemma_decimal_digits_plain(n / 10);
    }
}

/// The path of a container's image is a JSON pointer on its face.
pub proof fn lemma_image_path_plain(index: nat)
    ensures
        plain_pointer(image_path(index)),
{
    reveal_strlit("/spec/template/spec/containers/");
    reveal_strlit("/image");
    lemma_decimal_digits_plain(index);
    let head = "/spec/template/spec/containers/"@;
    let digits = decimal_digits(index);
    let tail = "/image"@;
    let path = image_path(index);
    assert(path[0] == head[0]);
    assert forall|i: int| 0 <= i < path.len() implies #[trigger] path[i] != '~' by {
        if i < head.len() {
            assert(path[i] == head[i]);
        } else if i < head.len() + digits.len() {
            assert(path[i] == digits[i - head.len()]);
        } else {
            assert(path[i] == tail[i - head.len() - digits.len()]);
        }
    }
}

/// Every replacement points to the image of the container it is for.
pub proof fn lemma_image_patches_paths(
    containers: Seq<ContainerView>,
    versions: Seq<(Seq<char>, Seq<char>)>,
)
    ensures
        forall|i: int|
            0 <= i < spec_image_patches(containers, versions).len() ==> plain_pointer(
                (#[trigger] spec_image_patches(containers, versions)[i]).path,
            ),
    decreases containers.len(),
{
    if containers.len() > 0 {
        lemma_image_patches_paths(containers.drop_last(), versions);
        lemma_image_path_plain((containers.len() - 1) as nat);
        let before = spec_image_patches(containers.drop_last(), versions);
        let all = spec_image_patches(containers, versions);
        assert forall|i: int| 0 <= i < all.len() implies plain_pointer((#[trigger] all[i]).path) by {
            if i < before.len() {
                assert(all[i] == before[i]);
            }
        }
    }
}

/// The JSON patch that sets the planned versions: for each container that
/// the plan names and that has an image, the image with what follows its
/// last `:` replaced by the version.
pub fn image_patches(containers: &Vec<Container>, versions: &Vec<(String, String)>) -> (r: Vec<
    ImagePatch,
>)
    ensures
        r.deep_view() == spec_image_patches(containers.deep_view(), versions.deep_view()),
{
    let ghost all = containers.deep_view();
    let mut r: Vec<ImagePatch> = Vec::new();
    let mut i: usize = 0;
    assert(all.take(0) =~= Seq::empty());
    while i < containers.len()
        invariant
            i <= containers.len(),
            all == containers.deep_view(),
            r.deep_view() =~= spec_image_patches(all.take(i as int), versions.deep_view()),
        decreases containers.len() - i,
    {
        let ghost done = r.deep_view();
        assert(all.take(i + 1).drop_last() =~= all.take(i as int));
        assert(all.take(i + 1).last() == all[i as int]);
        let container = &containers[i];
        match find_annotation(versions, container.name.as_str()) {
            Some(version) => {
                let image = match &container.image {
                    Some(image) => Some(image.clone()),
                    None => None,
                };
                match replace_last(image, ':', version.as_str()) {
                    Some(new_image) => {
                        let mut path = String::from_str("/spec/template/spec/containers/");
                        path.append(decimal_string(i as u64).as_str());
                        path.append("/image");
                        r.push(ImagePatch { index: i, path, image: new_image });
                        assert(r.deep_view() =~= done.push(
                            patch_for(all[i as int], i as int, versions.deep_view())->0,
                        ));
                    },
                    None => {},
                }
            },
            None => {},
        }
        i += 1;
    }
    assert(all.take(i as int) =~= all);
    r
}

/// How a job ended.
#[derive(Debug, Clone, Copy, PartialEq, Eq, Structural)]
pub enum Outcome {
    /// The plan was carried out.
    Completed,
    /// A deployment could not be fetched.
    DeploymentNotFound,
    /// A patch was refused.
    PatchFailed,
    /// The plan waits for a deployment that it never updated.
    NeverUpdated,
    /// A deployment did not become ready in time.
    ReadyTimeout,
}

impl Outcome {
    pub open spec fn ok(self) -> bool {
        self == Outcome::Completed
    }

    /// The flag that `WorkflowJobFinished` carries.
    pub fn everything_ok(&self) -> (r: bool)
        ensures
            r == self.ok(),
    {
        match self {
            Outcome::Completed => true,
            _ => false,
        }
    }
}

/// What the executor is in the middle of.
#[derive(Debug, Clone, Copy, PartialEq, Eq, Structural)]
pub enum Phase {
    /// Between ticks.
    Ticking,
    /// A deployment is being fetched for the update that began at the instant.
    Fetching(Timestamp),
    /// A patch is being submitted for the update that began at the instant.
    Patching(Timestamp),
    /// The job has ended and its end was reported.
    Done,
}

/// What the caller is to do next.
#[derive(Debug, PartialEq, Eq)]
pub enum Command {
    /// Wait for the next tick.
    Wait,
    /// Fetch the named deployment in the job's group and report it with
    /// `deployment_fetched`.
    FetchDeployment(String),
    /// Submit the document, which holds the replacements as one JSON
    /// patch, to the named deployment and report the result with
    /// `patch_applied`.
    PatchDeployment(String, Vec<ImagePatch>, json_patch::Patch),
    /// Send `WorkflowJobFinished` with this outcome, and stop.
    Finished(Outcome),
    /// The job ended before; there is nothing to do.
    Stopped,
}

impl Command {
    /// The document of a patch command holds the command's replacements.
    pub open spec fn document_matches(self) -> bool {
        self matches Command::PatchDeployment(_, patches, document) ==> patch_replacements(
            document,
        ) == patches.deep_view().map_values(replacement_of())
    }
}

pub enum CommandView {
    Wait,
    FetchDeployment(Seq<char>),
    PatchDeployment(Seq<char>, Seq<ImagePatchView>),
    Finished(Outcome),
    Stopped,
}

impl View for Command {
    type V = CommandView;

    open spec fn view(&self) -> CommandView {
        match *self {
            Command::Wait => CommandView::Wait,
            Command::FetchDeployment(name) => CommandView::FetchDeployment(name@),
            Command::PatchDeployment(name, patches, _) => CommandView::PatchDeployment(
                name@,
                patches.deep_view(),
            ),
            Command::Finished(outcome) => CommandView::Finished(outcome),
            Command::Stopped => CommandView::Stopped,
        }
    }
}

/// The instant of the latest update of `name` in `history`.
pub open spec fn last_update(history: Seq<(WorkflowActionView, Timestamp)>, name: Seq<char>) -> Option<
    Timestamp,
>
    decreases history.len(),
{
    if history.len() == 0 {
        None
    } else {
        match history.last().0 {
            WorkflowActionView::UpdateDeployment(updated, _) if updated == name => Some(
                history.last().1,
            ),
            _ => last_update(history.drop_last(), name),
        }
    }
}

/// The state of an executor.
pub struct ExecutorView {
    pub workflow: Seq<char>,
    pub group: Seq<char>,
    /// What is left to do, the next entry first.
    pub plan: Seq<WorkflowActionView>,
    /// What was done, and when.
    pub history: Seq<(WorkflowActionView, Timestamp)>,
    pub phase: Phase,
}

/// What an executor is told.
pub enum ExecutorEvent {
    /// A second has passed; the instant, and the storage as it is then.
    Tick(Timestamp, StorageView),
    /// The deployment asked for: its containers, or `None` where it could
    /// not be had.
    DeploymentFetched(Option<Seq<ContainerView>>),
    /// The patch asked for was accepted, or not.
    PatchApplied(bool),
}

impl ExecutorView {
    /// A fetch or a patch is under way only for an update at the head of
    /// the plan, and every recorded instant is early enough to be waited on.
    pub open spec fn wf(self) -> bool {
        &&& (self.phase is Fetching || self.phase is Patching) ==> self.plan.len() > 0
            && self.plan[0] is UpdateDeployment
        &&& self.phase matches Phase::Fetching(at) ==> at.can_add(READY_TIMEOUT_SECONDS as int)
        &&& self.phase matches Phase::Patching(at) ==> at.can_add(READY_TIMEOUT_SECONDS as int)
        &&& forall|i: int|
            0 <= i < self.history.len() ==> (#[trigger] self.history[i]).1.can_add(
                READY_TIMEOUT_SECONDS as int,
            )
    }

    /// The state in which a job starts.
    pub open spec fn started(
        workflow: Seq<char>,
        group: Seq<char>,
        spec: WorkflowSpecView,
        now: Timestamp,
    ) -> ExecutorView {
        ExecutorView {
            workflow,
            group,
            plan: plan_of(spec),
            history: seq![(WorkflowActionView::Started, now)],
            phase: Phase::Ticking,
        }
    }

    /// The job has ended.
    pub open spec fn ended(self) -> ExecutorView {
        ExecutorView { phase: Phase::Done, ..self }
    }

    /// The head of the plan was done at `at`.
    pub open spec fn advanced(self, at: Timestamp) -> ExecutorView {
        ExecutorView {
            plan: self.plan.drop_first(),
            history: self.history.push((self.plan[0], at)),
            phase: Phase::Ticking,
            ..self
        }
    }

    /// What a wait for `name` comes to at `now`.  Within the grace period
    /// after the update nothing is asked.  After it, a ready deployment lets
    /// the plan go on; one that is not ready is waited for until the timeout
    /// has passed, and then ends the job.
    pub open spec fn waited(self, name: Seq<char>, now: Timestamp, store: StorageView) -> (
        ExecutorView,
        CommandView,
    ) {
        match last_update(self.history, name) {
            None => (self.ended(), CommandView::Finished(Outcome::NeverUpdated)),
            Some(updated) => {
                if now.before(updated.spec_plus_seconds(GRACE_SECONDS as int)->0) {
                    (self, CommandView::Wait)
                } else if store.resource_ready(self.workflow, deployment_kind(), name) {
                    (self.advanced(now), CommandView::Wait)
                } else if now.before(updated.spec_plus_seconds(READY_TIMEOUT_SECONDS as int)->0) {
                    (self, CommandView::Wait)
                } else {
                    (self.ended(), CommandView::Finished(Outcome::ReadyTimeout))
                }
            },
        }
    }

    /// One tick.  An empty plan ends the job well; the start mark is taken
    /// off; an update asks for its deployment; a wait is decided by `waited`.
    /// A tick while a fetch or a patch is under way changes nothing, and a
    /// tick after the end finds the executor stopped.
    pub open spec fn ticked(self, now: Timestamp, store: StorageView) -> (ExecutorView, CommandView) {
        match self.phase {
            Phase::Done => (self, CommandView::Stopped),
            Phase::Fetching(_) => (self, CommandView::Wait),
            Phase::Patching(_) => (self, CommandView::Wait),
            Phase::Ticking => if self.plan.len() == 0 {
                (self.ended(), CommandView::Finished(Outcome::Completed))
            } else {
                match self.plan[0] {
                    WorkflowActionView::Started => (
                        ExecutorView { plan: self.plan.drop_first(), ..self },
                        CommandView::Wait,
                    ),
                    WorkflowActionView::UpdateDeployment(name, _) => (
                        ExecutorView { phase: Phase::Fetching(now), ..self },
                        CommandView::FetchDeployment(name),
                    ),
                    WorkflowActionView::WaitDeploymentReady(name) => self.waited(name, now, store),
                }
            },
        }
    }

    /// The deployment that was asked for has come, or has not.  A report
    /// that no fetch asked for changes nothing.
    pub open spec fn fetched(self, containers: Option<Seq<ContainerView>>) -> (
        ExecutorView,
        CommandView,
    ) {
        match self.phase {
            Phase::Done => (self, CommandView::Stopped),
            Phase::Fetching(at) => match (containers, self.plan[0]) {
                (Some(containers), WorkflowActionView::UpdateDeployment(name, versions)) => (
                    ExecutorView { phase: Phase::Patching(at), ..self },
                    CommandView::PatchDeployment(name, spec_image_patches(containers, versions)),
                ),
                _ => (self.ended(), CommandView::Finished(Outcome::DeploymentNotFound)),
            },
            _ => (self, CommandView::Wait),
        }
    }

    /// The patch that was asked for was accepted, or was not.  A report
    /// that no patch asked for changes nothing.
    pub open spec fn patched(self, accepted: bool) -> (ExecutorView, CommandView) {
        match self.phase {
            Phase::Done => (self, CommandView::Stopped),
            Phase::Patching(at) => if accepted {
                (self.advanced(at), CommandView::Wait)
            } else {
                (self.ended(), CommandView::Finished(Outcome::PatchFailed))
            },
            _ => (self, CommandView::Wait),
        }
    }

    /// One event.
    pub open spec fn step(self, event: ExecutorEvent) -> (ExecutorView, CommandView) {
        match event {
            ExecutorEvent::Tick(now, store) => self.ticked(now, store),
            ExecutorEvent::DeploymentFetched(containers) => self.fetched(containers),
            ExecutorEvent::PatchApplied(accepted) => self.patched(accepted),
        }
    }

    /// The commands that a run of events draws from the executor.
    pub open spec fn run(self, events: Seq<ExecutorEvent>) -> Seq<CommandView>
        decreases events.len(),
    {
        if events.len() == 0 {
            Seq::empty()
        } else {
            seq![self.step(events[0]).1] + self.step(events[0]).0.run(events.drop_first())
        }
    }
}

/// Picks the commands that report the end of a job.
pub open spec fn is_finished() -> spec_fn(CommandView) -> bool {
    |command: CommandView| command is Finished
}

/// Once a job has ended, no event makes it report its end again.
pub proof fn lemma_done_reports_nothing(state: ExecutorView, events: Seq<ExecutorEvent>)
    requires
        state.phase is Done,
    ensures
        state.run(events).filter(is_finished()).len() == 0,
    decreases events.len(),
{
    if events.len() > 0 {
        let first = state.step(events[0]);
        lemma_done_reports_nothing(first.0, events.drop_first());
        Seq::filter_distributes_over_add(
            seq![first.1],
            first.0.run(events.drop_first()),
            is_finished(),
        );
        lemma_filter_single(first.1, is_finished());
    } else {
        lemma_filter_none(is_finished());
    }
}

/// Whatever it is told, an executor reports the end of its job at most once.
pub proof fn lemma_finishes_at_most_once(state: ExecutorView, events: Seq<ExecutorEvent>)
    ensures
        state.run(events).filter(is_finished()).len() <= 1,
    decreases events.len(),
{
    if events.len() > 0 {
        let first = state.step(events[0]);
        let rest = first.0.run(events.drop_first());
        Seq::filter_distributes_over_add(seq![first.1], rest, is_finished());
        lemma_filter_single(first.1, is_finished());
        if first.1 is Finished {
            assert(first.0.phase is Done);
            lemma_done_reports_nothing(first.0, events.drop_first());
        } else {
            lemma_finishes_at_most_once(first.0, events.drop_first());
        }
    } else {
        lemma_filter_none(is_finished());
    }
}

/// The executor of one job.
#[derive(Debug)]
pub struct Executor {
    workflow: String,
    group: String,
    plan: Vec<WorkflowAction>,
    history: Vec<(WorkflowAction, Timestamp)>,
    phase: Phase,
}

impl View for Executor {
    type V = ExecutorView;

    closed spec fn view(&self) -> ExecutorView {
        ExecutorView {
            workflow: self.workflow@,
            group: self.group@,
            plan: self.plan.deep_view(),
            history: self.history.deep_view(),
            phase: self.phase,
        }
    }
}

impl Executor {
    pub open spec fn wf(&self) -> bool {
        self@.wf()
    }

    /// Starts the executor of `job`: reads the job's revision from the
    /// storage and plans it.  Without the revision there is no executor.
    pub fn start(job: &WorkflowJob, store: &MemoryWorkflowStorager, now: Timestamp) -> (r: Result<
        Executor,
        StorageError,
    >)
        requires
            store.wf(),
            now.can_add(READY_TIMEOUT_SECONDS as int),
        ensures
            match store@.workflow(job@.workflow, Some(job@.checksum)) {
                Some(workflow) => r matches Ok(executor) && executor.wf() && executor@
                    == ExecutorView::started(job@.workflow, job@.group, workflow.spec, now),
                None => r matches Err(e) && e == StorageError::NotFound,
            },
    {
        match store.get_workflow(job.workflow.as_str(), Some(job.checksum)) {
            Ok(workflow) => {
                let mut history: Vec<(WorkflowAction, Timestamp)> = Vec::new();
                history.push((WorkflowAction::Started, now));
                let executor = Executor {
                    workflow: job.workflow.clone(),
                    group: job.group.clone(),
                    plan: build_plan(&workflow.spec),
                    history,
                    phase: Phase::Ticking,
                };
                assert(executor@.history =~= seq![(WorkflowActionView::Started, now)]);
                Ok(executor)
            },
            Err(e) => Err(e),
        }
    }

    /// The workflow of the job.
    pub fn workflow(&self) -> (r: &String)
        ensures
            r@ == self@.workflow,
    {
        &self.workflow
    }

    /// The group of the job.
    pub fn group(&self) -> (r: &String)
        ensures
            r@ == self@.group,
    {
        &self.group
    }

    /// How many entries of the plan are left.
    pub fn work_remaining(&self) -> (r: usize)
        ensures
            r == self@.plan.len(),
    {
        self.plan.len()
    }

    /// Whether the job has ended.
    pub fn is_done(&self) -> (r: bool)
        ensures
            r == (self@.phase is Done),
    {
        match self.phase {
            Phase::Done => true,
            _ => false,
        }
    }

    /// The instant of the latest update of `name`.
    pub fn last_update_at(&self, name: &str) -> (r: Option<Timestamp>)
        ensures
            r == last_update(self@.history, name@),
    {
        let ghost history = self@.history;
        let key = String::from_str(name);
        let mut i: usize = self.history.len();
        assert(history.take(i as int) =~= history);
        while i > 0
            invariant
                i <= self.history.len(),
                history == self@.history,
                key@ == name@,
                last_update(history, name@) == last_update(history.take(i as int), name@),
            decreases i,
        {
            i -= 1;
            assert(history.take(i + 1).drop_last() =~= history.take(i as int));
            assert(history.take(i + 1).last() == history[i as int]);
            match &self.history[i].0 {
                WorkflowAction::UpdateDeployment(updated, _) => {
                    if *updated == key {
                        return Some(self.history[i].1);
                    }
                },
                _ => {},
            }
        }
        None
    }

    fn end(&mut self, outcome: Outcome) -> (r: Command)
        requires
            old(self).wf(),
        ensures
            final(self).wf(),
            final(self)@ == old(self)@.ended(),
            r@ == CommandView::Finished(outcome),
    {
        self.phase = Phase::Done;
        Command::Finished(outcome)
    }

    fn advance(&mut self, at: Timestamp)
        requires
            old(self).wf(),
            old(self)@.plan.len() > 0,
            at.can_add(READY_TIMEOUT_SECONDS as int),
        ensures
            final(self).wf(),
            final(self)@ == old(self)@.advanced(at),
    {
        let ghost before = self@;
        let head = self.plan.remove(0);
        self.history.push((head, at));
        self.phase = Phase::Ticking;
        assert(self@.plan =~= before.plan.drop_first());
        assert(self@.history =~= before.history.push((before.plan[0], at)));
    }

    /// One tick of the executor's clock.
    pub fn tick(&mut self, now: Timestamp, store: &MemoryWorkflowStorager) -> (r: Command)
        requires
            old(self).wf(),
            now.can_add(READY_TIMEOUT_SECONDS as int),
        ensures
            final(self).wf(),
            (final(self)@, r@) == old(self)@.ticked(now, store@),
    {
        let ghost before = self@;
        match self.phase {
            Phase::Done => {
                return Command::Stopped;
            },
            Phase::Fetching(_) => {
                return Command::Wait;
            },
            Phase::Patching(_) => {
                return Command::Wait;
            },
            Phase::Ticking => {},
        }
        if self.plan.len() == 0 {
            return self.end(Outcome::Completed);
        }
        let head = self.plan[0].clone();
        match head {
            WorkflowAction::Started => {
                self.plan.remove(0);
                assert(self@.plan =~= before.plan.drop_first());
                Command::Wait
            },
            WorkflowAction::UpdateDeployment(name, _) => {
                self.phase = Phase::Fetching(now);
                Command::FetchDeployment(name)
            },
            WorkflowAction::WaitDeploymentReady(name) => {
                let updated = match self.last_update_at(name.as_str()) {
                    Some(updated) => updated,
                    None => {
                        return self.end(Outcome::NeverUpdated);
                    },
                };
                proof {
                    lemma_last_update_is_recorded(before.history, name@);
                    assert(updated.can_add(READY_TIMEOUT_SECONDS as int));
                }
                if now.is_before(&updated.after_seconds(GRACE_SECONDS)) {
                    return Command::Wait;
                }
                let deployment_is_ready = store.is_resource_ready(
                    self.workflow.as_str(),
                    "apps/v1;Deployment",
                    name.as_str(),
                );
                if !deployment_is_ready && now.is_before(
                    &updated.after_seconds(READY_TIMEOUT_SECONDS),
                ) {
                    return Command::Wait;
                }
                // Here the longer wait is over, so the floor has passed too:
                // a deployment that is not ready has timed out.
                if !deployment_is_ready && !now.is_before(
                    &updated.after_seconds(TIMEOUT_FLOOR_SECONDS),
                ) {
                    return self.end(Outcome::ReadyTimeout);
                }
                self.advance(now);
                Command::Wait
            },
        }
    }

    /// Reports the deployment that `FetchDeployment` asked for: its
    /// containers, or `None` where it was not found or could not be read.
    pub fn deployment_fetched(&mut self, containers: Option<Vec<Container>>) -> (r: Command)
        requires
            old(self).wf(),
        ensures
            final(self).wf(),
            (final(self)@, r@) == old(self)@.fetched(
                match containers {
                    Some(containers) => Some(containers.deep_view()),
                    None => None,
                },
            ),
            r.document_matches(),
    {
        let at = match self.phase {
            Phase::Done => {
                return Command::Stopped;
            },
            Phase::Fetching(at) => at,
            _ => {
                return Command::Wait;
            },
        };
        let containers = match containers {
            Some(containers) => containers,
            None => {
                return self.end(Outcome::DeploymentNotFound);
            },
        };
        let ghost before = self@;
        assert(before.plan[0] == self.plan[0]@);
        match &self.plan[0] {
            WorkflowAction::UpdateDeployment(name, versions) => {
                let patches = image_patches(&containers, versions);
                proof {
                    lemma_image_patches_paths(containers.deep_view(), versions.deep_view());
                    assert forall|i: int| 0 <= i < patches.len() implies plain_pointer(
                        (#[trigger] patches[i])@.path,
                    ) by {
                        assert(patches[i]@ == patches.deep_view()[i]);
                    }
                }
                match replace_document(&patches) {
                    Some(document) => {
                        let command = Command::PatchDeployment(name.clone(), patches, document);
                        self.phase = Phase::Patching(at);
                        assert(self@ == ExecutorView { phase: Phase::Patching(at), ..before });
                        command
                    },
                    // Not reached: every path is a plain pointer, and such
                    // a path is never refused.
                    None => Command::Wait,
                }
            },
            _ => self.end(Outcome::DeploymentNotFound),
        }
    }

    /// Reports whether the patch that `PatchDeployment` asked for was accepted.
    pub fn patch_applied(&mut self, accepted: bool) -> (r: Command)
        requires
            old(self).wf(),
        ensures
            final(self).wf(),
            (final(self)@, r@) == old(self)@.patched(accepted),
    {
        match self.phase {
            Phase::Done => Command::Stopped,
            Phase::Patching(at) => {
                if accepted {
                    self.advance(at);
                    Command::Wait
                } else {
                    self.end(Outcome::PatchFailed)
                }
            },
            _ => Command::Wait,
        }
    }
}

/// The instant that `last_update` finds is one of the recorded instants.
pub proof fn lemma_last_update_is_recorded(
    history: Seq<(WorkflowActionView, Timestamp)>,
    name: Seq<char>,
)
    ensures
        last_update(history, name) matches Some(at) ==> exists|i: int|
            0 <= i < history.len() && (#[trigger] history[i]).1 == at,
    decreases history.len(),
{
    if history.len() > 0 {
        if last_update(history, name) == last_update(history.drop_last(), name) {
            lemma_last_update_is_recorded(history.drop_last(), name);
            if last_update(history, name) is Some {
                let at = last_update(history, name)->0;
                let i = choose|i: int|
                    0 <= i < history.drop_last().len() && (#[trigger] history.drop_last()[i]).1 == at;
                assert(history[i].1 == at);
            }
        } else {
            assert(history[history.len() - 1].1 == last_update(history, name)->0);
        }
    }
}

} // verus!
