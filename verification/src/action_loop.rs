//! The action loop's state: the queue of jobs and the suppression windows
//! of each workflow; how actions change them, and which jobs a dispatch
//! pass sends out.

use vstd::prelude::*;
use vstd::string::StringExecFns;

use crate::action::Action;
use crate::collections::distinct_keys;
use crate::collections::key_index;
use crate::collections::lemma_filter_filter_len;
use crate::collections::lemma_filter_narrower;
use crate::collections::lemma_filter_none;
use crate::collections::lemma_filter_pairwise;
use crate::collections::lemma_filter_step;
use crate::collections::lemma_key_index;
use crate::collections::lemma_upsert;
use crate::collections::lookup;
use crate::collections::upsert;
use crate::crd_storage::MemoryWorkflowStorager;
use crate::crd_storage::StorageError;
use crate::crd_storage::StorageView;
use crate::crd_storage::position_of_name;
use crate::time::Timestamp;
use crate::when::Supression;
use crate::when::parse_supressions;
use crate::when::spec_parse_supressions;

verus! {

/// At most this many jobs of one workflow are in flight.
pub const MAX_IN_FLIGHT: usize = 3;

/// A job waits this long after it was queued before it may be dispatched.
pub const DEBOUNCE_SECONDS: u32 = 15;

/// One unit of work: roll one revision of a workflow out to one group.
#[derive(Debug, PartialEq, Eq)]
pub struct WorkflowJob {
    pub workflow: String,
    pub checksum: u64,
    pub group: String,
    pub after: Timestamp,
    pub in_flight: bool,
}

pub struct WorkflowJobView {
    pub workflow: Seq<char>,
    pub checksum: u64,
    pub group: Seq<char>,
    pub after: Timestamp,
    pub in_flight: bool,
}

impl View for WorkflowJob {
    type V = WorkflowJobView;

    open spec fn view(&self) -> WorkflowJobView {
        WorkflowJobView {
            workflow: self.workflow@,
            checksum: self.checksum,
            group: self.group@,
            after: self.after,
            in_flight: self.in_flight,
        }
    }
}

impl DeepView for WorkflowJob {
    type V = WorkflowJobView;

    open spec fn deep_view(&self) -> WorkflowJobView {
        self@
    }
}

impl Clone for WorkflowJob {
    fn clone(&self) -> (r: Self)
        ensures
            r@ == self@,
    {
        WorkflowJob {
            workflow: self.workflow.clone(),
            checksum: self.checksum,
            group: self.group.clone(),
            after: self.after,
            in_flight: self.in_flight,
        }
    }
}

impl WorkflowJobView {
    /// What identifies a job in the queue.
    pub open spec fn key(self) -> (Seq<char>, u64, Seq<char>) {
        (self.workflow, self.checksum, self.group)
    }

    /// Whether an update of `workflow` leaves the job in the queue: it
    /// does unless the job waits for that workflow.
    pub open spec fn should_retain(self, workflow: Seq<char>) -> bool {
        self.in_flight || self.workflow != workflow
    }
}

impl WorkflowJob {
    pub fn should_retain(&self, workflow: &String) -> (r: bool)
        ensures
            r == self@.should_retain(workflow@),
    {
        self.in_flight || self.workflow != *workflow
    }
}

/// Keeps the jobs that an update of `workflow` leaves in the queue.
pub open spec fn retained(workflow: Seq<char>) -> spec_fn(WorkflowJobView) -> bool {
    |job: WorkflowJobView| job.should_retain(workflow)
}

/// Keeps every job but those of `workflow` for `group`.
pub open spec fn not_done(workflow: Seq<char>, group: Seq<char>) -> spec_fn(WorkflowJobView) -> bool {
    |job: WorkflowJobView| !(job.workflow == workflow && job.group == group)
}

/// Keeps every job but those that a failure of revision `checksum` of
/// `workflow` in `group` takes out: the jobs of other revisions of the
/// workflow, and the job that failed.
pub open spec fn not_purged(workflow: Seq<char>, checksum: u64, group: Seq<char>) -> spec_fn(
    WorkflowJobView,
) -> bool {
    |job: WorkflowJobView|
        !(job.workflow == workflow && (job.checksum != checksum || job.group == group))
}

/// Picks the jobs of `workflow` that are in flight.
pub open spec fn in_flight_of(workflow: Seq<char>) -> spec_fn(WorkflowJobView) -> bool {
    |job: WorkflowJobView| job.workflow == workflow && job.in_flight
}

/// Picks the jobs of `workflow` that may be dispatched at `now`: they
/// wait, and their debounce is over.
pub open spec fn eligible(workflow: Seq<char>, now: Timestamp) -> spec_fn(WorkflowJobView) -> bool {
    |job: WorkflowJobView| job.workflow == workflow && !job.in_flight && job.after.before(now)
}

/// Picks the jobs of `workflow` for `group`.
pub open spec fn for_group(workflow: Seq<char>, group: Seq<char>) -> spec_fn(WorkflowJobView) -> bool {
    |job: WorkflowJobView| job.workflow == workflow && job.group == group
}

/// Picks the jobs of `workflow` for `group` that are in flight.
pub open spec fn running_for_group(workflow: Seq<char>, group: Seq<char>) -> spec_fn(
    WorkflowJobView,
) -> bool {
    |job: WorkflowJobView| job.workflow == workflow && job.group == group && job.in_flight
}

/// Picks the one job with this key that is in flight.
pub open spec fn running_with_key(workflow: Seq<char>, checksum: u64, group: Seq<char>) -> spec_fn(
    WorkflowJobView,
) -> bool {
    |job: WorkflowJobView| job.key() == (workflow, checksum, group) && job.in_flight
}

/// The first job that passes `test`.
pub open spec fn first_match(queue: Seq<WorkflowJobView>, test: spec_fn(WorkflowJobView) -> bool) -> Option<
    WorkflowJobView,
>
    decreases queue.len(),
{
    if queue.len() == 0 {
        None
    } else if test(queue[0]) {
        Some(queue[0])
    } else {
        first_match(queue.drop_first(), test)
    }
}

/// The revision of the job that failed for `workflow` in `group`: that of
/// the first such job in flight, or of the first such job where none is in
/// flight.
pub open spec fn failing_checksum(queue: Seq<WorkflowJobView>, workflow: Seq<char>, group: Seq<char>) -> Option<
    u64,
> {
    match first_match(queue, running_for_group(workflow, group)) {
        Some(job) => Some(job.checksum),
        None => match first_match(queue, for_group(workflow, group)) {
            Some(job) => Some(job.checksum),
            None => None,
        },
    }
}

/// The queue after a job of `workflow` for `group` has ended.  Success
/// takes the jobs of the workflow for the group out.  Failure takes out
/// every job of another revision of the workflow and the job that failed;
/// where no job is found for the group, it changes nothing.
pub open spec fn after_finished(
    queue: Seq<WorkflowJobView>,
    workflow: Seq<char>,
    group: Seq<char>,
    everything_ok: bool,
) -> Seq<WorkflowJobView> {
    if everything_ok {
        queue.filter(not_done(workflow, group))
    } else {
        match failing_checksum(queue, workflow, group) {
            Some(checksum) => queue.filter(not_purged(workflow, checksum, group)),
            None => queue,
        }
    }
}

/// Whether the queue holds a job with the key of `job`.
pub open spec fn holds_key(queue: Seq<WorkflowJobView>, job: WorkflowJobView) -> bool {
    exists|i: int| 0 <= i < queue.len() && (#[trigger] queue[i]).key() == job.key()
}

/// The job that is queued for `group`.
pub open spec fn queued_job(workflow: Seq<char>, checksum: u64, group: Seq<char>, after: Timestamp) -> WorkflowJobView {
    WorkflowJobView { workflow, checksum, group, after, in_flight: false }
}

/// The queue with a waiting job for each of `groups` that it held no job
/// for, in their order.
pub open spec fn enqueued(
    queue: Seq<WorkflowJobView>,
    workflow: Seq<char>,
    checksum: u64,
    groups: Seq<Seq<char>>,
    after: Timestamp,
) -> Seq<WorkflowJobView>
    decreases groups.len(),
{
    if groups.len() == 0 {
        queue
    } else {
        let before = enqueued(queue, workflow, checksum, groups.drop_last(), after);
        let job = queued_job(workflow, checksum, groups.last(), after);
        if holds_key(before, job) {
            before
        } else {
            before.push(job)
        }
    }
}

/// How many jobs of `workflow` are in flight.
pub open spec fn in_flight_count(queue: Seq<WorkflowJobView>, workflow: Seq<char>) -> nat {
    queue.filter(in_flight_of(workflow)).len()
}

/// Whether some job of `workflow` waits.
pub open spec fn work_to_do(queue: Seq<WorkflowJobView>, workflow: Seq<char>) -> bool {
    exists|i: int| 0 <= i < queue.len() && (#[trigger] queue[i]).workflow == workflow && !queue[i].in_flight
}

/// Whether the queue holds a job of `workflow`.
pub open spec fn has_jobs(queue: Seq<WorkflowJobView>, workflow: Seq<char>) -> bool {
    exists|i: int| 0 <= i < queue.len() && (#[trigger] queue[i]).workflow == workflow
}

/// Whether some window covers `now`.
pub open spec fn any_covers(windows: Seq<Supression>, now: Timestamp) -> bool {
    exists|i: int| 0 <= i < windows.len() && (#[trigger] windows[i]).covers(now)
}

/// The job, in flight.
pub open spec fn sent(job: WorkflowJobView) -> WorkflowJobView {
    WorkflowJobView { in_flight: true, ..job }
}

/// The queue after the first `slots` jobs of `workflow` that may be
/// dispatched at `now` were sent: each of them is in flight, and nothing
/// else has changed.
pub open spec fn marked(queue: Seq<WorkflowJobView>, workflow: Seq<char>, now: Timestamp, slots: nat) -> Seq<
    WorkflowJobView,
> {
    Seq::new(
        queue.len(),
        |i: int|
            if eligible(workflow, now)(queue[i]) && queue.take(i).filter(
                eligible(workflow, now),
            ).len() < slots {
                sent(queue[i])
            } else {
                queue[i]
            },
    )
}

/// The jobs that are sent with `slots` free: the first `slots` of those
/// that may be dispatched, as they stood in the queue.
pub open spec fn chosen(queue: Seq<WorkflowJobView>, workflow: Seq<char>, now: Timestamp, slots: nat) -> Seq<
    WorkflowJobView,
> {
    let ready = queue.filter(eligible(workflow, now));
    if ready.len() <= slots {
        ready
    } else {
        ready.take(slots as int)
    }
}

/// The state of the action loop.
pub struct ActionLoopView {
    /// The jobs, no two with the same workflow, checksum and group.
    pub queue: Seq<WorkflowJobView>,
    /// The suppression windows of each workflow that was updated.
    pub supressions: Seq<(Seq<char>, Seq<Supression>)>,
}

/// What a dispatch pass comes to.
pub struct DispatchView {
    /// The state after the pass.
    pub state: ActionLoopView,
    /// The jobs to start an executor for, as they stood in the queue.
    pub spawned: Seq<WorkflowJobView>,
    /// The workflows that were passed over because a window covers the instant.
    pub supressed: Seq<Seq<char>>,
}

impl ActionLoopView {
    /// No two jobs share a key, no workflow has two lists of windows, and
    /// no workflow has more than `MAX_IN_FLIGHT` jobs in flight.
    pub open spec fn wf(self) -> bool {
        &&& forall|i: int, j: int|
            0 <= i < j < self.queue.len() ==> (#[trigger] self.queue[i]).key() != (
            #[trigger] self.queue[j]).key()
        &&& distinct_keys(self.supressions)
        &&& forall|workflow: Seq<char>| #[trigger]
            in_flight_count(self.queue, workflow) <= MAX_IN_FLIGHT
    }

    pub open spec fn empty() -> ActionLoopView {
        ActionLoopView { queue: Seq::empty(), supressions: Seq::empty() }
    }

    /// The windows of `workflow`; none where it was never updated.
    pub open spec fn windows(self, workflow: Seq<char>) -> Seq<Supression> {
        match lookup(self.supressions, workflow) {
            Some(windows) => windows,
            None => Seq::empty(),
        }
    }

    /// Whether dispatch for `workflow` is withheld at `now`.
    pub open spec fn supressed(self, workflow: Seq<char>, now: Timestamp) -> bool {
        any_covers(self.windows(workflow), now)
    }

    /// The state after `WorkflowJobFinished`.
    pub open spec fn finished(self, workflow: Seq<char>, group: Seq<char>, everything_ok: bool) -> ActionLoopView {
        ActionLoopView { queue: after_finished(self.queue, workflow, group, everything_ok), ..self }
    }

    /// The state after `WorkflowUpdated`.  Without a latest revision in the
    /// storage nothing changes.  With one, its windows replace those of the
    /// workflow; and where the version has changed, the waiting jobs of the
    /// workflow give way to one job for each namespace of the revision, due
    /// when the debounce is over.
    pub open spec fn updated(
        self,
        workflow: Seq<char>,
        version_changed: bool,
        store: StorageView,
        now: Timestamp,
    ) -> ActionLoopView {
        match store.latest_checksum(workflow) {
            Some(checksum) => match store.workflow(workflow, Some(checksum)) {
                Some(revision) => ActionLoopView {
                    queue: if version_changed {
                        enqueued(
                            self.queue.filter(retained(workflow)),
                            workflow,
                            checksum,
                            revision.spec.namespaces,
                            now.spec_plus_seconds(DEBOUNCE_SECONDS as int)->0,
                        )
                    } else {
                        self.queue
                    },
                    supressions: upsert(
                        self.supressions,
                        workflow,
                        spec_parse_supressions(revision.spec.supression),
                    ),
                },
                None => self,
            },
            None => self,
        }
    }

    /// The state after `ReconcileWorkflow`: a workflow with a job in the
    /// queue is left alone; one without is queued anew.
    pub open spec fn reconciled(self, workflow: Seq<char>, store: StorageView, now: Timestamp) -> ActionLoopView {
        if has_jobs(self.queue, workflow) {
            self
        } else {
            self.updated(workflow, true, store, now)
        }
    }

    /// How many jobs of `workflow` may still be sent.
    pub open spec fn slots(self, workflow: Seq<char>) -> nat {
        (MAX_IN_FLIGHT - in_flight_count(self.queue, workflow)) as nat
    }

    /// The dispatch of one workflow at `now`.
    pub open spec fn dispatched_one(self, workflow: Seq<char>, now: Timestamp) -> DispatchView {
        if !work_to_do(self.queue, workflow) {
            DispatchView { state: self, spawned: Seq::empty(), supressed: Seq::empty() }
        } else if self.supressed(workflow, now) {
            DispatchView { state: self, spawned: Seq::empty(), supressed: seq![workflow] }
        } else {
            DispatchView {
                state: ActionLoopView {
                    queue: marked(self.queue, workflow, now, self.slots(workflow)),
                    ..self
                },
                spawned: chosen(self.queue, workflow, now, self.slots(workflow)),
                supressed: Seq::empty(),
            }
        }
    }

    /// A dispatch pass at `now` over `workflows`, one after the other.
    pub open spec fn dispatched(self, workflows: Seq<Seq<char>>, now: Timestamp) -> DispatchView
        decreases workflows.len(),
    {
        if workflows.len() == 0 {
            DispatchView { state: self, spawned: Seq::empty(), supressed: Seq::empty() }
        } else {
            let before = self.dispatched(workflows.drop_last(), now);
            let last = before.state.dispatched_one(workflows.last(), now);
            DispatchView {
                state: last.state,
                spawned: before.spawned + last.spawned,
                supressed: before.supressed + last.supressed,
            }
        }
    }
}

/// The keys of a queue's jobs differ.
pub open spec fn other_key() -> spec_fn(WorkflowJobView, WorkflowJobView) -> bool {
    |a: WorkflowJobView, b: WorkflowJobView| a.key() != b.key()
}

/// Taking jobs out of the queue keeps the state well-formed.
pub proof fn lemma_filter_keeps_wf(state: ActionLoopView, keep: spec_fn(WorkflowJobView) -> bool)
    requires
        state.wf(),
    ensures
        (ActionLoopView { queue: state.queue.filter(keep), ..state }).wf(),
{
    lemma_filter_pairwise(state.queue, keep, other_key());
    assert forall|workflow: Seq<char>| #[trigger]
        in_flight_count(state.queue.filter(keep), workflow) <= MAX_IN_FLIGHT by {
        lemma_filter_filter_len(state.queue, keep, in_flight_of(workflow));
        assert(in_flight_count(state.queue, workflow) <= MAX_IN_FLIGHT);
    }
}

/// Queueing waiting jobs keeps the state well-formed.
pub proof fn lemma_enqueued_keeps_wf(
    state: ActionLoopView,
    workflow: Seq<char>,
    checksum: u64,
    groups: Seq<Seq<char>>,
    after: Timestamp,
)
    requires
        state.wf(),
    ensures
        (ActionLoopView {
            queue: enqueued(state.queue, workflow, checksum, groups, after),
            ..state
        }).wf(),
    decreases groups.len(),
{
    if groups.len() > 0 {
        lemma_enqueued_keeps_wf(state, workflow, checksum, groups.drop_last(), after);
        let before = enqueued(state.queue, workflow, checksum, groups.drop_last(), after);
        let job = queued_job(workflow, checksum, groups.last(), after);
        let earlier = ActionLoopView { queue: before, ..state };
        assert(earlier.wf());
        if !holds_key(before, job) {
            let queue = before.push(job);
            assert forall|name: Seq<char>| #[trigger] in_flight_count(queue, name) <= MAX_IN_FLIGHT by {
                before.lemma_filter_push(job, in_flight_of(name));
                assert(in_flight_count(earlier.queue, name) <= MAX_IN_FLIGHT);
            }
            assert forall|i: int, j: int| 0 <= i < j < queue.len() implies (#[trigger] queue[i]).key() != (
            #[trigger] queue[j]).key() by {
                if j < before.len() {
                    assert(earlier.queue[i].key() != earlier.queue[j].key());
                } else {
                    assert(before[i].key() != job.key());
                }
            }
        }
    }
}

/// Queueing adds to the end: what was in the queue stays where it was.
pub proof fn lemma_enqueued_extends(
    queue: Seq<WorkflowJobView>,
    workflow: Seq<char>,
    checksum: u64,
    groups: Seq<Seq<char>>,
    after: Timestamp,
)
    ensures
        queue.len() <= enqueued(queue, workflow, checksum, groups, after).len(),
        forall|i: int|
            0 <= i < queue.len() ==> enqueued(queue, workflow, checksum, groups, after)[i]
                == #[trigger] queue[i],
    decreases groups.len(),
{
    if groups.len() > 0 {
        lemma_enqueued_extends(queue, workflow, checksum, groups.drop_last(), after);
    }
}

/// An update never takes a job out that is in flight, nor a job of another
/// workflow: only the waiting jobs of the updated workflow give way.
pub proof fn lemma_update_keeps_what_it_retains(
    state: ActionLoopView,
    workflow: Seq<char>,
    version_changed: bool,
    store: StorageView,
    now: Timestamp,
    i: int,
)
    requires
        0 <= i < state.queue.len(),
        state.queue[i].should_retain(workflow),
    ensures
        state.updated(workflow, version_changed, store, now).queue.contains(state.queue[i]),
{
    let after = state.updated(workflow, version_changed, store, now).queue;
    if after == state.queue {
        assert(after[i] == state.queue[i]);
    } else {
        let kept = state.queue.filter(retained(workflow));
        state.queue.lemma_filter_contains(retained(workflow), i);
        let k = choose|k: int| 0 <= k < kept.len() && kept[k] == state.queue[i];
        let checksum = store.latest_checksum(workflow)->0;
        let revision = store.workflow(workflow, Some(checksum))->0;
        let due = now.spec_plus_seconds(DEBOUNCE_SECONDS as int)->0;
        lemma_enqueued_extends(kept, workflow, checksum, revision.spec.namespaces, due);
        assert(after[k] == kept[k]);
    }
}

/// What sending does to the number of jobs in flight: for the workflow
/// itself it grows by the number of jobs sent, which is the lesser of the
/// free slots and the jobs that may be dispatched; for any other workflow
/// it stays.
pub proof fn lemma_marked_counts(
    queue: Seq<WorkflowJobView>,
    workflow: Seq<char>,
    now: Timestamp,
    slots: nat,
    other: Seq<char>,
    upto: int,
)
    requires
        0 <= upto <= queue.len(),
    ensures
        other != workflow ==> marked(queue, workflow, now, slots).take(upto).filter(
            in_flight_of(other),
        ).len() == queue.take(upto).filter(in_flight_of(other)).len(),
        marked(queue, workflow, now, slots).take(upto).filter(in_flight_of(workflow)).len()
            == queue.take(upto).filter(in_flight_of(workflow)).len() + if queue.take(upto).filter(
            eligible(workflow, now),
        ).len() <= slots {
            queue.take(upto).filter(eligible(workflow, now)).len()
        } else {
            slots
        },
    decreases upto,
{
    let after = marked(queue, workflow, now, slots);
    if upto == 0 {
        assert(queue.take(0) =~= Seq::empty());
        assert(after.take(0) =~= Seq::empty());
        lemma_filter_none(in_flight_of(other));
        lemma_filter_none(in_flight_of(workflow));
        lemma_filter_none(eligible(workflow, now));
    } else {
        lemma_marked_counts(queue, workflow, now, slots, other, upto - 1);
        lemma_filter_step(queue, in_flight_of(other), upto - 1);
        lemma_filter_step(after, in_flight_of(other), upto - 1);
        lemma_filter_step(queue, in_flight_of(workflow), upto - 1);
        lemma_filter_step(after, in_flight_of(workflow), upto - 1);
        lemma_filter_step(queue, eligible(workflow, now), upto - 1);
    }
}

/// Sending keeps the state well-formed, as long as no more jobs are sent
/// than slots are free.
pub proof fn lemma_marked_keeps_wf(state: ActionLoopView, workflow: Seq<char>, now: Timestamp)
    requires
        state.wf(),
    ensures
        (ActionLoopView {
            queue: marked(state.queue, workflow, now, state.slots(workflow)),
            ..state
        }).wf(),
{
    let slots = state.slots(workflow);
    let after = marked(state.queue, workflow, now, slots);
    assert(after.take(after.len() as int) =~= after);
    assert(state.queue.take(state.queue.len() as int) =~= state.queue);
    assert forall|name: Seq<char>| #[trigger] in_flight_count(after, name) <= MAX_IN_FLIGHT by {
        lemma_marked_counts(state.queue, workflow, now, slots, name, state.queue.len() as int);
        assert(in_flight_count(state.queue, name) <= MAX_IN_FLIGHT);
        assert(in_flight_count(state.queue, workflow) <= MAX_IN_FLIGHT);
    }
    assert forall|i: int, j: int| 0 <= i < j < after.len() implies (#[trigger] after[i]).key() != (
    #[trigger] after[j]).key() by {
        assert(state.queue[i].key() != state.queue[j].key());
    }
}

/// Which jobs a sweep of the queue takes out.
pub enum Sweep {
    /// The waiting jobs of a workflow.
    Waiting(String),
    /// The jobs of a workflow for a group.
    Done(String, String),
    /// The jobs of the other revisions of a workflow, and the job of the
    /// given revision for the group.
    Purged(String, u64, String),
}

impl Sweep {
    /// The jobs that the sweep leaves in the queue.
    pub open spec fn keeps(self) -> spec_fn(WorkflowJobView) -> bool {
        match self {
            Sweep::Waiting(workflow) => retained(workflow@),
            Sweep::Done(workflow, group) => not_done(workflow@, group@),
            Sweep::Purged(workflow, checksum, group) => not_purged(workflow@, checksum, group@),
        }
    }

    /// Whether the sweep leaves `job` in the queue.
    pub fn keep(&self, job: &WorkflowJob) -> (r: bool)
        ensures
            r == self.keeps()(job@),
    {
        match self {
            Sweep::Waiting(workflow) => job.should_retain(workflow),
            Sweep::Done(workflow, group) => !(job.workflow == *workflow && job.group == *group),
            Sweep::Purged(workflow, checksum, group) => !(job.workflow == *workflow && (job.checksum
                != *checksum || job.group == *group)),
        }
    }
}

/// The jobs to start and the workflows passed over in one dispatch pass.
#[derive(Debug, PartialEq, Eq)]
pub struct Dispatch {
    /// The jobs to start an executor for, as they stood in the queue.
    pub spawned: Vec<WorkflowJob>,
    /// The workflows that were passed over because a window covers the instant.
    pub supressed: Vec<String>,
}

/// The action loop's own state.
#[derive(Debug)]
pub struct ActionLoop {
    queue: Vec<WorkflowJob>,
    supressions: Vec<(String, Vec<Supression>)>,
}

impl View for ActionLoop {
    type V = ActionLoopView;

    closed spec fn view(&self) -> ActionLoopView {
        ActionLoopView { queue: self.queue.deep_view(), supressions: self.supressions.deep_view() }
    }
}

impl ActionLoop {
    pub open spec fn wf(&self) -> bool {
        self@.wf()
    }

    /// An empty queue and no windows.
    pub fn new() -> (r: Self)
        ensures
            r.wf(),
            r@ == ActionLoopView::empty(),
    {
        let r = ActionLoop { queue: Vec::new(), supressions: Vec::new() };
        assert(r@.queue =~= Seq::empty());
        assert(r@.supressions =~= Seq::empty());
        assert forall|workflow: Seq<char>| #[trigger] in_flight_count(r@.queue, workflow) == 0 by {
            lemma_filter_none(in_flight_of(workflow));
        }
        r
    }

    /// A copy of the queue.
    pub fn jobs(&self) -> (r: Vec<WorkflowJob>)
        ensures
            r.deep_view() == self@.queue,
    {
        let r = self.queue.clone();
        assert(r.deep_view() =~= self.queue.deep_view());
        r
    }

    /// The number of jobs in the queue.
    pub fn len(&self) -> (r: usize)
        ensures
            r == self@.queue.len(),
    {
        self.queue.len()
    }

    /// Whether the queue holds a job of `workflow`.
    pub fn has_jobs(&self, workflow: &str) -> (r: bool)
        ensures
            r == has_jobs(self@.queue, workflow@),
    {
        let key = String::from_str(workflow);
        let mut i: usize = 0;
        while i < self.queue.len()
            invariant
                i <= self.queue.len(),
                key@ == workflow@,
                forall|k: int| 0 <= k < i ==> (#[trigger] self@.queue[k]).workflow != workflow@,
            decreases self.queue.len() - i,
        {
            if self.queue[i].workflow == key {
                assert(self@.queue[i as int].workflow == workflow@);
                return true;
            }
            i += 1;
        }
        false
    }

    /// Whether some job of `workflow` waits.
    pub fn has_work(&self, workflow: &str) -> (r: bool)
        ensures
            r == work_to_do(self@.queue, workflow@),
    {
        let key = String::from_str(workflow);
        let mut i: usize = 0;
        while i < self.queue.len()
            invariant
                i <= self.queue.len(),
                key@ == workflow@,
                forall|k: int|
                    0 <= k < i ==> !((#[trigger] self@.queue[k]).workflow == workflow@
                        && !self@.queue[k].in_flight),
            decreases self.queue.len() - i,
        {
            if self.queue[i].workflow == key && !self.queue[i].in_flight {
                assert(self@.queue[i as int].workflow == workflow@ && !self@.queue[i as int].in_flight);
                return true;
            }
            i += 1;
        }
        false
    }

    /// How many jobs of `workflow` are in flight.
    pub fn in_flight(&self, workflow: &str) -> (r: usize)
        ensures
            r == in_flight_count(self@.queue, workflow@),
    {
        let ghost queue = self@.queue;
        let ghost test = in_flight_of(workflow@);
        let key = String::from_str(workflow);
        let mut count: usize = 0;
        let mut i: usize = 0;
        proof {
            assert(queue.take(0) =~= Seq::empty());
            lemma_filter_none(test);
        }
        while i < self.queue.len()
            invariant
                i <= self.queue.len(),
                queue == self@.queue,
                test == in_flight_of(workflow@),
                key@ == workflow@,
                count == queue.take(i as int).filter(test).len(),
                count <= i,
            decreases self.queue.len() - i,
        {
            proof {
                lemma_filter_step(queue, test, i as int);
            }
            if self.queue[i].workflow == key && self.queue[i].in_flight {
                count += 1;
            }
            i += 1;
        }
        assert(queue.take(i as int) =~= queue);
        count
    }

    /// Whether a window of `workflow` covers `now`.
    pub fn is_supressed(&self, workflow: &str, now: Timestamp) -> (r: bool)
        requires
            self.wf(),
        ensures
            r == self@.supressed(workflow@, now),
    {
        match position_of_name(&self.supressions, workflow) {
            Some(at) => {
                let windows = &self.supressions[at].1;
                let ghost all = self@.windows(workflow@);
                assert(all =~= windows@);
                let mut i: usize = 0;
                while i < windows.len()
                    invariant
                        i <= windows.len(),
                        all == windows@,
                        all == self@.windows(workflow@),
                        forall|k: int| 0 <= k < i ==> !(#[trigger] all[k]).covers(now),
                    decreases windows.len() - i,
                {
                    if windows[i].is_supressed(now) {
                        assert(all[i as int].covers(now));
                        return true;
                    }
                    i += 1;
                }
                false
            },
            None => false,
        }
    }

    /// Takes out of the queue what `rule` does not keep; returns how many
    /// jobs went.
    pub fn sweep(&mut self, rule: &Sweep) -> (removed: usize)
        requires
            old(self).wf(),
        ensures
            final(self).wf(),
            final(self)@ == (ActionLoopView {
                queue: old(self)@.queue.filter(rule.keeps()),
                ..old(self)@
            }),
            removed == old(self)@.queue.len() - final(self)@.queue.len(),
    {
        let ghost before = self@;
        let ghost keeps = rule.keeps();
        let mut kept: Vec<WorkflowJob> = Vec::new();
        let mut i: usize = 0;
        proof {
            assert(before.queue.take(0) =~= Seq::empty());
            lemma_filter_none(keeps);
            lemma_filter_keeps_wf(before, keeps);
        }
        while i < self.queue.len()
            invariant
                i <= self.queue.len(),
                self@ == before,
                keeps == rule.keeps(),
                kept.deep_view() =~= before.queue.take(i as int).filter(keeps),
                kept.len() <= i,
            decreases self.queue.len() - i,
        {
            proof {
                lemma_filter_step(before.queue, keeps, i as int);
            }
            if rule.keep(&self.queue[i]) {
                kept.push(self.queue[i].clone());
            }
            i += 1;
        }
        assert(before.queue.take(i as int) =~= before.queue);
        let removed = self.queue.len() - kept.len();
        self.queue = kept;
        removed
    }

    /// The revision of the first job of `workflow` for `group`; with
    /// `running`, of the first that is in flight.
    fn first_checksum(&self, workflow: &String, group: &String, running: bool) -> (r: Option<u64>)
        ensures
            r == match first_match(
                self@.queue,
                if running {
                    running_for_group(workflow@, group@)
                } else {
                    for_group(workflow@, group@)
                },
            ) {
                Some(job) => Some(job.checksum),
                None => None,
            },
    {
        let ghost queue = self@.queue;
        let ghost test = if running {
            running_for_group(workflow@, group@)
        } else {
            for_group(workflow@, group@)
        };
        let mut i: usize = 0;
        assert(queue.skip(0) =~= queue);
        while i < self.queue.len()
            invariant
                i <= self.queue.len(),
                queue == self@.queue,
                test == if running {
                    running_for_group(workflow@, group@)
                } else {
                    for_group(workflow@, group@)
                },
                first_match(queue, test) == first_match(queue.skip(i as int), test),
            decreases self.queue.len() - i,
        {
            let ghost rest = queue.skip(i as int);
            assert(rest[0] == queue[i as int]);
            assert(rest.drop_first() =~= queue.skip(i + 1));
            let job = &self.queue[i];
            if job.workflow == *workflow && job.group == *group && (!running || job.in_flight) {
                return Some(job.checksum);
            }
            i += 1;
        }
        None
    }

    /// Handles `WorkflowJobFinished`; returns how many jobs left the queue.
    pub fn job_finished(&mut self, workflow: &str, group: &str, everything_ok: bool) -> (removed: usize)
        requires
            old(self).wf(),
        ensures
            final(self).wf(),
            final(self)@ == old(self)@.finished(workflow@, group@, everything_ok),
            removed == old(self)@.queue.len() - final(self)@.queue.len(),
    {
        let workflow = String::from_str(workflow);
        let group = String::from_str(group);
        if everything_ok {
            self.sweep(&Sweep::Done(workflow, group))
        } else {
            let failing = match self.first_checksum(&workflow, &group, true) {
                Some(checksum) => Some(checksum),
                None => self.first_checksum(&workflow, &group, false),
            };
            match failing {
                Some(checksum) => self.sweep(&Sweep::Purged(workflow, checksum, group)),
                None => 0,
            }
        }
    }

    /// Puts a waiting job for each of `groups` into the queue, unless the
    /// queue holds a job with its key.
    fn enqueue(&mut self, workflow: &String, checksum: u64, groups: &Vec<String>, after: Timestamp)
        requires
            old(self).wf(),
        ensures
            final(self).wf(),
            final(self)@ == (ActionLoopView {
                queue: enqueued(old(self)@.queue, workflow@, checksum, groups.deep_view(), after),
                ..old(self)@
            }),
    {
        let ghost before = self@;
        let ghost all = groups.deep_view();
        let mut i: usize = 0;
        assert(all.take(0) =~= Seq::empty());
        while i < groups.len()
            invariant
                i <= groups.len(),
                before.wf(),
                all == groups.deep_view(),
                self@ == (ActionLoopView {
                    queue: enqueued(before.queue, workflow@, checksum, all.take(i as int), after),
                    ..before
                }),
            decreases groups.len() - i,
        {
            let ghost queue = self@.queue;
            let ghost job = queued_job(workflow@, checksum, all[i as int], after);
            assert(all.take(i + 1).drop_last() =~= all.take(i as int));
            assert(all.take(i + 1).last() == all[i as int]);
            let mut found = false;
            let mut k: usize = 0;
            while k < self.queue.len() && !found
                invariant
                    k <= self.queue.len(),
                    queue == self@.queue,
                    job == queued_job(workflow@, checksum, groups.deep_view()[i as int], after),
                    i < groups.len(),
                    found ==> holds_key(queue, job),
                    !found ==> forall|m: int| 0 <= m < k ==> (#[trigger] queue[m]).key() != job.key(),
                decreases self.queue.len() - k + if found { 0int } else { 1int },
            {
                let held = &self.queue[k];
                if held.workflow == *workflow && held.checksum == checksum && held.group == groups[i] {
                    assert(queue[k as int].key() == job.key());
                    found = true;
                } else {
                    k += 1;
                }
            }
            if !found {
                self.queue.push(
                    WorkflowJob {
                        workflow: workflow.clone(),
                        checksum,
                        group: groups[i].clone(),
                        after,
                        in_flight: false,
                    },
                );
                assert(self@.queue =~= queue.push(job));
            }
            i += 1;
        }
        proof {
            assert(all.take(i as int) =~= all);
            lemma_enqueued_keeps_wf(before, workflow@, checksum, all, after);
        }
    }

    /// Handles `WorkflowUpdated`.  Where the storage has no latest revision
    /// of the workflow, nothing changes and the error is handed on.
    pub fn workflow_updated(
        &mut self,
        workflow: &str,
        version_changed: bool,
        store: &MemoryWorkflowStorager,
        now: Timestamp,
    ) -> (r: Result<(), StorageError>)
        requires
            old(self).wf(),
            store.wf(),
            version_changed ==> now.can_add(DEBOUNCE_SECONDS as int),
        ensures
            final(self).wf(),
            final(self)@ == old(self)@.updated(workflow@, version_changed, store@, now),
            r == if store@.latest_checksum(workflow@) is Some {
                Ok::<(), StorageError>(())
            } else {
                Err::<(), StorageError>(StorageError::NotFound)
            },
    {
        let ghost before = self@;
        let latest_workflow = match store.lastest_workflow(workflow) {
            Ok(checksum) => checksum,
            Err(e) => {
                return Err(e);
            },
        };
        proof {
            lemma_key_index(store@.latest, workflow@);
            assert(store@.workflows.contains_key(store@.latest[key_index(store@.latest, workflow@)].1));
        }
        let revision = match store.get_workflow(workflow, Some(latest_workflow)) {
            Ok(revision) => revision,
            Err(e) => {
                return Err(e);
            },
        };
        let name = String::from_str(workflow);
        let namespaces = revision.spec.namespaces;
        let supressions = parse_supressions(revision.spec.supression);
        let ghost windows = supressions@;
        assert(supressions.deep_view() =~= windows);
        proof {
            lemma_upsert(before.supressions, workflow@, windows);
        }
        match position_of_name(&self.supressions, workflow) {
            Some(at) => {
                self.supressions.set(at, (name.clone(), supressions));
            },
            None => {
                self.supressions.push((name.clone(), supressions));
            },
        }
        assert(self@.supressions =~= upsert(before.supressions, workflow@, windows));
        assert(self@.queue == before.queue);
        assert forall|other: Seq<char>| #[trigger]
            in_flight_count(self@.queue, other) <= MAX_IN_FLIGHT by {
            assert(in_flight_count(before.queue, other) <= MAX_IN_FLIGHT);
        }
        if version_changed {
            self.sweep(&Sweep::Waiting(name.clone()));
            self.enqueue(&name, latest_workflow, &namespaces, now.after_seconds(DEBOUNCE_SECONDS));
        }
        Ok(())
    }

    /// Handles `ReconcileWorkflow`: a workflow without a job in the queue
    /// is queued anew.  Returns whether it was.
    pub fn reconcile_workflow(&mut self, workflow: &str, store: &MemoryWorkflowStorager, now: Timestamp) -> (r:
        Result<bool, StorageError>)
        requires
            old(self).wf(),
            store.wf(),
            now.can_add(DEBOUNCE_SECONDS as int),
        ensures
            final(self).wf(),
            final(self)@ == old(self)@.reconciled(workflow@, store@, now),
            r == if has_jobs(old(self)@.queue, workflow@) {
                Ok::<bool, StorageError>(false)
            } else if store@.latest_checksum(workflow@) is Some {
                Ok::<bool, StorageError>(true)
            } else {
                Err::<bool, StorageError>(StorageError::NotFound)
            },
    {
        if self.has_jobs(workflow) {
            return Ok(false);
        }
        match self.workflow_updated(workflow, true, store, now) {
            Ok(()) => Ok(true),
            Err(e) => Err(e),
        }
    }
}

impl ActionLoopView {
    /// The state after an action.
    pub open spec fn handled(self, action: crate::action::ActionView, store: StorageView, now: Timestamp) -> ActionLoopView {
        match action {
            crate::action::ActionView::WorkflowUpdated(workflow, version_changed) => self.updated(
                workflow,
                version_changed,
                store,
                now,
            ),
            crate::action::ActionView::ReconcileWorkflow(workflow) => self.reconciled(
                workflow,
                store,
                now,
            ),
            crate::action::ActionView::WorkflowJobFinished(workflow, group, everything_ok) => self.finished(
                workflow,
                group,
                everything_ok,
            ),
        }
    }

    /// Whether the action can be handled: an update, or a reconcile that
    /// queues anew, needs a latest revision of its workflow in the storage.
    pub open spec fn can_handle(self, action: crate::action::ActionView, store: StorageView) -> bool {
        match action {
            crate::action::ActionView::WorkflowUpdated(workflow, _) => store.latest_checksum(
                workflow,
            ) is Some,
            crate::action::ActionView::ReconcileWorkflow(workflow) => has_jobs(self.queue, workflow)
                || store.latest_checksum(workflow) is Some,
            crate::action::ActionView::WorkflowJobFinished(_, _, _) => true,
        }
    }

    /// The state after the action, where there is one.
    pub open spec fn maybe_handled(
        self,
        action: Option<crate::action::ActionView>,
        store: StorageView,
        now: Timestamp,
    ) -> ActionLoopView {
        match action {
            Some(action) => self.handled(action, store, now),
            None => self,
        }
    }
}

impl ActionLoop {
    /// The dispatch of one workflow: what it sends is added to `out`.
    pub fn dispatch_workflow(&mut self, workflow: &String, now: Timestamp, out: &mut Dispatch)
        requires
            old(self).wf(),
        ensures
            final(self).wf(),
            final(self)@ == old(self)@.dispatched_one(workflow@, now).state,
            final(out).spawned.deep_view() == old(out).spawned.deep_view() + old(
                self,
            )@.dispatched_one(workflow@, now).spawned,
            final(out).supressed.deep_view() == old(out).supressed.deep_view() + old(
                self,
            )@.dispatched_one(workflow@, now).supressed,
    {
        let ghost before = self@;
        let ghost spawned0 = out.spawned.deep_view();
        let ghost supressed0 = out.supressed.deep_view();
        if !self.has_work(workflow.as_str()) {
            assert(out.spawned.deep_view() =~= spawned0 + Seq::empty());
            assert(out.supressed.deep_view() =~= supressed0 + Seq::empty());
            return ;
        }
        if self.is_supressed(workflow.as_str(), now) {
            out.supressed.push(workflow.clone());
            assert(out.spawned.deep_view() =~= spawned0 + Seq::empty());
            assert(out.supressed.deep_view() =~= supressed0 + seq![workflow@]);
            return ;
        }
        let in_flight = self.in_flight(workflow.as_str());
        assert(in_flight_count(before.queue, workflow@) <= MAX_IN_FLIGHT);
        let slots: usize = MAX_IN_FLIGHT - in_flight;
        let ghost test = eligible(workflow@, now);
        let ghost after = marked(before.queue, workflow@, now, slots as nat);
        let mut sent_count: usize = 0;
        let mut i: usize = 0;
        proof {
            assert(before.queue.take(0) =~= Seq::empty());
            lemma_filter_none(test);
            assert(out.spawned.deep_view() =~= spawned0 + chosen(
                before.queue.take(0),
                workflow@,
                now,
                slots as nat,
            ));
        }
        while i < self.queue.len()
            invariant
                i <= self.queue.len(),
                slots <= MAX_IN_FLIGHT,
                test == eligible(workflow@, now),
                after == marked(before.queue, workflow@, now, slots as nat),
                self@.supressions == before.supressions,
                self@.queue.len() == before.queue.len(),
                forall|k: int| 0 <= k < i ==> #[trigger] self@.queue[k] == after[k],
                forall|k: int| i <= k < before.queue.len() ==> #[trigger] self@.queue[k] == before.queue[k],
                sent_count <= slots,
                sent_count == if before.queue.take(i as int).filter(test).len() <= slots {
                    before.queue.take(i as int).filter(test).len()
                } else {
                    slots as nat
                },
                out.spawned.deep_view() =~= spawned0 + chosen(
                    before.queue.take(i as int),
                    workflow@,
                    now,
                    slots as nat,
                ),
                out.supressed.deep_view() == supressed0,
            decreases self.queue.len() - i,
        {
            let ghost ready = before.queue.take(i as int).filter(test);
            let ghost current = self@.queue;
            let ghost sent_before = out.spawned.deep_view();
            proof {
                lemma_filter_step(before.queue, test, i as int);
                assert(self@.queue[i as int] == before.queue[i as int]);
            }
            let job = &self.queue[i];
            if job.workflow == *workflow && !job.in_flight && job.after.is_before(&now) {
                if sent_count < slots {
                    let copy = job.clone();
                    let flying = WorkflowJob {
                        workflow: job.workflow.clone(),
                        checksum: job.checksum,
                        group: job.group.clone(),
                        after: job.after,
                        in_flight: true,
                    };
                    out.spawned.push(copy);
                    self.queue.set(i, flying);
                    sent_count += 1;
                    proof {
                        assert(self@.queue =~= current.update(i as int, sent(before.queue[i as int])));
                        assert(out.spawned.deep_view() =~= sent_before.push(before.queue[i as int]));
                        assert(ready.push(before.queue[i as int]).len() <= slots);
                    }
                } else {
                    proof {
                        assert(ready.push(before.queue[i as int]).take(slots as int) =~= ready.take(
                            slots as int,
                        ));
                        assert(ready.take(ready.len() as int) =~= ready);
                    }
                }
            }
            i += 1;
        }
        proof {
            assert(before.queue.take(i as int) =~= before.queue);
            assert(self@.queue =~= after);
            lemma_marked_keeps_wf(before, workflow@, now);
        }
    }

    /// A dispatch pass at `now` over `workflows`.
    pub fn dispatch(&mut self, workflows: &Vec<String>, now: Timestamp) -> (r: Dispatch)
        requires
            old(self).wf(),
        ensures
            final(self).wf(),
            final(self)@ == old(self)@.dispatched(workflows.deep_view(), now).state,
            r.spawned.deep_view() == old(self)@.dispatched(workflows.deep_view(), now).spawned,
            r.supressed.deep_view() == old(self)@.dispatched(workflows.deep_view(), now).supressed,
    {
        let ghost before = self@;
        let ghost names = workflows.deep_view();
        let mut out = Dispatch { spawned: Vec::new(), supressed: Vec::new() };
        let mut i: usize = 0;
        assert(names.take(0) =~= Seq::empty());
        assert(out.spawned.deep_view() =~= Seq::empty());
        assert(out.supressed.deep_view() =~= Seq::empty());
        while i < workflows.len()
            invariant
                i <= workflows.len(),
                names == workflows.deep_view(),
                self.wf(),
                self@ == before.dispatched(names.take(i as int), now).state,
                out.spawned.deep_view() == before.dispatched(names.take(i as int), now).spawned,
                out.supressed.deep_view() == before.dispatched(names.take(i as int), now).supressed,
            decreases workflows.len() - i,
        {
            assert(names.take(i + 1).drop_last() =~= names.take(i as int));
            assert(names.take(i + 1).last() == names[i as int]);
            self.dispatch_workflow(&workflows[i], now, &mut out);
            i += 1;
        }
        assert(names.take(i as int) =~= names);
        out
    }

    /// Handles one action.
    pub fn handle(&mut self, action: &Action, store: &MemoryWorkflowStorager, now: Timestamp) -> (r: Result<
        (),
        StorageError,
    >)
        requires
            old(self).wf(),
            store.wf(),
            now.can_add(DEBOUNCE_SECONDS as int),
        ensures
            final(self).wf(),
            final(self)@ == old(self)@.handled(action@, store@, now),
            r == if old(self)@.can_handle(action@, store@) {
                Ok::<(), StorageError>(())
            } else {
                Err::<(), StorageError>(StorageError::NotFound)
            },
            r is Err ==> final(self)@ == old(self)@,
    {
        match action {
            Action::WorkflowUpdated(workflow, version_changed) => self.workflow_updated(
                workflow.as_str(),
                *version_changed,
                store,
                now,
            ),
            Action::ReconcileWorkflow(workflow) => match self.reconcile_workflow(
                workflow.as_str(),
                store,
                now,
            ) {
                Ok(_) => Ok(()),
                Err(e) => Err(e),
            },
            Action::WorkflowJobFinished(workflow, group, everything_ok) => {
                self.job_finished(workflow.as_str(), group.as_str(), *everything_ok);
                Ok(())
            },
        }
    }

    /// One turn of the loop: the action that woke it, if any, then a
    /// dispatch pass over the workflows that the storage knows.
    pub fn on_wake(
        &mut self,
        action: Option<&Action>,
        store: &MemoryWorkflowStorager,
        now: Timestamp,
    ) -> (r: Dispatch)
        requires
            old(self).wf(),
            store.wf(),
            now.can_add(DEBOUNCE_SECONDS as int),
        ensures
            final(self).wf(),
            ({
                let handled = old(self)@.maybe_handled(
                    match action {
                        Some(action) => Some(action@),
                        None => None,
                    },
                    store@,
                    now,
                );
                let pass = handled.dispatched(store@.names(), now);
                &&& final(self)@ == pass.state
                &&& r.spawned.deep_view() == pass.spawned
                &&& r.supressed.deep_view() == pass.supressed
            }),
    {
        match action {
            Some(action) => {
                let _ = self.handle(action, store, now);
            },
            None => {},
        }
        let workflows = store.get_workflow_names();
        self.dispatch(&workflows, now)
    }
}

/// At no time are more than `MAX_IN_FLIGHT` jobs of a workflow in flight
/// for a group, nor more than one with the same workflow, checksum and
/// group.
pub proof fn lemma_in_flight_bounded(
    state: ActionLoopView,
    workflow: Seq<char>,
    checksum: u64,
    group: Seq<char>,
)
    requires
        state.wf(),
    ensures
        state.queue.filter(running_for_group(workflow, group)).len() <= MAX_IN_FLIGHT,
        state.queue.filter(running_with_key(workflow, checksum, group)).len() <= 1,
{
    lemma_filter_narrower(state.queue, running_for_group(workflow, group), in_flight_of(workflow));
    assert(in_flight_count(state.queue, workflow) <= MAX_IN_FLIGHT);
    let test = running_with_key(workflow, checksum, group);
    let found = state.queue.filter(test);
    lemma_filter_pairwise(state.queue, test, other_key());
    if found.len() >= 2 {
        state.queue.lemma_filter_pred(test, 0);
        state.queue.lemma_filter_pred(test, 1);
        assert(other_key()(found[0], found[1]));
    }
}

/// What a dispatch of one workflow sends out was waiting for that
/// workflow with its debounce over, and no window of the workflow covers
/// the instant.
pub proof fn lemma_dispatched_one_sends_eligible(state: ActionLoopView, workflow: Seq<char>, now: Timestamp, k: int)
    requires
        0 <= k < state.dispatched_one(workflow, now).spawned.len(),
    ensures
        !state.supressed(workflow, now),
        eligible(workflow, now)(state.dispatched_one(workflow, now).spawned[k]),
        state.dispatched_one(workflow, now).state.supressions == state.supressions,
{
    let ready = state.queue.filter(eligible(workflow, now));
    state.queue.lemma_filter_pred(eligible(workflow, now), k);
}

/// A dispatch pass leaves the windows as they are.
pub proof fn lemma_dispatched_keeps_windows(state: ActionLoopView, workflows: Seq<Seq<char>>, now: Timestamp)
    ensures
        state.dispatched(workflows, now).state.supressions == state.supressions,
    decreases workflows.len(),
{
    if workflows.len() > 0 {
        lemma_dispatched_keeps_windows(state, workflows.drop_last(), now);
    }
}

/// While a window of a workflow covers the instant, a dispatch pass sends
/// no job of that workflow; and whatever it sends was waiting with its
/// debounce over.
pub proof fn lemma_dispatch_respects_supression(
    state: ActionLoopView,
    workflows: Seq<Seq<char>>,
    now: Timestamp,
    k: int,
)
    requires
        0 <= k < state.dispatched(workflows, now).spawned.len(),
    ensures
        !state.supressed(state.dispatched(workflows, now).spawned[k].workflow, now),
        !state.dispatched(workflows, now).spawned[k].in_flight,
        state.dispatched(workflows, now).spawned[k].after.before(now),
    decreases workflows.len(),
{
    if workflows.len() > 0 {
        let before = state.dispatched(workflows.drop_last(), now);
        if k < before.spawned.len() {
            lemma_dispatch_respects_supression(state, workflows.drop_last(), now, k);
        } else {
            lemma_dispatched_keeps_windows(state, workflows.drop_last(), now);
            lemma_dispatched_one_sends_eligible(
                before.state,
                workflows.last(),
                now,
                k - before.spawned.len(),
            );
        }
    }
}

} // verus!
