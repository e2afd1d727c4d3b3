//! The reconcile loop's decisions: which workflows are due to be looked at
//! again, and when each is due next.

use vstd::prelude::*;

use crate::action::Action;
use crate::action::ActionView;
use crate::collections::distinct_keys;
use crate::collections::lemma_upsert;
use crate::collections::lookup;
use crate::collections::upsert;
use crate::config::Reconciler;
use crate::crd_storage::position_of_name;
use crate::time::Timestamp;

verus! {

/// When each workflow is due, and what one look at the workflows asks for.
pub struct ReconcileView {
    /// The instant after which each workflow is due.
    pub checks: Seq<(Seq<char>, Timestamp)>,
    /// The actions to send.
    pub actions: Seq<ActionView>,
}

/// One workflow at `now`.  A workflow met for the first time is due after
/// the initial delay.  One whose instant has passed is reconciled and is
/// due again after the delay.  Any other is left as it is.
pub open spec fn checked_one(
    state: ReconcileView,
    workflow: Seq<char>,
    now: Timestamp,
    settings: Reconciler,
) -> ReconcileView {
    match lookup(state.checks, workflow) {
        None => ReconcileView {
            checks: upsert(
                state.checks,
                workflow,
                now.spec_plus_seconds(settings.initial_delay_seconds as int)->0,
            ),
            ..state
        },
        Some(due) => if due.before(now) {
            ReconcileView {
                checks: upsert(
                    state.checks,
                    workflow,
                    now.spec_plus_seconds(settings.delay_seconds as int)->0,
                ),
                actions: state.actions.push(ActionView::ReconcileWorkflow(workflow)),
            }
        } else {
            state
        },
    }
}

/// The workflows one after the other.
pub open spec fn checked(
    checks: Seq<(Seq<char>, Timestamp)>,
    workflows: Seq<Seq<char>>,
    now: Timestamp,
    settings: Reconciler,
) -> ReconcileView
    decreases workflows.len(),
{
    if workflows.len() == 0 {
        ReconcileView { checks, actions: Seq::empty() }
    } else {
        checked_one(checked(checks, workflows.drop_last(), now, settings), workflows.last(), now, settings)
    }
}

/// The reconcile loop's own state.
#[derive(Debug)]
pub struct ReconcileLoop {
    checks: Vec<(String, Timestamp)>,
}

impl View for ReconcileLoop {
    type V = Seq<(Seq<char>, Timestamp)>;

    closed spec fn view(&self) -> Seq<(Seq<char>, Timestamp)> {
        self.checks.deep_view()
    }
}

impl ReconcileLoop {
    /// No workflow has two instants.
    pub open spec fn wf(&self) -> bool {
        distinct_keys(self@)
    }

    pub fn new() -> (r: Self)
        ensures
            r.wf(),
            r@ == Seq::<(Seq<char>, Timestamp)>::empty(),
    {
        let r = ReconcileLoop { checks: Vec::new() };
        assert(r@ =~= Seq::empty());
        r
    }

    /// One look at `workflows` at `now`: the actions to send for those
    /// that are due.
    pub fn tick(&mut self, workflows: &Vec<String>, now: Timestamp, settings: &Reconciler) -> (r: Vec<
        Action,
    >)
        requires
            old(self).wf(),
            now.can_add(settings.initial_delay_seconds as int),
            now.can_add(settings.delay_seconds as int),
        ensures
            final(self).wf(),
            final(self)@ == checked(old(self)@, workflows.deep_view(), now, *settings).checks,
            r.deep_view() == checked(old(self)@, workflows.deep_view(), now, *settings).actions,
    {
        let ghost before = self@;
        let ghost names = workflows.deep_view();
        let first_due = now.after_seconds(settings.initial_delay_seconds);
        let next_due = now.after_seconds(settings.delay_seconds);
        let mut actions: Vec<Action> = Vec::new();
        let mut i: usize = 0;
        assert(names.take(0) =~= Seq::empty());
        assert(actions.deep_view() =~= Seq::empty());
        while i < workflows.len()
            invariant
                i <= workflows.len(),
                names == workflows.deep_view(),
                self.wf(),
                Some(first_due) == now.spec_plus_seconds(settings.initial_delay_seconds as int),
                Some(next_due) == now.spec_plus_seconds(settings.delay_seconds as int),
                self@ == checked(before, names.take(i as int), now, *settings).checks,
                actions.deep_view() == checked(before, names.take(i as int), now, *settings).actions,
            decreases workflows.len() - i,
        {
            assert(names.take(i + 1).drop_last() =~= names.take(i as int));
            assert(names.take(i + 1).last() == names[i as int]);
            let ghost checks = self@;
            let ghost sent = actions.deep_view();
            let name = &workflows[i];
            match position_of_name(&self.checks, name.as_str()) {
                None => {
                    proof {
                        lemma_upsert(checks, name@, first_due);
                    }
                    self.checks.push((name.clone(), first_due));
                    assert(self@ =~= upsert(checks, name@, first_due));
                },
                Some(at) => {
                    if self.checks[at].1.is_before(&now) {
                        proof {
                            lemma_upsert(checks, name@, next_due);
                        }
                        actions.push(Action::ReconcileWorkflow(name.clone()));
                        self.checks.set(at, (name.clone(), next_due));
                        assert(self@ =~= upsert(checks, name@, next_due));
                        assert(actions.deep_view() =~= sent.push(ActionView::ReconcileWorkflow(name@)));
                    }
                },
            }
            i += 1;
        }
        assert(names.take(i as int) =~= names);
        actions
    }
}

} // verus!
