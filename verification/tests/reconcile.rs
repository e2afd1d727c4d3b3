use k8s_workflow_deploy::action::Action;
use k8s_workflow_deploy::config::Reconciler;
use k8s_workflow_deploy::reconcile::ReconcileLoop;
use k8s_workflow_deploy::time::Timestamp;

fn at(seconds: i64) -> Timestamp {
    Timestamp::new(1_672_531_200 + seconds, 0)
}

fn names(items: &[&str]) -> Vec<String> {
    items.iter().map(|s| s.to_string()).collect()
}

#[test]
fn a_workflow_is_reconciled_after_the_initial_delay_and_then_after_each_delay() {
    let settings = Reconciler { delay_seconds: 90, initial_delay_seconds: 15 };
    let mut state = ReconcileLoop::new();
    let all = names(&["w1"]);
    assert!(state.tick(&all, at(0), &settings).is_empty());
    assert!(state.tick(&all, at(15), &settings).is_empty());
    assert_eq!(
        state.tick(&all, at(60), &settings),
        vec![Action::ReconcileWorkflow("w1".to_string())]
    );
    assert!(state.tick(&all, at(120), &settings).is_empty());
    assert!(state.tick(&all, at(150), &settings).is_empty());
    assert_eq!(
        state.tick(&all, at(180), &settings),
        vec![Action::ReconcileWorkflow("w1".to_string())]
    );
}

#[test]
fn each_workflow_has_its_own_instant() {
    let settings = Reconciler { delay_seconds: 60, initial_delay_seconds: 15 };
    let mut state = ReconcileLoop::new();
    assert!(state.tick(&names(&["w1"]), at(0), &settings).is_empty());
    assert_eq!(
        state.tick(&names(&["w2", "w1"]), at(60), &settings),
        vec![Action::ReconcileWorkflow("w1".to_string())]
    );
    assert_eq!(
        state.tick(&names(&["w1", "w2"]), at(120), &settings),
        vec![Action::ReconcileWorkflow("w2".to_string())]
    );
    assert_eq!(
        state.tick(&names(&["w1", "w2", "w1"]), at(121), &settings),
        vec![Action::ReconcileWorkflow("w1".to_string())]
    );
    assert!(state.tick(&vec![], at(500), &settings).is_empty());
}
