use whitenoise_runtime::scheduler::{ExpansionAction, GraphScheduler, StepAction, UntrackedArgument};

/// Node 1 has no arguments, node 2 takes node 1, node 3 takes nodes 1 and 2.
fn chain() -> Vec<(u32, Vec<u32>)> {
    vec![(1, vec![]), (2, vec![1]), (3, vec![1, 2])]
}

#[test]
fn largest_id_is_the_largest_node() {
    let s = GraphScheduler::new(chain(), vec![3], vec![], vec![3]);
    assert_eq!(s.maximum_id(), 3);
    let s = GraphScheduler::new(vec![(7, vec![]), (2, vec![7])], vec![2], vec![], vec![]);
    assert_eq!(s.maximum_id(), 7);
    let s = GraphScheduler::new(vec![], vec![], vec![], vec![]);
    assert_eq!(s.maximum_id(), 0);
}

#[test]
fn empty_traversal_is_finished() {
    let mut s = GraphScheduler::new(chain(), vec![], vec![], vec![]);
    assert_eq!(s.step(), StepAction::Finished);
}

#[test]
fn node_without_component_is_reported() {
    let mut s = GraphScheduler::new(chain(), vec![9], vec![], vec![]);
    assert_eq!(s.step(), StepAction::MissingComponent(9));
    assert_eq!(s.step(), StepAction::MissingComponent(9));
}

#[test]
fn whole_chain_is_evaluated_in_dependency_order() {
    let mut s = GraphScheduler::new(chain(), vec![3], vec![], vec![3]);
    // node 3 waits for node 1 first
    assert_eq!(s.step(), StepAction::DependencyQueued(1));
    assert_eq!(s.step(), StepAction::Expand(1));
    assert_eq!(s.record_expansion(vec![], 3), ExpansionAction::Execute(1));
    assert_eq!(s.record_execution(), Ok(vec![]));
    // node 3 now waits for node 2
    assert_eq!(s.step(), StepAction::DependencyQueued(2));
    assert_eq!(s.step(), StepAction::Expand(2));
    assert_eq!(s.record_expansion(vec![], 3), ExpansionAction::Execute(2));
    // node 1 is still needed by node 3
    assert_eq!(s.record_execution(), Ok(vec![]));
    assert_eq!(s.step(), StepAction::Expand(3));
    assert_eq!(s.record_expansion(vec![], 3), ExpansionAction::Execute(3));
    // nothing needs nodes 1 and 2 any more, and neither is released
    assert_eq!(s.record_execution(), Ok(vec![1, 2]));
    assert_eq!(s.step(), StepAction::Finished);
}

#[test]
fn released_nodes_keep_their_evaluations() {
    let mut s = GraphScheduler::new(vec![(1, vec![]), (2, vec![1])], vec![2], vec![], vec![1, 2]);
    assert_eq!(s.step(), StepAction::DependencyQueued(1));
    assert_eq!(s.step(), StepAction::Expand(1));
    assert_eq!(s.record_expansion(vec![], 2), ExpansionAction::Execute(1));
    assert_eq!(s.record_execution(), Ok(vec![]));
    assert_eq!(s.step(), StepAction::Expand(2));
    assert_eq!(s.record_expansion(vec![], 2), ExpansionAction::Execute(2));
    assert_eq!(s.record_execution(), Ok(vec![]));
    assert_eq!(s.step(), StepAction::Finished);
}

#[test]
fn evaluations_given_at_the_start_are_not_recomputed() {
    let mut s = GraphScheduler::new(vec![(1, vec![]), (2, vec![1])], vec![2], vec![1], vec![]);
    assert_eq!(s.step(), StepAction::Expand(2));
    assert_eq!(s.record_expansion(vec![], 2), ExpansionAction::Execute(2));
    assert_eq!(s.record_execution(), Ok(vec![1]));
    assert_eq!(s.step(), StepAction::Finished);
}

#[test]
fn argument_named_twice_is_listed_twice() {
    let mut s = GraphScheduler::new(vec![(1, vec![]), (2, vec![1, 1])], vec![2], vec![1], vec![]);
    assert_eq!(s.step(), StepAction::Expand(2));
    assert_eq!(s.record_expansion(vec![], 2), ExpansionAction::Execute(2));
    assert_eq!(s.record_execution(), Ok(vec![1, 1]));
}

#[test]
fn expansion_with_new_ids_is_revisited() {
    // node 5 takes node 1 and expands into 6 -> 7 -> 5
    let mut s = GraphScheduler::new(vec![(1, vec![]), (5, vec![1])], vec![5], vec![1], vec![5]);
    assert_eq!(s.step(), StepAction::Expand(5));
    assert_eq!(
        s.record_expansion(vec![(6, vec![1]), (7, vec![6]), (5, vec![7])], 7),
        ExpansionAction::Revisit
    );
    assert_eq!(s.maximum_id(), 7);
    assert_eq!(s.step(), StepAction::DependencyQueued(7));
    assert_eq!(s.step(), StepAction::DependencyQueued(6));
    assert_eq!(s.step(), StepAction::Expand(6));
    assert_eq!(s.record_expansion(vec![], 7), ExpansionAction::Execute(6));
    // node 1 still has node 5 as a consumer
    assert_eq!(s.record_execution(), Ok(vec![]));
    assert_eq!(s.step(), StepAction::Expand(7));
    assert_eq!(s.record_expansion(vec![], 7), ExpansionAction::Execute(7));
    // node 6 appeared through the expansion: its consumers are not tracked
    assert_eq!(s.record_execution(), Err(UntrackedArgument(6)));
}

#[test]
fn a_node_twice_on_the_stack_is_executed_twice() {
    let mut s = GraphScheduler::new(vec![(1, vec![])], vec![1, 1], vec![], vec![1]);
    assert_eq!(s.step(), StepAction::Expand(1));
    assert_eq!(s.record_expansion(vec![], 1), ExpansionAction::Execute(1));
    assert_eq!(s.record_execution(), Ok(vec![]));
    assert_eq!(s.step(), StepAction::Expand(1));
    assert_eq!(s.record_expansion(vec![], 1), ExpansionAction::Execute(1));
    assert_eq!(s.record_execution(), Ok(vec![]));
    assert_eq!(s.step(), StepAction::Finished);
}

#[test]
fn a_cycle_keeps_queueing() {
    // nodes 1 and 2 take each other: the stack grows without end
    let mut s = GraphScheduler::new(vec![(1, vec![2]), (2, vec![1])], vec![1], vec![], vec![]);
    assert_eq!(s.step(), StepAction::DependencyQueued(2));
    assert_eq!(s.step(), StepAction::DependencyQueued(1));
    assert_eq!(s.step(), StepAction::DependencyQueued(2));
}
