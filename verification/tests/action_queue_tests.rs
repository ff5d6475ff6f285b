use core_sim::action_queue::{
    add_urgent_action_to_queue, execute_queued_action, find_queue_index, populate_action_queues_from_ai_decisions,
    priority_order_key, process_civilization_action_queue, ActionQueue, DEFAULT_MAX_QUEUE_SIZE,
};
use core_sim::civ::CivId;

#[derive(Debug, Clone, PartialEq)]
enum TestAction {
    BuildUnit,
    Trade,
    Defend,
    Research(u32),
}

// The priority of an action is its own priority plus the bonus of its kind, as an f32;
// the queue orders by the key of that value.
fn key(priority: f32, bonus: f32) -> Option<i64> {
    priority_order_key((priority + bonus).to_bits())
}

#[test]
fn test_action_queue_basic_operations() {
    let civ_id = CivId(1);
    let mut queue: ActionQueue<TestAction> = ActionQueue::new(civ_id);

    queue.queue_action(TestAction::BuildUnit, key(5.0, 5.0), 1);
    assert_eq!(queue.get_queue_length(), 1);

    let dequeued = queue.dequeue_next_action(1);
    assert!(dequeued.is_some());
    assert_eq!(queue.get_queue_length(), 0);
}

#[test]
fn test_priority_ordering() {
    let civ_id = CivId(1);
    let mut queue: ActionQueue<TestAction> = ActionQueue::new(civ_id);

    // Add low priority action first
    queue.queue_action(TestAction::Trade, key(1.0, 1.0), 1);

    // Add high priority action second
    queue.queue_action(TestAction::Defend, key(8.0, 10.0), 1);

    // High priority should come out first
    let first_action = queue.dequeue_next_action(1).unwrap();
    if let TestAction::Defend = first_action.action {
        // This is correct
    } else {
        panic!("Expected defense action to have higher priority");
    }
}

#[test]
fn priority_keys_order_like_floats() {
    let values = [-1000.5f32, -2.0, -0.5, -0.0, 0.0, 0.25, 1.0, 18.0, 1.0e9];
    for i in 0..values.len() {
        for j in 0..values.len() {
            let a = priority_order_key(values[i].to_bits());
            let b = priority_order_key(values[j].to_bits());
            assert_eq!(values[i] < values[j], a < b);
            assert_eq!(values[i] == values[j], a == b);
        }
    }
    assert_eq!(priority_order_key(0x8000_0001), Some(-1));
    assert_eq!(priority_order_key(7), Some(7));
}

#[test]
fn equal_priorities_come_out_first_in_first_out() {
    let mut queue: ActionQueue<TestAction> = ActionQueue::new(CivId(2));
    queue.queue_action(TestAction::Research(1), Some(5), 0);
    queue.queue_action(TestAction::Research(2), Some(9), 0);
    queue.queue_action(TestAction::Research(3), Some(5), 0);
    queue.queue_action(TestAction::Research(4), Some(9), 0);
    let order: Vec<TestAction> = (0..4).map(|_| queue.dequeue_next_action(0).unwrap().action).collect();
    assert_eq!(order, vec![TestAction::Research(2), TestAction::Research(4), TestAction::Research(1), TestAction::Research(3)]);
}

#[test]
fn full_queue_ignores_new_actions() {
    let mut queue: ActionQueue<TestAction> = ActionQueue::new(CivId(3));
    for i in 0..(DEFAULT_MAX_QUEUE_SIZE as u32 + 5) {
        queue.queue_action(TestAction::Research(i), Some(i as i64), 0);
    }
    assert_eq!(queue.get_queue_length(), DEFAULT_MAX_QUEUE_SIZE);
    assert!(!queue.has_capacity());
    assert_eq!(queue.dequeue_next_action(0).unwrap().action, TestAction::Research(19));
}

#[test]
fn delayed_actions_wait_for_their_turn() {
    let mut queue: ActionQueue<TestAction> = ActionQueue::new(CivId(4));
    queue.queue_action_with_settings(TestAction::Defend, Some(100), 1, Some(5), 2);
    queue.queue_action(TestAction::Trade, Some(1), 1);
    assert_eq!(queue.get_ready_actions_count(3), 1);
    assert_eq!(queue.peek_next_action(3).unwrap().action, TestAction::Trade);
    assert_eq!(queue.get_ready_actions_count(5), 2);
    assert_eq!(queue.peek_next_action(5).unwrap().action, TestAction::Defend);
    assert!(queue.dequeue_next_action(3).is_some());
    assert!(queue.dequeue_next_action(3).is_none());
    assert_eq!(queue.get_queue_length(), 1);
}

#[test]
fn failed_actions_are_retried_until_retries_run_out() {
    let mut queue: ActionQueue<TestAction> = ActionQueue::new(CivId(5));
    queue.queue_action(TestAction::BuildUnit, Some(1), 0);
    let mut action = queue.dequeue_next_action(0).unwrap();
    queue.requeue_failed_action(action.clone(), 10);
    assert_eq!(queue.get_queue_length(), 1);
    action = queue.dequeue_next_action(11).unwrap();
    assert_eq!(action.retry_count, 1);
    assert_eq!(action.execution_turn, Some(11));
    queue.requeue_failed_action(action, 11);
    action = queue.dequeue_next_action(12).unwrap();
    assert_eq!(action.retry_count, 2);
    queue.requeue_failed_action(action, 12);
    assert_eq!(queue.get_queue_length(), 0);
}

#[test]
fn a_turn_processes_at_most_the_limit() {
    let mut queue: ActionQueue<TestAction> = ActionQueue::new(CivId(6));
    for i in 0..5 {
        queue.queue_action(TestAction::Research(i), Some(10 - i as i64), 0);
    }
    let done = process_civilization_action_queue(&mut queue, 0);
    assert_eq!(done.len(), 3);
    assert_eq!(done[0].action, TestAction::Research(0));
    assert_eq!(queue.current_turn_processed, 3);
    assert_eq!(queue.get_queue_length(), 2);
    assert!(!queue.can_process_more_actions());
    assert!(execute_queued_action(&done[0]).is_ok());
}

#[test]
fn decisions_go_to_the_queue_of_their_civilization() {
    let mut queues: Vec<ActionQueue<TestAction>> = vec![ActionQueue::new(CivId(1)), ActionQueue::new(CivId(2))];
    let decisions = vec![
        (CivId(2), vec![(TestAction::Trade, Some(3)), (TestAction::Defend, Some(7))]),
        (CivId(9), vec![(TestAction::BuildUnit, Some(1))]),
    ];
    populate_action_queues_from_ai_decisions(decisions, &mut queues, 4);
    assert_eq!(queues[0].get_queue_length(), 0);
    assert_eq!(queues[1].get_queue_length(), 2);
    assert_eq!(queues[1].peek_next_action(4).unwrap().action, TestAction::Defend);
    assert_eq!(find_queue_index(&queues, CivId(2)), Some(1));
    assert_eq!(find_queue_index(&queues, CivId(9)), None);

    add_urgent_action_to_queue(CivId(1), TestAction::Defend, Some(50), &mut queues, 4);
    let urgent = queues[0].peek_next_action(4).unwrap();
    assert_eq!(urgent.max_retries, 1);
    assert_eq!(urgent.turn_queued, 4);
}

#[test]
fn clearing_and_turn_counters() {
    let mut queue: ActionQueue<TestAction> = ActionQueue::new(CivId(7));
    queue.queue_action(TestAction::Trade, Some(1), 0);
    queue.increment_turn_processing();
    assert_eq!(queue.current_turn_processed, 1);
    queue.reset_turn_processing();
    assert_eq!(queue.current_turn_processed, 0);
    queue.clear_queue();
    assert_eq!(queue.get_queue_length(), 0);
}

#[test]
fn an_action_without_retries_left_is_dropped_even_on_the_last_turn() {
    let mut queue: ActionQueue<TestAction> = ActionQueue::new(CivId(7));
    queue.queue_action(TestAction::BuildUnit, Some(1), 0);
    let mut action = queue.dequeue_next_action(0).unwrap();
    action.retry_count = action.max_retries;
    queue.requeue_failed_action(action, u32::MAX);
    assert_eq!(queue.get_queue_length(), 0);
    queue.queue_action(TestAction::Trade, Some(1), 0);
    let done = process_civilization_action_queue(&mut queue, u32::MAX);
    assert_eq!(done.len(), 1);
    assert_eq!(done[0].action, TestAction::Trade);
}

#[test]
fn a_nan_priority_ranks_neither_above_nor_below() {
    assert_eq!(priority_order_key(f32::NAN.to_bits()), None);
    assert_eq!(priority_order_key((-f32::NAN).to_bits()), None);
    assert_eq!(priority_order_key(f32::INFINITY.to_bits()), Some(0x7f80_0000));
    assert_eq!(priority_order_key(f32::NEG_INFINITY.to_bits()), Some(-0x7f80_0000));
    let mut queue: ActionQueue<TestAction> = ActionQueue::new(CivId(3));
    queue.queue_action(TestAction::Research(1), key(1.0, 0.0), 0);
    queue.queue_action(TestAction::Research(2), priority_order_key(f32::NAN.to_bits()), 0);
    queue.queue_action(TestAction::Research(3), key(5.0, 0.0), 0);
    queue.queue_action(TestAction::Research(4), key(0.5, 0.0), 0);
    let mut order = Vec::new();
    while let Some(next) = queue.dequeue_next_action(0) {
        order.push(next.action);
    }
    assert_eq!(order, vec![
        TestAction::Research(3),
        TestAction::Research(1),
        TestAction::Research(2),
        TestAction::Research(4),
    ]);
}
