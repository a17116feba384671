use feature_showcase::scoring::{
    builtin_scorable, default_strategies, score_item, BuiltinStrategy, DependencyStrategy,
    PriorityStrategy, ScoreStrategy, SizeStrategy, StateStrategy,
};
use feature_showcase::{Priority, WorkItem, WorkState};

fn item_with(priority: Priority, state: WorkState) -> WorkItem {
    WorkItem {
        id: "item".to_string(),
        title: "Sample".to_string(),
        owner: Some("alice".to_string()),
        priority,
        state,
        estimate_hours: 8,
        tags: vec!["demo".to_string()],
        blocked_by: Vec::new(),
        notes: None,
    }
}

#[test]
fn critical_items_score_higher_than_low_priority_items() {
    let strategies = default_strategies();
    let low = score_item(&item_with(Priority::Low, WorkState::Todo), &strategies);
    let critical = score_item(&item_with(Priority::Critical, WorkState::Todo), &strategies);
    assert!(critical.score > low.score);
}

#[test]
fn priority_raises_score_by_three_times_weight_difference() {
    let strategies = default_strategies();
    let low = score_item(&item_with(Priority::Low, WorkState::Blocked), &strategies);
    let high = score_item(&item_with(Priority::High, WorkState::Blocked), &strategies);
    assert_eq!(high.score - low.score, 3 * (6 - 1));
}

#[test]
fn weights_are_exact() {
    assert_eq!(Priority::Low.weight(), 1);
    assert_eq!(Priority::Medium.weight(), 3);
    assert_eq!(Priority::High.weight(), 6);
    assert_eq!(Priority::Critical.weight(), 10);
    assert_eq!(WorkState::Todo.weight(), 4);
    assert_eq!(WorkState::InProgress.weight(), 6);
    assert_eq!(WorkState::Blocked.weight(), 1);
    assert_eq!(WorkState::Done.weight(), -2);
    assert_eq!(Priority::Critical.to_string(), "critical");
    assert_eq!(WorkState::InProgress.to_string(), "in_progress");
}

#[test]
fn size_strategy_boundaries() {
    let mut item = item_with(Priority::Low, WorkState::Todo);
    let cases = [(0, 8), (4, 8), (5, 5), (12, 5), (13, 2), (24, 2), (25, -2), (u32::MAX, -2)];
    for (hours, expected) in cases {
        item.estimate_hours = hours;
        assert_eq!(SizeStrategy.score(&item), expected);
    }
}

#[test]
fn dependency_strategy_penalises_dependencies_and_blocked_state() {
    let mut item = item_with(Priority::Low, WorkState::Blocked);
    item.blocked_by = vec!["a".to_string(), "b".to_string()];
    assert_eq!(DependencyStrategy.score(&item), -14);
    item.state = WorkState::Todo;
    assert_eq!(DependencyStrategy.score(&item), -8);
    assert_eq!(DependencyStrategy.label(), "dependencies");
    assert_eq!(PriorityStrategy.score(&item), 3);
    assert_eq!(StateStrategy.score(&item), 8);
}

#[test]
fn score_item_with_chosen_strategies() {
    let item = item_with(Priority::High, WorkState::InProgress);
    let strategies = vec![BuiltinStrategy::State(StateStrategy), BuiltinStrategy::Priority(PriorityStrategy)];
    let scored = score_item(&item, &strategies);
    assert_eq!(scored.score, 12 + 18);
    assert_eq!(scored.reasons, vec!["state=12".to_string(), "priority=18".to_string()]);
    let none: Vec<BuiltinStrategy> = Vec::new();
    let scored = score_item(&item, &none);
    assert_eq!(scored.score, 0);
    assert!(scored.reasons.is_empty());
    assert_eq!(scored.id, "item");
    assert_eq!(scored.title, "Sample");
}

#[test]
fn builtin_scorable_bounds() {
    let item = item_with(Priority::Low, WorkState::Todo);
    assert!(builtin_scorable(&item));
}
