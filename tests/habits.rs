use habit_tracker::{
    EditCommand, HabitData, HabitError, HabitID, HabitNode, HabitWarning, MetricsLedger,
    MetricsSummary, NodeStatus,
};

const ALL: [NodeStatus; 5] = [
    NodeStatus::IDLE,
    NodeStatus::SKIPPED,
    NodeStatus::PARTIAL,
    NodeStatus::FAILED,
    NodeStatus::COMPLETE,
];

fn day(month: u32, day: u32, year: u32) -> HabitID {
    HabitID { day, month, year }
}

fn habit(goal: i32) -> HabitData {
    HabitData::with_start("steps".to_string(), goal, None, day(1, 1, 2023)).0
}

fn assert_balanced(h: &HabitData) {
    let entries = h.node_entries();
    let mut sum = 0;
    for s in ALL {
        let n = entries.iter().filter(|e| e.1.status == s).count();
        assert_eq!(h.metric(s), n as i128);
        sum += h.metric(s);
    }
    assert_eq!(sum, h.node_count() as i128);
    assert_eq!(sum, entries.len() as i128);
}

#[test]
fn ledger_balances_after_every_edit() {
    let mut h = habit(100);
    let steps: [(u32, &str, i32); 12] = [
        (1, "skip", 0),
        (1, "increment", 40),
        (2, "set", 100),
        (3, "fail", 0),
        (1, "complete", 0),
        (2, "reset", 0),
        (4, "reset", 0),
        (3, "increment", 150),
        (5, "set", -3),
        (2, "bogus", 0),
        (5, "complete", 0),
        (5, "complete", 0),
    ];
    for (d, command, value) in steps {
        let _ = h.edit_node(day(10, d, 2023), command, value);
        assert_balanced(&h);
    }
    assert_eq!(h.node_count(), 5);
}

#[test]
fn completing_twice_is_completing_once() {
    let mut h = habit(100);
    let d = day(10, 4, 2023);
    h.edit_node(d, "increment", 30).unwrap();
    h.edit_node(d, "complete", 0).unwrap();
    let once = h.node_entries();
    let counts_once: Vec<i128> = ALL.iter().map(|s| h.metric(*s)).collect();
    h.edit_node(d, "complete", 0).unwrap();
    assert_eq!(h.node_entries(), once);
    assert_eq!(ALL.iter().map(|s| h.metric(*s)).collect::<Vec<i128>>(), counts_once);
    assert_eq!(h.node(d), Some(HabitNode { value: 100, goal: 100, status: NodeStatus::COMPLETE }));
    assert_eq!(h.metric(NodeStatus::COMPLETE), 1);
    assert_balanced(&h);
}

#[test]
fn first_skip_records_one_skipped_day() {
    let mut h = habit(100);
    let other = day(10, 3, 2023);
    h.edit_node(other, "reset", 0).unwrap();
    let idle_before = h.metric(NodeStatus::IDLE);
    let skipped_before = h.metric(NodeStatus::SKIPPED);
    let d = day(10, 4, 2023);
    assert_eq!(h.edit_node(d, "skip", 0), Ok(()));
    assert_eq!(h.node_count(), 2);
    assert_eq!(h.node(d), Some(HabitNode { value: 0, goal: 100, status: NodeStatus::SKIPPED }));
    assert_eq!(h.metric(NodeStatus::IDLE), idle_before);
    assert_eq!(h.metric(NodeStatus::SKIPPED), skipped_before + 1);
}

#[test]
fn set_and_increment_meet_the_goal_at_its_boundary() {
    let d = day(10, 4, 2023);
    let mut h = habit(100);
    h.edit_node(d, "set", 100).unwrap();
    assert_eq!(h.node(d).unwrap().status, NodeStatus::COMPLETE);

    let mut h = habit(100);
    h.edit_node(d, "set", 99).unwrap();
    assert_eq!(h.node(d).unwrap().status, NodeStatus::PARTIAL);

    let mut h = habit(100);
    h.edit_node(d, "increment", 50).unwrap();
    assert_eq!(h.node(d).unwrap().status, NodeStatus::PARTIAL);
    h.edit_node(d, "increment", 50).unwrap();
    assert_eq!(h.node(d), Some(HabitNode { value: 100, goal: 100, status: NodeStatus::COMPLETE }));
}

#[test]
fn unknown_command_changes_nothing() {
    let mut h = habit(100);
    let d = day(10, 4, 2023);
    assert_eq!(h.edit_node(d, "finish", 5), Err(HabitError::InvalidArgument));
    assert_eq!(h.node_count(), 0);
    assert_eq!(h.metric(NodeStatus::IDLE), 0);
}

#[test]
fn increment_past_i32_is_refused() {
    let mut h = habit(100);
    let d = day(10, 4, 2023);
    h.edit_node(d, "set", i32::MAX - 1).unwrap();
    assert_eq!(h.edit_node(d, "increment", 2), Err(HabitError::InvalidArgument));
    assert_eq!(h.node(d).unwrap().value, i32::MAX - 1);
    assert_eq!(h.edit_node(d, "increment", 1), Ok(()));
    assert_eq!(h.node(d).unwrap().value, i32::MAX);
}

#[test]
fn goal_is_copied_when_a_day_is_first_recorded() {
    let h = habit(42);
    assert_eq!(h.create_node_from_habit(), HabitNode { value: 0, goal: 42, status: NodeStatus::IDLE });
}

#[test]
fn fresh_node_insertion() {
    let mut h = habit(100);
    let d = day(10, 4, 2023);
    assert_eq!(h.insert_fresh_node(d), Ok(d));
    assert_eq!(h.node(d), Some(HabitNode { value: 0, goal: 100, status: NodeStatus::IDLE }));
    assert_eq!(h.metric(NodeStatus::IDLE), 1);
    assert_eq!(h.insert_fresh_node(d), Err(HabitError::AlreadyExists));
    assert_eq!(h.metric(NodeStatus::IDLE), 1);
}

#[test]
fn reset_on_a_new_day_counts_it_idle() {
    let mut h = habit(100);
    let d = day(10, 4, 2023);
    h.edit_node(d, "reset", 0).unwrap();
    assert_eq!(h.node(d).unwrap().status, NodeStatus::IDLE);
    assert_eq!(h.metric(NodeStatus::IDLE), 1);
    h.edit_node(d, "fail", 0).unwrap();
    h.edit_node(d, "reset", 0).unwrap();
    assert_eq!(h.metric(NodeStatus::IDLE), 1);
    assert_eq!(h.metric(NodeStatus::FAILED), 0);
}

#[test]
fn shift_metric_moves_one_day() {
    let mut h = habit(100);
    assert_eq!(h.shift_metric(Some(NodeStatus::IDLE), None), Err(HabitError::InvalidArgument));
    assert_eq!(h.metric(NodeStatus::IDLE), 0);
    // A count may go below zero: the ledger does as it is told.
    assert_eq!(h.shift_metric(Some(NodeStatus::FAILED), Some(NodeStatus::COMPLETE)), Ok(()));
    assert_eq!((h.metric(NodeStatus::FAILED), h.metric(NodeStatus::COMPLETE)), (-1, 1));
    assert_eq!(h.shift_metric(None, Some(NodeStatus::PARTIAL)), Ok(()));
    assert_eq!(h.metric(NodeStatus::PARTIAL), 1);
    assert_eq!(h.shift_metric(Some(NodeStatus::PARTIAL), Some(NodeStatus::COMPLETE)), Ok(()));
    assert_eq!((h.metric(NodeStatus::PARTIAL), h.metric(NodeStatus::COMPLETE)), (0, 2));
    assert_eq!(h.shift_metric(Some(NodeStatus::SKIPPED), Some(NodeStatus::SKIPPED)), Ok(()));
    assert_eq!(h.metric(NodeStatus::SKIPPED), 0);
    assert_eq!(h.node_count(), 0);
}

#[test]
fn ledger_counters_hold_their_bounds() {
    let mut l = MetricsLedger::from_counts(0, 0, 0, i128::MAX, 1);
    assert_eq!(l.shift(Some(NodeStatus::COMPLETE), Some(NodeStatus::FAILED)), Err(HabitError::InvariantViolation));
    assert_eq!(l.count(NodeStatus::COMPLETE), 1);
    assert_eq!(l.shift(Some(NodeStatus::FAILED), Some(NodeStatus::FAILED)), Ok(()));
    assert_eq!(l.count(NodeStatus::FAILED), i128::MAX);
    let mut low = MetricsLedger::from_counts(i128::MIN, 0, 0, 0, 0);
    assert_eq!(low.shift(Some(NodeStatus::IDLE), Some(NodeStatus::SKIPPED)), Err(HabitError::InvariantViolation));
    assert_eq!((low.count(NodeStatus::IDLE), low.count(NodeStatus::SKIPPED)), (i128::MIN, 0));
    let mut fresh = MetricsLedger::new();
    assert_eq!(fresh.shift(None, Some(NodeStatus::SKIPPED)), Ok(()));
    assert_eq!(fresh.count(NodeStatus::SKIPPED), 1);
    assert_eq!(fresh.shift(Some(NodeStatus::IDLE), Some(NodeStatus::SKIPPED)), Ok(()));
    assert_eq!((fresh.count(NodeStatus::IDLE), fresh.count(NodeStatus::SKIPPED)), (-1, 2));
}

#[test]
fn enabled_days_are_read_or_dropped_with_a_warning() {
    assert_eq!(HabitData::validate_allowed_days("1-3-5-7".to_string()), Ok(vec![1, 3, 5, 7]));
    assert_eq!(HabitData::validate_allowed_days("+2".to_string()), Ok(vec![2]));
    assert_eq!(HabitData::validate_allowed_days("1--3".to_string()), Err(HabitError::InvalidArgument));
    assert_eq!(HabitData::validate_allowed_days("".to_string()), Err(HabitError::InvalidArgument));
    assert_eq!(HabitData::validate_allowed_days("mon-tue".to_string()), Err(HabitError::InvalidArgument));
    assert_eq!(HabitData::validate_allowed_days("4294967296".to_string()), Err(HabitError::InvalidArgument));
    assert_eq!(HabitData::validate_allowed_days("4294967295".to_string()), Ok(vec![4294967295]));

    let (h, warning) = HabitData::with_start("x".to_string(), 5, Some("1-x".to_string()), day(1, 1, 2023));
    assert_eq!(warning, Some(HabitWarning::EnabledDaysDropped));
    assert_eq!(h.enabled_days(), None);
    assert!(h.is_active());
    assert_eq!(h.goal(), 5);
    assert_eq!(h.description(), "x");
    assert_eq!(h.start_date(), day(1, 1, 2023));
}

#[test]
fn summary_needs_a_recorded_day() {
    let mut h = habit(10);
    assert_eq!(h.summary(), None);
    h.edit_node(day(1, 1, 2024), "increment", 5).unwrap();
    h.edit_node(day(1, 2, 2024), "complete", 0).unwrap();
    h.edit_node(day(1, 3, 2024), "reset", 0).unwrap();
    let s = h.summary().unwrap();
    assert_eq!(s, MetricsSummary { days: 3, complete: 1, partial: 1, skipped: 0, idle: 1, failed: 0 });
    // (1 + 1/2) of 3 days: 50.0 %
    assert_eq!(s.percent_tenths(), 500);
}

#[test]
fn score_in_tenths_rounds_half_up() {
    let s = MetricsSummary { days: 3, complete: 1, partial: 0, skipped: 0, idle: 2, failed: 0 };
    assert_eq!(s.score_halves(), 2);
    assert_eq!(s.percent_tenths(), 333);
    let s = MetricsSummary { days: 3, complete: 2, partial: 0, skipped: 1, idle: 0, failed: 0 };
    assert_eq!(s.percent_tenths(), 667);
    let s = MetricsSummary { days: 0, complete: 0, partial: 0, skipped: 0, idle: 0, failed: 0 };
    assert_eq!(s.percent_tenths(), 0);
}

#[test]
fn rebuilding_from_parts_keeps_the_habit() {
    let mut h = habit(100);
    h.edit_node(day(10, 4, 2023), "increment", 30).unwrap();
    h.edit_node(day(10, 5, 2023), "complete", 0).unwrap();
    h.edit_node(day(10, 6, 2023), "skip", 0).unwrap();
    let rebuilt = HabitData::from_parts(
        h.start_date(),
        h.enabled_days().cloned(),
        h.description().clone(),
        h.goal(),
        h.node_entries(),
        h.is_active(),
    )
    .unwrap();
    assert_eq!(rebuilt.node_entries(), h.node_entries());
    assert_eq!(rebuilt.summary(), h.summary());
    for s in ALL {
        assert_eq!(rebuilt.metric(s), h.metric(s));
    }
}

#[test]
fn rebuilding_refuses_a_day_recorded_twice() {
    let d = day(10, 4, 2023);
    let n = HabitNode { value: 1, goal: 2, status: NodeStatus::PARTIAL };
    let r = HabitData::from_parts(d, None, String::new(), 2, vec![(d, n), (d, n)], true);
    assert!(matches!(r, Err(HabitError::InvalidArgument)));
}

#[test]
fn node_operations_set_status_and_value() {
    let mut n = HabitNode::new(10, 100, NodeStatus::SKIPPED);
    n.calculate_status();
    assert_eq!(n.status, NodeStatus::PARTIAL);
    n.fail_node();
    assert_eq!(n, HabitNode { value: 10, goal: 100, status: NodeStatus::FAILED });
    n.skip_node();
    assert_eq!(n.status, NodeStatus::SKIPPED);
    n.idle_node();
    assert_eq!(n, HabitNode { value: 10, goal: 100, status: NodeStatus::IDLE });
    n.complete_node();
    assert_eq!(n, HabitNode { value: 100, goal: 100, status: NodeStatus::COMPLETE });
    n.value = 250;
    assert_eq!(n.calculate_status(), NodeStatus::COMPLETE);
}

#[test]
fn command_names() {
    assert_eq!(EditCommand::from_name("complete"), Some(EditCommand::Complete));
    assert_eq!(EditCommand::from_name("fail"), Some(EditCommand::Fail));
    assert_eq!(EditCommand::from_name("skip"), Some(EditCommand::Skip));
    assert_eq!(EditCommand::from_name("reset"), Some(EditCommand::Reset));
    assert_eq!(EditCommand::from_name("set"), Some(EditCommand::SetValue));
    assert_eq!(EditCommand::from_name("increment"), Some(EditCommand::Increment));
    assert_eq!(EditCommand::from_name("Complete"), None);
    assert_eq!(EditCommand::from_name(""), None);
}
