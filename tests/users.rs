use habit_tracker::{
    DayEntry, HabitData, HabitError, HabitID, HabitNode, NodeStatus, UserData,
};

fn day(month: u32, day: u32, year: u32) -> HabitID {
    HabitID { day, month, year }
}

fn args(command: &str, habit: &str) -> Vec<String> {
    vec!["habit".to_string(), command.to_string(), habit.to_string()]
}

fn plain_habit(goal: i32) -> HabitData {
    HabitData::with_start("a habit".to_string(), goal, None, day(1, 1, 2023)).0
}

#[test]
fn it_makes_habit_user() {
    let test_user = UserData::with_identity(7, "Ricardo".to_string());
    assert_eq!(test_user.id(), 007);
}

#[test]
fn it_adds_data_to_user() {
    let mut test_user = UserData::with_identity(7, "Ricardo".to_string());
    let (test_data, warning) = HabitData::with_start(
        "this is a test habit".to_string(),
        100,
        Some("0-1-5-6".to_string()),
        HabitID { day: 1, month: 1, year: 2023 },
    );
    assert_eq!(warning, None);
    assert_eq!(test_user.add_habit("test_habit".to_string(), test_data), Ok(()));
    let data_check = test_user.habit(&"test_habit".to_string()).unwrap();
    assert_eq!(data_check.enabled_days().cloned(), Some(vec![0, 1, 5, 6]));
}

#[test]
fn it_adds_and_edits_node() {
    let mut test_user = UserData::with_identity(7, "Ricardo".to_string());
    let date = HabitID::from_string("10-4-2023".to_string()).unwrap();
    let test_node = HabitNode { value: 10, goal: 100, status: NodeStatus::SKIPPED };
    let test_data = HabitData::from_parts(
        HabitID { day: 1, month: 1, year: 2023 },
        Some(vec![0, 1, 5, 6]),
        "this is a test habit".to_string(),
        100,
        vec![(date, test_node)],
        true,
    )
    .unwrap();
    test_user.add_habit("test_habit".to_string(), test_data).unwrap();
    let name = "test_habit".to_string();
    assert_eq!(test_user.habit(&name).unwrap().node(date).unwrap().status, NodeStatus::SKIPPED);

    // Setting the value it already holds earns the status from the value.
    test_user.edit_habit_node(args("set", "test_habit"), date, 10).unwrap();
    assert_eq!(test_user.habit(&name).unwrap().node(date).unwrap().status, NodeStatus::PARTIAL);
}

#[test]
fn new_user_is_empty() {
    let u = UserData::new();
    assert_eq!(u.id(), 0);
    assert_eq!(u.name(), "");
    assert_eq!(u.habit_count(), 0);
}

#[test]
fn adding_a_taken_name_fails() {
    let mut u = UserData::new();
    assert_eq!(u.add_habit("walk".to_string(), plain_habit(10)), Ok(()));
    assert_eq!(u.add_habit("walk".to_string(), plain_habit(20)), Err(HabitError::AlreadyExists));
    assert_eq!(u.habit_count(), 1);
    assert_eq!(u.habit(&"walk".to_string()).unwrap().goal(), 10);
}

#[test]
fn removing_or_hiding_a_missing_habit_fails() {
    let mut u = UserData::new();
    assert_eq!(u.remove_habit("walk".to_string()), Err(HabitError::NotFound));
    assert_eq!(u.hide_habit("walk".to_string()), Err(HabitError::NotFound));
    assert_eq!(u.show_history("walk".to_string()), Err(HabitError::NotFound));
}

#[test]
fn editing_needs_a_known_habit_and_enough_arguments() {
    let mut u = UserData::new();
    u.add_habit("walk".to_string(), plain_habit(10)).unwrap();
    let d = day(10, 4, 2023);
    assert_eq!(u.edit_habit_node(args("complete", "run"), d, 0), Err(HabitError::NotFound));
    assert_eq!(
        u.edit_habit_node(vec!["habit".to_string(), "complete".to_string()], d, 0),
        Err(HabitError::InvalidArgument)
    );
    assert_eq!(u.edit_habit_node(args("jump", "walk"), d, 0), Err(HabitError::InvalidArgument));
    assert_eq!(u.habit(&"walk".to_string()).unwrap().node_count(), 0);
    assert_eq!(u.edit_habit_node(args("complete", "walk"), d, 0), Ok(()));
    let node = u.habit(&"walk".to_string()).unwrap().node(d).unwrap();
    assert_eq!(node, HabitNode { value: 10, goal: 10, status: NodeStatus::COMPLETE });
}

#[test]
fn listing_without_habits_fails() {
    let u = UserData::new();
    assert_eq!(u.habit_list_for_day(day(10, 4, 2023)), Err(HabitError::NotFound));
}

#[test]
fn listing_shows_active_habits_touched_that_day() {
    let mut u = UserData::new();
    u.add_habit("walk".to_string(), plain_habit(10)).unwrap();
    u.add_habit("read".to_string(), plain_habit(30)).unwrap();
    u.add_habit("swim".to_string(), plain_habit(5)).unwrap();
    let d = day(10, 4, 2023);
    u.edit_habit_node(args("increment", "walk"), d, 4).unwrap();
    u.edit_habit_node(args("fail", "swim"), d, 0).unwrap();
    u.edit_habit_node(args("complete", "read"), day(10, 5, 2023), 0).unwrap();
    let list = u.habit_list_for_day(d).unwrap();
    assert_eq!(
        list,
        vec![
            DayEntry { name: "walk".to_string(), status: NodeStatus::PARTIAL, value: 4, goal: 10 },
            DayEntry { name: "swim".to_string(), status: NodeStatus::FAILED, value: 0, goal: 5 },
        ]
    );
}

#[test]
fn hiding_toggles_listing_and_keeps_records() {
    let mut u = UserData::new();
    u.add_habit("walk".to_string(), plain_habit(10)).unwrap();
    u.add_habit("read".to_string(), plain_habit(30)).unwrap();
    let today = day(10, 4, 2023);
    u.edit_habit_node(args("set", "walk"), today, 7).unwrap();
    u.edit_habit_node(args("skip", "read"), today, 0).unwrap();
    let before = u.habit_list_for_day(today).unwrap();
    let walk = "walk".to_string();
    let nodes_before = u.habit(&walk).unwrap().node_entries();

    assert_eq!(u.hide_habit(walk.clone()), Ok(()));
    assert!(!u.habit(&walk).unwrap().is_active());
    let hidden = u.habit_list_for_day(today).unwrap();
    assert!(hidden.iter().all(|e| e.name != "walk"));
    assert_eq!(hidden.len(), 1);
    assert_eq!(u.habit(&walk).unwrap().node_entries(), nodes_before);

    assert_eq!(u.hide_habit(walk.clone()), Ok(()));
    assert!(u.habit(&walk).unwrap().is_active());
    assert_eq!(u.habit_list_for_day(today).unwrap(), before);
    assert_eq!(u.habit(&walk).unwrap().node_entries(), nodes_before);
}

#[test]
fn removal_is_final() {
    let mut u = UserData::new();
    u.add_habit("walk".to_string(), plain_habit(10)).unwrap();
    let d = day(10, 4, 2023);
    u.edit_habit_node(args("complete", "walk"), d, 0).unwrap();
    assert!(u.show_history("walk".to_string()).unwrap().is_some());

    assert_eq!(u.remove_habit("walk".to_string()), Ok(()));
    assert_eq!(u.show_history("walk".to_string()), Err(HabitError::NotFound));
    assert_eq!(u.habit_count(), 0);

    u.add_habit("walk".to_string(), plain_habit(10)).unwrap();
    assert_eq!(u.show_history("walk".to_string()), Ok(None));
    assert_eq!(u.habit(&"walk".to_string()).unwrap().node(d), None);
}

#[test]
fn clearing_drops_every_habit_but_keeps_identity() {
    let mut u = UserData::with_identity(3, "Ana".to_string());
    u.add_habit("walk".to_string(), plain_habit(10)).unwrap();
    u.add_habit("read".to_string(), plain_habit(10)).unwrap();
    u.clear_data();
    assert_eq!(u.habit_count(), 0);
    assert_eq!(u.id(), 3);
    assert_eq!(u.name(), "Ana");
}

#[test]
fn history_summarises_the_ledger() {
    let mut u = UserData::new();
    u.add_habit("walk".to_string(), plain_habit(10)).unwrap();
    u.edit_habit_node(args("complete", "walk"), day(1, 1, 2024), 0).unwrap();
    u.edit_habit_node(args("increment", "walk"), day(1, 2, 2024), 5).unwrap();
    u.edit_habit_node(args("skip", "walk"), day(1, 3, 2024), 0).unwrap();
    u.edit_habit_node(args("fail", "walk"), day(1, 4, 2024), 0).unwrap();
    let s = u.show_history("walk".to_string()).unwrap().unwrap();
    assert_eq!((s.days, s.complete, s.partial, s.skipped, s.idle, s.failed), (4, 1, 1, 1, 0, 1));
    // (1 + 1/2) of 4 days: 37.5 %
    assert_eq!(s.score_halves(), 3);
    assert_eq!(s.percent_tenths(), 375);
}
