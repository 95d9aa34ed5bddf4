use todo_tasks::error::TaskError;
use todo_tasks::task::{Task, TaskUpdate};
use todo_tasks::time::{Timestamp, MAX_SECONDS};

fn at(secs: i64) -> Timestamp {
    Timestamp::new(secs, 0).unwrap()
}

fn sample() -> Task {
    Task::new("standup".to_string(), "daily sync".to_string(), at(1_000), at(1_300), true, Some(60))
}

fn nothing() -> TaskUpdate {
    TaskUpdate {
        title: None,
        details: None,
        start_time: None,
        end_time: None,
        is_recurring: None,
        frequency_minutes: None,
    }
}

#[test]
fn new_sets_no_id_and_checks_nothing() {
    let task = Task::new("t".to_string(), "d".to_string(), at(500), at(100), false, Some(5));
    assert_eq!(task.id, 0);
    assert_eq!(task.title, "t");
    assert_eq!(task.details, "d");
    assert_eq!(task.start_time, at(500));
    assert_eq!(task.end_time, at(100));
    assert!(!task.is_recurring);
    assert_eq!(task.frequency_minutes, Some(5));
}

#[test]
fn create_takes_a_window_in_the_future() {
    let task =
        Task::create("t".to_string(), "d".to_string(), at(101), at(102), true, Some(3), &at(100))
            .unwrap();
    assert_eq!(task, Task::new("t".to_string(), "d".to_string(), at(101), at(102), true, Some(3)));
}

#[test]
fn create_rejects_a_start_that_is_not_ahead() {
    for start in [100, 99, 0] {
        let r = Task::create("t".to_string(), "d".to_string(), at(start), at(500), false, None, &at(100));
        assert_eq!(r, Err(TaskError::InvalidTime("Start time must be in the future.".to_string())));
    }
}

#[test]
fn create_rejects_an_end_that_is_not_after_the_start() {
    for end in [200, 199, 150] {
        let r = Task::create("t".to_string(), "d".to_string(), at(200), at(end), false, None, &at(100));
        assert_eq!(
            r,
            Err(TaskError::InvalidTime("End time must be after the start time.".to_string()))
        );
    }
}

#[test]
fn create_checks_the_start_first() {
    let r = Task::create("t".to_string(), "d".to_string(), at(50), at(40), false, None, &at(100));
    assert_eq!(r, Err(TaskError::InvalidTime("Start time must be in the future.".to_string())));
}

#[test]
fn apply_of_nothing_changes_nothing() {
    let mut task = sample();
    task.id = 7;
    let before = task.clone();
    task.apply(nothing());
    assert_eq!(task, before);
}

#[test]
fn apply_sets_only_the_title() {
    let mut task = sample();
    task.id = 7;
    task.apply(TaskUpdate { title: Some("retro".to_string()), ..nothing() });
    let mut expected = sample();
    expected.id = 7;
    expected.title = "retro".to_string();
    assert_eq!(task, expected);
}

#[test]
fn apply_sets_each_field_that_is_given() {
    let mut task = sample();
    task.apply(TaskUpdate {
        title: Some("a".to_string()),
        details: Some("b".to_string()),
        start_time: Some(at(5)),
        end_time: Some(at(6)),
        is_recurring: Some(false),
        frequency_minutes: Some(-3),
    });
    assert_eq!(task, Task::new("a".to_string(), "b".to_string(), at(5), at(6), false, Some(-3)));
}

#[test]
fn apply_enforces_no_rule_on_the_times() {
    let mut task = sample();
    task.apply(TaskUpdate { end_time: Some(at(1)), ..nothing() });
    assert_eq!(task.start_time, at(1_000));
    assert_eq!(task.end_time, at(1));
}

#[test]
fn apply_keeps_the_frequency_when_recurrence_is_switched_off() {
    let mut task = sample();
    task.apply(TaskUpdate { is_recurring: Some(false), ..nothing() });
    assert!(!task.is_recurring);
    assert_eq!(task.frequency_minutes, Some(60));
    assert_eq!(task.successor(), None);
}

#[test]
fn successor_is_moved_by_the_frequency() {
    let mut task = sample();
    task.id = 4;
    let next = task.successor().unwrap();
    assert_eq!(
        next,
        Task::new("standup".to_string(), "daily sync".to_string(), at(4_600), at(4_900), true, Some(60))
    );
    assert_eq!(next.id, 0);
}

#[test]
fn successor_moves_back_for_a_negative_frequency() {
    let task = Task::new("t".to_string(), "d".to_string(), at(1_000), at(1_300), true, Some(-2));
    let next = task.successor().unwrap();
    assert_eq!((next.start_time, next.end_time), (at(880), at(1_180)));
}

#[test]
fn no_successor_without_recurrence_or_frequency() {
    let once = Task::new("t".to_string(), "d".to_string(), at(1_000), at(1_300), false, Some(60));
    assert_eq!(once.successor(), None);
    let bare = Task::new("t".to_string(), "d".to_string(), at(1_000), at(1_300), true, None);
    assert_eq!(bare.successor(), None);
}

#[test]
fn no_successor_past_the_year_9999() {
    let late = Task::new(
        "t".to_string(),
        "d".to_string(),
        at(MAX_SECONDS - 120),
        at(MAX_SECONDS - 30),
        true,
        Some(1),
    );
    assert_eq!(late.successor(), None);
    let fits = Task::new(
        "t".to_string(),
        "d".to_string(),
        at(MAX_SECONDS - 120),
        at(MAX_SECONDS - 60),
        true,
        Some(1),
    );
    assert_eq!(fits.successor().unwrap().end_time, at(MAX_SECONDS));
}

#[test]
fn clone_is_equal() {
    let task = sample();
    assert_eq!(task.clone(), task);
}
