use todo_tasks::error::TaskError;
use todo_tasks::record::{format_record, read_records};
use todo_tasks::scheduler::Phase;
use todo_tasks::store::AppState;
use todo_tasks::task::{Task, TaskUpdate};
use todo_tasks::time::Timestamp;

fn at(secs: i64) -> Timestamp {
    Timestamp::new(secs, 0).unwrap()
}

fn task(title: &str) -> Task {
    Task::new(title.to_string(), "details".to_string(), at(1_000), at(2_000), false, None)
}

fn stored(id: usize, title: &str) -> Task {
    let mut t = task(title);
    t.id = id;
    t
}

fn nothing() -> TaskUpdate {
    TaskUpdate {
        title: None,
        details: None,
        start_time: None,
        end_time: None,
        is_recurring: None,
        frequency_minutes: None,
    }
}

fn add(state: &mut AppState, task: Task) -> Result<usize, TaskError> {
    state.add_task(task).map(|added| added.id)
}

fn store() -> AppState {
    AppState::new("tasks_done".to_string())
}

#[test]
fn new_store_is_empty() {
    let state = store();
    assert_eq!(state.done_folder(), "tasks_done");
    assert!(state.snapshot().is_empty());
    assert_eq!(state.list_tasks_by_id(1), None);
    assert_eq!(state.save_to_file(), "");
}

#[test]
fn ids_start_at_one_and_increase() {
    let mut state = store();
    assert_eq!(add(&mut state, task("a")), Ok(1));
    assert_eq!(add(&mut state, task("b")), Ok(2));
    assert_eq!(add(&mut state, task("a")), Ok(3));
}

#[test]
fn ids_are_not_handed_out_again() {
    let mut state = store();
    assert_eq!(add(&mut state, task("a")), Ok(1));
    assert_eq!(add(&mut state, task("b")), Ok(2));
    assert!(state.delete_task(2).is_ok());
    assert!(state.delete_task(1).is_ok());
    assert!(state.complete_task(1).is_none());
    assert_eq!(add(&mut state, task("c")), Ok(3));
    assert!(state.edit_task(3, nothing()).is_ok());
    assert_eq!(add(&mut state, task("c")), Ok(4));
}

#[test]
fn add_ignores_the_id_that_came() {
    let mut state = store();
    assert_eq!(add(&mut state, stored(77, "a")), Ok(1));
    assert_eq!(state.list_tasks_by_id(77), None);
    assert_eq!(state.list_tasks_by_id(1), Some(stored(1, "a")));
}

#[test]
fn added_task_is_found_with_its_id() {
    let mut state = store();
    let id = add(&mut state, task("a")).unwrap();
    let found = state.list_tasks_by_id(id).unwrap();
    assert_ne!(found.id, 0);
    assert_eq!(found, stored(id, "a"));
    assert_eq!(state.list_tasks_by_id(id + 1), None);
    assert_eq!(state.list_tasks_by_id(0), None);
}

#[test]
fn add_hands_back_the_archive_file_and_the_reminders() {
    let mut state = store();
    state.add_task(task("a")).unwrap();
    let added = state.add_task(task("b")).unwrap();
    assert_eq!(added.id, 2);
    assert_eq!(added.archive, state.save_task_to_file(&stored(2, "b")));
    assert_eq!(added.archive.path, "tasks_done/b/task_2.txt");
    assert_eq!(added.reminders.task, stored(2, "b"));
    assert_eq!(added.reminders.phase, Phase::AwaitStart);
}

#[test]
fn edit_of_a_missing_task_is_not_found() {
    let mut state = store();
    let update = TaskUpdate { title: Some("x".to_string()), ..nothing() };
    assert_eq!(state.edit_task(999, update), Err(TaskError::NotFound(999)));
    assert!(state.snapshot().is_empty());
}

#[test]
fn edit_changes_the_given_fields_of_one_task() {
    let mut state = store();
    state.add_task(task("a")).unwrap();
    state.add_task(task("b")).unwrap();
    let update = TaskUpdate { title: Some("x".to_string()), end_time: Some(at(5_000)), ..nothing() };
    let file = state.edit_task(2, update).unwrap();
    let mut expected = stored(2, "x");
    expected.end_time = at(5_000);
    assert_eq!(state.list_tasks_by_id(2), Some(expected.clone()));
    assert_eq!(state.list_tasks_by_id(1), Some(stored(1, "a")));
    assert_eq!(file.directory, "tasks_done/x");
    assert_eq!(file.path, "tasks_done/x/task_2.txt");
    assert_eq!(file.contents, format_record(&expected));
}

#[test]
fn edit_accepts_an_end_before_the_start() {
    let mut state = store();
    state.add_task(task("a")).unwrap();
    let update = TaskUpdate { end_time: Some(at(10)), ..nothing() };
    assert!(state.edit_task(1, update).is_ok());
    assert_eq!(state.list_tasks_by_id(1).unwrap().end_time, at(10));
}

#[test]
fn delete_removes_the_task() {
    let mut state = store();
    state.add_task(task("a")).unwrap();
    state.add_task(task("b")).unwrap();
    assert_eq!(state.delete_task(1), Ok("tasks_done/a/task_1.txt".to_string()));
    assert_eq!(state.list_tasks_by_id(1), None);
    assert_eq!(state.snapshot(), vec![stored(2, "b")]);
}

#[test]
fn delete_of_a_missing_task_is_not_found() {
    let mut state = store();
    state.add_task(task("a")).unwrap();
    assert_eq!(state.delete_task(2), Err(TaskError::NotFound(2)));
    assert_eq!(state.delete_task(0), Err(TaskError::NotFound(0)));
    assert_eq!(state.snapshot(), vec![stored(1, "a")]);
    assert!(state.delete_task(1).is_ok());
    assert_eq!(state.delete_task(1), Err(TaskError::NotFound(1)));
}

#[test]
fn complete_removes_the_task_once() {
    let mut state = store();
    state.add_task(task("a")).unwrap();
    let update = TaskUpdate { details: Some("new".to_string()), ..nothing() };
    state.edit_task(1, update).unwrap();
    let file = state.complete_task(1).unwrap();
    let mut last = stored(1, "a");
    last.details = "new".to_string();
    assert_eq!(file.directory, "tasks_done/a");
    assert_eq!(file.path, "tasks_done/a/task_1.txt");
    assert_eq!(file.contents, format_record(&last));
    assert_eq!(state.list_tasks_by_id(1), None);
    assert_eq!(state.complete_task(1), None);
}

#[test]
fn complete_after_delete_does_nothing() {
    let mut state = store();
    state.add_task(task("a")).unwrap();
    state.add_task(task("b")).unwrap();
    state.delete_task(1).unwrap();
    assert_eq!(state.complete_task(1), None);
    assert_eq!(state.snapshot(), vec![stored(2, "b")]);
}

#[test]
fn archive_file_is_named_by_title_and_id() {
    let state = AppState::new("out/dir".to_string());
    let t = stored(31, "weekly plan");
    let file = state.save_task_to_file(&t);
    assert_eq!(file.directory, "out/dir/weekly plan");
    assert_eq!(file.path, "out/dir/weekly plan/task_31.txt");
    assert_eq!(
        file.contents,
        "- ID: 31\n  Title: weekly plan\n  Details: details\n  Start: 1970-01-01T00:16:40+00:00\n  End: 1970-01-01T00:33:20+00:00\n  Recurring: false\n  Frequency: none\n"
    );
}

#[test]
fn list_by_title_matches_exactly() {
    let mut state = store();
    for title in ["a", "b", "a", "A", "a ", "a"] {
        state.add_task(task(title)).unwrap();
    }
    state.delete_task(3).unwrap();
    assert_eq!(state.list_tasks_by_title("a"), vec![stored(1, "a"), stored(6, "a")]);
    assert_eq!(state.list_tasks_by_title("b"), vec![stored(2, "b")]);
    assert!(state.list_tasks_by_title("").is_empty());
    assert!(state.list_tasks_by_title("c").is_empty());
}

#[test]
fn snapshot_is_in_order_of_id() {
    let mut state = store();
    for n in 0..40 {
        state.add_task(task(&format!("t{}", n))).unwrap();
    }
    for id in [5, 17, 40, 1] {
        state.delete_task(id).unwrap();
    }
    let ids: Vec<usize> = state.snapshot().iter().map(|t| t.id).collect();
    let expected: Vec<usize> = (1..=40).filter(|id| ![5, 17, 40, 1].contains(id)).collect();
    assert_eq!(ids, expected);
    assert_eq!(state.snapshot()[0], stored(2, "t1"));
}

#[test]
fn saved_store_is_loaded_again() {
    let mut state = store();
    let mut recurring = task("weekly");
    recurring.is_recurring = true;
    recurring.frequency_minutes = Some(10_080);
    state.add_task(task("a")).unwrap();
    state.add_task(recurring).unwrap();
    state.add_task(task("c")).unwrap();
    state.delete_task(1).unwrap();
    let text = state.save_to_file();
    assert_eq!(read_records(&text), Ok(state.snapshot()));

    let mut fresh = AppState::new("elsewhere".to_string());
    assert_eq!(fresh.load_from_file(&text), Ok(()));
    assert_eq!(fresh.snapshot(), state.snapshot());
    assert_eq!(fresh.done_folder(), "elsewhere");
    assert_eq!(add(&mut fresh, task("d")), Ok(4));

    assert_eq!(state.load_from_file(&text), Ok(()));
    assert_eq!(state.snapshot(), fresh.snapshot()[..2].to_vec());
    assert_eq!(add(&mut state, task("d")), Ok(4));
}

#[test]
fn load_replaces_what_was_there() {
    let mut state = store();
    for _ in 0..9 {
        state.add_task(task("old")).unwrap();
    }
    let text = format!("{}{}", format_record(&stored(3, "x")), format_record(&stored(2, "y")));
    assert_eq!(state.load_from_file(&text), Ok(()));
    assert_eq!(state.snapshot(), vec![stored(2, "y"), stored(3, "x")]);
    assert_eq!(add(&mut state, task("new")), Ok(10));
}

#[test]
fn load_of_nothing_empties_the_store() {
    let mut state = store();
    state.add_task(task("old")).unwrap();
    assert_eq!(state.load_from_file(""), Ok(()));
    assert!(state.snapshot().is_empty());
    assert_eq!(add(&mut state, task("new")), Ok(2));
}

#[test]
fn load_of_a_broken_file_changes_nothing() {
    let mut state = store();
    state.add_task(task("old")).unwrap();
    let good = format_record(&stored(5, "x"));
    let broken = [
        format!("{}garbage", good),
        format!("{}{}", good, good),
        format!("{}{}", good, format_record(&stored(0, "zero"))),
        format!("{}{}", format_record(&stored(usize::MAX, "max")), good),
        "x".to_string(),
    ];
    for text in broken {
        assert_eq!(state.load_from_file(&text), Err(TaskError::Serialization));
        assert_eq!(state.snapshot(), vec![stored(1, "old")]);
    }
    assert_eq!(add(&mut state, task("new")), Ok(2));
}

#[test]
fn store_runs_out_of_ids_at_the_greatest_integer() {
    let mut state = store();
    let text = format_record(&stored(usize::MAX - 2, "late"));
    assert_eq!(state.load_from_file(&text), Ok(()));
    assert_eq!(add(&mut state, task("a")), Ok(usize::MAX - 1));
    assert_eq!(add(&mut state, task("b")), Err(TaskError::IdsExhausted));
    assert_eq!(add(&mut state, task("b")), Err(TaskError::IdsExhausted));
    assert_eq!(state.snapshot().len(), 2);
}
