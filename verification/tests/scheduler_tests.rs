use todo_tasks::scheduler::{
    completion_delay, Action, Notice, Phase, ReminderSchedule, END_LEAD_SECONDS,
    START_LEAD_SECONDS,
};
use todo_tasks::store::AppState;
use todo_tasks::task::Task;
use todo_tasks::time::Timestamp;

const NOW: i64 = 1_893_456_000;
const MINUTE: i64 = 60;

fn at(secs: i64) -> Timestamp {
    Timestamp::new(secs, 0).unwrap()
}

fn standup() -> Task {
    Task::new(
        "standup".to_string(),
        "daily".to_string(),
        at(NOW + 10 * MINUTE),
        at(NOW + 15 * MINUTE),
        true,
        Some(60),
    )
}

fn sleep_seconds(action: &Action) -> u64 {
    match action {
        Action::Sleep(delay) => {
            assert_eq!(delay.nanos(), 0);
            delay.secs()
        }
        other => panic!("no sleep: {:?}", other),
    }
}

#[test]
fn leads_are_five_and_two_minutes() {
    assert_eq!(START_LEAD_SECONDS, 300);
    assert_eq!(END_LEAD_SECONDS, 120);
}

#[test]
fn recurring_standup_runs_its_whole_cycle() {
    let mut state = AppState::new("tasks_done".to_string());
    let added = state.add_task(standup()).unwrap();
    assert_eq!(added.id, 1);
    let stored = state.list_tasks_by_id(1).unwrap();
    let mut schedule = added.reminders;
    assert_eq!(schedule.task, stored);
    assert_eq!(schedule.phase, Phase::AwaitStart);

    let wait = completion_delay(&stored, &at(NOW));
    assert_eq!((wait.secs(), wait.nanos()), (15 * 60, 0));

    let mut clock = NOW;
    let action = schedule.step(&at(clock));
    assert_eq!(sleep_seconds(&action), 5 * 60);
    clock += 5 * MINUTE;
    assert_eq!(schedule.step(&at(clock)), Action::Notify(Notice::StartsSoon));

    let action = schedule.step(&at(clock));
    assert_eq!(sleep_seconds(&action), 8 * 60);
    clock += 8 * MINUTE;
    assert_eq!(clock, NOW + 13 * MINUTE);
    assert_eq!(schedule.step(&at(clock)), Action::Notify(Notice::EndsSoon));
    assert_eq!(schedule.step(&at(clock)), Action::Notify(Notice::Complete));

    let successor = match schedule.step(&at(clock)) {
        Action::InsertSuccessor(task) => task,
        other => panic!("no successor: {:?}", other),
    };
    assert_eq!(successor.id, 0);
    assert_eq!(successor.start_time, at(NOW + 70 * MINUTE));
    assert_eq!(successor.end_time, at(NOW + 75 * MINUTE));
    assert_eq!(state.add_task(successor).unwrap().id, 2);
    assert_eq!(schedule.step(&at(clock)), Action::Finished);
    assert!(schedule.is_done());

    let file = state.complete_task(1).unwrap();
    assert_eq!(file.path, "tasks_done/standup/task_1.txt");
    assert_eq!(state.list_tasks_by_id(1), None);
    let next = state.list_tasks_by_id(2).unwrap();
    assert_eq!(next.title, "standup");
    assert_eq!(next.details, "daily");
    assert_eq!(next.start_time, at(NOW + 70 * MINUTE));
    assert_eq!(next.end_time, at(NOW + 75 * MINUTE));
    assert!(next.is_recurring);
    assert_eq!(next.frequency_minutes, Some(60));

    let mut again = ReminderSchedule::new(next);
    let action = again.step(&at(NOW + 15 * MINUTE));
    assert_eq!(sleep_seconds(&action), 50 * 60);
}

#[test]
fn overdue_recurring_task_is_finished_at_once() {
    let task = Task::new(
        "late".to_string(),
        "d".to_string(),
        at(NOW - 30 * MINUTE),
        at(NOW - 10 * MINUTE),
        true,
        Some(45),
    );
    let mut state = AppState::new("done".to_string());
    let id = state.add_task(task).unwrap().id;
    let stored = state.list_tasks_by_id(id).unwrap();
    assert!(completion_delay(&stored, &at(NOW)).is_zero());
    assert!(state.complete_task(id).is_some());
    assert_eq!(state.list_tasks_by_id(id), None);

    let mut schedule = ReminderSchedule::new(stored);
    assert_eq!(schedule.step(&at(NOW)), Action::Notify(Notice::Complete));
    match schedule.step(&at(NOW)) {
        Action::InsertSuccessor(next) => {
            assert_eq!(next.start_time, at(NOW + 15 * MINUTE));
            assert_eq!(next.end_time, at(NOW + 35 * MINUTE));
            assert_eq!(state.add_task(next).unwrap().id, 2);
        }
        other => panic!("no successor: {:?}", other),
    }
    assert_eq!(schedule.step(&at(NOW)), Action::Finished);
}

#[test]
fn task_that_ends_right_now_does_not_wait() {
    let task = Task::new("t".to_string(), "d".to_string(), at(NOW - 60), at(NOW), false, None);
    assert!(completion_delay(&task, &at(NOW)).is_zero());
    let ahead = completion_delay(&task, &Timestamp::new(NOW - 1, 999_999_999).unwrap());
    assert_eq!((ahead.secs(), ahead.nanos()), (0, 1));
}

#[test]
fn task_that_does_not_recur_leaves_no_successor() {
    let task = Task::new("once".to_string(), "d".to_string(), at(NOW - 60), at(NOW - 1), false, None);
    let mut schedule = ReminderSchedule::new(task);
    assert_eq!(schedule.step(&at(NOW)), Action::Notify(Notice::Complete));
    assert_eq!(schedule.step(&at(NOW)), Action::Finished);
    assert_eq!(schedule.phase, Phase::Done);
    assert_eq!(schedule.step(&at(NOW)), Action::Finished);
}

#[test]
fn overdue_start_reminder_is_passed_over() {
    let task =
        Task::new("soon".to_string(), "d".to_string(), at(NOW + 4 * MINUTE), at(NOW + 20 * MINUTE), false, None);
    let mut schedule = ReminderSchedule::new(task);
    let action = schedule.step(&at(NOW));
    assert_eq!(sleep_seconds(&action), 18 * 60);
    assert_eq!(schedule.phase, Phase::EndDue);
    assert_eq!(schedule.step(&at(NOW + 18 * MINUTE)), Action::Notify(Notice::EndsSoon));
}

#[test]
fn reminder_due_right_now_is_passed_over() {
    let task =
        Task::new("edge".to_string(), "d".to_string(), at(NOW + 5 * MINUTE), at(NOW + 7 * MINUTE), false, None);
    let mut schedule = ReminderSchedule::new(task);
    let action = schedule.step(&at(NOW));
    assert_eq!(sleep_seconds(&action), 5 * 60);
    assert_eq!(schedule.phase, Phase::EndDue);
}

#[test]
fn end_reminder_goes_by_the_clock_after_the_start_reminder() {
    let task =
        Task::new("t".to_string(), "d".to_string(), at(NOW + 10 * MINUTE), at(NOW + 15 * MINUTE), false, None);
    let mut schedule = ReminderSchedule::new(task);
    let _ = schedule.step(&at(NOW));
    let woke_late = at(NOW + 14 * MINUTE);
    assert_eq!(schedule.step(&woke_late), Action::Notify(Notice::StartsSoon));
    assert_eq!(schedule.step(&woke_late), Action::Notify(Notice::Complete));
}

#[test]
fn schedule_keeps_its_task() {
    let task = standup();
    let mut schedule = ReminderSchedule::new(task.clone());
    let _ = schedule.step(&at(NOW));
    let _ = schedule.step(&at(NOW));
    assert_eq!(schedule.task, task);
}

#[test]
fn notices_name_the_task() {
    assert_eq!(Notice::StartsSoon.message("standup"), "Reminder: 'standup' starts in 5 minutes!");
    assert_eq!(Notice::EndsSoon.message("standup"), "Reminder: 'standup' ends in 2 minutes!");
    assert_eq!(Notice::Complete.message("standup"), "Task 'standup' is complete");
    assert_eq!(Notice::Complete.message(""), "Task '' is complete");
}
