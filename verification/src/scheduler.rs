//! The reminders of one task, as a machine that is stepped by whoever owns
//! the clock: each step says what to do next, and the caller does it and
//! steps again.

use crate::task::{Task, TaskView};
use crate::time::{remaining, Delay, Timestamp, NANOS_PER_SECOND};
use vstd::prelude::*;
use vstd::string::*;

verus! {

/// The start reminder is due this many seconds before the task starts.
pub const START_LEAD_SECONDS: u32 = 300;

/// The end reminder is due this many seconds before the task ends.
pub const END_LEAD_SECONDS: u32 = 120;

/// Where a task's reminders stand.
#[derive(Clone, Copy, Debug, PartialEq, Eq, Structural)]
pub enum Phase {
    /// Nothing has happened yet.
    AwaitStart,
    /// The wait for the start reminder was handed out.
    StartDue,
    /// The start reminder is settled: emitted, or skipped as overdue.
    AwaitEnd,
    /// The wait for the end reminder was handed out.
    EndDue,
    /// Both reminders are settled.
    Completion,
    /// Completion was announced.
    Recurrence,
    /// Nothing is left to do.
    Done,
}

/// What a notification says.
#[derive(Clone, Copy, Debug, PartialEq, Eq, Structural)]
pub enum Notice {
    StartsSoon,
    EndsSoon,
    Complete,
}

/// What the caller does before it steps the machine again.
#[derive(Debug, PartialEq, Eq)]
pub enum Action {
    /// Suspend for this long. The span is never empty.
    Sleep(Delay),
    /// Emit this notification.
    Notify(Notice),
    /// Insert the successor into the store and start its own reminders.
    InsertSuccessor(Task),
    /// Stop: the machine is done.
    Finished,
}

/// An action as a mathematical value: a wait in nanoseconds, a successor
/// by its view.
pub ghost enum ActionView {
    Sleep(int),
    Notify(Notice),
    InsertSuccessor(TaskView),
    Finished,
}

impl View for Action {
    type V = ActionView;

    open spec fn view(&self) -> ActionView {
        match self {
            Action::Sleep(d) => ActionView::Sleep(d@),
            Action::Notify(n) => ActionView::Notify(*n),
            Action::InsertSuccessor(t) => ActionView::InsertSuccessor(t@),
            Action::Finished => ActionView::Finished,
        }
    }
}

/// The instant at which the start reminder of `task` is due.
pub open spec fn start_reminder_at(task: TaskView) -> int {
    task.start - START_LEAD_SECONDS * NANOS_PER_SECOND
}

/// The instant at which the end reminder of `task` is due.
pub open spec fn end_reminder_at(task: TaskView) -> int {
    task.end - END_LEAD_SECONDS * NANOS_PER_SECOND
}

/// The step taken once completion was announced: hand out the successor
/// if the task has one.
pub open spec fn advance_recurrence(task: TaskView) -> (Phase, ActionView) {
    match task.successor() {
        Some(next) => (Phase::Done, ActionView::InsertSuccessor(next)),
        None => (Phase::Done, ActionView::Finished),
    }
}

/// The step taken once the start reminder is settled: wait for the end
/// reminder if it is still ahead at `now`, else announce completion at once.
pub open spec fn advance_end(task: TaskView, now: int) -> (Phase, ActionView) {
    if end_reminder_at(task) > now {
        (Phase::EndDue, ActionView::Sleep(end_reminder_at(task) - now))
    } else {
        (Phase::Recurrence, ActionView::Notify(Notice::Complete))
    }
}

/// The first step: wait for the start reminder if it is still ahead at
/// `now`, else go on as if it were settled. A reminder that is overdue is
/// never emitted late.
pub open spec fn advance_start(task: TaskView, now: int) -> (Phase, ActionView) {
    if start_reminder_at(task) > now {
        (Phase::StartDue, ActionView::Sleep(start_reminder_at(task) - now))
    } else {
        advance_end(task, now)
    }
}

/// The phase that follows `phase` when the clock reads `now`, and what the
/// caller does to get there.
pub open spec fn advance(phase: Phase, task: TaskView, now: int) -> (Phase, ActionView) {
    match phase {
        Phase::AwaitStart => advance_start(task, now),
        Phase::StartDue => (Phase::AwaitEnd, ActionView::Notify(Notice::StartsSoon)),
        Phase::AwaitEnd => advance_end(task, now),
        Phase::EndDue => (Phase::Completion, ActionView::Notify(Notice::EndsSoon)),
        Phase::Completion => (Phase::Recurrence, ActionView::Notify(Notice::Complete)),
        Phase::Recurrence => advance_recurrence(task),
        Phase::Done => (Phase::Done, ActionView::Finished),
    }
}

/// How far a phase is from the beginning.
pub open spec fn rank(phase: Phase) -> nat {
    match phase {
        Phase::AwaitStart => 0,
        Phase::StartDue => 1,
        Phase::AwaitEnd => 2,
        Phase::EndDue => 3,
        Phase::Completion => 4,
        Phase::Recurrence => 5,
        Phase::Done => 6,
    }
}

/// The reminders of one task: the task as it was when they began, and how
/// far they have come.
#[derive(Debug, PartialEq, Eq)]
pub struct ReminderSchedule {
    pub task: Task,
    pub phase: Phase,
}

impl ReminderSchedule {
    /// The reminders of `task`, with nothing done yet.
    pub fn new(task: Task) -> (schedule: ReminderSchedule)
        ensures
            schedule.task == task,
            schedule.phase == Phase::AwaitStart,
    {
        ReminderSchedule { task, phase: Phase::AwaitStart }
    }

    /// Whether nothing is left to do.
    pub fn is_done(&self) -> (r: bool)
        ensures
            r == (self.phase == Phase::Done),
    {
        self.phase == Phase::Done
    }

    /// One step at the instant `now`: moves to the next phase and says what
    /// the caller does before the next step. A wait is handed out only for
    /// a reminder that is still ahead; one that is overdue is passed over
    /// in the same step.
    pub fn step(&mut self, now: &Timestamp) -> (action: Action)
        ensures
            final(self).task == old(self).task,
            (final(self).phase, action@) == advance(old(self).phase, old(self).task@, now@),
    {
        let mut phase = self.phase;
        if phase == Phase::AwaitStart {
            let delay = now.delay_until_lead(&self.task.start_time, START_LEAD_SECONDS);
            if !delay.is_zero() {
                self.phase = Phase::StartDue;
                return Action::Sleep(delay);
            }
            phase = Phase::AwaitEnd;
        }
        if phase == Phase::AwaitEnd {
            let delay = now.delay_until_lead(&self.task.end_time, END_LEAD_SECONDS);
            if !delay.is_zero() {
                self.phase = Phase::EndDue;
                return Action::Sleep(delay);
            }
            phase = Phase::Completion;
        }
        match phase {
            Phase::StartDue => {
                self.phase = Phase::AwaitEnd;
                Action::Notify(Notice::StartsSoon)
            },
            Phase::EndDue => {
                self.phase = Phase::Completion;
                Action::Notify(Notice::EndsSoon)
            },
            Phase::Completion => {
                self.phase = Phase::Recurrence;
                Action::Notify(Notice::Complete)
            },
            Phase::Recurrence => {
                self.phase = Phase::Done;
                match self.task.successor() {
                    Some(next) => Action::InsertSuccessor(next),
                    None => Action::Finished,
                }
            },
            _ => {
                self.phase = Phase::Done;
                Action::Finished
            },
        }
    }
}

/// How long the completion watcher of `task` waits at `now`: until the task
/// ends, and not at all if it has ended. When the wait is over the caller
/// completes the task in the store.
pub fn completion_delay(task: &Task, now: &Timestamp) -> (delay: Delay)
    ensures
        delay@ == remaining(now@, task@.end),
{
    now.delay_until(&task.end_time)
}

/// A wait that is handed out is never empty: it ends at a reminder that is
/// still ahead.
pub proof fn lemma_sleep_is_positive(phase: Phase, task: TaskView, now: int)
    ensures
        advance(phase, task, now).1 matches ActionView::Sleep(delay) ==> delay > 0 && (now + delay
            == start_reminder_at(task) || now + delay == end_reminder_at(task)),
{
}

/// Every step moves the machine on, until it is done: no task is stepped
/// more than six times.
pub proof fn lemma_step_advances(phase: Phase, task: TaskView, now: int)
    ensures
        phase != Phase::Done ==> rank(advance(phase, task, now).0) > rank(phase),
        phase == Phase::Done ==> advance(phase, task, now) == (Phase::Done, ActionView::Finished),
        advance(phase, task, now).1 is Finished ==> advance(phase, task, now).0 == Phase::Done,
{
}

/// A reminder is emitted only right after its wait: a reminder that was
/// overdue when its turn came is passed over, never emitted late.
pub proof fn lemma_no_late_reminder(phase: Phase, task: TaskView, now: int)
    ensures
        advance(phase, task, now).1 == ActionView::Notify(Notice::StartsSoon) ==> phase
            == Phase::StartDue,
        advance(phase, task, now).1 == ActionView::Notify(Notice::EndsSoon) ==> phase
            == Phase::EndDue,
        phase == Phase::AwaitStart && start_reminder_at(task) <= now ==> advance(phase, task, now)
            == advance_end(task, now),
{
}

/// What a caller sees that steps the machine from `phase` at `now` and
/// wakes from every wait exactly when it is over: the actions in their
/// order, up to the one that says that nothing is left.
pub open spec fn punctual_run(phase: Phase, task: TaskView, now: int) -> Seq<ActionView>
    decreases 6 - rank(phase),
{
    let (next, action) = advance(phase, task, now);
    if action is Finished {
        seq![action]
    } else {
        let woken = match action {
            ActionView::Sleep(delay) => now + delay,
            _ => now,
        };
        seq![action] + punctual_run(next, task, woken)
    }
}

/// The last steps of every run: the successor is handed out if there is
/// one, and then nothing is left.
pub open spec fn closing_actions(task: TaskView) -> Seq<ActionView> {
    match task.successor() {
        Some(next) => seq![ActionView::InsertSuccessor(next), ActionView::Finished],
        None => seq![ActionView::Finished],
    }
}

/// The whole life of the reminders of a task that is taken in before its
/// start reminder is due: a wait until five minutes before the start, the
/// start reminder, a wait until two minutes before the end, the end
/// reminder, the completion notice, and the successor if there is one.
pub proof fn lemma_run_of_a_task_ahead(task: TaskView, now: int)
    requires
        task.has_window(),
        now < start_reminder_at(task),
    ensures
        punctual_run(Phase::AwaitStart, task, now) == seq![
            ActionView::Sleep(start_reminder_at(task) - now),
            ActionView::Notify(Notice::StartsSoon),
            ActionView::Sleep(end_reminder_at(task) - start_reminder_at(task)),
            ActionView::Notify(Notice::EndsSoon),
            ActionView::Notify(Notice::Complete),
        ] + closing_actions(task),
{
    let at_start = start_reminder_at(task);
    let at_end = end_reminder_at(task);
    lemma_run_closes(task, at_end);
    assert(punctual_run(Phase::Completion, task, at_end) == seq![
        ActionView::Notify(Notice::Complete),
    ] + punctual_run(Phase::Recurrence, task, at_end));
    assert(punctual_run(Phase::EndDue, task, at_end) == seq![
        ActionView::Notify(Notice::EndsSoon),
    ] + punctual_run(Phase::Completion, task, at_end));
    assert(punctual_run(Phase::AwaitEnd, task, at_start) == seq![
        ActionView::Sleep(at_end - at_start),
    ] + punctual_run(Phase::EndDue, task, at_end));
    assert(punctual_run(Phase::StartDue, task, at_start) == seq![
        ActionView::Notify(Notice::StartsSoon),
    ] + punctual_run(Phase::AwaitEnd, task, at_start));
    assert(punctual_run(Phase::AwaitStart, task, now) == seq![
        ActionView::Sleep(at_start - now),
    ] + punctual_run(Phase::StartDue, task, at_start));
    assert(punctual_run(Phase::AwaitStart, task, now) =~= seq![
        ActionView::Sleep(start_reminder_at(task) - now),
        ActionView::Notify(Notice::StartsSoon),
        ActionView::Sleep(end_reminder_at(task) - start_reminder_at(task)),
        ActionView::Notify(Notice::EndsSoon),
        ActionView::Notify(Notice::Complete),
    ] + closing_actions(task));
}

proof fn lemma_run_closes(task: TaskView, now: int)
    ensures
        punctual_run(Phase::Recurrence, task, now) == closing_actions(task),
{
    assert(punctual_run(Phase::Done, task, now) == seq![ActionView::Finished]);
    match task.successor() {
        Some(next) => {
            assert(punctual_run(Phase::Recurrence, task, now) == seq![
                ActionView::InsertSuccessor(next),
            ] + punctual_run(Phase::Done, task, now));
            assert(punctual_run(Phase::Recurrence, task, now) =~= closing_actions(task));
        },
        None => {},
    }
}

/// A task whose end has passed is finished with at once: its completion
/// watcher does not wait, and its reminders announce completion in their
/// first step, without any wait or reminder, and then hand out the
/// successor if there is one.
pub proof fn lemma_overdue_task_completes_at_once(task: TaskView, now: int)
    requires
        task.has_window(),
        task.end <= now,
    ensures
        remaining(now, task.end) == 0,
        punctual_run(Phase::AwaitStart, task, now) == seq![
            ActionView::Notify(Notice::Complete),
        ] + closing_actions(task),
{
    lemma_run_closes(task, now);
    assert(punctual_run(Phase::AwaitStart, task, now) == seq![
        ActionView::Notify(Notice::Complete),
    ] + punctual_run(Phase::Recurrence, task, now));
}

/// The text of a notification about the task titled `title`.
pub open spec fn notice_text(notice: Notice, title: Seq<char>) -> Seq<char> {
    match notice {
        Notice::StartsSoon => "Reminder: '"@ + title + "' starts in 5 minutes!"@,
        Notice::EndsSoon => "Reminder: '"@ + title + "' ends in 2 minutes!"@,
        Notice::Complete => "Task '"@ + title + "' is complete"@,
    }
}

impl Notice {
    /// The text of this notification about the task titled `title`.
    pub fn message(&self, title: &str) -> (text: String)
        ensures
            text@ == notice_text(*self, title@),
    {
        match self {
            Notice::StartsSoon => {
                let mut text = String::from_str("Reminder: '");
                text.append(title);
                text.append("' starts in 5 minutes!");
                text
            },
            Notice::EndsSoon => {
                let mut text = String::from_str("Reminder: '");
                text.append(title);
                text.append("' ends in 2 minutes!");
                text
            },
            Notice::Complete => {
                let mut text = String::from_str("Task '");
                text.append(title);
                text.append("' is complete");
                text
            },
        }
    }
}

} // verus!
