//! A task, the partial update that edits one, and the rules of its times.

use crate::error::TaskError;
use crate::time::{representable, Timestamp, NANOS_PER_MINUTE};
use vstd::prelude::*;

verus! {

/// One occurrence of a task. An `id` of 0 means that no store has taken the
/// task yet.
#[derive(Debug, PartialEq, Eq)]
pub struct Task {
    pub id: usize,
    pub title: String,
    pub details: String,
    pub start_time: Timestamp,
    pub end_time: Timestamp,
    pub is_recurring: bool,
    pub frequency_minutes: Option<i64>,
}

/// A task as a mathematical value: texts as sequences of characters, times
/// as nanoseconds since the epoch.
pub ghost struct TaskView {
    pub id: nat,
    pub title: Seq<char>,
    pub details: Seq<char>,
    pub start: int,
    pub end: int,
    pub is_recurring: bool,
    pub frequency: Option<int>,
}

impl View for Task {
    type V = TaskView;

    open spec fn view(&self) -> TaskView {
        TaskView {
            id: self.id as nat,
            title: self.title@,
            details: self.details@,
            start: self.start_time@,
            end: self.end_time@,
            is_recurring: self.is_recurring,
            frequency: match self.frequency_minutes {
                Some(f) => Some(f as int),
                None => None,
            },
        }
    }
}

/// The tasks of `tasks` as mathematical values, in the same order.
pub open spec fn views(tasks: Seq<Task>) -> Seq<TaskView> {
    tasks.map_values(|task: Task| task@)
}

impl TaskView {
    /// Both times can be written, and the frequency fits a machine integer.
    pub open spec fn in_bounds(self) -> bool {
        &&& self.id <= usize::MAX
        &&& representable(self.start)
        &&& representable(self.end)
        &&& self.frequency matches Some(f) ==> i64::MIN <= f <= i64::MAX
    }

    /// The window is not empty: the task ends after it starts.
    pub open spec fn has_window(self) -> bool {
        self.start < self.end
    }

    /// The same task under another id.
    pub open spec fn with_id(self, id: nat) -> TaskView {
        TaskView { id, ..self }
    }

    /// The occurrence that follows this one: the same task without an id,
    /// its window moved by the frequency. There is none unless the task
    /// recurs with a frequency, nor where the moved window would leave the
    /// years 0 to 9999.
    pub open spec fn successor(self) -> Option<TaskView> {
        match self.frequency {
            Some(f) if self.is_recurring && representable(self.start + f * NANOS_PER_MINUTE)
                && representable(self.end + f * NANOS_PER_MINUTE) => Some(
                TaskView {
                    id: 0,
                    title: self.title,
                    details: self.details,
                    start: self.start + f * NANOS_PER_MINUTE,
                    end: self.end + f * NANOS_PER_MINUTE,
                    is_recurring: true,
                    frequency: Some(f),
                },
            ),
            _ => None,
        }
    }
}

/// What an edit sets: each field that is `Some` replaces the task's value,
/// each that is `None` leaves it alone. The frequency cannot be cleared.
#[derive(Debug, PartialEq, Eq)]
pub struct TaskUpdate {
    pub title: Option<String>,
    pub details: Option<String>,
    pub start_time: Option<Timestamp>,
    pub end_time: Option<Timestamp>,
    pub is_recurring: Option<bool>,
    pub frequency_minutes: Option<i64>,
}

/// An update as a mathematical value.
pub ghost struct TaskUpdateView {
    pub title: Option<Seq<char>>,
    pub details: Option<Seq<char>>,
    pub start: Option<int>,
    pub end: Option<int>,
    pub is_recurring: Option<bool>,
    pub frequency: Option<int>,
}

impl View for TaskUpdate {
    type V = TaskUpdateView;

    open spec fn view(&self) -> TaskUpdateView {
        TaskUpdateView {
            title: match self.title {
                Some(t) => Some(t@),
                None => None,
            },
            details: match self.details {
                Some(d) => Some(d@),
                None => None,
            },
            start: match self.start_time {
                Some(t) => Some(t@),
                None => None,
            },
            end: match self.end_time {
                Some(t) => Some(t@),
                None => None,
            },
            is_recurring: self.is_recurring,
            frequency: match self.frequency_minutes {
                Some(f) => Some(f as int),
                None => None,
            },
        }
    }
}

impl TaskUpdateView {
    /// The times that the update gives can be written, and its frequency
    /// fits a machine integer.
    pub open spec fn in_bounds(self) -> bool {
        &&& self.start matches Some(start) ==> representable(start)
        &&& self.end matches Some(end) ==> representable(end)
        &&& self.frequency matches Some(f) ==> i64::MIN <= f <= i64::MAX
    }

    /// The update that sets nothing.
    pub open spec fn is_empty(self) -> bool {
        &&& self.title is None
        &&& self.details is None
        &&& self.start is None
        &&& self.end is None
        &&& self.is_recurring is None
        &&& self.frequency is None
    }
}

/// What an update makes of one field: `given` where it gives a value, else
/// `kept`.
pub open spec fn set_or_keep<T>(kept: T, given: Option<T>) -> T {
    match given {
        Some(value) => value,
        None => kept,
    }
}

impl TaskView {
    /// The task after `update`: field by field the update's value where it
    /// has one, else the task's own. The id never changes, and no rule on
    /// the times is enforced.
    pub open spec fn updated(self, update: TaskUpdateView) -> TaskView {
        TaskView {
            id: self.id,
            title: set_or_keep(self.title, update.title),
            details: set_or_keep(self.details, update.details),
            start: set_or_keep(self.start, update.start),
            end: set_or_keep(self.end, update.end),
            is_recurring: set_or_keep(self.is_recurring, update.is_recurring),
            frequency: match update.frequency {
                Some(f) => Some(f),
                None => self.frequency,
            },
        }
    }

    /// An edit changes the fields that the update gives and no other: a
    /// field that the update leaves out is what it was, one that it gives
    /// is what it gives, and the id stays whatever the update holds.
    pub proof fn lemma_update_changes_only_given(self, update: TaskUpdateView)
        ensures
            self.updated(update).id == self.id,
            self.updated(update).title == (match update.title {
                Some(title) => title,
                None => self.title,
            }),
            self.updated(update).details == (match update.details {
                Some(details) => details,
                None => self.details,
            }),
            self.updated(update).start == (match update.start {
                Some(start) => start,
                None => self.start,
            }),
            self.updated(update).end == (match update.end {
                Some(end) => end,
                None => self.end,
            }),
            self.updated(update).is_recurring == (match update.is_recurring {
                Some(is_recurring) => is_recurring,
                None => self.is_recurring,
            }),
            self.updated(update).frequency == (match update.frequency {
                Some(frequency) => Some(frequency),
                None => self.frequency,
            }),
            update.is_empty() ==> self.updated(update) == self,
    {
    }

    /// The successor of a task is the task itself, moved by exactly its
    /// frequency: the same title and details, no id, and a window that
    /// starts and ends that many minutes later. A task has a successor only
    /// if it recurs and has a frequency.
    pub proof fn lemma_successor_is_shifted(self)
        ensures
            self.successor() matches Some(next) ==> {
                &&& self.is_recurring
                &&& self.frequency matches Some(minutes)
                &&& next.start == self.start + minutes * NANOS_PER_MINUTE
                &&& next.end == self.end + minutes * NANOS_PER_MINUTE
                &&& next.end - next.start == self.end - self.start
                &&& next.id == 0
                &&& next.title == self.title
                &&& next.details == self.details
                &&& next.is_recurring
                &&& next.frequency == self.frequency
            },
            self.successor() is None <==> {
                ||| !self.is_recurring
                ||| self.frequency is None
                ||| !representable(self.start + self.frequency->0 * NANOS_PER_MINUTE)
                ||| !representable(self.end + self.frequency->0 * NANOS_PER_MINUTE)
            },
    {
    }
}

impl Clone for Task {
    fn clone(&self) -> (r: Task)
        ensures
            r == *self,
    {
        Task {
            id: self.id,
            title: self.title.clone(),
            details: self.details.clone(),
            start_time: self.start_time,
            end_time: self.end_time,
            is_recurring: self.is_recurring,
            frequency_minutes: self.frequency_minutes,
        }
    }
}

/// What `create` says of a start that is not ahead.
pub open spec fn start_not_future_message() -> Seq<char> {
    "Start time must be in the future."@
}

/// What `create` says of an end that is not after the start.
pub open spec fn end_not_after_start_message() -> Seq<char> {
    "End time must be after the start time."@
}

impl Task {
    /// A task that no store has taken yet. Nothing is checked.
    pub fn new(
        title: String,
        details: String,
        start_time: Timestamp,
        end_time: Timestamp,
        is_recurring: bool,
        frequency_minutes: Option<i64>,
    ) -> (task: Task)
        ensures
            task.id == 0,
            task.title == title,
            task.details == details,
            task.start_time == start_time,
            task.end_time == end_time,
            task.is_recurring == is_recurring,
            task.frequency_minutes == frequency_minutes,
    {
        Task { id: 0, title, details, start_time, end_time, is_recurring, frequency_minutes }
    }

    /// A new task whose times are checked against the clock: it must start
    /// strictly after `now` and end strictly after it starts. The start is
    /// checked first.
    pub fn create(
        title: String,
        details: String,
        start_time: Timestamp,
        end_time: Timestamp,
        is_recurring: bool,
        frequency_minutes: Option<i64>,
        now: &Timestamp,
    ) -> (r: Result<Task, TaskError>)
        ensures
            match r {
                Ok(task) => {
                    &&& now@ < start_time@ < end_time@
                    &&& task.id == 0
                    &&& task.title == title
                    &&& task.details == details
                    &&& task.start_time == start_time
                    &&& task.end_time == end_time
                    &&& task.is_recurring == is_recurring
                    &&& task.frequency_minutes == frequency_minutes
                },
                Err(TaskError::InvalidTime(m)) => if start_time@ <= now@ {
                    m@ == start_not_future_message()
                } else {
                    end_time@ <= start_time@ && m@ == end_not_after_start_message()
                },
                Err(_) => false,
            },
    {
        if !now.is_before(&start_time) {
            Err(TaskError::InvalidTime("Start time must be in the future.".to_owned()))
        } else if !start_time.is_before(&end_time) {
            Err(TaskError::InvalidTime("End time must be after the start time.".to_owned()))
        } else {
            Ok(Task::new(title, details, start_time, end_time, is_recurring, frequency_minutes))
        }
    }

    /// Every task is within the bounds that its view is held to.
    pub proof fn lemma_in_bounds(self)
        requires
            self.start_time.is_valid(),
            self.end_time.is_valid(),
        ensures
            self@.in_bounds(),
    {
        self.start_time.lemma_view_parts();
        self.end_time.lemma_view_parts();
    }

    /// Edits the task in place: sets the fields that `update` gives and no
    /// other.
    pub fn apply(&mut self, update: TaskUpdate)
        ensures
            final(self)@ == old(self)@.updated(update@),
            final(self).id == old(self).id,
            update.title is None ==> final(self).title == old(self).title,
            update.details is None ==> final(self).details == old(self).details,
            update.start_time is None ==> final(self).start_time == old(self).start_time,
            update.end_time is None ==> final(self).end_time == old(self).end_time,
            update.is_recurring is None ==> final(self).is_recurring == old(self).is_recurring,
            update.frequency_minutes is None ==> final(self).frequency_minutes == old(
                self,
            ).frequency_minutes,
    {
        if let Some(title) = update.title {
            self.title = title;
        }
        if let Some(details) = update.details {
            self.details = details;
        }
        if let Some(start_time) = update.start_time {
            self.start_time = start_time;
        }
        if let Some(end_time) = update.end_time {
            self.end_time = end_time;
        }
        if let Some(is_recurring) = update.is_recurring {
            self.is_recurring = is_recurring;
        }
        if let Some(frequency_minutes) = update.frequency_minutes {
            self.frequency_minutes = Some(frequency_minutes);
        }
    }

    /// The occurrence that follows this one, if the task recurs.
    pub fn successor(&self) -> (r: Option<Task>)
        ensures
            r is Some <==> self@.successor() is Some,
            r matches Some(next) ==> Some(next@) == self@.successor(),
    {
        if !self.is_recurring {
            return None;
        }
        match self.frequency_minutes {
            Some(frequency) => {
                let start = self.start_time.checked_add_minutes(frequency);
                let end = self.end_time.checked_add_minutes(frequency);
                match (start, end) {
                    (Some(start_time), Some(end_time)) => Some(
                        Task {
                            id: 0,
                            title: self.title.clone(),
                            details: self.details.clone(),
                            start_time,
                            end_time,
                            is_recurring: true,
                            frequency_minutes: Some(frequency),
                        },
                    ),
                    _ => None,
                }
            },
            None => None,
        }
    }
}

} // verus!
