//! The task store: every active task under the id that the store gave it.

use crate::error::TaskError;
use crate::export::{height_of, page_count, page_of, pdf_layout, pdf_text, PdfEntry};
use crate::record::{
    all_single_line, format_record, format_records, parse_records, read_records, record_text,
    records_text,
};
use crate::scheduler::{Phase, ReminderSchedule};
use crate::state::{lemma_table_of_holds, loadable, next_after, table_of, StoreState};
use crate::task::{views, Task, TaskUpdate, TaskView};
use crate::text::{decimal, push_decimal};
use dashmap::DashMap;
use vstd::prelude::*;
use vstd::string::*;

verus! {

/// The concurrent map of `dashmap`, opaque to the verifier.
#[verifier::external_type_specification]
#[verifier::external_body]
#[verifier::reject_recursive_types(K)]
#[verifier::reject_recursive_types(V)]
#[verifier::reject_recursive_types(S)]
pub struct ExDashMap<K, V, S>(DashMap<K, V, S>);

/// What a map of tasks holds: under each key the task stored there, as a
/// mathematical value.
pub uninterp spec fn dash_contents(table: DashMap<usize, Task>) -> Map<usize, TaskView>;

/// Calls `DashMap::new`. Trusted: the new table holds nothing.
#[verifier::external_body]
fn dash_new() -> (table: DashMap<usize, Task>)
    ensures
        dash_contents(table) == (Map::<usize, TaskView>::empty()),
{
    DashMap::new()
}

/// Calls `DashMap::insert`. Trusted: afterwards the table holds `task` under
/// `key` and is otherwise unchanged; the task that stood under `key` before,
/// if there was one, is handed back.
#[verifier::external_body]
fn dash_insert(table: &mut DashMap<usize, Task>, key: usize, task: Task) -> (previous: Option<Task>)
    ensures
        dash_contents(*final(table)) == dash_contents(*old(table)).insert(key, task@),
        previous is Some <==> dash_contents(*old(table)).contains_key(key),
        previous matches Some(p) ==> p@ == dash_contents(*old(table))[key],
{
    table.insert(key, task)
}

/// Calls `DashMap::remove`. Trusted: afterwards the table holds nothing under
/// `key` and is otherwise unchanged; the task that stood under `key` before,
/// if there was one, is handed back.
#[verifier::external_body]
fn dash_remove(table: &mut DashMap<usize, Task>, key: usize) -> (removed: Option<Task>)
    ensures
        dash_contents(*final(table)) == dash_contents(*old(table)).remove(key),
        removed is Some <==> dash_contents(*old(table)).contains_key(key),
        removed matches Some(t) ==> t@ == dash_contents(*old(table))[key],
{
    table.remove(&key).map(|entry| entry.1)
}

/// Calls `DashMap::get` and clones what it finds. Trusted: a copy of the
/// task that stands under `key`, if there is one.
#[verifier::external_body]
fn dash_get(table: &DashMap<usize, Task>, key: usize) -> (found: Option<Task>)
    ensures
        found is Some <==> dash_contents(*table).contains_key(key),
        found matches Some(t) ==> t@ == dash_contents(*table)[key],
{
    table.get(&key).map(|entry| entry.value().clone())
}

/// Calls `DashMap::iter` and copies the keys it walks over. Trusted: the
/// keys that come are those of the table. Nothing is claimed of the order.
#[verifier::external_body]
fn dash_keys(table: &DashMap<usize, Task>) -> (keys: Vec<usize>)
    ensures
        keys@.to_set() == dash_contents(*table).dom(),
{
    table.iter().map(|entry| *entry.key()).collect()
}

/// Whether `ids` is in strictly increasing order.
spec fn increasing(ids: Seq<usize>) -> bool {
    forall|a: int, b: int| 0 <= a < b < ids.len() ==> ids[a] < ids[b]
}

proof fn lemma_insert_to_set(ids: Seq<usize>, at: int, id: usize)
    requires
        0 <= at <= ids.len(),
    ensures
        ids.insert(at, id).to_set() == ids.to_set().insert(id),
{
    let longer = ids.insert(at, id);
    assert forall|v: usize| longer.to_set().contains(v) <==> ids.to_set().insert(id).contains(
        v,
    ) by {
        if longer.contains(v) {
            let i = choose|i: int| 0 <= i < longer.len() && longer[i] == v;
            if i != at {
                let i0 = if i < at { i } else { i - 1 };
                assert(ids[i0] == v);
            }
        }
        if ids.contains(v) {
            let i = choose|i: int| 0 <= i < ids.len() && ids[i] == v;
            let i1 = if i < at { i } else { i + 1 };
            assert(longer[i1] == v);
        }
        if v == id {
            assert(longer[at] == v);
        }
    }
    assert(longer.to_set() =~= ids.to_set().insert(id));
}

/// The ids of `ids`, each once, in increasing order.
fn sort_ids(ids: &Vec<usize>) -> (sorted: Vec<usize>)
    ensures
        increasing(sorted@),
        sorted@.to_set() == ids@.to_set(),
{
    let mut sorted: Vec<usize> = Vec::new();
    let mut n: usize = 0;
    assert(sorted@.to_set() =~= ids@.take(0).to_set());
    while n < ids.len()
        invariant
            n <= ids.len(),
            increasing(sorted@),
            sorted@.to_set() == ids@.take(n as int).to_set(),
        decreases ids.len() - n,
    {
        let id = ids[n];
        let mut at: usize = 0;
        while at < sorted.len() && sorted[at] < id
            invariant
                at <= sorted.len(),
                increasing(sorted@),
                forall|a: int| 0 <= a < at ==> sorted[a] < id,
            decreases sorted.len() - at,
        {
            at += 1;
        }
        proof {
            assert(ids@.take(n + 1) =~= ids@.take(n as int).push(id));
            ids@.take(n as int).lemma_push_to_set_commute(id);
        }
        if at < sorted.len() && sorted[at] == id {
            assert(sorted@.contains(id));
            assert(sorted@.to_set().insert(id) =~= sorted@.to_set());
        } else {
            let ghost before = sorted@;
            sorted.insert(at, id);
            proof {
                lemma_insert_to_set(before, at as int, id);
                assert forall|a: int, b: int| 0 <= a < b < sorted.len() implies sorted[a]
                    < sorted[b] by {
                    let a0 = if a < at { a } else { a - 1 };
                    let b0 = if b < at { b } else { b - 1 };
                    if a != at && b != at {
                        assert(before[a0] < before[b0]);
                    } else if a == at {
                        assert(before[at as int] <= before[b0]);
                    }
                }
            }
        }
        n += 1;
    }
    assert(ids@.take(n as int) =~= ids@);
    sorted
}

/// A file of the archive: where it goes and what it holds.
#[derive(Debug, PartialEq, Eq)]
pub struct ArchiveFile {
    /// The directory of the file, one for each title.
    pub directory: String,
    /// The file itself.
    pub path: String,
    /// The record of the task.
    pub contents: String,
}

/// What the store hands back for a task that it took: what the caller does
/// to bring the task to life.
#[derive(Debug, PartialEq, Eq)]
pub struct Added {
    /// The id that the task got.
    pub id: usize,
    /// The first archive file of the task, for the caller to write.
    pub archive: ArchiveFile,
    /// The reminders of the task as it stands in the store, with nothing
    /// done yet, for the caller to run. The task in them says when the
    /// completion watcher is due.
    pub reminders: ReminderSchedule,
}

/// The directory in which the archive under `folder` keeps `task`.
pub open spec fn archive_directory(folder: Seq<char>, task: TaskView) -> Seq<char> {
    folder + "/"@ + task.title
}

/// The file in which the archive under `folder` keeps `task`.
pub open spec fn archive_path(folder: Seq<char>, task: TaskView) -> Seq<char> {
    archive_directory(folder, task) + "/task_"@ + decimal(task.id) + ".txt"@
}

/// The task store. It owns the counter from which ids come: an id is handed
/// out by `add_task` and by nothing else.
pub struct AppState {
    tasks: DashMap<usize, Task>,
    next_id: usize,
    done_folder: String,
}

impl View for AppState {
    type V = StoreState;

    closed spec fn view(&self) -> StoreState {
        StoreState { tasks: dash_contents(self.tasks), next_id: self.next_id as nat }
    }
}

impl AppState {
    /// The folder under which the archive lies.
    pub closed spec fn folder(&self) -> Seq<char> {
        self.done_folder@
    }

    /// What holds of every store that `new` made, whatever was done to it.
    pub open spec fn wf(&self) -> bool {
        self@.wf()
    }

    /// An empty store whose archive lies under `done_folder`.
    pub fn new(done_folder: String) -> (state: AppState)
        ensures
            state.wf(),
            state@ == StoreState::empty(),
            state.folder() == done_folder@,
    {
        AppState { tasks: dash_new(), next_id: 1, done_folder }
    }

    /// The folder under which the archive lies.
    pub fn done_folder(&self) -> (folder: &str)
        ensures
            folder@ == self.folder(),
    {
        self.done_folder.as_str()
    }

    /// Takes `task` into the store under the next id. The id that `task`
    /// came with is ignored. Hands back the id, the first archive file of
    /// the task and its reminders. Fails only when every id has been handed
    /// out, and then leaves the store as it was.
    pub fn add_task(&mut self, task: Task) -> (r: Result<Added, TaskError>)
        requires
            old(self).wf(),
        ensures
            final(self).wf(),
            final(self).folder() == old(self).folder(),
            match r {
                Ok(added) => {
                    &&& old(self)@.has_room()
                    &&& added.id == old(self)@.next_id
                    &&& final(self)@ == old(self)@.add(task@)
                    &&& added.archive.directory@ == archive_directory(
                        final(self).folder(),
                        task@.with_id(added.id as nat),
                    )
                    &&& added.archive.path@ == archive_path(
                        final(self).folder(),
                        task@.with_id(added.id as nat),
                    )
                    &&& added.archive.contents@ == record_text(task@.with_id(added.id as nat))
                    &&& added.reminders.task@ == task@.with_id(added.id as nat)
                    &&& added.reminders.phase == Phase::AwaitStart
                },
                Err(TaskError::IdsExhausted) => !old(self)@.has_room() && final(self)@ == old(
                    self,
                )@,
                Err(_) => false,
            },
    {
        if self.next_id == usize::MAX {
            return Err(TaskError::IdsExhausted);
        }
        let id = self.next_id;
        let mut task = task;
        task.id = id;
        proof {
            use_type_invariant(&task.start_time);
            use_type_invariant(&task.end_time);
            task.lemma_in_bounds();
        }
        let archive = self.save_task_to_file(&task);
        let reminders = ReminderSchedule::new(task.clone());
        self.next_id = id + 1;
        dash_insert(&mut self.tasks, id, task);
        Ok(Added { id, archive, reminders })
    }

    /// The archive file of `task`: its directory is named by the title, the
    /// file by the id, and it holds the record of the task. Nothing is
    /// written here; the caller writes the file.
    pub fn save_task_to_file(&self, task: &Task) -> (file: ArchiveFile)
        ensures
            file.directory@ == archive_directory(self.folder(), task@),
            file.path@ == archive_path(self.folder(), task@),
            file.contents@ == record_text(task@),
    {
        let mut directory = self.done_folder.clone();
        directory.append("/");
        directory.append(task.title.as_str());
        let path = self.archive_path_of(task);
        ArchiveFile { directory, path, contents: format_record(task) }
    }

    /// The archive file of `task`, by name.
    fn archive_path_of(&self, task: &Task) -> (path: String)
        ensures
            path@ == archive_path(self.folder(), task@),
    {
        let mut path = self.done_folder.clone();
        path.append("/");
        path.append(task.title.as_str());
        path.append("/task_");
        push_decimal(&mut path, task.id as u64);
        path.append(".txt");
        path
    }

    /// Applies `update` to the task `id` and hands back its archive file as
    /// it now is, for the caller to write. Fails with `NotFound` if the
    /// store holds no such task, and then leaves the store as it was.
    pub fn edit_task(&mut self, id: usize, update: TaskUpdate) -> (r: Result<ArchiveFile, TaskError>)
        requires
            old(self).wf(),
        ensures
            final(self).wf(),
            final(self).folder() == old(self).folder(),
            match r {
                Ok(file) => {
                    &&& old(self)@.tasks.contains_key(id)
                    &&& final(self)@ == old(self)@.edit(id, update@)
                    &&& file.directory@ == archive_directory(
                        final(self).folder(),
                        final(self)@.tasks[id],
                    )
                    &&& file.path@ == archive_path(final(self).folder(), final(self)@.tasks[id])
                    &&& file.contents@ == record_text(final(self)@.tasks[id])
                },
                Err(TaskError::NotFound(missing)) => {
                    &&& missing == id
                    &&& !old(self)@.tasks.contains_key(id)
                    &&& final(self)@ == old(self)@
                },
                Err(_) => false,
            },
    {
        match dash_get(&self.tasks, id) {
            Some(task) => {
                let mut task = task;
                task.apply(update);
                proof {
                    use_type_invariant(&task.start_time);
                    use_type_invariant(&task.end_time);
                    task.lemma_in_bounds();
                }
                let file = self.save_task_to_file(&task);
                dash_insert(&mut self.tasks, id, task);
                Ok(file)
            },
            None => Err(TaskError::NotFound(id)),
        }
    }

    /// Removes the task `id` and hands back the name of its archive file,
    /// for the caller to remove. Fails with `NotFound` if the store holds
    /// no such task, and then leaves the store as it was.
    pub fn delete_task(&mut self, id: usize) -> (r: Result<String, TaskError>)
        requires
            old(self).wf(),
        ensures
            final(self).wf(),
            final(self).folder() == old(self).folder(),
            match r {
                Ok(path) => {
                    &&& old(self)@.tasks.contains_key(id)
                    &&& final(self)@ == old(self)@.remove(id)
                    &&& path@ == archive_path(old(self).folder(), old(self)@.tasks[id])
                },
                Err(TaskError::NotFound(missing)) => {
                    &&& missing == id
                    &&& !old(self)@.tasks.contains_key(id)
                    &&& final(self)@ == old(self)@
                },
                Err(_) => false,
            },
    {
        match dash_remove(&mut self.tasks, id) {
            Some(task) => Ok(self.archive_path_of(&task)),
            None => {
                assert(self@.tasks =~= old(self)@.tasks);
                Err(TaskError::NotFound(id))
            },
        }
    }

    /// Ends the task `id` when its time is up: removes it and hands back
    /// its archive file as it last was, for the caller to write. If the
    /// task is gone already, nothing happens and nothing is handed back.
    pub fn complete_task(&mut self, id: usize) -> (r: Option<ArchiveFile>)
        requires
            old(self).wf(),
        ensures
            final(self).wf(),
            final(self).folder() == old(self).folder(),
            match r {
                Some(file) => {
                    &&& old(self)@.tasks.contains_key(id)
                    &&& final(self)@ == old(self)@.remove(id)
                    &&& file.directory@ == archive_directory(
                        old(self).folder(),
                        old(self)@.tasks[id],
                    )
                    &&& file.path@ == archive_path(old(self).folder(), old(self)@.tasks[id])
                    &&& file.contents@ == record_text(old(self)@.tasks[id])
                },
                None => !old(self)@.tasks.contains_key(id) && final(self)@ == old(self)@,
            },
    {
        match dash_remove(&mut self.tasks, id) {
            Some(task) => Some(self.save_task_to_file(&task)),
            None => {
                assert(self@.tasks =~= old(self)@.tasks);
                None
            },
        }
    }

    /// A copy of every task, in increasing order of id.
    pub fn snapshot(&self) -> (tasks: Vec<Task>)
        requires
            self.wf(),
        ensures
            views(tasks@) == self@.listing(),
    {
        let keys = dash_keys(&self.tasks);
        let ids = sort_ids(&keys);
        let ghost contents = self@.tasks;
        let mut tasks: Vec<Task> = Vec::new();
        let mut n: usize = 0;
        while n < ids.len()
            invariant
                n <= ids.len(),
                contents == self@.tasks,
                ids@.to_set() == contents.dom(),
                tasks.len() == n,
                forall|j: int| 0 <= j < n ==> (#[trigger] tasks[j])@ == contents[ids[j]],
            decreases ids.len() - n,
        {
            assert(ids@.contains(ids[n as int]));
            assert(contents.dom().contains(ids[n as int]));
            match dash_get(&self.tasks, ids[n]) {
                Some(task) => {
                    tasks.push(task);
                },
                None => {},
            }
            n += 1;
        }
        proof {
            let list = views(tasks@);
            assert forall|j: int| 0 <= j < list.len() implies {
                &&& (#[trigger] list[j]).id < self@.next_id
                &&& contents.contains_key(list[j].id as usize)
                &&& contents[list[j].id as usize] == list[j]
            } by {
                assert(ids@.contains(ids[j]));
                assert(contents.contains_key(ids[j]));
            }
            assert forall|a: int, b: int| 0 <= a < b < list.len() implies (#[trigger] list[a]).id
                < (#[trigger] list[b]).id by {
                assert(ids@.contains(ids[a]));
                assert(ids@.contains(ids[b]));
                assert(contents.contains_key(ids[a]));
                assert(contents.contains_key(ids[b]));
                assert(ids[a] < ids[b]);
            }
            assert forall|id: usize|
                id < self@.next_id && #[trigger] contents.contains_key(id) implies exists|j: int|
                0 <= j < list.len() && (#[trigger] list[j]).id == id by {
                assert(ids@.to_set().contains(id));
                let j = choose|j: int| 0 <= j < ids.len() && ids[j] == id;
                assert(list[j].id == id);
            }
            self@.lemma_listing_unique(list, self@.next_id);
        }
        tasks
    }

    /// A copy of every task titled `title`, in increasing order of id.
    pub fn list_tasks_by_title(&self, title: &str) -> (tasks: Vec<Task>)
        requires
            self.wf(),
        ensures
            views(tasks@) == self@.listing().filter(|task: TaskView| task.title == title@),
    {
        let all = self.snapshot();
        let wanted = title.to_owned();
        let ghost titled = |task: TaskView| task.title == title@;
        let mut tasks: Vec<Task> = Vec::new();
        let mut n: usize = 0;
        proof {
            reveal(Seq::filter);
            assert(views(all@.take(0)) =~= Seq::<TaskView>::empty());
            assert(views(tasks@) =~= Seq::<TaskView>::empty());
        }
        while n < all.len()
            invariant
                n <= all.len(),
                wanted@ == title@,
                titled == |task: TaskView| task.title == title@,
                views(tasks@) == views(all@.take(n as int)).filter(titled),
            decreases all.len() - n,
        {
            proof {
                reveal(Seq::filter);
                let seen = views(all@.take(n as int));
                let more = views(all@.take(n + 1));
                assert(more.drop_last() =~= seen);
                assert(more.last() == all[n as int]@);
            }
            if all[n].title == wanted {
                let ghost before = views(tasks@);
                tasks.push(all[n].clone());
                assert(views(tasks@) =~= before.push(all[n as int]@));
            }
            n += 1;
        }
        assert(all@.take(n as int) =~= all@);
        tasks
    }

    /// The records of all tasks, in increasing order of id: what a file of
    /// the store holds. They are read back as the same tasks if all titles
    /// and details are single lines.
    pub fn save_to_file(&self) -> (text: String)
        requires
            self.wf(),
        ensures
            text@ == records_text(self@.listing()),
            all_single_line(self@.listing()) ==> parse_records(text@) == Some(self@.listing()),
    {
        let tasks = self.snapshot();
        format_records(&tasks)
    }

    /// The printed list of all tasks, in increasing order of id: each text
    /// with its page and height, and the number of pages.
    pub fn export_to_pdf(&self) -> (r: (Vec<PdfEntry>, usize))
        requires
            self.wf(),
        ensures
            r.0.len() == self@.listing().len(),
            forall|i: int|
                0 <= i < r.0.len() ==> {
                    &&& (#[trigger] r.0[i]).page == page_of(i as nat)
                    &&& r.0[i].y_mm == height_of(i as nat)
                    &&& r.0[i].text@ == pdf_text(self@.listing()[i])
                },
            r.1 == page_count(self@.listing().len()),
    {
        let tasks = self.snapshot();
        pdf_layout(&tasks)
    }

    /// Replaces what the store holds by the tasks that `text` records. The
    /// next id becomes greater than every id that was loaded and is never
    /// lowered. Fails with `Serialization` if `text` is not a sequence of
    /// records, or if an id in it is 0, is the greatest machine integer, or
    /// comes twice; the store is then left as it was.
    pub fn load_from_file(&mut self, text: &str) -> (r: Result<(), TaskError>)
        requires
            old(self).wf(),
        ensures
            final(self).wf(),
            final(self).folder() == old(self).folder(),
            match r {
                Ok(_) => {
                    &&& parse_records(text@) matches Some(entries)
                    &&& loadable(entries)
                    &&& final(self)@ == old(self)@.load(entries)
                },
                Err(TaskError::Serialization) => {
                    &&& parse_records(text@) matches Some(entries) ==> !loadable(entries)
                    &&& final(self)@ == old(self)@
                },
                Err(_) => false,
            },
    {
        let tasks = match read_records(text) {
            Ok(tasks) => tasks,
            Err(e) => { return Err(e); },
        };
        let ghost entries = views(tasks@);
        let mut table = dash_new();
        let mut next_id = self.next_id;
        let mut n: usize = 0;
        assert(views(tasks@.take(0)) =~= Seq::<TaskView>::empty());
        while n < tasks.len()
            invariant
                n <= tasks.len(),
                *self == *old(self),
                old(self).wf(),
                entries == views(tasks@),
                parse_records(text@) == Some(entries),
                loadable(views(tasks@.take(n as int))),
                dash_contents(table) == table_of(views(tasks@.take(n as int))),
                next_id == next_after(views(tasks@.take(n as int)), old(self)@.next_id),
                (StoreState { tasks: dash_contents(table), next_id: next_id as nat }).wf(),
                forall|key: usize| #[trigger]
                    dash_contents(table).contains_key(key) ==> exists|j: int|
                        0 <= j < n && (#[trigger] tasks[j]).id == key,
            decreases tasks.len() - n,
        {
            let task = tasks[n].clone();
            let id = task.id;
            let ghost seen = views(tasks@.take(n as int));
            let ghost more = views(tasks@.take(n + 1));
            let ghost before = dash_contents(table);
            proof {
                assert(more.drop_last() =~= seen);
                assert(more.last() == task@);
                assert(entries[n as int] == task@);
                use_type_invariant(&task.start_time);
                use_type_invariant(&task.end_time);
                task.lemma_in_bounds();
            }
            if id == 0 || id == usize::MAX {
                return Err(TaskError::Serialization);
            }
            if dash_insert(&mut table, id, task).is_some() {
                proof {
                    let j = choose|j: int| 0 <= j < n && (#[trigger] tasks[j]).id == id;
                    assert(entries[j].id == entries[n as int].id);
                }
                return Err(TaskError::Serialization);
            }
            if id >= next_id {
                next_id = id + 1;
            }
            proof {
                assert forall|i: int, j: int| 0 <= i < j < more.len() implies (#[trigger] more[i]).id
                    != (#[trigger] more[j]).id by {
                    if j == n {
                        assert(more[i] == seen[i]);
                        lemma_table_of_holds(seen, i);
                    } else {
                        assert(more[i] == seen[i] && more[j] == seen[j]);
                    }
                }
                assert forall|i: int| 0 <= i < more.len() implies 1 <= (#[trigger] more[i]).id
                    < usize::MAX by {
                    if i < n {
                        assert(more[i] == seen[i]);
                    }
                }
                assert forall|key: usize| #[trigger]
                    dash_contents(table).contains_key(key) implies exists|j: int|
                    0 <= j < n + 1 && (#[trigger] tasks[j]).id == key by {
                    if key == id {
                        assert(tasks[n as int].id == key);
                    } else {
                        assert(before.contains_key(key));
                        let j = choose|j: int| 0 <= j < n && (#[trigger] tasks[j]).id == key;
                        assert(tasks[j].id == key);
                    }
                }
            }
            n += 1;
        }
        assert(tasks@.take(n as int) =~= tasks@);
        self.tasks = table;
        self.next_id = next_id;
        Ok(())
    }

    /// A copy of the task `id`, if the store holds it.
    pub fn list_tasks_by_id(&self, id: usize) -> (r: Option<Task>)
        ensures
            r is Some <==> self@.tasks.contains_key(id),
            r matches Some(task) ==> task@ == self@.tasks[id],
    {
        dash_get(&self.tasks, id)
    }
}

} // verus!
