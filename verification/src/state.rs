//! The task store as a mathematical value, and the laws of its operations.

use crate::task::{TaskUpdateView, TaskView};
use vstd::prelude::*;

verus! {

/// Whether a store can take `entries` as they are: each id lies between 1
/// and the greatest machine integer, both left out, and none comes twice.
pub open spec fn loadable(entries: Seq<TaskView>) -> bool {
    &&& forall|i: int| 0 <= i < entries.len() ==> 1 <= (#[trigger] entries[i]).id < usize::MAX
    &&& forall|i: int, j: int|
        0 <= i < j < entries.len() ==> (#[trigger] entries[i]).id != (#[trigger] entries[j]).id
}

/// The tasks of `entries`, each under its own id.
pub open spec fn table_of(entries: Seq<TaskView>) -> Map<usize, TaskView>
    decreases entries.len(),
{
    if entries.len() == 0 {
        Map::empty()
    } else {
        table_of(entries.drop_last()).insert(entries.last().id as usize, entries.last())
    }
}

/// The least id that is at least `floor` and greater than every id of
/// `entries`.
pub open spec fn next_after(entries: Seq<TaskView>, floor: nat) -> nat
    decreases entries.len(),
{
    if entries.len() == 0 {
        floor
    } else {
        let lower = next_after(entries.drop_last(), floor);
        if entries.last().id >= lower {
            entries.last().id + 1
        } else {
            lower
        }
    }
}

/// Every entry's id is a key of the table of the entries.
pub proof fn lemma_table_of_holds(entries: Seq<TaskView>, i: int)
    requires
        0 <= i < entries.len(),
    ensures
        table_of(entries).contains_key(entries[i].id as usize),
    decreases entries.len(),
{
    if i < entries.len() - 1 {
        lemma_table_of_holds(entries.drop_last(), i);
    }
}

/// The table of entries that can be loaded holds each entry under its id
/// and nothing else.
pub proof fn lemma_table_of(entries: Seq<TaskView>)
    requires
        loadable(entries),
    ensures
        table_of(entries).dom().finite(),
        forall|i: int|
            0 <= i < entries.len() ==> table_of(entries).contains_key(
                (#[trigger] entries[i]).id as usize,
            ) && table_of(entries)[entries[i].id as usize] == entries[i],
        forall|id: usize| #[trigger]
            table_of(entries).contains_key(id) ==> exists|i: int|
                0 <= i < entries.len() && (#[trigger] entries[i]).id == id,
    decreases entries.len(),
{
    if entries.len() > 0 {
        let front = entries.drop_last();
        let last = entries.last();
        assert(loadable(front)) by {
            assert forall|i: int| 0 <= i < front.len() implies 1 <= (#[trigger] front[i]).id
                < usize::MAX by {
                assert(front[i] == entries[i]);
            }
            assert forall|i: int, j: int| 0 <= i < j < front.len() implies (#[trigger] front[i]).id
                != (#[trigger] front[j]).id by {
                assert(front[i] == entries[i] && front[j] == entries[j]);
            }
        }
        lemma_table_of(front);
        assert forall|i: int| 0 <= i < entries.len() implies table_of(entries).contains_key(
            (#[trigger] entries[i]).id as usize,
        ) && table_of(entries)[entries[i].id as usize] == entries[i] by {
            if i < front.len() {
                assert(front[i] == entries[i]);
                assert(entries[i].id != entries[entries.len() - 1].id);
            }
        }
        assert forall|id: usize| #[trigger] table_of(entries).contains_key(id) implies exists|
            i: int,
        |
            0 <= i < entries.len() && (#[trigger] entries[i]).id == id by {
            if id == last.id as usize {
                assert(entries[entries.len() - 1].id == id);
            } else {
                let i = choose|i: int| 0 <= i < front.len() && (#[trigger] front[i]).id == id;
                assert(entries[i].id == id);
            }
        }
    }
}

/// The store as a mathematical value: the tasks by id, and the id that the
/// next task will get.
pub ghost struct StoreState {
    pub tasks: Map<usize, TaskView>,
    pub next_id: nat,
}

impl StoreState {
    /// What holds of every store: ids start at 1 and lie below the next id,
    /// and each task stands under its own id.
    pub open spec fn wf(self) -> bool {
        &&& self.tasks.dom().finite()
        &&& 1 <= self.next_id <= usize::MAX
        &&& forall|id: usize| #[trigger]
            self.tasks.contains_key(id) ==> {
                &&& 1 <= id < self.next_id
                &&& self.tasks[id].id == id
                &&& self.tasks[id].in_bounds()
            }
    }

    /// The store that holds nothing and has handed out no id.
    pub open spec fn empty() -> StoreState {
        StoreState { tasks: Map::empty(), next_id: 1 }
    }

    /// Whether an id is left to hand out.
    pub open spec fn has_room(self) -> bool {
        self.next_id < usize::MAX
    }

    /// The store after it took `task`: the task stands under the next id,
    /// which is used up.
    pub open spec fn add(self, task: TaskView) -> StoreState {
        StoreState {
            tasks: self.tasks.insert(self.next_id as usize, task.with_id(self.next_id)),
            next_id: self.next_id + 1,
        }
    }

    /// The store without the task `id`.
    pub open spec fn remove(self, id: usize) -> StoreState {
        StoreState { tasks: self.tasks.remove(id), next_id: self.next_id }
    }

    /// The store after `update` was applied to the task `id`.
    pub open spec fn edit(self, id: usize, update: TaskUpdateView) -> StoreState {
        StoreState {
            tasks: self.tasks.insert(id, self.tasks[id].updated(update)),
            next_id: self.next_id,
        }
    }

    /// The store after it was loaded with `entries`: it holds them and
    /// nothing else, and its next id is greater than each of theirs and not
    /// less than before.
    pub open spec fn load(self, entries: Seq<TaskView>) -> StoreState {
        StoreState { tasks: table_of(entries), next_id: next_after(entries, self.next_id) }
    }

    /// The tasks with an id below `bound`, in increasing order of id.
    pub open spec fn listing_below(self, bound: nat) -> Seq<TaskView>
        decreases bound,
    {
        if bound == 0 {
            Seq::empty()
        } else {
            let id = (bound - 1) as usize;
            let lower = self.listing_below((bound - 1) as nat);
            if self.tasks.contains_key(id) {
                lower.push(self.tasks[id])
            } else {
                lower
            }
        }
    }

    /// All tasks, in increasing order of id: the order in which they came.
    pub open spec fn listing(self) -> Seq<TaskView> {
        self.listing_below(self.next_id)
    }

    /// Whether `list` holds the tasks with an id below `bound`, each once,
    /// in increasing order of id.
    pub open spec fn is_listing(self, list: Seq<TaskView>, bound: nat) -> bool {
        &&& forall|j: int|
            0 <= j < list.len() ==> {
                &&& (#[trigger] list[j]).id < bound
                &&& self.tasks.contains_key(list[j].id as usize)
                &&& self.tasks[list[j].id as usize] == list[j]
            }
        &&& forall|a: int, b: int|
            0 <= a < b < list.len() ==> (#[trigger] list[a]).id < (#[trigger] list[b]).id
        &&& forall|id: usize|
            id < bound && #[trigger] self.tasks.contains_key(id) ==> exists|j: int|
                0 <= j < list.len() && (#[trigger] list[j]).id == id
    }

    /// The listing below a bound is what `is_listing` says.
    pub proof fn lemma_listing_below(self, bound: nat)
        requires
            self.wf(),
            bound <= self.next_id,
        ensures
            self.is_listing(self.listing_below(bound), bound),
        decreases bound,
    {
        if bound > 0 {
            let id = (bound - 1) as usize;
            let lower = self.listing_below((bound - 1) as nat);
            let list = self.listing_below(bound);
            self.lemma_listing_below((bound - 1) as nat);
            assert forall|k: usize| k < bound && #[trigger] self.tasks.contains_key(k) implies exists|
                j: int,
            |
                0 <= j < list.len() && (#[trigger] list[j]).id == k by {
                if k == id {
                    assert(list[list.len() - 1].id == k);
                } else {
                    let j = choose|j: int| 0 <= j < lower.len() && (#[trigger] lower[j]).id == k;
                    assert(list[j].id == k);
                }
            }
        }
    }

    /// Only one list is the listing below a bound.
    pub proof fn lemma_listing_unique(self, list: Seq<TaskView>, bound: nat)
        requires
            self.wf(),
            bound <= self.next_id,
            self.is_listing(list, bound),
        ensures
            list == self.listing_below(bound),
        decreases bound,
    {
        if bound == 0 {
            if list.len() > 0 {
                assert(list[0].id < bound);
            }
            assert(list =~= Seq::empty());
        } else {
            let id = (bound - 1) as usize;
            let lower_bound = (bound - 1) as nat;
            if self.tasks.contains_key(id) {
                let j = choose|j: int| 0 <= j < list.len() && (#[trigger] list[j]).id == id;
                if j < list.len() - 1 {
                    assert(list[j].id < list[list.len() - 1].id);
                    assert(list[list.len() - 1].id < bound);
                }
                let front = list.drop_last();
                assert(self.is_listing(front, lower_bound)) by {
                    assert forall|i: int| 0 <= i < front.len() implies {
                        &&& (#[trigger] front[i]).id < lower_bound
                        &&& self.tasks.contains_key(front[i].id as usize)
                        &&& self.tasks[front[i].id as usize] == front[i]
                    } by {
                        assert(front[i] == list[i]);
                        assert(list[i].id < list[list.len() - 1].id);
                    }
                    assert forall|k: usize|
                        k < lower_bound && #[trigger] self.tasks.contains_key(k) implies exists|
                        i: int,
                    |
                        0 <= i < front.len() && (#[trigger] front[i]).id == k by {
                        let i = choose|i: int| 0 <= i < list.len() && (#[trigger] list[i]).id == k;
                        assert(front[i].id == k);
                    }
                }
                self.lemma_listing_unique(front, lower_bound);
                assert(list =~= front.push(self.tasks[id]));
            } else {
                assert(self.is_listing(list, lower_bound)) by {
                    assert forall|i: int| 0 <= i < list.len() implies (#[trigger] list[i]).id
                        < lower_bound by {
                        assert(self.tasks.contains_key(list[i].id as usize));
                    }
                }
                self.lemma_listing_unique(list, lower_bound);
            }
        }
    }
}

/// An operation on the store, as a mathematical value.
pub ghost enum StoreOp {
    Add(TaskView),
    Edit(usize, TaskUpdateView),
    Remove(usize),
    Load(Seq<TaskView>),
}

impl StoreOp {
    /// Whether what the operation brings is within the bounds that tasks
    /// are held to.
    pub open spec fn in_bounds(self) -> bool {
        match self {
            StoreOp::Add(task) => task.in_bounds(),
            StoreOp::Edit(_, update) => update.in_bounds(),
            StoreOp::Remove(_) => true,
            StoreOp::Load(entries) => forall|i: int|
                0 <= i < entries.len() ==> (#[trigger] entries[i]).in_bounds(),
        }
    }
}

impl StoreState {
    /// The store after `op`. An operation that fails leaves the store as it
    /// was: an add when no id is left, an edit or a removal of a task that
    /// is not there, a load of entries that cannot be taken.
    pub open spec fn apply(self, op: StoreOp) -> StoreState {
        match op {
            StoreOp::Add(task) => if self.has_room() {
                self.add(task)
            } else {
                self
            },
            StoreOp::Edit(id, update) => if self.tasks.contains_key(id) {
                self.edit(id, update)
            } else {
                self
            },
            StoreOp::Remove(id) => if self.tasks.contains_key(id) {
                self.remove(id)
            } else {
                self
            },
            StoreOp::Load(entries) => if loadable(entries) {
                self.load(entries)
            } else {
                self
            },
        }
    }

    /// The store after the operations of `ops`, one after another.
    pub open spec fn apply_all(self, ops: Seq<StoreOp>) -> StoreState
        decreases ops.len(),
    {
        if ops.len() == 0 {
            self
        } else {
            self.apply_all(ops.drop_last()).apply(ops.last())
        }
    }

    /// Every operation keeps the store well formed: whatever is done, each
    /// task stands under its own id, and the ids lie below the next one.
    pub proof fn lemma_apply_keeps_wf(self, op: StoreOp)
        requires
            self.wf(),
            op.in_bounds(),
        ensures
            self.apply(op).wf(),
    {
        match op {
            StoreOp::Load(entries) => {
                if loadable(entries) {
                    lemma_table_of(entries);
                    lemma_next_after(entries, self.next_id);
                    lemma_next_after_bound(entries, self.next_id, usize::MAX as nat);
                    let after = self.load(entries);
                    assert forall|id: usize| #[trigger] after.tasks.contains_key(id) implies {
                        &&& 1 <= id < after.next_id
                        &&& after.tasks[id].id == id
                        &&& after.tasks[id].in_bounds()
                    } by {
                        let i = choose|i: int|
                            0 <= i < entries.len() && (#[trigger] entries[i]).id == id;
                        assert(after.tasks[entries[i].id as usize] == entries[i]);
                    }
                }
            },
            _ => {},
        }
    }

    /// The id that an add hands out is in use by no task, and greater than
    /// the id of every task in the store.
    pub proof fn lemma_added_id_is_fresh(self)
        requires
            self.wf(),
        ensures
            !self.tasks.contains_key(self.next_id as usize),
            forall|id: usize| #[trigger] self.tasks.contains_key(id) ==> id < self.next_id,
    {
    }

    /// No operation lowers the next id.
    pub proof fn lemma_next_id_never_falls(self, ops: Seq<StoreOp>)
        ensures
            self.apply_all(ops).next_id >= self.next_id,
        decreases ops.len(),
    {
        if ops.len() > 0 {
            let before = self.apply_all(ops.drop_last());
            self.lemma_next_id_never_falls(ops.drop_last());
            if let StoreOp::Load(entries) = ops.last() {
                lemma_next_after(entries, before.next_id);
            }
        }
    }

    /// Ids are never handed out twice: after a task was added, whatever is
    /// done to the store, the id that the next add hands out is greater
    /// than the id that was handed out for it. So is every id handed out later.
    pub proof fn lemma_later_id_is_greater(self, task: TaskView, later: Seq<StoreOp>)
        requires
            self.has_room(),
        ensures
            self.apply(StoreOp::Add(task)).apply_all(later).next_id > self.next_id,
    {
        self.add(task).lemma_next_id_never_falls(later);
    }

    /// A task that was added stands in the store under the id it got, with
    /// that id for its own and every other field as it came. The id is not
    /// 0, and no other task is touched.
    pub proof fn lemma_added_task_is_stored(self, task: TaskView)
        requires
            self.wf(),
            self.has_room(),
            task.in_bounds(),
        ensures
            self.add(task).wf(),
            self.next_id != 0,
            self.add(task).tasks.contains_key(self.next_id as usize),
            self.add(task).tasks[self.next_id as usize] == task.with_id(self.next_id),
            forall|id: usize| #[trigger]
                self.tasks.contains_key(id) ==> self.add(task).tasks.contains_key(id)
                    && self.add(task).tasks[id] == self.tasks[id],
    {
    }

    /// An edit sets the fields that the update gives, on the task that was
    /// named, and touches nothing else in the store.
    pub proof fn lemma_edit_touches_one_task(self, id: usize, update: TaskUpdateView)
        requires
            self.tasks.contains_key(id),
        ensures
            self.edit(id, update).tasks.dom() == self.tasks.dom(),
            self.edit(id, update).tasks[id] == self.tasks[id].updated(update),
            forall|other: usize|
                other != id ==> #[trigger] self.edit(id, update).tasks[other] == self.tasks[other],
            self.edit(id, update).next_id == self.next_id,
    {
        assert(self.edit(id, update).tasks.dom() =~= self.tasks.dom());
    }

    /// A task that was removed is no longer found, and every other task
    /// stays. Removing a task that is not there changes nothing.
    pub proof fn lemma_remove(self, id: usize)
        ensures
            !self.remove(id).tasks.contains_key(id),
            forall|other: usize|
                other != id && #[trigger] self.tasks.contains_key(other) ==> self.remove(
                    id,
                ).tasks.contains_key(other) && self.remove(id).tasks[other] == self.tasks[other],
            !self.tasks.contains_key(id) ==> self.remove(id) == self,
            self.apply(StoreOp::Remove(id)) == self.remove(id),
    {
        if !self.tasks.contains_key(id) {
            assert(self.remove(id).tasks =~= self.tasks);
        }
    }

    /// The table of the listing below a bound holds the tasks with an id
    /// below that bound, and the listing raises no floor that is at least
    /// the bound.
    pub proof fn lemma_table_of_listing(self, bound: nat)
        requires
            self.wf(),
            bound <= self.next_id,
        ensures
            table_of(self.listing_below(bound)) == self.tasks.restrict(
                Set::new(|id: usize| id < bound),
            ),
            forall|floor: nat|
                floor >= bound ==> #[trigger] next_after(self.listing_below(bound), floor) == floor,
        decreases bound,
    {
        let below = Set::new(|id: usize| id < bound);
        if bound == 0 {
            assert(self.tasks.restrict(below) =~= Map::<usize, TaskView>::empty());
        } else {
            let id = (bound - 1) as usize;
            let lower_bound = (bound - 1) as nat;
            let lower = self.listing_below(lower_bound);
            self.lemma_table_of_listing(lower_bound);
            let lower_set = Set::new(|id: usize| id < lower_bound);
            if self.tasks.contains_key(id) {
                let list = lower.push(self.tasks[id]);
                assert(list.drop_last() =~= lower);
                assert(table_of(list) =~= self.tasks.restrict(below));
                assert forall|floor: nat| floor >= bound implies #[trigger] next_after(list, floor)
                    == floor by {
                    assert(next_after(lower, floor) == floor);
                }
            } else {
                assert(self.tasks.restrict(lower_set) =~= self.tasks.restrict(below));
            }
        }
    }

    /// The listing of a store can be loaded, and loading it gives the tasks
    /// of the store back: the same ids with the same tasks. Loaded into the
    /// same store, it leaves the next id as it was; loaded into any store,
    /// it leaves no next id in use.
    pub proof fn lemma_listing_loads(self, into: StoreState)
        requires
            self.wf(),
        ensures
            loadable(self.listing()),
            into.load(self.listing()).tasks == self.tasks,
            self.load(self.listing()) == self,
            into.wf() ==> into.load(self.listing()).wf(),
    {
        let list = self.listing();
        self.lemma_listing_below(self.next_id);
        self.lemma_table_of_listing(self.next_id);
        assert(self.tasks.restrict(Set::new(|id: usize| id < self.next_id)) =~= self.tasks);
        assert forall|i: int| 0 <= i < list.len() implies 1 <= (#[trigger] list[i]).id
            < usize::MAX by {
            assert(self.tasks.contains_key(list[i].id as usize));
        }
        lemma_next_after(list, into.next_id);
        let bound = if into.next_id > self.next_id {
            into.next_id
        } else {
            self.next_id
        };
        lemma_next_after_bound(list, into.next_id, bound);
    }
}

/// The next id after some entries is at least the floor, and greater than
/// each of their ids.
pub proof fn lemma_next_after(entries: Seq<TaskView>, floor: nat)
    ensures
        next_after(entries, floor) >= floor,
        forall|i: int| 0 <= i < entries.len() ==> (#[trigger] entries[i]).id < next_after(entries, floor),
    decreases entries.len(),
{
    if entries.len() > 0 {
        let front = entries.drop_last();
        lemma_next_after(front, floor);
        assert forall|i: int| 0 <= i < entries.len() implies (#[trigger] entries[i]).id
            < next_after(entries, floor) by {
            if i < front.len() {
                assert(front[i] == entries[i]);
            }
        }
    }
}

/// The next id after some entries is no greater than a bound that the
/// floor and all their ids respect.
pub proof fn lemma_next_after_bound(entries: Seq<TaskView>, floor: nat, bound: nat)
    requires
        floor <= bound,
        forall|i: int| 0 <= i < entries.len() ==> (#[trigger] entries[i]).id < bound,
    ensures
        next_after(entries, floor) <= bound,
    decreases entries.len(),
{
    if entries.len() > 0 {
        let front = entries.drop_last();
        assert forall|i: int| 0 <= i < front.len() implies (#[trigger] front[i]).id < bound by {
            assert(front[i] == entries[i]);
        }
        lemma_next_after_bound(front, floor, bound);
        assert(entries.last() == entries[entries.len() - 1]);
    }
}

} // verus!
