use vstd::prelude::*;

use crate::task::{lowered, raised, Priority, Task, TaskView};
use crate::text::{blank, decimal, decimal_text, is_blank};
use crate::task_error::TaskError;
use std::path::PathBuf;

verus! {

/// A location in the file system, handed through unchanged.
#[verifier::external_type_specification]
#[verifier::external_body]
pub struct ExPathBuf(PathBuf);

/// The mathematical content of a store: its tasks in order and the next id to hand out.
pub ghost struct StoreView {
    pub tasks: Seq<TaskView>,
    pub next_id: usize,
}

pub open spec fn views(ts: Seq<Task>) -> Seq<TaskView> {
    ts.map_values(|t: Task| t@)
}

pub open spec fn has_id(ts: Seq<TaskView>, id: usize) -> bool {
    exists|i: int| 0 <= i < ts.len() && #[trigger] ts[i].id == id
}

/// `i` is the first position holding `id`.
pub open spec fn first_index(ts: Seq<TaskView>, id: usize, i: int) -> bool {
    &&& 0 <= i < ts.len()
    &&& ts[i].id == id
    &&& forall|j: int| 0 <= j < i ==> #[trigger] ts[j].id != id
}

/// The first position holding `id`, where there is one.
pub open spec fn position(ts: Seq<TaskView>, id: usize) -> int {
    choose|i: int| first_index(ts, id, i)
}

/// No two tasks share an id.
pub open spec fn distinct_ids(ts: Seq<TaskView>) -> bool {
    forall|i: int, j: int|
        0 <= i < ts.len() && 0 <= j < ts.len() && i != j ==> #[trigger] ts[i].id != #[trigger] ts[j].id
}

/// The store's invariant: ids are distinct, never 0, and all below the next id.
pub open spec fn store_ok(s: StoreView) -> bool {
    &&& s.next_id >= 1
    &&& distinct_ids(s.tasks)
    &&& forall|i: int| 0 <= i < s.tasks.len() ==> 0 < #[trigger] s.tasks[i].id < s.next_id
}

/// What `add_task` does: append a fresh task under the next id, then move the counter on.
pub open spec fn added(pre: StoreView, post: StoreView, description: Seq<char>, id: usize) -> bool {
    &&& id == pre.next_id
    &&& post.next_id == pre.next_id + 1
    &&& post.tasks == pre.tasks.push(
        TaskView { id, description, completed: false, priority: Priority::Medium },
    )
}

/// What a successful `complete_task` does.
pub open spec fn completed(pre: StoreView, post: StoreView, id: usize) -> bool {
    let i = position(pre.tasks, id);
    &&& has_id(pre.tasks, id)
    &&& post.next_id == pre.next_id
    &&& post.tasks == pre.tasks.update(i, TaskView { completed: true, ..pre.tasks[i] })
}

/// What a successful `prioritize_task` (`up`) or `deprioritize_task` (not `up`) does.
pub open spec fn reprioritized(pre: StoreView, post: StoreView, id: usize, up: bool) -> bool {
    let i = position(pre.tasks, id);
    let p = if up {
        raised(pre.tasks[i].priority)
    } else {
        lowered(pre.tasks[i].priority)
    };
    &&& has_id(pre.tasks, id)
    &&& post.next_id == pre.next_id
    &&& post.tasks == pre.tasks.update(i, TaskView { priority: p, ..pre.tasks[i] })
}

/// What a successful `change_description` does.
pub open spec fn renamed(pre: StoreView, post: StoreView, id: usize, description: Seq<char>) -> bool {
    let i = position(pre.tasks, id);
    &&& has_id(pre.tasks, id)
    &&& post.next_id == pre.next_id
    &&& post.tasks == pre.tasks.update(i, TaskView { description, ..pre.tasks[i] })
}

/// What a successful `delete_task` does: the task leaves, nothing else moves but to close the gap.
pub open spec fn deleted(pre: StoreView, post: StoreView, id: usize) -> bool {
    &&& has_id(pre.tasks, id)
    &&& post.next_id == pre.next_id
    &&& post.tasks == pre.tasks.remove(position(pre.tasks, id))
}

/// The tasks not yet completed, in their order.
pub open spec fn pending(ts: Seq<TaskView>) -> Seq<TaskView> {
    ts.filter(|t: TaskView| !t.completed)
}

/// The description of the task with the given id.
pub open spec fn description_of(s: StoreView, id: usize) -> Seq<char> {
    s.tasks[position(s.tasks, id)].description
}

/// The largest id among the tasks (0 for none).
pub open spec fn max_id(ts: Seq<TaskView>) -> nat
    decreases ts.len(),
{
    if ts.len() == 0 {
        0
    } else if ts.last().id > max_id(ts.drop_last()) {
        ts.last().id as nat
    } else {
        max_id(ts.drop_last())
    }
}

/// How many tasks carry no id yet (id 0).
pub open spec fn unnumbered(ts: Seq<TaskView>) -> nat
    decreases ts.len(),
{
    if ts.len() == 0 {
        0
    } else {
        unnumbered(ts.drop_last()) + if ts.last().id == 0 {
            1nat
        } else {
            0nat
        }
    }
}

/// No id other than 0 occurs twice.
pub open spec fn numbered_distinct(ts: Seq<TaskView>) -> bool {
    forall|i: int, j: int|
        0 <= i < ts.len() && 0 <= j < ts.len() && i != j && #[trigger] ts[i].id == #[trigger] ts[j].id
            ==> ts[i].id == 0
}

/// Every id can be handed out without passing the largest `usize`.
pub open spec fn ids_fit(ts: Seq<TaskView>) -> bool {
    max_id(ts) + unnumbered(ts) < usize::MAX
}

/// The tasks with ids given to those that had none: in order, counting up from the largest
/// id present.
pub open spec fn migrated(ts: Seq<TaskView>) -> Seq<TaskView> {
    Seq::new(
        ts.len(),
        |i: int|
            if ts[i].id == 0 {
                TaskView { id: (max_id(ts) + unnumbered(ts.take(i)) + 1) as usize, ..ts[i] }
            } else {
                ts[i]
            },
    )
}

/// The next id after loading: one past the largest id once all have one.
pub open spec fn next_after(ts: Seq<TaskView>) -> nat {
    max_id(ts) + unnumbered(ts) + 1
}

pub(crate) proof fn lemma_take_step(ts: Seq<TaskView>, i: int)
    requires
        0 <= i < ts.len(),
    ensures
        unnumbered(ts.take(i + 1)) == unnumbered(ts.take(i)) + if ts[i].id == 0 {
            1nat
        } else {
            0nat
        },
        max_id(ts.take(i + 1)) == if ts[i].id > max_id(ts.take(i)) {
            ts[i].id as nat
        } else {
            max_id(ts.take(i))
        },
{
    assert(ts.take(i + 1).drop_last() =~= ts.take(i));
}

pub(crate) proof fn lemma_unnumbered_mono(ts: Seq<TaskView>, i: int, j: int)
    requires
        0 <= i <= j <= ts.len(),
    ensures
        unnumbered(ts.take(i)) <= unnumbered(ts.take(j)),
    decreases j - i,
{
    if i < j {
        lemma_unnumbered_mono(ts, i, j - 1);
        lemma_take_step(ts, j - 1);
    }
}

pub(crate) proof fn lemma_max_bound(ts: Seq<TaskView>)
    ensures
        forall|i: int| 0 <= i < ts.len() ==> #[trigger] ts[i].id <= max_id(ts),
    decreases ts.len(),
{
    if ts.len() > 0 {
        lemma_max_bound(ts.drop_last());
        assert forall|i: int| 0 <= i < ts.len() implies #[trigger] ts[i].id <= max_id(ts) by {
            if i < ts.len() - 1 {
                assert(ts.drop_last()[i] == ts[i]);
            }
        }
    }
}

pub(crate) proof fn lemma_migrated_ok(ts: Seq<TaskView>)
    requires
        numbered_distinct(ts),
        ids_fit(ts),
    ensures
        store_ok(StoreView { tasks: migrated(ts), next_id: next_after(ts) as usize }),
{
    let m = migrated(ts);
    lemma_max_bound(ts);
    assert(ts.take(ts.len() as int) =~= ts);
    assert forall|i: int| 0 <= i < ts.len() && ts[i].id == 0 implies unnumbered(ts.take(i))
        < unnumbered(ts) by {
        lemma_take_step(ts, i);
        lemma_unnumbered_mono(ts, i + 1, ts.len() as int);
    }
    assert forall|a: int, b: int|
        0 <= a < m.len() && 0 <= b < m.len() && a != b implies #[trigger] m[a].id
        != #[trigger] m[b].id by {
        if ts[a].id == 0 && ts[b].id == 0 {
            if a < b {
                lemma_take_step(ts, a);
                lemma_unnumbered_mono(ts, a + 1, b);
            } else {
                lemma_take_step(ts, b);
                lemma_unnumbered_mono(ts, b + 1, a);
            }
        }
    }
}

/// A position that holds `id` with none before it is the one `position` names.
pub proof fn lemma_position(ts: Seq<TaskView>, id: usize, i: int)
    requires
        first_index(ts, id, i),
    ensures
        position(ts, id) == i,
{
    let k = position(ts, id);
    assert(first_index(ts, id, k));
    if k < i {
        assert(ts[k].id != id);
    }
    if i < k {
        assert(ts[i].id != id);
    }
}

proof fn lemma_views_update(v: Seq<Task>, i: int)
    requires
        0 <= i < v.len(),
    ensures
        forall|t: Task| #[trigger] views(v.update(i, t)) == views(v).update(i, t@),
{
    assert forall|t: Task| #[trigger] views(v.update(i, t)) == views(v).update(i, t@) by {
        assert(views(v.update(i, t)) =~= views(v).update(i, t@));
    }
}

proof fn lemma_same_ids_ok(pre: StoreView, post: StoreView, i: int, t: TaskView)
    requires
        store_ok(pre),
        0 <= i < pre.tasks.len(),
        t.id == pre.tasks[i].id,
        post.next_id == pre.next_id,
        post.tasks == pre.tasks.update(i, t),
    ensures
        store_ok(post),
{
    assert forall|a: int, b: int|
        0 <= a < post.tasks.len() && 0 <= b < post.tasks.len() && a != b implies #[trigger] post.tasks[a].id
        != #[trigger] post.tasks[b].id by {
        assert(post.tasks[a].id == pre.tasks[a].id);
        assert(post.tasks[b].id == pre.tasks[b].id);
    }
    assert forall|a: int| 0 <= a < post.tasks.len() implies 0 < #[trigger] post.tasks[a].id < post.next_id by {
        assert(post.tasks[a].id == pre.tasks[a].id);
    }
}

proof fn lemma_pending_distinct(ts: Seq<TaskView>)
    requires
        distinct_ids(ts),
    ensures
        distinct_ids(pending(ts)),
        forall|k: int| 0 <= k < pending(ts).len() ==> #[trigger] ts.contains(pending(ts)[k]),
    decreases ts.len(),
{
    reveal(Seq::filter);
    if ts.len() > 0 {
        let rest = ts.drop_last();
        assert(distinct_ids(rest)) by {
            assert forall|a: int, b: int|
                0 <= a < rest.len() && 0 <= b < rest.len() && a != b implies #[trigger] rest[a].id
                != #[trigger] rest[b].id by {
                assert(rest[a] == ts[a] && rest[b] == ts[b]);
            }
        }
        lemma_pending_distinct(rest);
        let p = pending(rest);
        assert forall|k: int| 0 <= k < p.len() implies #[trigger] p[k].id != ts.last().id by {
            assert(rest.contains(p[k]));
            let j = choose|j: int| 0 <= j < rest.len() && rest[j] == p[k];
            assert(ts[j] == rest[j]);
            assert(ts[ts.len() - 1] == ts.last());
        }
        assert forall|k: int| 0 <= k < pending(ts).len() implies #[trigger] ts.contains(pending(ts)[k]) by {
            if k < p.len() {
                assert(rest.contains(p[k]));
                let j = choose|j: int| 0 <= j < rest.len() && rest[j] == p[k];
                assert(ts[j] == rest[j]);
            } else {
                assert(ts[ts.len() - 1] == ts.last());
            }
        }
    }
}

proof fn lemma_pending_ok(s: StoreView)
    requires
        store_ok(s),
    ensures
        store_ok(StoreView { tasks: pending(s.tasks), ..s }),
        pending(s.tasks).len() <= s.tasks.len(),
{
    lemma_pending_distinct(s.tasks);
    s.tasks.lemma_filter_len(|t: TaskView| !t.completed);
    let p = pending(s.tasks);
    assert forall|k: int| 0 <= k < p.len() implies 0 < #[trigger] p[k].id < s.next_id by {
        assert(s.tasks.contains(p[k]));
    }
}

/// Whether some id other than 0 occurs twice among the records.
fn has_duplicate_ids(records: &Vec<Task>) -> (r: bool)
    ensures
        r == !numbered_distinct(views(records@)),
{
    let ghost ts = views(records@);
    let n = records.len();
    let mut i: usize = 0;
    while i < n
        invariant
            n == records@.len(),
            ts == views(records@),
            i <= n,
            forall|a: int, b: int|
                0 <= a < i && 0 <= b < n && a != b && #[trigger] ts[a].id == #[trigger] ts[b].id
                    ==> ts[a].id == 0,
        decreases n - i,
    {
        let id = records[i].get_id();
        if id != 0 {
            let mut j: usize = 0;
            while j < n
                invariant
                    n == records@.len(),
                    ts == views(records@),
                    i < n,
                    j <= n,
                    id == ts[i as int].id,
                    id != 0,
                    forall|b: int| 0 <= b < j && b != i ==> #[trigger] ts[b].id != id,
                decreases n - j,
            {
                let other = records[j].get_id();
                if j != i && other == id {
                    assert(ts[i as int].id == ts[j as int].id && ts[i as int].id != 0);
                    assert(!numbered_distinct(ts));
                    return true;
                }
                j = j + 1;
            }
        }
        i = i + 1;
    }
    false
}

/// The ordered collection of tasks, bound to the file it is kept in.
#[derive(Debug)]
pub struct TaskManager {
    tasks: Vec<Task>,
    file_path: PathBuf,
    next_available_id: usize,
}

impl View for TaskManager {
    type V = StoreView;

    closed spec fn view(&self) -> StoreView {
        StoreView { tasks: views(self.tasks@), next_id: self.next_available_id }
    }
}

impl TaskManager {
    pub open spec fn wf(&self) -> bool {
        store_ok(self@)
    }

    /// An empty store bound to `file_path`; the first id it hands out is 1.
    pub fn new(file_path: PathBuf) -> (r: TaskManager)
        ensures
            r@.tasks == Seq::<TaskView>::empty(),
            r@.next_id == 1,
            r.wf(),
    {
        TaskManager { tasks: Vec::new(), file_path, next_available_id: 1 }
    }

    /// The file the store is kept in.
    pub fn file_path(&self) -> &PathBuf {
        &self.file_path
    }

    /// The tasks in store order.
    pub fn tasks(&self) -> (r: &Vec<Task>)
        ensures
            views(r@) == self@.tasks,
    {
        &self.tasks
    }

    /// The id the next added task will get.
    pub fn next_available_id(&self) -> (r: usize)
        ensures
            r == self@.next_id,
    {
        self.next_available_id
    }

    /// How many columns an id takes in a listing.
    pub fn id_width(&self) -> (r: usize)
        ensures
            r == self@.next_id / 10 + 2,
    {
        self.next_available_id / 10 + 2
    }

    /// Creates a task from `description` and appends it; returns its id. The store takes the
    /// description as given: callers reject blank ones first (see `build_description`).
    pub fn add_task(&mut self, description: String) -> (r: usize)
        requires
            old(self).wf(),
            old(self)@.next_id < usize::MAX,
        ensures
            added(old(self)@, final(self)@, description@, r),
            final(self).wf(),
    {
        let new_id = self.next_available_id;
        let new_task = Task::new_task(description, self.next_available_id, Priority::Medium);
        self.next_available_id = self.next_available_id + 1;
        self.tasks.push(new_task);
        proof {
            assert(views(self.tasks@) =~= views(old(self).tasks@).push(new_task@));
        }
        new_id
    }

    /// The position of the task with the given id, if there is one.
    pub fn find_id(&self, id: usize) -> (r: Option<usize>)
        ensures
            r is None <==> !has_id(self@.tasks, id),
            r is Some ==> first_index(self@.tasks, id, r->Some_0 as int) && r->Some_0 == position(
                self@.tasks,
                id,
            ),
    {
        let mut i: usize = 0;
        while i < self.tasks.len()
            invariant
                i <= self.tasks@.len(),
                forall|j: int| 0 <= j < i ==> #[trigger] self@.tasks[j].id != id,
            decreases self.tasks@.len() - i,
        {
            if self.tasks[i].get_id() == id {
                proof {
                    lemma_position(self@.tasks, id, i as int);
                }
                return Some(i);
            }
            i = i + 1;
        }
        None
    }

    /// The task with the given id, if there is one.
    pub fn at(&self, id: usize) -> (r: Option<&Task>)
        ensures
            r is None <==> !has_id(self@.tasks, id),
            r is Some ==> r->Some_0@ == self@.tasks[position(self@.tasks, id)],
    {
        match self.find_id(id) {
            Some(i) => Some(&self.tasks[i]),
            None => None,
        }
    }

    /// The task with the given id, for changing in place, if there is one. A caller that
    /// changes its id there must restore `wf` itself.
    pub fn at_mut(&mut self, id: usize) -> (r: Option<&mut Task>)
        ensures
            r is None <==> !has_id(old(self)@.tasks, id),
            r is None ==> final(self)@ == old(self)@,
            r is Some ==> {
                let i = position(old(self)@.tasks, id);
                &&& (*r->Some_0)@ == old(self)@.tasks[i]
                &&& final(self)@ == (StoreView {
                    tasks: old(self)@.tasks.update(i, (*final(r->Some_0))@),
                    ..old(self)@
                })
            },
    {
        match self.find_id(id) {
            Some(i) => {
                proof {
                    lemma_views_update(self.tasks@, i as int);
                }
                Some(&mut self.tasks[i])
            },
            None => None,
        }
    }
    /// Marks the task with the given id completed.
    pub fn complete_task(&mut self, id: usize) -> (r: Result<String, TaskError>)
        requires
            old(self).wf(),
        ensures
            final(self).wf(),
            r is Ok <==> has_id(old(self)@.tasks, id),
            r is Ok ==> completed(old(self)@, final(self)@, id) && r->Ok_0@ == "Completed Task: "@
                + description_of(old(self)@, id),
            r is Err ==> r->Err_0 == TaskError::TaskNotFound(id) && final(self)@ == old(self)@,
    {
        match self.find_id(id) {
            Some(i) => {
                proof {
                    lemma_views_update(self.tasks@, i as int);
                }
                self.tasks[i].mark_completed();
                proof {
                    lemma_same_ids_ok(old(self)@, self@, i as int, self@.tasks[i as int]);
                }
                let mut msg = String::from_str("Completed Task: ");
                msg.append(self.tasks[i].get_description());
                Ok(msg)
            },
            None => Err(TaskError::TaskNotFound(id)),
        }
    }

    /// Ranks the priority of the task with the given id up one step.
    pub fn prioritize_task(&mut self, id: usize) -> (r: Result<String, TaskError>)
        requires
            old(self).wf(),
        ensures
            final(self).wf(),
            r is Ok <==> has_id(old(self)@.tasks, id),
            r is Ok ==> reprioritized(old(self)@, final(self)@, id, true) && r->Ok_0@
                == "Prioritized Task: "@ + description_of(old(self)@, id),
            r is Err ==> r->Err_0 == TaskError::TaskNotFound(id) && final(self)@ == old(self)@,
    {
        match self.find_id(id) {
            Some(i) => {
                proof {
                    lemma_views_update(self.tasks@, i as int);
                }
                self.tasks[i].prio_up();
                proof {
                    lemma_same_ids_ok(old(self)@, self@, i as int, self@.tasks[i as int]);
                }
                let mut msg = String::from_str("Prioritized Task: ");
                msg.append(self.tasks[i].get_description());
                Ok(msg)
            },
            None => Err(TaskError::TaskNotFound(id)),
        }
    }

    /// Ranks the priority of the task with the given id down one step.
    pub fn deprioritize_task(&mut self, id: usize) -> (r: Result<String, TaskError>)
        requires
            old(self).wf(),
        ensures
            final(self).wf(),
            r is Ok <==> has_id(old(self)@.tasks, id),
            r is Ok ==> reprioritized(old(self)@, final(self)@, id, false) && r->Ok_0@
                == "Deprioritized Task: "@ + description_of(old(self)@, id),
            r is Err ==> r->Err_0 == TaskError::TaskNotFound(id) && final(self)@ == old(self)@,
    {
        match self.find_id(id) {
            Some(i) => {
                proof {
                    lemma_views_update(self.tasks@, i as int);
                }
                self.tasks[i].prio_down();
                proof {
                    lemma_same_ids_ok(old(self)@, self@, i as int, self@.tasks[i as int]);
                }
                let mut msg = String::from_str("Deprioritized Task: ");
                msg.append(self.tasks[i].get_description());
                Ok(msg)
            },
            None => Err(TaskError::TaskNotFound(id)),
        }
    }

    /// Ranks the priority of the task with the given id up (`prioritize`) or down one step.
    pub fn change_priority(&mut self, id: usize, prioritize: bool) -> (r: Result<
        String,
        TaskError,
    >)
        requires
            old(self).wf(),
        ensures
            final(self).wf(),
            r is Ok <==> has_id(old(self)@.tasks, id),
            r is Ok ==> reprioritized(old(self)@, final(self)@, id, prioritize),
            r is Ok && prioritize ==> r->Ok_0@ == "Prioritized Task: "@ + description_of(
                old(self)@,
                id,
            ),
            r is Ok && !prioritize ==> r->Ok_0@ == "Deprioritized Task: "@ + description_of(
                old(self)@,
                id,
            ),
            r is Err ==> r->Err_0 == TaskError::TaskNotFound(id) && final(self)@ == old(self)@,
    {
        if prioritize {
            self.prioritize_task(id)
        } else {
            self.deprioritize_task(id)
        }
    }
    /// Gives the task with the given id a new description, which must not be blank.
    pub fn change_description(&mut self, id: usize, new_description: String) -> (r: Result<
        String,
        TaskError,
    >)
        requires
            old(self).wf(),
        ensures
            final(self).wf(),
            r is Ok <==> has_id(old(self)@.tasks, id) && !is_blank(new_description@),
            r is Ok ==> renamed(old(self)@, final(self)@, id, new_description@) && r->Ok_0@
                == "Description of task "@ + decimal(id as nat) + " changed.\n\tOld: \""@
                + description_of(old(self)@, id) + "\"\n\tNew: \""@ + new_description@ + "\""@,
            !has_id(old(self)@.tasks, id) ==> r == Err::<String, TaskError>(
                TaskError::TaskNotFound(id),
            ),
            has_id(old(self)@.tasks, id) && is_blank(new_description@) ==> r is Err
                && r->Err_0 is Empty && r->Err_0->Empty_0@ == "Description"@,
            r is Err ==> final(self)@ == old(self)@,
    {
        match self.find_id(id) {
            Some(i) => {
                if blank(new_description.as_str()) {
                    return Err(TaskError::Empty(String::from_str("Description")));
                }
                let mut msg = String::from_str("Description of task ");
                msg.append(decimal_text(id).as_str());
                msg.append(" changed.\n\tOld: \"");
                msg.append(self.tasks[i].get_description());
                msg.append("\"\n\tNew: \"");
                msg.append(new_description.as_str());
                msg.append("\"");
                proof {
                    lemma_views_update(self.tasks@, i as int);
                }
                self.tasks[i].set_description(new_description);
                proof {
                    lemma_same_ids_ok(old(self)@, self@, i as int, self@.tasks[i as int]);
                }
                Ok(msg)
            },
            None => Err(TaskError::TaskNotFound(id)),
        }
    }

    /// Removes the task with the given id; the others keep their ids and order.
    pub fn delete_task(&mut self, id: usize) -> (r: Result<String, TaskError>)
        requires
            old(self).wf(),
        ensures
            final(self).wf(),
            r is Ok <==> has_id(old(self)@.tasks, id),
            r is Ok ==> deleted(old(self)@, final(self)@, id) && r->Ok_0@ == "Deleted task ID "@
                + decimal(id as nat) + "\n\t'"@ + description_of(old(self)@, id) + "'"@,
            r is Err ==> r->Err_0 == TaskError::TaskNotFound(id) && final(self)@ == old(self)@,
    {
        match self.find_id(id) {
            Some(idx) => {
                let old_task = self.tasks.remove(idx);
                proof {
                    let pre = old(self)@.tasks;
                    assert(views(self.tasks@) =~= pre.remove(idx as int));
                    assert forall|a: int, b: int|
                        0 <= a < self@.tasks.len() && 0 <= b < self@.tasks.len() && a != b implies #[trigger] self@.tasks[a].id
                        != #[trigger] self@.tasks[b].id by {
                        let a0 = if a < idx { a } else { a + 1 };
                        let b0 = if b < idx { b } else { b + 1 };
                        assert(self@.tasks[a] == pre[a0]);
                        assert(self@.tasks[b] == pre[b0]);
                    }
                    assert forall|a: int| 0 <= a < self@.tasks.len() implies 0 < #[trigger] self@.tasks[a].id
                        < self@.next_id by {
                        let a0 = if a < idx { a } else { a + 1 };
                        assert(self@.tasks[a] == pre[a0]);
                    }
                }
                let mut msg = String::from_str("Deleted task ID ");
                msg.append(decimal_text(id).as_str());
                msg.append("\n\t'");
                msg.append(old_task.get_description());
                msg.append("'");
                Ok(msg)
            },
            None => Err(TaskError::TaskNotFound(id)),
        }
    }

    /// Removes every completed task, keeping the order of the rest; returns how many left.
    pub fn clear_completed_tasks(&mut self) -> (r: usize)
        requires
            old(self).wf(),
        ensures
            final(self).wf(),
            final(self)@.tasks == pending(old(self)@.tasks),
            final(self)@.next_id == old(self)@.next_id,
            r == old(self)@.tasks.len() - final(self)@.tasks.len(),
    {
        let initial_len = self.tasks.len();
        let ghost all = self@.tasks;
        let mut kept: Vec<Task> = Vec::new();
        let mut i: usize = 0;
        while i < self.tasks.len()
            invariant
                i <= self.tasks@.len(),
                all == views(self.tasks@),
                views(kept@) == pending(all.take(i as int)),
            decreases self.tasks@.len() - i,
        {
            proof {
                assert(all.take(i + 1).drop_last() =~= all.take(i as int));
                reveal(Seq::filter);
            }
            if !self.tasks[i].get_completed() {
                let t = self.tasks[i].duplicate();
                kept.push(t);
                proof {
                    assert(views(kept@) =~= pending(all.take(i as int)).push(t@));
                }
            }
            i = i + 1;
        }
        proof {
            assert(all.take(i as int) =~= all);
            lemma_pending_ok(old(self)@);
        }
        self.tasks = kept;
        initial_len - self.tasks.len()
    }
    /// Replaces the contents with what was read from storage: `None` where there was nothing
    /// (no file, or only white space), else the records in file order. Records without an id
    /// get one, counting up from the largest id present; the next id is one past the last.
    /// Fails, changing nothing, where an id occurs twice or the ids would run out.
    pub fn load_tasks(&mut self, stored: Option<Vec<Task>>) -> (r: Result<(), TaskError>)
        requires
            old(self).wf(),
        ensures
            final(self).wf(),
            stored is None ==> r is Ok && final(self)@.tasks == Seq::<TaskView>::empty()
                && final(self)@.next_id == 1,
            stored is Some ==> {
                let ts = views(stored->Some_0@);
                &&& r is Ok <==> numbered_distinct(ts) && ids_fit(ts)
                &&& r is Ok ==> final(self)@.tasks == migrated(ts) && final(self)@.next_id
                    == next_after(ts)
                &&& r is Err ==> r->Err_0 is Json && final(self)@ == old(self)@
            },
    {
        match stored {
            None => {
                self.tasks = Vec::new();
                self.next_available_id = 1;
                proof {
                    assert(views(self.tasks@) =~= Seq::<TaskView>::empty());
                }
                Ok(())
            },
            Some(mut records) => {
                if has_duplicate_ids(&records) {
                    return Err(TaskError::Json(String::from_str("an id occurs twice")));
                }
                let ghost ts = views(records@);
                let n = records.len();
                let mut max: usize = 0;
                let mut zeros: usize = 0;
                let mut i: usize = 0;
                while i < n
                    invariant
                        n == records@.len(),
                        ts == views(records@),
                        i <= n,
                        max == max_id(ts.take(i as int)),
                        zeros == unnumbered(ts.take(i as int)),
                        zeros <= i,
                    decreases n - i,
                {
                    proof {
                        lemma_take_step(ts, i as int);
                    }
                    let id = records[i].get_id();
                    if id > max {
                        max = id;
                    }
                    if id == 0 {
                        zeros = zeros + 1;
                    }
                    i = i + 1;
                }
                proof {
                    assert(ts.take(n as int) =~= ts);
                }
                if zeros >= usize::MAX - max {
                    return Err(TaskError::Json(String::from_str("no ids are left to assign")));
                }
                let mut current: usize = max;
                let mut k: usize = 0;
                while k < n
                    invariant
                        n == records@.len(),
                        n == ts.len(),
                        k <= n,
                        max == max_id(ts),
                        zeros == unnumbered(ts),
                        max + zeros < usize::MAX,
                        current == max + unnumbered(ts.take(k as int)),
                        forall|a: int| 0 <= a < k ==> #[trigger] views(records@)[a] == migrated(ts)[a],
                        forall|a: int| k <= a < n ==> #[trigger] views(records@)[a] == ts[a],
                    decreases n - k,
                {
                    proof {
                        lemma_take_step(ts, k as int);
                        lemma_unnumbered_mono(ts, k + 1, n as int);
                        assert(ts.take(n as int) =~= ts);
                        lemma_views_update(records@, k as int);
                        assert(views(records@)[k as int] == ts[k as int]);
                    }
                    if records[k].get_id() == 0 {
                        current = current + 1;
                        records[k].set_id(current);
                    }
                    k = k + 1;
                }
                proof {
                    assert(views(records@) =~= migrated(ts));
                    lemma_migrated_ok(ts);
                }
                self.tasks = records;
                self.next_available_id = max + zeros + 1;
                Ok(())
            },
        }
    }
}

} // verus!
