use crate::error::TodoError;
use crate::instruction::opt_str_view;
use vstd::prelude::*;

verus! {

/// Where a task stands in its life.
#[derive(Debug, Clone, Copy, PartialEq, Eq, Structural)]
pub enum TaskStatus {
    Pending,
    InProgress,
    Completed,
    Cancelled,
}

/// One to-do entry. `initializer` is the 32-byte public key of the account
/// that created it.
#[derive(Debug, Clone, PartialEq, Eq)]
pub struct Task {
    pub id: u64,
    pub title: String,
    pub description: String,
    pub status: TaskStatus,
    pub completed: bool,
    pub initializer: [u8; 32],
}

/// What a task holds, with its strings as character sequences.
pub struct TaskView {
    pub id: u64,
    pub title: Seq<char>,
    pub description: Seq<char>,
    pub status: TaskStatus,
    pub completed: bool,
    pub initializer: Seq<u8>,
}

impl View for Task {
    type V = TaskView;

    open spec fn view(&self) -> TaskView {
        TaskView {
            id: self.id,
            title: self.title@,
            description: self.description@,
            status: self.status,
            completed: self.completed,
            initializer: self.initializer@,
        }
    }
}

/// The payload of a task-list account: the tasks in order, and the id that
/// the next created task receives.
#[derive(Debug, PartialEq, Eq)]
pub struct UserTasks {
    pub tasks: Vec<Task>,
    pub next_task_id: u64,
}

pub struct UserTasksView {
    pub tasks: Seq<TaskView>,
    pub next_task_id: u64,
}

impl View for UserTasks {
    type V = UserTasksView;

    open spec fn view(&self) -> UserTasksView {
        UserTasksView { tasks: self.tasks@.map_values(|t: Task| t@), next_task_id: self.next_task_id }
    }
}

/// Some task of `ts` carries `id`.
pub open spec fn has_id(ts: Seq<TaskView>, id: u64) -> bool {
    exists|i: int| 0 <= i < ts.len() && ts[i].id == id
}

/// `i` is the position of the first task of `ts` that carries `id`.
pub open spec fn is_first_index(ts: Seq<TaskView>, id: u64, i: int) -> bool {
    &&& 0 <= i < ts.len()
    &&& ts[i].id == id
    &&& forall|j: int| 0 <= j < i ==> ts[j].id != id
}

/// The position of the first task that carries `id` (meaningful when
/// `has_id(ts, id)`; `lemma_first_index` shows that it is then well defined).
pub open spec fn first_index(ts: Seq<TaskView>, id: u64) -> int {
    choose|i: int| is_first_index(ts, id, i)
}

/// No two tasks of `ts` share an id.
pub open spec fn ids_unique(ts: Seq<TaskView>) -> bool {
    forall|i: int, j: int| 0 <= i < ts.len() && 0 <= j < ts.len() && i != j ==> ts[i].id != ts[j].id
}

/// A freshly created task: pending and not completed.
pub open spec fn new_task(id: u64, title: Seq<char>, description: Seq<char>, initializer: Seq<u8>) -> TaskView {
    TaskView {
        id,
        title,
        description,
        status: TaskStatus::Pending,
        completed: false,
        initializer,
    }
}

/// `t` with the supplied fields replaced and the others kept.
pub open spec fn edited(t: TaskView, title: Option<Seq<char>>, description: Option<Seq<char>>) -> TaskView {
    TaskView {
        title: match title {
            Some(s) => s,
            None => t.title,
        },
        description: match description {
            Some(s) => s,
            None => t.description,
        },
        ..t
    }
}

/// `t` with `completed` flipped.
pub open spec fn toggled(t: TaskView) -> TaskView {
    TaskView { completed: !t.completed, ..t }
}

/// `ts` with the first task carrying `id` edited.
pub open spec fn edit_at(ts: Seq<TaskView>, id: u64, title: Option<Seq<char>>, description: Option<Seq<char>>) -> Seq<TaskView> {
    ts.update(first_index(ts, id), edited(ts[first_index(ts, id)], title, description))
}

/// `ts` with the first task carrying `id` toggled.
pub open spec fn toggle_at(ts: Seq<TaskView>, id: u64) -> Seq<TaskView> {
    ts.update(first_index(ts, id), toggled(ts[first_index(ts, id)]))
}

/// `ts` without the first task carrying `id`.
pub open spec fn delete_at(ts: Seq<TaskView>, id: u64) -> Seq<TaskView> {
    ts.remove(first_index(ts, id))
}

/// The counter after one more task: one up, held at the largest `u64`.
pub open spec fn bumped(n: u64) -> u64 {
    if n < u64::MAX { (n + 1) as u64 } else { n }
}

impl UserTasks {
    /// Position of the first task carrying `task_id`, if any.
    fn find_index(&self, task_id: u64) -> (r: Option<usize>)
        ensures
            match r {
                Some(i) => is_first_index(self@.tasks, task_id, i as int),
                None => !has_id(self@.tasks, task_id),
            },
    {
        let mut i: usize = 0;
        while i < self.tasks.len()
            invariant
                0 <= i <= self.tasks@.len(),
                forall|j: int| 0 <= j < i ==> self@.tasks[j].id != task_id,
            decreases self.tasks@.len() - i,
        {
            if self.tasks[i].id == task_id {
                return Some(i);
            }
            i += 1;
        }
        None
    }

    /// Appends `task` and moves the id counter on by one (held at the
    /// largest `u64`). No check on the id is made here: see `create_task`.
    pub fn add_task(&mut self, task: Task)
        ensures
            final(self)@.tasks == old(self)@.tasks.push(task@),
            final(self)@.next_task_id == bumped(old(self)@.next_task_id),
    {
        self.tasks.push(task);
        if self.next_task_id < u64::MAX {
            self.next_task_id = self.next_task_id + 1;
        }
        proof {
            assert(self@.tasks =~= old(self)@.tasks.push(task@));
        }
    }

    /// The first task carrying `task_id`, if any.
    pub fn get_task(&self, task_id: u64) -> (r: Option<&Task>)
        ensures
            r is Some <==> has_id(self@.tasks, task_id),
            r matches Some(t) ==> t@ == self@.tasks[first_index(self@.tasks, task_id)],
    {
        match self.find_index(task_id) {
            Some(i) => Some(&self.tasks[i]),
            None => None,
        }
    }

    /// Replaces the first task carrying `task_id` by `updated_task`; `false`,
    /// with nothing changed, when no task carries it.
    pub fn update_task(&mut self, task_id: u64, updated_task: Task) -> (r: bool)
        ensures
            r == has_id(old(self)@.tasks, task_id),
            r ==> final(self)@.tasks == old(self)@.tasks.update(
                first_index(old(self)@.tasks, task_id),
                updated_task@,
            ),
            !r ==> final(self)@ == old(self)@,
            final(self)@.next_task_id == old(self)@.next_task_id,
    {
        match self.find_index(task_id) {
            Some(i) => {
                self.tasks.set(i, updated_task);
                proof {
                    assert(self@.tasks =~= old(self)@.tasks.update(i as int, updated_task@));
                }
                true
            },
            None => false,
        }
    }

    /// Removes the first task carrying `task_id`; `false`, with nothing
    /// changed, when no task carries it.
    pub fn delete_task(&mut self, task_id: u64) -> (r: bool)
        ensures
            r == has_id(old(self)@.tasks, task_id),
            r ==> final(self)@.tasks == delete_at(old(self)@.tasks, task_id),
            !r ==> final(self)@ == old(self)@,
            final(self)@.next_task_id == old(self)@.next_task_id,
    {
        match self.find_index(task_id) {
            Some(i) => {
                self.tasks.remove(i);
                proof {
                    assert(self@.tasks =~= old(self)@.tasks.remove(i as int));
                }
                true
            },
            None => false,
        }
    }

    /// Creates a pending, not completed task with the id counter's value as
    /// its id, and returns that id. Fails with `TaskAlreadyExists`, changing
    /// nothing, when a task already carries that id.
    pub fn create_task(&mut self, title: String, description: String, initializer: [u8; 32]) -> (r: Result<u64, TodoError>)
        ensures
            !has_id(old(self)@.tasks, old(self)@.next_task_id) ==> {
                &&& r == Ok::<u64, TodoError>(old(self)@.next_task_id)
                &&& final(self)@.tasks == old(self)@.tasks.push(
                    new_task(old(self)@.next_task_id, title@, description@, initializer@),
                )
                &&& final(self)@.next_task_id == bumped(old(self)@.next_task_id)
            },
            has_id(old(self)@.tasks, old(self)@.next_task_id) ==> {
                &&& r == Err::<u64, TodoError>(TodoError::TaskAlreadyExists)
                &&& final(self)@ == old(self)@
            },
            ids_unique(old(self)@.tasks) ==> ids_unique(final(self)@.tasks),
    {
        let id = self.next_task_id;
        if self.find_index(id).is_some() {
            return Err(TodoError::TaskAlreadyExists);
        }
        let task = Task {
            id,
            title,
            description,
            status: TaskStatus::Pending,
            completed: false,
            initializer,
        };
        self.add_task(task);
        Ok(id)
    }

    /// Replaces the title and the description of the first task carrying
    /// `task_id` by those supplied, keeping the others. Fails with
    /// `TaskNotFound`, changing nothing, when no task carries the id.
    pub fn edit_task(&mut self, task_id: u64, title: Option<String>, description: Option<String>) -> (r: Result<(), TodoError>)
        ensures
            has_id(old(self)@.tasks, task_id) ==> {
                &&& r is Ok
                &&& final(self)@.tasks == edit_at(old(self)@.tasks, task_id, opt_str_view(title), opt_str_view(description))
                &&& final(self)@.next_task_id == old(self)@.next_task_id
            },
            !has_id(old(self)@.tasks, task_id) ==> {
                &&& r == Err::<(), TodoError>(TodoError::TaskNotFound)
                &&& final(self)@ == old(self)@
            },
            ids_unique(old(self)@.tasks) ==> ids_unique(final(self)@.tasks),
    {
        match self.find_index(task_id) {
            Some(i) => {
                if let Some(t) = title {
                    self.tasks[i].title = t;
                }
                if let Some(d) = description {
                    self.tasks[i].description = d;
                }
                proof {
                    let ts = old(self)@.tasks;
                    assert(self@.tasks =~= ts.update(
                        i as int,
                        edited(ts[i as int], opt_str_view(title), opt_str_view(description)),
                    ));
                }
                Ok(())
            },
            None => Err(TodoError::TaskNotFound),
        }
    }

    /// Flips `completed` on the first task carrying `task_id`. Fails with
    /// `TaskNotFound`, changing nothing, when no task carries the id.
    pub fn toggle_task(&mut self, task_id: u64) -> (r: Result<(), TodoError>)
        ensures
            has_id(old(self)@.tasks, task_id) ==> {
                &&& r is Ok
                &&& final(self)@.tasks == toggle_at(old(self)@.tasks, task_id)
                &&& final(self)@.next_task_id == old(self)@.next_task_id
            },
            !has_id(old(self)@.tasks, task_id) ==> {
                &&& r == Err::<(), TodoError>(TodoError::TaskNotFound)
                &&& final(self)@ == old(self)@
            },
            ids_unique(old(self)@.tasks) ==> ids_unique(final(self)@.tasks),
    {
        match self.find_index(task_id) {
            Some(i) => {
                let c = self.tasks[i].completed;
                self.tasks[i].completed = !c;
                proof {
                    let ts = old(self)@.tasks;
                    assert(self@.tasks =~= ts.update(i as int, toggled(ts[i as int])));
                }
                Ok(())
            },
            None => Err(TodoError::TaskNotFound),
        }
    }
}

/// A list that holds `id` at `k` has a first position holding it.
pub proof fn lemma_first_index(ts: Seq<TaskView>, id: u64, k: int)
    requires
        0 <= k < ts.len(),
        ts[k].id == id,
    ensures
        is_first_index(ts, id, first_index(ts, id)),
    decreases k,
{
    if exists|j: int| 0 <= j < k && ts[j].id == id {
        let j = choose|j: int| 0 <= j < k && ts[j].id == id;
        lemma_first_index(ts, id, j);
    } else {
        assert(is_first_index(ts, id, k));
    }
}

/// Toggling the same present id twice gives back the list it started from.
pub proof fn lemma_toggle_twice(ts: Seq<TaskView>, id: u64)
    requires
        has_id(ts, id),
    ensures
        has_id(toggle_at(ts, id), id),
        toggle_at(toggle_at(ts, id), id) == ts,
{
    let k = choose|k: int| 0 <= k < ts.len() && ts[k].id == id;
    lemma_first_index(ts, id, k);
    let i = first_index(ts, id);
    let once = toggle_at(ts, id);
    assert(is_first_index(once, id, i));
    lemma_first_index(once, id, i);
    let i2 = first_index(once, id);
    assert(i2 == i) by {
        if i2 < i {
            assert(once[i2].id == ts[i2].id);
        }
    }
    assert(toggle_at(once, id) =~= ts);
}

/// In a list whose ids are unique, deleting a present id takes out that task
/// and no other: the list is one shorter, the id is gone, and every other id
/// is still there.
pub proof fn lemma_delete_exact(ts: Seq<TaskView>, id: u64)
    requires
        ids_unique(ts),
        has_id(ts, id),
    ensures
        delete_at(ts, id).len() == ts.len() - 1,
        !has_id(delete_at(ts, id), id),
        ids_unique(delete_at(ts, id)),
        forall|other: u64| other != id ==> (has_id(delete_at(ts, id), other) <==> has_id(ts, other)),
{
    let k = choose|k: int| 0 <= k < ts.len() && ts[k].id == id;
    lemma_first_index(ts, id, k);
    let i = first_index(ts, id);
    let d = delete_at(ts, id);
    assert forall|j: int| 0 <= j < d.len() implies d[j].id != id by {
        if j < i {
            assert(d[j] == ts[j]);
        } else {
            assert(d[j] == ts[j + 1]);
        }
    }
    assert forall|other: u64| other != id implies (has_id(d, other) <==> has_id(ts, other)) by {
        if has_id(ts, other) {
            let m = choose|m: int| 0 <= m < ts.len() && ts[m].id == other;
            if m < i {
                assert(d[m].id == other);
            } else {
                assert(m != i);
                assert(d[m - 1].id == other);
            }
        }
        if has_id(d, other) {
            let m = choose|m: int| 0 <= m < d.len() && d[m].id == other;
            if m < i {
                assert(ts[m].id == other);
            } else {
                assert(ts[m + 1].id == other);
            }
        }
    }
    assert forall|a: int, b: int| 0 <= a < d.len() && 0 <= b < d.len() && a != b implies d[a].id != d[b].id by {
        let a2 = if a < i { a } else { a + 1 };
        let b2 = if b < i { b } else { b + 1 };
        assert(d[a] == ts[a2]);
        assert(d[b] == ts[b2]);
    }
}

} // verus!
