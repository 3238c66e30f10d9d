//! A user record that keeps its own list of tasks.
use crate::state::{has_id, first_index, Task, TaskView};
use vstd::prelude::*;

verus! {

#[derive(Debug, PartialEq, Eq)]
pub struct User {
    pub id: u64,
    pub username: String,
    pub tasks: Vec<Task>,
}

/// What the tasks of a `Vec` hold.
pub open spec fn task_views(ts: Seq<Task>) -> Seq<TaskView> {
    ts.map_values(|t: Task| t@)
}

/// The task does not carry `id`.
pub open spec fn other_id(id: u64) -> spec_fn(TaskView) -> bool {
    |t: TaskView| t.id != id
}

impl User {
    /// Appends `task`; fails, changing nothing, when a task with its id is
    /// already there.
    pub fn add_task(&mut self, task: Task) -> (r: Result<(), String>)
        ensures
            r is Ok <==> !has_id(task_views(old(self).tasks@), task.id),
            r is Ok ==> task_views(final(self).tasks@) == task_views(old(self).tasks@).push(task@),
            r is Err ==> final(self).tasks@ == old(self).tasks@,
            final(self).id == old(self).id,
            final(self).username == old(self).username,
    {
        let mut i: usize = 0;
        while i < self.tasks.len()
            invariant
                0 <= i <= self.tasks@.len(),
                forall|j: int| 0 <= j < i ==> self.tasks@[j].id != task.id,
            decreases self.tasks@.len() - i,
        {
            if self.tasks[i].id == task.id {
                proof {
                    assert(task_views(self.tasks@)[i as int].id == task.id);
                }
                return Err("Task with the same ID already exists".to_string());
            }
            i += 1;
        }
        let ghost before = self.tasks@;
        self.tasks.push(task);
        proof {
            assert(task_views(self.tasks@) =~= task_views(before).push(task@));
        }
        Ok(())
    }

    /// Removes every task carrying `task_id`; fails, changing nothing, when
    /// there is none.
    pub fn remove_task(&mut self, task_id: u64) -> (r: Result<(), String>)
        ensures
            r is Ok <==> has_id(task_views(old(self).tasks@), task_id),
            r is Ok ==> task_views(final(self).tasks@) == task_views(old(self).tasks@).filter(other_id(task_id)),
            r is Err ==> final(self).tasks@ == old(self).tasks@,
            final(self).id == old(self).id,
            final(self).username == old(self).username,
    {
        let ghost orig = task_views(self.tasks@);
        let mut found = false;
        let mut i: usize = 0;
        let ghost mut k: int = 0;
        while i < self.tasks.len()
            invariant
                0 <= k <= orig.len(),
                orig == task_views(old(self).tasks@),
                task_views(self.tasks@) == orig.subrange(0, k).filter(other_id(task_id)) + orig.subrange(k, orig.len() as int),
                i == orig.subrange(0, k).filter(other_id(task_id)).len(),
                found == has_id(orig.subrange(0, k), task_id),
                !found ==> self.tasks@ == old(self).tasks@.subrange(0, k) + old(self).tasks@.subrange(k, orig.len() as int),
                self.id == old(self).id,
                self.username == old(self).username,
            decreases orig.len() - k,
        {
            let ghost pre = orig.subrange(0, k);
            proof {
                assert(orig.subrange(0, k + 1) =~= pre.push(orig[k]));
                pre.lemma_filter_push(orig[k], other_id(task_id));
                assert(task_views(self.tasks@)[i as int] == orig[k]);
            }
            if self.tasks[i].id == task_id {
                let ghost before = self.tasks@;
                self.tasks.remove(i);
                found = true;
                proof {
                    let f = pre.filter(other_id(task_id));
                    assert(orig[k].id == task_id);
                    assert(orig.subrange(0, k + 1)[k].id == task_id);
                    assert(!other_id(task_id)(orig[k]));
                    assert(orig.subrange(0, k + 1).filter(other_id(task_id)) == f);
                    assert(task_views(self.tasks@) =~= task_views(before).remove(i as int));
                    assert(task_views(before).remove(i as int) =~= f + orig.subrange(k + 1, orig.len() as int));
                }
            } else {
                i += 1;
                proof {
                    assert(task_views(self.tasks@) =~= orig.subrange(0, k + 1).filter(other_id(task_id))
                        + orig.subrange(k + 1, orig.len() as int));
                    let next = orig.subrange(0, k + 1);
                    if has_id(next, task_id) {
                        let j = choose|j: int| 0 <= j < next.len() && #[trigger] next[j].id == task_id;
                        assert(pre[j].id == task_id);
                    }
                }
            }
            proof {
                k = k + 1;
            }
        }
        proof {
            assert(orig.subrange(0, k) =~= orig);
            assert(orig.subrange(k, orig.len() as int) =~= Seq::<TaskView>::empty());
        }
        if found {
            Ok(())
        } else {
            proof {
                assert(self.tasks@ =~= old(self).tasks@);
            }
            Err("Task with the given ID does not exist".to_string())
        }
    }

    /// Replaces the first task carrying `task_id` by `updated_task`; fails,
    /// changing nothing, when there is none.
    pub fn update_task(&mut self, task_id: u64, updated_task: Task) -> (r: Result<(), String>)
        ensures
            r is Ok <==> has_id(task_views(old(self).tasks@), task_id),
            r is Ok ==> task_views(final(self).tasks@) == task_views(old(self).tasks@).update(
                first_index(task_views(old(self).tasks@), task_id),
                updated_task@,
            ),
            r is Err ==> final(self).tasks@ == old(self).tasks@,
            final(self).id == old(self).id,
            final(self).username == old(self).username,
    {
        let mut i: usize = 0;
        while i < self.tasks.len()
            invariant
                0 <= i <= self.tasks@.len(),
                self.tasks@ == old(self).tasks@,
                self.id == old(self).id,
                self.username == old(self).username,
                forall|j: int| 0 <= j < i ==> self.tasks@[j].id != task_id,
            decreases self.tasks@.len() - i,
        {
            if self.tasks[i].id == task_id {
                let ghost ts = task_views(self.tasks@);
                proof {
                    assert(crate::state::is_first_index(ts, task_id, i as int));
                }
                self.tasks.set(i, updated_task);
                proof {
                    assert(task_views(self.tasks@) =~= ts.update(i as int, updated_task@));
                }
                return Ok(());
            }
            i += 1;
        }
        Err("Task with the given ID does not exist".to_string())
    }
}

} // verus!
