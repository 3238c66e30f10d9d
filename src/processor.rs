//! One instruction applied to the bytes of a task-list account.
use crate::codec::{
    decode_instruction, decode_user_tasks, enc_user_tasks, encodable, encode_user_tasks, parse_instruction,
    parse_user_tasks,
};
use crate::error::TodoError;
use crate::instruction::{InstructionView, TodoInstruction};
use crate::state::{
    bumped, delete_at, edit_at, first_index, has_id, ids_unique, lemma_delete_exact, lemma_first_index, new_task,
    toggle_at, UserTasks, UserTasksView,
};
use vstd::prelude::*;

verus! {

/// What `i` makes of the list `u`; a creation gives the new task the key
/// `initializer`.
pub open spec fn apply_spec(u: UserTasksView, i: InstructionView, initializer: Seq<u8>) -> Result<UserTasksView, TodoError> {
    match i {
        InstructionView::CreateTask { title, description } => if has_id(u.tasks, u.next_task_id) {
            Err(TodoError::TaskAlreadyExists)
        } else {
            Ok(
                UserTasksView {
                    tasks: u.tasks.push(new_task(u.next_task_id, title, description, initializer)),
                    next_task_id: bumped(u.next_task_id),
                },
            )
        },
        InstructionView::UpdateTask { id, title, description } => if has_id(u.tasks, id) {
            Ok(UserTasksView { tasks: edit_at(u.tasks, id, title, description), ..u })
        } else {
            Err(TodoError::TaskNotFound)
        },
        InstructionView::DeleteTask { id } => if has_id(u.tasks, id) {
            Ok(UserTasksView { tasks: delete_at(u.tasks, id), ..u })
        } else {
            Err(TodoError::TaskNotFound)
        },
        InstructionView::ToggleTask { id } => if has_id(u.tasks, id) {
            Ok(UserTasksView { tasks: toggle_at(u.tasks, id), ..u })
        } else {
            Err(TodoError::TaskNotFound)
        },
    }
}

/// Applies `ix` to `tasks`. On failure `tasks` is left as it was.
pub fn apply_instruction(tasks: &mut UserTasks, ix: TodoInstruction, initializer: [u8; 32]) -> (r: Result<(), TodoError>)
    ensures
        match apply_spec(old(tasks)@, ix@, initializer@) {
            Ok(u) => r is Ok && final(tasks)@ == u,
            Err(e) => r == Err::<(), TodoError>(e) && final(tasks)@ == old(tasks)@,
        },
{
    match ix {
        TodoInstruction::CreateTask { title, description } => match tasks.create_task(title, description, initializer) {
            Ok(_) => Ok(()),
            Err(e) => Err(e),
        },
        TodoInstruction::UpdateTask { id, title, description } => tasks.edit_task(id, title, description),
        TodoInstruction::DeleteTask { id } => if tasks.delete_task(id) {
            Ok(())
        } else {
            Err(TodoError::TaskNotFound)
        },
        TodoInstruction::ToggleTask { id } => tasks.toggle_task(id),
    }
}

/// Applying an instruction keeps the ids of a list unique.
pub proof fn lemma_apply_keeps_ids_unique(u: UserTasksView, i: InstructionView, initializer: Seq<u8>)
    requires
        ids_unique(u.tasks),
        apply_spec(u, i, initializer) is Ok,
    ensures
        ids_unique(apply_spec(u, i, initializer)->Ok_0.tasks),
{
    let ts = u.tasks;
    match i {
        InstructionView::CreateTask { title, description } => {
            let after = ts.push(new_task(u.next_task_id, title, description, initializer));
            assert forall|a: int, b: int|
                0 <= a < after.len() && 0 <= b < after.len() && a != b implies after[a].id != after[b].id by {
                if a < ts.len() && b < ts.len() {
                    assert(after[a] == ts[a] && after[b] == ts[b]);
                } else if a < ts.len() {
                    assert(after[a] == ts[a]);
                } else {
                    assert(after[b] == ts[b]);
                }
            }
        },
        InstructionView::DeleteTask { id } => {
            lemma_delete_exact(ts, id);
        },
        InstructionView::UpdateTask { id, .. } => {
            let k = choose|k: int| 0 <= k < ts.len() && ts[k].id == id;
            lemma_first_index(ts, id, k);
            let after = apply_spec(u, i, initializer)->Ok_0.tasks;
            assert forall|j: int| 0 <= j < ts.len() implies after[j].id == ts[j].id by {
                assert(j == first_index(ts, id) || after[j] == ts[j]);
            }
        },
        InstructionView::ToggleTask { id } => {
            let k = choose|k: int| 0 <= k < ts.len() && ts[k].id == id;
            lemma_first_index(ts, id, k);
            let after = apply_spec(u, i, initializer)->Ok_0.tasks;
            assert forall|j: int| 0 <= j < ts.len() implies after[j].id == ts[j].id by {
                assert(j == first_index(ts, id) || after[j] == ts[j]);
            }
        },
    }
}

/// What one instruction makes of the account bytes: the bytes to write back,
/// or the error, in which case the account is to be left untouched.
pub open spec fn process_spec(account: Seq<u8>, instruction: Seq<u8>, initializer: Seq<u8>) -> Result<Seq<u8>, TodoError> {
    match parse_user_tasks(account) {
        None => Err(TodoError::ProcessingError),
        Some(u) => match parse_instruction(instruction) {
            None => Err(TodoError::InvalidInstruction),
            Some(i) => match apply_spec(u, i, initializer) {
                Err(e) => Err(e),
                Ok(u2) => if encodable(u2) {
                    Ok(enc_user_tasks(u2))
                } else {
                    Err(TodoError::ProcessingError)
                },
            },
        },
    }
}

/// Reads the task list from `account_data`, applies the instruction held by
/// `instruction_data`, and returns the list's new bytes. A created task gets
/// `initializer` as its key.
pub fn process_account_data(account_data: &[u8], instruction_data: &[u8], initializer: [u8; 32]) -> (r: Result<Vec<u8>, TodoError>)
    ensures
        match process_spec(account_data@, instruction_data@, initializer@) {
            Ok(b) => r matches Ok(v) && v@ == b,
            Err(e) => r == Err::<Vec<u8>, TodoError>(e),
        },
{
    let mut tasks = match decode_user_tasks(account_data) {
        Some(u) => u,
        None => return Err(TodoError::ProcessingError),
    };
    let ix = match decode_instruction(instruction_data) {
        Some(i) => i,
        None => return Err(TodoError::InvalidInstruction),
    };
    apply_instruction(&mut tasks, ix, initializer)?;
    match encode_user_tasks(&tasks) {
        Some(v) => Ok(v),
        None => Err(TodoError::ProcessingError),
    }
}

} // verus!
