use todo_solana_program::codec::{decode_instruction, decode_user_tasks, encode_user_tasks};
use todo_solana_program::error::TodoError;
use todo_solana_program::instruction::TodoInstruction;
use todo_solana_program::processor::process_account_data;
use todo_solana_program::state::{Task, TaskStatus, UserTasks};
use todo_solana_program::user::User;

fn key(b: u8) -> [u8; 32] {
    [b; 32]
}

fn task(id: u64, title: &str, description: &str, completed: bool) -> Task {
    Task {
        id,
        title: title.to_string(),
        description: description.to_string(),
        status: TaskStatus::InProgress,
        completed,
        initializer: key(3),
    }
}

fn sample() -> UserTasks {
    UserTasks {
        tasks: vec![task(1, "a", "first", false), task(4, "héllo", "", true), task(9, "c", "third", false)],
        next_task_id: 10,
    }
}

#[test]
fn create_with_fresh_id_appends_one_pending_task() {
    let mut u = sample();
    let r = u.create_task("t".to_string(), "d".to_string(), key(5));
    assert_eq!(r, Ok(10));
    assert_eq!(u.tasks.len(), 4);
    let t = &u.tasks[3];
    assert_eq!((t.id, t.title.as_str(), t.description.as_str()), (10, "t", "d"));
    assert_eq!(t.status, TaskStatus::Pending);
    assert!(!t.completed);
    assert_eq!(t.initializer, key(5));
    assert_eq!(u.next_task_id, 11);
}

#[test]
fn create_with_taken_id_fails_and_changes_nothing() {
    let mut u = sample();
    u.next_task_id = 4;
    let r = u.create_task("t".to_string(), "d".to_string(), key(5));
    assert_eq!(r, Err(TodoError::TaskAlreadyExists));
    let mut expected = sample();
    expected.next_task_id = 4;
    assert_eq!(u, expected);
}

#[test]
fn counter_stays_at_largest_id() {
    let mut u = UserTasks { tasks: vec![], next_task_id: u64::MAX };
    assert_eq!(u.create_task("x".to_string(), "y".to_string(), key(1)), Ok(u64::MAX));
    assert_eq!(u.next_task_id, u64::MAX);
    assert_eq!(
        u.create_task("x".to_string(), "y".to_string(), key(1)),
        Err(TodoError::TaskAlreadyExists)
    );
}

#[test]
fn update_changes_only_supplied_fields() {
    let mut u = sample();
    assert_eq!(u.edit_task(4, None, Some("new".to_string())), Ok(()));
    assert_eq!(u.tasks[1].title, "héllo");
    assert_eq!(u.tasks[1].description, "new");
    assert!(u.tasks[1].completed);
    assert_eq!(u.tasks[0], sample().tasks[0]);
    assert_eq!(u.tasks[2], sample().tasks[2]);
    assert_eq!(u.edit_task(4, Some("T".to_string()), None), Ok(()));
    assert_eq!(u.tasks[1].title, "T");
    assert_eq!(u.tasks[1].description, "new");
}

#[test]
fn update_absent_id_fails_and_changes_nothing() {
    let mut u = sample();
    assert_eq!(u.edit_task(5, Some("x".to_string()), None), Err(TodoError::TaskNotFound));
    assert_eq!(u, sample());
}

#[test]
fn delete_removes_exactly_that_entry() {
    let mut u = sample();
    assert!(u.delete_task(4));
    let ids: Vec<u64> = u.tasks.iter().map(|t| t.id).collect();
    assert_eq!(ids, vec![1, 9]);
    assert!(!u.delete_task(4));
    assert_eq!(u.tasks.len(), 2);
}

#[test]
fn toggle_flips_and_twice_restores() {
    let mut u = sample();
    assert_eq!(u.toggle_task(9), Ok(()));
    assert!(u.tasks[2].completed);
    assert_eq!(u.toggle_task(9), Ok(()));
    assert_eq!(u, sample());
    assert_eq!(u.toggle_task(2), Err(TodoError::TaskNotFound));
}

#[test]
fn encoding_matches_borsh_layout() {
    let u = sample();
    let as_tuples: Vec<(u64, String, String, u8, bool, [u8; 32])> = u
        .tasks
        .iter()
        .map(|t| (t.id, t.title.clone(), t.description.clone(), 1u8, t.completed, t.initializer))
        .collect();
    let expected = borsh::to_vec(&(as_tuples, u.next_task_id)).unwrap();
    assert_eq!(encode_user_tasks(&u).unwrap(), expected);
}

#[test]
fn empty_list_encoding() {
    let u = UserTasks { tasks: vec![], next_task_id: 1 };
    assert_eq!(encode_user_tasks(&u).unwrap(), vec![0, 0, 0, 0, 1, 0, 0, 0, 0, 0, 0, 0]);
}

#[test]
fn decode_then_encode_gives_same_bytes() {
    let bytes = encode_user_tasks(&sample()).unwrap();
    let decoded = decode_user_tasks(&bytes).unwrap();
    assert_eq!(decoded, sample());
    assert_eq!(encode_user_tasks(&decoded).unwrap(), bytes);
}

#[test]
fn decode_rejects_bad_bytes() {
    let bytes = encode_user_tasks(&sample()).unwrap();
    let mut longer = bytes.clone();
    longer.push(0);
    assert!(decode_user_tasks(&longer).is_none());
    assert!(decode_user_tasks(&bytes[..bytes.len() - 1]).is_none());
    assert!(decode_user_tasks(&[]).is_none());
    let mut bad_bool = encode_user_tasks(&UserTasks { tasks: vec![task(1, "", "", false)], next_task_id: 2 }).unwrap();
    // count (4) + id (8) + two empty strings (8) + status (1): the completed byte
    bad_bool[21] = 2;
    assert!(decode_user_tasks(&bad_bool).is_none());
    let mut bad_utf8 = encode_user_tasks(&UserTasks { tasks: vec![task(1, "a", "", false)], next_task_id: 2 }).unwrap();
    bad_utf8[16] = 0xff;
    assert!(decode_user_tasks(&bad_utf8).is_none());
}

#[test]
fn decode_instructions() {
    assert_eq!(
        decode_instruction(&borsh::to_vec(&(0u8, "a".to_string(), "b".to_string())).unwrap()),
        Some(TodoInstruction::CreateTask { title: "a".to_string(), description: "b".to_string() })
    );
    assert_eq!(
        decode_instruction(&borsh::to_vec(&(1u8, 5u64, Some("x".to_string()), None::<String>)).unwrap()),
        Some(TodoInstruction::UpdateTask { id: 5, title: Some("x".to_string()), description: None })
    );
    assert_eq!(decode_instruction(&[2, 9, 0, 0, 0, 0, 0, 0, 0]), Some(TodoInstruction::DeleteTask { id: 9 }));
    assert_eq!(decode_instruction(&[3, 1, 1, 0, 0, 0, 0, 0, 0]), Some(TodoInstruction::ToggleTask { id: 257 }));
    assert_eq!(decode_instruction(&[4, 1, 0, 0, 0, 0, 0, 0, 0]), None);
    assert_eq!(decode_instruction(&[2, 1, 0, 0, 0, 0, 0, 0]), None);
    assert_eq!(decode_instruction(&[2, 1, 0, 0, 0, 0, 0, 0, 0, 0]), None);
    assert_eq!(decode_instruction(&[]), None);
}

#[test]
fn get_id_of_each_instruction() {
    let c = TodoInstruction::CreateTask { title: String::new(), description: String::new() };
    assert_eq!(c.get_id(), None);
    assert_eq!(TodoInstruction::UpdateTask { id: 3, title: None, description: None }.get_id(), Some(3));
    assert_eq!(TodoInstruction::DeleteTask { id: 4 }.get_id(), Some(4));
    assert_eq!(TodoInstruction::ToggleTask { id: 5 }.get_id(), Some(5));
}

#[test]
fn process_reports_each_error() {
    let good = encode_user_tasks(&sample()).unwrap();
    assert_eq!(process_account_data(&[1, 2], &[2, 1, 0, 0, 0, 0, 0, 0, 0], key(0)), Err(TodoError::ProcessingError));
    assert_eq!(process_account_data(&good, &[9], key(0)), Err(TodoError::InvalidInstruction));
    assert_eq!(process_account_data(&good, &[3, 2, 0, 0, 0, 0, 0, 0, 0], key(0)), Err(TodoError::TaskNotFound));
    let toggled = process_account_data(&good, &[3, 1, 0, 0, 0, 0, 0, 0, 0], key(0)).unwrap();
    let u = decode_user_tasks(&toggled).unwrap();
    assert!(u.tasks[0].completed);
}

#[test]
fn user_add_remove_update() {
    let mut user = User { id: 1, username: "ann".to_string(), tasks: vec![] };
    assert!(user.add_task(task(1, "a", "", false)).is_ok());
    assert!(user.add_task(task(2, "b", "", false)).is_ok());
    assert_eq!(user.add_task(task(1, "dup", "", false)), Err("Task with the same ID already exists".to_string()));
    assert_eq!(user.tasks.len(), 2);
    assert!(user.update_task(2, task(2, "B", "", true)).is_ok());
    assert_eq!(user.tasks[1].title, "B");
    assert!(user.update_task(7, task(7, "x", "", true)).is_err());
    assert!(user.remove_task(1).is_ok());
    assert_eq!(user.tasks.len(), 1);
    assert_eq!(user.remove_task(1), Err("Task with the given ID does not exist".to_string()));
}

#[test]
fn user_remove_takes_every_entry_with_the_id() {
    let mut user = User { id: 1, username: String::new(), tasks: vec![task(3, "a", "", false), task(4, "b", "", false), task(3, "c", "", false)] };
    assert!(user.remove_task(3).is_ok());
    assert_eq!(user.tasks.len(), 1);
    assert_eq!(user.tasks[0].id, 4);
}
