use todo_solana_program::codec::{decode_user_tasks, encode_user_tasks};
use todo_solana_program::error::TodoError;
use todo_solana_program::instruction::TodoInstruction;
use todo_solana_program::processor::{apply_instruction, process_account_data};
use todo_solana_program::state::{Task, TaskStatus, UserTasks};

const KEY: [u8; 32] = [7u8; 32];

fn task(id: u64, title: &str, description: &str) -> Task {
    Task {
        id,
        title: title.to_string(),
        description: description.to_string(),
        status: TaskStatus::Pending,
        completed: false,
        initializer: KEY,
    }
}

fn account(tasks: Vec<Task>, next_task_id: u64) -> Vec<u8> {
    encode_user_tasks(&UserTasks { tasks, next_task_id }).unwrap()
}

fn create_ix(title: &str, description: &str) -> Vec<u8> {
    borsh::to_vec(&(0u8, title.to_string(), description.to_string())).unwrap()
}

fn update_ix(id: u64, title: Option<&str>, description: Option<&str>) -> Vec<u8> {
    borsh::to_vec(&(1u8, id, title.map(|s| s.to_string()), description.map(|s| s.to_string()))).unwrap()
}

fn delete_ix(id: u64) -> Vec<u8> {
    borsh::to_vec(&(2u8, id)).unwrap()
}

fn toggle_ix(id: u64) -> Vec<u8> {
    borsh::to_vec(&(3u8, id)).unwrap()
}

#[test]
fn test_create_task() {
    let data = account(vec![], 1);
    let title = "Test Task".to_string();
    let description = "This is a test task.".to_string();
    let result = process_account_data(&data, &create_ix(&title, &description), KEY);
    assert!(result.is_ok());
    let user_tasks = decode_user_tasks(&result.unwrap()).unwrap();
    assert_eq!(user_tasks.tasks.len(), 1);
    assert_eq!(user_tasks.tasks[0].title, title);
    assert_eq!(user_tasks.tasks[0].status, TaskStatus::Pending);
}

#[test]
fn test_update_task() {
    let data = account(vec![task(1, "Old Task", "Old description")], 2);
    let result = process_account_data(&data, &update_ix(1, Some("Updated Task"), Some("Updated description")), KEY);
    assert!(result.is_ok());
    let user_tasks = decode_user_tasks(&result.unwrap()).unwrap();
    assert_eq!(user_tasks.tasks[0].title, "Updated Task");
    assert_eq!(user_tasks.tasks[0].description, "Updated description");
}

#[test]
fn test_delete_task() {
    let data = account(vec![task(1, "Task to delete", "Description")], 2);
    let result = process_account_data(&data, &delete_ix(1), KEY);
    assert!(result.is_ok());
    let user_tasks = decode_user_tasks(&result.unwrap()).unwrap();
    assert!(user_tasks.tasks.is_empty());
}

#[test]
fn test_task_not_found() {
    let data = account(vec![], 1);
    let result = process_account_data(&data, &update_ix(1, None, None), KEY);
    assert!(result.is_err());
    assert_eq!(result.unwrap_err(), TodoError::TaskNotFound);
}

#[test]
fn test_task_already_exists() {
    let data = account(vec![task(1, "Existing Task", "Description")], 1);
    let result = process_account_data(&data, &create_ix("Existing Task", "Another description"), KEY);
    assert!(result.is_err());
    assert_eq!(result.unwrap_err(), TodoError::TaskAlreadyExists);
}

#[test]
fn task_processor_test_create_update_delete_task() {
    let mut task_list = UserTasks { tasks: vec![], next_task_id: 1 };
    let create = TodoInstruction::CreateTask {
        title: "New Task".to_string(),
        description: "Task description".to_string(),
    };
    apply_instruction(&mut task_list, create, KEY).unwrap();
    assert_eq!(task_list.tasks.len(), 1);

    let update = TodoInstruction::UpdateTask {
        id: 1,
        title: Some("Updated Task".to_string()),
        description: Some("Updated description".to_string()),
    };
    apply_instruction(&mut task_list, update, KEY).unwrap();
    assert_eq!(task_list.tasks[0].title, "Updated Task");

    apply_instruction(&mut task_list, TodoInstruction::DeleteTask { id: 1 }, KEY).unwrap();
    assert_eq!(task_list.tasks.len(), 0);
}

#[test]
fn tests_test_create_update_delete_task() {
    let mut task_list = UserTasks { tasks: vec![], next_task_id: 1 };
    let id = task_list.next_task_id;
    task_list.add_task(task(id, "New Task", "Task description"));
    assert_eq!(task_list.tasks.len(), 1);

    let title = Some("Updated Task".to_string());
    let description: Option<String> = None;
    let current = task_list.get_task(1).unwrap();
    let updated = Task {
        id: 1,
        title: title.unwrap_or_else(|| current.title.clone()),
        description: description.unwrap_or_else(|| current.description.clone()),
        status: TaskStatus::Pending,
        completed: false,
        initializer: KEY,
    };
    assert!(task_list.update_task(1, updated));
    assert_eq!(task_list.tasks[0].title, "Updated Task");

    assert!(task_list.delete_task(1));
    assert_eq!(task_list.tasks.len(), 0);
}
