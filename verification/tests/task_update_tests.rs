use ideavault::codec::{decode_tasks, encode_tasks};
use ideavault::ops::{update_task, TaskUpdateArgs};
use ideavault::task::{Task, TaskPriority, TaskStatus};

fn store_and_reload(tasks: &Vec<Task>) -> Vec<Task> {
    decode_tasks(encode_tasks(tasks).as_str()).unwrap()
}

#[test]
fn task_update_title() {
    let task = Task::new("Original Title".to_string());
    let id = task.id;
    let mut tasks = store_and_reload(&vec![task]);

    let args = TaskUpdateArgs {
        id,
        title: Some("New Title".to_string()),
        description: None,
        priority: None,
        due_date: None,
        status: None,
        tags: None,
        clear: vec![],
    };

    update_task(&mut tasks, &args).unwrap();

    let tasks = store_and_reload(&tasks);
    let updated = tasks.iter().find(|t| t.id == id).unwrap();
    assert_eq!(updated.title, "New Title");
}

#[test]
fn task_update_description() {
    let task = Task::new("Test".to_string());
    let id = task.id;
    let mut tasks = store_and_reload(&vec![task]);

    let args = TaskUpdateArgs {
        id,
        title: None,
        description: Some("New description".to_string()),
        priority: None,
        due_date: None,
        status: None,
        tags: None,
        clear: vec![],
    };

    update_task(&mut tasks, &args).unwrap();

    let tasks = store_and_reload(&tasks);
    let updated = tasks.iter().find(|t| t.id == id).unwrap();
    assert_eq!(updated.description, Some("New description".to_string()));
}

#[test]
fn task_update_priority() {
    let task = Task::new("Test".to_string());
    let id = task.id;
    let mut tasks = store_and_reload(&vec![task]);

    let args = TaskUpdateArgs {
        id,
        title: None,
        description: None,
        priority: Some(TaskPriority::High),
        due_date: None,
        status: None,
        tags: None,
        clear: vec![],
    };

    update_task(&mut tasks, &args).unwrap();

    let tasks = store_and_reload(&tasks);
    let updated = tasks.iter().find(|t| t.id == id).unwrap();
    assert_eq!(updated.priority, TaskPriority::High);
}

#[test]
fn task_update_due_date() {
    let task = Task::new("Test".to_string());
    let id = task.id;
    let mut tasks = store_and_reload(&vec![task]);

    let args = TaskUpdateArgs {
        id,
        title: None,
        description: None,
        priority: None,
        due_date: Some("2024-12-31".to_string()),
        status: None,
        tags: None,
        clear: vec![],
    };

    update_task(&mut tasks, &args).unwrap();

    let tasks = store_and_reload(&tasks);
    let updated = tasks.iter().find(|t| t.id == id).unwrap();
    assert!(updated.due_date.is_some());
    assert_eq!(
        ideavault::dates::format_date(updated.due_date.unwrap()),
        "2024-12-31"
    );
}

#[test]
fn task_update_status() {
    let task = Task::new("Test".to_string());
    let id = task.id;
    let mut tasks = store_and_reload(&vec![task]);

    let args = TaskUpdateArgs {
        id,
        title: None,
        description: None,
        priority: None,
        due_date: None,
        status: Some(TaskStatus::InProgress),
        tags: None,
        clear: vec![],
    };

    update_task(&mut tasks, &args).unwrap();

    let tasks = store_and_reload(&tasks);
    let updated = tasks.iter().find(|t| t.id == id).unwrap();
    assert_eq!(updated.status, TaskStatus::InProgress);
}

#[test]
fn task_update_tags() {
    let task =
        Task::new("Test".to_string()).with_tags(vec!["old1".to_string(), "old2".to_string()]);
    let id = task.id;
    let mut tasks = store_and_reload(&vec![task]);

    let args = TaskUpdateArgs {
        id,
        title: None,
        description: None,
        priority: None,
        due_date: None,
        status: None,
        tags: Some(vec!["new1".to_string(), "new2".to_string()]),
        clear: vec![],
    };

    update_task(&mut tasks, &args).unwrap();

    let tasks = store_and_reload(&tasks);
    let updated = tasks.iter().find(|t| t.id == id).unwrap();
    assert_eq!(updated.tags, vec!["new1", "new2"]);
}

#[test]
fn task_update_multiple_fields() {
    let task = Task::new("Original".to_string());
    let id = task.id;
    let mut tasks = store_and_reload(&vec![task]);

    let args = TaskUpdateArgs {
        id,
        title: Some("New Title".to_string()),
        description: Some("New description".to_string()),
        priority: Some(TaskPriority::Urgent),
        due_date: None,
        status: Some(TaskStatus::Done),
        tags: None,
        clear: vec![],
    };

    update_task(&mut tasks, &args).unwrap();

    let tasks = store_and_reload(&tasks);
    let updated = tasks.iter().find(|t| t.id == id).unwrap();
    assert_eq!(updated.title, "New Title");
    assert_eq!(updated.description, Some("New description".to_string()));
    assert_eq!(updated.priority, TaskPriority::Urgent);
    assert_eq!(updated.status, TaskStatus::Done);
}

#[test]
fn task_update_clear_due_date() {
    let task = Task::new("Test".to_string());
    let id = task.id;
    let mut tasks = store_and_reload(&vec![task]);

    // First set a due date
    let args_set_due = TaskUpdateArgs {
        id,
        title: None,
        description: None,
        priority: None,
        due_date: Some("2024-12-31".to_string()),
        status: None,
        tags: None,
        clear: vec![],
    };
    update_task(&mut tasks, &args_set_due).unwrap();

    // Now clear it
    let args_clear_due = TaskUpdateArgs {
        id,
        title: None,
        description: None,
        priority: None,
        due_date: None,
        status: None,
        tags: None,
        clear: vec!["due_date".to_string()],
    };
    update_task(&mut tasks, &args_clear_due).unwrap();

    let tasks = store_and_reload(&tasks);
    let updated = tasks.iter().find(|t| t.id == id).unwrap();
    assert!(updated.due_date.is_none());
}

#[test]
fn task_update_clear_description() {
    let task = Task::new("Test".to_string()).with_description("Has description".to_string());
    let id = task.id;
    let mut tasks = store_and_reload(&vec![task]);

    let args = TaskUpdateArgs {
        id,
        title: None,
        description: None,
        priority: None,
        due_date: None,
        status: None,
        tags: None,
        clear: vec!["description".to_string()],
    };

    update_task(&mut tasks, &args).unwrap();

    let tasks = store_and_reload(&tasks);
    let updated = tasks.iter().find(|t| t.id == id).unwrap();
    assert!(updated.description.is_none());
}

#[test]
fn task_update_clear_tags() {
    let task =
        Task::new("Test".to_string()).with_tags(vec!["tag1".to_string(), "tag2".to_string()]);
    let id = task.id;
    let mut tasks = store_and_reload(&vec![task]);

    let args = TaskUpdateArgs {
        id,
        title: None,
        description: None,
        priority: None,
        due_date: None,
        status: None,
        tags: None,
        clear: vec!["tags".to_string()],
    };

    update_task(&mut tasks, &args).unwrap();

    let tasks = store_and_reload(&tasks);
    let updated = tasks.iter().find(|t| t.id == id).unwrap();
    assert!(updated.tags.is_empty());
}

#[test]
fn task_update_clear_due_date_via_value() {
    let task = Task::new("Test".to_string());
    let id = task.id;
    let mut tasks = store_and_reload(&vec![task]);

    let args = TaskUpdateArgs {
        id,
        title: None,
        description: None,
        priority: None,
        due_date: Some("clear".to_string()),
        status: None,
        tags: None,
        clear: vec![],
    };

    update_task(&mut tasks, &args).unwrap();

    let tasks = store_and_reload(&tasks);
    let updated = tasks.iter().find(|t| t.id == id).unwrap();
    assert!(updated.due_date.is_none());
}

#[test]
fn task_update_no_changes() {
    let task = Task::new("Test".to_string());
    let id = task.id;
    let mut tasks = store_and_reload(&vec![task]);

    let args = TaskUpdateArgs {
        id,
        title: None,
        description: None,
        priority: None,
        due_date: None,
        status: None,
        tags: None,
        clear: vec![],
    };

    // Should succeed and leave the record untouched
    update_task(&mut tasks, &args).unwrap();
}

#[test]
fn task_update_invalid_id() {
    let mut tasks: Vec<Task> = Vec::new();

    let args = TaskUpdateArgs {
        id: uuid::Uuid::new_v4().as_u128(),
        title: Some("New Title".to_string()),
        description: None,
        priority: None,
        due_date: None,
        status: None,
        tags: None,
        clear: vec![],
    };

    let result = update_task(&mut tasks, &args);
    assert!(result.is_err());
}

#[test]
fn task_update_invalid_clear_field() {
    let task = Task::new("Test".to_string());
    let id = task.id;
    let mut tasks = store_and_reload(&vec![task]);

    let args = TaskUpdateArgs {
        id,
        title: None,
        description: None,
        priority: None,
        due_date: None,
        status: None,
        tags: None,
        clear: vec!["invalid_field".to_string()],
    };

    let result = update_task(&mut tasks, &args);
    assert!(result.is_err());
}

#[test]
fn task_update_invalid_date_format() {
    let task = Task::new("Test".to_string());
    let id = task.id;
    let mut tasks = store_and_reload(&vec![task]);

    let args = TaskUpdateArgs {
        id,
        title: None,
        description: None,
        priority: None,
        due_date: Some("invalid-date".to_string()),
        status: None,
        tags: None,
        clear: vec![],
    };

    let result = update_task(&mut tasks, &args);
    assert!(result.is_err());
}
