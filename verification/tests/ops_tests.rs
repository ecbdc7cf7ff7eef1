use ideavault::idea::{Idea, IdeaStatus};
use ideavault::ops;
use ideavault::project::{Project, ProjectStatus};
use ideavault::task::{Task, TaskPriority, TaskStatus};

#[test]
fn link_requires_existing_idea_and_project() {
    let idea = Idea::new("I".to_string());
    let idea_id = idea.id;
    let ideas = vec![idea];
    let project = Project::new("P".to_string());
    let project_id = project.id;
    let mut projects = vec![project];

    let missing = uuid::Uuid::new_v4().as_u128();
    assert!(ops::link_idea(&mut projects, &ideas, project_id, missing).is_err());
    assert!(ops::link_idea(&mut projects, &ideas, missing, idea_id).is_err());

    assert_eq!(ops::link_idea(&mut projects, &ideas, project_id, idea_id).unwrap(), true);
    assert_eq!(projects[0].idea_ids, vec![idea_id]);
    // Linking again changes nothing.
    assert_eq!(ops::link_idea(&mut projects, &ideas, project_id, idea_id).unwrap(), false);
    assert_eq!(projects[0].idea_ids, vec![idea_id]);

    assert_eq!(ops::unlink_idea(&mut projects, project_id, idea_id).unwrap(), true);
    assert!(projects[0].idea_ids.is_empty());
    assert_eq!(ops::unlink_idea(&mut projects, project_id, idea_id).unwrap(), false);
}

#[test]
fn task_links_are_set_and_cleared() {
    let project = Project::new("P".to_string());
    let project_id = project.id;
    let projects = vec![project];
    let idea = Idea::new("I".to_string());
    let idea_id = idea.id;
    let ideas = vec![idea];
    let task = Task::new("T".to_string());
    let task_id = task.id;
    let mut tasks = vec![task];

    ops::link_task_project(&mut tasks, &projects, task_id, project_id).unwrap();
    assert_eq!(tasks[0].project_id, Some(project_id));
    ops::link_task_idea(&mut tasks, &ideas, task_id, idea_id).unwrap();
    assert_eq!(tasks[0].idea_id, Some(idea_id));

    assert_eq!(ops::unlink_task_project(&mut tasks, task_id).unwrap(), true);
    assert_eq!(tasks[0].project_id, None);
    assert_eq!(ops::unlink_task_project(&mut tasks, task_id).unwrap(), false);
    assert_eq!(ops::unlink_task_idea(&mut tasks, task_id).unwrap(), true);
    assert_eq!(tasks[0].idea_id, None);
}

#[test]
fn delete_removes_by_identity() {
    let a = Idea::new("A".to_string());
    let b = Idea::new("B".to_string());
    let b_id = b.id;
    let mut ideas = vec![a, b];
    let removed = ops::delete_idea(&mut ideas, b_id).unwrap();
    assert_eq!(removed.title, "B");
    assert_eq!(ideas.len(), 1);
    assert_eq!(ideas[0].title, "A");
    assert!(ops::delete_idea(&mut ideas, b_id).is_err());

    let p = Project::new("P".to_string());
    let p_id = p.id;
    let mut projects = vec![p];
    assert_eq!(ops::delete_project(&mut projects, p_id).unwrap().title, "P");

    let t = Task::new("T".to_string());
    let t_id = t.id;
    let mut tasks = vec![t];
    assert_eq!(ops::delete_task(&mut tasks, t_id).unwrap().title, "T");
}

#[test]
fn tag_idea_replaces_and_deduplicates() {
    let idea = Idea::new("I".to_string()).with_tags(vec!["old".to_string()]);
    let id = idea.id;
    let mut ideas = vec![idea];
    let new_tags = vec![
        "a".to_string(),
        "b".to_string(),
        "a".to_string(),
        "c".to_string(),
        "b".to_string(),
    ];
    ops::tag_idea(&mut ideas, id, &new_tags).unwrap();
    assert_eq!(ideas[0].tags, vec!["a", "b", "c"]);
}

#[test]
fn status_and_priority_setters_find_their_record() {
    let idea = Idea::new("I".to_string());
    let idea_id = idea.id;
    let mut ideas = vec![idea];
    ops::set_idea_status(&mut ideas, idea_id, IdeaStatus::Active).unwrap();
    assert_eq!(ideas[0].status, IdeaStatus::Active);

    let project = Project::new("P".to_string());
    let project_id = project.id;
    let mut projects = vec![project];
    ops::set_project_status(&mut projects, project_id, ProjectStatus::Completed).unwrap();
    assert_eq!(projects[0].status, ProjectStatus::Completed);

    let task = Task::new("T".to_string());
    let task_id = task.id;
    let mut tasks = vec![task];
    ops::set_task_status(&mut tasks, task_id, TaskStatus::Done).unwrap();
    assert_eq!(tasks[0].status, TaskStatus::Done);
    ops::set_task_priority(&mut tasks, task_id, TaskPriority::Urgent).unwrap();
    assert_eq!(tasks[0].priority, TaskPriority::Urgent);

    let missing = uuid::Uuid::new_v4().as_u128();
    assert!(ops::set_idea_status(&mut ideas, missing, IdeaStatus::Active).is_err());
}

#[test]
fn due_date_command_sets_and_clears() {
    let task = Task::new("T".to_string());
    let id = task.id;
    let mut tasks = vec![task];
    ops::update_due_date(&mut tasks, id, "2024-12-31").unwrap();
    assert_eq!(tasks[0].due_date, Some(1735603200000));
    ops::update_due_date(&mut tasks, id, "CLEAR").unwrap();
    assert_eq!(tasks[0].due_date, None);
    assert!(ops::update_due_date(&mut tasks, id, "garbage").is_err());
}

#[test]
fn list_filters_keep_matching_records() {
    let mut active = Idea::new("A".to_string()).with_tags(vec!["home".to_string()]);
    active.set_status(IdeaStatus::Active);
    let done = Idea::new("B".to_string()).with_status(IdeaStatus::Completed);
    let mut ideas = vec![active, done];
    ops::filter_ideas(&mut ideas, &Some(IdeaStatus::Active), &Some("home".to_string()));
    assert_eq!(ideas.len(), 1);
    assert_eq!(ideas[0].title, "A");

    let planning = Project::new("P1".to_string());
    let on_hold = Project::new("P2".to_string()).with_status(ProjectStatus::OnHold);
    let mut projects = vec![planning, on_hold];
    ops::filter_projects(&mut projects, &Some(ProjectStatus::OnHold));
    assert_eq!(projects.len(), 1);
    assert_eq!(projects[0].title, "P2");
}

#[test]
fn overdue_filter_checks_due_and_state() {
    let now = 1_000_000_000_000i64;
    let overdue = Task::new("late".to_string()).with_due_date(now - 1);
    let done_late = Task::new("done".to_string())
        .with_due_date(now - 1)
        .with_status(TaskStatus::Done);
    let future = Task::new("future".to_string()).with_due_date(now + 1);
    let undated = Task::new("none".to_string());
    let mut tasks = vec![overdue, done_late, future, undated];
    ops::filter_tasks(&mut tasks, &None, &None, &None, &None, &None, true, now);
    assert_eq!(tasks.len(), 1);
    assert_eq!(tasks[0].title, "late");
}
