use ideavault::idea::{Idea, IdeaStatus};
use ideavault::project::{Project, ProjectStatus};
use ideavault::tag::Tag;
use ideavault::task::{Task, TaskPriority, TaskStatus};

#[test]
fn test_idea_creation() {
    let idea = Idea::new("Test Idea".to_string())
        .with_description("Test Description".to_string())
        .with_tags(vec!["test".to_string(), "rust".to_string()]);

    assert_eq!(idea.title, "Test Idea");
    assert_eq!(idea.description, Some("Test Description".to_string()));
    assert_eq!(idea.tags, vec!["test", "rust"]);
    assert_eq!(idea.status, IdeaStatus::Brainstorming);
    assert!(!ideavault::id_string(idea.id).is_empty());
}

#[test]
fn test_idea_status_update() {
    let mut idea = Idea::new("Test Idea".to_string());
    idea.set_status(IdeaStatus::Active);
    assert_eq!(idea.status, IdeaStatus::Active);

    idea.set_status(IdeaStatus::Completed);
    assert_eq!(idea.status, IdeaStatus::Completed);
}

#[test]
fn test_project_creation() {
    let project = Project::new("Test Project".to_string())
        .with_description("Test Description".to_string())
        .with_milestone("v1.0".to_string());

    assert_eq!(project.title, "Test Project");
    assert_eq!(project.description, Some("Test Description".to_string()));
    assert_eq!(project.milestone, Some("v1.0".to_string()));
    assert_eq!(project.status, ProjectStatus::Planning);
    assert!(project.idea_ids.is_empty());
}

#[test]
fn test_project_link_idea() {
    let mut project = Project::new("Test Project".to_string());
    let idea_id = uuid::Uuid::new_v4().as_u128();

    project.add_idea(idea_id);
    assert_eq!(project.idea_ids.len(), 1);
    assert!(project.idea_ids.contains(&idea_id));

    project.remove_idea(idea_id);
    assert!(project.idea_ids.is_empty());
}

#[test]
fn test_tag_creation() {
    let tag = Tag::new("rust".to_string());
    assert_eq!(tag.name, "rust");
    assert_eq!(tag.color, None);

    let colored_tag = Tag::new("cli".to_string()).with_color("blue".to_string());
    assert_eq!(colored_tag.name, "cli");
    assert_eq!(colored_tag.color, Some("blue".to_string()));
}

#[test]
fn timestamps_never_precede_creation() {
    let mut idea = Idea::new("T".to_string());
    assert_eq!(idea.created_at, idea.updated_at);
    idea.set_status(IdeaStatus::Active);
    idea.update_title("U".to_string());
    idea.add_tag("a".to_string());
    idea.remove_tag("a");
    assert!(idea.updated_at >= idea.created_at);

    let mut task = Task::new("T".to_string());
    assert_eq!(task.created_at, task.updated_at);
    task.touch();
    assert!(task.updated_at >= task.created_at);
}

#[test]
fn updated_at_is_monotone() {
    let mut project = Project::new("P".to_string());
    let t0 = project.updated_at;
    project.set_status(ProjectStatus::InProgress);
    let t1 = project.updated_at;
    assert!(t1 >= t0);
    project.update_title("Q".to_string());
    assert!(project.updated_at >= t1);
}

#[test]
fn add_tag_is_idempotent() {
    let mut idea = Idea::new("T".to_string());
    idea.add_tag("x".to_string());
    let tags_before = idea.tags.clone();
    let stamp_before = idea.updated_at;
    idea.add_tag("x".to_string());
    assert_eq!(idea.tags, tags_before);
    assert_eq!(idea.updated_at, stamp_before);
    assert_eq!(idea.tags, vec!["x"]);
}

#[test]
fn remove_absent_tag_changes_nothing() {
    let mut idea = Idea::new("T".to_string()).with_tags(vec!["a".to_string()]);
    let stamp_before = idea.updated_at;
    idea.remove_tag("zz");
    assert_eq!(idea.tags, vec!["a"]);
    assert_eq!(idea.updated_at, stamp_before);
}

#[test]
fn task_builders_set_fields() {
    let pid = uuid::Uuid::new_v4().as_u128();
    let iid = uuid::Uuid::new_v4().as_u128();
    let task = Task::new("Do it".to_string())
        .with_description("details".to_string())
        .with_priority(TaskPriority::High)
        .with_status(TaskStatus::Blocked)
        .with_due_date(1735603200000)
        .with_project(pid)
        .with_idea(iid)
        .with_tags(vec!["home".to_string()]);
    assert_eq!(task.title, "Do it");
    assert_eq!(task.description, Some("details".to_string()));
    assert_eq!(task.priority, TaskPriority::High);
    assert_eq!(task.status, TaskStatus::Blocked);
    assert_eq!(task.due_date, Some(1735603200000));
    assert_eq!(task.project_id, Some(pid));
    assert_eq!(task.idea_id, Some(iid));
    assert_eq!(task.tags, vec!["home"]);
}

#[test]
fn status_parsing_accepts_aliases() {
    assert_eq!(TaskStatus::parse("ip"), Some(TaskStatus::InProgress));
    assert_eq!(TaskStatus::parse("X"), Some(TaskStatus::Done));
    assert_eq!(TaskStatus::parse("ToDo"), Some(TaskStatus::Todo));
    assert_eq!(TaskStatus::parse("nonsense"), None);
    assert_eq!(TaskPriority::parse("CRIT"), Some(TaskPriority::Urgent));
    assert_eq!(TaskPriority::parse("med"), Some(TaskPriority::Medium));
    assert_eq!(TaskPriority::parse(""), None);
    assert_eq!(IdeaStatus::parse("ARCHIVED"), Some(IdeaStatus::Archived));
    assert_eq!(IdeaStatus::parse("arch"), None);
    assert_eq!(ProjectStatus::parse("on-hold"), Some(ProjectStatus::OnHold));
    assert_eq!(ProjectStatus::parse("done"), Some(ProjectStatus::Completed));
}

#[test]
fn status_names_are_canonical() {
    assert_eq!(IdeaStatus::Brainstorming.name(), "Brainstorming");
    assert_eq!(ProjectStatus::InProgress.name(), "InProgress");
    assert_eq!(TaskStatus::Cancelled.name(), "Cancelled");
    assert_eq!(TaskPriority::Urgent.name(), "Urgent");
}

#[test]
fn id_text_is_hyphenated_hex() {
    let s = ideavault::id_string(0x00112233_4455_6677_8899_aabbccddeeffu128);
    assert_eq!(s, "00112233-4455-6677-8899-aabbccddeeff");
    let z = ideavault::id_string(0);
    assert_eq!(z, "00000000-0000-0000-0000-000000000000");
}

#[test]
fn config_paths_join_data_dir() {
    let c = ideavault::Config::new().with_data_dir("/tmp/vault".to_string());
    assert_eq!(c.ideas_file(), "/tmp/vault/ideas.json");
    assert_eq!(c.projects_file(), "/tmp/vault/projects.json");
    assert_eq!(c.tags_file(), "/tmp/vault/tags.json");
    assert_eq!(c.backup_dir(), "/tmp/vault/backups");
    assert_eq!(c.max_list_items, Some(50));
    assert!(c.backup.enabled);
}
