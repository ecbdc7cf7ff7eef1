use ideavault::edit::{
    apply_edited_idea, apply_edited_task, render_idea_markdown, render_task_markdown,
    split_lines, trim_ascii,
};
use ideavault::idea::{Idea, IdeaStatus};
use ideavault::task::{Task, TaskPriority, TaskStatus};

#[test]
fn split_lines_decomposes_on_newlines() {
    let parts = split_lines("a\nb\n\nc");
    assert_eq!(parts, vec!["a", "b", "", "c"]);
    assert_eq!(split_lines(""), vec![""]);
    assert_eq!(split_lines("no newline"), vec!["no newline"]);
}

#[test]
fn trim_strips_spaces_tabs_and_returns() {
    assert_eq!(trim_ascii("  hello \t"), "hello");
    assert_eq!(trim_ascii("\r\t \r"), "");
    assert_eq!(trim_ascii("solid"), "solid");
}

#[test]
fn idea_document_round_trips_through_editing() {
    let idea = Idea::new("My Title".to_string())
        .with_description("Body line".to_string())
        .with_tags(vec!["a".to_string(), "b".to_string()])
        .with_status(IdeaStatus::Active);
    let doc = render_idea_markdown(&idea);
    assert!(doc.starts_with("# My Title\n"));
    assert!(doc.contains("Tags: a, b"));
    assert!(doc.contains("Status: Active"));

    let mut edited = Idea::new("placeholder".to_string());
    let created = edited.created_at;
    let id = edited.id;
    apply_edited_idea(&mut edited, &split_lines(&doc));
    assert_eq!(edited.title, "My Title");
    assert_eq!(edited.description, Some("Body line".to_string()));
    assert_eq!(edited.tags, vec!["a", "b"]);
    assert_eq!(edited.status, IdeaStatus::Active);
    assert_eq!(edited.id, id);
    assert_eq!(edited.created_at, created);
    assert!(edited.updated_at >= edited.created_at);
}

#[test]
fn edited_idea_fields_are_parsed_from_lines() {
    let mut idea = Idea::new("Old".to_string()).with_tags(vec!["old".to_string()]);
    let content = "# New Title\n\nfirst line\nsecond line\n\nTags: x, y\n\nStatus: archived\n";
    apply_edited_idea(&mut idea, &split_lines(content));
    assert_eq!(idea.title, "New Title");
    assert_eq!(idea.description, Some("first line\nsecond line".to_string()));
    assert_eq!(idea.tags, vec!["x", "y"]);
    assert_eq!(idea.status, IdeaStatus::Archived);
}

#[test]
fn empty_tags_line_clears_the_tags() {
    let mut idea = Idea::new("T".to_string()).with_tags(vec!["a".to_string()]);
    apply_edited_idea(&mut idea, &split_lines("# T\n\nTags: \n"));
    assert!(idea.tags.is_empty());
}

#[test]
fn unparseable_status_is_ignored() {
    let mut idea = Idea::new("T".to_string()).with_status(IdeaStatus::Active);
    apply_edited_idea(&mut idea, &split_lines("# T\n\nStatus: bogus\n"));
    assert_eq!(idea.status, IdeaStatus::Active);
}

#[test]
fn task_document_round_trips_through_editing() {
    let task = Task::new("Fix bug".to_string())
        .with_description("Steps here".to_string())
        .with_priority(TaskPriority::High)
        .with_status(TaskStatus::Blocked)
        .with_tags(vec!["work".to_string()]);
    let doc = render_task_markdown(&task);
    assert!(doc.contains("Priority: High"));
    assert!(doc.contains("Status: Blocked"));

    let mut edited = Task::new("placeholder".to_string());
    apply_edited_task(&mut edited, &split_lines(&doc));
    assert_eq!(edited.title, "Fix bug");
    assert_eq!(edited.description, Some("Steps here".to_string()));
    assert_eq!(edited.priority, TaskPriority::High);
    assert_eq!(edited.status, TaskStatus::Blocked);
    assert_eq!(edited.tags, vec!["work"]);
    assert!(edited.updated_at >= edited.created_at);
}
