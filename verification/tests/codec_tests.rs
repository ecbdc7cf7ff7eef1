use ideavault::codec::{
    decode_ideas, decode_projects, decode_tags, decode_tasks, encode_ideas, encode_projects,
    encode_tags, encode_tasks,
};
use ideavault::dates::{format_date, parse_date};
use ideavault::idea::{Idea, IdeaStatus};
use ideavault::project::{Project, ProjectStatus};
use ideavault::tag::Tag;
use ideavault::task::{Task, TaskPriority, TaskStatus};

#[test]
fn test_projects_and_tags_storage() {
    let projects = decode_projects("[]").unwrap();
    let initial_count = projects.len();

    let project =
        Project::new("Test Project".to_string()).with_description("A test project".to_string());
    let mut all_projects = projects;
    all_projects.push(project);
    let saved = encode_projects(&all_projects);

    let loaded_projects = decode_projects(saved.as_str()).unwrap();
    assert_eq!(loaded_projects.len(), initial_count + 1);
    assert!(loaded_projects.iter().any(|p| p.title == "Test Project"));

    let tags = decode_tags("[]").unwrap();
    let initial_tags_count = tags.len();

    let tag = Tag::new("test-tag".to_string()).with_color("#ff0000".to_string());
    let mut all_tags = tags;
    all_tags.push(tag);
    let saved_tags = encode_tags(&all_tags);

    let loaded_tags = decode_tags(saved_tags.as_str()).unwrap();
    assert_eq!(loaded_tags.len(), initial_tags_count + 1);
    assert!(loaded_tags.iter().any(|t| t.name == "test-tag"));
}

#[test]
fn empty_collections_round_trip() {
    assert!(decode_ideas(encode_ideas(&vec![]).as_str()).unwrap().is_empty());
    assert!(decode_projects(encode_projects(&vec![]).as_str()).unwrap().is_empty());
    assert!(decode_tags(encode_tags(&vec![]).as_str()).unwrap().is_empty());
    assert!(decode_tasks(encode_tasks(&vec![]).as_str()).unwrap().is_empty());
    assert_eq!(encode_ideas(&vec![]), "[]");
}

#[test]
fn idea_round_trip_keeps_fields() {
    let idea = Idea::new("A \"quoted\" title \\ with specials\nand a newline".to_string())
        .with_description("line one\nline two\ttabbed".to_string())
        .with_tags(vec!["alpha".to_string(), "be\"ta".to_string()])
        .with_status(IdeaStatus::Archived);
    let id = idea.id;
    let created = idea.created_at;
    let updated = idea.updated_at;
    let title = idea.title.clone();
    let description = idea.description.clone();
    let tags = idea.tags.clone();

    let doc = encode_ideas(&vec![idea]);
    let loaded = decode_ideas(doc.as_str()).unwrap();
    assert_eq!(loaded.len(), 1);
    assert_eq!(loaded[0].id, id);
    assert_eq!(loaded[0].title, title);
    assert_eq!(loaded[0].description, description);
    assert_eq!(loaded[0].tags, tags);
    assert_eq!(loaded[0].status, IdeaStatus::Archived);
    assert_eq!(loaded[0].created_at, created);
    assert_eq!(loaded[0].updated_at, updated);

    // Saving the loaded collection reproduces the document exactly.
    assert_eq!(encode_ideas(&loaded), doc);
}

#[test]
fn project_round_trip_keeps_fields() {
    let linked = uuid::Uuid::new_v4().as_u128();
    let other = uuid::Uuid::new_v4().as_u128();
    let mut project = Project::new("P".to_string())
        .with_description("d".to_string())
        .with_milestone("m1".to_string())
        .with_url("https://example.com".to_string())
        .with_status(ProjectStatus::OnHold);
    project.add_idea(linked);
    project.add_idea(other);
    let id = project.id;
    let bare = Project::new("Q".to_string());
    let bare_id = bare.id;

    let doc = encode_projects(&vec![project, bare]);
    let loaded = decode_projects(doc.as_str()).unwrap();
    assert_eq!(loaded.len(), 2);
    assert_eq!(loaded[0].id, id);
    assert_eq!(loaded[0].milestone, Some("m1".to_string()));
    assert_eq!(loaded[0].url, Some("https://example.com".to_string()));
    assert_eq!(loaded[0].repo, None);
    assert_eq!(loaded[0].status, ProjectStatus::OnHold);
    assert_eq!(loaded[0].idea_ids, vec![linked, other]);
    assert_eq!(loaded[1].id, bare_id);
    assert_eq!(loaded[1].idea_ids, Vec::<u128>::new());

    assert_eq!(encode_projects(&loaded), doc);
}

#[test]
fn task_round_trip_keeps_fields() {
    let pid = uuid::Uuid::new_v4().as_u128();
    let task = Task::new("T".to_string())
        .with_priority(TaskPriority::Low)
        .with_status(TaskStatus::Blocked)
        .with_due_date(-86400000)
        .with_project(pid)
        .with_tags(vec!["ctx".to_string()]);
    let id = task.id;

    let doc = encode_tasks(&vec![task]);
    let loaded = decode_tasks(doc.as_str()).unwrap();
    assert_eq!(loaded.len(), 1);
    assert_eq!(loaded[0].id, id);
    assert_eq!(loaded[0].priority, TaskPriority::Low);
    assert_eq!(loaded[0].status, TaskStatus::Blocked);
    assert_eq!(loaded[0].due_date, Some(-86400000));
    assert_eq!(loaded[0].project_id, Some(pid));
    assert_eq!(loaded[0].idea_id, None);
    assert_eq!(loaded[0].tags, vec!["ctx"]);

    assert_eq!(encode_tasks(&loaded), doc);
}

#[test]
fn tag_round_trip_keeps_fields() {
    let tags = vec![
        Tag::new("plain".to_string()),
        Tag::new("with \"quote\"".to_string()).with_color("#00ff00".to_string()),
    ];
    let doc = encode_tags(&tags);
    let loaded = decode_tags(doc.as_str()).unwrap();
    assert_eq!(loaded.len(), 2);
    assert_eq!(loaded[0].name, "plain");
    assert_eq!(loaded[0].color, None);
    assert_eq!(loaded[1].name, "with \"quote\"");
    assert_eq!(loaded[1].color, Some("#00ff00".to_string()));
    assert_eq!(encode_tags(&loaded), doc);
}

#[test]
fn malformed_documents_are_rejected() {
    assert!(decode_tags("not json").is_err());
    assert!(decode_ideas("[").is_err());
    assert!(decode_tasks("{}").is_err());
    assert!(decode_projects("[\n  {\"id\": \"zz\"}\n]").is_err());
}

#[test]
fn date_parsing_accepts_documented_formats() {
    assert_eq!(parse_date("2024-12-31").unwrap(), 1735603200000);
    assert_eq!(parse_date("2024/12/31").unwrap(), 1735603200000);
    assert_eq!(parse_date("12/31/2024").unwrap(), 1735603200000);
    assert_eq!(
        parse_date("2024-12-31 13:45:30").unwrap(),
        1735603200000 + (13 * 3600 + 45 * 60 + 30) * 1000
    );
    assert_eq!(parse_date("1970-01-01").unwrap(), 0);
    assert_eq!(parse_date("1969-12-31").unwrap(), -86400000);
    assert_eq!(parse_date("2024-02-29").unwrap(), 1709164800000);
}

#[test]
fn date_parsing_rejects_bad_input() {
    assert!(parse_date("invalid-date").is_err());
    assert!(parse_date("2024-13-01").is_err());
    assert!(parse_date("2024-02-30").is_err());
    assert!(parse_date("2023-02-29").is_err());
    assert!(parse_date("2024-12-31 25:00:00").is_err());
    assert!(parse_date("").is_err());
}

#[test]
fn date_formatting_inverts_parsing() {
    for s in ["2024-12-31", "1970-01-01", "2000-02-29", "1969-07-20", "0001-01-01"] {
        let ms = parse_date(s).unwrap();
        assert_eq!(format_date(ms), s);
    }
}
