use ideavault::idea::{Idea, IdeaStatus};
use ideavault::project::Project;
use ideavault::search::{EntityType, SearchEngine, SearchFilters};
use ideavault::tag::Tag;

fn engine_with(ideas: Vec<Idea>, projects: Vec<Project>, tags: Vec<Tag>) -> SearchEngine {
    SearchEngine::new(ideas, projects, tags)
}

#[test]
fn title_scores_exact_prefix_substring() {
    let engine = engine_with(vec![Idea::new("Test".to_string())], vec![], vec![]);
    let results = engine.search("Test", &SearchFilters::default());
    assert_eq!(results.len(), 1);
    assert_eq!(results[0].relevance_score, 100);

    let engine = engine_with(vec![Idea::new("Testing".to_string())], vec![], vec![]);
    let results = engine.search("te", &SearchFilters::default());
    assert_eq!(results.len(), 1);
    assert_eq!(results[0].relevance_score, 80);

    let results = engine.search("est", &SearchFilters::default());
    assert_eq!(results.len(), 1);
    assert_eq!(results[0].relevance_score, 60);
}

#[test]
fn scores_accumulate_across_fields() {
    let idea = Idea::new("Widget".to_string())
        .with_description("a test widget".to_string())
        .with_tags(vec!["test".to_string()]);
    let engine = engine_with(vec![idea], vec![], vec![]);
    let results = engine.search("test", &SearchFilters::default());
    assert_eq!(results.len(), 1);
    assert_eq!(results[0].relevance_score, 60);
    assert_eq!(results[0].snippet, Some("a test widget".to_string()));
}

#[test]
fn every_matching_tag_adds_twenty() {
    let idea = Idea::new("Widget".to_string())
        .with_tags(vec!["test-a".to_string(), "test-b".to_string(), "other".to_string()]);
    let engine = engine_with(vec![idea], vec![], vec![]);
    let results = engine.search("test", &SearchFilters::default());
    assert_eq!(results.len(), 1);
    assert_eq!(results[0].relevance_score, 40);
    assert_eq!(results[0].snippet, Some("Tag: test-a".to_string()));
}

#[test]
fn milestone_adds_thirty() {
    let project = Project::new("Widget".to_string()).with_milestone("ship test build".to_string());
    let engine = engine_with(vec![], vec![project], vec![]);
    let results = engine.search("test", &SearchFilters::default());
    assert_eq!(results.len(), 1);
    assert_eq!(results[0].relevance_score, 30);
    assert_eq!(results[0].snippet, Some("Milestone: ship test build".to_string()));
}

#[test]
fn tag_entities_use_name_rule() {
    let engine = engine_with(
        vec![],
        vec![],
        vec![
            Tag::new("rust".to_string()),
            Tag::new("rustacean".to_string()),
            Tag::new("ferrous".to_string()),
        ],
    );
    let results = engine.search("rust", &SearchFilters::default());
    assert_eq!(results.len(), 2);
    assert_eq!(results[0].relevance_score, 100);
    assert_eq!(results[0].title, "rust");
    assert_eq!(results[0].id, "tag");
    assert_eq!(results[0].snippet, Some("Tag: rust".to_string()));
    assert_eq!(results[1].relevance_score, 80);
    assert_eq!(results[1].title, "rustacean");
}

#[test]
fn empty_query_matches_nothing() {
    let engine = engine_with(
        vec![Idea::new("Anything".to_string())],
        vec![Project::new("Something".to_string())],
        vec![Tag::new("everything".to_string())],
    );
    let results = engine.search("", &SearchFilters::default());
    assert!(results.is_empty());
}

#[test]
fn tag_filter_requires_every_term() {
    let mut filters = SearchFilters::default();
    filters.tags_filter = vec!["a".to_string(), "b".to_string()];

    let failing = Idea::new("match me".to_string())
        .with_tags(vec!["alpha".to_string(), "zz".to_string()]);
    let engine = engine_with(vec![failing], vec![], vec![]);
    let results = engine.search("match", &filters);
    assert!(results.iter().all(|r| r.entity_type != EntityType::Idea));

    let passing = Idea::new("match me".to_string())
        .with_tags(vec!["alpha".to_string(), "beta".to_string()]);
    let engine = engine_with(vec![passing], vec![], vec![]);
    let results = engine.search("match", &filters);
    assert_eq!(
        results
            .iter()
            .filter(|r| r.entity_type == EntityType::Idea)
            .count(),
        1
    );
}

#[test]
fn tag_entities_require_every_filter_term() {
    let mut filters = SearchFilters::default();
    filters.tags_filter = vec!["ru".to_string(), "st".to_string()];
    let engine = engine_with(
        vec![],
        vec![],
        vec![Tag::new("rust".to_string()), Tag::new("ruby".to_string())],
    );
    // "rust" contains both terms; "ruby" lacks "st", so only one tag passes.
    let results = engine.search("ru", &filters);
    assert_eq!(results.len(), 1);
    assert_eq!(results[0].title, "rust");
}

#[test]
fn kind_restriction_excludes_other_kinds() {
    let idea = Idea::new("launch plan".to_string());
    let project = Project::new("launch pad".to_string());
    let tag = Tag::new("launch".to_string());
    let engine = engine_with(vec![idea], vec![project], vec![tag]);

    let mut filters = SearchFilters::default();
    filters.entity_types = vec![EntityType::Project];
    let results = engine.search("launch", &filters);
    assert!(!results.is_empty());
    for r in &results {
        assert_eq!(r.entity_type, EntityType::Project);
    }
}

#[test]
fn status_filter_is_substring_of_status_name() {
    let mut active = Idea::new("match one".to_string());
    active.set_status(IdeaStatus::Active);
    let brainstorming = Idea::new("match two".to_string());
    let engine = engine_with(vec![active, brainstorming], vec![], vec![]);

    let mut filters = SearchFilters::default();
    filters.status_filter = Some("act".to_string());
    let results = engine.search("match", &filters);
    assert_eq!(results.len(), 1);
    assert_eq!(results[0].title, "match one");
}

#[test]
fn date_filters_bound_creation() {
    let idea = Idea::new("match me".to_string());
    let created = idea.created_at;
    let engine = engine_with(vec![idea], vec![], vec![]);

    let mut filters = SearchFilters::default();
    filters.date_from = Some(created + 1);
    assert!(engine.search("match", &filters).is_empty());

    let mut filters = SearchFilters::default();
    filters.date_to = Some(created - 1);
    assert!(engine.search("match", &filters).is_empty());

    let mut filters = SearchFilters::default();
    filters.date_from = Some(created);
    filters.date_to = Some(created);
    assert_eq!(engine.search("match", &filters).len(), 1);
}

#[test]
fn end_to_end_launch_search() {
    let idea = Idea::new("Ship the launch".to_string());
    let idea_id = idea.id;
    let mut project = Project::new("Launch Week".to_string());
    project.add_idea(idea_id);
    let engine = engine_with(vec![idea], vec![project], vec![]);

    let results = engine.search("launch", &SearchFilters::default());
    assert_eq!(results.len(), 2);
    // "Launch Week" begins with the query, so the project outranks the
    // idea, whose title merely contains it.
    assert_eq!(results[0].title, "Launch Week");
    assert_eq!(results[0].relevance_score, 80);
    assert_eq!(results[1].title, "Ship the launch");
    assert_eq!(results[1].relevance_score, 60);
}

#[test]
fn equal_scores_keep_scan_order() {
    // Both titles merely contain the query, so both score 60; ideas are
    // scanned before projects, so the idea comes first.
    let idea = Idea::new("My Launch Pad".to_string());
    let project = Project::new("The Launch Week".to_string());
    let engine = engine_with(vec![idea], vec![project], vec![]);

    let results = engine.search("launch", &SearchFilters::default());
    assert_eq!(results.len(), 2);
    assert_eq!(results[0].relevance_score, 60);
    assert_eq!(results[1].relevance_score, 60);
    assert_eq!(results[0].entity_type, EntityType::Idea);
    assert_eq!(results[1].entity_type, EntityType::Project);
}

#[test]
fn results_are_sorted_by_score() {
    let exact = Idea::new("query".to_string());
    let prefix = Idea::new("queryish".to_string());
    let substring = Idea::new("a query inside".to_string());
    let engine = engine_with(vec![substring, exact, prefix], vec![], vec![]);
    let results = engine.search("query", &SearchFilters::default());
    assert_eq!(results.len(), 3);
    assert_eq!(results[0].relevance_score, 100);
    assert_eq!(results[1].relevance_score, 80);
    assert_eq!(results[2].relevance_score, 60);
}

#[test]
fn snippet_gets_ellipsis_when_window_is_clipped() {
    let long_prefix = "x".repeat(60);
    let text = format!("{} needle here", long_prefix);
    let idea = Idea::new("nothing".to_string()).with_description(text);
    let engine = engine_with(vec![idea], vec![], vec![]);
    let results = engine.search("needle", &SearchFilters::default());
    assert_eq!(results.len(), 1);
    let snippet = results[0].snippet.clone().unwrap();
    assert!(snippet.starts_with("..."));
    assert!(snippet.contains("needle"));
}

#[test]
fn truncate_string_appends_ellipsis() {
    assert_eq!(ideavault::search::truncate_string("short", 30), "short");
    assert_eq!(ideavault::search::truncate_string("abcdefghij", 8), "abcde...");
}
