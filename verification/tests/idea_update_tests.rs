use ideavault::codec::{decode_ideas, encode_ideas};
use ideavault::idea::{Idea, IdeaStatus};
use ideavault::ops::{update_idea, IdeaUpdateArgs};

fn store_and_reload(ideas: &Vec<Idea>) -> Vec<Idea> {
    decode_ideas(encode_ideas(ideas).as_str()).unwrap()
}

#[test]
fn idea_update_title() {
    let idea = Idea::new("Original Title".to_string());
    let id = idea.id;
    let mut ideas = store_and_reload(&vec![idea]);

    let args = IdeaUpdateArgs {
        id,
        title: Some("New Title".to_string()),
        description: None,
        status: None,
        clear: vec![],
    };

    update_idea(&mut ideas, &args).unwrap();

    let ideas = store_and_reload(&ideas);
    let updated = ideas.iter().find(|i| i.id == id).unwrap();
    assert_eq!(updated.title, "New Title");
}

#[test]
fn idea_update_description() {
    let idea = Idea::new("Test".to_string());
    let id = idea.id;
    let mut ideas = store_and_reload(&vec![idea]);

    let args = IdeaUpdateArgs {
        id,
        title: None,
        description: Some("New description".to_string()),
        status: None,
        clear: vec![],
    };

    update_idea(&mut ideas, &args).unwrap();

    let ideas = store_and_reload(&ideas);
    let updated = ideas.iter().find(|i| i.id == id).unwrap();
    assert_eq!(updated.description, Some("New description".to_string()));
}

#[test]
fn idea_update_multiple_fields() {
    let idea = Idea::new("Original".to_string());
    let id = idea.id;
    let mut ideas = store_and_reload(&vec![idea]);

    let args = IdeaUpdateArgs {
        id,
        title: Some("New Title".to_string()),
        description: Some("New description".to_string()),
        status: Some(IdeaStatus::Active),
        clear: vec![],
    };

    update_idea(&mut ideas, &args).unwrap();

    let ideas = store_and_reload(&ideas);
    let updated = ideas.iter().find(|i| i.id == id).unwrap();
    assert_eq!(updated.title, "New Title");
    assert_eq!(updated.description, Some("New description".to_string()));
    assert_eq!(updated.status, IdeaStatus::Active);
}

#[test]
fn idea_update_clear_description() {
    let idea = Idea::new("Test".to_string()).with_description("Original description".to_string());
    let id = idea.id;
    let mut ideas = store_and_reload(&vec![idea]);

    let args = IdeaUpdateArgs {
        id,
        title: None,
        description: None,
        status: None,
        clear: vec!["description".to_string()],
    };

    update_idea(&mut ideas, &args).unwrap();

    let ideas = store_and_reload(&ideas);
    let updated = ideas.iter().find(|i| i.id == id).unwrap();
    assert_eq!(updated.description, None);
}

#[test]
fn idea_update_no_changes() {
    let idea = Idea::new("Test".to_string());
    let id = idea.id;
    let mut ideas = store_and_reload(&vec![idea]);

    let args = IdeaUpdateArgs {
        id,
        title: None,
        description: None,
        status: None,
        clear: vec![],
    };

    // Should succeed and leave the record untouched
    update_idea(&mut ideas, &args).unwrap();
}

#[test]
fn idea_update_invalid_id() {
    let mut ideas: Vec<Idea> = Vec::new();

    let args = IdeaUpdateArgs {
        id: uuid::Uuid::new_v4().as_u128(),
        title: Some("New Title".to_string()),
        description: None,
        status: None,
        clear: vec![],
    };

    let result = update_idea(&mut ideas, &args);
    assert!(result.is_err());
}

#[test]
fn idea_update_invalid_clear_field() {
    let idea = Idea::new("Test".to_string());
    let id = idea.id;
    let mut ideas = store_and_reload(&vec![idea]);

    let args = IdeaUpdateArgs {
        id,
        title: None,
        description: None,
        status: None,
        clear: vec!["invalid_field".to_string()],
    };

    let result = update_idea(&mut ideas, &args);
    assert!(result.is_err());
}

#[test]
fn idea_update_status() {
    let idea = Idea::new("Test".to_string());
    let id = idea.id;
    let mut ideas = store_and_reload(&vec![idea]);

    let args = IdeaUpdateArgs {
        id,
        title: None,
        description: None,
        status: Some(IdeaStatus::Completed),
        clear: vec![],
    };

    update_idea(&mut ideas, &args).unwrap();

    let ideas = store_and_reload(&ideas);
    let updated = ideas.iter().find(|i| i.id == id).unwrap();
    assert_eq!(updated.status, IdeaStatus::Completed);
}

#[test]
fn idea_update_mix_set_and_clear() {
    let idea = Idea::new("Test".to_string()).with_description("Old description".to_string());
    let id = idea.id;
    let mut ideas = store_and_reload(&vec![idea]);

    let args = IdeaUpdateArgs {
        id,
        title: Some("New Title".to_string()),
        description: None,
        status: None,
        clear: vec!["description".to_string()],
    };

    update_idea(&mut ideas, &args).unwrap();

    let ideas = store_and_reload(&ideas);
    let updated = ideas.iter().find(|i| i.id == id).unwrap();
    assert_eq!(updated.title, "New Title");
    assert_eq!(updated.description, None);
}
