use code_vault::snippet::Snippet;
use code_vault::store::get_sample_snippets;
use code_vault::store::Store;

fn snippet(id: &str, title: &str, language: &str) -> Snippet {
    Snippet {
        id: id.to_string(),
        title: title.to_string(),
        language: language.to_string(),
        code: format!("// {} body", title),
        description: None,
        tags: Vec::new(),
        created_at: "2024-01-01".to_string(),
        updated_at: "2024-01-01".to_string(),
        is_favorite: false,
    }
}

#[test]
fn create_then_find() {
    let mut store = Store::new();
    store.create(snippet("7", "Seven", "rust"));
    let found = store.find("7").expect("created snippet is found");
    assert_eq!(found.title, "Seven");
    assert!(store.find("8").is_none());
}

#[test]
fn delete_makes_find_fail() {
    let mut store = Store::from_snippets(get_sample_snippets());
    assert!(store.find("2").is_some());
    store.delete("2");
    assert!(store.find("2").is_none());
    assert_eq!(store.len(), 2);
}

#[test]
fn delete_absent_id_changes_nothing() {
    let mut store = Store::from_snippets(get_sample_snippets());
    store.delete("does-not-exist");
    assert_eq!(store.len(), 3);
    assert_eq!(store.find("1").unwrap().title, "Hello World in Rust");
    assert_eq!(store.find("2").unwrap().title, "JavaScript For Loop");
    assert_eq!(store.find("3").unwrap().title, "Python List Comprehension");
}

#[test]
fn delete_removes_every_match_and_keeps_order() {
    let mut store = Store::new();
    store.create(snippet("a", "First", "rust"));
    store.create(snippet("dup", "Second", "go"));
    store.create(snippet("b", "Third", "c"));
    store.create(snippet("dup", "Fourth", "go"));
    store.delete("dup");
    assert_eq!(store.len(), 2);
    assert_eq!(store.snippets[0].title, "First");
    assert_eq!(store.snippets[1].title, "Third");
}

#[test]
fn toggle_favorite_twice_restores_flag() {
    let mut store = Store::from_snippets(get_sample_snippets());
    let before = store.find("2").unwrap().is_favorite;
    store.toggle_favorite("2");
    assert_eq!(store.find("2").unwrap().is_favorite, !before);
    store.toggle_favorite("2");
    assert_eq!(store.find("2").unwrap().is_favorite, before);
}

#[test]
fn toggle_favorite_absent_id_changes_nothing() {
    let mut store = Store::from_snippets(get_sample_snippets());
    store.toggle_favorite("nope");
    assert_eq!(store.len(), 3);
    assert!(store.find("1").unwrap().is_favorite);
    assert!(!store.find("2").unwrap().is_favorite);
}

#[test]
fn update_replaces_record_in_place() {
    let mut store = Store::from_snippets(get_sample_snippets());
    let mut replacement = snippet("2", "Renamed", "typescript");
    replacement.is_favorite = true;
    store.update("2", replacement);
    assert_eq!(store.len(), 3);
    assert_eq!(store.snippets[1].title, "Renamed");
    assert_eq!(store.snippets[1].language, "typescript");
    assert!(store.snippets[1].is_favorite);
}

#[test]
fn update_absent_id_changes_nothing() {
    let mut store = Store::from_snippets(get_sample_snippets());
    store.update("missing", snippet("missing", "Ghost", "rust"));
    assert_eq!(store.len(), 3);
    assert!(store.find("missing").is_none());
}

#[test]
fn sample_snippets_seed() {
    let seed = get_sample_snippets();
    assert_eq!(seed.len(), 3);
    assert_eq!(seed[0].id, "1");
    assert_eq!(seed[0].language, "rust");
    assert!(seed[0].is_favorite);
    assert_eq!(seed[1].id, "2");
    assert_eq!(seed[1].language, "javascript");
    assert!(!seed[1].is_favorite);
    assert_eq!(seed[2].id, "3");
    assert_eq!(seed[2].language, "python");
    assert_eq!(seed[2].tags, vec!["python", "list-comprehension", "functional"]);
}
