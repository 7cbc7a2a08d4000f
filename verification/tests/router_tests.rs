use code_vault::router::AppState;
use code_vault::router::Event;
use code_vault::router::Screen;
use code_vault::snippet::edited_snippet;
use code_vault::snippet::new_snippet;
use code_vault::store::get_sample_snippets;
use code_vault::store::Store;

fn fresh_app() -> AppState {
    AppState::new(Store::from_snippets(get_sample_snippets()))
}

#[test]
fn initial_state_is_home() {
    let app = fresh_app();
    assert!(matches!(app.screen, Screen::Home));
    assert_eq!(app.search_query, "");
    assert_eq!(app.selected_language, "");
}

#[test]
fn add_flow_appends_and_returns_home() {
    let mut app = fresh_app();
    app.handle_event(Event::AddRequested);
    assert!(matches!(app.screen, Screen::Add));

    let draft = new_snippet(
        "10".to_string(),
        "Quick sort".to_string(),
        "go".to_string(),
        "func qsort() {}".to_string(),
        String::new(),
        "algorithm, go",
        "2024-02-01".to_string(),
    );
    app.handle_event(Event::SaveRequested(draft));
    assert!(matches!(app.screen, Screen::Home));
    assert_eq!(app.store.len(), 4);
    let created = app.store.find("10").expect("saved snippet is stored");
    assert_eq!(created.title, "Quick sort");
    assert_eq!(created.tags, vec!["algorithm", "go"]);
    assert_eq!(created.description, None);
    assert!(!created.is_favorite);
}

#[test]
fn cancel_discards_and_returns_home() {
    let mut app = fresh_app();
    app.handle_event(Event::AddRequested);
    app.handle_event(Event::CancelRequested);
    assert!(matches!(app.screen, Screen::Home));
    assert_eq!(app.store.len(), 3);
}

#[test]
fn edit_flow_updates_and_opens_detail() {
    let mut app = fresh_app();
    app.handle_event(Event::EditRequested("2".to_string()));
    assert!(matches!(&app.screen, Screen::Edit(id) if id == "2"));

    let original = app.store.find("2").unwrap();
    let revised = edited_snippet(
        original,
        "JS Loop".to_string(),
        original.language.clone(),
        original.code.clone(),
        "counts to ten".to_string(),
        "javascript, loop",
        "2024-02-02".to_string(),
    );
    app.handle_event(Event::SaveRequested(revised));
    assert!(matches!(&app.screen, Screen::Detail(id) if id == "2"));
    let stored = app.store.find("2").unwrap();
    assert_eq!(stored.title, "JS Loop");
    assert_eq!(stored.description, Some("counts to ten".to_string()));
    assert_eq!(app.store.len(), 3);
}

#[test]
fn edit_changing_only_description_keeps_id_and_created_at() {
    let created = new_snippet(
        "42".to_string(),
        "Binary search".to_string(),
        "rust".to_string(),
        "fn bsearch() {}".to_string(),
        String::new(),
        "search",
        "2024-03-01".to_string(),
    );
    assert_eq!(created.created_at, "2024-03-01");
    assert_eq!(created.updated_at, "2024-03-01");

    let revised = edited_snippet(
        &created,
        created.title.clone(),
        created.language.clone(),
        created.code.clone(),
        "halves the range each step".to_string(),
        "search",
        "2024-03-05".to_string(),
    );
    assert_eq!(revised.id, "42");
    assert_eq!(revised.created_at, "2024-03-01");
    assert_ne!(revised.updated_at, revised.created_at);
    assert_eq!(revised.title, created.title);
    assert_eq!(
        revised.description,
        Some("halves the range each step".to_string())
    );
}

#[test]
fn view_and_delete_flow() {
    let mut app = fresh_app();
    app.handle_event(Event::ViewRequested("3".to_string()));
    assert!(matches!(&app.screen, Screen::Detail(id) if id == "3"));

    app.handle_event(Event::DeleteRequested("3".to_string()));
    assert!(matches!(app.screen, Screen::Home));
    assert!(app.store.find("3").is_none());
    assert_eq!(app.store.len(), 2);
}

#[test]
fn favorite_toggle_keeps_screen() {
    let mut app = fresh_app();
    app.handle_event(Event::ViewRequested("1".to_string()));
    app.handle_event(Event::FavoriteToggled("1".to_string()));
    assert!(matches!(&app.screen, Screen::Detail(id) if id == "1"));
    assert!(!app.store.find("1").unwrap().is_favorite);
}

#[test]
fn search_and_filter_fields_follow_events() {
    let mut app = fresh_app();
    app.handle_event(Event::SearchChanged("loop".to_string()));
    app.handle_event(Event::LanguageSelected("javascript".to_string()));
    assert_eq!(app.search_query, "loop");
    assert_eq!(app.selected_language, "javascript");
    assert!(matches!(app.screen, Screen::Home));
}

#[test]
fn back_returns_home_from_any_screen() {
    let mut app = fresh_app();
    app.handle_event(Event::EditRequested("1".to_string()));
    app.handle_event(Event::HomeRequested);
    assert!(matches!(app.screen, Screen::Home));

    app.handle_event(Event::AddRequested);
    app.handle_event(Event::HomeRequested);
    assert!(matches!(app.screen, Screen::Home));
}

#[test]
fn save_outside_form_screens_changes_nothing() {
    let mut app = fresh_app();
    let draft = new_snippet(
        "99".to_string(),
        "Orphan".to_string(),
        "c".to_string(),
        "int main;".to_string(),
        String::new(),
        "",
        "2024-04-01".to_string(),
    );
    app.handle_event(Event::SaveRequested(draft));
    assert!(matches!(app.screen, Screen::Home));
    assert_eq!(app.store.len(), 3);
    assert!(app.store.find("99").is_none());
}
