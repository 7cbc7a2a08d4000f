use code_vault::query::distinct_languages;
use code_vault::query::empty_state;
use code_vault::query::EmptyStateKind;
use code_vault::query::filter_snippets;
use code_vault::query::snippet_matches_language;
use code_vault::query::snippet_matches_search;
use code_vault::snippet::code_preview;
use code_vault::snippet::Snippet;
use code_vault::store::get_sample_snippets;

fn snippet(id: &str, title: &str, language: &str, code: &str, tags: &[&str]) -> Snippet {
    Snippet {
        id: id.to_string(),
        title: title.to_string(),
        language: language.to_string(),
        code: code.to_string(),
        description: None,
        tags: tags.iter().map(|t| t.to_string()).collect(),
        created_at: "2024-01-01".to_string(),
        updated_at: "2024-01-01".to_string(),
        is_favorite: false,
    }
}

#[test]
fn search_scenario_world() {
    let store = vec![snippet(
        "1",
        "Hello World in Rust",
        "rust",
        "fn main() {}",
        &["beginner", "rust"],
    )];

    let hits = filter_snippets(&store, "world", "");
    assert_eq!(hits.len(), 1);
    assert_eq!(hits[0].id, "1");

    let misses = filter_snippets(&store, "world", "python");
    assert!(misses.is_empty());
    assert_eq!(empty_state("world", "python"), EmptyStateKind::AdjustFilters);
    assert_eq!(empty_state("", ""), EmptyStateKind::AddFirstSnippet);
}

#[test]
fn search_is_case_insensitive_both_ways() {
    let s = snippet("1", "Hello World in Rust", "rust", "fn main() {}", &[]);
    assert!(snippet_matches_search(&s, "WORLD"));
    assert!(snippet_matches_search(&s, "hello w"));
    assert!(!snippet_matches_search(&s, "python"));
}

#[test]
fn search_looks_at_code_and_tags() {
    let s = snippet(
        "1",
        "Loop",
        "javascript",
        "console.log(`Count: ${i}`)",
        &["Basics"],
    );
    assert!(snippet_matches_search(&s, "COUNT"));
    assert!(snippet_matches_search(&s, "basics"));
    assert!(!snippet_matches_search(&s, "sort"));
}

#[test]
fn empty_search_matches_everything() {
    let s = snippet("1", "Anything", "go", "x", &[]);
    assert!(snippet_matches_search(&s, ""));
}

#[test]
fn language_filter_is_exact_and_case_sensitive() {
    let s = snippet("1", "T", "rust", "x", &[]);
    assert!(snippet_matches_language(&s, ""));
    assert!(snippet_matches_language(&s, "rust"));
    assert!(!snippet_matches_language(&s, "Rust"));
    assert!(!snippet_matches_language(&s, "python"));
}

#[test]
fn filter_keeps_store_order_and_languages_exactly() {
    let store = get_sample_snippets();
    let all = filter_snippets(&store, "", "");
    assert_eq!(all.len(), 3);
    assert_eq!(all[0].id, "1");
    assert_eq!(all[1].id, "2");
    assert_eq!(all[2].id, "3");

    let only_python = filter_snippets(&store, "", "python");
    assert_eq!(only_python.len(), 1);
    assert_eq!(only_python[0].id, "3");
}

#[test]
fn distinct_languages_are_sorted_and_unique() {
    let mut store = get_sample_snippets();
    store.push(snippet("4", "Another", "python", "x", &[]));
    store.push(snippet("5", "Yet another", "ada", "x", &[]));
    let langs = distinct_languages(&store);
    assert_eq!(langs, vec!["ada", "javascript", "python", "rust"]);
}

#[test]
fn distinct_languages_of_empty_store() {
    let langs = distinct_languages(&Vec::new());
    assert!(langs.is_empty());
}

#[test]
fn preview_truncates_long_code() {
    let long: String = "x".repeat(150);
    let preview = code_preview(&long);
    assert_eq!(preview.chars().count(), 103);
    assert!(preview.ends_with("..."));
    assert!(preview.starts_with("xxx"));

    let short = "fn main() {}";
    assert_eq!(code_preview(short), short);
}
