use code_vault::tags::join_tags;
use code_vault::tags::parse_tags;

#[test]
fn parse_and_join_round_trip() {
    let tags = parse_tags("a, b ,, c");
    assert_eq!(tags, vec!["a".to_string(), "b".to_string(), "c".to_string()]);
    let rendered = join_tags(&tags);
    assert_eq!(rendered, "a, b, c");
    let reparsed = parse_tags(&rendered);
    assert_eq!(reparsed, tags);
}

#[test]
fn parse_empty_text_gives_no_tags() {
    assert_eq!(parse_tags(""), Vec::<String>::new());
}

#[test]
fn parse_whitespace_and_commas_gives_no_tags() {
    assert_eq!(parse_tags("  , \t ,  "), Vec::<String>::new());
}

#[test]
fn parse_single_tag() {
    assert_eq!(parse_tags("one"), vec!["one".to_string()]);
    assert_eq!(parse_tags("  spaced  "), vec!["spaced".to_string()]);
}

#[test]
fn parse_keeps_duplicates_and_order() {
    let tags = parse_tags("b, a, b");
    assert_eq!(
        tags,
        vec!["b".to_string(), "a".to_string(), "b".to_string()]
    );
}

#[test]
fn parse_keeps_inner_spaces() {
    assert_eq!(
        parse_tags("hello world, rust"),
        vec!["hello world".to_string(), "rust".to_string()]
    );
}

#[test]
fn join_empty_and_single() {
    assert_eq!(join_tags(&Vec::new()), "");
    assert_eq!(join_tags(&vec!["x".to_string()]), "x");
}
