use uri_globbing::{is_match, to_regex, to_regex_str, GlobError};

#[test]
fn simple_exp() {
    let test_gen_map = [
        ["world-big-cat", "world-*-cat"],
        ["/meow/h/ja/ddd/ada/dad", "/**"],
    ];

    for [sample, pattern] in test_gen_map {
        assert_eq!(is_match(sample, pattern), Ok(true))
    }
}

#[test]
fn escape_char_test() {
    assert_eq!(to_regex_str(r"meow\?"), Ok(String::from("^meow\\?$")));
}

#[test]
fn test_range_parsing() {
    assert_eq!(to_regex_str("[a-z]*"), Ok(String::from("^[a-z].*$")));

    assert_eq!(to_regex_str("[0-9]?"), Ok(String::from("^[0-9].$")));

    assert_eq!(to_regex_str("file[abc].txt"), Ok(String::from("^file[abc].txt$")));

    assert_eq!(to_regex_str("[a-z"), Err(GlobError::MalformedPattern));
}

#[test]
fn test_lists() {
    assert_eq!(
        to_regex_str("{super,spider,iron}man"),
        Ok(String::from("^(?:super|spider|iron)man$"))
    );
    assert_eq!(is_match("superman", "{super,spider,iron}man$"), Ok(true))
}

#[test]
fn test_to_regex() {
    let glob = "http://example.com/{a,b,c}/path\\?query=value#fragment";
    let regex = to_regex(glob).unwrap();
    assert!(regex.is_match("http://example.com/a/path?query=value#fragment"));
    assert!(regex.is_match("http://example.com/b/path?query=value#fragment"));
    assert!(regex.is_match("http://example.com/c/path?query=value#fragment"));
    assert!(!regex.is_match("http://example.com/d/path?query=value#fragment"));

    let regex_str = to_regex_str(glob);
    assert_eq!(
        regex_str,
        Ok(String::from("^http://example.com/(?:a|b|c)/path\\?query=value#fragment$"))
    );
}

#[test]
fn plain_text_is_anchored_unchanged() {
    assert_eq!(to_regex_str("hello-world.txt"), Ok(String::from("^hello-world.txt$")));
    assert_eq!(to_regex_str(""), Ok(String::from("^$")));
}

#[test]
fn list_alternatives_decide_the_match() {
    assert_eq!(is_match("superman", "{super,spider,iron}man"), Ok(true));
    assert_eq!(is_match("batman", "{super,spider,iron}man"), Ok(false));
}

#[test]
fn recursive_spans_path_segments() {
    assert_eq!(is_match("/a/b/c/d", "/**"), Ok(true));
    assert_eq!(to_regex_str("/**"), Ok(String::from("^/(?:.*/)*[^/]*$")));
}

#[test]
fn nested_alternatives_render() {
    assert_eq!(to_regex_str("{a?,b*}"), Ok(String::from("^(?:a.|b.*)$")));
}

#[test]
fn every_delimiter_renders() {
    assert_eq!(to_regex_str("s:x://y/z\\?q&r#f"), Ok(String::from("^s:x://y/z\\?q&r#f$")));
}

#[test]
fn match_is_anchored_at_both_ends() {
    assert_eq!(is_match("xworld-big-cat", "world-*-cat"), Ok(false));
    assert_eq!(is_match("world-big-catx", "world-*-cat"), Ok(false));
    assert_eq!(is_match("ab", "a?"), Ok(true));
    assert_eq!(is_match("a", "a?"), Ok(false));
}

#[test]
fn malformed_glob_is_reported() {
    assert_eq!(to_regex_str("{a,b"), Err(GlobError::MalformedPattern));
    assert_eq!(is_match("a", "[a"), Err(GlobError::MalformedPattern));
    assert!(matches!(to_regex("x\\"), Err(GlobError::MalformedPattern)));
}

#[test]
fn refused_regex_is_reported() {
    assert_eq!(to_regex_str("a(b"), Ok(String::from("^a(b$")));
    assert!(matches!(to_regex("a(b"), Err(GlobError::PatternCompilation)));
    assert_eq!(is_match("a(b", "a(b"), Err(GlobError::PatternCompilation));
}
