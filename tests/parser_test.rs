use uri_globbing::{Delimiter, GlobError, Parser, Primitive};

fn parsed(pattern: &str) -> Vec<Primitive> {
    let mut parser = Parser::new(pattern);
    assert_eq!(parser.generate_ast(), Ok(()), "pattern: {}", pattern);
    let mut out = Vec::new();
    for p in parser.ast() {
        out.push(copy_primitive(p));
    }
    out
}

fn copy_primitive(p: &Primitive) -> Primitive {
    match p {
        Primitive::Literal(s) => Primitive::Literal(s.clone()),
        Primitive::Any => Primitive::Any,
        Primitive::Recursive => Primitive::Recursive,
        Primitive::Single => Primitive::Single,
        Primitive::List(alts) => {
            Primitive::List(alts.iter().map(|a| a.iter().map(copy_primitive).collect()).collect())
        }
        Primitive::Range(s) => Primitive::Range(s.clone()),
        Primitive::Delimiter(d) => Primitive::Delimiter(*d),
    }
}

#[test]
fn parses_basic_uri() {
    assert_eq!(
        parsed("http://example.com/{a,b,c}/path\\?query=value#fragment"),
        vec![
            Primitive::Literal("http".into()),
            Primitive::Delimiter(Delimiter::SCHEME_AUTHORITY),
            Primitive::Literal("example.com".into()),
            Primitive::Delimiter(Delimiter::PATH),
            Primitive::List(vec![
                vec![Primitive::Literal("a".into())],
                vec![Primitive::Literal("b".into())],
                vec![Primitive::Literal("c".into())]
            ]),
            Primitive::Delimiter(Delimiter::PATH),
            Primitive::Literal("path".into()),
            Primitive::Delimiter(Delimiter::PRE_QUERY),
            Primitive::Literal("query=value".into()),
            Primitive::Delimiter(Delimiter::PRE_FRAGMENT),
            Primitive::Literal("fragment".into()),
        ]
    );
}

#[test]
fn parses_wildcards_and_ranges() {
    assert_eq!(
        parsed("https://*/**/[a-z]\\?file.txt"),
        vec![
            Primitive::Literal("https".into()),
            Primitive::Delimiter(Delimiter::SCHEME_AUTHORITY),
            Primitive::Any,
            Primitive::Delimiter(Delimiter::PATH),
            Primitive::Recursive,
            Primitive::Delimiter(Delimiter::PATH),
            Primitive::Range("a-z".into()),
            Primitive::Delimiter(Delimiter::PRE_QUERY),
            Primitive::Literal("file.txt".into()),
        ]
    );
}

#[test]
fn parse_no_path() {
    assert_eq!(
        parsed("{http,https}://example.com"),
        vec![
            Primitive::List(vec![
                vec![Primitive::Literal("http".into())],
                vec![Primitive::Literal("https".into())]
            ]),
            Primitive::Delimiter(Delimiter::SCHEME_AUTHORITY),
            Primitive::Literal("example.com".into()),
        ]
    );
}

#[test]
fn adjacent_characters_form_one_literal() {
    assert_eq!(parsed("abc"), vec![Primitive::Literal("abc".into())]);
}

#[test]
fn escaped_characters_join_the_literal() {
    assert_eq!(parsed("a\\*b\\\\c"), vec![Primitive::Literal("a*b\\c".into())]);
}

#[test]
fn empty_pattern_has_no_nodes() {
    assert_eq!(parsed(""), vec![]);
}

#[test]
fn empty_alternatives_are_dropped() {
    assert_eq!(
        parsed("{a,,b,}"),
        vec![Primitive::List(vec![
            vec![Primitive::Literal("a".into())],
            vec![Primitive::Literal("b".into())]
        ])]
    );
    assert_eq!(parsed("{,}"), vec![Primitive::List(vec![])]);
}

#[test]
fn nested_alternatives_are_parsed_as_patterns() {
    assert_eq!(
        parsed("{a?,b*}"),
        vec![Primitive::List(vec![
            vec![Primitive::Literal("a".into()), Primitive::Single],
            vec![Primitive::Literal("b".into()), Primitive::Any]
        ])]
    );
}

#[test]
fn scheme_path_and_delimiter_trace() {
    let mut parser = Parser::new("mailto:a/b&c#d");
    assert_eq!(parser.generate_ast(), Ok(()));
    assert_eq!(
        parser.delimiter_order(),
        &vec![
            Delimiter::SCHEME_PATH,
            Delimiter::PATH,
            Delimiter::QUERY,
            Delimiter::PRE_FRAGMENT
        ]
    );
}

#[test]
fn delimiters_inside_alternatives_stay_out_of_the_trace() {
    let mut parser = Parser::new("{a/b,c}/d");
    assert_eq!(parser.generate_ast(), Ok(()));
    assert_eq!(parser.delimiter_order(), &vec![Delimiter::PATH]);
}

#[test]
fn malformed_patterns_are_rejected() {
    for pattern in ["[a-z", "{a,b", "abc\\", "{[a}", "x{"] {
        let mut parser = Parser::new(pattern);
        assert_eq!(parser.generate_ast(), Err(GlobError::MalformedPattern), "pattern: {}", pattern);
    }
}
