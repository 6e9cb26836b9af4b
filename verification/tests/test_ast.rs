use tensor_grep_rs::backend_ast::{first_captures, AstBackend, AstError, AstMatch, Grammar};

const SOURCE: &str = "def foo(a, b):\n    pass\n\ndef bar(x):\n    return x\n";

#[test]
fn function_names_are_reported_in_document_order() {
    let backend = AstBackend::new();
    let found = backend
        .run("(function_definition name: (identifier) @name)", "python", SOURCE)
        .unwrap();
    assert_eq!(
        found,
        vec![
            AstMatch { start: 4, end: 7 },
            AstMatch { start: 29, end: 32 },
        ]
    );
    assert_eq!(&SOURCE[found[0].start..found[0].end], "foo");
    assert_eq!(&SOURCE[found[1].start..found[1].end], "bar");
}

#[test]
fn only_the_first_capture_locates_a_match() {
    let backend = AstBackend::new();
    let found = backend
        .run(
            "(function_definition name: (identifier) @name parameters: (parameters) @params)",
            "Python",
            SOURCE,
        )
        .unwrap();
    assert_eq!(
        found,
        vec![
            AstMatch { start: 4, end: 7 },
            AstMatch { start: 29, end: 32 },
        ]
    );
}

#[test]
fn pattern_without_matches_gives_no_results() {
    let backend = AstBackend::new();
    let found = backend.run("(class_definition) @c", "python", SOURCE).unwrap();
    assert!(found.is_empty());
    let nothing = backend.run("(identifier) @i", "python", "").unwrap();
    assert!(nothing.is_empty());
}

#[test]
fn unknown_grammar_is_a_named_failure() {
    let backend = AstBackend::new();
    let failed = backend.run("(identifier) @i", "cobol", SOURCE);
    match failed {
        Err(AstError::UnsupportedLanguage(id)) => assert_eq!(id, "cobol"),
        other => panic!("unexpected outcome: {:?}", other),
    }
    let malformed_too = backend.run("((", "cobol", SOURCE);
    assert!(matches!(malformed_too, Err(AstError::UnsupportedLanguage(_))));
}

#[test]
fn malformed_pattern_is_a_compile_failure() {
    let backend = AstBackend::new();
    let unbalanced = backend.run("(function_definition", "python", SOURCE);
    assert!(matches!(unbalanced, Err(AstError::Pattern(_))));
    let unknown_node = backend.run("(no_such_node) @n", "python", SOURCE);
    assert!(matches!(unknown_node, Err(AstError::Pattern(_))));
}

#[test]
fn grammar_lookup_ignores_case() {
    let backend = AstBackend::new();
    assert_eq!(backend.grammar("python"), Some(Grammar::Python));
    assert_eq!(backend.grammar("PYTHON"), Some(Grammar::Python));
    assert_eq!(backend.grammar("PyThOn"), Some(Grammar::Python));
    assert_eq!(backend.grammar("python3"), None);
    assert_eq!(backend.grammar(""), None);
    assert_eq!(backend.grammar("rust"), None);
}

#[test]
fn first_captures_skips_matches_without_captures() {
    let matches = vec![
        vec![(3, 5), (0, 9)],
        vec![],
        vec![(7, 8)],
        vec![(1, 2), (3, 4), (5, 6)],
    ];
    assert_eq!(
        first_captures(&matches),
        vec![
            AstMatch { start: 3, end: 5 },
            AstMatch { start: 7, end: 8 },
            AstMatch { start: 1, end: 2 },
        ]
    );
    assert!(first_captures(&Vec::new()).is_empty());
}

#[test]
fn text_predicates_read_the_parsed_text() {
    let backend = AstBackend::new();
    let found = backend
        .run("((identifier) @name (#eq? @name \"bar\"))", "python", SOURCE)
        .unwrap();
    assert_eq!(found, vec![AstMatch { start: 29, end: 32 }]);
    let matched = backend
        .run("((identifier) @name (#match? @name \"^(foo|x)$\"))", "python", SOURCE)
        .unwrap();
    assert_eq!(
        matched,
        vec![
            AstMatch { start: 4, end: 7 },
            AstMatch { start: 33, end: 34 },
            AstMatch { start: 48, end: 49 },
        ]
    );
}

#[test]
fn failures_have_messages() {
    let backend = AstBackend::new();
    let unsupported = backend.run("(identifier) @i", "cobol", SOURCE).unwrap_err();
    assert_eq!(unsupported.message(), "Unsupported language: cobol");
    assert_eq!(
        AstError::UnsupportedLanguage(String::new()).message(),
        "Unsupported language: "
    );
    assert_eq!(AstError::Parse.message(), "Failed to parse code");
    let malformed = backend.run("(no_such_node) @n", "python", SOURCE).unwrap_err();
    let text = malformed.message();
    assert!(text.contains("no_such_node"), "{}", text);
    assert!(text.starts_with("Query error at 1:2."), "{}", text);
}
