use tensor_grep_rs::backend_cpu::{Counts, CpuBackend, FileBytes, SearchError, Target};
use tensor_grep_rs::pattern::{compile_regex, Matcher};

const LOG_TWO_ERRORS: &[u8] = b"INFO ok\nERROR failed\nDEBUG trace\nERROR timeout\n";
const LOG_CRITICAL: &[u8] = b"INFO ok\nERROR failed\nDEBUG trace\nCRITICAL timeout\n";

fn single(bytes: &[u8]) -> Target<'_> {
    Target::File(FileBytes::Readable(bytes))
}

#[test]
fn test_rust_cpu_backend_fixed_string_count() {
    let backend = CpuBackend::new();
    let count = backend
        .count_matches("ERROR", &single(LOG_TWO_ERRORS), false, true, false)
        .unwrap();
    assert_eq!(count, 2);
}

#[test]
fn test_rust_cpu_backend_regex_count() {
    let backend = CpuBackend::new();
    let count = backend
        .count_matches("ERROR|CRITICAL", &single(LOG_CRITICAL), false, false, false)
        .unwrap();
    assert_eq!(count, 2);
}

#[test]
fn test_rust_cpu_backend_invert_count() {
    let backend = CpuBackend::new();
    let count = backend
        .count_matches("INFO", &single(LOG_CRITICAL), false, true, true)
        .unwrap();
    assert_eq!(count, 3);
}

#[test]
fn regex_count_is_stable_when_critical_becomes_error() {
    let backend = CpuBackend::new();
    let first = backend
        .count_matches("ERROR|CRITICAL", &single(LOG_TWO_ERRORS), false, false, false)
        .unwrap();
    assert_eq!(first, 2);
    let rewrites = backend
        .replace_in_place("CRITICAL", "ERROR", &single(LOG_CRITICAL), false, true)
        .unwrap();
    let variant = rewrites[0].clone().unwrap();
    assert_eq!(variant, LOG_TWO_ERRORS.to_vec());
    let second = backend
        .count_matches("ERROR|CRITICAL", &single(&variant), false, false, false)
        .unwrap();
    assert_eq!(second, 2);
    let found = backend
        .search("ERROR|CRITICAL", &single(&variant), false, false, false)
        .unwrap();
    assert_eq!(
        found,
        vec![(2, "ERROR failed".to_string()), (4, "ERROR timeout".to_string())]
    );
}

#[test]
fn count_equals_number_of_search_results() {
    let backend = CpuBackend::new();
    let buffers: [&[u8]; 6] = [
        b"",
        b"\n",
        b"a\n\nb",
        b"\n\nabc\nab\n\n",
        LOG_CRITICAL,
        b"x\xffy\nab\xfe\n",
    ];
    let patterns = ["a", "ab", "ERROR|INFO", ".", "", "b$"];
    for bytes in buffers {
        for pattern in patterns {
            for flags in 0..8u8 {
                let ignore_case = flags & 1 != 0;
                let fixed = flags & 2 != 0;
                let invert = flags & 4 != 0;
                let target = single(bytes);
                let found = backend
                    .search(pattern, &target, ignore_case, fixed, invert)
                    .unwrap();
                let count = backend
                    .count_matches(pattern, &target, ignore_case, fixed, invert)
                    .unwrap();
                assert_eq!(count, found.len());
            }
        }
    }
}

#[test]
fn unterminated_last_line_is_a_line() {
    let backend = CpuBackend::new();
    let target = single(b"one\ntwo");
    let found = backend.search("two", &target, false, true, false).unwrap();
    assert_eq!(found, vec![(2, "two".to_string())]);
    assert_eq!(
        backend.count_matches("o", &target, false, true, false).unwrap(),
        2
    );
}

#[test]
fn empty_lines_are_numbered_but_never_reported() {
    let backend = CpuBackend::new();
    let target = single(b"\n\nx\n\ny\n");
    let found = backend.search("z", &target, false, true, true).unwrap();
    assert_eq!(found, vec![(3, "x".to_string()), (5, "y".to_string())]);
    assert_eq!(
        backend.count_matches("z", &target, false, true, true).unwrap(),
        2
    );
    let all = backend.search("", &target, false, false, false).unwrap();
    assert_eq!(all.len(), 2);
}

#[test]
fn empty_file_has_no_matches() {
    let backend = CpuBackend::new();
    let target = single(b"");
    assert!(backend.search("", &target, false, true, false).unwrap().is_empty());
    assert_eq!(backend.count_matches("", &target, false, true, true).unwrap(), 0);
}

#[test]
fn literal_mode_keeps_meta_characters_inert() {
    let backend = CpuBackend::new();
    let target = single(b"a.b\naxb\nA.B\n");
    let sensitive = backend.search("a.b", &target, false, true, false).unwrap();
    assert_eq!(sensitive, vec![(1, "a.b".to_string())]);
    let insensitive = backend.search("a.b", &target, true, true, false).unwrap();
    assert_eq!(
        insensitive,
        vec![(1, "a.b".to_string()), (3, "A.B".to_string())]
    );
    let as_regex = backend.search("a.b", &target, false, false, false).unwrap();
    assert_eq!(
        as_regex,
        vec![(1, "a.b".to_string()), (2, "axb".to_string())]
    );
    let unbalanced = backend.count_matches("(", &single(b"f(x)\ng\n"), true, true, false);
    assert_eq!(unbalanced.unwrap(), 1);
}

#[test]
fn ignore_case_is_a_property_of_the_compiled_pattern() {
    let backend = CpuBackend::new();
    let target = single(b"Error\nERROR\nerr\n");
    assert_eq!(
        backend.count_matches("error", &target, true, false, false).unwrap(),
        2
    );
    assert_eq!(
        backend.count_matches("error", &target, false, false, false).unwrap(),
        0
    );
}

#[test]
fn invalid_bytes_are_matched_and_reported_with_replacement_characters() {
    let backend = CpuBackend::new();
    let target = single(b"ok \xff here\nplain\n");
    let literal = backend.search("here", &target, false, true, false).unwrap();
    assert_eq!(literal, vec![(1, "ok \u{fffd} here".to_string())]);
    let regex = backend.search("h.re", &target, false, false, false).unwrap();
    assert_eq!(regex, vec![(1, "ok \u{fffd} here".to_string())]);
}

#[test]
fn malformed_pattern_fails_before_any_file() {
    let backend = CpuBackend::new();
    let unreadable = Target::File(FileBytes::Unreadable);
    let searched = backend.search("(", &unreadable, false, false, false);
    assert!(matches!(searched, Err(SearchError::InvalidPattern(_))));
    let counted = backend.count_matches("a{2,1}", &single(b"aa\n"), false, false, false);
    assert!(matches!(counted, Err(SearchError::InvalidPattern(_))));
    let replaced = backend.replace_in_place("[", "x", &single(b"[\n"), false, false);
    assert!(matches!(replaced, Err(SearchError::InvalidPattern(_))));
}

#[test]
fn unreadable_single_file_is_a_hard_failure() {
    let backend = CpuBackend::new();
    let target = Target::File(FileBytes::Unreadable);
    assert!(matches!(
        backend.search("a", &target, false, true, false),
        Err(SearchError::Unreadable)
    ));
    assert!(matches!(
        backend.count_matches("a", &target, false, false, false),
        Err(SearchError::Unreadable)
    ));
    assert!(matches!(
        backend.replace_in_place("a", "b", &target, false, false),
        Err(SearchError::Unreadable)
    ));
}

#[test]
fn tree_results_follow_walk_order_and_skip_unreadable_files() {
    let backend = CpuBackend::new();
    let target = Target::Tree(vec![
        FileBytes::Readable(b"zeta hit\nmiss\n"),
        FileBytes::Unreadable,
        FileBytes::Readable(b"miss\nalpha hit\nhit again"),
    ]);
    let found = backend.search("hit", &target, false, true, false).unwrap();
    assert_eq!(
        found,
        vec![
            (1, "zeta hit".to_string()),
            (2, "alpha hit".to_string()),
            (3, "hit again".to_string()),
        ]
    );
    assert_eq!(
        backend.count_matches("hit", &target, false, true, false).unwrap(),
        3
    );
    assert_eq!(
        backend.count_matches("hit", &target, false, true, true).unwrap(),
        2
    );
    let empty = Target::Tree(Vec::new());
    assert!(backend.search("hit", &empty, false, true, false).unwrap().is_empty());
    assert_eq!(backend.count_matches("hit", &empty, false, false, false).unwrap(), 0);
}

#[test]
fn compiled_query_runs_on_several_targets() {
    let backend = CpuBackend::new();
    let matcher = Matcher::compile("ERROR", false, true).unwrap();
    let first = backend.search_with(&matcher, &single(LOG_TWO_ERRORS), false).unwrap();
    assert_eq!(
        first,
        vec![(2, "ERROR failed".to_string()), (4, "ERROR timeout".to_string())]
    );
    let second = backend.search_with(&matcher, &single(LOG_CRITICAL), false).unwrap();
    assert_eq!(second, vec![(2, "ERROR failed".to_string())]);
    assert_eq!(backend.count_with(&matcher, &single(LOG_TWO_ERRORS), false).unwrap(), 2);
    assert_eq!(backend.count_with(&matcher, &single(LOG_CRITICAL), true).unwrap(), 3);
    let unreadable = Target::File(FileBytes::Unreadable);
    assert!(matches!(
        backend.search_with(&matcher, &unreadable, false),
        Err(SearchError::Unreadable)
    ));
    assert!(matches!(
        backend.count_with(&matcher, &unreadable, false),
        Err(SearchError::Unreadable)
    ));
}

#[test]
fn counts_are_taken_per_file_and_then_combined() {
    let backend = CpuBackend::new();
    let matcher = Matcher::compile("hit", false, true).unwrap();
    let target = Target::Tree(vec![
        FileBytes::Readable(b"hit\nhit\nmiss\n"),
        FileBytes::Unreadable,
        FileBytes::Readable(b"miss\nhit"),
    ]);
    let counts = backend.count_files(&matcher, &target, false);
    match &counts {
        Counts::Tree(each) => assert_eq!(each, &vec![Some(2), None, Some(1)]),
        other => panic!("unexpected counts: {:?}", other),
    }
    assert_eq!(backend.combine_counts(&counts).unwrap(), 3);
    assert_eq!(
        backend.combine_counts(&counts).unwrap(),
        backend.count_matches("hit", &target, false, true, false).unwrap()
    );
    match backend.count_files(&matcher, &single(b"hit\n"), false) {
        Counts::File(count) => assert_eq!(count, Some(1)),
        other => panic!("unexpected counts: {:?}", other),
    }
}

#[test]
fn combining_counts_adds_skips_and_refuses() {
    let backend = CpuBackend::new();
    assert_eq!(backend.combine_counts(&Counts::File(Some(7))).unwrap(), 7);
    assert!(matches!(
        backend.combine_counts(&Counts::File(None)),
        Err(SearchError::Unreadable)
    ));
    assert_eq!(backend.combine_counts(&Counts::Tree(Vec::new())).unwrap(), 0);
    assert_eq!(
        backend
            .combine_counts(&Counts::Tree(vec![Some(2), None, Some(3), None]))
            .unwrap(),
        5
    );
    assert_eq!(backend.combine_counts(&Counts::Tree(vec![None])).unwrap(), 0);
    assert_eq!(
        backend
            .combine_counts(&Counts::Tree(vec![Some(usize::MAX - 1), Some(1)]))
            .unwrap(),
        usize::MAX
    );
    assert!(matches!(
        backend.combine_counts(&Counts::Tree(vec![Some(usize::MAX), None, Some(1)])),
        Err(SearchError::CountOverflow)
    ));
}

#[test]
fn compiled_regex_replaces_in_several_targets() {
    let backend = CpuBackend::new();
    let regex = compile_regex("a+", false, false).unwrap();
    let one = backend.replace_with(&regex, "b", &single(b"aaa x a\n")).unwrap();
    assert_eq!(one, vec![Some(b"b x b\n".to_vec())]);
    let none = backend.replace_with(&regex, "b", &single(b"xyz\n")).unwrap();
    assert_eq!(none, vec![None]);
    let tree = Target::Tree(vec![FileBytes::Unreadable, FileBytes::Readable(b"a")]);
    assert_eq!(
        backend.replace_with(&regex, "$0$0", &tree).unwrap(),
        vec![None, Some(b"aa".to_vec())]
    );
    assert!(matches!(
        backend.replace_with(&regex, "b", &Target::File(FileBytes::Unreadable)),
        Err(SearchError::Unreadable)
    ));
}
