use tensor_grep_rs::backend_cpu::{replace_bytes, CpuBackend, FileBytes, Target};
use tensor_grep_rs::pattern::compile_regex;

fn rewrite_single(
    pattern: &str,
    replacement: &str,
    content: &[u8],
    ignore_case: bool,
    fixed_strings: bool,
) -> Option<Vec<u8>> {
    let backend = CpuBackend::new();
    let target = Target::File(FileBytes::Readable(content));
    let mut rewrites = backend
        .replace_in_place(pattern, replacement, &target, ignore_case, fixed_strings)
        .unwrap();
    assert_eq!(rewrites.len(), 1);
    rewrites.pop().unwrap()
}

#[test]
fn test_rust_replace_in_place_literal() {
    let content = b"Hello world\nThis is a test\nHello again\n";
    let new_content = rewrite_single("Hello", "Goodbye", content, false, true).unwrap();
    assert_eq!(
        String::from_utf8(new_content).unwrap(),
        "Goodbye world\nThis is a test\nGoodbye again\n"
    );
}

#[test]
fn test_rust_replace_in_place_regex_capture_groups() {
    let content = b"def foo(a, b):\n    pass\ndef bar(x, y):\n    pass\n";
    let new_content = rewrite_single(
        r"def (\w+)\((\w+), (\w+)\):",
        "def $1($3, $2):",
        content,
        false,
        false,
    )
    .unwrap();
    assert_eq!(
        String::from_utf8(new_content).unwrap(),
        "def foo(b, a):\n    pass\ndef bar(y, x):\n    pass\n"
    );
}

#[test]
fn test_rust_replace_preserves_formatting() {
    let before = "    let x = 10;\n\n\tlet y = 20;\n";
    let new_content = rewrite_single("10", "15", before.as_bytes(), false, true).unwrap();
    assert_eq!(
        String::from_utf8(new_content).unwrap(),
        "    let x = 15;\n\n\tlet y = 20;\n"
    );
}

#[test]
fn absent_pattern_leaves_the_file_alone() {
    let content = b"nothing to see\nhere\n";
    assert_eq!(rewrite_single("absent", "x", content, false, true), None);
    assert_eq!(rewrite_single("ab+sent", "x", content, true, false), None);
    let regex = compile_regex("absent", false, true).unwrap();
    assert_eq!(replace_bytes(&regex, b"x", content), None);
}

#[test]
fn replacement_is_global_and_keeps_the_trailing_delimiter_state() {
    let with_newline = rewrite_single("a", "bb", b"a a\na\n", false, true).unwrap();
    assert_eq!(with_newline, b"bb bb\nbb\n".to_vec());
    let without_newline = rewrite_single("a", "bb", b"a a\na", false, true).unwrap();
    assert_eq!(without_newline, b"bb bb\nbb".to_vec());
    let spanning = rewrite_single("a\nb", "-", b"a\nb\n", false, false).unwrap();
    assert_eq!(spanning, b"-\n".to_vec());
}

#[test]
fn literal_replacement_pattern_is_escaped_but_case_flag_applies() {
    let dotted = rewrite_single("a.c", "x", b"abc a.c A.C\n", false, true).unwrap();
    assert_eq!(dotted, b"abc x A.C\n".to_vec());
    let folded = rewrite_single("a.c", "x", b"abc a.c A.C\n", true, true).unwrap();
    assert_eq!(folded, b"abc x x\n".to_vec());
}

#[test]
fn tree_replacement_reports_one_decision_per_file() {
    let backend = CpuBackend::new();
    let target = Target::Tree(vec![
        FileBytes::Readable(b"old\n"),
        FileBytes::Unreadable,
        FileBytes::Readable(b"unrelated\n"),
        FileBytes::Readable(b"old and old"),
    ]);
    let rewrites = backend
        .replace_in_place("old", "new", &target, false, true)
        .unwrap();
    assert_eq!(
        rewrites,
        vec![
            Some(b"new\n".to_vec()),
            None,
            None,
            Some(b"new and new".to_vec()),
        ]
    );
}
