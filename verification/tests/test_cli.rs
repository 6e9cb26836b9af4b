use tensor_grep_rs::backend_gpu::{report_gpu_matches, CliFlags};
use tensor_grep_rs::cli::{
    decimal, fallback_argv, match_line, match_lines, replace_confirmation, Cli, Commands,
    Invocation, Route,
};
use tensor_grep_rs::scanner::{RustDirectoryScanner, WalkEntry};

fn query(pattern: Option<&str>, path: Option<&str>) -> Cli {
    Cli {
        command: None,
        pattern: pattern.map(str::to_string),
        path: path.map(str::to_string),
        count: false,
        fixed_strings: false,
        invert_match: false,
        ignore_case: false,
        replace: None,
        force_cpu: false,
    }
}

fn delegated(command: Commands) -> (String, Vec<String>) {
    let mut cli = query(Some("ignored"), Some("ignored"));
    cli.command = Some(command);
    match cli.invocation() {
        Invocation::Delegate { command, args } => (command, args),
        other => panic!("unexpected invocation: {:?}", other),
    }
}

#[test]
fn subcommands_are_delegated_under_the_collaborators_names() {
    assert_eq!(delegated(Commands::Mcp), ("mcp_server".to_string(), vec![]));
    assert_eq!(
        delegated(Commands::Classify { file_path: "app.log".to_string() }),
        ("classify".to_string(), vec!["app.log".to_string()])
    );
    assert_eq!(
        delegated(Commands::Run { pattern: "p".to_string(), path: Some("src".to_string()) }),
        ("run".to_string(), vec!["p".to_string(), "src".to_string()])
    );
    assert_eq!(
        delegated(Commands::Run { pattern: "p".to_string(), path: None }),
        ("run".to_string(), vec!["p".to_string()])
    );
    assert_eq!(delegated(Commands::Scan), ("scan".to_string(), vec![]));
    assert_eq!(delegated(Commands::Test), ("test".to_string(), vec![]));
    assert_eq!(delegated(Commands::New), ("new".to_string(), vec![]));
    assert_eq!(delegated(Commands::Lsp), ("lsp".to_string(), vec![]));
}

#[test]
fn fallback_argv_starts_with_program_and_subcommand() {
    assert_eq!(
        fallback_argv("run", vec!["p".to_string(), "src".to_string()]),
        vec!["tg".to_string(), "run".to_string(), "p".to_string(), "src".to_string()]
    );
    assert_eq!(
        fallback_argv("lsp", vec![]),
        vec!["tg".to_string(), "lsp".to_string()]
    );
}

#[test]
fn query_needs_pattern_and_path() {
    assert!(matches!(query(None, None).invocation(), Invocation::Help));
    assert!(matches!(query(Some("p"), None).invocation(), Invocation::Help));
    assert!(matches!(query(None, Some("dir")).invocation(), Invocation::Help));
    match query(Some("p"), Some("dir")).invocation() {
        Invocation::Query { pattern, path } => {
            assert_eq!(pattern, "p");
            assert_eq!(path, "dir");
        }
        other => panic!("unexpected invocation: {:?}", other),
    }
}

#[test]
fn routing_prefers_accelerator_then_replace_then_count() {
    let mut cli = query(Some("p"), Some("dir"));
    assert!(cli.consults_probe());
    assert_eq!(cli.route(true), Route::Accelerated);
    assert_eq!(cli.route(false), Route::Search);

    cli.count = true;
    assert_eq!(cli.route(true), Route::Accelerated);
    assert_eq!(cli.route(false), Route::Count);

    cli.force_cpu = true;
    assert!(!cli.consults_probe());
    assert_eq!(cli.route(true), Route::Count);

    cli.force_cpu = false;
    cli.replace = Some("x".to_string());
    assert!(!cli.consults_probe());
    assert_eq!(cli.route(true), Route::Replace);
    assert_eq!(cli.route(false), Route::Replace);

    cli.count = false;
    assert_eq!(cli.route(false), Route::Replace);
}

#[test]
fn numbers_are_written_in_decimal() {
    assert_eq!(decimal(0), "0");
    assert_eq!(decimal(7), "7");
    assert_eq!(decimal(10), "10");
    assert_eq!(decimal(1234567890), "1234567890");
    assert_eq!(decimal(usize::MAX), usize::MAX.to_string());
}

#[test]
fn output_lines_have_number_colon_text() {
    assert_eq!(match_line(2, "ERROR failed"), "2:ERROR failed");
    assert_eq!(match_line(120, ""), "120:");
    assert_eq!(match_line(1, "a:b"), "1:a:b");
    let results = vec![(2, "ERROR failed".to_string()), (4, "ERROR timeout".to_string())];
    assert_eq!(
        match_lines(&results),
        vec!["2:ERROR failed".to_string(), "4:ERROR timeout".to_string()]
    );
    assert!(match_lines(&Vec::new()).is_empty());
    assert_eq!(replace_confirmation("Goodbye"), "Replaced matches with 'Goodbye'");
    assert_eq!(replace_confirmation(""), "Replaced matches with ''");
}

#[test]
fn accelerated_pipeline_report() {
    let mut flags = CliFlags {
        count: true,
        fixed_strings: false,
        invert_match: false,
        ignore_case: false,
    };
    assert_eq!(report_gpu_matches(&flags, 42), "42");
    flags.count = false;
    assert_eq!(report_gpu_matches(&flags, 42), "Found 42 matches via GPU.");
    assert_eq!(report_gpu_matches(&flags, 0), "Found 0 matches via GPU.");
}

#[test]
fn walk_settings_always_honor_ignore_files() {
    for hidden in [false, true] {
        for max_depth in [None, Some(0), Some(3)] {
            let settings = RustDirectoryScanner::new(hidden, max_depth).settings();
            assert_eq!(settings.skip_hidden, !hidden);
            assert_eq!(settings.max_depth, max_depth);
            assert!(settings.git_ignore);
            assert!(settings.ignore_files);
        }
    }
}

#[test]
fn walk_yields_regular_files_in_traversal_order() {
    let scanner = RustDirectoryScanner::new(false, None);
    let entries = vec![
        WalkEntry::Found { is_file: false, path: Some("root".to_string()) },
        WalkEntry::Found { is_file: true, path: Some("root/z.txt".to_string()) },
        WalkEntry::Unreadable,
        WalkEntry::Found { is_file: true, path: None },
        WalkEntry::Found { is_file: false, path: Some("root/sub".to_string()) },
        WalkEntry::Found { is_file: true, path: Some("root/sub/a.txt".to_string()) },
    ];
    assert_eq!(
        scanner.walk(&entries),
        vec!["root/z.txt".to_string(), "root/sub/a.txt".to_string()]
    );
    assert!(scanner.walk(&Vec::new()).is_empty());
    assert!(scanner.walk(&vec![WalkEntry::Unreadable]).is_empty());
}
