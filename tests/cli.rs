use projets_indexer::cli::{parse_args, CliErrorKind, Commands};

fn args(words: &[&str]) -> Vec<String> {
    words.iter().map(|w| w.to_string()).collect()
}

fn refusal(words: &[&str]) -> (CliErrorKind, String) {
    let e = parse_args(&args(words)).unwrap_err();
    (e.kind, e.argument)
}

#[test]
fn index_takes_its_defaults() {
    let cli = parse_args(&args(&["index"])).unwrap();
    assert!(!cli.verbose && !cli.no_color);
    match cli.command {
        Commands::Index { projects_dir, output, ollama, max_depth, min_depth, exclude } => {
            assert_eq!(projects_dir, "~/projects");
            assert_eq!(output, "projects_index.json");
            assert!(ollama);
            assert_eq!((min_depth, max_depth), (3, 3));
            assert_eq!(exclude, ".git,node_modules,__pycache__,target,.idea,.vscode");
        }
        other => panic!("unexpected {:?}", other),
    }
}

#[test]
fn index_reads_its_options_and_global_flags() {
    let cli = parse_args(&args(&[
        "-v", "index", "-d", "/src", "--output", "a.json", "-x", "4", "--min-depth", "2", "-e",
        "target", "--no-color", "-d", "/work",
    ]))
    .unwrap();
    assert!(cli.verbose && cli.no_color);
    match cli.command {
        Commands::Index { projects_dir, output, max_depth, min_depth, exclude, .. } => {
            assert_eq!(projects_dir, "/work");
            assert_eq!(output, "a.json");
            assert_eq!((min_depth, max_depth), (2, 4));
            assert_eq!(exclude, "target");
        }
        other => panic!("unexpected {:?}", other),
    }
}

#[test]
fn search_takes_one_query() {
    let cli = parse_args(&args(&["search", "-t", "machine learning", "-i", "x.json"])).unwrap();
    match cli.command {
        Commands::Search { query, index_file, tags_only, category_only } => {
            assert_eq!(query, "machine learning");
            assert_eq!(index_file, "x.json");
            assert!(tags_only && !category_only);
        }
        other => panic!("unexpected {:?}", other),
    }
    assert_eq!(refusal(&["search"]), (CliErrorKind::MissingArgument, "query".to_string()));
    assert_eq!(refusal(&["search", "a", "b"]), (CliErrorKind::UnexpectedArgument, "b".to_string()));
}

#[test]
fn stats_and_generate_tags() {
    match parse_args(&args(&["stats", "--detailed"])).unwrap().command {
        Commands::Stats { index_file, detailed } => {
            assert_eq!(index_file, "projects_index.json");
            assert!(detailed);
        }
        other => panic!("unexpected {:?}", other),
    }
    match parse_args(&args(&["generate-tags", "-p", "/x", "-o", "t.txt"])).unwrap().command {
        Commands::GenerateTags { project_dir, output } => {
            assert_eq!(project_dir, "/x");
            assert_eq!(output.as_deref(), Some("t.txt"));
        }
        other => panic!("unexpected {:?}", other),
    }
    assert_eq!(
        refusal(&["generate-tags"]),
        (CliErrorKind::MissingArgument, "--project-dir".to_string())
    );
}

#[test]
fn faulty_command_lines_are_refused() {
    assert_eq!(refusal(&[]), (CliErrorKind::MissingSubcommand, String::new()));
    assert_eq!(refusal(&["-v"]), (CliErrorKind::MissingSubcommand, String::new()));
    assert_eq!(refusal(&["frobnicate"]), (CliErrorKind::UnknownSubcommand, "frobnicate".to_string()));
    assert_eq!(refusal(&["-d", "x", "index"]), (CliErrorKind::UnknownArgument, "-d".to_string()));
    assert_eq!(refusal(&["index", "--bogus"]), (CliErrorKind::UnknownArgument, "--bogus".to_string()));
    assert_eq!(refusal(&["index", "-o"]), (CliErrorKind::MissingValue, "-o".to_string()));
    assert_eq!(refusal(&["index", "-o", "-v"]), (CliErrorKind::MissingValue, "-o".to_string()));
    assert_eq!(refusal(&["index", "-x", "3a"]), (CliErrorKind::InvalidNumber, "3a".to_string()));
    assert_eq!(
        refusal(&["index", "-x", "99999999999999999999999"]),
        (CliErrorKind::InvalidNumber, "99999999999999999999999".to_string())
    );
    assert_eq!(refusal(&["index", "extra"]), (CliErrorKind::UnexpectedArgument, "extra".to_string()));
    assert_eq!(refusal(&["stats", "-t"]), (CliErrorKind::UnknownArgument, "-t".to_string()));
}
