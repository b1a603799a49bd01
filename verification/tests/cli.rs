use oriel::cli::{parse_command, CliCommand, CliError, SearchInput, USAGE};

fn args(items: &[&str]) -> Vec<String> {
    items.iter().map(|s| (*s).to_owned()).collect()
}

#[test]
fn parses_fixture_search_arguments_in_any_order() {
    let args = args(&["search", "--query", "cache invalidation", "--fixture", "source.tsv", "--limit", "3"]);

    let CliCommand::Search { input, query } = parse_command(&args).expect("arguments should parse") else {
        panic!("expected search command");
    };
    let SearchInput::Fixture(path) = input else {
        panic!("expected fixture input");
    };
    assert_eq!(path, "source.tsv");
    assert_eq!(query.text, "cache invalidation");
    assert_eq!(query.limit, 3);
}

#[test]
fn parses_live_source_and_language() {
    let args = args(&[
        "search",
        "--source",
        "https://youtu.be/dQw4w9WgXcQ",
        "--language",
        "en",
        "--query",
        "evidence",
    ]);

    let CliCommand::Search { input, .. } = parse_command(&args).expect("arguments should parse") else {
        panic!("expected search command");
    };
    let SearchInput::LiveSource { url, language, cache_dir, refresh } = input else {
        panic!("expected live source input");
    };
    assert_eq!(url, "https://youtu.be/dQw4w9WgXcQ");
    assert_eq!(language.as_deref(), Some("en"));
    assert!(cache_dir.is_none());
    assert!(!refresh);
}

#[test]
fn help_is_understood_at_the_root_and_for_each_command() {
    for line in [
        vec!["--help"],
        vec!["resolve", "--help"],
        vec!["search", "--help"],
        vec!["read", "--help"],
        vec!["mcp", "--help"],
    ] {
        assert_eq!(parse_command(&args(&line)), Ok(CliCommand::Help));
    }
    assert!(USAGE.starts_with("Usage:\n"));
}

#[test]
fn read_and_mcp_take_their_own_flags() {
    assert_eq!(
        parse_command(&args(&["read", "--source", "u", "--refresh", "--cache-dir", "c"])),
        Ok(CliCommand::Read {
            input: SearchInput::LiveSource {
                url: "u".to_owned(),
                language: None,
                cache_dir: Some("c".to_owned()),
                refresh: true,
            },
        })
    );
    assert_eq!(
        parse_command(&args(&["read", "--fixture", "f.tsv"])),
        Ok(CliCommand::Read { input: SearchInput::Fixture("f.tsv".to_owned()) })
    );
    assert_eq!(
        parse_command(&args(&["read", "--query", "q"])),
        Err(CliError::Usage("unknown read flag '--query'".to_owned()))
    );
    assert_eq!(
        parse_command(&args(&["read"])),
        Err(CliError::Usage("read requires either --fixture or --source".to_owned()))
    );
    assert_eq!(
        parse_command(&args(&["mcp", "--cache-dir", "c"])),
        Ok(CliCommand::Mcp { cache_dir: "c".to_owned() })
    );
    assert_eq!(
        parse_command(&args(&["mcp", "--query", "x"])),
        Err(CliError::Usage("unknown mcp flag '--query'".to_owned()))
    );
    assert_eq!(
        parse_command(&args(&["read", "--refresh", "--source", "u"])),
        Err(CliError::Usage("--refresh requires --cache-dir".to_owned()))
    );
    assert_eq!(parse_command(&args(&["mcp"])), Err(CliError::Usage("mcp requires --cache-dir".to_owned())));
}

#[test]
fn search_flags_are_checked_in_order() {
    assert_eq!(
        parse_command(&args(&["search", "--limit", "many", "--limit", "3"])),
        Err(CliError::InvalidNumber { flag: "--limit".to_owned(), value: "many".to_owned() })
    );
    assert_eq!(
        parse_command(&args(&["search", "--query", "a", "--query", "b"])),
        Err(CliError::Usage("--query may only be supplied once".to_owned()))
    );
    assert_eq!(
        parse_command(&args(&["search", "--query"])),
        Err(CliError::Usage("--query requires a value".to_owned()))
    );
    assert_eq!(
        parse_command(&args(&["search", "--colour", "x"])),
        Err(CliError::Usage("unknown search flag '--colour'".to_owned()))
    );
    assert_eq!(
        parse_command(&args(&["search", "--fixture", "f", "--source", "s", "--query", "q"])),
        Err(CliError::Usage("search accepts either --fixture or --source, not both".to_owned()))
    );
    assert_eq!(
        parse_command(&args(&["search", "--fixture", "f", "--refresh", "--query", "q"])),
        Err(CliError::Usage("--language, --cache-dir and --refresh are only valid with --source".to_owned()))
    );
    assert_eq!(
        parse_command(&args(&["search", "--fixture", "f"])),
        Err(CliError::Usage("search requires --query".to_owned()))
    );
}

#[test]
fn timestamp_bounds_and_limits_are_numbers() {
    let CliCommand::Search { query, .. } = parse_command(&args(&[
        "search", "--fixture", "f", "--query", "q", "--start-ms", "+10", "--end-ms", "20",
    ]))
    .expect("arguments should parse") else {
        panic!("expected search command");
    };
    assert_eq!(query.start_ms, Some(10));
    assert_eq!(query.end_ms, Some(20));
    assert_eq!(query.limit, 5);
    assert_eq!(
        parse_command(&args(&["search", "--end-ms", "18446744073709551616"])),
        Err(CliError::InvalidNumber {
            flag: "--end-ms".to_owned(),
            value: "18446744073709551616".to_owned()
        })
    );
}

#[test]
fn commands_are_required_and_known() {
    assert_eq!(parse_command(&args(&[])), Err(CliError::Usage("a command is required".to_owned())));
    assert_eq!(
        parse_command(&args(&["fetch"])),
        Err(CliError::Usage("unknown command 'fetch'".to_owned()))
    );
    assert_eq!(
        parse_command(&args(&["resolve", "a", "b"])),
        Err(CliError::Usage("resolve accepts exactly one YouTube URL".to_owned()))
    );
    assert_eq!(parse_command(&args(&["resolve", "a"])), Ok(CliCommand::Resolve("a".to_owned())));
}

#[test]
fn cli_errors_read_as_sentences() {
    let usage = CliError::Usage("a command is required".to_owned()).message();
    assert_eq!(usage, format!("a command is required\n\n{USAGE}"));
    assert_eq!(
        CliError::InvalidNumber { flag: "--limit".to_owned(), value: "x".to_owned() }.message(),
        "'x' is not a valid number for --limit"
    );
}
