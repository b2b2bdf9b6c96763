use rsgrep::cli::{Flag, Rscli};
use rsgrep::config::{validate, get_search_paths, SearchConfig, ConfigError, OutputMode};

fn b(s: &str) -> Vec<u8> {
    s.as_bytes().to_vec()
}

fn grep_flags() -> Vec<Flag> {
    let ids: &[(u8, &'static str)] = &[
        (b'R', "Match with regex."),
        (b'r', "Search recursively."),
        (b'n', "Print line number."),
        (b'L', "Print file names without match."),
        (b'l', "Print file names with match."),
        (b's', "Follow symbolic link."),
        (b'e', "Exclude files/directories."),
        (b'p', "Specify paths to search into."),
    ];
    ids.iter().map(|&(id, description)| Flag { id, description, values: vec![] }).collect()
}

fn parse(args: &[&str]) -> Result<Rscli, u8> {
    let mut cli = Rscli::new(b("rsgrep"), grep_flags(), vec![]);
    let argv: Vec<Vec<u8>> = args.iter().map(|a| b(a)).collect();
    match cli.parse_args(&argv) {
        Ok(()) => Ok(cli),
        Err(c) => Err(c),
    }
}

#[test]
fn free_args_collected_before_any_flag() {
    let cli = parse(&["rsgrep", "foo", "bar", "-r"]).unwrap();
    assert_eq!(cli.free_args, vec![b("foo"), b("bar")]);
    assert_eq!(cli.matched_flags.len(), 1);
    assert_eq!(cli.matched_flags[0].id, b'r');
}

#[test]
fn values_attach_to_most_recent_flag() {
    let cli = parse(&["rsgrep", "foo", "-e", "target", "node_modules", "-p", "/tmp"]).unwrap();
    assert_eq!(cli.free_args, vec![b("foo")]);
    let e = cli.find_user_flag_by_id(b'e').unwrap();
    assert_eq!(e.values, vec![b("target"), b("node_modules")]);
    let p = cli.find_user_flag_by_id(b'p').unwrap();
    assert_eq!(p.values, vec![b("/tmp")]);
}

#[test]
fn combined_flag_characters() {
    let cli = parse(&["rsgrep", "foo", "-rn"]).unwrap();
    assert!(cli.find_user_flag_by_id(b'r').is_some());
    assert!(cli.find_user_flag_by_id(b'n').is_some());
    assert!(cli.find_user_flag_by_id(b'l').is_none());
}

#[test]
fn unknown_flag_is_reported() {
    match parse(&["rsgrep", "foo", "-rx"]) {
        Err(c) => assert_eq!(c, b'x'),
        Ok(_) => panic!("unknown flag was accepted"),
    }
}

#[test]
fn program_flag_lookup() {
    let cli = parse(&["rsgrep", "foo"]).unwrap();
    assert_eq!(cli.find_program_flag_by_id(b'e').unwrap().id, b'e');
    assert!(cli.find_program_flag_by_id(b'q').is_none());
}

#[test]
fn validate_needs_flags_and_terms() {
    assert!(!validate(&parse(&["rsgrep", "foo"]).unwrap()));
    assert!(!validate(&parse(&["rsgrep", "-r"]).unwrap()));
    assert!(validate(&parse(&["rsgrep", "foo", "-r"]).unwrap()));
    // A regex flag counts as search terms even with no free arguments.
    assert!(validate(&parse(&["rsgrep", "-R", "a.*"]).unwrap()));
}

#[test]
fn search_paths_default_to_current_directory() {
    let cli = parse(&["rsgrep", "foo", "-r"]).unwrap();
    assert_eq!(get_search_paths(&cli), vec![b(".")]);
    let cli = parse(&["rsgrep", "foo", "-p", "/a", "/b"]).unwrap();
    assert_eq!(get_search_paths(&cli), vec![b("/a"), b("/b")]);
}

#[test]
fn config_from_cli_reads_flags() {
    let cli = parse(&["rsgrep", "foo", "-rs", "-e", "target"]).unwrap();
    let c = SearchConfig::from_cli(&cli).unwrap();
    assert!(c.recursive);
    assert!(c.follow_symlinks);
    assert!(!c.use_regex);
    assert_eq!(c.exclude, vec![b("target")]);
    assert_eq!(c.patterns, vec![b("foo")]);
    assert_eq!(c.output_mode, OutputMode::Default);
}

#[test]
fn config_mode_selection() {
    let c = SearchConfig::from_cli(&parse(&["rsgrep", "foo", "-n"]).unwrap()).unwrap();
    assert_eq!(c.output_mode, OutputMode::LineNumbers);
    let c = SearchConfig::from_cli(&parse(&["rsgrep", "foo", "-l"]).unwrap()).unwrap();
    assert_eq!(c.output_mode, OutputMode::PathsWithMatch);
    let c = SearchConfig::from_cli(&parse(&["rsgrep", "foo", "-L"]).unwrap()).unwrap();
    assert_eq!(c.output_mode, OutputMode::PathsWithoutMatch);
}

#[test]
fn conflicting_modes_are_rejected() {
    let r = SearchConfig::from_cli(&parse(&["rsgrep", "foo", "-lL"]).unwrap());
    assert_eq!(r.unwrap_err(), ConfigError::ModeConflict);
    let r = SearchConfig::from_cli(&parse(&["rsgrep", "foo", "-nl"]).unwrap());
    assert_eq!(r.unwrap_err(), ConfigError::ModeConflict);
}

#[test]
fn regex_flag_switches_pattern_kind() {
    let cli = parse(&["rsgrep", "-R", "a.*", "b+"]).unwrap();
    let c = SearchConfig::from_cli(&cli).unwrap();
    assert!(c.use_regex);
    assert_eq!(c.regexes, vec![b("a.*"), b("b+")]);
    assert_eq!(c.patterns, Vec::<Vec<u8>>::new());
}

#[test]
fn lone_dash_matches_nothing() {
    let cli = parse(&["rsgrep", "-", "foo"]).unwrap();
    assert_eq!(cli.matched_flags.len(), 0);
    assert_eq!(cli.free_args, vec![b("foo")]);
}

#[test]
fn values_after_combined_flags_attach_to_last() {
    let cli = parse(&["rsgrep", "foo", "-re", "target"]).unwrap();
    let e = cli.find_user_flag_by_id(b'e').unwrap();
    assert_eq!(e.values, vec![b("target")]);
    let r = cli.find_user_flag_by_id(b'r').unwrap();
    assert_eq!(r.values, Vec::<Vec<u8>>::new());
}
