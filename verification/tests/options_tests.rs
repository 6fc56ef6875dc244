use maintenance_burden::options::{CliError, Command, Options};

#[test]
fn parse_collects_verbose_and_paths() {
    let args = vec!["--verbose".to_string(), "a.txt".to_string(), "b.txt".to_string()];
    match Options::parse(&args) {
        Ok(Command::Run(options)) => {
            assert!(options.verbose);
            assert_eq!(options.paths, vec!["a.txt".to_string(), "b.txt".to_string()]);
        },
        _ => panic!("expected a run command"),
    }
}

#[test]
fn parse_empty_args_runs_quietly() {
    match Options::parse(&Vec::new()) {
        Ok(Command::Run(options)) => {
            assert!(!options.verbose);
            assert!(options.paths.is_empty());
        },
        _ => panic!("expected a run command"),
    }
}

#[test]
fn help_and_version_win_immediately() {
    let help = vec!["--verbose".to_string(), "-h".to_string(), "x".to_string()];
    assert!(matches!(Options::parse(&help), Ok(Command::ShowHelp)));
    let help_long = vec!["--help".to_string()];
    assert!(matches!(Options::parse(&help_long), Ok(Command::ShowHelp)));
    let version = vec!["-V".to_string()];
    assert!(matches!(Options::parse(&version), Ok(Command::ShowVersion)));
    let version_long = vec!["--version".to_string()];
    assert!(matches!(Options::parse(&version_long), Ok(Command::ShowVersion)));
}

#[test]
fn unknown_flag_is_an_error() {
    let args = vec!["--frobnicate".to_string()];
    match Options::parse(&args) {
        Err(CliError::UnexpectedFlag(flag)) => assert_eq!(flag, "--frobnicate"),
        _ => panic!("expected an unexpected-flag error"),
    }
}

#[test]
fn included_path_restricts_to_listed_paths() {
    let unrestricted = Options { verbose: false, paths: Vec::new() };
    assert!(unrestricted.included_path(&"anything".to_string()));
    let restricted = Options {
        verbose: false,
        paths: vec!["a.txt".to_string(), "b.txt".to_string()],
    };
    assert!(restricted.included_path(&"a.txt".to_string()));
    assert!(restricted.included_path(&"b.txt".to_string()));
    assert!(!restricted.included_path(&"c.txt".to_string()));
}

#[test]
fn default_options_are_quiet_and_unrestricted() {
    let options = Options::default();
    assert!(!options.verbose);
    assert!(options.paths.is_empty());
}
