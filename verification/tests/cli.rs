use temuera_headless::cli::{parse, usage, Command, Options};
use temuera_headless::error::HeadlessError;

fn args(list: &[&str]) -> Vec<String> {
    list.iter().map(|a| a.to_string()).collect()
}

#[test]
fn parses_flags_and_game_dir() {
    let command = parse(args(&["--show-warnings", "--no-overlay", "game"])).unwrap();
    assert_eq!(
        command,
        Command::Run(Options {
            game_dir: "game".to_owned(),
            show_warnings: true,
            no_overlay: true,
        })
    );
}

#[test]
fn rejects_multiple_game_dirs() {
    assert!(parse(args(&["game-a", "game-b"])).is_err());
}

#[test]
fn help_flag_wins_over_later_arguments() {
    assert_eq!(parse(args(&["-h", "--bogus"])).unwrap(), Command::Help);
    assert_eq!(parse(args(&["game", "--help"])).unwrap(), Command::Help);
}

#[test]
fn reports_unknown_option() {
    match parse(args(&["--verbose", "game"])) {
        Err(HeadlessError::Usage(message)) => assert_eq!(message, "unknown option: --verbose"),
        other => panic!("unexpected {:?}", other),
    }
}

#[test]
fn reports_missing_game_dir() {
    match parse(args(&["--no-overlay"])) {
        Err(HeadlessError::Usage(message)) => assert_eq!(message, "missing required game directory"),
        other => panic!("unexpected {:?}", other),
    }
}

#[test]
fn reports_second_game_dir() {
    match parse(args(&["a", "b"])) {
        Err(HeadlessError::Usage(message)) => {
            assert_eq!(message, "only one game directory can be supplied")
        }
        other => panic!("unexpected {:?}", other),
    }
}

#[test]
fn flags_default_to_off() {
    assert_eq!(
        parse(args(&["game"])).unwrap(),
        Command::Run(Options {
            game_dir: "game".to_owned(),
            show_warnings: false,
            no_overlay: false,
        })
    );
}

#[test]
fn usage_lists_the_options_without_indentation() {
    let text = usage();
    assert!(text.starts_with("Usage: cargo run -p temuera-headless -- "));
    assert!(text.contains("\n\nOptions:\n--show-warnings   keep loader/parser warnings visible\n"));
    assert!(text.ends_with("\n-h, --help        show this help"));
}
