use temuera_headless::banner::print_banner;
use temuera_headless::config::ConfigFile;
use temuera_headless::csv::{parse_csv, CsvCatalog, CsvFile};
use temuera_headless::expr::ExprError;
use temuera_headless::game::{Game, GamePaths, ResourceSummary};
use temuera_headless::instruction::Instruction;
use temuera_headless::runtime::{Value, VarAddress, VarStore};
use temuera_headless::script::{ScriptCatalog, ScriptFile};
use temuera_headless::session::{console_step, physical_line_count, ConsoleAction};
use temuera_headless::terminal::Terminal;

fn sample_game(config: ConfigFile) -> Game {
    let csv = CsvCatalog::from_files(vec![
        CsvFile {
            path: "/g/CSV/Talent.csv".to_owned(),
            relative_path: "CSV/Talent.csv".to_owned(),
            rows: parse_csv("0,性別\n1,Smart\n"),
        },
        CsvFile {
            path: "/g/CSV/GameBase.csv".to_owned(),
            relative_path: "CSV/GameBase.csv".to_owned(),
            rows: parse_csv("タイトル,eraTest\n"),
        },
    ]);
    let scripts = ScriptCatalog::from_files(vec![
        ScriptFile::parse("/g/ERB/B.ERB".to_owned(), "ERB/B.ERB".to_owned(), "@SECOND\nPRINTL two\n"),
        ScriptFile::parse(
            "/g/ERB/A.ERB".to_owned(),
            "ERB/A.ERB".to_owned(),
            "@MAIN\nPRINTL hello\nINPUT\nIF RESULT == 7\nPRINTL seven\nENDIF\n",
        ),
        ScriptFile::parse("/g/ERB/X.ERH".to_owned(), "ERB/X.ERH".to_owned(), "#DIM FOO\n"),
    ]);
    Game {
        paths: GamePaths {
            source_dir: "/g".to_owned(),
            runtime_dir: "/r".to_owned(),
            csv_dir: Some("/g/CSV".to_owned()),
            erb_dir: Some("/g/ERB".to_owned()),
            dat_dir: None,
            debug_dir: None,
            resources_dir: None,
            sav_dir: None,
        },
        resources: ResourceSummary {
            erb_files: 2,
            csv_files: 2,
            dat_files: 0,
            save_files: 1,
            has_config: true,
            has_sav_dir: false,
        },
        config,
        csv,
        scripts,
    }
}

fn printed(action: ConsoleAction) -> Vec<String> {
    match action {
        ConsoleAction::Print(lines) => lines,
        other => panic!("expected printed lines, got {other:?}"),
    }
}

fn step(game: &Game, variables: &mut VarStore, line: &str) -> Vec<String> {
    printed(console_step(game, variables, line))
}

#[test]
fn console_quits_clears_and_ignores_empty_lines() {
    let game = sample_game(ConfigFile::new());
    let mut vars = VarStore::new();
    assert!(matches!(console_step(&game, &mut vars, ":quit\n"), ConsoleAction::Quit));
    assert!(matches!(console_step(&game, &mut vars, ":q"), ConsoleAction::Quit));
    assert!(matches!(console_step(&game, &mut vars, ":clear"), ConsoleAction::Clear));
    assert_eq!(step(&game, &mut vars, "   \n"), Vec::<String>::new());
}

#[test]
fn console_help_lists_the_commands() {
    let game = sample_game(ConfigFile::new());
    let lines = step(&game, &mut VarStore::new(), ":help");
    assert_eq!(lines.len(), 13);
    assert_eq!(lines[0], "[headless]");
    assert_eq!(lines[8], "  :name TABLE NAME  resolve a CSV name, e.g. :name TALENT 性別");
    assert_eq!(lines[12], "  :quit   exit");
}

#[test]
fn console_paths_mark_missing_directories() {
    let game = sample_game(ConfigFile::new());
    assert_eq!(
        step(&game, &mut VarStore::new(), ":paths"),
        vec![
            "source : /g",
            "runtime: /r",
            "csv: /g/CSV",
            "erb: /g/ERB",
            "dat: <missing>",
            "debug: <missing>",
            "resources: <missing>",
            "sav: <missing>",
        ]
    );
}

#[test]
fn console_scan_counts_scripts_by_kind() {
    let game = sample_game(ConfigFile::new());
    assert_eq!(
        step(&game, &mut VarStore::new(), ":scan"),
        vec![
            "resources: 2 ERB, 2 CSV, 0 DAT, 1 SAV, config=yes, sav_dir=no",
            "loaded: 0 config entries, 2 CSV files, 3 CSV rows, 1 name tables, 3 script files, 9 enabled script lines",
            "scripts: 2 ERB, 1 ERH, 9 physical lines",
            "first script: ERB/A.ERB (/g/ERB/A.ERB)",
        ]
    );
    assert_eq!(physical_line_count(&game.scripts.files), Some(9));
}

#[test]
fn console_lists_and_finds_functions() {
    let game = sample_game(ConfigFile::new());
    let mut vars = VarStore::new();
    assert_eq!(step(&game, &mut vars, ":functions"), vec!["MAIN @ ERB/A.ERB:1", "SECOND @ ERB/B.ERB:1"]);
    assert_eq!(step(&game, &mut vars, ":find second"), vec!["SECOND @ ERB/B.ERB:1"]);
    assert_eq!(step(&game, &mut vars, ":find NOPE"), vec!["function not found: NOPE"]);
}

#[test]
fn console_listing_stops_after_forty_functions() {
    let text: String = (0..45).map(|i| format!("@F{i:02}\n")).collect();
    let mut game = sample_game(ConfigFile::new());
    game.scripts = ScriptCatalog::from_files(vec![ScriptFile::parse("/g/ERB/F.ERB".to_owned(), "ERB/F.ERB".to_owned(), &text)]);
    let lines = step(&game, &mut VarStore::new(), ":functions");
    assert_eq!(lines.len(), 41);
    assert_eq!(lines[0], "F00 @ ERB/F.ERB:1");
    assert_eq!(lines[39], "F39 @ ERB/F.ERB:40");
    assert_eq!(lines[40], "... 5 more");
}

#[test]
fn console_parses_function_bodies() {
    let game = sample_game(ConfigFile::new());
    let mut vars = VarStore::new();
    match console_step(&game, &mut vars, ":parse SECOND") {
        ConsoleAction::Parsed(lines) => {
            assert_eq!(lines.len(), 1);
            assert_eq!((lines[0].file.as_str(), lines[0].line_no), ("ERB/B.ERB", 2));
            assert_eq!(lines[0].instruction, Instruction::Print { text: "two".to_owned(), newline: true });
        }
        other => panic!("unexpected {other:?}"),
    }
    assert_eq!(step(&game, &mut vars, ":parse NOPE"), vec!["function not found: NOPE"]);
}

#[test]
fn console_runs_functions_with_and_without_input() {
    let game = sample_game(ConfigFile::new());
    let mut vars = VarStore::new();
    assert_eq!(step(&game, &mut vars, ":run MAIN"), vec!["hello", "vm stopped after 2 steps: need input"]);
    assert_eq!(step(&game, &mut vars, ":run MAIN 1"), vec!["hello", "vm stopped after 1 steps: step limit"]);
    assert_eq!(
        step(&game, &mut vars, ":run-with MAIN 7"),
        vec!["hello", "seven", "vm stopped after 5 steps: end of function"]
    );
    assert_eq!(step(&game, &mut vars, ":run NOPE"), vec!["vm stopped after 0 steps: function not found: NOPE"]);
    assert_eq!(
        step(&game, &mut vars, ":run "),
        vec!["Rust script execution is not wired yet; received input \":run\"."]
    );
}

#[test]
fn console_resolves_csv_names() {
    let game = sample_game(ConfigFile::new());
    let mut vars = VarStore::new();
    assert_eq!(step(&game, &mut vars, ":name talent smart"), vec!["talent:Smart = 1 (CSV/Talent.csv)"]);
    assert_eq!(step(&game, &mut vars, ":name TALENT 性別"), vec!["TALENT:性別 = 0 (CSV/Talent.csv)"]);
    assert_eq!(step(&game, &mut vars, ":name TALENT Tall"), vec!["name not found: TALENT:Tall"]);
    assert_eq!(step(&game, &mut vars, ":name TALENT"), vec!["usage: :name TABLE NAME"]);
}

#[test]
fn console_sets_and_shows_variables() {
    let game = sample_game(ConfigFile::new());
    let mut vars = VarStore::new();
    let flag = VarAddress { name: "FLAG".to_owned(), indexes: vec![3] };
    match console_step(&game, &mut vars, ":var FLAG:3 = 12") {
        ConsoleAction::VarStored { address, value, count } => {
            assert_eq!((address, value, count), (flag.clone(), Value::Int(12), 1));
        }
        other => panic!("unexpected {other:?}"),
    }
    match console_step(&game, &mut vars, ":var flag:3") {
        ConsoleAction::VarShown { address, value } => assert_eq!((address, value), (flag.clone(), Value::Int(12))),
        other => panic!("unexpected {other:?}"),
    }
    assert_eq!(vars.get(&flag), Value::Int(12));
    assert_eq!(step(&game, &mut vars, ":var :3=1"), vec!["invalid variable address: :3"]);
    assert_eq!(step(&game, &mut vars, ":var :3"), vec!["usage: :var ADDRESS[=VALUE]"]);
    assert_eq!(vars.len(), 1);
}

#[test]
fn console_evaluates_expressions_over_its_variables() {
    let game = sample_game(ConfigFile::new());
    let mut vars = VarStore::new();
    console_step(&game, &mut vars, ":var A=4");
    match console_step(&game, &mut vars, ":eval A * 2 + 1") {
        ConsoleAction::Evaluated(result) => assert_eq!(result, Ok(Value::Int(9))),
        other => panic!("unexpected {other:?}"),
    }
    match console_step(&game, &mut vars, ":eval (1") {
        ConsoleAction::Evaluated(Err(ExprError::UnexpectedToken(token))) => assert_eq!(token, "<end>"),
        other => panic!("unexpected {other:?}"),
    }
}

#[test]
fn console_answers_unknown_input() {
    let game = sample_game(ConfigFile::new());
    assert_eq!(
        step(&game, &mut VarStore::new(), "hello \"you\""),
        vec!["Rust script execution is not wired yet; received input \"hello \\\"you\\\"\"."]
    );
}

#[test]
fn banner_describes_the_opened_game() {
    let config = ConfigFile::from_text("/g/emuera.config".to_owned(), "TextColor:1,2,3\n");
    let game = sample_game(config);
    let mut terminal = Terminal::new();
    print_banner(&mut terminal, &game, false);
    let normal = "\x1b[38;2;255;128;64m\x1b[48;2;0;0;0m";
    let text = terminal.flush();
    let lines: Vec<&str> = text.lines().collect();
    assert_eq!(lines.len(), 12);
    assert_eq!(lines[0], format!("{normal}\x1b[1mtEmuera Rust headless\x1b[0m"));
    assert_eq!(lines[1], format!("{normal}{}\x1b[0m", "-".repeat(40)));
    assert_eq!(lines[2], format!("{normal}source : /g\x1b[0m"));
    assert_eq!(lines[4], format!("{normal}resources: 2 ERB, 2 CSV, 0 DAT, 1 SAV\x1b[0m"));
    assert_eq!(lines[5], format!("{normal}config: yes, sav dir: no, warnings: hidden\x1b[0m"));
    assert_eq!(lines[6], format!("{normal}config path: /g/emuera.config\x1b[0m"));
    assert_eq!(lines[7], format!("{normal}config text color: 1,2,3\x1b[0m"));
    assert_eq!(
        lines[8],
        format!("{normal}loaded: 1 config entries, 3 CSV rows, 3 script files, 2 functions, 0 labels\x1b[0m")
    );
    assert_eq!(lines[9], format!("{normal}title: eraTest\x1b[0m"));
    assert_eq!(lines[10], format!("{normal}\x1b[0m"));
}
