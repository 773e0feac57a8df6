use temuera_headless::console::{game_title, parse_console_command, stop_reason_text, value_of_text, yes_no, ConsoleCommand};
use temuera_headless::csv::{CsvCatalog, CsvFile, CsvRow};
use temuera_headless::runtime::Value;
use temuera_headless::vm::StopReason;

#[test]
fn reads_simple_commands() {
    assert_eq!(parse_console_command(":q\n"), ConsoleCommand::Quit);
    assert_eq!(parse_console_command(":quit  "), ConsoleCommand::Quit);
    assert_eq!(parse_console_command(":help"), ConsoleCommand::Help);
    assert_eq!(parse_console_command(":scan"), ConsoleCommand::Scan);
    assert_eq!(parse_console_command(""), ConsoleCommand::Empty);
    assert_eq!(parse_console_command("1"), ConsoleCommand::Unknown("1".to_owned()));
    assert_eq!(parse_console_command(" :help"), ConsoleCommand::Unknown(" :help".to_owned()));
}

#[test]
fn reads_run_commands() {
    assert_eq!(
        parse_console_command(":run EVENTFIRST 50"),
        ConsoleCommand::Run { name: "EVENTFIRST".to_owned(), limit: 50 }
    );
    assert_eq!(
        parse_console_command(":run  MAIN  x"),
        ConsoleCommand::Run { name: "MAIN".to_owned(), limit: 200 }
    );
    assert_eq!(parse_console_command(":run   "), ConsoleCommand::Unknown(":run".to_owned()));
    assert_eq!(parse_console_command(":run  \u{3000}x"), ConsoleCommand::Run { name: "x".to_owned(), limit: 200 });
    assert_eq!(
        parse_console_command(":run-with MAIN 1 abc"),
        ConsoleCommand::RunWith { name: "MAIN".to_owned(), inputs: vec!["1".to_owned(), "abc".to_owned()] }
    );
    assert_eq!(parse_console_command(":run +7"), ConsoleCommand::Run { name: "+7".to_owned(), limit: 200 });
    assert_eq!(parse_console_command(":run A +7"), ConsoleCommand::Run { name: "A".to_owned(), limit: 7 });
}

#[test]
fn reads_lookup_commands() {
    assert_eq!(parse_console_command(":find  foo "), ConsoleCommand::Find("foo".to_owned()));
    assert_eq!(parse_console_command(":find :find bar"), ConsoleCommand::Find("bar".to_owned()));
    assert_eq!(
        parse_console_command(":name TALENT 性別"),
        ConsoleCommand::Name { table: "TALENT".to_owned(), name: "性別".to_owned() }
    );
    assert_eq!(parse_console_command(":name TALENT"), ConsoleCommand::NameUsage);
    assert_eq!(
        parse_console_command(":var FLAG:1 = 3"),
        ConsoleCommand::VarSet { address: "FLAG:1".to_owned(), value: "3".to_owned() }
    );
    assert_eq!(parse_console_command(":var FLAG:1"), ConsoleCommand::VarShow("FLAG:1".to_owned()));
    assert_eq!(parse_console_command(":eval 1 + 2"), ConsoleCommand::Eval("1 + 2".to_owned()));
    assert_eq!(parse_console_command(":parse MAIN"), ConsoleCommand::Parse("MAIN".to_owned()));
}

#[test]
fn stop_reason_texts() {
    assert_eq!(stop_reason_text(&StopReason::EndOfFunction), "end of function");
    assert_eq!(stop_reason_text(&StopReason::NeedInput), "need input");
    assert_eq!(stop_reason_text(&StopReason::StepLimit), "step limit");
    assert_eq!(stop_reason_text(&StopReason::FunctionNotFound("X".to_owned())), "function not found: X");
    assert_eq!(stop_reason_text(&StopReason::Error("bad".to_owned())), "error: bad");
    assert_eq!(
        stop_reason_text(&StopReason::Unsupported { file: "ERB/A.ERB".to_owned(), line_no: 12, text: "T".to_owned() }),
        "unsupported at ERB/A.ERB:12: T"
    );
    assert_eq!(yes_no(true), "yes");
    assert_eq!(yes_no(false), "no");
}

#[test]
fn typed_values() {
    assert_eq!(value_of_text("-12"), Value::Int(-12));
    assert_eq!(value_of_text("+3"), Value::Int(3));
    assert_eq!(value_of_text("1e3"), Value::Str("1e3".to_owned()));
    assert_eq!(value_of_text("99999999999999999999"), Value::Str("99999999999999999999".to_owned()));
}

#[test]
fn title_comes_from_game_base() {
    let base = CsvFile {
        path: "g/CSV/GameBase.csv".to_owned(),
        relative_path: "CSV/GameBase.csv".to_owned(),
        rows: vec![
            CsvRow { line_no: 1, cells: vec!["コード".to_owned(), "1".to_owned()] },
            CsvRow { line_no: 2, cells: vec!["タイトル".to_owned(), "eraTest".to_owned()] },
        ],
    };
    let csv = CsvCatalog::from_files(vec![base]);
    assert_eq!(game_title(&csv), Some("eraTest".to_owned()));
    assert_eq!(game_title(&CsvCatalog::default()), None);
}
