use temuera_headless::config::{decode_text, normalize_text};
use temuera_headless::console::value_of_text;
use temuera_headless::csv::{parse_csv_line, CsvCatalog};
use temuera_headless::error::HeadlessError;
use temuera_headless::fs_overlay::{is_special_dir, stable_path_hash};
use temuera_headless::game::{extension_matches, path_has_extension};
use temuera_headless::runtime::Value;
use temuera_headless::script::{ScriptCatalog, ScriptFile, ScriptFileKind};
use temuera_headless::terminal::emuera_columns;
use temuera_headless::text::trim_string;
use temuera_headless::vm::Vm;

#[test]
fn numbers_read_back_from_their_text() {
    for x in [0i64, 7, -7, 1234567890, i64::MAX, i64::MIN] {
        let text = Value::Int(x).to_display_string();
        assert_eq!(text, x.to_string());
        assert_eq!(value_of_text(&text), Value::Int(x));
        assert_eq!(Value::Str(text).as_int(), x);
    }
}

#[test]
fn widths_add_up() {
    let a = "ab紅";
    let b = "ｱ■";
    let joined = format!("{a}{b}");
    assert_eq!(emuera_columns(&joined), emuera_columns(a) + emuera_columns(b));
    assert_eq!(emuera_columns("plain ascii"), "plain ascii".chars().count());
    let n = "紅魔".chars().count();
    assert!(emuera_columns("紅魔") <= 2 * n);
}

#[test]
fn decoded_text_has_no_carriage_returns() {
    let text = decode_text(b"a\r\r\nb\r");
    assert!(!text.contains('\r'));
    assert_eq!(text, "a\n\nb\n");
    assert_eq!(normalize_text("\u{feff}\u{feff}x\r\ny"), "x\ny");
}

#[test]
fn overlay_names_are_sixteen_hex_digits() {
    for path in ["", "/", "/home/user/era game", "紅魔館"] {
        let name = stable_path_hash(path);
        assert_eq!(name.len(), 16);
        assert!(name.chars().all(|c| c.is_ascii_digit() || ('a'..='f').contains(&c)));
    }
}

#[test]
fn trimming_twice_is_trimming_once() {
    for text in ["", "  a b  ", "\u{3000}x\t", "\n"] {
        let once = trim_string(text);
        assert_eq!(trim_string(&once), once);
    }
}

#[test]
fn case_does_not_matter_for_lookups() {
    assert_eq!(is_special_dir("ERB"), is_special_dir("erb"));
    assert_eq!(is_special_dir("RESOURCES"), is_special_dir("Resources"));
    assert!(extension_matches(Some("ErH"), "erh"));
    assert!(!extension_matches(None, "erh"));
    assert!(path_has_extension("g/ERB/MAIN.Erb", "erb"));
    assert!(!path_has_extension("g/ERB/MAIN", "erb"));
    assert_eq!(ScriptFileKind::from_extension(Some("ERH")), ScriptFileKind::Erh);
    assert_eq!(ScriptFileKind::from_extension(Some("erb")), ScriptFileKind::Erb);
    assert_eq!(ScriptFileKind::from_path("a/b.erh"), ScriptFileKind::Erh);
}

#[test]
fn a_second_run_keeps_the_first_runs_output() {
    let scripts = ScriptCatalog::from_files(vec![ScriptFile::parse(
        "g/ERB/M.ERB".to_owned(),
        "ERB/M.ERB".to_owned(),
        "@MAIN\nPRINTL head\nPRINTL a\n@TAIL\nPRINT b\n",
    )]);
    let csv = CsvCatalog::default();
    let mut vm = Vm::new(&scripts, &csv);
    let first = vm.run_function("MAIN", 10);
    assert_eq!(first.output, vec!["head", "a"]);
    let second = vm.run_function("TAIL", 10);
    assert_eq!(second.output, vec!["head", "ab"]);
}

#[test]
fn inputs_are_taken_in_order() {
    let scripts = ScriptCatalog::from_files(vec![ScriptFile::parse(
        "g/ERB/M.ERB".to_owned(),
        "ERB/M.ERB".to_owned(),
        "@ASK\nINPUT\nPRINTFORML {RESULT}\n",
    )]);
    let csv = CsvCatalog::default();
    let mut vm = Vm::new(&scripts, &csv);
    vm.push_input("1");
    vm.push_input("2");
    vm.run_function("ASK", 10);
    let report = vm.run_function("ASK", 10);
    assert_eq!(report.output, vec!["1", "2"]);
    let report = vm.run_function("ASK", 10);
    assert_eq!(report.stop_reason, temuera_headless::vm::StopReason::NeedInput);
}

#[test]
fn functions_are_indexed_in_name_order() {
    let scripts = ScriptCatalog::from_files(vec![
        ScriptFile::parse("a".to_owned(), "A.ERB".to_owned(), "@b\n@A\n@aa\n@B\n"),
        ScriptFile::parse("b".to_owned(), "B.ERB".to_owned(), "@A\n"),
    ]);
    let names: Vec<(&str, &str)> = scripts
        .index
        .functions
        .iter()
        .map(|f| (f.name.as_str(), f.location.file.as_str()))
        .collect();
    assert_eq!(names, vec![("A", "A.ERB"), ("A", "B.ERB"), ("AA", "A.ERB"), ("B", "A.ERB"), ("B", "A.ERB")]);
}

#[test]
fn io_errors_keep_their_source_and_exit_code() {
    let err = HeadlessError::io("read x".to_owned(), std::io::Error::new(std::io::ErrorKind::Other, "boom"));
    assert_eq!(err.exit_code(), 1);
    assert!(err.source().is_some());
    assert_eq!(err.message(), "read x: boom");
    let usage = HeadlessError::Usage("bad".to_owned());
    assert_eq!(usage.exit_code(), 2);
    assert!(usage.source().is_none());
    assert_eq!(usage.message(), "bad");
    let dir = HeadlessError::InvalidGameDir("/nope".to_owned());
    assert_eq!(dir.exit_code(), 2);
    assert_eq!(dir.message(), "game directory does not exist: /nope");
}

#[test]
fn blank_and_comment_csv_lines_have_no_cells() {
    for line in ["", "   ", "\t;x", "\u{feff}  ; note", ";a,b"] {
        assert!(parse_csv_line(line).is_empty(), "{line:?}");
    }
    assert_eq!(parse_csv_line(" x ;"), vec!["x ;"]);
}
