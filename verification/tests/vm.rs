use temuera_headless::assoc::AssocMap;
use temuera_headless::csv::{CsvCatalog, CsvFile, CsvRow};
use temuera_headless::script::{
    FunctionDef, ScriptCatalog, ScriptFile, ScriptFileKind, ScriptIndex, ScriptLine, ScriptLineKind,
    ScriptLocation,
};
use temuera_headless::vm::{StopReason, Vm};

fn catalog(lines: &[&str]) -> ScriptCatalog {
    let script_lines = std::iter::once("@TEST")
        .chain(lines.iter().copied())
        .enumerate()
        .map(|(index, text)| ScriptLine {
            line_no: index + 1,
            text: text.to_owned(),
            kind: if text.starts_with('@') {
                ScriptLineKind::Function
            } else if text.starts_with('$') {
                ScriptLineKind::Label
            } else {
                ScriptLineKind::Instruction
            },
        })
        .collect();
    ScriptCatalog {
        files: vec![ScriptFile {
            path: "TEST.ERB".to_owned(),
            relative_path: "ERB/TEST.ERB".to_owned(),
            kind: ScriptFileKind::Erb,
            lines: script_lines,
        }],
        index: ScriptIndex {
            functions: vec![FunctionDef {
                name: "TEST".to_owned(),
                location: ScriptLocation {
                    file: "ERB/TEST.ERB".to_owned(),
                    line_no: 1,
                },
            }],
            labels: AssocMap::new(),
        },
        enabled_lines: lines.len(),
    }
}

#[test]
fn executes_print_assignment_and_if() {
    let scripts = catalog(&["FLAG:1 = 1", "IF FLAG:1 == 1", "PRINTL yes", "ELSE", "PRINTL no", "ENDIF"]);
    let csv = CsvCatalog::default();
    let mut vm = Vm::new(&scripts, &csv);
    let report = vm.run_function("TEST", 100);
    assert_eq!(report.stop_reason, StopReason::EndOfFunction);
    assert_eq!(report.output, vec!["yes"]);
}

#[test]
fn stops_at_input() {
    let scripts = catalog(&["PRINTL before", "INPUT", "PRINTL after"]);
    let csv = CsvCatalog::default();
    let mut vm = Vm::new(&scripts, &csv);
    let report = vm.run_function("TEST", 100);
    assert_eq!(report.stop_reason, StopReason::NeedInput);
    assert_eq!(report.output, vec!["before"]);
}

#[test]
fn consumes_queued_input_as_result() {
    let scripts = catalog(&["INPUT", "IF RESULT == 0", "PRINTL zero", "ELSE", "PRINTL other", "ENDIF"]);
    let csv = CsvCatalog::default();
    let mut vm = Vm::new(&scripts, &csv);
    vm.push_input("0");
    let report = vm.run_function("TEST", 100);
    assert_eq!(report.stop_reason, StopReason::EndOfFunction);
    assert_eq!(report.output, vec!["zero"]);
}

#[test]
fn supports_single_line_if() {
    let scripts = catalog(&["FLAG:1 = 0", "SIF FLAG:1", "PRINTL hidden", "PRINTL shown"]);
    let csv = CsvCatalog::default();
    let mut vm = Vm::new(&scripts, &csv);
    let report = vm.run_function("TEST", 100);
    assert_eq!(report.stop_reason, StopReason::EndOfFunction);
    assert_eq!(report.output, vec!["shown"]);
}

fn run(lines: &[&str], limit: usize) -> (StopReason, usize, Vec<String>) {
    let scripts = catalog(lines);
    let csv = CsvCatalog::default();
    let mut vm = Vm::new(&scripts, &csv);
    let report = vm.run_function("TEST", limit);
    (report.stop_reason, report.steps, report.output)
}

#[test]
fn step_limit_stops_a_loop() {
    let (stop, steps, output) = run(&["$TOP", "PRINT x", "GOTO TOP"], 7);
    assert_eq!(stop, StopReason::StepLimit);
    assert_eq!(steps, 7);
    assert_eq!(output, vec!["xxx"]);
    let (stop, steps, _) = run(&["PRINTL a"], 0);
    assert_eq!((stop, steps), (StopReason::StepLimit, 0));
}

#[test]
fn for_next_repeats_the_body() {
    let (stop, steps, output) = run(&["FOR I, 0, 3", "PRINTS I", "NEXT", "PRINTL done"], 100);
    assert_eq!(stop, StopReason::EndOfFunction);
    assert_eq!(output, vec!["012", "done"]);
    assert_eq!(steps, 1 + 3 * 2 + 1);
}

#[test]
fn print_form_renders_pieces() {
    let (stop, _, output) = run(&["A = 5", "PRINTFORML a=%A%, b={A * 2}, %MISSING", "PRINTFORML {1/0}!"], 100);
    assert_eq!(stop, StopReason::EndOfFunction);
    assert_eq!(output, vec!["a=5, b=10, %MISSING", "!"]);
}

#[test]
fn bar_and_drawline_output() {
    let (_, _, output) = run(&["BAR 1, 2, 3", "DRAWLINE", "PRINT z"], 100);
    assert_eq!(output.len(), 2);
    assert_eq!(output[0], "[----------------]");
    assert_eq!(output[1], format!("{}z", "-".repeat(80)));
}

#[test]
fn errors_name_their_line() {
    let (stop, steps, _) = run(&["PRINTL a", "ENDIF"], 100);
    assert_eq!(stop, StopReason::Error("ENDIF without IF at ERB/TEST.ERB:3".to_owned()));
    assert_eq!(steps, 2);
    let (stop, _, _) = run(&["GOTO NOWHERE"], 100);
    assert_eq!(stop, StopReason::Error("label not found: NOWHERE at ERB/TEST.ERB:2".to_owned()));
    let (stop, _, _) = run(&["X = 1 +"], 100);
    assert_eq!(stop, StopReason::Error("UnexpectedEnd at ERB/TEST.ERB:2".to_owned()));
    let (stop, _, _) = run(&["PRINTS FOO(1)"], 100);
    assert_eq!(stop, StopReason::Error("InvalidVariable(\"FOO\") at ERB/TEST.ERB:2".to_owned()));
}

#[test]
fn unsupported_lines_stop_the_run() {
    let (stop, _, _) = run(&["ADDCHARA 1"], 100);
    assert_eq!(
        stop,
        StopReason::Unsupported {
            file: "ERB/TEST.ERB".to_owned(),
            line_no: 2,
            text: "ADDCHARA 1".to_owned()
        }
    );
}

#[test]
fn unknown_function_and_call_depth() {
    let scripts = catalog(&["CALL TEST"]);
    let csv = CsvCatalog::default();
    let mut vm = Vm::new(&scripts, &csv);
    let report = vm.run_function("NOPE", 10);
    assert_eq!(report.stop_reason, StopReason::FunctionNotFound("NOPE".to_owned()));
    assert_eq!(report.steps, 0);
    let report = vm.run_function("TEST", 1000);
    assert_eq!(report.stop_reason, StopReason::Error("call stack limit exceeded".to_owned()));
    assert_eq!(report.steps, 33);
}

#[test]
fn calls_share_variables_and_steps() {
    let scripts = ScriptCatalog::from_files(vec![ScriptFile::parse(
        "g/ERB/M.ERB".to_owned(),
        "ERB/M.ERB".to_owned(),
        "@MAIN\nCALL SUB\nPRINTFORML %X%\n@SUB\nX = 41\nX++\n",
    )]);
    let csv = CsvCatalog::default();
    let mut vm = Vm::new(&scripts, &csv);
    let report = vm.run_function("main", 100);
    assert_eq!(report.stop_reason, StopReason::EndOfFunction);
    assert_eq!(report.output, vec!["42"]);
    assert_eq!(report.steps, 4);
}

#[test]
fn string_input_goes_to_results() {
    let (stop, _, _) = run(&["INPUTS"], 10);
    assert_eq!(stop, StopReason::NeedInput);
    let scripts = catalog(&["INPUTS", "PRINTS RESULTS + \"!\""]);
    let csv = CsvCatalog::default();
    let mut vm = Vm::new(&scripts, &csv);
    vm.push_input("abc");
    let report = vm.run_function("TEST", 10);
    assert_eq!(report.output, vec!["abc!"]);
}

#[test]
fn csv_names_resolve_in_forms_and_addresses() {
    let csv = CsvCatalog::from_files(vec![CsvFile {
        path: "g/CSV/Talent.csv".to_owned(),
        relative_path: "CSV/Talent.csv".to_owned(),
        rows: vec![CsvRow { line_no: 1, cells: vec!["2".to_owned(), "性別".to_owned()] }],
    }]);
    let scripts = catalog(&["TALENT:0:性別 = 7", "PRINTFORML %TALENTNAME:2% {TALENT:0:2}"]);
    let mut vm = Vm::new(&scripts, &csv);
    let report = vm.run_function("TEST", 10);
    assert_eq!(report.output, vec!["性別 7"]);
}

#[test]
fn elseif_takes_first_true_branch() {
    let (_, _, output) = run(
        &["X = 2", "IF X == 1", "PRINTL one", "ELSEIF X == 2", "PRINTL two", "ELSEIF X == 2", "PRINTL again", "ELSE", "PRINTL other", "ENDIF"],
        100,
    );
    assert_eq!(output, vec!["two"]);
}
