use temuera_headless::script::{
    classify_line, parse_function_name, parse_label_name, parse_script_lines, ScriptCatalog, ScriptFile,
    ScriptFileKind, ScriptLineKind,
};

#[test]
fn classifies_erb_lines() {
    assert_eq!(classify_line(";x"), ScriptLineKind::Comment);
    assert_eq!(classify_line("@EVENTFIRST"), ScriptLineKind::Function);
    assert_eq!(classify_line("$LOOP"), ScriptLineKind::Label);
    assert_eq!(classify_line("#DIM X"), ScriptLineKind::Directive);
    assert_eq!(classify_line("PRINTL hi"), ScriptLineKind::Instruction);
}

#[test]
fn parses_function_names() {
    assert_eq!(parse_function_name("@FOO(ARG, BAR) ; comment"), Some("FOO".to_owned()));
}

#[test]
fn classifies_blank_bracket_and_bom_lines() {
    assert_eq!(classify_line("  \t"), ScriptLineKind::Empty);
    assert_eq!(classify_line("[SKIPSTART]"), ScriptLineKind::Directive);
    assert_eq!(classify_line("[IF_DEBUG"), ScriptLineKind::Instruction);
    assert_eq!(classify_line("\u{feff}@MAIN"), ScriptLineKind::Function);
}

#[test]
fn symbol_names_are_upper_cased_and_need_a_name() {
    assert_eq!(parse_label_name("  $ loop_1 ; x"), Some("LOOP_1".to_owned()));
    assert_eq!(parse_function_name("@"), None);
    assert_eq!(parse_function_name("$LABEL"), None);
}

fn file(path: &str, rel: &str, text: &str) -> ScriptFile {
    ScriptFile::parse(path.to_owned(), rel.to_owned(), text)
}

#[test]
fn catalog_indexes_functions_and_labels() {
    let a = file("g/ERB/A.ERB", "ERB/A.ERB", "@ZED\n$L1\nPRINTL a\n@ALPHA\n;c\n\n$L1\nPRINTL b\n");
    let b = file("g/ERB/B.erh", "ERB/B.erh", "#DIM X\n@ALPHA\n$L2\n");
    assert_eq!(a.kind, ScriptFileKind::Erb);
    assert_eq!(b.kind, ScriptFileKind::Erh);
    let catalog = ScriptCatalog::from_files(vec![a, b]);
    let names: Vec<&str> = catalog.index.functions.iter().map(|f| f.name.as_str()).collect();
    assert_eq!(names, vec!["ALPHA", "ALPHA", "ZED"]);
    assert_eq!(catalog.index.functions[0].location.file, "ERB/A.ERB");
    assert_eq!(catalog.index.functions[1].location.file, "ERB/B.erh");
    assert_eq!(catalog.enabled_lines, 9);
    let l1 = catalog.index.labels.get(&"L1".to_owned()).unwrap();
    assert_eq!((l1.file.as_str(), l1.line_no), ("ERB/A.ERB", 2));
    assert!(catalog.index.labels.contains_key(&"L2".to_owned()));
    assert_eq!(catalog.index.labels.len(), 2);
}

#[test]
fn function_lines_run_to_next_definition() {
    let a = file("g/ERB/A.ERB", "ERB/A.ERB", "@ONE\nPRINTL 1\n$X\n@TWO\nPRINTL 2\n");
    let catalog = ScriptCatalog::from_files(vec![a]);
    let one = catalog.function_lines("one").unwrap();
    let texts: Vec<&str> = one.iter().map(|l| l.line.text.as_str()).collect();
    assert_eq!(texts, vec!["PRINTL 1", "$X"]);
    assert_eq!(one[0].file.as_str(), "ERB/A.ERB");
    assert_eq!(one[0].line.line_no, 2);
    let two = catalog.function_lines("TWO").unwrap();
    assert_eq!(two.len(), 1);
    assert!(catalog.function_lines("THREE").is_none());
    assert_eq!(catalog.find_function("two").map(|f| f.location.line_no), Some(4));
}

#[test]
fn script_lines_are_numbered_and_classified() {
    let lines = parse_script_lines("@A\r\n  PRINT x\n\n");
    assert_eq!(lines.len(), 3);
    assert_eq!(lines[0].text, "@A");
    assert_eq!(lines[0].kind, ScriptLineKind::Function);
    assert_eq!(lines[1].line_no, 2);
    assert_eq!(lines[2].kind, ScriptLineKind::Empty);
}

#[test]
fn catalog_orders_files_by_path_and_functions_by_name_then_file() {
    let catalog = ScriptCatalog::from_files(vec![
        ScriptFile::parse("/g/ERB/2.ERB".to_owned(), "ERB/a.ERB".to_owned(), "@same\n@ZED\n"),
        ScriptFile::parse("/g/ERB/1.ERB".to_owned(), "ERB/z.ERB".to_owned(), "@SAME\n"),
    ]);
    let paths: Vec<&str> = catalog.files.iter().map(|f| f.path.as_str()).collect();
    assert_eq!(paths, vec!["/g/ERB/1.ERB", "/g/ERB/2.ERB"]);
    let functions: Vec<(&str, &str)> =
        catalog.index.functions.iter().map(|f| (f.name.as_str(), f.location.file.as_str())).collect();
    assert_eq!(functions, vec![("SAME", "ERB/a.ERB"), ("SAME", "ERB/z.ERB"), ("ZED", "ERB/a.ERB")]);
}

#[test]
fn script_files_read_under_a_root_keep_their_relative_path() {
    let file = ScriptFile::read("/games/era/ERB/MAIN.ERH".to_owned(), "/games/era/", "#DIM X\n");
    assert_eq!(file.relative_path, "ERB/MAIN.ERH");
    assert_eq!(file.kind, ScriptFileKind::Erh);
    assert_eq!(file.lines.len(), 1);
}
