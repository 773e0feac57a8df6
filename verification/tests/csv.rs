use temuera_headless::csv::{build_name_tables, parse_csv, parse_csv_line, CsvCatalog, CsvFile, CsvRow};

#[test]
fn parses_comments_quotes_and_empty_cells() {
    assert_eq!(parse_csv_line(";comment"), Vec::<String>::new());
    assert_eq!(parse_csv_line("1,\"two, too\",,4,; comment"), vec!["1", "two, too", "", "4"]);
}

#[test]
fn builds_name_tables_from_numeric_rows() {
    let file = CsvFile {
        path: "Talent.csv".to_owned(),
        relative_path: "CSV/Talent.csv".to_owned(),
        rows: vec![CsvRow {
            line_no: 1,
            cells: vec!["2".to_owned(), "性別".to_owned()],
        }],
    };
    let tables = build_name_tables(&[file]);
    let table = tables.get(&"TALENT".to_owned()).unwrap();
    assert_eq!(table.by_name.get(&"性別".to_owned()), Some(&2));
    assert_eq!(table.by_id.get(&2).map(String::as_str), Some("性別"));
}

fn talent_file() -> CsvFile {
    CsvFile {
        path: "game/CSV/Talent.csv".to_owned(),
        relative_path: "CSV/Talent.csv".to_owned(),
        rows: parse_csv("0,Male\n1,female\n1,Other\n2,male\nx,Skip\n3,;hidden\n"),
    }
}

#[test]
fn parse_csv_skips_empty_and_comment_lines() {
    let rows = parse_csv("a,b\n\n;c\n d , e \n");
    assert_eq!(rows.len(), 2);
    assert_eq!(rows[0].line_no, 1);
    assert_eq!(rows[1].line_no, 4);
    assert_eq!(rows[1].cells, vec!["d", "e"]);
}

#[test]
fn name_tables_keep_first_id_and_first_name() {
    let catalog = CsvCatalog::from_files(vec![talent_file()]);
    assert_eq!(catalog.rows, 6);
    assert_eq!(catalog.resolve_name("talent", "MALE"), Some(0));
    assert_eq!(catalog.resolve_name("TALENT", "female"), Some(1));
    assert_eq!(catalog.name_for_id("Talent", 1), Some("female"));
    assert_eq!(catalog.name_for_id("Talent", 3), None);
    assert_eq!(catalog.resolve_name("TALENT", "Skip"), None);
    assert_eq!(catalog.resolve_name("ABL", "Male"), None);
}

#[test]
fn finds_files_by_name_ignoring_case() {
    let catalog = CsvCatalog::from_files(vec![talent_file()]);
    assert_eq!(catalog.get_file("talent.CSV").map(|f| f.relative_path.as_str()), Some("CSV/Talent.csv"));
    assert!(catalog.get_file("Talent").is_none());
    assert!(CsvCatalog::default().get_file("Talent.csv").is_none());
}

#[test]
fn quoted_cells_keep_semicolons_and_spaces() {
    assert_eq!(parse_csv_line("\" a;b \", c"), vec!["a;b", "c"]);
    assert_eq!(parse_csv_line("\"say \"\"hi\"\"\",2"), vec!["say \"hi\"", "2"]);
    assert_eq!(parse_csv_line("x,,"), vec!["x", "", ""]);
}

#[test]
fn catalog_orders_files_by_relative_path() {
    let file = |rel: &str| CsvFile { path: format!("/g/{rel}"), relative_path: rel.to_owned(), rows: parse_csv("1,a\n") };
    let catalog = CsvCatalog::from_files(vec![file("CSV/b.csv"), file("CSV/a.csv"), file("CSV/Sub/c.csv")]);
    let order: Vec<&str> = catalog.files.iter().map(|f| f.relative_path.as_str()).collect();
    assert_eq!(order, vec!["CSV/Sub/c.csv", "CSV/a.csv", "CSV/b.csv"]);
    assert_eq!(catalog.rows, 3);
}

#[test]
fn files_read_under_a_root_keep_their_relative_path() {
    let file = CsvFile::read("/games/era/CSV/Talent.csv".to_owned(), "/games/era", "0,Male\n");
    assert_eq!(file.relative_path, "CSV/Talent.csv");
    assert_eq!(file.rows.len(), 1);
    let outside = CsvFile::read("/elsewhere/Abl.csv".to_owned(), "/games/era", "");
    assert_eq!(outside.relative_path, "/elsewhere/Abl.csv");
    assert!(outside.rows.is_empty());
}
