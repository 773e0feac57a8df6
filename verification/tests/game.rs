use temuera_headless::csv::{build_name_tables, parse_csv, CsvFile};
use temuera_headless::game::{find_child_dir, path_has_extension, select_files, EntryInfo, GameLayout, ResourceSummary};

fn entry(path: &str, is_dir: bool) -> EntryInfo {
    EntryInfo {
        path: path.to_owned(),
        file_name: path.rsplit('/').next().unwrap().to_owned(),
        is_dir,
    }
}

#[test]
fn scan_counts_files_by_extension() {
    let entries = vec![
        entry("g/ERB", true),
        entry("g/ERB/A.ERB", false),
        entry("g/ERB/b.erb", false),
        entry("g/CSV/x.Csv", false),
        entry("g/sav", true),
        entry("g/sav/save01.sav", false),
        entry("g/Emuera.config", false),
        entry("g/readme.txt", false),
        entry("g/dir.erb", true),
    ];
    let summary = ResourceSummary::scan(&entries);
    assert_eq!(
        summary,
        ResourceSummary {
            erb_files: 2,
            csv_files: 1,
            dat_files: 0,
            save_files: 1,
            has_config: true,
            has_sav_dir: true,
        }
    );
    assert_eq!(ResourceSummary::scan(&vec![]), ResourceSummary::new());
}

#[test]
fn layout_finds_first_directory_ignoring_case() {
    let entries = vec![entry("g/csv.txt", false), entry("g/Csv", true), entry("g/CSV", true), entry("g/ERB", true)];
    assert_eq!(find_child_dir(&entries, "csv"), Some("g/Csv".to_owned()));
    let layout = GameLayout::discover(&entries);
    assert_eq!(layout.erb_dir, Some("g/ERB".to_owned()));
    assert_eq!(layout.dat_dir, None);
    assert_eq!(layout.csv_dir, Some("g/Csv".to_owned()));
}

#[test]
fn extensions_follow_the_last_dot_of_the_file_name() {
    assert!(path_has_extension("game/ERB/main.erb", "ERB"));
    assert!(path_has_extension("game/data.tar.GZ", "gz"));
    assert!(!path_has_extension("game/data.tar.gz", "tar"));
    assert!(!path_has_extension("game/.erb", "erb"));
    assert!(path_has_extension("game/..erb", "erb"));
    assert!(!path_has_extension("game/erb", "erb"));
    assert!(!path_has_extension("game/x.erb/..", "erb"));
    assert!(path_has_extension("game/x.", ""));
}

#[test]
fn name_tables_are_keyed_by_the_file_stem() {
    let file = |path: &str| CsvFile { path: path.to_owned(), relative_path: path.to_owned(), rows: parse_csv("1,a\n") };
    let tables = build_name_tables(&[file("CSV/Talent.old.csv"), file("CSV/.hidden"), file("CSV/Abl")]);
    assert_eq!(tables.len(), 3);
    for key in ["TALENT.OLD", ".HIDDEN", "ABL"] {
        assert!(tables.contains_key(&key.to_owned()), "{key}");
    }
}

#[test]
fn walks_select_files_by_extension() {
    let entry = |path: &str, is_dir: bool| EntryInfo {
        path: path.to_owned(),
        file_name: path.rsplit('/').next().unwrap().to_owned(),
        is_dir,
    };
    let entries = vec![
        entry("g/ERB/SYSTEM.ERB", false),
        entry("g/ERB/sub.erb", true),
        entry("g/ERB/sub.erb/a.Erb", false),
        entry("g/ERB/DIM.ERH", false),
        entry("g/ERB/notes.txt", false),
    ];
    assert_eq!(select_files(&entries, "erb"), vec!["g/ERB/SYSTEM.ERB", "g/ERB/sub.erb/a.Erb"]);
    assert_eq!(select_files(&entries, "ERH"), vec!["g/ERB/DIM.ERH"]);
    assert_eq!(select_files(&entries, "csv"), Vec::<String>::new());
}
