//! A game directory: where its resource directories are, what it holds, and
//! the loaded game.
use vstd::prelude::*;

use crate::config::ConfigFile;
use crate::csv::CsvCatalog;
use crate::paths::{extension_of, path_extension};
use crate::script::ScriptCatalog;
use crate::text::{copy_string, eq_ignore_case, eq_ignore_case_str, texts};

verus! {

/// An entry of a directory: its path, its file name and whether it is a
/// directory.
#[derive(Debug, Clone)]
pub struct EntryInfo {
    pub path: String,
    pub file_name: String,
    pub is_dir: bool,
}

#[derive(Debug)]
pub struct GamePaths {
    pub source_dir: String,
    pub runtime_dir: String,
    pub csv_dir: Option<String>,
    pub erb_dir: Option<String>,
    pub dat_dir: Option<String>,
    pub debug_dir: Option<String>,
    pub resources_dir: Option<String>,
    pub sav_dir: Option<String>,
}

/// What a game directory holds: the number of files of each kind, whether
/// there is a configuration file and a `sav` directory.
#[derive(Debug, Clone, Copy, PartialEq, Eq, Structural)]
pub struct ResourceSummary {
    pub erb_files: usize,
    pub csv_files: usize,
    pub dat_files: usize,
    pub save_files: usize,
    pub has_config: bool,
    pub has_sav_dir: bool,
}

#[derive(Debug)]
pub struct Game {
    pub paths: GamePaths,
    pub resources: ResourceSummary,
    pub config: ConfigFile,
    pub csv: CsvCatalog,
    pub scripts: ScriptCatalog,
}

/// The resource directories found at the top of a game directory.
#[derive(Debug)]
pub struct GameLayout {
    pub csv_dir: Option<String>,
    pub erb_dir: Option<String>,
    pub dat_dir: Option<String>,
    pub debug_dir: Option<String>,
    pub resources_dir: Option<String>,
    pub sav_dir: Option<String>,
}

/// Whether the file `e` has the extension `ext`, ignoring ASCII case.
pub open spec fn has_extension(e: EntryInfo, ext: Seq<char>) -> bool {
    &&& !e.is_dir
    &&& path_extension(e.path@) matches Some(x)
    &&& eq_ignore_case(x, ext)
}

/// The number of files among `entries` with the extension `ext`.
pub open spec fn count_ext(entries: Seq<EntryInfo>, ext: Seq<char>) -> nat
    decreases entries.len(),
{
    if entries.len() == 0 {
        0
    } else {
        count_ext(entries.drop_last(), ext) + if has_extension(entries.last(), ext) {
            1nat
        } else {
            0nat
        }
    }
}

/// The paths of the files among `entries` with the extension `ext`, in the
/// order of `entries`.
pub open spec fn files_with_extension(entries: Seq<EntryInfo>, ext: Seq<char>) -> Seq<Seq<char>>
    decreases entries.len(),
{
    if entries.len() == 0 {
        seq![]
    } else {
        let before = files_with_extension(entries.drop_last(), ext);
        if has_extension(entries.last(), ext) {
            before.push(entries.last().path@)
        } else {
            before
        }
    }
}

/// The paths of the files among the entries of a directory walk that have
/// the extension `ext`, ignoring ASCII case; directories are left out.
pub fn select_files(entries: &Vec<EntryInfo>, ext: &str) -> (r: Vec<String>)
    ensures
        texts(r@) == files_with_extension(entries@, ext@),
{
    let mut r: Vec<String> = Vec::new();
    let mut k: usize = 0;
    while k < entries.len()
        invariant
            0 <= k <= entries.len(),
            texts(r@) == files_with_extension(entries@.take(k as int), ext@),
        decreases entries.len() - k,
    {
        assert(entries@.take(k + 1).drop_last() =~= entries@.take(k as int));
        assert(entries@.take(k + 1).last() == entries@[k as int]);
        let e = &entries[k];
        if !e.is_dir && path_has_extension(e.path.as_str(), ext) {
            let ghost before = texts(r@);
            r.push(copy_string(&e.path));
            assert(texts(r@) =~= before.push(e.path@));
        }
        k += 1;
    }
    assert(entries@.take(entries.len() as int) =~= entries@);
    r
}

pub proof fn lemma_count_bound(entries: Seq<EntryInfo>, ext: Seq<char>)
    ensures
        count_ext(entries, ext) <= entries.len(),
    decreases entries.len(),
{
    if entries.len() > 0 {
        lemma_count_bound(entries.drop_last(), ext);
    }
}

pub open spec fn is_sav_dir(e: EntryInfo) -> bool {
    e.is_dir && eq_ignore_case(e.file_name@, "sav"@)
}

pub open spec fn is_config_file(e: EntryInfo) -> bool {
    !e.is_dir && eq_ignore_case(e.file_name@, "emuera.config"@)
}

/// Whether one of the entries is a configuration file (`sav` is false) or
/// a `sav` directory (`sav` is true).
pub open spec fn any_marker(entries: Seq<EntryInfo>, sav: bool) -> bool
    decreases entries.len(),
{
    entries.len() > 0 && (any_marker(entries.drop_last(), sav) || if sav {
        is_sav_dir(entries.last())
    } else {
        is_config_file(entries.last())
    })
}

/// The summary of the entries of a game directory and its subdirectories,
/// in any order.
pub open spec fn summary_of(entries: Seq<EntryInfo>) -> ResourceSummary {
    ResourceSummary {
        erb_files: count_ext(entries, "erb"@) as usize,
        csv_files: count_ext(entries, "csv"@) as usize,
        dat_files: count_ext(entries, "dat"@) as usize,
        save_files: count_ext(entries, "sav"@) as usize,
        has_config: any_marker(entries, false),
        has_sav_dir: any_marker(entries, true),
    }
}

/// The four counted extensions differ ignoring case.
proof fn lemma_exts_differ(x: Seq<char>)
    ensures
        eq_ignore_case(x, "erb"@) ==> !eq_ignore_case(x, "csv"@) && !eq_ignore_case(x, "dat"@)
            && !eq_ignore_case(x, "sav"@),
        eq_ignore_case(x, "csv"@) ==> !eq_ignore_case(x, "dat"@) && !eq_ignore_case(x, "sav"@),
        eq_ignore_case(x, "dat"@) ==> !eq_ignore_case(x, "sav"@),
{
    reveal_strlit("erb");
    reveal_strlit("csv");
    reveal_strlit("dat");
    reveal_strlit("sav");
    let e = crate::text::upper("erb"@);
    let c = crate::text::upper("csv"@);
    let d = crate::text::upper("dat"@);
    let v = crate::text::upper("sav"@);
    assert(e[0] == 'E');
    assert(c[0] == 'C');
    assert(d[0] == 'D');
    assert(v[0] == 'S');
}

impl ResourceSummary {
    /// Nothing found.
    pub fn new() -> (r: Self)
        ensures
            r == summary_of(Seq::empty()),
    {
        ResourceSummary {
            erb_files: 0,
            csv_files: 0,
            dat_files: 0,
            save_files: 0,
            has_config: false,
            has_sav_dir: false,
        }
    }

    /// Counts the files of each kind among all entries found under a game
    /// directory.
    pub fn scan(entries: &Vec<EntryInfo>) -> (r: Self)
        ensures
            r == summary_of(entries@),
    {
        let mut summary = ResourceSummary::new();
        let mut i: usize = 0;
        while i < entries.len()
            invariant
                0 <= i <= entries.len(),
                summary == summary_of(entries@.take(i as int)),
            decreases entries.len() - i,
        {
            let ghost pre = entries@.take(i as int);
            let ghost cur = entries@.take(i + 1);
            assert(cur.drop_last() =~= pre);
            assert(cur.last() == entries@[i as int]);
            proof {
                lemma_count_bound(pre, "erb"@);
                lemma_count_bound(pre, "csv"@);
                lemma_count_bound(pre, "dat"@);
                lemma_count_bound(pre, "sav"@);
            }
            let entry = &entries[i];
            let ghost e = *entry;
            let ghost before = summary;
            if entry.is_dir {
                if eq_ignore_case_str(entry.file_name.as_str(), "sav") {
                    summary.has_sav_dir = true;
                }
            } else {
                if eq_ignore_case_str(entry.file_name.as_str(), "emuera.config") {
                    summary.has_config = true;
                }
                match extension_of(entry.path.as_str()) {
                    Some(ext) => {
                        proof {
                            lemma_exts_differ(ext@);
                        }
                        if eq_ignore_case_str(ext.as_str(), "erb") {
                            summary.erb_files = summary.erb_files + 1;
                        } else if eq_ignore_case_str(ext.as_str(), "csv") {
                            summary.csv_files = summary.csv_files + 1;
                        } else if eq_ignore_case_str(ext.as_str(), "dat") {
                            summary.dat_files = summary.dat_files + 1;
                        } else if eq_ignore_case_str(ext.as_str(), "sav") {
                            summary.save_files = summary.save_files + 1;
                        }
                    },
                    None => {},
                }
            }
            assert(summary.erb_files == count_ext(cur, "erb"@));
            assert(summary.csv_files == count_ext(cur, "csv"@));
            assert(summary.dat_files == count_ext(cur, "dat"@));
            assert(summary.save_files == count_ext(cur, "sav"@));
            assert(summary.has_config == any_marker(cur, false));
            assert(summary.has_sav_dir == any_marker(cur, true));
            i += 1;
        }
        assert(entries@.take(entries.len() as int) =~= entries@);
        summary
    }
}

/// Whether an extension, if there is one, is `wanted`, ignoring ASCII
/// case.
pub fn extension_matches(ext: Option<&str>, wanted: &str) -> (r: bool)
    ensures
        r == (ext.deep_view() matches Some(x) && eq_ignore_case(x, wanted@)),
{
    match ext {
        Some(x) => eq_ignore_case_str(x, wanted),
        None => false,
    }
}

/// Whether a path has the extension `ext`, ignoring ASCII case.
pub fn path_has_extension(path: &str, ext: &str) -> (r: bool)
    ensures
        r == (path_extension(path@) matches Some(x) && eq_ignore_case(x, ext@)),
{
    match extension_of(path) {
        Some(x) => extension_matches(Some(x.as_str()), ext),
        None => extension_matches(None, ext),
    }
}

/// The first directory among `entries` whose name is `name`, ignoring
/// ASCII case.
pub open spec fn child_dir_from(entries: Seq<EntryInfo>, name: Seq<char>, i: int) -> Option<
    Seq<char>,
>
    decreases entries.len() - i,
{
    if i < 0 || i >= entries.len() {
        None
    } else if entries[i].is_dir && eq_ignore_case(entries[i].file_name@, name) {
        Some(entries[i].path@)
    } else {
        child_dir_from(entries, name, i + 1)
    }
}

/// The path of the first directory named `name` among the entries of a
/// directory.
pub fn find_child_dir(entries: &Vec<EntryInfo>, name: &str) -> (r: Option<String>)
    ensures
        r.deep_view() == child_dir_from(entries@, name@, 0),
{
    let mut i: usize = 0;
    while i < entries.len()
        invariant
            0 <= i <= entries.len(),
            child_dir_from(entries@, name@, i as int) == child_dir_from(entries@, name@, 0),
        decreases entries.len() - i,
    {
        if entries[i].is_dir && eq_ignore_case_str(entries[i].file_name.as_str(), name) {
            return Some(copy_string(&entries[i].path));
        }
        i += 1;
    }
    None
}

impl GameLayout {
    /// The resource directories among the top-level entries of a game.
    pub fn discover(entries: &Vec<EntryInfo>) -> (r: Self)
        ensures
            r.csv_dir.deep_view() == child_dir_from(entries@, "csv"@, 0),
            r.erb_dir.deep_view() == child_dir_from(entries@, "erb"@, 0),
            r.dat_dir.deep_view() == child_dir_from(entries@, "dat"@, 0),
            r.debug_dir.deep_view() == child_dir_from(entries@, "debug"@, 0),
            r.resources_dir.deep_view() == child_dir_from(entries@, "resources"@, 0),
            r.sav_dir.deep_view() == child_dir_from(entries@, "sav"@, 0),
    {
        GameLayout {
            csv_dir: find_child_dir(entries, "csv"),
            erb_dir: find_child_dir(entries, "erb"),
            dat_dir: find_child_dir(entries, "dat"),
            debug_dir: find_child_dir(entries, "debug"),
            resources_dir: find_child_dir(entries, "resources"),
            sav_dir: find_child_dir(entries, "sav"),
        }
    }
}

} // verus!
