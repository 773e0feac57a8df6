//! CSV files of a game: rows of cells, and the name tables built from rows
//! whose first cell is a number.
use vstd::prelude::*;

use crate::assoc::AssocMap;
use crate::paths::{
    file_name_of, file_stem_of, path_file_name, path_file_stem, path_less, path_lt, path_relative,
    relative_path_of,
};
use crate::sorting::{insert_pos_by, isort, lemma_isort_len, lemma_isort_step};
use crate::text::{
    bom, chars_of, eq_ignore_case, eq_ignore_case_str, is_whitespace, is_ws, line_ranges, lines,
    parse_i64, parse_i64_range, skip_char, skip_ws, starts_with_char, string_of, sub_vec, texts,
    trim, trim_bounds, trim_start, trim_start_char, upper, upper_string,
};

verus! {

#[derive(Debug, Clone, PartialEq, Eq)]
pub struct CsvRow {
    pub line_no: usize,
    pub cells: Vec<String>,
}

#[derive(Debug, Clone)]
pub struct CsvFile {
    pub path: String,
    pub relative_path: String,
    pub rows: Vec<CsvRow>,
}

/// A table of names read from one CSV file: number to name and name (upper
/// case) to number.
#[derive(Debug)]
pub struct NameTable {
    pub source_file: String,
    pub by_id: AssocMap<i64, String>,
    pub by_name: AssocMap<String, i64>,
}

/// Name tables keyed by the upper-cased stem of their file name.
pub type NameTables = AssocMap<String, NameTable>;

#[derive(Debug)]
pub struct CsvCatalog {
    pub files: Vec<CsvFile>,
    pub rows: usize,
    pub name_tables: NameTables,
}

// ---------------------------------------------------------------------------
// Models
// ---------------------------------------------------------------------------

pub struct NameTableView {
    pub source_file: Seq<char>,
    pub by_id: Map<i64, Seq<char>>,
    pub by_name: Map<Seq<char>, i64>,
}

impl View for NameTable {
    type V = NameTableView;

    open spec fn view(&self) -> NameTableView {
        NameTableView { source_file: self.source_file@, by_id: self.by_id@, by_name: self.by_name@ }
    }
}

/// A row as its line number and the texts of its cells.
pub open spec fn row_view(r: CsvRow) -> (int, Seq<Seq<char>>) {
    (r.line_no as int, texts(r.cells@))
}

pub open spec fn rows_view(rows: Seq<CsvRow>) -> Seq<(int, Seq<Seq<char>>)> {
    rows.map_values(|r: CsvRow| row_view(r))
}

// ---------------------------------------------------------------------------
// Splitting one line into cells
// ---------------------------------------------------------------------------

/// State of the cell scanner after a prefix of a line.
pub struct CsvScan {
    pub cells: Seq<Seq<char>>,
    pub current: Seq<char>,
    pub in_quotes: bool,
    pub only_ws: bool,
    pub stopped: bool,
}

pub open spec fn scan_start() -> CsvScan {
    CsvScan { cells: seq![], current: seq![], in_quotes: false, only_ws: true, stopped: false }
}

/// Whether a cell's text, once leading white space is dropped, starts a
/// comment.
pub open spec fn is_comment_text(s: Seq<char>) -> bool {
    starts_with_char(trim_start(s), ';')
}

/// Scans `s` from position `i`: `"` toggles quoting (`""` inside quotes is a
/// quote), an unquoted `,` ends a cell, and an unquoted `;` that begins a cell
/// (after white space) ends the line.
pub open spec fn csv_scan(s: Seq<char>, i: int, st: CsvScan) -> CsvScan
    decreases s.len() - i,
{
    if i < 0 || i >= s.len() {
        st
    } else {
        let ch = s[i];
        if st.only_ws && !st.in_quotes && ch == ';' {
            CsvScan { stopped: true, ..st }
        } else if ch == '"' {
            if st.in_quotes && i + 1 < s.len() && s[i + 1] == '"' {
                csv_scan(s, i + 2, CsvScan { current: st.current.push('"'), only_ws: false, ..st })
            } else {
                csv_scan(s, i + 1, CsvScan { in_quotes: !st.in_quotes, only_ws: false, ..st })
            }
        } else if ch == ',' && !st.in_quotes {
            if is_comment_text(st.current) {
                CsvScan { stopped: true, ..st }
            } else {
                csv_scan(
                    s,
                    i + 1,
                    CsvScan {
                        cells: st.cells.push(trim(st.current)),
                        current: seq![],
                        only_ws: true,
                        ..st
                    },
                )
            }
        } else {
            csv_scan(
                s,
                i + 1,
                CsvScan { current: st.current.push(ch), only_ws: st.only_ws && is_ws(ch), ..st },
            )
        }
    }
}

/// The cells once the scan has ended.
pub open spec fn scan_finish(st: CsvScan) -> Seq<Seq<char>> {
    if is_comment_text(st.current) {
        st.cells
    } else {
        let value = trim(st.current);
        let cells = if !st.stopped && (value.len() > 0 || st.cells.len() > 0) {
            st.cells.push(value)
        } else {
            st.cells
        };
        if cells.len() > 0 && starts_with_char(cells[0], ';') {
            seq![]
        } else {
            cells
        }
    }
}

/// The cells of one CSV line (leading byte-order marks are ignored).
pub open spec fn csv_line_cells(line: Seq<char>) -> Seq<Seq<char>> {
    scan_finish(csv_scan(trim_start_char(line, bom()), 0, scan_start()))
}

fn trimmed_string(v: &Vec<char>) -> (r: String)
    ensures
        r@ == trim(v@),
{
    let (a, b) = trim_bounds(v, 0, v.len());
    assert(v@.subrange(0, v.len() as int) =~= v@);
    string_of(v, a, b)
}

fn comment_text(v: &Vec<char>) -> (r: bool)
    ensures
        r == is_comment_text(v@),
{
    let a = skip_ws(v, 0, v.len());
    assert(v@.subrange(0, v.len() as int) =~= v@);
    a < v.len() && v[a] == ';'
}

spec fn scan_state(cells: Seq<String>, current: Seq<char>, in_quotes: bool, only_ws: bool) -> CsvScan {
    CsvScan { cells: texts(cells), current, in_quotes, only_ws, stopped: false }
}

fn finish_cells(cells: Vec<String>, current: &Vec<char>, stopped: bool) -> (r: Vec<String>)
    ensures
        texts(r@) == scan_finish(
            CsvScan { cells: texts(cells@), current: current@, in_quotes: false, only_ws: false, stopped },
        ),
{
    let ghost st = CsvScan {
        cells: texts(cells@),
        current: current@,
        in_quotes: false,
        only_ws: false,
        stopped,
    };
    if comment_text(current) {
        return cells;
    }
    let (a, b) = trim_bounds(current, 0, current.len());
    assert(current@.subrange(0, current.len() as int) =~= current@);
    let value = string_of(current, a, b);
    let mut cells = cells;
    if !stopped && (a < b || cells.len() > 0) {
        let ghost vv = value@;
        cells.push(value);
        assert(texts(cells@) =~= st.cells.push(vv));
    }
    if cells.len() > 0 {
        let first = chars_of(cells[0].as_str());
        if first.len() > 0 && first[0] == ';' {
            assert(texts(cells@)[0] == first@);
            return Vec::new();
        }
        assert(texts(cells@)[0] == first@);
    }
    cells
}

/// Splits one CSV line into trimmed cells.  Quoted text keeps commas and
/// semicolons, `""` inside quotes is a quote, and a `;` that begins a cell
/// ends the line.  A line that is empty or a comment has no cells.
pub fn parse_csv_line(line: &str) -> (r: Vec<String>)
    ensures
        texts(r@) == csv_line_cells(line@),
{
    let all = chars_of(line);
    let start = skip_char(&all, 0, all.len(), '\u{feff}');
    let s = sub_vec(&all, start, all.len());
    assert(all@.subrange(0, all.len() as int) =~= all@);
    let ghost goal = csv_scan(s@, 0, scan_start());
    assert(s@ == trim_start_char(line@, bom()));
    let mut cells: Vec<String> = Vec::new();
    let mut current: Vec<char> = Vec::new();
    let mut in_quotes = false;
    let mut only_ws = true;
    let mut i: usize = 0;
    assert(texts(cells@) =~= seq![]);
    while i < s.len()
        invariant
            0 <= i <= s.len(),
            scan_finish(goal) == csv_line_cells(line@),
            s@ == trim_start_char(line@, bom()),
            csv_scan(s@, i as int, scan_state(cells@, current@, in_quotes, only_ws)) == goal,
        decreases s.len() - i,
    {
        let ghost st = scan_state(cells@, current@, in_quotes, only_ws);
        let ch = s[i];
        if only_ws && !in_quotes && ch == ';' {
            let r = finish_cells(cells, &current, true);
            return r;
        }
        if ch == '"' {
            only_ws = false;
            if in_quotes && i + 1 < s.len() && s[i + 1] == '"' {
                current.push('"');
                i += 2;
            } else {
                in_quotes = !in_quotes;
                i += 1;
            }
        } else if ch == ',' && !in_quotes {
            if comment_text(&current) {
                let r = finish_cells(cells, &current, true);
                return r;
            }
            let cell = trimmed_string(&current);
            let ghost cv = cell@;
            cells.push(cell);
            assert(texts(cells@) =~= st.cells.push(cv));
            current = Vec::new();
            assert(current@ =~= seq![]);
            only_ws = true;
            i += 1;
        } else {
            if !is_whitespace(ch) {
                only_ws = false;
            }
            current.push(ch);
            i += 1;
        }
    }
    let r = finish_cells(cells, &current, false);
    r
}

/// Rows of a CSV text: its lines numbered from 1, keeping those with cells.
pub open spec fn csv_rows_from(ls: Seq<Seq<char>>, k: int) -> Seq<(int, Seq<Seq<char>>)>
    decreases ls.len() - k,
{
    if k < 0 || k >= ls.len() {
        seq![]
    } else {
        let cells = csv_line_cells(ls[k]);
        let rest = csv_rows_from(ls, k + 1);
        if cells.len() == 0 {
            rest
        } else {
            seq![(k + 1, cells)] + rest
        }
    }
}

pub open spec fn csv_rows(text: Seq<char>) -> Seq<(int, Seq<Seq<char>>)> {
    csv_rows_from(lines(text), 0)
}

/// Splits a CSV text into rows of cells; lines without cells are left out.
pub fn parse_csv(text: &str) -> (r: Vec<CsvRow>)
    ensures
        rows_view(r@) == csv_rows(text@),
{
    let v = chars_of(text);
    assert(v@.subrange(0, v.len() as int) =~= v@);
    let ranges = line_ranges(&v, 0, v.len());
    let ghost ls = lines(v@);
    let mut rows: Vec<CsvRow> = Vec::new();
    let mut k: usize = 0;
    assert(rows_view(rows@) =~= seq![]);
    while k < ranges.len()
        invariant
            0 <= k <= ranges.len(),
            ranges@.len() == ls.len(),
            ls == lines(text@),
            forall|j: int|
                0 <= j < ranges@.len() ==> {
                    &&& 0 <= (#[trigger] ranges@[j]).0 <= ranges@[j].1 <= v@.len()
                    &&& v@.subrange(ranges@[j].0 as int, ranges@[j].1 as int) == ls[j]
                },
            rows_view(rows@) + csv_rows_from(ls, k as int) == csv_rows(text@),
        decreases ranges.len() - k,
    {
        let (a, b) = ranges[k];
        let line = string_of(&v, a, b);
        let cells = parse_csv_line(line.as_str());
        let ghost before = rows_view(rows@);
        if cells.len() > 0 {
            let row = CsvRow { line_no: k + 1, cells };
            rows.push(row);
            assert(rows_view(rows@) =~= before.push(row_view(row)));
            assert(before.push(row_view(row)) + csv_rows_from(ls, k + 1) =~= before + (seq![
                row_view(row),
            ] + csv_rows_from(ls, k + 1)));
        } else {
            assert(texts(cells@).len() == 0);
        }
        k += 1;
    }
    rows
}

impl CsvFile {
    /// The CSV file at `path` with the given text; its relative path is the
    /// part of `path` below `root`.
    pub fn read(path: String, root: &str, text: &str) -> (r: CsvFile)
        ensures
            r.path@ == path@,
            r.relative_path@ == path_relative(path@, root@),
            rows_view(r.rows@) == csv_rows(text@),
    {
        let relative_path = relative_path_of(path.as_str(), root);
        CsvFile { path, relative_path, rows: parse_csv(text) }
    }
}

// ---------------------------------------------------------------------------
// Name tables
// ---------------------------------------------------------------------------

/// The number and name a row contributes to its file's name table: its
/// first cell is a number and its second cell a name that is not a comment.
pub open spec fn row_entry(cells: Seq<Seq<char>>) -> Option<(i64, Seq<char>)> {
    if cells.len() < 2 {
        None
    } else {
        match parse_i64(trim(cells[0])) {
            None => None,
            Some(id) => {
                let name = trim(cells[1]);
                if name.len() == 0 || starts_with_char(name, ';') {
                    None
                } else {
                    Some((id, name))
                }
            },
        }
    }
}

/// Adds a number and name; earlier entries win.
pub open spec fn add_entry(t: NameTableView, id: i64, name: Seq<char>) -> NameTableView {
    NameTableView {
        source_file: t.source_file,
        by_id: if t.by_id.contains_key(id) {
            t.by_id
        } else {
            t.by_id.insert(id, name)
        },
        by_name: if t.by_name.contains_key(upper(name)) {
            t.by_name
        } else {
            t.by_name.insert(upper(name), id)
        },
    }
}

pub open spec fn table_from_rows(
    rows: Seq<(int, Seq<Seq<char>>)>,
    t: NameTableView,
) -> NameTableView
    decreases rows.len(),
{
    if rows.len() == 0 {
        t
    } else {
        let next = match row_entry(rows[0].1) {
            Some((id, name)) => add_entry(t, id, name),
            None => t,
        };
        table_from_rows(rows.drop_first(), next)
    }
}

pub open spec fn file_table(relative_path: Seq<char>, rows: Seq<(int, Seq<Seq<char>>)>) -> NameTableView {
    table_from_rows(
        rows,
        NameTableView { source_file: relative_path, by_id: Map::empty(), by_name: Map::empty() },
    )
}

/// The name tables of a list of files: each file with a stem and at least one
/// numbered name gives the table under its upper-cased stem; a later file
/// replaces an earlier one with the same key.
pub open spec fn tables_from_files(
    files: Seq<CsvFile>,
    acc: Map<Seq<char>, NameTableView>,
) -> Map<Seq<char>, NameTableView>
    decreases files.len(),
{
    if files.len() == 0 {
        acc
    } else {
        let f = files[0];
        let next = match path_file_stem(f.path@) {
            None => acc,
            Some(stem) => {
                let t = file_table(f.relative_path@, rows_view(f.rows@));
                if t.by_id == Map::<i64, Seq<char>>::empty() {
                    acc
                } else {
                    acc.insert(upper(stem), t)
                }
            },
        };
        tables_from_files(files.drop_first(), next)
    }
}

fn table_of_file(file: &CsvFile) -> (r: NameTable)
    ensures
        r@ == file_table(file.relative_path@, rows_view(file.rows@)),
{
    let mut table = NameTable {
        source_file: file.relative_path.clone(),
        by_id: AssocMap::new(),
        by_name: AssocMap::new(),
    };
    let ghost all = rows_view(file.rows@);
    let mut k: usize = 0;
    assert(all.skip(0) =~= all);
    while k < file.rows.len()
        invariant
            0 <= k <= file.rows.len(),
            all == rows_view(file.rows@),
            table_from_rows(all.skip(k as int), table@) == file_table(file.relative_path@, all),
        decreases file.rows.len() - k,
    {
        let row = &file.rows[k];
        let ghost cells = texts(row.cells@);
        assert(all.skip(k as int)[0] == row_view(*row));
        assert(all.skip(k as int).drop_first() =~= all.skip(k + 1));
        if row.cells.len() >= 2 {
            let c0 = chars_of(row.cells[0].as_str());
            let (a0, b0) = trim_bounds(&c0, 0, c0.len());
            assert(c0@.subrange(0, c0.len() as int) =~= c0@);
            assert(cells[0] == c0@);
            if let Some(id) = parse_i64_range(&c0, a0, b0) {
                let c1 = chars_of(row.cells[1].as_str());
                let (a1, b1) = trim_bounds(&c1, 0, c1.len());
                assert(c1@.subrange(0, c1.len() as int) =~= c1@);
                assert(cells[1] == c1@);
                if a1 < b1 && c1[a1] != ';' {
                    let name = string_of(&c1, a1, b1);
                    let key = upper_string(name.as_str());
                    let name2 = name.clone();
                    table.by_id.insert_if_absent(id, name2);
                    table.by_name.insert_if_absent(key, id);
                }
            }
        }
        k += 1;
    }
    assert(all.skip(file.rows.len() as int) =~= seq![]);
    table
}

/// Builds the name tables of a list of CSV files.
pub fn build_name_tables(files: &[CsvFile]) -> (r: NameTables)
    ensures
        r@ == tables_from_files(files@, Map::empty()),
{
    let mut tables: NameTables = AssocMap::new();
    let mut k: usize = 0;
    assert(files@.skip(0) =~= files@);
    while k < files.len()
        invariant
            0 <= k <= files@.len(),
            tables_from_files(files@.skip(k as int), tables@) == tables_from_files(
                files@,
                Map::empty(),
            ),
        decreases files.len() - k,
    {
        let file = &files[k];
        assert(files@.skip(k as int)[0] == *file);
        assert(files@.skip(k as int).drop_first() =~= files@.skip(k + 1));
        if let Some(stem) = file_stem_of(file.path.as_str()) {
            let table = table_of_file(file);
            if !table.by_id.is_empty() {
                let key = upper_string(stem.as_str());
                tables.insert(key, table);
            }
        }
        k += 1;
    }
    assert(files@.skip(files.len() as int) =~= seq![]);
    tables
}

// ---------------------------------------------------------------------------
// The catalog
// ---------------------------------------------------------------------------

pub open spec fn total_rows(files: Seq<CsvFile>) -> int
    decreases files.len(),
{
    if files.len() == 0 {
        0
    } else {
        total_rows(files.drop_last()) + files.last().rows@.len()
    }
}

/// The order of CSV files: by relative path.
pub open spec fn by_relative_path() -> spec_fn(CsvFile, CsvFile) -> bool {
    |a: CsvFile, b: CsvFile| path_lt(a.relative_path@, b.relative_path@)
}

/// Sorts files by relative path, keeping the order of equal paths.
pub fn sort_by_relative_path(files: Vec<CsvFile>) -> (r: Vec<CsvFile>)
    ensures
        r@ == isort(files@, by_relative_path()),
{
    let ghost all = files@;
    let ghost lt = by_relative_path();
    let n = files.len();
    let mut input = files;
    let mut out: Vec<CsvFile> = Vec::new();
    let mut k: usize = 0;
    assert(all.take(0) =~= Seq::<CsvFile>::empty());
    assert(all.skip(0) =~= all);
    while input.len() > 0
        invariant
            k <= all.len(),
            all.len() == n,
            input@ == all.skip(k as int),
            out@ == isort(all.take(k as int), lt),
            lt == by_relative_path(),
        decreases input.len(),
    {
        proof {
            lemma_isort_len(all.take(k as int), lt);
            lemma_isort_step(all, lt, k as int);
        }
        let x = input.remove(0);
        assert(input@ =~= all.skip(k + 1));
        let mut j = out.len();
        while j > 0 && path_less(x.relative_path.as_str(), out[j - 1].relative_path.as_str())
            invariant
                0 <= j <= out@.len(),
                insert_pos_by(out@, x, lt, j as int) == insert_pos_by(out@, x, lt, out@.len() as int),
                lt == by_relative_path(),
            decreases j,
        {
            j -= 1;
        }
        out.insert(j, x);
        k += 1;
    }
    assert(all.take(k as int) =~= all);
    out
}

impl Default for CsvCatalog {
    fn default() -> (r: Self)
        ensures
            r.files@.len() == 0,
            r.rows == 0,
            r.name_tables@ == Map::<Seq<char>, NameTableView>::empty(),
    {
        CsvCatalog::new()
    }
}

impl CsvCatalog {
    /// A catalog with no files.
    pub fn new() -> (r: Self)
        ensures
            r.files@.len() == 0,
            r.rows == 0,
            r.name_tables@ == Map::<Seq<char>, NameTableView>::empty(),
    {
        CsvCatalog { files: Vec::new(), rows: 0, name_tables: AssocMap::new() }
    }

    /// The catalog of the files read from a CSV directory: the files ordered
    /// by relative path (files with equal paths keep their order), the total
    /// number of rows and the name tables.
    pub fn from_files(files: Vec<CsvFile>) -> (r: Self)
        requires
            total_rows(isort(files@, by_relative_path())) <= usize::MAX,
        ensures
            r.files@ == isort(files@, by_relative_path()),
            r.rows == total_rows(r.files@),
            r.name_tables@ == tables_from_files(r.files@, Map::empty()),
    {
        let files = sort_by_relative_path(files);
        let mut rows: usize = 0;
        let mut k: usize = 0;
        while k < files.len()
            invariant
                0 <= k <= files@.len(),
                total_rows(files@) <= usize::MAX,
                rows == total_rows(files@.take(k as int)),
            decreases files.len() - k,
        {
            proof {
                assert(files@.take(k + 1).drop_last() =~= files@.take(k as int));
                lemma_total_rows_prefix(files@, k + 1);
            }
            rows = rows + files[k].rows.len();
            k += 1;
        }
        assert(files@.take(files.len() as int) =~= files@);
        let name_tables = build_name_tables(files.as_slice());
        CsvCatalog { files, rows, name_tables }
    }

    /// The first file whose name equals `name`, ignoring ASCII case.
    pub fn get_file(&self, name: &str) -> (r: Option<&CsvFile>)
        ensures
            r matches Some(f) ==> first_file_named(self.files@, name@, 0) matches Some(i) && *f
                == self.files@[i],
            r is None ==> first_file_named(self.files@, name@, 0) is None,
    {
        let mut k: usize = 0;
        while k < self.files.len()
            invariant
                0 <= k <= self.files@.len(),
                first_file_named(self.files@, name@, k as int) == first_file_named(
                    self.files@,
                    name@,
                    0,
                ),
            decreases self.files.len() - k,
        {
            if let Some(file_name) = file_name_of(self.files[k].path.as_str()) {
                if eq_ignore_case_str(file_name.as_str(), name) {
                    return Some(&self.files[k]);
                }
            }
            k += 1;
        }
        None
    }

    /// The number of `name` in the name table `table` (both ignoring ASCII
    /// case).
    pub fn resolve_name(&self, table: &str, name: &str) -> (r: Option<i64>)
        ensures
            r == lookup_id(self.name_tables@, table@, name@),
    {
        let key = upper_string(table);
        match self.name_tables.get(&key) {
            None => None,
            Some(t) => {
                let n = upper_string(name);
                match t.by_name.get(&n) {
                    None => None,
                    Some(id) => Some(*id),
                }
            },
        }
    }

    /// The name of number `id` in the name table `table`.
    pub fn name_for_id(&self, table: &str, id: i64) -> (r: Option<&str>)
        ensures
            r.deep_view() == lookup_name(self.name_tables@, table@, id),
    {
        let key = upper_string(table);
        match self.name_tables.get(&key) {
            None => None,
            Some(t) => match t.by_id.get(&id) {
                None => None,
                Some(n) => Some(n.as_str()),
            },
        }
    }
}

pub proof fn lemma_total_rows_prefix(files: Seq<CsvFile>, k: int)
    requires
        0 <= k <= files.len(),
    ensures
        total_rows(files.take(k)) <= total_rows(files),
        total_rows(files.take(k)) >= 0,
    decreases files.len(),
{
    if files.len() > 0 {
        if k < files.len() {
            assert(files.drop_last().take(k) =~= files.take(k));
            lemma_total_rows_prefix(files.drop_last(), k);
        } else {
            assert(files.take(k) =~= files);
            lemma_total_rows_prefix(files.drop_last(), k - 1);
            assert(files.drop_last().take(k - 1) =~= files.drop_last());
        }
    } else {
        assert(files.take(k) =~= files);
    }
}

/// Index of the first file from `i` on whose name is `name`, ignoring ASCII
/// case.
pub open spec fn first_file_named(files: Seq<CsvFile>, name: Seq<char>, i: int) -> Option<int>
    decreases files.len() - i,
{
    if i < 0 || i >= files.len() {
        None
    } else if file_name_matches(files[i], name) {
        Some(i)
    } else {
        first_file_named(files, name, i + 1)
    }
}

pub open spec fn file_name_matches(f: CsvFile, name: Seq<char>) -> bool {
    match path_file_name(f.path@) {
        Some(n) => eq_ignore_case(n, name),
        None => false,
    }
}

pub open spec fn lookup_id(tables: Map<Seq<char>, NameTableView>, table: Seq<char>, name: Seq<char>) -> Option<i64> {
    if tables.contains_key(upper(table)) && tables[upper(table)].by_name.contains_key(upper(name)) {
        Some(tables[upper(table)].by_name[upper(name)])
    } else {
        None
    }
}

pub open spec fn lookup_name(tables: Map<Seq<char>, NameTableView>, table: Seq<char>, id: i64) -> Option<Seq<char>> {
    if tables.contains_key(upper(table)) && tables[upper(table)].by_id.contains_key(id) {
        Some(tables[upper(table)].by_id[id])
    } else {
        None
    }
}

} // verus!
