//! ERB script files: line classification, the index of functions and
//! labels, and the lines of a function.
use vstd::prelude::*;

use crate::assoc::AssocMap;
use crate::instruction::{name_end, name_end_of};
use crate::paths::{extension_of, path_extension, path_less, path_lt, path_relative, relative_path_of};
use crate::sorting::{insert_pos_by, isort, lemma_isort_len, lemma_isort_step};
use crate::text::{
    bom, chars_of, copy_string, eq_ignore_case, eq_ignore_case_str, line_ranges, lines, skip_char,
    skip_ws, string_of, sub_vec, trim, trim_bounds, trim_start, trim_start_char, upper, upper_vec,
    vec_eq,
};

verus! {

#[derive(Debug, Clone, Copy, PartialEq, Eq, Structural)]
pub enum ScriptFileKind {
    Erb,
    Erh,
}

#[derive(Debug, Clone, Copy, PartialEq, Eq, Structural)]
pub enum ScriptLineKind {
    Empty,
    Comment,
    Function,
    Label,
    Directive,
    Instruction,
}

#[derive(Debug, Clone, PartialEq, Eq)]
pub struct ScriptLine {
    pub line_no: usize,
    pub text: String,
    pub kind: ScriptLineKind,
}

#[derive(Debug, Clone)]
pub struct ScriptFile {
    pub path: String,
    pub relative_path: String,
    pub kind: ScriptFileKind,
    pub lines: Vec<ScriptLine>,
}

#[derive(Debug, Clone, PartialEq, Eq)]
pub struct ScriptLocation {
    pub file: String,
    pub line_no: usize,
}

impl View for ScriptLocation {
    type V = (Seq<char>, usize);

    open spec fn view(&self) -> (Seq<char>, usize) {
        (self.file@, self.line_no)
    }
}

#[derive(Debug, Clone, PartialEq, Eq)]
pub struct FunctionDef {
    pub name: String,
    pub location: ScriptLocation,
}

impl View for FunctionDef {
    type V = (Seq<char>, Seq<char>, usize);

    open spec fn view(&self) -> (Seq<char>, Seq<char>, usize) {
        (self.name@, self.location.file@, self.location.line_no)
    }
}

#[derive(Debug)]
pub struct ScriptIndex {
    pub functions: Vec<FunctionDef>,
    pub labels: AssocMap<String, ScriptLocation>,
}

#[derive(Debug)]
pub struct ScriptCatalog {
    pub files: Vec<ScriptFile>,
    pub index: ScriptIndex,
    pub enabled_lines: usize,
}

/// A script line together with the file it belongs to.
#[derive(Debug, Clone, Copy)]
pub struct LocatedScriptLine<'a> {
    pub file: &'a String,
    pub line: &'a ScriptLine,
}

// ---------------------------------------------------------------------------
// Lines
// ---------------------------------------------------------------------------

/// A line without leading white space and byte-order marks.
pub open spec fn line_start(line: Seq<char>) -> Seq<char> {
    trim_start_char(trim_start(line), bom())
}

/// The kind of a script line, decided by its first character.
pub open spec fn line_kind(line: Seq<char>) -> ScriptLineKind {
    let t = line_start(line);
    if t.len() == 0 {
        ScriptLineKind::Empty
    } else if t[0] == ';' {
        ScriptLineKind::Comment
    } else if t[0] == '@' {
        ScriptLineKind::Function
    } else if t[0] == '$' {
        ScriptLineKind::Label
    } else if t[0] == '#' || (t[0] == '[' && t.last() == ']') {
        ScriptLineKind::Directive
    } else {
        ScriptLineKind::Instruction
    }
}

fn line_start_of(line: &str) -> (r: Vec<char>)
    ensures
        r@ == line_start(line@),
{
    let v = chars_of(line);
    let n = v.len();
    assert(v@.subrange(0, n as int) =~= v@);
    let a = skip_ws(&v, 0, n);
    let b = skip_char(&v, a, n, '\u{feff}');
    sub_vec(&v, b, n)
}

/// Classifies one script line.
pub fn classify_line(line: &str) -> (r: ScriptLineKind)
    ensures
        r == line_kind(line@),
{
    let t = line_start_of(line);
    if t.len() == 0 {
        ScriptLineKind::Empty
    } else if t[0] == ';' {
        ScriptLineKind::Comment
    } else if t[0] == '@' {
        ScriptLineKind::Function
    } else if t[0] == '$' {
        ScriptLineKind::Label
    } else if t[0] == '#' || (t[0] == '[' && t[t.len() - 1] == ']') {
        ScriptLineKind::Directive
    } else {
        ScriptLineKind::Instruction
    }
}

/// The name after a marker (`@` or `$`) at the start of a line: up to white
/// space, `(` or `;`, upper-cased; none when the line lacks the marker or
/// the name is empty.
pub open spec fn symbol_after_marker(line: Seq<char>, marker: char) -> Option<Seq<char>> {
    let t = line_start(line);
    if t.len() == 0 || t[0] != marker {
        None
    } else {
        let rest = trim_start(t.drop_first());
        let name = trim(rest.take(name_end(rest, 0)));
        if name.len() == 0 {
            None
        } else {
            Some(upper(name))
        }
    }
}

pub fn parse_symbol_after_marker(line: &str, marker: char) -> (r: Option<String>)
    ensures
        r.deep_view() == symbol_after_marker(line@, marker),
{
    let t = line_start_of(line);
    if t.len() == 0 || t[0] != marker {
        return None;
    }
    let a = skip_ws(&t, 1, t.len());
    assert(t@.subrange(1, t.len() as int) =~= t@.drop_first());
    let rest = sub_vec(&t, a, t.len());
    let e = name_end_of(&rest);
    let (c, d) = trim_bounds(&rest, 0, e);
    assert(rest@.subrange(0, e as int) =~= rest@.take(e as int));
    if c == d {
        return None;
    }
    let name = sub_vec(&rest, c, d);
    let u = upper_vec(&name);
    Some(string_of(&u, 0, u.len()))
}

/// The name of a function defined by a line `@NAME(...)`.
pub fn parse_function_name(line: &str) -> (r: Option<String>)
    ensures
        r.deep_view() == symbol_after_marker(line@, '@'),
{
    parse_symbol_after_marker(line, '@')
}

/// The name of a label defined by a line `$NAME`.
pub fn parse_label_name(line: &str) -> (r: Option<String>)
    ensures
        r.deep_view() == symbol_after_marker(line@, '$'),
{
    parse_symbol_after_marker(line, '$')
}

/// Lines of a script text, numbered from 1, with their kinds.
pub open spec fn script_lines(text: Seq<char>) -> Seq<(usize, Seq<char>, ScriptLineKind)> {
    Seq::new(
        lines(text).len(),
        |k: int| ((k + 1) as usize, lines(text)[k], line_kind(lines(text)[k])),
    )
}

pub open spec fn line_view(l: ScriptLine) -> (usize, Seq<char>, ScriptLineKind) {
    (l.line_no, l.text@, l.kind)
}

pub open spec fn lines_view(ls: Seq<ScriptLine>) -> Seq<(usize, Seq<char>, ScriptLineKind)> {
    ls.map_values(|l: ScriptLine| line_view(l))
}

/// Splits a script text into numbered, classified lines.
pub fn parse_script_lines(text: &str) -> (r: Vec<ScriptLine>)
    ensures
        lines_view(r@) == script_lines(text@),
{
    let v = chars_of(text);
    assert(v@.subrange(0, v.len() as int) =~= v@);
    let ranges = line_ranges(&v, 0, v.len());
    let mut out: Vec<ScriptLine> = Vec::new();
    let mut k: usize = 0;
    while k < ranges.len()
        invariant
            0 <= k <= ranges.len(),
            ranges@.len() == lines(text@).len(),
            v@ == text@,
            forall|j: int|
                0 <= j < ranges@.len() ==> {
                    &&& 0 <= (#[trigger] ranges@[j]).0 <= ranges@[j].1 <= v@.len()
                    &&& v@.subrange(ranges@[j].0 as int, ranges@[j].1 as int) == lines(text@)[j]
                },
            lines_view(out@) == script_lines(text@).take(k as int),
        decreases ranges.len() - k,
    {
        let (a, b) = ranges[k];
        let line_text = string_of(&v, a, b);
        let kind = classify_line(line_text.as_str());
        let line = ScriptLine { line_no: k + 1, text: line_text, kind };
        let ghost before = lines_view(out@);
        out.push(line);
        assert(lines_view(out@) =~= before.push(line_view(line)));
        assert(script_lines(text@).take(k + 1) =~= script_lines(text@).take(k as int).push(
            script_lines(text@)[k as int],
        ));
        k += 1;
    }
    assert(script_lines(text@).take(ranges.len() as int) =~= script_lines(text@));
    out
}

/// The kind of a script file with extension `ext`.
pub open spec fn kind_of_extension(ext: Option<Seq<char>>) -> ScriptFileKind {
    if ext matches Some(e) && eq_ignore_case(e, "erh"@) {
        ScriptFileKind::Erh
    } else {
        ScriptFileKind::Erb
    }
}

impl ScriptFileKind {
    /// `Erh` for the extension `erh` in any case, else `Erb`.
    pub fn from_extension(ext: Option<&str>) -> (r: Self)
        ensures
            r == kind_of_extension(ext.deep_view()),
    {
        match ext {
            Some(e) => if eq_ignore_case_str(e, "erh") {
                ScriptFileKind::Erh
            } else {
                ScriptFileKind::Erb
            },
            None => ScriptFileKind::Erb,
        }
    }

    /// `Erh` for files whose extension is `erh` in any case, else `Erb`.
    pub fn from_path(path: &str) -> (r: Self)
        ensures
            r == kind_of_extension(path_extension(path@)),
    {
        match extension_of(path) {
            Some(e) => ScriptFileKind::from_extension(Some(e.as_str())),
            None => ScriptFileKind::from_extension(None),
        }
    }
}

impl ScriptFile {
    /// A script file read from `path` (shown as `relative_path`) with the
    /// given text.
    pub fn parse(path: String, relative_path: String, text: &str) -> (r: ScriptFile)
        ensures
            r.path@ == path@,
            r.relative_path@ == relative_path@,
            r.kind == kind_of_extension(path_extension(path@)),
            lines_view(r.lines@) == script_lines(text@),
    {
        let kind = ScriptFileKind::from_path(path.as_str());
        let lines = parse_script_lines(text);
        ScriptFile { path, relative_path, kind, lines }
    }

    /// The script file at `path` with the given text; its relative path is
    /// the part of `path` below `root`.
    pub fn read(path: String, root: &str, text: &str) -> (r: ScriptFile)
        ensures
            r.path@ == path@,
            r.relative_path@ == path_relative(path@, root@),
            r.kind == kind_of_extension(path_extension(path@)),
            lines_view(r.lines@) == script_lines(text@),
    {
        let relative_path = relative_path_of(path.as_str(), root);
        ScriptFile::parse(path, relative_path, text)
    }
}

// ---------------------------------------------------------------------------
// The index
// ---------------------------------------------------------------------------

/// Every line of every file, with the relative path of its file.
pub open spec fn all_lines(files: Seq<ScriptFile>) -> Seq<(Seq<char>, ScriptLine)>
    decreases files.len(),
{
    if files.len() == 0 {
        seq![]
    } else {
        all_lines(files.drop_last()) + file_lines(files.last())
    }
}

pub open spec fn file_lines(f: ScriptFile) -> Seq<(Seq<char>, ScriptLine)> {
    f.lines@.map_values(|l: ScriptLine| (f.relative_path@, l))
}

/// Whether a line counts as an enabled line (neither empty nor a comment).
pub open spec fn is_enabled(l: ScriptLine) -> bool {
    l.kind != ScriptLineKind::Empty && l.kind != ScriptLineKind::Comment
}

pub open spec fn enabled_count(ls: Seq<(Seq<char>, ScriptLine)>) -> int
    decreases ls.len(),
{
    if ls.len() == 0 {
        0
    } else {
        enabled_count(ls.drop_last()) + if is_enabled(ls.last().1) {
            1int
        } else {
            0int
        }
    }
}

/// The function a line defines: a `Function` line with a name.
pub open spec fn line_function(e: (Seq<char>, ScriptLine)) -> Option<(Seq<char>, Seq<char>, usize)> {
    if e.1.kind == ScriptLineKind::Function {
        match symbol_after_marker(e.1.text@, '@') {
            Some(n) => Some((n, e.0, e.1.line_no)),
            None => None,
        }
    } else {
        None
    }
}

/// The functions defined by a sequence of lines, in order.
pub open spec fn functions_of(ls: Seq<(Seq<char>, ScriptLine)>) -> Seq<(Seq<char>, Seq<char>, usize)>
    decreases ls.len(),
{
    if ls.len() == 0 {
        seq![]
    } else {
        let pre = functions_of(ls.drop_last());
        match line_function(ls.last()) {
            Some(d) => pre.push(d),
            None => pre,
        }
    }
}

/// The labels defined by a sequence of lines: the first definition of a
/// name wins.
pub open spec fn labels_of(ls: Seq<(Seq<char>, ScriptLine)>) -> Map<Seq<char>, (Seq<char>, usize)>
    decreases ls.len(),
{
    if ls.len() == 0 {
        Map::empty()
    } else {
        let pre = labels_of(ls.drop_last());
        let e = ls.last();
        if e.1.kind == ScriptLineKind::Label {
            match symbol_after_marker(e.1.text@, '$') {
                Some(n) => if pre.contains_key(n) {
                    pre
                } else {
                    pre.insert(n, (e.0, e.1.line_no))
                },
                None => pre,
            }
        } else {
            pre
        }
    }
}

/// Lexicographic order of texts by character.
pub open spec fn text_lt(a: Seq<char>, b: Seq<char>) -> bool
    decreases a.len(),
{
    if b.len() == 0 {
        false
    } else if a.len() == 0 {
        true
    } else if a[0] != b[0] {
        a[0] < b[0]
    } else {
        text_lt(a.drop_first(), b.drop_first())
    }
}

fn text_less(a: &Vec<char>, b: &Vec<char>) -> (r: bool)
    ensures
        r == text_lt(a@, b@),
{
    let mut i: usize = 0;
    assert(a@.skip(0) =~= a@);
    assert(b@.skip(0) =~= b@);
    while i < a.len() && i < b.len() && a[i] == b[i]
        invariant
            0 <= i <= a.len(),
            i <= b.len(),
            text_lt(a@.skip(i as int), b@.skip(i as int)) == text_lt(a@, b@),
        decreases a.len() - i,
    {
        assert(a@.skip(i as int).drop_first() =~= a@.skip(i + 1));
        assert(b@.skip(i as int).drop_first() =~= b@.skip(i + 1));
        i += 1;
    }
    if i == b.len() {
        false
    } else if i == a.len() {
        true
    } else {
        assert(a@.skip(i as int)[0] == a@[i as int]);
        assert(b@.skip(i as int)[0] == b@[i as int]);
        a[i] < b[i]
    }
}

/// Function definitions in index order: by name, then by file path.
pub open spec fn def_lt(a: (Seq<char>, Seq<char>, usize), b: (Seq<char>, Seq<char>, usize)) -> bool {
    text_lt(a.0, b.0) || (a.0 == b.0 && path_lt(a.1, b.1))
}

pub open spec fn by_name_then_file() -> spec_fn(
    (Seq<char>, Seq<char>, usize),
    (Seq<char>, Seq<char>, usize),
) -> bool {
    |a: (Seq<char>, Seq<char>, usize), b: (Seq<char>, Seq<char>, usize)| def_lt(a, b)
}

pub open spec fn defs_view(v: Seq<FunctionDef>) -> Seq<(Seq<char>, Seq<char>, usize)> {
    v.map_values(|d: FunctionDef| d@)
}

fn name_chars(d: &FunctionDef) -> (r: Vec<char>)
    ensures
        r@ == d.name@,
{
    chars_of(d.name.as_str())
}

fn copy_def(d: &FunctionDef) -> (r: FunctionDef)
    ensures
        r@ == d@,
{
    FunctionDef {
        name: copy_string(&d.name),
        location: ScriptLocation { file: copy_string(&d.location.file), line_no: d.location.line_no },
    }
}

fn def_less(a: &FunctionDef, b: &FunctionDef) -> (r: bool)
    ensures
        r == def_lt(a@, b@),
{
    let x = name_chars(a);
    let y = name_chars(b);
    if text_less(&x, &y) {
        true
    } else if vec_eq(&x, &y) {
        path_less(a.location.file.as_str(), b.location.file.as_str())
    } else {
        false
    }
}

/// Sorts function definitions by name and then by file, keeping the order
/// of definitions that compare equal.
fn sort_functions(defs: Vec<FunctionDef>) -> (r: Vec<FunctionDef>)
    ensures
        defs_view(r@) == isort(defs_view(defs@), by_name_then_file()),
{
    let mut out: Vec<FunctionDef> = Vec::new();
    let mut k: usize = 0;
    let ghost all = defs_view(defs@);
    let ghost lt = by_name_then_file();
    assert(defs_view(out@) =~= isort(all.take(0), lt));
    while k < defs.len()
        invariant
            0 <= k <= defs.len(),
            all == defs_view(defs@),
            lt == by_name_then_file(),
            defs_view(out@) == isort(all.take(k as int), lt),
            out@.len() == k,
        decreases defs.len() - k,
    {
        let d = copy_def(&defs[k]);
        let ghost t = defs_view(out@);
        proof {
            lemma_isort_step(all, lt, k as int);
            lemma_isort_len(all.take(k as int), lt);
        }
        assert(all[k as int] == d@);
        let mut j = out.len();
        while j > 0 && def_less(&d, &out[j - 1])
            invariant
                0 <= j <= out@.len(),
                t == defs_view(out@),
                lt == by_name_then_file(),
                insert_pos_by(t, d@, lt, j as int) == insert_pos_by(t, d@, lt, t.len() as int),
            decreases j,
        {
            assert(t[j - 1] == out@[j - 1]@);
            j -= 1;
        }
        if j > 0 {
            assert(t[j - 1] == out@[j - 1]@);
        }
        out.insert(j, d);
        assert(defs_view(out@) =~= t.insert(j as int, d@));
        k += 1;
    }
    assert(all.take(defs.len() as int) =~= all);
    out
}

/// The order of script files: by path.
pub open spec fn by_path() -> spec_fn(ScriptFile, ScriptFile) -> bool {
    |a: ScriptFile, b: ScriptFile| path_lt(a.path@, b.path@)
}

/// Sorts script files by path, keeping the order of equal paths.
pub fn sort_by_path(files: Vec<ScriptFile>) -> (r: Vec<ScriptFile>)
    ensures
        r@ == isort(files@, by_path()),
{
    let ghost all = files@;
    let ghost lt = by_path();
    let n = files.len();
    let mut input = files;
    let mut out: Vec<ScriptFile> = Vec::new();
    let mut k: usize = 0;
    assert(all.take(0) =~= Seq::<ScriptFile>::empty());
    assert(all.skip(0) =~= all);
    while input.len() > 0
        invariant
            k <= all.len(),
            all.len() == n,
            input@ == all.skip(k as int),
            out@ == isort(all.take(k as int), lt),
            lt == by_path(),
        decreases input.len(),
    {
        proof {
            lemma_isort_len(all.take(k as int), lt);
            lemma_isort_step(all, lt, k as int);
        }
        let x = input.remove(0);
        assert(input@ =~= all.skip(k + 1));
        let mut j = out.len();
        while j > 0 && path_less(x.path.as_str(), out[j - 1].path.as_str())
            invariant
                0 <= j <= out@.len(),
                insert_pos_by(out@, x, lt, j as int) == insert_pos_by(out@, x, lt, out@.len() as int),
                lt == by_path(),
            decreases j,
        {
            j -= 1;
        }
        out.insert(j, x);
        k += 1;
    }
    assert(all.take(k as int) =~= all);
    out
}

impl ScriptCatalog {
    /// A catalog with no files.
    pub fn new() -> (r: Self)
        ensures
            r.files@.len() == 0,
            r.index.functions@.len() == 0,
            r.index.labels@ == Map::<Seq<char>, (Seq<char>, usize)>::empty(),
            r.enabled_lines == 0,
    {
        ScriptCatalog {
            files: Vec::new(),
            index: ScriptIndex { functions: Vec::new(), labels: AssocMap::new() },
            enabled_lines: 0,
        }
    }

    /// The catalog of the script files of a game: the files ordered by path
    /// (equal paths keep their order), the number of enabled lines, the
    /// functions ordered by name and then file, and the first location of
    /// every label.
    pub fn from_files(files: Vec<ScriptFile>) -> (r: Self)
        requires
            enabled_count(all_lines(isort(files@, by_path()))) <= usize::MAX,
        ensures
            r.files@ == isort(files@, by_path()),
            r.enabled_lines == enabled_count(all_lines(r.files@)),
            defs_view(r.index.functions@) == isort(
                functions_of(all_lines(r.files@)),
                by_name_then_file(),
            ),
            r.index.labels@ == labels_of(all_lines(r.files@)),
    {
        let files = sort_by_path(files);
        ScriptCatalog::from_sorted_files(files)
    }

    fn from_sorted_files(files: Vec<ScriptFile>) -> (r: Self)
        requires
            enabled_count(all_lines(files@)) <= usize::MAX,
        ensures
            r.files@ == files@,
            r.enabled_lines == enabled_count(all_lines(files@)),
            defs_view(r.index.functions@) == isort(
                functions_of(all_lines(files@)),
                by_name_then_file(),
            ),
            r.index.labels@ == labels_of(all_lines(files@)),
    {
        let mut functions: Vec<FunctionDef> = Vec::new();
        let mut labels: AssocMap<String, ScriptLocation> = AssocMap::new();
        let mut enabled: usize = 0;
        let mut k: usize = 0;
        assert(all_lines(files@.take(0)) =~= seq![]);
        while k < files.len()
            invariant
                0 <= k <= files.len(),
                enabled_count(all_lines(files@)) <= usize::MAX,
                enabled == enabled_count(all_lines(files@.take(k as int))),
                defs_view(functions@) == functions_of(all_lines(files@.take(k as int))),
                labels@ == labels_of(all_lines(files@.take(k as int))),
            decreases files.len() - k,
        {
            let file = &files[k];
            let ghost base = all_lines(files@.take(k as int));
            assert(files@.take(k + 1).drop_last() =~= files@.take(k as int));
            assert(files@.take(k + 1).last() == *file);
            let mut j: usize = 0;
            assert(base + file_lines(*file).take(0) =~= base);
            while j < file.lines.len()
                invariant
                    0 <= j <= file.lines.len(),
                    *file == files@[k as int],
                    k < files.len(),
                    base == all_lines(files@.take(k as int)),
                    all_lines(files@.take(k + 1)) == base + file_lines(*file),
                    enabled_count(all_lines(files@)) <= usize::MAX,
                    enabled == enabled_count(base + file_lines(*file).take(j as int)),
                    defs_view(functions@) == functions_of(base + file_lines(*file).take(j as int)),
                    labels@ == labels_of(base + file_lines(*file).take(j as int)),
                decreases file.lines.len() - j,
            {
                let line = &file.lines[j];
                let ghost pre = base + file_lines(*file).take(j as int);
                let ghost cur = base + file_lines(*file).take(j + 1);
                assert(cur.drop_last() =~= pre);
                assert(cur.last() == (file.relative_path@, *line));
                proof {
                    lemma_enabled_prefix(files@, k as int, j as int);
                }
                if !matches!(line.kind, ScriptLineKind::Empty | ScriptLineKind::Comment) {
                    enabled += 1;
                }
                match line.kind {
                    ScriptLineKind::Function => {
                        if let Some(name) = parse_function_name(line.text.as_str()) {
                            let d = FunctionDef {
                                name,
                                location: ScriptLocation {
                                    file: file.relative_path.clone(),
                                    line_no: line.line_no,
                                },
                            };
                            let ghost before = defs_view(functions@);
                            functions.push(d);
                            assert(defs_view(functions@) =~= before.push(d@));
                        }
                    },
                    ScriptLineKind::Label => {
                        if let Some(name) = parse_label_name(line.text.as_str()) {
                            let loc = ScriptLocation {
                                file: file.relative_path.clone(),
                                line_no: line.line_no,
                            };
                            labels.insert_if_absent(name, loc);
                        }
                    },
                    _ => {},
                }
                j += 1;
            }
            assert(file_lines(*file).take(file.lines.len() as int) =~= file_lines(*file));
            k += 1;
        }
        assert(files@.take(files.len() as int) =~= files@);
        let functions = sort_functions(functions);
        ScriptCatalog { files, index: ScriptIndex { functions, labels }, enabled_lines: enabled }
    }

    /// The first function whose name equals `name`, ignoring ASCII case.
    pub fn find_function(&self, name: &str) -> (r: Option<&FunctionDef>)
        ensures
            r matches Some(f) ==> first_function(self.index.functions@, name@) matches Some(i)
                && *f == self.index.functions@[i],
            r is None ==> first_function(self.index.functions@, name@) is None,
    {
        let mut i: usize = 0;
        while i < self.index.functions.len()
            invariant
                0 <= i <= self.index.functions.len(),
                first_function_from(self.index.functions@, name@, i as int) == first_function(
                    self.index.functions@,
                    name@,
                ),
            decreases self.index.functions.len() - i,
        {
            if eq_ignore_case_str(self.index.functions[i].name.as_str(), name) {
                return Some(&self.index.functions[i]);
            }
            i += 1;
        }
        None
    }

    /// The lines of the function `name`: those after its definition up to
    /// the next function definition of its file.
    pub fn function_lines(&self, name: &str) -> (r: Option<Vec<LocatedScriptLine<'_>>>)
        ensures
            r matches Some(v) ==> function_lines_spec(self.files@, self.index.functions@, name@)
                == Some(located_view(v@)),
            r is None ==> function_lines_spec(self.files@, self.index.functions@, name@) is None,
    {
        let function = match self.find_function(name) {
            Some(f) => f,
            None => return None,
        };
        let ghost fi = first_function(self.index.functions@, name@)->0;
        let mut fidx: usize = 0;
        while fidx < self.files.len() && self.files[fidx].relative_path != function.location.file
            invariant
                0 <= fidx <= self.files.len(),
                first_file_from(self.files@, function.location.file@, fidx as int) == first_file(
                    self.files@,
                    function.location.file@,
                ),
            decreases self.files.len() - fidx,
        {
            fidx += 1;
        }
        if fidx == self.files.len() {
            return None;
        }
        let file = &self.files[fidx];
        let mut start: usize = 0;
        while start < file.lines.len() && file.lines[start].line_no != function.location.line_no
            invariant
                0 <= start <= file.lines.len(),
                first_line_from(file.lines@, function.location.line_no, start as int)
                    == first_line(file.lines@, function.location.line_no),
            decreases file.lines.len() - start,
        {
            start += 1;
        }
        if start == file.lines.len() {
            return None;
        }
        let mut out: Vec<LocatedScriptLine<'_>> = Vec::new();
        let mut j = start + 1;
        let ghost stop = block_end(file.lines@, start + 1);
        while j < file.lines.len() && file.lines[j].kind != ScriptLineKind::Function
            invariant
                start + 1 <= j <= file.lines.len(),
                start < file.lines.len(),
                block_end(file.lines@, j as int) == stop,
                located_view(out@) == block_lines(file.relative_path@, file.lines@.subrange(
                    start + 1,
                    j as int,
                )),
            decreases file.lines.len() - j,
        {
            let item = LocatedScriptLine { file: &file.relative_path, line: &file.lines[j] };
            let ghost before = located_view(out@);
            out.push(item);
            assert(located_view(out@) =~= before.push((file.relative_path@, file.lines@[j as int])));
            assert(block_lines(file.relative_path@, file.lines@.subrange(start + 1, j + 1))
                =~= block_lines(file.relative_path@, file.lines@.subrange(start + 1, j as int)).push(
                (file.relative_path@, file.lines@[j as int]),
            ));
            j += 1;
        }
        assert(j == stop);
        Some(out)
    }
}

pub proof fn lemma_enabled_prefix(files: Seq<ScriptFile>, k: int, j: int)
    requires
        0 <= k < files.len(),
        0 <= j < files[k].lines@.len(),
    ensures
        enabled_count(all_lines(files.take(k)) + file_lines(files[k]).take(j + 1)) <= enabled_count(
            all_lines(files),
        ),
{
    lemma_enabled_count_prefix_files(files, k + 1);
    let whole = all_lines(files.take(k + 1));
    assert(files.take(k + 1).drop_last() =~= files.take(k));
    assert(files.take(k + 1).last() == files[k]);
    let part = all_lines(files.take(k)) + file_lines(files[k]).take(j + 1);
    assert(part =~= whole.take(part.len() as int));
    lemma_enabled_count_take(whole, part.len() as int);
}

pub proof fn lemma_enabled_count_take(ls: Seq<(Seq<char>, ScriptLine)>, n: int)
    requires
        0 <= n <= ls.len(),
    ensures
        enabled_count(ls.take(n)) <= enabled_count(ls),
    decreases ls.len(),
{
    if n < ls.len() {
        assert(ls.drop_last().take(n) =~= ls.take(n));
        lemma_enabled_count_take(ls.drop_last(), n);
    } else {
        assert(ls.take(n) =~= ls);
    }
}

pub proof fn lemma_enabled_count_prefix_files(files: Seq<ScriptFile>, k: int)
    requires
        0 <= k <= files.len(),
    ensures
        enabled_count(all_lines(files.take(k))) <= enabled_count(all_lines(files)),
    decreases files.len(),
{
    if k < files.len() {
        assert(files.drop_last().take(k) =~= files.take(k));
        lemma_enabled_count_prefix_files(files.drop_last(), k);
        let a = all_lines(files.drop_last());
        let b = all_lines(files);
        assert(b.take(a.len() as int) =~= a);
        lemma_enabled_count_take(b, a.len() as int);
    } else {
        assert(files.take(k) =~= files);
    }
}

pub open spec fn first_function_from(fns: Seq<FunctionDef>, name: Seq<char>, i: int) -> Option<int>
    decreases fns.len() - i,
{
    if i < 0 || i >= fns.len() {
        None
    } else if eq_ignore_case(fns[i].name@, name) {
        Some(i)
    } else {
        first_function_from(fns, name, i + 1)
    }
}

/// Index of the first function named `name`, ignoring ASCII case.
pub open spec fn first_function(fns: Seq<FunctionDef>, name: Seq<char>) -> Option<int> {
    first_function_from(fns, name, 0)
}

pub open spec fn first_file_from(files: Seq<ScriptFile>, rel: Seq<char>, i: int) -> Option<int>
    decreases files.len() - i,
{
    if i < 0 || i >= files.len() {
        None
    } else if files[i].relative_path@ == rel {
        Some(i)
    } else {
        first_file_from(files, rel, i + 1)
    }
}

pub open spec fn first_file(files: Seq<ScriptFile>, rel: Seq<char>) -> Option<int> {
    first_file_from(files, rel, 0)
}

pub open spec fn first_line_from(ls: Seq<ScriptLine>, no: usize, i: int) -> Option<int>
    decreases ls.len() - i,
{
    if i < 0 || i >= ls.len() {
        None
    } else if ls[i].line_no == no {
        Some(i)
    } else {
        first_line_from(ls, no, i + 1)
    }
}

pub open spec fn first_line(ls: Seq<ScriptLine>, no: usize) -> Option<int> {
    first_line_from(ls, no, 0)
}

/// Position of the first function definition line from `i` on, or the end.
pub open spec fn block_end(ls: Seq<ScriptLine>, i: int) -> int
    decreases ls.len() - i,
{
    if i < 0 || i >= ls.len() {
        ls.len() as int
    } else if ls[i].kind == ScriptLineKind::Function {
        i
    } else {
        block_end(ls, i + 1)
    }
}

pub open spec fn block_lines(file: Seq<char>, ls: Seq<ScriptLine>) -> Seq<(Seq<char>, ScriptLine)> {
    ls.map_values(|l: ScriptLine| (file, l))
}

pub open spec fn located_view(v: Seq<LocatedScriptLine>) -> Seq<(Seq<char>, ScriptLine)> {
    v.map_values(|l: LocatedScriptLine| (l.file@, *l.line))
}

/// The body of the function `name`: its file is the first whose relative
/// path is that of the definition, its definition line the first with the
/// definition's line number, and the body runs to the next definition.
pub open spec fn function_lines_spec(
    files: Seq<ScriptFile>,
    fns: Seq<FunctionDef>,
    name: Seq<char>,
) -> Option<Seq<(Seq<char>, ScriptLine)>> {
    match first_function(fns, name) {
        None => None,
        Some(i) => {
            let f = fns[i];
            match first_file(files, f.location.file@) {
                None => None,
                Some(fi) => {
                    let file = files[fi];
                    match first_line(file.lines@, f.location.line_no) {
                        None => None,
                        Some(s) => Some(
                            block_lines(
                                file.relative_path@,
                                file.lines@.subrange(s + 1, block_end(file.lines@, s + 1)),
                            ),
                        ),
                    }
                },
            }
        },
    }
}

} // verus!
