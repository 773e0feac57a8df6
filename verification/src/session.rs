//! One turn of the interactive console: what a typed line does to the
//! console's variables and what the console answers.
use vstd::prelude::*;

use crate::banner::{resources_text, yes_no_text};
use crate::console::{
    console_command, parse_console_command, stop_reason_text, stop_text, value_of_text, yes_no,
    Cmd, ConsoleCommand,
};
use crate::csv::{lookup_id, lookup_name, NameTableView};
use crate::expr::{eval, eval_spec, parse, parse_spec, value_result, ExprErr, ExprError};
use crate::game::{Game, GamePaths};
use crate::instruction::{instr_of, parse_line, Instr, Instruction};
use crate::runtime::{address_of, store_get, Val, Value, VarAddress, VarResolver, VarStore};
use crate::script::{
    first_function, function_lines_spec, located_view, FunctionDef, ScriptCatalog, ScriptFile,
    ScriptFileKind, ScriptLine,
};
use crate::text::{
    debug_quoted, debug_string, decimal, int_text, int_to_string, parse_i64, push_str, texts,
    upper, upper_string, usize_to_string,
};
use crate::vm::{run_function_spec, Stop, Vm, VmState};

verus! {

/// What the console does after a line: stop, clear the screen, print lines,
/// or show a value that the front end prints in Rust's debug notation.
#[derive(Debug)]
pub enum ConsoleAction {
    Quit,
    Clear,
    Print(Vec<String>),
    /// The first lines of a function, each parsed: file, line number and
    /// instruction.
    Parsed(Vec<ParsedLine>),
    /// A variable was set; `count` addresses are set now.
    VarStored { address: VarAddress, value: Value, count: usize },
    VarShown { address: VarAddress, value: Value },
    Evaluated(Result<Value, ExprError>),
}

#[derive(Debug)]
pub struct ParsedLine {
    pub file: String,
    pub line_no: usize,
    pub instruction: Instruction,
}

/// The model of a console action.
pub enum Action {
    Quit,
    Clear,
    Print(Seq<Seq<char>>),
    Parsed(Seq<(Seq<char>, usize, Instr)>),
    VarStored { address: (Seq<char>, Seq<i64>), value: Val, count: nat },
    VarShown { address: (Seq<char>, Seq<i64>), value: Val },
    Evaluated(Result<Val, ExprErr>),
}

pub open spec fn parsed_view(v: Seq<ParsedLine>) -> Seq<(Seq<char>, usize, Instr)> {
    v.map_values(|p: ParsedLine| (p.file@, p.line_no, p.instruction@))
}

impl View for ConsoleAction {
    type V = Action;

    open spec fn view(&self) -> Action {
        match self {
            ConsoleAction::Quit => Action::Quit,
            ConsoleAction::Clear => Action::Clear,
            ConsoleAction::Print(lines) => Action::Print(texts(lines@)),
            ConsoleAction::Parsed(lines) => Action::Parsed(parsed_view(lines@)),
            ConsoleAction::VarStored { address, value, count } => Action::VarStored {
                address: address@,
                value: value@,
                count: *count as nat,
            },
            ConsoleAction::VarShown { address, value } => Action::VarShown {
                address: address@,
                value: value@,
            },
            ConsoleAction::Evaluated(r) => Action::Evaluated(value_result(*r)),
        }
    }
}

// ---------------------------------------------------------------------------
// The answers
// ---------------------------------------------------------------------------

/// The commands the console offers.
pub open spec fn help_text() -> Seq<Seq<char>> {
    seq![
        "[headless]"@,
        "  :scan   rescan summary captured at startup"@,
        "  :paths  show source and runtime directories"@,
        "  :functions  list the first loaded ERB functions"@,
        "  :find NAME  find a loaded ERB function"@,
        "  :parse NAME  parse the first lines of a loaded ERB function"@,
        "  :run NAME [STEPS]  run a function with the bootstrap VM"@,
        "  :run-with NAME INPUT...  run with queued INPUT values"@,
        "  :name TABLE NAME  resolve a CSV name, e.g. :name TALENT 性別"@,
        "  :var ADDRESS[=VALUE]  inspect or set a runtime variable"@,
        "  :eval EXPR  evaluate a bootstrap expression"@,
        "  :clear  clear the terminal"@,
        "  :quit   exit"@,
    ]
}

/// `LABEL: PATH`, or `LABEL: <missing>`.
pub open spec fn path_line(label: Seq<char>, path: Option<Seq<char>>) -> Seq<char> {
    label + ": "@ + match path {
        Some(p) => p,
        None => "<missing>"@,
    }
}

/// The directories of the game.
pub open spec fn paths_text(p: GamePaths) -> Seq<Seq<char>> {
    seq![
        "source : "@ + p.source_dir@,
        "runtime: "@ + p.runtime_dir@,
        path_line("csv"@, p.csv_dir.deep_view()),
        path_line("erb"@, p.erb_dir.deep_view()),
        path_line("dat"@, p.dat_dir.deep_view()),
        path_line("debug"@, p.debug_dir.deep_view()),
        path_line("resources"@, p.resources_dir.deep_view()),
        path_line("sav"@, p.sav_dir.deep_view()),
    ]
}

/// The number of `.erb` files among `files`.
pub open spec fn erb_count(files: Seq<ScriptFile>) -> nat
    decreases files.len(),
{
    if files.len() == 0 {
        0
    } else {
        erb_count(files.drop_last()) + if files.last().kind == ScriptFileKind::Erb {
            1nat
        } else {
            0nat
        }
    }
}

/// The number of lines of `files`, all lines counted.
pub open spec fn physical_lines(files: Seq<ScriptFile>) -> nat
    decreases files.len(),
{
    if files.len() == 0 {
        0
    } else {
        physical_lines(files.drop_last()) + files.last().lines@.len()
    }
}

/// The summary `:scan` prints: what the directory holds, what was loaded,
/// the script files by kind with their lines, and the first script file.
pub open spec fn scan_text(game: Game) -> Seq<Seq<char>> {
    let r = game.resources;
    let files = game.scripts.files@;
    let erb = erb_count(files);
    seq![
        resources_text(r) + ", config="@ + yes_no_text(r.has_config) + ", sav_dir="@
            + yes_no_text(r.has_sav_dir),
        "loaded: "@ + decimal(game.config.entries@.len()) + " config entries, "@ + decimal(
            game.csv.files@.len(),
        ) + " CSV files, "@ + decimal(game.csv.rows as nat) + " CSV rows, "@ + decimal(
            game.csv.name_tables@.dom().len(),
        ) + " name tables, "@ + decimal(files.len()) + " script files, "@ + decimal(
            game.scripts.enabled_lines as nat,
        ) + " enabled script lines"@,
        "scripts: "@ + decimal(erb) + " ERB, "@ + decimal((files.len() - erb) as nat) + " ERH, "@
            + decimal(physical_lines(files)) + " physical lines"@,
    ] + if files.len() > 0 {
        seq!["first script: "@ + files[0].relative_path@ + " ("@ + files[0].path@ + ")"@]
    } else {
        seq![]
    }
}

/// `NAME @ FILE:LINE`.
pub open spec fn def_line(f: FunctionDef) -> Seq<char> {
    f.name@ + " @ "@ + f.location.file@ + ":"@ + decimal(f.location.line_no as nat)
}

/// How many entries a listing shows.
pub open spec fn shown(n: nat) -> nat {
    if n > 40 {
        40
    } else {
        n
    }
}

/// The first forty functions, and how many more there are.
pub open spec fn functions_text(fns: Seq<FunctionDef>) -> Seq<Seq<char>> {
    fns.take(shown(fns.len()) as int).map_values(|f: FunctionDef| def_line(f)) + if fns.len()
        > 40 {
        seq!["... "@ + decimal((fns.len() - 40) as nat) + " more"@]
    } else {
        seq![]
    }
}

pub open spec fn not_found(name: Seq<char>) -> Seq<char> {
    "function not found: "@ + name
}

/// Where the function `name` is defined.
pub open spec fn find_text(fns: Seq<FunctionDef>, name: Seq<char>) -> Seq<Seq<char>> {
    match first_function(fns, name) {
        Some(i) => seq![def_line(fns[i])],
        None => seq![not_found(name)],
    }
}

/// The first forty lines of the body of `name`, parsed.
pub open spec fn parse_action(scripts: ScriptCatalog, name: Seq<char>) -> Action {
    match function_lines_spec(scripts.files@, scripts.index.functions@, name) {
        Some(ls) => Action::Parsed(
            ls.take(shown(ls.len()) as int).map_values(
                |e: (Seq<char>, ScriptLine)| (e.0, e.1.line_no, instr_of(e.1.text@)),
            ),
        ),
        None => Action::Print(seq![not_found(name)]),
    }
}

/// A typed input: a number when the text reads as one, else the text.
pub open spec fn input_val(s: Seq<char>) -> Val {
    match parse_i64(s) {
        Some(x) => Val::Int(x),
        None => Val::Str(s),
    }
}

/// A fresh machine with `inputs` queued.
pub open spec fn fresh_state(inputs: Seq<Val>) -> VmState {
    VmState { variables: Map::empty(), inputs, output: seq![] }
}

/// What a run prints: its output, then how it stopped.
pub open spec fn run_text(res: (VmState, Stop, nat)) -> Seq<Seq<char>> {
    res.0.output.push(
        "vm stopped after "@ + decimal(res.2) + " steps: "@ + stop_text(res.1),
    )
}

/// The run of `name` on a fresh machine with `inputs` queued.
pub open spec fn run_on_fresh(
    game: Game,
    name: Seq<char>,
    limit: int,
    inputs: Seq<Val>,
) -> Seq<Seq<char>> {
    run_text(
        run_function_spec(
            game.scripts,
            game.csv.name_tables@,
            name,
            limit,
            0,
            fresh_state(inputs),
        ),
    )
}

/// The steps a run with queued input may take.
pub open spec fn run_with_limit() -> int {
    2000
}

/// `TABLE:NAME = ID (SOURCE)`, the name as the table writes it; or that the
/// name is not there.
pub open spec fn name_text(
    tables: Map<Seq<char>, NameTableView>,
    table: Seq<char>,
    name: Seq<char>,
) -> Seq<char> {
    match lookup_id(tables, table, name) {
        Some(id) => {
            let canonical = match lookup_name(tables, table, id) {
                Some(n) => n,
                None => name,
            };
            let source = if tables.contains_key(upper(table)) {
                tables[upper(table)].source_file
            } else {
                "<unknown>"@
            };
            table + ":"@ + canonical + " = "@ + int_text(id as int) + " ("@ + source + ")"@
        },
        None => "name not found: "@ + table + ":"@ + name,
    }
}

/// The answer to text that is no command.
pub open spec fn unknown_text(input: Seq<char>) -> Seq<char> {
    "Rust script execution is not wired yet; received input "@ + debug_quoted(input) + "."@
}

pub open spec fn print1(line: Seq<char>) -> Action {
    Action::Print(seq![line])
}

/// One turn of the console: the action for `line` and the variables after
/// it.  Only `:var ADDRESS=VALUE` with an address that reads changes the
/// variables.
pub open spec fn console_step_spec(
    game: Game,
    vars: Map<(Seq<char>, Seq<i64>), Val>,
    line: Seq<char>,
) -> (Action, Map<(Seq<char>, Seq<i64>), Val>) {
    let tables = game.csv.name_tables@;
    match console_command(line) {
        Cmd::Quit => (Action::Quit, vars),
        Cmd::Help => (Action::Print(help_text()), vars),
        Cmd::Clear => (Action::Clear, vars),
        Cmd::Paths => (Action::Print(paths_text(game.paths)), vars),
        Cmd::Scan => (Action::Print(scan_text(game)), vars),
        Cmd::Functions => (Action::Print(functions_text(game.scripts.index.functions@)), vars),
        Cmd::Find(name) => (Action::Print(find_text(game.scripts.index.functions@, name)), vars),
        Cmd::Parse(name) => (parse_action(game.scripts, name), vars),
        Cmd::Run { name, limit } => (
            Action::Print(run_on_fresh(game, name, limit as int, seq![])),
            vars,
        ),
        Cmd::RunUsage => (print1("usage: :run FUNCTION [STEP_LIMIT]"@), vars),
        Cmd::RunWith { name, inputs } => (
            Action::Print(
                run_on_fresh(game, name, run_with_limit(), input_vals(inputs)),
            ),
            vars,
        ),
        Cmd::RunWithUsage => (print1("usage: :run-with FUNCTION INPUT..."@), vars),
        Cmd::Name { table, name } => (print1(name_text(tables, table, name)), vars),
        Cmd::NameUsage => (print1("usage: :name TABLE NAME"@), vars),
        Cmd::VarSet { address, value } => match address_of(tables, address) {
            None => (print1("invalid variable address: "@ + address), vars),
            Some(a) => {
                let after = vars.insert(a, input_val(value));
                (Action::VarStored { address: a, value: input_val(value), count: after.dom().len() }, after)
            },
        },
        Cmd::VarShow(text) => match address_of(tables, text) {
            Some(a) => (Action::VarShown { address: a, value: store_get(vars, a) }, vars),
            None => (print1("usage: :var ADDRESS[=VALUE]"@), vars),
        },
        Cmd::Eval(text) => (
            Action::Evaluated(
                match parse_spec(text) {
                    Ok(e) => eval_spec(e, tables, vars),
                    Err(err) => Err(err),
                },
            ),
            vars,
        ),
        Cmd::Empty => (Action::Print(seq![]), vars),
        Cmd::Unknown(input) => (print1(unknown_text(input)), vars),
    }
}

// ---------------------------------------------------------------------------
// Building the answers
// ---------------------------------------------------------------------------

fn push_text(lines: &mut Vec<String>, s: String)
    ensures
        texts(final(lines)@) == texts(old(lines)@).push(s@),
{
    let ghost t = s@;
    lines.push(s);
    assert(texts(lines@) =~= texts(old(lines)@).push(t));
}

fn joined(a: &str, b: &str) -> (r: String)
    ensures
        r@ == a@ + b@,
{
    let mut out = String::new();
    push_str(&mut out, a);
    push_str(&mut out, b);
    out
}

fn help_lines() -> (r: Vec<String>)
    ensures
        texts(r@) == help_text(),
{
    let mut r: Vec<String> = Vec::new();
    push_text(&mut r, "[headless]".to_owned());
    push_text(&mut r, "  :scan   rescan summary captured at startup".to_owned());
    push_text(&mut r, "  :paths  show source and runtime directories".to_owned());
    push_text(&mut r, "  :functions  list the first loaded ERB functions".to_owned());
    push_text(&mut r, "  :find NAME  find a loaded ERB function".to_owned());
    push_text(&mut r, "  :parse NAME  parse the first lines of a loaded ERB function".to_owned());
    push_text(&mut r, "  :run NAME [STEPS]  run a function with the bootstrap VM".to_owned());
    push_text(&mut r, "  :run-with NAME INPUT...  run with queued INPUT values".to_owned());
    push_text(&mut r, "  :name TABLE NAME  resolve a CSV name, e.g. :name TALENT 性別".to_owned());
    push_text(&mut r, "  :var ADDRESS[=VALUE]  inspect or set a runtime variable".to_owned());
    push_text(&mut r, "  :eval EXPR  evaluate a bootstrap expression".to_owned());
    push_text(&mut r, "  :clear  clear the terminal".to_owned());
    push_text(&mut r, "  :quit   exit".to_owned());
    assert(texts(r@) =~= help_text());
    r
}

fn path_line_of(label: &str, path: &Option<String>) -> (r: String)
    ensures
        r@ == path_line(label@, path.deep_view()),
{
    let mut out = joined(label, ": ");
    match path {
        Some(p) => push_str(&mut out, p.as_str()),
        None => push_str(&mut out, "<missing>"),
    }
    out
}

fn paths_lines(p: &GamePaths) -> (r: Vec<String>)
    ensures
        texts(r@) == paths_text(*p),
{
    let mut r: Vec<String> = Vec::new();
    push_text(&mut r, joined("source : ", p.source_dir.as_str()));
    push_text(&mut r, joined("runtime: ", p.runtime_dir.as_str()));
    push_text(&mut r, path_line_of("csv", &p.csv_dir));
    push_text(&mut r, path_line_of("erb", &p.erb_dir));
    push_text(&mut r, path_line_of("dat", &p.dat_dir));
    push_text(&mut r, path_line_of("debug", &p.debug_dir));
    push_text(&mut r, path_line_of("resources", &p.resources_dir));
    push_text(&mut r, path_line_of("sav", &p.sav_dir));
    assert(texts(r@) =~= paths_text(*p));
    r
}

pub proof fn lemma_erb_count_bound(files: Seq<ScriptFile>)
    ensures
        erb_count(files) <= files.len(),
    decreases files.len(),
{
    if files.len() > 0 {
        lemma_erb_count_bound(files.drop_last());
    }
}

pub proof fn lemma_physical_lines_prefix(files: Seq<ScriptFile>, k: int)
    requires
        0 <= k <= files.len(),
    ensures
        physical_lines(files.take(k)) <= physical_lines(files),
    decreases files.len(),
{
    if files.len() > 0 {
        if k < files.len() {
            assert(files.drop_last().take(k) =~= files.take(k));
            lemma_physical_lines_prefix(files.drop_last(), k);
        } else {
            assert(files.take(k) =~= files);
        }
    } else {
        assert(files.take(k) =~= files);
    }
}

fn erb_files_of(files: &Vec<ScriptFile>) -> (r: usize)
    ensures
        r == erb_count(files@),
{
    let mut n: usize = 0;
    let mut k: usize = 0;
    while k < files.len()
        invariant
            0 <= k <= files.len(),
            n == erb_count(files@.take(k as int)),
        decreases files.len() - k,
    {
        assert(files@.take(k + 1).drop_last() =~= files@.take(k as int));
        proof {
            lemma_erb_count_bound(files@.take(k as int));
        }
        if files[k].kind == ScriptFileKind::Erb {
            n = n + 1;
        }
        k += 1;
    }
    assert(files@.take(files.len() as int) =~= files@);
    n
}

/// The number of lines of the script files, all lines counted, when it
/// fits in a `usize`.
pub fn physical_line_count(files: &Vec<ScriptFile>) -> (r: Option<usize>)
    ensures
        r matches Some(n) ==> n == physical_lines(files@),
        r is None <==> physical_lines(files@) > usize::MAX,
{
    let mut n: usize = 0;
    let mut k: usize = 0;
    while k < files.len()
        invariant
            0 <= k <= files.len(),
            n == physical_lines(files@.take(k as int)),
        decreases files.len() - k,
    {
        assert(files@.take(k + 1).drop_last() =~= files@.take(k as int));
        match n.checked_add(files[k].lines.len()) {
            Some(m) => n = m,
            None => {
                proof {
                    lemma_physical_lines_prefix(files@, k + 1);
                }
                return None;
            },
        }
        k += 1;
    }
    assert(files@.take(files.len() as int) =~= files@);
    Some(n)
}

fn scan_lines(game: &Game) -> (r: Vec<String>)
    requires
        physical_lines(game.scripts.files@) <= usize::MAX,
    ensures
        texts(r@) == scan_text(*game),
{
    let res = &game.resources;
    let files = &game.scripts.files;
    let mut r: Vec<String> = Vec::new();

    let mut first = String::new();
    push_str(&mut first, "resources: ");
    push_str(&mut first, usize_to_string(res.erb_files).as_str());
    push_str(&mut first, " ERB, ");
    push_str(&mut first, usize_to_string(res.csv_files).as_str());
    push_str(&mut first, " CSV, ");
    push_str(&mut first, usize_to_string(res.dat_files).as_str());
    push_str(&mut first, " DAT, ");
    push_str(&mut first, usize_to_string(res.save_files).as_str());
    push_str(&mut first, " SAV");
    push_str(&mut first, ", config=");
    push_str(&mut first, yes_no(res.has_config));
    push_str(&mut first, ", sav_dir=");
    push_str(&mut first, yes_no(res.has_sav_dir));
    push_text(&mut r, first);

    let mut second = String::new();
    push_str(&mut second, "loaded: ");
    push_str(&mut second, usize_to_string(game.config.entries.len()).as_str());
    push_str(&mut second, " config entries, ");
    push_str(&mut second, usize_to_string(game.csv.files.len()).as_str());
    push_str(&mut second, " CSV files, ");
    push_str(&mut second, usize_to_string(game.csv.rows).as_str());
    push_str(&mut second, " CSV rows, ");
    push_str(&mut second, usize_to_string(game.csv.name_tables.len()).as_str());
    push_str(&mut second, " name tables, ");
    push_str(&mut second, usize_to_string(files.len()).as_str());
    push_str(&mut second, " script files, ");
    push_str(&mut second, usize_to_string(game.scripts.enabled_lines).as_str());
    push_str(&mut second, " enabled script lines");
    push_text(&mut r, second);

    let erb = erb_files_of(files);
    proof {
        lemma_erb_count_bound(files@);
    }
    let lines = match physical_line_count(files) {
        Some(n) => n,
        None => 0,
    };
    let mut third = String::new();
    push_str(&mut third, "scripts: ");
    push_str(&mut third, usize_to_string(erb).as_str());
    push_str(&mut third, " ERB, ");
    push_str(&mut third, usize_to_string(files.len() - erb).as_str());
    push_str(&mut third, " ERH, ");
    push_str(&mut third, usize_to_string(lines).as_str());
    push_str(&mut third, " physical lines");
    push_text(&mut r, third);
    let ghost three = texts(r@);

    if files.len() > 0 {
        let mut fourth = String::new();
        push_str(&mut fourth, "first script: ");
        push_str(&mut fourth, files[0].relative_path.as_str());
        push_str(&mut fourth, " (");
        push_str(&mut fourth, files[0].path.as_str());
        push_str(&mut fourth, ")");
        push_text(&mut r, fourth);
    }
    assert(three[0] == scan_text(*game)[0]);
    assert(three[1] == scan_text(*game)[1]);
    assert(three[2] == scan_text(*game)[2]);
    assert(three.len() == 3);
    assert(texts(r@) =~= scan_text(*game));
    r
}

fn def_line_of(f: &FunctionDef) -> (r: String)
    ensures
        r@ == def_line(*f),
{
    let mut out = String::new();
    push_str(&mut out, f.name.as_str());
    push_str(&mut out, " @ ");
    push_str(&mut out, f.location.file.as_str());
    push_str(&mut out, ":");
    push_str(&mut out, usize_to_string(f.location.line_no).as_str());
    out
}

fn shown_of(n: usize) -> (r: usize)
    ensures
        r == shown(n as nat),
{
    if n > 40 {
        40
    } else {
        n
    }
}

fn functions_lines(fns: &Vec<FunctionDef>) -> (r: Vec<String>)
    ensures
        texts(r@) == functions_text(fns@),
{
    let count = shown_of(fns.len());
    let mut r: Vec<String> = Vec::new();
    let mut i: usize = 0;
    while i < count
        invariant
            0 <= i <= count,
            count == shown(fns@.len()),
            texts(r@) == fns@.take(i as int).map_values(|f: FunctionDef| def_line(f)),
        decreases count - i,
    {
        let ghost before = texts(r@);
        push_text(&mut r, def_line_of(&fns[i]));
        assert(fns@.take(i + 1).map_values(|f: FunctionDef| def_line(f)) =~= before.push(
            def_line(fns@[i as int]),
        ));
        i += 1;
    }
    let ghost listed = texts(r@);
    if fns.len() > 40 {
        let mut more = String::new();
        push_str(&mut more, "... ");
        push_str(&mut more, usize_to_string(fns.len() - 40).as_str());
        push_str(&mut more, " more");
        push_text(&mut r, more);
        assert(texts(r@) =~= listed + seq!["... "@ + decimal((fns@.len() - 40) as nat) + " more"@]);
    } else {
        assert(texts(r@) =~= listed + Seq::<Seq<char>>::empty());
    }
    r
}

fn find_lines(scripts: &ScriptCatalog, name: &str) -> (r: Vec<String>)
    ensures
        texts(r@) == find_text(scripts.index.functions@, name@),
{
    let mut r: Vec<String> = Vec::new();
    match scripts.find_function(name) {
        Some(f) => push_text(&mut r, def_line_of(f)),
        None => push_text(&mut r, joined("function not found: ", name)),
    }
    assert(texts(r@) =~= find_text(scripts.index.functions@, name@));
    r
}

fn parse_answer(scripts: &ScriptCatalog, name: &str) -> (r: ConsoleAction)
    ensures
        r@ == parse_action(*scripts, name@),
{
    match scripts.function_lines(name) {
        None => {
            let mut r: Vec<String> = Vec::new();
            push_text(&mut r, joined("function not found: ", name));
            assert(texts(r@) =~= seq![not_found(name@)]);
            ConsoleAction::Print(r)
        },
        Some(lines) => {
            let ghost ls = located_view(lines@);
            let count = shown_of(lines.len());
            let mut out: Vec<ParsedLine> = Vec::new();
            let mut i: usize = 0;
            while i < count
                invariant
                    0 <= i <= count,
                    count == shown(lines@.len()),
                    ls == located_view(lines@),
                    parsed_view(out@) == ls.take(i as int).map_values(
                        |e: (Seq<char>, ScriptLine)| (e.0, e.1.line_no, instr_of(e.1.text@)),
                    ),
                decreases count - i,
            {
                let located = lines[i];
                let p = ParsedLine {
                    file: crate::text::copy_string(located.file),
                    line_no: located.line.line_no,
                    instruction: parse_line(located.line.text.as_str()),
                };
                let ghost before = parsed_view(out@);
                out.push(p);
                assert(parsed_view(out@) =~= before.push(
                    (ls[i as int].0, ls[i as int].1.line_no, instr_of(ls[i as int].1.text@)),
                ));
                assert(ls.take(i + 1).map_values(
                    |e: (Seq<char>, ScriptLine)| (e.0, e.1.line_no, instr_of(e.1.text@)),
                ) =~= ls.take(i as int).map_values(
                    |e: (Seq<char>, ScriptLine)| (e.0, e.1.line_no, instr_of(e.1.text@)),
                ).push((ls[i as int].0, ls[i as int].1.line_no, instr_of(ls[i as int].1.text@))));
                i += 1;
            }
            ConsoleAction::Parsed(out)
        },
    }
}

/// The inputs of a run, typed.
pub open spec fn input_vals(inputs: Seq<Seq<char>>) -> Seq<Val> {
    inputs.map_values(|s: Seq<char>| input_val(s))
}

fn run_lines(game: &Game, name: &str, limit: usize, inputs: &Vec<String>) -> (r: Vec<String>)
    ensures
        texts(r@) == run_on_fresh(*game, name@, limit as int, input_vals(texts(inputs@))),
{
    let ghost queued = input_vals(texts(inputs@));
    let mut vm = Vm::new(&game.scripts, &game.csv);
    let mut i: usize = 0;
    while i < inputs.len()
        invariant
            0 <= i <= inputs.len(),
            queued == input_vals(texts(inputs@)),
            *vm.scripts() == game.scripts,
            vm.tables() == game.csv.name_tables@,
            vm.state() == fresh_state(queued.take(i as int)),
        decreases inputs.len() - i,
    {
        vm.push_input(inputs[i].as_str());
        assert(queued.take(i + 1) =~= queued.take(i as int).push(input_val(inputs@[i as int]@)));
        assert(vm.state() =~= fresh_state(queued.take(i + 1)));
        i += 1;
    }
    assert(queued.take(inputs.len() as int) =~= queued);
    let report = vm.run_function(name, limit);
    let mut out = report.output;
    let mut last = String::new();
    push_str(&mut last, "vm stopped after ");
    push_str(&mut last, usize_to_string(report.steps).as_str());
    push_str(&mut last, " steps: ");
    push_str(&mut last, stop_reason_text(&report.stop_reason).as_str());
    push_text(&mut out, last);
    out
}

fn name_line(game: &Game, table: &str, name: &str) -> (r: String)
    ensures
        r@ == name_text(game.csv.name_tables@, table@, name@),
{
    let csv = &game.csv;
    match csv.resolve_name(table, name) {
        None => {
            let mut out = joined("name not found: ", table);
            push_str(&mut out, ":");
            push_str(&mut out, name);
            out
        },
        Some(id) => {
            let canonical = match csv.name_for_id(table, id) {
                Some(n) => n,
                None => name,
            };
            let key = upper_string(table);
            let mut out = joined(table, ":");
            push_str(&mut out, canonical);
            push_str(&mut out, " = ");
            push_str(&mut out, int_to_string(id).as_str());
            push_str(&mut out, " (");
            match csv.name_tables.get(&key) {
                Some(t) => push_str(&mut out, t.source_file.as_str()),
                None => push_str(&mut out, "<unknown>"),
            }
            push_str(&mut out, ")");
            out
        },
    }
}

fn print_one(line: String) -> (r: ConsoleAction)
    ensures
        r@ == print1(line@),
{
    let mut lines: Vec<String> = Vec::new();
    push_text(&mut lines, line);
    assert(texts(lines@) =~= seq![line@]);
    ConsoleAction::Print(lines)
}

/// One turn of the console: reads `line` as a command, does it against the
/// opened game and the console's variables, and says what to show.
pub fn console_step(game: &Game, variables: &mut VarStore, line: &str) -> (r: ConsoleAction)
    requires
        physical_lines(game.scripts.files@) <= usize::MAX,
    ensures
        r@ == console_step_spec(*game, old(variables)@, line@).0,
        final(variables)@ == console_step_spec(*game, old(variables)@, line@).1,
{
    let resolver = VarResolver::new(&game.csv);
    match parse_console_command(line) {
        ConsoleCommand::Quit => ConsoleAction::Quit,
        ConsoleCommand::Help => ConsoleAction::Print(help_lines()),
        ConsoleCommand::Clear => ConsoleAction::Clear,
        ConsoleCommand::Paths => ConsoleAction::Print(paths_lines(&game.paths)),
        ConsoleCommand::Scan => ConsoleAction::Print(scan_lines(game)),
        ConsoleCommand::Functions => ConsoleAction::Print(
            functions_lines(&game.scripts.index.functions),
        ),
        ConsoleCommand::Find(name) => ConsoleAction::Print(
            find_lines(&game.scripts, name.as_str()),
        ),
        ConsoleCommand::Parse(name) => parse_answer(&game.scripts, name.as_str()),
        ConsoleCommand::Run { name, limit } => {
            let none: Vec<String> = Vec::new();
            assert(input_vals(texts(none@)) =~= Seq::<Val>::empty());
            ConsoleAction::Print(run_lines(game, name.as_str(), limit, &none))
        },
        ConsoleCommand::RunUsage => print_one("usage: :run FUNCTION [STEP_LIMIT]".to_owned()),
        ConsoleCommand::RunWith { name, inputs } => {
            assert(texts(inputs@) =~= inputs@.map_values(|w: String| w@));
            assert(input_vals(texts(inputs@)) =~= inputs@.map_values(|w: String| w@).map_values(
                |s| input_val(s),
            ));
            ConsoleAction::Print(run_lines(game, name.as_str(), 2000, &inputs))
        },
        ConsoleCommand::RunWithUsage => print_one(
            "usage: :run-with FUNCTION INPUT...".to_owned(),
        ),
        ConsoleCommand::Name { table, name } => print_one(
            name_line(game, table.as_str(), name.as_str()),
        ),
        ConsoleCommand::NameUsage => print_one("usage: :name TABLE NAME".to_owned()),
        ConsoleCommand::VarSet { address, value } => match resolver.parse_address(
            address.as_str(),
        ) {
            None => print_one(joined("invalid variable address: ", address.as_str())),
            Some(a) => {
                let v = value_of_text(value.as_str());
                variables.set(a.duplicate(), v.duplicate());
                let count = variables.len();
                ConsoleAction::VarStored { address: a, value: v, count }
            },
        },
        ConsoleCommand::VarShow(text) => match resolver.parse_address(text.as_str()) {
            Some(a) => {
                let value = variables.get(&a);
                ConsoleAction::VarShown { address: a, value }
            },
            None => print_one("usage: :var ADDRESS[=VALUE]".to_owned()),
        },
        ConsoleCommand::Eval(text) => {
            let result = match parse(text.as_str()) {
                Ok(e) => eval(&e, &resolver, variables),
                Err(err) => Err(err),
            };
            ConsoleAction::Evaluated(result)
        },
        ConsoleCommand::Empty => {
            let none: Vec<String> = Vec::new();
            assert(texts(none@) =~= Seq::<Seq<char>>::empty());
            ConsoleAction::Print(none)
        },
        ConsoleCommand::Unknown(input) => {
            let mut text = String::new();
            push_str(&mut text, "Rust script execution is not wired yet; received input ");
            push_str(&mut text, debug_string(input.as_str()).as_str());
            push_str(&mut text, ".");
            print_one(text)
        },
    }
}

/// Only `:var ADDRESS=VALUE` changes the console's variables.
pub proof fn law_console_keeps_variables(
    game: Game,
    vars: Map<(Seq<char>, Seq<i64>), Val>,
    line: Seq<char>,
)
    requires
        !(console_command(line) is VarSet),
    ensures
        console_step_spec(game, vars, line).1 == vars,
{
}

/// After `:var ADDRESS=VALUE` sets an address, `:var` on a text naming the
/// same address shows the value set, typed.
pub proof fn law_console_shows_what_was_set(
    game: Game,
    vars: Map<(Seq<char>, Seq<i64>), Val>,
    set_line: Seq<char>,
    show_line: Seq<char>,
)
    requires
        console_command(set_line) is VarSet,
        console_command(show_line) is VarShow,
        address_of(game.csv.name_tables@, console_command(set_line)->address) is Some,
        address_of(game.csv.name_tables@, console_command(show_line)->VarShow_0) == address_of(
            game.csv.name_tables@,
            console_command(set_line)->address,
        ),
    ensures
        console_step_spec(game, console_step_spec(game, vars, set_line).1, show_line).0
            == (Action::VarShown {
            address: address_of(game.csv.name_tables@, console_command(set_line)->address)->0,
            value: input_val(console_command(set_line)->value),
        }),
{
}

} // verus!
