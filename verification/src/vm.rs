//! The virtual machine that runs one ERB function: expression shortcuts,
//! address resolution, form rendering and the line interpreter.
use std::collections::VecDeque;

use vstd::prelude::*;

use crate::assoc::AssocMap;
use crate::csv::{lookup_id, lookup_name, CsvCatalog, NameTableView};
use crate::expr::{
    as_bool, as_int, display, eval, eval_spec, parse, parse_spec, value_result, wrap_add, wrap_sub,
    ExprErr, ExprError,
};
use crate::instruction::{instr_of, parse_line, Instr, Instruction};
use crate::runtime::{address_of, store_get, Val, Value, VarAddress, VarResolver, VarStore};
use crate::script::{function_lines_spec, located_view, LocatedScriptLine, ScriptCatalog, ScriptLine};
use crate::text::{
    chars_of, copy_string, debug_quoted, debug_string, decimal, find_char, find_in,
    lemma_find_char, lemma_split_lengths, lemma_trim_len, parse_i64, parse_i64_str, push_range,
    push_str, range_eq, split, split_ranges, string_of, sub_vec, texts, trim, trim_bounds, upper,
    upper_vec, usize_to_string,
};

verus! {

// ---------------------------------------------------------------------------
// Values read from expressions
// ---------------------------------------------------------------------------

/// The text between the percent signs of `%ADDRESS%`, once the expression is
/// trimmed.
pub open spec fn percent_inner(text: Seq<char>) -> Option<Seq<char>> {
    let t = trim(text);
    if t.len() >= 2 && t[0] == '%' && t.last() == '%' {
        Some(t.subrange(1, t.len() - 1))
    } else {
        None
    }
}

/// The value of an expression in a script line: `%ADDRESS%` reads the
/// variable directly; anything else is parsed and evaluated.
pub open spec fn eval_value_spec(
    tables: Map<Seq<char>, NameTableView>,
    store: Map<(Seq<char>, Seq<i64>), Val>,
    text: Seq<char>,
) -> Result<Val, ExprErr>
    decreases text.len(), 2int, 0int,
{
    let shortcut = match percent_inner(text) {
        None => None,
        Some(inner) => {
            proof {
                lemma_trim_len(text);
                lemma_trim_len(inner);
            }
            resolve_spec(tables, store, trim(inner))
        },
    };
    match shortcut {
        Some(a) => Ok(store_get(store, a)),
        None => match parse_spec(text) {
            Err(e) => Err(e),
            Ok(x) => eval_spec(x, tables, store),
        },
    }
}

/// The address written in a script line: `NAME:INDEX:...` as the resolver
/// reads it, or else each index part is a name of the variable's CSV table
/// or an expression.
pub open spec fn resolve_spec(
    tables: Map<Seq<char>, NameTableView>,
    store: Map<(Seq<char>, Seq<i64>), Val>,
    text: Seq<char>,
) -> Option<(Seq<char>, Seq<i64>)>
    decreases text.len(), 3int, 0int,
{
    match address_of(tables, text) {
        Some(a) => Some(a),
        None => {
            let name = upper(trim(split(text, ':')[0]));
            if name.len() == 0 {
                None
            } else {
                match fallback_indexes(tables, store, text, name, 1) {
                    None => None,
                    Some(ix) => Some((name, ix)),
                }
            }
        },
    }
}

/// The indexes of the parts of `text` from part `k` on.
pub open spec fn fallback_indexes(
    tables: Map<Seq<char>, NameTableView>,
    store: Map<(Seq<char>, Seq<i64>), Val>,
    text: Seq<char>,
    name: Seq<char>,
    k: int,
) -> Option<Seq<i64>>
    decreases text.len(), 1int, split(text, ':').len() - k,
{
    let parts = split(text, ':');
    if k < 1 || k >= parts.len() {
        Some(seq![])
    } else {
        let part = trim(parts[k]);
        proof {
            lemma_split_lengths(text, ':');
            lemma_trim_len(parts[k]);
        }
        let index = if part.len() == 0 {
            None
        } else {
            match lookup_id(tables, name, part) {
                Some(v) => Some(v),
                None => match eval_value_spec(tables, store, part) {
                    Ok(v) => Some(as_int(v)),
                    Err(_) => None,
                },
            }
        };
        match index {
            None => None,
            Some(v) => match fallback_indexes(tables, store, text, name, k + 1) {
                None => None,
                Some(rest) => Some(seq![v] + rest),
            },
        }
    }
}

/// The truth value of a condition.
pub open spec fn eval_bool_spec(
    tables: Map<Seq<char>, NameTableView>,
    store: Map<(Seq<char>, Seq<i64>), Val>,
    text: Seq<char>,
) -> Result<bool, ExprErr> {
    match parse_spec(text) {
        Err(e) => Err(e),
        Ok(x) => match eval_spec(x, tables, store) {
            Err(e) => Err(e),
            Ok(v) => Ok(as_bool(v)),
        },
    }
}

/// The number an expression gives.
pub open spec fn eval_int_spec(
    tables: Map<Seq<char>, NameTableView>,
    store: Map<(Seq<char>, Seq<i64>), Val>,
    text: Seq<char>,
) -> Result<i64, ExprErr> {
    match eval_value_spec(tables, store, text) {
        Err(e) => Err(e),
        Ok(v) => Ok(as_int(v)),
    }
}

// ---------------------------------------------------------------------------
// Form text
// ---------------------------------------------------------------------------

/// `TABLENAME:INDEX`: the name with number `INDEX` in the CSV table `TABLE`.
pub open spec fn name_lookup_spec(
    tables: Map<Seq<char>, NameTableView>,
    store: Map<(Seq<char>, Seq<i64>), Val>,
    e: Seq<char>,
) -> Option<Seq<char>> {
    match find_char(e, ':') {
        None => None,
        Some(i) => {
            let u = upper(trim(e.take(i)));
            if u.len() >= 4 && u.skip(u.len() - 4) == "NAME"@ {
                match eval_int_spec(tables, store, trim(e.skip(i + 1))) {
                    Err(_) => None,
                    Ok(index) => lookup_name(tables, u.take(u.len() - 4), index),
                }
            } else {
                None
            }
        },
    }
}

/// The text of one `%...%` or `{...}` piece: up to the first comma, a name
/// lookup or the value of the expression, and nothing when it fails.
pub open spec fn form_piece_spec(
    tables: Map<Seq<char>, NameTableView>,
    store: Map<(Seq<char>, Seq<i64>), Val>,
    e: Seq<char>,
) -> Seq<char> {
    let first = trim(split(trim(e), ',')[0]);
    match name_lookup_spec(tables, store, first) {
        Some(name) => name,
        None => match eval_value_spec(tables, store, first) {
            Ok(v) => display(v),
            Err(_) => seq![],
        },
    }
}

/// Replaces every piece between `open` and `close` by its text; an `open`
/// without a `close` after it is kept with the rest of the text.
pub open spec fn replace_spec(
    tables: Map<Seq<char>, NameTableView>,
    store: Map<(Seq<char>, Seq<i64>), Val>,
    text: Seq<char>,
    open: char,
    close: char,
) -> Seq<char>
    decreases text.len(),
{
    match find_char(text, open) {
        None => text,
        Some(s) => {
            proof {
                lemma_find_char(text, open);
            }
            let after = text.skip(s + 1);
            match find_char(after, close) {
                None => text.take(s) + seq![open] + after,
                Some(e) => {
                    proof {
                        lemma_find_char(after, close);
                    }
                    text.take(s) + form_piece_spec(tables, store, after.take(e)) + replace_spec(
                        tables,
                        store,
                        after.skip(e + 1),
                        open,
                        close,
                    )
                },
            }
        },
    }
}

/// The text of a `PRINTFORM` line: `%...%` pieces first, then `{...}`.
pub open spec fn render_form_spec(
    tables: Map<Seq<char>, NameTableView>,
    store: Map<(Seq<char>, Seq<i64>), Val>,
    text: Seq<char>,
) -> Seq<char> {
    replace_spec(tables, store, replace_spec(tables, store, text, '%', '%'), '{', '}')
}

// ---------------------------------------------------------------------------
// Running lines
// ---------------------------------------------------------------------------

/// Why a run stopped.
#[derive(Debug, Clone, PartialEq, Eq)]
pub enum StopReason {
    EndOfFunction,
    NeedInput,
    Unsupported { file: String, line_no: usize, text: String },
    FunctionNotFound(String),
    StepLimit,
    Error(String),
}

/// The model of a stop reason.
pub enum Stop {
    EndOfFunction,
    NeedInput,
    Unsupported { file: Seq<char>, line_no: usize, text: Seq<char> },
    FunctionNotFound(Seq<char>),
    StepLimit,
    Error(Seq<char>),
}

impl View for StopReason {
    type V = Stop;

    open spec fn view(&self) -> Stop {
        match self {
            StopReason::EndOfFunction => Stop::EndOfFunction,
            StopReason::NeedInput => Stop::NeedInput,
            StopReason::Unsupported { file, line_no, text } => Stop::Unsupported {
                file: file@,
                line_no: *line_no,
                text: text@,
            },
            StopReason::FunctionNotFound(name) => Stop::FunctionNotFound(name@),
            StopReason::StepLimit => Stop::StepLimit,
            StopReason::Error(message) => Stop::Error(message@),
        }
    }
}

/// What a run reports: why it stopped, how many lines it ran (those of the
/// functions it called included) and the output so far.
#[derive(Debug, Clone, PartialEq, Eq)]
pub struct VmReport {
    pub stop_reason: StopReason,
    pub steps: usize,
    pub output: Vec<String>,
}

/// The position of a run in a function body: the next line, the lines run,
/// the open `IF` blocks as (enclosing block active, this branch active,
/// a branch taken), the open `FOR` loops as (variable, end, first line of
/// the body), and whether a `SIF` skips the next line.
#[verifier::ext_equal]
pub struct Cursor {
    pub pc: int,
    pub steps: nat,
    pub ifs: Seq<(bool, bool, bool)>,
    pub fors: Seq<(Seq<char>, i64, int)>,
    pub skip: bool,
}

/// The result of one line: go on from a position, or stop.
pub enum Flow {
    Go(Cursor, VmState),
    Halt(VmState, Stop),
}

/// Every open `IF` block is in its active branch.
pub open spec fn all_active(ifs: Seq<(bool, bool, bool)>) -> bool {
    forall|i: int| 0 <= i < ifs.len() ==> (#[trigger] ifs[i]).1
}

/// Lines a `SIF` does not skip.
pub open spec fn skip_exempt(i: Instr) -> bool {
    match i {
        Instr::Empty | Instr::Comment | Instr::Label(_) | Instr::If(_) | Instr::ElseIf(_)
        | Instr::Else | Instr::EndIf => true,
        _ => false,
    }
}

pub open spec fn advance(c: Cursor) -> Cursor {
    Cursor { pc: c.pc + 1, ..c }
}

/// Output after printing `text`: a new line, or the text appended to the
/// last line when the print has no newline and there is a line.
pub open spec fn push_output_spec(out: Seq<Seq<char>>, text: Seq<char>, newline: bool) -> Seq<
    Seq<char>,
> {
    if newline || out.len() == 0 {
        out.push(text)
    } else {
        out.update(out.len() - 1, out.last() + text)
    }
}

pub open spec fn print(vm: VmState, text: Seq<char>, newline: bool) -> VmState {
    VmState { output: push_output_spec(vm.output, text, newline), ..vm }
}

pub open spec fn assign(vm: VmState, a: (Seq<char>, Seq<i64>), v: Val) -> VmState {
    VmState { variables: vm.variables.insert(a, v), ..vm }
}

/// `MESSAGE at FILE:LINE`.
pub open spec fn error_text(message: Seq<char>, file: Seq<char>, line_no: usize) -> Seq<char> {
    message + " at "@ + file + ":"@ + decimal(line_no as nat)
}

/// The debug text of an expression error.
pub open spec fn expr_error_text(e: ExprErr) -> Seq<char> {
    match e {
        ExprErr::UnexpectedEnd => "UnexpectedEnd"@,
        ExprErr::UnexpectedToken(s) => "UnexpectedToken("@ + debug_quoted(s) + ")"@,
        ExprErr::InvalidNumber(s) => "InvalidNumber("@ + debug_quoted(s) + ")"@,
        ExprErr::InvalidVariable(s) => "InvalidVariable("@ + debug_quoted(s) + ")"@,
        ExprErr::DivisionByZero => "DivisionByZero"@,
    }
}

pub open spec fn fail(vm: VmState, message: Seq<char>, file: Seq<char>, line_no: usize) -> Flow {
    Flow::Halt(vm, Stop::Error(error_text(message, file, line_no)))
}

/// A condition that fails to evaluate counts as false.
pub open spec fn holds(tables: Map<Seq<char>, NameTableView>, vm: VmState, cond: Seq<char>) -> bool {
    eval_bool_spec(tables, vm.variables, cond) == Ok::<bool, ExprErr>(true)
}

/// `IF`, `ELSEIF`, `ELSE`, `ENDIF` and `SIF`.
pub open spec fn control_step(
    tables: Map<Seq<char>, NameTableView>,
    c: Cursor,
    vm: VmState,
    file: Seq<char>,
    line_no: usize,
    instr: Instr,
) -> Flow {
    let active = all_active(c.ifs);
    match instr {
        Instr::If(cond) => {
            let taken = active && holds(tables, vm, cond);
            Flow::Go(advance(Cursor { ifs: c.ifs.push((active, taken, taken)), ..c }), vm)
        },
        Instr::ElseIf(cond) => if c.ifs.len() == 0 {
            fail(vm, "ELSEIF without IF"@, file, line_no)
        } else {
            let f = c.ifs.last();
            let g = if !f.0 || f.2 {
                (f.0, false, f.2)
            } else {
                let a = holds(tables, vm, cond);
                (f.0, a, a)
            };
            Flow::Go(advance(Cursor { ifs: c.ifs.update(c.ifs.len() - 1, g), ..c }), vm)
        },
        Instr::Else => if c.ifs.len() == 0 {
            fail(vm, "ELSE without IF"@, file, line_no)
        } else {
            let f = c.ifs.last();
            Flow::Go(
                advance(Cursor { ifs: c.ifs.update(c.ifs.len() - 1, (f.0, f.0 && !f.2, true)), ..c }),
                vm,
            )
        },
        Instr::EndIf => if c.ifs.len() == 0 {
            fail(vm, "ENDIF without IF"@, file, line_no)
        } else {
            Flow::Go(advance(Cursor { ifs: c.ifs.drop_last(), ..c }), vm)
        },
        Instr::SIf(cond) => Flow::Go(
            advance(Cursor { skip: active && !holds(tables, vm, cond), ..c }),
            vm,
        ),
        _ => Flow::Go(advance(c), vm),
    }
}

/// Eighty dashes.
pub open spec fn dashes() -> Seq<char> {
    Seq::new(80, |i: int| '-')
}

/// `PRINT`, `PRINTFORM`, `PRINTS`, `BAR` and `DRAWLINE`.
pub open spec fn output_step(
    tables: Map<Seq<char>, NameTableView>,
    c: Cursor,
    vm: VmState,
    file: Seq<char>,
    line_no: usize,
    instr: Instr,
) -> Flow {
    match instr {
        Instr::Print { text, newline } => Flow::Go(advance(c), print(vm, text, newline)),
        Instr::PrintForm { text, newline } => Flow::Go(
            advance(c),
            print(vm, render_form_spec(tables, vm.variables, text), newline),
        ),
        Instr::PrintExpr { expr, newline } => match eval_value_spec(tables, vm.variables, expr) {
            Err(e) => fail(vm, expr_error_text(e), file, line_no),
            Ok(v) => Flow::Go(advance(c), print(vm, display(v), newline)),
        },
        Instr::Bar(_) => Flow::Go(advance(c), print(vm, "[----------------]"@, false)),
        Instr::DrawLine => Flow::Go(advance(c), print(vm, dashes(), true)),
        _ => Flow::Go(advance(c), vm),
    }
}

/// `TARGET = EXPR`, `TARGET++` and `TARGET--` (numbers wrap around).
pub open spec fn variable_step(
    tables: Map<Seq<char>, NameTableView>,
    c: Cursor,
    vm: VmState,
    file: Seq<char>,
    line_no: usize,
    instr: Instr,
) -> Flow {
    match instr {
        Instr::Assign { target, expr } => match resolve_spec(tables, vm.variables, target) {
            None => fail(vm, "invalid assignment target"@, file, line_no),
            Some(a) => match eval_value_spec(tables, vm.variables, expr) {
                Err(e) => fail(vm, expr_error_text(e), file, line_no),
                Ok(v) => Flow::Go(advance(c), assign(vm, a, v)),
            },
        },
        Instr::Inc(target) => match resolve_spec(tables, vm.variables, target) {
            None => fail(vm, "invalid mutation target"@, file, line_no),
            Some(a) => Flow::Go(
                advance(c),
                assign(vm, a, Val::Int(wrap_add(as_int(store_get(vm.variables, a)), 1))),
            ),
        },
        Instr::Dec(target) => match resolve_spec(tables, vm.variables, target) {
            None => fail(vm, "invalid mutation target"@, file, line_no),
            Some(a) => Flow::Go(
                advance(c),
                assign(vm, a, Val::Int(wrap_sub(as_int(store_get(vm.variables, a)), 1))),
            ),
        },
        _ => Flow::Go(advance(c), vm),
    }
}

/// `FOR`, `NEXT` and `GOTO`.
pub open spec fn jump_step(
    tables: Map<Seq<char>, NameTableView>,
    labels: Map<Seq<char>, usize>,
    c: Cursor,
    vm: VmState,
    file: Seq<char>,
    line_no: usize,
    instr: Instr,
) -> Flow {
    match instr {
        Instr::For { variable, start, end } => match eval_int_spec(tables, vm.variables, start) {
            Err(e) => fail(vm, expr_error_text(e), file, line_no),
            Ok(first) => match eval_int_spec(tables, vm.variables, end) {
                Err(e) => fail(vm, expr_error_text(e), file, line_no),
                Ok(last) => match resolve_spec(tables, vm.variables, variable) {
                    None => fail(vm, "invalid FOR variable"@, file, line_no),
                    Some(a) => Flow::Go(
                        advance(Cursor { fors: c.fors.push((variable, last, c.pc + 1)), ..c }),
                        assign(vm, a, Val::Int(first)),
                    ),
                },
            },
        },
        Instr::Next => if c.fors.len() == 0 {
            fail(vm, "NEXT without FOR"@, file, line_no)
        } else {
            let f = c.fors.last();
            match resolve_spec(tables, vm.variables, f.0) {
                None => fail(vm, "invalid FOR variable"@, file, line_no),
                Some(a) => {
                    let next = wrap_add(as_int(store_get(vm.variables, a)), 1);
                    if next < f.1 {
                        Flow::Go(Cursor { pc: f.2, ..c }, assign(vm, a, Val::Int(next)))
                    } else {
                        Flow::Go(advance(Cursor { fors: c.fors.drop_last(), ..c }), vm)
                    }
                },
            }
        },
        Instr::Goto(label) => if labels.contains_key(label) {
            Flow::Go(Cursor { pc: labels[label] as int, ..c }, vm)
        } else {
            fail(vm, "label not found: "@ + label, file, line_no)
        },
        _ => Flow::Go(advance(c), vm),
    }
}

/// The variable `INPUT` sets.
pub open spec fn input_address(string: bool) -> (Seq<char>, Seq<i64>) {
    if string {
        ("RESULTS"@, seq![])
    } else {
        ("RESULT"@, seq![])
    }
}

/// One line with its instruction, in an active branch (`CALL` aside).
pub open spec fn action_step(
    tables: Map<Seq<char>, NameTableView>,
    labels: Map<Seq<char>, usize>,
    c: Cursor,
    vm: VmState,
    file: Seq<char>,
    line_no: usize,
    instr: Instr,
) -> Flow {
    match instr {
        Instr::Print { .. } | Instr::PrintForm { .. } | Instr::PrintExpr { .. } | Instr::Bar(_)
        | Instr::DrawLine => output_step(tables, c, vm, file, line_no, instr),
        Instr::Assign { .. } | Instr::Inc(_) | Instr::Dec(_) => variable_step(
            tables,
            c,
            vm,
            file,
            line_no,
            instr,
        ),
        Instr::For { .. } | Instr::Next | Instr::Goto(_) => jump_step(
            tables,
            labels,
            c,
            vm,
            file,
            line_no,
            instr,
        ),
        Instr::Input { string } => if vm.inputs.len() == 0 {
            Flow::Halt(vm, Stop::NeedInput)
        } else {
            Flow::Go(
                advance(c),
                VmState {
                    inputs: vm.inputs.drop_first(),
                    variables: vm.variables.insert(input_address(string), vm.inputs[0]),
                    ..vm
                },
            )
        },
        Instr::Unsupported(text) => Flow::Halt(
            vm,
            Stop::Unsupported { file, line_no, text },
        ),
        _ => Flow::Go(advance(c), vm),
    }
}

/// One line of a function body, other than a `CALL` that runs.
#[verifier::opaque]
pub open spec fn step_spec(
    tables: Map<Seq<char>, NameTableView>,
    labels: Map<Seq<char>, usize>,
    c: Cursor,
    vm: VmState,
    file: Seq<char>,
    line: ScriptLine,
) -> Flow {
    let instr = instr_of(line.text@);
    let c0 = Cursor { skip: false, ..c };
    if c.skip && !skip_exempt(instr) {
        Flow::Go(advance(c0), vm)
    } else {
        match instr {
            Instr::Empty | Instr::Comment | Instr::Label(_) => Flow::Go(advance(c0), vm),
            Instr::If(_) | Instr::ElseIf(_) | Instr::Else | Instr::EndIf | Instr::SIf(_) => control_step(
                tables,
                c0,
                vm,
                file,
                line.line_no,
                instr,
            ),
            _ => if !all_active(c0.ifs) {
                Flow::Go(advance(c0), vm)
            } else {
                action_step(tables, labels, c0, vm, file, line.line_no, instr)
            },
        }
    }
}

/// Whether line `l` runs a `CALL` from position `c`.
pub open spec fn calls(c: Cursor, l: ScriptLine) -> bool {
    &&& instr_of(l.text@) is Call
    &&& !c.skip
    &&& all_active(c.ifs)
}

/// Labels of a body: each name maps to the position after its first
/// definition.
pub open spec fn label_map(lines: Seq<(Seq<char>, ScriptLine)>) -> Map<Seq<char>, usize>
    decreases lines.len(),
{
    if lines.len() == 0 {
        Map::empty()
    } else {
        let m = label_map(lines.drop_last());
        match instr_of(lines.last().1.text@) {
            Instr::Label(name) => if m.contains_key(name) {
                m
            } else {
                m.insert(name, lines.len() as usize)
            },
            _ => m,
        }
    }
}

/// The run of a function at call depth `depth`: its state, why it stopped
/// and how many lines it ran.  Beyond depth 32 the call fails.
pub open spec fn run_function_spec(
    scripts: ScriptCatalog,
    tables: Map<Seq<char>, NameTableView>,
    name: Seq<char>,
    limit: int,
    depth: int,
    vm: VmState,
) -> (VmState, Stop, nat)
    decreases 33 - depth, 1int, 0int,
{
    if depth > 32 {
        (vm, Stop::Error("call stack limit exceeded"@), 0)
    } else {
        match function_lines_spec(scripts.files@, scripts.index.functions@, name) {
            None => (vm, Stop::FunctionNotFound(name), 0),
            Some(lines) => run_lines_spec(
                scripts,
                tables,
                lines,
                label_map(lines),
                limit,
                depth,
                Cursor { pc: 0, steps: 0, ifs: seq![], fors: seq![], skip: false },
                vm,
            ),
        }
    }
}

/// The run of a function body from position `c`.  Each line counts one
/// step; at `limit` steps the run stops.  A `CALL` runs the callee with the
/// steps left and adds the steps it took.
pub open spec fn run_lines_spec(
    scripts: ScriptCatalog,
    tables: Map<Seq<char>, NameTableView>,
    lines: Seq<(Seq<char>, ScriptLine)>,
    labels: Map<Seq<char>, usize>,
    limit: int,
    depth: int,
    c: Cursor,
    vm: VmState,
) -> (VmState, Stop, nat)
    decreases 33 - depth, 0int, if c.steps < limit {
        limit - c.steps
    } else {
        0
    },
{
    if c.pc < 0 || c.pc >= lines.len() {
        (vm, Stop::EndOfFunction, c.steps)
    } else if c.steps >= limit {
        (vm, Stop::StepLimit, c.steps)
    } else {
        let c1 = Cursor { steps: c.steps + 1, ..c };
        let file = lines[c.pc].0;
        let line = lines[c.pc].1;
        if calls(c1, line) && depth <= 32 {
            let sub = run_function_spec(
                scripts,
                tables,
                instr_of(line.text@)->Call_0,
                limit - c1.steps,
                depth + 1,
                vm,
            );
            let steps = c1.steps + sub.2;
            if sub.1 != Stop::EndOfFunction {
                (sub.0, sub.1, steps)
            } else {
                run_lines_spec(
                    scripts,
                    tables,
                    lines,
                    labels,
                    limit,
                    depth,
                    Cursor { pc: c.pc + 1, steps, ..c1 },
                    sub.0,
                )
            }
        } else {
            match step_spec(tables, labels, c1, vm, file, line) {
                Flow::Halt(vm2, stop) => (vm2, stop, c1.steps),
                Flow::Go(c2, vm2) => run_lines_spec(
                    scripts,
                    tables,
                    lines,
                    labels,
                    limit,
                    depth,
                    Cursor { steps: c1.steps, ..c2 },
                    vm2,
                ),
            }
        }
    }
}

/// A single line never stops a run for its step count.
proof fn lemma_step_not_step_limit(
    tables: Map<Seq<char>, NameTableView>,
    labels: Map<Seq<char>, usize>,
    c: Cursor,
    vm: VmState,
    file: Seq<char>,
    line: ScriptLine,
)
    ensures
        step_spec(tables, labels, c, vm, file, line) matches Flow::Halt(_, stop) ==> stop
            != Stop::StepLimit,
{
    reveal(step_spec);
}

/// The steps a run takes stay within its limit, and a run stopped by the
/// limit took exactly the limit.
pub proof fn lemma_run_function_steps(
    scripts: ScriptCatalog,
    tables: Map<Seq<char>, NameTableView>,
    name: Seq<char>,
    limit: int,
    depth: int,
    vm: VmState,
)
    requires
        limit >= 0,
    ensures
        run_function_spec(scripts, tables, name, limit, depth, vm).2 <= limit,
        run_function_spec(scripts, tables, name, limit, depth, vm).1 == Stop::StepLimit
            ==> run_function_spec(scripts, tables, name, limit, depth, vm).2 == limit,
    decreases 33 - depth, 1int, 0int,
{
    if depth <= 32 {
        match function_lines_spec(scripts.files@, scripts.index.functions@, name) {
            None => {},
            Some(lines) => lemma_run_lines_steps(
                scripts,
                tables,
                lines,
                label_map(lines),
                limit,
                depth,
                Cursor { pc: 0, steps: 0, ifs: seq![], fors: seq![], skip: false },
                vm,
            ),
        }
    }
}

/// `lemma_run_function_steps` for a body run from position `c`.
pub proof fn lemma_run_lines_steps(
    scripts: ScriptCatalog,
    tables: Map<Seq<char>, NameTableView>,
    lines: Seq<(Seq<char>, ScriptLine)>,
    labels: Map<Seq<char>, usize>,
    limit: int,
    depth: int,
    c: Cursor,
    vm: VmState,
)
    requires
        c.steps <= limit,
    ensures
        run_lines_spec(scripts, tables, lines, labels, limit, depth, c, vm).2 <= limit,
        run_lines_spec(scripts, tables, lines, labels, limit, depth, c, vm).1 == Stop::StepLimit
            ==> run_lines_spec(scripts, tables, lines, labels, limit, depth, c, vm).2 == limit,
    decreases 33 - depth, 0int, if c.steps < limit {
        limit - c.steps
    } else {
        0
    },
{
    if 0 <= c.pc < lines.len() && c.steps < limit {
        let c1 = Cursor { steps: c.steps + 1, ..c };
        let file = lines[c.pc].0;
        let line = lines[c.pc].1;
        if calls(c1, line) && depth <= 32 {
            let name = instr_of(line.text@)->Call_0;
            let sub = run_function_spec(scripts, tables, name, limit - c1.steps, depth + 1, vm);
            lemma_run_function_steps(scripts, tables, name, limit - c1.steps, depth + 1, vm);
            if sub.1 == Stop::EndOfFunction {
                let next = Cursor { pc: c.pc + 1, steps: c1.steps + sub.2, ..c1 };
                lemma_run_lines_steps(scripts, tables, lines, labels, limit, depth, next, sub.0);
            }
        } else {
            lemma_step_not_step_limit(tables, labels, c1, vm, file, line);
            match step_spec(tables, labels, c1, vm, file, line) {
                Flow::Halt(_, _) => {},
                Flow::Go(c2, vm2) => {
                    lemma_run_lines_steps(
                        scripts,
                        tables,
                        lines,
                        labels,
                        limit,
                        depth,
                        Cursor { steps: c1.steps, ..c2 },
                        vm2,
                    );
                },
            }
        }
    }
}

/// `r` reports the run `res`, and `vm` is the state it left.
pub open spec fn report_matches(res: (VmState, Stop, nat), r: VmReport, vm: VmState) -> bool {
    &&& vm == res.0
    &&& r.stop_reason@ == res.1
    &&& r.steps == res.2
    &&& texts(r.output@) == vm.output
}

// ---------------------------------------------------------------------------
// Position in a body
// ---------------------------------------------------------------------------

#[derive(Debug, Clone, Copy)]
struct IfFrame {
    parent_active: bool,
    active: bool,
    branch_taken: bool,
}

#[derive(Debug)]
struct ForFrame {
    variable: String,
    end: i64,
    body_pc: usize,
}

#[derive(Debug)]
struct LineState {
    pc: usize,
    steps: usize,
    if_stack: Vec<IfFrame>,
    for_stack: Vec<ForFrame>,
    skip_next: bool,
}

spec fn if_view(f: IfFrame) -> (bool, bool, bool) {
    (f.parent_active, f.active, f.branch_taken)
}

spec fn for_view(f: ForFrame) -> (Seq<char>, i64, int) {
    (f.variable@, f.end, f.body_pc as int)
}

spec fn ifs_view(v: Seq<IfFrame>) -> Seq<(bool, bool, bool)> {
    v.map_values(|f: IfFrame| if_view(f))
}

spec fn fors_view(v: Seq<ForFrame>) -> Seq<(Seq<char>, i64, int)> {
    v.map_values(|f: ForFrame| for_view(f))
}

spec fn cursor_of(s: LineState) -> Cursor {
    Cursor {
        pc: s.pc as int,
        steps: s.steps as nat,
        ifs: ifs_view(s.if_stack@),
        fors: fors_view(s.for_stack@),
        skip: s.skip_next,
    }
}

/// The outcome `r` of a line, with the position and state after it, is the
/// flow `f`.
spec fn flow_done(f: Flow, r: Option<StopReason>, c: Cursor, vm: VmState) -> bool {
    match f {
        Flow::Halt(vm2, stop) => r matches Some(x) && x@ == stop && vm == vm2,
        Flow::Go(c2, vm2) => r is None && c == c2 && vm == vm2,
    }
}

fn frames_active(frames: &Vec<IfFrame>) -> (r: bool)
    ensures
        r == all_active(ifs_view(frames@)),
{
    let mut i: usize = 0;
    while i < frames.len()
        invariant
            0 <= i <= frames.len(),
            forall|j: int| 0 <= j < i ==> (#[trigger] ifs_view(frames@)[j]).1,
        decreases frames.len() - i,
    {
        if !frames[i].active {
            assert(!ifs_view(frames@)[i as int].1);
            return false;
        }
        i += 1;
    }
    true
}

fn is_exempt(instr: &Instruction) -> (r: bool)
    ensures
        r == skip_exempt(instr@),
{
    match instr {
        Instruction::Empty | Instruction::Comment | Instruction::Label(_) | Instruction::If(_)
        | Instruction::ElseIf(_) | Instruction::Else | Instruction::EndIf => true,
        _ => false,
    }
}

fn expr_error_message(e: &ExprError) -> (r: String)
    ensures
        r@ == expr_error_text(e@),
{
    let mut out = String::new();
    match e {
        ExprError::UnexpectedEnd => push_str(&mut out, "UnexpectedEnd"),
        ExprError::UnexpectedToken(s) => {
            push_str(&mut out, "UnexpectedToken(");
            push_str(&mut out, debug_string(s.as_str()).as_str());
            push_str(&mut out, ")");
        },
        ExprError::InvalidNumber(s) => {
            push_str(&mut out, "InvalidNumber(");
            push_str(&mut out, debug_string(s.as_str()).as_str());
            push_str(&mut out, ")");
        },
        ExprError::InvalidVariable(s) => {
            push_str(&mut out, "InvalidVariable(");
            push_str(&mut out, debug_string(s.as_str()).as_str());
            push_str(&mut out, ")");
        },
        ExprError::DivisionByZero => push_str(&mut out, "DivisionByZero"),
    }
    out
}

/// `MESSAGE at FILE:LINE` for a line.
fn error_at(message: &str, located: LocatedScriptLine<'_>) -> (r: StopReason)
    ensures
        r@ == Stop::Error(error_text(message@, located.file@, located.line.line_no)),
{
    let mut text = String::new();
    push_str(&mut text, message);
    push_str(&mut text, " at ");
    push_str(&mut text, located.file.as_str());
    push_str(&mut text, ":");
    let number = usize_to_string(located.line.line_no);
    push_str(&mut text, number.as_str());
    StopReason::Error(text)
}

/// The labels of a body, each mapped to the position after its first
/// definition.
fn build_label_map(lines: &[LocatedScriptLine<'_>]) -> (r: AssocMap<String, usize>)
    ensures
        r@ == label_map(located_view(lines@)),
{
    let mut labels: AssocMap<String, usize> = AssocMap::new();
    let mut index: usize = 0;
    let ghost all = located_view(lines@);
    assert(all.take(0) =~= Seq::<(Seq<char>, ScriptLine)>::empty());
    while index < lines.len()
        invariant
            0 <= index <= lines.len(),
            all == located_view(lines@),
            labels@ == label_map(all.take(index as int)),
        decreases lines.len() - index,
    {
        let located = lines[index];
        assert(all.take(index + 1).drop_last() =~= all.take(index as int));
        assert(all.take(index + 1).last() == (located.file@, *located.line));
        if let Instruction::Label(name) = parse_line(located.line.text.as_str()) {
            labels.insert_if_absent(name, index + 1);
        }
        index += 1;
    }
    assert(all.take(lines.len() as int) =~= all);
    labels
}

fn dash_line() -> (r: String)
    ensures
        r@ == dashes(),
{
    let mut out = String::new();
    let mut i: usize = 0;
    while i < 80
        invariant
            0 <= i <= 80,
            out@ == Seq::new(i as nat, |k: int| '-'),
        decreases 80 - i,
    {
        out.push('-');
        assert(out@ =~= Seq::new((i + 1) as nat, |k: int| '-'));
        i += 1;
    }
    out
}

fn copy_lines(v: &Vec<String>) -> (r: Vec<String>)
    ensures
        texts(r@) == texts(v@),
{
    let mut out: Vec<String> = Vec::new();
    let mut i: usize = 0;
    while i < v.len()
        invariant
            0 <= i <= v.len(),
            texts(out@) == texts(v@).take(i as int),
            out@.len() == i,
        decreases v.len() - i,
    {
        let line = copy_string(&v[i]);
        let ghost before = out@;
        out.push(line);
        assert(out@ == before.push(line));
        assert(texts(out@) =~= texts(v@).take(i + 1)) by {
            assert(texts(out@)[i as int] == out@[i as int]@);
        }
        i += 1;
    }
    assert(texts(v@).take(v.len() as int) =~= texts(v@));
    out
}

// ---------------------------------------------------------------------------
// The machine
// ---------------------------------------------------------------------------

/// The state a run changes: the variables, the queued input and the output
/// lines.
#[verifier::ext_equal]
pub struct VmState {
    pub variables: Map<(Seq<char>, Seq<i64>), Val>,
    pub inputs: Seq<Val>,
    pub output: Seq<Seq<char>>,
}

pub open spec fn values_view(v: Seq<Value>) -> Seq<Val> {
    v.map_values(|x: Value| x@)
}

#[derive(Debug)]
pub struct Vm<'a> {
    scripts: &'a ScriptCatalog,
    resolver: VarResolver<'a>,
    variables: VarStore,
    inputs: VecDeque<Value>,
    output: Vec<String>,
}

impl<'a> Vm<'a> {
    /// The variables, queued input and output of the machine.
    pub closed spec fn state(&self) -> VmState {
        VmState {
            variables: self.variables@,
            inputs: values_view(self.inputs@),
            output: texts(self.output@),
        }
    }

    /// The scripts the machine runs.
    pub closed spec fn scripts(&self) -> &'a ScriptCatalog {
        self.scripts
    }

    /// The CSV name tables the machine resolves names with.
    pub closed spec fn tables(&self) -> Map<Seq<char>, NameTableView> {
        self.resolver.tables()
    }

    /// A machine with no variables set, no queued input and no output.
    pub fn new(scripts: &'a ScriptCatalog, csv: &'a CsvCatalog) -> (r: Self)
        ensures
            r.scripts() == scripts,
            r.tables() == csv.name_tables@,
            r.state().variables == Map::<(Seq<char>, Seq<i64>), Val>::empty(),
            r.state().inputs == Seq::<Val>::empty(),
            r.state().output == Seq::<Seq<char>>::empty(),
    {
        let r = Vm {
            scripts,
            resolver: VarResolver::new(csv),
            variables: VarStore::new(),
            inputs: VecDeque::new(),
            output: Vec::new(),
        };
        assert(r.state().inputs =~= Seq::<Val>::empty());
        assert(r.state().output =~= Seq::<Seq<char>>::empty());
        r
    }

    fn eval_bool(&self, expression: &str) -> (r: Result<bool, ExprError>)
        ensures
            match r {
                Ok(b) => eval_bool_spec(self.tables(), self.state().variables, expression@) == Ok::<
                    bool,
                    ExprErr,
                >(b),
                Err(e) => eval_bool_spec(self.tables(), self.state().variables, expression@)
                    == Err::<bool, ExprErr>(e@),
            },
    {
        let expr = match parse(expression) {
            Ok(x) => x,
            Err(e) => return Err(e),
        };
        match eval(&expr, &self.resolver, &self.variables) {
            Ok(v) => Ok(v.as_bool()),
            Err(e) => Err(e),
        }
    }

    fn eval_int(&self, expression: &str) -> (r: Result<i64, ExprError>)
        ensures
            match r {
                Ok(x) => eval_int_spec(self.tables(), self.state().variables, expression@) == Ok::<
                    i64,
                    ExprErr,
                >(x),
                Err(e) => eval_int_spec(self.tables(), self.state().variables, expression@)
                    == Err::<i64, ExprErr>(e@),
            },
        decreases expression@.len(), 2int, 1int,
    {
        match self.eval_value(expression) {
            Ok(v) => Ok(v.as_int()),
            Err(e) => Err(e),
        }
    }

    fn eval_value(&self, expression: &str) -> (r: Result<Value, ExprError>)
        ensures
            value_result(r) == eval_value_spec(self.tables(), self.state().variables, expression@),
        decreases expression@.len(), 2int, 0int,
    {
        let shortcut = self.percent_shortcut(expression);
        match shortcut {
            Some(value) => Ok(value),
            None => self.parse_and_eval(expression),
        }
    }

    /// The value of a parsed expression.
    fn parse_and_eval(&self, expression: &str) -> (r: Result<Value, ExprError>)
        ensures
            value_result(r) == match parse_spec(expression@) {
                Err(e) => Err(e),
                Ok(x) => eval_spec(x, self.tables(), self.state().variables),
            },
    {
        let expr = match parse(expression) {
            Ok(x) => x,
            Err(e) => return Err(e),
        };
        eval(&expr, &self.resolver, &self.variables)
    }

    /// The variable named by `%ADDRESS%`, when the expression has that form and
    /// the address resolves.
    fn percent_shortcut(&self, expression: &str) -> (r: Option<Value>)
        ensures
            r matches Some(v) ==> percent_inner(expression@) matches Some(inner) && resolve_spec(
                self.tables(),
                self.state().variables,
                trim(inner),
            ) matches Some(a) && v@ == store_get(self.state().variables, a),
            r is None ==> (percent_inner(expression@) matches Some(inner) ==> resolve_spec(
                self.tables(),
                self.state().variables,
                trim(inner),
            ) is None),
        decreases expression@.len(), 1int, 0int,
    {
        let v = chars_of(expression);
        let n = v.len();
        assert(v@.subrange(0, n as int) =~= v@);
        let (a, b) = trim_bounds(&v, 0, n);
        if b - a >= 2 && v[a] == '%' && v[b - 1] == '%' {
            let ghost t = trim(expression@);
            assert(t.subrange(1, t.len() - 1) =~= v@.subrange(a + 1, b - 1));
            let (c, d) = trim_bounds(&v, a + 1, b - 1);
            let inner = string_of(&v, c, d);
            proof {
                lemma_trim_len(expression@);
                lemma_trim_len(v@.subrange(a + 1, b - 1));
            }
            match self.resolve_address(inner.as_str()) {
                Some(address) => Some(self.variables.get(&address)),
                None => None,
            }
        } else {
            None
        }
    }

    fn scripts_csv_name(&self, variable_name: &str, part: &str) -> (r: Option<i64>)
        ensures
            r == lookup_id(self.tables(), variable_name@, part@),
    {
        self.resolver.csv().resolve_name(variable_name, part)
    }

    fn resolve_address(&self, text: &str) -> (r: Option<VarAddress>)
        ensures
            r matches Some(a) ==> resolve_spec(self.tables(), self.state().variables, text@) == Some(a@),
            r is None ==> resolve_spec(self.tables(), self.state().variables, text@) is None,
        decreases text@.len(), 3int, 0int,
    {
        if let Some(address) = self.resolver.parse_address(text) {
            return Some(address);
        }
        let v = chars_of(text);
        let n = v.len();
        assert(v@.subrange(0, n as int) =~= v@);
        let ranges = split_ranges(&v, 0, n, ':');
        let ghost parts = split(text@, ':');
        proof {
            lemma_split_lengths(text@, ':');
        }
        let (a, b) = trim_bounds(&v, ranges[0].0, ranges[0].1);
        if a == b {
            return None;
        }
        let head = sub_vec(&v, a, b);
        let upper_name = upper_vec(&head);
        let name = string_of(&upper_name, 0, upper_name.len());
        assert(upper_name@.subrange(0, upper_name.len() as int) =~= upper_name@);
        let ghost tables = self.tables();
        let ghost store = self.state().variables;
        assert(name@ == upper(trim(parts[0])));
        assert(resolve_spec(tables, store, text@) == match fallback_indexes(tables, store, text@, name@, 1) {
            None => None::<(Seq<char>, Seq<i64>)>,
            Some(ix) => Some((name@, ix)),
        });
        let mut indexes: Vec<i64> = Vec::new();
        let mut k: usize = 1;
        while k < ranges.len()
            invariant
                1 <= k <= ranges.len(),
                ranges@.len() == parts.len(),
                parts == split(text@, ':'),
                v@ == text@,
                n == v@.len(),
                tables == self.tables(),
                store == self.state().variables,
                parts.len() >= 2 ==> forall|j: int| 0 <= j < parts.len() ==> (#[trigger] parts[j]).len() < text@.len(),
                forall|j: int|
                    0 <= j < ranges@.len() ==> {
                        &&& 0 <= (#[trigger] ranges@[j]).0 <= ranges@[j].1 <= v@.len()
                        &&& v@.subrange(ranges@[j].0 as int, ranges@[j].1 as int) == parts[j]
                    },
                resolve_spec(tables, store, text@) == match fallback_indexes(tables, store, text@, name@, 1) {
                    None => None::<(Seq<char>, Seq<i64>)>,
                    Some(ix) => Some((name@, ix)),
                },
                fallback_indexes(tables, store, text@, name@, 1) == match fallback_indexes(
                    tables,
                    store,
                    text@,
                    name@,
                    k as int,
                ) {
                    None => None::<Seq<i64>>,
                    Some(rest) => Some(indexes@ + rest),
                },
            decreases ranges.len() - k,
        {
            let (lo, hi) = ranges[k];
            let (c, d) = trim_bounds(&v, lo, hi);
            let ghost part_spec = trim(parts[k as int]);
            assert(v@.subrange(c as int, d as int) == part_spec);
            if c == d {
                assert(fallback_indexes(tables, store, text@, name@, k as int) is None);
                return None;
            }
            let part = string_of(&v, c, d);
            proof {
                lemma_trim_len(parts[k as int]);
            }
            let index = match self.scripts_csv_name(name.as_str(), part.as_str()) {
                Some(x) => x,
                None => match self.eval_int(part.as_str()) {
                    Ok(x) => x,
                    Err(_) => {
                        assert(fallback_indexes(tables, store, text@, name@, k as int) is None);
                        return None;
                    },
                },
            };
            let ghost before = indexes@;
            indexes.push(index);
            proof {
                match fallback_indexes(tables, store, text@, name@, k + 1) {
                    None => {},
                    Some(tail) => {
                        assert(before + (seq![index] + tail) =~= indexes@ + tail);
                    },
                }
            }
            k += 1;
        }
        assert(indexes@ + Seq::<i64>::empty() =~= indexes@);
        Some(VarAddress { name, indexes })
    }

    fn eval_name_lookup(&self, expression: &str) -> (r: Option<String>)
        ensures
            r.deep_view() == name_lookup_spec(self.tables(), self.state().variables, expression@),
    {
        let v = chars_of(expression);
        let n = v.len();
        assert(v@.subrange(0, n as int) =~= v@);
        let i = match find_in(&v, 0, n, ':') {
            None => return None,
            Some(i) => i,
        };
        assert(v@.subrange(0, i as int) =~= expression@.take(i as int));
        assert(v@.subrange(i + 1, n as int) =~= expression@.skip(i + 1));
        let (a, b) = trim_bounds(&v, 0, i);
        let head = sub_vec(&v, a, b);
        let u = upper_vec(&head);
        let m = u.len();
        if m < 4 || !range_eq(&u, m - 4, m, "NAME") {
            proof {
                reveal_strlit("NAME");
                assert(m >= 4 ==> u@.subrange(m - 4, m as int) =~= u@.skip(m - 4));
            }
            return None;
        }
        proof {
            assert(u@.subrange(m - 4, m as int) =~= u@.skip(m - 4));
            assert(u@.subrange(0, m - 4) =~= u@.take(m - 4));
        }
        let table = string_of(&u, 0, m - 4);
        let (c, d) = trim_bounds(&v, i + 1, n);
        let index_text = string_of(&v, c, d);
        let index = match self.eval_int(index_text.as_str()) {
            Ok(x) => x,
            Err(_) => return None,
        };
        match self.resolver.csv().name_for_id(table.as_str(), index) {
            Some(name) => Some(name.to_owned()),
            None => None,
        }
    }

    fn eval_form_piece(&self, expression: &str) -> (r: String)
        ensures
            r@ == form_piece_spec(self.tables(), self.state().variables, expression@),
    {
        let v = chars_of(expression);
        let n = v.len();
        assert(v@.subrange(0, n as int) =~= v@);
        let (a, b) = trim_bounds(&v, 0, n);
        let t = sub_vec(&v, a, b);
        let tn = t.len();
        assert(t@.subrange(0, tn as int) =~= t@);
        let ranges = split_ranges(&t, 0, tn, ',');
        let (c, d) = trim_bounds(&t, ranges[0].0, ranges[0].1);
        let first = string_of(&t, c, d);
        if let Some(name) = self.eval_name_lookup(first.as_str()) {
            return name;
        }
        match self.eval_value(first.as_str()) {
            Ok(value) => value.to_display_string(),
            Err(_) => String::new(),
        }
    }

    #[verifier::spinoff_prover]
    #[verifier::rlimit(40)]
    fn replace_delimited(&self, text: &str, open: char, close: char) -> (r: String)
        ensures
            r@ == replace_spec(self.tables(), self.state().variables, text@, open, close),
    {
        let ghost tables = self.tables();
        let ghost store = self.state().variables;
        let v = chars_of(text);
        let n = v.len();
        let mut output = String::new();
        let mut pos: usize = 0;
        assert(v@.subrange(0, n as int) =~= text@);
        loop
            invariant
                0 <= pos <= n,
                n == v@.len(),
                v@ == text@,
                tables == self.tables(),
                store == self.state().variables,
                replace_spec(tables, store, text@, open, close) == output@ + replace_spec(
                    tables,
                    store,
                    v@.subrange(pos as int, n as int),
                    open,
                    close,
                ),
            decreases n - pos,
        {
            let ghost rest = v@.subrange(pos as int, n as int);
            let ghost out0 = output@;
            let start = match find_in(&v, pos, n, open) {
                None => {
                    push_range(&mut output, &v, pos, n);
                    return output;
                },
                Some(s) => s,
            };
            proof {
                lemma_find_char(rest, open);
            }
            let ghost after = rest.skip(start + 1);
            assert(after =~= v@.subrange(pos + start + 1, n as int));
            assert(rest.take(start as int) =~= v@.subrange(pos as int, pos + start));
            push_range(&mut output, &v, pos, pos + start);
            match find_in(&v, pos + start + 1, n, close) {
                None => {
                    output.push(open);
                    push_range(&mut output, &v, pos + start + 1, n);
                    assert(output@ =~= out0 + (rest.take(start as int) + seq![open] + after));
                    return output;
                },
                Some(e) => {
                    proof {
                        lemma_find_char(after, close);
                    }
                    let piece = string_of(&v, pos + start + 1, pos + start + 1 + e);
                    assert(after.take(e as int) =~= v@.subrange(pos + start + 1, pos + start + 1 + e));
                    assert(after.skip(e + 1) =~= v@.subrange(pos + start + 1 + e + 1, n as int));
                    let rendered = self.eval_form_piece(piece.as_str());
                    push_str(&mut output, rendered.as_str());
                    let ghost tail = replace_spec(tables, store, after.skip(e + 1), open, close);
                    assert(out0 + (rest.take(start as int) + rendered@ + tail) =~= output@ + tail);
                    pos = pos + start + 1 + e + 1;
                },
            }
        }
    }

    fn render_form(&self, text: &str) -> (r: String)
        ensures
            r@ == render_form_spec(self.tables(), self.state().variables, text@),
    {
        let text = self.replace_delimited(text, '%', '%');
        self.replace_delimited(text.as_str(), '{', '}')
    }

    /// Queues a line of input: a number when it reads as one, else text.
    pub fn push_input(&mut self, input: &str)
        ensures
            final(self).scripts() == old(self).scripts(),
            final(self).tables() == old(self).tables(),
            final(self).state().variables == old(self).state().variables,
            final(self).state().output == old(self).state().output,
            final(self).state().inputs == old(self).state().inputs.push(
                match parse_i64(input@) {
                    Some(x) => Val::Int(x),
                    None => Val::Str(input@),
                },
            ),
    {
        let value = match parse_i64_str(input) {
            Some(x) => Value::Int(x),
            None => Value::Str(input.to_owned()),
        };
        let ghost before = self.inputs@;
        self.inputs.push_back(value);
        assert(values_view(self.inputs@) =~= values_view(before).push(value@));
    }

    fn push_output(&mut self, text: String, newline: bool)
        ensures
            final(self).scripts() == old(self).scripts(),
            final(self).tables() == old(self).tables(),
            final(self).state() == print(old(self).state(), text@, newline),
    {
        let ghost before = self.output@;
        if newline || self.output.len() == 0 {
            self.output.push(text);
            assert(texts(self.output@) =~= texts(before).push(text@));
        } else {
            let last = self.output.len() - 1;
            let mut line = copy_string(&self.output[last]);
            push_str(&mut line, text.as_str());
            let ghost lv = line@;
            self.output.set(last, line);
            assert(texts(self.output@) =~= texts(before).update(last as int, lv));
        }
    }

    fn report(&self, stop_reason: StopReason, steps: usize) -> (r: VmReport)
        ensures
            r.stop_reason == stop_reason,
            r.steps == steps,
            texts(r.output@) == self.state().output,
    {
        VmReport { stop_reason, steps, output: copy_lines(&self.output) }
    }

    /// `IF`, `ELSEIF`, `ELSE`, `ENDIF` and `SIF`.
    fn control(&self, st: &mut LineState, located: LocatedScriptLine<'_>, instr: &Instruction) -> (r:
        Option<StopReason>)
        requires
            old(st).pc < usize::MAX,
            !old(st).skip_next,
        ensures
            flow_done(
                control_step(
                    self.tables(),
                    cursor_of(*old(st)),
                    self.state(),
                    located.file@,
                    located.line.line_no,
                    instr@,
                ),
                r,
                cursor_of(*final(st)),
                self.state(),
            ),
            final(st).steps == old(st).steps,
    {
        let active = frames_active(&st.if_stack);
        let ghost c = cursor_of(*st);
        match instr {
            Instruction::If(condition) => {
                let taken = active && match self.eval_bool(condition.as_str()) {
                    Ok(b) => b,
                    Err(_) => false,
                };
                st.if_stack.push(IfFrame { parent_active: active, active: taken, branch_taken: taken });
                st.pc = st.pc + 1;
                assert(cursor_of(*st).ifs =~= c.ifs.push((active, taken, taken)));
                None
            },
            Instruction::ElseIf(condition) => {
                if st.if_stack.len() == 0 {
                    return Some(error_at("ELSEIF without IF", located));
                }
                let last = st.if_stack.len() - 1;
                let f = st.if_stack[last];
                let g = if !f.parent_active || f.branch_taken {
                    IfFrame { parent_active: f.parent_active, active: false, branch_taken: f.branch_taken }
                } else {
                    let a = match self.eval_bool(condition.as_str()) {
                        Ok(b) => b,
                        Err(_) => false,
                    };
                    IfFrame { parent_active: f.parent_active, active: a, branch_taken: a }
                };
                st.if_stack.set(last, g);
                st.pc = st.pc + 1;
                assert(cursor_of(*st).ifs =~= c.ifs.update(last as int, if_view(g)));
                None
            },
            Instruction::Else => {
                if st.if_stack.len() == 0 {
                    return Some(error_at("ELSE without IF", located));
                }
                let last = st.if_stack.len() - 1;
                let f = st.if_stack[last];
                let g = IfFrame {
                    parent_active: f.parent_active,
                    active: f.parent_active && !f.branch_taken,
                    branch_taken: true,
                };
                st.if_stack.set(last, g);
                st.pc = st.pc + 1;
                assert(cursor_of(*st).ifs =~= c.ifs.update(last as int, if_view(g)));
                None
            },
            Instruction::EndIf => {
                if st.if_stack.len() == 0 {
                    return Some(error_at("ENDIF without IF", located));
                }
                st.if_stack.pop();
                st.pc = st.pc + 1;
                assert(cursor_of(*st).ifs =~= c.ifs.drop_last());
                None
            },
            Instruction::SIf(condition) => {
                if active && !match self.eval_bool(condition.as_str()) {
                    Ok(b) => b,
                    Err(_) => false,
                } {
                    st.skip_next = true;
                }
                st.pc = st.pc + 1;
                None
            },
            _ => {
                st.pc = st.pc + 1;
                None
            },
        }
    }

    /// `PRINT`, `PRINTFORM`, `PRINTS`, `BAR` and `DRAWLINE`.
    fn output_line(&mut self, st: &mut LineState, located: LocatedScriptLine<'_>, instr: &Instruction) -> (r:
        Option<StopReason>)
        requires
            old(st).pc < usize::MAX,
        ensures
            flow_done(
                output_step(
                    old(self).tables(),
                    cursor_of(*old(st)),
                    old(self).state(),
                    located.file@,
                    located.line.line_no,
                    instr@,
                ),
                r,
                cursor_of(*final(st)),
                final(self).state(),
            ),
            final(st).steps == old(st).steps,
            final(self).scripts() == old(self).scripts(),
            final(self).tables() == old(self).tables(),
    {
        match instr {
            Instruction::Print { text, newline } => {
                self.push_output(copy_string(text), *newline);
            },
            Instruction::PrintForm { text, newline } => {
                let rendered = self.render_form(text.as_str());
                self.push_output(rendered, *newline);
            },
            Instruction::PrintExpr { expr, newline } => {
                match self.eval_value(expr.as_str()) {
                    Ok(value) => {
                        let text = value.to_display_string();
                        self.push_output(text, *newline);
                    },
                    Err(err) => {
                        let message = expr_error_message(&err);
                        return Some(error_at(message.as_str(), located));
                    },
                }
            },
            Instruction::Bar(_) => {
                self.push_output("[----------------]".to_owned(), false);
            },
            Instruction::DrawLine => {
                self.push_output(dash_line(), true);
            },
            _ => {},
        }
        st.pc = st.pc + 1;
        None
    }

    /// `TARGET = EXPR`, `TARGET++` and `TARGET--`.
    fn variable_line(&mut self, st: &mut LineState, located: LocatedScriptLine<'_>, instr: &Instruction) -> (r:
        Option<StopReason>)
        requires
            old(st).pc < usize::MAX,
        ensures
            flow_done(
                variable_step(
                    old(self).tables(),
                    cursor_of(*old(st)),
                    old(self).state(),
                    located.file@,
                    located.line.line_no,
                    instr@,
                ),
                r,
                cursor_of(*final(st)),
                final(self).state(),
            ),
            final(st).steps == old(st).steps,
            final(self).scripts() == old(self).scripts(),
            final(self).tables() == old(self).tables(),
    {
        match instr {
            Instruction::Assign { target, expr } => {
                let address = match self.resolve_address(target.as_str()) {
                    Some(a) => a,
                    None => return Some(error_at("invalid assignment target", located)),
                };
                let value = match self.eval_value(expr.as_str()) {
                    Ok(v) => v,
                    Err(err) => {
                        let message = expr_error_message(&err);
                        return Some(error_at(message.as_str(), located));
                    },
                };
                self.variables.set(address, value);
            },
            Instruction::Inc(target) => {
                let address = match self.resolve_address(target.as_str()) {
                    Some(a) => a,
                    None => return Some(error_at("invalid mutation target", located)),
                };
                let value = self.variables.get(&address).as_int().wrapping_add(1);
                self.variables.set(address, Value::Int(value));
            },
            Instruction::Dec(target) => {
                let address = match self.resolve_address(target.as_str()) {
                    Some(a) => a,
                    None => return Some(error_at("invalid mutation target", located)),
                };
                let value = self.variables.get(&address).as_int().wrapping_sub(1);
                self.variables.set(address, Value::Int(value));
            },
            _ => {},
        }
        st.pc = st.pc + 1;
        None
    }

    /// `FOR`, `NEXT` and `GOTO`.
    fn jump_line(
        &mut self,
        st: &mut LineState,
        labels: &AssocMap<String, usize>,
        located: LocatedScriptLine<'_>,
        instr: &Instruction,
    ) -> (r: Option<StopReason>)
        requires
            old(st).pc < usize::MAX,
        ensures
            flow_done(
                jump_step(
                    old(self).tables(),
                    labels@,
                    cursor_of(*old(st)),
                    old(self).state(),
                    located.file@,
                    located.line.line_no,
                    instr@,
                ),
                r,
                cursor_of(*final(st)),
                final(self).state(),
            ),
            final(st).steps == old(st).steps,
            final(self).scripts() == old(self).scripts(),
            final(self).tables() == old(self).tables(),
    {
        let ghost c = cursor_of(*st);
        match instr {
            Instruction::For { variable, start, end } => {
                let first = match self.eval_int(start.as_str()) {
                    Ok(v) => v,
                    Err(err) => {
                        let message = expr_error_message(&err);
                        return Some(error_at(message.as_str(), located));
                    },
                };
                let last = match self.eval_int(end.as_str()) {
                    Ok(v) => v,
                    Err(err) => {
                        let message = expr_error_message(&err);
                        return Some(error_at(message.as_str(), located));
                    },
                };
                let address = match self.resolve_address(variable.as_str()) {
                    Some(a) => a,
                    None => return Some(error_at("invalid FOR variable", located)),
                };
                self.variables.set(address, Value::Int(first));
                let frame = ForFrame { variable: copy_string(variable), end: last, body_pc: st.pc + 1 };
                let ghost fv = for_view(frame);
                st.for_stack.push(frame);
                st.pc = st.pc + 1;
                assert(cursor_of(*st).fors =~= c.fors.push(fv));
                None
            },
            Instruction::Next => {
                if st.for_stack.len() == 0 {
                    return Some(error_at("NEXT without FOR", located));
                }
                let top = st.for_stack.len() - 1;
                let variable = copy_string(&st.for_stack[top].variable);
                let end = st.for_stack[top].end;
                let body_pc = st.for_stack[top].body_pc;
                assert(c.fors.last() == (variable@, end, body_pc as int));
                let address = match self.resolve_address(variable.as_str()) {
                    Some(a) => a,
                    None => return Some(error_at("invalid FOR variable", located)),
                };
                let next = self.variables.get(&address).as_int().wrapping_add(1);
                if next < end {
                    self.variables.set(address, Value::Int(next));
                    st.pc = body_pc;
                } else {
                    st.for_stack.pop();
                    st.pc = st.pc + 1;
                    assert(cursor_of(*st).fors =~= c.fors.drop_last());
                }
                None
            },
            Instruction::Goto(label) => {
                match labels.get(label) {
                    Some(target) => {
                        st.pc = *target;
                        None
                    },
                    None => {
                        let mut message = String::new();
                        push_str(&mut message, "label not found: ");
                        push_str(&mut message, label.as_str());
                        Some(error_at(message.as_str(), located))
                    },
                }
            },
            _ => {
                st.pc = st.pc + 1;
                None
            },
        }
    }

    /// One line in an active branch, `CALL` aside.
    fn action_line(
        &mut self,
        st: &mut LineState,
        labels: &AssocMap<String, usize>,
        located: LocatedScriptLine<'_>,
        instr: &Instruction,
    ) -> (r: Option<StopReason>)
        requires
            old(st).pc < usize::MAX,
        ensures
            flow_done(
                action_step(
                    old(self).tables(),
                    labels@,
                    cursor_of(*old(st)),
                    old(self).state(),
                    located.file@,
                    located.line.line_no,
                    instr@,
                ),
                r,
                cursor_of(*final(st)),
                final(self).state(),
            ),
            final(st).steps == old(st).steps,
            final(self).scripts() == old(self).scripts(),
            final(self).tables() == old(self).tables(),
    {
        match instr {
            Instruction::Print { .. } | Instruction::PrintForm { .. } | Instruction::PrintExpr { .. }
            | Instruction::Bar(_) | Instruction::DrawLine => self.output_line(st, located, instr),
            Instruction::Assign { .. } | Instruction::Inc(_) | Instruction::Dec(_) => self.variable_line(
                st,
                located,
                instr,
            ),
            Instruction::For { .. } | Instruction::Next | Instruction::Goto(_) => self.jump_line(
                st,
                labels,
                located,
                instr,
            ),
            Instruction::Input { string } => {
                let ghost before = self.state();
                match self.inputs.pop_front() {
                    Some(value) => {
                        let name = if *string {
                            "RESULTS".to_owned()
                        } else {
                            "RESULT".to_owned()
                        };
                        let address = VarAddress { name, indexes: Vec::new() };
                        assert(address@ =~= input_address(*string));
                        assert(values_view(self.inputs@) =~= before.inputs.drop_first());
                        self.variables.set(address, value);
                        st.pc = st.pc + 1;
                        None
                    },
                    None => Some(StopReason::NeedInput),
                }
            },
            Instruction::Unsupported(text) => Some(
                StopReason::Unsupported {
                    file: copy_string(located.file),
                    line_no: located.line.line_no,
                    text: copy_string(text),
                },
            ),
            _ => {
                st.pc = st.pc + 1;
                None
            },
        }
    }

    /// One line of a body, `CALL` aside.
    fn step(
        &mut self,
        st: &mut LineState,
        labels: &AssocMap<String, usize>,
        located: LocatedScriptLine<'_>,
        instr: &Instruction,
    ) -> (r: Option<StopReason>)
        requires
            old(st).pc < usize::MAX,
            instr@ == instr_of(located.line.text@),
        ensures
            flow_done(
                step_spec(
                    old(self).tables(),
                    labels@,
                    cursor_of(*old(st)),
                    old(self).state(),
                    located.file@,
                    *located.line,
                ),
                r,
                cursor_of(*final(st)),
                final(self).state(),
            ),
            final(st).steps == old(st).steps,
            final(self).scripts() == old(self).scripts(),
            final(self).tables() == old(self).tables(),
    {
        reveal(step_spec);
        let skipping = st.skip_next;
        st.skip_next = false;
        if skipping && !is_exempt(instr) {
            st.pc = st.pc + 1;
            return None;
        }
        match instr {
            Instruction::Empty | Instruction::Comment | Instruction::Label(_) => {
                st.pc = st.pc + 1;
                None
            },
            Instruction::If(_) | Instruction::ElseIf(_) | Instruction::Else | Instruction::EndIf
            | Instruction::SIf(_) => self.control(st, located, instr),
            _ => {
                if !frames_active(&st.if_stack) {
                    st.pc = st.pc + 1;
                    None
                } else {
                    self.action_line(st, labels, located, instr)
                }
            },
        }
    }

    /// Runs the function `name` for at most `step_limit` lines, those of the
    /// functions it calls included.
    pub fn run_function(&mut self, name: &str, step_limit: usize) -> (r: VmReport)
        ensures
            report_matches(
                run_function_spec(
                    *old(self).scripts(),
                    old(self).tables(),
                    name@,
                    step_limit as int,
                    0,
                    old(self).state(),
                ),
                r,
                final(self).state(),
            ),
            r.steps <= step_limit,
            r.stop_reason == StopReason::StepLimit ==> r.steps == step_limit,
            final(self).scripts() == old(self).scripts(),
            final(self).tables() == old(self).tables(),
    {
        proof {
            lemma_run_function_steps(
                *self.scripts(),
                self.tables(),
                name@,
                step_limit as int,
                0,
                self.state(),
            );
        }
        self.run_function_inner(name, step_limit, 0)
    }

    fn run_function_inner(&mut self, name: &str, step_limit: usize, depth: usize) -> (r: VmReport)
        ensures
            report_matches(
                run_function_spec(
                    *old(self).scripts(),
                    old(self).tables(),
                    name@,
                    step_limit as int,
                    depth as int,
                    old(self).state(),
                ),
                r,
                final(self).state(),
            ),
            r.steps <= step_limit,
            final(self).scripts() == old(self).scripts(),
            final(self).tables() == old(self).tables(),
        decreases 33 - depth, 1int,
    {
        if depth > 32 {
            return self.report(StopReason::Error("call stack limit exceeded".to_owned()), 0);
        }
        let scripts: &'a ScriptCatalog = self.scripts;
        match scripts.function_lines(name) {
            None => self.report(StopReason::FunctionNotFound(name.to_owned()), 0),
            Some(lines) => self.run_lines(lines, step_limit, depth),
        }
    }

    fn run_lines(&mut self, lines: Vec<LocatedScriptLine<'_>>, step_limit: usize, depth: usize) -> (r:
        VmReport)
        requires
            depth <= 32,
        ensures
            report_matches(
                run_lines_spec(
                    *old(self).scripts(),
                    old(self).tables(),
                    located_view(lines@),
                    label_map(located_view(lines@)),
                    step_limit as int,
                    depth as int,
                    Cursor { pc: 0, steps: 0, ifs: seq![], fors: seq![], skip: false },
                    old(self).state(),
                ),
                r,
                final(self).state(),
            ),
            r.steps <= step_limit,
            final(self).scripts() == old(self).scripts(),
            final(self).tables() == old(self).tables(),
        decreases 33 - depth, 0int,
    {
        let ghost sc = *self.scripts();
        let ghost tables = self.tables();
        let ghost lv = located_view(lines@);
        let labels = build_label_map(lines.as_slice());
        let mut st = LineState {
            pc: 0,
            steps: 0,
            if_stack: Vec::new(),
            for_stack: Vec::new(),
            skip_next: false,
        };
        assert(cursor_of(st) =~= Cursor { pc: 0, steps: 0, ifs: seq![], fors: seq![], skip: false });
        let ghost goal = run_lines_spec(
            sc,
            tables,
            lv,
            labels@,
            step_limit as int,
            depth as int,
            cursor_of(st),
            self.state(),
        );
        while st.pc < lines.len()
            invariant
                depth <= 32,
                lv == located_view(lines@),
                labels@ == label_map(lv),
                sc == *self.scripts(),
                tables == self.tables(),
                self.scripts() == old(self).scripts(),
                self.tables() == old(self).tables(),
                goal == run_lines_spec(
                    sc,
                    tables,
                    lv,
                    labels@,
                    step_limit as int,
                    depth as int,
                    Cursor { pc: 0, steps: 0, ifs: seq![], fors: seq![], skip: false },
                    old(self).state(),
                ),
                st.steps <= step_limit,
                run_lines_spec(
                    sc,
                    tables,
                    lv,
                    labels@,
                    step_limit as int,
                    depth as int,
                    cursor_of(st),
                    self.state(),
                ) == goal,
            decreases step_limit - st.steps,
        {
            if st.steps >= step_limit {
                return self.report(StopReason::StepLimit, st.steps);
            }
            st.steps = st.steps + 1;
            let located = lines[st.pc];
            assert(lv[st.pc as int] == (located.file@, *located.line));
            let instr = parse_line(located.line.text.as_str());
            let callee = match &instr {
                Instruction::Call(name) => {
                    if !st.skip_next && frames_active(&st.if_stack) {
                        Some(copy_string(name))
                    } else {
                        None
                    }
                },
                _ => None,
            };
            match callee {
                Some(name) => {
                    let remaining = step_limit - st.steps;
                    let report = self.run_function_inner(name.as_str(), remaining, depth + 1);
                    st.steps = st.steps + report.steps;
                    match report.stop_reason {
                        StopReason::EndOfFunction => {},
                        stop => {
                            return self.report(stop, st.steps);
                        },
                    }
                    st.pc = st.pc + 1;
                },
                None => {
                    match self.step(&mut st, &labels, located, &instr) {
                        Some(stop) => {
                            return self.report(stop, st.steps);
                        },
                        None => {},
                    }
                },
            }
        }
        self.report(StopReason::EndOfFunction, st.steps)
    }
}

} // verus!
