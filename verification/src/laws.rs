//! Properties of the library that hold across its functions.
use vstd::prelude::*;

use crate::config::{file_text, unify_newlines};
use crate::sorting::{insert_pos_by, isort, lemma_isort_len, lemma_isort_permutation, lemma_isort_sorted, sorted_by, strict_weak_order};
use crate::paths::path_lt;
use crate::csv::{by_relative_path, CsvFile};
use crate::script::{by_path, ScriptFile};
use crate::csv::{csv_line_cells, csv_scan, lookup_id, scan_start, CsvScan, NameTableView};
use crate::expr::{as_int, as_bool, eval_spec, UnaryOp, display, eval_binary_spec, pexpr, BinaryOp, ExprV, OpSym, Tok};
use crate::fs_overlay::{hex16, special};
use crate::runtime::{default_value, store_get, Val};
use crate::script::{
    by_name_then_file, def_lt, first_function, first_function_from, text_lt,
    FunctionDef,
};
use crate::terminal::{columns, half_width};
use crate::instruction::{instr_of, keyword_instr, mutation, Instr};
use crate::script::{function_lines_spec, ScriptCatalog, ScriptLine};
use crate::vm::{
    resolve_spec, calls, dashes, eval_value_spec, label_map, print, render_form_spec, run_function_spec,
    run_lines_spec, step_spec, Cursor, Flow, Stop, VmState,
};
use crate::text::{
    all_digits, decimal, digit_char, digit_value, digits_value, eq_ignore_case, int_text, is_digit,
    parse_i64, trim, trim_end, trim_start, upper,
};

verus! {

// ---------------------------------------------------------------------------
// Variables
// ---------------------------------------------------------------------------

/// Reading an address after `VarStore::set` gives the value set there, and
/// every other address reads as before.
pub proof fn law_get_after_set(
    store: Map<(Seq<char>, Seq<i64>), Val>,
    a: (Seq<char>, Seq<i64>),
    v: Val,
    b: (Seq<char>, Seq<i64>),
)
    ensures
        store_get(store.insert(a, v), a) == v,
        b != a ==> store_get(store.insert(a, v), b) == store_get(store, b),
{
}

/// An address that was never set reads as the default of its variable:
/// empty text for text variables, 0 for the others.
pub proof fn law_unset_reads_default(a: (Seq<char>, Seq<i64>))
    ensures
        store_get(Map::empty(), a) == default_value(a.0),
{
}

// ---------------------------------------------------------------------------
// Case
// ---------------------------------------------------------------------------

/// Upper-casing twice is upper-casing once.
pub proof fn law_upper_idempotent(s: Seq<char>)
    ensures
        upper(upper(s)) == upper(s),
{
    assert(upper(upper(s)) =~= upper(s));
}

/// Comparing ignoring ASCII case does not see the case of either side.
pub proof fn law_ignore_case_upper(a: Seq<char>, b: Seq<char>)
    ensures
        eq_ignore_case(upper(a), b) == eq_ignore_case(a, b),
        eq_ignore_case(a, upper(b)) == eq_ignore_case(a, b),
{
    law_upper_idempotent(a);
    law_upper_idempotent(b);
}

/// Whether a directory is a resource directory does not depend on the case
/// of its name.
pub proof fn law_special_dirs_ignore_case(name: Seq<char>)
    ensures
        special(upper(name)) == special(name),
{
    law_upper_idempotent(name);
}

/// CSV names resolve the same whatever the case of the table and the name.
pub proof fn law_resolve_name_ignores_case(
    tables: Map<Seq<char>, NameTableView>,
    table: Seq<char>,
    name: Seq<char>,
)
    ensures
        lookup_id(tables, upper(table), upper(name)) == lookup_id(tables, table, name),
{
    law_upper_idempotent(table);
    law_upper_idempotent(name);
}

/// Functions are found whatever the case of the name asked for.
pub proof fn law_find_function_ignores_case(fns: Seq<FunctionDef>, name: Seq<char>)
    ensures
        first_function(fns, upper(name)) == first_function(fns, name),
{
    law_upper_idempotent(name);
    lemma_first_function_case(fns, name, 0);
}

proof fn lemma_first_function_case(fns: Seq<FunctionDef>, name: Seq<char>, i: int)
    requires
        upper(upper(name)) == upper(name),
    ensures
        first_function_from(fns, upper(name), i) == first_function_from(fns, name, i),
    decreases fns.len() - i,
{
    if 0 <= i < fns.len() {
        lemma_first_function_case(fns, name, i + 1);
    }
}

// ---------------------------------------------------------------------------
// Numbers
// ---------------------------------------------------------------------------

proof fn lemma_digit_char(d: int)
    requires
        0 <= d < 10,
    ensures
        is_digit(digit_char(d)),
        digit_value(digit_char(d)) == d,
{
}

proof fn lemma_decimal(n: nat)
    ensures
        decimal(n).len() >= 1,
        all_digits(decimal(n)),
        digits_value(decimal(n)) == n,
    decreases n,
{
    if n < 10 {
        lemma_digit_char(n as int);
        assert(decimal(n).drop_last() =~= Seq::<char>::empty());
        assert(digits_value(Seq::<char>::empty()) == 0);
    } else {
        lemma_decimal(n / 10);
        lemma_digit_char((n % 10) as int);
        let s = decimal(n);
        assert(s.drop_last() =~= decimal(n / 10));
        assert((n / 10) * 10 + n % 10 == n) by (nonlinear_arith);
        assert(s.last() == digit_char((n % 10) as int));
        assert(digits_value(s) == digits_value(decimal(n / 10)) * 10 + digit_value(s.last()));
        assert forall|i: int| 0 <= i < s.len() implies is_digit(#[trigger] s[i]) by {
            if i < s.len() - 1 {
                assert(s[i] == decimal(n / 10)[i]);
            }
        }
    }
}

/// The text of a number reads back as the number: `int_text` and
/// `parse_i64` are inverse on `i64`.
pub proof fn law_number_text_round_trip(x: i64)
    ensures
        parse_i64(int_text(x as int)) == Some(x),
{
    if x < 0 {
        lemma_decimal((-x) as nat);
        let t = int_text(x as int);
        assert(t.drop_first() =~= decimal((-x) as nat));
    } else {
        lemma_decimal(x as nat);
        let d = decimal(x as nat);
        assert(is_digit(d[0]));
    }
}

/// A number printed as text and read back as a number is the same number.
pub proof fn law_display_then_read(x: i64)
    ensures
        as_int(Val::Str(display(Val::Int(x)))) == x,
{
    law_number_text_round_trip(x);
}

// ---------------------------------------------------------------------------
// Widths and text
// ---------------------------------------------------------------------------

/// The width of joined texts is the sum of their widths.
pub proof fn law_columns_concat(a: Seq<char>, b: Seq<char>)
    ensures
        columns(a + b) == columns(a) + columns(b),
    decreases b.len(),
{
    if b.len() == 0 {
        assert(a + b =~= a);
    } else {
        law_columns_concat(a, b.drop_last());
        assert((a + b).drop_last() =~= a + b.drop_last());
    }
}

/// Every character is one or two columns wide; text of Latin-1 characters
/// only is as wide as it is long.
pub proof fn law_columns_bounds(s: Seq<char>)
    ensures
        s.len() <= columns(s) <= 2 * s.len(),
        (forall|i: int| 0 <= i < s.len() ==> half_width(#[trigger] s[i])) ==> columns(s) == s.len(),
    decreases s.len(),
{
    if s.len() > 0 {
        law_columns_bounds(s.drop_last());
        if forall|i: int| 0 <= i < s.len() ==> half_width(#[trigger] s[i]) {
            assert(half_width(s[s.len() - 1]));
            assert forall|i: int| 0 <= i < s.drop_last().len() implies half_width(
                #[trigger] s.drop_last()[i],
            ) by {
                assert(s.drop_last()[i] == s[i]);
            }
        }
    }
}

/// The text of a game file has no carriage return left.
pub proof fn law_file_text_has_no_carriage_return(bytes: Seq<u8>)
    ensures
        !file_text(bytes).contains('\r'),
{
    lemma_unify_newlines(crate::text::trim_start_char(crate::config::utf8_lossy(bytes), crate::text::bom()));
}

proof fn lemma_unify_newlines(s: Seq<char>)
    ensures
        forall|i: int| 0 <= i < unify_newlines(s).len() ==> #[trigger] unify_newlines(s)[i] != '\r',
    decreases s.len(),
{
    if s.len() > 0 {
        if s[0] == '\r' && s.len() > 1 && s[1] == '\n' {
            lemma_unify_newlines(s.skip(2));
        } else {
            lemma_unify_newlines(s.skip(1));
        }
        let u = unify_newlines(s);
        let rest = if s[0] == '\r' && s.len() > 1 && s[1] == '\n' {
            unify_newlines(s.skip(2))
        } else {
            unify_newlines(s.skip(1))
        };
        assert forall|i: int| 0 <= i < u.len() implies #[trigger] u[i] != '\r' by {
            if i > 0 {
                assert(u[i] == rest[i - 1]);
            }
        }
    }
}

/// The overlay directory name is always sixteen lower-case hexadecimal
/// digits.
pub proof fn law_hex16_digits(h: u64)
    ensures
        hex16(h).len() == 16,
        forall|i: int|
            0 <= i < 16 ==> ('0' <= #[trigger] hex16(h)[i] <= '9' || 'a' <= hex16(h)[i] <= 'f'),
{
    assert forall|i: int| 0 <= i < 16 implies ('0' <= #[trigger] hex16(h)[i] <= '9' || 'a'
        <= hex16(h)[i] <= 'f') by {
        let sh: u64 = ((15 - i) * 4) as u64;
        assert(((h >> sh) & 15u64) <= 15u64) by (bit_vector);
    }
}

/// Trimming twice is trimming once.
pub proof fn law_trim_idempotent(s: Seq<char>)
    ensures
        trim(trim(s)) == trim(s),
{
    crate::text::lemma_trim_start_empty_or_not_ws(s);
    let a = trim_start(s);
    crate::text::lemma_trim_end_empty_or_not_ws(a);
    lemma_trim_end_keeps_start(a);
    let t = trim_end(a);
    assert(trim_start(t) == t);
    lemma_trim_end_fixed(t);
}

proof fn lemma_trim_end_keeps_start(a: Seq<char>)
    requires
        a.len() == 0 || !crate::text::is_ws(a[0]),
    ensures
        trim_end(a).len() == 0 || !crate::text::is_ws(trim_end(a)[0]),
        trim_end(a).len() == 0 || trim_end(a)[0] == a[0],
    decreases a.len(),
{
    if a.len() > 0 && crate::text::is_ws(a.last()) {
        if a.len() > 1 {
            lemma_trim_end_keeps_start(a.drop_last());
        }
    }
}

proof fn lemma_trim_end_fixed(t: Seq<char>)
    requires
        t.len() == 0 || !crate::text::is_ws(t.last()),
    ensures
        trim_end(t) == t,
{
}

// ---------------------------------------------------------------------------
// Runs
// ---------------------------------------------------------------------------

/// `new` is `old` with text added: every line but the last is kept, the
/// last line only grows, and lines may follow.
pub open spec fn output_extends(old: Seq<Seq<char>>, new: Seq<Seq<char>>) -> bool {
    &&& old.len() <= new.len()
    &&& forall|i: int| 0 <= i < old.len() - 1 ==> #[trigger] new[i] == old[i]
    &&& old.len() > 0 ==> old.last().is_prefix_of(new[old.len() - 1])
}

/// `new` is what is left of the queue `old` after taking some inputs from
/// its front.
pub open spec fn inputs_consumed(old: Seq<Val>, new: Seq<Val>) -> bool {
    new.len() <= old.len() && new == old.skip(old.len() - new.len())
}

proof fn lemma_consumed_refl(a: Seq<Val>)
    ensures
        inputs_consumed(a, a),
{
    assert(a.skip(0) =~= a);
}

proof fn lemma_consumed_trans(a: Seq<Val>, b: Seq<Val>, c: Seq<Val>)
    requires
        inputs_consumed(a, b),
        inputs_consumed(b, c),
    ensures
        inputs_consumed(a, c),
{
    assert(c =~= a.skip(a.len() - c.len()));
}

proof fn lemma_extends_refl(a: Seq<Seq<char>>)
    ensures
        output_extends(a, a),
{
    if a.len() > 0 {
        assert(a.last().is_prefix_of(a[a.len() - 1]));
    }
}

proof fn lemma_extends_trans(a: Seq<Seq<char>>, b: Seq<Seq<char>>, c: Seq<Seq<char>>)
    requires
        output_extends(a, b),
        output_extends(b, c),
    ensures
        output_extends(a, c),
{
    assert forall|i: int| 0 <= i < a.len() - 1 implies #[trigger] c[i] == a[i] by {
        assert(b[i] == a[i]);
        assert(c[i] == b[i]);
    }
    if a.len() > 0 {
        let k = a.len() - 1;
        if a.len() < b.len() {
            assert(c[k] == b[k]);
        } else {
            assert(b.last() == b[k]);
        }
    }
}

proof fn lemma_print_extends(vm: VmState, text: Seq<char>, newline: bool)
    ensures
        output_extends(vm.output, print(vm, text, newline).output),
{
    let o = vm.output;
    let n = print(vm, text, newline).output;
    if newline || o.len() == 0 {
        assert forall|i: int| 0 <= i < o.len() - 1 implies #[trigger] n[i] == o[i] by {}
        if o.len() > 0 {
            assert(o.last().is_prefix_of(n[o.len() - 1]));
        }
    } else {
        assert forall|i: int| 0 <= i < o.len() - 1 implies #[trigger] n[i] == o[i] by {}
        assert(n[o.len() - 1] == o.last() + text);
        assert(o.last().is_prefix_of(o.last() + text)) by {
            assert((o.last() + text).subrange(0, o.last().len() as int) =~= o.last());
        }
    }
}

/// The state a line leaves, whether the run goes on or stops.
pub open spec fn flow_state(f: Flow) -> VmState {
    match f {
        Flow::Go(_, vm) => vm,
        Flow::Halt(vm, _) => vm,
    }
}

#[verifier::rlimit(40)]
proof fn lemma_step_extends(
    tables: Map<Seq<char>, NameTableView>,
    labels: Map<Seq<char>, usize>,
    c: Cursor,
    vm: VmState,
    file: Seq<char>,
    line: ScriptLine,
)
    ensures
        output_extends(vm.output, flow_state(step_spec(tables, labels, c, vm, file, line)).output),
        inputs_consumed(vm.inputs, flow_state(step_spec(tables, labels, c, vm, file, line)).inputs),
{
    reveal(step_spec);
    lemma_extends_refl(vm.output);
    lemma_consumed_refl(vm.inputs);
    if vm.inputs.len() > 0 {
        assert(vm.inputs.drop_first() =~= vm.inputs.skip(1));
    }
    let instr = instr_of(line.text@);
    let c0 = Cursor { skip: false, ..c };
    match instr {
        Instr::Print { text, newline } => lemma_print_extends(vm, text, newline),
        Instr::PrintForm { text, newline } => lemma_print_extends(
            vm,
            render_form_spec(tables, vm.variables, text),
            newline,
        ),
        Instr::PrintExpr { expr, newline } => match eval_value_spec(tables, vm.variables, expr) {
            Ok(v) => lemma_print_extends(vm, display(v), newline),
            Err(_) => {},
        },
        Instr::Bar(_) => lemma_print_extends(vm, "[----------------]"@, false),
        Instr::DrawLine => lemma_print_extends(vm, dashes(), true),
        _ => {},
    }
}

proof fn lemma_run_function_extends(
    scripts: ScriptCatalog,
    tables: Map<Seq<char>, NameTableView>,
    name: Seq<char>,
    limit: int,
    depth: int,
    vm: VmState,
)
    ensures
        output_extends(
            vm.output,
            run_function_spec(scripts, tables, name, limit, depth, vm).0.output,
        ),
        inputs_consumed(
            vm.inputs,
            run_function_spec(scripts, tables, name, limit, depth, vm).0.inputs,
        ),
    decreases 33 - depth, 1int, 0int,
{
    lemma_extends_refl(vm.output);
    lemma_consumed_refl(vm.inputs);
    if depth <= 32 {
        match function_lines_spec(scripts.files@, scripts.index.functions@, name) {
            None => {},
            Some(lines) => lemma_run_lines_extends(
                scripts,
                tables,
                lines,
                label_map(lines),
                limit,
                depth,
                Cursor { pc: 0, steps: 0, ifs: seq![], fors: seq![], skip: false },
                vm,
            ),
        }
    }
}

proof fn lemma_run_lines_extends(
    scripts: ScriptCatalog,
    tables: Map<Seq<char>, NameTableView>,
    lines: Seq<(Seq<char>, ScriptLine)>,
    labels: Map<Seq<char>, usize>,
    limit: int,
    depth: int,
    c: Cursor,
    vm: VmState,
)
    ensures
        output_extends(
            vm.output,
            run_lines_spec(scripts, tables, lines, labels, limit, depth, c, vm).0.output,
        ),
        inputs_consumed(
            vm.inputs,
            run_lines_spec(scripts, tables, lines, labels, limit, depth, c, vm).0.inputs,
        ),
    decreases 33 - depth, 0int, if c.steps < limit {
        limit - c.steps
    } else {
        0
    },
{
    lemma_extends_refl(vm.output);
    lemma_consumed_refl(vm.inputs);
    if 0 <= c.pc < lines.len() && c.steps < limit {
        let c1 = Cursor { steps: c.steps + 1, ..c };
        let file = lines[c.pc].0;
        let line = lines[c.pc].1;
        if calls(c1, line) && depth <= 32 {
            let sub = run_function_spec(
                scripts,
                tables,
                instr_of(line.text@)->Call_0,
                limit - c1.steps,
                depth + 1,
                vm,
            );
            lemma_run_function_extends(
                scripts,
                tables,
                instr_of(line.text@)->Call_0,
                limit - c1.steps,
                depth + 1,
                vm,
            );
            if sub.1 == Stop::EndOfFunction {
                let steps = c1.steps + sub.2;
                let next = Cursor { pc: c.pc + 1, steps, ..c1 };
                lemma_run_lines_extends(scripts, tables, lines, labels, limit, depth, next, sub.0);
                lemma_extends_trans(
                    vm.output,
                    sub.0.output,
                    run_lines_spec(scripts, tables, lines, labels, limit, depth, next, sub.0).0.output,
                );
                lemma_consumed_trans(
                    vm.inputs,
                    sub.0.inputs,
                    run_lines_spec(scripts, tables, lines, labels, limit, depth, next, sub.0).0.inputs,
                );
            }
        } else {
            let f = step_spec(tables, labels, c1, vm, file, line);
            lemma_step_extends(tables, labels, c1, vm, file, line);
            match f {
                Flow::Halt(_, _) => {},
                Flow::Go(c2, vm2) => {
                    let next = Cursor { steps: c1.steps, ..c2 };
                    lemma_run_lines_extends(scripts, tables, lines, labels, limit, depth, next, vm2);
                    lemma_extends_trans(
                        vm.output,
                        vm2.output,
                        run_lines_spec(scripts, tables, lines, labels, limit, depth, next, vm2).0.output,
                    );
                    lemma_consumed_trans(
                        vm.inputs,
                        vm2.inputs,
                        run_lines_spec(scripts, tables, lines, labels, limit, depth, next, vm2).0.inputs,
                    );
                },
            }
        }
    }
}

/// A run only adds output: every line printed before, but the last, stays
/// as it was, and the last line can only grow.
pub proof fn law_run_keeps_output(
    scripts: ScriptCatalog,
    tables: Map<Seq<char>, NameTableView>,
    name: Seq<char>,
    limit: int,
    vm: VmState,
)
    ensures
        output_extends(vm.output, run_function_spec(scripts, tables, name, limit, 0, vm).0.output),
{
    lemma_run_function_extends(scripts, tables, name, limit, 0, vm);
}

/// A run takes queued input from the front only: what is left is the end of
/// the queue it started with.
pub proof fn law_run_consumes_inputs_in_order(
    scripts: ScriptCatalog,
    tables: Map<Seq<char>, NameTableView>,
    name: Seq<char>,
    limit: int,
    vm: VmState,
)
    ensures
        inputs_consumed(vm.inputs, run_function_spec(scripts, tables, name, limit, 0, vm).0.inputs),
{
    lemma_run_function_extends(scripts, tables, name, limit, 0, vm);
}

// ---------------------------------------------------------------------------
// The function index
// ---------------------------------------------------------------------------

proof fn lemma_lt_irreflexive(a: Seq<char>)
    ensures
        !text_lt(a, a),
    decreases a.len(),
{
    if a.len() > 0 {
        lemma_lt_irreflexive(a.drop_first());
    }
}

proof fn lemma_lt_transitive(a: Seq<char>, b: Seq<char>, c: Seq<char>)
    requires
        text_lt(a, b),
        text_lt(b, c),
    ensures
        text_lt(a, c),
    decreases a.len(),
{
    if a.len() > 0 && b.len() > 0 && c.len() > 0 && a[0] == b[0] && b[0] == c[0] {
        lemma_lt_transitive(a.drop_first(), b.drop_first(), c.drop_first());
    }
}

proof fn lemma_lt_total(a: Seq<char>, b: Seq<char>)
    ensures
        a == b || text_lt(a, b) || text_lt(b, a),
    decreases a.len(),
{
    if a.len() > 0 && b.len() > 0 && a[0] == b[0] {
        lemma_lt_total(a.drop_first(), b.drop_first());
        if a.drop_first() == b.drop_first() {
            assert(a =~= seq![a[0]] + a.drop_first());
            assert(b =~= seq![b[0]] + b.drop_first());
        }
    } else if a.len() == 0 && b.len() == 0 {
        assert(a =~= b);
    }
}

/// No element is named before an earlier one.
pub open spec fn sorted_by_name(s: Seq<(Seq<char>, Seq<char>, usize)>) -> bool {
    forall|i: int, j: int| 0 <= i < j < s.len() ==> !text_lt(#[trigger] s[j].0, #[trigger] s[i].0)
}

proof fn lemma_insert_pos_facts(
    t: Seq<(Seq<char>, Seq<char>, usize)>,
    x: (Seq<char>, Seq<char>, usize),
    j: int,
)
    requires
        0 <= j <= t.len(),
    ensures
        0 <= insert_pos_by(t, x, by_name_then_file(), j) <= j,
        forall|m: int|
            insert_pos_by(t, x, by_name_then_file(), j) <= m < j ==> def_lt(x, #[trigger] t[m]),
        insert_pos_by(t, x, by_name_then_file(), j) > 0 ==> !def_lt(
            x,
            t[insert_pos_by(t, x, by_name_then_file(), j) - 1],
        ),
    decreases j,
{
    if j > 0 && def_lt(x, t[j - 1]) {
        lemma_insert_pos_facts(t, x, j - 1);
    }
}

proof fn lemma_sorted_insert(t: Seq<(Seq<char>, Seq<char>, usize)>, x: (Seq<char>, Seq<char>, usize))
    requires
        sorted_by_name(t),
    ensures
        sorted_by_name(t.insert(insert_pos_by(t, x, by_name_then_file(), t.len() as int), x)),
{
    let p = insert_pos_by(t, x, by_name_then_file(), t.len() as int);
    lemma_insert_pos_facts(t, x, t.len() as int);
    let u = t.insert(p, x);
    assert forall|i: int, j: int| 0 <= i < j < u.len() implies !text_lt(
        #[trigger] u[j].0,
        #[trigger] u[i].0,
    ) by {
        if i < p && j == p {
            if text_lt(x.0, t[i].0) {
                lemma_lt_total(t[p - 1].0, t[i].0);
                if text_lt(t[i].0, t[p - 1].0) {
                    lemma_lt_transitive(x.0, t[i].0, t[p - 1].0);
                }
                if i < p - 1 {
                    assert(!text_lt(t[p - 1].0, t[i].0));
                }
            }
        } else if i == p && j > p {
            assert(u[j] == t[j - 1]);
            assert(def_lt(x, t[j - 1]));
            if text_lt(t[j - 1].0, x.0) {
                if text_lt(x.0, t[j - 1].0) {
                    lemma_lt_transitive(x.0, t[j - 1].0, x.0);
                }
                lemma_lt_irreflexive(x.0);
            }
        } else if i < p && j > p {
            assert(u[i] == t[i]);
            assert(u[j] == t[j - 1]);
        } else if i > p {
            assert(u[i] == t[i - 1]);
            assert(u[j] == t[j - 1]);
        } else {
            assert(u[i] == t[i]);
            assert(u[j] == t[j]);
        }
    }
}

/// The function index is ordered by name: sorting gives names in order.
pub proof fn law_functions_sorted_by_name(s: Seq<(Seq<char>, Seq<char>, usize)>)
    ensures
        sorted_by_name(isort(s, by_name_then_file())),
    decreases s.len(),
{
    if s.len() > 0 {
        law_functions_sorted_by_name(s.drop_last());
        lemma_sorted_insert(isort(s.drop_last(), by_name_then_file()), s.last());
    }
}

/// Sorting the function index neither loses nor adds a definition.
pub proof fn law_functions_sort_keeps_all(s: Seq<(Seq<char>, Seq<char>, usize)>)
    ensures
        isort(s, by_name_then_file()).to_multiset() == s.to_multiset(),
{
    lemma_isort_permutation(s, by_name_then_file());
}

/// Ordering the files of the catalogs neither loses nor adds a file.
pub proof fn law_catalog_files_kept(scripts: Seq<ScriptFile>, csv: Seq<CsvFile>)
    ensures
        isort(scripts, by_path()).to_multiset() == scripts.to_multiset(),
        isort(csv, by_relative_path()).to_multiset() == csv.to_multiset(),
{
    lemma_isort_permutation(scripts, by_path());
    lemma_isort_permutation(csv, by_relative_path());
}

// ---------------------------------------------------------------------------
// CSV lines
// ---------------------------------------------------------------------------

/// The number of white-space characters at the start of `s`.
pub open spec fn ws_prefix_len(s: Seq<char>) -> nat
    decreases s.len(),
{
    if s.len() > 0 && crate::text::is_ws(s[0]) {
        1 + ws_prefix_len(s.drop_first())
    } else {
        0
    }
}

proof fn lemma_ws_prefix(s: Seq<char>)
    ensures
        ws_prefix_len(s) <= s.len(),
        trim_start(s) == s.skip(ws_prefix_len(s) as int),
        forall|j: int| 0 <= j < ws_prefix_len(s) ==> crate::text::is_ws(#[trigger] s[j]),
        ws_prefix_len(s) < s.len() ==> !crate::text::is_ws(s[ws_prefix_len(s) as int]),
    decreases s.len(),
{
    if s.len() > 0 && crate::text::is_ws(s[0]) {
        let t = s.drop_first();
        lemma_ws_prefix(t);
        assert(t.skip(ws_prefix_len(t) as int) =~= s.skip(ws_prefix_len(s) as int));
        assert forall|j: int| 0 <= j < ws_prefix_len(s) implies crate::text::is_ws(#[trigger] s[j]) by {
            if j > 0 {
                assert(s[j] == t[j - 1]);
            }
        }
    } else {
        assert(s.skip(0) =~= s);
    }
}

proof fn lemma_blank_trims_to_nothing(t: Seq<char>)
    requires
        forall|j: int| 0 <= j < t.len() ==> crate::text::is_ws(#[trigger] t[j]),
    ensures
        trim(t) == Seq::<char>::empty(),
        trim_start(t) == Seq::<char>::empty(),
    decreases t.len(),
{
    if t.len() > 0 {
        assert(crate::text::is_ws(t[0]));
        lemma_blank_trims_to_nothing(t.drop_first());
    }
}

proof fn lemma_scan_blank_prefix(s: Seq<char>, i: int)
    requires
        0 <= i <= s.len(),
        forall|j: int| 0 <= j < i ==> crate::text::is_ws(#[trigger] s[j]),
    ensures
        csv_scan(s, 0, scan_start()) == csv_scan(
            s,
            i,
            CsvScan { cells: seq![], current: s.take(i), in_quotes: false, only_ws: true, stopped: false },
        ),
    decreases i,
{
    if i == 0 {
        assert(s.take(0) =~= Seq::<char>::empty());
    } else {
        lemma_scan_blank_prefix(s, i - 1);
        let ch = s[i - 1];
        assert(crate::text::is_ws(ch));
        assert(s.take(i - 1).push(ch) =~= s.take(i));
    }
}

/// A CSV line that is blank, or whose first character that is not white
/// space is `;`, has no cells.
pub proof fn law_blank_or_comment_line_has_no_cells(line: Seq<char>)
    requires
        trim_start(crate::text::trim_start_char(line, crate::text::bom())).len() == 0
            || trim_start(crate::text::trim_start_char(line, crate::text::bom()))[0] == ';',
    ensures
        csv_line_cells(line) == Seq::<Seq<char>>::empty(),
{
    let s = crate::text::trim_start_char(line, crate::text::bom());
    lemma_ws_prefix(s);
    let k = ws_prefix_len(s) as int;
    lemma_scan_blank_prefix(s, k);
    let blank = s.take(k);
    assert forall|j: int| 0 <= j < blank.len() implies crate::text::is_ws(#[trigger] blank[j]) by {
        assert(blank[j] == s[j]);
    }
    lemma_blank_trims_to_nothing(blank);
    if k < s.len() {
        assert(s.skip(k)[0] == s[k]);
    } else {
        assert(s.take(k) =~= s);
    }
}

/// The order of path texts that `Path`'s `Ord` gives.
pub open spec fn path_order() -> spec_fn(Seq<char>, Seq<char>) -> bool {
    |a: Seq<char>, b: Seq<char>| path_lt(a, b)
}

/// Given that paths are ordered by a strict weak order (std's `Ord` for
/// `Path` is a total order of paths; two texts naming the same path are
/// equal in it), the script catalog lists its files sorted by path.
pub proof fn law_script_files_sorted(files: Seq<ScriptFile>)
    requires
        strict_weak_order(path_order()),
    ensures
        sorted_by(isort(files, by_path()), by_path()),
{
    let p = path_order();
    let lt = by_path();
    assert forall|a: ScriptFile| !(#[trigger] lt(a, a)) by {
        assert(!p(a.path@, a.path@));
    }
    assert forall|a: ScriptFile, b: ScriptFile, c: ScriptFile| #[trigger] lt(a, b) && #[trigger] lt(
        b,
        c,
    ) implies lt(a, c) by {
        assert(p(a.path@, b.path@) && p(b.path@, c.path@));
    }
    assert forall|a: ScriptFile, b: ScriptFile, c: ScriptFile| !(#[trigger] lt(a, b)) && !(
    #[trigger] lt(b, c)) implies !lt(a, c) by {
        assert(!p(a.path@, b.path@) && !p(b.path@, c.path@));
    }
    lemma_isort_sorted(files, lt);
}

/// Under the same condition, the CSV catalog lists its files sorted by
/// relative path.
pub proof fn law_csv_files_sorted(files: Seq<CsvFile>)
    requires
        strict_weak_order(path_order()),
    ensures
        sorted_by(isort(files, by_relative_path()), by_relative_path()),
{
    let p = path_order();
    let lt = by_relative_path();
    assert forall|a: CsvFile| !(#[trigger] lt(a, a)) by {
        assert(!p(a.relative_path@, a.relative_path@));
    }
    assert forall|a: CsvFile, b: CsvFile, c: CsvFile| #[trigger] lt(a, b) && #[trigger] lt(
        b,
        c,
    ) implies lt(a, c) by {
        assert(p(a.relative_path@, b.relative_path@) && p(b.relative_path@, c.relative_path@));
    }
    assert forall|a: CsvFile, b: CsvFile, c: CsvFile| !(#[trigger] lt(a, b)) && !(
    #[trigger] lt(b, c)) implies !lt(a, c) by {
        assert(!p(a.relative_path@, b.relative_path@) && !p(b.relative_path@, c.relative_path@));
    }
    lemma_isort_sorted(files, lt);
}

/// Under the same condition, the function index is sorted by name and,
/// among equal names, by file.
pub proof fn law_functions_sorted_by_name_then_file(s: Seq<(Seq<char>, Seq<char>, usize)>)
    requires
        strict_weak_order(path_order()),
    ensures
        sorted_by(isort(s, by_name_then_file()), by_name_then_file()),
{
    let p = path_order();
    let lt = by_name_then_file();
    assert forall|a: (Seq<char>, Seq<char>, usize)| !(#[trigger] lt(a, a)) by {
        lemma_lt_irreflexive(a.0);
        assert(!p(a.1, a.1));
    }
    assert forall|a: (Seq<char>, Seq<char>, usize), b: (Seq<char>, Seq<char>, usize), c: (Seq<char>, Seq<char>, usize)|
        #[trigger] lt(a, b) && #[trigger] lt(b, c) implies lt(a, c) by {
        if text_lt(a.0, b.0) && text_lt(b.0, c.0) {
            lemma_lt_transitive(a.0, b.0, c.0);
        }
        if a.0 == b.0 && b.0 == c.0 {
            if path_lt(a.1, b.1) && path_lt(b.1, c.1) {
                assert(p(a.1, b.1) && p(b.1, c.1));
            }
        }
    }
    assert forall|a: (Seq<char>, Seq<char>, usize), b: (Seq<char>, Seq<char>, usize), c: (Seq<char>, Seq<char>, usize)|
        !(#[trigger] lt(a, b)) && !(#[trigger] lt(b, c)) implies !lt(a, c) by {
        lemma_lt_total(a.0, b.0);
        lemma_lt_total(b.0, c.0);
        lemma_lt_irreflexive(a.0);
        if text_lt(b.0, a.0) && text_lt(c.0, b.0) {
            lemma_lt_transitive(c.0, b.0, a.0);
            if text_lt(a.0, c.0) {
                lemma_lt_transitive(a.0, c.0, a.0);
            }
        }
        if text_lt(b.0, a.0) && c.0 == b.0 && text_lt(a.0, c.0) {
            lemma_lt_transitive(a.0, c.0, a.0);
        }
        if a.0 == b.0 && text_lt(c.0, b.0) && text_lt(a.0, c.0) {
            lemma_lt_transitive(a.0, c.0, a.0);
        }
        if a.0 == b.0 && b.0 == c.0 {
            assert(!p(a.1, b.1) && !p(b.1, c.1));
        }
    }
    lemma_isort_sorted(s, lt);
}

// ---------------------------------------------------------------------------
// Variable lines of the machine
// ---------------------------------------------------------------------------

/// `x - 1` on a 64-bit integer, wrapping from the smallest to the largest.
pub open spec fn one_less(x: i64) -> i64 {
    if x == i64::MIN {
        i64::MAX
    } else {
        (x - 1) as i64
    }
}

/// `x + 1` on a 64-bit integer, wrapping from the largest to the smallest.
pub open spec fn one_more(x: i64) -> i64 {
    if x == i64::MAX {
        i64::MIN
    } else {
        (x + 1) as i64
    }
}

/// A `TARGET--` line that runs lowers the number at TARGET by one (the
/// smallest number wraps to the largest), changes no other variable, keeps
/// the input and output, and goes on with the next line.
pub proof fn law_decrement_lowers_by_one(
    tables: Map<Seq<char>, NameTableView>,
    labels: Map<Seq<char>, usize>,
    c: Cursor,
    vm: VmState,
    file: Seq<char>,
    line: ScriptLine,
    target: Seq<char>,
    a: (Seq<char>, Seq<i64>),
)
    requires
        instr_of(line.text@) == Instr::Dec(target),
        !c.skip,
        crate::vm::all_active(c.ifs),
        resolve_spec(tables, vm.variables, target) == Some(a),
    ensures
        step_spec(tables, labels, c, vm, file, line) matches Flow::Go(c2, vm2) && {
            &&& c2 == Cursor { pc: c.pc + 1, ..c }
            &&& store_get(vm2.variables, a) == Val::Int(one_less(as_int(store_get(vm.variables, a))))
            &&& forall|b: (Seq<char>, Seq<i64>)| b != a ==> store_get(vm2.variables, b) == store_get(vm.variables, b)
            &&& vm2.inputs == vm.inputs
            &&& vm2.output == vm.output
        },
{
    reveal(step_spec);
    let x = as_int(store_get(vm.variables, a));
    assert(crate::expr::wrap_sub(x, 1) == one_less(x));
    assert(c == Cursor { skip: false, ..c });
}

/// A `TARGET++` line that runs raises the number at TARGET by one (the
/// largest number wraps to the smallest), changes no other variable, keeps
/// the input and output, and goes on with the next line.
pub proof fn law_increment_raises_by_one(
    tables: Map<Seq<char>, NameTableView>,
    labels: Map<Seq<char>, usize>,
    c: Cursor,
    vm: VmState,
    file: Seq<char>,
    line: ScriptLine,
    target: Seq<char>,
    a: (Seq<char>, Seq<i64>),
)
    requires
        instr_of(line.text@) == Instr::Inc(target),
        !c.skip,
        crate::vm::all_active(c.ifs),
        resolve_spec(tables, vm.variables, target) == Some(a),
    ensures
        step_spec(tables, labels, c, vm, file, line) matches Flow::Go(c2, vm2) && {
            &&& c2 == Cursor { pc: c.pc + 1, ..c }
            &&& store_get(vm2.variables, a) == Val::Int(one_more(as_int(store_get(vm.variables, a))))
            &&& forall|b: (Seq<char>, Seq<i64>)| b != a ==> store_get(vm2.variables, b) == store_get(vm.variables, b)
            &&& vm2.inputs == vm.inputs
            &&& vm2.output == vm.output
        },
{
    reveal(step_spec);
    let x = as_int(store_get(vm.variables, a));
    assert(crate::expr::wrap_add(x, 1) == one_more(x));
    assert(c == Cursor { skip: false, ..c });
}

// ---------------------------------------------------------------------------
// Operators
// ---------------------------------------------------------------------------

/// Comparing two numbers gives 1 when the comparison holds and 0 when it
/// does not.
pub proof fn law_comparisons_of_numbers(a: i64, b: i64)
    ensures
        eval_binary_spec(Val::Int(a), BinaryOp::Lt, Val::Int(b)) == Ok::<Val, crate::expr::ExprErr>(
            Val::Int(if a < b { 1 } else { 0 }),
        ),
        eval_binary_spec(Val::Int(a), BinaryOp::Le, Val::Int(b)) == Ok::<Val, crate::expr::ExprErr>(
            Val::Int(if a <= b { 1 } else { 0 }),
        ),
        eval_binary_spec(Val::Int(a), BinaryOp::Gt, Val::Int(b)) == Ok::<Val, crate::expr::ExprErr>(
            Val::Int(if a > b { 1 } else { 0 }),
        ),
        eval_binary_spec(Val::Int(a), BinaryOp::Ge, Val::Int(b)) == Ok::<Val, crate::expr::ExprErr>(
            Val::Int(if a >= b { 1 } else { 0 }),
        ),
        eval_binary_spec(Val::Int(a), BinaryOp::Eq, Val::Int(b)) == Ok::<Val, crate::expr::ExprErr>(
            Val::Int(if a == b { 1 } else { 0 }),
        ),
        eval_binary_spec(Val::Int(a), BinaryOp::Ne, Val::Int(b)) == Ok::<Val, crate::expr::ExprErr>(
            Val::Int(if a != b { 1 } else { 0 }),
        ),
{
}

/// `<` and `>` are strict (a number is not less than itself), `a < b` is
/// `b > a`, and exactly one of `a < b`, `a == b`, `a > b` holds.
pub proof fn law_order_of_values(x: Val, y: Val)
    ensures
        eval_binary_spec(x, BinaryOp::Lt, x) == Ok::<Val, crate::expr::ExprErr>(Val::Int(0)),
        eval_binary_spec(x, BinaryOp::Gt, x) == Ok::<Val, crate::expr::ExprErr>(Val::Int(0)),
        eval_binary_spec(x, BinaryOp::Le, x) == Ok::<Val, crate::expr::ExprErr>(Val::Int(1)),
        eval_binary_spec(x, BinaryOp::Lt, y) == eval_binary_spec(y, BinaryOp::Gt, x),
        eval_binary_spec(x, BinaryOp::Le, y) == eval_binary_spec(y, BinaryOp::Ge, x),
        eval_binary_spec(x, BinaryOp::Lt, y) == Ok::<Val, crate::expr::ExprErr>(Val::Int(1))
            <==> eval_binary_spec(x, BinaryOp::Ge, y) == Ok::<Val, crate::expr::ExprErr>(Val::Int(0)),
{
}

/// On numbers whose result fits, `+`, `-` and `*` compute the sum,
/// difference and product; on non-negative numbers `/` and `%` compute the
/// quotient and remainder.
pub proof fn law_arithmetic_of_numbers(a: i64, b: i64)
    ensures
        i64::MIN <= a + b <= i64::MAX ==> eval_binary_spec(Val::Int(a), BinaryOp::Add, Val::Int(b))
            == Ok::<Val, crate::expr::ExprErr>(Val::Int((a + b) as i64)),
        i64::MIN <= a - b <= i64::MAX ==> eval_binary_spec(Val::Int(a), BinaryOp::Sub, Val::Int(b))
            == Ok::<Val, crate::expr::ExprErr>(Val::Int((a - b) as i64)),
        i64::MIN <= a * b <= i64::MAX ==> eval_binary_spec(Val::Int(a), BinaryOp::Mul, Val::Int(b))
            == Ok::<Val, crate::expr::ExprErr>(Val::Int((a * b) as i64)),
        a >= 0 && b > 0 ==> eval_binary_spec(Val::Int(a), BinaryOp::Div, Val::Int(b))
            == Ok::<Val, crate::expr::ExprErr>(Val::Int((a / b) as i64)),
        a >= 0 && b > 0 ==> eval_binary_spec(Val::Int(a), BinaryOp::Rem, Val::Int(b))
            == Ok::<Val, crate::expr::ExprErr>(Val::Int((a % b) as i64)),
        eval_binary_spec(Val::Int(a), BinaryOp::Div, Val::Int(0)) is Err,
        eval_binary_spec(Val::Int(a), BinaryOp::Rem, Val::Int(0)) is Err,
{
    assert(a >= 0 && b > 0 ==> 0 <= a / b <= a) by (nonlinear_arith);
    assert(a >= 0 && b > 0 ==> 0 <= a % b < b) by (nonlinear_arith);
}

/// The binary operator a symbol stands for.
pub open spec fn operator_of(o: OpSym) -> Option<BinaryOp> {
    match o {
        OpSym::OrOr => Some(BinaryOp::Or),
        OpSym::AndAnd => Some(BinaryOp::And),
        OpSym::EqEq => Some(BinaryOp::Eq),
        OpSym::NotEq => Some(BinaryOp::Ne),
        OpSym::GtEq => Some(BinaryOp::Ge),
        OpSym::Gt => Some(BinaryOp::Gt),
        OpSym::LtEq => Some(BinaryOp::Le),
        OpSym::Lt => Some(BinaryOp::Lt),
        OpSym::Pipe => Some(BinaryOp::BitOr),
        OpSym::Amp => Some(BinaryOp::BitAnd),
        OpSym::Plus => Some(BinaryOp::Add),
        OpSym::Minus => Some(BinaryOp::Sub),
        OpSym::Star => Some(BinaryOp::Mul),
        OpSym::Slash => Some(BinaryOp::Div),
        OpSym::Percent => Some(BinaryOp::Rem),
        OpSym::Bang => None,
    }
}

/// How tightly an operator binds: `||` < `&&` < `==` `!=` < `>=` `>` `<=`
/// `<` < `|` `&` < `+` `-` < `*` `/` `%`.
pub open spec fn precedence(op: BinaryOp) -> int {
    match op {
        BinaryOp::Or => 1,
        BinaryOp::And => 2,
        BinaryOp::Eq | BinaryOp::Ne => 3,
        BinaryOp::Ge | BinaryOp::Gt | BinaryOp::Le | BinaryOp::Lt => 4,
        BinaryOp::BitOr | BinaryOp::BitAnd => 5,
        BinaryOp::Add | BinaryOp::Sub => 6,
        BinaryOp::Mul | BinaryOp::Div | BinaryOp::Rem => 7,
    }
}

pub open spec fn number(v: i64) -> ExprV {
    ExprV::Value(Val::Int(v))
}

pub open spec fn binary(lhs: ExprV, op: BinaryOp, rhs: ExprV) -> ExprV {
    ExprV::Binary { lhs: Box::new(lhs), op, rhs: Box::new(rhs) }
}

/// `a OP b` is the operator the symbol stands for applied to `a` and `b`.
pub proof fn law_binary_operator(a: i64, o: OpSym, b: i64)
    requires
        operator_of(o) is Some,
    ensures
        pexpr(seq![Tok::Int(a), Tok::Op(o), Tok::Int(b)], 0, 0) == Ok::<(ExprV, int), crate::expr::ExprErr>(
            (binary(number(a), operator_of(o)->0, number(b)), 3),
        ),
{
    let ts = seq![Tok::Int(a), Tok::Op(o), Tok::Int(b)];
    let op = operator_of(o)->0;
    let (_, l, r) = crate::expr::binop(ts[1])->0;
    assert(crate::expr::ploop(ts, 3, number(b), r) == Ok::<(ExprV, int), crate::expr::ExprErr>((number(b), 3)));
    assert(crate::expr::pexpr(ts, 2, r) == Ok::<(ExprV, int), crate::expr::ExprErr>((number(b), 3)));
    assert(crate::expr::ploop(ts, 3, binary(number(a), op, number(b)), 0) == Ok::<(ExprV, int), crate::expr::ExprErr>(
        (binary(number(a), op, number(b)), 3),
    ));
    assert(crate::expr::ploop(ts, 1, number(a), 0) == Ok::<(ExprV, int), crate::expr::ExprErr>(
        (binary(number(a), op, number(b)), 3),
    ));
}

/// In `a OP1 b OP2 c`, the operator that binds more tightly takes `b`; of
/// two operators that bind equally, the left one does (operators of equal
/// precedence associate to the left: `10 - 3 - 2` is `(10 - 3) - 2`).
pub proof fn law_operator_grouping(a: i64, o1: OpSym, b: i64, o2: OpSym, c: i64)
    requires
        operator_of(o1) is Some,
        operator_of(o2) is Some,
    ensures
        pexpr(seq![Tok::Int(a), Tok::Op(o1), Tok::Int(b), Tok::Op(o2), Tok::Int(c)], 0, 0) == Ok::<(ExprV, int), crate::expr::ExprErr>(
            (
                if precedence(operator_of(o2)->0) > precedence(operator_of(o1)->0) {
                    binary(number(a), operator_of(o1)->0, binary(number(b), operator_of(o2)->0, number(c)))
                } else {
                    binary(binary(number(a), operator_of(o1)->0, number(b)), operator_of(o2)->0, number(c))
                },
                5,
            ),
        ),
{
    let ts = seq![Tok::Int(a), Tok::Op(o1), Tok::Int(b), Tok::Op(o2), Tok::Int(c)];
    let op1 = operator_of(o1)->0;
    let op2 = operator_of(o2)->0;
    let (_, l1, r1) = crate::expr::binop(ts[1])->0;
    let (_, l2, r2) = crate::expr::binop(ts[3])->0;
    assert(crate::expr::binop(ts[1]) == Some((op1, l1, r1)));
    assert(crate::expr::binop(ts[3]) == Some((op2, l2, r2)));
    assert(r1 == l1 + 1 && r2 == l2 + 1 && l1 >= 1 && l2 >= 1);
    assert((precedence(op2) > precedence(op1)) == (l2 >= r1));
    let x = number(a);
    let y = number(b);
    let z = number(c);
    assert(crate::expr::pexpr(ts, 4, r2) == Ok::<(ExprV, int), crate::expr::ExprErr>((z, 5)));
    if l2 >= r1 {
        assert(crate::expr::ploop(ts, 5, binary(y, op2, z), r1) == Ok::<(ExprV, int), crate::expr::ExprErr>((binary(y, op2, z), 5)));
        assert(crate::expr::ploop(ts, 3, y, r1) == Ok::<(ExprV, int), crate::expr::ExprErr>((binary(y, op2, z), 5)));
        assert(crate::expr::pexpr(ts, 2, r1) == Ok::<(ExprV, int), crate::expr::ExprErr>((binary(y, op2, z), 5)));
        assert(crate::expr::ploop(ts, 5, binary(x, op1, binary(y, op2, z)), 0) == Ok::<(ExprV, int), crate::expr::ExprErr>(
            (binary(x, op1, binary(y, op2, z)), 5),
        ));
        assert(crate::expr::ploop(ts, 1, x, 0) == Ok::<(ExprV, int), crate::expr::ExprErr>(
            (binary(x, op1, binary(y, op2, z)), 5),
        ));
    } else {
        assert(crate::expr::ploop(ts, 3, y, r1) == Ok::<(ExprV, int), crate::expr::ExprErr>((y, 3)));
        assert(crate::expr::pexpr(ts, 2, r1) == Ok::<(ExprV, int), crate::expr::ExprErr>((y, 3)));
        assert(crate::expr::ploop(ts, 5, binary(binary(x, op1, y), op2, z), 0) == Ok::<(ExprV, int), crate::expr::ExprErr>(
            (binary(binary(x, op1, y), op2, z), 5),
        ));
        assert(crate::expr::ploop(ts, 3, binary(x, op1, y), 0) == Ok::<(ExprV, int), crate::expr::ExprErr>(
            (binary(binary(x, op1, y), op2, z), 5),
        ));
        assert(crate::expr::ploop(ts, 1, x, 0) == Ok::<(ExprV, int), crate::expr::ExprErr>(
            (binary(binary(x, op1, y), op2, z), 5),
        ));
    }
}

// ---------------------------------------------------------------------------
// Print lines
// ---------------------------------------------------------------------------

/// What a print instruction prints and whether it ends the line.
pub open spec fn printed(i: Instr) -> Option<(Seq<char>, bool)> {
    match i {
        Instr::Print { text, newline } => Some((text, newline)),
        Instr::PrintForm { text, newline } => Some((text, newline)),
        Instr::PrintExpr { expr, newline } => Some((expr, newline)),
        _ => None,
    }
}

/// The same print instruction, ending the line or not.
pub open spec fn ending_line(i: Instr, newline: bool) -> Instr {
    match i {
        Instr::Print { text, .. } => Instr::Print { text, newline },
        Instr::PrintForm { text, .. } => Instr::PrintForm { text, newline },
        Instr::PrintExpr { expr, .. } => Instr::PrintExpr { expr, newline },
        _ => i,
    }
}

/// `PRINT`, `PRINTFORM` and `PRINTS` print the rest of the line (as text,
/// as a form, as an expression) without ending the line; the same keyword
/// with a final `L` prints the same way and ends the line.
pub proof fn law_print_keywords(line: Seq<char>, rest: Seq<char>, base: Seq<char>)
    requires
        base == "PRINT"@ || base == "PRINTFORM"@ || base == "PRINTS"@,
    ensures
        printed(keyword_instr(line, base, rest)) == Some((rest, false)),
        keyword_instr(line, base + "L"@, rest) == ending_line(keyword_instr(line, base, rest), true),
        base == "PRINT"@ ==> keyword_instr(line, base, rest) is Print,
        base == "PRINTFORM"@ ==> keyword_instr(line, base, rest) is PrintForm,
        base == "PRINTS"@ ==> keyword_instr(line, base, rest) is PrintExpr,
{
    reveal_strlit("PRINT");
    reveal_strlit("PRINTL");
    reveal_strlit("PRINTFORM");
    reveal_strlit("PRINTFORML");
    reveal_strlit("PRINTS");
    reveal_strlit("PRINTSL");
    reveal_strlit("L");
    assert("PRINT"@ + "L"@ =~= "PRINTL"@);
    assert("PRINTFORM"@ + "L"@ =~= "PRINTFORML"@);
    assert("PRINTS"@ + "L"@ =~= "PRINTSL"@);
    assert("PRINT"@ != "PRINTL"@);
    assert("PRINTFORM"@ != "PRINTL"@ && "PRINTFORM"@ != "PRINT"@ && "PRINTFORM"@ != "PRINTFORML"@);
    assert("PRINTS"@[5] != "PRINTL"@[5]);
    assert("PRINTS"@ != "PRINTL"@ && "PRINTS"@ != "PRINT"@ && "PRINTS"@ != "PRINTFORML"@
        && "PRINTS"@ != "PRINTFORM"@ && "PRINTS"@ != "PRINTSL"@);
    assert("PRINTFORML"@ != "PRINTL"@ && "PRINTFORML"@ != "PRINT"@);
    assert("PRINTSL"@ != "PRINTL"@ && "PRINTSL"@ != "PRINT"@ && "PRINTSL"@ != "PRINTFORML"@
        && "PRINTSL"@ != "PRINTFORM"@);
}

/// The width of one character: Latin-1 (`U+0000..=U+00FF`), half-width
/// katakana (`U+FF61..=U+FF9F`) and half-width symbols (`U+FFE8..=U+FFEE`)
/// take one column; every other character, kana and kanji among them, takes
/// two.
pub proof fn law_character_width(c: char)
    ensures
        columns(seq![c]) == if (c as u32) < 0x100 || (0xff61 <= (c as u32) && (c as u32) <= 0xff9f)
            || (0xffe8 <= (c as u32) && (c as u32) <= 0xffee) {
            1nat
        } else {
            2nat
        },
        0x3040 <= (c as u32) <= 0x9fff ==> columns(seq![c]) == 2,
{
    assert(seq![c].drop_last() =~= Seq::<char>::empty());
    assert(columns(Seq::<char>::empty()) == 0);
    assert(seq![c].last() == c);
    assert(columns(seq![c]) == columns(Seq::<char>::empty()) + if half_width(c) {
        1nat
    } else {
        2nat
    });
}

// ---------------------------------------------------------------------------
// Other lines of the machine
// ---------------------------------------------------------------------------

/// The line after `c`, everything else kept.
pub open spec fn next_line(c: Cursor) -> Cursor {
    Cursor { pc: c.pc + 1, ..c }
}

/// A line in this position runs: no `SIF` skips it and every open `IF`
/// block is in its active branch.
pub open spec fn runs_here(c: Cursor) -> bool {
    !c.skip && crate::vm::all_active(c.ifs)
}

/// `out2` is `out` after printing `text`: a new line when the print ends
/// the line or there is no line yet, else `text` added to the last line.
pub open spec fn shows(out: Seq<Seq<char>>, text: Seq<char>, newline: bool, out2: Seq<Seq<char>>) -> bool {
    if newline || out.len() == 0 {
        &&& out2.len() == out.len() + 1
        &&& out2.take(out.len() as int) == out
        &&& out2.last() == text
    } else {
        &&& out2.len() == out.len()
        &&& out2.take(out.len() - 1) == out.take(out.len() - 1)
        &&& out2.last() == out.last() + text
    }
}

/// `PRINT TEXT` and `PRINTL TEXT` show the text as written, `PRINTS EXPR`
/// shows the value of the expression, `PRINTFORM` the rendered form; the
/// `L` forms end the line.  Variables and input stay as they are.
pub proof fn law_print_shows_text(
    tables: Map<Seq<char>, NameTableView>,
    labels: Map<Seq<char>, usize>,
    c: Cursor,
    vm: VmState,
    file: Seq<char>,
    line: ScriptLine,
)
    requires
        runs_here(c),
        instr_of(line.text@) is Print || instr_of(line.text@) is PrintForm || (instr_of(line.text@) is PrintExpr
            && eval_value_spec(tables, vm.variables, instr_of(line.text@)->PrintExpr_expr) is Ok),
    ensures
        step_spec(tables, labels, c, vm, file, line) matches Flow::Go(c2, vm2) && {
            &&& c2 == next_line(c)
            &&& vm2.variables == vm.variables
            &&& vm2.inputs == vm.inputs
            &&& match instr_of(line.text@) {
                Instr::Print { text, newline } => shows(vm.output, text, newline, vm2.output),
                Instr::PrintForm { text, newline } => shows(
                    vm.output,
                    render_form_spec(tables, vm.variables, text),
                    newline,
                    vm2.output,
                ),
                Instr::PrintExpr { expr, newline } => shows(
                    vm.output,
                    display(eval_value_spec(tables, vm.variables, expr)->Ok_0),
                    newline,
                    vm2.output,
                ),
                _ => false,
            }
        },
{
    reveal(step_spec);
    assert(c == Cursor { skip: false, ..c });
    let out = vm.output;
    let t = match instr_of(line.text@) {
        Instr::Print { text, .. } => text,
        Instr::PrintForm { text, .. } => render_form_spec(tables, vm.variables, text),
        Instr::PrintExpr { expr, .. } => display(eval_value_spec(tables, vm.variables, expr)->Ok_0),
        _ => seq![],
    };
    if out.len() > 0 {
        assert(out.update(out.len() - 1, out.last() + t).take(out.len() - 1) =~= out.take(
            out.len() - 1,
        ));
    }
    assert(out.push(t).take(out.len() as int) =~= out);
}

/// `TARGET = EXPR` stores the value of the expression at the target and
/// changes nothing else.
pub proof fn law_assignment_stores_value(
    tables: Map<Seq<char>, NameTableView>,
    labels: Map<Seq<char>, usize>,
    c: Cursor,
    vm: VmState,
    file: Seq<char>,
    line: ScriptLine,
    target: Seq<char>,
    expr: Seq<char>,
    a: (Seq<char>, Seq<i64>),
    v: Val,
)
    requires
        runs_here(c),
        instr_of(line.text@) == (Instr::Assign { target, expr }),
        resolve_spec(tables, vm.variables, target) == Some(a),
        eval_value_spec(tables, vm.variables, expr) == Ok::<Val, crate::expr::ExprErr>(v),
    ensures
        step_spec(tables, labels, c, vm, file, line) matches Flow::Go(c2, vm2) && {
            &&& c2 == next_line(c)
            &&& store_get(vm2.variables, a) == v
            &&& forall|b: (Seq<char>, Seq<i64>)| b != a ==> store_get(vm2.variables, b) == store_get(vm.variables, b)
            &&& vm2.inputs == vm.inputs
            &&& vm2.output == vm.output
        },
{
    reveal(step_spec);
    assert(c == Cursor { skip: false, ..c });
}

/// `INPUT` takes the first queued input into `RESULT` (`INPUTS` into
/// `RESULTS`) and leaves the rest queued; with nothing queued the run stops
/// for input and nothing changes.
pub proof fn law_input_takes_first_queued(
    tables: Map<Seq<char>, NameTableView>,
    labels: Map<Seq<char>, usize>,
    c: Cursor,
    vm: VmState,
    file: Seq<char>,
    line: ScriptLine,
    string: bool,
)
    requires
        runs_here(c),
        instr_of(line.text@) == (Instr::Input { string }),
    ensures
        vm.inputs.len() == 0 ==> step_spec(tables, labels, c, vm, file, line) == Flow::Halt(vm, Stop::NeedInput),
        vm.inputs.len() > 0 ==> (step_spec(tables, labels, c, vm, file, line) matches Flow::Go(c2, vm2) && {
            &&& c2 == next_line(c)
            &&& store_get(vm2.variables, (if string { "RESULTS"@ } else { "RESULT"@ }, seq![])) == vm.inputs[0]
            &&& vm2.inputs == vm.inputs.subrange(1, vm.inputs.len() as int)
            &&& vm2.output == vm.output
        }),
{
    reveal(step_spec);
    assert(c == Cursor { skip: false, ..c });
    assert(vm.inputs.drop_first() =~= vm.inputs.subrange(1, vm.inputs.len() as int));
}

/// `GOTO LABEL` goes on at the line of the label and changes nothing else.
pub proof fn law_goto_jumps_to_label(
    tables: Map<Seq<char>, NameTableView>,
    labels: Map<Seq<char>, usize>,
    c: Cursor,
    vm: VmState,
    file: Seq<char>,
    line: ScriptLine,
    label: Seq<char>,
)
    requires
        runs_here(c),
        instr_of(line.text@) == Instr::Goto(label),
        labels.contains_key(label),
    ensures
        step_spec(tables, labels, c, vm, file, line) == Flow::Go(Cursor { pc: labels[label] as int, ..c }, vm),
{
    reveal(step_spec);
    assert(c == Cursor { skip: false, ..c });
}

/// `IF COND` opens a block whose lines run exactly when the condition
/// holds; an `ELSE` right after it turns that around, and `ENDIF` closes
/// the block.  None of them changes a variable or the output.
pub proof fn law_if_else_selects_branch(
    tables: Map<Seq<char>, NameTableView>,
    labels: Map<Seq<char>, usize>,
    c: Cursor,
    vm: VmState,
    file: Seq<char>,
    if_line: ScriptLine,
    else_line: ScriptLine,
    endif_line: ScriptLine,
    cond: Seq<char>,
)
    requires
        runs_here(c),
        instr_of(if_line.text@) == Instr::If(cond),
        instr_of(else_line.text@) == Instr::Else,
        instr_of(endif_line.text@) == Instr::EndIf,
    ensures
        step_spec(tables, labels, c, vm, file, if_line) matches Flow::Go(c2, vm2) && {
            &&& vm2 == vm
            &&& c2.pc == c.pc + 1
            &&& runs_here(c2) == crate::vm::holds(tables, vm, cond)
            &&& step_spec(tables, labels, c2, vm, file, else_line) matches Flow::Go(c3, vm3) && {
                &&& vm3 == vm
                &&& runs_here(c3) == !crate::vm::holds(tables, vm, cond)
                &&& step_spec(tables, labels, c3, vm, file, endif_line) matches Flow::Go(c4, vm4) && {
                    &&& vm4 == vm
                    &&& c4.ifs == c.ifs
                    &&& runs_here(c4)
                }
            }
            &&& step_spec(tables, labels, c2, vm, file, endif_line) matches Flow::Go(c5, vm5) && {
                &&& vm5 == vm
                &&& c5.ifs == c.ifs
            }
        },
{
    reveal(step_spec);
    let h = crate::vm::holds(tables, vm, cond);
    let ifs2 = c.ifs.push((true, h, h));
    let ifs3 = ifs2.update(ifs2.len() - 1, (true, !h, true));
    assert(ifs2.drop_last() =~= c.ifs);
    assert(ifs3.drop_last() =~= c.ifs);
    assert(!h ==> !crate::vm::all_active(ifs2)) by {
        if !h {
            assert(!ifs2[ifs2.len() - 1].1);
        }
    }
    assert(h ==> !crate::vm::all_active(ifs3)) by {
        if h {
            assert(!ifs3[ifs3.len() - 1].1);
        }
    }
    assert(h ==> crate::vm::all_active(ifs2)) by {
        if h {
            assert forall|i: int| 0 <= i < ifs2.len() implies (#[trigger] ifs2[i]).1 by {
                if i < c.ifs.len() {
                    assert(ifs2[i] == c.ifs[i]);
                }
            }
        }
    }
    assert(!h ==> crate::vm::all_active(ifs3)) by {
        if !h {
            assert forall|i: int| 0 <= i < ifs3.len() implies (#[trigger] ifs3[i]).1 by {
                if i < c.ifs.len() {
                    assert(ifs3[i] == c.ifs[i]);
                }
            }
        }
    }
}

/// `SIF COND` skips the next line exactly when the condition does not
/// hold; a skipped line changes nothing.
pub proof fn law_sif_skips_next_line(
    tables: Map<Seq<char>, NameTableView>,
    labels: Map<Seq<char>, usize>,
    c: Cursor,
    vm: VmState,
    file: Seq<char>,
    sif_line: ScriptLine,
    next: ScriptLine,
    cond: Seq<char>,
)
    requires
        runs_here(c),
        instr_of(sif_line.text@) == Instr::SIf(cond),
        !crate::vm::skip_exempt(instr_of(next.text@)),
    ensures
        step_spec(tables, labels, c, vm, file, sif_line) matches Flow::Go(c2, vm2) && {
            &&& vm2 == vm
            &&& c2.pc == c.pc + 1
            &&& c2.ifs == c.ifs
            &&& c2.skip == !crate::vm::holds(tables, vm, cond)
            &&& c2.skip ==> step_spec(tables, labels, c2, vm, file, next) == Flow::Go(
                Cursor { pc: c2.pc + 1, skip: false, ..c2 },
                vm,
            )
        },
{
    reveal(step_spec);
}

/// `FOR VAR, START, END` sets the variable to the start and remembers the
/// end and the first line of the body.
pub proof fn law_for_starts_loop(
    tables: Map<Seq<char>, NameTableView>,
    labels: Map<Seq<char>, usize>,
    c: Cursor,
    vm: VmState,
    file: Seq<char>,
    line: ScriptLine,
    variable: Seq<char>,
    start: Seq<char>,
    end: Seq<char>,
    first: i64,
    last: i64,
    a: (Seq<char>, Seq<i64>),
)
    requires
        runs_here(c),
        instr_of(line.text@) == (Instr::For { variable, start, end }),
        crate::vm::eval_int_spec(tables, vm.variables, start) == Ok::<i64, crate::expr::ExprErr>(first),
        crate::vm::eval_int_spec(tables, vm.variables, end) == Ok::<i64, crate::expr::ExprErr>(last),
        resolve_spec(tables, vm.variables, variable) == Some(a),
    ensures
        step_spec(tables, labels, c, vm, file, line) matches Flow::Go(c2, vm2) && {
            &&& c2.pc == c.pc + 1
            &&& c2.fors == c.fors.push((variable, last, c.pc + 1))
            &&& store_get(vm2.variables, a) == Val::Int(first)
            &&& vm2.output == vm.output
        },
{
    reveal(step_spec);
    assert(c == Cursor { skip: false, ..c });
}

/// `NEXT` adds one to the loop variable and goes back to the first line of
/// the body while the variable stays below the end; otherwise it leaves the
/// loop and changes nothing.
pub proof fn law_next_counts_up(
    tables: Map<Seq<char>, NameTableView>,
    labels: Map<Seq<char>, usize>,
    c: Cursor,
    vm: VmState,
    file: Seq<char>,
    line: ScriptLine,
    a: (Seq<char>, Seq<i64>),
)
    requires
        runs_here(c),
        instr_of(line.text@) == Instr::Next,
        c.fors.len() > 0,
        resolve_spec(tables, vm.variables, c.fors.last().0) == Some(a),
    ensures
        step_spec(tables, labels, c, vm, file, line) matches Flow::Go(c2, vm2) && if one_more(
            as_int(store_get(vm.variables, a)),
        ) < c.fors.last().1 {
            &&& c2.pc == c.fors.last().2
            &&& c2.fors == c.fors
            &&& store_get(vm2.variables, a) == Val::Int(one_more(as_int(store_get(vm.variables, a))))
            &&& vm2.output == vm.output
        } else {
            &&& c2.pc == c.pc + 1
            &&& c2.fors == c.fors.drop_last()
            &&& vm2 == vm
        },
{
    reveal(step_spec);
    assert(c == Cursor { skip: false, ..c });
    let x = as_int(store_get(vm.variables, a));
    assert(crate::expr::wrap_add(x, 1) == one_more(x));
}

/// `==` and `!=` compare whole values; `&&` and `||` give 1 or 0 by the
/// truth of their operands; `+` on two texts joins them.
pub proof fn law_equality_logic_and_joining(x: Val, y: Val, s: Seq<char>, t: Seq<char>)
    ensures
        eval_binary_spec(x, BinaryOp::Eq, y) == Ok::<Val, crate::expr::ExprErr>(Val::Int(if x == y { 1 } else { 0 })),
        eval_binary_spec(x, BinaryOp::Ne, y) == Ok::<Val, crate::expr::ExprErr>(Val::Int(if x == y { 0 } else { 1 })),
        eval_binary_spec(x, BinaryOp::And, y) == Ok::<Val, crate::expr::ExprErr>(
            Val::Int(if as_bool(x) && as_bool(y) { 1 } else { 0 }),
        ),
        eval_binary_spec(x, BinaryOp::Or, y) == Ok::<Val, crate::expr::ExprErr>(
            Val::Int(if as_bool(x) || as_bool(y) { 1 } else { 0 }),
        ),
        eval_binary_spec(Val::Str(s), BinaryOp::Add, Val::Str(t)) == Ok::<Val, crate::expr::ExprErr>(Val::Str(s + t)),
{
}

/// `&&` with a false left operand is 0 and `||` with a true one is 1,
/// whatever the right operand is, even one that fails; `-x` is the negated
/// number; `c ? a # b` is the value of `a` when `c` is true, else of `b`.
pub proof fn law_short_circuit_and_conditional(
    l: ExprV,
    r: ExprV,
    other: ExprV,
    tables: Map<Seq<char>, NameTableView>,
    store: Map<(Seq<char>, Seq<i64>), Val>,
    x: i64,
)
    requires
        eval_spec(l, tables, store) is Ok,
    ensures
        !as_bool(eval_spec(l, tables, store)->Ok_0) ==> eval_spec(binary(l, BinaryOp::And, r), tables, store)
            == Ok::<Val, crate::expr::ExprErr>(Val::Int(0)),
        as_bool(eval_spec(l, tables, store)->Ok_0) ==> eval_spec(binary(l, BinaryOp::Or, r), tables, store)
            == Ok::<Val, crate::expr::ExprErr>(Val::Int(1)),
        x != i64::MIN ==> eval_spec(ExprV::Unary { op: UnaryOp::Neg, rhs: Box::new(number(x)) }, tables, store)
            == Ok::<Val, crate::expr::ExprErr>(Val::Int((-x) as i64)),
        eval_spec(ExprV::Conditional { condition: Box::new(l), then_expr: Box::new(r), else_expr: Box::new(other) }, tables, store)
            == if as_bool(eval_spec(l, tables, store)->Ok_0) {
            eval_spec(r, tables, store)
        } else {
            eval_spec(other, tables, store)
        },
{
    assert(eval_spec(number(x), tables, store) == Ok::<Val, crate::expr::ExprErr>(Val::Int(x)));
    assert(as_int(Val::Int(x)) == x);
    if x != i64::MIN {
        assert(crate::expr::wrap_sub(0, x) == (-x) as i64);
    }
}

/// A line `TARGET--` decrements the target and `TARGET++` increments it.
pub proof fn law_mutation_lines(target: Seq<char>)
    requires
        target.len() > 0,
        !crate::text::is_ws(target[0]),
    ensures
        mutation(target + "--"@) == Some(Instr::Dec(trim(target))),
        mutation(target + "++"@) == Some(Instr::Inc(trim(target))),
{
    reveal_strlit("--");
    reveal_strlit("++");
    let d = target + "--"@;
    let i = target + "++"@;
    assert(d[0] == target[0] && i[0] == target[0]);
    assert(trim_start(d) == d);
    assert(trim_start(i) == i);
    lemma_trim_end_fixed(d);
    lemma_trim_end_fixed(i);
    assert(d.take(d.len() - 2) =~= target);
    assert(i.take(i.len() - 2) =~= target);
}

} // verus!
