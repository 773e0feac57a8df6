//! The interactive console: what a typed line asks for, and the texts it
//! prints about a run.
use vstd::prelude::*;

use crate::csv::{first_file_named, CsvCatalog};
use crate::runtime::{Val, Value};
use crate::text::{
    all_digits, chars_of, decimal, digit_of, digits_value, find_char, find_in, is_whitespace,
    is_ws, lemma_digits_value_prefix, lemma_find_char, parse_i64,
    parse_i64_str, push_str, string_of, trim, trim_bounds, trim_end,
};
use crate::vm::{Stop, StopReason};

verus! {

// ---------------------------------------------------------------------------
// Words
// ---------------------------------------------------------------------------

/// Position of the first character from `i` on that is not white space.
pub open spec fn word_start(s: Seq<char>, i: int) -> int
    decreases s.len() - i,
{
    if i < 0 || i >= s.len() {
        s.len() as int
    } else if !is_ws(s[i]) {
        i
    } else {
        word_start(s, i + 1)
    }
}

/// Position of the first white space from `i` on.
pub open spec fn word_end(s: Seq<char>, i: int) -> int
    decreases s.len() - i,
{
    if i < 0 || i >= s.len() {
        s.len() as int
    } else if is_ws(s[i]) {
        i
    } else {
        word_end(s, i + 1)
    }
}

pub proof fn lemma_word_bounds(s: Seq<char>, i: int)
    requires
        0 <= i <= s.len(),
    ensures
        i <= word_start(s, i) <= s.len(),
        i <= word_end(s, i) <= s.len(),
        word_start(s, i) < s.len() ==> word_start(s, i) < word_end(s, word_start(s, i)),
    decreases s.len() - i,
{
    if i < s.len() {
        lemma_word_bounds(s, i + 1);
        let a = word_start(s, i);
        if a < s.len() && a > i {
            lemma_word_bounds(s, a);
        }
    }
}

/// `str::split_whitespace` from position `i`: the maximal runs of
/// characters that are not white space.
pub open spec fn words_from(s: Seq<char>, i: int) -> Seq<Seq<char>>
    decreases s.len() - i,
{
    if i < 0 || i >= s.len() {
        seq![]
    } else {
        let a = word_start(s, i);
        if a >= s.len() {
            seq![]
        } else {
            let e = word_end(s, a);
            proof {
                lemma_word_bounds(s, i);
                lemma_word_bounds(s, a);
            }
            seq![s.subrange(a, e)] + words_from(s, e)
        }
    }
}

pub open spec fn words(s: Seq<char>) -> Seq<Seq<char>> {
    words_from(s, 0)
}

fn split_words(v: &Vec<char>) -> (r: Vec<String>)
    ensures
        r@.map_values(|w: String| w@) == words(v@),
{
    let mut out: Vec<String> = Vec::new();
    let mut i: usize = 0;
    let n = v.len();
    while i < n
        invariant
            0 <= i <= n,
            n == v@.len(),
            out@.map_values(|w: String| w@) + words_from(v@, i as int) == words(v@),
        decreases n - i,
    {
        proof {
            lemma_word_bounds(v@, i as int);
        }
        let mut a = i;
        while a < n && is_whitespace(v[a])
            invariant
                i <= a <= n,
                n == v@.len(),
                word_start(v@, a as int) == word_start(v@, i as int),
            decreases n - a,
        {
            a += 1;
        }
        if a == n {
            assert(words_from(v@, i as int) =~= Seq::<Seq<char>>::empty());
            i = n;
        } else {
            let mut e = a;
            while e < n && !is_whitespace(v[e])
                invariant
                    a <= e <= n,
                    n == v@.len(),
                    word_end(v@, e as int) == word_end(v@, a as int),
                decreases n - e,
            {
                e += 1;
            }
            let w = string_of(v, a, e);
            let ghost before = out@.map_values(|w: String| w@);
            out.push(w);
            assert(out@.map_values(|w: String| w@) =~= before.push(v@.subrange(a as int, e as int)));
            assert(before + words_from(v@, i as int) =~= before.push(v@.subrange(a as int, e as int))
                + words_from(v@, e as int));
            i = e;
        }
    }
    assert(words_from(v@, n as int) =~= Seq::<Seq<char>>::empty());
    assert(out@.map_values(|w: String| w@) + Seq::<Seq<char>>::empty() =~= out@.map_values(
        |w: String| w@,
    ));
    out
}

/// `str::parse::<usize>`: an optional `+`, then at least one ASCII digit,
/// and a value that fits in `usize`.
pub open spec fn parse_usize(s: Seq<char>) -> Option<usize> {
    let body = if s.len() > 0 && s[0] == '+' {
        s.drop_first()
    } else {
        s
    };
    if body.len() == 0 || !all_digits(body) || digits_value(body) > usize::MAX {
        None
    } else {
        Some(digits_value(body) as usize)
    }
}

fn parse_usize_str(s: &str) -> (r: Option<usize>)
    ensures
        r == parse_usize(s@),
{
    let v = chars_of(s);
    let n = v.len();
    let start: usize = if n > 0 && v[0] == '+' {
        1
    } else {
        0
    };
    let ghost body = v@.subrange(start as int, n as int);
    assert(start == 1 ==> body =~= v@.drop_first());
    assert(start == 0 ==> body =~= v@);
    if start == n {
        return None;
    }
    let mut value: usize = 0;
    let mut i = start;
    while i < n
        invariant
            start <= i <= n,
            n == v@.len(),
            body == v@.subrange(start as int, n as int),
            v@ == s@,
            body == (if s@.len() > 0 && s@[0] == '+' {
                s@.drop_first()
            } else {
                s@
            }),
            start < n,
            all_digits(v@.subrange(start as int, i as int)),
            value == digits_value(v@.subrange(start as int, i as int)),
        decreases n - i,
    {
        let c = v[i];
        if !('0' <= c && c <= '9') {
            assert(!all_digits(body)) by {
                assert(body[i - start] == c);
            }
            return None;
        }
        let ghost prefix = v@.subrange(start as int, i + 1);
        assert(prefix.drop_last() =~= v@.subrange(start as int, i as int));
        assert(prefix.last() == c);
        let d = digit_of(c) as usize;
        if value > (usize::MAX - d) / 10 {
            assert(value * 10 + d > usize::MAX) by (nonlinear_arith)
                requires
                    value > (usize::MAX - d) / 10,
                    d <= 9,
            ;
            proof {
                assert forall|j: int| 0 <= j < prefix.len() implies crate::text::is_digit(
                    #[trigger] prefix[j],
                ) by {
                    if j < prefix.len() - 1 {
                        assert(prefix[j] == v@.subrange(start as int, i as int)[j]);
                    }
                }
                let rest = v@.subrange(start as int, n as int);
                let all_ok = all_digits(rest);
                if all_ok {
                    lemma_digits_value_prefix(rest, i + 1 - start);
                    assert(rest.take(i + 1 - start) =~= prefix);
                }
            }
            return None;
        }
        assert(value * 10 + d <= usize::MAX) by (nonlinear_arith)
            requires
                value <= (usize::MAX - d) / 10,
                d <= 9,
        ;
        value = value * 10 + d;
        assert forall|j: int| 0 <= j < prefix.len() implies crate::text::is_digit(
            #[trigger] prefix[j],
        ) by {
            if j < prefix.len() - 1 {
                assert(prefix[j] == v@.subrange(start as int, i as int)[j]);
            }
        }
        i += 1;
    }
    Some(value)
}

/// `str::trim_start_matches` with a text pattern: every leading copy of `p`
/// removed.
pub open spec fn strip_all(s: Seq<char>, p: Seq<char>) -> Seq<char>
    decreases s.len(),
{
    if p.len() > 0 && s.len() >= p.len() && s.take(p.len() as int) == p {
        strip_all(s.skip(p.len() as int), p)
    } else {
        s
    }
}

fn strip_all_of(v: &Vec<char>, p: &str) -> (r: usize)
    ensures
        r <= v.len(),
        v@.skip(r as int) == strip_all(v@, p@),
{
    let pv = chars_of(p);
    let m = pv.len();
    let mut i: usize = 0;
    assert(v@.skip(0) =~= v@);
    if m == 0 {
        return 0;
    }
    while m <= v.len() - i && crate::text::range_eq(v, i, i + m, p)
        invariant
            0 <= i <= v.len(),
            m == p@.len(),
            m > 0,
            strip_all(v@.skip(i as int), p@) == strip_all(v@, p@),
        decreases v.len() - i,
    {
        assert(v@.skip(i as int).take(m as int) =~= v@.subrange(i as int, i + m));
        assert(v@.skip(i as int).skip(m as int) =~= v@.skip(i + m));
        i += m;
    }
    if m <= v.len() - i {
        assert(v@.skip(i as int).take(m as int) =~= v@.subrange(i as int, i + m));
    }
    i
}

// ---------------------------------------------------------------------------
// Commands
// ---------------------------------------------------------------------------

/// What a line typed at the console asks for.
#[derive(Debug, Clone, PartialEq, Eq)]
pub enum ConsoleCommand {
    Quit,
    Help,
    Clear,
    Paths,
    Scan,
    Functions,
    Find(String),
    Parse(String),
    Run { name: String, limit: usize },
    RunUsage,
    RunWith { name: String, inputs: Vec<String> },
    RunWithUsage,
    Name { table: String, name: String },
    NameUsage,
    VarSet { address: String, value: String },
    VarShow(String),
    Eval(String),
    Empty,
    Unknown(String),
}

/// The model of a console command.
pub enum Cmd {
    Quit,
    Help,
    Clear,
    Paths,
    Scan,
    Functions,
    Find(Seq<char>),
    Parse(Seq<char>),
    Run { name: Seq<char>, limit: usize },
    RunUsage,
    RunWith { name: Seq<char>, inputs: Seq<Seq<char>> },
    RunWithUsage,
    Name { table: Seq<char>, name: Seq<char> },
    NameUsage,
    VarSet { address: Seq<char>, value: Seq<char> },
    VarShow(Seq<char>),
    Eval(Seq<char>),
    Empty,
    Unknown(Seq<char>),
}

impl View for ConsoleCommand {
    type V = Cmd;

    open spec fn view(&self) -> Cmd {
        match self {
            ConsoleCommand::Quit => Cmd::Quit,
            ConsoleCommand::Help => Cmd::Help,
            ConsoleCommand::Clear => Cmd::Clear,
            ConsoleCommand::Paths => Cmd::Paths,
            ConsoleCommand::Scan => Cmd::Scan,
            ConsoleCommand::Functions => Cmd::Functions,
            ConsoleCommand::Find(n) => Cmd::Find(n@),
            ConsoleCommand::Parse(n) => Cmd::Parse(n@),
            ConsoleCommand::Run { name, limit } => Cmd::Run { name: name@, limit: *limit },
            ConsoleCommand::RunUsage => Cmd::RunUsage,
            ConsoleCommand::RunWith { name, inputs } => Cmd::RunWith {
                name: name@,
                inputs: inputs@.map_values(|w: String| w@),
            },
            ConsoleCommand::RunWithUsage => Cmd::RunWithUsage,
            ConsoleCommand::Name { table, name } => Cmd::Name { table: table@, name: name@ },
            ConsoleCommand::NameUsage => Cmd::NameUsage,
            ConsoleCommand::VarSet { address, value } => Cmd::VarSet {
                address: address@,
                value: value@,
            },
            ConsoleCommand::VarShow(e) => Cmd::VarShow(e@),
            ConsoleCommand::Eval(e) => Cmd::Eval(e@),
            ConsoleCommand::Empty => Cmd::Empty,
            ConsoleCommand::Unknown(s) => Cmd::Unknown(s@),
        }
    }
}

pub open spec fn has_prefix(s: Seq<char>, p: Seq<char>) -> bool {
    s.len() >= p.len() && s.take(p.len() as int) == p
}

/// `:run NAME [STEPS]`: at most `STEPS` lines, 200 when the count is
/// missing or not a number.
pub open spec fn run_command(rest: Seq<char>) -> Cmd {
    let w = words(rest);
    if w.len() == 0 {
        Cmd::RunUsage
    } else {
        let limit = if w.len() >= 2 {
            match parse_usize(w[1]) {
                Some(n) => n,
                None => 200,
            }
        } else {
            200
        };
        Cmd::Run { name: w[0], limit }
    }
}

/// `:run-with NAME INPUT...`.
pub open spec fn run_with_command(rest: Seq<char>) -> Cmd {
    let w = words(rest);
    if w.len() == 0 {
        Cmd::RunWithUsage
    } else {
        Cmd::RunWith { name: w[0], inputs: w.drop_first() }
    }
}

/// `:name TABLE NAME`: split at the first space.
pub open spec fn name_command(rest: Seq<char>) -> Cmd {
    match find_char(rest, ' ') {
        None => Cmd::NameUsage,
        Some(i) => if i == 0 || i + 1 == rest.len() {
            Cmd::NameUsage
        } else {
            Cmd::Name { table: rest.take(i), name: rest.skip(i + 1) }
        },
    }
}

/// `:var ADDRESS=VALUE` sets, `:var ADDRESS` shows.
pub open spec fn var_command(rest: Seq<char>) -> Cmd {
    let e = trim(rest);
    match find_char(e, '=') {
        Some(i) => Cmd::VarSet { address: trim(e.take(i)), value: trim(e.skip(i + 1)) },
        None => Cmd::VarShow(e),
    }
}

/// The command a console line asks for; the line loses its trailing white
/// space first, and an argument loses every leading copy of its command.
pub open spec fn console_command(line: Seq<char>) -> Cmd {
    let l = trim_end(line);
    if l == ":q"@ || l == ":quit"@ {
        Cmd::Quit
    } else if l == ":help"@ {
        Cmd::Help
    } else if l == ":clear"@ {
        Cmd::Clear
    } else if l == ":paths"@ {
        Cmd::Paths
    } else if l == ":scan"@ {
        Cmd::Scan
    } else if l == ":functions"@ {
        Cmd::Functions
    } else if has_prefix(l, ":find "@) {
        Cmd::Find(trim(strip_all(l, ":find "@)))
    } else if has_prefix(l, ":parse "@) {
        Cmd::Parse(trim(strip_all(l, ":parse "@)))
    } else if has_prefix(l, ":run "@) {
        run_command(strip_all(l, ":run "@))
    } else if has_prefix(l, ":run-with "@) {
        run_with_command(strip_all(l, ":run-with "@))
    } else if has_prefix(l, ":name "@) {
        name_command(strip_all(l, ":name "@))
    } else if has_prefix(l, ":var "@) {
        var_command(strip_all(l, ":var "@))
    } else if has_prefix(l, ":eval "@) {
        Cmd::Eval(trim(strip_all(l, ":eval "@)))
    } else if l.len() == 0 {
        Cmd::Empty
    } else {
        Cmd::Unknown(l)
    }
}

fn has_prefix_of(v: &Vec<char>, p: &str) -> (r: bool)
    ensures
        r == has_prefix(v@, p@),
{
    let m = chars_of(p).len();
    if m > v.len() {
        return false;
    }
    let r = crate::text::range_eq(v, 0, m, p);
    assert(v@.subrange(0, m as int) =~= v@.take(m as int));
    r
}

/// The rest of the line after every leading copy of `p`.
fn rest_after(v: &Vec<char>, p: &str) -> (r: Vec<char>)
    ensures
        r@ == strip_all(v@, p@),
{
    let i = strip_all_of(v, p);
    let r = crate::text::sub_vec(v, i, v.len());
    assert(r@ =~= v@.skip(i as int));
    r
}

fn trimmed_string(v: &Vec<char>) -> (r: String)
    ensures
        r@ == trim(v@),
{
    let (a, b) = trim_bounds(v, 0, v.len());
    assert(v@.subrange(0, v.len() as int) =~= v@);
    string_of(v, a, b)
}

fn run_command_of(rest: &Vec<char>) -> (r: ConsoleCommand)
    ensures
        r@ == run_command(rest@),
{
    let w = split_words(rest);
    let ghost wv = w@.map_values(|x: String| x@);
    if w.len() == 0 {
        return ConsoleCommand::RunUsage;
    }
    let limit = if w.len() >= 2 {
        match parse_usize_str(w[1].as_str()) {
            Some(n) => n,
            None => 200,
        }
    } else {
        200
    };
    assert(wv[0] == w@[0]@);
    assert(w.len() >= 2 ==> wv[1] == w@[1]@);
    ConsoleCommand::Run { name: crate::text::copy_string(&w[0]), limit }
}

fn run_with_command_of(rest: &Vec<char>) -> (r: ConsoleCommand)
    ensures
        r@ == run_with_command(rest@),
{
    let mut w = split_words(rest);
    let ghost wv = w@.map_values(|x: String| x@);
    if w.len() == 0 {
        return ConsoleCommand::RunWithUsage;
    }
    let name = w.remove(0);
    assert(w@.map_values(|x: String| x@) =~= wv.drop_first());
    ConsoleCommand::RunWith { name, inputs: w }
}

fn name_command_of(rest: &Vec<char>) -> (r: ConsoleCommand)
    ensures
        r@ == name_command(rest@),
{
    let n = rest.len();
    assert(rest@.subrange(0, n as int) =~= rest@);
    match find_in(rest, 0, n, ' ') {
        None => ConsoleCommand::NameUsage,
        Some(i) => {
            proof {
                lemma_find_char(rest@, ' ');
            }
            if i == 0 || i + 1 == n {
                ConsoleCommand::NameUsage
            } else {
                assert(rest@.subrange(0, i as int) =~= rest@.take(i as int));
                assert(rest@.subrange(i + 1, n as int) =~= rest@.skip(i + 1));
                ConsoleCommand::Name { table: string_of(rest, 0, i), name: string_of(rest, i + 1, n) }
            }
        },
    }
}

fn var_command_of(rest: &Vec<char>) -> (r: ConsoleCommand)
    ensures
        r@ == var_command(rest@),
{
    let (a, b) = trim_bounds(rest, 0, rest.len());
    assert(rest@.subrange(0, rest.len() as int) =~= rest@);
    let e = crate::text::sub_vec(rest, a, b);
    let n = e.len();
    assert(e@.subrange(0, n as int) =~= e@);
    match find_in(&e, 0, n, '=') {
        Some(i) => {
            let (c, d) = trim_bounds(&e, 0, i);
            let (f, g) = trim_bounds(&e, i + 1, n);
            assert(e@.subrange(0, i as int) =~= e@.take(i as int));
            assert(e@.subrange(i + 1, n as int) =~= e@.skip(i + 1));
            ConsoleCommand::VarSet { address: string_of(&e, c, d), value: string_of(&e, f, g) }
        },
        None => ConsoleCommand::VarShow(string_of(&e, 0, n)),
    }
}

/// Reads one console line.
pub fn parse_console_command(line: &str) -> (r: ConsoleCommand)
    ensures
        r@ == console_command(line@),
{
    let v = chars_of(line);
    let n = v.len();
    assert(v@.subrange(0, n as int) =~= v@);
    let (_, end) = trim_bounds(&v, 0, n);
    let mut cut = n;
    while cut > 0 && is_whitespace(v[cut - 1])
        invariant
            0 <= cut <= n,
            n == v@.len(),
            trim_end(v@.subrange(0, cut as int)) == trim_end(v@),
        decreases cut,
    {
        assert(v@.subrange(0, cut - 1) =~= v@.subrange(0, cut as int).drop_last());
        cut -= 1;
    }
    let l = crate::text::sub_vec(&v, 0, cut);
    assert(cut > 0 ==> l@.last() == v@[cut - 1]);
    assert(trim_end(l@) == l@);
    let _ = end;
    if crate::text::range_eq(&l, 0, cut, ":q") || crate::text::range_eq(&l, 0, cut, ":quit") {
        assert(l@.subrange(0, cut as int) =~= l@);
        return ConsoleCommand::Quit;
    }
    assert(l@.subrange(0, cut as int) =~= l@);
    if crate::text::range_eq(&l, 0, cut, ":help") {
        ConsoleCommand::Help
    } else if crate::text::range_eq(&l, 0, cut, ":clear") {
        ConsoleCommand::Clear
    } else if crate::text::range_eq(&l, 0, cut, ":paths") {
        ConsoleCommand::Paths
    } else if crate::text::range_eq(&l, 0, cut, ":scan") {
        ConsoleCommand::Scan
    } else if crate::text::range_eq(&l, 0, cut, ":functions") {
        ConsoleCommand::Functions
    } else if has_prefix_of(&l, ":find ") {
        ConsoleCommand::Find(trimmed_string(&rest_after(&l, ":find ")))
    } else if has_prefix_of(&l, ":parse ") {
        ConsoleCommand::Parse(trimmed_string(&rest_after(&l, ":parse ")))
    } else if has_prefix_of(&l, ":run ") {
        run_command_of(&rest_after(&l, ":run "))
    } else if has_prefix_of(&l, ":run-with ") {
        run_with_command_of(&rest_after(&l, ":run-with "))
    } else if has_prefix_of(&l, ":name ") {
        name_command_of(&rest_after(&l, ":name "))
    } else if has_prefix_of(&l, ":var ") {
        var_command_of(&rest_after(&l, ":var "))
    } else if has_prefix_of(&l, ":eval ") {
        ConsoleCommand::Eval(trimmed_string(&rest_after(&l, ":eval ")))
    } else if cut == 0 {
        ConsoleCommand::Empty
    } else {
        ConsoleCommand::Unknown(string_of(&l, 0, cut))
    }
}

// ---------------------------------------------------------------------------
// Texts
// ---------------------------------------------------------------------------

pub fn yes_no(value: bool) -> (r: &'static str)
    ensures
        r@ == if value {
            "yes"@
        } else {
            "no"@
        },
{
    if value {
        "yes"
    } else {
        "no"
    }
}

/// How the console names why a run stopped.
pub open spec fn stop_text(s: Stop) -> Seq<char> {
    match s {
        Stop::EndOfFunction => "end of function"@,
        Stop::NeedInput => "need input"@,
        Stop::FunctionNotFound(name) => "function not found: "@ + name,
        Stop::StepLimit => "step limit"@,
        Stop::Error(message) => "error: "@ + message,
        Stop::Unsupported { file, line_no, text } => "unsupported at "@ + file + ":"@ + decimal(
            line_no as nat,
        ) + ": "@ + text,
    }
}

pub fn stop_reason_text(reason: &StopReason) -> (r: String)
    ensures
        r@ == stop_text(reason@),
{
    let mut out = String::new();
    match reason {
        StopReason::EndOfFunction => push_str(&mut out, "end of function"),
        StopReason::NeedInput => push_str(&mut out, "need input"),
        StopReason::FunctionNotFound(name) => {
            push_str(&mut out, "function not found: ");
            push_str(&mut out, name.as_str());
        },
        StopReason::StepLimit => push_str(&mut out, "step limit"),
        StopReason::Error(message) => {
            push_str(&mut out, "error: ");
            push_str(&mut out, message.as_str());
        },
        StopReason::Unsupported { file, line_no, text } => {
            push_str(&mut out, "unsupported at ");
            push_str(&mut out, file.as_str());
            push_str(&mut out, ":");
            push_str(&mut out, crate::text::usize_to_string(*line_no).as_str());
            push_str(&mut out, ": ");
            push_str(&mut out, text.as_str());
        },
    }
    out
}

/// A typed value: a number when the text reads as one, else the text.
pub fn value_of_text(text: &str) -> (r: Value)
    ensures
        r@ == match parse_i64(text@) {
            Some(x) => Val::Int(x),
            None => Val::Str(text@),
        },
{
    match parse_i64_str(text) {
        Some(x) => Value::Int(x),
        None => Value::Str(text.to_owned()),
    }
}

/// The row of `GameBase.csv` whose first cell is `タイトル`, if any: its
/// second cell is the game's title.
pub open spec fn title_row(rows: Seq<crate::csv::CsvRow>, i: int) -> Option<int>
    decreases rows.len() - i,
{
    if i < 0 || i >= rows.len() {
        None
    } else if rows[i].cells@.len() > 0 && rows[i].cells@[0]@ == "タイトル"@ {
        Some(i)
    } else {
        title_row(rows, i + 1)
    }
}

/// The second cell of the title row.
pub open spec fn title_of(rows: Seq<crate::csv::CsvRow>) -> Option<Seq<char>> {
    match title_row(rows, 0) {
        None => None,
        Some(ri) => if rows[ri].cells@.len() > 1 {
            Some(rows[ri].cells@[1]@)
        } else {
            None
        },
    }
}

/// The title a game gives in `GameBase.csv`.
pub fn game_title(csv: &CsvCatalog) -> (r: Option<String>)
    ensures
        r.deep_view() == match first_file_named(csv.files@, "GameBase.csv"@, 0) {
            None => None,
            Some(fi) => title_of(csv.files@[fi].rows@),
        },
{
    let file = match csv.get_file("GameBase.csv") {
        Some(f) => f,
        None => return None,
    };
    let ghost fi = first_file_named(csv.files@, "GameBase.csv"@, 0)->0;
    let mut i: usize = 0;
    while i < file.rows.len()
        invariant
            0 <= i <= file.rows.len(),
            first_file_named(csv.files@, "GameBase.csv"@, 0) == Some(fi),
            *file == csv.files@[fi],
            title_row(file.rows@, i as int) == title_row(file.rows@, 0),
        decreases file.rows.len() - i,
    {
        let row = &file.rows[i];
        if row.cells.len() > 0 && crate::text::str_eq(row.cells[0].as_str(), "タイトル") {
            if row.cells.len() > 1 {
                return Some(crate::text::copy_string(&row.cells[1]));
            } else {
                return None;
            }
        }
        i += 1;
    }
    None
}

} // verus!
