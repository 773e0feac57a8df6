//! Decoding of one ERB script line into an instruction.
use vstd::prelude::*;

use crate::text::{
    bom, chars_of, is_whitespace, is_ws, range_eq, skip_char, skip_ws, split, split_ranges,
    sub_vec, trim, trim_bounds, trim_start, trim_start_char, upper, upper_vec,
};

verus! {

#[derive(Debug, Clone, PartialEq, Eq)]
pub enum Instruction {
    Empty,
    Comment,
    Label(String),
    Print { text: String, newline: bool },
    PrintForm { text: String, newline: bool },
    PrintExpr { expr: String, newline: bool },
    Bar(String),
    DrawLine,
    Assign { target: String, expr: String },
    Inc(String),
    Dec(String),
    SIf(String),
    If(String),
    ElseIf(String),
    Else,
    EndIf,
    For { variable: String, start: String, end: String },
    Next,
    Goto(String),
    Call(String),
    Input { string: bool },
    Unsupported(String),
}

/// The model of an instruction.
pub enum Instr {
    Empty,
    Comment,
    Label(Seq<char>),
    Print { text: Seq<char>, newline: bool },
    PrintForm { text: Seq<char>, newline: bool },
    PrintExpr { expr: Seq<char>, newline: bool },
    Bar(Seq<char>),
    DrawLine,
    Assign { target: Seq<char>, expr: Seq<char> },
    Inc(Seq<char>),
    Dec(Seq<char>),
    SIf(Seq<char>),
    If(Seq<char>),
    ElseIf(Seq<char>),
    Else,
    EndIf,
    For { variable: Seq<char>, start: Seq<char>, end: Seq<char> },
    Next,
    Goto(Seq<char>),
    Call(Seq<char>),
    Input { string: bool },
    Unsupported(Seq<char>),
}

impl View for Instruction {
    type V = Instr;

    open spec fn view(&self) -> Instr {
        match self {
            Instruction::Empty => Instr::Empty,
            Instruction::Comment => Instr::Comment,
            Instruction::Label(s) => Instr::Label(s@),
            Instruction::Print { text, newline } => Instr::Print { text: text@, newline: *newline },
            Instruction::PrintForm { text, newline } => Instr::PrintForm {
                text: text@,
                newline: *newline,
            },
            Instruction::PrintExpr { expr, newline } => Instr::PrintExpr {
                expr: expr@,
                newline: *newline,
            },
            Instruction::Bar(s) => Instr::Bar(s@),
            Instruction::DrawLine => Instr::DrawLine,
            Instruction::Assign { target, expr } => Instr::Assign { target: target@, expr: expr@ },
            Instruction::Inc(s) => Instr::Inc(s@),
            Instruction::Dec(s) => Instr::Dec(s@),
            Instruction::SIf(s) => Instr::SIf(s@),
            Instruction::If(s) => Instr::If(s@),
            Instruction::ElseIf(s) => Instr::ElseIf(s@),
            Instruction::Else => Instr::Else,
            Instruction::EndIf => Instr::EndIf,
            Instruction::For { variable, start, end } => Instr::For {
                variable: variable@,
                start: start@,
                end: end@,
            },
            Instruction::Next => Instr::Next,
            Instruction::Goto(s) => Instr::Goto(s@),
            Instruction::Call(s) => Instr::Call(s@),
            Instruction::Input { string } => Instr::Input { string: *string },
            Instruction::Unsupported(s) => Instr::Unsupported(s@),
        }
    }
}

// ---------------------------------------------------------------------------
// Pieces of a line
// ---------------------------------------------------------------------------

/// Position of the first `;` outside double quotes, from `i` on.
pub open spec fn comment_cut(s: Seq<char>, i: int, in_quotes: bool) -> int
    decreases s.len() - i,
{
    if i < 0 || i >= s.len() {
        s.len() as int
    } else if s[i] == '"' {
        comment_cut(s, i + 1, !in_quotes)
    } else if s[i] == ';' && !in_quotes {
        i
    } else {
        comment_cut(s, i + 1, in_quotes)
    }
}

/// The line without its comment (text from the first `;` outside quotes).
pub open spec fn strip_inline_comment(s: Seq<char>) -> Seq<char> {
    s.take(comment_cut(s, 0, false))
}

/// Position of the first white space from `i` on, or the end.
pub open spec fn ws_pos(s: Seq<char>, i: int) -> int
    decreases s.len() - i,
{
    if i < 0 || i >= s.len() {
        s.len() as int
    } else if is_ws(s[i]) {
        i
    } else {
        ws_pos(s, i + 1)
    }
}

pub open spec fn ends_name(c: char) -> bool {
    is_ws(c) || c == '(' || c == ';'
}

/// Position of the first character that ends a name, from `i` on.
pub open spec fn name_end(s: Seq<char>, i: int) -> int
    decreases s.len() - i,
{
    if i < 0 || i >= s.len() {
        s.len() as int
    } else if ends_name(s[i]) {
        i
    } else {
        name_end(s, i + 1)
    }
}

/// A label or function name: the trimmed text up to white space, `(` or
/// `;`, upper-cased.
pub open spec fn symbol_name(text: Seq<char>) -> Seq<char> {
    let t = trim(text);
    upper(t.take(name_end(t, 0)))
}

/// `TARGET++` and `TARGET--`.
pub open spec fn mutation(line: Seq<char>) -> Option<Instr> {
    let t = trim(line);
    if t.len() >= 2 && t[t.len() - 2] == '+' && t[t.len() - 1] == '+' {
        Some(Instr::Inc(trim(t.take(t.len() - 2))))
    } else if t.len() >= 2 && t[t.len() - 2] == '-' && t[t.len() - 1] == '-' {
        Some(Instr::Dec(trim(t.take(t.len() - 2))))
    } else {
        None
    }
}

/// `FOR VARIABLE, START, END`: exactly three non-empty parts.
pub open spec fn for_loop(rest: Seq<char>) -> Option<Instr> {
    let parts = split(rest, ',');
    if parts.len() == 3 && trim(parts[0]).len() > 0 && trim(parts[1]).len() > 0 && trim(
        parts[2],
    ).len() > 0 {
        Some(Instr::For { variable: trim(parts[0]), start: trim(parts[1]), end: trim(parts[2]) })
    } else {
        None
    }
}

/// Whether the `=` at `i` is an assignment rather than part of `==`, `!=`,
/// `<=` or `>=`.
pub open spec fn is_assign_at(s: Seq<char>, i: int) -> bool {
    &&& s[i] == '='
    &&& !(i > 0 && (s[i - 1] == '=' || s[i - 1] == '!' || s[i - 1] == '<' || s[i - 1] == '>'))
    &&& !(i + 1 < s.len() && s[i + 1] == '=')
}

/// Position of the first assignment `=`, from `i` on.
pub open spec fn assign_pos(s: Seq<char>, i: int) -> Option<int>
    decreases s.len() - i,
{
    if i < 0 || i >= s.len() {
        None
    } else if is_assign_at(s, i) {
        Some(i)
    } else {
        assign_pos(s, i + 1)
    }
}

/// `TARGET = EXPR` with both sides non-empty.
pub open spec fn assignment(line: Seq<char>) -> Option<Instr> {
    match assign_pos(line, 0) {
        None => None,
        Some(p) => {
            let target = trim(line.take(p));
            let expr = trim(line.skip(p + 1));
            if target.len() == 0 || expr.len() == 0 {
                None
            } else {
                Some(Instr::Assign { target, expr })
            }
        },
    }
}

/// The instruction for a keyword and the text after it.
pub open spec fn keyword_instr(line: Seq<char>, kw: Seq<char>, rest: Seq<char>) -> Instr {
    if kw == "PRINTL"@ {
        Instr::Print { text: rest, newline: true }
    } else if kw == "PRINT"@ {
        Instr::Print { text: rest, newline: false }
    } else if kw == "PRINTFORML"@ {
        Instr::PrintForm { text: rest, newline: true }
    } else if kw == "PRINTFORM"@ {
        Instr::PrintForm { text: rest, newline: false }
    } else if kw == "PRINTSL"@ {
        Instr::PrintExpr { expr: rest, newline: true }
    } else if kw == "PRINTS"@ {
        Instr::PrintExpr { expr: rest, newline: false }
    } else if kw == "BAR"@ {
        Instr::Bar(rest)
    } else if kw == "DRAWLINE"@ {
        Instr::DrawLine
    } else if kw == "SIF"@ {
        Instr::SIf(rest)
    } else if kw == "IF"@ {
        Instr::If(rest)
    } else if kw == "ELSEIF"@ {
        Instr::ElseIf(rest)
    } else if kw == "ELSE"@ {
        Instr::Else
    } else if kw == "ENDIF"@ {
        Instr::EndIf
    } else if kw == "FOR"@ {
        match for_loop(rest) {
            Some(i) => i,
            None => Instr::Unsupported(line),
        }
    } else if kw == "NEXT"@ {
        Instr::Next
    } else if kw == "GOTO"@ {
        Instr::Goto(symbol_name(rest))
    } else if kw == "CALL"@ {
        Instr::Call(symbol_name(rest))
    } else if kw == "INPUT"@ || kw == "TINPUT"@ || kw == "ONEINPUT"@ {
        Instr::Input { string: false }
    } else if kw == "INPUTS"@ || kw == "TINPUTS"@ || kw == "ONEINPUTS"@ {
        Instr::Input { string: true }
    } else {
        match mutation(line) {
            Some(i) => i,
            None => match assignment(line) {
                Some(i) => i,
                None => Instr::Unsupported(line),
            },
        }
    }
}

/// The instruction a script line holds.  The line is trimmed (with leading
/// byte-order marks) and loses its comment; `$NAME` is a label, `@...` is not
/// an instruction, and otherwise the first word, in any case, is the keyword.
pub open spec fn instr_of(line: Seq<char>) -> Instr {
    let l = trim(strip_inline_comment(trim_start_char(trim_start(line), bom())));
    if l.len() == 0 {
        Instr::Empty
    } else if l[0] == ';' {
        Instr::Comment
    } else if l[0] == '$' {
        Instr::Label(symbol_name(l.drop_first()))
    } else if l[0] == '@' {
        Instr::Unsupported(l)
    } else {
        let e = ws_pos(l, 0);
        keyword_instr(l, upper(l.take(e)), trim_start(l.skip(e)))
    }
}

// ---------------------------------------------------------------------------
// Executable decoding
// ---------------------------------------------------------------------------

fn comment_cut_of(s: &Vec<char>) -> (r: usize)
    ensures
        r == comment_cut(s@, 0, false),
        r <= s.len(),
{
    let mut i: usize = 0;
    let mut in_quotes = false;
    while i < s.len()
        invariant
            0 <= i <= s.len(),
            comment_cut(s@, i as int, in_quotes) == comment_cut(s@, 0, false),
        decreases s.len() - i,
    {
        if s[i] == '"' {
            in_quotes = !in_quotes;
        } else if s[i] == ';' && !in_quotes {
            return i;
        }
        i += 1;
    }
    i
}

fn ws_pos_of(s: &Vec<char>) -> (r: usize)
    ensures
        r == ws_pos(s@, 0),
        r <= s.len(),
{
    let mut i: usize = 0;
    while i < s.len()
        invariant
            0 <= i <= s.len(),
            ws_pos(s@, i as int) == ws_pos(s@, 0),
        decreases s.len() - i,
    {
        if is_whitespace(s[i]) {
            return i;
        }
        i += 1;
    }
    i
}

pub(crate) fn name_end_of(s: &Vec<char>) -> (r: usize)
    ensures
        r == name_end(s@, 0),
        r <= s.len(),
{
    let mut i: usize = 0;
    while i < s.len()
        invariant
            0 <= i <= s.len(),
            name_end(s@, i as int) == name_end(s@, 0),
        decreases s.len() - i,
    {
        if is_whitespace(s[i]) || s[i] == '(' || s[i] == ';' {
            return i;
        }
        i += 1;
    }
    i
}

fn trimmed(v: &Vec<char>, lo: usize, hi: usize) -> (r: Vec<char>)
    requires
        lo <= hi <= v.len(),
    ensures
        r@ == trim(v@.subrange(lo as int, hi as int)),
{
    let (a, b) = trim_bounds(v, lo, hi);
    sub_vec(v, a, b)
}

fn all_of(v: &Vec<char>) -> (r: String)
    ensures
        r@ == v@,
{
    crate::text::string_of_all(v)
}

/// The upper-cased name at the start of `text` (see `symbol_name`).
pub fn symbol_name_of(text: &Vec<char>) -> (r: String)
    ensures
        r@ == symbol_name(text@),
{
    let t = trimmed(text, 0, text.len());
    assert(text@.subrange(0, text.len() as int) =~= text@);
    let e = name_end_of(&t);
    let head = sub_vec(&t, 0, e);
    assert(t@.subrange(0, e as int) =~= t@.take(e as int));
    let u = upper_vec(&head);
    all_of(&u)
}

fn mutation_of(l: &Vec<char>) -> (r: Option<Instruction>)
    ensures
        r matches Some(i) ==> mutation(l@) == Some(i@),
        r is None ==> mutation(l@) is None,
{
    let t = trimmed(l, 0, l.len());
    assert(l@.subrange(0, l.len() as int) =~= l@);
    let n = t.len();
    if n >= 2 && t[n - 2] == '+' && t[n - 1] == '+' {
        let x = trimmed(&t, 0, n - 2);
        assert(t@.subrange(0, n - 2) =~= t@.take(n - 2));
        return Some(Instruction::Inc(all_of(&x)));
    }
    if n >= 2 && t[n - 2] == '-' && t[n - 1] == '-' {
        let x = trimmed(&t, 0, n - 2);
        assert(t@.subrange(0, n - 2) =~= t@.take(n - 2));
        return Some(Instruction::Dec(all_of(&x)));
    }
    None
}

fn for_of(rest: &Vec<char>) -> (r: Option<Instruction>)
    ensures
        r matches Some(i) ==> for_loop(rest@) == Some(i@),
        r is None ==> for_loop(rest@) is None,
{
    let ranges = split_ranges(rest, 0, rest.len(), ',');
    assert(rest@.subrange(0, rest.len() as int) =~= rest@);
    if ranges.len() != 3 {
        return None;
    }
    let v = trimmed(rest, ranges[0].0, ranges[0].1);
    let s = trimmed(rest, ranges[1].0, ranges[1].1);
    let e = trimmed(rest, ranges[2].0, ranges[2].1);
    if v.len() == 0 || s.len() == 0 || e.len() == 0 {
        return None;
    }
    Some(Instruction::For { variable: all_of(&v), start: all_of(&s), end: all_of(&e) })
}

fn assign_pos_of(s: &Vec<char>) -> (r: Option<usize>)
    ensures
        r matches Some(p) ==> assign_pos(s@, 0) == Some(p as int) && p < s.len(),
        r is None ==> assign_pos(s@, 0) is None,
{
    let mut i: usize = 0;
    while i < s.len()
        invariant
            0 <= i <= s.len(),
            assign_pos(s@, i as int) == assign_pos(s@, 0),
        decreases s.len() - i,
    {
        if s[i] == '=' {
            let bad_prev = i > 0 && (s[i - 1] == '=' || s[i - 1] == '!' || s[i - 1] == '<' || s[i
                - 1] == '>');
            let bad_next = i + 1 < s.len() && s[i + 1] == '=';
            if !bad_prev && !bad_next {
                return Some(i);
            }
        }
        i += 1;
    }
    None
}

fn assignment_of(l: &Vec<char>) -> (r: Option<Instruction>)
    ensures
        r matches Some(i) ==> assignment(l@) == Some(i@),
        r is None ==> assignment(l@) is None,
{
    match assign_pos_of(l) {
        None => None,
        Some(p) => {
            let target = trimmed(l, 0, p);
            let expr = trimmed(l, p + 1, l.len());
            assert(l@.subrange(0, p as int) =~= l@.take(p as int));
            assert(l@.subrange(p + 1, l.len() as int) =~= l@.skip(p + 1));
            if target.len() == 0 || expr.len() == 0 {
                None
            } else {
                Some(Instruction::Assign { target: all_of(&target), expr: all_of(&expr) })
            }
        },
    }
}

fn is_kw(kw: &Vec<char>, lit: &str) -> (r: bool)
    ensures
        r == (kw@ == lit@),
{
    let r = range_eq(kw, 0, kw.len(), lit);
    assert(kw@.subrange(0, kw.len() as int) =~= kw@);
    r
}

fn keyword_instruction(l: &Vec<char>, kw: &Vec<char>, rest: &Vec<char>) -> (r: Instruction)
    ensures
        r@ == keyword_instr(l@, kw@, rest@),
{
    if is_kw(kw, "PRINTL") {
        Instruction::Print { text: all_of(rest), newline: true }
    } else if is_kw(kw, "PRINT") {
        Instruction::Print { text: all_of(rest), newline: false }
    } else if is_kw(kw, "PRINTFORML") {
        Instruction::PrintForm { text: all_of(rest), newline: true }
    } else if is_kw(kw, "PRINTFORM") {
        Instruction::PrintForm { text: all_of(rest), newline: false }
    } else if is_kw(kw, "PRINTSL") {
        Instruction::PrintExpr { expr: all_of(rest), newline: true }
    } else if is_kw(kw, "PRINTS") {
        Instruction::PrintExpr { expr: all_of(rest), newline: false }
    } else if is_kw(kw, "BAR") {
        Instruction::Bar(all_of(rest))
    } else if is_kw(kw, "DRAWLINE") {
        Instruction::DrawLine
    } else if is_kw(kw, "SIF") {
        Instruction::SIf(all_of(rest))
    } else if is_kw(kw, "IF") {
        Instruction::If(all_of(rest))
    } else if is_kw(kw, "ELSEIF") {
        Instruction::ElseIf(all_of(rest))
    } else if is_kw(kw, "ELSE") {
        Instruction::Else
    } else if is_kw(kw, "ENDIF") {
        Instruction::EndIf
    } else if is_kw(kw, "FOR") {
        match for_of(rest) {
            Some(i) => i,
            None => Instruction::Unsupported(all_of(l)),
        }
    } else if is_kw(kw, "NEXT") {
        Instruction::Next
    } else if is_kw(kw, "GOTO") {
        Instruction::Goto(symbol_name_of(rest))
    } else if is_kw(kw, "CALL") {
        Instruction::Call(call_name(rest))
    } else if is_kw(kw, "INPUT") || is_kw(kw, "TINPUT") || is_kw(kw, "ONEINPUT") {
        Instruction::Input { string: false }
    } else if is_kw(kw, "INPUTS") || is_kw(kw, "TINPUTS") || is_kw(kw, "ONEINPUTS") {
        Instruction::Input { string: true }
    } else {
        match mutation_of(l) {
            Some(i) => i,
            None => match assignment_of(l) {
                Some(i) => i,
                None => Instruction::Unsupported(all_of(l)),
            },
        }
    }
}

/// The name a `CALL` instruction calls.
pub fn call_name(text: &Vec<char>) -> (r: String)
    ensures
        r@ == symbol_name(text@),
{
    symbol_name_of(text)
}

/// Decodes one script line.
pub fn parse_line(line: &str) -> (r: Instruction)
    ensures
        r@ == instr_of(line@),
{
    let v = chars_of(line);
    let n = v.len();
    assert(v@.subrange(0, n as int) =~= v@);
    let a = skip_ws(&v, 0, n);
    let b = skip_char(&v, a, n, '\u{feff}');
    let l0 = sub_vec(&v, b, n);
    let cut = comment_cut_of(&l0);
    assert(l0@.subrange(0, cut as int) =~= l0@.take(cut as int));
    let l = trimmed(&l0, 0, cut);
    if l.len() == 0 {
        return Instruction::Empty;
    }
    if l[0] == ';' {
        return Instruction::Comment;
    }
    if l[0] == '$' {
        let rest = sub_vec(&l, 1, l.len());
        assert(l@.subrange(1, l.len() as int) =~= l@.drop_first());
        return Instruction::Label(symbol_name_of(&rest));
    }
    if l[0] == '@' {
        return Instruction::Unsupported(all_of(&l));
    }
    let e = ws_pos_of(&l);
    let head = sub_vec(&l, 0, e);
    assert(l@.subrange(0, e as int) =~= l@.take(e as int));
    let kw = upper_vec(&head);
    let s = skip_ws(&l, e, l.len());
    assert(l@.subrange(e as int, l.len() as int) =~= l@.skip(e as int));
    let rest = sub_vec(&l, s, l.len());
    keyword_instruction(&l, &kw, &rest)
}

} // verus!
