//! The expression language: tokens, a precedence-climbing parser and an
//! evaluator over the variable store.
use vstd::prelude::*;

use crate::runtime::{address_of, store_get, Val, Value, VarResolver, VarStore};
use crate::text::{
    chars_of, int_text, int_to_string, is_digit, is_whitespace, is_ws,
    parse_i64, parse_i64_range, push_str, string_of, upper, upper_string,
};
use crate::csv::NameTableView;

verus! {

// ---------------------------------------------------------------------------
// Errors and syntax trees
// ---------------------------------------------------------------------------

#[derive(Debug, Clone, PartialEq, Eq)]
pub enum ExprError {
    UnexpectedEnd,
    UnexpectedToken(String),
    InvalidNumber(String),
    InvalidVariable(String),
    DivisionByZero,
}

/// The model of an expression error.
pub enum ExprErr {
    UnexpectedEnd,
    UnexpectedToken(Seq<char>),
    InvalidNumber(Seq<char>),
    InvalidVariable(Seq<char>),
    DivisionByZero,
}

impl View for ExprError {
    type V = ExprErr;

    open spec fn view(&self) -> ExprErr {
        match self {
            ExprError::UnexpectedEnd => ExprErr::UnexpectedEnd,
            ExprError::UnexpectedToken(s) => ExprErr::UnexpectedToken(s@),
            ExprError::InvalidNumber(s) => ExprErr::InvalidNumber(s@),
            ExprError::InvalidVariable(s) => ExprErr::InvalidVariable(s@),
            ExprError::DivisionByZero => ExprErr::DivisionByZero,
        }
    }
}

#[derive(Debug, Clone, Copy, PartialEq, Eq)]
pub enum UnaryOp {
    Neg,
    Not,
}

#[derive(Debug, Clone, Copy, PartialEq, Eq)]
pub enum BinaryOp {
    Or,
    And,
    Eq,
    Ne,
    Ge,
    Gt,
    Le,
    Lt,
    BitOr,
    BitAnd,
    Add,
    Sub,
    Mul,
    Div,
    Rem,
}

#[derive(Debug, PartialEq, Eq)]
pub enum Expr {
    Value(Value),
    Variable(String),
    Unary { op: UnaryOp, rhs: Box<Expr> },
    Binary { lhs: Box<Expr>, op: BinaryOp, rhs: Box<Expr> },
    Conditional { condition: Box<Expr>, then_expr: Box<Expr>, else_expr: Box<Expr> },
    Call { name: String, args: Vec<Expr> },
}

/// The model of an expression.
pub enum ExprV {
    Value(Val),
    Variable(Seq<char>),
    Unary { op: UnaryOp, rhs: Box<ExprV> },
    Binary { lhs: Box<ExprV>, op: BinaryOp, rhs: Box<ExprV> },
    Conditional { condition: Box<ExprV>, then_expr: Box<ExprV>, else_expr: Box<ExprV> },
    Call { name: Seq<char>, args: Seq<ExprV> },
}

pub open spec fn expr_view(e: Expr) -> ExprV
    decreases e,
{
    match e {
        Expr::Value(v) => ExprV::Value(v@),
        Expr::Variable(n) => ExprV::Variable(n@),
        Expr::Unary { op, rhs } => ExprV::Unary { op, rhs: Box::new(expr_view(*rhs)) },
        Expr::Binary { lhs, op, rhs } => ExprV::Binary {
            lhs: Box::new(expr_view(*lhs)),
            op,
            rhs: Box::new(expr_view(*rhs)),
        },
        Expr::Conditional { condition, then_expr, else_expr } => ExprV::Conditional {
            condition: Box::new(expr_view(*condition)),
            then_expr: Box::new(expr_view(*then_expr)),
            else_expr: Box::new(expr_view(*else_expr)),
        },
        Expr::Call { name, args } => ExprV::Call { name: name@, args: exprs_view(args@) },
    }
}

pub open spec fn exprs_view(args: Seq<Expr>) -> Seq<ExprV>
    decreases args,
{
    if args.len() == 0 {
        seq![]
    } else {
        seq![expr_view(args[0])] + exprs_view(args.drop_first())
    }
}

impl View for Expr {
    type V = ExprV;

    open spec fn view(&self) -> ExprV {
        expr_view(*self)
    }
}

// ---------------------------------------------------------------------------
// Tokens
// ---------------------------------------------------------------------------

#[derive(Debug, Clone, Copy, PartialEq, Eq)]
pub enum OpSym {
    OrOr,
    AndAnd,
    EqEq,
    NotEq,
    GtEq,
    LtEq,
    Plus,
    Minus,
    Star,
    Slash,
    Percent,
    Bang,
    Gt,
    Lt,
    Amp,
    Pipe,
}

#[derive(Debug, Clone, PartialEq, Eq)]
pub enum Token {
    Int(i64),
    Str(String),
    Symbol(String),
    Op(OpSym),
    LParen,
    RParen,
    Comma,
    Question,
    Hash,
}

/// The model of a token.
pub enum Tok {
    Int(i64),
    Str(Seq<char>),
    Symbol(Seq<char>),
    Op(OpSym),
    LParen,
    RParen,
    Comma,
    Question,
    Hash,
}

impl View for Token {
    type V = Tok;

    open spec fn view(&self) -> Tok {
        match self {
            Token::Int(v) => Tok::Int(*v),
            Token::Str(s) => Tok::Str(s@),
            Token::Symbol(s) => Tok::Symbol(s@),
            Token::Op(o) => Tok::Op(*o),
            Token::LParen => Tok::LParen,
            Token::RParen => Tok::RParen,
            Token::Comma => Tok::Comma,
            Token::Question => Tok::Question,
            Token::Hash => Tok::Hash,
        }
    }
}

pub open spec fn toks(ts: Seq<Token>) -> Seq<Tok> {
    ts.map_values(|t: Token| t@)
}

/// The text of an operator.
pub open spec fn op_text(o: OpSym) -> Seq<char> {
    match o {
        OpSym::OrOr => "||"@,
        OpSym::AndAnd => "&&"@,
        OpSym::EqEq => "=="@,
        OpSym::NotEq => "!="@,
        OpSym::GtEq => ">="@,
        OpSym::LtEq => "<="@,
        OpSym::Plus => "+"@,
        OpSym::Minus => "-"@,
        OpSym::Star => "*"@,
        OpSym::Slash => "/"@,
        OpSym::Percent => "%"@,
        OpSym::Bang => "!"@,
        OpSym::Gt => ">"@,
        OpSym::Lt => "<"@,
        OpSym::Amp => "&"@,
        OpSym::Pipe => "|"@,
    }
}

fn op_str(o: OpSym) -> (r: &'static str)
    ensures
        r@ == op_text(o),
{
    match o {
        OpSym::OrOr => "||",
        OpSym::AndAnd => "&&",
        OpSym::EqEq => "==",
        OpSym::NotEq => "!=",
        OpSym::GtEq => ">=",
        OpSym::LtEq => "<=",
        OpSym::Plus => "+",
        OpSym::Minus => "-",
        OpSym::Star => "*",
        OpSym::Slash => "/",
        OpSym::Percent => "%",
        OpSym::Bang => "!",
        OpSym::Gt => ">",
        OpSym::Lt => "<",
        OpSym::Amp => "&",
        OpSym::Pipe => "|",
    }
}

/// Two-character operators.
pub open spec fn two_char_op(a: char, b: char) -> Option<OpSym> {
    if a == '|' && b == '|' {
        Some(OpSym::OrOr)
    } else if a == '&' && b == '&' {
        Some(OpSym::AndAnd)
    } else if a == '=' && b == '=' {
        Some(OpSym::EqEq)
    } else if a == '!' && b == '=' {
        Some(OpSym::NotEq)
    } else if a == '>' && b == '=' {
        Some(OpSym::GtEq)
    } else if a == '<' && b == '=' {
        Some(OpSym::LtEq)
    } else {
        None
    }
}

fn two_char_op_of(a: char, b: char) -> (r: Option<OpSym>)
    ensures
        r == two_char_op(a, b),
{
    if a == '|' && b == '|' {
        Some(OpSym::OrOr)
    } else if a == '&' && b == '&' {
        Some(OpSym::AndAnd)
    } else if a == '=' && b == '=' {
        Some(OpSym::EqEq)
    } else if a == '!' && b == '=' {
        Some(OpSym::NotEq)
    } else if a == '>' && b == '=' {
        Some(OpSym::GtEq)
    } else if a == '<' && b == '=' {
        Some(OpSym::LtEq)
    } else {
        None
    }
}

/// One-character operators.
pub open spec fn one_char_op(c: char) -> Option<OpSym> {
    if c == '+' {
        Some(OpSym::Plus)
    } else if c == '-' {
        Some(OpSym::Minus)
    } else if c == '*' {
        Some(OpSym::Star)
    } else if c == '/' {
        Some(OpSym::Slash)
    } else if c == '%' {
        Some(OpSym::Percent)
    } else if c == '!' {
        Some(OpSym::Bang)
    } else if c == '>' {
        Some(OpSym::Gt)
    } else if c == '<' {
        Some(OpSym::Lt)
    } else if c == '&' {
        Some(OpSym::Amp)
    } else if c == '|' {
        Some(OpSym::Pipe)
    } else {
        None
    }
}

fn one_char_op_of(c: char) -> (r: Option<OpSym>)
    ensures
        r == one_char_op(c),
{
    if c == '+' {
        Some(OpSym::Plus)
    } else if c == '-' {
        Some(OpSym::Minus)
    } else if c == '*' {
        Some(OpSym::Star)
    } else if c == '/' {
        Some(OpSym::Slash)
    } else if c == '%' {
        Some(OpSym::Percent)
    } else if c == '!' {
        Some(OpSym::Bang)
    } else if c == '>' {
        Some(OpSym::Gt)
    } else if c == '<' {
        Some(OpSym::Lt)
    } else if c == '&' {
        Some(OpSym::Amp)
    } else if c == '|' {
        Some(OpSym::Pipe)
    } else {
        None
    }
}

/// Punctuation tokens.
pub open spec fn punct(c: char) -> Option<Tok> {
    if c == '(' {
        Some(Tok::LParen)
    } else if c == ')' {
        Some(Tok::RParen)
    } else if c == ',' {
        Some(Tok::Comma)
    } else if c == '?' {
        Some(Tok::Question)
    } else if c == '#' {
        Some(Tok::Hash)
    } else {
        None
    }
}

/// Characters that end a symbol.
pub open spec fn ends_symbol(c: char) -> bool {
    is_ws(c) || c == '(' || c == ')' || c == ',' || c == '?' || c == '#' || c == '+' || c == '-'
        || c == '*' || c == '/' || c == '%' || c == '!' || c == '>' || c == '<' || c == '='
        || c == '&' || c == '|'
}

fn ends_symbol_char(c: char) -> (r: bool)
    ensures
        r == ends_symbol(c),
{
    is_whitespace(c) || c == '(' || c == ')' || c == ',' || c == '?' || c == '#' || c == '+' || c
        == '-' || c == '*' || c == '/' || c == '%' || c == '!' || c == '>' || c == '<' || c == '='
        || c == '&' || c == '|'
}

/// End of the run of digits starting at `i`.
pub open spec fn digit_end(s: Seq<char>, i: int) -> int
    decreases s.len() - i,
{
    if 0 <= i < s.len() && is_digit(s[i]) {
        digit_end(s, i + 1)
    } else {
        i
    }
}

/// End of the symbol starting at `i`.
pub open spec fn symbol_end(s: Seq<char>, i: int) -> int
    decreases s.len() - i,
{
    if 0 <= i < s.len() && !ends_symbol(s[i]) {
        symbol_end(s, i + 1)
    } else {
        i
    }
}

/// Body of a string literal whose opening quote is just before `i`, and the
/// position after its closing quote (or the end of the text); `""` inside the
/// literal stands for a quote.
pub open spec fn string_body(s: Seq<char>, i: int) -> (Seq<char>, int)
    decreases s.len() - i,
{
    if i < 0 || i >= s.len() {
        (seq![], i)
    } else if s[i] == '"' {
        if i + 1 < s.len() && s[i + 1] == '"' {
            let (b, e) = string_body(s, i + 2);
            (seq!['"'] + b, e)
        } else {
            (seq![], i + 1)
        }
    } else {
        let (b, e) = string_body(s, i + 1);
        (seq![s[i]] + b, e)
    }
}

pub proof fn lemma_digit_end(s: Seq<char>, i: int)
    requires
        0 <= i <= s.len(),
    ensures
        i <= digit_end(s, i) <= s.len(),
        forall|j: int| i <= j < digit_end(s, i) ==> is_digit(#[trigger] s[j]),
        digit_end(s, i) < s.len() ==> !is_digit(s[digit_end(s, i)]),
    decreases s.len() - i,
{
    if i < s.len() && is_digit(s[i]) {
        lemma_digit_end(s, i + 1);
    }
}

pub proof fn lemma_symbol_end(s: Seq<char>, i: int)
    requires
        0 <= i <= s.len(),
    ensures
        i <= symbol_end(s, i) <= s.len(),
        symbol_end(s, i) < s.len() ==> ends_symbol(s[symbol_end(s, i)]),
    decreases s.len() - i,
{
    if i < s.len() && !ends_symbol(s[i]) {
        lemma_symbol_end(s, i + 1);
    }
}

pub proof fn lemma_string_body(s: Seq<char>, i: int)
    requires
        0 <= i <= s.len(),
    ensures
        i <= string_body(s, i).1 <= s.len(),
    decreases s.len() - i,
{
    if i < s.len() {
        if s[i] == '"' {
            if i + 1 < s.len() && s[i + 1] == '"' {
                lemma_string_body(s, i + 2);
            }
        } else {
            lemma_string_body(s, i + 1);
        }
    }
}

pub open spec fn prepend(t: Tok, r: Result<Seq<Tok>, ExprErr>) -> Result<Seq<Tok>, ExprErr> {
    match r {
        Ok(ts) => Ok(seq![t] + ts),
        Err(e) => Err(e),
    }
}

/// The tokens of `s` from position `i`.
pub open spec fn tokens_from(s: Seq<char>, i: int) -> Result<Seq<Tok>, ExprErr>
    decreases s.len() - i,
{
    if i < 0 || i >= s.len() {
        Ok(seq![])
    } else {
        let ch = s[i];
        if is_ws(ch) {
            tokens_from(s, i + 1)
        } else if is_digit(ch) {
            let e = digit_end(s, i);
            proof {
                lemma_digit_end(s, i);
            }
            let text = s.subrange(i, e);
            match parse_i64(text) {
                None => Err(ExprErr::InvalidNumber(text)),
                Some(v) => prepend(Tok::Int(v), tokens_from(s, e)),
            }
        } else if ch == '"' {
            let (b, e) = string_body(s, i + 1);
            proof {
                lemma_string_body(s, i + 1);
            }
            prepend(Tok::Str(b), tokens_from(s, e))
        } else if i + 1 < s.len() && two_char_op(ch, s[i + 1]) is Some {
            prepend(Tok::Op(two_char_op(ch, s[i + 1])->0), tokens_from(s, i + 2))
        } else if punct(ch) is Some {
            prepend(punct(ch)->0, tokens_from(s, i + 1))
        } else if one_char_op(ch) is Some {
            prepend(Tok::Op(one_char_op(ch)->0), tokens_from(s, i + 1))
        } else {
            let e = symbol_end(s, i);
            proof {
                lemma_symbol_end(s, i);
            }
            if e <= i {
                Err(ExprErr::UnexpectedToken(seq![ch]))
            } else {
                prepend(Tok::Symbol(s.subrange(i, e)), tokens_from(s, e))
            }
        }
    }
}

pub open spec fn tokenize_spec(text: Seq<char>) -> Result<Seq<Tok>, ExprErr> {
    tokens_from(text, 0)
}

pub open spec fn toks_result(r: Result<Vec<Token>, ExprError>) -> Result<Seq<Tok>, ExprErr> {
    match r {
        Ok(ts) => Ok(toks(ts@)),
        Err(e) => Err(e@),
    }
}

spec fn extend(done: Seq<Tok>, r: Result<Seq<Tok>, ExprErr>) -> Result<Seq<Tok>, ExprErr> {
    match r {
        Ok(rest) => Ok(done + rest),
        Err(e) => Err(e),
    }
}

proof fn lemma_extend_push(done: Seq<Tok>, t: Tok, r: Result<Seq<Tok>, ExprErr>)
    ensures
        extend(done, prepend(t, r)) == extend(done.push(t), r),
{
    match r {
        Ok(rest) => {
            assert(done + (seq![t] + rest) =~= done.push(t) + rest);
        },
        Err(_) => {},
    }
}

fn char_string(c: char) -> (r: String)
    ensures
        r@ == seq![c],
{
    let mut r = String::new();
    r.push(c);
    assert(r@ =~= seq![c]);
    r
}

/// Splits expression text into tokens.
pub fn tokenize(text: &str) -> (r: Result<Vec<Token>, ExprError>)
    ensures
        toks_result(r) == tokenize_spec(text@),
{
    let s = chars_of(text);
    let n = s.len();
    let mut tokens: Vec<Token> = Vec::new();
    let mut i: usize = 0;
    assert(toks(tokens@) =~= seq![]);
    assert(extend(seq![], tokens_from(s@, 0)) == tokens_from(s@, 0)) by {
        match tokens_from(s@, 0) {
            Ok(rest) => {
                assert(Seq::<Tok>::empty() + rest =~= rest);
            },
            Err(_) => {},
        }
    }
    while i < n
        invariant
            0 <= i <= n,
            n == s@.len(),
            s@ == text@,
            extend(toks(tokens@), tokens_from(s@, i as int)) == tokenize_spec(text@),
        decreases n - i,
    {
        let ch = s[i];
        let ghost done = toks(tokens@);
        if is_whitespace(ch) {
            i += 1;
            continue;
        }
        if '0' <= ch && ch <= '9' {
            proof {
                lemma_digit_end(s@, i as int);
            }
            let mut j = i;
            while j < n && '0' <= s[j] && s[j] <= '9'
                invariant
                    i <= j <= n,
                    n == s@.len(),
                    digit_end(s@, j as int) == digit_end(s@, i as int),
                decreases n - j,
            {
                j += 1;
            }
            match parse_i64_range(&s, i, j) {
                None => {
                    let t = string_of(&s, i, j);
                    return Err(ExprError::InvalidNumber(t));
                },
                Some(v) => {
                    let tok = Token::Int(v);
                    proof {
                        lemma_extend_push(done, tok@, tokens_from(s@, j as int));
                    }
                    tokens.push(tok);
                    assert(toks(tokens@) =~= done.push(tok@));
                    i = j;
                    continue;
                },
            }
        }
        if ch == '"' {
            proof {
                lemma_string_body(s@, i + 1);
            }
            let mut body = String::new();
            let mut j = i + 1;
            let ghost goal = string_body(s@, i + 1);
            assert(goal.0 =~= body@ + goal.0);
            loop
                invariant_except_break
                    i + 1 <= j <= n,
                    n == s@.len(),
                    goal == string_body(s@, i + 1),
                    goal.0 == body@ + string_body(s@, j as int).0,
                    goal.1 == string_body(s@, j as int).1,
                ensures
                    goal.0 == body@,
                    goal.1 == j,
                    j <= n,
                decreases n - j,
            {
                if j >= n {
                    assert(body@ + Seq::<char>::empty() =~= body@);
                    break;
                }
                let c = s[j];
                if c == '"' {
                    if j + 1 < n && s[j + 1] == '"' {
                        let ghost before = body@;
                        body.push('"');
                        assert(before + (seq!['"'] + string_body(s@, j + 2).0) =~= body@
                            + string_body(s@, j + 2).0);
                        j += 2;
                    } else {
                        assert(body@ + Seq::<char>::empty() =~= body@);
                        j += 1;
                        break;
                    }
                } else {
                    let ghost before = body@;
                    body.push(c);
                    assert(before + (seq![c] + string_body(s@, j + 1).0) =~= body@
                        + string_body(s@, j + 1).0);
                    j += 1;
                }
            }
            let tok = Token::Str(body);
            proof {
                lemma_extend_push(done, tok@, tokens_from(s@, j as int));
            }
            tokens.push(tok);
            assert(toks(tokens@) =~= done.push(tok@));
            i = j;
            continue;
        }
        if i + 1 < n {
            if let Some(op) = two_char_op_of(ch, s[i + 1]) {
                let tok = Token::Op(op);
                proof {
                    lemma_extend_push(done, tok@, tokens_from(s@, i + 2));
                }
                tokens.push(tok);
                assert(toks(tokens@) =~= done.push(tok@));
                i += 2;
                continue;
            }
        }
        let p = if ch == '(' {
            Some(Token::LParen)
        } else if ch == ')' {
            Some(Token::RParen)
        } else if ch == ',' {
            Some(Token::Comma)
        } else if ch == '?' {
            Some(Token::Question)
        } else if ch == '#' {
            Some(Token::Hash)
        } else {
            None
        };
        if let Some(tok) = p {
            assert(punct(ch) == Some(tok@));
            proof {
                lemma_extend_push(done, tok@, tokens_from(s@, i + 1));
            }
            tokens.push(tok);
            assert(toks(tokens@) =~= done.push(tok@));
            i += 1;
            continue;
        }
        if let Some(op) = one_char_op_of(ch) {
            let tok = Token::Op(op);
            proof {
                lemma_extend_push(done, tok@, tokens_from(s@, i + 1));
            }
            tokens.push(tok);
            assert(toks(tokens@) =~= done.push(tok@));
            i += 1;
            continue;
        }
        proof {
            lemma_symbol_end(s@, i as int);
        }
        let mut j = i;
        while j < n && !ends_symbol_char(s[j])
            invariant
                i <= j <= n,
                n == s@.len(),
                symbol_end(s@, j as int) == symbol_end(s@, i as int),
            decreases n - j,
        {
            j += 1;
        }
        if j == i {
            return Err(ExprError::UnexpectedToken(char_string(ch)));
        }
        let tok = Token::Symbol(string_of(&s, i, j));
        proof {
            lemma_extend_push(done, tok@, tokens_from(s@, j as int));
        }
        tokens.push(tok);
        assert(toks(tokens@) =~= done.push(tok@));
        i = j;
    }
    proof {
        assert(toks(tokens@) + Seq::<Tok>::empty() =~= toks(tokens@));
    }
    Ok(tokens)
}


// ---------------------------------------------------------------------------
// Parsing
// ---------------------------------------------------------------------------

/// Binary operators with their left and right binding powers.
pub open spec fn binop(t: Tok) -> Option<(BinaryOp, int, int)> {
    match t {
        Tok::Op(o) => match o {
            OpSym::OrOr => Some((BinaryOp::Or, 1, 2)),
            OpSym::AndAnd => Some((BinaryOp::And, 3, 4)),
            OpSym::EqEq => Some((BinaryOp::Eq, 5, 6)),
            OpSym::NotEq => Some((BinaryOp::Ne, 5, 6)),
            OpSym::GtEq => Some((BinaryOp::Ge, 7, 8)),
            OpSym::Gt => Some((BinaryOp::Gt, 7, 8)),
            OpSym::LtEq => Some((BinaryOp::Le, 7, 8)),
            OpSym::Lt => Some((BinaryOp::Lt, 7, 8)),
            OpSym::Pipe => Some((BinaryOp::BitOr, 8, 9)),
            OpSym::Amp => Some((BinaryOp::BitAnd, 8, 9)),
            OpSym::Plus => Some((BinaryOp::Add, 9, 10)),
            OpSym::Minus => Some((BinaryOp::Sub, 9, 10)),
            OpSym::Star => Some((BinaryOp::Mul, 11, 12)),
            OpSym::Slash => Some((BinaryOp::Div, 11, 12)),
            OpSym::Percent => Some((BinaryOp::Rem, 11, 12)),
            _ => None,
        },
        _ => None,
    }
}

fn binop_of(t: &Token) -> (r: Option<(BinaryOp, u8, u8)>)
    ensures
        r matches Some((op, l, rb)) ==> binop(t@) == Some((op, l as int, rb as int)),
        r is None ==> binop(t@) is None,
{
    match t {
        Token::Op(o) => match o {
            OpSym::OrOr => Some((BinaryOp::Or, 1, 2)),
            OpSym::AndAnd => Some((BinaryOp::And, 3, 4)),
            OpSym::EqEq => Some((BinaryOp::Eq, 5, 6)),
            OpSym::NotEq => Some((BinaryOp::Ne, 5, 6)),
            OpSym::GtEq => Some((BinaryOp::Ge, 7, 8)),
            OpSym::Gt => Some((BinaryOp::Gt, 7, 8)),
            OpSym::LtEq => Some((BinaryOp::Le, 7, 8)),
            OpSym::Lt => Some((BinaryOp::Lt, 7, 8)),
            OpSym::Pipe => Some((BinaryOp::BitOr, 8, 9)),
            OpSym::Amp => Some((BinaryOp::BitAnd, 8, 9)),
            OpSym::Plus => Some((BinaryOp::Add, 9, 10)),
            OpSym::Minus => Some((BinaryOp::Sub, 9, 10)),
            OpSym::Star => Some((BinaryOp::Mul, 11, 12)),
            OpSym::Slash => Some((BinaryOp::Div, 11, 12)),
            OpSym::Percent => Some((BinaryOp::Rem, 11, 12)),
            _ => None,
        },
        _ => None,
    }
}

/// How the token at `pos` is named in an error.
pub open spec fn peek_text(ts: Seq<Tok>, pos: int) -> Seq<char> {
    if 0 <= pos < ts.len() {
        match ts[pos] {
            Tok::Op(o) => op_text(o),
            Tok::Question => "?"@,
            Tok::Hash => "#"@,
            Tok::Comma => ","@,
            Tok::LParen => "("@,
            Tok::RParen => ")"@,
            Tok::Symbol(v) => v,
            Tok::Str(_) => "<string>"@,
            Tok::Int(_) => "<int>"@,
        }
    } else {
        "<end>"@
    }
}

fn peek_text_of(ts: &Vec<Token>, pos: usize) -> (r: String)
    ensures
        r@ == peek_text(toks(ts@), pos as int),
{
    if pos < ts.len() {
        match &ts[pos] {
            Token::Op(o) => op_str(*o).to_owned(),
            Token::Question => "?".to_owned(),
            Token::Hash => "#".to_owned(),
            Token::Comma => ",".to_owned(),
            Token::LParen => "(".to_owned(),
            Token::RParen => ")".to_owned(),
            Token::Symbol(v) => v.clone(),
            Token::Str(_) => "<string>".to_owned(),
            Token::Int(_) => "<int>".to_owned(),
        }
    } else {
        "<end>".to_owned()
    }
}

/// How a token that cannot begin an expression is named in an error (its
/// `Debug` form).
pub open spec fn token_debug(t: Tok) -> Seq<char> {
    match t {
        Tok::Op(o) => "Op(\""@ + op_text(o) + "\")"@,
        Tok::RParen => "RParen"@,
        Tok::Comma => "Comma"@,
        Tok::Question => "Question"@,
        Tok::Hash => "Hash"@,
        Tok::LParen => "LParen"@,
        _ => seq![],
    }
}

fn token_debug_of(t: &Token) -> (r: String)
    requires
        !(t is Int || t is Str || t is Symbol),
    ensures
        r@ == token_debug(t@),
{
    match t {
        Token::Op(o) => {
            let mut r = "Op(\"".to_owned();
            push_str(&mut r, op_str(*o));
            push_str(&mut r, "\")");
            r
        },
        Token::RParen => "RParen".to_owned(),
        Token::Comma => "Comma".to_owned(),
        Token::Question => "Question".to_owned(),
        Token::Hash => "Hash".to_owned(),
        Token::LParen => "LParen".to_owned(),
        _ => String::new(),
    }
}

pub type PRes = Result<(ExprV, int), ExprErr>;

/// An expression whose operators bind at least as tightly as `min_bp`,
/// starting at token `pos`; on success, the expression and the position after
/// it.
pub open spec fn pexpr(ts: Seq<Tok>, pos: int, min_bp: int) -> PRes
    decreases ts.len() - pos, 3int,
{
    if pos < 0 || pos > ts.len() {
        Err(ExprErr::UnexpectedEnd)
    } else {
        match pprefix(ts, pos) {
            Err(e) => Err(e),
            Ok((lhs, p)) => if p <= pos || p > ts.len() {
                Err(ExprErr::UnexpectedEnd)
            } else {
                ploop(ts, p, lhs, min_bp)
            },
        }
    }
}

/// Operands that begin an expression: numbers, strings, variables, calls,
/// `-` and `!` applied to a tightly bound operand, and parenthesised
/// expressions.
pub open spec fn pprefix(ts: Seq<Tok>, pos: int) -> PRes
    decreases ts.len() - pos, 2int,
{
    if pos < 0 || pos >= ts.len() {
        Err(ExprErr::UnexpectedEnd)
    } else {
        match ts[pos] {
            Tok::Int(v) => Ok((ExprV::Value(Val::Int(v)), pos + 1)),
            Tok::Str(v) => Ok((ExprV::Value(Val::Str(v)), pos + 1)),
            Tok::Symbol(name) => if pos + 1 < ts.len() && ts[pos + 1] is LParen {
                if pos + 2 < ts.len() && ts[pos + 2] is RParen {
                    Ok((ExprV::Call { name, args: seq![] }, pos + 3))
                } else {
                    match pargs(ts, pos + 2, seq![]) {
                        Err(e) => Err(e),
                        Ok((args, q)) => Ok((ExprV::Call { name, args }, q)),
                    }
                }
            } else {
                Ok((ExprV::Variable(name), pos + 1))
            },
            Tok::Op(OpSym::Minus) => match pexpr(ts, pos + 1, 13) {
                Err(e) => Err(e),
                Ok((rhs, q)) => Ok((ExprV::Unary { op: UnaryOp::Neg, rhs: Box::new(rhs) }, q)),
            },
            Tok::Op(OpSym::Bang) => match pexpr(ts, pos + 1, 13) {
                Err(e) => Err(e),
                Ok((rhs, q)) => Ok((ExprV::Unary { op: UnaryOp::Not, rhs: Box::new(rhs) }, q)),
            },
            Tok::LParen => match pexpr(ts, pos + 1, 0) {
                Err(e) => Err(e),
                Ok((inner, q)) => if 0 <= q < ts.len() && ts[q] is RParen {
                    Ok((inner, q + 1))
                } else {
                    Err(
                        ExprErr::UnexpectedToken(
                            peek_text(
                                ts,
                                if q < ts.len() {
                                    q + 1
                                } else {
                                    q
                                },
                            ),
                        ),
                    )
                },
            },
            t => Err(ExprErr::UnexpectedToken(token_debug(t))),
        }
    }
}

/// Call arguments after `(`: expressions separated by `,` up to `)`.
pub open spec fn pargs(ts: Seq<Tok>, pos: int, acc: Seq<ExprV>) -> Result<(Seq<ExprV>, int), ExprErr>
    decreases ts.len() - pos, 4int,
{
    if pos < 0 || pos > ts.len() {
        Err(ExprErr::UnexpectedEnd)
    } else {
        match pexpr(ts, pos, 0) {
            Err(e) => Err(e),
            Ok((arg, q)) => if q <= pos || q > ts.len() {
                Err(ExprErr::UnexpectedEnd)
            } else if q < ts.len() && ts[q] is RParen {
                Ok((acc.push(arg), q + 1))
            } else if q < ts.len() && ts[q] is Comma {
                pargs(ts, q + 1, acc.push(arg))
            } else {
                Err(ExprErr::UnexpectedToken(peek_text(ts, q)))
            },
        }
    }
}

/// Continues an expression whose left operand `lhs` ends before `pos`:
/// `? then # else` and binary operators binding at least as tightly as
/// `min_bp`.
pub open spec fn ploop(ts: Seq<Tok>, pos: int, lhs: ExprV, min_bp: int) -> PRes
    decreases ts.len() - pos, 0int,
{
    if pos < 0 || pos > ts.len() {
        Err(ExprErr::UnexpectedEnd)
    } else if pos < ts.len() && ts[pos] is Question {
        match pexpr(ts, pos + 1, 0) {
            Err(e) => Err(e),
            Ok((then_expr, q1)) => if q1 <= pos || q1 > ts.len() {
                Err(ExprErr::UnexpectedEnd)
            } else if !(q1 < ts.len() && ts[q1] is Hash) {
                Err(ExprErr::UnexpectedToken(peek_text(ts, q1)))
            } else {
                match pexpr(ts, q1 + 1, 0) {
                    Err(e) => Err(e),
                    Ok((else_expr, q2)) => if q2 <= pos || q2 > ts.len() {
                        Err(ExprErr::UnexpectedEnd)
                    } else {
                        ploop(
                            ts,
                            q2,
                            ExprV::Conditional {
                                condition: Box::new(lhs),
                                then_expr: Box::new(then_expr),
                                else_expr: Box::new(else_expr),
                            },
                            min_bp,
                        )
                    },
                }
            },
        }
    } else {
        match if pos < ts.len() {
            binop(ts[pos])
        } else {
            None
        } {
            None => Ok((lhs, pos)),
            Some((op, l, r)) => if l < min_bp {
                Ok((lhs, pos))
            } else {
                match pexpr(ts, pos + 1, r) {
                    Err(e) => Err(e),
                    Ok((rhs, q)) => if q <= pos || q > ts.len() {
                        Err(ExprErr::UnexpectedEnd)
                    } else {
                        ploop(
                            ts,
                            q,
                            ExprV::Binary { lhs: Box::new(lhs), op, rhs: Box::new(rhs) },
                            min_bp,
                        )
                    },
                }
            },
        }
    }
}

/// The expression that a text denotes.
pub open spec fn parse_spec(text: Seq<char>) -> Result<ExprV, ExprErr> {
    match tokenize_spec(text) {
        Err(e) => Err(e),
        Ok(ts) => match pexpr(ts, 0, 0) {
            Err(e) => Err(e),
            Ok((e, q)) => if q < ts.len() {
                Err(ExprErr::UnexpectedToken(peek_text(ts, q)))
            } else {
                Ok(e)
            },
        },
    }
}

pub open spec fn pres(r: Result<(Expr, usize), ExprError>) -> PRes {
    match r {
        Ok((e, q)) => Ok((e@, q as int)),
        Err(e) => Err(e@),
    }
}

pub open spec fn ares(r: Result<(Vec<Expr>, usize), ExprError>) -> Result<(Seq<ExprV>, int), ExprErr> {
    match r {
        Ok((a, q)) => Ok((exprs_view(a@), q as int)),
        Err(e) => Err(e@),
    }
}

proof fn lemma_exprs_view_push(a: Seq<Expr>, e: Expr)
    ensures
        exprs_view(a.push(e)) == exprs_view(a).push(e@),
    decreases a.len(),
{
    if a.len() == 0 {
        assert(a.push(e).drop_first() =~= Seq::<Expr>::empty());
        assert(a.push(e)[0] == e);
        assert(exprs_view(Seq::<Expr>::empty()) == Seq::<ExprV>::empty());
        assert(exprs_view(a) == Seq::<ExprV>::empty());
        assert(exprs_view(a.push(e)) =~= seq![e@]);
    } else {
        assert(a.push(e).drop_first() =~= a.drop_first().push(e));
        assert(a.push(e)[0] == a[0]);
        lemma_exprs_view_push(a.drop_first(), e);
        assert(exprs_view(a.push(e)) =~= exprs_view(a).push(e@));
    }
}

fn parse_expr(ts: &Vec<Token>, pos: usize, min_bp: u8) -> (r: Result<(Expr, usize), ExprError>)
    requires
        pos <= ts.len(),
    ensures
        pres(r) == pexpr(toks(ts@), pos as int, min_bp as int),
        r matches Ok((_, q)) ==> pos < q <= ts.len(),
    decreases ts.len() - pos, 3int,
{
    match parse_prefix(ts, pos) {
        Err(e) => Err(e),
        Ok((lhs, p)) => parse_loop(ts, p, lhs, min_bp),
    }
}

fn parse_prefix(ts: &Vec<Token>, pos: usize) -> (r: Result<(Expr, usize), ExprError>)
    requires
        pos <= ts.len(),
    ensures
        pres(r) == pprefix(toks(ts@), pos as int),
        r matches Ok((_, q)) ==> pos < q <= ts.len(),
    decreases ts.len() - pos, 2int,
{
    let ghost t = toks(ts@);
    if pos >= ts.len() {
        return Err(ExprError::UnexpectedEnd);
    }
    assert(t[pos as int] == ts@[pos as int]@);
    match &ts[pos] {
        Token::Int(v) => Ok((Expr::Value(Value::Int(*v)), pos + 1)),
        Token::Str(v) => Ok((Expr::Value(Value::Str(v.clone())), pos + 1)),
        Token::Symbol(name) => {
            if pos + 1 < ts.len() && matches!(ts[pos + 1], Token::LParen) {
                assert(t[pos + 1] == ts@[pos + 1]@);
                if pos + 2 < ts.len() && matches!(ts[pos + 2], Token::RParen) {
                    assert(t[pos + 2] == ts@[pos + 2]@);
                    let r = Expr::Call { name: name.clone(), args: Vec::new() };
                    assert(exprs_view(Seq::<Expr>::empty()) =~= seq![]);
                    return Ok((r, pos + 3));
                }
                if pos + 2 < ts.len() {
                    assert(t[pos + 2] == ts@[pos + 2]@);
                }
                assert(exprs_view(Seq::<Expr>::empty()) =~= seq![]);
                match parse_args(ts, pos + 2, Vec::new()) {
                    Err(e) => Err(e),
                    Ok((args, q)) => Ok((Expr::Call { name: name.clone(), args }, q)),
                }
            } else {
                if pos + 1 < ts.len() {
                    assert(t[pos + 1] == ts@[pos + 1]@);
                }
                Ok((Expr::Variable(name.clone()), pos + 1))
            }
        },
        Token::Op(OpSym::Minus) => match parse_expr(ts, pos + 1, 13) {
            Err(e) => Err(e),
            Ok((rhs, q)) => Ok((Expr::Unary { op: UnaryOp::Neg, rhs: Box::new(rhs) }, q)),
        },
        Token::Op(OpSym::Bang) => match parse_expr(ts, pos + 1, 13) {
            Err(e) => Err(e),
            Ok((rhs, q)) => Ok((Expr::Unary { op: UnaryOp::Not, rhs: Box::new(rhs) }, q)),
        },
        Token::LParen => match parse_expr(ts, pos + 1, 0) {
            Err(e) => Err(e),
            Ok((inner, q)) => {
                if q < ts.len() && matches!(ts[q], Token::RParen) {
                    assert(t[q as int] == ts@[q as int]@);
                    Ok((inner, q + 1))
                } else {
                    if q < ts.len() {
                        assert(t[q as int] == ts@[q as int]@);
                    }
                    let next = if q < ts.len() {
                        q + 1
                    } else {
                        q
                    };
                    Err(ExprError::UnexpectedToken(peek_text_of(ts, next)))
                }
            },
        },
        other => Err(ExprError::UnexpectedToken(token_debug_of(other))),
    }
}

fn parse_args(ts: &Vec<Token>, pos: usize, acc: Vec<Expr>) -> (r: Result<(Vec<Expr>, usize), ExprError>)
    requires
        pos <= ts.len(),
    ensures
        ares(r) == pargs(toks(ts@), pos as int, exprs_view(acc@)),
        r matches Ok((_, q)) ==> pos < q <= ts.len(),
    decreases ts.len() - pos, 4int,
{
    let ghost t = toks(ts@);
    match parse_expr(ts, pos, 0) {
        Err(e) => Err(e),
        Ok((arg, q)) => {
            let mut acc = acc;
            let ghost before = acc@;
            proof {
                lemma_exprs_view_push(before, arg);
            }
            acc.push(arg);
            if q < ts.len() && matches!(ts[q], Token::RParen) {
                assert(t[q as int] == ts@[q as int]@);
                Ok((acc, q + 1))
            } else if q < ts.len() && matches!(ts[q], Token::Comma) {
                assert(t[q as int] == ts@[q as int]@);
                parse_args(ts, q + 1, acc)
            } else {
                if q < ts.len() {
                    assert(t[q as int] == ts@[q as int]@);
                }
                Err(ExprError::UnexpectedToken(peek_text_of(ts, q)))
            }
        },
    }
}

fn parse_loop(ts: &Vec<Token>, pos: usize, lhs: Expr, min_bp: u8) -> (r: Result<(Expr, usize), ExprError>)
    requires
        pos <= ts.len(),
    ensures
        pres(r) == ploop(toks(ts@), pos as int, lhs@, min_bp as int),
        r matches Ok((_, q)) ==> pos <= q <= ts.len(),
    decreases ts.len() - pos, 0int,
{
    let ghost t = toks(ts@);
    if pos < ts.len() && matches!(ts[pos], Token::Question) {
        assert(t[pos as int] == ts@[pos as int]@);
        match parse_expr(ts, pos + 1, 0) {
            Err(e) => Err(e),
            Ok((then_expr, q1)) => {
                if !(q1 < ts.len() && matches!(ts[q1], Token::Hash)) {
                    if q1 < ts.len() {
                        assert(t[q1 as int] == ts@[q1 as int]@);
                    }
                    return Err(ExprError::UnexpectedToken(peek_text_of(ts, q1)));
                }
                assert(t[q1 as int] == ts@[q1 as int]@);
                match parse_expr(ts, q1 + 1, 0) {
                    Err(e) => Err(e),
                    Ok((else_expr, q2)) => {
                        let cond = Expr::Conditional {
                            condition: Box::new(lhs),
                            then_expr: Box::new(then_expr),
                            else_expr: Box::new(else_expr),
                        };
                        parse_loop(ts, q2, cond, min_bp)
                    },
                }
            },
        }
    } else {
        if pos < ts.len() {
            assert(t[pos as int] == ts@[pos as int]@);
        }
        let next = if pos < ts.len() {
            binop_of(&ts[pos])
        } else {
            None
        };
        match next {
            None => Ok((lhs, pos)),
            Some((op, l, rb)) => {
                if l < min_bp {
                    Ok((lhs, pos))
                } else {
                    match parse_expr(ts, pos + 1, rb) {
                        Err(e) => Err(e),
                        Ok((rhs, q)) => {
                            let bin = Expr::Binary { lhs: Box::new(lhs), op, rhs: Box::new(rhs) };
                            parse_loop(ts, q, bin, min_bp)
                        },
                    }
                }
            },
        }
    }
}

pub open spec fn parse_result(r: Result<Expr, ExprError>) -> Result<ExprV, ExprErr> {
    match r {
        Ok(e) => Ok(e@),
        Err(e) => Err(e@),
    }
}

/// Parses an expression: numbers, `"..."` strings, variables `NAME:INDEX`,
/// calls `NAME(...)`, unary `-` and `!`, binary operators by precedence
/// (`||` < `&&` < `==` `!=` < `>=` `>` `<=` `<` < `|` `&` < `+` `-` <
/// `*` `/` `%`, all left-associative) and `cond ? then # else`.
pub fn parse(text: &str) -> (r: Result<Expr, ExprError>)
    ensures
        parse_result(r) == parse_spec(text@),
{
    let tokens = tokenize(text)?;
    let (expr, q) = parse_expr(&tokens, 0, 0)?;
    if q < tokens.len() {
        return Err(ExprError::UnexpectedToken(peek_text_of(&tokens, q)));
    }
    Ok(expr)
}


// ---------------------------------------------------------------------------
// Evaluation
// ---------------------------------------------------------------------------

/// A value read as a number: text that is not a number reads as 0.
pub open spec fn as_int(v: Val) -> i64 {
    match v {
        Val::Int(x) => x,
        Val::Str(s) => match parse_i64(s) {
            Some(x) => x,
            None => 0,
        },
    }
}

/// A value read as a truth value: non-zero numbers and non-empty texts.
pub open spec fn as_bool(v: Val) -> bool {
    match v {
        Val::Int(x) => x != 0,
        Val::Str(s) => s.len() > 0,
    }
}

/// The text of a value.
pub open spec fn display(v: Val) -> Seq<char> {
    match v {
        Val::Int(x) => int_text(x as int),
        Val::Str(s) => s,
    }
}

pub open spec fn flag(b: bool) -> i64 {
    if b {
        1
    } else {
        0
    }
}

pub open spec fn wrap_add(a: i64, b: i64) -> i64 {
    vstd::wrapping::i64_specs::wrapping_add(a, b)
}

pub open spec fn wrap_sub(a: i64, b: i64) -> i64 {
    vstd::wrapping::i64_specs::wrapping_sub(a, b)
}

pub open spec fn wrap_mul(a: i64, b: i64) -> i64 {
    vstd::wrapping::i64_specs::wrapping_mul(a, b)
}

/// Division truncating toward zero; `i64::MIN / -1` wraps to `i64::MIN`.
pub open spec fn wrap_div(a: i64, b: i64) -> i64 {
    match a.checked_div(b) {
        Some(q) => q,
        None => i64::MIN,
    }
}

/// Remainder with the sign of the dividend; `i64::MIN % -1` is 0.
pub open spec fn wrap_rem(a: i64, b: i64) -> i64 {
    match a.checked_rem(b) {
        Some(q) => q,
        None => 0,
    }
}

/// A binary operator applied to two values.
pub open spec fn eval_binary_spec(lhs: Val, op: BinaryOp, rhs: Val) -> Result<Val, ExprErr> {
    match op {
        BinaryOp::Or => Ok(Val::Int(flag(as_bool(lhs) || as_bool(rhs)))),
        BinaryOp::And => Ok(Val::Int(flag(as_bool(lhs) && as_bool(rhs)))),
        BinaryOp::Eq => Ok(Val::Int(flag(lhs == rhs))),
        BinaryOp::Ne => Ok(Val::Int(flag(lhs != rhs))),
        BinaryOp::Ge => Ok(Val::Int(flag(as_int(lhs) >= as_int(rhs)))),
        BinaryOp::Gt => Ok(Val::Int(flag(as_int(lhs) > as_int(rhs)))),
        BinaryOp::Le => Ok(Val::Int(flag(as_int(lhs) <= as_int(rhs)))),
        BinaryOp::Lt => Ok(Val::Int(flag(as_int(lhs) < as_int(rhs)))),
        BinaryOp::BitOr => Ok(Val::Int(as_int(lhs) | as_int(rhs))),
        BinaryOp::BitAnd => Ok(Val::Int(as_int(lhs) & as_int(rhs))),
        BinaryOp::Add => match (lhs, rhs) {
            (Val::Str(a), Val::Str(b)) => Ok(Val::Str(a + b)),
            (Val::Str(a), b) => Ok(Val::Str(a + display(b))),
            (a, Val::Str(b)) => Ok(Val::Str(display(a) + b)),
            (a, b) => Ok(Val::Int(wrap_add(as_int(a), as_int(b)))),
        },
        BinaryOp::Sub => Ok(Val::Int(wrap_sub(as_int(lhs), as_int(rhs)))),
        BinaryOp::Mul => Ok(Val::Int(wrap_mul(as_int(lhs), as_int(rhs)))),
        BinaryOp::Div => if as_int(rhs) == 0 {
            Err(ExprErr::DivisionByZero)
        } else {
            Ok(Val::Int(wrap_div(as_int(lhs), as_int(rhs))))
        },
        BinaryOp::Rem => if as_int(rhs) == 0 {
            Err(ExprErr::DivisionByZero)
        } else {
            Ok(Val::Int(wrap_rem(as_int(lhs), as_int(rhs))))
        },
    }
}

/// The value of an expression, reading variables from `store` and resolving
/// names with the CSV name tables `tables`.  `&&` and `||` do not evaluate
/// their right operand when the left one decides.  `GETBIT(v, b)` is bit `b`
/// of `v`; `STRLENS(v)` is the number of characters of `v`'s text.
pub open spec fn eval_spec(
    e: ExprV,
    tables: Map<Seq<char>, NameTableView>,
    store: Map<(Seq<char>, Seq<i64>), Val>,
) -> Result<Val, ExprErr>
    decreases e,
{
    match e {
        ExprV::Value(v) => Ok(v),
        ExprV::Variable(text) => match address_of(tables, text) {
            None => Err(ExprErr::InvalidVariable(text)),
            Some(a) => Ok(store_get(store, a)),
        },
        ExprV::Unary { op, rhs } => match eval_spec(*rhs, tables, store) {
            Err(err) => Err(err),
            Ok(v) => match op {
                UnaryOp::Neg => Ok(Val::Int(wrap_sub(0, as_int(v)))),
                UnaryOp::Not => Ok(Val::Int(flag(!as_bool(v)))),
            },
        },
        ExprV::Binary { lhs, op, rhs } => match eval_spec(*lhs, tables, store) {
            Err(err) => Err(err),
            Ok(l) => if op == BinaryOp::And && !as_bool(l) {
                Ok(Val::Int(0))
            } else if op == BinaryOp::Or && as_bool(l) {
                Ok(Val::Int(1))
            } else {
                match eval_spec(*rhs, tables, store) {
                    Err(err) => Err(err),
                    Ok(r) => eval_binary_spec(l, op, r),
                }
            },
        },
        ExprV::Conditional { condition, then_expr, else_expr } => match eval_spec(
            *condition,
            tables,
            store,
        ) {
            Err(err) => Err(err),
            Ok(c) => if as_bool(c) {
                eval_spec(*then_expr, tables, store)
            } else {
                eval_spec(*else_expr, tables, store)
            },
        },
        ExprV::Call { name, args } => if upper(name) == "GETBIT"@ {
            if args.len() != 2 {
                Err(ExprErr::UnexpectedToken(name))
            } else {
                match eval_spec(args[0], tables, store) {
                    Err(err) => Err(err),
                    Ok(v) => match eval_spec(args[1], tables, store) {
                        Err(err) => Err(err),
                        Ok(b) => Ok(
                            Val::Int(
                                vstd::wrapping::i64_specs::wrapping_shr(
                                    as_int(v),
                                    as_int(b) as u32,
                                ) & 1,
                            ),
                        ),
                    },
                }
            }
        } else if upper(name) == "STRLENS"@ {
            if args.len() != 1 {
                Err(ExprErr::UnexpectedToken(name))
            } else {
                match eval_spec(args[0], tables, store) {
                    Err(err) => Err(err),
                    Ok(v) => Ok(Val::Int(display(v).len() as i64)),
                }
            }
        } else {
            Err(ExprErr::InvalidVariable(name))
        },
    }
}

pub open spec fn value_result(r: Result<Value, ExprError>) -> Result<Val, ExprErr> {
    match r {
        Ok(v) => Ok(v@),
        Err(e) => Err(e@),
    }
}

impl Value {
    /// The value read as a number.
    pub fn as_int(&self) -> (r: i64)
        ensures
            r == as_int(self@),
    {
        match self {
            Value::Int(v) => *v,
            Value::Str(s) => match crate::text::parse_i64_str(s.as_str()) {
                Some(v) => v,
                None => 0,
            },
        }
    }

    /// The value read as a truth value.
    pub fn as_bool(&self) -> (r: bool)
        ensures
            r == as_bool(self@),
    {
        match self {
            Value::Int(v) => *v != 0,
            Value::Str(s) => chars_of(s.as_str()).len() > 0,
        }
    }

    /// The text of the value.
    pub fn to_display_string(&self) -> (r: String)
        ensures
            r@ == display(self@),
    {
        match self {
            Value::Int(v) => int_to_string(*v),
            Value::Str(s) => s.clone(),
        }
    }
}

fn bool_value(b: bool) -> (r: Value)
    ensures
        r@ == Val::Int(flag(b)),
{
    if b {
        Value::Int(1)
    } else {
        Value::Int(0)
    }
}

fn concat_strings(a: &String, b: &String) -> (r: String)
    ensures
        r@ == a@ + b@,
{
    let mut r = a.clone();
    push_str(&mut r, b.as_str());
    r
}

/// A binary operator applied to two values.
pub fn eval_binary(lhs: Value, op: BinaryOp, rhs: Value) -> (r: Result<Value, ExprError>)
    ensures
        value_result(r) == eval_binary_spec(lhs@, op, rhs@),
{
    match op {
        BinaryOp::Or => Ok(bool_value(lhs.as_bool() || rhs.as_bool())),
        BinaryOp::And => Ok(bool_value(lhs.as_bool() && rhs.as_bool())),
        BinaryOp::Eq => Ok(bool_value(lhs.same(&rhs))),
        BinaryOp::Ne => Ok(bool_value(!lhs.same(&rhs))),
        BinaryOp::Ge => Ok(bool_value(lhs.as_int() >= rhs.as_int())),
        BinaryOp::Gt => Ok(bool_value(lhs.as_int() > rhs.as_int())),
        BinaryOp::Le => Ok(bool_value(lhs.as_int() <= rhs.as_int())),
        BinaryOp::Lt => Ok(bool_value(lhs.as_int() < rhs.as_int())),
        BinaryOp::BitOr => Ok(Value::Int(lhs.as_int() | rhs.as_int())),
        BinaryOp::BitAnd => Ok(Value::Int(lhs.as_int() & rhs.as_int())),
        BinaryOp::Add => match (&lhs, &rhs) {
            (Value::Str(a), Value::Str(b)) => Ok(Value::Str(concat_strings(a, b))),
            (Value::Str(a), _) => Ok(Value::Str(concat_strings(a, &rhs.to_display_string()))),
            (_, Value::Str(b)) => Ok(Value::Str(concat_strings(&lhs.to_display_string(), b))),
            _ => Ok(Value::Int(lhs.as_int().wrapping_add(rhs.as_int()))),
        },
        BinaryOp::Sub => Ok(Value::Int(lhs.as_int().wrapping_sub(rhs.as_int()))),
        BinaryOp::Mul => Ok(Value::Int(lhs.as_int().wrapping_mul(rhs.as_int()))),
        BinaryOp::Div => {
            let d = rhs.as_int();
            if d == 0 {
                Err(ExprError::DivisionByZero)
            } else {
                match lhs.as_int().checked_div(d) {
                    Some(q) => Ok(Value::Int(q)),
                    None => Ok(Value::Int(i64::MIN)),
                }
            }
        },
        BinaryOp::Rem => {
            let d = rhs.as_int();
            if d == 0 {
                Err(ExprError::DivisionByZero)
            } else {
                match lhs.as_int().checked_rem(d) {
                    Some(q) => Ok(Value::Int(q)),
                    None => Ok(Value::Int(0)),
                }
            }
        },
    }
}

fn is_named(name: &String, lit: &str) -> (r: bool)
    ensures
        r == (upper(name@) == lit@),
{
    let u = upper_string(name.as_str());
    crate::text::str_eq(u.as_str(), lit)
}

/// Evaluates an expression.
pub fn eval(expr: &Expr, resolver: &VarResolver<'_>, variables: &VarStore) -> (r: Result<
    Value,
    ExprError,
>)
    ensures
        value_result(r) == eval_spec(expr@, resolver.tables(), variables@),
    decreases expr,
{
    match expr {
        Expr::Value(value) => Ok(value.duplicate()),
        Expr::Variable(address) => match resolver.parse_address(address.as_str()) {
            None => Err(ExprError::InvalidVariable(address.clone())),
            Some(a) => Ok(variables.get(&a)),
        },
        Expr::Unary { op, rhs } => {
            let v = eval(rhs, resolver, variables)?;
            match op {
                UnaryOp::Neg => Ok(Value::Int(0i64.wrapping_sub(v.as_int()))),
                UnaryOp::Not => Ok(bool_value(!v.as_bool())),
            }
        },
        Expr::Binary { lhs, op, rhs } => {
            let l = eval(lhs, resolver, variables)?;
            match op {
                BinaryOp::And => {
                    if !l.as_bool() {
                        return Ok(Value::Int(0));
                    }
                },
                BinaryOp::Or => {
                    if l.as_bool() {
                        return Ok(Value::Int(1));
                    }
                },
                _ => {},
            }
            let r = eval(rhs, resolver, variables)?;
            eval_binary(l, *op, r)
        },
        Expr::Conditional { condition, then_expr, else_expr } => {
            let c = eval(condition, resolver, variables)?;
            if c.as_bool() {
                eval(then_expr, resolver, variables)
            } else {
                eval(else_expr, resolver, variables)
            }
        },
        Expr::Call { name, args } => eval_call(expr, name, args, resolver, variables),
    }
}

fn eval_call(
    expr: &Expr,
    name: &String,
    args: &Vec<Expr>,
    resolver: &VarResolver<'_>,
    variables: &VarStore,
) -> (r: Result<Value, ExprError>)
    requires
        *expr == (Expr::Call { name: *name, args: *args }),
    ensures
        value_result(r) == eval_spec(expr@, resolver.tables(), variables@),
    decreases expr, 0int,
{
    proof {
        assert(exprs_view(args@).len() == args@.len()) by {
            lemma_exprs_view_len(args@);
        }
    }
    if is_named(name, "GETBIT") {
        if args.len() != 2 {
            return Err(ExprError::UnexpectedToken(name.clone()));
        }
        proof {
            lemma_exprs_view_index(args@, 0);
            lemma_exprs_view_index(args@, 1);
            assert(decreases_to!(*expr => (*expr)->Call_args));
            assert(decreases_to!((*expr)->Call_args => (*expr)->Call_args@));
            assert(decreases_to!(args@ => args@[0]));
            assert(decreases_to!(args@ => args@[1]));
        }
        let v = eval(&args[0], resolver, variables)?;
        let b = eval(&args[1], resolver, variables)?;
        let x = v.as_int();
        let bit = b.as_int();
        Ok(Value::Int(x.wrapping_shr(bit as u32) & 1))
    } else if is_named(name, "STRLENS") {
        if args.len() != 1 {
            return Err(ExprError::UnexpectedToken(name.clone()));
        }
        proof {
            lemma_exprs_view_index(args@, 0);
            assert(decreases_to!(*expr => (*expr)->Call_args));
            assert(decreases_to!((*expr)->Call_args => (*expr)->Call_args@));
            assert(decreases_to!(args@ => args@[0]));
        }
        let v = eval(&args[0], resolver, variables)?;
        let text = v.to_display_string();
        let n = chars_of(text.as_str()).len();
        Ok(Value::Int(n as i64))
    } else {
        Err(ExprError::InvalidVariable(name.clone()))
    }
}

pub proof fn lemma_exprs_view_len(a: Seq<Expr>)
    ensures
        exprs_view(a).len() == a.len(),
    decreases a.len(),
{
    if a.len() > 0 {
        lemma_exprs_view_len(a.drop_first());
    }
}

pub proof fn lemma_exprs_view_index(a: Seq<Expr>, i: int)
    requires
        0 <= i < a.len(),
    ensures
        exprs_view(a)[i] == a[i]@,
    decreases a.len(),
{
    let rest = exprs_view(a.drop_first());
    assert(exprs_view(a) == seq![a[0]@] + rest);
    if i > 0 {
        lemma_exprs_view_index(a.drop_first(), i - 1);
        lemma_exprs_view_len(a.drop_first());
        assert(a.drop_first()[i - 1] == a[i]);
        assert((seq![a[0]@] + rest)[i] == rest[i - 1]);
    }
}

} // verus!
