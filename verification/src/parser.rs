//! The parser of the Matrix Language: a recursive-descent parser over the
//! tokens of the lexer.
//!
//! Grammar, loosest binding first (`X*` is any number of `X`, `X?` at most
//! one):
//!
//! ```text
//! program    := item* EOF
//! item       := let ';'? | struct_def | expr ';'?
//! let        := 'let' IDENT (':' type)? '=' expr
//! struct_def := 'struct' IDENT '{' (IDENT ':' type (',' IDENT ':' type)* ','?)? '}'
//! expr       := directive | if | lambda | or
//! directive  := '@' IDENT '{' block          (IDENT is `sim` or `plot`)
//! if         := 'if' expr '{' block ('else' ('{' block | if))?
//! lambda     := '(' (param (',' param)*)? ')' ('->' type)? '=>' expr
//! param      := IDENT (':' type)?
//! or         := and ('||' and)*
//! and        := eq ('&&' eq)*
//! eq         := comparison (('==' | '!=') comparison)*
//! comparison := range (('<' | '<=' | '>' | '>=') range)*
//! range      := add ('..' add)?
//! add        := mul (('+' | '-') mul)*
//! mul        := pow (('*' | '/' | '%') pow)*
//! pow        := unary ('^' pow)?
//! unary      := ('-' | '!') unary | postfix
//! postfix    := primary ('(' (expr (',' expr)*)? ')' | '.' IDENT)*
//! primary    := INT | FLOAT | STRING | 'true' | 'false'
//!             | TYPENAME '{' (IDENT ':' expr (',' IDENT ':' expr)* ','?)? '}'
//!             | IDENT | '(' expr ')' | '[' ']' | '[' expr (',' expr)* ']'
//!             | '[' row (',' row)* ']' | '{' block
//! row        := '[' (expr (',' expr)*)? ']'
//! block      := (let ';'? | expr ';' | expr)* expr? '}'
//! type       := IDENT
//! ```
//!
//! An opening parenthesis starts a lambda when it is followed by `)`, or by
//! an identifier and then `:`, `,`, or `)` with `=>` or `->` after it. An
//! identifier followed by `{` is a struct creation when it starts with an
//! upper-case letter (TYPENAME). In a block, an expression directly before
//! `}` is the block's result.
use vstd::prelude::*;
use crate::ast::{
    BinaryOperator, Expression, FieldInit, Item, LetBinding, Parameter, Program, SpecExpr,
    SpecFieldInit, SpecItem, SpecLetBinding, SpecParameter, SpecProgram, SpecStatement,
    SpecStructDef, SpecStructField, SpecType, Statement, StructDef, StructField, Type,
    UnaryOperator, view_expr, view_exprs, view_field_inits, view_let, view_params, view_program,
    view_rows, view_stmts, view_type, view_opt_type,
};
use crate::text::same_chars;
use crate::lexer::{
    LexErrorKind, Lexer, SpecToken, SpecTokenWithSpan, Token, TokenWithSpan, tokens_of, tokenize_spec,
    view_tokens,
};

verus! {

/// What the parser expected where it failed.
#[derive(Debug, Clone, Copy, PartialEq, Eq, Structural)]
pub enum Expectation {
    Expression,
    Identifier,
    Type,
    Assign,
    Colon,
    LeftBrace,
    RightBrace,
    RightParen,
    RightBracket,
    FatArrow,
    /// `sim` or `plot` after `@`.
    DirectiveName,
}

#[derive(Debug, Clone, PartialEq, Eq, Structural)]
pub enum ParseErrorKind {
    /// Another token was found where the expectation was not met.
    Expected(Expectation),
    /// The source text could not be split into tokens.
    Lex(LexErrorKind),
}

/// A parse error, at the line and column of the offending token.
#[derive(Debug, Clone, PartialEq, Eq, Structural)]
pub struct ParseError {
    pub kind: ParseErrorKind,
    pub line: usize,
    pub column: usize,
}

/// The token at index `i`, `Eof` past the end.
pub open spec fn tk(ts: Seq<SpecTokenWithSpan>, i: int) -> SpecToken {
    if 0 <= i < ts.len() {
        ts[i].token
    } else {
        SpecToken::Eof
    }
}

/// The error "expected `e`" at the token at index `i`.
pub open spec fn err_at(ts: Seq<SpecTokenWithSpan>, i: int, e: Expectation) -> ParseError {
    ParseError {
        kind: ParseErrorKind::Expected(e),
        line: if 0 <= i < ts.len() { ts[i].line as usize } else { 0 },
        column: if 0 <= i < ts.len() { ts[i].column as usize } else { 0 },
    }
}

/// The outcome where a sub-parse did not move forward; parses always move
/// forward, so this never arises: it only bounds the recursion.
pub open spec fn no_progress(ts: Seq<SpecTokenWithSpan>, i: int) -> ParseError {
    err_at(ts, i, Expectation::Expression)
}

pub open spec fn seq_int() -> Seq<char> {
    seq!['I', 'n', 't']
}

pub open spec fn seq_float() -> Seq<char> {
    seq!['F', 'l', 'o', 'a', 't']
}

pub open spec fn seq_bool() -> Seq<char> {
    seq!['B', 'o', 'o', 'l']
}

pub open spec fn seq_string() -> Seq<char> {
    seq!['S', 't', 'r', 'i', 'n', 'g']
}

pub open spec fn type_from_name(n: Seq<char>) -> SpecType {
    if n == seq_int() {
        SpecType::Int
    } else if n == seq_float() {
        SpecType::Float
    } else if n == seq_bool() {
        SpecType::Bool
    } else if n == seq_string() {
        SpecType::String
    } else {
        SpecType::Named(n)
    }
}

/// A type annotation names the type written: `Int`, `Float`, `Bool` and
/// `String` give those four types, each from its own name alone, and any
/// other name the named type of that name.
pub proof fn law_type_names(n: Seq<char>)
    ensures
        type_from_name(n) == SpecType::Int <==> n == "Int"@,
        type_from_name(n) == SpecType::Float <==> n == "Float"@,
        type_from_name(n) == SpecType::Bool <==> n == "Bool"@,
        type_from_name(n) == SpecType::String <==> n == "String"@,
        type_from_name(n) is Named ==> type_from_name(n) == SpecType::Named(n),
{
    reveal_strlit("Int");
    reveal_strlit("Float");
    reveal_strlit("Bool");
    reveal_strlit("String");
    assert("Int"@ =~= seq_int());
    assert("Float"@ =~= seq_float());
    assert("Bool"@ =~= seq_bool());
    assert("String"@ =~= seq_string());
}

/// A name that can start a struct creation: its first character is an
/// upper-case ASCII letter.
pub open spec fn is_type_name(n: Seq<char>) -> bool {
    n.len() > 0 && 'A' <= n[0] && n[0] <= 'Z'
}

pub open spec fn p_type(ts: Seq<SpecTokenWithSpan>, i: int) -> Result<(SpecType, int), ParseError> {
    match tk(ts, i) {
        SpecToken::Identifier(n) => Ok((type_from_name(n), i + 1)),
        _ => Err(err_at(ts, i, Expectation::Type)),
    }
}

/// A type position reads one identifier and gives the type it names:
/// `Int`, `Float`, `Bool` and `String` their own types, each from its own
/// name alone, and any other name the named type; anything else there is
/// an error.
pub proof fn law_type_annotation(ts: Seq<SpecTokenWithSpan>, i: int)
    ensures
        match p_type(ts, i) {
            Ok((t, j)) => {
                &&& j == i + 1
                &&& tk(ts, i) is Identifier
                &&& (t == SpecType::Int <==> tk(ts, i)->Identifier_0 == "Int"@)
                &&& (t == SpecType::Float <==> tk(ts, i)->Identifier_0 == "Float"@)
                &&& (t == SpecType::Bool <==> tk(ts, i)->Identifier_0 == "Bool"@)
                &&& (t == SpecType::String <==> tk(ts, i)->Identifier_0 == "String"@)
                &&& (t is Named ==> t == SpecType::Named(tk(ts, i)->Identifier_0))
            },
            Err(_) => !(tk(ts, i) is Identifier),
        },
{
    if let SpecToken::Identifier(n) = tk(ts, i) {
        law_type_names(n);
    }
}

/// An optional `: type` at index `i`.
pub open spec fn p_opt_type(ts: Seq<SpecTokenWithSpan>, i: int) -> Result<(Option<SpecType>, int), ParseError> {
    if tk(ts, i) is Colon {
        match p_type(ts, i + 1) {
            Ok((t, j)) => Ok((Some(t), j)),
            Err(e) => Err(e),
        }
    } else {
        Ok((None, i))
    }
}

pub open spec fn p_param(ts: Seq<SpecTokenWithSpan>, i: int) -> Result<(SpecParameter, int), ParseError> {
    match tk(ts, i) {
        SpecToken::Identifier(n) => match p_opt_type(ts, i + 1) {
            Ok((t, j)) => Ok((SpecParameter { name: n, type_annotation: t }, j)),
            Err(e) => Err(e),
        },
        _ => Err(err_at(ts, i, Expectation::Identifier)),
    }
}

pub proof fn lemma_p_param_advances(ts: Seq<SpecTokenWithSpan>, i: int)
    ensures
        p_param(ts, i) matches Ok((_, j)) ==> i < j,
{
}

/// Parameters separated by commas, from index `i` on, after those in `acc`.
pub open spec fn p_param_list(ts: Seq<SpecTokenWithSpan>, i: int, acc: Seq<SpecParameter>) -> Result<(Seq<SpecParameter>, int), ParseError>
    decreases ts.len() - i,
{
    match p_param(ts, i) {
        Ok((p, j)) => if tk(ts, j) is Comma {
            proof {
                lemma_p_param_advances(ts, i);
            }
            p_param_list(ts, j + 1, acc.push(p))
        } else {
            Ok((acc.push(p), j))
        },
        Err(e) => Err(e),
    }
}

pub proof fn lemma_p_param_list_advances(ts: Seq<SpecTokenWithSpan>, i: int, acc: Seq<SpecParameter>)
    ensures
        p_param_list(ts, i, acc) matches Ok((_, j)) ==> i < j,
    decreases ts.len() - i,
{
    lemma_p_param_advances(ts, i);
    if let Ok((p, j)) = p_param(ts, i) {
        if tk(ts, j) is Comma {
            lemma_p_param_list_advances(ts, j + 1, acc.push(p));
        }
    }
}

/// The parameters of a lambda, from just after its `(`.
pub open spec fn p_params(ts: Seq<SpecTokenWithSpan>, i: int) -> Result<(Seq<SpecParameter>, int), ParseError> {
    if tk(ts, i) is RightParen {
        Ok((Seq::empty(), i))
    } else {
        p_param_list(ts, i, Seq::empty())
    }
}

pub proof fn lemma_p_params_advances(ts: Seq<SpecTokenWithSpan>, i: int)
    ensures
        p_params(ts, i) matches Ok((_, j)) ==> i <= j,
{
    lemma_p_param_list_advances(ts, i, Seq::empty());
}

pub proof fn lemma_p_opt_type_advances(ts: Seq<SpecTokenWithSpan>, i: int)
    ensures
        p_opt_type(ts, i) matches Ok((_, j)) ==> i <= j,
{
}

/// Whether an opening parenthesis at index `i` starts a lambda.
pub open spec fn is_lambda_start(ts: Seq<SpecTokenWithSpan>, i: int) -> bool {
    &&& tk(ts, i) is LeftParen
    &&& {
        ||| tk(ts, i + 1) is RightParen
        ||| {
            &&& tk(ts, i + 1) is Identifier
            &&& {
                ||| tk(ts, i + 2) is Colon
                ||| tk(ts, i + 2) is Comma
                ||| (tk(ts, i + 2) is RightParen && (tk(ts, i + 3) is FatArrow || tk(ts, i + 3) is Arrow))
            }
        }
    }
}

pub open spec fn binop(l: SpecExpr, op: BinaryOperator, r: SpecExpr) -> SpecExpr {
    SpecExpr::BinaryOp { left: Box::new(l), operator: op, right: Box::new(r) }
}

/// The operator of the equality level that the token stands for.
pub open spec fn eq_op(t: SpecToken) -> Option<BinaryOperator> {
    match t {
        SpecToken::Equal => Some(BinaryOperator::Eq),
        SpecToken::NotEqual => Some(BinaryOperator::Ne),
        _ => None,
    }
}

pub open spec fn comparison_op(t: SpecToken) -> Option<BinaryOperator> {
    match t {
        SpecToken::Less => Some(BinaryOperator::Lt),
        SpecToken::LessEqual => Some(BinaryOperator::Le),
        SpecToken::Greater => Some(BinaryOperator::Gt),
        SpecToken::GreaterEqual => Some(BinaryOperator::Ge),
        _ => None,
    }
}

pub open spec fn add_op(t: SpecToken) -> Option<BinaryOperator> {
    match t {
        SpecToken::Plus => Some(BinaryOperator::Add),
        SpecToken::Minus => Some(BinaryOperator::Sub),
        _ => None,
    }
}

pub open spec fn mul_op(t: SpecToken) -> Option<BinaryOperator> {
    match t {
        SpecToken::Star => Some(BinaryOperator::Mul),
        SpecToken::Slash => Some(BinaryOperator::Div),
        SpecToken::Percent => Some(BinaryOperator::Mod),
        _ => None,
    }
}

pub open spec fn or_op(t: SpecToken) -> Option<BinaryOperator> {
    match t {
        SpecToken::OrOr => Some(BinaryOperator::Or),
        _ => None,
    }
}

pub open spec fn and_op(t: SpecToken) -> Option<BinaryOperator> {
    match t {
        SpecToken::AndAnd => Some(BinaryOperator::And),
        _ => None,
    }
}

pub open spec fn seq_sim() -> Seq<char> {
    seq!['s', 'i', 'm']
}

pub open spec fn seq_plot() -> Seq<char> {
    seq!['p', 'l', 'o', 't']
}

} // verus!

verus! {

/// The outcome of parsing an expression: the expression and the index of the
/// token after it, or the error.
pub type ExprOutcome = Result<(SpecExpr, int), ParseError>;

pub open spec fn p_expr(ts: Seq<SpecTokenWithSpan>, i: int) -> ExprOutcome
    decreases ts.len() - i, 12nat,
{
    match tk(ts, i) {
        SpecToken::At => p_directive(ts, i),
        SpecToken::If => p_if(ts, i),
        _ => if is_lambda_start(ts, i) {
            p_lambda(ts, i)
        } else {
            p_or(ts, i)
        },
    }
}

/// Expressions separated by commas, from index `i` on, after those in `acc`.
pub open spec fn p_expr_list(ts: Seq<SpecTokenWithSpan>, i: int, acc: Seq<SpecExpr>) -> Result<(Seq<SpecExpr>, int), ParseError>
    decreases ts.len() - i, 13nat,
{
    match p_expr(ts, i) {
        Ok((e, j)) => if tk(ts, j) is Comma {
            if i < j <= ts.len() {
                p_expr_list(ts, j + 1, acc.push(e))
            } else {
                Err(no_progress(ts, i))
            }
        } else {
            Ok((acc.push(e), j))
        },
        Err(e) => Err(e),
    }
}

pub open spec fn p_let(ts: Seq<SpecTokenWithSpan>, i: int) -> Result<(SpecLetBinding, int), ParseError>
    decreases ts.len() - i, 11nat,
{
    if tk(ts, i) is Let {
        match tk(ts, i + 1) {
            SpecToken::Identifier(n) => match p_opt_type(ts, i + 2) {
                Ok((t, j)) => if tk(ts, j) is Assign {
                    proof {
                        lemma_p_opt_type_advances(ts, i + 2);
                    }
                    match p_expr(ts, j + 1) {
                        Ok((v, k)) => Ok((SpecLetBinding { name: n, type_annotation: t, value: v }, k)),
                        Err(e) => Err(e),
                    }
                } else {
                    Err(err_at(ts, j, Expectation::Assign))
                },
                Err(e) => Err(e),
            },
            _ => Err(err_at(ts, i + 1, Expectation::Identifier)),
        }
    } else {
        Err(err_at(ts, i, Expectation::Expression))
    }
}

pub open spec fn p_directive(ts: Seq<SpecTokenWithSpan>, i: int) -> ExprOutcome
    decreases ts.len() - i, 11nat,
{
    if tk(ts, i) is At {
        match tk(ts, i + 1) {
            SpecToken::Identifier(n) => if n == seq_sim() || n == seq_plot() {
                if tk(ts, i + 2) is LeftBrace {
                    match p_block_body(ts, i + 3, Seq::empty()) {
                        Ok((b, j)) => if n == seq_sim() {
                            Ok((SpecExpr::SimDirective { expression: Box::new(b) }, j))
                        } else {
                            Ok((SpecExpr::PlotDirective { expression: Box::new(b) }, j))
                        },
                        Err(e) => Err(e),
                    }
                } else {
                    Err(err_at(ts, i + 2, Expectation::LeftBrace))
                }
            } else {
                Err(err_at(ts, i + 1, Expectation::DirectiveName))
            },
            _ => Err(err_at(ts, i + 1, Expectation::DirectiveName)),
        }
    } else {
        Err(err_at(ts, i, Expectation::Expression))
    }
}

pub open spec fn p_if(ts: Seq<SpecTokenWithSpan>, i: int) -> ExprOutcome
    decreases ts.len() - i, 11nat,
{
    if tk(ts, i) is If {
        match p_expr(ts, i + 1) {
            Ok((c, j)) => if tk(ts, j) is LeftBrace {
                if i < j {
                    match p_block_body(ts, j + 1, Seq::empty()) {
                        Ok((t, k)) => if tk(ts, k) is Else {
                            if i < k {
                                if tk(ts, k + 1) is If {
                                    match p_if(ts, k + 1) {
                                        Ok((e, m)) => Ok((SpecExpr::IfExpression {
                                            condition: Box::new(c),
                                            then_branch: Box::new(t),
                                            else_branch: Some(Box::new(e)),
                                        }, m)),
                                        Err(e) => Err(e),
                                    }
                                } else if tk(ts, k + 1) is LeftBrace {
                                    match p_block_body(ts, k + 2, Seq::empty()) {
                                        Ok((e, m)) => Ok((SpecExpr::IfExpression {
                                            condition: Box::new(c),
                                            then_branch: Box::new(t),
                                            else_branch: Some(Box::new(e)),
                                        }, m)),
                                        Err(e) => Err(e),
                                    }
                                } else {
                                    Err(err_at(ts, k + 1, Expectation::LeftBrace))
                                }
                            } else {
                                Err(no_progress(ts, i))
                            }
                        } else {
                            Ok((SpecExpr::IfExpression {
                                condition: Box::new(c),
                                then_branch: Box::new(t),
                                else_branch: None,
                            }, k))
                        },
                        Err(e) => Err(e),
                    }
                } else {
                    Err(no_progress(ts, i))
                }
            } else {
                Err(err_at(ts, j, Expectation::LeftBrace))
            },
            Err(e) => Err(e),
        }
    } else {
        Err(err_at(ts, i, Expectation::Expression))
    }
}

/// The return type of a lambda: an optional `-> type` at index `i`.
pub open spec fn p_return_type(ts: Seq<SpecTokenWithSpan>, i: int) -> Result<(Option<SpecType>, int), ParseError> {
    if tk(ts, i) is Arrow {
        match p_type(ts, i + 1) {
            Ok((t, k)) => Ok((Some(t), k)),
            Err(e) => Err(e),
        }
    } else {
        Ok((None, i))
    }
}

pub open spec fn p_lambda(ts: Seq<SpecTokenWithSpan>, i: int) -> ExprOutcome
    decreases ts.len() - i, 11nat,
{
    if tk(ts, i) is LeftParen {
        match p_params(ts, i + 1) {
            Ok((ps, j)) => if tk(ts, j) is RightParen {
                match p_return_type(ts, j + 1) {
                    Ok((rt, k)) => if tk(ts, k) is FatArrow {
                        proof {
                            lemma_p_params_advances(ts, i + 1);
                        }
                        match p_expr(ts, k + 1) {
                            Ok((b, m)) => Ok((SpecExpr::Lambda { params: ps, return_type: rt, body: Box::new(b) }, m)),
                            Err(e) => Err(e),
                        }
                    } else {
                        Err(err_at(ts, k, Expectation::FatArrow))
                    },
                    Err(e) => Err(e),
                }
            } else {
                Err(err_at(ts, j, Expectation::RightParen))
            },
            Err(e) => Err(e),
        }
    } else {
        Err(err_at(ts, i, Expectation::Expression))
    }
}

pub open spec fn p_or(ts: Seq<SpecTokenWithSpan>, i: int) -> ExprOutcome
    decreases ts.len() - i, 10nat,
{
    match p_and(ts, i) {
        Ok((l, j)) => if i < j <= ts.len() { p_or_rest(ts, j, l) } else { Err(no_progress(ts, i)) },
        Err(e) => Err(e),
    }
}

pub open spec fn p_or_rest(ts: Seq<SpecTokenWithSpan>, j: int, l: SpecExpr) -> ExprOutcome
    decreases ts.len() - j, 10nat,
{
    match or_op(tk(ts, j)) {
        Some(op) => match p_and(ts, j + 1) {
            Ok((r, k)) => if j < k <= ts.len() {
                p_or_rest(ts, k, binop(l, op, r))
            } else {
                Err(no_progress(ts, j))
            },
            Err(e) => Err(e),
        },
        None => Ok((l, j)),
    }
}

pub open spec fn p_and(ts: Seq<SpecTokenWithSpan>, i: int) -> ExprOutcome
    decreases ts.len() - i, 9nat,
{
    match p_eq(ts, i) {
        Ok((l, j)) => if i < j <= ts.len() { p_and_rest(ts, j, l) } else { Err(no_progress(ts, i)) },
        Err(e) => Err(e),
    }
}

pub open spec fn p_and_rest(ts: Seq<SpecTokenWithSpan>, j: int, l: SpecExpr) -> ExprOutcome
    decreases ts.len() - j, 9nat,
{
    match and_op(tk(ts, j)) {
        Some(op) => match p_eq(ts, j + 1) {
            Ok((r, k)) => if j < k <= ts.len() {
                p_and_rest(ts, k, binop(l, op, r))
            } else {
                Err(no_progress(ts, j))
            },
            Err(e) => Err(e),
        },
        None => Ok((l, j)),
    }
}

pub open spec fn p_eq(ts: Seq<SpecTokenWithSpan>, i: int) -> ExprOutcome
    decreases ts.len() - i, 8nat,
{
    match p_comparison(ts, i) {
        Ok((l, j)) => if i < j <= ts.len() { p_eq_rest(ts, j, l) } else { Err(no_progress(ts, i)) },
        Err(e) => Err(e),
    }
}

pub open spec fn p_eq_rest(ts: Seq<SpecTokenWithSpan>, j: int, l: SpecExpr) -> ExprOutcome
    decreases ts.len() - j, 8nat,
{
    match eq_op(tk(ts, j)) {
        Some(op) => match p_comparison(ts, j + 1) {
            Ok((r, k)) => if j < k <= ts.len() {
                p_eq_rest(ts, k, binop(l, op, r))
            } else {
                Err(no_progress(ts, j))
            },
            Err(e) => Err(e),
        },
        None => Ok((l, j)),
    }
}

pub open spec fn p_comparison(ts: Seq<SpecTokenWithSpan>, i: int) -> ExprOutcome
    decreases ts.len() - i, 7nat,
{
    match p_range(ts, i) {
        Ok((l, j)) => if i < j <= ts.len() { p_comparison_rest(ts, j, l) } else { Err(no_progress(ts, i)) },
        Err(e) => Err(e),
    }
}

pub open spec fn p_comparison_rest(ts: Seq<SpecTokenWithSpan>, j: int, l: SpecExpr) -> ExprOutcome
    decreases ts.len() - j, 7nat,
{
    match comparison_op(tk(ts, j)) {
        Some(op) => match p_range(ts, j + 1) {
            Ok((r, k)) => if j < k <= ts.len() {
                p_comparison_rest(ts, k, binop(l, op, r))
            } else {
                Err(no_progress(ts, j))
            },
            Err(e) => Err(e),
        },
        None => Ok((l, j)),
    }
}

pub open spec fn p_range(ts: Seq<SpecTokenWithSpan>, i: int) -> ExprOutcome
    decreases ts.len() - i, 6nat,
{
    match p_add(ts, i) {
        Ok((l, j)) => if tk(ts, j) is DotDot {
            if i < j {
                match p_add(ts, j + 1) {
                    Ok((r, k)) => Ok((SpecExpr::Range { start: Box::new(l), end: Box::new(r) }, k)),
                    Err(e) => Err(e),
                }
            } else {
                Err(no_progress(ts, i))
            }
        } else {
            Ok((l, j))
        },
        Err(e) => Err(e),
    }
}

pub open spec fn p_add(ts: Seq<SpecTokenWithSpan>, i: int) -> ExprOutcome
    decreases ts.len() - i, 5nat,
{
    match p_mul(ts, i) {
        Ok((l, j)) => if i < j <= ts.len() { p_add_rest(ts, j, l) } else { Err(no_progress(ts, i)) },
        Err(e) => Err(e),
    }
}

pub open spec fn p_add_rest(ts: Seq<SpecTokenWithSpan>, j: int, l: SpecExpr) -> ExprOutcome
    decreases ts.len() - j, 5nat,
{
    match add_op(tk(ts, j)) {
        Some(op) => match p_mul(ts, j + 1) {
            Ok((r, k)) => if j < k <= ts.len() {
                p_add_rest(ts, k, binop(l, op, r))
            } else {
                Err(no_progress(ts, j))
            },
            Err(e) => Err(e),
        },
        None => Ok((l, j)),
    }
}

pub open spec fn p_mul(ts: Seq<SpecTokenWithSpan>, i: int) -> ExprOutcome
    decreases ts.len() - i, 4nat,
{
    match p_pow(ts, i) {
        Ok((l, j)) => if i < j <= ts.len() { p_mul_rest(ts, j, l) } else { Err(no_progress(ts, i)) },
        Err(e) => Err(e),
    }
}

pub open spec fn p_mul_rest(ts: Seq<SpecTokenWithSpan>, j: int, l: SpecExpr) -> ExprOutcome
    decreases ts.len() - j, 4nat,
{
    match mul_op(tk(ts, j)) {
        Some(op) => match p_pow(ts, j + 1) {
            Ok((r, k)) => if j < k <= ts.len() {
                p_mul_rest(ts, k, binop(l, op, r))
            } else {
                Err(no_progress(ts, j))
            },
            Err(e) => Err(e),
        },
        None => Ok((l, j)),
    }
}

pub open spec fn p_pow(ts: Seq<SpecTokenWithSpan>, i: int) -> ExprOutcome
    decreases ts.len() - i, 3nat,
{
    match p_unary(ts, i) {
        Ok((b, j)) => if tk(ts, j) is Caret {
            if i < j {
                match p_pow(ts, j + 1) {
                    Ok((e, k)) => Ok((binop(b, BinaryOperator::Pow, e), k)),
                    Err(e) => Err(e),
                }
            } else {
                Err(no_progress(ts, i))
            }
        } else {
            Ok((b, j))
        },
        Err(e) => Err(e),
    }
}

pub open spec fn p_unary(ts: Seq<SpecTokenWithSpan>, i: int) -> ExprOutcome
    decreases ts.len() - i, 2nat,
{
    match tk(ts, i) {
        SpecToken::Minus => match p_unary(ts, i + 1) {
            Ok((e, j)) => Ok((SpecExpr::UnaryOp { operator: UnaryOperator::Neg, operand: Box::new(e) }, j)),
            Err(e) => Err(e),
        },
        SpecToken::Bang => match p_unary(ts, i + 1) {
            Ok((e, j)) => Ok((SpecExpr::UnaryOp { operator: UnaryOperator::Not, operand: Box::new(e) }, j)),
            Err(e) => Err(e),
        },
        _ => p_postfix(ts, i),
    }
}

pub open spec fn p_postfix(ts: Seq<SpecTokenWithSpan>, i: int) -> ExprOutcome
    decreases ts.len() - i, 1nat,
{
    match p_primary(ts, i) {
        Ok((e, j)) => if i < j <= ts.len() { p_postfix_rest(ts, j, e) } else { Err(no_progress(ts, i)) },
        Err(e) => Err(e),
    }
}

/// The arguments of a call, from just after its `(`.
pub open spec fn p_args(ts: Seq<SpecTokenWithSpan>, i: int) -> Result<(Seq<SpecExpr>, int), ParseError>
    decreases ts.len() - i, 14nat,
{
    if tk(ts, i) is RightParen {
        Ok((Seq::empty(), i))
    } else {
        p_expr_list(ts, i, Seq::empty())
    }
}

pub open spec fn p_postfix_rest(ts: Seq<SpecTokenWithSpan>, j: int, e: SpecExpr) -> ExprOutcome
    decreases ts.len() - j, 1nat,
{
    match tk(ts, j) {
        SpecToken::LeftParen => match p_args(ts, j + 1) {
            Ok((a, k)) => if tk(ts, k) is RightParen {
                if j < k {
                    p_postfix_rest(ts, k + 1, SpecExpr::FunctionCall { function: Box::new(e), args: a })
                } else {
                    Err(no_progress(ts, j))
                }
            } else {
                Err(err_at(ts, k, Expectation::RightParen))
            },
            Err(e) => Err(e),
        },
        SpecToken::Dot => match tk(ts, j + 1) {
            SpecToken::Identifier(f) => p_postfix_rest(ts, j + 2, SpecExpr::FieldAccess { object: Box::new(e), field: f }),
            _ => Err(err_at(ts, j + 1, Expectation::Identifier)),
        },
        _ => Ok((e, j)),
    }
}

pub open spec fn p_primary(ts: Seq<SpecTokenWithSpan>, i: int) -> ExprOutcome
    decreases ts.len() - i, 0nat,
{
    match tk(ts, i) {
        SpecToken::IntLiteral(v) => Ok((SpecExpr::IntLiteral(v), i + 1)),
        SpecToken::FloatLiteral(s) => Ok((SpecExpr::FloatLiteral(s), i + 1)),
        SpecToken::StringLiteral(s) => Ok((SpecExpr::StringLiteral(s), i + 1)),
        SpecToken::True => Ok((SpecExpr::BoolLiteral(true), i + 1)),
        SpecToken::False => Ok((SpecExpr::BoolLiteral(false), i + 1)),
        SpecToken::Identifier(n) => if is_type_name(n) && tk(ts, i + 1) is LeftBrace {
            match p_field_inits(ts, i + 2, Seq::empty()) {
                Ok((fs, j)) => Ok((SpecExpr::StructCreation { name: n, fields: fs }, j)),
                Err(e) => Err(e),
            }
        } else {
            Ok((SpecExpr::Identifier(n), i + 1))
        },
        SpecToken::LeftParen => match p_expr(ts, i + 1) {
            Ok((e, j)) => if tk(ts, j) is RightParen {
                Ok((e, j + 1))
            } else {
                Err(err_at(ts, j, Expectation::RightParen))
            },
            Err(e) => Err(e),
        },
        SpecToken::LeftBracket => p_array(ts, i + 1),
        SpecToken::LeftBrace => p_block_body(ts, i + 1, Seq::empty()),
        _ => Err(err_at(ts, i, Expectation::Expression)),
    }
}

/// The field initialisers of a struct creation, from just after its `{`
/// (or after a comma), after those in `acc`.
pub open spec fn p_field_inits(ts: Seq<SpecTokenWithSpan>, i: int, acc: Seq<SpecFieldInit>) -> Result<(Seq<SpecFieldInit>, int), ParseError>
    decreases ts.len() - i, 0nat,
{
    match tk(ts, i) {
        SpecToken::RightBrace => Ok((acc, i + 1)),
        SpecToken::Identifier(n) => if tk(ts, i + 1) is Colon {
            match p_expr(ts, i + 2) {
                Ok((v, j)) => if tk(ts, j) is Comma {
                    if i < j {
                        p_field_inits(ts, j + 1, acc.push(SpecFieldInit { name: n, value: v }))
                    } else {
                        Err(no_progress(ts, i))
                    }
                } else if tk(ts, j) is RightBrace {
                    Ok((acc.push(SpecFieldInit { name: n, value: v }), j + 1))
                } else {
                    Err(err_at(ts, j, Expectation::RightBrace))
                },
                Err(e) => Err(e),
            }
        } else {
            Err(err_at(ts, i + 1, Expectation::Colon))
        },
        _ => Err(err_at(ts, i, Expectation::Identifier)),
    }
}

/// An array or matrix literal, from just after its `[`.
pub open spec fn p_array(ts: Seq<SpecTokenWithSpan>, i: int) -> ExprOutcome
    decreases ts.len() - i, 16nat,
{
    if tk(ts, i) is RightBracket {
        Ok((SpecExpr::ArrayLiteral(Seq::empty()), i + 1))
    } else if tk(ts, i) is LeftBracket {
        p_matrix(ts, i)
    } else {
        p_elements(ts, i)
    }
}

/// The rows of a matrix literal and its closing `]`, from the `[` of its
/// first row.
pub open spec fn p_matrix(ts: Seq<SpecTokenWithSpan>, i: int) -> ExprOutcome
    decreases ts.len() - i, 15nat,
{
    match p_rows(ts, i, Seq::empty()) {
        Ok((rows, j)) => if tk(ts, j) is RightBracket {
            Ok((SpecExpr::MatrixLiteral(rows), j + 1))
        } else {
            Err(err_at(ts, j, Expectation::RightBracket))
        },
        Err(e) => Err(e),
    }
}

/// The elements of an array literal and its closing `]`.
pub open spec fn p_elements(ts: Seq<SpecTokenWithSpan>, i: int) -> ExprOutcome
    decreases ts.len() - i, 15nat,
{
    match p_expr_list(ts, i, Seq::empty()) {
        Ok((es, j)) => if tk(ts, j) is RightBracket {
            Ok((SpecExpr::ArrayLiteral(es), j + 1))
        } else {
            Err(err_at(ts, j, Expectation::RightBracket))
        },
        Err(e) => Err(e),
    }
}

/// The elements of one matrix row, from just after its `[`.
pub open spec fn p_row(ts: Seq<SpecTokenWithSpan>, i: int) -> Result<(Seq<SpecExpr>, int), ParseError>
    decreases ts.len() - i, 14nat,
{
    if tk(ts, i) is RightBracket {
        Ok((Seq::empty(), i))
    } else {
        p_expr_list(ts, i, Seq::empty())
    }
}

/// Matrix rows separated by commas, from the `[` of a row at index `i`,
/// after those in `acc`.
pub open spec fn p_rows(ts: Seq<SpecTokenWithSpan>, i: int, acc: Seq<Seq<SpecExpr>>) -> Result<(Seq<Seq<SpecExpr>>, int), ParseError>
    decreases ts.len() - i, 14nat,
{
    if tk(ts, i) is LeftBracket {
        match p_row(ts, i + 1) {
            Ok((r, j)) => if tk(ts, j) is RightBracket {
                if tk(ts, j + 1) is Comma && tk(ts, j + 2) is LeftBracket {
                    if i < j {
                        p_rows(ts, j + 2, acc.push(r))
                    } else {
                        Err(no_progress(ts, i))
                    }
                } else {
                    Ok((acc.push(r), j + 1))
                }
            } else {
                Err(err_at(ts, j, Expectation::RightBracket))
            },
            Err(e) => Err(e),
        }
    } else {
        Err(err_at(ts, i, Expectation::Expression))
    }
}

/// The rest of a block from index `i` (just after its `{`, or further on),
/// `stmts` being the statements read so far: the block expression and the
/// index after its `}`.
pub open spec fn p_block_body(ts: Seq<SpecTokenWithSpan>, i: int, stmts: Seq<SpecStatement>) -> ExprOutcome
    decreases ts.len() - i, 14nat,
{
    match tk(ts, i) {
        SpecToken::RightBrace => Ok((SpecExpr::Block { statements: stmts, result: None }, i + 1)),
        SpecToken::Eof => Err(err_at(ts, i, Expectation::RightBrace)),
        SpecToken::Let => match p_let(ts, i) {
            Ok((b, j)) => {
                let j2 = if tk(ts, j) is Semicolon { j + 1 } else { j };
                if i < j2 <= ts.len() {
                    p_block_body(ts, j2, stmts.push(SpecStatement::LetBinding(b)))
                } else {
                    Err(no_progress(ts, i))
                }
            },
            Err(e) => Err(e),
        },
        _ => match p_expr(ts, i) {
            Ok((e, j)) => if tk(ts, j) is Semicolon {
                if i < j {
                    p_block_body(ts, j + 1, stmts.push(SpecStatement::Expression(e)))
                } else {
                    Err(no_progress(ts, i))
                }
            } else if tk(ts, j) is RightBrace {
                Ok((SpecExpr::Block { statements: stmts, result: Some(Box::new(e)) }, j + 1))
            } else if i < j <= ts.len() {
                p_block_body(ts, j, stmts.push(SpecStatement::Expression(e)))
            } else {
                Err(no_progress(ts, i))
            },
            Err(e) => Err(e),
        },
    }
}

} // verus!

verus! {

/// The fields of a struct definition, from just after its `{` (or after a
/// comma), after those in `acc`.
pub open spec fn p_struct_fields(ts: Seq<SpecTokenWithSpan>, i: int, acc: Seq<SpecStructField>) -> Result<(Seq<SpecStructField>, int), ParseError>
    decreases ts.len() - i,
{
    match tk(ts, i) {
        SpecToken::RightBrace => Ok((acc, i + 1)),
        SpecToken::Identifier(n) => if tk(ts, i + 1) is Colon {
            match p_type(ts, i + 2) {
                Ok((t, j)) => {
                    let acc2 = acc.push(SpecStructField { name: n, field_type: t });
                    if tk(ts, j) is Comma {
                        p_struct_fields(ts, j + 1, acc2)
                    } else if tk(ts, j) is RightBrace {
                        Ok((acc2, j + 1))
                    } else {
                        Err(err_at(ts, j, Expectation::RightBrace))
                    }
                },
                Err(e) => Err(e),
            }
        } else {
            Err(err_at(ts, i + 1, Expectation::Colon))
        },
        _ => Err(err_at(ts, i, Expectation::Identifier)),
    }
}

pub open spec fn p_struct_def(ts: Seq<SpecTokenWithSpan>, i: int) -> Result<(SpecStructDef, int), ParseError> {
    if tk(ts, i) is Struct {
        match tk(ts, i + 1) {
            SpecToken::Identifier(n) => if tk(ts, i + 2) is LeftBrace {
                match p_struct_fields(ts, i + 3, Seq::empty()) {
                    Ok((fs, j)) => Ok((SpecStructDef { name: n, fields: fs }, j)),
                    Err(e) => Err(e),
                }
            } else {
                Err(err_at(ts, i + 2, Expectation::LeftBrace))
            },
            _ => Err(err_at(ts, i + 1, Expectation::Identifier)),
        }
    } else {
        Err(err_at(ts, i, Expectation::Expression))
    }
}

/// The index after an optional `;` at index `j`.
pub open spec fn skip_semicolon(ts: Seq<SpecTokenWithSpan>, j: int) -> int {
    if tk(ts, j) is Semicolon { j + 1 } else { j }
}

pub open spec fn p_item(ts: Seq<SpecTokenWithSpan>, i: int) -> Result<(SpecItem, int), ParseError> {
    match tk(ts, i) {
        SpecToken::Let => match p_let(ts, i) {
            Ok((b, j)) => Ok((SpecItem::LetBinding(b), skip_semicolon(ts, j))),
            Err(e) => Err(e),
        },
        SpecToken::Struct => match p_struct_def(ts, i) {
            Ok((d, j)) => Ok((SpecItem::StructDef(d), j)),
            Err(e) => Err(e),
        },
        _ => match p_expr(ts, i) {
            Ok((e, j)) => Ok((SpecItem::Expression(e), skip_semicolon(ts, j))),
            Err(e) => Err(e),
        },
    }
}

/// The items from index `i` to the end of the tokens, after those in `acc`.
pub open spec fn p_items(ts: Seq<SpecTokenWithSpan>, i: int, acc: Seq<SpecItem>) -> Result<Seq<SpecItem>, ParseError>
    decreases ts.len() - i,
{
    if tk(ts, i) is Eof {
        Ok(acc)
    } else {
        match p_item(ts, i) {
            Ok((it, j)) => if i < j <= ts.len() {
                p_items(ts, j, acc.push(it))
            } else {
                Err(no_progress(ts, i))
            },
            Err(e) => Err(e),
        }
    }
}

/// The program that a token sequence spells.
pub open spec fn program_of_tokens(ts: Seq<SpecTokenWithSpan>) -> Result<SpecProgram, ParseError> {
    match p_items(ts, 0, Seq::empty()) {
        Ok(items) => Ok(SpecProgram { items }),
        Err(e) => Err(e),
    }
}

/// The program that a source text spells: a lexing error becomes a parse
/// error of kind `Lex` at the same place.
pub open spec fn program_of_source(s: Seq<char>) -> Result<SpecProgram, ParseError> {
    match tokens_of(s) {
        Ok(ts) => program_of_tokens(ts),
        Err((k, l, c)) => Err(ParseError { kind: ParseErrorKind::Lex(k), line: l as usize, column: c as usize }),
    }
}

} // verus!

verus! {

/// Token vectors as the lexer yields them: not empty, the last one `Eof`.
pub open spec fn wf_tokens(ts: Seq<TokenWithSpan>) -> bool {
    ts.len() > 0 && ts[ts.len() - 1].token@ is Eof
}

pub open spec fn expr_matches(r: Result<(Expression, usize), ParseError>, s: ExprOutcome) -> bool {
    match s {
        Ok((e, j)) => r matches Ok((e2, j2)) && view_expr(e2) == e && j2 as int == j,
        Err(er) => r matches Err(er2) && er2 == er,
    }
}

pub open spec fn exprs_matches(r: Result<(Vec<Expression>, usize), ParseError>, s: Result<(Seq<SpecExpr>, int), ParseError>) -> bool {
    match s {
        Ok((e, j)) => r matches Ok((e2, j2)) && view_exprs(e2@) == e && j2 as int == j,
        Err(er) => r matches Err(er2) && er2 == er,
    }
}

pub open spec fn position_advances<T>(r: Result<(T, usize), ParseError>, i: usize, len: usize) -> bool {
    r matches Ok((_, j)) ==> i < j < len
}

fn token_at(ts: &Vec<TokenWithSpan>, i: usize) -> (t: &Token)
    requires
        i < ts.len(),
    ensures
        t@ == tk(view_tokens(ts@), i as int),
{
    &ts[i].token
}

fn error_at(ts: &Vec<TokenWithSpan>, i: usize, e: Expectation) -> (r: ParseError)
    requires
        i < ts.len(),
    ensures
        r == err_at(view_tokens(ts@), i as int, e),
{
    ParseError { kind: ParseErrorKind::Expected(e), line: ts[i].line, column: ts[i].column }
}

proof fn lemma_not_eof_below_last(ts: Seq<TokenWithSpan>, i: int)
    requires
        wf_tokens(ts),
        0 <= i < ts.len(),
        !(tk(view_tokens(ts), i) is Eof),
    ensures
        i + 1 < ts.len(),
{
}

} // verus!

verus! {

fn type_from_name_exec(n: String) -> (t: Type)
    ensures
        view_type(t) == type_from_name(n@),
{
    let cs = crate::text::chars_of(n.as_str());
    assert(['I', 'n', 't']@ == seq_int());
    assert(['F', 'l', 'o', 'a', 't']@ == seq_float());
    assert(['B', 'o', 'o', 'l']@ == seq_bool());
    assert(['S', 't', 'r', 'i', 'n', 'g']@ == seq_string());
    if same_chars(&cs, &['I', 'n', 't']) {
        Type::Int
    } else if same_chars(&cs, &['F', 'l', 'o', 'a', 't']) {
        Type::Float
    } else if same_chars(&cs, &['B', 'o', 'o', 'l']) {
        Type::Bool
    } else if same_chars(&cs, &['S', 't', 'r', 'i', 'n', 'g']) {
        Type::String
    } else {
        Type::Named(n)
    }
}

fn parse_type(ts: &Vec<TokenWithSpan>, i: usize) -> (r: Result<(Type, usize), ParseError>)
    requires
        wf_tokens(ts@),
        i < ts.len(),
    ensures
        match p_type(view_tokens(ts@), i as int) {
            Ok((t, j)) => r matches Ok((t2, j2)) && view_type(t2) == t && j2 as int == j,
            Err(e) => r matches Err(e2) && e2 == e,
        },
        position_advances(r, i, ts.len()),
{
    match token_at(ts, i) {
        Token::Identifier(n) => {
            proof {
                lemma_not_eof_below_last(ts@, i as int);
            }
            Ok((type_from_name_exec(n.clone()), i + 1))
        },
        _ => Err(error_at(ts, i, Expectation::Type)),
    }
}

fn parse_opt_type(ts: &Vec<TokenWithSpan>, i: usize) -> (r: Result<(Option<Type>, usize), ParseError>)
    requires
        wf_tokens(ts@),
        i < ts.len(),
    ensures
        match p_opt_type(view_tokens(ts@), i as int) {
            Ok((t, j)) => r matches Ok((t2, j2)) && view_opt_type(t2) == t && j2 as int == j,
            Err(e) => r matches Err(e2) && e2 == e,
        },
        r matches Ok((_, j)) ==> i <= j < ts.len(),
{
    if matches!(token_at(ts, i), Token::Colon) {
        proof {
            lemma_not_eof_below_last(ts@, i as int);
        }
        match parse_type(ts, i + 1) {
            Ok((t, j)) => Ok((Some(t), j)),
            Err(e) => Err(e),
        }
    } else {
        Ok((None, i))
    }
}

fn parse_param(ts: &Vec<TokenWithSpan>, i: usize) -> (r: Result<(Parameter, usize), ParseError>)
    requires
        wf_tokens(ts@),
        i < ts.len(),
    ensures
        match p_param(view_tokens(ts@), i as int) {
            Ok((p, j)) => r matches Ok((p2, j2)) && crate::ast::view_param(p2) == p && j2 as int == j,
            Err(e) => r matches Err(e2) && e2 == e,
        },
        position_advances(r, i, ts.len()),
{
    match token_at(ts, i) {
        Token::Identifier(n) => {
            proof {
                lemma_not_eof_below_last(ts@, i as int);
            }
            match parse_opt_type(ts, i + 1) {
                Ok((t, j)) => Ok((Parameter { name: n.clone(), type_annotation: t }, j)),
                Err(e) => Err(e),
            }
        },
        _ => Err(error_at(ts, i, Expectation::Identifier)),
    }
}

fn parse_params(ts: &Vec<TokenWithSpan>, i: usize) -> (r: Result<(Vec<Parameter>, usize), ParseError>)
    requires
        wf_tokens(ts@),
        i < ts.len(),
    ensures
        match p_params(view_tokens(ts@), i as int) {
            Ok((ps, j)) => r matches Ok((p2, j2)) && view_params(p2@) == ps && j2 as int == j,
            Err(e) => r matches Err(e2) && e2 == e,
        },
        r matches Ok((_, j)) ==> i <= j < ts.len(),
{
    let ghost vts = view_tokens(ts@);
    let mut acc: Vec<Parameter> = Vec::new();
    if matches!(token_at(ts, i), Token::RightParen) {
        assert(view_params(acc@) =~= Seq::empty());
        return Ok((acc, i));
    }
    assert(view_params(acc@) =~= Seq::<SpecParameter>::empty());
    let mut k = i;
    loop
        invariant
            wf_tokens(ts@),
            vts == view_tokens(ts@),
            i <= k < ts.len(),
            p_params(vts, i as int) == p_param_list(vts, k as int, view_params(acc@)),
        decreases ts.len() - k,
    {
        match parse_param(ts, k) {
            Ok((p, j)) => {
                let ghost prev = acc@;
                acc.push(p);
                assert(view_params(acc@) =~= view_params(prev).push(crate::ast::view_param(p)));
                if matches!(token_at(ts, j), Token::Comma) {
                    proof {
                        lemma_not_eof_below_last(ts@, j as int);
                    }
                    k = j + 1;
                } else {
                    return Ok((acc, j));
                }
            },
            Err(e) => {
                return Err(e);
            },
        }
    }
}

fn parse_return_type(ts: &Vec<TokenWithSpan>, i: usize) -> (r: Result<(Option<Type>, usize), ParseError>)
    requires
        wf_tokens(ts@),
        i < ts.len(),
    ensures
        match p_return_type(view_tokens(ts@), i as int) {
            Ok((t, j)) => r matches Ok((t2, j2)) && view_opt_type(t2) == t && j2 as int == j,
            Err(e) => r matches Err(e2) && e2 == e,
        },
        r matches Ok((_, j)) ==> i <= j < ts.len(),
{
    if matches!(token_at(ts, i), Token::Arrow) {
        proof {
            lemma_not_eof_below_last(ts@, i as int);
        }
        match parse_type(ts, i + 1) {
            Ok((t, j)) => Ok((Some(t), j)),
            Err(e) => Err(e),
        }
    } else {
        Ok((None, i))
    }
}

} // verus!

verus! {

fn or_op_exec(t: &Token) -> (r: Option<BinaryOperator>)
    ensures
        r == or_op(t@),
{
    match t {
        Token::OrOr => Some(BinaryOperator::Or),
        _ => None,
    }
}

fn and_op_exec(t: &Token) -> (r: Option<BinaryOperator>)
    ensures
        r == and_op(t@),
{
    match t {
        Token::AndAnd => Some(BinaryOperator::And),
        _ => None,
    }
}

fn eq_op_exec(t: &Token) -> (r: Option<BinaryOperator>)
    ensures
        r == eq_op(t@),
{
    match t {
        Token::Equal => Some(BinaryOperator::Eq),
        Token::NotEqual => Some(BinaryOperator::Ne),
        _ => None,
    }
}

fn comparison_op_exec(t: &Token) -> (r: Option<BinaryOperator>)
    ensures
        r == comparison_op(t@),
{
    match t {
        Token::Less => Some(BinaryOperator::Lt),
        Token::LessEqual => Some(BinaryOperator::Le),
        Token::Greater => Some(BinaryOperator::Gt),
        Token::GreaterEqual => Some(BinaryOperator::Ge),
        _ => None,
    }
}

fn add_op_exec(t: &Token) -> (r: Option<BinaryOperator>)
    ensures
        r == add_op(t@),
{
    match t {
        Token::Plus => Some(BinaryOperator::Add),
        Token::Minus => Some(BinaryOperator::Sub),
        _ => None,
    }
}

fn mul_op_exec(t: &Token) -> (r: Option<BinaryOperator>)
    ensures
        r == mul_op(t@),
{
    match t {
        Token::Star => Some(BinaryOperator::Mul),
        Token::Slash => Some(BinaryOperator::Div),
        Token::Percent => Some(BinaryOperator::Mod),
        _ => None,
    }
}

fn is_type_name_exec(n: &String) -> (b: bool)
    ensures
        b == is_type_name(n@),
{
    let cs = crate::text::chars_of(n.as_str());
    cs.len() > 0 && 'A' <= cs[0] && cs[0] <= 'Z'
}

/// Whether `n` is `sim` (`Some(true)`), `plot` (`Some(false)`) or neither.
fn directive_kind(n: &String) -> (r: Option<bool>)
    ensures
        r == (if n@ == seq_sim() { Some(true) } else if n@ == seq_plot() { Some(false) } else { None::<bool> }),
{
    let cs = crate::text::chars_of(n.as_str());
    assert(['s', 'i', 'm']@ == seq_sim());
    assert(['p', 'l', 'o', 't']@ == seq_plot());
    if same_chars(&cs, &['s', 'i', 'm']) {
        Some(true)
    } else if same_chars(&cs, &['p', 'l', 'o', 't']) {
        Some(false)
    } else {
        None
    }
}

fn is_lambda_start_exec(ts: &Vec<TokenWithSpan>, i: usize) -> (b: bool)
    requires
        wf_tokens(ts@),
        i < ts.len(),
    ensures
        b == is_lambda_start(view_tokens(ts@), i as int),
{
    if !matches!(token_at(ts, i), Token::LeftParen) {
        return false;
    }
    proof {
        lemma_not_eof_below_last(ts@, i as int);
    }
    if matches!(token_at(ts, i + 1), Token::RightParen) {
        return true;
    }
    if !matches!(token_at(ts, i + 1), Token::Identifier(_)) {
        return false;
    }
    proof {
        lemma_not_eof_below_last(ts@, i as int + 1);
    }
    match token_at(ts, i + 2) {
        Token::Colon => true,
        Token::Comma => true,
        Token::RightParen => {
            proof {
                lemma_not_eof_below_last(ts@, i as int + 2);
            }
            matches!(token_at(ts, i + 3), Token::FatArrow) || matches!(token_at(ts, i + 3), Token::Arrow)
        },
        _ => false,
    }
}

#[verifier::spinoff_prover]
fn parse_expr(ts: &Vec<TokenWithSpan>, i: usize) -> (r: Result<(Expression, usize), ParseError>)
    requires
        wf_tokens(ts@),
        i < ts.len(),
    ensures
        expr_matches(r, p_expr(view_tokens(ts@), i as int)),
        position_advances(r, i, ts.len()),
    decreases ts.len() - i, 12nat,
{
    match token_at(ts, i) {
        Token::At => parse_directive(ts, i),
        Token::If => parse_if(ts, i),
        _ => if is_lambda_start_exec(ts, i) {
            parse_lambda(ts, i)
        } else {
            parse_or(ts, i)
        },
    }
}

#[verifier::spinoff_prover]
fn parse_expr_list(ts: &Vec<TokenWithSpan>, i: usize) -> (r: Result<(Vec<Expression>, usize), ParseError>)
    requires
        wf_tokens(ts@),
        i < ts.len(),
    ensures
        exprs_matches(r, p_expr_list(view_tokens(ts@), i as int, Seq::empty())),
        position_advances(r, i, ts.len()),
    decreases ts.len() - i, 13nat,
{
    let ghost vts = view_tokens(ts@);
    let mut acc: Vec<Expression> = Vec::new();
    let mut k = i;
    assert(view_exprs(acc@) =~= Seq::<SpecExpr>::empty());
    loop
        invariant
            wf_tokens(ts@),
            vts == view_tokens(ts@),
            i <= k < ts.len(),
            p_expr_list(vts, i as int, Seq::empty()) == p_expr_list(vts, k as int, view_exprs(acc@)),
        decreases ts.len() - k,
    {
        match parse_expr(ts, k) {
            Ok((e, j)) => {
                proof {
                    crate::ast::lemma_view_exprs_push(acc@, e);
                }
                acc.push(e);
                if matches!(token_at(ts, j), Token::Comma) {
                    proof {
                        lemma_not_eof_below_last(ts@, j as int);
                    }
                    k = j + 1;
                } else {
                    return Ok((acc, j));
                }
            },
            Err(e) => {
                return Err(e);
            },
        }
    }
}

#[verifier::spinoff_prover]
fn parse_let(ts: &Vec<TokenWithSpan>, i: usize) -> (r: Result<(LetBinding, usize), ParseError>)
    requires
        wf_tokens(ts@),
        i < ts.len(),
    ensures
        match p_let(view_tokens(ts@), i as int) {
            Ok((b, j)) => r matches Ok((b2, j2)) && view_let(b2) == b && j2 as int == j,
            Err(e) => r matches Err(e2) && e2 == e,
        },
        position_advances(r, i, ts.len()),
    decreases ts.len() - i, 11nat,
{
    if !matches!(token_at(ts, i), Token::Let) {
        return Err(error_at(ts, i, Expectation::Expression));
    }
    proof {
        lemma_not_eof_below_last(ts@, i as int);
    }
    match token_at(ts, i + 1) {
        Token::Identifier(n) => {
            proof {
                lemma_not_eof_below_last(ts@, i as int + 1);
            }
            match parse_opt_type(ts, i + 2) {
                Ok((t, j)) => {
                    if matches!(token_at(ts, j), Token::Assign) {
                        proof {
                            lemma_not_eof_below_last(ts@, j as int);
                        }
                        match parse_expr(ts, j + 1) {
                            Ok((v, k)) => Ok((LetBinding { name: n.clone(), type_annotation: t, value: v }, k)),
                            Err(e) => Err(e),
                        }
                    } else {
                        Err(error_at(ts, j, Expectation::Assign))
                    }
                },
                Err(e) => Err(e),
            }
        },
        _ => Err(error_at(ts, i + 1, Expectation::Identifier)),
    }
}

#[verifier::spinoff_prover]
fn parse_directive(ts: &Vec<TokenWithSpan>, i: usize) -> (r: Result<(Expression, usize), ParseError>)
    requires
        wf_tokens(ts@),
        i < ts.len(),
    ensures
        expr_matches(r, p_directive(view_tokens(ts@), i as int)),
        position_advances(r, i, ts.len()),
    decreases ts.len() - i, 11nat,
{
    if !matches!(token_at(ts, i), Token::At) {
        return Err(error_at(ts, i, Expectation::Expression));
    }
    proof {
        lemma_not_eof_below_last(ts@, i as int);
    }
    match token_at(ts, i + 1) {
        Token::Identifier(n) => {
            match directive_kind(n) {
                Some(is_sim) => {
                    proof {
                        lemma_not_eof_below_last(ts@, i as int + 1);
                    }
                    if matches!(token_at(ts, i + 2), Token::LeftBrace) {
                        proof {
                            lemma_not_eof_below_last(ts@, i as int + 2);
                        }
                        match parse_block_body(ts, i + 3) {
                            Ok((b, j)) => if is_sim {
                                Ok((Expression::SimDirective { expression: Box::new(b) }, j))
                            } else {
                                Ok((Expression::PlotDirective { expression: Box::new(b) }, j))
                            },
                            Err(e) => Err(e),
                        }
                    } else {
                        Err(error_at(ts, i + 2, Expectation::LeftBrace))
                    }
                },
                None => Err(error_at(ts, i + 1, Expectation::DirectiveName)),
            }
        },
        _ => Err(error_at(ts, i + 1, Expectation::DirectiveName)),
    }
}

#[verifier::spinoff_prover]
#[verifier::rlimit(60)]
fn parse_if(ts: &Vec<TokenWithSpan>, i: usize) -> (r: Result<(Expression, usize), ParseError>)
    requires
        wf_tokens(ts@),
        i < ts.len(),
    ensures
        expr_matches(r, p_if(view_tokens(ts@), i as int)),
        position_advances(r, i, ts.len()),
    decreases ts.len() - i, 11nat,
{
    if !matches!(token_at(ts, i), Token::If) {
        return Err(error_at(ts, i, Expectation::Expression));
    }
    proof {
        lemma_not_eof_below_last(ts@, i as int);
    }
    let (c, j) = match parse_expr(ts, i + 1) {
        Ok(p) => p,
        Err(e) => {
            return Err(e);
        },
    };
    if !matches!(token_at(ts, j), Token::LeftBrace) {
        return Err(error_at(ts, j, Expectation::LeftBrace));
    }
    proof {
        lemma_not_eof_below_last(ts@, j as int);
    }
    let (t, k) = match parse_block_body(ts, j + 1) {
        Ok(p) => p,
        Err(e) => {
            return Err(e);
        },
    };
    if !matches!(token_at(ts, k), Token::Else) {
        return Ok((Expression::IfExpression { condition: Box::new(c), then_branch: Box::new(t), else_branch: None }, k));
    }
    proof {
        lemma_not_eof_below_last(ts@, k as int);
    }
    if matches!(token_at(ts, k + 1), Token::If) {
        match parse_if(ts, k + 1) {
            Ok((e, m)) => Ok((Expression::IfExpression {
                condition: Box::new(c),
                then_branch: Box::new(t),
                else_branch: Some(Box::new(e)),
            }, m)),
            Err(e) => Err(e),
        }
    } else if matches!(token_at(ts, k + 1), Token::LeftBrace) {
        proof {
            lemma_not_eof_below_last(ts@, k as int + 1);
        }
        match parse_block_body(ts, k + 2) {
            Ok((e, m)) => Ok((Expression::IfExpression {
                condition: Box::new(c),
                then_branch: Box::new(t),
                else_branch: Some(Box::new(e)),
            }, m)),
            Err(e) => Err(e),
        }
    } else {
        Err(error_at(ts, k + 1, Expectation::LeftBrace))
    }
}

#[verifier::spinoff_prover]
fn parse_lambda(ts: &Vec<TokenWithSpan>, i: usize) -> (r: Result<(Expression, usize), ParseError>)
    requires
        wf_tokens(ts@),
        i < ts.len(),
    ensures
        expr_matches(r, p_lambda(view_tokens(ts@), i as int)),
        position_advances(r, i, ts.len()),
    decreases ts.len() - i, 11nat,
{
    if !matches!(token_at(ts, i), Token::LeftParen) {
        return Err(error_at(ts, i, Expectation::Expression));
    }
    proof {
        lemma_not_eof_below_last(ts@, i as int);
    }
    let (ps, j) = match parse_params(ts, i + 1) {
        Ok(p) => p,
        Err(e) => {
            return Err(e);
        },
    };
    if !matches!(token_at(ts, j), Token::RightParen) {
        return Err(error_at(ts, j, Expectation::RightParen));
    }
    proof {
        lemma_not_eof_below_last(ts@, j as int);
    }
    let (rt, k) = match parse_return_type(ts, j + 1) {
        Ok(p) => p,
        Err(e) => {
            return Err(e);
        },
    };
    if !matches!(token_at(ts, k), Token::FatArrow) {
        return Err(error_at(ts, k, Expectation::FatArrow));
    }
    proof {
        lemma_not_eof_below_last(ts@, k as int);
    }
    match parse_expr(ts, k + 1) {
        Ok((b, m)) => Ok((Expression::Lambda { params: ps, return_type: rt, body: Box::new(b) }, m)),
        Err(e) => Err(e),
    }
}

#[verifier::spinoff_prover]
#[verifier::rlimit(60)]
fn parse_or(ts: &Vec<TokenWithSpan>, i: usize) -> (r: Result<(Expression, usize), ParseError>)
    requires
        wf_tokens(ts@),
        i < ts.len(),
    ensures
        expr_matches(r, p_or(view_tokens(ts@), i as int)),
        position_advances(r, i, ts.len()),
    decreases ts.len() - i, 10nat,
{
    let (mut l, mut j) = match parse_and(ts, i) {
        Ok(p) => p,
        Err(e) => {
            assert(expr_matches(Err(e), p_or(view_tokens(ts@), i as int)));
            return Err(e);
        },
    };
    assert(p_or(view_tokens(ts@), i as int) == p_or_rest(view_tokens(ts@), j as int, view_expr(l))) by {
        assert(expr_matches(Ok::<(Expression, usize), ParseError>((l, j)), p_and(view_tokens(ts@), i as int)));
        assert(p_and(view_tokens(ts@), i as int) is Ok);
    }
    loop
        invariant
            wf_tokens(ts@),
            i < j < ts.len(),
            p_or(view_tokens(ts@), i as int) == p_or_rest(view_tokens(ts@), j as int, view_expr(l)),
        decreases ts.len() - j,
    {
        match or_op_exec(token_at(ts, j)) {
            Some(op) => {
                proof {
                    lemma_not_eof_below_last(ts@, j as int);
                }
                match parse_and(ts, j + 1) {
                    Ok((rhs, k)) => {
                        l = Expression::BinaryOp { left: Box::new(l), operator: op, right: Box::new(rhs) };
                        j = k;
                    },
                    Err(e) => {
                        return Err(e);
                    },
                }
            },
            None => {
                return Ok((l, j));
            },
        }
    }
}

#[verifier::spinoff_prover]
#[verifier::rlimit(60)]
fn parse_and(ts: &Vec<TokenWithSpan>, i: usize) -> (r: Result<(Expression, usize), ParseError>)
    requires
        wf_tokens(ts@),
        i < ts.len(),
    ensures
        expr_matches(r, p_and(view_tokens(ts@), i as int)),
        position_advances(r, i, ts.len()),
    decreases ts.len() - i, 9nat,
{
    let (mut l, mut j) = match parse_eq(ts, i) {
        Ok(p) => p,
        Err(e) => {
            assert(expr_matches(Err(e), p_and(view_tokens(ts@), i as int)));
            return Err(e);
        },
    };
    assert(p_and(view_tokens(ts@), i as int) == p_and_rest(view_tokens(ts@), j as int, view_expr(l))) by {
        assert(expr_matches(Ok::<(Expression, usize), ParseError>((l, j)), p_eq(view_tokens(ts@), i as int)));
        assert(p_eq(view_tokens(ts@), i as int) is Ok);
    }
    loop
        invariant
            wf_tokens(ts@),
            i < j < ts.len(),
            p_and(view_tokens(ts@), i as int) == p_and_rest(view_tokens(ts@), j as int, view_expr(l)),
        decreases ts.len() - j,
    {
        match and_op_exec(token_at(ts, j)) {
            Some(op) => {
                proof {
                    lemma_not_eof_below_last(ts@, j as int);
                }
                match parse_eq(ts, j + 1) {
                    Ok((rhs, k)) => {
                        l = Expression::BinaryOp { left: Box::new(l), operator: op, right: Box::new(rhs) };
                        j = k;
                    },
                    Err(e) => {
                        return Err(e);
                    },
                }
            },
            None => {
                return Ok((l, j));
            },
        }
    }
}

#[verifier::spinoff_prover]
#[verifier::rlimit(60)]
fn parse_eq(ts: &Vec<TokenWithSpan>, i: usize) -> (r: Result<(Expression, usize), ParseError>)
    requires
        wf_tokens(ts@),
        i < ts.len(),
    ensures
        expr_matches(r, p_eq(view_tokens(ts@), i as int)),
        position_advances(r, i, ts.len()),
    decreases ts.len() - i, 8nat,
{
    let (mut l, mut j) = match parse_comparison(ts, i) {
        Ok(p) => p,
        Err(e) => {
            assert(expr_matches(Err(e), p_eq(view_tokens(ts@), i as int)));
            return Err(e);
        },
    };
    assert(p_eq(view_tokens(ts@), i as int) == p_eq_rest(view_tokens(ts@), j as int, view_expr(l))) by {
        assert(expr_matches(Ok::<(Expression, usize), ParseError>((l, j)), p_comparison(view_tokens(ts@), i as int)));
        assert(p_comparison(view_tokens(ts@), i as int) is Ok);
    }
    loop
        invariant
            wf_tokens(ts@),
            i < j < ts.len(),
            p_eq(view_tokens(ts@), i as int) == p_eq_rest(view_tokens(ts@), j as int, view_expr(l)),
        decreases ts.len() - j,
    {
        match eq_op_exec(token_at(ts, j)) {
            Some(op) => {
                proof {
                    lemma_not_eof_below_last(ts@, j as int);
                }
                match parse_comparison(ts, j + 1) {
                    Ok((rhs, k)) => {
                        l = Expression::BinaryOp { left: Box::new(l), operator: op, right: Box::new(rhs) };
                        j = k;
                    },
                    Err(e) => {
                        return Err(e);
                    },
                }
            },
            None => {
                return Ok((l, j));
            },
        }
    }
}

#[verifier::spinoff_prover]
#[verifier::rlimit(60)]
fn parse_comparison(ts: &Vec<TokenWithSpan>, i: usize) -> (r: Result<(Expression, usize), ParseError>)
    requires
        wf_tokens(ts@),
        i < ts.len(),
    ensures
        expr_matches(r, p_comparison(view_tokens(ts@), i as int)),
        position_advances(r, i, ts.len()),
    decreases ts.len() - i, 7nat,
{
    let (mut l, mut j) = match parse_range(ts, i) {
        Ok(p) => p,
        Err(e) => {
            assert(expr_matches(Err(e), p_comparison(view_tokens(ts@), i as int)));
            return Err(e);
        },
    };
    assert(p_comparison(view_tokens(ts@), i as int) == p_comparison_rest(view_tokens(ts@), j as int, view_expr(l))) by {
        assert(expr_matches(Ok::<(Expression, usize), ParseError>((l, j)), p_range(view_tokens(ts@), i as int)));
        assert(p_range(view_tokens(ts@), i as int) is Ok);
    }
    loop
        invariant
            wf_tokens(ts@),
            i < j < ts.len(),
            p_comparison(view_tokens(ts@), i as int) == p_comparison_rest(view_tokens(ts@), j as int, view_expr(l)),
        decreases ts.len() - j,
    {
        match comparison_op_exec(token_at(ts, j)) {
            Some(op) => {
                proof {
                    lemma_not_eof_below_last(ts@, j as int);
                }
                match parse_range(ts, j + 1) {
                    Ok((rhs, k)) => {
                        l = Expression::BinaryOp { left: Box::new(l), operator: op, right: Box::new(rhs) };
                        j = k;
                    },
                    Err(e) => {
                        return Err(e);
                    },
                }
            },
            None => {
                return Ok((l, j));
            },
        }
    }
}

#[verifier::spinoff_prover]
#[verifier::rlimit(60)]
fn parse_range(ts: &Vec<TokenWithSpan>, i: usize) -> (r: Result<(Expression, usize), ParseError>)
    requires
        wf_tokens(ts@),
        i < ts.len(),
    ensures
        expr_matches(r, p_range(view_tokens(ts@), i as int)),
        position_advances(r, i, ts.len()),
    decreases ts.len() - i, 6nat,
{
    match parse_add(ts, i) {
        Ok((l, j)) => {
            if matches!(token_at(ts, j), Token::DotDot) {
                proof {
                    lemma_not_eof_below_last(ts@, j as int);
                }
                match parse_add(ts, j + 1) {
                    Ok((rhs, k)) => Ok((Expression::Range { start: Box::new(l), end: Box::new(rhs) }, k)),
                    Err(e) => Err(e),
                }
            } else {
                Ok((l, j))
            }
        },
        Err(e) => Err(e),
    }
}

#[verifier::spinoff_prover]
#[verifier::rlimit(60)]
fn parse_add(ts: &Vec<TokenWithSpan>, i: usize) -> (r: Result<(Expression, usize), ParseError>)
    requires
        wf_tokens(ts@),
        i < ts.len(),
    ensures
        expr_matches(r, p_add(view_tokens(ts@), i as int)),
        position_advances(r, i, ts.len()),
    decreases ts.len() - i, 5nat,
{
    let (mut l, mut j) = match parse_mul(ts, i) {
        Ok(p) => p,
        Err(e) => {
            assert(expr_matches(Err(e), p_add(view_tokens(ts@), i as int)));
            return Err(e);
        },
    };
    assert(p_add(view_tokens(ts@), i as int) == p_add_rest(view_tokens(ts@), j as int, view_expr(l))) by {
        assert(expr_matches(Ok::<(Expression, usize), ParseError>((l, j)), p_mul(view_tokens(ts@), i as int)));
        assert(p_mul(view_tokens(ts@), i as int) is Ok);
    }
    loop
        invariant
            wf_tokens(ts@),
            i < j < ts.len(),
            p_add(view_tokens(ts@), i as int) == p_add_rest(view_tokens(ts@), j as int, view_expr(l)),
        decreases ts.len() - j,
    {
        match add_op_exec(token_at(ts, j)) {
            Some(op) => {
                proof {
                    lemma_not_eof_below_last(ts@, j as int);
                }
                match parse_mul(ts, j + 1) {
                    Ok((rhs, k)) => {
                        l = Expression::BinaryOp { left: Box::new(l), operator: op, right: Box::new(rhs) };
                        j = k;
                    },
                    Err(e) => {
                        return Err(e);
                    },
                }
            },
            None => {
                return Ok((l, j));
            },
        }
    }
}

#[verifier::spinoff_prover]
#[verifier::rlimit(60)]
fn parse_mul(ts: &Vec<TokenWithSpan>, i: usize) -> (r: Result<(Expression, usize), ParseError>)
    requires
        wf_tokens(ts@),
        i < ts.len(),
    ensures
        expr_matches(r, p_mul(view_tokens(ts@), i as int)),
        position_advances(r, i, ts.len()),
    decreases ts.len() - i, 4nat,
{
    let (mut l, mut j) = match parse_pow(ts, i) {
        Ok(p) => p,
        Err(e) => {
            assert(expr_matches(Err(e), p_mul(view_tokens(ts@), i as int)));
            return Err(e);
        },
    };
    assert(p_mul(view_tokens(ts@), i as int) == p_mul_rest(view_tokens(ts@), j as int, view_expr(l))) by {
        assert(expr_matches(Ok::<(Expression, usize), ParseError>((l, j)), p_pow(view_tokens(ts@), i as int)));
        assert(p_pow(view_tokens(ts@), i as int) is Ok);
    }
    loop
        invariant
            wf_tokens(ts@),
            i < j < ts.len(),
            p_mul(view_tokens(ts@), i as int) == p_mul_rest(view_tokens(ts@), j as int, view_expr(l)),
        decreases ts.len() - j,
    {
        match mul_op_exec(token_at(ts, j)) {
            Some(op) => {
                proof {
                    lemma_not_eof_below_last(ts@, j as int);
                }
                match parse_pow(ts, j + 1) {
                    Ok((rhs, k)) => {
                        l = Expression::BinaryOp { left: Box::new(l), operator: op, right: Box::new(rhs) };
                        j = k;
                    },
                    Err(e) => {
                        return Err(e);
                    },
                }
            },
            None => {
                return Ok((l, j));
            },
        }
    }
}

#[verifier::spinoff_prover]
fn parse_pow(ts: &Vec<TokenWithSpan>, i: usize) -> (r: Result<(Expression, usize), ParseError>)
    requires
        wf_tokens(ts@),
        i < ts.len(),
    ensures
        expr_matches(r, p_pow(view_tokens(ts@), i as int)),
        position_advances(r, i, ts.len()),
    decreases ts.len() - i, 3nat,
{
    match parse_unary(ts, i) {
        Ok((b, j)) => {
            if matches!(token_at(ts, j), Token::Caret) {
                proof {
                    lemma_not_eof_below_last(ts@, j as int);
                }
                match parse_pow(ts, j + 1) {
                    Ok((e, k)) => Ok((Expression::BinaryOp { left: Box::new(b), operator: BinaryOperator::Pow, right: Box::new(e) }, k)),
                    Err(e) => Err(e),
                }
            } else {
                Ok((b, j))
            }
        },
        Err(e) => Err(e),
    }
}

#[verifier::spinoff_prover]
fn parse_unary(ts: &Vec<TokenWithSpan>, i: usize) -> (r: Result<(Expression, usize), ParseError>)
    requires
        wf_tokens(ts@),
        i < ts.len(),
    ensures
        expr_matches(r, p_unary(view_tokens(ts@), i as int)),
        position_advances(r, i, ts.len()),
    decreases ts.len() - i, 2nat,
{
    match token_at(ts, i) {
        Token::Minus => {
            proof {
                lemma_not_eof_below_last(ts@, i as int);
            }
            match parse_unary(ts, i + 1) {
                Ok((e, j)) => Ok((Expression::UnaryOp { operator: UnaryOperator::Neg, operand: Box::new(e) }, j)),
                Err(e) => Err(e),
            }
        },
        Token::Bang => {
            proof {
                lemma_not_eof_below_last(ts@, i as int);
            }
            match parse_unary(ts, i + 1) {
                Ok((e, j)) => Ok((Expression::UnaryOp { operator: UnaryOperator::Not, operand: Box::new(e) }, j)),
                Err(e) => Err(e),
            }
        },
        _ => parse_postfix(ts, i),
    }
}

#[verifier::spinoff_prover]
fn parse_args(ts: &Vec<TokenWithSpan>, i: usize) -> (r: Result<(Vec<Expression>, usize), ParseError>)
    requires
        wf_tokens(ts@),
        i < ts.len(),
    ensures
        exprs_matches(r, p_args(view_tokens(ts@), i as int)),
        r matches Ok((_, j)) ==> i <= j < ts.len(),
    decreases ts.len() - i, 14nat,
{
    if matches!(token_at(ts, i), Token::RightParen) {
        let v: Vec<Expression> = Vec::new();
        assert(view_exprs(v@) =~= Seq::<SpecExpr>::empty());
        Ok((v, i))
    } else {
        parse_expr_list(ts, i)
    }
}

#[verifier::spinoff_prover]
fn parse_postfix(ts: &Vec<TokenWithSpan>, i: usize) -> (r: Result<(Expression, usize), ParseError>)
    requires
        wf_tokens(ts@),
        i < ts.len(),
    ensures
        expr_matches(r, p_postfix(view_tokens(ts@), i as int)),
        position_advances(r, i, ts.len()),
    decreases ts.len() - i, 1nat,
{
    let (mut e, mut j) = match parse_primary(ts, i) {
        Ok(p) => p,
        Err(er) => {
            assert(expr_matches(Err(er), p_postfix(view_tokens(ts@), i as int)));
            return Err(er);
        },
    };
    assert(p_postfix(view_tokens(ts@), i as int) == p_postfix_rest(view_tokens(ts@), j as int, view_expr(e))) by {
        assert(expr_matches(Ok::<(Expression, usize), ParseError>((e, j)), p_primary(view_tokens(ts@), i as int)));
        assert(p_primary(view_tokens(ts@), i as int) is Ok);
    }
    loop
        invariant
            wf_tokens(ts@),
            i < j < ts.len(),
            p_postfix(view_tokens(ts@), i as int) == p_postfix_rest(view_tokens(ts@), j as int, view_expr(e)),
        decreases ts.len() - j,
    {
        if matches!(token_at(ts, j), Token::LeftParen) {
            proof {
                lemma_not_eof_below_last(ts@, j as int);
            }
            match parse_args(ts, j + 1) {
                Ok((a, k)) => {
                    if matches!(token_at(ts, k), Token::RightParen) {
                        proof {
                            lemma_not_eof_below_last(ts@, k as int);
                        }
                        e = Expression::FunctionCall { function: Box::new(e), args: a };
                        j = k + 1;
                    } else {
                        return Err(error_at(ts, k, Expectation::RightParen));
                    }
                },
                Err(er) => {
                    return Err(er);
                },
            }
        } else if matches!(token_at(ts, j), Token::Dot) {
            proof {
                lemma_not_eof_below_last(ts@, j as int);
            }
            match token_at(ts, j + 1) {
                Token::Identifier(f) => {
                    proof {
                        lemma_not_eof_below_last(ts@, j as int + 1);
                    }
                    e = Expression::FieldAccess { object: Box::new(e), field: f.clone() };
                    j = j + 2;
                },
                _ => {
                    return Err(error_at(ts, j + 1, Expectation::Identifier));
                },
            }
        } else {
            return Ok((e, j));
        }
    }
}

#[verifier::spinoff_prover]
#[verifier::rlimit(60)]
fn parse_primary(ts: &Vec<TokenWithSpan>, i: usize) -> (r: Result<(Expression, usize), ParseError>)
    requires
        wf_tokens(ts@),
        i < ts.len(),
    ensures
        expr_matches(r, p_primary(view_tokens(ts@), i as int)),
        position_advances(r, i, ts.len()),
    decreases ts.len() - i, 0nat,
{
    match token_at(ts, i) {
        Token::IntLiteral(v) => {
            proof {
                lemma_not_eof_below_last(ts@, i as int);
            }
            Ok((Expression::IntLiteral(*v), i + 1))
        },
        Token::FloatLiteral(s) => {
            proof {
                lemma_not_eof_below_last(ts@, i as int);
            }
            Ok((Expression::FloatLiteral(s.clone()), i + 1))
        },
        Token::StringLiteral(s) => {
            proof {
                lemma_not_eof_below_last(ts@, i as int);
            }
            Ok((Expression::StringLiteral(s.clone()), i + 1))
        },
        Token::True => {
            proof {
                lemma_not_eof_below_last(ts@, i as int);
            }
            Ok((Expression::BoolLiteral(true), i + 1))
        },
        Token::False => {
            proof {
                lemma_not_eof_below_last(ts@, i as int);
            }
            Ok((Expression::BoolLiteral(false), i + 1))
        },
        Token::Identifier(n) => {
            proof {
                lemma_not_eof_below_last(ts@, i as int);
            }
            if is_type_name_exec(n) && matches!(token_at(ts, i + 1), Token::LeftBrace) {
                proof {
                    lemma_not_eof_below_last(ts@, i as int + 1);
                }
                match parse_field_inits(ts, i + 2) {
                    Ok((fs, j)) => Ok((Expression::StructCreation { name: n.clone(), fields: fs }, j)),
                    Err(e) => Err(e),
                }
            } else {
                Ok((Expression::Identifier(n.clone()), i + 1))
            }
        },
        Token::LeftParen => {
            proof {
                lemma_not_eof_below_last(ts@, i as int);
            }
            match parse_expr(ts, i + 1) {
                Ok((e, j)) => {
                    if matches!(token_at(ts, j), Token::RightParen) {
                        proof {
                            lemma_not_eof_below_last(ts@, j as int);
                        }
                        Ok((e, j + 1))
                    } else {
                        Err(error_at(ts, j, Expectation::RightParen))
                    }
                },
                Err(e) => Err(e),
            }
        },
        Token::LeftBracket => {
            proof {
                lemma_not_eof_below_last(ts@, i as int);
            }
            parse_array(ts, i + 1)
        },
        Token::LeftBrace => {
            proof {
                lemma_not_eof_below_last(ts@, i as int);
            }
            parse_block_body(ts, i + 1)
        },
        _ => Err(error_at(ts, i, Expectation::Expression)),
    }
}

#[verifier::spinoff_prover]
fn parse_field_inits(ts: &Vec<TokenWithSpan>, i: usize) -> (r: Result<(Vec<FieldInit>, usize), ParseError>)
    requires
        wf_tokens(ts@),
        i < ts.len(),
    ensures
        match p_field_inits(view_tokens(ts@), i as int, Seq::empty()) {
            Ok((fs, j)) => r matches Ok((f2, j2)) && view_field_inits(f2@) == fs && j2 as int == j,
            Err(e) => r matches Err(e2) && e2 == e,
        },
        position_advances(r, i, ts.len()),
    decreases ts.len() - i, 0nat,
{
    let ghost vts = view_tokens(ts@);
    let mut acc: Vec<FieldInit> = Vec::new();
    let mut k = i;
    assert(view_field_inits(acc@) =~= Seq::<SpecFieldInit>::empty());
    loop
        invariant
            wf_tokens(ts@),
            vts == view_tokens(ts@),
            i <= k < ts.len(),
            p_field_inits(vts, i as int, Seq::empty()) == p_field_inits(vts, k as int, view_field_inits(acc@)),
        decreases ts.len() - k,
    {
        match token_at(ts, k) {
            Token::RightBrace => {
                proof {
                    lemma_not_eof_below_last(ts@, k as int);
                }
                return Ok((acc, k + 1));
            },
            Token::Identifier(n) => {
                proof {
                    lemma_not_eof_below_last(ts@, k as int);
                }
                if !matches!(token_at(ts, k + 1), Token::Colon) {
                    return Err(error_at(ts, k + 1, Expectation::Colon));
                }
                proof {
                    lemma_not_eof_below_last(ts@, k as int + 1);
                }
                match parse_expr(ts, k + 2) {
                    Ok((v, j)) => {
                        let fi = FieldInit { name: n.clone(), value: v };
                        proof {
                            crate::ast::lemma_view_field_inits_push(acc@, fi);
                        }
                        acc.push(fi);
                        if matches!(token_at(ts, j), Token::Comma) {
                            proof {
                                lemma_not_eof_below_last(ts@, j as int);
                            }
                            k = j + 1;
                        } else if matches!(token_at(ts, j), Token::RightBrace) {
                            proof {
                                lemma_not_eof_below_last(ts@, j as int);
                            }
                            return Ok((acc, j + 1));
                        } else {
                            return Err(error_at(ts, j, Expectation::RightBrace));
                        }
                    },
                    Err(e) => {
                        return Err(e);
                    },
                }
            },
            _ => {
                return Err(error_at(ts, k, Expectation::Identifier));
            },
        }
    }
}

#[verifier::spinoff_prover]
fn parse_array(ts: &Vec<TokenWithSpan>, i: usize) -> (r: Result<(Expression, usize), ParseError>)
    requires
        wf_tokens(ts@),
        i < ts.len(),
    ensures
        expr_matches(r, p_array(view_tokens(ts@), i as int)),
        position_advances(r, i, ts.len()),
    decreases ts.len() - i, 16nat,
{
    if matches!(token_at(ts, i), Token::RightBracket) {
        proof {
            lemma_not_eof_below_last(ts@, i as int);
        }
        let v: Vec<Expression> = Vec::new();
        assert(view_exprs(v@) =~= Seq::<SpecExpr>::empty());
        Ok((Expression::ArrayLiteral(v), i + 1))
    } else if matches!(token_at(ts, i), Token::LeftBracket) {
        parse_matrix(ts, i)
    } else {
        parse_elements(ts, i)
    }
}

#[verifier::spinoff_prover]
fn parse_matrix(ts: &Vec<TokenWithSpan>, i: usize) -> (r: Result<(Expression, usize), ParseError>)
    requires
        wf_tokens(ts@),
        i < ts.len(),
    ensures
        expr_matches(r, p_matrix(view_tokens(ts@), i as int)),
        position_advances(r, i, ts.len()),
    decreases ts.len() - i, 15nat,
{
    match parse_rows(ts, i) {
        Ok((rows, j)) => {
            if matches!(token_at(ts, j), Token::RightBracket) {
                proof {
                    lemma_not_eof_below_last(ts@, j as int);
                }
                Ok((Expression::MatrixLiteral(rows), j + 1))
            } else {
                Err(error_at(ts, j, Expectation::RightBracket))
            }
        },
        Err(e) => Err(e),
    }
}

#[verifier::spinoff_prover]
fn parse_elements(ts: &Vec<TokenWithSpan>, i: usize) -> (r: Result<(Expression, usize), ParseError>)
    requires
        wf_tokens(ts@),
        i < ts.len(),
    ensures
        expr_matches(r, p_elements(view_tokens(ts@), i as int)),
        position_advances(r, i, ts.len()),
    decreases ts.len() - i, 15nat,
{
    match parse_expr_list(ts, i) {
        Ok((es, j)) => {
            if matches!(token_at(ts, j), Token::RightBracket) {
                proof {
                    lemma_not_eof_below_last(ts@, j as int);
                }
                Ok((Expression::ArrayLiteral(es), j + 1))
            } else {
                Err(error_at(ts, j, Expectation::RightBracket))
            }
        },
        Err(e) => Err(e),
    }
}

#[verifier::spinoff_prover]
fn parse_row(ts: &Vec<TokenWithSpan>, i: usize) -> (r: Result<(Vec<Expression>, usize), ParseError>)
    requires
        wf_tokens(ts@),
        i < ts.len(),
    ensures
        exprs_matches(r, p_row(view_tokens(ts@), i as int)),
        r matches Ok((_, j)) ==> i <= j < ts.len(),
    decreases ts.len() - i, 14nat,
{
    if matches!(token_at(ts, i), Token::RightBracket) {
        let v: Vec<Expression> = Vec::new();
        assert(view_exprs(v@) =~= Seq::<SpecExpr>::empty());
        Ok((v, i))
    } else {
        parse_expr_list(ts, i)
    }
}

#[verifier::spinoff_prover]
#[verifier::rlimit(100)]
fn parse_rows(ts: &Vec<TokenWithSpan>, i: usize) -> (r: Result<(Vec<Vec<Expression>>, usize), ParseError>)
    requires
        wf_tokens(ts@),
        i < ts.len(),
    ensures
        match p_rows(view_tokens(ts@), i as int, Seq::empty()) {
            Ok((rs, j)) => r matches Ok((r2, j2)) && view_rows(r2@) == rs && j2 as int == j,
            Err(e) => r matches Err(e2) && e2 == e,
        },
        position_advances(r, i, ts.len()),
    decreases ts.len() - i, 14nat,
{
    let ghost vts = view_tokens(ts@);
    let mut acc: Vec<Vec<Expression>> = Vec::new();
    let mut k = i;
    assert(view_rows(acc@) =~= Seq::<Seq<SpecExpr>>::empty());
    loop
        invariant
            wf_tokens(ts@),
            vts == view_tokens(ts@),
            i <= k < ts.len(),
            p_rows(vts, i as int, Seq::empty()) == p_rows(vts, k as int, view_rows(acc@)),
        decreases ts.len() - k,
    {
        if !matches!(token_at(ts, k), Token::LeftBracket) {
            return Err(error_at(ts, k, Expectation::Expression));
        }
        proof {
            lemma_not_eof_below_last(ts@, k as int);
        }
        match parse_row(ts, k + 1) {
            Ok((row, j)) => {
                if !matches!(token_at(ts, j), Token::RightBracket) {
                    return Err(error_at(ts, j, Expectation::RightBracket));
                }
                proof {
                    lemma_not_eof_below_last(ts@, j as int);
                    crate::ast::lemma_view_rows_push(acc@, row);
                }
                let more = if matches!(token_at(ts, j + 1), Token::Comma) {
                    proof {
                        lemma_not_eof_below_last(ts@, j as int + 1);
                    }
                    matches!(token_at(ts, j + 2), Token::LeftBracket)
                } else {
                    false
                };
                acc.push(row);
                if more {
                    k = j + 2;
                } else {
                    return Ok((acc, j + 1));
                }
            },
            Err(e) => {
                return Err(e);
            },
        }
    }
}

#[verifier::spinoff_prover]
#[verifier::rlimit(60)]
fn parse_block_body(ts: &Vec<TokenWithSpan>, i: usize) -> (r: Result<(Expression, usize), ParseError>)
    requires
        wf_tokens(ts@),
        i < ts.len(),
    ensures
        expr_matches(r, p_block_body(view_tokens(ts@), i as int, Seq::empty())),
        position_advances(r, i, ts.len()),
    decreases ts.len() - i, 14nat,
{
    let ghost vts = view_tokens(ts@);
    let mut stmts: Vec<Statement> = Vec::new();
    let mut k = i;
    assert(view_stmts(stmts@) =~= Seq::<SpecStatement>::empty());
    loop
        invariant
            wf_tokens(ts@),
            vts == view_tokens(ts@),
            i <= k < ts.len(),
            p_block_body(vts, i as int, Seq::empty()) == p_block_body(vts, k as int, view_stmts(stmts@)),
        decreases ts.len() - k,
    {
        match token_at(ts, k) {
            Token::RightBrace => {
                proof {
                    lemma_not_eof_below_last(ts@, k as int);
                }
                return Ok((Expression::Block { statements: stmts, result: None }, k + 1));
            },
            Token::Eof => {
                return Err(error_at(ts, k, Expectation::RightBrace));
            },
            Token::Let => {
                match parse_let(ts, k) {
                    Ok((b, j)) => {
                        let j2 = if matches!(token_at(ts, j), Token::Semicolon) {
                            proof {
                                lemma_not_eof_below_last(ts@, j as int);
                            }
                            j + 1
                        } else {
                            j
                        };
                        let st = Statement::LetBinding(b);
                        proof {
                            crate::ast::lemma_view_stmts_push(stmts@, st);
                        }
                        stmts.push(st);
                        k = j2;
                    },
                    Err(e) => {
                        return Err(e);
                    },
                }
            },
            _ => {
                match parse_expr(ts, k) {
                    Ok((e, j)) => {
                        if matches!(token_at(ts, j), Token::Semicolon) {
                            proof {
                                lemma_not_eof_below_last(ts@, j as int);
                            }
                            let st = Statement::Expression(e);
                            proof {
                                crate::ast::lemma_view_stmts_push(stmts@, st);
                            }
                            stmts.push(st);
                            k = j + 1;
                        } else if matches!(token_at(ts, j), Token::RightBrace) {
                            proof {
                                lemma_not_eof_below_last(ts@, j as int);
                            }
                            return Ok((Expression::Block { statements: stmts, result: Some(Box::new(e)) }, j + 1));
                        } else {
                            let st = Statement::Expression(e);
                            proof {
                                crate::ast::lemma_view_stmts_push(stmts@, st);
                            }
                            stmts.push(st);
                            k = j;
                        }
                    },
                    Err(er) => {
                        return Err(er);
                    },
                }
            },
        }
    }
}

} // verus!


verus! {

fn parse_struct_fields(ts: &Vec<TokenWithSpan>, i: usize) -> (r: Result<(Vec<StructField>, usize), ParseError>)
    requires
        wf_tokens(ts@),
        i < ts.len(),
    ensures
        match p_struct_fields(view_tokens(ts@), i as int, Seq::empty()) {
            Ok((fs, j)) => r matches Ok((f2, j2)) && f2@.map_values(
                |f: StructField| SpecStructField { name: f.name@, field_type: view_type(f.field_type) },
            ) == fs && j2 as int == j,
            Err(e) => r matches Err(e2) && e2 == e,
        },
        position_advances(r, i, ts.len()),
{
    let ghost vts = view_tokens(ts@);
    let ghost vf = |f: StructField| SpecStructField { name: f.name@, field_type: view_type(f.field_type) };
    let mut acc: Vec<StructField> = Vec::new();
    let mut k = i;
    assert(acc@.map_values(vf) =~= Seq::<SpecStructField>::empty());
    loop
        invariant
            wf_tokens(ts@),
            vts == view_tokens(ts@),
            i <= k < ts.len(),
            vf == (|f: StructField| SpecStructField { name: f.name@, field_type: view_type(f.field_type) }),
            p_struct_fields(vts, i as int, Seq::empty()) == p_struct_fields(vts, k as int, acc@.map_values(vf)),
        decreases ts.len() - k,
    {
        match token_at(ts, k) {
            Token::RightBrace => {
                proof {
                    lemma_not_eof_below_last(ts@, k as int);
                }
                return Ok((acc, k + 1));
            },
            Token::Identifier(n) => {
                proof {
                    lemma_not_eof_below_last(ts@, k as int);
                }
                if !matches!(token_at(ts, k + 1), Token::Colon) {
                    return Err(error_at(ts, k + 1, Expectation::Colon));
                }
                proof {
                    lemma_not_eof_below_last(ts@, k as int + 1);
                }
                match parse_type(ts, k + 2) {
                    Ok((t, j)) => {
                        let ghost prev = acc@;
                        acc.push(StructField { name: n.clone(), field_type: t });
                        assert(acc@.map_values(vf) =~= prev.map_values(vf).push(
                            SpecStructField { name: n@, field_type: view_type(t) },
                        ));
                        if matches!(token_at(ts, j), Token::Comma) {
                            proof {
                                lemma_not_eof_below_last(ts@, j as int);
                            }
                            k = j + 1;
                        } else if matches!(token_at(ts, j), Token::RightBrace) {
                            proof {
                                lemma_not_eof_below_last(ts@, j as int);
                            }
                            return Ok((acc, j + 1));
                        } else {
                            return Err(error_at(ts, j, Expectation::RightBrace));
                        }
                    },
                    Err(e) => {
                        return Err(e);
                    },
                }
            },
            _ => {
                return Err(error_at(ts, k, Expectation::Identifier));
            },
        }
    }
}

fn parse_struct_def(ts: &Vec<TokenWithSpan>, i: usize) -> (r: Result<(StructDef, usize), ParseError>)
    requires
        wf_tokens(ts@),
        i < ts.len(),
    ensures
        match p_struct_def(view_tokens(ts@), i as int) {
            Ok((d, j)) => r matches Ok((d2, j2)) && crate::ast::view_struct_def(d2) == d && j2 as int == j,
            Err(e) => r matches Err(e2) && e2 == e,
        },
        position_advances(r, i, ts.len()),
{
    if !matches!(token_at(ts, i), Token::Struct) {
        return Err(error_at(ts, i, Expectation::Expression));
    }
    proof {
        lemma_not_eof_below_last(ts@, i as int);
    }
    match token_at(ts, i + 1) {
        Token::Identifier(n) => {
            proof {
                lemma_not_eof_below_last(ts@, i as int + 1);
            }
            if !matches!(token_at(ts, i + 2), Token::LeftBrace) {
                return Err(error_at(ts, i + 2, Expectation::LeftBrace));
            }
            proof {
                lemma_not_eof_below_last(ts@, i as int + 2);
            }
            match parse_struct_fields(ts, i + 3) {
                Ok((fs, j)) => Ok((StructDef { name: n.clone(), fields: fs }, j)),
                Err(e) => Err(e),
            }
        },
        _ => Err(error_at(ts, i + 1, Expectation::Identifier)),
    }
}

/// The index after an optional `;` at index `j`.
fn skip_semicolon_exec(ts: &Vec<TokenWithSpan>, j: usize) -> (k: usize)
    requires
        wf_tokens(ts@),
        j < ts.len(),
    ensures
        k as int == skip_semicolon(view_tokens(ts@), j as int),
        j <= k < ts.len(),
{
    if matches!(token_at(ts, j), Token::Semicolon) {
        proof {
            lemma_not_eof_below_last(ts@, j as int);
        }
        j + 1
    } else {
        j
    }
}

fn parse_item(ts: &Vec<TokenWithSpan>, i: usize) -> (r: Result<(Item, usize), ParseError>)
    requires
        wf_tokens(ts@),
        i < ts.len(),
    ensures
        match p_item(view_tokens(ts@), i as int) {
            Ok((it, j)) => r matches Ok((it2, j2)) && crate::ast::view_item(it2) == it && j2 as int == j,
            Err(e) => r matches Err(e2) && e2 == e,
        },
        position_advances(r, i, ts.len()),
{
    if matches!(token_at(ts, i), Token::Let) {
        match parse_let(ts, i) {
            Ok((b, j)) => Ok((Item::LetBinding(b), skip_semicolon_exec(ts, j))),
            Err(e) => Err(e),
        }
    } else if matches!(token_at(ts, i), Token::Struct) {
        match parse_struct_def(ts, i) {
            Ok((d, j)) => Ok((Item::StructDef(d), j)),
            Err(e) => Err(e),
        }
    } else {
        match parse_expr(ts, i) {
            Ok((e, j)) => Ok((Item::Expression(e), skip_semicolon_exec(ts, j))),
            Err(e) => Err(e),
        }
    }
}

/// The program that a token vector spells.
fn parse_items(ts: &Vec<TokenWithSpan>) -> (r: Result<Program, ParseError>)
    requires
        wf_tokens(ts@),
    ensures
        match program_of_tokens(view_tokens(ts@)) {
            Ok(p) => r matches Ok(p2) && view_program(p2) == p,
            Err(e) => r matches Err(e2) && e2 == e,
        },
{
    let ghost vts = view_tokens(ts@);
    let ghost vi = |it: Item| crate::ast::view_item(it);
    let mut acc: Vec<Item> = Vec::new();
    let mut k: usize = 0;
    assert(acc@.map_values(vi) =~= Seq::<SpecItem>::empty());
    loop
        invariant
            wf_tokens(ts@),
            vts == view_tokens(ts@),
            k < ts.len(),
            vi == (|it: Item| crate::ast::view_item(it)),
            p_items(vts, 0, Seq::empty()) == p_items(vts, k as int, acc@.map_values(vi)),
        decreases ts.len() - k,
    {
        if matches!(token_at(ts, k), Token::Eof) {
            let p = Program { items: acc };
            assert(view_program(p).items =~= p.items@.map_values(vi));
            return Ok(p);
        }
        match parse_item(ts, k) {
            Ok((it, j)) => {
                let ghost prev = acc@;
                acc.push(it);
                assert(acc@.map_values(vi) =~= prev.map_values(vi).push(crate::ast::view_item(it)));
                k = j;
            },
            Err(e) => {
                return Err(e);
            },
        }
    }
}

/// The parser: the tokens of a whole source text.
pub struct Parser {
    tokens: Vec<TokenWithSpan>,
}

impl Parser {
    #[verifier::type_invariant]
    spec fn inv(self) -> bool {
        wf_tokens(self.tokens@)
    }

    /// The tokens that the parser reads.
    pub closed spec fn spec_tokens(&self) -> Seq<SpecTokenWithSpan> {
        view_tokens(self.tokens@)
    }

    /// Reads all the tokens of the lexer's input; a lexing error becomes a
    /// parse error of kind `Lex` at the same place.
    pub fn new(lexer: Lexer) -> (r: Result<Parser, ParseError>)
        ensures
            match tokenize_spec(lexer.spec_input(), lexer.spec_pos(), lexer.spec_line(), lexer.spec_column()) {
                Ok(ts) => r matches Ok(p) && p.spec_tokens() == ts,
                Err((k, l, c)) => r == Err::<Parser, ParseError>(
                    ParseError { kind: ParseErrorKind::Lex(k), line: l as usize, column: c as usize },
                ),
            },
    {
        let mut lexer = lexer;
        match lexer.tokenize() {
            Ok(tokens) => {
                Ok(Parser { tokens })
            },
            Err(e) => Err(ParseError { kind: ParseErrorKind::Lex(e.kind), line: e.line, column: e.column }),
        }
    }

    /// Parses the whole program.
    pub fn parse_program(&mut self) -> (r: Result<Program, ParseError>)
        ensures
            final(self).spec_tokens() == old(self).spec_tokens(),
            match program_of_tokens(old(self).spec_tokens()) {
                Ok(p) => r matches Ok(p2) && view_program(p2) == p,
                Err(e) => r matches Err(e2) && e2 == e,
            },
    {
        proof {
            use_type_invariant(&*self);
        }
        parse_items(&self.tokens)
    }
}

/// Parses a whole source text.
pub fn parse_source(source: &str) -> (r: Result<Program, ParseError>)
    requires
        source@.len() < usize::MAX,
    ensures
        match program_of_source(source@) {
            Ok(p) => r matches Ok(p2) && view_program(p2) == p,
            Err(e) => r matches Err(e2) && e2 == e,
        },
{
    let lexer = Lexer::new(source);
    match Parser::new(lexer) {
        Ok(mut parser) => parser.parse_program(),
        Err(e) => Err(e),
    }
}

} // verus!

verus! {

/// What an expectation names in a message.
pub open spec fn expectation_text(e: Expectation) -> Seq<char> {
    match e {
        Expectation::Expression => "an expression"@,
        Expectation::Identifier => "an identifier"@,
        Expectation::Type => "a type"@,
        Expectation::Assign => "`=`"@,
        Expectation::Colon => "`:`"@,
        Expectation::LeftBrace => "`{`"@,
        Expectation::RightBrace => "`}`"@,
        Expectation::RightParen => "`)`"@,
        Expectation::RightBracket => "`]`"@,
        Expectation::FatArrow => "`=>`"@,
        Expectation::DirectiveName => "`sim` or `plot`"@,
    }
}

/// The message of a parse error: what was expected, or that the text
/// could not be split into tokens, and where.
pub open spec fn parse_error_text(e: ParseError) -> Seq<char> {
    (match e.kind {
        ParseErrorKind::Expected(x) => "expected "@ + expectation_text(x),
        ParseErrorKind::Lex(_) => "invalid token"@,
    }) + " at line "@ + crate::text::decimal(e.line as nat) + ", column "@ + crate::text::decimal(e.column as nat)
}

impl ParseError {
    /// The message of the error.
    pub fn message(&self) -> (s: String)
        ensures
            s@ == parse_error_text(*self),
    {
        let mut out: Vec<char> = Vec::new();
        match self.kind {
            ParseErrorKind::Expected(x) => {
                crate::text::push_str_chars(&mut out, "expected ");
                let what = match x {
                    Expectation::Expression => "an expression",
                    Expectation::Identifier => "an identifier",
                    Expectation::Type => "a type",
                    Expectation::Assign => "`=`",
                    Expectation::Colon => "`:`",
                    Expectation::LeftBrace => "`{`",
                    Expectation::RightBrace => "`}`",
                    Expectation::RightParen => "`)`",
                    Expectation::RightBracket => "`]`",
                    Expectation::FatArrow => "`=>`",
                    Expectation::DirectiveName => "`sim` or `plot`",
                };
                crate::text::push_str_chars(&mut out, what);
            },
            ParseErrorKind::Lex(_) => {
                crate::text::push_str_chars(&mut out, "invalid token");
            },
        }
        crate::text::push_str_chars(&mut out, " at line ");
        crate::text::push_decimal(&mut out, self.line as u64);
        crate::text::push_str_chars(&mut out, ", column ");
        crate::text::push_decimal(&mut out, self.column as u64);
        crate::text::string_from_chars(out.as_slice())
    }
}

} // verus!
