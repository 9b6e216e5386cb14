//! The lexer of the Matrix Language: turns source text into a sequence of
//! tokens, each with the line and column where it starts.
//!
//! Trivia are the ASCII blanks (space, tab, carriage return, newline) and
//! comments, which run from `--` to the end of the line. Identifiers are
//! ASCII letters, digits and underscores not starting with a digit; the words
//! `let`, `struct`, `if`, `else`, `true` and `false` are keywords. A number is
//! a run of digits, optionally followed by `.` and at least one more digit
//! (then it is a float literal, kept as written). Strings are delimited by
//! `"` and know the escapes `\n`, `\t`, `\r`, `\0`, `\\` and `\"`.
//! Operators are matched longest first.
use vstd::prelude::*;
use crate::text::{same_chars, string_from_chars};

verus! {

/// A token of the Matrix Language.
#[derive(Debug, Clone, PartialEq)]
pub enum Token {
    Let,
    Struct,
    If,
    Else,
    True,
    False,
    Identifier(String),
    IntLiteral(i64),
    /// A float literal, kept as its source text.
    FloatLiteral(String),
    StringLiteral(String),
    LeftParen,
    RightParen,
    LeftBrace,
    RightBrace,
    LeftBracket,
    RightBracket,
    Comma,
    Colon,
    Semicolon,
    Dot,
    DotDot,
    Arrow,
    FatArrow,
    Assign,
    Plus,
    Minus,
    Star,
    Slash,
    Percent,
    Caret,
    Equal,
    NotEqual,
    Less,
    LessEqual,
    Greater,
    GreaterEqual,
    AndAnd,
    OrOr,
    Pipe,
    Bang,
    At,
    Eof,
}

/// The mathematical counterpart of [`Token`], with character sequences in
/// place of strings.
pub enum SpecToken {
    Let,
    Struct,
    If,
    Else,
    True,
    False,
    Identifier(Seq<char>),
    IntLiteral(i64),
    FloatLiteral(Seq<char>),
    StringLiteral(Seq<char>),
    LeftParen,
    RightParen,
    LeftBrace,
    RightBrace,
    LeftBracket,
    RightBracket,
    Comma,
    Colon,
    Semicolon,
    Dot,
    DotDot,
    Arrow,
    FatArrow,
    Assign,
    Plus,
    Minus,
    Star,
    Slash,
    Percent,
    Caret,
    Equal,
    NotEqual,
    Less,
    LessEqual,
    Greater,
    GreaterEqual,
    AndAnd,
    OrOr,
    Pipe,
    Bang,
    At,
    Eof,
}

impl View for Token {
    type V = SpecToken;

    open spec fn view(&self) -> SpecToken {
        match self {
            Token::Let => SpecToken::Let,
            Token::Struct => SpecToken::Struct,
            Token::If => SpecToken::If,
            Token::Else => SpecToken::Else,
            Token::True => SpecToken::True,
            Token::False => SpecToken::False,
            Token::Identifier(s) => SpecToken::Identifier(s@),
            Token::IntLiteral(v) => SpecToken::IntLiteral(*v),
            Token::FloatLiteral(s) => SpecToken::FloatLiteral(s@),
            Token::StringLiteral(s) => SpecToken::StringLiteral(s@),
            Token::LeftParen => SpecToken::LeftParen,
            Token::RightParen => SpecToken::RightParen,
            Token::LeftBrace => SpecToken::LeftBrace,
            Token::RightBrace => SpecToken::RightBrace,
            Token::LeftBracket => SpecToken::LeftBracket,
            Token::RightBracket => SpecToken::RightBracket,
            Token::Comma => SpecToken::Comma,
            Token::Colon => SpecToken::Colon,
            Token::Semicolon => SpecToken::Semicolon,
            Token::Dot => SpecToken::Dot,
            Token::DotDot => SpecToken::DotDot,
            Token::Arrow => SpecToken::Arrow,
            Token::FatArrow => SpecToken::FatArrow,
            Token::Assign => SpecToken::Assign,
            Token::Plus => SpecToken::Plus,
            Token::Minus => SpecToken::Minus,
            Token::Star => SpecToken::Star,
            Token::Slash => SpecToken::Slash,
            Token::Percent => SpecToken::Percent,
            Token::Caret => SpecToken::Caret,
            Token::Equal => SpecToken::Equal,
            Token::NotEqual => SpecToken::NotEqual,
            Token::Less => SpecToken::Less,
            Token::LessEqual => SpecToken::LessEqual,
            Token::Greater => SpecToken::Greater,
            Token::GreaterEqual => SpecToken::GreaterEqual,
            Token::AndAnd => SpecToken::AndAnd,
            Token::OrOr => SpecToken::OrOr,
            Token::Pipe => SpecToken::Pipe,
            Token::Bang => SpecToken::Bang,
            Token::At => SpecToken::At,
            Token::Eof => SpecToken::Eof,
        }
    }
}

/// A token with the line and column (both counted from 1) of its first
/// character.
#[derive(Debug, Clone)]
pub struct TokenWithSpan {
    pub token: Token,
    pub line: usize,
    pub column: usize,
}

/// The mathematical counterpart of [`TokenWithSpan`].
pub struct SpecTokenWithSpan {
    pub token: SpecToken,
    pub line: int,
    pub column: int,
}

impl View for TokenWithSpan {
    type V = SpecTokenWithSpan;

    open spec fn view(&self) -> SpecTokenWithSpan {
        SpecTokenWithSpan { token: self.token@, line: self.line as int, column: self.column as int }
    }
}

/// What went wrong while lexing.
#[derive(Debug, Clone, PartialEq, Eq, Structural)]
pub enum LexErrorKind {
    /// A character that starts no token.
    UnexpectedCharacter(char),
    /// A string literal that the input ends inside of.
    UnterminatedString,
    /// A backslash in a string followed by a character that is no escape.
    InvalidEscape(char),
    /// An integer literal larger than `i64::MAX`.
    IntegerTooLarge,
}

/// A lexing error, with the line and column of the token that failed.
#[derive(Debug, Clone, PartialEq, Eq, Structural)]
pub struct LexError {
    pub kind: LexErrorKind,
    pub line: usize,
    pub column: usize,
}

pub open spec fn is_blank(c: char) -> bool {
    c == ' ' || c == '\t' || c == '\r' || c == '\n'
}

pub open spec fn is_digit(c: char) -> bool {
    '0' <= c && c <= '9'
}

pub open spec fn is_ident_start(c: char) -> bool {
    ('a' <= c && c <= 'z') || ('A' <= c && c <= 'Z') || c == '_'
}

pub open spec fn is_ident_continue(c: char) -> bool {
    is_ident_start(c) || is_digit(c)
}

/// The index of the first character at or after `i` that is neither a blank
/// nor part of a comment; `in_comment` tells whether `i` lies inside a
/// comment.
pub open spec fn trivia_end(s: Seq<char>, i: int, in_comment: bool) -> int
    decreases s.len() - i,
{
    if i < 0 || i >= s.len() {
        i
    } else if in_comment {
        trivia_end(s, i + 1, s[i] != '\n')
    } else if is_blank(s[i]) {
        trivia_end(s, i + 1, false)
    } else if s[i] == '-' && i + 1 < s.len() && s[i + 1] == '-' {
        trivia_end(s, i + 2, true)
    } else {
        i
    }
}

/// The line and column reached from (`line`, `col`) at index `i` after
/// reading the characters up to index `j`.
pub open spec fn advance(s: Seq<char>, i: int, j: int, line: int, col: int) -> (int, int)
    decreases j - i,
{
    if i >= j {
        (line, col)
    } else if s[i] == '\n' {
        advance(s, i + 1, j, line + 1, 1)
    } else {
        advance(s, i + 1, j, line, col + 1)
    }
}

/// The end of the run of identifier characters starting at `i`.
pub open spec fn ident_end(s: Seq<char>, i: int) -> int
    decreases s.len() - i,
{
    if 0 <= i < s.len() && is_ident_continue(s[i]) {
        ident_end(s, i + 1)
    } else {
        i
    }
}

/// The end of the run of digits starting at `i`.
pub open spec fn digits_end(s: Seq<char>, i: int) -> int
    decreases s.len() - i,
{
    if 0 <= i < s.len() && is_digit(s[i]) {
        digits_end(s, i + 1)
    } else {
        i
    }
}

/// The number written by the digits `s[i..j]`.
pub open spec fn digits_value(s: Seq<char>, i: int, j: int) -> int
    decreases j - i,
{
    if j <= i {
        0
    } else {
        digits_value(s, i, j - 1) * 10 + (s[j - 1] as int - '0' as int)
    }
}

/// The character that the escape `\c` stands for.
pub open spec fn escape_char(c: char) -> Option<char> {
    if c == 'n' {
        Some('\n')
    } else if c == 't' {
        Some('\t')
    } else if c == 'r' {
        Some('\r')
    } else if c == '0' {
        Some('\0')
    } else if c == '\\' {
        Some('\\')
    } else if c == '"' {
        Some('"')
    } else {
        None
    }
}

/// Reads the rest of a string literal from index `i` (just after the opening
/// quote, or further on), `acc` being what was read so far: the contents and
/// the index just after the closing quote.
pub open spec fn string_scan(s: Seq<char>, i: int, acc: Seq<char>) -> Result<(Seq<char>, int), LexErrorKind>
    decreases s.len() - i,
{
    if i < 0 || i >= s.len() {
        Err(LexErrorKind::UnterminatedString)
    } else if s[i] == '"' {
        Ok((acc, i + 1))
    } else if s[i] == '\\' {
        if i + 1 >= s.len() {
            Err(LexErrorKind::UnterminatedString)
        } else {
            match escape_char(s[i + 1]) {
                Some(e) => string_scan(s, i + 2, acc.push(e)),
                None => Err(LexErrorKind::InvalidEscape(s[i + 1])),
            }
        }
    } else {
        string_scan(s, i + 1, acc.push(s[i]))
    }
}

/// The keyword that a word spells, or the identifier it is.
pub open spec fn keyword_or_identifier(w: Seq<char>) -> SpecToken {
    if w == seq!['l', 'e', 't'] {
        SpecToken::Let
    } else if w == seq!['s', 't', 'r', 'u', 'c', 't'] {
        SpecToken::Struct
    } else if w == seq!['i', 'f'] {
        SpecToken::If
    } else if w == seq!['e', 'l', 's', 'e'] {
        SpecToken::Else
    } else if w == seq!['t', 'r', 'u', 'e'] {
        SpecToken::True
    } else if w == seq!['f', 'a', 'l', 's', 'e'] {
        SpecToken::False
    } else {
        SpecToken::Identifier(w)
    }
}

/// The operator or punctuation token starting with `c` (followed by `next`,
/// if the input goes on), with its length.
pub open spec fn punctuation(c: char, next: Option<char>) -> Option<(SpecToken, int)> {
    if c == '(' {
        Some((SpecToken::LeftParen, 1))
    } else if c == ')' {
        Some((SpecToken::RightParen, 1))
    } else if c == '{' {
        Some((SpecToken::LeftBrace, 1))
    } else if c == '}' {
        Some((SpecToken::RightBrace, 1))
    } else if c == '[' {
        Some((SpecToken::LeftBracket, 1))
    } else if c == ']' {
        Some((SpecToken::RightBracket, 1))
    } else if c == ',' {
        Some((SpecToken::Comma, 1))
    } else if c == ':' {
        Some((SpecToken::Colon, 1))
    } else if c == ';' {
        Some((SpecToken::Semicolon, 1))
    } else if c == '+' {
        Some((SpecToken::Plus, 1))
    } else if c == '*' {
        Some((SpecToken::Star, 1))
    } else if c == '/' {
        Some((SpecToken::Slash, 1))
    } else if c == '%' {
        Some((SpecToken::Percent, 1))
    } else if c == '^' {
        Some((SpecToken::Caret, 1))
    } else if c == '@' {
        Some((SpecToken::At, 1))
    } else if c == '.' {
        if next == Some('.') { Some((SpecToken::DotDot, 2)) } else { Some((SpecToken::Dot, 1)) }
    } else if c == '-' {
        if next == Some('>') { Some((SpecToken::Arrow, 2)) } else { Some((SpecToken::Minus, 1)) }
    } else if c == '=' {
        if next == Some('>') {
            Some((SpecToken::FatArrow, 2))
        } else if next == Some('=') {
            Some((SpecToken::Equal, 2))
        } else {
            Some((SpecToken::Assign, 1))
        }
    } else if c == '!' {
        if next == Some('=') { Some((SpecToken::NotEqual, 2)) } else { Some((SpecToken::Bang, 1)) }
    } else if c == '<' {
        if next == Some('=') { Some((SpecToken::LessEqual, 2)) } else { Some((SpecToken::Less, 1)) }
    } else if c == '>' {
        if next == Some('=') {
            Some((SpecToken::GreaterEqual, 2))
        } else {
            Some((SpecToken::Greater, 1))
        }
    } else if c == '&' {
        if next == Some('&') { Some((SpecToken::AndAnd, 2)) } else { None }
    } else if c == '|' {
        if next == Some('|') { Some((SpecToken::OrOr, 2)) } else { Some((SpecToken::Pipe, 1)) }
    } else {
        None
    }
}

/// The token that starts at index `p` (where trivia are already skipped)
/// and the index just after it.
pub open spec fn lex_token(s: Seq<char>, p: int) -> Result<(SpecToken, int), LexErrorKind> {
    let c = s[p];
    if is_ident_start(c) {
        let e = ident_end(s, p + 1);
        Ok((keyword_or_identifier(s.subrange(p, e)), e))
    } else if is_digit(c) {
        let e1 = digits_end(s, p + 1);
        if e1 + 1 < s.len() && s[e1] == '.' && is_digit(s[e1 + 1]) {
            let e2 = digits_end(s, e1 + 2);
            Ok((SpecToken::FloatLiteral(s.subrange(p, e2)), e2))
        } else if digits_value(s, p, e1) > i64::MAX {
            Err(LexErrorKind::IntegerTooLarge)
        } else {
            Ok((SpecToken::IntLiteral(digits_value(s, p, e1) as i64), e1))
        }
    } else if c == '"' {
        match string_scan(s, p + 1, Seq::empty()) {
            Ok((content, e)) => Ok((SpecToken::StringLiteral(content), e)),
            Err(k) => Err(k),
        }
    } else {
        let next = if p + 1 < s.len() { Some(s[p + 1]) } else { None };
        match punctuation(c, next) {
            Some((t, n)) => Ok((t, p + n)),
            None => Err(LexErrorKind::UnexpectedCharacter(c)),
        }
    }
}

/// The outcome of reading the next token from index `pos` at (`line`,
/// `col`): the token with its position, and the index, line and column after
/// it; or the error, at the position where the failing token starts.
pub open spec fn next_token_spec(s: Seq<char>, pos: int, line: int, col: int) -> Result<(SpecTokenWithSpan, int, int, int), (LexErrorKind, int, int)> {
    let p = trivia_end(s, pos, false);
    let (l, c) = advance(s, pos, p, line, col);
    if p >= s.len() {
        Ok((SpecTokenWithSpan { token: SpecToken::Eof, line: l, column: c }, p, l, c))
    } else {
        match lex_token(s, p) {
            Ok((t, e)) => {
                let (l2, c2) = advance(s, p, e, l, c);
                Ok((SpecTokenWithSpan { token: t, line: l, column: c }, e, l2, c2))
            },
            Err(k) => Err((k, l, c)),
        }
    }
}

} // verus!

verus! {

pub proof fn lemma_trivia_end_bounds(s: Seq<char>, i: int, b: bool)
    requires
        0 <= i <= s.len(),
    ensures
        i <= trivia_end(s, i, b) <= s.len(),
    decreases s.len() - i,
{
    if i < s.len() {
        if b {
            lemma_trivia_end_bounds(s, i + 1, s[i] != '\n');
        } else if is_blank(s[i]) {
            lemma_trivia_end_bounds(s, i + 1, false);
        } else if s[i] == '-' && i + 1 < s.len() && s[i + 1] == '-' {
            lemma_trivia_end_bounds(s, i + 2, true);
        }
    }
}

pub proof fn lemma_advance_bounds(s: Seq<char>, i: int, j: int, line: int, col: int)
    requires
        0 <= i <= j,
        1 <= line <= i + 1,
        1 <= col <= i + 1,
    ensures
        line <= advance(s, i, j, line, col).0 <= j + 1,
        1 <= advance(s, i, j, line, col).1 <= j + 1,
    decreases j - i,
{
    if i < j {
        if s[i] == '\n' {
            lemma_advance_bounds(s, i + 1, j, line + 1, 1);
        } else {
            lemma_advance_bounds(s, i + 1, j, line, col + 1);
        }
    }
}

pub proof fn lemma_ident_end_bounds(s: Seq<char>, i: int)
    requires
        0 <= i <= s.len(),
    ensures
        i <= ident_end(s, i) <= s.len(),
    decreases s.len() - i,
{
    if i < s.len() && is_ident_continue(s[i]) {
        lemma_ident_end_bounds(s, i + 1);
    }
}

pub proof fn lemma_digits_end_bounds(s: Seq<char>, i: int)
    requires
        0 <= i <= s.len(),
    ensures
        i <= digits_end(s, i) <= s.len(),
        forall|k: int| i <= k < digits_end(s, i) ==> is_digit(#[trigger] s[k]),
    decreases s.len() - i,
{
    if i < s.len() && is_digit(s[i]) {
        lemma_digits_end_bounds(s, i + 1);
    }
}

pub proof fn lemma_digits_value_monotone(s: Seq<char>, i: int, j: int, k: int)
    requires
        i <= j <= k,
        forall|m: int| i <= m < k ==> is_digit(#[trigger] s[m]),
    ensures
        0 <= digits_value(s, i, j) <= digits_value(s, i, k),
    decreases k - i,
{
    if j < k {
        lemma_digits_value_monotone(s, i, j, k - 1);
        assert(is_digit(s[k - 1]));
    } else if j > i {
        lemma_digits_value_monotone(s, i, j - 1, j - 1);
        assert(is_digit(s[j - 1]));
    }
}

pub proof fn lemma_string_scan_bounds(s: Seq<char>, i: int, acc: Seq<char>)
    requires
        0 <= i,
    ensures
        string_scan(s, i, acc) matches Ok((_, e)) ==> i < e <= s.len(),
    decreases s.len() - i,
{
    if 0 <= i < s.len() && s[i] != '"' {
        if s[i] == '\\' {
            if i + 1 < s.len() {
                if let Some(e) = escape_char(s[i + 1]) {
                    lemma_string_scan_bounds(s, i + 2, acc.push(e));
                }
            }
        } else {
            lemma_string_scan_bounds(s, i + 1, acc.push(s[i]));
        }
    }
}

pub proof fn lemma_lex_token_advances(s: Seq<char>, p: int)
    requires
        0 <= p < s.len(),
    ensures
        lex_token(s, p) matches Ok((_, e)) ==> p < e <= s.len(),
{
    let c = s[p];
    if is_ident_start(c) {
        lemma_ident_end_bounds(s, p + 1);
    } else if is_digit(c) {
        lemma_digits_end_bounds(s, p + 1);
        let e1 = digits_end(s, p + 1);
        if e1 + 1 < s.len() && s[e1] == '.' && is_digit(s[e1 + 1]) {
            lemma_digits_end_bounds(s, e1 + 2);
        }
    } else if c == '"' {
        lemma_string_scan_bounds(s, p + 1, Seq::empty());
    }
}

/// The lexer: the input characters and the position, line and column reached.
pub struct Lexer {
    input: Vec<char>,
    pos: usize,
    line: usize,
    column: usize,
}

fn is_blank_exec(c: char) -> (b: bool)
    ensures
        b == is_blank(c),
{
    c == ' ' || c == '\t' || c == '\r' || c == '\n'
}

fn is_digit_exec(c: char) -> (b: bool)
    ensures
        b == is_digit(c),
{
    '0' <= c && c <= '9'
}

fn is_ident_start_exec(c: char) -> (b: bool)
    ensures
        b == is_ident_start(c),
{
    ('a' <= c && c <= 'z') || ('A' <= c && c <= 'Z') || c == '_'
}

fn is_ident_continue_exec(c: char) -> (b: bool)
    ensures
        b == is_ident_continue(c),
{
    is_ident_start_exec(c) || is_digit_exec(c)
}

fn escape_char_exec(c: char) -> (r: Option<char>)
    ensures
        r == escape_char(c),
{
    if c == 'n' {
        Some('\n')
    } else if c == 't' {
        Some('\t')
    } else if c == 'r' {
        Some('\r')
    } else if c == '0' {
        Some('\0')
    } else if c == '\\' {
        Some('\\')
    } else if c == '"' {
        Some('"')
    } else {
        None
    }
}

fn keyword_or_identifier_exec(w: Vec<char>) -> (t: Token)
    ensures
        t@ == keyword_or_identifier(w@),
{
    if same_chars(&w, &['l', 'e', 't']) {
        assert(['l', 'e', 't']@ == seq!['l', 'e', 't']);
        Token::Let
    } else if same_chars(&w, &['s', 't', 'r', 'u', 'c', 't']) {
        assert(['s', 't', 'r', 'u', 'c', 't']@ == seq!['s', 't', 'r', 'u', 'c', 't']);
        Token::Struct
    } else if same_chars(&w, &['i', 'f']) {
        assert(['i', 'f']@ == seq!['i', 'f']);
        Token::If
    } else if same_chars(&w, &['e', 'l', 's', 'e']) {
        assert(['e', 'l', 's', 'e']@ == seq!['e', 'l', 's', 'e']);
        Token::Else
    } else if same_chars(&w, &['t', 'r', 'u', 'e']) {
        assert(['t', 'r', 'u', 'e']@ == seq!['t', 'r', 'u', 'e']);
        Token::True
    } else if same_chars(&w, &['f', 'a', 'l', 's', 'e']) {
        assert(['f', 'a', 'l', 's', 'e']@ == seq!['f', 'a', 'l', 's', 'e']);
        Token::False
    } else {
        proof {
            assert(['l', 'e', 't']@ == seq!['l', 'e', 't']);
            assert(['s', 't', 'r', 'u', 'c', 't']@ == seq!['s', 't', 'r', 'u', 'c', 't']);
            assert(['i', 'f']@ == seq!['i', 'f']);
            assert(['e', 'l', 's', 'e']@ == seq!['e', 'l', 's', 'e']);
            assert(['t', 'r', 'u', 'e']@ == seq!['t', 'r', 'u', 'e']);
            assert(['f', 'a', 'l', 's', 'e']@ == seq!['f', 'a', 'l', 's', 'e']);
        }
        Token::Identifier(string_from_chars(&w))
    }
}

fn punctuation_exec(c: char, next: Option<char>) -> (r: Option<(Token, usize)>)
    ensures
        match punctuation(c, next) {
            Some((t, n)) => r matches Some((t2, n2)) && t2@ == t && n2 as int == n,
            None => r is None,
        },
{
    if c == '(' {
        Some((Token::LeftParen, 1))
    } else if c == ')' {
        Some((Token::RightParen, 1))
    } else if c == '{' {
        Some((Token::LeftBrace, 1))
    } else if c == '}' {
        Some((Token::RightBrace, 1))
    } else if c == '[' {
        Some((Token::LeftBracket, 1))
    } else if c == ']' {
        Some((Token::RightBracket, 1))
    } else if c == ',' {
        Some((Token::Comma, 1))
    } else if c == ':' {
        Some((Token::Colon, 1))
    } else if c == ';' {
        Some((Token::Semicolon, 1))
    } else if c == '+' {
        Some((Token::Plus, 1))
    } else if c == '*' {
        Some((Token::Star, 1))
    } else if c == '/' {
        Some((Token::Slash, 1))
    } else if c == '%' {
        Some((Token::Percent, 1))
    } else if c == '^' {
        Some((Token::Caret, 1))
    } else if c == '@' {
        Some((Token::At, 1))
    } else if c == '.' {
        if next == Some('.') { Some((Token::DotDot, 2)) } else { Some((Token::Dot, 1)) }
    } else if c == '-' {
        if next == Some('>') { Some((Token::Arrow, 2)) } else { Some((Token::Minus, 1)) }
    } else if c == '=' {
        if next == Some('>') {
            Some((Token::FatArrow, 2))
        } else if next == Some('=') {
            Some((Token::Equal, 2))
        } else {
            Some((Token::Assign, 1))
        }
    } else if c == '!' {
        if next == Some('=') { Some((Token::NotEqual, 2)) } else { Some((Token::Bang, 1)) }
    } else if c == '<' {
        if next == Some('=') { Some((Token::LessEqual, 2)) } else { Some((Token::Less, 1)) }
    } else if c == '>' {
        if next == Some('=') { Some((Token::GreaterEqual, 2)) } else { Some((Token::Greater, 1)) }
    } else if c == '&' {
        if next == Some('&') { Some((Token::AndAnd, 2)) } else { None }
    } else if c == '|' {
        if next == Some('|') { Some((Token::OrOr, 2)) } else { Some((Token::Pipe, 1)) }
    } else {
        None
    }
}

} // verus!

verus! {

impl Lexer {
    #[verifier::type_invariant]
    spec fn inv(self) -> bool {
        &&& self.pos <= self.input.len()
        &&& self.input.len() < usize::MAX
        &&& 1 <= self.line <= self.pos + 1
        &&& 1 <= self.column <= self.pos + 1
    }

    /// The characters being lexed.
    pub closed spec fn spec_input(&self) -> Seq<char> {
        self.input@
    }

    /// The index of the next character to read.
    pub closed spec fn spec_pos(&self) -> int {
        self.pos as int
    }

    /// The line of the next character to read.
    pub closed spec fn spec_line(&self) -> int {
        self.line as int
    }

    /// The column of the next character to read.
    pub closed spec fn spec_column(&self) -> int {
        self.column as int
    }

    /// A lexer at the start (line 1, column 1) of `input`.
    pub fn new(input: &str) -> (r: Lexer)
        requires
            input@.len() < usize::MAX,
        ensures
            r.spec_input() == input@,
            r.spec_pos() == 0,
            r.spec_line() == 1,
            r.spec_column() == 1,
    {
        let chars = crate::text::chars_of(input);
        Lexer { input: chars, pos: 0, line: 1, column: 1 }
    }

    fn trivia_end_exec(s: &Vec<char>, i0: usize) -> (e: usize)
        requires
            i0 <= s.len(),
        ensures
            e as int == trivia_end(s@, i0 as int, false),
    {
        let mut i = i0;
        let mut in_comment = false;
        while i < s.len()
            invariant
                i0 <= i <= s.len(),
                trivia_end(s@, i0 as int, false) == trivia_end(s@, i as int, in_comment),
            decreases s.len() - i,
        {
            let c = s[i];
            if in_comment {
                in_comment = c != '\n';
                i = i + 1;
            } else if is_blank_exec(c) {
                i = i + 1;
            } else if c == '-' && i + 1 < s.len() && s[i + 1] == '-' {
                in_comment = true;
                i = i + 2;
            } else {
                return i;
            }
        }
        i
    }

    /// Moves to index `end`, updating line and column over the characters
    /// passed.
    fn advance_to(&mut self, end: usize)
        requires
            old(self).pos <= end <= old(self).input.len(),
        ensures
            final(self).input == old(self).input,
            final(self).pos == end,
            (final(self).line as int, final(self).column as int) == advance(
                old(self).input@,
                old(self).pos as int,
                end as int,
                old(self).line as int,
                old(self).column as int,
            ),
    {
        proof {
            use_type_invariant(&*self);
            lemma_advance_bounds(self.input@, self.pos as int, end as int, self.line as int, self.column as int);
        }
        let ghost target = advance(self.input@, self.pos as int, end as int, self.line as int, self.column as int);
        let mut i = self.pos;
        let mut line = self.line;
        let mut col = self.column;
        while i < end
            invariant
                self.pos <= i <= end <= self.input.len() < usize::MAX,
                1 <= line <= i + 1,
                1 <= col <= i + 1,
                target == advance(self.input@, i as int, end as int, line as int, col as int),
            decreases end - i,
        {
            if self.input[i] == '\n' {
                line = line + 1;
                col = 1;
            } else {
                col = col + 1;
            }
            i = i + 1;
        }
        self.pos = end;
        self.line = line;
        self.column = col;
    }

    fn ident_end_exec(s: &Vec<char>, i0: usize) -> (e: usize)
        requires
            i0 <= s.len(),
        ensures
            e as int == ident_end(s@, i0 as int),
    {
        let mut i = i0;
        while i < s.len() && is_ident_continue_exec(s[i])
            invariant
                i0 <= i <= s.len(),
                ident_end(s@, i0 as int) == ident_end(s@, i as int),
            decreases s.len() - i,
        {
            i = i + 1;
        }
        i
    }

    fn digits_end_exec(s: &Vec<char>, i0: usize) -> (e: usize)
        requires
            i0 <= s.len(),
        ensures
            e as int == digits_end(s@, i0 as int),
    {
        let mut i = i0;
        while i < s.len() && is_digit_exec(s[i])
            invariant
                i0 <= i <= s.len(),
                digits_end(s@, i0 as int) == digits_end(s@, i as int),
            decreases s.len() - i,
        {
            i = i + 1;
        }
        i
    }

    /// The value of the digits `s[i..j]`, or `None` when it exceeds
    /// `i64::MAX`.
    fn digits_value_exec(s: &Vec<char>, i: usize, j: usize) -> (r: Option<i64>)
        requires
            i <= j <= s.len(),
            forall|k: int| i <= k < j ==> is_digit(#[trigger] s@[k]),
        ensures
            match r {
                Some(v) => v as int == digits_value(s@, i as int, j as int),
                None => digits_value(s@, i as int, j as int) > i64::MAX,
            },
    {
        let mut v: i64 = 0;
        let mut k = i;
        while k < j
            invariant
                i <= k <= j <= s.len(),
                forall|m: int| i <= m < j ==> is_digit(#[trigger] s@[m]),
                v as int == digits_value(s@, i as int, k as int),
                0 <= v,
            decreases j - k,
        {
            let d = (s[k] as u32 - '0' as u32) as i64;
            assert(is_digit(s@[k as int]));
            if v > (i64::MAX - d) / 10 {
                proof {
                    assert(digits_value(s@, i as int, k + 1) == v * 10 + d);
                    assert(v * 10 + d > i64::MAX) by (nonlinear_arith)
                        requires v > (i64::MAX - d) / 10, 0 <= d <= 9;
                    lemma_digits_value_monotone(s@, i as int, k + 1, j as int);
                }
                return None;
            }
            assert(v * 10 + d <= i64::MAX) by (nonlinear_arith)
                requires v <= (i64::MAX - d) / 10, 0 <= d <= 9, 0 <= v;
            v = v * 10 + d;
            k = k + 1;
        }
        Some(v)
    }

    fn string_scan_exec(s: &Vec<char>, i0: usize) -> (r: Result<(Vec<char>, usize), LexErrorKind>)
        requires
            i0 <= s.len(),
        ensures
            match string_scan(s@, i0 as int, Seq::empty()) {
                Ok((content, e)) => r matches Ok((c2, e2)) && c2@ == content && e2 as int == e,
                Err(k) => r == Err::<(Vec<char>, usize), LexErrorKind>(k),
            },
    {
        let mut acc: Vec<char> = Vec::new();
        let mut i = i0;
        loop
            invariant
                i0 <= i <= s.len(),
                string_scan(s@, i0 as int, Seq::empty()) == string_scan(s@, i as int, acc@),
            decreases s.len() - i,
        {
            if i >= s.len() {
                return Err(LexErrorKind::UnterminatedString);
            }
            let c = s[i];
            if c == '"' {
                return Ok((acc, i + 1));
            } else if c == '\\' {
                if i + 1 >= s.len() {
                    return Err(LexErrorKind::UnterminatedString);
                }
                match escape_char_exec(s[i + 1]) {
                    Some(e) => {
                        acc.push(e);
                        i = i + 2;
                    },
                    None => {
                        return Err(LexErrorKind::InvalidEscape(s[i + 1]));
                    },
                }
            } else {
                acc.push(c);
                i = i + 1;
            }
        }
    }

    fn slice_chars(s: &Vec<char>, i: usize, j: usize) -> (r: Vec<char>)
        requires
            i <= j <= s.len(),
        ensures
            r@ == s@.subrange(i as int, j as int),
    {
        let mut r: Vec<char> = Vec::new();
        let mut k = i;
        while k < j
            invariant
                i <= k <= j <= s.len(),
                r@ == s@.subrange(i as int, k as int),
            decreases j - k,
        {
            r.push(s[k]);
            k = k + 1;
        }
        r
    }

    fn lex_token_exec(s: &Vec<char>, p: usize) -> (r: Result<(Token, usize), LexErrorKind>)
        requires
            p < s.len(),
        ensures
            match lex_token(s@, p as int) {
                Ok((t, e)) => r matches Ok((t2, e2)) && t2@ == t && e2 as int == e,
                Err(k) => r == Err::<(Token, usize), LexErrorKind>(k),
            },
    {
        let c = s[p];
        if is_ident_start_exec(c) {
            let e = Self::ident_end_exec(s, p + 1);
            proof {
                lemma_ident_end_bounds(s@, p + 1);
            }
            let w = Self::slice_chars(s, p, e);
            Ok((keyword_or_identifier_exec(w), e))
        } else if is_digit_exec(c) {
            let e1 = Self::digits_end_exec(s, p + 1);
            proof {
                lemma_digits_end_bounds(s@, p + 1);
            }
            if e1 < s.len() && e1 + 1 < s.len() && s[e1] == '.' && is_digit_exec(s[e1 + 1]) {
                let e2 = Self::digits_end_exec(s, e1 + 2);
                proof {
                    lemma_digits_end_bounds(s@, e1 + 2);
                }
                let w = Self::slice_chars(s, p, e2);
                Ok((Token::FloatLiteral(string_from_chars(&w)), e2))
            } else {
                match Self::digits_value_exec(s, p, e1) {
                    Some(v) => Ok((Token::IntLiteral(v), e1)),
                    None => Err(LexErrorKind::IntegerTooLarge),
                }
            }
        } else if c == '"' {
            match Self::string_scan_exec(s, p + 1) {
                Ok((content, e)) => Ok((Token::StringLiteral(string_from_chars(&content)), e)),
                Err(k) => Err(k),
            }
        } else {
            let next = if p + 1 < s.len() { Some(s[p + 1]) } else { None };
            match punctuation_exec(c, next) {
                Some((t, n)) => Ok((t, p + n)),
                None => Err(LexErrorKind::UnexpectedCharacter(c)),
            }
        }
    }

    /// Reads the next token. At the end of the input it yields `Eof`, as
    /// often as it is asked. On an error the lexer stays at the start of the
    /// failing token.
    pub fn next_token(&mut self) -> (r: Result<TokenWithSpan, LexError>)
        ensures
            final(self).spec_input() == old(self).spec_input(),
            match next_token_spec(
                old(self).spec_input(),
                old(self).spec_pos(),
                old(self).spec_line(),
                old(self).spec_column(),
            ) {
                Ok((t, p, l, c)) => {
                    &&& r matches Ok(t2) && t2@ == t
                    &&& final(self).spec_pos() == p
                    &&& final(self).spec_line() == l
                    &&& final(self).spec_column() == c
                },
                Err((k, l, c)) => {
                    &&& r == Err::<TokenWithSpan, LexError>(
                        LexError { kind: k, line: l as usize, column: c as usize },
                    )
                    &&& final(self).spec_line() == l
                    &&& final(self).spec_column() == c
                },
            },
    {
        proof {
            use_type_invariant(&*self);
        }
        let p = Self::trivia_end_exec(&self.input, self.pos);
        proof {
            lemma_trivia_end_bounds(self.input@, self.pos as int, false);
        }
        self.advance_to(p);
        let line = self.line;
        let column = self.column;
        if p >= self.input.len() {
            return Ok(TokenWithSpan { token: Token::Eof, line, column });
        }
        match Self::lex_token_exec(&self.input, p) {
            Ok((t, e)) => {
                proof {
                    lemma_lex_token_advances(self.input@, p as int);
                }
                self.advance_to(e);
                Ok(TokenWithSpan { token: t, line, column })
            },
            Err(k) => Err(LexError { kind: k, line, column }),
        }
    }
}

} // verus!

verus! {

pub proof fn lemma_next_token_advances(s: Seq<char>, pos: int, line: int, col: int)
    requires
        0 <= pos <= s.len(),
    ensures
        next_token_spec(s, pos, line, col) matches Ok((t, p, l, c)) ==> {
            &&& pos <= p <= s.len()
            &&& (t.token !is Eof ==> pos < p)
        },
{
    lemma_trivia_end_bounds(s, pos, false);
    let p = trivia_end(s, pos, false);
    if p < s.len() {
        lemma_lex_token_advances(s, p);
    }
}

/// All tokens from index `pos` on, the last being `Eof`; or the first error.
pub open spec fn tokenize_spec(s: Seq<char>, pos: int, line: int, col: int) -> Result<Seq<SpecTokenWithSpan>, (LexErrorKind, int, int)>
    decreases s.len() - pos,
{
    if pos < 0 || pos > s.len() {
        Ok(Seq::empty())
    } else {
        match next_token_spec(s, pos, line, col) {
            Ok((t, p, l, c)) => {
                if t.token is Eof {
                    Ok(seq![t])
                } else {
                    proof {
                        lemma_next_token_advances(s, pos, line, col);
                    }
                    match tokenize_spec(s, p, l, c) {
                        Ok(rest) => Ok(seq![t] + rest),
                        Err(e) => Err(e),
                    }
                }
            },
            Err(e) => Err(e),
        }
    }
}

/// The tokens of a whole text, starting at line 1, column 1.
pub open spec fn tokens_of(s: Seq<char>) -> Result<Seq<SpecTokenWithSpan>, (LexErrorKind, int, int)> {
    tokenize_spec(s, 0, 1, 1)
}

/// The mathematical view of a vector of tokens.
pub open spec fn view_tokens(v: Seq<TokenWithSpan>) -> Seq<SpecTokenWithSpan> {
    v.map_values(|t: TokenWithSpan| t@)
}

impl Lexer {
    /// Reads all remaining tokens, the last one being `Eof`.
    pub fn tokenize(&mut self) -> (r: Result<Vec<TokenWithSpan>, LexError>)
        ensures
            match tokenize_spec(
                old(self).spec_input(),
                old(self).spec_pos(),
                old(self).spec_line(),
                old(self).spec_column(),
            ) {
                Ok(ts) => r matches Ok(v) && view_tokens(v@) == ts,
                Err((k, l, c)) => r == Err::<Vec<TokenWithSpan>, LexError>(
                    LexError { kind: k, line: l as usize, column: c as usize },
                ),
            },
            r matches Ok(v) ==> v@.len() > 0 && v@[v@.len() - 1].token@ is Eof,
    {
        let ghost s = self.spec_input();
        let ghost target = tokenize_spec(s, self.spec_pos(), self.spec_line(), self.spec_column());
        let mut out: Vec<TokenWithSpan> = Vec::new();
        proof {
            if let Ok(rest) = target {
                assert(view_tokens(out@) + rest =~= rest);
            }
        }
        loop
            invariant
                self.spec_input() == s,
                target == tokenize_spec(old(self).spec_input(), old(self).spec_pos(), old(self).spec_line(), old(self).spec_column()),
                target == match tokenize_spec(s, self.spec_pos(), self.spec_line(), self.spec_column()) {
                    Ok(rest) => Ok(view_tokens(out@) + rest),
                    Err(e) => Err(e),
                },
            decreases s.len() - self.spec_pos(),
        {
            proof {
                use_type_invariant(&*self);
                lemma_next_token_advances(s, self.spec_pos(), self.spec_line(), self.spec_column());
            }
            let ghost before = (self.spec_pos(), self.spec_line(), self.spec_column());
            let t = self.next_token();
            proof {
                assert(tokenize_spec(s, before.0, before.1, before.2) == match next_token_spec(s, before.0, before.1, before.2) {
                    Ok((t, p, l, c)) => {
                        if t.token is Eof {
                            Ok(seq![t])
                        } else {
                            match tokenize_spec(s, p, l, c) {
                                Ok(rest) => Ok(seq![t] + rest),
                                Err(e) => Err(e),
                            }
                        }
                    },
                    Err(e) => Err(e),
                });
            }
            match t {
                Ok(tok) => {
                    let is_eof = match tok.token {
                        Token::Eof => true,
                        _ => false,
                    };
                    let ghost tv = tok@;
                    let ghost prev = out@;
                    out.push(tok);
                    assert(view_tokens(out@) =~= view_tokens(prev).push(tv));
                    proof {
                        if let Ok(rest) = tokenize_spec(s, self.spec_pos(), self.spec_line(), self.spec_column()) {
                            assert(view_tokens(prev) + (seq![tv] + rest) =~= view_tokens(out@) + rest);
                        }
                        if is_eof {
                            assert(view_tokens(prev) + seq![tv] =~= view_tokens(out@));
                        }
                    }
                    if is_eof {
                        assert(out@[out@.len() - 1]@ == tv);
                        assert(target == Ok::<Seq<SpecTokenWithSpan>, (LexErrorKind, int, int)>(view_tokens(out@)));
                        return Ok(out);
                    }
                },
                Err(e) => {
                    assert(target == Err::<Seq<SpecTokenWithSpan>, (LexErrorKind, int, int)>((e.kind, e.line as int, e.column as int)));
                    return Err(e);
                },
            }
        }
    }
}

} // verus!
