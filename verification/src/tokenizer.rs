//! The lexical analyzer: a verified state machine that turns a byte sequence
//! into tokens with peek support. Every public operation is specified against
//! the mathematical lexer below (`next_token_at` and friends), which fixes the
//! whole lexical grammar: whitespace and nesting comments, identifiers and
//! type names, keywords, numeric and string literals, operators, punctuation.

use vstd::prelude::*;
use crate::ast::Location;
use crate::text::chars_of_bytes;

verus! {

// ---------------------------------------------------------------------------
// Byte classes of the lexical grammar.
// ---------------------------------------------------------------------------

/// ASCII whitespace: space, tab, newline, form feed, carriage return.
pub open spec fn is_ws(b: u8) -> bool {
    b == 32 || b == 9 || b == 10 || b == 12 || b == 13
}

pub open spec fn is_digit(b: u8) -> bool {
    48 <= b && b <= 57
}

pub open spec fn is_upper(b: u8) -> bool {
    65 <= b && b <= 90
}

pub open spec fn is_lower(b: u8) -> bool {
    97 <= b && b <= 122
}

pub open spec fn is_alnum(b: u8) -> bool {
    is_digit(b) || is_upper(b) || is_lower(b)
}

/// Bytes that may continue an identifier: alphanumerics and `_`.
pub open spec fn is_id_byte(b: u8) -> bool {
    is_alnum(b) || b == 95
}

/// The operator symbols `+ - * / < > =`.
pub open spec fn is_op_byte(b: u8) -> bool {
    b == 43 || b == 45 || b == 42 || b == 47 || b == 60 || b == 62 || b == 61
}

/// The delimiters `, : ; ( ) [ ] { }`.
pub open spec fn is_delim_byte(b: u8) -> bool {
    b == 44 || b == 58 || b == 59 || b == 40 || b == 41 || b == 91 || b == 93 || b == 123
        || b == 125
}

// ---------------------------------------------------------------------------
// Token kinds.
// ---------------------------------------------------------------------------

/// The kind of a token, with any literal payload carried as source text.
#[derive(Debug, PartialEq, Eq)]
pub enum TokenKind {
    Invalid(String),
    Id(String),
    Type(String),
    Int(String),
    Dec(String),
    Str(String),
    Bool(bool),
    Op(String),
    Arrow,
    Equal,
    Dot,
    Comma,
    Colon,
    Semicolon,
    OpenParen,
    CloseParen,
    OpenSquare,
    CloseSquare,
    OpenBracket,
    CloseBracket,
    Pub,
    Alias,
    Newtype,
    Struct,
    Union,
    Enum,
    Trait,
    Impl,
    Of,
    For,
    Var,
    Let,
    Def,
    Virt,
    Pure,
    Macro,
    Extern,
    Return,
    Break,
    Continue,
    Do,
    EOF,
}

/// The mathematical form of a token kind: payloads are character sequences.
pub enum SpecTokenKind {
    Invalid(Seq<char>),
    Id(Seq<char>),
    Type(Seq<char>),
    Int(Seq<char>),
    Dec(Seq<char>),
    Str(Seq<char>),
    Bool(bool),
    Op(Seq<char>),
    Arrow,
    Equal,
    Dot,
    Comma,
    Colon,
    Semicolon,
    OpenParen,
    CloseParen,
    OpenSquare,
    CloseSquare,
    OpenBracket,
    CloseBracket,
    Pub,
    Alias,
    Newtype,
    Struct,
    Union,
    Enum,
    Trait,
    Impl,
    Of,
    For,
    Var,
    Let,
    Def,
    Virt,
    Pure,
    Macro,
    Extern,
    Return,
    Break,
    Continue,
    Do,
    EOF,
}

impl View for TokenKind {
    type V = SpecTokenKind;

    open spec fn view(&self) -> SpecTokenKind {
        match self {
            TokenKind::Invalid(s) => SpecTokenKind::Invalid(s@),
            TokenKind::Id(s) => SpecTokenKind::Id(s@),
            TokenKind::Type(s) => SpecTokenKind::Type(s@),
            TokenKind::Int(s) => SpecTokenKind::Int(s@),
            TokenKind::Dec(s) => SpecTokenKind::Dec(s@),
            TokenKind::Str(s) => SpecTokenKind::Str(s@),
            TokenKind::Bool(b) => SpecTokenKind::Bool(*b),
            TokenKind::Op(s) => SpecTokenKind::Op(s@),
            TokenKind::Arrow => SpecTokenKind::Arrow,
            TokenKind::Equal => SpecTokenKind::Equal,
            TokenKind::Dot => SpecTokenKind::Dot,
            TokenKind::Comma => SpecTokenKind::Comma,
            TokenKind::Colon => SpecTokenKind::Colon,
            TokenKind::Semicolon => SpecTokenKind::Semicolon,
            TokenKind::OpenParen => SpecTokenKind::OpenParen,
            TokenKind::CloseParen => SpecTokenKind::CloseParen,
            TokenKind::OpenSquare => SpecTokenKind::OpenSquare,
            TokenKind::CloseSquare => SpecTokenKind::CloseSquare,
            TokenKind::OpenBracket => SpecTokenKind::OpenBracket,
            TokenKind::CloseBracket => SpecTokenKind::CloseBracket,
            TokenKind::Pub => SpecTokenKind::Pub,
            TokenKind::Alias => SpecTokenKind::Alias,
            TokenKind::Newtype => SpecTokenKind::Newtype,
            TokenKind::Struct => SpecTokenKind::Struct,
            TokenKind::Union => SpecTokenKind::Union,
            TokenKind::Enum => SpecTokenKind::Enum,
            TokenKind::Trait => SpecTokenKind::Trait,
            TokenKind::Impl => SpecTokenKind::Impl,
            TokenKind::Of => SpecTokenKind::Of,
            TokenKind::For => SpecTokenKind::For,
            TokenKind::Var => SpecTokenKind::Var,
            TokenKind::Let => SpecTokenKind::Let,
            TokenKind::Def => SpecTokenKind::Def,
            TokenKind::Virt => SpecTokenKind::Virt,
            TokenKind::Pure => SpecTokenKind::Pure,
            TokenKind::Macro => SpecTokenKind::Macro,
            TokenKind::Extern => SpecTokenKind::Extern,
            TokenKind::Return => SpecTokenKind::Return,
            TokenKind::Break => SpecTokenKind::Break,
            TokenKind::Continue => SpecTokenKind::Continue,
            TokenKind::Do => SpecTokenKind::Do,
            TokenKind::EOF => SpecTokenKind::EOF,
        }
    }
}

/// A token together with the location of its first byte.
#[derive(Debug)]
pub struct Token {
    pub token_kind: TokenKind,
    pub location: Location,
}

/// The mathematical form of a token.
pub struct SpecToken {
    pub kind: SpecTokenKind,
    pub location: Location,
}

impl View for Token {
    type V = SpecToken;

    open spec fn view(&self) -> SpecToken {
        SpecToken { kind: self.token_kind@, location: self.location }
    }
}

impl Clone for TokenKind {
    /// A clone denotes the same token kind.
    fn clone(&self) -> (r: TokenKind)
        ensures
            r@ == self@,
    {
        match self {
            TokenKind::Invalid(s) => TokenKind::Invalid(s.clone()),
            TokenKind::Id(s) => TokenKind::Id(s.clone()),
            TokenKind::Type(s) => TokenKind::Type(s.clone()),
            TokenKind::Int(s) => TokenKind::Int(s.clone()),
            TokenKind::Dec(s) => TokenKind::Dec(s.clone()),
            TokenKind::Str(s) => TokenKind::Str(s.clone()),
            TokenKind::Bool(b) => TokenKind::Bool(*b),
            TokenKind::Op(s) => TokenKind::Op(s.clone()),
            TokenKind::Arrow => TokenKind::Arrow,
            TokenKind::Equal => TokenKind::Equal,
            TokenKind::Dot => TokenKind::Dot,
            TokenKind::Comma => TokenKind::Comma,
            TokenKind::Colon => TokenKind::Colon,
            TokenKind::Semicolon => TokenKind::Semicolon,
            TokenKind::OpenParen => TokenKind::OpenParen,
            TokenKind::CloseParen => TokenKind::CloseParen,
            TokenKind::OpenSquare => TokenKind::OpenSquare,
            TokenKind::CloseSquare => TokenKind::CloseSquare,
            TokenKind::OpenBracket => TokenKind::OpenBracket,
            TokenKind::CloseBracket => TokenKind::CloseBracket,
            TokenKind::Pub => TokenKind::Pub,
            TokenKind::Alias => TokenKind::Alias,
            TokenKind::Newtype => TokenKind::Newtype,
            TokenKind::Struct => TokenKind::Struct,
            TokenKind::Union => TokenKind::Union,
            TokenKind::Enum => TokenKind::Enum,
            TokenKind::Trait => TokenKind::Trait,
            TokenKind::Impl => TokenKind::Impl,
            TokenKind::Of => TokenKind::Of,
            TokenKind::For => TokenKind::For,
            TokenKind::Var => TokenKind::Var,
            TokenKind::Let => TokenKind::Let,
            TokenKind::Def => TokenKind::Def,
            TokenKind::Virt => TokenKind::Virt,
            TokenKind::Pure => TokenKind::Pure,
            TokenKind::Macro => TokenKind::Macro,
            TokenKind::Extern => TokenKind::Extern,
            TokenKind::Return => TokenKind::Return,
            TokenKind::Break => TokenKind::Break,
            TokenKind::Continue => TokenKind::Continue,
            TokenKind::Do => TokenKind::Do,
            TokenKind::EOF => TokenKind::EOF,
        }
    }
}

impl Clone for Token {
    /// A clone denotes the same token.
    fn clone(&self) -> (r: Token)
        ensures
            r@ == self@,
    {
        Token { token_kind: self.token_kind.clone(), location: self.location }
    }
}

// ---------------------------------------------------------------------------
// Locations: line and column of a byte position, saturating at u16::MAX.
// ---------------------------------------------------------------------------

pub open spec fn sat_inc(x: u16) -> u16 {
    if x == 0xffff {
        x
    } else {
        (x + 1) as u16
    }
}

/// The location of byte position `i`: lines are 1-origin and advance at each
/// newline, which resets the column to 0; every other byte advances the
/// column, which starts at 1.
pub open spec fn loc_at(input: Seq<u8>, i: int) -> Location
    decreases i,
{
    if i <= 0 {
        Location { line: 1, column: 1 }
    } else {
        let p = loc_at(input, i - 1);
        if i - 1 < input.len() && input[i - 1] == 10 {
            Location { line: sat_inc(p.line), column: 0 }
        } else {
            Location { line: p.line, column: sat_inc(p.column) }
        }
    }
}

// ---------------------------------------------------------------------------
// Trivia: whitespace, line comments, and nesting block comments.
// A `//` inside a block comment suspends it until the end of the line; a
// newline returns to the block at the same depth.
// ---------------------------------------------------------------------------

/// The first position at or after `i` where a token can start, or the length
/// of the input if only trivia remains.
pub open spec fn skip_trivia(input: Seq<u8>, i: int) -> int
    decreases input.len() - i, 0int,
{
    if i < 0 || i >= input.len() {
        input.len() as int
    } else if is_ws(input[i]) {
        skip_trivia(input, i + 1)
    } else if input[i] == 47 && i + 1 < input.len() && input[i + 1] == 47 {
        skip_line_comment(input, i + 2, 0)
    } else if input[i] == 47 && i + 1 < input.len() && input[i + 1] == 42 {
        skip_block_comment(input, i + 2, 1)
    } else {
        i
    }
}

/// Skip a line comment; at depth 0 it ends the comment, at a positive depth it
/// resumes the enclosing block comment.
pub open spec fn skip_line_comment(input: Seq<u8>, i: int, depth: nat) -> int
    decreases input.len() - i, 1int,
{
    if i < 0 || i >= input.len() {
        input.len() as int
    } else if input[i] == 10 {
        if depth == 0 {
            skip_trivia(input, i + 1)
        } else {
            skip_block_comment(input, i + 1, depth)
        }
    } else {
        skip_line_comment(input, i + 1, depth)
    }
}

/// Skip a block comment open at nesting `depth >= 1`.
pub open spec fn skip_block_comment(input: Seq<u8>, i: int, depth: nat) -> int
    decreases input.len() - i, 1int,
{
    if i < 0 || i >= input.len() {
        input.len() as int
    } else if input[i] == 42 && i + 1 < input.len() && input[i + 1] == 47 {
        if depth <= 1 {
            skip_trivia(input, i + 2)
        } else {
            skip_block_comment(input, i + 2, (depth - 1) as nat)
        }
    } else if input[i] == 47 && i + 1 < input.len() && input[i + 1] == 42 {
        skip_block_comment(input, i + 2, depth + 1)
    } else if input[i] == 47 && i + 1 < input.len() && input[i + 1] == 47 {
        skip_line_comment(input, i + 2, depth)
    } else {
        skip_block_comment(input, i + 1, depth)
    }
}

/// A position where `skip_trivia` stops is neither whitespace nor the start
/// of a comment.
pub open spec fn token_start_ok(input: Seq<u8>, j: int) -> bool {
    !is_ws(input[j]) && !(input[j] == 47 && j + 1 < input.len() && (input[j + 1] == 47 || input[j
        + 1] == 42))
}

pub proof fn lemma_skip_trivia_bounds(input: Seq<u8>, i: int)
    requires
        0 <= i <= input.len(),
    ensures
        i <= skip_trivia(input, i) <= input.len(),
        skip_trivia(input, i) < input.len() ==> token_start_ok(input, skip_trivia(input, i)),
    decreases input.len() - i, 0int,
{
    if i < input.len() {
        if is_ws(input[i]) {
            lemma_skip_trivia_bounds(input, i + 1);
        } else if input[i] == 47 && i + 1 < input.len() && (input[i + 1] == 47 || input[i + 1]
            == 42) {
            lemma_skip_comment_bounds(input, i + 2, if input[i + 1] == 47 { 0nat } else { 1nat },
                input[i + 1] == 47);
        }
    }
}

pub proof fn lemma_skip_comment_bounds(input: Seq<u8>, i: int, depth: nat, line: bool)
    requires
        0 <= i <= input.len(),
    ensures
        line ==> i <= skip_line_comment(input, i, depth) <= input.len(),
        !line ==> i <= skip_block_comment(input, i, depth) <= input.len(),
        line && skip_line_comment(input, i, depth) < input.len() ==> token_start_ok(input,
            skip_line_comment(input, i, depth)),
        !line && skip_block_comment(input, i, depth) < input.len() ==> token_start_ok(input,
            skip_block_comment(input, i, depth)),
    decreases input.len() - i, 1int,
{
    if i < input.len() {
        if line {
            if input[i] == 10 {
                if depth == 0 {
                    lemma_skip_trivia_bounds(input, i + 1);
                } else {
                    lemma_skip_comment_bounds(input, i + 1, depth, false);
                }
            } else {
                lemma_skip_comment_bounds(input, i + 1, depth, true);
            }
        } else {
            if input[i] == 42 && i + 1 < input.len() && input[i + 1] == 47 {
                if depth <= 1 {
                    lemma_skip_trivia_bounds(input, i + 2);
                } else {
                    lemma_skip_comment_bounds(input, i + 2, (depth - 1) as nat, false);
                }
            } else if input[i] == 47 && i + 1 < input.len() && input[i + 1] == 42 {
                lemma_skip_comment_bounds(input, i + 2, depth + 1, false);
            } else if input[i] == 47 && i + 1 < input.len() && input[i + 1] == 47 {
                lemma_skip_comment_bounds(input, i + 2, depth, true);
            } else {
                lemma_skip_comment_bounds(input, i + 1, depth, false);
            }
        }
    }
}

// ---------------------------------------------------------------------------
// Scanners.
// ---------------------------------------------------------------------------

/// The first position at or after `i` whose byte fails `pred`, or the length.
pub open spec fn scan_while(input: Seq<u8>, i: int, pred: spec_fn(u8) -> bool) -> int
    decreases input.len() - i,
{
    if i < 0 || i >= input.len() {
        input.len() as int
    } else if pred(input[i]) {
        scan_while(input, i + 1, pred)
    } else {
        i
    }
}

pub proof fn lemma_scan_while(input: Seq<u8>, i: int, pred: spec_fn(u8) -> bool)
    requires
        0 <= i <= input.len(),
    ensures
        i <= scan_while(input, i, pred) <= input.len(),
        forall|x: int| i <= x < scan_while(input, i, pred) ==> pred(input[x]),
        scan_while(input, i, pred) < input.len() ==> !pred(input[scan_while(input, i, pred)]),
    decreases input.len() - i,
{
    if i < input.len() && pred(input[i]) {
        lemma_scan_while(input, i + 1, pred);
    }
}

/// An operator run stops at a non-operator byte, before `->`, and before a
/// comment opener.
pub open spec fn op_stop(input: Seq<u8>, j: int) -> bool {
    j >= input.len() || !is_op_byte(input[j]) || (input[j] == 45 && j + 1 < input.len() && input[j
        + 1] == 62) || (input[j] == 47 && j + 1 < input.len() && (input[j + 1] == 47 || input[j + 1]
        == 42))
}

/// The first position at or after `i` where an operator run stops.
pub open spec fn scan_op(input: Seq<u8>, i: int) -> int
    decreases input.len() - i,
{
    if i < 0 || i >= input.len() {
        input.len() as int
    } else if op_stop(input, i) {
        i
    } else {
        scan_op(input, i + 1)
    }
}

pub proof fn lemma_scan_op(input: Seq<u8>, i: int)
    requires
        0 <= i <= input.len(),
    ensures
        i <= scan_op(input, i) <= input.len(),
        forall|x: int| i <= x < scan_op(input, i) ==> !op_stop(input, x),
        scan_op(input, i) < input.len() ==> op_stop(input, scan_op(input, i)),
    decreases input.len() - i,
{
    if i < input.len() && !op_stop(input, i) {
        lemma_scan_op(input, i + 1);
    }
}

/// The first position at or after `i` holding a quote or a newline, or the length.
pub open spec fn scan_str_end(input: Seq<u8>, i: int) -> int
    decreases input.len() - i,
{
    if i < 0 || i >= input.len() {
        input.len() as int
    } else if input[i] == 34 || input[i] == 10 {
        i
    } else {
        scan_str_end(input, i + 1)
    }
}

pub proof fn lemma_scan_str_end(input: Seq<u8>, i: int)
    requires
        0 <= i <= input.len(),
    ensures
        i <= scan_str_end(input, i) <= input.len(),
        forall|x: int| i <= x < scan_str_end(input, i) ==> input[x] != 34 && input[x] != 10,
        scan_str_end(input, i) < input.len() ==> (input[scan_str_end(input, i)] == 34 || input[
            scan_str_end(input, i)] == 10),
    decreases input.len() - i,
{
    if i < input.len() && input[i] != 34 && input[i] != 10 {
        lemma_scan_str_end(input, i + 1);
    }
}

// ---------------------------------------------------------------------------
// The keyword table and single-byte tokens.
// ---------------------------------------------------------------------------

/// The token denoted by a scanned identifier word: a keyword, a boolean
/// literal, or an identifier.
pub open spec fn word_token(w: Seq<char>) -> SpecTokenKind {
    if w == "true"@ {
        SpecTokenKind::Bool(true)
    } else if w == "false"@ {
        SpecTokenKind::Bool(false)
    } else if w == "pub"@ {
        SpecTokenKind::Pub
    } else if w == "alias"@ {
        SpecTokenKind::Alias
    } else if w == "newtype"@ {
        SpecTokenKind::Newtype
    } else if w == "struct"@ {
        SpecTokenKind::Struct
    } else if w == "union"@ {
        SpecTokenKind::Union
    } else if w == "enum"@ {
        SpecTokenKind::Enum
    } else if w == "trait"@ {
        SpecTokenKind::Trait
    } else if w == "impl"@ {
        SpecTokenKind::Impl
    } else if w == "of"@ {
        SpecTokenKind::Of
    } else if w == "for"@ {
        SpecTokenKind::For
    } else if w == "var"@ {
        SpecTokenKind::Var
    } else if w == "let"@ {
        SpecTokenKind::Let
    } else if w == "def"@ {
        SpecTokenKind::Def
    } else if w == "virt"@ {
        SpecTokenKind::Virt
    } else if w == "pure"@ {
        SpecTokenKind::Pure
    } else if w == "macro"@ {
        SpecTokenKind::Macro
    } else if w == "extern"@ {
        SpecTokenKind::Extern
    } else if w == "return"@ {
        SpecTokenKind::Return
    } else if w == "break"@ {
        SpecTokenKind::Break
    } else if w == "continue"@ {
        SpecTokenKind::Continue
    } else if w == "do"@ {
        SpecTokenKind::Do
    } else {
        SpecTokenKind::Id(w)
    }
}

/// The token denoted by a delimiter byte.
pub open spec fn delim_token(b: u8) -> SpecTokenKind {
    if b == 44 {
        SpecTokenKind::Comma
    } else if b == 58 {
        SpecTokenKind::Colon
    } else if b == 59 {
        SpecTokenKind::Semicolon
    } else if b == 40 {
        SpecTokenKind::OpenParen
    } else if b == 41 {
        SpecTokenKind::CloseParen
    } else if b == 91 {
        SpecTokenKind::OpenSquare
    } else if b == 93 {
        SpecTokenKind::CloseSquare
    } else if b == 123 {
        SpecTokenKind::OpenBracket
    } else {
        SpecTokenKind::CloseBracket
    }
}

// ---------------------------------------------------------------------------
// The lexer itself.
// ---------------------------------------------------------------------------

/// The substring of the input from `a` to `b`, as characters.
pub open spec fn text_of(input: Seq<u8>, a: int, b: int) -> Seq<char> {
    chars_of_bytes(input.subrange(a, b))
}

/// A string literal starting at the quote at `j`: it ends at the next quote;
/// a raw newline or the end of input yields an `Invalid` token holding the
/// partial content.
pub open spec fn lex_string(input: Seq<u8>, j: int) -> (SpecTokenKind, int) {
    let e = scan_str_end(input, j + 1);
    if e >= input.len() {
        (SpecTokenKind::Invalid(text_of(input, j + 1, input.len() as int)), input.len() as int)
    } else if input[e] == 34 {
        (SpecTokenKind::Str(text_of(input, j + 1, e)), e + 1)
    } else {
        (SpecTokenKind::Invalid(text_of(input, j + 1, e)), e + 1)
    }
}

/// The token starting at the non-trivia position `j`, and the position just
/// after it.
pub open spec fn lex_at(input: Seq<u8>, j: int) -> (SpecTokenKind, int)
    recommends
        0 <= j < input.len(),
{
    let b = input[j];
    if b == 45 && j + 1 < input.len() && input[j + 1] == 62 {
        (SpecTokenKind::Arrow, j + 2)
    } else if b == 61 {
        if j + 1 < input.len() && is_op_byte(input[j + 1]) {
            let k = scan_op(input, j + 1);
            (SpecTokenKind::Op(text_of(input, j, k)), k)
        } else {
            (SpecTokenKind::Equal, j + 1)
        }
    } else if b == 46 {
        (SpecTokenKind::Dot, j + 1)
    } else if is_digit(b) {
        let k = scan_while(input, j, |x: u8| is_digit(x));
        if k < input.len() && input[k] == 46 && k + 1 < input.len() && is_digit(input[k + 1]) {
            let m = scan_while(input, k + 2, |x: u8| is_digit(x));
            (SpecTokenKind::Dec(text_of(input, j, m)), m)
        } else {
            (SpecTokenKind::Int(text_of(input, j, k)), k)
        }
    } else if is_op_byte(b) {
        let k = scan_op(input, j);
        (SpecTokenKind::Op(text_of(input, j, k)), k)
    } else if b == 35 {
        let k = scan_op(input, j + 1);
        (SpecTokenKind::Op(text_of(input, j, k)), k)
    } else if is_delim_byte(b) {
        (delim_token(b), j + 1)
    } else if b == 34 {
        lex_string(input, j)
    } else if is_upper(b) {
        let k = scan_while(input, j, |x: u8| is_alnum(x));
        (SpecTokenKind::Type(text_of(input, j, k)), k)
    } else if is_lower(b) || b == 95 {
        let k = scan_while(input, j, |x: u8| is_id_byte(x));
        (word_token(text_of(input, j, k)), k)
    } else {
        (SpecTokenKind::Invalid(seq![b as char]), j + 1)
    }
}

/// The kind of the next token from position `i`, and the position just after
/// it; trivia is skipped first, and the end of input yields `EOF`.
pub open spec fn next_kind_at(input: Seq<u8>, i: int) -> (SpecTokenKind, int) {
    let j = skip_trivia(input, i);
    if j >= input.len() {
        (SpecTokenKind::EOF, input.len() as int)
    } else {
        lex_at(input, j)
    }
}

/// The position of the first byte of the next token (the input length for EOF).
pub open spec fn next_start(input: Seq<u8>, i: int) -> int {
    if skip_trivia(input, i) >= input.len() {
        input.len() as int
    } else {
        skip_trivia(input, i)
    }
}

/// The next token from position `i`, with its location, and the position just
/// after it.
pub open spec fn next_token_at(input: Seq<u8>, i: int) -> (SpecToken, int) {
    let (k, e) = next_kind_at(input, i);
    (SpecToken { kind: k, location: loc_at(input, next_start(input, i)) }, e)
}

pub proof fn lemma_lex_at_advances(input: Seq<u8>, j: int)
    requires
        0 <= j < input.len(),
        token_start_ok(input, j),
    ensures
        j < lex_at(input, j).1 <= input.len(),
{
    let b = input[j];
    lemma_scan_op(input, j);
    if j + 1 <= input.len() {
        lemma_scan_op(input, j + 1);
        lemma_scan_str_end(input, j + 1);
    }
    if is_digit(b) {
        lemma_scan_while(input, j, |x: u8| is_digit(x));
        let k = scan_while(input, j, |x: u8| is_digit(x));
        assert(k > j);
        if k < input.len() && input[k] == 46 && k + 1 < input.len() && is_digit(input[k + 1]) {
            lemma_scan_while(input, k + 2, |x: u8| is_digit(x));
        }
    }
    if is_upper(b) {
        lemma_scan_while(input, j, |x: u8| is_alnum(x));
    }
    if is_lower(b) || b == 95 {
        lemma_scan_while(input, j, |x: u8| is_id_byte(x));
    }
}

pub proof fn lemma_next_token_advances(input: Seq<u8>, i: int)
    requires
        0 <= i <= input.len(),
    ensures
        i <= next_token_at(input, i).1 <= input.len(),
        !(next_token_at(input, i).0.kind is EOF) ==> i < next_token_at(input, i).1,
        next_token_at(input, i).0.kind is EOF ==> next_token_at(input, i).1 == input.len(),
{
    lemma_skip_trivia_bounds(input, i);
    let j = skip_trivia(input, i);
    if j < input.len() {
        lemma_lex_at_advances(input, j);
        assert(!(lex_at(input, j).0 is EOF)) by {
            let b = input[j];
            if is_lower(b) || b == 95 {
                let k = scan_while(input, j, |x: u8| is_id_byte(x));
                assert(!(word_token(text_of(input, j, k)) is EOF));
            }
        }
    }
}

/// All tokens from position `i` up to (excluding) the end of input, in order.
pub open spec fn upcoming_at(input: Seq<u8>, i: int) -> Seq<SpecToken>
    decreases input.len() - i,
{
    if i < 0 || i > input.len() {
        Seq::empty()
    } else {
        let (t, e) = next_token_at(input, i);
        if t.kind is EOF || e <= i || e > input.len() {
            Seq::empty()
        } else {
            seq![t] + upcoming_at(input, e)
        }
    }
}

/// The token kinds from position `i` up to the end of input, in order.
pub open spec fn kinds_of(ts: Seq<SpecToken>) -> Seq<SpecTokenKind> {
    ts.map(|i: int, t: SpecToken| t.kind)
}

pub proof fn lemma_upcoming_at_non_eof(input: Seq<u8>, i: int)
    ensures
        forall|k: int|
            0 <= k < upcoming_at(input, i).len() ==> !(#[trigger] upcoming_at(input, i)[k].kind
                is EOF),
    decreases input.len() - i,
{
    if 0 <= i <= input.len() {
        let (t, e) = next_token_at(input, i);
        if !(t.kind is EOF) && i < e <= input.len() {
            lemma_upcoming_at_non_eof(input, e);
        }
    }
}

} // verus!

verus! {

// ---------------------------------------------------------------------------
// Executable byte classes and scanners.
// ---------------------------------------------------------------------------

fn ws_byte(b: u8) -> (r: bool)
    ensures
        r == is_ws(b),
{
    b == 32 || b == 9 || b == 10 || b == 12 || b == 13
}

fn digit_byte(b: u8) -> (r: bool)
    ensures
        r == is_digit(b),
{
    48 <= b && b <= 57
}

fn alnum_byte(b: u8) -> (r: bool)
    ensures
        r == is_alnum(b),
{
    (48 <= b && b <= 57) || (65 <= b && b <= 90) || (97 <= b && b <= 122)
}

fn id_byte(b: u8) -> (r: bool)
    ensures
        r == is_id_byte(b),
{
    alnum_byte(b) || b == 95
}

fn op_byte(b: u8) -> (r: bool)
    ensures
        r == is_op_byte(b),
{
    b == 43 || b == 45 || b == 42 || b == 47 || b == 60 || b == 62 || b == 61
}

fn delim_byte(b: u8) -> (r: bool)
    ensures
        r == is_delim_byte(b),
{
    b == 44 || b == 58 || b == 59 || b == 40 || b == 41 || b == 91 || b == 93 || b == 123 || b
        == 125
}

fn op_stop_at(input: &Vec<u8>, j: usize) -> (r: bool)
    requires
        j <= input@.len(),
    ensures
        r == op_stop(input@, j as int),
{
    if j == input.len() {
        return true;
    }
    let b = input[j];
    if !op_byte(b) {
        return true;
    }
    if j + 1 < input.len() {
        let n = input[j + 1];
        if b == 45 && n == 62 {
            return true;
        }
        if b == 47 && (n == 47 || n == 42) {
            return true;
        }
    }
    false
}

fn scan_digits(input: &Vec<u8>, from: usize) -> (k: usize)
    requires
        from <= input@.len(),
    ensures
        k == scan_while(input@, from as int, |x: u8| is_digit(x)),
        from <= k <= input@.len(),
{
    let mut i = from;
    while i < input.len() && digit_byte(input[i])
        invariant
            from <= i <= input@.len(),
            scan_while(input@, from as int, |x: u8| is_digit(x)) == scan_while(
                input@,
                i as int,
                |x: u8| is_digit(x),
            ),
        decreases input@.len() - i,
    {
        i = i + 1;
    }
    proof {
        lemma_scan_while(input@, from as int, |x: u8| is_digit(x));
    }
    i
}

fn scan_alnum(input: &Vec<u8>, from: usize) -> (k: usize)
    requires
        from <= input@.len(),
    ensures
        k == scan_while(input@, from as int, |x: u8| is_alnum(x)),
        from <= k <= input@.len(),
{
    let mut i = from;
    while i < input.len() && alnum_byte(input[i])
        invariant
            from <= i <= input@.len(),
            scan_while(input@, from as int, |x: u8| is_alnum(x)) == scan_while(
                input@,
                i as int,
                |x: u8| is_alnum(x),
            ),
        decreases input@.len() - i,
    {
        i = i + 1;
    }
    proof {
        lemma_scan_while(input@, from as int, |x: u8| is_alnum(x));
    }
    i
}

fn scan_id(input: &Vec<u8>, from: usize) -> (k: usize)
    requires
        from <= input@.len(),
    ensures
        k == scan_while(input@, from as int, |x: u8| is_id_byte(x)),
        from <= k <= input@.len(),
{
    let mut i = from;
    while i < input.len() && id_byte(input[i])
        invariant
            from <= i <= input@.len(),
            scan_while(input@, from as int, |x: u8| is_id_byte(x)) == scan_while(
                input@,
                i as int,
                |x: u8| is_id_byte(x),
            ),
        decreases input@.len() - i,
    {
        i = i + 1;
    }
    proof {
        lemma_scan_while(input@, from as int, |x: u8| is_id_byte(x));
    }
    i
}

fn scan_op_run(input: &Vec<u8>, from: usize) -> (k: usize)
    requires
        from <= input@.len(),
    ensures
        k == scan_op(input@, from as int),
        from <= k <= input@.len(),
{
    let mut i = from;
    while i < input.len() && !op_stop_at(input, i)
        invariant
            from <= i <= input@.len(),
            scan_op(input@, from as int) == scan_op(input@, i as int),
        decreases input@.len() - i,
    {
        i = i + 1;
    }
    proof {
        lemma_scan_op(input@, from as int);
    }
    i
}

fn scan_str_run(input: &Vec<u8>, from: usize) -> (k: usize)
    requires
        from <= input@.len(),
    ensures
        k == scan_str_end(input@, from as int),
        from <= k <= input@.len(),
{
    let mut i = from;
    while i < input.len() && input[i] != 34 && input[i] != 10
        invariant
            from <= i <= input@.len(),
            scan_str_end(input@, from as int) == scan_str_end(input@, i as int),
        decreases input@.len() - i,
    {
        i = i + 1;
    }
    proof {
        lemma_scan_str_end(input@, from as int);
    }
    i
}

/// Copy the bytes of `input` from `a` to `end` as a string, one character per
/// byte.
fn copy_text(input: &Vec<u8>, a: usize, end: usize) -> (s: String)
    requires
        a <= end <= input@.len(),
    ensures
        s@ == text_of(input@, a as int, end as int),
{
    let mut s = String::new();
    let mut i = a;
    while i < end
        invariant
            a <= i <= end <= input@.len(),
            s@ == text_of(input@, a as int, i as int),
        decreases end - i,
    {
        let piece = crate::text::char_to_string(input[i] as char);
        s.append(piece.as_str());
        i = i + 1;
        proof {
            assert(input@.subrange(a as int, i as int) =~= input@.subrange(a as int, i - 1)
                + seq![input@[i - 1]]);
            assert(s@ =~= text_of(input@, a as int, i as int));
        }
    }
    s
}

/// The token for a scanned identifier word: keyword, boolean literal, or `Id`.
fn word_kind(w: String) -> (k: TokenKind)
    ensures
        k@ == word_token(w@),
{
    if w == "true".to_owned() {
        TokenKind::Bool(true)
    } else if w == "false".to_owned() {
        TokenKind::Bool(false)
    } else if w == "pub".to_owned() {
        TokenKind::Pub
    } else if w == "alias".to_owned() {
        TokenKind::Alias
    } else if w == "newtype".to_owned() {
        TokenKind::Newtype
    } else if w == "struct".to_owned() {
        TokenKind::Struct
    } else if w == "union".to_owned() {
        TokenKind::Union
    } else if w == "enum".to_owned() {
        TokenKind::Enum
    } else if w == "trait".to_owned() {
        TokenKind::Trait
    } else if w == "impl".to_owned() {
        TokenKind::Impl
    } else if w == "of".to_owned() {
        TokenKind::Of
    } else if w == "for".to_owned() {
        TokenKind::For
    } else if w == "var".to_owned() {
        TokenKind::Var
    } else if w == "let".to_owned() {
        TokenKind::Let
    } else if w == "def".to_owned() {
        TokenKind::Def
    } else if w == "virt".to_owned() {
        TokenKind::Virt
    } else if w == "pure".to_owned() {
        TokenKind::Pure
    } else if w == "macro".to_owned() {
        TokenKind::Macro
    } else if w == "extern".to_owned() {
        TokenKind::Extern
    } else if w == "return".to_owned() {
        TokenKind::Return
    } else if w == "break".to_owned() {
        TokenKind::Break
    } else if w == "continue".to_owned() {
        TokenKind::Continue
    } else if w == "do".to_owned() {
        TokenKind::Do
    } else {
        TokenKind::Id(w)
    }
}

/// The token for a delimiter byte.
fn delim_kind(b: u8) -> (k: TokenKind)
    requires
        is_delim_byte(b),
    ensures
        k@ == delim_token(b),
{
    if b == 44 {
        TokenKind::Comma
    } else if b == 58 {
        TokenKind::Colon
    } else if b == 59 {
        TokenKind::Semicolon
    } else if b == 40 {
        TokenKind::OpenParen
    } else if b == 41 {
        TokenKind::CloseParen
    } else if b == 91 {
        TokenKind::OpenSquare
    } else if b == 93 {
        TokenKind::CloseSquare
    } else if b == 123 {
        TokenKind::OpenBracket
    } else {
        TokenKind::CloseBracket
    }
}

// ---------------------------------------------------------------------------
// The non-EOF prefix of a buffered token queue.
// ---------------------------------------------------------------------------

/// The longest prefix of `s` that holds no `EOF` token.
pub open spec fn non_eof_prefix(s: Seq<SpecToken>) -> Seq<SpecToken>
    decreases s.len(),
{
    if s.len() == 0 || s[0].kind is EOF {
        Seq::empty()
    } else {
        seq![s[0]] + non_eof_prefix(s.drop_first())
    }
}

proof fn lemma_non_eof_prefix_all(s: Seq<SpecToken>)
    requires
        forall|i: int| 0 <= i < s.len() ==> !(#[trigger] s[i].kind is EOF),
    ensures
        non_eof_prefix(s) == s,
    decreases s.len(),
{
    if s.len() > 0 {
        lemma_non_eof_prefix_all(s.drop_first());
        assert(seq![s[0]] + s.drop_first() =~= s);
    }
}

proof fn lemma_non_eof_prefix_push_eof(s: Seq<SpecToken>, t: SpecToken)
    requires
        t.kind is EOF,
    ensures
        non_eof_prefix(s.push(t)) == non_eof_prefix(s),
    decreases s.len(),
{
    if s.len() == 0 {
        assert(s.push(t)[0].kind is EOF);
    } else if !(s[0].kind is EOF) {
        lemma_non_eof_prefix_push_eof(s.drop_first(), t);
        assert(s.push(t).drop_first() =~= s.drop_first().push(t));
        assert(s.push(t)[0] == s[0]);
    }
}

proof fn lemma_non_eof_prefix_props(s: Seq<SpecToken>)
    ensures
        non_eof_prefix(s).len() <= s.len(),
        forall|i: int| 0 <= i < non_eof_prefix(s).len() ==> #[trigger] non_eof_prefix(s)[i] == s[i]
            && !(s[i].kind is EOF),
        non_eof_prefix(s).len() < s.len() ==> s[non_eof_prefix(s).len() as int].kind is EOF,
    decreases s.len(),
{
    if s.len() > 0 && !(s[0].kind is EOF) {
        lemma_non_eof_prefix_props(s.drop_first());
    }
}

} // verus!

verus! {

/// Which kind of trivia the skipper is inside.
enum TriviaMode {
    Scan,
    Line,
    Block,
}

/// The tokenizer: a byte source, a cursor with its location, and a FIFO
/// queue of peeked tokens.
pub struct Tokenizer {
    input: Vec<u8>,
    pos: usize,
    line: u16,
    column: u16,
    peeked: Vec<Token>,
}

impl Tokenizer {
    /// The bytes this tokenizer reads.
    pub closed spec fn src(self) -> Seq<u8> {
        self.input@
    }

    /// How many tokens are buffered by peeking.
    pub closed spec fn peeked_count(self) -> nat {
        self.peeked@.len()
    }

    /// The current location of the cursor.
    pub closed spec fn loc(self) -> Location {
        Location { line: self.line, column: self.column }
    }

    /// The location reported at the end of input.
    pub closed spec fn eof_loc(self) -> Location {
        loc_at(self.input@, self.input@.len() as int)
    }

    spec fn peeked_views(self) -> Seq<SpecToken> {
        self.peeked@.map(|i: int, t: Token| t@)
    }

    /// The tokens still to be delivered, up to (excluding) EOF.
    pub closed spec fn upcoming(self) -> Seq<SpecToken> {
        non_eof_prefix(self.peeked_views()) + upcoming_at(self.input@, self.pos as int)
    }

    pub closed spec fn wf(self) -> bool {
        &&& self.pos <= self.input@.len()
        &&& (Location { line: self.line, column: self.column }) == loc_at(
            self.input@,
            self.pos as int,
        )
        &&& forall|i: int|
            0 <= i < self.peeked@.len() && #[trigger] self.peeked@[i]@.kind is EOF ==> self.pos
                == self.input@.len() && self.peeked@[i]@.location == loc_at(
                self.input@,
                self.input@.len() as int,
            )
        &&& forall|i: int, j: int|
            0 <= i <= j < self.peeked@.len() && #[trigger] self.peeked@[i]@.kind is EOF ==> (
            #[trigger] self.peeked@[j]@.kind is EOF)
    }

    /// Wrap a byte source.
    pub fn new(input: Vec<u8>) -> (t: Tokenizer)
        ensures
            t.wf(),
            t.src() == input@,
            t.peeked_count() == 0,
            t.upcoming() == upcoming_at(input@, 0),
    {
        let t = Tokenizer { input, pos: 0, line: 1, column: 1, peeked: Vec::new() };
        proof {
            assert(t.peeked_views() =~= Seq::<SpecToken>::empty());
            assert(t.upcoming() =~= upcoming_at(t.input@, 0));
        }
        t
    }

    /// Advance the cursor by one byte, tracking the location.
    fn step(&mut self)
        requires
            old(self).pos < old(self).input@.len(),
            (Location { line: old(self).line, column: old(self).column }) == loc_at(
                old(self).input@,
                old(self).pos as int,
            ),
        ensures
            final(self).pos == old(self).pos + 1,
            final(self).input == old(self).input,
            final(self).peeked == old(self).peeked,
            (Location { line: final(self).line, column: final(self).column }) == loc_at(
                final(self).input@,
                final(self).pos as int,
            ),
    {
        let n = self.input.len();
        proof {
            assert(self.pos < n);
        }
        let b = self.input[self.pos];
        if b == 10 {
            self.line = if self.line == 0xffff {
                self.line
            } else {
                self.line + 1
            };
            self.column = 0;
        } else {
            if self.column != 0xffff {
                self.column = self.column + 1;
            }
        }
        self.pos = self.pos + 1;
    }

    /// Advance the cursor to position `k`, tracking the location.
    fn advance_to(&mut self, k: usize)
        requires
            old(self).pos <= k <= old(self).input@.len(),
            (Location { line: old(self).line, column: old(self).column }) == loc_at(
                old(self).input@,
                old(self).pos as int,
            ),
        ensures
            final(self).pos == k,
            final(self).input == old(self).input,
            final(self).peeked == old(self).peeked,
            (Location { line: final(self).line, column: final(self).column }) == loc_at(
                final(self).input@,
                final(self).pos as int,
            ),
    {
        while self.pos < k
            invariant
                self.pos <= k <= self.input@.len(),
                self.input == old(self).input,
                self.peeked == old(self).peeked,
                (Location { line: self.line, column: self.column }) == loc_at(
                    self.input@,
                    self.pos as int,
                ),
            decreases k - self.pos,
        {
            self.step();
        }
    }

    /// Skip whitespace and comments, stopping where a token can start.
    fn skip_trivia_exec(&mut self)
        requires
            old(self).pos <= old(self).input@.len(),
            (Location { line: old(self).line, column: old(self).column }) == loc_at(
                old(self).input@,
                old(self).pos as int,
            ),
        ensures
            final(self).input == old(self).input,
            final(self).peeked == old(self).peeked,
            final(self).pos == skip_trivia(old(self).input@, old(self).pos as int),
            final(self).pos <= final(self).input@.len(),
            (Location { line: final(self).line, column: final(self).column }) == loc_at(
                final(self).input@,
                final(self).pos as int,
            ),
    {
        proof {
            lemma_skip_trivia_bounds(self.input@, self.pos as int);
        }
        let ghost target = skip_trivia(old(self).input@, old(self).pos as int);
        let mut mode = TriviaMode::Scan;
        let mut depth: usize = 0;
        loop
            invariant
                self.input == old(self).input,
                self.peeked == old(self).peeked,
                self.pos <= self.input@.len(),
                depth <= self.pos,
                (Location { line: self.line, column: self.column }) == loc_at(
                    self.input@,
                    self.pos as int,
                ),
                (match mode {
                    TriviaMode::Scan => target == skip_trivia(self.input@, self.pos as int),
                    TriviaMode::Line => target == skip_line_comment(
                        self.input@,
                        self.pos as int,
                        depth as nat,
                    ),
                    TriviaMode::Block => target == skip_block_comment(
                        self.input@,
                        self.pos as int,
                        depth as nat,
                    ) && depth >= 1,
                }),
            ensures
                self.pos == target,
            decreases self.input@.len() - self.pos,
        {
            match mode {
                TriviaMode::Scan => {
                    if self.pos == self.input.len() {
                        break;
                    }
                    let b = self.input[self.pos];
                    if ws_byte(b) {
                        self.step();
                    } else if b == 47 && self.pos + 1 < self.input.len() && (self.input[self.pos
                        + 1] == 47 || self.input[self.pos + 1] == 42) {
                        let line = self.input[self.pos + 1] == 47;
                        self.step();
                        self.step();
                        if line {
                            mode = TriviaMode::Line;
                            depth = 0;
                        } else {
                            mode = TriviaMode::Block;
                            depth = 1;
                        }
                    } else {
                        break;
                    }
                },
                TriviaMode::Line => {
                    if self.pos == self.input.len() {
                        break;
                    }
                    let b = self.input[self.pos];
                    self.step();
                    if b == 10 {
                        if depth == 0 {
                            mode = TriviaMode::Scan;
                        } else {
                            mode = TriviaMode::Block;
                        }
                    }
                },
                TriviaMode::Block => {
                    if self.pos == self.input.len() {
                        break;
                    }
                    let b = self.input[self.pos];
                    let two = self.pos + 1 < self.input.len();
                    if b == 42 && two && self.input[self.pos + 1] == 47 {
                        self.step();
                        self.step();
                        if depth <= 1 {
                            mode = TriviaMode::Scan;
                            depth = 0;
                        } else {
                            depth = depth - 1;
                        }
                    } else if b == 47 && two && self.input[self.pos + 1] == 42 {
                        self.step();
                        self.step();
                        depth = depth + 1;
                    } else if b == 47 && two && self.input[self.pos + 1] == 47 {
                        self.step();
                        self.step();
                        mode = TriviaMode::Line;
                    } else {
                        self.step();
                    }
                },
            }
        }
    }

    /// Attach the current location to a token kind.
    pub fn to_token(&self, token_kind: TokenKind) -> (t: Token)
        ensures
            t@.kind == token_kind@,
            t@.location == self.loc(),
    {
        Token { token_kind, location: Location { line: self.line, column: self.column } }
    }

    /// Produce the next token from the byte source, ignoring the peek queue.
    fn tokenize(&mut self) -> (t: Token)
        requires
            old(self).wf(),
        ensures
            final(self).wf(),
            final(self).input == old(self).input,
            final(self).peeked == old(self).peeked,
            t@ == next_token_at(old(self).input@, old(self).pos as int).0,
            final(self).pos == next_token_at(old(self).input@, old(self).pos as int).1,
    {
        proof {
            lemma_skip_trivia_bounds(self.input@, self.pos as int);
        }
        self.skip_trivia_exec();
        if self.pos == self.input.len() {
            return self.to_token(TokenKind::EOF);
        }
        let ghost j = self.pos as int;
        let b = self.input[self.pos];
        if b == 45 && self.pos + 1 < self.input.len() && self.input[self.pos + 1] == 62 {
            let t = self.to_token(TokenKind::Arrow);
            self.step();
            self.step();
            t
        } else if b == 61 {
            if self.pos + 1 < self.input.len() && op_byte(self.input[self.pos + 1]) {
                let k = scan_op_run(&self.input, self.pos + 1);
                let t = self.to_token(TokenKind::Op(copy_text(&self.input, self.pos, k)));
                self.advance_to(k);
                t
            } else {
                let t = self.to_token(TokenKind::Equal);
                self.step();
                t
            }
        } else if b == 46 {
            let t = self.to_token(TokenKind::Dot);
            self.step();
            t
        } else if digit_byte(b) {
            let k = scan_digits(&self.input, self.pos);
            if k < self.input.len() && self.input[k] == 46 && k + 1 < self.input.len()
                && digit_byte(self.input[k + 1]) {
                let m = scan_digits(&self.input, k + 2);
                let t = self.to_token(TokenKind::Dec(copy_text(&self.input, self.pos, m)));
                self.advance_to(m);
                t
            } else {
                let t = self.to_token(TokenKind::Int(copy_text(&self.input, self.pos, k)));
                self.advance_to(k);
                t
            }
        } else if op_byte(b) {
            let k = scan_op_run(&self.input, self.pos);
            let t = self.to_token(TokenKind::Op(copy_text(&self.input, self.pos, k)));
            proof {
                lemma_scan_op(self.input@, self.pos as int);
            }
            self.advance_to(k);
            t
        } else if b == 35 {
            let k = scan_op_run(&self.input, self.pos + 1);
            let t = self.to_token(TokenKind::Op(copy_text(&self.input, self.pos, k)));
            self.advance_to(k);
            t
        } else if delim_byte(b) {
            let t = self.to_token(delim_kind(b));
            self.step();
            t
        } else if b == 34 {
            let e = scan_str_run(&self.input, self.pos + 1);
            if e == self.input.len() {
                let t = self.to_token(
                    TokenKind::Invalid(copy_text(&self.input, self.pos + 1, e)),
                );
                self.advance_to(e);
                t
            } else if self.input[e] == 34 {
                let t = self.to_token(TokenKind::Str(copy_text(&self.input, self.pos + 1, e)));
                self.advance_to(e + 1);
                t
            } else {
                let t = self.to_token(
                    TokenKind::Invalid(copy_text(&self.input, self.pos + 1, e)),
                );
                self.advance_to(e + 1);
                t
            }
        } else if 65 <= b && b <= 90 {
            let k = scan_alnum(&self.input, self.pos);
            let t = self.to_token(TokenKind::Type(copy_text(&self.input, self.pos, k)));
            self.advance_to(k);
            t
        } else if (97 <= b && b <= 122) || b == 95 {
            let k = scan_id(&self.input, self.pos);
            let t = self.to_token(word_kind(copy_text(&self.input, self.pos, k)));
            self.advance_to(k);
            t
        } else {
            let t = self.to_token(TokenKind::Invalid(crate::text::char_to_string(b as char)));
            self.step();
            t
        }
    }
}

} // verus!

verus! {

impl Tokenizer {
    /// Return and consume the next token; at the end of input this returns
    /// `EOF` over and over.
    pub fn next(&mut self) -> (t: Token)
        requires
            old(self).wf(),
        ensures
            final(self).wf(),
            final(self).src() == old(self).src(),
            old(self).upcoming().len() > 0 ==> t@ == old(self).upcoming()[0]
                && final(self).upcoming() == old(self).upcoming().drop_first(),
            old(self).upcoming().len() == 0 ==> t@.kind is EOF && t@.location == old(
                self,
            ).eof_loc() && final(self).upcoming().len() == 0,
            final(self).eof_loc() == old(self).eof_loc(),
            final(self).peeked_count() == if old(self).peeked_count() > 0 {
                (old(self).peeked_count() - 1) as nat
            } else {
                0nat
            },
    {
        proof {
            lemma_non_eof_prefix_props(self.peeked_views());
            lemma_next_token_advances(self.input@, self.pos as int);
        }
        if self.peeked.is_empty() {
            let t = self.tokenize();
            proof {
                let (st, e) = next_token_at(old(self).input@, old(self).pos as int);
                assert(old(self).peeked_views() =~= Seq::<SpecToken>::empty());
                assert(old(self).upcoming() =~= upcoming_at(
                    old(self).input@,
                    old(self).pos as int,
                ));
                if !(st.kind is EOF) {
                    assert(upcoming_at(old(self).input@, old(self).pos as int) =~= seq![st]
                        + upcoming_at(old(self).input@, e));
                    assert(final(self).upcoming() =~= upcoming_at(old(self).input@, e));
                    assert(old(self).upcoming().drop_first() =~= upcoming_at(
                        old(self).input@,
                        e,
                    ));
                } else {
                    assert(old(self).upcoming().len() == 0);
                    assert(final(self).upcoming().len() == 0);
                }
            }
            t
        } else {
            let t = self.peeked.remove(0);
            proof {
                let s = old(self).peeked_views();
                assert(self.peeked_views() =~= s.drop_first());
                if t@.kind is EOF {
                    assert(s[0].kind is EOF);
                    assert(non_eof_prefix(s) =~= Seq::<SpecToken>::empty());
                    assert(old(self).upcoming() =~= upcoming_at(
                        old(self).input@,
                        old(self).pos as int,
                    ));
                    assert(old(self).pos == old(self).input@.len());
                    assert(old(self).upcoming().len() == 0);
                    assert forall|i: int| 0 <= i < s.drop_first().len() implies (
                    #[trigger] s.drop_first()[i].kind is EOF) by {
                        assert(s[i + 1].kind is EOF);
                    }
                    assert(non_eof_prefix(s.drop_first()) =~= Seq::<SpecToken>::empty());
                    assert(final(self).upcoming().len() == 0);
                } else {
                    assert(t@ == s[0]);
                    assert(old(self).upcoming()[0] == s[0]);
                    assert(non_eof_prefix(s) =~= seq![s[0]] + non_eof_prefix(s.drop_first()));
                    assert(final(self).upcoming() =~= old(self).upcoming().drop_first());
                }
            }
            t
        }
    }

    /// The token that the (n+1)-th successive `next` would produce, without
    /// consuming anything; peeked tokens are buffered in order.
    pub fn peek(&mut self, n: usize) -> (t: Token)
        requires
            old(self).wf(),
        ensures
            final(self).wf(),
            final(self).src() == old(self).src(),
            final(self).upcoming() == old(self).upcoming(),
            final(self).peeked_count() >= n + 1,
            final(self).peeked_count() >= old(self).peeked_count(),
            n < old(self).upcoming().len() ==> t@ == old(self).upcoming()[n as int],
            n >= old(self).upcoming().len() ==> t@.kind is EOF && t@.location == old(
                self,
            ).eof_loc(),
            final(self).eof_loc() == old(self).eof_loc(),
    {
        while self.peeked.len() <= n
            invariant
                self.wf(),
                self.src() == old(self).src(),
                self.upcoming() == old(self).upcoming(),
                self.peeked_count() >= old(self).peeked_count(),
            decreases n + 1 - self.peeked@.len(),
        {
            let ghost pre = *self;
            let t = self.tokenize();
            let ghost s = pre.peeked_views();
            self.peeked.push(t);
            proof {
                lemma_non_eof_prefix_props(s);
                lemma_next_token_advances(pre.input@, pre.pos as int);
                assert(self.peeked_views() =~= s.push(t@));
                let (st, e) = next_token_at(pre.input@, pre.pos as int);
                if st.kind is EOF {
                    lemma_non_eof_prefix_push_eof(s, t@);
                    assert(upcoming_at(pre.input@, pre.pos as int) =~= Seq::<
                        SpecToken,
                    >::empty());
                    assert(self.upcoming() =~= pre.upcoming());
                } else {
                    assert(forall|i: int|
                        0 <= i < s.len() ==> !(#[trigger] s[i].kind is EOF));
                    lemma_non_eof_prefix_all(s);
                    lemma_non_eof_prefix_all(s.push(t@));
                    assert(upcoming_at(pre.input@, pre.pos as int) =~= seq![st] + upcoming_at(
                        pre.input@,
                        e,
                    ));
                    assert(self.upcoming() =~= pre.upcoming());
                }
            }
        }
        let t = self.peeked[n].clone();
        proof {
            let s = self.peeked_views();
            lemma_non_eof_prefix_props(s);
            assert(t@ == s[n as int]);
            if n < self.upcoming().len() {
                if n >= non_eof_prefix(s).len() {
                    assert(s[non_eof_prefix(s).len() as int].kind is EOF);
                    assert(self.pos == self.input@.len());
                    assert(upcoming_at(self.input@, self.pos as int) =~= Seq::<
                        SpecToken,
                    >::empty());
                    assert(self.upcoming().len() <= n);
                } else {
                    assert(self.upcoming()[n as int] == non_eof_prefix(s)[n as int]);
                }
            } else {
                if !(s[n as int].kind is EOF) {
                    if n < non_eof_prefix(s).len() {
                        assert(self.upcoming().len() > n);
                    } else {
                        assert(s[non_eof_prefix(s).len() as int].kind is EOF);
                        let f = non_eof_prefix(s).len() as int;
                        assert(f <= n);
                        assert(s[n as int].kind is EOF);
                    }
                }
            }
        }
        t
    }

    /// Drop the oldest buffered peeked token; there must be one.
    pub fn consume_peeked(&mut self)
        requires
            old(self).wf(),
            old(self).peeked_count() >= 1,
        ensures
            final(self).wf(),
            final(self).src() == old(self).src(),
            final(self).peeked_count() == old(self).peeked_count() - 1,
            final(self).eof_loc() == old(self).eof_loc(),
            old(self).upcoming().len() > 0
                ==> final(self).upcoming() == old(self).upcoming().drop_first(),
            old(self).upcoming().len() == 0 ==> final(self).upcoming().len() == 0,
    {
        proof {
            lemma_non_eof_prefix_props(old(self).peeked_views());
        }
        let t = self.peeked.remove(0);
        proof {
            let s = old(self).peeked_views();
            assert(self.peeked_views() =~= s.drop_first());
            if s[0].kind is EOF {
                assert(non_eof_prefix(s) =~= Seq::<SpecToken>::empty());
                assert(old(self).pos == old(self).input@.len());
                assert(old(self).upcoming().len() == 0);
                assert forall|i: int| 0 <= i < s.drop_first().len() implies (#[trigger] s.drop_first()[i].kind is EOF) by {
                    assert(s[i + 1].kind is EOF);
                }
                assert(non_eof_prefix(s.drop_first()) =~= Seq::<SpecToken>::empty());
                assert(final(self).upcoming().len() == 0);
            } else {
                assert(non_eof_prefix(s) =~= seq![s[0]] + non_eof_prefix(s.drop_first()));
                assert(old(self).upcoming().len() > 0);
                assert(final(self).upcoming() =~= old(self).upcoming().drop_first());
            }
        }
    }
}

} // verus!

verus! {

// ---------------------------------------------------------------------------
// Pretty printing.
// ---------------------------------------------------------------------------

/// The source text of one token kind.
pub open spec fn render_kind(k: SpecTokenKind) -> Seq<char> {
    match k {
        SpecTokenKind::Invalid(s) => s,
        SpecTokenKind::Id(s) => s,
        SpecTokenKind::Type(s) => s,
        SpecTokenKind::Int(s) => s,
        SpecTokenKind::Dec(s) => s,
        SpecTokenKind::Str(s) => s,
        SpecTokenKind::Bool(b) => if b {
            "true"@
        } else {
            "false"@
        },
        SpecTokenKind::Op(s) => s,
        SpecTokenKind::Arrow => "->"@,
        SpecTokenKind::Equal => "="@,
        SpecTokenKind::Dot => "."@,
        SpecTokenKind::Comma => ","@,
        SpecTokenKind::Colon => ":"@,
        SpecTokenKind::Semicolon => ";"@,
        SpecTokenKind::OpenParen => "("@,
        SpecTokenKind::CloseParen => ")"@,
        SpecTokenKind::OpenSquare => "["@,
        SpecTokenKind::CloseSquare => "]"@,
        SpecTokenKind::OpenBracket => "{"@,
        SpecTokenKind::CloseBracket => "}"@,
        SpecTokenKind::Pub => "pub"@,
        SpecTokenKind::Alias => "alias"@,
        SpecTokenKind::Newtype => "newtype"@,
        SpecTokenKind::Struct => "struct"@,
        SpecTokenKind::Union => "union"@,
        SpecTokenKind::Enum => "enum"@,
        SpecTokenKind::Trait => "trait"@,
        SpecTokenKind::Impl => "impl"@,
        SpecTokenKind::Of => "of"@,
        SpecTokenKind::For => "for"@,
        SpecTokenKind::Var => "var"@,
        SpecTokenKind::Let => "let"@,
        SpecTokenKind::Def => "def"@,
        SpecTokenKind::Virt => "virt"@,
        SpecTokenKind::Pure => "pure"@,
        SpecTokenKind::Macro => "macro"@,
        SpecTokenKind::Extern => "extern"@,
        SpecTokenKind::Return => "return"@,
        SpecTokenKind::Break => "break"@,
        SpecTokenKind::Continue => "continue"@,
        SpecTokenKind::Do => "do"@,
        SpecTokenKind::EOF => "<EOF>"@,
    }
}

/// `n` levels of four-space indentation.
pub open spec fn indent_chars(n: int) -> Seq<char>
    decreases n,
{
    if n <= 0 {
        Seq::empty()
    } else {
        indent_chars(n - 1) + "    "@
    }
}

/// One step of the pretty printer: the text written for `k` at the given
/// indentation state, with the state that follows. Brackets indent and `;`
/// ends a line.
pub open spec fn render_step(k: SpecTokenKind, indent: int, new_line: bool) -> (Seq<char>, int, bool) {
    let pad = if new_line {
        indent_chars(indent)
    } else {
        Seq::empty()
    };
    match k {
        SpecTokenKind::OpenBracket => (pad + "{\n"@, indent + 1, true),
        SpecTokenKind::CloseBracket => (
            (if new_line {
                indent_chars(indent - 1)
            } else {
                Seq::empty()
            }) + "}\n"@,
            indent - 1,
            true,
        ),
        SpecTokenKind::Semicolon => (pad + ";\n"@, indent, true),
        _ => (pad + render_kind(k) + " "@, indent, false),
    }
}

/// The pretty rendering of the token kinds from `idx` on.
pub open spec fn render_from(ks: Seq<SpecTokenKind>, idx: int, indent: int, new_line: bool) -> Seq<
    char,
>
    decreases ks.len() - idx,
{
    if idx < 0 || idx >= ks.len() {
        Seq::empty()
    } else {
        let (txt, ind2, nl2) = render_step(ks[idx], indent, new_line);
        txt + render_from(ks, idx + 1, ind2, nl2)
    }
}

/// The pretty rendering of a token sequence: tokens separated by spaces,
/// newlines after `;`, `{` and `}`, and `{`/`}` indentation.
pub open spec fn render_tokens(ks: Seq<SpecTokenKind>) -> Seq<char> {
    render_from(ks, 0, 0, true)
}

impl TokenKind {
    /// The source text of this token.
    pub fn str(&self) -> (r: String)
        ensures
            r@ == render_kind(self@),
    {
        match self {
            TokenKind::Invalid(s) => s.clone(),
            TokenKind::Id(s) => s.clone(),
            TokenKind::Type(s) => s.clone(),
            TokenKind::Int(s) => s.clone(),
            TokenKind::Dec(s) => s.clone(),
            TokenKind::Str(s) => s.clone(),
            TokenKind::Bool(b) => if *b {
                "true".to_owned()
            } else {
                "false".to_owned()
            },
            TokenKind::Op(s) => s.clone(),
            TokenKind::Arrow => "->".to_owned(),
            TokenKind::Equal => "=".to_owned(),
            TokenKind::Dot => ".".to_owned(),
            TokenKind::Comma => ",".to_owned(),
            TokenKind::Colon => ":".to_owned(),
            TokenKind::Semicolon => ";".to_owned(),
            TokenKind::OpenParen => "(".to_owned(),
            TokenKind::CloseParen => ")".to_owned(),
            TokenKind::OpenSquare => "[".to_owned(),
            TokenKind::CloseSquare => "]".to_owned(),
            TokenKind::OpenBracket => "{".to_owned(),
            TokenKind::CloseBracket => "}".to_owned(),
            TokenKind::Pub => "pub".to_owned(),
            TokenKind::Alias => "alias".to_owned(),
            TokenKind::Newtype => "newtype".to_owned(),
            TokenKind::Struct => "struct".to_owned(),
            TokenKind::Union => "union".to_owned(),
            TokenKind::Enum => "enum".to_owned(),
            TokenKind::Trait => "trait".to_owned(),
            TokenKind::Impl => "impl".to_owned(),
            TokenKind::Of => "of".to_owned(),
            TokenKind::For => "for".to_owned(),
            TokenKind::Var => "var".to_owned(),
            TokenKind::Let => "let".to_owned(),
            TokenKind::Def => "def".to_owned(),
            TokenKind::Virt => "virt".to_owned(),
            TokenKind::Pure => "pure".to_owned(),
            TokenKind::Macro => "macro".to_owned(),
            TokenKind::Extern => "extern".to_owned(),
            TokenKind::Return => "return".to_owned(),
            TokenKind::Break => "break".to_owned(),
            TokenKind::Continue => "continue".to_owned(),
            TokenKind::Do => "do".to_owned(),
            TokenKind::EOF => "<EOF>".to_owned(),
        }
    }
}

/// Append `n` levels of four-space indentation to `out`.
fn push_indent(out: &mut String, n: i128)
    ensures
        final(out)@ == old(out)@ + indent_chars(n as int),
{
    let mut j: i128 = 0;
    if n <= 0 {
        return ;
    }
    while j < n
        invariant
            0 <= j <= n,
            out@ == old(out)@ + indent_chars(j as int),
        decreases n - j,
    {
        out.append("    ");
        j = j + 1;
    }
}

impl Tokenizer {
    /// Pretty-print every token from the current position to EOF, without
    /// consuming any; the tokens are peeked and stay buffered.
    pub fn str(&mut self) -> (r: String)
        requires
            old(self).wf(),
        ensures
            final(self).wf(),
            final(self).src() == old(self).src(),
            final(self).upcoming() == old(self).upcoming(),
            r@ == render_tokens(kinds_of(old(self).upcoming())),
    {
        let ghost up0 = old(self).upcoming();
        let ghost ks = kinds_of(old(self).upcoming());
        let mut out = String::new();
        let mut indent: i128 = 0;
        let mut new_line = true;
        let mut index: usize = 0;
        proof {
            assert(render_tokens(ks) =~= Seq::<char>::empty() + render_from(ks, 0, 0, true));
        }
        loop
            invariant
                self.wf(),
                self.src() == old(self).src(),
                self.upcoming() == up0,
                ks == kinds_of(up0),
                index <= ks.len(),
                -(index as int) <= indent as int <= index as int,
                render_tokens(ks) == out@ + render_from(ks, index as int, indent as int, new_line),
            ensures
                out@ == render_tokens(ks),
            decreases ks.len() - index,
        {
            let ghost pre = *self;
            let token = self.peek(index);
            let pc = self.peeked.len();
            proof {
                assert(ks.len() == up0.len());
                lemma_non_eof_prefix_props(pre.peeked_views());
                lemma_upcoming_at_non_eof(pre.input@, pre.pos as int);
                if index < ks.len() {
                    assert(token@ == up0[index as int]);
                    assert(ks[index as int] == token@.kind);
                    assert(!(up0[index as int].kind is EOF));
                }
                assert(index + 1 <= pc);
            }
            let ghost out0 = out@;
            let ghost ind0 = indent as int;
            let ghost nl0 = new_line;
            if let TokenKind::EOF = &token.token_kind {
                proof {
                    assert(index >= ks.len());
                    assert(render_from(ks, index as int, ind0, nl0) =~= Seq::<char>::empty());
                    assert(out@ =~= out@ + Seq::<char>::empty());
                }
                break;
            }
            proof {
                assert(index < ks.len());
            }
            match &token.token_kind {
                TokenKind::OpenBracket => {
                    if new_line {
                        push_indent(&mut out, indent);
                    }
                    out.append("{\n");
                    indent = indent + 1;
                    new_line = true;
                },
                TokenKind::CloseBracket => {
                    indent = indent - 1;
                    if new_line {
                        push_indent(&mut out, indent);
                    }
                    out.append("}\n");
                    new_line = true;
                },
                TokenKind::Semicolon => {
                    if new_line {
                        push_indent(&mut out, indent);
                    }
                    out.append(";\n");
                    new_line = true;
                },
                _ => {
                    if new_line {
                        push_indent(&mut out, indent);
                    }
                    out.append(token.token_kind.str().as_str());
                    out.append(" ");
                    new_line = false;
                },
            }
            proof {
                let stp = render_step(ks[index as int], ind0, nl0);
                assert(out@ =~= out0 + stp.0);
                assert(indent as int == stp.1);
                assert(new_line == stp.2);
                assert(render_from(ks, index as int, ind0, nl0) =~= stp.0 + render_from(
                    ks,
                    index as int + 1,
                    stp.1,
                    stp.2,
                ));
                assert(out0 + (stp.0 + render_from(ks, index as int + 1, stp.1, stp.2)) =~= (out0
                    + stp.0) + render_from(ks, index as int + 1, stp.1, stp.2));
            }
            index = index + 1;
        }
        out
    }

}

} // verus!

verus! {

/// The reserved words: every keyword and the two boolean literals.
pub open spec fn is_keyword_word(w: Seq<char>) -> bool {
    ||| w == "true"@
    ||| w == "false"@
    ||| w == "pub"@
    ||| w == "alias"@
    ||| w == "newtype"@
    ||| w == "struct"@
    ||| w == "union"@
    ||| w == "enum"@
    ||| w == "trait"@
    ||| w == "impl"@
    ||| w == "of"@
    ||| w == "for"@
    ||| w == "var"@
    ||| w == "let"@
    ||| w == "def"@
    ||| w == "virt"@
    ||| w == "pure"@
    ||| w == "macro"@
    ||| w == "extern"@
    ||| w == "return"@
    ||| w == "break"@
    ||| w == "continue"@
    ||| w == "do"@
}

/// A reserved word never becomes an `Id` token.
pub proof fn lemma_keyword_never_id(w: Seq<char>)
    ensures
        word_token(w) is Id ==> !is_keyword_word(w),
        is_keyword_word(w) ==> !(word_token(w) is Id),
{
}

/// No token the lexer produces is an `Id` holding a reserved word.
pub proof fn lemma_tokens_never_keyword_id(input: Seq<u8>, i: int)
    ensures
        forall|k: int|
            0 <= k < upcoming_at(input, i).len() ==> (match (#[trigger] upcoming_at(
                input,
                i,
            )[k]).kind {
                SpecTokenKind::Id(w) => !is_keyword_word(w),
                _ => true,
            }),
    decreases input.len() - i,
{
    if 0 <= i <= input.len() {
        let (t, e) = next_token_at(input, i);
        if !(t.kind is EOF) && i < e && e <= input.len() {
            lemma_tokens_never_keyword_id(input, e);
            assert forall|k: int|
                0 <= k < upcoming_at(input, i).len() implies (match (#[trigger] upcoming_at(
                input,
                i,
            )[k]).kind {
                SpecTokenKind::Id(w) => !is_keyword_word(w),
                _ => true,
            }) by {
                if k == 0 {
                    assert(upcoming_at(input, i)[0] == t);
                    match t.kind {
                        SpecTokenKind::Id(w) => {
                            lemma_keyword_never_id(w);
                        },
                        _ => {},
                    }
                } else {
                    assert(upcoming_at(input, i)[k] == upcoming_at(input, e)[k - 1]);
                }
            }
        }
    }
}

} // verus!

verus! {

// ---------------------------------------------------------------------------
// Round trip, part 1: what the lexer guarantees of each payload.
// ---------------------------------------------------------------------------

pub open spec fn ascii_chars(w: Seq<char>) -> bool {
    forall|i: int| 0 <= i < w.len() ==> 0 <= ((#[trigger] w[i]) as int) < 128
}

/// The bytes a payload denotes.
pub open spec fn pb(w: Seq<char>) -> Seq<u8> {
    crate::text::bytes_of_chars(w)
}

/// A stop pair within an operator payload: `->`, `//`, or `/*`.
pub open spec fn op_pair_at(bs: Seq<u8>, i: int) -> bool {
    &&& 0 <= i && i + 1 < bs.len()
    &&& ((bs[i] == 45 && bs[i + 1] == 62) || (bs[i] == 47 && (bs[i + 1] == 47 || bs[i + 1]
        == 42)))
}

/// The payload shape the lexer guarantees for each token kind it produces.
pub open spec fn wf_kind(k: SpecTokenKind) -> bool {
    match k {
        SpecTokenKind::Id(w) => {
            &&& w.len() > 0
            &&& ascii_chars(w)
            &&& (is_lower(pb(w)[0]) || pb(w)[0] == 95)
            &&& (forall|i: int| 0 <= i < w.len() ==> is_id_byte(#[trigger] pb(w)[i]))
            &&& !is_keyword_word(w)
        },
        SpecTokenKind::Type(w) => {
            &&& w.len() > 0
            &&& ascii_chars(w)
            &&& is_upper(pb(w)[0])
            &&& (forall|i: int| 0 <= i < w.len() ==> is_alnum(#[trigger] pb(w)[i]))
        },
        SpecTokenKind::Int(w) => {
            &&& w.len() > 0
            &&& ascii_chars(w)
            &&& (forall|i: int| 0 <= i < w.len() ==> is_digit(#[trigger] pb(w)[i]))
        },
        SpecTokenKind::Dec(w) => {
            &&& ascii_chars(w)
            &&& (exists|d: int|
                {
                    &&& 0 < d < w.len() - 1
                    &&& #[trigger] pb(w)[d] == 46
                    &&& (forall|i: int| 0 <= i < w.len() && i != d ==> is_digit(#[trigger] pb(w)[i]))
                })
        },
        SpecTokenKind::Op(w) => {
            &&& w.len() > 0
            &&& ascii_chars(w)
            &&& (is_op_byte(pb(w)[0]) || pb(w)[0] == 35)
            &&& (forall|i: int| 1 <= i < w.len() ==> is_op_byte(#[trigger] pb(w)[i]))
            &&& (forall|i: int| 0 <= i < w.len() ==> !op_pair_at(pb(w), i))
        },
        _ => true,
    }
}

/// The bytes of the characters of a byte range are that range itself.
pub proof fn lemma_payload_bytes(input: Seq<u8>, a: int, b: int)
    requires
        0 <= a <= b <= input.len(),
    ensures
        pb(text_of(input, a, b)) =~= input.subrange(a, b),
        ascii_chars(text_of(input, a, b)) == (forall|i: int|
            a <= i < b ==> #[trigger] input[i] < 128),
{
    crate::text::lemma_bytes_chars_roundtrip(input.subrange(a, b));
    let w = text_of(input, a, b);
    assert forall|i: int| 0 <= i < w.len() implies w[i] as int == input[a + i] by {
        assert(w[i] == input.subrange(a, b)[i] as char);
    }
    if forall|i: int| a <= i < b ==> #[trigger] input[i] < 128 {
        assert forall|i: int| 0 <= i < w.len() implies 0 <= ((#[trigger] w[i]) as int) < 128 by {
            assert(input[a + i] < 128);
        }
    }
    if ascii_chars(w) {
        assert forall|i: int| a <= i < b implies #[trigger] input[i] < 128 by {
            assert(0 <= (w[i - a] as int) < 128);
        }
    }
}

/// ASCII characters survive the byte round trip.
pub proof fn lemma_chars_bytes_roundtrip(w: Seq<char>)
    requires
        ascii_chars(w),
    ensures
        chars_of_bytes(pb(w)) =~= w,
{
    let bs = pb(w);
    assert forall|i: int| 0 <= i < w.len() implies chars_of_bytes(bs)[i] == w[i] by {
        assert(0 <= (w[i] as int) < 128);
        assert((w[i] as int) % 256 == w[i] as int);
        assert(bs[i] == ((w[i] as int) % 256) as u8);
        assert(bs[i] as int == w[i] as int);
        assert(chars_of_bytes(bs)[i] == bs[i] as char);
    }
}

} // verus!

verus! {

/// Every token the lexer produces at a token start has a well-formed
/// payload.
#[verifier::rlimit(60)]
#[verifier::spinoff_prover]
pub proof fn lemma_lexed_kind_wf(input: Seq<u8>, j: int)
    requires
        0 <= j < input.len(),
        token_start_ok(input, j),
    ensures
        wf_kind(lex_at(input, j).0),
{
    let b = input[j];
    if b == 45 && j + 1 < input.len() && input[j + 1] == 62 {
    } else if b == 61 {
        if j + 1 < input.len() && is_op_byte(input[j + 1]) {
            let kk = scan_op(input, j + 1);
            lemma_scan_op(input, j + 1);
            let w = text_of(input, j, kk);
            lemma_payload_bytes(input, j, kk);
            assert forall|i: int| 1 <= i < w.len() implies is_op_byte(#[trigger] pb(w)[i]) by {
                assert(pb(w)[i] == input[j + i]);
                assert(!op_stop(input, j + i));
            }
            assert forall|i: int| 0 <= i < w.len() implies !op_pair_at(pb(w), i) by {
                if i + 1 < w.len() {
                    assert(pb(w)[i] == input[j + i]);
                    assert(pb(w)[i + 1] == input[j + i + 1]);
                    if i == 0 {
                        assert(pb(w)[0] == 61);
                    } else {
                        assert(!op_stop(input, j + i));
                    }
                }
            }
            assert(ascii_chars(w)) by {
                assert forall|i: int| j <= i < kk implies #[trigger] input[i] < 128 by {
                    if i > j {
                        assert(!op_stop(input, i));
                    }
                }
            }
            assert(pb(w)[0] == 61);
            assert(lex_at(input, j).0 == SpecTokenKind::Op(w));
            assert(wf_kind(SpecTokenKind::Op(w)));
        }
    } else if b == 46 {
    } else if is_digit(b) {
        let dpred = |x: u8| is_digit(x);
        let kk = scan_while(input, j, dpred);
        lemma_scan_while(input, j, dpred);
        if kk < input.len() && input[kk] == 46 && kk + 1 < input.len() && is_digit(input[kk + 1]) {
            let m = scan_while(input, kk + 2, dpred);
            lemma_scan_while(input, kk + 2, dpred);
            let w = text_of(input, j, m);
            lemma_payload_bytes(input, j, m);
            let d = kk - j;
            assert(pb(w)[d] == input[kk]);
            assert forall|i: int| 0 <= i < w.len() && i != d implies is_digit(
                #[trigger] pb(w)[i],
            ) by {
                assert(pb(w)[i] == input[j + i]);
                if i < d {
                    assert(dpred(input[j + i]));
                } else if j + i == kk + 1 {
                } else {
                    assert(dpred(input[j + i]));
                }
            }
            assert(ascii_chars(w)) by {
                assert forall|i: int| j <= i < m implies #[trigger] input[i] < 128 by {
                    if i < kk {
                        assert(dpred(input[i]));
                    } else if i == kk {
                    } else if i == kk + 1 {
                    } else {
                        assert(dpred(input[i]));
                    }
                }
            }
            assert({
                &&& 0 < d < w.len() - 1
                &&& #[trigger] pb(w)[d] == 46
                &&& (forall|i: int| 0 <= i < w.len() && i != d ==> is_digit(#[trigger] pb(w)[i]))
            });
            assert(lex_at(input, j).0 == SpecTokenKind::Dec(w));
            assert(wf_kind(SpecTokenKind::Dec(w)));
        } else {
            let w = text_of(input, j, kk);
            lemma_payload_bytes(input, j, kk);
            assert forall|i: int| 0 <= i < w.len() implies is_digit(#[trigger] pb(w)[i]) by {
                assert(pb(w)[i] == input[j + i]);
                assert(dpred(input[j + i]));
            }
            assert(ascii_chars(w)) by {
                assert forall|i: int| j <= i < kk implies #[trigger] input[i] < 128 by {
                    assert(dpred(input[i]));
                }
            }
            assert(lex_at(input, j).0 == SpecTokenKind::Int(w));
            assert(wf_kind(SpecTokenKind::Int(w)));
        }
    } else if is_op_byte(b) {
        let kk = scan_op(input, j);
        lemma_scan_op(input, j);
        assert(!op_stop(input, j));
        let w = text_of(input, j, kk);
        lemma_payload_bytes(input, j, kk);
        assert forall|i: int| 1 <= i < w.len() implies is_op_byte(#[trigger] pb(w)[i]) by {
            assert(pb(w)[i] == input[j + i]);
            assert(!op_stop(input, j + i));
        }
        assert forall|i: int| 0 <= i < w.len() implies !op_pair_at(pb(w), i) by {
            if i + 1 < w.len() {
                assert(pb(w)[i] == input[j + i]);
                assert(pb(w)[i + 1] == input[j + i + 1]);
                assert(!op_stop(input, j + i));
            }
        }
        assert(ascii_chars(w)) by {
            assert forall|i: int| j <= i < kk implies #[trigger] input[i] < 128 by {
                assert(!op_stop(input, i));
            }
        }
        assert(pb(w)[0] == input[j]);
        assert(lex_at(input, j).0 == SpecTokenKind::Op(w));
        assert(wf_kind(SpecTokenKind::Op(w)));
    } else if b == 35 {
        let kk = scan_op(input, j + 1);
        lemma_scan_op(input, j + 1);
        let w = text_of(input, j, kk);
        lemma_payload_bytes(input, j, kk);
        assert forall|i: int| 1 <= i < w.len() implies is_op_byte(#[trigger] pb(w)[i]) by {
            assert(pb(w)[i] == input[j + i]);
            assert(!op_stop(input, j + i));
        }
        assert forall|i: int| 0 <= i < w.len() implies !op_pair_at(pb(w), i) by {
            if i + 1 < w.len() {
                assert(pb(w)[i] == input[j + i]);
                assert(pb(w)[i + 1] == input[j + i + 1]);
                if i >= 1 {
                    assert(!op_stop(input, j + i));
                } else {
                    assert(pb(w)[0] == 35);
                }
            }
        }
        assert(ascii_chars(w)) by {
            assert forall|i: int| j <= i < kk implies #[trigger] input[i] < 128 by {
                if i > j {
                    assert(!op_stop(input, i));
                }
            }
        }
        assert(pb(w)[0] == 35);
        assert(lex_at(input, j).0 == SpecTokenKind::Op(w));
        assert(wf_kind(SpecTokenKind::Op(w)));
    } else if is_delim_byte(b) {
    } else if b == 34 {
    } else if is_upper(b) {
        let apred = |x: u8| is_alnum(x);
        let kk = scan_while(input, j, apred);
        lemma_scan_while(input, j, apred);
        let w = text_of(input, j, kk);
        lemma_payload_bytes(input, j, kk);
        assert forall|i: int| 0 <= i < w.len() implies is_alnum(#[trigger] pb(w)[i]) by {
            assert(pb(w)[i] == input[j + i]);
            assert(apred(input[j + i]));
        }
        assert(ascii_chars(w)) by {
            assert forall|i: int| j <= i < kk implies #[trigger] input[i] < 128 by {
                assert(apred(input[i]));
            }
        }
        assert(pb(w)[0] == input[j]);
        assert(lex_at(input, j).0 == SpecTokenKind::Type(w));
        assert(wf_kind(SpecTokenKind::Type(w)));
    } else if is_lower(b) || b == 95 {
        let ipred = |x: u8| is_id_byte(x);
        let kk = scan_while(input, j, ipred);
        lemma_scan_while(input, j, ipred);
        let w = text_of(input, j, kk);
        lemma_payload_bytes(input, j, kk);
        assert forall|i: int| 0 <= i < w.len() implies is_id_byte(#[trigger] pb(w)[i]) by {
            assert(pb(w)[i] == input[j + i]);
            assert(ipred(input[j + i]));
        }
        assert(ascii_chars(w)) by {
            assert forall|i: int| j <= i < kk implies #[trigger] input[i] < 128 by {
                assert(ipred(input[i]));
            }
        }
        assert(pb(w)[0] == input[j]);
        match word_token(w) {
            SpecTokenKind::Id(w2) => {
                lemma_keyword_never_id(w);
                assert(w2 == w);
                assert(wf_kind(SpecTokenKind::Id(w)));
            },
            _ => {},
        }
        assert(lex_at(input, j).0 == word_token(w));
        assert(wf_kind(word_token(w)));
    } else {
    }
}

} // verus!

verus! {

// ---------------------------------------------------------------------------
// Round trip, part 2: scanners on known runs.
// ---------------------------------------------------------------------------

proof fn lemma_scan_while_exact(s: Seq<u8>, i: int, j: int, pred: spec_fn(u8) -> bool)
    requires
        0 <= i <= j <= s.len(),
        forall|x: int| i <= x < j ==> pred(#[trigger] s[x]),
        j == s.len() || !pred(s[j]),
    ensures
        scan_while(s, i, pred) == j,
    decreases j - i,
{
    if i < j {
        lemma_scan_while_exact(s, i + 1, j, pred);
    }
}

proof fn lemma_scan_op_exact(s: Seq<u8>, i: int, j: int)
    requires
        0 <= i <= j <= s.len(),
        forall|x: int| i <= x < j ==> !op_stop(s, x),
        j == s.len() || op_stop(s, j),
    ensures
        scan_op(s, i) == j,
    decreases j - i,
{
    if i < j {
        lemma_scan_op_exact(s, i + 1, j);
    }
}

/// Trivia over a run of spaces ends at the first non-trivia byte.
proof fn lemma_ws_run_trivia(s: Seq<u8>, i: int, j: int)
    requires
        0 <= i <= j <= s.len(),
        forall|x: int| i <= x < j ==> is_ws(#[trigger] s[x]),
        j == s.len() || token_start_ok(s, j),
    ensures
        skip_trivia(s, i) == j,
    decreases j - i,
{
    if i < j {
        lemma_ws_run_trivia(s, i + 1, j);
    }
}

/// The bytes of one token kind's source text.
pub open spec fn kind_bytes(k: SpecTokenKind) -> Seq<u8> {
    pb(render_kind(k))
}

/// A kind the pretty printer can reproduce: anything but a string literal,
/// an invalid token, the end marker, and the degenerate operator `=` (which
/// the lexer spells out only when an operator ends right after an `=`).
pub open spec fn renderable(k: SpecTokenKind) -> bool {
    &&& wf_kind(k)
    &&& !(k is Str)
    &&& !(k is Invalid)
    &&& !(k is EOF)
    &&& (match k {
        SpecTokenKind::Op(w) => w != "="@,
        _ => true,
    })
}

} // verus!

verus! {

/// A word at position `p` lexes to its keyword or identifier token and ends
/// right after the word.
proof fn lemma_word_at(s: Seq<u8>, p: int, w: Seq<char>)
    requires
        0 <= p,
        p + w.len() <= s.len(),
        w.len() > 0,
        ascii_chars(w),
        s.subrange(p, p + w.len()) =~= pb(w),
        is_lower(pb(w)[0]) || pb(w)[0] == 95,
        forall|i: int| 0 <= i < w.len() ==> is_id_byte(#[trigger] pb(w)[i]),
        p + w.len() == s.len() || !is_id_byte(s[p + w.len()]),
    ensures
        lex_at(s, p) == (word_token(w), p + w.len()),
{
    let e = p + w.len();
    assert(s[p] == pb(w)[0]) by {
        assert(s.subrange(p, e)[0] == s[p]);
    }
    assert forall|x: int| p <= x < e implies is_id_byte(#[trigger] s[x]) by {
        assert(s.subrange(p, e)[x - p] == s[x]);
    }
    lemma_scan_while_exact(s, p, e, |x: u8| is_id_byte(x));
    lemma_chars_bytes_roundtrip(w);
    assert(text_of(s, p, e) =~= w) by {
        assert(text_of(s, p, e) == chars_of_bytes(s.subrange(p, e)));
        assert(chars_of_bytes(s.subrange(p, e)) =~= chars_of_bytes(pb(w)));
    }
}

/// A renderable token's text at position `p`, followed by whitespace or the
/// end of input, lexes back to exactly that token.
#[verifier::rlimit(100)]
#[verifier::spinoff_prover]
proof fn lemma_kind_relex(s: Seq<u8>, p: int, k: SpecTokenKind)
    requires
        renderable(k),
        0 <= p,
        p + kind_bytes(k).len() <= s.len(),
        s.subrange(p, p + kind_bytes(k).len()) =~= kind_bytes(k),
        p + kind_bytes(k).len() == s.len() || is_ws(s[p + kind_bytes(k).len()]),
    ensures
        lex_at(s, p) == (k, p + kind_bytes(k).len()),
{
    let e = p + kind_bytes(k).len();
    reveal_strlit("true");
    reveal_strlit("false");
    reveal_strlit("pub");
    reveal_strlit("alias");
    reveal_strlit("newtype");
    reveal_strlit("struct");
    reveal_strlit("union");
    reveal_strlit("enum");
    reveal_strlit("trait");
    reveal_strlit("impl");
    reveal_strlit("of");
    reveal_strlit("for");
    reveal_strlit("var");
    reveal_strlit("let");
    reveal_strlit("def");
    reveal_strlit("virt");
    reveal_strlit("pure");
    reveal_strlit("macro");
    reveal_strlit("extern");
    reveal_strlit("return");
    reveal_strlit("break");
    reveal_strlit("continue");
    reveal_strlit("do");
    assert forall|x: int| p <= x < e implies #[trigger] s[x] == kind_bytes(k)[x - p] by {
        assert(s.subrange(p, e)[x - p] == s[x]);
    }
    match k {
        SpecTokenKind::Bool(true) => {
            reveal_strlit("true");
            assert(render_kind(k) == "true"@);
            assert("true"@ =~= seq!['t', 'r', 'u', 'e']);
            assert(pb("true"@) =~= seq![116u8, 114u8, 117u8, 101u8]);
            assert(ascii_chars("true"@));
            lemma_word_at(s, p, "true"@);
            assert(word_token("true"@) == k);
        },
        SpecTokenKind::Bool(false) => {
            reveal_strlit("false");
            assert(render_kind(k) == "false"@);
            assert("false"@ =~= seq!['f', 'a', 'l', 's', 'e']);
            assert(pb("false"@) =~= seq![102u8, 97u8, 108u8, 115u8, 101u8]);
            assert(ascii_chars("false"@));
            lemma_word_at(s, p, "false"@);
            assert(word_token("false"@) == k);
        },
        SpecTokenKind::Pub => {
            reveal_strlit("pub");
            assert(render_kind(k) == "pub"@);
            assert("pub"@ =~= seq!['p', 'u', 'b']);
            assert(pb("pub"@) =~= seq![112u8, 117u8, 98u8]);
            assert(ascii_chars("pub"@));
            lemma_word_at(s, p, "pub"@);
            assert(word_token("pub"@) == k);
        },
        SpecTokenKind::Alias => {
            reveal_strlit("alias");
            assert(render_kind(k) == "alias"@);
            assert("alias"@ =~= seq!['a', 'l', 'i', 'a', 's']);
            assert(pb("alias"@) =~= seq![97u8, 108u8, 105u8, 97u8, 115u8]);
            assert(ascii_chars("alias"@));
            lemma_word_at(s, p, "alias"@);
            assert(word_token("alias"@) == k);
        },
        SpecTokenKind::Newtype => {
            reveal_strlit("newtype");
            assert(render_kind(k) == "newtype"@);
            assert("newtype"@ =~= seq!['n', 'e', 'w', 't', 'y', 'p', 'e']);
            assert(pb("newtype"@) =~= seq![110u8, 101u8, 119u8, 116u8, 121u8, 112u8, 101u8]);
            assert(ascii_chars("newtype"@));
            lemma_word_at(s, p, "newtype"@);
            assert(word_token("newtype"@) == k);
        },
        SpecTokenKind::Struct => {
            reveal_strlit("struct");
            assert(render_kind(k) == "struct"@);
            assert("struct"@ =~= seq!['s', 't', 'r', 'u', 'c', 't']);
            assert(pb("struct"@) =~= seq![115u8, 116u8, 114u8, 117u8, 99u8, 116u8]);
            assert(ascii_chars("struct"@));
            lemma_word_at(s, p, "struct"@);
            assert(word_token("struct"@) == k);
        },
        SpecTokenKind::Union => {
            reveal_strlit("union");
            assert(render_kind(k) == "union"@);
            assert("union"@ =~= seq!['u', 'n', 'i', 'o', 'n']);
            assert(pb("union"@) =~= seq![117u8, 110u8, 105u8, 111u8, 110u8]);
            assert(ascii_chars("union"@));
            lemma_word_at(s, p, "union"@);
            assert(word_token("union"@) == k);
        },
        SpecTokenKind::Enum => {
            reveal_strlit("enum");
            assert(render_kind(k) == "enum"@);
            assert("enum"@ =~= seq!['e', 'n', 'u', 'm']);
            assert(pb("enum"@) =~= seq![101u8, 110u8, 117u8, 109u8]);
            assert(ascii_chars("enum"@));
            lemma_word_at(s, p, "enum"@);
            assert(word_token("enum"@) == k);
        },
        SpecTokenKind::Trait => {
            reveal_strlit("trait");
            assert(render_kind(k) == "trait"@);
            assert("trait"@ =~= seq!['t', 'r', 'a', 'i', 't']);
            assert(pb("trait"@) =~= seq![116u8, 114u8, 97u8, 105u8, 116u8]);
            assert(ascii_chars("trait"@));
            lemma_word_at(s, p, "trait"@);
            assert(word_token("trait"@) == k);
        },
        SpecTokenKind::Impl => {
            reveal_strlit("impl");
            assert(render_kind(k) == "impl"@);
            assert("impl"@ =~= seq!['i', 'm', 'p', 'l']);
            assert(pb("impl"@) =~= seq![105u8, 109u8, 112u8, 108u8]);
            assert(ascii_chars("impl"@));
            lemma_word_at(s, p, "impl"@);
            assert(word_token("impl"@) == k);
        },
        SpecTokenKind::Of => {
            reveal_strlit("of");
            assert(render_kind(k) == "of"@);
            assert("of"@ =~= seq!['o', 'f']);
            assert(pb("of"@) =~= seq![111u8, 102u8]);
            assert(ascii_chars("of"@));
            lemma_word_at(s, p, "of"@);
            assert(word_token("of"@) == k);
        },
        SpecTokenKind::For => {
            reveal_strlit("for");
            assert(render_kind(k) == "for"@);
            assert("for"@ =~= seq!['f', 'o', 'r']);
            assert(pb("for"@) =~= seq![102u8, 111u8, 114u8]);
            assert(ascii_chars("for"@));
            lemma_word_at(s, p, "for"@);
            assert(word_token("for"@) == k);
        },
        SpecTokenKind::Var => {
            reveal_strlit("var");
            assert(render_kind(k) == "var"@);
            assert("var"@ =~= seq!['v', 'a', 'r']);
            assert(pb("var"@) =~= seq![118u8, 97u8, 114u8]);
            assert(ascii_chars("var"@));
            lemma_word_at(s, p, "var"@);
            assert(word_token("var"@) == k);
        },
        SpecTokenKind::Let => {
            reveal_strlit("let");
            assert(render_kind(k) == "let"@);
            assert("let"@ =~= seq!['l', 'e', 't']);
            assert(pb("let"@) =~= seq![108u8, 101u8, 116u8]);
            assert(ascii_chars("let"@));
            lemma_word_at(s, p, "let"@);
            assert(word_token("let"@) == k);
        },
        SpecTokenKind::Def => {
            reveal_strlit("def");
            assert(render_kind(k) == "def"@);
            assert("def"@ =~= seq!['d', 'e', 'f']);
            assert(pb("def"@) =~= seq![100u8, 101u8, 102u8]);
            assert(ascii_chars("def"@));
            lemma_word_at(s, p, "def"@);
            assert(word_token("def"@) == k);
        },
        SpecTokenKind::Virt => {
            reveal_strlit("virt");
            assert(render_kind(k) == "virt"@);
            assert("virt"@ =~= seq!['v', 'i', 'r', 't']);
            assert(pb("virt"@) =~= seq![118u8, 105u8, 114u8, 116u8]);
            assert(ascii_chars("virt"@));
            lemma_word_at(s, p, "virt"@);
            assert(word_token("virt"@) == k);
        },
        SpecTokenKind::Pure => {
            reveal_strlit("pure");
            assert(render_kind(k) == "pure"@);
            assert("pure"@ =~= seq!['p', 'u', 'r', 'e']);
            assert(pb("pure"@) =~= seq![112u8, 117u8, 114u8, 101u8]);
            assert(ascii_chars("pure"@));
            lemma_word_at(s, p, "pure"@);
            assert(word_token("pure"@) == k);
        },
        SpecTokenKind::Macro => {
            reveal_strlit("macro");
            assert(render_kind(k) == "macro"@);
            assert("macro"@ =~= seq!['m', 'a', 'c', 'r', 'o']);
            assert(pb("macro"@) =~= seq![109u8, 97u8, 99u8, 114u8, 111u8]);
            assert(ascii_chars("macro"@));
            lemma_word_at(s, p, "macro"@);
            assert(word_token("macro"@) == k);
        },
        SpecTokenKind::Extern => {
            reveal_strlit("extern");
            assert(render_kind(k) == "extern"@);
            assert("extern"@ =~= seq!['e', 'x', 't', 'e', 'r', 'n']);
            assert(pb("extern"@) =~= seq![101u8, 120u8, 116u8, 101u8, 114u8, 110u8]);
            assert(ascii_chars("extern"@));
            lemma_word_at(s, p, "extern"@);
            assert(word_token("extern"@) == k);
        },
        SpecTokenKind::Return => {
            reveal_strlit("return");
            assert(render_kind(k) == "return"@);
            assert("return"@ =~= seq!['r', 'e', 't', 'u', 'r', 'n']);
            assert(pb("return"@) =~= seq![114u8, 101u8, 116u8, 117u8, 114u8, 110u8]);
            assert(ascii_chars("return"@));
            lemma_word_at(s, p, "return"@);
            assert(word_token("return"@) == k);
        },
        SpecTokenKind::Break => {
            reveal_strlit("break");
            assert(render_kind(k) == "break"@);
            assert("break"@ =~= seq!['b', 'r', 'e', 'a', 'k']);
            assert(pb("break"@) =~= seq![98u8, 114u8, 101u8, 97u8, 107u8]);
            assert(ascii_chars("break"@));
            lemma_word_at(s, p, "break"@);
            assert(word_token("break"@) == k);
        },
        SpecTokenKind::Continue => {
            reveal_strlit("continue");
            assert(render_kind(k) == "continue"@);
            assert("continue"@ =~= seq!['c', 'o', 'n', 't', 'i', 'n', 'u', 'e']);
            assert(pb("continue"@) =~= seq![99u8, 111u8, 110u8, 116u8, 105u8, 110u8, 117u8, 101u8]);
            assert(ascii_chars("continue"@));
            lemma_word_at(s, p, "continue"@);
            assert(word_token("continue"@) == k);
        },
        SpecTokenKind::Do => {
            reveal_strlit("do");
            assert(render_kind(k) == "do"@);
            assert("do"@ =~= seq!['d', 'o']);
            assert(pb("do"@) =~= seq![100u8, 111u8]);
            assert(ascii_chars("do"@));
            lemma_word_at(s, p, "do"@);
            assert(word_token("do"@) == k);
        },
        SpecTokenKind::Comma => {
            reveal_strlit(",");
            assert(pb(","@) =~= seq![44u8]);
            assert(s[p] == 44);
        },
        SpecTokenKind::Colon => {
            reveal_strlit(":");
            assert(pb(":"@) =~= seq![58u8]);
            assert(s[p] == 58);
        },
        SpecTokenKind::Semicolon => {
            reveal_strlit(";");
            assert(pb(";"@) =~= seq![59u8]);
            assert(s[p] == 59);
        },
        SpecTokenKind::OpenParen => {
            reveal_strlit("(");
            assert(pb("("@) =~= seq![40u8]);
            assert(s[p] == 40);
        },
        SpecTokenKind::CloseParen => {
            reveal_strlit(")");
            assert(pb(")"@) =~= seq![41u8]);
            assert(s[p] == 41);
        },
        SpecTokenKind::OpenSquare => {
            reveal_strlit("[");
            assert(pb("["@) =~= seq![91u8]);
            assert(s[p] == 91);
        },
        SpecTokenKind::CloseSquare => {
            reveal_strlit("]");
            assert(pb("]"@) =~= seq![93u8]);
            assert(s[p] == 93);
        },
        SpecTokenKind::OpenBracket => {
            reveal_strlit("{");
            assert(pb("{"@) =~= seq![123u8]);
            assert(s[p] == 123);
        },
        SpecTokenKind::CloseBracket => {
            reveal_strlit("}");
            assert(pb("}"@) =~= seq![125u8]);
            assert(s[p] == 125);
        },
        SpecTokenKind::Arrow => {
            reveal_strlit("->");
            assert(pb("->"@) =~= seq![45u8, 62u8]);
            assert(s[p] == 45 && s[p + 1] == 62);
        },
        SpecTokenKind::Equal => {
            reveal_strlit("=");
            assert(pb("="@) =~= seq![61u8]);
            assert(s[p] == 61);
            if p + 1 < s.len() {
                assert(!is_op_byte(s[p + 1]));
            }
        },
        SpecTokenKind::Dot => {
            reveal_strlit(".");
            assert(pb("."@) =~= seq![46u8]);
            assert(s[p] == 46);
        },
        SpecTokenKind::Id(w) => {
            lemma_word_at(s, p, w);
        },
        SpecTokenKind::Type(w) => {
            assert(s[p] == pb(w)[0]);
            assert forall|x: int| p <= x < e implies is_alnum(#[trigger] s[x]) by {
                assert(s[x] == pb(w)[x - p]);
            }
            lemma_scan_while_exact(s, p, e, |x: u8| is_alnum(x));
            lemma_chars_bytes_roundtrip(w);
            assert(text_of(s, p, e) =~= w) by {
                assert(text_of(s, p, e) == chars_of_bytes(s.subrange(p, e)));
                assert(chars_of_bytes(s.subrange(p, e)) =~= chars_of_bytes(pb(w)));
            }
        },
        SpecTokenKind::Int(w) => {
            assert(s[p] == pb(w)[0]);
            assert forall|x: int| p <= x < e implies is_digit(#[trigger] s[x]) by {
                assert(s[x] == pb(w)[x - p]);
            }
            lemma_scan_while_exact(s, p, e, |x: u8| is_digit(x));
            lemma_chars_bytes_roundtrip(w);
            assert(text_of(s, p, e) =~= w) by {
                assert(text_of(s, p, e) == chars_of_bytes(s.subrange(p, e)));
                assert(chars_of_bytes(s.subrange(p, e)) =~= chars_of_bytes(pb(w)));
            }
        },
        SpecTokenKind::Dec(w) => {
            let d = choose|d: int|
                {
                    &&& 0 < d < w.len() - 1
                    &&& #[trigger] pb(w)[d] == 46
                    &&& (forall|i: int| 0 <= i < w.len() && i != d ==> is_digit(#[trigger] pb(w)[i]))
                };
            assert(s[p] == pb(w)[0]);
            assert forall|x: int| p <= x < p + d implies is_digit(#[trigger] s[x]) by {
                assert(s[x] == pb(w)[x - p]);
            }
            assert(s[p + d] == 46);
            lemma_scan_while_exact(s, p, p + d, |x: u8| is_digit(x));
            assert(is_digit(s[p + d + 1])) by {
                assert(s[p + d + 1] == pb(w)[d + 1]);
            }
            assert forall|x: int| p + d + 2 <= x < e implies is_digit(#[trigger] s[x]) by {
                assert(s[x] == pb(w)[x - p]);
            }
            lemma_scan_while_exact(s, p + d + 2, e, |x: u8| is_digit(x));
            lemma_chars_bytes_roundtrip(w);
            assert(text_of(s, p, e) =~= w) by {
                assert(text_of(s, p, e) == chars_of_bytes(s.subrange(p, e)));
                assert(chars_of_bytes(s.subrange(p, e)) =~= chars_of_bytes(pb(w)));
            }
        },
        SpecTokenKind::Op(w) => {
            let b0 = pb(w)[0];
            assert(s[p] == b0);
            assert forall|x: int| p < x < e implies is_op_byte(#[trigger] s[x]) by {
                assert(s[x] == pb(w)[x - p]);
            }
            assert forall|x: int| p < x < e implies !op_stop(s, x) by {
                assert(s[x] == pb(w)[x - p]);
                if x + 1 < e {
                    assert(s[x + 1] == pb(w)[x + 1 - p]);
                    assert(!op_pair_at(pb(w), x - p));
                }
            }
            lemma_chars_bytes_roundtrip(w);
            assert(text_of(s, p, e) =~= w) by {
                assert(text_of(s, p, e) == chars_of_bytes(s.subrange(p, e)));
                assert(chars_of_bytes(s.subrange(p, e)) =~= chars_of_bytes(pb(w)));
            }
            if b0 == 35 {
                lemma_scan_op_exact(s, p + 1, e);
                assert(!(is_op_byte(b0)));
            } else if b0 == 61 {
                if w.len() == 1 {
                    reveal_strlit("=");
                    assert(w =~= "="@) by {
                        assert(w[0] as int == 61);
                        assert("="@.len() == 1 && "="@[0] == '=');
                    }
                    assert(false);
                }
                assert(is_op_byte(s[p + 1])) by {
                    assert(s[p + 1] == pb(w)[1]);
                }
                lemma_scan_op_exact(s, p + 1, e);
            } else {
                assert(!op_pair_at(pb(w), 0));
                if p + 1 < s.len() && w.len() >= 2 {
                    assert(s[p + 1] == pb(w)[1]);
                }
                assert(!(b0 == 45 && p + 1 < s.len() && s[p + 1] == 62));
                assert(!op_stop(s, p));
                lemma_scan_op_exact(s, p, e);
            }
        },
        _ => {
            assert(false);
        },
    }
}

} // verus!

verus! {

/// Mapping characters to bytes distributes over concatenation.
proof fn lemma_pb_concat(a: Seq<char>, b: Seq<char>)
    ensures
        pb(a + b) =~= pb(a) + pb(b),
{
    assert forall|i: int| 0 <= i < a.len() + b.len() implies pb(a + b)[i] == (pb(a) + pb(b))[i] by {
        if i < a.len() {
            assert((a + b)[i] == a[i]);
        } else {
            assert((a + b)[i] == b[i - a.len()]);
        }
    }
}

/// Indentation is spaces only.
proof fn lemma_indent_spaces(n: int)
    ensures
        forall|i: int| 0 <= i < indent_chars(n).len() ==> #[trigger] pb(indent_chars(n))[i] == 32,
    decreases n,
{
    reveal_strlit("    ");
    if n > 0 {
        lemma_indent_spaces(n - 1);
        assert forall|i: int| 0 <= i < indent_chars(n).len() implies #[trigger] pb(
            indent_chars(n),
        )[i] == 32 by {
            assert(indent_chars(n) == indent_chars(n - 1) + "    "@);
            if i < indent_chars(n - 1).len() {
                assert(indent_chars(n)[i] == indent_chars(n - 1)[i]);
                assert(pb(indent_chars(n - 1))[i] == 32);
            } else {
                assert(indent_chars(n)[i] == "    "@[i - indent_chars(n - 1).len()]);
            }
        }
    }
}

/// A renderable token's text is nonempty, starts with a byte no trivia
/// skipper stops in, and never opens a comment.
#[verifier::rlimit(100)]
#[verifier::spinoff_prover]
proof fn lemma_kind_head(k: SpecTokenKind)
    requires
        renderable(k),
    ensures
        kind_bytes(k).len() > 0,
        !is_ws(kind_bytes(k)[0]),
        kind_bytes(k)[0] == 47 ==> kind_bytes(k).len() == 1 || (kind_bytes(k)[1] != 47
            && kind_bytes(k)[1] != 42),
{
    reveal_strlit("true");
    reveal_strlit("false");
    reveal_strlit("pub");
    reveal_strlit("alias");
    reveal_strlit("newtype");
    reveal_strlit("struct");
    reveal_strlit("union");
    reveal_strlit("enum");
    reveal_strlit("trait");
    reveal_strlit("impl");
    reveal_strlit("of");
    reveal_strlit("for");
    reveal_strlit("var");
    reveal_strlit("let");
    reveal_strlit("def");
    reveal_strlit("virt");
    reveal_strlit("pure");
    reveal_strlit("macro");
    reveal_strlit("extern");
    reveal_strlit("return");
    reveal_strlit("break");
    reveal_strlit("continue");
    reveal_strlit("do");
    reveal_strlit("->");
    reveal_strlit("=");
    reveal_strlit(".");
    reveal_strlit(",");
    reveal_strlit(":");
    reveal_strlit(";");
    reveal_strlit("(");
    reveal_strlit(")");
    reveal_strlit("[");
    reveal_strlit("]");
    reveal_strlit("{");
    reveal_strlit("}");
    match k {
        SpecTokenKind::Id(w) => {
            assert(kind_bytes(k) == pb(w));
        },
        SpecTokenKind::Type(w) => {
            assert(kind_bytes(k) == pb(w));
        },
        SpecTokenKind::Int(w) => {
            assert(kind_bytes(k) == pb(w));
        },
        SpecTokenKind::Dec(w) => {
            let d = choose|d: int|
                {
                    &&& 0 < d < w.len() - 1
                    &&& #[trigger] pb(w)[d] == 46
                    &&& (forall|i: int| 0 <= i < w.len() && i != d ==> is_digit(#[trigger] pb(w)[i]))
                };
            assert(is_digit(pb(w)[0]));
        },
        SpecTokenKind::Op(w) => {
            assert(kind_bytes(k) == pb(w));
            if pb(w)[0] == 47 && w.len() >= 2 {
                assert(!op_pair_at(pb(w), 0));
            }
        },
        _ => {},
    }
}

/// Re-lexing the rendering of renderable tokens gives the same kinds back,
/// from any render position.
#[verifier::rlimit(100)]
#[verifier::spinoff_prover]
proof fn lemma_render_relex(
    s: Seq<u8>,
    ks: Seq<SpecTokenKind>,
    idx: int,
    ind: int,
    nl: bool,
    q: int,
)
    requires
        0 <= idx <= ks.len(),
        forall|x: int| idx <= x < ks.len() ==> renderable(#[trigger] ks[x]),
        0 <= q <= s.len(),
        s.skip(q) =~= pb(render_from(ks, idx, ind, nl)),
    ensures
        kinds_of(upcoming_at(s, q)) =~= ks.skip(idx),
    decreases ks.len() - idx,
{
    reveal_strlit("{\n");
    reveal_strlit("}\n");
    reveal_strlit(";\n");
    reveal_strlit("\n");
    reveal_strlit(" ");
    reveal_strlit("{");
    reveal_strlit("}");
    reveal_strlit(";");
    if idx >= ks.len() {
        assert(render_from(ks, idx, ind, nl) =~= Seq::<char>::empty());
        assert(s.skip(q).len() == 0);
        assert(q == s.len());
        assert(skip_trivia(s, q) == q);
        assert(upcoming_at(s, q) =~= Seq::<SpecToken>::empty());
        assert(kinds_of(upcoming_at(s, q)) =~= ks.skip(idx));
    } else {
        let k0 = ks[idx];
        let stp = render_step(k0, ind, nl);
        let rest = render_from(ks, idx + 1, stp.1, stp.2);
        assert(render_from(ks, idx, ind, nl) == stp.0 + rest);
        // The step text is padding, the token text, and one separator.
        let pad = if nl {
            match k0 {
                SpecTokenKind::CloseBracket => indent_chars(ind - 1),
                _ => indent_chars(ind),
            }
        } else {
            Seq::<char>::empty()
        };
        let sep = match k0 {
            SpecTokenKind::OpenBracket => "\n"@,
            SpecTokenKind::CloseBracket => "\n"@,
            SpecTokenKind::Semicolon => "\n"@,
            _ => " "@,
        };
        assert(stp.0 =~= pad + render_kind(k0) + sep) by {
            match k0 {
                SpecTokenKind::OpenBracket => {
                    assert("{\n"@ =~= "{"@ + "\n"@);
                },
                SpecTokenKind::CloseBracket => {
                    assert("}\n"@ =~= "}"@ + "\n"@);
                },
                SpecTokenKind::Semicolon => {
                    assert(";\n"@ =~= ";"@ + "\n"@);
                },
                _ => {},
            }
        }
        let kb = kind_bytes(k0);
        lemma_pb_concat(pad + render_kind(k0) + sep, rest);
        lemma_pb_concat(pad + render_kind(k0), sep);
        lemma_pb_concat(pad, render_kind(k0));
        let padlen = pad.len() as int;
        let p0 = q + padlen;
        let e0 = p0 + kb.len() as int;
        assert(s.skip(q) =~= (pb(pad) + kb + pb(sep)) + pb(rest));
        assert(sep.len() == 1);
        assert(pb(sep)[0] == 10 || pb(sep)[0] == 32);
        assert forall|x: int| q <= x < s.len() implies #[trigger] s[x] == s.skip(q)[x - q] by {}
        lemma_indent_spaces(ind);
        lemma_indent_spaces(ind - 1);
        lemma_kind_head(k0);
        assert forall|x: int| q <= x < p0 implies is_ws(#[trigger] s[x]) by {
            assert(s[x] == s.skip(q)[x - q]);
            assert(s.skip(q)[x - q] == pb(pad)[x - q]);
        }
        assert(e0 < s.len());
        assert(s[p0] == kb[0]) by {
            assert(s[p0] == s.skip(q)[padlen]);
        }
        assert(s[e0] == pb(sep)[0]) by {
            assert(s[e0] == s.skip(q)[padlen + kb.len()]);
        }
        assert(token_start_ok(s, p0)) by {
            if kb[0] == 47 {
                if kb.len() == 1 {
                    assert(s[p0 + 1] == pb(sep)[0]);
                } else {
                    assert(s[p0 + 1] == kb[1]) by {
                        assert(s[p0 + 1] == s.skip(q)[padlen + 1]);
                    }
                }
            }
        }
        lemma_ws_run_trivia(s, q, p0);
        assert(s.subrange(p0, e0) =~= kb) by {
            assert forall|x: int| 0 <= x < kb.len() implies s.subrange(p0, e0)[x] == kb[x] by {
                assert(s.subrange(p0, e0)[x] == s[p0 + x]);
                assert(s[p0 + x] == s.skip(q)[padlen + x]);
            }
        }
        lemma_kind_relex(s, p0, k0);
        assert(next_kind_at(s, q) == (k0, e0));
        assert(!(k0 is EOF));
        lemma_next_token_advances(s, q);
        assert(upcoming_at(s, q) =~= seq![next_token_at(s, q).0] + upcoming_at(s, e0));
        // One separator byte of whitespace is trivia.
        assert(is_ws(s[e0]));
        assert(skip_trivia(s, e0) == skip_trivia(s, e0 + 1));
        assert(next_token_at(s, e0) == next_token_at(s, e0 + 1));
        assert(upcoming_at(s, e0) =~= upcoming_at(s, e0 + 1)) by {
            lemma_next_token_advances(s, e0);
            lemma_next_token_advances(s, e0 + 1);
        }
        assert(s.skip(e0 + 1) =~= pb(rest)) by {
            assert forall|x: int| 0 <= x < s.len() - e0 - 1 implies s.skip(e0 + 1)[x] == pb(
                rest,
            )[x] by {
                assert(s.skip(e0 + 1)[x] == s.skip(q)[x + padlen + kb.len() + 1]);
            }
        }
        lemma_render_relex(s, ks, idx + 1, stp.1, stp.2, e0 + 1);
        assert(kinds_of(upcoming_at(s, q)) =~= ks.skip(idx)) by {
            assert(kinds_of(upcoming_at(s, e0 + 1)) =~= ks.skip(idx + 1));
            assert forall|x: int| 0 <= x < upcoming_at(s, q).len() implies kinds_of(
                upcoming_at(s, q),
            )[x] == ks.skip(idx)[x] by {
                if x == 0 {
                    assert(upcoming_at(s, q)[0].kind == k0);
                } else {
                    assert(upcoming_at(s, q)[x] == upcoming_at(s, e0 + 1)[x - 1]);
                    assert(kinds_of(upcoming_at(s, e0 + 1))[x - 1] == ks.skip(idx + 1)[x - 1]);
                }
            }
        }
    }
}

} // verus!

verus! {

/// Every token in the upcoming stream has a well-formed payload.
pub proof fn lemma_upcoming_wf(input: Seq<u8>, i: int)
    ensures
        forall|x: int|
            0 <= x < upcoming_at(input, i).len() ==> wf_kind(
                (#[trigger] upcoming_at(input, i)[x]).kind,
            ),
    decreases input.len() - i,
{
    if 0 <= i <= input.len() {
        let (t, e) = next_token_at(input, i);
        lemma_next_token_advances(input, i);
        if !(t.kind is EOF) && i < e <= input.len() {
            lemma_upcoming_wf(input, e);
            lemma_skip_trivia_bounds(input, i);
            let j = skip_trivia(input, i);
            lemma_lexed_kind_wf(input, j);
            assert forall|x: int|
                0 <= x < upcoming_at(input, i).len() implies wf_kind(
                (#[trigger] upcoming_at(input, i)[x]).kind,
            ) by {
                if x == 0 {
                    assert(upcoming_at(input, i)[0] == t);
                } else {
                    assert(upcoming_at(input, i)[x] == upcoming_at(input, e)[x - 1]);
                }
            }
        }
    }
}

/// Round trip: the tokens of a source, pretty-printed and tokenized again,
/// come back as the same sequence of token kinds. This holds of every token
/// stream free of string literals, invalid tokens, and the degenerate
/// operator `=`, whose printed forms are not their source spellings.
pub proof fn lemma_pretty_print_round_trip(input: Seq<u8>)
    requires
        forall|x: int|
            0 <= x < kinds_of(upcoming_at(input, 0)).len() ==> {
                let k = #[trigger] kinds_of(upcoming_at(input, 0))[x];
                &&& !(k is Str)
                &&& !(k is Invalid)
                &&& (match k {
                    SpecTokenKind::Op(w) => w != "="@,
                    _ => true,
                })
            },
    ensures
        kinds_of(
            upcoming_at(pb(render_tokens(kinds_of(upcoming_at(input, 0)))), 0),
        ) =~= kinds_of(upcoming_at(input, 0)),
{
    let ks = kinds_of(upcoming_at(input, 0));
    lemma_upcoming_wf(input, 0);
    lemma_upcoming_at_non_eof(input, 0);
    assert forall|x: int| 0 <= x < ks.len() implies renderable(#[trigger] ks[x]) by {
        assert(ks[x] == kinds_of(upcoming_at(input, 0))[x]);
        assert(ks[x] == upcoming_at(input, 0)[x].kind);
        assert(wf_kind(upcoming_at(input, 0)[x].kind));
        assert(!(upcoming_at(input, 0)[x].kind is EOF));
    }
    let s = pb(render_tokens(ks));
    assert(s.skip(0) =~= pb(render_from(ks, 0, 0, true)));
    lemma_render_relex(s, ks, 0, 0, true, 0);
    assert(ks.skip(0) =~= ks);
}

} // verus!
