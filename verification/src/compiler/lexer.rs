//! Lexer for the source language: raw text to a token stream.
//!
//! `lex` below is the mathematical model of lexing: it walks the character
//! sequence and yields the sequence of tokens, terminated by an end-of-input
//! token. `tokenize` is the executable lexer, proved to return exactly the
//! tokens of the model. Identifiers and keywords are ASCII; characters the
//! language does not know are dropped, not reported.

use vstd::prelude::*;
use vstd::string::StrSliceExecFns;
use crate::strutil::{str_eq, push_char};

verus! {

#[derive(Debug, Clone, Copy, PartialEq, Eq, Structural)]
pub enum TokenType {
    // Keywords
    Fn,
    Type,
    Class,
    Import,
    Let,
    Return,
    Prompt,
    Meaning,
    // Literals
    StringLit,
    IntLit,
    FloatLit,
    BoolLit,
    Identifier,
    // Symbols
    LeftParen,
    RightParen,
    LeftBrace,
    RightBrace,
    LeftAngle,
    RightAngle,
    Semicolon,
    Colon,
    Equals,
    Comma,
    Arrow,
    // Special
    Eof,
    Error,
}

#[derive(Debug, Clone)]
pub struct Token {
    pub token_type: TokenType,
    pub value: String,
    pub line: usize,
    pub column: usize,
}

/// The mathematical content of a token: its kind, text and position.
pub struct TokenView {
    pub kind: TokenType,
    pub text: Seq<char>,
    pub line: int,
    pub col: int,
}

impl View for Token {
    type V = TokenView;

    open spec fn view(&self) -> TokenView {
        TokenView {
            kind: self.token_type,
            text: self.value@,
            line: self.line as int,
            col: self.column as int,
        }
    }
}

pub open spec fn token_views(ts: Seq<Token>) -> Seq<TokenView> {
    ts.map_values(|t: Token| t@)
}

// ---------------------------------------------------------------------------
// Character classes
// ---------------------------------------------------------------------------

pub open spec fn is_space_char(c: char) -> bool {
    c == ' ' || c == '\t' || c == '\r'
}

pub open spec fn is_symbol_char(c: char) -> bool {
    c == '(' || c == ')' || c == '{' || c == '}' || c == '<' || c == '>' || c == ';' || c == ':'
        || c == '=' || c == ','
}

pub open spec fn symbol_kind(c: char) -> TokenType {
    if c == '(' {
        TokenType::LeftParen
    } else if c == ')' {
        TokenType::RightParen
    } else if c == '{' {
        TokenType::LeftBrace
    } else if c == '}' {
        TokenType::RightBrace
    } else if c == '<' {
        TokenType::LeftAngle
    } else if c == '>' {
        TokenType::RightAngle
    } else if c == ';' {
        TokenType::Semicolon
    } else if c == ':' {
        TokenType::Colon
    } else if c == '=' {
        TokenType::Equals
    } else {
        TokenType::Comma
    }
}

pub open spec fn is_digit_char(c: char) -> bool {
    '0' <= c && c <= '9'
}

pub open spec fn is_ident_start_char(c: char) -> bool {
    ('a' <= c && c <= 'z') || ('A' <= c && c <= 'Z') || c == '_'
}

pub open spec fn is_ident_char(c: char) -> bool {
    is_ident_start_char(c) || is_digit_char(c)
}

/// Classifies a maximal identifier run against the keyword table.
pub open spec fn keyword_kind(t: Seq<char>) -> TokenType {
    if t == "fn"@ {
        TokenType::Fn
    } else if t == "type"@ {
        TokenType::Type
    } else if t == "class"@ {
        TokenType::Class
    } else if t == "import"@ {
        TokenType::Import
    } else if t == "let"@ {
        TokenType::Let
    } else if t == "return"@ {
        TokenType::Return
    } else if t == "prompt"@ {
        TokenType::Prompt
    } else if t == "Meaning"@ {
        TokenType::Meaning
    } else if t == "true"@ || t == "false"@ {
        TokenType::BoolLit
    } else {
        TokenType::Identifier
    }
}

// ---------------------------------------------------------------------------
// Scanning helpers of the model
// ---------------------------------------------------------------------------

/// First position at or after `i` whose character is no identifier character.
pub open spec fn scan_ident_end(s: Seq<char>, i: int) -> int
    decreases s.len() - i,
{
    if 0 <= i < s.len() && is_ident_char(s[i]) {
        scan_ident_end(s, i + 1)
    } else {
        i
    }
}

/// End of a numeric literal that starts at `i`, taking digits and at most
/// one decimal point; `seen_dot` says whether the point was already taken.
pub open spec fn scan_number_end(s: Seq<char>, i: int, seen_dot: bool) -> int
    decreases s.len() - i,
{
    if 0 <= i < s.len() && is_digit_char(s[i]) {
        scan_number_end(s, i + 1, seen_dot)
    } else if 0 <= i < s.len() && s[i] == '.' && !seen_dot {
        scan_number_end(s, i + 1, true)
    } else {
        i
    }
}

/// Whether the numeric literal starting at `i` takes a decimal point.
pub open spec fn number_has_dot(s: Seq<char>, i: int, seen_dot: bool) -> bool
    decreases s.len() - i,
{
    if 0 <= i < s.len() && is_digit_char(s[i]) {
        number_has_dot(s, i + 1, seen_dot)
    } else if 0 <= i < s.len() && s[i] == '.' && !seen_dot {
        number_has_dot(s, i + 1, true)
    } else {
        seen_dot
    }
}

/// Position of the closing double quote at or after `i`, or the end of the
/// input when the literal is unterminated.
pub open spec fn scan_string_end(s: Seq<char>, i: int) -> int
    decreases s.len() - i,
{
    if 0 <= i < s.len() {
        if s[i] == '"' {
            i
        } else {
            scan_string_end(s, i + 1)
        }
    } else {
        s.len() as int
    }
}

// ---------------------------------------------------------------------------
// Line and column accounting: they advance per character, newline resets
// the column.
// ---------------------------------------------------------------------------

pub open spec fn advance_pos(line: int, col: int, c: char) -> (int, int) {
    if c == '\n' {
        (line + 1, 1)
    } else {
        (line, col + 1)
    }
}

pub open spec fn advance_pos_seq(line: int, col: int, t: Seq<char>) -> (int, int)
    decreases t.len(),
{
    if t.len() == 0 {
        (line, col)
    } else {
        let p = advance_pos(line, col, t[0]);
        advance_pos_seq(p.0, p.1, t.drop_first())
    }
}

proof fn lemma_advance_pos_seq_snoc(line: int, col: int, t: Seq<char>, c: char)
    ensures
        advance_pos_seq(line, col, t.push(c)) == ({
            let p = advance_pos_seq(line, col, t);
            advance_pos(p.0, p.1, c)
        }),
    decreases t.len(),
{
    reveal_with_fuel(advance_pos_seq, 3);
    if t.len() == 0 {
        assert(t.push(c)[0] == c);
        assert(t.push(c).drop_first() =~= Seq::<char>::empty());
    } else {
        assert(t.push(c)[0] == t[0]);
        assert(t.push(c).drop_first() =~= t.drop_first().push(c));
        let p = advance_pos(line, col, t[0]);
        lemma_advance_pos_seq_snoc(p.0, p.1, t.drop_first(), c);
    }
}

// ---------------------------------------------------------------------------
// The model of the lexer
// ---------------------------------------------------------------------------

pub open spec fn eof_token(line: int, col: int) -> TokenView {
    TokenView { kind: TokenType::Eof, text: Seq::empty(), line: line, col: col }
}

/// The token sequence of the input from position `i` on, with the current
/// line and column. Always ends with an end-of-input token.
pub open spec fn lex_from(s: Seq<char>, i: int, line: int, col: int) -> Seq<TokenView>
    decreases s.len() - i,
        via lex_from_decreases
{
    if !(0 <= i < s.len()) {
        seq![eof_token(line, col)]
    } else {
        let c = s[i];
        if c == '\n' {
            lex_from(s, i + 1, line + 1, 1)
        } else if is_space_char(c) {
            lex_from(s, i + 1, line, col + 1)
        } else if is_symbol_char(c) {
            seq![(TokenView { kind: symbol_kind(c), text: seq![c], line: line, col: col })]
                + lex_from(s, i + 1, line, col + 1)
        } else if c == '"' {
            let e = scan_string_end(s, i + 1);
            let j = if e < s.len() {
                e + 1
            } else {
                e
            };
            let p = advance_pos_seq(line, col, s.subrange(i, j));
            seq![(TokenView {
                kind: TokenType::StringLit,
                text: s.subrange(i + 1, e),
                line: line,
                col: col,
            })] + lex_from(s, j, p.0, p.1)
        } else if c == '-' && i + 1 < s.len() && s[i + 1] == '>' {
            seq![(TokenView {
                kind: TokenType::Arrow,
                text: seq!['-', '>'],
                line: line,
                col: col,
            })] + lex_from(s, i + 2, line, col + 2)
        } else if is_digit_char(c) {
            let e = scan_number_end(s, i + 1, false);
            let kind = if number_has_dot(s, i + 1, false) {
                TokenType::FloatLit
            } else {
                TokenType::IntLit
            };
            seq![(TokenView { kind: kind, text: s.subrange(i, e), line: line, col: col })]
                + lex_from(s, e, line, col + (e - i))
        } else if is_ident_start_char(c) {
            let e = scan_ident_end(s, i + 1);
            seq![(TokenView {
                kind: keyword_kind(s.subrange(i, e)),
                text: s.subrange(i, e),
                line: line,
                col: col,
            })] + lex_from(s, e, line, col + (e - i))
        } else {
            // Unknown characters are dropped.
            lex_from(s, i + 1, line, col + 1)
        }
    }
}

#[via_fn]
proof fn lex_from_decreases(s: Seq<char>, i: int, line: int, col: int) {
    if 0 <= i < s.len() {
        lemma_scan_string_end_bounds(s, i + 1);
        lemma_scan_number_end_bounds(s, i + 1, false);
        lemma_scan_ident_end_bounds(s, i + 1);
    }
}

pub open spec fn lex(s: Seq<char>) -> Seq<TokenView> {
    lex_from(s, 0, 1, 1)
}

/// The model always produces at least one token, and its last token marks
/// the end of the input.
pub proof fn lemma_lex_ends_with_eof(s: Seq<char>, i: int, line: int, col: int)
    ensures
        lex_from(s, i, line, col).len() >= 1,
        lex_from(s, i, line, col).last().kind == TokenType::Eof,
        forall|k: int|
            0 <= k < lex_from(s, i, line, col).len() - 1 ==> #[trigger] lex_from(
                s,
                i,
                line,
                col,
            )[k].kind != TokenType::Eof,
    decreases s.len() - i,
{
    if !(0 <= i < s.len()) {
    } else {
        let c = s[i];
        if c == '\n' {
            lemma_lex_ends_with_eof(s, i + 1, line + 1, 1);
        } else if is_space_char(c) {
            lemma_lex_ends_with_eof(s, i + 1, line, col + 1);
        } else if is_symbol_char(c) {
            lemma_lex_ends_with_eof(s, i + 1, line, col + 1);
        } else if c == '"' {
            let e = scan_string_end(s, i + 1);
            let j = if e < s.len() {
                e + 1
            } else {
                e
            };
            lemma_scan_string_end_bounds(s, i + 1);
            let p = advance_pos_seq(line, col, s.subrange(i, j));
            lemma_lex_ends_with_eof(s, j, p.0, p.1);
        } else if c == '-' && i + 1 < s.len() && s[i + 1] == '>' {
            lemma_lex_ends_with_eof(s, i + 2, line, col + 2);
        } else if is_digit_char(c) {
            let e = scan_number_end(s, i + 1, false);
            lemma_scan_number_end_bounds(s, i + 1, false);
            lemma_lex_ends_with_eof(s, e, line, col + (e - i));
        } else if is_ident_start_char(c) {
            let e = scan_ident_end(s, i + 1);
            lemma_scan_ident_end_bounds(s, i + 1);
            lemma_lex_ends_with_eof(s, e, line, col + (e - i));
        } else {
            lemma_lex_ends_with_eof(s, i + 1, line, col + 1);
        }
    }
}

// ---------------------------------------------------------------------------
// The executable lexer
// ---------------------------------------------------------------------------

fn space_char(c: char) -> (r: bool)
    ensures
        r == is_space_char(c),
{
    c == ' ' || c == '\t' || c == '\r'
}

fn symbol_char(c: char) -> (r: bool)
    ensures
        r == is_symbol_char(c),
{
    c == '(' || c == ')' || c == '{' || c == '}' || c == '<' || c == '>' || c == ';' || c == ':'
        || c == '=' || c == ','
}

fn digit_char(c: char) -> (r: bool)
    ensures
        r == is_digit_char(c),
{
    '0' <= c && c <= '9'
}

fn ident_start_char(c: char) -> (r: bool)
    ensures
        r == is_ident_start_char(c),
{
    ('a' <= c && c <= 'z') || ('A' <= c && c <= 'Z') || c == '_'
}

fn ident_char(c: char) -> (r: bool)
    ensures
        r == is_ident_char(c),
{
    ident_start_char(c) || digit_char(c)
}

/// The text of the characters `from..to` of the vector.
fn span_text(v: &Vec<char>, from: usize, to: usize) -> (r: String)
    requires
        from <= to <= v@.len(),
    ensures
        r@ == v@.subrange(from as int, to as int),
{
    let mut r = String::new();
    let mut k = from;
    while k < to
        invariant
            from <= k <= to <= v@.len(),
            r@ == v@.subrange(from as int, k as int),
        decreases to - k,
    {
        push_char(&mut r, v[k]);
        assert(r@ =~= v@.subrange(from as int, k + 1 as int));
        k += 1;
    }
    r
}

/// Walks the characters `from..to`, advancing the line and column counters.
fn advance_span(line: usize, col: usize, v: &Vec<char>, from: usize, to: usize) -> (r: (
    usize,
    usize,
))
    requires
        from <= to <= v@.len(),
        1 <= line,
        1 <= col,
        line + (to - from) <= usize::MAX,
        col + (to - from) <= usize::MAX,
    ensures
        (r.0 as int, r.1 as int) == advance_pos_seq(
            line as int,
            col as int,
            v@.subrange(from as int, to as int),
        ),
        1 <= r.0 <= line + (to - from),
        1 <= r.1 <= col + (to - from),
{
    let mut l = line;
    let mut c = col;
    let mut k = from;
    while k < to
        invariant
            from <= k <= to <= v@.len(),
            1 <= l,
            1 <= c,
            l <= line + (k - from),
            c <= col + (k - from),
            line + (to - from) <= usize::MAX,
            col + (to - from) <= usize::MAX,
            (l as int, c as int) == advance_pos_seq(
                line as int,
                col as int,
                v@.subrange(from as int, k as int),
            ),
        decreases to - k,
    {
        proof {
            assert(v@.subrange(from as int, k + 1 as int) =~= v@.subrange(
                from as int,
                k as int,
            ).push(v@[k as int]));
            lemma_advance_pos_seq_snoc(
                line as int,
                col as int,
                v@.subrange(from as int, k as int),
                v@[k as int],
            );
        }
        if v[k] == '\n' {
            l = l + 1;
            c = 1;
        } else {
            c = c + 1;
        }
        k += 1;
    }
    (l, c)
}

proof fn lemma_token_views_push(ts: Seq<Token>, t: Token)
    ensures
        token_views(ts.push(t)) =~= token_views(ts).push(t@),
{
}

/// Turns the whole input into tokens. The result is exactly the token
/// sequence of the model `lex`, so it is never empty and always ends with
/// the end-of-input token.
pub fn tokenize(input: &str) -> (r: Result<Vec<Token>, ParseError>)
    requires
        input@.len() < usize::MAX,
    ensures
        r matches Ok(toks) && token_views(toks@) == lex(input@),
{
    let v = crate::strutil::to_chars(input);
    let n = v.len();
    let mut toks: Vec<Token> = Vec::new();
    let mut i: usize = 0;
    let mut line: usize = 1;
    let mut col: usize = 1;
    while i < n
        invariant
            v@ == input@,
            n == v@.len(),
            n < usize::MAX,
            i <= n,
            1 <= line <= 1 + i,
            1 <= col <= 1 + i,
            token_views(toks@) + lex_from(v@, i as int, line as int, col as int) == lex(v@),
        decreases n - i,
    {
        let ghost pre = lex_from(v@, i as int, line as int, col as int);
        let c = v[i];
        if c == '\n' {
            i += 1;
            line += 1;
            col = 1;
        } else if space_char(c) {
            i += 1;
            col += 1;
        } else if symbol_char(c) {
            let text = span_text(&v, i, i + 1);
            let kind = if c == '(' {
                TokenType::LeftParen
            } else if c == ')' {
                TokenType::RightParen
            } else if c == '{' {
                TokenType::LeftBrace
            } else if c == '}' {
                TokenType::RightBrace
            } else if c == '<' {
                TokenType::LeftAngle
            } else if c == '>' {
                TokenType::RightAngle
            } else if c == ';' {
                TokenType::Semicolon
            } else if c == ':' {
                TokenType::Colon
            } else if c == '=' {
                TokenType::Equals
            } else {
                TokenType::Comma
            };
            let t = Token { token_type: kind, value: text, line, column: col };
            proof {
                assert(t@.text =~= seq![c]);
                lemma_token_views_push(toks@, t);
            }
            toks.push(t);
            i += 1;
            col += 1;
            proof {
                assert(token_views(toks@) + lex_from(v@, i as int, line as int, col as int)
                    =~= token_views(toks@.drop_last()) + pre);
            }
        } else if c == '"' {
            let start = i + 1;
            let mut j = start;
            while j < n && v[j] != '"'
                invariant
                    start <= j <= n,
                    n == v@.len(),
                    scan_string_end(v@, start as int) == scan_string_end(v@, j as int),
                decreases n - j,
            {
                j += 1;
            }
            let ghost e = scan_string_end(v@, start as int);
            assert(e == j as int);
            let text = span_text(&v, start, j);
            let jnext = if j < n {
                j + 1
            } else {
                j
            };
            let p = advance_span(line, col, &v, i, jnext);
            let t = Token { token_type: TokenType::StringLit, value: text, line, column: col };
            proof {
                lemma_token_views_push(toks@, t);
            }
            toks.push(t);
            i = jnext;
            line = p.0;
            col = p.1;
            proof {
                assert(token_views(toks@) + lex_from(v@, i as int, line as int, col as int)
                    =~= token_views(toks@.drop_last()) + pre);
            }
        } else if c == '-' && i + 1 < n && v[i + 1] == '>' {
            let text = span_text(&v, i, i + 2);
            let t = Token { token_type: TokenType::Arrow, value: text, line, column: col };
            proof {
                assert(t@.text =~= seq!['-', '>']);
                lemma_token_views_push(toks@, t);
            }
            toks.push(t);
            i += 2;
            col += 2;
            proof {
                assert(token_views(toks@) + lex_from(v@, i as int, line as int, col as int)
                    =~= token_views(toks@.drop_last()) + pre);
            }
        } else if digit_char(c) {
            let mut j = i + 1;
            let mut seen_dot = false;
            while j < n && (digit_char(v[j]) || (v[j] == '.' && !seen_dot))
                invariant
                    i + 1 <= j <= n,
                    n == v@.len(),
                    scan_number_end(v@, i + 1 as int, false) == scan_number_end(
                        v@,
                        j as int,
                        seen_dot,
                    ),
                    number_has_dot(v@, i + 1 as int, false) == number_has_dot(
                        v@,
                        j as int,
                        seen_dot,
                    ),
                decreases n - j,
            {
                if v[j] == '.' {
                    seen_dot = true;
                }
                j += 1;
            }
            let ghost e = scan_number_end(v@, i + 1 as int, false);
            assert(e == j as int);
            assert(number_has_dot(v@, i + 1 as int, false) == seen_dot);
            let text = span_text(&v, i, j);
            let kind = if seen_dot {
                TokenType::FloatLit
            } else {
                TokenType::IntLit
            };
            let t = Token { token_type: kind, value: text, line, column: col };
            proof {
                lemma_token_views_push(toks@, t);
            }
            toks.push(t);
            col = col + (j - i);
            i = j;
            proof {
                assert(token_views(toks@) + lex_from(v@, i as int, line as int, col as int)
                    =~= token_views(toks@.drop_last()) + pre);
            }
        } else if ident_start_char(c) {
            let mut j = i + 1;
            while j < n && ident_char(v[j])
                invariant
                    i + 1 <= j <= n,
                    n == v@.len(),
                    scan_ident_end(v@, i + 1 as int) == scan_ident_end(v@, j as int),
                decreases n - j,
            {
                j += 1;
            }
            let ghost e = scan_ident_end(v@, i + 1 as int);
            assert(e == j as int);
            let text = span_text(&v, i, j);
            let kind = classify_word(&text);
            let t = Token { token_type: kind, value: text, line, column: col };
            proof {
                lemma_token_views_push(toks@, t);
            }
            toks.push(t);
            col = col + (j - i);
            i = j;
            proof {
                assert(token_views(toks@) + lex_from(v@, i as int, line as int, col as int)
                    =~= token_views(toks@.drop_last()) + pre);
            }
        } else {
            // An unrecognized character is dropped.
            i += 1;
            col += 1;
        }
    }
    let t = Token { token_type: TokenType::Eof, value: String::new(), line, column: col };
    proof {
        lemma_token_views_push(toks@, t);
    }
    toks.push(t);
    proof {
        assert(token_views(toks@) =~= token_views(toks@.drop_last()) + seq![t@]);
        assert(token_views(toks@) =~= lex(v@));
    }
    Ok(toks)
}

/// Classifies an identifier's text against the keyword table.
fn classify_word(text: &String) -> (kind: TokenType)
    ensures
        kind == keyword_kind(text@),
{
    let s = text.as_str();
    if str_eq(s, "fn") {
        TokenType::Fn
    } else if str_eq(s, "type") {
        TokenType::Type
    } else if str_eq(s, "class") {
        TokenType::Class
    } else if str_eq(s, "import") {
        TokenType::Import
    } else if str_eq(s, "let") {
        TokenType::Let
    } else if str_eq(s, "return") {
        TokenType::Return
    } else if str_eq(s, "prompt") {
        TokenType::Prompt
    } else if str_eq(s, "Meaning") {
        TokenType::Meaning
    } else if str_eq(s, "true") || str_eq(s, "false") {
        TokenType::BoolLit
    } else {
        TokenType::Identifier
    }
}

/// A syntax error: what was wrong and the line it was seen on.
#[derive(Debug, Clone, Copy, PartialEq, Eq, Structural)]
pub enum ParseErrorKind {
    UnexpectedToken,
    ExpectedIdentifier,
    ExpectedStringLiteral,
    ExpectedDeclaration,
    ExpectedClassMember,
    UnexpectedExpressionToken,
}

#[derive(Debug, Clone, Copy, PartialEq, Eq, Structural)]
pub struct ParseError {
    pub kind: ParseErrorKind,
    pub line: usize,
    /// The token kind that was expected; `Error` where no single kind was.
    pub expected: TokenType,
    /// The token kind that stood there instead.
    pub found: TokenType,
}

pub proof fn lemma_scan_ident_end_bounds(s: Seq<char>, i: int)
    requires
        0 <= i <= s.len(),
    ensures
        i <= scan_ident_end(s, i) <= s.len(),
    decreases s.len() - i,
{
    if i < s.len() && is_ident_char(s[i]) {
        lemma_scan_ident_end_bounds(s, i + 1);
    }
}

pub proof fn lemma_scan_number_end_bounds(s: Seq<char>, i: int, seen_dot: bool)
    requires
        0 <= i <= s.len(),
    ensures
        i <= scan_number_end(s, i, seen_dot) <= s.len(),
    decreases s.len() - i,
{
    if i < s.len() && is_digit_char(s[i]) {
        lemma_scan_number_end_bounds(s, i + 1, seen_dot);
    } else if i < s.len() && s[i] == '.' && !seen_dot {
        lemma_scan_number_end_bounds(s, i + 1, true);
    }
}

pub proof fn lemma_scan_string_end_bounds(s: Seq<char>, i: int)
    requires
        0 <= i <= s.len(),
    ensures
        i <= scan_string_end(s, i) <= s.len(),
    decreases s.len() - i,
{
    if i < s.len() && s[i] != '"' {
        lemma_scan_string_end_bounds(s, i + 1);
    }
}

} // verus!
