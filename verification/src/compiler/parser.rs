//! Recursive-descent parser: token stream to abstract syntax tree, with
//! panic-mode recovery.
//!
//! A failed declaration or statement is recorded in `errors` and the parser
//! resynchronizes at a statement terminator or at a token that can start a
//! new declaration or statement, so one bad construct does not abort the
//! whole compilation.

use vstd::prelude::*;
use crate::strutil::{str_eq, parse_i64_saturated, spec_int_literal_value};
use crate::utils::ast::{AstNode, AstNodeType};

pub use super::lexer::{Token, TokenType, TokenView, ParseError, ParseErrorKind, lex, token_views};

verus! {

/// Declaration node kinds: what a top-level item may be.
pub open spec fn is_decl_kind(t: AstNodeType) -> bool {
    t == AstNodeType::FunctionDecl || t == AstNodeType::TypeDecl || t == AstNodeType::ClassDecl
        || t == AstNodeType::Import
}

/// Statement node kinds.
pub open spec fn is_stmt_kind(t: AstNodeType) -> bool {
    t == AstNodeType::VarDecl || t == AstNodeType::ReturnStmt || t == AstNodeType::PromptBlock
        || t == AstNodeType::ExprStmt || t == AstNodeType::Block
}

/// Expression node kinds.
pub open spec fn is_expr_kind(t: AstNodeType) -> bool {
    t == AstNodeType::StringLiteral || t == AstNodeType::IntLiteral || t
        == AstNodeType::FloatLiteral || t == AstNodeType::BoolLiteral || t
        == AstNodeType::Identifier || t == AstNodeType::CallExpr
}

/// The declaration kind a leading token announces.
pub open spec fn decl_kind_for(t: TokenType) -> Option<AstNodeType> {
    match t {
        TokenType::Fn => Some(AstNodeType::FunctionDecl),
        TokenType::Type => Some(AstNodeType::TypeDecl),
        TokenType::Class => Some(AstNodeType::ClassDecl),
        TokenType::Import => Some(AstNodeType::Import),
        _ => None,
    }
}

/// The expression node kind a primary token produces.
pub open spec fn primary_kind_for(t: TokenType) -> Option<AstNodeType> {
    match t {
        TokenType::StringLit => Some(AstNodeType::StringLiteral),
        TokenType::IntLit => Some(AstNodeType::IntLiteral),
        TokenType::FloatLit => Some(AstNodeType::FloatLiteral),
        TokenType::BoolLit => Some(AstNodeType::BoolLiteral),
        TokenType::Identifier => Some(AstNodeType::Identifier),
        _ => None,
    }
}

/// A well-formed type node: a basic type carrying its name, or a
/// meaning-wrapped type carrying the meaning text over one inner type node.
pub open spec fn wf_type_node(n: AstNode) -> bool
    decreases n,
{
    if n.node_type == AstNodeType::BasicType {
        n.str_prop("type"@) is Some && n.children@.len() == 0
    } else if n.node_type == AstNodeType::MeaningType {
        n.str_prop("meaning"@) is Some && n.children@.len() == 1 && wf_type_node(n.children@[0])
    } else {
        false
    }
}

// ---------------------------------------------------------------------------
// The token-level model of the type grammar
// ---------------------------------------------------------------------------

/// The kind of the token at `i`; past the end counts as end-of-input.
pub open spec fn kind_at(toks: Seq<TokenView>, i: int) -> TokenType {
    if 0 <= i < toks.len() {
        toks[i].kind
    } else {
        TokenType::Eof
    }
}

/// The text of the token at `i`.
pub open spec fn text_at(toks: Seq<TokenView>, i: int) -> Seq<char> {
    if 0 <= i < toks.len() {
        toks[i].text
    } else {
        Seq::empty()
    }
}

/// The shape a type in the source has: a bare name, or a meaning wrapper
/// around an inner type.
pub enum TypeShape {
    Basic { name: Seq<char> },
    Wrapped { meaning: Seq<char>, inner: Box<TypeShape> },
}

/// What a basic type at `i` parses to: an identifier, consumed.
pub open spec fn spec_basic_at(toks: Seq<TokenView>, i: int) -> Option<(TypeShape, int)> {
    if kind_at(toks, i) == TokenType::Identifier {
        Some((TypeShape::Basic { name: text_at(toks, i) }, i + 1))
    } else {
        None
    }
}

/// What a type at `i` parses to, and where it ends.
pub open spec fn spec_type_at(toks: Seq<TokenView>, i: int) -> Option<(TypeShape, int)>
    decreases toks.len() - i, 1int,
{
    if !(0 <= i < toks.len()) {
        None
    } else if kind_at(toks, i) == TokenType::Meaning {
        spec_meaning_at(toks, i + 1)
    } else {
        spec_basic_at(toks, i)
    }
}

/// The rest of a meaning-wrapped type after the wrapper keyword: the base
/// type in angle brackets, the meaning string in parentheses.
pub open spec fn spec_meaning_at(toks: Seq<TokenView>, i: int) -> Option<(TypeShape, int)>
    decreases toks.len() - i, 0int,
{
    if !(0 <= i < toks.len()) {
        None
    } else if kind_at(toks, i) != TokenType::LeftAngle {
        None
    } else {
        match spec_type_at(toks, i + 1) {
            None => None,
            Some((inner, j)) => if kind_at(toks, j) == TokenType::RightAngle && kind_at(
                toks,
                j + 1,
            ) == TokenType::LeftParen && kind_at(toks, j + 2) == TokenType::StringLit && kind_at(
                toks,
                j + 3,
            ) == TokenType::RightParen {
                Some(
                    (
                        TypeShape::Wrapped {
                            meaning: text_at(toks, j + 2),
                            inner: Box::new(inner),
                        },
                        j + 4,
                    ),
                )
            } else {
                None
            },
        }
    }
}

/// The node a type shape turns into.
pub open spec fn type_node_matches(n: AstNode, t: TypeShape) -> bool
    decreases n,
{
    match t {
        TypeShape::Basic { name } => n.node_type == AstNodeType::BasicType && n.str_prop("type"@)
            == Some(name) && n.children@.len() == 0,
        TypeShape::Wrapped { meaning, inner } => n.node_type == AstNodeType::MeaningType
            && n.str_prop("meaning"@) == Some(meaning) && n.children@.len() == 1
            && type_node_matches(n.children@[0], *inner),
    }
}

/// The written base name of a type shape: the bare name under every
/// wrapper.
pub open spec fn shape_alias(t: TypeShape) -> Seq<char>
    decreases t,
{
    match t {
        TypeShape::Basic { name } => name,
        TypeShape::Wrapped { meaning, inner } => shape_alias(*inner),
    }
}

/// What a type declaration at `i` parses to: its name, its type shape,
/// and the position after the closing semicolon.
pub open spec fn spec_type_decl_at(toks: Seq<TokenView>, i: int) -> Option<
    (Seq<char>, TypeShape, int),
> {
    if kind_at(toks, i) == TokenType::Type && kind_at(toks, i + 1) == TokenType::Identifier
        && kind_at(toks, i + 2) == TokenType::Equals {
        match spec_type_at(toks, i + 3) {
            None => None,
            Some((sh, j)) => if kind_at(toks, j) == TokenType::Semicolon {
                Some((text_at(toks, i + 1), sh, j + 1))
            } else {
                None
            },
        }
    } else {
        None
    }
}

/// The token stream holds exactly one type declaration and nothing else.
pub open spec fn one_type_decl_program(tv: Seq<TokenView>, i: int) -> bool {
    match spec_type_decl_at(tv, i) {
        Some(td) => kind_at(tv, td.2) == TokenType::Eof,
        None => false,
    }
}

/// Where the type declaration at `i` ends.
pub open spec fn decl_end(tv: Seq<TokenView>, i: int) -> int {
    match spec_type_decl_at(tv, i) {
        Some(td) => td.2,
        None => i,
    }
}

/// The name the type declaration at `i` declares.
pub open spec fn decl_name(tv: Seq<TokenView>, i: int) -> Seq<char> {
    match spec_type_decl_at(tv, i) {
        Some(td) => td.0,
        None => Seq::empty(),
    }
}

/// The written base name of the type declared at `i`.
pub open spec fn decl_alias_name(tv: Seq<TokenView>, i: int) -> Seq<char> {
    match spec_type_decl_at(tv, i) {
        Some(td) => shape_alias(td.1),
        None => Seq::empty(),
    }
}

/// A parsed type ends past where it began and inside the stream.
pub proof fn lemma_type_at_advances(toks: Seq<TokenView>, i: int)
    ensures
        spec_type_at(toks, i) matches Some(p) ==> i < p.1 <= toks.len(),
    decreases toks.len() - i, 1int,
{
    if 0 <= i < toks.len() && kind_at(toks, i) == TokenType::Meaning {
        lemma_meaning_at_advances(toks, i + 1);
    }
}

proof fn lemma_meaning_at_advances(toks: Seq<TokenView>, i: int)
    ensures
        spec_meaning_at(toks, i) matches Some(p) ==> i < p.1 <= toks.len(),
    decreases toks.len() - i, 0int,
{
    if 0 <= i < toks.len() && kind_at(toks, i) == TokenType::LeftAngle {
        lemma_type_at_advances(toks, i + 1);
    }
}

/// A type declaration ends past where it began and inside the stream.
pub proof fn lemma_type_decl_advances(toks: Seq<TokenView>, i: int)
    ensures
        spec_type_decl_at(toks, i) matches Some(td) ==> i < td.2 <= toks.len(),
{
    lemma_type_at_advances(toks, i + 3);
}

/// The declarations of a stream that holds type declarations alone, each
/// as its name and its type shape; nothing where anything else stands.
pub open spec fn type_decls_from(tv: Seq<TokenView>, i: int) -> Option<
    Seq<(Seq<char>, TypeShape)>,
>
    decreases tv.len() - i,
        via type_decls_from_decreases
{
    if !(0 <= i <= tv.len()) {
        None
    } else if kind_at(tv, i) == TokenType::Eof {
        Some(Seq::empty())
    } else {
        match spec_type_decl_at(tv, i) {
            None => None,
            Some(td) => match type_decls_from(tv, td.2) {
                None => None,
                Some(rest) => Some(seq![(td.0, td.1)] + rest),
            },
        }
    }
}

#[via_fn]
proof fn type_decls_from_decreases(tv: Seq<TokenView>, i: int) {
    lemma_type_decl_advances(tv, i);
}

/// Where the stream stands after its first `k` type declarations.
pub open spec fn decls_pos(tv: Seq<TokenView>, i: int, k: int) -> int
    decreases k,
{
    if k <= 0 {
        i
    } else {
        decl_end(tv, decls_pos(tv, i, k - 1))
    }
}

/// Past any prefix of the declarations, the rest of the stream still reads
/// as the remaining declarations.
pub proof fn lemma_type_decls_skip(tv: Seq<TokenView>, i: int, ds: Seq<(Seq<char>, TypeShape)>, k: int)
    requires
        type_decls_from(tv, i) == Some(ds),
        0 <= k <= ds.len(),
    ensures
        type_decls_from(tv, decls_pos(tv, i, k)) == Some(ds.skip(k)),
        forall|j: int| 0 <= j < k ==> spec_type_decl_at(tv, decls_pos(tv, i, j)) is Some,
    decreases k,
{
    if k == 0 {
        assert(ds.skip(0) =~= ds);
    } else {
        lemma_type_decls_skip(tv, i, ds, k - 1);
        let pk = decls_pos(tv, i, k - 1);
        let rest = ds.skip(k - 1);
        assert(type_decls_from(tv, pk) == Some(rest));
        assert(rest.len() > 0);
        assert(kind_at(tv, pk) != TokenType::Eof);
        match spec_type_decl_at(tv, pk) {
            Some(td) => {
                match type_decls_from(tv, td.2) {
                    Some(tail) => {
                        assert(rest =~= seq![(td.0, td.1)] + tail);
                        assert(tail =~= rest.drop_first());
                        assert(rest.drop_first() =~= ds.skip(k));
                        assert(decls_pos(tv, i, k) == td.2);
                    },
                    None => {
                        assert(false);
                    },
                }
            },
            None => {
                assert(false);
            },
        }
    }
}

/// A program node holding exactly the type declarations of the stream, in
/// order, each with its name and its type shape.
pub open spec fn program_matches_decls(p: AstNode, ds: Seq<(Seq<char>, TypeShape)>) -> bool {
    p.children@.len() == ds.len() && forall|j: int|
        0 <= j < ds.len() ==> (#[trigger] p.children@[j]).node_type == AstNodeType::TypeDecl
            && p.children@[j].str_prop("name"@) == Some(ds[j].0) && p.children@[j].children@.len()
            == 1 && type_node_matches(p.children@[j].children@[0], ds[j].1)
}

/// A program node holding exactly the one type declaration of the stream.
pub open spec fn program_matches_one_decl(p: AstNode, tv: Seq<TokenView>, i: int) -> bool {
    match spec_type_decl_at(tv, i) {
        Some(td) => p.children@.len() == 1 && p.children@[0].node_type == AstNodeType::TypeDecl
            && p.children@[0].str_prop("name"@) == Some(td.0) && p.children@[0].children@.len()
            == 1 && type_node_matches(p.children@[0].children@[0], td.1),
        None => false,
    }
}

/// A well-formed parameter node: its name and exactly one type child.
pub open spec fn wf_param_node(n: AstNode) -> bool {
    n.node_type == AstNodeType::Parameter && n.str_prop("name"@) is Some && n.children@.len() == 1
        && wf_type_node(n.children@[0])
}

pub struct Parser {
    pub tokens: Vec<Token>,
    pub current: usize,
    pub errors: Vec<ParseError>,
}

impl Parser {
    /// The token stream is non-empty, ends with the end-of-input token, and
    /// the cursor stays on a token.
    pub open spec fn wf(&self) -> bool {
        &&& self.tokens@.len() >= 1
        &&& self.current < self.tokens@.len()
        &&& self.tokens@.last()@.kind == TokenType::Eof
    }

    /// The token at position `i`.
    pub open spec fn tok(&self, i: int) -> TokenView {
        self.tokens@[i]@
    }

    /// The kind of the token under the cursor.
    pub open spec fn peek_kind(&self) -> TokenType {
        self.tok(self.current as int).kind
    }

    /// The whole token stream, as token views.
    pub open spec fn toks(&self) -> Seq<TokenView> {
        token_views(self.tokens@)
    }

    /// Lexes the input; the parser starts on the first token of `lex(input)`.
    pub fn new(input: &str) -> (r: Result<Parser, ParseError>)
        requires
            input@.len() < usize::MAX,
        ensures
            r matches Ok(p) && p.wf() && token_views(p.tokens@) == lex(input@) && p.current == 0
                && p.errors@.len() == 0,
    {
        let tokens = match super::lexer::tokenize(input) {
            Ok(t) => t,
            Err(e) => {
                return Err(e);
            },
        };
        proof {
            super::lexer::lemma_lex_ends_with_eof(input@, 0, 1, 1);
            assert(tokens@.last()@ == token_views(tokens@).last());
        }
        Ok(Parser { tokens, current: 0, errors: Vec::new() })
    }

    /// Turns input text into tokens: the stream the parser starts from.
    pub fn tokenize(input: &str) -> (r: Result<Vec<Token>, ParseError>)
        requires
            input@.len() < usize::MAX,
        ensures
            r matches Ok(toks) && token_views(toks@) == lex(input@),
    {
        super::lexer::tokenize(input)
    }

    // -----------------------------------------------------------------
    // Cursor helpers
    // -----------------------------------------------------------------

    fn peek(&self) -> (r: &Token)
        requires
            self.wf(),
        ensures
            *r == self.tokens@[self.current as int],
    {
        &self.tokens[self.current]
    }

    fn previous(&self) -> (r: &Token)
        requires
            self.wf(),
            self.current >= 1,
        ensures
            *r == self.tokens@[self.current - 1],
    {
        &self.tokens[self.current - 1]
    }

    fn is_at_end(&self) -> (r: bool)
        requires
            self.wf(),
        ensures
            r == (self.peek_kind() == TokenType::Eof),
    {
        self.tokens[self.current].token_type == TokenType::Eof
    }

    fn advance(&mut self)
        requires
            old(self).wf(),
        ensures
            final(self).wf(),
            final(self).tokens == old(self).tokens,
            final(self).errors == old(self).errors,
            old(self).peek_kind() != TokenType::Eof ==> final(self).current == old(self).current
                + 1,
            old(self).peek_kind() == TokenType::Eof ==> final(self).current == old(self).current,
    {
        if !self.is_at_end() {
            let n = self.tokens.len();
            proof {
                if self.current + 1 == n {
                    assert(self.tok(self.current as int) == self.tokens@.last()@);
                }
            }
            self.current = self.current + 1;
        }
    }

    fn check(&self, token_type: &TokenType) -> (r: bool)
        requires
            self.wf(),
        ensures
            r == (self.peek_kind() == *token_type && self.peek_kind() != TokenType::Eof),
    {
        if self.is_at_end() {
            false
        } else {
            self.tokens[self.current].token_type == *token_type
        }
    }

    fn match_token(&mut self, token_type: &TokenType) -> (r: bool)
        requires
            old(self).wf(),
        ensures
            final(self).wf(),
            final(self).tokens == old(self).tokens,
            final(self).errors == old(self).errors,
            r == (old(self).peek_kind() == *token_type && old(self).peek_kind()
                != TokenType::Eof),
            r ==> final(self).current == old(self).current + 1,
            !r ==> final(self).current == old(self).current,
    {
        if self.check(token_type) {
            self.advance();
            true
        } else {
            false
        }
    }

    /// Takes the expected token, or reports what stood there instead.
    fn consume(&mut self, expected: &TokenType) -> (r: Result<(), ParseError>)
        requires
            old(self).wf(),
        ensures
            final(self).wf(),
            final(self).tokens == old(self).tokens,
            final(self).errors == old(self).errors,
            r is Ok <==> (old(self).peek_kind() == *expected && old(self).peek_kind()
                != TokenType::Eof),
            r is Ok ==> final(self).current == old(self).current + 1,
            r is Err ==> final(self).current == old(self).current,
            r matches Err(e) ==> e.kind == ParseErrorKind::UnexpectedToken && e.expected
                == *expected && e.found == old(self).peek_kind() && e.line
                == old(self).tokens@[old(self).current as int].line,
    {
        if self.check(expected) {
            self.advance();
            Ok(())
        } else {
            Err(
                ParseError {
                    kind: ParseErrorKind::UnexpectedToken,
                    line: self.peek().line,
                    expected: *expected,
                    found: self.peek().token_type,
                },
            )
        }
    }

    /// Takes an identifier token and hands back its text.
    fn consume_identifier(&mut self) -> (r: Result<String, ParseError>)
        requires
            old(self).wf(),
        ensures
            final(self).wf(),
            final(self).tokens == old(self).tokens,
            final(self).errors == old(self).errors,
            r is Ok <==> old(self).peek_kind() == TokenType::Identifier,
            r matches Ok(s) ==> s@ == old(self).tok(old(self).current as int).text && final(self).current == old(self).current + 1,
            r is Err ==> final(self).current == old(self).current,
            r matches Err(e) ==> e.kind == ParseErrorKind::ExpectedIdentifier,
    {
        if self.check(&TokenType::Identifier) {
            let s = self.tokens[self.current].value.clone();
            self.advance();
            Ok(s)
        } else {
            Err(
                ParseError {
                    kind: ParseErrorKind::ExpectedIdentifier,
                    line: self.peek().line,
                    expected: TokenType::Identifier,
                    found: self.peek().token_type,
                },
            )
        }
    }

    /// Takes a string literal token and hands back its text.
    fn consume_string_literal(&mut self) -> (r: Result<String, ParseError>)
        requires
            old(self).wf(),
        ensures
            final(self).wf(),
            final(self).tokens == old(self).tokens,
            final(self).errors == old(self).errors,
            r is Ok <==> old(self).peek_kind() == TokenType::StringLit,
            r matches Ok(s) ==> s@ == old(self).tok(old(self).current as int).text && final(self).current == old(self).current + 1,
            r is Err ==> final(self).current == old(self).current,
            r matches Err(e) ==> e.kind == ParseErrorKind::ExpectedStringLiteral,
    {
        if self.check(&TokenType::StringLit) {
            let s = self.tokens[self.current].value.clone();
            self.advance();
            Ok(s)
        } else {
            Err(
                ParseError {
                    kind: ParseErrorKind::ExpectedStringLiteral,
                    line: self.peek().line,
                    expected: TokenType::StringLit,
                    found: self.peek().token_type,
                },
            )
        }
    }

    /// Skips ahead to a statement terminator or to a token that can start a
    /// new declaration or statement.
    fn synchronize(&mut self)
        requires
            old(self).wf(),
        ensures
            final(self).wf(),
            final(self).tokens == old(self).tokens,
            final(self).errors == old(self).errors,
            final(self).current >= old(self).current,
            old(self).peek_kind() != TokenType::Eof ==> final(self).current > old(self).current,
            final(self).peek_kind() == TokenType::Eof || final(self).peek_kind()
                == TokenType::Class || final(self).peek_kind() == TokenType::Fn
                || final(self).peek_kind() == TokenType::Let || final(self).peek_kind()
                == TokenType::Return || (final(self).current >= 1 && final(self).tok(
                final(self).current - 1,
            ).kind == TokenType::Semicolon),
    {
        self.advance();
        while !self.is_at_end()
            invariant
                self.wf(),
                self.tokens == old(self).tokens,
                self.errors == old(self).errors,
                self.current >= old(self).current,
                old(self).peek_kind() != TokenType::Eof ==> self.current > old(self).current,
                self.current >= 1 || self.current == old(self).current,
            decreases self.tokens@.len() - self.current,
        {
            proof {
                assert(self.current >= 1);
            }
            if self.previous().token_type == TokenType::Semicolon {
                return ;
            }
            let k = self.tokens[self.current].token_type;
            if k == TokenType::Class || k == TokenType::Fn || k == TokenType::Let || k
                == TokenType::Return {
                return ;
            }
            self.advance();
        }
    }

    // -----------------------------------------------------------------
    // Productions
    // -----------------------------------------------------------------

    /// Parses the whole program. Failed declarations are recorded in
    /// `errors` and skipped; the program node keeps every declaration that
    /// parsed, in source order.
    pub fn parse_program(&mut self) -> (r: Result<AstNode, ParseError>)
        requires
            old(self).wf(),
        ensures
            final(self).wf(),
            final(self).tokens == old(self).tokens,
            r matches Ok(p) && p.node_type == AstNodeType::Program,
            r matches Ok(p) ==> forall|i: int|
                0 <= i < p.children@.len() ==> is_decl_kind(#[trigger] p.children@[i].node_type),
            one_type_decl_program(old(self).toks(), old(self).current as int) ==> (r matches Ok(p)
                && program_matches_one_decl(p, old(self).toks(), old(self).current as int)),
            type_decls_from(old(self).toks(), old(self).current as int) matches Some(ds) ==> (r
                matches Ok(p) && program_matches_decls(p, ds)),
    {
        let ghost tv = old(self).toks();
        let ghost i0 = old(self).current as int;
        let ghost mut k: int = 0;
        let mut program = AstNode::new(AstNodeType::Program);
        while !self.is_at_end()
            invariant
                self.wf(),
                self.tokens == old(self).tokens,
                program.node_type == AstNodeType::Program,
                forall|i: int|
                    0 <= i < program.children@.len() ==> is_decl_kind(
                        #[trigger] program.children@[i].node_type,
                    ),
                tv == token_views(self.tokens@),
                i0 == old(self).current as int,
                one_type_decl_program(tv, i0) ==> ((self.current == i0 && program.children@.len()
                    == 0) || (self.current == decl_end(tv, i0) && program_matches_one_decl(
                    program,
                    tv,
                    i0,
                ))),
                type_decls_from(tv, i0) matches Some(ds) ==> (0 <= k <= ds.len() && self.current
                    == decls_pos(tv, i0, k) && program.children@.len() == k && (forall|j: int|
                    0 <= j < k ==> (#[trigger] program.children@[j]).node_type
                        == AstNodeType::TypeDecl && program.children@[j].str_prop("name"@) == Some(
                        ds[j].0,
                    ) && program.children@[j].children@.len() == 1 && type_node_matches(
                        program.children@[j].children@[0],
                        ds[j].1,
                    ))),
            decreases self.tokens@.len() - self.current,
        {
            proof {
                if one_type_decl_program(tv, i0) {
                    assert(tv.len() == self.tokens@.len());
                    assert(tv[self.current as int] == self.tokens@[self.current as int]@);
                    assert(self.peek_kind() == kind_at(tv, self.current as int));
                }
                match type_decls_from(tv, i0) {
                    Some(ds) => {
                        lemma_type_decls_skip(tv, i0, ds, k);
                        assert(tv[self.current as int] == self.tokens@[self.current as int]@);
                        assert(self.peek_kind() == kind_at(tv, self.current as int));
                        assert(kind_at(tv, self.current as int) != TokenType::Eof);
                        assert(ds.skip(k).len() > 0);
                        assert(k < ds.len());
                        assert(ds.skip(k)[0] == ds[k]);
                        lemma_type_decl_advances(tv, self.current as int);
                    },
                    None => (),
                }
            }
            let ghost pre_current = self.current as int;
            match self.parse_declaration() {
                Ok(decl) => {
                    program.add_child(decl);
                    proof {
                        assert(program.children@.last() == decl);
                        if one_type_decl_program(tv, i0) && program.children@.len() == 1 {
                            assert(program.children@[0] == decl);
                        }
                        match type_decls_from(tv, i0) {
                            Some(ds) => {
                                assert(decls_pos(tv, i0, k + 1) == decl_end(
                                    tv,
                                    decls_pos(tv, i0, k),
                                ));
                                assert(forall|j: int|
                                    0 <= j < k ==> program.children@[j]
                                        == program.children@.drop_last()[j]);
                                k = k + 1;
                                assert(program.children@[k - 1] == decl);
                            },
                            None => (),
                        }
                    }
                },
                Err(e) => {
                    proof {
                        if type_decls_from(tv, i0) is Some {
                            assert(false);
                        }
                    }
                    self.errors.push(e);
                    self.synchronize();
                },
            }
        }
        proof {
            match type_decls_from(tv, i0) {
                Some(ds) => {
                    lemma_type_decls_skip(tv, i0, ds, k);
                    assert(tv[self.current as int] == self.tokens@[self.current as int]@);
                    if k < ds.len() {
                        assert(ds.skip(k).len() > 0);
                        assert(kind_at(tv, self.current as int) != TokenType::Eof);
                        assert(false);
                    }
                    assert(program_matches_decls(program, ds));
                },
                None => (),
            }
        }
        Ok(program)
    }

    /// Dispatches on the leading keyword of a declaration.
    fn parse_declaration(&mut self) -> (r: Result<AstNode, ParseError>)
        requires
            old(self).wf(),
        ensures
            final(self).wf(),
            final(self).tokens == old(self).tokens,
            final(self).current >= old(self).current,
            r matches Ok(d) ==> decl_kind_for(old(self).peek_kind()) == Some(d.node_type) && final(self).current > old(self).current,
            decl_kind_for(old(self).peek_kind()) is None ==> r is Err && final(self).current
                == old(self).current,
            old(self).peek_kind() == TokenType::Type ==> (r is Ok <==> spec_type_decl_at(
                old(self).toks(),
                old(self).current as int,
            ) is Some),
            r matches Ok(d) ==> (old(self).peek_kind() == TokenType::Type ==> (spec_type_decl_at(
                old(self).toks(),
                old(self).current as int,
            ) matches Some(td) && d.str_prop("name"@) == Some(td.0) && d.children@.len() == 1
                && type_node_matches(d.children@[0], td.1) && final(self).current == td.2)),
        decreases self.tokens@.len() - self.current, 11int,
    {
        let k = self.tokens[self.current].token_type;
        if k == TokenType::Fn {
            self.parse_function_declaration()
        } else if k == TokenType::Type {
            self.parse_type_declaration()
        } else if k == TokenType::Class {
            self.parse_class_declaration()
        } else if k == TokenType::Import {
            self.parse_import_declaration()
        } else {
            Err(
                ParseError {
                    kind: ParseErrorKind::ExpectedDeclaration,
                    line: self.peek().line,
                    expected: TokenType::Error,
                    found: self.peek().token_type,
                },
            )
        }
    }

    /// A function: its name, optional parameters, optional return type and
    /// its body.
    fn parse_function_declaration(&mut self) -> (r: Result<AstNode, ParseError>)
        requires
            old(self).wf(),
        ensures
            final(self).wf(),
            final(self).tokens == old(self).tokens,
            final(self).current >= old(self).current,
            r is Ok ==> final(self).current > old(self).current,
            r is Ok ==> old(self).peek_kind() == TokenType::Fn,
            r matches Ok(f) ==> f.node_type == AstNodeType::FunctionDecl && f.str_prop("name"@)
                is Some && f.children@.len() >= 1 && f.children@.last().node_type
                == AstNodeType::FunctionBody && forall|i: int|
                0 <= i < f.children@.len() ==> (#[trigger] f.children@[i].node_type
                    == AstNodeType::ParamList || f.children@[i].node_type == AstNodeType::BasicType
                    || f.children@[i].node_type == AstNodeType::MeaningType
                    || f.children@[i].node_type == AstNodeType::FunctionBody),
            (kind_at(old(self).toks(), old(self).current as int) == TokenType::Fn && kind_at(
                old(self).toks(),
                old(self).current + 1,
            ) == TokenType::Identifier && kind_at(old(self).toks(), old(self).current + 2)
                == TokenType::LeftParen && kind_at(old(self).toks(), old(self).current + 3)
                == TokenType::RightParen && kind_at(old(self).toks(), old(self).current + 4)
                == TokenType::LeftBrace && kind_at(old(self).toks(), old(self).current + 5)
                == TokenType::RightBrace) ==> (r is Ok && final(self).current == old(self).current
                + 6),
        decreases self.tokens@.len() - self.current, 9int,
    {
        match self.consume(&TokenType::Fn) {
            Ok(_) => (),
            Err(e) => {
                return Err(e);
            },
        }
        let name = match self.consume_identifier() {
            Ok(n) => n,
            Err(e) => {
                return Err(e);
            },
        };
        let mut func = AstNode::new(AstNodeType::FunctionDecl);
        func.set_string("name", name.as_str());
        match self.consume(&TokenType::LeftParen) {
            Ok(_) => (),
            Err(e) => {
                return Err(e);
            },
        }
        if !self.check(&TokenType::RightParen) {
            let params = match self.parse_parameter_list() {
                Ok(p) => p,
                Err(e) => {
                    return Err(e);
                },
            };
            func.add_child(params);
        }
        match self.consume(&TokenType::RightParen) {
            Ok(_) => (),
            Err(e) => {
                return Err(e);
            },
        }
        // Optional return type
        if self.match_token(&TokenType::Arrow) {
            let return_type = match self.parse_type() {
                Ok(t) => t,
                Err(e) => {
                    return Err(e);
                },
            };
            func.add_child(return_type);
        }
        let body = match self.parse_block() {
            Ok(b) => b,
            Err(e) => {
                return Err(e);
            },
        };
        let mut func_body = AstNode::new(AstNodeType::FunctionBody);
        func_body.children = body.children;
        func.add_child(func_body);
        Ok(func)
    }

    /// A type alias declaration: its name and one type node.
    fn parse_type_declaration(&mut self) -> (r: Result<AstNode, ParseError>)
        requires
            old(self).wf(),
        ensures
            final(self).wf(),
            final(self).tokens == old(self).tokens,
            final(self).current >= old(self).current,
            r is Ok ==> final(self).current > old(self).current,
            r is Ok ==> old(self).peek_kind() == TokenType::Type,
            r matches Ok(t) ==> t.node_type == AstNodeType::TypeDecl && t.str_prop("name"@)
                is Some && t.children@.len() == 1 && wf_type_node(t.children@[0]),
            r is Ok <==> spec_type_decl_at(old(self).toks(), old(self).current as int) is Some,
            r matches Ok(t) ==> (spec_type_decl_at(old(self).toks(), old(self).current as int)
                matches Some(d) && t.str_prop("name"@) == Some(d.0) && type_node_matches(
                t.children@[0],
                d.1,
            ) && final(self).current == d.2),
        decreases self.tokens@.len() - self.current, 9int,
    {
        match self.consume(&TokenType::Type) {
            Ok(_) => (),
            Err(e) => {
                return Err(e);
            },
        }
        let name = match self.consume_identifier() {
            Ok(n) => n,
            Err(e) => {
                return Err(e);
            },
        };
        match self.consume(&TokenType::Equals) {
            Ok(_) => (),
            Err(e) => {
                return Err(e);
            },
        }
        let type_def = match self.parse_type() {
            Ok(t) => t,
            Err(e) => {
                return Err(e);
            },
        };
        match self.consume(&TokenType::Semicolon) {
            Ok(_) => (),
            Err(e) => {
                return Err(e);
            },
        }
        let mut type_decl = AstNode::new(AstNodeType::TypeDecl);
        type_decl.set_string("name", name.as_str());
        type_decl.add_child(type_def);
        Ok(type_decl)
    }

    /// A type: meaning-wrapped, or basic.
    fn parse_type(&mut self) -> (r: Result<AstNode, ParseError>)
        requires
            old(self).wf(),
        ensures
            final(self).wf(),
            final(self).tokens == old(self).tokens,
            final(self).current >= old(self).current,
            r is Ok ==> final(self).current > old(self).current,
            r matches Ok(t) ==> wf_type_node(t),
            r is Ok <==> spec_type_at(old(self).toks(), old(self).current as int) is Some,
            r matches Ok(t) ==> (spec_type_at(old(self).toks(), old(self).current as int)
                matches Some(p) && type_node_matches(t, p.0) && final(self).current == p.1),
        decreases self.tokens@.len() - self.current, 3int,
    {
        if self.match_token(&TokenType::Meaning) {
            self.parse_meaning_type()
        } else {
            self.parse_basic_type()
        }
    }

    /// The rest of a meaning-wrapped type, after the wrapper keyword: the
    /// base type in angle brackets and the meaning string in parentheses.
    fn parse_meaning_type(&mut self) -> (r: Result<AstNode, ParseError>)
        requires
            old(self).wf(),
        ensures
            final(self).wf(),
            final(self).tokens == old(self).tokens,
            final(self).current >= old(self).current,
            r is Ok ==> final(self).current > old(self).current,
            r matches Ok(t) ==> t.node_type == AstNodeType::MeaningType && wf_type_node(t),
            r is Ok <==> spec_meaning_at(old(self).toks(), old(self).current as int) is Some,
            r matches Ok(t) ==> (spec_meaning_at(old(self).toks(), old(self).current as int)
                matches Some(p) && type_node_matches(t, p.0) && final(self).current == p.1),
        decreases self.tokens@.len() - self.current, 2int,
    {
        match self.consume(&TokenType::LeftAngle) {
            Ok(_) => (),
            Err(e) => {
                return Err(e);
            },
        }
        let base_type = match self.parse_type() {
            Ok(t) => t,
            Err(e) => {
                return Err(e);
            },
        };
        match self.consume(&TokenType::RightAngle) {
            Ok(_) => (),
            Err(e) => {
                return Err(e);
            },
        }
        match self.consume(&TokenType::LeftParen) {
            Ok(_) => (),
            Err(e) => {
                return Err(e);
            },
        }
        let meaning = match self.consume_string_literal() {
            Ok(m) => m,
            Err(e) => {
                return Err(e);
            },
        };
        match self.consume(&TokenType::RightParen) {
            Ok(_) => (),
            Err(e) => {
                return Err(e);
            },
        }
        let mut meaning_type = AstNode::new(AstNodeType::MeaningType);
        meaning_type.set_string("meaning", meaning.as_str());
        meaning_type.add_child(base_type);
        proof {
            assert(meaning_type.children@[0] == base_type);
        }
        Ok(meaning_type)
    }

    /// A basic type: a bare type or alias name.
    fn parse_basic_type(&mut self) -> (r: Result<AstNode, ParseError>)
        requires
            old(self).wf(),
        ensures
            final(self).wf(),
            final(self).tokens == old(self).tokens,
            final(self).current >= old(self).current,
            r is Ok ==> final(self).current > old(self).current,
            r matches Ok(t) ==> t.node_type == AstNodeType::BasicType && wf_type_node(t),
            r is Ok <==> spec_basic_at(old(self).toks(), old(self).current as int) is Some,
            r matches Ok(t) ==> (spec_basic_at(old(self).toks(), old(self).current as int)
                matches Some(p) && type_node_matches(t, p.0) && final(self).current == p.1),
        decreases self.tokens@.len() - self.current, 1int,
    {
        let name = match self.consume_identifier() {
            Ok(n) => n,
            Err(e) => {
                return Err(e);
            },
        };
        let mut basic_type = AstNode::new(AstNodeType::BasicType);
        basic_type.set_string("type", name.as_str());
        Ok(basic_type)
    }

    /// A prompt statement. On success the node's template is exactly the
    /// text of the string literal that followed the keyword.
    fn parse_prompt_statement(&mut self) -> (r: Result<AstNode, ParseError>)
        requires
            old(self).wf(),
        ensures
            final(self).wf(),
            final(self).tokens == old(self).tokens,
            final(self).current >= old(self).current,
            r is Ok ==> final(self).current > old(self).current,
            old(self).peek_kind() == TokenType::Prompt ==> final(self).current > old(self).current,
            r matches Ok(p) ==> p.node_type == AstNodeType::PromptBlock && old(self).peek_kind()
                == TokenType::Prompt && old(self).current + 1 < old(self).tokens@.len() && old(self).tok(old(self).current + 1).kind == TokenType::StringLit && p.str_prop("template"@)
                == Some(old(self).tok(old(self).current + 1).text),
            r is Ok <==> (kind_at(old(self).toks(), old(self).current as int) == TokenType::Prompt
                && kind_at(old(self).toks(), old(self).current + 1) == TokenType::StringLit
                && kind_at(old(self).toks(), old(self).current + 2) == TokenType::Semicolon),
            r is Ok ==> final(self).current == old(self).current + 3,
        decreases self.tokens@.len() - self.current, 5int,
    {
        match self.consume(&TokenType::Prompt) {
            Ok(_) => (),
            Err(e) => {
                return Err(e);
            },
        }
        let template = match self.consume_string_literal() {
            Ok(t) => t,
            Err(e) => {
                return Err(e);
            },
        };
        match self.consume(&TokenType::Semicolon) {
            Ok(_) => (),
            Err(e) => {
                return Err(e);
            },
        }
        let mut prompt = AstNode::new(AstNodeType::PromptBlock);
        prompt.set_string("template", template.as_str());
        Ok(prompt)
    }

    /// Parameters separated by commas.
    fn parse_parameter_list(&mut self) -> (r: Result<AstNode, ParseError>)
        requires
            old(self).wf(),
        ensures
            final(self).wf(),
            final(self).tokens == old(self).tokens,
            final(self).current >= old(self).current,
            r is Ok ==> final(self).current > old(self).current,
            r matches Ok(p) ==> p.node_type == AstNodeType::ParamList && forall|i: int|
                0 <= i < p.children@.len() ==> wf_param_node(#[trigger] p.children@[i]),
            (kind_at(old(self).toks(), old(self).current as int) == TokenType::Identifier
                && kind_at(old(self).toks(), old(self).current + 1) == TokenType::Colon && kind_at(
                old(self).toks(),
                old(self).current + 2,
            ) == TokenType::Identifier && kind_at(old(self).toks(), old(self).current + 3)
                != TokenType::Comma) ==> (r is Ok && final(self).current == old(self).current + 3),
        decreases self.tokens@.len() - self.current, 5int,
    {
        let ghost tv = old(self).toks();
        let ghost i0 = old(self).current as int;
        let ghost single = kind_at(tv, i0) == TokenType::Identifier && kind_at(tv, i0 + 1)
            == TokenType::Colon && kind_at(tv, i0 + 2) == TokenType::Identifier && kind_at(
            tv,
            i0 + 3,
        ) != TokenType::Comma;
        let mut params = AstNode::new(AstNodeType::ParamList);
        let first = match self.parse_parameter() {
            Ok(p) => p,
            Err(e) => {
                proof {
                    assert(!single);
                }
                return Err(e);
            },
        };
        params.add_child(first);
        while self.match_token(&TokenType::Comma)
            invariant
                self.wf(),
                self.tokens == old(self).tokens,
                self.current > old(self).current,
                params.node_type == AstNodeType::ParamList,
                forall|i: int|
                    0 <= i < params.children@.len() ==> wf_param_node(
                        #[trigger] params.children@[i],
                    ),
                tv == token_views(self.tokens@),
                i0 == old(self).current as int,
                single == (kind_at(tv, i0) == TokenType::Identifier && kind_at(tv, i0 + 1)
                    == TokenType::Colon && kind_at(tv, i0 + 2) == TokenType::Identifier && kind_at(
                    tv,
                    i0 + 3,
                ) != TokenType::Comma),
                single ==> self.current == i0 + 3,
            decreases self.tokens@.len() - self.current,
        {
            proof {
                if single {
                    assert(kind_at(tv, i0 + 3) == self.tokens@[i0 + 3]@.kind);
                    assert(false);
                }
            }
            let p = match self.parse_parameter() {
                Ok(p) => p,
                Err(e) => {
                    return Err(e);
                },
            };
            params.add_child(p);
        }
        Ok(params)
    }

    /// One parameter: a name, a colon, a type.
    fn parse_parameter(&mut self) -> (r: Result<AstNode, ParseError>)
        requires
            old(self).wf(),
        ensures
            final(self).wf(),
            final(self).tokens == old(self).tokens,
            final(self).current >= old(self).current,
            r is Ok ==> final(self).current > old(self).current,
            r matches Ok(p) ==> wf_param_node(p),
            (kind_at(old(self).toks(), old(self).current as int) == TokenType::Identifier
                && kind_at(old(self).toks(), old(self).current + 1) == TokenType::Colon && kind_at(
                old(self).toks(),
                old(self).current + 2,
            ) == TokenType::Identifier) ==> (r is Ok && final(self).current == old(self).current
                + 3),
        decreases self.tokens@.len() - self.current, 4int,
    {
        let name = match self.consume_identifier() {
            Ok(n) => n,
            Err(e) => {
                return Err(e);
            },
        };
        match self.consume(&TokenType::Colon) {
            Ok(_) => (),
            Err(e) => {
                return Err(e);
            },
        }
        let param_type = match self.parse_type() {
            Ok(t) => t,
            Err(e) => {
                return Err(e);
            },
        };
        let mut param = AstNode::new(AstNodeType::Parameter);
        param.set_string("name", name.as_str());
        param.add_child(param_type);
        proof {
            assert(param.children@[0] == param_type);
        }
        Ok(param)
    }

    /// A braced block. A failed statement is recorded and skipped, as at
    /// the top level.
    fn parse_block(&mut self) -> (r: Result<AstNode, ParseError>)
        requires
            old(self).wf(),
        ensures
            final(self).wf(),
            final(self).tokens == old(self).tokens,
            final(self).current >= old(self).current,
            r is Ok ==> final(self).current > old(self).current,
            old(self).peek_kind() == TokenType::LeftBrace ==> final(self).current > old(
                self,
            ).current,
            r matches Ok(b) ==> b.node_type == AstNodeType::Block && forall|i: int|
                0 <= i < b.children@.len() ==> is_stmt_kind(#[trigger] b.children@[i].node_type),
            (kind_at(old(self).toks(), old(self).current as int) == TokenType::LeftBrace
                && kind_at(old(self).toks(), old(self).current + 1) == TokenType::RightBrace) ==> (
            r is Ok && final(self).current == old(self).current + 2),
        decreases self.tokens@.len() - self.current, 6int,
    {
        let ghost tv = old(self).toks();
        let ghost i0 = old(self).current as int;
        let ghost empty_body = kind_at(tv, i0) == TokenType::LeftBrace && kind_at(tv, i0 + 1)
            == TokenType::RightBrace;
        match self.consume(&TokenType::LeftBrace) {
            Ok(_) => (),
            Err(e) => {
                return Err(e);
            },
        }
        let mut block = AstNode::new(AstNodeType::Block);
        while !self.check(&TokenType::RightBrace) && !self.is_at_end()
            invariant
                self.wf(),
                self.tokens == old(self).tokens,
                self.current > old(self).current,
                block.node_type == AstNodeType::Block,
                forall|i: int|
                    0 <= i < block.children@.len() ==> is_stmt_kind(
                        #[trigger] block.children@[i].node_type,
                    ),
                tv == token_views(self.tokens@),
                empty_body == (kind_at(tv, i0) == TokenType::LeftBrace && kind_at(tv, i0 + 1)
                    == TokenType::RightBrace),
                empty_body ==> self.current == i0 + 1,
            decreases self.tokens@.len() - self.current,
        {
            match self.parse_statement() {
                Ok(stmt) => {
                    block.add_child(stmt);
                },
                Err(e) => {
                    self.errors.push(e);
                    self.synchronize();
                },
            }
        }
        match self.consume(&TokenType::RightBrace) {
            Ok(_) => (),
            Err(e) => {
                return Err(e);
            },
        }
        Ok(block)
    }

    /// Dispatches on the leading token of a statement.
    fn parse_statement(&mut self) -> (r: Result<AstNode, ParseError>)
        requires
            old(self).wf(),
        ensures
            final(self).wf(),
            final(self).tokens == old(self).tokens,
            final(self).current >= old(self).current,
            old(self).peek_kind() != TokenType::Eof ==> final(self).current > old(self).current,
            r matches Ok(s) ==> is_stmt_kind(s.node_type),
            (kind_at(old(self).toks(), old(self).current as int) == TokenType::Prompt && kind_at(
                old(self).toks(),
                old(self).current + 1,
            ) == TokenType::StringLit && kind_at(old(self).toks(), old(self).current + 2)
                == TokenType::Semicolon) ==> (r is Ok && final(self).current == old(self).current
                + 3),
            (kind_at(old(self).toks(), old(self).current as int) == TokenType::Return && kind_at(
                old(self).toks(),
                old(self).current + 1,
            ) == TokenType::Semicolon) ==> (r is Ok && final(self).current == old(self).current
                + 2),
            (kind_at(old(self).toks(), old(self).current as int) == TokenType::LeftBrace
                && kind_at(old(self).toks(), old(self).current + 1) == TokenType::RightBrace) ==> (
            r is Ok && final(self).current == old(self).current + 2),
        decreases self.tokens@.len() - self.current, 7int,
    {
        let k = self.tokens[self.current].token_type;
        if k == TokenType::Let {
            self.parse_variable_declaration()
        } else if k == TokenType::Return {
            self.parse_return_statement()
        } else if k == TokenType::Prompt {
            self.parse_prompt_statement()
        } else if k == TokenType::LeftBrace {
            self.parse_block()
        } else {
            self.parse_expression_statement()
        }
    }

    /// A variable declaration with an optional type annotation.
    fn parse_variable_declaration(&mut self) -> (r: Result<AstNode, ParseError>)
        requires
            old(self).wf(),
        ensures
            final(self).wf(),
            final(self).tokens == old(self).tokens,
            final(self).current >= old(self).current,
            old(self).peek_kind() == TokenType::Let ==> final(self).current > old(self).current,
            r matches Ok(v) ==> v.node_type == AstNodeType::VarDecl && v.str_prop("name"@) is Some
                && 1 <= v.children@.len() <= 2 && is_expr_kind(v.children@.last().node_type),
            (kind_at(old(self).toks(), old(self).current as int) == TokenType::Let && kind_at(
                old(self).toks(),
                old(self).current + 1,
            ) == TokenType::Identifier && kind_at(old(self).toks(), old(self).current + 2)
                == TokenType::Equals && primary_kind_for(
                kind_at(old(self).toks(), old(self).current + 3),
            ) is Some && kind_at(old(self).toks(), old(self).current + 4) == TokenType::Semicolon)
                ==> (r is Ok && final(self).current == old(self).current + 5),
        decreases self.tokens@.len() - self.current, 5int,
    {
        match self.consume(&TokenType::Let) {
            Ok(_) => (),
            Err(e) => {
                return Err(e);
            },
        }
        let name = match self.consume_identifier() {
            Ok(n) => n,
            Err(e) => {
                return Err(e);
            },
        };
        let mut var_decl = AstNode::new(AstNodeType::VarDecl);
        var_decl.set_string("name", name.as_str());
        // Optional type annotation
        if self.match_token(&TokenType::Colon) {
            let var_type = match self.parse_type() {
                Ok(t) => t,
                Err(e) => {
                    return Err(e);
                },
            };
            var_decl.add_child(var_type);
        }
        match self.consume(&TokenType::Equals) {
            Ok(_) => (),
            Err(e) => {
                return Err(e);
            },
        }
        let init_expr = match self.parse_expression() {
            Ok(x) => x,
            Err(e) => {
                return Err(e);
            },
        };
        var_decl.add_child(init_expr);
        match self.consume(&TokenType::Semicolon) {
            Ok(_) => (),
            Err(e) => {
                return Err(e);
            },
        }
        Ok(var_decl)
    }

    /// A return statement with an optional expression.
    fn parse_return_statement(&mut self) -> (r: Result<AstNode, ParseError>)
        requires
            old(self).wf(),
        ensures
            final(self).wf(),
            final(self).tokens == old(self).tokens,
            final(self).current >= old(self).current,
            old(self).peek_kind() == TokenType::Return ==> final(self).current > old(self).current,
            r matches Ok(s) ==> s.node_type == AstNodeType::ReturnStmt && s.children@.len() <= 1,
            (kind_at(old(self).toks(), old(self).current as int) == TokenType::Return && kind_at(
                old(self).toks(),
                old(self).current + 1,
            ) == TokenType::Semicolon) ==> (r is Ok && final(self).current == old(self).current
                + 2),
        decreases self.tokens@.len() - self.current, 5int,
    {
        match self.consume(&TokenType::Return) {
            Ok(_) => (),
            Err(e) => {
                return Err(e);
            },
        }
        let mut ret_stmt = AstNode::new(AstNodeType::ReturnStmt);
        if !self.check(&TokenType::Semicolon) {
            let expr = match self.parse_expression() {
                Ok(x) => x,
                Err(e) => {
                    return Err(e);
                },
            };
            ret_stmt.add_child(expr);
        }
        match self.consume(&TokenType::Semicolon) {
            Ok(_) => (),
            Err(e) => {
                return Err(e);
            },
        }
        Ok(ret_stmt)
    }

    /// An expression in statement position.
    fn parse_expression_statement(&mut self) -> (r: Result<AstNode, ParseError>)
        requires
            old(self).wf(),
        ensures
            final(self).wf(),
            final(self).tokens == old(self).tokens,
            final(self).current >= old(self).current,
            old(self).peek_kind() != TokenType::Eof ==> final(self).current > old(self).current,
            r matches Ok(s) ==> s.node_type == AstNodeType::ExprStmt && s.children@.len() == 1
                && is_expr_kind(s.children@[0].node_type),
            (primary_kind_for(kind_at(old(self).toks(), old(self).current as int)) is Some
                && kind_at(old(self).toks(), old(self).current + 1) == TokenType::Semicolon) ==> (
            r is Ok && final(self).current == old(self).current + 2),
        decreases self.tokens@.len() - self.current, 5int,
    {
        let expr = match self.parse_expression() {
            Ok(x) => x,
            Err(e) => {
                return Err(e);
            },
        };
        match self.consume(&TokenType::Semicolon) {
            Ok(_) => (),
            Err(e) => {
                return Err(e);
            },
        }
        let mut expr_stmt = AstNode::new(AstNodeType::ExprStmt);
        expr_stmt.add_child(expr);
        proof {
            assert(expr_stmt.children@[0] == expr);
        }
        Ok(expr_stmt)
    }

    /// An expression: call expressions over primaries.
    fn parse_expression(&mut self) -> (r: Result<AstNode, ParseError>)
        requires
            old(self).wf(),
        ensures
            final(self).wf(),
            final(self).tokens == old(self).tokens,
            final(self).current >= old(self).current,
            old(self).peek_kind() != TokenType::Eof ==> final(self).current > old(self).current,
            r is Ok ==> final(self).current > old(self).current,
            r matches Ok(x) ==> is_expr_kind(x.node_type),
            (primary_kind_for(kind_at(old(self).toks(), old(self).current as int)) is Some
                && kind_at(old(self).toks(), old(self).current + 1) != TokenType::LeftParen) ==> (
            r is Ok && final(self).current == old(self).current + 1),
        decreases self.tokens@.len() - self.current, 3int,
    {
        self.parse_call_expression()
    }

    /// A left-associative chain of call expressions over a primary.
    fn parse_call_expression(&mut self) -> (r: Result<AstNode, ParseError>)
        requires
            old(self).wf(),
        ensures
            final(self).wf(),
            final(self).tokens == old(self).tokens,
            final(self).current >= old(self).current,
            old(self).peek_kind() != TokenType::Eof ==> final(self).current > old(self).current,
            r is Ok ==> final(self).current > old(self).current,
            r matches Ok(x) ==> is_expr_kind(x.node_type),
            (primary_kind_for(kind_at(old(self).toks(), old(self).current as int)) is Some
                && kind_at(old(self).toks(), old(self).current + 1) != TokenType::LeftParen) ==> (
            r is Ok && final(self).current == old(self).current + 1),
        decreases self.tokens@.len() - self.current, 2int,
    {
        let ghost tv = old(self).toks();
        let ghost i0 = old(self).current as int;
        let ghost simple = primary_kind_for(kind_at(tv, i0)) is Some && kind_at(tv, i0 + 1)
            != TokenType::LeftParen;
        let mut expr = match self.parse_primary() {
            Ok(x) => x,
            Err(e) => {
                return Err(e);
            },
        };
        while self.match_token(&TokenType::LeftParen)
            invariant
                self.wf(),
                self.tokens == old(self).tokens,
                self.current > old(self).current,
                is_expr_kind(expr.node_type),
                tv == token_views(self.tokens@),
                i0 == old(self).current as int,
                simple == (primary_kind_for(kind_at(tv, i0)) is Some && kind_at(tv, i0 + 1)
                    != TokenType::LeftParen),
                simple ==> self.current == i0 + 1,
            decreases self.tokens@.len() - self.current,
        {
            let mut call = AstNode::new(AstNodeType::CallExpr);
            match expr.get_string("name") {
                Some(name) => {
                    call.set_string("function", name.as_str());
                },
                None => (),
            }
            if !self.check(&TokenType::RightParen) {
                let mut args = match self.parse_argument_list() {
                    Ok(a) => a,
                    Err(e) => {
                        return Err(e);
                    },
                };
                call.children = args.children;
            }
            match self.consume(&TokenType::RightParen) {
                Ok(_) => (),
                Err(e) => {
                    return Err(e);
                },
            }
            expr = call;
        }
        Ok(expr)
    }

    /// Call arguments separated by commas.
    fn parse_argument_list(&mut self) -> (r: Result<AstNode, ParseError>)
        requires
            old(self).wf(),
        ensures
            final(self).wf(),
            final(self).tokens == old(self).tokens,
            final(self).current >= old(self).current,
            r is Ok ==> final(self).current > old(self).current,
            r matches Ok(a) ==> a.node_type == AstNodeType::ParamList,
            (primary_kind_for(kind_at(old(self).toks(), old(self).current as int)) is Some
                && kind_at(old(self).toks(), old(self).current + 1) != TokenType::LeftParen
                && kind_at(old(self).toks(), old(self).current + 1) != TokenType::Comma) ==> (r
                is Ok && final(self).current == old(self).current + 1),
        decreases self.tokens@.len() - self.current, 4int,
    {
        let ghost tv = old(self).toks();
        let ghost i0 = old(self).current as int;
        let ghost single = primary_kind_for(kind_at(tv, i0)) is Some && kind_at(tv, i0 + 1)
            != TokenType::LeftParen && kind_at(tv, i0 + 1) != TokenType::Comma;
        let mut args = AstNode::new(AstNodeType::ParamList);
        let first = match self.parse_expression() {
            Ok(x) => x,
            Err(e) => {
                proof {
                    assert(!single);
                }
                return Err(e);
            },
        };
        args.add_child(first);
        while self.match_token(&TokenType::Comma)
            invariant
                self.wf(),
                self.tokens == old(self).tokens,
                self.current > old(self).current,
                args.node_type == AstNodeType::ParamList,
                tv == token_views(self.tokens@),
                i0 == old(self).current as int,
                single == (primary_kind_for(kind_at(tv, i0)) is Some && kind_at(tv, i0 + 1)
                    != TokenType::LeftParen && kind_at(tv, i0 + 1) != TokenType::Comma),
                single ==> self.current == i0 + 1,
            decreases self.tokens@.len() - self.current,
        {
            proof {
                if single {
                    assert(kind_at(tv, i0 + 1) == self.tokens@[i0 + 1]@.kind);
                    assert(false);
                }
            }
            let ghost loop_current = self.current;
            let x = match self.parse_expression() {
                Ok(x) => x,
                Err(e) => {
                    return Err(e);
                },
            };
            args.add_child(x);
            proof {
                assert(self.current > loop_current);
            }
        }
        Ok(args)
    }

    /// A literal or an identifier. The one token under the cursor is taken;
    /// its kind decides the node.
    fn parse_primary(&mut self) -> (r: Result<AstNode, ParseError>)
        requires
            old(self).wf(),
        ensures
            final(self).wf(),
            final(self).tokens == old(self).tokens,
            final(self).current >= old(self).current,
            old(self).peek_kind() != TokenType::Eof ==> final(self).current > old(self).current,
            r is Ok ==> final(self).current == old(self).current + 1,
            r matches Ok(n) ==> primary_kind_for(old(self).peek_kind()) == Some(n.node_type),
            r matches Ok(n) ==> (n.node_type == AstNodeType::Identifier ==> n.str_prop("name"@)
                == Some(old(self).tok(old(self).current as int).text)),
            r matches Ok(n) ==> (n.node_type == AstNodeType::StringLiteral ==> n.str_prop(
                "value"@,
            ) == Some(old(self).tok(old(self).current as int).text)),
            r matches Ok(n) ==> (n.node_type == AstNodeType::IntLiteral ==> n.int_prop("value"@)
                == Some(spec_int_literal_value(old(self).tok(old(self).current as int).text))),
            r matches Ok(n) ==> (n.node_type == AstNodeType::FloatLiteral ==> n.str_prop(
                "value"@,
            ) == Some(old(self).tok(old(self).current as int).text)),
            r matches Ok(n) ==> (n.node_type == AstNodeType::BoolLiteral ==> n.bool_prop("value"@)
                == Some(old(self).tok(old(self).current as int).text == "true"@)),
            r is Err ==> primary_kind_for(old(self).peek_kind()) is None,
        decreases self.tokens@.len() - self.current, 1int,
    {
        let kind = self.tokens[self.current].token_type;
        let text = self.tokens[self.current].value.clone();
        let line = self.tokens[self.current].line;
        self.advance();
        if kind == TokenType::StringLit {
            let mut node = AstNode::new(AstNodeType::StringLiteral);
            node.set_string("value", text.as_str());
            Ok(node)
        } else if kind == TokenType::IntLit {
            let mut node = AstNode::new(AstNodeType::IntLiteral);
            node.set_int("value", parse_i64_saturated(text.as_str()));
            Ok(node)
        } else if kind == TokenType::FloatLit {
            // The literal's source text is kept; nothing downstream reads
            // it back as a number.
            let mut node = AstNode::new(AstNodeType::FloatLiteral);
            node.set_string("value", text.as_str());
            Ok(node)
        } else if kind == TokenType::BoolLit {
            let mut node = AstNode::new(AstNodeType::BoolLiteral);
            node.set_bool("value", str_eq(text.as_str(), "true"));
            Ok(node)
        } else if kind == TokenType::Identifier {
            let mut node = AstNode::new(AstNodeType::Identifier);
            node.set_string("name", text.as_str());
            Ok(node)
        } else {
            Err(
                ParseError {
                    kind: ParseErrorKind::UnexpectedExpressionToken,
                    line,
                    expected: TokenType::Error,
                    found: kind,
                },
            )
        }
    }

    /// A class: functions and typed fields between braces.
    fn parse_class_declaration(&mut self) -> (r: Result<AstNode, ParseError>)
        requires
            old(self).wf(),
        ensures
            final(self).wf(),
            final(self).tokens == old(self).tokens,
            final(self).current >= old(self).current,
            r is Ok ==> final(self).current > old(self).current,
            r is Ok ==> old(self).peek_kind() == TokenType::Class,
            r matches Ok(c) ==> c.node_type == AstNodeType::ClassDecl && c.str_prop("name"@)
                is Some && forall|i: int|
                0 <= i < c.children@.len() ==> (#[trigger] c.children@[i].node_type
                    == AstNodeType::FunctionDecl || c.children@[i].node_type
                    == AstNodeType::MemberVar),
            (kind_at(old(self).toks(), old(self).current as int) == TokenType::Class && kind_at(
                old(self).toks(),
                old(self).current + 1,
            ) == TokenType::Identifier && kind_at(old(self).toks(), old(self).current + 2)
                == TokenType::LeftBrace && kind_at(old(self).toks(), old(self).current + 3)
                == TokenType::RightBrace) ==> (r is Ok && final(self).current == old(self).current
                + 4),
        decreases self.tokens@.len() - self.current, 10int,
    {
        match self.consume(&TokenType::Class) {
            Ok(_) => (),
            Err(e) => {
                return Err(e);
            },
        }
        let name = match self.consume_identifier() {
            Ok(n) => n,
            Err(e) => {
                return Err(e);
            },
        };
        match self.consume(&TokenType::LeftBrace) {
            Ok(_) => (),
            Err(e) => {
                return Err(e);
            },
        }
        let ghost tv = old(self).toks();
        let ghost i0 = old(self).current as int;
        let ghost empty_body = kind_at(tv, i0) == TokenType::Class && kind_at(tv, i0 + 1)
            == TokenType::Identifier && kind_at(tv, i0 + 2) == TokenType::LeftBrace && kind_at(
            tv,
            i0 + 3,
        ) == TokenType::RightBrace;
        let mut class = AstNode::new(AstNodeType::ClassDecl);
        class.set_string("name", name.as_str());
        while !self.check(&TokenType::RightBrace) && !self.is_at_end()
            invariant
                self.wf(),
                self.tokens == old(self).tokens,
                self.current > old(self).current,
                class.node_type == AstNodeType::ClassDecl,
                class.str_prop("name"@) is Some,
                tv == token_views(self.tokens@),
                empty_body == (kind_at(tv, i0) == TokenType::Class && kind_at(tv, i0 + 1)
                    == TokenType::Identifier && kind_at(tv, i0 + 2) == TokenType::LeftBrace
                    && kind_at(tv, i0 + 3) == TokenType::RightBrace),
                empty_body ==> self.current == i0 + 3,
                forall|i: int|
                    0 <= i < class.children@.len() ==> (#[trigger] class.children@[i].node_type
                        == AstNodeType::FunctionDecl || class.children@[i].node_type
                        == AstNodeType::MemberVar),
            decreases self.tokens@.len() - self.current,
        {
            match self.parse_class_member() {
                Ok(member) => {
                    class.add_child(member);
                },
                Err(e) => {
                    self.errors.push(e);
                    self.synchronize();
                },
            }
        }
        match self.consume(&TokenType::RightBrace) {
            Ok(_) => (),
            Err(e) => {
                return Err(e);
            },
        }
        Ok(class)
    }

    /// A class member: a nested function, or a typed field.
    fn parse_class_member(&mut self) -> (r: Result<AstNode, ParseError>)
        requires
            old(self).wf(),
        ensures
            final(self).wf(),
            final(self).tokens == old(self).tokens,
            final(self).current >= old(self).current,
            r is Ok ==> final(self).current > old(self).current,
            r matches Ok(m) ==> m.node_type == AstNodeType::FunctionDecl || m.node_type
                == AstNodeType::MemberVar,
            (kind_at(old(self).toks(), old(self).current as int) == TokenType::Identifier
                && kind_at(old(self).toks(), old(self).current + 1) == TokenType::Colon && kind_at(
                old(self).toks(),
                old(self).current + 2,
            ) == TokenType::Identifier && kind_at(old(self).toks(), old(self).current + 3)
                == TokenType::Semicolon) ==> (r is Ok && final(self).current == old(self).current
                + 4),
        decreases self.tokens@.len() - self.current, 10int,
    {
        let k = self.tokens[self.current].token_type;
        if k == TokenType::Fn {
            self.parse_function_declaration()
        } else if k == TokenType::Identifier {
            self.parse_member_variable()
        } else {
            Err(
                ParseError {
                    kind: ParseErrorKind::ExpectedClassMember,
                    line: self.peek().line,
                    expected: TokenType::Error,
                    found: self.peek().token_type,
                },
            )
        }
    }

    /// A typed field of a class.
    fn parse_member_variable(&mut self) -> (r: Result<AstNode, ParseError>)
        requires
            old(self).wf(),
        ensures
            final(self).wf(),
            final(self).tokens == old(self).tokens,
            final(self).current >= old(self).current,
            r is Ok ==> final(self).current > old(self).current,
            r matches Ok(v) ==> v.node_type == AstNodeType::MemberVar && v.str_prop("name"@)
                is Some && v.children@.len() == 1 && wf_type_node(v.children@[0]),
            (kind_at(old(self).toks(), old(self).current as int) == TokenType::Identifier
                && kind_at(old(self).toks(), old(self).current + 1) == TokenType::Colon && kind_at(
                old(self).toks(),
                old(self).current + 2,
            ) == TokenType::Identifier && kind_at(old(self).toks(), old(self).current + 3)
                == TokenType::Semicolon) ==> (r is Ok && final(self).current == old(self).current
                + 4),
        decreases self.tokens@.len() - self.current, 9int,
    {
        let name = match self.consume_identifier() {
            Ok(n) => n,
            Err(e) => {
                return Err(e);
            },
        };
        match self.consume(&TokenType::Colon) {
            Ok(_) => (),
            Err(e) => {
                return Err(e);
            },
        }
        let var_type = match self.parse_type() {
            Ok(t) => t,
            Err(e) => {
                return Err(e);
            },
        };
        match self.consume(&TokenType::Semicolon) {
            Ok(_) => (),
            Err(e) => {
                return Err(e);
            },
        }
        let mut var = AstNode::new(AstNodeType::MemberVar);
        var.set_string("name", name.as_str());
        var.add_child(var_type);
        proof {
            assert(var.children@[0] == var_type);
        }
        Ok(var)
    }

    /// An import declaration: a path string.
    fn parse_import_declaration(&mut self) -> (r: Result<AstNode, ParseError>)
        requires
            old(self).wf(),
        ensures
            final(self).wf(),
            final(self).tokens == old(self).tokens,
            final(self).current >= old(self).current,
            r is Ok ==> final(self).current > old(self).current,
            r is Ok ==> old(self).peek_kind() == TokenType::Import,
            r matches Ok(n) ==> n.node_type == AstNodeType::Import && n.str_prop("path"@) is Some,
            r is Ok <==> (kind_at(old(self).toks(), old(self).current as int) == TokenType::Import
                && kind_at(old(self).toks(), old(self).current + 1) == TokenType::StringLit
                && kind_at(old(self).toks(), old(self).current + 2) == TokenType::Semicolon),
            r matches Ok(n) ==> n.str_prop("path"@) == Some(
                text_at(old(self).toks(), old(self).current + 1),
            ) && final(self).current == old(self).current + 3,
        decreases self.tokens@.len() - self.current, 9int,
    {
        match self.consume(&TokenType::Import) {
            Ok(_) => (),
            Err(e) => {
                return Err(e);
            },
        }
        let path = match self.consume_string_literal() {
            Ok(p) => p,
            Err(e) => {
                return Err(e);
            },
        };
        match self.consume(&TokenType::Semicolon) {
            Ok(_) => (),
            Err(e) => {
                return Err(e);
            },
        }
        let mut import = AstNode::new(AstNodeType::Import);
        import.set_string("path", path.as_str());
        Ok(import)
    }

    /// Parses the whole token stream into a program node.
    pub fn parse(&mut self) -> (r: Result<AstNode, ParseError>)
        requires
            old(self).wf(),
        ensures
            final(self).wf(),
            r matches Ok(p) && p.node_type == AstNodeType::Program,
            r matches Ok(p) ==> forall|i: int|
                0 <= i < p.children@.len() ==> is_decl_kind(#[trigger] p.children@[i].node_type),
            one_type_decl_program(old(self).toks(), old(self).current as int) ==> (r matches Ok(p)
                && program_matches_one_decl(p, old(self).toks(), old(self).current as int)),
            type_decls_from(old(self).toks(), old(self).current as int) matches Some(ds) ==> (r
                matches Ok(p) && program_matches_decls(p, ds)),
    {
        self.parse_program()
    }
}

/// Parses a source text into a program node. Syntax errors inside the text
/// are recovered from, so the call itself always succeeds; the result
/// holds the declarations that parsed, in source order.
pub fn parse_string(source: &str) -> (r: Result<AstNode, ParseError>)
    requires
        source@.len() < usize::MAX,
    ensures
        r matches Ok(p) && p.node_type == AstNodeType::Program,
        r matches Ok(p) ==> forall|i: int|
            0 <= i < p.children@.len() ==> is_decl_kind(#[trigger] p.children@[i].node_type),
        one_type_decl_program(lex(source@), 0) ==> (r matches Ok(p) && program_matches_one_decl(
            p,
            lex(source@),
            0,
        )),
        type_decls_from(lex(source@), 0) matches Some(ds) ==> (r matches Ok(p)
            && program_matches_decls(p, ds)),
{
    let mut parser = match Parser::new(source) {
        Ok(p) => p,
        Err(e) => {
            return Err(e);
        },
    };
    parser.parse()
}

/// The same entry point under the name other callers use.
pub fn parse_source(source: &str) -> (r: Result<AstNode, ParseError>)
    requires
        source@.len() < usize::MAX,
    ensures
        r matches Ok(p) && p.node_type == AstNodeType::Program,
        r matches Ok(p) ==> forall|i: int|
            0 <= i < p.children@.len() ==> is_decl_kind(#[trigger] p.children@[i].node_type),
        one_type_decl_program(lex(source@), 0) ==> (r matches Ok(p) && program_matches_one_decl(
            p,
            lex(source@),
            0,
        )),
        type_decls_from(lex(source@), 0) matches Some(ds) ==> (r matches Ok(p)
            && program_matches_decls(p, ds)),
{
    parse_string(source)
}

} // verus!
