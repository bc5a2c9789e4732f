//! The parser: tokens to a syntax tree and the memory mode that the source selects.
//!
//! One token of lookahead selects every branch; nothing is read twice. At the
//! top level a memory-mode directive sets the mode and leaves no node; the last
//! one counts, and without one the mode is manual. The first token that does
//! not fit ends the parsing with an error that is placed on it.

use vstd::prelude::*;
use crate::ast::{AstNode, AstNodeKind, AstNodeView, MemoryMode, Type, literal_type, synthetic_token};
use crate::token::{Token, TokenKind, TokenKindView, TokenView, ends_in_eof, token_views};

verus! {

/// Why parsing stopped. Each error is placed on the token that did not fit.
#[derive(Debug, Clone, Copy, PartialEq, Eq, Structural)]
pub enum ParseError {
    /// A token that no statement can begin or go on with.
    UnexpectedToken { line: u32, column: u32 },
    /// The end of the tokens inside a block.
    UnclosedBlock { line: u32, column: u32 },
    /// A token that is neither a number, a string nor an identifier, where an
    /// expression stands.
    UnexpectedInExpression { line: u32, column: u32 },
}

/// A node and the place of the first token after it, or the error.
pub type Parsed = Result<(AstNodeView, int), ParseError>;

/// Nodes and the place of the first token after them, or the error.
pub type ParsedItems = Result<(Seq<AstNodeView>, int), ParseError>;

/// The token at `pos`; past the end, an `Eof` that stands nowhere.
pub open spec fn token_at(tokens: Seq<TokenView>, pos: int) -> TokenView {
    if 0 <= pos < tokens.len() {
        tokens[pos]
    } else {
        TokenView { kind: TokenKindView::Eof, line: 0, column: 0 }
    }
}

pub open spec fn unexpected_token(token: TokenView) -> ParseError {
    ParseError::UnexpectedToken { line: token.line, column: token.column }
}

pub open spec fn unclosed_block(token: TokenView) -> ParseError {
    ParseError::UnclosedBlock { line: token.line, column: token.column }
}

pub open spec fn unexpected_in_expression(token: TokenView) -> ParseError {
    ParseError::UnexpectedInExpression { line: token.line, column: token.column }
}

/// The type that a type keyword declares.
pub open spec fn declared_type(keyword: TokenKindView) -> Type {
    if keyword is IntType {
        Type::Int32
    } else {
        Type::StringT
    }
}

/// An expression is one token: a number, a string or an identifier.
pub open spec fn parse_expression_spec(tokens: Seq<TokenView>, pos: int) -> Parsed {
    let token = token_at(tokens, pos);
    match token.kind {
        TokenKindView::Number(_) | TokenKindView::String(_) | TokenKindView::Identifier(_) => Ok(
            (AstNodeView::leaf(AstNodeKind::Expr, token, literal_type(token.kind)), pos + 1),
        ),
        _ => Err(unexpected_in_expression(token)),
    }
}

/// `= Expr ;` from `pos` on, as the single child of a node of the given kind that
/// is placed on `name`.
pub open spec fn parse_binding_spec(
    tokens: Seq<TokenView>,
    pos: int,
    kind: AstNodeKind,
    name: TokenView,
    inferred_type: Option<Type>,
) -> Parsed {
    if !(token_at(tokens, pos).kind is Assign) {
        Err(unexpected_token(token_at(tokens, pos)))
    } else {
        match parse_expression_spec(tokens, pos + 1) {
            Err(e) => Err(e),
            Ok((value, next)) => if !(token_at(tokens, next).kind is Semicolon) {
                Err(unexpected_token(token_at(tokens, next)))
            } else {
                Ok((AstNodeView { kind, children: seq![value], token: name, inferred_type }, next + 1))
            },
        }
    }
}

/// The statement that begins at `pos`.
///
/// - `import`
/// - `class` name `[` block, `func` name `[` block
/// - `log` string, with a `;` after it if one stands there
/// - `int` name `=` expression `;`, and the same with `string`
/// - name `=` expression `;`
pub open spec fn parse_statement_spec(tokens: Seq<TokenView>, pos: int) -> Parsed
    decreases tokens.len() - pos, 0int,
{
    let first = token_at(tokens, pos);
    let second = token_at(tokens, pos + 1);
    match first.kind {
        TokenKindView::Import => Ok((AstNodeView::leaf(AstNodeKind::Import, first, None), pos + 1)),
        TokenKindView::Class | TokenKindView::Func => {
            if !(second.kind is Identifier) {
                Err(unexpected_token(second))
            } else {
                match parse_body_spec(tokens, pos + 2) {
                    Err(e) => Err(e),
                    Ok((body, next)) => Ok(
                        (
                            AstNodeView {
                                kind: if first.kind is Class {
                                    AstNodeKind::ClassDef
                                } else {
                                    AstNodeKind::FuncDef
                                },
                                children: seq![body],
                                token: second,
                                inferred_type: None,
                            },
                            next,
                        ),
                    ),
                }
            }
        },
        TokenKindView::Log => {
            if !(second.kind is String) {
                Err(unexpected_token(second))
            } else {
                Ok(
                    (
                        AstNodeView::leaf(AstNodeKind::LogStmt, second, None),
                        if token_at(tokens, pos + 2).kind is Semicolon {
                            pos + 3
                        } else {
                            pos + 2
                        },
                    ),
                )
            }
        },
        TokenKindView::IntType | TokenKindView::StringType => {
            if !(second.kind is Identifier) {
                Err(unexpected_token(second))
            } else {
                parse_binding_spec(
                    tokens,
                    pos + 2,
                    AstNodeKind::VarDecl,
                    second,
                    Some(declared_type(first.kind)),
                )
            }
        },
        TokenKindView::Identifier(_) => parse_binding_spec(
            tokens,
            pos + 1,
            AstNodeKind::AssignStmt,
            first,
            None,
        ),
        _ => Err(unexpected_token(first)),
    }
}

/// The token that a block whose statements begin at `pos` is placed on: the
/// token before them, which is the `[` wherever a statement reads the block.
/// A block that begins with the tokens stands on the token that stands nowhere.
pub open spec fn block_token(tokens: Seq<TokenView>, pos: int) -> TokenView {
    if 1 <= pos <= tokens.len() {
        tokens[pos - 1]
    } else {
        synthetic_token()
    }
}

/// The body of a class or a function at `pos`: `[`, then a block.
pub open spec fn parse_body_spec(tokens: Seq<TokenView>, pos: int) -> Parsed
    decreases tokens.len() - pos, 1int,
{
    let open = token_at(tokens, pos);
    if !(open.kind is OpenBracket) {
        Err(unexpected_token(open))
    } else {
        parse_block_spec(tokens, pos + 1)
    }
}

/// The block whose statements begin at `pos`, just after its `[`: statements,
/// then `]`.
pub open spec fn parse_block_spec(tokens: Seq<TokenView>, pos: int) -> Parsed
    decreases tokens.len() - pos, 2int,
{
    match parse_items_spec(tokens, pos) {
        Err(e) => Err(e),
        Ok((items, next)) => Ok(
            (
                AstNodeView {
                    kind: AstNodeKind::Block,
                    children: items,
                    token: block_token(tokens, pos),
                    inferred_type: None,
                },
                next,
            ),
        ),
    }
}

/// The statements from `pos` up to the `]` that closes their block, and the
/// place after that `]`.
///
/// A statement always ends after the place where it begins and within the
/// tokens ([`lemma_statement_extent`]); the test for it is here so that the
/// definition is seen to end.
pub open spec fn parse_items_spec(tokens: Seq<TokenView>, pos: int) -> ParsedItems
    decreases tokens.len() - pos, 1int,
{
    let token = token_at(tokens, pos);
    if token.kind is Eof {
        Err(unclosed_block(token))
    } else if token.kind is CloseBracket {
        Ok((Seq::empty(), pos + 1))
    } else {
        match parse_statement_spec(tokens, pos) {
            Err(e) => Err(e),
            Ok((statement, next)) => if pos < next <= tokens.len() {
                match parse_items_spec(tokens, next) {
                    Err(e) => Err(e),
                    Ok((rest, end)) => Ok((seq![statement] + rest, end)),
                }
            } else {
                Err(unclosed_block(token))
            },
        }
    }
}

/// The statements from `pos` up to `Eof`, and the memory mode in force at the
/// end, where `mode` is in force at `pos`. A directive sets the mode and leaves
/// no node.
pub open spec fn parse_top_spec(tokens: Seq<TokenView>, pos: int, mode: MemoryMode) -> Result<
    (Seq<AstNodeView>, MemoryMode),
    ParseError,
>
    decreases tokens.len() - pos,
{
    let token = token_at(tokens, pos);
    if token.kind is Eof {
        Ok((Seq::empty(), mode))
    } else if token.kind is ManualModeDirective {
        parse_top_spec(tokens, pos + 1, MemoryMode::Manual)
    } else if token.kind is AutoModeDirective {
        parse_top_spec(tokens, pos + 1, MemoryMode::Auto)
    } else {
        proof {
            lemma_statement_extent(tokens, pos);
        }
        match parse_statement_spec(tokens, pos) {
            Err(e) => Err(e),
            Ok((statement, next)) => match parse_top_spec(tokens, next, mode) {
                Err(e) => Err(e),
                Ok((rest, last)) => Ok((seq![statement] + rest, last)),
            },
        }
    }
}

/// The place where the reading of `= Expr ;` ends: after its last token where
/// it fits, else after the first token that does not fit.
pub open spec fn binding_stop(tokens: Seq<TokenView>, pos: int) -> int {
    if !(token_at(tokens, pos).kind is Assign) {
        pos + 1
    } else if parse_expression_spec(tokens, pos + 1) is Err {
        pos + 2
    } else {
        pos + 3
    }
}

/// The place where the reading of a statement ends: after its last token
/// where it fits, else after the first token that does not fit, or on the
/// `Eof` inside a block.
pub open spec fn statement_stop(tokens: Seq<TokenView>, pos: int) -> int
    decreases tokens.len() - pos, 0int,
{
    let first = token_at(tokens, pos);
    let second = token_at(tokens, pos + 1);
    match first.kind {
        TokenKindView::Class | TokenKindView::Func => if !(second.kind is Identifier) {
            pos + 2
        } else {
            body_stop(tokens, pos + 2)
        },
        TokenKindView::Log => if second.kind is String && token_at(tokens, pos + 2).kind
            is Semicolon {
            pos + 3
        } else {
            pos + 2
        },
        TokenKindView::IntType | TokenKindView::StringType => if !(second.kind is Identifier) {
            pos + 2
        } else {
            binding_stop(tokens, pos + 2)
        },
        TokenKindView::Identifier(_) => binding_stop(tokens, pos + 1),
        _ => pos + 1,
    }
}

/// The place where the reading of the body of a class or a function ends:
/// after a token that is no `[`, or where the reading of the block ends.
pub open spec fn body_stop(tokens: Seq<TokenView>, pos: int) -> int
    decreases tokens.len() - pos, 0int,
{
    if !(token_at(tokens, pos).kind is OpenBracket) {
        pos + 1
    } else {
        items_stop(tokens, pos + 1)
    }
}

/// The place where the reading of the statements of a block ends: after the
/// `]` that closes the block, on the `Eof` that leaves it open, or where the
/// reading of a statement that does not fit ends.
pub open spec fn items_stop(tokens: Seq<TokenView>, pos: int) -> int
    decreases tokens.len() - pos, 1int,
{
    let token = token_at(tokens, pos);
    if token.kind is Eof {
        pos
    } else if token.kind is CloseBracket {
        pos + 1
    } else {
        match parse_statement_spec(tokens, pos) {
            Err(_) => statement_stop(tokens, pos),
            Ok((_, next)) => if pos < next <= tokens.len() {
                items_stop(tokens, next)
            } else {
                pos
            },
        }
    }
}

/// The place where the reading of a program ends, and the memory mode in force
/// there: on `Eof`, or where the reading of a statement that does not fit
/// ends. The directives up to that place have set the mode.
pub open spec fn top_stop(tokens: Seq<TokenView>, pos: int, mode: MemoryMode) -> (int, MemoryMode)
    decreases tokens.len() - pos,
{
    let token = token_at(tokens, pos);
    if token.kind is Eof {
        (pos, mode)
    } else if token.kind is ManualModeDirective {
        top_stop(tokens, pos + 1, MemoryMode::Manual)
    } else if token.kind is AutoModeDirective {
        top_stop(tokens, pos + 1, MemoryMode::Auto)
    } else {
        proof {
            lemma_statement_extent(tokens, pos);
        }
        match parse_statement_spec(tokens, pos) {
            Err(_) => (statement_stop(tokens, pos), mode),
            Ok((_, next)) => top_stop(tokens, next, mode),
        }
    }
}

/// The root over the given statements.
pub open spec fn program_node(statements: Seq<AstNodeView>) -> AstNodeView {
    AstNodeView {
        kind: AstNodeKind::Program,
        children: statements,
        token: synthetic_token(),
        inferred_type: None,
    }
}

/// The tree of a whole token sequence and the memory mode it selects. Without
/// a directive the mode is manual.
pub open spec fn parse_spec(tokens: Seq<TokenView>) -> Result<(AstNodeView, MemoryMode), ParseError> {
    match parse_top_spec(tokens, 0, MemoryMode::Manual) {
        Err(e) => Err(e),
        Ok((statements, mode)) => Ok((program_node(statements), mode)),
    }
}

/// A statement or block that begins within the tokens ends after the place where
/// it begins and within the tokens, and none of its tokens is `Eof`.
pub proof fn lemma_statement_extent(tokens: Seq<TokenView>, pos: int)
    requires
        0 <= pos,
    ensures
        parse_statement_spec(tokens, pos) matches Ok((_, next)) ==> pos < next <= tokens.len(),
        parse_body_spec(tokens, pos) matches Ok((_, next)) ==> pos < next <= tokens.len(),
        parse_block_spec(tokens, pos) matches Ok((_, next)) ==> pos < next <= tokens.len(),
        parse_items_spec(tokens, pos) matches Ok((_, next)) ==> pos < next <= tokens.len(),
    decreases tokens.len() - pos,
{
    if pos < tokens.len() {
        lemma_statement_extent(tokens, pos + 1);
        if pos + 2 <= tokens.len() {
            lemma_statement_extent(tokens, pos + 2);
        }
        if let Ok((_, next)) = parse_statement_spec(tokens, pos) {
            if pos < next <= tokens.len() {
                lemma_statement_extent(tokens, next);
            }
        }
    }
}

/// What a parsing function returned, with the place that it left the cursor at.
pub open spec fn parsed(result: Result<AstNode, ParseError>, end: int) -> Parsed {
    match result {
        Ok(node) => Ok((node@, end)),
        Err(e) => Err(e),
    }
}

/// `done`, then what `rest` holds.
pub open spec fn items_after(done: Seq<AstNodeView>, rest: ParsedItems) -> ParsedItems {
    match rest {
        Ok((tail, end)) => Ok((done + tail, end)),
        Err(e) => Err(e),
    }
}

/// `done`, then what `rest` holds.
pub open spec fn top_after(
    done: Seq<AstNodeView>,
    rest: Result<(Seq<AstNodeView>, MemoryMode), ParseError>,
) -> Result<(Seq<AstNodeView>, MemoryMode), ParseError> {
    match rest {
        Ok((tail, mode)) => Ok((done + tail, mode)),
        Err(e) => Err(e),
    }
}

/// The parser's working state: the tokens, a cursor into them, and the memory
/// mode selected so far.
pub struct Parser {
    pub tokens: Vec<Token>,
    pub token_idx: usize,
    pub memory_mode: MemoryMode,
}

impl Parser {
    /// The tokens end in `Eof` and the cursor stands on one of them.
    pub open spec fn wf(&self) -> bool {
        ends_in_eof(self.tokens@) && self.token_idx < self.tokens.len()
    }

    /// The values of the tokens.
    pub open spec fn views(&self) -> Seq<TokenView> {
        token_views(self.tokens@)
    }

    /// A parser at the first of `tokens`, in manual memory mode.
    pub fn new(tokens: Vec<Token>) -> (parser: Parser)
        ensures
            parser.tokens == tokens,
            parser.token_idx == 0,
            parser.memory_mode == MemoryMode::Manual,
    {
        Parser { tokens, token_idx: 0, memory_mode: MemoryMode::Manual }
    }

    /// Reads the token under the cursor and moves past it.
    pub fn next_token(&mut self) -> (token: Token)
        requires
            old(self).token_idx < old(self).tokens.len(),
        ensures
            token == old(self).tokens[old(self).token_idx as int],
            final(self).tokens == old(self).tokens,
            final(self).memory_mode == old(self).memory_mode,
            final(self).token_idx == old(self).token_idx + 1,
    {
        let token = self.tokens[self.token_idx].clone();
        self.token_idx += 1;
        token
    }

    /// The token under the cursor.
    pub fn peek_token(&self) -> (token: &Token)
        requires
            self.token_idx < self.tokens.len(),
        ensures
            *token == self.tokens[self.token_idx as int],
    {
        &self.tokens[self.token_idx]
    }

    /// Reads the whole program: statements up to `Eof`, with the memory-mode
    /// directives among them setting `memory_mode`. Where a statement does not
    /// fit, the cursor is left where the reading of that statement ended, and
    /// the mode as the directives before it set it.
    pub fn parse_program(&mut self) -> (result: Result<AstNode, ParseError>)
        requires
            old(self).wf(),
        ensures
            final(self).tokens == old(self).tokens,
            old(self).token_idx <= final(self).token_idx <= final(self).tokens.len(),
            (final(self).token_idx as int, final(self).memory_mode) == top_stop(
                old(self).views(),
                old(self).token_idx as int,
                old(self).memory_mode,
            ),
            match result {
                Ok(program) => parse_top_spec(
                    old(self).views(),
                    old(self).token_idx as int,
                    old(self).memory_mode,
                ) == Ok::<(Seq<AstNodeView>, MemoryMode), ParseError>(
                    (program@.children, final(self).memory_mode),
                ) && program@ == program_node(program@.children) && final(self).wf()
                    && final(self).tokens[final(self).token_idx as int].kind is Eof,
                Err(e) => parse_top_spec(
                    old(self).views(),
                    old(self).token_idx as int,
                    old(self).memory_mode,
                ) == Err::<(Seq<AstNodeView>, MemoryMode), ParseError>(e),
            },
    {
        let ghost tokens = self.views();
        let ghost start = self.token_idx as int;
        let ghost mode = self.memory_mode;
        let mut children: Vec<AstNode> = Vec::new();
        let ghost done: Seq<AstNodeView> = Seq::empty();
        proof {
            match parse_top_spec(tokens, start, mode) {
                Ok((tail, _)) => {
                    assert(done + tail =~= tail);
                },
                Err(_) => {},
            }
        }
        loop
            invariant
                self.wf(),
                self.tokens == old(self).tokens,
                tokens == old(self).views(),
                start == old(self).token_idx,
                mode == old(self).memory_mode,
                start <= self.token_idx,
                top_stop(tokens, start, mode) == top_stop(
                    tokens,
                    self.token_idx as int,
                    self.memory_mode,
                ),
                done == crate::ast::node_views(children@),
                parse_top_spec(tokens, start, mode) == top_after(
                    done,
                    parse_top_spec(tokens, self.token_idx as int, self.memory_mode),
                ),
            ensures
                self.wf(),
                self.tokens == old(self).tokens,
                start <= self.token_idx,
                self.tokens[self.token_idx as int].kind is Eof,
                top_stop(tokens, start, mode) == (self.token_idx as int, self.memory_mode),
                done == crate::ast::node_views(children@),
                parse_top_spec(tokens, start, mode) == Ok::<
                    (Seq<AstNodeView>, MemoryMode),
                    ParseError,
                >((done, self.memory_mode)),
            decreases self.tokens.len() - self.token_idx,
        {
            let ghost at = self.token_idx as int;
            let ghost seen = done;
            proof {
                lemma_statement_extent(tokens, at);
            }
            match self.peek_token().kind {
                TokenKind::Eof => {
                    assert(done + Seq::<AstNodeView>::empty() =~= done);
                    break ;
                },
                TokenKind::ManualModeDirective => {
                    self.memory_mode = MemoryMode::Manual;
                    self.next_token();
                },
                TokenKind::AutoModeDirective => {
                    self.memory_mode = MemoryMode::Auto;
                    self.next_token();
                },
                _ => {
                    let statement = self.parse_statement()?;
                    children.push(statement);
                    proof {
                        done = seen.push(statement@);
                        assert(crate::ast::node_views(children@) =~= done);
                        match parse_top_spec(tokens, self.token_idx as int, self.memory_mode) {
                            Ok((tail, _)) => {
                                assert(done + tail =~= seen + (seq![statement@] + tail));
                            },
                            Err(_) => {},
                        }
                    }
                },
            }
        }
        let program = AstNode {
            kind: AstNodeKind::Program,
            children,
            token: Token { kind: TokenKind::Invalid, line: 0, column: 0 },
            inferred_type: None,
        };
        proof {
            crate::ast::lemma_view_children(&program);
        }
        Ok(program)
    }

    /// Reads `= Expr ;` into the single child of a node of the given kind that is
    /// placed on `name`.
    fn parse_binding(&mut self, kind: AstNodeKind, name: Token, inferred_type: Option<
        Type,
    >) -> (result: Result<AstNode, ParseError>)
        requires
            old(self).wf(),
        ensures
            final(self).tokens == old(self).tokens,
            final(self).memory_mode == old(self).memory_mode,
            result is Ok ==> final(self).wf(),
            old(self).token_idx < final(self).token_idx <= final(self).tokens.len(),
            parse_binding_spec(
                old(self).views(),
                old(self).token_idx as int,
                kind,
                name@,
                inferred_type,
            ) == parsed(result, final(self).token_idx as int),
            final(self).token_idx == binding_stop(old(self).views(), old(self).token_idx as int),
    {
        let assign = self.next_token();
        match assign.kind {
            TokenKind::Assign => {},
            _ => {
                return Err(ParseError::UnexpectedToken { line: assign.line, column: assign.column });
            },
        }
        let value = self.parse_expression()?;
        let end = self.next_token();
        match end.kind {
            TokenKind::Semicolon => {},
            _ => {
                return Err(ParseError::UnexpectedToken { line: end.line, column: end.column });
            },
        }
        let node = AstNode { kind, children: vec![value], token: name, inferred_type };
        proof {
            crate::ast::lemma_view_children(&node);
            assert(node@.children =~= seq![value@]);
        }
        Ok(node)
    }

    /// Reads one statement; of a class or a function also the `[` before its
    /// block. The cursor is left after the last token, or after the first
    /// token that does not fit.
    pub fn parse_statement(&mut self) -> (result: Result<AstNode, ParseError>)
        requires
            old(self).wf(),
        ensures
            final(self).tokens == old(self).tokens,
            final(self).memory_mode == old(self).memory_mode,
            result is Ok ==> final(self).wf(),
            old(self).token_idx < final(self).token_idx <= final(self).tokens.len(),
            parse_statement_spec(old(self).views(), old(self).token_idx as int) == parsed(
                result,
                final(self).token_idx as int,
            ),
            final(self).token_idx == statement_stop(old(self).views(), old(self).token_idx as int),
        decreases old(self).tokens.len() - old(self).token_idx, 0int,
    {
        let first = self.next_token();
        match first.kind {
            TokenKind::Import => {
                let node = AstNode {
                    kind: AstNodeKind::Import,
                    children: Vec::new(),
                    token: first,
                    inferred_type: None,
                };
                proof {
                    crate::ast::lemma_view_children(&node);
                    assert(node@.children =~= Seq::empty());
                }
                Ok(node)
            },
            TokenKind::Class | TokenKind::Func => {
                let name = self.next_token();
                match name.kind {
                    TokenKind::Identifier(_) => {},
                    _ => {
                        return Err(
                            ParseError::UnexpectedToken { line: name.line, column: name.column },
                        );
                    },
                }
                let open = self.next_token();
                match open.kind {
                    TokenKind::OpenBracket => {},
                    _ => {
                        return Err(
                            ParseError::UnexpectedToken { line: open.line, column: open.column },
                        );
                    },
                }
                let body = self.parse_block()?;
                let kind = match first.kind {
                    TokenKind::Class => AstNodeKind::ClassDef,
                    _ => AstNodeKind::FuncDef,
                };
                let node = AstNode { kind, children: vec![body], token: name, inferred_type: None };
                proof {
                    crate::ast::lemma_view_children(&node);
                    assert(node@.children =~= seq![body@]);
                }
                Ok(node)
            },
            TokenKind::Log => {
                let text = self.next_token();
                match text.kind {
                    TokenKind::String(_) => {},
                    _ => {
                        return Err(
                            ParseError::UnexpectedToken { line: text.line, column: text.column },
                        );
                    },
                }
                match self.peek_token().kind {
                    TokenKind::Semicolon => {
                        self.next_token();
                    },
                    _ => {},
                }
                let node = AstNode {
                    kind: AstNodeKind::LogStmt,
                    children: Vec::new(),
                    token: text,
                    inferred_type: None,
                };
                proof {
                    crate::ast::lemma_view_children(&node);
                    assert(node@.children =~= Seq::empty());
                }
                Ok(node)
            },
            TokenKind::IntType | TokenKind::StringType => {
                let declared = match first.kind {
                    TokenKind::IntType => Type::Int32,
                    _ => Type::StringT,
                };
                let name = self.next_token();
                match name.kind {
                    TokenKind::Identifier(_) => {},
                    _ => {
                        return Err(
                            ParseError::UnexpectedToken { line: name.line, column: name.column },
                        );
                    },
                }
                self.parse_binding(AstNodeKind::VarDecl, name, Some(declared))
            },
            TokenKind::Identifier(_) => self.parse_binding(AstNodeKind::AssignStmt, first, None),
            _ => Err(ParseError::UnexpectedToken { line: first.line, column: first.column }),
        }
    }

    /// Reads one block from just after its `[`: statements, then `]`. The block
    /// is placed on the token before the cursor. The cursor is left after the
    /// `]`, after the first token that does not fit, or on the `Eof` that
    /// leaves the block open.
    pub fn parse_block(&mut self) -> (result: Result<AstNode, ParseError>)
        requires
            old(self).wf(),
        ensures
            final(self).tokens == old(self).tokens,
            final(self).memory_mode == old(self).memory_mode,
            result is Ok ==> final(self).wf(),
            old(self).token_idx <= final(self).token_idx <= final(self).tokens.len(),
            parse_block_spec(old(self).views(), old(self).token_idx as int) == parsed(
                result,
                final(self).token_idx as int,
            ),
            final(self).token_idx == items_stop(old(self).views(), old(self).token_idx as int),
        decreases old(self).tokens.len() - old(self).token_idx, 1int,
    {
        let ghost tokens = self.views();
        let open = if self.token_idx > 0 {
            self.tokens[self.token_idx - 1].clone()
        } else {
            Token { kind: TokenKind::Invalid, line: 0, column: 0 }
        };
        let ghost start = self.token_idx as int;
        let mut children: Vec<AstNode> = Vec::new();
        let ghost done: Seq<AstNodeView> = Seq::empty();
        proof {
            match parse_items_spec(tokens, start) {
                Ok((tail, _)) => {
                    assert(done + tail =~= tail);
                },
                Err(_) => {},
            }
        }
        loop
            invariant_except_break
                items_stop(tokens, start) == items_stop(tokens, self.token_idx as int),
                parse_items_spec(tokens, start) == items_after(
                    done,
                    parse_items_spec(tokens, self.token_idx as int),
                ),
            invariant
                self.wf(),
                self.tokens == old(self).tokens,
                self.memory_mode == old(self).memory_mode,
                tokens == old(self).views(),
                start == old(self).token_idx,
                start <= self.token_idx,
                done == crate::ast::node_views(children@),
            ensures
                self.wf(),
                self.tokens == old(self).tokens,
                self.memory_mode == old(self).memory_mode,
                items_stop(tokens, start) == self.token_idx,
                done == crate::ast::node_views(children@),
                parse_items_spec(tokens, start) == Ok::<(Seq<AstNodeView>, int), ParseError>(
                    (done, self.token_idx as int),
                ),
            decreases self.tokens.len() - self.token_idx,
        {
            let ghost at = self.token_idx as int;
            let ghost seen = done;
            proof {
                lemma_statement_extent(tokens, at);
            }
            let here = self.peek_token();
            match here.kind {
                TokenKind::Eof => {
                    return Err(ParseError::UnclosedBlock { line: here.line, column: here.column });
                },
                TokenKind::CloseBracket => {
                    self.next_token();
                    assert(done + Seq::<AstNodeView>::empty() =~= done);
                    break ;
                },
                _ => {
                    let statement = self.parse_statement()?;
                    children.push(statement);
                    proof {
                        done = seen.push(statement@);
                        assert(crate::ast::node_views(children@) =~= done);
                        match parse_items_spec(tokens, self.token_idx as int) {
                            Ok((tail, _)) => {
                                assert(done + tail =~= seen + (seq![statement@] + tail));
                            },
                            Err(_) => {},
                        }
                    }
                },
            }
        }
        let node = AstNode { kind: AstNodeKind::Block, children, token: open, inferred_type: None };
        proof {
            crate::ast::lemma_view_children(&node);
        }
        Ok(node)
    }

    /// Reads one expression: a number, a string or an identifier.
    pub fn parse_expression(&mut self) -> (result: Result<AstNode, ParseError>)
        requires
            old(self).wf(),
        ensures
            final(self).tokens == old(self).tokens,
            final(self).memory_mode == old(self).memory_mode,
            result is Ok ==> final(self).wf(),
            old(self).token_idx < final(self).token_idx <= final(self).tokens.len(),
            parse_expression_spec(old(self).views(), old(self).token_idx as int) == parsed(
                result,
                final(self).token_idx as int,
            ),
            final(self).token_idx == old(self).token_idx + 1,
    {
        let token = self.next_token();
        let inferred_type = match token.kind {
            TokenKind::Number(_) => Some(Type::Int32),
            TokenKind::String(_) => Some(Type::StringT),
            TokenKind::Identifier(_) => None,
            _ => {
                return Err(
                    ParseError::UnexpectedInExpression { line: token.line, column: token.column },
                );
            },
        };
        let node = AstNode { kind: AstNodeKind::Expr, children: Vec::new(), token, inferred_type };
        proof {
            crate::ast::lemma_view_children(&node);
            assert(node@.children =~= Seq::empty());
        }
        Ok(node)
    }
}

/// Parses a sequence of tokens that ends in `Eof` into the tree of the program
/// and the memory mode that the source selects, or fails at the first token
/// that does not fit. The tree is well formed.
pub fn parse(tokens: Vec<Token>) -> (result: Result<(AstNode, MemoryMode), ParseError>)
    requires
        ends_in_eof(tokens@),
    ensures
        match result {
            Ok((program, mode)) => parse_spec(token_views(tokens@)) == Ok::<
                (AstNodeView, MemoryMode),
                ParseError,
            >((program@, mode)) && program@.well_formed(),
            Err(e) => parse_spec(token_views(tokens@)) == Err::<(AstNodeView, MemoryMode), ParseError>(
                e,
            ),
        },
{
    let mut parser = Parser::new(tokens);
    proof {
        crate::parser_laws::lemma_parse_well_formed(token_views(tokens@));
    }
    match parser.parse_program() {
        Ok(program) => Ok((program, parser.memory_mode)),
        Err(e) => Err(e),
    }
}

} // verus!
