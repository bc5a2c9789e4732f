//! A tree written back as tokens, and the law that parsing reads it again.

use vstd::prelude::*;
use crate::ast::{AstNodeKind, AstNodeView, MemoryMode, Type, literal_type};
use crate::parser::{
    ParseError, lemma_statement_extent, parse_binding_spec, parse_body_spec, parse_items_spec,
    parse_spec, parse_statement_spec, parse_top_spec, program_node, token_at,
};
use crate::token::{TokenKindView, TokenView};

verus! {

/// A token that the tree does not keep: it stands nowhere.
pub open spec fn bare(kind: TokenKindView) -> TokenView {
    TokenView { kind, line: 0, column: 0 }
}

/// The keyword that declares a type.
pub open spec fn type_keyword(declared: Option<Type>) -> TokenKindView {
    if declared == Some(Type::Int32) {
        TokenKindView::IntType
    } else {
        TokenKindView::StringType
    }
}

/// The tokens that write a node: the tokens that the tree keeps, as they are,
/// between the keywords and the punctuation that the grammar asks for.
pub open spec fn render(node: AstNodeView) -> Seq<TokenView>
    decreases node,
{
    match node.kind {
        AstNodeKind::Program => render_items(node.children),
        AstNodeKind::Block => seq![node.token] + render_items(node.children) + seq![
            bare(TokenKindView::CloseBracket),
        ],
        AstNodeKind::Import => seq![node.token],
        AstNodeKind::ClassDef => seq![bare(TokenKindView::Class), node.token] + render_items(
            node.children,
        ),
        AstNodeKind::FuncDef => seq![bare(TokenKindView::Func), node.token] + render_items(
            node.children,
        ),
        AstNodeKind::LogStmt => seq![bare(TokenKindView::Log), node.token],
        AstNodeKind::VarDecl => seq![
            bare(type_keyword(node.inferred_type)),
            node.token,
            bare(TokenKindView::Assign),
            node.children[0].token,
            bare(TokenKindView::Semicolon),
        ],
        AstNodeKind::AssignStmt => seq![
            node.token,
            bare(TokenKindView::Assign),
            node.children[0].token,
            bare(TokenKindView::Semicolon),
        ],
        AstNodeKind::Expr => seq![node.token],
    }
}

/// The tokens that write a sequence of nodes, one after the other.
pub open spec fn render_items(items: Seq<AstNodeView>) -> Seq<TokenView>
    decreases items,
{
    if items.len() == 0 {
        Seq::empty()
    } else {
        render(items[0]) + render_items(items.subrange(1, items.len() as int))
    }
}

/// The tokens that write a program in a memory mode: the directive first if
/// the mode is automatic, `Eof` last.
pub open spec fn render_program(statements: Seq<AstNodeView>, mode: MemoryMode) -> Seq<TokenView> {
    (if mode == MemoryMode::Auto {
        seq![bare(TokenKindView::AutoModeDirective)]
    } else {
        Seq::empty()
    }) + render_items(statements) + seq![bare(TokenKindView::Eof)]
}

/// Whether an expression is as the parser leaves it: typed if it is a literal,
/// untyped if it names a variable.
pub open spec fn expression_unanalyzed(expr: AstNodeView) -> bool {
    expr.is_expression() && expr.inferred_type == literal_type(expr.token.kind)
}

/// Whether a tree is as the parser leaves it: well formed, with a value in
/// every declaration, and without the types that analysis fills in.
pub open spec fn unanalyzed(node: AstNodeView) -> bool
    decreases node,
{
    &&& node.well_formed()
    &&& match node.kind {
        AstNodeKind::Program | AstNodeKind::Block => forall|i: int|
            0 <= i < node.children.len() ==> unanalyzed(#[trigger] node.children[i]),
        AstNodeKind::ClassDef | AstNodeKind::FuncDef => unanalyzed(node.children[0]),
        AstNodeKind::VarDecl => node.children.len() == 1 && expression_unanalyzed(
            node.children[0],
        ),
        AstNodeKind::AssignStmt => node.inferred_type is None && expression_unanalyzed(
            node.children[0],
        ),
        AstNodeKind::Expr => expression_unanalyzed(node),
        AstNodeKind::LogStmt => node.token.kind is String,
        _ => true,
    }
}

/// Whether `piece` stands in `tokens` at `pos`.
pub open spec fn stands_at(tokens: Seq<TokenView>, pos: int, piece: Seq<TokenView>) -> bool {
    0 <= pos && pos + piece.len() <= tokens.len() && forall|k: int|
        0 <= k < piece.len() ==> tokens[pos + k] == #[trigger] piece[k]
}

/// Where two pieces stand one after the other, each stands at its place.
pub proof fn lemma_stands_apart(
    tokens: Seq<TokenView>,
    pos: int,
    first: Seq<TokenView>,
    second: Seq<TokenView>,
)
    requires
        stands_at(tokens, pos, first + second),
    ensures
        stands_at(tokens, pos, first),
        stands_at(tokens, pos + first.len(), second),
{
    let both = first + second;
    assert forall|k: int| 0 <= k < first.len() implies tokens[pos + k] == #[trigger] first[k] by {
        assert(both[k] == first[k]);
    }
    assert forall|k: int| 0 <= k < second.len() implies tokens[pos + first.len() + k]
        == #[trigger] second[k] by {
        assert(both[first.len() + k] == second[k]);
    }
}

/// A statement or a block is written with at least one token, and the first
/// is none that ends a sequence of statements or goes on a log statement.
pub proof fn lemma_render_begins(node: AstNodeView)
    requires
        node.well_formed(),
        node.is_statement() || node.kind == AstNodeKind::Block,
    ensures
        render(node).len() > 0,
        node.is_statement() ==> {
            let first = render(node)[0].kind;
            &&& !(first is Eof)
            &&& !(first is CloseBracket)
            &&& !(first is Semicolon)
            &&& !(first is ManualModeDirective)
            &&& !(first is AutoModeDirective)
        },
{
}

/// The statement or block that a piece of tokens writes is what parsing reads
/// at the place where the piece stands. After a log statement no `;` may
/// follow: parsing would take it into the statement.
pub proof fn lemma_parse_rendered(tokens: Seq<TokenView>, pos: int, node: AstNodeView)
    requires
        unanalyzed(node),
        node.is_statement() || node.kind == AstNodeKind::Block,
        stands_at(tokens, pos, render(node)),
        node.kind == AstNodeKind::LogStmt ==> !(token_at(tokens, pos + render(node).len()).kind
            is Semicolon),
    ensures
        node.is_statement() ==> parse_statement_spec(tokens, pos) == Ok::<
            (AstNodeView, int),
            ParseError,
        >((node, pos + render(node).len())),
        node.kind == AstNodeKind::Block ==> parse_body_spec(tokens, pos) == Ok::<
            (AstNodeView, int),
            ParseError,
        >((node, pos + render(node).len())),
    decreases node,
{
    let piece = render(node);
    match node.kind {
        AstNodeKind::Block => {
            let open = seq![node.token];
            let inner = render_items(node.children);
            let close = seq![bare(TokenKindView::CloseBracket)];
            lemma_stands_apart(tokens, pos, open + inner, close);
            lemma_stands_apart(tokens, pos, open, inner);
            assert(tokens[pos] == open[0]);
            assert(tokens[pos + 1 + inner.len()] == close[0]);
            lemma_parse_rendered_items(tokens, pos + 1, node.children);
            let (items, _) = parse_items_spec(tokens, pos + 1)->Ok_0;
            assert(items =~= node.children);
        },
        AstNodeKind::ClassDef | AstNodeKind::FuncDef => {
            let head = seq![
                bare(
                    if node.kind == AstNodeKind::ClassDef {
                        TokenKindView::Class
                    } else {
                        TokenKindView::Func
                    },
                ),
                node.token,
            ];
            let body = render(node.children[0]);
            assert(node.children.subrange(1, 1) =~= Seq::empty());
            assert(render_items(node.children.subrange(1, 1)) =~= Seq::empty());
            assert(render_items(node.children) =~= body);
            lemma_stands_apart(tokens, pos, head, body);
            assert(tokens[pos] == head[0]);
            assert(tokens[pos + 1] == head[1]);
            lemma_parse_rendered(tokens, pos + 2, node.children[0]);
            assert(node.children =~= seq![node.children[0]]);
        },
        AstNodeKind::Import => {
            assert(tokens[pos] == piece[0]);
            assert(node.children =~= Seq::empty());
        },
        AstNodeKind::LogStmt => {
            assert(tokens[pos] == piece[0]);
            assert(tokens[pos + 1] == piece[1]);
            assert(node.children =~= Seq::empty());
        },
        AstNodeKind::VarDecl => {
            assert(tokens[pos] == piece[0]);
            assert(tokens[pos + 1] == piece[1]);
            assert(tokens[pos + 2] == piece[2]);
            assert(tokens[pos + 3] == piece[3]);
            assert(tokens[pos + 4] == piece[4]);
            assert(node.children =~= seq![node.children[0]]);
            assert(node.children[0].children =~= Seq::empty());
            assert(Some(crate::parser::declared_type(token_at(tokens, pos).kind))
                == node.inferred_type);
            assert(parse_binding_spec(
                tokens,
                pos + 2,
                AstNodeKind::VarDecl,
                node.token,
                node.inferred_type,
            ) == Ok::<(AstNodeView, int), ParseError>((node, pos + 5)));
        },
        AstNodeKind::AssignStmt => {
            assert(tokens[pos] == piece[0]);
            assert(tokens[pos + 1] == piece[1]);
            assert(tokens[pos + 2] == piece[2]);
            assert(tokens[pos + 3] == piece[3]);
            assert(node.children =~= seq![node.children[0]]);
            assert(node.children[0].children =~= Seq::empty());
        },
        _ => {},
    }
}

/// The statements that a piece of tokens writes, with `]` after them, are what
/// parsing reads at the place where the piece stands.
pub proof fn lemma_parse_rendered_items(tokens: Seq<TokenView>, pos: int, items: Seq<AstNodeView>)
    requires
        forall|i: int| 0 <= i < items.len() ==> unanalyzed(#[trigger] items[i]) && items[i].is_statement(),
        stands_at(tokens, pos, render_items(items)),
        token_at(tokens, pos + render_items(items).len()).kind is CloseBracket,
    ensures
        parse_items_spec(tokens, pos) == Ok::<(Seq<AstNodeView>, int), ParseError>(
            (items, pos + render_items(items).len() + 1),
        ),
    decreases items,
{
    if items.len() > 0 {
        let first = items[0];
        let tail = items.subrange(1, items.len() as int);
        let piece = render(first);
        let rest = render_items(tail);
        lemma_stands_apart(tokens, pos, piece, rest);
        lemma_render_begins(first);
        assert(tokens[pos] == piece[0]);
        let next = pos + piece.len();
        assert forall|i: int| 0 <= i < tail.len() implies unanalyzed(#[trigger] tail[i])
            && tail[i].is_statement() by {
            assert(tail[i] == items[i + 1]);
        }
        if tail.len() > 0 {
            lemma_render_begins(tail[0]);
            assert(rest[0] == render(tail[0])[0]);
            assert(tokens[next] == rest[0]);
        }
        lemma_parse_rendered(tokens, pos, first);
        lemma_parse_rendered_items(tokens, next, tail);
        assert(seq![first] + tail =~= items);
    } else {
        assert(items =~= Seq::empty());
    }
}

/// The statements that a piece of tokens writes, with `Eof` after them, are
/// what parsing reads as a program at the place where the piece stands.
pub proof fn lemma_parse_rendered_top(
    tokens: Seq<TokenView>,
    pos: int,
    items: Seq<AstNodeView>,
    mode: MemoryMode,
)
    requires
        forall|i: int| 0 <= i < items.len() ==> unanalyzed(#[trigger] items[i]) && items[i].is_statement(),
        stands_at(tokens, pos, render_items(items)),
        token_at(tokens, pos + render_items(items).len()).kind is Eof,
    ensures
        parse_top_spec(tokens, pos, mode) == Ok::<
            (Seq<AstNodeView>, MemoryMode),
            ParseError,
        >((items, mode)),
    decreases items,
{
    if items.len() > 0 {
        let first = items[0];
        let tail = items.subrange(1, items.len() as int);
        let piece = render(first);
        let rest = render_items(tail);
        lemma_stands_apart(tokens, pos, piece, rest);
        lemma_render_begins(first);
        assert(tokens[pos] == piece[0]);
        let next = pos + piece.len();
        assert forall|i: int| 0 <= i < tail.len() implies unanalyzed(#[trigger] tail[i])
            && tail[i].is_statement() by {
            assert(tail[i] == items[i + 1]);
        }
        if tail.len() > 0 {
            lemma_render_begins(tail[0]);
            assert(rest[0] == render(tail[0])[0]);
            assert(tokens[next] == rest[0]);
        }
        lemma_parse_rendered(tokens, pos, first);
        lemma_parse_rendered_top(tokens, next, tail, mode);
        assert(seq![first] + tail =~= items);
    } else {
        assert(items =~= Seq::empty());
    }
}

/// Parsing reads every program back from the tokens that write it: the tree
/// that it gives for them is the tree that they were written from, in the
/// same memory mode.
pub proof fn lemma_parse_reads_rendered(statements: Seq<AstNodeView>, mode: MemoryMode)
    requires
        unanalyzed(program_node(statements)),
    ensures
        parse_spec(render_program(statements, mode)) == Ok::<
            (AstNodeView, MemoryMode),
            ParseError,
        >((program_node(statements), mode)),
{
    let tokens = render_program(statements, mode);
    let body = render_items(statements);
    let start: int = if mode == MemoryMode::Auto {
        1
    } else {
        0
    };
    assert(program_node(statements).children == statements);
    assert forall|i: int| 0 <= i < statements.len() implies unanalyzed(#[trigger] statements[i])
        && statements[i].is_statement() by {}
    assert forall|k: int| 0 <= k < body.len() implies tokens[start + k] == #[trigger] body[k] by {}
    assert(tokens[start + body.len()] == bare(TokenKindView::Eof));
    lemma_parse_rendered_top(tokens, start, statements, mode);
    if mode == MemoryMode::Auto {
        assert(tokens[0] == bare(TokenKindView::AutoModeDirective));
    }
    if statements.len() > 0 && mode == MemoryMode::Manual {
        lemma_render_begins(statements[0]);
    }
}

/// Every statement and block that is parsed is as the parser leaves it.
pub proof fn lemma_parsed_unanalyzed(tokens: Seq<TokenView>, pos: int)
    requires
        0 <= pos,
    ensures
        parse_statement_spec(tokens, pos) matches Ok((node, _)) ==> unanalyzed(node)
            && node.is_statement(),
        parse_body_spec(tokens, pos) matches Ok((node, _)) ==> unanalyzed(node) && node.kind
            == AstNodeKind::Block,
        parse_items_spec(tokens, pos) matches Ok((items, _)) ==> forall|i: int|
            0 <= i < items.len() ==> (#[trigger] items[i]).is_statement() && unanalyzed(items[i]),
    decreases tokens.len() - pos,
{
    if pos < tokens.len() {
        lemma_parsed_unanalyzed(tokens, pos + 1);
        if pos + 2 <= tokens.len() {
            lemma_parsed_unanalyzed(tokens, pos + 2);
        }
        if let Ok((statement, next)) = parse_statement_spec(tokens, pos) {
            if pos < next <= tokens.len() {
                lemma_parsed_unanalyzed(tokens, next);
                if let Ok((rest, _)) = parse_items_spec(tokens, next) {
                    let items = seq![statement] + rest;
                    assert forall|i: int| 0 <= i < items.len() implies (
                    #[trigger] items[i]).is_statement() && unanalyzed(items[i]) by {
                        if i > 0 {
                            assert(items[i] == rest[i - 1]);
                        }
                    }
                }
            }
        }
    }
}

/// The statements of a program that is parsed are as the parser leaves them.
pub proof fn lemma_parsed_top_unanalyzed(tokens: Seq<TokenView>, pos: int, mode: MemoryMode)
    requires
        0 <= pos,
    ensures
        parse_top_spec(tokens, pos, mode) matches Ok((items, _)) ==> forall|i: int|
            0 <= i < items.len() ==> (#[trigger] items[i]).is_statement() && unanalyzed(items[i]),
    decreases tokens.len() - pos,
{
    let token = token_at(tokens, pos);
    if token.kind is Eof {
    } else if token.kind is ManualModeDirective {
        lemma_parsed_top_unanalyzed(tokens, pos + 1, MemoryMode::Manual);
    } else if token.kind is AutoModeDirective {
        lemma_parsed_top_unanalyzed(tokens, pos + 1, MemoryMode::Auto);
    } else {
        lemma_statement_extent(tokens, pos);
        lemma_parsed_unanalyzed(tokens, pos);
        if let Ok((statement, next)) = parse_statement_spec(tokens, pos) {
            lemma_parsed_top_unanalyzed(tokens, next, mode);
            if let Ok((rest, _)) = parse_top_spec(tokens, next, mode) {
                let items = seq![statement] + rest;
                assert forall|i: int| 0 <= i < items.len() implies (
                #[trigger] items[i]).is_statement() && unanalyzed(items[i]) by {
                    if i > 0 {
                        assert(items[i] == rest[i - 1]);
                    }
                }
            }
        }
    }
}

/// Parsing, writing the tree back as tokens, and parsing again gives the tree
/// of the first parse, and its memory mode.
pub proof fn lemma_parse_render_parse(tokens: Seq<TokenView>)
    ensures
        parse_spec(tokens) matches Ok((ast, mode)) ==> parse_spec(
            render_program(ast.children, mode),
        ) == parse_spec(tokens),
{
    if let Ok((ast, mode)) = parse_spec(tokens) {
        lemma_parsed_top_unanalyzed(tokens, 0, MemoryMode::Manual);
        assert(ast == program_node(ast.children));
        lemma_parse_reads_rendered(ast.children, mode);
    }
}

} // verus!
