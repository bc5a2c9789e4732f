//! What holds of every parse: the shape of the tree, and how many nodes it has.

use vstd::prelude::*;
use crate::ast::{AstNodeKind, AstNodeView, MemoryMode, NodeGroup, count_nodes_items};
use crate::parser::{
    ParseError, Parsed, ParsedItems, block_token, lemma_statement_extent, parse_block_spec,
    parse_body_spec, parse_items_spec, parse_spec, parse_statement_spec, parse_top_spec, token_at,
};
use crate::token::{TokenKindView, TokenView};

verus! {

/// Every statement and block that is parsed is well formed.
pub proof fn lemma_parsed_well_formed(tokens: Seq<TokenView>, pos: int)
    requires
        0 <= pos,
    ensures
        parse_statement_spec(tokens, pos) matches Ok((node, _)) ==> node.well_formed()
            && node.is_statement(),
        parse_body_spec(tokens, pos) matches Ok((node, _)) ==> node.well_formed() && node.kind
            == AstNodeKind::Block,
        parse_items_spec(tokens, pos) matches Ok((items, _)) ==> forall|i: int|
            0 <= i < items.len() ==> (#[trigger] items[i]).is_statement() && items[i].well_formed(),
    decreases tokens.len() - pos,
{
    if pos < tokens.len() {
        lemma_parsed_well_formed(tokens, pos + 1);
        if pos + 2 <= tokens.len() {
            lemma_parsed_well_formed(tokens, pos + 2);
        }
        if let Ok((statement, next)) = parse_statement_spec(tokens, pos) {
            if pos < next <= tokens.len() {
                lemma_parsed_well_formed(tokens, next);
                if let Ok((rest, _)) = parse_items_spec(tokens, next) {
                    let items = seq![statement] + rest;
                    assert forall|i: int| 0 <= i < items.len() implies (
                    #[trigger] items[i]).is_statement() && items[i].well_formed() by {
                        if i > 0 {
                            assert(items[i] == rest[i - 1]);
                        }
                    }
                }
            }
        }
    }
}

/// The statements of a program that is parsed are well formed.
pub proof fn lemma_parsed_top_well_formed(tokens: Seq<TokenView>, pos: int, mode: MemoryMode)
    requires
        0 <= pos,
    ensures
        parse_top_spec(tokens, pos, mode) matches Ok((items, _)) ==> forall|i: int|
            0 <= i < items.len() ==> (#[trigger] items[i]).is_statement() && items[i].well_formed(),
    decreases tokens.len() - pos,
{
    let token = token_at(tokens, pos);
    if token.kind is Eof {
    } else if token.kind is ManualModeDirective {
        lemma_parsed_top_well_formed(tokens, pos + 1, MemoryMode::Manual);
    } else if token.kind is AutoModeDirective {
        lemma_parsed_top_well_formed(tokens, pos + 1, MemoryMode::Auto);
    } else {
        lemma_statement_extent(tokens, pos);
        lemma_parsed_well_formed(tokens, pos);
        if let Ok((statement, next)) = parse_statement_spec(tokens, pos) {
            lemma_parsed_top_well_formed(tokens, next, mode);
            if let Ok((rest, _)) = parse_top_spec(tokens, next, mode) {
                let items = seq![statement] + rest;
                assert forall|i: int| 0 <= i < items.len() implies (
                #[trigger] items[i]).is_statement() && items[i].well_formed() by {
                    if i > 0 {
                        assert(items[i] == rest[i - 1]);
                    }
                }
            }
        }
    }
}

/// The tree of a program that is parsed is well formed.
pub proof fn lemma_parse_well_formed(tokens: Seq<TokenView>)
    ensures
        parse_spec(tokens) matches Ok((ast, _)) ==> ast.well_formed(),
{
    lemma_parsed_top_well_formed(tokens, 0, MemoryMode::Manual);
}

/// The number of nodes of a group that a token stands for. A statement is
/// counted at the token that it alone has: its keyword, or the `=` of a
/// declaration or an assignment. A block is counted at its `[`, an expression
/// at the `=` that it follows.
pub open spec fn token_nodes(kind: TokenKindView, group: NodeGroup) -> nat {
    let statement: nat = if kind is Import || kind is Class || kind is Func || kind is Log
        || kind is Assign {
        1
    } else {
        0
    };
    let block: nat = if kind is OpenBracket {
        1
    } else {
        0
    };
    let expression: nat = if kind is Assign {
        1
    } else {
        0
    };
    match group {
        NodeGroup::All => statement + block + expression,
        NodeGroup::Statements => statement,
        NodeGroup::Blocks => block,
        NodeGroup::Expressions => expression,
    }
}

/// The number of nodes of a group that the tokens from `from` up to `to` stand for.
pub open spec fn tokens_nodes(tokens: Seq<TokenView>, from: int, to: int, group: NodeGroup) -> nat
    decreases to - from,
{
    if from >= to {
        0
    } else {
        token_nodes(token_at(tokens, from).kind, group) + tokens_nodes(tokens, from + 1, to, group)
    }
}

/// The place of the first `Eof` from `pos` on: the end of the program.
pub open spec fn program_end(tokens: Seq<TokenView>, pos: int) -> int
    decreases tokens.len() - pos,
{
    if token_at(tokens, pos).kind is Eof {
        pos
    } else {
        program_end(tokens, pos + 1)
    }
}

/// Tokens are counted range by range.
pub proof fn lemma_tokens_nodes_add(
    tokens: Seq<TokenView>,
    from: int,
    mid: int,
    to: int,
    group: NodeGroup,
)
    requires
        from <= mid <= to,
    ensures
        tokens_nodes(tokens, from, to, group) == tokens_nodes(tokens, from, mid, group)
            + tokens_nodes(tokens, mid, to, group),
    decreases mid - from,
{
    if from < mid {
        lemma_tokens_nodes_add(tokens, from + 1, mid, to, group);
    }
}

/// Every group is counted within all nodes, and nothing else is.
pub proof fn lemma_tokens_nodes_all(tokens: Seq<TokenView>, from: int, to: int)
    ensures
        tokens_nodes(tokens, from, to, NodeGroup::All) == tokens_nodes(
            tokens,
            from,
            to,
            NodeGroup::Statements,
        ) + tokens_nodes(tokens, from, to, NodeGroup::Blocks) + tokens_nodes(
            tokens,
            from,
            to,
            NodeGroup::Expressions,
        ),
    decreases to - from,
{
    if from < to {
        lemma_tokens_nodes_all(tokens, from + 1, to);
    }
}

/// A statement without a block has as many nodes of each group as its tokens
/// stand for.
pub proof fn lemma_plain_statement_node_count(tokens: Seq<TokenView>, pos: int, group: NodeGroup)
    requires
        0 <= pos,
        !(token_at(tokens, pos).kind is Class),
        !(token_at(tokens, pos).kind is Func),
    ensures
        parse_statement_spec(tokens, pos) matches Ok((node, next)) ==> node.count_nodes(group)
            == tokens_nodes(tokens, pos, next, group),
{
    reveal_with_fuel(tokens_nodes, 6);
    if let Ok((statement, next)) = parse_statement_spec(tokens, pos) {
        let first = token_at(tokens, pos);
        if first.kind is IntType || first.kind is StringType || first.kind is Identifier {
            let value = statement.children[0];
            assert(statement.children.subrange(1, 1) =~= Seq::empty());
            assert(value.children =~= Seq::empty());
            assert(count_nodes_items(value.children, group) == 0);
            assert(count_nodes_items(statement.children.subrange(1, 1), group) == 0);
            assert(count_nodes_items(statement.children, group) == value.count_nodes(group));
        } else {
            assert(statement.children =~= Seq::empty());
            assert(count_nodes_items(statement.children, group) == 0);
        }
    }
}

/// A statement, a block and the statements of a block have as many nodes of
/// each group as their tokens stand for.
pub proof fn lemma_parsed_node_count(tokens: Seq<TokenView>, pos: int, group: NodeGroup)
    requires
        0 <= pos,
    ensures
        parse_statement_spec(tokens, pos) matches Ok((node, next)) ==> node.count_nodes(group)
            == tokens_nodes(tokens, pos, next, group),
        parse_body_spec(tokens, pos) matches Ok((node, next)) ==> node.count_nodes(group)
            == tokens_nodes(tokens, pos, next, group),
        parse_items_spec(tokens, pos) matches Ok((items, next)) ==> count_nodes_items(items, group)
            == tokens_nodes(tokens, pos, next, group),
    decreases tokens.len() - pos,
{
    let first = token_at(tokens, pos);
    if pos < tokens.len() {
        lemma_parsed_node_count(tokens, pos + 1, group);
        lemma_statement_extent(tokens, pos + 1);
        if let Ok((node, next)) = parse_body_spec(tokens, pos) {
            lemma_tokens_nodes_add(tokens, pos, pos + 1, next, group);
            assert(tokens_nodes(tokens, pos, pos + 1, group) == token_nodes(first.kind, group)) by {
                reveal_with_fuel(tokens_nodes, 2);
            }
        }
        if first.kind is Class || first.kind is Func {
            if let Ok((statement, next)) = parse_statement_spec(tokens, pos) {
                lemma_parsed_node_count(tokens, pos + 2, group);
                lemma_statement_extent(tokens, pos + 2);
                let body = statement.children[0];
                lemma_tokens_nodes_add(tokens, pos, pos + 2, next, group);
                assert(tokens_nodes(tokens, pos, pos + 2, group) == token_nodes(first.kind, group))
                    by {
                    reveal_with_fuel(tokens_nodes, 3);
                }
                assert(statement.children.subrange(1, 1) =~= Seq::empty());
                assert(count_nodes_items(statement.children.subrange(1, 1), group) == 0);
                assert(count_nodes_items(statement.children, group) == body.count_nodes(group));
            }
        } else {
            lemma_plain_statement_node_count(tokens, pos, group);
        }
        if !(first.kind is Eof) && !(first.kind is CloseBracket) {
            if let Ok((statement, next)) = parse_statement_spec(tokens, pos) {
                if pos < next <= tokens.len() {
                    lemma_parsed_node_count(tokens, next, group);
                    if let Ok((rest, end)) = parse_items_spec(tokens, next) {
                        lemma_statement_extent(tokens, next);
                        let items = seq![statement] + rest;
                        assert(items.subrange(1, items.len() as int) =~= rest);
                        lemma_tokens_nodes_add(tokens, pos, next, end, group);
                    }
                }
            }
        } else if first.kind is CloseBracket {
            assert(tokens_nodes(tokens, pos, pos + 1, group) == 0) by {
                reveal_with_fuel(tokens_nodes, 2);
            }
        }
    }
}

/// The program does not end before the place that it is looked for from.
pub proof fn lemma_program_end_bound(tokens: Seq<TokenView>, pos: int)
    ensures
        pos <= program_end(tokens, pos),
    decreases tokens.len() - pos,
{
    if !(token_at(tokens, pos).kind is Eof) {
        lemma_program_end_bound(tokens, pos + 1);
    }
}

/// The statements of a program have as many nodes of each group as the tokens
/// of the program stand for.
pub proof fn lemma_parsed_top_node_count(
    tokens: Seq<TokenView>,
    pos: int,
    mode: MemoryMode,
    group: NodeGroup,
)
    requires
        0 <= pos,
    ensures
        parse_top_spec(tokens, pos, mode) matches Ok((items, _)) ==> count_nodes_items(items, group)
            == tokens_nodes(tokens, pos, program_end(tokens, pos), group),
    decreases tokens.len() - pos,
{
    let token = token_at(tokens, pos);
    lemma_program_end_bound(tokens, pos);
    if token.kind is Eof {
    } else if token.kind is ManualModeDirective {
        lemma_parsed_top_node_count(tokens, pos + 1, MemoryMode::Manual, group);
    } else if token.kind is AutoModeDirective {
        lemma_parsed_top_node_count(tokens, pos + 1, MemoryMode::Auto, group);
    } else {
        lemma_statement_extent(tokens, pos);
        lemma_parsed_node_count(tokens, pos, group);
        if let Ok((statement, next)) = parse_statement_spec(tokens, pos) {
            lemma_parsed_top_node_count(tokens, next, mode, group);
            lemma_statement_has_no_eof(tokens, pos);
            lemma_program_end_after(tokens, pos, next);
            lemma_program_end_bound(tokens, next);
            if let Ok((rest, _)) = parse_top_spec(tokens, next, mode) {
                let items = seq![statement] + rest;
                assert(items.subrange(1, items.len() as int) =~= rest);
                lemma_tokens_nodes_add(tokens, pos, next, program_end(tokens, next), group);
            }
        }
    }
}

/// No token of a statement or block that is parsed is `Eof`.
pub proof fn lemma_statement_has_no_eof(tokens: Seq<TokenView>, pos: int)
    requires
        0 <= pos,
    ensures
        parse_statement_spec(tokens, pos) matches Ok((_, next)) ==> forall|i: int|
            pos <= i < next ==> !(#[trigger] token_at(tokens, i).kind is Eof),
        parse_body_spec(tokens, pos) matches Ok((_, next)) ==> forall|i: int|
            pos <= i < next ==> !(#[trigger] token_at(tokens, i).kind is Eof),
        parse_items_spec(tokens, pos) matches Ok((_, next)) ==> forall|i: int|
            pos <= i < next ==> !(#[trigger] token_at(tokens, i).kind is Eof),
    decreases tokens.len() - pos,
{
    if pos < tokens.len() {
        lemma_statement_has_no_eof(tokens, pos + 1);
        if pos + 2 <= tokens.len() {
            lemma_statement_has_no_eof(tokens, pos + 2);
        }
        if let Ok((_, next)) = parse_statement_spec(tokens, pos) {
            if pos < next <= tokens.len() {
                lemma_statement_has_no_eof(tokens, next);
            }
        }
    }
}

/// Where no token from `from` up to `to` is `Eof`, the program ends at the same
/// place from both.
pub proof fn lemma_program_end_after(tokens: Seq<TokenView>, from: int, to: int)
    requires
        from <= to,
        forall|i: int| from <= i < to ==> !(#[trigger] token_at(tokens, i).kind is Eof),
    ensures
        program_end(tokens, from) == program_end(tokens, to),
    decreases to - from,
{
    if from < to {
        lemma_program_end_after(tokens, from + 1, to);
    }
}

/// The tree of a program has one node for the root, one for each statement,
/// one for each block, and one for each expression of a declaration or an
/// assignment; the tokens up to `Eof` tell how many those are.
pub proof fn lemma_parse_node_count(tokens: Seq<TokenView>)
    ensures
        parse_spec(tokens) matches Ok((ast, _)) ==> {
            let end = program_end(tokens, 0);
            &&& ast.count_nodes(NodeGroup::Statements) == tokens_nodes(
                tokens,
                0,
                end,
                NodeGroup::Statements,
            )
            &&& ast.count_nodes(NodeGroup::Blocks) == tokens_nodes(tokens, 0, end, NodeGroup::Blocks)
            &&& ast.count_nodes(NodeGroup::Expressions) == tokens_nodes(
                tokens,
                0,
                end,
                NodeGroup::Expressions,
            )
            &&& ast.node_count() == 1 + ast.count_nodes(NodeGroup::Statements) + ast.count_nodes(
                NodeGroup::Blocks,
            ) + ast.count_nodes(NodeGroup::Expressions)
        },
{
    lemma_parsed_top_node_count(tokens, 0, MemoryMode::Manual, NodeGroup::All);
    lemma_parsed_top_node_count(tokens, 0, MemoryMode::Manual, NodeGroup::Statements);
    lemma_parsed_top_node_count(tokens, 0, MemoryMode::Manual, NodeGroup::Blocks);
    lemma_parsed_top_node_count(tokens, 0, MemoryMode::Manual, NodeGroup::Expressions);
    lemma_tokens_nodes_all(tokens, 0, program_end(tokens, 0));
}


/// A token without its place.
pub open spec fn unplaced(token: TokenView) -> TokenView {
    TokenView { kind: token.kind, line: 0, column: 0 }
}

/// Tokens without their places.
pub open spec fn unplaced_tokens(tokens: Seq<TokenView>) -> Seq<TokenView> {
    Seq::new(tokens.len(), |i: int| unplaced(tokens[i]))
}

/// A tree without the places of its tokens: what is left is its structure,
/// the kinds of its nodes and of their tokens, and its types.
pub open spec fn unplaced_tree(node: AstNodeView) -> AstNodeView
    decreases node,
{
    AstNodeView {
        kind: node.kind,
        children: Seq::new(
            node.children.len(),
            |i: int|
                if 0 <= i < node.children.len() {
                    unplaced_tree(node.children[i])
                } else {
                    arbitrary()
                },
        ),
        token: unplaced(node.token),
        inferred_type: node.inferred_type,
    }
}

/// Trees without the places of their tokens.
pub open spec fn unplaced_trees(items: Seq<AstNodeView>) -> Seq<AstNodeView> {
    Seq::new(items.len(), |i: int| unplaced_tree(items[i]))
}

/// Whether `without` is what parsing gives without places where `with` is what
/// it gives with them: the same tree without places up to the same token, or
/// a failure for a failure.
pub open spec fn carried(with: Parsed, without: Parsed) -> bool {
    match with {
        Ok((node, next)) => without == Ok::<(AstNodeView, int), ParseError>(
            (unplaced_tree(node), next),
        ),
        Err(_) => without is Err,
    }
}

/// [`carried`] for sequences of trees.
pub open spec fn carried_items(with: ParsedItems, without: ParsedItems) -> bool {
    match with {
        Ok((items, next)) => without == Ok::<(Seq<AstNodeView>, int), ParseError>(
            (unplaced_trees(items), next),
        ),
        Err(_) => without is Err,
    }
}

/// A tree without children is the same without places, but for its token.
pub proof fn lemma_unplaced_leaf(node: AstNodeView)
    requires
        node.children.len() == 0,
    ensures
        unplaced_tree(node) == (AstNodeView {
            children: Seq::empty(),
            token: unplaced(node.token),
            ..node
        }),
{
    assert(unplaced_tree(node).children =~= Seq::empty());
}

/// A tree with one child is, without places, the tree with that child without places.
pub proof fn lemma_unplaced_single(node: AstNodeView)
    requires
        node.children.len() == 1,
    ensures
        unplaced_tree(node) == (AstNodeView {
            children: seq![unplaced_tree(node.children[0])],
            token: unplaced(node.token),
            ..node
        }),
{
    assert(unplaced_tree(node).children =~= seq![unplaced_tree(node.children[0])]);
}

/// Parsing does not look at the places of tokens: from tokens without places
/// it gives the same trees without places, and fails where it fails with them.
pub proof fn lemma_parse_unplaced(tokens: Seq<TokenView>, pos: int)
    requires
        0 <= pos,
    ensures
        ({
            let bare = unplaced_tokens(tokens);
            &&& carried(parse_statement_spec(tokens, pos), parse_statement_spec(bare, pos))
            &&& carried(parse_body_spec(tokens, pos), parse_body_spec(bare, pos))
            &&& carried(parse_block_spec(tokens, pos), parse_block_spec(bare, pos))
            &&& carried_items(parse_items_spec(tokens, pos), parse_items_spec(bare, pos))
        }),
    decreases tokens.len() - pos,
{
    let bare = unplaced_tokens(tokens);
    assert forall|k: int| token_at(bare, k) == unplaced(#[trigger] token_at(tokens, k)) by {}
    assert(token_at(bare, pos) == unplaced(token_at(tokens, pos)));
    assert(token_at(bare, pos + 1) == unplaced(token_at(tokens, pos + 1)));
    assert(token_at(bare, pos + 2) == unplaced(token_at(tokens, pos + 2)));
    assert(token_at(bare, pos + 3) == unplaced(token_at(tokens, pos + 3)));
    assert(token_at(bare, pos + 4) == unplaced(token_at(tokens, pos + 4)));
    assert(block_token(bare, pos) == unplaced(block_token(tokens, pos)));
    if pos < tokens.len() {
        lemma_parse_unplaced(tokens, pos + 1);
        if pos + 2 <= tokens.len() {
            lemma_parse_unplaced(tokens, pos + 2);
        }
        lemma_statement_unplaced(tokens, pos);
        if let Ok((statement, next)) = parse_statement_spec(tokens, pos) {
            if pos < next <= tokens.len() {
                lemma_parse_unplaced(tokens, next);
                if let Ok((rest, end)) = parse_items_spec(tokens, next) {
                    assert(unplaced_trees(seq![statement] + rest) =~= seq![unplaced_tree(statement)]
                        + unplaced_trees(rest));
                }
            }
        }
        if let Ok((items, _)) = parse_items_spec(tokens, pos) {
            let block = parse_block_spec(tokens, pos)->Ok_0.0;
            assert(unplaced_tree(block).children =~= unplaced_trees(items));
        }
        if token_at(tokens, pos).kind is CloseBracket {
            assert(unplaced_trees(Seq::<AstNodeView>::empty()) =~= Seq::<AstNodeView>::empty());
        }
    }
}

/// [`lemma_parse_unplaced`] for the statement at `pos`, given it for the
/// body of a class or a function that begins two tokens on.
pub proof fn lemma_statement_unplaced(tokens: Seq<TokenView>, pos: int)
    requires
        0 <= pos,
        carried(
            parse_body_spec(tokens, pos + 2),
            parse_body_spec(unplaced_tokens(tokens), pos + 2),
        ),
    ensures
        carried(
            parse_statement_spec(tokens, pos),
            parse_statement_spec(unplaced_tokens(tokens), pos),
        ),
{
    let bare = unplaced_tokens(tokens);
    assert forall|k: int| token_at(bare, k) == unplaced(#[trigger] token_at(tokens, k)) by {}
    assert(token_at(bare, pos) == unplaced(token_at(tokens, pos)));
    assert(token_at(bare, pos + 1) == unplaced(token_at(tokens, pos + 1)));
    assert(token_at(bare, pos + 2) == unplaced(token_at(tokens, pos + 2)));
    assert(token_at(bare, pos + 3) == unplaced(token_at(tokens, pos + 3)));
    assert(token_at(bare, pos + 4) == unplaced(token_at(tokens, pos + 4)));
    if let Ok((statement, next)) = parse_statement_spec(tokens, pos) {
        if statement.children.len() == 0 {
            lemma_unplaced_leaf(statement);
        } else {
            lemma_unplaced_single(statement);
            if statement.children[0].children.len() == 0 {
                lemma_unplaced_leaf(statement.children[0]);
            }
        }
    }
}

/// The statements of a program are read alike with and without the places of
/// the tokens, and so is the memory mode.
pub proof fn lemma_parse_top_unplaced(tokens: Seq<TokenView>, pos: int, mode: MemoryMode)
    requires
        0 <= pos,
    ensures
        ({
            let bare = unplaced_tokens(tokens);
            match parse_top_spec(tokens, pos, mode) {
                Ok((items, last)) => parse_top_spec(bare, pos, mode) == Ok::<
                    (Seq<AstNodeView>, MemoryMode),
                    ParseError,
                >((unplaced_trees(items), last)),
                Err(_) => parse_top_spec(bare, pos, mode) is Err,
            }
        }),
    decreases tokens.len() - pos,
{
    let bare = unplaced_tokens(tokens);
    assert(token_at(bare, pos) == unplaced(token_at(tokens, pos)));
    let token = token_at(tokens, pos);
    if token.kind is Eof {
        assert(unplaced_trees(Seq::<AstNodeView>::empty()) =~= Seq::<AstNodeView>::empty());
    } else if token.kind is ManualModeDirective {
        lemma_parse_top_unplaced(tokens, pos + 1, MemoryMode::Manual);
    } else if token.kind is AutoModeDirective {
        lemma_parse_top_unplaced(tokens, pos + 1, MemoryMode::Auto);
    } else {
        lemma_statement_extent(tokens, pos);
        lemma_statement_extent(bare, pos);
        lemma_parse_unplaced(tokens, pos);
        if let Ok((statement, next)) = parse_statement_spec(tokens, pos) {
            lemma_parse_top_unplaced(tokens, next, mode);
            if let Ok((rest, _)) = parse_top_spec(tokens, next, mode) {
                assert(unplaced_trees(seq![statement] + rest) =~= seq![unplaced_tree(statement)]
                    + unplaced_trees(rest));
            }
        }
    }
}

/// Two sequences of tokens of the same kinds, whatever their places, are
/// parsed alike: both fail or both pass, and where they pass, the two trees
/// are the same but for the places of their tokens, node for node, in kinds,
/// children, token kinds and types, and the memory modes are the same.
pub proof fn lemma_same_kinds_same_tree(first: Seq<TokenView>, second: Seq<TokenView>)
    requires
        first.len() == second.len(),
        forall|i: int| 0 <= i < first.len() ==> first[i].kind == second[i].kind,
    ensures
        parse_spec(first) is Ok <==> parse_spec(second) is Ok,
        parse_spec(first) matches Ok((one, mode)) ==> parse_spec(second) matches Ok((other, same))
            && unplaced_tree(one) == unplaced_tree(other) && mode == same,
{
    assert(unplaced_tokens(first) =~= unplaced_tokens(second));
    lemma_parse_top_unplaced(first, 0, MemoryMode::Manual);
    lemma_parse_top_unplaced(second, 0, MemoryMode::Manual);
    if let Ok((one, _)) = parse_spec(first) {
        let other = parse_spec(second)->Ok_0.0;
        assert(unplaced_tree(one).children =~= unplaced_trees(one.children));
        assert(unplaced_tree(other).children =~= unplaced_trees(other.children));
    }
}

} // verus!
