//! What holds of every analysis: when it succeeds, what its result is like, and
//! which fault it reports.

use vstd::prelude::*;
use crate::analyzer::{
    AnalyzedItems, SemanticErrorView, Symbols, analysis_state, analyze_in_mode, analyze_items,
    analyze_node, analyze_spec, items_state, name_of, state_in_mode,
};
use crate::ast::{AstNodeKind, AstNodeView, MemoryMode, Type};
use crate::parser::program_node;
use crate::token::TokenKindView;

verus! {

/// The type of a value against a table: that of a literal, or that of the
/// variable it names; `None` where it names a variable that is not declared.
pub open spec fn value_type(expr: AstNodeView, symbols: Symbols) -> Option<Type> {
    match expr.token.kind {
        TokenKindView::Identifier(name) => if symbols.contains_key(name) {
            Some(symbols[name])
        } else {
            None
        },
        _ => expr.inferred_type,
    }
}

/// Whether a node is well typed against a table: every variable is declared
/// once and before it is used, and is only ever given values of its type, and
/// every log statement holds a string.
pub open spec fn well_typed(node: AstNodeView, symbols: Symbols) -> bool
    decreases node,
{
    let name = name_of(node.token);
    match node.kind {
        AstNodeKind::Program | AstNodeKind::Block => well_typed_items(node.children, symbols),
        AstNodeKind::VarDecl => !symbols.contains_key(name) && (node.children.len() > 0
            ==> value_type(node.children[0], symbols) == node.inferred_type),
        AstNodeKind::AssignStmt => symbols.contains_key(name) && value_type(
            node.children[0],
            symbols,
        ) == Some(symbols[name]),
        AstNodeKind::Expr => value_type(node, symbols) is Some,
        AstNodeKind::LogStmt => node.token.kind is String,
        _ => true,
    }
}

/// The table after a node: a declaration adds its name with its type.
pub open spec fn table_after(node: AstNodeView, symbols: Symbols) -> Symbols
    decreases node,
{
    match node.kind {
        AstNodeKind::Program | AstNodeKind::Block => table_after_items(node.children, symbols),
        AstNodeKind::VarDecl => symbols.insert(name_of(node.token), node.inferred_type.unwrap()),
        _ => symbols,
    }
}

/// The table after a sequence of nodes.
pub open spec fn table_after_items(items: Seq<AstNodeView>, symbols: Symbols) -> Symbols
    decreases items,
{
    if items.len() == 0 {
        symbols
    } else {
        table_after_items(items.subrange(1, items.len() as int), table_after(items[0], symbols))
    }
}

/// [`well_typed`] for a sequence of nodes, one after the other.
pub open spec fn well_typed_items(items: Seq<AstNodeView>, symbols: Symbols) -> bool
    decreases items,
{
    items.len() == 0 || (well_typed(items[0], symbols) && well_typed_items(
        items.subrange(1, items.len() as int),
        table_after(items[0], symbols),
    ))
}

/// Whether every type in a node is the one that the table gives: a declaration
/// and its value have the type of its name, an assignment and its value have
/// the type of its name, an expression that names a variable has that
/// variable's type.
pub open spec fn typed_by(node: AstNodeView, symbols: Symbols) -> bool
    decreases node,
{
    let name = name_of(node.token);
    match node.kind {
        AstNodeKind::Program | AstNodeKind::Block => forall|i: int|
            0 <= i < node.children.len() ==> typed_by(#[trigger] node.children[i], symbols),
        AstNodeKind::VarDecl | AstNodeKind::AssignStmt => {
            &&& symbols.contains_key(name)
            &&& node.inferred_type == Some(symbols[name])
            &&& node.children.len() > 0 ==> node.children[0].inferred_type == Some(symbols[name])
                && expression_typed_by(node.children[0], symbols)
        },
        AstNodeKind::Expr => expression_typed_by(node, symbols),
        _ => true,
    }
}

/// Whether an expression that names a variable has that variable's type.
pub open spec fn expression_typed_by(expr: AstNodeView, symbols: Symbols) -> bool {
    expr.token.kind matches TokenKindView::Identifier(name) ==> symbols.contains_key(name)
        && expr.inferred_type == Some(symbols[name])
}

/// Analysis succeeds exactly on what is well typed, and then leaves the table
/// that the declarations give.
pub proof fn lemma_success_is_well_typed(node: AstNodeView, symbols: Symbols)
    requires
        node.well_formed(),
    ensures
        analyze_node(node, symbols) is Ok <==> well_typed(node, symbols),
        analyze_node(node, symbols) matches Ok((_, after)) ==> after == table_after(node, symbols),
    decreases node,
{
    match node.kind {
        AstNodeKind::Program | AstNodeKind::Block => {
            lemma_success_is_well_typed_items(node.children, symbols);
        },
        _ => {},
    }
}

/// [`lemma_success_is_well_typed`] for a sequence of statements.
pub proof fn lemma_success_is_well_typed_items(items: Seq<AstNodeView>, symbols: Symbols)
    requires
        forall|i: int| 0 <= i < items.len() ==> (#[trigger] items[i]).well_formed(),
    ensures
        analyze_items(items, symbols) is Ok <==> well_typed_items(items, symbols),
        analyze_items(items, symbols) matches Ok((_, after)) ==> after == table_after_items(
            items,
            symbols,
        ),
    decreases items,
{
    if items.len() > 0 {
        lemma_success_is_well_typed(items[0], symbols);
        let tail = items.subrange(1, items.len() as int);
        assert forall|i: int| 0 <= i < tail.len() implies (#[trigger] tail[i]).well_formed() by {
            assert(tail[i] == items[i + 1]);
        }
        if let Ok((_, next)) = analyze_node(items[0], symbols) {
            lemma_success_is_well_typed_items(tail, next);
        }
    }
}

/// A table only grows: what is declared stays declared, with its type.
pub proof fn lemma_table_grows(node: AstNodeView, symbols: Symbols)
    requires
        analyze_node(node, symbols) is Ok,
    ensures
        symbols.submap_of(analyze_node(node, symbols)->Ok_0.1),
    decreases node,
{
    match node.kind {
        AstNodeKind::Program | AstNodeKind::Block => {
            lemma_table_grows_items(node.children, symbols);
        },
        _ => {},
    }
}

/// [`lemma_table_grows`] for a sequence of nodes.
pub proof fn lemma_table_grows_items(items: Seq<AstNodeView>, symbols: Symbols)
    requires
        analyze_items(items, symbols) is Ok,
    ensures
        symbols.submap_of(analyze_items(items, symbols)->Ok_0.1),
    decreases items,
{
    if items.len() > 0 {
        lemma_table_grows(items[0], symbols);
        let next = analyze_node(items[0], symbols)->Ok_0.1;
        lemma_table_grows_items(items.subrange(1, items.len() as int), next);
        let after = analyze_items(items, symbols)->Ok_0.1;
        assert forall|name: Seq<char>| symbols.dom().contains(name) implies #[trigger] after.dom().contains(
            name,
        ) && symbols[name] == after[name] by {
            assert(symbols.dom().contains(name) ==> next.dom().contains(name));
            assert(next.dom().contains(name) ==> after.dom().contains(name));
        }
    }
}

/// Types that a table gives are given by every table that extends it.
pub proof fn lemma_typed_by_grows(node: AstNodeView, symbols: Symbols, larger: Symbols)
    requires
        typed_by(node, symbols),
        symbols.submap_of(larger),
    ensures
        typed_by(node, larger),
    decreases node,
{
    match node.kind {
        AstNodeKind::Program | AstNodeKind::Block => {
            assert forall|i: int| 0 <= i < node.children.len() implies typed_by(
                #[trigger] node.children[i],
                larger,
            ) by {
                lemma_typed_by_grows(node.children[i], symbols, larger);
            }
        },
        AstNodeKind::VarDecl | AstNodeKind::AssignStmt => {
            assert(symbols.dom().contains(name_of(node.token)) ==> larger.dom().contains(
                name_of(node.token),
            ));
            if node.children.len() > 0 {
                lemma_expression_typed_by_grows(node.children[0], symbols, larger);
            }
        },
        AstNodeKind::Expr => {
            lemma_expression_typed_by_grows(node, symbols, larger);
        },
        _ => {},
    }
}

/// [`lemma_typed_by_grows`] for an expression.
pub proof fn lemma_expression_typed_by_grows(expr: AstNodeView, symbols: Symbols, larger: Symbols)
    requires
        expression_typed_by(expr, symbols),
        symbols.submap_of(larger),
    ensures
        expression_typed_by(expr, larger),
{
    if let TokenKindView::Identifier(name) = expr.token.kind {
        assert(symbols.dom().contains(name) ==> larger.dom().contains(name));
    }
}

/// After an analysis that succeeded, every declaration, assignment and
/// expression has the type that the final table gives its name: each use of a
/// variable resolves to the type that the variable was declared with.
pub proof fn lemma_analysis_types(node: AstNodeView, symbols: Symbols)
    requires
        node.well_formed(),
        analyze_node(node, symbols) is Ok,
    ensures
        typed_by(analyze_node(node, symbols)->Ok_0.0, analyze_node(node, symbols)->Ok_0.1),
    decreases node,
{
    match node.kind {
        AstNodeKind::Program | AstNodeKind::Block => {
            lemma_analysis_types_items(node.children, symbols);
        },
        _ => {},
    }
}

/// [`lemma_analysis_types`] for a sequence of statements.
pub proof fn lemma_analysis_types_items(items: Seq<AstNodeView>, symbols: Symbols)
    requires
        forall|i: int| 0 <= i < items.len() ==> (#[trigger] items[i]).well_formed(),
        analyze_items(items, symbols) is Ok,
    ensures
        ({
            let (typed, after) = analyze_items(items, symbols)->Ok_0;
            forall|i: int| 0 <= i < typed.len() ==> typed_by(#[trigger] typed[i], after)
        }),
    decreases items,
{
    if items.len() > 0 {
        let tail = items.subrange(1, items.len() as int);
        assert forall|i: int| 0 <= i < tail.len() implies (#[trigger] tail[i]).well_formed() by {
            assert(tail[i] == items[i + 1]);
        }
        lemma_analysis_types(items[0], symbols);
        let (first, next) = analyze_node(items[0], symbols)->Ok_0;
        lemma_analysis_types_items(tail, next);
        lemma_table_grows_items(tail, next);
        let (rest, after) = analyze_items(tail, next)->Ok_0;
        lemma_typed_by_grows(first, next, after);
        let typed = seq![first] + rest;
        assert forall|i: int| 0 <= i < typed.len() implies typed_by(#[trigger] typed[i], after) by {
            if i > 0 {
                assert(typed[i] == rest[i - 1]);
            }
        }
    }
}

/// A program that is well typed passes analysis, and then every use of a
/// variable has the type that the variable was declared with.
pub proof fn lemma_well_typed_program_passes(statements: Seq<AstNodeView>)
    requires
        program_node(statements).well_formed(),
        well_typed_items(statements, Map::empty()),
    ensures
        analyze_spec(program_node(statements), MemoryMode::Manual) matches Ok((typed, table))
            && typed_by(typed, table) && table == table_after_items(statements, Map::empty()),
{
    let program = program_node(statements);
    lemma_success_is_well_typed(program, Map::empty());
    lemma_analysis_types(program, Map::empty());
}

/// The analysis of `rest` after an analysis that gave `first`.
pub open spec fn and_then_items(first: AnalyzedItems, rest: Seq<AstNodeView>) -> AnalyzedItems {
    match first {
        Err(e) => Err(e),
        Ok((head, symbols)) => match analyze_items(rest, symbols) {
            Err(e) => Err(e),
            Ok((tail, after)) => Ok((head + tail, after)),
        },
    }
}

/// A sequence is analyzed as its first `j` nodes, then the others against the
/// table that those left.
pub proof fn lemma_analysis_in_two(items: Seq<AstNodeView>, j: int, symbols: Symbols)
    requires
        0 <= j <= items.len(),
    ensures
        analyze_items(items, symbols) == and_then_items(
            analyze_items(items.take(j), symbols),
            items.skip(j),
        ),
    decreases j,
{
    if j == 0 {
        assert(items.take(0) =~= Seq::empty());
        assert(items.skip(0) =~= items);
        match analyze_items(items, symbols) {
            Ok((tail, _)) => {
                assert(Seq::<AstNodeView>::empty() + tail =~= tail);
            },
            Err(_) => {},
        }
    } else {
        let tail = items.subrange(1, items.len() as int);
        let front = items.take(j);
        assert(front[0] == items[0]);
        assert(front.subrange(1, front.len() as int) =~= tail.take(j - 1));
        assert(items.skip(j) =~= tail.skip(j - 1));
        match analyze_node(items[0], symbols) {
            Ok((first, next)) => {
                lemma_analysis_in_two(tail, j - 1, next);
                match analyze_items(tail.take(j - 1), next) {
                    Ok((head, mid)) => match analyze_items(tail.skip(j - 1), mid) {
                        Ok((rest, _)) => {
                            assert((seq![first] + head) + rest =~= seq![first] + (head + rest));
                        },
                        Err(_) => {},
                    },
                    Err(_) => {},
                }
            },
            Err(_) => {},
        }
    }
}

/// Whether a statement declares the given name.
pub open spec fn declares(statement: AstNodeView, name: Seq<char>) -> bool {
    statement.kind == AstNodeKind::VarDecl && name_of(statement.token) == name
}

/// Whether all nodes of a sequence are statements.
pub open spec fn all_statements(items: Seq<AstNodeView>) -> bool {
    forall|i: int| 0 <= i < items.len() ==> (#[trigger] items[i]).is_statement()
}

/// After statements that passed analysis, a name is declared exactly if it was
/// declared before them or one of them declares it.
pub proof fn lemma_declared_names(items: Seq<AstNodeView>, symbols: Symbols, name: Seq<char>)
    requires
        all_statements(items),
        analyze_items(items, symbols) is Ok,
    ensures
        analyze_items(items, symbols)->Ok_0.1.contains_key(name) <==> symbols.contains_key(name) || (
        exists|i: int| 0 <= i < items.len() && declares(#[trigger] items[i], name)),
    decreases items,
{
    if items.len() > 0 {
        let tail = items.subrange(1, items.len() as int);
        let next = analyze_node(items[0], symbols)->Ok_0.1;
        assert(items[0].is_statement());
        assert forall|i: int| 0 <= i < tail.len() implies (#[trigger] tail[i]).is_statement() by {
            assert(tail[i] == items[i + 1]);
        }
        lemma_declared_names(tail, next, name);
        let after = analyze_items(items, symbols)->Ok_0.1;
        if after.contains_key(name) && !symbols.contains_key(name) {
            if next.contains_key(name) {
                assert(declares(items[0], name));
            } else {
                let i = choose|i: int| 0 <= i < tail.len() && declares(#[trigger] tail[i], name);
                assert(declares(items[i + 1], name));
            }
        }
        if exists|i: int| 0 <= i < items.len() && declares(#[trigger] items[i], name) {
            let i = choose|i: int| 0 <= i < items.len() && declares(#[trigger] items[i], name);
            if i > 0 {
                assert(declares(tail[i - 1], name));
            }
        }
    }
}

/// The statements of a program, up to a place, that passed analysis: the table
/// that they left.
pub open spec fn table_before(statements: Seq<AstNodeView>, j: int) -> Symbols {
    analyze_items(statements.take(j), Map::empty())->Ok_0.1
}

/// A program fails with the fault of its first statement that fails.
pub proof fn lemma_first_fault(statements: Seq<AstNodeView>, j: int, fault: SemanticErrorView)
    requires
        0 <= j < statements.len(),
        analyze_items(statements.take(j), Map::empty()) is Ok,
        analyze_node(statements[j], table_before(statements, j)) == Err::<
            (AstNodeView, Symbols),
            SemanticErrorView,
        >(fault),
    ensures
        analyze_spec(program_node(statements), MemoryMode::Manual) == Err::<
            (AstNodeView, Symbols),
            SemanticErrorView,
        >(fault),
{
    lemma_analysis_in_two(statements, j, Map::empty());
    assert(statements.skip(j)[0] == statements[j]);
}

/// Where the first `j` nodes pass, analysis leaves them as analyzed, and the
/// others as it leaves them against the table that those left.
pub proof fn lemma_state_in_two(items: Seq<AstNodeView>, j: int, symbols: Symbols)
    requires
        0 <= j <= items.len(),
        analyze_items(items.take(j), symbols) is Ok,
    ensures
        ({
            let (head, table) = analyze_items(items.take(j), symbols)->Ok_0;
            let (tail, after) = items_state(items.skip(j), table);
            items_state(items, symbols) == (head + tail, after)
        }),
    decreases j,
{
    if j == 0 {
        assert(items.take(0) =~= Seq::empty());
        assert(items.skip(0) =~= items);
        let (tail, _) = items_state(items, symbols);
        assert(Seq::<AstNodeView>::empty() + tail =~= tail);
    } else {
        let rest = items.subrange(1, items.len() as int);
        let front = items.take(j);
        assert(front[0] == items[0]);
        assert(front.subrange(1, front.len() as int) =~= rest.take(j - 1));
        assert(items.skip(j) =~= rest.skip(j - 1));
        let (first, next) = analyze_node(items[0], symbols)->Ok_0;
        crate::analyzer::lemma_state_of_success(items[0], symbols);
        lemma_state_in_two(rest, j - 1, next);
        let (head, table) = analyze_items(rest.take(j - 1), next)->Ok_0;
        let (tail, _) = items_state(rest.skip(j - 1), table);
        assert((seq![first] + head) + tail =~= seq![first] + (head + tail));
    }
}

/// Where a program fails, all statements before the first that fails are
/// left analyzed, that statement is left as far as its analysis got, and all
/// statements after it are left as they were. The table is the one that the
/// failing statement left.
pub proof fn lemma_state_at_first_fault(statements: Seq<AstNodeView>, j: int)
    requires
        0 <= j < statements.len(),
        analyze_items(statements.take(j), Map::empty()) is Ok,
        analyze_node(statements[j], table_before(statements, j)) is Err,
    ensures
        ({
            let (tree, table) = state_in_mode(
                program_node(statements),
                Map::empty(),
                MemoryMode::Manual,
            );
            let (stopped, left) = analysis_state(statements[j], table_before(statements, j));
            &&& tree.children.len() == statements.len()
            &&& forall|i: int|
                0 <= i < j ==> tree.children[i] == analyze_items(
                    statements.take(j),
                    Map::empty(),
                )->Ok_0.0[i]
            &&& tree.children[j] == stopped
            &&& forall|i: int| j < i < statements.len() ==> tree.children[i] == statements[i]
            &&& table == left
        }),
{
    lemma_state_in_two(statements, j, Map::empty());
    let (head, mid) = analyze_items(statements.take(j), Map::empty())->Ok_0;
    lemma_items_keep_length(statements.take(j), Map::empty());
    let rest = statements.skip(j);
    assert(rest[0] == statements[j]);
    let (stopped, left) = analysis_state(statements[j], mid);
    let after = rest.subrange(1, rest.len() as int);
    let tail = seq![stopped] + after;
    assert(items_state(rest, mid) == (tail, left));
    let children = head + tail;
    assert(program_node(statements).children == statements);
    assert forall|i: int| j < i < statements.len() implies children[i] == statements[i] by {
        assert(children[i] == after[i - j - 1]);
    }
    assert(children[j] == tail[0]);
}

/// Analysis gives as many nodes as it takes.
pub proof fn lemma_items_keep_length(items: Seq<AstNodeView>, symbols: Symbols)
    requires
        analyze_items(items, symbols) is Ok,
    ensures
        analyze_items(items, symbols)->Ok_0.0.len() == items.len(),
    decreases items,
{
    if items.len() > 0 {
        let next = analyze_node(items[0], symbols)->Ok_0.1;
        lemma_items_keep_length(items.subrange(1, items.len() as int), next);
    }
}

/// After statements that passed analysis, a name that one of them declares has
/// the type that it was declared with.
pub proof fn lemma_declared_type(items: Seq<AstNodeView>, symbols: Symbols, i: int)
    requires
        all_statements(items),
        analyze_items(items, symbols) is Ok,
        0 <= i < items.len(),
        items[i].kind == AstNodeKind::VarDecl,
        items[i].well_formed(),
    ensures
        ({
            let table = analyze_items(items, symbols)->Ok_0.1;
            table.contains_key(name_of(items[i].token)) && Some(table[name_of(items[i].token)])
                == items[i].inferred_type
        }),
    decreases items,
{
    let tail = items.subrange(1, items.len() as int);
    let next = analyze_node(items[0], symbols)->Ok_0.1;
    let table = analyze_items(items, symbols)->Ok_0.1;
    let name = name_of(items[i].token);
    assert(items[0].is_statement());
    assert forall|k: int| 0 <= k < tail.len() implies (#[trigger] tail[k]).is_statement() by {
        assert(tail[k] == items[k + 1]);
    }
    if i == 0 {
        lemma_table_grows_items(tail, next);
        assert(next.dom().contains(name) ==> table.dom().contains(name));
    } else {
        assert(tail[i - 1] == items[i]);
        lemma_declared_type(tail, next, i - 1);
    }
}

/// The tree and the table that the analysis of a program, in manual memory
/// mode, leaves.
pub open spec fn program_state(statements: Seq<AstNodeView>) -> (AstNodeView, Symbols) {
    state_in_mode(program_node(statements), Map::empty(), MemoryMode::Manual)
}

/// A second declaration of a name fails with `Redefinition` of that name, where
/// nothing before it fails. It is left as it was, its value too, as is all
/// that follows it, and the name keeps the type of the first declaration.
pub proof fn lemma_second_declaration_fails(statements: Seq<AstNodeView>, i: int, j: int)
    requires
        program_node(statements).well_formed(),
        0 <= i < j < statements.len(),
        declares(statements[i], name_of(statements[j].token)),
        statements[j].kind == AstNodeKind::VarDecl,
        analyze_items(statements.take(j), Map::empty()) is Ok,
    ensures
        analyze_spec(program_node(statements), MemoryMode::Manual) == Err::<
            (AstNodeView, Symbols),
            SemanticErrorView,
        >(SemanticErrorView::Redefinition(name_of(statements[j].token))),
        ({
            let (tree, table) = program_state(statements);
            let name = name_of(statements[j].token);
            &&& forall|k: int| j <= k < statements.len() ==> tree.children[k] == statements[k]
            &&& table == table_before(statements, j)
            &&& table.contains_key(name)
            &&& Some(table[name]) == statements[i].inferred_type
        }),
{
    let name = name_of(statements[j].token);
    let before = statements.take(j);
    assert(program_node(statements).children == statements);
    assert forall|k: int| 0 <= k < before.len() implies (#[trigger] before[k]).is_statement() by {
        assert(before[k] == statements[k]);
    }
    assert(declares(before[i], name));
    lemma_declared_names(before, Map::empty(), name);
    lemma_first_fault(statements, j, SemanticErrorView::Redefinition(name));
    lemma_state_at_first_fault(statements, j);
    assert(before[i].well_formed()) by {
        assert(before[i] == statements[i]);
        assert(statements[i].well_formed());
    }
    lemma_declared_type(before, Map::empty(), i);
}

/// An assignment to a name that no statement before it declares fails with
/// `UndefinedVariable` of that name, where nothing before it fails. It is left
/// as it was, its value too, as is all that follows it, and the name is not
/// declared afterwards either.
pub proof fn lemma_undeclared_assignment_fails(statements: Seq<AstNodeView>, j: int)
    requires
        program_node(statements).well_formed(),
        0 <= j < statements.len(),
        statements[j].kind == AstNodeKind::AssignStmt,
        forall|i: int| 0 <= i < j ==> !declares(#[trigger] statements[i], name_of(statements[j].token)),
        analyze_items(statements.take(j), Map::empty()) is Ok,
    ensures
        analyze_spec(program_node(statements), MemoryMode::Manual) == Err::<
            (AstNodeView, Symbols),
            SemanticErrorView,
        >(SemanticErrorView::UndefinedVariable(name_of(statements[j].token))),
        ({
            let (tree, table) = program_state(statements);
            &&& forall|k: int| j <= k < statements.len() ==> tree.children[k] == statements[k]
            &&& table == table_before(statements, j)
            &&& !table.contains_key(name_of(statements[j].token))
        }),
{
    let name = name_of(statements[j].token);
    let before = statements.take(j);
    assert(program_node(statements).children == statements);
    assert forall|k: int| 0 <= k < before.len() implies (#[trigger] before[k]).is_statement() by {
        assert(before[k] == statements[k]);
    }
    lemma_declared_names(before, Map::empty(), name);
    if table_before(statements, j).contains_key(name) {
        let i = choose|i: int| 0 <= i < before.len() && declares(#[trigger] before[i], name);
        assert(declares(statements[i], name));
    }
    lemma_first_fault(statements, j, SemanticErrorView::UndefinedVariable(name));
    lemma_state_at_first_fault(statements, j);
}

/// A declaration or an assignment whose value reads a name that no statement
/// before it declares fails with `UndefinedVariable` of that name, where
/// nothing before it fails and its own name is in order: new in a declaration,
/// declared in an assignment. The statement is left as it was, the value
/// without a type, as is all that follows it; the name that is read is not
/// declared afterwards, nor is the name of the declaration.
pub proof fn lemma_undeclared_read_fails(statements: Seq<AstNodeView>, j: int, read: Seq<char>)
    requires
        program_node(statements).well_formed(),
        0 <= j < statements.len(),
        statements[j].kind == AstNodeKind::VarDecl || statements[j].kind == AstNodeKind::AssignStmt,
        statements[j].children.len() > 0,
        statements[j].children[0].token.kind == TokenKindView::Identifier(read),
        forall|i: int| 0 <= i < j ==> !declares(#[trigger] statements[i], read),
        analyze_items(statements.take(j), Map::empty()) is Ok,
        (statements[j].kind == AstNodeKind::VarDecl) != (exists|i: int|
            0 <= i < j && declares(#[trigger] statements[i], name_of(statements[j].token))),
    ensures
        analyze_spec(program_node(statements), MemoryMode::Manual) == Err::<
            (AstNodeView, Symbols),
            SemanticErrorView,
        >(SemanticErrorView::UndefinedVariable(read)),
        ({
            let (tree, table) = program_state(statements);
            &&& forall|k: int| j <= k < statements.len() ==> tree.children[k] == statements[k]
            &&& table == table_before(statements, j)
            &&& !table.contains_key(read)
            &&& !(statements[j].kind == AstNodeKind::VarDecl && table.contains_key(
                name_of(statements[j].token),
            ))
        }),
{
    let name = name_of(statements[j].token);
    let before = statements.take(j);
    assert(program_node(statements).children == statements);
    assert forall|k: int| 0 <= k < before.len() implies (#[trigger] before[k]).is_statement() by {
        assert(before[k] == statements[k]);
    }
    lemma_declared_names(before, Map::empty(), name);
    lemma_declared_names(before, Map::empty(), read);
    let table = table_before(statements, j);
    if table.contains_key(read) {
        let i = choose|i: int| 0 <= i < before.len() && declares(#[trigger] before[i], read);
        assert(declares(statements[i], read));
    }
    if table.contains_key(name) {
        let i = choose|i: int| 0 <= i < before.len() && declares(#[trigger] before[i], name);
        assert(declares(statements[i], name));
    }
    if exists|i: int| 0 <= i < j && declares(#[trigger] statements[i], name) {
        let i = choose|i: int| 0 <= i < j && declares(#[trigger] statements[i], name);
        assert(declares(before[i], name));
    }
    lemma_first_fault(statements, j, SemanticErrorView::UndefinedVariable(read));
    lemma_state_at_first_fault(statements, j);
    assert(statements[j].well_formed());
    assert(statements[j].children =~= seq![statements[j].children[0]]);
}

/// Where automatic memory management is selected, analysis fails with
/// `UnsupportedMemoryMode` before anything is checked: whatever the tree
/// holds, it is left as it was, and so is the symbol table.
pub proof fn lemma_automatic_mode_fails(node: AstNodeView, symbols: Symbols)
    ensures
        analyze_in_mode(node, symbols, MemoryMode::Auto) == Err::<
            (AstNodeView, Symbols),
            SemanticErrorView,
        >(SemanticErrorView::UnsupportedMemoryMode),
        state_in_mode(node, symbols, MemoryMode::Auto) == (node, symbols),
        analyze_spec(node, MemoryMode::Auto) == Err::<(AstNodeView, Symbols), SemanticErrorView>(
            SemanticErrorView::UnsupportedMemoryMode,
        ),
{
}

} // verus!
