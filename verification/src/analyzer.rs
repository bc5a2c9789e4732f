//! The semantic analyzer: one walk over the tree, top down and in source order,
//! that keeps a flat table of the declared names, fills in the types that the
//! parser left open, and stops at the first fault.
//!
//! The bodies of classes and functions, and imports, are passed over: no name
//! in them is looked at, declared or resolved.

use vstd::prelude::*;
use crate::ast::{AstNode, AstNodeKind, AstNodeView, MemoryMode, Type, node_views, lemma_view_children};
use crate::symbols::SymbolTable;
use crate::token::{Token, TokenKind, TokenKindView, TokenView};

verus! {

/// Why analysis stopped.
#[derive(Debug, Clone, PartialEq, Eq)]
pub enum SemanticError {
    /// A declaration of a name that is declared already.
    Redefinition(String),
    /// An assignment to, or a use of, a name that is not declared.
    UndefinedVariable(String),
    /// A value of type `found` where the variable has type `expected`.
    TypeMismatch { expected: Type, found: Type },
    /// Automatic memory management was selected; no code can be generated for it.
    UnsupportedMemoryMode,
    /// A log statement that holds no string.
    LogExpectsString,
}

/// The mathematical value of a [`SemanticError`].
pub enum SemanticErrorView {
    Redefinition(Seq<char>),
    UndefinedVariable(Seq<char>),
    TypeMismatch { expected: Type, found: Type },
    UnsupportedMemoryMode,
    LogExpectsString,
}

impl View for SemanticError {
    type V = SemanticErrorView;

    open spec fn view(&self) -> SemanticErrorView {
        match *self {
            SemanticError::Redefinition(name) => SemanticErrorView::Redefinition(name@),
            SemanticError::UndefinedVariable(name) => SemanticErrorView::UndefinedVariable(name@),
            SemanticError::TypeMismatch { expected, found } => SemanticErrorView::TypeMismatch {
                expected,
                found,
            },
            SemanticError::UnsupportedMemoryMode => SemanticErrorView::UnsupportedMemoryMode,
            SemanticError::LogExpectsString => SemanticErrorView::LogExpectsString,
        }
    }
}

/// The symbol table: each declared name with its type. There is one scope.
pub type Symbols = Map<Seq<char>, Type>;

/// A node with the symbol table after it, or the first fault.
pub type Analyzed = Result<(AstNodeView, Symbols), SemanticErrorView>;

/// Nodes with the symbol table after them, or the first fault.
pub type AnalyzedItems = Result<(Seq<AstNodeView>, Symbols), SemanticErrorView>;

/// The name on an identifier token; the empty text on any other token.
pub open spec fn name_of(token: TokenView) -> Seq<char> {
    match token.kind {
        TokenKindView::Identifier(name) => name,
        _ => Seq::empty(),
    }
}

/// An expression after analysis: one that names a variable takes the
/// variable's type, and fails if the name is not declared; a literal stays as
/// it is.
pub open spec fn analyze_expression_spec(expr: AstNodeView, symbols: Symbols) -> Result<
    AstNodeView,
    SemanticErrorView,
> {
    match expr.token.kind {
        TokenKindView::Identifier(name) => if symbols.contains_key(name) {
            Ok(AstNodeView { inferred_type: Some(symbols[name]), ..expr })
        } else {
            Err(SemanticErrorView::UndefinedVariable(name))
        },
        _ => Ok(expr),
    }
}

/// The value that is bound to a variable of type `expected`, after analysis:
/// its type has to be `expected`.
pub open spec fn analyze_value_spec(value: AstNodeView, symbols: Symbols, expected: Type) -> Result<
    AstNodeView,
    SemanticErrorView,
> {
    match analyze_expression_spec(value, symbols) {
        Err(e) => Err(e),
        Ok(typed) => if typed.inferred_type == Some(expected) {
            Ok(typed)
        } else {
            Err(SemanticErrorView::TypeMismatch { expected, found: typed.inferred_type.unwrap() })
        },
    }
}

/// A node after analysis, with the symbol table after it.
///
/// - A declaration fails if its name is declared already. Else its value, if
///   it has one, is analyzed against the table as it stands, and must have
///   the declared type; only then does the name enter the table.
/// - An assignment fails if its name is not declared. Else it takes the
///   variable's type, and its value must have that type.
/// - The root and a block are analyzed child by child, in order.
/// - An expression is analyzed as [`analyze_expression_spec`] says.
/// - A log statement fails if its token is no string, and stays as it is.
/// - Every other node stays as it is.
pub open spec fn analyze_node(node: AstNodeView, symbols: Symbols) -> Analyzed
    decreases node,
{
    let name = name_of(node.token);
    match node.kind {
        AstNodeKind::Program | AstNodeKind::Block => match analyze_items(node.children, symbols) {
            Err(e) => Err(e),
            Ok((children, after)) => Ok((AstNodeView { children, ..node }, after)),
        },
        AstNodeKind::VarDecl => if symbols.contains_key(name) {
            Err(SemanticErrorView::Redefinition(name))
        } else {
            let declared = node.inferred_type.unwrap();
            if node.children.len() == 0 {
                Ok((node, symbols.insert(name, declared)))
            } else {
                match analyze_value_spec(node.children[0], symbols, declared) {
                    Err(e) => Err(e),
                    Ok(value) => Ok(
                        (
                            AstNodeView { children: seq![value], ..node },
                            symbols.insert(name, declared),
                        ),
                    ),
                }
            }
        },
        AstNodeKind::AssignStmt => if !symbols.contains_key(name) {
            Err(SemanticErrorView::UndefinedVariable(name))
        } else {
            match analyze_value_spec(node.children[0], symbols, symbols[name]) {
                Err(e) => Err(e),
                Ok(value) => Ok(
                    (
                        AstNodeView {
                            children: seq![value],
                            inferred_type: Some(symbols[name]),
                            ..node
                        },
                        symbols,
                    ),
                ),
            }
        },
        AstNodeKind::Expr => match analyze_expression_spec(node, symbols) {
            Err(e) => Err(e),
            Ok(typed) => Ok((typed, symbols)),
        },
        AstNodeKind::LogStmt => if node.token.kind is String {
            Ok((node, symbols))
        } else {
            Err(SemanticErrorView::LogExpectsString)
        },
        _ => Ok((node, symbols)),
    }
}

/// Nodes after analysis, one after the other, each against the table that the
/// one before it left.
pub open spec fn analyze_items(items: Seq<AstNodeView>, symbols: Symbols) -> AnalyzedItems
    decreases items,
{
    if items.len() == 0 {
        Ok((Seq::empty(), symbols))
    } else {
        match analyze_node(items[0], symbols) {
            Err(e) => Err(e),
            Ok((first, next)) => match analyze_items(items.subrange(1, items.len() as int), next) {
                Err(e) => Err(e),
                Ok((rest, after)) => Ok((seq![first] + rest, after)),
            },
        }
    }
}

/// The analysis of a node in a memory mode: it fails at once where automatic
/// memory management is selected, before anything is checked.
pub open spec fn analyze_in_mode(node: AstNodeView, symbols: Symbols, mode: MemoryMode) -> Analyzed {
    if mode == MemoryMode::Auto {
        Err(SemanticErrorView::UnsupportedMemoryMode)
    } else {
        analyze_node(node, symbols)
    }
}

/// The analysis of a whole tree: it fails at once where automatic memory
/// management is selected, and starts from an empty table otherwise.
pub open spec fn analyze_spec(ast: AstNodeView, mode: MemoryMode) -> Analyzed {
    analyze_in_mode(ast, Map::empty(), mode)
}

/// An expression as analysis leaves it: typed where it names a declared
/// variable, as it was in every other case.
pub open spec fn expression_state(expr: AstNodeView, symbols: Symbols) -> AstNodeView {
    match analyze_expression_spec(expr, symbols) {
        Ok(typed) => typed,
        Err(_) => expr,
    }
}

/// A node and the symbol table as analysis leaves them, whether it passes or
/// stops at a fault.
///
/// Where it passes, they are what [`analyze_node`] gives. Where it stops, all
/// that was done before the fault stays done, and nothing is done after it:
///
/// - a declaration of a name that is declared already, and an assignment to
///   a name that is not declared, are left as they were, and so is the table;
/// - a value that names a variable that is not declared is left as it was;
/// - a value of another type than its variable has been given its own type,
///   but the declaration has not entered the table, and the assignment has
///   not been given a type;
/// - in the root and in a block, the children before the fault are analyzed,
///   the child with the fault is as far as it got, and the children after it
///   are as they were.
pub open spec fn analysis_state(node: AstNodeView, symbols: Symbols) -> (AstNodeView, Symbols)
    decreases node,
{
    let name = name_of(node.token);
    match node.kind {
        AstNodeKind::Program | AstNodeKind::Block => {
            let (children, after) = items_state(node.children, symbols);
            (AstNodeView { children, ..node }, after)
        },
        AstNodeKind::VarDecl => if symbols.contains_key(name) {
            (node, symbols)
        } else {
            let declared = node.inferred_type.unwrap();
            if node.children.len() == 0 {
                (node, symbols.insert(name, declared))
            } else {
                let value = expression_state(node.children[0], symbols);
                (
                    AstNodeView { children: seq![value], ..node },
                    if analyze_value_spec(node.children[0], symbols, declared) is Ok {
                        symbols.insert(name, declared)
                    } else {
                        symbols
                    },
                )
            }
        },
        AstNodeKind::AssignStmt => if !symbols.contains_key(name) {
            (node, symbols)
        } else {
            let value = expression_state(node.children[0], symbols);
            (
                AstNodeView {
                    children: seq![value],
                    inferred_type: if analyze_value_spec(node.children[0], symbols, symbols[name])
                        is Ok {
                        Some(symbols[name])
                    } else {
                        node.inferred_type
                    },
                    ..node
                },
                symbols,
            )
        },
        AstNodeKind::Expr => (expression_state(node, symbols), symbols),
        _ => (node, symbols),
    }
}

/// Nodes and the symbol table as analysis leaves them: analysis goes from one
/// node to the next until one has a fault, and leaves the nodes after that one
/// as they were.
pub open spec fn items_state(items: Seq<AstNodeView>, symbols: Symbols) -> (
    Seq<AstNodeView>,
    Symbols,
)
    decreases items,
{
    if items.len() == 0 {
        (Seq::empty(), symbols)
    } else {
        let (first, next) = analysis_state(items[0], symbols);
        let tail = items.subrange(1, items.len() as int);
        if analyze_node(items[0], symbols) is Err {
            (seq![first] + tail, next)
        } else {
            let (rest, after) = items_state(tail, next);
            (seq![first] + rest, after)
        }
    }
}

/// A node and the symbol table as analysis in a memory mode leaves them: where
/// automatic memory management is selected, as they were.
pub open spec fn state_in_mode(node: AstNodeView, symbols: Symbols, mode: MemoryMode) -> (
    AstNodeView,
    Symbols,
) {
    if mode == MemoryMode::Auto {
        (node, symbols)
    } else {
        analysis_state(node, symbols)
    }
}

/// Where analysis passes, it leaves what it gives.
pub proof fn lemma_state_of_success(node: AstNodeView, symbols: Symbols)
    requires
        analyze_node(node, symbols) is Ok,
    ensures
        analysis_state(node, symbols) == analyze_node(node, symbols)->Ok_0,
    decreases node,
{
    match node.kind {
        AstNodeKind::Program | AstNodeKind::Block => {
            lemma_state_of_success_items(node.children, symbols);
        },
        _ => {},
    }
}

/// [`lemma_state_of_success`] for a sequence of nodes.
pub proof fn lemma_state_of_success_items(items: Seq<AstNodeView>, symbols: Symbols)
    requires
        analyze_items(items, symbols) is Ok,
    ensures
        items_state(items, symbols) == analyze_items(items, symbols)->Ok_0,
    decreases items,
{
    if items.len() > 0 {
        lemma_state_of_success(items[0], symbols);
        let next = analyze_node(items[0], symbols)->Ok_0.1;
        lemma_state_of_success_items(items.subrange(1, items.len() as int), next);
    }
}

/// Whether an expression names no variable but a declared one.
pub open spec fn expression_resolved(expr: AstNodeView, declared: Set<Seq<char>>) -> bool {
    expr.token.kind matches TokenKindView::Identifier(name) ==> declared.contains(name)
}

/// The names that are declared after a node, where `declared` are declared
/// before it. Only declarations that the analysis reaches count.
pub open spec fn declared_after(node: AstNodeView, declared: Set<Seq<char>>) -> Set<Seq<char>>
    decreases node,
{
    match node.kind {
        AstNodeKind::Program | AstNodeKind::Block => declared_after_items(node.children, declared),
        AstNodeKind::VarDecl => declared.insert(name_of(node.token)),
        _ => declared,
    }
}

/// The names that are declared after a sequence of nodes.
pub open spec fn declared_after_items(items: Seq<AstNodeView>, declared: Set<Seq<char>>) -> Set<
    Seq<char>,
>
    decreases items,
{
    if items.len() == 0 {
        declared
    } else {
        declared_after_items(
            items.subrange(1, items.len() as int),
            declared_after(items[0], declared),
        )
    }
}

/// Whether every name that a node assigns to or reads is declared before, in
/// source order, where `declared` are the names declared before the node, and
/// every log statement holds a string.
pub open spec fn resolved(node: AstNodeView, declared: Set<Seq<char>>) -> bool
    decreases node,
{
    match node.kind {
        AstNodeKind::Program | AstNodeKind::Block => resolved_items(node.children, declared),
        AstNodeKind::VarDecl => node.children.len() > 0 ==> expression_resolved(
            node.children[0],
            declared,
        ),
        AstNodeKind::AssignStmt => declared.contains(name_of(node.token)) && expression_resolved(
            node.children[0],
            declared,
        ),
        AstNodeKind::Expr => expression_resolved(node, declared),
        AstNodeKind::LogStmt => node.token.kind is String,
        _ => true,
    }
}

/// [`resolved`] for a sequence of nodes, one after the other.
pub open spec fn resolved_items(items: Seq<AstNodeView>, declared: Set<Seq<char>>) -> bool
    decreases items,
{
    items.len() == 0 || (resolved(items[0], declared) && resolved_items(
        items.subrange(1, items.len() as int),
        declared_after(items[0], declared),
    ))
}

/// Whether `typed` has the shape of `node`: the same kind, token and number of
/// children. Analysis changes types only.
pub open spec fn same_shape(typed: AstNodeView, node: AstNodeView) -> bool {
    typed.kind == node.kind && typed.token == node.token && typed.children.len()
        == node.children.len()
}

/// Whether `typed` is `node` but for the types that analysis fills in: all
/// through the trees kinds and tokens are the same, and so are the declared
/// types.
pub open spec fn only_types_differ(typed: AstNodeView, node: AstNodeView) -> bool
    decreases node,
{
    &&& same_shape(typed, node)
    &&& node.kind == AstNodeKind::VarDecl ==> typed.inferred_type == node.inferred_type
    &&& forall|i: int|
        0 <= i < node.children.len() ==> only_types_differ(
            #[trigger] typed.children[i],
            node.children[i],
        )
}

/// A tree differs from itself in nothing.
pub proof fn lemma_nothing_differs(node: AstNodeView)
    ensures
        only_types_differ(node, node),
    decreases node,
{
    assert forall|i: int| 0 <= i < node.children.len() implies only_types_differ(
        #[trigger] node.children[i],
        node.children[i],
    ) by {
        lemma_nothing_differs(node.children[i]);
    }
}

/// A tree that passed analysis is well formed and has every name resolved, and
/// the names of the symbol table after it are those declared in it, with those
/// of the table before it.
pub proof fn lemma_analysis_resolves(node: AstNodeView, symbols: Symbols)
    requires
        node.well_formed(),
        analyze_node(node, symbols) is Ok,
    ensures
        ({
            let (typed, after) = analyze_node(node, symbols)->Ok_0;
            &&& same_shape(typed, node)
            &&& typed.well_formed()
            &&& resolved(typed, symbols.dom())
            &&& declared_after(typed, symbols.dom()) == after.dom()
        }),
    decreases node,
{
    let (typed, after) = analyze_node(node, symbols)->Ok_0;
    match node.kind {
        AstNodeKind::Program | AstNodeKind::Block => {
            lemma_analysis_resolves_items(node.children, symbols);
        },
        AstNodeKind::VarDecl => {
            assert(after.dom() =~= symbols.dom().insert(name_of(node.token)));
        },
        _ => {},
    }
}

/// [`lemma_analysis_resolves`] for a sequence of statements.
pub proof fn lemma_analysis_resolves_items(items: Seq<AstNodeView>, symbols: Symbols)
    requires
        forall|i: int| 0 <= i < items.len() ==> (#[trigger] items[i]).well_formed(),
        analyze_items(items, symbols) is Ok,
    ensures
        ({
            let (typed, after) = analyze_items(items, symbols)->Ok_0;
            &&& typed.len() == items.len()
            &&& forall|i: int|
                0 <= i < items.len() ==> same_shape(#[trigger] typed[i], items[i])
                    && typed[i].well_formed()
            &&& resolved_items(typed, symbols.dom())
            &&& declared_after_items(typed, symbols.dom()) == after.dom()
        }),
    decreases items,
{
    if items.len() > 0 {
        let tail = items.subrange(1, items.len() as int);
        lemma_analysis_resolves(items[0], symbols);
        let (first, next) = analyze_node(items[0], symbols)->Ok_0;
        lemma_analysis_resolves_items(tail, next);
        let (rest, after) = analyze_items(tail, next)->Ok_0;
        let typed = seq![first] + rest;
        assert(typed.subrange(1, typed.len() as int) =~= rest);
        assert forall|i: int| 0 <= i < items.len() implies same_shape(#[trigger] typed[i], items[i])
            && typed[i].well_formed() by {
            if i > 0 {
                assert(typed[i] == rest[i - 1]);
                assert(items[i] == tail[i - 1]);
            }
        }
    }
}

/// `done`, then what `rest` holds.
pub open spec fn analyzed_after(done: Seq<AstNodeView>, rest: AnalyzedItems) -> AnalyzedItems {
    match rest {
        Ok((tail, symbols)) => Ok((done + tail, symbols)),
        Err(e) => Err(e),
    }
}

/// `done`, then the nodes of `rest`, with the table of `rest`.
pub open spec fn state_after(done: Seq<AstNodeView>, rest: (Seq<AstNodeView>, Symbols)) -> (
    Seq<AstNodeView>,
    Symbols,
) {
    (done + rest.0, rest.1)
}

/// What an analysis returned, with the node and the table that it left.
pub open spec fn analyzed(
    result: Result<(), SemanticError>,
    node: AstNodeView,
    symbols: Symbols,
) -> Analyzed {
    match result {
        Ok(_) => Ok((node, symbols)),
        Err(e) => Err(e@),
    }
}

/// The name on an identifier token; the empty text on any other token.
pub fn identifier_text(token: &Token) -> (name: String)
    ensures
        name@ == name_of(token@),
{
    match &token.kind {
        TokenKind::Identifier(name) => name.clone(),
        _ => String::new(),
    }
}

/// Whether analysis looks at nodes of a kind. It passes over the others: a
/// class, a function and an import stay as they are, with all that is in
/// them.
pub open spec fn analyzed_kind(kind: AstNodeKind) -> bool {
    kind == AstNodeKind::Program || kind == AstNodeKind::Block || kind == AstNodeKind::VarDecl
        || kind == AstNodeKind::AssignStmt || kind == AstNodeKind::Expr || kind
        == AstNodeKind::LogStmt
}

/// A node of a kind that analysis passes over stays as it is, and so does the
/// symbol table.
pub proof fn lemma_passed_over(node: AstNodeView, symbols: Symbols)
    requires
        !analyzed_kind(node.kind),
    ensures
        analyze_node(node, symbols) == Ok::<(AstNodeView, Symbols), SemanticErrorView>(
            (node, symbols),
        ),
{
}

/// The analyzer's working state: the symbol table, and the memory mode that
/// the source selects.
pub struct Analyzer {
    pub symbols: SymbolTable,
    pub memory_mode: MemoryMode,
}

impl Analyzer {
    /// An analyzer with an empty symbol table, in manual memory mode.
    pub fn new() -> (analyzer: Analyzer)
        ensures
            analyzer.symbols.wf(),
            analyzer.symbols@ == Map::<Seq<char>, Type>::empty(),
            analyzer.memory_mode == MemoryMode::Manual,
    {
        Analyzer { symbols: SymbolTable::new(), memory_mode: MemoryMode::Manual }
    }

    /// Tells whether analysis looks at nodes of a kind, or passes over them.
    pub fn supports(kind: AstNodeKind) -> (yes: bool)
        ensures
            yes == analyzed_kind(kind),
    {
        match kind {
            AstNodeKind::Program
            | AstNodeKind::Block
            | AstNodeKind::VarDecl
            | AstNodeKind::AssignStmt
            | AstNodeKind::Expr
            | AstNodeKind::LogStmt => true,
            _ => false,
        }
    }

    /// The type of a declared name; `None` for a name that is not declared.
    pub fn lookup(&self, name: &str) -> (found: Option<Type>)
        ensures
            found == if self.symbols@.contains_key(name@) {
                Some(self.symbols@[name@])
            } else {
                None
            },
    {
        self.symbols.lookup(name)
    }

    /// Resolves an expression that names a variable; leaves a literal as it is.
    fn check_expression(&self, expr: &mut AstNode) -> (result: Result<(), SemanticError>)
        requires
            old(expr).kind != AstNodeKind::VarDecl,
        ensures
            only_types_differ(final(expr)@, old(expr)@),
            final(expr)@ == expression_state(old(expr)@, self.symbols@),
            match result {
                Ok(_) => analyze_expression_spec(old(expr)@, self.symbols@) == Ok::<
                    AstNodeView,
                    SemanticErrorView,
                >(final(expr)@),
                Err(e) => analyze_expression_spec(old(expr)@, self.symbols@) == Err::<
                    AstNodeView,
                    SemanticErrorView,
                >(e@),
            },
    {
        proof {
            lemma_view_children(expr);
            lemma_nothing_differs(expr@);
        }
        let resolved = match &expr.token.kind {
            TokenKind::Identifier(name) => match self.lookup(name.as_str()) {
                Some(declared) => Some(declared),
                None => {
                    return Err(SemanticError::UndefinedVariable(name.clone()));
                },
            },
            _ => expr.inferred_type,
        };
        expr.inferred_type = resolved;
        proof {
            lemma_view_children(expr);
        }
        Ok(())
    }

    /// Checks the value that is bound to a variable of type `expected`.
    fn check_value(&self, value: &mut AstNode, expected: Type) -> (result: Result<
        (),
        SemanticError,
    >)
        requires
            old(value)@.is_expression(),
        ensures
            only_types_differ(final(value)@, old(value)@),
            final(value)@ == expression_state(old(value)@, self.symbols@),
            match result {
                Ok(_) => analyze_value_spec(old(value)@, self.symbols@, expected) == Ok::<
                    AstNodeView,
                    SemanticErrorView,
                >(final(value)@),
                Err(e) => analyze_value_spec(old(value)@, self.symbols@, expected) == Err::<
                    AstNodeView,
                    SemanticErrorView,
                >(e@),
            },
    {
        self.check_expression(value)?;
        let found = value.inferred_type.unwrap();
        if found != expected {
            return Err(SemanticError::TypeMismatch { expected, found });
        }
        Ok(())
    }

    /// Analyzes `node` and what is below it, in place.
    ///
    /// In automatic memory mode nothing is looked at: the analysis fails with
    /// `UnsupportedMemoryMode`, and the node and the symbol table stay as they
    /// are. Otherwise the result is what [`analyze_node`] gives, with the first
    /// fault in source order where there is one, and the node and the symbol
    /// table are left as [`analysis_state`] tells: on success as analyzed, on
    /// failure with all that was done before the fault and nothing after it.
    pub fn semantic_check(&mut self, node: &mut AstNode) -> (result: Result<(), SemanticError>)
        requires
            old(node)@.well_formed(),
            old(self).symbols.wf(),
        ensures
            final(self).symbols.wf(),
            final(self).memory_mode == old(self).memory_mode,
            analyze_in_mode(old(node)@, old(self).symbols@, old(self).memory_mode) == analyzed(
                result,
                final(node)@,
                final(self).symbols@,
            ),
            (final(node)@, final(self).symbols@) == state_in_mode(
                old(node)@,
                old(self).symbols@,
                old(self).memory_mode,
            ),
            old(self).memory_mode == MemoryMode::Auto ==> *final(node) == *old(node),
            only_types_differ(final(node)@, old(node)@),
            old(self).symbols@.submap_of(final(self).symbols@),
        decreases *old(node),
    {
        proof {
            lemma_view_children(node);
            lemma_nothing_differs(node@);
        }
        if self.memory_mode == MemoryMode::Auto {
            return Err(SemanticError::UnsupportedMemoryMode);
        }
        match node.kind {
            AstNodeKind::Program | AstNodeKind::Block => {
                let ghost items = node@.children;
                let ghost before = self.symbols@;
                let ghost done: Seq<AstNodeView> = Seq::empty();
                proof {
                    assert(items.subrange(0, items.len() as int) =~= items);
                    match analyze_items(items, before) {
                        Ok((tail, _)) => {
                            assert(done + tail =~= tail);
                        },
                        Err(_) => {},
                    }
                }
                proof {
                    let whole = items_state(items, before);
                    assert(done + whole.0 =~= whole.0);
                }
                let mut i: usize = 0;
                while i < node.children.len()
                    invariant
                        i <= node.children.len(),
                        node.kind == old(node).kind,
                        node.token == old(node).token,
                        node.inferred_type == old(node).inferred_type,
                        node.children.len() == old(node).children.len(),
                        node.kind == AstNodeKind::Program || node.kind == AstNodeKind::Block,
                        items == old(node)@.children,
                        items == node_views(old(node).children@),
                        before == old(self).symbols@,
                        forall|j: int|
                            i <= j < node.children.len() ==> node.children[j] == old(
                                node,
                            ).children[j],
                        forall|j: int| 0 <= j < items.len() ==> (#[trigger] items[j]).well_formed(),
                        forall|j: int|
                            0 <= j < items.len() ==> only_types_differ(
                                #[trigger] node_views(node.children@)[j],
                                items[j],
                            ),
                        before.submap_of(self.symbols@),
                        self.symbols.wf(),
                        self.memory_mode == old(self).memory_mode,
                        self.memory_mode != MemoryMode::Auto,
                        items_state(items, before) == state_after(
                            done,
                            items_state(
                                items.subrange(i as int, items.len() as int),
                                self.symbols@,
                            ),
                        ),
                        done == node_views(node.children@).subrange(0, i as int),
                        analyze_items(items, before) == analyzed_after(
                            done,
                            analyze_items(
                                items.subrange(i as int, items.len() as int),
                                self.symbols@,
                            ),
                        ),
                    decreases node.children.len() - i,
                {
                    let ghost seen = done;
                    let ghost rest = items.subrange(i as int, items.len() as int);
                    let ghost table = self.symbols@;
                    proof {
                        assert(rest[0] == items[i as int]);
                        assert(rest.subrange(1, rest.len() as int) =~= items.subrange(
                            i + 1,
                            items.len() as int,
                        ));
                        assert(decreases_to!(*old(node) => old(node).children));
                        assert(decreases_to!(old(node).children => old(node).children[i as int]));
                    }
                    let ghost earlier = node_views(node.children@);
                    let checked = self.semantic_check(&mut node.children[i]);
                    proof {
                        lemma_view_children(node);
                        let now = node_views(node.children@);
                        assert forall|j: int| 0 <= j < items.len() implies only_types_differ(
                            #[trigger] now[j],
                            items[j],
                        ) by {
                            if j != i {
                                assert(now[j] == earlier[j]);
                            }
                        }
                        assert forall|name: Seq<char>| before.dom().contains(name) implies (
                        #[trigger] self.symbols@.dom().contains(name)) && before[name]
                            == self.symbols@[name] by {
                            assert(before.dom().contains(name) ==> table.dom().contains(name));
                            assert(table.dom().contains(name) ==> self.symbols@.dom().contains(name));
                        }
                    }
                    proof {
                        let child = node.children[i as int]@;
                        let now = node_views(node.children@);
                        let tail = items.subrange(i + 1, items.len() as int);
                        if checked is Err {
                            assert(now =~= seen + (seq![child] + tail)) by {
                                assert forall|j: int| i < j < now.len() implies now[j] == items[j] by {
                                    assert(node.children[j] == old(node).children[j]);
                                }
                            }
                        } else {
                            let after = items_state(tail, self.symbols@);
                            assert(seen.push(child) + after.0 =~= seen + (seq![child] + after.0));
                        }
                    }
                    checked?;
                    proof {
                        let child = node.children[i as int]@;
                        done = seen.push(child);
                        assert(node_views(node.children@).subrange(0, i + 1) =~= done);
                        match analyze_items(items.subrange(i + 1, items.len() as int), self.symbols@) {
                            Ok((tail, _)) => {
                                assert(done + tail =~= seen + (seq![child] + tail));
                            },
                            Err(_) => {},
                        }
                    }
                    i += 1;
                }
                proof {
                    lemma_view_children(node);
                    assert(node_views(node.children@).subrange(0, i as int) =~= node@.children);
                    assert(done + Seq::<AstNodeView>::empty() =~= done);
                    assert(items.subrange(i as int, items.len() as int) =~= Seq::empty());
                }
                Ok(())
            },
            AstNodeKind::VarDecl => {
                let name = identifier_text(&node.token);
                if self.symbols.contains(name.as_str()) {
                    return Err(SemanticError::Redefinition(name));
                }
                let declared = node.inferred_type.unwrap();
                if node.children.len() > 0 {
                    let checked = self.check_value(&mut node.children[0], declared);
                    proof {
                        lemma_view_children(node);
                        assert(node@.children =~= seq![node.children[0]@]);
                    }
                    checked?;
                }
                self.symbols.declare(name, declared);
                Ok(())
            },
            AstNodeKind::AssignStmt => {
                let name = identifier_text(&node.token);
                let declared = match self.lookup(name.as_str()) {
                    Some(declared) => declared,
                    None => {
                        return Err(SemanticError::UndefinedVariable(name));
                    },
                };
                let checked = self.check_value(&mut node.children[0], declared);
                proof {
                    lemma_view_children(node);
                    assert(node@.children =~= seq![node.children[0]@]);
                }
                checked?;
                node.inferred_type = Some(declared);
                proof {
                    lemma_view_children(node);
                    assert(node@.children =~= seq![node.children[0]@]);
                }
                Ok(())
            },
            AstNodeKind::Expr => self.check_expression(node),
            AstNodeKind::LogStmt => match node.token.kind {
                TokenKind::String(_) => Ok(()),
                _ => Err(SemanticError::LogExpectsString),
            },
            _ => Ok(()),
        }
    }
}

/// Checks and types a tree in place.
///
/// Where `mode` is automatic, the tree is not touched and the analysis fails
/// with `UnsupportedMemoryMode`. Otherwise the tree is analyzed from an empty
/// symbol table, which is dropped at the end. A tree that passed is well formed
/// and has every name resolved: it can be handed to code generation. A tree
/// that failed is left as [`analysis_state`] tells.
pub fn analyze(ast: &mut AstNode, mode: MemoryMode) -> (result: Result<(), SemanticError>)
    requires
        old(ast)@.well_formed(),
    ensures
        mode == MemoryMode::Auto ==> *final(ast) == *old(ast),
        final(ast)@ == state_in_mode(old(ast)@, Map::empty(), mode).0,
        only_types_differ(final(ast)@, old(ast)@),
        match result {
            Ok(_) => {
                &&& analyze_spec(old(ast)@, mode) matches Ok((typed, _))
                &&& typed == final(ast)@
                &&& final(ast)@.well_formed()
                &&& resolved(final(ast)@, Set::empty())
            },
            Err(e) => analyze_spec(old(ast)@, mode) == Err::<
                (AstNodeView, Symbols),
                SemanticErrorView,
            >(e@),
        },
{
    let mut analyzer = Analyzer { symbols: SymbolTable::new(), memory_mode: mode };
    let result = analyzer.semantic_check(ast);
    proof {
        if result is Ok {
            lemma_analysis_resolves(old(ast)@, Map::empty());
            assert(Map::<Seq<char>, Type>::empty().dom() =~= Set::empty());
        }
    }
    result
}

} // verus!
