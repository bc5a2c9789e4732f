//! The syntax tree: an owned, ordered tree of nodes, each placed on a token.

use vstd::prelude::*;
use crate::token::{Token, TokenKindView, TokenView};

verus! {

/// The kinds of node.
#[derive(Debug, Clone, Copy, PartialEq, Eq, Structural)]
pub enum AstNodeKind {
    Program,
    Import,
    ClassDef,
    FuncDef,
    LogStmt,
    Block,
    VarDecl,
    AssignStmt,
    Expr,
}

/// The types of the language.
#[derive(Debug, Clone, Copy, PartialEq, Eq, Structural)]
pub enum Type {
    Int32,
    StringT,
}

/// How the compiled program manages memory.
#[derive(Debug, Clone, Copy, PartialEq, Eq, Structural)]
pub enum MemoryMode {
    Manual,
    Auto,
}

/// A node of the tree. It owns its children, in source order.
///
/// A declaration holds its value as its one child, or no child where it has no
/// value; the parser only makes declarations with a value.
///
/// `inferred_type` holds the declared type on a declaration and the literal's
/// type on a literal expression from the start; analysis fills it in on
/// assignments and on expressions that name a variable.
#[derive(Debug, PartialEq, Eq)]
pub struct AstNode {
    pub kind: AstNodeKind,
    pub children: Vec<AstNode>,
    pub token: Token,
    pub inferred_type: Option<Type>,
}

/// The mathematical value of an [`AstNode`].
pub struct AstNodeView {
    pub kind: AstNodeKind,
    pub children: Seq<AstNodeView>,
    pub token: TokenView,
    pub inferred_type: Option<Type>,
}

/// The value of a node: its own fields, and the values of its children in order.
pub open spec fn node_view(node: AstNode) -> AstNodeView
    decreases node,
{
    AstNodeView {
        kind: node.kind,
        children: Seq::new(
            node.children.len() as nat,
            |i: int|
                if 0 <= i < node.children.len() {
                    node_view(node.children[i])
                } else {
                    arbitrary()
                },
        ),
        token: node.token@,
        inferred_type: node.inferred_type,
    }
}

impl View for AstNode {
    type V = AstNodeView;

    open spec fn view(&self) -> AstNodeView {
        node_view(*self)
    }
}

impl Clone for AstNode {
    fn clone(&self) -> (copy: AstNode)
        ensures
            copy@ == self@,
        decreases self,
    {
        let mut children: Vec<AstNode> = Vec::new();
        let mut i: usize = 0;
        while i < self.children.len()
            invariant
                i <= self.children.len(),
                children.len() == i,
                forall|j: int| 0 <= j < i ==> children[j]@ == self.children[j]@,
            decreases self.children.len() - i,
        {
            children.push(self.children[i].clone());
            i += 1;
        }
        let copy = AstNode {
            kind: self.kind,
            children,
            token: self.token.clone(),
            inferred_type: self.inferred_type,
        };
        assert(copy@.children =~= self@.children);
        copy
    }
}

/// The values of a sequence of nodes, in order.
pub open spec fn node_views(nodes: Seq<AstNode>) -> Seq<AstNodeView> {
    Seq::new(nodes.len(), |i: int| nodes[i]@)
}

/// The children of a node's value are the values of its children.
pub proof fn lemma_view_children(node: &AstNode)
    ensures
        node@.children == node_views(node.children@),
        node@.kind == node.kind,
        node@.token == node.token@,
        node@.inferred_type == node.inferred_type,
{
    assert(node@.children =~= node_views(node.children@));
}

/// The token that the root is placed on: it stands for no place in the source.
pub open spec fn synthetic_token() -> TokenView {
    TokenView { kind: TokenKindView::Invalid, line: 0, column: 0 }
}

/// The type of a literal expression on the given token; `None` for any other token.
pub open spec fn literal_type(kind: TokenKindView) -> Option<Type> {
    match kind {
        TokenKindView::Number(_) => Some(Type::Int32),
        TokenKindView::String(_) => Some(Type::StringT),
        _ => None,
    }
}

/// Groups of nodes, for counting.
#[derive(Debug, Clone, Copy, PartialEq, Eq, Structural)]
pub enum NodeGroup {
    /// Every node.
    All,
    /// Every node but the root, the blocks and the expressions.
    Statements,
    Blocks,
    Expressions,
}

/// Whether a node of the given kind belongs to the group.
pub open spec fn in_group(kind: AstNodeKind, group: NodeGroup) -> bool {
    match group {
        NodeGroup::All => true,
        NodeGroup::Statements => kind != AstNodeKind::Program && kind != AstNodeKind::Block && kind
            != AstNodeKind::Expr,
        NodeGroup::Blocks => kind == AstNodeKind::Block,
        NodeGroup::Expressions => kind == AstNodeKind::Expr,
    }
}

/// The number of nodes of the given group in the trees of a sequence.
pub open spec fn count_nodes_items(items: Seq<AstNodeView>, group: NodeGroup) -> nat
    decreases items,
{
    if items.len() == 0 {
        0
    } else {
        items[0].count_nodes(group) + count_nodes_items(
            items.subrange(1, items.len() as int),
            group,
        )
    }
}

impl AstNodeView {
    /// A node without children.
    pub open spec fn leaf(kind: AstNodeKind, token: TokenView, inferred_type: Option<Type>) -> Self {
        AstNodeView { kind, children: Seq::empty(), token, inferred_type }
    }

    /// The number of nodes of the tree that belong to the given group.
    pub open spec fn count_nodes(self, group: NodeGroup) -> nat
        decreases self,
    {
        (if in_group(self.kind, group) {
            1nat
        } else {
            0nat
        }) + count_nodes_items(self.children, group)
    }

    /// The number of nodes of the tree.
    pub open spec fn node_count(self) -> nat {
        self.count_nodes(NodeGroup::All)
    }

    /// Whether the node is a statement: anything but the root, a block or an expression.
    pub open spec fn is_statement(self) -> bool {
        in_group(self.kind, NodeGroup::Statements)
    }

    /// Whether the node is an expression placed on a token that an expression can
    /// be: a number or a string, typed as such, or an identifier.
    pub open spec fn is_expression(self) -> bool {
        &&& self.kind == AstNodeKind::Expr
        &&& self.children.len() == 0
        &&& match self.token.kind {
            TokenKindView::Number(_) => self.inferred_type == Some(Type::Int32),
            TokenKindView::String(_) => self.inferred_type == Some(Type::StringT),
            TokenKindView::Identifier(_) => true,
            _ => false,
        }
    }

    /// The shape that every tree has: each node is placed on a token of the kind
    /// that its rule reads, and has the children that its rule gives it. Only
    /// the token of a log statement is left open here: the parser places it on
    /// a string, and analysis fails on any other.
    pub open spec fn well_formed(self) -> bool
        decreases self,
    {
        match self.kind {
            AstNodeKind::Program => {
                &&& self.token == synthetic_token()
                &&& self.inferred_type is None
                &&& forall|i: int|
                    0 <= i < self.children.len() ==> (#[trigger] self.children[i]).is_statement()
                        && self.children[i].well_formed()
            },
            AstNodeKind::Block => {
                &&& self.token.kind is OpenBracket
                &&& self.inferred_type is None
                &&& forall|i: int|
                    0 <= i < self.children.len() ==> (#[trigger] self.children[i]).is_statement()
                        && self.children[i].well_formed()
            },
            AstNodeKind::Import => {
                &&& self.token.kind is Import
                &&& self.inferred_type is None
                &&& self.children.len() == 0
            },
            AstNodeKind::ClassDef | AstNodeKind::FuncDef => {
                &&& self.token.kind is Identifier
                &&& self.inferred_type is None
                &&& self.children.len() == 1
                &&& self.children[0].kind == AstNodeKind::Block
                &&& self.children[0].well_formed()
            },
            AstNodeKind::LogStmt => {
                &&& self.inferred_type is None
                &&& self.children.len() == 0
            },
            AstNodeKind::VarDecl => {
                &&& self.token.kind is Identifier
                &&& self.inferred_type is Some
                &&& self.children.len() <= 1
                &&& self.children.len() == 1 ==> self.children[0].is_expression()
            },
            AstNodeKind::AssignStmt => {
                &&& self.token.kind is Identifier
                &&& self.children.len() == 1
                &&& self.children[0].is_expression()
            },
            AstNodeKind::Expr => self.is_expression(),
        }
    }
}

} // verus!
