//! The code-generation driver: a checked tree to the instructions that an IR
//! builder is to carry out, in order.
//!
//! The program becomes the body of one function, `main`, which returns 0.
//! Declarations, assignments and log statements are lowered; the bodies of
//! classes and functions, and imports, are passed over.
//!
//! Instructions name each other by place: a slot is the place of the
//! instruction that allocated it, a value the place of the instruction that
//! made it, the output function the place of its declaration.

use vstd::prelude::*;
use vstd::hash_map::StringHashMap;
use vstd::slice::slice_to_vec;
use vstd::utf8::encode_utf8;
use crate::analyzer::{declared_after, expression_resolved, identifier_text, name_of, resolved, resolved_items};
use crate::ast::{AstNode, AstNodeKind, AstNodeView, Type, lemma_view_children};
use crate::lexer::is_digit;
use crate::token::{TokenKind, TokenKindView};

verus! {

/// Why code generation stopped.
#[derive(Debug, Clone, Copy, PartialEq, Eq, Structural)]
pub enum CodegenError {
    /// The backend could not do what an instruction asks of it.
    BackendFailure,
}

/// One request to the IR builder.
#[derive(Debug, Clone, PartialEq, Eq)]
#[allow(inconsistent_fields)]
pub enum Instruction {
    /// Declare the external, variadic output function of the given name, which
    /// takes an address and returns an integer.
    DeclareExternal { name: String },
    /// Create the function of the given name, without parameters, which
    /// returns an integer.
    CreateFunction { name: String },
    /// Create a basic block of the given name in the function.
    CreateBlock { name: String },
    /// Go on at the end of the block.
    PositionAtEnd,
    /// Allocate a stack slot of the given type for the variable of the given name.
    Allocate { name: String, ty: Type },
    /// Store a value in a slot.
    Store { slot: usize, value: usize },
    /// Load the value of a slot.
    Load { slot: usize },
    /// Make an integer constant.
    ConstInt { value: u64 },
    /// Make read-only data of the given bytes; its value is its address.
    GlobalData { bytes: Vec<u8> },
    /// Call a declared function on one argument.
    Call { function: usize, argument: usize },
    /// Return a value from the function.
    Return { value: usize },
}

/// The mathematical value of an [`Instruction`].
#[allow(inconsistent_fields)]
pub enum InstructionView {
    DeclareExternal { name: Seq<char> },
    CreateFunction { name: Seq<char> },
    CreateBlock { name: Seq<char> },
    PositionAtEnd,
    Allocate { name: Seq<char>, ty: Type },
    Store { slot: usize, value: usize },
    Load { slot: usize },
    ConstInt { value: u64 },
    GlobalData { bytes: Seq<u8> },
    Call { function: usize, argument: usize },
    Return { value: usize },
}

impl View for Instruction {
    type V = InstructionView;

    open spec fn view(&self) -> InstructionView {
        match *self {
            Instruction::DeclareExternal { name } => InstructionView::DeclareExternal {
                name: name@,
            },
            Instruction::CreateFunction { name } => InstructionView::CreateFunction { name: name@ },
            Instruction::CreateBlock { name } => InstructionView::CreateBlock { name: name@ },
            Instruction::PositionAtEnd => InstructionView::PositionAtEnd,
            Instruction::Allocate { name, ty } => InstructionView::Allocate { name: name@, ty },
            Instruction::Store { slot, value } => InstructionView::Store { slot, value },
            Instruction::Load { slot } => InstructionView::Load { slot },
            Instruction::ConstInt { value } => InstructionView::ConstInt { value },
            Instruction::GlobalData { bytes } => InstructionView::GlobalData { bytes: bytes@ },
            Instruction::Call { function, argument } => InstructionView::Call { function, argument },
            Instruction::Return { value } => InstructionView::Return { value },
        }
    }
}

/// The values of a sequence of instructions, in order.
pub open spec fn instruction_views(code: Seq<Instruction>) -> Seq<InstructionView> {
    Seq::new(code.len(), |i: int| code[i]@)
}

/// The value of a digit.
pub open spec fn digit_value(c: char) -> nat {
    (c as u32 - '0' as u32) as nat
}

/// The number that a text of decimal digits writes.
pub open spec fn decimal_value(text: Seq<char>) -> nat
    decreases text.len(),
{
    if text.len() == 0 {
        0
    } else {
        decimal_value(text.drop_last()) * 10 + digit_value(text.last())
    }
}

/// Whether a text is an integer literal: decimal digits, at least one.
pub open spec fn is_decimal(text: Seq<char>) -> bool {
    text.len() > 0 && forall|i: int| 0 <= i < text.len() ==> is_digit(#[trigger] text[i])
}

/// The value of a number literal that is an integer and fits 64 bits; `None`
/// for any other text.
pub open spec fn literal_value(text: Seq<char>) -> Option<u64> {
    if is_decimal(text) && decimal_value(text) <= u64::MAX {
        Some(decimal_value(text) as u64)
    } else {
        None
    }
}

/// The bytes of a text, then the bytes of `tail`, then a zero byte.
pub open spec fn data_bytes(text: Seq<char>, tail: Seq<u8>) -> Seq<u8> {
    encode_utf8(text) + tail + seq![0u8]
}

/// The name of the output function.
pub open spec fn output_function() -> Seq<char> {
    "printf"@
}

/// The name of the function that holds the program.
pub open spec fn entry_function() -> Seq<char> {
    "main"@
}

/// The name of the block that holds the program.
pub open spec fn entry_block() -> Seq<char> {
    "entry"@
}

/// The state of a lowering: the instructions so far, the slot of each
/// variable, and the place where the output function was declared.
pub struct Lowering {
    pub code: Seq<InstructionView>,
    pub slots: Map<Seq<char>, usize>,
    pub output: usize,
}

impl Lowering {
    /// The state with one more instruction.
    pub open spec fn emit(self, instruction: InstructionView) -> Lowering {
        Lowering { code: self.code.push(instruction), ..self }
    }

    /// The place that the next instruction will have.
    pub open spec fn next(self) -> usize {
        self.code.len() as usize
    }

    /// The place of the last instruction.
    pub open spec fn last(self) -> usize {
        (self.code.len() - 1) as usize
    }
}

/// The state before anything is lowered: the output function is declared.
pub open spec fn initial_lowering() -> Lowering {
    Lowering {
        code: seq![InstructionView::DeclareExternal { name: output_function() }],
        slots: Map::empty(),
        output: 0,
    }
}

/// An expression's value is made by one instruction: a constant for a number,
/// data for a string, a load for a variable. `None` where a number literal has
/// no value ([`literal_value`]), or the token is none that an expression is
/// placed on.
pub open spec fn lower_expression(expr: AstNodeView, state: Lowering) -> Option<Lowering> {
    match expr.token.kind {
        TokenKindView::Number(text) => match literal_value(text) {
            Some(value) => Some(state.emit(InstructionView::ConstInt { value })),
            None => None,
        },
        TokenKindView::String(text) => Some(
            state.emit(InstructionView::GlobalData { bytes: data_bytes(text, Seq::empty()) }),
        ),
        TokenKindView::Identifier(name) => Some(
            state.emit(InstructionView::Load { slot: state.slots[name] }),
        ),
        _ => None,
    }
}

/// The value of `expr` is made and stored in `slot`.
pub open spec fn lower_store(expr: AstNodeView, slot: usize, state: Lowering) -> Option<Lowering> {
    match lower_expression(expr, state) {
        Some(made) => Some(made.emit(InstructionView::Store { slot, value: made.last() })),
        None => None,
    }
}

/// The lowering of a node.
///
/// - A declaration allocates a slot for its name, then stores its value
///   there, if it has one.
/// - An assignment stores its value in the slot of its name.
/// - A log statement makes data of its text, a line feed and a zero byte, and
///   calls the output function on it. Each statement makes data of its own.
/// - The root and a block are lowered child by child, in order.
/// - Every other node leaves no instruction.
pub open spec fn lower_node(node: AstNodeView, state: Lowering) -> Option<Lowering>
    decreases node,
{
    let name = name_of(node.token);
    match node.kind {
        AstNodeKind::Program | AstNodeKind::Block => lower_items(node.children, state),
        AstNodeKind::VarDecl => {
            let slot = state.next();
            let allocated = Lowering {
                slots: state.slots.insert(name, slot),
                ..state.emit(
                    InstructionView::Allocate { name, ty: node.inferred_type.unwrap() },
                )
            };
            if node.children.len() == 0 {
                Some(allocated)
            } else {
                lower_store(node.children[0], slot, allocated)
            }
        },
        AstNodeKind::AssignStmt => lower_store(node.children[0], state.slots[name], state),
        AstNodeKind::LogStmt => match node.token.kind {
            TokenKindView::String(text) => {
                let made = state.emit(
                    InstructionView::GlobalData { bytes: data_bytes(text, seq![10u8]) },
                );
                Some(
                    made.emit(
                        InstructionView::Call { function: state.output, argument: made.last() },
                    ),
                )
            },
            _ => None,
        },
        _ => Some(state),
    }
}

/// The lowering of a sequence of nodes, one after the other.
pub open spec fn lower_items(items: Seq<AstNodeView>, state: Lowering) -> Option<Lowering>
    decreases items,
{
    if items.len() == 0 {
        Some(state)
    } else {
        match lower_node(items[0], state) {
            Some(next) => lower_items(items.subrange(1, items.len() as int), next),
            None => None,
        }
    }
}

/// The state with the function and its block opened.
pub open spec fn open_function(state: Lowering) -> Lowering {
    state.emit(InstructionView::CreateFunction { name: entry_function() }).emit(
        InstructionView::CreateBlock { name: entry_block() },
    ).emit(InstructionView::PositionAtEnd)
}

/// The state with the function closed: it returns the constant 0.
pub open spec fn close_function(state: Lowering) -> Lowering {
    let made = state.emit(InstructionView::ConstInt { value: 0 });
    made.emit(InstructionView::Return { value: made.last() })
}

/// The lowering of a tree into the body of the function, from the given state.
pub open spec fn lower_function(ast: AstNodeView, state: Lowering) -> Option<Lowering> {
    match lower_node(ast, open_function(state)) {
        Some(body) => Some(close_function(body)),
        None => None,
    }
}

/// The instructions of a whole program.
pub open spec fn lower_program(ast: AstNodeView) -> Option<Seq<InstructionView>> {
    match lower_function(ast, initial_lowering()) {
        Some(done) => Some(done.code),
        None => None,
    }
}

/// Whether code is generated for nodes of a kind. The others are passed over:
/// a class, a function and an import leave no instruction, whatever is in
/// them, and an expression leaves none but as the value of a declaration or
/// an assignment.
pub open spec fn lowered_kind(kind: AstNodeKind) -> bool {
    kind == AstNodeKind::Program || kind == AstNodeKind::Block || kind == AstNodeKind::VarDecl
        || kind == AstNodeKind::AssignStmt || kind == AstNodeKind::LogStmt
}

/// A node of a kind that is passed over leaves no instruction.
pub proof fn lemma_passed_over(node: AstNodeView, state: Lowering)
    requires
        !lowered_kind(node.kind),
    ensures
        lower_node(node, state) == Some(state),
{
}

/// Whether every literal that is lowered can be: every number that a node
/// gives to a variable has a value, and every log statement holds a string,
/// as it does in every tree that passed analysis.
pub open spec fn literals_fit(node: AstNodeView) -> bool
    decreases node,
{
    match node.kind {
        AstNodeKind::Program | AstNodeKind::Block => forall|i: int|
            0 <= i < node.children.len() ==> literals_fit(#[trigger] node.children[i]),
        AstNodeKind::VarDecl | AstNodeKind::AssignStmt => node.children.len() > 0 ==> (
        node.children[0].token.kind matches TokenKindView::Number(text) ==> literal_value(text)
            is Some),
        AstNodeKind::LogStmt => node.token.kind is String,
        _ => true,
    }
}

/// A well-formed tree can be lowered exactly if its number literals have values.
pub proof fn lemma_lowering_needs_literals(node: AstNodeView, state: Lowering)
    requires
        node.well_formed(),
    ensures
        lower_node(node, state) is Some <==> literals_fit(node),
    decreases node,
{
    match node.kind {
        AstNodeKind::Program | AstNodeKind::Block => {
            lemma_lowering_needs_literals_items(node.children, state);
        },
        _ => {},
    }
}

/// [`lemma_lowering_needs_literals`] for a sequence of nodes.
pub proof fn lemma_lowering_needs_literals_items(items: Seq<AstNodeView>, state: Lowering)
    requires
        forall|i: int| 0 <= i < items.len() ==> (#[trigger] items[i]).well_formed(),
    ensures
        lower_items(items, state) is Some <==> forall|i: int|
            0 <= i < items.len() ==> literals_fit(#[trigger] items[i]),
    decreases items,
{
    if items.len() > 0 {
        let tail = items.subrange(1, items.len() as int);
        assert forall|i: int| 0 <= i < tail.len() implies (#[trigger] tail[i]).well_formed() by {
            assert(tail[i] == items[i + 1]);
        }
        lemma_lowering_needs_literals(items[0], state);
        if let Some(next) = lower_node(items[0], state) {
            lemma_lowering_needs_literals_items(tail, next);
            if lower_items(tail, next) is Some {
                assert forall|i: int| 0 <= i < items.len() implies literals_fit(
                    #[trigger] items[i],
                ) by {
                    if i > 0 {
                        assert(items[i] == tail[i - 1]);
                    }
                }
            } else {
                let i = choose|i: int| 0 <= i < tail.len() && !literals_fit(#[trigger] tail[i]);
                assert(tail[i] == items[i + 1]);
            }
        }
    }
}

/// A well-formed program can be lowered exactly if its number literals have values.
pub proof fn lemma_generation_needs_literals(ast: AstNodeView)
    requires
        ast.well_formed(),
    ensures
        lower_program(ast) is Some <==> literals_fit(ast),
{
    lemma_lowering_needs_literals(ast, open_function(initial_lowering()));
}

/// A text goes on from each of its beginnings: a beginning never writes a
/// greater number than the whole.
pub proof fn lemma_decimal_prefix(text: Seq<char>, k: int)
    requires
        0 <= k <= text.len(),
    ensures
        decimal_value(text.take(k)) <= decimal_value(text),
    decreases text.len(),
{
    if k == text.len() {
        assert(text.take(k) =~= text);
    } else {
        assert(text.drop_last().take(k) =~= text.take(k));
        lemma_decimal_prefix(text.drop_last(), k);
    }
}

/// The value of a number literal: `Some` for decimal digits that write a
/// number below 2^64, `None` for any other text.
pub fn number_value(text: &str) -> (value: Option<u64>)
    ensures
        value == literal_value(text@),
{
    let mut acc: u64 = 0;
    let mut any = false;
    for c in iter: text.chars()
        invariant
            iter.seq() == text@,
            any == (iter.index() > 0),
            forall|i: int| 0 <= i < iter.index() ==> is_digit(#[trigger] text@[i]),
            acc == decimal_value(text@.take(iter.index() as int)),
    {
        let ghost k = iter.index() as int;
        if !('0' <= c && c <= '9') {
            assert(!is_digit(text@[k]));
            return None;
        }
        let digit: u64 = (c as u32 - '0' as u32) as u64;
        proof {
            assert(text@.take(k + 1).drop_last() =~= text@.take(k));
            assert(text@.take(k + 1).last() == c);
            lemma_decimal_prefix(text@, k + 1);
        }
        let shifted = match acc.checked_mul(10) {
            Some(shifted) => shifted,
            None => {
                return None;
            },
        };
        acc = match shifted.checked_add(digit) {
            Some(sum) => sum,
            None => {
                return None;
            },
        };
        any = true;
    }
    proof {
        assert(text@.take(text@.len() as int) =~= text@);
    }
    if any {
        Some(acc)
    } else {
        None
    }
}

/// Whether a state goes on from another: it has the instructions of the other,
/// then perhaps more, and the same output function.
pub open spec fn goes_on_from(later: Lowering, earlier: Lowering) -> bool {
    earlier.code.is_prefix_of(later.code) && later.output == earlier.output
}

/// What goes on from a state that goes on from another goes on from the other.
pub proof fn lemma_goes_on(last: Lowering, middle: Lowering, first: Lowering)
    requires
        goes_on_from(last, middle),
        goes_on_from(middle, first),
    ensures
        goes_on_from(last, first),
{
    assert(first.code =~= last.code.subrange(0, first.code.len() as int));
}

/// The driver's working state: the instructions issued so far, the slot of
/// each variable, and the place where the output function was declared.
pub struct CodeGen {
    pub instructions: Vec<Instruction>,
    pub variables: StringHashMap<usize>,
    pub printf: usize,
}

impl CodeGen {
    /// The state as a value.
    pub open spec fn state(&self) -> Lowering {
        Lowering {
            code: instruction_views(self.instructions@),
            slots: self.variables@,
            output: self.printf,
        }
    }

    /// Tells whether code is generated for nodes of a kind, or they are passed over.
    pub fn supports(kind: AstNodeKind) -> (yes: bool)
        ensures
            yes == lowered_kind(kind),
    {
        match kind {
            AstNodeKind::Program
            | AstNodeKind::Block
            | AstNodeKind::VarDecl
            | AstNodeKind::AssignStmt
            | AstNodeKind::LogStmt => true,
            _ => false,
        }
    }

    /// A driver that has declared the output function and nothing else.
    pub fn new() -> (driver: CodeGen)
        ensures
            driver.state() == initial_lowering(),
    {
        let mut instructions: Vec<Instruction> = Vec::new();
        instructions.push(Instruction::DeclareExternal { name: "printf".to_owned() });
        let driver = CodeGen { instructions, variables: StringHashMap::new(), printf: 0 };
        assert(driver.state().code =~= initial_lowering().code);
        driver
    }

    /// Issues one instruction and tells its place.
    fn emit(&mut self, instruction: Instruction) -> (place: usize)
        ensures
            final(self).state() == old(self).state().emit(instruction@),
            final(self).variables == old(self).variables,
            goes_on_from(final(self).state(), old(self).state()),
            place == old(self).state().next(),
            place == final(self).state().last(),
    {
        let place = self.instructions.len();
        self.instructions.push(instruction);
        assert(self.state().code =~= old(self).state().code.push(instruction@));
        assert(old(self).state().code =~= self.state().code.subrange(
            0,
            old(self).state().code.len() as int,
        ));
        place
    }

    /// Lowers a whole tree into the function `main`: opens the function, lowers
    /// the tree, and returns 0.
    pub fn codegen(&mut self, ast: &AstNode) -> (result: Result<(), CodegenError>)
        requires
            ast@.well_formed(),
            resolved(ast@, old(self).variables@.dom()),
        ensures
            goes_on_from(final(self).state(), old(self).state()),
            match result {
                Ok(_) => lower_function(ast@, old(self).state()) == Some(final(self).state()),
                Err(_) => lower_function(ast@, old(self).state()) is None,
            },
    {
        let ghost s0 = self.state();
        self.emit(Instruction::CreateFunction { name: "main".to_owned() });
        let ghost s1 = self.state();
        self.emit(Instruction::CreateBlock { name: "entry".to_owned() });
        let ghost s2 = self.state();
        self.emit(Instruction::PositionAtEnd);
        let ghost s3 = self.state();
        let lowered = self.codegen_node(ast);
        let ghost s4 = self.state();
        proof {
            lemma_goes_on(s2, s1, s0);
            lemma_goes_on(s3, s2, s0);
            lemma_goes_on(s4, s3, s0);
        }
        lowered?;
        let zero = self.emit(Instruction::ConstInt { value: 0 });
        let ghost s5 = self.state();
        self.emit(Instruction::Return { value: zero });
        proof {
            lemma_goes_on(s5, s4, s0);
            lemma_goes_on(self.state(), s5, s0);
        }
        Ok(())
    }

    /// Lowers one node and what is below it.
    pub fn codegen_node(&mut self, node: &AstNode) -> (result: Result<(), CodegenError>)
        requires
            node@.well_formed(),
            resolved(node@, old(self).variables@.dom()),
        ensures
            goes_on_from(final(self).state(), old(self).state()),
            match result {
                Ok(_) => lower_node(node@, old(self).state()) == Some(final(self).state())
                    && final(self).variables@.dom() == declared_after(
                    node@,
                    old(self).variables@.dom(),
                ),
                Err(_) => lower_node(node@, old(self).state()) is None,
            },
        decreases node,
    {
        proof {
            lemma_view_children(node);
            assert(self.state().code =~= self.state().code.subrange(
                0,
                self.state().code.len() as int,
            ));
        }
        match node.kind {
            AstNodeKind::Program | AstNodeKind::Block => {
                let ghost items = node@.children;
                let ghost start = self.state();
                let ghost names = self.variables@.dom();
                proof {
                    assert(items.subrange(0, items.len() as int) =~= items);
                }
                let mut i: usize = 0;
                while i < node.children.len()
                    invariant
                        i <= node.children.len(),
                        node.kind == AstNodeKind::Program || node.kind == AstNodeKind::Block,
                        start == old(self).state(),
                        goes_on_from(self.state(), start),
                        names == old(self).variables@.dom(),
                        items == node@.children,
                        items == crate::ast::node_views(node.children@),
                        forall|j: int| 0 <= j < items.len() ==> (#[trigger] items[j]).well_formed(),
                        resolved_items(
                            items.subrange(i as int, items.len() as int),
                            self.variables@.dom(),
                        ),
                        lower_items(items, start) == lower_items(
                            items.subrange(i as int, items.len() as int),
                            self.state(),
                        ),
                        crate::analyzer::declared_after_items(items, names)
                            == crate::analyzer::declared_after_items(
                            items.subrange(i as int, items.len() as int),
                            self.variables@.dom(),
                        ),
                    decreases node.children.len() - i,
                {
                    proof {
                        let rest = items.subrange(i as int, items.len() as int);
                        assert(rest[0] == items[i as int]);
                        assert(rest.subrange(1, rest.len() as int) =~= items.subrange(
                            i + 1,
                            items.len() as int,
                        ));
                    }
                    let ghost earlier = self.state();
                    let lowered = self.codegen_node(&node.children[i]);
                    proof {
                        lemma_goes_on(self.state(), earlier, start);
                    }
                    lowered?;
                    i += 1;
                }
                Ok(())
            },
            AstNodeKind::VarDecl => {
                let name = identifier_text(&node.token);
                let ty = node.inferred_type.unwrap();
                let slot = self.emit(Instruction::Allocate { name: name.clone(), ty });
                self.variables.insert(name, slot);
                proof {
                    assert(self.variables@.dom() =~= old(self).variables@.dom().insert(
                        name_of(node@.token),
                    ));
                }
                if node.children.len() > 0 {
                    let ghost allocated = self.state();
                    let made = self.codegen_expr(&node.children[0]);
                    let ghost stored = self.state();
                    proof {
                        lemma_goes_on(stored, allocated, old(self).state());
                    }
                    let value = made?;
                    self.emit(Instruction::Store { slot, value });
                    proof {
                        lemma_goes_on(self.state(), stored, old(self).state());
                    }
                }
                Ok(())
            },
            AstNodeKind::AssignStmt => {
                let name = identifier_text(&node.token);
                let slot: usize = *self.variables.get(name.as_str()).unwrap();
                let value = self.codegen_expr(&node.children[0])?;
                let ghost made = self.state();
                self.emit(Instruction::Store { slot, value });
                proof {
                    lemma_goes_on(self.state(), made, old(self).state());
                }
                Ok(())
            },
            AstNodeKind::LogStmt => {
                let mut bytes = match &node.token.kind {
                    TokenKind::String(text) => slice_to_vec(text.as_str().as_bytes()),
                    _ => {
                        return Err(CodegenError::BackendFailure);
                    },
                };
                bytes.push(10);
                bytes.push(0);
                proof {
                    let text = node@.token.kind->String_0;
                    assert(bytes@ =~= data_bytes(text, seq![10u8]));
                }
                let data = self.emit(Instruction::GlobalData { bytes });
                let ghost made = self.state();
                self.emit(Instruction::Call { function: self.printf, argument: data });
                proof {
                    lemma_goes_on(self.state(), made, old(self).state());
                }
                Ok(())
            },
            _ => Ok(()),
        }
    }

    /// Issues the instruction that makes the value of an expression, and tells
    /// its place.
    pub fn codegen_expr(&mut self, node: &AstNode) -> (result: Result<usize, CodegenError>)
        requires
            expression_resolved(node@, old(self).variables@.dom()),
        ensures
            final(self).variables == old(self).variables,
            goes_on_from(final(self).state(), old(self).state()),
            match result {
                Ok(value) => lower_expression(node@, old(self).state()) == Some(
                    final(self).state(),
                ) && value == final(self).state().last(),
                Err(_) => lower_expression(node@, old(self).state()) is None,
            },
    {
        proof {
            lemma_view_children(node);
            assert(self.state().code =~= self.state().code.subrange(
                0,
                self.state().code.len() as int,
            ));
        }
        match &node.token.kind {
            TokenKind::Number(text) => match number_value(text.as_str()) {
                Some(value) => Ok(self.emit(Instruction::ConstInt { value })),
                None => Err(CodegenError::BackendFailure),
            },
            TokenKind::String(text) => {
                let mut bytes = slice_to_vec(text.as_str().as_bytes());
                bytes.push(0);
                proof {
                    assert(bytes@ =~= data_bytes(text@, Seq::empty()));
                }
                Ok(self.emit(Instruction::GlobalData { bytes }))
            },
            TokenKind::Identifier(name) => {
                let slot: usize = *self.variables.get(name.as_str()).unwrap();
                Ok(self.emit(Instruction::Load { slot }))
            },
            _ => Err(CodegenError::BackendFailure),
        }
    }
}

/// Lowers a tree that passed analysis to the instructions of the program.
///
/// It fails exactly where a number literal that is to be lowered has no value:
/// where it is no decimal integer below 2^64.
pub fn generate(ast: &AstNode) -> (result: Result<Vec<Instruction>, CodegenError>)
    requires
        ast@.well_formed(),
        resolved(ast@, Set::empty()),
    ensures
        result is Ok <==> literals_fit(ast@),
        match result {
            Ok(code) => lower_program(ast@) == Some(instruction_views(code@)),
            Err(_) => lower_program(ast@) is None,
        },
{
    proof {
        lemma_generation_needs_literals(ast@);
    }
    let mut driver = CodeGen::new();
    assert(driver.variables@.dom() =~= Set::empty());
    match driver.codegen(ast) {
        Ok(_) => Ok(driver.instructions),
        Err(e) => Err(e),
    }
}

} // verus!
