//! The whole front half in one call: source text to the instructions of the program.

use vstd::prelude::*;
use crate::analyzer::{SemanticError, SemanticErrorView, analyze, analyze_spec};
use crate::ast::{AstNode, AstNodeView, MemoryMode};
use crate::codegen::{CodegenError, Instruction, InstructionView, generate, instruction_views, lower_program};
use crate::lexer::{LexError, lex_spec, tokenize};
use crate::parser::{ParseError, parse, parse_spec};

verus! {

/// The fault of the phase that stopped the compilation.
#[derive(Debug, Clone, PartialEq, Eq)]
pub enum CompileError {
    Lex(LexError),
    Parse(ParseError),
    Semantic(SemanticError),
    Codegen(CodegenError),
}

/// The mathematical value of a [`CompileError`].
pub enum CompileErrorView {
    Lex(LexError),
    Parse(ParseError),
    Semantic(SemanticErrorView),
    Codegen(CodegenError),
}

impl View for CompileError {
    type V = CompileErrorView;

    open spec fn view(&self) -> CompileErrorView {
        match *self {
            CompileError::Lex(e) => CompileErrorView::Lex(e),
            CompileError::Parse(e) => CompileErrorView::Parse(e),
            CompileError::Semantic(e) => CompileErrorView::Semantic(e@),
            CompileError::Codegen(e) => CompileErrorView::Codegen(e),
        }
    }
}

/// The tree of a source text and the memory mode that it selects: the tokens
/// of the text, parsed.
pub open spec fn read_spec(source: Seq<char>) -> Result<(AstNodeView, MemoryMode), CompileErrorView> {
    match lex_spec(source) {
        Err(e) => Err(CompileErrorView::Lex(e)),
        Ok(tokens) => match parse_spec(tokens) {
            Err(e) => Err(CompileErrorView::Parse(e)),
            Ok(parsed) => Ok(parsed),
        },
    }
}

/// Reads source text of fewer than `u32::MAX` characters into the tree of the
/// program and the memory mode that it selects, or tells the first fault. The
/// tree is well formed.
pub fn parse_source(source: &str) -> (result: Result<(AstNode, MemoryMode), CompileError>)
    requires
        source@.len() < u32::MAX,
    ensures
        match result {
            Ok((program, mode)) => read_spec(source@) == Ok::<
                (AstNodeView, MemoryMode),
                CompileErrorView,
            >((program@, mode)) && program@.well_formed(),
            Err(e) => read_spec(source@) == Err::<(AstNodeView, MemoryMode), CompileErrorView>(e@),
        },
{
    let tokens = match tokenize(source) {
        Ok(tokens) => tokens,
        Err(e) => {
            return Err(CompileError::Lex(e));
        },
    };
    match parse(tokens) {
        Ok(parsed) => Ok(parsed),
        Err(e) => Err(CompileError::Parse(e)),
    }
}

/// The phases one after the other: each works on what the one before it gave,
/// and the first fault ends the compilation.
pub open spec fn compile_spec(source: Seq<char>) -> Result<Seq<InstructionView>, CompileErrorView> {
    match read_spec(source) {
        Err(e) => Err(e),
        Ok((ast, mode)) => match analyze_spec(ast, mode) {
            Err(e) => Err(CompileErrorView::Semantic(e)),
            Ok((typed, _)) => match lower_program(typed) {
                None => Err(CompileErrorView::Codegen(CodegenError::BackendFailure)),
                Some(code) => Ok(code),
            },
        },
    }
}

/// Compiles source text of fewer than `u32::MAX` characters to the instructions
/// of the program, or tells the first fault.
pub fn compile(source: &str) -> (result: Result<Vec<Instruction>, CompileError>)
    requires
        source@.len() < u32::MAX,
    ensures
        match result {
            Ok(code) => compile_spec(source@) == Ok::<Seq<InstructionView>, CompileErrorView>(
                instruction_views(code@),
            ),
            Err(e) => compile_spec(source@) == Err::<Seq<InstructionView>, CompileErrorView>(e@),
        },
{
    let (mut ast, mode) = parse_source(source)?;
    match analyze(&mut ast, mode) {
        Ok(_) => {},
        Err(e) => {
            return Err(CompileError::Semantic(e));
        },
    }
    match generate(&ast) {
        Ok(code) => Ok(code),
        Err(e) => Err(CompileError::Codegen(e)),
    }
}

} // verus!
