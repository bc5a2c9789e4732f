use hackerscript::analyzer::{analyze, Analyzer, SemanticError};
use hackerscript::ast::{AstNode, AstNodeKind, MemoryMode, Type};
use hackerscript::codegen::{generate, Instruction};
use hackerscript::lexer::tokenize;
use hackerscript::parser::{parse, ParseError};
use hackerscript::token::{Token, TokenKind};

fn parsed(source: &str) -> (AstNode, MemoryMode) {
    parse(tokenize(source).unwrap()).unwrap()
}

#[test]
fn declaration_and_log_lex_to_nine_tokens() {
    let tokens = tokenize("int x = 5; log \"hi\";").unwrap();
    let kinds: Vec<TokenKind> = tokens.iter().map(|t| t.kind.clone()).collect();
    assert_eq!(
        kinds,
        vec![
            TokenKind::IntType,
            TokenKind::Identifier("x".to_string()),
            TokenKind::Assign,
            TokenKind::Number("5".to_string()),
            TokenKind::Semicolon,
            TokenKind::Log,
            TokenKind::String("hi".to_string()),
            TokenKind::Semicolon,
            TokenKind::Eof,
        ]
    );
    assert_eq!(tokens.len(), 9);
}

#[test]
fn declaration_and_log_parse_to_two_statements() {
    let (ast, mode) = parsed("int x = 5; log \"hi\";");
    assert_eq!(mode, MemoryMode::Manual);
    let expected = AstNode {
        kind: AstNodeKind::Program,
        children: vec![
            AstNode {
                kind: AstNodeKind::VarDecl,
                children: vec![AstNode {
                    kind: AstNodeKind::Expr,
                    children: vec![],
                    token: Token { kind: TokenKind::Number("5".to_string()), line: 1, column: 10 },
                    inferred_type: Some(Type::Int32),
                }],
                token: Token { kind: TokenKind::Identifier("x".to_string()), line: 1, column: 6 },
                inferred_type: Some(Type::Int32),
            },
            AstNode {
                kind: AstNodeKind::LogStmt,
                children: vec![],
                token: Token { kind: TokenKind::String("hi".to_string()), line: 1, column: 20 },
                inferred_type: None,
            },
        ],
        token: Token { kind: TokenKind::Invalid, line: 0, column: 0 },
        inferred_type: None,
    };
    assert_eq!(ast, expected);
}

#[test]
fn declaration_and_log_analyze_to_one_symbol() {
    let (mut ast, _) = parsed("int x = 5; log \"hi\";");
    let mut analyzer = Analyzer::new();
    assert_eq!(analyzer.semantic_check(&mut ast), Ok(()));
    assert_eq!(analyzer.lookup("x"), Some(Type::Int32));
    assert_eq!(analyzer.symbols.scopes.len(), 1);
    assert_eq!(analyzer.symbols.scopes[0].len(), 1);
}

#[test]
fn declaration_and_log_generate_code() {
    let (mut ast, mode) = parsed("int x = 5; log \"hi\";");
    assert_eq!(analyze(&mut ast, mode), Ok(()));
    let code = generate(&ast).unwrap();
    assert_eq!(
        code,
        vec![
            Instruction::DeclareExternal { name: "printf".to_string() },
            Instruction::CreateFunction { name: "main".to_string() },
            Instruction::CreateBlock { name: "entry".to_string() },
            Instruction::PositionAtEnd,
            Instruction::Allocate { name: "x".to_string(), ty: Type::Int32 },
            Instruction::ConstInt { value: 5 },
            Instruction::Store { slot: 4, value: 5 },
            Instruction::GlobalData { bytes: vec![b'h', b'i', b'\n', 0] },
            Instruction::Call { function: 0, argument: 7 },
            Instruction::ConstInt { value: 0 },
            Instruction::Return { value: 9 },
        ]
    );
    let allocations = code.iter().filter(|i| matches!(i, Instruction::Allocate { .. })).count();
    let stores = code.iter().filter(|i| matches!(i, Instruction::Store { .. })).count();
    let blobs = code.iter().filter(|i| matches!(i, Instruction::GlobalData { .. })).count();
    let calls = code.iter().filter(|i| matches!(i, Instruction::Call { .. })).count();
    assert_eq!((allocations, stores, blobs, calls), (1, 1, 1, 1));
}

#[test]
fn string_declared_with_number_is_a_type_mismatch() {
    let (mut ast, mode) = parsed("string x = 5;");
    assert_eq!(
        analyze(&mut ast, mode),
        Err(SemanticError::TypeMismatch { expected: Type::StringT, found: Type::Int32 })
    );
}

#[test]
fn assignment_without_declaration_is_undefined() {
    let (mut ast, mode) = parsed("x = 1;");
    assert_eq!(analyze(&mut ast, mode), Err(SemanticError::UndefinedVariable("x".to_string())));
}

#[test]
fn function_without_closing_bracket_is_unclosed() {
    let tokens = tokenize("func f [ log \"a\"; ").unwrap();
    assert_eq!(parse(tokens), Err(ParseError::UnclosedBlock { line: 1, column: 19 }));
}

#[test]
fn automatic_memory_mode_is_unsupported() {
    let (mut ast, mode) = parsed("--- auto ---\nint x = 5; x = \"no\"; y = 1;");
    assert_eq!(mode, MemoryMode::Auto);
    let before = ast.clone();
    assert_eq!(analyze(&mut ast, mode), Err(SemanticError::UnsupportedMemoryMode));
    assert_eq!(ast, before);
}

#[test]
fn second_declaration_is_a_redefinition() {
    let (mut ast, mode) = parsed("int x = 1; int x = 2;");
    assert_eq!(analyze(&mut ast, mode), Err(SemanticError::Redefinition("x".to_string())));
}
