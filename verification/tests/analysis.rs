use hackerscript::analyzer::{analyze, identifier_text, Analyzer, SemanticError};
use hackerscript::ast::{AstNode, AstNodeKind, MemoryMode, Type};
use hackerscript::lexer::tokenize;
use hackerscript::parser::parse;
use hackerscript::symbols::SymbolTable;
use hackerscript::token::{Token, TokenKind};

fn tree(source: &str) -> AstNode {
    parse(tokenize(source).unwrap()).unwrap().0
}

fn checked(source: &str) -> Result<AstNode, SemanticError> {
    let mut ast = tree(source);
    analyze(&mut ast, MemoryMode::Manual).map(|_| ast)
}

#[test]
fn declarations_with_matching_literals_pass() {
    let ast = checked("int a = 1; string b = \"x\"; int c = 2.5;").unwrap();
    assert_eq!(ast, tree("int a = 1; string b = \"x\"; int c = 2.5;"));
}

#[test]
fn a_use_of_a_variable_takes_the_declared_type() {
    let ast = checked("string s = \"x\"; int n = 1; string t = s; n = n; s = t;").unwrap();
    let copy = &ast.children[2];
    assert_eq!(copy.inferred_type, Some(Type::StringT));
    assert_eq!(copy.children[0].inferred_type, Some(Type::StringT));
    let number = &ast.children[3];
    assert_eq!(number.kind, AstNodeKind::AssignStmt);
    assert_eq!(number.inferred_type, Some(Type::Int32));
    assert_eq!(number.children[0].inferred_type, Some(Type::Int32));
    let text = &ast.children[4];
    assert_eq!(text.inferred_type, Some(Type::StringT));
    assert_eq!(text.children[0].inferred_type, Some(Type::StringT));
}

#[test]
fn an_assignment_of_a_literal_takes_the_type_of_its_variable() {
    let ast = checked("int n = 1; n = 2;").unwrap();
    assert_eq!(ast.children[1].inferred_type, Some(Type::Int32));
}

#[test]
fn a_mismatch_names_both_types() {
    assert_eq!(
        checked("int n = \"x\";"),
        Err(SemanticError::TypeMismatch { expected: Type::Int32, found: Type::StringT })
    );
    assert_eq!(
        checked("string s = \"x\"; s = 1;"),
        Err(SemanticError::TypeMismatch { expected: Type::StringT, found: Type::Int32 })
    );
    assert_eq!(
        checked("string s = \"x\"; int n = s;"),
        Err(SemanticError::TypeMismatch { expected: Type::Int32, found: Type::StringT })
    );
    assert_eq!(
        checked("string s = \"x\"; int n = 1; n = s;"),
        Err(SemanticError::TypeMismatch { expected: Type::Int32, found: Type::StringT })
    );
}

#[test]
fn a_name_is_declared_only_after_its_own_value() {
    assert_eq!(checked("int x = x;"), Err(SemanticError::UndefinedVariable("x".to_string())));
}

#[test]
fn a_declaration_that_failed_leaves_its_name_free() {
    let mut ast = tree("int x = \"no\";");
    let mut analyzer = Analyzer::new();
    assert!(analyzer.semantic_check(&mut ast).is_err());
    assert_eq!(analyzer.lookup("x"), None);
}

#[test]
fn a_read_of_an_undeclared_name_is_undefined() {
    assert_eq!(checked("int a = b;"), Err(SemanticError::UndefinedVariable("b".to_string())));
    assert_eq!(checked("int a = 1; a = c;"), Err(SemanticError::UndefinedVariable("c".to_string())));
    assert_eq!(checked("a = 1; int a = 1;"), Err(SemanticError::UndefinedVariable("a".to_string())));
}

#[test]
fn a_redefinition_with_another_type_is_still_a_redefinition() {
    assert_eq!(checked("int x = 1; string x = \"s\";"), Err(SemanticError::Redefinition("x".to_string())));
    assert_eq!(checked("int x = 1; log \"a\" int y = 2; int x = z;"), Err(SemanticError::Redefinition("x".to_string())));
}

#[test]
fn the_first_fault_in_source_order_is_reported() {
    assert_eq!(checked("y = 1; int x = 1; int x = 2;"), Err(SemanticError::UndefinedVariable("y".to_string())));
    assert_eq!(
        checked("int x = \"s\"; int x = 2;"),
        Err(SemanticError::TypeMismatch { expected: Type::Int32, found: Type::StringT })
    );
}

#[test]
fn bodies_of_functions_and_classes_are_passed_over() {
    let source = "func f [ x = 1; int y = \"no\"; int y = 2; ] class C [ z = q; ] import";
    assert_eq!(checked(source), Ok(tree(source)));
    assert_eq!(
        checked("func f [ int x = 1; ] x = 2;"),
        Err(SemanticError::UndefinedVariable("x".to_string()))
    );
}

#[test]
fn automatic_mode_fails_before_anything_is_checked() {
    let mut ast = tree("int x = 1; int x = 2; y = \"s\";");
    let before = tree("int x = 1; int x = 2; y = \"s\";");
    assert_eq!(analyze(&mut ast, MemoryMode::Auto), Err(SemanticError::UnsupportedMemoryMode));
    assert_eq!(ast, before);
    let mut fine = tree("int x = 1; int y = x;");
    let untouched = tree("int x = 1; int y = x;");
    assert_eq!(analyze(&mut fine, MemoryMode::Auto), Err(SemanticError::UnsupportedMemoryMode));
    assert_eq!(fine, untouched);
}

#[test]
fn the_table_holds_each_declared_name_with_its_type() {
    let mut ast = tree("int a = 1; string b = \"x\"; a = 2; func f [ int hidden = 1; ]");
    let mut analyzer = Analyzer::new();
    assert_eq!(analyzer.semantic_check(&mut ast), Ok(()));
    assert_eq!(analyzer.lookup("a"), Some(Type::Int32));
    assert_eq!(analyzer.lookup("b"), Some(Type::StringT));
    assert_eq!(analyzer.lookup("hidden"), None);
    assert_eq!(analyzer.lookup("f"), None);
    assert_eq!(analyzer.symbols.scopes.len(), 1);
    assert_eq!(analyzer.symbols.scopes[0].len(), 2);
}

#[test]
fn the_table_is_kept_from_one_check_to_the_next() {
    let mut analyzer = Analyzer::new();
    let mut first = tree("int a = 1;");
    let mut second = tree("a = 2; int b = a;");
    let mut third = tree("int a = 3;");
    assert_eq!(analyzer.semantic_check(&mut first), Ok(()));
    assert_eq!(analyzer.semantic_check(&mut second), Ok(()));
    assert_eq!(second.children[1].children[0].inferred_type, Some(Type::Int32));
    assert_eq!(analyzer.semantic_check(&mut third), Err(SemanticError::Redefinition("a".to_string())));
}

#[test]
fn a_block_and_an_expression_can_be_checked_on_their_own() {
    let mut analyzer = Analyzer::new();
    let mut ast = tree("func f [ int a = 1; a = b; ]");
    let block = &mut ast.children[0].children[0];
    assert_eq!(analyzer.semantic_check(block), Err(SemanticError::UndefinedVariable("b".to_string())));
    assert_eq!(analyzer.lookup("a"), Some(Type::Int32));
    let mut expr = AstNode {
        kind: AstNodeKind::Expr,
        children: vec![],
        token: Token { kind: TokenKind::Identifier("a".to_string()), line: 1, column: 1 },
        inferred_type: None,
    };
    assert_eq!(analyzer.semantic_check(&mut expr), Ok(()));
    assert_eq!(expr.inferred_type, Some(Type::Int32));
}

#[test]
fn only_an_identifier_has_a_name() {
    let token = |kind: TokenKind| Token { kind, line: 1, column: 1 };
    assert_eq!(identifier_text(&token(TokenKind::Identifier("abc".to_string()))), "abc");
    assert_eq!(identifier_text(&token(TokenKind::String("abc".to_string()))), "");
    assert_eq!(identifier_text(&token(TokenKind::Eof)), "");
}

#[test]
fn a_tree_can_be_copied() {
    let ast = tree("int a = 1; func f [ log \"x\"; ]");
    assert_eq!(ast.clone(), ast);
}

#[test]
fn an_inner_scope_hides_and_gives_back() {
    let mut table = SymbolTable::new();
    assert_eq!(table.scopes.len(), 1);
    assert_eq!(table.lookup("a"), None);
    table.declare("a".to_string(), Type::Int32);
    table.declare("b".to_string(), Type::StringT);
    table.push_scope();
    assert_eq!(table.lookup("a"), Some(Type::Int32));
    assert!(table.contains("b"));
    table.declare("a".to_string(), Type::StringT);
    table.declare("c".to_string(), Type::Int32);
    assert_eq!(table.lookup("a"), Some(Type::StringT));
    assert_eq!(table.lookup("c"), Some(Type::Int32));
    table.push_scope();
    assert_eq!(table.lookup("a"), Some(Type::StringT));
    table.pop_scope();
    table.pop_scope();
    assert_eq!(table.scopes.len(), 1);
    assert_eq!(table.lookup("a"), Some(Type::Int32));
    assert_eq!(table.lookup("b"), Some(Type::StringT));
    assert!(!table.contains("c"));
    table.declare("a".to_string(), Type::StringT);
    assert_eq!(table.lookup("a"), Some(Type::StringT));
}

#[test]
fn a_failed_analysis_leaves_what_follows_the_fault() {
    let mut analyzer = Analyzer::new();
    let mut ast = tree("int a = 1; int b = a; int a = b; c = a;");
    assert_eq!(analyzer.semantic_check(&mut ast), Err(SemanticError::Redefinition("a".to_string())));
    let untouched = tree("int a = 1; int b = a; int a = b; c = a;");
    assert_eq!(ast.children[1].children[0].inferred_type, Some(Type::Int32));
    assert_eq!(ast.children[2], untouched.children[2]);
    assert_eq!(ast.children[2].children[0].inferred_type, None);
    assert_eq!(ast.children[3], untouched.children[3]);
    assert_eq!(analyzer.lookup("a"), Some(Type::Int32));
    assert_eq!(analyzer.symbols.scopes[0].len(), 2);
}

#[test]
fn a_failed_assignment_or_read_changes_nothing() {
    let mut analyzer = Analyzer::new();
    let mut ast = tree("x = 1;");
    assert_eq!(analyzer.semantic_check(&mut ast), Err(SemanticError::UndefinedVariable("x".to_string())));
    assert_eq!(ast, tree("x = 1;"));
    assert_eq!(analyzer.lookup("x"), None);
    assert_eq!(analyzer.symbols.scopes[0].len(), 0);
    let mut ast = tree("int x = x;");
    assert_eq!(analyzer.semantic_check(&mut ast), Err(SemanticError::UndefinedVariable("x".to_string())));
    assert_eq!(ast, tree("int x = x;"));
    assert_eq!(ast.children[0].children[0].inferred_type, None);
    assert_eq!(analyzer.lookup("x"), None);
}

#[test]
fn a_mismatch_leaves_the_value_typed_and_the_name_free() {
    let mut analyzer = Analyzer::new();
    let mut ast = tree("string s = \"x\"; int n = s; n = 1;");
    assert_eq!(
        analyzer.semantic_check(&mut ast),
        Err(SemanticError::TypeMismatch { expected: Type::Int32, found: Type::StringT })
    );
    assert_eq!(ast.children[1].children[0].inferred_type, Some(Type::StringT));
    assert_eq!(ast.children[1].inferred_type, Some(Type::Int32));
    assert_eq!(analyzer.lookup("n"), None);
    assert_eq!(ast.children[2].inferred_type, None);
}

#[test]
fn an_analyzer_in_automatic_mode_looks_at_nothing() {
    let mut analyzer = Analyzer::new();
    assert_eq!(analyzer.memory_mode, MemoryMode::Manual);
    analyzer.memory_mode = MemoryMode::Auto;
    let mut ast = tree("int a = 1; int a = b; c = \"x\";");
    assert_eq!(analyzer.semantic_check(&mut ast), Err(SemanticError::UnsupportedMemoryMode));
    assert_eq!(ast, tree("int a = 1; int a = b; c = \"x\";"));
    assert_eq!(analyzer.lookup("a"), None);
    assert_eq!(analyzer.symbols.scopes[0].len(), 0);
    let mut fine = tree("int a = 1;");
    assert_eq!(analyzer.semantic_check(&mut fine), Err(SemanticError::UnsupportedMemoryMode));
    assert_eq!(fine, tree("int a = 1;"));
}

#[test]
fn a_declaration_without_a_value_declares_its_name() {
    let mut ast = tree("int a = 1; string s = \"x\"; s = s;");
    ast.children[1].children.clear();
    let mut analyzer = Analyzer::new();
    assert_eq!(analyzer.semantic_check(&mut ast), Ok(()));
    assert_eq!(analyzer.lookup("s"), Some(Type::StringT));
    assert!(ast.children[1].children.is_empty());
    assert_eq!(ast.children[2].inferred_type, Some(Type::StringT));
    let mut again = tree("int a = 1; int a = 2;");
    again.children[1].children.clear();
    assert_eq!(analyze(&mut again, MemoryMode::Manual), Err(SemanticError::Redefinition("a".to_string())));
}

#[test]
fn a_log_statement_without_a_string_fails() {
    let mut ast = tree("int a = 1; log \"x\"; int b = c;");
    ast.children[1].token.kind = TokenKind::Number("5".to_string());
    let before = ast.clone();
    let mut analyzer = Analyzer::new();
    assert_eq!(analyzer.semantic_check(&mut ast), Err(SemanticError::LogExpectsString));
    assert_eq!(ast, before);
    assert_eq!(analyzer.lookup("a"), Some(Type::Int32));
    assert_eq!(analyzer.lookup("b"), None);
    let mut log = tree("log \"x\"").children.remove(0);
    log.token.kind = TokenKind::Identifier("x".to_string());
    assert_eq!(analyze(&mut log, MemoryMode::Manual), Err(SemanticError::LogExpectsString));
    assert_eq!(analyze(&mut log, MemoryMode::Auto), Err(SemanticError::UnsupportedMemoryMode));
    log.token.kind = TokenKind::String("".to_string());
    assert_eq!(analyze(&mut log, MemoryMode::Manual), Ok(()));
}
