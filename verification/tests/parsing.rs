use hackerscript::ast::{AstNode, AstNodeKind, MemoryMode, Type};
use hackerscript::lexer::tokenize;
use hackerscript::parser::{parse, ParseError, Parser};
use hackerscript::token::{Token, TokenKind};

fn tree(source: &str) -> AstNode {
    parse(tokenize(source).unwrap()).unwrap().0
}

fn fault(source: &str) -> ParseError {
    parse(tokenize(source).unwrap()).unwrap_err()
}

fn count(node: &AstNode) -> usize {
    1 + node.children.iter().map(count).sum::<usize>()
}

fn count_kind(node: &AstNode, kind: AstNodeKind) -> usize {
    (if node.kind == kind { 1 } else { 0 }) + node.children.iter().map(|c| count_kind(c, kind)).sum::<usize>()
}

#[test]
fn an_empty_program_is_a_root_without_children() {
    assert_eq!(
        parse(tokenize("").unwrap()),
        Ok((
            AstNode {
                kind: AstNodeKind::Program,
                children: vec![],
                token: Token { kind: TokenKind::Invalid, line: 0, column: 0 },
                inferred_type: None,
            },
            MemoryMode::Manual,
        ))
    );
}

#[test]
fn import_takes_one_token() {
    let ast = tree("import import");
    assert_eq!(ast.children.len(), 2);
    assert_eq!(ast.children[0].kind, AstNodeKind::Import);
    assert_eq!(ast.children[0].token, Token { kind: TokenKind::Import, line: 1, column: 7 });
    assert_eq!(ast.children[1].token, Token { kind: TokenKind::Import, line: 1, column: 14 });
}

#[test]
fn a_class_holds_one_block_and_stands_on_its_name() {
    let ast = tree("class Box [ int n = 1; ]");
    assert_eq!(ast.children.len(), 1);
    let class = &ast.children[0];
    assert_eq!(class.kind, AstNodeKind::ClassDef);
    assert_eq!(class.token, Token { kind: TokenKind::Identifier("Box".to_string()), line: 1, column: 10 });
    assert_eq!(class.inferred_type, None);
    assert_eq!(class.children.len(), 1);
    let block = &class.children[0];
    assert_eq!(block.kind, AstNodeKind::Block);
    assert_eq!(block.token, Token { kind: TokenKind::OpenBracket, line: 1, column: 12 });
    assert_eq!(block.children.len(), 1);
    assert_eq!(block.children[0].kind, AstNodeKind::VarDecl);
}

#[test]
fn functions_nest() {
    let ast = tree("func outer [ func inner [ log \"x\" ] log \"y\"; ]");
    let outer = &ast.children[0];
    assert_eq!(outer.kind, AstNodeKind::FuncDef);
    let body = &outer.children[0];
    assert_eq!(body.children.len(), 2);
    assert_eq!(body.children[0].kind, AstNodeKind::FuncDef);
    assert_eq!(body.children[0].children[0].children[0].kind, AstNodeKind::LogStmt);
    assert_eq!(body.children[1].kind, AstNodeKind::LogStmt);
}

#[test]
fn log_takes_a_semicolon_if_one_follows() {
    let with = tree("log \"a\"; log \"b\";");
    let without = tree("log \"a\" log \"b\"");
    assert_eq!(with.children.len(), 2);
    assert_eq!(without.children.len(), 2);
    assert_eq!(with.children[0].token.kind, TokenKind::String("a".to_string()));
    assert_eq!(without.children[1].token.kind, TokenKind::String("b".to_string()));
    assert_eq!(fault("log \"a\";;"), ParseError::UnexpectedToken { line: 1, column: 10 });
}

#[test]
fn a_declaration_carries_its_declared_type() {
    let ast = tree("string s = \"v\"; int n = m;");
    let first = &ast.children[0];
    assert_eq!(first.kind, AstNodeKind::VarDecl);
    assert_eq!(first.inferred_type, Some(Type::StringT));
    assert_eq!(first.token.kind, TokenKind::Identifier("s".to_string()));
    assert_eq!(first.children[0].kind, AstNodeKind::Expr);
    assert_eq!(first.children[0].inferred_type, Some(Type::StringT));
    let second = &ast.children[1];
    assert_eq!(second.inferred_type, Some(Type::Int32));
    assert_eq!(second.children[0].token.kind, TokenKind::Identifier("m".to_string()));
    assert_eq!(second.children[0].inferred_type, None);
}

#[test]
fn an_assignment_is_untyped_until_analysis() {
    let ast = tree("x = 1.5;");
    let assign = &ast.children[0];
    assert_eq!(assign.kind, AstNodeKind::AssignStmt);
    assert_eq!(assign.inferred_type, None);
    assert_eq!(assign.token, Token { kind: TokenKind::Identifier("x".to_string()), line: 1, column: 2 });
    assert_eq!(assign.children[0].token.kind, TokenKind::Number("1.5".to_string()));
    assert_eq!(assign.children[0].inferred_type, Some(Type::Int32));
}

#[test]
fn the_last_directive_selects_the_mode() {
    let mode = |source: &str| parse(tokenize(source).unwrap()).unwrap().1;
    assert_eq!(mode("log \"a\""), MemoryMode::Manual);
    assert_eq!(mode("--- auto ---"), MemoryMode::Auto);
    assert_eq!(mode("--- manual ---"), MemoryMode::Manual);
    assert_eq!(mode("--- auto --- log \"a\" --- manual ---"), MemoryMode::Manual);
    assert_eq!(mode("--- manual --- log \"a\" --- auto --- import"), MemoryMode::Auto);
    assert_eq!(tree("--- auto --- log \"a\" --- manual ---").children.len(), 1);
}

#[test]
fn a_directive_inside_a_block_is_unexpected() {
    assert_eq!(fault("func f [ --- auto --- ]"), ParseError::UnexpectedToken { line: 1, column: 22 });
}

#[test]
fn what_begins_no_statement_is_unexpected() {
    assert_eq!(fault(";"), ParseError::UnexpectedToken { line: 1, column: 2 });
    assert_eq!(fault("log \"a\" ]"), ParseError::UnexpectedToken { line: 1, column: 10 });
    assert_eq!(fault("5 = x;"), ParseError::UnexpectedToken { line: 1, column: 2 });
    assert_eq!(fault(": x"), ParseError::UnexpectedToken { line: 1, column: 2 });
}

#[test]
fn a_statement_that_goes_on_wrongly_is_unexpected_at_that_token() {
    assert_eq!(fault("class [ ]"), ParseError::UnexpectedToken { line: 1, column: 8 });
    assert_eq!(fault("func f log"), ParseError::UnexpectedToken { line: 1, column: 11 });
    assert_eq!(fault("log x"), ParseError::UnexpectedToken { line: 1, column: 6 });
    assert_eq!(fault("int 5 = 5;"), ParseError::UnexpectedToken { line: 1, column: 6 });
    assert_eq!(fault("int x 5;"), ParseError::UnexpectedToken { line: 1, column: 8 });
    assert_eq!(fault("int x = 5"), ParseError::UnexpectedToken { line: 1, column: 10 });
    assert_eq!(fault("x : 5;"), ParseError::UnexpectedToken { line: 1, column: 4 });
    assert_eq!(fault("x = 5 y"), ParseError::UnexpectedToken { line: 1, column: 8 });
    assert_eq!(fault("class"), ParseError::UnexpectedToken { line: 1, column: 6 });
}

#[test]
fn what_is_no_expression_is_reported_as_such() {
    assert_eq!(fault("x = ;"), ParseError::UnexpectedInExpression { line: 1, column: 6 });
    assert_eq!(fault("int x = int;"), ParseError::UnexpectedInExpression { line: 1, column: 12 });
    assert_eq!(fault("x ="), ParseError::UnexpectedInExpression { line: 1, column: 4 });
}

#[test]
fn the_end_inside_a_block_is_an_unclosed_block() {
    assert_eq!(fault("class C ["), ParseError::UnclosedBlock { line: 1, column: 10 });
    assert_eq!(fault("func f [ func g [ ] "), ParseError::UnclosedBlock { line: 1, column: 21 });
    assert_eq!(fault("func f [\n int x = 1;\n"), ParseError::UnclosedBlock { line: 3, column: 1 });
}

#[test]
fn the_tree_has_a_node_for_the_root_each_statement_block_and_expression() {
    let source = "import int a = 1; func f [ log \"x\"; b = a; class C [ ] ] log \"y\"";
    let ast = tree(source);
    let statements = 7;
    let blocks = 2;
    let expressions = 2;
    assert_eq!(count(&ast), 1 + statements + blocks + expressions);
    assert_eq!(count_kind(&ast, AstNodeKind::Block), blocks);
    assert_eq!(count_kind(&ast, AstNodeKind::Expr), expressions);
    assert_eq!(count_kind(&ast, AstNodeKind::Program), 1);
    let tokens = tokenize(source).unwrap();
    let marks = tokens
        .iter()
        .filter(|t| {
            matches!(
                t.kind,
                TokenKind::Import | TokenKind::Class | TokenKind::Func | TokenKind::Log | TokenKind::Assign
            )
        })
        .count();
    let opens = tokens.iter().filter(|t| t.kind == TokenKind::OpenBracket).count();
    let assigns = tokens.iter().filter(|t| t.kind == TokenKind::Assign).count();
    assert_eq!((marks, opens, assigns), (statements, blocks, expressions));
}

#[test]
fn parsing_stops_at_the_first_eof() {
    let mut tokens = tokenize("log \"a\"").unwrap();
    tokens.extend(tokenize("log \"b\"").unwrap());
    assert_eq!(parse(tokens).unwrap().0.children.len(), 1);
}

#[test]
fn the_parser_reads_token_by_token() {
    let mut parser = Parser::new(tokenize("x = 1; [ ]").unwrap());
    assert_eq!(parser.token_idx, 0);
    assert_eq!(parser.memory_mode, MemoryMode::Manual);
    assert_eq!(parser.peek_token().kind, TokenKind::Identifier("x".to_string()));
    assert_eq!(parser.next_token().kind, TokenKind::Identifier("x".to_string()));
    assert_eq!(parser.next_token().kind, TokenKind::Assign);
    let value = parser.parse_expression().unwrap();
    assert_eq!(value.kind, AstNodeKind::Expr);
    assert_eq!(value.token.kind, TokenKind::Number("1".to_string()));
    assert_eq!(parser.next_token().kind, TokenKind::Semicolon);
    assert_eq!(parser.next_token().kind, TokenKind::OpenBracket);
    let block = parser.parse_block().unwrap();
    assert_eq!(block.kind, AstNodeKind::Block);
    assert_eq!(block.token, Token { kind: TokenKind::OpenBracket, line: 1, column: 9 });
    assert!(block.children.is_empty());
    assert_eq!(parser.peek_token().kind, TokenKind::Eof);
    assert_eq!(parser.token_idx, 6);
}

#[test]
fn parse_program_goes_on_from_the_cursor() {
    let mut parser = Parser::new(tokenize("] ] log \"a\" --- auto ---").unwrap());
    parser.next_token();
    parser.next_token();
    let program = parser.parse_program().unwrap();
    assert_eq!(program.kind, AstNodeKind::Program);
    assert_eq!(program.children.len(), 1);
    assert_eq!(parser.memory_mode, MemoryMode::Auto);
    let mut parser = Parser::new(tokenize("log \"a\" x = y;").unwrap());
    assert_eq!(parser.parse_statement().unwrap().kind, AstNodeKind::LogStmt);
    assert_eq!(parser.parse_statement().unwrap().kind, AstNodeKind::AssignStmt);
}

fn bare(kind: TokenKind) -> Token {
    Token { kind, line: 0, column: 0 }
}

fn write_back(node: &AstNode, out: &mut Vec<Token>) {
    match node.kind {
        AstNodeKind::Program => node.children.iter().for_each(|c| write_back(c, out)),
        AstNodeKind::Block => {
            out.push(node.token.clone());
            node.children.iter().for_each(|c| write_back(c, out));
            out.push(bare(TokenKind::CloseBracket));
        }
        AstNodeKind::Import | AstNodeKind::Expr => out.push(node.token.clone()),
        AstNodeKind::ClassDef | AstNodeKind::FuncDef => {
            out.push(bare(if node.kind == AstNodeKind::ClassDef { TokenKind::Class } else { TokenKind::Func }));
            out.push(node.token.clone());
            node.children.iter().for_each(|c| write_back(c, out));
        }
        AstNodeKind::LogStmt => {
            out.push(bare(TokenKind::Log));
            out.push(node.token.clone());
        }
        AstNodeKind::VarDecl | AstNodeKind::AssignStmt => {
            if node.kind == AstNodeKind::VarDecl {
                out.push(bare(if node.inferred_type == Some(Type::Int32) {
                    TokenKind::IntType
                } else {
                    TokenKind::StringType
                }));
            }
            out.push(node.token.clone());
            out.push(bare(TokenKind::Assign));
            out.push(node.children[0].token.clone());
            out.push(bare(TokenKind::Semicolon));
        }
    }
}

fn written(ast: &AstNode, mode: MemoryMode) -> Vec<Token> {
    let mut out = Vec::new();
    if mode == MemoryMode::Auto {
        out.push(bare(TokenKind::AutoModeDirective));
    }
    write_back(ast, &mut out);
    out.push(bare(TokenKind::Eof));
    out
}

#[test]
fn a_tree_written_back_as_tokens_parses_to_itself() {
    let sources = [
        "",
        "log \"a\";",
        "log \"a\" log \"b\"; import",
        "--- auto ---\nint a = 1; string b = \"x\"; a = b; b = 2.5;",
        "--- auto --- --- manual --- class C [ func f [ log \"x\"; int y = z; ] import ] x = \"s\";",
        "func f [ ] func g [ func h [ ] ]",
    ];
    for source in sources {
        let (ast, mode) = parse(tokenize(source).unwrap()).unwrap();
        let again = parse(written(&ast, mode));
        assert_eq!(again, Ok((ast.clone(), mode)));
        let (ast2, mode2) = again.unwrap();
        assert_eq!(parse(written(&ast2, mode2)), Ok((ast, mode)));
    }
}

#[test]
fn a_failed_parse_stops_after_the_token_that_does_not_fit() {
    let stop = |source: &str| {
        let mut parser = Parser::new(tokenize(source).unwrap());
        assert!(parser.parse_program().is_err());
        (parser.token_idx, parser.memory_mode)
    };
    assert_eq!(stop(";"), (1, MemoryMode::Manual));
    assert_eq!(stop("log \"a\" int x 5;"), (5, MemoryMode::Manual));
    assert_eq!(stop("--- auto --- x = ;"), (4, MemoryMode::Auto));
    assert_eq!(stop("--- auto --- --- manual --- x = 1 2"), (6, MemoryMode::Manual));
    assert_eq!(stop("class C [ log 5 ]"), (5, MemoryMode::Manual));
    assert_eq!(stop("func f [ import"), (4, MemoryMode::Manual));
    assert_eq!(stop("func f [ func g [ x = 1;"), (10, MemoryMode::Manual));
    assert_eq!(stop("class 5"), (2, MemoryMode::Manual));
    assert_eq!(stop("func f ]"), (3, MemoryMode::Manual));
}

#[test]
fn a_parse_that_passed_stands_on_eof() {
    let mut parser = Parser::new(tokenize("log \"a\"; --- auto --- x = 1;").unwrap());
    assert!(parser.parse_program().is_ok());
    assert_eq!((parser.token_idx, parser.memory_mode), (8, MemoryMode::Auto));
    assert_eq!(parser.peek_token().kind, TokenKind::Eof);
}

#[test]
fn a_block_is_read_from_after_its_bracket() {
    let mut parser = Parser::new(tokenize("log \"a\"").unwrap());
    assert_eq!(parser.parse_block(), Err(ParseError::UnclosedBlock { line: 1, column: 8 }));
    assert_eq!(parser.token_idx, 2);
    let mut parser = Parser::new(tokenize("log \"a\"; x = 1; ] y").unwrap());
    let block = parser.parse_block().unwrap();
    assert_eq!(block.kind, AstNodeKind::Block);
    assert_eq!(block.token, Token { kind: TokenKind::Invalid, line: 0, column: 0 });
    assert_eq!(block.inferred_type, None);
    assert_eq!(block.children.len(), 2);
    assert_eq!(parser.token_idx, 8);
    let mut parser = Parser::new(tokenize("[ ]").unwrap());
    assert_eq!(parser.parse_block(), Err(ParseError::UnexpectedToken { line: 1, column: 2 }));
    assert_eq!(parser.token_idx, 1);
    let mut parser = Parser::new(tokenize("").unwrap());
    assert_eq!(parser.parse_block(), Err(ParseError::UnclosedBlock { line: 1, column: 1 }));
    assert_eq!(parser.token_idx, 0);
}

fn without_places(node: &AstNode) -> AstNode {
    AstNode {
        kind: node.kind,
        children: node.children.iter().map(without_places).collect(),
        token: Token { kind: node.token.kind.clone(), line: 0, column: 0 },
        inferred_type: node.inferred_type,
    }
}

#[test]
fn tokens_of_the_same_kinds_parse_to_the_same_tree() {
    let one = "--- auto --- class C [ int a = 1; func f [ log \"x\"; b = a; ] ] import";
    let other = "--- auto ---\nclass C\n[\n  int a = 1;\n  func f [\n    log \"x\";\n\n b=a; ]\n]\n\n   import";
    let first = tokenize(one).unwrap();
    let second = tokenize(other).unwrap();
    assert_ne!(first, second);
    let kinds = |tokens: &Vec<Token>| tokens.iter().map(|t| t.kind.clone()).collect::<Vec<_>>();
    assert_eq!(kinds(&first), kinds(&second));
    let (tree, mode) = parse(first).unwrap();
    let (again, same) = parse(second).unwrap();
    assert_ne!(tree, again);
    assert_eq!(without_places(&tree), without_places(&again));
    assert_eq!(mode, same);
    let broken = tokenize("class C [ int a 1; ]").unwrap();
    let also = tokenize("class C [\nint a\n1; ]").unwrap();
    assert!(parse(broken).is_err() && parse(also).is_err());
}
