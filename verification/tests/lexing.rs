use hackerscript::lexer::{classify, continues_run, tokenize, CharClass, LexError, Lexer, Run};
use hackerscript::token::{Token, TokenKind};

fn kinds(source: &str) -> Vec<TokenKind> {
    tokenize(source).unwrap().into_iter().map(|t| t.kind).collect()
}

fn ident(name: &str) -> TokenKind {
    TokenKind::Identifier(name.to_string())
}

#[test]
fn empty_source_is_one_eof_at_the_start() {
    assert_eq!(tokenize("").unwrap(), vec![Token { kind: TokenKind::Eof, line: 1, column: 1 }]);
}

#[test]
fn every_keyword_is_recognized() {
    assert_eq!(
        kinds("import class func log int string"),
        vec![
            TokenKind::Import,
            TokenKind::Class,
            TokenKind::Func,
            TokenKind::Log,
            TokenKind::IntType,
            TokenKind::StringType,
            TokenKind::Eof,
        ]
    );
}

#[test]
fn words_that_only_begin_like_keywords_are_identifiers() {
    assert_eq!(
        kinds("imports _log int32 strings Class"),
        vec![ident("imports"), ident("_log"), ident("int32"), ident("strings"), ident("Class"), TokenKind::Eof]
    );
}

#[test]
fn punctuation_gives_one_token_each() {
    assert_eq!(
        kinds("[]:;="),
        vec![
            TokenKind::OpenBracket,
            TokenKind::CloseBracket,
            TokenKind::Colon,
            TokenKind::Semicolon,
            TokenKind::Assign,
            TokenKind::Eof,
        ]
    );
}

#[test]
fn tokens_carry_the_cursor_after_them() {
    let tokens = tokenize("int x\n= 5;").unwrap();
    assert_eq!(
        tokens,
        vec![
            Token { kind: TokenKind::IntType, line: 1, column: 4 },
            Token { kind: ident("x"), line: 1, column: 6 },
            Token { kind: TokenKind::Assign, line: 2, column: 2 },
            Token { kind: TokenKind::Number("5".to_string()), line: 2, column: 4 },
            Token { kind: TokenKind::Semicolon, line: 2, column: 5 },
            Token { kind: TokenKind::Eof, line: 2, column: 5 },
        ]
    );
}

#[test]
fn whitespace_of_all_four_kinds_is_skipped() {
    assert_eq!(kinds(" \t\r\n x \t\r\n"), vec![ident("x"), TokenKind::Eof]);
}

#[test]
fn a_comment_runs_to_the_end_of_its_line() {
    let tokens = tokenize("x @ not = a [ token\ny @ last").unwrap();
    assert_eq!(
        tokens,
        vec![
            Token { kind: ident("x"), line: 1, column: 2 },
            Token { kind: ident("y"), line: 2, column: 2 },
            Token { kind: TokenKind::Eof, line: 2, column: 9 },
        ]
    );
}

#[test]
fn a_string_is_taken_raw_up_to_the_next_quote() {
    assert_eq!(
        kinds("\"a\\\" b\""),
        vec![TokenKind::String("a\\".to_string()), ident("b"), TokenKind::String("".to_string()), TokenKind::Eof]
    );
}

#[test]
fn a_string_may_hold_line_feeds_and_markers() {
    let tokens = tokenize("\"a\n@[b\" x").unwrap();
    assert_eq!(
        tokens,
        vec![
            Token { kind: TokenKind::String("a\n@[b".to_string()), line: 2, column: 5 },
            Token { kind: ident("x"), line: 2, column: 7 },
            Token { kind: TokenKind::Eof, line: 2, column: 7 },
        ]
    );
}

#[test]
fn a_string_left_open_extends_to_the_end() {
    assert_eq!(
        tokenize("log \"abc").unwrap(),
        vec![
            Token { kind: TokenKind::Log, line: 1, column: 4 },
            Token { kind: TokenKind::String("abc".to_string()), line: 1, column: 9 },
            Token { kind: TokenKind::Eof, line: 1, column: 9 },
        ]
    );
}

#[test]
fn a_number_takes_digits_and_dots_greedily() {
    assert_eq!(
        kinds("12 3.14 1..2. 7x"),
        vec![
            TokenKind::Number("12".to_string()),
            TokenKind::Number("3.14".to_string()),
            TokenKind::Number("1..2.".to_string()),
            TokenKind::Number("7".to_string()),
            ident("x"),
            TokenKind::Eof,
        ]
    );
}

#[test]
fn identifiers_may_hold_letters_of_any_script() {
    assert_eq!(kinds("zmienna_é1 京"), vec![ident("zmienna_é1"), ident("京"), TokenKind::Eof]);
}

#[test]
fn both_memory_mode_phrases_are_tokens() {
    let tokens = tokenize("--- manual ---\n--- auto ---").unwrap();
    assert_eq!(
        tokens,
        vec![
            Token { kind: TokenKind::ManualModeDirective, line: 1, column: 15 },
            Token { kind: TokenKind::AutoModeDirective, line: 2, column: 13 },
            Token { kind: TokenKind::Eof, line: 2, column: 13 },
        ]
    );
}

#[test]
fn a_phrase_goes_on_with_what_follows_it() {
    assert_eq!(kinds("--- auto ---x"), vec![TokenKind::AutoModeDirective, ident("x"), TokenKind::Eof]);
}

#[test]
fn a_dash_that_begins_no_phrase_is_unexpected() {
    assert_eq!(
        tokenize("x\n --- automatic ---"),
        Err(LexError::UnexpectedCharacter { character: '-', line: 2, column: 3 })
    );
    assert_eq!(tokenize("--- manual --"), Err(LexError::UnexpectedCharacter { character: '-', line: 1, column: 2 }));
    assert_eq!(tokenize("-"), Err(LexError::UnexpectedCharacter { character: '-', line: 1, column: 2 }));
}

#[test]
fn the_first_character_that_begins_no_token_is_reported() {
    assert_eq!(
        tokenize("int x = 5 + 2 ? 1"),
        Err(LexError::UnexpectedCharacter { character: '+', line: 1, column: 12 })
    );
    assert_eq!(tokenize("a\n\n  #"), Err(LexError::UnexpectedCharacter { character: '#', line: 3, column: 4 }));
    assert_eq!(tokenize(".5"), Err(LexError::UnexpectedCharacter { character: '.', line: 1, column: 2 }));
}

#[test]
fn an_emoji_is_no_letter() {
    assert_eq!(tokenize("💝"), Err(LexError::UnexpectedCharacter { character: '💝', line: 1, column: 2 }));
}

#[test]
fn the_cursor_reads_and_peeks_character_by_character() {
    let mut lexer = Lexer::new("a\nb");
    assert_eq!((lexer.pos, lexer.line, lexer.column), (0, 1, 1));
    assert_eq!(lexer.peek_char(), Some('a'));
    assert_eq!(lexer.next_char(), Some('a'));
    assert_eq!((lexer.pos, lexer.line, lexer.column), (1, 1, 2));
    assert_eq!(lexer.next_char(), Some('\n'));
    assert_eq!((lexer.pos, lexer.line, lexer.column), (2, 2, 1));
    assert_eq!(lexer.peek_char(), Some('b'));
    assert_eq!(lexer.next_char(), Some('b'));
    assert_eq!(lexer.peek_char(), None);
    assert_eq!(lexer.next_char(), None);
    assert_eq!((lexer.pos, lexer.line, lexer.column), (3, 2, 2));
}

#[test]
fn lexing_goes_on_from_the_cursor_and_keeps_earlier_tokens() {
    let mut lexer = Lexer::new("skipped x;");
    for _ in 0..7 {
        lexer.next_char();
    }
    lexer.tokens.push(Token { kind: TokenKind::Colon, line: 9, column: 9 });
    assert_eq!(lexer.lex(), Ok(()));
    assert_eq!(
        lexer.tokens,
        vec![
            Token { kind: TokenKind::Colon, line: 9, column: 9 },
            Token { kind: ident("x"), line: 1, column: 10 },
            Token { kind: TokenKind::Semicolon, line: 1, column: 11 },
            Token { kind: TokenKind::Eof, line: 1, column: 11 },
        ]
    );
}

#[test]
fn punctuation_is_classified_before_letters() {
    assert_eq!(classify('[', true), CharClass::OpenBracket);
    assert_eq!(classify(' ', true), CharClass::Whitespace);
    assert_eq!(classify('@', false), CharClass::CommentMarker);
    assert_eq!(classify('-', false), CharClass::Dash);
    assert_eq!(classify('"', false), CharClass::Quote);
    assert_eq!(classify('x', true), CharClass::IdentifierStart);
    assert_eq!(classify('_', false), CharClass::IdentifierStart);
    assert_eq!(classify('7', false), CharClass::Digit);
    assert_eq!(classify('7', true), CharClass::IdentifierStart);
    assert_eq!(classify('x', false), CharClass::Unexpected);
    assert_eq!(classify('.', false), CharClass::Unexpected);
}

#[test]
fn runs_go_on_with_their_own_characters() {
    assert!(continues_run(Run::Identifier, 'a', true));
    assert!(continues_run(Run::Identifier, '_', false));
    assert!(!continues_run(Run::Identifier, '.', false));
    assert!(continues_run(Run::Number, '.', false));
    assert!(continues_run(Run::Number, '0', true));
    assert!(!continues_run(Run::Number, 'a', true));
    assert!(continues_run(Run::Comment, '"', false));
    assert!(!continues_run(Run::Comment, '\n', false));
    assert!(continues_run(Run::Text, '\n', false));
    assert!(!continues_run(Run::Text, '"', false));
}

#[test]
fn a_failed_lexing_keeps_what_it_read() {
    let mut lexer = Lexer::new("int x\n? y");
    assert_eq!(lexer.lex(), Err(LexError::UnexpectedCharacter { character: '?', line: 2, column: 2 }));
    assert_eq!(
        lexer.tokens,
        vec![
            Token { kind: TokenKind::IntType, line: 1, column: 4 },
            Token { kind: ident("x"), line: 1, column: 6 },
        ]
    );
    assert_eq!((lexer.pos, lexer.line, lexer.column), (7, 2, 2));
    let mut lexer = Lexer::new("a --- b");
    assert_eq!(lexer.lex(), Err(LexError::UnexpectedCharacter { character: '-', line: 1, column: 4 }));
    assert_eq!(lexer.tokens.len(), 1);
    assert_eq!(lexer.pos, 3);
}

#[test]
fn peeking_past_the_end_sees_nothing() {
    let mut lexer = Lexer::new("ab");
    lexer.pos = 7;
    assert_eq!(lexer.peek_char(), None);
    lexer.pos = 1;
    assert_eq!(lexer.peek_char(), Some('b'));
}
