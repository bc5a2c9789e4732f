use hackerscript::bytecode::{disassemble, serialize, Bytecode, BytecodeEmitter, Listed, ListingLine, Opcode};
use hackerscript::compiler::{is_compilable, trim_matches_quote, Compiler, Pair, Rule};

fn pair(rule: Rule, text: &str, inner: Vec<Pair>) -> Pair {
    Pair { rule, text: text.to_string(), inner }
}

fn log(text: &str) -> Pair {
    pair(Rule::LogStmt, &format!("log {}", text), vec![pair(Rule::Other, text, vec![])])
}

#[test]
fn opcodes_have_their_bytes() {
    let all = [Opcode::Nop, Opcode::PushConst, Opcode::LogString, Opcode::BeginFunc, Opcode::EndFunc, Opcode::Halt];
    let bytes: Vec<u8> = all.iter().map(|op| op.byte()).collect();
    assert_eq!(bytes, vec![0, 1, 3, 10, 11, 255]);
    for op in all {
        assert_eq!(Opcode::from_byte(op.byte()), Some(op));
    }
    assert_eq!(Opcode::from_byte(2), None);
    assert_eq!(Opcode::from_byte(254), None);
}

#[test]
fn a_new_emitter_is_empty() {
    let bytecode = BytecodeEmitter::new().finish();
    assert!(bytecode.code.is_empty());
    assert!(bytecode.constants.is_empty());
}

#[test]
fn the_emitter_appends_in_order() {
    let mut emitter = BytecodeEmitter::new();
    emitter.emit(Opcode::BeginFunc);
    assert_eq!(emitter.add_constant("first".to_string()), 0);
    emitter.emit(Opcode::PushConst);
    emitter.emit_u32(0x0403_0201);
    assert_eq!(emitter.add_constant("second".to_string()), 1);
    emitter.emit_u32(u32::MAX);
    emitter.emit_u32(0);
    emitter.emit_u32(256);
    emitter.emit(Opcode::Halt);
    let bytecode = emitter.finish();
    assert_eq!(bytecode.code, vec![10, 1, 1, 2, 3, 4, 255, 255, 255, 255, 0, 0, 0, 0, 0, 1, 0, 0, 255]);
    assert_eq!(bytecode.constants, vec!["first".to_string(), "second".to_string()]);
}

#[test]
fn the_file_holds_lengths_code_and_constants() {
    let bytecode = Bytecode { code: vec![1, 0, 0, 0, 0, 3], constants: vec!["hé".to_string(), "".to_string()] };
    assert_eq!(
        serialize(&bytecode),
        vec![6, 0, 0, 0, 1, 0, 0, 0, 0, 3, 2, 0, 0, 0, 3, 0, 0, 0, b'h', 0xc3, 0xa9, 0, 0, 0, 0]
    );
    let empty = Bytecode { code: vec![], constants: vec![] };
    assert_eq!(serialize(&empty), vec![0, 0, 0, 0, 0, 0, 0, 0]);
    let long = Bytecode { code: vec![0; 258], constants: vec![] };
    assert_eq!(serialize(&long)[..4], [2, 1, 0, 0]);
}

#[test]
fn the_listing_has_one_line_for_each_operation() {
    let code = vec![0, 1, 0x34, 0x12, 0, 0, 3, 10, 11, 7, 255, 1, 9, 9, 9];
    assert_eq!(
        disassemble(&code),
        vec![
            ListingLine { offset: 0, listed: Listed::Plain(Opcode::Nop) },
            ListingLine { offset: 1, listed: Listed::PushConst(0x1234) },
            ListingLine { offset: 6, listed: Listed::Plain(Opcode::LogString) },
            ListingLine { offset: 7, listed: Listed::Plain(Opcode::BeginFunc) },
            ListingLine { offset: 8, listed: Listed::Plain(Opcode::EndFunc) },
            ListingLine { offset: 9, listed: Listed::Unknown(7) },
            ListingLine { offset: 10, listed: Listed::Plain(Opcode::Halt) },
            ListingLine { offset: 11, listed: Listed::IncompletePushConst },
            ListingLine { offset: 12, listed: Listed::Unknown(9) },
            ListingLine { offset: 13, listed: Listed::Unknown(9) },
            ListingLine { offset: 14, listed: Listed::Unknown(9) },
        ]
    );
    assert_eq!(disassemble(&vec![]), vec![]);
    assert_eq!(
        disassemble(&vec![1, 255, 255, 255, 255]),
        vec![ListingLine { offset: 0, listed: Listed::PushConst(u32::MAX) }]
    );
}

#[test]
fn quotes_are_trimmed_at_both_ends_only() {
    assert_eq!(trim_matches_quote("\"hi\""), "hi");
    assert_eq!(trim_matches_quote("\"\"a\"b\"\"\""), "a\"b");
    assert_eq!(trim_matches_quote("plain"), "plain");
    assert_eq!(trim_matches_quote("\"open"), "open");
    assert_eq!(trim_matches_quote("close\""), "close");
    assert_eq!(trim_matches_quote("\"\"\""), "");
    assert_eq!(trim_matches_quote("\""), "");
    assert_eq!(trim_matches_quote(""), "");
    assert_eq!(trim_matches_quote("\" é \""), " é ");
}

#[test]
fn a_new_compiler_has_compiled_nothing() {
    let bytecode = Compiler::new().finish();
    assert!(bytecode.code.is_empty());
    assert!(bytecode.constants.is_empty());
}

#[test]
fn a_log_statement_pushes_its_constant_and_logs_it() {
    let mut compiler = Compiler::new();
    compiler.compile_pair(&log("\"hello\""));
    compiler.compile_pair(&log("\"again\""));
    let bytecode = compiler.finish();
    assert_eq!(bytecode.code, vec![1, 0, 0, 0, 0, 3, 1, 1, 0, 0, 0, 3]);
    assert_eq!(bytecode.constants, vec!["hello".to_string(), "again".to_string()]);
}

#[test]
fn a_function_brackets_its_body_and_skips_its_head() {
    let function = pair(
        Rule::FuncDef,
        "func f [ log \"a\" ]",
        vec![log("\"skipped\""), pair(Rule::Other, "f", vec![]), log("\"a\""), pair(Rule::Comment, "@", vec![])],
    );
    let program = pair(
        Rule::Program,
        "",
        vec![
            pair(Rule::Ws, " ", vec![]),
            function,
            pair(Rule::Newline, "\n", vec![]),
            pair(Rule::Other, "x", vec![log("\"unseen\"")]),
            log("\"b\""),
            pair(Rule::Eoi, "", vec![]),
        ],
    );
    let mut compiler = Compiler::new();
    compiler.compile_pair(&program);
    let bytecode = compiler.finish();
    assert_eq!(bytecode.code, vec![10, 1, 0, 0, 0, 0, 3, 11, 1, 1, 0, 0, 0, 3]);
    assert_eq!(bytecode.constants, vec!["a".to_string(), "b".to_string()]);
}

#[test]
fn a_function_with_a_short_head_has_an_empty_body() {
    let mut compiler = Compiler::new();
    compiler.compile_pair(&pair(Rule::FuncDef, "func", vec![log("\"a\"")]));
    compiler.compile_pair(&pair(Rule::FuncDef, "func", vec![]));
    assert_eq!(compiler.finish().code, vec![10, 11, 10, 11]);
}

#[test]
fn compiled_code_lists_back() {
    let mut compiler = Compiler::new();
    compiler.compile_pair(&pair(Rule::Program, "", vec![log("\"x\"")]));
    let bytecode = compiler.finish();
    assert_eq!(
        disassemble(&bytecode.code),
        vec![
            ListingLine { offset: 0, listed: Listed::PushConst(0) },
            ListingLine { offset: 5, listed: Listed::Plain(Opcode::LogString) },
        ]
    );
}

#[test]
fn a_log_statement_has_to_hold_its_string() {
    let empty = pair(Rule::LogStmt, "log", vec![]);
    assert!(!is_compilable(&empty));
    assert!(is_compilable(&log("\"a\"")));
    assert!(is_compilable(&pair(Rule::Other, "x", vec![pair(Rule::LogStmt, "log", vec![])])));
    assert!(is_compilable(&pair(Rule::Program, "", vec![])));
    assert!(!is_compilable(&pair(Rule::Program, "", vec![log("\"a\""), pair(Rule::LogStmt, "log", vec![])])));
    let head = |third: Pair| {
        pair(Rule::FuncDef, "", vec![pair(Rule::LogStmt, "log", vec![]), pair(Rule::LogStmt, "log", vec![]), third])
    };
    assert!(is_compilable(&head(log("\"a\""))));
    assert!(!is_compilable(&head(pair(Rule::LogStmt, "log", vec![]))));
    assert!(!is_compilable(&head(pair(Rule::Program, "", vec![pair(Rule::LogStmt, "log", vec![])]))));
    assert!(is_compilable(&pair(Rule::FuncDef, "", vec![pair(Rule::LogStmt, "log", vec![])])));
}
