use hackerscript::diagnose::{diagnose, diagnose_hcs, judge_line, read_line, Diagnostic, Fault, Line, Patterns, Reason, Scan};
use hackerscript::text::{is_stripped, line_number, strip, Strip};

fn faults(code: &str) -> Vec<Diagnostic> {
    match diagnose(code).unwrap() {
        Ok(()) => vec![],
        Err(faults) => faults,
    }
}

fn syntax(reason: Reason, start: usize, len: usize) -> Diagnostic {
    Diagnostic { fault: Fault::InvalidSyntax(reason), start, len }
}

fn fresh() -> Scan {
    Scan {
        indent_level: 0,
        in_sh_block: false,
        in_block_comment: false,
        block_comment_start: None,
        sh_block_start: None,
        last_open_block_pos: None,
    }
}

fn plain(text: &str, start: usize) -> Line {
    Line {
        start,
        raw_len: text.len(),
        opens_comment: false,
        closes_comment: false,
        text: text.to_string(),
        require: false,
        rust: false,
        c: false,
        virus_vira: false,
        core_import: false,
    }
}

#[test]
fn a_source_of_known_lines_has_no_fault() {
    let code = "@ a comment\n\
        --- manual ---\n\
        require <lib/util.hcs>\n\
        import <core:io.file>\n\
        import <virus:net-tools>\n\
        import   <vira:x>\n\
        <rust:serde=1.0>\n\
        <rust:rand>\n\
        <c:stdio.h>\n\
        func main [\n\
        \tlog \"hello\" @ trailing\n\
        \tsh [ ls -la ]\n\
        \tobject Box [\n\
        \t]\n\
        \ttensor t = zeros(3)\n\
        \tmatrix m ones(2)\n\
        \ta dot b\n\
        \tif x [\n\
        \t] else [\n\
        \t] except [\n\
        \t]\n\
        ]\n\
        \n";
    assert_eq!(diagnose(code), Some(Ok(())));
    assert_eq!(diagnose(""), Some(Ok(())));
    assert_eq!(diagnose("\n\n   \n"), Some(Ok(())));
}

#[test]
fn a_line_of_no_known_form_is_not_recognized() {
    assert_eq!(faults("x = 1"), vec![syntax(Reason::Unrecognized, 0, 5)]);
    assert_eq!(
        faults("log \"a\"\n  what is this  \nimport foo\n"),
        vec![syntax(Reason::Unrecognized, 8, 12), syntax(Reason::Unrecognized, 25, 10)]
    );
    assert_eq!(faults("é é @ c"), vec![syntax(Reason::Unrecognized, 0, 5)]);
}

#[test]
fn brackets_have_to_pair_up() {
    assert_eq!(faults("]"), vec![Diagnostic { fault: Fault::UnmatchedClosingBracket, start: 0, len: 1 }]);
    assert_eq!(
        faults("func f [\nif x [\n] else [\n]\n]\n]"),
        vec![Diagnostic { fault: Fault::UnmatchedClosingBracket, start: 29, len: 1 }]
    );
    assert_eq!(
        faults("func f [\n]\n] else [\n]\n]"),
        vec![
            Diagnostic { fault: Fault::UnmatchedClosingBracket, start: 11, len: 8 },
            Diagnostic { fault: Fault::UnmatchedClosingBracket, start: 22, len: 1 },
        ]
    );
    assert_eq!(
        faults("] except e"),
        vec![Diagnostic { fault: Fault::UnmatchedClosingBracket, start: 0, len: 10 }]
    );
    assert_eq!(
        faults("func f [\nobject o [\nloop ["),
        vec![Diagnostic { fault: Fault::UnclosedBlock, start: 20, len: 1 }]
    );
    assert_eq!(
        faults("] else ["),
        vec![
            Diagnostic { fault: Fault::UnmatchedClosingBracket, start: 0, len: 8 },
            Diagnostic { fault: Fault::UnclosedBlock, start: 0, len: 1 },
        ]
    );
}

#[test]
fn block_comments_hide_their_lines() {
    assert_eq!(diagnose("-/ start\nnonsense ] [ \n-\\\nlog \"a\""), Some(Ok(())));
    assert_eq!(
        faults("-/\n  -/ again\n-\\"),
        vec![syntax(Reason::NestedBlockCommentStart, 3, 8)]
    );
    assert_eq!(faults("log \"a\"\n-\\ end"), vec![syntax(Reason::UnmatchedBlockCommentEnd, 8, 6)]);
    assert_eq!(
        faults("log \"a\"\n-/ open\njunk"),
        vec![Diagnostic { fault: Fault::UnclosedBlockComment, start: 8, len: 2 }]
    );
    assert_eq!(diagnose("x -/ y -\\ z"), Some(Err(vec![Diagnostic { fault: Fault::UnclosedBlockComment, start: 0, len: 2 }])));
}

#[test]
fn shell_blocks_take_any_line() {
    assert_eq!(diagnose("sh [\nrm -rf /\n\n]] [\n]\nlog \"a\""), Some(Ok(())));
    assert_eq!(
        faults("sh [\nsh [\n]"),
        vec![syntax(Reason::NestedShBlock, 5, 4)]
    );
    assert_eq!(
        faults("log \"a\"\nsh [\necho"),
        vec![Diagnostic { fault: Fault::UnclosedShBlock, start: 8, len: 4 }]
    );
}

#[test]
fn a_declaration_needs_a_value() {
    assert_eq!(faults("tensor t"), vec![syntax(Reason::InvalidDeclaration, 0, 8)]);
    assert_eq!(faults("vector v zeros"), vec![syntax(Reason::InvalidDeclaration, 0, 14)]);
    assert_eq!(diagnose("vector v = [1]"), Some(Ok(())));
    assert_eq!(faults("tensors t = 1"), vec![syntax(Reason::Unrecognized, 0, 13)]);
}

#[test]
fn all_faults_are_reported_in_order() {
    assert_eq!(
        faults("]\nbad\n-/\nsh [\n-\\\n-\\\nsh [\nfunc f [\n"),
        vec![
            Diagnostic { fault: Fault::UnmatchedClosingBracket, start: 0, len: 1 },
            syntax(Reason::Unrecognized, 2, 3),
            syntax(Reason::UnmatchedBlockCommentEnd, 17, 2),
            Diagnostic { fault: Fault::UnclosedShBlock, start: 20, len: 4 },
        ]
    );
    assert_eq!(
        faults("-/\nif x [\n-\\\n-/\nsh [\n"),
        vec![Diagnostic { fault: Fault::UnclosedBlockComment, start: 13, len: 2 }]
    );
    assert_eq!(
        faults("if x [\nsh [\n-/"),
        vec![
            Diagnostic { fault: Fault::UnclosedBlockComment, start: 12, len: 2 },
            Diagnostic { fault: Fault::UnclosedShBlock, start: 7, len: 4 },
            Diagnostic { fault: Fault::UnclosedBlock, start: 0, len: 1 },
        ]
    );
}

#[test]
fn a_carriage_return_before_a_line_feed_is_not_counted() {
    assert_eq!(faults("log \"a\"\r\nbad\r\nworse"), vec![syntax(Reason::Unrecognized, 8, 3), syntax(Reason::Unrecognized, 12, 5)]);
    assert_eq!(faults("a\rb"), vec![syntax(Reason::Unrecognized, 0, 3)]);
}

#[test]
fn compiled_patterns_can_be_used_again() {
    let patterns = Patterns::new().unwrap();
    assert_eq!(diagnose_hcs(&patterns, "log \"a\""), Ok(()));
    assert_eq!(diagnose_hcs(&patterns, "oops"), Err(vec![syntax(Reason::Unrecognized, 0, 4)]));
}

#[test]
fn a_line_is_read_without_its_comment_and_the_space_around_it() {
    let patterns = Patterns::new().unwrap();
    let line = read_line(&patterns, "  \u{a0}require <a/b.c>  @ why \t", 7);
    assert_eq!(
        line,
        Line {
            start: 7,
            raw_len: 22,
            opens_comment: false,
            closes_comment: false,
            text: "require <a/b.c>".to_string(),
            require: true,
            rust: false,
            c: false,
            virus_vira: false,
            core_import: false,
        }
    );
    let line = read_line(&patterns, "x -/ <c:a> <rust:b-c=1.2> -\\ import <core:a.b> import\t<vira:q>", 0);
    assert!(line.opens_comment && line.closes_comment);
    assert!(line.c && line.rust && line.core_import && line.virus_vira && !line.require);
    let line = read_line(&patterns, "<rust:> import<core:a> import <virus:> require <>", 0);
    assert!(!line.rust && !line.core_import && !line.virus_vira && !line.require && line.c == false);
}

#[test]
fn a_line_is_judged_from_what_is_known_of_it() {
    let mut scan = fresh();
    assert_eq!(judge_line(&mut scan, &plain("if x [", 3)), None);
    assert_eq!(scan, Scan { indent_level: 1, last_open_block_pos: Some(3), ..fresh() });
    assert_eq!(judge_line(&mut scan, &plain("]", 10)), None);
    assert_eq!(scan, Scan { indent_level: 0, last_open_block_pos: Some(3), ..fresh() });
    assert_eq!(
        judge_line(&mut scan, &plain("]", 12)),
        Some(Diagnostic { fault: Fault::UnmatchedClosingBracket, start: 12, len: 1 })
    );
    let known = Line { require: true, ..plain("anything at all ]", 0) };
    assert_eq!(judge_line(&mut scan, &known), None);
    let opens = Line { opens_comment: true, raw_len: 40, ..plain("x", 20) };
    assert_eq!(judge_line(&mut scan, &opens), None);
    assert_eq!(judge_line(&mut scan, &opens), Some(syntax(Reason::NestedBlockCommentStart, 20, 40)));
    assert_eq!(judge_line(&mut scan, &plain("]", 30)), None);
    let closes = Line { closes_comment: true, raw_len: 9, ..plain("y", 50) };
    assert_eq!(judge_line(&mut scan, &closes), None);
    assert_eq!(judge_line(&mut scan, &closes), Some(syntax(Reason::UnmatchedBlockCommentEnd, 50, 9)));
    assert_eq!(scan, Scan { last_open_block_pos: Some(3), ..fresh() });
    assert_eq!(judge_line(&mut scan, &plain("", 60)), None);
    assert_eq!(judge_line(&mut scan, &plain("--- manual --- anything", 60)), None);
    assert_eq!(judge_line(&mut scan, &plain("sh [ ls ]", 60)), None);
    assert_eq!(judge_line(&mut scan, &plain("sh [ ls", 60)), Some(syntax(Reason::Unrecognized, 60, 7)));
}

#[test]
fn reasons_have_their_words() {
    assert_eq!(Reason::NestedBlockCommentStart.message(), "Nested block comment start");
    assert_eq!(Reason::UnmatchedBlockCommentEnd.message(), "Unmatched block comment end");
    assert_eq!(Reason::InvalidDeclaration.message(), "Invalid tensor/matrix/vector declaration");
    assert_eq!(Reason::NestedShBlock.message(), "Nested sh block");
    assert_eq!(Reason::Unrecognized.message(), "Unrecognized syntax");
}

#[test]
fn white_space_of_any_script_is_stripped() {
    assert_eq!(strip(Strip::WhiteSpace, " \t\n\u{a0}\u{2003}a b\u{3000}\r\n"), "a b");
    assert_eq!(strip(Strip::WhiteSpace, "\"a\""), "\"a\"");
    assert_eq!(strip(Strip::WhiteSpace, "   "), "");
    assert_eq!(strip(Strip::Quotes, " \"a\" "), " \"a\" ");
    assert_eq!(strip(Strip::Quotes, "\"\" a \"\""), " a ");
    assert!(is_stripped(Strip::Quotes, '"', false));
    assert!(!is_stripped(Strip::Quotes, ' ', true));
    assert!(is_stripped(Strip::WhiteSpace, 'x', true));
    assert!(!is_stripped(Strip::WhiteSpace, '"', false));
}

#[test]
fn lines_are_numbered_from_one() {
    let code = "ab\ncd\n\nef";
    assert_eq!(line_number(code, 0), 1);
    assert_eq!(line_number(code, 2), 1);
    assert_eq!(line_number(code, 3), 2);
    assert_eq!(line_number(code, 6), 3);
    assert_eq!(line_number(code, 7), 4);
    assert_eq!(line_number(code, 9), 4);
    assert_eq!(line_number("", 0), 1);
    assert_eq!(line_number("é\né", 2), 1);
    assert_eq!(line_number("é\né", 3), 2);
}

#[test]
fn texts_are_the_same_character_by_character() {
    use_same_text();
}

fn use_same_text() {
    assert!(hackerscript::text::same_text("", ""));
    assert!(hackerscript::text::same_text("é]", "é]"));
    assert!(!hackerscript::text::same_text("é", "e"));
    assert!(!hackerscript::text::same_text("ab", "abc"));
    assert!(!hackerscript::text::same_text("abc", "abd"));
    assert!(!hackerscript::text::same_text("import", "Import"));
}
