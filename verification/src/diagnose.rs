//! A line-by-line diagnosis of source files: block comments, shell blocks and
//! brackets that do not pair up, and lines of no known form. Every fault is
//! reported; none ends the diagnosis.

use vstd::prelude::*;
use vstd::string::StringSliceAdditionalSpecFns;
use vstd::utf8::{decode_utf8, encode_utf8};
use crate::patterns::{
    regex_accepts, regex_matches, regex_plain, regex_replaced, regex_source, replace_first,
};
use crate::text::{
    Strip, can_slice, contains, contains_text, ends_with, same_text, slice, starts_with, strip,
    trimmed,
};

verus! {

broadcast use vstd::utf8::encode_utf8_decode_utf8;

/// Why a line is of no valid form.
#[derive(Debug, Clone, Copy, PartialEq, Eq, Structural)]
pub enum Reason {
    NestedBlockCommentStart,
    UnmatchedBlockCommentEnd,
    InvalidDeclaration,
    NestedShBlock,
    Unrecognized,
}

/// What is wrong.
#[derive(Debug, Clone, Copy, PartialEq, Eq, Structural)]
pub enum Fault {
    /// A block comment that is open at the end.
    UnclosedBlockComment,
    /// A `]` with no block open.
    UnmatchedClosingBracket,
    /// A shell block that is open at the end.
    UnclosedShBlock,
    /// A block that is open at the end.
    UnclosedBlock,
    /// A line of no valid form.
    InvalidSyntax(Reason),
}

/// A fault and the bytes of the source that it is about.
#[derive(Debug, Clone, Copy, PartialEq, Eq, Structural)]
pub struct Diagnostic {
    pub fault: Fault,
    pub start: usize,
    pub len: usize,
}

impl Reason {
    /// The reason in words.
    pub fn message(&self) -> (text: &'static str)
        ensures
            text@ == match *self {
                Reason::NestedBlockCommentStart => "Nested block comment start"@,
                Reason::UnmatchedBlockCommentEnd => "Unmatched block comment end"@,
                Reason::InvalidDeclaration => "Invalid tensor/matrix/vector declaration"@,
                Reason::NestedShBlock => "Nested sh block"@,
                Reason::Unrecognized => "Unrecognized syntax"@,
            },
    {
        match self {
            Reason::NestedBlockCommentStart => "Nested block comment start",
            Reason::UnmatchedBlockCommentEnd => "Unmatched block comment end",
            Reason::InvalidDeclaration => "Invalid tensor/matrix/vector declaration",
            Reason::NestedShBlock => "Nested sh block",
            Reason::Unrecognized => "Unrecognized syntax",
        }
    }
}

/// What the diagnosis keeps from line to line.
#[derive(Debug, Clone, Copy, PartialEq, Eq, Structural)]
pub struct Scan {
    /// The number of blocks that are open.
    pub indent_level: usize,
    pub in_sh_block: bool,
    pub in_block_comment: bool,
    /// Where the open block comment began.
    pub block_comment_start: Option<usize>,
    /// Where the open shell block began.
    pub sh_block_start: Option<usize>,
    /// Where the block that was opened last began.
    pub last_open_block_pos: Option<usize>,
}

/// What is known of one line: where it begins; how long it is without the
/// white space around it; whether it opens or closes a block comment; what is
/// left of it without its line comment and the white space around that; and
/// which of the forms that patterns describe it has.
#[derive(Debug, PartialEq, Eq)]
pub struct Line {
    pub start: usize,
    pub raw_len: usize,
    pub opens_comment: bool,
    pub closes_comment: bool,
    pub text: String,
    pub require: bool,
    pub rust: bool,
    pub c: bool,
    pub virus_vira: bool,
    pub core_import: bool,
}

/// The mathematical value of a [`Line`].
pub struct LineView {
    pub start: usize,
    pub raw_len: usize,
    pub opens_comment: bool,
    pub closes_comment: bool,
    pub text: Seq<char>,
    pub require: bool,
    pub rust: bool,
    pub c: bool,
    pub virus_vira: bool,
    pub core_import: bool,
}

impl View for Line {
    type V = LineView;

    open spec fn view(&self) -> LineView {
        LineView {
            start: self.start,
            raw_len: self.raw_len,
            opens_comment: self.opens_comment,
            closes_comment: self.closes_comment,
            text: self.text@,
            require: self.require,
            rust: self.rust,
            c: self.c,
            virus_vira: self.virus_vira,
            core_import: self.core_import,
        }
    }
}

/// The state before the first line.
pub open spec fn initial_scan() -> Scan {
    Scan {
        indent_level: 0,
        in_sh_block: false,
        in_block_comment: false,
        block_comment_start: None,
        sh_block_start: None,
        last_open_block_pos: None,
    }
}

/// The length of a text in bytes.
pub open spec fn byte_len(text: Seq<char>) -> usize {
    encode_utf8(text).len() as usize
}

/// The state with one more block open, at `start`, if the line ends in `[`.
pub open spec fn opened(scan: Scan, text: Seq<char>, start: usize) -> Scan {
    if "["@.is_suffix_of(text) {
        Scan {
            indent_level: (scan.indent_level + 1) as usize,
            last_open_block_pos: Some(start),
            ..scan
        }
    } else {
        scan
    }
}

/// A fault about the whole of a line as it stands without its line comment.
pub open spec fn about(line: LineView, fault: Fault) -> Option<Diagnostic> {
    Some(Diagnostic { fault, start: line.start, len: byte_len(line.text) })
}

/// A fault about the whole of a line as it stands with its line comment.
pub open spec fn about_raw(line: LineView, fault: Fault) -> Option<Diagnostic> {
    Some(Diagnostic { fault, start: line.start, len: line.raw_len })
}

/// The state after a `]` and the fault if no block was open.
pub open spec fn closed(scan: Scan, line: LineView) -> (Scan, Option<Diagnostic>) {
    if scan.indent_level == 0 {
        (scan, about(line, Fault::UnmatchedClosingBracket))
    } else {
        (Scan { indent_level: (scan.indent_level - 1) as usize, ..scan }, None)
    }
}

/// Whether a line declares a tensor, a matrix or a vector.
pub open spec fn is_declaration(text: Seq<char>) -> bool {
    "tensor "@.is_prefix_of(text) || "matrix "@.is_prefix_of(text) || "vector "@.is_prefix_of(text)
}

/// Whether a line introduces a function or a log statement.
pub open spec fn is_keyword_line(text: Seq<char>) -> bool {
    "func "@.is_prefix_of(text) || "fast func "@.is_prefix_of(text) || "log "@.is_prefix_of(text)
}

/// What one line does to the state, and the fault that it adds, if any. The
/// forms of a line are tried in this order; the first that fits decides.
///
/// 1. A line that opens a block comment, then one that closes one; then any
///    line inside a block comment.
/// 2. An empty line outside a shell block.
/// 3. A line of one of the forms that patterns describe, or one that names the
///    manual memory mode.
/// 4. A declaration of a tensor, a matrix or a vector: it needs `=`, `zeros(`
///    or `ones(`.
/// 5. `sh [`, which opens a shell block; then any line inside a shell block,
///    of which `]` closes it; then a shell command on one line.
/// 6. A line that begins with `object `, `func `, `fast func ` or `log `: it
///    opens a block if it ends in `[`.
/// 7. A line that begins with `] except` or `] else`: it closes a block, and
///    opens one if it ends in `[`. Then `]`, which closes a block.
/// 8. Any line that ends in `[`: it opens a block. Then any line with ` dot `.
/// 9. Any other line that is not empty is not recognized.
pub open spec fn judge_spec(scan: Scan, line: LineView) -> (Scan, Option<Diagnostic>) {
    let text = line.text;
    if line.opens_comment {
        (
            Scan { in_block_comment: true, block_comment_start: Some(line.start), ..scan },
            if scan.in_block_comment {
                about_raw(line, Fault::InvalidSyntax(Reason::NestedBlockCommentStart))
            } else {
                None
            },
        )
    } else if line.closes_comment {
        (
            Scan { in_block_comment: false, block_comment_start: None, ..scan },
            if !scan.in_block_comment {
                about_raw(line, Fault::InvalidSyntax(Reason::UnmatchedBlockCommentEnd))
            } else {
                None
            },
        )
    } else if scan.in_block_comment {
        (scan, None)
    } else if text.len() == 0 && !scan.in_sh_block {
        (scan, None)
    } else if line.require || line.rust || line.c || line.virus_vira || line.core_import {
        (scan, None)
    } else if contains_text(text, "--- manual ---"@) {
        (scan, None)
    } else if is_declaration(text) {
        (
            scan,
            if contains_text(text, "="@) || contains_text(text, "zeros("@) || contains_text(
                text,
                "ones("@,
            ) {
                None
            } else {
                about(line, Fault::InvalidSyntax(Reason::InvalidDeclaration))
            },
        )
    } else if text == "sh ["@ {
        (
            Scan { in_sh_block: true, sh_block_start: Some(line.start), ..scan },
            if scan.in_sh_block {
                about(line, Fault::InvalidSyntax(Reason::NestedShBlock))
            } else {
                None
            },
        )
    } else if scan.in_sh_block {
        if text == "]"@ {
            (Scan { in_sh_block: false, sh_block_start: None, ..scan }, None)
        } else {
            (scan, None)
        }
    } else if "sh ["@.is_prefix_of(text) && "]"@.is_suffix_of(text) {
        (scan, None)
    } else if "object "@.is_prefix_of(text) || is_keyword_line(text) {
        (opened(scan, text, line.start), None)
    } else if "] except"@.is_prefix_of(text) || "] else"@.is_prefix_of(text) {
        let (after, fault) = closed(scan, line);
        (opened(after, text, line.start), fault)
    } else if text == "]"@ {
        closed(scan, line)
    } else if "["@.is_suffix_of(text) {
        (opened(scan, text, line.start), None)
    } else if contains_text(text, " dot "@) {
        (scan, None)
    } else if text.len() > 0 {
        (scan, about(line, Fault::InvalidSyntax(Reason::Unrecognized)))
    } else {
        (scan, None)
    }
}

/// The faults of what is still open at the end: a block comment, a shell
/// block, a block; in this order.
pub open spec fn closing_faults(scan: Scan) -> Seq<Diagnostic> {
    let comment = if scan.in_block_comment && scan.block_comment_start is Some {
        seq![
            Diagnostic {
                fault: Fault::UnclosedBlockComment,
                start: scan.block_comment_start->0,
                len: 2,
            },
        ]
    } else {
        Seq::empty()
    };
    let shell = if scan.in_sh_block && scan.sh_block_start is Some {
        seq![Diagnostic { fault: Fault::UnclosedShBlock, start: scan.sh_block_start->0, len: 4 }]
    } else {
        Seq::empty()
    };
    let block = if scan.indent_level > 0 && scan.last_open_block_pos is Some {
        seq![Diagnostic { fault: Fault::UnclosedBlock, start: scan.last_open_block_pos->0, len: 1 }]
    } else {
        Seq::empty()
    };
    comment + shell + block
}

/// Opens a block at `start` if the line ends in `[`.
fn open_block(scan: &mut Scan, text: &str, start: usize)
    requires
        old(scan).indent_level < usize::MAX,
    ensures
        *final(scan) == opened(*old(scan), text@, start),
{
    if ends_with(text, "[") {
        scan.indent_level += 1;
        scan.last_open_block_pos = Some(start);
    }
}

/// Closes a block, or tells that none is open.
fn close_block(scan: &mut Scan, line: &Line) -> (fault: Option<Diagnostic>)
    ensures
        (*final(scan), fault) == closed(*old(scan), line@),
{
    if scan.indent_level == 0 {
        Some(
            Diagnostic {
                fault: Fault::UnmatchedClosingBracket,
                start: line.start,
                len: line.text.as_str().len(),
            },
        )
    } else {
        scan.indent_level -= 1;
        None
    }
}

/// Takes one line into the state and tells the fault that it adds, if any.
pub fn judge_line(scan: &mut Scan, line: &Line) -> (fault: Option<Diagnostic>)
    requires
        old(scan).indent_level < usize::MAX,
    ensures
        (*final(scan), fault) == judge_spec(*old(scan), line@),
{
    let text = line.text.as_str();
    let whole = Diagnostic {
        fault: Fault::InvalidSyntax(Reason::Unrecognized),
        start: line.start,
        len: text.len(),
    };
    if line.opens_comment {
        let nested = scan.in_block_comment;
        scan.in_block_comment = true;
        scan.block_comment_start = Some(line.start);
        if nested {
            return Some(
                Diagnostic {
                    fault: Fault::InvalidSyntax(Reason::NestedBlockCommentStart),
                    start: line.start,
                    len: line.raw_len,
                },
            );
        }
        return None;
    }
    if line.closes_comment {
        let inside = scan.in_block_comment;
        scan.in_block_comment = false;
        scan.block_comment_start = None;
        if !inside {
            return Some(
                Diagnostic {
                    fault: Fault::InvalidSyntax(Reason::UnmatchedBlockCommentEnd),
                    start: line.start,
                    len: line.raw_len,
                },
            );
        }
        return None;
    }
    if scan.in_block_comment {
        return None;
    }
    if text.is_empty() && !scan.in_sh_block {
        return None;
    }
    if line.require || line.rust || line.c || line.virus_vira || line.core_import {
        return None;
    }
    if contains(text, "--- manual ---") {
        return None;
    }
    if starts_with(text, "tensor ") || starts_with(text, "matrix ") || starts_with(text, "vector ") {
        if contains(text, "=") || contains(text, "zeros(") || contains(text, "ones(") {
            return None;
        }
        return Some(
            Diagnostic { fault: Fault::InvalidSyntax(Reason::InvalidDeclaration), ..whole },
        );
    }
    if same_text(text, "sh [") {
        let nested = scan.in_sh_block;
        scan.in_sh_block = true;
        scan.sh_block_start = Some(line.start);
        if nested {
            return Some(Diagnostic { fault: Fault::InvalidSyntax(Reason::NestedShBlock), ..whole });
        }
        return None;
    }
    if scan.in_sh_block {
        if same_text(text, "]") {
            scan.in_sh_block = false;
            scan.sh_block_start = None;
        }
        return None;
    }
    if starts_with(text, "sh [") && ends_with(text, "]") {
        return None;
    }
    if starts_with(text, "object ") || starts_with(text, "func ") || starts_with(text, "fast func ")
        || starts_with(text, "log ") {
        open_block(scan, text, line.start);
        return None;
    }
    if starts_with(text, "] except") || starts_with(text, "] else") {
        let fault = close_block(scan, line);
        open_block(scan, text, line.start);
        return fault;
    }
    if same_text(text, "]") {
        return close_block(scan, line);
    }
    if ends_with(text, "[") {
        open_block(scan, text, line.start);
        return None;
    }
    if contains(text, " dot ") {
        return None;
    }
    if !text.is_empty() {
        return Some(whole);
    }
    None
}

/// The pattern of a dependency on a Rust crate, with a version if one is given.
pub open spec fn rust_pattern() -> Seq<char> {
    r"<rust:([\w\-]+)(?:=([\d\.]+))?>"@
}

/// The pattern of a dependency on a C library.
pub open spec fn c_pattern() -> Seq<char> {
    r"<c:(.*)>"@
}

/// The pattern of an import from one of the two package sources.
pub open spec fn virus_vira_pattern() -> Seq<char> {
    r"import\s+<(virus|vira):([\w\-]+)>"@
}

/// The pattern of an import from the core library.
pub open spec fn core_import_pattern() -> Seq<char> {
    r"import\s+<core:([\w\.]+)>"@
}

/// The pattern of a file that is required.
pub open spec fn require_pattern() -> Seq<char> {
    r"require\s+<([\w\./]+)>"@
}

/// The pattern of a line comment: from its marker to the end of the line.
pub open spec fn comment_pattern() -> Seq<char> {
    r"@.*"@
}

/// The pattern of the marker that opens a block comment.
pub open spec fn block_comment_start_pattern() -> Seq<char> {
    r"-/"@
}

/// The pattern of the marker that closes a block comment.
pub open spec fn block_comment_end_pattern() -> Seq<char> {
    r"-\\"@
}

/// Whether all patterns of the diagnosis compile.
pub open spec fn patterns_compile() -> bool {
    &&& regex_accepts(rust_pattern())
    &&& regex_accepts(c_pattern())
    &&& regex_accepts(virus_vira_pattern())
    &&& regex_accepts(core_import_pattern())
    &&& regex_accepts(require_pattern())
    &&& regex_accepts(comment_pattern())
    &&& regex_accepts(block_comment_start_pattern())
    &&& regex_accepts(block_comment_end_pattern())
}

/// The patterns of the diagnosis, compiled. Only [`Patterns::new`] makes one.
pub struct Patterns {
    rust: regex::Regex,
    c: regex::Regex,
    virus_vira: regex::Regex,
    core_import: regex::Regex,
    require: regex::Regex,
    comment: regex::Regex,
    block_comment_start: regex::Regex,
    block_comment_end: regex::Regex,
}

/// Whether a regular expression is compiled from the pattern, with no option set.
pub open spec fn compiled_from(re: regex::Regex, pattern: Seq<char>) -> bool {
    regex_plain(re) && regex_source(re) == pattern
}

impl Patterns {
    /// Each pattern is compiled from its text, with no option set.
    pub closed spec fn wf(&self) -> bool {
        &&& compiled_from(self.rust, rust_pattern())
        &&& compiled_from(self.c, c_pattern())
        &&& compiled_from(self.virus_vira, virus_vira_pattern())
        &&& compiled_from(self.core_import, core_import_pattern())
        &&& compiled_from(self.require, require_pattern())
        &&& compiled_from(self.comment, comment_pattern())
        &&& compiled_from(self.block_comment_start, block_comment_start_pattern())
        &&& compiled_from(self.block_comment_end, block_comment_end_pattern())
    }

    /// Compiles the patterns; `None` if one of them is refused.
    pub fn new() -> (patterns: Option<Patterns>)
        ensures
            patterns is Some <==> patterns_compile(),
            patterns matches Some(p) ==> p.wf(),
    {
        let rust = match regex::Regex::new(r"<rust:([\w\-]+)(?:=([\d\.]+))?>") {
            Ok(re) => re,
            Err(_) => {
                return None;
            },
        };
        let c = match regex::Regex::new(r"<c:(.*)>") {
            Ok(re) => re,
            Err(_) => {
                return None;
            },
        };
        let virus_vira = match regex::Regex::new(r"import\s+<(virus|vira):([\w\-]+)>") {
            Ok(re) => re,
            Err(_) => {
                return None;
            },
        };
        let core_import = match regex::Regex::new(r"import\s+<core:([\w\.]+)>") {
            Ok(re) => re,
            Err(_) => {
                return None;
            },
        };
        let require = match regex::Regex::new(r"require\s+<([\w\./]+)>") {
            Ok(re) => re,
            Err(_) => {
                return None;
            },
        };
        let comment = match regex::Regex::new(r"@.*") {
            Ok(re) => re,
            Err(_) => {
                return None;
            },
        };
        let block_comment_start = match regex::Regex::new(r"-/") {
            Ok(re) => re,
            Err(_) => {
                return None;
            },
        };
        let block_comment_end = match regex::Regex::new(r"-\\") {
            Ok(re) => re,
            Err(_) => {
                return None;
            },
        };
        Some(
            Patterns {
                rust,
                c,
                virus_vira,
                core_import,
                require,
                comment,
                block_comment_start,
                block_comment_end,
            },
        )
    }
}

/// What is known of the line that holds `line` and begins at `start`.
pub open spec fn line_view(line: Seq<char>, start: usize) -> LineView {
    let raw = trimmed(line);
    let text = trimmed(regex_replaced(comment_pattern(), raw, Seq::empty()));
    LineView {
        start,
        raw_len: byte_len(raw),
        opens_comment: regex_matches(block_comment_start_pattern(), raw),
        closes_comment: regex_matches(block_comment_end_pattern(), raw),
        text,
        require: regex_matches(require_pattern(), text),
        rust: regex_matches(rust_pattern(), text),
        c: regex_matches(c_pattern(), text),
        virus_vira: regex_matches(virus_vira_pattern(), text),
        core_import: regex_matches(core_import_pattern(), text),
    }
}

/// Finds out what is to be known of a line.
pub fn read_line(patterns: &Patterns, line: &str, start: usize) -> (known: Line)
    requires
        patterns.wf(),
    ensures
        known@ == line_view(line@, start),
{
    proof {
        reveal_strlit("");
    }
    let raw = strip(Strip::WhiteSpace, line);
    let opens_comment = patterns.block_comment_start.is_match(raw.as_str());
    let closes_comment = patterns.block_comment_end.is_match(raw.as_str());
    let uncommented = replace_first(&patterns.comment, raw.as_str(), "");
    assert(""@ =~= Seq::<char>::empty());
    let text = strip(Strip::WhiteSpace, uncommented.as_str());
    Line {
        start,
        raw_len: raw.as_str().len(),
        opens_comment,
        closes_comment,
        require: patterns.require.is_match(text.as_str()),
        rust: patterns.rust.is_match(text.as_str()),
        c: patterns.c.is_match(text.as_str()),
        virus_vira: patterns.virus_vira.is_match(text.as_str()),
        core_import: patterns.core_import.is_match(text.as_str()),
        text,
    }
}

/// The place of the first line feed from `from` on, or the end.
pub open spec fn line_feed_from(bytes: Seq<u8>, from: int) -> int
    decreases bytes.len() - from,
{
    if 0 <= from < bytes.len() && bytes[from] != 10 {
        line_feed_from(bytes, from + 1)
    } else {
        from
    }
}

/// The end of the line that begins at `from` and goes up to `feed`: a
/// carriage return just before the line feed does not belong to the line.
pub open spec fn line_end(bytes: Seq<u8>, from: int, feed: int) -> int {
    if from < feed < bytes.len() && bytes[feed - 1] == 13 {
        feed - 1
    } else {
        feed
    }
}

/// The text in the bytes from `from` up to `end`; empty where they cannot be
/// cut out of the text.
pub open spec fn line_chars(bytes: Seq<u8>, from: int, end: int) -> Seq<char> {
    if can_slice(bytes, from, end) {
        decode_utf8(bytes.subrange(from, end))
    } else {
        Seq::empty()
    }
}

/// The fault, if there is one, as a sequence.
pub open spec fn found(fault: Option<Diagnostic>) -> Seq<Diagnostic> {
    match fault {
        Some(diagnostic) => seq![diagnostic],
        None => Seq::empty(),
    }
}

/// The state after the lines from `from` on, and their faults in order, where
/// the line at `from` counts as beginning at `pos`.
///
/// Each line is counted as long as its bytes, and one more for its line feed:
/// after a line that ends in a carriage return and a line feed, what follows
/// counts as beginning one byte before the place where it stands.
pub open spec fn scan_lines(bytes: Seq<u8>, from: int, pos: int, scan: Scan) -> (
    Scan,
    Seq<Diagnostic>,
)
    decreases bytes.len() - from,
{
    if from < 0 || from >= bytes.len() {
        (scan, Seq::empty())
    } else {
        proof {
            lemma_line_feed_bounds(bytes, from);
        }
        let feed = line_feed_from(bytes, from);
        let end = line_end(bytes, from, feed);
        let line = line_view(line_chars(bytes, from, end), pos as usize);
        let (next, fault) = judge_spec(scan, line);
        let (last, rest) = scan_lines(
            bytes,
            if feed < bytes.len() {
                feed + 1
            } else {
                feed
            },
            pos + (end - from) + 1,
            next,
        );
        (last, found(fault) + rest)
    }
}

/// The faults of a source, in order: those of its lines, then those of what
/// is still open at the end.
pub open spec fn diagnose_spec(bytes: Seq<u8>) -> Seq<Diagnostic> {
    let (last, faults) = scan_lines(bytes, 0, 0, initial_scan());
    faults + closing_faults(last)
}

/// The first line feed from a place on stands at or after the place, and
/// within the bytes or at their end.
pub proof fn lemma_line_feed_bounds(bytes: Seq<u8>, from: int)
    requires
        0 <= from <= bytes.len(),
    ensures
        from <= line_feed_from(bytes, from) <= bytes.len(),
    decreases bytes.len() - from,
{
    if from < bytes.len() && bytes[from] != 10 {
        lemma_line_feed_bounds(bytes, from + 1);
    }
}

/// Diagnoses a source: `Ok` if it has no fault, else all its faults in order.
pub fn diagnose_hcs(patterns: &Patterns, code: &str) -> (result: Result<(), Vec<Diagnostic>>)
    requires
        patterns.wf(),
    ensures
        match result {
            Ok(_) => diagnose_spec(code.spec_bytes()).len() == 0,
            Err(faults) => faults@.len() > 0 && faults@ == diagnose_spec(code.spec_bytes()),
        },
{
    let bytes = code.as_bytes();
    let ghost all = code.spec_bytes();
    let mut errors: Vec<Diagnostic> = Vec::new();
    let mut scan = Scan {
        indent_level: 0,
        in_sh_block: false,
        in_block_comment: false,
        block_comment_start: None,
        sh_block_start: None,
        last_open_block_pos: None,
    };
    let mut from: usize = 0;
    let mut pos: usize = 0;
    let ghost whole = scan_lines(all, 0, 0, initial_scan());
    assert(errors@ + whole.1 =~= whole.1);
    while from < bytes.len()
        invariant
            patterns.wf(),
            bytes@ == all,
            all == code.spec_bytes(),
            pos <= from <= bytes.len(),
            scan.indent_level <= from,
            whole == scan_lines(all, 0, 0, initial_scan()),
            whole.0 == scan_lines(all, from as int, pos as int, scan).0,
            whole.1 == errors@ + scan_lines(all, from as int, pos as int, scan).1,
        decreases bytes.len() - from,
    {
        let ghost seen = errors@;
        let mut feed: usize = from;
        while feed < bytes.len() && bytes[feed] != 10
            invariant
                from <= feed <= bytes.len(),
                bytes@ == all,
                line_feed_from(all, from as int) == line_feed_from(all, feed as int),
            decreases bytes.len() - feed,
        {
            feed += 1;
        }
        let end: usize = if from < feed && feed < bytes.len() && bytes[feed - 1] == 13 {
            feed - 1
        } else {
            feed
        };
        proof {
            reveal_strlit("");
        }
        let line = match slice(code, from, end) {
            Some(line) => line,
            None => "",
        };
        assert(line@ =~= line_chars(all, from as int, end as int));
        let known = read_line(patterns, line, pos);
        let ghost before = scan;
        match judge_line(&mut scan, &known) {
            Some(fault) => {
                errors.push(fault);
            },
            None => {},
        }
        proof {
            let rest = scan_lines(
                all,
                if feed < all.len() {
                    feed + 1
                } else {
                    feed as int
                },
                pos + (end - from) + 1,
                scan,
            ).1;
            assert(errors@ + rest =~= seen + (found(judge_spec(before, known@).1) + rest));
        }
        if feed < bytes.len() {
            pos = pos + (end - from) + 1;
            from = feed + 1;
        } else {
            from = feed;
        }
    }
    if scan.in_block_comment {
        match scan.block_comment_start {
            Some(start) => {
                errors.push(Diagnostic { fault: Fault::UnclosedBlockComment, start, len: 2 });
            },
            None => {},
        }
    }
    if scan.in_sh_block {
        match scan.sh_block_start {
            Some(start) => {
                errors.push(Diagnostic { fault: Fault::UnclosedShBlock, start, len: 4 });
            },
            None => {},
        }
    }
    if scan.indent_level > 0 {
        match scan.last_open_block_pos {
            Some(start) => {
                errors.push(Diagnostic { fault: Fault::UnclosedBlock, start, len: 1 });
            },
            None => {},
        }
    }
    assert(errors@ =~= diagnose_spec(all));
    if errors.len() > 0 {
        Err(errors)
    } else {
        Ok(())
    }
}

/// Diagnoses a source with patterns compiled for the purpose; `None` if the
/// patterns cannot be compiled.
pub fn diagnose(code: &str) -> (result: Option<Result<(), Vec<Diagnostic>>>)
    ensures
        result is Some <==> patterns_compile(),
        match result {
            Some(Ok(_)) => diagnose_spec(code.spec_bytes()).len() == 0,
            Some(Err(faults)) => faults@.len() > 0 && faults@ == diagnose_spec(code.spec_bytes()),
            None => true,
        },
{
    match Patterns::new() {
        Some(patterns) => Some(diagnose_hcs(&patterns, code)),
        None => None,
    }
}

} // verus!
