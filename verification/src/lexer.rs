//! The lexer: source text to a sequence of tokens that ends in `Eof`.
//!
//! The source is read one character at a time, the longest match first:
//!
//! - white space, and comments from `@` to the end of the line, are skipped;
//! - `[`, `]`, `:`, `;` and `=` are one token each;
//! - a string literal runs from `"` to the next `"`, taken raw: there are no
//!   escapes, and a literal that is still open at the end of the source
//!   extends to the end;
//! - a word of letters, digits and `_` that begins with a letter or `_` is a
//!   keyword if it stands in the keyword table, else an identifier;
//! - digits and `.` after a digit are a number, kept as text;
//! - the phrases `--- manual ---` and `--- auto ---` select the memory mode;
//! - any other character ends the lexing with an error.
//!
//! Each token carries the line and column of the cursor just after it.

use vstd::prelude::*;
use crate::text::{characters, same_text};
use crate::token::{Token, TokenKind, TokenKindView, TokenView, ends_in_eof, token_views};

verus! {

/// Why lexing stopped.
#[derive(Debug, Clone, Copy, PartialEq, Eq, Structural)]
pub enum LexError {
    /// A character that begins no token, with the cursor just past it.
    UnexpectedCharacter { character: char, line: u32, column: u32 },
}

/// Whether `c` has the Unicode property Alphabetic, as `char::is_alphabetic` tells.
pub uninterp spec fn unicode_alphabetic(c: char) -> bool;

/// Whether `c` is alphabetic or numeric in Unicode, as `char::is_alphanumeric` tells.
pub uninterp spec fn unicode_alphanumeric(c: char) -> bool;

/// `char::is_alphabetic` is a function of the character alone; its table is not
/// restated here, its result is only given the name [`unicode_alphabetic`].
pub assume_specification[ char::is_alphabetic ](c: char) -> (yes: bool)
    ensures
        yes == unicode_alphabetic(c),
;

/// `char::is_alphanumeric` is a function of the character alone; its result is
/// given the name [`unicode_alphanumeric`].
pub assume_specification[ char::is_alphanumeric ](c: char) -> (yes: bool)
    ensures
        yes == unicode_alphanumeric(c),
;

/// What a character means at the start of a token.
#[derive(Debug, Clone, Copy, PartialEq, Eq, Structural)]
pub enum CharClass {
    Whitespace,
    CommentMarker,
    OpenBracket,
    CloseBracket,
    Quote,
    Colon,
    Semicolon,
    Assign,
    Dash,
    IdentifierStart,
    Digit,
    Unexpected,
}

/// Runs of characters that the lexer reads greedily.
#[derive(Debug, Clone, Copy, PartialEq, Eq, Structural)]
pub enum Run {
    /// The rest of an identifier or keyword.
    Identifier,
    /// The rest of a number.
    Number,
    /// A comment, up to the end of its line.
    Comment,
    /// The inside of a string literal, up to the next quote.
    Text,
}

pub open spec fn is_digit(c: char) -> bool {
    '0' <= c <= '9'
}

/// The class of `c`, given whether it is alphabetic. Punctuation is looked at
/// first, so the flag only matters for characters with no meaning of their own.
pub open spec fn classify_spec(c: char, alphabetic: bool) -> CharClass {
    if c == ' ' || c == '\t' || c == '\r' || c == '\n' {
        CharClass::Whitespace
    } else if c == '@' {
        CharClass::CommentMarker
    } else if c == '[' {
        CharClass::OpenBracket
    } else if c == ']' {
        CharClass::CloseBracket
    } else if c == '"' {
        CharClass::Quote
    } else if c == ':' {
        CharClass::Colon
    } else if c == ';' {
        CharClass::Semicolon
    } else if c == '=' {
        CharClass::Assign
    } else if c == '-' {
        CharClass::Dash
    } else if alphabetic || c == '_' {
        CharClass::IdentifierStart
    } else if is_digit(c) {
        CharClass::Digit
    } else {
        CharClass::Unexpected
    }
}

/// Whether `c` goes on a run of the given kind, given whether it is alphanumeric.
pub open spec fn continues_spec(run: Run, c: char, alphanumeric: bool) -> bool {
    match run {
        Run::Identifier => alphanumeric || c == '_',
        Run::Number => is_digit(c) || c == '.',
        Run::Comment => c != '\n',
        Run::Text => c != '"',
    }
}

pub open spec fn char_class(c: char) -> CharClass {
    classify_spec(c, unicode_alphabetic(c))
}

pub open spec fn continues(run: Run, c: char) -> bool {
    continues_spec(run, c, unicode_alphanumeric(c))
}

/// Classifies a character from the character and the answer of `char::is_alphabetic`.
pub fn classify(c: char, alphabetic: bool) -> (class: CharClass)
    ensures
        class == classify_spec(c, alphabetic),
{
    if c == ' ' || c == '\t' || c == '\r' || c == '\n' {
        CharClass::Whitespace
    } else if c == '@' {
        CharClass::CommentMarker
    } else if c == '[' {
        CharClass::OpenBracket
    } else if c == ']' {
        CharClass::CloseBracket
    } else if c == '"' {
        CharClass::Quote
    } else if c == ':' {
        CharClass::Colon
    } else if c == ';' {
        CharClass::Semicolon
    } else if c == '=' {
        CharClass::Assign
    } else if c == '-' {
        CharClass::Dash
    } else if alphabetic || c == '_' {
        CharClass::IdentifierStart
    } else if '0' <= c && c <= '9' {
        CharClass::Digit
    } else {
        CharClass::Unexpected
    }
}

/// Tells whether a character goes on a run, from the character and the answer of
/// `char::is_alphanumeric`.
pub fn continues_run(run: Run, c: char, alphanumeric: bool) -> (yes: bool)
    ensures
        yes == continues_spec(run, c, alphanumeric),
{
    match run {
        Run::Identifier => alphanumeric || c == '_',
        Run::Number => ('0' <= c && c <= '9') || c == '.',
        Run::Comment => c != '\n',
        Run::Text => c != '"',
    }
}

/// The line of the cursor after `pos` characters of `src`.
pub open spec fn line_at(src: Seq<char>, pos: int) -> int
    decreases pos,
{
    if pos <= 0 {
        1
    } else if src[pos - 1] == '\n' {
        line_at(src, pos - 1) + 1
    } else {
        line_at(src, pos - 1)
    }
}

/// The column of the cursor after `pos` characters of `src`.
pub open spec fn column_at(src: Seq<char>, pos: int) -> int
    decreases pos,
{
    if pos <= 0 {
        1
    } else if src[pos - 1] == '\n' {
        1
    } else {
        column_at(src, pos - 1) + 1
    }
}

/// The number of characters from `from` on that go on a run of the given kind.
pub open spec fn run_len(src: Seq<char>, from: int, run: Run) -> nat
    decreases src.len() - from,
{
    if 0 <= from < src.len() && continues(run, src[from]) {
        1 + run_len(src, from + 1, run)
    } else {
        0
    }
}

/// Whether `word` stands in `src` at `pos`.
pub open spec fn has_word_at(src: Seq<char>, pos: int, word: Seq<char>) -> bool {
    0 <= pos && pos + word.len() <= src.len() && src.subrange(pos, pos + word.len()) == word
}

/// The phrase that selects manual memory management.
pub open spec fn manual_phrase() -> Seq<char> {
    "--- manual ---"@
}

/// The phrase that selects automatic memory management.
pub open spec fn auto_phrase() -> Seq<char> {
    "--- auto ---"@
}

/// The kind of a word: a keyword of the table, or else an identifier.
pub open spec fn word_kind(text: Seq<char>) -> TokenKindView {
    if text == "import"@ {
        TokenKindView::Import
    } else if text == "class"@ {
        TokenKindView::Class
    } else if text == "func"@ {
        TokenKindView::Func
    } else if text == "log"@ {
        TokenKindView::Log
    } else if text == "int"@ {
        TokenKindView::IntType
    } else if text == "string"@ {
        TokenKindView::StringType
    } else {
        TokenKindView::Identifier(text)
    }
}

/// What stands at one place of the source.
pub enum Scan {
    /// Whitespace or a comment, up to the given place.
    Skip(int),
    /// A token of the given kind, up to the given place.
    Token(TokenKindView, int),
    /// A character that begins no token.
    Unexpected,
}

/// What stands in `src` at `pos`, for `0 <= pos < src.len()`.
///
/// A string literal that is still open at the end of the source extends to the end.
pub open spec fn scan(src: Seq<char>, pos: int) -> Scan {
    match char_class(src[pos]) {
        CharClass::Whitespace => Scan::Skip(pos + 1),
        CharClass::CommentMarker => Scan::Skip(pos + 1 + run_len(src, pos + 1, Run::Comment)),
        CharClass::OpenBracket => Scan::Token(TokenKindView::OpenBracket, pos + 1),
        CharClass::CloseBracket => Scan::Token(TokenKindView::CloseBracket, pos + 1),
        CharClass::Quote => {
            let close = pos + 1 + run_len(src, pos + 1, Run::Text);
            Scan::Token(
                TokenKindView::String(src.subrange(pos + 1, close)),
                if close < src.len() {
                    close + 1
                } else {
                    close
                },
            )
        },
        CharClass::Colon => Scan::Token(TokenKindView::Colon, pos + 1),
        CharClass::Semicolon => Scan::Token(TokenKindView::Semicolon, pos + 1),
        CharClass::Assign => Scan::Token(TokenKindView::Assign, pos + 1),
        CharClass::Dash => {
            if has_word_at(src, pos, manual_phrase()) {
                Scan::Token(TokenKindView::ManualModeDirective, pos + manual_phrase().len())
            } else if has_word_at(src, pos, auto_phrase()) {
                Scan::Token(TokenKindView::AutoModeDirective, pos + auto_phrase().len())
            } else {
                Scan::Unexpected
            }
        },
        CharClass::IdentifierStart => {
            let end = pos + 1 + run_len(src, pos + 1, Run::Identifier);
            Scan::Token(word_kind(src.subrange(pos, end)), end)
        },
        CharClass::Digit => {
            let end = pos + 1 + run_len(src, pos + 1, Run::Number);
            Scan::Token(TokenKindView::Number(src.subrange(pos, end)), end)
        },
        CharClass::Unexpected => Scan::Unexpected,
    }
}

/// A token of the given kind that ends at `end`. Line and column fit their type
/// for every source of fewer than `u32::MAX` characters.
pub open spec fn token_ending_at(kind: TokenKindView, src: Seq<char>, end: int) -> TokenView {
    TokenView { kind, line: line_at(src, end) as u32, column: column_at(src, end) as u32 }
}

/// The tokens of `src` from `pos` on, or the first character that begins none.
pub open spec fn lex_from(src: Seq<char>, pos: int) -> Result<Seq<TokenView>, LexError>
    decreases src.len() - pos,
{
    if pos < 0 || pos >= src.len() {
        Ok(seq![token_ending_at(TokenKindView::Eof, src, src.len() as int)])
    } else {
        proof {
            lemma_scan_advances(src, pos);
        }
        match scan(src, pos) {
            Scan::Skip(end) => lex_from(src, end),
            Scan::Token(kind, end) => match lex_from(src, end) {
                Ok(rest) => Ok(seq![token_ending_at(kind, src, end)] + rest),
                Err(e) => Err(e),
            },
            Scan::Unexpected => Err(
                LexError::UnexpectedCharacter {
                    character: src[pos],
                    line: line_at(src, pos + 1) as u32,
                    column: column_at(src, pos + 1) as u32,
                },
            ),
        }
    }
}

/// The tokens that are read from `pos` on and the place where the reading
/// ends, whether it gets to the end of the source or stops at a character that
/// begins no token. Where it stops, the tokens before that character are read,
/// and the reading ends just past the character.
pub open spec fn lex_state(src: Seq<char>, pos: int) -> (Seq<TokenView>, int)
    decreases src.len() - pos,
{
    if pos < 0 || pos >= src.len() {
        (seq![token_ending_at(TokenKindView::Eof, src, src.len() as int)], pos)
    } else {
        proof {
            lemma_scan_advances(src, pos);
        }
        match scan(src, pos) {
            Scan::Skip(end) => lex_state(src, end),
            Scan::Token(kind, end) => {
                let (rest, stop) = lex_state(src, end);
                (seq![token_ending_at(kind, src, end)] + rest, stop)
            },
            Scan::Unexpected => (Seq::empty(), pos + 1),
        }
    }
}

/// The tokens of a whole source text.
pub open spec fn lex_spec(src: Seq<char>) -> Result<Seq<TokenView>, LexError> {
    lex_from(src, 0)
}

/// `done`, then what `rest` holds.
pub open spec fn after(done: Seq<TokenView>, rest: Result<Seq<TokenView>, LexError>) -> Result<
    Seq<TokenView>,
    LexError,
> {
    match rest {
        Ok(tail) => Ok(done + tail),
        Err(e) => Err(e),
    }
}

pub proof fn lemma_run_len_bound(src: Seq<char>, from: int, run: Run)
    requires
        0 <= from <= src.len(),
    ensures
        from + run_len(src, from, run) <= src.len(),
        forall|i: int| from <= i < from + run_len(src, from, run) ==> continues(run, #[trigger] src[i]),
        from + run_len(src, from, run) < src.len() ==> !continues(
            run,
            src[from + run_len(src, from, run)],
        ),
    decreases src.len() - from,
{
    if from < src.len() && continues(run, src[from]) {
        lemma_run_len_bound(src, from + 1, run);
    }
}

/// Whatever stands at a place within the source ends after it and within the source.
pub proof fn lemma_scan_advances(src: Seq<char>, pos: int)
    requires
        0 <= pos < src.len(),
    ensures
        match scan(src, pos) {
            Scan::Skip(end) => pos < end <= src.len(),
            Scan::Token(_, end) => pos < end <= src.len(),
            Scan::Unexpected => true,
        },
{
    lemma_run_len_bound(src, pos + 1, Run::Comment);
    lemma_run_len_bound(src, pos + 1, Run::Text);
    lemma_run_len_bound(src, pos + 1, Run::Identifier);
    lemma_run_len_bound(src, pos + 1, Run::Number);
    reveal_strlit("--- manual ---");
    reveal_strlit("--- auto ---");
}

/// The tokens of a source end in `Eof`.
pub proof fn lemma_lex_ends_in_eof(src: Seq<char>, pos: int)
    ensures
        lex_from(src, pos) matches Ok(tokens) ==> tokens.len() > 0 && tokens.last().kind is Eof,
    decreases src.len() - pos,
{
    if 0 <= pos < src.len() {
        lemma_scan_advances(src, pos);
        match scan(src, pos) {
            Scan::Skip(end) => {
                lemma_lex_ends_in_eof(src, end);
            },
            Scan::Token(_, end) => {
                lemma_lex_ends_in_eof(src, end);
            },
            Scan::Unexpected => {},
        }
    }
}

/// The cursor is never further along than the characters read, plus one.
pub proof fn lemma_cursor_bound(src: Seq<char>, pos: int)
    requires
        0 <= pos,
    ensures
        1 <= line_at(src, pos) <= pos + 1,
        1 <= column_at(src, pos) <= pos + 1,
    decreases pos,
{
    if pos > 0 {
        lemma_cursor_bound(src, pos - 1);
    }
}

/// The lexer's working state: the characters of the source, a cursor into them
/// with its line and column, and the tokens read so far.
pub struct Lexer {
    pub chars: Vec<char>,
    pub pos: usize,
    pub line: u32,
    pub column: u32,
    pub tokens: Vec<Token>,
}

impl Lexer {
    /// The cursor is within the source, and line and column are those of the cursor.
    pub open spec fn wf(&self) -> bool {
        &&& self.chars.len() < u32::MAX
        &&& self.pos <= self.chars.len()
        &&& self.line == line_at(self.chars@, self.pos as int)
        &&& self.column == column_at(self.chars@, self.pos as int)
    }

    /// A lexer at the start of `source`, with no token read.
    pub fn new(source: &str) -> (lexer: Lexer)
        requires
            source@.len() < u32::MAX,
        ensures
            lexer.wf(),
            lexer.chars@ == source@,
            lexer.pos == 0,
            lexer.tokens@.len() == 0,
    {
        Lexer { chars: characters(source), pos: 0, line: 1, column: 1, tokens: Vec::new() }
    }

    /// Reads the character under the cursor and moves past it; `None` at the end.
    pub fn next_char(&mut self) -> (c: Option<char>)
        requires
            old(self).wf(),
        ensures
            final(self).wf(),
            final(self).chars == old(self).chars,
            final(self).tokens == old(self).tokens,
            match c {
                Some(ch) => old(self).pos < old(self).chars.len() && ch == old(self).chars[old(
                    self,
                ).pos as int] && final(self).pos == old(self).pos + 1,
                None => old(self).pos == old(self).chars.len() && final(self).pos == old(
                    self,
                ).pos,
            },
    {
        if self.pos >= self.chars.len() {
            return None;
        }
        let c = self.chars[self.pos];
        proof {
            lemma_cursor_bound(self.chars@, self.pos as int);
        }
        self.pos += 1;
        if c == '\n' {
            self.line += 1;
            self.column = 1;
        } else {
            self.column += 1;
        }
        Some(c)
    }

    /// The character under the cursor; `None` at the end.
    pub fn peek_char(&self) -> (c: Option<char>)
        ensures
            c == if self.pos < self.chars.len() {
                Some(self.chars[self.pos as int])
            } else {
                None
            },
    {
        if self.pos >= self.chars.len() {
            return None;
        }
        Some(self.chars[self.pos])
    }

    /// Moves the cursor past the longest run of the given kind that starts under it.
    fn skip_run(&mut self, run: Run)
        requires
            old(self).wf(),
        ensures
            final(self).wf(),
            final(self).chars == old(self).chars,
            final(self).tokens == old(self).tokens,
            final(self).pos == old(self).pos + run_len(old(self).chars@, old(self).pos as int, run),
    {
        let ghost start = self.pos as int;
        loop
            invariant
                self.wf(),
                self.chars == old(self).chars,
                self.tokens == old(self).tokens,
                start <= self.pos,
                start + run_len(self.chars@, start, run) == self.pos + run_len(
                    self.chars@,
                    self.pos as int,
                    run,
                ),
            ensures
                self.wf(),
                self.chars == old(self).chars,
                self.tokens == old(self).tokens,
                self.pos == start + run_len(self.chars@, start, run),
            decreases self.chars.len() - self.pos,
        {
            match self.peek_char() {
                Some(c) => {
                    if !continues_run(run, c, c.is_alphanumeric()) {
                        break ;
                    }
                    self.next_char();
                },
                None => {
                    break ;
                },
            }
        }
    }

    /// Moves the cursor `count` characters on.
    fn skip(&mut self, count: usize)
        requires
            old(self).wf(),
            old(self).pos + count <= old(self).chars.len(),
        ensures
            final(self).wf(),
            final(self).chars == old(self).chars,
            final(self).tokens == old(self).tokens,
            final(self).pos == old(self).pos + count,
    {
        let mut left: usize = count;
        while left > 0
            invariant
                self.wf(),
                self.chars == old(self).chars,
                self.tokens == old(self).tokens,
                self.pos + left == old(self).pos + count,
                old(self).pos + count <= old(self).chars.len(),
            decreases left,
        {
            self.next_char();
            left -= 1;
        }
    }

    /// The characters from `start` up to `end`, as a string.
    fn text(&self, start: usize, end: usize) -> (text: String)
        requires
            start <= end <= self.chars.len(),
        ensures
            text@ == self.chars@.subrange(start as int, end as int),
    {
        let mut text = String::new();
        let mut i: usize = start;
        while i < end
            invariant
                start <= i <= end <= self.chars.len(),
                text@ == self.chars@.subrange(start as int, i as int),
            decreases end - i,
        {
            text.push(self.chars[i]);
            i += 1;
        }
        text
    }

    /// Whether `word`, which has `len` characters, stands at `start`.
    fn word_at(&self, start: usize, word: &str, len: usize) -> (found: bool)
        requires
            start <= self.chars.len(),
            word@.len() == len,
        ensures
            found == has_word_at(self.chars@, start as int, word@),
    {
        if len > self.chars.len() - start {
            return false;
        }
        let here = self.text(start, start + len);
        same_text(here.as_str(), word)
    }

    /// Adds a token of the given kind that ends at the cursor.
    fn push_token(&mut self, kind: TokenKind)
        requires
            old(self).wf(),
        ensures
            final(self).wf(),
            final(self).chars == old(self).chars,
            final(self).pos == old(self).pos,
            token_views(final(self).tokens@) == token_views(old(self).tokens@).push(
                token_ending_at(kind@, old(self).chars@, old(self).pos as int),
            ),
    {
        let token = Token { kind, line: self.line, column: self.column };
        self.tokens.push(token);
        assert(token_views(self.tokens@) =~= token_views(old(self).tokens@).push(token@));
    }

    /// Reads the rest of the source into tokens and closes them with `Eof`.
    ///
    /// On success the tokens are those read before, then those of the source
    /// from the cursor on. On failure the error is the first character, from the
    /// cursor on, that begins no token; the tokens read before it are kept, and
    /// the cursor stands just past it.
    pub fn lex(&mut self) -> (result: Result<(), LexError>)
        requires
            old(self).wf(),
        ensures
            final(self).chars == old(self).chars,
            result is Ok ==> {
                &&& lex_from(old(self).chars@, old(self).pos as int) matches Ok(read)
                &&& token_views(final(self).tokens@) == token_views(old(self).tokens@) + read
                &&& final(self).pos == final(self).chars.len()
                &&& final(self).wf()
            },
            result matches Err(e) ==> lex_from(old(self).chars@, old(self).pos as int) == Err::<
                Seq<TokenView>,
                LexError,
            >(e),
            final(self).wf(),
            token_views(final(self).tokens@) == token_views(old(self).tokens@) + lex_state(
                old(self).chars@,
                old(self).pos as int,
            ).0,
            final(self).pos == lex_state(old(self).chars@, old(self).pos as int).1,
    {
        let ghost src = self.chars@;
        let ghost start = self.pos as int;
        let ghost before = token_views(self.tokens@);
        let ghost done: Seq<TokenView> = Seq::empty();
        assert(before + done =~= before);
        assert(after(done, lex_from(src, start)) == lex_from(src, start)) by {
            match lex_from(src, start) {
                Ok(tail) => {
                    assert(done + tail =~= tail);
                },
                Err(_) => {},
            }
        }
        proof {
            assert(done + lex_state(src, start).0 =~= lex_state(src, start).0);
        }
        while self.pos < self.chars.len()
            invariant
                self.wf(),
                self.chars@ == src,
                self.chars == old(self).chars,
                start == old(self).pos,
                before == token_views(old(self).tokens@),
                token_views(self.tokens@) == before + done,
                lex_from(src, start) == after(done, lex_from(src, self.pos as int)),
                lex_state(src, start) == (
                    done + lex_state(src, self.pos as int).0,
                    lex_state(src, self.pos as int).1,
                ),
            decreases self.chars.len() - self.pos,
        {
            let ghost at = self.pos as int;
            let ghost seen = done;
            proof {
                lemma_scan_advances(src, at);
            }
            let first: usize = self.pos;
            let c = self.chars[first];
            self.next_char();
            let mut found: Option<TokenKind> = None;
            match classify(c, c.is_alphabetic()) {
                CharClass::Whitespace => {},
                CharClass::CommentMarker => {
                    self.skip_run(Run::Comment);
                },
                CharClass::OpenBracket => {
                    found = Some(TokenKind::OpenBracket);
                },
                CharClass::CloseBracket => {
                    found = Some(TokenKind::CloseBracket);
                },
                CharClass::Quote => {
                    self.skip_run(Run::Text);
                    let text = self.text(first + 1, self.pos);
                    self.next_char();
                    found = Some(TokenKind::String(text));
                },
                CharClass::Colon => {
                    found = Some(TokenKind::Colon);
                },
                CharClass::Semicolon => {
                    found = Some(TokenKind::Semicolon);
                },
                CharClass::Assign => {
                    found = Some(TokenKind::Assign);
                },
                CharClass::Dash => {
                    proof {
                        reveal_strlit("--- manual ---");
                        reveal_strlit("--- auto ---");
                    }
                    if self.word_at(first, "--- manual ---", 14) {
                        self.skip(13);
                        found = Some(TokenKind::ManualModeDirective);
                    } else if self.word_at(first, "--- auto ---", 12) {
                        self.skip(11);
                        found = Some(TokenKind::AutoModeDirective);
                    } else {
                        assert(done + Seq::<TokenView>::empty() =~= done);
                        return Err(
                            LexError::UnexpectedCharacter {
                                character: c,
                                line: self.line,
                                column: self.column,
                            },
                        );
                    }
                },
                CharClass::IdentifierStart => {
                    self.skip_run(Run::Identifier);
                    let text = self.text(first, self.pos);
                    found = Some(keyword_or_identifier(text));
                },
                CharClass::Digit => {
                    self.skip_run(Run::Number);
                    let text = self.text(first, self.pos);
                    found = Some(TokenKind::Number(text));
                },
                CharClass::Unexpected => {
                    assert(done + Seq::<TokenView>::empty() =~= done);
                    return Err(
                        LexError::UnexpectedCharacter {
                            character: c,
                            line: self.line,
                            column: self.column,
                        },
                    );
                },
            }
            match found {
                Some(kind) => {
                    self.push_token(kind);
                    proof {
                        let token = token_ending_at(kind@, src, self.pos as int);
                        done = seen.push(token);
                        assert(before + done =~= (before + seen).push(token));
                        match lex_from(src, self.pos as int) {
                            Ok(tail) => {
                                assert(done + tail =~= seen + (seq![token] + tail));
                            },
                            Err(_) => {},
                        }
                        let read = lex_state(src, self.pos as int).0;
                        assert(done + read =~= seen + (seq![token] + read));
                    }
                },
                None => {},
            }
        }
        self.push_token(TokenKind::Eof);
        proof {
            let eof = token_ending_at(TokenKindView::Eof, src, src.len() as int);
            assert(before + (done + seq![eof]) =~= (before + done).push(eof));
        }
        Ok(())
    }
}

/// The kind of a word that was read: a keyword, or else an identifier with the word as its text.
fn keyword_or_identifier(text: String) -> (kind: TokenKind)
    ensures
        kind@ == word_kind(text@),
{
    if same_text(text.as_str(), "import") {
        TokenKind::Import
    } else if same_text(text.as_str(), "class") {
        TokenKind::Class
    } else if same_text(text.as_str(), "func") {
        TokenKind::Func
    } else if same_text(text.as_str(), "log") {
        TokenKind::Log
    } else if same_text(text.as_str(), "int") {
        TokenKind::IntType
    } else if same_text(text.as_str(), "string") {
        TokenKind::StringType
    } else {
        TokenKind::Identifier(text)
    }
}

/// Turns source text of fewer than `u32::MAX` characters into its tokens, the
/// last of which is `Eof`, or fails at the first character that begins no token.
pub fn tokenize(source: &str) -> (result: Result<Vec<Token>, LexError>)
    requires
        source@.len() < u32::MAX,
    ensures
        match result {
            Ok(tokens) => lex_spec(source@) == Ok::<Seq<TokenView>, LexError>(token_views(tokens@))
                && ends_in_eof(tokens@),
            Err(e) => lex_spec(source@) == Err::<Seq<TokenView>, LexError>(e),
        },
{
    let mut lexer = Lexer::new(source);
    proof {
        lemma_lex_ends_in_eof(source@, 0);
    }
    assert(token_views(lexer.tokens@) =~= Seq::empty());
    match lexer.lex() {
        Ok(_) => {
            proof {
                let read = lex_from(source@, 0)->Ok_0;
                assert(Seq::<TokenView>::empty() + read =~= read);
                assert(token_views(lexer.tokens@).last() == lexer.tokens@.last()@);
            }
            Ok(lexer.tokens)
        },
        Err(e) => Err(e),
    }
}

} // verus!
