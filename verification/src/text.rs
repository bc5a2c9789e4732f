//! Work on text: its characters, its lines, taking characters away from its
//! ends, cutting a part out of it, and searching it for a piece of text.

use vstd::prelude::*;
use vstd::string::StringSliceAdditionalSpecFns;
use vstd::utf8::is_char_boundary;

verus! {

/// `String::push` appends one character to the end of the string.
pub assume_specification[ std::string::String::push ](text: &mut std::string::String, c: char)
    ensures
        final(text)@ == old(text)@.push(c),
;

/// The characters of a text, in order.
pub fn characters(text: &str) -> (chars: Vec<char>)
    ensures
        chars@ == text@,
{
    let mut chars: Vec<char> = Vec::new();
    for c in iter: text.chars()
        invariant
            chars@ == text@.take(iter.index()),
            iter.seq() == text@,
    {
        chars.push(c);
    }
    assert(chars@ =~= text@);
    chars
}

/// Whether `c` has the Unicode property White_Space, as `char::is_whitespace` tells.
pub uninterp spec fn unicode_white_space(c: char) -> bool;

/// `char::is_whitespace` is a function of the character alone; its result is
/// given the name [`unicode_white_space`].
pub assume_specification[ char::is_whitespace ](c: char) -> (yes: bool)
    ensures
        yes == unicode_white_space(c),
;

/// What is taken away from the ends of a text.
#[derive(Debug, Clone, Copy, PartialEq, Eq, Structural)]
pub enum Strip {
    /// Double quotes.
    Quotes,
    /// White space.
    WhiteSpace,
}

/// Whether a character is one that is taken away.
pub open spec fn strips(kind: Strip, c: char) -> bool {
    match kind {
        Strip::Quotes => c == '"',
        Strip::WhiteSpace => unicode_white_space(c),
    }
}

/// The number of characters to take away that a text begins with.
pub open spec fn leading(kind: Strip, text: Seq<char>) -> nat
    decreases text.len(),
{
    if text.len() > 0 && strips(kind, text[0]) {
        1 + leading(kind, text.subrange(1, text.len() as int))
    } else {
        0
    }
}

/// The number of characters to take away that a text ends with.
pub open spec fn trailing(kind: Strip, text: Seq<char>) -> nat
    decreases text.len(),
{
    if text.len() > 0 && strips(kind, text.last()) {
        1 + trailing(kind, text.drop_last())
    } else {
        0
    }
}

/// A text without the characters to take away at its beginning and at its end.
pub open spec fn stripped(kind: Strip, text: Seq<char>) -> Seq<char> {
    if leading(kind, text) == text.len() {
        Seq::empty()
    } else {
        text.subrange(leading(kind, text) as int, text.len() - trailing(kind, text))
    }
}

/// A text without the white space at its beginning and at its end.
pub open spec fn trimmed(text: Seq<char>) -> Seq<char> {
    stripped(Strip::WhiteSpace, text)
}

/// The characters that a text begins with and that are taken away are such,
/// and what follows them is none.
pub proof fn lemma_leading(kind: Strip, text: Seq<char>)
    ensures
        leading(kind, text) <= text.len(),
        forall|i: int| 0 <= i < leading(kind, text) ==> strips(kind, text[i]),
        leading(kind, text) < text.len() ==> !strips(kind, text[leading(kind, text) as int]),
    decreases text.len(),
{
    if text.len() > 0 && strips(kind, text[0]) {
        let rest = text.subrange(1, text.len() as int);
        lemma_leading(kind, rest);
        assert forall|i: int| 0 <= i < leading(kind, text) implies strips(kind, text[i]) by {
            if i > 0 {
                assert(text[i] == rest[i - 1]);
            }
        }
        if leading(kind, text) < text.len() {
            assert(text[leading(kind, text) as int] == rest[leading(kind, rest) as int]);
        }
    }
}

/// The characters that a text ends with and that are taken away are such.
pub proof fn lemma_trailing(kind: Strip, text: Seq<char>)
    ensures
        trailing(kind, text) <= text.len(),
        forall|i: int|
            text.len() - trailing(kind, text) <= i < text.len() ==> strips(kind, text[i]),
    decreases text.len(),
{
    if text.len() > 0 && strips(kind, text.last()) {
        let rest = text.drop_last();
        lemma_trailing(kind, rest);
        assert forall|i: int| text.len() - trailing(kind, text) <= i < text.len() implies strips(
            kind,
            text[i],
        ) by {
            if i < text.len() - 1 {
                assert(text[i] == rest[i]);
            }
        }
    }
}

/// Tells whether a character is taken away, from the character and the answer
/// of `char::is_whitespace`.
pub fn is_stripped(kind: Strip, c: char, white_space: bool) -> (yes: bool)
    ensures
        white_space == unicode_white_space(c) ==> yes == strips(kind, c),
        yes == match kind {
            Strip::Quotes => c == '"',
            Strip::WhiteSpace => white_space,
        },
{
    match kind {
        Strip::Quotes => c == '"',
        Strip::WhiteSpace => white_space,
    }
}

/// Takes the characters of the given kind away from both ends of a text.
pub fn strip(kind: Strip, text: &str) -> (inner: String)
    ensures
        inner@ == stripped(kind, text@),
{
    let chars = characters(text);
    assert(chars@.subrange(0, chars.len() as int) =~= chars@);
    let mut start: usize = 0;
    while start < chars.len() && is_stripped(kind, chars[start], chars[start].is_whitespace())
        invariant
            start <= chars.len(),
            leading(kind, chars@) == start + leading(
                kind,
                chars@.subrange(start as int, chars.len() as int),
            ),
        decreases chars.len() - start,
    {
        proof {
            let rest = chars@.subrange(start as int, chars.len() as int);
            assert(rest.subrange(1, rest.len() as int) =~= chars@.subrange(
                start + 1,
                chars.len() as int,
            ));
        }
        start += 1;
    }
    assert(chars@.subrange(0, chars.len() as int) =~= chars@);
    let mut inner = String::new();
    if start == chars.len() {
        return inner;
    }
    let mut end: usize = chars.len();
    while end > 0 && is_stripped(kind, chars[end - 1], chars[end - 1].is_whitespace())
        invariant
            end <= chars.len(),
            trailing(kind, chars@) == chars.len() - end + trailing(
                kind,
                chars@.subrange(0, end as int),
            ),
        decreases end,
    {
        proof {
            let rest = chars@.subrange(0, end as int);
            assert(rest.drop_last() =~= chars@.subrange(0, end - 1));
        }
        end -= 1;
    }
    proof {
        lemma_leading(kind, chars@);
        lemma_trailing(kind, chars@);
    }
    let mut i: usize = start;
    while i < end
        invariant
            start <= i <= end <= chars.len(),
            inner@ == chars@.subrange(start as int, i as int),
        decreases end - i,
    {
        inner.push(chars[i]);
        i += 1;
    }
    inner
}

/// Whether `piece` stands somewhere in `text`.
pub open spec fn contains_text(text: Seq<char>, piece: Seq<char>) -> bool {
    exists|i: int| 0 <= i <= text.len() - piece.len() && #[trigger] text.subrange(
        i,
        i + piece.len(),
    ) == piece
}

/// Whether the bytes from `start` up to `end` can be cut out of the bytes of a
/// text: the range lies within them and begins and ends between characters.
pub open spec fn can_slice(bytes: Seq<u8>, start: int, end: int) -> bool {
    0 <= start <= end <= bytes.len() && is_char_boundary(bytes, start) && is_char_boundary(
        bytes,
        end,
    )
}

/// `str::get` on a range of bytes gives the part of the text in that range,
/// and `None` where the range does not lie within the text or does not begin
/// and end between characters.
#[verifier::external_body]
pub(crate) fn slice(text: &str, start: usize, end: usize) -> (part: Option<&str>)
    ensures
        match part {
            Some(p) => can_slice(text.spec_bytes(), start as int, end as int) && p.spec_bytes()
                == text.spec_bytes().subrange(start as int, end as int),
            None => !can_slice(text.spec_bytes(), start as int, end as int),
        },
{
    text.get(start..end)
}

/// `str::starts_with` tells whether a text begins with another.
#[verifier::external_body]
pub(crate) fn starts_with(text: &str, prefix: &str) -> (yes: bool)
    ensures
        yes == prefix@.is_prefix_of(text@),
{
    text.starts_with(prefix)
}

/// `str::ends_with` tells whether a text ends with another.
#[verifier::external_body]
pub(crate) fn ends_with(text: &str, suffix: &str) -> (yes: bool)
    ensures
        yes == suffix@.is_suffix_of(text@),
{
    text.ends_with(suffix)
}

/// `str::contains` tells whether a piece of text stands somewhere in a text.
#[verifier::external_body]
pub(crate) fn contains(text: &str, piece: &str) -> (yes: bool)
    ensures
        yes == contains_text(text@, piece@),
{
    text.contains(piece)
}

/// Tells whether two texts hold the same characters.
pub fn same_text(a: &str, b: &str) -> (same: bool)
    ensures
        same == (a@ == b@),
{
    let left = a.as_bytes();
    let right = b.as_bytes();
    proof {
        vstd::utf8::encode_utf8_decode_utf8(a@);
        vstd::utf8::encode_utf8_decode_utf8(b@);
    }
    if left.len() != right.len() {
        return false;
    }
    let mut i: usize = 0;
    while i < left.len()
        invariant
            i <= left.len(),
            left.len() == right.len(),
            left@ == a.spec_bytes(),
            right@ == b.spec_bytes(),
            forall|k: int| 0 <= k < i ==> left@[k] == right@[k],
        decreases left.len() - i,
    {
        if left[i] != right[i] {
            return false;
        }
        i += 1;
    }
    assert(left@ =~= right@);
    true
}

/// The number of line feeds among the first `offset` bytes.
pub open spec fn line_feeds_before(bytes: Seq<u8>, offset: int) -> nat
    decreases offset,
{
    if offset <= 0 {
        0
    } else if bytes[offset - 1] == 10 {
        line_feeds_before(bytes, offset - 1) + 1
    } else {
        line_feeds_before(bytes, offset - 1)
    }
}

/// The number of the line, counted from 1, that the byte at `offset` stands in.
pub fn line_number(code: &str, offset: usize) -> (line: usize)
    requires
        offset <= code.spec_bytes().len(),
        offset < usize::MAX,
    ensures
        line == 1 + line_feeds_before(code.spec_bytes(), offset as int),
{
    let bytes = code.as_bytes();
    let mut line: usize = 1;
    let mut i: usize = 0;
    while i < offset
        invariant
            i <= offset <= bytes.len(),
            offset < usize::MAX,
            bytes@ == code.spec_bytes(),
            line == 1 + line_feeds_before(bytes@, i as int),
            line <= i + 1,
        decreases offset - i,
    {
        if bytes[i] == 10 {
            line += 1;
        }
        i += 1;
    }
    line
}

} // verus!
