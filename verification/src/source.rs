//! Source text as a sequence of characters: offsets, spans, and the
//! zero-based (line, character) positions that diagnostics carry.

use vstd::prelude::*;
use vstd::string::*;

verus! {

/// A zero-based (line, character) location in source text. A line ends
/// with its line feed; every Unicode scalar value counts as one character.
#[derive(Clone, Copy, Debug, PartialEq, Eq, Structural)]
pub struct Position {
    pub line: usize,
    pub character: usize,
}

impl Position {
    /// Reading order: by line, then by character.
    pub open spec fn precedes(self, other: Position) -> bool {
        self.line < other.line || (self.line == other.line && self.character < other.character)
    }

    /// `self` does not come after `other` in reading order.
    pub open spec fn at_or_before(self, other: Position) -> bool {
        !other.precedes(self)
    }

    /// Whether `self` comes before `other` in reading order.
    pub fn is_before(&self, other: &Position) -> (r: bool)
        ensures
            r == self.precedes(*other),
    {
        self.line < other.line || (self.line == other.line && self.character < other.character)
    }
}

/// A half-open range `[start, end)` of character offsets into the source.
#[derive(Clone, Copy, Debug, PartialEq, Eq, Structural)]
pub struct Span {
    pub start: usize,
    pub end: usize,
}

/// Number of line breaks among the first `i` characters.
pub open spec fn line_of(src: Seq<char>, i: int) -> nat
    decreases i,
{
    if i <= 0 || i > src.len() {
        0
    } else if src[i - 1] == '\n' {
        line_of(src, i - 1) + 1
    } else {
        line_of(src, i - 1)
    }
}

/// Number of characters between the last line break before offset `i` and `i`.
pub open spec fn column_of(src: Seq<char>, i: int) -> nat
    decreases i,
{
    if i <= 0 || i > src.len() {
        0
    } else if src[i - 1] == '\n' {
        0
    } else {
        column_of(src, i - 1) + 1
    }
}

/// The position of the character at offset `i` (or of the end of input when
/// `i` is the length of the text).
pub open spec fn position_of(src: Seq<char>, i: int) -> Position {
    Position { line: line_of(src, i) as usize, character: column_of(src, i) as usize }
}

pub(crate) proof fn lemma_position_bounds(src: Seq<char>, i: int)
    ensures
        line_of(src, i) <= i || i < 0,
        column_of(src, i) <= i || i < 0,
        line_of(src, i) <= src.len(),
        column_of(src, i) <= src.len(),
    decreases i,
{
    if i <= 0 || i > src.len() {
    } else {
        lemma_position_bounds(src, i - 1);
    }
}

/// The characters a span selects; empty when the span does not lie inside the text.
pub open spec fn text_of(src: Seq<char>, span: Span) -> Seq<char> {
    if span.start <= span.end <= src.len() {
        src.subrange(span.start as int, span.end as int)
    } else {
        Seq::empty()
    }
}

/// The characters of a string, one element per Unicode scalar value.
pub fn to_chars(s: &str) -> (r: Vec<char>)
    ensures
        r@ == s@,
{
    let mut out: Vec<char> = Vec::new();
    for c in it: s.chars()
        invariant
            out@ == it.seq().take(it.index() as int),
    {
        out.push(c);
    }
    out
}

/// Moves a position past one character.
pub(crate) fn advance(at: Position, c: char) -> (r: Position)
    requires
        at.line < usize::MAX,
        at.character < usize::MAX,
    ensures
        r == (if c == '\n' {
            Position { line: (at.line + 1) as usize, character: 0 }
        } else {
            Position { line: at.line, character: (at.character + 1) as usize }
        }),
{
    if c == '\n' {
        Position { line: at.line + 1, character: 0 }
    } else {
        Position { line: at.line, character: at.character + 1 }
    }
}

/// Whether two spans select the same characters.
pub fn same_text(chars: &Vec<char>, a: Span, b: Span) -> (r: bool)
    ensures
        r == (text_of(chars@, a) == text_of(chars@, b)),
{
    let a_ok = a.start <= a.end && a.end <= chars.len();
    let b_ok = b.start <= b.end && b.end <= chars.len();
    let a_len: usize = if a_ok { a.end - a.start } else { 0 };
    let b_len: usize = if b_ok { b.end - b.start } else { 0 };
    if a_len != b_len {
        return false;
    }
    if a_len == 0 {
        assert(text_of(chars@, a) =~= text_of(chars@, b));
        return true;
    }
    let ghost ta = text_of(chars@, a);
    let ghost tb = text_of(chars@, b);
    let mut k: usize = 0;
    while k < a_len
        invariant
            0 <= k <= a_len,
            a_len == b_len,
            a_len > 0,
            a.start <= a.end <= chars.len(),
            b.start <= b.end <= chars.len(),
            a_len == a.end - a.start,
            b_len == b.end - b.start,
            ta == text_of(chars@, a),
            tb == text_of(chars@, b),
            forall|j: int| 0 <= j < k ==> ta[j] == tb[j],
        decreases a_len - k,
    {
        if chars[a.start + k] != chars[b.start + k] {
            assert(ta[k as int] != tb[k as int]);
            return false;
        }
        k += 1;
    }
    assert(ta =~= tb);
    true
}

/// Whether a span selects exactly the characters of `word`.
pub fn text_is(chars: &Vec<char>, a: Span, word: &str) -> (r: bool)
    ensures
        r == (text_of(chars@, a) == word@),
{
    let n = word.unicode_len();
    let a_ok = a.start <= a.end && a.end <= chars.len();
    let a_len: usize = if a_ok { a.end - a.start } else { 0 };
    if a_len != n {
        return false;
    }
    if a_len == 0 {
        assert(text_of(chars@, a) =~= word@);
        return true;
    }
    let ghost ta = text_of(chars@, a);
    let mut k: usize = 0;
    while k < n
        invariant
            0 <= k <= n,
            a_len == n,
            n == word@.len(),
            a_len > 0,
            a.start <= a.end <= chars.len(),
            a_len == a.end - a.start,
            ta == text_of(chars@, a),
            forall|j: int| 0 <= j < k ==> ta[j] == word@[j],
        decreases n - k,
    {
        if chars[a.start + k] != word.get_char(k) {
            assert(ta[k as int] != word@[k as int]);
            return false;
        }
        k += 1;
    }
    assert(ta =~= word@);
    true
}

/// The characters a span selects, as a string slice of the source.
pub(crate) fn slice_of<'a>(source: &'a str, len: usize, span: Span) -> (r: &'a str)
    requires
        len == source@.len(),
    ensures
        r@ == text_of(source@, span),
{
    if span.start <= span.end && span.end <= len {
        source.substring_char(span.start, span.end)
    } else {
        let r = source.substring_char(0, 0);
        assert(r@ =~= Seq::<char>::empty());
        r
    }
}

} // verus!
