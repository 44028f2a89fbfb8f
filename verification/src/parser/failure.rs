//! Where and why parsing stopped.

use crate::parser::expression::slice_string;
use crate::parser::lexical::{scan, span_end, ByteClass};
use crate::text::decoded;
use vstd::prelude::*;

verus! {

/// A failure to parse: the place in the text, the line that holds it, a
/// pointer to the column, and what was found there.
#[derive(Debug, PartialEq, Eq)]
pub struct ParseFailure {
    /// The offset, in bytes, at which matching stopped.
    pub offset: usize,
    /// The line of that offset, counted from 1.
    pub line: usize,
    /// The column of that offset in its line, counted from 1 in bytes.
    pub column: usize,
    /// The whole text of that line, without its newline.
    pub source_line: String,
    /// Spaces up to the column, then `^`.
    pub pointer: String,
    /// What stood at the offset.
    pub message: String,
}

/// The mathematical model of a [`ParseFailure`].
pub struct FailureModel {
    pub offset: int,
    pub line: int,
    pub column: int,
    pub source_line: Seq<char>,
    pub pointer: Seq<char>,
    pub message: Seq<char>,
}

impl View for ParseFailure {
    type V = FailureModel;

    open spec fn view(&self) -> FailureModel {
        FailureModel {
            offset: self.offset as int,
            line: self.line as int,
            column: self.column as int,
            source_line: self.source_line@,
            pointer: self.pointer@,
            message: self.message@,
        }
    }
}

/// The number of newlines among the first `offset` bytes of `s`.
pub open spec fn newlines_before(s: Seq<u8>, offset: int) -> int
    decreases offset,
{
    if offset <= 0 || offset > s.len() {
        0
    } else if s[offset - 1] == '\n' as u8 {
        newlines_before(s, offset - 1) + 1
    } else {
        newlines_before(s, offset - 1)
    }
}

/// The offset at which the line that holds `offset` starts: after the last
/// newline before `offset`, or at the start of the text.
pub open spec fn line_start(s: Seq<u8>, offset: int) -> int
    decreases offset,
{
    if offset <= 0 || offset > s.len() {
        0
    } else if s[offset - 1] == '\n' as u8 {
        offset
    } else {
        line_start(s, offset - 1)
    }
}

/// `n` as far as a `usize` can hold it.
pub open spec fn capped(n: int) -> int {
    if n > usize::MAX {
        usize::MAX as int
    } else {
        n
    }
}

/// `count` spaces.
pub open spec fn spaces(count: int) -> Seq<char> {
    Seq::new(count as nat, |k: int| ' ')
}

/// Whether a byte is a printable ASCII character.
pub open spec fn is_printable(b: u8) -> bool {
    b >= ' ' as u8 && b <= '~' as u8
}

/// What the failure says of the byte at which matching stopped.
pub open spec fn diagnostic(s: Seq<u8>, offset: int) -> Seq<char> {
    if !(0 <= offset < s.len()) {
        "unexpected end of input"@
    } else if is_printable(s[offset]) {
        "unexpected character "@.push(s[offset] as char)
    } else {
        "unexpected byte"@
    }
}

/// The failure that stands for matching having stopped at `offset`: the
/// line is one more than the newlines before the offset, the column one more
/// than the bytes between the start of the line and the offset.
pub open spec fn failure_at(s: Seq<u8>, offset: int) -> FailureModel {
    let start = line_start(s, offset);
    FailureModel {
        offset,
        line: capped(newlines_before(s, offset) + 1),
        column: capped(offset - start + 1),
        source_line: decoded(s.subrange(start, span_end(s, start, ByteClass::Inline))),
        pointer: spaces(offset - start).push('^'),
        message: diagnostic(s, offset),
    }
}

/// A failure lies inside the text: its line is at least 1 and at most one
/// more than the newlines of the text, its line starts at or before the
/// offset, and its column is at least 1.
pub proof fn lemma_failure_inside(s: Seq<u8>, offset: int)
    requires
        0 <= offset <= s.len(),
    ensures
        0 <= newlines_before(s, offset) <= newlines_before(s, s.len() as int),
        0 <= line_start(s, offset) <= offset,
        1 <= failure_at(s, offset).line,
        1 <= failure_at(s, offset).column,
        forall|k: int| line_start(s, offset) <= k < offset ==> s[k] != '\n' as u8,
        line_start(s, offset) > 0 ==> s[line_start(s, offset) - 1] == '\n' as u8,
{
    lemma_line_start(s, offset);
    lemma_newlines_grow(s, offset, s.len() as int);
}

proof fn lemma_line_start(s: Seq<u8>, offset: int)
    requires
        0 <= offset <= s.len(),
    ensures
        0 <= line_start(s, offset) <= offset,
        forall|k: int| line_start(s, offset) <= k < offset ==> s[k] != '\n' as u8,
        line_start(s, offset) > 0 ==> s[line_start(s, offset) - 1] == '\n' as u8,
    decreases offset,
{
    if offset > 0 && s[offset - 1] != '\n' as u8 {
        lemma_line_start(s, offset - 1);
    }
}

proof fn lemma_newlines_grow(s: Seq<u8>, a: int, b: int)
    requires
        0 <= a <= b <= s.len(),
    ensures
        0 <= newlines_before(s, a) <= newlines_before(s, b) <= b,
    decreases b,
{
    if a < b {
        lemma_newlines_grow(s, a, b - 1);
    } else if a > 0 {
        lemma_newlines_grow(s, a - 1, a - 1);
    }
}

/// Counts the newlines among the first `offset` bytes.
fn count_newlines(input: &[u8], offset: usize) -> (count: usize)
    ensures
        count == newlines_before(input@, offset as int),
{
    if offset > input.len() {
        return 0;
    }
    let mut count: usize = 0;
    let mut k: usize = 0;
    while k < offset
        invariant
            k <= offset <= input@.len(),
            count == newlines_before(input@, k as int),
            count <= k,
        decreases offset - k,
    {
        if input[k] == '\n' as u8 {
            count = count + 1;
        }
        k = k + 1;
    }
    count
}

/// Finds the start of the line that holds `offset`.
fn find_line_start(input: &[u8], offset: usize) -> (start: usize)
    ensures
        start == line_start(input@, offset as int),
        start <= offset,
        start <= input@.len(),
{
    if offset > input.len() {
        return 0;
    }
    let mut k: usize = offset;
    while k > 0 && input[k - 1] != '\n' as u8
        invariant
            k <= offset <= input@.len(),
            line_start(input@, offset as int) == line_start(input@, k as int),
        decreases k,
    {
        k = k - 1;
    }
    k
}

/// One more than `n`, as far as a `usize` can hold it.
fn successor(n: usize) -> (r: usize)
    ensures
        r == capped(n + 1),
{
    if n < usize::MAX {
        n + 1
    } else {
        n
    }
}

/// Writes `count` spaces and a caret.
fn pointer_to(count: usize) -> (r: String)
    ensures
        r@ == spaces(count as int).push('^'),
{
    let mut out = String::new();
    let mut k: usize = 0;
    while k < count
        invariant
            k <= count,
            out@ == spaces(k as int),
        decreases count - k,
    {
        out.push(' ');
        k = k + 1;
        assert(out@ =~= spaces(k as int));
    }
    assert(out@ =~= spaces(count as int));
    out.push('^');
    out
}

/// Says what stands at `offset`.
fn diagnose(input: &[u8], offset: usize) -> (r: String)
    ensures
        r@ == diagnostic(input@, offset as int),
{
    if offset >= input.len() {
        "unexpected end of input".to_owned()
    } else if input[offset] >= ' ' as u8 && input[offset] <= '~' as u8 {
        let mut out = "unexpected character ".to_owned();
        out.push(input[offset] as char);
        out
    } else {
        "unexpected byte".to_owned()
    }
}

/// Describes the failure of matching at `offset`.
pub fn describe(input: &[u8], offset: usize) -> (r: ParseFailure)
    ensures
        r@ == failure_at(input@, offset as int),
{
    let start = find_line_start(input, offset);
    let end = scan(input, start, ByteClass::Inline);
    ParseFailure {
        offset,
        line: successor(count_newlines(input, offset)),
        column: successor(offset - start),
        source_line: slice_string(input, start, end),
        pointer: pointer_to(offset - start),
        message: diagnose(input, offset),
    }
}

} // verus!
