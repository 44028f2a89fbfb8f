//! Byte classes and the scanning of runs of bytes.

use vstd::prelude::*;

verus! {

/// The classes of bytes that the grammar scans runs of.
#[derive(Clone, Copy, Debug, PartialEq, Eq)]
pub enum ByteClass {
    /// A space or a tab.
    Blank,
    /// A space, a tab, a carriage return or a newline.
    Space,
    /// An ASCII letter.
    Letter,
    /// An ASCII decimal digit.
    Digit,
    /// An ASCII letter, a decimal digit or an underscore.
    Word,
    /// Any byte but a newline.
    Inline,
    /// Any byte but a double quote or a backslash.
    Plain,
}

/// An ASCII letter.
pub open spec fn is_letter(b: u8) -> bool {
    (b >= 'a' as u8 && b <= 'z' as u8) || (b >= 'A' as u8 && b <= 'Z' as u8)
}

/// An ASCII decimal digit.
pub open spec fn is_digit(b: u8) -> bool {
    b >= '0' as u8 && b <= '9' as u8
}

impl ByteClass {
    /// Whether `b` is of the class.
    pub open spec fn holds(self, b: u8) -> bool {
        match self {
            ByteClass::Blank => b == ' ' as u8 || b == '\t' as u8,
            ByteClass::Space => b == ' ' as u8 || b == '\t' as u8 || b == '\r' as u8 || b
                == '\n' as u8,
            ByteClass::Letter => is_letter(b),
            ByteClass::Digit => is_digit(b),
            ByteClass::Word => is_letter(b) || is_digit(b) || b == '_' as u8,
            ByteClass::Inline => b != '\n' as u8,
            ByteClass::Plain => b != '"' as u8 && b != '\\' as u8,
        }
    }

    /// Tests whether `b` is of the class.
    pub fn test(&self, b: u8) -> (r: bool)
        ensures
            r == self.holds(b),
    {
        match self {
            ByteClass::Blank => b == ' ' as u8 || b == '\t' as u8,
            ByteClass::Space => b == ' ' as u8 || b == '\t' as u8 || b == '\r' as u8 || b
                == '\n' as u8,
            ByteClass::Letter => letter(b),
            ByteClass::Digit => b >= '0' as u8 && b <= '9' as u8,
            ByteClass::Word => letter(b) || (b >= '0' as u8 && b <= '9' as u8) || b == '_' as u8,
            ByteClass::Inline => b != '\n' as u8,
            ByteClass::Plain => b != '"' as u8 && b != '\\' as u8,
        }
    }
}

/// Tests whether `b` is an ASCII letter.
pub fn letter(b: u8) -> (r: bool)
    ensures
        r == is_letter(b),
{
    (b >= 'a' as u8 && b <= 'z' as u8) || (b >= 'A' as u8 && b <= 'Z' as u8)
}

/// The end of the longest run of bytes of `class` that starts at `i`.
pub open spec fn span_end(s: Seq<u8>, i: int, class: ByteClass) -> int
    decreases s.len() - i,
{
    if 0 <= i < s.len() && class.holds(s[i]) {
        span_end(s, i + 1, class)
    } else {
        i
    }
}

/// A run ends inside the text, every byte of it is of the class, and the
/// byte after it is not.
pub proof fn lemma_span_end(s: Seq<u8>, i: int, class: ByteClass)
    requires
        0 <= i <= s.len(),
    ensures
        i <= span_end(s, i, class) <= s.len(),
        forall|k: int| i <= k < span_end(s, i, class) ==> class.holds(#[trigger] s[k]),
        span_end(s, i, class) < s.len() ==> !class.holds(s[span_end(s, i, class)]),
    decreases s.len() - i,
{
    if i < s.len() && class.holds(s[i]) {
        lemma_span_end(s, i + 1, class);
    }
}

/// Scans the longest run of bytes of `class` from `i` and returns its end.
pub fn scan(input: &[u8], i: usize, class: ByteClass) -> (j: usize)
    ensures
        j == span_end(input@, i as int, class),
        i <= j,
        i <= input@.len() ==> j <= input@.len(),
        input@.len() <= usize::MAX,
{
    if i > input.len() {
        return i;
    }
    let mut j: usize = i;
    while j < input.len() && class.test(input[j])
        invariant
            i <= j <= input@.len(),
            span_end(input@, i as int, class) == span_end(input@, j as int, class),
        decreases input@.len() - j,
    {
        j = j + 1;
    }
    j
}

/// Whether the byte `b` stands in `s` at `i`.
pub open spec fn at(s: Seq<u8>, i: int, b: u8) -> bool {
    0 <= i < s.len() && s[i] == b
}

/// Tests whether the byte `b` stands in `input` at `i`.
pub fn peek(input: &[u8], i: usize, b: u8) -> (r: bool)
    ensures
        r == at(input@, i as int, b),
        input@.len() <= usize::MAX,
{
    i < input.len() && input[i] == b
}

/// Whether the bytes of `word` stand in `s` at `i`.
pub open spec fn starts_with(s: Seq<u8>, i: int, word: Seq<u8>) -> bool {
    0 <= i && i + word.len() <= s.len() && s.subrange(i, i + word.len()) == word
}

/// Tests whether `word` stands in `input` at `i`.
pub fn begins(input: &[u8], i: usize, word: &[u8]) -> (r: bool)
    ensures
        r == starts_with(input@, i as int, word@),
        input@.len() <= usize::MAX,
{
    if i > input.len() || word.len() > input.len() - i {
        return false;
    }
    let mut k: usize = 0;
    while k < word.len()
        invariant
            i + word@.len() <= input@.len() <= usize::MAX,
            k <= word@.len(),
            forall|m: int| 0 <= m < k ==> input@[i + m] == word@[m],
        decreases word@.len() - k,
    {
        if input[i + k] != word[k] {
            assert(input@.subrange(i as int, i + word@.len())[k as int] != word@[k as int]);
            return false;
        }
        k = k + 1;
    }
    assert(input@.subrange(i as int, i + word@.len()) =~= word@);
    true
}

/// The first offset at or after `from` where `word` stands in `s`, or -1
/// where it stands nowhere from there on. An empty word is never found.
pub open spec fn find(s: Seq<u8>, from: int, word: Seq<u8>) -> int
    decreases s.len() - from,
{
    if from < 0 || word.len() == 0 || from + word.len() > s.len() {
        -1
    } else if starts_with(s, from, word) {
        from
    } else {
        find(s, from + 1, word)
    }
}

/// What `find` returns is the first place where the word stands.
pub proof fn lemma_find(s: Seq<u8>, from: int, word: Seq<u8>)
    requires
        0 <= from,
        word.len() > 0,
    ensures
        find(s, from, word) == -1 || (from <= find(s, from, word) && starts_with(
            s,
            find(s, from, word),
            word,
        )),
        forall|k: int|
            from <= k && (k < find(s, from, word) || find(s, from, word) == -1) ==> !starts_with(
                s,
                k,
                word,
            ),
    decreases s.len() - from,
{
    if from + word.len() > s.len() {
    } else if starts_with(s, from, word) {
    } else {
        lemma_find(s, from + 1, word);
    }
}

/// Searches `input` from `from` on for the first place where `word` stands.
pub fn search(input: &[u8], from: usize, word: &[u8]) -> (r: Option<usize>)
    ensures
        match r {
            Some(k) => k == find(input@, from as int, word@) && k + word@.len() <= input@.len(),
            None => find(input@, from as int, word@) == -1,
        },
        input@.len() <= usize::MAX,
{
    let n: usize = input.len();
    let w: usize = word.len();
    if w == 0 || w > n || from > n - w {
        return None;
    }
    let mut k: usize = from;
    while k <= n - w
        invariant
            from <= k,
            n == input@.len(),
            w == word@.len(),
            0 < w <= n,
            find(input@, from as int, word@) == find(input@, k as int, word@),
        decreases n - k,
    {
        if begins(input, k, word) {
            return Some(k);
        }
        k = k + 1;
    }
    None
}

} // verus!
