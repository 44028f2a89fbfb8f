//! A script may end with or without a newline: a text that does not end
//! with one is the same script as the text with one added.

use crate::parser::grammar::{
    array, assign, body, boolean, call, call_statement, code_unit, comment, empty_line, escape,
    expr, for_loop, heredoc, heredoc_close, heredoc_open, ident, integer, item, items, line_end,
    list, list_items, loop_close, loop_head, past_newline, remote_block, remote_line,
    remote_lines, remote_single, script, string, string_body, variable, word_false, word_for,
    word_in, word_let, word_true,
};
use crate::parser::lexical::{
    at, find, lemma_find, lemma_span_end, span_end, starts_with, ByteClass,
};
use crate::parser::ItemView;
use vstd::prelude::*;

verus! {

/// Whether `longer` is `text` with a newline added, `text` being a text
/// that does not end with one.
pub open spec fn adds_newline(text: Seq<u8>, longer: Seq<u8>) -> bool {
    &&& text.len() > 0
    &&& text.last() != '\n' as u8
    &&& longer == text.push('\n' as u8)
}

/// Whether a word holds no newline.
pub open spec fn on_one_line(word: Seq<u8>) -> bool {
    forall|k: int| 0 <= k < word.len() ==> word[k] != '\n' as u8
}

/// The offset in the longer text that stands for an offset in the text:
/// the end of the text stands before the added newline or after it.
pub open spec fn past_end(text: Seq<u8>, offset: int) -> int {
    if offset == text.len() {
        offset + 1
    } else {
        offset
    }
}

proof fn lemma_span_same(s: Seq<u8>, t: Seq<u8>, i: int, class: ByteClass)
    requires
        adds_newline(s, t),
        0 <= i <= s.len(),
    ensures
        !class.holds('\n' as u8) ==> span_end(t, i, class) == span_end(s, i, class),
        class.holds('\n' as u8) ==> span_end(t, i, class) == past_end(s, span_end(s, i, class)),
    decreases s.len() - i,
{
    if i < s.len() {
        assert(t[i] == s[i]);
        if class.holds(s[i]) {
            lemma_span_same(s, t, i + 1, class);
        }
    } else {
        assert(t[i] == '\n' as u8);
        if class.holds('\n' as u8) {
            assert(span_end(t, i + 1, class) == i + 1);
        }
    }
}

proof fn lemma_starts_same(s: Seq<u8>, t: Seq<u8>, i: int, word: Seq<u8>)
    requires
        adds_newline(s, t),
        0 <= i <= s.len(),
        on_one_line(word),
        word.len() > 0,
    ensures
        starts_with(t, i, word) == starts_with(s, i, word),
{
    if i + word.len() <= s.len() {
        assert(t.subrange(i, i + word.len()) =~= s.subrange(i, i + word.len()));
    } else if i + word.len() == t.len() {
        assert(t.subrange(i, i + word.len())[word.len() - 1] == '\n' as u8);
    }
}

proof fn lemma_find_same(s: Seq<u8>, t: Seq<u8>, from: int, word: Seq<u8>)
    requires
        adds_newline(s, t),
        0 <= from <= s.len(),
        on_one_line(word),
        word.len() > 0,
    ensures
        find(t, from, word) == find(s, from, word),
    decreases s.len() - from,
{
    lemma_starts_same(s, t, from, word);
    if from + word.len() > s.len() {
        if from + word.len() <= t.len() {
            assert(!starts_with(t, from, word));
            if from < s.len() {
                lemma_find_same(s, t, from + 1, word);
            } else {
                assert(find(t, from + 1, word) == -1);
            }
        }
    } else if !starts_with(s, from, word) {
        lemma_find_same(s, t, from + 1, word);
    }
}

proof fn lemma_words_on_one_line()
    ensures
        on_one_line(word_let()),
        on_one_line(word_for()),
        on_one_line(word_in()),
        on_one_line(word_true()),
        on_one_line(word_false()),
        on_one_line(heredoc_open()),
        on_one_line(heredoc_close()),
{
}

/// Whether an expression rule says the same of the text and of the longer
/// text: the same match, ending at the same offset, or a failure in both.
pub open spec fn same_match<T>(
    in_text: Result<(T, int), int>,
    in_longer: Result<(T, int), int>,
) -> bool {
    match in_text {
        Ok(_) => in_longer == in_text,
        Err(_) => in_longer is Err,
    }
}

proof fn lemma_ident_same(s: Seq<u8>, t: Seq<u8>, i: int)
    requires
        adds_newline(s, t),
        0 <= i <= s.len(),
    ensures
        same_match(ident(s, i), ident(t, i)),
        ident(s, i) matches Ok((_, next)) ==> i < next <= s.len(),
{
    if i < s.len() {
        assert(t[i] == s[i]);
        lemma_span_same(s, t, i + 1, ByteClass::Word);
        lemma_span_end(s, i + 1, ByteClass::Word);
        let end = span_end(s, i + 1, ByteClass::Word);
        assert(t.subrange(i, end) =~= s.subrange(i, end));
    }
}

proof fn lemma_simple_same(s: Seq<u8>, t: Seq<u8>, i: int)
    requires
        adds_newline(s, t),
        0 <= i <= s.len(),
    ensures
        same_match(integer(s, i), integer(t, i)),
        same_match(boolean(s, i), boolean(t, i)),
        same_match(variable(s, i), variable(t, i)),
        same_match(heredoc(s, i), heredoc(t, i)),
{
    lemma_words_on_one_line();
    // integers
    lemma_span_same(s, t, i, ByteClass::Digit);
    lemma_span_end(s, i, ByteClass::Digit);
    let digits = span_end(s, i, ByteClass::Digit);
    assert(t.subrange(i, digits) =~= s.subrange(i, digits));
    // booleans
    lemma_starts_same(s, t, i, word_true());
    lemma_starts_same(s, t, i, word_false());
    // variables
    if i < s.len() {
        assert(t[i] == s[i]);
        lemma_ident_same(s, t, i + 1);
    }
    // heredocs
    lemma_starts_same(s, t, i, heredoc_open());
    if starts_with(s, i, heredoc_open()) {
        lemma_span_same(s, t, i + 3, ByteClass::Letter);
        lemma_span_end(s, i + 3, ByteClass::Letter);
        let start = span_end(s, i + 3, ByteClass::Letter);
        if i + 3 < start {
            assert(t.subrange(i + 3, start) =~= s.subrange(i + 3, start));
            let closer = s.subrange(i + 3, start) + heredoc_close();
            assert(on_one_line(closer)) by {
                assert forall|k: int| 0 <= k < closer.len() implies closer[k] != '\n' as u8 by {
                    if k < start - (i + 3) {
                        assert(closer[k] == s[i + 3 + k]);
                        assert(ByteClass::Letter.holds(s[i + 3 + k]));
                    }
                }
            }
            lemma_find_same(s, t, start, closer);
            lemma_find(s, start, closer);
            let end = find(s, start, closer);
            if end >= 0 {
                assert(t.subrange(start, end) =~= s.subrange(start, end));
            }
        }
    }
}

proof fn lemma_code_unit_same(s: Seq<u8>, t: Seq<u8>, i: int)
    requires
        adds_newline(s, t),
        0 <= i <= s.len(),
    ensures
        code_unit(t, i) == code_unit(s, i),
{
    if i + 6 <= s.len() {
        assert(t[i] == s[i]);
        assert(t[i + 1] == s[i + 1]);
        assert(t[i + 2] == s[i + 2]);
        assert(t[i + 3] == s[i + 3]);
        assert(t[i + 4] == s[i + 4]);
        assert(t[i + 5] == s[i + 5]);
    } else if i + 6 == t.len() {
        assert(t[i + 5] == '\n' as u8);
    }
}

proof fn lemma_escape_same(s: Seq<u8>, t: Seq<u8>, i: int)
    requires
        adds_newline(s, t),
        0 <= i < s.len(),
    ensures
        escape(t, i) == escape(s, i),
        escape(s, i) matches Ok((_, next)) ==> i < next <= s.len(),
{
    reveal(escape);
    lemma_code_unit_same(s, t, i);
    if i + 6 <= s.len() {
        lemma_code_unit_same(s, t, i + 6);
    }
    if i + 1 < s.len() {
        assert(t[i + 1] == s[i + 1]);
    } else {
        assert(t[i + 1] == '\n' as u8);
    }
}

proof fn lemma_string_body_same(s: Seq<u8>, t: Seq<u8>, i: int)
    requires
        adds_newline(s, t),
        0 <= i <= s.len(),
    ensures
        same_match(string_body(s, i), string_body(t, i)),
        same_match(string_body(s, i), string_body(t, past_end(s, i))),
        string_body(s, i) matches Ok((_, next)) ==> i < next <= s.len(),
    decreases s.len() - i,
{
    if i < s.len() {
        assert(t[i] == s[i]);
        if s[i] == '"' as u8 {
        } else if s[i] == '\\' as u8 {
            lemma_escape_same(s, t, i);
            match escape(s, i) {
                Ok((_, next)) => {
                    lemma_string_body_same(s, t, next);
                },
                Err(_) => {},
            }
        } else {
            lemma_span_same(s, t, i + 1, ByteClass::Plain);
            lemma_span_end(s, i + 1, ByteClass::Plain);
            let end = span_end(s, i + 1, ByteClass::Plain);
            lemma_string_body_same(s, t, end);
            if end < s.len() {
                assert(t.subrange(i, end) =~= s.subrange(i, end));
            }
        }
    } else {
        assert(t[i] == '\n' as u8);
        assert(span_end(t, i + 1, ByteClass::Plain) == i + 1);
    }
}

proof fn lemma_string_same(s: Seq<u8>, t: Seq<u8>, i: int)
    requires
        adds_newline(s, t),
        0 <= i <= s.len(),
    ensures
        same_match(string(s, i), string(t, i)),
{
    if i < s.len() {
        assert(t[i] == s[i]);
        lemma_string_body_same(s, t, i + 1);
    }
}

/// No expression starts at the end of a text or after it.
proof fn lemma_nothing_at_the_end(s: Seq<u8>, i: int, close: u8)
    requires
        i >= s.len(),
    ensures
        expr(s, i) is Err,
        list_items(s, i, close) is Err,
{
    assert(span_end(s, i, ByteClass::Digit) == i);
}

/// Every expression rule says the same of the text and of the longer text.
proof fn lemma_expr_same(s: Seq<u8>, t: Seq<u8>, i: int)
    requires
        adds_newline(s, t),
        0 <= i <= s.len(),
    ensures
        same_match(expr(s, i), expr(t, i)),
        expr(s, i) matches Ok((_, next)) ==> i < next <= s.len(),
    decreases s.len() - i, 1nat,
{
    lemma_string_same(s, t, i);
    lemma_simple_same(s, t, i);
    lemma_array_same(s, t, i);
    lemma_call_same(s, t, i);
    crate::parser::laws::lemma_expr_within(s, i);
}

proof fn lemma_array_same(s: Seq<u8>, t: Seq<u8>, i: int)
    requires
        adds_newline(s, t),
        0 <= i <= s.len(),
    ensures
        same_match(array(s, i), array(t, i)),
    decreases s.len() - i, 0nat,
{
    if i < s.len() {
        assert(t[i] == s[i]);
        if s[i] == '[' as u8 {
            lemma_list_same(s, t, i + 1, ']' as u8);
        }
    }
}

proof fn lemma_call_same(s: Seq<u8>, t: Seq<u8>, i: int)
    requires
        adds_newline(s, t),
        0 <= i <= s.len(),
    ensures
        same_match(call(s, i), call(t, i)),
    decreases s.len() - i, 0nat,
{
    lemma_ident_same(s, t, i);
    match ident(s, i) {
        Ok((_, open)) => {
            if open < s.len() {
                assert(t[open] == s[open]);
                if s[open] == '(' as u8 {
                    lemma_list_same(s, t, open + 1, ')' as u8);
                }
            }
        },
        Err(_) => {},
    }
}

proof fn lemma_list_same(s: Seq<u8>, t: Seq<u8>, i: int, close: u8)
    requires
        adds_newline(s, t),
        0 <= i <= s.len(),
        close != '\n' as u8,
    ensures
        same_match(list(s, i, close), list(t, i, close)),
    decreases s.len() - i, 3nat,
{
    lemma_span_same(s, t, i, ByteClass::Space);
    lemma_span_end(s, i, ByteClass::Space);
    let start = span_end(s, i, ByteClass::Space);
    if start < s.len() {
        assert(t[start] == s[start]);
        if s[start] != close {
            lemma_list_items_same(s, t, start, close);
        }
    } else {
        lemma_nothing_at_the_end(s, start, close);
        lemma_nothing_at_the_end(t, start + 1, close);
    }
}

proof fn lemma_list_items_same(s: Seq<u8>, t: Seq<u8>, i: int, close: u8)
    requires
        adds_newline(s, t),
        0 <= i < s.len(),
        close != '\n' as u8,
    ensures
        same_match(list_items(s, i, close), list_items(t, i, close)),
    decreases s.len() - i, 2nat,
{
    lemma_expr_same(s, t, i);
    match expr(s, i) {
        Ok((_, next)) => {
            lemma_span_same(s, t, next, ByteClass::Space);
            lemma_span_end(s, next, ByteClass::Space);
            let after = span_end(s, next, ByteClass::Space);
            if after < s.len() {
                assert(t[after] == s[after]);
                if s[after] == close {
                } else if s[after] == ',' as u8 {
                    lemma_span_same(s, t, after + 1, ByteClass::Space);
                    lemma_span_end(s, after + 1, ByteClass::Space);
                    let more = span_end(s, after + 1, ByteClass::Space);
                    if more < s.len() {
                        lemma_list_items_same(s, t, more, close);
                    } else {
                        lemma_nothing_at_the_end(s, more, close);
                        lemma_nothing_at_the_end(t, more + 1, close);
                    }
                }
            }
        },
        Err(_) => {},
    }
}

/// Whether a statement rule says the same of the text and of the longer
/// text: the same match, which ends after the added newline where it ended
/// at the end of the text, or a failure in both.
pub open spec fn same_line<T>(
    s: Seq<u8>,
    in_text: Result<(T, int), int>,
    in_longer: Result<(T, int), int>,
) -> bool {
    match in_text {
        Ok((found, next)) => in_longer == Ok::<(T, int), int>((found, past_end(s, next))),
        Err(_) => in_longer is Err,
    }
}

proof fn lemma_line_end_same(s: Seq<u8>, t: Seq<u8>, i: int)
    requires
        adds_newline(s, t),
        0 <= i <= s.len(),
    ensures
        match line_end(s, i) {
            Ok(next) => line_end(t, i) == Ok::<int, int>(past_end(s, next)) && i <= next
                <= s.len(),
            Err(_) => line_end(t, i) is Err,
        },
{
    lemma_span_same(s, t, i, ByteClass::Blank);
    lemma_span_end(s, i, ByteClass::Blank);
    let stop = span_end(s, i, ByteClass::Blank);
    if stop < s.len() {
        assert(t[stop] == s[stop]);
    } else {
        assert(t[stop] == '\n' as u8);
    }
}

proof fn lemma_past_newline_same(s: Seq<u8>, t: Seq<u8>, i: int)
    requires
        adds_newline(s, t),
        0 <= i <= s.len(),
    ensures
        span_end(t, i, ByteClass::Inline) == span_end(s, i, ByteClass::Inline),
        past_newline(t, span_end(t, i, ByteClass::Inline)) == past_end(
            s,
            past_newline(s, span_end(s, i, ByteClass::Inline)),
        ),
        i <= span_end(s, i, ByteClass::Inline) <= s.len(),
        i <= past_newline(s, span_end(s, i, ByteClass::Inline)) <= s.len(),
{
    lemma_span_same(s, t, i, ByteClass::Inline);
    lemma_span_end(s, i, ByteClass::Inline);
}

proof fn lemma_remote_line_same(s: Seq<u8>, t: Seq<u8>, i: int)
    requires
        adds_newline(s, t),
        0 <= i <= s.len(),
    ensures
        same_line(s, remote_line(s, i), remote_line(t, i)),
        remote_line(s, i) matches Ok((_, next)) ==> i < next <= s.len(),
{
    lemma_span_same(s, t, i, ByteClass::Blank);
    lemma_span_end(s, i, ByteClass::Blank);
    let bar = span_end(s, i, ByteClass::Blank);
    if bar < s.len() {
        assert(t[bar] == s[bar]);
        lemma_past_newline_same(s, t, bar + 1);
        let end = span_end(s, bar + 1, ByteClass::Inline);
        assert(t.subrange(bar + 1, end) =~= s.subrange(bar + 1, end));
    } else {
        assert(t[bar] == '\n' as u8);
    }
}

proof fn lemma_remote_lines_same(s: Seq<u8>, t: Seq<u8>, i: int)
    requires
        adds_newline(s, t),
        0 <= i < s.len(),
    ensures
        remote_lines(t, i) == (remote_lines(s, i).0, past_end(s, remote_lines(s, i).1)),
        i <= remote_lines(s, i).1 <= s.len(),
    decreases s.len() - i,
{
    lemma_remote_line_same(s, t, i);
    match remote_line(s, i) {
        Ok((text, next)) => {
            if next < s.len() {
                lemma_remote_lines_same(s, t, next);
            } else {
                lemma_span_end(s, next, ByteClass::Blank);
                lemma_span_end(t, next + 1, ByteClass::Blank);
                assert(remote_line(s, next) is Err);
                assert(remote_line(t, next + 1) is Err);
                assert(remote_lines(s, next) == (Seq::<Seq<char>>::empty(), next));
                assert(remote_lines(t, next + 1) == (Seq::<Seq<char>>::empty(), next + 1));
            }
        },
        Err(_) => {},
    }
}

proof fn lemma_lines_same(s: Seq<u8>, t: Seq<u8>, i: int)
    requires
        adds_newline(s, t),
        0 <= i < s.len(),
    ensures
        same_line(s, comment(s, i), comment(t, i)),
        same_line(s, empty_line(s, i), empty_line(t, i)),
        same_line(s, remote_single(s, i), remote_single(t, i)),
        same_line(s, remote_block(s, i), remote_block(t, i)),
{
    assert(t[i] == s[i]);
    lemma_past_newline_same(s, t, i + 1);
    lemma_line_end_same(s, t, i);
    lemma_remote_line_same(s, t, i);
    if s[i] == '+' as u8 {
        let head = span_end(s, i + 1, ByteClass::Inline);
        if head < s.len() {
            if head + 1 < s.len() {
                lemma_remote_lines_same(s, t, head + 1);
                let close = remote_lines(s, head + 1).1;
                if close < s.len() {
                    assert(t[close] == s[close]);
                    lemma_past_newline_same(s, t, close + 1);
                } else {
                    assert(t[close + 1 - 1] == '\n' as u8);
                }
            } else {
                lemma_span_end(s, i + 1, ByteClass::Inline);
                assert(s[head] == '\n' as u8);
            }
        }
    }
}

proof fn lemma_assign_same(s: Seq<u8>, t: Seq<u8>, i: int)
    requires
        adds_newline(s, t),
        0 <= i < s.len(),
    ensures
        same_line(s, assign(s, i), assign(t, i)),
{
    lemma_words_on_one_line();
    lemma_starts_same(s, t, i, word_let());
    if starts_with(s, i, word_let()) {
        lemma_span_same(s, t, i + 3, ByteClass::Blank);
        lemma_span_end(s, i + 3, ByteClass::Blank);
        let start = span_end(s, i + 3, ByteClass::Blank);
        lemma_ident_same(s, t, start);
        match ident(s, start) {
            Ok((_, after_name)) => {
                lemma_span_same(s, t, after_name, ByteClass::Blank);
                lemma_span_end(s, after_name, ByteClass::Blank);
                let sign = span_end(s, after_name, ByteClass::Blank);
                if sign < s.len() {
                    assert(t[sign] == s[sign]);
                    lemma_span_same(s, t, sign + 1, ByteClass::Blank);
                    lemma_span_end(s, sign + 1, ByteClass::Blank);
                    let source = span_end(s, sign + 1, ByteClass::Blank);
                    lemma_expr_same(s, t, source);
                    match expr(s, source) {
                        Ok((_, after_value)) => {
                            lemma_line_end_same(s, t, after_value);
                        },
                        Err(_) => {},
                    }
                } else {
                    assert(t[sign] == '\n' as u8);
                }
            },
            Err(_) => {},
        }
    }
}

proof fn lemma_call_statement_same(s: Seq<u8>, t: Seq<u8>, i: int)
    requires
        adds_newline(s, t),
        0 <= i < s.len(),
    ensures
        same_line(s, call_statement(s, i), call_statement(t, i)),
{
    lemma_call_same(s, t, i);
    crate::parser::laws::lemma_call_within(s, i);
    match call(s, i) {
        Ok((_, after)) => {
            lemma_line_end_same(s, t, after);
        },
        Err(_) => {},
    }
}

proof fn lemma_loop_head_same(s: Seq<u8>, t: Seq<u8>, i: int)
    requires
        adds_newline(s, t),
        0 <= i < s.len(),
    ensures
        same_match(loop_head(s, i), loop_head(t, i)),
        loop_head(s, i) matches Ok((_, next)) ==> i < next <= s.len(),
{
    lemma_words_on_one_line();
    lemma_starts_same(s, t, i, word_for());
    if starts_with(s, i, word_for()) {
        lemma_span_same(s, t, i + 3, ByteClass::Blank);
        lemma_span_end(s, i + 3, ByteClass::Blank);
        let start = span_end(s, i + 3, ByteClass::Blank);
        lemma_ident_same(s, t, start);
        match ident(s, start) {
            Ok((_, after_name)) => {
                lemma_span_same(s, t, after_name, ByteClass::Blank);
                lemma_span_end(s, after_name, ByteClass::Blank);
                let word = span_end(s, after_name, ByteClass::Blank);
                lemma_starts_same(s, t, word, word_in());
                if starts_with(s, word, word_in()) {
                    lemma_span_same(s, t, word + 2, ByteClass::Blank);
                    lemma_span_end(s, word + 2, ByteClass::Blank);
                    let source = span_end(s, word + 2, ByteClass::Blank);
                    lemma_expr_same(s, t, source);
                    match expr(s, source) {
                        Ok((_, after_items)) => {
                            lemma_span_same(s, t, after_items, ByteClass::Blank);
                            lemma_span_end(s, after_items, ByteClass::Blank);
                            let brace = span_end(s, after_items, ByteClass::Blank);
                            if brace < s.len() {
                                assert(t[brace] == s[brace]);
                            } else {
                                assert(t[brace] == '\n' as u8);
                            }
                        },
                        Err(_) => {},
                    }
                }
            },
            Err(_) => {},
        }
    }
}

proof fn lemma_loop_close_same(s: Seq<u8>, t: Seq<u8>, i: int)
    requires
        adds_newline(s, t),
        0 <= i <= s.len(),
    ensures
        match loop_close(s, i) {
            Ok(next) => loop_close(t, i) == Ok::<int, int>(past_end(s, next)) && i < next
                <= s.len(),
            Err(_) => loop_close(t, i) is Err,
        },
{
    lemma_span_same(s, t, i, ByteClass::Blank);
    lemma_span_end(s, i, ByteClass::Blank);
    let brace = span_end(s, i, ByteClass::Blank);
    if brace < s.len() {
        assert(t[brace] == s[brace]);
        lemma_line_end_same(s, t, brace + 1);
    } else {
        assert(t[brace] == '\n' as u8);
    }
}

/// No statement and no end of a loop stands at the end of a text.
proof fn lemma_no_line_at_the_end(s: Seq<u8>, i: int)
    requires
        i >= s.len(),
    ensures
        item(s, i) is Err,
        body(s, i) is Err,
{
    assert(span_end(s, i, ByteClass::Blank) == i);
    assert(span_end(s, i, ByteClass::Digit) == i);
}

proof fn lemma_for_loop_same(s: Seq<u8>, t: Seq<u8>, i: int)
    requires
        adds_newline(s, t),
        0 <= i < s.len(),
    ensures
        same_line(s, for_loop(s, i), for_loop(t, i)),
    decreases s.len() - i, 0nat,
{
    lemma_loop_head_same(s, t, i);
    match loop_head(s, i) {
        Ok((_, open)) => {
            lemma_span_same(s, t, open, ByteClass::Blank);
            lemma_span_end(s, open, ByteClass::Blank);
            let inside = span_end(s, open, ByteClass::Blank);
            if inside < s.len() {
                assert(t[inside] == s[inside]);
            } else {
                assert(t[inside] == '\n' as u8);
            }
            lemma_loop_close_same(s, t, open);
            lemma_line_end_same(s, t, open);
            if !at(s, inside, '}' as u8) {
                match line_end(s, open) {
                    Ok(start) => {
                        if start < s.len() {
                            lemma_body_same(s, t, start);
                        } else {
                            lemma_no_line_at_the_end(s, start);
                            lemma_no_line_at_the_end(t, start + 1);
                        }
                    },
                    Err(_) => {},
                }
            }
        },
        Err(_) => {},
    }
}

proof fn lemma_body_same(s: Seq<u8>, t: Seq<u8>, i: int)
    requires
        adds_newline(s, t),
        0 <= i < s.len(),
    ensures
        same_line(s, body(s, i), body(t, i)),
    decreases s.len() - i, 2nat,
{
    lemma_loop_close_same(s, t, i);
    match loop_close(s, i) {
        Ok(_) => {},
        Err(_) => {
            lemma_item_same(s, t, i);
            match item(s, i) {
                Ok((_, next)) => {
                    if next < s.len() {
                        lemma_body_same(s, t, next);
                    } else {
                        lemma_no_line_at_the_end(s, next);
                        lemma_no_line_at_the_end(t, next + 1);
                    }
                },
                Err(_) => {},
            }
        },
    }
}

proof fn lemma_item_same(s: Seq<u8>, t: Seq<u8>, i: int)
    requires
        adds_newline(s, t),
        0 <= i < s.len(),
    ensures
        same_line(s, item(s, i), item(t, i)),
        item(s, i) matches Ok((_, next)) ==> i < next <= s.len(),
    decreases s.len() - i, 1nat,
{
    lemma_lines_same(s, t, i);
    lemma_assign_same(s, t, i);
    lemma_call_statement_same(s, t, i);
    lemma_for_loop_same(s, t, i);
    crate::parser::laws::lemma_item_within(s, i);
}

#[verifier::rlimit(30)]
proof fn lemma_items_same(s: Seq<u8>, t: Seq<u8>, i: int)
    requires
        adds_newline(s, t),
        0 <= i < s.len(),
    ensures
        match items(s, i) {
            Ok(found) => items(t, i) == Ok::<Seq<ItemView>, int>(found),
            Err(_) => items(t, i) is Err,
        },
    decreases s.len() - i,
{
    lemma_item_same(s, t, i);
    match item(s, i) {
        Ok((first, next)) => {
            assert(item(t, i) == Ok::<(ItemView, int), int>((first, past_end(s, next))));
            if next < s.len() {
                lemma_items_same(s, t, next);
            } else {
                assert(items(s, next) == Ok::<Seq<ItemView>, int>(Seq::empty()));
                assert(items(t, next + 1) == Ok::<Seq<ItemView>, int>(Seq::empty()));
            }
        },
        Err(_) => {
            assert(item(t, i) is Err);
        },
    }
}

/// The newline at the end of a script is optional: a text that does not
/// end with a newline is a script exactly if the text with a newline added
/// is one, and then both are the same script.
pub proof fn lemma_final_newline_is_optional(text: Seq<u8>)
    requires
        text.len() > 0,
        text.last() != '\n' as u8,
    ensures
        match script(text) {
            Ok(found) => script(text.push('\n' as u8)) == Ok::<Seq<ItemView>, int>(found),
            Err(_) => script(text.push('\n' as u8)) is Err,
        },
{
    lemma_items_same(text, text.push('\n' as u8), 0);
}

} // verus!
