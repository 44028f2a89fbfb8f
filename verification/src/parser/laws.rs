//! What holds of the grammar on every text.

use crate::parser::failure::{failure_at, lemma_failure_inside, line_start, newlines_before};
use crate::parser::grammar::{
    array, assign, body, boolean, call, call_statement, comment, empty_line, escape, expr,
    for_loop, heredoc, heredoc_close, ident, integer, item, items, line_end, list, list_items,
    loop_close, loop_head, remote_block, remote_line, remote_lines, remote_single, script, string,
    string_body, variable,
};
use crate::parser::lexical::{lemma_find, lemma_span_end, span_end, ByteClass};
use crate::parser::ItemView;
use vstd::prelude::*;

verus! {

/// Whether a rule tried at `i` stayed within the text: a match ends after
/// `i` and not after the end of the text, a failure lies between `i` and the
/// end of the text.
pub open spec fn within<T>(outcome: Result<(T, int), int>, s: Seq<u8>, i: int) -> bool {
    match outcome {
        Ok((_, next)) => i < next <= s.len(),
        Err(stop) => i <= stop <= s.len(),
    }
}

pub(crate) proof fn lemma_ident_within(s: Seq<u8>, i: int)
    requires
        0 <= i <= s.len(),
    ensures
        within(ident(s, i), s, i),
{
    if i < s.len() {
        lemma_span_end(s, i + 1, ByteClass::Word);
    }
}

pub(crate) proof fn lemma_line_end_within(s: Seq<u8>, i: int)
    requires
        0 <= i <= s.len(),
    ensures
        match line_end(s, i) {
            Ok(next) => i <= next <= s.len(),
            Err(stop) => i <= stop <= s.len(),
        },
{
    lemma_span_end(s, i, ByteClass::Blank);
}

pub(crate) proof fn lemma_heredoc_within(s: Seq<u8>, i: int)
    requires
        0 <= i <= s.len(),
    ensures
        within(heredoc(s, i), s, i),
{
    if i + 3 <= s.len() {
        lemma_span_end(s, i + 3, ByteClass::Letter);
        let start = span_end(s, i + 3, ByteClass::Letter);
        let closer = s.subrange(i + 3, start) + heredoc_close();
        lemma_find(s, start, closer);
    }
}

pub(crate) proof fn lemma_escape_within(s: Seq<u8>, i: int)
    requires
        0 <= i < s.len(),
    ensures
        match escape(s, i) {
            Ok((_, next)) => i < next <= s.len(),
            Err(stop) => i <= stop <= s.len(),
        },
{
    reveal(escape);
}

pub(crate) proof fn lemma_string_body_within(s: Seq<u8>, i: int)
    requires
        0 <= i <= s.len(),
    ensures
        match string_body(s, i) {
            Ok((_, next)) => i < next <= s.len(),
            Err(stop) => i <= stop <= s.len(),
        },
    decreases s.len() - i,
{
    if i < s.len() {
        if s[i] == '"' as u8 {
        } else if s[i] == '\\' as u8 {
            lemma_escape_within(s, i);
            match escape(s, i) {
                Ok((_, next)) => {
                    lemma_string_body_within(s, next);
                },
                Err(_) => {},
            }
        } else {
            lemma_span_end(s, i + 1, ByteClass::Plain);
            lemma_string_body_within(s, span_end(s, i + 1, ByteClass::Plain));
        }
    }
}

pub(crate) proof fn lemma_simple_within(s: Seq<u8>, i: int)
    requires
        0 <= i <= s.len(),
    ensures
        within(string(s, i), s, i),
        within(integer(s, i), s, i),
        within(boolean(s, i), s, i),
        within(variable(s, i), s, i),
        within(heredoc(s, i), s, i),
{
    if i < s.len() {
        lemma_string_body_within(s, i + 1);
        lemma_ident_within(s, i + 1);
    }
    lemma_span_end(s, i, ByteClass::Digit);
    lemma_heredoc_within(s, i);
}

/// An expression that matches ends after its start and inside the text; one
/// that fails, fails inside the text.
pub proof fn lemma_expr_within(s: Seq<u8>, i: int)
    requires
        0 <= i <= s.len(),
    ensures
        within(expr(s, i), s, i),
    decreases s.len() - i, 1nat,
{
    lemma_simple_within(s, i);
    lemma_array_within(s, i);
    lemma_call_within(s, i);
}

pub(crate) proof fn lemma_array_within(s: Seq<u8>, i: int)
    requires
        0 <= i <= s.len(),
    ensures
        within(array(s, i), s, i),
    decreases s.len() - i, 0nat,
{
    if i < s.len() && s[i] == '[' as u8 {
        lemma_list_within(s, i + 1, ']' as u8);
    }
}

pub(crate) proof fn lemma_call_within(s: Seq<u8>, i: int)
    requires
        0 <= i <= s.len(),
    ensures
        within(call(s, i), s, i),
    decreases s.len() - i, 0nat,
{
    lemma_ident_within(s, i);
    match ident(s, i) {
        Ok((_, open)) => {
            if open < s.len() && s[open] == '(' as u8 {
                lemma_list_within(s, open + 1, ')' as u8);
            }
        },
        Err(_) => {},
    }
}

pub(crate) proof fn lemma_list_within(s: Seq<u8>, i: int, close: u8)
    requires
        0 <= i <= s.len(),
    ensures
        match list(s, i, close) {
            Ok((_, next)) => i < next <= s.len(),
            Err(stop) => i <= stop <= s.len(),
        },
    decreases s.len() - i, 3nat,
{
    lemma_span_end(s, i, ByteClass::Space);
    let start = span_end(s, i, ByteClass::Space);
    if !(start < s.len() && s[start] == close) {
        lemma_list_items_within(s, start, close);
    }
}

pub(crate) proof fn lemma_list_items_within(s: Seq<u8>, i: int, close: u8)
    requires
        0 <= i <= s.len(),
    ensures
        match list_items(s, i, close) {
            Ok((_, next)) => i < next <= s.len(),
            Err(stop) => i <= stop <= s.len(),
        },
    decreases s.len() - i, 2nat,
{
    lemma_expr_within(s, i);
    match expr(s, i) {
        Ok((_, next)) => {
            lemma_span_end(s, next, ByteClass::Space);
            let after = span_end(s, next, ByteClass::Space);
            if after < s.len() && s[after] == close {
            } else if after < s.len() && s[after] == ',' as u8 {
                lemma_span_end(s, after + 1, ByteClass::Space);
                lemma_list_items_within(s, span_end(s, after + 1, ByteClass::Space), close);
            }
        },
        Err(_) => {},
    }
}

pub(crate) proof fn lemma_remote_line_within(s: Seq<u8>, i: int)
    requires
        0 <= i <= s.len(),
    ensures
        within(remote_line(s, i), s, i),
{
    lemma_span_end(s, i, ByteClass::Blank);
    let bar = span_end(s, i, ByteClass::Blank);
    if bar < s.len() {
        lemma_span_end(s, bar + 1, ByteClass::Inline);
    }
}

pub(crate) proof fn lemma_remote_lines_within(s: Seq<u8>, i: int)
    requires
        0 <= i <= s.len(),
    ensures
        i <= remote_lines(s, i).1 <= s.len(),
    decreases s.len() - i,
{
    lemma_remote_line_within(s, i);
    match remote_line(s, i) {
        Ok((_, next)) => {
            lemma_remote_lines_within(s, next);
        },
        Err(_) => {},
    }
}

pub(crate) proof fn lemma_lines_within(s: Seq<u8>, i: int)
    requires
        0 <= i <= s.len(),
    ensures
        within(comment(s, i), s, i),
        within(empty_line(s, i), s, i),
        within(remote_single(s, i), s, i),
        within(remote_block(s, i), s, i),
{
    lemma_line_end_within(s, i);
    lemma_remote_line_within(s, i);
    if i < s.len() {
        lemma_span_end(s, i + 1, ByteClass::Inline);
        let head = span_end(s, i + 1, ByteClass::Inline);
        if head < s.len() {
            lemma_remote_lines_within(s, head + 1);
            let close = remote_lines(s, head + 1).1;
            if close < s.len() {
                lemma_span_end(s, close + 1, ByteClass::Inline);
            }
        }
    }
}

pub(crate) proof fn lemma_assign_within(s: Seq<u8>, i: int)
    requires
        0 <= i <= s.len(),
    ensures
        within(assign(s, i), s, i),
{
    if i + 3 <= s.len() {
        lemma_span_end(s, i + 3, ByteClass::Blank);
        let start = span_end(s, i + 3, ByteClass::Blank);
        lemma_ident_within(s, start);
        match ident(s, start) {
            Ok((_, after_name)) => {
                lemma_span_end(s, after_name, ByteClass::Blank);
                let sign = span_end(s, after_name, ByteClass::Blank);
                if sign < s.len() {
                    lemma_span_end(s, sign + 1, ByteClass::Blank);
                    let source = span_end(s, sign + 1, ByteClass::Blank);
                    lemma_expr_within(s, source);
                    match expr(s, source) {
                        Ok((_, after_value)) => {
                            lemma_line_end_within(s, after_value);
                        },
                        Err(_) => {},
                    }
                }
            },
            Err(_) => {},
        }
    }
}

pub(crate) proof fn lemma_call_statement_within(s: Seq<u8>, i: int)
    requires
        0 <= i <= s.len(),
    ensures
        within(call_statement(s, i), s, i),
{
    lemma_call_within(s, i);
    match call(s, i) {
        Ok((_, after)) => {
            lemma_line_end_within(s, after);
        },
        Err(_) => {},
    }
}

pub(crate) proof fn lemma_loop_head_within(s: Seq<u8>, i: int)
    requires
        0 <= i <= s.len(),
    ensures
        within(loop_head(s, i), s, i),
{
    if i + 3 <= s.len() {
        lemma_span_end(s, i + 3, ByteClass::Blank);
        let start = span_end(s, i + 3, ByteClass::Blank);
        lemma_ident_within(s, start);
        match ident(s, start) {
            Ok((_, after_name)) => {
                lemma_span_end(s, after_name, ByteClass::Blank);
                let word = span_end(s, after_name, ByteClass::Blank);
                if word + 2 <= s.len() {
                    lemma_span_end(s, word + 2, ByteClass::Blank);
                    let source = span_end(s, word + 2, ByteClass::Blank);
                    lemma_expr_within(s, source);
                    match expr(s, source) {
                        Ok((_, after_items)) => {
                            lemma_span_end(s, after_items, ByteClass::Blank);
                        },
                        Err(_) => {},
                    }
                }
            },
            Err(_) => {},
        }
    }
}

pub(crate) proof fn lemma_loop_close_within(s: Seq<u8>, i: int)
    requires
        0 <= i <= s.len(),
    ensures
        match loop_close(s, i) {
            Ok(next) => i < next <= s.len(),
            Err(stop) => i <= stop <= s.len(),
        },
{
    lemma_span_end(s, i, ByteClass::Blank);
    let brace = span_end(s, i, ByteClass::Blank);
    if brace < s.len() {
        lemma_line_end_within(s, brace + 1);
    }
}

pub(crate) proof fn lemma_for_loop_within(s: Seq<u8>, i: int)
    requires
        0 <= i <= s.len(),
    ensures
        within(for_loop(s, i), s, i),
    decreases s.len() - i, 0nat,
{
    lemma_loop_head_within(s, i);
    match loop_head(s, i) {
        Ok((_, open)) => {
            lemma_span_end(s, open, ByteClass::Blank);
            lemma_loop_close_within(s, open);
            lemma_line_end_within(s, open);
            match line_end(s, open) {
                Ok(start) => {
                    lemma_body_within(s, start);
                },
                Err(_) => {},
            }
        },
        Err(_) => {},
    }
}

pub(crate) proof fn lemma_body_within(s: Seq<u8>, i: int)
    requires
        0 <= i <= s.len(),
    ensures
        match body(s, i) {
            Ok((_, next)) => i < next <= s.len(),
            Err(stop) => i <= stop <= s.len(),
        },
    decreases s.len() - i, 2nat,
{
    lemma_loop_close_within(s, i);
    match loop_close(s, i) {
        Ok(_) => {},
        Err(_) => {
            lemma_item_within(s, i);
            match item(s, i) {
                Ok((_, next)) => {
                    lemma_body_within(s, next);
                },
                Err(_) => {},
            }
        },
    }
}

/// A statement that matches ends after its start and inside the text; one
/// that fails, fails inside the text.
pub proof fn lemma_item_within(s: Seq<u8>, i: int)
    requires
        0 <= i <= s.len(),
    ensures
        within(item(s, i), s, i),
    decreases s.len() - i, 1nat,
{
    lemma_lines_within(s, i);
    lemma_assign_within(s, i);
    lemma_call_statement_within(s, i);
    lemma_for_loop_within(s, i);
}

pub(crate) proof fn lemma_items_within(s: Seq<u8>, i: int)
    requires
        0 <= i <= s.len(),
    ensures
        items(s, i) matches Err(stop) ==> i <= stop <= s.len(),
    decreases s.len() - i,
{
    if i < s.len() {
        lemma_item_within(s, i);
        match item(s, i) {
            Ok((_, next)) => {
                lemma_items_within(s, next);
            },
            Err(_) => {},
        }
    }
}

/// Parsing is a function of the text, and every text either is a script or
/// fails at a place inside itself: the offset of the failure is at most the
/// length of the text, its line is at least 1 and at most one more than the
/// number of newlines in the text, and its column is at least 1 and at most
/// one more than the offset.
pub proof fn lemma_failure_is_inside(s: Seq<u8>)
    ensures
        script(s) matches Err(stop) ==> {
            &&& 0 <= stop <= s.len()
            &&& failure_at(s, stop).offset == stop
            &&& 1 <= failure_at(s, stop).line <= newlines_before(s, s.len() as int) + 1
            &&& 1 <= failure_at(s, stop).column <= stop + 1
            &&& 0 <= line_start(s, stop) <= stop
        },
{
    lemma_items_within(s, 0);
    match script(s) {
        Ok(_) => {},
        Err(stop) => {
            lemma_failure_inside(s, stop);
        },
    }
}

/// The statements of a script cover the text from its first byte to its
/// last: a text is a script only if statement follows statement up to the
/// end, and the empty text is the script without statements.
pub proof fn lemma_script_covers(s: Seq<u8>)
    ensures
        s.len() == 0 ==> script(s) == Ok::<Seq<ItemView>, int>(Seq::empty()),
        s.len() > 0 && script(s) is Ok ==> item(s, 0) is Ok && script(s)->Ok_0.len() >= 1
            && script(s)->Ok_0[0] == item(s, 0)->Ok_0.0,
{
}

} // verus!
