//! The grammar of the language, as functions from the bytes of a script and
//! an offset to what stands there.
//!
//! Each rule yields either what it matched together with the offset after
//! it, or the offset at which matching stopped. Where several rules may
//! apply, the first that matches wins; where none does, the failure is the
//! one that got furthest.

use crate::parser::lexical::{
    at, find, is_letter, lemma_span_end, span_end, starts_with, ByteClass,
};
use crate::parser::{ExprView, ItemView, ValueView};
use crate::text::{ascii_text, decoded};
use vstd::prelude::*;

verus! {

/// The outcome of the first of two rules that matches; the further of the
/// two failures where neither does.
pub open spec fn or_else<T>(first: Result<(T, int), int>, second: Result<(T, int), int>) -> Result<
    (T, int),
    int,
> {
    match first {
        Ok(_) => first,
        Err(a) => match second {
            Ok(_) => second,
            Err(b) => Err(if a >= b { a } else { b }),
        },
    }
}

/// A match with `head` put in front of the items matched.
pub open spec fn prepend<T>(head: Seq<T>, tail: Result<(Seq<T>, int), int>) -> Result<
    (Seq<T>, int),
    int,
> {
    match tail {
        Ok((items, next)) => Ok((head + items, next)),
        Err(stop) => Err(stop),
    }
}

/// The bytes of the word `let`.
pub open spec fn word_let() -> Seq<u8> {
    seq!['l' as u8, 'e' as u8, 't' as u8]
}

/// The bytes of the word `for`.
pub open spec fn word_for() -> Seq<u8> {
    seq!['f' as u8, 'o' as u8, 'r' as u8]
}

/// The bytes of the word `in`.
pub open spec fn word_in() -> Seq<u8> {
    seq!['i' as u8, 'n' as u8]
}

/// The bytes of the word `true`.
pub open spec fn word_true() -> Seq<u8> {
    seq!['t' as u8, 'r' as u8, 'u' as u8, 'e' as u8]
}

/// The bytes of the word `false`.
pub open spec fn word_false() -> Seq<u8> {
    seq!['f' as u8, 'a' as u8, 'l' as u8, 's' as u8, 'e' as u8]
}

/// The bytes that open a heredoc.
pub open spec fn heredoc_open() -> Seq<u8> {
    seq!['<' as u8, '<' as u8, '<' as u8]
}

/// The bytes that follow the tag at the end of a heredoc.
pub open spec fn heredoc_close() -> Seq<u8> {
    seq!['>' as u8, '>' as u8, '>' as u8]
}

/// An identifier: a letter or an underscore, then letters, digits and
/// underscores.
pub open spec fn ident(s: Seq<u8>, i: int) -> Result<(Seq<char>, int), int> {
    if 0 <= i < s.len() && (is_letter(s[i]) || s[i] == '_' as u8) {
        let end = span_end(s, i + 1, ByteClass::Word);
        Ok((ascii_text(s.subrange(i, end)), end))
    } else {
        Err(i)
    }
}

/// The number that decimal digits write.
pub open spec fn decimal_value(digits: Seq<u8>) -> nat
    decreases digits.len(),
{
    if digits.len() == 0 {
        0
    } else {
        decimal_value(digits.drop_last()) * 10 + (digits.last() - '0' as u8) as nat
    }
}

/// An integer literal: decimal digits that write a number within `i64`.
pub open spec fn integer(s: Seq<u8>, i: int) -> Result<(ExprView, int), int> {
    let end = span_end(s, i, ByteClass::Digit);
    if i < end && decimal_value(s.subrange(i, end)) <= i64::MAX {
        Ok((ExprView::Literal(ValueView::Integer(decimal_value(s.subrange(i, end)) as i64)), end))
    } else {
        Err(i)
    }
}

/// A boolean literal: `true` or `false`.
pub open spec fn boolean(s: Seq<u8>, i: int) -> Result<(ExprView, int), int> {
    if starts_with(s, i, word_true()) {
        Ok((ExprView::Literal(ValueView::Bool(true)), i + 4))
    } else if starts_with(s, i, word_false()) {
        Ok((ExprView::Literal(ValueView::Bool(false)), i + 5))
    } else {
        Err(i)
    }
}

/// A variable reference: `$` and an identifier.
pub open spec fn variable(s: Seq<u8>, i: int) -> Result<(ExprView, int), int> {
    if at(s, i, '$' as u8) {
        match ident(s, i + 1) {
            Ok((name, next)) => Ok((ExprView::Variable(name), next)),
            Err(stop) => Err(stop),
        }
    } else {
        Err(i)
    }
}

/// A heredoc: `<<<`, a tag of letters, then everything up to the first place
/// where the tag stands again followed by `>>>`.
pub open spec fn heredoc(s: Seq<u8>, i: int) -> Result<(ExprView, int), int> {
    if starts_with(s, i, heredoc_open()) {
        let start = span_end(s, i + 3, ByteClass::Letter);
        if i + 3 < start {
            let closer = s.subrange(i + 3, start) + heredoc_close();
            let end = find(s, start, closer);
            if end >= 0 {
                Ok((ExprView::HereDoc(decoded(s.subrange(start, end))), end + closer.len()))
            } else {
                Err(s.len() as int)
            }
        } else {
            Err(i + 3)
        }
    } else {
        Err(i)
    }
}

/// The value of a hexadecimal digit.
pub open spec fn hex_value(b: u8) -> Option<int> {
    if b >= '0' as u8 && b <= '9' as u8 {
        Some(b - '0' as u8)
    } else if b >= 'a' as u8 && b <= 'f' as u8 {
        Some(b - 'a' as u8 + 10)
    } else if b >= 'A' as u8 && b <= 'F' as u8 {
        Some(b - 'A' as u8 + 10)
    } else {
        None
    }
}

/// The 16-bit code unit that `\uXXXX` writes at `i`, where one stands there.
pub open spec fn code_unit(s: Seq<u8>, i: int) -> Option<int> {
    if at(s, i, '\\' as u8) && at(s, i + 1, 'u' as u8) && i + 6 <= s.len() {
        match (hex_value(s[i + 2]), hex_value(s[i + 3]), hex_value(s[i + 4]), hex_value(s[i + 5])) {
            (Some(a), Some(b), Some(c), Some(d)) => Some(((a * 16 + b) * 16 + c) * 16 + d),
            _ => None,
        }
    } else {
        None
    }
}

/// A leading surrogate, the first code unit of a pair.
pub open spec fn is_high_surrogate(unit: int) -> bool {
    0xD800 <= unit <= 0xDBFF
}

/// A trailing surrogate, the second code unit of a pair.
pub open spec fn is_low_surrogate(unit: int) -> bool {
    0xDC00 <= unit <= 0xDFFF
}

/// The character that stands in for code units that write none.
pub open spec fn replacement() -> char {
    '\u{FFFD}'
}

/// The escape sequence at the backslash at `i`: the character it writes and
/// the offset after it. `\uXXXX` writes a UTF-16 code unit; a leading
/// surrogate directly followed by a trailing one writes one character, and a
/// surrogate without its partner writes the replacement character.
#[verifier::opaque]
pub open spec fn escape(s: Seq<u8>, i: int) -> Result<(char, int), int> {
    if !(0 <= i && i + 1 < s.len()) {
        Err(i + 1)
    } else if s[i + 1] == '\\' as u8 {
        Ok(('\\', i + 2))
    } else if s[i + 1] == '"' as u8 {
        Ok(('"', i + 2))
    } else if s[i + 1] == 'n' as u8 {
        Ok(('\n', i + 2))
    } else if s[i + 1] == 'r' as u8 {
        Ok(('\r', i + 2))
    } else if s[i + 1] == 't' as u8 {
        Ok(('\t', i + 2))
    } else if s[i + 1] == 'b' as u8 {
        Ok(('\u{8}', i + 2))
    } else if s[i + 1] == 'f' as u8 {
        Ok(('\u{c}', i + 2))
    } else if s[i + 1] == 'u' as u8 {
        match code_unit(s, i) {
            Some(unit) => if is_high_surrogate(unit) {
                match code_unit(s, i + 6) {
                    Some(second) => if is_low_surrogate(second) {
                        Ok(
                            (
                                (0x10000 + (unit - 0xD800) * 0x400 + (second - 0xDC00)) as char,
                                i + 12,
                            ),
                        )
                    } else {
                        Ok((replacement(), i + 6))
                    },
                    None => Ok((replacement(), i + 6)),
                }
            } else if is_low_surrogate(unit) {
                Ok((replacement(), i + 6))
            } else {
                Ok((unit as char, i + 6))
            },
            None => Err(i + 2),
        }
    } else {
        Err(i + 1)
    }
}

/// The rest of a string literal from `i` on: its characters up to the
/// closing quote, and the offset after that quote.
pub open spec fn string_body(s: Seq<u8>, i: int) -> Result<(Seq<char>, int), int>
    decreases s.len() - i,
{
    if !(0 <= i < s.len()) {
        Err(i)
    } else if s[i] == '"' as u8 {
        Ok((Seq::empty(), i + 1))
    } else if s[i] == '\\' as u8 {
        match escape(s, i) {
            Ok((c, next)) => if i < next <= s.len() {
                prepend(seq![c], string_body(s, next))
            } else {
                Err(i)
            },
            Err(stop) => Err(stop),
        }
    } else {
        proof {
            lemma_span_end(s, i + 1, ByteClass::Plain);
        }
        let end = span_end(s, i + 1, ByteClass::Plain);
        prepend(decoded(s.subrange(i, end)), string_body(s, end))
    }
}

/// A string literal in double quotes.
pub open spec fn string(s: Seq<u8>, i: int) -> Result<(ExprView, int), int> {
    if at(s, i, '"' as u8) {
        match string_body(s, i + 1) {
            Ok((text, next)) => Ok((ExprView::Literal(ValueView::String(text)), next)),
            Err(stop) => Err(stop),
        }
    } else {
        Err(i)
    }
}

/// An expression: a string, an integer, a boolean, an array, a variable, a
/// heredoc or a call, tried in that order.
pub open spec fn expr(s: Seq<u8>, i: int) -> Result<(ExprView, int), int>
    decreases s.len() - i, 1nat,
{
    or_else(
        string(s, i),
        or_else(
            integer(s, i),
            or_else(
                boolean(s, i),
                or_else(array(s, i), or_else(variable(s, i), or_else(heredoc(s, i), call(s, i)))),
            ),
        ),
    )
}

/// An array literal: `[`, expressions separated by commas, `]`.
pub open spec fn array(s: Seq<u8>, i: int) -> Result<(ExprView, int), int>
    decreases s.len() - i, 0nat,
{
    if at(s, i, '[' as u8) {
        match list(s, i + 1, ']' as u8) {
            Ok((items, next)) => Ok((ExprView::Array(items), next)),
            Err(stop) => Err(stop),
        }
    } else {
        Err(i)
    }
}

/// A call: an identifier, `(`, expressions separated by commas, `)`.
pub open spec fn call(s: Seq<u8>, i: int) -> Result<(ExprView, int), int>
    decreases s.len() - i, 0nat,
{
    match ident(s, i) {
        Ok((name, open)) => if at(s, open, '(' as u8) && i < open {
            match list(s, open + 1, ')' as u8) {
                Ok((args, next)) => Ok((ExprView::FnCall(name, args), next)),
                Err(stop) => Err(stop),
            }
        } else {
            Err(open)
        },
        Err(stop) => Err(stop),
    }
}

/// What follows an opening bracket: nothing but the closing byte, or
/// expressions separated by commas and then the closing byte. Spaces and
/// newlines may stand around each expression.
pub open spec fn list(s: Seq<u8>, i: int, close: u8) -> Result<(Seq<ExprView>, int), int>
    decreases s.len() - i, 3nat,
{
    let start = span_end(s, i, ByteClass::Space);
    if !(0 <= i <= start <= s.len()) {
        Err(i)
    } else if at(s, start, close) {
        Ok((Seq::empty(), start + 1))
    } else {
        list_items(s, start, close)
    }
}

/// One expression and what follows it in a list: the closing byte, or a comma
/// and more of the list.
pub open spec fn list_items(s: Seq<u8>, i: int, close: u8) -> Result<(Seq<ExprView>, int), int>
    decreases s.len() - i, 2nat,
{
    match expr(s, i) {
        Ok((item, next)) => {
            let after = span_end(s, next, ByteClass::Space);
            if at(s, after, close) {
                Ok((seq![item], after + 1))
            } else if at(s, after, ',' as u8) && i < next <= after {
                let more = span_end(s, after + 1, ByteClass::Space);
                if after < more <= s.len() {
                    prepend(seq![item], list_items(s, more, close))
                } else {
                    Err(after)
                }
            } else {
                Err(after)
            }
        },
        Err(stop) => Err(stop),
    }
}

/// The end of a line from `i` on: blanks, then a newline or the end of the
/// text. Yields the offset at which the next line starts.
pub open spec fn line_end(s: Seq<u8>, i: int) -> Result<int, int> {
    let stop = span_end(s, i, ByteClass::Blank);
    if stop >= s.len() {
        Ok(stop)
    } else if s[stop] == '\n' as u8 {
        Ok(stop + 1)
    } else {
        Err(stop)
    }
}

/// The offset after the line whose text ends at `end`: past its newline,
/// where it has one.
pub open spec fn past_newline(s: Seq<u8>, end: int) -> int {
    if end < s.len() {
        end + 1
    } else {
        end
    }
}

/// A comment: `#` and the rest of the line.
pub open spec fn comment(s: Seq<u8>, i: int) -> Result<(ItemView, int), int> {
    if at(s, i, '#' as u8) {
        Ok((ItemView::Comment, past_newline(s, span_end(s, i + 1, ByteClass::Inline))))
    } else {
        Err(i)
    }
}

/// An empty line: blanks up to the end of the line, and at least one byte.
pub open spec fn empty_line(s: Seq<u8>, i: int) -> Result<(ItemView, int), int> {
    match line_end(s, i) {
        Ok(next) => if i < next {
            Ok((ItemView::EmptyLine, next))
        } else {
            Err(i)
        },
        Err(stop) => Err(stop),
    }
}

/// One line of remote shell text: blanks, `|`, and the rest of the line,
/// which is the text.
pub open spec fn remote_line(s: Seq<u8>, i: int) -> Result<(Seq<char>, int), int> {
    let bar = span_end(s, i, ByteClass::Blank);
    if at(s, bar, '|' as u8) {
        let end = span_end(s, bar + 1, ByteClass::Inline);
        Ok((decoded(s.subrange(bar + 1, end)), past_newline(s, end)))
    } else {
        Err(bar)
    }
}

/// A statement of one line of remote shell text.
pub open spec fn remote_single(s: Seq<u8>, i: int) -> Result<(ItemView, int), int> {
    match remote_line(s, i) {
        Ok((text, next)) => Ok((ItemView::RemoteSingle(text), next)),
        Err(stop) => Err(stop),
    }
}

/// As many lines of remote shell text as stand at `i`, and the offset after
/// the last of them.
pub open spec fn remote_lines(s: Seq<u8>, i: int) -> (Seq<Seq<char>>, int)
    decreases s.len() - i,
{
    match remote_line(s, i) {
        Ok((text, next)) => if i < next <= s.len() {
            let (more, end) = remote_lines(s, next);
            (seq![text] + more, end)
        } else {
            (Seq::empty(), i)
        },
        Err(_) => (Seq::empty(), i),
    }
}

/// A block of remote shell text: a line that starts with `+`, lines of
/// remote shell text, and a closing line that starts with `+`.
pub open spec fn remote_block(s: Seq<u8>, i: int) -> Result<(ItemView, int), int> {
    if at(s, i, '+' as u8) {
        let head = span_end(s, i + 1, ByteClass::Inline);
        if head < s.len() {
            let (lines, close) = remote_lines(s, head + 1);
            if at(s, close, '+' as u8) {
                Ok(
                    (
                        ItemView::RemoteBlock(lines),
                        past_newline(s, span_end(s, close + 1, ByteClass::Inline)),
                    ),
                )
            } else {
                Err(close)
            }
        } else {
            Err(head)
        }
    } else {
        Err(i)
    }
}

/// An assignment: `let`, blanks, a name, `=` with blanks around it as may
/// be, an expression, and the end of the line.
pub open spec fn assign(s: Seq<u8>, i: int) -> Result<(ItemView, int), int> {
    if starts_with(s, i, word_let()) {
        let start = span_end(s, i + 3, ByteClass::Blank);
        if i + 3 < start {
            match ident(s, start) {
                Ok((name, after_name)) => {
                    let sign = span_end(s, after_name, ByteClass::Blank);
                    if at(s, sign, '=' as u8) {
                        match expr(s, span_end(s, sign + 1, ByteClass::Blank)) {
                            Ok((value, after_value)) => match line_end(s, after_value) {
                                Ok(next) => Ok((ItemView::Assign(name, value), next)),
                                Err(stop) => Err(stop),
                            },
                            Err(stop) => Err(stop),
                        }
                    } else {
                        Err(sign)
                    }
                },
                Err(stop) => Err(stop),
            }
        } else {
            Err(i + 3)
        }
    } else {
        Err(i)
    }
}

/// A call statement: a call and the end of the line.
pub open spec fn call_statement(s: Seq<u8>, i: int) -> Result<(ItemView, int), int> {
    match call(s, i) {
        Ok((ExprView::FnCall(name, args), after)) => match line_end(s, after) {
            Ok(next) => Ok((ItemView::FnCall(name, args), next)),
            Err(stop) => Err(stop),
        },
        Ok((_, after)) => Err(after),
        Err(stop) => Err(stop),
    }
}

/// The head of a loop: `for`, a name, `in`, an expression and `{`, with
/// blanks between them. Yields the name, the expression and the offset after
/// the brace.
pub open spec fn loop_head(s: Seq<u8>, i: int) -> Result<((Seq<char>, ExprView), int), int> {
    if starts_with(s, i, word_for()) {
        let start = span_end(s, i + 3, ByteClass::Blank);
        if i + 3 < start {
            match ident(s, start) {
                Ok((name, after_name)) => {
                    let word = span_end(s, after_name, ByteClass::Blank);
                    if after_name < word && starts_with(s, word, word_in()) {
                        let source = span_end(s, word + 2, ByteClass::Blank);
                        if word + 2 < source {
                            match expr(s, source) {
                                Ok((items, after_items)) => {
                                    let brace = span_end(s, after_items, ByteClass::Blank);
                                    if at(s, brace, '{' as u8) {
                                        Ok(((name, items), brace + 1))
                                    } else {
                                        Err(brace)
                                    }
                                },
                                Err(stop) => Err(stop),
                            }
                        } else {
                            Err(word + 2)
                        }
                    } else {
                        Err(word)
                    }
                },
                Err(stop) => Err(stop),
            }
        } else {
            Err(i + 3)
        }
    } else {
        Err(i)
    }
}

/// The end of a loop: blanks, `}` and the end of the line.
pub open spec fn loop_close(s: Seq<u8>, i: int) -> Result<int, int> {
    let brace = span_end(s, i, ByteClass::Blank);
    if at(s, brace, '}' as u8) {
        line_end(s, brace + 1)
    } else {
        Err(brace)
    }
}

/// A loop: its head, then either the closing brace on the same line, which
/// makes a loop without statements, or the end of the line, the statements
/// of the body and the closing line.
pub open spec fn for_loop(s: Seq<u8>, i: int) -> Result<(ItemView, int), int>
    decreases s.len() - i, 0nat,
{
    match loop_head(s, i) {
        Ok(((name, source), open)) => if at(s, span_end(s, open, ByteClass::Blank), '}' as u8) {
            match loop_close(s, open) {
                Ok(next) => Ok((ItemView::ForLoop(name, source, Seq::empty()), next)),
                Err(stop) => Err(stop),
            }
        } else {
            match line_end(s, open) {
                Ok(start) => if i < start <= s.len() {
                    match body(s, start) {
                        Ok((items, next)) => Ok((ItemView::ForLoop(name, source, items), next)),
                        Err(stop) => Err(stop),
                    }
                } else {
                    Err(i)
                },
                Err(stop) => Err(stop),
            }
        },
        Err(stop) => Err(stop),
    }
}

/// The statements of a loop's body from `i` on, up to its closing line.
pub open spec fn body(s: Seq<u8>, i: int) -> Result<(Seq<ItemView>, int), int>
    decreases s.len() - i, 2nat,
{
    match loop_close(s, i) {
        Ok(next) => Ok((Seq::empty(), next)),
        Err(_) => match item(s, i) {
            Ok((first, next)) => if i < next <= s.len() {
                prepend(seq![first], body(s, next))
            } else {
                Err(i)
            },
            Err(stop) => Err(stop),
        },
    }
}

/// A statement: a comment, an empty line, an assignment, a call, a line of
/// remote shell text, a block of it or a loop, tried in that order.
pub open spec fn item(s: Seq<u8>, i: int) -> Result<(ItemView, int), int>
    decreases s.len() - i, 1nat,
{
    or_else(
        comment(s, i),
        or_else(
            empty_line(s, i),
            or_else(
                assign(s, i),
                or_else(
                    call_statement(s, i),
                    or_else(remote_single(s, i), or_else(remote_block(s, i), for_loop(s, i))),
                ),
            ),
        ),
    )
}

/// The statements from `i` to the end of the text.
pub open spec fn items(s: Seq<u8>, i: int) -> Result<Seq<ItemView>, int>
    decreases s.len() - i,
{
    if !(0 <= i < s.len()) {
        Ok(Seq::empty())
    } else {
        match item(s, i) {
            Ok((first, next)) => if i < next <= s.len() {
                match items(s, next) {
                    Ok(rest) => Ok(seq![first] + rest),
                    Err(stop) => Err(stop),
                }
            } else {
                Err(i)
            },
            Err(stop) => Err(stop),
        }
    }
}

/// A script: statements from the start of the text to its end. A text that
/// is no script fails at the offset where matching stopped.
pub open spec fn script(s: Seq<u8>) -> Result<Seq<ItemView>, int> {
    items(s, 0)
}

} // verus!
