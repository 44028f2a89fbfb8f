//! Reading statements from the bytes of a script.

use crate::parser::expression::{
    agrees, lemma_prepend_twice, read_call_parts, read_expr, read_ident, slice_string,
};
use crate::parser::grammar::{
    assign, body, call_statement, comment, empty_line, for_loop, item, items, line_end, loop_close,
    loop_head, past_newline, prepend, remote_block, remote_line, remote_lines, remote_single,
    word_for, word_in, word_let,
};
use crate::parser::lexical::{at, begins, peek, scan, ByteClass};
use crate::parser::{items_view, Expr, ExprView, ItemView, ScriptItem};
use crate::text::strings_view;
use vstd::prelude::*;

verus! {

proof fn lemma_items_push(items: Seq<ScriptItem>, last: ScriptItem)
    ensures
        items_view(items.push(last)) == items_view(items).push(last@),
{
    assert(items_view(items.push(last)) =~= items_view(items).push(last@));
}

proof fn lemma_texts_push(items: Seq<String>, last: String)
    ensures
        strings_view(items.push(last)) == strings_view(items).push(last@),
{
    assert(strings_view(items.push(last)) =~= strings_view(items).push(last@));
}

/// Reads the end of a line from `i` on.
pub(crate) fn read_line_end(input: &[u8], i: usize) -> (r: Result<usize, usize>)
    requires
        i <= input@.len(),
    ensures
        match r {
            Ok(next) => line_end(input@, i as int) == Ok::<int, int>(next as int) && i <= next
                <= input@.len(),
            Err(stop) => line_end(input@, i as int) == Err::<int, int>(stop as int) && i <= stop
                <= input@.len(),
        },
{
    let stop = scan(input, i, ByteClass::Blank);
    if stop >= input.len() {
        Ok(stop)
    } else if input[stop] == '\n' as u8 {
        Ok(stop + 1)
    } else {
        Err(stop)
    }
}

/// The offset after the line whose text ends at `end`.
pub(crate) fn skip_newline(input: &[u8], end: usize) -> (next: usize)
    requires
        end <= input@.len(),
    ensures
        next == past_newline(input@, end as int),
        end <= next <= input@.len(),
{
    if end < input.len() {
        end + 1
    } else {
        end
    }
}

/// Reads a comment at `i`.
pub(crate) fn read_comment(input: &[u8], i: usize) -> (r: Result<(ScriptItem, usize), usize>)
    requires
        i <= input@.len(),
    ensures
        agrees(r, comment(input@, i as int)),
        r matches Ok((_, next)) ==> i < next <= input@.len(),
        r matches Err(stop) ==> i <= stop <= input@.len(),
{
    if peek(input, i, '#' as u8) {
        let end = scan(input, i + 1, ByteClass::Inline);
        Ok((ScriptItem::Comment, skip_newline(input, end)))
    } else {
        Err(i)
    }
}

/// Reads an empty line at `i`.
pub(crate) fn read_empty_line(input: &[u8], i: usize) -> (r: Result<(ScriptItem, usize), usize>)
    requires
        i <= input@.len(),
    ensures
        agrees(r, empty_line(input@, i as int)),
        r matches Ok((_, next)) ==> i < next <= input@.len(),
        r matches Err(stop) ==> i <= stop <= input@.len(),
{
    match read_line_end(input, i) {
        Ok(next) => {
            if i < next {
                Ok((ScriptItem::EmptyLine, next))
            } else {
                Err(i)
            }
        },
        Err(stop) => Err(stop),
    }
}

/// Reads one line of remote shell text at `i`.
pub(crate) fn read_remote_line(input: &[u8], i: usize) -> (r: Result<(String, usize), usize>)
    requires
        i <= input@.len(),
    ensures
        agrees(r, remote_line(input@, i as int)),
        r matches Ok((_, next)) ==> i < next <= input@.len(),
        r matches Err(stop) ==> i <= stop <= input@.len(),
{
    let bar = scan(input, i, ByteClass::Blank);
    if peek(input, bar, '|' as u8) {
        let end = scan(input, bar + 1, ByteClass::Inline);
        Ok((slice_string(input, bar + 1, end), skip_newline(input, end)))
    } else {
        Err(bar)
    }
}

/// Reads a statement of one line of remote shell text at `i`.
pub(crate) fn read_remote_single(input: &[u8], i: usize) -> (r: Result<(ScriptItem, usize), usize>)
    requires
        i <= input@.len(),
    ensures
        agrees(r, remote_single(input@, i as int)),
        r matches Ok((_, next)) ==> i < next <= input@.len(),
        r matches Err(stop) ==> i <= stop <= input@.len(),
{
    match read_remote_line(input, i) {
        Ok((text, next)) => Ok((ScriptItem::RemoteSingle(text), next)),
        Err(stop) => Err(stop),
    }
}

/// Reads the lines of remote shell text that stand at `i`.
pub(crate) fn read_remote_lines(input: &[u8], i: usize) -> (r: (Vec<String>, usize))
    requires
        i <= input@.len(),
    ensures
        remote_lines(input@, i as int) == (strings_view(r.0@), r.1 as int),
        i <= r.1 <= input@.len(),
{
    let mut lines: Vec<String> = Vec::new();
    let mut k: usize = i;
    assert(strings_view(lines@) + remote_lines(input@, k as int).0 =~= remote_lines(
        input@,
        i as int,
    ).0);
    loop
        invariant
            i <= k <= input@.len(),
            remote_lines(input@, i as int) == (
                strings_view(lines@) + remote_lines(input@, k as int).0,
                remote_lines(input@, k as int).1,
            ),
        decreases input@.len() - k,
    {
        match read_remote_line(input, k) {
            Ok((text, next)) => {
                proof {
                    lemma_texts_push(lines@, text);
                    assert(strings_view(lines@).push(text@) + remote_lines(input@, next as int).0
                        =~= strings_view(lines@) + (seq![text@] + remote_lines(
                        input@,
                        next as int,
                    ).0));
                }
                lines.push(text);
                k = next;
            },
            Err(_) => {
                assert(strings_view(lines@) + Seq::<Seq<char>>::empty() =~= strings_view(lines@));
                return (lines, k);
            },
        }
    }
}

/// Reads a block of remote shell text at `i`.
pub(crate) fn read_remote_block(input: &[u8], i: usize) -> (r: Result<(ScriptItem, usize), usize>)
    requires
        i <= input@.len(),
    ensures
        agrees(r, remote_block(input@, i as int)),
        r matches Ok((_, next)) ==> i < next <= input@.len(),
        r matches Err(stop) ==> i <= stop <= input@.len(),
{
    if !peek(input, i, '+' as u8) {
        return Err(i);
    }
    let head = scan(input, i + 1, ByteClass::Inline);
    if head >= input.len() {
        return Err(head);
    }
    let (lines, close) = read_remote_lines(input, head + 1);
    if peek(input, close, '+' as u8) {
        let end = scan(input, close + 1, ByteClass::Inline);
        Ok((ScriptItem::RemoteBlock(lines), skip_newline(input, end)))
    } else {
        Err(close)
    }
}

/// Reads an assignment at `i`.
pub(crate) fn read_assign(input: &[u8], i: usize) -> (r: Result<(ScriptItem, usize), usize>)
    requires
        i <= input@.len(),
    ensures
        agrees(r, assign(input@, i as int)),
        r matches Ok((_, next)) ==> i < next <= input@.len(),
        r matches Err(stop) ==> i <= stop <= input@.len(),
{
    let word: [u8; 3] = ['l' as u8, 'e' as u8, 't' as u8];
    assert(word@ =~= word_let());
    if !begins(input, i, &word) {
        return Err(i);
    }
    let start = scan(input, i + 3, ByteClass::Blank);
    if start == i + 3 {
        return Err(i + 3);
    }
    match read_ident(input, start) {
        Ok((name, after_name)) => {
            let sign = scan(input, after_name, ByteClass::Blank);
            if !peek(input, sign, '=' as u8) {
                return Err(sign);
            }
            let source = scan(input, sign + 1, ByteClass::Blank);
            match read_expr(input, source) {
                Ok((value, after_value)) => match read_line_end(input, after_value) {
                    Ok(next) => Ok((ScriptItem::Assign(name, value), next)),
                    Err(stop) => Err(stop),
                },
                Err(stop) => Err(stop),
            }
        },
        Err(stop) => Err(stop),
    }
}

/// Reads a call statement at `i`.
pub(crate) fn read_call_statement(input: &[u8], i: usize) -> (r: Result<(ScriptItem, usize), usize>)
    requires
        i <= input@.len(),
    ensures
        agrees(r, call_statement(input@, i as int)),
        r matches Ok((_, next)) ==> i < next <= input@.len(),
        r matches Err(stop) ==> i <= stop <= input@.len(),
{
    match read_call_parts(input, i) {
        Ok(((name, args), after)) => match read_line_end(input, after) {
            Ok(next) => Ok((ScriptItem::FnCall(name, args), next)),
            Err(stop) => Err(stop),
        },
        Err(stop) => Err(stop),
    }
}

/// Reads the head of a loop at `i`.
pub(crate) fn read_loop_head(input: &[u8], i: usize) -> (r: Result<((String, Expr), usize), usize>)
    requires
        i <= input@.len(),
    ensures
        match r {
            Ok(((name, source), next)) => loop_head(input@, i as int) == Ok::<
                ((Seq<char>, ExprView), int),
                int,
            >(((name@, source@), next as int)) && i < next <= input@.len(),
            Err(stop) => loop_head(input@, i as int) == Err::<((Seq<char>, ExprView), int), int>(
                stop as int,
            ) && i <= stop <= input@.len(),
        },
{
    let first: [u8; 3] = ['f' as u8, 'o' as u8, 'r' as u8];
    let second: [u8; 2] = ['i' as u8, 'n' as u8];
    assert(first@ =~= word_for());
    assert(second@ =~= word_in());
    if !begins(input, i, &first) {
        return Err(i);
    }
    let start = scan(input, i + 3, ByteClass::Blank);
    if start == i + 3 {
        return Err(i + 3);
    }
    match read_ident(input, start) {
        Ok((name, after_name)) => {
            let word = scan(input, after_name, ByteClass::Blank);
            if word == after_name || !begins(input, word, &second) {
                return Err(word);
            }
            let source = scan(input, word + 2, ByteClass::Blank);
            if source == word + 2 {
                return Err(word + 2);
            }
            match read_expr(input, source) {
                Ok((items, after_items)) => {
                    let brace = scan(input, after_items, ByteClass::Blank);
                    if !peek(input, brace, '{' as u8) {
                        return Err(brace);
                    }
                    Ok(((name, items), brace + 1))
                },
                Err(stop) => Err(stop),
            }
        },
        Err(stop) => Err(stop),
    }
}

/// Reads the end of a loop at `i`.
pub(crate) fn read_loop_close(input: &[u8], i: usize) -> (r: Result<usize, usize>)
    requires
        i <= input@.len(),
    ensures
        match r {
            Ok(next) => loop_close(input@, i as int) == Ok::<int, int>(next as int) && i < next
                <= input@.len(),
            Err(stop) => loop_close(input@, i as int) == Err::<int, int>(stop as int) && i <= stop
                <= input@.len(),
        },
{
    let brace = scan(input, i, ByteClass::Blank);
    if peek(input, brace, '}' as u8) {
        read_line_end(input, brace + 1)
    } else {
        Err(brace)
    }
}

/// Whether the statements that were read are those that the grammar says
/// stand there.
pub open spec fn items_agree(
    read: Result<(Vec<ScriptItem>, usize), usize>,
    rule: Result<(Seq<ItemView>, int), int>,
) -> bool {
    match read {
        Ok((list, next)) => rule == Ok::<(Seq<ItemView>, int), int>(
            (items_view(list@), next as int),
        ),
        Err(stop) => rule == Err::<(Seq<ItemView>, int), int>(stop as int),
    }
}

/// Reads a loop at `i`.
pub(crate) fn read_for_loop(input: &[u8], i: usize) -> (r: Result<(ScriptItem, usize), usize>)
    requires
        i <= input@.len(),
    ensures
        agrees(r, for_loop(input@, i as int)),
        r matches Ok((_, next)) ==> i < next <= input@.len(),
        r matches Err(stop) ==> i <= stop <= input@.len(),
    decreases input@.len() - i, 0nat,
{
    match read_loop_head(input, i) {
        Ok(((name, source), open)) => {
            let inside = scan(input, open, ByteClass::Blank);
            if peek(input, inside, '}' as u8) {
                match read_loop_close(input, open) {
                    Ok(next) => {
                        let list: Vec<ScriptItem> = Vec::new();
                        assert(items_view(list@) =~= Seq::<ItemView>::empty());
                        Ok((ScriptItem::ForLoop(name, source, list), next))
                    },
                    Err(stop) => Err(stop),
                }
            } else {
                match read_line_end(input, open) {
                    Ok(start) => match read_body(input, start) {
                        Ok((list, next)) => Ok((ScriptItem::ForLoop(name, source, list), next)),
                        Err(stop) => Err(stop),
                    },
                    Err(stop) => Err(stop),
                }
            }
        },
        Err(stop) => Err(stop),
    }
}

/// Reads the statements of a loop's body from `i` on, and its closing line.
pub(crate) fn read_body(input: &[u8], i: usize) -> (r: Result<(Vec<ScriptItem>, usize), usize>)
    requires
        i <= input@.len(),
    ensures
        items_agree(r, body(input@, i as int)),
        r matches Ok((_, next)) ==> i < next <= input@.len(),
        r matches Err(stop) ==> i <= stop <= input@.len(),
    decreases input@.len() - i, 2nat,
{
    let mut list: Vec<ScriptItem> = Vec::new();
    let mut k: usize = i;
    assert(prepend(items_view(list@), body(input@, k as int)) == body(input@, i as int)) by {
        match body(input@, k as int) {
            Ok((rest, _)) => {
                assert(items_view(list@) + rest =~= rest);
            },
            Err(_) => {},
        }
    }
    loop
        invariant
            i <= k <= input@.len(),
            body(input@, i as int) == prepend(items_view(list@), body(input@, k as int)),
        decreases input@.len() - k,
    {
        match read_loop_close(input, k) {
            Ok(next) => {
                assert(items_view(list@) + Seq::<ItemView>::empty() =~= items_view(list@));
                return Ok((list, next));
            },
            Err(_) => {},
        }
        match read_item(input, k) {
            Ok((first, next)) => {
                proof {
                    lemma_items_push(list@, first);
                    assert(items_view(list@) + seq![first@] =~= items_view(list@).push(first@));
                    lemma_prepend_twice(
                        items_view(list@),
                        seq![first@],
                        body(input@, next as int),
                    );
                }
                list.push(first);
                k = next;
            },
            Err(stop) => {
                return Err(stop);
            },
        }
    }
}

/// Reads a statement at `i`.
pub(crate) fn read_item(input: &[u8], i: usize) -> (r: Result<(ScriptItem, usize), usize>)
    requires
        i <= input@.len(),
    ensures
        agrees(r, item(input@, i as int)),
        r matches Ok((_, next)) ==> i < next <= input@.len(),
        r matches Err(stop) ==> i <= stop <= input@.len(),
    decreases input@.len() - i, 1nat,
{
    let mut far: usize = match read_comment(input, i) {
        Ok(found) => {
            return Ok(found);
        },
        Err(stop) => stop,
    };
    match read_empty_line(input, i) {
        Ok(found) => {
            return Ok(found);
        },
        Err(stop) => {
            if stop > far {
                far = stop;
            }
        },
    }
    match read_assign(input, i) {
        Ok(found) => {
            return Ok(found);
        },
        Err(stop) => {
            if stop > far {
                far = stop;
            }
        },
    }
    match read_call_statement(input, i) {
        Ok(found) => {
            return Ok(found);
        },
        Err(stop) => {
            if stop > far {
                far = stop;
            }
        },
    }
    match read_remote_single(input, i) {
        Ok(found) => {
            return Ok(found);
        },
        Err(stop) => {
            if stop > far {
                far = stop;
            }
        },
    }
    match read_remote_block(input, i) {
        Ok(found) => {
            return Ok(found);
        },
        Err(stop) => {
            if stop > far {
                far = stop;
            }
        },
    }
    match read_for_loop(input, i) {
        Ok(found) => {
            return Ok(found);
        },
        Err(stop) => {
            if stop > far {
                far = stop;
            }
        },
    }
    Err(far)
}

/// Reads the statements of a script from `i` to the end of the text.
pub(crate) fn read_items(input: &[u8], i: usize) -> (r: Result<Vec<ScriptItem>, usize>)
    requires
        i <= input@.len(),
    ensures
        match r {
            Ok(list) => items(input@, i as int) == Ok::<Seq<ItemView>, int>(items_view(list@)),
            Err(stop) => items(input@, i as int) == Err::<Seq<ItemView>, int>(stop as int) && i
                <= stop <= input@.len(),
        },
{
    let total: usize = input.len();
    let mut list: Vec<ScriptItem> = Vec::new();
    let mut k: usize = i;
    assert(items_view(list@) =~= Seq::<ItemView>::empty());
    assert(items(input@, i as int) == match items(input@, k as int) {
        Ok(rest) => Ok::<Seq<ItemView>, int>(items_view(list@) + rest),
        Err(stop) => Err(stop),
    }) by {
        match items(input@, k as int) {
            Ok(rest) => {
                assert(items_view(list@) + rest =~= rest);
            },
            Err(_) => {},
        }
    }
    while k < total
        invariant
            i <= k <= input@.len(),
            total == input@.len(),
            items(input@, i as int) == match items(input@, k as int) {
                Ok(rest) => Ok::<Seq<ItemView>, int>(items_view(list@) + rest),
                Err(stop) => Err(stop),
            },
        decreases input@.len() - k,
    {
        match read_item(input, k) {
            Ok((first, next)) => {
                proof {
                    lemma_items_push(list@, first);
                    match items(input@, next as int) {
                        Ok(rest) => {
                            assert(items_view(list@).push(first@) + rest =~= items_view(list@) + (
                            seq![first@] + rest));
                        },
                        Err(_) => {},
                    }
                }
                list.push(first);
                k = next;
            },
            Err(stop) => {
                return Err(stop);
            },
        }
    }
    assert(items_view(list@) + Seq::<ItemView>::empty() =~= items_view(list@));
    Ok(list)
}

} // verus!
