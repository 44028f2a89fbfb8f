//! Reading expressions from the bytes of a script.

use crate::parser::grammar::{
    array, boolean, call, code_unit, decimal_value, escape, expr, heredoc,
    heredoc_close, heredoc_open, hex_value, ident, integer, list, list_items, prepend, string,
    string_body, variable, word_false, word_true,
};
use crate::parser::lexical::{
    at, begins, lemma_find, lemma_span_end, letter, peek, scan, search, span_end, ByteClass,
};
use crate::parser::{exprs_view, Expr, ExprView, Value};
use crate::text::{ascii_text, decode, decoded};
use vstd::prelude::*;
use vstd::slice::slice_subrange;
use vstd::string::StringExecFns;

verus! {

/// Whether what was read is what the grammar says stands there.
pub open spec fn agrees<T: View>(
    read: Result<(T, usize), usize>,
    rule: Result<(T::V, int), int>,
) -> bool {
    match read {
        Ok((value, next)) => rule == Ok::<(T::V, int), int>((value@, next as int)),
        Err(stop) => rule == Err::<(T::V, int), int>(stop as int),
    }
}

/// Whether the expressions that were read are those that the grammar says
/// stand there.
pub open spec fn list_agrees(
    read: Result<(Vec<Expr>, usize), usize>,
    rule: Result<(Seq<ExprView>, int), int>,
) -> bool {
    match read {
        Ok((items, next)) => rule == Ok::<(Seq<ExprView>, int), int>(
            (exprs_view(items@), next as int),
        ),
        Err(stop) => rule == Err::<(Seq<ExprView>, int), int>(stop as int),
    }
}

proof fn lemma_exprs_push(items: Seq<Expr>, last: Expr)
    ensures
        exprs_view(items.push(last)) == exprs_view(items).push(last@),
{
    assert(exprs_view(items.push(last)) =~= exprs_view(items).push(last@));
}

pub(crate) proof fn lemma_prepend_twice<T>(a: Seq<T>, b: Seq<T>, tail: Result<(Seq<T>, int), int>)
    ensures
        prepend(a, prepend(b, tail)) == prepend(a + b, tail),
{
    match tail {
        Ok((items, next)) => {
            assert(a + (b + items) =~= (a + b) + items);
        },
        Err(_) => {},
    }
}

/// The text of the ASCII bytes of `input` from `from` to `to`.
pub(crate) fn ascii_string(input: &[u8], from: usize, to: usize) -> (r: String)
    requires
        from <= to <= input@.len(),
    ensures
        r@ == ascii_text(input@.subrange(from as int, to as int)),
{
    let mut out = String::new();
    let mut k: usize = from;
    while k < to
        invariant
            from <= k <= to <= input@.len(),
            out@ == ascii_text(input@.subrange(from as int, k as int)),
        decreases to - k,
    {
        out.push(input[k] as char);
        k = k + 1;
        assert(out@ =~= ascii_text(input@.subrange(from as int, k as int)));
    }
    assert(out@ =~= ascii_text(input@.subrange(from as int, to as int)));
    out
}

/// The text of the bytes of `input` from `from` to `to`.
pub(crate) fn slice_string(input: &[u8], from: usize, to: usize) -> (r: String)
    requires
        from <= to <= input@.len(),
    ensures
        r@ == decoded(input@.subrange(from as int, to as int)),
{
    decode(slice_subrange(input, from, to))
}

/// Reads an identifier at `i`.
pub(crate) fn read_ident(input: &[u8], i: usize) -> (r: Result<(String, usize), usize>)
    requires
        i <= input@.len(),
    ensures
        agrees(r, ident(input@, i as int)),
        r matches Ok((_, next)) ==> i < next <= input@.len(),
        r matches Err(stop) ==> i <= stop <= input@.len(),
{
    if i < input.len() && (letter(input[i]) || input[i] == '_' as u8) {
        let end = scan(input, i + 1, ByteClass::Word);
        Ok((ascii_string(input, i, end), end))
    } else {
        Err(i)
    }
}

proof fn lemma_decimal_grows(s: Seq<u8>, i: int, a: int, b: int)
    requires
        0 <= i <= a <= b <= s.len(),
        forall|k: int| i <= k < b ==> ByteClass::Digit.holds(#[trigger] s[k]),
    ensures
        decimal_value(s.subrange(i, a)) <= decimal_value(s.subrange(i, b)),
    decreases b - a,
{
    if a < b {
        lemma_decimal_grows(s, i, a, b - 1);
        assert(s.subrange(i, b).drop_last() =~= s.subrange(i, b - 1));
    }
}

/// Reads an integer literal at `i`.
pub(crate) fn read_integer(input: &[u8], i: usize) -> (r: Result<(Expr, usize), usize>)
    requires
        i <= input@.len(),
    ensures
        agrees(r, integer(input@, i as int)),
        r matches Ok((_, next)) ==> i < next <= input@.len(),
        r matches Err(stop) ==> i <= stop <= input@.len(),
{
    let end = scan(input, i, ByteClass::Digit);
    if end == i {
        return Err(i);
    }
    proof {
        lemma_span_end(input@, i as int, ByteClass::Digit);
    }
    let mut value: u64 = 0;
    let mut k: usize = i;
    while k < end
        invariant
            i <= k <= end <= input@.len(),
            end == span_end(input@, i as int, ByteClass::Digit),
            forall|m: int| i <= m < end ==> ByteClass::Digit.holds(#[trigger] input@[m]),
            value == decimal_value(input@.subrange(i as int, k as int)),
            value <= i64::MAX,
        decreases end - k,
    {
        let digit: u8 = input[k] - '0' as u8;
        let wide: u128 = value as u128 * 10 + digit as u128;
        proof {
            assert(input@.subrange(i as int, k + 1).drop_last() =~= input@.subrange(
                i as int,
                k as int,
            ));
            assert(wide == decimal_value(input@.subrange(i as int, k + 1)));
        }
        if wide > 9223372036854775807u128 {
            proof {
                lemma_decimal_grows(input@, i as int, k + 1, end as int);
            }
            return Err(i);
        }
        value = wide as u64;
        k = k + 1;
    }
    Ok((Expr::Literal(Value::Integer(value as i64)), end))
}

/// Reads a boolean literal at `i`.
pub(crate) fn read_boolean(input: &[u8], i: usize) -> (r: Result<(Expr, usize), usize>)
    requires
        i <= input@.len(),
    ensures
        agrees(r, boolean(input@, i as int)),
        r matches Ok((_, next)) ==> i < next <= input@.len(),
        r matches Err(stop) ==> i <= stop <= input@.len(),
{
    let yes: [u8; 4] = ['t' as u8, 'r' as u8, 'u' as u8, 'e' as u8];
    let no: [u8; 5] = ['f' as u8, 'a' as u8, 'l' as u8, 's' as u8, 'e' as u8];
    assert(yes@ =~= word_true());
    assert(no@ =~= word_false());
    if begins(input, i, &yes) {
        Ok((Expr::Literal(Value::Bool(true)), i + 4))
    } else if begins(input, i, &no) {
        Ok((Expr::Literal(Value::Bool(false)), i + 5))
    } else {
        Err(i)
    }
}

/// Reads a variable reference at `i`.
pub(crate) fn read_variable(input: &[u8], i: usize) -> (r: Result<(Expr, usize), usize>)
    requires
        i <= input@.len(),
    ensures
        agrees(r, variable(input@, i as int)),
        r matches Ok((_, next)) ==> i < next <= input@.len(),
        r matches Err(stop) ==> i <= stop <= input@.len(),
{
    if peek(input, i, '$' as u8) {
        match read_ident(input, i + 1) {
            Ok((name, next)) => Ok((Expr::Variable(name), next)),
            Err(stop) => Err(stop),
        }
    } else {
        Err(i)
    }
}

/// Reads a heredoc at `i`.
pub(crate) fn read_heredoc(input: &[u8], i: usize) -> (r: Result<(Expr, usize), usize>)
    requires
        i <= input@.len(),
    ensures
        agrees(r, heredoc(input@, i as int)),
        r matches Ok((_, next)) ==> i < next <= input@.len(),
        r matches Err(stop) ==> i <= stop <= input@.len(),
{
    let open: [u8; 3] = ['<' as u8, '<' as u8, '<' as u8];
    assert(open@ =~= heredoc_open());
    if !begins(input, i, &open) {
        return Err(i);
    }
    let start = scan(input, i + 3, ByteClass::Letter);
    if start == i + 3 {
        return Err(i + 3);
    }
    let mut closer: Vec<u8> = Vec::new();
    let mut k: usize = i + 3;
    while k < start
        invariant
            i + 3 <= k <= start <= input@.len(),
            closer@ == input@.subrange(i + 3, k as int),
        decreases start - k,
    {
        closer.push(input[k]);
        k = k + 1;
        assert(closer@ =~= input@.subrange(i + 3, k as int));
    }
    closer.push('>' as u8);
    closer.push('>' as u8);
    closer.push('>' as u8);
    assert(closer@ =~= input@.subrange(i + 3, start as int) + heredoc_close());
    proof {
        lemma_find(input@, start as int, closer@);
    }
    match search(input, start, closer.as_slice()) {
        Some(end) => {
            Ok((Expr::HereDoc(slice_string(input, start, end)), end + closer.len()))
        },
        None => Err(input.len()),
    }
}

/// Reads a hexadecimal digit.
pub(crate) fn hex_digit(b: u8) -> (r: Option<u32>)
    ensures
        match r {
            Some(v) => hex_value(b) == Some(v as int) && v < 16,
            None => hex_value(b) is None,
        },
{
    if b >= '0' as u8 && b <= '9' as u8 {
        Some((b - '0' as u8) as u32)
    } else if b >= 'a' as u8 && b <= 'f' as u8 {
        Some((b - 'a' as u8 + 10) as u32)
    } else if b >= 'A' as u8 && b <= 'F' as u8 {
        Some((b - 'A' as u8 + 10) as u32)
    } else {
        None
    }
}

/// Reads the code unit that `\uXXXX` writes at `i`.
pub(crate) fn read_code_unit(input: &[u8], i: usize) -> (r: Option<u32>)
    requires
        i <= input@.len(),
    ensures
        match r {
            Some(unit) => code_unit(input@, i as int) == Some(unit as int) && unit <= 0xFFFF && i
                + 6 <= input@.len(),
            None => code_unit(input@, i as int) is None,
        },
{
    if input.len() - i < 6 {
        return None;
    }
    if input[i] != '\\' as u8 || input[i + 1] != 'u' as u8 {
        return None;
    }
    match (
        hex_digit(input[i + 2]),
        hex_digit(input[i + 3]),
        hex_digit(input[i + 4]),
        hex_digit(input[i + 5]),
    ) {
        (Some(a), Some(b), Some(c), Some(d)) => Some(((a * 16 + b) * 16 + c) * 16 + d),
        _ => None,
    }
}

/// The character with scalar value `v`.
fn scalar(v: u32) -> (c: char)
    requires
        crate::text::is_scalar_value(v),
    ensures
        c == v as char,
{
    match char::from_u32(v) {
        Some(c) => c,
        None => '\u{FFFD}',
    }
}

/// Reads the escape sequence at the backslash at `i`.
pub(crate) fn read_escape(input: &[u8], i: usize) -> (r: Result<(char, usize), usize>)
    requires
        at(input@, i as int, '\\' as u8),
    ensures
        match r {
            Ok((c, next)) => escape(input@, i as int) == Ok::<(char, int), int>((c, next as int))
                && i < next <= input@.len(),
            Err(stop) => escape(input@, i as int) == Err::<(char, int), int>(stop as int) && i
                <= stop <= input@.len(),
        },
{
    reveal(escape);
    if input.len() - i < 2 {
        return Err(i + 1);
    }
    let b: u8 = input[i + 1];
    if b == '\\' as u8 {
        Ok(('\\', i + 2))
    } else if b == '"' as u8 {
        Ok(('"', i + 2))
    } else if b == 'n' as u8 {
        Ok(('\n', i + 2))
    } else if b == 'r' as u8 {
        Ok(('\r', i + 2))
    } else if b == 't' as u8 {
        Ok(('\t', i + 2))
    } else if b == 'b' as u8 {
        Ok(('\u{8}', i + 2))
    } else if b == 'f' as u8 {
        Ok(('\u{c}', i + 2))
    } else if b == 'u' as u8 {
        match read_code_unit(input, i) {
            Some(unit) => {
                if 0xD800 <= unit && unit <= 0xDBFF {
                    match read_code_unit(input, i + 6) {
                        Some(second) => {
                            if 0xDC00 <= second && second <= 0xDFFF {
                                let v: u32 = 0x10000 + (unit - 0xD800) * 0x400 + (second - 0xDC00);
                                Ok((scalar(v), i + 12))
                            } else {
                                Ok(('\u{FFFD}', i + 6))
                            }
                        },
                        None => Ok(('\u{FFFD}', i + 6)),
                    }
                } else if 0xDC00 <= unit && unit <= 0xDFFF {
                    Ok(('\u{FFFD}', i + 6))
                } else {
                    Ok((scalar(unit), i + 6))
                }
            },
            None => Err(i + 2),
        }
    } else {
        Err(i + 1)
    }
}

/// Reads a string literal at `i`.
pub(crate) fn read_string(input: &[u8], i: usize) -> (r: Result<(Expr, usize), usize>)
    requires
        i <= input@.len(),
    ensures
        agrees(r, string(input@, i as int)),
        r matches Ok((_, next)) ==> i < next <= input@.len(),
        r matches Err(stop) ==> i <= stop <= input@.len(),
{
    if !peek(input, i, '"' as u8) {
        return Err(i);
    }
    let mut out = String::new();
    let mut k: usize = i + 1;
    assert(prepend(out@, string_body(input@, k as int)) == string_body(input@, i + 1)) by {
        match string_body(input@, k as int) {
            Ok((text, _)) => {
                assert(out@ + text =~= text);
            },
            Err(_) => {},
        }
    }
    loop
        invariant
            i < k <= input@.len() <= usize::MAX,
            at(input@, i as int, '"' as u8),
            string_body(input@, i + 1) == prepend(out@, string_body(input@, k as int)),
        decreases input@.len() - k,
    {
        if k >= input.len() {
            return Err(k);
        }
        let b: u8 = input[k];
        if b == '"' as u8 {
            assert(out@ + Seq::<char>::empty() =~= out@);
            return Ok((Expr::Literal(Value::String(out)), k + 1));
        }
        if b == '\\' as u8 {
            match read_escape(input, k) {
                Ok((c, next)) => {
                    proof {
                        lemma_prepend_twice(out@, seq![c], string_body(input@, next as int));
                        assert(out@ + seq![c] =~= out@.push(c));
                    }
                    out.push(c);
                    k = next;
                },
                Err(stop) => {
                    return Err(stop);
                },
            }
        } else {
            let end = scan(input, k + 1, ByteClass::Plain);
            let piece = slice_string(input, k, end);
            proof {
                lemma_prepend_twice(out@, piece@, string_body(input@, end as int));
            }
            out.append(piece.as_str());
            k = end;
        }
    }
}

/// Reads an expression at `i`.
pub(crate) fn read_expr(input: &[u8], i: usize) -> (r: Result<(Expr, usize), usize>)
    requires
        i <= input@.len(),
    ensures
        agrees(r, expr(input@, i as int)),
        r matches Ok((_, next)) ==> i < next <= input@.len(),
        r matches Err(stop) ==> i <= stop <= input@.len(),
    decreases input@.len() - i, 2nat,
{
    let mut far: usize = match read_string(input, i) {
        Ok(found) => {
            return Ok(found);
        },
        Err(stop) => stop,
    };
    match read_integer(input, i) {
        Ok(found) => {
            return Ok(found);
        },
        Err(stop) => {
            if stop > far {
                far = stop;
            }
        },
    }
    match read_boolean(input, i) {
        Ok(found) => {
            return Ok(found);
        },
        Err(stop) => {
            if stop > far {
                far = stop;
            }
        },
    }
    match read_array(input, i) {
        Ok(found) => {
            return Ok(found);
        },
        Err(stop) => {
            if stop > far {
                far = stop;
            }
        },
    }
    match read_variable(input, i) {
        Ok(found) => {
            return Ok(found);
        },
        Err(stop) => {
            if stop > far {
                far = stop;
            }
        },
    }
    match read_heredoc(input, i) {
        Ok(found) => {
            return Ok(found);
        },
        Err(stop) => {
            if stop > far {
                far = stop;
            }
        },
    }
    match read_call(input, i) {
        Ok(found) => {
            return Ok(found);
        },
        Err(stop) => {
            if stop > far {
                far = stop;
            }
        },
    }
    Err(far)
}

/// Reads an array literal at `i`.
pub(crate) fn read_array(input: &[u8], i: usize) -> (r: Result<(Expr, usize), usize>)
    requires
        i <= input@.len(),
    ensures
        agrees(r, array(input@, i as int)),
        r matches Ok((_, next)) ==> i < next <= input@.len(),
        r matches Err(stop) ==> i <= stop <= input@.len(),
    decreases input@.len() - i, 0nat,
{
    if peek(input, i, '[' as u8) {
        match read_list(input, i + 1, ']' as u8) {
            Ok((items, next)) => Ok((Expr::Array(items), next)),
            Err(stop) => Err(stop),
        }
    } else {
        Err(i)
    }
}

/// Reads a call at `i`: the name and the arguments.
pub(crate) fn read_call_parts(input: &[u8], i: usize) -> (r: Result<
    ((String, Vec<Expr>), usize),
    usize,
>)
    requires
        i <= input@.len(),
    ensures
        match r {
            Ok(((name, args), next)) => call(input@, i as int) == Ok::<(ExprView, int), int>(
                (ExprView::FnCall(name@, exprs_view(args@)), next as int),
            ) && i < next <= input@.len(),
            Err(stop) => call(input@, i as int) == Err::<(ExprView, int), int>(stop as int) && i
                <= stop <= input@.len(),
        },
    decreases input@.len() - i, 0nat,
{
    match read_ident(input, i) {
        Ok((name, open)) => {
            if peek(input, open, '(' as u8) {
                match read_list(input, open + 1, ')' as u8) {
                    Ok((args, next)) => Ok(((name, args), next)),
                    Err(stop) => Err(stop),
                }
            } else {
                Err(open)
            }
        },
        Err(stop) => Err(stop),
    }
}

/// Reads a call expression at `i`.
pub(crate) fn read_call(input: &[u8], i: usize) -> (r: Result<(Expr, usize), usize>)
    requires
        i <= input@.len(),
    ensures
        agrees(r, call(input@, i as int)),
        r matches Ok((_, next)) ==> i < next <= input@.len(),
        r matches Err(stop) ==> i <= stop <= input@.len(),
    decreases input@.len() - i, 1nat,
{
    match read_call_parts(input, i) {
        Ok(((name, args), next)) => Ok((Expr::FnCall(name, args), next)),
        Err(stop) => Err(stop),
    }
}

/// Reads what follows an opening bracket, up to the closing byte.
pub(crate) fn read_list(input: &[u8], i: usize, close: u8) -> (r: Result<(Vec<Expr>, usize), usize>)
    requires
        i <= input@.len(),
    ensures
        list_agrees(r, list(input@, i as int, close)),
        r matches Ok((_, next)) ==> i < next <= input@.len(),
        r matches Err(stop) ==> i <= stop <= input@.len(),
    decreases input@.len() - i, 4nat,
{
    let start = scan(input, i, ByteClass::Space);
    if peek(input, start, close) {
        let items: Vec<Expr> = Vec::new();
        assert(exprs_view(items@) =~= Seq::<ExprView>::empty());
        Ok((items, start + 1))
    } else {
        read_list_items(input, start, close)
    }
}

/// Reads the expressions of a list from the first of them on.
pub(crate) fn read_list_items(input: &[u8], i: usize, close: u8) -> (r: Result<
    (Vec<Expr>, usize),
    usize,
>)
    requires
        i <= input@.len(),
    ensures
        list_agrees(r, list_items(input@, i as int, close)),
        r matches Ok((_, next)) ==> i < next <= input@.len(),
        r matches Err(stop) ==> i <= stop <= input@.len(),
    decreases input@.len() - i, 3nat,
{
    let mut items: Vec<Expr> = Vec::new();
    let mut k: usize = i;
    assert(prepend(exprs_view(items@), list_items(input@, k as int, close)) == list_items(
        input@,
        i as int,
        close,
    )) by {
        match list_items(input@, k as int, close) {
            Ok((rest, _)) => {
                assert(exprs_view(items@) + rest =~= rest);
            },
            Err(_) => {},
        }
    }
    loop
        invariant
            i <= k <= input@.len(),
            list_items(input@, i as int, close) == prepend(
                exprs_view(items@),
                list_items(input@, k as int, close),
            ),
        decreases input@.len() - k,
    {
        match read_expr(input, k) {
            Err(stop) => {
                return Err(stop);
            },
            Ok((item, next)) => {
                let after = scan(input, next, ByteClass::Space);
                proof {
                    lemma_exprs_push(items@, item);
                    assert(exprs_view(items@) + seq![item@] =~= exprs_view(items@).push(item@));
                }
                if peek(input, after, close) {
                    items.push(item);
                    return Ok((items, after + 1));
                } else if peek(input, after, ',' as u8) {
                    let more = scan(input, after + 1, ByteClass::Space);
                    proof {
                        lemma_prepend_twice(
                            exprs_view(items@),
                            seq![item@],
                            list_items(input@, more as int, close),
                        );
                    }
                    items.push(item);
                    k = more;
                } else {
                    return Err(after);
                }
            },
        }
    }
}

} // verus!
