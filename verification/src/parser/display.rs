//! Expressions as text.

use crate::environment::display;
use crate::parser::{exprs_view, Expr, ExprView};
use vstd::prelude::*;
use vstd::string::StringExecFns;

verus! {

/// An expression as text: a literal is the display form of its value, a
/// variable is `$` and its name, a heredoc is its raw text, an array is its
/// items between brackets, and a call is the name and the arguments between
/// parentheses.
pub open spec fn expr_text(e: ExprView) -> Seq<char>
    decreases e,
{
    match e {
        ExprView::Literal(value) => display(value),
        ExprView::Variable(name) => seq!['$'] + name,
        ExprView::FnCall(name, args) => name + seq!['('] + list_text(args) + seq![')'],
        ExprView::Array(items) => seq!['['] + list_text(items) + seq![']'],
        ExprView::HereDoc(raw) => raw,
    }
}

/// Expressions as text, with a comma and a space between each two.
pub open spec fn list_text(items: Seq<ExprView>) -> Seq<char>
    decreases items,
{
    if items.len() == 0 {
        Seq::empty()
    } else if items.len() == 1 {
        expr_text(items[0])
    } else {
        list_text(items.subrange(0, items.len() - 1)) + seq![',', ' '] + expr_text(
            items[items.len() - 1],
        )
    }
}

impl Expr {
    /// The expression as text.
    pub fn to_string(&self) -> (r: String)
        ensures
            r@ == expr_text(self@),
        decreases self,
    {
        match self {
            Expr::Literal(value) => value.to_string(),
            Expr::Variable(name) => {
                let mut out = String::new();
                out.push('$');
                out.append(name.as_str());
                out
            },
            Expr::FnCall(name, args) => {
                assert(decreases_to!(self => self->FnCall_1));
                let mut out = name.clone();
                out.push('(');
                out.append(list_string(args).as_str());
                out.push(')');
                assert(out@ =~= expr_text(self@));
                out
            },
            Expr::Array(items) => {
                assert(decreases_to!(self => self->Array_0));
                let mut out = String::new();
                out.push('[');
                out.append(list_string(items).as_str());
                out.push(']');
                assert(out@ =~= expr_text(self@));
                out
            },
            Expr::HereDoc(raw) => raw.clone(),
        }
    }
}

/// Writes expressions as text, with a comma and a space between each two.
pub fn list_string(items: &Vec<Expr>) -> (r: String)
    ensures
        r@ == list_text(exprs_view(items@)),
    decreases items,
{
    let ghost all = exprs_view(items@);
    let mut out = String::new();
    let mut k: usize = 0;
    assert(all.subrange(0, 0) =~= Seq::<ExprView>::empty());
    while k < items.len()
        invariant
            k <= items@.len(),
            all == exprs_view(items@),
            out@ == list_text(all.subrange(0, k as int)),
        decreases items@.len() - k,
    {
        let item = &items[k];
        assert(decreases_to!(items => item)) by {
            assert(decreases_to!(items => items@));
            assert(decreases_to!(items@ => items@[k as int]));
        }
        if k > 0 {
            out.push(',');
            out.push(' ');
        }
        out.append(item.to_string().as_str());
        k = k + 1;
        proof {
            let now = all.subrange(0, k as int);
            assert(now.subrange(0, now.len() - 1) =~= all.subrange(0, k - 1));
            assert(now[now.len() - 1] == item@);
            if k == 1 {
                assert(out@ =~= expr_text(item@));
            } else {
                assert(out@ =~= list_text(all.subrange(0, k - 1)) + seq![',', ' '] + expr_text(
                    item@,
                ));
            }
        }
    }
    assert(all.subrange(0, items@.len() as int) =~= all);
    out
}

} // verus!
