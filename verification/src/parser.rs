//! The script grammar and its parser.

use crate::parser::failure::{describe, failure_at, ParseFailure};
use crate::parser::grammar::script;
use crate::parser::statement::read_items;
use crate::text::strings_view;
use vstd::prelude::*;

pub mod display;
pub mod expression;
pub mod failure;
pub mod grammar;
pub mod laws;
pub mod lexical;
pub mod statement;
pub mod trailing;

verus! {

/// The result of evaluating an expression.
#[derive(Debug, PartialEq, Eq)]
pub enum Value {
    /// Plain text.
    String(String),
    /// Text that came from a heredoc.
    HereDocText(String),
    /// A 64-bit signed integer.
    Integer(i64),
    /// A truth value.
    Bool(bool),
    /// An ordered list of values.
    Array(Vec<Value>),
    /// The result of a call that yields nothing.
    Void,
}

/// The name under which literals appear in expressions.
pub type Literal = Value;

/// The mathematical model of a [`Value`].
pub enum ValueView {
    String(Seq<char>),
    HereDocText(Seq<char>),
    Integer(i64),
    Bool(bool),
    Array(Seq<ValueView>),
    Void,
}

/// The models of a sequence of values, in order.
pub open spec fn values_view(items: Seq<Value>) -> Seq<ValueView>
    decreases items,
{
    Seq::new(
        items.len(),
        |i: int|
            if 0 <= i < items.len() {
                items[i].view()
            } else {
                ValueView::Void
            },
    )
}

impl View for Value {
    type V = ValueView;

    open spec fn view(&self) -> ValueView
        decreases self,
    {
        match self {
            Value::String(s) => ValueView::String(s@),
            Value::HereDocText(s) => ValueView::HereDocText(s@),
            Value::Integer(n) => ValueView::Integer(*n),
            Value::Bool(b) => ValueView::Bool(*b),
            Value::Array(items) => ValueView::Array(values_view(items@)),
            Value::Void => ValueView::Void,
        }
    }
}

/// An expression of the language.
#[derive(Debug, PartialEq, Eq)]
pub enum Expr {
    /// A literal value: a string, an integer or a boolean.
    Literal(Value),
    /// A reference to a variable, written `$name`.
    Variable(String),
    /// A call of a built-in function with its arguments.
    FnCall(String, Vec<Expr>),
    /// A list of expressions, written `[a, b]`.
    Array(Vec<Expr>),
    /// The raw text of a heredoc.
    HereDoc(String),
}

/// The name under which expressions appear in statements.
pub type Expression = Expr;

/// The mathematical model of an [`Expr`].
pub enum ExprView {
    Literal(ValueView),
    Variable(Seq<char>),
    FnCall(Seq<char>, Seq<ExprView>),
    Array(Seq<ExprView>),
    HereDoc(Seq<char>),
}

/// The models of a sequence of expressions, in order.
pub open spec fn exprs_view(items: Seq<Expr>) -> Seq<ExprView>
    decreases items,
{
    Seq::new(
        items.len(),
        |i: int|
            if 0 <= i < items.len() {
                items[i].view()
            } else {
                ExprView::Array(Seq::empty())
            },
    )
}

impl View for Expr {
    type V = ExprView;

    open spec fn view(&self) -> ExprView
        decreases self,
    {
        match self {
            Expr::Literal(v) => ExprView::Literal(v@),
            Expr::Variable(name) => ExprView::Variable(name@),
            Expr::FnCall(name, args) => ExprView::FnCall(name@, exprs_view(args@)),
            Expr::Array(items) => ExprView::Array(exprs_view(items@)),
            Expr::HereDoc(raw) => ExprView::HereDoc(raw@),
        }
    }
}

/// A statement of the language.
#[derive(Debug, PartialEq, Eq)]
pub enum ScriptItem {
    /// A line that starts with `#`.
    Comment,
    /// A line of nothing but blanks.
    EmptyLine,
    /// `let name = expression`.
    Assign(String, Expr),
    /// One line of shell text for the remote host, written after `|`.
    RemoteSingle(String),
    /// Lines of shell text for the remote host, between two `+` lines.
    RemoteBlock(Vec<String>),
    /// A call of a built-in function, for its effect.
    FnCall(String, Vec<Expr>),
    /// `for name in expression { statements }`.
    ForLoop(String, Expr, Vec<ScriptItem>),
}

/// The name under which the items of a script are its statements.
pub type Statement = ScriptItem;

/// The mathematical model of a [`ScriptItem`].
pub enum ItemView {
    Comment,
    EmptyLine,
    Assign(Seq<char>, ExprView),
    RemoteSingle(Seq<char>),
    RemoteBlock(Seq<Seq<char>>),
    FnCall(Seq<char>, Seq<ExprView>),
    ForLoop(Seq<char>, ExprView, Seq<ItemView>),
}

/// The models of a sequence of statements, in order.
pub open spec fn items_view(items: Seq<ScriptItem>) -> Seq<ItemView>
    decreases items,
{
    Seq::new(
        items.len(),
        |i: int|
            if 0 <= i < items.len() {
                items[i].view()
            } else {
                ItemView::Comment
            },
    )
}

impl View for ScriptItem {
    type V = ItemView;

    open spec fn view(&self) -> ItemView
        decreases self,
    {
        match self {
            ScriptItem::Comment => ItemView::Comment,
            ScriptItem::EmptyLine => ItemView::EmptyLine,
            ScriptItem::Assign(name, value) => ItemView::Assign(name@, value@),
            ScriptItem::RemoteSingle(text) => ItemView::RemoteSingle(text@),
            ScriptItem::RemoteBlock(lines) => ItemView::RemoteBlock(strings_view(lines@)),
            ScriptItem::FnCall(name, args) => ItemView::FnCall(name@, exprs_view(args@)),
            ScriptItem::ForLoop(name, source, body) => ItemView::ForLoop(
                name@,
                source@,
                items_view(body@),
            ),
        }
    }
}

/// A parsed script: its statements in the order in which they run.
#[derive(Debug, PartialEq, Eq)]
pub struct Script {
    pub statements: Vec<ScriptItem>,
}

impl View for Script {
    type V = Seq<ItemView>;

    open spec fn view(&self) -> Seq<ItemView> {
        items_view(self.statements@)
    }
}

impl From<Vec<ScriptItem>> for Script {
    /// The script made of the given statements.
    fn from(items: Vec<ScriptItem>) -> (r: Self) {
        Self { statements: items }
    }
}

impl vstd::std_specs::convert::FromSpecImpl<Vec<ScriptItem>> for Script {
    open spec fn obeys_from_spec() -> bool {
        true
    }

    open spec fn from_spec(items: Vec<ScriptItem>) -> Self {
        Script { statements: items }
    }
}

/// The parser of the language.
#[derive(Clone, Copy, Debug)]
pub struct ScriptParser;

/// The parser of the language, ready to read a script.
pub fn script_parser() -> (r: ScriptParser)
    ensures
        r == ScriptParser,
{
    ScriptParser
}

impl ScriptParser {
    /// Parses the bytes of a script. A text that the grammar matches from
    /// its first byte to its last yields its statements; any other yields the
    /// place where matching stopped.
    pub fn parse(&self, input: &[u8]) -> (r: Result<Script, ParseFailure>)
        ensures
            match script(input@) {
                Ok(list) => r matches Ok(parsed) && parsed@ == list,
                Err(stop) => r matches Err(failure) && failure@ == failure_at(input@, stop),
            },
    {
        match read_items(input, 0) {
            Ok(statements) => Ok(Script::from(statements)),
            Err(stop) => Err(describe(input, stop)),
        }
    }
}

} // verus!
