//! The evaluator: it walks a program, keeps the variable environment,
//! expands templates and turns statements into the actions of a run.
//!
//! Nothing is sent anywhere while a program is evaluated. What the program
//! asks of the remote host and of the local machine is written down, in
//! order, as a list of actions; the values of expressions never depend on
//! how an action ends, so the list is what the run will do up to the first
//! action that fails.

use crate::built_in_functions::{dispatch, execute_function};
use crate::environment::{assign, display, lookup, names_of, texts_of, EnvView, Environment};
use crate::error::{ErrorView, SeeedError};
use crate::parser::{
    exprs_view, items_view, values_view, Expr, ExprView, ItemView, ScriptItem, Value, ValueView,
};
use crate::template::{expand, expansion, has_placeholder};
use crate::text::{join_lines, joined};
use vstd::prelude::*;

verus! {

/// What a run asks of the remote host or of the local machine.
#[derive(Debug, PartialEq, Eq)]
pub enum Action {
    /// Open the session to the target address.
    Connect(String),
    /// Run shell text on the remote host.
    Run(String),
    /// Write the content to the path on the remote host.
    Upload(String, String),
    /// Read the local file at the first path and write what it holds to the
    /// second path on the remote host.
    UploadFile(String, String),
    /// Show a line on the local console.
    Echo(String),
    /// Run a command line on the local machine.
    Exec(String),
}

/// The mathematical model of an [`Action`].
pub enum ActionView {
    Connect(Seq<char>),
    Run(Seq<char>),
    Upload(Seq<char>, Seq<char>),
    UploadFile(Seq<char>, Seq<char>),
    Echo(Seq<char>),
    Exec(Seq<char>),
}

impl View for Action {
    type V = ActionView;

    open spec fn view(&self) -> ActionView {
        match self {
            Action::Connect(target) => ActionView::Connect(target@),
            Action::Run(text) => ActionView::Run(text@),
            Action::Upload(content, path) => ActionView::Upload(content@, path@),
            Action::UploadFile(local, path) => ActionView::UploadFile(local@, path@),
            Action::Echo(text) => ActionView::Echo(text@),
            Action::Exec(command) => ActionView::Exec(command@),
        }
    }
}

/// The models of a sequence of actions, in order.
pub open spec fn actions_view(items: Seq<Action>) -> Seq<ActionView> {
    Seq::new(items.len(), |i: int| items[i]@)
}

/// The state of an evaluation: the bindings, the target address given from
/// outside if any, whether the session has been asked for, and the actions
/// written down so far.
pub struct MachineView {
    pub env: EnvView,
    pub target: Option<Seq<char>>,
    pub connected: bool,
    pub actions: Seq<ActionView>,
}

/// The target address of the session: the one given from outside wins;
/// without one, it is the display form of the variable `target`.
pub open spec fn target_of(m: MachineView) -> Option<Seq<char>> {
    match m.target {
        Some(address) => Some(address),
        None => match lookup(m.env, "target"@) {
            Some(value) => Some(display(value)),
            None => None,
        },
    }
}

/// The state after the session has been asked for. The first time, the
/// target address is settled and the session is opened; later, nothing
/// happens. Without a target address the run fails.
pub open spec fn connect(m: MachineView) -> Result<MachineView, ErrorView> {
    if m.connected {
        Ok(m)
    } else {
        match target_of(m) {
            Some(address) => Ok(
                MachineView {
                    connected: true,
                    actions: m.actions.push(ActionView::Connect(address)),
                    ..m
                },
            ),
            None => Err(ErrorView::BadTarget),
        }
    }
}

/// The expansion of a text against the bindings.
pub open spec fn expand_in(text: Seq<char>, env: EnvView) -> Result<Seq<char>, ErrorView> {
    match expansion(text, names_of(env), texts_of(env)) {
        Some(expanded) => Ok(expanded),
        None => Err(ErrorView::Template),
    }
}

/// What a statement of remote shell text does: the text is expanded, the
/// session is asked for, and the expanded text is handed over to run.
pub open spec fn run_remote(text: Seq<char>, m: MachineView) -> (
    Result<(), ErrorView>,
    MachineView,
) {
    match expand_in(text, m.env) {
        Ok(expanded) => match connect(m) {
            Ok(ready) => (
                Ok(()),
                MachineView { actions: ready.actions.push(ActionView::Run(expanded)), ..ready },
            ),
            Err(error) => (Err(error), m),
        },
        Err(error) => (Err(error), m),
    }
}

/// The value of an expression and the state after its evaluation.
pub open spec fn eval(e: ExprView, m: MachineView) -> (Result<ValueView, ErrorView>, MachineView)
    decreases e,
{
    match e {
        ExprView::Literal(ValueView::String(text)) => match expand_in(text, m.env) {
            Ok(expanded) => (Ok(ValueView::String(expanded)), m),
            Err(error) => (Err(error), m),
        },
        ExprView::Literal(ValueView::HereDocText(text)) => match expand_in(text, m.env) {
            Ok(expanded) => (Ok(ValueView::HereDocText(expanded)), m),
            Err(error) => (Err(error), m),
        },
        ExprView::Literal(value) => (Ok(value), m),
        ExprView::Variable(name) => match lookup(m.env, name) {
            Some(value) => (Ok(value), m),
            None => (Err(ErrorView::UndefinedVar(name)), m),
        },
        ExprView::FnCall(name, args) => {
            let (values, after) = eval_all(args, m);
            match values {
                Ok(list) => dispatch(name, list, after),
                Err(error) => (Err(error), after),
            }
        },
        ExprView::Array(items) => {
            let (values, after) = eval_all(items, m);
            match values {
                Ok(list) => (Ok(ValueView::Array(list)), after),
                Err(error) => (Err(error), after),
            }
        },
        ExprView::HereDoc(raw) => match expand_in(raw, m.env) {
            Ok(expanded) => (Ok(ValueView::HereDocText(expanded)), m),
            Err(error) => (Err(error), m),
        },
    }
}

/// The values of expressions, evaluated from left to right, and the state
/// after the last evaluation. The first error ends it.
pub open spec fn eval_all(items: Seq<ExprView>, m: MachineView) -> (
    Result<Seq<ValueView>, ErrorView>,
    MachineView,
)
    decreases items,
{
    if items.len() == 0 {
        (Ok(Seq::empty()), m)
    } else {
        let (first, after) = eval(items[0], m);
        match first {
            Ok(value) => {
                let (rest, last) = eval_all(items.subrange(1, items.len() as int), after);
                match rest {
                    Ok(values) => (Ok(seq![value] + values), last),
                    Err(error) => (Err(error), last),
                }
            },
            Err(error) => (Err(error), after),
        }
    }
}

/// The outcome of a call, without its value.
pub open spec fn discard(outcome: (Result<ValueView, ErrorView>, MachineView)) -> (
    Result<(), ErrorView>,
    MachineView,
) {
    match outcome.0 {
        Ok(_) => (Ok(()), outcome.1),
        Err(error) => (Err(error), outcome.1),
    }
}

/// What a statement does to the state. An error leaves the state as it was
/// when the error came up, and ends the run.
pub open spec fn exec_item(item: ItemView, m: MachineView) -> (Result<(), ErrorView>, MachineView)
    decreases item, 0nat,
{
    match item {
        ItemView::Comment => (Ok(()), m),
        ItemView::EmptyLine => (Ok(()), m),
        ItemView::Assign(name, value) => {
            let (outcome, after) = eval(value, m);
            match outcome {
                Ok(v) => (Ok(()), MachineView { env: assign(after.env, name, v), ..after }),
                Err(error) => (Err(error), after),
            }
        },
        ItemView::RemoteSingle(text) => run_remote(text, m),
        ItemView::RemoteBlock(lines) => run_remote(joined(lines), m),
        ItemView::FnCall(name, args) => discard(eval(ExprView::FnCall(name, args), m)),
        ItemView::ForLoop(name, source, body) => {
            let (outcome, after) = eval(source, m);
            match outcome {
                Ok(ValueView::Array(values)) => exec_loop(name, values, body, after),
                Ok(_) => (Err(ErrorView::NotIterable), after),
                Err(error) => (Err(error), after),
            }
        },
    }
}

/// What a loop does: for each value in order, the variable is bound to
/// it in the one environment and the body runs.
pub open spec fn exec_loop(
    name: Seq<char>,
    values: Seq<ValueView>,
    body: Seq<ItemView>,
    m: MachineView,
) -> (Result<(), ErrorView>, MachineView)
    decreases body, values.len() + 1,
{
    if values.len() == 0 {
        (Ok(()), m)
    } else {
        let bound = MachineView { env: assign(m.env, name, values[0]), ..m };
        let (outcome, after) = exec_block(body, bound);
        match outcome {
            Ok(_) => exec_loop(name, values.subrange(1, values.len() as int), body, after),
            Err(error) => (Err(error), after),
        }
    }
}

/// What statements do, one after another, up to the first error.
pub open spec fn exec_block(items: Seq<ItemView>, m: MachineView) -> (
    Result<(), ErrorView>,
    MachineView,
)
    decreases items, 0nat,
{
    if items.len() == 0 {
        (Ok(()), m)
    } else {
        let (outcome, after) = exec_item(items[0], m);
        match outcome {
            Ok(_) => exec_block(items.subrange(1, items.len() as int), after),
            Err(error) => (Err(error), after),
        }
    }
}

/// The evaluator of a run.
#[derive(Debug)]
pub struct Evaluator {
    variables: Environment,
    target: Option<String>,
    connected: bool,
    actions: Vec<Action>,
}

/// The model of an optional text.
pub open spec fn text_option(text: Option<String>) -> Option<Seq<char>> {
    match text {
        Some(t) => Some(t@),
        None => None,
    }
}

/// The model of the outcome of an evaluation.
pub open spec fn value_result(r: Result<Value, SeeedError>) -> Result<ValueView, ErrorView> {
    match r {
        Ok(value) => Ok(value@),
        Err(error) => Err(error@),
    }
}

/// The model of the outcome of the evaluation of several expressions.
pub open spec fn values_result(r: Result<Vec<Value>, SeeedError>) -> Result<
    Seq<ValueView>,
    ErrorView,
> {
    match r {
        Ok(values) => Ok(values_view(values@)),
        Err(error) => Err(error@),
    }
}

/// The model of the outcome of a statement.
pub open spec fn unit_result(r: Result<(), SeeedError>) -> Result<(), ErrorView> {
    match r {
        Ok(_) => Ok(()),
        Err(error) => Err(error@),
    }
}

/// The model of the outcome of an expansion.
pub open spec fn text_result(r: Result<String, SeeedError>) -> Result<Seq<char>, ErrorView> {
    match r {
        Ok(text) => Ok(text@),
        Err(error) => Err(error@),
    }
}

impl View for Evaluator {
    type V = MachineView;

    closed spec fn view(&self) -> MachineView {
        MachineView {
            env: self.variables@,
            target: text_option(self.target),
            connected: self.connected,
            actions: actions_view(self.actions@),
        }
    }
}

proof fn lemma_values_push(items: Seq<Value>, last: Value)
    ensures
        values_view(items.push(last)) == values_view(items).push(last@),
{
    assert(values_view(items.push(last)) =~= values_view(items).push(last@));
}

impl Evaluator {
    /// An evaluator at the start of a run: nothing is bound, the session has
    /// not been asked for, and no action is written down. `target` is the
    /// target address given from outside, if any.
    pub fn new(target: Option<String>) -> (r: Evaluator)
        ensures
            r@ == (MachineView {
                env: Seq::empty(),
                target: text_option(target),
                connected: false,
                actions: Seq::empty(),
            }),
    {
        let r = Evaluator {
            variables: Environment::new(),
            target,
            connected: false,
            actions: Vec::new(),
        };
        assert(actions_view(r.actions@) =~= Seq::<ActionView>::empty());
        r
    }

    /// Binds `name` to `value`, in place of what it was bound to before.
    pub fn define(&mut self, name: String, value: Value)
        ensures
            final(self)@ == (MachineView {
                env: assign(old(self)@.env, name@, value@),
                ..old(self)@
            }),
    {
        self.variables.set(name, value);
    }

    /// The value bound to `name`, where it is bound.
    pub fn variable(&self, name: &String) -> (r: Option<&Value>)
        ensures
            match r {
                Some(value) => lookup(self@.env, name@) == Some(value@),
                None => lookup(self@.env, name@) is None,
            },
    {
        self.variables.get(name)
    }

    /// The actions written down so far, in order.
    pub fn actions(&self) -> (r: &Vec<Action>)
        ensures
            actions_view(r@) == self@.actions,
    {
        &self.actions
    }

    /// Writes an action down after those written down so far.
    pub(crate) fn note(&mut self, action: Action)
        ensures
            final(self)@ == (MachineView {
                actions: old(self)@.actions.push(action@),
                ..old(self)@
            }),
    {
        self.actions.push(action);
        assert(actions_view(self.actions@) =~= actions_view(old(self).actions@).push(action@));
    }

    /// Expands the placeholders of `source` against the bindings as they are
    /// now. A text without a placeholder comes back unchanged.
    pub fn resolve_template(&self, source: &str) -> (r: Result<String, SeeedError>)
        ensures
            text_result(r) == expand_in(source@, self@.env),
            !has_placeholder(source@) ==> (r matches Ok(text) && text@ == source@),
    {
        let names = self.variables.names();
        let texts = self.variables.texts();
        match expand(source, &names, &texts) {
            Ok(text) => Ok(text),
            Err(error) => Err(SeeedError::Template(error)),
        }
    }

    /// The target address of the session: the one given from outside, or
    /// else the display form of the variable `target`.
    pub fn resolve_target(&self) -> (r: Option<String>)
        ensures
            text_option(r) == target_of(self@),
    {
        match &self.target {
            Some(address) => Some(address.clone()),
            None => {
                let name: String = "target".to_owned();
                match self.variables.get(&name) {
                    Some(value) => Some(value.to_string()),
                    None => None,
                }
            },
        }
    }

    /// Asks for the session. The first time, this settles the target address
    /// and writes down that the session is to be opened; without a target
    /// address it fails and changes nothing. Later it does nothing.
    pub fn ensure_connected(&mut self) -> (r: Result<(), SeeedError>)
        ensures
            match connect(old(self)@) {
                Ok(ready) => r is Ok && final(self)@ == ready,
                Err(error) => r matches Err(e) && e@ == error && final(self)@ == old(self)@,
            },
    {
        if self.connected {
            return Ok(());
        }
        match self.resolve_target() {
            Some(address) => {
                self.note(Action::Connect(address));
                self.connected = true;
                Ok(())
            },
            None => Err(SeeedError::BadTarget),
        }
    }

    /// Evaluates an expression: text is expanded against the bindings, a
    /// variable yields what it is bound to, an array yields the values of
    /// its items, and a call yields what the built-in function yields.
    pub fn expand_expr(&mut self, expr: &Expr) -> (r: Result<Value, SeeedError>)
        ensures
            (value_result(r), final(self)@) == eval(expr@, old(self)@),
        decreases expr,
    {
        match expr {
            Expr::Literal(Value::String(text)) => match self.resolve_template(text.as_str()) {
                Ok(expanded) => Ok(Value::String(expanded)),
                Err(error) => Err(error),
            },
            Expr::Literal(Value::HereDocText(text)) => match self.resolve_template(text.as_str()) {
                Ok(expanded) => Ok(Value::HereDocText(expanded)),
                Err(error) => Err(error),
            },
            Expr::Literal(value) => Ok(value.duplicate()),
            Expr::Variable(name) => match self.variables.get(name) {
                Some(value) => Ok(value.duplicate()),
                None => Err(SeeedError::UndefinedVar(name.clone())),
            },
            Expr::FnCall(name, args) => {
                assert(decreases_to!(expr => expr->FnCall_1));
                match self.expand_all(args) {
                    Ok(values) => execute_function(name.as_str(), values, self),
                    Err(error) => Err(error),
                }
            },
            Expr::Array(items) => {
                assert(decreases_to!(expr => expr->Array_0));
                match self.expand_all(items) {
                    Ok(values) => Ok(Value::Array(values)),
                    Err(error) => Err(error),
                }
            },
            Expr::HereDoc(raw) => match self.resolve_template(raw.as_str()) {
                Ok(expanded) => Ok(Value::HereDocText(expanded)),
                Err(error) => Err(error),
            },
        }
    }

    /// Evaluates expressions from left to right, up to the first error.
    pub fn expand_all(&mut self, items: &Vec<Expr>) -> (r: Result<Vec<Value>, SeeedError>)
        ensures
            (values_result(r), final(self)@) == eval_all(exprs_view(items@), old(self)@),
        decreases items,
    {
        let ghost all = exprs_view(items@);
        let mut values: Vec<Value> = Vec::new();
        let mut k: usize = 0;
        assert(all.subrange(0, all.len() as int) =~= all);
        assert(values_view(values@) =~= Seq::<ValueView>::empty());
        proof {
            lemma_eval_all_prefix(Seq::empty(), eval_all(all, self@));
        }
        while k < items.len()
            invariant
                k <= items@.len(),
                all == exprs_view(items@),
                eval_all(all, old(self)@) == with_prefix(
                    values_view(values@),
                    eval_all(all.subrange(k as int, all.len() as int), self@),
                ),
            decreases items@.len() - k,
        {
            let ghost before = self@;
            let ghost rest = all.subrange(k as int, all.len() as int);
            let item = &items[k];
            assert(decreases_to!(items => item)) by {
                assert(decreases_to!(items => items@));
                assert(decreases_to!(items@ => items@[k as int]));
            }
            assert(rest[0] == item@);
            assert(rest.subrange(1, rest.len() as int) =~= all.subrange(k + 1, all.len() as int));
            match self.expand_expr(item) {
                Ok(value) => {
                    proof {
                        lemma_values_push(values@, value);
                        lemma_with_prefix_twice(
                            values_view(values@),
                            seq![value@],
                            eval_all(all.subrange(k + 1, all.len() as int), self@),
                        );
                        assert(values_view(values@) + seq![value@] =~= values_view(values@).push(
                            value@,
                        ));
                    }
                    values.push(value);
                    k = k + 1;
                },
                Err(error) => {
                    return Err(error);
                },
            }
        }
        assert(all.subrange(k as int, all.len() as int) =~= Seq::<ExprView>::empty());
        assert(values_view(values@) + Seq::<ValueView>::empty() =~= values_view(values@));
        Ok(values)
    }

    /// Hands remote shell text over: the text is expanded, the session is
    /// asked for, and the expanded text is written down to be run.
    pub fn remote(&mut self, text: &str) -> (r: Result<(), SeeedError>)
        ensures
            (unit_result(r), final(self)@) == run_remote(text@, old(self)@),
    {
        match self.resolve_template(text) {
            Ok(expanded) => match self.ensure_connected() {
                Ok(_) => {
                    self.note(Action::Run(expanded));
                    Ok(())
                },
                Err(error) => Err(error),
            },
            Err(error) => Err(error),
        }
    }

    /// Executes one statement.
    pub fn execute(&mut self, item: &ScriptItem) -> (r: Result<(), SeeedError>)
        ensures
            (unit_result(r), final(self)@) == exec_item(item@, old(self)@),
        decreases item, 0nat,
    {
        match item {
            ScriptItem::Comment => Ok(()),
            ScriptItem::EmptyLine => Ok(()),
            ScriptItem::Assign(name, value) => match self.expand_expr(value) {
                Ok(v) => {
                    self.variables.set(name.clone(), v);
                    Ok(())
                },
                Err(error) => Err(error),
            },
            ScriptItem::RemoteSingle(text) => self.remote(text.as_str()),
            ScriptItem::RemoteBlock(lines) => {
                let text = join_lines(lines);
                self.remote(text.as_str())
            },
            ScriptItem::FnCall(name, args) => match self.expand_all(args) {
                Ok(values) => match execute_function(name.as_str(), values, self) {
                    Ok(_) => Ok(()),
                    Err(error) => Err(error),
                },
                Err(error) => Err(error),
            },
            ScriptItem::ForLoop(name, source, body) => match self.expand_expr(source) {
                Ok(Value::Array(values)) => {
                    assert(decreases_to!(item => item->ForLoop_2));
                    self.execute_loop(name, &values, body)
                },
                Ok(_) => Err(SeeedError::NotIterable),
                Err(error) => Err(error),
            },
        }
    }

    /// Runs the body of a loop once for each value, in order.
    pub fn execute_loop(
        &mut self,
        name: &String,
        values: &Vec<Value>,
        body: &Vec<ScriptItem>,
    ) -> (r: Result<(), SeeedError>)
        ensures
            (unit_result(r), final(self)@) == exec_loop(
                name@,
                values_view(values@),
                items_view(body@),
                old(self)@,
            ),
        decreases body, values@.len() + 1,
    {
        let ghost all = values_view(values@);
        let mut k: usize = 0;
        assert(all.subrange(0, all.len() as int) =~= all);
        while k < values.len()
            invariant
                k <= values@.len(),
                all == values_view(values@),
                exec_loop(name@, all, items_view(body@), old(self)@) == exec_loop(
                    name@,
                    all.subrange(k as int, all.len() as int),
                    items_view(body@),
                    self@,
                ),
            decreases values@.len() - k,
        {
            let ghost rest = all.subrange(k as int, all.len() as int);
            assert(rest[0] == values@[k as int]@);
            assert(rest.subrange(1, rest.len() as int) =~= all.subrange(k + 1, all.len() as int));
            self.variables.set(name.clone(), values[k].duplicate());
            match self.execute_block(body) {
                Ok(_) => {},
                Err(error) => {
                    return Err(error);
                },
            }
            k = k + 1;
        }
        assert(all.subrange(k as int, all.len() as int) =~= Seq::<ValueView>::empty());
        Ok(())
    }

    /// Executes statements one after another, up to the first error.
    pub fn execute_block(&mut self, items: &Vec<ScriptItem>) -> (r: Result<(), SeeedError>)
        ensures
            (unit_result(r), final(self)@) == exec_block(items_view(items@), old(self)@),
        decreases items, 0nat,
    {
        let ghost all = items_view(items@);
        let mut k: usize = 0;
        assert(all.subrange(0, all.len() as int) =~= all);
        while k < items.len()
            invariant
                k <= items@.len(),
                all == items_view(items@),
                exec_block(all, old(self)@) == exec_block(
                    all.subrange(k as int, all.len() as int),
                    self@,
                ),
            decreases items@.len() - k,
        {
            let ghost rest = all.subrange(k as int, all.len() as int);
            let item = &items[k];
            assert(decreases_to!(items => item)) by {
                assert(decreases_to!(items => items@));
                assert(decreases_to!(items@ => items@[k as int]));
            }
            assert(rest[0] == item@);
            assert(rest.subrange(1, rest.len() as int) =~= all.subrange(k + 1, all.len() as int));
            match self.execute(item) {
                Ok(_) => {},
                Err(error) => {
                    return Err(error);
                },
            }
            k = k + 1;
        }
        assert(all.subrange(k as int, all.len() as int) =~= Seq::<ItemView>::empty());
        Ok(())
    }
}

/// An outcome with `head` put in front of the values.
pub open spec fn with_prefix(
    head: Seq<ValueView>,
    tail: (Result<Seq<ValueView>, ErrorView>, MachineView),
) -> (Result<Seq<ValueView>, ErrorView>, MachineView) {
    match tail.0 {
        Ok(values) => (Ok(head + values), tail.1),
        Err(error) => (Err(error), tail.1),
    }
}

proof fn lemma_eval_all_prefix(
    head: Seq<ValueView>,
    tail: (Result<Seq<ValueView>, ErrorView>, MachineView),
)
    requires
        head.len() == 0,
    ensures
        with_prefix(head, tail) == tail,
{
    match tail.0 {
        Ok(values) => {
            assert(head + values =~= values);
        },
        Err(_) => {},
    }
}

proof fn lemma_with_prefix_twice(
    a: Seq<ValueView>,
    b: Seq<ValueView>,
    tail: (Result<Seq<ValueView>, ErrorView>, MachineView),
)
    ensures
        with_prefix(a, with_prefix(b, tail)) == with_prefix(a + b, tail),
{
    match tail.0 {
        Ok(values) => {
            assert(a + (b + values) =~= (a + b) + values);
        },
        Err(_) => {},
    }
}

} // verus!
