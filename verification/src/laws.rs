//! What holds of every evaluation, whatever the program and the state.

use crate::built_in_functions::{
    dispatch, echo_actions, upload, upload_source_message, upload_target_message,
};
use crate::environment::{
    assign, display, distinct, lemma_position, lookup, mapping, position, EnvView,
};
use crate::error::ErrorView;
use crate::evaluator::{
    connect, eval, eval_all, exec_block, exec_item, exec_loop, expand_in, run_remote, target_of,
    ActionView, MachineView,
};
use crate::template::has_placeholder;
use crate::parser::{ExprView, ItemView, ValueView};
use crate::script::planned;
use vstd::prelude::*;

verus! {

/// The number of times that actions open the session.
pub open spec fn connects(actions: Seq<ActionView>) -> nat
    decreases actions.len(),
{
    if actions.len() == 0 {
        0
    } else if actions.last() is Connect {
        connects(actions.drop_last()) + 1
    } else {
        connects(actions.drop_last())
    }
}

/// Whether the state `after` continues the state `before`: the target
/// address given from outside is the same, the actions of `before` still
/// stand first and in order, a session once asked for stays asked for, and
/// among the actions that came after, one opens the session if it had not
/// been asked for and now is, and none does otherwise.
pub open spec fn continues(before: MachineView, after: MachineView) -> bool {
    &&& after.target == before.target
    &&& before.connected ==> after.connected
    &&& before.actions.len() <= after.actions.len()
    &&& after.actions.take(before.actions.len() as int) == before.actions
    &&& connects(after.actions.skip(before.actions.len() as int)) == (if !before.connected
        && after.connected {
        1nat
    } else {
        0nat
    })
}

proof fn lemma_connects_concat(a: Seq<ActionView>, b: Seq<ActionView>)
    ensures
        connects(a + b) == connects(a) + connects(b),
    decreases b.len(),
{
    if b.len() == 0 {
        assert(a + b =~= a);
    } else {
        assert((a + b).drop_last() =~= a + b.drop_last());
        assert((a + b).last() == b.last());
        lemma_connects_concat(a, b.drop_last());
    }
}

proof fn lemma_connects_none(actions: Seq<ActionView>)
    requires
        forall|i: int| 0 <= i < actions.len() ==> !(#[trigger] actions[i] is Connect),
    ensures
        connects(actions) == 0,
    decreases actions.len(),
{
    if actions.len() > 0 {
        lemma_connects_none(actions.drop_last());
    }
}

/// Every state continues itself.
pub proof fn lemma_continues_same(m: MachineView)
    ensures
        continues(m, m),
{
    assert(m.actions.take(m.actions.len() as int) =~= m.actions);
    assert(m.actions.skip(m.actions.len() as int) =~= Seq::<ActionView>::empty());
}

/// What continues a continuation continues the first state.
pub proof fn lemma_continues_chain(a: MachineView, b: MachineView, c: MachineView)
    requires
        continues(a, b),
        continues(b, c),
    ensures
        continues(a, c),
{
    let n = a.actions.len() as int;
    let k = b.actions.len() as int;
    assert(c.actions.take(n) =~= c.actions.take(k).take(n));
    assert(c.actions.skip(n) =~= b.actions.skip(n) + c.actions.skip(k)) by {
        assert(b.actions == c.actions.take(k));
    }
    lemma_connects_concat(b.actions.skip(n), c.actions.skip(k));
}

/// A state with one more action that does not open the session continues
/// the state.
pub proof fn lemma_continues_push(m: MachineView, action: ActionView)
    requires
        !(action is Connect),
    ensures
        continues(m, MachineView { actions: m.actions.push(action), ..m }),
{
    let after = m.actions.push(action);
    assert(after.take(m.actions.len() as int) =~= m.actions);
    assert(after.skip(m.actions.len() as int) =~= seq![action]);
    assert(seq![action].drop_last() =~= Seq::<ActionView>::empty());
    assert(connects(seq![action]) == 0) by {
        lemma_connects_none(seq![action]);
    }
}

/// Asking for the session opens it at most once: the first time with the
/// target address of that moment, and never when it has been asked for.
pub proof fn lemma_connect_continues(m: MachineView)
    ensures
        connect(m) matches Ok(ready) ==> continues(m, ready) && ready.connected && ready.env
            == m.env,
        connect(m) is Err ==> !m.connected && target_of(m) is None,
{
    match connect(m) {
        Ok(ready) => {
            if m.connected {
                lemma_continues_same(m);
            } else {
                let action = ActionView::Connect(target_of(m)->0);
                assert(ready.actions.take(m.actions.len() as int) =~= m.actions);
                assert(ready.actions.skip(m.actions.len() as int) =~= seq![action]);
                assert(seq![action].drop_last() =~= Seq::<ActionView>::empty());
                assert(connects(seq![action]) == 1) by {
                    assert(connects(Seq::<ActionView>::empty()) == 0);
                }
            }
        },
        Err(_) => {},
    }
}

/// Remote shell text leaves the bindings alone and continues the state.
pub proof fn lemma_run_remote_continues(text: Seq<char>, m: MachineView)
    ensures
        continues(m, run_remote(text, m).1),
        run_remote(text, m).1.env == m.env,
        run_remote(text, m).0 is Err ==> run_remote(text, m).1 == m,
{
    lemma_continues_same(m);
    lemma_connect_continues(m);
    match crate::evaluator::expand_in(text, m.env) {
        Ok(expanded) => match connect(m) {
            Ok(ready) => {
                lemma_continues_push(ready, ActionView::Run(expanded));
                lemma_continues_chain(m, ready, run_remote(text, m).1);
            },
            Err(_) => {},
        },
        Err(_) => {},
    }
}

/// A call of a built-in function leaves the bindings alone and continues
/// the state; a call that fails leaves the state as it was.
pub proof fn lemma_dispatch_continues(name: Seq<char>, args: Seq<ValueView>, m: MachineView)
    ensures
        continues(m, dispatch(name, args, m).1),
        dispatch(name, args, m).1.env == m.env,
        dispatch(name, args, m).0 is Err ==> dispatch(name, args, m).1 == m,
{
    lemma_continues_same(m);
    lemma_connect_continues(m);
    let after = dispatch(name, args, m).1;
    if name == "echo"@ {
        let lines = echo_actions(args);
        assert(after.actions.take(m.actions.len() as int) =~= m.actions);
        assert(after.actions.skip(m.actions.len() as int) =~= lines);
        lemma_connects_none(lines);
    } else if name == "exec"@ {
        if args.len() == 1 {
            lemma_continues_push(m, ActionView::Exec(crate::environment::display(args[0])));
        }
    } else if name == "upload"@ {
        if dispatch(name, args, m).0 is Ok {
            let ready = connect(m)->Ok_0;
            lemma_continues_push(ready, after.actions.last());
            assert(after.actions =~= ready.actions.push(after.actions.last()));
            lemma_continues_chain(m, ready, after);
        }
    }
}

/// The evaluation of an expression leaves the bindings alone and continues
/// the state.
pub proof fn lemma_eval_continues(e: ExprView, m: MachineView)
    ensures
        continues(m, eval(e, m).1),
        eval(e, m).1.env == m.env,
    decreases e,
{
    lemma_continues_same(m);
    match e {
        ExprView::FnCall(name, args) => {
            lemma_eval_all_continues(args, m);
            let (values, after) = eval_all(args, m);
            match values {
                Ok(list) => {
                    lemma_dispatch_continues(name, list, after);
                    lemma_continues_chain(m, after, dispatch(name, list, after).1);
                },
                Err(_) => {},
            }
        },
        ExprView::Array(items) => {
            lemma_eval_all_continues(items, m);
        },
        _ => {},
    }
}

/// The evaluation of several expressions leaves the bindings alone and
/// continues the state.
pub proof fn lemma_eval_all_continues(items: Seq<ExprView>, m: MachineView)
    ensures
        continues(m, eval_all(items, m).1),
        eval_all(items, m).1.env == m.env,
    decreases items,
{
    lemma_continues_same(m);
    if items.len() > 0 {
        lemma_eval_continues(items[0], m);
        let (first, after) = eval(items[0], m);
        match first {
            Ok(_) => {
                let rest = items.subrange(1, items.len() as int);
                lemma_eval_all_continues(rest, after);
                lemma_continues_chain(m, after, eval_all(rest, after).1);
            },
            Err(_) => {},
        }
    }
}

/// A statement continues the state.
pub proof fn lemma_exec_item_continues(item: ItemView, m: MachineView)
    ensures
        continues(m, exec_item(item, m).1),
    decreases item, 0nat,
{
    lemma_continues_same(m);
    match item {
        ItemView::Comment => {},
        ItemView::EmptyLine => {},
        ItemView::Assign(name, value) => {
            lemma_eval_continues(value, m);
            let (outcome, after) = eval(value, m);
            match outcome {
                Ok(v) => {
                    let bound = MachineView { env: assign(after.env, name, v), ..after };
                    lemma_continues_same(after);
                    assert(continues(after, bound));
                    lemma_continues_chain(m, after, bound);
                },
                Err(_) => {},
            }
        },
        ItemView::RemoteSingle(text) => {
            lemma_run_remote_continues(text, m);
        },
        ItemView::RemoteBlock(lines) => {
            lemma_run_remote_continues(crate::text::joined(lines), m);
        },
        ItemView::FnCall(name, args) => {
            lemma_eval_continues(ExprView::FnCall(name, args), m);
        },
        ItemView::ForLoop(name, source, body) => {
            lemma_eval_continues(source, m);
            let (outcome, after) = eval(source, m);
            match outcome {
                Ok(ValueView::Array(values)) => {
                    lemma_exec_loop_continues(name, values, body, after);
                    lemma_continues_chain(m, after, exec_loop(name, values, body, after).1);
                },
                _ => {},
            }
        },
    }
}

/// A loop continues the state.
pub proof fn lemma_exec_loop_continues(
    name: Seq<char>,
    values: Seq<ValueView>,
    body: Seq<ItemView>,
    m: MachineView,
)
    ensures
        continues(m, exec_loop(name, values, body, m).1),
    decreases body, values.len() + 1,
{
    lemma_continues_same(m);
    if values.len() > 0 {
        let bound = MachineView { env: assign(m.env, name, values[0]), ..m };
        assert(continues(m, bound));
        lemma_exec_block_continues(body, bound);
        let (outcome, after) = exec_block(body, bound);
        lemma_continues_chain(m, bound, after);
        match outcome {
            Ok(_) => {
                let rest = values.subrange(1, values.len() as int);
                lemma_exec_loop_continues(name, rest, body, after);
                lemma_continues_chain(m, after, exec_loop(name, rest, body, after).1);
            },
            Err(_) => {},
        }
    }
}

/// Statements one after another continue the state.
pub proof fn lemma_exec_block_continues(items: Seq<ItemView>, m: MachineView)
    ensures
        continues(m, exec_block(items, m).1),
    decreases items, 0nat,
{
    lemma_continues_same(m);
    if items.len() > 0 {
        lemma_exec_item_continues(items[0], m);
        let (outcome, after) = exec_item(items[0], m);
        match outcome {
            Ok(_) => {
                let rest = items.subrange(1, items.len() as int);
                lemma_exec_block_continues(rest, after);
                lemma_continues_chain(m, after, exec_block(rest, after).1);
            },
            Err(_) => {},
        }
    }
}

/// The session is opened at most once in a run, and only when something
/// is asked of the remote host: whatever the script, its plan continues the
/// state from which it starts.
pub proof fn lemma_planned_continues(text: Seq<u8>, m: MachineView)
    ensures
        continues(m, planned(text, m).1),
{
    lemma_continues_same(m);
    match crate::parser::grammar::script(text) {
        Ok(items) => {
            lemma_exec_block_continues(items, m);
        },
        Err(_) => {},
    }
}

/// The last write wins: after a name is bound, it is bound to the value
/// given, and every other name is bound as before.
pub proof fn lemma_assign_then_lookup(
    env: EnvView,
    name: Seq<char>,
    value: ValueView,
    other: Seq<char>,
)
    ensures
        lookup(assign(env, name, value), name) == Some(value),
        other != name ==> lookup(assign(env, name, value), other) == lookup(env, other),
{
    lemma_position(env, name, 0);
    lemma_position(env, other, 0);
    let after = assign(env, name, value);
    lemma_position(after, name, 0);
    lemma_position(after, other, 0);
    let found = position(env, name, 0);
    if found >= 0 {
        assert(after[found].0 == name);
        assert(forall|k: int| 0 <= k < env.len() && k != found ==> after[k] == env[k]);
    } else {
        assert(after[env.len() as int].0 == name);
        assert(forall|k: int| 0 <= k < env.len() ==> after[k] == env[k]);
    }
    if other != name {
        let before = position(env, other, 0);
        let now = position(after, other, 0);
        if before >= 0 {
            assert(after[before].0 == other);
            assert(now >= 0);
            assert(env[now].0 == other);
        } else if now >= 0 {
            assert(now < env.len());
            assert(env[now].0 == other);
        }
    }
}

/// The bindings stand for a mapping, and binding a name is inserting it.
pub proof fn lemma_assign_is_insert(env: EnvView, name: Seq<char>, value: ValueView)
    ensures
        mapping(assign(env, name, value)) == mapping(env).insert(name, value),
{
    assert forall|other: Seq<char>|
        lookup(assign(env, name, value), other) == (if other == name {
            Some(value)
        } else {
            lookup(env, other)
        }) by {
        lemma_assign_then_lookup(env, name, value, other);
    }
    assert(mapping(assign(env, name, value)) =~= mapping(env).insert(name, value));
}

/// No name is ever bound twice: binding keeps the names distinct.
pub proof fn lemma_assign_keeps_distinct(env: EnvView, name: Seq<char>, value: ValueView)
    requires
        distinct(env),
    ensures
        distinct(assign(env, name, value)),
{
    lemma_position(env, name, 0);
    let after = assign(env, name, value);
    let found = position(env, name, 0);
    assert forall|i: int, j: int| 0 <= i < j < after.len() implies (#[trigger] after[i]).0 != (
    #[trigger] after[j]).0 by {
        if found >= 0 {
            assert(after[i].0 == env[i].0);
            assert(after[j].0 == env[j].0);
        } else {
            if j < env.len() {
                assert(after[i] == env[i]);
                assert(after[j] == env[j]);
            } else {
                assert(after[i] == env[i]);
            }
        }
    }
}

/// No statement ever binds a name twice.
pub proof fn lemma_exec_item_keeps_distinct(item: ItemView, m: MachineView)
    requires
        distinct(m.env),
    ensures
        distinct(exec_item(item, m).1.env),
    decreases item, 0nat,
{
    match item {
        ItemView::Comment => {},
        ItemView::EmptyLine => {},
        ItemView::Assign(name, value) => {
            lemma_eval_continues(value, m);
            let (outcome, after) = eval(value, m);
            match outcome {
                Ok(v) => {
                    lemma_assign_keeps_distinct(after.env, name, v);
                },
                Err(_) => {},
            }
        },
        ItemView::RemoteSingle(text) => {
            lemma_run_remote_continues(text, m);
        },
        ItemView::RemoteBlock(lines) => {
            lemma_run_remote_continues(crate::text::joined(lines), m);
        },
        ItemView::FnCall(name, args) => {
            lemma_eval_continues(ExprView::FnCall(name, args), m);
        },
        ItemView::ForLoop(name, source, body) => {
            lemma_eval_continues(source, m);
            let (outcome, after) = eval(source, m);
            match outcome {
                Ok(ValueView::Array(values)) => {
                    lemma_exec_loop_keeps_distinct(name, values, body, after);
                },
                _ => {},
            }
        },
    }
}

/// No loop ever binds a name twice.
pub proof fn lemma_exec_loop_keeps_distinct(
    name: Seq<char>,
    values: Seq<ValueView>,
    body: Seq<ItemView>,
    m: MachineView,
)
    requires
        distinct(m.env),
    ensures
        distinct(exec_loop(name, values, body, m).1.env),
    decreases body, values.len() + 1,
{
    if values.len() > 0 {
        lemma_assign_keeps_distinct(m.env, name, values[0]);
        let bound = MachineView { env: assign(m.env, name, values[0]), ..m };
        lemma_exec_block_keeps_distinct(body, bound);
        let (outcome, after) = exec_block(body, bound);
        match outcome {
            Ok(_) => {
                lemma_exec_loop_keeps_distinct(
                    name,
                    values.subrange(1, values.len() as int),
                    body,
                    after,
                );
            },
            Err(_) => {},
        }
    }
}

/// The names of the environment are distinct all along a run: statements
/// that start with distinct names end with distinct names.
pub proof fn lemma_exec_block_keeps_distinct(items: Seq<ItemView>, m: MachineView)
    requires
        distinct(m.env),
    ensures
        distinct(exec_block(items, m).1.env),
    decreases items, 0nat,
{
    if items.len() > 0 {
        lemma_exec_item_keeps_distinct(items[0], m);
        let (outcome, after) = exec_item(items[0], m);
        match outcome {
            Ok(_) => {
                lemma_exec_block_keeps_distinct(items.subrange(1, items.len() as int), after);
            },
            Err(_) => {},
        }
    }
}

/// A variable that was never bound has no value: reading it is an error
/// that names the variable, and nothing else happens.
pub proof fn lemma_undefined_variable(name: Seq<char>, m: MachineView)
    requires
        forall|i: int| 0 <= i < m.env.len() ==> (#[trigger] m.env[i]).0 != name,
    ensures
        lookup(m.env, name) is None,
        eval(ExprView::Variable(name), m) == (
            Err::<ValueView, ErrorView>(ErrorView::UndefinedVar(name)),
            m,
        ),
{
    lemma_position(m.env, name, 0);
}

/// A loop runs over an array and over nothing else: where the expression
/// yields any other value, the loop is an error and its body never runs.
pub proof fn lemma_loop_needs_array(
    name: Seq<char>,
    source: ExprView,
    body: Seq<ItemView>,
    m: MachineView,
)
    requires
        eval(source, m).0 matches Ok(value) && !(value is Array),
    ensures
        exec_item(ItemView::ForLoop(name, source, body), m) == (
            Err::<(), ErrorView>(ErrorView::NotIterable),
            eval(source, m).1,
        ),
{
}

/// The variable of a loop lives in the one environment: after a loop whose
/// body is empty, it is bound to the last value of the array.
pub proof fn lemma_loop_binding_persists(name: Seq<char>, values: Seq<ValueView>, m: MachineView)
    requires
        values.len() > 0,
    ensures
        exec_loop(name, values, Seq::empty(), m).0 is Ok,
        lookup(exec_loop(name, values, Seq::empty(), m).1.env, name) == Some(values.last()),
    decreases values.len(),
{
    let bound = MachineView { env: assign(m.env, name, values[0]), ..m };
    let rest = values.subrange(1, values.len() as int);
    assert(exec_block(Seq::<ItemView>::empty(), bound) == (Ok::<(), ErrorView>(()), bound));
    if rest.len() > 0 {
        lemma_loop_binding_persists(name, rest, bound);
        assert(rest.last() == values.last());
    } else {
        lemma_assign_then_lookup(m.env, name, values[0], name);
        assert(exec_loop(name, rest, Seq::empty(), bound) == (Ok::<(), ErrorView>(()), bound));
    }
}

/// The target address given from outside wins over the variable `target`;
/// without one, the variable is used; without either, asking for the session
/// fails as a bad target and writes no action down.
pub proof fn lemma_target_precedence(m: MachineView)
    ensures
        m.target matches Some(address) ==> target_of(m) == Some(address),
        m.target is None ==> target_of(m) == (match lookup(m.env, "target"@) {
            Some(value) => Some(display(value)),
            None => None,
        }),
        !m.connected && target_of(m) is Some ==> (connect(m) matches Ok(ready) && ready.actions
            == m.actions.push(ActionView::Connect(target_of(m)->0))),
        !m.connected && m.target is None && lookup(m.env, "target"@) is None ==> connect(m) == Err::<
            MachineView,
            ErrorView,
        >(ErrorView::BadTarget),
{
}

/// Without a target address, remote shell text fails as a bad target, and
/// nothing is asked of the remote host.
pub proof fn lemma_remote_needs_target(text: Seq<char>, m: MachineView)
    requires
        !m.connected,
        m.target is None,
        lookup(m.env, "target"@) is None,
        expand_in(text, m.env) is Ok,
    ensures
        run_remote(text, m) == (Err::<(), ErrorView>(ErrorView::BadTarget), m),
{
}

/// `upload` checks its arguments before anything is asked of the remote
/// host: the number of arguments first, then their kinds. A call that fails
/// these checks leaves the state as it was.
pub proof fn lemma_upload_checks_first(args: Seq<ValueView>, m: MachineView)
    ensures
        args.len() != 2 ==> dispatch("upload"@, args, m) == (
            Err::<ValueView, ErrorView>(ErrorView::WrongArgCount(2, args.len() as int)),
            m,
        ),
        args.len() == 2 && !(args[0] is String || args[0] is HereDocText) ==> dispatch(
            "upload"@,
            args,
            m,
        ) == (Err::<ValueView, ErrorView>(ErrorView::BadArgType(upload_source_message())), m),
        args.len() == 2 && (args[0] is String || args[0] is HereDocText) && !(args[1] is String)
            ==> dispatch("upload"@, args, m) == (
            Err::<ValueView, ErrorView>(ErrorView::BadArgType(upload_target_message())),
            m,
        ),
{
    reveal_strlit("upload");
    reveal_strlit("echo");
    reveal_strlit("exec");
    assert("upload"@ != "echo"@) by {
        assert("upload"@.len() != "echo"@.len());
    }
    assert("upload"@ != "exec"@) by {
        assert("upload"@.len() != "exec"@.len());
    }
}

/// Text without a placeholder is a constant: it expands to itself in every
/// environment.
pub proof fn lemma_constant_text(text: Seq<char>, env: EnvView)
    requires
        !has_placeholder(text),
    ensures
        expand_in(text, env) == Ok::<Seq<char>, ErrorView>(text),
{
}

/// Statements run strictly one after another: a block runs as its first
/// part followed by its second part from the state that the first part
/// left, and an error in the first part is the end.
pub proof fn lemma_block_in_sequence(first: Seq<ItemView>, second: Seq<ItemView>, m: MachineView)
    ensures
        exec_block(first + second, m) == (if exec_block(first, m).0 is Ok {
            exec_block(second, exec_block(first, m).1)
        } else {
            exec_block(first, m)
        }),
    decreases first.len(),
{
    if first.len() == 0 {
        assert(first + second =~= second);
    } else {
        let all = first + second;
        assert(all[0] == first[0]);
        assert(all.subrange(1, all.len() as int) =~= first.subrange(1, first.len() as int)
            + second);
        let (outcome, after) = exec_item(first[0], m);
        match outcome {
            Ok(_) => {
                lemma_block_in_sequence(first.subrange(1, first.len() as int), second, after);
            },
            Err(_) => {},
        }
    }
}

/// The iterations of a loop run strictly one after another, in the order
/// of the values: a loop over two runs of values is the loop over the first
/// run followed by the loop over the second run from the state that the
/// first left, and an error in an iteration is the end.
pub proof fn lemma_loop_in_sequence(
    name: Seq<char>,
    first: Seq<ValueView>,
    second: Seq<ValueView>,
    body: Seq<ItemView>,
    m: MachineView,
)
    ensures
        exec_loop(name, first + second, body, m) == (if exec_loop(name, first, body, m).0 is Ok {
            exec_loop(name, second, body, exec_loop(name, first, body, m).1)
        } else {
            exec_loop(name, first, body, m)
        }),
    decreases first.len(),
{
    if first.len() == 0 {
        assert(first + second =~= second);
    } else {
        let all = first + second;
        assert(all[0] == first[0]);
        assert(all.subrange(1, all.len() as int) =~= first.subrange(1, first.len() as int)
            + second);
        let bound = MachineView { env: assign(m.env, name, first[0]), ..m };
        let (outcome, after) = exec_block(body, bound);
        match outcome {
            Ok(_) => {
                lemma_loop_in_sequence(
                    name,
                    first.subrange(1, first.len() as int),
                    second,
                    body,
                    after,
                );
            },
            Err(_) => {},
        }
    }
}

/// Inside the body of a loop, the variable is bound to the value of the
/// iteration: after the iterations over the values before `k` have run
/// without error, the iteration over the value at `k` runs the body from the
/// state they left, with the variable bound to that value.
pub proof fn lemma_iteration_sees_its_value(
    name: Seq<char>,
    values: Seq<ValueView>,
    k: int,
    body: Seq<ItemView>,
    m: MachineView,
)
    requires
        0 <= k < values.len(),
        exec_loop(name, values.take(k), body, m).0 is Ok,
    ensures
        ({
            let before = exec_loop(name, values.take(k), body, m).1;
            let bound = MachineView { env: assign(before.env, name, values[k]), ..before };
            &&& lookup(bound.env, name) == Some(values[k])
            &&& exec_loop(name, values.take(k + 1), body, m) == exec_block(body, bound)
        }),
{
    let before = exec_loop(name, values.take(k), body, m).1;
    let bound = MachineView { env: assign(before.env, name, values[k]), ..before };
    lemma_assign_then_lookup(before.env, name, values[k], name);
    assert(values.take(k + 1) =~= values.take(k) + seq![values[k]]);
    lemma_loop_in_sequence(name, values.take(k), seq![values[k]], body, m);
    let one = seq![values[k]];
    assert(one.subrange(1, one.len() as int) =~= Seq::<ValueView>::empty());
    let (outcome, after) = exec_block(body, bound);
    assert(exec_loop(name, Seq::<ValueView>::empty(), body, after) == (
        Ok::<(), ErrorView>(()),
        after,
    ));
    assert(exec_loop(name, one, body, before) == exec_block(body, bound)) by {
        assert(one[0] == values[k]);
        match outcome {
            Ok(unit) => {
                assert(unit == ());
            },
            Err(_) => {},
        }
    }
}

/// Whether an action is carried out on the local machine alone.
pub open spec fn is_local(action: ActionView) -> bool {
    action is Echo || action is Exec
}

/// `echo` and `exec` ask nothing of the remote host: what they write down
/// is for the local machine, and the session is as it was.
pub proof fn lemma_local_calls(name: Seq<char>, args: Seq<ValueView>, m: MachineView)
    requires
        name == "echo"@ || name == "exec"@,
    ensures
        dispatch(name, args, m).1.connected == m.connected,
        forall|i: int|
            m.actions.len() <= i < dispatch(name, args, m).1.actions.len() ==> is_local(
                #[trigger] dispatch(name, args, m).1.actions[i],
            ),
{
    reveal_strlit("echo");
    reveal_strlit("exec");
    assert("echo"@ != "exec"@) by {
        assert("echo"@[1] != "exec"@[1]);
    }
}

} // verus!
