//! The built-in functions: a fixed set, found by name.

use crate::environment::display;
use crate::error::{ErrorView, SeeedError};
use crate::evaluator::{connect, value_result, Action, ActionView, Evaluator, MachineView};
use crate::parser::{values_view, Value, ValueView};
use crate::text::same_text;
use vstd::prelude::*;

verus! {

/// The actions that show each of the values on the console, in order.
pub open spec fn echo_actions(args: Seq<ValueView>) -> Seq<ActionView> {
    Seq::new(args.len(), |i: int| ActionView::Echo(display(args[i])))
}

/// `echo` shows the display form of each argument on the local console.
pub open spec fn echo(args: Seq<ValueView>, m: MachineView) -> (
    Result<ValueView, ErrorView>,
    MachineView,
) {
    (Ok(ValueView::Void), MachineView { actions: m.actions + echo_actions(args), ..m })
}

/// `exec` takes one argument, whose display form is a command line for the
/// local machine.
pub open spec fn exec(args: Seq<ValueView>, m: MachineView) -> (
    Result<ValueView, ErrorView>,
    MachineView,
) {
    if args.len() != 1 {
        (Err(ErrorView::WrongArgCount(1, args.len() as int)), m)
    } else {
        (
            Ok(ValueView::Void),
            MachineView { actions: m.actions.push(ActionView::Exec(display(args[0]))), ..m },
        )
    }
}

/// What the error says when the first argument of `upload` is of the wrong
/// kind.
pub open spec fn upload_source_message() -> Seq<char> {
    "first argument of upload must be a string or a heredoc"@
}

/// What the error says when the second argument of `upload` is of the
/// wrong kind.
pub open spec fn upload_target_message() -> Seq<char> {
    "second argument of upload must be a string"@
}

/// `upload` takes two arguments: a string, which is the path of a local
/// file, or heredoc text, which is the content itself; and a string, which
/// is the path on the remote host. The number of arguments is checked
/// first, then their kinds, and only then is the session asked for.
pub open spec fn upload(args: Seq<ValueView>, m: MachineView) -> (
    Result<ValueView, ErrorView>,
    MachineView,
) {
    if args.len() != 2 {
        (Err(ErrorView::WrongArgCount(2, args.len() as int)), m)
    } else if !(args[0] is String || args[0] is HereDocText) {
        (Err(ErrorView::BadArgType(upload_source_message())), m)
    } else {
        match args[1] {
            ValueView::String(path) => match connect(m) {
                Ok(ready) => (
                    Ok(ValueView::Void),
                    MachineView {
                        actions: ready.actions.push(
                            match args[0] {
                                ValueView::HereDocText(content) => ActionView::Upload(
                                    content,
                                    path,
                                ),
                                _ => ActionView::UploadFile(display(args[0]), path),
                            },
                        ),
                        ..ready
                    },
                ),
                Err(error) => (Err(error), m),
            },
            _ => (Err(ErrorView::BadArgType(upload_target_message())), m),
        }
    }
}

/// What a call of the function `name` with the given arguments does and
/// yields. A name that is none of the built-in functions is an error.
pub open spec fn dispatch(name: Seq<char>, args: Seq<ValueView>, m: MachineView) -> (
    Result<ValueView, ErrorView>,
    MachineView,
) {
    if name == "echo"@ {
        echo(args, m)
    } else if name == "exec"@ {
        exec(args, m)
    } else if name == "upload"@ {
        upload(args, m)
    } else {
        (Err(ErrorView::UnknownFunction), m)
    }
}

fn execute_echo(args: Vec<Value>, evaluator: &mut Evaluator) -> (r: Result<Value, SeeedError>)
    ensures
        (value_result(r), final(evaluator)@) == echo(values_view(args@), old(evaluator)@),
{
    let ghost lines = echo_actions(values_view(args@));
    let mut k: usize = 0;
    assert(evaluator@.actions + lines.take(0) =~= evaluator@.actions);
    while k < args.len()
        invariant
            k <= args@.len(),
            lines == echo_actions(values_view(args@)),
            evaluator@ == (MachineView {
                actions: old(evaluator)@.actions + lines.take(k as int),
                ..old(evaluator)@
            }),
        decreases args@.len() - k,
    {
        evaluator.note(Action::Echo(args[k].to_string()));
        k = k + 1;
        assert(old(evaluator)@.actions + lines.take(k as int) =~= (old(evaluator)@.actions
            + lines.take(k - 1)).push(lines[k - 1]));
    }
    assert(lines.take(args@.len() as int) =~= lines);
    Ok(Value::Void)
}

fn execute_exec(args: Vec<Value>, evaluator: &mut Evaluator) -> (r: Result<Value, SeeedError>)
    ensures
        (value_result(r), final(evaluator)@) == exec(values_view(args@), old(evaluator)@),
{
    if args.len() != 1 {
        return Err(SeeedError::WrongArgCount(1, args.len()));
    }
    evaluator.note(Action::Exec(args[0].to_string()));
    Ok(Value::Void)
}

fn execute_upload(args: Vec<Value>, evaluator: &mut Evaluator) -> (r: Result<Value, SeeedError>)
    ensures
        (value_result(r), final(evaluator)@) == upload(values_view(args@), old(evaluator)@),
{
    if args.len() != 2 {
        return Err(SeeedError::WrongArgCount(2, args.len()));
    }
    let source = &args[0];
    let target = &args[1];
    match source {
        Value::String(_) => {},
        Value::HereDocText(_) => {},
        _ => {
            return Err(
                SeeedError::BadArgType(
                    "first argument of upload must be a string or a heredoc".to_owned(),
                ),
            );
        },
    }
    let path: String = match target {
        Value::String(path) => path.clone(),
        _ => {
            return Err(
                SeeedError::BadArgType("second argument of upload must be a string".to_owned()),
            );
        },
    };
    match evaluator.ensure_connected() {
        Ok(_) => {},
        Err(error) => {
            return Err(error);
        },
    }
    match source {
        Value::HereDocText(content) => {
            evaluator.note(Action::Upload(content.clone(), path));
        },
        _ => {
            evaluator.note(Action::UploadFile(source.to_string(), path));
        },
    }
    Ok(Value::Void)
}

/// Calls the built-in function `name` with the given arguments.
pub fn execute_function(name: &str, args: Vec<Value>, evaluator: &mut Evaluator) -> (r: Result<
    Value,
    SeeedError,
>)
    ensures
        (value_result(r), final(evaluator)@) == dispatch(
            name@,
            values_view(args@),
            old(evaluator)@,
        ),
{
    if same_text(name, "echo") {
        execute_echo(args, evaluator)
    } else if same_text(name, "exec") {
        execute_exec(args, evaluator)
    } else if same_text(name, "upload") {
        execute_upload(args, evaluator)
    } else {
        Err(SeeedError::UnknownFunction())
    }
}

} // verus!
