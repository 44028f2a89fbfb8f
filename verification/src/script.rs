//! The context of a run: the script, the evaluator, and the two
//! collaborators that carry out what the script asks for.

use crate::environment::assign;
use crate::error::{ErrorView, SeeedError};
use crate::evaluator::{
    actions_view, exec_block, text_option, unit_result, Action, ActionView, Evaluator, MachineView,
};
use crate::parser::failure::failure_at;
use crate::parser::grammar::script;
use crate::local::LocalMachine;
use crate::parser::{script_parser, Value, ValueView};
use crate::sshclient::RemoteExecutor;
use vstd::prelude::*;

verus! {

/// What a script plans: its statements are evaluated in order from the
/// state `m`, and the actions they ask for are written down. A text that is
/// no script plans nothing and fails with the place where parsing stopped.
pub open spec fn planned(text: Seq<u8>, m: MachineView) -> (Result<(), ErrorView>, MachineView) {
    match script(text) {
        Ok(items) => exec_block(items, m),
        Err(stop) => (Err(ErrorView::Parse(failure_at(text, stop))), m),
    }
}

/// What a script comes to when parsing is all that is asked of it.
pub open spec fn parsed_only(text: Seq<u8>) -> Result<(), ErrorView> {
    match script(text) {
        Ok(_) => Ok(()),
        Err(stop) => Err(ErrorView::Parse(failure_at(text, stop))),
    }
}

/// An action that was handed to a collaborator, and how it ended.
pub struct Attempt {
    pub action: ActionView,
    pub outcome: Result<(), SeeedError>,
}

/// Whether `outcome` is what handing an action over comes to: the action
/// went to the collaborator it is meant for, with the texts that it holds,
/// and `outcome` is what that collaborator yielded. To connect, to run and to
/// upload go to the remote executor; to show a line and to run a local
/// command go to the local machine, and showing a line always ends well. A
/// local file is read by the local machine first: what was read is then
/// uploaded by the remote executor, and where nothing could be read the error
/// of the reading is the outcome.
pub open spec fn handed<E: RemoteExecutor, L: LocalMachine>(
    action: ActionView,
    outcome: Result<(), SeeedError>,
) -> bool {
    match action {
        ActionView::Connect(target) => exists|executor: &mut E, address: &str|
            address@ == target && #[trigger] call_ensures(
                E::connect,
                (executor, address),
                outcome,
            ),
        ActionView::Run(script) => exists|executor: &E, text: &str|
            text@ == script && #[trigger] call_ensures(E::run, (executor, text), outcome),
        ActionView::Upload(content, path) => exists|executor: &E, text: &str, to: String|
            text@ == content && to@ == path && #[trigger] call_ensures(
                E::upload,
                (executor, text, to),
                outcome,
            ),
        ActionView::UploadFile(source, path) => exists|
            local: &mut L,
            from: &str,
            read: Result<String, SeeedError>,
        |
            from@ == source && #[trigger] call_ensures(L::read_file, (local, from), read)
                && match read {
                Ok(content) => exists|executor: &E, text: &str, to: String|
                    text@ == content@ && to@ == path && #[trigger] call_ensures(
                        E::upload,
                        (executor, text, to),
                        outcome,
                    ),
                Err(error) => outcome == Err::<(), SeeedError>(error),
            },
        ActionView::Echo(line) => outcome is Ok && exists|local: &mut L, text: &str|
            text@ == line && #[trigger] call_ensures(L::echo, (local, text), ()),
        ActionView::Exec(command) => exists|local: &mut L, text: &str|
            text@ == command && #[trigger] call_ensures(L::exec, (local, text), outcome),
    }
}

/// Whether an attempt is on record as it went: its action was handed over
/// and ended as the attempt says.
pub open spec fn went<E: RemoteExecutor, L: LocalMachine>(attempt: Attempt) -> bool {
    handed::<E, L>(attempt.action, attempt.outcome)
}

/// The attempts that stand for the actions from `from` up to `to` having
/// been carried out without error, in order.
pub open spec fn carried(actions: Seq<ActionView>, from: int, to: int) -> Seq<Attempt> {
    Seq::new(
        (to - from) as nat,
        |i: int| Attempt { action: actions[from + i], outcome: Ok(()) },
    )
}

/// The mathematical model of a [`ScriptContext`].
pub struct ContextView {
    /// The text of the script.
    pub contents: Seq<char>,
    /// Whether remote commands run with elevated privileges.
    pub use_sudo: bool,
    /// The state of the evaluator.
    pub machine: MachineView,
    /// How many of the actions written down have been carried out.
    pub completed: int,
    /// What was handed to the collaborators so far, in order.
    pub attempts: Seq<Attempt>,
}

/// The script execution context: the script itself, the variables and
/// their values, and the collaborators that reach the remote host and the
/// local machine.
pub struct ScriptContext<E: RemoteExecutor, L: LocalMachine> {
    use_sudo: bool,
    contents: String,
    evaluator: Evaluator,
    completed: usize,
    attempts: Ghost<Seq<Attempt>>,
    executor: E,
    local: L,
}

/// Carries out one action with the collaborator it is meant for. The
/// action is handed to that collaborator with the texts that it holds, and
/// the result is what the collaborator yields; the other collaborator is left
/// alone. Showing a line always ends well. A local file is read first and
/// what it holds is then written to the remote host; where it cannot be read,
/// the error of the reading is the result and nothing is written.
fn carry_out<E: RemoteExecutor, L: LocalMachine>(
    action: &Action,
    executor: &mut E,
    local: &mut L,
) -> (r: Result<(), SeeedError>)
    ensures
        match action@ {
            ActionView::Connect(target) => *final(local) == *old(local) && exists|
                handed: &mut E,
                address: &str,
            |
                *handed == *old(executor) && *final(handed) == *final(executor) && address@
                    == target && #[trigger] call_ensures(E::connect, (handed, address), r),
            ActionView::Run(script) => *final(executor) == *old(executor) && *final(local)
                == *old(local) && exists|text: &str|
                text@ == script && #[trigger] call_ensures(E::run, (&*old(executor), text), r),
            ActionView::Upload(content, path) => *final(executor) == *old(executor)
                && *final(local) == *old(local) && exists|text: &str, to: String|
                text@ == content && to@ == path && #[trigger] call_ensures(
                    E::upload,
                    (&*old(executor), text, to),
                    r,
                ),
            ActionView::UploadFile(source, path) => *final(executor) == *old(executor) && exists|
                handed: &mut L,
                from: &str,
                read: Result<String, SeeedError>,
            |
                *handed == *old(local) && *final(handed) == *final(local) && from@ == source
                    && #[trigger] call_ensures(L::read_file, (handed, from), read) && match read {
                    Ok(content) => exists|text: &str, to: String|
                        text@ == content@ && to@ == path && #[trigger] call_ensures(
                            E::upload,
                            (&*old(executor), text, to),
                            r,
                        ),
                    Err(error) => r == Err::<(), SeeedError>(error),
                },
            ActionView::Echo(line) => r is Ok && *final(executor) == *old(executor) && exists|
                handed: &mut L,
                text: &str,
            |
                *handed == *old(local) && *final(handed) == *final(local) && text@ == line
                    && #[trigger] call_ensures(L::echo, (handed, text), ()),
            ActionView::Exec(command) => *final(executor) == *old(executor) && exists|
                handed: &mut L,
                text: &str,
            |
                *handed == *old(local) && *final(handed) == *final(local) && text@ == command
                    && #[trigger] call_ensures(L::exec, (handed, text), r),
        },
{
    match action {
        Action::Connect(target) => executor.connect(target.as_str()),
        Action::Run(text) => executor.run(text.as_str()),
        Action::Upload(content, path) => executor.upload(content.as_str(), path.clone()),
        Action::UploadFile(source, path) => match local.read_file(source.as_str()) {
            Ok(content) => executor.upload(content.as_str(), path.clone()),
            Err(error) => Err(error),
        },
        Action::Echo(line) => {
            local.echo(line.as_str());
            Ok(())
        },
        Action::Exec(command) => local.exec(command.as_str()),
    }
}

impl<E: RemoteExecutor, L: LocalMachine> View for ScriptContext<E, L> {
    type V = ContextView;

    closed spec fn view(&self) -> ContextView {
        ContextView {
            contents: self.contents@,
            use_sudo: self.use_sudo,
            machine: self.evaluator@,
            completed: self.completed as int,
            attempts: self.attempts@,
        }
    }
}

impl<E: RemoteExecutor, L: LocalMachine> ScriptContext<E, L> {
    /// The collaborator that reaches the remote host.
    pub closed spec fn executor(&self) -> E {
        self.executor
    }

    /// The collaborator that stands for the local machine.
    pub closed spec fn local(&self) -> L {
        self.local
    }

    /// Builds a context for one run. `target` is the target address given
    /// from outside, which wins over the one that the script may define.
    pub fn new(
        target: Option<String>,
        use_sudo: bool,
        contents: String,
        executor: E,
        local: L,
    ) -> (r: Self)
        ensures
            r@ == (ContextView {
                contents: contents@,
                use_sudo,
                machine: MachineView {
                    env: Seq::empty(),
                    target: text_option(target),
                    connected: false,
                    actions: Seq::empty(),
                },
                completed: 0,
                attempts: Seq::empty(),
            }),
            r.executor() == executor,
            r.local() == local,
    {
        ScriptContext {
            use_sudo,
            contents,
            evaluator: Evaluator::new(target),
            completed: 0,
            attempts: Ghost(Seq::empty()),
            executor,
            local,
        }
    }

    /// Binds a variable to a string before the run begins. The script may
    /// assign the name anew.
    pub fn define(&mut self, name: String, value: String)
        ensures
            final(self)@ == (ContextView {
                machine: MachineView {
                    env: assign(old(self)@.machine.env, name@, ValueView::String(value@)),
                    ..old(self)@.machine
                },
                ..old(self)@
            }),
            final(self).executor() == old(self).executor(),
            final(self).local() == old(self).local(),
    {
        self.evaluator.define(name, Value::String(value));
    }

    /// Whether remote commands run with elevated privileges.
    pub fn use_sudo(&self) -> (r: bool)
        ensures
            r == self@.use_sudo,
    {
        self.use_sudo
    }

    /// The text of the script.
    pub fn contents(&self) -> (r: &String)
        ensures
            r@ == self@.contents,
    {
        &self.contents
    }

    /// The evaluator, with the variables and the actions of the run.
    pub fn evaluator(&self) -> (r: &Evaluator)
        ensures
            r@ == self@.machine,
    {
        &self.evaluator
    }

    /// How many of the actions written down have been carried out.
    pub fn completed(&self) -> (r: usize)
        ensures
            r == self@.completed,
    {
        self.completed
    }

    /// Parses the script and evaluates its statements in order, writing down
    /// the actions that they ask for. Nothing is carried out.
    pub fn plan(&mut self) -> (r: Result<(), SeeedError>)
        ensures
            (unit_result(r), final(self)@.machine) == planned(
                vstd::utf8::encode_utf8(old(self)@.contents),
                old(self)@.machine,
            ),
            final(self)@ == (ContextView { machine: final(self)@.machine, ..old(self)@ }),
            final(self).executor() == old(self).executor(),
            final(self).local() == old(self).local(),
    {
        match script_parser().parse(self.contents.as_str().as_bytes()) {
            Ok(parsed) => self.evaluator.execute_block(&parsed.statements),
            Err(failure) => Err(SeeedError::Parse(failure)),
        }
    }

    /// The action that is to be carried out next: the first of those written
    /// down that has not been carried out. Nothing, once all have been.
    pub fn next_action(&self) -> (r: Option<&Action>)
        ensures
            match r {
                Some(action) => 0 <= self@.completed < self@.machine.actions.len() && action@
                    == self@.machine.actions[self@.completed],
                None => self@.completed >= self@.machine.actions.len(),
            },
    {
        let actions = self.evaluator.actions();
        assert(actions_view(actions@).len() == actions@.len());
        if self.completed < actions.len() {
            assert(actions_view(actions@)[self.completed as int]
                == actions@[self.completed as int]@);
            Some(&actions[self.completed])
        } else {
            None
        }
    }

    /// Takes the report on the action that was next: how it ended when it was
    /// handed to its collaborator. An action that ended well has been
    /// carried out, and the one after it is next; an action that failed
    /// stays next. Without an action that was next, nothing changes.
    pub fn report(&mut self, outcome: Result<(), SeeedError>) -> (r: Result<(), SeeedError>)
        ensures
            r == outcome,
            final(self).executor() == old(self).executor(),
            final(self).local() == old(self).local(),
            final(self)@ == (if 0 <= old(self)@.completed < old(self)@.machine.actions.len() {
                ContextView {
                    completed: if outcome is Ok {
                        old(self)@.completed + 1
                    } else {
                        old(self)@.completed
                    },
                    attempts: old(self)@.attempts.push(
                        Attempt {
                            action: old(self)@.machine.actions[old(self)@.completed],
                            outcome,
                        },
                    ),
                    ..old(self)@
                }
            } else {
                old(self)@
            }),
    {
        let total: usize = self.evaluator.actions().len();
        if self.completed < total {
            proof {
                self.attempts@ = self.attempts@.push(
                    Attempt { action: self@.machine.actions[self.completed as int], outcome },
                );
            }
            if outcome.is_ok() {
                self.completed = self.completed + 1;
            }
        }
        outcome
    }

    /// Carries out, in order, the actions that were written down and not
    /// carried out yet, up to the first that fails.
    fn perform(&mut self) -> (r: Result<(), SeeedError>)
        requires
            0 <= old(self)@.completed <= old(self)@.machine.actions.len(),
        ensures
            final(self)@ == (ContextView {
                completed: final(self)@.completed,
                attempts: final(self)@.attempts,
                ..old(self)@
            }),
            old(self)@.completed <= final(self)@.completed <= old(self)@.machine.actions.len(),
            r is Ok ==> final(self)@.completed == old(self)@.machine.actions.len()
                && final(self)@.attempts == old(self)@.attempts + carried(
                old(self)@.machine.actions,
                old(self)@.completed,
                final(self)@.completed,
            ),
            r matches Err(error) ==> final(self)@.completed < old(self)@.machine.actions.len()
                && final(self)@.attempts == (old(self)@.attempts + carried(
                old(self)@.machine.actions,
                old(self)@.completed,
                final(self)@.completed,
            )).push(
                Attempt {
                    action: old(self)@.machine.actions[final(self)@.completed],
                    outcome: Err(error),
                },
            ),
            forall|j: int|
                old(self)@.attempts.len() <= j < final(self)@.attempts.len() ==> went::<E, L>(
                    #[trigger] final(self)@.attempts[j],
                ),
    {
        let ghost actions = self@.machine.actions;
        let ghost start = self@.completed;
        let ghost before = self@.attempts;
        assert(before + carried(actions, start, start) =~= before);
        loop
            invariant
                self@ == (ContextView {
                    completed: self@.completed,
                    attempts: self@.attempts,
                    ..old(self)@
                }),
                actions == old(self)@.machine.actions,
                start == old(self)@.completed,
                before == old(self)@.attempts,
                0 <= start <= self@.completed <= actions.len(),
                self@.attempts == before + carried(actions, start, self@.completed),
                forall|j: int|
                    before.len() <= j < self@.attempts.len() ==> went::<E, L>(
                        #[trigger] self@.attempts[j],
                    ),
            decreases actions.len() - self@.completed,
        {
            let actions_now = self.evaluator.actions();
            if self.completed >= actions_now.len() {
                return Ok(());
            }
            let outcome = carry_out(
                &actions_now[self.completed],
                &mut self.executor,
                &mut self.local,
            );
            let ghost done = self@.completed;
            assert((before + carried(actions, start, done)).push(
                Attempt { action: actions[done], outcome: Ok(()) },
            ) =~= before + carried(actions, start, done + 1));
            assert(went::<E, L>(Attempt { action: actions[done], outcome }));
            match self.report(outcome) {
                Ok(unit) => {
                    assert(unit == ());
                },
                Err(error) => {
                    return Err(error);
                },
            }
        }
    }

    /// Runs the script. With `debug`, the script is only parsed: nothing is
    /// evaluated and nothing is carried out. Otherwise the script is
    /// evaluated and the actions that this evaluation asks for are handed to
    /// the collaborators in order. The first action that fails ends the run
    /// with its error; where all are carried out, the run ends as the
    /// evaluation did. Every attempt that the run puts on record went to the
    /// collaborator it is meant for and ended as the record says.
    pub fn run(&mut self, debug: bool) -> (r: Result<(), SeeedError>)
        ensures
            debug ==> final(self)@ == old(self)@ && final(self).executor() == old(self).executor()
                && final(self).local() == old(self).local() && unit_result(r) == parsed_only(
                vstd::utf8::encode_utf8(old(self)@.contents),
            ),
            !debug ==> ({
                let (outcome, machine) = planned(
                    vstd::utf8::encode_utf8(old(self)@.contents),
                    old(self)@.machine,
                );
                let first = old(self)@.machine.actions.len() as int;
                let done = final(self)@.completed;
                &&& final(self)@ == (ContextView {
                    machine,
                    completed: done,
                    attempts: final(self)@.attempts,
                    ..old(self)@
                })
                &&& first <= done <= machine.actions.len()
                &&& if done == machine.actions.len() {
                    &&& unit_result(r) == outcome
                    &&& final(self)@.attempts == old(self)@.attempts + carried(
                        machine.actions,
                        first,
                        done,
                    )
                } else {
                    &&& r is Err
                    &&& final(self)@.attempts == (old(self)@.attempts + carried(
                        machine.actions,
                        first,
                        done,
                    )).push(Attempt { action: machine.actions[done], outcome: r })
                }
                &&& forall|j: int|
                    old(self)@.attempts.len() <= j < final(self)@.attempts.len() ==> went::<E, L>(
                        #[trigger] final(self)@.attempts[j],
                    )
            }),
    {
        if debug {
            return match script_parser().parse(self.contents.as_str().as_bytes()) {
                Ok(_) => Ok(()),
                Err(failure) => Err(SeeedError::Parse(failure)),
            };
        }
        self.completed = self.evaluator.actions().len();
        let outcome = self.plan();
        proof {
            crate::laws::lemma_planned_continues(
                vstd::utf8::encode_utf8(old(self)@.contents),
                old(self)@.machine,
            );
        }
        match self.perform() {
            Ok(_) => outcome,
            Err(error) => Err(error),
        }
    }
}

} // verus!
