//! One operation on the remote host, step by step: a file is staged, a
//! command runs, and a staged file that is ephemeral is removed again.
//!
//! The operation decides; the transport does. The transport is handed one
//! request at a time and reports how the request ended; the operation
//! answers with the next request or with the result of the whole.

use crate::error::{ErrorView, SeeedError};
use vstd::prelude::*;

verus! {

/// What an operation asks of the transport.
#[derive(Debug, PartialEq, Eq)]
pub enum Request {
    /// Create the file at the path.
    Create(String),
    /// Write the content to the file at the path, and close it.
    Write(String, String),
    /// Run the command and wait for its end. Where the flag is set, what
    /// the command prints is shown line by line; else it is read and dropped.
    Execute(String, bool),
    /// Remove the file at the path.
    Remove(String),
}

/// The mathematical model of a [`Request`].
pub enum RequestView {
    Create(Seq<char>),
    Write(Seq<char>, Seq<char>),
    Execute(Seq<char>, bool),
    Remove(Seq<char>),
}

impl View for Request {
    type V = RequestView;

    open spec fn view(&self) -> RequestView {
        match self {
            Request::Create(path) => RequestView::Create(path@),
            Request::Write(path, content) => RequestView::Write(path@, content@),
            Request::Execute(command, shown) => RequestView::Execute(command@, *shown),
            Request::Remove(path) => RequestView::Remove(path@),
        }
    }
}

/// How far an operation has come: which request is with the transport.
#[derive(Debug)]
pub enum Phase {
    /// Nothing has been asked yet.
    Ready,
    /// The file is being created.
    Creating,
    /// The content is being written.
    Writing,
    /// The command is running.
    Executing,
    /// The ephemeral file is being removed, after the rest of the operation
    /// ended as the field says.
    Removing(Result<(), SeeedError>),
}

/// The mathematical model of a [`Phase`].
pub enum PhaseView {
    Ready,
    Creating,
    Writing,
    Executing,
    Removing(Result<(), ErrorView>),
}

/// The model of how a request or an operation ended.
pub open spec fn outcome_view(outcome: Result<(), SeeedError>) -> Result<(), ErrorView> {
    match outcome {
        Ok(_) => Ok(()),
        Err(error) => Err(error@),
    }
}

impl View for Phase {
    type V = PhaseView;

    open spec fn view(&self) -> PhaseView {
        match self {
            Phase::Ready => PhaseView::Ready,
            Phase::Creating => PhaseView::Creating,
            Phase::Writing => PhaseView::Writing,
            Phase::Executing => PhaseView::Executing,
            Phase::Removing(outcome) => PhaseView::Removing(outcome_view(*outcome)),
        }
    }
}

/// A file to stage on the remote host.
#[derive(Debug, PartialEq, Eq)]
pub struct Staged {
    /// Where the file goes.
    pub path: String,
    /// What it holds.
    pub content: String,
    /// Whether the file is ephemeral: owned by the operation, and removed
    /// when the operation ends.
    pub ephemeral: bool,
}

/// The mathematical model of a [`Staged`].
pub struct StagedView {
    pub path: Seq<char>,
    pub content: Seq<char>,
    pub ephemeral: bool,
}

impl View for Staged {
    type V = StagedView;

    open spec fn view(&self) -> StagedView {
        StagedView { path: self.path@, content: self.content@, ephemeral: self.ephemeral }
    }
}

/// A command to run on the remote host.
#[derive(Debug, PartialEq, Eq)]
pub struct Command {
    /// The command line.
    pub line: String,
    /// Whether what the command prints is shown.
    pub shown: bool,
}

/// The mathematical model of a [`Command`].
pub struct CommandView {
    pub line: Seq<char>,
    pub shown: bool,
}

impl View for Command {
    type V = CommandView;

    open spec fn view(&self) -> CommandView {
        CommandView { line: self.line@, shown: self.shown }
    }
}

/// An operation under way.
#[derive(Debug)]
pub struct Operation {
    file: Option<Staged>,
    command: Option<Command>,
    phase: Phase,
}

/// The mathematical model of an [`Operation`].
pub struct OperationView {
    pub file: Option<StagedView>,
    pub command: Option<CommandView>,
    pub phase: PhaseView,
}

/// What an operation answers: the next request, or the result of the
/// whole.
#[derive(Debug)]
pub enum Progress {
    Continue(Operation, Request),
    Finished(Result<(), SeeedError>),
}

/// The mathematical model of a [`Progress`].
pub enum ProgressView {
    Continue(OperationView, RequestView),
    Finished(Result<(), ErrorView>),
}

/// The model of an optional file to stage.
pub open spec fn file_view(file: Option<Staged>) -> Option<StagedView> {
    match file {
        Some(f) => Some(f@),
        None => None,
    }
}

/// The model of an optional command.
pub open spec fn command_view(command: Option<Command>) -> Option<CommandView> {
    match command {
        Some(c) => Some(c@),
        None => None,
    }
}

impl View for Operation {
    type V = OperationView;

    closed spec fn view(&self) -> OperationView {
        OperationView {
            file: file_view(self.file),
            command: command_view(self.command),
            phase: self.phase@,
        }
    }
}

impl View for Progress {
    type V = ProgressView;

    open spec fn view(&self) -> ProgressView {
        match self {
            Progress::Continue(operation, request) => ProgressView::Continue(
                operation@,
                request@,
            ),
            Progress::Finished(outcome) => ProgressView::Finished(outcome_view(*outcome)),
        }
    }
}

/// The end of an operation that ended as `outcome` says: an ephemeral file
/// that exists is removed first, whether the operation failed or not; then
/// the operation is over.
pub open spec fn wind_up(op: OperationView, outcome: Result<(), ErrorView>) -> ProgressView {
    match op.file {
        Some(file) => if file.ephemeral {
            ProgressView::Continue(
                OperationView { phase: PhaseView::Removing(outcome), ..op },
                RequestView::Remove(file.path),
            )
        } else {
            ProgressView::Finished(outcome)
        },
        None => ProgressView::Finished(outcome),
    }
}

/// The command of an operation, once its file is in place.
pub open spec fn run_command(op: OperationView) -> ProgressView {
    match op.command {
        Some(command) => ProgressView::Continue(
            OperationView { phase: PhaseView::Executing, ..op },
            RequestView::Execute(command.line, command.shown),
        ),
        None => wind_up(op, Ok(())),
    }
}

/// The first request of an operation.
pub open spec fn first_step(op: OperationView) -> ProgressView {
    match op.file {
        Some(file) => ProgressView::Continue(
            OperationView { phase: PhaseView::Creating, ..op },
            RequestView::Create(file.path),
        ),
        None => run_command(op),
    }
}

/// What an operation answers when the transport reports how the request
/// that is with it ended.
///
/// A file that could not be created does not exist: the operation is over.
/// Once the file exists, a failure of any later request leads to the end of
/// the operation by way of the removal of an ephemeral file. How the removal
/// itself ends changes nothing.
pub open spec fn next_step(op: OperationView, outcome: Result<(), ErrorView>) -> ProgressView {
    match op.phase {
        PhaseView::Ready => first_step(op),
        PhaseView::Creating => match outcome {
            Ok(_) => match op.file {
                Some(file) => ProgressView::Continue(
                    OperationView { phase: PhaseView::Writing, ..op },
                    RequestView::Write(file.path, file.content),
                ),
                None => run_command(op),
            },
            Err(error) => ProgressView::Finished(Err(error)),
        },
        PhaseView::Writing => match outcome {
            Ok(_) => run_command(op),
            Err(error) => wind_up(op, Err(error)),
        },
        PhaseView::Executing => wind_up(op, outcome),
        PhaseView::Removing(ended) => ProgressView::Finished(ended),
    }
}

impl Operation {
    /// An operation that stages `file`, if any, and then runs `command`, if
    /// any.
    pub fn new(file: Option<Staged>, command: Option<Command>) -> (r: Operation)
        ensures
            r@ == (OperationView {
                file: file_view(file),
                command: command_view(command),
                phase: PhaseView::Ready,
            }),
    {
        Operation { file, command, phase: Phase::Ready }
    }

    fn wind_up(self, outcome: Result<(), SeeedError>) -> (r: Progress)
        ensures
            r@ == wind_up(self@, outcome_view(outcome)),
    {
        let removal: Option<String> = match &self.file {
            Some(file) => if file.ephemeral {
                Some(file.path.clone())
            } else {
                None
            },
            None => None,
        };
        match removal {
            Some(path) => Progress::Continue(
                Operation {
                    file: self.file,
                    command: self.command,
                    phase: Phase::Removing(outcome),
                },
                Request::Remove(path),
            ),
            None => Progress::Finished(outcome),
        }
    }

    fn run_command(self) -> (r: Progress)
        ensures
            r@ == run_command(self@),
    {
        let request: Option<Request> = match &self.command {
            Some(command) => Some(Request::Execute(command.line.clone(), command.shown)),
            None => None,
        };
        match request {
            Some(request) => Progress::Continue(
                Operation { file: self.file, command: self.command, phase: Phase::Executing },
                request,
            ),
            None => self.wind_up(Ok(())),
        }
    }

    fn first_step(self) -> (r: Progress)
        ensures
            r@ == first_step(self@),
    {
        let request: Option<Request> = match &self.file {
            Some(file) => Some(Request::Create(file.path.clone())),
            None => None,
        };
        match request {
            Some(request) => Progress::Continue(
                Operation { file: self.file, command: self.command, phase: Phase::Creating },
                request,
            ),
            None => self.run_command(),
        }
    }

    fn write_step(self) -> (r: Progress)
        ensures
            r@ == next_step(
                OperationView { phase: PhaseView::Creating, ..self@ },
                Ok::<(), ErrorView>(()),
            ),
    {
        let request: Option<Request> = match &self.file {
            Some(file) => Some(Request::Write(file.path.clone(), file.content.clone())),
            None => None,
        };
        match request {
            Some(request) => Progress::Continue(
                Operation { file: self.file, command: self.command, phase: Phase::Writing },
                request,
            ),
            None => self.run_command(),
        }
    }

    /// Starts the operation: the first request, or the result at once where
    /// there is nothing to do.
    pub fn start(self) -> (r: Progress)
        ensures
            r@ == first_step(self@),
    {
        self.first_step()
    }

    /// Takes the report on the request that is with the transport and
    /// answers with the next request or with the result of the operation.
    pub fn advance(self, outcome: Result<(), SeeedError>) -> (r: Progress)
        ensures
            r@ == next_step(self@, outcome_view(outcome)),
    {
        let Operation { file, command, phase } = self;
        match phase {
            Phase::Ready => Operation { file, command, phase: Phase::Ready }.first_step(),
            Phase::Creating => match outcome {
                Ok(_) => Operation { file, command, phase: Phase::Creating }.write_step(),
                Err(error) => Progress::Finished(Err(error)),
            },
            Phase::Writing => match outcome {
                Ok(_) => Operation { file, command, phase: Phase::Writing }.run_command(),
                Err(error) => Operation { file, command, phase: Phase::Writing }.wind_up(
                    Err(error),
                ),
            },
            Phase::Executing => Operation { file, command, phase: Phase::Executing }.wind_up(
                outcome,
            ),
            Phase::Removing(ended) => Progress::Finished(ended),
        }
    }
}

/// The requests that an operation makes from `progress` on while the
/// transport reports the outcomes in order, and the result of the operation
/// if the outcomes last until its end.
pub open spec fn trace(progress: ProgressView, outcomes: Seq<Result<(), ErrorView>>) -> (
    Seq<RequestView>,
    Option<Result<(), ErrorView>>,
)
    decreases outcomes.len(),
{
    match progress {
        ProgressView::Finished(result) => (Seq::empty(), Some(result)),
        ProgressView::Continue(op, request) => if outcomes.len() == 0 {
            (seq![request], None)
        } else {
            let (rest, end) = trace(next_step(op, outcomes[0]), outcomes.drop_first());
            (seq![request] + rest, end)
        },
    }
}

/// The number of requests that remove a file.
pub open spec fn removals(requests: Seq<RequestView>) -> nat
    decreases requests.len(),
{
    if requests.len() == 0 {
        0
    } else if requests[0] is Remove {
        removals(requests.drop_first()) + 1
    } else {
        removals(requests.drop_first())
    }
}

/// Whether an operation stages an ephemeral file.
pub open spec fn has_ephemeral(op: OperationView) -> bool {
    op.file matches Some(file) && file.ephemeral
}

/// Whether `request` is the request that an operation in the state `op`
/// has with the transport.
pub open spec fn awaits(op: OperationView, request: RequestView) -> bool {
    match op.phase {
        PhaseView::Ready => false,
        PhaseView::Creating => request is Create && op.file is Some,
        PhaseView::Writing => request is Write && op.file is Some,
        PhaseView::Executing => request is Execute,
        PhaseView::Removing(_) => has_ephemeral(op) && request == RequestView::Remove(
            op.file->0.path,
        ),
    }
}

/// The removals that are still to come from the state `op` on, the one
/// that may be with the transport included: one once the ephemeral file
/// exists, and one if it is about to be created with success.
pub open spec fn owed(op: OperationView, outcomes: Seq<Result<(), ErrorView>>) -> nat {
    match op.phase {
        PhaseView::Ready => 0,
        PhaseView::Creating => if has_ephemeral(op) && outcomes.len() > 0 && outcomes[0] is Ok {
            1
        } else {
            0
        },
        PhaseView::Writing => if has_ephemeral(op) {
            1
        } else {
            0
        },
        PhaseView::Executing => if has_ephemeral(op) {
            1
        } else {
            0
        },
        PhaseView::Removing(_) => 1,
    }
}

proof fn lemma_removals_first(first: RequestView, rest: Seq<RequestView>)
    ensures
        removals(seq![first] + rest) == removals(rest) + (if first is Remove {
            1nat
        } else {
            0nat
        }),
{
    assert((seq![first] + rest).drop_first() =~= rest);
}

/// From any state on, an operation that comes to its end removes the
/// ephemeral file exactly as often as it is owed, and removes nothing else.
pub proof fn lemma_removed_as_owed(
    op: OperationView,
    request: RequestView,
    outcomes: Seq<Result<(), ErrorView>>,
)
    requires
        awaits(op, request),
        trace(ProgressView::Continue(op, request), outcomes).1 is Some,
    ensures
        removals(trace(ProgressView::Continue(op, request), outcomes).0) == owed(op, outcomes),
        forall|i: int|
            0 <= i < trace(ProgressView::Continue(op, request), outcomes).0.len() && (
            #[trigger] trace(ProgressView::Continue(op, request), outcomes).0[i]) is Remove
                ==> has_ephemeral(op) && trace(ProgressView::Continue(op, request), outcomes).0[i]
                == RequestView::Remove(op.file->0.path),
    decreases outcomes.len(),
{
    let next = next_step(op, outcomes[0]);
    let rest = outcomes.drop_first();
    let tail = trace(next, rest).0;
    lemma_removals_first(request, tail);
    match next {
        ProgressView::Finished(_) => {
            assert(tail =~= Seq::<RequestView>::empty());
        },
        ProgressView::Continue(after, asked) => {
            lemma_removed_as_owed(after, asked, rest);
        },
    }
    assert forall|i: int|
        0 <= i < (seq![request] + tail).len() && (#[trigger] (seq![request] + tail)[i]) is Remove
        implies has_ephemeral(op) && (seq![request] + tail)[i] == RequestView::Remove(
        op.file->0.path,
    ) by {
        if i > 0 {
            assert((seq![request] + tail)[i] == tail[i - 1]);
        }
    }
}

/// An ephemeral file is removed exactly once on every path to the end of
/// its operation, provided that it was created; a file that is not
/// ephemeral, or was never created, is not removed. Nothing but the
/// ephemeral file is ever removed.
pub proof fn lemma_cleanup_exactly_once(op: OperationView, outcomes: Seq<Result<(), ErrorView>>)
    requires
        op.phase is Ready,
        trace(first_step(op), outcomes).1 is Some,
    ensures
        removals(trace(first_step(op), outcomes).0) == (if has_ephemeral(op) && outcomes.len() > 0
            && outcomes[0] is Ok {
            1nat
        } else {
            0nat
        }),
        forall|i: int|
            0 <= i < trace(first_step(op), outcomes).0.len() && (#[trigger] trace(
                first_step(op),
                outcomes,
            ).0[i]) is Remove ==> has_ephemeral(op) && trace(first_step(op), outcomes).0[i]
                == RequestView::Remove(op.file->0.path),
{
    match first_step(op) {
        ProgressView::Finished(_) => {},
        ProgressView::Continue(after, asked) => {
            lemma_removed_as_owed(after, asked, outcomes);
        },
    }
}

/// An operation ends with the error of the first request that failed,
/// the removal apart; how the removal ends changes nothing.
pub proof fn lemma_removal_is_swallowed(
    op: OperationView,
    ended: Result<(), ErrorView>,
    outcome: Result<(), ErrorView>,
)
    requires
        op.phase == PhaseView::Removing(ended),
    ensures
        next_step(op, outcome) == ProgressView::Finished(ended),
{
}

} // verus!
