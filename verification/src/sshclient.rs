//! The remote execution layer: the interface through which a run reaches the
//! remote host, and the decisions of the session.

use crate::error::{ErrorView, SeeedError};
use crate::sshclient::operation::{
    Command, CommandView, Operation, OperationView, PhaseView, Staged, StagedView,
};
use crate::sshclient::target::{parse_target, target_of_address, target_result, Target};
use vstd::prelude::*;
use vstd::string::StringExecFns;

pub mod lines;
pub mod login;
pub mod operation;
pub mod target;

verus! {

/// The remote host, as a run sees it. The transport behind it is the
/// implementor's: a session to a real host, or a recorder.
pub trait RemoteExecutor {
    /// Opens the session to the host at the target address.
    fn connect(&mut self, target: &str) -> Result<(), SeeedError>;

    /// Runs one command on the host and waits for its end, without showing
    /// what it prints.
    fn command(&self, command: &str) -> Result<(), SeeedError>;

    /// Runs shell text on the host and shows what it prints.
    fn run(&self, script: &str) -> Result<(), SeeedError>;

    /// Writes the content to the path on the host.
    fn upload(&self, content: &str, dst_path: String) -> Result<(), SeeedError>;
}

impl<T: RemoteExecutor + ?Sized> RemoteExecutor for Box<T> {
    /// Hands the target to the executor in the box: the result is what that
    /// executor's `connect` yields, and the executor in the box changes as
    /// that call changes it.
    fn connect(&mut self, target: &str) -> (r: Result<(), SeeedError>)
        ensures
            exists|inner: &mut T|
                &*inner == &**old(self) && &*final(inner) == &**final(self)
                    && #[trigger] call_ensures(T::connect, (inner, target), r),
    {
        let inner: &mut T = &mut **self;
        inner.connect(target)
    }

    /// Hands the command to the executor in the box: the result is what that
    /// executor's `command` yields.
    fn command(&self, command: &str) -> (r: Result<(), SeeedError>)
        ensures
            call_ensures(T::command, (&**self, command), r),
    {
        (**self).command(command)
    }

    /// Hands the shell text to the executor in the box: the result is what
    /// that executor's `run` yields.
    fn run(&self, script: &str) -> (r: Result<(), SeeedError>)
        ensures
            call_ensures(T::run, (&**self, script), r),
    {
        (**self).run(script)
    }

    /// Hands the content and the path to the executor in the box: the result
    /// is what that executor's `upload` yields.
    fn upload(&self, content: &str, dst_path: String) -> (r: Result<(), SeeedError>)
        ensures
            call_ensures(T::upload, (&**self, content, dst_path), r),
    {
        (**self).upload(content, dst_path)
    }
}

/// Whether a character may stand in a token: a decimal digit, a letter
/// from `a` to `f`, or a hyphen.
pub open spec fn is_token_char(c: char) -> bool {
    ('0' <= c && c <= '9') || ('a' <= c && c <= 'f') || c == '-'
}

/// Whether a text has the shape of a token: 36 characters, each of which
/// may stand in a token.
pub open spec fn is_token(text: Seq<char>) -> bool {
    text.len() == 36 && forall|i: int| 0 <= i < text.len() ==> is_token_char(#[trigger] text[i])
}

/// Draws a random token with `uuid::Uuid::new_v4` and writes it as text.
/// The token differs from call to call; what holds of every one is its
/// shape, that of a hyphenated UUID in lower case.
#[verifier::external_body]
pub(crate) fn fresh_token() -> (r: String)
    ensures
        is_token(r@),
{
    uuid::Uuid::new_v4().to_string()
}

/// The path of the ephemeral file that holds the shell text of a run.
pub open spec fn script_path(token: Seq<char>) -> Seq<char> {
    "/tmp/seeed_script_"@ + token + ".sh"@
}

/// The path of the ephemeral file that holds content on its way to a
/// destination that needs elevated privileges.
pub open spec fn transit_path(token: Seq<char>) -> Seq<char> {
    "/tmp/seeed_upload_"@ + token
}

/// Whether a character stands for itself on a command line: a letter, a
/// digit, a slash, a dot, an underscore or a hyphen.
pub open spec fn is_plain_char(c: char) -> bool {
    ('a' <= c && c <= 'z') || ('A' <= c && c <= 'Z') || ('0' <= c && c <= '9') || c == '/' || c
        == '.' || c == '_' || c == '-'
}

/// The paths of ephemeral files need no quoting on a command line: every
/// character of a path that is named after a token stands for itself.
pub proof fn lemma_ephemeral_paths_are_plain(token: Seq<char>)
    requires
        is_token(token),
    ensures
        forall|i: int|
            0 <= i < script_path(token).len() ==> is_plain_char(#[trigger] script_path(token)[i]),
        forall|i: int|
            0 <= i < transit_path(token).len() ==> is_plain_char(
                #[trigger] transit_path(token)[i],
            ),
{
    reveal_strlit("/tmp/seeed_script_");
    reveal_strlit("/tmp/seeed_upload_");
    reveal_strlit(".sh");
    assert forall|i: int| 0 <= i < script_path(token).len() implies is_plain_char(
        #[trigger] script_path(token)[i],
    ) by {
        if i < 18 {
            assert(script_path(token)[i] == "/tmp/seeed_script_"@[i]);
        } else if i < 18 + 36 {
            assert(script_path(token)[i] == token[i - 18]);
            assert(is_token_char(token[i - 18]));
        } else {
            assert(script_path(token)[i] == ".sh"@[i - 54]);
        }
    }
    assert forall|i: int| 0 <= i < transit_path(token).len() implies is_plain_char(
        #[trigger] transit_path(token)[i],
    ) by {
        if i < 18 {
            assert(transit_path(token)[i] == "/tmp/seeed_upload_"@[i]);
        } else {
            assert(transit_path(token)[i] == token[i - 18]);
            assert(is_token_char(token[i - 18]));
        }
    }
}

/// The command line that runs the shell text in the file at `path`, with
/// elevated privileges where the session asks for them.
pub open spec fn shell_line(use_sudo: bool, path: Seq<char>) -> Seq<char> {
    if use_sudo {
        "sudo /bin/bash "@ + path
    } else {
        "/bin/bash "@ + path
    }
}

/// A text between single quotes, as one word of a command line: each single
/// quote of the text closes the quotes, stands escaped, and opens them anew.
pub open spec fn quoted(text: Seq<char>) -> Seq<char> {
    seq!['\''] + quoted_body(text) + seq!['\'']
}

/// The characters of a text as they stand between single quotes.
pub open spec fn quoted_body(text: Seq<char>) -> Seq<char>
    decreases text.len(),
{
    if text.len() == 0 {
        Seq::empty()
    } else if text.last() == '\'' {
        quoted_body(text.drop_last()) + seq!['\'', '\\', '\'', '\'']
    } else {
        quoted_body(text.drop_last()).push(text.last())
    }
}

/// Puts a text between single quotes.
pub fn quote(text: &str) -> (r: String)
    ensures
        r@ == quoted(text@),
{
    broadcast use vstd::string::group_string_axioms;

    let mut out = String::new();
    out.push('\'');
    for c in it: text.chars()
        invariant
            it.seq() == text@,
            out@ == seq!['\''] + quoted_body(text@.take(it.index() as int)),
    {
        let ghost before = it.index() as int;
        proof {
            assert(text@.take(before + 1).drop_last() =~= text@.take(before));
            assert(text@.take(before + 1).last() == c);
        }
        if c == '\'' {
            out.push('\'');
            out.push('\\');
            out.push('\'');
            out.push('\'');
            assert(out@ =~= seq!['\''] + quoted_body(text@.take(before + 1)));
        } else {
            out.push(c);
            assert(out@ =~= seq!['\''] + quoted_body(text@.take(before + 1)));
        }
    }
    assert(text@.take(text@.len() as int) =~= text@);
    out.push('\'');
    assert(out@ =~= quoted(text@));
    out
}

/// The command line that moves a file with elevated privileges. The
/// destination stands between single quotes.
pub open spec fn move_line(from: Seq<char>, to: Seq<char>) -> Seq<char> {
    "sudo mv "@ + from + " "@ + quoted(to)
}

/// The operation that runs shell text: the text is written to an ephemeral
/// file named after the token, the file is run through the shell, and what
/// it prints is shown.
pub open spec fn run_operation(
    use_sudo: bool,
    token: Seq<char>,
    script: Seq<char>,
) -> OperationView {
    OperationView {
        file: Some(StagedView { path: script_path(token), content: script, ephemeral: true }),
        command: Some(CommandView { line: shell_line(use_sudo, script_path(token)), shown: true }),
        phase: PhaseView::Ready,
    }
}

/// The operation that writes content to a path. With elevated privileges,
/// the content goes to an ephemeral file named after the token, which is
/// then moved to the destination; without them, the content is written to
/// the destination directly.
pub open spec fn upload_operation(
    use_sudo: bool,
    token: Seq<char>,
    content: Seq<char>,
    destination: Seq<char>,
) -> OperationView {
    if use_sudo {
        OperationView {
            file: Some(StagedView { path: transit_path(token), content, ephemeral: true }),
            command: Some(
                CommandView { line: move_line(transit_path(token), destination), shown: false },
            ),
            phase: PhaseView::Ready,
        }
    } else {
        OperationView {
            file: Some(StagedView { path: destination, content, ephemeral: false }),
            command: None,
            phase: PhaseView::Ready,
        }
    }
}

/// The operation that runs one command and drops what it prints.
pub open spec fn command_operation(line: Seq<char>) -> OperationView {
    OperationView {
        file: None,
        command: Some(CommandView { line, shown: false }),
        phase: PhaseView::Ready,
    }
}

/// Plans the run of shell text under the given token.
pub fn plan_run(use_sudo: bool, token: &str, script: &str) -> (r: Operation)
    ensures
        r@ == run_operation(use_sudo, token@, script@),
{
    let mut path: String = "/tmp/seeed_script_".to_owned();
    path.append(token);
    path.append(".sh");
    let mut line: String = if use_sudo {
        "sudo /bin/bash ".to_owned()
    } else {
        "/bin/bash ".to_owned()
    };
    line.append(path.as_str());
    Operation::new(
        Some(Staged { path, content: script.to_owned(), ephemeral: true }),
        Some(Command { line, shown: true }),
    )
}

/// Plans the writing of content to a path under the given token.
pub fn plan_upload(use_sudo: bool, token: &str, content: &str, destination: String) -> (r:
    Operation)
    ensures
        r@ == upload_operation(use_sudo, token@, content@, destination@),
{
    if use_sudo {
        let mut path: String = "/tmp/seeed_upload_".to_owned();
        path.append(token);
        let mut line: String = "sudo mv ".to_owned();
        line.append(path.as_str());
        line.append(" ");
        line.append(quote(destination.as_str()).as_str());
        Operation::new(
            Some(Staged { path, content: content.to_owned(), ephemeral: true }),
            Some(Command { line, shown: false }),
        )
    } else {
        Operation::new(
            Some(Staged { path: destination, content: content.to_owned(), ephemeral: false }),
            None,
        )
    }
}

/// Plans the run of one command.
pub fn plan_command(command: &str) -> (r: Operation)
    ensures
        r@ == command_operation(command@),
{
    Operation::new(None, Some(Command { line: command.to_owned(), shown: false }))
}

/// The life of a session: it is opened at most once, and a failure to open
/// it is final.
#[derive(Clone, Copy, Debug, PartialEq, Eq, Structural)]
pub enum SessionState {
    /// Nothing has been asked of the remote host yet.
    Unconnected,
    /// The session is being opened.
    Connecting,
    /// The session is open.
    Connected,
    /// The session could not be opened.
    Failed,
}

/// The decisions of a session to one remote host. The client holds no
/// transport: it says what is to be done, and is told how it went.
#[derive(Debug)]
pub struct SshClient {
    use_sudo: bool,
    state: SessionState,
}

/// The mathematical model of an [`SshClient`].
pub struct ClientView {
    pub use_sudo: bool,
    pub state: SessionState,
}

impl View for SshClient {
    type V = ClientView;

    closed spec fn view(&self) -> ClientView {
        ClientView { use_sudo: self.use_sudo, state: self.state }
    }
}

/// The model of how the opening of a session went.
pub open spec fn opening_view(outcome: Result<bool, SeeedError>) -> Result<bool, ErrorView> {
    match outcome {
        Ok(granted) => Ok(granted),
        Err(error) => Err(error@),
    }
}

/// The state of a session after its opening went as `outcome` says, and
/// what the opening comes to. An identity accepted opens the session; none
/// accepted is a bad target; a failure of the transport stays what it is.
pub open spec fn concluded(state: SessionState, outcome: Result<bool, ErrorView>) -> (
    SessionState,
    Result<(), ErrorView>,
) {
    if state == SessionState::Connecting {
        match outcome {
            Ok(granted) => if granted {
                (SessionState::Connected, Ok(()))
            } else {
                (SessionState::Failed, Err(ErrorView::BadTarget))
            },
            Err(error) => (SessionState::Failed, Err(error)),
        }
    } else {
        (state, Err(not_connecting()))
    }
}

/// The error of a report on an opening that is not under way.
pub open spec fn not_connecting() -> ErrorView {
    ErrorView::SshError("no session is being opened"@)
}

/// The error of a request to open a session a second time.
pub open spec fn already_asked() -> ErrorView {
    ErrorView::SshError("the session has been asked for before"@)
}

/// The error of an operation on a session that is not open.
pub open spec fn not_connected() -> ErrorView {
    ErrorView::SshError("the session is not open"@)
}

/// The model of the outcome of planning an operation.
pub open spec fn operation_result(r: Result<Operation, SeeedError>) -> Result<
    OperationView,
    ErrorView,
> {
    match r {
        Ok(operation) => Ok(operation@),
        Err(error) => Err(error@),
    }
}

impl SshClient {
    /// A client whose session has not been asked for.
    pub fn new(use_sudo: bool) -> (r: Self)
        ensures
            r@ == (ClientView { use_sudo, state: SessionState::Unconnected }),
    {
        Self { use_sudo, state: SessionState::Unconnected }
    }

    /// Whether remote commands run with elevated privileges.
    pub fn use_sudo(&self) -> (r: bool)
        ensures
            r == self@.use_sudo,
    {
        self.use_sudo
    }

    /// Where the session stands.
    pub fn state(&self) -> (r: SessionState)
        ensures
            r == self@.state,
    {
        self.state
    }

    /// Asks for the session to the host at the target address. The first
    /// time, the address is read: a well-formed one yields where to go, and
    /// the session is being opened from then on; a malformed one fails the
    /// session for good. Any later time is an error and changes nothing.
    pub fn connect(&mut self, target: &str) -> (r: Result<Target, SeeedError>)
        ensures
            final(self)@.use_sudo == old(self)@.use_sudo,
            old(self)@.state == SessionState::Unconnected ==> target_result(r)
                == target_of_address(target@) && final(self)@.state == (if r is Ok {
                SessionState::Connecting
            } else {
                SessionState::Failed
            }),
            old(self)@.state != SessionState::Unconnected ==> target_result(r) == Err::<
                crate::sshclient::target::TargetView,
                ErrorView,
            >(already_asked()) && final(self)@ == old(self)@,
    {
        if self.state != SessionState::Unconnected {
            return Err(SeeedError::SshError("the session has been asked for before".to_owned()));
        }
        match parse_target(target) {
            Ok(found) => {
                self.state = SessionState::Connecting;
                Ok(found)
            },
            Err(error) => {
                self.state = SessionState::Failed;
                Err(error)
            },
        }
    }

    /// Takes the report on the opening of the session: whether an identity
    /// was accepted, or how the transport failed.
    pub fn conclude(&mut self, outcome: Result<bool, SeeedError>) -> (r: Result<(), SeeedError>)
        ensures
            final(self)@.use_sudo == old(self)@.use_sudo,
            (final(self)@.state, crate::sshclient::operation::outcome_view(r)) == concluded(
                old(self)@.state,
                opening_view(outcome),
            ),
    {
        if self.state != SessionState::Connecting {
            return Err(SeeedError::SshError("no session is being opened".to_owned()));
        }
        match outcome {
            Ok(granted) => {
                if granted {
                    self.state = SessionState::Connected;
                    Ok(())
                } else {
                    self.state = SessionState::Failed;
                    Err(SeeedError::BadTarget)
                }
            },
            Err(error) => {
                self.state = SessionState::Failed;
                Err(error)
            },
        }
    }

    /// Plans the run of one command on the remote host, whose output is
    /// dropped. The session must be open.
    pub fn command(&self, command: &str) -> (r: Result<Operation, SeeedError>)
        ensures
            operation_result(r) == (if self@.state == SessionState::Connected {
                Ok::<OperationView, ErrorView>(command_operation(command@))
            } else {
                Err::<OperationView, ErrorView>(not_connected())
            }),
    {
        if self.state != SessionState::Connected {
            return Err(SeeedError::SshError("the session is not open".to_owned()));
        }
        Ok(plan_command(command))
    }

    /// Plans the run of shell text on the remote host, under a token drawn
    /// at random. The session must be open.
    pub fn run(&self, script: &str) -> (r: Result<Operation, SeeedError>)
        ensures
            match r {
                Ok(operation) => self@.state == SessionState::Connected && exists|token: Seq<char>|
                    is_token(token) && operation@ == #[trigger] run_operation(
                        self@.use_sudo,
                        token,
                        script@,
                    ),
                Err(error) => self@.state != SessionState::Connected && error@ == not_connected(),
            },
    {
        if self.state != SessionState::Connected {
            return Err(SeeedError::SshError("the session is not open".to_owned()));
        }
        let token = fresh_token();
        let operation = plan_run(self.use_sudo, token.as_str(), script);
        assert(is_token(token@) && operation@ == run_operation(self@.use_sudo, token@, script@));
        Ok(operation)
    }

    /// Plans the writing of content to a path on the remote host, under a
    /// token drawn at random. The session must be open.
    pub fn upload(&self, content: &str, dst_path: String) -> (r: Result<Operation, SeeedError>)
        ensures
            match r {
                Ok(operation) => self@.state == SessionState::Connected && exists|token: Seq<char>|
                    is_token(token) && operation@ == #[trigger] upload_operation(
                        self@.use_sudo,
                        token,
                        content@,
                        dst_path@,
                    ),
                Err(error) => self@.state != SessionState::Connected && error@ == not_connected(),
            },
    {
        if self.state != SessionState::Connected {
            return Err(SeeedError::SshError("the session is not open".to_owned()));
        }
        let token = fresh_token();
        let operation = plan_upload(self.use_sudo, token.as_str(), content, dst_path);
        assert(is_token(token@) && operation@ == upload_operation(
            self@.use_sudo,
            token@,
            content@,
            dst_path@,
        ));
        Ok(operation)
    }
}

} // verus!
