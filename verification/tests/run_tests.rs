use seeed::error::SeeedError;
use seeed::script::ScriptContext;
use seeed::local::LocalMachine;
use seeed::sshclient::RemoteExecutor;
use std::sync::{Arc, Mutex};

// One journal for both collaborators, so that the order of all actions shows.
#[derive(Clone)]
struct Journal {
    lines: Arc<Mutex<Vec<String>>>,
    fail_on: Option<String>,
}

impl Journal {
    fn new(fail_on: Option<&str>) -> Self {
        Self {
            lines: Arc::new(Mutex::new(Vec::new())),
            fail_on: fail_on.map(|text| text.to_string()),
        }
    }

    fn note(&self, line: String) -> Result<(), SeeedError> {
        let fails = self.fail_on.as_ref() == Some(&line);
        self.lines.lock().unwrap().push(line.clone());
        if fails {
            Err(SeeedError::SshError(line))
        } else {
            Ok(())
        }
    }

    fn lines(&self) -> Vec<String> {
        self.lines.lock().unwrap().clone()
    }
}

impl RemoteExecutor for Journal {
    fn connect(&mut self, target: &str) -> Result<(), SeeedError> {
        self.note(format!("connect {}", target))
    }

    fn command(&self, command: &str) -> Result<(), SeeedError> {
        self.note(format!("command {}", command))
    }

    fn run(&self, script: &str) -> Result<(), SeeedError> {
        self.note(format!("run {}", script))
    }

    fn upload(&self, content: &str, dst_path: String) -> Result<(), SeeedError> {
        self.note(format!("upload {} -> {}", content, dst_path))
    }
}

impl LocalMachine for Journal {
    fn echo(&mut self, line: &str) {
        let _ = self.note(format!("echo {}", line));
    }

    fn exec(&mut self, command: &str) -> Result<(), SeeedError> {
        match self.note(format!("exec {}", command)) {
            Ok(()) => Ok(()),
            Err(_) => Err(SeeedError::LocalProcess(command.to_string())),
        }
    }

    fn read_file(&mut self, path: &str) -> Result<String, SeeedError> {
        match self.note(format!("read {}", path)) {
            Ok(()) => Ok(format!("<{}>", path)),
            Err(_) => Err(SeeedError::IoError(path.to_string())),
        }
    }
}

fn context(
    target: Option<&str>,
    text: &str,
    journal: &Journal,
) -> ScriptContext<Journal, Journal> {
    ScriptContext::new(
        target.map(|t| t.to_string()),
        false,
        text.to_string(),
        journal.clone(),
        journal.clone(),
    )
}

#[test]
fn a_run_carries_out_every_action_in_order() {
    let journal = Journal::new(None);
    let mut context = context(
        Some("u@h"),
        "echo(\"start\")\n| remote\nexec(\"make\")\nupload(\"a.txt\", \"/b.txt\")\nupload(<<<E c E>>>, \"/d\")\n",
        &journal,
    );
    context.run(false).unwrap();
    assert_eq!(
        journal.lines(),
        vec![
            "echo start",
            "connect u@h",
            "run  remote",
            "exec make",
            "read a.txt",
            "upload <a.txt> -> /b.txt",
            "upload  c  -> /d",
        ]
    );
    assert_eq!(context.completed(), 6);
    assert_eq!(context.evaluator().actions().len(), 6);
}

#[test]
fn the_first_action_that_fails_ends_the_run() {
    let journal = Journal::new(Some("run  two"));
    let mut context = context(Some("u@h"), "| one\n| two\n| three\n", &journal);
    match context.run(false) {
        Err(SeeedError::SshError(line)) => assert_eq!(line, "run  two"),
        other => panic!("expected the error of the transport, got {:?}", other),
    }
    assert_eq!(journal.lines(), vec!["connect u@h", "run  one", "run  two"]);
    assert_eq!(context.completed(), 2);
    assert_eq!(context.evaluator().actions().len(), 4);
}

#[test]
fn a_failure_to_connect_ends_the_run() {
    let journal = Journal::new(Some("connect u@h"));
    let mut context = context(Some("u@h"), "echo(\"a\")\n| one\n", &journal);
    assert!(context.run(false).is_err());
    assert_eq!(journal.lines(), vec!["echo a", "connect u@h"]);
    assert_eq!(context.completed(), 1);
}

#[test]
fn a_local_command_that_fails_ends_the_run() {
    let journal = Journal::new(Some("exec false"));
    let mut context = context(Some("u@h"), "exec(\"false\")\n| never\n", &journal);
    match context.run(false) {
        Err(SeeedError::LocalProcess(command)) => assert_eq!(command, "false"),
        other => panic!("expected the error of the command, got {:?}", other),
    }
    assert_eq!(journal.lines(), vec!["exec false"]);
}

#[test]
fn a_local_file_that_cannot_be_read_ends_the_run() {
    let journal = Journal::new(Some("read missing.txt"));
    let mut context = context(Some("u@h"), "upload(\"missing.txt\", \"/x\")\n| never\n", &journal);
    match context.run(false) {
        Err(SeeedError::IoError(path)) => assert_eq!(path, "missing.txt"),
        other => panic!("expected the error of the file, got {:?}", other),
    }
    assert_eq!(journal.lines(), vec!["connect u@h", "read missing.txt"]);
}

#[test]
fn an_error_of_the_script_comes_after_the_actions_before_it() {
    let journal = Journal::new(None);
    let mut context = context(Some("u@h"), "| one\nlet a = $missing\n| two\n", &journal);
    match context.run(false) {
        Err(SeeedError::UndefinedVar(name)) => assert_eq!(name, "missing"),
        other => panic!("expected an undefined variable, got {:?}", other),
    }
    assert_eq!(journal.lines(), vec!["connect u@h", "run  one"]);
    assert_eq!(context.completed(), 2);
}

#[test]
fn a_text_that_is_no_script_fails_with_the_place() {
    let journal = Journal::new(None);
    let mut context = context(Some("u@h"), "| one\nlet = 1\n", &journal);
    match context.run(false) {
        Err(SeeedError::Parse(failure)) => {
            assert_eq!(failure.line, 2);
            assert_eq!(failure.column, 5);
            assert_eq!(failure.source_line, "let = 1");
            assert_eq!(failure.pointer, "    ^");
        }
        other => panic!("expected a parse failure, got {:?}", other),
    }
    assert_eq!(journal.lines(), Vec::<String>::new());
}

#[test]
fn debug_only_parses() {
    let journal = Journal::new(None);
    let mut context = context(None, "echo(\"a\")\n| one\nlet a = $missing\n", &journal);
    context.run(true).unwrap();
    assert_eq!(journal.lines(), Vec::<String>::new());
    assert_eq!(context.evaluator().actions().len(), 0);

    let mut context = context_with_bad_text(&journal);
    assert!(context.run(true).is_err());
}

fn context_with_bad_text(journal: &Journal) -> ScriptContext<Journal, Journal> {
    context(None, "let", journal)
}

#[test]
fn variables_given_from_outside_are_strings_that_the_script_may_replace() {
    let journal = Journal::new(None);
    let mut context = context(
        Some("u@h"),
        "echo(\"{{ stage }} {{ region }}\")\nlet region = \"west\"\necho($region)\n",
        &journal,
    );
    context.define("stage".to_string(), "prod".to_string());
    context.define("region".to_string(), "east".to_string());
    context.run(false).unwrap();
    assert_eq!(journal.lines(), vec!["echo prod east", "echo west"]);
}

#[test]
fn the_context_keeps_what_it_was_built_with() {
    let journal = Journal::new(None);
    let context = ScriptContext::new(
        None,
        true,
        "| ls\n".to_string(),
        journal.clone(),
        journal.clone(),
    );
    assert!(context.use_sudo());
    assert_eq!(context.contents(), "| ls\n");
    assert_eq!(context.completed(), 0);
}

#[test]
fn a_boxed_executor_is_an_executor() {
    let journal = Journal::new(None);
    let executor: Box<dyn RemoteExecutor> = Box::new(journal.clone());
    let mut context = ScriptContext::new(
        Some("u@h".to_string()),
        false,
        "| ls\n".to_string(),
        executor,
        journal.clone(),
    );
    context.run(false).unwrap();
    assert_eq!(journal.lines(), vec!["connect u@h", "run  ls"]);
}

#[test]
fn a_run_can_be_driven_step_by_step() {
    let journal = Journal::new(None);
    let mut context = context(Some("u@h"), "echo(\"a\")\n| one\n| two\n", &journal);
    context.plan().unwrap();
    assert_eq!(journal.lines(), Vec::<String>::new());

    let mut seen = Vec::new();
    while let Some(action) = context.next_action() {
        seen.push(format!("{:?}", action));
        let fails = seen.len() == 3;
        let outcome = if fails {
            Err(SeeedError::SshError("lost".to_string()))
        } else {
            Ok(())
        };
        if context.report(outcome).is_err() {
            break;
        }
    }
    assert_eq!(
        seen,
        vec![
            "Echo(\"a\")",
            "Connect(\"u@h\")",
            "Run(\" one\")",
        ]
    );
    // the action that failed stays next
    assert_eq!(context.completed(), 2);
    assert_eq!(format!("{:?}", context.next_action()), "Some(Run(\" one\"))");
}

#[test]
fn a_report_without_an_action_changes_nothing() {
    let journal = Journal::new(None);
    let mut context = context(None, "let a = 1\n", &journal);
    context.plan().unwrap();
    assert!(context.next_action().is_none());
    context.report(Ok(())).unwrap();
    assert!(context.report(Err(SeeedError::BadTarget)).is_err());
    assert_eq!(context.completed(), 0);
}

#[test]
fn a_run_of_a_loop_over_a_number_fails_and_runs_nothing() {
    let journal = Journal::new(None);
    let mut context = context(Some("user@host"), "for x in 5 { }", &journal);
    match context.run(false) {
        Err(SeeedError::NotIterable) => (),
        other => panic!("expected a loop error, got {:?}", other),
    }
    assert_eq!(journal.lines(), Vec::<String>::new());
}
