use seeed::error::SeeedError;
use seeed::sshclient::lines::{after_round, LineBuffer, Poll};
use seeed::sshclient::login::Login;
use seeed::sshclient::operation::{Command, Operation, Progress, Request, Staged};
use seeed::sshclient::target::{parse_target, read_port, target_from_groups, Target};
use seeed::sshclient::{plan_command, plan_run, plan_upload, quote, SessionState, SshClient};

fn target(user: &str, host: &str, port: u16) -> Target {
    Target {
        user: user.to_string(),
        host: host.to_string(),
        port,
    }
}

fn bad_target(address: &str) {
    match parse_target(address) {
        Err(SeeedError::BadTarget) => (),
        other => panic!("expected a bad target for {:?}, got {:?}", address, other),
    }
}

// Drives an operation with the given outcomes and returns the requests it
// made and its result, if it came to its end.
fn drive(
    operation: Operation,
    outcomes: Vec<Result<(), SeeedError>>,
) -> (Vec<Request>, Option<Result<(), SeeedError>>) {
    let mut requests = Vec::new();
    let mut progress = operation.start();
    let mut outcomes = outcomes.into_iter();
    loop {
        match progress {
            Progress::Finished(result) => return (requests, Some(result)),
            Progress::Continue(operation, request) => {
                requests.push(request);
                match outcomes.next() {
                    Some(outcome) => progress = operation.advance(outcome),
                    None => return (requests, None),
                }
            }
        }
    }
}

fn broken(text: &str) -> Result<(), SeeedError> {
    Err(SeeedError::SshError(text.to_string()))
}

fn removals(requests: &[Request]) -> usize {
    requests
        .iter()
        .filter(|request| matches!(request, Request::Remove(_)))
        .count()
}

#[test]
fn target_with_and_without_port() {
    assert_eq!(parse_target("user@host").unwrap(), target("user", "host", 22));
    assert_eq!(
        parse_target("deploy@example.org:2222").unwrap(),
        target("deploy", "example.org", 2222)
    );
    assert_eq!(parse_target("a@b:0").unwrap(), target("a", "b", 0));
    assert_eq!(parse_target("a@b:65535").unwrap(), target("a", "b", 65535));
    assert_eq!(parse_target("a@b:00022").unwrap(), target("a", "b", 22));
    assert_eq!(
        parse_target("a@10.0.0.1:22").unwrap(),
        target("a", "10.0.0.1", 22)
    );
}

#[test]
fn malformed_target_is_a_bad_target() {
    for address in [
        "",
        "host",
        "@host",
        "user@",
        "user@host:",
        "user@host:port",
        "user@host:22:23",
        "us:er@host",
        "a@b@c:x",
    ] {
        bad_target(address);
    }
}

#[test]
fn a_port_that_is_no_16_bit_number_is_a_bad_target() {
    bad_target("user@host:65536");
    bad_target("user@host:99999999999999999999");
    // digits that are no ASCII digits
    bad_target("user@host:\u{0662}\u{0662}");
}

#[test]
fn ports() {
    assert_eq!(read_port("22"), Some(22));
    assert_eq!(read_port("0"), Some(0));
    assert_eq!(read_port("065535"), Some(65535));
    assert_eq!(read_port("65536"), None);
    assert_eq!(read_port(""), None);
    assert_eq!(read_port("+22"), None);
    assert_eq!(read_port("2 2"), None);
}

#[test]
fn target_from_what_the_groups_captured() {
    let some = |text: &str| Some(text.to_string());
    assert_eq!(
        target_from_groups(Some(vec![some("u@h:7"), some("u"), some("h"), some(":7"), some("7")]))
            .unwrap(),
        target("u", "h", 7)
    );
    assert_eq!(
        target_from_groups(Some(vec![some("u@h"), some("u"), some("h"), None, None])).unwrap(),
        target("u", "h", 22)
    );
    assert!(target_from_groups(None).is_err());
    assert!(target_from_groups(Some(vec![some("u@h"), some("u"), some("h")])).is_err());
    assert!(target_from_groups(Some(vec![some("u@h"), None, some("h"), None, None])).is_err());
    assert!(
        target_from_groups(Some(vec![some("u@h:x"), some("u"), some("h"), some(":x"), some("x")]))
            .is_err()
    );
}

#[test]
fn the_session_is_opened_at_most_once() {
    let mut client = SshClient::new(false);
    assert_eq!(client.state(), SessionState::Unconnected);
    assert_eq!(client.connect("u@h:2200").unwrap(), target("u", "h", 2200));
    assert_eq!(client.state(), SessionState::Connecting);
    match client.connect("u@h") {
        Err(SeeedError::SshError(_)) => (),
        other => panic!("expected an error, got {:?}", other),
    }
    assert_eq!(client.state(), SessionState::Connecting);
    client.conclude(Ok(true)).unwrap();
    assert_eq!(client.state(), SessionState::Connected);
    assert!(client.connect("u@h").is_err());
    assert!(client.conclude(Ok(true)).is_err());
    assert_eq!(client.state(), SessionState::Connected);
}

#[test]
fn a_malformed_target_fails_the_session_for_good() {
    let mut client = SshClient::new(false);
    match client.connect("nowhere") {
        Err(SeeedError::BadTarget) => (),
        other => panic!("expected a bad target, got {:?}", other),
    }
    assert_eq!(client.state(), SessionState::Failed);
    assert!(client.connect("u@h").is_err());
    assert_eq!(client.state(), SessionState::Failed);
}

#[test]
fn no_identity_accepted_is_a_bad_target() {
    let mut client = SshClient::new(false);
    client.connect("u@h").unwrap();
    match client.conclude(Ok(false)) {
        Err(SeeedError::BadTarget) => (),
        other => panic!("expected a bad target, got {:?}", other),
    }
    assert_eq!(client.state(), SessionState::Failed);
}

#[test]
fn a_failure_of_the_transport_while_connecting_is_final() {
    let mut client = SshClient::new(false);
    client.connect("u@h").unwrap();
    match client.conclude(Err(SeeedError::SshError("refused".to_string()))) {
        Err(SeeedError::SshError(text)) => assert_eq!(text, "refused"),
        other => panic!("expected the error of the transport, got {:?}", other),
    }
    assert_eq!(client.state(), SessionState::Failed);
    assert!(client.run("ls").is_err());
}

#[test]
fn operations_need_an_open_session() {
    let client = SshClient::new(true);
    assert!(client.use_sudo());
    assert!(client.command("ls").is_err());
    assert!(client.run("ls").is_err());
    assert!(client.upload("c", "/x".to_string()).is_err());
}

fn open_client(use_sudo: bool) -> SshClient {
    let mut client = SshClient::new(use_sudo);
    client.connect("u@h").unwrap();
    client.conclude(Ok(true)).unwrap();
    client
}

fn token_of(path: &str) -> String {
    let name = path.strip_prefix("/tmp/seeed_script_").unwrap();
    name.strip_suffix(".sh").unwrap().to_string()
}

#[test]
fn a_run_stages_the_text_runs_it_and_removes_it() {
    let client = open_client(false);
    let (requests, result) = drive(
        client.run("echo hi").unwrap(),
        vec![Ok(()), Ok(()), Ok(()), Ok(())],
    );
    result.unwrap().unwrap();
    assert_eq!(requests.len(), 4);
    let path = match &requests[0] {
        Request::Create(path) => path.clone(),
        other => panic!("expected a file to be created, got {:?}", other),
    };
    let token = token_of(&path);
    assert_eq!(token.len(), 36);
    assert!(token
        .chars()
        .all(|c| c == '-' || c.is_ascii_digit() || ('a'..='f').contains(&c)));
    assert_eq!(
        requests,
        vec![
            Request::Create(path.clone()),
            Request::Write(path.clone(), "echo hi".to_string()),
            Request::Execute(format!("/bin/bash {}", path), true),
            Request::Remove(path.clone()),
        ]
    );
}

#[test]
fn two_runs_never_share_a_file() {
    let client = open_client(false);
    let (first, _) = drive(client.run("a").unwrap(), vec![]);
    let (second, _) = drive(client.run("a").unwrap(), vec![]);
    assert_ne!(first, second);
}

#[test]
fn a_run_with_elevated_privileges() {
    let (requests, result) = drive(
        plan_run(true, "TOKEN", "id"),
        vec![Ok(()), Ok(()), Ok(()), Ok(())],
    );
    result.unwrap().unwrap();
    assert_eq!(
        requests,
        vec![
            Request::Create("/tmp/seeed_script_TOKEN.sh".to_string()),
            Request::Write("/tmp/seeed_script_TOKEN.sh".to_string(), "id".to_string()),
            Request::Execute("sudo /bin/bash /tmp/seeed_script_TOKEN.sh".to_string(), true),
            Request::Remove("/tmp/seeed_script_TOKEN.sh".to_string()),
        ]
    );
}

#[test]
fn a_run_that_fails_midway_still_removes_its_file_once() {
    // the write fails
    let (requests, result) = drive(
        plan_run(false, "T", "id"),
        vec![Ok(()), broken("write"), Ok(())],
    );
    assert_eq!(removals(&requests), 1);
    assert_eq!(
        requests.last(),
        Some(&Request::Remove("/tmp/seeed_script_T.sh".to_string()))
    );
    match result {
        Some(Err(SeeedError::SshError(text))) => assert_eq!(text, "write"),
        other => panic!("expected the error of the write, got {:?}", other),
    }

    // the command fails
    let (requests, result) = drive(
        plan_run(false, "T", "id"),
        vec![Ok(()), Ok(()), broken("exec"), Ok(())],
    );
    assert_eq!(removals(&requests), 1);
    assert_eq!(requests.len(), 4);
    match result {
        Some(Err(SeeedError::SshError(text))) => assert_eq!(text, "exec"),
        other => panic!("expected the error of the command, got {:?}", other),
    }
}

#[test]
fn a_file_that_was_never_created_is_not_removed() {
    let (requests, result) = drive(plan_run(false, "T", "id"), vec![broken("create")]);
    assert_eq!(requests, vec![Request::Create("/tmp/seeed_script_T.sh".to_string())]);
    match result {
        Some(Err(SeeedError::SshError(text))) => assert_eq!(text, "create"),
        other => panic!("expected the error of the creation, got {:?}", other),
    }
}

#[test]
fn a_removal_that_fails_masks_nothing() {
    let (requests, result) = drive(
        plan_run(false, "T", "id"),
        vec![Ok(()), Ok(()), Ok(()), broken("unlink")],
    );
    assert_eq!(removals(&requests), 1);
    result.unwrap().unwrap();

    let (_, result) = drive(
        plan_run(false, "T", "id"),
        vec![Ok(()), Ok(()), broken("exec"), broken("unlink")],
    );
    match result {
        Some(Err(SeeedError::SshError(text))) => assert_eq!(text, "exec"),
        other => panic!("expected the error of the command, got {:?}", other),
    }
}

#[test]
fn an_upload_without_elevated_privileges_writes_to_the_destination() {
    let (requests, result) = drive(
        plan_upload(false, "T", "content", "/etc/motd".to_string()),
        vec![Ok(()), Ok(())],
    );
    result.unwrap().unwrap();
    assert_eq!(
        requests,
        vec![
            Request::Create("/etc/motd".to_string()),
            Request::Write("/etc/motd".to_string(), "content".to_string()),
        ]
    );

    let (requests, result) = drive(
        plan_upload(false, "T", "content", "/etc/motd".to_string()),
        vec![Ok(()), broken("write")],
    );
    assert_eq!(removals(&requests), 0);
    assert!(result.unwrap().is_err());
}

#[test]
fn an_upload_with_elevated_privileges_goes_through_an_ephemeral_file() {
    let (requests, result) = drive(
        plan_upload(true, "T", "content", "/etc/motd".to_string()),
        vec![Ok(()), Ok(()), Ok(()), broken("already gone")],
    );
    result.unwrap().unwrap();
    assert_eq!(
        requests,
        vec![
            Request::Create("/tmp/seeed_upload_T".to_string()),
            Request::Write("/tmp/seeed_upload_T".to_string(), "content".to_string()),
            Request::Execute("sudo mv /tmp/seeed_upload_T '/etc/motd'".to_string(), false),
            Request::Remove("/tmp/seeed_upload_T".to_string()),
        ]
    );
}

#[test]
fn an_upload_through_the_client() {
    let client = open_client(true);
    let (requests, _) = drive(
        client.upload("c", "/x".to_string()).unwrap(),
        vec![Ok(()), Ok(()), Ok(()), Ok(())],
    );
    assert_eq!(requests.len(), 4);
    assert_eq!(removals(&requests), 1);
    let client = open_client(false);
    let (requests, _) = drive(client.upload("c", "/x".to_string()).unwrap(), vec![Ok(()), Ok(())]);
    assert_eq!(
        requests,
        vec![
            Request::Create("/x".to_string()),
            Request::Write("/x".to_string(), "c".to_string()),
        ]
    );
}

#[test]
fn a_command_runs_and_drops_what_it_prints() {
    let client = open_client(true);
    let (requests, result) = drive(client.command("mkdir -p /srv").unwrap(), vec![Ok(())]);
    result.unwrap().unwrap();
    assert_eq!(
        requests,
        vec![Request::Execute("mkdir -p /srv".to_string(), false)]
    );
    let (_, result) = drive(plan_command("false"), vec![broken("exit")]);
    assert!(result.unwrap().is_err());
}

#[test]
fn an_operation_with_nothing_to_do_is_over_at_once() {
    let (requests, result) = drive(Operation::new(None, None), vec![]);
    assert_eq!(requests, vec![]);
    result.unwrap().unwrap();
}

#[test]
fn an_operation_that_only_stages_an_ephemeral_file_removes_it() {
    let staged = Staged {
        path: "/tmp/f".to_string(),
        content: "c".to_string(),
        ephemeral: true,
    };
    let (requests, result) = drive(Operation::new(Some(staged), None), vec![Ok(()), Ok(()), Ok(())]);
    result.unwrap().unwrap();
    assert_eq!(
        requests,
        vec![
            Request::Create("/tmp/f".to_string()),
            Request::Write("/tmp/f".to_string(), "c".to_string()),
            Request::Remove("/tmp/f".to_string()),
        ]
    );
    let command = Command {
        line: "ls".to_string(),
        shown: true,
    };
    let (requests, _) = drive(Operation::new(None, Some(command)), vec![Ok(())]);
    assert_eq!(requests, vec![Request::Execute("ls".to_string(), true)]);
}

#[test]
fn lines_come_out_as_soon_as_they_are_complete() {
    let mut buffer = LineBuffer::new();
    assert_eq!(buffer.feed(b"par"), Vec::<String>::new());
    assert_eq!(buffer.feed(b"tial\nsecond\nthi"), vec!["partial", "second"]);
    assert_eq!(buffer.feed(b""), Vec::<String>::new());
    assert_eq!(buffer.feed(b"rd\n\n"), vec!["third", ""]);
    assert_eq!(buffer.finish(), None);
}

#[test]
fn what_is_left_at_the_end_is_the_last_line() {
    let mut buffer = LineBuffer::new();
    assert_eq!(buffer.feed(b"one\ntwo"), vec!["one"]);
    assert_eq!(buffer.finish(), Some("two".to_string()));
    assert_eq!(buffer.finish(), None);
    assert_eq!(buffer.feed(b"\n"), vec![""]);
}

#[test]
fn lines_that_are_no_utf8_are_shown_all_the_same() {
    let mut buffer = LineBuffer::new();
    assert_eq!(buffer.feed(b"caf\xc3\xa9\nbad\xff\n"), vec!["caf\u{e9}", "bad\u{FFFD}"]);
    // a character cut in two by the arrival of the bytes is put together
    assert_eq!(buffer.feed(b"caf\xc3"), Vec::<String>::new());
    assert_eq!(buffer.feed(b"\xa9\n"), vec!["caf\u{e9}"]);
}

// Tries the identities against a host that accepts as `accepted` says, and
// returns the identities tried, in order, and whether one was accepted.
fn try_identities(accepted: &[bool]) -> (Vec<usize>, bool) {
    let mut login = Login::new(accepted.len());
    let mut tried = Vec::new();
    while let Some(index) = login.current() {
        tried.push(index);
        if accepted[index] {
            return (tried, true);
        }
        login.refuse();
    }
    (tried, false)
}

#[test]
fn identities_are_tried_in_listed_order_until_one_is_accepted() {
    assert_eq!(try_identities(&[true, true]), (vec![0], true));
    assert_eq!(try_identities(&[false, false, true, false]), (vec![0, 1, 2], true));
    assert_eq!(try_identities(&[false, false]), (vec![0, 1], false));
    assert_eq!(try_identities(&[]), (vec![], false));
}

#[test]
fn a_login_without_identities_left_stays_so() {
    let mut login = Login::new(1);
    assert_eq!(login.current(), Some(0));
    login.refuse();
    assert_eq!(login.current(), None);
    login.refuse();
    assert_eq!(login.current(), None);
}

#[test]
fn what_follows_a_round_of_reading() {
    assert_eq!(after_round(1, false), Poll::Again);
    assert_eq!(after_round(4096, true), Poll::Again);
    assert_eq!(after_round(0, false), Poll::Wait);
    assert_eq!(after_round(0, true), Poll::Done);
}

#[test]
fn quoting() {
    assert_eq!(quote(""), "''");
    assert_eq!(quote("/etc/motd"), "'/etc/motd'");
    assert_eq!(quote("a b;c"), "'a b;c'");
    assert_eq!(quote("it's"), "'it'\\''s'");
    assert_eq!(quote("'"), "''\\'''");
}

#[test]
fn the_destination_of_a_move_is_one_word() {
    let (requests, _) = drive(
        plan_upload(true, "T", "c", "/srv/my file; rm -rf 'x'".to_string()),
        vec![Ok(()), Ok(())],
    );
    assert_eq!(
        requests[2],
        Request::Execute(
            "sudo mv /tmp/seeed_upload_T '/srv/my file; rm -rf '\\''x'\\'''".to_string(),
            false
        )
    );
}
