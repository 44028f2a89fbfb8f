use seeed::built_in_functions::execute_function;
use seeed::environment::Environment;
use seeed::error::SeeedError;
use seeed::evaluator::{Action, Evaluator};
use seeed::parser::{script_parser, Expr, ScriptItem, Value};

fn evaluate(target: Option<&str>, text: &str) -> (Result<(), SeeedError>, Evaluator) {
    let script = script_parser().parse(text.as_bytes()).unwrap();
    let mut evaluator = Evaluator::new(target.map(|t| t.to_string()));
    let outcome = evaluator.execute_block(&script.statements);
    (outcome, evaluator)
}

fn string(text: &str) -> Value {
    Value::String(text.to_string())
}

#[test]
fn text_without_a_placeholder_expands_to_itself() {
    let mut evaluator = Evaluator::new(None);
    evaluator.define("name".to_string(), string("world"));
    for text in [
        "",
        "plain text",
        "a trailing newline\n",
        "one { brace } and }} closing ones",
        "{% not a placeholder %}",
        "{# nor this #}",
        "{ {",
    ] {
        assert_eq!(evaluator.resolve_template(text).unwrap(), text);
    }
}

#[test]
fn placeholders_are_replaced_by_display_forms() {
    let mut evaluator = Evaluator::new(None);
    evaluator.define("s".to_string(), string("text"));
    evaluator.define("h".to_string(), Value::HereDocText("doc".to_string()));
    evaluator.define("n".to_string(), Value::Integer(-42));
    evaluator.define("b".to_string(), Value::Bool(true));
    evaluator.define("a".to_string(), Value::Array(vec![Value::Integer(1)]));
    evaluator.define("v".to_string(), Value::Void);
    assert_eq!(
        evaluator
            .resolve_template("{{ s }}/{{h}}/{{ n }}/{{ b }}/{{ a }}/{{ v }}.\n")
            .unwrap(),
        "text/doc/-42/true/[array]/.\n"
    );
}

#[test]
fn an_unresolvable_placeholder_fails() {
    let evaluator = Evaluator::new(None);
    match evaluator.resolve_template("hello {{ nobody }}") {
        Err(SeeedError::Template(_)) => (),
        other => panic!("expected a template error, got {:?}", other),
    }
}

#[test]
fn malformed_template_syntax_fails() {
    let evaluator = Evaluator::new(None);
    match evaluator.resolve_template("hello {{ name") {
        Err(SeeedError::Template(_)) => (),
        other => panic!("expected a template error, got {:?}", other),
    }
}

#[test]
fn display_forms() {
    assert_eq!(string("abc").to_string(), "abc");
    assert_eq!(Value::HereDocText("x\ny".to_string()).to_string(), "x\ny");
    assert_eq!(Value::Integer(0).to_string(), "0");
    assert_eq!(Value::Integer(7).to_string(), "7");
    assert_eq!(Value::Integer(1234567890).to_string(), "1234567890");
    assert_eq!(Value::Integer(-1).to_string(), "-1");
    assert_eq!(Value::Integer(i64::MAX).to_string(), "9223372036854775807");
    assert_eq!(Value::Integer(i64::MIN).to_string(), "-9223372036854775808");
    assert_eq!(Value::Bool(true).to_string(), "true");
    assert_eq!(Value::Bool(false).to_string(), "false");
    assert_eq!(Value::Array(vec![]).to_string(), "[array]");
    assert_eq!(Value::Void.to_string(), "");
}

#[test]
fn a_copy_of_a_value_equals_it() {
    let value = Value::Array(vec![
        string("a"),
        Value::Array(vec![Value::Integer(1), Value::Bool(false), Value::Void]),
        Value::HereDocText("h".to_string()),
    ]);
    assert_eq!(value.duplicate(), value);
}

#[test]
fn the_last_write_wins() {
    let mut env = Environment::new();
    env.set("a".to_string(), Value::Integer(1));
    env.set("b".to_string(), Value::Integer(2));
    env.set("a".to_string(), Value::Integer(3));
    assert_eq!(env.len(), 2);
    assert_eq!(env.get(&"a".to_string()), Some(&Value::Integer(3)));
    assert_eq!(env.get(&"b".to_string()), Some(&Value::Integer(2)));
    assert_eq!(env.get(&"c".to_string()), None);
    assert_eq!(env.names(), vec!["a".to_string(), "b".to_string()]);
    assert_eq!(env.texts(), vec!["3".to_string(), "2".to_string()]);
}

#[test]
fn literals_are_expanded_when_they_are_evaluated() {
    let (outcome, evaluator) =
        evaluate(None, "let who = \"world\"\nlet msg = \"hello {{ who }}\"\nlet who = \"moon\"\n");
    outcome.unwrap();
    assert_eq!(
        evaluator.variable(&"msg".to_string()),
        Some(&string("hello world"))
    );
    assert_eq!(evaluator.variable(&"who".to_string()), Some(&string("moon")));
}

#[test]
fn forward_references_are_never_visible() {
    let (outcome, evaluator) = evaluate(None, "let msg = \"hello {{ who }}\"\nlet who = \"x\"\n");
    match outcome {
        Err(SeeedError::Template(_)) => (),
        other => panic!("expected a template error, got {:?}", other),
    }
    assert_eq!(evaluator.variable(&"msg".to_string()), None);
    assert_eq!(evaluator.variable(&"who".to_string()), None);
}

#[test]
fn heredoc_evaluates_to_heredoc_text() {
    let (outcome, evaluator) = evaluate(None, "let n = 3\nlet h = <<<EOF\ncount {{ n }}\nEOF>>>\n");
    outcome.unwrap();
    assert_eq!(
        evaluator.variable(&"h".to_string()),
        Some(&Value::HereDocText("\ncount 3\n".to_string()))
    );
}

#[test]
fn arrays_evaluate_their_items_in_order() {
    let (outcome, evaluator) = evaluate(None, "let x = 1\nlet a = [$x, \"{{ x }}\", [true]]\n");
    outcome.unwrap();
    assert_eq!(
        evaluator.variable(&"a".to_string()),
        Some(&Value::Array(vec![
            Value::Integer(1),
            string("1"),
            Value::Array(vec![Value::Bool(true)]),
        ]))
    );
}

#[test]
fn undefined_variable_is_an_error() {
    let mut evaluator = Evaluator::new(None);
    match evaluator.expand_expr(&Expr::Variable("missing".to_string())) {
        Err(SeeedError::UndefinedVar(name)) => assert_eq!(name, "missing"),
        other => panic!("expected an undefined variable, got {:?}", other),
    }
    let (outcome, _) = evaluate(None, "let a = $missing\n");
    match outcome {
        Err(SeeedError::UndefinedVar(name)) => assert_eq!(name, "missing"),
        other => panic!("expected an undefined variable, got {:?}", other),
    }
}

#[test]
fn a_loop_over_a_value_that_is_no_array_is_an_error() {
    for text in [
        "for x in 5 {\n}\n",
        "for x in \"text\" {\n}\n",
        "for x in true {\n}\n",
        "for x in echo() {\n}\n",
    ] {
        let (outcome, evaluator) = evaluate(Some("u@h"), text);
        match outcome {
            Err(SeeedError::NotIterable) => (),
            other => panic!("expected a loop error, got {:?}", other),
        }
        assert_eq!(evaluator.variable(&"x".to_string()), None);
    }
}

#[test]
fn a_loop_runs_its_body_once_for_each_value_in_order() {
    let (outcome, evaluator) = evaluate(
        Some("user@host"),
        "let users = [\"alice\",\"bob\"]\nfor user in $users {\n| echo {{ user }}\n}\n",
    );
    outcome.unwrap();
    assert_eq!(
        evaluator.actions(),
        &vec![
            Action::Connect("user@host".to_string()),
            Action::Run(" echo alice".to_string()),
            Action::Run(" echo bob".to_string()),
        ]
    );
}

#[test]
fn the_variable_of_a_loop_outlives_the_loop() {
    let (outcome, evaluator) = evaluate(
        None,
        "let x = \"before\"\nfor x in [1, 2, 3] {\nlet seen = $x\n}\necho($x)\n",
    );
    outcome.unwrap();
    assert_eq!(evaluator.variable(&"x".to_string()), Some(&Value::Integer(3)));
    assert_eq!(evaluator.variable(&"seen".to_string()), Some(&Value::Integer(3)));
    assert_eq!(evaluator.actions(), &vec![Action::Echo("3".to_string())]);
}

#[test]
fn a_loop_over_the_empty_array_binds_nothing() {
    let (outcome, evaluator) = evaluate(None, "for x in [] {\necho(\"never\")\n}\n");
    outcome.unwrap();
    assert_eq!(evaluator.variable(&"x".to_string()), None);
    assert_eq!(evaluator.actions(), &vec![]);
}

#[test]
fn nested_loops() {
    let (outcome, evaluator) = evaluate(
        None,
        "for a in [1, 2] {\nfor b in [\"x\", \"y\"] {\necho(\"{{ a }}{{ b }}\")\n}\n}\n",
    );
    outcome.unwrap();
    assert_eq!(
        evaluator.actions(),
        &vec![
            Action::Echo("1x".to_string()),
            Action::Echo("1y".to_string()),
            Action::Echo("2x".to_string()),
            Action::Echo("2y".to_string()),
        ]
    );
}

#[test]
fn remote_block_joins_its_lines_with_newlines() {
    let (outcome, evaluator) = evaluate(
        Some("u@h"),
        "let d = \"/srv\"\n+ block\n| cd {{ d }}\n| ls\n+ end\n",
    );
    outcome.unwrap();
    assert_eq!(
        evaluator.actions(),
        &vec![
            Action::Connect("u@h".to_string()),
            Action::Run(" cd /srv\n ls".to_string()),
        ]
    );
}

#[test]
fn the_session_is_opened_once_and_only_when_needed() {
    let (outcome, evaluator) = evaluate(Some("u@h"), "let a = 1\necho(\"local\")\n");
    outcome.unwrap();
    assert_eq!(evaluator.actions(), &vec![Action::Echo("local".to_string())]);

    let (outcome, evaluator) = evaluate(Some("u@h"), "echo(\"first\")\n| one\n| two\n");
    outcome.unwrap();
    assert_eq!(
        evaluator.actions(),
        &vec![
            Action::Echo("first".to_string()),
            Action::Connect("u@h".to_string()),
            Action::Run(" one".to_string()),
            Action::Run(" two".to_string()),
        ]
    );
}

#[test]
fn the_target_given_from_outside_wins() {
    let (outcome, evaluator) = evaluate(Some("cli@host"), "let target = \"script@host\"\n| ls\n");
    outcome.unwrap();
    assert_eq!(evaluator.resolve_target(), Some("cli@host".to_string()));
    assert_eq!(
        evaluator.actions()[0],
        Action::Connect("cli@host".to_string())
    );
}

#[test]
fn the_target_of_the_script_is_read_when_the_session_is_first_needed() {
    let (outcome, evaluator) = evaluate(
        None,
        "let target = \"early@host\"\nlet target = \"late@host\"\n| ls\nlet target = \"after@host\"\n| ls\n",
    );
    outcome.unwrap();
    assert_eq!(
        evaluator.actions(),
        &vec![
            Action::Connect("late@host".to_string()),
            Action::Run(" ls".to_string()),
            Action::Run(" ls".to_string()),
        ]
    );
}

#[test]
fn without_a_target_the_run_fails_before_anything_is_asked() {
    let (outcome, evaluator) = evaluate(None, "echo(\"a\")\n| ls\necho(\"b\")\n");
    match outcome {
        Err(SeeedError::BadTarget) => (),
        other => panic!("expected a bad target, got {:?}", other),
    }
    assert_eq!(evaluator.actions(), &vec![Action::Echo("a".to_string())]);
    assert_eq!(evaluator.resolve_target(), None);
}

#[test]
fn echo_takes_any_number_of_arguments() {
    let (outcome, evaluator) = evaluate(None, "echo()\necho(\"a\", 2, true, [1])\n");
    outcome.unwrap();
    assert_eq!(
        evaluator.actions(),
        &vec![
            Action::Echo("a".to_string()),
            Action::Echo("2".to_string()),
            Action::Echo("true".to_string()),
            Action::Echo("[array]".to_string()),
        ]
    );
}

#[test]
fn exec_takes_exactly_one_argument() {
    let (outcome, evaluator) = evaluate(None, "let d = \"/tmp\"\nexec(\"ls {{ d }}\")\n");
    outcome.unwrap();
    assert_eq!(evaluator.actions(), &vec![Action::Exec("ls /tmp".to_string())]);

    for (text, given) in [("exec()\n", 0), ("exec(\"a\", \"b\")\n", 2)] {
        let (outcome, evaluator) = evaluate(None, text);
        match outcome {
            Err(SeeedError::WrongArgCount(expected, actual)) => {
                assert_eq!(expected, 1);
                assert_eq!(actual, given);
            }
            other => panic!("expected a wrong count, got {:?}", other),
        }
        assert_eq!(evaluator.actions(), &vec![]);
    }
}

#[test]
fn upload_of_heredoc_text_sends_the_content() {
    let (outcome, evaluator) = evaluate(
        Some("u@h"),
        "let v = 2\nupload(<<<EOF\nversion={{ v }}\nEOF>>>, \"/etc/app.conf\")\n",
    );
    outcome.unwrap();
    assert_eq!(
        evaluator.actions(),
        &vec![
            Action::Connect("u@h".to_string()),
            Action::Upload("\nversion=2\n".to_string(), "/etc/app.conf".to_string()),
        ]
    );
}

#[test]
fn upload_of_a_string_sends_the_local_file() {
    let (outcome, evaluator) = evaluate(Some("u@h"), "upload(\"./local.txt\", \"/remote.txt\")\n");
    outcome.unwrap();
    assert_eq!(
        evaluator.actions(),
        &vec![
            Action::Connect("u@h".to_string()),
            Action::UploadFile("./local.txt".to_string(), "/remote.txt".to_string()),
        ]
    );
}

#[test]
fn upload_checks_the_count_before_the_kinds() {
    for (text, given) in [
        ("upload()\n", 0),
        ("upload(5)\n", 1),
        ("upload(5, 6, 7)\n", 3),
    ] {
        let (outcome, evaluator) = evaluate(Some("u@h"), text);
        match outcome {
            Err(SeeedError::WrongArgCount(expected, actual)) => {
                assert_eq!(expected, 2);
                assert_eq!(actual, given);
            }
            other => panic!("expected a wrong count, got {:?}", other),
        }
        assert_eq!(evaluator.actions(), &vec![]);
    }
}

#[test]
fn upload_with_a_first_argument_of_the_wrong_kind_asks_nothing_of_the_host() {
    let (outcome, evaluator) = evaluate(Some("u@h"), "upload(5, \"/tmp/x\")\n");
    match outcome {
        Err(SeeedError::BadArgType(message)) => {
            assert_eq!(message, "first argument of upload must be a string or a heredoc")
        }
        other => panic!("expected a type error, got {:?}", other),
    }
    assert_eq!(evaluator.actions(), &vec![]);
}

#[test]
fn upload_with_a_second_argument_of_the_wrong_kind_asks_nothing_of_the_host() {
    for text in [
        "upload(\"a\", 5)\n",
        "upload(\"a\", <<<E /x E>>>)\n",
        "upload(<<<E c E>>>, [\"/x\"])\n",
    ] {
        let (outcome, evaluator) = evaluate(Some("u@h"), text);
        match outcome {
            Err(SeeedError::BadArgType(message)) => {
                assert_eq!(message, "second argument of upload must be a string")
            }
            other => panic!("expected a type error, got {:?}", other),
        }
        assert_eq!(evaluator.actions(), &vec![]);
    }
}

#[test]
fn upload_without_a_target_is_a_bad_target() {
    let (outcome, evaluator) = evaluate(None, "upload(\"a\", \"/x\")\n");
    match outcome {
        Err(SeeedError::BadTarget) => (),
        other => panic!("expected a bad target, got {:?}", other),
    }
    assert_eq!(evaluator.actions(), &vec![]);
}

#[test]
fn unknown_function_is_an_error_after_its_arguments_are_evaluated() {
    let (outcome, evaluator) = evaluate(None, "nothing(echo(\"seen\"))\n");
    match outcome {
        Err(SeeedError::UnknownFunction()) => (),
        other => panic!("expected an unknown function, got {:?}", other),
    }
    assert_eq!(evaluator.actions(), &vec![Action::Echo("seen".to_string())]);

    let mut evaluator = Evaluator::new(None);
    match execute_function("Echo", vec![], &mut evaluator) {
        Err(SeeedError::UnknownFunction()) => (),
        other => panic!("expected an unknown function, got {:?}", other),
    }
}

#[test]
fn built_in_functions_yield_nothing() {
    let mut evaluator = Evaluator::new(None);
    assert_eq!(
        execute_function("echo", vec![string("x")], &mut evaluator).unwrap(),
        Value::Void
    );
    assert_eq!(
        execute_function("exec", vec![string("x")], &mut evaluator).unwrap(),
        Value::Void
    );
    let (outcome, evaluator) = evaluate(None, "let r = echo(\"x\")\n");
    outcome.unwrap();
    assert_eq!(evaluator.variable(&"r".to_string()), Some(&Value::Void));
}

#[test]
fn an_error_ends_the_rest_of_the_script() {
    let (outcome, evaluator) =
        evaluate(Some("u@h"), "| one\nlet a = $missing\n| two\necho(\"three\")\n");
    assert!(outcome.is_err());
    assert_eq!(
        evaluator.actions(),
        &vec![
            Action::Connect("u@h".to_string()),
            Action::Run(" one".to_string()),
        ]
    );
}

#[test]
fn comments_and_empty_lines_do_nothing() {
    let mut evaluator = Evaluator::new(None);
    evaluator.execute(&ScriptItem::Comment).unwrap();
    evaluator.execute(&ScriptItem::EmptyLine).unwrap();
    assert_eq!(evaluator.actions(), &vec![]);
}

#[test]
fn a_loop_on_one_line_over_a_value_that_is_no_array_is_an_error() {
    let (outcome, evaluator) = evaluate(Some("user@host"), "for x in 5 { }");
    match outcome {
        Err(SeeedError::NotIterable) => (),
        other => panic!("expected a loop error, got {:?}", other),
    }
    assert_eq!(evaluator.actions(), &vec![]);
    assert_eq!(evaluator.variable(&"x".to_string()), None);
}

#[test]
fn a_loop_on_one_line_binds_the_last_value() {
    let (outcome, evaluator) = evaluate(None, "for x in [1, 2] { }\n");
    outcome.unwrap();
    assert_eq!(evaluator.variable(&"x".to_string()), Some(&Value::Integer(2)));
    assert_eq!(evaluator.actions(), &vec![]);
}
