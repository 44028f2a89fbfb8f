use seeed::parser::failure::ParseFailure;
use seeed::parser::{script_parser, Expr, Script, ScriptItem, Value};

fn parse(text: &str) -> Script {
    script_parser().parse(text.as_bytes()).unwrap()
}

fn fail(text: &str) -> ParseFailure {
    script_parser().parse(text.as_bytes()).unwrap_err()
}

fn text(value: &str) -> Expr {
    Expr::Literal(Value::String(value.to_string()))
}

#[test]
fn empty_text_is_the_empty_script() {
    assert_eq!(parse("").statements, vec![]);
}

#[test]
fn comment_and_empty_lines() {
    let script = parse("# a comment\n\n  \t\n#last");
    assert_eq!(
        script.statements,
        vec![
            ScriptItem::Comment,
            ScriptItem::EmptyLine,
            ScriptItem::EmptyLine,
            ScriptItem::Comment,
        ]
    );
}

#[test]
fn trailing_newline_is_optional() {
    assert_eq!(parse("let x = 1").statements, parse("let x = 1\n").statements);
    assert_eq!(parse("| ls").statements, parse("| ls\n").statements);
    assert_eq!(parse("echo(\"a\")").statements, parse("echo(\"a\")\n").statements);
}

#[test]
fn blanks_at_the_end_of_the_text_are_an_empty_line() {
    assert_eq!(
        parse("let x = 1\n   ").statements,
        vec![
            ScriptItem::Assign("x".to_string(), Expr::Literal(Value::Integer(1))),
            ScriptItem::EmptyLine,
        ]
    );
}

#[test]
fn assignment_tolerates_blanks_around_the_sign() {
    let expected = vec![ScriptItem::Assign("name".to_string(), text("v"))];
    assert_eq!(parse("let name=\"v\"\n").statements, expected);
    assert_eq!(parse("let   name \t =  \"v\"  \n").statements, expected);
}

#[test]
fn identifiers_start_with_a_letter_or_an_underscore() {
    assert_eq!(
        parse("let _a1_B = 0").statements,
        vec![ScriptItem::Assign("_a1_B".to_string(), Expr::Literal(Value::Integer(0)))]
    );
    assert_eq!(fail("let 1a = 0").offset, 4);
}

#[test]
fn integer_literals() {
    assert_eq!(
        parse("let n = 0042").statements,
        vec![ScriptItem::Assign("n".to_string(), Expr::Literal(Value::Integer(42)))]
    );
    assert_eq!(
        parse("let n = 9223372036854775807").statements,
        vec![ScriptItem::Assign(
            "n".to_string(),
            Expr::Literal(Value::Integer(9223372036854775807))
        )]
    );
}

#[test]
fn integer_out_of_range_is_no_literal() {
    let failure = fail("let n = 9223372036854775808");
    assert_eq!(failure.offset, 8);
    let failure = fail("let n = -1");
    assert_eq!(failure.offset, 8);
}

#[test]
fn boolean_literals() {
    assert_eq!(
        parse("let a = true\nlet b = false\n").statements,
        vec![
            ScriptItem::Assign("a".to_string(), Expr::Literal(Value::Bool(true))),
            ScriptItem::Assign("b".to_string(), Expr::Literal(Value::Bool(false))),
        ]
    );
}

#[test]
fn string_escapes() {
    let script = parse("let s = \"a\\\\b\\\"c\\nd\\re\\tf\\bg\\fh\"");
    assert_eq!(
        script.statements,
        vec![ScriptItem::Assign(
            "s".to_string(),
            text("a\\b\"c\nd\re\tf\u{8}g\u{c}h")
        )]
    );
}

#[test]
fn unicode_escapes_are_utf16_code_units() {
    assert_eq!(
        parse("let s = \"\\u0041\\u00e9\\u20AC\"").statements,
        vec![ScriptItem::Assign("s".to_string(), text("A\u{e9}\u{20ac}"))]
    );
    // a pair of surrogates writes one character
    assert_eq!(
        parse("let s = \"\\uD83D\\uDE00\"").statements,
        vec![ScriptItem::Assign("s".to_string(), text("\u{1F600}"))]
    );
}

#[test]
fn malformed_surrogates_become_the_replacement_character() {
    // a leading surrogate alone
    assert_eq!(
        parse("let s = \"\\uD83Dx\"").statements,
        vec![ScriptItem::Assign("s".to_string(), text("\u{FFFD}x"))]
    );
    // a trailing surrogate alone
    assert_eq!(
        parse("let s = \"\\uDE00\"").statements,
        vec![ScriptItem::Assign("s".to_string(), text("\u{FFFD}"))]
    );
    // a leading surrogate followed by a code unit that is no trailing one
    assert_eq!(
        parse("let s = \"\\uD83D\\u0041\"").statements,
        vec![ScriptItem::Assign("s".to_string(), text("\u{FFFD}A"))]
    );
}

#[test]
fn unknown_escape_fails_at_the_escaped_character() {
    assert_eq!(fail("let s = \"a\\qb\"").offset, 11);
    assert_eq!(fail("let s = \"\\u12G4\"").offset, 11);
}

#[test]
fn unterminated_string_fails_at_the_end() {
    let failure = fail("let s = \"abc");
    assert_eq!(failure.offset, 12);
    assert_eq!(failure.message, "unexpected end of input");
}

#[test]
fn strings_keep_text_that_is_not_ascii() {
    assert_eq!(
        parse("let s = \"h\u{e9}llo \u{4e16}\u{754c}\"").statements,
        vec![ScriptItem::Assign("s".to_string(), text("h\u{e9}llo \u{4e16}\u{754c}"))]
    );
}

#[test]
fn bytes_that_are_no_utf8_become_the_replacement_character() {
    let script = script_parser().parse(b"| a\xffb\n").unwrap();
    assert_eq!(
        script.statements,
        vec![ScriptItem::RemoteSingle(" a\u{FFFD}b".to_string())]
    );
}

#[test]
fn array_literals() {
    assert_eq!(
        parse("let a = []").statements,
        vec![ScriptItem::Assign("a".to_string(), Expr::Array(vec![]))]
    );
    assert_eq!(
        parse("let a = [ 1 ,\"two\",\n  true, [3], $x ]").statements,
        vec![ScriptItem::Assign(
            "a".to_string(),
            Expr::Array(vec![
                Expr::Literal(Value::Integer(1)),
                text("two"),
                Expr::Literal(Value::Bool(true)),
                Expr::Array(vec![Expr::Literal(Value::Integer(3))]),
                Expr::Variable("x".to_string()),
            ])
        )]
    );
}

#[test]
fn a_list_takes_no_trailing_comma() {
    assert_eq!(fail("let a = [1, ]").offset, 12);
    assert_eq!(fail("let a = [1 2]").offset, 11);
}

#[test]
fn variable_reference() {
    assert_eq!(
        parse("let a = $other_1").statements,
        vec![ScriptItem::Assign(
            "a".to_string(),
            Expr::Variable("other_1".to_string())
        )]
    );
    assert_eq!(fail("let a = $").offset, 9);
}

#[test]
fn heredoc_content_ends_before_the_first_closing_tag() {
    assert_eq!(
        parse("let h = <<<EOF\nline one\nEOF>>>").statements,
        vec![ScriptItem::Assign(
            "h".to_string(),
            Expr::HereDoc("\nline one\n".to_string())
        )]
    );
    // the first place where the tag stands again followed by `>>>` ends it
    assert_eq!(
        parse("let h = <<<X a X b X>>> \n").statements,
        vec![ScriptItem::Assign(
            "h".to_string(),
            Expr::HereDoc(" a X b ".to_string())
        )]
    );
    // nothing inside is an escape or a nested heredoc
    assert_eq!(
        parse("let h = <<<T\\n<<<U T>>>").statements,
        vec![ScriptItem::Assign(
            "h".to_string(),
            Expr::HereDoc("\\n<<<U ".to_string())
        )]
    );
}

#[test]
fn heredoc_boundaries() {
    // the tag is the longest run of letters: here it is `ABAB`, never closed
    assert_eq!(fail("let h = <<<ABAB>>>").offset, 18);
    // the content may be one byte
    assert_eq!(
        parse("let h = <<<AB AB>>>").statements,
        vec![ScriptItem::Assign("h".to_string(), Expr::HereDoc(" ".to_string()))]
    );
    // the byte after the closing tag is not consumed
    assert_eq!(
        parse("upload(<<<E data E>>>,\"/x\")").statements,
        vec![ScriptItem::FnCall(
            "upload".to_string(),
            vec![Expr::HereDoc(" data ".to_string()), text("/x")]
        )]
    );
    // a tag is made of letters: a digit ends it
    assert_eq!(
        parse("let h = <<<A1 A>>>").statements,
        vec![ScriptItem::Assign("h".to_string(), Expr::HereDoc("1 ".to_string()))]
    );
    assert_eq!(fail("let h = <<<1 1>>>").offset, 11);
    assert_eq!(fail("let h = <<<EOF never closed").offset, 27);
}

#[test]
fn call_statement_and_call_expression() {
    assert_eq!(
        parse("echo()\necho( \"a\" , 2 )\nlet r = exec(\"ls\")\n").statements,
        vec![
            ScriptItem::FnCall("echo".to_string(), vec![]),
            ScriptItem::FnCall(
                "echo".to_string(),
                vec![text("a"), Expr::Literal(Value::Integer(2))]
            ),
            ScriptItem::Assign(
                "r".to_string(),
                Expr::FnCall("exec".to_string(), vec![text("ls")])
            ),
        ]
    );
}

#[test]
fn remote_single_keeps_the_rest_of_the_line() {
    assert_eq!(
        parse("  \t| echo \"hi\" | wc \n|\n").statements,
        vec![
            ScriptItem::RemoteSingle(" echo \"hi\" | wc ".to_string()),
            ScriptItem::RemoteSingle("".to_string()),
        ]
    );
}

#[test]
fn remote_block() {
    assert_eq!(
        parse("+ begin\n| one\n  | two\n+ end\n").statements,
        vec![ScriptItem::RemoteBlock(vec![
            " one".to_string(),
            " two".to_string()
        ])]
    );
    assert_eq!(
        parse("+\n+").statements,
        vec![ScriptItem::RemoteBlock(vec![])]
    );
    assert_eq!(fail("+ begin\n| one\nlet x = 1\n+\n").offset, 14);
    assert_eq!(fail("+ begin").offset, 7);
}

#[test]
fn for_loop_with_nested_statements() {
    let script = parse(
        "for user in $users {\n# inside\n| id {{ user }}\nfor n in [1, 2] {\necho($n)\n  }\n}\n",
    );
    assert_eq!(
        script.statements,
        vec![ScriptItem::ForLoop(
            "user".to_string(),
            Expr::Variable("users".to_string()),
            vec![
                ScriptItem::Comment,
                ScriptItem::RemoteSingle(" id {{ user }}".to_string()),
                ScriptItem::ForLoop(
                    "n".to_string(),
                    Expr::Array(vec![
                        Expr::Literal(Value::Integer(1)),
                        Expr::Literal(Value::Integer(2)),
                    ]),
                    vec![ScriptItem::FnCall(
                        "echo".to_string(),
                        vec![Expr::Variable("n".to_string())]
                    )]
                ),
            ]
        )]
    );
}

#[test]
fn for_loop_with_an_empty_body() {
    assert_eq!(
        parse("for x in 5 {\n}").statements,
        vec![ScriptItem::ForLoop(
            "x".to_string(),
            Expr::Literal(Value::Integer(5)),
            vec![]
        )]
    );
}

#[test]
fn for_loop_without_its_closing_brace_fails_at_the_end() {
    let failure = fail("for x in [1] {\n| ls\n");
    assert_eq!(failure.offset, 20);
    assert_eq!(failure.line, 3);
    assert_eq!(failure.column, 1);
}

#[test]
fn the_first_rule_that_matches_wins() {
    // `let` followed by a blank is an assignment, `let(` is a call
    assert_eq!(
        parse("let(1)").statements,
        vec![ScriptItem::FnCall(
            "let".to_string(),
            vec![Expr::Literal(Value::Integer(1))]
        )]
    );
    // `true` is a boolean before it can be the name of a call
    assert_eq!(fail("let a = trueish(1)").offset, 12);
}

#[test]
fn failure_carries_line_column_snippet_and_pointer() {
    let failure = fail("let a = 1\nlet b = 2\nlet c = ?\nlet d = 4\n");
    assert_eq!(failure.offset, 28);
    assert_eq!(failure.line, 3);
    assert_eq!(failure.column, 9);
    assert_eq!(failure.source_line, "let c = ?");
    assert_eq!(failure.pointer, "        ^");
    assert_eq!(failure.message, "unexpected character ?");
}

#[test]
fn failure_on_the_first_line() {
    let failure = fail("?");
    assert_eq!(failure.offset, 0);
    assert_eq!(failure.line, 1);
    assert_eq!(failure.column, 1);
    assert_eq!(failure.source_line, "?");
    assert_eq!(failure.pointer, "^");
}

#[test]
fn failure_on_a_byte_that_is_not_printable() {
    let failure = script_parser().parse(b"let a = \x01").unwrap_err();
    assert_eq!(failure.offset, 8);
    assert_eq!(failure.message, "unexpected byte");
}

#[test]
fn the_failure_is_the_one_that_got_furthest() {
    // the assignment gets as far as the sign
    let failure = fail("let name 5");
    assert_eq!(failure.offset, 9);
    // the call gets as far as the second argument
    let failure = fail("echo(1, )");
    assert_eq!(failure.offset, 8);
}

#[test]
fn parsing_is_deterministic() {
    let text = "let users = [\"alice\", \"bob\"]\nfor user in $users {\n|echo {{ user }}\n}\n";
    assert_eq!(parse(text), parse(text));
    let broken = "let users = [\"alice\", \nfor";
    assert_eq!(fail(broken), fail(broken));
}

#[test]
fn text_after_a_statement_on_its_line_is_a_failure() {
    assert_eq!(fail("let x = 1 2").offset, 10);
    assert_eq!(fail("echo(1) echo(2)").offset, 8);
}

#[test]
fn expressions_as_text() {
    assert_eq!(text("plain").to_string(), "plain");
    assert_eq!(Expr::Literal(Value::Integer(-7)).to_string(), "-7");
    assert_eq!(Expr::Literal(Value::Bool(true)).to_string(), "true");
    assert_eq!(Expr::Variable("name".to_string()).to_string(), "$name");
    assert_eq!(Expr::HereDoc("\nraw {{ x }}\n".to_string()).to_string(), "\nraw {{ x }}\n");
    assert_eq!(Expr::Array(vec![]).to_string(), "[]");
    assert_eq!(
        Expr::Array(vec![
            Expr::Literal(Value::Integer(1)),
            Expr::Variable("x".to_string()),
            Expr::Array(vec![text("a")]),
        ])
        .to_string(),
        "[1, $x, [a]]"
    );
    assert_eq!(Expr::FnCall("echo".to_string(), vec![]).to_string(), "echo()");
    assert_eq!(
        Expr::FnCall(
            "upload".to_string(),
            vec![text("a"), Expr::Variable("to".to_string())]
        )
        .to_string(),
        "upload(a, $to)"
    );
}

#[test]
fn a_loop_on_one_line_has_no_statements() {
    let expected = vec![ScriptItem::ForLoop(
        "x".to_string(),
        Expr::Literal(Value::Integer(5)),
        vec![],
    )];
    assert_eq!(parse("for x in 5 { }").statements, expected);
    assert_eq!(parse("for x in 5 {}").statements, expected);
    assert_eq!(parse("for x in 5 {\t} \n").statements, expected);
    assert_eq!(
        parse("for a in [1] { }\nfor b in $a {\n| ls\n}\n").statements,
        vec![
            ScriptItem::ForLoop(
                "a".to_string(),
                Expr::Array(vec![Expr::Literal(Value::Integer(1))]),
                vec![]
            ),
            ScriptItem::ForLoop(
                "b".to_string(),
                Expr::Variable("a".to_string()),
                vec![ScriptItem::RemoteSingle(" ls".to_string())]
            ),
        ]
    );
}

#[test]
fn a_loop_on_one_line_takes_nothing_between_its_braces() {
    assert_eq!(fail("for x in 5 { } y").offset, 15);
    assert_eq!(fail("for x in 5 { | ls }").offset, 13);
    assert_eq!(fail("for x in 5 { let a = 1 }").offset, 13);
}
