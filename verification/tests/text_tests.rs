use seeed::error::SeeedError;
use seeed::parser::failure::describe;
use seeed::parser::lexical::{begins, peek, scan, search, ByteClass};
use seeed::parser::{Script, ScriptItem};
use seeed::template::{expand, find_placeholder};
use seeed::text::{decimal_string, join_lines, same_text};

#[test]
fn decimal_strings() {
    assert_eq!(decimal_string(0), "0");
    assert_eq!(decimal_string(9), "9");
    assert_eq!(decimal_string(10), "10");
    assert_eq!(decimal_string(-10), "-10");
    assert_eq!(decimal_string(1002003), "1002003");
    assert_eq!(decimal_string(i64::MAX), i64::MAX.to_string());
    assert_eq!(decimal_string(i64::MIN), i64::MIN.to_string());
}

#[test]
fn joined_lines() {
    assert_eq!(join_lines(&vec![]), "");
    assert_eq!(join_lines(&vec!["one".to_string()]), "one");
    assert_eq!(
        join_lines(&vec!["one".to_string(), "".to_string(), "three".to_string()]),
        "one\n\nthree"
    );
}

#[test]
fn equal_texts() {
    assert!(same_text("", ""));
    assert!(same_text("echo", "echo"));
    assert!(!same_text("echo", "Echo"));
    assert!(!same_text("echo", "echo "));
}

#[test]
fn byte_classes() {
    assert!(ByteClass::Blank.test(b' ') && ByteClass::Blank.test(b'\t'));
    assert!(!ByteClass::Blank.test(b'\n'));
    assert!(ByteClass::Space.test(b'\n') && ByteClass::Space.test(b'\r'));
    assert!(ByteClass::Letter.test(b'a') && ByteClass::Letter.test(b'Z'));
    assert!(!ByteClass::Letter.test(b'_') && !ByteClass::Letter.test(b'0'));
    assert!(ByteClass::Digit.test(b'0') && ByteClass::Digit.test(b'9'));
    assert!(!ByteClass::Digit.test(b'a'));
    assert!(ByteClass::Word.test(b'_') && ByteClass::Word.test(b'7') && ByteClass::Word.test(b'q'));
    assert!(!ByteClass::Word.test(b'-'));
    assert!(ByteClass::Inline.test(b' ') && !ByteClass::Inline.test(b'\n'));
    assert!(ByteClass::Plain.test(b'a') && !ByteClass::Plain.test(b'"'));
    assert!(!ByteClass::Plain.test(b'\\'));
}

#[test]
fn scanning() {
    assert_eq!(scan(b"   abc", 0, ByteClass::Blank), 3);
    assert_eq!(scan(b"   abc", 3, ByteClass::Blank), 3);
    assert_eq!(scan(b"abc", 0, ByteClass::Letter), 3);
    assert_eq!(scan(b"abc", 3, ByteClass::Letter), 3);
    assert!(peek(b"abc", 1, b'b'));
    assert!(!peek(b"abc", 3, b'c'));
    assert!(begins(b"let x", 0, b"let"));
    assert!(!begins(b"le", 0, b"let"));
    assert!(begins(b"abc", 3, b""));
    assert_eq!(search(b"a EOF>>> EOF>>>", 0, b"EOF>>>"), Some(2));
    assert_eq!(search(b"a EOF>>> EOF>>>", 3, b"EOF>>>"), Some(9));
    assert_eq!(search(b"a EOF>>", 0, b"EOF>>>"), None);
    assert_eq!(search(b"abc", 0, b""), None);
}

#[test]
fn describing_a_place() {
    let text = b"first\nsecond line\nthird";
    let failure = describe(text, 13);
    assert_eq!(failure.offset, 13);
    assert_eq!(failure.line, 2);
    assert_eq!(failure.column, 8);
    assert_eq!(failure.source_line, "second line");
    assert_eq!(failure.pointer, "       ^");
    assert_eq!(failure.message, "unexpected character l");

    // the newline itself belongs to the line that it ends
    let failure = describe(text, 5);
    assert_eq!((failure.line, failure.column), (1, 6));
    assert_eq!(failure.source_line, "first");
    assert_eq!(failure.message, "unexpected byte");

    // the end of the text
    let failure = describe(text, text.len());
    assert_eq!((failure.line, failure.column), (3, 6));
    assert_eq!(failure.source_line, "third");
    assert_eq!(failure.pointer, "     ^");
    assert_eq!(failure.message, "unexpected end of input");
}

#[test]
fn placeholders_are_found() {
    assert!(find_placeholder("{{"));
    assert!(find_placeholder("a {{ b }}"));
    assert!(find_placeholder("{{{"));
    assert!(!find_placeholder(""));
    assert!(!find_placeholder("{"));
    assert!(!find_placeholder("{ {"));
    assert!(!find_placeholder("}}{"));
    assert!(!find_placeholder("{\u{e9}{"));
}

#[test]
fn expansion_maps_each_name_to_the_text_at_the_same_index() {
    let names = vec!["a".to_string(), "b".to_string()];
    let texts = vec!["1".to_string(), "2".to_string()];
    assert_eq!(expand("{{ b }}{{ a }}", &names, &texts).unwrap(), "21");
    assert_eq!(expand("no placeholder", &names, &texts).unwrap(), "no placeholder");
    assert!(expand("{{ c }}", &names, &texts).is_err());
    assert_eq!(expand("{{ a }}\n", &names, &texts).unwrap(), "1\n");
}

#[test]
fn messages_of_errors() {
    let failure = describe(b"let a = 1\nlet b = ?\n", 18);
    assert_eq!(
        SeeedError::Parse(failure).to_string(),
        "parse error at line 2, column 9: unexpected character ?"
    );
    assert_eq!(
        SeeedError::IoError("x".to_string()).to_string(),
        "IO error while reading file"
    );
    assert_eq!(SeeedError::SshError("x".to_string()).to_string(), "SSH error");
    assert_eq!(
        SeeedError::LocalProcess("x".to_string()).to_string(),
        "local command failed"
    );
    assert_eq!(SeeedError::BadTarget.to_string(), "Incorrect target specified");
    assert_eq!(
        SeeedError::UnknownFunction().to_string(),
        "unknown function invocation"
    );
    assert_eq!(
        SeeedError::WrongArgCount(2, 13).to_string(),
        "wrong number of arguments, expected 2, got 13"
    );
    assert_eq!(
        SeeedError::BadArgType("x".to_string()).to_string(),
        "bad argument to function call"
    );
    assert_eq!(
        SeeedError::UndefinedVar("missing".to_string()).to_string(),
        "undefined variable missing"
    );
    assert_eq!(
        SeeedError::NotIterable.to_string(),
        "loop over a value that is no array"
    );
    match expand("{{ nobody }}", &vec![], &vec![]) {
        Err(error) => assert_eq!(SeeedError::Template(error).to_string(), "template error"),
        Ok(text) => panic!("expected an error, got {:?}", text),
    }
}

#[test]
fn a_script_of_statements() {
    let script = Script::from(vec![ScriptItem::Comment, ScriptItem::EmptyLine]);
    assert_eq!(script.statements, vec![ScriptItem::Comment, ScriptItem::EmptyLine]);
}
