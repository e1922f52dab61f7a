use red_eval::io::{read_request, read_text_value, write_request, IoError, ReadRequest, Source, Target};
use red_eval::native::RefineArgs;
use red_eval::value::{Kind, Opaque, Value};

fn refs(names: &[&str]) -> RefineArgs {
    RefineArgs { refs: names.iter().map(|n| (n.to_string(), vec![])).collect() }
}

fn file(p: &str) -> Value {
    Value::File(p.to_string())
}

fn lines(v: &Value) -> Vec<String> {
    match v {
        Value::Block(items) => items
            .iter()
            .map(|i| match i {
                Value::Str(s) => s.clone(),
                other => panic!("expected string!, got {other:?}"),
            })
            .collect(),
        other => panic!("expected block!, got {other:?}"),
    }
}

#[test]
fn read_lines_returns_block() {
    let v = read_text_value("alpha\nbeta\ngamma\n".to_string(), true);
    assert_eq!(lines(&v), vec!["alpha", "beta", "gamma"]);
}

#[test]
fn read_lines_follow_str_lines() {
    for text in ["", "\n", "a", "a\r\nb", "a\rb\r", "x\n\ny", "\r\n\r\n", "one\r"] {
        let expected: Vec<String> = text.lines().map(|l| l.to_string()).collect();
        assert_eq!(lines(&read_text_value(text.to_string(), true)), expected, "text {text:?}");
    }
}

#[test]
fn read_without_lines_is_the_text() {
    assert_eq!(read_text_value("a\nb".to_string(), false), Value::Str("a\nb".to_string()));
}

#[test]
fn read_request_shapes() {
    assert_eq!(
        read_request(&[file("notes.txt")], &refs(&["binary"]), true),
        Ok(ReadRequest { source: Source::File("notes.txt".to_string()), binary: true, lines: false })
    );
    assert_eq!(
        read_request(&[Value::Url("http://x".to_string())], &refs(&[]), true),
        Ok(ReadRequest { source: Source::Url("http://x".to_string()), binary: false, lines: false })
    );
    assert_eq!(
        read_request(&[Value::Other(Opaque::Port)], &refs(&["lines"]), true).map(|r| r.source),
        Ok(Source::Port)
    );
}

#[test]
fn read_binary_and_binary_lines_mutually_exclusive() {
    assert_eq!(read_request(&[file("a")], &refs(&["binary", "lines"]), true), Err(IoError::BinaryAndLines));
}

#[test]
fn read_request_errors() {
    assert_eq!(read_request(&[], &refs(&[]), true), Err(IoError::Arity { wanted: 1, got: 0 }));
    assert_eq!(read_request(&[Value::Integer(1)], &refs(&[]), true), Err(IoError::NotReadable(Kind::Integer)));
}

#[test]
fn write_lines_joins_with_newlines() {
    let content = Value::Block(vec![Value::Str("a".to_string()), Value::Integer(2), Value::Str("c".to_string())]);
    let w = write_request(&[file("out.txt"), content], &refs(&["lines"])).unwrap();
    assert_eq!(w.target, Target::File("out.txt".to_string()));
    assert_eq!(w.bytes, b"a\n2\nc".to_vec());
    assert!(!w.append);
}

#[test]
fn write_forms_non_strings() {
    let content = Value::Block(vec![Value::Integer(1), Value::Word("x".to_string())]);
    let w = write_request(&[file("out.txt"), content], &refs(&["append"])).unwrap();
    assert_eq!(w.bytes, b"1 x".to_vec());
    assert!(w.append);
}

#[test]
fn write_binary_from_string_writes_utf8_bytes() {
    let w = write_request(&[file("b.bin"), Value::Str("hé".to_string())], &refs(&["binary"])).unwrap();
    assert_eq!(w.bytes, "hé".as_bytes().to_vec());
}

#[test]
fn write_binary_with_non_binary_value_errors() {
    assert_eq!(
        write_request(&[file("b.bin"), Value::Integer(3)], &refs(&["binary"])),
        Err(IoError::NotBytes(Kind::Integer))
    );
}

#[test]
fn write_request_errors() {
    assert_eq!(
        write_request(&[Value::Integer(1), Value::Str("x".to_string())], &refs(&[])),
        Err(IoError::NotFile(Kind::Integer))
    );
    assert_eq!(
        write_request(&[file("a"), Value::Integer(3)], &refs(&["lines"])),
        Err(IoError::NotBlock(Kind::Integer))
    );
    let money = Value::Money { cents: 1, currency: "USD".to_string() };
    assert_eq!(write_request(&[file("a"), money], &refs(&[])), Err(IoError::Unformable));
}

#[test]
fn write_to_port_never_appends() {
    let w = write_request(&[Value::Other(Opaque::Port), Value::Str("hi".to_string())], &refs(&["append"])).unwrap();
    assert_eq!(w.target, Target::Port);
    assert!(!w.append);
}

#[test]
fn read_url_wrong_scheme_errors() {
    let url = Value::Url("file://localhost/x".to_string());
    assert_eq!(read_request(&[url], &refs(&[]), false), Err(IoError::NetworkDisabled));
}

#[test]
fn read_url_needs_network_allowed() {
    let url = Value::Url("http://example.com/".to_string());
    assert_eq!(read_request(&[url], &refs(&["binary"]), false), Err(IoError::NetworkDisabled));
    assert_eq!(read_request(&[file("a")], &refs(&[]), false).map(|r| r.source), Ok(Source::File("a".to_string())));
}

#[test]
fn write_append_appends() {
    let first = write_request(&[file("app.txt"), Value::Str("a".to_string())], &refs(&[])).unwrap();
    assert_eq!(first.bytes, b"a".to_vec());
    assert!(!first.append);
    let second = write_request(&[file("app.txt"), Value::Str("b".to_string())], &refs(&["append"])).unwrap();
    assert_eq!(second.target, Target::File("app.txt".to_string()));
    assert_eq!(second.bytes, b"b".to_vec());
    assert!(second.append);
}
