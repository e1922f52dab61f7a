use red_eval::host::{
    command_request, env_name, env_request, file_q, file_request, get_env_request, load_request,
    rename_request, save_request, set_env_request, url_q, wait_request, HostError, LoadFrom, WaitFor,
};
use red_eval::value::{FloatText, Kind, Value};

fn file(p: &str) -> Value {
    Value::File(p.to_string())
}

fn s(t: &str) -> Value {
    Value::Str(t.to_string())
}

#[test]
fn file_request_takes_the_path() {
    assert_eq!(file_request(&[file("sub/nested")]), Ok("sub/nested".to_string()));
}

#[test]
fn file_request_refuses_a_string() {
    let e = file_request(&[s("x")]).unwrap_err();
    assert_eq!(e, HostError::NotFile(Kind::Str));
    assert!(e.message().contains("expected file!"));
}

#[test]
fn file_request_counts_arguments() {
    assert_eq!(file_request(&[]), Err(HostError::Arity { expected: 1, got: 0 }));
}

#[test]
fn rename_takes_both_paths() {
    assert_eq!(
        rename_request(&[file("a.txt"), file("b.txt")]),
        Ok(("a.txt".to_string(), "b.txt".to_string()))
    );
    assert_eq!(rename_request(&[file("a.txt"), s("b")]), Err(HostError::NotFile(Kind::Str)));
}

#[test]
fn save_molds_the_value() {
    let v = Value::Block(vec![Value::Integer(1), Value::Integer(2), Value::Integer(3)]);
    assert_eq!(save_request(&[file("saved.red"), v]), Ok(("saved.red".to_string(), "[1 2 3]".to_string())));
    assert_eq!(save_request(&[file("s.red"), s("hi")]), Ok(("s.red".to_string(), "\"hi\"".to_string())));
}

#[test]
fn env_name_from_string_or_word() {
    assert_eq!(env_name(&s("HOME")), Ok("HOME".to_string()));
    assert_eq!(env_name(&Value::Word("PATH".to_string())), Ok("PATH".to_string()));
    assert_eq!(env_name(&Value::LitWord("USER".to_string())), Ok("USER".to_string()));
    assert_eq!(env_name(&Value::Integer(1)), Err(HostError::NotEnvName(Kind::Integer)));
}

#[test]
fn get_env_request_names_the_variable() {
    assert_eq!(get_env_request(&[s("REBOL_CLONE_TEST_VAR")]), Ok("REBOL_CLONE_TEST_VAR".to_string()));
    assert_eq!(get_env_request(&[]), Err(HostError::Arity { expected: 1, got: 0 }));
}

#[test]
fn set_env_forms_its_value() {
    assert_eq!(
        set_env_request(&[s("V"), s("hello")]),
        Ok(("V".to_string(), "hello".to_string()))
    );
    assert_eq!(set_env_request(&[s("V"), Value::NoneVal]), Ok(("V".to_string(), String::new())));
    assert_eq!(set_env_request(&[s("V"), Value::Integer(42)]), Ok(("V".to_string(), "42".to_string())));
    assert_eq!(
        set_env_request(&[s("V"), Value::Block(vec![Value::Integer(1), s("a")])]),
        Ok(("V".to_string(), "1 a".to_string()))
    );
}

#[test]
fn env_takes_no_arguments() {
    assert_eq!(env_request(&[]), Ok(()));
    assert_eq!(env_request(&[s("x")]), Err(HostError::Arity { expected: 0, got: 1 }));
}

#[test]
fn wait_zero_returns_none() {
    assert_eq!(wait_request(&[Value::Integer(0)]), Ok(WaitFor::Nothing));
}

#[test]
fn wait_negative_and_positive_seconds() {
    assert_eq!(wait_request(&[Value::Integer(-3)]), Ok(WaitFor::Nothing));
    assert_eq!(wait_request(&[Value::Integer(2)]), Ok(WaitFor::Seconds(2)));
    let f = FloatText { text: "0.5".to_string(), finite: true };
    assert_eq!(
        wait_request(&[Value::Float(f.clone())]),
        Ok(WaitFor::FloatSeconds(f))
    );
    assert_eq!(wait_request(&[s("1")]), Err(HostError::NotSeconds(Kind::Str)));
}

#[test]
fn call_disabled_raises() {
    let err = command_request(&[s("echo hi")], false, false).unwrap_err();
    assert!(err.message().contains("shell disabled"), "got: {}", err.message());
    assert!(err.message().starts_with("call:"));
}

#[test]
fn shell_disabled_raises() {
    let err = command_request(&[s("echo hi")], false, true).unwrap_err();
    assert!(err.message().contains("shell disabled"), "got: {}", err.message());
    assert!(err.message().starts_with("shell:"));
}

#[test]
fn shell_refuses_before_counting_arguments() {
    assert_eq!(command_request(&[], false, true), Err(HostError::ShellDisabled(true)));
    assert_eq!(
        command_request(&[], false, false),
        Err(HostError::Arity { expected: 1, got: 0 })
    );
}

#[test]
fn call_splits_the_command_at_whitespace() {
    assert_eq!(
        command_request(&[s("  echo \t hi\u{3000}there\n")], true, false),
        Ok(vec!["echo".to_string(), "hi".to_string(), "there".to_string()])
    );
    assert_eq!(command_request(&[s("true")], true, true), Ok(vec!["true".to_string()]));
}

#[test]
fn call_of_blank_command_is_empty() {
    let e = command_request(&[s(" \n ")], true, false).unwrap_err();
    assert_eq!(e, HostError::EmptyCommand);
    assert_eq!(e.message(), "call: empty command");
    assert_eq!(command_request(&[Value::Integer(1)], true, false), Err(HostError::NotCommand(Kind::Integer)));
}

#[test]
fn file_and_url_predicates() {
    assert_eq!(file_q(&[file("a")]), Ok(Value::Logic(true)));
    assert_eq!(file_q(&[Value::Url("http://x".to_string())]), Ok(Value::Logic(false)));
    assert_eq!(url_q(&[Value::Url("http://x".to_string())]), Ok(Value::Logic(true)));
    assert_eq!(url_q(&[s("http://x")]), Ok(Value::Logic(false)));
    assert_eq!(url_q(&[]), Err(HostError::Arity { expected: 1, got: 0 }));
}

#[test]
fn load_reads_a_string_or_a_file() {
    assert_eq!(load_request(&[s("1 2")]), Ok(LoadFrom::Text("1 2".to_string())));
    assert_eq!(load_request(&[file("saved.red")]), Ok(LoadFrom::File("saved.red".to_string())));
    let e = load_request(&[Value::Integer(1)]).unwrap_err();
    assert_eq!(e.message(), "expected string! or file!, found integer!");
    assert_eq!(load_request(&[]), Err(HostError::Arity { expected: 1, got: 0 }));
}

#[test]
fn command_splits_at_exactly_unicode_whitespace() {
    for cp in 0u32..0x3100 {
        if let Some(c) = char::from_u32(cp) {
            let text = format!("a{c}b");
            let expected: Vec<String> = text.split_whitespace().map(|w| w.to_string()).collect();
            assert_eq!(command_request(&[s(&text)], true, false), Ok(expected), "at U+{cp:04X}");
        }
    }
}
