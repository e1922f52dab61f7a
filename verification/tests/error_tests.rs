use red_eval::convert::{error_field_native, make_error, to_error, ConvertError, ErrorField, Expected, Target};
use red_eval::value::{clone_value, ErrorValue, Kind, Value};

fn message_only(m: &str) -> Value {
    Value::Error(ErrorValue { kind: None, code: None, message: m.to_string(), args: vec![], near: None })
}

fn field(e: Value, f: ErrorField) -> Result<Value, ConvertError> {
    error_field_native(&[e], f)
}

#[test]
fn error_type_returns_litword_when_present() {
    let e = Value::Error(ErrorValue {
        kind: Some("math".to_string()),
        code: None,
        message: "boom".to_string(),
        args: vec![],
        near: None,
    });
    assert_eq!(field(e, ErrorField::Type), Ok(Value::LitWord("math".to_string())));
}

#[test]
fn error_type_returns_none_when_absent() {
    assert_eq!(field(message_only("msg"), ErrorField::Type), Ok(Value::NoneVal));
}

#[test]
fn error_type_wrong_arg_type_errors() {
    let err = field(Value::Integer(42), ErrorField::Type).unwrap_err();
    assert!(err.message().contains("error!"), "got: {}", err.message());
}

#[test]
fn error_code_returns_integer_when_present() {
    let e = Value::Error(ErrorValue { kind: None, code: Some(42), message: "x".to_string(), args: vec![], near: None });
    assert_eq!(field(e, ErrorField::Code), Ok(Value::Integer(42)));
}

#[test]
fn error_code_returns_none_when_absent() {
    assert_eq!(field(message_only("msg"), ErrorField::Code), Ok(Value::NoneVal));
}

#[test]
fn error_code_wrong_arg_type_errors() {
    let err = field(Value::Integer(42), ErrorField::Code).unwrap_err();
    assert!(err.message().contains("error!"), "got: {}", err.message());
}

#[test]
fn error_args_returns_block_when_present() {
    let e = Value::Error(ErrorValue {
        kind: None,
        code: None,
        message: "x".to_string(),
        args: vec![Value::Integer(1), Value::Integer(2), Value::Integer(3)],
        near: None,
    });
    match field(e, ErrorField::Args) {
        Ok(Value::Block(items)) => assert_eq!(items.len(), 3),
        other => panic!("expected block!, got {:?}", other),
    }
}

#[test]
fn error_args_returns_empty_block_when_absent() {
    assert_eq!(field(message_only("msg"), ErrorField::Args), Ok(Value::Block(vec![])));
}

#[test]
fn error_args_wrong_arg_type_errors() {
    let err = field(Value::Integer(42), ErrorField::Args).unwrap_err();
    assert!(err.message().contains("error!"), "got: {}", err.message());
}

#[test]
fn error_near_returns_value_when_present() {
    let near = Value::Block(vec![Value::Integer(1), Value::Integer(2)]);
    let e = Value::Error(ErrorValue {
        kind: None,
        code: None,
        message: "x".to_string(),
        args: vec![],
        near: Some(Box::new(clone_value(&near))),
    });
    assert_eq!(field(e, ErrorField::Near), Ok(near));
}

#[test]
fn error_near_returns_none_when_absent() {
    assert_eq!(field(message_only("msg"), ErrorField::Near), Ok(Value::NoneVal));
}

#[test]
fn error_near_wrong_arg_type_errors() {
    let err = field(Value::Integer(42), ErrorField::Near).unwrap_err();
    assert!(err.message().contains("error!"), "got: {}", err.message());
}

#[test]
fn error_fields_count_arguments() {
    assert_eq!(error_field_native(&[], ErrorField::Type), Err(ConvertError::Arity { expected: 1, got: 0 }));
}

#[test]
fn make_error_from_string_is_message_only() {
    assert_eq!(make_error(&Value::Str("boom".to_string())), Ok(message_only("boom")));
    assert_eq!(to_error(&[Value::Str("boom".to_string())]), Ok(message_only("boom")));
}

#[test]
fn make_error_of_an_error_is_the_error() {
    let e = Value::Error(ErrorValue {
        kind: Some("user".to_string()),
        code: Some(7),
        message: "m".to_string(),
        args: vec![Value::Integer(1)],
        near: None,
    });
    assert_eq!(make_error(&e), Ok(clone_value(&e)));
}

#[test]
fn make_error_from_block_is_built_elsewhere() {
    assert_eq!(make_error(&Value::Block(vec![])), Err(ConvertError::Elsewhere(Target::Error)));
    assert_eq!(
        make_error(&Value::Integer(1)),
        Err(ConvertError::Type { expected: Expected::MakeError, found: Kind::Integer })
    );
}
