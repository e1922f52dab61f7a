use red_eval::json::{to_json_native, JsonError};
use red_eval::json_decode::load_json_native;
use red_eval::native::RefineArgs;
use red_eval::printer::{mold_value, print_text};
use red_eval::value::{FloatText, MapKey, Opaque, Value};

fn s(t: &str) -> Value {
    Value::Str(t.to_string())
}

fn no_refs() -> RefineArgs {
    RefineArgs::empty()
}

fn refs(name: &str) -> RefineArgs {
    RefineArgs { refs: vec![(name.to_string(), vec![])] }
}

/// `to-json v`, as text.
fn to_json(v: Value) -> String {
    match to_json_native(&[v], &no_refs()) {
        Ok(Value::Str(t)) => t,
        other => panic!("expected string!, got {other:?}"),
    }
}

/// What `print to-json v` writes.
fn print_to_json(v: Value, r: &RefineArgs) -> String {
    let j = to_json_native(&[v], r).unwrap();
    print_text(&j).unwrap()
}

fn load(text: &str) -> Value {
    load_json_native(&[s(text)], &no_refs()).unwrap()
}

fn mold(v: &Value) -> String {
    mold_value(v).unwrap()
}

fn map_get<'a>(v: &'a Value, key: &str) -> &'a Value {
    match v {
        Value::MapVal(entries) => {
            &entries.iter().find(|(k, _)| *k == MapKey::Str(key.to_string())).unwrap().1
        }
        other => panic!("expected map!, got {other:?}"),
    }
}

fn float(t: &str) -> Value {
    Value::Float(FloatText { text: t.to_string(), finite: true })
}

fn word(w: &str) -> Value {
    Value::Word(w.to_string())
}

fn set_word(w: &str) -> Value {
    Value::SetWord(w.to_string())
}

// --- to-json ---

#[test]
fn to_json_scalars() {
    assert_eq!(print_to_json(Value::Integer(42), &no_refs()).trim_end(), "42");
    assert_eq!(print_to_json(Value::Logic(true), &no_refs()).trim_end(), "true");
    assert_eq!(print_to_json(Value::Logic(false), &no_refs()).trim_end(), "false");
    assert_eq!(print_to_json(Value::NoneVal, &no_refs()).trim_end(), "null");
    assert_eq!(print_to_json(float("3.14"), &no_refs()).trim_end(), "3.14");
}

#[test]
fn to_json_string_escapes() {
    assert_eq!(to_json(s("He said \"hi\"")), "\"He said \\\"hi\\\"\"");
}

#[test]
fn to_json_string_newline() {
    assert_eq!(to_json(s("line1\nline2")), "\"line1\\nline2\"");
}

#[test]
fn to_json_array_compact() {
    let v = Value::Block(vec![Value::Integer(1), Value::Integer(2), Value::Integer(3)]);
    assert_eq!(print_to_json(v, &no_refs()).trim_end(), "[1,2,3]");
}

#[test]
fn to_json_array_pretty() {
    let v = Value::Block(vec![Value::Integer(1), Value::Integer(2), Value::Integer(3)]);
    let result = print_to_json(v, &refs("pretty"));
    assert!(result.contains("[\n"), "pretty array should have newline: {result}");
    assert!(result.contains("  1"), "pretty array should indent: {result}");
}

#[test]
fn to_json_empty_array() {
    assert_eq!(print_to_json(Value::Block(vec![]), &no_refs()).trim_end(), "[]");
}

#[test]
fn to_json_map() {
    // make map! [name "Ada" age 36]
    let m = Value::MapVal(vec![
        (MapKey::Sym("name".to_string()), s("Ada")),
        (MapKey::Sym("age".to_string()), Value::Integer(36)),
    ]);
    let result = print_to_json(m, &no_refs());
    assert!(
        result.contains("\"name\":\"Ada\"") || result.contains("\"name\": \"Ada\""),
        "map should have name field: {result}"
    );
    assert!(
        result.contains("\"age\":36") || result.contains("\"age\": 36"),
        "map should have age field: {result}"
    );
}

#[test]
fn to_json_empty_map() {
    assert_eq!(print_to_json(Value::MapVal(vec![]), &no_refs()).trim_end(), "{}");
}

#[test]
fn to_json_object() {
    // make object! [x: 1 y: 2]
    let o = Value::Object(vec![
        ("x".to_string(), Value::Integer(1)),
        ("y".to_string(), Value::Integer(2)),
    ]);
    let result = print_to_json(o, &no_refs());
    assert!(
        result.contains("\"x\":1") || result.contains("\"x\": 1"),
        "object should have x field: {result}"
    );
    assert!(
        result.contains("\"y\":2") || result.contains("\"y\": 2"),
        "object should have y field: {result}"
    );
}

#[test]
fn to_json_nested() {
    // make object! [user: make object! [name: "Bob"] age: 30]
    let user = Value::Object(vec![("name".to_string(), s("Bob"))]);
    let o = Value::Object(vec![
        ("user".to_string(), user),
        ("age".to_string(), Value::Integer(30)),
    ]);
    let result = print_to_json(o, &no_refs());
    assert!(result.contains("\"user\":"), "nested object: {result}");
    assert!(result.contains("\"name\":\"Bob\""), "nested field: {result}");
}

#[test]
fn to_json_tuple() {
    assert_eq!(print_to_json(Value::Tuple(vec![255, 0, 0]), &no_refs()).trim_end(), "[255,0,0]");
}

#[test]
fn to_json_pair() {
    let p = Value::Pair(Box::new(Value::Integer(100)), Box::new(Value::Integer(200)));
    assert_eq!(print_to_json(p, &no_refs()).trim_end(), "[100,200]");
}

#[test]
fn to_json_unencodable_func() {
    let result = to_json_native(&[Value::Other(Opaque::Function)], &no_refs());
    assert!(result.is_err(), "func should not be encodable");
    assert!(result.unwrap_err().message().contains("cannot encode"));
}

#[test]
fn to_json_word_as_string() {
    // 'foo evaluates to the word foo.
    assert_eq!(print_to_json(word("foo"), &no_refs()).trim_end(), "\"foo\"");
}

// --- load-json ---

#[test]
fn load_json_scalar_int() {
    assert_eq!(mold(&load("42")), "42");
}

#[test]
fn load_json_scalar_bool() {
    assert_eq!(mold(&load("true")), "true");
}

#[test]
fn load_json_null() {
    assert_eq!(mold(&load("null")), "none");
}

#[test]
fn load_json_string_escape() {
    match load("\"hi\\n\"") {
        Value::Str(t) => assert_eq!(t, "hi\n"),
        other => panic!("expected string!, got {other:?}"),
    }
}

#[test]
fn load_json_unicode_escape() {
    match load("\"\\u0041\"") {
        Value::Str(t) => assert_eq!(t, "A"),
        other => panic!("expected string!, got {other:?}"),
    }
}

#[test]
fn load_json_array() {
    assert_eq!(mold(&load("[1,2,3]")), "[1 2 3]");
}

#[test]
fn load_json_empty_array() {
    assert_eq!(mold(&load("[]")), "[]");
}

#[test]
fn load_json_object() {
    let v = load("{\"name\":\"Ada\",\"age\":36}");
    match &v {
        Value::MapVal(entries) => assert_eq!(entries.len(), 2),
        other => panic!("expected map!, got {other:?}"),
    }
    assert_eq!(mold(map_get(&v, "name")), "\"Ada\"");
    assert_eq!(mold(map_get(&v, "age")), "36");
}

#[test]
fn load_json_empty_object() {
    match load("{}") {
        Value::MapVal(entries) => assert!(entries.is_empty()),
        other => panic!("expected map!, got {other:?}"),
    }
}

#[test]
fn load_json_nested() {
    let v = load("{\"a\":[1,{\"b\":2}]}");
    match map_get(&v, "a") {
        Value::Block(data) => {
            assert_eq!(data.len(), 2);
            assert_eq!(mold(&data[0]), "1");
            assert_eq!(mold(map_get(&data[1], "b")), "2");
        }
        other => panic!("expected block!, got {other:?}"),
    }
}

#[test]
fn load_json_float() {
    assert_eq!(mold(&load("3.14")), "3.14");
}

#[test]
fn load_json_negative_int() {
    assert_eq!(mold(&load("-42")), "-42");
}

#[test]
fn load_json_round_trip_int() {
    let j = to_json_native(&[Value::Integer(42)], &no_refs()).unwrap();
    let v = load_json_native(&[j], &no_refs()).unwrap();
    assert_eq!(mold(&v), "42");
}

#[test]
fn load_json_round_trip_array() {
    let b = Value::Block(vec![Value::Integer(1), Value::Integer(2), Value::Integer(3)]);
    let j = to_json_native(&[b], &no_refs()).unwrap();
    let v = load_json_native(&[j], &no_refs()).unwrap();
    assert_eq!(mold(&v), "[1 2 3]");
}

#[test]
fn load_json_round_trip_map() {
    // make map! [a 1 b 2]
    let m = Value::MapVal(vec![
        (MapKey::Sym("a".to_string()), Value::Integer(1)),
        (MapKey::Sym("b".to_string()), Value::Integer(2)),
    ]);
    let j = to_json_native(&[m], &no_refs()).unwrap();
    let v = load_json_native(&[j], &no_refs()).unwrap();
    match &v {
        Value::MapVal(entries) => assert_eq!(entries.len(), 2),
        other => panic!("expected map!, got {other:?}"),
    }
    assert_eq!(mold(map_get(&v, "a")), "1");
    assert_eq!(mold(map_get(&v, "b")), "2");
}

#[test]
fn load_json_error_unterminated() {
    let result = load_json_native(&[s("\"unterminated")], &no_refs());
    assert!(result.is_err(), "unterminated string should error");
}

#[test]
fn load_json_error_trailing() {
    let result = load_json_native(&[s("42 garbage")], &no_refs());
    assert!(result.is_err(), "trailing content should error");
}

// --- further cases ---

#[test]
fn load_json_error_names_the_byte() {
    let err = load_json_native(&[s("[1,]")], &no_refs()).unwrap_err();
    match &err {
        JsonError::Decode(e) => assert_eq!(e.pos, 3),
        other => panic!("expected a decode error, got {other:?}"),
    }
    assert!(err.message().starts_with("load-json: "));
}

#[test]
fn load_json_rejects_non_text() {
    let err = load_json_native(&[Value::Integer(1)], &no_refs()).unwrap_err();
    assert!(err.message().contains("integer!"));
}

#[test]
fn to_json_round_trips_nested_data() {
    let inner = Value::MapVal(vec![(MapKey::Str("k".to_string()), Value::Logic(false))]);
    let b = Value::Block(vec![s("x\ty"), Value::NoneVal, inner, Value::Integer(-7)]);
    let j = to_json_native(&[b], &refs("pretty")).unwrap();
    let v = load_json_native(&[j], &no_refs()).unwrap();
    let expected = Value::Block(vec![
        s("x\ty"),
        Value::NoneVal,
        Value::MapVal(vec![(MapKey::Str("k".to_string()), Value::Logic(false))]),
        Value::Integer(-7),
    ]);
    assert_eq!(v, expected);
}

#[test]
fn to_json_set_word_as_string() {
    assert_eq!(to_json(set_word("a")), "\"a\"");
}

fn compact_sample() -> Value {
    Value::MapVal(vec![
        (MapKey::Str("é\"q".to_string()), Value::Block(vec![])),
        (MapKey::Str("n".to_string()), Value::Integer(i64::MIN)),
        (MapKey::Str("m".to_string()), Value::MapVal(vec![])),
        (MapKey::Str("s".to_string()), s("line\u{1}\u{1F600}\\")),
    ])
}

#[test]
fn to_json_round_trips_compact_text() {
    let j = to_json_native(&[compact_sample()], &no_refs()).unwrap();
    let back = load_json_native(&[j], &no_refs()).unwrap();
    assert_eq!(back, compact_sample());
}

#[test]
fn to_json_pretty_takes_a_width() {
    let four = RefineArgs { refs: vec![("pretty".to_string(), vec![Value::Integer(4)])] };
    let v = Value::Block(vec![Value::Integer(1)]);
    assert_eq!(to_json_native(&[v], &four), Ok(Value::Str("[\n    1\n]".to_string())));
    let bad = RefineArgs { refs: vec![("pretty".to_string(), vec![Value::Integer(-1)])] };
    let e = to_json_native(&[Value::Integer(1)], &bad).unwrap_err();
    assert_eq!(e, JsonError::BadIndent);
    assert_eq!(e.message(), "to-json: /pretty width must be a non-negative integer");
}

#[test]
fn unencodable_part_fails_at_any_depth() {
    let deep = Value::Block(vec![Value::Block(vec![Value::Integer(1), Value::Other(Opaque::Function)])]);
    let e = to_json_native(&[deep], &no_refs()).unwrap_err();
    assert!(e.message().contains("cannot encode"), "got: {}", e.message());
}

#[test]
fn compact_json_is_one_line() {
    let v = Value::Block(vec![s("a\nb"), Value::Integer(2), Value::Block(vec![s("\r\n")])]);
    let t = to_json(v);
    assert!(!t.contains('\n'), "got: {t}");
    assert_eq!(t, "[\"a\\nb\",2,[\"\\r\\n\"]]");
}

#[test]
fn string_literal_reads_back() {
    for text in ["plain", "quote \" and \\ back", "tab\tbell\u{7}", "é ✓"] {
        let lit = to_json(s(text));
        assert!(lit.chars().all(|c| c as u32 >= 0x20), "got: {lit}");
        assert_eq!(load(&lit), s(text));
    }
}

#[test]
fn word_keyed_map_reads_back_with_string_keys() {
    let m = Value::MapVal(vec![
        (MapKey::Sym("a".to_string()), Value::Integer(1)),
        (MapKey::Sym("b".to_string()), Value::Integer(2)),
    ]);
    let back = load(&to_json(m));
    assert_eq!(
        back,
        Value::MapVal(vec![
            (MapKey::Str("a".to_string()), Value::Integer(1)),
            (MapKey::Str("b".to_string()), Value::Integer(2)),
        ])
    );
}

fn loaded_finite(text: &str) -> bool {
    match load(text) {
        Value::Float(f) => f.finite,
        other => panic!("expected float!, got {other:?}"),
    }
}

#[test]
fn load_json_float_finiteness() {
    assert!(loaded_finite("3.14"));
    assert!(loaded_finite("1.7976931348623157e308"));
    assert!(loaded_finite("1e308"));
    assert!(loaded_finite("0e999999"));
    assert!(loaded_finite("1e-999"));
    assert!(loaded_finite("0.00017976931348623157e312"));
    assert!(!loaded_finite("1e999"));
    assert!(!loaded_finite("1.8e308"));
    assert!(!loaded_finite("-1e309"));
    assert!(!loaded_finite("1.7976931348623159e308"));
    assert!(!loaded_finite(&"9".repeat(400)));
}

#[test]
fn load_json_overflowing_float_cannot_be_encoded() {
    let v = load("1e999");
    let err = to_json_native(&[v], &no_refs()).unwrap_err();
    assert!(matches!(err, JsonError::Encode(_)), "got: {err:?}");
}

#[test]
fn to_json_decimal_spellings() {
    let d = |mantissa: i128, scale: u32| to_json(Value::Decimal { mantissa, scale });
    assert_eq!(d(150, 2), "1.50");
    assert_eq!(d(-5, 2), "-0.05");
    assert_eq!(d(0, 0), "0.0");
    assert_eq!(d(7, 0), "7.0");
    assert_eq!(d(-7, 0), "-7.0");
    assert_eq!(d(0, 3), "0.000");
    assert_eq!(d(-12345, 1), "-1234.5");
    assert_eq!(d(42, 2), "0.42");
}

#[test]
fn load_json_round_trip_floats() {
    let b = || Value::Block(vec![float("3.14"), float("-0.5"), float("1e20"), float("2.5e-7")]);
    let j = to_json_native(&[b()], &no_refs()).unwrap();
    let back = load_json_native(&[j], &no_refs()).unwrap();
    assert_eq!(back, b());
}
