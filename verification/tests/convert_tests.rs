use red_eval::convert::{
    duration_in_range, make_binary, make_block, make_char, make_date, make_duration, make_email,
    make_file, make_integer,
    make_issue, make_money, make_native, make_pair, make_percent, make_string, make_tag, make_tuple,
    make_url, to_binary, to_block, to_char, to_date, to_decimal, to_duration, to_email, to_file, to_float,
    to_get_word, to_integer, to_issue, to_lit_word, to_logic, to_money, to_native, to_pair, to_percent,
    to_set_word, to_string, to_tag, to_tuple, to_url, to_word, CharMaker, ConvertError,
    Expected, Target,
};
use red_eval::printer::mold_value;
use red_eval::value::{FloatText, Kind, Value};

fn s(t: &str) -> Value {
    Value::Str(t.to_string())
}

fn w(t: &str) -> Value {
    Value::Word(t.to_string())
}

fn lw(t: &str) -> Value {
    Value::LitWord(t.to_string())
}

fn ints(ns: &[i64]) -> Value {
    Value::Block(ns.iter().map(|n| Value::Integer(*n)).collect())
}

fn float(t: &str) -> Value {
    Value::Float(FloatText { text: t.to_string(), finite: true })
}

fn mold(v: &Value) -> String {
    mold_value(v).unwrap()
}

fn char_of(r: Result<Value, ConvertError>) -> char {
    match r {
        Ok(Value::Char(c)) => c,
        other => panic!("expected char!, got {:?}", other),
    }
}

fn message(r: Result<Value, ConvertError>) -> String {
    r.unwrap_err().message()
}

// --- to-integer ---

#[test]
fn to_integer_from_string() {
    assert_eq!(mold(&to_integer(&[s("42")]).unwrap()), "42");
    assert_eq!(mold(&to_integer(&[s("-7")]).unwrap()), "-7");
}

#[test]
fn to_integer_from_logic() {
    assert_eq!(mold(&to_integer(&[Value::Logic(true)]).unwrap()), "1");
    assert_eq!(mold(&to_integer(&[Value::Logic(false)]).unwrap()), "0");
}

#[test]
fn to_integer_from_none() {
    assert_eq!(mold(&to_integer(&[Value::NoneVal]).unwrap()), "0");
}

#[test]
fn to_integer_unparseable_string_errors() {
    assert!(to_integer(&[s("abc")]).is_err());
}

#[test]
fn to_integer_identity() {
    assert_eq!(mold(&to_integer(&[Value::Integer(5)]).unwrap()), "5");
}

// --- to-block ---

#[test]
fn to_block_from_word() {
    assert_eq!(mold(&to_block(&[lw("foo")]).unwrap()), "[foo]");
}

#[test]
fn to_block_identity() {
    assert_eq!(mold(&to_block(&[ints(&[1, 2])]).unwrap()), "[1 2]");
}

// --- to-word and its kin ---

#[test]
fn to_word_from_string() {
    assert_eq!(mold(&to_word(&[s("abc")]).unwrap()), "abc");
}

#[test]
fn to_word_from_word() {
    assert_eq!(mold(&to_word(&[lw("foo")]).unwrap()), "foo");
}

#[test]
fn to_set_word_from_string() {
    assert_eq!(mold(&to_set_word(&[s("x")]).unwrap()), "x:");
}

#[test]
fn to_get_word_from_string() {
    assert_eq!(mold(&to_get_word(&[s("x")]).unwrap()), ":x");
}

#[test]
fn to_lit_word_from_string() {
    assert_eq!(mold(&to_lit_word(&[s("x")]).unwrap()), "'x");
}

#[test]
fn to_word_from_integer_type_errors() {
    assert!(to_word(&[Value::Integer(5)]).is_err());
}

#[test]
fn to_logic_truthiness() {
    assert_eq!(mold(&to_logic(&[Value::Integer(0)]).unwrap()), "true");
    assert_eq!(mold(&to_logic(&[Value::Logic(false)]).unwrap()), "false");
    assert_eq!(mold(&to_logic(&[Value::NoneVal]).unwrap()), "false");
    assert_eq!(mold(&to_logic(&[s("")]).unwrap()), "true");
    assert_eq!(mold(&to_logic(&[Value::Integer(1)]).unwrap()), "true");
}

// --- files and urls ---

#[test]
fn to_file_from_string() {
    assert_eq!(mold(&to_file(&[s("foo/bar.txt")]).unwrap()), "%foo/bar.txt");
}

#[test]
fn to_file_from_url() {
    assert_eq!(mold(&to_url(&[s("http://x/y")]).unwrap()), "http://x/y");
}

#[test]
fn to_file_from_word() {
    assert_eq!(mold(&to_file(&[lw("foo")]).unwrap()), "%foo");
}

#[test]
fn to_file_identity() {
    assert_eq!(mold(&to_file(&[Value::File("foo/bar.txt".to_string())]).unwrap()), "%foo/bar.txt");
}

#[test]
fn make_file_from_string() {
    assert_eq!(mold(&make_file(&s("a/b.txt")).unwrap()), "%a/b.txt");
}

#[test]
fn make_url_from_string() {
    assert_eq!(mold(&make_url(&s("https://x")).unwrap()), "https://x");
}

#[test]
fn to_type_dispatcher_for_file_url() {
    assert_eq!(mold(&to_native(&[w("file!"), s("p.txt")]).unwrap()), "%p.txt");
    assert_eq!(mold(&to_native(&[w("url!"), s("ftp://h")]).unwrap()), "ftp://h");
}

// --- make ---

#[test]
fn make_integer_from_string() {
    assert_eq!(mold(&make_native(&[w("integer!"), s("42")]).unwrap()), "42");
}

#[test]
fn make_string_from_integer_is_empty() {
    assert_eq!(mold(&make_native(&[w("string!"), Value::Integer(5)]).unwrap()), "\"\"");
}

#[test]
fn make_string_from_block_forms() {
    assert_eq!(mold(&make_native(&[w("string!"), ints(&[1, 2, 3])]).unwrap()), "\"1 2 3\"");
}

#[test]
fn make_block_from_integer_is_empty() {
    assert_eq!(mold(&make_native(&[w("block!"), Value::Integer(3)]).unwrap()), "[]");
}

#[test]
fn make_unsupported_type_errors() {
    assert!(make_native(&[w("foobar!"), Value::Integer(5)]).is_err());
}

#[test]
fn to_string_via_to_converts_value() {
    assert_eq!(mold(&to_native(&[w("string!"), Value::Integer(5)]).unwrap()), "\"5\"");
}

#[test]
fn to_word_via_to() {
    assert_eq!(mold(&to_native(&[w("word!"), s("abc")]).unwrap()), "abc");
}

// --- binaries ---

#[test]
fn to_binary_from_string() {
    assert_eq!(mold(&to_binary(&[s("hi")]).unwrap()), "#{6869}");
}

#[test]
fn to_binary_from_binary_is_identity() {
    assert_eq!(mold(&to_binary(&[Value::Binary(vec![1, 2])]).unwrap()), "#{0102}");
}

#[test]
fn to_binary_from_integer_is_big_endian_8() {
    match to_binary(&[Value::Integer(1)]).unwrap() {
        Value::Binary(bytes) => {
            assert_eq!(bytes.len(), 8);
            assert_eq!(bytes[7], 1);
        }
        other => panic!("expected String8, got {other:?}"),
    }
}

#[test]
fn make_binary_from_block_of_ints() {
    assert_eq!(mold(&make_binary(&ints(&[65, 66, 67])).unwrap()), "#{414243}");
    assert_eq!(mold(&make_binary(&ints(&[0, 255, 256])).unwrap()), "#{00FF00}");
}

#[test]
fn make_binary_from_block_with_chars_and_strings() {
    let b = Value::Block(vec![Value::Char('A'), s("xy")]);
    assert_eq!(mold(&make_binary(&b).unwrap()), "#{417879}");
}

#[test]
fn to_string_from_binary_decodes_utf8() {
    assert_eq!(mold(&to_string(&[Value::Binary(vec![0x68, 0x69])]).unwrap()), "\"hi\"");
}

#[test]
fn to_string_from_binary_invalid_utf8_errors() {
    let r = to_string(&[Value::Binary(vec![0xFF])]);
    assert!(r.is_err(), "expected UTF-8 decode error");
}

#[test]
fn to_binary_via_to_native() {
    assert_eq!(mold(&to_native(&[w("binary!"), s("hi")]).unwrap()), "#{6869}");
}

#[test]
fn make_binary_via_make_native() {
    assert_eq!(mold(&make_native(&[w("binary!"), s("hi")]).unwrap()), "#{6869}");
}

// --- round trips through text ---

#[test]
fn to_integer_round_trip() {
    let t = to_string(&[Value::Integer(42)]).unwrap();
    assert_eq!(mold(&to_integer(&[t]).unwrap()), "42");
    let t = to_string(&[Value::Integer(-7)]).unwrap();
    assert_eq!(mold(&to_integer(&[t]).unwrap()), "-7");
}

#[test]
fn to_string_round_trip() {
    let t = to_string(&[Value::Integer(99)]).unwrap();
    assert_eq!(mold(&to_integer(&[t]).unwrap()), "99");
    let t = to_string(&[s("hi")]).unwrap();
    assert_eq!(mold(&to_string(&[t]).unwrap()), "\"hi\"");
}

#[test]
fn to_word_round_trip() {
    let t = to_string(&[lw("abc")]).unwrap();
    assert_eq!(mold(&to_word(&[t]).unwrap()), "abc");
    let t = to_string(&[lw("x")]).unwrap();
    assert_eq!(mold(&to_set_word(&[t]).unwrap()), "x:");
    let t = to_string(&[lw("y")]).unwrap();
    assert_eq!(mold(&to_get_word(&[t]).unwrap()), ":y");
}

// --- to-char and make char! ---

#[test]
fn to_char_from_integer() {
    assert_eq!(char_of(to_char(&[Value::Integer(65)])), 'A');
}

#[test]
fn to_char_from_logic() {
    assert_eq!(char_of(to_char(&[Value::Logic(true)])), '\u{1}');
    assert_eq!(char_of(to_char(&[Value::Logic(false)])), '\u{0}');
}

#[test]
fn to_char_identity() {
    assert_eq!(char_of(to_char(&[Value::Char('X')])), 'X');
}

#[test]
fn to_char_invalid_integer_codepoint_errors() {
    let err = message(to_char(&[Value::Integer(1114112)]));
    assert!(err.contains("not a valid codepoint"), "got: {err}");
}

#[test]
fn to_char_empty_string_errors() {
    let err = message(to_char(&[s("")]));
    assert!(err.contains("empty string"), "got: {err}");
}

#[test]
fn to_char_multi_char_string_errors() {
    let err = message(to_char(&[s("ab")]));
    assert!(err.contains("more than one char"), "got: {err}");
}

#[test]
fn to_char_wrong_type_errors() {
    let err = message(to_char(&[ints(&[1, 2])]));
    assert!(err.contains("block!"), "got: {err}");
}

#[test]
fn make_char_identity() {
    assert_eq!(char_of(make_char(&Value::Char('Z'))), 'Z');
}

#[test]
fn make_char_from_integer() {
    assert_eq!(char_of(make_char(&Value::Integer(97))), 'a');
}

#[test]
fn make_char_invalid_codepoint_errors() {
    assert!(make_char(&Value::Integer(0x110000)).is_err());
}

#[test]
fn make_char_from_single_char_string() {
    assert_eq!(char_of(make_char(&s("Q"))), 'Q');
}

#[test]
fn make_char_empty_string_errors() {
    assert!(make_char(&s("")).is_err());
}

#[test]
fn make_char_multi_char_string_errors() {
    assert!(make_char(&s("xy")).is_err());
}

#[test]
fn make_char_wrong_type_errors() {
    assert!(make_char(&Value::NoneVal).is_err());
}

// --- make money! ---

#[test]
fn make_money_from_block_cents_only() {
    match make_money(&ints(&[500])).unwrap() {
        Value::Money { cents, currency } => {
            assert_eq!(cents, 500);
            assert_eq!(currency, "USD");
        }
        other => panic!("expected money!, got {:?}", other),
    }
}

#[test]
fn make_money_from_block_cents_and_currency_word() {
    let b = Value::Block(vec![Value::Integer(1000), lw("EUR")]);
    match make_money(&b).unwrap() {
        Value::Money { cents, currency } => {
            assert_eq!(cents, 1000);
            assert_eq!(currency, "EUR");
        }
        other => panic!("expected money!, got {:?}", other),
    }
}

#[test]
fn make_money_from_block_cents_and_currency_string() {
    let b = Value::Block(vec![Value::Integer(750), s("JPY")]);
    match make_money(&b).unwrap() {
        Value::Money { currency, .. } => assert_eq!(currency, "JPY"),
        other => panic!("expected money!, got {:?}", other),
    }
}

#[test]
fn make_money_from_block_wrong_cents_type_errors() {
    match make_money(&Value::Block(vec![s("not-cents")])).unwrap_err() {
        ConvertError::Type { expected, .. } => {
            assert!(expected.text().contains("integer!"), "got: {}", expected.text());
        }
        other => panic!("expected TypeError, got {:?}", other),
    }
}

#[test]
fn make_money_from_block_wrong_currency_type_errors() {
    match make_money(&ints(&[100, 999])).unwrap_err() {
        ConvertError::Type { expected, .. } => {
            assert!(expected.text().contains("string! or word!"), "got: {}", expected.text());
        }
        other => panic!("expected TypeError, got {:?}", other),
    }
}

#[test]
fn make_money_from_empty_block_errors() {
    match make_money(&ints(&[])).unwrap_err() {
        ConvertError::Type { expected, .. } => {
            assert!(expected.text().contains("integer!"), "got: {}", expected.text());
        }
        other => panic!("expected TypeError, got {:?}", other),
    }
}

#[test]
fn make_money_wrong_spec_type_errors() {
    match make_money(&Value::NoneVal).unwrap_err() {
        ConvertError::Type { expected, .. } => assert!(expected.text().contains("integer!")),
        other => panic!("expected TypeError, got {:?}", other),
    }
}

// --- make pair! and make tuple! ---

#[test]
fn make_pair_from_wrong_length_block_errors() {
    let err = make_pair(&ints(&[1])).unwrap_err();
    assert!(matches!(err, ConvertError::PairLength(1)));
    let text = err.message();
    assert!(text.contains("exactly 2 elements"), "got: {text}");
}

#[test]
fn make_pair_wrong_spec_type_errors() {
    match make_pair(&Value::NoneVal).unwrap_err() {
        ConvertError::Type { expected, .. } => assert!(expected.text().contains("pair!")),
        other => panic!("expected TypeError, got {:?}", other),
    }
}

#[test]
fn make_tuple_integer_wrong_count_errors() {
    let text = message(make_tuple(&Value::Integer(5)));
    assert!(text.contains("3 or 4"), "got: {text}");
}

#[test]
fn make_tuple_block_wrong_length_errors() {
    let text = message(make_tuple(&ints(&[1, 2])));
    assert!(text.contains("3 or 4 elements"), "got: {text}");
}

#[test]
fn make_tuple_block_wrong_element_type_errors() {
    let b = Value::Block(vec![Value::Integer(1), Value::Integer(2), s("not-int")]);
    match make_tuple(&b).unwrap_err() {
        ConvertError::Type { expected, .. } => assert!(expected.text().contains("integer!")),
        other => panic!("expected TypeError, got {:?}", other),
    }
}

#[test]
fn make_tuple_component_out_of_range_errors() {
    let text = message(make_tuple(&ints(&[1, 2, 300])));
    assert!(text.contains("out of range"), "got: {text}");
}

#[test]
fn make_tuple_wrong_spec_type_errors() {
    match make_tuple(&Value::NoneVal).unwrap_err() {
        ConvertError::Type { expected, .. } => assert!(expected.text().contains("tuple!")),
        other => panic!("expected TypeError, got {:?}", other),
    }
}

// --- to <type> dispatch ---

#[test]
fn to_bitset_from_string() {
    let v = to_native(&[w("bitset!"), s("ABC")]).unwrap();
    match v {
        Value::Bitset(bits) => {
            assert!(bits[65] && bits[66] && bits[67]);
            assert!(!bits[68]);
        }
        other => panic!("got: {other:?}"),
    }
}

#[test]
fn to_native_unknown_type_errors() {
    let err = message(to_native(&[w("bogus!"), Value::Integer(5)]));
    assert!(err.contains("not supported"), "got: {err}");
}

// --- further cases ---

#[test]
fn to_integer_trims_and_checks_range() {
    assert_eq!(mold(&to_integer(&[s("  +12\n")]).unwrap()), "12");
    assert_eq!(mold(&to_integer(&[s("-9223372036854775808")]).unwrap()), "-9223372036854775808");
    assert!(to_integer(&[s("9223372036854775808")]).is_err());
    assert!(to_integer(&[s("+")]).is_err());
    assert!(to_integer(&[s("1 2")]).is_err());
    assert_eq!(message(to_integer(&[s("x\"y")])), "to-integer: cannot parse \"x\\\"y\" as integer");
}

#[test]
fn to_integer_of_chars_money_and_decimals() {
    assert_eq!(mold(&to_integer(&[Value::Char('A')]).unwrap()), "65");
    let m = Value::Money { cents: 1000, currency: "USD".to_string() };
    assert_eq!(mold(&to_integer(&[m]).unwrap()), "1000");
    let d = Value::Decimal { mantissa: -275, scale: 2 };
    assert_eq!(mold(&to_integer(&[d]).unwrap()), "-2");
    assert!(matches!(to_integer(&[float("3.7")]), Err(ConvertError::Floating)));
}

#[test]
fn to_decimal_forms() {
    match to_decimal(&[s("1.50")]).unwrap() {
        Value::Decimal { mantissa, scale } => assert_eq!((mantissa, scale), (150, 2)),
        other => panic!("got: {other:?}"),
    }
    let m = Value::Money { cents: 1234, currency: "USD".to_string() };
    assert!(matches!(to_decimal(&[m]).unwrap(), Value::Decimal { mantissa: 1234, scale: 2 }));
    assert!(matches!(to_decimal(&[Value::Integer(7)]).unwrap(), Value::Decimal { mantissa: 7, scale: 0 }));
    assert!(matches!(to_decimal(&[s("abc")]), Err(ConvertError::NotDecimal(_))));
}

#[test]
fn to_char_takes_low_32_bits() {
    assert_eq!(char_of(to_char(&[Value::Integer(0x1_0000_0041)])), 'A');
    assert!(matches!(
        to_char(&[Value::Integer(0xD800)]),
        Err(ConvertError::Codepoint { maker: CharMaker::To, n: 0xD800 })
    ));
}

#[test]
fn make_email_tag_issue() {
    let b = Value::Block(vec![s("me"), w("example.com")]);
    assert_eq!(mold(&make_email(&b).unwrap()), "me@example.com");
    assert!(matches!(make_email(&ints(&[1])), Err(ConvertError::EmailBlock)));
    let t = Value::Block(vec![w("img"), w("src"), s("x"), Value::Integer(3), Value::Char('c')]);
    assert_eq!(mold(&make_tag(&t).unwrap()), "<img src x 3 c>");
    assert_eq!(mold(&to_tag(&[lw("b")]).unwrap()), "<b>");
    let i = Value::Block(vec![Value::Integer(12), Value::Char('-'), s("ab")]);
    assert_eq!(mold(&make_issue(&i).unwrap()), "#12-ab");
    assert_eq!(mold(&to_issue(&[Value::Integer(1234)]).unwrap()), "#1234");
    assert!(matches!(
        make_issue(&Value::Block(vec![w("x")])),
        Err(ConvertError::Type { expected: Expected::IssuePart, found: Kind::Word })
    ));
    assert_eq!(mold(&to_email(&[Value::Email("a@b.c".to_string())]).unwrap()), "a@b.c");
}

#[test]
fn make_pair_and_tuple_forms() {
    assert_eq!(mold(&make_pair(&ints(&[3, 4])).unwrap()), "3x4");
    assert_eq!(mold(&make_pair(&Value::Integer(7)).unwrap()), "7x0");
    assert_eq!(mold(&make_tuple(&Value::Integer(4)).unwrap()), "0.0.0.0");
    let b = Value::Block(vec![Value::Integer(1), Value::Char('A'), Value::Integer(255)]);
    assert_eq!(mold(&make_tuple(&b).unwrap()), "1.65.255");
}

#[test]
fn make_and_to_hand_back_what_needs_the_interpreter() {
    assert!(matches!(make_block(&s("1 2")), Err(ConvertError::Loading)));
    assert!(matches!(make_native(&[w("object!"), ints(&[])]), Err(ConvertError::Elsewhere(Target::Object))));
    assert!(matches!(make_native(&[w("word!"), s("x")]), Err(ConvertError::UnsupportedMake(_))));
    assert!(matches!(to_native(&[w("object!"), ints(&[])]), Err(ConvertError::UnsupportedTo(_))));
    assert!(matches!(make_duration(&ints(&[1, 2])), Err(ConvertError::DurationLength(2))));
    assert_eq!(make_duration(&ints(&[1, 2, 3])), Err(ConvertError::DurationMillis(3_723_000)));
    assert!(matches!(make_date(&ints(&[2024, 6])), Err(ConvertError::DateBlock)));
    assert!(matches!(make_date(&ints(&[2024, 6, 29])), Err(ConvertError::Calendar)));
    assert!(matches!(make_integer(&float("3.5")), Err(ConvertError::Floating)));
    assert!(matches!(make_native(&[Value::Integer(1), s("x")]), Err(ConvertError::Type { expected: Expected::TypeWord, .. })));
    assert!(matches!(to_integer(&[]), Err(ConvertError::Arity { expected: 1, got: 0 })));
}

#[test]
fn make_string_and_block_forms() {
    assert_eq!(mold(&make_string(&w("abc")).unwrap()), "\"abc\"");
    let p = Value::Paren(vec![Value::Integer(1), Value::Integer(2)]);
    assert_eq!(mold(&make_block(&p).unwrap()), "[1 2]");
    match make_native(&[lw("file"), ints(&[1, 2])]).unwrap() {
        Value::File(t) => assert_eq!(t, "1 2"),
        other => panic!("got: {other:?}"),
    }
}

#[test]
fn to_forms_take_one_argument() {
    assert_eq!(mold(&to_pair(&[ints(&[3, 4])]).unwrap()), "3x4");
    assert_eq!(mold(&to_tuple(&[Value::Integer(4)]).unwrap()), "0.0.0.0");
    assert!(matches!(to_money(&[ints(&[500])]), Ok(Value::Money { cents: 500, .. })));
    assert!(matches!(to_pair(&[]), Err(ConvertError::Arity { expected: 1, got: 0 })));
    assert!(matches!(to_tuple(&[Value::Integer(1), Value::Integer(2)]), Err(ConvertError::Arity { expected: 1, got: 2 })));
}

#[test]
fn float_shaped_conversions_are_handed_back() {
    let p = FloatText { text: "0.5".to_string(), finite: true };
    assert_eq!(make_percent(&Value::Percent(p.clone())), Ok(Value::Percent(p.clone())));
    assert!(matches!(make_percent(&Value::Integer(5)), Err(ConvertError::Floating)));
    assert!(matches!(to_percent(&[s("5%")]), Err(ConvertError::Loading)));
    assert!(matches!(to_float(&[Value::Integer(2)]), Err(ConvertError::Floating)));
    assert_eq!(to_duration(&[ints(&[1, 2, 3])]), Err(ConvertError::DurationMillis(3_723_000)));
    assert!(matches!(to_date(&[Value::Logic(true)]), Err(ConvertError::Type { .. })));
}

#[test]
fn duration_from_integers_in_milliseconds() {
    assert_eq!(make_duration(&Value::Integer(90)), Err(ConvertError::DurationMillis(90_000)));
    assert_eq!(make_duration(&ints(&[5])), Err(ConvertError::DurationMillis(5_000)));
    assert_eq!(make_duration(&ints(&[1, 2, 3, 4])), Err(ConvertError::DurationMillis(3_723_004)));
    assert_eq!(
        make_duration(&ints(&[2, 1, 2, 3, 4])),
        Err(ConvertError::DurationMillis(2 * 86_400_000 + 3_723_004))
    );
    assert_eq!(make_duration(&ints(&[0, -1, 30])), Err(ConvertError::DurationMillis(-30_000)));
    assert_eq!(
        ConvertError::DurationMillis(-30_000).message(),
        "a duration of -30000 ms, spelled by the interpreter"
    );
}

#[test]
fn duration_range_is_checked_before_making() {
    assert!(duration_in_range(&Value::Integer(90)));
    assert!(duration_in_range(&ints(&[1, 2, 3])));
    assert!(!duration_in_range(&Value::Integer(i64::MAX)));
    assert!(!duration_in_range(&ints(&[i64::MAX, 0, 0])));
    assert!(!duration_in_range(&ints(&[0, 0, 0, i64::MAX / 1000 + 1, i64::MAX])));
    assert!(duration_in_range(&ints(&[i64::MAX])) == false);
    assert!(duration_in_range(&ints(&[1, 2])));
    assert!(duration_in_range(&Value::Str("1:00".to_string())));
}
