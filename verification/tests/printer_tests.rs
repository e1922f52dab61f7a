use red_eval::convert::to_string;
use red_eval::native::RefineArgs;
use red_eval::printer::{form_native, form_value, mold_native, mold_value, print_text, MoldError};
use red_eval::value::{FloatText, Value};

fn s(t: &str) -> Value {
    Value::Str(t.to_string())
}

fn ints(ns: &[i64]) -> Value {
    Value::Block(ns.iter().map(|n| Value::Integer(*n)).collect())
}

fn only() -> RefineArgs {
    RefineArgs { refs: vec![("only".to_string(), vec![])] }
}

/// What `print mold v` (with the given refinements) writes.
fn print_mold(v: Value, refs: &RefineArgs) -> String {
    print_text(&mold_native(&[v], refs).unwrap()).unwrap()
}

#[test]
fn mold_native_basic() {
    let none = RefineArgs::empty();
    assert_eq!(print_mold(Value::Integer(5), &none), "5\n");
    assert_eq!(print_mold(s("hi"), &none), "\"hi\"\n");
    assert_eq!(print_mold(ints(&[1, 2]), &none), "[1 2]\n");
    assert_eq!(print_mold(Value::LitWord("word".to_string()), &none), "'word\n");
    assert_eq!(print_mold(Value::NoneVal, &none), "none\n");
}

#[test]
fn mold_native_only() {
    assert_eq!(print_mold(ints(&[1, 2, 3]), &only()), "1 2 3\n");
    assert_eq!(print_mold(ints(&[]), &only()), "\n");
    assert_eq!(print_mold(Value::Integer(5), &only()), "5\n");
    assert_eq!(print_mold(s("hi"), &only()), "\"hi\"\n");
}

#[test]
fn print_form_block() {
    let out = print_text(&form_native(&[ints(&[1, 2, 3])]).unwrap()).unwrap();
    assert_eq!(out, "1 2 3\n");
}

#[test]
fn print_to_string_block() {
    let words = Value::Block(vec![
        Value::Word("a".to_string()),
        Value::Word("b".to_string()),
        Value::Word("c".to_string()),
    ]);
    let out = print_text(&to_string(&[words]).unwrap()).unwrap();
    assert_eq!(out, "a b c\n");
}

#[test]
fn form_block_returns_string() {
    assert_eq!(mold_value(&form_native(&[ints(&[1, 2, 3])]).unwrap()).unwrap(), "\"1 2 3\"");
}

#[test]
fn form_string_is_raw() {
    assert_eq!(mold_value(&form_native(&[s("hi")]).unwrap()).unwrap(), "\"hi\"");
}

#[test]
fn form_word_is_bare_name() {
    let w = Value::Word("foo".to_string());
    assert_eq!(mold_value(&form_native(&[w]).unwrap()).unwrap(), "\"foo\"");
}

#[test]
fn form_integer() {
    assert_eq!(mold_value(&form_native(&[Value::Integer(42)]).unwrap()).unwrap(), "\"42\"");
}

#[test]
fn to_string_from_integer() {
    assert_eq!(mold_value(&to_string(&[Value::Integer(42)]).unwrap()).unwrap(), "\"42\"");
}

#[test]
fn to_string_from_block_is_form() {
    assert_eq!(mold_value(&to_string(&[ints(&[1, 2, 3])]).unwrap()).unwrap(), "\"1 2 3\"");
}

#[test]
fn to_string_from_word_is_bare_name() {
    let w = Value::Word("foo".to_string());
    assert_eq!(mold_value(&to_string(&[w]).unwrap()).unwrap(), "\"foo\"");
}

#[test]
fn to_string_from_string_is_identity() {
    assert_eq!(mold_value(&to_string(&[s("hi")]).unwrap()).unwrap(), "\"hi\"");
}

#[test]
fn to_string_from_logic() {
    assert_eq!(mold_value(&to_string(&[Value::Logic(true)]).unwrap()).unwrap(), "\"true\"");
}

#[test]
fn binary_literal_molds_to_hex_uppercase() {
    assert_eq!(mold_value(&Value::Binary(vec![0x48, 0x65, 0x6C, 0x6C, 0x6F])).unwrap(), "#{48656C6C6F}");
    assert_eq!(mold_value(&Value::Binary(vec![0x00, 0xFF])).unwrap(), "#{00FF}");
}

// --- further cases ---

#[test]
fn mold_escapes_with_carets() {
    assert_eq!(mold_value(&s("a\"b^c\nd\te")).unwrap(), "\"a^\"b^^c^/d^-e\"");
    assert_eq!(mold_value(&Value::Char('"')).unwrap(), "#\"^\"\"");
}

#[test]
fn mold_of_words_pairs_tuples() {
    let p = Value::Pair(Box::new(Value::Integer(-5)), Box::new(Value::Integer(10)));
    assert_eq!(mold_value(&p).unwrap(), "-5x10");
    assert_eq!(mold_value(&Value::Tuple(vec![1, 2, 3])).unwrap(), "1.2.3");
    assert_eq!(mold_value(&Value::SetWord("a".to_string())).unwrap(), "a:");
    assert_eq!(mold_value(&Value::GetWord("a".to_string())).unwrap(), ":a");
    assert_eq!(mold_value(&Value::Refinement("only".to_string())).unwrap(), "/only");
    assert_eq!(mold_value(&Value::File("a.txt".to_string())).unwrap(), "%a.txt");
    assert_eq!(mold_value(&Value::Tag("p".to_string())).unwrap(), "<p>");
    let f = Value::Float(FloatText { text: "100.0".to_string(), finite: true });
    assert_eq!(mold_value(&f).unwrap(), "100.0");
}

#[test]
fn form_flattens_nested_blocks() {
    let b = Value::Block(vec![Value::Integer(1), s("a"), ints(&[2, 3])]);
    assert_eq!(form_value(&b).unwrap(), "1 a 2 3");
    assert_eq!(mold_value(&b).unwrap(), "[1 \"a\" [2 3]]");
}

#[test]
fn unmoldable_values() {
    let m = Value::Money { cents: 1, currency: "USD".to_string() };
    assert_eq!(mold_value(&m), None);
    assert_eq!(mold_native(&[ints(&[1]), m], &RefineArgs::empty()), Err(MoldError::Arity { got: 2 }));
    let b = Value::Block(vec![Value::Money { cents: 1, currency: "USD".to_string() }]);
    assert_eq!(form_native(&[b]), Err(MoldError::Unmoldable));
}
