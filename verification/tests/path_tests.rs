use red_eval::path::{
    pick_path_index, poke_string_char, resume_walk, select_field, set_path_head, step_path,
    walk_data_path, write_path_end, write_path_slot, PathError, PathWrite, Step, Walk,
};
use red_eval::value::{clone_value, Kind, Value};

fn integer(n: i64) -> Value {
    Value::Integer(n)
}

fn block(items: Vec<Value>) -> Value {
    Value::Block(items)
}

fn word(w: &str) -> Value {
    Value::Word(w.to_string())
}

fn object(fields: Vec<(&str, Value)>) -> Value {
    Value::Object(fields.into_iter().map(|(n, v)| (n.to_string(), v)).collect())
}

fn s(t: &str) -> Value {
    Value::Str(t.to_string())
}

#[test]
fn block_path_integer_select() {
    let b = block(vec![integer(10), integer(20), integer(30)]);
    assert_eq!(pick_path_index(&b, 2), Ok(integer(20)));
}

#[test]
fn block_path_negative_index() {
    let b = block(vec![integer(10), integer(20), integer(30)]);
    assert_eq!(pick_path_index(&b, -1), Ok(integer(30)));
    assert_eq!(pick_path_index(&b, -3), Ok(integer(10)));
    assert_eq!(pick_path_index(&b, -4), Ok(Value::NoneVal));
}

#[test]
fn block_path_out_of_range_returns_none() {
    let b = block(vec![integer(10), integer(20), integer(30)]);
    assert_eq!(pick_path_index(&b, 9), Ok(Value::NoneVal));
    assert_eq!(pick_path_index(&b, 0), Ok(Value::NoneVal));
}

#[test]
fn string_path_integer_returns_char() {
    assert_eq!(pick_path_index(&s("abc"), 2), Ok(Value::Char('b')));
}

#[test]
fn char_pick_negative_index() {
    assert_eq!(pick_path_index(&s("abc"), -1), Ok(Value::Char('c')));
    assert_eq!(pick_path_index(&s("héllo"), 2), Ok(Value::Char('é')));
}

#[test]
fn integer_part_on_a_word_is_refused() {
    let e = pick_path_index(&integer(5), 1).unwrap_err();
    assert_eq!(e, PathError::NotIndexable(Kind::Integer));
    assert!(e.message().starts_with("expected block!, paren!, or string!"));
}

#[test]
fn object_path_field_access() {
    let o = object(vec![("a", integer(1))]);
    assert_eq!(select_field(&o, &"a".to_string()), Ok(integer(1)));
}

#[test]
fn object_missing_field_is_an_error() {
    let o = object(vec![("a", integer(1))]);
    let e = select_field(&o, &"b".to_string()).unwrap_err();
    assert_eq!(e.message(), "object has no field b");
    let e = select_field(&integer(3), &"b".to_string()).unwrap_err();
    assert_eq!(e.message(), "cannot select field b from integer!");
}

#[test]
fn first_of_two_equal_fields_is_selected() {
    let o = object(vec![("a", integer(1)), ("a", integer(2))]);
    assert_eq!(select_field(&o, &"a".to_string()), Ok(integer(1)));
}

#[test]
fn nested_object_path_through_graph() {
    let o = object(vec![("inner", object(vec![("x", integer(42))]))]);
    let parts = vec![word("o"), word("inner"), word("x")];
    assert_eq!(walk_data_path(o, &parts, 1), Ok(Walk::Done(integer(42))));
}

#[test]
fn object_path_with_block_field_then_index() {
    let o = object(vec![("items", block(vec![integer(10), integer(20), integer(30)]))]);
    let parts = vec![word("o"), word("items"), integer(2)];
    assert_eq!(walk_data_path(o, &parts, 1), Ok(Walk::Done(integer(20))));
}

#[test]
fn path_with_paren_part_evaluates_paren() {
    let b = block(vec![block(vec![integer(100), integer(200)]), block(vec![integer(300), integer(400)])]);
    let paren = Value::Paren(vec![integer(1), word("+"), integer(1)]);
    let parts = vec![word("b"), paren, integer(2)];
    let paused = walk_data_path(clone_value(&b), &parts, 1).unwrap();
    assert_eq!(paused, Walk::Evaluate { at: 1, current: clone_value(&b) });
    // The paren `(1 + 1)` evaluates to 2.
    assert_eq!(resume_walk(b, &integer(2), &parts, 1), Ok(Walk::Done(integer(400))));
}

#[test]
fn path_paren_evaluated_for_index() {
    let b = block(vec![integer(10), integer(20), integer(30)]);
    let parts = vec![word("b"), Value::Paren(vec![integer(1), word("+"), integer(1)])];
    assert_eq!(step_path(&b, &parts[1]), Ok(Step::Evaluate));
    assert_eq!(resume_walk(b, &integer(2), &parts, 1), Ok(Walk::Done(integer(20))));
}

#[test]
fn bad_path_part_is_refused() {
    let b = block(vec![integer(10)]);
    assert_eq!(step_path(&b, &s("x")), Err(PathError::BadPart(Kind::Str)));
}

#[test]
fn object_set_path_writes_field() {
    let mut o = object(vec![("a", integer(1))]);
    assert_eq!(write_path_slot(&mut o, &word("a"), integer(5)), Ok(()));
    assert_eq!(select_field(&o, &"a".to_string()), Ok(integer(5)));
    assert_eq!(o, object(vec![("a", integer(5))]));
}

#[test]
fn object_set_path_adds_a_missing_field() {
    let mut o = object(vec![("a", integer(1))]);
    assert_eq!(write_path_slot(&mut o, &word("b"), integer(2)), Ok(()));
    assert_eq!(o, object(vec![("a", integer(1)), ("b", integer(2))]));
}

#[test]
fn block_integer_set_path() {
    let mut b = block(vec![integer(1), integer(2), integer(3)]);
    assert_eq!(write_path_slot(&mut b, &integer(2), integer(99)), Ok(()));
    assert_eq!(b, block(vec![integer(1), integer(99), integer(3)]));
    assert_eq!(write_path_slot(&mut b, &integer(-1), integer(7)), Ok(()));
    assert_eq!(b, block(vec![integer(1), integer(99), integer(7)]));
}

#[test]
fn block_set_path_errors_leave_the_block() {
    let mut b = block(vec![integer(1), integer(2), integer(3)]);
    let e = write_path_slot(&mut b, &integer(0), integer(9)).unwrap_err();
    assert_eq!(e.message(), "poke index 0 is invalid (1-based)");
    let e = write_path_slot(&mut b, &integer(4), integer(9)).unwrap_err();
    assert_eq!(e.message(), "poke index 4 out of range");
    let e = write_path_slot(&mut b, &integer(-4), integer(9)).unwrap_err();
    assert_eq!(e.message(), "poke index -4 out of range");
    assert_eq!(b, block(vec![integer(1), integer(2), integer(3)]));
    let mut n = integer(1);
    assert_eq!(write_path_slot(&mut n, &word("a"), integer(2)), Err(PathError::CannotSet("a".to_string(), Kind::Integer)));
    assert_eq!(n, integer(1));
    let mut t = s("abc");
    assert_eq!(write_path_slot(&mut t, &integer(1), integer(2)), Err(PathError::StringPoke));
}

#[test]
fn string_char_poke_via_set_path() {
    let abc = "abc".to_string();
    assert_eq!(poke_string_char(&abc, 2, &Value::Char('X')), Ok("aXc".to_string()));
    assert_eq!(poke_string_char(&abc, -1, &Value::Char('Z')), Ok("abZ".to_string()));
}

#[test]
fn string_poke_takes_codepoints_and_one_char_strings() {
    let abc = "abc".to_string();
    assert_eq!(poke_string_char(&abc, 1, &integer(65)), Ok("Abc".to_string()));
    assert_eq!(poke_string_char(&abc, 3, &s("é")), Ok("abé".to_string()));
    assert_eq!(poke_string_char(&abc, 1, &s("")), Err(PathError::EmptyPoke));
    assert_eq!(poke_string_char(&abc, 1, &s("xy")), Err(PathError::MultiCharPoke));
    let e = poke_string_char(&abc, 1, &integer(0xD800)).unwrap_err();
    assert_eq!(e.message(), "poke: integer 55296 is not a valid char codepoint");
    assert_eq!(poke_string_char(&abc, 0, &Value::Char('q')), Err(PathError::PokeZero));
    assert_eq!(poke_string_char(&abc, 4, &Value::Char('q')), Err(PathError::PokeRange(4)));
    assert_eq!(poke_string_char(&abc, 1, &Value::Logic(true)), Err(PathError::NotPokeChar(Kind::Logic)));
}

#[test]
fn read_after_write_law_on_values() {
    let mut b = block(vec![integer(1), integer(2), integer(3)]);
    write_path_slot(&mut b, &integer(-2), s("x")).unwrap();
    assert_eq!(pick_path_index(&b, -2), Ok(s("x")));
    assert_eq!(pick_path_index(&b, 1), Ok(integer(1)));
    let mut o = object(vec![("a", integer(1)), ("b", integer(2))]);
    write_path_slot(&mut o, &Value::LitWord("b".to_string()), integer(20)).unwrap();
    assert_eq!(select_field(&o, &"b".to_string()), Ok(integer(20)));
    assert_eq!(select_field(&o, &"a".to_string()), Ok(integer(1)));
}

#[test]
fn set_path_head_is_a_word() {
    assert_eq!(set_path_head(&[word("o"), word("a")]), Ok("o".to_string()));
    assert_eq!(set_path_head(&[Value::GetWord("o".to_string()), integer(1)]), Ok("o".to_string()));
    assert_eq!(set_path_head(&[word("o")]), Err(PathError::ShortSetPath));
    let e = set_path_head(&[integer(1), word("a")]).unwrap_err();
    assert_eq!(e.message(), "set-path head must be a word, found integer!");
}

#[test]
fn set_path_end_on_a_string_hands_the_string_back() {
    let mut t = s("abc");
    assert_eq!(write_path_end(&mut t, &integer(2), Value::Char('X')), Ok(PathWrite::HeadString("aXc".to_string())));
    assert_eq!(t, s("abc"));
    let mut b = block(vec![integer(1), integer(2)]);
    assert_eq!(write_path_end(&mut b, &integer(1), integer(5)), Ok(PathWrite::Written));
    assert_eq!(b, block(vec![integer(5), integer(2)]));
}

#[test]
fn nested_object_set_path() {
    let o = object(vec![("inner", object(vec![("x", integer(0))]))]);
    let parts = vec![word("o"), word("inner"), word("x")];
    let mut inner = match walk_data_path(o, &parts[..2], 1) {
        Ok(Walk::Done(v)) => v,
        other => panic!("expected the inner object, got {other:?}"),
    };
    assert_eq!(write_path_end(&mut inner, &parts[2], integer(99)), Ok(PathWrite::Written));
    assert_eq!(select_field(&inner, &"x".to_string()), Ok(integer(99)));
}
