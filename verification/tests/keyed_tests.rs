use red_eval::keyed::{keyed_start, to_keyed, KeyedBuild, KeyedError, KeyedKind, KeyedStart, KeyedStep};
use red_eval::map::{keys_of_native, select_map_field, select_map_key};
use red_eval::printer::mold_value;
use red_eval::value::{Kind, MapKey, Value};

fn s(t: &str) -> Value {
    Value::Str(t.to_string())
}

fn w(t: &str) -> Value {
    Value::Word(t.to_string())
}

fn sw(t: &str) -> Value {
    Value::SetWord(t.to_string())
}

fn block(items: Vec<Value>) -> Value {
    Value::Block(items)
}

fn mold(v: &Value) -> String {
    mold_value(v).unwrap()
}

/// The value of one expression of `data` from `start`, and where it ends:
/// the spec blocks of these tests hold literal values, which evaluate to
/// themselves.
fn eval_at(data: &[Value], start: usize) -> (Value, usize) {
    match &data[start] {
        Value::Integer(n) => (Value::Integer(*n), start + 1),
        Value::Str(t) => (Value::Str(t.clone()), start + 1),
        Value::Char(c) => (Value::Char(*c), start + 1),
        Value::Logic(b) => (Value::Logic(*b), start + 1),
        other => panic!("cannot evaluate {other:?}"),
    }
}

/// Walks a spec block to the end.
fn walk(mut b: KeyedBuild) -> Result<Value, KeyedError> {
    loop {
        match b.step() {
            KeyedStep::Continue => {}
            KeyedStep::EvaluateSpec { start } => {
                let (v, end) = eval_at(&b.data, start);
                b.resume_spec(v, end);
            }
            KeyedStep::EvaluatePair { pair } => {
                let (v, _) = eval_at(&pair, 1);
                b.resume_pair(v);
            }
            KeyedStep::Done(v) => return Ok(v),
            KeyedStep::Failed(e) => return Err(e),
        }
    }
}

/// `make map! spec` / `make hash! spec`.
fn make(which: KeyedKind, spec: &Value) -> Result<Value, KeyedError> {
    match keyed_start(which, spec)? {
        KeyedStart::Built(v) => Ok(v),
        KeyedStart::Walk(b) => walk(b),
    }
}

fn make_map(spec: Value) -> Value {
    make(KeyedKind::MapKind, &spec).unwrap()
}

fn make_hash(spec: Value) -> Value {
    make(KeyedKind::HashKind, &spec).unwrap()
}

fn field(m: &Value, name: &str) -> Value {
    match m {
        Value::MapVal(entries) | Value::Hash(entries) => match select_map_field(entries, &name.to_string()) {
            Some(v) => red_eval::value::clone_value(v),
            None => Value::NoneVal,
        },
        other => panic!("expected map!, got {other:?}"),
    }
}

fn object_ab() -> Value {
    Value::Object(vec![("a".to_string(), Value::Integer(1)), ("b".to_string(), Value::Integer(2))])
}

#[test]
fn make_map_setword_molds_back() {
    let m = make_map(block(vec![sw("a"), Value::Integer(1), sw("b"), Value::Integer(2)]));
    assert_eq!(mold(&m), "make map! [a: 1 b: 2]");
}

#[test]
fn make_map_word_pair_form() {
    let m = make_map(block(vec![w("a"), Value::Integer(1), w("b"), Value::Integer(2)]));
    assert_eq!(mold(&m), "make map! [a: 1 b: 2]");
}

#[test]
fn make_map_empty() {
    assert_eq!(mold(&make_map(block(vec![]))), "make map! []");
}

#[test]
fn map_field_access_word_key() {
    let m = make_map(block(vec![sw("a"), Value::Integer(1)]));
    assert_eq!(mold(&field(&m, "a")), "1");
}

#[test]
fn map_heterogeneous_keys_round_trip() {
    let m = make_map(block(vec![
        w("a"),
        Value::Integer(1),
        Value::Integer(2),
        s("two"),
        Value::Char('c'),
        Value::Integer(3),
    ]));
    assert_eq!(mold(&m), "make map! [a: 1 2 \"two\" #\"c\" 3]");
}

#[test]
fn map_insertion_order_preserved() {
    let m = make_map(block(vec![
        w("a"),
        Value::Integer(1),
        Value::Integer(2),
        s("two"),
        Value::Char('c'),
        Value::Integer(3),
    ]));
    assert_eq!(mold(&keys_of_native(&[m]).unwrap()), "[a 2 #\"c\"]");
}

#[test]
fn map_integer_key_path() {
    let m = make_map(block(vec![Value::Integer(1), s("one")]));
    match &m {
        Value::MapVal(entries) => {
            assert_eq!(mold(select_map_key(entries, &MapKey::Int(1)).unwrap()), "\"one\"");
        }
        other => panic!("got {other:?}"),
    }
}

#[test]
fn map_string_key_via_select() {
    let m = make_map(block(vec![s("k"), Value::Integer(99)]));
    match &m {
        Value::MapVal(entries) => {
            assert_eq!(mold(select_map_key(entries, &MapKey::Str("k".to_string())).unwrap()), "99");
        }
        other => panic!("got {other:?}"),
    }
}

#[test]
fn map_char_key_via_select() {
    let m = make_map(block(vec![Value::Char('x'), Value::Integer(7)]));
    match &m {
        Value::MapVal(entries) => {
            assert_eq!(mold(select_map_key(entries, &MapKey::Char('x')).unwrap()), "7");
        }
        other => panic!("got {other:?}"),
    }
}

#[test]
fn map_to_map_from_object() {
    let m = match to_keyed(KeyedKind::MapKind, &[object_ab()]).unwrap() {
        KeyedStart::Built(v) => v,
        KeyedStart::Walk(_) => panic!("an object is converted at once"),
    };
    assert_eq!(mold(&field(&m, "a")), "1");
}

#[test]
fn map_make_from_object() {
    let o = Value::Object(vec![("a".to_string(), Value::Integer(1))]);
    let m = make_map(o);
    assert_eq!(mold(&field(&m, "a")), "1");
}

#[test]
fn map_pair_block_form() {
    let m = make_map(block(vec![block(vec![w("a"), Value::Integer(1)]), block(vec![w("b"), Value::Integer(2)])]));
    assert_eq!(mold(&m), "make map! [a: 1 b: 2]");
}

#[test]
fn make_hash_setword_molds_back() {
    let h = make_hash(block(vec![sw("a"), Value::Integer(1), sw("b"), Value::Integer(2)]));
    assert_eq!(mold(&h), "make hash! [a: 1 b: 2]");
}

#[test]
fn make_hash_word_pair_form() {
    let h = make_hash(block(vec![w("a"), Value::Integer(1), w("b"), Value::Integer(2)]));
    assert_eq!(mold(&h), "make hash! [a: 1 b: 2]");
}

#[test]
fn make_hash_empty() {
    assert_eq!(mold(&make_hash(block(vec![]))), "make hash! []");
}

#[test]
fn hash_to_hash_copies() {
    let h = make_hash(block(vec![w("a"), Value::Integer(1)]));
    let copy = match to_keyed(KeyedKind::HashKind, &[h]).unwrap() {
        KeyedStart::Built(v) => v,
        KeyedStart::Walk(_) => panic!("a hash is copied at once"),
    };
    assert_eq!(mold(&copy), "make hash! [a: 1]");
}

#[test]
fn hash_from_map() {
    let m = make_map(block(vec![sw("a"), Value::Integer(1), sw("b"), Value::Integer(2)]));
    assert_eq!(mold(&make_hash(m)), "make hash! [a: 1 b: 2]");
}

// --- further cases ---

#[test]
fn later_values_replace_earlier_ones() {
    let m = make_map(block(vec![w("a"), Value::Integer(1), sw("b"), Value::Integer(2), sw("a"), Value::Integer(3)]));
    assert_eq!(mold(&m), "make map! [a: 3 b: 2]");
}

#[test]
fn a_trailing_key_gets_none() {
    assert_eq!(mold(&make_map(block(vec![sw("a")]))), "make map! [a: none]");
    assert_eq!(mold(&make_map(block(vec![w("a"), Value::Integer(1), w("b")]))), "make map! [a: 1 b: none]");
}

#[test]
fn objects_leave_out_self() {
    let o = Value::Object(vec![("self".to_string(), Value::NoneVal), ("x".to_string(), Value::Integer(5))]);
    assert_eq!(mold(&make_map(o)), "make map! [x: 5]");
}

#[test]
fn keyed_errors() {
    assert_eq!(
        make(KeyedKind::MapKind, &block(vec![block(vec![w("a")])])),
        Err(KeyedError::PairBlock(KeyedKind::MapKind))
    );
    assert_eq!(
        make(KeyedKind::HashKind, &block(vec![block(vec![]), Value::Integer(1)])),
        Err(KeyedError::PairBlock(KeyedKind::HashKind))
    );
    let e = make(KeyedKind::MapKind, &block(vec![Value::Tuple(vec![1, 2, 3]), Value::Integer(1)])).unwrap_err();
    assert_eq!(e, KeyedError::Unhashable(KeyedKind::MapKind, Kind::Tuple));
    assert_eq!(e.message(), "map: key type tuple! is not hashable");
    let h = make_hash(block(vec![]));
    assert_eq!(make(KeyedKind::MapKind, &h).unwrap_err(), KeyedError::BadSpec(KeyedKind::MapKind, Kind::Hash));
    assert_eq!(
        make(KeyedKind::HashKind, &Value::Integer(1)).unwrap_err().message(),
        "expected block!, object!, map!, or hash!, found integer!"
    );
    assert!(matches!(to_keyed(KeyedKind::MapKind, &[]), Err(KeyedError::Arity)));
}

#[test]
fn hash_predicate() {
    assert_eq!(mold(&red_eval::keyed::hash_predicate(&[make_hash(block(vec![]))]).unwrap()), "true");
    assert_eq!(mold(&red_eval::keyed::hash_predicate(&[make_map(block(vec![]))]).unwrap()), "false");
}
