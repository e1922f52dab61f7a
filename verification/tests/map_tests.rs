use red_eval::map::{
    keys_of_native, map_key_from, part_to_map_key, put_native, select_map_field,
    select_map_key, MapError,
};
use red_eval::printer::mold_value;
use red_eval::value::{Kind, MapKey, Value};

fn sym(w: &str) -> MapKey {
    MapKey::Sym(w.to_string())
}

fn word(w: &str) -> Value {
    Value::Word(w.to_string())
}

fn mold(v: &Value) -> String {
    mold_value(v).unwrap()
}

/// `m/word` on a map value; `none` when the key is absent.
fn field(m: &Value, w: &str) -> Value {
    match m {
        Value::MapVal(entries) => match select_map_field(entries, &w.to_string()) {
            Some(Value::Integer(n)) => Value::Integer(*n),
            Some(other) => panic!("unexpected {other:?}"),
            None => Value::NoneVal,
        },
        other => panic!("expected map!, got {other:?}"),
    }
}

#[test]
fn map_predicate() {
    assert_eq!(mold(&red_eval::map::map_predicate(&[Value::MapVal(vec![])]).unwrap()), "true");
    assert_eq!(mold(&red_eval::map::map_predicate(&[Value::Block(vec![])]).unwrap()), "false");
}

#[test]
fn map_missing_key_returns_none() {
    // m: make map! [a 1]  m/missing
    let m = Value::MapVal(vec![(sym("a"), Value::Integer(1))]);
    assert_eq!(mold(&field(&m, "missing")), "none");
}

#[test]
fn map_put_inserts_and_returns_none() {
    // m: make map! []  put m 'a 1  m/a
    let (m, prev) = put_native(vec![Value::MapVal(vec![]), word("a"), Value::Integer(1)]).unwrap();
    assert_eq!(mold(&field(&m, "a")), "1");
    assert_eq!(mold(&prev), "none");
}

#[test]
fn map_put_replace_returns_old() {
    // m: make map! [a 1]  put m 'a 9
    let m = Value::MapVal(vec![(sym("a"), Value::Integer(1))]);
    let (m, prev) = put_native(vec![m, word("a"), Value::Integer(9)]).unwrap();
    assert_eq!(mold(&prev), "1");
    assert_eq!(mold(&field(&m, "a")), "9");
}

#[test]
fn map_unhashable_key_errors() {
    // m: make map! []  put m [] 1
    let r = put_native(vec![Value::MapVal(vec![]), Value::Block(vec![]), Value::Integer(1)]);
    assert!(r.is_err(), "expected error for block key");
    let err = r.unwrap_err().message();
    assert!(err.contains("not hashable") || err.contains("hashable"), "got: {err}");
}

// --- further cases ---

#[test]
fn put_keeps_insertion_order() {
    let m = Value::MapVal(vec![(sym("a"), Value::Integer(1)), (sym("b"), Value::Integer(2))]);
    let (m, _) = put_native(vec![m, word("a"), Value::Integer(3)]).unwrap();
    let (m, _) = put_native(vec![m, Value::Integer(7), Value::Integer(4)]).unwrap();
    assert_eq!(
        m,
        Value::MapVal(vec![
            (sym("a"), Value::Integer(3)),
            (sym("b"), Value::Integer(2)),
            (MapKey::Int(7), Value::Integer(4)),
        ])
    );
    let keys = keys_of_native(&[m]).unwrap();
    assert_eq!(mold(&keys), "[a b 7]");
}

#[test]
fn field_falls_back_to_string_key() {
    let m = Value::MapVal(vec![(MapKey::Str("name".to_string()), Value::Integer(5))]);
    assert_eq!(field(&m, "name"), Value::Integer(5));
}

#[test]
fn select_by_key() {
    let entries = vec![(MapKey::Char('c'), Value::Integer(3))];
    assert_eq!(select_map_key(&entries, &MapKey::Char('c')), Some(&Value::Integer(3)));
    assert_eq!(select_map_key(&entries, &MapKey::Char('d')), None);
}

#[test]
fn keys_from_values() {
    assert_eq!(map_key_from(&Value::Logic(true)), Some(MapKey::Bool(true)));
    assert_eq!(map_key_from(&Value::NoneVal), Some(MapKey::Blank));
    assert_eq!(map_key_from(&Value::Tuple(vec![1])), None);
    assert_eq!(part_to_map_key(&Value::Tuple(vec![1])), Err(MapError::Unhashable(Kind::Tuple)));
}

#[test]
fn put_errors() {
    assert_eq!(
        put_native(vec![Value::Integer(1), word("a"), Value::Integer(1)]),
        Err(MapError::NotMap(Kind::Integer))
    );
    assert_eq!(put_native(vec![]), Err(MapError::Arity { wanted: 3, got: 0 }));
    assert_eq!(
        MapError::Unhashable(Kind::Block).message(),
        "map: key type block! is not hashable"
    );
}
