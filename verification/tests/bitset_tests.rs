use red_eval::bitset::{
    charset_native, difference_native, extract_predicate, intersect_native, make_bitset,
    to_bitset, union_native, BitsetError, SetOp,
};
use red_eval::math::complement_native;
use red_eval::printer::mold_value;
use red_eval::value::{Kind, Value};

fn s(t: &str) -> Value {
    Value::Str(t.to_string())
}

fn mold(v: &Value) -> String {
    mold_value(v).unwrap()
}

fn charset(t: &str) -> Value {
    charset_native(&[s(t)]).unwrap()
}

fn dash() -> Value {
    Value::Word("-".to_string())
}

#[test]
fn charset_string_molds_back() {
    assert_eq!(mold(&charset("ABC")), "make bitset! \"ABC\"");
}

#[test]
fn make_bitset_string_molds_back() {
    assert_eq!(mold(&make_bitset(&s("abc")).unwrap()), "make bitset! \"abc\"");
}

#[test]
fn make_bitset_char_singleton() {
    let v = make_bitset(&Value::Char('a')).unwrap();
    assert!(matches!(v, Value::Bitset(_)));
    assert_eq!(mold(&v), "make bitset! \"a\"");
}

#[test]
fn make_bitset_range_block() {
    let spec = Value::Block(vec![Value::Char('a'), dash(), Value::Char('z')]);
    let v = make_bitset(&spec).unwrap();
    let expected: String = ('a'..='z').collect();
    assert_eq!(mold(&v), format!("make bitset! {expected:?}"));
}

#[test]
fn make_bitset_integer_range_block() {
    let spec = Value::Block(vec![Value::Integer(48), dash(), Value::Integer(57)]);
    let v = make_bitset(&spec).unwrap();
    let expected: String = ('0'..='9').collect();
    assert_eq!(mold(&v), format!("make bitset! {expected:?}"));
}

#[test]
fn make_bitset_copy() {
    // a: charset "x"  b: make bitset! a  b: difference b charset "x"
    let a = charset("x");
    let b = make_bitset(&a).unwrap();
    let b = difference_native(&mut vec![b, charset("x")]).unwrap();
    let v = extract_predicate(&[Value::Char('x'), a]).unwrap();
    let _ = mold(&v);
    assert_eq!(v, Value::Logic(true));
    assert_eq!(mold(&b), "make bitset! \"\"");
}

#[test]
fn extract_predicate_true() {
    assert_eq!(mold(&extract_predicate(&[Value::Char('A'), charset("ABC")]).unwrap()), "true");
}

#[test]
fn extract_predicate_false() {
    assert_eq!(mold(&extract_predicate(&[Value::Char('z'), charset("ABC")]).unwrap()), "false");
}

#[test]
fn extract_predicate_integer_byte() {
    assert_eq!(mold(&extract_predicate(&[Value::Integer(65), charset("ABC")]).unwrap()), "true");
}

#[test]
fn union_combines_bits() {
    let mut args = vec![charset("AB"), charset("CD")];
    let v = union_native(&mut args).unwrap();
    assert_eq!(mold(&v), "make bitset! \"ABCD\"");
    assert_eq!(mold(&args[0]), "make bitset! \"ABCD\"");
    assert_eq!(mold(&args[1]), "make bitset! \"CD\"");
}

#[test]
fn intersect_keeps_overlap() {
    let mut args = vec![charset("ABCD"), charset("BE")];
    let v = intersect_native(&mut args).unwrap();
    assert_eq!(mold(&v), "make bitset! \"B\"");
    assert_eq!(mold(&args[0]), "make bitset! \"B\"");
}

#[test]
fn difference_removes_bits() {
    let mut args = vec![charset("ABCD"), charset("BC")];
    let v = difference_native(&mut args).unwrap();
    assert_eq!(mold(&v), "make bitset! \"AD\"");
    assert_eq!(mold(&args[0]), "make bitset! \"AD\"");
}

#[test]
fn complement_native_flips_bits() {
    let v = complement_native(&[charset("A")]).unwrap();
    assert!(matches!(v, Value::Bitset(_)));
}

#[test]
fn to_bitset_from_binary() {
    let v = to_bitset(&[Value::Binary(vec![0xFF])]).unwrap();
    assert!(matches!(v, Value::Bitset(_)));
    let ext = |n: i64| {
        let b = to_bitset(&[Value::Binary(vec![0xFF])]).unwrap();
        mold(&extract_predicate(&[Value::Integer(n), b]).unwrap())
    };
    assert_eq!(ext(0), "true");
    assert_eq!(ext(7), "true");
    assert_eq!(ext(8), "false");
}

#[test]
fn make_bitset_empty_block() {
    assert_eq!(mold(&make_bitset(&Value::Block(vec![])).unwrap()), "make bitset! \"\"");
}

// --- further cases ---

#[test]
fn complement_molds_as_hex() {
    let v = complement_native(&[charset("A")]).unwrap();
    let m = mold(&v);
    // 256 bits, all set but bit 65: byte 8 lacks its bit 1.
    assert_eq!(
        m,
        "make bitset! #{FFFFFFFFFFFFFFFFFDFFFFFFFFFFFFFFFFFFFFFFFFFFFFFFFFFFFFFFFFFFFFFF}"
    );
}

#[test]
fn block_spec_mixes_forms() {
    let spec = Value::Block(vec![
        s("ab"),
        Value::Char('z'),
        Value::Integer(300),
        Value::Block(vec![Value::Char('0')]),
        Value::Binary(vec![b'!']),
    ]);
    assert_eq!(mold(&make_bitset(&spec).unwrap()), "make bitset! \"!0abz\"");
}

#[test]
fn reversed_range_is_the_same_range() {
    let spec = Value::Block(vec![Value::Char('c'), dash(), Value::Char('a')]);
    assert_eq!(mold(&make_bitset(&spec).unwrap()), "make bitset! \"abc\"");
}

#[test]
fn bitset_errors() {
    assert_eq!(make_bitset(&Value::Integer(-1)), Err(BitsetError::NegativeSize(-1)));
    assert_eq!(make_bitset(&Value::NoneVal), Err(BitsetError::BadSpec(Kind::Blank)));
    let mut args = vec![charset("a"), Value::Integer(1)];
    assert_eq!(union_native(&mut args), Err(BitsetError::NotBitset { op: SetOp::Union, found: Kind::Integer }));
    assert_eq!(mold(&args[0]), "make bitset! \"a\"");
    assert_eq!(
        extract_predicate(&[s("a"), charset("a")]),
        Err(BitsetError::NotIndex(Kind::Str))
    );
    assert_eq!(to_bitset(&[]), Err(BitsetError::Arity { wanted: 1, got: 0 }));
}

#[test]
fn sized_bitset_is_empty() {
    match make_bitset(&Value::Integer(10)).unwrap() {
        Value::Bitset(bits) => {
            assert_eq!(bits.len(), 10);
            assert!(bits.iter().all(|b| !b));
        }
        other => panic!("expected bitset!, got {other:?}"),
    }
}
