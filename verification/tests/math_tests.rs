use red_eval::math::{
    abs_native, add, by_zero_error, complement_native, divide, even_q, max_native, min_native, modulo, numeric_add,
    numeric_cmp,
    multiply, negate_native, odd_q, power, rand_next, random_native, shift_left, shift_right,
    subtract, xor_op, Expected, MathError, OpName, RNG_SEED,
};
use red_eval::native::RefineArgs;
use red_eval::printer::{mold_value, print_text};
use red_eval::value::{FloatText, Kind, Value};

fn i(n: i64) -> Value {
    Value::Integer(n)
}

fn pair(x: i64, y: i64) -> Value {
    Value::Pair(Box::new(Value::Integer(x)), Box::new(Value::Integer(y)))
}

fn tuple(b: &[u8]) -> Value {
    Value::Tuple(b.to_vec())
}

fn mold(v: &Value) -> String {
    mold_value(v).unwrap()
}

/// The refinements of `random/seed`.
fn seeded() -> RefineArgs {
    RefineArgs { refs: vec![("seed".to_string(), vec![])] }
}

#[test]
fn int_modulo() {
    assert_eq!(mold(&modulo(&[i(7), i(3)]).unwrap()), "1");
    assert_eq!(mold(&modulo(&[i(10), i(4)]).unwrap()), "2");
}

#[test]
fn modulo_by_zero_errors() {
    assert!(modulo(&[i(7), i(0)]).is_err());
}

#[test]
fn prefix_arith_aliases() {
    assert_eq!(mold(&add(&[i(1), i(2)]).unwrap()), "3");
    assert_eq!(mold(&subtract(&[i(10), i(4)]).unwrap()), "6");
    assert_eq!(mold(&multiply(&[i(3), i(4)]).unwrap()), "12");
    assert_eq!(mold(&divide(&[i(10), i(2)]).unwrap()), "5");
}

#[test]
fn add_alias_concatenates_strings() {
    let r = add(&[Value::Str("ab".to_string()), Value::Str("cd".to_string())]).unwrap();
    assert_eq!(mold(&r), "\"abcd\"");
}

#[test]
fn min_max_int() {
    assert_eq!(mold(&min_native(&[i(3), i(5)]).unwrap()), "3");
    assert_eq!(mold(&max_native(&[i(3), i(5)]).unwrap()), "5");
}

#[test]
fn random_int_in_range() {
    let mut state = 0u64;
    match random_native(&[i(100)], &RefineArgs::empty(), &mut state).unwrap() {
        Value::Integer(n) => assert!((1..=100).contains(&n), "got {n}"),
        other => panic!("expected integer, got {other:?}"),
    }
}

#[test]
fn random_seed_is_deterministic() {
    // random/seed 42 random 100, twice, from different prior states.
    let seed = seeded();
    let mut s1 = 0u64;
    let mut s2 = 12345u64;
    random_native(&[i(42)], &seed, &mut s1).unwrap();
    random_native(&[i(42)], &seed, &mut s2).unwrap();
    let a = random_native(&[i(100)], &RefineArgs::empty(), &mut s1).unwrap();
    let b = random_native(&[i(100)], &RefineArgs::empty(), &mut s2).unwrap();
    assert_eq!(mold(&a), mold(&b));
}

#[test]
fn power_int() {
    assert_eq!(mold(&power(&[i(2), i(3)]).unwrap()), "8");
    assert_eq!(mold(&power(&[i(2), i(10)]).unwrap()), "1024");
}

#[test]
fn even_odd_predicates() {
    assert_eq!(mold(&even_q(&[i(4)]).unwrap()), "true");
    assert_eq!(mold(&even_q(&[i(5)]).unwrap()), "false");
    assert_eq!(mold(&odd_q(&[i(5)]).unwrap()), "true");
    assert_eq!(mold(&odd_q(&[i(4)]).unwrap()), "false");
}

#[test]
fn bitwise_xor() {
    assert_eq!(mold(&xor_op(&[i(5), i(3)])), "6");
}

#[test]
fn complement_works() {
    assert_eq!(mold(&complement_native(&[i(0)]).unwrap()), "-1");
    assert_eq!(mold(&complement_native(&[i(5)]).unwrap()), "-6");
}

#[test]
fn shift_left_right() {
    assert_eq!(mold(&shift_left(&[i(1), i(3)]).unwrap()), "8");
    assert_eq!(mold(&shift_right(&[i(8), i(2)]).unwrap()), "2");
}

#[test]
fn print_modulo_and_power() {
    let mut out = String::new();
    out.push_str(&print_text(&modulo(&[i(7), i(3)]).unwrap()).unwrap());
    out.push_str(&print_text(&power(&[i(2), i(3)]).unwrap()).unwrap());
    assert_eq!(out, "1\n8\n");
}

#[test]
fn pair_add_pair() {
    assert_eq!(mold(&add(&[pair(100, 200), pair(50, 50)]).unwrap()), "150x250");
}

#[test]
fn pair_add_scalar() {
    assert_eq!(mold(&add(&[pair(1, 2), i(10)]).unwrap()), "11x12");
    assert_eq!(mold(&add(&[i(10), pair(1, 2)]).unwrap()), "11x12");
}

#[test]
fn pair_subtract_and_multiply() {
    assert_eq!(mold(&subtract(&[pair(100, 200), pair(50, 50)]).unwrap()), "50x150");
    assert_eq!(mold(&multiply(&[pair(2, 3), pair(3, 4)]).unwrap()), "6x12");
    assert_eq!(mold(&multiply(&[pair(2, 3), i(2)]).unwrap()), "4x6");
}

#[test]
fn pair_divide_scalar() {
    assert_eq!(mold(&divide(&[pair(10, 20), i(2)]).unwrap()), "5x10");
}

#[test]
fn pair_negate_abs_min_max() {
    assert_eq!(mold(&negate_native(&[pair(5, 10)]).unwrap()), "-5x-10");
    assert_eq!(mold(&abs_native(&[pair(-5, -10)]).unwrap()), "5x10");
    assert_eq!(mold(&min_native(&[pair(1, 2), pair(3, 4)]).unwrap()), "1x2");
    assert_eq!(mold(&max_native(&[pair(1, 2), pair(3, 4)]).unwrap()), "3x4");
}

#[test]
fn tuple_add_subtract() {
    assert_eq!(mold(&add(&[tuple(&[255, 0, 0]), tuple(&[0, 10, 0])]).unwrap()), "255.10.0");
    assert_eq!(mold(&subtract(&[tuple(&[255, 0, 0]), tuple(&[10, 20, 30])]).unwrap()), "245.0.0");
}

#[test]
fn tuple_length_mismatch_errors() {
    assert!(add(&[tuple(&[255, 0, 0]), tuple(&[1, 2, 3, 4])]).is_err());
}

#[test]
fn int_minus_pair_errors() {
    assert!(subtract(&[i(10), pair(1, 2)]).is_err());
}

#[test]
fn tuple_division_errors() {
    assert!(divide(&[tuple(&[255, 0, 0]), i(2)]).is_err());
}

// --- further cases ---

#[test]
fn modulo_takes_dividend_sign() {
    assert_eq!(modulo(&[i(-7), i(3)]).unwrap(), i(-1));
    assert_eq!(modulo(&[i(7), i(-3)]).unwrap(), i(1));
    assert_eq!(divide(&[i(-7), i(3)]).unwrap(), i(-2));
    assert_eq!(modulo(&[i(7), i(0)]), Err(MathError::ByZero(OpName::IntegerModulo)));
    assert_eq!(divide(&[i(7), i(0)]), Err(MathError::ByZero(OpName::Division)));
}

#[test]
fn char_arithmetic() {
    assert_eq!(add(&[Value::Char('a'), i(1)]).unwrap(), Value::Char('b'));
    assert_eq!(subtract(&[Value::Char('c'), Value::Char('a')]).unwrap(), i(2));
    assert_eq!(
        subtract(&[i(1), Value::Char('a')]),
        Err(MathError::Type { expected: Expected::SubtractOperand, found: Kind::Integer })
    );
    assert_eq!(
        add(&[Value::Char('a'), i(-1000)]),
        Err(MathError::CharRange { op: OpName::Add, result: -903 })
    );
}

#[test]
fn money_arithmetic() {
    let usd = |c: i64| Value::Money { cents: c, currency: "USD".to_string() };
    let eur = |c: i64| Value::Money { cents: c, currency: "EUR".to_string() };
    assert_eq!(add(&[usd(150), usd(250)]).unwrap(), usd(400));
    assert_eq!(subtract(&[usd(150), i(50)]).unwrap(), usd(100));
    assert_eq!(multiply(&[i(3), usd(150)]).unwrap(), usd(450));
    assert_eq!(divide(&[usd(-7), i(2)]).unwrap(), usd(-3));
    assert_eq!(add(&[usd(1), eur(1)]), Err(MathError::CurrencyMismatch));
    assert_eq!(add(&[usd(i64::MAX), i(1)]), Err(MathError::MoneyOverflow));
    assert_eq!(divide(&[usd(1), i(0)]), Err(MathError::MoneyByZero));
    assert_eq!(divide(&[usd(1), usd(2)]), Err(MathError::FloatArithmetic));
    assert_eq!(
        subtract(&[i(1), usd(1)]),
        Err(MathError::Type { expected: Expected::MoneyMinuend, found: Kind::Integer })
    );
    assert_eq!(
        multiply(&[usd(1), usd(1)]),
        Err(MathError::Type { expected: Expected::MoneyTimesMoney, found: Kind::Money })
    );
}

#[test]
fn tuple_scaling_clamps() {
    assert_eq!(multiply(&[tuple(&[100, 50, 25]), i(2)]).unwrap(), tuple(&[200, 100, 50]));
    assert_eq!(multiply(&[tuple(&[200, 1]), i(-1)]).unwrap(), tuple(&[0, 0]));
    assert_eq!(add(&[tuple(&[200]), i(1)]), Err(MathError::TupleInteger(OpName::Add)));
}

#[test]
fn power_wraps_and_floats() {
    assert_eq!(power(&[i(2), i(64)]).unwrap(), i(0));
    assert_eq!(power(&[i(2), i(-1)]), Err(MathError::FloatArithmetic));
    assert_eq!(power(&[i(2)]), Err(MathError::Arity { wanted: 2, got: 1 }));
}

#[test]
fn float_operands_are_left_to_the_caller() {
    let f = Value::Float(FloatText { text: "2.5".to_string(), finite: true });
    assert_eq!(add(&[i(1), f]), Err(MathError::FloatArithmetic));
}

#[test]
fn shifts_by_negative_amounts() {
    assert_eq!(shift_left(&[i(8), i(-2)]).unwrap(), i(2));
    assert_eq!(shift_right(&[i(1), i(-3)]).unwrap(), i(8));
    assert_eq!(shift_right(&[i(-1), i(60)]).unwrap(), i(15));
}

#[test]
fn xor_of_logic_and_truth() {
    assert_eq!(xor_op(&[Value::Logic(true), Value::Logic(false)]), Value::Logic(true));
    assert_eq!(xor_op(&[Value::NoneVal, i(3)]), Value::Logic(true));
}

#[test]
fn rand_next_is_xorshift() {
    let mut s = 0u64;
    let first = rand_next(&mut s);
    let mut x = RNG_SEED;
    x ^= x << 13;
    x ^= x >> 7;
    x ^= x << 17;
    assert_eq!(first, x);
    assert_eq!(s, x);
}

#[test]
fn random_rejects_non_positive() {
    let mut s = 1u64;
    assert_eq!(random_native(&[i(0)], &RefineArgs::empty(), &mut s), Err(MathError::NotPositive));
    assert_eq!(s, 1);
}

#[test]
fn negate_wraps_at_min() {
    assert_eq!(negate_native(&[i(i64::MIN)]).unwrap(), i(i64::MIN));
    assert_eq!(abs_native(&[i(i64::MIN)]).unwrap(), i(i64::MIN));
}

#[test]
fn for_step_adds_integers_and_chars() {
    assert_eq!(numeric_add(&Value::Integer(3), &Value::Integer(4)), Ok(Value::Integer(7)));
    assert_eq!(numeric_add(&Value::Char('a'), &Value::Integer(2)), Ok(Value::Char('c')));
    assert_eq!(numeric_add(&Value::Char('a'), &Value::Char('b')), Ok(Value::Integer(97 + 98)));
    assert_eq!(numeric_add(&Value::Integer(1), &Value::Char('a')), Ok(Value::Integer(98)));
}

#[test]
fn for_step_errors() {
    assert_eq!(numeric_add(&Value::Integer(i64::MAX), &Value::Integer(1)), Err(MathError::StepOverflow));
    assert_eq!(numeric_add(&Value::Char('a'), &Value::Integer(-98)), Err(MathError::StepRange(-1)));
    assert_eq!(
        numeric_add(&Value::Str("x".to_string()), &Value::Integer(1)),
        Err(MathError::Type { expected: Expected::Number, found: Kind::Str })
    );
    let f = Value::Float(FloatText { text: "1.5".to_string(), finite: true });
    assert_eq!(numeric_add(&Value::Integer(1), &f), Err(MathError::FloatArithmetic));
    assert_eq!(numeric_add(&Value::Integer(i64::MAX), &Value::Char('a')), Err(MathError::FloatArithmetic));
}

#[test]
fn for_compares_counter_with_end() {
    assert_eq!(numeric_cmp(&Value::Integer(1), &Value::Integer(2)), Ok(Some(std::cmp::Ordering::Less)));
    assert_eq!(numeric_cmp(&Value::Char('b'), &Value::Integer(98)), Ok(Some(std::cmp::Ordering::Equal)));
    assert_eq!(numeric_cmp(&Value::Integer(5), &Value::Char('a')), Ok(Some(std::cmp::Ordering::Less)));
    assert_eq!(numeric_cmp(&Value::Integer(200), &Value::Char('a')), Ok(Some(std::cmp::Ordering::Greater)));
    assert_eq!(numeric_cmp(&Value::Str("x".to_string()), &Value::Integer(2)), Ok(None));
    assert_eq!(numeric_cmp(&Value::Integer(i64::MAX), &Value::Integer(1)), Err(MathError::FloatArithmetic));
}

#[test]
fn division_by_zero_raises_a_math_error() {
    assert_eq!(divide(&[i(1), i(0)]), Err(MathError::ByZero(OpName::Division)));
    let e = by_zero_error(OpName::Division);
    assert_eq!(e.message, "math error: division by zero");
    assert_eq!(e.code, Some(400));
    assert_eq!(e.kind, Some("math".to_string()));
    assert!(e.args.is_empty() && e.near.is_none());
    assert_eq!(by_zero_error(OpName::IntegerModulo).message, "math error: integer modulo by zero");
}

#[test]
fn tuple_multiply_float() {
    let t = tuple(&[100, 50, 25]);
    let half = Value::Float(FloatText { text: "0.5".to_string(), finite: true });
    // The float scaling is float work, which the caller computes.
    assert_eq!(multiply(&[tuple(&[100, 50, 25]), half]), Err(MathError::FloatArithmetic));
    assert_eq!(mold(&multiply(&[t, i(2)]).unwrap()), "200.100.50");
}

#[test]
fn tuple_plus_float_is_a_type_error() {
    let f = Value::Float(FloatText { text: "1.5".to_string(), finite: true });
    assert_eq!(add(&[tuple(&[10, 20, 30]), f]), Err(MathError::TupleFloat(OpName::Add)));
}

#[test]
fn abs_works() {
    assert_eq!(mold(&abs_native(&[i(-5)]).unwrap()), "5");
    assert_eq!(mold(&abs_native(&[i(5)]).unwrap()), "5");
    let f = Value::Float(FloatText { text: "-2.5".to_string(), finite: true });
    assert_eq!(abs_native(&[f]), Err(MathError::FloatArithmetic));
}

#[test]
fn negate_works() {
    assert_eq!(mold(&negate_native(&[i(5)]).unwrap()), "-5");
    assert_eq!(mold(&negate_native(&[i(-3)]).unwrap()), "3");
    let f = Value::Float(FloatText { text: "2.5".to_string(), finite: true });
    assert_eq!(negate_native(&[f]), Err(MathError::FloatArithmetic));
}
