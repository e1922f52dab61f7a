//! The integer side of Red's arithmetic: `+ - * /`, `//` (modulo), `**`,
//! `abs`, `negate`, `min`, `max`, `even?`, `odd?`, `random`, and the bitwise
//! `xor`, `complement`, `shift-left` and `shift-right`.
//!
//! Integers, chars, pairs, tuples and money are computed here exactly.
//! Wherever a `float!` or `percent!` takes part, the result is a float, and
//! the operation answers `MathError::FloatArithmetic` instead; likewise
//! calendar arithmetic on `date!` values answers `MathError::Calendar`.
use vstd::prelude::*;

use crate::native::RefineArgs;
use crate::text::char_from_u32;
use crate::value::{kind, kind_of, truthy, truthy_spec, ErrorValue, ErrorView, Kind, Value, ValueView};

verus! {

broadcast use vstd::string::group_string_axioms;

/// What an operation asked of an operand it refused.
#[derive(Clone, Copy, Debug, PartialEq, Eq)]
pub enum Expected {
    /// `integer! or float!`
    Number,
    /// `char! or integer!`
    CharOrInteger,
    /// `integer!`
    Integer,
    /// `number! or pair!`
    NumberOrPair,
    /// `number!`
    Numeric,
    /// `pair!`
    PairOnly,
    /// `integer! or bitset!`
    IntegerOrBitset,
    /// `char!, pair!, tuple!, or float!` (the left side of a subtraction
    /// whose right side is a char, pair or tuple)
    SubtractOperand,
    /// `integer!` beside a `money!` operand
    MoneyInteger,
    /// `integer!` as the other factor of a `money!` product
    MoneyTimesMoney,
    /// `money!` on the left of a subtraction from money
    MoneyMinuend,
    /// `money!` on the left of a division by money
    MoneyDividend,
}

/// The wording of an expectation in an error message.
pub open spec fn expected_text(e: Expected) -> Seq<char> {
    match e {
        Expected::Number => "integer! or float!"@,
        Expected::CharOrInteger => "char! or integer!"@,
        Expected::Integer => "integer!"@,
        Expected::NumberOrPair => "number! or pair!"@,
        Expected::Numeric => "number!"@,
        Expected::PairOnly => "pair!"@,
        Expected::IntegerOrBitset => "integer! or bitset!"@,
        Expected::SubtractOperand => "char!, pair!, tuple!, or float!"@,
        Expected::MoneyInteger => "integer! (money arithmetic with non-int is a type error)"@,
        Expected::MoneyTimesMoney => "integer! (money * money is not supported)"@,
        Expected::MoneyMinuend => "money! (scalar - money is asymmetric)"@,
        Expected::MoneyDividend => "money! (scalar / money is asymmetric)"@,
    }
}

impl Expected {
    /// The wording of the expectation in an error message.
    pub fn text(&self) -> (r: &'static str)
        ensures
            r@ == expected_text(*self),
    {
        match self {
            Expected::Number => "integer! or float!",
            Expected::CharOrInteger => "char! or integer!",
            Expected::Integer => "integer!",
            Expected::NumberOrPair => "number! or pair!",
            Expected::Numeric => "number!",
            Expected::PairOnly => "pair!",
            Expected::IntegerOrBitset => "integer! or bitset!",
            Expected::SubtractOperand => "char!, pair!, tuple!, or float!",
            Expected::MoneyInteger => "integer! (money arithmetic with non-int is a type error)",
            Expected::MoneyTimesMoney => "integer! (money * money is not supported)",
            Expected::MoneyMinuend => "money! (scalar - money is asymmetric)",
            Expected::MoneyDividend => "money! (scalar / money is asymmetric)",
        }
    }
}

/// The name an error message gives the operation that failed.
#[derive(Clone, Copy, Debug, PartialEq, Eq)]
pub enum OpName {
    Add,
    Subtract,
    Subtraction,
    Multiply,
    Division,
    IntegerModulo,
}

/// The operation's name as the messages spell it.
pub open spec fn op_text(op: OpName) -> Seq<char> {
    match op {
        OpName::Add => "add"@,
        OpName::Subtract => "subtract"@,
        OpName::Subtraction => "subtraction"@,
        OpName::Multiply => "multiply"@,
        OpName::Division => "division"@,
        OpName::IntegerModulo => "integer modulo"@,
    }
}

impl OpName {
    /// The operation's name as the messages spell it.
    pub fn text(&self) -> (r: &'static str)
        ensures
            r@ == op_text(*self),
    {
        match self {
            OpName::Add => "add",
            OpName::Subtract => "subtract",
            OpName::Subtraction => "subtraction",
            OpName::Multiply => "multiply",
            OpName::Division => "division",
            OpName::IntegerModulo => "integer modulo",
        }
    }
}

/// Why an arithmetic native refused its arguments.
#[derive(Clone, Copy, Debug, PartialEq, Eq)]
pub enum MathError {
    /// The native was called with `got` arguments instead of `wanted`.
    Arity { wanted: usize, got: usize },
    /// An operand of the wrong datatype.
    Type { expected: Expected, found: Kind },
    /// A `math` error (code 400): "math error: <op> by zero".
    ByZero(OpName),
    /// Char arithmetic whose result `result` is no Unicode scalar value.
    CharRange { op: OpName, result: i64 },
    /// Tuples of different lengths.
    TupleLength { op: OpName, left: usize, right: usize },
    /// `tuple OP integer` with an operation other than `*`.
    TupleInteger(OpName),
    /// `tuple OP float` with an operation other than `*`.
    TupleFloat(OpName),
    /// A scalar on the left of a tuple.
    ScalarTuple(OpName),
    /// A tuple divided, or divided by.
    TupleDivision,
    /// Money amounts in two currencies.
    CurrencyMismatch,
    /// A money amount that left the range of its cents.
    MoneyOverflow,
    /// A money amount divided by zero.
    MoneyByZero,
    /// `random` of a number that is not positive.
    NotPositive,
    /// A float or percent takes part: the result is a float.
    FloatArithmetic,
    /// Calendar arithmetic on dates.
    Calendar,
    /// A `for` step from a char to `result`, which is no Unicode scalar
    /// value.
    StepRange(i64),
    /// A `for` step on integers that overflowed.
    StepOverflow,
}

// ---------------------------------------------------------------------------
// Integer arithmetic as Rust's i64 operators compute it
// ---------------------------------------------------------------------------

/// The four operators `+ - * /` on integers.
#[derive(Clone, Copy, Debug, PartialEq, Eq)]
pub enum Arith {
    Add,
    Sub,
    Mul,
    Div,
}

pub open spec fn abs_int(x: int) -> int {
    if x < 0 {
        -x
    } else {
        x
    }
}

/// Division truncated toward zero (Rust's `/` on integers).
pub open spec fn trunc_div(x: int, d: int) -> int {
    if x == 0 {
        0
    } else if x > 0 && d > 0 {
        x / d
    } else if x < 0 && d < 0 {
        (x * -1) / (d * -1)
    } else if x < 0 {
        ((x * -1) / d) * -1
    } else {
        (x / (d * -1)) * -1
    }
}

/// The remainder that goes with `trunc_div`: it takes the dividend's sign
/// (Rust's `%` on integers).
pub open spec fn trunc_rem(x: int, d: int) -> int {
    if x == 0 {
        0
    } else if x > 0 && d > 0 {
        x % d
    } else if x < 0 && d < 0 {
        ((x * -1) % (d * -1)) * -1
    } else if x < 0 {
        ((x * -1) % d) * -1
    } else {
        x % (d * -1)
    }
}

pub open spec fn fits_i64(r: int) -> bool {
    i64::MIN <= r <= i64::MAX
}

/// The exact result of `x op y`; `None` for a division by zero.
pub open spec fn int_arith(op: Arith, x: int, y: int) -> Option<int> {
    match op {
        Arith::Add => Some(x + y),
        Arith::Sub => Some(x - y),
        Arith::Mul => Some(x * y),
        Arith::Div => if y == 0 {
            None
        } else {
            Some(trunc_div(x, y))
        },
    }
}

/// `x op y` does not overflow `i64` (where Rust would panic).
pub open spec fn int_arith_fits(op: Arith, x: int, y: int) -> bool {
    int_arith(op, x, y) matches Some(r) ==> fits_i64(r)
}

fn int_op(op: Arith, x: i64, y: i64) -> (r: Option<i64>)
    requires
        int_arith_fits(op, x as int, y as int),
    ensures
        r == (match int_arith(op, x as int, y as int) {
            Some(v) => Some(v as i64),
            None => None,
        }),
{
    match op {
        Arith::Add => Some(x + y),
        Arith::Sub => Some(x - y),
        Arith::Mul => Some(x * y),
        Arith::Div => x.checked_div(y),
    }
}

// ---------------------------------------------------------------------------
// Numbers
// ---------------------------------------------------------------------------

/// A result with its value taken by its view.
pub open spec fn view_res(r: Result<Value, MathError>) -> Result<ValueView, MathError> {
    match r {
        Ok(v) => Ok(v@),
        Err(e) => Err(e),
    }
}

/// An optional result with its value taken by its view.
pub open spec fn view_opt(r: Option<Result<Value, MathError>>) -> Option<
    Result<ValueView, MathError>,
> {
    match r {
        Some(x) => Some(view_res(x)),
        None => None,
    }
}

/// The numeric payload of an operand: an integer, or a float (a `float!` or
/// a `percent!`, which arithmetic promotes to its fractional float).
pub enum Num {
    Int(i64),
    Float,
}

pub open spec fn as_num(v: ValueView) -> Option<Num> {
    match v {
        ValueView::Integer(n) => Some(Num::Int(n)),
        ValueView::Float(_) => Some(Num::Float),
        ValueView::Percent(_) => Some(Num::Float),
        _ => None,
    }
}

/// The type error for an operand that is not a number.
pub open spec fn number_error(v: ValueView) -> MathError {
    MathError::Type { expected: Expected::Number, found: kind_of(v) }
}

/// The error an integer division by zero raises under the name `op`.
pub open spec fn num_binop_spec(a: ValueView, b: ValueView, op: Arith, name: OpName) -> Result<
    ValueView,
    MathError,
> {
    match (as_num(a), as_num(b)) {
        (None, _) => Err(number_error(a)),
        (Some(_), None) => Err(number_error(b)),
        (Some(Num::Int(x)), Some(Num::Int(y))) => match int_arith(op, x as int, y as int) {
            Some(r) => Ok(ValueView::Integer(r as i64)),
            None => Err(MathError::ByZero(name)),
        },
        _ => Err(MathError::FloatArithmetic),
    }
}

/// `num_binop` on these operands does not overflow.
pub open spec fn num_binop_fits(a: ValueView, b: ValueView, op: Arith) -> bool {
    match (a, b) {
        (ValueView::Integer(x), ValueView::Integer(y)) => int_arith_fits(op, x as int, y as int),
        _ => true,
    }
}

fn number_err(v: &Value) -> (e: MathError)
    ensures
        e == number_error(v@),
{
    MathError::Type { expected: Expected::Number, found: kind(v) }
}

fn as_number(v: &Value) -> (r: Option<Num>)
    ensures
        r == as_num(v@),
{
    match v {
        Value::Integer(n) => Some(Num::Int(*n)),
        Value::Float(_) => Some(Num::Float),
        Value::Percent(_) => Some(Num::Float),
        _ => None,
    }
}

/// A numeric binary operator on two numbers: integer with integer gives an
/// integer; a float on either side makes the result a float.
fn num_binop(a: &Value, b: &Value, op: Arith, name: OpName) -> (r: Result<Value, MathError>)
    requires
        num_binop_fits(a@, b@, op),
    ensures
        view_res(r) == num_binop_spec(a@, b@, op, name),
{
    let x = match as_number(a) {
        Some(x) => x,
        None => return Err(number_err(a)),
    };
    let y = match as_number(b) {
        Some(y) => y,
        None => return Err(number_err(b)),
    };
    match (x, y) {
        (Num::Int(x), Num::Int(y)) => match int_op(op, x, y) {
            Some(r) => Ok(Value::Integer(r)),
            None => Err(MathError::ByZero(name)),
        },
        _ => Err(MathError::FloatArithmetic),
    }
}

// ---------------------------------------------------------------------------
// Char arithmetic
// ---------------------------------------------------------------------------

pub open spec fn valid_scalar(cp: u32) -> bool {
    cp <= 0x10FFFF && !(0xD800 <= cp <= 0xDFFF)
}

/// The char that an arithmetic result `r` names: its low 32 bits taken as
/// a code point, which must be a Unicode scalar value.
pub open spec fn char_result(r: int, name: OpName) -> Result<ValueView, MathError> {
    let cp = (r as i64) as u32;
    if valid_scalar(cp) {
        Ok(ValueView::Char(cp as char))
    } else {
        Err(MathError::CharRange { op: name, result: r as i64 })
    }
}

pub open spec fn char_name(sub: bool) -> OpName {
    if sub {
        OpName::Subtract
    } else {
        OpName::Add
    }
}

pub open spec fn plus_minus(x: int, y: int, sub: bool) -> int {
    if sub {
        x - y
    } else {
        x + y
    }
}

/// Char arithmetic (`+` when `sub` is false, `-` when it is true): `None`
/// when neither operand is a char. Two chars give the integer difference or
/// sum of their code points; a char and an integer give a char.
pub open spec fn char_binop_spec(a: ValueView, b: ValueView, sub: bool) -> Option<
    Result<ValueView, MathError>,
> {
    match (a, b) {
        (ValueView::Char(x), ValueView::Char(y)) => Some(
            Ok(ValueView::Integer(plus_minus(x as int, y as int, sub) as i64)),
        ),
        (ValueView::Char(x), _) => Some(
            if b is Float {
                Err(MathError::Type { expected: Expected::CharOrInteger, found: kind_of(b) })
            } else {
                match as_num(b) {
                    None => Err(number_error(b)),
                    Some(Num::Int(k)) => char_result(plus_minus(x as int, k as int, sub), char_name(sub)),
                    Some(Num::Float) => Err(MathError::FloatArithmetic),
                }
            },
        ),
        (_, ValueView::Char(y)) => Some(
            if a is Float {
                Err(MathError::Type { expected: Expected::CharOrInteger, found: kind_of(a) })
            } else {
                match as_num(a) {
                    None => Err(number_error(a)),
                    Some(Num::Int(n)) => char_result(plus_minus(n as int, y as int, sub), char_name(sub)),
                    Some(Num::Float) => Err(MathError::FloatArithmetic),
                }
            },
        ),
        _ => None,
    }
}

/// The inputs on which char arithmetic completes: a percent beside a char,
/// and an integer sum that leaves `i64`, would panic.
pub open spec fn char_binop_defined(a: ValueView, b: ValueView, sub: bool) -> bool {
    match (a, b) {
        (ValueView::Char(_), ValueView::Char(_)) => true,
        (ValueView::Char(x), _) => !(b is Percent) && (b matches ValueView::Integer(k) ==> fits_i64(
            plus_minus(x as int, k as int, sub),
        )),
        (_, ValueView::Char(y)) => !(a is Percent) && (a matches ValueView::Integer(n) ==> fits_i64(
            plus_minus(n as int, y as int, sub),
        )),
        _ => true,
    }
}

fn char_of(r: i64, sub: bool) -> (out: Result<Value, MathError>)
    ensures
        view_res(out) == char_result(r as int, char_name(sub)),
{
    let cp = r as u32;
    match char_from_u32(cp) {
        Some(c) => Ok(Value::Char(c)),
        None => Err(
            MathError::CharRange { op: if sub {
                OpName::Subtract
            } else {
                OpName::Add
            }, result: r },
        ),
    }
}

fn codepoint(c: char) -> (n: i64)
    ensures
        n == c as int,
        0 <= n <= 0x10FFFF,
{
    (c as u32) as i64
}

fn char_binop(a: &Value, b: &Value, sub: bool) -> (r: Option<Result<Value, MathError>>)
    requires
        char_binop_defined(a@, b@, sub),
    ensures
        view_opt(r) == char_binop_spec(a@, b@, sub),
{
    match (a, b) {
        (Value::Char(x), Value::Char(y)) => {
            let (x, y) = (codepoint(*x), codepoint(*y));
            Some(Ok(Value::Integer(if sub {
                x - y
            } else {
                x + y
            })))
        },
        (Value::Char(x), _) => {
            if let Value::Float(_) = b {
                return Some(Err(MathError::Type { expected: Expected::CharOrInteger, found: kind(b) }));
            }
            match as_number(b) {
                None => Some(Err(number_err(b))),
                Some(Num::Int(k)) => {
                    let x = codepoint(*x);
                    Some(char_of(if sub {
                        x - k
                    } else {
                        x + k
                    }, sub))
                },
                Some(Num::Float) => Some(Err(MathError::FloatArithmetic)),
            }
        },
        (_, Value::Char(y)) => {
            if let Value::Float(_) = a {
                return Some(Err(MathError::Type { expected: Expected::CharOrInteger, found: kind(a) }));
            }
            match as_number(a) {
                None => Some(Err(number_err(a))),
                Some(Num::Int(n)) => {
                    let y = codepoint(*y);
                    Some(char_of(if sub {
                        n - y
                    } else {
                        n + y
                    }, sub))
                },
                Some(Num::Float) => Some(Err(MathError::FloatArithmetic)),
            }
        },
        _ => None,
    }
}

// ---------------------------------------------------------------------------
// Pair arithmetic
// ---------------------------------------------------------------------------

/// A pair built from two component results (the first error wins).
pub open spec fn pair_of(x: Result<ValueView, MathError>, y: Result<ValueView, MathError>) -> Result<
    ValueView,
    MathError,
> {
    match x {
        Err(e) => Err(e),
        Ok(vx) => match y {
            Err(e) => Err(e),
            Ok(vy) => Ok(ValueView::Pair(Box::new(vx), Box::new(vy))),
        },
    }
}

/// Pair arithmetic: `None` when neither operand is a pair. A pair with a
/// pair works componentwise; a pair with a number applies the number to
/// both components.
pub open spec fn pair_binop_spec(a: ValueView, b: ValueView, op: Arith, name: OpName) -> Option<
    Result<ValueView, MathError>,
> {
    match (a, b) {
        (ValueView::Pair(ax, ay), ValueView::Pair(bx, by)) => Some(
            pair_of(num_binop_spec(*ax, *bx, op, name), num_binop_spec(*ay, *by, op, name)),
        ),
        (ValueView::Pair(ax, ay), _) => Some(
            if as_num(b) is None {
                Err(number_error(b))
            } else {
                pair_of(num_binop_spec(*ax, b, op, name), num_binop_spec(*ay, b, op, name))
            },
        ),
        (_, ValueView::Pair(bx, by)) => Some(
            if as_num(a) is None {
                Err(number_error(a))
            } else {
                pair_of(num_binop_spec(a, *bx, op, name), num_binop_spec(a, *by, op, name))
            },
        ),
        _ => None,
    }
}

/// Both components are computed without overflow (the second only where
/// the first succeeded).
pub open spec fn components_fit(ax: ValueView, bx: ValueView, ay: ValueView, by: ValueView, op: Arith) -> bool {
    num_binop_fits(ax, bx, op) && (num_binop_spec(ax, bx, op, OpName::Add) is Ok ==> num_binop_fits(
        ay,
        by,
        op,
    ))
}

pub open spec fn pair_binop_fits(a: ValueView, b: ValueView, op: Arith) -> bool {
    match (a, b) {
        (ValueView::Pair(ax, ay), ValueView::Pair(bx, by)) => components_fit(*ax, *bx, *ay, *by, op),
        (ValueView::Pair(ax, ay), _) => components_fit(*ax, b, *ay, b, op),
        (_, ValueView::Pair(bx, by)) => components_fit(a, *bx, a, *by, op),
        _ => true,
    }
}

proof fn lemma_num_ok_any_name(a: ValueView, b: ValueView, op: Arith, n1: OpName, n2: OpName)
    ensures
        num_binop_spec(a, b, op, n1) is Ok <==> num_binop_spec(a, b, op, n2) is Ok,
{
}

fn pair_parts(
    x: Result<Value, MathError>,
    y: Result<Value, MathError>,
) -> (r: Result<Value, MathError>)
    ensures
        view_res(r) == pair_of(view_res(x), view_res(y)),
{
    match x {
        Err(e) => Err(e),
        Ok(vx) => match y {
            Err(e) => Err(e),
            Ok(vy) => Ok(Value::Pair(Box::new(vx), Box::new(vy))),
        },
    }
}

fn components(
    ax: &Value,
    bx: &Value,
    ay: &Value,
    by: &Value,
    op: Arith,
    name: OpName,
) -> (r: Result<Value, MathError>)
    requires
        components_fit(ax@, bx@, ay@, by@, op),
    ensures
        view_res(r) == pair_of(num_binop_spec(ax@, bx@, op, name), num_binop_spec(ay@, by@, op, name)),
{
    let nx = num_binop(ax, bx, op, name);
    match nx {
        Err(e) => Err(e),
        Ok(vx) => {
            proof {
                lemma_num_ok_any_name(ax@, bx@, op, name, OpName::Add);
            }
            let ny = num_binop(ay, by, op, name);
            pair_parts(Ok(vx), ny)
        },
    }
}

fn pair_binop(a: &Value, b: &Value, op: Arith, name: OpName) -> (r: Option<Result<Value, MathError>>)
    requires
        pair_binop_fits(a@, b@, op),
    ensures
        view_opt(r) == pair_binop_spec(a@, b@, op, name),
{
    match (a, b) {
        (Value::Pair(ax, ay), Value::Pair(bx, by)) => Some(components(ax, bx, ay, by, op, name)),
        (Value::Pair(ax, ay), _) => {
            if as_number(b).is_none() {
                return Some(Err(number_err(b)));
            }
            Some(components(ax, b, ay, b, op, name))
        },
        (_, Value::Pair(bx, by)) => {
            if as_number(a).is_none() {
                return Some(Err(number_err(a)));
            }
            Some(components(a, bx, a, by, op, name))
        },
        _ => None,
    }
}

// ---------------------------------------------------------------------------
// Tuple arithmetic
// ---------------------------------------------------------------------------

pub open spec fn clamp_byte(r: int) -> u8 {
    if r < 0 {
        0
    } else if r > 255 {
        255
    } else {
        r as u8
    }
}

pub open spec fn tuple_name(op: Arith) -> OpName {
    match op {
        Arith::Add => OpName::Add,
        Arith::Sub => OpName::Subtract,
        _ => OpName::Multiply,
    }
}

/// Tuple arithmetic (for `+`, `-` and `*`): `None` when neither operand is
/// a tuple. Tuples of one length add or subtract componentwise, clamped to
/// 0..=255; a tuple times an integer scales each component, clamped.
pub open spec fn tuple_binop_spec(a: ValueView, b: ValueView, op: Arith) -> Option<
    Result<ValueView, MathError>,
> {
    match (a, b) {
        (ValueView::Tuple(x), ValueView::Tuple(y)) => Some(
            if x.len() != y.len() {
                Err(
                    MathError::TupleLength {
                        op: tuple_name(op),
                        left: x.len() as usize,
                        right: y.len() as usize,
                    },
                )
            } else {
                Ok(
                    ValueView::Tuple(
                        Seq::new(
                            x.len(),
                            |i: int| clamp_byte(plus_minus(x[i] as int, y[i] as int, op is Sub)),
                        ),
                    ),
                )
            },
        ),
        (ValueView::Tuple(_), ValueView::Float(_)) => Some(
            if op is Mul {
                Err(MathError::FloatArithmetic)
            } else {
                Err(MathError::TupleFloat(tuple_name(op)))
            },
        ),
        (ValueView::Tuple(x), ValueView::Integer(k)) => Some(
            if !(op is Mul) {
                Err(MathError::TupleInteger(tuple_name(op)))
            } else {
                Ok(ValueView::Tuple(Seq::new(x.len(), |i: int| clamp_byte(x[i] as int * k as int))))
            },
        ),
        (ValueView::Tuple(_), _) => Some(Err(number_error(b))),
        (_, ValueView::Tuple(_)) => Some(Err(MathError::ScalarTuple(tuple_name(op)))),
        _ => None,
    }
}

/// Tuple arithmetic completes: two non-empty tuples of one length cannot be
/// multiplied, and a scaled component must stay within `i64`.
pub open spec fn tuple_binop_defined(a: ValueView, b: ValueView, op: Arith) -> bool {
    match (a, b) {
        (ValueView::Tuple(x), ValueView::Tuple(y)) => (x.len() == y.len() && x.len() > 0) ==> !(op is Mul),
        (ValueView::Tuple(x), ValueView::Integer(k)) => op is Mul ==> forall|i: int|
            0 <= i < x.len() ==> fits_i64(#[trigger] x[i] as int * k as int),
        _ => true,
    }
}

fn clamp(r: i64) -> (c: u8)
    ensures
        c == clamp_byte(r as int),
{
    if r < 0 {
        0
    } else if r > 255 {
        255
    } else {
        r as u8
    }
}

fn tuple_binop(a: &Value, b: &Value, op: Arith) -> (r: Option<Result<Value, MathError>>)
    requires
        tuple_binop_defined(a@, b@, op),
        !(op is Div),
    ensures
        view_opt(r) == tuple_binop_spec(a@, b@, op),
{
    let name = match op {
        Arith::Add => OpName::Add,
        Arith::Sub => OpName::Subtract,
        _ => OpName::Multiply,
    };
    match (a, b) {
        (Value::Tuple(x), Value::Tuple(y)) => {
            if x.len() != y.len() {
                return Some(Err(MathError::TupleLength { op: name, left: x.len(), right: y.len() }));
            }
            let mut out: Vec<u8> = Vec::new();
            let mut i: usize = 0;
            while i < x.len()
                invariant
                    x@.len() == y@.len(),
                    i <= x@.len(),
                    out@.len() == i,
                    (x@.len() > 0) ==> !(op is Mul),
                    !(op is Div),
                    forall|j: int|
                        0 <= j < i ==> out@[j] == clamp_byte(
                            plus_minus(x@[j] as int, y@[j] as int, op is Sub),
                        ),
                decreases x@.len() - i,
            {
                let r: i64 = match op {
                    Arith::Add => x[i] as i64 + y[i] as i64,
                    Arith::Sub => x[i] as i64 - y[i] as i64,
                    _ => {
                        assert(false);
                        0
                    },
                };
                out.push(clamp(r));
                i = i + 1;
            }
            proof {
                assert(out@ =~= Seq::new(
                    x@.len(),
                    |j: int| clamp_byte(plus_minus(x@[j] as int, y@[j] as int, op is Sub)),
                ));
            }
            Some(Ok(Value::Tuple(out)))
        },
        (Value::Tuple(_), Value::Float(_)) => {
            if matches!(op, Arith::Mul) {
                Some(Err(MathError::FloatArithmetic))
            } else {
                Some(Err(MathError::TupleFloat(name)))
            }
        },
        (Value::Tuple(x), Value::Integer(k)) => {
            if !matches!(op, Arith::Mul) {
                return Some(Err(MathError::TupleInteger(name)));
            }
            let k = *k;
            let mut out: Vec<u8> = Vec::new();
            let mut i: usize = 0;
            while i < x.len()
                invariant
                    i <= x@.len(),
                    out@.len() == i,
                    forall|j: int| 0 <= j < x@.len() ==> fits_i64(#[trigger] x@[j] as int * k as int),
                    forall|j: int| 0 <= j < i ==> out@[j] == clamp_byte(x@[j] as int * k as int),
                decreases x@.len() - i,
            {
                assert(fits_i64(x@[i as int] as int * k as int));
                out.push(clamp(x[i] as i64 * k));
                i = i + 1;
            }
            proof {
                assert(out@ =~= Seq::new(x@.len(), |j: int| clamp_byte(x@[j] as int * k as int)));
            }
            Some(Ok(Value::Tuple(out)))
        },
        (Value::Tuple(_), _) => Some(Err(number_err(b))),
        (_, Value::Tuple(_)) => Some(Err(MathError::ScalarTuple(name))),
        _ => None,
    }
}

// ---------------------------------------------------------------------------
// Money arithmetic
// ---------------------------------------------------------------------------

/// A money amount of `cents`, when they fit in `i64`.
pub open spec fn money_checked(cents: int, currency: Seq<char>) -> Result<ValueView, MathError> {
    if fits_i64(cents) {
        Ok(ValueView::Money { cents: cents as i64, currency })
    } else {
        Err(MathError::MoneyOverflow)
    }
}

/// Money arithmetic: `None` when neither operand is money. Amounts in one
/// currency add and subtract; money and an integer (taken as cents) add,
/// subtract, multiply and divide (truncating); checked against overflow.
/// The ratio of two amounts is a float.
pub open spec fn money_binop_spec(a: ValueView, b: ValueView, op: Arith) -> Option<
    Result<ValueView, MathError>,
> {
    match (a, b) {
        (
            ValueView::Money { cents: ca, currency: cca },
            ValueView::Money { cents: cb, currency: ccb },
        ) => Some(
            match op {
                Arith::Mul => Err(
                    MathError::Type { expected: Expected::MoneyTimesMoney, found: Kind::Money },
                ),
                _ => if cca != ccb {
                    Err(MathError::CurrencyMismatch)
                } else {
                    match op {
                        Arith::Add => money_checked(ca + cb, cca),
                        Arith::Sub => money_checked(ca - cb, cca),
                        _ => if cb == 0 {
                            Err(MathError::MoneyByZero)
                        } else {
                            Err(MathError::FloatArithmetic)
                        },
                    }
                },
            },
        ),
        (ValueView::Money { cents: c, currency }, _) => Some(
            match b {
                ValueView::Integer(n) => match op {
                    Arith::Add => money_checked(c + n, currency),
                    Arith::Sub => money_checked(c - n, currency),
                    Arith::Mul => money_checked(c * n, currency),
                    Arith::Div => if n == 0 {
                        Err(MathError::MoneyByZero)
                    } else {
                        Ok(ValueView::Money { cents: trunc_div(c as int, n as int) as i64, currency })
                    },
                },
                _ => Err(MathError::Type { expected: Expected::MoneyInteger, found: kind_of(b) }),
            },
        ),
        (_, ValueView::Money { cents: c, currency }) => Some(
            match op {
                Arith::Div => Err(MathError::Type { expected: Expected::MoneyDividend, found: kind_of(a) }),
                _ => match a {
                    ValueView::Integer(n) => match op {
                        Arith::Add => money_checked(n + c, currency),
                        Arith::Mul => money_checked(n * c, currency),
                        _ => Err(
                            MathError::Type { expected: Expected::MoneyMinuend, found: Kind::Integer },
                        ),
                    },
                    _ => Err(MathError::Type { expected: Expected::MoneyInteger, found: kind_of(a) }),
                },
            },
        ),
        _ => None,
    }
}

/// Money arithmetic completes: the one division that overflows `i64`
/// would panic.
pub open spec fn money_binop_defined(a: ValueView, b: ValueView, op: Arith) -> bool {
    match (a, b) {
        (ValueView::Money { cents: c, .. }, ValueView::Integer(n)) => op is Div ==> !(c == i64::MIN
            && n == -1),
        _ => true,
    }
}

/// A truncating division overflows only at `i64::MIN / -1`.
pub proof fn lemma_trunc_div_fits(x: i64, d: i64)
    requires
        d != 0,
        !(x == i64::MIN && d == -1),
    ensures
        fits_i64(trunc_div(x as int, d as int)),
{
    let xi = x as int;
    let di = d as int;
    if xi > 0 && di > 0 {
        assert(0 <= xi / di <= xi) by (nonlinear_arith)
            requires
                xi > 0,
                di > 0,
        ;
    } else if xi < 0 && di < 0 {
        assert(0 <= (xi * -1) / (di * -1) <= xi * -1) by (nonlinear_arith)
            requires
                xi < 0,
                di < 0,
        ;
        if di == -1 {
            assert((xi * -1) / (di * -1) == xi * -1);
        } else {
            assert((xi * -1) / (di * -1) <= (xi * -1) / 2) by (nonlinear_arith)
                requires
                    xi < 0,
                    di < -1,
            ;
        }
    } else if xi < 0 {
        assert(0 <= (xi * -1) / di <= xi * -1) by (nonlinear_arith)
            requires
                xi < 0,
                di > 0,
        ;
    } else if xi > 0 {
        assert(0 <= xi / (di * -1) <= xi) by (nonlinear_arith)
            requires
                xi > 0,
                di < 0,
        ;
    }
}

fn money_of(r: Option<i64>, currency: &String) -> (out: Result<Value, MathError>)
    ensures
        r is Some ==> view_res(out) == Ok::<ValueView, MathError>(
            ValueView::Money { cents: r->Some_0, currency: currency@ },
        ),
        r is None ==> out == Err::<Value, MathError>(MathError::MoneyOverflow),
{
    match r {
        Some(cents) => Ok(Value::Money { cents, currency: currency.clone() }),
        None => Err(MathError::MoneyOverflow),
    }
}

fn same_text(x: &String, y: &String) -> (r: bool)
    ensures
        r == (x@ == y@),
{
    let xs = x.as_str();
    let ys = y.as_str();
    if xs.unicode_len() != ys.unicode_len() {
        proof {
            assert(xs@.len() != ys@.len());
        }
        return false;
    }
    let n = xs.unicode_len();
    let mut i: usize = 0;
    while i < n
        invariant
            xs@ == x@,
            ys@ == y@,
            n == x@.len(),
            x@.len() == y@.len(),
            i <= n,
            forall|j: int| 0 <= j < i ==> x@[j] == y@[j],
        decreases n - i,
    {
        if xs.get_char(i) != ys.get_char(i) {
            return false;
        }
        i = i + 1;
    }
    proof {
        assert(x@ =~= y@);
    }
    true
}

fn money_binop(a: &Value, b: &Value, op: Arith) -> (r: Option<Result<Value, MathError>>)
    requires
        money_binop_defined(a@, b@, op),
    ensures
        view_opt(r) == money_binop_spec(a@, b@, op),
{
    match (a, b) {
        (Value::Money { cents: ca, currency: cca }, Value::Money { cents: cb, currency: ccb }) => {
            if let Arith::Mul = op {
                return Some(
                    Err(MathError::Type { expected: Expected::MoneyTimesMoney, found: Kind::Money }),
                );
            }
            if !same_text(cca, ccb) {
                return Some(Err(MathError::CurrencyMismatch));
            }
            match op {
                Arith::Add => Some(money_of(ca.checked_add(*cb), cca)),
                Arith::Sub => Some(money_of(ca.checked_sub(*cb), cca)),
                _ => if *cb == 0 {
                    Some(Err(MathError::MoneyByZero))
                } else {
                    Some(Err(MathError::FloatArithmetic))
                },
            }
        },
        (Value::Money { cents: c, currency }, _) => match b {
            Value::Integer(n) => match op {
                Arith::Add => Some(money_of(c.checked_add(*n), currency)),
                Arith::Sub => Some(money_of(c.checked_sub(*n), currency)),
                Arith::Mul => Some(money_of(c.checked_mul(*n), currency)),
                Arith::Div => {
                    if *n == 0 {
                        return Some(Err(MathError::MoneyByZero));
                    }
                    proof {
                        lemma_trunc_div_fits(*c, *n);
                    }
                    Some(money_of(c.checked_div(*n), currency))
                },
            },
            _ => Some(Err(MathError::Type { expected: Expected::MoneyInteger, found: kind(b) })),
        },
        (_, Value::Money { cents: c, currency }) => match op {
            Arith::Div => Some(
                Err(MathError::Type { expected: Expected::MoneyDividend, found: kind(a) }),
            ),
            _ => match a {
                Value::Integer(n) => match op {
                    Arith::Add => Some(money_of(n.checked_add(*c), currency)),
                    Arith::Mul => Some(money_of(n.checked_mul(*c), currency)),
                    _ => Some(
                        Err(MathError::Type { expected: Expected::MoneyMinuend, found: Kind::Integer }),
                    ),
                },
                _ => Some(Err(MathError::Type { expected: Expected::MoneyInteger, found: kind(a) })),
            },
        },
        _ => None,
    }
}

// ---------------------------------------------------------------------------
// + - * /
// ---------------------------------------------------------------------------

/// A date beside an integer, or two dates: calendar arithmetic.
pub open spec fn date_sum(a: ValueView, b: ValueView) -> bool {
    ||| (a is Date && (b is Integer || b is Date))
    ||| (a is Integer && b is Date)
}

/// `a + b`: strings concatenate, then char, pair, tuple, date and money
/// arithmetic in that order, then numbers.
pub open spec fn add_spec(a: ValueView, b: ValueView) -> Result<ValueView, MathError> {
    match (a, b) {
        (ValueView::Str(x), ValueView::Str(y)) => Ok(ValueView::Str(x + y)),
        _ => match char_binop_spec(a, b, false) {
            Some(r) => r,
            None => match pair_binop_spec(a, b, Arith::Add, OpName::Add) {
                Some(r) => r,
                None => match tuple_binop_spec(a, b, Arith::Add) {
                    Some(r) => r,
                    None => if date_sum(a, b) {
                        Err(MathError::Calendar)
                    } else {
                        match money_binop_spec(a, b, Arith::Add) {
                            Some(r) => r,
                            None => num_binop_spec(a, b, Arith::Add, OpName::Add),
                        }
                    },
                },
            },
        },
    }
}

/// The inputs on which `a + b` completes (an integer sum leaving `i64`,
/// or a percent beside a char, would panic).
pub open spec fn add_defined(a: ValueView, b: ValueView) -> bool {
    &&& char_binop_defined(a, b, false)
    &&& pair_binop_fits(a, b, Arith::Add)
    &&& tuple_binop_defined(a, b, Arith::Add)
    &&& num_binop_fits(a, b, Arith::Add)
}

/// Subtraction refuses a right-hand char, pair or tuple unless the left
/// side is one of those.
pub open spec fn subtract_refused(a: ValueView, b: ValueView) -> bool {
    !(a is Char || a is Pair || a is Tuple) && (b is Char || b is Pair || b is Tuple)
}

/// `a - b`: char, pair, tuple, date and money arithmetic in that order,
/// then numbers.
pub open spec fn subtract_spec(a: ValueView, b: ValueView) -> Result<ValueView, MathError> {
    if subtract_refused(a, b) {
        Err(MathError::Type { expected: Expected::SubtractOperand, found: kind_of(a) })
    } else {
        match char_binop_spec(a, b, true) {
            Some(r) => r,
            None => match pair_binop_spec(a, b, Arith::Sub, OpName::Subtraction) {
                Some(r) => r,
                None => match tuple_binop_spec(a, b, Arith::Sub) {
                    Some(r) => r,
                    None => if a is Date && b is Date {
                        Err(MathError::Calendar)
                    } else {
                        match money_binop_spec(a, b, Arith::Sub) {
                            Some(r) => r,
                            None => num_binop_spec(a, b, Arith::Sub, OpName::Subtraction),
                        }
                    },
                },
            },
        }
    }
}

pub open spec fn subtract_defined(a: ValueView, b: ValueView) -> bool {
    subtract_refused(a, b) || {
        &&& char_binop_defined(a, b, true)
        &&& pair_binop_fits(a, b, Arith::Sub)
        &&& tuple_binop_defined(a, b, Arith::Sub)
        &&& num_binop_fits(a, b, Arith::Sub)
    }
}

/// `a * b`: pair, tuple and money arithmetic in that order, then numbers.
pub open spec fn multiply_spec(a: ValueView, b: ValueView) -> Result<ValueView, MathError> {
    match pair_binop_spec(a, b, Arith::Mul, OpName::Multiply) {
        Some(r) => r,
        None => match tuple_binop_spec(a, b, Arith::Mul) {
            Some(r) => r,
            None => match money_binop_spec(a, b, Arith::Mul) {
                Some(r) => r,
                None => num_binop_spec(a, b, Arith::Mul, OpName::Multiply),
            },
        },
    }
}

pub open spec fn multiply_defined(a: ValueView, b: ValueView) -> bool {
    &&& pair_binop_fits(a, b, Arith::Mul)
    &&& tuple_binop_defined(a, b, Arith::Mul)
    &&& num_binop_fits(a, b, Arith::Mul)
}

/// Division refuses a pair or tuple divisor unless the dividend is one.
pub open spec fn divide_refused(a: ValueView, b: ValueView) -> bool {
    !(a is Pair || a is Tuple) && (b is Pair || b is Tuple)
}

/// `a / b`: pairs, then tuples (refused), money, numbers; an integer
/// division truncates toward zero.
pub open spec fn divide_spec(a: ValueView, b: ValueView) -> Result<ValueView, MathError> {
    if divide_refused(a, b) {
        Err(MathError::Type { expected: Expected::Numeric, found: kind_of(b) })
    } else {
        match pair_binop_spec(a, b, Arith::Div, OpName::Division) {
            Some(r) => r,
            None => if a is Tuple || b is Tuple {
                Err(MathError::TupleDivision)
            } else {
                match money_binop_spec(a, b, Arith::Div) {
                    Some(r) => r,
                    None => num_binop_spec(a, b, Arith::Div, OpName::Division),
                }
            },
        }
    }
}

pub open spec fn divide_defined(a: ValueView, b: ValueView) -> bool {
    divide_refused(a, b) || {
        &&& pair_binop_fits(a, b, Arith::Div)
        &&& money_binop_defined(a, b, Arith::Div)
        &&& num_binop_fits(a, b, Arith::Div)
    }
}

fn concat(x: &String, y: &String) -> (r: String)
    ensures
        r@ == x@ + y@,
{
    let mut cat = x.clone();
    cat.append(y.as_str());
    cat
}

/// `+`: the sum of `args[0]` and `args[1]`.
pub fn add(args: &[Value]) -> (r: Result<Value, MathError>)
    requires
        args@.len() >= 2,
        add_defined(args@[0]@, args@[1]@),
    ensures
        view_res(r) == add_spec(args@[0]@, args@[1]@),
{
    let a = &args[0];
    let b = &args[1];
    if let (Value::Str(x), Value::Str(y)) = (a, b) {
        return Ok(Value::Str(concat(x, y)));
    }
    if let Some(r) = char_binop(a, b, false) {
        return r;
    }
    if let Some(r) = pair_binop(a, b, Arith::Add, OpName::Add) {
        return r;
    }
    if let Some(r) = tuple_binop(a, b, Arith::Add) {
        return r;
    }
    match (a, b) {
        (Value::Date(_), Value::Integer(_)) | (Value::Date(_), Value::Date(_)) | (
            Value::Integer(_),
            Value::Date(_),
        ) => {
            return Err(MathError::Calendar);
        },
        _ => {},
    }
    if let Some(r) = money_binop(a, b, Arith::Add) {
        return r;
    }
    num_binop(a, b, Arith::Add, OpName::Add)
}

/// `-`: `args[0]` minus `args[1]`.
pub fn subtract(args: &[Value]) -> (r: Result<Value, MathError>)
    requires
        args@.len() >= 2,
        subtract_defined(args@[0]@, args@[1]@),
    ensures
        view_res(r) == subtract_spec(args@[0]@, args@[1]@),
{
    let a = &args[0];
    let b = &args[1];
    let left_special = matches!(a, Value::Char(_) | Value::Pair(_, _) | Value::Tuple(_));
    let right_special = matches!(b, Value::Char(_) | Value::Pair(_, _) | Value::Tuple(_));
    if !left_special && right_special {
        return Err(MathError::Type { expected: Expected::SubtractOperand, found: kind(a) });
    }
    if let Some(r) = char_binop(a, b, true) {
        return r;
    }
    if let Some(r) = pair_binop(a, b, Arith::Sub, OpName::Subtraction) {
        return r;
    }
    if let Some(r) = tuple_binop(a, b, Arith::Sub) {
        return r;
    }
    if let (Value::Date(_), Value::Date(_)) = (a, b) {
        return Err(MathError::Calendar);
    }
    if let Some(r) = money_binop(a, b, Arith::Sub) {
        return r;
    }
    num_binop(a, b, Arith::Sub, OpName::Subtraction)
}

/// `*`: the product of `args[0]` and `args[1]`.
pub fn multiply(args: &[Value]) -> (r: Result<Value, MathError>)
    requires
        args@.len() >= 2,
        multiply_defined(args@[0]@, args@[1]@),
    ensures
        view_res(r) == multiply_spec(args@[0]@, args@[1]@),
{
    let a = &args[0];
    let b = &args[1];
    if let Some(r) = pair_binop(a, b, Arith::Mul, OpName::Multiply) {
        return r;
    }
    if let Some(r) = tuple_binop(a, b, Arith::Mul) {
        return r;
    }
    if let Some(r) = money_binop(a, b, Arith::Mul) {
        return r;
    }
    num_binop(a, b, Arith::Mul, OpName::Multiply)
}

/// `/`: `args[0]` divided by `args[1]`.
pub fn divide(args: &[Value]) -> (r: Result<Value, MathError>)
    requires
        args@.len() >= 2,
        divide_defined(args@[0]@, args@[1]@),
    ensures
        view_res(r) == divide_spec(args@[0]@, args@[1]@),
{
    let a = &args[0];
    let b = &args[1];
    let left_compound = matches!(a, Value::Pair(_, _) | Value::Tuple(_));
    let right_compound = matches!(b, Value::Pair(_, _) | Value::Tuple(_));
    if !left_compound && right_compound {
        return Err(MathError::Type { expected: Expected::Numeric, found: kind(b) });
    }
    if let Some(r) = pair_binop(a, b, Arith::Div, OpName::Division) {
        return r;
    }
    if matches!(a, Value::Tuple(_)) || matches!(b, Value::Tuple(_)) {
        return Err(MathError::TupleDivision);
    }
    if let Some(r) = money_binop(a, b, Arith::Div) {
        return r;
    }
    num_binop(a, b, Arith::Div, OpName::Division)
}

// ---------------------------------------------------------------------------
// // (modulo) and ** (power)
// ---------------------------------------------------------------------------

/// A truncating remainder is smaller in magnitude than the divisor.
pub proof fn lemma_trunc_rem_fits(x: i64, d: i64)
    requires
        d != 0,
    ensures
        fits_i64(trunc_rem(x as int, d as int)),
{
    let xi = x as int;
    let di = d as int;
    if xi > 0 && di > 0 {
        assert(0 <= xi % di < di) by (nonlinear_arith)
            requires
                di > 0,
        ;
    } else if xi < 0 && di < 0 {
        assert(0 <= (xi * -1) % (di * -1) < di * -1) by (nonlinear_arith)
            requires
                di < 0,
        ;
    } else if xi < 0 {
        assert(0 <= (xi * -1) % di < di) by (nonlinear_arith)
            requires
                di > 0,
        ;
    } else if xi > 0 {
        assert(0 <= xi % (di * -1) < di * -1) by (nonlinear_arith)
            requires
                di < 0,
        ;
    }
}

/// `a // b`: the remainder of a truncating integer division (it takes the
/// dividend's sign).
pub open spec fn modulo_spec(a: ValueView, b: ValueView) -> Result<ValueView, MathError> {
    match (as_num(a), as_num(b)) {
        (None, _) => Err(number_error(a)),
        (Some(_), None) => Err(number_error(b)),
        (Some(Num::Int(x)), Some(Num::Int(y))) => if y == 0 {
            Err(MathError::ByZero(OpName::IntegerModulo))
        } else {
            Ok(ValueView::Integer(trunc_rem(x as int, y as int) as i64))
        },
        _ => Err(MathError::FloatArithmetic),
    }
}

/// `i64::MIN // -1` overflows (and panics).
pub open spec fn modulo_defined(a: ValueView, b: ValueView) -> bool {
    !(a == ValueView::Integer(i64::MIN) && b == ValueView::Integer(-1i64))
}

/// `//`: the remainder of `args[0]` divided by `args[1]`.
pub fn modulo(args: &[Value]) -> (r: Result<Value, MathError>)
    requires
        args@.len() >= 2,
        modulo_defined(args@[0]@, args@[1]@),
    ensures
        view_res(r) == modulo_spec(args@[0]@, args@[1]@),
{
    let x = match as_number(&args[0]) {
        Some(x) => x,
        None => return Err(number_err(&args[0])),
    };
    let y = match as_number(&args[1]) {
        Some(y) => y,
        None => return Err(number_err(&args[1])),
    };
    match (x, y) {
        (Num::Int(x), Num::Int(y)) => {
            if y == 0 {
                return Err(MathError::ByZero(OpName::IntegerModulo));
            }
            proof {
                lemma_trunc_rem_fits(x, y);
            }
            match x.checked_rem(y) {
                Some(r) => Ok(Value::Integer(r)),
                None => Err(MathError::ByZero(OpName::IntegerModulo)),
            }
        },
        _ => Err(MathError::FloatArithmetic),
    }
}

/// `base` to the power `exp`, wrapping around `i64` at each factor.
pub open spec fn wrap_pow(base: i64, exp: nat) -> i64
    decreases exp,
{
    if exp == 0 {
        1
    } else {
        wrap_pow(base, (exp - 1) as nat).wrapping_mul(base)
    }
}

/// `a ** b`: an integer to a non-negative integer power is an integer
/// (wrapping on overflow); every other numeric case is a float.
pub open spec fn power_spec(args: Seq<ValueView>) -> Result<ValueView, MathError> {
    if args.len() != 2 {
        Err(MathError::Arity { wanted: 2, got: args.len() as usize })
    } else {
        match (as_num(args[0]), as_num(args[1])) {
            (None, _) => Err(number_error(args[0])),
            (Some(_), None) => Err(number_error(args[1])),
            (Some(Num::Int(base)), Some(Num::Int(exp))) => if exp >= 0 {
                Ok(ValueView::Integer(wrap_pow(base, exp as nat)))
            } else {
                Err(MathError::FloatArithmetic)
            },
            _ => Err(MathError::FloatArithmetic),
        }
    }
}

/// Every element of `args` by its view.
pub open spec fn views(args: Seq<Value>) -> Seq<ValueView> {
    args.map_values(|v: Value| v@)
}

/// `**` and `power`: `args[0]` to the power `args[1]`.
pub fn power(args: &[Value]) -> (r: Result<Value, MathError>)
    ensures
        view_res(r) == power_spec(views(args@)),
{
    if args.len() != 2 {
        return Err(MathError::Arity { wanted: 2, got: args.len() });
    }
    let x = as_number(&args[0]);
    let y = as_number(&args[1]);
    match (x, y) {
        (None, _) => Err(number_err(&args[0])),
        (Some(_), None) => Err(number_err(&args[1])),
        (Some(Num::Int(base)), Some(Num::Int(exp))) => {
            if exp < 0 {
                return Err(MathError::FloatArithmetic);
            }
            let mut result: i64 = 1;
            let mut i: i64 = 0;
            while i < exp
                invariant
                    0 <= i <= exp,
                    result == wrap_pow(base, i as nat),
                decreases exp - i,
            {
                result = result.wrapping_mul(base);
                i = i + 1;
            }
            Ok(Value::Integer(result))
        },
        _ => Err(MathError::FloatArithmetic),
    }
}

// ---------------------------------------------------------------------------
// even? odd? xor complement shift-left shift-right
// ---------------------------------------------------------------------------

/// `even?` (`odd` false) and `odd?` (`odd` true) of an integer.
pub open spec fn parity_spec(args: Seq<ValueView>, odd: bool) -> Result<ValueView, MathError> {
    if args.len() != 1 {
        Err(MathError::Arity { wanted: 1, got: args.len() as usize })
    } else {
        match args[0] {
            ValueView::Integer(n) => Ok(ValueView::Logic((n % 2 == 1) == odd)),
            _ => Err(MathError::Type { expected: Expected::Integer, found: kind_of(args[0]) }),
        }
    }
}

fn parity(args: &[Value], odd: bool) -> (r: Result<Value, MathError>)
    ensures
        view_res(r) == parity_spec(views(args@), odd),
{
    if args.len() != 1 {
        return Err(MathError::Arity { wanted: 1, got: args.len() });
    }
    match &args[0] {
        Value::Integer(n) => {
            let low = *n & 1;
            proof {
                let m = *n;
                assert((m & 1) == 0 || (m & 1) == 1) by (bit_vector);
                assert((m & 1) == 0 <==> m % 2 == 0) by (bit_vector);
            }
            Ok(Value::Logic((low == 1) == odd))
        },
        _ => Err(MathError::Type { expected: Expected::Integer, found: kind(&args[0]) }),
    }
}

/// `even?`: whether an integer is even.
pub fn even_q(args: &[Value]) -> (r: Result<Value, MathError>)
    ensures
        view_res(r) == parity_spec(views(args@), false),
{
    parity(args, false)
}

/// `odd?`: whether an integer is odd.
pub fn odd_q(args: &[Value]) -> (r: Result<Value, MathError>)
    ensures
        view_res(r) == parity_spec(views(args@), true),
{
    parity(args, true)
}

/// `a xor b`: bitwise on integers, otherwise the exclusive or of the
/// operands' truth.
pub open spec fn xor_spec(a: ValueView, b: ValueView) -> ValueView {
    match (a, b) {
        (ValueView::Integer(x), ValueView::Integer(y)) => ValueView::Integer(x ^ y),
        (ValueView::Logic(x), ValueView::Logic(y)) => ValueView::Logic(x != y),
        _ => ValueView::Logic(truthy_spec(a) != truthy_spec(b)),
    }
}

/// `xor`: the exclusive or of `args[0]` and `args[1]`.
pub fn xor_op(args: &[Value]) -> (r: Value)
    requires
        args@.len() >= 2,
    ensures
        r@ == xor_spec(args@[0]@, args@[1]@),
{
    match (&args[0], &args[1]) {
        (Value::Integer(a), Value::Integer(b)) => Value::Integer(*a ^ *b),
        (Value::Logic(a), Value::Logic(b)) => Value::Logic(*a != *b),
        _ => Value::Logic(truthy(&args[0]) != truthy(&args[1])),
    }
}

/// Every bit of `bits` flipped.
pub open spec fn flipped(bits: Seq<bool>) -> Seq<bool> {
    Seq::new(bits.len(), |i: int| !bits[i])
}

/// `complement`: the bitwise complement of an integer (`-1 - n` in two's
/// complement), or a bitset with
/// every bit flipped.
pub open spec fn complement_spec(args: Seq<ValueView>) -> Result<ValueView, MathError> {
    if args.len() != 1 {
        Err(MathError::Arity { wanted: 1, got: args.len() as usize })
    } else {
        match args[0] {
            ValueView::Integer(n) => Ok(ValueView::Integer((-1 - n) as i64)),
            ValueView::Bitset(bits) => Ok(ValueView::Bitset(flipped(bits))),
            _ => Err(MathError::Type { expected: Expected::IntegerOrBitset, found: kind_of(args[0]) }),
        }
    }
}

/// `complement`.
pub fn complement_native(args: &[Value]) -> (r: Result<Value, MathError>)
    ensures
        view_res(r) == complement_spec(views(args@)),
{
    if args.len() != 1 {
        return Err(MathError::Arity { wanted: 1, got: args.len() });
    }
    proof {
        assert(views(args@)[0] == args@[0]@);
    }
    match &args[0] {
        Value::Integer(n) => {
            let m = *n;
            assert(!m == -1 - m) by (bit_vector);
            Ok(Value::Integer(!m))
        },
        Value::Bitset(bits) => {
            let mut out: Vec<bool> = Vec::new();
            let mut i: usize = 0;
            while i < bits.len()
                invariant
                    i <= bits@.len(),
                    out@.len() == i,
                    forall|j: int| 0 <= j < i ==> out@[j] == !bits@[j],
                decreases bits@.len() - i,
            {
                out.push(!bits[i]);
                i = i + 1;
            }
            proof {
                assert(out@ =~= flipped(bits@));
            }
            Ok(Value::Bitset(out))
        },
        _ => Err(MathError::Type { expected: Expected::IntegerOrBitset, found: kind(&args[0]) }),
    }
}

/// The two integer operands of a shift, or the type error for the first
/// that is not one.
pub open spec fn shift_operands(args: Seq<ValueView>) -> Result<(i64, i64), MathError> {
    if args.len() != 2 {
        Err(MathError::Arity { wanted: 2, got: args.len() as usize })
    } else {
        match (args[0], args[1]) {
            (ValueView::Integer(n), ValueView::Integer(by)) => Ok((n, by)),
            (ValueView::Integer(_), _) => Err(
                MathError::Type { expected: Expected::Integer, found: kind_of(args[1]) },
            ),
            _ => Err(MathError::Type { expected: Expected::Integer, found: kind_of(args[0]) }),
        }
    }
}

/// `shift-left n by` (`left`) and `shift-right n by`: a shift of the 64-bit
/// pattern by `by` modulo 64 (a negative `by` shifts the other way);
/// right shifts are logical.
pub open spec fn shift_spec(args: Seq<ValueView>, left: bool) -> Result<ValueView, MathError> {
    match shift_operands(args) {
        Err(e) => Err(e),
        Ok((n, by)) => {
            let toward_right = (left && by < 0) || (!left && by >= 0);
            let amount = (if by < 0 {
                -by
            } else {
                by as int
            }) as i64 as u32;
            Ok(
                ValueView::Integer(
                    if toward_right {
                        (n as u64).wrapping_shr(amount) as i64
                    } else {
                        n.wrapping_shl(amount)
                    },
                ),
            )
        },
    }
}

/// A shift by `i64::MIN` negates out of range (and panics).
pub open spec fn shift_defined(args: Seq<ValueView>) -> bool {
    shift_operands(args) matches Ok((_, by)) ==> by != i64::MIN
}

fn shift(args: &[Value], left: bool) -> (r: Result<Value, MathError>)
    requires
        shift_defined(views(args@)),
    ensures
        view_res(r) == shift_spec(views(args@), left),
{
    if args.len() != 2 {
        return Err(MathError::Arity { wanted: 2, got: args.len() });
    }
    let n = match &args[0] {
        Value::Integer(n) => *n,
        other => return Err(MathError::Type { expected: Expected::Integer, found: kind(other) }),
    };
    let by = match &args[1] {
        Value::Integer(b) => *b,
        other => return Err(MathError::Type { expected: Expected::Integer, found: kind(other) }),
    };
    let amount: u32 = if by < 0 {
        (-by) as u32
    } else {
        by as u32
    };
    let toward_right = (left && by < 0) || (!left && by >= 0);
    if toward_right {
        Ok(Value::Integer((n as u64).wrapping_shr(amount) as i64))
    } else {
        Ok(Value::Integer(n.wrapping_shl(amount)))
    }
}

/// `shift-left`.
pub fn shift_left(args: &[Value]) -> (r: Result<Value, MathError>)
    requires
        shift_defined(views(args@)),
    ensures
        view_res(r) == shift_spec(views(args@), true),
{
    shift(args, true)
}

/// `shift-right`.
pub fn shift_right(args: &[Value]) -> (r: Result<Value, MathError>)
    requires
        shift_defined(views(args@)),
    ensures
        view_res(r) == shift_spec(views(args@), false),
{
    shift(args, false)
}

// ---------------------------------------------------------------------------
// abs negate
// ---------------------------------------------------------------------------

/// `|n|`, wrapping at `i64::MIN`; or `-n`, wrapping likewise.
pub open spec fn wrap_sign(n: i64, neg: bool) -> i64 {
    if neg || n < 0 {
        0i64.wrapping_sub(n)
    } else {
        n
    }
}

/// `abs`/`negate` of one pair component.
pub open spec fn sign_one(v: ValueView, neg: bool) -> Result<ValueView, MathError> {
    match as_num(v) {
        Some(Num::Int(n)) => Ok(ValueView::Integer(wrap_sign(n, neg))),
        Some(Num::Float) => Err(MathError::FloatArithmetic),
        None => Err(number_error(v)),
    }
}

/// `abs` (`neg` false) and `negate` (`neg` true): integers wrap at
/// `i64::MIN`, money keeps its currency, pairs work componentwise.
pub open spec fn sign_spec(args: Seq<ValueView>, neg: bool) -> Result<ValueView, MathError> {
    if args.len() != 1 {
        Err(MathError::Arity { wanted: 1, got: args.len() as usize })
    } else {
        match args[0] {
            ValueView::Integer(n) => Ok(ValueView::Integer(wrap_sign(n, neg))),
            ValueView::Float(_) => Err(MathError::FloatArithmetic),
            ValueView::Percent(_) => Err(MathError::FloatArithmetic),
            ValueView::Money { cents, currency } => Ok(
                ValueView::Money {
                    cents: if neg {
                        0i64.wrapping_sub(cents)
                    } else {
                        abs_int(cents as int) as i64
                    },
                    currency,
                },
            ),
            ValueView::Pair(x, y) => pair_of(sign_one(*x, neg), sign_one(*y, neg)),
            ValueView::Tuple(_) => Err(
                MathError::Type { expected: Expected::NumberOrPair, found: Kind::Tuple },
            ),
            _ => Err(number_error(args[0])),
        }
    }
}

/// The absolute value of `i64::MIN` cents overflows (and panics).
pub open spec fn abs_defined(args: Seq<ValueView>) -> bool {
    args.len() == 1 ==> (args[0] matches ValueView::Money { cents, .. } ==> cents != i64::MIN)
}

fn sign_of(v: &Value, neg: bool) -> (r: Result<Value, MathError>)
    ensures
        view_res(r) == sign_one(v@, neg),
{
    match as_number(v) {
        Some(Num::Int(n)) => Ok(Value::Integer(if neg || n < 0 {
            0i64.wrapping_sub(n)
        } else {
            n
        })),
        Some(Num::Float) => Err(MathError::FloatArithmetic),
        None => Err(number_err(v)),
    }
}

fn sign_native(args: &[Value], neg: bool) -> (r: Result<Value, MathError>)
    requires
        !neg ==> abs_defined(views(args@)),
    ensures
        view_res(r) == sign_spec(views(args@), neg),
{
    if args.len() != 1 {
        return Err(MathError::Arity { wanted: 1, got: args.len() });
    }
    proof {
        assert(views(args@)[0] == args@[0]@);
    }
    match &args[0] {
        Value::Integer(_) => sign_of(&args[0], neg),
        Value::Float(_) => Err(MathError::FloatArithmetic),
        Value::Percent(_) => Err(MathError::FloatArithmetic),
        Value::Money { cents, currency } => {
            let c = *cents;
            let out = if neg {
                0i64.wrapping_sub(c)
            } else if c < 0 {
                -c
            } else {
                c
            };
            Ok(Value::Money { cents: out, currency: currency.clone() })
        },
        Value::Pair(x, y) => {
            let nx = sign_of(x, neg);
            match nx {
                Err(e) => Err(e),
                Ok(vx) => pair_parts(Ok(vx), sign_of(y, neg)),
            }
        },
        Value::Tuple(_) => Err(MathError::Type { expected: Expected::NumberOrPair, found: Kind::Tuple }),
        _ => Err(number_err(&args[0])),
    }
}

/// `abs`.
pub fn abs_native(args: &[Value]) -> (r: Result<Value, MathError>)
    requires
        abs_defined(views(args@)),
    ensures
        view_res(r) == sign_spec(views(args@), false),
{
    sign_native(args, false)
}

/// `negate`.
pub fn negate_native(args: &[Value]) -> (r: Result<Value, MathError>)
    ensures
        view_res(r) == sign_spec(views(args@), true),
{
    sign_native(args, true)
}

// ---------------------------------------------------------------------------
// min max
// ---------------------------------------------------------------------------

/// What `min` and `max` compare: integers, chars by code point, floats.
pub open spec fn orderable(v: ValueView) -> Option<Num> {
    match v {
        ValueView::Integer(n) => Some(Num::Int(n)),
        ValueView::Char(c) => Some(Num::Int(c as i64)),
        ValueView::Float(_) => Some(Num::Float),
        _ => None,
    }
}

/// The lesser (`max` false) or greater (`max` true) of two orderable
/// values; the first on a tie.
pub open spec fn pick_spec(x: ValueView, y: ValueView, max: bool) -> Result<ValueView, MathError> {
    match (orderable(x), orderable(y)) {
        (None, _) => Err(number_error(x)),
        (Some(_), None) => Err(number_error(y)),
        (Some(Num::Int(p)), Some(Num::Int(q))) => Ok(
            if (max && p < q) || (!max && p > q) {
                y
            } else {
                x
            },
        ),
        _ => Err(MathError::FloatArithmetic),
    }
}

/// `min` (`max` false) and `max` (`max` true): of two numbers or chars, or
/// componentwise of two pairs.
pub open spec fn extreme_spec(args: Seq<ValueView>, max: bool) -> Result<ValueView, MathError> {
    if args.len() != 2 {
        Err(MathError::Arity { wanted: 2, got: args.len() as usize })
    } else {
        let (a, b) = (args[0], args[1]);
        if a is Tuple || b is Tuple {
            Err(MathError::Type { expected: Expected::NumberOrPair, found: Kind::Tuple })
        } else {
            match (a, b) {
                (ValueView::Pair(ax, ay), ValueView::Pair(bx, by)) => pair_of(
                    pick_spec(*ax, *bx, max),
                    pick_spec(*ay, *by, max),
                ),
                _ => if a is Pair || b is Pair {
                    Err(
                        MathError::Type {
                            expected: Expected::PairOnly,
                            found: if a is Pair {
                                kind_of(b)
                            } else {
                                kind_of(a)
                            },
                        },
                    )
                } else {
                    pick_spec(a, b, max)
                },
            }
        }
    }
}

fn orderable_of(v: &Value) -> (r: Option<Num>)
    ensures
        r == orderable(v@),
{
    match v {
        Value::Integer(n) => Some(Num::Int(*n)),
        Value::Char(c) => Some(Num::Int(codepoint(*c))),
        Value::Float(_) => Some(Num::Float),
        _ => None,
    }
}

/// A fresh copy of an integer or char.
fn copy_scalar(v: &Value) -> (r: Value)
    requires
        v is Integer || v is Char,
    ensures
        r@ == v@,
{
    match v {
        Value::Char(c) => Value::Char(*c),
        Value::Integer(n) => Value::Integer(*n),
        _ => Value::NoneVal,
    }
}

fn pick(x: &Value, y: &Value, max: bool) -> (r: Result<Value, MathError>)
    ensures
        view_res(r) == pick_spec(x@, y@, max),
{
    match (orderable_of(x), orderable_of(y)) {
        (None, _) => Err(number_err(x)),
        (Some(_), None) => Err(number_err(y)),
        (Some(Num::Int(p)), Some(Num::Int(q))) => Ok(
            if (max && p < q) || (!max && p > q) {
                copy_scalar(y)
            } else {
                copy_scalar(x)
            },
        ),
        _ => Err(MathError::FloatArithmetic),
    }
}

fn extreme(args: &[Value], max: bool) -> (r: Result<Value, MathError>)
    ensures
        view_res(r) == extreme_spec(views(args@), max),
{
    if args.len() != 2 {
        return Err(MathError::Arity { wanted: 2, got: args.len() });
    }
    proof {
        assert(views(args@)[0] == args@[0]@);
        assert(views(args@)[1] == args@[1]@);
    }
    let a = &args[0];
    let b = &args[1];
    if matches!(a, Value::Tuple(_)) || matches!(b, Value::Tuple(_)) {
        return Err(MathError::Type { expected: Expected::NumberOrPair, found: Kind::Tuple });
    }
    if let (Value::Pair(ax, ay), Value::Pair(bx, by)) = (a, b) {
        return match pick(ax, bx, max) {
            Err(e) => Err(e),
            Ok(vx) => pair_parts(Ok(vx), pick(ay, by, max)),
        };
    }
    if let Value::Pair(_, _) = a {
        return Err(MathError::Type { expected: Expected::PairOnly, found: kind(b) });
    }
    if let Value::Pair(_, _) = b {
        return Err(MathError::Type { expected: Expected::PairOnly, found: kind(a) });
    }
    pick(a, b, max)
}

/// `min`.
pub fn min_native(args: &[Value]) -> (r: Result<Value, MathError>)
    ensures
        view_res(r) == extreme_spec(views(args@), false),
{
    extreme(args, false)
}

/// `max`.
pub fn max_native(args: &[Value]) -> (r: Result<Value, MathError>)
    ensures
        view_res(r) == extreme_spec(views(args@), true),
{
    extreme(args, true)
}

// ---------------------------------------------------------------------------
// random
// ---------------------------------------------------------------------------

/// The generator's state before it was ever seeded or drawn from.
pub const RNG_SEED: u64 = 0x9E37_79B9_7F4A_7C15;

/// One xorshift64 step.
pub open spec fn xorshift(s: u64) -> u64 {
    let a = s ^ (s << 13u64);
    let b = a ^ (a >> 7u64);
    b ^ (b << 17u64)
}

/// A zero state is replaced by the initial seed before a step.
pub open spec fn rng_start(s: u64) -> u64 {
    if s == 0 {
        RNG_SEED
    } else {
        s
    }
}

/// Draws the next number from the generator whose state is `state`: one
/// xorshift64 step, which is also the new state.
pub fn rand_next(state: &mut u64) -> (r: u64)
    ensures
        r == xorshift(rng_start(*old(state))),
        *final(state) == r,
{
    let mut s = *state;
    if s == 0 {
        s = RNG_SEED;
    }
    s = s ^ (s << 13u64);
    s = s ^ (s >> 7u64);
    s = s ^ (s << 17u64);
    *state = s;
    s
}

/// `random` (`random/seed` when `seeding`) on generator state `s`: the
/// result, and the generator's state afterwards. `random n` draws once and
/// answers a number in `1..=n`; `random/seed n` makes the state `n` with its
/// lowest bit set and answers `none`.
pub open spec fn random_spec(args: Seq<ValueView>, seeding: bool, s: u64) -> (
    Result<ValueView, MathError>,
    u64,
) {
    if args.len() == 0 {
        (Err(MathError::Arity { wanted: 1, got: 0 }), s)
    } else if seeding {
        match args[0] {
            ValueView::Integer(n) => (Ok(ValueView::NoneVal), (n as u64) | 1u64),
            ValueView::Float(_) => (Err(MathError::FloatArithmetic), s),
            _ => (Err(number_error(args[0])), s),
        }
    } else {
        match args[0] {
            ValueView::Integer(n) => if n <= 0 {
                (Err(MathError::NotPositive), s)
            } else {
                let s1 = xorshift(rng_start(s));
                (Ok(ValueView::Integer(((s1 % (n as u64)) + 1) as i64)), s1)
            },
            ValueView::Float(_) => (Err(MathError::FloatArithmetic), s),
            _ => (Err(number_error(args[0])), s),
        }
    }
}

/// `random` with the refinements of the call, drawing from `state`.
pub fn random_native(args: &[Value], refs: &RefineArgs, state: &mut u64) -> (r: Result<
    Value,
    MathError,
>)
    ensures
        view_res(r) == random_spec(views(args@), refs.spec_has("seed"@), *old(state)).0,
        *final(state) == random_spec(views(args@), refs.spec_has("seed"@), *old(state)).1,
{
    if args.len() == 0 {
        return Err(MathError::Arity { wanted: 1, got: 0 });
    }
    proof {
        assert(views(args@)[0] == args@[0]@);
    }
    if refs.has("seed") {
        return match &args[0] {
            Value::Integer(n) => {
                *state = (*n as u64) | 1u64;
                Ok(Value::NoneVal)
            },
            Value::Float(_) => Err(MathError::FloatArithmetic),
            other => Err(number_err(other)),
        };
    }
    match &args[0] {
        Value::Integer(n) => {
            let n = *n;
            if n <= 0 {
                return Err(MathError::NotPositive);
            }
            let span = n as u64;
            let drawn = rand_next(state);
            let r = (drawn % span) + 1;
            Ok(Value::Integer(r as i64))
        },
        Value::Float(_) => Err(MathError::FloatArithmetic),
        other => Err(number_err(other)),
    }
}

// ---------------------------------------------------------------------------
// Laws
// ---------------------------------------------------------------------------

/// Integer `/` and `//` agree: the quotient times the divisor plus the
/// remainder gives back the dividend, the remainder is smaller than the
/// divisor and carries the dividend's sign.
pub proof fn law_divide_modulo(x: i64, y: i64)
    requires
        y != 0,
        !(x == i64::MIN && y == -1),
    ensures
        divide_spec(ValueView::Integer(x), ValueView::Integer(y)) matches Ok(ValueView::Integer(q))
            && modulo_spec(ValueView::Integer(x), ValueView::Integer(y)) matches Ok(
            ValueView::Integer(m),
        ) && q * y + m == x && abs_int(m as int) < abs_int(y as int) && (m == 0 || (m < 0) == (x
            < 0)),
{
    lemma_trunc_div_fits(x, y);
    lemma_trunc_rem_fits(x, y);
    let xi = x as int;
    let di = y as int;
    let q = trunc_div(xi, di);
    let m = trunc_rem(xi, di);
    if xi > 0 && di > 0 {
        assert(q * di + m == xi && 0 <= m < di) by (nonlinear_arith)
            requires
                q == xi / di,
                m == xi % di,
                di > 0,
        ;
    } else if xi < 0 && di < 0 {
        assert(q * di + m == xi && -di > -m >= 0) by (nonlinear_arith)
            requires
                q == (xi * -1) / (di * -1),
                m == ((xi * -1) % (di * -1)) * -1,
                di < 0,
        ;
    } else if xi < 0 {
        assert(q * di + m == xi && di > -m >= 0) by (nonlinear_arith)
            requires
                q == ((xi * -1) / di) * -1,
                m == ((xi * -1) % di) * -1,
                di > 0,
        ;
    } else if xi > 0 {
        assert(q * di + m == xi && -di > m >= 0) by (nonlinear_arith)
            requires
                q == (xi / (di * -1)) * -1,
                m == xi % (di * -1),
                di < 0,
        ;
    }
}

/// `random n` of a positive `n` answers a number from 1 to `n`.
pub proof fn law_random_in_range(n: i64, s: u64)
    requires
        n > 0,
    ensures
        random_spec(seq![ValueView::Integer(n)], false, s).0 matches Ok(ValueView::Integer(r)) && 1
            <= r <= n,
{
    let s1 = xorshift(rng_start(s));
    assert(s1 % (n as u64) < n as u64);
}

/// After `random/seed n` the generator no longer depends on what came
/// before: from any two states, seeding with `n` and drawing `random k`
/// answers alike.
pub proof fn law_seed_determines_draws(n: i64, k: i64, s: u64, t: u64)
    ensures
        random_spec(seq![ValueView::Integer(n)], true, s).1 == random_spec(
            seq![ValueView::Integer(n)],
            true,
            t,
        ).1,
        random_spec(
            seq![ValueView::Integer(k)],
            false,
            random_spec(seq![ValueView::Integer(n)], true, s).1,
        ) == random_spec(
            seq![ValueView::Integer(k)],
            false,
            random_spec(seq![ValueView::Integer(n)], true, t).1,
        ),
{
}

/// `negate` undoes itself on integers and money.
pub proof fn law_negate_twice(v: ValueView)
    requires
        v is Integer || v is Money,
    ensures
        sign_spec(seq![v], true) matches Ok(w) && sign_spec(seq![w], true) == Ok::<
            ValueView,
            MathError,
        >(v),
{
    match v {
        ValueView::Integer(n) => {
            assert(0i64.wrapping_sub(0i64.wrapping_sub(n)) == n);
        },
        ValueView::Money { cents, .. } => {
            assert(0i64.wrapping_sub(0i64.wrapping_sub(cents)) == cents);
        },
        _ => {},
    }
}

// ---------------------------------------------------------------------------
// The steps and bounds of `for`
// ---------------------------------------------------------------------------

/// A number as `for` counts with it: an integer, a char by its code point,
/// or a float.
#[derive(Clone, Copy, Debug, PartialEq, Eq)]
pub enum StepNum {
    Int(i64),
    Char(i64),
    Float,
}

pub open spec fn step_num(v: ValueView) -> Option<StepNum> {
    match v {
        ValueView::Integer(n) => Some(StepNum::Int(n)),
        ValueView::Char(c) => Some(StepNum::Char(c as i64)),
        ValueView::Float(_) => Some(StepNum::Float),
        _ => None,
    }
}

fn step_num_of(v: &Value) -> (r: Option<StepNum>)
    ensures
        r == step_num(v@),
{
    match v {
        Value::Integer(n) => Some(StepNum::Int(*n)),
        Value::Char(c) => Some(StepNum::Char(codepoint(*c))),
        Value::Float(_) => Some(StepNum::Float),
        _ => None,
    }
}

/// Integers that a float holds exactly (at most 2^53 in magnitude).
pub open spec fn float_exact(x: int) -> bool {
    -0x20_0000_0000_0000 <= x <= 0x20_0000_0000_0000
}

/// A char stepped by an integer stays inside `i64`.
pub open spec fn step_fits(cur: ValueView, bump: ValueView) -> bool {
    match (cur, bump) {
        (ValueView::Char(c), ValueView::Integer(k)) => c as int + k <= i64::MAX,
        _ => true,
    }
}

/// `cur + bump` as `for` steps: integer + integer is an integer (an
/// overflow is an error), char + integer a char, integer or char + char an
/// integer; a float on either side makes a float, which the caller computes
/// (as it does where an integer sum through a float would not be exact).
pub open spec fn numeric_add_spec(cur: ValueView, bump: ValueView) -> Result<ValueView, MathError> {
    match step_num(cur) {
        None => Err(MathError::Type { expected: Expected::Number, found: kind_of(cur) }),
        Some(a) => match step_num(bump) {
            None => Err(MathError::Type { expected: Expected::Number, found: kind_of(bump) }),
            Some(b) => match a {
                StepNum::Float => Err(MathError::FloatArithmetic),
                StepNum::Char(c) => match b {
                    StepNum::Float => Err(MathError::FloatArithmetic),
                    StepNum::Int(k) => {
                        let cp = (c + k) as u32;
                        if cp <= 0x10FFFF && !(0xD800 <= cp <= 0xDFFF) {
                            Ok(ValueView::Char(cp as char))
                        } else {
                            Err(MathError::StepRange((c + k) as i64))
                        }
                    },
                    StepNum::Char(d) => Ok(ValueView::Integer((c + d) as i64)),
                },
                StepNum::Int(x) => match b {
                    StepNum::Float => Err(MathError::FloatArithmetic),
                    StepNum::Int(y) => if i64::MIN <= x + y <= i64::MAX {
                        Ok(ValueView::Integer((x + y) as i64))
                    } else {
                        Err(MathError::StepOverflow)
                    },
                    StepNum::Char(d) => if float_exact(x as int) && float_exact(x + d) {
                        Ok(ValueView::Integer((x + d) as i64))
                    } else {
                        Err(MathError::FloatArithmetic)
                    },
                },
            },
        },
    }
}

/// The step `for` takes from `cur` by `bump`.
pub fn numeric_add(cur: &Value, bump: &Value) -> (r: Result<Value, MathError>)
    requires
        step_fits(cur@, bump@),
    ensures
        match r {
            Ok(v) => numeric_add_spec(cur@, bump@) == Ok::<ValueView, MathError>(v@),
            Err(e) => numeric_add_spec(cur@, bump@) == Err::<ValueView, MathError>(e),
        },
{
    let a = match step_num_of(cur) {
        Some(a) => a,
        None => {
            return Err(MathError::Type { expected: Expected::Number, found: kind(cur) });
        },
    };
    let b = match step_num_of(bump) {
        Some(b) => b,
        None => {
            return Err(MathError::Type { expected: Expected::Number, found: kind(bump) });
        },
    };
    match (a, b) {
        (StepNum::Float, _) | (_, StepNum::Float) => Err(MathError::FloatArithmetic),
        (StepNum::Char(c), StepNum::Int(k)) => {
            let s: i64 = c + k;
            match char_from_u32(s as u32) {
                Some(ch) => Ok(Value::Char(ch)),
                None => Err(MathError::StepRange(s)),
            }
        },
        (StepNum::Char(c), StepNum::Char(d)) => Ok(Value::Integer(c + d)),
        (StepNum::Int(x), StepNum::Int(y)) => match x.checked_add(y) {
            Some(n) => Ok(Value::Integer(n)),
            None => Err(MathError::StepOverflow),
        },
        (StepNum::Int(x), StepNum::Char(d)) => {
            let bound: i64 = 0x20_0000_0000_0000;
            if -bound <= x && x <= bound && x <= bound - d {
                Ok(Value::Integer(x + d))
            } else {
                Err(MathError::FloatArithmetic)
            }
        },
    }
}

/// How `for` compares its counter with its end: numbers by value, chars by
/// code point; `None` when either is no number. A float on either side, or
/// an integer beyond what a float holds exactly, is compared by the caller.
pub open spec fn numeric_order_spec(cur: ValueView, end: ValueView) -> Result<Option<int>, MathError> {
    match (step_num(cur), step_num(end)) {
        (Some(a), Some(b)) => match (a, b) {
            (StepNum::Float, _) => Err(MathError::FloatArithmetic),
            (_, StepNum::Float) => Err(MathError::FloatArithmetic),
            _ => {
                let x = step_int(a);
                let y = step_int(b);
                if float_exact(x) && float_exact(y) {
                    Ok(Some(if x < y { -1 } else if x == y { 0 } else { 1 }))
                } else {
                    Err(MathError::FloatArithmetic)
                }
            },
        },
        _ => Ok(None),
    }
}

pub open spec fn step_int(n: StepNum) -> int {
    match n {
        StepNum::Int(x) => x as int,
        StepNum::Char(c) => c as int,
        StepNum::Float => 0,
    }
}

fn exact_int(n: StepNum) -> (r: Option<i64>)
    ensures
        match r {
            Some(x) => x == step_int(n) && float_exact(x as int) && !(n is Float),
            None => n is Float || !float_exact(step_int(n)),
        },
{
    let bound: i64 = 0x20_0000_0000_0000;
    match n {
        StepNum::Int(x) => if -bound <= x && x <= bound {
            Some(x)
        } else {
            None
        },
        StepNum::Char(c) => if -bound <= c && c <= bound {
            Some(c)
        } else {
            None
        },
        StepNum::Float => None,
    }
}

/// `for`'s comparison of its counter `cur` with its end.
pub fn numeric_cmp(cur: &Value, end: &Value) -> (r: Result<Option<std::cmp::Ordering>, MathError>)
    ensures
        match r {
            Ok(None) => numeric_order_spec(cur@, end@) == Ok::<Option<int>, MathError>(None),
            Ok(Some(o)) => numeric_order_spec(cur@, end@) == Ok::<Option<int>, MathError>(Some(
                match o {
                    std::cmp::Ordering::Less => -1int,
                    std::cmp::Ordering::Equal => 0int,
                    std::cmp::Ordering::Greater => 1int,
                },
            )),
            Err(e) => numeric_order_spec(cur@, end@) == Err::<Option<int>, MathError>(e),
        },
{
    let (a, b) = match (step_num_of(cur), step_num_of(end)) {
        (Some(a), Some(b)) => (a, b),
        _ => {
            return Ok(None);
        },
    };
    if matches!(a, StepNum::Float) || matches!(b, StepNum::Float) {
        return Err(MathError::FloatArithmetic);
    }
    match (exact_int(a), exact_int(b)) {
        (Some(x), Some(y)) => Ok(Some(
            if x < y {
                std::cmp::Ordering::Less
            } else if x == y {
                std::cmp::Ordering::Equal
            } else {
                std::cmp::Ordering::Greater
            },
        )),
        _ => Err(MathError::FloatArithmetic),
    }
}

// ---------------------------------------------------------------------------
// The error a division by zero raises
// ---------------------------------------------------------------------------

/// The `error!` that a division or modulo by zero raises: type `math`,
/// code 400, and the message "math error: <op> by zero".
pub open spec fn by_zero_view(op: OpName) -> ValueView {
    ValueView::Error(
        ErrorView {
            kind: Some("math"@),
            code: Some(400),
            message: "math error: "@ + op_text(op) + " by zero"@,
            args: Seq::empty(),
            near: None,
        },
    )
}

/// The `error!` value that `MathError::ByZero(op)` raises.
pub fn by_zero_error(op: OpName) -> (e: ErrorValue)
    ensures
        Value::Error(e)@ == by_zero_view(op),
{
    let mut message = String::new();
    message.append("math error: ");
    message.append(op.text());
    message.append(" by zero");
    let e = ErrorValue { kind: Some("math".to_string()), code: Some(400), message, args: Vec::new(), near: None };
    proof {
        assert(crate::value::view_items(e.args@) =~= Seq::<ValueView>::empty());
    }
    e
}


/// Amounts in one currency add and subtract cent by cent: `a - b` is the
/// amount of `a`'s cents minus `b`'s, `a + b` of their sum, in that
/// currency, when the result fits; otherwise the arithmetic overflows.
pub proof fn law_money_same_currency(ca: i64, cb: i64, cur: Seq<char>)
    ensures
        subtract_spec(
            ValueView::Money { cents: ca, currency: cur },
            ValueView::Money { cents: cb, currency: cur },
        ) == if i64::MIN <= ca - cb <= i64::MAX {
            Ok::<ValueView, MathError>(ValueView::Money { cents: (ca - cb) as i64, currency: cur })
        } else {
            Err::<ValueView, MathError>(MathError::MoneyOverflow)
        },
        add_spec(
            ValueView::Money { cents: ca, currency: cur },
            ValueView::Money { cents: cb, currency: cur },
        ) == if i64::MIN <= ca + cb <= i64::MAX {
            Ok::<ValueView, MathError>(ValueView::Money { cents: (ca + cb) as i64, currency: cur })
        } else {
            Err::<ValueView, MathError>(MathError::MoneyOverflow)
        },
{
}

/// Subtracting an amount undoes adding it: `(a + b) - b` is `a`, when the
/// sum fits.
pub proof fn law_money_subtract_undoes_add(ca: i64, cb: i64, cur: Seq<char>)
    requires
        i64::MIN <= ca + cb <= i64::MAX,
    ensures
        add_spec(
            ValueView::Money { cents: ca, currency: cur },
            ValueView::Money { cents: cb, currency: cur },
        ) matches Ok(s) && subtract_spec(s, ValueView::Money { cents: cb, currency: cur }) == Ok::<
            ValueView,
            MathError,
        >(ValueView::Money { cents: ca, currency: cur }),
{
    law_money_same_currency(ca, cb, cur);
    law_money_same_currency((ca + cb) as i64, cb, cur);
}


/// `x` cents in `cur` as the outcome of money arithmetic: the amount when
/// it fits in `i64`, else an overflow.
pub open spec fn amount_of(x: int, cur: Seq<char>) -> Result<ValueView, MathError> {
    if i64::MIN <= x <= i64::MAX {
        Ok(ValueView::Money { cents: x as i64, currency: cur })
    } else {
        Err(MathError::MoneyOverflow)
    }
}

/// An integer beside money counts cents: money plus, minus or times an
/// integer (and an integer plus or times money) is money in the same
/// currency with those cents, when they fit; an integer minus money is
/// refused; money divided by zero is refused.
pub proof fn law_money_with_integer(c: i64, n: i64, cur: Seq<char>)
    ensures
        ({
            let m = ValueView::Money { cents: c, currency: cur };
            let i = ValueView::Integer(n);
            &&& add_spec(m, i) == amount_of(c + n, cur)
            &&& add_spec(i, m) == amount_of(n + c, cur)
            &&& subtract_spec(m, i) == amount_of(c - n, cur)
            &&& subtract_spec(i, m) is Err
            &&& multiply_spec(m, i) == amount_of(c * n, cur)
            &&& multiply_spec(i, m) == amount_of(n * c, cur)
            &&& n == 0 ==> divide_spec(m, i) == Err::<ValueView, MathError>(MathError::MoneyByZero)
        }),
{
}


/// Amounts in two currencies do not add or subtract, and no two amounts
/// multiply.
pub proof fn law_money_currencies_kept_apart(ca: i64, cb: i64, x: Seq<char>, y: Seq<char>)
    ensures
        x != y ==> add_spec(
            ValueView::Money { cents: ca, currency: x },
            ValueView::Money { cents: cb, currency: y },
        ) == Err::<ValueView, MathError>(MathError::CurrencyMismatch),
        x != y ==> subtract_spec(
            ValueView::Money { cents: ca, currency: x },
            ValueView::Money { cents: cb, currency: y },
        ) == Err::<ValueView, MathError>(MathError::CurrencyMismatch),
        multiply_spec(
            ValueView::Money { cents: ca, currency: x },
            ValueView::Money { cents: cb, currency: y },
        ) is Err,
{
}

} // verus!
