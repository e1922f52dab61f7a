//! The conversions: the `to-*` natives, `to <type> <value>` and
//! `make <type> <spec>`.
//!
//! Conversions that compute with floating point, that load Red source text,
//! that do calendar arithmetic, or whose values are built by the interpreter
//! itself (objects, modules, functions, ...) are answered with an error that
//! names what the caller has to do instead; everything else is done here.
use vstd::prelude::*;
use vstd::utf8::{decode_utf8, encode_utf8, valid_utf8};

use crate::bitset::{make_bitset, make_defined, make_spec, BitsetError};
use crate::html::{first_non_ws, last_end, to_chars, trim, trim_bounds, unicode_ws};
use crate::json::decimal_wf;
use crate::math::trunc_div;
use crate::printer::{form_spec, form_value};
use crate::text::{char_from_u32, digit_char, int_text, nat_text, push_char, push_int, push_nat, push_str};
use crate::json_decode::str_from_utf8;
use crate::value::{
    clone_error, clone_items, clone_value, kind, kind_name, kind_of, lemma_view_items, truthy, truthy_spec, view_items,
    ErrorValue, ErrorView, Kind, Value,
    ValueView,
};

verus! {

broadcast use vstd::string::group_string_axioms;

// ---------------------------------------------------------------------------
// Types
// ---------------------------------------------------------------------------

/// The datatypes `make` and `to` are asked for.
#[derive(Clone, Copy, Debug, PartialEq, Eq)]
pub enum Target {
    Integer,
    Float,
    Decimal,
    Percent,
    Money,
    Issue,
    Email,
    Tag,
    Str,
    Block,
    Word,
    SetWord,
    GetWord,
    LitWord,
    Logic,
    File,
    Url,
    Char,
    Binary,
    Pair,
    Tuple,
    Date,
    Duration,
    Error,
    Object,
    Module,
    MapVal,
    Hash,
    Vector,
    Image,
    Bitset,
    Typeset,
    Function,
}

/// Which native a `char!` conversion error comes from.
#[derive(Clone, Copy, Debug, PartialEq, Eq)]
pub enum CharMaker {
    /// `to-char`
    To,
    /// `make char!`
    Make,
}

/// The four word kinds a word conversion can produce.
#[derive(Clone, Copy, Debug, PartialEq, Eq)]
pub enum WordKind {
    Word,
    SetWord,
    GetWord,
    LitWord,
}

/// What a conversion accepts, for its type errors.
#[derive(Clone, Copy, Debug, PartialEq, Eq)]
pub enum Expected {
    TypeWord,
    ToInteger,
    ToChar,
    ToFloat,
    ToDecimal,
    ToBlock,
    ToWord,
    ToPath,
    MakeInteger,
    MakePercent,
    MakeMoney,
    MoneyCents,
    MoneyCurrency,
    MakeDuration,
    IntegerPart,
    MakeString,
    MakeBlock,
    MakePath,
    MakeChar,
    MakeBinary,
    BinaryPart,
    MakePair,
    MakeTuple,
    TuplePart,
    MakeError,
    MakeEmail,
    EmailPart,
    MakeTag,
    TagPart,
    MakeIssue,
    IssuePart,
    MakeDate,
    ErrorArg,
}

/// The accepted datatypes, as an error message lists them.
pub open spec fn expected_text(e: Expected) -> Seq<char> {
    match e {
        Expected::TypeWord => "word!"@,
        Expected::ToInteger => "integer!, float!, logic!, none!, char!, or string!"@,
        Expected::ToChar => "char!, integer!, float!, logic!, or single-char string!"@,
        Expected::ToFloat => "integer!, float!, or string!"@,
        Expected::ToDecimal => "integer!, float!, decimal!, percent!, money!, or string!"@,
        Expected::ToBlock => "string!, block!, paren!, or word!"@,
        Expected::ToWord => "string! or word!"@,
        Expected::ToPath => "string!, file!, url!, or word!"@,
        Expected::MakeInteger => "integer!, float!, logic!, none!, or string!"@,
        Expected::MakePercent => "integer!, float!, percent!, or string!"@,
        Expected::MakeMoney => "integer!, float!, money!, string!, or block!"@,
        Expected::MoneyCents => "integer! (cents)"@,
        Expected::MoneyCurrency => "string! or word! (currency)"@,
        Expected::MakeDuration => "integer!, float!, duration!, string!, or block!"@,
        Expected::IntegerPart => "integer!"@,
        Expected::MakeString => "integer!, string!, block!, paren!, or word!"@,
        Expected::MakeBlock => "integer!, block!, paren!, or string!"@,
        Expected::MakePath => "string!, file!, url!, block!, or word!"@,
        Expected::MakeChar => "integer!, char!, or single-char string!"@,
        Expected::MakeBinary => "binary!, string!, integer!, or block!"@,
        Expected::BinaryPart => "integer!, char!, string!, or binary!"@,
        Expected::MakePair => "pair!, block!, integer!, or float!"@,
        Expected::MakeTuple => "tuple!, integer!, or block!"@,
        Expected::TuplePart => "integer! or char!"@,
        Expected::MakeError => "string! or block!"@,
        Expected::MakeEmail => "string!, email!, or block!"@,
        Expected::EmailPart => "string! or word! (email component)"@,
        Expected::MakeTag => "string!, tag!, block!, or word!"@,
        Expected::TagPart => "string!, integer!, char!, or word! (tag element)"@,
        Expected::MakeIssue => "string!, integer!, issue!, block!, or word!"@,
        Expected::IssuePart => "integer!, char!, or string! (issue element)"@,
        Expected::MakeDate => "string!, integer!, date!, or block!"@,
        Expected::ErrorArg => "error!"@,
    }
}

impl Expected {
    /// The list of accepted datatypes, as the error message gives it.
    pub fn text(&self) -> (r: &'static str)
        ensures
            r@ == expected_text(*self),
    {
        match self {
            Expected::TypeWord => "word!",
            Expected::ToInteger => "integer!, float!, logic!, none!, char!, or string!",
            Expected::ToChar => "char!, integer!, float!, logic!, or single-char string!",
            Expected::ToFloat => "integer!, float!, or string!",
            Expected::ToDecimal => "integer!, float!, decimal!, percent!, money!, or string!",
            Expected::ToBlock => "string!, block!, paren!, or word!",
            Expected::ToWord => "string! or word!",
            Expected::ToPath => "string!, file!, url!, or word!",
            Expected::MakeInteger => "integer!, float!, logic!, none!, or string!",
            Expected::MakePercent => "integer!, float!, percent!, or string!",
            Expected::MakeMoney => "integer!, float!, money!, string!, or block!",
            Expected::MoneyCents => "integer! (cents)",
            Expected::MoneyCurrency => "string! or word! (currency)",
            Expected::MakeDuration => "integer!, float!, duration!, string!, or block!",
            Expected::IntegerPart => "integer!",
            Expected::MakeString => "integer!, string!, block!, paren!, or word!",
            Expected::MakeBlock => "integer!, block!, paren!, or string!",
            Expected::MakePath => "string!, file!, url!, block!, or word!",
            Expected::MakeChar => "integer!, char!, or single-char string!",
            Expected::MakeBinary => "binary!, string!, integer!, or block!",
            Expected::BinaryPart => "integer!, char!, string!, or binary!",
            Expected::MakePair => "pair!, block!, integer!, or float!",
            Expected::MakeTuple => "tuple!, integer!, or block!",
            Expected::TuplePart => "integer! or char!",
            Expected::MakeError => "string! or block!",
            Expected::MakeEmail => "string!, email!, or block!",
            Expected::EmailPart => "string! or word! (email component)",
            Expected::MakeTag => "string!, tag!, block!, or word!",
            Expected::TagPart => "string!, integer!, char!, or word! (tag element)",
            Expected::MakeIssue => "string!, integer!, issue!, block!, or word!",
            Expected::IssuePart => "integer!, char!, or string! (issue element)",
            Expected::MakeDate => "string!, integer!, date!, or block!",
            Expected::ErrorArg => "error!",
        }
    }
}

/// Why a conversion gives no value here.
#[derive(Debug, PartialEq)]
pub enum ConvertError {
    /// The native was called with `got` arguments instead of `expected`.
    Arity { expected: usize, got: usize },
    /// The value is of a datatype the conversion does not accept.
    Type { expected: Expected, found: Kind },
    /// A string that is no integer (the string as given).
    NotInteger(String),
    /// A string that is no decimal (the string as given).
    NotDecimal(String),
    /// An integer whose low 32 bits are no Unicode scalar value.
    Codepoint { maker: CharMaker, n: i64 },
    /// A char from an empty string.
    EmptyChar(CharMaker),
    /// A char from a string of more than one char.
    LongChar(CharMaker),
    /// `to-string` of a binary that is not UTF-8.
    InvalidUtf8,
    /// A value whose form this library does not write.
    Unformable(Kind),
    /// `make pair!` of a block with this many elements (not 2).
    PairLength(usize),
    /// `make tuple!` of this component count (not 3 or 4).
    TupleCount(i64),
    /// `make tuple!` of a block with this many elements (not 3 or 4).
    TupleLength(usize),
    /// A tuple component outside 0-255.
    TupleComponent(i64),
    /// `make email!` of a block that is not `[user host]`.
    EmailBlock,
    /// `make` of a type it does not know (the type word's name).
    UnsupportedMake(String),
    /// `to` of a type it does not know (the type word's name).
    UnsupportedTo(String),
    /// `make bitset!` refused its spec.
    Bitset(BitsetError),
    /// The conversion computes with floating point: the caller makes it.
    Floating,
    /// The conversion loads Red source text: the caller makes it.
    Loading,
    /// The conversion does calendar arithmetic: the caller makes it.
    Calendar,
    /// `make duration!` of a block with this many elements (not 1, 3, 4
    /// or 5).
    DurationLength(usize),
    /// The duration of this many milliseconds: the caller spells it as
    /// seconds, a float.
    DurationMillis(i64),
    /// `make date!` of a block that is not `[y m d]` or `[y m d h mi s]`.
    DateBlock,
    /// The value is built by another part of the interpreter (it evaluates
    /// a spec block, or is of a kind this library does not model): the
    /// caller makes it.
    Elsewhere(Target),
}

/// The prefix of a char conversion's messages.
pub open spec fn maker_prefix(m: CharMaker) -> Seq<char> {
    match m {
        CharMaker::To => "to-char: "@,
        CharMaker::Make => "make char!: "@,
    }
}

impl CharMaker {
    fn prefix(&self) -> (r: &'static str)
        ensures
            r@ == maker_prefix(*self),
    {
        match self {
            CharMaker::To => "to-char: ",
            CharMaker::Make => "make char!: ",
        }
    }
}

/// The message of a conversion's error.
pub open spec fn convert_error_message(e: ConvertFault) -> Seq<char> {
    match e {
        ConvertFault::Arity { .. } => "wrong number of arguments"@,
        ConvertFault::Type { expected, found } => "expected "@ + expected_text(expected) + ", found "@ + kind_name(found),
        ConvertFault::NotInteger(t) => "to-integer: cannot parse "@ + debug_text(t) + " as integer"@,
        ConvertFault::NotDecimal(t) => "to-decimal: cannot parse "@ + debug_text(t) + " as decimal!"@,
        ConvertFault::Codepoint { maker, n } => maker_prefix(maker) + "integer "@ + int_text(n as int) + " is not a valid codepoint"@,
        ConvertFault::EmptyChar(CharMaker::To) => maker_prefix(CharMaker::To) + "empty string has no char"@,
        ConvertFault::EmptyChar(CharMaker::Make) => maker_prefix(CharMaker::Make) + "empty string"@,
        ConvertFault::LongChar(maker) => maker_prefix(maker) + "string has more than one char"@,
        ConvertFault::InvalidUtf8 => "to-string: invalid UTF-8 in binary!"@,
        ConvertFault::Unformable(k) => "form: "@ + kind_name(k) + " values have no form here"@,
        ConvertFault::PairLength(n) => "make pair!: block must have exactly 2 elements, got "@ + nat_text(n as nat),
        ConvertFault::TupleCount(n) => "make tuple!: integer must be 3 or 4 (component count), got "@ + int_text(n as int),
        ConvertFault::TupleLength(n) => "make tuple!: block must have 3 or 4 elements, got "@ + nat_text(n as nat),
        ConvertFault::TupleComponent(n) => "make tuple!: component "@ + int_text(n as int) + " out of range 0-255"@,
        ConvertFault::EmailBlock => "make email!: block must be [user host]"@,
        ConvertFault::UnsupportedMake(t) => "make: "@ + debug_text(t) + " type not supported in POC"@,
        ConvertFault::UnsupportedTo(t) => "to: "@ + debug_text(t) + " type not supported in POC"@,
        ConvertFault::Bitset(BitsetError::NegativeSize(n)) => "make bitset!: size must be non-negative, got "@ + int_text(n as int),
        ConvertFault::Bitset(BitsetError::BadSpec(k)) => "expected string!, char!, binary!, integer!, block!, or bitset!, found "@ + kind_name(k),
        ConvertFault::Bitset(_) => "make bitset!: invalid spec"@,
        ConvertFault::DurationLength(n) => "duration block must have 1, 3, 4, or 5 elements (got "@ + nat_text(n as nat) + ")"@,
        ConvertFault::DurationMillis(n) => "a duration of "@ + int_text(n as int) + " ms, spelled by the interpreter"@,
        ConvertFault::DateBlock => "make date!: block must be [y m d] or [y m d h mi s]"@,
        ConvertFault::Floating => "conversion computes with floating point"@,
        ConvertFault::Loading => "conversion loads source text"@,
        ConvertFault::Calendar => "conversion does calendar arithmetic"@,
        ConvertFault::Elsewhere(_) => "conversion is made by the interpreter"@,
    }
}

impl ConvertError {
    /// The error's message.
    pub fn message(&self) -> (r: String)
        ensures
            r@ == convert_error_message(self@),
    {
        let mut out = String::new();
        match self {
            ConvertError::Arity { .. } => {
                out.append("wrong number of arguments");
            },
            ConvertError::Type { expected, found } => {
                out.append("expected ");
                out.append(expected.text());
                out.append(", found ");
                out.append(found.name());
            },
            ConvertError::NotInteger(t) => {
                out.append("to-integer: cannot parse ");
                let q = debug_quote(t.as_str());
                out.append(q.as_str());
                out.append(" as integer");
            },
            ConvertError::NotDecimal(t) => {
                out.append("to-decimal: cannot parse ");
                let q = debug_quote(t.as_str());
                out.append(q.as_str());
                out.append(" as decimal!");
            },
            ConvertError::Codepoint { maker, n } => {
                out.append(maker.prefix());
                out.append("integer ");
                push_int(&mut out, *n);
                out.append(" is not a valid codepoint");
            },
            ConvertError::EmptyChar(maker) => {
                out.append(maker.prefix());
                match maker {
                    CharMaker::To => out.append("empty string has no char"),
                    CharMaker::Make => out.append("empty string"),
                }
            },
            ConvertError::LongChar(maker) => {
                out.append(maker.prefix());
                out.append("string has more than one char");
            },
            ConvertError::InvalidUtf8 => {
                out.append("to-string: invalid UTF-8 in binary!");
            },
            ConvertError::Unformable(k) => {
                out.append("form: ");
                out.append(k.name());
                out.append(" values have no form here");
            },
            ConvertError::PairLength(n) => {
                out.append("make pair!: block must have exactly 2 elements, got ");
                push_nat(&mut out, *n as u64);
            },
            ConvertError::TupleCount(n) => {
                out.append("make tuple!: integer must be 3 or 4 (component count), got ");
                push_int(&mut out, *n);
            },
            ConvertError::TupleLength(n) => {
                out.append("make tuple!: block must have 3 or 4 elements, got ");
                push_nat(&mut out, *n as u64);
            },
            ConvertError::TupleComponent(n) => {
                out.append("make tuple!: component ");
                push_int(&mut out, *n);
                out.append(" out of range 0-255");
            },
            ConvertError::EmailBlock => {
                out.append("make email!: block must be [user host]");
            },
            ConvertError::UnsupportedMake(t) => {
                out.append("make: ");
                let q = debug_quote(t.as_str());
                out.append(q.as_str());
                out.append(" type not supported in POC");
            },
            ConvertError::UnsupportedTo(t) => {
                out.append("to: ");
                let q = debug_quote(t.as_str());
                out.append(q.as_str());
                out.append(" type not supported in POC");
            },
            ConvertError::Bitset(BitsetError::NegativeSize(n)) => {
                out.append("make bitset!: size must be non-negative, got ");
                push_int(&mut out, *n);
            },
            ConvertError::Bitset(BitsetError::BadSpec(k)) => {
                out.append("expected string!, char!, binary!, integer!, block!, or bitset!, found ");
                out.append(k.name());
            },
            ConvertError::Bitset(_) => {
                out.append("make bitset!: invalid spec");
            },
            ConvertError::DurationLength(n) => {
                out.append("duration block must have 1, 3, 4, or 5 elements (got ");
                push_nat(&mut out, *n as u64);
                out.append(")");
            },
            ConvertError::DurationMillis(n) => {
                out.append("a duration of ");
                push_int(&mut out, *n);
                out.append(" ms, spelled by the interpreter");
            },
            ConvertError::DateBlock => {
                out.append("make date!: block must be [y m d] or [y m d h mi s]");
            },
            ConvertError::Floating => {
                out.append("conversion computes with floating point");
            },
            ConvertError::Loading => {
                out.append("conversion loads source text");
            },
            ConvertError::Calendar => {
                out.append("conversion does calendar arithmetic");
            },
            ConvertError::Elsewhere(_) => {
                out.append("conversion is made by the interpreter");
            },
        }
        out
    }
}

/// `ConvertError` with every `String` replaced by its characters.
pub enum ConvertFault {
    Arity { expected: usize, got: usize },
    Type { expected: Expected, found: Kind },
    NotInteger(Seq<char>),
    NotDecimal(Seq<char>),
    Codepoint { maker: CharMaker, n: i64 },
    EmptyChar(CharMaker),
    LongChar(CharMaker),
    InvalidUtf8,
    Unformable(Kind),
    PairLength(usize),
    TupleCount(i64),
    TupleLength(usize),
    TupleComponent(i64),
    EmailBlock,
    UnsupportedMake(Seq<char>),
    UnsupportedTo(Seq<char>),
    Bitset(BitsetError),
    Floating,
    Loading,
    Calendar,
    DurationLength(usize),
    DurationMillis(i64),
    DateBlock,
    Elsewhere(Target),
}

impl View for ConvertError {
    type V = ConvertFault;

    open spec fn view(&self) -> ConvertFault {
        match self {
            ConvertError::Arity { expected, got } => ConvertFault::Arity { expected: *expected, got: *got },
            ConvertError::Type { expected, found } => ConvertFault::Type { expected: *expected, found: *found },
            ConvertError::NotInteger(s) => ConvertFault::NotInteger(s@),
            ConvertError::NotDecimal(s) => ConvertFault::NotDecimal(s@),
            ConvertError::Codepoint { maker, n } => ConvertFault::Codepoint { maker: *maker, n: *n },
            ConvertError::EmptyChar(m) => ConvertFault::EmptyChar(*m),
            ConvertError::LongChar(m) => ConvertFault::LongChar(*m),
            ConvertError::InvalidUtf8 => ConvertFault::InvalidUtf8,
            ConvertError::Unformable(k) => ConvertFault::Unformable(*k),
            ConvertError::PairLength(n) => ConvertFault::PairLength(*n),
            ConvertError::TupleCount(n) => ConvertFault::TupleCount(*n),
            ConvertError::TupleLength(n) => ConvertFault::TupleLength(*n),
            ConvertError::TupleComponent(n) => ConvertFault::TupleComponent(*n),
            ConvertError::EmailBlock => ConvertFault::EmailBlock,
            ConvertError::UnsupportedMake(s) => ConvertFault::UnsupportedMake(s@),
            ConvertError::UnsupportedTo(s) => ConvertFault::UnsupportedTo(s@),
            ConvertError::Bitset(e) => ConvertFault::Bitset(*e),
            ConvertError::Floating => ConvertFault::Floating,
            ConvertError::Loading => ConvertFault::Loading,
            ConvertError::Calendar => ConvertFault::Calendar,
            ConvertError::DurationLength(n) => ConvertFault::DurationLength(*n),
            ConvertError::DurationMillis(n) => ConvertFault::DurationMillis(*n),
            ConvertError::DateBlock => ConvertFault::DateBlock,
            ConvertError::Elsewhere(t) => ConvertFault::Elsewhere(*t),
        }
    }
}

/// A conversion's result, taken by views.
pub open spec fn outcome(r: Result<Value, ConvertError>) -> Result<ValueView, ConvertFault> {
    match r {
        Ok(v) => Ok(v@),
        Err(e) => Err(e@),
    }
}

/// A `decimal!` value is one `rust_decimal` can represent.
pub open spec fn decimal_ok(v: ValueView) -> bool {
    v matches ValueView::Decimal { mantissa, scale } ==> decimal_wf(mantissa, scale)
}

/// A type error.
pub open spec fn type_fault(expected: Expected, v: ValueView) -> Result<ValueView, ConvertFault> {
    Err(ConvertFault::Type { expected, found: kind_of(v) })
}

fn type_error(expected: Expected, v: &Value) -> (r: Result<Value, ConvertError>)
    ensures
        outcome(r) == type_fault(expected, v@),
{
    Err(ConvertError::Type { expected, found: kind(v) })
}

// ---------------------------------------------------------------------------
// Words and type words
// ---------------------------------------------------------------------------

/// The name of a word-family value (`word!`, `set-word!`, `get-word!`,
/// `lit-word!` or `refinement!`).
pub open spec fn word_name(v: ValueView) -> Option<Seq<char>> {
    match v {
        ValueView::Word(s) => Some(s),
        ValueView::SetWord(s) => Some(s),
        ValueView::GetWord(s) => Some(s),
        ValueView::LitWord(s) => Some(s),
        ValueView::Refinement(s) => Some(s),
        _ => None,
    }
}

/// The name of a word-family value.
pub fn word_sym(v: &Value) -> (r: Option<String>)
    ensures
        r is Some == word_name(v@) is Some,
        r matches Some(s) ==> s@ == word_name(v@)->Some_0,
{
    match v {
        Value::Word(s) => Some(s.clone()),
        Value::SetWord(s) => Some(s.clone()),
        Value::GetWord(s) => Some(s.clone()),
        Value::LitWord(s) => Some(s.clone()),
        Value::Refinement(s) => Some(s.clone()),
        _ => None,
    }
}

/// The name a type operand gives: a `word!`, `lit-word!` or `refinement!`.
pub open spec fn type_name_spec(v: ValueView) -> Result<Seq<char>, ConvertFault> {
    match v {
        ValueView::Word(s) => Ok(s),
        ValueView::LitWord(s) => Ok(s),
        ValueView::Refinement(s) => Ok(s),
        _ => Err(ConvertFault::Type { expected: Expected::TypeWord, found: kind_of(v) }),
    }
}

/// The name a type operand gives (`integer!`, `'string!`, ...).
pub fn type_name_operand(v: &Value) -> (r: Result<String, ConvertError>)
    ensures
        match r {
            Ok(s) => type_name_spec(v@) == Ok::<Seq<char>, ConvertFault>(s@),
            Err(e) => type_name_spec(v@) == Err::<Seq<char>, ConvertFault>(e@),
        },
{
    match v {
        Value::Word(s) => Ok(s.clone()),
        Value::LitWord(s) => Ok(s.clone()),
        Value::Refinement(s) => Ok(s.clone()),
        other => Err(ConvertError::Type { expected: Expected::TypeWord, found: kind(other) }),
    }
}

/// A word of the given kind named `s`.
pub open spec fn word_of(k: WordKind, s: Seq<char>) -> ValueView {
    match k {
        WordKind::Word => ValueView::Word(s),
        WordKind::SetWord => ValueView::SetWord(s),
        WordKind::GetWord => ValueView::GetWord(s),
        WordKind::LitWord => ValueView::LitWord(s),
    }
}

/// A word of the given kind named `s`.
pub fn mk_word(k: WordKind, s: String) -> (r: Value)
    ensures
        r@ == word_of(k, s@),
{
    match k {
        WordKind::Word => Value::Word(s),
        WordKind::SetWord => Value::SetWord(s),
        WordKind::GetWord => Value::GetWord(s),
        WordKind::LitWord => Value::LitWord(s),
    }
}

// ---------------------------------------------------------------------------
// Integers from text
// ---------------------------------------------------------------------------

/// An ASCII decimal digit.
pub open spec fn is_digit(c: char) -> bool {
    48 <= c as u32 <= 57
}

pub open spec fn all_digits(t: Seq<char>) -> bool {
    forall|i: int| 0 <= i < t.len() ==> is_digit(#[trigger] t[i])
}

/// The value of a decimal digit.
pub open spec fn digit_val(c: char) -> nat {
    (c as u32 - 48) as nat
}

/// The number decimal digits spell.
pub open spec fn digits_num(t: Seq<char>) -> nat
    decreases t.len(),
{
    if t.len() == 0 {
        0
    } else {
        10 * digits_num(t.drop_last()) + digit_val(t.last())
    }
}

/// `i64`'s `FromStr`: an optional `+` or `-`, then one or more ASCII
/// digits, spelling a value in range.
pub open spec fn parse_int(s: Seq<char>) -> Option<i64> {
    let neg = s.len() > 0 && s[0] == '-';
    let body = if s.len() > 0 && (s[0] == '-' || s[0] == '+') {
        s.drop_first()
    } else {
        s
    };
    if body.len() == 0 || !all_digits(body) {
        None
    } else {
        let m = digits_num(body) as int;
        let v = if neg {
            -m
        } else {
            m
        };
        if i64::MIN <= v <= i64::MAX {
            Some(v as i64)
        } else {
            None
        }
    }
}

proof fn lemma_digits_prefix(t: Seq<char>, k: int, j: int)
    requires
        0 <= k <= j <= t.len(),
        all_digits(t),
    ensures
        digits_num(t.take(k)) <= digits_num(t.take(j)),
    decreases j - k,
{
    if k < j {
        lemma_digits_prefix(t, k, j - 1);
        assert(t.take(j).drop_last() =~= t.take(j - 1));
        assert(is_digit(t[j - 1]));
    }
}

/// `s.trim().parse::<i64>()`.
fn parse_i64(s: &String) -> (r: Option<i64>)
    ensures
        r == parse_int(trim(s@)),
{
    let cs = to_chars(s.as_str());
    let (a, b) = trim_bounds(&cs, 0, cs.len());
    assert(cs@.subrange(0, cs@.len() as int) =~= s@);
    let ghost t = cs@.subrange(a as int, b as int);
    if a == b {
        return None;
    }
    let mut i = a;
    let neg = cs[i] == '-';
    if cs[i] == '-' || cs[i] == '+' {
        i = i + 1;
    }
    let ghost body = cs@.subrange(i as int, b as int);
    proof {
        if t[0] == '-' || t[0] == '+' {
            assert(body =~= t.drop_first());
        } else {
            assert(body =~= t);
        }
    }
    if i == b {
        return None;
    }
    let start = i;
    let mut acc: u64 = 0;
    while i < b
        invariant
            start <= i <= b,
            b <= cs@.len(),
            body == cs@.subrange(start as int, b as int),
            t == trim(s@),
            t.len() > 0,
            neg == (t[0] == '-'),
            body == (if t[0] == '-' || t[0] == '+' {
                t.drop_first()
            } else {
                t
            }),
            body.len() > 0,
            all_digits(body.take(i - start)),
            acc == digits_num(body.take(i - start)),
            acc <= 0x8000_0000_0000_0000u64,
        decreases b - i,
    {
        let u = cs[i] as u32;
        assert(body[i - start] == cs@[i as int]);
        if u < 48 || u > 57 {
            return None;
        }
        let next: u128 = acc as u128 * 10 + (u - 48) as u128;
        assert(body.take(i - start + 1).drop_last() =~= body.take(i - start));
        assert(body.take(i - start + 1).last() == cs@[i as int]);
        if next > 0x8000_0000_0000_0000u128 {
            proof {
                assert(digit_val(cs@[i as int]) == u - 48);
                assert(digits_num(body.take(i - start + 1)) == next);
                if all_digits(body) {
                    assert(body.take(body.len() as int) =~= body);
                    lemma_digits_prefix(body, i - start + 1, body.len() as int);
                }
            }
            return None;
        }
        proof {
            let k = i - start;
            let c = cs@[i as int];
            assert(c as u32 == u);
            assert(is_digit(c));
            assert forall|j: int| 0 <= j < k + 1 implies is_digit(#[trigger] body.take(k + 1)[j]) by {
                if j < k {
                    assert(body.take(k + 1)[j] == body.take(k)[j]);
                }
            }
            assert(digits_num(body.take(k + 1)) == 10 * digits_num(body.take(k)) + digit_val(c));
        }
        acc = next as u64;
        i = i + 1;
    }
    assert(body.take(body.len() as int) =~= body);
    if neg {
        if acc == 0x8000_0000_0000_0000u64 {
            Some(i64::MIN)
        } else {
            Some(-(acc as i64))
        }
    } else if acc > 0x7FFF_FFFF_FFFF_FFFFu64 {
        None
    } else {
        Some(acc as i64)
    }
}

// ---------------------------------------------------------------------------
// Calls into rust_decimal and std
// ---------------------------------------------------------------------------

/// `10^n`.
pub open spec fn pow10(n: nat) -> int
    decreases n,
{
    if n == 0 {
        1
    } else {
        10 * pow10((n - 1) as nat)
    }
}

/// A decimal truncated toward zero, if that fits in an `i64`.
pub open spec fn decimal_trunc(mantissa: i128, scale: u32) -> Option<i64> {
    let q = trunc_div(mantissa as int, pow10(scale as nat));
    if i64::MIN <= q <= i64::MAX {
        Some(q as i64)
    } else {
        None
    }
}

/// `i64::try_from(Decimal::from_i128_with_scale(mantissa, scale)).ok()`
/// (`rust_decimal`): the conversion goes through `Decimal::to_i64`, which
/// truncates the value toward zero and answers `None` when the result does
/// not fit in an `i64`.
#[verifier::external_body]
fn decimal_to_i64(mantissa: i128, scale: u32) -> (r: Option<i64>)
    requires
        decimal_wf(mantissa, scale),
    ensures
        r == decimal_trunc(mantissa, scale),
{
    i64::try_from(rust_decimal::Decimal::from_i128_with_scale(mantissa, scale)).ok()
}

/// The mantissa and scale `s.parse::<rust_decimal::Decimal>()` gives, or
/// `None` when it refuses `s`.
pub uninterp spec fn decimal_from_str(s: Seq<char>) -> Option<(i128, u32)>;

/// `s.parse::<rust_decimal::Decimal>()`, taken apart into mantissa and
/// scale: the contract names the result, and states the decimal type's own
/// invariant (a 96-bit mantissa, a scale of at most 28).
#[verifier::external_body]
fn parse_decimal(s: &str) -> (r: Option<(i128, u32)>)
    ensures
        r == decimal_from_str(s@),
        r matches Some((m, sc)) ==> decimal_wf(m, sc),
{
    match s.parse::<rust_decimal::Decimal>() {
        Ok(d) => Some((d.mantissa(), d.scale())),
        Err(_) => None,
    }
}

/// The text `format!("{:?}", s)` writes for a string: quoted, with `Debug`'s
/// escapes.
pub uninterp spec fn debug_text(s: Seq<char>) -> Seq<char>;

/// `format!("{:?}", s)`: the contract names the result.
#[verifier::external_body]
fn debug_quote(s: &str) -> (r: String)
    ensures
        r@ == debug_text(s@),
{
    format!("{:?}", s)
}

// ---------------------------------------------------------------------------
// Integers, chars and decimals
// ---------------------------------------------------------------------------

/// The wrong argument count.
pub open spec fn arity_fault(expected: usize, got: nat) -> Result<ValueView, ConvertFault> {
    Err(ConvertFault::Arity { expected, got: got as usize })
}

/// `to-integer value`.
pub open spec fn to_integer_spec(v: ValueView) -> Result<ValueView, ConvertFault> {
    match v {
        ValueView::Integer(n) => Ok(ValueView::Integer(n)),
        ValueView::Float(_) => Err(ConvertFault::Floating),
        ValueView::Decimal { mantissa, scale } => Ok(
            ValueView::Integer(
                match decimal_trunc(mantissa, scale) {
                    Some(q) => q,
                    None => 0,
                },
            ),
        ),
        ValueView::Logic(b) => Ok(ValueView::Integer(if b { 1 } else { 0 })),
        ValueView::NoneVal => Ok(ValueView::Integer(0)),
        ValueView::Str(s) => match parse_int(trim(s)) {
            Some(n) => Ok(ValueView::Integer(n)),
            None => Err(ConvertFault::NotInteger(s)),
        },
        ValueView::Char(c) => Ok(ValueView::Integer(c as i64)),
        ValueView::Money { cents, .. } => Ok(ValueView::Integer(cents)),
        ValueView::Duration(_) => Err(ConvertFault::Floating),
        _ => type_fault(Expected::ToInteger, v),
    }
}

fn integer_of_text(s: &String) -> (r: Result<Value, ConvertError>)
    ensures
        outcome(r) == match parse_int(trim(s@)) {
            Some(n) => Ok::<ValueView, ConvertFault>(ValueView::Integer(n)),
            None => Err::<ValueView, ConvertFault>(ConvertFault::NotInteger(s@)),
        },
{
    match parse_i64(s) {
        Some(n) => Ok(Value::Integer(n)),
        None => Err(ConvertError::NotInteger(s.clone())),
    }
}

fn integer_value(v: &Value) -> (r: Result<Value, ConvertError>)
    requires
        decimal_ok(v@),
    ensures
        outcome(r) == to_integer_spec(v@),
{
    match v {
        Value::Integer(n) => Ok(Value::Integer(*n)),
        Value::Float(_) => Err(ConvertError::Floating),
        Value::Decimal { mantissa, scale } => Ok(
            Value::Integer(
                match decimal_to_i64(*mantissa, *scale) {
                    Some(q) => q,
                    None => 0,
                },
            ),
        ),
        Value::Logic(b) => Ok(Value::Integer(if *b { 1 } else { 0 })),
        Value::NoneVal => Ok(Value::Integer(0)),
        Value::Str(s) => integer_of_text(s),
        Value::Char(c) => Ok(Value::Integer(*c as u32 as i64)),
        Value::Money { cents, .. } => Ok(Value::Integer(*cents)),
        Value::Duration(_) => Err(ConvertError::Floating),
        other => type_error(Expected::ToInteger, other),
    }
}

/// `to-integer value`: integers as they are; decimals truncated toward
/// zero (0 when out of range); `true`/`false` as 1/0; `none` as 0; strings
/// parsed (after trimming whitespace); chars as their code point; money as
/// its cents. Floats and durations are converted by the caller.
pub fn to_integer(args: &[Value]) -> (r: Result<Value, ConvertError>)
    requires
        args@.len() == 1 ==> decimal_ok(args@[0]@),
    ensures
        outcome(r) == if args@.len() != 1 {
            arity_fault(1, args@.len())
        } else {
            to_integer_spec(args@[0]@)
        },
{
    if args.len() != 1 {
        return Err(ConvertError::Arity { expected: 1, got: args.len() });
    }
    integer_value(&args[0])
}

/// `make integer! spec`.
pub open spec fn make_integer_spec(v: ValueView) -> Result<ValueView, ConvertFault> {
    match v {
        ValueView::Integer(n) => Ok(ValueView::Integer(n)),
        ValueView::Float(_) => Err(ConvertFault::Floating),
        ValueView::Logic(b) => Ok(ValueView::Integer(if b { 1 } else { 0 })),
        ValueView::NoneVal => Ok(ValueView::Integer(0)),
        ValueView::Str(s) => match parse_int(trim(s)) {
            Some(n) => Ok(ValueView::Integer(n)),
            None => Err(ConvertFault::NotInteger(s)),
        },
        _ => type_fault(Expected::MakeInteger, v),
    }
}

/// `make integer! spec`: like `to-integer`, for integers, logic values,
/// `none` and strings.
pub fn make_integer(spec: &Value) -> (r: Result<Value, ConvertError>)
    ensures
        outcome(r) == make_integer_spec(spec@),
{
    match spec {
        Value::Integer(n) => Ok(Value::Integer(*n)),
        Value::Float(_) => Err(ConvertError::Floating),
        Value::Logic(b) => Ok(Value::Integer(if *b { 1 } else { 0 })),
        Value::NoneVal => Ok(Value::Integer(0)),
        Value::Str(s) => integer_of_text(s),
        other => type_error(Expected::MakeInteger, other),
    }
}

/// The char whose code point is the low 32 bits of `n`.
pub open spec fn char_of_code(n: i64, maker: CharMaker) -> Result<ValueView, ConvertFault> {
    let cp = n as u32;
    if cp <= 0x10FFFF && !(0xD800 <= cp <= 0xDFFF) {
        Ok(ValueView::Char(cp as char))
    } else {
        Err(ConvertFault::Codepoint { maker, n })
    }
}

/// The one char of a one-char string.
pub open spec fn single_char(s: Seq<char>, maker: CharMaker) -> Result<ValueView, ConvertFault> {
    if s.len() == 0 {
        Err(ConvertFault::EmptyChar(maker))
    } else if s.len() > 1 {
        Err(ConvertFault::LongChar(maker))
    } else {
        Ok(ValueView::Char(s[0]))
    }
}

fn char_from_code(n: i64, maker: CharMaker) -> (r: Result<Value, ConvertError>)
    ensures
        outcome(r) == char_of_code(n, maker),
{
    match char_from_u32(n as u32) {
        Some(c) => Ok(Value::Char(c)),
        None => Err(ConvertError::Codepoint { maker, n }),
    }
}

fn char_from_text(s: &String, maker: CharMaker) -> (r: Result<Value, ConvertError>)
    ensures
        outcome(r) == single_char(s@, maker),
{
    let n = s.as_str().unicode_len();
    if n == 0 {
        Err(ConvertError::EmptyChar(maker))
    } else if n > 1 {
        Err(ConvertError::LongChar(maker))
    } else {
        Ok(Value::Char(s.as_str().get_char(0)))
    }
}

/// `to-char value`.
pub open spec fn to_char_spec(v: ValueView) -> Result<ValueView, ConvertFault> {
    match v {
        ValueView::Char(c) => Ok(ValueView::Char(c)),
        ValueView::Integer(n) => char_of_code(n, CharMaker::To),
        ValueView::Float(_) => Err(ConvertFault::Floating),
        ValueView::Logic(b) => Ok(ValueView::Char(if b { '\u{1}' } else { '\u{0}' })),
        ValueView::Str(s) => single_char(s, CharMaker::To),
        _ => type_fault(Expected::ToChar, v),
    }
}

fn char_value(v: &Value) -> (r: Result<Value, ConvertError>)
    ensures
        outcome(r) == to_char_spec(v@),
{
    match v {
        Value::Char(c) => Ok(Value::Char(*c)),
        Value::Integer(n) => char_from_code(*n, CharMaker::To),
        Value::Float(_) => Err(ConvertError::Floating),
        Value::Logic(b) => Ok(Value::Char(if *b { '\u{1}' } else { '\u{0}' })),
        Value::Str(s) => char_from_text(s, CharMaker::To),
        other => type_error(Expected::ToChar, other),
    }
}

/// `to-char value`: chars as they are; integers by the code point in their
/// low 32 bits; `true`/`false` as `#"^(01)"`/`#"^(00)"`; one-char strings
/// by their char. Floats are converted by the caller.
pub fn to_char(args: &[Value]) -> (r: Result<Value, ConvertError>)
    ensures
        outcome(r) == if args@.len() != 1 {
            arity_fault(1, args@.len())
        } else {
            to_char_spec(args@[0]@)
        },
{
    if args.len() != 1 {
        return Err(ConvertError::Arity { expected: 1, got: args.len() });
    }
    char_value(&args[0])
}

/// `make char! spec`.
pub open spec fn make_char_spec(v: ValueView) -> Result<ValueView, ConvertFault> {
    match v {
        ValueView::Char(c) => Ok(ValueView::Char(c)),
        ValueView::Integer(n) => char_of_code(n, CharMaker::Make),
        ValueView::Str(s) => single_char(s, CharMaker::Make),
        _ => type_fault(Expected::MakeChar, v),
    }
}

/// `make char! spec`: from a char, an integer code point or a one-char
/// string.
pub fn make_char(spec: &Value) -> (r: Result<Value, ConvertError>)
    ensures
        outcome(r) == make_char_spec(spec@),
{
    match spec {
        Value::Char(c) => Ok(Value::Char(*c)),
        Value::Integer(n) => char_from_code(*n, CharMaker::Make),
        Value::Str(s) => char_from_text(s, CharMaker::Make),
        other => type_error(Expected::MakeChar, other),
    }
}

/// `to-decimal value`.
pub open spec fn to_decimal_spec(v: ValueView) -> Result<ValueView, ConvertFault> {
    match v {
        ValueView::Integer(n) => Ok(ValueView::Decimal { mantissa: n as i128, scale: 0 }),
        ValueView::Float(_) => Err(ConvertFault::Floating),
        ValueView::Decimal { mantissa, scale } => Ok(ValueView::Decimal { mantissa, scale }),
        ValueView::Percent(_) => Err(ConvertFault::Floating),
        ValueView::Money { cents, .. } => Ok(ValueView::Decimal { mantissa: cents as i128, scale: 2 }),
        ValueView::Str(s) => match decimal_from_str(s) {
            Some((m, sc)) => Ok(ValueView::Decimal { mantissa: m, scale: sc }),
            None => Err(ConvertFault::NotDecimal(s)),
        },
        _ => type_fault(Expected::ToDecimal, v),
    }
}

fn decimal_value(v: &Value) -> (r: Result<Value, ConvertError>)
    ensures
        outcome(r) == to_decimal_spec(v@),
{
    match v {
        Value::Integer(n) => Ok(Value::Decimal { mantissa: *n as i128, scale: 0 }),
        Value::Float(_) => Err(ConvertError::Floating),
        Value::Decimal { mantissa, scale } => Ok(Value::Decimal { mantissa: *mantissa, scale: *scale }),
        Value::Percent(_) => Err(ConvertError::Floating),
        Value::Money { cents, .. } => Ok(Value::Decimal { mantissa: *cents as i128, scale: 2 }),
        Value::Str(s) => match parse_decimal(s.as_str()) {
            Some((m, sc)) => Ok(Value::Decimal { mantissa: m, scale: sc }),
            None => Err(ConvertError::NotDecimal(s.clone())),
        },
        other => type_error(Expected::ToDecimal, other),
    }
}

/// `to-decimal value`: integers exactly; decimals as they are; money as
/// its cents at scale 2; strings as `rust_decimal` parses them. Floats and
/// percents are converted by the caller.
pub fn to_decimal(args: &[Value]) -> (r: Result<Value, ConvertError>)
    ensures
        outcome(r) == if args@.len() != 1 {
            arity_fault(1, args@.len())
        } else {
            to_decimal_spec(args@[0]@)
        },
{
    if args.len() != 1 {
        return Err(ConvertError::Arity { expected: 1, got: args.len() });
    }
    decimal_value(&args[0])
}

// ---------------------------------------------------------------------------
// Strings, blocks, words and paths
// ---------------------------------------------------------------------------

/// The form of `v` as a `string!`.
pub open spec fn form_result(v: ValueView) -> Result<ValueView, ConvertFault> {
    match form_spec(v) {
        Some(t) => Ok(ValueView::Str(t)),
        None => Err(ConvertFault::Unformable(kind_of(v))),
    }
}

fn form_of(v: &Value) -> (r: Result<Value, ConvertError>)
    ensures
        outcome(r) == form_result(v@),
{
    match form_value(v) {
        Some(t) => Ok(Value::Str(t)),
        None => Err(ConvertError::Unformable(kind(v))),
    }
}

/// `to-string value`.
pub open spec fn to_string_spec(v: ValueView) -> Result<ValueView, ConvertFault> {
    match v {
        ValueView::Binary(b) => if valid_utf8(b) {
            Ok(ValueView::Str(decode_utf8(b)))
        } else {
            Err(ConvertFault::InvalidUtf8)
        },
        _ => form_result(v),
    }
}

fn string_value(v: &Value) -> (r: Result<Value, ConvertError>)
    ensures
        outcome(r) == to_string_spec(v@),
{
    match v {
        Value::Binary(b) => match str_from_utf8(b.as_slice()) {
            Some(t) => Ok(Value::Str(t)),
            None => Err(ConvertError::InvalidUtf8),
        },
        _ => form_of(v),
    }
}

/// `to-string value`: a binary's UTF-8 text; the form of anything else.
pub fn to_string(args: &[Value]) -> (r: Result<Value, ConvertError>)
    ensures
        outcome(r) == if args@.len() != 1 {
            arity_fault(1, args@.len())
        } else {
            to_string_spec(args@[0]@)
        },
{
    if args.len() != 1 {
        return Err(ConvertError::Arity { expected: 1, got: args.len() });
    }
    string_value(&args[0])
}

/// `to-block value`.
pub open spec fn to_block_spec(v: ValueView) -> Result<ValueView, ConvertFault> {
    match v {
        ValueView::Block(items) => Ok(ValueView::Block(items)),
        ValueView::Paren(items) => Ok(ValueView::Block(items)),
        ValueView::Str(_) => Err(ConvertFault::Loading),
        _ => match word_name(v) {
            Some(n) => Ok(ValueView::Block(seq![ValueView::Word(n)])),
            None => type_fault(Expected::ToBlock, v),
        },
    }
}

fn block_value(v: &Value) -> (r: Result<Value, ConvertError>)
    ensures
        outcome(r) == to_block_spec(v@),
{
    match v {
        Value::Block(items) => Ok(Value::Block(clone_items(items))),
        Value::Paren(items) => Ok(Value::Block(clone_items(items))),
        Value::Str(_) => Err(ConvertError::Loading),
        _ => match word_sym(v) {
            Some(n) => {
                let mut items: Vec<Value> = Vec::new();
                items.push(Value::Word(n));
                proof {
                    lemma_view_items(items@);
                    assert(view_items(items@) =~= seq![items@[0]@]);
                }
                Ok(Value::Block(items))
            },
            None => type_error(Expected::ToBlock, v),
        },
    }
}

/// `to-block value`: a block as it is, a paren's elements as a block, a
/// word as a block of that word. Strings are loaded by the caller.
pub fn to_block(args: &[Value]) -> (r: Result<Value, ConvertError>)
    ensures
        outcome(r) == if args@.len() != 1 {
            arity_fault(1, args@.len())
        } else {
            to_block_spec(args@[0]@)
        },
{
    if args.len() != 1 {
        return Err(ConvertError::Arity { expected: 1, got: args.len() });
    }
    block_value(&args[0])
}

/// `to-word value` and its kin, for the word kind `k`.
pub open spec fn to_word_spec(v: ValueView, k: WordKind) -> Result<ValueView, ConvertFault> {
    match v {
        ValueView::Str(s) => Ok(word_of(k, s)),
        _ => match word_name(v) {
            Some(n) => Ok(word_of(k, n)),
            None => type_fault(Expected::ToWord, v),
        },
    }
}

fn word_value(v: &Value, k: WordKind) -> (r: Result<Value, ConvertError>)
    ensures
        outcome(r) == to_word_spec(v@, k),
{
    match v {
        Value::Str(s) => Ok(mk_word(k, s.clone())),
        _ => match word_sym(v) {
            Some(n) => Ok(mk_word(k, n)),
            None => type_error(Expected::ToWord, v),
        },
    }
}

/// A word of kind `k` named by a string or by another word.
pub fn to_word_kind(args: &[Value], k: WordKind) -> (r: Result<Value, ConvertError>)
    ensures
        outcome(r) == if args@.len() != 1 {
            arity_fault(1, args@.len())
        } else {
            to_word_spec(args@[0]@, k)
        },
{
    if args.len() != 1 {
        return Err(ConvertError::Arity { expected: 1, got: args.len() });
    }
    word_value(&args[0], k)
}

/// `to-word value`.
pub fn to_word(args: &[Value]) -> (r: Result<Value, ConvertError>)
    ensures
        outcome(r) == if args@.len() != 1 {
            arity_fault(1, args@.len())
        } else {
            to_word_spec(args@[0]@, WordKind::Word)
        },
{
    to_word_kind(args, WordKind::Word)
}

/// `to-set-word value`.
pub fn to_set_word(args: &[Value]) -> (r: Result<Value, ConvertError>)
    ensures
        outcome(r) == if args@.len() != 1 {
            arity_fault(1, args@.len())
        } else {
            to_word_spec(args@[0]@, WordKind::SetWord)
        },
{
    to_word_kind(args, WordKind::SetWord)
}

/// `to-get-word value`.
pub fn to_get_word(args: &[Value]) -> (r: Result<Value, ConvertError>)
    ensures
        outcome(r) == if args@.len() != 1 {
            arity_fault(1, args@.len())
        } else {
            to_word_spec(args@[0]@, WordKind::GetWord)
        },
{
    to_word_kind(args, WordKind::GetWord)
}

/// `to-lit-word value`.
pub fn to_lit_word(args: &[Value]) -> (r: Result<Value, ConvertError>)
    ensures
        outcome(r) == if args@.len() != 1 {
            arity_fault(1, args@.len())
        } else {
            to_word_spec(args@[0]@, WordKind::LitWord)
        },
{
    to_word_kind(args, WordKind::LitWord)
}

/// `to-logic value`: Red's truthiness (only `none` and `false` are false).
pub fn to_logic(args: &[Value]) -> (r: Result<Value, ConvertError>)
    ensures
        outcome(r) == if args@.len() != 1 {
            arity_fault(1, args@.len())
        } else {
            Ok::<ValueView, ConvertFault>(ValueView::Logic(truthy_spec(args@[0]@)))
        },
{
    if args.len() != 1 {
        return Err(ConvertError::Arity { expected: 1, got: args.len() });
    }
    Ok(Value::Logic(truthy(&args[0])))
}

/// The text a `to-file`/`to-url` conversion carries over.
pub open spec fn path_text(v: ValueView) -> Option<Seq<char>> {
    match v {
        ValueView::Str(s) => Some(s),
        ValueView::File(s) => Some(s),
        ValueView::Url(s) => Some(s),
        _ => word_name(v),
    }
}

fn path_text_of(v: &Value) -> (r: Option<String>)
    ensures
        r is Some == path_text(v@) is Some,
        r matches Some(s) ==> s@ == path_text(v@)->Some_0,
{
    match v {
        Value::Str(s) => Some(s.clone()),
        Value::File(s) => Some(s.clone()),
        Value::Url(s) => Some(s.clone()),
        _ => word_sym(v),
    }
}

/// `to-file value`.
pub open spec fn to_file_spec(v: ValueView) -> Result<ValueView, ConvertFault> {
    match path_text(v) {
        Some(t) => Ok(ValueView::File(t)),
        None => type_fault(Expected::ToPath, v),
    }
}

/// `to-url value`.
pub open spec fn to_url_spec(v: ValueView) -> Result<ValueView, ConvertFault> {
    match path_text(v) {
        Some(t) => Ok(ValueView::Url(t)),
        None => type_fault(Expected::ToPath, v),
    }
}

/// `to-file value`: a file of the text of a string, file, url or word.
pub fn to_file(args: &[Value]) -> (r: Result<Value, ConvertError>)
    ensures
        outcome(r) == if args@.len() != 1 {
            arity_fault(1, args@.len())
        } else {
            to_file_spec(args@[0]@)
        },
{
    if args.len() != 1 {
        return Err(ConvertError::Arity { expected: 1, got: args.len() });
    }
    match path_text_of(&args[0]) {
        Some(t) => Ok(Value::File(t)),
        None => type_error(Expected::ToPath, &args[0]),
    }
}

/// `to-url value`: a url of the text of a string, file, url or word.
pub fn to_url(args: &[Value]) -> (r: Result<Value, ConvertError>)
    ensures
        outcome(r) == if args@.len() != 1 {
            arity_fault(1, args@.len())
        } else {
            to_url_spec(args@[0]@)
        },
{
    if args.len() != 1 {
        return Err(ConvertError::Arity { expected: 1, got: args.len() });
    }
    match path_text_of(&args[0]) {
        Some(t) => Ok(Value::Url(t)),
        None => type_error(Expected::ToPath, &args[0]),
    }
}

/// `make string! spec`.
pub open spec fn make_string_spec(v: ValueView) -> Result<ValueView, ConvertFault> {
    match v {
        ValueView::Integer(_) => Ok(ValueView::Str(Seq::empty())),
        ValueView::Str(s) => Ok(ValueView::Str(s)),
        ValueView::Block(_) => form_result(v),
        ValueView::Paren(_) => form_result(v),
        _ => if word_name(v) is Some {
            form_result(v)
        } else {
            type_fault(Expected::MakeString, v)
        },
    }
}

/// `make string! spec`: an integer is a capacity hint (the string is
/// empty); a string as it is; blocks, parens and words by their form.
pub fn make_string(spec: &Value) -> (r: Result<Value, ConvertError>)
    ensures
        outcome(r) == make_string_spec(spec@),
{
    match spec {
        Value::Integer(_) => Ok(Value::Str(String::new())),
        Value::Str(s) => Ok(Value::Str(s.clone())),
        Value::Block(_) => form_of(spec),
        Value::Paren(_) => form_of(spec),
        _ => if word_sym(spec).is_some() {
            form_of(spec)
        } else {
            type_error(Expected::MakeString, spec)
        },
    }
}

/// `make block! spec`.
pub open spec fn make_block_spec(v: ValueView) -> Result<ValueView, ConvertFault> {
    match v {
        ValueView::Integer(_) => Ok(ValueView::Block(Seq::empty())),
        ValueView::Block(items) => Ok(ValueView::Block(items)),
        ValueView::Paren(items) => Ok(ValueView::Block(items)),
        ValueView::Str(_) => Err(ConvertFault::Loading),
        _ => type_fault(Expected::MakeBlock, v),
    }
}

/// `make block! spec`: an integer is a capacity hint (the block is empty);
/// a block as it is; a paren's elements as a block. Strings are loaded by
/// the caller.
pub fn make_block(spec: &Value) -> (r: Result<Value, ConvertError>)
    ensures
        outcome(r) == make_block_spec(spec@),
{
    match spec {
        Value::Integer(_) => {
            let items: Vec<Value> = Vec::new();
            assert(view_items(items@) =~= Seq::<ValueView>::empty());
            Ok(Value::Block(items))
        },
        Value::Block(items) => Ok(Value::Block(clone_items(items))),
        Value::Paren(items) => Ok(Value::Block(clone_items(items))),
        Value::Str(_) => Err(ConvertError::Loading),
        other => type_error(Expected::MakeBlock, other),
    }
}

/// The text `make file!`/`make url!` builds from: a string, file or url as
/// it is; a block, paren or word by its form.
pub open spec fn make_path_text(v: ValueView) -> Result<Seq<char>, ConvertFault> {
    match v {
        ValueView::Str(s) => Ok(s),
        ValueView::File(s) => Ok(s),
        ValueView::Url(s) => Ok(s),
        _ => if v is Block || v is Paren || word_name(v) is Some {
            match form_spec(v) {
                Some(t) => Ok(t),
                None => Err(ConvertFault::Unformable(kind_of(v))),
            }
        } else {
            Err(ConvertFault::Type { expected: Expected::MakePath, found: kind_of(v) })
        },
    }
}

fn make_path_text_of(v: &Value) -> (r: Result<String, ConvertError>)
    ensures
        match r {
            Ok(s) => make_path_text(v@) == Ok::<Seq<char>, ConvertFault>(s@),
            Err(e) => make_path_text(v@) == Err::<Seq<char>, ConvertFault>(e@),
        },
{
    match v {
        Value::Str(s) => Ok(s.clone()),
        Value::File(s) => Ok(s.clone()),
        Value::Url(s) => Ok(s.clone()),
        _ => {
            let formable = match v {
                Value::Block(_) => true,
                Value::Paren(_) => true,
                _ => word_sym(v).is_some(),
            };
            if formable {
                match form_value(v) {
                    Some(t) => Ok(t),
                    None => Err(ConvertError::Unformable(kind(v))),
                }
            } else {
                Err(ConvertError::Type { expected: Expected::MakePath, found: kind(v) })
            }
        },
    }
}

/// `make file! spec`.
pub open spec fn make_file_spec(v: ValueView) -> Result<ValueView, ConvertFault> {
    match make_path_text(v) {
        Ok(t) => Ok(ValueView::File(t)),
        Err(e) => Err(e),
    }
}

/// `make url! spec`.
pub open spec fn make_url_spec(v: ValueView) -> Result<ValueView, ConvertFault> {
    match make_path_text(v) {
        Ok(t) => Ok(ValueView::Url(t)),
        Err(e) => Err(e),
    }
}

/// `make file! spec`.
pub fn make_file(spec: &Value) -> (r: Result<Value, ConvertError>)
    ensures
        outcome(r) == make_file_spec(spec@),
{
    match make_path_text_of(spec) {
        Ok(t) => Ok(Value::File(t)),
        Err(e) => Err(e),
    }
}

/// `make url! spec`.
pub fn make_url(spec: &Value) -> (r: Result<Value, ConvertError>)
    ensures
        outcome(r) == make_url_spec(spec@),
{
    match make_path_text_of(spec) {
        Ok(t) => Ok(Value::Url(t)),
        Err(e) => Err(e),
    }
}

// ---------------------------------------------------------------------------
// Binaries, pairs and tuples
// ---------------------------------------------------------------------------

/// The eight big-endian bytes of `n` (`n.to_be_bytes()`).
pub open spec fn be_bytes(n: i64) -> Seq<u8> {
    Seq::new(8, |i: int| ((n as u64) >> ((56 - 8 * i) as u64)) as u8)
}

/// The bytes one element of a `make binary!` block stands for.
pub open spec fn binary_part(v: ValueView) -> Option<Seq<u8>> {
    match v {
        ValueView::Integer(n) => Some(seq![n as u8]),
        ValueView::Char(c) => Some(encode_utf8(seq![c])),
        ValueView::Str(s) => Some(encode_utf8(s)),
        ValueView::Binary(b) => Some(b),
        _ => None,
    }
}

/// The bytes of a `make binary!` block from its `i`-th element on.
pub open spec fn binary_from(items: Seq<ValueView>, i: int) -> Result<Seq<u8>, ConvertFault>
    decreases items.len() - i,
{
    if i < 0 || i >= items.len() {
        Ok(Seq::empty())
    } else {
        match binary_part(items[i]) {
            None => Err(ConvertFault::Type { expected: Expected::BinaryPart, found: kind_of(items[i]) }),
            Some(b) => match binary_from(items, i + 1) {
                Ok(rest) => Ok(b + rest),
                Err(e) => Err(e),
            },
        }
    }
}

/// `make binary! spec`.
pub open spec fn make_binary_spec(v: ValueView) -> Result<ValueView, ConvertFault> {
    match v {
        ValueView::Binary(b) => Ok(ValueView::Binary(b)),
        ValueView::Str(s) => Ok(ValueView::Binary(encode_utf8(s))),
        ValueView::Integer(n) => Ok(ValueView::Binary(be_bytes(n))),
        ValueView::Block(items) => match binary_from(items, 0) {
            Ok(b) => Ok(ValueView::Binary(b)),
            Err(e) => Err(e),
        },
        ValueView::Paren(items) => match binary_from(items, 0) {
            Ok(b) => Ok(ValueView::Binary(b)),
            Err(e) => Err(e),
        },
        _ => type_fault(Expected::MakeBinary, v),
    }
}

fn append_bytes(acc: &mut Vec<u8>, b: &[u8])
    ensures
        final(acc)@ == old(acc)@ + b@,
{
    let mut i: usize = 0;
    while i < b.len()
        invariant
            i <= b@.len(),
            acc@ == old(acc)@ + b@.take(i as int),
        decreases b@.len() - i,
    {
        acc.push(b[i]);
        i = i + 1;
        assert(acc@ =~= old(acc)@ + b@.take(i as int));
    }
    assert(b@.take(b@.len() as int) =~= b@);
}

fn int_bytes(n: i64) -> (r: Vec<u8>)
    ensures
        r@ == be_bytes(n),
{
    let u = n as u64;
    let mut out: Vec<u8> = Vec::new();
    let mut i: u64 = 0;
    while i < 8
        invariant
            i <= 8,
            u == n as u64,
            out@ == be_bytes(n).take(i as int),
        decreases 8 - i,
    {
        let sh: u64 = 56 - 8 * i;
        out.push((u >> sh) as u8);
        i = i + 1;
        assert(out@ =~= be_bytes(n).take(i as int));
    }
    assert(be_bytes(n).take(8) =~= be_bytes(n));
    out
}

fn binary_of_items(items: &Vec<Value>) -> (r: Result<Vec<u8>, ConvertError>)
    ensures
        match r {
            Ok(b) => binary_from(view_items(items@), 0) == Ok::<Seq<u8>, ConvertFault>(b@),
            Err(e) => binary_from(view_items(items@), 0) == Err::<Seq<u8>, ConvertFault>(e@),
        },
{
    let ghost vs = view_items(items@);
    proof {
        lemma_view_items(items@);
    }
    let mut acc: Vec<u8> = Vec::new();
    let mut i: usize = 0;
    while i < items.len()
        invariant
            i <= items@.len(),
            vs == view_items(items@),
            vs.len() == items@.len(),
            forall|j: int| 0 <= j < items@.len() ==> #[trigger] vs[j] == items@[j]@,
            binary_from(vs, 0) == match binary_from(vs, i as int) {
                Ok(rest) => Ok::<Seq<u8>, ConvertFault>(acc@ + rest),
                Err(e) => Err::<Seq<u8>, ConvertFault>(e),
            },
        decreases items@.len() - i,
    {
        let ghost before = acc@;
        assert(vs[i as int] == items@[i as int]@);
        match &items[i] {
            Value::Integer(n) => {
                acc.push(*n as u8);
                assert(acc@ =~= before + seq![*n as u8]);
            },
            Value::Char(c) => {
                let mut t = String::new();
                push_char(&mut t, *c);
                append_bytes(&mut acc, t.as_str().as_bytes());
            },
            Value::Str(t) => {
                append_bytes(&mut acc, t.as_str().as_bytes());
            },
            Value::Binary(b) => {
                append_bytes(&mut acc, b.as_slice());
            },
            other => {
                return Err(ConvertError::Type { expected: Expected::BinaryPart, found: kind(other) });
            },
        }
        proof {
            let b = binary_part(vs[i as int])->Some_0;
            assert(acc@ == before + b);
            match binary_from(vs, i + 1) {
                Ok(rest) => {
                    assert(before + (b + rest) =~= acc@ + rest);
                },
                Err(e) => {},
            }
        }
        i = i + 1;
    }
    assert(acc@ + Seq::<u8>::empty() =~= acc@);
    Ok(acc)
}

fn binary_value(v: &Value) -> (r: Result<Value, ConvertError>)
    ensures
        outcome(r) == make_binary_spec(v@),
{
    match v {
        Value::Binary(b) => {
            let mut out: Vec<u8> = Vec::new();
            append_bytes(&mut out, b.as_slice());
            assert(out@ =~= b@);
            Ok(Value::Binary(out))
        },
        Value::Str(s) => {
            let mut out: Vec<u8> = Vec::new();
            append_bytes(&mut out, s.as_str().as_bytes());
            assert(out@ =~= encode_utf8(s@));
            Ok(Value::Binary(out))
        },
        Value::Integer(n) => Ok(Value::Binary(int_bytes(*n))),
        Value::Block(items) => match binary_of_items(items) {
            Ok(b) => Ok(Value::Binary(b)),
            Err(e) => Err(e),
        },
        Value::Paren(items) => match binary_of_items(items) {
            Ok(b) => Ok(Value::Binary(b)),
            Err(e) => Err(e),
        },
        other => type_error(Expected::MakeBinary, other),
    }
}

/// `make binary! spec`: a binary as it is; a string's UTF-8 bytes; an
/// integer's eight big-endian bytes; for a block or paren, the bytes of its
/// elements in order (an integer's low byte, a char's or string's UTF-8
/// bytes, a binary's bytes).
pub fn make_binary(spec: &Value) -> (r: Result<Value, ConvertError>)
    ensures
        outcome(r) == make_binary_spec(spec@),
{
    binary_value(spec)
}

/// `to-binary value`: as `make binary!`.
pub fn to_binary(args: &[Value]) -> (r: Result<Value, ConvertError>)
    ensures
        outcome(r) == if args@.len() != 1 {
            arity_fault(1, args@.len())
        } else {
            make_binary_spec(args@[0]@)
        },
{
    if args.len() != 1 {
        return Err(ConvertError::Arity { expected: 1, got: args.len() });
    }
    binary_value(&args[0])
}

/// `make pair! spec`.
pub open spec fn make_pair_spec(v: ValueView) -> Result<ValueView, ConvertFault> {
    match v {
        ValueView::Pair(_, _) => Ok(v),
        ValueView::Block(items) => pair_of_items(items),
        ValueView::Paren(items) => pair_of_items(items),
        ValueView::Integer(_) => Ok(ValueView::Pair(Box::new(v), Box::new(ValueView::Integer(0)))),
        ValueView::Float(_) => Ok(ValueView::Pair(Box::new(v), Box::new(ValueView::Integer(0)))),
        _ => type_fault(Expected::MakePair, v),
    }
}

/// A pair of a two-element block's elements.
pub open spec fn pair_of_items(items: Seq<ValueView>) -> Result<ValueView, ConvertFault> {
    if items.len() != 2 {
        Err(ConvertFault::PairLength(items.len() as usize))
    } else {
        Ok(ValueView::Pair(Box::new(items[0]), Box::new(items[1])))
    }
}

fn pair_of_vec(items: &Vec<Value>) -> (r: Result<Value, ConvertError>)
    ensures
        outcome(r) == pair_of_items(view_items(items@)),
{
    proof {
        lemma_view_items(items@);
    }
    if items.len() != 2 {
        return Err(ConvertError::PairLength(items.len()));
    }
    let x = clone_value(&items[0]);
    let y = clone_value(&items[1]);
    let r = Value::Pair(Box::new(x), Box::new(y));
    assert(r@ == ValueView::Pair(Box::new(view_items(items@)[0]), Box::new(view_items(items@)[1])));
    Ok(r)
}

fn pair_value(v: &Value) -> (r: Result<Value, ConvertError>)
    ensures
        outcome(r) == make_pair_spec(v@),
{
    match v {
        Value::Pair(_, _) => Ok(clone_value(v)),
        Value::Block(items) => pair_of_vec(items),
        Value::Paren(items) => pair_of_vec(items),
        Value::Integer(_) => {
            let x = clone_value(v);
            let y = Value::Integer(0);
            assert(y@ == ValueView::Integer(0));
            let r = Value::Pair(Box::new(x), Box::new(y));
            assert(r@ == ValueView::Pair(Box::new(v@), Box::new(ValueView::Integer(0))));
            Ok(r)
        },
        Value::Float(_) => {
            let x = clone_value(v);
            let y = Value::Integer(0);
            assert(y@ == ValueView::Integer(0));
            let r = Value::Pair(Box::new(x), Box::new(y));
            assert(r@ == ValueView::Pair(Box::new(v@), Box::new(ValueView::Integer(0))));
            Ok(r)
        },
        other => type_error(Expected::MakePair, other),
    }
}

/// `make pair! spec`: a pair as it is; the two elements of a block or
/// paren; a number as its `x` with `y` 0.
pub fn make_pair(spec: &Value) -> (r: Result<Value, ConvertError>)
    ensures
        outcome(r) == make_pair_spec(spec@),
{
    pair_value(spec)
}

/// `to-pair value`: as `make pair!`.
pub fn to_pair(args: &[Value]) -> (r: Result<Value, ConvertError>)
    ensures
        outcome(r) == if args@.len() != 1 {
            arity_fault(1, args@.len())
        } else {
            make_pair_spec(args@[0]@)
        },
{
    if args.len() != 1 {
        return Err(ConvertError::Arity { expected: 1, got: args.len() });
    }
    pair_value(&args[0])
}

/// One component of a `make tuple!` block.
pub open spec fn tuple_part(v: ValueView) -> Result<u8, ConvertFault> {
    let n: int = match v {
        ValueView::Integer(n) => n as int,
        ValueView::Char(c) => c as int,
        _ => -1,
    };
    if !(v is Integer || v is Char) {
        Err(ConvertFault::Type { expected: Expected::TuplePart, found: kind_of(v) })
    } else if 0 <= n <= 255 {
        Ok(n as u8)
    } else {
        Err(ConvertFault::TupleComponent(n as i64))
    }
}

/// The components of a `make tuple!` block from its `i`-th element on.
pub open spec fn tuple_from(items: Seq<ValueView>, i: int) -> Result<Seq<u8>, ConvertFault>
    decreases items.len() - i,
{
    if i < 0 || i >= items.len() {
        Ok(Seq::empty())
    } else {
        match tuple_part(items[i]) {
            Err(e) => Err(e),
            Ok(b) => match tuple_from(items, i + 1) {
                Ok(rest) => Ok(seq![b] + rest),
                Err(e) => Err(e),
            },
        }
    }
}

/// A tuple of a block's 3 or 4 components.
pub open spec fn tuple_of_items(items: Seq<ValueView>) -> Result<ValueView, ConvertFault> {
    if items.len() < 3 || items.len() > 4 {
        Err(ConvertFault::TupleLength(items.len() as usize))
    } else {
        match tuple_from(items, 0) {
            Ok(b) => Ok(ValueView::Tuple(b)),
            Err(e) => Err(e),
        }
    }
}

/// `make tuple! spec`.
pub open spec fn make_tuple_spec(v: ValueView) -> Result<ValueView, ConvertFault> {
    match v {
        ValueView::Tuple(b) => Ok(ValueView::Tuple(b)),
        ValueView::Integer(n) => if n != 3 && n != 4 {
            Err(ConvertFault::TupleCount(n))
        } else {
            Ok(ValueView::Tuple(Seq::new(n as nat, |i: int| 0u8)))
        },
        ValueView::Block(items) => tuple_of_items(items),
        ValueView::Paren(items) => tuple_of_items(items),
        _ => type_fault(Expected::MakeTuple, v),
    }
}

fn tuple_of(items: &Vec<Value>) -> (r: Result<Value, ConvertError>)
    ensures
        outcome(r) == tuple_of_items(view_items(items@)),
{
    let ghost vs = view_items(items@);
    proof {
        lemma_view_items(items@);
    }
    if items.len() < 3 || items.len() > 4 {
        return Err(ConvertError::TupleLength(items.len()));
    }
    let mut acc: Vec<u8> = Vec::new();
    let mut i: usize = 0;
    while i < items.len()
        invariant
            i <= items@.len(),
            3 <= items@.len() <= 4,
            vs == view_items(items@),
            vs.len() == items@.len(),
            forall|j: int| 0 <= j < items@.len() ==> #[trigger] vs[j] == items@[j]@,
            tuple_from(vs, 0) == match tuple_from(vs, i as int) {
                Ok(rest) => Ok::<Seq<u8>, ConvertFault>(acc@ + rest),
                Err(e) => Err::<Seq<u8>, ConvertFault>(e),
            },
        decreases items@.len() - i,
    {
        let ghost before = acc@;
        assert(vs[i as int] == items@[i as int]@);
        let n: i64 = match &items[i] {
            Value::Integer(n) => *n,
            Value::Char(c) => *c as u32 as i64,
            other => {
                return Err(ConvertError::Type { expected: Expected::TuplePart, found: kind(other) });
            },
        };
        if n < 0 || n > 255 {
            return Err(ConvertError::TupleComponent(n));
        }
        acc.push(n as u8);
        proof {
            let b = tuple_part(vs[i as int])->Ok_0;
            assert(b == n as u8);
            assert(acc@ =~= before + seq![b]);
            match tuple_from(vs, i + 1) {
                Ok(rest) => {
                    assert(before + (seq![b] + rest) =~= acc@ + rest);
                },
                Err(e) => {},
            }
        }
        i = i + 1;
    }
    assert(acc@ + Seq::<u8>::empty() =~= acc@);
    Ok(Value::Tuple(acc))
}

fn tuple_value(v: &Value) -> (r: Result<Value, ConvertError>)
    ensures
        outcome(r) == make_tuple_spec(v@),
{
    match v {
        Value::Tuple(_) => Ok(clone_value(v)),
        Value::Integer(n) => {
            if *n != 3 && *n != 4 {
                return Err(ConvertError::TupleCount(*n));
            }
            let mut out: Vec<u8> = Vec::new();
            let mut i: i64 = 0;
            while i < *n
                invariant
                    0 <= i <= *n,
                    *n == 3 || *n == 4,
                    out@ == Seq::new(i as nat, |k: int| 0u8),
                decreases *n - i,
            {
                out.push(0);
                i = i + 1;
                assert(out@ =~= Seq::new(i as nat, |k: int| 0u8));
            }
            Ok(Value::Tuple(out))
        },
        Value::Block(items) => tuple_of(items),
        Value::Paren(items) => tuple_of(items),
        other => type_error(Expected::MakeTuple, other),
    }
}

/// `make tuple! spec`: a tuple as it is; 3 or 4 as that many zero
/// components; a block or paren of 3 or 4 integers or chars, each 0-255.
pub fn make_tuple(spec: &Value) -> (r: Result<Value, ConvertError>)
    ensures
        outcome(r) == make_tuple_spec(spec@),
{
    tuple_value(spec)
}

/// `to-tuple value`: as `make tuple!`.
pub fn to_tuple(args: &[Value]) -> (r: Result<Value, ConvertError>)
    ensures
        outcome(r) == if args@.len() != 1 {
            arity_fault(1, args@.len())
        } else {
            make_tuple_spec(args@[0]@)
        },
{
    if args.len() != 1 {
        return Err(ConvertError::Arity { expected: 1, got: args.len() });
    }
    tuple_value(&args[0])
}

// ---------------------------------------------------------------------------
// Money, emails, tags and issues
// ---------------------------------------------------------------------------

/// The default currency.
pub open spec fn usd() -> Seq<char> {
    seq!['U', 'S', 'D']
}

fn usd_text() -> (r: String)
    ensures
        r@ == usd(),
{
    let mut t = String::new();
    push_char(&mut t, 'U');
    push_char(&mut t, 'S');
    push_char(&mut t, 'D');
    t
}

/// Money from a `[cents]` or `[cents currency]` block.
pub open spec fn money_of_items(items: Seq<ValueView>) -> Result<ValueView, ConvertFault> {
    if items.len() == 0 {
        Err(ConvertFault::Type { expected: Expected::MoneyCents, found: Kind::Blank })
    } else {
        match items[0] {
            ValueView::Integer(c) => if items.len() == 1 {
                Ok(ValueView::Money { cents: c, currency: usd() })
            } else {
                match items[1] {
                    ValueView::Str(t) => Ok(ValueView::Money { cents: c, currency: t }),
                    ValueView::Word(t) => Ok(ValueView::Money { cents: c, currency: t }),
                    ValueView::LitWord(t) => Ok(ValueView::Money { cents: c, currency: t }),
                    _ => Err(
                        ConvertFault::Type { expected: Expected::MoneyCurrency, found: kind_of(items[1]) },
                    ),
                }
            },
            _ => Err(ConvertFault::Type { expected: Expected::MoneyCents, found: kind_of(items[0]) }),
        }
    }
}

/// `make money! spec`.
pub open spec fn make_money_spec(v: ValueView) -> Result<ValueView, ConvertFault> {
    match v {
        ValueView::Money { cents, currency } => Ok(ValueView::Money { cents, currency }),
        ValueView::Integer(n) => Ok(ValueView::Money { cents: n, currency: usd() }),
        ValueView::Float(_) => Err(ConvertFault::Floating),
        ValueView::Str(_) => Err(ConvertFault::Loading),
        ValueView::Block(items) => money_of_items(items),
        _ => type_fault(Expected::MakeMoney, v),
    }
}

fn money_of(items: &Vec<Value>) -> (r: Result<Value, ConvertError>)
    ensures
        outcome(r) == money_of_items(view_items(items@)),
{
    proof {
        lemma_view_items(items@);
    }
    if items.len() == 0 {
        return Err(ConvertError::Type { expected: Expected::MoneyCents, found: Kind::Blank });
    }
    let c = match &items[0] {
        Value::Integer(c) => *c,
        other => {
            return Err(ConvertError::Type { expected: Expected::MoneyCents, found: kind(other) });
        },
    };
    if items.len() == 1 {
        return Ok(Value::Money { cents: c, currency: usd_text() });
    }
    match &items[1] {
        Value::Str(t) => Ok(Value::Money { cents: c, currency: t.clone() }),
        Value::Word(t) => Ok(Value::Money { cents: c, currency: t.clone() }),
        Value::LitWord(t) => Ok(Value::Money { cents: c, currency: t.clone() }),
        other => Err(ConvertError::Type { expected: Expected::MoneyCurrency, found: kind(other) }),
    }
}

fn money_value(v: &Value) -> (r: Result<Value, ConvertError>)
    ensures
        outcome(r) == make_money_spec(v@),
{
    match v {
        Value::Money { cents, currency } => Ok(Value::Money { cents: *cents, currency: currency.clone() }),
        Value::Integer(n) => Ok(Value::Money { cents: *n, currency: usd_text() }),
        Value::Float(_) => Err(ConvertError::Floating),
        Value::Str(_) => Err(ConvertError::Loading),
        Value::Block(items) => money_of(items),
        other => type_error(Expected::MakeMoney, other),
    }
}

/// `make money! spec`: money as it is; an integer as that many cents (in
/// USD); a `[cents]` or `[cents currency]` block. Floats and strings are
/// converted by the caller.
pub fn make_money(spec: &Value) -> (r: Result<Value, ConvertError>)
    ensures
        outcome(r) == make_money_spec(spec@),
{
    money_value(spec)
}

/// `to-money value`: as `make money!`.
pub fn to_money(args: &[Value]) -> (r: Result<Value, ConvertError>)
    ensures
        outcome(r) == if args@.len() != 1 {
            arity_fault(1, args@.len())
        } else {
            make_money_spec(args@[0]@)
        },
{
    if args.len() != 1 {
        return Err(ConvertError::Arity { expected: 1, got: args.len() });
    }
    money_value(&args[0])
}

/// One half of a `[user host]` email block.
pub open spec fn email_part(v: ValueView) -> Result<Seq<char>, ConvertFault> {
    match v {
        ValueView::Str(t) => Ok(t),
        _ => match word_name(v) {
            Some(n) => Ok(n),
            None => Err(ConvertFault::Type { expected: Expected::EmailPart, found: kind_of(v) }),
        },
    }
}

/// `make email! spec`.
pub open spec fn make_email_spec(v: ValueView) -> Result<ValueView, ConvertFault> {
    match v {
        ValueView::Email(a) => Ok(ValueView::Email(a)),
        ValueView::Str(_) => Err(ConvertFault::Loading),
        ValueView::Block(items) => if items.len() != 2 {
            Err(ConvertFault::EmailBlock)
        } else {
            match email_part(items[0]) {
                Err(e) => Err(e),
                Ok(user) => match email_part(items[1]) {
                    Err(e) => Err(e),
                    Ok(host) => Ok(ValueView::Email(user + seq!['@'] + host)),
                },
            }
        },
        _ => type_fault(Expected::MakeEmail, v),
    }
}

fn email_part_of(v: &Value) -> (r: Result<String, ConvertError>)
    ensures
        match r {
            Ok(t) => email_part(v@) == Ok::<Seq<char>, ConvertFault>(t@),
            Err(e) => email_part(v@) == Err::<Seq<char>, ConvertFault>(e@),
        },
{
    match v {
        Value::Str(t) => Ok(t.clone()),
        _ => match word_sym(v) {
            Some(n) => Ok(n),
            None => Err(ConvertError::Type { expected: Expected::EmailPart, found: kind(v) }),
        },
    }
}

fn email_value(v: &Value) -> (r: Result<Value, ConvertError>)
    ensures
        outcome(r) == make_email_spec(v@),
{
    match v {
        Value::Email(a) => Ok(Value::Email(a.clone())),
        Value::Str(_) => Err(ConvertError::Loading),
        Value::Block(items) => {
            proof {
                lemma_view_items(items@);
            }
            if items.len() != 2 {
                return Err(ConvertError::EmailBlock);
            }
            let user = match email_part_of(&items[0]) {
                Ok(t) => t,
                Err(e) => {
                    return Err(e);
                },
            };
            let host = match email_part_of(&items[1]) {
                Ok(t) => t,
                Err(e) => {
                    return Err(e);
                },
            };
            let mut out = String::new();
            push_str(&mut out, user.as_str());
            push_char(&mut out, '@');
            push_str(&mut out, host.as_str());
            assert(out@ =~= user@ + seq!['@'] + host@);
            Ok(Value::Email(out))
        },
        other => type_error(Expected::MakeEmail, other),
    }
}

/// `make email! spec`: an email as it is; `[user host]` (strings or words)
/// as `user@host`. Strings are read by the caller's loader.
pub fn make_email(spec: &Value) -> (r: Result<Value, ConvertError>)
    ensures
        outcome(r) == make_email_spec(spec@),
{
    email_value(spec)
}

/// `to-email value`: as `make email!`.
pub fn to_email(args: &[Value]) -> (r: Result<Value, ConvertError>)
    ensures
        outcome(r) == if args@.len() != 1 {
            arity_fault(1, args@.len())
        } else {
            make_email_spec(args@[0]@)
        },
{
    if args.len() != 1 {
        return Err(ConvertError::Arity { expected: 1, got: args.len() });
    }
    email_value(&args[0])
}

/// The text one element of a `make tag!` block contributes.
pub open spec fn tag_part(v: ValueView) -> Result<Seq<char>, ConvertFault> {
    match v {
        ValueView::Str(t) => Ok(t),
        ValueView::Integer(n) => Ok(int_text(n as int)),
        ValueView::Char(c) => Ok(seq![c]),
        _ => match word_name(v) {
            Some(n) => Ok(n),
            None => Err(ConvertFault::Type { expected: Expected::TagPart, found: kind_of(v) }),
        },
    }
}

/// The text one element of a `make issue!` block contributes.
pub open spec fn issue_part(v: ValueView) -> Result<Seq<char>, ConvertFault> {
    match v {
        ValueView::Integer(n) => Ok(int_text(n as int)),
        ValueView::Char(c) => Ok(seq![c]),
        ValueView::Str(t) => Ok(t),
        _ => Err(ConvertFault::Type { expected: Expected::IssuePart, found: kind_of(v) }),
    }
}

/// The part an element contributes (`tag` selects the tag rules, else the
/// issue rules).
pub open spec fn joined_part(v: ValueView, tag: bool) -> Result<Seq<char>, ConvertFault> {
    if tag {
        tag_part(v)
    } else {
        issue_part(v)
    }
}

/// The text of a `make tag!` block (elements joined by a space) or of a
/// `make issue!` block (elements run together), from the `i`-th element on.
pub open spec fn joined_from(items: Seq<ValueView>, i: int, tag: bool) -> Result<Seq<char>, ConvertFault>
    decreases items.len() - i,
{
    if i < 0 || i >= items.len() {
        Ok(Seq::empty())
    } else {
        match joined_part(items[i], tag) {
            Err(e) => Err(e),
            Ok(p) => match joined_from(items, i + 1, tag) {
                Ok(rest) => Ok(
                    (if tag && i > 0 {
                        seq![' ']
                    } else {
                        Seq::empty()
                    }) + p + rest,
                ),
                Err(e) => Err(e),
            },
        }
    }
}

fn push_joined_part(out: &mut String, v: &Value, tag: bool) -> (ok: Result<(), ConvertError>)
    ensures
        match joined_part(v@, tag) {
            Ok(p) => ok is Ok && final(out)@ == old(out)@ + p,
            Err(e) => ok matches Err(x) && x@ == e,
        },
{
    match v {
        Value::Str(t) => {
            push_str(out, t.as_str());
            Ok(())
        },
        Value::Integer(n) => {
            push_int(out, *n);
            Ok(())
        },
        Value::Char(c) => {
            push_char(out, *c);
            assert(final(out)@ =~= old(out)@ + seq![*c]);
            Ok(())
        },
        _ => {
            if tag {
                match word_sym(v) {
                    Some(n) => {
                        push_str(out, n.as_str());
                        Ok(())
                    },
                    None => Err(ConvertError::Type { expected: Expected::TagPart, found: kind(v) }),
                }
            } else {
                Err(ConvertError::Type { expected: Expected::IssuePart, found: kind(v) })
            }
        },
    }
}

fn joined_text(items: &Vec<Value>, tag: bool) -> (r: Result<String, ConvertError>)
    ensures
        match r {
            Ok(t) => joined_from(view_items(items@), 0, tag) == Ok::<Seq<char>, ConvertFault>(t@),
            Err(e) => joined_from(view_items(items@), 0, tag) == Err::<Seq<char>, ConvertFault>(e@),
        },
{
    let ghost vs = view_items(items@);
    proof {
        lemma_view_items(items@);
    }
    let mut out = String::new();
    let mut i: usize = 0;
    while i < items.len()
        invariant
            i <= items@.len(),
            vs == view_items(items@),
            vs.len() == items@.len(),
            forall|j: int| 0 <= j < items@.len() ==> #[trigger] vs[j] == items@[j]@,
            joined_from(vs, 0, tag) == match joined_from(vs, i as int, tag) {
                Ok(rest) => Ok::<Seq<char>, ConvertFault>(out@ + rest),
                Err(e) => Err::<Seq<char>, ConvertFault>(e),
            },
        decreases items@.len() - i,
    {
        let ghost before = out@;
        assert(vs[i as int] == items@[i as int]@);
        if tag && i > 0 {
            push_char(&mut out, ' ');
        }
        let ghost mid = out@;
        match push_joined_part(&mut out, &items[i], tag) {
            Ok(()) => {},
            Err(e) => {
                return Err(e);
            },
        }
        proof {
            let p = joined_part(vs[i as int], tag)->Ok_0;
            let sep: Seq<char> = if tag && i > 0 {
                seq![' ']
            } else {
                Seq::empty()
            };
            assert(mid =~= before + sep);
            match joined_from(vs, i + 1, tag) {
                Ok(rest) => {
                    assert(before + (sep + p + rest) =~= out@ + rest);
                },
                Err(e) => {},
            }
        }
        i = i + 1;
    }
    assert(out@ + Seq::<char>::empty() =~= out@);
    Ok(out)
}

/// `make tag! spec`.
pub open spec fn make_tag_spec(v: ValueView) -> Result<ValueView, ConvertFault> {
    match v {
        ValueView::Tag(t) => Ok(ValueView::Tag(t)),
        ValueView::Str(t) => Ok(ValueView::Tag(t)),
        ValueView::Block(items) => match joined_from(items, 0, true) {
            Ok(t) => Ok(ValueView::Tag(t)),
            Err(e) => Err(e),
        },
        _ => match word_name(v) {
            Some(n) => Ok(ValueView::Tag(n)),
            None => type_fault(Expected::MakeTag, v),
        },
    }
}

fn tag_value(v: &Value) -> (r: Result<Value, ConvertError>)
    ensures
        outcome(r) == make_tag_spec(v@),
{
    match v {
        Value::Tag(t) => Ok(Value::Tag(t.clone())),
        Value::Str(t) => Ok(Value::Tag(t.clone())),
        Value::Block(items) => match joined_text(items, true) {
            Ok(t) => Ok(Value::Tag(t)),
            Err(e) => Err(e),
        },
        _ => match word_sym(v) {
            Some(n) => Ok(Value::Tag(n)),
            None => type_error(Expected::MakeTag, v),
        },
    }
}

/// `make tag! spec`: a tag as it is; a string or a word's name as the tag
/// text; a block's elements (strings, integers, chars, words) joined by
/// spaces.
pub fn make_tag(spec: &Value) -> (r: Result<Value, ConvertError>)
    ensures
        outcome(r) == make_tag_spec(spec@),
{
    tag_value(spec)
}

/// `to-tag value`: as `make tag!`.
pub fn to_tag(args: &[Value]) -> (r: Result<Value, ConvertError>)
    ensures
        outcome(r) == if args@.len() != 1 {
            arity_fault(1, args@.len())
        } else {
            make_tag_spec(args@[0]@)
        },
{
    if args.len() != 1 {
        return Err(ConvertError::Arity { expected: 1, got: args.len() });
    }
    tag_value(&args[0])
}

/// `make issue! spec`.
pub open spec fn make_issue_spec(v: ValueView) -> Result<ValueView, ConvertFault> {
    match v {
        ValueView::Issue(t) => Ok(ValueView::Issue(t)),
        ValueView::Str(t) => Ok(ValueView::Issue(t)),
        ValueView::Integer(n) => Ok(ValueView::Issue(int_text(n as int))),
        ValueView::Block(items) => match joined_from(items, 0, false) {
            Ok(t) => Ok(ValueView::Issue(t)),
            Err(e) => Err(e),
        },
        _ => match word_name(v) {
            Some(n) => Ok(ValueView::Issue(n)),
            None => type_fault(Expected::MakeIssue, v),
        },
    }
}

fn issue_value(v: &Value) -> (r: Result<Value, ConvertError>)
    ensures
        outcome(r) == make_issue_spec(v@),
{
    match v {
        Value::Issue(t) => Ok(Value::Issue(t.clone())),
        Value::Str(t) => Ok(Value::Issue(t.clone())),
        Value::Integer(n) => {
            let mut t = String::new();
            push_int(&mut t, *n);
            assert(t@ =~= int_text(*n as int));
            Ok(Value::Issue(t))
        },
        Value::Block(items) => match joined_text(items, false) {
            Ok(t) => Ok(Value::Issue(t)),
            Err(e) => Err(e),
        },
        _ => match word_sym(v) {
            Some(n) => Ok(Value::Issue(n)),
            None => type_error(Expected::MakeIssue, v),
        },
    }
}

/// `make issue! spec`: an issue as it is; a string or a word's name as the
/// issue text; an integer's numeral; a block's integers, chars and strings
/// run together.
pub fn make_issue(spec: &Value) -> (r: Result<Value, ConvertError>)
    ensures
        outcome(r) == make_issue_spec(spec@),
{
    issue_value(spec)
}

/// `to-issue value`: as `make issue!`.
pub fn to_issue(args: &[Value]) -> (r: Result<Value, ConvertError>)
    ensures
        outcome(r) == if args@.len() != 1 {
            arity_fault(1, args@.len())
        } else {
            make_issue_spec(args@[0]@)
        },
{
    if args.len() != 1 {
        return Err(ConvertError::Arity { expected: 1, got: args.len() });
    }
    issue_value(&args[0])
}

// ---------------------------------------------------------------------------
// Floats, percents, durations, dates and errors
// ---------------------------------------------------------------------------

/// `make float! spec`.
pub open spec fn make_float_spec(v: ValueView) -> Result<ValueView, ConvertFault> {
    match v {
        ValueView::Float(f) => Ok(ValueView::Float(f)),
        ValueView::Integer(_) => Err(ConvertFault::Floating),
        ValueView::Str(_) => Err(ConvertFault::Floating),
        _ => type_fault(Expected::ToFloat, v),
    }
}

/// `make float! spec`: a float as it is; integers and strings are
/// converted by the caller.
pub fn make_float(spec: &Value) -> (r: Result<Value, ConvertError>)
    ensures
        outcome(r) == make_float_spec(spec@),
{
    match spec {
        Value::Float(_) => Ok(clone_value(spec)),
        Value::Integer(_) => Err(ConvertError::Floating),
        Value::Str(_) => Err(ConvertError::Floating),
        other => type_error(Expected::ToFloat, other),
    }
}

/// `to-float value`.
pub open spec fn to_float_spec(v: ValueView) -> Result<ValueView, ConvertFault> {
    match v {
        ValueView::Float(f) => Ok(ValueView::Float(f)),
        ValueView::Integer(_) => Err(ConvertFault::Floating),
        ValueView::Decimal { .. } => Err(ConvertFault::Floating),
        ValueView::Percent(_) => Err(ConvertFault::Floating),
        ValueView::Duration(_) => Err(ConvertFault::Floating),
        ValueView::Str(_) => Err(ConvertFault::Floating),
        _ => type_fault(Expected::ToFloat, v),
    }
}

fn float_value(v: &Value) -> (r: Result<Value, ConvertError>)
    ensures
        outcome(r) == to_float_spec(v@),
{
    match v {
        Value::Float(_) => Ok(clone_value(v)),
        Value::Integer(_) | Value::Decimal { .. } | Value::Percent(_) | Value::Duration(_) | Value::Str(
            _,
        ) => Err(ConvertError::Floating),
        other => type_error(Expected::ToFloat, other),
    }
}

/// `to-float value`: a float as it is; integers, decimals, percents,
/// durations and strings are converted by the caller.
pub fn to_float(args: &[Value]) -> (r: Result<Value, ConvertError>)
    ensures
        outcome(r) == if args@.len() != 1 {
            arity_fault(1, args@.len())
        } else {
            to_float_spec(args@[0]@)
        },
{
    if args.len() != 1 {
        return Err(ConvertError::Arity { expected: 1, got: args.len() });
    }
    float_value(&args[0])
}

/// `make percent! spec`.
pub open spec fn make_percent_spec(v: ValueView) -> Result<ValueView, ConvertFault> {
    match v {
        ValueView::Percent(p) => Ok(ValueView::Percent(p)),
        ValueView::Integer(_) => Err(ConvertFault::Floating),
        ValueView::Float(_) => Err(ConvertFault::Floating),
        ValueView::Str(_) => Err(ConvertFault::Loading),
        _ => type_fault(Expected::MakePercent, v),
    }
}

fn percent_value(v: &Value) -> (r: Result<Value, ConvertError>)
    ensures
        outcome(r) == make_percent_spec(v@),
{
    match v {
        Value::Percent(_) => Ok(clone_value(v)),
        Value::Integer(_) | Value::Float(_) => Err(ConvertError::Floating),
        Value::Str(_) => Err(ConvertError::Loading),
        other => type_error(Expected::MakePercent, other),
    }
}

/// `make percent! spec`: a percent as it is; numbers are converted by the
/// caller, strings loaded by it.
pub fn make_percent(spec: &Value) -> (r: Result<Value, ConvertError>)
    ensures
        outcome(r) == make_percent_spec(spec@),
{
    percent_value(spec)
}

/// `to-percent value`: as `make percent!`.
pub fn to_percent(args: &[Value]) -> (r: Result<Value, ConvertError>)
    ensures
        outcome(r) == if args@.len() != 1 {
            arity_fault(1, args@.len())
        } else {
            make_percent_spec(args@[0]@)
        },
{
    if args.len() != 1 {
        return Err(ConvertError::Arity { expected: 1, got: args.len() });
    }
    percent_value(&args[0])
}

/// The datatype of the first element from the `i`-th on that is not an
/// integer, if there is one.
pub open spec fn first_non_integer(items: Seq<ValueView>, i: int) -> Option<Kind>
    decreases items.len() - i,
{
    if i < 0 || i >= items.len() {
        None
    } else if items[i] is Integer {
        first_non_integer(items, i + 1)
    } else {
        Some(kind_of(items[i]))
    }
}

fn first_non_integer_of(items: &Vec<Value>) -> (r: Option<Kind>)
    ensures
        r == first_non_integer(view_items(items@), 0),
{
    let ghost vs = view_items(items@);
    proof {
        lemma_view_items(items@);
    }
    let mut i: usize = 0;
    while i < items.len()
        invariant
            i <= items@.len(),
            vs == view_items(items@),
            vs.len() == items@.len(),
            forall|j: int| 0 <= j < items@.len() ==> #[trigger] vs[j] == items@[j]@,
            first_non_integer(vs, 0) == first_non_integer(vs, i as int),
        decreases items@.len() - i,
    {
        assert(vs[i as int] == items@[i as int]@);
        match &items[i] {
            Value::Integer(_) => {},
            other => {
                return Some(kind(other));
            },
        }
        i = i + 1;
    }
    None
}

/// A duration in milliseconds stays within what a duration holds
/// (`i64::MAX` milliseconds either way).
pub open spec fn within_ms(x: int) -> bool {
    -(i64::MAX as int) <= x <= i64::MAX
}

/// The integer of an integer value (0 for any other).
pub open spec fn int_of(v: ValueView) -> int {
    match v {
        ValueView::Integer(n) => n as int,
        _ => 0,
    }
}

/// The parts of a duration block, in milliseconds, in the order they are
/// added: `[s]`, `[h m s]`, `[h m s ms]` or `[d h m s ms]`.
pub open spec fn duration_terms(items: Seq<ValueView>) -> Seq<int> {
    let i = |k: int| int_of(items[k]);
    if items.len() == 1 {
        seq![i(0) * 1000]
    } else if items.len() == 3 {
        seq![i(0) * 3600000, i(1) * 60000, i(2) * 1000]
    } else if items.len() == 4 {
        seq![i(0) * 3600000, i(1) * 60000, i(2) * 1000, i(3)]
    } else {
        seq![i(0) * 86400000, i(1) * 3600000, i(2) * 60000, i(3) * 1000, i(4)]
    }
}

/// The sum of `ts`.
pub open spec fn ms_sum(ts: Seq<int>) -> int
    decreases ts.len(),
{
    if ts.len() == 0 {
        0
    } else {
        ms_sum(ts.drop_last()) + ts.last()
    }
}

/// Every part, and every sum of the parts added so far, is a duration (the
/// interpreter stops on the first that is not).
pub open spec fn terms_fit(ts: Seq<int>) -> bool {
    forall|k: int| 0 <= k < ts.len() ==> within_ms(#[trigger] ts[k]) && within_ms(ms_sum(ts.take(k + 1)))
}

/// A block of 1, 3, 4 or 5 integers.
pub open spec fn duration_block(items: Seq<ValueView>) -> bool {
    first_non_integer(items, 0) is None && (items.len() == 1 || items.len() == 3 || items.len() == 4
        || items.len() == 5)
}

/// A `make duration!` spec whose integers make a duration.
pub open spec fn duration_fits(v: ValueView) -> bool {
    match v {
        ValueView::Integer(n) => within_ms(n * 1000),
        ValueView::Block(items) => duration_block(items) ==> terms_fit(duration_terms(items)),
        _ => true,
    }
}

/// `make duration! spec`: a duration as it is; an integer of seconds, or a
/// block `[s]`, `[h m s]`, `[h m s ms]` or `[d h m s ms]` of integers, gives
/// the duration of that many milliseconds, which the caller spells as
/// seconds (a duration is held as its length in seconds, a float). Floats
/// are converted by the caller, strings loaded by it.
pub open spec fn make_duration_spec(v: ValueView) -> Result<ValueView, ConvertFault> {
    match v {
        ValueView::Duration(d) => Ok(ValueView::Duration(d)),
        ValueView::Integer(n) => Err(ConvertFault::DurationMillis((n * 1000) as i64)),
        ValueView::Float(_) => Err(ConvertFault::Floating),
        ValueView::Str(_) => Err(ConvertFault::Loading),
        ValueView::Block(items) => match first_non_integer(items, 0) {
            Some(k) => Err(ConvertFault::Type { expected: Expected::IntegerPart, found: k }),
            None => if items.len() == 1 || items.len() == 3 || items.len() == 4 || items.len() == 5 {
                Err(ConvertFault::DurationMillis(ms_sum(duration_terms(items)) as i64))
            } else {
                Err(ConvertFault::DurationLength(items.len() as usize))
            },
        },
        _ => type_fault(Expected::MakeDuration, v),
    }
}

fn int_item(items: &Vec<Value>, k: usize) -> (n: i128)
    requires
        k < items@.len(),
    ensures
        n == int_of(items@[k as int]@),
{
    match &items[k] {
        Value::Integer(n) => *n as i128,
        _ => 0,
    }
}

fn block_millis(items: &Vec<Value>) -> (r: i64)
    requires
        duration_block(view_items(items@)),
        terms_fit(duration_terms(view_items(items@))),
    ensures
        r == ms_sum(duration_terms(view_items(items@))),
{
    let ghost vs = view_items(items@);
    proof {
        lemma_view_items(items@);
    }
    let n = items.len();
    let ghost ts = duration_terms(vs);
    let total: i128 = if n == 1 {
        int_item(items, 0) * 1000
    } else if n == 3 {
        int_item(items, 0) * 3600000 + int_item(items, 1) * 60000 + int_item(items, 2) * 1000
    } else if n == 4 {
        int_item(items, 0) * 3600000 + int_item(items, 1) * 60000 + int_item(items, 2) * 1000 + int_item(
            items,
            3,
        )
    } else {
        int_item(items, 0) * 86400000 + int_item(items, 1) * 3600000 + int_item(items, 2) * 60000
            + int_item(items, 3) * 1000 + int_item(items, 4)
    };
    proof {
        assert(ts.take(ts.len() as int) =~= ts);
        assert(within_ms(ms_sum(ts.take(ts.len() - 1 + 1))));
        reveal_with_fuel(ms_sum, 6);
        if n >= 3 {
            assert(ts.drop_last().drop_last().drop_last().len() == ts.len() - 3);
        }
    }
    total as i64
}

/// The parts of a duration block in milliseconds (see `duration_terms`).
fn block_terms(items: &Vec<Value>) -> (r: Vec<i128>)
    requires
        duration_block(view_items(items@)),
    ensures
        r@.len() == duration_terms(view_items(items@)).len(),
        forall|k: int| 0 <= k < r@.len() ==> r@[k] == #[trigger] duration_terms(view_items(items@))[k],
{
    let ghost vs = view_items(items@);
    proof {
        lemma_view_items(items@);
    }
    let n = items.len();
    let mut r: Vec<i128> = Vec::new();
    if n == 1 {
        r.push(int_item(items, 0) * 1000);
    } else if n == 3 {
        r.push(int_item(items, 0) * 3600000);
        r.push(int_item(items, 1) * 60000);
        r.push(int_item(items, 2) * 1000);
    } else if n == 4 {
        r.push(int_item(items, 0) * 3600000);
        r.push(int_item(items, 1) * 60000);
        r.push(int_item(items, 2) * 1000);
        r.push(int_item(items, 3));
    } else {
        r.push(int_item(items, 0) * 86400000);
        r.push(int_item(items, 1) * 3600000);
        r.push(int_item(items, 2) * 60000);
        r.push(int_item(items, 3) * 1000);
        r.push(int_item(items, 4));
    }
    r
}

/// Whether the integers of a `make duration!` spec make a duration: the
/// test a caller makes before `make_duration`, which the interpreter makes
/// by stopping.
pub fn duration_in_range(spec: &Value) -> (r: bool)
    ensures
        r == duration_fits(spec@),
{
    let lim: i128 = 0x7fff_ffff_ffff_ffff;
    match spec {
        Value::Integer(n) => {
            let ms = *n as i128 * 1000;
            -lim <= ms && ms <= lim
        },
        Value::Block(items) => {
            let ghost vs = view_items(items@);
            proof {
                lemma_view_items(items@);
            }
            let n = items.len();
            if first_non_integer_of(items).is_some() || !(n == 1 || n == 3 || n == 4 || n == 5) {
                return true;
            }
            let ts = block_terms(items);
            let ghost sts = duration_terms(vs);
            assert(duration_fits(spec@) == terms_fit(sts));
            let mut sum: i128 = 0;
            let mut k: usize = 0;
            while k < ts.len()
                invariant
                    duration_fits(spec@) == terms_fit(sts),
                    k <= ts@.len(),
                    ts@.len() == sts.len(),
                    forall|j: int| 0 <= j < ts@.len() ==> ts@[j] == #[trigger] sts[j],
                    sum == ms_sum(sts.take(k as int)),
                    within_ms(sum as int),
                    lim == i64::MAX,
                    forall|j: int|
                        0 <= j < k ==> within_ms(#[trigger] sts[j]) && within_ms(ms_sum(sts.take(j + 1))),
                decreases ts@.len() - k,
            {
                assert(sts.take(k + 1).drop_last() =~= sts.take(k as int));
                let t = ts[k];
                assert(t == sts[k as int]);
                assert(sts.take(k + 1).last() == sts[k as int]);
                assert(ms_sum(sts.take(k + 1)) == sum + t);
                if t < -lim || t > lim {
                    assert(!terms_fit(sts)) by {
                        assert(!within_ms(sts[k as int]));
                    }
                    return false;
                }
                sum = sum + t;
                if sum < -lim || sum > lim {
                    assert(!terms_fit(sts)) by {
                        assert(!within_ms(ms_sum(sts.take(k + 1))));
                        assert(within_ms(sts[k as int]));
                    }
                    return false;
                }
                k = k + 1;
            }
            assert(terms_fit(sts));
            true
        },
        _ => true,
    }
}

fn duration_value(v: &Value) -> (r: Result<Value, ConvertError>)
    requires
        duration_fits(v@),
    ensures
        outcome(r) == make_duration_spec(v@),
{
    match v {
        Value::Duration(_) => Ok(clone_value(v)),
        Value::Integer(n) => Err(ConvertError::DurationMillis((*n as i128 * 1000) as i64)),
        Value::Float(_) => Err(ConvertError::Floating),
        Value::Str(_) => Err(ConvertError::Loading),
        Value::Block(items) => {
            proof {
                lemma_view_items(items@);
            }
            match first_non_integer_of(items) {
                Some(k) => Err(ConvertError::Type { expected: Expected::IntegerPart, found: k }),
                None => {
                    let n = items.len();
                    if n == 1 || n == 3 || n == 4 || n == 5 {
                        Err(ConvertError::DurationMillis(block_millis(items)))
                    } else {
                        Err(ConvertError::DurationLength(n))
                    }
                },
            }
        },
        other => type_error(Expected::MakeDuration, other),
    }
}

/// `make duration! spec`: see `make_duration_spec`.
pub fn make_duration(spec: &Value) -> (r: Result<Value, ConvertError>)
    requires
        duration_fits(spec@),
    ensures
        outcome(r) == make_duration_spec(spec@),
{
    duration_value(spec)
}

/// `to-duration value`: as `make duration!`.
pub fn to_duration(args: &[Value]) -> (r: Result<Value, ConvertError>)
    requires
        args@.len() == 1 ==> duration_fits(args@[0]@),
    ensures
        outcome(r) == if args@.len() != 1 {
            arity_fault(1, args@.len())
        } else {
            make_duration_spec(args@[0]@)
        },
{
    if args.len() != 1 {
        return Err(ConvertError::Arity { expected: 1, got: args.len() });
    }
    duration_value(&args[0])
}

/// `make date! spec`.
pub open spec fn make_date_spec(v: ValueView) -> Result<ValueView, ConvertFault> {
    match v {
        ValueView::Date(d) => Ok(ValueView::Date(d)),
        ValueView::Str(_) => Err(ConvertFault::Loading),
        ValueView::Integer(_) => Err(ConvertFault::Calendar),
        ValueView::Block(items) => match first_non_integer(items, 0) {
            Some(k) => Err(ConvertFault::Type { expected: Expected::IntegerPart, found: k }),
            None => if items.len() == 3 || items.len() == 6 {
                Err(ConvertFault::Calendar)
            } else {
                Err(ConvertFault::DateBlock)
            },
        },
        _ => type_fault(Expected::MakeDate, v),
    }
}

fn date_value(v: &Value) -> (r: Result<Value, ConvertError>)
    ensures
        outcome(r) == make_date_spec(v@),
{
    match v {
        Value::Date(d) => Ok(Value::Date(*d)),
        Value::Str(_) => Err(ConvertError::Loading),
        Value::Integer(_) => Err(ConvertError::Calendar),
        Value::Block(items) => {
            proof {
                lemma_view_items(items@);
            }
            match first_non_integer_of(items) {
                Some(k) => Err(ConvertError::Type { expected: Expected::IntegerPart, found: k }),
                None => {
                    let n = items.len();
                    if n == 3 || n == 6 {
                        Err(ConvertError::Calendar)
                    } else {
                        Err(ConvertError::DateBlock)
                    }
                },
            }
        },
        other => type_error(Expected::MakeDate, other),
    }
}

/// `make date! spec`: a date as it is; a block must hold integers, 3 or 6
/// of them. Epoch seconds and well-formed blocks are converted by the
/// caller (calendar arithmetic), strings loaded by it.
pub fn make_date(spec: &Value) -> (r: Result<Value, ConvertError>)
    ensures
        outcome(r) == make_date_spec(spec@),
{
    date_value(spec)
}

/// `to-date value`: as `make date!`.
pub fn to_date(args: &[Value]) -> (r: Result<Value, ConvertError>)
    ensures
        outcome(r) == if args@.len() != 1 {
            arity_fault(1, args@.len())
        } else {
            make_date_spec(args@[0]@)
        },
{
    if args.len() != 1 {
        return Err(ConvertError::Arity { expected: 1, got: args.len() });
    }
    date_value(&args[0])
}

/// An error that has only a message.
pub open spec fn message_error(message: Seq<char>) -> ValueView {
    ValueView::Error(ErrorView { kind: None, code: None, message, args: Seq::empty(), near: None })
}

/// `make error! spec`.
pub open spec fn make_error_spec(v: ValueView) -> Result<ValueView, ConvertFault> {
    match v {
        ValueView::Error(_) => Ok(v),
        ValueView::Str(s) => Ok(message_error(s)),
        ValueView::Block(_) => Err(ConvertFault::Elsewhere(Target::Error)),
        ValueView::Paren(_) => Err(ConvertFault::Elsewhere(Target::Error)),
        _ => type_fault(Expected::MakeError, v),
    }
}

/// `make error! spec`: an error as it is, or an error with a string as its
/// message; an error from a spec block of keyword pairs is built by the
/// caller.
pub fn make_error(spec: &Value) -> (r: Result<Value, ConvertError>)
    ensures
        outcome(r) == make_error_spec(spec@),
{
    match spec {
        Value::Error(e) => Ok(Value::Error(clone_error(e))),
        Value::Str(s) => {
            let e = ErrorValue { kind: None, code: None, message: s.clone(), args: Vec::new(), near: None };
            proof {
                assert(view_items(e.args@) =~= Seq::<ValueView>::empty());
            }
            Ok(Value::Error(e))
        },
        Value::Block(_) | Value::Paren(_) => Err(ConvertError::Elsewhere(Target::Error)),
        other => type_error(Expected::MakeError, other),
    }
}

/// `to-error value`: `make error!` of the first argument.
pub fn to_error(args: &[Value]) -> (r: Result<Value, ConvertError>)
    ensures
        outcome(r) == if args@.len() == 0 {
            arity_fault(1, 0)
        } else {
            make_error_spec(args@[0]@)
        },
{
    if args.len() == 0 {
        return Err(ConvertError::Arity { expected: 1, got: 0 });
    }
    make_error(&args[0])
}

/// One field of an error, for the `error-type`, `error-code`,
/// `error-args` and `error-near` natives.
#[derive(Clone, Copy, Debug, PartialEq, Eq)]
pub enum ErrorField {
    /// The type word, as a lit-word, or `none`.
    Type,
    /// The code, as an integer, or `none`.
    Code,
    /// The arguments, as a block (empty when there are none).
    Args,
    /// The value it was raised near, or `none`.
    Near,
}

/// The value of field `f` of the error `e`.
pub open spec fn error_field(e: ErrorView, f: ErrorField) -> ValueView {
    match f {
        ErrorField::Type => match e.kind {
            Some(k) => ValueView::LitWord(k),
            None => ValueView::NoneVal,
        },
        ErrorField::Code => match e.code {
            Some(n) => ValueView::Integer(n),
            None => ValueView::NoneVal,
        },
        ErrorField::Args => ValueView::Block(e.args),
        ErrorField::Near => match e.near {
            Some(b) => *b,
            None => ValueView::NoneVal,
        },
    }
}

/// `error-type err`, `error-code err`, `error-args err`, `error-near err`.
pub open spec fn error_field_spec(args: Seq<Value>, f: ErrorField) -> Result<ValueView, ConvertFault> {
    if args.len() != 1 {
        arity_fault(1, args.len())
    } else {
        match args[0]@ {
            ValueView::Error(e) => Ok(error_field(e, f)),
            v => type_fault(Expected::ErrorArg, v),
        }
    }
}

/// The natives that read an error's fields: `error-type`, `error-code`,
/// `error-args` and `error-near`.
pub fn error_field_native(args: &[Value], f: ErrorField) -> (r: Result<Value, ConvertError>)
    ensures
        outcome(r) == error_field_spec(args@, f),
{
    if args.len() != 1 {
        return Err(ConvertError::Arity { expected: 1, got: args.len() });
    }
    match &args[0] {
        Value::Error(e) => Ok(
            match f {
                ErrorField::Type => match &e.kind {
                    Some(k) => Value::LitWord(k.clone()),
                    None => Value::NoneVal,
                },
                ErrorField::Code => match e.code {
                    Some(n) => Value::Integer(n),
                    None => Value::NoneVal,
                },
                ErrorField::Args => Value::Block(clone_items(&e.args)),
                ErrorField::Near => match &e.near {
                    Some(b) => clone_value(b),
                    None => Value::NoneVal,
                },
            },
        ),
        other => type_error(Expected::ErrorArg, other),
    }
}

// ---------------------------------------------------------------------------
// make and to
// ---------------------------------------------------------------------------

/// The datatype a type word names (with or without the trailing `!`).
pub open spec fn target_named(name: Seq<char>) -> Option<Target> {
    if name == "integer!"@ || name == "integer"@ {
        Some(Target::Integer)
    } else if name == "float!"@ || name == "float"@ {
        Some(Target::Float)
    } else if name == "decimal!"@ || name == "decimal"@ {
        Some(Target::Decimal)
    } else if name == "percent!"@ || name == "percent"@ {
        Some(Target::Percent)
    } else if name == "money!"@ || name == "money"@ {
        Some(Target::Money)
    } else if name == "issue!"@ || name == "issue"@ {
        Some(Target::Issue)
    } else if name == "email!"@ || name == "email"@ {
        Some(Target::Email)
    } else if name == "tag!"@ || name == "tag"@ {
        Some(Target::Tag)
    } else if name == "string!"@ || name == "string"@ {
        Some(Target::Str)
    } else if name == "block!"@ || name == "block"@ {
        Some(Target::Block)
    } else if name == "word!"@ || name == "word"@ {
        Some(Target::Word)
    } else if name == "set-word!"@ || name == "set-word"@ {
        Some(Target::SetWord)
    } else if name == "get-word!"@ || name == "get-word"@ {
        Some(Target::GetWord)
    } else if name == "lit-word!"@ || name == "lit-word"@ {
        Some(Target::LitWord)
    } else if name == "logic!"@ || name == "logic"@ {
        Some(Target::Logic)
    } else if name == "file!"@ || name == "file"@ {
        Some(Target::File)
    } else if name == "url!"@ || name == "url"@ {
        Some(Target::Url)
    } else if name == "char!"@ || name == "char"@ {
        Some(Target::Char)
    } else if name == "binary!"@ || name == "binary"@ {
        Some(Target::Binary)
    } else if name == "pair!"@ || name == "pair"@ {
        Some(Target::Pair)
    } else if name == "tuple!"@ || name == "tuple"@ {
        Some(Target::Tuple)
    } else if name == "date!"@ || name == "date"@ {
        Some(Target::Date)
    } else if name == "duration!"@ || name == "duration"@ {
        Some(Target::Duration)
    } else if name == "error!"@ || name == "error"@ {
        Some(Target::Error)
    } else if name == "object!"@ || name == "object"@ {
        Some(Target::Object)
    } else if name == "module!"@ || name == "module"@ {
        Some(Target::Module)
    } else if name == "map!"@ || name == "map"@ {
        Some(Target::MapVal)
    } else if name == "hash!"@ || name == "hash"@ {
        Some(Target::Hash)
    } else if name == "vector!"@ || name == "vector"@ {
        Some(Target::Vector)
    } else if name == "image!"@ || name == "image"@ {
        Some(Target::Image)
    } else if name == "bitset!"@ || name == "bitset"@ {
        Some(Target::Bitset)
    } else if name == "typeset!"@ || name == "typeset"@ {
        Some(Target::Typeset)
    } else if name == "function!"@ || name == "function"@ {
        Some(Target::Function)
    } else {
        None
    }
}

fn name_is(s: &String, lit: &str) -> (r: bool)
    ensures
        r == (s@ == lit@),
{
    let k = String::from_str(lit);
    *s == k
}

fn target_of(name: &String) -> (r: Option<Target>)
    ensures
        r == target_named(name@),
{
    if name_is(name, "integer!") || name_is(name, "integer") {
        Some(Target::Integer)
    } else if name_is(name, "float!") || name_is(name, "float") {
        Some(Target::Float)
    } else if name_is(name, "decimal!") || name_is(name, "decimal") {
        Some(Target::Decimal)
    } else if name_is(name, "percent!") || name_is(name, "percent") {
        Some(Target::Percent)
    } else if name_is(name, "money!") || name_is(name, "money") {
        Some(Target::Money)
    } else if name_is(name, "issue!") || name_is(name, "issue") {
        Some(Target::Issue)
    } else if name_is(name, "email!") || name_is(name, "email") {
        Some(Target::Email)
    } else if name_is(name, "tag!") || name_is(name, "tag") {
        Some(Target::Tag)
    } else if name_is(name, "string!") || name_is(name, "string") {
        Some(Target::Str)
    } else if name_is(name, "block!") || name_is(name, "block") {
        Some(Target::Block)
    } else if name_is(name, "word!") || name_is(name, "word") {
        Some(Target::Word)
    } else if name_is(name, "set-word!") || name_is(name, "set-word") {
        Some(Target::SetWord)
    } else if name_is(name, "get-word!") || name_is(name, "get-word") {
        Some(Target::GetWord)
    } else if name_is(name, "lit-word!") || name_is(name, "lit-word") {
        Some(Target::LitWord)
    } else if name_is(name, "logic!") || name_is(name, "logic") {
        Some(Target::Logic)
    } else if name_is(name, "file!") || name_is(name, "file") {
        Some(Target::File)
    } else if name_is(name, "url!") || name_is(name, "url") {
        Some(Target::Url)
    } else if name_is(name, "char!") || name_is(name, "char") {
        Some(Target::Char)
    } else if name_is(name, "binary!") || name_is(name, "binary") {
        Some(Target::Binary)
    } else if name_is(name, "pair!") || name_is(name, "pair") {
        Some(Target::Pair)
    } else if name_is(name, "tuple!") || name_is(name, "tuple") {
        Some(Target::Tuple)
    } else if name_is(name, "date!") || name_is(name, "date") {
        Some(Target::Date)
    } else if name_is(name, "duration!") || name_is(name, "duration") {
        Some(Target::Duration)
    } else if name_is(name, "error!") || name_is(name, "error") {
        Some(Target::Error)
    } else if name_is(name, "object!") || name_is(name, "object") {
        Some(Target::Object)
    } else if name_is(name, "module!") || name_is(name, "module") {
        Some(Target::Module)
    } else if name_is(name, "map!") || name_is(name, "map") {
        Some(Target::MapVal)
    } else if name_is(name, "hash!") || name_is(name, "hash") {
        Some(Target::Hash)
    } else if name_is(name, "vector!") || name_is(name, "vector") {
        Some(Target::Vector)
    } else if name_is(name, "image!") || name_is(name, "image") {
        Some(Target::Image)
    } else if name_is(name, "bitset!") || name_is(name, "bitset") {
        Some(Target::Bitset)
    } else if name_is(name, "typeset!") || name_is(name, "typeset") {
        Some(Target::Typeset)
    } else if name_is(name, "function!") || name_is(name, "function") {
        Some(Target::Function)
    } else {
        None
    }
}

/// The datatypes `make` builds.
pub open spec fn make_target(name: Seq<char>) -> Option<Target> {
    match target_named(name) {
        Some(t) => if t is Word || t is SetWord || t is GetWord || t is LitWord || t is Logic {
            None
        } else {
            Some(t)
        },
        None => None,
    }
}

/// The datatypes `to` converts to.
pub open spec fn to_target(name: Seq<char>) -> Option<Target> {
    match target_named(name) {
        Some(t) => if t is Object || t is Module || t is Function {
            None
        } else {
            Some(t)
        },
        None => None,
    }
}

/// A `make bitset!` result.
pub open spec fn bitset_result(v: ValueView) -> Result<ValueView, ConvertFault> {
    match make_spec(v) {
        Ok(b) => Ok(ValueView::Bitset(b)),
        Err(e) => Err(ConvertFault::Bitset(e)),
    }
}

/// `make <t> v`.
pub open spec fn make_to(t: Target, v: ValueView) -> Result<ValueView, ConvertFault> {
    match t {
        Target::Integer => make_integer_spec(v),
        Target::Float => make_float_spec(v),
        Target::Decimal => to_decimal_spec(v),
        Target::Percent => make_percent_spec(v),
        Target::Money => make_money_spec(v),
        Target::Issue => make_issue_spec(v),
        Target::Email => make_email_spec(v),
        Target::Tag => make_tag_spec(v),
        Target::Str => make_string_spec(v),
        Target::Block => make_block_spec(v),
        Target::File => make_file_spec(v),
        Target::Url => make_url_spec(v),
        Target::Char => make_char_spec(v),
        Target::Binary => make_binary_spec(v),
        Target::Pair => make_pair_spec(v),
        Target::Tuple => make_tuple_spec(v),
        Target::Date => make_date_spec(v),
        Target::Duration => make_duration_spec(v),
        Target::Error => make_error_spec(v),
        Target::Bitset => bitset_result(v),
        _ => Err(ConvertFault::Elsewhere(t)),
    }
}

/// `to <t> v`.
pub open spec fn to_to(t: Target, v: ValueView) -> Result<ValueView, ConvertFault> {
    match t {
        Target::Integer => to_integer_spec(v),
        Target::Float => to_float_spec(v),
        Target::Decimal => to_decimal_spec(v),
        Target::Percent => make_percent_spec(v),
        Target::Money => make_money_spec(v),
        Target::Issue => make_issue_spec(v),
        Target::Email => make_email_spec(v),
        Target::Tag => make_tag_spec(v),
        Target::Str => to_string_spec(v),
        Target::Block => to_block_spec(v),
        Target::Word => to_word_spec(v, WordKind::Word),
        Target::SetWord => to_word_spec(v, WordKind::SetWord),
        Target::GetWord => to_word_spec(v, WordKind::GetWord),
        Target::LitWord => to_word_spec(v, WordKind::LitWord),
        Target::Logic => Ok(ValueView::Logic(truthy_spec(v))),
        Target::File => to_file_spec(v),
        Target::Url => to_url_spec(v),
        Target::Char => to_char_spec(v),
        Target::Binary => make_binary_spec(v),
        Target::Pair => make_pair_spec(v),
        Target::Tuple => make_tuple_spec(v),
        Target::Date => make_date_spec(v),
        Target::Duration => make_duration_spec(v),
        Target::Error => make_error_spec(v),
        Target::Bitset => bitset_result(v),
        _ => Err(ConvertFault::Elsewhere(t)),
    }
}

/// What `make type spec` answers.
pub open spec fn make_native_spec(args: Seq<Value>) -> Result<ValueView, ConvertFault> {
    if args.len() != 2 {
        arity_fault(2, args.len())
    } else {
        match type_name_spec(args[0]@) {
            Err(e) => Err(e),
            Ok(n) => match make_target(n) {
                None => Err(ConvertFault::UnsupportedMake(n)),
                Some(t) => make_to(t, args[1]@),
            },
        }
    }
}

/// What `to type value` answers.
pub open spec fn to_native_spec(args: Seq<Value>) -> Result<ValueView, ConvertFault> {
    if args.len() != 2 {
        arity_fault(2, args.len())
    } else {
        match type_name_spec(args[0]@) {
            Err(e) => Err(e),
            Ok(n) => match to_target(n) {
                None => Err(ConvertFault::UnsupportedTo(n)),
                Some(t) => to_to(t, args[1]@),
            },
        }
    }
}

/// The argument a `make`/`to` call converts names a bitset spec the
/// machine can build, when the call asks for a `bitset!`.
pub open spec fn native_defined(args: Seq<Value>, target: spec_fn(Seq<char>) -> Option<Target>) -> bool {
    &&& args.len() == 2 && type_name_spec(args[0]@) is Ok && target(type_name_spec(args[0]@)->Ok_0) == Some(
        Target::Bitset,
    ) ==> make_defined(args[1]@)
    &&& args.len() == 2 && type_name_spec(args[0]@) is Ok && target(type_name_spec(args[0]@)->Ok_0) == Some(
        Target::Duration,
    ) ==> duration_fits(args[1]@)
}

fn bitset_of(spec: &Value) -> (r: Result<Value, ConvertError>)
    requires
        make_defined(spec@),
    ensures
        outcome(r) == bitset_result(spec@),
{
    match make_bitset(spec) {
        Ok(v) => Ok(v),
        Err(e) => Err(ConvertError::Bitset(e)),
    }
}

fn make_with(t: Target, spec: &Value) -> (r: Result<Value, ConvertError>)
    requires
        t is Bitset ==> make_defined(spec@),
        t is Duration ==> duration_fits(spec@),
    ensures
        outcome(r) == make_to(t, spec@),
{
    match t {
        Target::Integer => make_integer(spec),
        Target::Float => make_float(spec),
        Target::Decimal => decimal_value(spec),
        Target::Percent => percent_value(spec),
        Target::Money => money_value(spec),
        Target::Issue => issue_value(spec),
        Target::Email => email_value(spec),
        Target::Tag => tag_value(spec),
        Target::Str => make_string(spec),
        Target::Block => make_block(spec),
        Target::File => make_file(spec),
        Target::Url => make_url(spec),
        Target::Char => make_char(spec),
        Target::Binary => binary_value(spec),
        Target::Pair => pair_value(spec),
        Target::Tuple => tuple_value(spec),
        Target::Date => date_value(spec),
        Target::Duration => duration_value(spec),
        Target::Error => make_error(spec),
        Target::Bitset => bitset_of(spec),
        _ => Err(ConvertError::Elsewhere(t)),
    }
}

fn to_with(t: Target, v: &Value) -> (r: Result<Value, ConvertError>)
    requires
        t is Bitset ==> make_defined(v@),
        t is Integer ==> decimal_ok(v@),
        t is Duration ==> duration_fits(v@),
    ensures
        outcome(r) == to_to(t, v@),
{
    match t {
        Target::Integer => integer_value(v),
        Target::Float => float_value(v),
        Target::Decimal => decimal_value(v),
        Target::Percent => percent_value(v),
        Target::Money => money_value(v),
        Target::Issue => issue_value(v),
        Target::Email => email_value(v),
        Target::Tag => tag_value(v),
        Target::Str => string_value(v),
        Target::Block => block_value(v),
        Target::Word => word_value(v, WordKind::Word),
        Target::SetWord => word_value(v, WordKind::SetWord),
        Target::GetWord => word_value(v, WordKind::GetWord),
        Target::LitWord => word_value(v, WordKind::LitWord),
        Target::Logic => Ok(Value::Logic(truthy(v))),
        Target::File => match path_text_of(v) {
            Some(t) => Ok(Value::File(t)),
            None => type_error(Expected::ToPath, v),
        },
        Target::Url => match path_text_of(v) {
            Some(t) => Ok(Value::Url(t)),
            None => type_error(Expected::ToPath, v),
        },
        Target::Char => char_value(v),
        Target::Binary => binary_value(v),
        Target::Pair => pair_value(v),
        Target::Tuple => tuple_value(v),
        Target::Date => date_value(v),
        Target::Duration => duration_value(v),
        Target::Error => make_error(v),
        Target::Bitset => bitset_of(v),
        _ => Err(ConvertError::Elsewhere(t)),
    }
}

/// `make type spec`: the constructor. The type word may be a `word!`,
/// `lit-word!` or `refinement!`, with or without the trailing `!`.
pub fn make_native(args: &[Value]) -> (r: Result<Value, ConvertError>)
    requires
        native_defined(args@, |n: Seq<char>| make_target(n)),
    ensures
        outcome(r) == make_native_spec(args@),
{
    if args.len() != 2 {
        return Err(ConvertError::Arity { expected: 2, got: args.len() });
    }
    let name = match type_name_operand(&args[0]) {
        Ok(n) => n,
        Err(e) => {
            return Err(e);
        },
    };
    let t = match target_of(&name) {
        Some(t) => t,
        None => {
            return Err(ConvertError::UnsupportedMake(name));
        },
    };
    match t {
        Target::Word | Target::SetWord | Target::GetWord | Target::LitWord | Target::Logic => {
            return Err(ConvertError::UnsupportedMake(name));
        },
        _ => {},
    }
    make_with(t, &args[1])
}

/// `to type value`: the conversion. It differs from `make` for strings
/// (`to string! 5` is `"5"`, `make string! 5` is `""`), blocks, words and
/// logic values.
pub fn to_native(args: &[Value]) -> (r: Result<Value, ConvertError>)
    requires
        native_defined(args@, |n: Seq<char>| to_target(n)),
        args@.len() == 2 ==> decimal_ok(args@[1]@),
    ensures
        outcome(r) == to_native_spec(args@),
{
    if args.len() != 2 {
        return Err(ConvertError::Arity { expected: 2, got: args.len() });
    }
    let name = match type_name_operand(&args[0]) {
        Ok(n) => n,
        Err(e) => {
            return Err(e);
        },
    };
    let t = match target_of(&name) {
        Some(t) => t,
        None => {
            return Err(ConvertError::UnsupportedTo(name));
        },
    };
    match t {
        Target::Object | Target::Module | Target::Function => {
            return Err(ConvertError::UnsupportedTo(name));
        },
        _ => {},
    }
    to_with(t, &args[1])
}

// ---------------------------------------------------------------------------
// Round trips through text
// ---------------------------------------------------------------------------

proof fn lemma_nat_text_digits(m: nat)
    ensures
        nat_text(m).len() >= 1,
        all_digits(nat_text(m)),
        digits_num(nat_text(m)) == m,
    decreases m,
{
    let t = nat_text(m);
    if m < 10 {
        assert(digit_char(m) as u32 == m + 48);
        assert(t.drop_last() =~= Seq::<char>::empty());
        assert(digits_num(Seq::<char>::empty()) == 0);
        assert(digit_val(t.last()) == m);
    } else {
        lemma_nat_text_digits(m / 10);
        let d = (m % 10) as nat;
        assert(digit_char(d) as u32 == d + 48);
        let p = nat_text(m / 10);
        assert(t == p.push(digit_char(d)));
        assert(t.drop_last() =~= p);
        assert(digit_val(t.last()) == d);
        assert(digits_num(t) == 10 * digits_num(p) + d);
        assert forall|i: int| 0 <= i < t.len() implies is_digit(#[trigger] t[i]) by {
            if i < p.len() {
                assert(t[i] == p[i]);
            }
        }
        assert((m / 10) * 10 + d == m);
    }
}

proof fn lemma_trim_numeral(t: Seq<char>)
    requires
        t.len() >= 1,
        !unicode_ws(t[0]),
        !unicode_ws(t[t.len() - 1]),
    ensures
        trim(t) == t,
{
    assert(first_non_ws(t, 0) == 0);
    assert(last_end(t, t.len(), 0) == t.len());
    assert(t.subrange(0, t.len() as int) =~= t);
}

/// `to-integer` reads back what `to-string` writes of an integer: for
/// every integer `n`, `to-integer to-string n` is `n`.
pub proof fn law_integer_text_round_trip(n: i64)
    ensures
        to_string_spec(ValueView::Integer(n)) == Ok::<ValueView, ConvertFault>(ValueView::Str(int_text(n as int))),
        to_integer_spec(ValueView::Str(int_text(n as int))) == Ok::<ValueView, ConvertFault>(ValueView::Integer(n)),
{
    let t = int_text(n as int);
    if n < 0 {
        let m = (-(n as int)) as nat;
        lemma_nat_text_digits(m);
        let p = nat_text(m);
        assert(t == seq!['-'] + p);
        assert(t[0] == '-');
        assert(t[t.len() - 1] == p[p.len() - 1]);
        assert(is_digit(p[p.len() - 1]));
        lemma_trim_numeral(t);
        assert(t.drop_first() =~= p);
    } else {
        let m = n as nat;
        lemma_nat_text_digits(m);
        assert(t == nat_text(m));
        assert(is_digit(t[0]));
        assert(is_digit(t[t.len() - 1]));
        lemma_trim_numeral(t);
    }
}

/// A word's name turned into a string by `to-string` and back into a word
/// by `to-word` (or `to-set-word`, `to-get-word`, `to-lit-word`) keeps the
/// name: for a word, set-word, get-word or lit-word named `s`,
/// `to-string` gives `s` and the conversion back gives the word of the
/// requested kind named `s`.
pub proof fn law_word_text_round_trip(w: ValueView, k: WordKind)
    requires
        w is Word || w is SetWord || w is GetWord || w is LitWord,
    ensures
        to_string_spec(w) == Ok::<ValueView, ConvertFault>(ValueView::Str(word_name(w)->Some_0)),
        to_word_spec(ValueView::Str(word_name(w)->Some_0), k) == Ok::<ValueView, ConvertFault>(
            word_of(k, word_name(w)->Some_0),
        ),
{
}


/// `make integer!` of a logic value counts it: 1 for true, 0 for false.
/// On every value it accepts (integers, logic values, `none`, strings) it
/// gives what `to-integer` gives.
pub proof fn law_make_integer_counts_logic(v: ValueView)
    ensures
        v matches ValueView::Logic(b) ==> make_integer_spec(v) == Ok::<ValueView, ConvertFault>(
            ValueView::Integer(if b { 1 } else { 0 }),
        ),
        (v is Integer || v is Logic || v is NoneVal || v is Str) ==> make_integer_spec(v)
            == to_integer_spec(v),
{
}

} // verus!
