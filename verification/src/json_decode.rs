//! The JSON dialect: `load-json` (decoder).
//!
//! Objects become `map!` values with string keys (a repeated key keeps its
//! first position and takes the last value), arrays become `block!`s,
//! `null` becomes `none`, and numbers become `integer!` (when they fit) or
//! `float!`.
use vstd::prelude::*;
use vstd::utf8::{decode_utf8, encode_utf8, valid_utf8};

use crate::json::JsonError;
use crate::map::{map_set, map_set_entry};
use crate::native::RefineArgs;
use crate::html::to_chars;
use crate::text::{char_from_u32, push_char};
use crate::value::{
    kind, kind_of, lemma_view_items, lemma_view_keyed, view_items, view_keyed, FloatText, FloatView,
    KeyView, MapKey, Value, ValueView,
};

verus! {

broadcast use vstd::string::group_string_axioms;

/// Nesting beyond this depth is refused.
pub const MAX_JSON_DEPTH: usize = 256;

/// What went wrong, without where.
#[derive(Clone, Copy, Debug, PartialEq, Eq)]
pub enum DecodeKind {
    DepthExceeded,
    UnexpectedChar(u8),
    UnexpectedEnd,
    ExpectedTrue,
    ExpectedFalse,
    ExpectedNull,
    UnterminatedEscape,
    InvalidEscape,
    UnterminatedUtf8,
    InvalidUtf8,
    UnterminatedString,
    ExpectedLowSurrogate,
    ExpectedU,
    InvalidLowSurrogate,
    LoneLowSurrogate,
    UnterminatedHexEscape,
    NonHexDigit,
    InvalidFloat,
    InvalidInteger,
    ExpectedCommaOrBracket,
    ExpectedKey,
    ExpectedColon,
    ExpectedCommaOrBrace,
    TrailingContent,
}

/// What went wrong in decoding, in words.
pub open spec fn decode_text(k: DecodeKind) -> Seq<char> {
    match k {
        DecodeKind::DepthExceeded => "JSON nesting depth exceeded"@,
        DecodeKind::UnexpectedChar(_) => "unexpected character"@,
        DecodeKind::UnexpectedEnd => "unexpected end of input"@,
        DecodeKind::ExpectedTrue => "expected 'true'"@,
        DecodeKind::ExpectedFalse => "expected 'false'"@,
        DecodeKind::ExpectedNull => "expected 'null'"@,
        DecodeKind::UnterminatedEscape => "unterminated escape"@,
        DecodeKind::InvalidEscape => "invalid escape sequence"@,
        DecodeKind::UnterminatedUtf8 => "unterminated UTF-8 sequence in string"@,
        DecodeKind::InvalidUtf8 => "invalid UTF-8 in string"@,
        DecodeKind::UnterminatedString => "unterminated string"@,
        DecodeKind::ExpectedLowSurrogate => "expected low surrogate after high surrogate"@,
        DecodeKind::ExpectedU => "expected 'u' after backslash in surrogate pair"@,
        DecodeKind::InvalidLowSurrogate => "invalid low surrogate"@,
        DecodeKind::LoneLowSurrogate => "unexpected low surrogate without high surrogate"@,
        DecodeKind::UnterminatedHexEscape => "unterminated \\u escape"@,
        DecodeKind::NonHexDigit => "non-hex digit in \\u escape"@,
        DecodeKind::InvalidFloat => "invalid float literal"@,
        DecodeKind::InvalidInteger => "invalid integer literal"@,
        DecodeKind::ExpectedCommaOrBracket => "expected ',' or ']' in array"@,
        DecodeKind::ExpectedKey => "expected string key in object"@,
        DecodeKind::ExpectedColon => "expected ':' after object key"@,
        DecodeKind::ExpectedCommaOrBrace => "expected ',' or '}' in object"@,
        DecodeKind::TrailingContent => "trailing content after JSON value"@,
    }
}

impl DecodeKind {
    /// What went wrong, in words.
    pub fn text(&self) -> (r: &'static str)
        ensures
            r@ == decode_text(*self),
    {
        match self {
            DecodeKind::DepthExceeded => "JSON nesting depth exceeded",
            DecodeKind::UnexpectedChar(_) => "unexpected character",
            DecodeKind::UnexpectedEnd => "unexpected end of input",
            DecodeKind::ExpectedTrue => "expected 'true'",
            DecodeKind::ExpectedFalse => "expected 'false'",
            DecodeKind::ExpectedNull => "expected 'null'",
            DecodeKind::UnterminatedEscape => "unterminated escape",
            DecodeKind::InvalidEscape => "invalid escape sequence",
            DecodeKind::UnterminatedUtf8 => "unterminated UTF-8 sequence in string",
            DecodeKind::InvalidUtf8 => "invalid UTF-8 in string",
            DecodeKind::UnterminatedString => "unterminated string",
            DecodeKind::ExpectedLowSurrogate => "expected low surrogate after high surrogate",
            DecodeKind::ExpectedU => "expected 'u' after backslash in surrogate pair",
            DecodeKind::InvalidLowSurrogate => "invalid low surrogate",
            DecodeKind::LoneLowSurrogate => "unexpected low surrogate without high surrogate",
            DecodeKind::UnterminatedHexEscape => "unterminated \\u escape",
            DecodeKind::NonHexDigit => "non-hex digit in \\u escape",
            DecodeKind::InvalidFloat => "invalid float literal",
            DecodeKind::InvalidInteger => "invalid integer literal",
            DecodeKind::ExpectedCommaOrBracket => "expected ',' or ']' in array",
            DecodeKind::ExpectedKey => "expected string key in object",
            DecodeKind::ExpectedColon => "expected ':' after object key",
            DecodeKind::ExpectedCommaOrBrace => "expected ',' or '}' in object",
            DecodeKind::TrailingContent => "trailing content after JSON value",
        }
    }
}

/// A decoding failure and the byte offset at which it was found.
#[derive(Clone, Copy, Debug, PartialEq, Eq)]
pub struct LoadError {
    pub kind: DecodeKind,
    pub pos: usize,
}

pub struct LoadFault {
    pub kind: DecodeKind,
    pub pos: nat,
}

impl View for LoadError {
    type V = LoadFault;

    open spec fn view(&self) -> LoadFault {
        LoadFault { kind: self.kind, pos: self.pos as nat }
    }
}

pub open spec fn fault(kind: DecodeKind, pos: nat) -> LoadFault {
    LoadFault { kind, pos }
}

// ---------------------------------------------------------------------------
// The decoder, as a function of the input bytes
// ---------------------------------------------------------------------------

pub open spec fn ws_byte(c: u8) -> bool {
    c == 32 || c == 9 || c == 10 || c == 13
}

pub open spec fn digit_byte(c: u8) -> bool {
    48 <= c <= 57
}

/// The position of the first non-whitespace byte at or after `pos`.
pub open spec fn skip_ws(src: Seq<u8>, pos: nat) -> nat
    decreases src.len() - pos,
{
    if pos < src.len() && ws_byte(src[pos as int]) {
        skip_ws(src, pos + 1)
    } else {
        pos
    }
}

/// The position of the first non-digit byte at or after `pos`.
pub open spec fn skip_digits(src: Seq<u8>, pos: nat) -> nat
    decreases src.len() - pos,
{
    if pos < src.len() && digit_byte(src[pos as int]) {
        skip_digits(src, pos + 1)
    } else {
        pos
    }
}

/// Length of the UTF-8 sequence that begins with lead byte `c` (1 for an
/// ASCII byte or an invalid lead byte).
pub open spec fn spec_utf8_len(c: u8) -> nat {
    if c < 0x80 {
        1
    } else if c >> 5u8 == 6u8 {
        2
    } else if c >> 4u8 == 14u8 {
        3
    } else if c >> 3u8 == 30u8 {
        4
    } else {
        1
    }
}

pub open spec fn hex_value(c: u8) -> Option<u32> {
    if 48 <= c <= 57 {
        Some((c - 48) as u32)
    } else if 97 <= c <= 102 {
        Some((c - 97 + 10) as u32)
    } else if 65 <= c <= 70 {
        Some((c - 65 + 10) as u32)
    } else {
        None
    }
}

/// The four hex digits of a `\u` escape, read from `pos` (`k` already read,
/// worth `acc`).
pub open spec fn spec_hex4(src: Seq<u8>, pos: nat, k: nat, acc: u32) -> Result<(u32, nat), LoadFault>
    decreases 4 - k,
{
    if k >= 4 {
        Ok((acc, pos))
    } else if pos >= src.len() {
        Err(fault(DecodeKind::UnterminatedHexEscape, pos))
    } else {
        match hex_value(src[pos as int]) {
            None => Err(fault(DecodeKind::NonHexDigit, pos + 1)),
            Some(d) => spec_hex4(src, pos + 1, k + 1, ((acc * 16) + d) as u32),
        }
    }
}

/// The character of a `\u` escape whose hex digits start at `pos`, with a
/// surrogate pair combined into one character.
pub open spec fn spec_unicode_escape(src: Seq<u8>, pos: nat) -> Result<(char, nat), LoadFault> {
    match spec_hex4(src, pos, 0, 0) {
        Err(e) => Err(e),
        Ok((hi, p1)) => if 0xD800 <= hi <= 0xDBFF {
            if !(p1 < src.len() && src[p1 as int] == 92) {
                Err(fault(DecodeKind::ExpectedLowSurrogate, p1))
            } else if !(p1 + 1 < src.len()) {
                Err(fault(DecodeKind::ExpectedU, p1 + 1))
            } else if src[(p1 + 1) as int] != 117 {
                Err(fault(DecodeKind::ExpectedU, p1 + 2))
            } else {
                match spec_hex4(src, p1 + 2, 0, 0) {
                    Err(e) => Err(e),
                    Ok((lo, p4)) => if !(0xDC00 <= lo <= 0xDFFF) {
                        Err(fault(DecodeKind::InvalidLowSurrogate, p4))
                    } else {
                        Ok(((0x10000 + (hi - 0xD800) * 1024 + (lo - 0xDC00)) as char, p4))
                    },
                }
            }
        } else if 0xDC00 <= hi <= 0xDFFF {
            Err(fault(DecodeKind::LoneLowSurrogate, p1))
        } else {
            Ok((hi as char, p1))
        },
    }
}

/// The character an escape letter stands for (other than `u`).
pub open spec fn escape_char(e: u8) -> Option<char> {
    if e == 34 {
        Some('"')
    } else if e == 92 {
        Some('\\')
    } else if e == 47 {
        Some('/')
    } else if e == 110 {
        Some('\n')
    } else if e == 116 {
        Some('\t')
    } else if e == 114 {
        Some('\r')
    } else if e == 98 {
        Some('\u{08}')
    } else if e == 102 {
        Some('\u{0C}')
    } else {
        None
    }
}

/// The rest of a string literal from `pos` (its characters so far `acc`):
/// its characters and the position after the closing quote.
pub open spec fn spec_string_body(src: Seq<u8>, pos: nat, acc: Seq<char>) -> Result<
    (Seq<char>, nat),
    LoadFault,
>
    decreases rem(src, pos),
{
    if pos >= src.len() {
        Err(fault(DecodeKind::UnterminatedString, pos))
    } else {
        let c = src[pos as int];
        if c == 34 {
            Ok((acc, pos + 1))
        } else if c == 92 {
            if pos + 1 >= src.len() {
                Err(fault(DecodeKind::UnterminatedEscape, pos + 1))
            } else {
                let e = src[(pos + 1) as int];
                if e == 117 {
                    match spec_unicode_escape(src, pos + 2) {
                        Err(f) => Err(f),
                        Ok((ch, p3)) => if pos < p3 <= src.len() {
                            spec_string_body(src, p3, acc.push(ch))
                        } else {
                            Err(fault(DecodeKind::InvalidEscape, p3))
                        },
                    }
                } else {
                    match escape_char(e) {
                        Some(ch) => spec_string_body(src, pos + 2, acc.push(ch)),
                        None => Err(fault(DecodeKind::InvalidEscape, pos + 2)),
                    }
                }
            }
        } else {
            let len = spec_utf8_len(c);
            if len == 1 {
                spec_string_body(src, pos + 1, acc.push(c as char))
            } else if src.len() < pos + len {
                Err(fault(DecodeKind::UnterminatedUtf8, pos + 1))
            } else {
                let bytes = src.subrange(pos as int, (pos + len) as int);
                if valid_utf8(bytes) {
                    spec_string_body(src, pos + len, acc + decode_utf8(bytes))
                } else {
                    Err(fault(DecodeKind::InvalidUtf8, pos + 1))
                }
            }
        }
    }
}

/// A string literal whose opening quote is at `pos`.
pub open spec fn spec_string(src: Seq<u8>, pos: nat) -> Result<(Seq<char>, nat), LoadFault> {
    spec_string_body(src, pos + 1, Seq::empty())
}

/// `true`/`false`/`null` at `pos`.
pub open spec fn spec_literal(src: Seq<u8>, pos: nat, lit: Seq<u8>, val: ValueView, kind: DecodeKind) -> Result<
    (ValueView, nat),
    LoadFault,
> {
    if src.len() >= pos + lit.len() && src.subrange(pos as int, (pos + lit.len()) as int) == lit {
        Ok((val, pos + lit.len()))
    } else {
        Err(fault(kind, pos))
    }
}

/// The value of a run of decimal digits.
pub open spec fn digits_value(ds: Seq<u8>) -> nat
    decreases ds.len(),
{
    if ds.len() == 0 {
        0
    } else {
        digits_value(ds.drop_last()) * 10 + (ds.last() - 48) as nat
    }
}

/// `text` (an optional sign and a run of digits) as an `i64`, when it has
/// a digit and its value fits (`str::parse::<i64>`).
pub open spec fn parse_i64_text(text: Seq<u8>) -> Option<i64> {
    let signed = text.len() > 0 && (text[0] == 45 || text[0] == 43);
    let ds = if signed {
        text.drop_first()
    } else {
        text
    };
    let neg = signed && text[0] == 45;
    if ds.len() == 0 {
        None
    } else if neg {
        if digits_value(ds) <= 0x8000_0000_0000_0000 {
            Some((-(digits_value(ds) as int)) as i64)
        } else {
            None
        }
    } else if digits_value(ds) <= 0x7FFF_FFFF_FFFF_FFFF {
        Some(digits_value(ds) as i64)
    } else {
        None
    }
}

/// The number at `pos`: its end, whether it has a fraction or an exponent,
/// and the digit counts of its mantissa and exponent.
pub open spec fn number_end(src: Seq<u8>, pos: nat) -> (nat, bool, nat, Option<nat>) {
    let p0 = if pos < src.len() && (src[pos as int] == 45 || src[pos as int] == 43) {
        pos + 1
    } else {
        pos
    };
    let p1 = skip_digits(src, p0);
    let int_digits = (p1 - p0) as nat;
    let has_frac = p1 < src.len() && src[p1 as int] == 46;
    let p2 = if has_frac {
        skip_digits(src, p1 + 1)
    } else {
        p1
    };
    let frac_digits = if has_frac {
        (p2 - p1 - 1) as nat
    } else {
        0
    };
    let has_exp = p2 < src.len() && (src[p2 as int] == 101 || src[p2 as int] == 69);
    if has_exp {
        let p3 = if p2 + 1 < src.len() && (src[(p2 + 1) as int] == 43 || src[(p2 + 1) as int] == 45) {
            p2 + 2
        } else {
            p2 + 1
        };
        let p4 = skip_digits(src, p3);
        (p4, true, int_digits + frac_digits, Some((p4 - p3) as nat))
    } else {
        (p2, has_frac, int_digits + frac_digits, None)
    }
}

/// Whether a number's digits make a float literal `str::parse::<f64>`
/// accepts: a digit in the mantissa, and one in the exponent if any.
pub open spec fn float_digits_ok(mantissa_digits: nat, exp_digits: Option<nat>) -> bool {
    mantissa_digits > 0 && match exp_digits {
        Some(d) => d > 0,
        None => true,
    }
}

/// ASCII bytes as characters.
pub open spec fn ascii_chars(bytes: Seq<u8>) -> Seq<char> {
    Seq::new(bytes.len(), |i: int| bytes[i] as char)
}

/// The decimal digits of 2^1024 - 2^970, the least value that a float
/// literal rounds up to infinity (half way to 2^1024, which ties to even).
pub open spec fn overflow_digits() -> Seq<char> {
    "179769313486231580793728971405303415079934132710037826936173778980444968292764750946649017977587207096330286416692887910946555547851940402630657488671505820681908902000708383676273854845817711531764475730270069855571366959622842914819860834936475292719074168444365510704342711559699508093042880177904174497792"@
}

/// The parts of a number literal: where its integer digits start and end,
/// where its fraction digits end, and its exponent.
pub open spec fn lx_p0(t: Seq<u8>) -> nat {
    if t.len() > 0 && (t[0] == 45 || t[0] == 43) {
        1
    } else {
        0
    }
}

pub open spec fn lx_p1(t: Seq<u8>) -> nat {
    skip_digits(t, lx_p0(t))
}

pub open spec fn lx_has_frac(t: Seq<u8>) -> bool {
    lx_p1(t) < t.len() && t[lx_p1(t) as int] == 46
}

pub open spec fn lx_p2(t: Seq<u8>) -> nat {
    if lx_has_frac(t) {
        skip_digits(t, lx_p1(t) + 1)
    } else {
        lx_p1(t)
    }
}

/// The mantissa digits: the integer digits, then the fraction digits.
pub open spec fn lx_digits(t: Seq<u8>) -> Seq<u8> {
    t.subrange(lx_p0(t) as int, lx_p1(t) as int) + if lx_has_frac(t) {
        t.subrange(lx_p1(t) + 1int, lx_p2(t) as int)
    } else {
        Seq::<u8>::empty()
    }
}

/// How many fraction digits there are.
pub open spec fn lx_frac(t: Seq<u8>) -> int {
    if lx_has_frac(t) {
        lx_p2(t) - lx_p1(t) - 1
    } else {
        0
    }
}

/// The exponent (0 without one).
pub open spec fn lx_exp(t: Seq<u8>) -> int {
    let p2 = lx_p2(t);
    if p2 < t.len() && (t[p2 as int] == 101 || t[p2 as int] == 69) {
        let signed = p2 + 1 < t.len() && (t[p2 + 1int] == 43 || t[p2 + 1int] == 45);
        let p3 = if signed {
            p2 + 2
        } else {
            p2 + 1
        };
        let e = digits_value(t.subrange(p3 as int, skip_digits(t, p3) as int)) as int;
        if signed && t[p2 + 1int] == 45 {
            -e
        } else {
            e
        }
    } else {
        0
    }
}

/// The index of the first digit of `d` at or after `i` that is not `0`.
pub open spec fn lead_zeros(d: Seq<u8>, i: nat) -> nat
    decreases d.len() - i,
{
    if i < d.len() && d[i as int] == 48 {
        lead_zeros(d, i + 1)
    } else {
        i
    }
}

/// Whether the digits `d[i..]`, read as a decimal fraction, are below the
/// digits `tt[i..]`: the first digit where they differ decides; `d` ending
/// first is below; `d` running as long as `tt` is not.
pub open spec fn digits_below(d: Seq<u8>, tt: Seq<char>, i: nat) -> bool
    decreases tt.len() - i,
{
    if i >= tt.len() {
        false
    } else if i >= d.len() {
        true
    } else if (d[i as int] as u32) < (tt[i as int] as u32) {
        true
    } else if (d[i as int] as u32) > (tt[i as int] as u32) {
        false
    } else {
        digits_below(d, tt, i + 1)
    }
}

/// Whether a number literal denotes a finite float: its value is
/// `0.D × 10^K` for its significant digits `D` (without leading zeros) and
/// `K` = their count − the fraction digits + the exponent; it is finite when
/// it is zero, when `K` ≤ 308 (the value is below 10^308), or when `K` = 309
/// and `D` is below the digits of 2^1024 − 2^970.
pub open spec fn lexeme_finite(t: Seq<u8>) -> bool {
    let d = lx_digits(t);
    let z = lead_zeros(d, 0);
    let l = d.len() - z;
    let k = l - lx_frac(t) + lx_exp(t);
    l == 0 || k <= 308 || (k == 309 && digits_below(d.subrange(z as int, d.len() as int), overflow_digits(), 0))
}

/// A float read as text: the literal as written, finite unless it rounds
/// to infinity.
pub open spec fn float_lexeme(text: Seq<u8>) -> ValueView {
    ValueView::Float(FloatView { text: ascii_chars(text), finite: lexeme_finite(text) })
}

/// The number at `pos`: an integer when it has no fraction nor exponent and
/// fits an `i64`, else a float.
pub open spec fn spec_number(src: Seq<u8>, pos: nat) -> Result<(ValueView, nat), LoadFault> {
    let (end, is_float, mdigits, edigits) = number_end(src, pos);
    let text = src.subrange(pos as int, end as int);
    if is_float {
        if float_digits_ok(mdigits, edigits) {
            Ok((float_lexeme(text), end))
        } else {
            Err(fault(DecodeKind::InvalidFloat, end))
        }
    } else {
        match parse_i64_text(text) {
            Some(n) => Ok((ValueView::Integer(n), end)),
            None => if mdigits > 0 {
                Ok((float_lexeme(text), end))
            } else {
                Err(fault(DecodeKind::InvalidInteger, end))
            },
        }
    }
}

pub open spec fn true_bytes() -> Seq<u8> {
    seq![116u8, 114u8, 117u8, 101u8]
}

pub open spec fn false_bytes() -> Seq<u8> {
    seq![102u8, 97u8, 108u8, 115u8, 101u8]
}

pub open spec fn null_bytes() -> Seq<u8> {
    seq![110u8, 117u8, 108u8, 108u8]
}

/// How many bytes are left from `pos` on.
pub open spec fn rem(src: Seq<u8>, pos: nat) -> nat {
    if pos < src.len() {
        (src.len() - pos) as nat
    } else {
        0
    }
}

pub proof fn lemma_skip_ws_ge(src: Seq<u8>, pos: nat)
    ensures
        skip_ws(src, pos) >= pos,
        pos <= src.len() ==> skip_ws(src, pos) <= src.len(),
    decreases src.len() - pos,
{
    if pos < src.len() && ws_byte(src[pos as int]) {
        lemma_skip_ws_ge(src, pos + 1);
    }
}

/// The value at `pos` (after whitespace), at nesting `depth`.
pub open spec fn spec_value(src: Seq<u8>, pos: nat, depth: nat) -> Result<(ValueView, nat), LoadFault>
    decreases rem(src, pos), 2nat,
{
    if depth > MAX_JSON_DEPTH {
        Err(fault(DecodeKind::DepthExceeded, pos))
    } else {
        let p = skip_ws(src, pos);
        proof {
            lemma_skip_ws_ge(src, pos);
        }
        if p >= src.len() {
            Err(fault(DecodeKind::UnexpectedEnd, p))
        } else {
            let c = src[p as int];
            if c == 123 {
                spec_object(src, p, depth)
            } else if c == 91 {
                spec_array(src, p, depth)
            } else if c == 34 {
                match spec_string(src, p) {
                    Ok((s, q)) => Ok((ValueView::Str(s), q)),
                    Err(e) => Err(e),
                }
            } else if c == 116 {
                spec_literal(src, p, true_bytes(), ValueView::Logic(true), DecodeKind::ExpectedTrue)
            } else if c == 102 {
                spec_literal(src, p, false_bytes(), ValueView::Logic(false), DecodeKind::ExpectedFalse)
            } else if c == 110 {
                spec_literal(src, p, null_bytes(), ValueView::NoneVal, DecodeKind::ExpectedNull)
            } else if c == 45 || c == 43 || digit_byte(c) {
                spec_number(src, p)
            } else {
                Err(fault(DecodeKind::UnexpectedChar(c), p))
            }
        }
    }
}

/// An array whose `[` is at `pos`.
pub open spec fn spec_array(src: Seq<u8>, pos: nat, depth: nat) -> Result<(ValueView, nat), LoadFault>
    decreases rem(src, pos), 1nat,
{
    let q = skip_ws(src, pos + 1);
    proof {
        lemma_skip_ws_ge(src, pos + 1);
    }
    if pos >= src.len() {
        Err(fault(DecodeKind::UnexpectedEnd, pos))
    } else if q < src.len() && src[q as int] == 93 {
        Ok((ValueView::Block(Seq::empty()), q + 1))
    } else {
        spec_elems(src, q, depth, Seq::empty())
    }
}

/// The elements of an array from `pos` on (`acc` read so far), and the
/// position after its `]`.
pub open spec fn spec_elems(src: Seq<u8>, pos: nat, depth: nat, acc: Seq<ValueView>) -> Result<
    (ValueView, nat),
    LoadFault,
>
    decreases rem(src, pos), 3nat,
{
    match spec_value(src, pos, depth + 1) {
        Err(e) => Err(e),
        Ok((v, p2)) => {
            let acc2 = acc.push(v);
            let p3 = skip_ws(src, p2);
            if p3 < src.len() && src[p3 as int] == 44 {
                let p4 = skip_ws(src, p3 + 1);
                if pos < p4 <= src.len() {
                    spec_elems(src, p4, depth, acc2)
                } else {
                    Err(fault(DecodeKind::ExpectedCommaOrBracket, p4))
                }
            } else if p3 < src.len() && src[p3 as int] == 93 {
                Ok((ValueView::Block(acc2), p3 + 1))
            } else {
                Err(fault(DecodeKind::ExpectedCommaOrBracket, p3))
            }
        },
    }
}

/// An object whose `{` is at `pos`.
pub open spec fn spec_object(src: Seq<u8>, pos: nat, depth: nat) -> Result<(ValueView, nat), LoadFault>
    decreases rem(src, pos), 1nat,
{
    let q = skip_ws(src, pos + 1);
    proof {
        lemma_skip_ws_ge(src, pos + 1);
    }
    if pos >= src.len() {
        Err(fault(DecodeKind::UnexpectedEnd, pos))
    } else if q < src.len() && src[q as int] == 125 {
        Ok((ValueView::MapVal(Seq::empty()), q + 1))
    } else {
        spec_members(src, q, depth, Seq::empty())
    }
}

/// The members of an object from `pos` on (`acc` read so far), and the
/// position after its `}`.
pub open spec fn spec_members(
    src: Seq<u8>,
    pos: nat,
    depth: nat,
    acc: Seq<(KeyView, ValueView)>,
) -> Result<(ValueView, nat), LoadFault>
    decreases rem(src, pos), 3nat,
{
    let p = skip_ws(src, pos);
    proof {
        lemma_skip_ws_ge(src, pos);
    }
    if !(p < src.len() && src[p as int] == 34) {
        Err(fault(DecodeKind::ExpectedKey, p))
    } else {
        match spec_string(src, p) {
            Err(e) => Err(e),
            Ok((key, p1)) => {
                let p2 = skip_ws(src, p1);
                if !(p2 < src.len() && src[p2 as int] == 58) {
                    Err(fault(DecodeKind::ExpectedColon, p2))
                } else {
                    let p3 = skip_ws(src, p2 + 1);
                    if p3 < pos {
                        Err(fault(DecodeKind::ExpectedColon, p3))
                    } else {
                        match spec_value(src, p3, depth + 1) {
                            Err(e) => Err(e),
                            Ok((v, p4)) => {
                                let acc2 = map_set(acc, KeyView::Str(key), v);
                                let p5 = skip_ws(src, p4);
                                if p5 < src.len() && src[p5 as int] == 44 {
                                    let p6 = skip_ws(src, p5 + 1);
                                    if pos < p6 <= src.len() {
                                        spec_members(src, p6, depth, acc2)
                                    } else {
                                        Err(fault(DecodeKind::ExpectedCommaOrBrace, p6))
                                    }
                                } else if p5 < src.len() && src[p5 as int] == 125 {
                                    Ok((ValueView::MapVal(acc2), p5 + 1))
                                } else {
                                    Err(fault(DecodeKind::ExpectedCommaOrBrace, p5))
                                }
                            },
                        }
                    }
                }
            },
        }
    }
}

/// A whole JSON text: one value, with only whitespace around it.
pub open spec fn spec_load(src: Seq<u8>) -> Result<ValueView, LoadFault> {
    match spec_value(src, skip_ws(src, 0), 0) {
        Err(e) => Err(e),
        Ok((v, p)) => {
            let q = skip_ws(src, p);
            if q < src.len() {
                Err(fault(DecodeKind::TrailingContent, q))
            } else {
                Ok(v)
            }
        },
    }
}


// ---------------------------------------------------------------------------
// Calls into std
// ---------------------------------------------------------------------------

/// `std::str::from_utf8`: the text of `bytes` when they are valid UTF-8.
#[verifier::external_body]
pub(crate) fn str_from_utf8(bytes: &[u8]) -> (r: Option<String>)
    ensures
        r is Some <==> valid_utf8(bytes@),
        r matches Some(s) ==> s@ == decode_utf8(bytes@),
{
    std::str::from_utf8(bytes).ok().map(|s| s.to_string())
}

// ---------------------------------------------------------------------------
// The decoder
// ---------------------------------------------------------------------------

/// Returns the byte-length of the UTF-8 sequence starting with lead byte
/// `c` (1 for an invalid lead byte, so that the error surfaces later).
pub fn utf8_len(c: u8) -> (n: usize)
    ensures
        n == spec_utf8_len(c),
        1 <= n <= 4,
{
    if c < 0x80 {
        1
    } else if c >> 5u8 == 6u8 {
        2
    } else if c >> 4u8 == 14u8 {
        3
    } else if c >> 3u8 == 30u8 {
        4
    } else {
        1
    }
}

fn exec_skip_ws(src: &[u8], pos: usize) -> (r: usize)
    requires
        pos <= src@.len(),
    ensures
        r == skip_ws(src@, pos as nat),
        pos <= r <= src@.len(),
{
    let mut p = pos;
    while p < src.len() && (src[p] == 32 || src[p] == 9 || src[p] == 10 || src[p] == 13)
        invariant
            pos <= p <= src@.len(),
            skip_ws(src@, pos as nat) == skip_ws(src@, p as nat),
        decreases src@.len() - p,
    {
        p = p + 1;
    }
    p
}

fn exec_skip_digits(src: &[u8], pos: usize) -> (r: usize)
    requires
        pos <= src@.len(),
    ensures
        r == skip_digits(src@, pos as nat),
        pos <= r <= src@.len(),
{
    let mut p = pos;
    while p < src.len() && 48 <= src[p] && src[p] <= 57
        invariant
            pos <= p <= src@.len(),
            skip_digits(src@, pos as nat) == skip_digits(src@, p as nat),
        decreases src@.len() - p,
    {
        p = p + 1;
    }
    p
}

fn exec_hex_value(c: u8) -> (r: Option<u32>)
    ensures
        r == hex_value(c),
{
    if 48 <= c && c <= 57 {
        Some((c - 48) as u32)
    } else if 97 <= c && c <= 102 {
        Some((c - 97 + 10) as u32)
    } else if 65 <= c && c <= 70 {
        Some((c - 65 + 10) as u32)
    } else {
        None
    }
}

fn exec_hex4(src: &[u8], pos: usize) -> (r: Result<(u32, usize), LoadError>)
    requires
        pos <= src@.len(),
    ensures
        match r {
            Ok((v, p)) => spec_hex4(src@, pos as nat, 0, 0) == Ok::<(u32, nat), LoadFault>(
                (v, p as nat),
            ) && p == pos + 4 && p <= src@.len(),
            Err(e) => spec_hex4(src@, pos as nat, 0, 0) == Err::<(u32, nat), LoadFault>(e@),
        },
{
    let mut v: u32 = 0;
    let mut p = pos;
    let mut k: usize = 0;
    while k < 4
        invariant
            k <= 4,
            p == pos + k,
            p <= src@.len(),
            v < pow16(k as nat),
            spec_hex4(src@, pos as nat, 0, 0) == spec_hex4(src@, p as nat, k as nat, v),
        decreases 4 - k,
    {
        if p >= src.len() {
            return Err(LoadError { kind: DecodeKind::UnterminatedHexEscape, pos: p });
        }
        match exec_hex_value(src[p]) {
            None => {
                return Err(LoadError { kind: DecodeKind::NonHexDigit, pos: p + 1 });
            },
            Some(d) => {
                proof {
                    reveal_with_fuel(pow16, 5);
                    assert(pow16(k as nat) <= 4096) by {
                        if k == 0 {} else if k == 1 {} else if k == 2 {} else {}
                    }
                }
                assert(v * 16 + d < pow16((k + 1) as nat)) by (nonlinear_arith)
                    requires
                        v < pow16(k as nat),
                        d < 16,
                        pow16((k + 1) as nat) == pow16(k as nat) * 16,
                ;
                v = v * 16 + d;
                p = p + 1;
                k = k + 1;
            },
        }
    }
    Ok((v, p))
}

pub open spec fn pow16(k: nat) -> nat
    decreases k,
{
    if k == 0 {
        1
    } else {
        pow16((k - 1) as nat) * 16
    }
}

fn exec_unicode_escape(src: &[u8], pos: usize) -> (r: Result<(char, usize), LoadError>)
    requires
        pos <= src@.len(),
    ensures
        match r {
            Ok((c, p)) => spec_unicode_escape(src@, pos as nat) == Ok::<(char, nat), LoadFault>(
                (c, p as nat),
            ) && pos < p <= src@.len(),
            Err(e) => spec_unicode_escape(src@, pos as nat) == Err::<(char, nat), LoadFault>(e@),
        },
{
    let (hi, p1) = match exec_hex4(src, pos) {
        Ok(x) => x,
        Err(e) => return Err(e),
    };
    if 0xD800 <= hi && hi <= 0xDBFF {
        if !(p1 < src.len() && src[p1] == 92) {
            return Err(LoadError { kind: DecodeKind::ExpectedLowSurrogate, pos: p1 });
        }
        if !(p1 + 1 < src.len()) {
            return Err(LoadError { kind: DecodeKind::ExpectedU, pos: p1 + 1 });
        }
        if src[p1 + 1] != 117 {
            return Err(LoadError { kind: DecodeKind::ExpectedU, pos: p1 + 2 });
        }
        let (lo, p4) = match exec_hex4(src, p1 + 2) {
            Ok(x) => x,
            Err(e) => return Err(e),
        };
        if !(0xDC00 <= lo && lo <= 0xDFFF) {
            return Err(LoadError { kind: DecodeKind::InvalidLowSurrogate, pos: p4 });
        }
        let cp: u32 = 0x10000 + (hi - 0xD800) * 1024 + (lo - 0xDC00);
        match char_from_u32(cp) {
            Some(c) => Ok((c, p4)),
            None => Err(LoadError { kind: DecodeKind::InvalidLowSurrogate, pos: p4 }),
        }
    } else if 0xDC00 <= hi && hi <= 0xDFFF {
        Err(LoadError { kind: DecodeKind::LoneLowSurrogate, pos: p1 })
    } else {
        proof {
            lemma_hex4_bound(src@, pos as nat);
        }
        match char_from_u32(hi) {
            Some(c) => Ok((c, p1)),
            None => Err(LoadError { kind: DecodeKind::LoneLowSurrogate, pos: p1 }),
        }
    }
}

proof fn lemma_hex4_bound(src: Seq<u8>, pos: nat)
    ensures
        spec_hex4(src, pos, 0, 0) matches Ok((v, p)) ==> v <= 0xFFFF,
{
    reveal_with_fuel(spec_hex4, 5);
    if let Ok((v, p)) = spec_hex4(src, pos, 0, 0) {
        let d0 = hex_value(src[pos as int])->0;
        let d1 = hex_value(src[(pos + 1) as int])->0;
        let d2 = hex_value(src[(pos + 2) as int])->0;
        let d3 = hex_value(src[(pos + 3) as int])->0;
        assert(v == ((((d0 * 16) + d1) * 16 + d2) * 16 + d3) as u32);
    }
}

fn exec_escape_char(e: u8) -> (r: Option<char>)
    ensures
        r == escape_char(e),
{
    if e == 34 {
        Some('"')
    } else if e == 92 {
        Some('\\')
    } else if e == 47 {
        Some('/')
    } else if e == 110 {
        Some('\n')
    } else if e == 116 {
        Some('\t')
    } else if e == 114 {
        Some('\r')
    } else if e == 98 {
        Some('\u{08}')
    } else if e == 102 {
        Some('\u{0C}')
    } else {
        None
    }
}

/// Reads the string literal whose opening quote is at `pos`.
fn exec_string(src: &[u8], pos: usize) -> (r: Result<(String, usize), LoadError>)
    requires
        pos < src@.len(),
    ensures
        match r {
            Ok((s, p)) => spec_string(src@, pos as nat) == Ok::<(Seq<char>, nat), LoadFault>(
                (s@, p as nat),
            ) && pos < p <= src@.len(),
            Err(e) => spec_string(src@, pos as nat) == Err::<(Seq<char>, nat), LoadFault>(e@),
        },
{
    let n = src.len();
    let mut out = String::new();
    let mut p = pos + 1;
    loop
        invariant
            pos < p <= src@.len(),
            spec_string(src@, pos as nat) == spec_string_body(src@, p as nat, out@),
        decreases src@.len() - p,
    {
        if p >= src.len() {
            return Err(LoadError { kind: DecodeKind::UnterminatedString, pos: p });
        }
        let c = src[p];
        if c == 34 {
            return Ok((out, p + 1));
        } else if c == 92 {
            if p + 1 >= src.len() {
                return Err(LoadError { kind: DecodeKind::UnterminatedEscape, pos: p + 1 });
            }
            let e = src[p + 1];
            if e == 117 {
                match exec_unicode_escape(src, p + 2) {
                    Err(f) => return Err(f),
                    Ok((ch, p3)) => {
                        push_char(&mut out, ch);
                        p = p3;
                    },
                }
            } else {
                match exec_escape_char(e) {
                    Some(ch) => {
                        push_char(&mut out, ch);
                        p = p + 2;
                    },
                    None => return Err(LoadError { kind: DecodeKind::InvalidEscape, pos: p + 2 }),
                }
            }
        } else {
            let len = utf8_len(c);
            if len == 1 {
                push_char(&mut out, c as char);
                p = p + 1;
            } else if src.len() - p < len {
                return Err(LoadError { kind: DecodeKind::UnterminatedUtf8, pos: p + 1 });
            } else {
                let bytes = vstd::slice::slice_subrange(src, p, p + len);
                match str_from_utf8(bytes) {
                    Some(t) => {
                        push_str_owned(&mut out, &t);
                        p = p + len;
                    },
                    None => return Err(LoadError { kind: DecodeKind::InvalidUtf8, pos: p + 1 }),
                }
            }
        }
    }
}

fn push_str_owned(out: &mut String, t: &String)
    ensures
        final(out)@ == old(out)@ + t@,
{
    crate::text::push_str(out, t.as_str());
}


fn exec_parse_i64(text: &[u8]) -> (r: Option<i64>)
    requires
        forall|j: int|
            0 <= j < text@.len() ==> digit_byte(#[trigger] text@[j]) || (j == 0 && (text@[0] == 45
                || text@[0] == 43)),
    ensures
        r == parse_i64_text(text@),
{
    let n = text.len();
    let signed = n > 0 && (text[0] == 45 || text[0] == 43);
    let neg = signed && text[0] == 45;
    let start: usize = if signed { 1 } else { 0 };
    let ghost ds = if signed {
        text@.drop_first()
    } else {
        text@
    };
    if start == n {
        return None;
    }
    let mut acc: u128 = 0;
    let mut big = false;
    let mut i = start;
    while i < n
        invariant
            start <= i <= n,
            n == text@.len(),
            ds == text@.subrange(start as int, n as int),
            forall|j: int|
                0 <= j < text@.len() ==> digit_byte(#[trigger] text@[j]) || (j == 0 && (text@[0]
                    == 45 || text@[0] == 43)),
            signed == (n > 0 && (text@[0] == 45 || text@[0] == 43)),
            start == (if signed { 1usize } else { 0usize }),
            big ==> digits_value(ds.take(i - start)) > 0x8000_0000_0000_0000,
            !big ==> acc == digits_value(ds.take(i - start)) && acc <= 0x8000_0000_0000_0000,
        decreases n - i,
    {
        proof {
            assert(ds.take(i - start + 1).drop_last() == ds.take(i - start));
            assert(ds.take(i - start + 1).last() == text@[i as int]);
        }
        assert(digit_byte(text@[i as int]));
        if !big {
            let next = acc * 10 + ((text[i] - 48) as u128);
            if next > 0x8000_0000_0000_0000 {
                big = true;
            } else {
                acc = next;
            }
        }
        i = i + 1;
    }
    proof {
        assert(ds.take(n - start) == ds);
    }
    if big {
        None
    } else if neg {
        Some(if acc == 0x8000_0000_0000_0000 {
            i64::MIN
        } else {
            -(acc as i64)
        })
    } else if acc <= 0x7FFF_FFFF_FFFF_FFFF {
        Some(acc as i64)
    } else {
        None
    }
}

/// The ASCII bytes `text` as a string.
fn ascii_string(text: &[u8]) -> (r: String)
    ensures
        r@ == ascii_chars(text@),
{
    let mut out = String::new();
    let mut i: usize = 0;
    while i < text.len()
        invariant
            i <= text@.len(),
            out@ == ascii_chars(text@.take(i as int)),
        decreases text@.len() - i,
    {
        push_char(&mut out, text[i] as char);
        i = i + 1;
        assert(ascii_chars(text@.take(i as int)) =~= ascii_chars(text@.take(i - 1)).push(
            text@[i - 1] as char,
        ));
    }
    assert(text@.take(i as int) == text@);
    out
}

proof fn lemma_skip_digits_all(src: Seq<u8>, pos: nat)
    ensures
        forall|j: int| pos <= j < skip_digits(src, pos) ==> digit_byte(#[trigger] src[j]),
        skip_digits(src, pos) >= pos,
    decreases src.len() - pos,
{
    if pos < src.len() && digit_byte(src[pos as int]) {
        lemma_skip_digits_all(src, pos + 1);
    }
}

fn exec_number_end(src: &[u8], pos: usize) -> (r: (usize, bool, usize, Option<usize>))
    requires
        pos < src@.len(),
    ensures
        number_end(src@, pos as nat) == (r.0 as nat, r.1, r.2 as nat, match r.3 {
            Some(d) => Some(d as nat),
            None => None::<nat>,
        }),
        pos <= r.0 <= src@.len(),
        !r.1 ==> forall|j: int|
            pos <= j < r.0 ==> digit_byte(#[trigger] src@[j]) || (j == pos && (src@[j] == 45
                || src@[j] == 43)),
        r.0 == pos ==> r.2 == 0,
        r.2 > 0 ==> r.0 > pos,
{
    let n = src.len();
    let p0 = if src[pos] == 45 || src[pos] == 43 {
        pos + 1
    } else {
        pos
    };
    let p1 = exec_skip_digits(src, p0);
    proof {
        lemma_skip_digits_all(src@, p0 as nat);
    }
    let int_digits = p1 - p0;
    let has_frac = p1 < n && src[p1] == 46;
    let p2 = if has_frac {
        exec_skip_digits(src, p1 + 1)
    } else {
        p1
    };
    let frac_digits = if has_frac {
        p2 - p1 - 1
    } else {
        0
    };
    let has_exp = p2 < n && (src[p2] == 101 || src[p2] == 69);
    if has_exp {
        let p3 = if p2 + 1 < n && (src[p2 + 1] == 43 || src[p2 + 1] == 45) {
            p2 + 2
        } else {
            p2 + 1
        };
        let p4 = exec_skip_digits(src, p3);
        (p4, true, int_digits + frac_digits, Some(p4 - p3))
    } else {
        (p2, has_frac, int_digits + frac_digits, None)
    }
}

/// The value of the exponent digits at `p3`, held at 2^66 when larger:
/// beyond that bound whether a literal is finite cannot change, since its
/// digit counts are below 2^64.
fn exp_value(t: &[u8], p3: usize) -> (r: i128)
    requires
        p3 <= t@.len(),
    ensures
        r == (if digits_value(t@.subrange(p3 as int, skip_digits(t@, p3 as nat) as int)) >= 0x4_0000_0000_0000_0000 {
            0x4_0000_0000_0000_0000
        } else {
            digits_value(t@.subrange(p3 as int, skip_digits(t@, p3 as nat) as int)) as int
        }),
{
    let cap: i128 = 0x4_0000_0000_0000_0000;
    let p4 = exec_skip_digits(t, p3);
    proof {
        lemma_skip_digits_all(t@, p3 as nat);
    }
    let mut v: i128 = 0;
    let mut i = p3;
    while i < p4
        invariant
            p3 <= i <= p4,
            p4 == skip_digits(t@, p3 as nat),
            p4 <= t@.len(),
            forall|j: int| p3 <= j < p4 ==> digit_byte(#[trigger] t@[j]),
            0 <= v <= cap,
            cap == 0x4_0000_0000_0000_0000,
            v == (if digits_value(t@.subrange(p3 as int, i as int)) >= cap {
                cap as int
            } else {
                digits_value(t@.subrange(p3 as int, i as int)) as int
            }),
        decreases p4 - i,
    {
        let ghost pre = t@.subrange(p3 as int, i as int);
        assert(t@.subrange(p3 as int, i + 1).drop_last() =~= pre);
        assert(digit_byte(t@[i as int]));
        let d = (t[i] - 48) as i128;
        assert(digits_value(t@.subrange(p3 as int, i + 1)) == digits_value(pre) * 10 + d);
        if v >= cap {
            v = cap;
        } else {
            assert(v * 10 + d < 11 * cap);
            let w = v * 10 + d;
            v = if w >= cap {
                cap
            } else {
                w
            };
        }
        i = i + 1;
    }
    v
}

/// The mantissa digits of the number literal `t` and its fraction-digit count.
fn lexeme_digits(t: &[u8]) -> (r: (Vec<u8>, usize))
    ensures
        r.0@ == lx_digits(t@),
        r.1 == lx_frac(t@),
        r.0@.len() <= t@.len(),
        r.1 <= t@.len(),
{
    let n = t.len();
    let p0: usize = if n > 0 && (t[0] == 45 || t[0] == 43) {
        1
    } else {
        0
    };
    let p1 = exec_skip_digits(t, p0);
    let has_frac = p1 < n && t[p1] == 46;
    let p2 = if has_frac {
        exec_skip_digits(t, p1 + 1)
    } else {
        p1
    };
    let mut d: Vec<u8> = Vec::new();
    let mut i = p0;
    while i < p1
        invariant
            p0 <= i <= p1,
            p1 <= t@.len(),
            d@ == t@.subrange(p0 as int, i as int),
        decreases p1 - i,
    {
        d.push(t[i]);
        i = i + 1;
        assert(d@ =~= t@.subrange(p0 as int, i as int));
    }
    let ghost ipart = d@;
    if has_frac {
        let mut j = p1 + 1;
        while j < p2
            invariant
                p1 + 1 <= j <= p2,
                p2 <= t@.len(),
                d@ == ipart + t@.subrange(p1 + 1, j as int),
            decreases p2 - j,
        {
            d.push(t[j]);
            j = j + 1;
            assert(d@ =~= ipart + t@.subrange(p1 + 1, j as int));
        }
        (d, p2 - p1 - 1)
    } else {
        assert(d@ =~= ipart + Seq::<u8>::empty());
        (d, 0)
    }
}

/// The exponent of a number literal, held within the saturation bound.
pub open spec fn clamped_exp(t: Seq<u8>) -> int {
    if lx_exp(t) >= 0x4_0000_0000_0000_0000 {
        0x4_0000_0000_0000_0000
    } else if lx_exp(t) <= -0x4_0000_0000_0000_0000 {
        -0x4_0000_0000_0000_0000
    } else {
        lx_exp(t)
    }
}

fn lexeme_exp(t: &[u8]) -> (x: i128)
    ensures
        x == clamped_exp(t@),
{
    let n = t.len();
    let p0: usize = if n > 0 && (t[0] == 45 || t[0] == 43) {
        1
    } else {
        0
    };
    let p1 = exec_skip_digits(t, p0);
    let has_frac = p1 < n && t[p1] == 46;
    let p2 = if has_frac {
        exec_skip_digits(t, p1 + 1)
    } else {
        p1
    };
    assert(p2 == lx_p2(t@));
    let has_exp = p2 < n && (t[p2] == 101 || t[p2] == 69);
    if has_exp {
        let signed = p2 + 1 < n && (t[p2 + 1] == 43 || t[p2 + 1] == 45);
        let p3 = if signed {
            p2 + 2
        } else {
            p2 + 1
        };
        let e = exp_value(t, p3);
        if signed && t[p2 + 1] == 45 {
            -e
        } else {
            e
        }
    } else {
        0
    }
}

/// Whether the digits `d[z..]` are below the digits of `tt` (see `digits_below`).
fn exec_digits_below(d: &Vec<u8>, z: usize, tt: &Vec<char>) -> (r: bool)
    requires
        z <= d@.len(),
    ensures
        r == digits_below(d@.subrange(z as int, d@.len() as int), tt@, 0),
{
    let ghost ds = d@.subrange(z as int, d@.len() as int);
    let mut i: usize = 0;
    while i < tt.len()
        invariant
            z <= d@.len(),
            ds == d@.subrange(z as int, d@.len() as int),
            i <= tt@.len(),
            digits_below(ds, tt@, 0) == digits_below(ds, tt@, i as nat),
        decreases tt@.len() - i,
    {
        if i >= d.len() - z {
            return true;
        }
        assert(ds[i as int] == d@[z + i]);
        let a = d[z + i] as u32;
        let b = tt[i] as u32;
        if a < b {
            return true;
        }
        if a > b {
            return false;
        }
        i = i + 1;
    }
    false
}

/// Whether the number literal `t` denotes a finite float.
fn exec_lexeme_finite(t: &[u8]) -> (r: bool)
    ensures
        r == lexeme_finite(t@),
{
    let (d, frac) = lexeme_digits(t);
    let x = lexeme_exp(t);
    let mut z: usize = 0;
    while z < d.len() && d[z] == 48
        invariant
            z <= d@.len(),
            lead_zeros(d@, 0) == lead_zeros(d@, z as nat),
        decreases d@.len() - z,
    {
        z = z + 1;
    }
    assert(lead_zeros(d@, z as nat) == z);
    let l = d.len() - z;
    if l == 0 {
        return true;
    }
    let k: i128 = l as i128 - frac as i128 + x;
    proof {
        let ke = l - lx_frac(t@) + lx_exp(t@);
        if lx_exp(t@) >= 0x4_0000_0000_0000_0000 {
            assert(k > 309 && ke > 309);
        } else if lx_exp(t@) <= -0x4_0000_0000_0000_0000 {
            assert(k < 308 && ke < 308);
        } else {
            assert(k == ke);
        }
    }
    if k <= 308 {
        return true;
    }
    if k != 309 {
        return false;
    }
    let tt = to_chars("179769313486231580793728971405303415079934132710037826936173778980444968292764750946649017977587207096330286416692887910946555547851940402630657488671505820681908902000708383676273854845817711531764475730270069855571366959622842914819860834936475292719074168444365510704342711559699508093042880177904174497792");
    exec_digits_below(&d, z, &tt)
}

fn exec_number(src: &[u8], pos: usize) -> (r: Result<(Value, usize), LoadError>)
    requires
        pos < src@.len(),
    ensures
        match r {
            Ok((v, p)) => spec_number(src@, pos as nat) == Ok::<(ValueView, nat), LoadFault>(
                (v@, p as nat),
            ) && pos < p <= src@.len(),
            Err(e) => spec_number(src@, pos as nat) == Err::<(ValueView, nat), LoadFault>(e@),
        },
{
    let (end, is_float, mdigits, edigits) = exec_number_end(src, pos);
    let ghost sp = number_end(src@, pos as nat);
    let text = vstd::slice::slice_subrange(src, pos, end);
    let ok_float = mdigits > 0 && match edigits {
        Some(d) => d > 0,
        None => true,
    };
    assert(ok_float == float_digits_ok(sp.2, sp.3));
    if is_float {
        if ok_float {
            let finite = exec_lexeme_finite(text);
            Ok((Value::Float(FloatText { text: ascii_string(text), finite }), end))
        } else {
            Err(LoadError { kind: DecodeKind::InvalidFloat, pos: end })
        }
    } else {
        assert forall|j: int|
            0 <= j < text@.len() implies digit_byte(#[trigger] text@[j]) || (j == 0 && (text@[0]
                == 45 || text@[0] == 43)) by {
            assert(text@[j] == src@[pos + j]);
        }
        match exec_parse_i64(text) {
            Some(k) => {
                assert(text@.len() > 0);
                Ok((Value::Integer(k), end))
            },
            None => if mdigits > 0 {
                let finite = exec_lexeme_finite(text);
                Ok((Value::Float(FloatText { text: ascii_string(text), finite }), end))
            } else {
                Err(LoadError { kind: DecodeKind::InvalidInteger, pos: end })
            },
        }
    }
}


fn bytes3(a: u8, b: u8, c: u8, d: u8) -> (r: Vec<u8>)
    ensures
        r@ == seq![a, b, c, d],
{
    let mut v = Vec::new();
    v.push(a);
    v.push(b);
    v.push(c);
    v.push(d);
    assert(v@ =~= seq![a, b, c, d]);
    v
}

fn exec_literal(src: &[u8], pos: usize, lit: &[u8], val: Value, kind: DecodeKind) -> (r: Result<
    (Value, usize),
    LoadError,
>)
    requires
        pos < src@.len(),
        lit@.len() > 0,
    ensures
        match r {
            Ok((v, p)) => spec_literal(src@, pos as nat, lit@, val@, kind) == Ok::<
                (ValueView, nat),
                LoadFault,
            >((v@, p as nat)) && pos < p <= src@.len(),
            Err(e) => spec_literal(src@, pos as nat, lit@, val@, kind) == Err::<
                (ValueView, nat),
                LoadFault,
            >(e@),
        },
{
    let n = src.len();
    if n - pos < lit.len() {
        return Err(LoadError { kind, pos });
    }
    let mut i: usize = 0;
    while i < lit.len()
        invariant
            i <= lit@.len(),
            pos + lit@.len() <= src@.len(),
            n == src@.len(),
            forall|j: int| 0 <= j < i ==> src@[pos + j] == lit@[j],
        decreases lit@.len() - i,
    {
        if src[pos + i] != lit[i] {
            assert(src@.subrange(pos as int, pos + lit@.len())[i as int] != lit@[i as int]);
            return Err(LoadError { kind, pos });
        }
        i = i + 1;
    }
    assert(src@.subrange(pos as int, pos + lit@.len()) =~= lit@);
    Ok((val, pos + lit.len()))
}

/// Reads the value at `pos` (after whitespace), at nesting `depth`.
fn exec_value(src: &[u8], pos: usize, depth: usize) -> (r: Result<(Value, usize), LoadError>)
    requires
        pos <= src@.len(),
        depth <= MAX_JSON_DEPTH + 1,
    ensures
        match r {
            Ok((v, p)) => spec_value(src@, pos as nat, depth as nat) == Ok::<
                (ValueView, nat),
                LoadFault,
            >((v@, p as nat)) && pos < p <= src@.len(),
            Err(e) => spec_value(src@, pos as nat, depth as nat) == Err::<(ValueView, nat), LoadFault>(
                e@,
            ),
        },
    decreases rem(src@, pos as nat), 2nat,
{
    if depth > MAX_JSON_DEPTH {
        return Err(LoadError { kind: DecodeKind::DepthExceeded, pos });
    }
    let p = exec_skip_ws(src, pos);
    if p >= src.len() {
        return Err(LoadError { kind: DecodeKind::UnexpectedEnd, pos: p });
    }
    let c = src[p];
    if c == 123 {
        exec_object(src, p, depth)
    } else if c == 91 {
        exec_array(src, p, depth)
    } else if c == 34 {
        match exec_string(src, p) {
            Ok((s, q)) => Ok((Value::Str(s), q)),
            Err(e) => Err(e),
        }
    } else if c == 116 {
        let lit = bytes3(116, 114, 117, 101);
        exec_literal(src, p, lit.as_slice(), Value::Logic(true), DecodeKind::ExpectedTrue)
    } else if c == 102 {
        let mut lit = bytes3(102, 97, 108, 115);
        lit.push(101);
        assert(lit@ =~= false_bytes());
        exec_literal(src, p, lit.as_slice(), Value::Logic(false), DecodeKind::ExpectedFalse)
    } else if c == 110 {
        let lit = bytes3(110, 117, 108, 108);
        exec_literal(src, p, lit.as_slice(), Value::NoneVal, DecodeKind::ExpectedNull)
    } else if c == 45 || c == 43 || (48 <= c && c <= 57) {
        exec_number(src, p)
    } else {
        Err(LoadError { kind: DecodeKind::UnexpectedChar(c), pos: p })
    }
}

/// Reads the array whose `[` is at `pos`.
fn exec_array(src: &[u8], pos: usize, depth: usize) -> (r: Result<(Value, usize), LoadError>)
    requires
        pos < src@.len(),
        depth <= MAX_JSON_DEPTH,
    ensures
        match r {
            Ok((v, p)) => spec_array(src@, pos as nat, depth as nat) == Ok::<
                (ValueView, nat),
                LoadFault,
            >((v@, p as nat)) && pos < p <= src@.len(),
            Err(e) => spec_array(src@, pos as nat, depth as nat) == Err::<(ValueView, nat), LoadFault>(
                e@,
            ),
        },
    decreases rem(src@, pos as nat), 1nat,
{
    let n = src.len();
    let mut q = exec_skip_ws(src, pos + 1);
    if q < n && src[q] == 93 {
        let e: Vec<Value> = Vec::new();
        assert(view_items(e@) =~= Seq::<ValueView>::empty());
        return Ok((Value::Block(e), q + 1));
    }
    let mut acc: Vec<Value> = Vec::new();
    loop
        invariant
            pos < q <= src@.len(),
            n == src@.len(),
            depth <= MAX_JSON_DEPTH,
            spec_array(src@, pos as nat, depth as nat) == spec_elems(
                src@,
                q as nat,
                depth as nat,
                view_items(acc@),
            ),
        decreases src@.len() - q,
    {
        let (v, p2) = match exec_value(src, q, depth + 1) {
            Ok(x) => x,
            Err(e) => return Err(e),
        };
        let ghost vv = v@;
        let ghost old_acc = acc@;
        acc.push(v);
        proof {
            assert(acc@.drop_last() == old_acc);
            assert(view_items(acc@) == view_items(old_acc).push(vv));
        }
        let p3 = exec_skip_ws(src, p2);
        if p3 < n && src[p3] == 44 {
            let p4 = exec_skip_ws(src, p3 + 1);
            q = p4;
        } else if p3 < n && src[p3] == 93 {
            return Ok((Value::Block(acc), p3 + 1));
        } else {
            return Err(LoadError { kind: DecodeKind::ExpectedCommaOrBracket, pos: p3 });
        }
    }
}

/// Reads the object whose `{` is at `pos`.
fn exec_object(src: &[u8], pos: usize, depth: usize) -> (r: Result<(Value, usize), LoadError>)
    requires
        pos < src@.len(),
        depth <= MAX_JSON_DEPTH,
    ensures
        match r {
            Ok((v, p)) => spec_object(src@, pos as nat, depth as nat) == Ok::<
                (ValueView, nat),
                LoadFault,
            >((v@, p as nat)) && pos < p <= src@.len(),
            Err(e) => spec_object(src@, pos as nat, depth as nat) == Err::<(ValueView, nat), LoadFault>(
                e@,
            ),
        },
    decreases rem(src@, pos as nat), 1nat,
{
    let n = src.len();
    let mut q = exec_skip_ws(src, pos + 1);
    if q < n && src[q] == 125 {
        let e: Vec<(MapKey, Value)> = Vec::new();
        assert(view_keyed(e@) =~= Seq::<(KeyView, ValueView)>::empty());
        return Ok((Value::MapVal(e), q + 1));
    }
    let mut acc: Vec<(MapKey, Value)> = Vec::new();
    loop
        invariant
            pos < q <= src@.len(),
            n == src@.len(),
            depth <= MAX_JSON_DEPTH,
            spec_object(src@, pos as nat, depth as nat) == spec_members(
                src@,
                q as nat,
                depth as nat,
                view_keyed(acc@),
            ),
        decreases src@.len() - q,
    {
        let p = exec_skip_ws(src, q);
        if !(p < n && src[p] == 34) {
            return Err(LoadError { kind: DecodeKind::ExpectedKey, pos: p });
        }
        let (key, p1) = match exec_string(src, p) {
            Ok(x) => x,
            Err(e) => return Err(e),
        };
        let p2 = exec_skip_ws(src, p1);
        if !(p2 < n && src[p2] == 58) {
            return Err(LoadError { kind: DecodeKind::ExpectedColon, pos: p2 });
        }
        let p3 = exec_skip_ws(src, p2 + 1);
        let (v, p4) = match exec_value(src, p3, depth + 1) {
            Ok(x) => x,
            Err(e) => return Err(e),
        };
        let ghost kv = KeyView::Str(key@);
        map_set_entry(&mut acc, MapKey::Str(key), v);
        let p5 = exec_skip_ws(src, p4);
        if p5 < n && src[p5] == 44 {
            let p6 = exec_skip_ws(src, p5 + 1);
            q = p6;
        } else if p5 < n && src[p5] == 125 {
            return Ok((Value::MapVal(acc), p5 + 1));
        } else {
            return Err(LoadError { kind: DecodeKind::ExpectedCommaOrBrace, pos: p5 });
        }
    }
}

/// Decodes a whole JSON text: one value with only whitespace around it.
pub fn load_json(src: &[u8]) -> (r: Result<Value, LoadError>)
    ensures
        match r {
            Ok(v) => spec_load(src@) == Ok::<ValueView, LoadFault>(v@),
            Err(e) => spec_load(src@) == Err::<ValueView, LoadFault>(e@),
        },
{
    let p0 = exec_skip_ws(src, 0);
    let (v, p) = match exec_value(src, p0, 0) {
        Ok(x) => x,
        Err(e) => return Err(e),
    };
    let q = exec_skip_ws(src, p);
    if q < src.len() {
        return Err(LoadError { kind: DecodeKind::TrailingContent, pos: q });
    }
    Ok(v)
}


/// The text `String::from_utf8_lossy` makes of `bytes`: each maximal
/// invalid sequence replaced by U+FFFD.
pub uninterp spec fn utf8_lossy(bytes: Seq<u8>) -> Seq<char>;

/// `String::from_utf8_lossy(bytes).into_owned()`: the contract names the
/// result and states that valid UTF-8 is decoded unchanged.
#[verifier::external_body]
fn string_from_utf8_lossy(bytes: &[u8]) -> (r: String)
    ensures
        r@ == utf8_lossy(bytes@),
        valid_utf8(bytes@) ==> r@ == decode_utf8(bytes@),
{
    String::from_utf8_lossy(bytes).into_owned()
}

/// What `load-json` returns for a decoding outcome.
pub open spec fn load_outcome(r: Result<Value, JsonError>, res: Result<ValueView, LoadFault>) -> bool {
    match res {
        Ok(v) => r matches Ok(x) && x@ == v,
        Err(f) => r matches Err(JsonError::Decode(e)) && e@ == f,
    }
}

/// `load-json text`: decodes the JSON in a `string!` (its UTF-8 bytes) or a
/// `binary!` (read as UTF-8, invalid sequences replaced).
pub fn load_json_native(args: &[Value], refs: &RefineArgs) -> (r: Result<Value, JsonError>)
    ensures
        args@.len() == 0 ==> r == Err::<Value, JsonError>(JsonError::Arity { expected: 1, got: 0 }),
        args@.len() > 0 ==> match args@[0]@ {
            ValueView::Str(s) => load_outcome(r, spec_load(encode_utf8(s))),
            ValueView::Binary(b) => load_outcome(r, spec_load(encode_utf8(utf8_lossy(b)))),
            _ => r == Err::<Value, JsonError>(JsonError::NotText(kind_of(args@[0]@))),
        },
{
    if args.len() == 0 {
        return Err(JsonError::Arity { expected: 1, got: 0 });
    }
    let text: String = match &args[0] {
        Value::Str(s) => s.clone(),
        Value::Binary(b) => string_from_utf8_lossy(b.as_slice()),
        other => return Err(JsonError::NotText(kind(other))),
    };
    let bytes = text.as_str().as_bytes();
    match load_json(bytes) {
        Ok(v) => Ok(v),
        Err(e) => Err(JsonError::Decode(e)),
    }
}

} // verus!
