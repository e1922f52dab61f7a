//! The JSON dialect: `to-json` (encoder).
use vstd::prelude::*;

use crate::codec::{base64_encode, base64_standard_encode};
use crate::json_decode::{decode_text, LoadError};
use crate::native::RefineArgs;
use crate::text::{
    digit_char, int_text, nat_text, push_char, push_indent, push_int, push_nat, push_padded,
    push_str, spaces, zero_pad,
};
use crate::value::{
    float_view, key_view, kind_name, lemma_view_fields, lemma_view_items, lemma_view_keyed, view_fields,
    view_items, view_keyed, view_value, DateValue, FloatText, FloatView, Kind, KeyView, MapKey,
    Opaque, Value, ValueView,
};

verus! {

broadcast use vstd::string::group_string_axioms;

/// The rendering of a `decimal!` with the given mantissa and scale, as
/// `rust_decimal`'s `Display` writes it: the digits of the mantissa's
/// magnitude, padded with zeros on the left to at least `scale` digits; the
/// last `scale` of them after a point, with a `0` before the point when no
/// digit is left there; `0` alone for zero without a scale; `-` first for a
/// negative mantissa.
#[verifier::opaque]
pub open spec fn decimal_display(mantissa: i128, scale: u32) -> Seq<char> {
    let mag: nat = if mantissa < 0 {
        (-mantissa) as nat
    } else {
        mantissa as nat
    };
    let d = if mag == 0 {
        Seq::<char>::empty()
    } else {
        nat_text(mag)
    };
    let p = if d.len() >= scale {
        d
    } else {
        Seq::new((scale - d.len()) as nat, |i: int| '0') + d
    };
    let w = p.len() - scale;
    let body = if scale == 0 {
        if p.len() == 0 {
            seq!['0']
        } else {
            p
        }
    } else {
        (if w == 0 {
            seq!['0']
        } else {
            p.take(w)
        }) + seq!['.'] + p.skip(w)
    };
    if mantissa < 0 {
        seq!['-'] + body
    } else {
        body
    }
}

/// The largest mantissa magnitude a `rust_decimal::Decimal` holds (96 bits).
pub const DECIMAL_MAX_MANTISSA: i128 = 0xFFFF_FFFF_FFFF_FFFF_FFFF_FFFF;

/// The largest scale a `rust_decimal::Decimal` holds.
pub const DECIMAL_MAX_SCALE: u32 = 28;

/// A `decimal!` that `rust_decimal` can represent.
pub open spec fn decimal_wf(mantissa: i128, scale: u32) -> bool {
    &&& scale <= DECIMAL_MAX_SCALE
    &&& -DECIMAL_MAX_MANTISSA <= mantissa <= DECIMAL_MAX_MANTISSA
}

/// `Decimal::from_i128_with_scale(mantissa, scale).to_string()`
/// (`rust_decimal`): the contract claims the text that its `Display`
/// writes (see `decimal_display`).
#[verifier::external_body]
fn decimal_to_string(mantissa: i128, scale: u32) -> (r: String)
    requires
        decimal_wf(mantissa, scale),
    ensures
        r@ == decimal_display(mantissa, scale),
{
    rust_decimal::Decimal::from_i128_with_scale(mantissa, scale).to_string()
}

/// Why a value has no JSON text.
#[derive(Clone, Copy, Debug, PartialEq, Eq)]
pub enum Unencodable {
    Kind(Opaque),
    Bitset,
    Error,
}

/// The encoder's failures.
#[derive(Clone, Debug, PartialEq)]
pub enum EncodeError {
    /// A NaN or infinite float (its spelling).
    NonFinite(String),
    /// A value kind with no JSON representation.
    Unencodable(Unencodable),
}

/// `EncodeError` with its text as characters.
pub enum EncodeFault {
    NonFinite(Seq<char>),
    Unencodable(Unencodable),
}

impl View for EncodeError {
    type V = EncodeFault;

    open spec fn view(&self) -> EncodeFault {
        match self {
            EncodeError::NonFinite(s) => EncodeFault::NonFinite(s@),
            EncodeError::Unencodable(u) => EncodeFault::Unencodable(*u),
        }
    }
}

/// Every `decimal!` inside `v` is one `rust_decimal` can represent.
pub open spec fn value_wf(v: ValueView) -> bool
    decreases v,
{
    match v {
        ValueView::Decimal { mantissa, scale } => decimal_wf(mantissa, scale),
        ValueView::Block(items) => items_wf(items),
        ValueView::Paren(items) => items_wf(items),
        ValueView::MapVal(entries) => keyed_wf(entries),
        ValueView::Hash(entries) => keyed_wf(entries),
        ValueView::Object(fields) => fields_wf(fields),
        ValueView::Pair(x, y) => value_wf(*x) && value_wf(*y),
        _ => true,
    }
}

pub open spec fn items_wf(items: Seq<ValueView>) -> bool
    decreases items,
{
    if items.len() == 0 {
        true
    } else {
        items_wf(items.drop_last()) && value_wf(items.last())
    }
}

pub open spec fn keyed_wf(entries: Seq<(KeyView, ValueView)>) -> bool
    decreases entries,
{
    if entries.len() == 0 {
        true
    } else {
        keyed_wf(entries.drop_last()) && value_wf(entries.last().1)
    }
}

pub open spec fn fields_wf(fields: Seq<(Seq<char>, ValueView)>) -> bool
    decreases fields,
{
    if fields.len() == 0 {
        true
    } else {
        fields_wf(fields.drop_last()) && value_wf(fields.last().1)
    }
}

// ---------------------------------------------------------------------------
// The JSON text of a value
// ---------------------------------------------------------------------------

/// Lower-case hexadecimal digit of `d < 16`.
pub open spec fn hex_lower(d: nat) -> char {
    if d < 10 {
        digit_char(d)
    } else {
        ((d - 10 + 97) as u32) as char
    }
}

/// The JSON spelling of one character inside a string literal.
pub open spec fn json_escape_char(c: char) -> Seq<char> {
    if c == '"' {
        seq!['\\', '"']
    } else if c == '\\' {
        seq!['\\', '\\']
    } else if c == '\n' {
        seq!['\\', 'n']
    } else if c == '\t' {
        seq!['\\', 't']
    } else if c == '\r' {
        seq!['\\', 'r']
    } else if c == '\u{08}' {
        seq!['\\', 'b']
    } else if c == '\u{0C}' {
        seq!['\\', 'f']
    } else if (c as u32) < 0x20 {
        seq!['\\', 'u', '0', '0', hex_lower((c as u32 / 16) as nat), hex_lower((c as u32 % 16) as nat)]
    } else {
        seq![c]
    }
}

pub open spec fn json_escape(s: Seq<char>) -> Seq<char>
    decreases s.len(),
{
    if s.len() == 0 {
        Seq::empty()
    } else {
        json_escape(s.drop_last()) + json_escape_char(s.last())
    }
}

/// A JSON string literal holding `s`.
pub open spec fn json_quoted(s: Seq<char>) -> Seq<char> {
    seq!['"'] + json_escape(s) + seq!['"']
}

/// The line break and indentation before an element, in pretty mode.
pub open spec fn break_indent(pretty: bool, n: nat) -> Seq<char> {
    if pretty {
        seq!['\n'] + spaces(n)
    } else {
        Seq::empty()
    }
}

/// What precedes the `k`-th element of an array or object.
pub open spec fn elem_prefix(k: nat, pretty: bool, indent: nat) -> Seq<char> {
    (if k > 0 {
        seq![',']
    } else {
        Seq::<char>::empty()
    }) + break_indent(pretty, indent)
}

/// `[` body `]`, or `[]` when there are no elements.
pub open spec fn bracketed(open: char, close: char, body: Seq<char>, count: nat, pretty: bool, indent: nat) -> Seq<char> {
    if count == 0 {
        seq![open, close]
    } else {
        seq![open] + body + break_indent(pretty, indent) + seq![close]
    }
}

/// The key under which a map key is written.
pub open spec fn map_key_text(k: KeyView) -> Seq<char> {
    match k {
        KeyView::Sym(s) => s,
        KeyView::Int(n) => int_text(n as int),
        KeyView::Str(s) => s,
        KeyView::Char(c) => seq![c],
        KeyView::Bool(b) => if b {
            seq!['t', 'r', 'u', 'e']
        } else {
            seq!['f', 'a', 'l', 's', 'e']
        },
        KeyView::Blank => seq!['n', 'u', 'l', 'l'],
    }
}

/// `"key":` followed by the value text (with a space in pretty mode).
pub open spec fn member_text(key: Seq<char>, val: Seq<char>, pretty: bool) -> Seq<char> {
    json_quoted(key) + seq![':'] + (if pretty {
        seq![' ']
    } else {
        Seq::<char>::empty()
    }) + val
}

pub open spec fn null_text() -> Seq<char> {
    seq!['n', 'u', 'l', 'l']
}

/// A finite float is written as spelled (a `{:?}` spelling of a finite
/// float always holds a `.` or an exponent).
pub open spec fn float_json(f: FloatView) -> Result<Seq<char>, EncodeFault> {
    if f.finite {
        Ok(f.text)
    } else {
        Err(EncodeFault::NonFinite(f.text))
    }
}

/// A decimal's text, with `.0` added when it has neither a point nor an
/// exponent.
pub open spec fn decimal_json(mantissa: i128, scale: u32) -> Seq<char> {
    let t = decimal_display(mantissa, scale);
    if !t.contains('.') && !t.contains('e') {
        t + seq!['.', '0']
    } else {
        t
    }
}

/// `$D.CC`, with a leading `-` when negative and `:CUR` unless the
/// currency is `USD`.
pub open spec fn money_text(cents: i64, currency: Seq<char>) -> Seq<char> {
    let abs = if cents < 0 {
        -cents
    } else {
        cents as int
    };
    (if cents < 0 {
        seq!['-']
    } else {
        Seq::<char>::empty()
    }) + seq!['$'] + nat_text((abs / 100) as nat) + seq!['.'] + zero_pad(
        nat_text((abs % 100) as nat),
        2,
    ) + (if currency != seq!['U', 'S', 'D'] {
        seq![':'] + currency
    } else {
        Seq::<char>::empty()
    })
}

/// The year as `%Y` writes it: four digits, with a sign outside 0..=9999.
pub open spec fn year_text(y: i32) -> Seq<char> {
    if y < 0 {
        seq!['-'] + zero_pad(nat_text((-y) as nat), 4)
    } else if y > 9999 {
        seq!['+'] + nat_text(y as nat)
    } else {
        zero_pad(nat_text(y as nat), 4)
    }
}

pub open spec fn two_digits(n: nat) -> Seq<char> {
    zero_pad(nat_text(n), 2)
}

/// ISO 8601: `YYYY-MM-DD`, then `THH:MM:SS` when there is a time, then `Z`
/// or `+HH:MM`/`-HH:MM` when there is a zone.
pub open spec fn date_text(d: DateValue) -> Seq<char> {
    year_text(d.year) + seq!['-'] + two_digits(d.month as nat) + seq!['-'] + two_digits(
        d.day as nat,
    ) + (match d.time {
        Some((h, m, s)) => seq!['T'] + two_digits(h as nat) + seq![':'] + two_digits(m as nat)
            + seq![':'] + two_digits(s as nat),
        None => Seq::empty(),
    }) + zone_text(d.zone)
}

/// The JSON text of `v` at nesting `indent` (in spaces), or why there is
/// none. `width` is the indentation step in pretty mode.
pub open spec fn json_value(v: ValueView, indent: nat, pretty: bool, width: nat) -> Result<
    Seq<char>,
    EncodeFault,
>
    decreases v,
{
    match v {
        ValueView::NoneVal => Ok(null_text()),
        ValueView::Unset => Ok(null_text()),
        ValueView::Logic(b) => Ok(
            if b {
                seq!['t', 'r', 'u', 'e']
            } else {
                seq!['f', 'a', 'l', 's', 'e']
            },
        ),
        ValueView::Integer(n) => Ok(int_text(n as int)),
        ValueView::Float(f) => float_json(f),
        ValueView::Decimal { mantissa, scale } => Ok(decimal_json(mantissa, scale)),
        ValueView::Percent(f) => float_json(f),
        ValueView::Str(s) => Ok(json_quoted(s)),
        ValueView::Char(c) => Ok(json_quoted(seq![c])),
        ValueView::Block(items) => match json_elems(items, indent, pretty, width) {
            Ok(body) => Ok(bracketed('[', ']', body, items.len(), pretty, indent)),
            Err(e) => Err(e),
        },
        ValueView::Paren(items) => match json_elems(items, indent, pretty, width) {
            Ok(body) => Ok(bracketed('[', ']', body, items.len(), pretty, indent)),
            Err(e) => Err(e),
        },
        ValueView::MapVal(entries) => match json_keyed(entries, indent, pretty, width) {
            Ok(body) => Ok(bracketed('{', '}', body, entries.len(), pretty, indent)),
            Err(e) => Err(e),
        },
        ValueView::Hash(entries) => match json_keyed(entries, indent, pretty, width) {
            Ok(body) => Ok(bracketed('{', '}', body, entries.len(), pretty, indent)),
            Err(e) => Err(e),
        },
        ValueView::Object(fields) => match json_fields(fields, indent, pretty, width) {
            Ok((body, count)) => Ok(bracketed('{', '}', body, count, pretty, indent)),
            Err(e) => Err(e),
        },
        ValueView::Tuple(bytes) => Ok(
            bracketed('[', ']', json_bytes(bytes, indent, pretty, width), bytes.len(), pretty, indent),
        ),
        ValueView::Pair(x, y) => match json_value(*x, indent + width, pretty, width) {
            Err(e) => Err(e),
            Ok(tx) => match json_value(*y, indent + width, pretty, width) {
                Err(e) => Err(e),
                Ok(ty) => Ok(
                    bracketed(
                        '[',
                        ']',
                        elem_prefix(0, pretty, indent + width) + tx + elem_prefix(
                            1,
                            pretty,
                            indent + width,
                        ) + ty,
                        2,
                        pretty,
                        indent,
                    ),
                ),
            },
        },
        ValueView::Tag(s) => Ok(json_quoted(seq!['<'] + s + seq!['>'])),
        ValueView::Issue(s) => Ok(json_quoted(s)),
        ValueView::Email(s) => Ok(json_quoted(s)),
        ValueView::File(s) => Ok(json_quoted(s)),
        ValueView::Url(s) => Ok(json_quoted(s)),
        ValueView::Money { cents, currency } => Ok(json_quoted(money_text(cents, currency))),
        ValueView::Date(d) => Ok(json_quoted(date_text(d))),
        ValueView::Duration(f) => float_json(f),
        ValueView::Binary(b) => Ok(json_quoted(base64_standard_encode(b))),
        ValueView::Word(s) => Ok(json_quoted(s)),
        ValueView::SetWord(s) => Ok(json_quoted(s)),
        ValueView::GetWord(s) => Ok(json_quoted(s)),
        ValueView::LitWord(s) => Ok(json_quoted(s)),
        ValueView::Refinement(s) => Ok(json_quoted(seq!['/'] + s)),
        ValueView::Path(s) => Ok(json_quoted(s)),
        ValueView::GetPath(s) => Ok(json_quoted(s)),
        ValueView::LitPath(s) => Ok(json_quoted(s)),
        ValueView::SetPath(s) => Ok(json_quoted(s)),
        ValueView::Bitset(_) => Err(EncodeFault::Unencodable(Unencodable::Bitset)),
        ValueView::Error(_) => Err(EncodeFault::Unencodable(Unencodable::Error)),
        ValueView::Other(o) => Err(EncodeFault::Unencodable(Unencodable::Kind(o))),
    }
}

/// The elements of an array, each with its separator and indentation.
pub open spec fn json_elems(items: Seq<ValueView>, indent: nat, pretty: bool, width: nat) -> Result<
    Seq<char>,
    EncodeFault,
>
    decreases items,
{
    if items.len() == 0 {
        Ok(Seq::empty())
    } else {
        match json_elems(items.drop_last(), indent, pretty, width) {
            Err(e) => Err(e),
            Ok(prev) => match json_value(items.last(), indent + width, pretty, width) {
                Err(e) => Err(e),
                Ok(t) => Ok(prev + elem_prefix((items.len() - 1) as nat, pretty, indent + width) + t),
            },
        }
    }
}

/// The members of a map or hash.
pub open spec fn json_keyed(
    entries: Seq<(KeyView, ValueView)>,
    indent: nat,
    pretty: bool,
    width: nat,
) -> Result<Seq<char>, EncodeFault>
    decreases entries,
{
    if entries.len() == 0 {
        Ok(Seq::empty())
    } else {
        match json_keyed(entries.drop_last(), indent, pretty, width) {
            Err(e) => Err(e),
            Ok(prev) => match json_value(entries.last().1, indent + width, pretty, width) {
                Err(e) => Err(e),
                Ok(t) => Ok(prev + elem_prefix((entries.len() - 1) as nat, pretty, indent + width)
                    + member_text(map_key_text(entries.last().0), t, pretty)),
            },
        }
    }
}

pub open spec fn self_word() -> Seq<char> {
    seq!['s', 'e', 'l', 'f']
}

/// The members of an object (every word but `self`), and how many there are.
pub open spec fn json_fields(
    fields: Seq<(Seq<char>, ValueView)>,
    indent: nat,
    pretty: bool,
    width: nat,
) -> Result<(Seq<char>, nat), EncodeFault>
    decreases fields,
{
    if fields.len() == 0 {
        Ok((Seq::empty(), 0))
    } else {
        match json_fields(fields.drop_last(), indent, pretty, width) {
            Err(e) => Err(e),
            Ok((prev, count)) => if fields.last().0 == self_word() {
                Ok((prev, count))
            } else {
                match json_value(fields.last().1, indent + width, pretty, width) {
                    Err(e) => Err(e),
                    Ok(t) => Ok(
                        (
                            prev + elem_prefix(count, pretty, indent + width) + member_text(
                                fields.last().0,
                                t,
                                pretty,
                            ),
                            count + 1,
                        ),
                    ),
                }
            },
        }
    }
}

/// The elements of a tuple: its bytes as integers.
pub open spec fn json_bytes(bytes: Seq<u8>, indent: nat, pretty: bool, width: nat) -> Seq<char>
    decreases bytes.len(),
{
    if bytes.len() == 0 {
        Seq::empty()
    } else {
        json_bytes(bytes.drop_last(), indent, pretty, width) + elem_prefix(
            (bytes.len() - 1) as nat,
            pretty,
            indent + width,
        ) + nat_text(bytes.last() as nat)
    }
}


// ---------------------------------------------------------------------------
// Lemmas on the text functions
// ---------------------------------------------------------------------------

proof fn lemma_contains_push(s: Seq<char>, x: char, c: char)
    ensures
        s.push(x).contains(c) <==> (s.contains(c) || x == c),
{
    if s.contains(c) {
        let k = choose|k: int| 0 <= k < s.len() && s[k] == c;
        assert(s.push(x)[k] == c);
    }
    if x == c {
        assert(s.push(x)[s.len() as int] == c);
    }
    if s.push(x).contains(c) {
        let k = choose|k: int| 0 <= k < s.push(x).len() && s.push(x)[k] == c;
        if k < s.len() {
            assert(s[k] == c);
        }
    }
}

proof fn lemma_escape_step(s: Seq<char>, i: int)
    requires
        0 <= i < s.len(),
    ensures
        json_escape(s.take(i + 1)) == json_escape(s.take(i)) + json_escape_char(s[i]),
{
    assert(s.take(i + 1).drop_last() == s.take(i));
}

proof fn lemma_elems_err(items: Seq<ValueView>, k: int, indent: nat, pretty: bool, width: nat)
    requires
        0 <= k <= items.len(),
        json_elems(items.take(k), indent, pretty, width) is Err,
    ensures
        json_elems(items, indent, pretty, width) == json_elems(items.take(k), indent, pretty, width),
    decreases items.len(),
{
    if k == items.len() {
        assert(items.take(k) == items);
    } else {
        assert(items.drop_last().take(k) == items.take(k));
        lemma_elems_err(items.drop_last(), k, indent, pretty, width);
    }
}

proof fn lemma_keyed_err(
    entries: Seq<(KeyView, ValueView)>,
    k: int,
    indent: nat,
    pretty: bool,
    width: nat,
)
    requires
        0 <= k <= entries.len(),
        json_keyed(entries.take(k), indent, pretty, width) is Err,
    ensures
        json_keyed(entries, indent, pretty, width) == json_keyed(entries.take(k), indent, pretty, width),
    decreases entries.len(),
{
    if k == entries.len() {
        assert(entries.take(k) == entries);
    } else {
        assert(entries.drop_last().take(k) == entries.take(k));
        lemma_keyed_err(entries.drop_last(), k, indent, pretty, width);
    }
}

proof fn lemma_fields_err(
    fields: Seq<(Seq<char>, ValueView)>,
    k: int,
    indent: nat,
    pretty: bool,
    width: nat,
)
    requires
        0 <= k <= fields.len(),
        json_fields(fields.take(k), indent, pretty, width) is Err,
    ensures
        json_fields(fields, indent, pretty, width) == json_fields(fields.take(k), indent, pretty, width),
    decreases fields.len(),
{
    if k == fields.len() {
        assert(fields.take(k) == fields);
    } else {
        assert(fields.drop_last().take(k) == fields.take(k));
        lemma_fields_err(fields.drop_last(), k, indent, pretty, width);
    }
}

// ---------------------------------------------------------------------------
// The encoder
// ---------------------------------------------------------------------------

fn hex_lower_char(d: u32) -> (c: char)
    requires
        d < 16,
    ensures
        c == hex_lower(d as nat),
{
    if d < 10 {
        ((d + 48) as u8) as char
    } else {
        ((d + 87) as u8) as char
    }
}

/// Appends the JSON spelling of `c` inside a string literal.
fn push_escaped(out: &mut String, c: char)
    ensures
        final(out)@ == old(out)@ + json_escape_char(c),
{
    if c == '"' {
        push_char(out, '\\');
        push_char(out, '"');
    } else if c == '\\' {
        push_char(out, '\\');
        push_char(out, '\\');
    } else if c == '\n' {
        push_char(out, '\\');
        push_char(out, 'n');
    } else if c == '\t' {
        push_char(out, '\\');
        push_char(out, 't');
    } else if c == '\r' {
        push_char(out, '\\');
        push_char(out, 'r');
    } else if c == '\u{08}' {
        push_char(out, '\\');
        push_char(out, 'b');
    } else if c == '\u{0C}' {
        push_char(out, '\\');
        push_char(out, 'f');
    } else if (c as u32) < 0x20 {
        let cp = c as u32;
        push_char(out, '\\');
        push_char(out, 'u');
        push_char(out, '0');
        push_char(out, '0');
        push_char(out, hex_lower_char(cp / 16));
        push_char(out, hex_lower_char(cp % 16));
    } else {
        push_char(out, c);
    }
    assert(final(out)@ =~= old(out)@ + json_escape_char(c));
}

/// JSON-escapes `s` and appends it to `out` wrapped in `"`: the standard
/// escapes, `\u00XX` for the other control characters below 0x20, and every
/// other character as is.
pub fn encode_string(s: &str, out: &mut String)
    ensures
        final(out)@ == old(out)@ + json_quoted(s@),
{
    push_char(out, '"');
    let ghost start = out@;
    for c in it: s.chars()
        invariant
            it.seq() == s@,
            out@ == start + json_escape(s@.take(it.index() as int)),
    {
        proof {
            lemma_escape_step(s@, it.index() as int);
        }
        push_escaped(out, c);
    }
    assert(s@.take(s@.len() as int) == s@);
    push_char(out, '"');
    assert(final(out)@ =~= old(out)@ + json_quoted(s@));
}

/// Appends `null`.
fn push_null(out: &mut String)
    ensures
        final(out)@ == old(out)@ + null_text(),
{
    push_char(out, 'n');
    push_char(out, 'u');
    push_char(out, 'l');
    push_char(out, 'l');
    assert(final(out)@ =~= old(out)@ + null_text());
}

fn push_bool(out: &mut String, b: bool)
    ensures
        final(out)@ == old(out)@ + (if b {
            seq!['t', 'r', 'u', 'e']
        } else {
            seq!['f', 'a', 'l', 's', 'e']
        }),
{
    if b {
        push_char(out, 't');
        push_char(out, 'r');
        push_char(out, 'u');
        push_char(out, 'e');
    } else {
        push_char(out, 'f');
        push_char(out, 'a');
        push_char(out, 'l');
        push_char(out, 's');
        push_char(out, 'e');
    }
    assert(final(out)@ =~= old(out)@ + (if b {
        seq!['t', 'r', 'u', 'e']
    } else {
        seq!['f', 'a', 'l', 's', 'e']
    }));
}

/// Appends the separator and pretty-mode indentation before the `k`-th
/// element.
fn push_elem_prefix(out: &mut String, k: usize, pretty: bool, indent: &String)
    requires
        indent@ == spaces(indent@.len()),
    ensures
        final(out)@ == old(out)@ + elem_prefix(k as nat, pretty, indent@.len()),
{
    if k > 0 {
        push_char(out, ',');
    }
    if pretty {
        push_char(out, '\n');
        push_str(out, indent.as_str());
    }
    assert(final(out)@ =~= old(out)@ + elem_prefix(k as nat, pretty, indent@.len()));
}

/// Appends the closing bracket of a non-empty array or object.
fn push_close(out: &mut String, close: char, pretty: bool, indent: &String)
    requires
        indent@ == spaces(indent@.len()),
    ensures
        final(out)@ == old(out)@ + break_indent(pretty, indent@.len()) + seq![close],
{
    if pretty {
        push_char(out, '\n');
        push_str(out, indent.as_str());
    }
    push_char(out, close);
    assert(final(out)@ =~= old(out)@ + break_indent(pretty, indent@.len()) + seq![close]);
}

/// `indent` deepened by one level.
fn deeper(indent: &String, width: usize) -> (r: String)
    requires
        indent@ == spaces(indent@.len()),
    ensures
        r@ == spaces((indent@.len() + width) as nat),
        r@.len() == indent@.len() + width,
{
    let mut r = indent.clone();
    push_indent(&mut r, 1, width);
    assert(r@ =~= spaces((indent@.len() + width) as nat));
    r
}

fn push_quoted(out: &mut String, s: &String)
    ensures
        final(out)@ == old(out)@ + json_quoted(s@),
{
    encode_string(s.as_str(), out);
}

/// Appends the text of a float, or reports a non-finite one.
fn encode_float(f: &FloatText, out: &mut String) -> (r: Result<(), EncodeError>)
    ensures
        match float_json(float_view(*f)) {
            Ok(t) => r is Ok && final(out)@ == old(out)@ + t,
            Err(e) => r matches Err(x) && x@ == e,
        },
{
    if !f.finite {
        return Err(EncodeError::NonFinite(f.text.clone()));
    }
    push_str(out, f.text.as_str());
    Ok(())
}

fn push_money(out: &mut String, cents: i64, currency: &String)
    ensures
        final(out)@ == old(out)@ + money_text(cents, currency@),
{
    let ghost start = out@;
    let abs: u64 = if cents < 0 {
        ((-(cents + 1)) as u64) + 1
    } else {
        cents as u64
    };
    if cents < 0 {
        push_char(out, '-');
    }
    push_char(out, '$');
    push_nat(out, abs / 100);
    push_char(out, '.');
    push_padded(out, abs % 100, 2);
    let usd = String::from_str("USD");
    proof {
        reveal_strlit("USD");
    }
    if !(*currency == usd) {
        push_char(out, ':');
        push_str(out, currency.as_str());
    }
    assert(usd@ =~= seq!['U', 'S', 'D']);
    assert(final(out)@ =~= start + money_text(cents, currency@));
}

fn push_year(out: &mut String, y: i32)
    ensures
        final(out)@ == old(out)@ + year_text(y),
{
    if y < 0 {
        push_char(out, '-');
        let m: u64 = ((-(y as i64)) as u64);
        push_padded(out, m, 4);
    } else if y > 9999 {
        push_char(out, '+');
        push_nat(out, y as u64);
    } else {
        push_padded(out, y as u64, 4);
    }
    assert(final(out)@ =~= old(out)@ + year_text(y));
}

fn push_date(out: &mut String, d: &DateValue)
    ensures
        final(out)@ == old(out)@ + date_text(*d),
{
    let ghost start = out@;
    push_year(out, d.year);
    push_char(out, '-');
    push_padded(out, d.month as u64, 2);
    push_char(out, '-');
    push_padded(out, d.day as u64, 2);
    let ghost mid = out@;
    push_time(out, d.time);
    push_zone(out, d.zone);
    assert(final(out)@ =~= start + date_text(*d));
}

fn push_time(out: &mut String, time: Option<(u8, u8, u8)>)
    ensures
        final(out)@ == old(out)@ + (match time {
            Some((h, m, s)) => seq!['T'] + two_digits(h as nat) + seq![':'] + two_digits(m as nat)
                + seq![':'] + two_digits(s as nat),
            None => Seq::<char>::empty(),
        }),
{
    match time {
        Some((h, m, s)) => {
            push_char(out, 'T');
            push_padded(out, h as u64, 2);
            push_char(out, ':');
            push_padded(out, m as u64, 2);
            push_char(out, ':');
            push_padded(out, s as u64, 2);
        },
        None => {},
    }
    assert(final(out)@ =~= old(out)@ + (match time {
        Some((h, m, s)) => seq!['T'] + two_digits(h as nat) + seq![':'] + two_digits(m as nat)
            + seq![':'] + two_digits(s as nat),
        None => Seq::<char>::empty(),
    }));
}

pub open spec fn zone_text(zone: Option<i32>) -> Seq<char> {
    match zone {
        Some(z) => if z == 0 {
            seq!['Z']
        } else {
            let m = if z < 0 {
                -z
            } else {
                z as int
            };
            seq![
                if z < 0 {
                    '-'
                } else {
                    '+'
                },
            ] + two_digits((m / 60) as nat) + seq![':'] + two_digits((m % 60) as nat)
        },
        None => Seq::empty(),
    }
}

fn push_zone(out: &mut String, zone: Option<i32>)
    ensures
        final(out)@ == old(out)@ + zone_text(zone),
{
    match zone {
        Some(z) => {
            if z == 0 {
                push_char(out, 'Z');
            } else {
                let m: u64 = if z < 0 {
                    (-(z as i64)) as u64
                } else {
                    z as u64
                };
                push_char(
                    out,
                    if z < 0 {
                        '-'
                    } else {
                        '+'
                    },
                );
                push_padded(out, m / 60, 2);
                push_char(out, ':');
                push_padded(out, m % 60, 2);
            }
        },
        None => {},
    }
    assert(final(out)@ =~= old(out)@ + zone_text(zone));
}

/// Appends the JSON text of `v` (at nesting `indent`), or reports why it
/// has none.
#[verifier::rlimit(40)]
fn encode(v: &Value, out: &mut String, indent: &String, pretty: bool, width: usize) -> (r: Result<
    (),
    EncodeError,
>)
    requires
        value_wf(v@),
        indent@ == spaces(indent@.len()),
    ensures
        match json_value(v@, indent@.len(), pretty, width as nat) {
            Ok(t) => r is Ok && final(out)@ == old(out)@ + t,
            Err(e) => r matches Err(x) && x@ == e,
        },
    decreases v,
{
    match v {
        Value::NoneVal => {
            push_null(out);
            Ok(())
        },
        Value::Unset => {
            push_null(out);
            Ok(())
        },
        Value::Logic(b) => {
            push_bool(out, *b);
            Ok(())
        },
        Value::Integer(n) => {
            push_int(out, *n);
            Ok(())
        },
        Value::Float(f) => encode_float(f, out),
        Value::Decimal { mantissa, scale } => {
            let t = decimal_to_string(*mantissa, *scale);
            let ts = t.as_str();
            let mut has_point = false;
            for c in it: ts.chars()
                invariant
                    it.seq() == ts@,
                    has_point == (ts@.take(it.index() as int).contains('.') || ts@.take(
                        it.index() as int,
                    ).contains('e')),
            {
                proof {
                    let i = it.index() as int;
                    assert(ts@.take(i + 1) == ts@.take(i).push(ts@[i]));
                    lemma_contains_push(ts@.take(i), ts@[i], '.');
                    lemma_contains_push(ts@.take(i), ts@[i], 'e');
                }
                if c == '.' || c == 'e' {
                    has_point = true;
                }
            }
            assert(ts@.take(ts@.len() as int) == ts@);
            push_str(out, ts);
            if !has_point {
                push_char(out, '.');
                push_char(out, '0');
            }
            assert(final(out)@ =~= old(out)@ + decimal_json(*mantissa, *scale));
            Ok(())
        },
        Value::Percent(f) => encode_float(f, out),
        Value::Str(s) => {
            push_quoted(out, s);
            Ok(())
        },
        Value::Char(c) => {
            let mut tmp = String::new();
            push_char(&mut tmp, *c);
            push_quoted(out, &tmp);
            assert(tmp@ =~= seq![*c]);
            Ok(())
        },
        Value::Block(items) => encode_array(items, out, indent, pretty, width),
        Value::Paren(items) => encode_array(items, out, indent, pretty, width),
        Value::MapVal(entries) => encode_keyed(entries, out, indent, pretty, width),
        Value::Hash(entries) => encode_keyed(entries, out, indent, pretty, width),
        Value::Object(fields) => encode_fields(fields, out, indent, pretty, width),
        Value::Tuple(bytes) => {
            encode_bytes(bytes, out, indent, pretty, width);
            Ok(())
        },
        Value::Pair(x, y) => {
            let ghost start = out@;
            let child = deeper(indent, width);
            push_char(out, '[');
            push_elem_prefix(out, 0, pretty, &child);
            let rx = encode(x, out, &child, pretty, width);
            if rx.is_err() {
                return rx;
            }
            push_elem_prefix(out, 1, pretty, &child);
            let ry = encode(y, out, &child, pretty, width);
            if ry.is_err() {
                return ry;
            }
            push_close(out, ']', pretty, indent);
            assert(final(out)@ =~= start + json_value(v@, indent@.len(), pretty, width as nat)->Ok_0);
            Ok(())
        },
        Value::Tag(s) => {
            let mut tmp = String::new();
            push_char(&mut tmp, '<');
            push_str(&mut tmp, s.as_str());
            push_char(&mut tmp, '>');
            push_quoted(out, &tmp);
            assert(tmp@ =~= seq!['<'] + s@ + seq!['>']);
            Ok(())
        },
        Value::Issue(s) => {
            push_quoted(out, s);
            Ok(())
        },
        Value::Email(s) => {
            push_quoted(out, s);
            Ok(())
        },
        Value::File(s) => {
            push_quoted(out, s);
            Ok(())
        },
        Value::Url(s) => {
            push_quoted(out, s);
            Ok(())
        },
        Value::Money { cents, currency } => {
            let mut tmp = String::new();
            push_money(&mut tmp, *cents, currency);
            push_quoted(out, &tmp);
            assert(tmp@ =~= money_text(*cents, currency@));
            Ok(())
        },
        Value::Date(d) => {
            let mut tmp = String::new();
            push_date(&mut tmp, d);
            push_quoted(out, &tmp);
            assert(tmp@ =~= date_text(*d));
            Ok(())
        },
        Value::Duration(f) => encode_float(f, out),
        Value::Binary(b) => {
            let t = base64_encode(b.as_slice());
            push_quoted(out, &t);
            Ok(())
        },
        Value::Word(s) => {
            push_quoted(out, s);
            Ok(())
        },
        Value::SetWord(s) => {
            push_quoted(out, s);
            Ok(())
        },
        Value::GetWord(s) => {
            push_quoted(out, s);
            Ok(())
        },
        Value::LitWord(s) => {
            push_quoted(out, s);
            Ok(())
        },
        Value::Refinement(s) => {
            let mut tmp = String::new();
            push_char(&mut tmp, '/');
            push_str(&mut tmp, s.as_str());
            push_quoted(out, &tmp);
            assert(tmp@ =~= seq!['/'] + s@);
            Ok(())
        },
        Value::Path(s) => {
            push_quoted(out, s);
            Ok(())
        },
        Value::GetPath(s) => {
            push_quoted(out, s);
            Ok(())
        },
        Value::LitPath(s) => {
            push_quoted(out, s);
            Ok(())
        },
        Value::SetPath(s) => {
            push_quoted(out, s);
            Ok(())
        },
        Value::Bitset(_) => Err(EncodeError::Unencodable(Unencodable::Bitset)),
        Value::Error(_) => Err(EncodeError::Unencodable(Unencodable::Error)),
        Value::Other(o) => Err(EncodeError::Unencodable(Unencodable::Kind(*o))),
    }
}

fn encode_array(items: &Vec<Value>, out: &mut String, indent: &String, pretty: bool, width: usize) -> (r:
    Result<(), EncodeError>)
    requires
        items_wf(view_items(items@)),
        indent@ == spaces(indent@.len()),
    ensures
        match json_elems(view_items(items@), indent@.len(), pretty, width as nat) {
            Ok(body) => r is Ok && final(out)@ == old(out)@ + bracketed(
                '[',
                ']',
                body,
                items@.len(),
                pretty,
                indent@.len(),
            ),
            Err(e) => r matches Err(x) && x@ == e,
        },
    decreases items,
{
    let ghost vs = view_items(items@);
    proof {
        lemma_view_items(items@);
    }
    let ghost start = out@;
    if items.len() == 0 {
        push_char(out, '[');
        push_char(out, ']');
        assert(final(out)@ =~= start + seq!['[', ']']);
        return Ok(());
    }
    let child = deeper(indent, width);
    push_char(out, '[');
    let mut i: usize = 0;
    while i < items.len()
        invariant
            i <= items.len(),
            vs == view_items(items@),
            vs.len() == items@.len(),
            forall|j: int| 0 <= j < items@.len() ==> #[trigger] vs[j] == view_value(items@[j]),
            items_wf(vs),
            indent@ == spaces(indent@.len()),
            child@ == spaces((indent@.len() + width) as nat),
            child@.len() == indent@.len() + width,
            json_elems(vs.take(i as int), indent@.len(), pretty, width as nat) is Ok,
            out@ == start.push('[') + json_elems(vs.take(i as int), indent@.len(), pretty, width as nat)->Ok_0,
        decreases items.len() - i,
    {
        proof {
            assert(vs.take(i + 1).drop_last() == vs.take(i as int));
            assert(vs.take(i + 1).last() == vs[i as int]);
            lemma_items_wf(vs, i as int);
        }
        push_elem_prefix(out, i, pretty, &child);
        let r = encode(&items[i], out, &child, pretty, width);
        if r.is_err() {
            proof {
                lemma_elems_err(vs, i + 1, indent@.len(), pretty, width as nat);
            }
            return r;
        }
        i = i + 1;
    }
    assert(vs.take(i as int) == vs);
    push_close(out, ']', pretty, indent);
    assert(final(out)@ =~= start + bracketed(
        '[',
        ']',
        json_elems(vs, indent@.len(), pretty, width as nat)->Ok_0,
        items@.len(),
        pretty,
        indent@.len(),
    ));
    Ok(())
}


proof fn lemma_items_wf(items: Seq<ValueView>, i: int)
    requires
        items_wf(items),
        0 <= i < items.len(),
    ensures
        value_wf(items[i]),
    decreases items.len(),
{
    if i < items.len() - 1 {
        lemma_items_wf(items.drop_last(), i);
    }
}

proof fn lemma_keyed_wf(entries: Seq<(KeyView, ValueView)>, i: int)
    requires
        keyed_wf(entries),
        0 <= i < entries.len(),
    ensures
        value_wf(entries[i].1),
    decreases entries.len(),
{
    if i < entries.len() - 1 {
        lemma_keyed_wf(entries.drop_last(), i);
    }
}

proof fn lemma_fields_wf(fields: Seq<(Seq<char>, ValueView)>, i: int)
    requires
        fields_wf(fields),
        0 <= i < fields.len(),
    ensures
        value_wf(fields[i].1),
    decreases fields.len(),
{
    if i < fields.len() - 1 {
        lemma_fields_wf(fields.drop_last(), i);
    }
}

/// Appends the text under which a map key is written, quoted.
fn push_map_key(out: &mut String, k: &MapKey)
    ensures
        final(out)@ == old(out)@ + json_quoted(map_key_text(key_view(*k))),
{
    let mut tmp = String::new();
    match k {
        MapKey::Sym(s) => push_str(&mut tmp, s.as_str()),
        MapKey::Int(n) => push_int(&mut tmp, *n),
        MapKey::Str(s) => push_str(&mut tmp, s.as_str()),
        MapKey::Char(c) => push_char(&mut tmp, *c),
        MapKey::Bool(b) => push_bool(&mut tmp, *b),
        MapKey::Blank => push_null(&mut tmp),
    }
    assert(tmp@ =~= map_key_text(key_view(*k)));
    push_quoted(out, &tmp);
}

fn push_colon(out: &mut String, pretty: bool)
    ensures
        final(out)@ == old(out)@ + seq![':'] + (if pretty {
            seq![' ']
        } else {
            Seq::<char>::empty()
        }),
{
    push_char(out, ':');
    if pretty {
        push_char(out, ' ');
    }
    assert(final(out)@ =~= old(out)@ + seq![':'] + (if pretty {
        seq![' ']
    } else {
        Seq::<char>::empty()
    }));
}

fn encode_keyed(
    entries: &Vec<(MapKey, Value)>,
    out: &mut String,
    indent: &String,
    pretty: bool,
    width: usize,
) -> (r: Result<(), EncodeError>)
    requires
        keyed_wf(view_keyed(entries@)),
        indent@ == spaces(indent@.len()),
    ensures
        match json_keyed(view_keyed(entries@), indent@.len(), pretty, width as nat) {
            Ok(body) => r is Ok && final(out)@ == old(out)@ + bracketed(
                '{',
                '}',
                body,
                entries@.len(),
                pretty,
                indent@.len(),
            ),
            Err(e) => r matches Err(x) && x@ == e,
        },
    decreases entries,
{
    let ghost vs = view_keyed(entries@);
    proof {
        lemma_view_keyed(entries@);
    }
    let ghost start = out@;
    if entries.len() == 0 {
        push_char(out, '{');
        push_char(out, '}');
        assert(final(out)@ =~= start + seq!['{', '}']);
        return Ok(());
    }
    let child = deeper(indent, width);
    push_char(out, '{');
    let mut i: usize = 0;
    while i < entries.len()
        invariant
            i <= entries.len(),
            vs == view_keyed(entries@),
            vs.len() == entries@.len(),
            forall|j: int|
                0 <= j < entries@.len() ==> #[trigger] vs[j] == (
                    key_view(entries@[j].0),
                    view_value(entries@[j].1),
                ),
            keyed_wf(vs),
            indent@ == spaces(indent@.len()),
            child@ == spaces((indent@.len() + width) as nat),
            child@.len() == indent@.len() + width,
            json_keyed(vs.take(i as int), indent@.len(), pretty, width as nat) is Ok,
            out@ == start.push('{') + json_keyed(vs.take(i as int), indent@.len(), pretty, width as nat)->Ok_0,
        decreases entries.len() - i,
    {
        proof {
            assert(vs.take(i + 1).drop_last() == vs.take(i as int));
            assert(vs.take(i + 1).last() == vs[i as int]);
            lemma_keyed_wf(vs, i as int);
        }
        let ghost before = out@;
        push_elem_prefix(out, i, pretty, &child);
        push_map_key(out, &entries[i].0);
        push_colon(out, pretty);
        let ghost mid = out@;
        let r = encode(&entries[i].1, out, &child, pretty, width);
        if r.is_err() {
            proof {
                lemma_keyed_err(vs, i + 1, indent@.len(), pretty, width as nat);
            }
            return r;
        }
        proof {
            let t = json_value(vs[i as int].1, (indent@.len() + width) as nat, pretty, width as nat)->Ok_0;
            assert(out@ =~= before + elem_prefix(i as nat, pretty, (indent@.len() + width) as nat)
                + member_text(map_key_text(vs[i as int].0), t, pretty));
        }
        i = i + 1;
    }
    assert(vs.take(i as int) == vs);
    push_close(out, '}', pretty, indent);
    assert(final(out)@ =~= start + bracketed(
        '{',
        '}',
        json_keyed(vs, indent@.len(), pretty, width as nat)->Ok_0,
        entries@.len(),
        pretty,
        indent@.len(),
    ));
    Ok(())
}

fn encode_fields(
    fields: &Vec<(String, Value)>,
    out: &mut String,
    indent: &String,
    pretty: bool,
    width: usize,
) -> (r: Result<(), EncodeError>)
    requires
        fields_wf(view_fields(fields@)),
        indent@ == spaces(indent@.len()),
    ensures
        match json_fields(view_fields(fields@), indent@.len(), pretty, width as nat) {
            Ok((body, count)) => r is Ok && final(out)@ == old(out)@ + bracketed(
                '{',
                '}',
                body,
                count,
                pretty,
                indent@.len(),
            ),
            Err(e) => r matches Err(x) && x@ == e,
        },
    decreases fields,
{
    let ghost vs = view_fields(fields@);
    proof {
        lemma_view_fields(fields@);
        reveal_strlit("self");
    }
    let ghost start = out@;
    let child = deeper(indent, width);
    let self_word_s = String::from_str("self");
    let mut body = String::new();
    let mut count: usize = 0;
    let mut i: usize = 0;
    while i < fields.len()
        invariant
            i <= fields.len(),
            count <= i,
            vs == view_fields(fields@),
            vs.len() == fields@.len(),
            forall|j: int|
                0 <= j < fields@.len() ==> #[trigger] vs[j] == (
                    fields@[j].0@,
                    view_value(fields@[j].1),
                ),
            fields_wf(vs),
            indent@ == spaces(indent@.len()),
            child@ == spaces((indent@.len() + width) as nat),
            child@.len() == indent@.len() + width,
            self_word_s@ == self_word(),
            json_fields(vs.take(i as int), indent@.len(), pretty, width as nat) == Ok::<
                (Seq<char>, nat),
                EncodeFault,
            >((body@, count as nat)),
            out@ == start,
        decreases fields.len() - i,
    {
        proof {
            assert(vs.take(i + 1).drop_last() == vs.take(i as int));
            assert(vs.take(i + 1).last() == vs[i as int]);
            lemma_fields_wf(vs, i as int);
        }
        if fields[i].0 == self_word_s {
            i = i + 1;
        } else {
            let ghost before = body@;
            push_elem_prefix(&mut body, count, pretty, &child);
            push_quoted(&mut body, &fields[i].0);
            push_colon(&mut body, pretty);
            let r = encode(&fields[i].1, &mut body, &child, pretty, width);
            if r.is_err() {
                proof {
                    lemma_fields_err(vs, i + 1, indent@.len(), pretty, width as nat);
                }
                return r;
            }
            proof {
                let t = json_value(vs[i as int].1, (indent@.len() + width) as nat, pretty, width as nat)->Ok_0;
                assert(body@ =~= before + elem_prefix(count as nat, pretty, (indent@.len() + width) as nat)
                    + member_text(vs[i as int].0, t, pretty));
            }
            count = count + 1;
            i = i + 1;
        }
    }
    assert(vs.take(i as int) == vs);
    if count == 0 {
        push_char(out, '{');
        push_char(out, '}');
    } else {
        push_char(out, '{');
        push_str(out, body.as_str());
        push_close(out, '}', pretty, indent);
    }
    assert(final(out)@ =~= start + bracketed('{', '}', body@, count as nat, pretty, indent@.len()));
    Ok(())
}

fn encode_bytes(bytes: &Vec<u8>, out: &mut String, indent: &String, pretty: bool, width: usize)
    requires
        indent@ == spaces(indent@.len()),
    ensures
        final(out)@ == old(out)@ + bracketed(
            '[',
            ']',
            json_bytes(bytes@, indent@.len(), pretty, width as nat),
            bytes@.len(),
            pretty,
            indent@.len(),
        ),
{
    let ghost start = out@;
    if bytes.len() == 0 {
        push_char(out, '[');
        push_char(out, ']');
        assert(final(out)@ =~= start + seq!['[', ']']);
        return;
    }
    let child = deeper(indent, width);
    push_char(out, '[');
    let mut i: usize = 0;
    while i < bytes.len()
        invariant
            i <= bytes.len(),
            child@ == spaces((indent@.len() + width) as nat),
            child@.len() == indent@.len() + width,
            out@ == start.push('[') + json_bytes(bytes@.take(i as int), indent@.len(), pretty, width as nat),
        decreases bytes.len() - i,
    {
        proof {
            assert(bytes@.take(i + 1).drop_last() == bytes@.take(i as int));
        }
        push_elem_prefix(out, i, pretty, &child);
        push_nat(out, bytes[i] as u64);
        i = i + 1;
    }
    assert(bytes@.take(i as int) == bytes@);
    push_close(out, ']', pretty, indent);
    assert(final(out)@ =~= start + bracketed(
        '[',
        ']',
        json_bytes(bytes@, indent@.len(), pretty, width as nat),
        bytes@.len(),
        pretty,
        indent@.len(),
    ));
}


// ---------------------------------------------------------------------------
// `to-json`
// ---------------------------------------------------------------------------

/// The failures of the JSON natives.
#[derive(Debug, PartialEq)]
pub enum JsonError {
    /// Called with too few arguments.
    Arity { expected: usize, got: usize },
    /// `to-json` met a value with no JSON text.
    Encode(EncodeError),
    /// `load-json` was given something other than a `string!` or `binary!`
    /// (of this datatype).
    NotText(Kind),
    /// `load-json` met malformed JSON.
    Decode(LoadError),
    /// `to-json/pretty` was given a width that is not a non-negative
    /// integer.
    BadIndent,
}

/// The name of a datatype with no JSON text.
pub open spec fn unencodable_name(u: Unencodable) -> Seq<char> {
    match u {
        Unencodable::Kind(o) => kind_name(Kind::Other(o)),
        Unencodable::Bitset => "bitset!"@,
        Unencodable::Error => "error!"@,
    }
}

/// The message of a JSON native's error.
pub open spec fn json_error_message(e: JsonError) -> Seq<char> {
    match e {
        JsonError::Arity { .. } => "wrong number of arguments"@,
        JsonError::Encode(EncodeError::Unencodable(u)) => "to-json: cannot encode "@ + unencodable_name(u)
            + " (no JSON representation)"@,
        JsonError::Encode(EncodeError::NonFinite(f)) => "to-json: cannot encode "@ + f@
            + " (NaN/Inf has no JSON representation)"@,
        JsonError::NotText(k) => "expected string! or binary!, found "@ + kind_name(k),
        JsonError::Decode(d) => "load-json: "@ + decode_text(d.kind) + " at byte "@ + nat_text(d.pos as nat),
        JsonError::BadIndent => "to-json: /pretty width must be a non-negative integer"@,
    }
}

impl JsonError {
    /// The error's message.
    pub fn message(&self) -> (r: String)
        ensures
            r@ == json_error_message(*self),
    {
        let mut out = String::new();
        match self {
            JsonError::Arity { .. } => {
                out.append("wrong number of arguments");
            },
            JsonError::Encode(EncodeError::Unencodable(u)) => {
                out.append("to-json: cannot encode ");
                out.append(
                    match u {
                        Unencodable::Kind(o) => Kind::Other(*o).name(),
                        Unencodable::Bitset => "bitset!",
                        Unencodable::Error => "error!",
                    },
                );
                out.append(" (no JSON representation)");
            },
            JsonError::Encode(EncodeError::NonFinite(f)) => {
                out.append("to-json: cannot encode ");
                out.append(f.as_str());
                out.append(" (NaN/Inf has no JSON representation)");
            },
            JsonError::NotText(k) => {
                out.append("expected string! or binary!, found ");
                out.append(k.name());
            },
            JsonError::Decode(e) => {
                out.append("load-json: ");
                out.append(e.kind.text());
                out.append(" at byte ");
                push_nat(&mut out, e.pos as u64);
            },
            JsonError::BadIndent => {
                out.append("to-json: /pretty width must be a non-negative integer");
            },
        }
        out
    }
}

pub open spec fn pretty_word() -> Seq<char> {
    seq!['p', 'r', 'e', 't', 't', 'y']
}

/// The indentation width that `/pretty` asks for: its integer argument, or
/// 2 when it has none; `None` when the argument is not a non-negative
/// integer that fits a `usize`.
pub open spec fn pretty_width(refs: RefineArgs) -> Option<nat> {
    let args = refs.refs@[refs.first_index(pretty_word())].1@;
    if args.len() == 0 {
        Some(2)
    } else {
        match args[0]@ {
            ValueView::Integer(n) => if 0 <= n <= usize::MAX {
                Some(n as nat)
            } else {
                None
            },
            _ => None,
        }
    }
}

/// `to-json value` / `to-json/pretty value` / `to-json/pretty value n`: the
/// JSON text of `value`, compact, or indented by `n` spaces a level (2 when
/// `/pretty` has no argument).
pub fn to_json_native(args: &[Value], refs: &RefineArgs) -> (r: Result<Value, JsonError>)
    requires
        args@.len() > 0 ==> value_wf(args@[0]@),
    ensures
        args@.len() == 0 ==> r == Err::<Value, JsonError>(JsonError::Arity { expected: 1, got: 0 }),
        args@.len() > 0 && refs.spec_has(pretty_word()) && pretty_width(*refs) is None ==> r
            == Err::<Value, JsonError>(JsonError::BadIndent),
        args@.len() > 0 && !(refs.spec_has(pretty_word()) && pretty_width(*refs) is None) ==> {
            let pretty = refs.spec_has(pretty_word());
            let width = if pretty { pretty_width(*refs)->0 } else { 0 };
            match json_value(args@[0]@, 0, pretty, width) {
                Ok(t) => r matches Ok(Value::Str(s)) && s@ == t,
                Err(e) => r matches Err(JsonError::Encode(x)) && x@ == e,
            }
        },
{
    if args.len() == 0 {
        return Err(JsonError::Arity { expected: 1, got: 0 });
    }
    proof {
        reveal_strlit("pretty");
        assert("pretty"@ == pretty_word());
    }
    let (pretty, width): (bool, usize) = match refs.get("pretty") {
        None => (false, 0),
        Some(vals) => {
            if vals.len() == 0 {
                (true, 2)
            } else {
                match &vals[0] {
                    Value::Integer(n) => {
                        if *n >= 0 && (*n as u128) <= (usize::MAX as u128) {
                            (true, *n as usize)
                        } else {
                            return Err(JsonError::BadIndent);
                        }
                    },
                    _ => {
                        return Err(JsonError::BadIndent);
                    },
                }
            }
        },
    };
    let mut out = String::new();
    let indent = String::new();
    assert(indent@ =~= spaces(0));
    match encode(&args[0], &mut out, &indent, pretty, width) {
        Ok(()) => Ok(Value::Str(out)),
        Err(e) => Err(JsonError::Encode(e)),
    }
}

} // verus!
