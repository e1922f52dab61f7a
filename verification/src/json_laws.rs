//! What `load-json` gives back of what `to-json` wrote: plain JSON data
//! (none, logic values, integers, finite floats, strings, blocks of such
//! data, and maps with distinct string keys) comes back unchanged, compact
//! or pretty.
use vstd::prelude::*;
use vstd::utf8::*;

use crate::codec::lemma_encode_utf8_concat;
use crate::json::{
    bracketed, break_indent, elem_prefix, hex_lower, json_elems, json_escape, json_escape_char,
    json_keyed, json_quoted, json_value, map_key_text, member_text, null_text,
};
use crate::json_decode::{
    ascii_chars, digit_byte, digits_value, escape_char, false_bytes, float_digits_ok, float_lexeme,
    hex_value, lemma_skip_ws_ge, lexeme_finite, null_bytes, number_end, parse_i64_text, skip_digits, skip_ws, spec_array, spec_elems, spec_hex4,
    spec_literal, spec_load, spec_members, spec_number, spec_object, spec_string,
    spec_string_body, spec_unicode_escape, spec_utf8_len, spec_value, true_bytes, ws_byte,
    LoadFault, MAX_JSON_DEPTH,
};
use crate::map::{key_index, map_set};
use crate::text::{digit_char, int_text, nat_text, spaces, zero_pad};
use crate::value::{DateValue, FloatView, KeyView, ValueView};

verus! {

// ---------------------------------------------------------------------------
// Bytes of characters
// ---------------------------------------------------------------------------

/// Every character is ASCII.
pub open spec fn ascii(cs: Seq<char>) -> bool {
    forall|i: int| 0 <= i < cs.len() ==> (#[trigger] cs[i] as u32) < 0x80
}

/// The bytes of ASCII characters.
pub open spec fn ascii_bytes(cs: Seq<char>) -> Seq<u8> {
    Seq::new(cs.len(), |i: int| cs[i] as u32 as u8)
}

proof fn lemma_char_bytes(c: char)
    ensures
        encode_utf8(seq![c]) == encode_scalar(c as u32),
        (c as u32) < 0x80 ==> encode_utf8(seq![c]) == seq![c as u32 as u8],
        (c as u32) >= 0x80 ==> ({
            let e = encode_utf8(seq![c]);
            &&& 2 <= e.len() <= 4
            &&& e[0] >= 0x80
            &&& spec_utf8_len(e[0]) == e.len()
            &&& valid_utf8(e)
            &&& decode_utf8(e) == seq![c]
        }),
{
    let s = seq![c];
    assert(s.drop_first() =~= Seq::<char>::empty());
    assert(encode_utf8(Seq::<char>::empty()) =~= Seq::<u8>::empty());
    assert(encode_utf8(s) =~= encode_scalar(c as u32));
    char_is_scalar(c);
    encode_utf8_valid_utf8(s);
    encode_utf8_decode_utf8(s);
    let v = c as u32;
    if has_width_1_encoding(v) {
        assert((v & 0x7F) as u8 == v as u8) by (bit_vector)
            requires
                v <= 0x7F,
        ;
    } else if has_width_2_encoding(v) {
        let b = leading_byte_width_2(v);
        assert(b >= 0x80 && b >> 5u8 == 6u8) by (bit_vector)
            requires
                b == 0xC0 | ((v >> 6) & 0x1F) as u8,
        ;
    } else if has_width_3_encoding(v) {
        let b = leading_byte_width_3(v);
        assert(b >= 0x80 && b >> 5u8 != 6u8 && b >> 4u8 == 14u8) by (bit_vector)
            requires
                b == 0xE0 | ((v >> 12) & 0x0F) as u8,
        ;
    } else {
        let b = leading_byte_width_4(v);
        assert(b >= 0x80 && b >> 5u8 != 6u8 && b >> 4u8 != 14u8 && b >> 3u8 == 30u8) by (bit_vector)
            requires
                b == 0xF0 | ((v >> 18) & 0x7) as u8,
        ;
    }
}

proof fn lemma_ascii_bytes(cs: Seq<char>)
    requires
        ascii(cs),
    ensures
        encode_utf8(cs) == ascii_bytes(cs),
    decreases cs.len(),
{
    if cs.len() > 0 {
        lemma_ascii_bytes(cs.drop_first());
        lemma_char_bytes(cs[0]);
        assert(seq![cs[0]] + cs.drop_first() =~= cs);
        lemma_encode_utf8_concat(seq![cs[0]], cs.drop_first());
        assert(encode_utf8(cs) =~= ascii_bytes(cs));
    }
}

// ---------------------------------------------------------------------------
// Windows of the input
// ---------------------------------------------------------------------------

/// `src` holds `b` from `pos` on.
pub open spec fn at(src: Seq<u8>, pos: int, b: Seq<u8>) -> bool {
    0 <= pos && pos + b.len() <= src.len() && src.subrange(pos, pos + b.len()) == b
}

proof fn lemma_at_split(src: Seq<u8>, pos: int, a: Seq<u8>, b: Seq<u8>)
    requires
        at(src, pos, a + b),
    ensures
        at(src, pos, a),
        at(src, pos + a.len(), b),
{
    assert(src.subrange(pos, pos + a.len()) =~= (a + b).subrange(0, a.len() as int));
    assert((a + b).subrange(0, a.len() as int) =~= a);
    assert(src.subrange(pos + a.len(), pos + a.len() + b.len()) =~= (a + b).subrange(
        a.len() as int,
        (a.len() + b.len()) as int,
    ));
    assert((a + b).subrange(a.len() as int, (a.len() + b.len()) as int) =~= b);
}

proof fn lemma_at_byte(src: Seq<u8>, pos: int, b: Seq<u8>, i: int)
    requires
        at(src, pos, b),
        0 <= i < b.len(),
    ensures
        src[pos + i] == b[i],
{
    assert(src.subrange(pos, pos + b.len())[i] == src[pos + i]);
}

/// `src` holds the UTF-8 bytes of `t` from `pos` on.
pub open spec fn at_text(src: Seq<u8>, pos: int, t: Seq<char>) -> bool {
    at(src, pos, encode_utf8(t))
}

proof fn lemma_at_text_split(src: Seq<u8>, pos: int, a: Seq<char>, b: Seq<char>)
    requires
        at_text(src, pos, a + b),
    ensures
        at_text(src, pos, a),
        at_text(src, pos + encode_utf8(a).len(), b),
        encode_utf8(a + b).len() == encode_utf8(a).len() + encode_utf8(b).len(),
{
    lemma_encode_utf8_concat(a, b);
    lemma_at_split(src, pos, encode_utf8(a), encode_utf8(b));
}

/// Whitespace bytes from `p` up to `q`, and none at `q`: `skip_ws` goes from
/// `p` to `q`.
proof fn lemma_skip_ws_run(src: Seq<u8>, p: nat, q: nat)
    requires
        p <= q <= src.len(),
        forall|i: int| p <= i < q ==> ws_byte(#[trigger] src[i]),
        q < src.len() ==> !ws_byte(src[q as int]),
    ensures
        skip_ws(src, p) == q,
    decreases q - p,
{
    if p < q {
        lemma_skip_ws_run(src, p + 1, q);
    }
}

/// The line break and indentation of pretty mode are ASCII whitespace.
proof fn lemma_break_indent(pretty: bool, n: nat)
    ensures
        ascii(break_indent(pretty, n)),
        forall|i: int|
            0 <= i < break_indent(pretty, n).len() ==> ws_byte(
                #[trigger] ascii_bytes(break_indent(pretty, n))[i],
            ),
        encode_utf8(break_indent(pretty, n)) == ascii_bytes(break_indent(pretty, n)),
{
    let b = break_indent(pretty, n);
    assert forall|i: int| 0 <= i < b.len() implies (#[trigger] b[i] as u32) < 0x80 && ws_byte(
        ascii_bytes(b)[i],
    ) by {
        if pretty {
            if i == 0 {
                assert(b[i] == '\n');
            } else {
                assert(b[i] == (seq!['\n'] + spaces(n))[i]);
                assert(b[i] == ' ');
            }
        }
    }
    lemma_ascii_bytes(b);
}

// ---------------------------------------------------------------------------
// Strings
// ---------------------------------------------------------------------------

proof fn lemma_escape_concat(a: Seq<char>, b: Seq<char>)
    ensures
        json_escape(a + b) == json_escape(a) + json_escape(b),
    decreases b.len(),
{
    if b.len() == 0 {
        assert(a + b =~= a);
        assert(json_escape(b) =~= Seq::<char>::empty());
        assert(json_escape(a) + json_escape(b) =~= json_escape(a));
    } else {
        assert((a + b).drop_last() =~= a + b.drop_last());
        lemma_escape_concat(a, b.drop_last());
        assert(json_escape(a + b) =~= json_escape(a) + json_escape(b));
    }
}

proof fn lemma_hex_lower(d: nat)
    requires
        d < 16,
    ensures
        (hex_lower(d) as u32) < 0x80,
        hex_value(hex_lower(d) as u32 as u8) == Some(d as u32),
{
    if d < 10 {
        assert(hex_lower(d) == digit_char(d));
        assert(digit_char(d) as u32 == d + 48);
    } else {
        assert(hex_lower(d) as u32 == d - 10 + 97);
    }
}

/// A two-byte escape `\\x` at `pos`.
proof fn lemma_string_escape2(src: Seq<u8>, pos: nat, e: u8, ch: char, acc: Seq<char>)
    requires
        pos + 1 < src.len(),
        src[pos as int] == 92,
        src[pos as int + 1] == e,
        e != 117,
        escape_char(e) == Some(ch),
    ensures
        spec_string_body(src, pos, acc) == spec_string_body(src, pos + 2, acc.push(ch)),
{
}

/// A `\\u00XX` escape at `pos` of a control character `c`.
proof fn lemma_string_unicode(src: Seq<u8>, pos: nat, c: char, acc: Seq<char>)
    requires
        (c as u32) < 0x20,
        pos + 5 < src.len(),
        src[pos as int] == 92,
        src[pos as int + 1] == 117,
        hex_value(src[pos as int + 2]) == Some(0u32),
        hex_value(src[pos as int + 3]) == Some(0u32),
        hex_value(src[pos as int + 4]) == Some(c as u32 / 16),
        hex_value(src[pos as int + 5]) == Some(c as u32 % 16),
    ensures
        spec_string_body(src, pos, acc) == spec_string_body(src, pos + 6, acc.push(c)),
{
    let v = c as u32;
    let hi = v / 16;
    let lo = v % 16;
    assert(spec_hex4(src, pos + 2, 0, 0) == Ok::<(u32, nat), LoadFault>((v, pos + 6))) by {
        assert(((0u32 * 16) + 0) as u32 == 0);
        assert(((0u32 * 16) + hi) as u32 == hi);
        assert(((hi * 16) + lo) as u32 == v);
        reveal_with_fuel(spec_hex4, 5);
    }
    char_u32_cast(c, v);
    assert(spec_unicode_escape(src, pos + 2) == Ok::<(char, nat), LoadFault>((c, pos + 6)));
}

/// A plain ASCII byte at `pos`.
proof fn lemma_string_ascii(src: Seq<u8>, pos: nat, c: char, acc: Seq<char>)
    requires
        pos < src.len(),
        (c as u32) < 0x80,
        src[pos as int] == c as u32 as u8,
        c != '"',
        c != '\\',
    ensures
        spec_string_body(src, pos, acc) == spec_string_body(src, pos + 1, acc.push(c)),
{
    let x = c as u32 as u8;
    assert(x != 34 && x != 92);
    assert(spec_utf8_len(x) == 1);
    char_u32_cast(c, c as u32);
    assert(x as char == c);
}

/// The UTF-8 bytes of a non-ASCII character at `pos`.
proof fn lemma_string_multi(src: Seq<u8>, pos: nat, c: char, acc: Seq<char>)
    requires
        (c as u32) >= 0x80,
        at(src, pos as int, encode_utf8(seq![c])),
    ensures
        spec_string_body(src, pos, acc) == spec_string_body(
            src,
            pos + encode_utf8(seq![c]).len(),
            acc.push(c),
        ),
{
    let b = encode_utf8(seq![c]);
    lemma_char_bytes(c);
    lemma_at_byte(src, pos as int, b, 0);
    assert(acc + decode_utf8(b) =~= acc.push(c));
}

/// The decoder reads the escaped spelling of `c` at `pos` and goes on after
/// it with `c` read.
proof fn lemma_string_char(src: Seq<u8>, pos: nat, c: char, acc: Seq<char>)
    requires
        at_text(src, pos as int, json_escape_char(c)),
    ensures
        encode_utf8(json_escape_char(c)).len() > 0,
        spec_string_body(src, pos, acc) == spec_string_body(
            src,
            pos + encode_utf8(json_escape_char(c)).len(),
            acc.push(c),
        ),
{
    let e = json_escape_char(c);
    let b = encode_utf8(e);
    if c == '"' || c == '\\' || c == '\n' || c == '\t' || c == '\r' || c == '\u{08}' || c
        == '\u{0C}' {
        assert(ascii(e));
        lemma_ascii_bytes(e);
        lemma_at_byte(src, pos as int, b, 0);
        lemma_at_byte(src, pos as int, b, 1);
        lemma_string_escape2(src, pos, b[1], c, acc);
    } else if (c as u32) < 0x20 {
        let hi = (c as u32 / 16) as nat;
        let lo = (c as u32 % 16) as nat;
        lemma_hex_lower(hi);
        lemma_hex_lower(lo);
        assert(ascii(e));
        lemma_ascii_bytes(e);
        lemma_at_byte(src, pos as int, b, 0);
        lemma_at_byte(src, pos as int, b, 1);
        lemma_at_byte(src, pos as int, b, 2);
        lemma_at_byte(src, pos as int, b, 3);
        lemma_at_byte(src, pos as int, b, 4);
        lemma_at_byte(src, pos as int, b, 5);
        lemma_string_unicode(src, pos, c, acc);
    } else if (c as u32) < 0x80 {
        assert(e == seq![c]);
        lemma_char_bytes(c);
        lemma_at_byte(src, pos as int, b, 0);
        lemma_string_ascii(src, pos, c, acc);
    } else {
        assert(e == seq![c]);
        lemma_char_bytes(c);
        lemma_string_multi(src, pos, c, acc);
    }
}

/// The decoder reads the escaped text of `s` (starting at its `k`-th
/// character) and the closing quote.
proof fn lemma_string_rest(src: Seq<u8>, start: nat, s: Seq<char>, k: nat, acc: Seq<char>)
    requires
        k <= s.len(),
        at_text(src, start as int, json_escape(s) + seq!['"']),
    ensures
        spec_string_body(
            src,
            start + encode_utf8(json_escape(s.take(k as int))).len(),
            acc + s.take(k as int),
        ) == Ok::<(Seq<char>, nat), LoadFault>(
            (acc + s, start + encode_utf8(json_escape(s) + seq!['"']).len()),
        ),
    decreases s.len() - k,
{
    lemma_at_text_split(src, start as int, json_escape(s), seq!['"']);
    let whole = encode_utf8(json_escape(s));
    if k == s.len() {
        assert(s.take(k as int) == s);
        lemma_char_bytes('"');
        lemma_at_byte(src, (start + whole.len()) as int, encode_utf8(seq!['"']), 0);
    } else {
        let c = s[k as int];
        assert(s.take(k as int + 1) =~= s.take(k as int).push(c));
        assert(s.take(k as int).push(c) =~= s.take(k as int) + seq![c]);
        assert(s =~= s.take(k as int + 1) + s.skip(k as int + 1));
        lemma_escape_concat(s.take(k as int + 1), s.skip(k as int + 1));
        lemma_escape_concat(s.take(k as int), seq![c]);
        assert(json_escape(seq![c]) =~= json_escape_char(c)) by {
            assert(seq![c].drop_last() =~= Seq::<char>::empty());
            assert(json_escape(Seq::<char>::empty()) =~= Seq::<char>::empty());
            assert(Seq::<char>::empty() + json_escape_char(c) =~= json_escape_char(c));
        }
        let pre = json_escape(s.take(k as int));
        assert(json_escape(s) + seq!['"'] =~= pre + (json_escape_char(c) + (json_escape(
            s.skip(k as int + 1),
        ) + seq!['"'])));
        lemma_at_text_split(src, start as int, pre, json_escape_char(c) + (json_escape(s.skip(k as int + 1))
            + seq!['"']));
        lemma_at_text_split(
            src,
            (start + encode_utf8(pre).len()) as int,
            json_escape_char(c),
            json_escape(s.skip(k as int + 1)) + seq!['"'],
        );
        lemma_string_char(src, start + encode_utf8(pre).len(), c, acc + s.take(k as int));
        lemma_encode_utf8_concat(pre, json_escape_char(c));
        assert((acc + s.take(k as int)).push(c) =~= acc + s.take(k as int + 1));
        lemma_string_rest(src, start, s, k + 1, acc);
    }
}

/// The decoder reads a JSON string literal written for `s`.
proof fn lemma_string(src: Seq<u8>, pos: nat, s: Seq<char>)
    requires
        at_text(src, pos as int, json_quoted(s)),
    ensures
        spec_string(src, pos) == Ok::<(Seq<char>, nat), LoadFault>(
            (s, pos + encode_utf8(json_quoted(s)).len()),
        ),
{
    assert(json_quoted(s) =~= seq!['"'] + (json_escape(s) + seq!['"']));
    lemma_at_text_split(src, pos as int, seq!['"'], json_escape(s) + seq!['"']);
    lemma_char_bytes('"');
    lemma_string_rest(src, pos + 1, s, 0, Seq::empty());
    assert(s.take(0) =~= Seq::<char>::empty());
    assert(json_escape(Seq::<char>::empty()) =~= Seq::<char>::empty());
    assert(encode_utf8(Seq::<char>::empty()) =~= Seq::<u8>::empty());
    assert(Seq::<char>::empty() + s =~= s);
}

// ---------------------------------------------------------------------------
// Integers and literals
// ---------------------------------------------------------------------------

/// No number goes on at `p`: the input ends, or the byte there is no digit,
/// `.`, `e` or `E`.
pub open spec fn delimited(src: Seq<u8>, p: int) -> bool {
    p >= src.len() || !(digit_byte(src[p]) || src[p] == 46 || src[p] == 101 || src[p] == 69)
}

proof fn lemma_nat_text(m: nat)
    ensures
        ascii(nat_text(m)),
        nat_text(m).len() >= 1,
        forall|i: int| 0 <= i < nat_text(m).len() ==> digit_byte(#[trigger] ascii_bytes(nat_text(m))[i]),
        digits_value(ascii_bytes(nat_text(m))) == m,
    decreases m,
{
    let t = nat_text(m);
    if m < 10 {
        assert(digit_char(m) as u32 == m + 48);
        assert(ascii_bytes(t) =~= seq![(m + 48) as u8]);
        assert(ascii_bytes(t).drop_last() =~= Seq::<u8>::empty());
        assert(digits_value(Seq::<u8>::empty()) == 0);
        assert(digits_value(ascii_bytes(t)) == m);
    } else {
        lemma_nat_text(m / 10);
        let d = (m % 10) as nat;
        assert(digit_char(d) as u32 == d + 48);
        let p = nat_text(m / 10);
        assert(t == p.push(digit_char(d)));
        assert(ascii_bytes(t) =~= ascii_bytes(p).push((d + 48) as u8));
        assert(ascii_bytes(t).drop_last() =~= ascii_bytes(p));
        assert(ascii_bytes(t).last() == (d + 48) as u8);
        assert(digits_value(ascii_bytes(t)) == digits_value(ascii_bytes(p)) * 10 + d);
        assert((m / 10) * 10 + d == m);
        assert forall|i: int| 0 <= i < t.len() implies digit_byte(#[trigger] ascii_bytes(t)[i]) by {
            if i < p.len() {
                assert(ascii_bytes(t)[i] == ascii_bytes(p)[i]);
            }
        }
        assert(ascii(t)) by {
            assert forall|i: int| 0 <= i < t.len() implies (#[trigger] t[i] as u32) < 0x80 by {
                if i < p.len() {
                    assert(t[i] == p[i]);
                }
            }
        }
    }
}

proof fn lemma_skip_digits_run(src: Seq<u8>, p: nat, q: nat)
    requires
        p <= q <= src.len(),
        forall|i: int| p <= i < q ==> digit_byte(#[trigger] src[i]),
        q < src.len() ==> !digit_byte(src[q as int]),
    ensures
        skip_digits(src, p) == q,
    decreases q - p,
{
    if p < q {
        lemma_skip_digits_run(src, p + 1, q);
    }
}

/// The decoder reads the decimal numeral of `n` back as `n`.
proof fn lemma_integer(src: Seq<u8>, pos: nat, n: i64)
    requires
        at_text(src, pos as int, int_text(n as int)),
        delimited(src, (pos + encode_utf8(int_text(n as int)).len()) as int),
    ensures
        spec_number(src, pos) == Ok::<(ValueView, nat), LoadFault>(
            (ValueView::Integer(n), pos + encode_utf8(int_text(n as int)).len()),
        ),
{
    let neg = n < 0;
    let m: nat = if neg {
        (-(n as int)) as nat
    } else {
        n as nat
    };
    let t = int_text(n as int);
    let ds = nat_text(m);
    lemma_nat_text(m);
    let sign: Seq<char> = if neg {
        seq!['-']
    } else {
        Seq::empty()
    };
    assert(t =~= sign + ds);
    assert(ascii(t)) by {
        assert forall|i: int| 0 <= i < t.len() implies (#[trigger] t[i] as u32) < 0x80 by {
            if neg && i > 0 {
                assert(t[i] == ds[i - 1]);
            } else if !neg {
                assert(t[i] == ds[i]);
            }
        }
    }
    lemma_ascii_bytes(t);
    let b = ascii_bytes(t);
    let end = pos + b.len();
    let p0: nat = if neg {
        pos + 1
    } else {
        pos
    };
    assert forall|i: int| 0 <= i < b.len() implies src[pos + i] == #[trigger] b[i] by {
        lemma_at_byte(src, pos as int, b, i);
    }
    assert forall|i: int| p0 <= i < end implies digit_byte(#[trigger] src[i]) by {
        assert(src[i] == b[i - pos]);
        if neg {
            assert(b[i - pos] == ascii_bytes(ds)[i - pos - 1]);
        } else {
            assert(b[i - pos] == ascii_bytes(ds)[i - pos]);
        }
    }
    lemma_skip_digits_run(src, p0, end);
    if neg {
        assert(t[0] == '-');
        assert(b[0] == 45);
        assert(src[pos as int + 0] == b[0]);
        assert(src[pos as int] == 45);
    } else {
        assert(src[pos as int] == ascii_bytes(ds)[0]);
        assert(digit_byte(src[pos as int]));
    }
    assert(number_end(src, pos) == (end, false, (end - p0) as nat, None::<nat>));
    let text = src.subrange(pos as int, end as int);
    assert(text == b);
    if neg {
        assert(text.drop_first() =~= ascii_bytes(ds));
    } else {
        assert(text =~= ascii_bytes(ds));
    }
    assert(parse_i64_text(text) == Some(n));
}

proof fn lemma_skip_digits_bounds(b: Seq<u8>, x: nat)
    requires
        x <= b.len(),
    ensures
        x <= skip_digits(b, x) <= b.len(),
    decreases b.len() - x,
{
    if x < b.len() && digit_byte(b[x as int]) {
        lemma_skip_digits_bounds(b, x + 1);
    }
}

/// Inside a number literal `b` held at `pos`, and up to its end, digits
/// run in `src` as in `b`.
proof fn lemma_skip_digits_shift(src: Seq<u8>, pos: nat, b: Seq<u8>, x: nat)
    requires
        at(src, pos as int, b),
        delimited(src, (pos + b.len()) as int),
        x <= b.len(),
    ensures
        skip_digits(src, pos + x) == pos + skip_digits(b, x),
    decreases b.len() - x,
{
    if x < b.len() {
        lemma_at_byte(src, pos as int, b, x as int);
        if digit_byte(b[x as int]) {
            lemma_skip_digits_shift(src, pos, b, x + 1);
        }
    }
}

/// The decoder reads a float literal `b`, written at `pos` and followed by
/// no more of a number, as that literal.
proof fn lemma_float(src: Seq<u8>, pos: nat, b: Seq<u8>)
    requires
        at(src, pos as int, b),
        delimited(src, (pos + b.len()) as int),
        float_literal(b),
    ensures
        spec_number(src, pos) == Ok::<(ValueView, nat), LoadFault>((float_lexeme(b), pos + b.len())),
{
    let n = b.len();
    lemma_at_byte(src, pos as int, b, 0);
    let p0b: nat = if b[0] == 45 || b[0] == 43 {
        1
    } else {
        0
    };
    let p0 = pos + p0b;
    lemma_skip_digits_shift(src, pos, b, p0b);
    let p1b = skip_digits(b, p0b);
    lemma_skip_digits_bounds(b, p0b);
    let p1 = pos + p1b;
    if p1b < n {
        lemma_at_byte(src, pos as int, b, p1b as int);
    }
    let has_frac = p1b < n && b[p1b as int] == 46;
    assert(has_frac == (p1 < src.len() && src[p1 as int] == 46));
    let p2b = if has_frac {
        skip_digits(b, p1b + 1)
    } else {
        p1b
    };
    if has_frac {
        lemma_skip_digits_shift(src, pos, b, p1b + 1);
        lemma_skip_digits_bounds(b, p1b + 1);
    }
    let p2 = pos + p2b;
    if p2b < n {
        lemma_at_byte(src, pos as int, b, p2b as int);
    }
    let has_exp = p2b < n && (b[p2b as int] == 101 || b[p2b as int] == 69);
    assert(has_exp == (p2 < src.len() && (src[p2 as int] == 101 || src[p2 as int] == 69)));
    if has_exp {
        if p2b + 1 < n {
            lemma_at_byte(src, pos as int, b, p2b + 1int);
        } else {
            lemma_skip_digits_bounds(b, p2b + 1);
        }
        let signed = p2b + 1 < n && (b[p2b + 1int] == 43 || b[p2b + 1int] == 45);
        let p3b = if signed {
            p2b + 2
        } else {
            p2b + 1
        };
        lemma_skip_digits_bounds(b, p3b);
        lemma_skip_digits_shift(src, pos, b, p3b);
    }
    assert(number_end(src, pos).0 == pos + n);
    assert(number_end(src, pos) == (pos + number_end(b, 0).0, number_end(b, 0).1, number_end(b, 0).2, number_end(b, 0).3));
    assert(src.subrange(pos as int, (pos + n) as int) == b);
}

proof fn lemma_literal(src: Seq<u8>, pos: nat, t: Seq<char>, lit: Seq<u8>)
    requires
        at_text(src, pos as int, t),
        ascii(t),
        ascii_bytes(t) == lit,
    ensures
        src.len() >= pos + lit.len(),
        src.subrange(pos as int, (pos + lit.len()) as int) == lit,
        encode_utf8(t).len() == lit.len(),
{
    lemma_ascii_bytes(t);
}

// ---------------------------------------------------------------------------
// Plain JSON data
// ---------------------------------------------------------------------------

/// The whole of `b` is one number literal that `load-json` reads as a
/// float: a sign or a digit first, and a fraction or an exponent.
pub open spec fn float_literal(b: Seq<u8>) -> bool {
    let (end, is_float, mdigits, edigits) = number_end(b, 0);
    &&& b.len() > 0
    &&& (b[0] == 45 || digit_byte(b[0]))
    &&& end == b.len()
    &&& is_float
    &&& float_digits_ok(mdigits, edigits)
}

/// A finite float spelled as a number literal (as `{:?}` spells any finite
/// float): ASCII, one float literal, and not so large that reading it back
/// gives infinity.
pub open spec fn float_data(f: FloatView) -> bool {
    &&& f.finite
    &&& ascii(f.text)
    &&& float_literal(ascii_bytes(f.text))
    &&& lexeme_finite(ascii_bytes(f.text))
}

/// Plain JSON data: `none`, logic values, integers, finite floats spelled
/// as number literals, strings, blocks of such data, and maps of such data
/// under distinct string keys.
pub open spec fn json_data(v: ValueView) -> bool
    decreases v,
{
    match v {
        ValueView::NoneVal => true,
        ValueView::Logic(_) => true,
        ValueView::Integer(_) => true,
        ValueView::Float(f) => float_data(f),
        ValueView::Str(_) => true,
        ValueView::Block(items) => items_data(items),
        ValueView::MapVal(entries) => entries_data(entries),
        _ => false,
    }
}

pub open spec fn items_data(items: Seq<ValueView>) -> bool
    decreases items,
{
    if items.len() == 0 {
        true
    } else {
        items_data(items.drop_last()) && json_data(items.last())
    }
}

pub open spec fn entries_data(entries: Seq<(KeyView, ValueView)>) -> bool
    decreases entries,
{
    if entries.len() == 0 {
        true
    } else {
        let last = entries.last();
        &&& entries_data(entries.drop_last())
        &&& last.0 is Str
        &&& key_index(entries.drop_last(), last.0) < 0
        &&& json_data(last.1)
    }
}

/// How deeply containers nest in `v` (an empty container counts as none).
pub open spec fn height(v: ValueView) -> nat
    decreases v,
{
    match v {
        ValueView::Block(items) => if items.len() == 0 {
            0
        } else {
            1 + items_height(items)
        },
        ValueView::MapVal(entries) => if entries.len() == 0 {
            0
        } else {
            1 + entries_height(entries)
        },
        _ => 0,
    }
}

pub open spec fn items_height(items: Seq<ValueView>) -> nat
    decreases items,
{
    if items.len() == 0 {
        0
    } else {
        let a = items_height(items.drop_last());
        let b = height(items.last());
        if a >= b {
            a
        } else {
            b
        }
    }
}

pub open spec fn entries_height(entries: Seq<(KeyView, ValueView)>) -> nat
    decreases entries,
{
    if entries.len() == 0 {
        0
    } else {
        let a = entries_height(entries.drop_last());
        let b = height(entries.last().1);
        if a >= b {
            a
        } else {
            b
        }
    }
}

proof fn lemma_items_at(items: Seq<ValueView>, k: int)
    requires
        items_data(items),
        0 <= k < items.len(),
    ensures
        json_data(items[k]),
        height(items[k]) <= items_height(items),
        items_data(items.take(k)),
    decreases items.len(),
{
    if k < items.len() - 1 {
        lemma_items_at(items.drop_last(), k);
        assert(items.drop_last()[k] == items[k]);
        assert(items.drop_last().take(k) =~= items.take(k));
    } else {
        assert(items.take(k) =~= items.drop_last());
    }
}

proof fn lemma_entries_at(entries: Seq<(KeyView, ValueView)>, k: int)
    requires
        entries_data(entries),
        0 <= k < entries.len(),
    ensures
        json_data(entries[k].1),
        entries[k].0 is Str,
        key_index(entries.take(k), entries[k].0) < 0,
        height(entries[k].1) <= entries_height(entries),
        entries_data(entries.take(k)),
    decreases entries.len(),
{
    if k < entries.len() - 1 {
        lemma_entries_at(entries.drop_last(), k);
        assert(entries.drop_last()[k] == entries[k]);
        assert(entries.drop_last().take(k) =~= entries.take(k));
    } else {
        assert(entries.take(k) =~= entries.drop_last());
    }
}

/// Plain JSON data always has a JSON text.
proof fn lemma_data_encodes(v: ValueView, indent: nat, pretty: bool, width: nat)
    requires
        json_data(v),
    ensures
        json_value(v, indent, pretty, width) is Ok,
    decreases v, 1nat,
{
    match v {
        ValueView::Block(items) => {
            lemma_items_encode(items, indent, pretty, width);
        },
        ValueView::MapVal(entries) => {
            lemma_entries_encode(entries, indent, pretty, width);
        },
        _ => {},
    }
}

proof fn lemma_items_encode(items: Seq<ValueView>, indent: nat, pretty: bool, width: nat)
    requires
        items_data(items),
    ensures
        json_elems(items, indent, pretty, width) is Ok,
    decreases items, 0nat,
{
    if items.len() > 0 {
        lemma_items_encode(items.drop_last(), indent, pretty, width);
        lemma_data_encodes(items.last(), indent + width, pretty, width);
    }
}

proof fn lemma_entries_encode(entries: Seq<(KeyView, ValueView)>, indent: nat, pretty: bool, width: nat)
    requires
        entries_data(entries),
    ensures
        json_keyed(entries, indent, pretty, width) is Ok,
    decreases entries, 0nat,
{
    if entries.len() > 0 {
        lemma_entries_encode(entries.drop_last(), indent, pretty, width);
        lemma_data_encodes(entries.last().1, indent + width, pretty, width);
    }
}

// ---------------------------------------------------------------------------
// Where values start and end
// ---------------------------------------------------------------------------

/// A byte that can begin the text of plain JSON data.
pub open spec fn value_start(b: u8) -> bool {
    b == 110 || b == 116 || b == 102 || b == 45 || digit_byte(b) || b == 34 || b == 91 || b == 123
}

/// The text `json_value` gives `v`.
#[verifier::opaque]
pub open spec fn child_text(v: ValueView, indent: nat, pretty: bool, width: nat) -> Seq<char> {
    json_value(v, indent, pretty, width)->Ok_0
}

proof fn lemma_first_ascii(t: Seq<char>)
    requires
        t.len() > 0,
        (t[0] as u32) < 0x80,
    ensures
        encode_utf8(t).len() > 0,
        encode_utf8(t)[0] == t[0] as u32 as u8,
{
    assert(t =~= seq![t[0]] + t.drop_first());
    lemma_encode_utf8_concat(seq![t[0]], t.drop_first());
    lemma_char_bytes(t[0]);
}

/// The text of plain JSON data begins with an ASCII byte that says which
/// kind of value follows.
#[verifier::spinoff_prover]
#[verifier::rlimit(50)]
proof fn lemma_value_start(v: ValueView, indent: nat, pretty: bool, width: nat)
    requires
        json_data(v),
    ensures
        json_value(v, indent, pretty, width) is Ok,
        encode_utf8(child_text(v, indent, pretty, width)).len() > 0,
        value_start(encode_utf8(child_text(v, indent, pretty, width))[0]),
        encode_utf8(child_text(v, indent, pretty, width))[0] == (match v {
            ValueView::NoneVal => 110u8,
            ValueView::Logic(b) => if b {
                116u8
            } else {
                102u8
            },
            ValueView::Str(_) => 34u8,
            ValueView::Block(_) => 91u8,
            ValueView::MapVal(_) => 123u8,
            _ => encode_utf8(child_text(v, indent, pretty, width))[0],
        }),
        (v is Integer || v is Float) ==> (encode_utf8(child_text(v, indent, pretty, width))[0] == 45
            || digit_byte(encode_utf8(child_text(v, indent, pretty, width))[0])),
{
    lemma_data_encodes(v, indent, pretty, width);
    reveal(child_text);
    let t = child_text(v, indent, pretty, width);
    match v {
        ValueView::Integer(n) => {
            let m: nat = if n < 0 {
                (-(n as int)) as nat
            } else {
                n as nat
            };
            lemma_nat_text(m);
            if n < 0 {
                assert(t[0] == '-');
            } else {
                assert(t == nat_text(m));
                assert(ascii_bytes(nat_text(m))[0] == t[0] as u32 as u8);
            }
            lemma_first_ascii(t);
        },
        ValueView::Block(items) => {
            assert(t[0] == '[');
            lemma_first_ascii(t);
        },
        ValueView::MapVal(entries) => {
            assert(t[0] == '{');
            lemma_first_ascii(t);
        },
        ValueView::Str(s) => {
            assert(t[0] == '"');
            lemma_first_ascii(t);
        },
        ValueView::Float(f) => {
            assert(t == f.text);
            assert(ascii_bytes(t)[0] == t[0] as u32 as u8);
            lemma_first_ascii(t);
        },
        _ => {
            lemma_first_ascii(t);
        },
    }
}

/// Whitespace `w` at `p`, then a byte that is not whitespace (or the end):
/// `skip_ws` goes over `w`.
proof fn lemma_skip_ws_window(src: Seq<u8>, p: nat, w: Seq<u8>)
    requires
        at(src, p as int, w),
        forall|i: int| 0 <= i < w.len() ==> ws_byte(#[trigger] w[i]),
        p + w.len() < src.len() ==> !ws_byte(src[(p + w.len()) as int]),
    ensures
        skip_ws(src, p) == p + w.len(),
{
    assert forall|i: int| p <= i < p + w.len() implies ws_byte(#[trigger] src[i]) by {
        lemma_at_byte(src, p as int, w, i - p);
    }
    lemma_skip_ws_run(src, p, p + w.len());
}

// ---------------------------------------------------------------------------
// The texts of arrays and objects, element by element
// ---------------------------------------------------------------------------

/// The elements of an array text from the `j`-th on.
pub open spec fn elems_suffix(items: Seq<ValueView>, j: int, indent: nat, pretty: bool, width: nat) -> Seq<
    char,
>
    decreases items.len() - j,
{
    if j < 0 || j >= items.len() {
        Seq::empty()
    } else {
        elem_prefix(j as nat, pretty, indent + width) + child_text(items[j], indent + width, pretty, width)
            + elems_suffix(items, j + 1, indent, pretty, width)
    }
}

proof fn lemma_elems_split(items: Seq<ValueView>, j: int, indent: nat, pretty: bool, width: nat)
    requires
        items_data(items),
        0 <= j <= items.len(),
    ensures
        json_elems(items.take(j), indent, pretty, width) is Ok,
        json_elems(items, indent, pretty, width) is Ok,
        json_elems(items.take(j), indent, pretty, width)->Ok_0 + elems_suffix(
            items,
            j,
            indent,
            pretty,
            width,
        ) == json_elems(items, indent, pretty, width)->Ok_0,
        j < items.len() ==> json_elems(items.take(j + 1), indent, pretty, width) is Ok,
        j < items.len() ==> json_elems(items.take(j + 1), indent, pretty, width)->Ok_0 == json_elems(
            items.take(j),
            indent,
            pretty,
            width,
        )->Ok_0 + elem_prefix(j as nat, pretty, indent + width) + child_text(items[j], indent + width, pretty, width),
    decreases items.len() - j,
{
    lemma_items_encode(items, indent, pretty, width);
    if j == items.len() {
        assert(items.take(j) =~= items);
        assert(json_elems(items, indent, pretty, width)->Ok_0 + Seq::<char>::empty() =~= json_elems(
            items,
            indent,
            pretty,
            width,
        )->Ok_0);
    } else {
        lemma_elems_split(items, j + 1, indent, pretty, width);
        lemma_items_at(items, j);
        assert(items.take(j + 1).drop_last() =~= items.take(j));
        assert(items.take(j + 1).last() == items[j]);
        lemma_items_encode(items.take(j), indent, pretty, width);
        lemma_data_encodes(items[j], indent + width, pretty, width);
        reveal(child_text);
        let a = json_elems(items.take(j), indent, pretty, width)->Ok_0;
        let p = elem_prefix(j as nat, pretty, indent + width);
        let t = child_text(items[j], indent + width, pretty, width);
        assert(json_elems(items.take(j + 1), indent, pretty, width)->Ok_0 == a + p + t);
        assert(a + elems_suffix(items, j, indent, pretty, width) =~= (a + p + t) + elems_suffix(
            items,
            j + 1,
            indent,
            pretty,
            width,
        ));
    }
}

/// The text a map entry's member gets.
pub open spec fn member_of(e: (KeyView, ValueView), indent: nat, pretty: bool, width: nat) -> Seq<char> {
    member_text(map_key_text(e.0), child_text(e.1, indent + width, pretty, width), pretty)
}

/// The members of an object text from the `j`-th on.
pub open spec fn keyed_suffix(
    entries: Seq<(KeyView, ValueView)>,
    j: int,
    indent: nat,
    pretty: bool,
    width: nat,
) -> Seq<char>
    decreases entries.len() - j,
{
    if j < 0 || j >= entries.len() {
        Seq::empty()
    } else {
        elem_prefix(j as nat, pretty, indent + width) + member_of(entries[j], indent, pretty, width)
            + keyed_suffix(entries, j + 1, indent, pretty, width)
    }
}

proof fn lemma_keyed_split(entries: Seq<(KeyView, ValueView)>, j: int, indent: nat, pretty: bool, width: nat)
    requires
        entries_data(entries),
        0 <= j <= entries.len(),
    ensures
        json_keyed(entries.take(j), indent, pretty, width) is Ok,
        json_keyed(entries, indent, pretty, width) is Ok,
        json_keyed(entries.take(j), indent, pretty, width)->Ok_0 + keyed_suffix(
            entries,
            j,
            indent,
            pretty,
            width,
        ) == json_keyed(entries, indent, pretty, width)->Ok_0,
        j < entries.len() ==> json_keyed(entries.take(j + 1), indent, pretty, width) is Ok,
        j < entries.len() ==> json_keyed(entries.take(j + 1), indent, pretty, width)->Ok_0 == json_keyed(
            entries.take(j),
            indent,
            pretty,
            width,
        )->Ok_0 + elem_prefix(j as nat, pretty, indent + width) + member_of(entries[j], indent, pretty, width),
    decreases entries.len() - j,
{
    lemma_entries_encode(entries, indent, pretty, width);
    if j == entries.len() {
        assert(entries.take(j) =~= entries);
        assert(json_keyed(entries, indent, pretty, width)->Ok_0 + Seq::<char>::empty() =~= json_keyed(
            entries,
            indent,
            pretty,
            width,
        )->Ok_0);
    } else {
        lemma_keyed_split(entries, j + 1, indent, pretty, width);
        lemma_entries_at(entries, j);
        assert(entries.take(j + 1).drop_last() =~= entries.take(j));
        assert(entries.take(j + 1).last() == entries[j]);
        lemma_entries_encode(entries.take(j), indent, pretty, width);
        lemma_data_encodes(entries[j].1, indent + width, pretty, width);
        reveal(child_text);
        let a = json_keyed(entries.take(j), indent, pretty, width)->Ok_0;
        let p = elem_prefix(j as nat, pretty, indent + width);
        let m = member_of(entries[j], indent, pretty, width);
        assert(json_keyed(entries.take(j + 1), indent, pretty, width)->Ok_0 == a + p + m);
        assert(a + keyed_suffix(entries, j, indent, pretty, width) =~= (a + p + m) + keyed_suffix(
            entries,
            j + 1,
            indent,
            pretty,
            width,
        ));
    }
}

// ---------------------------------------------------------------------------
// Reading plain JSON data back
// ---------------------------------------------------------------------------

/// The text of an array up to where its `k`-th element begins.
pub open spec fn arr_head(items: Seq<ValueView>, k: int, indent: nat, pretty: bool, width: nat) -> Seq<char> {
    seq!['['] + json_elems(items.take(k), indent, pretty, width)->Ok_0 + elem_prefix(
        k as nat,
        pretty,
        indent + width,
    )
}

/// The text of an object up to where its `k`-th member begins.
pub open spec fn obj_head(entries: Seq<(KeyView, ValueView)>, k: int, indent: nat, pretty: bool, width: nat) -> Seq<
    char,
> {
    seq!['{'] + json_keyed(entries.take(k), indent, pretty, width)->Ok_0 + elem_prefix(
        k as nat,
        pretty,
        indent + width,
    )
}

proof fn lemma_ascii_len(t: Seq<char>)
    requires
        ascii(t),
    ensures
        encode_utf8(t).len() == t.len(),
{
    lemma_ascii_bytes(t);
}

proof fn lemma_block_text(items: Seq<ValueView>, indent: nat, pretty: bool, width: nat)
    requires
        items_data(items),
    ensures
        json_elems(items, indent, pretty, width) is Ok,
        child_text(ValueView::Block(items), indent, pretty, width) == bracketed(
            '[',
            ']',
            json_elems(items, indent, pretty, width)->Ok_0,
            items.len(),
            pretty,
            indent,
        ),
{
    lemma_items_encode(items, indent, pretty, width);
    reveal(child_text);
}

proof fn lemma_map_text(entries: Seq<(KeyView, ValueView)>, indent: nat, pretty: bool, width: nat)
    requires
        entries_data(entries),
    ensures
        json_keyed(entries, indent, pretty, width) is Ok,
        child_text(ValueView::MapVal(entries), indent, pretty, width) == bracketed(
            '{',
            '}',
            json_keyed(entries, indent, pretty, width)->Ok_0,
            entries.len(),
            pretty,
            indent,
        ),
{
    lemma_entries_encode(entries, indent, pretty, width);
    reveal(child_text);
}

/// The decoder reads the text of plain JSON data back as that data.
#[verifier::spinoff_prover]
#[verifier::rlimit(50)]
proof fn lemma_value(
    src: Seq<u8>,
    pos: nat,
    v: ValueView,
    indent: nat,
    pretty: bool,
    width: nat,
    depth: nat,
)
    requires
        json_data(v),
        depth + height(v) <= MAX_JSON_DEPTH,
        json_value(v, indent, pretty, width) is Ok,
        at_text(src, pos as int, child_text(v, indent, pretty, width)),
        delimited(src, (pos + encode_utf8(child_text(v, indent, pretty, width)).len()) as int),
    ensures
        spec_value(src, pos, depth) == Ok::<(ValueView, nat), LoadFault>(
            (v, pos + encode_utf8(child_text(v, indent, pretty, width)).len()),
        ),
    decreases v, 0nat,
{
    let t = child_text(v, indent, pretty, width);
    let e = encode_utf8(t);
    lemma_value_start(v, indent, pretty, width);
    reveal(child_text);
    lemma_at_byte(src, pos as int, e, 0);
    lemma_skip_ws_run(src, pos, pos);
    match v {
        ValueView::NoneVal => {
            assert(t == null_text());
            assert(ascii(t));
            assert(ascii_bytes(t) =~= null_bytes());
            lemma_literal(src, pos, t, null_bytes());
        },
        ValueView::Logic(b) => {
            assert(ascii(t));
            if b {
                assert(ascii_bytes(t) =~= true_bytes());
                lemma_literal(src, pos, t, true_bytes());
            } else {
                assert(ascii_bytes(t) =~= false_bytes());
                lemma_literal(src, pos, t, false_bytes());
            }
        },
        ValueView::Integer(n) => {
            assert(t == int_text(n as int));
            lemma_integer(src, pos, n);
        },
        ValueView::Float(f) => {
            assert(t == f.text);
            lemma_ascii_bytes(t);
            let b = ascii_bytes(t);
            lemma_float(src, pos, b);
            assert(ascii_chars(b) =~= t) by {
                assert forall|i: int| 0 <= i < b.len() implies #[trigger] ascii_chars(b)[i] == t[i] by {
                    let x: u32 = t[i] as u32;
                    assert(x < 0x80);
                    assert((x as u8) as u32 == x) by (bit_vector)
                        requires
                            x < 0x80,
                    ;
                    assert(b[i] == x as u8);
                    assert(b[i] as int == x as int);
                    assert((b[i] as char) == (x as char));
                    char_u32_cast(t[i], x);
                }
            }
            assert(float_lexeme(b) == v);
        },
        ValueView::Str(s) => {
            assert(t == json_quoted(s));
            lemma_string(src, pos, s);
        },
        ValueView::Block(items) => {
            lemma_array(src, pos, items, indent, pretty, width, depth);
        },
        ValueView::MapVal(entries) => {
            lemma_object(src, pos, entries, indent, pretty, width, depth);
        },
        _ => {},
    }
}

#[verifier::spinoff_prover]
#[verifier::rlimit(50)]
proof fn lemma_array(
    src: Seq<u8>,
    pos: nat,
    items: Seq<ValueView>,
    indent: nat,
    pretty: bool,
    width: nat,
    depth: nat,
)
    requires
        items_data(items),
        depth + height(ValueView::Block(items)) <= MAX_JSON_DEPTH,
        at_text(src, pos as int, child_text(ValueView::Block(items), indent, pretty, width)),
    ensures
        spec_array(src, pos, depth) == Ok::<(ValueView, nat), LoadFault>(
            (
                ValueView::Block(items),
                pos + encode_utf8(child_text(ValueView::Block(items), indent, pretty, width)).len(),
            ),
        ),
    decreases items, items.len() + 1,
{
    lemma_block_text(items, indent, pretty, width);
    let t = child_text(ValueView::Block(items), indent, pretty, width);
    let body = json_elems(items, indent, pretty, width)->Ok_0;
    assert(t == bracketed('[', ']', body, items.len(), pretty, indent));
    if items.len() == 0 {
        assert(t =~= seq!['[', ']']);
        assert(ascii(t));
        lemma_ascii_bytes(t);
        lemma_at_byte(src, pos as int, encode_utf8(t), 0);
        lemma_at_byte(src, pos as int, encode_utf8(t), 1);
        lemma_skip_ws_run(src, pos + 1, pos + 1);
        assert(items =~= Seq::<ValueView>::empty());
    } else {
        let c = indent + width;
        lemma_elems_split(items, 0, indent, pretty, width);
        assert(items.take(0) =~= Seq::<ValueView>::empty());
        let j0 = json_elems(items.take(0), indent, pretty, width)->Ok_0;
        assert(j0 =~= Seq::<char>::empty());
        let bi = break_indent(pretty, c);
        assert(elem_prefix(0, pretty, c) =~= bi);
        let t0 = child_text(items[0], c, pretty, width);
        let rest = elems_suffix(items, 1, indent, pretty, width) + break_indent(pretty, indent)
            + seq![']'];
        assert(t =~= seq!['['] + bi + (t0 + rest));
        lemma_at_text_split(src, pos as int, seq!['['] + bi, t0 + rest);
        lemma_at_text_split(src, pos as int, seq!['['], bi);
        lemma_break_indent(pretty, c);
        lemma_ascii_len(seq!['[']);
        let q = pos + 1 + encode_utf8(bi).len();
        lemma_at_text_split(src, (q) as int, t0, rest);
        lemma_items_at(items, 0);
        lemma_value_start(items[0], c, pretty, width);
        lemma_at_byte(src, (q) as int, encode_utf8(t0), 0);
        lemma_skip_ws_window(src, pos + 1, encode_utf8(bi));
        assert(arr_head(items, 0, indent, pretty, width) =~= seq!['['] + bi);
        lemma_encode_utf8_concat(seq!['['], bi);
        lemma_elems(src, pos, items, 0, indent, pretty, width, depth);
    }
}

/// What follows the `k`-th element of an array text.
pub open spec fn arr_tail(items: Seq<ValueView>, k: int, indent: nat, pretty: bool, width: nat) -> Seq<char> {
    elems_suffix(items, k + 1, indent, pretty, width) + break_indent(pretty, indent) + seq![']']
}

#[verifier::spinoff_prover]
#[verifier::rlimit(50)]
proof fn lemma_arr_layout(items: Seq<ValueView>, k: int, indent: nat, pretty: bool, width: nat)
    requires
        items_data(items),
        0 <= k < items.len(),
    ensures
        child_text(ValueView::Block(items), indent, pretty, width) == arr_head(items, k, indent, pretty, width)
            + child_text(items[k], indent + width, pretty, width) + arr_tail(items, k, indent, pretty, width),
        k + 1 < items.len() ==> arr_tail(items, k, indent, pretty, width) == seq![','] + break_indent(
            pretty,
            indent + width,
        ) + (child_text(items[k + 1], indent + width, pretty, width) + arr_tail(
            items,
            k + 1,
            indent,
            pretty,
            width,
        )),
        k + 1 < items.len() ==> arr_head(items, k + 1, indent, pretty, width) == arr_head(
            items,
            k,
            indent,
            pretty,
            width,
        ) + child_text(items[k], indent + width, pretty, width) + seq![','] + break_indent(
            pretty,
            indent + width,
        ),
        k + 1 == items.len() ==> arr_tail(items, k, indent, pretty, width) == break_indent(pretty, indent)
            + seq![']'],
{
    let c = indent + width;
    lemma_block_text(items, indent, pretty, width);
    lemma_elems_split(items, k, indent, pretty, width);
    lemma_elems_split(items, k + 1, indent, pretty, width);
    let jn = json_elems(items, indent, pretty, width)->Ok_0;
    let jk = json_elems(items.take(k), indent, pretty, width)->Ok_0;
    let pk = elem_prefix(k as nat, pretty, c);
    let tk = child_text(items[k], c, pretty, width);
    let sk1 = elems_suffix(items, k + 1, indent, pretty, width);
    let bi = break_indent(pretty, indent);
    assert(jn == jk + (pk + tk + sk1));
    assert(child_text(ValueView::Block(items), indent, pretty, width) =~= arr_head(items, k, indent, pretty, width)
        + tk + arr_tail(items, k, indent, pretty, width));
    if k + 1 < items.len() {
        let bc = break_indent(pretty, c);
        let tk1 = child_text(items[k + 1], c, pretty, width);
        let sk2 = elems_suffix(items, k + 2, indent, pretty, width);
        assert(elem_prefix((k + 1) as nat, pretty, c) =~= seq![','] + bc);
        assert(sk1 == elem_prefix((k + 1) as nat, pretty, c) + tk1 + sk2);
        assert(arr_tail(items, k, indent, pretty, width) =~= seq![','] + bc + (tk1 + arr_tail(
            items,
            k + 1,
            indent,
            pretty,
            width,
        )));
        assert(arr_head(items, k + 1, indent, pretty, width) =~= arr_head(items, k, indent, pretty, width) + tk
            + seq![','] + bc);
    } else {
        assert(sk1 =~= Seq::<char>::empty());
        assert(arr_tail(items, k, indent, pretty, width) =~= bi + seq![']']);
    }
}

/// A `,` at `p`, the indentation of the next element, then that element's
/// text `x`.
proof fn lemma_sep_next(src: Seq<u8>, p: nat, pretty: bool, c: nat, x: Seq<char>)
    requires
        at_text(src, p as int, seq![','] + break_indent(pretty, c) + x),
        encode_utf8(x).len() > 0,
        !ws_byte(encode_utf8(x)[0]),
    ensures
        p < src.len(),
        src[p as int] == 44,
        skip_ws(src, p) == p,
        delimited(src, p as int),
        skip_ws(src, p + 1) == p + 1 + encode_utf8(break_indent(pretty, c)).len(),
        at_text(src, (p + 1 + encode_utf8(break_indent(pretty, c)).len()) as int, x),
        encode_utf8(seq![','] + break_indent(pretty, c) + x).len() == 1 + encode_utf8(
            break_indent(pretty, c),
        ).len() + encode_utf8(x).len(),
{
    let bc = break_indent(pretty, c);
    lemma_at_text_split(src, p as int, seq![','] + bc, x);
    lemma_at_text_split(src, p as int, seq![','], bc);
    lemma_ascii_len(seq![',']);
    lemma_first_ascii(seq![',']);
    lemma_at_byte(src, p as int, encode_utf8(seq![',']), 0);
    lemma_skip_ws_run(src, p, p);
    lemma_break_indent(pretty, c);
    let q = p + 1 + encode_utf8(bc).len();
    lemma_at_byte(src, q as int, encode_utf8(x), 0);
    lemma_skip_ws_window(src, p + 1, encode_utf8(bc));
}

/// The closing indentation at `p`, then the closing bracket `close`.
proof fn lemma_sep_close(src: Seq<u8>, p: nat, pretty: bool, n: nat, close: char)
    requires
        at_text(src, p as int, break_indent(pretty, n) + seq![close]),
        close == ']' || close == '}',
    ensures
        skip_ws(src, p) == p + encode_utf8(break_indent(pretty, n)).len(),
        skip_ws(src, p) < src.len(),
        src[skip_ws(src, p) as int] == close as u32 as u8,
        delimited(src, p as int),
        encode_utf8(break_indent(pretty, n) + seq![close]).len() == encode_utf8(break_indent(pretty, n)).len()
            + 1,
{
    let bi = break_indent(pretty, n);
    lemma_at_text_split(src, p as int, bi, seq![close]);
    let q = p + encode_utf8(bi).len();
    assert(ascii(seq![close]));
    lemma_ascii_len(seq![close]);
    lemma_first_ascii(seq![close]);
    lemma_at_byte(src, q as int, encode_utf8(seq![close]), 0);
    lemma_break_indent(pretty, n);
    if encode_utf8(bi).len() > 0 {
        lemma_at_byte(src, p as int, encode_utf8(bi), 0);
    }
    lemma_skip_ws_window(src, p, encode_utf8(bi));
}

/// Reading the `k`-th element of an array text, and what follows it.
#[verifier::spinoff_prover]
proof fn lemma_arr_step(
    src: Seq<u8>,
    pos: nat,
    items: Seq<ValueView>,
    k: int,
    indent: nat,
    pretty: bool,
    width: nat,
    depth: nat,
)
    requires
        items_data(items),
        0 <= k < items.len(),
        depth + height(ValueView::Block(items)) <= MAX_JSON_DEPTH,
        at_text(src, pos as int, child_text(ValueView::Block(items), indent, pretty, width)),
    ensures
        ({
            let pk = pos + encode_utf8(arr_head(items, k, indent, pretty, width)).len();
            let ek = pk + encode_utf8(child_text(items[k], indent + width, pretty, width)).len();
            &&& spec_value(src, pk, depth + 1) == Ok::<(ValueView, nat), LoadFault>((items[k], ek))
            &&& k + 1 < items.len() ==> {
                &&& ek < src.len()
                &&& src[ek as int] == 44
                &&& skip_ws(src, ek) == ek
                &&& skip_ws(src, ek + 1) == pos + encode_utf8(arr_head(items, k + 1, indent, pretty, width)).len()
                &&& pk < pos + encode_utf8(arr_head(items, k + 1, indent, pretty, width)).len() <= src.len()
            }
            &&& k + 1 == items.len() ==> {
                &&& skip_ws(src, ek) < src.len()
                &&& src[skip_ws(src, ek) as int] == 93
                &&& skip_ws(src, ek) + 1 == pos + encode_utf8(
                    child_text(ValueView::Block(items), indent, pretty, width),
                ).len()
            }
        }),
    decreases items, 0nat,
{
    let c = indent + width;
    lemma_arr_layout(items, k, indent, pretty, width);
    let head = arr_head(items, k, indent, pretty, width);
    let tk = child_text(items[k], c, pretty, width);
    let tail = arr_tail(items, k, indent, pretty, width);
    lemma_at_text_split(src, pos as int, head + tk, tail);
    lemma_at_text_split(src, pos as int, head, tk);
    let pk = pos + encode_utf8(head).len();
    let ek = pk + encode_utf8(tk).len();
    lemma_items_at(items, k);
    lemma_data_encodes(items[k], c, pretty, width);
    assert(depth + 1 + height(items[k]) <= MAX_JSON_DEPTH);
    if k + 1 < items.len() {
        let bc = break_indent(pretty, c);
        let tk1 = child_text(items[k + 1], c, pretty, width);
        let x = tk1 + arr_tail(items, k + 1, indent, pretty, width);
        lemma_items_at(items, k + 1);
        lemma_value_start(items[k + 1], c, pretty, width);
        lemma_encode_utf8_concat(tk1, arr_tail(items, k + 1, indent, pretty, width));
        assert(encode_utf8(x)[0] == encode_utf8(tk1)[0]);
        lemma_sep_next(src, ek, pretty, c, x);
        lemma_value(src, pk, items[k], c, pretty, width, depth + 1);
        lemma_ascii_len(seq![',']);
        lemma_encode_utf8_concat(head + tk + seq![','], bc);
        lemma_encode_utf8_concat(head + tk, seq![',']);
        lemma_encode_utf8_concat(head, tk);
    } else {
        lemma_sep_close(src, ek, pretty, indent, ']');
        lemma_value(src, pk, items[k], c, pretty, width, depth + 1);
    }
}

/// Reading an array's elements from the `k`-th on.
#[verifier::spinoff_prover]
#[verifier::rlimit(50)]
proof fn lemma_elems(
    src: Seq<u8>,
    pos: nat,
    items: Seq<ValueView>,
    k: int,
    indent: nat,
    pretty: bool,
    width: nat,
    depth: nat,
)
    requires
        items_data(items),
        0 <= k < items.len(),
        depth + height(ValueView::Block(items)) <= MAX_JSON_DEPTH,
        at_text(src, pos as int, child_text(ValueView::Block(items), indent, pretty, width)),
    ensures
        spec_elems(
            src,
            pos + encode_utf8(arr_head(items, k, indent, pretty, width)).len(),
            depth,
            items.take(k),
        ) == Ok::<(ValueView, nat), LoadFault>(
            (
                ValueView::Block(items),
                pos + encode_utf8(child_text(ValueView::Block(items), indent, pretty, width)).len(),
            ),
        ),
    decreases items, items.len() - k,
{
    lemma_arr_step(src, pos, items, k, indent, pretty, width, depth);
    if k + 1 < items.len() {
        assert(items.take(k).push(items[k]) =~= items.take(k + 1));
        lemma_elems(src, pos, items, k + 1, indent, pretty, width, depth);
    } else {
        assert(items.take(k).push(items[k]) =~= items);
    }
}

#[verifier::spinoff_prover]
#[verifier::rlimit(100)]
proof fn lemma_object(
    src: Seq<u8>,
    pos: nat,
    entries: Seq<(KeyView, ValueView)>,
    indent: nat,
    pretty: bool,
    width: nat,
    depth: nat,
)
    requires
        entries_data(entries),
        depth + height(ValueView::MapVal(entries)) <= MAX_JSON_DEPTH,
        at_text(src, pos as int, child_text(ValueView::MapVal(entries), indent, pretty, width)),
    ensures
        spec_object(src, pos, depth) == Ok::<(ValueView, nat), LoadFault>(
            (
                ValueView::MapVal(entries),
                pos + encode_utf8(child_text(ValueView::MapVal(entries), indent, pretty, width)).len(),
            ),
        ),
    decreases entries, entries.len() + 1,
{
    lemma_map_text(entries, indent, pretty, width);
    let t = child_text(ValueView::MapVal(entries), indent, pretty, width);
    let body = json_keyed(entries, indent, pretty, width)->Ok_0;
    assert(t == bracketed('{', '}', body, entries.len(), pretty, indent));
    if entries.len() == 0 {
        assert(t =~= seq!['{', '}']);
        assert(ascii(t));
        lemma_ascii_bytes(t);
        lemma_at_byte(src, pos as int, encode_utf8(t), 0);
        lemma_at_byte(src, pos as int, encode_utf8(t), 1);
        lemma_skip_ws_run(src, pos + 1, pos + 1);
        assert(entries =~= Seq::<(KeyView, ValueView)>::empty());
    } else {
        let c = indent + width;
        lemma_keyed_split(entries, 0, indent, pretty, width);
        assert(entries.take(0) =~= Seq::<(KeyView, ValueView)>::empty());
        let k0 = json_keyed(entries.take(0), indent, pretty, width)->Ok_0;
        assert(k0 =~= Seq::<char>::empty());
        let bi = break_indent(pretty, c);
        assert(elem_prefix(0, pretty, c) =~= bi);
        let m0 = member_of(entries[0], indent, pretty, width);
        let rest = keyed_suffix(entries, 1, indent, pretty, width) + break_indent(pretty, indent)
            + seq!['}'];
        assert(t =~= seq!['{'] + bi + (m0 + rest));
        lemma_at_text_split(src, pos as int, seq!['{'] + bi, m0 + rest);
        lemma_at_text_split(src, pos as int, seq!['{'], bi);
        lemma_break_indent(pretty, c);
        lemma_ascii_len(seq!['{']);
        let q = pos + 1 + encode_utf8(bi).len();
        lemma_at_text_split(src, (q) as int, m0, rest);
        lemma_entries_at(entries, 0);
        let s0 = entries[0].0->Str_0;
        assert(m0[0] == '"');
        lemma_first_ascii(m0);
        lemma_at_byte(src, (q) as int, encode_utf8(m0), 0);
        lemma_skip_ws_window(src, pos + 1, encode_utf8(bi));
        assert(obj_head(entries, 0, indent, pretty, width) =~= seq!['{'] + bi);
        lemma_encode_utf8_concat(seq!['{'], bi);
        lemma_members(src, pos, entries, 0, indent, pretty, width, depth);
    }
}

/// What follows the `k`-th member of an object text.
pub open spec fn obj_tail(entries: Seq<(KeyView, ValueView)>, k: int, indent: nat, pretty: bool, width: nat) -> Seq<
    char,
> {
    keyed_suffix(entries, k + 1, indent, pretty, width) + break_indent(pretty, indent) + seq!['}']
}

#[verifier::spinoff_prover]
#[verifier::rlimit(50)]
proof fn lemma_obj_layout(entries: Seq<(KeyView, ValueView)>, k: int, indent: nat, pretty: bool, width: nat)
    requires
        entries_data(entries),
        0 <= k < entries.len(),
    ensures
        child_text(ValueView::MapVal(entries), indent, pretty, width) == obj_head(
            entries,
            k,
            indent,
            pretty,
            width,
        ) + member_of(entries[k], indent, pretty, width) + obj_tail(entries, k, indent, pretty, width),
        k + 1 < entries.len() ==> obj_tail(entries, k, indent, pretty, width) == seq![','] + break_indent(
            pretty,
            indent + width,
        ) + (member_of(entries[k + 1], indent, pretty, width) + obj_tail(
            entries,
            k + 1,
            indent,
            pretty,
            width,
        )),
        k + 1 < entries.len() ==> obj_head(entries, k + 1, indent, pretty, width) == obj_head(
            entries,
            k,
            indent,
            pretty,
            width,
        ) + member_of(entries[k], indent, pretty, width) + seq![','] + break_indent(pretty, indent + width),
        k + 1 == entries.len() ==> obj_tail(entries, k, indent, pretty, width) == break_indent(pretty, indent)
            + seq!['}'],
{
    let c = indent + width;
    lemma_map_text(entries, indent, pretty, width);
    lemma_keyed_split(entries, k, indent, pretty, width);
    lemma_keyed_split(entries, k + 1, indent, pretty, width);
    let kn = json_keyed(entries, indent, pretty, width)->Ok_0;
    let kk = json_keyed(entries.take(k), indent, pretty, width)->Ok_0;
    let pk = elem_prefix(k as nat, pretty, c);
    let mk = member_of(entries[k], indent, pretty, width);
    let sk1 = keyed_suffix(entries, k + 1, indent, pretty, width);
    let bi = break_indent(pretty, indent);
    assert(kn == kk + (pk + mk + sk1));
    assert(child_text(ValueView::MapVal(entries), indent, pretty, width) =~= obj_head(
        entries,
        k,
        indent,
        pretty,
        width,
    ) + mk + obj_tail(entries, k, indent, pretty, width));
    if k + 1 < entries.len() {
        let bc = break_indent(pretty, c);
        let m1 = member_of(entries[k + 1], indent, pretty, width);
        let sk2 = keyed_suffix(entries, k + 2, indent, pretty, width);
        assert(elem_prefix((k + 1) as nat, pretty, c) =~= seq![','] + bc);
        assert(sk1 == elem_prefix((k + 1) as nat, pretty, c) + m1 + sk2);
        assert(obj_tail(entries, k, indent, pretty, width) =~= seq![','] + bc + (m1 + obj_tail(
            entries,
            k + 1,
            indent,
            pretty,
            width,
        )));
        assert(obj_head(entries, k + 1, indent, pretty, width) =~= obj_head(entries, k, indent, pretty, width)
            + mk + seq![','] + bc);
    } else {
        assert(sk1 =~= Seq::<char>::empty());
        assert(obj_tail(entries, k, indent, pretty, width) =~= bi + seq!['}']);
    }
}

/// Where the `k`-th member of an object text lies, and what follows it.
#[verifier::spinoff_prover]
proof fn lemma_obj_step(
    src: Seq<u8>,
    pos: nat,
    entries: Seq<(KeyView, ValueView)>,
    k: int,
    indent: nat,
    pretty: bool,
    width: nat,
)
    requires
        entries_data(entries),
        0 <= k < entries.len(),
        at_text(src, pos as int, child_text(ValueView::MapVal(entries), indent, pretty, width)),
    ensures
        ({
            let pk = pos + encode_utf8(obj_head(entries, k, indent, pretty, width)).len();
            let ek = pk + encode_utf8(member_of(entries[k], indent, pretty, width)).len();
            &&& at_text(src, pk as int, member_of(entries[k], indent, pretty, width))
            &&& delimited(src, ek as int)
            &&& k + 1 < entries.len() ==> {
                &&& ek < src.len()
                &&& src[ek as int] == 44
                &&& skip_ws(src, ek) == ek
                &&& skip_ws(src, ek + 1) == pos + encode_utf8(obj_head(entries, k + 1, indent, pretty, width)).len()
                &&& pk < pos + encode_utf8(obj_head(entries, k + 1, indent, pretty, width)).len() <= src.len()
            }
            &&& k + 1 == entries.len() ==> {
                &&& skip_ws(src, ek) < src.len()
                &&& src[skip_ws(src, ek) as int] == 125
                &&& skip_ws(src, ek) + 1 == pos + encode_utf8(
                    child_text(ValueView::MapVal(entries), indent, pretty, width),
                ).len()
            }
        }),
{
    let c = indent + width;
    lemma_obj_layout(entries, k, indent, pretty, width);
    let head = obj_head(entries, k, indent, pretty, width);
    let mk = member_of(entries[k], indent, pretty, width);
    let tail = obj_tail(entries, k, indent, pretty, width);
    lemma_at_text_split(src, pos as int, head + mk, tail);
    lemma_at_text_split(src, pos as int, head, mk);
    let pk = pos + encode_utf8(head).len();
    let ek = pk + encode_utf8(mk).len();
    if k + 1 < entries.len() {
        let bc = break_indent(pretty, c);
        let m1 = member_of(entries[k + 1], indent, pretty, width);
        let x = m1 + obj_tail(entries, k + 1, indent, pretty, width);
        assert(m1[0] == '"');
        lemma_first_ascii(m1);
        lemma_encode_utf8_concat(m1, obj_tail(entries, k + 1, indent, pretty, width));
        assert(encode_utf8(x)[0] == encode_utf8(m1)[0]);
        lemma_sep_next(src, ek, pretty, c, x);
        lemma_ascii_len(seq![',']);
        lemma_encode_utf8_concat(head + mk + seq![','], bc);
        lemma_encode_utf8_concat(head + mk, seq![',']);
        lemma_encode_utf8_concat(head, mk);
    } else {
        lemma_sep_close(src, ek, pretty, indent, '}');
    }
}

/// Reading the `k`-th member of an object text: its key, the colon and its
/// value.
#[verifier::spinoff_prover]
proof fn lemma_member_read(
    src: Seq<u8>,
    pk: nat,
    entries: Seq<(KeyView, ValueView)>,
    k: int,
    indent: nat,
    pretty: bool,
    width: nat,
    depth: nat,
)
    requires
        entries_data(entries),
        0 <= k < entries.len(),
        depth + height(ValueView::MapVal(entries)) <= MAX_JSON_DEPTH,
        at_text(src, pk as int, member_of(entries[k], indent, pretty, width)),
        delimited(src, (pk + encode_utf8(member_of(entries[k], indent, pretty, width)).len()) as int),
    ensures
        ({
            let key = entries[k].0->Str_0;
            let p1 = pk + encode_utf8(json_quoted(key)).len();
            &&& pk < src.len()
            &&& src[pk as int] == 34
            &&& skip_ws(src, pk) == pk
            &&& spec_string(src, pk) == Ok::<(Seq<char>, nat), LoadFault>((key, p1))
            &&& p1 < src.len()
            &&& src[p1 as int] == 58
            &&& skip_ws(src, p1) == p1
            &&& skip_ws(src, p1 + 1) >= pk
            &&& spec_value(src, skip_ws(src, p1 + 1), depth + 1) == Ok::<(ValueView, nat), LoadFault>(
                (entries[k].1, pk + encode_utf8(member_of(entries[k], indent, pretty, width)).len()),
            )
        }),
    decreases entries, 0nat,
{
    let c = indent + width;
    lemma_entries_at(entries, k);
    let key = entries[k].0->Str_0;
    let val = entries[k].1;
    let tk = child_text(val, c, pretty, width);
    let sp: Seq<char> = if pretty {
        seq![' ']
    } else {
        Seq::empty()
    };
    let quoted = json_quoted(key);
    let m = member_of(entries[k], indent, pretty, width);
    assert(map_key_text(entries[k].0) == key);
    assert(m =~= quoted + (seq![':'] + (sp + tk)));
    lemma_at_text_split(src, pk as int, quoted, seq![':'] + (sp + tk));
    let p1 = pk + encode_utf8(quoted).len();
    lemma_at_text_split(src, p1 as int, seq![':'], sp + tk);
    lemma_ascii_len(seq![':']);
    lemma_first_ascii(seq![':']);
    lemma_at_byte(src, p1 as int, encode_utf8(seq![':']), 0);
    lemma_at_text_split(src, (p1 + 1) as int, sp, tk);
    assert(ascii(sp));
    lemma_ascii_bytes(sp);
    let p3 = p1 + 1 + encode_utf8(sp).len();
    lemma_data_encodes(val, c, pretty, width);
    lemma_value_start(val, c, pretty, width);
    lemma_at_byte(src, p3 as int, encode_utf8(tk), 0);
    assert forall|i: int| 0 <= i < encode_utf8(sp).len() implies ws_byte(#[trigger] encode_utf8(sp)[i]) by {
        assert(sp[i] == ' ');
    }
    lemma_skip_ws_window(src, p1 + 1, encode_utf8(sp));
    assert(quoted[0] == '"');
    lemma_first_ascii(quoted);
    lemma_at_byte(src, pk as int, encode_utf8(quoted), 0);
    lemma_skip_ws_run(src, pk, pk);
    lemma_string(src, pk, key);
    lemma_skip_ws_run(src, p1, p1);
    assert(depth + 1 + height(val) <= MAX_JSON_DEPTH);
    lemma_value(src, p3, val, c, pretty, width, depth + 1);
}

/// Reading an object's members from the `k`-th on.
#[verifier::spinoff_prover]
#[verifier::rlimit(50)]
proof fn lemma_members(
    src: Seq<u8>,
    pos: nat,
    entries: Seq<(KeyView, ValueView)>,
    k: int,
    indent: nat,
    pretty: bool,
    width: nat,
    depth: nat,
)
    requires
        entries_data(entries),
        0 <= k < entries.len(),
        depth + height(ValueView::MapVal(entries)) <= MAX_JSON_DEPTH,
        at_text(src, pos as int, child_text(ValueView::MapVal(entries), indent, pretty, width)),
    ensures
        spec_members(
            src,
            pos + encode_utf8(obj_head(entries, k, indent, pretty, width)).len(),
            depth,
            entries.take(k),
        ) == Ok::<(ValueView, nat), LoadFault>(
            (
                ValueView::MapVal(entries),
                pos + encode_utf8(child_text(ValueView::MapVal(entries), indent, pretty, width)).len(),
            ),
        ),
    decreases entries, entries.len() - k,
{
    lemma_obj_step(src, pos, entries, k, indent, pretty, width);
    let pk = pos + encode_utf8(obj_head(entries, k, indent, pretty, width)).len();
    lemma_member_read(src, pk, entries, k, indent, pretty, width, depth);
    lemma_entries_at(entries, k);
    let key = entries[k].0->Str_0;
    let val = entries[k].1;
    assert(key_index(entries.take(k), KeyView::Str(key)) < 0);
    assert(map_set(entries.take(k), KeyView::Str(key), val) == entries.take(k).push((KeyView::Str(key), val)));
    assert(entries.take(k).push((KeyView::Str(key), val)) =~= entries.take(k + 1));
    if k + 1 < entries.len() {
        lemma_members(src, pos, entries, k + 1, indent, pretty, width, depth);
    } else {
        assert(entries.take(k + 1) =~= entries);
    }
}

// ---------------------------------------------------------------------------
// The round trip
// ---------------------------------------------------------------------------

/// `load-json` reads back what `to-json` wrote: plain JSON data (`none`,
/// logic values, integers, finite floats spelled as number literals,
/// strings, and blocks and maps of such data under
/// distinct string keys) that nests no deeper than the decoder allows has a
/// JSON text, compact or indented by any step, and decoding that text gives
/// the data again.
pub proof fn law_load_json_reads_to_json(v: ValueView, pretty: bool, width: nat)
    requires
        json_data(v),
        height(v) <= MAX_JSON_DEPTH,
    ensures
        json_value(v, 0, pretty, width) is Ok,
        spec_load(encode_utf8(json_value(v, 0, pretty, width)->Ok_0)) == Ok::<ValueView, LoadFault>(v),
{
    lemma_value_start(v, 0, pretty, width);
    reveal(child_text);
    let t = child_text(v, 0, pretty, width);
    let src = encode_utf8(t);
    assert(src.subrange(0, src.len() as int) =~= src);
    assert(at_text(src, 0, t));
    lemma_skip_ws_run(src, 0, 0);
    lemma_value(src, 0, v, 0, pretty, width, 0);
    lemma_skip_ws_run(src, src.len(), src.len());
}


// ---------------------------------------------------------------------------
// Surrogate pairs
// ---------------------------------------------------------------------------

/// The hex digit of `d` (below 16), as a byte: `a`-`f` in lowercase or
/// `A`-`F` in uppercase.
pub open spec fn hex_digit_byte(d: nat, upper: bool) -> u8 {
    if d < 10 {
        (48 + d) as u8
    } else if upper {
        (55 + d) as u8
    } else {
        (87 + d) as u8
    }
}

/// The four hex digits of `v` (below 0x10000), most significant first.
pub open spec fn hex4_bytes(v: nat, upper: bool) -> Seq<u8> {
    seq![
        hex_digit_byte(v / 4096, upper),
        hex_digit_byte(v / 256 % 16, upper),
        hex_digit_byte(v / 16 % 16, upper),
        hex_digit_byte(v % 16, upper),
    ]
}

/// The UTF-16 escape of a character above the Basic Multilingual Plane:
/// `\uHHHH\uLLLL` with the high surrogate `0xD800 + (c - 0x10000) / 0x400`
/// and the low surrogate `0xDC00 + (c - 0x10000) % 0x400`.
pub open spec fn surrogate_pair_escape(c: char, upper: bool) -> Seq<u8> {
    let u = c as u32 - 0x10000;
    seq![92u8, 117u8] + hex4_bytes((0xD800 + u / 1024) as nat, upper) + seq![92u8, 117u8] + hex4_bytes(
        (0xDC00 + u % 1024) as nat,
        upper,
    )
}

proof fn lemma_hex_digit(d: nat, upper: bool)
    requires
        d < 16,
    ensures
        hex_value(hex_digit_byte(d, upper)) == Some(d as u32),
{
}

proof fn lemma_hex4_reads(src: Seq<u8>, pos: nat, v: nat, upper: bool)
    requires
        v < 0x10000,
        pos + 4 <= src.len(),
        src.subrange(pos as int, pos + 4int) == hex4_bytes(v, upper),
    ensures
        spec_hex4(src, pos, 0, 0) == Ok::<(u32, nat), LoadFault>((v as u32, pos + 4)),
{
    let h = hex4_bytes(v, upper);
    assert forall|i: int| 0 <= i < 4 implies src[pos + i] == #[trigger] h[i] by {
        assert(src.subrange(pos as int, pos + 4int)[i] == src[pos + i]);
    }
    let d0 = v / 4096;
    let d1 = v / 256 % 16;
    let d2 = v / 16 % 16;
    let d3 = v % 16;
    lemma_hex_digit(d0, upper);
    lemma_hex_digit(d1, upper);
    lemma_hex_digit(d2, upper);
    lemma_hex_digit(d3, upper);
    assert(src[pos + 0int] == h[0]);
    assert(src[pos + 1int] == h[1]);
    assert(src[pos + 2int] == h[2]);
    assert(src[pos + 3int] == h[3]);
    assert(d0 * 16 + d1 == v / 256);
    assert((v / 256) * 16 + d2 == v / 16);
    assert((v / 16) * 16 + d3 == v);
    reveal_with_fuel(spec_hex4, 5);
}

/// A character above the Basic Multilingual Plane, written in a JSON string
/// as its UTF-16 surrogate-pair escape (as `json.dumps` writes an emoji),
/// with hex digits in either case,
/// loads back as that one character.
pub proof fn law_surrogate_pair_loads_back(c: char, upper: bool)
    requires
        c as u32 >= 0x10000,
    ensures
        spec_load(seq![34u8] + surrogate_pair_escape(c, upper) + seq![34u8]) == Ok::<ValueView, LoadFault>(
            ValueView::Str(seq![c]),
        ),
{
    let src = seq![34u8] + surrogate_pair_escape(c, upper) + seq![34u8];
    let x = c as u32;
    char_is_scalar(c);
    assert(x <= 0x10FFFF);
    let u = x - 0x10000;
    let hi: nat = (0xD800 + u / 1024) as nat;
    let lo: nat = (0xDC00 + u % 1024) as nat;
    assert(src.len() == 14);
    assert(src.subrange(3, 7) =~= hex4_bytes(hi, upper));
    assert(src.subrange(9, 13) =~= hex4_bytes(lo, upper));
    lemma_hex4_reads(src, 3, hi, upper);
    lemma_hex4_reads(src, 9, lo, upper);
    assert(src[0] == 34u8 && src[1] == 92u8 && src[2] == 117u8 && src[7] == 92u8 && src[8] == 117u8
        && src[13] == 34u8);
    assert(0xD800 <= hi <= 0xDBFF);
    assert(0xDC00 <= lo <= 0xDFFF);
    assert(0x10000 + (hi - 0xD800) * 1024 + (lo - 0xDC00) == x);
    char_u32_cast(c, x);
    assert(spec_unicode_escape(src, 3) == Ok::<(char, nat), LoadFault>((c, 13)));
    assert(spec_string_body(src, 13, seq![c]) == Ok::<(Seq<char>, nat), LoadFault>((seq![c], 14)));
    assert(Seq::<char>::empty().push(c) =~= seq![c]);
    assert(spec_string_body(src, 1, Seq::empty()) == Ok::<(Seq<char>, nat), LoadFault>((seq![c], 14)));
    assert(skip_ws(src, 0) == 0);
    assert(spec_value(src, 0, 0) == Ok::<(ValueView, nat), LoadFault>((ValueView::Str(seq![c]), 14)));
    assert(skip_ws(src, 14) == 14);
}


/// A character of the Basic Multilingual Plane, written in a JSON string
/// as `\uHHHH` with its code point in four hex digits of either case, loads
/// back as that one character.
pub proof fn law_bmp_escape_loads_back(c: char, upper: bool)
    requires
        (c as u32) < 0x10000,
    ensures
        spec_load(seq![34u8, 92u8, 117u8] + hex4_bytes(c as u32 as nat, upper) + seq![34u8]) == Ok::<
            ValueView,
            LoadFault,
        >(ValueView::Str(seq![c])),
{
    let src = seq![34u8, 92u8, 117u8] + hex4_bytes(c as u32 as nat, upper) + seq![34u8];
    let x = c as u32;
    char_is_scalar(c);
    assert(!(0xD800 <= x <= 0xDFFF));
    assert(src.len() == 8);
    assert(src.subrange(3, 7) =~= hex4_bytes(x as nat, upper));
    lemma_hex4_reads(src, 3, x as nat, upper);
    assert(src[0] == 34u8 && src[1] == 92u8 && src[2] == 117u8 && src[7] == 34u8);
    char_u32_cast(c, x);
    assert(spec_unicode_escape(src, 3) == Ok::<(char, nat), LoadFault>((c, 7)));
    assert(spec_string_body(src, 7, seq![c]) == Ok::<(Seq<char>, nat), LoadFault>((seq![c], 8)));
    assert(Seq::<char>::empty().push(c) =~= seq![c]);
    assert(spec_string_body(src, 1, Seq::empty()) == Ok::<(Seq<char>, nat), LoadFault>((seq![c], 8)));
    assert(skip_ws(src, 0) == 0);
    assert(spec_value(src, 0, 0) == Ok::<(ValueView, nat), LoadFault>((ValueView::Str(seq![c]), 8)));
    assert(skip_ws(src, 8) == 8);
}

// ---------------------------------------------------------------------------
// Dates
// ---------------------------------------------------------------------------

/// Characters that JSON escaping leaves as they are: digits, `-`, `T`, `:`,
/// `Z`, `+`.
pub open spec fn plain_date_chars(s: Seq<char>) -> bool {
    forall|i: int|
        0 <= i < s.len() ==> (#[trigger] s[i] == '-' || s[i] == 'T' || s[i] == ':' || s[i] == 'Z'
            || s[i] == '+' || ('0' <= s[i] && s[i] <= '9'))
}

proof fn lemma_escape_plain(s: Seq<char>)
    requires
        plain_date_chars(s),
    ensures
        json_escape(s) == s,
    decreases s.len(),
{
    if s.len() > 0 {
        assert(plain_date_chars(s.drop_last())) by {
            assert forall|i: int| 0 <= i < s.drop_last().len() implies (#[trigger] s.drop_last()[i] == '-'
                || s.drop_last()[i] == 'T' || s.drop_last()[i] == ':' || s.drop_last()[i] == 'Z'
                || s.drop_last()[i] == '+' || ('0' <= s.drop_last()[i] && s.drop_last()[i] <= '9')) by {
                assert(s.drop_last()[i] == s[i]);
            }
        }
        lemma_escape_plain(s.drop_last());
        assert(s[s.len() - 1] == s.last());
        assert(json_escape_char(s.last()) == seq![s.last()]);
        assert(s.drop_last().push(s.last()) =~= s);
    } else {
        assert(s =~= Seq::<char>::empty());
    }
}

/// The digit character of `d` (below 10).
proof fn lemma_digit(d: nat)
    requires
        d < 10,
    ensures
        digit_char(d) as u32 == d + 48,
        '0' <= digit_char(d) <= '9',
{
}

proof fn lemma_two_digits(n: nat)
    requires
        n < 100,
    ensures
        zero_pad(nat_text(n), 2) == seq![digit_char(n / 10), digit_char(n % 10)],
{
    reveal_with_fuel(nat_text, 2);
    if n < 10 {
        lemma_digit(0);
        assert(digit_char(0) == '0');
        assert(zero_pad(nat_text(n), 2) =~= seq![digit_char(n / 10), digit_char(n % 10)]);
    } else {
        assert(nat_text(n) =~= seq![digit_char(n / 10), digit_char(n % 10)]);
    }
}

proof fn lemma_four_digits(n: nat)
    requires
        n < 10000,
    ensures
        zero_pad(nat_text(n), 4) == seq![
            digit_char(n / 1000),
            digit_char(n / 100 % 10),
            digit_char(n / 10 % 10),
            digit_char(n % 10),
        ],
{
    reveal_with_fuel(nat_text, 4);
    lemma_digit(0);
    assert(digit_char(0) == '0');
    let want = seq![digit_char(n / 1000), digit_char(n / 100 % 10), digit_char(n / 10 % 10), digit_char(n % 10)];
    if n < 10 {
        assert(zero_pad(nat_text(n), 4) =~= want);
    } else if n < 100 {
        assert(nat_text(n / 10) == seq![digit_char(n / 10)]);
        assert(zero_pad(nat_text(n), 4) =~= want);
    } else if n < 1000 {
        assert(n / 10 / 10 == n / 100);
        assert(n / 10 % 10 == n / 10 % 10);
        assert(nat_text(n / 100) == seq![digit_char(n / 100)]);
        assert(zero_pad(nat_text(n), 4) =~= want);
    } else {
        assert(n / 10 / 10 == n / 100);
        assert(n / 100 / 10 == n / 1000);
        assert(nat_text(n / 1000) == seq![digit_char(n / 1000)]);
        assert(zero_pad(nat_text(n), 4) =~= want);
    }
}

/// `YYYY-MM-DD` of a date with a year below 10000.
pub open spec fn iso_day(d: DateValue) -> Seq<char> {
    let y = d.year as nat;
    let m = d.month as nat;
    let dd = d.day as nat;
    seq![
        digit_char(y / 1000),
        digit_char(y / 100 % 10),
        digit_char(y / 10 % 10),
        digit_char(y % 10),
        '-',
        digit_char(m / 10),
        digit_char(m % 10),
        '-',
        digit_char(dd / 10),
        digit_char(dd % 10),
    ]
}

proof fn lemma_date_text_head(d: DateValue)
    requires
        0 <= d.year <= 9999,
        d.month < 100,
        d.day < 100,
    ensures
        crate::json::date_text(d).len() >= 10,
        crate::json::date_text(d).subrange(0, 10) == iso_day(d),
{
    let y = d.year as nat;
    let m = d.month as nat;
    let dd = d.day as nat;
    lemma_four_digits(y);
    lemma_two_digits(m);
    lemma_two_digits(dd);
    let dt = crate::json::date_text(d);
    assert(crate::json::year_text(d.year) == zero_pad(nat_text(y), 4));
    assert(dt.subrange(0, 10) =~= iso_day(d));
}

proof fn lemma_iso_day_plain(d: DateValue)
    requires
        0 <= d.year <= 9999,
        d.month < 100,
        d.day < 100,
    ensures
        plain_date_chars(iso_day(d)),
        iso_day(d).len() == 10,
{
    let y = d.year as nat;
    let m = d.month as nat;
    let dd = d.day as nat;
    lemma_digit(y / 1000);
    lemma_digit(y / 100 % 10);
    lemma_digit(y / 10 % 10);
    lemma_digit(y % 10);
    lemma_digit(m / 10);
    lemma_digit(m % 10);
    lemma_digit(dd / 10);
    lemma_digit(dd % 10);
}

proof fn lemma_quoted_head(dt: Seq<char>, head: Seq<char>)
    requires
        dt.len() >= head.len(),
        dt.subrange(0, head.len() as int) == head,
        plain_date_chars(head),
    ensures
        json_quoted(dt).len() >= head.len() + 1,
        json_quoted(dt)[0] == '"',
        forall|i: int| 0 <= i < head.len() ==> json_quoted(dt)[i + 1] == #[trigger] head[i],
{
    let rest = dt.subrange(head.len() as int, dt.len() as int);
    assert(dt =~= head + rest);
    lemma_escape_plain(head);
    lemma_escape_concat(head, rest);
    let t = json_quoted(dt);
    assert(t =~= seq!['"'] + (head + json_escape(rest)) + seq!['"']);
}

/// A date's JSON text is the ISO 8601 string `"YYYY-MM-DD..."`: after the
/// quote, the four digits of the year, `-`, the two digits of the month,
/// `-`, the two digits of the day.
pub proof fn law_date_json_is_iso(d: DateValue, indent: nat, pretty: bool, width: nat)
    requires
        0 <= d.year <= 9999,
        1 <= d.month <= 12,
        1 <= d.day <= 31,
    ensures
        json_value(ValueView::Date(d), indent, pretty, width) matches Ok(t) && t.len() >= 11 && t[0]
            == '"' && t[1] as u32 == 48 + d.year / 1000 && t[2] as u32 == 48 + d.year / 100 % 10 && t[3]
            as u32 == 48 + d.year / 10 % 10 && t[4] as u32 == 48 + d.year % 10 && t[5] == '-' && t[6]
            as u32 == 48 + d.month / 10 && t[7] as u32 == 48 + d.month % 10 && t[8] == '-' && t[9] as u32
            == 48 + d.day / 10 && t[10] as u32 == 48 + d.day % 10,
{
    let dt = crate::json::date_text(d);
    lemma_date_text_head(d);
    lemma_iso_day_plain(d);
    lemma_quoted_head(dt, iso_day(d));
    let y = d.year as nat;
    let m = d.month as nat;
    let dd = d.day as nat;
    lemma_digit(y / 1000);
    lemma_digit(y / 100 % 10);
    lemma_digit(y / 10 % 10);
    lemma_digit(y % 10);
    lemma_digit(m / 10);
    lemma_digit(m % 10);
    lemma_digit(dd / 10);
    lemma_digit(dd % 10);
    let t = json_quoted(dt);
    assert(json_value(ValueView::Date(d), indent, pretty, width) == Ok::<Seq<char>, crate::json::EncodeFault>(t));
    let h = iso_day(d);
    assert(t[1] == h[0] && t[2] == h[1] && t[3] == h[2] && t[4] == h[3] && t[5] == h[4]);
    assert(t[6] == h[5] && t[7] == h[6] && t[8] == h[7] && t[9] == h[8] && t[10] == h[9]);
}


/// `THH:MM:SS` of a time of day.
pub open spec fn iso_time(h: u8, mi: u8, sec: u8) -> Seq<char> {
    seq![
        'T',
        digit_char(h as nat / 10),
        digit_char(h as nat % 10),
        ':',
        digit_char(mi as nat / 10),
        digit_char(mi as nat % 10),
        ':',
        digit_char(sec as nat / 10),
        digit_char(sec as nat % 10),
    ]
}

proof fn lemma_time_text(h: u8, mi: u8, sec: u8)
    requires
        h < 100,
        mi < 100,
        sec < 100,
    ensures
        seq!['T'] + crate::json::two_digits(h as nat) + seq![':'] + crate::json::two_digits(mi as nat)
            + seq![':'] + crate::json::two_digits(sec as nat) == iso_time(h, mi, sec),
        plain_date_chars(iso_time(h, mi, sec)),
{
    lemma_two_digits(h as nat);
    lemma_two_digits(mi as nat);
    lemma_two_digits(sec as nat);
    lemma_digit(h as nat / 10);
    lemma_digit(h as nat % 10);
    lemma_digit(mi as nat / 10);
    lemma_digit(mi as nat % 10);
    lemma_digit(sec as nat / 10);
    lemma_digit(sec as nat % 10);
    assert(seq!['T'] + crate::json::two_digits(h as nat) + seq![':'] + crate::json::two_digits(mi as nat)
        + seq![':'] + crate::json::two_digits(sec as nat) =~= iso_time(h, mi, sec));
}

proof fn lemma_plain_concat(a: Seq<char>, b: Seq<char>)
    requires
        plain_date_chars(a),
        plain_date_chars(b),
    ensures
        plain_date_chars(a + b),
{
    assert forall|i: int| 0 <= i < (a + b).len() implies (#[trigger] (a + b)[i] == '-' || (a + b)[i]
        == 'T' || (a + b)[i] == ':' || (a + b)[i] == 'Z' || (a + b)[i] == '+' || ('0' <= (a + b)[i]
        && (a + b)[i] <= '9')) by {
        if i < a.len() {
            assert((a + b)[i] == a[i]);
        } else {
            assert((a + b)[i] == b[i - a.len()]);
        }
    }
}

proof fn lemma_date_time_head(d: DateValue, h: u8, mi: u8, sec: u8)
    requires
        0 <= d.year <= 9999,
        d.month < 100,
        d.day < 100,
        d.time == Some((h, mi, sec)),
        h < 100,
        mi < 100,
        sec < 100,
    ensures
        crate::json::date_text(d).len() >= 19,
        crate::json::date_text(d).subrange(0, 19) == iso_day(d) + iso_time(h, mi, sec),
        plain_date_chars(iso_day(d) + iso_time(h, mi, sec)),
{
    let dt = crate::json::date_text(d);
    lemma_date_text_head(d);
    lemma_iso_day_plain(d);
    lemma_time_text(h, mi, sec);
    lemma_plain_concat(iso_day(d), iso_time(h, mi, sec));
    let y = d.year as nat;
    lemma_four_digits(y);
    lemma_two_digits(d.month as nat);
    lemma_two_digits(d.day as nat);
    let day_part = crate::json::year_text(d.year) + seq!['-'] + crate::json::two_digits(d.month as nat)
        + seq!['-'] + crate::json::two_digits(d.day as nat);
    let time_part = seq!['T'] + crate::json::two_digits(h as nat) + seq![':'] + crate::json::two_digits(
        mi as nat,
    ) + seq![':'] + crate::json::two_digits(sec as nat);
    assert(crate::json::year_text(d.year) == zero_pad(nat_text(y), 4));
    assert(day_part =~= iso_day(d));
    assert(dt == day_part + time_part + crate::json::zone_text(d.zone));
    assert(dt =~= (iso_day(d) + iso_time(h, mi, sec)) + crate::json::zone_text(d.zone));
    assert(dt.subrange(0, 19) =~= iso_day(d) + iso_time(h, mi, sec));
}

/// A date with a time of day writes it after the day, ISO 8601 style:
/// `T`, the two digits of the hour, `:`, of the minute, `:`, of the second.
#[verifier::spinoff_prover]
#[verifier::rlimit(40)]
pub proof fn law_date_time_json_is_iso(d: DateValue, indent: nat, pretty: bool, width: nat)
    requires
        0 <= d.year <= 9999,
        1 <= d.month <= 12,
        1 <= d.day <= 31,
        d.time matches Some((h, mi, sec)) && h < 24 && mi < 60 && sec < 60,
    ensures
        json_value(ValueView::Date(d), indent, pretty, width) matches Ok(t) && t.len() >= 20 && ({
            let (h, mi, sec) = d.time->Some_0;
            &&& t[11] == 'T'
            &&& t[12] as u32 == 48 + h / 10 && t[13] as u32 == 48 + h % 10
            &&& t[14] == ':'
            &&& t[15] as u32 == 48 + mi / 10 && t[16] as u32 == 48 + mi % 10
            &&& t[17] == ':'
            &&& t[18] as u32 == 48 + sec / 10 && t[19] as u32 == 48 + sec % 10
        }),
{
    let (h, mi, sec) = d.time->Some_0;
    let dt = crate::json::date_text(d);
    lemma_date_time_head(d, h, mi, sec);
    let hd = iso_day(d) + iso_time(h, mi, sec);
    lemma_quoted_head(dt, hd);
    lemma_digit(h as nat / 10);
    lemma_digit(h as nat % 10);
    lemma_digit(mi as nat / 10);
    lemma_digit(mi as nat % 10);
    lemma_digit(sec as nat / 10);
    lemma_digit(sec as nat % 10);
    let t = json_quoted(dt);
    assert(json_value(ValueView::Date(d), indent, pretty, width) == Ok::<Seq<char>, crate::json::EncodeFault>(t));
    let it = iso_time(h, mi, sec);
    assert forall|i: int| 0 <= i < 9 implies t[i + 11] == #[trigger] it[i] by {
        assert(hd[i + 10] == it[i]);
        assert(t[(i + 10) + 1] == hd[i + 10]);
    }
    assert(t[11] == it[0] && t[12] == it[1] && t[13] == it[2] && t[14] == it[3] && t[15] == it[4]);
    assert(t[16] == it[5] && t[17] == it[6] && t[18] == it[7] && t[19] == it[8]);
}


/// `Z`, or the sign of a zone offset (in minutes) and `HH:MM` of its size.
pub open spec fn iso_zone(z: i32) -> Seq<char> {
    let m: nat = if z < 0 {
        (-z) as nat
    } else {
        z as nat
    };
    if z == 0 {
        seq!['Z']
    } else {
        seq![
            if z < 0 {
                '-'
            } else {
                '+'
            },
            digit_char(m / 60 / 10),
            digit_char(m / 60 % 10),
            ':',
            digit_char(m % 60 / 10),
            digit_char(m % 60 % 10),
        ]
    }
}

proof fn lemma_zone_text(z: i32)
    requires
        -6000 < z < 6000,
    ensures
        crate::json::zone_text(Some(z)) == iso_zone(z),
        plain_date_chars(iso_zone(z)),
{
    let m: nat = if z < 0 {
        (-z) as nat
    } else {
        z as nat
    };
    if z != 0 {
        lemma_two_digits(m / 60);
        lemma_two_digits(m % 60);
        lemma_digit(m / 60 / 10);
        lemma_digit(m / 60 % 10);
        lemma_digit(m % 60 / 10);
        lemma_digit(m % 60 % 10);
        assert(crate::json::zone_text(Some(z)) =~= iso_zone(z));
    }
}

proof fn lemma_date_zone_head(d: DateValue, z: i32)
    requires
        0 <= d.year <= 9999,
        d.month < 100,
        d.day < 100,
        d.time is None,
        d.zone == Some(z),
        -6000 < z < 6000,
    ensures
        crate::json::date_text(d).len() >= (iso_day(d) + iso_zone(z)).len(),
        crate::json::date_text(d).subrange(0, (iso_day(d) + iso_zone(z)).len() as int) == iso_day(d)
            + iso_zone(z),
        plain_date_chars(iso_day(d) + iso_zone(z)),
{
    let dt = crate::json::date_text(d);
    lemma_iso_day_plain(d);
    lemma_zone_text(z);
    let y = d.year as nat;
    lemma_four_digits(y);
    lemma_two_digits(d.month as nat);
    lemma_two_digits(d.day as nat);
    let day_part = crate::json::year_text(d.year) + seq!['-'] + crate::json::two_digits(d.month as nat)
        + seq!['-'] + crate::json::two_digits(d.day as nat);
    assert(crate::json::year_text(d.year) == zero_pad(nat_text(y), 4));
    assert(day_part =~= iso_day(d));
    assert(dt =~= iso_day(d) + iso_zone(z));
    lemma_plain_concat(iso_day(d), iso_zone(z));
    let hd = iso_day(d) + iso_zone(z);
    assert(dt.subrange(0, hd.len() as int) =~= hd);
}

/// A date with a zone and no time of day writes the zone right after the
/// day: `Z` for UTC, else the offset's sign, then `HH:MM` of its size.
#[verifier::spinoff_prover]
pub proof fn law_date_zone_json_is_iso(d: DateValue, indent: nat, pretty: bool, width: nat)
    requires
        0 <= d.year <= 9999,
        1 <= d.month <= 12,
        1 <= d.day <= 31,
        d.time is None,
        d.zone matches Some(z) && -6000 < z < 6000,
    ensures
        json_value(ValueView::Date(d), indent, pretty, width) matches Ok(t) && ({
            let z = d.zone->Some_0;
            let m: int = if z < 0 {
                -z
            } else {
                z as int
            };
            if z == 0 {
                t.len() >= 12 && t[11] == 'Z'
            } else {
                &&& t.len() >= 17
                &&& t[11] == (if z < 0 {
                    '-'
                } else {
                    '+'
                })
                &&& t[12] as u32 == 48 + m / 60 / 10 && t[13] as u32 == 48 + m / 60 % 10
                &&& t[14] == ':'
                &&& t[15] as u32 == 48 + m % 60 / 10 && t[16] as u32 == 48 + m % 60 % 10
            }
        }),
{
    let z = d.zone->Some_0;
    let dt = crate::json::date_text(d);
    lemma_date_zone_head(d, z);
    let hd = iso_day(d) + iso_zone(z);
    lemma_quoted_head(dt, hd);
    let m: nat = if z < 0 {
        (-z) as nat
    } else {
        z as nat
    };
    let iz = iso_zone(z);
    if z != 0 {
        lemma_digit(m / 60 / 10);
        lemma_digit(m / 60 % 10);
        lemma_digit(m % 60 / 10);
        lemma_digit(m % 60 % 10);
    }
    let t = json_quoted(dt);
    assert(json_value(ValueView::Date(d), indent, pretty, width) == Ok::<Seq<char>, crate::json::EncodeFault>(t));
    assert forall|i: int| 0 <= i < iz.len() implies t[i + 11] == #[trigger] iz[i] by {
        assert(hd[i + 10] == iz[i]);
        assert(t[(i + 10) + 1] == hd[i + 10]);
    }
    assert(t[11] == iz[0]);
    if z != 0 {
        assert(t[12] == iz[1] && t[13] == iz[2] && t[14] == iz[3] && t[15] == iz[4] && t[16] == iz[5]);
    }
}

} // verus!
