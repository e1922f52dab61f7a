//! What `to-json` promises of its text beyond reading back: a value that
//! holds an unencodable part at any depth is refused, string literals hold
//! no control character and read back as the string, and compact text is
//! one line.
use vstd::prelude::*;
use vstd::utf8::encode_utf8;

use crate::json::{
    bracketed, break_indent, decimal_display, decimal_json, elem_prefix, hex_lower, json_bytes,
    json_elems, json_escape, json_escape_char, json_fields, json_keyed, json_quoted, json_value,
    map_key_text, member_text, null_text, self_word, EncodeFault,
};
use crate::json_decode::{spec_load, LoadFault};
use crate::json_laws::{height, json_data, law_load_json_reads_to_json};
use crate::text::{digit_char, int_text, nat_text};
use crate::value::{KeyView, ValueView};

verus! {

// ---------------------------------------------------------------------------
// Unencodable parts
// ---------------------------------------------------------------------------

/// `v` holds, at any depth, a value with no JSON text: a bitset, an error
/// or an opaque value (an object's `self` field is not written, so it does
/// not count).
pub open spec fn unencodable_in(v: ValueView) -> bool
    decreases v,
{
    match v {
        ValueView::Bitset(_) => true,
        ValueView::Error(_) => true,
        ValueView::Other(_) => true,
        ValueView::Block(items) => items_unencodable(items),
        ValueView::Paren(items) => items_unencodable(items),
        ValueView::MapVal(entries) => entries_unencodable(entries),
        ValueView::Hash(entries) => entries_unencodable(entries),
        ValueView::Object(fields) => fields_unencodable(fields),
        ValueView::Pair(x, y) => unencodable_in(*x) || unencodable_in(*y),
        _ => false,
    }
}

pub open spec fn items_unencodable(items: Seq<ValueView>) -> bool
    decreases items,
{
    items.len() > 0 && (items_unencodable(items.drop_last()) || unencodable_in(items.last()))
}

pub open spec fn entries_unencodable(entries: Seq<(KeyView, ValueView)>) -> bool
    decreases entries,
{
    entries.len() > 0 && (entries_unencodable(entries.drop_last()) || unencodable_in(entries.last().1))
}

pub open spec fn fields_unencodable(fields: Seq<(Seq<char>, ValueView)>) -> bool
    decreases fields,
{
    fields.len() > 0 && (fields_unencodable(fields.drop_last()) || (fields.last().0 != self_word()
        && unencodable_in(fields.last().1)))
}

/// A value holding an unencodable part at any depth has no JSON text.
pub proof fn law_unencodable_fails(v: ValueView, indent: nat, pretty: bool, width: nat)
    requires
        unencodable_in(v),
    ensures
        json_value(v, indent, pretty, width) is Err,
    decreases v,
{
    match v {
        ValueView::Block(items) => lemma_items_fail(items, indent, pretty, width),
        ValueView::Paren(items) => lemma_items_fail(items, indent, pretty, width),
        ValueView::MapVal(entries) => lemma_entries_fail(entries, indent, pretty, width),
        ValueView::Hash(entries) => lemma_entries_fail(entries, indent, pretty, width),
        ValueView::Object(fields) => lemma_fields_fail(fields, indent, pretty, width),
        ValueView::Pair(x, y) => {
            if unencodable_in(*x) {
                law_unencodable_fails(*x, indent + width, pretty, width);
            } else {
                law_unencodable_fails(*y, indent + width, pretty, width);
            }
        },
        _ => {},
    }
}

proof fn lemma_items_fail(items: Seq<ValueView>, indent: nat, pretty: bool, width: nat)
    requires
        items_unencodable(items),
    ensures
        json_elems(items, indent, pretty, width) is Err,
    decreases items,
{
    if items_unencodable(items.drop_last()) {
        lemma_items_fail(items.drop_last(), indent, pretty, width);
    } else {
        law_unencodable_fails(items.last(), indent + width, pretty, width);
    }
}

proof fn lemma_entries_fail(entries: Seq<(KeyView, ValueView)>, indent: nat, pretty: bool, width: nat)
    requires
        entries_unencodable(entries),
    ensures
        json_keyed(entries, indent, pretty, width) is Err,
    decreases entries,
{
    if entries_unencodable(entries.drop_last()) {
        lemma_entries_fail(entries.drop_last(), indent, pretty, width);
    } else {
        law_unencodable_fails(entries.last().1, indent + width, pretty, width);
    }
}

proof fn lemma_fields_fail(fields: Seq<(Seq<char>, ValueView)>, indent: nat, pretty: bool, width: nat)
    requires
        fields_unencodable(fields),
    ensures
        json_fields(fields, indent, pretty, width) is Err,
    decreases fields,
{
    if fields_unencodable(fields.drop_last()) {
        lemma_fields_fail(fields.drop_last(), indent, pretty, width);
    } else {
        law_unencodable_fails(fields.last().1, indent + width, pretty, width);
    }
}

// ---------------------------------------------------------------------------
// String literals
// ---------------------------------------------------------------------------

/// No character of `t` is a control character (below U+0020).
pub open spec fn control_free(t: Seq<char>) -> bool {
    forall|i: int| 0 <= i < t.len() ==> #[trigger] (t[i] as u32) >= 0x20
}

proof fn lemma_hex_lower(d: nat)
    requires
        d < 16,
    ensures
        (hex_lower(d) as u32) >= 0x30,
{
    if d < 10 {
        assert(digit_char(d) as u32 == d + 48);
    } else {
        assert(((d - 10 + 97) as u32) as char as u32 == d - 10 + 97);
    }
}

proof fn lemma_escape_char_clean(c: char)
    ensures
        control_free(json_escape_char(c)),
{
    let u = c as u32;
    if c != '"' && c != '\\' && c != '\n' && c != '\t' && c != '\r' && c != '\u{08}' && c != '\u{0C}'
        && u < 0x20 {
        lemma_hex_lower((u / 16) as nat);
        lemma_hex_lower((u % 16) as nat);
    }
}

proof fn lemma_escape_clean(s: Seq<char>)
    ensures
        control_free(json_escape(s)),
    decreases s.len(),
{
    if s.len() > 0 {
        lemma_escape_clean(s.drop_last());
        lemma_escape_char_clean(s.last());
        let p = json_escape(s.drop_last());
        let q = json_escape_char(s.last());
        let e = json_escape(s);
        assert forall|i: int| 0 <= i < e.len() implies #[trigger] (e[i] as u32) >= 0x20 by {
            if i < p.len() {
                assert(e[i] == p[i]);
            } else {
                assert(e[i] == q[i - p.len()]);
            }
        }
    }
}

/// `encode_string`'s literal: it holds no control character, a character
/// other than `"`, `\` and the control characters stands for itself, and
/// `load-json` reads the literal back as the string.
pub proof fn law_json_string_literal(s: Seq<char>, c: char)
    ensures
        control_free(json_escape(s)),
        c != '"' && c != '\\' && (c as u32) >= 0x20 ==> json_escape_char(c) == seq![c],
        json_value(ValueView::Str(s), 0, false, 0) == Ok::<Seq<char>, EncodeFault>(json_quoted(s)),
        spec_load(encode_utf8(json_quoted(s))) == Ok::<ValueView, LoadFault>(ValueView::Str(s)),
{
    lemma_escape_clean(s);
    law_load_json_reads_to_json(ValueView::Str(s), false, 0);
}

// ---------------------------------------------------------------------------
// Compact text is one line
// ---------------------------------------------------------------------------

/// No character of `t` is a line feed.
pub open spec fn lf_free(t: Seq<char>) -> bool {
    forall|i: int| 0 <= i < t.len() ==> #[trigger] t[i] != '\n'
}

/// The float spellings inside `v` (floats, percents and durations, whose
/// text the host writes) hold no line feed, as a number's spelling never
/// does.
pub open spec fn spellings_lf_free(v: ValueView) -> bool
    decreases v,
{
    match v {
        ValueView::Float(f) => lf_free(f.text),
        ValueView::Percent(f) => lf_free(f.text),
        ValueView::Duration(f) => lf_free(f.text),
        ValueView::Block(items) => items_lf_free(items),
        ValueView::Paren(items) => items_lf_free(items),
        ValueView::MapVal(entries) => entries_lf_free(entries),
        ValueView::Hash(entries) => entries_lf_free(entries),
        ValueView::Object(fields) => fields_lf_free(fields),
        ValueView::Pair(x, y) => spellings_lf_free(*x) && spellings_lf_free(*y),
        _ => true,
    }
}

pub open spec fn items_lf_free(items: Seq<ValueView>) -> bool
    decreases items,
{
    items.len() == 0 || (items_lf_free(items.drop_last()) && spellings_lf_free(items.last()))
}

pub open spec fn entries_lf_free(entries: Seq<(KeyView, ValueView)>) -> bool
    decreases entries,
{
    entries.len() == 0 || (entries_lf_free(entries.drop_last()) && spellings_lf_free(entries.last().1))
}

pub open spec fn fields_lf_free(fields: Seq<(Seq<char>, ValueView)>) -> bool
    decreases fields,
{
    fields.len() == 0 || (fields_lf_free(fields.drop_last()) && spellings_lf_free(fields.last().1))
}

proof fn lemma_concat_lf(a: Seq<char>, b: Seq<char>)
    requires
        lf_free(a),
        lf_free(b),
    ensures
        lf_free(a + b),
{
    assert forall|i: int| 0 <= i < (a + b).len() implies #[trigger] (a + b)[i] != '\n' by {
        if i < a.len() {
            assert((a + b)[i] == a[i]);
        } else {
            assert((a + b)[i] == b[i - a.len()]);
        }
    }
}

proof fn lemma_quoted_lf(s: Seq<char>)
    ensures
        lf_free(json_quoted(s)),
{
    lemma_escape_clean(s);
    let e = json_escape(s);
    assert(lf_free(e)) by {
        assert forall|i: int| 0 <= i < e.len() implies #[trigger] e[i] != '\n' by {
            assert((e[i] as u32) >= 0x20);
        }
    }
    lemma_concat_lf(seq!['"'], e);
    lemma_concat_lf(seq!['"'] + e, seq!['"']);
}

proof fn lemma_nat_text_lf(n: nat)
    ensures
        lf_free(nat_text(n)),
    decreases n,
{
    if n >= 10 {
        lemma_nat_text_lf(n / 10);
        assert(digit_char(n % 10) as u32 == (n % 10) + 48);
        lemma_concat_lf(nat_text(n / 10), seq![digit_char(n % 10)]);
        assert(nat_text(n / 10).push(digit_char(n % 10)) =~= nat_text(n / 10) + seq![digit_char(n % 10)]);
    } else {
        assert(digit_char(n) as u32 == n + 48);
    }
}

proof fn lemma_int_text_lf(n: int)
    ensures
        lf_free(int_text(n)),
{
    if n < 0 {
        lemma_nat_text_lf((-n) as nat);
        lemma_concat_lf(seq!['-'], nat_text((-n) as nat));
    } else {
        lemma_nat_text_lf(n as nat);
    }
}

proof fn lemma_prefix_lf(k: nat, indent: nat)
    ensures
        lf_free(elem_prefix(k, false, indent)),
{
}

proof fn lemma_bracketed_lf(open: char, close: char, body: Seq<char>, count: nat, indent: nat)
    requires
        lf_free(body),
        open != '\n',
        close != '\n',
    ensures
        lf_free(bracketed(open, close, body, count, false, indent)),
{
    if count > 0 {
        assert(break_indent(false, indent) =~= Seq::<char>::empty());
        lemma_concat_lf(seq![open], body);
        assert(seq![open] + body + break_indent(false, indent) =~= seq![open] + body);
        lemma_concat_lf(seq![open] + body, seq![close]);
    }
}

proof fn lemma_member_lf(key: Seq<char>, val: Seq<char>)
    requires
        lf_free(val),
    ensures
        lf_free(member_text(key, val, false)),
{
    lemma_quoted_lf(key);
    lemma_concat_lf(json_quoted(key), seq![':']);
    assert(json_quoted(key) + seq![':'] + Seq::<char>::empty() =~= json_quoted(key) + seq![':']);
    lemma_concat_lf(json_quoted(key) + seq![':'], val);
}

proof fn lemma_decimal_display_lf(mantissa: i128, scale: u32)
    ensures
        lf_free(decimal_display(mantissa, scale)),
{
    reveal(decimal_display);
    let mag: nat = if mantissa < 0 {
        (-mantissa) as nat
    } else {
        mantissa as nat
    };
    let d = if mag == 0 {
        Seq::<char>::empty()
    } else {
        nat_text(mag)
    };
    if mag != 0 {
        lemma_nat_text_lf(mag);
    }
    let p = if d.len() >= scale {
        d
    } else {
        Seq::new((scale - d.len()) as nat, |i: int| '0') + d
    };
    if d.len() < scale {
        lemma_concat_lf(Seq::new((scale - d.len()) as nat, |i: int| '0'), d);
    }
    let w = p.len() - scale;
    assert(lf_free(p.take(w))) by {
        assert forall|i: int| 0 <= i < p.take(w).len() implies #[trigger] p.take(w)[i] != '\n' by {
            assert(p.take(w)[i] == p[i]);
        }
    }
    assert(lf_free(p.skip(w))) by {
        assert forall|i: int| 0 <= i < p.skip(w).len() implies #[trigger] p.skip(w)[i] != '\n' by {
            assert(p.skip(w)[i] == p[i + w]);
        }
    }
    let head = if w == 0 {
        seq!['0']
    } else {
        p.take(w)
    };
    lemma_concat_lf(head, seq!['.']);
    lemma_concat_lf(head + seq!['.'], p.skip(w));
    let body = if scale == 0 {
        if p.len() == 0 {
            seq!['0']
        } else {
            p
        }
    } else {
        head + seq!['.'] + p.skip(w)
    };
    lemma_concat_lf(seq!['-'], body);
}

proof fn lemma_decimal_lf(mantissa: i128, scale: u32)
    ensures
        lf_free(decimal_json(mantissa, scale)),
{
    lemma_decimal_display_lf(mantissa, scale);
    lemma_concat_lf(decimal_display(mantissa, scale), seq!['.', '0']);
}

/// Compact `to-json` text is one line: it holds no line feed (a line feed
/// inside a string is escaped).
pub proof fn law_compact_json_one_line(v: ValueView, indent: nat, width: nat)
    requires
        spellings_lf_free(v),
    ensures
        json_value(v, indent, false, width) matches Ok(t) ==> lf_free(t),
    decreases v,
{
    match v {
        ValueView::NoneVal => {},
        ValueView::Unset => {},
        ValueView::Logic(_) => {},
        ValueView::Integer(n) => lemma_int_text_lf(n as int),
        ValueView::Decimal { mantissa, scale } => lemma_decimal_lf(mantissa, scale),
        ValueView::Str(s) => lemma_quoted_lf(s),
        ValueView::Char(c) => lemma_quoted_lf(seq![c]),
        ValueView::Block(items) => {
            lemma_elems_lf(items, indent, width);
            if let Ok(body) = json_elems(items, indent, false, width) {
                lemma_bracketed_lf('[', ']', body, items.len(), indent);
            }
        },
        ValueView::Paren(items) => {
            lemma_elems_lf(items, indent, width);
            if let Ok(body) = json_elems(items, indent, false, width) {
                lemma_bracketed_lf('[', ']', body, items.len(), indent);
            }
        },
        ValueView::MapVal(entries) => {
            lemma_keyed_lf(entries, indent, width);
            if let Ok(body) = json_keyed(entries, indent, false, width) {
                lemma_bracketed_lf('{', '}', body, entries.len(), indent);
            }
        },
        ValueView::Hash(entries) => {
            lemma_keyed_lf(entries, indent, width);
            if let Ok(body) = json_keyed(entries, indent, false, width) {
                lemma_bracketed_lf('{', '}', body, entries.len(), indent);
            }
        },
        ValueView::Object(fields) => {
            lemma_fields_lf(fields, indent, width);
            if let Ok((body, count)) = json_fields(fields, indent, false, width) {
                lemma_bracketed_lf('{', '}', body, count, indent);
            }
        },
        ValueView::Tuple(bytes) => {
            lemma_bytes_lf(bytes, indent, width);
            lemma_bracketed_lf('[', ']', json_bytes(bytes, indent, false, width), bytes.len(), indent);
        },
        ValueView::Pair(x, y) => {
            law_compact_json_one_line(*x, indent + width, width);
            law_compact_json_one_line(*y, indent + width, width);
            if let Ok(tx) = json_value(*x, indent + width, false, width) {
                if let Ok(ty) = json_value(*y, indent + width, false, width) {
                    let p0 = elem_prefix(0, false, indent + width);
                    let p1 = elem_prefix(1, false, indent + width);
                    lemma_prefix_lf(0, indent + width);
                    lemma_prefix_lf(1, indent + width);
                    lemma_concat_lf(p0, tx);
                    lemma_concat_lf(p0 + tx, p1);
                    lemma_concat_lf(p0 + tx + p1, ty);
                    lemma_bracketed_lf('[', ']', p0 + tx + p1 + ty, 2, indent);
                }
            }
        },
        ValueView::Tag(s) => lemma_quoted_lf(seq!['<'] + s + seq!['>']),
        ValueView::Issue(s) => lemma_quoted_lf(s),
        ValueView::Email(s) => lemma_quoted_lf(s),
        ValueView::File(s) => lemma_quoted_lf(s),
        ValueView::Url(s) => lemma_quoted_lf(s),
        ValueView::Money { cents, currency } => lemma_quoted_lf(crate::json::money_text(cents, currency)),
        ValueView::Date(d) => lemma_quoted_lf(crate::json::date_text(d)),
        ValueView::Binary(b) => lemma_quoted_lf(crate::codec::base64_standard_encode(b)),
        ValueView::Word(s) => lemma_quoted_lf(s),
        ValueView::SetWord(s) => lemma_quoted_lf(s),
        ValueView::GetWord(s) => lemma_quoted_lf(s),
        ValueView::LitWord(s) => lemma_quoted_lf(s),
        ValueView::Refinement(s) => lemma_quoted_lf(seq!['/'] + s),
        ValueView::Path(s) => lemma_quoted_lf(s),
        ValueView::GetPath(s) => lemma_quoted_lf(s),
        ValueView::LitPath(s) => lemma_quoted_lf(s),
        ValueView::SetPath(s) => lemma_quoted_lf(s),
        _ => {},
    }
}

proof fn lemma_elems_lf(items: Seq<ValueView>, indent: nat, width: nat)
    requires
        items_lf_free(items),
    ensures
        json_elems(items, indent, false, width) matches Ok(t) ==> lf_free(t),
    decreases items,
{
    if items.len() > 0 {
        lemma_elems_lf(items.drop_last(), indent, width);
        law_compact_json_one_line(items.last(), indent + width, width);
        if let Ok(prev) = json_elems(items.drop_last(), indent, false, width) {
            if let Ok(t) = json_value(items.last(), indent + width, false, width) {
                let p = elem_prefix((items.len() - 1) as nat, false, indent + width);
                lemma_prefix_lf((items.len() - 1) as nat, indent + width);
                lemma_concat_lf(prev, p);
                lemma_concat_lf(prev + p, t);
            }
        }
    }
}

proof fn lemma_keyed_lf(entries: Seq<(KeyView, ValueView)>, indent: nat, width: nat)
    requires
        entries_lf_free(entries),
    ensures
        json_keyed(entries, indent, false, width) matches Ok(t) ==> lf_free(t),
    decreases entries,
{
    if entries.len() > 0 {
        lemma_keyed_lf(entries.drop_last(), indent, width);
        law_compact_json_one_line(entries.last().1, indent + width, width);
        if let Ok(prev) = json_keyed(entries.drop_last(), indent, false, width) {
            if let Ok(t) = json_value(entries.last().1, indent + width, false, width) {
                let p = elem_prefix((entries.len() - 1) as nat, false, indent + width);
                let m = member_text(map_key_text(entries.last().0), t, false);
                lemma_prefix_lf((entries.len() - 1) as nat, indent + width);
                lemma_member_lf(map_key_text(entries.last().0), t);
                lemma_concat_lf(prev, p);
                lemma_concat_lf(prev + p, m);
            }
        }
    }
}

proof fn lemma_fields_lf(fields: Seq<(Seq<char>, ValueView)>, indent: nat, width: nat)
    requires
        fields_lf_free(fields),
    ensures
        json_fields(fields, indent, false, width) matches Ok((t, _)) ==> lf_free(t),
    decreases fields,
{
    if fields.len() > 0 {
        lemma_fields_lf(fields.drop_last(), indent, width);
        law_compact_json_one_line(fields.last().1, indent + width, width);
        if let Ok((prev, count)) = json_fields(fields.drop_last(), indent, false, width) {
            if fields.last().0 != self_word() {
                if let Ok(t) = json_value(fields.last().1, indent + width, false, width) {
                    let p = elem_prefix(count, false, indent + width);
                    let m = member_text(fields.last().0, t, false);
                    lemma_prefix_lf(count, indent + width);
                    lemma_member_lf(fields.last().0, t);
                    lemma_concat_lf(prev, p);
                    lemma_concat_lf(prev + p, m);
                }
            }
        }
    }
}

proof fn lemma_bytes_lf(bytes: Seq<u8>, indent: nat, width: nat)
    ensures
        lf_free(json_bytes(bytes, indent, false, width)),
    decreases bytes.len(),
{
    if bytes.len() > 0 {
        lemma_bytes_lf(bytes.drop_last(), indent, width);
        let prev = json_bytes(bytes.drop_last(), indent, false, width);
        let p = elem_prefix((bytes.len() - 1) as nat, false, indent + width);
        lemma_prefix_lf((bytes.len() - 1) as nat, indent + width);
        lemma_nat_text_lf(bytes.last() as nat);
        lemma_concat_lf(prev, p);
        lemma_concat_lf(prev + p, nat_text(bytes.last() as nat));
    }
}

// ---------------------------------------------------------------------------
// Maps keyed by words
// ---------------------------------------------------------------------------

/// A map key as `load-json` gives it back: a word becomes a string.
pub open spec fn key_as_string(k: KeyView) -> KeyView {
    match k {
        KeyView::Sym(s) => KeyView::Str(s),
        _ => k,
    }
}

/// `v` with the word keys of its blocks' and maps' maps turned into string
/// keys.
pub open spec fn word_keys_as_strings(v: ValueView) -> ValueView
    decreases v,
{
    match v {
        ValueView::Block(items) => ValueView::Block(items_word_keys(items)),
        ValueView::MapVal(entries) => ValueView::MapVal(entries_word_keys(entries)),
        _ => v,
    }
}

pub open spec fn items_word_keys(items: Seq<ValueView>) -> Seq<ValueView>
    decreases items,
{
    if items.len() == 0 {
        Seq::empty()
    } else {
        items_word_keys(items.drop_last()).push(word_keys_as_strings(items.last()))
    }
}

pub open spec fn entries_word_keys(entries: Seq<(KeyView, ValueView)>) -> Seq<(KeyView, ValueView)>
    decreases entries,
{
    if entries.len() == 0 {
        Seq::empty()
    } else {
        entries_word_keys(entries.drop_last()).push(
            (key_as_string(entries.last().0), word_keys_as_strings(entries.last().1)),
        )
    }
}

proof fn lemma_items_word_keys_len(items: Seq<ValueView>)
    ensures
        items_word_keys(items).len() == items.len(),
    decreases items.len(),
{
    if items.len() > 0 {
        lemma_items_word_keys_len(items.drop_last());
    }
}

proof fn lemma_entries_word_keys_len(entries: Seq<(KeyView, ValueView)>)
    ensures
        entries_word_keys(entries).len() == entries.len(),
    decreases entries.len(),
{
    if entries.len() > 0 {
        lemma_entries_word_keys_len(entries.drop_last());
    }
}

/// A word key and the string key of the same name give the same JSON
/// text.
proof fn lemma_word_keys_same_text(v: ValueView, indent: nat, pretty: bool, width: nat)
    ensures
        json_value(word_keys_as_strings(v), indent, pretty, width) == json_value(v, indent, pretty, width),
    decreases v,
{
    match v {
        ValueView::Block(items) => {
            lemma_items_same_text(items, indent, pretty, width);
            lemma_items_word_keys_len(items);
        },
        ValueView::MapVal(entries) => {
            lemma_entries_same_text(entries, indent, pretty, width);
            lemma_entries_word_keys_len(entries);
        },
        _ => {},
    }
}

proof fn lemma_items_same_text(items: Seq<ValueView>, indent: nat, pretty: bool, width: nat)
    ensures
        json_elems(items_word_keys(items), indent, pretty, width) == json_elems(items, indent, pretty, width),
    decreases items,
{
    if items.len() > 0 {
        lemma_items_same_text(items.drop_last(), indent, pretty, width);
        lemma_word_keys_same_text(items.last(), indent + width, pretty, width);
        lemma_items_word_keys_len(items);
        let w = items_word_keys(items);
        assert(w.drop_last() =~= items_word_keys(items.drop_last()));
    }
}

proof fn lemma_entries_same_text(entries: Seq<(KeyView, ValueView)>, indent: nat, pretty: bool, width: nat)
    ensures
        json_keyed(entries_word_keys(entries), indent, pretty, width) == json_keyed(entries, indent, pretty, width),
    decreases entries,
{
    if entries.len() > 0 {
        lemma_entries_same_text(entries.drop_last(), indent, pretty, width);
        lemma_word_keys_same_text(entries.last().1, indent + width, pretty, width);
        lemma_entries_word_keys_len(entries);
        let w = entries_word_keys(entries);
        assert(w.drop_last() =~= entries_word_keys(entries.drop_last()));
        assert(map_key_text(key_as_string(entries.last().0)) == map_key_text(entries.last().0));
    }
}

/// `load-json` reads back what `to-json` wrote of plain data whose maps are
/// keyed by words or strings: the words come back as string keys.
pub proof fn law_word_keyed_maps_read_back(v: ValueView, pretty: bool, width: nat)
    requires
        json_data(word_keys_as_strings(v)),
        height(word_keys_as_strings(v)) <= crate::json_decode::MAX_JSON_DEPTH,
    ensures
        json_value(v, 0, pretty, width) is Ok,
        spec_load(encode_utf8(json_value(v, 0, pretty, width)->Ok_0)) == Ok::<ValueView, LoadFault>(
            word_keys_as_strings(v),
        ),
{
    lemma_word_keys_same_text(v, 0, pretty, width);
    law_load_json_reads_to_json(word_keys_as_strings(v), pretty, width);
}

} // verus!
