//! `mold`, `form` and the text `print` writes.
//!
//! `mold` gives a value's source form (`"hi"`, `[1 2]`, `'word`), `form`
//! its human-readable form (`hi`, `1 2`, `word`). Strings and chars mold
//! with Red's caret escapes (`^"`, `^^`, `^/`, `^-`); blocks join their
//! elements with single spaces; a bitset molds as `make bitset!` of the
//! string of its members when they are all printable ASCII, else of the
//! hex of its bit pattern. Values whose source form needs arithmetic on
//! floats or calendars (percent, decimal, money, date, duration), maps,
//! hashes, objects and the opaque kinds are refused.
use vstd::prelude::*;

use crate::native::RefineArgs;
use crate::text::{char_from_u32, int_text, nat_text, push_char, push_int, push_nat, push_str};
use crate::value::{lemma_view_items, lemma_view_keyed, view_items, view_keyed, KeyView, MapKey, Value, ValueView};

verus! {

broadcast use vstd::string::group_string_axioms;

/// Why `mold` or `form` gave no text.
#[derive(Clone, Copy, Debug, PartialEq, Eq)]
pub enum MoldError {
    /// The native was called with `got` arguments instead of one.
    Arity { got: usize },
    /// The value, or a value inside it, has no source form here.
    Unmoldable,
}

// ---------------------------------------------------------------------------
// The texts
// ---------------------------------------------------------------------------

/// A char inside a molded string or char literal.
pub open spec fn caret_escape(c: char) -> Seq<char> {
    if c == '"' {
        seq!['^', '"']
    } else if c == '^' {
        seq!['^', '^']
    } else if c == '\n' {
        seq!['^', '/']
    } else if c == '\t' {
        seq!['^', '-']
    } else {
        seq![c]
    }
}

pub open spec fn caret_escaped(s: Seq<char>) -> Seq<char>
    decreases s.len(),
{
    if s.len() == 0 {
        Seq::empty()
    } else {
        caret_escaped(s.drop_last()) + caret_escape(s.last())
    }
}

pub open spec fn hex_upper(d: nat) -> char {
    if d < 10 {
        ((d + 48) as u32) as char
    } else {
        ((d + 55) as u32) as char
    }
}

/// Two upper-case hex digits per byte.
pub open spec fn hex_bytes(b: Seq<u8>) -> Seq<char>
    decreases b.len(),
{
    if b.len() == 0 {
        Seq::empty()
    } else {
        let x = b.last();
        hex_bytes(b.drop_last()) + seq![hex_upper((x / 16) as nat), hex_upper((x % 16) as nat)]
    }
}

/// The bytes of a tuple in decimal, joined by dots.
pub open spec fn tuple_text(b: Seq<u8>) -> Seq<char>
    decreases b.len(),
{
    if b.len() == 0 {
        Seq::empty()
    } else if b.len() == 1 {
        nat_text(b[0] as nat)
    } else {
        tuple_text(b.drop_last()) + seq!['.'] + nat_text(b.last() as nat)
    }
}

/// A bitset whose members are all printable ASCII molds as a string of
/// them; any other as the hex of its bit pattern (bit `8k + j` is bit `j`
/// of byte `k`).
pub open spec fn printable_member(i: int) -> bool {
    0x20 <= i <= 0x7E
}

pub open spec fn bits_printable(b: Seq<bool>) -> bool {
    forall|i: int| 0 <= i < b.len() && #[trigger] b[i] ==> printable_member(i)
}

/// The members of a bitset, as chars, in increasing order.
pub open spec fn member_chars(b: Seq<bool>) -> Seq<char>
    decreases b.len(),
{
    if b.len() == 0 {
        Seq::empty()
    } else {
        member_chars(b.drop_last()) + if b.last() {
            seq![((b.len() - 1) as u32) as char]
        } else {
            Seq::<char>::empty()
        }
    }
}

/// Byte `k` of the bit pattern, from its first `j` bits.
pub open spec fn packed_byte(b: Seq<bool>, k: int, j: nat) -> nat
    decreases j,
{
    if j == 0 {
        0
    } else {
        packed_byte(b, k, (j - 1) as nat) + if 0 <= 8 * k + j - 1 < b.len() && b[8 * k + j - 1] {
            pow2_small((j - 1) as nat)
        } else {
            0
        }
    }
}

pub open spec fn pow2_small(j: nat) -> nat
    decreases j,
{
    if j == 0 {
        1
    } else {
        2 * pow2_small((j - 1) as nat)
    }
}

/// The bit pattern as bytes.
pub open spec fn packed_bytes(b: Seq<bool>) -> Seq<u8> {
    Seq::new(((b.len() + 7) / 8) as nat, |k: int| packed_byte(b, k, 8) as u8)
}

pub open spec fn bitset_mold(b: Seq<bool>) -> Seq<char> {
    seq!['m', 'a', 'k', 'e', ' ', 'b', 'i', 't', 's', 'e', 't', '!', ' '] + if bits_printable(b) {
        seq!['"'] + caret_escaped(member_chars(b)) + seq!['"']
    } else {
        seq!['#', '{'] + hex_bytes(packed_bytes(b)) + seq!['}']
    }
}

/// The source form of `v`, if it has one here.
pub open spec fn mold_spec(v: ValueView) -> Option<Seq<char>>
    decreases v,
{
    match v {
        ValueView::NoneVal => Some(seq!['n', 'o', 'n', 'e']),
        ValueView::Logic(b) => Some(
            if b {
                seq!['t', 'r', 'u', 'e']
            } else {
                seq!['f', 'a', 'l', 's', 'e']
            },
        ),
        ValueView::Integer(n) => Some(int_text(n as int)),
        ValueView::Float(f) => Some(f.text),
        ValueView::Str(s) => Some(seq!['"'] + caret_escaped(s) + seq!['"']),
        ValueView::Char(c) => Some(seq!['#', '"'] + caret_escape(c) + seq!['"']),
        ValueView::Block(items) => match mold_items(items) {
            Some(body) => Some(seq!['['] + body + seq![']']),
            None => None,
        },
        ValueView::Paren(items) => match mold_items(items) {
            Some(body) => Some(seq!['('] + body + seq![')']),
            None => None,
        },
        ValueView::Pair(x, y) => match (mold_spec(*x), mold_spec(*y)) {
            (Some(tx), Some(ty)) => Some(tx + seq!['x'] + ty),
            _ => None,
        },
        ValueView::Tuple(b) => Some(tuple_text(b)),
        ValueView::Tag(s) => Some(seq!['<'] + s + seq!['>']),
        ValueView::Issue(s) => Some(seq!['#'] + s),
        ValueView::Email(s) => Some(s),
        ValueView::File(s) => Some(seq!['%'] + s),
        ValueView::Url(s) => Some(s),
        ValueView::Binary(b) => Some(seq!['#', '{'] + hex_bytes(b) + seq!['}']),
        ValueView::Bitset(b) => Some(bitset_mold(b)),
        ValueView::Word(s) => Some(s),
        ValueView::SetWord(s) => Some(s + seq![':']),
        ValueView::GetWord(s) => Some(seq![':'] + s),
        ValueView::LitWord(s) => Some(seq!['\''] + s),
        ValueView::Refinement(s) => Some(seq!['/'] + s),
        ValueView::Path(s) => Some(s),
        ValueView::GetPath(s) => Some(s),
        ValueView::LitPath(s) => Some(s),
        ValueView::SetPath(s) => Some(s),
        ValueView::MapVal(entries) => match mold_entries(entries) {
            Some(body) => Some(map_head() + body + seq![']']),
            None => None,
        },
        ValueView::Hash(entries) => match mold_entries(entries) {
            Some(body) => Some(hash_head() + body + seq![']']),
            None => None,
        },
        _ => None,
    }
}

/// `make map! [`
pub open spec fn map_head() -> Seq<char> {
    seq!['m', 'a', 'k', 'e', ' ', 'm', 'a', 'p', '!', ' ', '[']
}

/// `make hash! [`
pub open spec fn hash_head() -> Seq<char> {
    seq!['m', 'a', 'k', 'e', ' ', 'h', 'a', 's', 'h', '!', ' ', '[']
}

/// The source form of a key: a symbol as a set-word, anything else as the
/// value it stands for.
pub open spec fn key_mold(k: KeyView) -> Seq<char> {
    match k {
        KeyView::Sym(s) => s + seq![':'],
        KeyView::Int(n) => int_text(n as int),
        KeyView::Str(s) => seq!['"'] + caret_escaped(s) + seq!['"'],
        KeyView::Char(c) => seq!['#', '"'] + caret_escape(c) + seq!['"'],
        KeyView::Bool(b) => if b {
            seq!['t', 'r', 'u', 'e']
        } else {
            seq!['f', 'a', 'l', 's', 'e']
        },
        KeyView::Blank => seq!['n', 'o', 'n', 'e'],
    }
}

/// The source forms of a map's entries (key, space, value), joined by
/// single spaces.
pub open spec fn mold_entries(entries: Seq<(KeyView, ValueView)>) -> Option<Seq<char>>
    decreases entries,
{
    if entries.len() == 0 {
        Some(Seq::empty())
    } else {
        let last = entries.last();
        match (mold_entries(entries.drop_last()), mold_spec(last.1)) {
            (Some(prev), Some(t)) => Some(
                if entries.len() == 1 {
                    key_mold(last.0) + seq![' '] + t
                } else {
                    prev + seq![' '] + key_mold(last.0) + seq![' '] + t
                },
            ),
            _ => None,
        }
    }
}

/// The source forms of `items` joined by single spaces.
pub open spec fn mold_items(items: Seq<ValueView>) -> Option<Seq<char>>
    decreases items,
{
    if items.len() == 0 {
        Some(Seq::empty())
    } else {
        match (mold_items(items.drop_last()), mold_spec(items.last())) {
            (Some(prev), Some(t)) => Some(
                if items.len() == 1 {
                    t
                } else {
                    prev + seq![' '] + t
                },
            ),
            _ => None,
        }
    }
}

/// The human-readable form of `v`: strings and chars as they are, words
/// without their decoration, files without `%`, the elements of blocks and
/// parens joined by spaces without brackets; otherwise the source form.
pub open spec fn form_spec(v: ValueView) -> Option<Seq<char>>
    decreases v,
{
    match v {
        ValueView::Str(s) => Some(s),
        ValueView::Char(c) => Some(seq![c]),
        ValueView::Word(s) => Some(s),
        ValueView::SetWord(s) => Some(s),
        ValueView::GetWord(s) => Some(s),
        ValueView::LitWord(s) => Some(s),
        ValueView::File(s) => Some(s),
        ValueView::Block(items) => form_items(items),
        ValueView::Paren(items) => form_items(items),
        _ => mold_spec(v),
    }
}

/// The forms of `items` joined by single spaces.
pub open spec fn form_items(items: Seq<ValueView>) -> Option<Seq<char>>
    decreases items,
{
    if items.len() == 0 {
        Some(Seq::empty())
    } else {
        match (form_items(items.drop_last()), form_spec(items.last())) {
            (Some(prev), Some(t)) => Some(
                if items.len() == 1 {
                    t
                } else {
                    prev + seq![' '] + t
                },
            ),
            _ => None,
        }
    }
}

// ---------------------------------------------------------------------------
// Writing them
// ---------------------------------------------------------------------------

fn push_caret(out: &mut String, c: char)
    ensures
        final(out)@ == old(out)@ + caret_escape(c),
{
    if c == '"' {
        push_char(out, '^');
        push_char(out, '"');
    } else if c == '^' {
        push_char(out, '^');
        push_char(out, '^');
    } else if c == '\n' {
        push_char(out, '^');
        push_char(out, '/');
    } else if c == '\t' {
        push_char(out, '^');
        push_char(out, '-');
    } else {
        push_char(out, c);
    }
    assert(final(out)@ =~= old(out)@ + caret_escape(c));
}

fn push_caret_string(out: &mut String, s: &String)
    ensures
        final(out)@ == old(out)@ + caret_escaped(s@),
{
    let ghost start = out@;
    let t = s.as_str();
    for c in it: t.chars()
        invariant
            it.seq() == s@,
            out@ == start + caret_escaped(s@.take(it.index() as int)),
    {
        proof {
            let i = it.index() as int;
            assert(s@.take(i + 1).drop_last() == s@.take(i));
        }
        push_caret(out, c);
        proof {
            let i = it.index() as int;
            assert(out@ =~= start + caret_escaped(s@.take(i + 1)));
        }
    }
    assert(s@.take(s@.len() as int) == s@);
}

fn hex_upper_char(d: u8) -> (c: char)
    requires
        d < 16,
    ensures
        c == hex_upper(d as nat),
{
    if d < 10 {
        ((d + 48) as u8) as char
    } else {
        ((d + 55) as u8) as char
    }
}

fn push_hex_bytes(out: &mut String, b: &Vec<u8>)
    ensures
        final(out)@ == old(out)@ + hex_bytes(b@),
{
    let ghost start = out@;
    let mut i: usize = 0;
    while i < b.len()
        invariant
            i <= b@.len(),
            out@ == start + hex_bytes(b@.take(i as int)),
        decreases b@.len() - i,
    {
        proof {
            assert(b@.take(i + 1).drop_last() == b@.take(i as int));
        }
        let x = b[i];
        push_char(out, hex_upper_char(x / 16));
        push_char(out, hex_upper_char(x % 16));
        i = i + 1;
        assert(out@ =~= start + hex_bytes(b@.take(i as int)));
    }
    assert(b@.take(b@.len() as int) == b@);
}

fn push_tuple(out: &mut String, b: &Vec<u8>)
    ensures
        final(out)@ == old(out)@ + tuple_text(b@),
{
    let ghost start = out@;
    let mut i: usize = 0;
    while i < b.len()
        invariant
            i <= b@.len(),
            out@ == start + tuple_text(b@.take(i as int)),
        decreases b@.len() - i,
    {
        proof {
            assert(b@.take(i + 1).drop_last() == b@.take(i as int));
        }
        if i > 0 {
            push_char(out, '.');
        }
        push_nat(out, b[i] as u64);
        i = i + 1;
        assert(out@ =~= start + tuple_text(b@.take(i as int)));
    }
    assert(b@.take(b@.len() as int) == b@);
}

fn push_affixed(out: &mut String, pre: &str, s: &String, post: &str)
    ensures
        final(out)@ == old(out)@ + pre@ + s@ + post@,
{
    push_str(out, pre);
    push_str(out, s.as_str());
    push_str(out, post);
}

fn all_printable(b: &Vec<bool>) -> (r: bool)
    ensures
        r == bits_printable(b@),
{
    let mut i: usize = 0;
    while i < b.len()
        invariant
            i <= b@.len(),
            forall|j: int| 0 <= j < i && #[trigger] b@[j] ==> printable_member(j),
        decreases b@.len() - i,
    {
        if b[i] && !(0x20 <= i && i <= 0x7E) {
            assert(b@[i as int] && !printable_member(i as int));
            return false;
        }
        i = i + 1;
    }
    true
}

fn push_members(out: &mut String, b: &Vec<bool>)
    requires
        bits_printable(b@),
    ensures
        final(out)@ == old(out)@ + caret_escaped(member_chars(b@)),
{
    let ghost start = out@;
    let mut i: usize = 0;
    while i < b.len()
        invariant
            i <= b@.len(),
            bits_printable(b@),
            out@ == start + caret_escaped(member_chars(b@.take(i as int))),
        decreases b@.len() - i,
    {
        proof {
            assert(b@.take(i + 1).drop_last() == b@.take(i as int));
            lemma_caret_concat(member_chars(b@.take(i as int)), if b@[i as int] {
                seq![(i as u32) as char]
            } else {
                Seq::<char>::empty()
            });
        }
        if b[i] {
            assert(printable_member(i as int));
            match char_from_u32(i as u32) {
                Some(c) => {
                    push_caret(out, c);
                    proof {
                        assert(seq![c].drop_last() =~= Seq::<char>::empty());
                        assert(seq![c].last() == c);
                        assert(caret_escaped(seq![c]) == caret_escaped(Seq::<char>::empty())
                            + caret_escape(c));
                    }
                },
                None => {},
            }
        } else {
            assert(caret_escaped(Seq::<char>::empty()) == Seq::<char>::empty());
        }
        i = i + 1;
        assert(out@ =~= start + caret_escaped(member_chars(b@.take(i as int))));
    }
    assert(b@.take(b@.len() as int) == b@);
}

proof fn lemma_caret_concat(a: Seq<char>, b: Seq<char>)
    ensures
        caret_escaped(a + b) == caret_escaped(a) + caret_escaped(b),
    decreases b.len(),
{
    if b.len() == 0 {
        assert(a + b == a);
        assert(caret_escaped(a) + caret_escaped(b) == caret_escaped(a));
    } else {
        assert((a + b).drop_last() == a + b.drop_last());
        lemma_caret_concat(a, b.drop_last());
    }
}

proof fn lemma_pow2_small(j: nat)
    requires
        j <= 8,
    ensures
        pow2_small(j) <= 256,
        j < 8 ==> pow2_small(j) <= 128,
{
    reveal_with_fuel(pow2_small, 9);
    if j == 0 {
    } else if j == 1 {
    } else if j == 2 {
    } else if j == 3 {
    } else if j == 4 {
    } else if j == 5 {
    } else if j == 6 {
    } else if j == 7 {
    } else {
    }
}

fn packed(b: &Vec<bool>) -> (r: Vec<u8>)
    ensures
        r@ == packed_bytes(b@),
{
    let n = b.len() / 8 + if b.len() % 8 == 0 {
        0
    } else {
        1
    };
    assert(n == (b@.len() + 7) / 8);
    let mut r: Vec<u8> = Vec::new();
    let mut k: usize = 0;
    while k < n
        invariant
            n == (b@.len() + 7) / 8,
            k <= n,
            r@.len() == k,
            forall|m: int| 0 <= m < k ==> #[trigger] r@[m] == packed_byte(b@, m, 8) as u8,
        decreases n - k,
    {
        assert(8 * k <= b@.len() - 1) by (nonlinear_arith)
            requires
                k < n,
                n == (b@.len() + 7) / 8,
        ;
        assert(b@.len() == b.len());
        let base = 8 * k;
        let mut v: u16 = 0;
        let mut w: u16 = 1;
        let mut j: usize = 0;
        while j < 8
            invariant
                k < n,
                n == (b@.len() + 7) / 8,
                base == 8 * k,
                base <= b@.len() - 1,
                j <= 8,
                w == pow2_small(j as nat),
                v == packed_byte(b@, k as int, j as nat),
                v < w,
            decreases 8 - j,
        {
            proof {
                lemma_pow2_small(j as nat);
            }
            if j < b.len() - base && b[base + j] {
                v = v + w;
            }
            w = w * 2;
            j = j + 1;
        }
        proof {
            lemma_pow2_small(8);
        }
        assert(v < 256);
        r.push(v as u8);
        k = k + 1;
    }
    assert(r@ =~= packed_bytes(b@));
    r
}

fn push_bitset(out: &mut String, b: &Vec<bool>)
    ensures
        final(out)@ == old(out)@ + bitset_mold(b@),
{
    push_str(out, "make bitset! ");
    proof {
        reveal_strlit("make bitset! ");
    }
    if all_printable(b) {
        push_char(out, '"');
        push_members(out, b);
        push_char(out, '"');
    } else {
        push_char(out, '#');
        push_char(out, '{');
        let bytes = packed(b);
        push_hex_bytes(out, &bytes);
        push_char(out, '}');
    }
    assert(out@ =~= old(out)@ + bitset_mold(b@));
}

/// Appends the source form of `v`; false (with `out` holding some prefix
/// of it) when there is none.
#[verifier::rlimit(40)]
fn mold_into(v: &Value, out: &mut String) -> (ok: bool)
    ensures
        ok == mold_spec(v@) is Some,
        ok ==> final(out)@ == old(out)@ + mold_spec(v@)->Some_0,
    decreases v, 0nat,
{
    match v {
        Value::NoneVal => {
            push_str(out, "none");
            proof {
                reveal_strlit("none");
            }
            true
        },
        Value::Logic(b) => {
            if *b {
                push_str(out, "true");
                proof {
                    reveal_strlit("true");
                }
            } else {
                push_str(out, "false");
                proof {
                    reveal_strlit("false");
                }
            }
            true
        },
        Value::Integer(n) => {
            push_int(out, *n);
            true
        },
        Value::Float(f) => {
            push_str(out, f.text.as_str());
            true
        },
        Value::Str(s) => {
            push_char(out, '"');
            push_caret_string(out, s);
            push_char(out, '"');
            assert(out@ =~= old(out)@ + (seq!['"'] + caret_escaped(s@) + seq!['"']));
            true
        },
        Value::Char(c) => {
            push_char(out, '#');
            push_char(out, '"');
            push_caret(out, *c);
            push_char(out, '"');
            assert(out@ =~= old(out)@ + (seq!['#', '"'] + caret_escape(*c) + seq!['"']));
            true
        },
        Value::Block(items) => {
            push_char(out, '[');
            let ok = mold_items_into(items, out, false);
            if ok {
                assert(joined(view_items(items@), false) == mold_items(view_items(items@)));
                push_char(out, ']');
                assert(out@ =~= old(out)@ + (seq!['['] + mold_items(view_items(items@))->Some_0
                    + seq![']']));
            }
            ok
        },
        Value::Paren(items) => {
            push_char(out, '(');
            let ok = mold_items_into(items, out, false);
            if ok {
                assert(joined(view_items(items@), false) == mold_items(view_items(items@)));
                push_char(out, ')');
                assert(out@ =~= old(out)@ + (seq!['('] + mold_items(view_items(items@))->Some_0
                    + seq![')']));
            }
            ok
        },
        Value::Pair(x, y) => {
            let ghost mid = out@;
            if !mold_into(x, out) {
                return false;
            }
            push_char(out, 'x');
            if !mold_into(y, out) {
                return false;
            }
            assert(out@ =~= old(out)@ + (mold_spec(x@)->Some_0 + seq!['x'] + mold_spec(
                y@,
            )->Some_0));
            true
        },
        Value::Tuple(b) => {
            push_tuple(out, b);
            true
        },
        Value::Tag(s) => {
            push_affixed(out, "<", s, ">");
            proof {
                reveal_strlit("<");
                reveal_strlit(">");
            }
            assert(out@ =~= old(out)@ + (seq!['<'] + s@ + seq!['>']));
            true
        },
        Value::Issue(s) => {
            push_char(out, '#');
            push_str(out, s.as_str());
            assert(out@ =~= old(out)@ + (seq!['#'] + s@));
            true
        },
        Value::Email(s) => {
            push_str(out, s.as_str());
            true
        },
        Value::File(s) => {
            push_char(out, '%');
            push_str(out, s.as_str());
            assert(out@ =~= old(out)@ + (seq!['%'] + s@));
            true
        },
        Value::Url(s) => {
            push_str(out, s.as_str());
            true
        },
        Value::Binary(b) => {
            push_char(out, '#');
            push_char(out, '{');
            push_hex_bytes(out, b);
            push_char(out, '}');
            assert(out@ =~= old(out)@ + (seq!['#', '{'] + hex_bytes(b@) + seq!['}']));
            true
        },
        Value::Bitset(b) => {
            push_bitset(out, b);
            true
        },
        Value::Word(s) | Value::Path(s) | Value::GetPath(s) | Value::LitPath(s) | Value::SetPath(
            s,
        ) => {
            push_str(out, s.as_str());
            true
        },
        Value::SetWord(s) => {
            push_str(out, s.as_str());
            push_char(out, ':');
            true
        },
        Value::GetWord(s) => {
            push_char(out, ':');
            push_str(out, s.as_str());
            assert(out@ =~= old(out)@ + (seq![':'] + s@));
            true
        },
        Value::LitWord(s) => {
            push_char(out, '\'');
            push_str(out, s.as_str());
            assert(out@ =~= old(out)@ + (seq!['\''] + s@));
            true
        },
        Value::Refinement(s) => {
            push_char(out, '/');
            push_str(out, s.as_str());
            assert(out@ =~= old(out)@ + (seq!['/'] + s@));
            true
        },
        Value::MapVal(entries) => {
            push_str(out, "make map! [");
            proof {
                reveal_strlit("make map! [");
                assert("make map! ["@ =~= map_head());
            }
            let ok = mold_entries_into(entries, out);
            if ok {
                push_char(out, ']');
                assert(out@ =~= old(out)@ + (map_head() + mold_entries(view_keyed(entries@))->Some_0
                    + seq![']']));
            }
            ok
        },
        Value::Hash(entries) => {
            push_str(out, "make hash! [");
            proof {
                reveal_strlit("make hash! [");
                assert("make hash! ["@ =~= hash_head());
            }
            let ok = mold_entries_into(entries, out);
            if ok {
                push_char(out, ']');
                assert(out@ =~= old(out)@ + (hash_head() + mold_entries(view_keyed(entries@))->Some_0
                    + seq![']']));
            }
            ok
        },
        _ => false,
    }
}

fn push_key_mold(out: &mut String, k: &MapKey)
    ensures
        final(out)@ == old(out)@ + key_mold(k@),
{
    match k {
        MapKey::Sym(s) => {
            push_str(out, s.as_str());
            push_char(out, ':');
        },
        MapKey::Int(n) => {
            push_int(out, *n);
        },
        MapKey::Str(s) => {
            push_char(out, '"');
            push_caret_string(out, s);
            push_char(out, '"');
            assert(out@ =~= old(out)@ + (seq!['"'] + caret_escaped(s@) + seq!['"']));
        },
        MapKey::Char(c) => {
            push_char(out, '#');
            push_char(out, '"');
            push_caret(out, *c);
            push_char(out, '"');
            assert(out@ =~= old(out)@ + (seq!['#', '"'] + caret_escape(*c) + seq!['"']));
        },
        MapKey::Bool(b) => {
            if *b {
                push_str(out, "true");
                proof {
                    reveal_strlit("true");
                }
            } else {
                push_str(out, "false");
                proof {
                    reveal_strlit("false");
                }
            }
        },
        MapKey::Blank => {
            push_str(out, "none");
            proof {
                reveal_strlit("none");
            }
        },
    }
}

proof fn lemma_entries_none(entries: Seq<(KeyView, ValueView)>, k: int)
    requires
        0 <= k <= entries.len(),
        mold_entries(entries.take(k)) is None,
    ensures
        mold_entries(entries) is None,
    decreases entries.len() - k,
{
    if k < entries.len() {
        assert(entries.take(k + 1).drop_last() == entries.take(k));
        lemma_entries_none(entries, k + 1);
    } else {
        assert(entries.take(k) == entries);
    }
}

/// Appends the source forms of a map's entries.
fn mold_entries_into(entries: &Vec<(MapKey, Value)>, out: &mut String) -> (ok: bool)
    ensures
        ok == mold_entries(view_keyed(entries@)) is Some,
        ok ==> final(out)@ == old(out)@ + mold_entries(view_keyed(entries@))->Some_0,
    decreases entries, 0nat,
{
    let ghost es = view_keyed(entries@);
    proof {
        lemma_view_keyed(entries@);
    }
    let ghost start = out@;
    let mut i: usize = 0;
    while i < entries.len()
        invariant
            i <= entries@.len(),
            es == view_keyed(entries@),
            es.len() == entries@.len(),
            forall|j: int| 0 <= j < entries@.len() ==> #[trigger] es[j] == (entries@[j].0@, entries@[j].1@),
            mold_entries(es.take(i as int)) is Some,
            out@ == start + mold_entries(es.take(i as int))->Some_0,
        decreases entries.len() - i,
    {
        proof {
            assert(es.take(i + 1).drop_last() == es.take(i as int));
            assert(es.take(i + 1).last() == es[i as int]);
            assert(decreases_to!(entries => entries@[i as int].1));
        }
        if i > 0 {
            push_char(out, ' ');
        }
        push_key_mold(out, &entries[i].0);
        push_char(out, ' ');
        let ok = mold_into(&entries[i].1, out);
        if !ok {
            proof {
                lemma_entries_none(es, i + 1);
            }
            return false;
        }
        i = i + 1;
        assert(out@ =~= start + mold_entries(es.take(i as int))->Some_0);
    }
    assert(es.take(i as int) == es);
    true
}

/// Appends the source forms (`form` false) or the forms (`form` true) of
/// `items`, joined by single spaces.
fn mold_items_into(items: &Vec<Value>, out: &mut String, form: bool) -> (ok: bool)
    ensures
        ok == joined(view_items(items@), form) is Some,
        ok ==> final(out)@ == old(out)@ + joined(view_items(items@), form)->Some_0,
    decreases items, 0nat,
{
    let ghost vs = view_items(items@);
    proof {
        lemma_view_items(items@);
    }
    let ghost start = out@;
    let mut i: usize = 0;
    while i < items.len()
        invariant
            i <= items@.len(),
            vs == view_items(items@),
            vs.len() == items@.len(),
            forall|j: int| 0 <= j < items@.len() ==> #[trigger] vs[j] == view_value_of(items@[j]),
            joined(vs.take(i as int), form) is Some,
            out@ == start + joined(vs.take(i as int), form)->Some_0,
        decreases items.len() - i,
    {
        proof {
            assert(vs.take(i + 1).drop_last() == vs.take(i as int));
            assert(vs.take(i + 1).last() == vs[i as int]);
        }
        if i > 0 {
            push_char(out, ' ');
        }
        let ghost before = out@;
        let ok = if form {
            form_into(&items[i], out)
        } else {
            mold_into(&items[i], out)
        };
        if !ok {
            proof {
                lemma_joined_none(vs, i + 1, form);
            }
            return false;
        }
        i = i + 1;
        assert(out@ =~= start + joined(vs.take(i as int), form)->Some_0);
    }
    assert(vs.take(i as int) == vs);
    true
}

pub open spec fn view_value_of(v: Value) -> ValueView {
    v@
}

/// The source forms (`form` false) or forms (`form` true) of `items`,
/// joined by single spaces.
pub open spec fn joined(items: Seq<ValueView>, form: bool) -> Option<Seq<char>> {
    if form {
        form_items(items)
    } else {
        mold_items(items)
    }
}

proof fn lemma_joined_none(items: Seq<ValueView>, k: int, form: bool)
    requires
        0 <= k <= items.len(),
        joined(items.take(k), form) is None,
    ensures
        joined(items, form) is None,
    decreases items.len() - k,
{
    if k < items.len() {
        assert(items.take(k + 1).drop_last() == items.take(k));
        lemma_joined_none(items, k + 1, form);
    } else {
        assert(items.take(k) == items);
    }
}

/// Appends the form of `v`; false when it has none.
fn form_into(v: &Value, out: &mut String) -> (ok: bool)
    ensures
        ok == form_spec(v@) is Some,
        ok ==> final(out)@ == old(out)@ + form_spec(v@)->Some_0,
    decreases v, 1nat,
{
    match v {
        Value::Str(s) | Value::Word(s) | Value::SetWord(s) | Value::GetWord(s) | Value::LitWord(s)
        | Value::File(s) => {
            push_str(out, s.as_str());
            true
        },
        Value::Char(c) => {
            push_char(out, *c);
            true
        },
        Value::Block(items) => mold_items_into(items, out, true),
        Value::Paren(items) => mold_items_into(items, out, true),
        _ => mold_into(v, out),
    }
}

// ---------------------------------------------------------------------------
// The natives
// ---------------------------------------------------------------------------

/// The source form of `v` as a string.
pub fn mold_value(v: &Value) -> (r: Option<String>)
    ensures
        r is Some == mold_spec(v@) is Some,
        r matches Some(s) ==> s@ == mold_spec(v@)->Some_0,
{
    let mut out = String::new();
    if mold_into(v, &mut out) {
        Some(out)
    } else {
        None
    }
}

/// The form of `v` as a string.
pub fn form_value(v: &Value) -> (r: Option<String>)
    ensures
        r is Some == form_spec(v@) is Some,
        r matches Some(s) ==> s@ == form_spec(v@)->Some_0,
{
    let mut out = String::new();
    if form_into(v, &mut out) {
        Some(out)
    } else {
        None
    }
}

/// What `mold` answers: the source form as a `string!`; with `/only`, a
/// block's elements without the enclosing brackets.
pub open spec fn mold_native_spec(args: Seq<Value>, only: bool) -> Result<ValueView, MoldError> {
    if args.len() != 1 {
        Err(MoldError::Arity { got: args.len() as usize })
    } else {
        let text = match args[0]@ {
            ValueView::Block(items) => if only {
                mold_items(items)
            } else {
                mold_spec(args[0]@)
            },
            _ => mold_spec(args[0]@),
        };
        match text {
            Some(t) => Ok(ValueView::Str(t)),
            None => Err(MoldError::Unmoldable),
        }
    }
}

/// `mold value` and `mold/only value`.
pub fn mold_native(args: &[Value], refs: &RefineArgs) -> (r: Result<Value, MoldError>)
    ensures
        match r {
            Ok(v) => mold_native_spec(args@, refs.spec_has("only"@)) == Ok::<ValueView, MoldError>(
                v@,
            ),
            Err(e) => mold_native_spec(args@, refs.spec_has("only"@)) == Err::<ValueView, MoldError>(
                e,
            ),
        },
{
    if args.len() != 1 {
        return Err(MoldError::Arity { got: args.len() });
    }
    let only = refs.has("only");
    let mut out = String::new();
    let ok = match &args[0] {
        Value::Block(items) => if only {
            mold_items_into(items, &mut out, false)
        } else {
            mold_into(&args[0], &mut out)
        },
        _ => mold_into(&args[0], &mut out),
    };
    if ok {
        Ok(Value::Str(out))
    } else {
        Err(MoldError::Unmoldable)
    }
}

/// What `form` answers: the form as a `string!`.
pub open spec fn form_native_spec(args: Seq<Value>) -> Result<ValueView, MoldError> {
    if args.len() != 1 {
        Err(MoldError::Arity { got: args.len() as usize })
    } else {
        match form_spec(args[0]@) {
            Some(t) => Ok(ValueView::Str(t)),
            None => Err(MoldError::Unmoldable),
        }
    }
}

/// `form value` (and `to-string value`).
pub fn form_native(args: &[Value]) -> (r: Result<Value, MoldError>)
    ensures
        match r {
            Ok(v) => form_native_spec(args@) == Ok::<ValueView, MoldError>(v@),
            Err(e) => form_native_spec(args@) == Err::<ValueView, MoldError>(e),
        },
{
    if args.len() != 1 {
        return Err(MoldError::Arity { got: args.len() });
    }
    let mut out = String::new();
    if form_into(&args[0], &mut out) {
        Ok(Value::Str(out))
    } else {
        Err(MoldError::Unmoldable)
    }
}

/// The line `print` writes for an evaluated value: its form and a newline.
pub fn print_text(v: &Value) -> (r: Option<String>)
    ensures
        r is Some == form_spec(v@) is Some,
        r matches Some(s) ==> s@ == form_spec(v@)->Some_0.push('\n'),
{
    let mut out = String::new();
    if form_into(v, &mut out) {
        push_char(&mut out, '\n');
        Some(out)
    } else {
        None
    }
}

} // verus!
