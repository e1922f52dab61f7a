//! Text building blocks shared by the encoders: appending characters and
//! literals to a `String`, indentation, and decimal numerals.
use vstd::prelude::*;

verus! {

broadcast use vstd::string::group_string_axioms;

/// `String::push`: appends one character.
#[verifier::external_body]
pub(crate) fn push_char(s: &mut String, c: char)
    ensures
        final(s)@ == old(s)@.push(c),
{
    s.push(c);
}

/// `char::from_u32`: the character with code point `cp`, if `cp` is a
/// Unicode scalar value (at most 0x10FFFF and not a surrogate).
#[verifier::external_body]
pub(crate) fn char_from_u32(cp: u32) -> (r: Option<char>)
    ensures
        r is Some <==> (cp <= 0x10FFFF && !(0xD800 <= cp <= 0xDFFF)),
        r matches Some(c) ==> c == cp as char,
{
    char::from_u32(cp)
}

/// Appends `t` to `s`.
pub fn push_str(s: &mut String, t: &str)
    ensures
        final(s)@ == old(s)@ + t@,
{
    s.append(t);
}

/// `n` spaces.
pub open spec fn spaces(n: nat) -> Seq<char> {
    Seq::new(n, |i: int| ' ')
}

/// Appends `n * indent_width` spaces (`n` levels of indentation).
pub fn push_indent(out: &mut String, n: usize, indent_width: usize)
    requires
        n * indent_width <= usize::MAX,
    ensures
        final(out)@ == old(out)@ + spaces((n * indent_width) as nat),
{
    let total = n * indent_width;
    let mut i: usize = 0;
    while i < total
        invariant
            i <= total,
            out@ == old(out)@ + spaces(i as nat),
        decreases total - i,
    {
        push_char(out, ' ');
        i = i + 1;
        assert(spaces(i as nat) == spaces((i - 1) as nat).push(' '));
    }
}

/// The decimal digit for `d < 10`.
pub open spec fn digit_char(d: nat) -> char {
    ((d + 48) as u32) as char
}

/// Decimal numeral of `n`, most significant digit first, no leading zeros.
pub open spec fn nat_text(n: nat) -> Seq<char>
    decreases n,
{
    if n < 10 {
        seq![digit_char(n)]
    } else {
        nat_text(n / 10).push(digit_char(n % 10))
    }
}

/// Decimal numeral of `n`, with a leading `-` when negative (`{}` of an
/// integer).
pub open spec fn int_text(n: int) -> Seq<char> {
    if n < 0 {
        seq!['-'] + nat_text((-n) as nat)
    } else {
        nat_text(n as nat)
    }
}

/// `t` left-padded with `0` to at least `width` characters.
pub open spec fn zero_pad(t: Seq<char>, width: nat) -> Seq<char> {
    if t.len() < width {
        Seq::new((width - t.len()) as nat, |i: int| '0') + t
    } else {
        t
    }
}

pub fn digit(d: u64) -> (c: char)
    requires
        d < 10,
    ensures
        c == digit_char(d as nat),
{
    assert((d + 48) as u32 == (d + 48) as u32);
    ((d + 48) as u8) as char
}

/// Appends the decimal numeral of `n`.
pub fn push_nat(out: &mut String, n: u64)
    ensures
        final(out)@ == old(out)@ + nat_text(n as nat),
    decreases n,
{
    if n >= 10 {
        push_nat(out, n / 10);
        push_char(out, digit(n % 10));
        assert(old(out)@ + nat_text(n as nat) == old(out)@ + nat_text((n / 10) as nat) + seq![
            digit_char((n % 10) as nat),
        ]);
    } else {
        push_char(out, digit(n));
    }
}

/// Appends the decimal numeral of `n` (`write!(out, "{n}")`).
pub fn push_int(out: &mut String, n: i64)
    ensures
        final(out)@ == old(out)@ + int_text(n as int),
{
    if n < 0 {
        push_char(out, '-');
        let m: u64 = ((-(n + 1)) as u64) + 1;
        assert(m == -n);
        push_nat(out, m);
        assert(old(out)@.push('-') + nat_text(m as nat) == old(out)@ + (seq!['-'] + nat_text(
            m as nat,
        )));
    } else {
        push_nat(out, n as u64);
    }
}

/// Appends the decimal numeral of `n`, zero-padded to `width` digits
/// (`{:0width$}` of a non-negative integer).
pub fn push_padded(out: &mut String, n: u64, width: usize)
    ensures
        final(out)@ == old(out)@ + zero_pad(nat_text(n as nat), width as nat),
{
    let mut digits = String::new();
    push_nat(&mut digits, n);
    let len = digits.as_str().unicode_len();
    let ghost t = digits@;
    if len < width {
        let mut i: usize = 0;
        while i < width - len
            invariant
                len < width,
                i <= width - len,
                out@ == old(out)@ + Seq::new(i as nat, |k: int| '0'),
            decreases width - len - i,
        {
            push_char(out, '0');
            i = i + 1;
            assert(Seq::new(i as nat, |k: int| '0') == Seq::new((i - 1) as nat, |k: int| '0').push(
                '0',
            ));
        }
    }
    push_str(out, digits.as_str());
    assert(final(out)@ == old(out)@ + zero_pad(t, width as nat));
}

} // verus!
