//! `bitset!` values: sets of small non-negative integers (char code points
//! and bytes), held as a vector of bits.
//!
//! `make bitset!` takes a string (one bit per char), a char, a binary (its
//! bit pattern), an integer (an empty bitset of that many bits), a block of
//! those (with `#"a" - #"z"` and `1 - 9` ranges and nested blocks) or a
//! bitset (a copy). A fresh charset has 256 clear bits; setting a bit past
//! the end grows the bitset to hold it. `union`, `intersect` and
//! `difference` answer the combined set; `extract?` tests membership.
use vstd::prelude::*;

use crate::value::{clone_value, kind, kind_of, lemma_view_items, view_items, Kind, Value, ValueView};

verus! {

broadcast use vstd::string::group_string_axioms;

// ---------------------------------------------------------------------------
// The model
// ---------------------------------------------------------------------------

/// Whether bit `i` is set (bits past the end are clear).
pub open spec fn bit(bits: Seq<bool>, i: int) -> bool {
    0 <= i < bits.len() && bits[i]
}

/// `bits` with bit `i` set, grown with clear bits to hold it when needed.
pub open spec fn with_bit(bits: Seq<bool>, i: nat) -> Seq<bool> {
    if i < bits.len() {
        bits.update(i as int, true)
    } else {
        bits + Seq::new((i - bits.len()) as nat, |k: int| false).push(true)
    }
}

/// `bits` with every index of `idx` set, in order.
pub open spec fn with_bits(bits: Seq<bool>, idx: Seq<nat>) -> Seq<bool>
    decreases idx.len(),
{
    if idx.len() == 0 {
        bits
    } else {
        with_bit(with_bits(bits, idx.drop_last()), idx.last())
    }
}

/// A fresh charset: 256 clear bits.
pub open spec fn empty_charset() -> Seq<bool> {
    Seq::new(256, |i: int| false)
}

/// The union: a bit is set when it is set in either.
pub open spec fn union_bits(a: Seq<bool>, b: Seq<bool>) -> Seq<bool> {
    let n = if a.len() >= b.len() {
        a.len()
    } else {
        b.len()
    };
    Seq::new(n, |i: int| bit(a, i) || bit(b, i))
}

/// The intersection, as long as `a`.
pub open spec fn intersect_bits(a: Seq<bool>, b: Seq<bool>) -> Seq<bool> {
    Seq::new(a.len(), |i: int| a[i] && bit(b, i))
}

/// The difference `a \ b`, as long as `a`.
pub open spec fn difference_bits(a: Seq<bool>, b: Seq<bool>) -> Seq<bool> {
    Seq::new(a.len(), |i: int| a[i] && !bit(b, i))
}

/// The code point of `c`.
pub open spec fn code_of(c: char) -> nat {
    c as u32 as nat
}

proof fn lemma_code_injective(c: char, d: char)
    requires
        code_of(c) == code_of(d),
    ensures
        c == d,
{
    assert(c as u32 as int == c as int);
    assert(d as u32 as int == d as int);
}

/// The code points of `s`.
pub open spec fn char_codes(s: Seq<char>) -> Seq<nat> {
    s.map_values(|c: char| code_of(c))
}

/// The code points of `s` below 256.
pub open spec fn byte_codes(s: Seq<char>) -> Seq<nat>
    decreases s.len(),
{
    if s.len() == 0 {
        Seq::empty()
    } else if code_of(s.last()) < 256 {
        byte_codes(s.drop_last()).push(code_of(s.last()))
    } else {
        byte_codes(s.drop_last())
    }
}

/// The bytes of `b` as indices.
pub open spec fn byte_indices(b: Seq<u8>) -> Seq<nat> {
    b.map_values(|x: u8| x as nat)
}

/// The indices `lo..=hi` of a range whose ends come in either order.
pub open spec fn range_indices(x: u8, y: u8) -> Seq<nat> {
    let (lo, hi) = if x <= y {
        (x, y)
    } else {
        (y, x)
    };
    Seq::new((hi - lo + 1) as nat, |k: int| (lo + k) as nat)
}

/// The bit pattern of a binary: bit `8i + j` is bit `j` of byte `i`.
pub open spec fn binary_bits(b: Seq<u8>) -> Seq<bool> {
    Seq::new(8 * b.len(), |k: int| (b[k / 8] >> ((k % 8) as u8)) & 1u8 == 1u8)
}

/// The word `-` that separates the ends of a range.
pub open spec fn is_dash(v: ValueView) -> bool {
    v == ValueView::Word(seq!['-'])
}

/// The bits a block spec adds to `acc`, from element `i` on.
pub open spec fn block_bits(data: Seq<ValueView>, i: int, acc: Seq<bool>) -> Seq<bool>
    decreases data, data.len() - i,
{
    if i < 0 || i >= data.len() {
        acc
    } else {
        match data[i] {
            ValueView::Char(c) => if i + 2 < data.len() && is_dash(data[i + 1])
                && data[i + 2] is Char {
                block_bits(
                    data,
                    i + 3,
                    with_bits(acc, range_indices(c as u32 as u8, data[i + 2]->Char_0 as u32 as u8)),
                )
            } else {
                block_bits(data, i + 1, with_bit(acc, code_of(c)))
            },
            ValueView::Integer(n) => if i + 2 < data.len() && is_dash(data[i + 1])
                && data[i + 2] is Integer {
                block_bits(
                    data,
                    i + 3,
                    with_bits(acc, range_indices(n as u32 as u8, data[i + 2]->Integer_0 as u32 as u8)),
                )
            } else if 0 <= n <= 255 {
                block_bits(data, i + 1, with_bit(acc, n as nat))
            } else {
                block_bits(data, i + 1, acc)
            },
            ValueView::Str(s) => block_bits(data, i + 1, with_bits(acc, byte_codes(s))),
            ValueView::Binary(b) => block_bits(data, i + 1, with_bits(acc, byte_indices(b))),
            ValueView::Block(items) => block_bits(
                data,
                i + 1,
                union_bits(acc, block_bits(items, 0, empty_charset())),
            ),
            ValueView::Bitset(b) => block_bits(data, i + 1, union_bits(acc, b)),
            _ => block_bits(data, i + 1, acc),
        }
    }
}

// ---------------------------------------------------------------------------
// Errors
// ---------------------------------------------------------------------------

/// The bitset native an error came from.
#[derive(Clone, Copy, Debug, PartialEq, Eq)]
pub enum SetOp {
    Union,
    Intersect,
    Difference,
    Extract,
}

/// Why a bitset native refused its arguments.
#[derive(Clone, Copy, Debug, PartialEq, Eq)]
pub enum BitsetError {
    /// The native was called with `got` arguments instead of `wanted`.
    Arity { wanted: usize, got: usize },
    /// `make bitset!` of a negative size.
    NegativeSize(i64),
    /// `make bitset!` of a datatype it cannot build from.
    BadSpec(Kind),
    /// The native `op` expected a `bitset!` and found this datatype.
    NotBitset { op: SetOp, found: Kind },
    /// `extract?` of something other than a char or an integer.
    NotIndex(Kind),
}

// ---------------------------------------------------------------------------
// Building bits
// ---------------------------------------------------------------------------

fn charset() -> (r: Vec<bool>)
    ensures
        r@ == empty_charset(),
{
    let mut r: Vec<bool> = Vec::new();
    let mut i: usize = 0;
    while i < 256
        invariant
            i <= 256,
            r@ == Seq::new(i as nat, |k: int| false),
        decreases 256 - i,
    {
        r.push(false);
        i = i + 1;
        assert(r@ =~= Seq::new(i as nat, |k: int| false));
    }
    r
}

fn set_bit(bits: &mut Vec<bool>, i: usize)
    ensures
        final(bits)@ == with_bit(old(bits)@, i as nat),
{
    if i < bits.len() {
        bits.set(i, true);
    } else {
        let ghost start = bits@;
        while bits.len() < i
            invariant
                start.len() <= bits@.len() <= i,
                bits@ == start + Seq::new((bits@.len() - start.len()) as nat, |k: int| false),
            decreases i - bits@.len(),
        {
            bits.push(false);
            assert(bits@ =~= start + Seq::new((bits@.len() - start.len()) as nat, |k: int| false));
        }
        bits.push(true);
    }
}

fn set_all(bits: &mut Vec<bool>, idx: &Vec<usize>)
    ensures
        final(bits)@ == with_bits(old(bits)@, idx@.map_values(|x: usize| x as nat)),
{
    let ghost start = bits@;
    let ghost nats = idx@.map_values(|x: usize| x as nat);
    let mut k: usize = 0;
    while k < idx.len()
        invariant
            k <= idx@.len(),
            nats == idx@.map_values(|x: usize| x as nat),
            bits@ == with_bits(start, nats.take(k as int)),
        decreases idx@.len() - k,
    {
        proof {
            assert(nats.take(k + 1).drop_last() == nats.take(k as int));
        }
        set_bit(bits, idx[k]);
        k = k + 1;
    }
    assert(nats.take(idx@.len() as int) == nats);
}

proof fn lemma_with_bits_step(bits: Seq<bool>, idx: Seq<nat>, k: int)
    requires
        0 <= k < idx.len(),
    ensures
        with_bits(bits, idx.take(k + 1)) == with_bit(with_bits(bits, idx.take(k)), idx[k]),
{
    assert(idx.take(k + 1).drop_last() == idx.take(k));
}

fn set_range(bits: &mut Vec<bool>, x: u8, y: u8)
    ensures
        final(bits)@ == with_bits(old(bits)@, range_indices(x, y)),
{
    let (lo, hi) = if x <= y {
        (x, y)
    } else {
        (y, x)
    };
    let ghost start = bits@;
    let ghost idx = range_indices(x, y);
    let mut b: u16 = lo as u16;
    while b <= hi as u16
        invariant
            lo <= b <= hi as u16 + 1,
            idx == range_indices(x, y),
            idx.len() == hi - lo + 1,
            forall|k: int| 0 <= k < idx.len() ==> #[trigger] idx[k] == lo + k,
            bits@ == with_bits(start, idx.take(b - lo)),
        decreases hi as u16 + 1 - b,
    {
        proof {
            lemma_with_bits_step(start, idx, b - lo);
        }
        set_bit(bits, b as usize);
        b = b + 1;
    }
    assert(idx.take(idx.len() as int) == idx);
}

fn set_string(bits: &mut Vec<bool>, s: &String, all: bool)
    ensures
        final(bits)@ == with_bits(old(bits)@, if all {
            char_codes(s@)
        } else {
            byte_codes(s@)
        }),
{
    let ghost start = bits@;
    let t = s.as_str();
    for c in it: t.chars()
        invariant
            it.seq() == s@,
            bits@ == with_bits(start, if all {
                char_codes(s@.take(it.index() as int))
            } else {
                byte_codes(s@.take(it.index() as int))
            }),
    {
        let ghost i = it.index() as int;
        proof {
            assert(s@.take(i + 1).drop_last() == s@.take(i));
            assert(s@.take(i + 1).last() == c);
            assert(char_codes(s@.take(i + 1)) =~= char_codes(s@.take(i)).push(code_of(c)));
        }
        let code = c as u32;
        let ghost prev = bits@;
        let ghost done = if all {
            char_codes(s@.take(i))
        } else {
            byte_codes(s@.take(i))
        };
        if all || code < 256 {
            proof {
                assert(done.push(code as nat).drop_last() =~= done);
            }
            set_bit(bits, code as usize);
            assert(bits@ == with_bits(start, done.push(code as nat)));
        }
        proof {
            let t = s@.take(i + 1);
            if all {
                assert(char_codes(t) == done.push(code as nat));
            } else if code < 256 {
                assert(byte_codes(t) == byte_codes(t.drop_last()).push(code_of(t.last())));
                assert(byte_codes(t) == done.push(code as nat));
            } else {
                assert(byte_codes(t) == byte_codes(t.drop_last()));
                assert(byte_codes(t) == done);
            }
        }
    }
    assert(s@.take(s@.len() as int) == s@);
}

fn set_bytes(bits: &mut Vec<bool>, b: &Vec<u8>)
    ensures
        final(bits)@ == with_bits(old(bits)@, byte_indices(b@)),
{
    let ghost start = bits@;
    let ghost idx = byte_indices(b@);
    let mut k: usize = 0;
    while k < b.len()
        invariant
            k <= b@.len(),
            idx == byte_indices(b@),
            bits@ == with_bits(start, idx.take(k as int)),
        decreases b@.len() - k,
    {
        proof {
            lemma_with_bits_step(start, idx, k as int);
        }
        set_bit(bits, b[k] as usize);
        k = k + 1;
    }
    assert(idx.take(b@.len() as int) == idx);
}

/// The union of `a` and `b`.
pub fn union_of(a: &Vec<bool>, b: &Vec<bool>) -> (r: Vec<bool>)
    ensures
        r@ == union_bits(a@, b@),
{
    let n = if a.len() >= b.len() {
        a.len()
    } else {
        b.len()
    };
    let mut r: Vec<bool> = Vec::new();
    let mut i: usize = 0;
    while i < n
        invariant
            n == (if a@.len() >= b@.len() {
                a@.len()
            } else {
                b@.len()
            }),
            i <= n,
            r@.len() == i,
            forall|k: int| 0 <= k < i ==> #[trigger] r@[k] == (bit(a@, k) || bit(b@, k)),
        decreases n - i,
    {
        let x = i < a.len() && a[i];
        let y = i < b.len() && b[i];
        r.push(x || y);
        i = i + 1;
    }
    assert(r@ =~= union_bits(a@, b@));
    r
}

/// The intersection (`keep` true) or difference (`keep` false) of `a`
/// and `b`.
fn meet_of(a: &Vec<bool>, b: &Vec<bool>, keep: bool) -> (r: Vec<bool>)
    ensures
        r@ == (if keep {
            intersect_bits(a@, b@)
        } else {
            difference_bits(a@, b@)
        }),
{
    let mut r: Vec<bool> = Vec::new();
    let mut i: usize = 0;
    while i < a.len()
        invariant
            i <= a@.len(),
            r@.len() == i,
            forall|k: int|
                0 <= k < i ==> #[trigger] r@[k] == (a@[k] && (if keep {
                    bit(b@, k)
                } else {
                    !bit(b@, k)
                })),
        decreases a@.len() - i,
    {
        let y = i < b.len() && b[i];
        r.push(a[i] && (if keep {
            y
        } else {
            !y
        }));
        i = i + 1;
    }
    if keep {
        assert(r@ =~= intersect_bits(a@, b@));
    } else {
        assert(r@ =~= difference_bits(a@, b@));
    }
    r
}

fn copy_bits(b: &Vec<bool>) -> (r: Vec<bool>)
    ensures
        r@ == b@,
{
    let mut r: Vec<bool> = Vec::new();
    let mut i: usize = 0;
    while i < b.len()
        invariant
            i <= b@.len(),
            r@ == b@.take(i as int),
        decreases b@.len() - i,
    {
        r.push(b[i]);
        i = i + 1;
        assert(r@ =~= b@.take(i as int));
    }
    assert(b@.take(b@.len() as int) == b@);
    r
}

/// The bit pattern of a binary (`binary_to_bitset`).
fn binary_to_bitset(bytes: &Vec<u8>) -> (r: Vec<bool>)
    requires
        8 * bytes@.len() <= usize::MAX,
    ensures
        r@ == binary_bits(bytes@),
{
    let n = bytes.len() * 8;
    let mut r: Vec<bool> = Vec::new();
    let mut k: usize = 0;
    while k < n
        invariant
            n == 8 * bytes@.len(),
            k <= n,
            r@.len() == k,
            forall|j: int|
                0 <= j < k ==> #[trigger] r@[j] == ((bytes@[j / 8] >> ((j % 8) as u8)) & 1u8 == 1u8),
        decreases n - k,
    {
        let byte = bytes[k / 8];
        let shift = (k % 8) as u8;
        r.push((byte >> shift) & 1u8 == 1u8);
        k = k + 1;
    }
    assert(r@ =~= binary_bits(bytes@));
    r
}

fn dash(v: &Value) -> (r: bool)
    ensures
        r == is_dash(v@),
{
    match v {
        Value::Word(s) => {
            let t = s.as_str();
            if t.unicode_len() == 1 && t.get_char(0) == '-' {
                proof {
                    assert(s@ =~= seq!['-']);
                }
                true
            } else {
                false
            }
        },
        _ => false,
    }
}

/// Builds the bits of a block spec on top of `acc`, from element `start`
/// on.
fn build_from_block(data: &Vec<Value>, start: usize, acc: Vec<bool>) -> (r: Vec<bool>)
    ensures
        r@ == block_bits(view_items(data@), start as int, acc@),
    decreases data, data@.len() - start,
{
    let ghost vs = view_items(data@);
    proof {
        lemma_view_items(data@);
    }
    let ghost init = acc@;
    let mut acc = acc;
    let mut i = start;
    while i < data.len()
        invariant
            vs == view_items(data@),
            vs.len() == data@.len(),
            forall|j: int| 0 <= j < data@.len() ==> #[trigger] vs[j] == data@[j]@,
            start <= i,
            block_bits(vs, i as int, acc@) == block_bits(vs, start as int, init),
        decreases data@.len() - i,
    {
        let ghost before = acc@;
        match &data[i] {
            Value::Char(c) => {
                if data.len() - i > 2 && dash(&data[i + 1]) {
                    if let Value::Char(hi) = &data[i + 2] {
                        set_range(&mut acc, (*c as u32) as u8, (*hi as u32) as u8);
                        i = i + 3;
                        continue;
                    }
                }
                set_bit(&mut acc, (*c as u32) as usize);
                i = i + 1;
            },
            Value::Integer(n) => {
                if data.len() - i > 2 && dash(&data[i + 1]) {
                    if let Value::Integer(hi) = &data[i + 2] {
                        set_range(&mut acc, (*n as u32) as u8, (*hi as u32) as u8);
                        i = i + 3;
                        continue;
                    }
                }
                if 0 <= *n && *n <= 255 {
                    set_bit(&mut acc, *n as usize);
                }
                i = i + 1;
            },
            Value::Str(s) => {
                set_string(&mut acc, s, false);
                i = i + 1;
            },
            Value::Binary(b) => {
                set_bytes(&mut acc, b);
                i = i + 1;
            },
            Value::Block(items) => {
                let inner = build_from_block(items, 0, charset());
                acc = union_of(&acc, &inner);
                i = i + 1;
            },
            Value::Bitset(b) => {
                acc = union_of(&acc, b);
                i = i + 1;
            },
            _ => {
                i = i + 1;
            },
        }
    }
    acc
}

// ---------------------------------------------------------------------------
// The natives
// ---------------------------------------------------------------------------

/// The bits `make bitset! spec` builds.
pub open spec fn make_spec(spec: ValueView) -> Result<Seq<bool>, BitsetError> {
    match spec {
        ValueView::Str(s) => Ok(with_bits(empty_charset(), char_codes(s))),
        ValueView::Char(c) => Ok(with_bit(empty_charset(), code_of(c))),
        ValueView::Binary(b) => Ok(binary_bits(b)),
        ValueView::Integer(n) => if n < 0 {
            Err(BitsetError::NegativeSize(n))
        } else {
            Ok(Seq::new(n as nat, |k: int| false))
        },
        ValueView::Block(items) => Ok(block_bits(items, 0, empty_charset())),
        ValueView::Bitset(b) => Ok(b),
        _ => Err(BitsetError::BadSpec(kind_of(spec))),
    }
}

/// The bitset a result of `make_spec` stands for.
pub open spec fn as_bitset(r: Result<Seq<bool>, BitsetError>) -> Result<ValueView, BitsetError> {
    match r {
        Ok(b) => Ok(ValueView::Bitset(b)),
        Err(e) => Err(e),
    }
}

/// A result with its value taken by its view.
pub open spec fn view_res(r: Result<Value, BitsetError>) -> Result<ValueView, BitsetError> {
    match r {
        Ok(v) => Ok(v@),
        Err(e) => Err(e),
    }
}

/// A binary spec's bits must be countable in `usize`, and an integer spec
/// must be a size the machine can index.
pub open spec fn make_defined(spec: ValueView) -> bool {
    &&& spec matches ValueView::Binary(b) ==> 8 * b.len() <= usize::MAX
    &&& spec matches ValueView::Integer(n) ==> n <= usize::MAX
}

/// `make bitset! spec`.
pub fn make_bitset(spec: &Value) -> (r: Result<Value, BitsetError>)
    requires
        make_defined(spec@),
    ensures
        view_res(r) == as_bitset(make_spec(spec@)),
{
    match spec {
        Value::Str(s) => {
            let mut bits = charset();
            set_string(&mut bits, s, true);
            Ok(Value::Bitset(bits))
        },
        Value::Char(c) => {
            let mut bits = charset();
            set_bit(&mut bits, (*c as u32) as usize);
            Ok(Value::Bitset(bits))
        },
        Value::Binary(b) => Ok(Value::Bitset(binary_to_bitset(b))),
        Value::Integer(n) => {
            if *n < 0 {
                return Err(BitsetError::NegativeSize(*n));
            }
            let size = *n as usize;
            let mut bits: Vec<bool> = Vec::new();
            let mut i: usize = 0;
            while i < size
                invariant
                    i <= size,
                    bits@ == Seq::new(i as nat, |k: int| false),
                decreases size - i,
            {
                bits.push(false);
                i = i + 1;
                assert(bits@ =~= Seq::new(i as nat, |k: int| false));
            }
            Ok(Value::Bitset(bits))
        },
        Value::Block(items) => Ok(Value::Bitset(build_from_block(items, 0, charset()))),
        Value::Bitset(b) => Ok(Value::Bitset(copy_bits(b))),
        other => Err(BitsetError::BadSpec(kind(other))),
    }
}

/// `to-bitset value` and `charset value`: `make bitset!` of the first
/// argument.
pub open spec fn to_bitset_spec(args: Seq<Value>) -> Result<ValueView, BitsetError> {
    if args.len() == 0 {
        Err(BitsetError::Arity { wanted: 1, got: 0 })
    } else {
        as_bitset(make_spec(args[0]@))
    }
}

/// `to-bitset value`.
pub fn to_bitset(args: &[Value]) -> (r: Result<Value, BitsetError>)
    requires
        args@.len() > 0 ==> make_defined(args@[0]@),
    ensures
        view_res(r) == to_bitset_spec(args@),
{
    if args.len() == 0 {
        return Err(BitsetError::Arity { wanted: 1, got: 0 });
    }
    make_bitset(&args[0])
}

/// `charset value`: the bitset of a string's chars (any `make bitset!`
/// spec is accepted).
pub fn charset_native(args: &[Value]) -> (r: Result<Value, BitsetError>)
    requires
        args@.len() > 0 ==> make_defined(args@[0]@),
    ensures
        view_res(r) == to_bitset_spec(args@),
{
    to_bitset(args)
}

/// The bits of a `bitset!` operand of `op`, or the error naming `op`.
pub open spec fn expect_spec(v: ValueView, op: SetOp) -> Result<Seq<bool>, BitsetError> {
    match v {
        ValueView::Bitset(b) => Ok(b),
        _ => Err(BitsetError::NotBitset { op, found: kind_of(v) }),
    }
}

/// The bits of a `bitset!` operand of `op`, or the error naming `op`.
pub fn expect_bitset<'a>(v: &'a Value, op: SetOp) -> (r: Result<&'a Vec<bool>, BitsetError>)
    ensures
        match r {
            Ok(b) => expect_spec(v@, op) == Ok::<Seq<bool>, BitsetError>(b@),
            Err(e) => expect_spec(v@, op) == Err::<Seq<bool>, BitsetError>(e),
        },
{
    match v {
        Value::Bitset(b) => Ok(b),
        other => Err(BitsetError::NotBitset { op, found: kind(other) }),
    }
}

/// `union a b`, `intersect a b` and `difference a b`: the combined bits.
pub open spec fn set_op_spec(args: Seq<Value>, op: SetOp) -> Result<ValueView, BitsetError> {
    if args.len() != 2 {
        Err(BitsetError::Arity { wanted: 2, got: args.len() as usize })
    } else {
        match (expect_spec(args[0]@, op), expect_spec(args[1]@, op)) {
            (Err(e), _) => Err(e),
            (Ok(_), Err(e)) => Err(e),
            (Ok(a), Ok(b)) => Ok(
                ValueView::Bitset(
                    match op {
                        SetOp::Union => union_bits(a, b),
                        SetOp::Intersect => intersect_bits(a, b),
                        _ => difference_bits(a, b),
                    },
                ),
            ),
        }
    }
}

fn set_op(args: &[Value], op: SetOp) -> (r: Result<Value, BitsetError>)
    requires
        !(op is Extract),
    ensures
        view_res(r) == set_op_spec(args@, op),
{
    if args.len() != 2 {
        return Err(BitsetError::Arity { wanted: 2, got: args.len() });
    }
    let a = match expect_bitset(&args[0], op) {
        Ok(a) => a,
        Err(e) => return Err(e),
    };
    let b = match expect_bitset(&args[1], op) {
        Ok(b) => b,
        Err(e) => return Err(e),
    };
    let bits = match op {
        SetOp::Union => union_of(a, b),
        SetOp::Intersect => meet_of(a, b, true),
        _ => meet_of(a, b, false),
    };
    Ok(Value::Bitset(bits))
}

/// What a set operation leaves in its arguments: the first holds the
/// result (the operation changes it in place), the second is as it was;
/// on an error both are as they were.
pub open spec fn set_op_done(before: Seq<Value>, after: Seq<Value>, r: Result<Value, BitsetError>, op: SetOp) -> bool {
    match set_op_spec(before, op) {
        Ok(v) => {
            &&& r matches Ok(x) && x@ == v
            &&& after.len() == before.len()
            &&& after[0]@ == v
            &&& after[1] == before[1]
        },
        Err(e) => r == Err::<Value, BitsetError>(e) && after == before,
    }
}

fn set_op_in_place(args: &mut Vec<Value>, op: SetOp) -> (r: Result<Value, BitsetError>)
    requires
        !(op is Extract),
    ensures
        set_op_done(old(args)@, final(args)@, r, op),
{
    match set_op(args.as_slice(), op) {
        Ok(v) => {
            let copy = clone_value(&v);
            args.set(0, v);
            Ok(copy)
        },
        Err(e) => Err(e),
    }
}

/// `union a b`: `a` becomes the union of the two bitsets, and is answered.
pub fn union_native(args: &mut Vec<Value>) -> (r: Result<Value, BitsetError>)
    ensures
        set_op_done(old(args)@, final(args)@, r, SetOp::Union),
{
    set_op_in_place(args, SetOp::Union)
}

/// `intersect a b`: `a` keeps only the bits also in `b`, and is answered.
pub fn intersect_native(args: &mut Vec<Value>) -> (r: Result<Value, BitsetError>)
    ensures
        set_op_done(old(args)@, final(args)@, r, SetOp::Intersect),
{
    set_op_in_place(args, SetOp::Intersect)
}

/// `difference a b`: `a` loses the bits in `b`, and is answered.
pub fn difference_native(args: &mut Vec<Value>) -> (r: Result<Value, BitsetError>)
    ensures
        set_op_done(old(args)@, final(args)@, r, SetOp::Difference),
{
    set_op_in_place(args, SetOp::Difference)
}

/// `extract? index bitset`: whether the bit of a char's code point, or of
/// an integer (taken as a `usize`), is set.
pub open spec fn extract_spec(args: Seq<Value>) -> Result<ValueView, BitsetError> {
    if args.len() != 2 {
        Err(BitsetError::Arity { wanted: 2, got: args.len() as usize })
    } else {
        let index: Option<int> = match args[0]@ {
            ValueView::Char(c) => Some(code_of(c) as int),
            ValueView::Integer(n) => Some(n as usize as int),
            _ => None,
        };
        match index {
            None => Err(BitsetError::NotIndex(kind_of(args[0]@))),
            Some(i) => match expect_spec(args[1]@, SetOp::Extract) {
                Err(e) => Err(e),
                Ok(b) => Ok(ValueView::Logic(bit(b, i))),
            },
        }
    }
}

/// `extract? index bitset`.
pub fn extract_predicate(args: &[Value]) -> (r: Result<Value, BitsetError>)
    ensures
        view_res(r) == extract_spec(args@),
{
    if args.len() != 2 {
        return Err(BitsetError::Arity { wanted: 2, got: args.len() });
    }
    let index: usize = match &args[0] {
        Value::Char(c) => (*c as u32) as usize,
        Value::Integer(n) => *n as usize,
        other => return Err(BitsetError::NotIndex(kind(other))),
    };
    let b = match expect_bitset(&args[1], SetOp::Extract) {
        Ok(b) => b,
        Err(e) => return Err(e),
    };
    Ok(Value::Logic(index < b.len() && b[index]))
}

// ---------------------------------------------------------------------------
// Laws
// ---------------------------------------------------------------------------

/// Setting bit `i` adds exactly `i` to the members.
pub proof fn lemma_with_bit_member(b: Seq<bool>, i: nat, k: int)
    ensures
        bit(with_bit(b, i), k) == (bit(b, k) || k == i),
{
    if i >= b.len() {
        let w = with_bit(b, i);
        if 0 <= k < b.len() {
            assert(w[k] == b[k]);
        } else if b.len() <= k < i {
            assert(w[k] == false);
        }
    }
}

/// Setting the bits of `idx` adds exactly those indices to the members.
pub proof fn lemma_with_bits_member(b: Seq<bool>, idx: Seq<nat>, k: int)
    ensures
        bit(with_bits(b, idx), k) == (bit(b, k) || (k >= 0 && idx.contains(k as nat))),
    decreases idx.len(),
{
    if idx.len() > 0 {
        lemma_with_bits_member(b, idx.drop_last(), k);
        lemma_with_bit_member(with_bits(b, idx.drop_last()), idx.last(), k);
        if k >= 0 && idx.contains(k as nat) {
            let j = choose|j: int| 0 <= j < idx.len() && idx[j] == k as nat;
            if j < idx.len() - 1 {
                assert(idx.drop_last()[j] == k as nat);
            }
        }
        if k >= 0 && idx.drop_last().contains(k as nat) {
            let j = choose|j: int| 0 <= j < idx.drop_last().len() && idx.drop_last()[j] == k as nat;
            assert(idx[j] == k as nat);
        }
        if k >= 0 && idx.last() == k as nat {
            assert(idx[idx.len() - 1] == k as nat);
        }
    }
}

/// `extract? c (make bitset! s)`: a char is a member of the bitset made
/// from a string exactly when the string holds it.
pub proof fn law_string_charset_members(s: Seq<char>, c: char)
    ensures
        make_spec(ValueView::Str(s)) matches Ok(b) && bit(b, code_of(c) as int) == s.contains(c),
{
    let code = code_of(c) as int;
    lemma_with_bits_member(empty_charset(), char_codes(s), code);
    if s.contains(c) {
        let j = choose|j: int| 0 <= j < s.len() && s[j] == c;
        assert(char_codes(s)[j] == code as nat);
    }
    if char_codes(s).contains(code as nat) {
        let j = choose|j: int| 0 <= j < char_codes(s).len() && char_codes(s)[j] == code as nat;
        lemma_code_injective(s[j], c);
        assert(s.contains(c));
    }
}

/// `union`, `intersect` and `difference` are the set operations on the
/// members.
pub proof fn law_set_operations(a: Seq<bool>, b: Seq<bool>, k: int)
    ensures
        bit(union_bits(a, b), k) == (bit(a, k) || bit(b, k)),
        bit(intersect_bits(a, b), k) == (bit(a, k) && bit(b, k)),
        bit(difference_bits(a, b), k) == (bit(a, k) && !bit(b, k)),
{
}

/// A block `[lo - hi]` of two chars makes the bitset whose members are the
/// codes from the lesser end to the greater (each end taken modulo 256).
pub proof fn law_char_range(x: char, y: char, k: int)
    ensures
        ({
            let lo = x as u32 as u8;
            let hi = y as u32 as u8;
            let spec = seq![ValueView::Char(x), ValueView::Word(seq!['-']), ValueView::Char(y)];
            bit(block_bits(spec, 0, empty_charset()), k) == if lo <= hi {
                lo <= k <= hi
            } else {
                hi <= k <= lo
            }
        }),
{
    let lo = x as u32 as u8;
    let hi = y as u32 as u8;
    let spec = seq![ValueView::Char(x), ValueView::Word(seq!['-']), ValueView::Char(y)];
    let idx = range_indices(lo, hi);
    assert(is_dash(spec[1]));
    assert(block_bits(spec, 0, empty_charset()) == block_bits(spec, 3, with_bits(empty_charset(), idx)));
    lemma_with_bits_member(empty_charset(), idx, k);
    let (l, h) = if lo <= hi {
        (lo, hi)
    } else {
        (hi, lo)
    };
    if l <= k <= h {
        assert(idx[k - l] == k as nat);
    }
    if k >= 0 && idx.contains(k as nat) {
        let j = choose|j: int| 0 <= j < idx.len() && idx[j] == k as nat;
        assert(idx[j] == l + j);
    }
}

} // verus!
