//! Byte codecs: `checksum`, `compress`/`decompress`, `enbase`/`debase`,
//! `encode`/`decode` (`url`). All take a `string!` (its UTF-8 bytes) or a
//! `binary!`.
use vstd::prelude::*;
use vstd::utf8::{encode_utf8, is_ascii_chars};

use std::io::{Read, Write};

use base64::Engine;
use sha2::Digest;

use crate::json_decode::hex_value;
use crate::native::RefineArgs;
use crate::text::push_char;
use crate::value::{Value, ValueView};

verus! {

broadcast use vstd::string::group_string_axioms;

// ---------------------------------------------------------------------------
// The outside crates
// ---------------------------------------------------------------------------

#[verifier::external_type_specification]
#[verifier::external_body]
pub struct ExBase64DecodeError(base64::DecodeError);

/// The text that base64's standard engine (standard alphabet, with
/// padding) produces for `data`.
pub uninterp spec fn base64_standard_encode(data: Seq<u8>) -> Seq<char>;

/// The bytes base64's standard engine decodes `input` to, if it is valid.
pub uninterp spec fn base64_standard_decode(input: Seq<u8>) -> Option<Seq<u8>>;

/// `base64::engine::general_purpose::STANDARD.encode(data)`: the contract
/// names the result and states that the same engine decodes it back.
#[verifier::external_body]
pub(crate) fn base64_encode(data: &[u8]) -> (r: String)
    ensures
        r@ == base64_standard_encode(data@),
        base64_standard_decode(encode_utf8(r@)) == Some(data@),
{
    base64::engine::general_purpose::STANDARD.encode(data)
}

/// `base64::engine::general_purpose::STANDARD.decode(input)`: the contract
/// names the result; the error value is left open.
#[verifier::external_body]
fn base64_decode(input: &[u8]) -> (r: Result<Vec<u8>, base64::DecodeError>)
    ensures
        r is Ok <==> base64_standard_decode(input@) is Some,
        r matches Ok(v) ==> Some(v@) == base64_standard_decode(input@),
{
    base64::engine::general_purpose::STANDARD.decode(input)
}

/// One bit of the reflected CRC-32 (IEEE) register: shift right, and fold
/// in the polynomial `0xEDB88320` when the bit shifted out is set.
pub open spec fn crc_shift(c: u32) -> u32 {
    if c & 1 == 1 {
        (c >> 1u32) ^ 0xEDB8_8320u32
    } else {
        c >> 1u32
    }
}

/// `n` bits of the register.
pub open spec fn crc_shifts(c: u32, n: nat) -> u32
    decreases n,
{
    if n == 0 {
        c
    } else {
        crc_shifts(crc_shift(c), (n - 1) as nat)
    }
}

/// The register after `data`, from `c`: each byte is xored into the low
/// bits, then eight bits are shifted.
pub open spec fn crc_feed(c: u32, data: Seq<u8>) -> u32
    decreases data.len(),
{
    if data.len() == 0 {
        c
    } else {
        crc_shifts(crc_feed(c, data.drop_last()) ^ (data.last() as u32), 8)
    }
}

/// The CRC-32 (IEEE) checksum of `data`: the register starts at
/// `0xFFFFFFFF` and the result is its complement.
pub open spec fn crc32_of(data: Seq<u8>) -> u32 {
    crc_feed(0xFFFF_FFFFu32, data) ^ 0xFFFF_FFFFu32
}

/// `crc32fast::Hasher` fed `data`, then finalized: the contract claims that
/// it computes the CRC-32 (IEEE) checksum, as the crate documents.
#[verifier::external_body]
fn crc32(data: &[u8]) -> (r: u32)
    ensures
        r == crc32_of(data@),
{
    let mut h = crc32fast::Hasher::new();
    h.update(data);
    h.finalize()
}

/// The SHA-256 digest of `data`.
pub uninterp spec fn sha256_of(data: Seq<u8>) -> Seq<u8>;

/// `sha2::Sha256` fed `data`, then finalized: the contract names the
/// result and states its length (32 bytes).
#[verifier::external_body]
fn sha256(data: &[u8]) -> (r: Vec<u8>)
    ensures
        r@ == sha256_of(data@),
        r@.len() == 32,
{
    let mut h = sha2::Sha256::new();
    h.update(data);
    h.finalize().to_vec()
}

/// The zlib stream (default compression level) `flate2` makes of `data`.
pub uninterp spec fn zlib_compress(data: Seq<u8>) -> Seq<u8>;

/// The bytes a zlib stream inflates to, if it is a valid stream.
pub uninterp spec fn zlib_inflate(data: Seq<u8>) -> Option<Seq<u8>>;

/// `flate2::write::ZlibEncoder` (default level) over a `Vec`, fed `data`,
/// then finished. Writing into a `Vec` cannot fail, so the encoder always
/// answers; the contract names the result and states that it inflates back
/// to `data`.
#[verifier::external_body]
fn zlib_encode(data: &[u8]) -> (r: Option<Vec<u8>>)
    ensures
        r is Some,
        r matches Some(v) ==> v@ == zlib_compress(data@) && zlib_inflate(v@) == Some(data@),
{
    let mut e = flate2::write::ZlibEncoder::new(Vec::new(), flate2::Compression::default());
    match e.write_all(data) {
        Ok(()) => e.finish().ok(),
        Err(_) => None,
    }
}

/// `flate2::read::ZlibDecoder` over `data`, read to the end: the contract
/// names the result (`None` for an invalid stream).
#[verifier::external_body]
fn zlib_decode(data: &[u8]) -> (r: Option<Vec<u8>>)
    ensures
        r is Some <==> zlib_inflate(data@) is Some,
        r matches Some(v) ==> Some(v@) == zlib_inflate(data@),
{
    let mut d = flate2::read::ZlibDecoder::new(data);
    let mut out = Vec::new();
    match d.read_to_end(&mut out) {
        Ok(_) => Some(out),
        Err(_) => None,
    }
}

// ---------------------------------------------------------------------------
// Arguments and results
// ---------------------------------------------------------------------------

/// The failures of the codec natives.
#[derive(Debug, PartialEq)]
pub enum CodecError {
    /// Called with too few arguments.
    Arity { expected: usize, got: usize },
    /// The data argument is neither a `string!` nor a `binary!`.
    NotBytes,
    /// `checksum/method` was given something other than a word.
    MethodNotWord,
    /// `checksum/method 'sha1`.
    Sha1Unsupported,
    /// A `checksum` method other than `crc32`/`sha256`.
    UnknownMethod(String),
    /// The zlib encoder failed.
    Compress,
    /// `decompress` was given an invalid zlib stream.
    Decompress,
    /// `debase` was given invalid base64.
    Base64(base64::DecodeError),
    /// The `encode`/`decode` format is not a word.
    FormatNotWord,
    /// An `encode`/`decode` format other than `url`.
    UnknownFormat(String),
}

/// The bytes a value stands for: a string's UTF-8 encoding, or a binary.
pub open spec fn value_bytes(v: ValueView) -> Option<Seq<u8>> {
    match v {
        ValueView::Str(s) => Some(encode_utf8(s)),
        ValueView::Binary(b) => Some(b),
        _ => None,
    }
}

/// The payload of a `string!` or `binary!` argument.
pub(crate) fn as_bytes(v: &Value) -> (r: Option<Vec<u8>>)
    ensures
        match value_bytes(v@) {
            Some(b) => r matches Some(x) && x@ == b,
            None => r is None,
        },
{
    match v {
        Value::Str(s) => Some(vstd::slice::slice_to_vec(s.as_str().as_bytes())),
        Value::Binary(b) => Some(vstd::slice::slice_to_vec(b.as_slice())),
        _ => None,
    }
}

// ---------------------------------------------------------------------------
// checksum
// ---------------------------------------------------------------------------

pub open spec fn method_word() -> Seq<char> {
    seq!['m', 'e', 't', 'h', 'o', 'd']
}

/// The method a `checksum` call selects: `crc32` unless `/method` names
/// another, or `None` when `/method` was given a non-word.
pub open spec fn checksum_method(refs: RefineArgs) -> Option<Seq<char>> {
    if refs.spec_has(method_word()) {
        let args = refs.refs@[refs.first_index(method_word())].1@;
        if args.len() == 0 {
            Some(seq!['c', 'r', 'c', '3', '2'])
        } else {
            match args[0]@ {
                ValueView::Word(s) => Some(s),
                ValueView::LitWord(s) => Some(s),
                ValueView::GetWord(s) => Some(s),
                _ => None,
            }
        }
    } else {
        Some(seq!['c', 'r', 'c', '3', '2'])
    }
}

/// `checksum data` / `checksum/method data 'm`: `crc32` (an integer, the
/// default) or `sha256` (a 32-byte binary).
pub fn checksum(args: &[Value], refs: &RefineArgs) -> (r: Result<Value, CodecError>)
    ensures
        args@.len() == 0 ==> r == Err::<Value, CodecError>(CodecError::Arity { expected: 1, got: 0 }),
        args@.len() > 0 ==> match value_bytes(args@[0]@) {
            None => r == Err::<Value, CodecError>(CodecError::NotBytes),
            Some(data) => match checksum_method(*refs) {
                None => r == Err::<Value, CodecError>(CodecError::MethodNotWord),
                Some(m) => if m == seq!['c', 'r', 'c', '3', '2'] {
                    r matches Ok(Value::Integer(n)) && n == crc32_of(data) as i64
                } else if m == seq!['s', 'h', 'a', '1'] {
                    r == Err::<Value, CodecError>(CodecError::Sha1Unsupported)
                } else if m == seq!['s', 'h', 'a', '2', '5', '6'] {
                    r matches Ok(Value::Binary(b)) && b@ == sha256_of(data)
                } else {
                    r matches Err(CodecError::UnknownMethod(name)) && name@ == m
                },
            },
        },
{
    if args.len() == 0 {
        return Err(CodecError::Arity { expected: 1, got: 0 });
    }
    let data = match as_bytes(&args[0]) {
        Some(d) => d,
        None => return Err(CodecError::NotBytes),
    };
    proof {
        reveal_strlit("method");
        reveal_strlit("crc32");
        reveal_strlit("sha1");
        reveal_strlit("sha256");
        assert("method"@ =~= method_word());
    }
    let crc = String::from_str("crc32");
    let method: String = match refs.get("method") {
        Some(vals) => {
            if vals.len() == 0 {
                crc
            } else {
                match &vals[0] {
                    Value::Word(s) => s.clone(),
                    Value::LitWord(s) => s.clone(),
                    Value::GetWord(s) => s.clone(),
                    _ => return Err(CodecError::MethodNotWord),
                }
            }
        },
        None => crc,
    };
    assert("crc32"@ =~= seq!['c', 'r', 'c', '3', '2']);
    assert("sha1"@ =~= seq!['s', 'h', 'a', '1']);
    assert("sha256"@ =~= seq!['s', 'h', 'a', '2', '5', '6']);
    if method == String::from_str("crc32") {
        Ok(Value::Integer(crc32(data.as_slice()) as i64))
    } else if method == String::from_str("sha1") {
        Err(CodecError::Sha1Unsupported)
    } else if method == String::from_str("sha256") {
        Ok(Value::Binary(sha256(data.as_slice())))
    } else {
        Err(CodecError::UnknownMethod(method))
    }
}

// ---------------------------------------------------------------------------
// compress / decompress
// ---------------------------------------------------------------------------

/// `compress data`: the zlib stream of the data, as a binary.
pub fn compress(args: &[Value]) -> (r: Result<Value, CodecError>)
    ensures
        args@.len() == 0 ==> r == Err::<Value, CodecError>(CodecError::Arity { expected: 1, got: 0 }),
        args@.len() > 0 ==> match value_bytes(args@[0]@) {
            None => r == Err::<Value, CodecError>(CodecError::NotBytes),
            Some(data) => r matches Ok(Value::Binary(b)) && b@ == zlib_compress(data) && zlib_inflate(b@)
                == Some(data),
        },
{
    if args.len() == 0 {
        return Err(CodecError::Arity { expected: 1, got: 0 });
    }
    let data = match as_bytes(&args[0]) {
        Some(d) => d,
        None => return Err(CodecError::NotBytes),
    };
    match zlib_encode(data.as_slice()) {
        Some(out) => Ok(Value::Binary(out)),
        None => Err(CodecError::Compress),
    }
}

/// `decompress data`: what the zlib stream inflates to, as a binary.
pub fn decompress(args: &[Value]) -> (r: Result<Value, CodecError>)
    ensures
        args@.len() == 0 ==> r == Err::<Value, CodecError>(CodecError::Arity { expected: 1, got: 0 }),
        args@.len() > 0 ==> match value_bytes(args@[0]@) {
            None => r == Err::<Value, CodecError>(CodecError::NotBytes),
            Some(data) => match zlib_inflate(data) {
                Some(out) => r matches Ok(Value::Binary(b)) && b@ == out,
                None => r == Err::<Value, CodecError>(CodecError::Decompress),
            },
        },
{
    if args.len() == 0 {
        return Err(CodecError::Arity { expected: 1, got: 0 });
    }
    let data = match as_bytes(&args[0]) {
        Some(d) => d,
        None => return Err(CodecError::NotBytes),
    };
    match zlib_decode(data.as_slice()) {
        Some(out) => Ok(Value::Binary(out)),
        None => Err(CodecError::Decompress),
    }
}

// ---------------------------------------------------------------------------
// enbase / debase
// ---------------------------------------------------------------------------

/// `enbase data`: the base64 text (standard alphabet, padded) of the data.
pub fn enbase(args: &[Value]) -> (r: Result<Value, CodecError>)
    ensures
        args@.len() == 0 ==> r == Err::<Value, CodecError>(CodecError::Arity { expected: 1, got: 0 }),
        args@.len() > 0 ==> match value_bytes(args@[0]@) {
            None => r == Err::<Value, CodecError>(CodecError::NotBytes),
            Some(data) => r matches Ok(Value::Str(s)) && s@ == base64_standard_encode(data)
                && base64_standard_decode(encode_utf8(s@)) == Some(data),
        },
{
    if args.len() == 0 {
        return Err(CodecError::Arity { expected: 1, got: 0 });
    }
    let data = match as_bytes(&args[0]) {
        Some(d) => d,
        None => return Err(CodecError::NotBytes),
    };
    Ok(Value::Str(base64_encode(data.as_slice())))
}

/// `debase text`: the bytes the base64 text decodes to, as a binary.
pub fn debase(args: &[Value]) -> (r: Result<Value, CodecError>)
    ensures
        args@.len() == 0 ==> r == Err::<Value, CodecError>(CodecError::Arity { expected: 1, got: 0 }),
        args@.len() > 0 ==> match value_bytes(args@[0]@) {
            None => r == Err::<Value, CodecError>(CodecError::NotBytes),
            Some(data) => match base64_standard_decode(data) {
                Some(out) => r matches Ok(Value::Binary(b)) && b@ == out,
                None => r matches Err(CodecError::Base64(_)),
            },
        },
{
    if args.len() == 0 {
        return Err(CodecError::Arity { expected: 1, got: 0 });
    }
    let data = match as_bytes(&args[0]) {
        Some(d) => d,
        None => return Err(CodecError::NotBytes),
    };
    match base64_decode(data.as_slice()) {
        Ok(out) => Ok(Value::Binary(out)),
        Err(e) => Err(CodecError::Base64(e)),
    }
}

// ---------------------------------------------------------------------------
// encode / decode 'url
// ---------------------------------------------------------------------------

/// Bytes that `url` encoding keeps as they are.
pub open spec fn url_unreserved(b: u8) -> bool {
    (65 <= b <= 90) || (97 <= b <= 122) || (48 <= b <= 57) || b == 45 || b == 95 || b == 46 || b
        == 126
}

/// Upper-case hexadecimal digit of `d < 16`.
pub open spec fn hex_upper(d: nat) -> char {
    if d < 10 {
        ((d + 48) as u32) as char
    } else {
        ((d - 10 + 65) as u32) as char
    }
}

pub open spec fn url_encode_byte(b: u8) -> Seq<char> {
    if url_unreserved(b) {
        seq![b as char]
    } else {
        seq!['%', hex_upper((b / 16) as nat), hex_upper((b % 16) as nat)]
    }
}

/// `%XX`-encoding of every byte but the unreserved ones.
pub open spec fn url_encode(data: Seq<u8>) -> Seq<char>
    decreases data.len(),
{
    if data.len() == 0 {
        Seq::empty()
    } else {
        url_encode(data.drop_last()) + url_encode_byte(data.last())
    }
}

/// `%XX` sequences (two hex digits, not at the very end) decoded, every
/// other byte kept.
pub open spec fn url_decode(data: Seq<u8>) -> Seq<u8>
    decreases data.len(),
{
    if data.len() == 0 {
        Seq::empty()
    } else if data[0] == 37 && 2 < data.len() && hex_value(data[1]) is Some && hex_value(
        data[2],
    ) is Some {
        seq![(hex_value(data[1])->0 * 16 + hex_value(data[2])->0) as u8] + url_decode(
            data.subrange(3, data.len() as int),
        )
    } else {
        seq![data[0]] + url_decode(data.drop_first())
    }
}

pub open spec fn url_word() -> Seq<char> {
    seq!['u', 'r', 'l']
}

/// The format word of an `encode`/`decode` call.
pub open spec fn format_word(v: ValueView) -> Option<Seq<char>> {
    match v {
        ValueView::Word(s) => Some(s),
        ValueView::LitWord(s) => Some(s),
        _ => None,
    }
}

fn hex_upper_char(d: u8) -> (c: char)
    requires
        d < 16,
    ensures
        c == hex_upper(d as nat),
{
    if d < 10 {
        (d + 48) as char
    } else {
        (d + 55) as char
    }
}

/// `%XX`-encodes `data` (every byte but `A-Z a-z 0-9 - _ . ~`).
pub fn url_encode_bytes(data: &[u8]) -> (r: String)
    ensures
        r@ == url_encode(data@),
{
    let mut out = String::new();
    let mut i: usize = 0;
    while i < data.len()
        invariant
            i <= data@.len(),
            out@ == url_encode(data@.take(i as int)),
        decreases data@.len() - i,
    {
        let b = data[i];
        let ghost before = out@;
        if (65 <= b && b <= 90) || (97 <= b && b <= 122) || (48 <= b && b <= 57) || b == 45 || b
            == 95 || b == 46 || b == 126 {
            push_char(&mut out, b as char);
        } else {
            push_char(&mut out, '%');
            push_char(&mut out, hex_upper_char(b / 16));
            push_char(&mut out, hex_upper_char(b % 16));
        }
        proof {
            assert(data@.take(i + 1).drop_last() == data@.take(i as int));
            assert(out@ =~= before + url_encode_byte(b));
        }
        i = i + 1;
    }
    assert(data@.take(i as int) == data@);
    out
}

fn hex_digit_value(c: u8) -> (r: Option<u8>)
    ensures
        match hex_value(c) {
            Some(d) => r == Some(d as u8),
            None => r is None,
        },
{
    if 48 <= c && c <= 57 {
        Some(c - 48)
    } else if 97 <= c && c <= 102 {
        Some(c - 97 + 10)
    } else if 65 <= c && c <= 70 {
        Some(c - 65 + 10)
    } else {
        None
    }
}

/// Decodes `%XX` sequences in `data`.
pub fn url_decode_bytes(data: &[u8]) -> (r: Vec<u8>)
    ensures
        r@ == url_decode(data@),
{
    let n = data.len();
    let mut out: Vec<u8> = Vec::new();
    let mut i: usize = 0;
    assert(data@.subrange(0, n as int) == data@);
    assert(out@ + url_decode(data@) =~= url_decode(data@));
    while i < n
        invariant
            i <= n,
            n == data@.len(),
            url_decode(data@) == out@ + url_decode(data@.subrange(i as int, n as int)),
        decreases n - i,
    {
        let ghost rest = data@.subrange(i as int, n as int);
        let ghost before = out@;
        let mut done = false;
        if data[i] == 37 && 2 < n - i {
            match (hex_digit_value(data[i + 1]), hex_digit_value(data[i + 2])) {
                (Some(h), Some(l)) => {
                    out.push(h * 16 + l);
                    assert(rest.subrange(3, rest.len() as int) == data@.subrange(i + 3, n as int));
                    assert(out@ + url_decode(data@.subrange(i + 3, n as int)) =~= before
                        + url_decode(rest));
                    i = i + 3;
                    done = true;
                },
                _ => {},
            }
        }
        if !done {
            out.push(data[i]);
            assert(rest.drop_first() == data@.subrange(i + 1, n as int));
            assert(out@ + url_decode(data@.subrange(i + 1, n as int)) =~= before + url_decode(rest));
            i = i + 1;
        }
    }
    assert(data@.subrange(n as int, n as int) =~= Seq::<u8>::empty());
    assert(out@ + url_decode(Seq::<u8>::empty()) =~= out@);
    out
}

/// `encode 'url data`: the `%XX`-encoded text of the data.
pub fn encode(args: &[Value]) -> (r: Result<Value, CodecError>)
    ensures
        args@.len() < 2 ==> r == Err::<Value, CodecError>(
            CodecError::Arity { expected: 2, got: args@.len() as usize },
        ),
        args@.len() >= 2 ==> match format_word(args@[0]@) {
            None => r == Err::<Value, CodecError>(CodecError::FormatNotWord),
            Some(f) => match value_bytes(args@[1]@) {
                None => r == Err::<Value, CodecError>(CodecError::NotBytes),
                Some(data) => if f == url_word() {
                    r matches Ok(Value::Str(s)) && s@ == url_encode(data)
                } else {
                    r matches Err(CodecError::UnknownFormat(name)) && name@ == f
                },
            },
        },
{
    if args.len() < 2 {
        return Err(CodecError::Arity { expected: 2, got: args.len() });
    }
    let fmt = match &args[0] {
        Value::Word(s) => s.clone(),
        Value::LitWord(s) => s.clone(),
        _ => return Err(CodecError::FormatNotWord),
    };
    let data = match as_bytes(&args[1]) {
        Some(d) => d,
        None => return Err(CodecError::NotBytes),
    };
    proof {
        reveal_strlit("url");
        assert("url"@ =~= url_word());
    }
    if fmt == String::from_str("url") {
        Ok(Value::Str(url_encode_bytes(data.as_slice())))
    } else {
        Err(CodecError::UnknownFormat(fmt))
    }
}

/// `decode 'url data`: the bytes of the data with `%XX` sequences decoded.
pub fn decode(args: &[Value]) -> (r: Result<Value, CodecError>)
    ensures
        args@.len() < 2 ==> r == Err::<Value, CodecError>(
            CodecError::Arity { expected: 2, got: args@.len() as usize },
        ),
        args@.len() >= 2 ==> match format_word(args@[0]@) {
            None => r == Err::<Value, CodecError>(CodecError::FormatNotWord),
            Some(f) => match value_bytes(args@[1]@) {
                None => r == Err::<Value, CodecError>(CodecError::NotBytes),
                Some(data) => if f == url_word() {
                    r matches Ok(Value::Binary(b)) && b@ == url_decode(data)
                } else {
                    r matches Err(CodecError::UnknownFormat(name)) && name@ == f
                },
            },
        },
{
    if args.len() < 2 {
        return Err(CodecError::Arity { expected: 2, got: args.len() });
    }
    let fmt = match &args[0] {
        Value::Word(s) => s.clone(),
        Value::LitWord(s) => s.clone(),
        _ => return Err(CodecError::FormatNotWord),
    };
    let data = match as_bytes(&args[1]) {
        Some(d) => d,
        None => return Err(CodecError::NotBytes),
    };
    proof {
        reveal_strlit("url");
        assert("url"@ =~= url_word());
    }
    if fmt == String::from_str("url") {
        Ok(Value::Binary(url_decode_bytes(data.as_slice())))
    } else {
        Err(CodecError::UnknownFormat(fmt))
    }
}


// ---------------------------------------------------------------------------
// Laws
// ---------------------------------------------------------------------------

/// The UTF-8 encoding of a concatenation is the concatenation of the
/// encodings.
pub proof fn lemma_encode_utf8_concat(a: Seq<char>, b: Seq<char>)
    ensures
        encode_utf8(a + b) == encode_utf8(a) + encode_utf8(b),
    decreases a.len(),
{
    if a.len() == 0 {
        assert(a + b =~= b);
    } else {
        assert((a + b).drop_first() =~= a.drop_first() + b);
        lemma_encode_utf8_concat(a.drop_first(), b);
        assert(encode_utf8(a + b) =~= encode_utf8(a) + encode_utf8(b));
    }
}

proof fn lemma_url_encode_concat(a: Seq<u8>, b: Seq<u8>)
    ensures
        url_encode(a + b) == url_encode(a) + url_encode(b),
    decreases b.len(),
{
    if b.len() == 0 {
        assert(a + b =~= a);
    } else {
        assert((a + b).drop_last() =~= a + b.drop_last());
        lemma_url_encode_concat(a, b.drop_last());
    }
}

/// The bytes of one encoded byte.
pub open spec fn url_encode_byte_bytes(b: u8) -> Seq<u8> {
    encode_utf8(url_encode_byte(b))
}

proof fn lemma_url_byte_bytes(b: u8)
    ensures
        url_unreserved(b) ==> url_encode_byte_bytes(b) == seq![b],
        !url_unreserved(b) ==> url_encode_byte_bytes(b).len() == 3 && url_encode_byte_bytes(b)[0]
            == 37 && hex_value(url_encode_byte_bytes(b)[1]) == Some((b / 16) as u32) && hex_value(
            url_encode_byte_bytes(b)[2],
        ) == Some((b % 16) as u32),
{
    let cs = url_encode_byte(b);
    assert(is_ascii_chars(cs));
    vstd::utf8::is_ascii_chars_encode_utf8(cs);
    let bs = encode_utf8(cs);
    if url_unreserved(b) {
        assert(bs =~= seq![b]);
    } else {
        assert(bs[1] == hex_upper((b / 16) as nat) as u8);
        assert(bs[2] == hex_upper((b % 16) as nat) as u8);
    }
}

/// Decoding one encoded byte followed by anything decodes that byte, then
/// the rest.
proof fn lemma_url_decode_step(b: u8, rest: Seq<u8>)
    ensures
        url_decode(url_encode_byte_bytes(b) + rest) == seq![b] + url_decode(rest),
{
    lemma_url_byte_bytes(b);
    let e = url_encode_byte_bytes(b);
    let d = e + rest;
    if url_unreserved(b) {
        assert(d[0] == b);
        assert(d.drop_first() =~= rest);
    } else {
        assert(d[0] == 37 && d[1] == e[1] && d[2] == e[2]);
        assert(d.subrange(3, d.len() as int) =~= rest);
        assert((b / 16) as u32 * 16 + (b % 16) as u32 == b as u32);
    }
}

/// `decode 'url` undoes `encode 'url`: decoding the bytes of the encoded
/// text gives back the bytes it was made from.
pub proof fn lemma_url_round_trip(data: Seq<u8>)
    ensures
        url_decode(encode_utf8(url_encode(data))) == data,
    decreases data.len(),
{
    if data.len() > 0 {
        let first = data[0];
        let rest = data.drop_first();
        assert(data =~= seq![first] + rest);
        lemma_url_encode_concat(seq![first], rest);
        assert(url_encode(seq![first]) =~= url_encode_byte(first)) by {
            assert(seq![first].drop_last() =~= Seq::<u8>::empty());
            assert(url_encode(Seq::<u8>::empty()) =~= Seq::<char>::empty());
            assert(seq![first].last() == first);
            assert(Seq::<char>::empty() + url_encode_byte(first) =~= url_encode_byte(first));
        }
        lemma_encode_utf8_concat(url_encode_byte(first), url_encode(rest));
        lemma_url_decode_step(first, encode_utf8(url_encode(rest)));
        lemma_url_round_trip(rest);
    } else {
        assert(url_encode(data) =~= Seq::<char>::empty());
        assert(encode_utf8(Seq::<char>::empty()) =~= Seq::<u8>::empty());
    }
}

} // verus!
