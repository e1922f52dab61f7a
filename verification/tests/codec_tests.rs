use red_eval::codec::{checksum, compress, debase, decode, decompress, enbase, encode, CodecError};
use red_eval::native::RefineArgs;
use red_eval::value::Value;

fn s(t: &str) -> Value {
    Value::Str(t.to_string())
}

#[test]
fn checksum_crc32() {
    let r = checksum(&[s("123456789")], &RefineArgs::empty()).unwrap();
    assert!(matches!(r, Value::Integer(3_421_780_262)));
}

#[test]
fn compress_roundtrip() {
    let c = compress(&[s("hello world hello world hello world")]).unwrap();
    let d = decompress(&[c]).unwrap();
    match d {
        Value::Binary(bytes) => assert_eq!(bytes, b"hello world hello world hello world"),
        _ => panic!("expected binary!"),
    }
}

#[test]
fn enbase_roundtrip() {
    let enc = enbase(&[s("hello")]).unwrap();
    match enc {
        Value::Str(t) => assert_eq!(t, "aGVsbG8="),
        _ => panic!("expected string!"),
    }
    let dec = debase(&[s("aGVsbG8=")]).unwrap();
    match dec {
        Value::Binary(bytes) => assert_eq!(bytes, b"hello"),
        _ => panic!("expected binary!"),
    }
}

#[test]
fn encode_url() {
    let r = encode(&[Value::Word("url".to_string()), s("a b")]).unwrap();
    match r {
        Value::Str(t) => assert_eq!(t, "a%20b"),
        _ => panic!("expected string!"),
    }
}

// --- further cases ---

#[test]
fn checksum_sha256_of_abc() {
    let refs = RefineArgs {
        refs: vec![("method".to_string(), vec![Value::Word("sha256".to_string())])],
    };
    match checksum(&[s("abc")], &refs).unwrap() {
        Value::Binary(b) => {
            assert_eq!(b.len(), 32);
            assert_eq!(&b[..4], &[0xba, 0x78, 0x16, 0xbf]);
        }
        other => panic!("expected binary!, got {other:?}"),
    }
}

#[test]
fn decode_url_inverts_encode() {
    let e = encode(&[Value::Word("url".to_string()), s("a b&c=d/é")]).unwrap();
    let d = decode(&[Value::Word("url".to_string()), e]).unwrap();
    match d {
        Value::Str(t) => assert_eq!(t, "a b&c=d/é"),
        Value::Binary(b) => assert_eq!(b, "a b&c=d/é".as_bytes()),
        other => panic!("unexpected {other:?}"),
    }
}

#[test]
fn codec_errors() {
    assert!(matches!(compress(&[]), Err(CodecError::Arity { .. })));
    assert_eq!(enbase(&[Value::Integer(1)]), Err(CodecError::NotBytes));
    assert!(decompress(&[Value::Binary(vec![1, 2, 3])]).is_err());
}

#[test]
fn checksum_crc32_short_inputs() {
    let empty = checksum(&[s("")], &RefineArgs::empty()).unwrap();
    assert!(matches!(empty, Value::Integer(0)));
    let a = checksum(&[s("a")], &RefineArgs::empty()).unwrap();
    assert!(matches!(a, Value::Integer(0xE8B7_BE43)));
}
