//! Wire codec tests: exact byte vectors, round trips, and rejection of
//! malformed buffers.

use libsql_bridge::codec::{
    decode_params, decode_row, decode_scalar, encode_params, encode_row, encode_scalar_msg,
};
use libsql_bridge::values::{ParamSet, Scalar};

fn scalar_eq(a: &Scalar, b: &Scalar) -> bool {
    match (a, b) {
        (Scalar::Null, Scalar::Null) => true,
        (Scalar::Integer(x), Scalar::Integer(y)) => x == y,
        (Scalar::Real(x), Scalar::Real(y)) => x == y,
        (Scalar::Text(x), Scalar::Text(y)) => x == y,
        (Scalar::Blob(x), Scalar::Blob(y)) => x == y,
        _ => false,
    }
}

#[test]
fn scalar_null_bytes() {
    assert_eq!(encode_scalar_msg(&Scalar::Null), vec![0x2A, 0x00]);
}

#[test]
fn scalar_integer_bytes() {
    assert_eq!(encode_scalar_msg(&Scalar::Integer(1)), vec![0x08, 0x01]);
    assert_eq!(encode_scalar_msg(&Scalar::Integer(300)), vec![0x08, 0xAC, 0x02]);
    // A negative integer is carried as its 64-bit two's complement.
    assert_eq!(
        encode_scalar_msg(&Scalar::Integer(-1)),
        vec![0x08, 0xFF, 0xFF, 0xFF, 0xFF, 0xFF, 0xFF, 0xFF, 0xFF, 0xFF, 0x01],
    );
}

#[test]
fn scalar_real_bytes() {
    let bits = 1.5f64.to_bits();
    let mut expected = vec![0x11];
    expected.extend_from_slice(&bits.to_le_bytes());
    assert_eq!(encode_scalar_msg(&Scalar::Real(bits)), expected);
}

#[test]
fn scalar_text_bytes() {
    assert_eq!(encode_scalar_msg(&Scalar::Text(b"a".to_vec())), vec![0x1A, 0x01, 0x61]);
}

#[test]
fn scalar_blob_bytes() {
    assert_eq!(
        encode_scalar_msg(&Scalar::Blob(vec![0x00, 0xFF])),
        vec![0x22, 0x02, 0x00, 0xFF],
    );
}

#[test]
fn scalar_round_trips() {
    let samples = vec![
        Scalar::Null,
        Scalar::Integer(0),
        Scalar::Integer(i64::MIN),
        Scalar::Integer(i64::MAX),
        Scalar::Real(0.0f64.to_bits()),
        Scalar::Real((-0.0f64).to_bits()),
        Scalar::Real(f64::NAN.to_bits()),
        Scalar::Text(Vec::new()),
        Scalar::Text("grüße".as_bytes().to_vec()),
        Scalar::Blob(vec![1, 2, 3, 4, 5]),
    ];
    for v in &samples {
        let bytes = encode_scalar_msg(v);
        let back = decode_scalar(&bytes).expect("canonical encoding must decode");
        assert!(scalar_eq(v, &back));
        // Re-encoding the decoded value reproduces the identical bytes.
        assert_eq!(encode_scalar_msg(&back), bytes);
    }
}

#[test]
fn scalar_rejects_malformed() {
    // Empty buffer.
    assert!(decode_scalar(&[]).is_none());
    // Unknown field key.
    assert!(decode_scalar(&[0x32, 0x00]).is_none());
    // Over-long varint encoding of 0.
    assert!(decode_scalar(&[0x08, 0x80, 0x00]).is_none());
    // Truncated real.
    assert!(decode_scalar(&[0x11, 0x00, 0x00]).is_none());
    // Trailing garbage after an integer.
    assert!(decode_scalar(&[0x08, 0x01, 0x07]).is_none());
    // Text length runs past the buffer.
    assert!(decode_scalar(&[0x1A, 0x05, 0x61]).is_none());
    // Null message with a nonempty body.
    assert!(decode_scalar(&[0x2A, 0x01, 0x00]).is_none());
}

#[test]
fn row_bytes_and_round_trip() {
    let row = vec![Scalar::Integer(1), Scalar::Text(b"a".to_vec())];
    let bytes = encode_row(&row);
    assert_eq!(bytes, vec![0x0A, 0x02, 0x08, 0x01, 0x0A, 0x03, 0x1A, 0x01, 0x61]);
    let back = decode_row(&bytes).expect("canonical row must decode");
    assert_eq!(back.len(), 2);
    assert!(scalar_eq(&back[0], &row[0]));
    assert!(scalar_eq(&back[1], &row[1]));
}

#[test]
fn empty_row_is_empty_buffer() {
    assert_eq!(encode_row(&Vec::new()), Vec::<u8>::new());
    let back = decode_row(&[]).expect("empty row must decode");
    assert!(back.is_empty());
}

#[test]
fn row_rejects_malformed() {
    // Wrong element key.
    assert!(decode_row(&[0x12, 0x02, 0x08, 0x01]).is_none());
    // Element length past the end.
    assert!(decode_row(&[0x0A, 0x09, 0x08, 0x01]).is_none());
    // Element body is not a scalar message.
    assert!(decode_row(&[0x0A, 0x01, 0x61]).is_none());
}

#[test]
fn params_absent_is_empty_buffer() {
    assert_eq!(encode_params(&ParamSet::Absent), Vec::<u8>::new());
    assert!(matches!(decode_params(&[]), Some(ParamSet::Absent)));
}

#[test]
fn params_positional_bytes() {
    let p = ParamSet::Positional(vec![Scalar::Integer(2)]);
    let bytes = encode_params(&p);
    assert_eq!(bytes, vec![0x12, 0x04, 0x0A, 0x02, 0x08, 0x02]);
    match decode_params(&bytes) {
        Some(ParamSet::Positional(vs)) => {
            assert_eq!(vs.len(), 1);
            assert!(scalar_eq(&vs[0], &Scalar::Integer(2)));
        },
        _ => panic!("positional set expected"),
    }
}

#[test]
fn params_named_bytes() {
    let p = ParamSet::Named(vec![(b"id".to_vec(), Scalar::Integer(2))]);
    let bytes = encode_params(&p);
    assert_eq!(
        bytes,
        vec![0x0A, 0x0A, 0x0A, 0x08, 0x0A, 0x02, 0x69, 0x64, 0x12, 0x02, 0x08, 0x02],
    );
    match decode_params(&bytes) {
        Some(ParamSet::Named(es)) => {
            assert_eq!(es.len(), 1);
            assert_eq!(es[0].0, b"id".to_vec());
            assert!(scalar_eq(&es[0].1, &Scalar::Integer(2)));
        },
        _ => panic!("named set expected"),
    }
}

#[test]
fn params_round_trip_mixed() {
    let sets = vec![
        ParamSet::Positional(vec![
            Scalar::Null,
            Scalar::Integer(-7),
            Scalar::Real(2.5f64.to_bits()),
            Scalar::Text(b"x".to_vec()),
            Scalar::Blob(vec![9, 8]),
        ]),
        ParamSet::Named(vec![
            (b"id".to_vec(), Scalar::Integer(2)),
            (b"name".to_vec(), Scalar::Text(b"b".to_vec())),
        ]),
        ParamSet::Named(Vec::new()),
        ParamSet::Positional(Vec::new()),
    ];
    for p in &sets {
        let bytes = encode_params(p);
        let back = decode_params(&bytes).expect("canonical set must decode");
        assert_eq!(encode_params(&back), bytes);
    }
}

#[test]
fn params_rejects_malformed() {
    // Unknown top-level key.
    assert!(decode_params(&[0x2A, 0x00]).is_none());
    // Field length not spanning the whole buffer.
    assert!(decode_params(&[0x12, 0x00, 0x0A]).is_none());
    // Named list whose entry is truncated.
    assert!(decode_params(&[0x0A, 0x02, 0x0A, 0x05]).is_none());
}

#[test]
fn empty_named_and_empty_positional_differ_from_absent() {
    let named = encode_params(&ParamSet::Named(Vec::new()));
    let positional = encode_params(&ParamSet::Positional(Vec::new()));
    assert_eq!(named, vec![0x0A, 0x00]);
    assert_eq!(positional, vec![0x12, 0x00]);
    assert_ne!(named, positional);
    assert!(!named.is_empty());
}
