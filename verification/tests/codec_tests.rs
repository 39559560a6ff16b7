use trace_bridge::codec::{decode, span_id_hex, trace_id_hex, ParseError};

const HEADER: &str =
    "Root=1-65dc5008-1561ed7046ffcbcb114af027;Parent=b510129166d5a083;Sampled=1;Lineage=f98dd9ff:0";

#[test]
fn test_convert_traceid_xray_to_otel() {
    let span_context = decode(HEADER.as_bytes());
    assert!(span_context.is_ok());
    let span_context = span_context.unwrap();
    assert_eq!(span_context.trace_id, 0x65dc50081561ed7046ffcbcb114af027u128);
    assert_eq!(span_id_hex(span_context.span_id), b"b510129166d5a083".to_vec());
}

#[test]
fn test_decode_deterministic() {
    let first = decode(HEADER.as_bytes());
    let second = decode(HEADER.as_bytes());
    assert_eq!(first, second);
}

#[test]
fn test_decode_sampled_flag() {
    let sampled = decode(HEADER.as_bytes()).unwrap();
    assert!(sampled.sampled);
    let not_sampled =
        decode(b"Root=1-65dc5008-1561ed7046ffcbcb114af027;Parent=b510129166d5a083;Sampled=0")
            .unwrap();
    assert!(!not_sampled.sampled);
}

#[test]
fn test_decode_ignores_unknown_fields() {
    let plain = decode(b"Root=1-65dc5008-1561ed7046ffcbcb114af027;Parent=b510129166d5a083;Sampled=1");
    let extra = decode(
        b"Self=1-00000000-000000000000000000000000;Root=1-65dc5008-1561ed7046ffcbcb114af027;Parent=b510129166d5a083;Sampled=1;Lineage=f98dd9ff:0",
    );
    assert_eq!(plain, extra);
    assert!(plain.is_ok());
}

#[test]
fn test_decode_missing_root() {
    let r = decode(b"Parent=b510129166d5a083;Sampled=1");
    assert_eq!(r, Err(ParseError::MissingField));
}

#[test]
fn test_decode_missing_parent() {
    let r = decode(b"Root=1-65dc5008-1561ed7046ffcbcb114af027;Sampled=1");
    assert_eq!(r, Err(ParseError::MissingField));
}

#[test]
fn test_decode_missing_sampled() {
    let r = decode(b"Root=1-65dc5008-1561ed7046ffcbcb114af027;Parent=b510129166d5a083");
    assert_eq!(r, Err(ParseError::InvalidSampling));
}

#[test]
fn test_decode_bad_sampled_value() {
    let r = decode(b"Root=1-65dc5008-1561ed7046ffcbcb114af027;Parent=b510129166d5a083;Sampled=2");
    assert_eq!(r, Err(ParseError::InvalidSampling));
}

#[test]
fn test_decode_non_hex_trace_id() {
    let r = decode(b"Root=1-65dc5008-1561ed7046ffcbcb114afXYZ;Parent=b510129166d5a083;Sampled=1");
    assert_eq!(r, Err(ParseError::InvalidTraceId));
}

#[test]
fn test_decode_wrong_length_trace_id() {
    let r = decode(b"Root=1-65dc5008-1561ed7046ffcbcb114af0;Parent=b510129166d5a083;Sampled=1");
    assert_eq!(r, Err(ParseError::InvalidTraceId));
}

#[test]
fn test_decode_non_hex_span_id() {
    let r = decode(b"Root=1-65dc5008-1561ed7046ffcbcb114af027;Parent=b51012916_d5a083;Sampled=1");
    assert_eq!(r, Err(ParseError::InvalidSpanId));
}

#[test]
fn test_decode_wrong_length_span_id() {
    let r = decode(b"Root=1-65dc5008-1561ed7046ffcbcb114af027;Parent=b510129166d5a0;Sampled=1");
    assert_eq!(r, Err(ParseError::InvalidSpanId));
}

#[test]
fn test_decode_empty_header() {
    assert_eq!(decode(b""), Err(ParseError::MissingField));
}

#[test]
fn test_hex_round_trip() {
    assert_eq!(
        trace_id_hex(0x65dc50081561ed7046ffcbcb114af027u128),
        b"65dc50081561ed7046ffcbcb114af027".to_vec()
    );
    assert_eq!(span_id_hex(0xb510129166d5a083u64), b"b510129166d5a083".to_vec());
    assert_eq!(span_id_hex(0), b"0000000000000000".to_vec());
    let ctx = decode(HEADER.as_bytes()).unwrap();
    assert_eq!(trace_id_hex(ctx.trace_id), b"65dc50081561ed7046ffcbcb114af027".to_vec());
}
