use webcore::form::{decode, parse_u64, DecodeError, FieldValue};
use webcore::site::build_schema;
use webcore::utf8::is_valid_utf8;

#[test]
fn decode_well_formed_body_round_trips() {
    let schema = build_schema();
    let body = b"number=5&type=A&password=x&textarea=hi&select=B".to_vec();
    let form = decode(&schema, &body).unwrap();
    assert_eq!(
        form.values,
        vec![
            FieldValue::Bool(false),
            FieldValue::Uint(5),
            FieldValue::Choice(0),
            FieldValue::Text(b"x".to_vec()),
            FieldValue::Text(b"hi".to_vec()),
            FieldValue::Choice(1),
        ]
    );
}

#[test]
fn decode_checkbox_on_is_true() {
    let schema = build_schema();
    let body = b"checkbox=on&number=0&type=C&password=p&textarea=t&select=A".to_vec();
    let form = decode(&schema, &body).unwrap();
    assert_eq!(form.values[0], FieldValue::Bool(true));
    assert_eq!(form.values[2], FieldValue::Choice(2));
}

#[test]
fn decode_out_of_range_enumeration_names_that_field() {
    let schema = build_schema();
    let body = b"number=5&type=D&password=x&textarea=hi&select=B".to_vec();
    let err = decode(&schema, &body).unwrap_err();
    assert_eq!(err, DecodeError::Field(b"radio".to_vec(), b"D".to_vec()));
}

#[test]
fn decode_first_invalid_field_wins() {
    // both the number and the enumeration are bad; the number comes
    // first in schema declaration order
    let schema = build_schema();
    let body = b"number=abc&type=D&password=x&textarea=hi&select=B".to_vec();
    let err = decode(&schema, &body).unwrap_err();
    assert_eq!(err, DecodeError::Field(b"number".to_vec(), b"abc".to_vec()));
}

#[test]
fn decode_missing_field_counts_as_empty_raw_value() {
    let schema = build_schema();
    let body = b"number=5&type=A&password=x&textarea=hi".to_vec();
    let err = decode(&schema, &body).unwrap_err();
    assert_eq!(err, DecodeError::Field(b"select".to_vec(), b"".to_vec()));
}

#[test]
fn decode_invalid_encoding_takes_precedence() {
    let schema = build_schema();
    let mut body = b"checkbox=on&number=5&type=A&password=x&textarea=hi&select=B".to_vec();
    body.push(0xff);
    let err = decode(&schema, &body).unwrap_err();
    assert_eq!(err, DecodeError::Encoding);
}

#[test]
fn decode_bad_boolean_token_is_malformed() {
    let schema = build_schema();
    let body = b"checkbox=weird&number=5&type=A&password=x&textarea=hi&select=B".to_vec();
    let err = decode(&schema, &body).unwrap_err();
    assert_eq!(err, DecodeError::Field(b"checkbox".to_vec(), b"weird".to_vec()));
}

#[test]
fn parse_u64_accepts_digits_and_rejects_the_rest() {
    assert_eq!(parse_u64(&b"0".to_vec()), Some(0));
    assert_eq!(parse_u64(&b"007".to_vec()), Some(7));
    assert_eq!(parse_u64(&b"18446744073709551615".to_vec()), Some(u64::MAX));
    assert_eq!(parse_u64(&b"18446744073709551616".to_vec()), None);
    assert_eq!(parse_u64(&b"".to_vec()), None);
    assert_eq!(parse_u64(&b"12a".to_vec()), None);
    assert_eq!(parse_u64(&b"-3".to_vec()), None);
}

#[test]
fn utf8_validator_accepts_well_formed_sequences() {
    assert!(is_valid_utf8(&b"plain ascii".to_vec()));
    assert!(is_valid_utf8(&"héllo".as_bytes().to_vec()));
    assert!(is_valid_utf8(&"日本語".as_bytes().to_vec()));
    assert!(is_valid_utf8(&"🦀".as_bytes().to_vec()));
    assert!(is_valid_utf8(&Vec::new()));
}

#[test]
fn utf8_validator_rejects_malformed_sequences() {
    assert!(!is_valid_utf8(&vec![0xff]));
    assert!(!is_valid_utf8(&vec![0x80])); // lone continuation byte
    assert!(!is_valid_utf8(&vec![0xc0, 0xaf])); // overlong two-byte form
    assert!(!is_valid_utf8(&vec![0xe0, 0x80, 0x80])); // overlong three-byte form
    assert!(!is_valid_utf8(&vec![0xed, 0xa0, 0x80])); // surrogate
    assert!(!is_valid_utf8(&vec![0xf4, 0x90, 0x80, 0x80])); // above the last scalar
    assert!(!is_valid_utf8(&vec![0xe4, 0xb8])); // truncated sequence
    let std_agrees = |b: &[u8]| std::str::from_utf8(b).is_ok();
    for sample in [
        &b"ok"[..],
        &[0xc3, 0xa9],
        &[0xc3],
        &[0xf0, 0x9f, 0xa6, 0x80],
        &[0xed, 0x9f, 0xbf],
        &[0xee, 0x80, 0x80],
    ] {
        assert_eq!(is_valid_utf8(&sample.to_vec()), std_agrees(sample));
    }
}

#[test]
fn decode_empty_body_reports_the_first_required_field() {
    // the boolean may be absent, so the first failure is the number,
    // reported with an empty raw value
    let schema = build_schema();
    let err = decode(&schema, &Vec::new()).unwrap_err();
    assert_eq!(err, DecodeError::Field(b"number".to_vec(), b"".to_vec()));
}

#[test]
fn decode_uses_the_wire_name_override() {
    // the field is named radio in memory but travels as type; a pair
    // named radio on the wire does not reach it
    let schema = build_schema();
    let body = b"number=1&radio=A&password=x&textarea=t&select=A".to_vec();
    let err = decode(&schema, &body).unwrap_err();
    assert_eq!(err, DecodeError::Field(b"radio".to_vec(), b"".to_vec()));
}
