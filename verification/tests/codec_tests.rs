use protocol_sdk::codec::decode_structural;
use protocol_sdk::value::ValueType;
use protocol_sdk::codec::encode_structural;
use protocol_sdk::value::Address;
use protocol_sdk::value::Value;

fn round_trip(v: Value) {
    let bytes = encode_structural(&v);
    let back = decode_structural(&bytes);
    assert_eq!(back, Some(v));
}

#[test]
fn round_trip_string() {
    round_trip(Value::String(String::from("hello")));
    round_trip(Value::String(String::new()));
    round_trip(Value::String(String::from("héllo, wörld — ☃")));
}

#[test]
fn round_trip_unsigned_scalars() {
    round_trip(Value::Uint8(0));
    round_trip(Value::Uint8(255));
    round_trip(Value::Uint16(0x1234));
    round_trip(Value::Uint32(0xdeadbeef));
    round_trip(Value::Uint64(u64::MAX));
    round_trip(Value::Uint128(u128::MAX));
}

#[test]
fn round_trip_signed_scalars() {
    round_trip(Value::Int8(-1));
    round_trip(Value::Int8(i8::MIN));
    round_trip(Value::Int16(-12345));
    round_trip(Value::Int32(i32::MIN));
    round_trip(Value::Int64(-987654321012345678));
    round_trip(Value::Int64(i64::MAX));
}

#[test]
fn round_trip_vectors() {
    round_trip(Value::VecString(vec![
        String::from("a"),
        String::from(""),
        String::from("chaîne"),
    ]));
    round_trip(Value::VecUint8(vec![0, 1, 255]));
    round_trip(Value::VecUint16(vec![0x0102, 0xfffe]));
    round_trip(Value::VecUint32(vec![7, 0xffffffff]));
    round_trip(Value::VecUint64(vec![2, 3, 5]));
    round_trip(Value::VecUint128(vec![u128::MAX, 0]));
    round_trip(Value::VecInt8(vec![-128, 0, 127]));
    round_trip(Value::VecInt16(vec![-1, 1]));
    round_trip(Value::VecInt32(vec![i32::MIN, i32::MAX]));
    round_trip(Value::VecInt64(vec![-5, 5]));
    round_trip(Value::VecUint64(Vec::new()));
    round_trip(Value::VecString(Vec::new()));
}

#[test]
fn round_trip_address() {
    round_trip(Value::Address(Address::new(String::from("0xB"), 2)));
    round_trip(Value::Address(Address::new(String::new(), 0)));
}

#[test]
fn exact_bytes_uint16() {
    let bytes = encode_structural(&Value::Uint16(0x1234));
    assert_eq!(bytes, vec![2u8, 0x12, 0x34]);
}

#[test]
fn exact_bytes_string() {
    let bytes = encode_structural(&Value::String(String::from("ab")));
    assert_eq!(bytes, vec![0u8, 0, 0, 0, 0, 0, 0, 0, 2, 0x61, 0x62]);
}

#[test]
fn exact_bytes_vec_uint64() {
    let bytes = encode_structural(&Value::VecUint64(vec![2, 3]));
    let mut expected = vec![14u8, 0, 0, 0, 0, 0, 0, 0, 2];
    expected.extend_from_slice(&[0, 0, 0, 0, 0, 0, 0, 2]);
    expected.extend_from_slice(&[0, 0, 0, 0, 0, 0, 0, 3]);
    assert_eq!(bytes, expected);
}

#[test]
fn exact_bytes_int8() {
    let bytes = encode_structural(&Value::Int8(-1));
    assert_eq!(bytes, vec![6u8, 0xff]);
}

#[test]
fn exact_bytes_address() {
    let bytes = encode_structural(&Value::Address(Address::new(String::from("B"), 3)));
    assert_eq!(bytes, vec![20u8, 0, 0, 0, 0, 0, 0, 0, 1, 0x42, 3]);
}

#[test]
fn decode_rejects_empty() {
    assert_eq!(decode_structural(&Vec::new()), None);
}

#[test]
fn decode_rejects_unknown_tag() {
    assert_eq!(decode_structural(&vec![99u8, 0, 0]), None);
}

#[test]
fn decode_rejects_truncated_scalar() {
    assert_eq!(decode_structural(&vec![2u8, 0x12]), None);
}

#[test]
fn decode_rejects_trailing_bytes() {
    let mut bytes = encode_structural(&Value::Uint8(7));
    bytes.push(0);
    assert_eq!(decode_structural(&bytes), None);
}

#[test]
fn decode_rejects_truncated_string_length() {
    assert_eq!(decode_structural(&vec![0u8, 0, 0, 0]), None);
}

#[test]
fn decode_rejects_string_shorter_than_length() {
    assert_eq!(decode_structural(&vec![0u8, 0, 0, 0, 0, 0, 0, 0, 5, 0x61]), None);
}

#[test]
fn decode_rejects_invalid_utf8() {
    assert_eq!(decode_structural(&vec![0u8, 0, 0, 0, 0, 0, 0, 0, 1, 0xff]), None);
}

#[test]
fn decode_rejects_truncated_vector() {
    let bytes = vec![14u8, 0, 0, 0, 0, 0, 0, 0, 2, 0, 0, 0, 0, 0, 0, 0, 1];
    assert_eq!(decode_structural(&bytes), None);
}

#[test]
fn get_value_downcasts_on_matching_tag() {
    let v = Value::Uint64(42);
    let got: Option<u64> = v.get_value();
    assert_eq!(got, Some(42));
    let s = Value::String(String::from("x"));
    let got_s: Option<String> = s.get_value();
    assert_eq!(got_s, Some(String::from("x")));
}

#[test]
fn get_value_is_absent_on_tag_mismatch() {
    let v = Value::Uint64(42);
    let got: Option<u32> = v.get_value();
    assert_eq!(got, None);
    let got_vec: Option<Vec<u64>> = v.get_value();
    assert_eq!(got_vec, None);
}

#[test]
fn into_raw_data_is_fixed_width_big_endian() {
    assert_eq!(0x0102u16.into_raw_data(), vec![1u8, 2]);
    assert_eq!((-1i16).into_raw_data(), vec![0xffu8, 0xff]);
    assert_eq!(String::from("AB").into_raw_data(), vec![0x41u8, 0x42]);
    assert_eq!(vec![1u16, 2u16].into_raw_data(), vec![0u8, 1, 0, 2]);
    assert_eq!(Address::new(String::from("AB"), 9).into_raw_data(), vec![0x41u8, 0x42]);
}
