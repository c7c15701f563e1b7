use protocol_sdk::payload::Payload;
use protocol_sdk::value::Value;

#[test]
fn get_item_absent_on_missing_name() {
    let mut p = Payload::new();
    p.push_item(String::from("present"), Value::Uint8(1));
    assert_eq!(p.get_item(String::from("missing")), None);
    assert_eq!(Payload::new().get_item(String::from("anything")), None);
}

#[test]
fn get_item_returns_pushed_value() {
    let mut p = Payload::new();
    p.push_item(String::from("nums"), Value::VecUint64(vec![2, 3, 5]));
    p.push_item(String::from("title"), Value::String(String::from("hi")));
    assert_eq!(p.get_item(String::from("nums")), Some(Value::VecUint64(vec![2, 3, 5])));
    assert_eq!(p.get_item(String::from("title")), Some(Value::String(String::from("hi"))));
}

#[test]
fn push_item_keeps_first_binding_of_a_name() {
    // Name uniqueness is enforced: a second push under the same name is
    // dropped even when its value differs, so the first binding wins
    // and two items never share a name.
    let mut p = Payload::new();
    p.push_item(String::from("a"), Value::Uint8(1));
    p.push_item(String::from("a"), Value::Uint8(2));
    assert_eq!(p.get_item(String::from("a")), Some(Value::Uint8(1)));
    // The canonical form starts with the item count: still one item.
    let bytes = p.to_bytes();
    assert_eq!(&bytes[0..8], &[0u8, 0, 0, 0, 0, 0, 0, 1]);
}

#[test]
fn push_item_drops_exact_duplicate() {
    let mut p = Payload::new();
    p.push_item(String::from("a"), Value::Uint8(1));
    p.push_item(String::from("a"), Value::Uint8(1));
    let bytes = p.to_bytes();
    assert_eq!(&bytes[0..8], &[0u8, 0, 0, 0, 0, 0, 0, 1]);
}

#[test]
fn into_raw_data_concatenates_in_insertion_order() {
    let mut p = Payload::new();
    p.push_item(String::from("a"), Value::Uint16(0x0102));
    p.push_item(String::from("b"), Value::String(String::from("AB")));
    assert_eq!(p.into_raw_data(), vec![1u8, 2, 0x41, 0x42]);
    let mut q = Payload::new();
    q.push_item(String::from("b"), Value::String(String::from("AB")));
    q.push_item(String::from("a"), Value::Uint16(0x0102));
    assert_eq!(q.into_raw_data(), vec![0x41u8, 0x42, 1, 2]);
}

#[test]
fn into_raw_data_has_no_length_prefixes() {
    let mut p = Payload::new();
    p.push_item(String::from("v"), Value::VecUint8(vec![9, 8, 7]));
    assert_eq!(p.into_raw_data(), vec![9u8, 8, 7]);
}

#[test]
fn payload_bytes_round_trip() {
    let mut p = Payload::new();
    p.push_item(String::from("nums"), Value::VecUint64(vec![2, 3, 5]));
    p.push_item(String::from("who"), Value::String(String::from("chaîne A")));
    p.push_item(String::from("k"), Value::Int32(-7));
    let bytes = p.to_bytes();
    let back = Payload::from_bytes(&bytes);
    assert_eq!(back, Some(p));
}

#[test]
fn empty_payload_round_trip() {
    let p = Payload::new();
    let bytes = p.to_bytes();
    assert_eq!(bytes, vec![0u8, 0, 0, 0, 0, 0, 0, 0]);
    assert_eq!(Payload::from_bytes(&bytes), Some(p));
}

#[test]
fn from_bytes_rejects_trailing_bytes() {
    let mut p = Payload::new();
    p.push_item(String::from("a"), Value::Uint8(1));
    let mut bytes = p.to_bytes();
    bytes.push(0);
    assert_eq!(Payload::from_bytes(&bytes), None);
}

#[test]
fn from_bytes_rejects_short_input() {
    assert_eq!(Payload::from_bytes(&vec![0u8, 0, 0]), None);
    assert_eq!(Payload::from_bytes(&vec![0u8, 0, 0, 0, 0, 0, 0, 3]), None);
}
