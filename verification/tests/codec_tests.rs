use gamedig::buffer::Buffer;
use gamedig::codec::{as_string, as_varint, get_string, get_varint};
use gamedig::error::GDError;

fn varint_round_trip(v: i32) {
    let encoded = as_varint(v);
    let mut b = Buffer::new(encoded);
    assert_eq!(get_varint(&mut b).unwrap(), v);
    assert_eq!(b.available(), 0);
}

#[test]
fn varint_round_trips() {
    for v in [0, 1, 127, 128, 300, 2_097_151, i32::MAX] {
        varint_round_trip(v);
    }
}

#[test]
fn varint_round_trips_negative() {
    for v in [-1, -128, i32::MIN] {
        varint_round_trip(v);
    }
}

#[test]
fn varint_known_encodings() {
    assert_eq!(as_varint(0), vec![0x00]);
    assert_eq!(as_varint(1), vec![0x01]);
    assert_eq!(as_varint(127), vec![0x7F]);
    assert_eq!(as_varint(128), vec![0x80, 0x01]);
    assert_eq!(as_varint(300), vec![0xAC, 0x02]);
    assert_eq!(as_varint(2_097_151), vec![0xFF, 0xFF, 0x7F]);
    assert_eq!(as_varint(-1), vec![0xFF, 0xFF, 0xFF, 0xFF, 0x0F]);
}

#[test]
fn varint_decode_ignores_trailing_bytes() {
    let mut data = as_varint(300);
    data.extend_from_slice(&[0xAA, 0xBB]);
    let mut b = Buffer::new(data);
    assert_eq!(get_varint(&mut b).unwrap(), 300);
    assert_eq!(b.available(), 2);
}

#[test]
fn varint_unterminated_underflows() {
    let mut b = Buffer::new(vec![0x80, 0x80]);
    assert!(matches!(get_varint(&mut b), Err(GDError::UnderflowError { .. })));
}

#[test]
fn varint_too_long_is_bad_packet() {
    let mut b = Buffer::new(vec![0x80, 0x80, 0x80, 0x80, 0x80, 0x00]);
    assert_eq!(get_varint(&mut b), Err(GDError::PacketBad));
}

#[test]
fn varint_value_over_32_bits_is_bad_packet() {
    // Five groups whose last carries bits past the 32-bit range.
    let mut b = Buffer::new(vec![0xFF, 0xFF, 0xFF, 0xFF, 0x7F]);
    assert_eq!(get_varint(&mut b), Err(GDError::PacketBad));
}

fn string_round_trip(s: &str) {
    let encoded = as_string(s).unwrap();
    let mut b = Buffer::new(encoded);
    assert_eq!(get_string(&mut b).unwrap(), s);
    assert_eq!(b.available(), 0);
}

#[test]
fn string_round_trips_empty() {
    string_round_trip("");
}

#[test]
fn string_round_trips_ascii() {
    string_round_trip("mc.example.com");
}

#[test]
fn string_round_trips_multibyte() {
    string_round_trip("sérveur — サーバー ✓");
}

#[test]
fn string_encoding_layout() {
    // Three ASCII bytes: the varint length prefix then the bytes.
    assert_eq!(as_string("abc").unwrap(), vec![0x03, b'a', b'b', b'c']);
}

#[test]
fn string_negative_length_is_bad_packet() {
    // Varint -1 as the length prefix.
    let mut data = as_varint(-1);
    data.push(b'x');
    let mut b = Buffer::new(data);
    assert_eq!(get_string(&mut b), Err(GDError::PacketBad));
}

#[test]
fn string_truncated_payload_underflows() {
    let mut data = as_varint(5);
    data.extend_from_slice(b"ab");
    let mut b = Buffer::new(data);
    assert!(matches!(get_string(&mut b), Err(GDError::UnderflowError { .. })));
}

#[test]
fn string_invalid_utf8_is_bad_packet() {
    let mut data = as_varint(2);
    data.extend_from_slice(&[0xFF, 0xFE]);
    let mut b = Buffer::new(data);
    assert_eq!(get_string(&mut b), Err(GDError::PacketBad));
}
