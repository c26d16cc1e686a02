use pn_rust::buffer::{Buffer, BUFFER_SIZE};
use pn_rust::error::Error;
use pn_rust::value::Value;

fn round_trip(v: Value) -> Value {
    let mut buffer = Buffer::new();
    buffer.write(&v).unwrap();
    buffer.rewind();
    buffer.read().unwrap()
}

#[test]
fn round_trip_undefined() {
    assert_eq!(round_trip(Value::Undefined), Value::Undefined);
}

#[test]
fn round_trip_real() {
    let v = Value::Real(3.5f64.to_bits());
    assert_eq!(round_trip(v.clone()), v);
    let neg = Value::Real((-0.25f64).to_bits());
    assert_eq!(round_trip(neg.clone()), neg);
}

#[test]
fn round_trip_string() {
    let v = Value::String(b"hello world".to_vec());
    assert_eq!(round_trip(v.clone()), v);
}

#[test]
fn round_trip_empty_string() {
    let v = Value::String(Vec::new());
    assert_eq!(round_trip(v.clone()), v);
}

#[test]
fn round_trip_empty_array() {
    let v = Value::Array(Vec::new());
    assert_eq!(round_trip(v.clone()), v);
}

#[test]
fn round_trip_nested_array_depth_five() {
    let leaf = Value::Array(vec![
        Value::Real(1.0f64.to_bits()),
        Value::String(b"deep".to_vec()),
        Value::Undefined,
    ]);
    let d2 = Value::Array(vec![leaf, Value::Real(2.0f64.to_bits())]);
    let d3 = Value::Array(vec![Value::Undefined, d2]);
    let d4 = Value::Array(vec![d3, Value::String(Vec::new()), Value::Array(Vec::new())]);
    let d5 = Value::Array(vec![d4]);
    assert_eq!(round_trip(d5.clone()), d5);
}

#[test]
fn wire_format_is_little_endian_and_tagged() {
    let mut buffer = Buffer::new();
    buffer.write(&Value::String(b"ab".to_vec())).unwrap();
    let bytes = buffer.bytes();
    // tag 1, 4-byte length 2, then the raw bytes
    assert_eq!(&bytes[0..7], &[1, 2, 0, 0, 0, b'a', b'b']);

    let mut buffer = Buffer::new();
    buffer.write(&Value::Real(1.0f64.to_bits())).unwrap();
    let mut expected = vec![2u8];
    expected.extend_from_slice(&1.0f64.to_le_bytes());
    assert_eq!(&buffer.bytes()[0..9], expected.as_slice());

    let mut buffer = Buffer::new();
    buffer.write(&Value::Array(vec![Value::Undefined])).unwrap();
    assert_eq!(&buffer.bytes()[0..6], &[3, 1, 0, 0, 0, 0]);
}

#[test]
fn capacity_exact_fit_succeeds() {
    // tag + 4-byte length + payload == BUFFER_SIZE exactly
    let payload = vec![7u8; BUFFER_SIZE - 5];
    let mut buffer = Buffer::new();
    assert_eq!(buffer.write(&Value::String(payload)), Ok(()));
    assert_eq!(buffer.position(), BUFFER_SIZE);
}

#[test]
fn capacity_one_byte_over_fails() {
    let payload = vec![7u8; BUFFER_SIZE - 4];
    let mut buffer = Buffer::new();
    assert_eq!(
        buffer.write(&Value::String(payload)),
        Err(Error::BufferCapacityExceeded)
    );
}

#[test]
fn write_byte_at_capacity_fails() {
    let mut buffer = Buffer::new();
    for _ in 0..BUFFER_SIZE {
        buffer.write_byte(&0).unwrap();
    }
    assert_eq!(buffer.write_byte(&1), Err(Error::BufferCapacityExceeded));
}

#[test]
fn unknown_tag_is_malformed() {
    let mut region = vec![0u8; BUFFER_SIZE];
    region[0] = 7;
    let mut buffer = Buffer::from_bytes(region);
    assert_eq!(buffer.read(), Err(Error::MalformedPayload));
}

#[test]
fn negative_length_is_malformed() {
    let mut region = vec![0u8; BUFFER_SIZE];
    region[0] = 1; // string tag
    region[4] = 0x80; // length field reads as a negative i32
    let mut buffer = Buffer::from_bytes(region);
    assert_eq!(buffer.read(), Err(Error::MalformedPayload));
}

#[test]
fn overlong_length_is_malformed() {
    let mut region = vec![0u8; BUFFER_SIZE];
    region[0] = 1; // string tag
    region[1] = 0xff; // length 0x0001ffff: past the end of the region
    region[2] = 0xff;
    region[3] = 0x01;
    let mut buffer = Buffer::from_bytes(region);
    assert_eq!(buffer.read(), Err(Error::MalformedPayload));
}

#[test]
fn read_at_end_is_malformed() {
    let mut buffer = Buffer::new();
    for _ in 0..BUFFER_SIZE {
        buffer.read_byte().unwrap();
    }
    assert_eq!(buffer.read_byte(), Err(Error::MalformedPayload));
    assert_eq!(buffer.read(), Err(Error::MalformedPayload));
}

#[test]
fn rewind_resets_cursor_and_keeps_bytes() {
    let mut buffer = Buffer::new();
    buffer.write(&Value::Real(6.25f64.to_bits())).unwrap();
    assert_eq!(buffer.position(), 9);
    buffer.rewind();
    assert_eq!(buffer.position(), 0);
    assert_eq!(buffer.read(), Ok(Value::Real(6.25f64.to_bits())));
}

#[test]
fn round_trip_mixed_array() {
    let v = Value::Array(vec![
        Value::Undefined,
        Value::String(b"mixed".to_vec()),
        Value::Real(0.5f64.to_bits()),
        Value::Array(vec![Value::Real(9.75f64.to_bits())]),
    ]);
    assert_eq!(round_trip(v.clone()), v);
}

#[test]
fn round_trip_through_an_external_region() {
    // what the boundary adapter does: copy the full region out, then build
    // a fresh buffer from a full region and read it
    let v = Value::Array(vec![
        Value::String(b"over the boundary".to_vec()),
        Value::Real(12.5f64.to_bits()),
    ]);
    let mut buffer = Buffer::new();
    buffer.write(&v).unwrap();
    let region: Vec<u8> = buffer.bytes().clone();
    assert_eq!(region.len(), BUFFER_SIZE);

    let mut incoming = Buffer::from_bytes(region);
    assert_eq!(incoming.read(), Ok(v));
}

#[test]
fn length_fields_round_trip() {
    let mut buffer = Buffer::new();
    buffer.write_len(305419896).unwrap(); // 0x12345678
    assert_eq!(&buffer.bytes()[0..4], &[0x78, 0x56, 0x34, 0x12]);
    buffer.rewind();
    assert_eq!(buffer.read_len(), Ok(305419896));
}

#[test]
fn zero_tail_reads_as_undefined() {
    // the unused tail of a region is zero, and zero is the undefined tag
    let mut buffer = Buffer::new();
    assert_eq!(buffer.read(), Ok(Value::Undefined));
}
