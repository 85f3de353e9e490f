use rcon::packet::{decode_frame, encode_packet, Packet};
use rcon::RconError;

#[test]
fn encode_has_exact_wire_layout() {
    let p = Packet { id: 7, ty: 2, body: b"hello".to_vec() };
    let wire = encode_packet(&p);
    let expected = vec![
        15, 0, 0, 0, // length = 10 + 5
        7, 0, 0, 0, // id
        2, 0, 0, 0, // type
        b'h', b'e', b'l', b'l', b'o', // body
        0, 0, // terminator pair
    ];
    assert_eq!(wire, expected);
}

#[test]
fn encode_empty_body() {
    let p = Packet { id: 0, ty: 3, body: Vec::new() };
    let wire = encode_packet(&p);
    assert_eq!(wire, vec![10, 0, 0, 0, 0, 0, 0, 0, 3, 0, 0, 0, 0, 0]);
}

#[test]
fn encode_negative_id_is_twos_complement() {
    let p = Packet { id: -1, ty: 2, body: Vec::new() };
    let wire = encode_packet(&p);
    assert_eq!(&wire[4..8], &[0xff, 0xff, 0xff, 0xff]);
}

#[test]
fn round_trip_preserves_triple() {
    let p = Packet { id: 12345, ty: 0, body: b"multi byte body".to_vec() };
    let wire = encode_packet(&p);
    let q = decode_frame(&wire).unwrap();
    assert_eq!(q.id, 12345);
    assert_eq!(q.ty, 0);
    assert_eq!(q.body, b"multi byte body".to_vec());
}

#[test]
fn round_trip_negative_id() {
    let p = Packet { id: -1, ty: 2, body: Vec::new() };
    let wire = encode_packet(&p);
    let q = decode_frame(&wire).unwrap();
    assert_eq!(q.id, -1);
    assert_eq!(q.ty, 2);
    assert!(q.body.is_empty());
}

#[test]
fn decode_rejects_short_frame() {
    assert!(matches!(decode_frame(&[1, 2, 3]), Err(RconError::ProtocolViolation)));
}

#[test]
fn decode_rejects_undersized_length_field() {
    // length field 9 < 10 can never frame a packet
    let frame = vec![9, 0, 0, 0, 0, 0, 0, 0, 0, 0, 0, 0, 0];
    assert!(matches!(decode_frame(&frame), Err(RconError::ProtocolViolation)));
}

#[test]
fn decode_rejects_length_mismatch() {
    let p = Packet { id: 1, ty: 0, body: b"abc".to_vec() };
    let mut wire = encode_packet(&p);
    wire.push(0); // one byte too many for the declared length
    assert!(matches!(decode_frame(&wire), Err(RconError::ProtocolViolation)));
}

#[test]
fn decode_ignores_trailing_byte_values() {
    // the two terminator bytes are not inspected
    let p = Packet { id: 4, ty: 0, body: b"x".to_vec() };
    let mut wire = encode_packet(&p);
    let n = wire.len();
    wire[n - 1] = 0x7f;
    let q = decode_frame(&wire).unwrap();
    assert_eq!(q.body, b"x".to_vec());
}
