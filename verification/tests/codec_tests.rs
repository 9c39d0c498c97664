use car_server::codec::{Car, EncodeError, ParseCarErr, FRAME_LEN};

#[test]
fn decode_reference_frame() {
    let c = Car::decode(b"((0,0):(9,7))").unwrap();
    assert_eq!(c.pos, (0, 0));
    assert_eq!(c.target, (9, 7));
}

#[test]
fn decode_accepts_signed_and_multi_digit() {
    let c = Car::decode(b"((-1,22):(303,+4))").unwrap();
    assert_eq!(c.pos, (-1, 22));
    assert_eq!(c.target, (303, 4));
    let c = Car::decode(b"((-2147483648,0):(2147483647,0))").unwrap();
    assert_eq!(c.pos, (i32::MIN, 0));
    assert_eq!(c.target, (i32::MAX, 0));
}

#[test]
fn decode_rejects_malformed_frames() {
    assert_eq!(Car::decode(b"not-a-frame!!"), Err(ParseCarErr));
    assert_eq!(Car::decode(b""), Err(ParseCarErr));
    assert_eq!(Car::decode(b"((0,0):(9,7)"), Err(ParseCarErr));
    assert_eq!(Car::decode(b"(0,0):(9,7))"), Err(ParseCarErr));
    assert_eq!(Car::decode(b"((0 0):(9,7))"), Err(ParseCarErr));
    assert_eq!(Car::decode(b"((a,0):(9,7))"), Err(ParseCarErr));
    assert_eq!(Car::decode(b"((,0):(9,7))"), Err(ParseCarErr));
    assert_eq!(Car::decode(b"((-,0):(9,7))"), Err(ParseCarErr));
    assert_eq!(Car::decode(b"((0,0)(9,7))"), Err(ParseCarErr));
}

#[test]
fn decode_rejects_out_of_range_fields() {
    assert_eq!(Car::decode(b"((2147483648,0):(0,0))"), Err(ParseCarErr));
    assert_eq!(Car::decode(b"((-2147483649,0):(0,0))"), Err(ParseCarErr));
    assert_eq!(Car::decode(b"((99999999999999999999,0):(0,0))"), Err(ParseCarErr));
}

#[test]
fn decode_accepts_leading_zeros() {
    let c = Car::decode(b"((007,010):(0,0))").unwrap();
    assert_eq!(c.pos, (7, 10));
}

#[test]
fn encode_reference_entity_exactly() {
    let c = Car { pos: (1, 0), target: (9, 7) };
    let frame = c.encode().unwrap();
    assert_eq!(frame, b"((1,0):(9,7))".to_vec());
    assert_eq!(frame.len(), FRAME_LEN);
}

#[test]
fn encode_fails_when_width_exceeded() {
    let c = Car { pos: (10, 0), target: (9, 7) };
    assert_eq!(c.encode(), Err(EncodeError));
    let c = Car { pos: (-1, 0), target: (9, 7) };
    assert_eq!(c.encode(), Err(EncodeError));
}

#[test]
fn frame_round_trip_on_wire_frames() {
    for m in [&b"((0,0):(9,7))"[..], b"((1,2):(3,4))", b"((9,9):(0,0))"] {
        let c = Car::decode(m).unwrap();
        let back = c.encode().unwrap();
        assert_eq!(back, m.to_vec());
    }
}
