use rodbus::{
    calc_crc, format_mbap, format_rtu, parse_mbap, parse_rtu, FrameParseError, ParseOutcome,
    UnitId,
};

#[test]
fn mbap_header_round_trips() {
    let bytes = [0x01, 0x00, 0x00, 0x00, 0x00, 0x06, 0x01, 0x03, 0x00, 0x00, 0x00, 0x0A];
    match parse_mbap(&bytes).unwrap() {
        ParseOutcome::Complete(frame, used) => {
            assert_eq!(used, 12);
            assert_eq!(frame.tx_id, 0x0100);
            assert_eq!(frame.unit_id, UnitId::new(1));
            assert_eq!(frame.pdu, vec![0x03, 0x00, 0x00, 0x00, 0x0A]);
            assert_eq!(format_mbap(frame.tx_id, frame.unit_id, &frame.pdu), bytes.to_vec());
        }
        other => panic!("unexpected {:?}", other),
    }
}

#[test]
fn mbap_response_round_trips() {
    let mut pdu = vec![0x03, 20];
    for k in 0..10u16 {
        pdu.push((k >> 8) as u8);
        pdu.push(k as u8);
    }
    let framed = format_mbap(0x0100, UnitId::new(1), &pdu);
    assert_eq!(&framed[0..7], &[0x01, 0x00, 0x00, 0x00, 0x00, 23, 0x01]);
    match parse_mbap(&framed).unwrap() {
        ParseOutcome::Complete(frame, used) => {
            assert_eq!(used, framed.len());
            assert_eq!(frame.pdu, pdu);
        }
        other => panic!("unexpected {:?}", other),
    }
}

#[test]
fn mbap_asks_for_more_bytes() {
    assert_eq!(parse_mbap(&[0x00, 0x01]).unwrap(), ParseOutcome::NeedMore(5));
    let partial = [0x00, 0x01, 0x00, 0x00, 0x00, 0x06, 0x01, 0x03];
    assert_eq!(parse_mbap(&partial).unwrap(), ParseOutcome::NeedMore(4));
}

#[test]
fn mbap_refuses_bad_protocol_and_length() {
    let bad_protocol = [0x00, 0x01, 0x00, 0x01, 0x00, 0x06, 0x01];
    assert_eq!(parse_mbap(&bad_protocol), Err(FrameParseError::BadProtocolId(1)));
    let too_short = [0x00, 0x01, 0x00, 0x00, 0x00, 0x01, 0x01];
    assert_eq!(parse_mbap(&too_short), Err(FrameParseError::BadLength(1)));
    let too_long = [0x00, 0x01, 0x00, 0x00, 0x00, 0xFF, 0x01];
    assert_eq!(parse_mbap(&too_long), Err(FrameParseError::BadLength(255)));
}

#[test]
fn crc_of_a_known_frame() {
    assert_eq!(calc_crc(&[0x01, 0x03, 0x00, 0x00, 0x00, 0x01]), 0x0A84);
    assert_eq!(calc_crc(&[]), 0xFFFF);
}

#[test]
fn rtu_frame_with_correct_crc_parses() {
    let frame = [0x01, 0x03, 0x00, 0x00, 0x00, 0x01, 0x84, 0x0A];
    let parsed = parse_rtu(&frame).unwrap();
    assert_eq!(parsed.unit_id, UnitId::new(1));
    assert_eq!(parsed.pdu, vec![0x03, 0x00, 0x00, 0x00, 0x01]);
    assert_eq!(format_rtu(UnitId::new(1), &parsed.pdu), frame.to_vec());
}

#[test]
fn rtu_frame_with_flipped_crc_fails() {
    let frame = [0x01, 0x03, 0x00, 0x00, 0x00, 0x01, 0x85, 0x0A];
    assert_eq!(parse_rtu(&frame).err(), Some(FrameParseError::BadCrc(0x0A84, 0x0A85)));
    let frame = [0x01, 0x03, 0x00, 0x00, 0x00, 0x01, 0x84, 0x0B];
    assert_eq!(parse_rtu(&frame).err(), Some(FrameParseError::BadCrc(0x0A84, 0x0B84)));
}

#[test]
fn rtu_frame_too_short() {
    assert_eq!(parse_rtu(&[0x01, 0x03, 0x00]).err(), Some(FrameParseError::BadFrameSize(3)));
}
