use rodbus::{
    calc_bytes_for_bits, calc_bytes_for_registers, parse_bits_response, parse_registers_response,
    serialize_bits, serialize_continuation, serialize_registers, serialize_str, AddressRange,
    AduParseError, BitIterator, ExceptionCode, Indexed, InternalError, InvalidRange,
    MaskWriteRegister, MeiCode, ReadDeviceIdCode, ReadDeviceRequest, RegisterIterator,
    RequestError, WriteMultiple,
};
use scursor::{ReadCursor, WriteCursor};

fn written<F: FnOnce(&mut WriteCursor) -> Result<(), RequestError>>(size: usize, f: F) -> Vec<u8> {
    let mut buffer = vec![0u8; size];
    let mut cursor = WriteCursor::new(&mut buffer);
    f(&mut cursor).unwrap();
    cursor.written().to_vec()
}

#[test]
fn parse_fails_for_unknown_coil_value() {
    let mut cursor = ReadCursor::new(&[0x00, 0x01, 0xAB, 0xCD]);
    let result = Indexed::<bool>::parse(&mut cursor);
    assert_eq!(result, Err(AduParseError::UnknownCoilState(0xABCD).into()))
}

#[test]
fn parse_succeeds_for_valid_coil_value_false() {
    let mut cursor = ReadCursor::new(&[0x00, 0x01, 0x00, 0x00]);
    let result = Indexed::<bool>::parse(&mut cursor);
    assert_eq!(result, Ok(Indexed::new(1, false)));
}

#[test]
fn parse_succeeds_for_valid_coil_value_true() {
    let mut cursor = ReadCursor::new(&[0x00, 0x01, 0xFF, 0x00]);
    let result = Indexed::<bool>::parse(&mut cursor);
    assert_eq!(result, Ok(Indexed::new(1, true)));
}

#[test]
fn parse_succeeds_for_valid_indexed_register() {
    let mut cursor = ReadCursor::new(&[0x00, 0x01, 0xCA, 0xFE]);
    let result = Indexed::<u16>::parse(&mut cursor);
    assert_eq!(result, Ok(Indexed::new(1, 0xCAFE)));
}

#[test]
fn parse_fails_for_invalid_device_info_values() {
    let mut cursor = ReadCursor::new(&[0xFF, 0x01, 0x01]);

    let result = ReadDeviceRequest::parse(&mut cursor);
    assert_eq!(result, Err(AduParseError::MeiCodeOutOfRange(0xFF).into()));

    let mut cursor = ReadCursor::new(&[0x0E, 0xFF, 0x01]);

    let result = ReadDeviceRequest::parse(&mut cursor);
    assert_eq!(result, Err(AduParseError::DeviceCodeOutOfRange(0xFF).into()));
}

#[test]
fn parse_succeeds_for_valid_device_info_values() {
    let mut cursor = ReadCursor::new(&[0x0E, 0x01, 0x00]);

    let result = ReadDeviceRequest::parse(&mut cursor);
    assert_eq!(
        result,
        Ok(ReadDeviceRequest {
            mei_code: MeiCode::ReadDeviceId,
            dev_id: ReadDeviceIdCode::BasicStreaming,
            obj_id: Some(0x00)
        })
    )
}

#[test]
fn canopen_interface_is_refused_with_illegal_data_value() {
    let mut cursor = ReadCursor::new(&[0x0D, 0x01, 0x00]);
    let result = ReadDeviceRequest::parse(&mut cursor);
    assert_eq!(result, Err(RequestError::Exception(ExceptionCode::IllegalDataValue)));
}

#[test]
fn parse_succeeds_for_valid_indexed_mask_write_register() {
    let mut cursor = ReadCursor::new(&[0x00, 0xBE, 0xCA, 0x00, 0x00, 0xFE]);

    let result = Indexed::<MaskWriteRegister>::parse(&mut cursor);
    assert_eq!(
        result,
        Ok(Indexed::new(
            0xBE,
            MaskWriteRegister {
                and_mask: 0xCA00,
                or_mask: 0x00FE
            }
        ))
    );
}

#[test]
fn serializes_address_range() {
    let range = AddressRange::try_from(3, 512).unwrap();
    let mut buffer = [0u8; 4];
    let mut cursor = WriteCursor::new(&mut buffer);
    range.serialize(&mut cursor).unwrap();
    assert_eq!(buffer, [0x00, 0x03, 0x02, 0x00]);
}

#[test]
fn serialize_option() {
    let next_position = Some(0x3u8);
    let mut buffer = [0u8; 2];

    let mut cursor = WriteCursor::new(&mut buffer);

    serialize_continuation(next_position, &mut cursor).unwrap();
    assert_eq!(buffer, [0xFF, 0x03]);

    let next_position = None;
    let mut buffer = [0u8; 2];

    let mut cursor = WriteCursor::new(&mut buffer);
    serialize_continuation(next_position, &mut cursor).unwrap();
    assert_eq!(buffer, [0x00, 0x00]);
}

#[test]
fn serialize_string() {
    let test_str: String = "Hello, World!".to_string();
    let mut buffer = [0u8; 14];

    let mut cursor = WriteCursor::new(&mut buffer);
    serialize_str(test_str.as_str(), &mut cursor).unwrap();

    let expected: [u8; 14] = [
        0x0D, 0x48, 0x65, 0x6C, 0x6C, 0x6F, 0x2C, 0x20, 0x57, 0x6F, 0x72, 0x6C, 0x64, 0x21,
    ];
    assert_eq!(buffer, expected);
}

#[test]
fn correctly_iterates_over_low_order_bits() {
    let mut cursor = ReadCursor::new(&[0x03]);
    let iterator =
        BitIterator::parse_all(AddressRange::try_from(1, 3).unwrap(), &mut cursor).unwrap();
    assert_eq!(iterator.size_hint(), (3, Some(3)));
    assert!(cursor.is_empty());
    let values: Vec<Indexed<bool>> = iterator.collect_all();
    assert_eq!(
        values,
        vec![
            Indexed::new(1, true),
            Indexed::new(2, true),
            Indexed::new(3, false)
        ]
    );
}

#[test]
fn correctly_iterates_over_registers() {
    let mut cursor = ReadCursor::new(&[0xFF, 0xFF, 0x01, 0xCC]);
    let iterator =
        RegisterIterator::parse_all(AddressRange::try_from(1, 2).unwrap(), &mut cursor).unwrap();

    assert_eq!(iterator.size_hint(), (2, Some(2)));
    let values: Vec<Indexed<u16>> = iterator.collect_all();
    assert_eq!(values, vec![Indexed::new(1, 0xFFFF), Indexed::new(2, 0x01CC)]);
}

#[test]
fn byte_counts_of_bits_and_registers() {
    assert_eq!(calc_bytes_for_bits(0), Ok(0));
    assert_eq!(calc_bytes_for_bits(1), Ok(1));
    assert_eq!(calc_bytes_for_bits(8), Ok(1));
    assert_eq!(calc_bytes_for_bits(9), Ok(2));
    assert_eq!(calc_bytes_for_bits(2000), Ok(250));
    assert_eq!(calc_bytes_for_bits(2041), Err(InternalError::BadByteCount(256)));
    assert_eq!(calc_bytes_for_registers(125), Ok(250));
    assert_eq!(calc_bytes_for_registers(128), Err(InternalError::BadByteCount(256)));
}

#[test]
fn bits_are_packed_least_significant_first() {
    let bits = [true, false, true, true, false, false, false, false, true, true];
    let out = written(8, |c| serialize_bits(&bits, c));
    assert_eq!(out, vec![0x02, 0x0D, 0x03]);
}

#[test]
fn registers_are_written_high_byte_first() {
    let values = [0x1234u16, 0xABCD];
    let out = written(8, |c| serialize_registers(&values, c));
    assert_eq!(out, vec![0x04, 0x12, 0x34, 0xAB, 0xCD]);
}

#[test]
fn bits_response_round_trips_with_byte_count() {
    let bits: Vec<bool> = (0..19).map(|i| i % 3 == 0).collect();
    let out = written(16, |c| serialize_bits(&bits, c));
    assert_eq!(out[0] as usize, (bits.len() + 7) / 8);
    let range = AddressRange::try_from(100, 19).unwrap();
    let mut cursor = ReadCursor::new(&out);
    let items = parse_bits_response(range, &mut cursor).unwrap();
    let expected: Vec<Indexed<bool>> =
        bits.iter().enumerate().map(|(k, b)| Indexed::new(100 + k as u16, *b)).collect();
    assert_eq!(items, expected);
}

#[test]
fn registers_response_round_trips_with_byte_count() {
    let values = [1u16, 0xFFFF, 0x8000];
    let out = written(16, |c| serialize_registers(&values, c));
    assert_eq!(out[0], 6);
    let range = AddressRange::try_from(5, 3).unwrap();
    let mut cursor = ReadCursor::new(&out);
    let items = parse_registers_response(range, &mut cursor).unwrap();
    assert_eq!(items, vec![Indexed::new(5, 1), Indexed::new(6, 0xFFFF), Indexed::new(7, 0x8000)]);
}

#[test]
fn bits_response_with_wrong_byte_count_fails() {
    let range = AddressRange::try_from(0, 9).unwrap();
    let mut cursor = ReadCursor::new(&[0x01, 0xFF]);
    assert_eq!(
        parse_bits_response(range, &mut cursor),
        Err(RequestError::BadResponse(AduParseError::ByteCountMismatch(2, 1)))
    );
}

#[test]
fn bits_response_with_trailing_bytes_fails() {
    let range = AddressRange::try_from(0, 8).unwrap();
    let mut cursor = ReadCursor::new(&[0x01, 0xFF, 0x00]);
    assert_eq!(
        parse_bits_response(range, &mut cursor),
        Err(RequestError::BadResponse(AduParseError::TrailingBytes(1)))
    );
}

#[test]
fn range_parse_errors() {
    let mut cursor = ReadCursor::new(&[0x00, 0x01, 0x00]);
    assert_eq!(
        AddressRange::parse(&mut cursor),
        Err(RequestError::BadResponse(AduParseError::InsufficientBytes))
    );
    let mut cursor = ReadCursor::new(&[0x00, 0x01, 0x00, 0x00]);
    assert_eq!(
        AddressRange::parse(&mut cursor),
        Err(RequestError::BadRequest(InvalidRange::CountOfZero))
    );
}

#[test]
fn single_writes_round_trip() {
    let coil = Indexed::new(0x0102, true);
    let out = written(4, |c| coil.serialize(c));
    assert_eq!(out, vec![0x01, 0x02, 0xFF, 0x00]);
    assert_eq!(Indexed::<bool>::parse(&mut ReadCursor::new(&out)), Ok(coil));

    let reg = Indexed::new(0x0304, 0xCAFEu16);
    let out = written(4, |c| reg.serialize(c));
    assert_eq!(Indexed::<u16>::parse(&mut ReadCursor::new(&out)), Ok(reg));

    let mask = Indexed::new(4, MaskWriteRegister::new(0xF2, 0x25));
    let out = written(6, |c| mask.serialize(c));
    assert_eq!(out, vec![0x00, 0x04, 0x00, 0xF2, 0x00, 0x25]);
    assert_eq!(Indexed::<MaskWriteRegister>::parse(&mut ReadCursor::new(&out)), Ok(mask));
}

#[test]
fn write_single_coil_with_unknown_value_fails() {
    let mut cursor = ReadCursor::new(&[0x00, 0x01, 0x12, 0x34]);
    assert_eq!(
        Indexed::<bool>::parse(&mut cursor),
        Err(RequestError::BadResponse(AduParseError::UnknownCoilState(0x1234)))
    );
}

#[test]
fn device_request_round_trips() {
    let req = ReadDeviceRequest::new(MeiCode::ReadDeviceId, ReadDeviceIdCode::Specific, Some(0x8B));
    let out = written(3, |c| req.serialize(c));
    assert_eq!(out, vec![0x0E, 0x04, 0x8B]);
    assert_eq!(ReadDeviceRequest::parse(&mut ReadCursor::new(&out)), Ok(req));

    let unset = ReadDeviceRequest::new(MeiCode::ReadDeviceId, ReadDeviceIdCode::BasicStreaming, None);
    let out = written(3, |c| unset.serialize(c));
    assert_eq!(out, vec![0x0E, 0x01, 0x00]);
}

#[test]
fn write_multiple_requests_round_trip() {
    let coils = WriteMultiple::from(10, vec![true, false, true]).unwrap();
    let out = written(16, |c| coils.serialize(c));
    assert_eq!(out, vec![0x00, 0x0A, 0x00, 0x03, 0x01, 0x05]);
    let back = WriteMultiple::<bool>::parse(&mut ReadCursor::new(&out)).unwrap();
    assert_eq!((back.range, back.values), (coils.range, vec![true, false, true]));

    let regs = WriteMultiple::from(1, vec![0x0102u16, 0x0304]).unwrap();
    let out = written(16, |c| regs.serialize(c));
    assert_eq!(out, vec![0x00, 0x01, 0x00, 0x02, 0x04, 0x01, 0x02, 0x03, 0x04]);
    let back = WriteMultiple::<u16>::parse(&mut ReadCursor::new(&out)).unwrap();
    assert_eq!((back.range, back.values), (regs.range, vec![0x0102, 0x0304]));
}

#[test]
fn write_multiple_with_wrong_byte_count_fails() {
    let mut cursor = ReadCursor::new(&[0x00, 0x01, 0x00, 0x02, 0x03, 0x01, 0x02, 0x03]);
    let r = WriteMultiple::<u16>::parse(&mut cursor);
    assert!(matches!(
        r,
        Err(RequestError::BadResponse(AduParseError::ByteCountMismatch(4, 3)))
    ));
}

#[test]
fn no_room_is_reported() {
    let range = AddressRange::try_from(1, 2).unwrap();
    let mut buffer = [0u8; 3];
    let mut cursor = WriteCursor::new(&mut buffer);
    assert_eq!(
        range.serialize(&mut cursor),
        Err(RequestError::Internal(InternalError::InsufficientWriteSpace))
    );
}

#[test]
fn exception_codes_on_the_wire() {
    assert_eq!(ExceptionCode::GatewayPathUnavailable.to_u8(), 0x0A);
    assert_eq!(ExceptionCode::from_u8(0x08), Ok(ExceptionCode::MemoryParityError));
    assert_eq!(ExceptionCode::from_u8(0x07), Err(AduParseError::UnknownException(0x07)));
}
