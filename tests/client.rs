use rodbus::{
    parse_device_reply, parse_echo_reply, parse_read_bits_reply, parse_read_registers_reply,
    AddressRange, AduParseError, ExceptionCode, FunctionCode, InFlight, Indexed, RequestError,
};

#[test]
fn client_reads_registers_reply() {
    let range = AddressRange::try_from(2, 2).unwrap();
    let pdu = [0x03, 0x04, 0x00, 0x02, 0x00, 0x03];
    assert_eq!(
        parse_read_registers_reply(FunctionCode::ReadHoldingRegisters, range, &pdu),
        Ok(vec![Indexed::new(2, 2), Indexed::new(3, 3)])
    );
}

#[test]
fn client_reads_bits_reply() {
    let range = AddressRange::try_from(0, 10).unwrap();
    let pdu = [0x01, 0x02, 0x0D, 0x01];
    let items = parse_read_bits_reply(FunctionCode::ReadCoils, range, &pdu).unwrap();
    let values: Vec<bool> = items.iter().map(|i| i.value).collect();
    assert_eq!(values, vec![true, false, true, true, false, false, false, false, true, false]);
    assert_eq!(items[9].index, 9);
}

#[test]
fn client_reads_exception_reply() {
    let range = AddressRange::try_from(0, 1).unwrap();
    assert_eq!(
        parse_read_registers_reply(FunctionCode::ReadInputRegisters, range, &[0x84, 0x02]),
        Err(RequestError::Exception(ExceptionCode::IllegalDataAddress))
    );
}

#[test]
fn client_checks_echo() {
    let body = [0x00, 0x01, 0xBE, 0xEF];
    assert_eq!(
        parse_echo_reply(FunctionCode::WriteSingleRegister, &body, &[0x06, 0x00, 0x01, 0xBE, 0xEF]),
        Ok(())
    );
    assert_eq!(
        parse_echo_reply(FunctionCode::WriteSingleRegister, &body, &[0x06, 0x00, 0x01, 0xBE, 0xEE]),
        Err(RequestError::BadResponse(AduParseError::ReplyEchoMismatch))
    );
    assert_eq!(
        parse_echo_reply(FunctionCode::WriteSingleRegister, &body, &[0x06, 0x00, 0x01]),
        Err(RequestError::BadResponse(AduParseError::InsufficientBytes))
    );
}

#[test]
fn client_reads_device_reply() {
    let pdu = [0x2B, 0x0E, 0x01, 0x01, 0x00, 0x00, 0x01, 0x00, 0x02, b'h', b'i'];
    let info = parse_device_reply(&pdu).unwrap();
    assert_eq!(info.storage.len(), 1);
    assert_eq!(info.storage[0].data, b"hi".to_vec());
    assert_eq!(info.continue_at, None);
}

#[test]
fn in_flight_table_matches_ids() {
    let mut table = InFlight::new(2);
    assert!(table.register(7));
    assert!(!table.register(7));
    assert!(table.register(8));
    assert!(!table.register(9));
    assert_eq!(table.len(), 2);
    assert!(table.complete(7));
    assert!(!table.complete(7));
    assert!(!table.complete(42));
    assert_eq!(table.len(), 1);
}

#[test]
fn serial_channel_admits_one_request() {
    let mut table = InFlight::new(1);
    assert!(table.register(0));
    assert!(!table.register(1));
    assert!(table.complete(0));
    assert!(table.register(1));
}
