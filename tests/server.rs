use rodbus::{
    authorize_read_only, get_range_of, parse_request, parse_response_start, process_request,
    route, AddressRange, AduParseError, ExceptionCode, FunctionCode, InfoObject, Request,
    RequestError, Route, ServerDeviceInfo, ServerHandler, TransactionIds, UnitId,
};
use scursor::{ReadCursor, WriteCursor};

struct Unit {
    coils: Vec<bool>,
    inputs: Vec<bool>,
    holding: Vec<u16>,
    input_registers: Vec<u16>,
    info: Option<ServerDeviceInfo>,
}

impl ServerHandler for Unit {
    fn coils_as_slice(&self) -> &[bool] {
        &self.coils
    }

    fn discrete_inputs_as_slice(&self) -> &[bool] {
        &self.inputs
    }

    fn holding_registers_as_slice(&self) -> &[u16] {
        &self.holding
    }

    fn input_registers_as_slice(&self) -> &[u16] {
        &self.input_registers
    }

    fn write_single_register(&mut self, value: rodbus::Indexed<u16>) -> Result<(), ExceptionCode> {
        match self.holding.get_mut(value.index as usize) {
            Some(r) => {
                *r = value.value;
                Ok(())
            }
            None => Err(ExceptionCode::IllegalDataAddress),
        }
    }

    fn device_info(&self) -> Option<&ServerDeviceInfo> {
        self.info.as_ref()
    }
}

fn unit() -> Unit {
    Unit {
        coils: vec![true, false, true, true, false, false, false, false, true, false],
        inputs: vec![false; 10],
        holding: (0..10).collect(),
        input_registers: vec![0; 10],
        info: Some(
            ServerDeviceInfo::new(&[InfoObject::new(0, b"Vendor".to_vec())], &[], &[], false)
                .unwrap(),
        ),
    }
}

fn answer(handler: &mut Unit, pdu: &[u8]) -> Vec<u8> {
    let mut buffer = vec![0u8; 260];
    let mut cursor = WriteCursor::new(&mut buffer);
    process_request(handler, pdu, &mut cursor).unwrap();
    cursor.written().to_vec()
}

#[test]
fn range_of_a_slice() {
    let data = [1u16, 2, 3, 4];
    assert_eq!(get_range_of(&data, AddressRange::try_from(1, 2).unwrap()), Ok(&data[1..3]));
    assert_eq!(
        get_range_of(&data, AddressRange::try_from(3, 2).unwrap()),
        Err(ExceptionCode::IllegalDataAddress)
    );
}

#[test]
fn reads_coils() {
    let mut h = unit();
    assert_eq!(answer(&mut h, &[0x01, 0x00, 0x00, 0x00, 0x0A]), vec![0x01, 0x02, 0x0D, 0x01]);
}

#[test]
fn reads_holding_registers() {
    let mut h = unit();
    assert_eq!(
        answer(&mut h, &[0x03, 0x00, 0x02, 0x00, 0x02]),
        vec![0x03, 0x04, 0x00, 0x02, 0x00, 0x03]
    );
}

#[test]
fn read_past_the_end_is_an_exception() {
    let mut h = unit();
    assert_eq!(answer(&mut h, &[0x04, 0x00, 0x09, 0x00, 0x02]), vec![0x84, 0x02]);
}

#[test]
fn read_coils_count_limits() {
    match parse_request(&[0x01, 0x00, 0x00, 0x07, 0xD0]) {
        Ok(Request::ReadCoils(r)) => assert_eq!(r.get().count, 2000),
        _ => panic!("expected a read of 2000 coils"),
    }
    assert!(matches!(
        parse_request(&[0x01, 0x00, 0x00, 0x07, 0xD1]),
        Err(ExceptionCode::IllegalDataValue)
    ));
}

#[test]
fn write_single_register_echoes() {
    let mut h = unit();
    assert_eq!(answer(&mut h, &[0x06, 0x00, 0x01, 0xBE, 0xEF]), vec![0x06, 0x00, 0x01, 0xBE, 0xEF]);
    assert_eq!(h.holding[1], 0xBEEF);
}

#[test]
fn unsupported_write_is_illegal_function() {
    let mut h = unit();
    assert_eq!(answer(&mut h, &[0x05, 0x00, 0x01, 0xFF, 0x00]), vec![0x85, 0x01]);
}

#[test]
fn write_single_coil_with_bad_value_is_illegal_data_value() {
    let mut h = unit();
    assert!(matches!(
        parse_request(&[0x05, 0x00, 0x01, 0x12, 0x34]),
        Err(ExceptionCode::IllegalDataValue)
    ));
    assert_eq!(answer(&mut h, &[0x05, 0x00, 0x01, 0x12, 0x34]), vec![0x85, 0x03]);
}

#[test]
fn unknown_function_is_illegal_function() {
    let mut h = unit();
    assert_eq!(answer(&mut h, &[0x07]), vec![0x87, 0x01]);
}

#[test]
fn range_overflow_is_illegal_data_address() {
    let mut h = unit();
    assert_eq!(answer(&mut h, &[0x03, 0xFF, 0xFF, 0x00, 0x02]), vec![0x83, 0x02]);
}

#[test]
fn trailing_bytes_are_illegal_data_value() {
    let mut h = unit();
    assert_eq!(answer(&mut h, &[0x03, 0x00, 0x00, 0x00, 0x01, 0x00]), vec![0x83, 0x03]);
}

#[test]
fn device_identification_through_the_handler() {
    let mut h = unit();
    assert_eq!(
        answer(&mut h, &[0x2B, 0x0E, 0x01, 0x00]),
        vec![0x2B, 0x0E, 0x01, 0x01, 0x00, 0x00, 0x01, 0x00, 0x06, b'V', b'e', b'n', b'd', b'o', b'r']
    );
    assert_eq!(answer(&mut h, &[0x2B, 0x0E, 0x04, 0x00]), vec![0xAB, 0x02]);
    assert_eq!(answer(&mut h, &[0x2B, 0x0D, 0x01, 0x00]), vec![0xAB, 0x03]);
    assert_eq!(answer(&mut h, &[0x2B, 0x0E, 0x07, 0x00]), vec![0xAB, 0x03]);
}

#[test]
fn routing_by_unit() {
    assert_eq!(route(true, false, UnitId::new(1)), Route::Process { respond: true });
    assert_eq!(route(true, true, UnitId::broadcast()), Route::Process { respond: false });
    assert_eq!(route(false, true, UnitId::new(9)), Route::Ignore);
    assert_eq!(
        route(false, false, UnitId::new(9)),
        Route::Reject(ExceptionCode::GatewayPathUnavailable)
    );
}

#[test]
fn read_only_authorization() {
    assert_eq!(authorize_read_only(FunctionCode::ReadCoils), Ok(()));
    assert_eq!(
        authorize_read_only(FunctionCode::WriteMultipleRegisters),
        Err(ExceptionCode::IllegalFunction)
    );
}

#[test]
fn transaction_ids_wrap() {
    let mut ids = TransactionIds::new();
    assert_eq!(ids.allocate(), 0);
    assert_eq!(ids.allocate(), 1);
    ids.next = 0xFFFF;
    assert_eq!(ids.allocate(), 0xFFFF);
    assert_eq!(ids.allocate(), 0);
}

#[test]
fn response_function_byte_checks() {
    let mut c = ReadCursor::new(&[0x03, 0x02, 0x00, 0x01]);
    assert_eq!(parse_response_start(FunctionCode::ReadHoldingRegisters, &mut c), Ok(()));
    assert_eq!(c.remaining(), 3);
    let mut c = ReadCursor::new(&[0x83, 0x02]);
    assert_eq!(
        parse_response_start(FunctionCode::ReadHoldingRegisters, &mut c),
        Err(RequestError::Exception(ExceptionCode::IllegalDataAddress))
    );
    let mut c = ReadCursor::new(&[0x83, 0x02, 0x00]);
    assert_eq!(
        parse_response_start(FunctionCode::ReadHoldingRegisters, &mut c),
        Err(RequestError::BadResponse(AduParseError::TooManyBytes))
    );
    let mut c = ReadCursor::new(&[0x04, 0x02]);
    assert_eq!(
        parse_response_start(FunctionCode::ReadHoldingRegisters, &mut c),
        Err(RequestError::BadResponse(AduParseError::UnknownResponseFunction(0x04)))
    );
}

#[test]
fn write_echo_reply_echoes_or_refuses() {
    let request = parse_request(&[0x10, 0x00, 0x01, 0x00, 0x02, 0x04, 0x00, 0x0A, 0x01, 0x02]).unwrap();
    let mut buffer = [0u8; 16];
    let mut cursor = WriteCursor::new(&mut buffer);
    rodbus::write_echo_reply(0x10, &request, Ok(()), &mut cursor).unwrap();
    assert_eq!(cursor.written(), &[0x10, 0x00, 0x01, 0x00, 0x02]);
    let mut buffer = [0u8; 16];
    let mut cursor = WriteCursor::new(&mut buffer);
    rodbus::write_echo_reply(0x10, &request, Err(ExceptionCode::IllegalDataAddress), &mut cursor)
        .unwrap();
    assert_eq!(cursor.written(), &[0x90, 0x02]);
}

#[test]
fn write_multiple_registers_without_handler_support() {
    let mut h = unit();
    assert_eq!(
        answer(&mut h, &[0x10, 0x00, 0x01, 0x00, 0x01, 0x02, 0x00, 0x0A]),
        vec![0x90, 0x01]
    );
}
