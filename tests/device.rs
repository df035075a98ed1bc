use rodbus::{
    parse_device_identification_response, serialize_continuation, DeviceInfoError, ExceptionCode,
    InfoObject, MeiCode, ReadDeviceConformityLevel, ReadDeviceIdCode, ReadDeviceRequest,
    RequestError, ServerDeviceInfo,
};
use scursor::{ReadCursor, WriteCursor};

fn obj(id: u8, text: &str) -> InfoObject {
    InfoObject::new(id, text.as_bytes().to_vec())
}

fn example_server() -> ServerDeviceInfo {
    let basic = [
        obj(0x00, "Example Vendor"),
        obj(0x01, "Little Dictionary"),
        obj(0x02, "0.1.0"),
    ];
    let regular = [obj(0x03, "0x8A"), obj(0x04, "0x8B"), obj(0x05, "0x8C"), obj(0x06, "0x8D")];
    let extended = [
        obj(0x8A, "This is the value for key 0x8A"),
        obj(0x8B, "Value for 0x8B which is a bit longer than your usual method to test if the behavior of sending responses is correct and works, and will it work over a different client as well ?"),
        obj(0x8C, "Another value for 0x8C"),
        obj(0x8D, "Last but not least the value for 0x8D"),
    ];
    ServerDeviceInfo::new(&basic, &regular, &extended, true).unwrap()
}

fn respond(server: &ServerDeviceInfo, code: ReadDeviceIdCode, obj_id: Option<u8>) -> Result<Vec<u8>, RequestError> {
    let request = ReadDeviceRequest::new(MeiCode::ReadDeviceId, code, obj_id);
    let mut buffer = vec![0u8; 253];
    let mut cursor = WriteCursor::new(&mut buffer);
    server.read_device_identification(&request, &mut cursor)?;
    Ok(cursor.written().to_vec())
}

/// Splits a response body into its header and its (id, data) objects.
fn objects(body: &[u8]) -> Vec<(u8, Vec<u8>)> {
    let mut out = Vec::new();
    let mut pos = 6;
    for _ in 0..body[5] {
        let id = body[pos];
        let len = body[pos + 1] as usize;
        out.push((id, body[pos + 2..pos + 2 + len].to_vec()));
        pos += 2 + len;
    }
    assert_eq!(pos, body.len());
    out
}

#[test]
fn basic_request_fits_in_one_page() {
    let server = example_server();
    let body = respond(&server, ReadDeviceIdCode::BasicStreaming, None).unwrap();
    assert_eq!(&body[0..6], &[0x0E, 0x01, 0x83, 0x00, 0x00, 0x03]);
    let objs = objects(&body);
    assert_eq!(
        objs,
        vec![
            (0x00, b"Example Vendor".to_vec()),
            (0x01, b"Little Dictionary".to_vec()),
            (0x02, b"0.1.0".to_vec())
        ]
    );
}

#[test]
fn extended_request_continues_on_a_second_page() {
    let server = example_server();
    let first = respond(&server, ReadDeviceIdCode::ExtendedStreaming, None).unwrap();
    assert_eq!(&first[0..6], &[0x0E, 0x03, 0x83, 0xFF, 0x8D, 0x03]);
    let ids: Vec<u8> = objects(&first).iter().map(|o| o.0).collect();
    assert_eq!(ids, vec![0x8A, 0x8B, 0x8C]);
    assert!(first.len() <= 253);

    let second = respond(&server, ReadDeviceIdCode::ExtendedStreaming, Some(0x8D)).unwrap();
    assert_eq!(&second[0..6], &[0x0E, 0x03, 0x83, 0x00, 0x00, 0x01]);
    let ids: Vec<u8> = objects(&second).iter().map(|o| o.0).collect();
    assert_eq!(ids, vec![0x8D]);
}

#[test]
fn every_page_is_well_formed() {
    let server = example_server();
    for code in [
        ReadDeviceIdCode::BasicStreaming,
        ReadDeviceIdCode::RegularStreaming,
        ReadDeviceIdCode::ExtendedStreaming,
    ] {
        let body = respond(&server, code, None).unwrap();
        assert!(body[3] == 0x00 || body[3] == 0xFF);
        assert!(body.len() <= 253);
        assert_eq!(objects(&body).len(), body[5] as usize);
    }
}

#[test]
fn specific_request_streams_from_the_object() {
    let server = example_server();
    let body = respond(&server, ReadDeviceIdCode::Specific, Some(0x05)).unwrap();
    assert_eq!(&body[0..2], &[0x0E, 0x04]);
    let ids: Vec<u8> = objects(&body).iter().map(|o| o.0).collect();
    assert_eq!(ids, vec![0x05, 0x06]);
}

#[test]
fn specific_request_for_unknown_object_is_refused() {
    let server = example_server();
    assert_eq!(
        respond(&server, ReadDeviceIdCode::Specific, Some(0x42)),
        Err(RequestError::Exception(ExceptionCode::IllegalDataAddress))
    );
}

#[test]
fn specific_request_without_individual_access_is_refused() {
    let basic = [obj(0x00, "Vendor")];
    let server = ServerDeviceInfo::new(&basic, &[], &[], false).unwrap();
    assert_eq!(server.conformity_level(), ReadDeviceConformityLevel::BasicIdentificationStream);
    assert_eq!(
        respond(&server, ReadDeviceIdCode::Specific, Some(0x00)),
        Err(RequestError::Exception(ExceptionCode::IllegalDataAddress))
    );
}

#[test]
fn conformity_follows_the_categories() {
    let basic = [obj(0x00, "Vendor")];
    let regular = [obj(0x03, "x")];
    let server = ServerDeviceInfo::new(&basic, &regular, &[], true).unwrap();
    assert_eq!(server.conformity_level(), ReadDeviceConformityLevel::RegularIdentificationIndividual);
    let server = ServerDeviceInfo::new(&basic, &regular, &[], false).unwrap();
    assert_eq!(server.conformity_level(), ReadDeviceConformityLevel::RegularIdentificationStream);
}

#[test]
fn oversized_object_is_refused() {
    let big = InfoObject::new(0x80, vec![0x41; 245]);
    assert_eq!(
        ServerDeviceInfo::new(&[obj(0, "v")], &[], &[big], false).err(),
        Some(DeviceInfoError::ObjectTooLarge(0x80))
    );
    let fits = InfoObject::new(0x80, vec![0x41; 244]);
    assert!(ServerDeviceInfo::new(&[obj(0, "v")], &[], &[fits], false).is_ok());
}

#[test]
fn duplicate_ids_are_refused() {
    assert_eq!(
        ServerDeviceInfo::new(&[obj(0, "a"), obj(0, "b")], &[], &[], false).err(),
        Some(DeviceInfoError::DuplicateObjectId(0))
    );
    assert_eq!(
        ServerDeviceInfo::new(&[obj(0, "a")], &[obj(0, "b")], &[], true).err(),
        Some(DeviceInfoError::DuplicateObjectId(0))
    );
    assert!(ServerDeviceInfo::new(&[obj(0, "a")], &[obj(0, "b")], &[], false).is_ok());
}

#[test]
fn client_reads_back_a_page() {
    let server = example_server();
    let body = respond(&server, ReadDeviceIdCode::ExtendedStreaming, None).unwrap();
    let mut cursor = ReadCursor::new(&body);
    let info = parse_device_identification_response(&mut cursor).unwrap();
    assert_eq!(info.mei_code, MeiCode::ReadDeviceId);
    assert_eq!(info.read_device_id, ReadDeviceIdCode::ExtendedStreaming);
    assert_eq!(info.conformity_level, ReadDeviceConformityLevel::ExtendedIdentificationIndividual);
    assert_eq!(info.continue_at, Some(0x8D));
    let ids: Vec<u8> = info.storage.iter().map(|o| o.id).collect();
    assert_eq!(ids, vec![0x8A, 0x8B, 0x8C]);
    assert_eq!(info.storage[2].data, b"Another value for 0x8C".to_vec());
}

#[test]
fn client_refuses_bad_more_follows() {
    let body = [0x0E, 0x01, 0x01, 0x12, 0x00, 0x00];
    assert_eq!(
        parse_device_identification_response(&mut ReadCursor::new(&body)),
        Err(RequestError::BadResponse(rodbus::AduParseError::MoreFollowsOutOfRange(0x12)))
    );
}

#[test]
fn client_refuses_trailing_bytes() {
    let body = [0x0E, 0x01, 0x01, 0x00, 0x00, 0x01, 0x00, 0x01, 0x41, 0x42];
    assert_eq!(
        parse_device_identification_response(&mut ReadCursor::new(&body)),
        Err(RequestError::BadResponse(rodbus::AduParseError::TrailingBytes(1)))
    );
}

#[test]
fn message_count_finds_first_object_that_does_not_fit() {
    let body = [0x0E, 0x01, 0x01, 0x00, 0x00, 0x02, 0x00, 0x03, 0x41, 0x42, 0x43, 0x01, 0x02, 0x44, 0x45];
    let info = parse_device_identification_response(&mut ReadCursor::new(&body)).unwrap();
    assert_eq!(info.response_message_count(5), Some(1));
    assert_eq!(info.response_message_count(9), None);
    assert_eq!(info.response_message_count(4), Some(0));
}

#[test]
fn new_device_info_is_empty() {
    let info = rodbus::DeviceInfo::new(0x0E, 0x02, 0x82);
    assert_eq!(info.read_device_id, ReadDeviceIdCode::RegularStreaming);
    assert_eq!(info.conformity_level, ReadDeviceConformityLevel::RegularIdentificationIndividual);
    assert!(info.storage.is_empty());
    assert_eq!(info.continue_at, None);
}

#[test]
fn continuation_bytes() {
    let mut buffer = [0u8; 2];
    let mut cursor = WriteCursor::new(&mut buffer);
    serialize_continuation(Some(0x8D), &mut cursor).unwrap();
    assert_eq!(buffer, [0xFF, 0x8D]);
}

#[test]
fn largest_object_fills_a_pdu_of_253_bytes() {
    let fits = InfoObject::new(0x80, vec![0x41; 244]);
    let server = ServerDeviceInfo::new(&[obj(0, "v")], &[], &[fits], false).unwrap();
    let body = respond(&server, ReadDeviceIdCode::ExtendedStreaming, None).unwrap();
    assert_eq!(1 + body.len(), 253);
    assert_eq!(&body[0..6], &[0x0E, 0x03, 0x03, 0x00, 0x00, 0x01]);
}

#[test]
fn following_the_continuation_ids_reads_every_object_once() {
    let server = example_server();
    let mut ids = Vec::new();
    let mut next = None;
    loop {
        let body = respond(&server, ReadDeviceIdCode::ExtendedStreaming, next).unwrap();
        ids.extend(objects(&body).iter().map(|o| o.0));
        if body[3] == 0x00 {
            break;
        }
        next = Some(body[4]);
    }
    assert_eq!(ids, vec![0x8A, 0x8B, 0x8C, 0x8D]);
}
