//! Modbus protocol library: byte cursors, the value types of the protocol,
//! the PDU codec, MBAP and RTU framing, the device identification server
//! model and the request dispatch of a server.

pub mod bits;
pub mod client;
pub mod codec;
pub mod cursor;
pub mod device;
pub mod error;
pub mod frame;
pub mod handlers;
pub mod pdu;
pub mod server;
pub mod session;
pub mod types;

pub use bits::{calc_bytes_for_bits, calc_bytes_for_registers, serialize_bits, serialize_registers};
pub use client::{parse_device_reply, parse_echo_reply, parse_read_bits_reply, parse_read_registers_reply};
pub use codec::{serialize_continuation, serialize_str, Slot};
pub use device::{
    parse_device_identification_response, DeviceInfo, DeviceInfoError, InfoObject,
    ServerDeviceInfo,
};
pub use error::{
    AduParseError, ExceptionCode, FrameParseError, InternalError, InvalidRange, RequestError,
};
pub use handlers::{ServerHandlerMap, ServerHandlerType};
pub use frame::{calc_crc, format_mbap, format_rtu, parse_mbap, parse_rtu, Frame, ParseOutcome};
pub use pdu::{
    parse_bits_response, parse_registers_response, parse_response_start, BitIterator,
    FunctionCode, InvalidRequest, RegisterIterator, WriteMultiple,
};
pub use server::{
    get_range_of, parse_request, process_request, write_echo_reply, Request, ServerHandler,
};
pub use session::{authorize_read_only, route, InFlight, Route, TransactionIds};
pub use types::{
    coil_from_u16, coil_to_u16, mei_code_from_u8, read_device_id_from_u8, AddressRange, Indexed,
    MaskWriteRegister, MeiCode, ReadBitsRange, ReadDeviceConformityLevel, ReadDeviceIdCode,
    ReadDeviceRequest, ReadRegistersRange, UnitId,
};
