//! Exception codes sent to a peer and the errors reported to a caller.
use vstd::prelude::*;

verus! {

/// Exception code carried by an exception response.
#[derive(Clone, Copy, Debug, PartialEq, Eq, Structural)]
pub enum ExceptionCode {
    IllegalFunction,
    IllegalDataAddress,
    IllegalDataValue,
    ServerDeviceFailure,
    Acknowledge,
    ServerDeviceBusy,
    MemoryParityError,
    GatewayPathUnavailable,
    GatewayTargetFailedToRespond,
}

/// Byte of an exception code on the wire.
pub open spec fn exception_byte(e: ExceptionCode) -> u8 {
    match e {
        ExceptionCode::IllegalFunction => 0x01,
        ExceptionCode::IllegalDataAddress => 0x02,
        ExceptionCode::IllegalDataValue => 0x03,
        ExceptionCode::ServerDeviceFailure => 0x04,
        ExceptionCode::Acknowledge => 0x05,
        ExceptionCode::ServerDeviceBusy => 0x06,
        ExceptionCode::MemoryParityError => 0x08,
        ExceptionCode::GatewayPathUnavailable => 0x0A,
        ExceptionCode::GatewayTargetFailedToRespond => 0x0B,
    }
}

/// Exception code of a byte, if the byte names one.
pub open spec fn exception_of_byte(b: u8) -> Option<ExceptionCode> {
    if b == 0x01 {
        Some(ExceptionCode::IllegalFunction)
    } else if b == 0x02 {
        Some(ExceptionCode::IllegalDataAddress)
    } else if b == 0x03 {
        Some(ExceptionCode::IllegalDataValue)
    } else if b == 0x04 {
        Some(ExceptionCode::ServerDeviceFailure)
    } else if b == 0x05 {
        Some(ExceptionCode::Acknowledge)
    } else if b == 0x06 {
        Some(ExceptionCode::ServerDeviceBusy)
    } else if b == 0x08 {
        Some(ExceptionCode::MemoryParityError)
    } else if b == 0x0A {
        Some(ExceptionCode::GatewayPathUnavailable)
    } else if b == 0x0B {
        Some(ExceptionCode::GatewayTargetFailedToRespond)
    } else {
        None
    }
}

impl ExceptionCode {
    /// The byte that stands for this code on the wire.
    pub fn to_u8(self) -> (r: u8)
        ensures
            r == exception_byte(self),
    {
        match self {
            ExceptionCode::IllegalFunction => 0x01,
            ExceptionCode::IllegalDataAddress => 0x02,
            ExceptionCode::IllegalDataValue => 0x03,
            ExceptionCode::ServerDeviceFailure => 0x04,
            ExceptionCode::Acknowledge => 0x05,
            ExceptionCode::ServerDeviceBusy => 0x06,
            ExceptionCode::MemoryParityError => 0x08,
            ExceptionCode::GatewayPathUnavailable => 0x0A,
            ExceptionCode::GatewayTargetFailedToRespond => 0x0B,
        }
    }

    /// The code that a byte stands for; `UnknownException` for any other byte.
    pub fn from_u8(value: u8) -> (r: Result<ExceptionCode, AduParseError>)
        ensures
            match exception_of_byte(value) {
                Some(e) => r == Ok::<ExceptionCode, AduParseError>(e),
                None => r == Err::<ExceptionCode, AduParseError>(AduParseError::UnknownException(value)),
            },
    {
        match value {
            0x01 => Ok(ExceptionCode::IllegalFunction),
            0x02 => Ok(ExceptionCode::IllegalDataAddress),
            0x03 => Ok(ExceptionCode::IllegalDataValue),
            0x04 => Ok(ExceptionCode::ServerDeviceFailure),
            0x05 => Ok(ExceptionCode::Acknowledge),
            0x06 => Ok(ExceptionCode::ServerDeviceBusy),
            0x08 => Ok(ExceptionCode::MemoryParityError),
            0x0A => Ok(ExceptionCode::GatewayPathUnavailable),
            0x0B => Ok(ExceptionCode::GatewayTargetFailedToRespond),
            _ => Err(AduParseError::UnknownException(value)),
        }
    }
}

/// Reasons why a start and count do not make an address range.
#[derive(Clone, Copy, Debug, PartialEq, Eq, Structural)]
pub enum InvalidRange {
    /// The count is zero.
    CountOfZero,
    /// The last address would pass 0xFFFF: start and count.
    AddressOverflow(u16, u16),
    /// The count passes the cap of the function: count and cap.
    CountTooLargeForType(u16, u16),
}

/// Errors found while reading a PDU.
#[derive(Clone, Copy, Debug, PartialEq, Eq, Structural)]
pub enum AduParseError {
    /// Fewer bytes than the field needs.
    InsufficientBytes,
    /// Bytes left after the last field: how many.
    TrailingBytes(usize),
    /// A byte count that disagrees with the count of items: expected, found.
    ByteCountMismatch(usize, u8),
    /// A response whose function byte is neither the request's nor its exception.
    UnknownResponseFunction(u8),
    /// A coil value other than 0xFF00 and 0x0000.
    UnknownCoilState(u16),
    /// An encapsulated interface type other than 0x0D and 0x0E.
    MeiCodeOutOfRange(u8),
    /// A device identification code outside 0x01..=0x04.
    DeviceCodeOutOfRange(u8),
    /// A conformity level outside the six defined ones.
    ConformityLevelOutOfRange(u8),
    /// A more-follows byte other than 0x00 and 0xFF.
    MoreFollowsOutOfRange(u8),
    /// A function byte that names no function.
    UnknownFunction(u8),
    /// An exception byte that names no exception.
    UnknownException(u8),
    /// More than the one byte of an exception response.
    TooManyBytes,
    /// An echo that differs from the request.
    ReplyEchoMismatch,
}

/// Errors of the MBAP and RTU framing.
#[derive(Clone, Copy, Debug, PartialEq, Eq, Structural)]
pub enum FrameParseError {
    /// A protocol id other than zero.
    BadProtocolId(u16),
    /// A length field outside 2..=254.
    BadLength(u16),
    /// A frame too short or too long to hold a unit id, a PDU and a CRC.
    BadFrameSize(usize),
    /// The CRC computed over the frame and the one received.
    BadCrc(u16, u16),
}

/// Errors of this library's own making, never of the peer's.
#[derive(Clone, Copy, Debug, PartialEq, Eq, Structural)]
pub enum InternalError {
    /// The output buffer has no room left for what must be written.
    InsufficientWriteSpace,
    /// A byte count that does not fit in one byte.
    BadByteCount(usize),
}

/// Errors reported to the caller of a request.
#[derive(Clone, Copy, Debug, PartialEq, Eq, Structural)]
pub enum RequestError {
    /// The server answered with an exception.
    Exception(ExceptionCode),
    /// The request held an invalid range.
    BadRequest(InvalidRange),
    /// A frame could not be read.
    BadFrame(FrameParseError),
    /// A PDU could not be read.
    BadResponse(AduParseError),
    /// This library could not do its part.
    Internal(InternalError),
    /// No response came in time.
    ResponseTimeout,
    /// The channel was shut down.
    Shutdown,
    /// The transport failed.
    Io,
}

impl RequestError {
    /// A read that found too few bytes.
    pub open spec fn insufficient() -> RequestError {
        RequestError::BadResponse(AduParseError::InsufficientBytes)
    }

    /// A write that found too little room.
    pub open spec fn no_room() -> RequestError {
        RequestError::Internal(InternalError::InsufficientWriteSpace)
    }
}

impl From<AduParseError> for RequestError {
    fn from(e: AduParseError) -> (r: RequestError)
        ensures
            r == RequestError::BadResponse(e),
    {
        RequestError::BadResponse(e)
    }
}

impl vstd::std_specs::convert::FromSpecImpl<AduParseError> for RequestError {
    open spec fn obeys_from_spec() -> bool {
        true
    }

    open spec fn from_spec(e: AduParseError) -> RequestError {
        RequestError::BadResponse(e)
    }
}

impl From<InvalidRange> for RequestError {
    fn from(e: InvalidRange) -> (r: RequestError)
        ensures
            r == RequestError::BadRequest(e),
    {
        RequestError::BadRequest(e)
    }
}

impl vstd::std_specs::convert::FromSpecImpl<InvalidRange> for RequestError {
    open spec fn obeys_from_spec() -> bool {
        true
    }

    open spec fn from_spec(e: InvalidRange) -> RequestError {
        RequestError::BadRequest(e)
    }
}

impl From<ExceptionCode> for RequestError {
    fn from(e: ExceptionCode) -> (r: RequestError)
        ensures
            r == RequestError::Exception(e),
    {
        RequestError::Exception(e)
    }
}

impl vstd::std_specs::convert::FromSpecImpl<ExceptionCode> for RequestError {
    open spec fn obeys_from_spec() -> bool {
        true
    }

    open spec fn from_spec(e: ExceptionCode) -> RequestError {
        RequestError::Exception(e)
    }
}

} // verus!
